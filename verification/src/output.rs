//! Reading the model's reply: removing chat-turn markup, and splitting a
//! command reply into the command and its `#` hints.

use crate::text::{
    join_with, lemma_join_occurs, lemma_lines_are_pieces, lemma_lines_are_single,
    lemma_lines_of_join, lemma_lines_of_single, lemma_occurs_in_piece, lemma_piece_is_single, lemma_replace_absent,
    lemma_replace_occurs, lemma_trim_idempotent, lemma_trim_is_piece, lines, occurs, replace_all,
    replace_str, single_line, split_trimmed_lines, str_eq, trim, trimmed_lines,
};
use vstd::prelude::*;

verus! {

broadcast use vstd::string::group_string_axioms;

/// `raw` with each chat-turn marker replaced by a line feed, the markers taken
/// one after another in this order.
pub open spec fn strip_turn_markers(raw: Seq<char>) -> Seq<char> {
    let nl = seq!['\n'];
    let t1 = replace_all(raw, "<start_of_turn>"@, nl);
    let t2 = replace_all(t1, "<end_of_turn>"@, nl);
    let t3 = replace_all(t2, "</start_of_turn>"@, nl);
    let t4 = replace_all(t3, "</end_of_turn>"@, nl);
    let t5 = replace_all(t4, "<|start_of_turn|>"@, nl);
    let t6 = replace_all(t5, "<|end_of_turn|>"@, nl);
    let t7 = replace_all(t6, "</|start_of_turn|>"@, nl);
    replace_all(t7, "</|end_of_turn|>"@, nl)
}

/// A line that names a chat role and nothing else.
pub open spec fn is_role_label(l: Seq<char>) -> bool {
    ||| l == "user"@
    ||| l == "model"@
    ||| l == "assistant"@
    ||| l == "system"@
}

/// The lines that survive sanitizing: all but the role labels, in order.
pub open spec fn reply_lines(ls: Seq<Seq<char>>) -> Seq<Seq<char>> {
    ls.filter(|l: Seq<char>| !is_role_label(l))
}

/// The lines `ls` joined by line feeds.
pub open spec fn join_lines(ls: Seq<Seq<char>>) -> Seq<char> {
    join_with(ls, seq!['\n'])
}

/// What `sanitize_output` makes of `raw`: markers become line breaks, every
/// line is trimmed, role-label lines are dropped, and the rest are joined by
/// line feeds.
pub open spec fn sanitized(raw: Seq<char>) -> Seq<char> {
    join_lines(reply_lines(trimmed_lines(strip_turn_markers(raw))))
}

/// A hint line: one that starts with `#`.
pub open spec fn is_note(l: Seq<char>) -> bool {
    l.len() > 0 && l[0] == '#'
}

/// The trimmed lines of `s` that are not empty.
pub open spec fn nonblank_lines(s: Seq<char>) -> Seq<Seq<char>> {
    trimmed_lines(s).filter(|l: Seq<char>| l.len() > 0)
}

/// The first line of `ls` that is not a hint, or the empty line.
pub open spec fn first_command(ls: Seq<Seq<char>>) -> Seq<char>
    decreases ls.len(),
{
    if ls.len() == 0 {
        Seq::empty()
    } else if !is_note(ls[0]) {
        ls[0]
    } else {
        first_command(ls.drop_first())
    }
}

/// The command of a sanitized reply: its first non-blank line that is not a hint.
pub open spec fn command_line(s: Seq<char>) -> Seq<char> {
    first_command(nonblank_lines(s))
}

/// The hints of a sanitized reply: its non-blank lines that start with `#`, in order.
pub open spec fn note_lines(s: Seq<char>) -> Seq<Seq<char>> {
    nonblank_lines(s).filter(|l: Seq<char>| is_note(l))
}

fn is_role_line(l: &str) -> (b: bool)
    ensures
        b == is_role_label(l@),
{
    str_eq(l, "user") || str_eq(l, "model") || str_eq(l, "assistant") || str_eq(l, "system")
}

fn is_note_line(l: &str) -> (b: bool)
    ensures
        b == is_note(l@),
{
    l.unicode_len() > 0 && l.get_char(0) == '#'
}

/// Splits a sanitized command reply into the command (the first non-blank
/// line that does not start with `#`, or the empty string when there is
/// none) and the hints (every non-blank line that starts with `#`), all
/// trimmed.
pub fn parse_command_output<'a>(sanitized: &'a str) -> (r: (String, Vec<&'a str>))
    ensures
        r.0@ == command_line(sanitized@),
        r.1@.len() == note_lines(sanitized@).len(),
        forall|k: int| 0 <= k < r.1@.len() ==> #[trigger] r.1@[k]@ == note_lines(sanitized@)[k],
{
    let all = split_trimmed_lines(sanitized);
    let ghost t = trimmed_lines(sanitized@);
    let ghost nonblank = |l: Seq<char>| l.len() > 0;
    let mut lines: Vec<&'a str> = Vec::new();
    let mut k: usize = 0;
    while k < all.len()
        invariant
            all@.len() == t.len(),
            nonblank == (|l: Seq<char>| l.len() > 0),
            forall|j: int| 0 <= j < all@.len() ==> #[trigger] all@[j]@ == t[j],
            k <= all@.len(),
            lines@.len() == t.take(k as int).filter(nonblank).len(),
            forall|j: int|
                0 <= j < lines@.len() ==> #[trigger] lines@[j]@ == t.take(k as int).filter(
                    nonblank,
                )[j],
        decreases all@.len() - k,
    {
        assert(t.take(k + 1) =~= t.take(k as int).push(t[k as int]));
        proof {
            t.take(k as int).lemma_filter_push(t[k as int], nonblank);
        }
        let l = all[k];
        assert(nonblank(t[k as int]) == (l@.len() > 0));
        if l.unicode_len() > 0 {
            lines.push(l);
        }
        k = k + 1;
    }
    assert(t.take(all@.len() as int) =~= t);
    let ghost ls = nonblank_lines(sanitized@);
    assert(ls == t.filter(nonblank));
    let mut c: usize = 0;
    assert(ls.skip(0) =~= ls);
    while c < lines.len() && is_note_line(lines[c])
        invariant
            lines@.len() == ls.len(),
            forall|j: int| 0 <= j < lines@.len() ==> #[trigger] lines@[j]@ == ls[j],
            c <= ls.len(),
            first_command(ls) == first_command(ls.skip(c as int)),
        decreases ls.len() - c,
    {
        assert(ls.skip(c as int).drop_first() =~= ls.skip(c + 1));
        c = c + 1;
    }
    let command = if c < lines.len() {
        lines[c].to_owned()
    } else {
        String::new()
    };
    let ghost note = |l: Seq<char>| is_note(l);
    let mut notes: Vec<&'a str> = Vec::new();
    let mut k: usize = 0;
    while k < lines.len()
        invariant
            lines@.len() == ls.len(),
            forall|j: int| 0 <= j < lines@.len() ==> #[trigger] lines@[j]@ == ls[j],
            k <= ls.len(),
            note == (|l: Seq<char>| is_note(l)),
            notes@.len() == ls.take(k as int).filter(note).len(),
            forall|j: int|
                0 <= j < notes@.len() ==> #[trigger] notes@[j]@ == ls.take(k as int).filter(note)[j],
        decreases ls.len() - k,
    {
        assert(ls.take(k + 1) =~= ls.take(k as int).push(ls[k as int]));
        proof {
            ls.take(k as int).lemma_filter_push(ls[k as int], note);
        }
        assert(note(ls[k as int]) == is_note(lines@[k as int]@));
        if is_note_line(lines[k]) {
            notes.push(lines[k]);
        }
        k = k + 1;
    }
    assert(ls.take(ls.len() as int) =~= ls);
    (command, notes)
}

/// `raw` with chat-turn markers replaced by line breaks, every line trimmed,
/// lines that only name a chat role (`user`, `model`, `assistant`, `system`)
/// dropped, and the remaining lines joined by line feeds.
pub fn sanitize_output(raw: &str) -> (r: String)
    ensures
        r@ == sanitized(raw@),
{
    proof {
        reveal_strlit("<start_of_turn>");
        reveal_strlit("<end_of_turn>");
        reveal_strlit("</start_of_turn>");
        reveal_strlit("</end_of_turn>");
        reveal_strlit("<|start_of_turn|>");
        reveal_strlit("<|end_of_turn|>");
        reveal_strlit("</|start_of_turn|>");
        reveal_strlit("</|end_of_turn|>");
        reveal_strlit("\n");
    }
    assert("\n"@ =~= seq!['\n']);
    let t1 = replace_str(raw, "<start_of_turn>", "\n");
    let t2 = replace_str(t1.as_str(), "<end_of_turn>", "\n");
    let t3 = replace_str(t2.as_str(), "</start_of_turn>", "\n");
    let t4 = replace_str(t3.as_str(), "</end_of_turn>", "\n");
    let t5 = replace_str(t4.as_str(), "<|start_of_turn|>", "\n");
    let t6 = replace_str(t5.as_str(), "<|end_of_turn|>", "\n");
    let t7 = replace_str(t6.as_str(), "</|start_of_turn|>", "\n");
    let text = replace_str(t7.as_str(), "</|end_of_turn|>", "\n");
    assert(text@ == strip_turn_markers(raw@));
    let all = split_trimmed_lines(text.as_str());
    let ghost t = trimmed_lines(text@);
    let ghost keep = |l: Seq<char>| !is_role_label(l);
    let mut r = String::new();
    let mut any = false;
    let mut k: usize = 0;
    while k < all.len()
        invariant
            keep == (|l: Seq<char>| !is_role_label(l)),
            all@.len() == t.len(),
            forall|j: int| 0 <= j < all@.len() ==> #[trigger] all@[j]@ == t[j],
            k <= all@.len(),
            r@ == join_lines(t.take(k as int).filter(keep)),
            any == (t.take(k as int).filter(keep).len() > 0),
            "\n"@ == seq!['\n'],
        decreases all@.len() - k,
    {
        assert(t.take(k + 1) =~= t.take(k as int).push(t[k as int]));
        proof {
            t.take(k as int).lemma_filter_push(t[k as int], keep);
        }
        let ghost before = t.take(k as int).filter(keep);
        let l = all[k];
        if !is_role_line(l) {
            if any {
                r.append("\n");
            }
            r.append(l);
            any = true;
            assert(before.push(l@).drop_last() =~= before);
            proof {
                if before.len() == 0 {
                    assert(r@ =~= before.push(l@)[0]);
                } else {
                    assert(join_lines(before.push(l@)) == join_lines(before) + seq!['\n'] + l@);
                }
            }
        }
        k = k + 1;
    }
    assert(t.take(all@.len() as int) =~= t);
    r
}

/// The chat-turn markers that sanitizing removes.
pub open spec fn turn_markers() -> Seq<Seq<char>> {
    seq![
        "<start_of_turn>"@,
        "<end_of_turn>"@,
        "</start_of_turn>"@,
        "</end_of_turn>"@,
        "<|start_of_turn|>"@,
        "<|end_of_turn|>"@,
        "</|start_of_turn|>"@,
        "</|end_of_turn|>"@,
    ]
}

proof fn lemma_markers_are_single_lines()
    ensures
        forall|k: int| 0 <= k < 8 ==> (#[trigger] turn_markers()[k]).len() > 0 && single_line(turn_markers()[k]),
{
    reveal_strlit("<start_of_turn>");
    reveal_strlit("<end_of_turn>");
    reveal_strlit("</start_of_turn>");
    reveal_strlit("</end_of_turn>");
    reveal_strlit("<|start_of_turn|>");
    reveal_strlit("<|end_of_turn|>");
    reveal_strlit("</|start_of_turn|>");
    reveal_strlit("</|end_of_turn|>");
    assert(single_line("<start_of_turn>"@));
    assert(single_line("<end_of_turn>"@));
    assert(single_line("</start_of_turn>"@));
    assert(single_line("</end_of_turn>"@));
    assert(single_line("<|start_of_turn|>"@));
    assert(single_line("<|end_of_turn|>"@));
    assert(single_line("</|start_of_turn|>"@));
    assert(single_line("</|end_of_turn|>"@));
}

proof fn lemma_replace_step(s: Seq<char>, pat: Seq<char>, q: Seq<char>)
    requires
        pat.len() > 0,
        q.len() > 0,
        single_line(q),
    ensures
        occurs(replace_all(s, pat, seq!['\n']), q) ==> occurs(s, q) && q != pat,
{
    if occurs(replace_all(s, pat, seq!['\n']), q) {
        let i = choose|i: int| crate::text::occurs_at(replace_all(s, pat, seq!['\n']), q, i);
        lemma_replace_occurs(s, pat, q, i);
    }
}

proof fn lemma_stripped_has_no_turn_markers(raw: Seq<char>, k: int)
    requires
        0 <= k < 8,
    ensures
        !occurs(strip_turn_markers(raw), turn_markers()[k]),
{
    lemma_markers_are_single_lines();
    let q = turn_markers()[k];
    let m = turn_markers();
    let nl = seq!['\n'];
    let t1 = replace_all(raw, m[0], nl);
    let t2 = replace_all(t1, m[1], nl);
    let t3 = replace_all(t2, m[2], nl);
    let t4 = replace_all(t3, m[3], nl);
    let t5 = replace_all(t4, m[4], nl);
    let t6 = replace_all(t5, m[5], nl);
    let t7 = replace_all(t6, m[6], nl);
    let t8 = replace_all(t7, m[7], nl);
    assert(t8 == strip_turn_markers(raw));
    assert(m[0].len() > 0 && m[1].len() > 0 && m[2].len() > 0 && m[3].len() > 0);
    assert(m[4].len() > 0 && m[5].len() > 0 && m[6].len() > 0 && m[7].len() > 0);
    lemma_replace_step(raw, m[0], q);
    lemma_replace_step(t1, m[1], q);
    lemma_replace_step(t2, m[2], q);
    lemma_replace_step(t3, m[3], q);
    lemma_replace_step(t4, m[4], q);
    lemma_replace_step(t5, m[5], q);
    lemma_replace_step(t6, m[6], q);
    lemma_replace_step(t7, m[7], q);
}

proof fn lemma_sanitized_text_was_stripped(raw: Seq<char>, q: Seq<char>)
    requires
        q.len() > 0,
        single_line(q),
        occurs(sanitized(raw), q),
    ensures
        occurs(strip_turn_markers(raw), q),
{
    let t = strip_turn_markers(raw);
    let tl = trimmed_lines(t);
    let kept = reply_lines(tl);
    let i = choose|i: int| crate::text::occurs_at(join_lines(kept), q, i);
    lemma_join_occurs(kept, q, i);
    let k = choose|k: int| 0 <= k < kept.len() && occurs(#[trigger] kept[k], q);
    assert(kept.contains(kept[k]));
    tl.lemma_filter_contains_rev(|l: Seq<char>| !is_role_label(l), kept[k]);
    let k2 = choose|k2: int| 0 <= k2 < tl.len() && tl[k2] == kept[k];
    let line = lines(t)[k2];
    assert(tl[k2] == trim(line));
    lemma_trim_is_piece(line);
    let (a, b) = choose|a: int, b: int| 0 <= a <= b <= line.len() && trim(line) == line.subrange(a, b);
    lemma_occurs_in_piece(line, a, b, q);
    lemma_lines_are_pieces(t, 0, k2);
    let (c, d) = choose|c: int, d: int| 0 <= c <= d <= t.len() && lines(t)[k2] == t.subrange(c, d);
    lemma_occurs_in_piece(t, c, d, q);
}

/// Sanitizing removes every chat-turn marker: none of them stands anywhere in
/// the sanitized text.
pub proof fn lemma_sanitized_has_no_turn_markers(raw: Seq<char>)
    ensures
        forall|k: int|
            0 <= k < turn_markers().len() ==> !occurs(sanitized(raw), #[trigger] turn_markers()[k]),
{
    assert forall|k: int| 0 <= k < turn_markers().len() implies !occurs(
        sanitized(raw),
        #[trigger] turn_markers()[k],
    ) by {
        lemma_markers_are_single_lines();
        lemma_stripped_has_no_turn_markers(raw, k);
        if occurs(sanitized(raw), turn_markers()[k]) {
            lemma_sanitized_text_was_stripped(raw, turn_markers()[k]);
        }
    }
}

proof fn lemma_first_command(ls: Seq<Seq<char>>)
    requires
        forall|k: int| 0 <= k < ls.len() ==> (#[trigger] ls[k]).len() > 0,
    ensures
        !is_note(first_command(ls)),
        first_command(ls).len() == 0 <==> forall|k: int| 0 <= k < ls.len() ==> is_note(#[trigger] ls[k]),
        first_command(ls).len() > 0 ==> ls.contains(first_command(ls)),
    decreases ls.len(),
{
    if ls.len() > 0 && is_note(ls[0]) {
        let rest = ls.drop_first();
        assert forall|k: int| 0 <= k < rest.len() implies (#[trigger] rest[k]).len() > 0 by {
            assert(rest[k] == ls[k + 1]);
        }
        lemma_first_command(rest);
        assert forall|k: int| 0 <= k < rest.len() implies #[trigger] rest[k] == ls[k + 1] by {}
        if first_command(ls).len() > 0 {
            let j = choose|j: int| 0 <= j < rest.len() && rest[j] == first_command(rest);
            assert(ls[j + 1] == first_command(ls));
        }
        if forall|k: int| 0 <= k < rest.len() ==> is_note(#[trigger] rest[k]) {
            assert forall|k: int| 0 <= k < ls.len() implies is_note(#[trigger] ls[k]) by {
                if k > 0 {
                    assert(ls[k] == rest[k - 1]);
                }
            }
        }
    } else if ls.len() > 0 {
        assert(ls[0] == first_command(ls));
    }
}

/// A command reply splits cleanly: the command is never a hint, every hint
/// starts with `#`, the command is empty exactly when every non-blank line is
/// a hint, and otherwise it is one of the reply's trimmed lines.
pub proof fn lemma_command_reply_parts(s: Seq<char>)
    ensures
        !is_note(command_line(s)),
        forall|k: int| 0 <= k < note_lines(s).len() ==> is_note(#[trigger] note_lines(s)[k]),
        command_line(s).len() == 0 <==> forall|k: int|
            0 <= k < nonblank_lines(s).len() ==> is_note(#[trigger] nonblank_lines(s)[k]),
        command_line(s).len() > 0 ==> trimmed_lines(s).contains(command_line(s)),
{
    let ls = nonblank_lines(s);
    let nonblank = |l: Seq<char>| l.len() > 0;
    assert forall|k: int| 0 <= k < ls.len() implies (#[trigger] ls[k]).len() > 0 by {
        trimmed_lines(s).lemma_filter_pred(nonblank, k);
    }
    lemma_first_command(ls);
    assert forall|k: int| 0 <= k < note_lines(s).len() implies is_note(#[trigger] note_lines(s)[k]) by {
        ls.lemma_filter_pred(|l: Seq<char>| is_note(l), k);
    }
    if command_line(s).len() > 0 {
        trimmed_lines(s).lemma_filter_contains_rev(nonblank, command_line(s));
    }
}

/// The command that a reply yields holds no chat-turn marker and does not
/// start with `#`.
pub proof fn lemma_command_is_clean(raw: Seq<char>)
    ensures
        !is_note(command_line(sanitized(raw))),
        forall|k: int|
            0 <= k < turn_markers().len() ==> !occurs(
                command_line(sanitized(raw)),
                #[trigger] turn_markers()[k],
            ),
{
    let s = sanitized(raw);
    let c = command_line(s);
    lemma_command_reply_parts(s);
    lemma_sanitized_has_no_turn_markers(raw);
    lemma_markers_are_single_lines();
    assert forall|k: int| 0 <= k < turn_markers().len() implies !occurs(
        c,
        #[trigger] turn_markers()[k],
    ) by {
        if occurs(c, turn_markers()[k]) {
            let tl = trimmed_lines(s);
            let j = choose|j: int| 0 <= j < tl.len() && tl[j] == c;
            let line = lines(s)[j];
            lemma_trim_is_piece(line);
            let (a, b) = choose|a: int, b: int|
                0 <= a <= b <= line.len() && trim(line) == line.subrange(a, b);
            lemma_occurs_in_piece(line, a, b, turn_markers()[k]);
            lemma_lines_are_pieces(s, 0, j);
            let (x, y) = choose|x: int, y: int|
                0 <= x <= y <= s.len() && lines(s)[j] == s.subrange(x, y);
            lemma_occurs_in_piece(s, x, y, turn_markers()[k]);
        }
    }
}

proof fn lemma_reply_lines_keep_all(ls: Seq<Seq<char>>)
    requires
        forall|k: int| 0 <= k < ls.len() ==> !is_role_label(#[trigger] ls[k]),
    ensures
        reply_lines(ls) == ls,
    decreases ls.len(),
{
    if ls.len() > 0 {
        let d = ls.drop_last();
        assert forall|k: int| 0 <= k < d.len() implies !is_role_label(#[trigger] d[k]) by {
            assert(d[k] == ls[k]);
        }
        lemma_reply_lines_keep_all(d);
        assert(d.push(ls.last()) =~= ls);
        d.lemma_filter_push(ls.last(), |l: Seq<char>| !is_role_label(l));
    }
}

proof fn lemma_kept_line_shape(raw: Seq<char>, k: int)
    requires
        0 <= k < reply_lines(trimmed_lines(strip_turn_markers(raw))).len(),
    ensures
        ({
            let x = reply_lines(trimmed_lines(strip_turn_markers(raw)))[k];
            single_line(x) && trim(x) == x && !is_role_label(x)
        }),
{
    let t = strip_turn_markers(raw);
    let tl = trimmed_lines(t);
    let keep = |l: Seq<char>| !is_role_label(l);
    let xs = reply_lines(tl);
    let x = xs[k];
    tl.lemma_filter_pred(keep, k);
    assert(xs.contains(x));
    tl.lemma_filter_contains_rev(keep, x);
    let j = choose|j: int| 0 <= j < tl.len() && tl[j] == x;
    let line = lines(t)[j];
    assert(x == trim(line));
    lemma_lines_are_single(t, 0, j);
    lemma_trim_is_piece(line);
    let (a, b) = choose|a: int, b: int| 0 <= a <= b <= line.len() && trim(line) == line.subrange(a, b);
    lemma_piece_is_single(line, a, b);
    lemma_trim_idempotent(line);
}

/// Sanitizing an already sanitized text gives it back, except that a final
/// line feed (left by an empty last line) goes.
pub proof fn lemma_sanitize_twice(raw: Seq<char>)
    ensures
        ({
            let s = sanitized(raw);
            sanitized(s) == if s.len() > 0 && s.last() == '\n' {
                s.drop_last()
            } else {
                s
            }
        }),
{
    let xs = reply_lines(trimmed_lines(strip_turn_markers(raw)));
    let s = sanitized(raw);
    let nl = seq!['\n'];
    assert forall|k: int| 0 <= k < xs.len() implies single_line(#[trigger] xs[k]) && trim(xs[k])
        == xs[k] && !is_role_label(xs[k]) by {
        lemma_kept_line_shape(raw, k);
    }
    // No marker is left, so the replacements change nothing.
    lemma_sanitized_has_no_turn_markers(raw);
    lemma_markers_are_single_lines();
    let m = turn_markers();
    assert(!occurs(s, m[0]) && !occurs(s, m[1]) && !occurs(s, m[2]) && !occurs(s, m[3]));
    assert(!occurs(s, m[4]) && !occurs(s, m[5]) && !occurs(s, m[6]) && !occurs(s, m[7]));
    assert(m[0].len() > 0 && m[1].len() > 0 && m[2].len() > 0 && m[3].len() > 0);
    assert(m[4].len() > 0 && m[5].len() > 0 && m[6].len() > 0 && m[7].len() > 0);
    lemma_replace_absent(s, m[0], nl);
    lemma_replace_absent(s, m[1], nl);
    lemma_replace_absent(s, m[2], nl);
    lemma_replace_absent(s, m[3], nl);
    lemma_replace_absent(s, m[4], nl);
    lemma_replace_absent(s, m[5], nl);
    lemma_replace_absent(s, m[6], nl);
    lemma_replace_absent(s, m[7], nl);
    assert(strip_turn_markers(s) == s);
    // The lines of the text are the kept lines, but for an empty last one.
    lemma_lines_of_join(xs);
    let ys = lines(s);
    assert forall|k: int| 0 <= k < ys.len() implies #[trigger] ys[k] == xs[k] by {}
    assert(trimmed_lines(s) =~= ys);
    assert forall|k: int| 0 <= k < ys.len() implies !is_role_label(#[trigger] ys[k]) by {}
    lemma_reply_lines_keep_all(ys);
    assert(sanitized(s) == join_lines(ys));
    if xs.len() > 0 && xs.last().len() == 0 {
        if xs.len() == 1 {
            assert(s == xs[0]);
            assert(join_lines(ys) =~= s);
        } else {
            assert(s == join_lines(ys) + nl + xs.last());
            assert(s.drop_last() =~= join_lines(ys));
        }
    } else if xs.len() == 1 {
        assert(s == xs[0]);
        assert(s.last() == xs[0][xs[0].len() - 1]);
    } else if xs.len() > 1 {
        assert(s == join_lines(xs.drop_last()) + nl + xs.last());
        assert(s.last() == xs.last()[xs.last().len() - 1]);
    }
}

/// Every line of a sanitized text is trimmed and does not merely name a chat
/// role.
pub proof fn lemma_sanitized_lines(raw: Seq<char>)
    ensures
        forall|k: int|
            0 <= k < lines(sanitized(raw)).len() ==> {
                let l = #[trigger] lines(sanitized(raw))[k];
                trim(l) == l && !is_role_label(l)
            },
{
    let xs = reply_lines(trimmed_lines(strip_turn_markers(raw)));
    assert forall|k: int| 0 <= k < xs.len() implies single_line(#[trigger] xs[k]) && trim(xs[k])
        == xs[k] && !is_role_label(xs[k]) by {
        lemma_kept_line_shape(raw, k);
    }
    lemma_lines_of_join(xs);
    assert forall|k: int| 0 <= k < lines(sanitized(raw)).len() implies #[trigger] lines(
        sanitized(raw),
    )[k] == xs[k] by {}
}

proof fn lemma_first_plain_of_filter(t: Seq<Seq<char>>, k: int)
    requires
        0 <= k < t.len(),
        t[k].len() > 0,
        t[k][0] != '#',
        forall|j: int| 0 <= j < k ==> (#[trigger] t[j]).len() == 0 || t[j][0] == '#',
    ensures
        first_command(t.filter(|l: Seq<char>| l.len() > 0)) == t[k],
    decreases k,
{
    let nonblank = |l: Seq<char>| l.len() > 0;
    let rest = t.drop_first();
    assert(t =~= seq![t[0]] + rest);
    rest.lemma_filter_prepend(t[0], nonblank);
    let f = t.filter(nonblank);
    if k == 0 {
        assert(f[0] == t[0]);
    } else {
        assert forall|j: int| 0 <= j < k - 1 implies (#[trigger] rest[j]).len() == 0 || rest[j][0]
            == '#' by {
            assert(rest[j] == t[j + 1]);
        }
        lemma_first_plain_of_filter(rest, k - 1);
        if t[0].len() > 0 {
            assert(is_note(f[0]));
            assert(f.drop_first() =~= rest.filter(nonblank));
        } else {
            assert(f =~= rest.filter(nonblank));
        }
    }
}

/// The command of a reply is its first trimmed line that is not empty and
/// does not start with `#`: a line `k` of that kind, with only empty lines
/// and `#` lines before it, is the command, however short it is.
pub proof fn lemma_command_is_first_plain_line(s: Seq<char>, k: int)
    requires
        0 <= k < trimmed_lines(s).len(),
        trimmed_lines(s)[k].len() > 0,
        trimmed_lines(s)[k][0] != '#',
        forall|j: int|
            0 <= j < k ==> (#[trigger] trimmed_lines(s)[j]).len() == 0 || trimmed_lines(s)[j][0]
                == '#',
    ensures
        command_line(s) == trimmed_lines(s)[k],
{
    lemma_first_plain_of_filter(trimmed_lines(s), k);
}

/// A reply of one line that, trimmed, is not empty and does not start with
/// `#` is a command alone: the command is that line trimmed, and there are no
/// hints.
pub proof fn lemma_one_line_command(x: Seq<char>)
    requires
        single_line(x),
        trim(x).len() > 0,
        trim(x)[0] != '#',
    ensures
        command_line(x) == trim(x),
        note_lines(x).len() == 0,
{
    lemma_trim_is_piece(x);
    lemma_lines_of_single(x);
    let t = trimmed_lines(x);
    assert(t =~= seq![trim(x)]);
    lemma_command_is_first_plain_line(x, 0);
    let nonblank = |l: Seq<char>| l.len() > 0;
    let note = |l: Seq<char>| is_note(l);
    Seq::<Seq<char>>::empty().lemma_filter_prepend(trim(x), nonblank);
    assert(t =~= seq![trim(x)] + Seq::<Seq<char>>::empty());
    assert(Seq::<Seq<char>>::empty().filter(nonblank) =~= Seq::<Seq<char>>::empty()) by {
        reveal(Seq::filter);
    }
    assert(nonblank_lines(x) =~= seq![trim(x)] + Seq::<Seq<char>>::empty());
    Seq::<Seq<char>>::empty().lemma_filter_prepend(trim(x), note);
    assert(Seq::<Seq<char>>::empty().filter(note) =~= Seq::<Seq<char>>::empty()) by {
        reveal(Seq::filter);
    }
}

proof fn lemma_absent_without_first(s: Seq<char>, pat: Seq<char>)
    requires
        pat.len() > 0,
        forall|i: int| 0 <= i < s.len() ==> s[i] != pat[0],
    ensures
        !occurs(s, pat),
{
    if occurs(s, pat) {
        let i = choose|i: int| crate::text::occurs_at(s, pat, i);
        assert(s.subrange(i, i + pat.len())[0] == s[i]);
    }
}

/// A reply with no `<` in it holds no chat-turn marker, and sanitizing it
/// only trims its lines, drops those that are exactly `user`, `model`,
/// `assistant` or `system`, and joins the rest by line feeds: every other
/// line stays.
pub proof fn lemma_sanitize_plain_reply(raw: Seq<char>)
    requires
        forall|i: int| 0 <= i < raw.len() ==> raw[i] != '<',
    ensures
        sanitized(raw) == join_with(
            trimmed_lines(raw).filter(
                |l: Seq<char>|
                    !(l == "user"@ || l == "model"@ || l == "assistant"@ || l == "system"@),
            ),
            seq!['\n'],
        ),
{
    let nl = seq!['\n'];
    let m = turn_markers();
    lemma_markers_are_single_lines();
    reveal_strlit("<start_of_turn>");
    reveal_strlit("<end_of_turn>");
    reveal_strlit("</start_of_turn>");
    reveal_strlit("</end_of_turn>");
    reveal_strlit("<|start_of_turn|>");
    reveal_strlit("<|end_of_turn|>");
    reveal_strlit("</|start_of_turn|>");
    reveal_strlit("</|end_of_turn|>");
    assert(m[0][0] == '<' && m[1][0] == '<' && m[2][0] == '<' && m[3][0] == '<');
    assert(m[4][0] == '<' && m[5][0] == '<' && m[6][0] == '<' && m[7][0] == '<');
    assert(m[0].len() > 0 && m[1].len() > 0 && m[2].len() > 0 && m[3].len() > 0);
    assert(m[4].len() > 0 && m[5].len() > 0 && m[6].len() > 0 && m[7].len() > 0);
    lemma_absent_without_first(raw, m[0]);
    lemma_absent_without_first(raw, m[1]);
    lemma_absent_without_first(raw, m[2]);
    lemma_absent_without_first(raw, m[3]);
    lemma_absent_without_first(raw, m[4]);
    lemma_absent_without_first(raw, m[5]);
    lemma_absent_without_first(raw, m[6]);
    lemma_absent_without_first(raw, m[7]);
    lemma_replace_absent(raw, m[0], nl);
    lemma_replace_absent(raw, m[1], nl);
    lemma_replace_absent(raw, m[2], nl);
    lemma_replace_absent(raw, m[3], nl);
    lemma_replace_absent(raw, m[4], nl);
    lemma_replace_absent(raw, m[5], nl);
    lemma_replace_absent(raw, m[6], nl);
    lemma_replace_absent(raw, m[7], nl);
    assert(strip_turn_markers(raw) == raw);
    let labels = |l: Seq<char>|
        !(l == "user"@ || l == "model"@ || l == "assistant"@ || l == "system"@);
    assert((|l: Seq<char>| !is_role_label(l)) =~= labels);
}

/// A one-line reply with no `<` in it that, trimmed, is none of `user`,
/// `model`, `assistant` and `system` sanitizes to itself trimmed, however
/// short it is.
pub proof fn lemma_sanitize_one_line(x: Seq<char>)
    requires
        single_line(x),
        forall|i: int| 0 <= i < x.len() ==> x[i] != '<',
        trim(x) != "user"@,
        trim(x) != "model"@,
        trim(x) != "assistant"@,
        trim(x) != "system"@,
    ensures
        sanitized(x) == trim(x),
{
    lemma_sanitize_plain_reply(x);
    lemma_lines_of_single(x);
    let labels = |l: Seq<char>|
        !(l == "user"@ || l == "model"@ || l == "assistant"@ || l == "system"@);
    let e = Seq::<Seq<char>>::empty();
    assert(e.filter(labels) =~= e) by {
        reveal(Seq::filter);
    }
    if x.len() > 0 {
        let t = trimmed_lines(x);
        assert(t =~= seq![trim(x)] + e);
        e.lemma_filter_prepend(trim(x), labels);
        assert(t.filter(labels) =~= seq![trim(x)]);
    } else {
        assert(trimmed_lines(x) =~= e);
        assert(trim(x) =~= x);
    }
}

} // verus!
