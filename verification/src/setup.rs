//! The choices the configuration wizard offers and the values it detects.

use crate::config::model_named;
use crate::text::{chars_of, is_ws, str_eq, trim, trim_bounds, trim_end, trim_start, trim_str};
use vstd::prelude::*;

verus! {

broadcast use vstd::string::group_string_axioms;

/// The model recommended for a machine with `ram_gb` GiB of memory.
pub open spec fn recommended_for(ram_gb: u64) -> Seq<char> {
    if ram_gb >= 16 {
        "E4B"@
    } else {
        "E2B"@
    }
}

/// The model recommended for a machine with `ram_gb` GiB of memory: E4B
/// from 16 GiB on, E2B below.
pub fn recommended_model(ram_gb: u64) -> (r: &'static str)
    ensures
        r@ == recommended_for(ram_gb),
{
    if ram_gb >= 16 {
        "E4B"
    } else {
        "E2B"
    }
}

/// A short description of the model named `name`.
pub fn model_summary(name: &str) -> (r: &'static str)
    ensures
        name@ == "E4B"@ ==> r@ == "more capable, higher memory"@,
        name@ != "E4B"@ ==> r@ == "faster, lower memory"@,
{
    if str_eq(name, "E4B") {
        "more capable, higher memory"
    } else {
        "faster, lower memory"
    }
}

/// The position, in the wizard's model menu, of the model named `name`:
/// 1 for E4B, 0 otherwise.
pub fn model_menu_index(name: &str) -> (r: usize)
    ensures
        r == (if name@ == "E4B"@ { 1usize } else { 0usize }),
{
    if str_eq(name, "E4B") {
        1
    } else {
        0
    }
}

/// The entries of the wizard's model menu.
pub fn model_menu() -> (r: Vec<&'static str>)
    ensures
        r@.len() == 2,
        r@[0]@ == "E2B — faster, lower RAM footprint"@,
        r@[1]@ == "E4B — more capable, higher RAM"@,
{
    vec!["E2B — faster, lower RAM footprint", "E4B — more capable, higher RAM"]
}

/// The model that entry `choice` of the model menu names.
pub open spec fn model_choice(choice: usize) -> Seq<char> {
    if choice == 0 {
        "E2B"@
    } else {
        "E4B"@
    }
}

/// The model chosen by picking entry `choice` of the model menu: E2B for the
/// first entry, E4B for any other.
pub fn model_for_choice(choice: usize) -> (r: &'static str)
    ensures
        r@ == model_choice(choice),
{
    if choice == 0 {
        "E2B"
    } else {
        "E4B"
    }
}

/// The shells the wizard offers, the last entry standing for a path typed in.
pub open spec fn shell_menu_entries() -> Seq<Seq<char>> {
    seq![
        "/bin/zsh"@,
        "/bin/bash"@,
        "/bin/sh"@,
        "/bin/tcsh"@,
        "/bin/ksh"@,
        "/opt/homebrew/bin/fish"@,
        "/usr/local/bin/fish"@,
        "Other (enter a custom shell path)"@,
    ]
}

/// The entry of the shell menu that asks for a path to be typed in.
pub const CUSTOM_SHELL_CHOICE: usize = 7;

/// The entries of the wizard's shell menu.
pub fn shell_menu() -> (r: Vec<&'static str>)
    ensures
        r@.len() == shell_menu_entries().len(),
        forall|k: int| 0 <= k < r@.len() ==> #[trigger] r@[k]@ == shell_menu_entries()[k],
{
    let r = vec![
        "/bin/zsh",
        "/bin/bash",
        "/bin/sh",
        "/bin/tcsh",
        "/bin/ksh",
        "/opt/homebrew/bin/fish",
        "/usr/local/bin/fish",
        "Other (enter a custom shell path)",
    ];
    assert(r@.len() == 8);
    r
}

/// The entry of the shell menu selected at first for the shell `detected`:
/// the first entry equal to it, or the custom-path entry when none is.
pub open spec fn shell_menu_default(detected: Seq<char>) -> int {
    if exists|k: int| 0 <= k < 8 && shell_menu_entries()[k] == detected {
        choose|k: int|
            0 <= k < 8 && shell_menu_entries()[k] == detected && forall|j: int|
                0 <= j < k ==> shell_menu_entries()[j] != detected
    } else {
        CUSTOM_SHELL_CHOICE as int
    }
}

/// The entry of the shell menu selected at first for the shell `detected`.
pub fn default_shell_index(detected: &str) -> (r: usize)
    ensures
        r < 8,
        shell_menu_entries()[r as int] == detected@ ==> forall|j: int|
            0 <= j < r ==> shell_menu_entries()[j] != detected@,
        shell_menu_entries()[r as int] != detected@ ==> r == CUSTOM_SHELL_CHOICE && forall|j: int|
            0 <= j < 8 ==> shell_menu_entries()[j] != detected@,
{
    let menu = shell_menu();
    let mut k: usize = 0;
    while k < menu.len()
        invariant
            menu@.len() == 8,
            forall|j: int| 0 <= j < 8 ==> #[trigger] menu@[j]@ == shell_menu_entries()[j],
            k <= 8,
            forall|j: int| 0 <= j < k ==> shell_menu_entries()[j] != detected@,
        decreases 8 - k,
    {
        if str_eq(menu[k], detected) {
            return k;
        }
        k = k + 1;
    }
    CUSTOM_SHELL_CHOICE
}

/// The shell that the `SHELL` variable names: its value trimmed, or
/// `/bin/zsh` when it is not set.
pub open spec fn shell_of(var: Option<Seq<char>>) -> Seq<char> {
    match var {
        Some(v) => trim(v),
        None => "/bin/zsh"@,
    }
}

/// The shell named by the `SHELL` variable, trimmed, or `/bin/zsh` when the
/// variable is not set.
pub fn shell_from_env(var: Option<&str>) -> (r: String)
    ensures
        r@ == shell_of(
            match var {
                Some(v) => Some(v@),
                None => None,
            },
        ),
{
    match var {
        Some(v) => trim_str(v).to_owned(),
        None => "/bin/zsh".to_owned(),
    }
}

/// A decimal digit.
pub open spec fn is_digit(c: char) -> bool {
    '0' <= c && c <= '9'
}

/// The value of the decimal digits `d`.
pub open spec fn decimal_value(d: Seq<char>) -> int
    decreases d.len(),
{
    if d.len() == 0 {
        0
    } else {
        decimal_value(d.drop_last()) * 10 + (d.last() as int - '0' as int)
    }
}

/// `s` without a leading `+`, if it has one.
pub open spec fn unsigned_digits(s: Seq<char>) -> Seq<char> {
    if s.len() > 0 && s[0] == '+' {
        s.drop_first()
    } else {
        s
    }
}

/// A `u64` written in decimal, as `u64::from_str` reads it: an optional `+`,
/// then one or more digits whose value fits in 64 bits.
pub open spec fn parse_u64(s: Seq<char>) -> Option<u64> {
    let d = unsigned_digits(s);
    if d.len() > 0 && (forall|i: int| 0 <= i < d.len() ==> is_digit(d[i])) && decimal_value(d)
        <= u64::MAX {
        Some(decimal_value(d) as u64)
    } else {
        None
    }
}

/// The memory size in GiB that the output of `sysctl -n hw.memsize` gives,
/// or 8 when there is no output or it is not a byte count.
pub open spec fn ram_gb_of(stdout: Option<Seq<char>>) -> u64 {
    match stdout {
        Some(s) => match parse_u64(trim(s)) {
            Some(bytes) => bytes / 1073741824,
            None => 8,
        },
        None => 8,
    }
}

proof fn lemma_decimal_value_grows(d: Seq<char>, k: int)
    requires
        0 <= k <= d.len(),
        forall|i: int| 0 <= i < d.len() ==> is_digit(d[i]),
    ensures
        0 <= decimal_value(d.take(k)) <= decimal_value(d),
    decreases d.len(),
{
    if d.len() > 0 {
        if k < d.len() {
            assert(d.drop_last().take(k) =~= d.take(k));
            lemma_decimal_value_grows(d.drop_last(), k);
        } else {
            assert(d.take(k) =~= d);
            lemma_decimal_value_grows(d.drop_last(), k - 1);
            assert(d.drop_last().take(k - 1) =~= d.drop_last());
        }
    } else {
        assert(d.take(k) =~= d);
    }
}

/// The digits `cs[a..b]` read as a `u64`, after an optional `+`.
fn parse_u64_chars(cs: &Vec<char>, a: usize, b: usize) -> (r: Option<u64>)
    requires
        a <= b <= cs@.len(),
    ensures
        r == parse_u64(cs@.subrange(a as int, b as int)),
{
    let ghost s = cs@.subrange(a as int, b as int);
    let mut start = a;
    if a < b && cs[a] == '+' {
        start = a + 1;
    }
    let ghost d = cs@.subrange(start as int, b as int);
    assert(d =~= unsigned_digits(s));
    if start == b {
        assert(d.len() == 0);
        return None;
    }
    let mut k = start;
    while k < b
        invariant
            start <= k <= b <= cs@.len(),
            d == cs@.subrange(start as int, b as int),
            s == cs@.subrange(a as int, b as int),
            d == unsigned_digits(s),
            d.len() > 0,
            forall|i: int| 0 <= i < k - start ==> is_digit(d[i]),
        decreases b - k,
    {
        if !('0' <= cs[k] && cs[k] <= '9') {
            assert(!is_digit(d[k - start]));
            return None;
        }
        k = k + 1;
    }
    let mut acc: u64 = 0;
    let mut k = start;
    while k < b
        invariant
            start <= k <= b <= cs@.len(),
            d == cs@.subrange(start as int, b as int),
            s == cs@.subrange(a as int, b as int),
            d == unsigned_digits(s),
            d.len() > 0,
            forall|i: int| 0 <= i < d.len() ==> is_digit(d[i]),
            acc as int == decimal_value(d.take(k - start)),
        decreases b - k,
    {
        let c = cs[k];
        assert(d[k - start] == c);
        assert(is_digit(c));
        let digit = (c as u32 - '0' as u32) as u64;
        assert(d.take(k + 1 - start).drop_last() =~= d.take(k - start));
        assert(d.take(k + 1 - start).last() == c);
        match acc.checked_mul(10) {
            Some(m) => match m.checked_add(digit) {
                Some(v) => {
                    acc = v;
                },
                None => {
                    proof {
                        lemma_decimal_value_grows(d, k + 1 - start);
                    }
                    return None;
                },
            },
            None => {
                proof {
                    lemma_decimal_value_grows(d, k + 1 - start);
                    lemma_decimal_value_grows(d, k - start);
                }
                return None;
            },
        }
        k = k + 1;
    }
    assert(d.take(b - start) =~= d);
    Some(acc)
}

/// The memory size in GiB reported by `sysctl -n hw.memsize`, from its
/// output when it ran and printed text; 8 otherwise.
pub fn ram_gb_from_sysctl(stdout: Option<&str>) -> (r: u64)
    ensures
        r == ram_gb_of(
            match stdout {
                Some(s) => Some(s@),
                None => None,
            },
        ),
{
    match stdout {
        Some(s) => {
            let cs = chars_of(s);
            let (lo, hi) = trim_bounds(&cs, 0, cs.len());
            assert(cs@.subrange(0, cs@.len() as int) =~= s@);
            match parse_u64_chars(&cs, lo, hi) {
                Some(bytes) => bytes / 1073741824,
                None => 8,
            }
        },
        None => 8,
    }
}

/// The wizard only offers and recommends models that the configuration can
/// load, and the model menu opens on the recommended model.
pub proof fn lemma_wizard_models_are_known(ram_gb: u64, choice: usize)
    ensures
        model_named(recommended_for(ram_gb)) is Some,
        model_named(model_choice(choice)) is Some,
        model_choice((if recommended_for(ram_gb) == "E4B"@ { 1usize } else { 0usize }))
            == recommended_for(ram_gb),
{
    reveal_strlit("E2B");
    reveal_strlit("E4B");
}

/// The memory size is never 0 unless `sysctl` reports less than 1 GiB.
pub proof fn lemma_ram_gb_positive(stdout: Option<Seq<char>>)
    ensures
        ram_gb_of(stdout) > 0 || (stdout matches Some(s) && parse_u64(trim(s)) matches Some(b)
            && b < 1073741824),
{
}

/// The detected shell is an absolute path when `SHELL` is not set or, once
/// trimmed, starts with `/`.
pub proof fn lemma_detected_shell_is_absolute(var: Option<Seq<char>>)
    requires
        var matches Some(v) ==> trim(v).len() > 0 && trim(v)[0] == '/',
    ensures
        shell_of(var).len() > 0 && shell_of(var)[0] == '/',
{
    reveal_strlit("/bin/zsh");
}

/// The recommendation is a threshold at 16 GiB: every machine with at least
/// 16 GiB gets E4B and every smaller one gets E2B, and the two differ.
pub proof fn lemma_recommendation_threshold(ram_gb: u64)
    ensures
        ram_gb >= 16 ==> recommended_for(ram_gb) == "E4B"@,
        ram_gb < 16 ==> recommended_for(ram_gb) == "E2B"@,
        recommended_for(ram_gb) == "E4B"@ <==> ram_gb >= 16,
{
    reveal_strlit("E2B");
    reveal_strlit("E4B");
    assert("E2B"@[1] != "E4B"@[1]);
}

/// When `SHELL` is set, the detected shell is its value trimmed, whatever the
/// value; a value without surrounding white space is taken as it is. Only an
/// unset variable gives `/bin/zsh`.
pub proof fn lemma_shell_is_the_variable(v: Seq<char>)
    ensures
        shell_of(Some(v)) == trim(v),
        (v.len() == 0 || (!is_ws(v[0]) && !is_ws(v.last()))) ==> shell_of(Some(v)) == v,
        shell_of(None) == "/bin/zsh"@,
{
    if v.len() > 0 && !is_ws(v[0]) && !is_ws(v.last()) {
        assert(trim_start(v) == v);
        assert(trim_end(v) == v);
    }
}

} // verus!
