//! The prompts given to the model, one per mode, in Gemma's chat format.

use crate::text::{lemma_occurs_in_middle, occurs};
use vstd::prelude::*;

verus! {

broadcast use vstd::string::group_string_axioms;

/// `content` as the user's turn of a Gemma chat, followed by the opening of
/// the model's turn.
pub open spec fn chat_turn(content: Seq<char>) -> Seq<char> {
    "<start_of_turn>user\n"@ + content + "<end_of_turn>\n<start_of_turn>model\n"@
}

fn chat_prompt(content: String) -> (r: String)
    ensures
        r@ == chat_turn(content@),
{
    let mut r = "<start_of_turn>user\n".to_owned();
    r.append(content.as_str());
    r.append("<end_of_turn>\n<start_of_turn>model\n");
    r
}

/// The request to turn `query` into one command for `shell` on `os`.
pub open spec fn command_request(query: Seq<char>, shell: Seq<char>, os: Seq<char>) -> Seq<char> {
    "Write one shell command for "@ + shell + " on "@ + os
        + ". Put the command alone on the first line, then explain each part on lines that start with '# '.\nTask: "@
        + query
}

/// The prompt that asks for a command doing `query`, in `shell` on `os`.
pub fn format_prompt(query: &str, shell: &str, os: &str) -> (r: String)
    ensures
        r@ == chat_turn(command_request(query@, shell@, os@)),
{
    let mut c = "Write one shell command for ".to_owned();
    c.append(shell);
    c.append(" on ");
    c.append(os);
    c.append(
        ". Put the command alone on the first line, then explain each part on lines that start with '# '.\nTask: ",
    );
    c.append(query);
    chat_prompt(c)
}

/// The request to explain `command`, run in `shell` on `os`.
pub open spec fn explain_request(command: Seq<char>, shell: Seq<char>, os: Seq<char>) -> Seq<char> {
    "Explain what this "@ + shell + " command does on "@ + os + ", part by part:\n"@ + command
}

/// The prompt that asks what `command` does, in `shell` on `os`.
pub fn format_explain_prompt(command: &str, shell: &str, os: &str) -> (r: String)
    ensures
        r@ == chat_turn(explain_request(command@, shell@, os@)),
{
    let mut c = "Explain what this ".to_owned();
    c.append(shell);
    c.append(" command does on ");
    c.append(os);
    c.append(", part by part:\n");
    c.append(command);
    chat_prompt(c)
}

/// The request to answer `question`.
pub open spec fn answer_request(question: Seq<char>) -> Seq<char> {
    "Answer this question clearly and briefly:\n"@ + question
}

/// The prompt that asks for an answer to `question`.
pub fn format_answer_prompt(question: &str) -> (r: String)
    ensures
        r@ == chat_turn(answer_request(question@)),
{
    let mut c = "Answer this question clearly and briefly:\n".to_owned();
    c.append(question);
    chat_prompt(c)
}

/// Every prompt opens the user's turn, ends by opening the model's turn, and
/// holds the text it was made from; a command or explanation prompt also
/// names the shell and the operating system.
pub proof fn lemma_prompts_hold_their_input(input: Seq<char>, shell: Seq<char>, os: Seq<char>)
    ensures
        ({
            let p = chat_turn(command_request(input, shell, os));
            &&& p.take("<start_of_turn>user\n"@.len() as int) == "<start_of_turn>user\n"@
            &&& p.skip(p.len() - "<start_of_turn>model\n"@.len()) == "<start_of_turn>model\n"@
            &&& occurs(p, input) && occurs(p, shell) && occurs(p, os)
        }),
        ({
            let p = chat_turn(explain_request(input, shell, os));
            &&& p.take("<start_of_turn>user\n"@.len() as int) == "<start_of_turn>user\n"@
            &&& p.skip(p.len() - "<start_of_turn>model\n"@.len()) == "<start_of_turn>model\n"@
            &&& occurs(p, input) && occurs(p, shell) && occurs(p, os)
        }),
        ({
            let p = chat_turn(answer_request(input));
            &&& p.take("<start_of_turn>user\n"@.len() as int) == "<start_of_turn>user\n"@
            &&& p.skip(p.len() - "<start_of_turn>model\n"@.len()) == "<start_of_turn>model\n"@
            &&& occurs(p, input)
        }),
{
    reveal_strlit("<start_of_turn>user\n");
    reveal_strlit("<end_of_turn>\n<start_of_turn>model\n");
    reveal_strlit("<start_of_turn>model\n");
    let open = "<start_of_turn>user\n"@;
    let close = "<end_of_turn>\n<start_of_turn>model\n"@;
    let tail = "<start_of_turn>model\n"@;
    assert(close.skip(close.len() - tail.len()) =~= tail);
    let w1 = "Write one shell command for "@;
    let w2 = " on "@;
    let w3 = ". Put the command alone on the first line, then explain each part on lines that start with '# '.\nTask: "@;
    let c = command_request(input, shell, os);
    let p = chat_turn(c);
    assert(p.take(open.len() as int) =~= open);
    assert(p.skip(p.len() - tail.len()) =~= tail);
    lemma_occurs_in_middle(open + w1 + shell + w2 + os + w3, input, close);
    assert(p =~= open + w1 + shell + w2 + os + w3 + input + close);
    lemma_occurs_in_middle(open + w1, shell, w2 + os + w3 + input + close);
    assert(p =~= open + w1 + shell + (w2 + os + w3 + input + close));
    lemma_occurs_in_middle(open + w1 + shell + w2, os, w3 + input + close);
    assert(p =~= open + w1 + shell + w2 + os + (w3 + input + close));
    let e1 = "Explain what this "@;
    let e2 = " command does on "@;
    let e3 = ", part by part:\n"@;
    let pe = chat_turn(explain_request(input, shell, os));
    assert(pe.take(open.len() as int) =~= open);
    assert(pe.skip(pe.len() - tail.len()) =~= tail);
    lemma_occurs_in_middle(open + e1 + shell + e2 + os + e3, input, close);
    assert(pe =~= open + e1 + shell + e2 + os + e3 + input + close);
    lemma_occurs_in_middle(open + e1, shell, e2 + os + e3 + input + close);
    assert(pe =~= open + e1 + shell + (e2 + os + e3 + input + close));
    lemma_occurs_in_middle(open + e1 + shell + e2, os, e3 + input + close);
    assert(pe =~= open + e1 + shell + e2 + os + (e3 + input + close));
    let a1 = "Answer this question clearly and briefly:\n"@;
    let pa = chat_turn(answer_request(input));
    assert(pa.take(open.len() as int) =~= open);
    assert(pa.skip(pa.len() - tail.len()) =~= tail);
    lemma_occurs_in_middle(open + a1, input, close);
    assert(pa =~= open + a1 + input + close);
}

/// A command prompt asks for a command: right after the opening of the user's
/// turn it says to write one shell command, it asks for the command alone on
/// the first line with each part explained on lines that start with `# `, and
/// it is never the explanation prompt for the same input, shell and system.
pub proof fn lemma_command_prompt_asks_for_a_command(input: Seq<char>, shell: Seq<char>, os: Seq<char>)
    ensures
        ({
            let p = chat_turn(command_request(input, shell, os));
            &&& p.take(("<start_of_turn>user\n"@ + "Write one shell command for "@).len() as int)
                == "<start_of_turn>user\n"@ + "Write one shell command for "@
            &&& occurs(
                p,
                ". Put the command alone on the first line, then explain each part on lines that start with '# '.\nTask: "@,
            )
            &&& p != chat_turn(explain_request(input, shell, os))
        }),
{
    reveal_strlit("<start_of_turn>user\n");
    reveal_strlit("<end_of_turn>\n<start_of_turn>model\n");
    reveal_strlit("Write one shell command for ");
    reveal_strlit(" on ");
    reveal_strlit(". Put the command alone on the first line, then explain each part on lines that start with '# '.\nTask: ");
    reveal_strlit("Explain what this ");
    let open = "<start_of_turn>user\n"@;
    let close = "<end_of_turn>\n<start_of_turn>model\n"@;
    let w1 = "Write one shell command for "@;
    let w2 = " on "@;
    let w3 = ". Put the command alone on the first line, then explain each part on lines that start with '# '.\nTask: "@;
    let p = chat_turn(command_request(input, shell, os));
    assert(p =~= open + w1 + (shell + w2 + os + w3 + input + close));
    assert(p.take((open + w1).len() as int) =~= open + w1);
    lemma_occurs_in_middle(open + w1 + shell + w2 + os, w3, input + close);
    assert(p =~= open + w1 + shell + w2 + os + w3 + (input + close));
    let e1 = "Explain what this "@;
    let pe = chat_turn(explain_request(input, shell, os));
    assert(pe =~= open + e1 + (pe.skip((open + e1).len() as int)));
    assert(open.len() == 20);
    assert(p[20] == w1[0]);
    assert(pe[20] == e1[0]);
    assert(w1[0] != e1[0]);
}

} // verus!
