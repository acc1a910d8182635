use sage::prompt::{format_answer_prompt, format_explain_prompt, format_prompt};

#[test]
fn command_prompt_holds_query_shell_and_os() {
    let prompt = format_prompt("find all mp4 files", "/bin/zsh", "macos");
    assert!(prompt.contains("find all mp4 files"));
    assert!(prompt.contains("/bin/zsh"));
    assert!(prompt.contains("macos"));
    assert!(prompt.starts_with("<start_of_turn>user\n"));
    assert!(prompt.ends_with("<start_of_turn>model\n"));
}

#[test]
fn explain_prompt_holds_command_and_shell() {
    let prompt = format_explain_prompt("ls -la", "/bin/bash", "linux");
    assert!(prompt.contains("ls -la"));
    assert!(prompt.contains("/bin/bash"));
    assert!(prompt.contains("linux"));
    assert!(prompt.ends_with("<start_of_turn>model\n"));
}

#[test]
fn answer_prompt_embeds_question() {
    let prompt = format_answer_prompt("why is the sky blue?");
    assert!(prompt.contains("why is the sky blue?"));
    assert!(prompt.contains("<start_of_turn>user"));
}

#[test]
fn answer_prompt_text() {
    let prompt = format_answer_prompt("why is the sky blue?");
    assert_eq!(
        prompt,
        "<start_of_turn>user\nAnswer this question clearly and briefly:\nwhy is the sky blue?<end_of_turn>\n<start_of_turn>model\n"
    );
}
