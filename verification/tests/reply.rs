use sage::reply::{prompt_for, read_reply, request_from_args, Mode, Reply};

fn words(ws: &[&str]) -> Vec<String> {
    ws.iter().map(|w| w.to_string()).collect()
}

#[test]
fn arguments_choose_the_mode() {
    let (mode, input) = request_from_args(Some(words(&["ls", "-la"])), None, vec![]);
    assert_eq!(mode, Mode::Explain);
    assert_eq!(input, "ls -la");
    let (mode, input) = request_from_args(None, Some(words(&["why", "is", "the", "sky", "blue?"])), vec![]);
    assert_eq!(mode, Mode::Answer);
    assert_eq!(input, "why is the sky blue?");
    let (mode, input) = request_from_args(None, None, words(&["find", "all", "mp4", "files"]));
    assert_eq!(mode, Mode::Command);
    assert_eq!(input, "find all mp4 files");
    let (mode, input) = request_from_args(None, None, vec![]);
    assert_eq!(mode, Mode::Command);
    assert_eq!(input, "");
}

#[test]
fn prompt_follows_the_mode() {
    assert!(prompt_for(Mode::Command, "list files", "/bin/zsh", "macos").contains("Task: list files"));
    assert!(prompt_for(Mode::Explain, "ls", "/bin/zsh", "macos").starts_with("<start_of_turn>user\nExplain"));
    assert!(prompt_for(Mode::Answer, "why?", "/bin/zsh", "macos").contains("Answer this question"));
}

#[test]
fn command_reply_with_hints() {
    let raw = "<start_of_turn>model\nls -la\n# -l: long listing\n# -a: hidden files<end_of_turn>";
    match read_reply(Mode::Command, raw, true) {
        Reply::Command { command, hints } => {
            assert_eq!(command, "ls -la");
            assert_eq!(hints.as_deref(), Some("# -l: long listing\n# -a: hidden files"));
        }
        other => panic!("unexpected {:?}", other),
    }
    match read_reply(Mode::Command, raw, false) {
        Reply::Command { command, hints } => {
            assert_eq!(command, "ls -la");
            assert!(hints.is_none());
        }
        other => panic!("unexpected {:?}", other),
    }
    match read_reply(Mode::Command, "pwd", true) {
        Reply::Command { command, hints } => {
            assert_eq!(command, "pwd");
            assert!(hints.is_none());
        }
        other => panic!("unexpected {:?}", other),
    }
}

#[test]
fn empty_replies() {
    assert!(matches!(read_reply(Mode::Command, "# only a hint", true), Reply::Empty));
    assert!(matches!(read_reply(Mode::Command, "<end_of_turn>", true), Reply::Empty));
    assert!(matches!(read_reply(Mode::Explain, "  \nmodel\n ", true), Reply::Empty));
    assert!(matches!(read_reply(Mode::Answer, "", false), Reply::Empty));
}

#[test]
fn text_replies_are_trimmed() {
    match read_reply(Mode::Answer, "model\n  Rayleigh scattering.  \n<end_of_turn>", false) {
        Reply::Text(t) => assert_eq!(t, "Rayleigh scattering."),
        other => panic!("unexpected {:?}", other),
    }
    match read_reply(Mode::Explain, "ls lists\n# and more", true) {
        Reply::Text(t) => assert_eq!(t, "ls lists\n# and more"),
        other => panic!("unexpected {:?}", other),
    }
}
