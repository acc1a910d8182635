use sage::output::{parse_command_output, sanitize_output};

#[test]
fn splits_command_and_hints() {
    let reply = "find . -name \"*.png\" -exec pngquant --ext .png {} \\;\n# find: searches the filesystem for files\n# -name \"*.png\": matches files ending in .png\n# -exec ...: runs pngquant on each match";
    let (cmd, notes) = parse_command_output(reply);
    assert_eq!(cmd, "find . -name \"*.png\" -exec pngquant --ext .png {} \\;");
    assert_eq!(
        notes,
        vec![
            "# find: searches the filesystem for files",
            "# -name \"*.png\": matches files ending in .png",
            "# -exec ...: runs pngquant on each match",
        ]
    );
}

#[test]
fn hints_before_the_command_are_kept_and_lines_trimmed() {
    let (cmd, notes) = parse_command_output("\n   # first hint  \n\n  ls -la\t\n#second\nignored second command\n");
    assert_eq!(cmd, "ls -la");
    assert_eq!(notes, vec!["# first hint", "#second"]);
}

#[test]
fn only_hints_give_an_empty_command() {
    let (cmd, notes) = parse_command_output("# a\n# b");
    assert_eq!(cmd, "");
    assert_eq!(notes, vec!["# a", "# b"]);
    let (cmd, notes) = parse_command_output("");
    assert_eq!(cmd, "");
    assert!(notes.is_empty());
    let (cmd, notes) = parse_command_output(" \n\t\n");
    assert_eq!(cmd, "");
    assert!(notes.is_empty());
}

#[test]
fn windows_line_endings_are_trimmed() {
    let (cmd, notes) = parse_command_output("dir\r\n# lists files\r\n");
    assert_eq!(cmd, "dir");
    assert_eq!(notes, vec!["# lists files"]);
}

#[test]
fn sanitize_removes_turn_markers_and_roles() {
    assert_eq!(sanitize_output("<start_of_turn>model\nls -la<end_of_turn>"), "\nls -la");
    assert_eq!(sanitize_output("user\n  pwd  \nassistant\nsystem"), "pwd");
    assert_eq!(
        sanitize_output("<|start_of_turn|>model ls</|end_of_turn|>done</start_of_turn>x</end_of_turn>"),
        "\nmodel ls\ndone\nx"
    );
    assert_eq!(sanitize_output("<|end_of_turn|>a</|start_of_turn|>b"), "\na\nb");
}

#[test]
fn sanitize_keeps_role_words_inside_lines() {
    assert_eq!(sanitize_output("user name\nmodels\nModel"), "user name\nmodels\nModel");
}

#[test]
fn sanitize_trims_and_joins_lines() {
    assert_eq!(sanitize_output("  a  \r\n\tb\n\n c"), "a\nb\n\nc");
    assert_eq!(sanitize_output(""), "");
    assert_eq!(sanitize_output("a\n\n"), "a\n");
}

#[test]
fn sanitizing_twice_only_drops_a_final_line_feed() {
    let once = sanitize_output("a\n\n");
    assert_eq!(once, "a\n");
    assert_eq!(sanitize_output(&once), "a");
    let once = sanitize_output("<start_of_turn>model\n  echo hi <end_of_turn>");
    assert_eq!(once, "\necho hi");
    assert_eq!(sanitize_output(&once), once);
}

#[test]
fn sanitized_text_holds_no_markers() {
    let out = sanitize_output("<start_of_<end_of_turn>turn>x<</start_of_turn>end_of_turn>");
    for m in [
        "<start_of_turn>",
        "<end_of_turn>",
        "</start_of_turn>",
        "</end_of_turn>",
        "<|start_of_turn|>",
        "<|end_of_turn|>",
        "</|start_of_turn|>",
        "</|end_of_turn|>",
    ] {
        assert!(!out.contains(m));
    }
    assert_eq!(out, "<start_of_\nturn>x<\nend_of_turn>");
}
