use kittens_code::driver::tools::{
    apply_edit, finish, fuzzy_find, grep_lines, path_components, tool_for, unknown_tool_message,
    PathPart,
    ToolName,
};
use kittens_code::protocol::event::ToolOutcome;

#[test]
fn fuzzy_find_tolerates_trailing_whitespace() {
    let hay = "fn a() {   \n    body\n}\n";
    let needle = "fn a() {\n    body\n}";
    assert!(fuzzy_find(hay, needle).is_some());
}

#[test]
fn fuzzy_find_tolerates_crlf_line_endings() {
    let hay = "fn a() {\r\n    body\r\n}\r\n";
    let needle = "fn a() {\n    body\n}";
    assert!(
        fuzzy_find(hay, needle).is_some(),
        "trailing-whitespace normalization also absorbs CR"
    );
}

#[test]
fn fuzzy_find_reports_exact_offsets() {
    assert_eq!(fuzzy_find("alpha old omega", "old"), Some((6, 3)));
    assert_eq!(fuzzy_find("abc", ""), Some((0, 0)));
    assert_eq!(fuzzy_find("abc", "zzz"), None);
    assert_eq!(
        fuzzy_find("fn a() {   \n    body\n}\n", "fn a() {\n    body\n}"),
        Some((0, 22))
    );
    // With `\r\n` endings the span still runs from the first matched
    // line's start through the end of the last matched line.
    assert_eq!(
        fuzzy_find("fn a() {\r\n    body\r\n}\r\n", "fn a() {\n    body\n}"),
        Some((0, 21))
    );
    assert_eq!(fuzzy_find("x\r\ny  \r\nz\r\n", "y\nz"), Some((3, 6)));
    assert_eq!(fuzzy_find("x\ny  \nz\n", "y\nz"), Some((2, 5)));
}

#[test]
fn absolute_and_traversal_paths_are_recognised_lexically() {
    assert_eq!(path_components("/etc/passwd"), None);
    assert_eq!(
        path_components("../up"),
        Some(vec![PathPart::Parent, PathPart::Normal(String::from("up"))])
    );
    assert_eq!(
        path_components("ok/child.rs"),
        Some(vec![
            PathPart::Normal(String::from("ok")),
            PathPart::Normal(String::from("child.rs"))
        ])
    );
    assert_eq!(
        path_components("./a/./b//c.rs/"),
        Some(vec![
            PathPart::Normal(String::from("a")),
            PathPart::Normal(String::from("b")),
            PathPart::Normal(String::from("c.rs"))
        ])
    );
    assert_eq!(path_components(""), Some(vec![]));
    assert!(path_components("a/../../etc/passwd")
        .unwrap()
        .contains(&PathPart::Parent));
}

#[test]
fn tools_are_named_and_results_funnel() {
    assert_eq!(tool_for("read"), Some(ToolName::Read));
    assert_eq!(tool_for("grep"), Some(ToolName::Grep));
    assert_eq!(tool_for("exec"), None);
    assert_eq!(unknown_tool_message("exec"), "unknown tool: exec");
    assert_eq!(
        finish(Ok(String::from("done"))),
        (ToolOutcome::Succeeded, String::from("done"))
    );
    assert_eq!(
        finish(Err(String::from("nope"))),
        (
            ToolOutcome::Failed {
                message: String::from("nope")
            },
            String::from("nope")
        )
    );
}

#[test]
fn edits_splice_at_byte_offsets() {
    let content = "alpha old omega";
    let (at, len) = fuzzy_find(content, "old").unwrap();
    assert_eq!(apply_edit(content, at, len, "new"), "alpha new omega");
    assert_eq!(apply_edit("é!", 2, 1, "?"), "é?");
}

#[test]
fn grep_numbers_matching_lines_as_str_lines_splits_them() {
    let content = "alpha\r\nbeta\n\nalphabet\ngamma\r";
    assert_eq!(grep_lines(content, "alpha"), "1:alpha\n4:alphabet");
    assert_eq!(grep_lines(content, "a\r"), "5:gamma\r");
    assert_eq!(grep_lines(content, "zeta"), "");
    assert_eq!(grep_lines("x\ny\n", ""), "1:x\n2:y");
    assert_eq!(grep_lines("", ""), "");
}
