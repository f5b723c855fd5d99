use kittens_code::caps::{Capped, ToolResult, VerbOutput};

#[test]
fn small_values_pass_untouched() {
    let c = Capped::<VerbOutput>::head("hello", 8_192, None);
    assert_eq!(c.as_str(), "hello");
    assert!(c.truncation().is_none());
}

#[test]
fn head_truncates_on_char_boundary() {
    // 'é' is two bytes; a 5-byte limit must not split it.
    let c = Capped::<VerbOutput>::head("aaaaé!", 5, Some(42));
    assert_eq!(c.as_str(), "aaaa");
    let t = c.truncation().expect("truncated");
    assert_eq!(t.original_bytes, 7);
    assert_eq!(t.head_bytes, 4);
    assert_eq!(t.tail_bytes, 0);
    assert_eq!(t.log_seq, Some(42));
}

#[test]
fn head_tail_keeps_both_ends() {
    let value = "HEAD-xxxxxxxxxxxxxxxxxxxx-TAIL";
    let c = Capped::<ToolResult>::head_tail(value, 12, Some(7));
    assert!(c.as_str().starts_with("HEAD-"));
    assert!(c.as_str().ends_with("-TAIL"));
    assert!(c.as_str().len() <= 12);
    let t = c.truncation().expect("truncated");
    assert_eq!(t.original_bytes, value.len() as u64);
    assert!(t.tail_bytes > 0);
}

#[test]
fn runtime_limit_clamps_to_hard_ceiling() {
    let big = "a".repeat(70_000);
    let c = Capped::<VerbOutput>::head(&big, u32::MAX, None);
    assert_eq!(c.as_str().len(), 65_536);
    assert!(c.truncation().is_some());
}

#[test]
fn tool_result_annotation_stays_inside_brand() {
    let value = "x".repeat(1_000);
    let capped = Capped::<ToolResult>::tool_result(&value, 96, 42);
    assert!(capped.as_str().len() <= 96);
    assert!(capped.as_str().contains("full output at log seq 42"));
    assert_eq!(capped.applied_limit(), 96);
    assert_eq!(capped.truncation().unwrap().original_bytes, 1_000);
}

#[test]
fn head_tail_exact_split_of_an_ascii_value() {
    // Twelve bytes split six and six around the cut.
    let c = Capped::<ToolResult>::head_tail("abcdefghijklmnopqrstuvwxyz", 12, None);
    assert_eq!(c.as_str(), "abcdefuvwxyz");
    let t = c.truncation().unwrap();
    assert_eq!((t.head_bytes, t.tail_bytes), (6, 6));
}

#[test]
fn zero_limit_keeps_nothing_but_records_the_cut() {
    let c = Capped::<VerbOutput>::head("abc", 0, None);
    assert_eq!(c.as_str(), "");
    assert_eq!(c.truncation().unwrap().original_bytes, 3);
}
