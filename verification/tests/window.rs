use kittens_code::caps::{Capped, ToolResult};
use kittens_code::protocol::ids::EffectId;
use kittens_code::window::{LayoutError, Region, TailItem, WindowLayout};

fn s(v: &str) -> String {
    String::from(v)
}

fn result(v: &str) -> Capped<ToolResult> {
    Capped::head(v, 1_024, None)
}

#[test]
fn paired_tail_is_accepted() {
    let tail = vec![
        TailItem::Message(s("assistant text")),
        TailItem::ToolCall {
            call: EffectId(1),
            text: s("read foo.rs"),
        },
        TailItem::ToolResult {
            call: EffectId(1),
            text: result("contents"),
        },
    ];
    assert!(WindowLayout::new(s("sys"), s("env"), s(""), s("q"), tail, s(""), vec![]).is_ok());
}

#[test]
fn orphan_result_is_refused() {
    let tail = vec![TailItem::ToolResult {
        call: EffectId(9),
        text: result("orphaned"),
    }];
    assert_eq!(
        WindowLayout::new(s("sys"), s("env"), s(""), s("q"), tail, s(""), vec![]).unwrap_err(),
        LayoutError::TailSplitsToolPair
    );
}

#[test]
fn unmatched_call_is_refused() {
    let tail = vec![TailItem::ToolCall {
        call: EffectId(1),
        text: s("read foo.rs"),
    }];
    assert_eq!(
        WindowLayout::new(s("sys"), s("env"), s(""), s("q"), tail, s(""), vec![]).unwrap_err(),
        LayoutError::UnmatchedToolCall
    );
}

#[test]
fn duplicate_call_id_is_refused() {
    let tail = vec![
        TailItem::ToolCall {
            call: EffectId(1),
            text: s("first"),
        },
        TailItem::ToolCall {
            call: EffectId(1),
            text: s("second"),
        },
    ];
    assert_eq!(
        WindowLayout::new(s("sys"), s("env"), s(""), s("q"), tail, s(""), vec![]).unwrap_err(),
        LayoutError::DuplicateToolCallId
    );
}

#[test]
fn duplicate_terminal_is_refused() {
    let tail = vec![
        TailItem::ToolCall {
            call: EffectId(1),
            text: s("read foo.rs"),
        },
        TailItem::ToolResult {
            call: EffectId(1),
            text: result("first"),
        },
        TailItem::ToolResult {
            call: EffectId(1),
            text: result("second"),
        },
    ];
    assert_eq!(
        WindowLayout::new(s("sys"), s("env"), s(""), s("q"), tail, s(""), vec![]).unwrap_err(),
        LayoutError::DuplicateToolTerminal
    );
}

#[test]
fn accepted_layout_keeps_every_region_verbatim() {
    let layout = WindowLayout::new(
        s("sys"),
        s("env"),
        s("rules"),
        s("q"),
        vec![TailItem::Message(s("hi"))],
        s("sum"),
        vec![s("r1")],
    )
    .unwrap();
    assert_eq!(layout.system, "sys");
    assert_eq!(layout.user_info, "env");
    assert_eq!(layout.rules_reminder, "rules");
    assert_eq!(layout.last_user_query, "q");
    assert_eq!(layout.summary, "sum");
    assert_eq!(layout.reminders, vec![s("r1")]);
    assert_eq!(WindowLayout::region_order()[0], Region::System);
}
