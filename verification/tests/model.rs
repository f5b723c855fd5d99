use kittens_code::caps::{Capped, ToolResult};
use kittens_code::driver::model::{JailClient, JailStep};
use kittens_code::engine::{ProposedToolCall, Usage};
use kittens_code::protocol::error::ErrorCode;
use kittens_code::protocol::ids::EffectId;
use kittens_code::window::{TailItem, WindowLayout};

fn window(query: &str, tail: Vec<TailItem>, summary: &str) -> WindowLayout {
    WindowLayout::new(
        String::from("sys"),
        String::from("env"),
        String::new(),
        String::from(query),
        tail,
        String::from(summary),
        vec![],
    )
    .unwrap()
}

fn step(text: &str) -> JailStep {
    JailStep {
        text: String::from(text),
        tool_calls: vec![],
        usage: None,
        fail: None,
    }
}

#[test]
fn jail_answers_steps_in_order_then_refuses() {
    let mut jail = JailClient::new(vec![
        JailStep {
            text: String::new(),
            tool_calls: vec![(String::from("read"), String::from("{}"))],
            usage: Some((42, 1234)),
            fail: None,
        },
        JailStep {
            fail: Some(String::from("scripted outage")),
            ..step("")
        },
        step("done"),
    ]);
    let w = window("hello", vec![], "");
    let first = jail.complete(&w).unwrap();
    assert_eq!(
        first.tool_calls,
        vec![ProposedToolCall {
            name: String::from("read"),
            args_json: String::from("{}"),
        }]
    );
    assert_eq!(
        first.usage,
        Some(Usage {
            prompt_tokens: 42,
            prompt_bytes: 1234,
        })
    );
    assert_eq!(
        jail.complete(&w),
        Err((ErrorCode::ModelTransport, String::from("scripted outage")))
    );
    assert_eq!(jail.complete(&w).unwrap().text, "done");
    assert_eq!(
        jail.complete(&w),
        Err((
            ErrorCode::Internal,
            String::from("jail scenario exhausted: unexpected model call")
        ))
    );
    assert_eq!(jail.captured().len(), 4);
}

#[test]
fn jail_captures_a_fingerprint_of_each_window() {
    let mut jail = JailClient::new(vec![step("a")]);
    let tail = vec![
        TailItem::Message(String::from("[assistant] hi")),
        TailItem::ToolCall {
            call: EffectId(1),
            text: String::from("read x"),
        },
        TailItem::ToolResult {
            call: EffectId(1),
            text: Capped::<ToolResult>::head("ok", 100, None),
        },
    ];
    let _ = jail.complete(&window("héllo", tail, "sum"));
    assert_eq!(jail.captured(), vec![String::from("q=6 tail=mcr summary=3")]);
}
