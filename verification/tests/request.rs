use kittens_code::caps::Capped;
use kittens_code::driver::request::{lower_request, ContentBlock, Role};
use kittens_code::protocol::ids::EffectId;
use kittens_code::window::{TailItem, WindowLayout};

fn text_of(block: &ContentBlock) -> &str {
    match block {
        ContentBlock::Text { text } => text,
        other => panic!("expected text, got {other:?}"),
    }
}

#[test]
fn request_lowering_preserves_window_roles_and_tool_pairs() {
    let window = WindowLayout::new(
        String::from("system"),
        String::from("workspace"),
        String::from("rules"),
        String::from("question"),
        vec![
            TailItem::Message(String::from("[assistant] thinking")),
            TailItem::ToolCall {
                call: EffectId(7),
                text: String::from("read {\"path\":\"src/lib.rs\"}"),
            },
            TailItem::ToolResult {
                call: EffectId(7),
                text: Capped::head("contents", 1_024, None),
            },
            TailItem::Message(String::from("[user] continue")),
        ],
        String::from("earlier summary"),
        vec![String::from("remember")],
    )
    .unwrap();
    let request = lower_request(&window, "test-model", 777);

    assert_eq!(request.model, "test-model");
    assert_eq!(request.max_tokens, 777);
    assert_eq!(request.system, "system\n\nrules\n\nremember");
    assert_eq!(request.messages[0].role, Role::User);
    assert!(text_of(&request.messages[0].content[0]).contains("question"));
    assert_eq!(request.messages[1].role, Role::Assistant);
    match &request.messages[1].content[1] {
        ContentBlock::ToolUse { id, name, input_json } => {
            assert_eq!(id, "kc0_effect_7");
            assert_eq!(name, "read");
            assert_eq!(input_json, "{\"path\":\"src/lib.rs\"}");
        }
        other => panic!("expected a tool use, got {other:?}"),
    }
    assert_eq!(request.messages[2].role, Role::User);
    assert!(matches!(
        &request.messages[2].content[0],
        ContentBlock::ToolResult { tool_use_id, content }
            if tool_use_id == "kc0_effect_7" && content == "contents"
    ));
    assert_eq!(text_of(&request.messages[2].content[1]), "continue");
}

#[test]
fn leading_text_labels_user_info_and_summary() {
    let window = WindowLayout::new(
        String::from(""),
        String::from("cwd=/w"),
        String::from(""),
        String::from("do it"),
        Vec::new(),
        String::from("so far"),
        vec![String::new(), String::from("r2")],
    )
    .unwrap();
    let request = lower_request(&window, "m", 1);
    assert_eq!(request.system, "r2");
    assert_eq!(request.messages.len(), 1);
    assert_eq!(
        text_of(&request.messages[0].content[0]),
        "[user_info]\ncwd=/w\n\n[summary]\nso far\n\ndo it"
    );
}

#[test]
fn unparsable_tool_calls_stay_assistant_text_and_unprefixed_messages_are_the_assistants() {
    let window = WindowLayout::new(
        String::from("s"),
        String::new(),
        String::new(),
        String::from("q"),
        vec![
            TailItem::Message(String::from("plain words")),
            TailItem::ToolCall { call: EffectId(3), text: String::from("grep [1, 2]") },
            TailItem::ToolResult { call: EffectId(3), text: Capped::head("hits", 1_024, None) },
            TailItem::ToolCall { call: EffectId(4), text: String::from(" {\"a\":1}") },
            TailItem::ToolResult { call: EffectId(4), text: Capped::head("none", 1_024, None) },
        ],
        String::new(),
        Vec::new(),
    )
    .unwrap();
    let request = lower_request(&window, "m", 1);
    assert_eq!(request.messages.len(), 5);
    assert_eq!(request.messages[0].role, Role::User);
    assert_eq!(request.messages[0].content.len(), 1);
    assert_eq!(text_of(&request.messages[0].content[0]), "q");
    assert_eq!(request.messages[1].role, Role::Assistant);
    assert_eq!(text_of(&request.messages[1].content[0]), "plain words");
    assert_eq!(
        text_of(&request.messages[1].content[1]),
        "[tool_call 3] grep [1, 2]"
    );
    assert_eq!(
        text_of(&request.messages[3].content[0]),
        "[tool_call 4]  {\"a\":1}"
    );
    assert_eq!(request.messages[4].role, Role::User);
}
