use goose_mobile::attach::Attachment;
use goose_mobile::transcript::{fold_history, fold_part_into, ChatItem, Message, Part, ToolState, Transcript};

fn blank(id: &str, message_id: &str, kind: &str) -> Part {
    Part {
        id: id.to_owned(),
        message_id: message_id.to_owned(),
        session_id: "ses_1".to_owned(),
        kind: kind.to_owned(),
        text: None,
        synthetic: false,
        tool: None,
        call_id: None,
        state: None,
        mime: None,
        filename: None,
        url: None,
    }
}

fn text_part(id: &str, message_id: &str, text: &str) -> Part {
    Part { text: Some(text.to_owned()), ..blank(id, message_id, "text") }
}

fn file_part(id: &str, message_id: &str, name: &str) -> Part {
    Part {
        mime: Some("image/jpeg".to_owned()),
        filename: Some(name.to_owned()),
        url: Some("data:image/jpeg;base64,QUJD".to_owned()),
        ..blank(id, message_id, "file")
    }
}

fn text_file_part(id: &str, message_id: &str, name: &str) -> Part {
    Part {
        mime: Some("text/plain".to_owned()),
        url: Some("data:text/plain;base64,QUJD".to_owned()),
        ..file_part(id, message_id, name)
    }
}

fn synthetic_part(id: &str, message_id: &str, text: &str) -> Part {
    Part { synthetic: true, ..text_part(id, message_id, text) }
}

fn optimistic(text: &str, name: &str, mime: &str) -> ChatItem {
    ChatItem::User {
        text: text.to_owned(),
        attachments: vec![Attachment { name: name.to_owned(), mime: mime.to_owned(), size: 3, thumb: String::new() }],
    }
}

fn roles_of(pairs: &[(&str, &str)]) -> Vec<(String, String)> {
    pairs.iter().map(|(id, role)| ((*id).to_owned(), (*role).to_owned())).collect()
}

fn fold(items: &mut Vec<ChatItem>, index: &mut Vec<(String, usize)>, roles: &Vec<(String, String)>, part: &Part) {
    fold_part_into(items, index, roles, part, None);
}

fn attachments_of(item: &ChatItem) -> &[Attachment] {
    match item {
        ChatItem::User { attachments, .. } => attachments,
        _ => &[],
    }
}

fn bound(index: &[(String, usize)], id: &str) -> Option<usize> {
    index.iter().find(|(k, _)| k == id).map(|(_, v)| *v)
}

#[test]
fn a_replayed_file_part_lands_on_the_message_it_belongs_to() {
    let mut items = Vec::new();
    let mut index = Vec::new();
    let roles = roles_of(&[("msg_1", "user")]);
    fold(&mut items, &mut index, &roles, &text_part("p1", "msg_1", "look at this"));
    fold(&mut items, &mut index, &roles, &file_part("p2", "msg_1", "shot.jpg"));
    assert_eq!(items.len(), 1);
    assert_eq!(attachments_of(&items[0]).len(), 1);
    assert_eq!(attachments_of(&items[0])[0].name, "shot.jpg");
    assert_eq!(bound(&index, "p2"), Some(0));
}

#[test]
fn the_echo_of_an_attachment_is_not_a_second_copy_of_it() {
    let mut items = vec![ChatItem::User {
        text: "look".to_owned(),
        attachments: vec![Attachment { name: "shot.jpg".to_owned(), mime: "image/jpeg".to_owned(), size: 3, thumb: "THUMB".to_owned() }],
    }];
    let mut index = Vec::new();
    let roles = roles_of(&[("msg_1", "user")]);
    fold(&mut items, &mut index, &roles, &text_part("p1", "msg_1", "look"));
    fold(&mut items, &mut index, &roles, &file_part("p2", "msg_1", "shot.jpg"));
    assert_eq!(items.len(), 1);
    assert_eq!(attachments_of(&items[0]).len(), 1);
    assert_eq!(attachments_of(&items[0])[0].thumb, "THUMB", "the phone's own thumbnail is the one that stays");
}

#[test]
fn the_server_inlining_a_text_attachment_adds_no_bubbles() {
    let mut items = vec![optimistic("look at this", "notes.md", "text/markdown")];
    let mut index = Vec::new();
    let roles = roles_of(&[("msg_1", "user")]);
    for part in [
        text_part("p1", "msg_1", "look at this"),
        synthetic_part("p2", "msg_1", r#"Called the Read tool with the following input: {"filePath":"notes.md"}"#),
        synthetic_part("p3", "msg_1", "# notes\n\nthe whole file, decoded"),
        text_file_part("p4", "msg_1", "notes.md"),
    ] {
        fold(&mut items, &mut index, &roles, &part);
    }
    assert_eq!(items.len(), 1, "one message, one bubble");
    let ChatItem::User { text, .. } = &items[0] else { unreachable!() };
    assert_eq!(text, "look at this");
    assert_eq!(attachments_of(&items[0]).len(), 1);
}

#[test]
fn the_echo_of_a_text_attachment_is_not_a_second_chip() {
    let mut items = vec![optimistic("read this", "notes.md", "text/markdown")];
    let mut index = Vec::new();
    let roles = roles_of(&[("msg_1", "user")]);
    fold(&mut items, &mut index, &roles, &text_file_part("p1", "msg_1", "notes.md"));
    let names: Vec<&str> = attachments_of(&items[0]).iter().map(|a| a.name.as_str()).collect();
    assert_eq!(names, ["notes.md"]);
}

#[test]
fn an_agents_own_file_part_makes_no_user_bubble() {
    let mut items = Vec::new();
    let mut index = Vec::new();
    let roles = roles_of(&[("msg_1", "assistant")]);
    fold(&mut items, &mut index, &roles, &file_part("p1", "msg_1", "chart.png"));
    assert!(items.is_empty());
}

#[test]
fn server_echo_adopts_the_optimistic_prompt() {
    let mut items = vec![ChatItem::User { text: "refactor the folding".to_owned(), attachments: Vec::new() }];
    let mut part_index = Vec::new();
    let roles = roles_of(&[("msg_1", "user")]);
    fold(&mut items, &mut part_index, &roles, &text_part("prt_1", "msg_1", "refactor the folding"));
    assert_eq!(items.len(), 1, "the echo should not add a second bubble");
    assert_eq!(bound(&part_index, "prt_1"), Some(0), "echo bound to the bubble");
}

#[test]
fn the_same_prompt_twice_stays_two_bubbles() {
    let mut items = Vec::new();
    let mut part_index = Vec::new();
    let roles = roles_of(&[("msg_1", "user"), ("msg_2", "user")]);
    for (n, msg) in [("prt_1", "msg_1"), ("prt_2", "msg_2")] {
        items.push(ChatItem::User { text: "again".to_owned(), attachments: Vec::new() });
        fold(&mut items, &mut part_index, &roles, &text_part(n, msg, "again"));
    }
    assert_eq!(items.len(), 2);
    assert_eq!(bound(&part_index, "prt_1"), Some(0));
    assert_eq!(bound(&part_index, "prt_2"), Some(1));
}

#[test]
fn an_assistant_reply_is_still_its_own_item() {
    let mut items = vec![ChatItem::User { text: "hello".to_owned(), attachments: Vec::new() }];
    let mut part_index = Vec::new();
    let roles = roles_of(&[("msg_2", "assistant")]);
    fold(&mut items, &mut part_index, &roles, &text_part("prt_2", "msg_2", "hello"));
    assert_eq!(items.len(), 2);
    assert!(matches!(items[1], ChatItem::Assistant { .. }));
}

#[test]
fn a_known_part_takes_its_delta_and_a_snapshot_replaces_it() {
    let mut t = Transcript::new();
    t.roles = roles_of(&[("msg_9", "assistant")]);
    t.fold_part(&text_part("p", "msg_9", ""), Some("Hel"));
    t.fold_part(&text_part("p", "msg_9", ""), Some("lo"));
    assert!(t.running, "a streamed reply means the turn is alive");
    assert_eq!(t.items, vec![ChatItem::Assistant { message_id: Some("p".to_owned()), text: "Hello".to_owned() }]);
    t.fold_part(&text_part("p", "msg_9", "Hello, world"), None);
    assert_eq!(t.items, vec![ChatItem::Assistant { message_id: Some("p".to_owned()), text: "Hello, world".to_owned() }]);
    let mut quiet = Transcript::new();
    quiet.fold_part(&blank("s", "msg_9", "step-start"), None);
    assert!(!quiet.running && quiet.items.is_empty(), "a step marker renders nothing and says nothing");
}

#[test]
fn a_tool_card_takes_its_progress_and_keeps_its_output() {
    let mut items = Vec::new();
    let mut index = Vec::new();
    let roles = Vec::new();
    let tool = |status: &str, output: Option<&str>| Part {
        tool: Some("bash".to_owned()),
        call_id: Some("call_1".to_owned()),
        state: Some(ToolState { status: Some(status.to_owned()), title: None, output: output.map(str::to_owned) }),
        ..blank("t1", "msg_2", "tool")
    };
    fold(&mut items, &mut index, &roles, &tool("running", None));
    fold(&mut items, &mut index, &roles, &tool("completed", Some("done")));
    fold(&mut items, &mut index, &roles, &tool("completed", None));
    assert_eq!(
        items,
        vec![ChatItem::Tool {
            id: "call_1".to_owned(),
            title: "bash".to_owned(),
            kind: "execute".to_owned(),
            status: "completed".to_owned(),
            output: "done".to_owned(),
        }]
    );
    fold(&mut items, &mut index, &roles, &blank("t2", "msg_2", "tool"));
    assert_eq!(
        items[1],
        ChatItem::Tool {
            id: "t2".to_owned(),
            title: "tool".to_owned(),
            kind: "execute".to_owned(),
            status: "pending".to_owned(),
            output: String::new(),
        }
    );
}

#[test]
fn a_message_of_attachments_alone_gets_a_bubble_its_text_then_fills() {
    let mut items = vec![ChatItem::Assistant { message_id: None, text: "before".to_owned() }];
    let mut index = Vec::new();
    let roles = roles_of(&[("msg_1", "user")]);
    fold(&mut items, &mut index, &roles, &file_part("f1", "msg_1", "shot.jpg"));
    assert_eq!(items.len(), 2);
    fold(&mut items, &mut index, &roles, &text_part("p1", "msg_1", "see"));
    assert_eq!(items.len(), 2, "the text fills the bubble its attachment opened");
    let ChatItem::User { text, attachments } = &items[1] else { unreachable!() };
    assert_eq!(text, "see");
    assert_eq!(attachments.len(), 1);
    assert_eq!(attachments[0].thumb, "QUJD");
}

#[test]
fn a_history_folds_to_one_transcript_with_no_turn_running() {
    let msgs = vec![
        Message { id: "m1".to_owned(), role: "user".to_owned(), parts: vec![text_part("a", "m1", "hi")] },
        Message {
            id: "m2".to_owned(),
            role: "assistant".to_owned(),
            parts: vec![Part { text: Some("thinking".to_owned()), ..blank("b", "m2", "reasoning") }, text_part("c", "m2", "hello")],
        },
    ];
    let t = fold_history(&msgs);
    assert!(!t.running);
    assert_eq!(t.items.len(), 3);
    assert!(matches!(&t.items[0], ChatItem::User { text, .. } if text == "hi"));
    assert!(matches!(&t.items[1], ChatItem::Thought { text, .. } if text == "thinking"));
    assert!(matches!(&t.items[2], ChatItem::Assistant { text, .. } if text == "hello"));
    assert_eq!(t.roles.len(), 2);
    assert_eq!(t.part_index.len(), 3);
}

#[test]
fn a_snapshot_folded_twice_is_folded_once() {
    let roles = roles_of(&[("m", "user")]);
    for part in [text_part("p", "m", "same"), file_part("f", "m", "x.jpg"), blank("t", "m", "tool")] {
        let mut items = Vec::new();
        let mut index = Vec::new();
        fold(&mut items, &mut index, &roles, &part);
        let (once_items, once_index) = (items.clone(), index.clone());
        fold(&mut items, &mut index, &roles, &part);
        assert_eq!(items, once_items);
        assert_eq!(index, once_index);
    }
}
