use goose_mobile::code::Permission;
use goose_mobile::attach::{Attachment, PendingAttachment};
use goose_mobile::stream::{
    adopt_session, apply_event, chat_title, leaves_chat, prompt_gate, reattach_after_pause, resume_session, ChatStream,
    CodeEvent, SessionRecord, StreamStep, TurnChoices,
};
use goose_mobile::transcript::{ChatItem, Part, Transcript};

fn part(id: &str, session: &str, text: &str) -> Part {
    Part {
        id: id.to_owned(),
        message_id: "msg_1".to_owned(),
        session_id: session.to_owned(),
        kind: "text".to_owned(),
        text: Some(text.to_owned()),
        synthetic: false,
        tool: None,
        call_id: None,
        state: None,
        mime: None,
        filename: None,
        url: None,
    }
}

fn ask(id: &str) -> Permission {
    Permission { id: id.to_owned(), session_id: "ses_1".to_owned(), title: "Run git push".to_owned(), kind: "bash".to_owned() }
}

fn chat() -> ChatStream {
    ChatStream { session_id: Some("ses_1".to_owned()), transcript: Transcript::new() }
}

#[test]
fn a_part_of_the_session_on_screen_folds_in_and_another_sessions_does_not() {
    let mut c = chat();
    let mut queue = Vec::new();
    let step = apply_event(&mut c, &mut queue, "chat_a", 3, 3, CodeEvent::PartUpdated { part: part("p1", "ses_1", "hi"), delta: None });
    assert_eq!(step, StreamStep::Continue);
    assert_eq!(c.transcript.items, vec![ChatItem::Assistant { message_id: Some("p1".to_owned()), text: "hi".to_owned() }]);
    assert!(c.transcript.running);
    apply_event(&mut c, &mut queue, "chat_a", 3, 3, CodeEvent::PartUpdated { part: part("p2", "ses_old", "stale"), delta: None });
    assert_eq!(c.transcript.items.len(), 1);
}

#[test]
fn a_loop_for_a_chat_no_longer_open_detaches_and_changes_nothing() {
    let mut c = chat();
    let mut queue = Vec::new();
    let step = apply_event(&mut c, &mut queue, "chat_a", 4, 3, CodeEvent::PermissionAsked(ask("per_1")));
    assert_eq!(step, StreamStep::Detach);
    assert!(queue.is_empty());
}

#[test]
fn an_ask_is_queued_once_and_its_reply_takes_it_off() {
    let mut c = chat();
    let mut queue = vec![("chat_b".to_owned(), ask("per_1"))];
    apply_event(&mut c, &mut queue, "chat_a", 1, 1, CodeEvent::PermissionAsked(ask("per_1")));
    apply_event(&mut c, &mut queue, "chat_a", 1, 1, CodeEvent::PermissionAsked(ask("per_1")));
    assert_eq!(queue.len(), 2, "once for this chat, and the other chat's ask is its own");
    apply_event(&mut c, &mut queue, "chat_a", 1, 1, CodeEvent::PermissionReplied { id: "per_1".to_owned() });
    assert_eq!(queue.len(), 1);
    assert_eq!(queue[0].0, "chat_b");
}

#[test]
fn idle_ends_only_this_sessions_turn_and_a_drop_asks_for_a_reattach() {
    let mut c = chat();
    let mut queue = Vec::new();
    c.transcript.running = true;
    assert_eq!(apply_event(&mut c, &mut queue, "chat_a", 1, 1, CodeEvent::SessionIdle { session_id: "ses_2".to_owned() }), StreamStep::Continue);
    assert!(c.transcript.running);
    assert_eq!(apply_event(&mut c, &mut queue, "chat_a", 1, 1, CodeEvent::SessionIdle { session_id: "ses_1".to_owned() }), StreamStep::SaveCache);
    assert!(!c.transcript.running);
    c.transcript.running = true;
    assert_eq!(apply_event(&mut c, &mut queue, "chat_a", 1, 1, CodeEvent::Disconnected), StreamStep::PauseThenReattach);
    assert!(!c.transcript.running);
    assert!(reattach_after_pause(1, 1, true));
    assert!(!reattach_after_pause(2, 1, true), "the reader opened another chat meanwhile");
    assert!(!reattach_after_pause(1, 1, false), "or left the Code tab");
}

#[test]
fn a_role_becomes_known_and_an_empty_id_teaches_nothing() {
    let mut c = chat();
    let mut queue = Vec::new();
    apply_event(&mut c, &mut queue, "chat_a", 1, 1, CodeEvent::MessageUpdated { id: "msg_1".to_owned(), role: "user".to_owned() });
    apply_event(&mut c, &mut queue, "chat_a", 1, 1, CodeEvent::MessageUpdated { id: String::new(), role: "assistant".to_owned() });
    assert_eq!(c.transcript.roles, vec![("msg_1".to_owned(), "user".to_owned())]);
    apply_event(&mut c, &mut queue, "chat_a", 1, 1, CodeEvent::PartUpdated { part: part("p1", "ses_1", "typed"), delta: None });
    assert!(matches!(c.transcript.items[0], ChatItem::User { .. }));
    assert_eq!(apply_event(&mut c, &mut queue, "chat_a", 1, 1, CodeEvent::Connected), StreamStep::Continue);
}

#[test]
fn a_chat_without_a_title_is_called_by_its_id() {
    assert_eq!(chat_title("", "chat_a"), "chat_a");
    assert_eq!(chat_title("Wire up the aggregate", "chat_a"), "Wire up the aggregate");
    assert!(leaves_chat(Some("chat_a"), "chat_b"), "a draft does not follow into another chat");
    assert!(!leaves_chat(Some("chat_a"), "chat_a"));
    assert!(leaves_chat(None, "chat_a"));
}

#[test]
fn a_chat_resumes_the_session_it_had_while_the_server_still_lists_it() {
    let listed = vec!["ses_2".to_owned(), "ses_1".to_owned()];
    assert_eq!(resume_session(Some("ses_1"), &listed).as_deref(), Some("ses_1"));
    assert_eq!(resume_session(Some("ses_gone"), &listed).as_deref(), Some("ses_2"));
    assert_eq!(resume_session(None, &listed).as_deref(), Some("ses_2"));
    assert_eq!(resume_session(Some("ses_1"), &Vec::new()), None, "made by the first prompt");
}

#[test]
fn a_pick_the_reader_has_not_sent_outranks_the_session_record() {
    let record = SessionRecord {
        model: Some((Some("zen/large".to_owned()), Some("high".to_owned()))),
        agent: Some("build".to_owned()),
    };
    let mut mine = TurnChoices { model: Some("zen/small".to_owned()), effort: None, agent: Some("plan".to_owned()) };
    adopt_session(&mut mine, true, true, &record);
    assert_eq!(mine, TurnChoices { model: Some("zen/small".to_owned()), effort: None, agent: Some("plan".to_owned()) });
    adopt_session(&mut mine, false, false, &record);
    assert_eq!(
        mine,
        TurnChoices { model: Some("zen/large".to_owned()), effort: Some("high".to_owned()), agent: Some("build".to_owned()) }
    );
    let bare = SessionRecord { model: Some((None, None)), agent: None };
    adopt_session(&mut mine, false, false, &bare);
    assert_eq!(
        mine,
        TurnChoices { model: Some("zen/large".to_owned()), effort: None, agent: Some("build".to_owned()) },
        "a record with no reference keeps the model, and its effort is the record's"
    );
}

#[test]
fn a_sent_prompt_is_on_screen_at_once_with_what_it_carried() {
    let mut c = chat();
    let files = vec![PendingAttachment {
        record: Attachment { name: "shot.jpg".to_owned(), mime: "image/jpeg".to_owned(), size: 3, thumb: "T".to_owned() },
        data: "QUJD".to_owned(),
        text: None,
    }];
    c.prompt_sent("look".to_owned(), &files);
    assert!(c.transcript.running);
    assert_eq!(c.transcript.items, vec![ChatItem::User { text: "look".to_owned(), attachments: vec![files[0].record.clone()] }]);
    let mut queue = Vec::new();
    apply_event(&mut c, &mut queue, "chat_a", 1, 1, CodeEvent::MessageUpdated { id: "msg_1".to_owned(), role: "user".to_owned() });
    apply_event(&mut c, &mut queue, "chat_a", 1, 1, CodeEvent::PartUpdated { part: part("p1", "ses_1", "look"), delta: None });
    assert_eq!(c.transcript.items.len(), 1, "the echo is adopted");
}

#[test]
fn a_prompt_goes_out_only_from_a_connected_chat_with_something_to_say() {

    assert_eq!(prompt_gate(None, true, false), (false, None));
    assert_eq!(
        prompt_gate(Some("c1"), false, false),
        (false, Some("Code plane not connected — check Settings"))
    );
    assert_eq!(prompt_gate(Some("c1"), true, true), (false, None));
    assert_eq!(prompt_gate(Some("c1"), true, false), (true, None));
}
