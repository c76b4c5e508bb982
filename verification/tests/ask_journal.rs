use goose_mobile::ask_journal::{
    acknowledge, forget_open, lose_open, loss_count, losses_in, note, prune,
    reconcile_at_startup, resolve, sentence, AskRecord, AskState, LostCause, MAX_ENTRIES,
};
use serde_json::Value;

const NOW: i64 = 1_800_000_000;

fn ask(tool_call_id: &str) -> AskRecord {
    AskRecord::open(
        "20260827_3".to_owned(),
        "Run uname command".to_owned(),
        tool_call_id.to_owned(),
        "shell · uname -a".to_owned(),
        NOW,
    )
}

fn cause_name(cause: LostCause) -> &'static str {
    match cause {
        LostCause::Connection => "Connection",
        LostCause::AppEnded => "AppEnded",
    }
}

fn cause_of(name: &str) -> LostCause {
    if name == "AppEnded" {
        LostCause::AppEnded
    } else {
        LostCause::Connection
    }
}

/// One record as the JSON the storage backing writes, built field by field.
fn to_json(record: &AskRecord) -> Value {
    let mut fields = serde_json::Map::new();
    fields.insert("session_id".to_owned(), Value::from(record.session_id.clone()));
    fields.insert("session_title".to_owned(), Value::from(record.session_title.clone()));
    fields.insert("tool_call_id".to_owned(), Value::from(record.tool_call_id.clone()));
    fields.insert("title".to_owned(), Value::from(record.title.clone()));
    fields.insert("asked_at".to_owned(), Value::from(record.asked_at));
    let state = match record.state {
        AskState::Open => Value::from("Open"),
        AskState::Lost { at, cause } => {
            let mut inner = serde_json::Map::new();
            inner.insert("at".to_owned(), Value::from(at));
            inner.insert("cause".to_owned(), Value::from(cause_name(cause)));
            let mut outer = serde_json::Map::new();
            outer.insert("Lost".to_owned(), Value::Object(inner));
            Value::Object(outer)
        }
        AskState::Acknowledged { at } => {
            let mut inner = serde_json::Map::new();
            inner.insert("at".to_owned(), Value::from(at));
            let mut outer = serde_json::Map::new();
            outer.insert("Acknowledged".to_owned(), Value::Object(inner));
            Value::Object(outer)
        }
    };
    fields.insert("state".to_owned(), state);
    Value::Object(fields)
}

fn text(value: &Value, key: &str) -> String {
    value.get(key).and_then(Value::as_str).unwrap_or_default().to_owned()
}

fn from_json(value: &Value) -> AskRecord {
    let state_value = value.get("state").cloned().unwrap_or(Value::Null);
    let state = if let Some(lost) = state_value.get("Lost") {
        AskState::Lost {
            at: lost.get("at").and_then(Value::as_i64).unwrap_or_default(),
            cause: cause_of(lost.get("cause").and_then(Value::as_str).unwrap_or_default()),
        }
    } else if let Some(seen) = state_value.get("Acknowledged") {
        AskState::Acknowledged { at: seen.get("at").and_then(Value::as_i64).unwrap_or_default() }
    } else {
        AskState::Open
    };
    AskRecord {
        session_id: text(value, "session_id"),
        session_title: text(value, "session_title"),
        tool_call_id: text(value, "tool_call_id"),
        title: text(value, "title"),
        asked_at: value.get("asked_at").and_then(Value::as_i64).unwrap_or_default(),
        state,
    }
}

#[test]
fn an_ask_the_app_was_killed_on_is_a_loss_at_the_next_launch() {
    let mut journal = Vec::new();
    note(&mut journal, ask("call_01a0"), NOW);

    // Everything after this line is a different process.
    let carried =
        serde_json::to_vec(&Value::Array(journal.iter().map(to_json).collect())).unwrap();
    let read: Value = serde_json::from_slice(&carried).unwrap();
    let mut journal: Vec<AskRecord> =
        read.as_array().unwrap().iter().map(from_json).collect();

    assert!(reconcile_at_startup(&mut journal, NOW + 90));
    assert_eq!(
        journal[0].state,
        AskState::Lost {
            at: NOW + 90,
            cause: LostCause::AppEnded
        }
    );
    assert_eq!(losses_in(&journal, "20260827_3").len(), 1);
    assert!(sentence(&journal[0]).contains("shell · uname -a"));
    assert!(
        sentence(&journal[0]).contains("while the app was closed"),
        "the sentence has to say which of the two happened"
    );
}

#[test]
fn a_clean_journal_costs_no_write_at_startup() {
    let mut journal = Vec::new();
    assert!(!reconcile_at_startup(&mut journal, NOW));

    let mut journal = vec![ask("call_01a0")];
    lose_open(&mut journal, LostCause::Connection, NOW);
    assert!(!reconcile_at_startup(&mut journal, NOW + 5));
    assert_eq!(
        journal[0].state,
        AskState::Lost {
            at: NOW,
            cause: LostCause::Connection
        },
        "a loss already dated must not be re-dated by a restart"
    );
}

#[test]
fn an_answered_or_withdrawn_ask_leaves_no_trace() {
    let mut journal = Vec::new();
    note(&mut journal, ask("call_01a0"), NOW);
    resolve(&mut journal, "call_01a0");
    assert!(journal.is_empty());

    note(&mut journal, ask("call_01a0"), NOW);
    lose_open(&mut journal, LostCause::Connection, NOW);
    resolve(&mut journal, "call_01a0");
    assert!(journal.is_empty());
}

#[test]
fn a_deliberate_disconnect_narrates_nothing() {
    let mut journal = Vec::new();
    note(&mut journal, ask("call_01a0"), NOW);
    forget_open(&mut journal);
    assert!(journal.is_empty());
}

#[test]
fn a_re_raised_ask_takes_its_own_record_back() {
    let mut journal = Vec::new();
    note(&mut journal, ask("call_01a0"), NOW);
    lose_open(&mut journal, LostCause::Connection, NOW + 1);
    assert_eq!(loss_count(&journal, "20260827_3"), 1);

    note(&mut journal, ask("call_01a0"), NOW + 30);
    assert_eq!(journal.len(), 1, "two records for one ask");
    assert!(journal[0].is_open());
    assert_eq!(loss_count(&journal, "20260827_3"), 0);
}

#[test]
fn a_dismissed_loss_stops_being_reported() {
    let mut journal = Vec::new();
    note(&mut journal, ask("call_01a0"), NOW);
    lose_open(&mut journal, LostCause::Connection, NOW);
    acknowledge(&mut journal, "call_01a0", NOW + 5);
    assert_eq!(loss_count(&journal, "20260827_3"), 0);
    assert!(losses_in(&journal, "20260827_3").is_empty());

    assert!(!reconcile_at_startup(&mut journal, NOW + 10));
    assert_eq!(loss_count(&journal, "20260827_3"), 0);
}

#[test]
fn losses_are_reported_against_the_session_that_lost_them() {
    let mut journal = Vec::new();
    note(&mut journal, ask("call_a"), NOW);
    let mut other = ask("call_b");
    other.session_id = "20260827_4".to_owned();
    note(&mut journal, other, NOW);
    lose_open(&mut journal, LostCause::Connection, NOW);

    assert_eq!(loss_count(&journal, "20260827_3"), 1);
    assert_eq!(loss_count(&journal, "20260827_4"), 1);
    assert_eq!(loss_count(&journal, "20260827_9"), 0);
    assert_eq!(losses_in(&journal, "20260827_3")[0].0, "call_a");
}

#[test]
fn the_cap_sheds_what_has_already_been_read() {
    let mut journal = Vec::new();
    for n in 0..MAX_ENTRIES {
        note(&mut journal, ask(&format!("call_{n}")), NOW);
        lose_open(
            &mut journal,
            LostCause::Connection,
            NOW + i64::try_from(n).unwrap_or(0),
        );
    }
    acknowledge(&mut journal, "call_5", NOW);
    note(&mut journal, ask("call_new"), NOW + 100);

    assert_eq!(journal.len(), MAX_ENTRIES);
    assert!(
        !journal.iter().any(|e| e.tool_call_id == "call_5"),
        "the dismissed one should have gone first"
    );
    assert!(journal.iter().any(|e| e.tool_call_id == "call_0"));
    assert!(journal.iter().any(|e| e.tool_call_id == "call_new"));
}

#[test]
fn a_stale_entry_ages_out() {
    let mut journal = vec![ask("call_old")];
    lose_open(&mut journal, LostCause::Connection, NOW);
    prune(&mut journal, NOW + 8 * 86_400);
    assert!(journal.is_empty());
}

#[test]
fn a_loss_inside_the_week_is_kept() {
    let mut journal = vec![ask("call_recent")];
    lose_open(&mut journal, LostCause::Connection, NOW);
    prune(&mut journal, NOW + 6 * 86_400);
    assert_eq!(journal.len(), 1);
}

#[test]
fn a_connection_loss_says_the_connection_dropped() {
    let mut journal = vec![ask("call_01a0")];
    lose_open(&mut journal, LostCause::Connection, NOW);
    let said = sentence(&journal[0]);
    assert!(said.contains("shell · uname -a"));
    assert!(!said.contains("while the app was closed"));
}
