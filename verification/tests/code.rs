use goose_mobile::code::{
    ask_label, checks_label, is_free_model, merge_permission_report, mergeability_label, poll_tick,
    pull_state_label, row_checks_label, row_pull_word, status_label, sweep_due, Checks, PendingAsk,
    Permission, PermissionReport, PullRequest, PullState, PullsState, Tick, SWEEP_FLOOR_SECS,
};

fn pull(state: PullState, draft: bool, mergeable: Option<bool>, checks: Checks) -> PullRequest {
    PullRequest { number: 12, state, draft, mergeable, checks }
}

#[test]
fn a_pulls_state_reads_as_the_thing_that_matters_about_it() {
    let open = pull(PullState::Open, false, Some(true), Checks::Passing);
    assert_eq!(pull_state_label(&open), ("dot on", "open"));
    let draft = pull(PullState::Open, true, Some(true), Checks::Passing);
    assert_eq!(pull_state_label(&draft), ("dot off", "draft"));
    let merged = pull(PullState::Merged, false, None, Checks::Passing);
    assert_eq!(pull_state_label(&merged), ("dot on", "merged"));
    let unknown = pull(PullState::Unknown, false, Some(true), Checks::Passing);
    assert_eq!(pull_state_label(&unknown), ("dot err", "state unknown"));
}

#[test]
fn a_row_names_the_pull_request_by_number_and_where_it_stands() {
    assert_eq!(row_pull_word(&pull(PullState::Open, false, Some(true), Checks::Passing)), "#12 open");
    assert_eq!(row_pull_word(&pull(PullState::Open, true, None, Checks::Pending)), "#12 draft");
    assert_eq!(row_pull_word(&pull(PullState::Merged, false, None, Checks::Passing)), "#12 merged");
    assert_eq!(row_pull_word(&pull(PullState::Closed, false, None, Checks::Absent)), "#12 closed");
    assert_eq!(
        row_pull_word(&pull(PullState::Unknown, false, None, Checks::Passing)),
        "#12",
        "a list row has nothing a reader can do about an unrecognised state, and the number is still true"
    );
}

#[test]
fn a_row_draws_a_build_only_where_there_is_one_to_act_on() {
    assert_eq!(
        row_checks_label(&pull(PullState::Open, false, Some(true), Checks::Failing)),
        Some(("dot err", "checks failing"))
    );
    assert_eq!(
        row_checks_label(&pull(PullState::Open, true, None, Checks::Pending)),
        Some(("dot busy", "checks running")),
        "a draft is still a branch with a build running on it"
    );
    assert_eq!(
        row_checks_label(&pull(PullState::Open, false, Some(true), Checks::Passing)),
        Some(("dot on", "checks passing"))
    );
    assert_eq!(row_checks_label(&pull(PullState::Open, false, Some(true), Checks::Absent)), None);
    assert_eq!(row_checks_label(&pull(PullState::Open, false, Some(true), Checks::Unknown)), None);
    assert_eq!(
        row_checks_label(&pull(PullState::Merged, false, None, Checks::Failing)),
        None,
        "nobody is going to fix a red build on a branch that has landed"
    );
    assert_eq!(row_checks_label(&pull(PullState::Closed, false, None, Checks::Failing)), None);
}

#[test]
fn a_sweep_waits_out_its_floor_and_survives_a_clock_that_steps_back() {
    assert!(sweep_due(0, 0), "never swept is always due");
    assert!(sweep_due(0, 9_999));
    assert!(!sweep_due(1_000, 1_002));
    assert!(!sweep_due(1_000, 1_000 + SWEEP_FLOOR_SECS - 1));
    assert!(sweep_due(1_000, 1_000 + SWEEP_FLOOR_SECS));
    assert!(!sweep_due(1_000, 500), "a clock that stepped backwards must not make every sweep due");
}

#[test]
fn absent_checks_and_unreadable_checks_are_told_apart() {
    assert_eq!(checks_label(Checks::Absent), ("dot off", "no checks"));
    assert_eq!(checks_label(Checks::Unknown), ("dot off", "checks unknown"));
    assert_eq!(checks_label(Checks::Pending), ("dot busy", "checks running"));
    assert_eq!(checks_label(Checks::Failing), ("dot err", "checks failing"));
}

#[test]
fn a_pull_that_only_conflicts_still_says_so() {
    assert_eq!(
        mergeability_label(&pull(PullState::Open, false, Some(false), Checks::Passing)),
        Some(("dot err", "conflicts"))
    );
    assert_eq!(
        mergeability_label(&pull(PullState::Open, false, None, Checks::Passing)),
        Some(("dot busy", "mergeability pending")),
        "mergeability GitHub has not computed is a wait, and says so"
    );
}

#[test]
fn a_row_that_already_says_why_says_it_once() {
    assert_eq!(mergeability_label(&pull(PullState::Open, false, Some(true), Checks::Passing)), None);
    assert_eq!(mergeability_label(&pull(PullState::Merged, false, Some(false), Checks::Absent)), None);
    assert_eq!(mergeability_label(&pull(PullState::Open, true, Some(false), Checks::Failing)), None);
    assert_eq!(mergeability_label(&pull(PullState::Open, false, None, Checks::Failing)), None);
}

fn ask(chat: &str, id: &str) -> PendingAsk {
    PendingAsk {
        chat_id: chat.to_owned(),
        permission: Permission {
            id: id.to_owned(),
            session_id: "ses_1".to_owned(),
            title: "Run git push".to_owned(),
            kind: "bash".to_owned(),
        },
    }
}

fn report(permissions: Vec<PendingAsk>, unreachable: &[&str]) -> PermissionReport {
    PermissionReport { permissions, unreachable: unreachable.iter().map(|s| (*s).to_owned()).collect() }
}

fn ids(queue: &[(String, Permission)]) -> Vec<(&str, &str)> {
    queue.iter().map(|(c, p)| (c.as_str(), p.id.as_str())).collect()
}

fn tomb(chat: &str, id: &str) -> (String, String) {
    (chat.to_owned(), id.to_owned())
}

#[test]
fn an_ask_from_a_chat_you_have_not_opened_reaches_the_queue() {
    let mut queue = Vec::new();
    let mut answered = Vec::new();
    merge_permission_report(&mut queue, &mut answered, &report(vec![ask("chat_a", "per_1")], &[]), None);
    assert_eq!(ids(&queue), [("chat_a", "per_1")]);
}

#[test]
fn an_ask_the_snapshot_drops_leaves_the_queue() {
    let mut queue = vec![("chat_a".to_owned(), ask("chat_a", "per_1").permission)];
    let mut answered = Vec::new();
    merge_permission_report(&mut queue, &mut answered, &report(Vec::new(), &[]), None);
    assert!(queue.is_empty());
}

#[test]
fn a_container_that_did_not_answer_keeps_its_ask() {
    let mut queue = vec![
        ("chat_a".to_owned(), ask("chat_a", "per_1").permission),
        ("chat_b".to_owned(), ask("chat_b", "per_2").permission),
    ];
    let mut answered = Vec::new();
    merge_permission_report(&mut queue, &mut answered, &report(Vec::new(), &["chat_b"]), None);
    assert_eq!(ids(&queue), [("chat_b", "per_2")]);
}

#[test]
fn an_ask_answered_here_is_not_re_added_by_a_stale_snapshot() {
    let mut queue = Vec::new();
    let mut answered = vec![tomb("chat_a", "per_1")];
    merge_permission_report(&mut queue, &mut answered, &report(vec![ask("chat_a", "per_1")], &[]), None);
    assert!(queue.is_empty(), "the tombstone holds while the server lags");
    assert_eq!(answered.len(), 1, "and holds until the server agrees");
}

#[test]
fn a_tombstone_clears_once_the_server_agrees() {
    let mut queue = Vec::new();
    let mut answered = vec![tomb("chat_a", "per_1")];
    merge_permission_report(&mut queue, &mut answered, &report(Vec::new(), &[]), None);
    assert!(answered.is_empty());
}

#[test]
fn the_chat_with_a_live_stream_is_left_to_it() {
    let mut queue = vec![("chat_a".to_owned(), ask("chat_a", "per_live").permission)];
    let mut answered = Vec::new();
    merge_permission_report(
        &mut queue,
        &mut answered,
        &report(vec![ask("chat_a", "per_old")], &[]),
        Some("chat_a"),
    );
    assert_eq!(ids(&queue), [("chat_a", "per_live")], "neither dropped nor added behind the stream's back");
}

#[test]
fn a_chat_with_no_stream_of_its_own_is_reported_by_the_aggregate() {
    let mut queue = Vec::new();
    let mut answered = Vec::new();
    merge_permission_report(
        &mut queue,
        &mut answered,
        &report(vec![ask("chat_a", "per_1"), ask("chat_b", "per_2")], &[]),
        Some("chat_b"),
    );
    assert_eq!(ids(&queue), [("chat_a", "per_1")]);
}

#[test]
fn an_entry_with_no_chat_is_ignored() {
    let mut queue = Vec::new();
    let mut answered = Vec::new();
    merge_permission_report(
        &mut queue,
        &mut answered,
        &report(vec![ask("", "per_1"), ask("chat_a", "")], &[]),
        None,
    );
    assert!(queue.is_empty());
}

#[test]
fn a_repeated_snapshot_does_not_duplicate_a_card() {
    let mut queue = Vec::new();
    let mut answered = Vec::new();
    let snapshot = report(vec![ask("chat_a", "per_1")], &[]);
    merge_permission_report(&mut queue, &mut answered, &snapshot, None);
    merge_permission_report(&mut queue, &mut answered, &snapshot, None);
    assert_eq!(ids(&queue), [("chat_a", "per_1")]);
}

#[test]
fn a_snapshot_listing_one_ask_twice_queues_it_once() {
    let mut queue = Vec::new();
    let mut answered = Vec::new();
    merge_permission_report(
        &mut queue,
        &mut answered,
        &report(vec![ask("chat_a", "per_1"), ask("chat_a", "per_1")], &[]),
        None,
    );
    assert_eq!(ids(&queue), [("chat_a", "per_1")]);
}

#[test]
fn a_queued_ask_still_listed_keeps_its_place() {
    let mut queue = vec![
        ("chat_b".to_owned(), ask("chat_b", "per_2").permission),
        ("chat_a".to_owned(), ask("chat_a", "per_1").permission),
    ];
    let mut answered = vec![tomb("chat_c", "per_9"), tomb("chat_d", "per_8")];
    merge_permission_report(
        &mut queue,
        &mut answered,
        &report(vec![ask("chat_a", "per_1"), ask("chat_c", "per_9"), ask("chat_b", "per_2"), ask("chat_e", "per_3")], &[]),
        None,
    );
    assert_eq!(ids(&queue), [("chat_b", "per_2"), ("chat_a", "per_1"), ("chat_e", "per_3")]);
    assert_eq!(answered, vec![tomb("chat_c", "per_9")]);
}

#[test]
fn a_poll_loop_is_retired_only_by_a_newer_poll_loop() {
    assert_eq!(poll_tick(1, 1, true, true), Tick::Fetch);
    assert_eq!(poll_tick(1, 2, true, true), Tick::Retire);
    assert_eq!(
        poll_tick(1, 1, false, true),
        Tick::Idle,
        "another tab is a pause, not an exit — the list is still there"
    );
    assert_eq!(poll_tick(1, 1, true, false), Tick::Idle, "nothing to ask until there is a client to ask with");
}

#[test]
fn a_chat_parked_on_an_ask_does_not_call_itself_idle() {
    assert_eq!(status_label("running", false, true), ("dot wait", "waiting on you".to_owned()));
    assert_eq!(
        status_label("running", false, false),
        ("dot on", "idle".to_owned()),
        "and a chat with nothing pending still reports its container"
    );
    assert_eq!(status_label("stopped", false, true), ("dot wait", "waiting on you".to_owned()));
}

#[test]
fn every_container_status_has_its_own_words() {
    assert_eq!(status_label("running", true, false), ("dot busy", "working".to_owned()));
    assert_eq!(status_label("stopped", false, false), ("dot off", "asleep".to_owned()));
    assert_eq!(status_label("absent", true, false), ("dot off", "asleep".to_owned()));
    assert_eq!(status_label("crashlooping", false, false), ("dot err", "crashlooping".to_owned()));
}

#[test]
fn free_models_are_told_by_name_or_by_the_word() {
    assert!(is_free_model("opencode/big-pickle"));
    assert!(is_free_model("Muse-Spark-Contributor"));
    assert!(is_free_model("zen/grok-code-FREE"));
    assert!(is_free_model("a/b/gpt-5-free-preview"));
    assert!(!is_free_model("vendor/large-model-4"));
    assert!(!is_free_model("free/large-model-4"), "only the last segment is the model's name");
    assert!(!is_free_model(""));
}

#[test]
fn an_ask_is_called_by_its_title_or_else_its_kind() {
    let mut p = ask("chat_a", "per_1").permission;
    assert_eq!(ask_label(&p), "Run git push");
    p.title = String::new();
    assert_eq!(ask_label(&p), "bash");
}

#[test]
fn the_plane_index_tells_unasked_apart_from_answered_empty() {
    let mut state = PullsState::new();
    assert!(state.plane_pull("c1").is_none());
    state.record("c1", Vec::new());
    assert!(state.plane_pull("c1").is_none());
    let newest = PullRequest { number: 30, ..pull(PullState::Open, false, Some(true), Checks::Passing) };
    let older = PullRequest { number: 29, ..pull(PullState::Closed, false, None, Checks::Passing) };
    state.record("c2", vec![newest, older]);
    assert_eq!(
        state.plane_pull("c2").map(|p| p.number),
        Some(30),
        "the manager sorts newest first and a reopened branch is about what is happening now"
    );
}

#[test]
fn a_second_sweep_replaces_what_the_first_recorded() {
    let mut state = PullsState::new();
    state.record("c1", vec![PullRequest { number: 7, ..pull(PullState::Open, false, None, Checks::Pending) }]);
    state.record("c2", vec![PullRequest { number: 8, ..pull(PullState::Open, false, None, Checks::Pending) }]);
    state.record("c1", Vec::new());
    assert_eq!(state.plane_pull("c1"), None);
    assert_eq!(state.plane_pull("c2").map(|p| p.number), Some(8));
    assert_eq!(state.by_chat.len(), 2, "a chat is recorded once");
}

#[test]
fn opening_another_chat_keeps_the_planes_index_and_clears_the_screens_half() {
    let mut state = PullsState::new();
    state.record("c1", vec![PullRequest { number: 7, ..pull(PullState::Open, false, None, Checks::Pending) }]);
    state.swept = 1_000;
    state.loaded = true;
    state.merging = Some(7);
    state.pulls = vec![PullRequest { number: 7, ..pull(PullState::Open, false, None, Checks::Pending) }];
    let next = state.reopened();
    assert_eq!(next.plane_pull("c1").map(|p| p.number), Some(7));
    assert_eq!(next.swept, 1_000);
    assert!(!next.loaded && next.merging.is_none() && next.pulls.is_empty() && next.error.is_none());
}
