use goose_mobile::code::{
    answers_open_chat, connected_label, Checks, PullRequest, PullState, PullsState, SWEEP_FLOOR_SECS, SWEEP_MAX_CHATS,
};

fn pull(number: u64, state: PullState) -> PullRequest {
    PullRequest { number, state, draft: false, mergeable: Some(true), checks: Checks::Passing }
}

fn ids(n: usize) -> Vec<String> {
    (0..n).map(|k| format!("c{k}")).collect()
}

#[test]
fn a_sweep_asks_about_the_first_chats_of_the_index_only() {
    let mut state = PullsState::new();
    let asked = state.sweep_start(&ids(30), 1_000);
    assert_eq!(asked.len(), SWEEP_MAX_CHATS);
    assert_eq!(asked[0], "c0");
    assert_eq!(asked[SWEEP_MAX_CHATS - 1], "c23");
    assert_eq!(state.swept, 1_000);
}

#[test]
fn a_sweep_inside_the_floor_asks_about_nothing() {
    let mut state = PullsState::new();
    assert_eq!(state.sweep_start(&ids(3), 1_000).len(), 3);
    assert!(state.sweep_start(&ids(3), 1_000 + SWEEP_FLOOR_SECS - 1).is_empty());
    assert_eq!(state.swept, 1_000, "a refused sweep moved the floor");
    assert!(state.sweep_start(&ids(3), 990).is_empty(), "a clock that stepped back swept");
    assert_eq!(state.sweep_start(&ids(3), 1_000 + SWEEP_FLOOR_SECS).len(), 3);
}

#[test]
fn an_empty_index_claims_no_sweep() {
    let mut state = PullsState::new();
    assert!(state.sweep_start(&Vec::new(), 1_000).is_empty());
    assert_eq!(state.swept, 0);
}

#[test]
fn a_deleted_chat_leaves_the_index() {
    let mut state = PullsState::new();
    state.record("gone", vec![pull(1, PullState::Open)]);
    state.record("kept", vec![pull(2, PullState::Open)]);
    state.retain_live(&vec!["kept".to_string(), "other".to_string()]);
    assert_eq!(state.plane_pull("gone"), None);
    assert_eq!(state.plane_pull("kept"), Some(pull(2, PullState::Open)));
    assert_eq!(state.by_chat.len(), 1);
}

#[test]
fn an_answer_fills_the_screen_and_the_row_alike() {
    let mut state = PullsState::new();
    state.pulls_asked();
    assert!(state.loading);
    state.pulls_answered("c1", Ok(vec![pull(5, PullState::Open)]));
    assert!(!state.loading && state.loaded && state.error.is_none());
    assert_eq!(state.pulls, [pull(5, PullState::Open)]);
    assert_eq!(state.plane_pull("c1"), Some(pull(5, PullState::Open)));
}

#[test]
fn a_failed_answer_stays_on_the_screen() {
    let mut state = PullsState::new();
    state.pulls_asked();
    state.pulls_answered("c1", Err("GitHub is unreachable".to_string()));
    assert!(!state.loading && !state.loaded);
    assert_eq!(state.error.as_deref(), Some("GitHub is unreachable"));
    assert_eq!(state.plane_pull("c1"), None);
}

#[test]
fn a_merge_repaints_its_row_from_the_fresh_one() {
    let mut state = PullsState::new();
    state.pulls_answered("c1", Ok(vec![pull(3, PullState::Open), pull(4, PullState::Open)]));
    state.merging = Some(4);
    let (repainted, toast) = state.merge_answered(4, Ok(Some(pull(4, PullState::Merged))));
    assert!(repainted);
    assert_eq!(toast, "Merged #4");
    assert_eq!(state.merging, None);
    assert_eq!(state.pulls, [pull(3, PullState::Open), pull(4, PullState::Merged)]);
}

#[test]
fn a_refused_merge_says_why_and_asks_again() {
    let mut state = PullsState::new();
    state.pulls_answered("c1", Ok(vec![pull(4, PullState::Open)]));
    let (repainted, toast) =
        state.merge_answered(4, Err("Pull request #4 is already merged".to_string()));
    assert!(!repainted);
    assert_eq!(toast, "Pull request #4 is already merged");
    assert_eq!(state.pulls, [pull(4, PullState::Open)]);
    let (repainted, toast) = state.merge_answered(4, Ok(None));
    assert!(!repainted);
    assert_eq!(toast, "Merged #4");
}

#[test]
fn an_answer_for_a_chat_left_behind_is_dropped() {
    assert!(answers_open_chat(Some("c1"), "c1"));
    assert!(!answers_open_chat(Some("c2"), "c1"));
    assert!(!answers_open_chat(None, "c1"));
}

#[test]
fn the_connection_says_how_many_agents_are_active() {

    assert_eq!(connected_label(Some(3)), "code agents (3 active)");
    assert_eq!(connected_label(None), "code agents (0 active)");
}
