use goose_mobile::code::Permission;
use goose_mobile::nav::CodeScreen;
use goose_mobile::session::{
    agent_donor, agents_needed, borrowed_agents_from, branches_answered, branches_asked,
    branches_needed, catalogue_donor, default_model_wanted, models_needed, open_chat_has_ask,
    repo_allows_free_models, ChatMeta, Picks, RepoMeta,
};
use goose_mobile::stream::TurnChoices;

fn chat(id: &str, repo: &str, running: bool) -> ChatMeta {
    ChatMeta { id: id.to_string(), repo: repo.to_string(), running }
}

fn picks(model: Option<&str>, effort: Option<&str>) -> Picks {
    Picks {
        choices: TurnChoices {
            model: model.map(str::to_string),
            effort: effort.map(str::to_string),
            agent: None,
        },
        picked: false,
        agent_picked: false,
    }
}

#[test]
fn only_a_public_throwaway_may_see_a_free_model() {
    let repos = vec![
        RepoMeta { name: "scratch".to_string(), public_throwaway: true },
        RepoMeta { name: "brain".to_string(), public_throwaway: false },
    ];
    assert!(repo_allows_free_models(&repos, "scratch"));
    assert!(!repo_allows_free_models(&repos, "brain"));
    assert!(!repo_allows_free_models(&repos, "unlisted"));
}

#[test]
fn an_awake_chat_is_asked_for_the_catalogue_first() {
    let chats = vec![chat("a", "x", false), chat("b", "y", true)];
    assert_eq!(catalogue_donor(&chats, Some("a")).as_deref(), Some("b"));
}

#[test]
fn with_none_awake_the_open_chat_then_the_first_listed_is_asked() {
    let chats = vec![chat("a", "x", false), chat("b", "y", false)];
    assert_eq!(catalogue_donor(&chats, Some("b")).as_deref(), Some("b"));
    assert_eq!(catalogue_donor(&chats, None).as_deref(), Some("a"));
    assert_eq!(catalogue_donor(&Vec::new(), None), None);
}

#[test]
fn a_repos_own_chat_is_asked_for_its_agents() {
    let chats = vec![
        chat("a", "other", true),
        chat("b", "mine", false),
        chat("c", "mine", true),
    ];
    assert_eq!(agent_donor(&chats, "mine", None).as_deref(), Some("c"));
    let asleep = vec![chat("a", "other", true), chat("b", "mine", false)];
    assert_eq!(agent_donor(&asleep, "mine", None).as_deref(), Some("b"));
    assert_eq!(agent_donor(&asleep, "new", None).as_deref(), Some("a"));
}

#[test]
fn a_borrowed_agent_list_names_the_repo_it_came_from() {
    let chats = vec![chat("a", "other", true), chat("b", "mine", false)];
    assert_eq!(borrowed_agents_from(&chats, "a", "mine").as_deref(), Some("other"));
    assert_eq!(borrowed_agents_from(&chats, "b", "mine"), None);
    assert_eq!(borrowed_agents_from(&chats, "gone", "mine"), None);
    assert_eq!(borrowed_agents_from(&chats, "", "mine"), None);
}

#[test]
fn the_ask_modal_is_for_the_chat_being_read() {
    let ask = Permission {
        id: "p1".to_string(),
        session_id: "s1".to_string(),
        title: "bash".to_string(),
        kind: "bash".to_string(),
    };
    let queue = vec![("c1".to_string(), ask)];
    assert!(open_chat_has_ask(true, CodeScreen::Chat, Some("c1"), &queue));
    assert!(open_chat_has_ask(true, CodeScreen::Diff, Some("c1"), &queue));
    assert!(!open_chat_has_ask(true, CodeScreen::List, Some("c1"), &queue));
    assert!(!open_chat_has_ask(false, CodeScreen::Chat, Some("c1"), &queue));
    assert!(!open_chat_has_ask(true, CodeScreen::Chat, Some("c2"), &queue));
    assert!(!open_chat_has_ask(true, CodeScreen::Chat, None, &queue));
}

#[test]
fn a_list_in_hand_or_on_its_way_is_not_fetched_again() {
    assert!(!agents_needed("c1", "c1", true, false));
    assert!(!agents_needed("c1", "c1", false, true));
    assert!(agents_needed("c1", "c1", false, false));
    assert!(agents_needed("c1", "c2", true, false));
    assert!(models_needed(false, false));
    assert!(!models_needed(true, false));
    assert!(!models_needed(false, true));
}

#[test]
fn branches_are_fetched_once_per_repo() {
    let asked = branches_asked("mine");
    assert!(!branches_needed(&asked, "mine"));
    assert!(branches_needed(&asked, "other"));
    assert!(!branches_needed(&asked, ""));
    let failed = branches_answered("mine", None);
    assert!(branches_needed(&failed, "mine"));
    let listed = branches_answered(
        "mine",
        Some((vec!["main".to_string(), "dev".to_string()], Some("main".to_string()), false)),
    );
    assert!(!listed.loading);
    assert_eq!(listed.default.as_deref(), Some("main"));
    assert!(!branches_needed(&listed, "mine"));
}

#[test]
fn switching_model_drops_an_effort_the_new_one_may_not_offer() {
    let mut p = picks(Some("anthropic/opus"), Some("xhigh"));
    p.set_model("openai/gpt");
    assert_eq!(p.choices.model.as_deref(), Some("openai/gpt"));
    assert_eq!(p.choices.effort, None);
    assert!(p.picked);
}

#[test]
fn re_picking_the_model_in_place_is_still_a_pick() {
    let mut p = picks(Some("anthropic/opus"), Some("high"));
    p.set_model("anthropic/opus");
    assert!(p.picked);
    assert_eq!(p.choices.effort.as_deref(), Some("high"));
}

#[test]
fn an_agent_and_an_effort_are_picks_too() {
    let mut p = picks(None, None);
    p.set_agent("plan");
    assert!(p.agent_picked && !p.picked);
    assert_eq!(p.choices.agent.as_deref(), Some("plan"));
    p.set_effort(Some("low"));
    assert!(p.picked);
    assert_eq!(p.choices.effort.as_deref(), Some("low"));
    p.set_effort(None);
    assert_eq!(p.choices.effort, None);
}

#[test]
fn a_new_sessions_picks_stand_over_the_managers_record() {
    let mut p = picks(Some("manager/default"), None);
    p.adopt_new_session(&Some("openai/gpt".to_string()), &None);
    assert_eq!(p.choices.model.as_deref(), Some("openai/gpt"));
    assert!(p.picked && !p.agent_picked);
}

#[test]
fn the_containers_model_fills_only_a_gap() {
    let mut p = picks(None, None);
    assert!(p.adopt_default_model("zen/default".to_string()));
    assert_eq!(p.choices.model.as_deref(), Some("zen/default"));
    assert!(!p.adopt_default_model("zen/other".to_string()));
    let mut chosen = picks(None, None);
    chosen.picked = true;
    assert!(!chosen.adopt_default_model("zen/default".to_string()));
    assert_eq!(default_model_wanted(Some("c1"), false).as_deref(), Some("c1"));
    assert_eq!(default_model_wanted(Some("c1"), true), None);
    assert_eq!(default_model_wanted(None, false), None);
}
