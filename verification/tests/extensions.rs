use goose_mobile::extensions::{
    catalog_begin, catalog_next, dump_key, handshake_cwd, humanize, kind_copy, meta_line, title_for,
    toggle_begun, toggle_settled, tool_summary, CatalogAction, CatalogEvent, CatalogStep, RowState,
    Screen, Toggle,
};

fn tools(names: &[&str]) -> Vec<String> {
    names.iter().map(|s| s.to_string()).collect()
}

#[test]
fn a_transport_is_shown_as_copy_never_as_the_enum() {
    assert_eq!(kind_copy("stdio"), "Local command");
    assert_eq!(kind_copy("http"), "Remote");
    assert_eq!(kind_copy("streamable_http"), "Remote");
    assert_eq!(kind_copy("builtin"), "Built in");
    assert_eq!(kind_copy("platform"), "Built in");
    assert_eq!(kind_copy("carrier_pigeon"), "Extension");
}

#[test]
fn what_the_user_just_asked_for_outranks_the_last_list() {
    assert_eq!(RowState::of(true, false, false), RowState::On);
    assert_eq!(RowState::of(false, false, false), RowState::Off);
    assert_eq!(RowState::of(false, false, true), RowState::Failed);
    assert_eq!(RowState::of(true, true, true), RowState::Busy);
}

#[test]
fn every_state_has_a_word_and_a_dot() {
    for state in [RowState::On, RowState::Off, RowState::Busy, RowState::Failed] {
        assert!(!state.word().is_empty());
        assert!(["dot on", "dot off", "dot busy", "dot err"].contains(&state.dot()));
    }
}

#[test]
fn the_meta_line_is_the_state_then_the_kind() {
    assert_eq!(meta_line(RowState::On, "stdio"), "On · Local command");
    assert_eq!(meta_line(RowState::Off, "http"), "Off · Remote");
    assert_eq!(meta_line(RowState::Failed, "builtin"), "Failed · Built in");
}

#[test]
fn no_allowlist_reads_as_everything() {
    assert_eq!(tool_summary(&tools(&[])), "every tool this server publishes");
}

#[test]
fn a_long_allowlist_is_summarised_rather_than_listed() {
    assert_eq!(tool_summary(&tools(&["one"])), "one");
    assert_eq!(tool_summary(&tools(&["a", "b", "c"])), "a, b, c");
    assert_eq!(tool_summary(&tools(&["a", "b", "c", "d"])), "a, b, and 2 more");
}

#[test]
fn a_title_prefers_gooses_display_name_over_a_config_key() {
    assert_eq!(title_for(Some("Developer"), "developer"), "Developer");
    assert_eq!(title_for(None, "mail-imap"), "Mail imap");
}

#[test]
fn each_screen_dumps_under_a_key_of_its_own() {
    assert_ne!(dump_key(Screen::List), dump_key(Screen::Detail));
    assert_eq!(dump_key(Screen::List), "extensions");
}

#[test]
fn a_config_key_is_made_readable_and_nothing_more() {
    assert_eq!(humanize("computer_controller"), "Computer controller");
    assert_eq!(humanize("nightly-dependency-audit"), "Nightly dependency audit");
    assert_eq!(humanize("Already"), "Already");
    assert_eq!(humanize("9lives"), "9lives");
    assert_eq!(humanize(""), "");
}

#[test]
fn twelve_tools_are_counted_not_listed() {
    let many: Vec<String> = (0..12).map(|k| format!("t{}", k)).collect();
    assert_eq!(tool_summary(&many), "t0, t1, and 10 more");
}

#[test]
fn a_switch_is_busy_until_the_server_answers_and_a_failure_stays_on_the_row() {
    assert_eq!(toggle_begun("mail-imap"), Toggle { key: "mail-imap".to_owned(), failed: false });
    assert_eq!(toggle_settled("mail-imap", Ok(())), (None, None));
    assert_eq!(
        toggle_settled("mail-imap", Err("spawn failed".to_owned())),
        (
            Some(Toggle { key: "mail-imap".to_owned(), failed: true }),
            Some("Could not change mail-imap: spawn failed".to_owned())
        )
    );
}

#[test]
fn a_catalogue_entry_stores_every_credential_then_adds_then_proves_it_starts() {
    let keys = vec!["CALDAV_USERNAME".to_owned(), "CALDAV_PASSWORD".to_owned()];
    let (mut step, mut action) = catalog_begin(keys.len());
    let mut actions = vec![action.clone()];
    while step != CatalogStep::Finished {
        let next = catalog_next(step, &keys, "Calendar", CatalogEvent::Done);
        step = next.0;
        action = next.1;
        actions.push(action.clone());
    }
    assert_eq!(
        actions,
        vec![
            CatalogAction::Store(0),
            CatalogAction::Store(1),
            CatalogAction::AddExtension,
            CatalogAction::VerifyStarts,
            CatalogAction::Connected { toast: "Calendar connected".to_owned() },
        ]
    );
    assert_eq!(catalog_begin(0), (CatalogStep::Adding, CatalogAction::AddExtension));
}

#[test]
fn every_failure_in_the_catalogue_flow_is_said_by_name() {
    let keys = vec!["TODOIST_API_TOKEN".to_owned()];
    assert_eq!(
        catalog_next(CatalogStep::Storing(0), &keys, "Todoist", CatalogEvent::Failed("locked".to_owned())),
        (CatalogStep::Finished, CatalogAction::Report { message: "Could not store TODOIST_API_TOKEN: locked".to_owned(), refresh: false })
    );
    assert_eq!(
        catalog_next(CatalogStep::Adding, &keys, "Todoist", CatalogEvent::VerificationFailed("allowlist dropped".to_owned())),
        (
            CatalogStep::Finished,
            CatalogAction::Report {
                message: "allowlist dropped\n\nIt is switched off on the server and was never started.".to_owned(),
                refresh: true
            }
        )
    );
    assert_eq!(
        catalog_next(CatalogStep::Adding, &keys, "Todoist", CatalogEvent::Failed("timeout".to_owned())),
        (CatalogStep::Finished, CatalogAction::Report { message: "Could not add Todoist: timeout".to_owned(), refresh: false })
    );
    let (_, started) = catalog_next(CatalogStep::Starting, &keys, "Todoist", CatalogEvent::Failed("401".to_owned()));
    assert_eq!(
        started,
        CatalogAction::Report {
            message: "Todoist is configured, but would not start: 401\n\nThe usual cause is a credential that was mistyped or has expired. Re-enter it above to overwrite it.".to_owned(),
            refresh: true
        }
    );
    assert_eq!(catalog_next(CatalogStep::Finished, &keys, "Todoist", CatalogEvent::Done), (CatalogStep::Finished, CatalogAction::Nothing));
}

#[test]
fn a_handshake_is_rooted_where_settings_says_or_at_the_root() {
    assert_eq!(handshake_cwd("  /home/me/work \n"), "/home/me/work");
    assert_eq!(handshake_cwd("work"), "/");
    assert_eq!(handshake_cwd(""), "/");
}

#[test]
fn the_handshake_root_is_the_configured_directory_or_slash() {
    for (configured, expected) in [
        ("/srv/goose", "/srv/goose"),
        ("  /srv/goose  ", "/srv/goose"),
        ("", "/"),
        ("   ", "/"),
        ("work/pilot", "/"),
        ("~/work", "/"),
    ] {
        assert_eq!(
            handshake_cwd(configured),
            expected,
            "a working directory of {configured:?} was rooted wrongly"
        );
    }
}

#[test]
fn a_working_directory_that_is_not_a_path_still_gets_a_handshake() {
    // a relative working directory is not sent as the session's cwd
    assert_eq!(handshake_cwd("work/pilot"), "/");
    // and the flow still reaches the handshake
    let keys = vec!["TODOIST_API_KEY".to_string()];
    let (step, _) = catalog_next(CatalogStep::Storing(0), &keys, "Todoist", CatalogEvent::Done);
    let (_, action) = catalog_next(step, &keys, "Todoist", CatalogEvent::Done);
    assert_eq!(action, CatalogAction::VerifyStarts);
}

const TOKEN_KEY: &str = "TODOIST_API_KEY";

/// Drive the add of Todoist through `events`, collecting every action.
fn drive(events: Vec<CatalogEvent>) -> Vec<CatalogAction> {
    let keys = vec![TOKEN_KEY.to_string()];
    let (mut step, first) = catalog_begin(keys.len());
    let mut actions = vec![first];
    for event in events {
        let (next, action) = catalog_next(step, &keys, "Todoist", event);
        step = next;
        actions.push(action);
    }
    actions
}

fn sticky(actions: &[CatalogAction]) -> Option<(String, bool)> {
    actions.iter().find_map(|a| match a {
        CatalogAction::Report { message, refresh } => Some((message.clone(), *refresh)),
        _ => None,
    })
}

#[test]
fn a_toggle_is_followed_by_a_re_list_rather_than_believed() {
    let busy = toggle_begun("todoist");
    assert_eq!(busy, Toggle { key: "todoist".to_string(), failed: false });
    let (toggle, toast) = toggle_settled("todoist", Ok(()));
    assert!(toggle.is_none(), "the row is still showing \"Switching…\" after the toggle landed");
    assert_eq!(toast, None);
}

#[test]
fn a_failed_toggle_marks_the_row_and_not_only_the_toast() {
    let (toggle, toast) =
        toggle_settled("todoist", Err("no extension has that config key".to_string()));
    let toggle = toggle.expect("the failed toggle was forgotten, so the row shows nothing");
    assert_eq!(toggle.key, "todoist");
    assert!(toggle.failed);
    let toast = toast.expect("a failed toggle said nothing at all");
    assert!(toast.contains("Could not change todoist"), "{toast}");
}

#[test]
fn an_add_stores_the_secret_first_and_never_goes_live_unverified() {
    assert_eq!(handshake_cwd("/srv/goose"), "/srv/goose");
    let actions = drive(vec![CatalogEvent::Done, CatalogEvent::Done, CatalogEvent::Done]);
    assert_eq!(
        actions,
        [
            CatalogAction::Store(0),
            CatalogAction::AddExtension,
            CatalogAction::VerifyStarts,
            CatalogAction::Connected { toast: "Todoist connected".to_string() },
        ],
        "the add did not happen in the order the failing-closed rules require"
    );
    assert_eq!(sticky(&actions), None, "a clean add still reported a failure");
}

#[test]
fn an_allowlist_that_did_not_stick_never_switches_the_extension_on() {
    for expected in ["NO tool allowlist", "different tool allowlist"] {
        let message = format!("todoist came back with a {expected} than was sent");
        let actions =
            drive(vec![CatalogEvent::Done, CatalogEvent::VerificationFailed(message)]);
        assert!(
            !actions.contains(&CatalogAction::VerifyStarts),
            "an unverified extension was started in a session anyway"
        );
        let (sticky, refresh) = sticky(&actions).expect("the allowlist failure was never reported");
        assert!(sticky.contains(expected), "{sticky}");
        assert!(sticky.contains("switched off on the server and was never started"), "{sticky}");
        assert!(refresh);
    }
}

#[test]
fn the_report_outlives_the_refresh_that_follows_it() {
    let actions = drive(vec![
        CatalogEvent::Done,
        CatalogEvent::VerificationFailed("a different tool allowlist".to_string()),
    ]);
    let (_, refresh) = sticky(&actions).expect("the failure was never reported");
    assert!(refresh, "the failure path skipped the re-list");
}

#[test]
fn an_extension_goose_refuses_is_reported_as_itself() {
    let actions = drive(vec![
        CatalogEvent::Done,
        CatalogEvent::Failed("unsupported extension shape".to_string()),
    ]);
    assert_eq!(actions[..2], [CatalogAction::Store(0), CatalogAction::AddExtension]);
    let (sticky, _) = sticky(&actions).expect("goose refused the extension and nothing said so");
    assert!(sticky.contains("Could not add Todoist"), "{sticky}");
    assert!(!sticky.contains("never started"), "{sticky}");
}

#[test]
fn a_credential_that_would_not_store_stops_the_add_before_it_starts() {
    let actions = drive(vec![CatalogEvent::Failed("secrets.yaml is not writable".to_string())]);
    assert!(!actions.contains(&CatalogAction::AddExtension));
    let (sticky, _) = sticky(&actions).expect("the store failure was never reported");
    assert!(sticky.contains("Could not store TODOIST_API_KEY"), "{sticky}");
}

#[test]
fn an_extension_that_will_not_start_is_reported_as_a_credential_problem() {
    let actions = drive(vec![
        CatalogEvent::Done,
        CatalogEvent::Done,
        CatalogEvent::Failed("401 Unauthorized from ai.todoist.net".to_string()),
    ]);
    let (sticky, _) = sticky(&actions).expect("a mistyped credential reported nothing");
    assert!(sticky.contains("would not start"), "{sticky}");
    assert!(sticky.contains("Re-enter it above"), "{sticky}");
    assert!(!actions.iter().any(|a| matches!(a, CatalogAction::Connected { .. })));
}
