use goose_mobile::catalog::{catalog, catalog_start, caldav_extension, mail_extension, McpServer};
use goose_mobile::extensions::{CatalogAction, CatalogStep};

/// Todoist is the entry the add tests use.
const TODOIST: usize = 0;

#[test]
fn no_catalogue_entry_can_call_everything() {
    for entry in catalog() {
        let extension = entry.build.build();
        assert!(
            !extension.available_tools.is_empty(),
            "{} has no tool allowlist, which means every tool",
            entry.id
        );
        assert!(!entry.secrets.is_empty(), "{} asks for nothing", entry.id);
    }
}

#[test]
fn the_add_tests_are_pointed_at_todoist() {
    assert_eq!(catalog()[TODOIST].id, "todoist");
}

#[test]
fn an_index_off_the_end_of_the_catalogue_sends_nothing() {
    assert!(catalog_start(catalog().len()).is_none());
}

#[test]
fn an_add_starts_by_storing_the_first_credential() {
    let add = catalog_start(TODOIST).expect("todoist is in the catalogue");
    assert_eq!(add.keys, ["TODOIST_API_KEY"]);
    assert_eq!(add.display_name, "Todoist");
    assert_eq!(add.step, CatalogStep::Storing(0));
    assert_eq!(add.action, CatalogAction::Store(0));
    match add.extension.server {
        McpServer::Http { name, url, headers } => {
            assert_eq!(name, "todoist");
            assert_eq!(url, "https://ai.todoist.net/mcp");
            assert_eq!(
                headers,
                [("Authorization".to_string(), "Bearer ${TODOIST_API_KEY}".to_string())]
            );
        }
        McpServer::Stdio { .. } => panic!("todoist is a remote server"),
    }
}

#[test]
fn the_calendar_asks_for_three_credentials_in_order() {
    let add = catalog_start(2).expect("caldav is in the catalogue");
    assert_eq!(add.keys, ["CALDAV_BASE_URL", "CALDAV_USERNAME", "CALDAV_PASSWORD"]);
    assert_eq!(add.extension, caldav_extension());
    assert_eq!(add.extension.env_keys, add.keys);
}

#[test]
fn the_mailbox_can_neither_send_nor_delete() {
    let mail = mail_extension();
    assert_eq!(mail.available_tools.len(), 6);
    assert!(mail
        .available_tools
        .iter()
        .all(|t| !t.contains("send") && !t.contains("delete")));
    match mail.server {
        McpServer::Stdio { command, args, .. } => {
            assert_eq!(command, "uvx");
            assert_eq!(args, ["mcp-email-server@1.4.2", "stdio"]);
        }
        McpServer::Http { .. } => panic!("mail runs locally"),
    }
}
