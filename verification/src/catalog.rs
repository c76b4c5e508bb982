//! The extension catalogue: the services the phone can finish connecting on
//! its own, each with the one credential it needs and an explicit,
//! read-biased tool allowlist. None of the allowlists is empty, because an
//! empty allowlist means every tool.

use vstd::prelude::*;

use crate::code::pairs_view;
use crate::extensions::{catalog_begin, strings_view, CatalogAction, CatalogStep};

verus! {

/// One credential a catalogue entry needs, named but never valued. `key`
/// is the environment variable the MCP server itself reads.
#[derive(Clone, Copy, Debug, PartialEq, Eq)]
pub struct CatalogSecret {
    pub key: &'static str,
    pub prompt: &'static str,
}

/// Which payload an entry builds.
#[derive(Clone, Copy, Debug, PartialEq, Eq, Structural)]
pub enum Builder {
    Todoist,
    Mail,
    Caldav,
}

/// A service the phone can connect by itself.
#[derive(Clone, Debug, PartialEq, Eq)]
pub struct CatalogEntry {
    pub id: &'static str,
    pub display_name: &'static str,
    pub summary: &'static str,
    pub secrets: Vec<CatalogSecret>,
    /// The privacy tier, shown because what a connector reads is a decision.
    pub tier: u8,
    /// What the allowlist does and does not permit, in a sentence.
    pub scope: &'static str,
    pub build: Builder,
}

/// How goose reaches an MCP server.
#[derive(Clone, Debug, PartialEq, Eq)]
pub enum McpServer {
    /// A remote server; header values may name a secret as `${VAR}`.
    Http { name: String, url: String, headers: Vec<(String, String)> },
    /// A local process.
    Stdio { name: String, command: String, args: Vec<String> },
}

/// The payload an add sends: the server, the secrets it reads, and the
/// tools it may call.
#[derive(Clone, Debug, PartialEq, Eq)]
pub struct CatalogExtension {
    pub server: McpServer,
    pub env_keys: Vec<String>,
    pub description: String,
    pub available_tools: Vec<String>,
}

pub enum ServerView {
    Http { name: Seq<char>, url: Seq<char>, headers: Seq<(Seq<char>, Seq<char>)> },
    Stdio { name: Seq<char>, command: Seq<char>, args: Seq<Seq<char>> },
}

pub struct ExtensionView {
    pub server: ServerView,
    pub env_keys: Seq<Seq<char>>,
    pub description: Seq<char>,
    pub tools: Seq<Seq<char>>,
}

impl View for CatalogExtension {
    type V = ExtensionView;

    open spec fn view(&self) -> ExtensionView {
        ExtensionView {
            server: match self.server {
                McpServer::Http { name, url, headers } => ServerView::Http {
                    name: name@,
                    url: url@,
                    headers: pairs_view(headers@),
                },
                McpServer::Stdio { name, command, args } => ServerView::Stdio {
                    name: name@,
                    command: command@,
                    args: strings_view(args@),
                },
            },
            env_keys: strings_view(self.env_keys@),
            description: self.description@,
            tools: strings_view(self.available_tools@),
        }
    }
}

pub struct SecretView {
    pub key: Seq<char>,
    pub prompt: Seq<char>,
}

pub struct EntryView {
    pub id: Seq<char>,
    pub display_name: Seq<char>,
    pub summary: Seq<char>,
    pub secrets: Seq<SecretView>,
    pub tier: u8,
    pub scope: Seq<char>,
    pub build: Builder,
}

impl View for CatalogSecret {
    type V = SecretView;

    open spec fn view(&self) -> SecretView {
        SecretView { key: self.key@, prompt: self.prompt@ }
    }
}

impl View for CatalogEntry {
    type V = EntryView;

    open spec fn view(&self) -> EntryView {
        EntryView {
            id: self.id@,
            display_name: self.display_name@,
            summary: self.summary@,
            secrets: self.secrets@.map_values(|s: CatalogSecret| s@),
            tier: self.tier,
            scope: self.scope@,
            build: self.build,
        }
    }
}

pub open spec fn entries_view(v: Seq<CatalogEntry>) -> Seq<EntryView> {
    v.map_values(|e: CatalogEntry| e@)
}

pub open spec fn secret(key: Seq<char>, prompt: Seq<char>) -> SecretView {
    SecretView { key, prompt }
}

/// The catalogue, in the order the screen lists it.
pub open spec fn catalog_spec() -> Seq<EntryView> {
    seq![
        EntryView {
            id: "todoist"@,
            display_name: "Todoist"@,
            summary: "Tasks and projects through Doist's own remote MCP server."@,
            secrets: seq![
                secret(
                    "TODOIST_API_KEY"@,
                    "API token from Todoist → Settings → Integrations → Developer"@,
                ),
            ],
            tier: 2,
            scope: "Reads tasks and projects, and can add, update, complete and reschedule them. There is no delete tool to withhold."@,
            build: Builder::Todoist,
        },
        EntryView {
            id: "mail-imap"@,
            display_name: "Mail (IMAP)"@,
            summary: "Any IMAP mailbox, using a provider app password."@,
            secrets: seq![
                secret(
                    "MCP_EMAIL_SERVER_PASSWORD"@,
                    "App password from your mail provider (not your login password)"@,
                ),
            ],
            tier: 2,
            scope: "Lists and reads mail, marks messages read and saves drafts. It cannot send and it cannot delete: no such tool is allowed."@,
            build: Builder::Mail,
        },
        EntryView {
            id: "cal-caldav"@,
            display_name: "Calendar (CalDAV)"@,
            summary: "Read-only calendar and tasks over CalDAV."@,
            secrets: seq![
                secret("CALDAV_BASE_URL"@, "CalDAV URL, e.g. https://caldav.example.com/dav/"@),
                secret("CALDAV_USERNAME"@, "CalDAV username"@),
                secret("CALDAV_PASSWORD"@, "App password for CalDAV"@),
            ],
            tier: 2,
            scope: "Read-only: lists calendars, events and todos. No create or update tool is allowed."@,
            build: Builder::Caldav,
        },
    ]
}

/// Doist's first-party remote MCP. The token rides in an `Authorization`
/// header as `${TODOIST_API_KEY}`, which goose expands from its secret store
/// when the extension starts, so the value never crosses the wire.
pub open spec fn todoist_spec() -> ExtensionView {
    ExtensionView {
        server: ServerView::Http {
            name: "todoist"@,
            url: "https://ai.todoist.net/mcp"@,
            headers: seq![("Authorization"@, "Bearer ${TODOIST_API_KEY}"@)],
        },
        env_keys: seq!["TODOIST_API_KEY"@],
        description: "Todoist tasks via Doist's first-party remote MCP"@,
        tools: seq![
            "get-overview"@,
            "find-tasks"@,
            "find-tasks-by-date"@,
            "find-projects"@,
            "add-tasks"@,
            "update-tasks"@,
            "complete-tasks"@,
            "reschedule-tasks"@,
        ],
    }
}

/// Read-biased, not read-only: flags and drafts change, nothing is sent or
/// deleted.
pub open spec fn mail_spec() -> ExtensionView {
    ExtensionView {
        server: ServerView::Stdio {
            name: "mail-imap"@,
            command: "uvx"@,
            args: seq!["mcp-email-server@1.4.2"@, "stdio"@],
        },
        env_keys: seq!["MCP_EMAIL_SERVER_PASSWORD"@],
        description: "IMAP/SMTP mail via a provider app password"@,
        tools: seq![
            "list_available_accounts"@,
            "list_mailboxes"@,
            "list_emails_metadata"@,
            "get_emails_content"@,
            "mark_emails_as_read"@,
            "save_to_mailbox"@,
        ],
    }
}

/// Read-only: no tool that creates or updates an event.
pub open spec fn caldav_spec() -> ExtensionView {
    ExtensionView {
        server: ServerView::Stdio {
            name: "cal-caldav"@,
            command: "npx"@,
            args: seq!["--yes"@, "caldav-mcp@0.10.0"@],
        },
        env_keys: seq!["CALDAV_BASE_URL"@, "CALDAV_USERNAME"@, "CALDAV_PASSWORD"@],
        description: "CalDAV calendar and tasks via a provider app password"@,
        tools: seq!["list-calendars"@, "list-events"@, "list-todos"@],
    }
}

pub open spec fn build_spec(b: Builder) -> ExtensionView {
    match b {
        Builder::Todoist => todoist_spec(),
        Builder::Mail => mail_spec(),
        Builder::Caldav => caldav_spec(),
    }
}

fn strings(items: &[&str]) -> (v: Vec<String>)
    ensures
        strings_view(v@) == items@.map_values(|s: &str| s@),
{
    let mut v: Vec<String> = Vec::new();
    let mut k: usize = 0;
    while k < items.len()
        invariant
            k <= items@.len(),
            strings_view(v@) == items@.take(k as int).map_values(|s: &str| s@),
        decreases items.len() - k,
    {
        let ghost before = strings_view(v@);
        let item: &str = items[k];
        v.push(item.to_owned());
        assert(strings_view(v@) =~= before.push(item@));
        assert(items@.take(k + 1) =~= items@.take(k as int).push(item));
        assert(strings_view(v@) =~= items@.take(k + 1).map_values(|s: &str| s@));
        k += 1;
    }
    assert(items@.take(items@.len() as int) =~= items@);
    v
}

/// The Todoist payload.
pub fn todoist_extension() -> (e: CatalogExtension)
    ensures
        e@ == todoist_spec(),
{
    let headers = vec![("Authorization".to_owned(), "Bearer ${TODOIST_API_KEY}".to_owned())];
    let tools = strings(
        &[
            "get-overview",
            "find-tasks",
            "find-tasks-by-date",
            "find-projects",
            "add-tasks",
            "update-tasks",
            "complete-tasks",
            "reschedule-tasks",
        ],
    );
    let e = CatalogExtension {
        server: McpServer::Http {
            name: "todoist".to_owned(),
            url: "https://ai.todoist.net/mcp".to_owned(),
            headers,
        },
        env_keys: vec!["TODOIST_API_KEY".to_owned()],
        description: "Todoist tasks via Doist's first-party remote MCP".to_owned(),
        available_tools: tools,
    };
    assert(headers@.len() == 1);
    assert(pairs_view(headers@) =~= seq![("Authorization"@, "Bearer ${TODOIST_API_KEY}"@)]);
    assert(e@.server == todoist_spec().server);
    assert(e@.env_keys =~= todoist_spec().env_keys);
    assert(e@.tools =~= todoist_spec().tools);
    e
}

/// The IMAP payload.
pub fn mail_extension() -> (e: CatalogExtension)
    ensures
        e@ == mail_spec(),
{
    let tools = strings(
        &[
            "list_available_accounts",
            "list_mailboxes",
            "list_emails_metadata",
            "get_emails_content",
            "mark_emails_as_read",
            "save_to_mailbox",
        ],
    );
    let args = strings(&["mcp-email-server@1.4.2", "stdio"]);
    assert(strings_view(args@) =~= seq!["mcp-email-server@1.4.2"@, "stdio"@]);
    let e = CatalogExtension {
        server: McpServer::Stdio { name: "mail-imap".to_owned(), command: "uvx".to_owned(), args },
        env_keys: vec!["MCP_EMAIL_SERVER_PASSWORD".to_owned()],
        description: "IMAP/SMTP mail via a provider app password".to_owned(),
        available_tools: tools,
    };
    assert(e@.server == mail_spec().server);
    assert(e@.env_keys =~= mail_spec().env_keys);
    assert(e@.tools =~= mail_spec().tools);
    e
}

/// The CalDAV payload.
pub fn caldav_extension() -> (e: CatalogExtension)
    ensures
        e@ == caldav_spec(),
{
    let args = strings(&["--yes", "caldav-mcp@0.10.0"]);
    assert(strings_view(args@) =~= seq!["--yes"@, "caldav-mcp@0.10.0"@]);
    let e = CatalogExtension {
        server: McpServer::Stdio { name: "cal-caldav".to_owned(), command: "npx".to_owned(), args },
        env_keys: strings(&["CALDAV_BASE_URL", "CALDAV_USERNAME", "CALDAV_PASSWORD"]),
        description: "CalDAV calendar and tasks via a provider app password".to_owned(),
        available_tools: strings(&["list-calendars", "list-events", "list-todos"]),
    };
    assert(e@.server == caldav_spec().server);
    assert(e@.env_keys =~= caldav_spec().env_keys);
    assert(e@.tools =~= caldav_spec().tools);
    e
}

impl Builder {
    /// Build the payload this entry adds.
    pub fn build(self) -> (e: CatalogExtension)
        ensures
            e@ == build_spec(self),
    {
        match self {
            Builder::Todoist => todoist_extension(),
            Builder::Mail => mail_extension(),
            Builder::Caldav => caldav_extension(),
        }
    }
}

pub open spec fn secret_keys(secrets: Seq<SecretView>) -> Seq<Seq<char>> {
    secrets.map_values(|s: SecretView| s.key)
}

pub open spec fn server_name(server: ServerView) -> Seq<char> {
    match server {
        ServerView::Http { name, .. } => name,
        ServerView::Stdio { name, .. } => name,
    }
}

/// The catalogue, in the order the screen lists it.
pub fn catalog() -> (c: Vec<CatalogEntry>)
    ensures
        entries_view(c@) == catalog_spec(),
{
    let todoist = vec![
        CatalogSecret {
            key: "TODOIST_API_KEY",
            prompt: "API token from Todoist → Settings → Integrations → Developer",
        },
    ];
    let mail = vec![
        CatalogSecret {
            key: "MCP_EMAIL_SERVER_PASSWORD",
            prompt: "App password from your mail provider (not your login password)",
        },
    ];
    let caldav = vec![
        CatalogSecret {
            key: "CALDAV_BASE_URL",
            prompt: "CalDAV URL, e.g. https://caldav.example.com/dav/",
        },
        CatalogSecret { key: "CALDAV_USERNAME", prompt: "CalDAV username" },
        CatalogSecret { key: "CALDAV_PASSWORD", prompt: "App password for CalDAV" },
    ];
    let c = vec![
        CatalogEntry {
            id: "todoist",
            display_name: "Todoist",
            summary: "Tasks and projects through Doist's own remote MCP server.",
            secrets: todoist,
            tier: 2,
            scope: "Reads tasks and projects, and can add, update, complete and reschedule them. There is no delete tool to withhold.",
            build: Builder::Todoist,
        },
        CatalogEntry {
            id: "mail-imap",
            display_name: "Mail (IMAP)",
            summary: "Any IMAP mailbox, using a provider app password.",
            secrets: mail,
            tier: 2,
            scope: "Lists and reads mail, marks messages read and saves drafts. It cannot send and it cannot delete: no such tool is allowed.",
            build: Builder::Mail,
        },
        CatalogEntry {
            id: "cal-caldav",
            display_name: "Calendar (CalDAV)",
            summary: "Read-only calendar and tasks over CalDAV.",
            secrets: caldav,
            tier: 2,
            scope: "Read-only: lists calendars, events and todos. No create or update tool is allowed.",
            build: Builder::Caldav,
        },
    ];
    assert(c@[0]@.secrets =~= catalog_spec()[0].secrets);
    assert(c@[1]@.secrets =~= catalog_spec()[1].secrets);
    assert(c@[2]@.secrets =~= catalog_spec()[2].secrets);
    assert(entries_view(c@) =~= catalog_spec());
    c
}

/// What adding the entry at an index starts from: its payload, the names
/// of the credentials to store first, its name, and the first step.
pub struct CatalogAdd {
    pub extension: CatalogExtension,
    pub keys: Vec<String>,
    pub display_name: String,
    pub step: CatalogStep,
    pub action: CatalogAction,
}

/// Start adding the catalogue entry at `index`; an index the catalogue does
/// not have starts nothing.
pub fn catalog_start(index: usize) -> (r: Option<CatalogAdd>)
    ensures
        match r {
            None => index >= catalog_spec().len(),
            Some(a) => {
                let e = catalog_spec()[index as int];
                &&& index < catalog_spec().len()
                &&& a.extension@ == build_spec(e.build)
                &&& strings_view(a.keys@) == secret_keys(e.secrets)
                &&& a.display_name@ == e.display_name
                &&& (a.step, a.action) == if e.secrets.len() > 0 {
                    (CatalogStep::Storing(0), CatalogAction::Store(0))
                } else {
                    (CatalogStep::Adding, CatalogAction::AddExtension)
                }
            },
        },
{
    let c = catalog();
    if index >= c.len() {
        return None;
    }
    let entry = &c[index];
    let ghost ev = catalog_spec()[index as int];
    assert(entry@ == ev);
    let mut keys: Vec<String> = Vec::new();
    let mut k: usize = 0;
    while k < entry.secrets.len()
        invariant
            entry@ == ev,
            k <= ev.secrets.len(),
            strings_view(keys@) == secret_keys(ev.secrets).take(k as int),
        decreases entry.secrets.len() - k,
    {
        let key: &str = entry.secrets[k].key;
        let ghost before = strings_view(keys@);
        keys.push(key.to_owned());
        assert(ev.secrets[k as int].key == key@);
        assert(strings_view(keys@) =~= before.push(key@));
        assert(secret_keys(ev.secrets).take(k + 1) =~= secret_keys(ev.secrets).take(k as int).push(
            key@,
        ));
        k += 1;
    }
    assert(secret_keys(ev.secrets).take(ev.secrets.len() as int) =~= secret_keys(ev.secrets));
    let (step, action) = catalog_begin(entry.secrets.len());
    Some(
        CatalogAdd {
            extension: entry.build.build(),
            keys,
            display_name: entry.display_name.to_owned(),
            step,
            action,
        },
    )
}

/// No catalogue entry can call everything: each allowlist names at least
/// one tool, and each entry asks for at least one credential.
pub proof fn law_no_catalogue_entry_can_call_everything()
    ensures
        forall|i: int|
            0 <= i < catalog_spec().len() ==> build_spec((#[trigger] catalog_spec()[i]).build).tools.len()
                > 0 && catalog_spec()[i].secrets.len() > 0,
{
}

/// The credentials an entry stores are exactly the ones its server reads,
/// and the server is configured under the entry's own id.
pub proof fn law_an_entry_stores_what_its_server_reads()
    ensures
        forall|i: int|
            0 <= i < catalog_spec().len() ==> secret_keys((#[trigger] catalog_spec()[i]).secrets)
                == build_spec(catalog_spec()[i].build).env_keys && server_name(
                build_spec(catalog_spec()[i].build).server,
            ) == catalog_spec()[i].id,
{
    assert(secret_keys(catalog_spec()[0].secrets) =~= todoist_spec().env_keys);
    assert(secret_keys(catalog_spec()[1].secrets) =~= mail_spec().env_keys);
    assert(secret_keys(catalog_spec()[2].secrets) =~= caldav_spec().env_keys);
}

} // verus!
