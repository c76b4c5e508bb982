//! The Extensions screens' words: what a row's state is called, what kind
//! of thing an extension is, how its allowlist and its name read on a row.
//!
//! Design rule: a row never shows a word from a schema. A transport is
//! described in words, a config key is made readable, and an empty
//! allowlist says that it means everything.

use vstd::prelude::*;

use crate::text::{chars_of, decimal, decimal_string, push_str, same_text, string_from};

verus! {

/// Extensions' own back stack.
#[derive(Clone, Copy, Debug, PartialEq, Eq, Structural)]
pub enum Screen {
    List,
    Detail,
}

pub open spec fn dump_key_spec(screen: Screen) -> Seq<char> {
    match screen {
        Screen::List => "extensions"@,
        Screen::Detail => "extensions-detail"@,
    }
}

/// The dump key for each screen: the list's is the destination id.
pub fn dump_key(screen: Screen) -> (s: &'static str)
    ensures
        s@ == dump_key_spec(screen),
{
    match screen {
        Screen::List => "extensions",
        Screen::Detail => "extensions-detail",
    }
}

/// What an extension row is showing.
#[derive(Clone, Copy, Debug, PartialEq, Eq, Structural)]
pub enum RowState {
    On,
    Off,
    /// A toggle is in flight: the dot goes busy and the server is asked
    /// again rather than guessed at.
    Busy,
    /// The last toggle for this row came back an error.
    Failed,
}

/// What the row is: a toggle in flight outranks one that failed, and both
/// outrank the server's own answer.
pub open spec fn row_state(enabled: bool, busy: bool, failed: bool) -> RowState {
    if busy {
        RowState::Busy
    } else if failed {
        RowState::Failed
    } else if enabled {
        RowState::On
    } else {
        RowState::Off
    }
}

pub open spec fn word_spec(state: RowState) -> Seq<char> {
    match state {
        RowState::On => "On"@,
        RowState::Off => "Off"@,
        RowState::Busy => "Switching…"@,
        RowState::Failed => "Failed"@,
    }
}

pub open spec fn dot_spec(state: RowState) -> Seq<char> {
    match state {
        RowState::On => "dot on"@,
        RowState::Off => "dot off"@,
        RowState::Busy => "dot busy"@,
        RowState::Failed => "dot err"@,
    }
}

impl RowState {
    /// What the row is, given the server's answer and what was last asked
    /// for.
    pub fn of(enabled: bool, busy: bool, failed: bool) -> (r: Self)
        ensures
            r == row_state(enabled, busy, failed),
    {
        if busy {
            RowState::Busy
        } else if failed {
            RowState::Failed
        } else if enabled {
            RowState::On
        } else {
            RowState::Off
        }
    }

    pub fn word(self) -> (s: &'static str)
        ensures
            s@ == word_spec(self),
    {
        match self {
            RowState::On => "On",
            RowState::Off => "Off",
            RowState::Busy => "Switching…",
            RowState::Failed => "Failed",
        }
    }

    /// The dot's class, one of the four the sheet defines.
    pub fn dot(self) -> (s: &'static str)
        ensures
            s@ == dot_spec(self),
    {
        match self {
            RowState::On => "dot on",
            RowState::Off => "dot off",
            RowState::Busy => "dot busy",
            RowState::Failed => "dot err",
        }
    }
}

/// What kind of thing an extension is, in words. `stdio` runs a local
/// command; `http` and goose's own `streamable_http` are a server somewhere
/// else; `builtin` and `platform` ship with goose; anything newer is an
/// extension.
pub open spec fn kind_copy_spec(transport: Seq<char>) -> Seq<char> {
    if transport == "stdio"@ {
        "Local command"@
    } else if transport == "http"@ || transport == "streamable_http"@ {
        "Remote"@
    } else if transport == "builtin"@ || transport == "platform"@ {
        "Built in"@
    } else {
        "Extension"@
    }
}

/// What kind of thing an extension is, in words rather than in goose's enum.
pub fn kind_copy(transport: &str) -> (s: &'static str)
    ensures
        s@ == kind_copy_spec(transport@),
{
    if same_text(transport, "stdio") {
        "Local command"
    } else if same_text(transport, "http") || same_text(transport, "streamable_http") {
        "Remote"
    } else if same_text(transport, "builtin") || same_text(transport, "platform") {
        "Built in"
    } else {
        "Extension"
    }
}

/// The row's second line: what state it is in, then what kind of thing it
/// is.
pub fn meta_line(state: RowState, transport: &str) -> (s: String)
    ensures
        s@ == word_spec(state) + " · "@ + kind_copy_spec(transport@),
{
    let mut s = String::new();
    push_str(&mut s, state.word());
    push_str(&mut s, " · ");
    push_str(&mut s, kind_copy(transport));
    s
}

/// `a`, `b` and `c` joined with `, `.
pub open spec fn comma_joined(ts: Seq<Seq<char>>) -> Seq<char>
    decreases ts.len(),
{
    if ts.len() == 0 {
        Seq::empty()
    } else if ts.len() == 1 {
        ts[0]
    } else {
        comma_joined(ts.drop_last()) + ", "@ + ts.last()
    }
}

/// A one-line description of what an extension may call: an empty
/// allowlist is not "nothing" — it is everything, and it says so; up to
/// three are listed; past that, two and a count.
pub open spec fn tool_summary_spec(tools: Seq<Seq<char>>) -> Seq<char> {
    if tools.len() == 0 {
        "every tool this server publishes"@
    } else if tools.len() <= 3 {
        comma_joined(tools)
    } else {
        comma_joined(tools.take(2)) + ", and "@ + decimal((tools.len() - 2) as nat) + " more"@
    }
}

pub open spec fn strings_view(v: Seq<String>) -> Seq<Seq<char>> {
    v.map_values(|s: String| s@)
}

fn join_commas(tools: &Vec<String>, count: usize) -> (s: String)
    requires
        count <= tools@.len(),
    ensures
        s@ == comma_joined(strings_view(tools@).take(count as int)),
{
    let ghost tv = strings_view(tools@);
    let mut s = String::new();
    let mut k: usize = 0;
    assert(tv.take(0) =~= Seq::<Seq<char>>::empty());
    while k < count
        invariant
            tv == strings_view(tools@),
            count <= tools@.len(),
            k <= count,
            s@ == comma_joined(tv.take(k as int)),
        decreases count - k,
    {
        assert(tv.take(k + 1).drop_last() =~= tv.take(k as int));
        if k > 0 {
            push_str(&mut s, ", ");
        } else {
            assert(tv.take(1) =~= seq![tv[0]]);
            assert(s@ + tools@[0]@ =~= tools@[0]@);
        }
        push_str(&mut s, tools[k].as_str());
        k += 1;
    }
    s
}

/// A one-line description of what an extension may call, for the list row,
/// given its tool allowlist.
pub fn tool_summary(tools: &Vec<String>) -> (s: String)
    ensures
        s@ == tool_summary_spec(strings_view(tools@)),
{
    let ghost tv = strings_view(tools@);
    let n = tools.len();
    if n == 0 {
        return "every tool this server publishes".to_owned();
    }
    if n <= 3 {
        let s = join_commas(tools, n);
        assert(tv.take(n as int) =~= tv);
        return s;
    }
    let mut s = join_commas(tools, 2);
    push_str(&mut s, ", and ");
    let count = decimal_string((n - 2) as u64);
    push_str(&mut s, count.as_str());
    push_str(&mut s, " more");
    s
}

/// `mail-imap` → `Mail imap`: separators become spaces and the first
/// letter, if it is an ASCII one, is capitalised. Nothing else is guessed
/// at.
pub open spec fn humanized(raw: Seq<char>) -> Seq<char> {
    let spaced = raw.map_values(|c: char| if c == '_' || c == '-' { ' ' } else { c });
    if spaced.len() > 0 && 'a' <= spaced[0] && spaced[0] <= 'z' {
        spaced.update(0, ((spaced[0] as u32) - 32) as char)
    } else {
        spaced
    }
}

/// A config key made readable.
pub fn humanize(raw: &str) -> (s: String)
    ensures
        s@ == humanized(raw@),
{
    let cs = chars_of(raw);
    let ghost spaced = raw@.map_values(|c: char| if c == '_' || c == '-' { ' ' } else { c });
    let mut out: Vec<char> = Vec::new();
    let mut k: usize = 0;
    while k < cs.len()
        invariant
            cs@ == raw@,
            k <= cs@.len(),
            spaced == raw@.map_values(|c: char| if c == '_' || c == '-' { ' ' } else { c }),
            out@ == spaced.take(k as int),
        decreases cs.len() - k,
    {
        let c = cs[k];
        let d = if c == '_' || c == '-' {
            ' '
        } else {
            c
        };
        out.push(d);
        assert(out@ =~= spaced.take(k + 1));
        k += 1;
    }
    assert(spaced.take(cs@.len() as int) =~= spaced);
    if out.len() > 0 && 'a' <= out[0] && out[0] <= 'z' {
        let up = ((out[0] as u8) - 32) as char;
        out.set(0, up);
    }
    string_from(&out)
}

/// The name to put on a row: goose's display name where it has one, and
/// otherwise the config name made readable.
pub fn title_for(display_name: Option<&str>, name: &str) -> (s: String)
    ensures
        s@ == match display_name {
            Some(d) => d@,
            None => humanized(name@),
        },
{
    match display_name {
        Some(d) => d.to_owned(),
        None => humanize(name),
    }
}

// ---- switching and adding ----------------------------------------------------

/// The toggle the reader last asked for: in flight, or the one that failed.
#[derive(Clone, Debug, PartialEq, Eq)]
pub struct Toggle {
    pub key: String,
    pub failed: bool,
}

/// The toggle a switch puts on screen while the server is asked: the row's
/// dot goes busy rather than flipping on a hope.
pub fn toggle_begun(config_key: &str) -> (t: Toggle)
    ensures
        t.key@ == config_key@,
        !t.failed,
{
    Toggle { key: config_key.to_owned(), failed: false }
}

/// What a switch leaves once the server has answered and the list has been
/// fetched again: nothing on success; on failure a row that keeps its
/// failed dot, and the toast that says why.
pub fn toggle_settled(config_key: &str, outcome: Result<(), String>) -> (r: (Option<Toggle>, Option<String>))
    ensures
        match outcome {
            Ok(()) => r.0 is None && r.1 is None,
            Err(e) => {
                &&& r.0 is Some
                &&& r.0->0.key@ == config_key@
                &&& r.0->0.failed
                &&& r.1 is Some
                &&& r.1->0@ == "Could not change "@ + config_key@ + ": "@ + e@
            },
        },
{
    match outcome {
        Ok(()) => (None, None),
        Err(e) => {
            let mut m = "Could not change ".to_owned();
            push_str(&mut m, config_key);
            push_str(&mut m, ": ");
            push_str(&mut m, e.as_str());
            (Some(Toggle { key: config_key.to_owned(), failed: true }), Some(m))
        },
    }
}

/// Where adding an extension from the catalogue has got to.
#[derive(Clone, Copy, Debug, PartialEq, Eq, Structural)]
pub enum CatalogStep {
    /// Storing the credential with this index.
    Storing(usize),
    /// Adding the extension, switched off until its allowlist reads back.
    Adding,
    /// Starting it once, which is what proves the credential.
    Starting,
    Finished,
}

/// How the last call came back.
#[derive(Clone, Debug, PartialEq, Eq)]
pub enum CatalogEvent {
    Done,
    Failed(String),
    /// The allowlist did not survive the round trip; the extension was
    /// never switched on.
    VerificationFailed(String),
}

/// What the screen does next.
#[derive(Clone, Debug, PartialEq, Eq)]
pub enum CatalogAction {
    /// Store the credential with this index.
    Store(usize),
    AddExtension,
    VerifyStarts,
    /// Stop, leave the failure on screen, and, when `refresh`, fetch the
    /// list first so the report is not wiped by the fetch.
    Report { message: String, refresh: bool },
    /// Fetch the list, close the sheet, and toast.
    Connected { toast: String },
    Nothing,
}

/// The first call: every credential is stored before the extension is
/// added, so nothing starts without them.
pub fn catalog_begin(secrets: usize) -> (r: (CatalogStep, CatalogAction))
    ensures
        r == if secrets > 0 {
            (CatalogStep::Storing(0), CatalogAction::Store(0))
        } else {
            (CatalogStep::Adding, CatalogAction::AddExtension)
        },
{
    if secrets > 0 {
        (CatalogStep::Storing(0), CatalogAction::Store(0))
    } else {
        (CatalogStep::Adding, CatalogAction::AddExtension)
    }
}

pub open spec fn event_text(e: CatalogEvent) -> Seq<char> {
    match e {
        CatalogEvent::Done => Seq::empty(),
        CatalogEvent::Failed(m) => m@,
        CatalogEvent::VerificationFailed(m) => m@,
    }
}

pub open spec fn report_of(a: CatalogAction) -> Option<(Seq<char>, bool)> {
    match a {
        CatalogAction::Report { message, refresh } => Some((message@, refresh)),
        _ => None,
    }
}

/// The catalogue flow after a call comes back: on through the credentials,
/// the add and the start, or stopped with the failure said by name.
pub open spec fn catalog_spec(
    step: CatalogStep,
    keys: Seq<Seq<char>>,
    display_name: Seq<char>,
    event: CatalogEvent,
) -> (CatalogStep, Option<(Seq<char>, bool)>, Option<Seq<char>>, CatalogAction) {
    let ok = event is Done;
    let e = event_text(event);
    match step {
        CatalogStep::Storing(i) => if ok {
            if i + 1 < keys.len() {
                (CatalogStep::Storing((i + 1) as usize), None, None, CatalogAction::Store((i + 1) as usize))
            } else {
                (CatalogStep::Adding, None, None, CatalogAction::AddExtension)
            }
        } else {
            (
                CatalogStep::Finished,
                Some(("Could not store "@ + keys[i as int] + ": "@ + e, false)),
                None,
                CatalogAction::Nothing,
            )
        },
        CatalogStep::Adding => if ok {
            (CatalogStep::Starting, None, None, CatalogAction::VerifyStarts)
        } else if event is VerificationFailed {
            (
                CatalogStep::Finished,
                Some((e + "\n\nIt is switched off on the server and was never started."@, true)),
                None,
                CatalogAction::Nothing,
            )
        } else {
            (
                CatalogStep::Finished,
                Some(("Could not add "@ + display_name + ": "@ + e, false)),
                None,
                CatalogAction::Nothing,
            )
        },
        CatalogStep::Starting => if ok {
            (CatalogStep::Finished, None, Some(display_name + " connected"@), CatalogAction::Nothing)
        } else {
            (
                CatalogStep::Finished,
                Some(
                    (
                        display_name + " is configured, but would not start: "@ + e
                            + "\n\nThe usual cause is a credential that was mistyped or has expired. Re-enter it above to overwrite it."@,
                        true,
                    ),
                ),
                None,
                CatalogAction::Nothing,
            )
        },
        CatalogStep::Finished => (CatalogStep::Finished, None, None, CatalogAction::Nothing),
    }
}

/// Take the outcome of the last call and say what comes next. `keys` are
/// the names of the credentials being stored, in order.
pub fn catalog_next(
    step: CatalogStep,
    keys: &Vec<String>,
    display_name: &str,
    event: CatalogEvent,
) -> (r: (CatalogStep, CatalogAction))
    requires
        step matches CatalogStep::Storing(i) ==> i < keys@.len(),
    ensures
        ({
            let s = catalog_spec(step, strings_view(keys@), display_name@, event);
            &&& r.0 == s.0
            &&& report_of(r.1) == s.1
            &&& (r.1 matches CatalogAction::Connected { toast } ==> s.2 == Some(toast@))
            &&& (s.2 is Some ==> r.1 is Connected)
            &&& (s.1 is None && s.2 is None ==> r.1 == s.3)
        }),
{
    let ok = match &event {
        CatalogEvent::Done => true,
        _ => false,
    };
    let verification = match &event {
        CatalogEvent::VerificationFailed(_) => true,
        _ => false,
    };
    let e = match &event {
        CatalogEvent::Done => String::new(),
        CatalogEvent::Failed(m) => m.clone(),
        CatalogEvent::VerificationFailed(m) => m.clone(),
    };
    match step {
        CatalogStep::Storing(i) => {
            if ok {
                assert(i < keys@.len());
                if i < keys.len() - 1 {
                    (CatalogStep::Storing(i + 1), CatalogAction::Store(i + 1))
                } else {
                    (CatalogStep::Adding, CatalogAction::AddExtension)
                }
            } else {
                let mut m = "Could not store ".to_owned();
                push_str(&mut m, keys[i].as_str());
                push_str(&mut m, ": ");
                push_str(&mut m, e.as_str());
                (CatalogStep::Finished, CatalogAction::Report { message: m, refresh: false })
            }
        },
        CatalogStep::Adding => {
            if ok {
                (CatalogStep::Starting, CatalogAction::VerifyStarts)
            } else if verification {
                let mut m = e;
                push_str(&mut m, "\n\nIt is switched off on the server and was never started.");
                (CatalogStep::Finished, CatalogAction::Report { message: m, refresh: true })
            } else {
                let mut m = "Could not add ".to_owned();
                push_str(&mut m, display_name);
                push_str(&mut m, ": ");
                push_str(&mut m, e.as_str());
                (CatalogStep::Finished, CatalogAction::Report { message: m, refresh: false })
            }
        },
        CatalogStep::Starting => {
            if ok {
                let mut t = display_name.to_owned();
                push_str(&mut t, " connected");
                (CatalogStep::Finished, CatalogAction::Connected { toast: t })
            } else {
                let mut m = display_name.to_owned();
                push_str(&mut m, " is configured, but would not start: ");
                push_str(&mut m, e.as_str());
                push_str(
                    &mut m,
                    "\n\nThe usual cause is a credential that was mistyped or has expired. Re-enter it above to overwrite it.",
                );
                (CatalogStep::Finished, CatalogAction::Report { message: m, refresh: true })
            }
        },
        CatalogStep::Finished => (CatalogStep::Finished, CatalogAction::Nothing),
    }
}

/// Where a throwaway handshake session is rooted: the configured working
/// directory when it is an absolute path, and `/` otherwise.
pub fn handshake_cwd(working_dir: &str) -> (s: String)
    ensures
        s@ == if crate::text::trim_ws(working_dir@).len() > 0 && crate::text::trim_ws(working_dir@)[0]
            == '/' {
            crate::text::trim_ws(working_dir@)
        } else {
            "/"@
        },
{
    let cs = chars_of(working_dir);
    let t = crate::text::trim_chars(&cs);
    if t.len() > 0 && t[0] == '/' {
        string_from(&t)
    } else {
        "/".to_owned()
    }
}

} // verus!
