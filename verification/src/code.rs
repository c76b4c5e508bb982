//! The Code plane's decisions: what a pull request's row says, when the
//! build sweep may run, whether a poll loop carries on, which models a repo
//! may be offered, and how the manager's snapshot of pending asks is folded
//! into the queue the list and the modal read.

use vstd::prelude::*;

use crate::keyed::{find_key, first_value, keyed_view, lemma_first_index_is_first, lemma_first_push, lemma_first_update};
use crate::text::{chars_of, decimal, decimal_string, push_str, same_text};

verus! {

// ---- pull requests -------------------------------------------------------

/// Where a pull request stands.
#[derive(Clone, Copy, Debug, PartialEq, Eq, Structural)]
pub enum PullState {
    Open,
    Closed,
    Merged,
    /// A state this client has not heard of.
    Unknown,
}

/// The head commit's checks.
#[derive(Clone, Copy, Debug, PartialEq, Eq, Structural)]
pub enum Checks {
    Passing,
    Failing,
    Pending,
    /// Nothing runs checks on this repo.
    Absent,
    /// The manager's credential cannot read check runs.
    Unknown,
}

/// What a row reads of a pull request.
#[derive(Clone, Copy, Debug, PartialEq, Eq, Structural)]
pub struct PullRequest {
    pub number: u64,
    pub state: PullState,
    pub draft: bool,
    /// GitHub's answer, or `None` while it has not computed one.
    pub mergeable: Option<bool>,
    pub checks: Checks,
}

pub open spec fn pull_state_spec(pull: PullRequest) -> (Seq<char>, Seq<char>) {
    match pull.state {
        PullState::Merged => ("dot on"@, "merged"@),
        PullState::Closed => ("dot off"@, "closed"@),
        PullState::Open => if pull.draft {
            ("dot off"@, "draft"@)
        } else {
            ("dot on"@, "open"@)
        },
        PullState::Unknown => ("dot err"@, "state unknown"@),
    }
}

/// Dot class and word for where a pull request stands. Draft is a flag on
/// an open pull request, and the more useful of the two facts.
pub fn pull_state_label(pull: &PullRequest) -> (r: (&'static str, &'static str))
    ensures
        (r.0@, r.1@) == pull_state_spec(*pull),
{
    match pull.state {
        PullState::Merged => ("dot on", "merged"),
        PullState::Closed => ("dot off", "closed"),
        PullState::Open => if pull.draft {
            ("dot off", "draft")
        } else {
            ("dot on", "open")
        },
        PullState::Unknown => ("dot err", "state unknown"),
    }
}

pub open spec fn checks_spec(checks: Checks) -> (Seq<char>, Seq<char>) {
    match checks {
        Checks::Passing => ("dot on"@, "checks passing"@),
        Checks::Failing => ("dot err"@, "checks failing"@),
        Checks::Pending => ("dot busy"@, "checks running"@),
        Checks::Absent => ("dot off"@, "no checks"@),
        Checks::Unknown => ("dot off"@, "checks unknown"@),
    }
}

/// Dot class and words for the head commit's checks. "No checks" and "the
/// checks could not be read" are different facts.
pub fn checks_label(checks: Checks) -> (r: (&'static str, &'static str))
    ensures
        (r.0@, r.1@) == checks_spec(checks),
{
    match checks {
        Checks::Passing => ("dot on", "checks passing"),
        Checks::Failing => ("dot err", "checks failing"),
        Checks::Pending => ("dot busy", "checks running"),
        Checks::Absent => ("dot off", "no checks"),
        Checks::Unknown => ("dot off", "checks unknown"),
    }
}

pub open spec fn mergeability_spec(pull: PullRequest) -> Option<(Seq<char>, Seq<char>)> {
    if !(pull.state is Open) || pull.draft || pull.checks is Failing {
        None
    } else {
        match pull.mergeable {
            Some(true) => None,
            Some(false) => Some(("dot err"@, "conflicts"@)),
            None => Some(("dot busy"@, "mergeability pending"@)),
        }
    }
}

/// Dot class and word for a mergeability the row is not otherwise saying:
/// a conflict, or an answer GitHub has not computed yet. Silent where
/// merging is offered, where the pull request is not open, and where the
/// draft or checks chip already carries the reason.
pub fn mergeability_label(pull: &PullRequest) -> (r: Option<(&'static str, &'static str)>)
    ensures
        match (r, mergeability_spec(*pull)) {
            (Some(x), Some(y)) => x.0@ == y.0 && x.1@ == y.1,
            (None, None) => true,
            _ => false,
        },
{
    let open = match pull.state {
        PullState::Open => true,
        _ => false,
    };
    let failing = match pull.checks {
        Checks::Failing => true,
        _ => false,
    };
    if !open || pull.draft || failing {
        return None;
    }
    match pull.mergeable {
        Some(true) => None,
        Some(false) => Some(("dot err", "conflicts")),
        None => Some(("dot busy", "mergeability pending")),
    }
}

pub open spec fn row_pull_spec(pull: PullRequest) -> Seq<char> {
    if pull.state is Unknown {
        "#"@ + decimal(pull.number as nat)
    } else {
        "#"@ + decimal(pull.number as nat) + " "@ + pull_state_spec(pull).1
    }
}

/// What a list row says about the newest pull request off its branch: the
/// number, then where it stands — the word dropped for a state this client
/// has not heard of, because the number is still true.
pub fn row_pull_word(pull: &PullRequest) -> (s: String)
    ensures
        s@ == row_pull_spec(*pull),
{
    let mut s = String::new();
    push_str(&mut s, "#");
    let number = decimal_string(pull.number);
    push_str(&mut s, number.as_str());
    match pull.state {
        PullState::Unknown => {},
        _ => {
            let (_, word) = pull_state_label(pull);
            push_str(&mut s, " ");
            push_str(&mut s, word);
        },
    }
    s
}

pub open spec fn row_checks_spec(pull: PullRequest) -> Option<(Seq<char>, Seq<char>)> {
    if !(pull.state is Open) {
        None
    } else {
        match pull.checks {
            Checks::Passing | Checks::Failing | Checks::Pending => Some(checks_spec(pull.checks)),
            _ => None,
        }
    }
}

/// Dot and word for the build behind a row, or `None` when there is no
/// build this row can usefully report: a repo that runs no checks, a
/// credential that cannot read them, or a pull request that is not open.
pub fn row_checks_label(pull: &PullRequest) -> (r: Option<(&'static str, &'static str)>)
    ensures
        match (r, row_checks_spec(*pull)) {
            (Some(x), Some(y)) => x.0@ == y.0 && x.1@ == y.1,
            (None, None) => true,
            _ => false,
        },
{
    match pull.state {
        PullState::Open => {},
        _ => {
            return None;
        },
    }
    match pull.checks {
        Checks::Passing | Checks::Failing | Checks::Pending => Some(checks_label(pull.checks)),
        _ => None,
    }
}

// ---- the sweep and the poll ---------------------------------------------

/// How long a build sweep waits after the last one, in seconds.
pub const SWEEP_FLOOR_SECS: u64 = 300;

/// Whether a sweep is allowed to start, given when the last one did. Never
/// swept (`0`) is always due; a clock that stepped backwards makes nothing
/// due.
pub fn sweep_due(swept: u64, now: u64) -> (b: bool)
    ensures
        b == (swept == 0 || (now >= swept && now - swept >= SWEEP_FLOOR_SECS)),
{
    swept == 0 || now.saturating_sub(swept) >= SWEEP_FLOOR_SECS
}

/// What one tick of the Code plane's poll loop does.
#[derive(Clone, Copy, Debug, PartialEq, Eq, Structural)]
pub enum Tick {
    /// Ask the manager for the list and the pending asks.
    Fetch,
    /// Nothing to do this tick.
    Idle,
    /// A newer loop has started: this one ends.
    Retire,
}

pub open spec fn poll_tick_spec(mine: u64, current: u64, on_code_tab: bool, connected: bool) -> Tick {
    if current != mine {
        Tick::Retire
    } else if !on_code_tab || !connected {
        Tick::Idle
    } else {
        Tick::Fetch
    }
}

/// A poll loop retires for a newer poll loop, and for nothing else: another
/// tab is a pause, and so is having no connection to ask with.
pub fn poll_tick(mine: u64, current: u64, on_code_tab: bool, connected: bool) -> (t: Tick)
    ensures
        t == poll_tick_spec(mine, current, on_code_tab, connected),
{
    if current != mine {
        Tick::Retire
    } else if !on_code_tab || !connected {
        Tick::Idle
    } else {
        Tick::Fetch
    }
}

// ---- models ------------------------------------------------------------

/// The last `/`-separated segment of a model reference.
pub open spec fn last_segment(s: Seq<char>) -> Seq<char>
    decreases s.len(),
{
    if s.len() == 0 {
        s
    } else if s.last() == '/' {
        Seq::empty()
    } else {
        last_segment(s.drop_last()).push(s.last())
    }
}

/// Whether `w` occurs in `s`.
pub open spec fn occurs(s: Seq<char>, w: Seq<char>) -> bool {
    exists|i: int| crate::text::holds_at(s, i, w)
}

/// Whether a model is one of the free ones that train on their input: by
/// name, or by the word "free" anywhere in its bare name, in any ASCII case.
pub open spec fn free_model(reference: Seq<char>) -> bool {
    let bare = crate::external::lowered(last_segment(reference));
    bare == "big-pickle"@ || bare == "muse-spark-contributor"@ || occurs(bare, "free"@)
}

/// Whether a model trains on its input, so that the picker must not offer
/// it for a repo that is not a public throwaway.
pub fn is_free_model(reference: &str) -> (b: bool)
    ensures
        b == free_model(reference@),
{
    let cs = chars_of(reference);
    let n = cs.len();
    let mut start = n;
    assert(reference@.take(n as int) =~= reference@);
    assert(reference@.subrange(n as int, n as int) =~= Seq::<char>::empty());
    assert(last_segment(reference@) + Seq::<char>::empty() =~= last_segment(reference@));
    while start > 0 && cs[start - 1] != '/'
        invariant
            cs@ == reference@,
            n == cs@.len(),
            start <= n,
            last_segment(reference@) == last_segment(reference@.take(start as int)) + reference@.subrange(
                start as int,
                n as int,
            ),
        decreases start,
    {
        assert(reference@.take(start as int).drop_last() =~= reference@.take(start - 1));
        assert(reference@.subrange(start - 1, n as int) =~= seq![reference@[start - 1]]
            + reference@.subrange(start as int, n as int));
        assert(last_segment(reference@.take(start - 1)) + reference@.subrange(start - 1, n as int)
            =~= last_segment(reference@.take(start - 1)).push(reference@[start - 1])
            + reference@.subrange(start as int, n as int));
        start -= 1;
    }
    proof {
        if start > 0 {
            assert(last_segment(reference@.take(start as int)) =~= Seq::<char>::empty());
        } else {
            assert(reference@.take(0) =~= Seq::<char>::empty());
        }
        assert(Seq::<char>::empty() + reference@.subrange(start as int, n as int)
            =~= reference@.subrange(start as int, n as int));
    }
    let mut bare: Vec<char> = Vec::new();
    let mut k = start;
    while k < n
        invariant
            cs@ == reference@,
            n == cs@.len(),
            start <= k <= n,
            bare@ == crate::external::lowered(reference@.subrange(start as int, k as int)),
        decreases n - k,
    {
        bare.push(crate::text::to_ascii_lower(cs[k]));
        assert(bare@ =~= crate::external::lowered(reference@.subrange(start as int, k + 1)));
        k += 1;
    }
    assert(reference@.subrange(start as int, n as int) == last_segment(reference@));
    let named = crate::text::string_from(&bare);
    if same_text(named.as_str(), "big-pickle") || same_text(named.as_str(), "muse-spark-contributor") {
        return true;
    }
    let free = chars_of("free");
    proof {
        reveal_strlit("free");
    }
    let mut i: usize = 0;
    while i < bare.len()
        invariant
            free@ == "free"@,
            bare@ == crate::external::lowered(last_segment(reference@)),
            i <= bare@.len(),
            forall|q: int| 0 <= q < i ==> !crate::text::holds_at(bare@, q, free@),
        decreases bare.len() - i,
    {
        if crate::text::starts_at(&bare, i, &free) {
            assert(crate::text::holds_at(bare@, i as int, "free"@));
            return true;
        }
        i += 1;
    }
    proof {
        assert forall|q: int| !crate::text::holds_at(bare@, q, free@) by {
            if 0 <= q < bare@.len() {
            } else if q >= bare@.len() {
                reveal_strlit("free");
            }
        }
    }
    false
}

// ---- a chat's row --------------------------------------------------------

pub open spec fn status_spec(status: Seq<char>, running_turn: bool, waiting: bool) -> (
    Seq<char>,
    Seq<char>,
) {
    if waiting {
        ("dot wait"@, "waiting on you"@)
    } else if status == "running"@ {
        if running_turn {
            ("dot busy"@, "working"@)
        } else {
            ("dot on"@, "idle"@)
        }
    } else if status == "stopped"@ || status == "absent"@ {
        ("dot off"@, "asleep"@)
    } else {
        ("dot err"@, status)
    }
}

/// Dot class and word for a chat's container. An outstanding ask outranks
/// every container status: it is both the more specific fact and the more
/// recent one.
pub fn status_label(status: &str, running_turn: bool, waiting: bool) -> (r: (&'static str, String))
    ensures
        (r.0@, r.1@) == status_spec(status@, running_turn, waiting),
{
    if waiting {
        return ("dot wait", "waiting on you".to_owned());
    }
    if same_text(status, "running") {
        if running_turn {
            ("dot busy", "working".to_owned())
        } else {
            ("dot on", "idle".to_owned())
        }
    } else if same_text(status, "stopped") || same_text(status, "absent") {
        ("dot off", "asleep".to_owned())
    } else {
        ("dot err", status.to_owned())
    }
}

// ---- pending asks --------------------------------------------------------

/// One permission a Code chat is waiting on.
#[derive(Clone, Debug, PartialEq, Eq)]
pub struct Permission {
    pub id: String,
    pub session_id: String,
    pub title: String,
    pub kind: String,
}

pub struct PermissionView {
    pub id: Seq<char>,
    pub session_id: Seq<char>,
    pub title: Seq<char>,
    pub kind: Seq<char>,
}

impl View for Permission {
    type V = PermissionView;

    open spec fn view(&self) -> PermissionView {
        PermissionView {
            id: self.id@,
            session_id: self.session_id@,
            title: self.title@,
            kind: self.kind@,
        }
    }
}

pub(crate) fn copy_permission(p: &Permission) -> (r: Permission)
    ensures
        r@ == p@,
{
    Permission {
        id: p.id.clone(),
        session_id: p.session_id.clone(),
        title: p.title.clone(),
        kind: p.kind.clone(),
    }
}

/// What an ask is called: its title, or the tool kind when it has none.
pub fn ask_label(perm: &Permission) -> (s: String)
    ensures
        s@ == if perm.title@.len() == 0 {
            perm.kind@
        } else {
            perm.title@
        },
{
    if perm.title.as_str().unicode_len() == 0 {
        perm.kind.clone()
    } else {
        perm.title.clone()
    }
}

/// An ask the manager reports, with the chat it belongs to.
#[derive(Clone, Debug, PartialEq, Eq)]
pub struct PendingAsk {
    pub chat_id: String,
    pub permission: Permission,
}

/// The manager's snapshot: every pending ask it could find, and the chats
/// whose containers did not answer.
#[derive(Clone, Debug, PartialEq, Eq)]
pub struct PermissionReport {
    pub permissions: Vec<PendingAsk>,
    pub unreachable: Vec<String>,
}

/// A queued ask, read as characters: its chat and its permission.
pub type Entry = (Seq<char>, PermissionView);

pub open spec fn queue_view(q: Seq<(String, Permission)>) -> Seq<Entry> {
    q.map_values(|e: (String, Permission)| (e.0@, e.1@))
}

pub open spec fn pairs_view(a: Seq<(String, String)>) -> Seq<(Seq<char>, Seq<char>)> {
    a.map_values(|e: (String, String)| (e.0@, e.1@))
}

pub open spec fn asks_view(v: Seq<PendingAsk>) -> Seq<Entry> {
    v.map_values(|a: PendingAsk| (a.chat_id@, a.permission@))
}

pub open spec fn names_of(v: Seq<String>) -> Seq<Seq<char>> {
    v.map_values(|s: String| s@)
}

/// Whether the snapshot speaks for `chat`: every chat but the one with a
/// live event stream and the ones whose containers did not answer.
pub open spec fn speaks_for(
    unreachable: Seq<Seq<char>>,
    streaming: Option<Seq<char>>,
    chat: Seq<char>,
) -> bool {
    streaming != Some(chat) && !unreachable.contains(chat)
}

/// Whether the snapshot lists the ask `id` of `chat`.
pub open spec fn listed(asks: Seq<Entry>, chat: Seq<char>, id: Seq<char>) -> bool {
    exists|k: int| 0 <= k < asks.len() && #[trigger] asks[k].0 == chat && asks[k].1.id == id
}

/// Whether an entry about `chat` and `id` survives the snapshot.
pub open spec fn survives(
    asks: Seq<Entry>,
    unreachable: Seq<Seq<char>>,
    streaming: Option<Seq<char>>,
    chat: Seq<char>,
    id: Seq<char>,
) -> bool {
    !speaks_for(unreachable, streaming, chat) || listed(asks, chat, id)
}

/// Whether the queue holds an ask with this chat and id.
pub open spec fn queued(q: Seq<Entry>, chat: Seq<char>, id: Seq<char>) -> bool {
    exists|k: int| 0 <= k < q.len() && #[trigger] q[k].0 == chat && q[k].1.id == id
}

/// Whether a reported ask joins the queue: it names a chat and an id, it is
/// not the live stream's, it has not been answered here, and it is not
/// queued already.
pub open spec fn joins(
    q: Seq<Entry>,
    answered: Seq<(Seq<char>, Seq<char>)>,
    streaming: Option<Seq<char>>,
    ask: Entry,
) -> bool {
    &&& ask.0.len() > 0
    &&& ask.1.id.len() > 0
    &&& streaming != Some(ask.0)
    &&& !answered.contains((ask.0, ask.1.id))
    &&& !queued(q, ask.0, ask.1.id)
}

/// The queue after the reported asks `asks` are offered to it in order.
pub open spec fn offer_all(
    q: Seq<Entry>,
    answered: Seq<(Seq<char>, Seq<char>)>,
    streaming: Option<Seq<char>>,
    asks: Seq<Entry>,
) -> Seq<Entry>
    decreases asks.len(),
{
    if asks.len() == 0 {
        q
    } else {
        let before = offer_all(q, answered, streaming, asks.drop_last());
        if joins(before, answered, streaming, asks.last()) {
            before.push(asks.last())
        } else {
            before
        }
    }
}

/// The queue after a snapshot: entries the snapshot speaks for and no
/// longer lists are gone, then the reported asks join.
pub open spec fn merged_queue(
    q: Seq<Entry>,
    answered: Seq<(Seq<char>, Seq<char>)>,
    asks: Seq<Entry>,
    unreachable: Seq<Seq<char>>,
    streaming: Option<Seq<char>>,
) -> Seq<Entry> {
    offer_all(
        q.filter(|e: Entry| survives(asks, unreachable, streaming, e.0, e.1.id)),
        kept_answers(answered, asks, unreachable, streaming),
        streaming,
        asks,
    )
}

/// The answered asks still worth remembering: a tombstone goes once the
/// snapshot speaks for its chat and no longer lists it.
pub open spec fn kept_answers(
    answered: Seq<(Seq<char>, Seq<char>)>,
    asks: Seq<Entry>,
    unreachable: Seq<Seq<char>>,
    streaming: Option<Seq<char>>,
) -> Seq<(Seq<char>, Seq<char>)> {
    answered.filter(|a: (Seq<char>, Seq<char>)| survives(asks, unreachable, streaming, a.0, a.1))
}

fn contains_name(v: &Vec<String>, name: &String) -> (b: bool)
    ensures
        b == names_of(v@).contains(name@),
{
    let mut k: usize = 0;
    while k < v.len()
        invariant
            k <= v@.len(),
            forall|q: int| 0 <= q < k ==> v@[q]@ != name@,
        decreases v.len() - k,
    {
        if v[k] == *name {
            assert(names_of(v@)[k as int] == name@);
            return true;
        }
        k += 1;
    }
    proof {
        if names_of(v@).contains(name@) {
            let q = choose|q: int| 0 <= q < names_of(v@).len() && names_of(v@)[q] == name@;
            assert(v@[q]@ == name@);
        }
    }
    false
}

fn is_streaming(streaming: Option<&str>, chat: &String) -> (b: bool)
    ensures
        b == (match streaming {
            Some(s) => Some(s@),
            None => None::<Seq<char>>,
        } == Some(chat@)),
{
    match streaming {
        Some(s) => same_text(s, chat.as_str()),
        None => false,
    }
}

fn is_listed(report: &PermissionReport, chat: &String, id: &String) -> (b: bool)
    ensures
        b == listed(asks_view(report.permissions@), chat@, id@),
{
    let ghost asks = asks_view(report.permissions@);
    let mut k: usize = 0;
    while k < report.permissions.len()
        invariant
            asks == asks_view(report.permissions@),
            k <= asks.len(),
            forall|q: int| 0 <= q < k ==> !(asks[q].0 == chat@ && asks[q].1.id == id@),
        decreases report.permissions.len() - k,
    {
        let a = &report.permissions[k];
        if a.chat_id == *chat && a.permission.id == *id {
            assert(asks[k as int].0 == chat@ && asks[k as int].1.id == id@);
            return true;
        }
        k += 1;
    }
    false
}

pub(crate) fn in_queue(queue: &Vec<(String, Permission)>, chat: &String, id: &String) -> (b: bool)
    ensures
        b == queued(queue_view(queue@), chat@, id@),
{
    let ghost q = queue_view(queue@);
    let mut k: usize = 0;
    while k < queue.len()
        invariant
            q == queue_view(queue@),
            k <= q.len(),
            forall|p: int| 0 <= p < k ==> !(q[p].0 == chat@ && q[p].1.id == id@),
        decreases queue.len() - k,
    {
        if queue[k].0 == *chat && queue[k].1.id == *id {
            assert(q[k as int].0 == chat@ && q[k as int].1.id == id@);
            return true;
        }
        k += 1;
    }
    false
}

fn in_answered(answered: &Vec<(String, String)>, chat: &String, id: &String) -> (b: bool)
    ensures
        b == pairs_view(answered@).contains((chat@, id@)),
{
    let ghost a = pairs_view(answered@);
    let mut k: usize = 0;
    while k < answered.len()
        invariant
            a == pairs_view(answered@),
            k <= a.len(),
            forall|p: int| 0 <= p < k ==> a[p] != (chat@, id@),
        decreases answered.len() - k,
    {
        if answered[k].0 == *chat && answered[k].1 == *id {
            assert(a[k as int] == (chat@, id@));
            return true;
        }
        k += 1;
    }
    false
}

/// Reconcile a snapshot of what is pending server-side with what is queued.
///
/// The snapshot is authoritative for every chat it can speak for, which is
/// every chat except two: the one with a live event stream (that stream is
/// faster and ordered) and any the manager lists as unreachable (a
/// container that did not answer is not one with nothing pending). A
/// tombstone in `answered` keeps an ask answered here from coming back on a
/// stale snapshot, and goes once the snapshot stops listing it.
pub fn merge_permission_report(
    queue: &mut Vec<(String, Permission)>,
    answered: &mut Vec<(String, String)>,
    report: &PermissionReport,
    streaming: Option<&str>,
)
    ensures
        ({
            let asks = asks_view(report.permissions@);
            let unreachable = names_of(report.unreachable@);
            let stream = match streaming {
                Some(s) => Some(s@),
                None => None::<Seq<char>>,
            };
            &&& pairs_view(final(answered)@) == kept_answers(
                pairs_view(old(answered)@),
                asks,
                unreachable,
                stream,
            )
            &&& queue_view(final(queue)@) == merged_queue(
                queue_view(old(queue)@),
                pairs_view(old(answered)@),
                asks,
                unreachable,
                stream,
            )
        }),
{
    let ghost asks = asks_view(report.permissions@);
    let ghost unreachable = names_of(report.unreachable@);
    let ghost stream = match streaming {
        Some(s) => Some(s@),
        None => None::<Seq<char>>,
    };
    let ghost q0 = queue_view(queue@);
    let ghost a0 = pairs_view(answered@);
    let ghost keep_q = |e: Entry| survives(asks, unreachable, stream, e.0, e.1.id);
    let ghost keep_a = |a: (Seq<char>, Seq<char>)| survives(asks, unreachable, stream, a.0, a.1);

    let mut kept: Vec<(String, Permission)> = Vec::new();
    let mut k: usize = 0;
    assert(q0.take(0).filter(keep_q) =~= Seq::<Entry>::empty());
    assert(queue_view(kept@) =~= Seq::<Entry>::empty());
    while k < queue.len()
        invariant
            q0 == queue_view(queue@),
            asks == asks_view(report.permissions@),
            unreachable == names_of(report.unreachable@),
            stream == (match streaming {
                Some(s) => Some(s@),
                None => None::<Seq<char>>,
            }),
            keep_q == (|e: Entry| survives(asks, unreachable, stream, e.0, e.1.id)),
            k <= q0.len(),
            queue_view(kept@) == q0.take(k as int).filter(keep_q),
        decreases queue.len() - k,
    {
        proof {
            crate::seqs::lemma_filter_step(q0, keep_q, k as int);
        }
        let chat = &queue[k].0;
        let speaks = !is_streaming(streaming, chat) && !contains_name(&report.unreachable, chat);
        if !speaks || is_listed(report, chat, &queue[k].1.id) {
            let ghost before = queue_view(kept@);
            kept.push((queue[k].0.clone(), copy_permission(&queue[k].1)));
            assert(queue_view(kept@) =~= before.push(q0[k as int]));
        }
        k += 1;
    }
    assert(q0.take(q0.len() as int) =~= q0);

    let mut tombs: Vec<(String, String)> = Vec::new();
    let mut k: usize = 0;
    assert(a0.take(0).filter(keep_a) =~= Seq::<(Seq<char>, Seq<char>)>::empty());
    assert(pairs_view(tombs@) =~= Seq::<(Seq<char>, Seq<char>)>::empty());
    while k < answered.len()
        invariant
            a0 == pairs_view(answered@),
            asks == asks_view(report.permissions@),
            unreachable == names_of(report.unreachable@),
            stream == (match streaming {
                Some(s) => Some(s@),
                None => None::<Seq<char>>,
            }),
            keep_a == (|a: (Seq<char>, Seq<char>)| survives(asks, unreachable, stream, a.0, a.1)),
            k <= a0.len(),
            pairs_view(tombs@) == a0.take(k as int).filter(keep_a),
        decreases answered.len() - k,
    {
        proof {
            crate::seqs::lemma_filter_step(a0, keep_a, k as int);
        }
        let chat = &answered[k].0;
        let speaks = !is_streaming(streaming, chat) && !contains_name(&report.unreachable, chat);
        if !speaks || is_listed(report, chat, &answered[k].1) {
            let ghost before = pairs_view(tombs@);
            tombs.push((answered[k].0.clone(), answered[k].1.clone()));
            assert(pairs_view(tombs@) =~= before.push(a0[k as int]));
        }
        k += 1;
    }
    assert(a0.take(a0.len() as int) =~= a0);

    let ghost a1 = pairs_view(tombs@);
    let ghost base = queue_view(kept@);
    let mut k: usize = 0;
    assert(asks.take(0) =~= Seq::<Entry>::empty());
    while k < report.permissions.len()
        invariant
            asks == asks_view(report.permissions@),
            a1 == pairs_view(tombs@),
            stream == (match streaming {
                Some(s) => Some(s@),
                None => None::<Seq<char>>,
            }),
            k <= asks.len(),
            queue_view(kept@) == offer_all(base, a1, stream, asks.take(k as int)),
        decreases report.permissions.len() - k,
    {
        assert(asks.take(k + 1).drop_last() =~= asks.take(k as int));
        assert(asks.take(k + 1).last() == asks[k as int]);
        let ask = &report.permissions[k];
        let chat = &ask.chat_id;
        let id = &ask.permission.id;
        if chat.as_str().unicode_len() > 0 && id.as_str().unicode_len() > 0 && !is_streaming(
            streaming,
            chat,
        ) && !in_answered(&tombs, chat, id) && !in_queue(&kept, chat, id) {
            let ghost before = queue_view(kept@);
            kept.push((chat.clone(), copy_permission(&ask.permission)));
            assert(queue_view(kept@) =~= before.push(asks[k as int]));
        }
        k += 1;
    }
    assert(asks.take(asks.len() as int) =~= asks);
    *queue = kept;
    *answered = tombs;
}

/// Whether a queued entry is the ask `id` of `chat`.
pub open spec fn is_ask(e: Entry, chat: Seq<char>, id: Seq<char>) -> bool {
    e.0 == chat && e.1.id == id
}

/// The queue once the ask `id` of `chat` has been answered here.
pub open spec fn unqueued(q: Seq<Entry>, chat: Seq<char>, id: Seq<char>) -> Seq<Entry> {
    q.filter(|e: Entry| !is_ask(e, chat, id))
}

/// The tombstones with `key` among them, once.
pub open spec fn with_tomb(
    answered: Seq<(Seq<char>, Seq<char>)>,
    key: (Seq<char>, Seq<char>),
) -> Seq<(Seq<char>, Seq<char>)> {
    if answered.contains(key) {
        answered
    } else {
        answered.push(key)
    }
}

/// Answer an ask here: its card leaves the queue at once, and a tombstone
/// keeps a snapshot taken before the reply landed from putting it back.
pub fn answer_locally(
    queue: &mut Vec<(String, Permission)>,
    answered: &mut Vec<(String, String)>,
    chat_id: &String,
    perm_id: &String,
)
    ensures
        queue_view(final(queue)@) == unqueued(queue_view(old(queue)@), chat_id@, perm_id@),
        pairs_view(final(answered)@) == with_tomb(pairs_view(old(answered)@), (chat_id@, perm_id@)),
{
    let ghost q = queue_view(queue@);
    let ghost pred = |e: Entry| !is_ask(e, chat_id@, perm_id@);
    let mut kept: Vec<(String, Permission)> = Vec::new();
    let mut k: usize = 0;
    while k < queue.len()
        invariant
            q == queue_view(queue@),
            pred == (|e: Entry| !is_ask(e, chat_id@, perm_id@)),
            k <= q.len(),
            queue_view(kept@) == q.take(k as int).filter(pred),
        decreases queue.len() - k,
    {
        let ghost e = q[k as int];
        assert(q.take(k + 1) =~= q.take(k as int).push(e));
        proof {
            q.take(k as int).lemma_filter_push(e, pred);
        }
        if !(queue[k].0 == *chat_id && queue[k].1.id == *perm_id) {
            let entry = (queue[k].0.clone(), copy_permission(&queue[k].1));
            let ghost before = queue_view(kept@);
            kept.push(entry);
            assert(queue_view(kept@) =~= before.push(e));
        }
        k += 1;
    }
    assert(q.take(q.len() as int) =~= q);
    *queue = kept;
    if !in_answered(answered, chat_id, perm_id) {
        let ghost before = pairs_view(answered@);
        answered.push((chat_id.clone(), perm_id.clone()));
        assert(pairs_view(answered@) =~= before.push((chat_id@, perm_id@)));
    }
}

/// A reply the server refused: the ask is still parked there, so its
/// tombstone goes and the next snapshot puts the card back.
pub fn reply_failed(answered: &mut Vec<(String, String)>, chat_id: &String, perm_id: &String)
    ensures
        pairs_view(final(answered)@) == pairs_view(old(answered)@).filter(
            |t: (Seq<char>, Seq<char>)| t != (chat_id@, perm_id@),
        ),
{
    let ghost a = pairs_view(answered@);
    let ghost pred = |t: (Seq<char>, Seq<char>)| t != (chat_id@, perm_id@);
    let mut kept: Vec<(String, String)> = Vec::new();
    let mut k: usize = 0;
    while k < answered.len()
        invariant
            a == pairs_view(answered@),
            pred == (|t: (Seq<char>, Seq<char>)| t != (chat_id@, perm_id@)),
            k <= a.len(),
            pairs_view(kept@) == a.take(k as int).filter(pred),
        decreases answered.len() - k,
    {
        let ghost t = a[k as int];
        assert(a.take(k + 1) =~= a.take(k as int).push(t));
        proof {
            a.take(k as int).lemma_filter_push(t, pred);
        }
        if !(answered[k].0 == *chat_id && answered[k].1 == *perm_id) {
            let ghost before = pairs_view(kept@);
            kept.push((answered[k].0.clone(), answered[k].1.clone()));
            assert(pairs_view(kept@) =~= before.push(t));
        }
        k += 1;
    }
    assert(a.take(a.len() as int) =~= a);
    *answered = kept;
}

/// The queue after the asks a chat raised while the app was away are
/// caught up: each joins, in order, unless that chat already has it queued.
pub open spec fn caught_up(q: Seq<Entry>, chat: Seq<char>, pending: Seq<PermissionView>) -> Seq<Entry>
    decreases pending.len(),
{
    if pending.len() == 0 {
        q
    } else {
        let before = caught_up(q, chat, pending.drop_last());
        let p = pending.last();
        if queued(before, chat, p.id) {
            before
        } else {
            before.push((chat, p))
        }
    }
}

pub open spec fn perms_view(v: Seq<Permission>) -> Seq<PermissionView> {
    v.map_values(|p: Permission| p@)
}

/// Catch up on the asks a chat raised while the app was away: they still
/// block its tool calls server-side.
pub fn catch_up_permissions(queue: &mut Vec<(String, Permission)>, chat_id: &String, pending: &Vec<Permission>)
    ensures
        queue_view(final(queue)@) == caught_up(queue_view(old(queue)@), chat_id@, perms_view(pending@)),
{
    let ghost q0 = queue_view(queue@);
    let ghost pv = perms_view(pending@);
    let mut k: usize = 0;
    while k < pending.len()
        invariant
            q0 == queue_view(old(queue)@),
            pv == perms_view(pending@),
            k <= pv.len(),
            queue_view(queue@) == caught_up(q0, chat_id@, pv.take(k as int)),
        decreases pending.len() - k,
    {
        assert(pv.take(k + 1).drop_last() =~= pv.take(k as int));
        assert(pv.take(k + 1).last() == pending@[k as int]@);
        if !in_queue(queue, chat_id, &pending[k].id) {
            let ghost before = queue_view(queue@);
            queue.push((chat_id.clone(), copy_permission(&pending[k])));
            assert(queue_view(queue@) =~= before.push((chat_id@, pending@[k as int]@)));
        }
        k += 1;
    }
    assert(pv.take(pv.len() as int) =~= pv);
}

/// An ask answered here stays answered through any snapshot that still
/// lists it: it has left the queue, its tombstone is down, and so it does
/// not join again.
pub proof fn law_an_answer_outlives_a_stale_snapshot(
    q: Seq<Entry>,
    answered: Seq<(Seq<char>, Seq<char>)>,
    chat: Seq<char>,
    id: Seq<char>,
    streaming: Option<Seq<char>>,
    ask: Entry,
)
    requires
        ask.0 == chat,
        ask.1.id == id,
    ensures
        !queued(unqueued(q, chat, id), chat, id),
        !joins(unqueued(q, chat, id), with_tomb(answered, (chat, id)), streaming, ask),
{
    let pred = |e: Entry| !is_ask(e, chat, id);
    let u = unqueued(q, chat, id);
    assert forall|k: int| 0 <= k < u.len() implies !(#[trigger] u[k].0 == chat && u[k].1.id == id) by {
        q.lemma_filter_pred(pred, k);
    }
    let t = with_tomb(answered, (chat, id));
    if !answered.contains((chat, id)) {
        assert(t[answered.len() as int] == (chat, id));
    }
    assert(t.contains((chat, id)));
}

// ---- the plane's index of pull requests ------------------------------------------

/// The pull-request screen's state for the open chat, and the plane-wide
/// index every row of the list reads. The two halves live differently: the
/// first belongs to whichever chat is open, `by_chat` and `swept` to the
/// plane.
pub struct PullsState {
    /// The pull requests off this chat's branch.
    pub pulls: Vec<PullRequest>,
    pub loading: bool,
    /// An answer has landed for this chat: what tells "none" apart from
    /// "not asked yet".
    pub loaded: bool,
    pub error: Option<String>,
    /// The number whose merge is in flight.
    pub merging: Option<u64>,
    /// Chat id to that chat's pull requests, newest first, for every chat
    /// the sweep has reached. A chat that is absent has not been asked
    /// about; a chat with an empty list has, and has none.
    pub by_chat: Vec<(String, Vec<PullRequest>)>,
    /// When the last sweep started, in Unix seconds.
    pub swept: u64,
}

/// The pull request a row speaks for: the newest off the chat's branch, or
/// none when the sweep has not reached the chat or its branch has none.
pub open spec fn plane_pull_spec(by_chat: Seq<(Seq<char>, Seq<PullRequest>)>, chat: Seq<char>) -> Option<PullRequest> {
    match first_value(by_chat, chat) {
        Some(pulls) => if pulls.len() > 0 {
            Some(pulls[0])
        } else {
            None
        },
        None => None,
    }
}

impl PullsState {
    /// Nothing asked, nothing known.
    pub fn new() -> (s: PullsState)
        ensures
            s.pulls@.len() == 0,
            !s.loading,
            !s.loaded,
            s.error is None,
            s.merging is None,
            s.by_chat@.len() == 0,
            s.swept == 0,
    {
        PullsState {
            pulls: Vec::new(),
            loading: false,
            loaded: false,
            error: None,
            merging: None,
            by_chat: Vec::new(),
            swept: 0,
        }
    }

    /// The pull request a row should speak for: the manager lists a
    /// branch's newest first, and a branch with two is one someone reopened.
    pub fn plane_pull(&self, chat_id: &str) -> (r: Option<PullRequest>)
        ensures
            r == plane_pull_spec(keyed_view(self.by_chat@), chat_id@),
    {
        let ghost bv = keyed_view(self.by_chat@);
        proof {
            lemma_first_index_is_first(bv, chat_id@);
        }
        match find_key(&self.by_chat, chat_id) {
            Some(j) => {
                assert(bv[j as int] == (self.by_chat@[j as int].0@, self.by_chat@[j as int].1@));
                if self.by_chat[j].1.len() > 0 {
                    Some(self.by_chat[j].1[0])
                } else {
                    None
                }
            },
            None => None,
        }
    }

    /// Record what the sweep found for one chat, replacing what it found
    /// before.
    pub fn record(&mut self, chat_id: &str, pulls: Vec<PullRequest>)
        ensures
            forall|c: Seq<char>|
                #![trigger first_value(keyed_view(final(self).by_chat@), c)]
                first_value(keyed_view(final(self).by_chat@), c) == if c == chat_id@ {
                    Some(pulls@)
                } else {
                    first_value(keyed_view(old(self).by_chat@), c)
                },
            final(self).pulls@ == old(self).pulls@,
            final(self).swept == old(self).swept,
    {
        let ghost bv = keyed_view(self.by_chat@);
        let ghost pv = pulls@;
        proof {
            lemma_first_index_is_first(bv, chat_id@);
        }
        match find_key(&self.by_chat, chat_id) {
            Some(j) => {
                self.by_chat[j].1 = pulls;
                assert(keyed_view(self.by_chat@) =~= bv.update(j as int, (chat_id@, pv)));
                assert forall|c: Seq<char>| #![trigger first_value(keyed_view(self.by_chat@), c)]
                    first_value(keyed_view(self.by_chat@), c) == if c == chat_id@ {
                        Some(pv)
                    } else {
                        first_value(bv, c)
                    } by {
                    lemma_first_update(bv, chat_id@, j as int, pv, c);
                }
            },
            None => {
                self.by_chat.push((chat_id.to_owned(), pulls));
                assert(keyed_view(self.by_chat@) =~= bv.push((chat_id@, pv)));
                assert forall|c: Seq<char>| #![trigger first_value(keyed_view(self.by_chat@), c)]
                    first_value(keyed_view(self.by_chat@), c) == if c == chat_id@ {
                        Some(pv)
                    } else {
                        first_value(bv, c)
                    } by {
                    lemma_first_push(bv, chat_id@, pv, c);
                }
            },
        }
    }
}

fn clone_pulls(v: &Vec<PullRequest>) -> (out: Vec<PullRequest>)
    ensures
        out@ == v@,
{
    let mut out: Vec<PullRequest> = Vec::new();
    let mut k: usize = 0;
    while k < v.len()
        invariant
            k <= v@.len(),
            out@ == v@.take(k as int),
        decreases v.len() - k,
    {
        out.push(v[k]);
        assert(out@ =~= v@.take(k + 1));
        k += 1;
    }
    assert(v@.take(v@.len() as int) =~= v@);
    out
}

impl PullsState {
    /// The state as another chat opens: the screen's half, which belonged
    /// to the chat that was open, starts over; the plane's half — the index
    /// every row reads and when it was last swept — stays, or the list would
    /// lose its build state on every open and not get it back for a sweep's
    /// floor.
    pub fn reopened(&self) -> (s: PullsState)
        ensures
            keyed_view(s.by_chat@) == keyed_view(self.by_chat@),
            s.swept == self.swept,
            s.pulls@.len() == 0,
            !s.loading,
            !s.loaded,
            s.error is None,
            s.merging is None,
    {
        let ghost bv = keyed_view(self.by_chat@);
        let mut by_chat: Vec<(String, Vec<PullRequest>)> = Vec::new();
        let mut k: usize = 0;
        while k < self.by_chat.len()
            invariant
                bv == keyed_view(self.by_chat@),
                k <= bv.len(),
                keyed_view(by_chat@) == bv.take(k as int),
            decreases self.by_chat.len() - k,
        {
            let entry = (self.by_chat[k].0.clone(), clone_pulls(&self.by_chat[k].1));
            let ghost ev = (entry.0@, entry.1@);
            assert(ev == bv[k as int]);
            let ghost before = keyed_view(by_chat@);
            by_chat.push(entry);
            assert(keyed_view(by_chat@) =~= before.push(ev));
            assert(bv.take(k + 1) =~= bv.take(k as int).push(bv[k as int]));
            assert(keyed_view(by_chat@) =~= bv.take(k + 1));
            k += 1;
        }
        assert(bv.take(bv.len() as int) =~= bv);
        PullsState {
            pulls: Vec::new(),
            loading: false,
            loaded: false,
            error: None,
            merging: None,
            by_chat,
            swept: self.swept,
        }
    }
}

/// What the connection row says once the manager has answered its health
/// check: how many code agents are active, none where the answer does not
/// say.
pub fn connected_label(active: Option<u64>) -> (s: String)
    ensures
        s@ == "code agents ("@ + decimal(
            match active {
                Some(n) => n as nat,
                None => 0,
            },
        ) + " active)"@,
{
    let n: u64 = match active {
        Some(n) => n,
        None => 0,
    };
    let mut s = "code agents (".to_owned();
    push_str(&mut s, decimal_string(n).as_str());
    push_str(&mut s, " active)");
    s
}

/// How many chats one sweep asks about, most recently active first.
pub const SWEEP_MAX_CHATS: usize = 24;

/// Whether a result answers the chat that is open now: an answer for a
/// chat the reader has since left is not written over the one they are in.
pub fn answers_open_chat(open: Option<&str>, asked: &str) -> (b: bool)
    ensures
        b == (crate::transcript::str_opt(open) == Some(asked@)),
{
    match open {
        Some(o) => crate::text::same_text(o, asked),
        None => false,
    }
}

/// The pull request after a merge, where the manager sent the fresh row.
pub open spec fn repaint(pulls: Seq<PullRequest>, number: u64, fresh: PullRequest) -> Seq<PullRequest> {
    match first_row(pulls, number) {
        Some(j) => pulls.update(j, fresh),
        None => pulls,
    }
}

/// Where the first row with `number` stands.
pub open spec fn first_row(pulls: Seq<PullRequest>, number: u64) -> Option<int> {
    if exists|j: int| 0 <= j < pulls.len() && (#[trigger] pulls[j]).number == number {
        Some(choose|j: int| 0 <= j < pulls.len() && (#[trigger] pulls[j]).number == number
            && forall|q: int| 0 <= q < j ==> (#[trigger] pulls[q]).number != number)
    } else {
        None
    }
}

impl PullsState {
    /// Start a plane-wide sweep at `now` over the chats of the index, in
    /// its order: at most `SWEEP_MAX_CHATS` of them, and none at all before
    /// the floor since the last sweep has passed. The start is claimed as
    /// it is made, so a tick landing while a slow sweep walks the list does
    /// not start a second one behind it.
    pub fn sweep_start(&mut self, chat_ids: &Vec<String>, now: u64) -> (ids: Vec<String>)
        ensures
            ({
                let due = chat_ids@.len() > 0 && (old(self).swept == 0 || (now >= old(self).swept
                    && now - old(self).swept >= SWEEP_FLOOR_SECS));
                &&& due ==> crate::extensions::strings_view(ids@) == crate::extensions::strings_view(
                    chat_ids@,
                ).take(
                    if chat_ids@.len() < SWEEP_MAX_CHATS {
                        chat_ids@.len() as int
                    } else {
                        SWEEP_MAX_CHATS as int
                    },
                )
                &&& due ==> final(self).swept == now
                &&& !due ==> ids@.len() == 0 && final(self).swept == old(self).swept
            }),
            keyed_view(final(self).by_chat@) == keyed_view(old(self).by_chat@),
            final(self).pulls@ == old(self).pulls@,
    {
        let mut ids: Vec<String> = Vec::new();
        if chat_ids.len() == 0 || !sweep_due(self.swept, now) {
            return ids;
        }
        self.swept = now;
        let ghost cv = crate::extensions::strings_view(chat_ids@);
        let n: usize = if chat_ids.len() < SWEEP_MAX_CHATS {
            chat_ids.len()
        } else {
            SWEEP_MAX_CHATS
        };
        let mut k: usize = 0;
        while k < n
            invariant
                n <= chat_ids@.len(),
                cv == crate::extensions::strings_view(chat_ids@),
                k <= n,
                crate::extensions::strings_view(ids@) == cv.take(k as int),
            decreases n - k,
        {
            let ghost before = crate::extensions::strings_view(ids@);
            ids.push(chat_ids[k].clone());
            assert(crate::extensions::strings_view(ids@) =~= before.push(cv[k as int]));
            assert(cv.take(k + 1) =~= cv.take(k as int).push(cv[k as int]));
            k += 1;
        }
        ids
    }

    /// Drop what the index knows of chats the plane no longer lists: a
    /// deleted chat's answer would otherwise stay for the life of the
    /// process, and its id can come back.
    pub fn retain_live(&mut self, live: &Vec<String>)
        ensures
            keyed_view(final(self).by_chat@) == keyed_view(old(self).by_chat@).filter(
                |e: (Seq<char>, Seq<PullRequest>)| crate::extensions::strings_view(live@).contains(e.0),
            ),
            final(self).pulls@ == old(self).pulls@,
            final(self).swept == old(self).swept,
    {
        let ghost bv = keyed_view(self.by_chat@);
        let ghost lv = crate::extensions::strings_view(live@);
        let ghost pred = |e: (Seq<char>, Seq<PullRequest>)| lv.contains(e.0);
        let mut kept: Vec<(String, Vec<PullRequest>)> = Vec::new();
        let mut k: usize = 0;
        while k < self.by_chat.len()
            invariant
                bv == keyed_view(self.by_chat@),
                lv == crate::extensions::strings_view(live@),
                pred == (|e: (Seq<char>, Seq<PullRequest>)| lv.contains(e.0)),
                k <= bv.len(),
                keyed_view(kept@) == bv.take(k as int).filter(pred),
            decreases self.by_chat.len() - k,
        {
            let ghost e = bv[k as int];
            assert(bv.take(k + 1) =~= bv.take(k as int).push(e));
            proof {
                bv.take(k as int).lemma_filter_push(e, pred);
            }
            let mut alive = false;
            let mut q: usize = 0;
            while q < live.len()
                invariant
                    bv == keyed_view(self.by_chat@),
                    lv == crate::extensions::strings_view(live@),
                    k < bv.len(),
                    e == bv[k as int],
                    q <= lv.len(),
                    alive == exists|r: int| 0 <= r < q && lv[r] == e.0,
                decreases live.len() - q,
            {
                assert(lv[q as int] == live@[q as int]@);
                if crate::text::same_text(live[q].as_str(), self.by_chat[k].0.as_str()) {
                    alive = true;
                }
                q += 1;
            }
            assert(alive == lv.contains(e.0));
            if alive {
                let entry = (self.by_chat[k].0.clone(), clone_pulls(&self.by_chat[k].1));
                let ghost before = keyed_view(kept@);
                kept.push(entry);
                assert(keyed_view(kept@) =~= before.push(e));
            }
            k += 1;
        }
        assert(bv.take(bv.len() as int) =~= bv);
        self.by_chat = kept;
    }

    /// The screen's fetch of the open chat's pull requests has started.
    pub fn pulls_asked(&mut self)
        ensures
            final(self).loading,
            final(self).error is None,
            final(self).pulls@ == old(self).pulls@,
            final(self).loaded == old(self).loaded,
            keyed_view(final(self).by_chat@) == keyed_view(old(self).by_chat@),
            final(self).swept == old(self).swept,
    {
        self.loading = true;
        self.error = None;
    }

    /// The open chat's pull requests have come back. A list is the screen's
    /// and the index's both, so the row the chat came from is never staler
    /// than the screen; a failure is kept on the screen.
    pub fn pulls_answered(&mut self, chat_id: &str, result: Result<Vec<PullRequest>, String>)
        ensures
            !final(self).loading,
            final(self).swept == old(self).swept,
            match result {
                Ok(list) => {
                    &&& final(self).pulls@ == list@
                    &&& final(self).loaded
                    &&& final(self).error is None
                    &&& forall|c: Seq<char>|
                        #![trigger first_value(keyed_view(final(self).by_chat@), c)]
                        first_value(keyed_view(final(self).by_chat@), c) == if c == chat_id@ {
                            Some(list@)
                        } else {
                            first_value(keyed_view(old(self).by_chat@), c)
                        }
                },
                Err(e) => {
                    &&& final(self).error == Some(e)
                    &&& final(self).pulls@ == old(self).pulls@
                    &&& final(self).loaded == old(self).loaded
                    &&& keyed_view(final(self).by_chat@) == keyed_view(old(self).by_chat@)
                },
            },
    {
        match result {
            Ok(list) => {
                let copy = clone_pulls(&list);
                self.record(chat_id, copy);
                self.pulls = list;
                self.loaded = true;
                self.error = None;
            },
            Err(e) => {
                self.error = Some(e);
            },
        }
        self.loading = false;
    }

    /// A merge has come back. The fresh row the manager sends replaces the
    /// row it describes; when there is none to fold in, the caller fetches
    /// the list again rather than leave it saying what has moved on.
    /// Returns whether the row was repainted, and the toast to show.
    pub fn merge_answered(&mut self, number: u64, result: Result<Option<PullRequest>, String>) -> (r: (bool, String))
        ensures
            final(self).merging is None,
            final(self).swept == old(self).swept,
            keyed_view(final(self).by_chat@) == keyed_view(old(self).by_chat@),
            match result {
                Ok(Some(fresh)) => r.0 && final(self).pulls@ == repaint(old(self).pulls@, number, fresh),
                _ => !r.0 && final(self).pulls@ == old(self).pulls@,
            },
            r.1@ == match result {
                Ok(_) => "Merged #"@ + crate::text::decimal(number as nat),
                Err(e) => e@,
            },
    {
        self.merging = None;
        let repainted = match &result {
            Ok(Some(fresh)) => {
                let mut k: usize = 0;
                let ghost pv = self.pulls@;
                while k < self.pulls.len() && self.pulls[k].number != number
                    invariant
                        pv == self.pulls@,
                        k <= pv.len(),
                        forall|q: int| 0 <= q < k ==> (#[trigger] pv[q]).number != number,
                    decreases self.pulls.len() - k,
                {
                    k += 1;
                }
                if k < self.pulls.len() {
                    assert(first_row(pv, number) == Some(k as int)) by {
                        assert(pv[k as int].number == number);
                        let c = choose|j: int| 0 <= j < pv.len() && (#[trigger] pv[j]).number == number
                            && forall|q: int| 0 <= q < j ==> (#[trigger] pv[q]).number != number;
                        if c < k {
                        } else if c > k {
                            assert(pv[k as int].number != number);
                        }
                    }
                    self.pulls.set(k, *fresh);
                } else {
                    assert(first_row(pv, number) is None);
                }
                true
            },
            _ => false,
        };
        let toast = match result {
            Ok(_) => {
                let mut t = "Merged #".to_owned();
                crate::text::push_str(&mut t, crate::text::decimal_string(number).as_str());
                t
            },
            Err(e) => e,
        };
        (repainted, toast)
    }
}

/// A sweep waits out its floor: once one has started at `swept`, no other
/// is due until `SWEEP_FLOOR_SECS` have passed, and a clock that steps
/// back before it makes none due.
pub proof fn law_a_sweep_waits_out_its_floor(swept: u64, later: u64)
    requires
        swept > 0,
        later < swept + SWEEP_FLOOR_SECS,
    ensures
        !(swept == 0 || (later >= swept && later - swept >= SWEEP_FLOOR_SECS)),
{
}

/// What the sweep recorded for a chat is what its row reads back: the
/// newest pull request of the list, and for every other chat what it read
/// before.
pub proof fn law_a_row_reads_back_what_the_sweep_recorded(
    before: Seq<(Seq<char>, Seq<PullRequest>)>,
    after: Seq<(Seq<char>, Seq<PullRequest>)>,
    chat: Seq<char>,
    pulls: Seq<PullRequest>,
    other: Seq<char>,
)
    requires
        forall|c: Seq<char>| #![trigger first_value(after, c)] first_value(after, c) == if c == chat {
            Some(pulls)
        } else {
            first_value(before, c)
        },
    ensures
        plane_pull_spec(after, chat) == if pulls.len() > 0 {
            Some(pulls[0])
        } else {
            None::<PullRequest>
        },
        other != chat ==> plane_pull_spec(after, other) == plane_pull_spec(before, other),
{
    assert(first_value(after, chat) == Some(pulls));
    assert(first_value(after, other) == if other == chat {
        Some(pulls)
    } else {
        first_value(before, other)
    });
}

} // verus!
