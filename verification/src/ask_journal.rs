//! A durable note of every permission ask that never got its answer back to
//! goose.
//!
//! The note is written when an ask ARRIVES, not when it is lost: the case it
//! exists for is the app being killed, and no code in the process runs at
//! that moment. An entry left `Open` by a process that did not come back is
//! reconciled into a loss at the next startup.
//!
//! Everything here is a plain function over a `Vec`. The model of a journal
//! is the sequence of its records' views (`journal_view`), and every
//! operation is stated over that sequence.

use vstd::prelude::*;

use crate::text::push_str;

verus! {

/// How many entries are kept.
pub const MAX_ENTRIES: usize = 20;

/// How long a loss is worth reporting: a week, in seconds.
pub const MAX_AGE_SECS: i64 = 604_800;

/// Why an ask was lost.
#[derive(Clone, Copy, Debug, PartialEq, Eq, Structural)]
pub enum LostCause {
    /// The socket died under it and this process was awake to see it.
    Connection,
    /// Found `Open` at startup: the app itself went away.
    AppEnded,
}

/// What became of one ask.
#[derive(Clone, Copy, Debug, PartialEq, Eq, Structural)]
pub enum AskState {
    /// On screen, unanswered, and the connection is believed live.
    Open,
    Lost { at: i64, cause: LostCause },
    /// Reported and dismissed.
    Acknowledged { at: i64 },
}

/// One permission ask this client received, and what became of it.
#[derive(Clone, Debug, PartialEq, Eq)]
pub struct AskRecord {
    pub session_id: String,
    /// What the session was called when the ask arrived.
    pub session_title: String,
    /// The ACP `toolCallId`: the key for everything here.
    pub tool_call_id: String,
    pub title: String,
    pub asked_at: i64,
    pub state: AskState,
}

/// An `AskRecord` with its texts read as characters.
pub struct RecordView {
    pub session_id: Seq<char>,
    pub session_title: Seq<char>,
    pub tool_call_id: Seq<char>,
    pub title: Seq<char>,
    pub asked_at: i64,
    pub state: AskState,
}

impl View for AskRecord {
    type V = RecordView;

    open spec fn view(&self) -> RecordView {
        RecordView {
            session_id: self.session_id@,
            session_title: self.session_title@,
            tool_call_id: self.tool_call_id@,
            title: self.title@,
            asked_at: self.asked_at,
            state: self.state,
        }
    }
}

// ---- the model ----------------------------------------------------------

/// A journal as the sequence of its records' views.
pub open spec fn journal_view(j: Seq<AskRecord>) -> Seq<RecordView> {
    j.map_values(|r: AskRecord| r@)
}

pub open spec fn open_state(s: AskState) -> bool {
    s is Open
}

pub open spec fn lost_state(s: AskState) -> bool {
    s is Lost
}

/// When a record last changed.
pub open spec fn touched(r: RecordView) -> int {
    match r.state {
        AskState::Open => r.asked_at as int,
        AskState::Lost { at, .. } => at as int,
        AskState::Acknowledged { at } => at as int,
    }
}

/// The order the cap sheds in: acknowledged, then lost, then open.
pub open spec fn tier(s: AskState) -> int {
    match s {
        AskState::Acknowledged { .. } => 0,
        AskState::Lost { .. } => 1,
        AskState::Open => 2,
    }
}

/// `(tier, touched)` of `a` is strictly below that of `b`.
pub open spec fn key_below(a: RecordView, b: RecordView) -> bool {
    tier(a.state) < tier(b.state) || (tier(a.state) == tier(b.state) && touched(a) < touched(b))
}

/// `(tier, touched)` of `a` is at most that of `b`.
pub open spec fn key_at_most(a: RecordView, b: RecordView) -> bool {
    !key_below(b, a)
}

/// The index of the first record whose key is smallest.
pub open spec fn first_min(s: Seq<RecordView>) -> int
    decreases s.len(),
{
    if s.len() <= 1 {
        0
    } else {
        let m = first_min(s.drop_last());
        if key_below(s.last(), s[m]) {
            s.len() - 1
        } else {
            m
        }
    }
}

pub proof fn lemma_first_min_in_range(s: Seq<RecordView>)
    requires
        s.len() > 0,
    ensures
        0 <= first_min(s) < s.len(),
    decreases s.len(),
{
    if s.len() > 1 {
        lemma_first_min_in_range(s.drop_last());
    }
}

/// Recent enough to keep.
pub open spec fn is_fresh(r: RecordView, now: int) -> bool {
    now - touched(r) < MAX_AGE_SECS
}

pub open spec fn keeps_fresh(now: int) -> spec_fn(RecordView) -> bool {
    |r: RecordView| is_fresh(r, now)
}

pub open spec fn fresh(s: Seq<RecordView>, now: int) -> Seq<RecordView> {
    s.filter(keeps_fresh(now))
}

/// The journal shed one smallest-keyed record at a time down to the cap.
pub open spec fn capped(s: Seq<RecordView>) -> Seq<RecordView>
    decreases s.len(),
{
    if s.len() <= MAX_ENTRIES {
        s
    } else {
        proof {
            lemma_first_min_in_range(s);
        }
        capped(s.remove(first_min(s)))
    }
}

/// What `prune` leaves.
pub open spec fn pruned(s: Seq<RecordView>, now: int) -> Seq<RecordView> {
    capped(fresh(s, now))
}

/// Every record except those for `id`, in order.
pub open spec fn keeps_other_ids(id: Seq<char>) -> spec_fn(RecordView) -> bool {
    |r: RecordView| r.tool_call_id != id
}

pub open spec fn without_id(s: Seq<RecordView>, id: Seq<char>) -> Seq<RecordView> {
    s.filter(keeps_other_ids(id))
}

pub open spec fn keeps_settled() -> spec_fn(RecordView) -> bool {
    |r: RecordView| !open_state(r.state)
}

pub open spec fn without_open(s: Seq<RecordView>) -> Seq<RecordView> {
    s.filter(keeps_settled())
}

/// One record after the connection dropped at `now`.
pub open spec fn lost_if_open(r: RecordView, cause: LostCause, now: i64) -> RecordView {
    if open_state(r.state) {
        RecordView { state: AskState::Lost { at: now, cause }, ..r }
    } else {
        r
    }
}

pub open spec fn all_lost(s: Seq<RecordView>, cause: LostCause, now: i64) -> Seq<RecordView> {
    s.map_values(|r: RecordView| lost_if_open(r, cause, now))
}

/// One record after the reader dismissed `id` at `now`.
pub open spec fn acknowledged_if(r: RecordView, id: Seq<char>, now: i64) -> RecordView {
    if r.tool_call_id == id {
        RecordView { state: AskState::Acknowledged { at: now }, ..r }
    } else {
        r
    }
}

pub open spec fn all_acknowledged(s: Seq<RecordView>, id: Seq<char>, now: i64) -> Seq<
    RecordView,
> {
    s.map_values(|r: RecordView| acknowledged_if(r, id, now))
}

/// An unreported loss of session `sid`.
pub open spec fn reported_in(r: RecordView, sid: Seq<char>) -> bool {
    r.session_id == sid && lost_state(r.state)
}

pub open spec fn keeps_losses_of(sid: Seq<char>) -> spec_fn(RecordView) -> bool {
    |r: RecordView| reported_in(r, sid)
}

pub open spec fn losses_of(s: Seq<RecordView>, sid: Seq<char>) -> Seq<RecordView> {
    s.filter(keeps_losses_of(sid))
}

/// The wording for when a loss happened.
pub open spec fn when_lost(r: RecordView) -> Seq<char> {
    match r.state {
        AskState::Lost { cause: LostCause::AppEnded, .. } => "while the app was closed"@,
        _ => "when the connection dropped"@,
    }
}

/// The sentence a lost ask gets.
pub open spec fn sentence_of(r: RecordView) -> Seq<char> {
    r.title + " was waiting on your answer "@ + when_lost(r)
        + ". goose discarded the reply it was working on — your message is still above. Ask again to retry."@
}

/// No two records share a tool call id.
pub open spec fn unique_ids(s: Seq<RecordView>) -> bool {
    forall|i: int, k: int|
        0 <= i < s.len() && 0 <= k < s.len() && i != k ==> #[trigger] s[i].tool_call_id
            != #[trigger] s[k].tool_call_id
}

// ---- executable ---------------------------------------------------------

impl AskRecord {
    /// A fresh, unanswered ask.
    pub fn open(
        session_id: String,
        session_title: String,
        tool_call_id: String,
        title: String,
        asked_at: i64,
    ) -> (r: Self)
        ensures
            r@ == (RecordView {
                session_id: session_id@,
                session_title: session_title@,
                tool_call_id: tool_call_id@,
                title: title@,
                asked_at,
                state: AskState::Open,
            }),
    {
        AskRecord { session_id, session_title, tool_call_id, title, asked_at, state: AskState::Open }
    }

    pub fn is_open(&self) -> (b: bool)
        ensures
            b == open_state(self.state),
    {
        match self.state {
            AskState::Open => true,
            _ => false,
        }
    }

    /// Whether this is a loss the reader has not yet been shown.
    pub fn is_unreported_loss(&self) -> (b: bool)
        ensures
            b == lost_state(self.state),
    {
        match self.state {
            AskState::Lost { .. } => true,
            _ => false,
        }
    }

    /// When this entry last changed, for ageing it out.
    pub fn touched_at(&self) -> (t: i64)
        ensures
            t == touched(self@),
    {
        match self.state {
            AskState::Open => self.asked_at,
            AskState::Lost { at, .. } => at,
            AskState::Acknowledged { at } => at,
        }
    }
}

/// A record with the same texts and numbers.
fn copy_record(r: &AskRecord) -> (c: AskRecord)
    ensures
        c@ == r@,
{
    AskRecord {
        session_id: r.session_id.clone(),
        session_title: r.session_title.clone(),
        tool_call_id: r.tool_call_id.clone(),
        title: r.title.clone(),
        asked_at: r.asked_at,
        state: r.state,
    }
}

/// Two records carry the same texts, numbers and state.
fn same_record(a: &AskRecord, b: &AskRecord) -> (r: bool)
    ensures
        r == (a@ == b@),
{
    a.session_id == b.session_id && a.session_title == b.session_title && a.tool_call_id
        == b.tool_call_id && a.title == b.title && a.asked_at == b.asked_at && a.state == b.state
}

/// Two journals are record for record the same.
fn same_journal(a: &Vec<AskRecord>, b: &Vec<AskRecord>) -> (r: bool)
    ensures
        r == (journal_view(a@) == journal_view(b@)),
{
    if a.len() != b.len() {
        assert(journal_view(a@).len() != journal_view(b@).len());
        return false;
    }
    let mut i: usize = 0;
    while i < a.len()
        invariant
            a.len() == b.len(),
            i <= a.len(),
            forall|k: int| 0 <= k < i ==> a@[k]@ == b@[k]@,
        decreases a.len() - i,
    {
        if !same_record(&a[i], &b[i]) {
            assert(journal_view(a@)[i as int] != journal_view(b@)[i as int]);
            return false;
        }
        i += 1;
    }
    assert(journal_view(a@) =~= journal_view(b@));
    true
}

/// Keep the records whose tool call id is not `id`.
fn drop_id(journal: &mut Vec<AskRecord>, id: &String)
    ensures
        journal_view(final(journal)@) == without_id(journal_view(old(journal)@), id@),
{
    let ghost pred = keeps_other_ids(id@);
    let mut kept: Vec<AskRecord> = Vec::new();
    let mut i: usize = 0;
    while i < journal.len()
        invariant
            pred == keeps_other_ids(id@),
            i <= journal.len(),
            journal == old(journal),
            journal_view(kept@) == journal_view(journal@).take(i as int).filter(pred),
        decreases journal.len() - i,
    {
        proof {
            crate::seqs::lemma_filter_step(journal_view(journal@), pred, i as int);
        }
        if !(journal[i].tool_call_id == *id) {
            kept.push(copy_record(&journal[i]));
            assert(journal_view(kept@) =~= journal_view(journal@).take(i as int).filter(pred).push(
                journal@[i as int]@,
            ));
        }
        i += 1;
    }
    assert(journal_view(journal@).take(journal@.len() as int) =~= journal_view(journal@));
    *journal = kept;
}

/// Keep the records that are not `Open`.
fn drop_open(journal: &mut Vec<AskRecord>)
    ensures
        journal_view(final(journal)@) == without_open(journal_view(old(journal)@)),
{
    let ghost pred = keeps_settled();
    let mut kept: Vec<AskRecord> = Vec::new();
    let mut i: usize = 0;
    while i < journal.len()
        invariant
            pred == keeps_settled(),
            i <= journal.len(),
            journal == old(journal),
            journal_view(kept@) == journal_view(journal@).take(i as int).filter(pred),
        decreases journal.len() - i,
    {
        proof {
            crate::seqs::lemma_filter_step(journal_view(journal@), pred, i as int);
        }
        if !journal[i].is_open() {
            kept.push(copy_record(&journal[i]));
            assert(journal_view(kept@) =~= journal_view(journal@).take(i as int).filter(pred).push(
                journal@[i as int]@,
            ));
        }
        i += 1;
    }
    assert(journal_view(journal@).take(journal@.len() as int) =~= journal_view(journal@));
    *journal = kept;
}

/// Keep the records touched less than a week before `now`.
fn drop_stale(journal: &mut Vec<AskRecord>, now: i64)
    ensures
        journal_view(final(journal)@) == fresh(journal_view(old(journal)@), now as int),
{
    let ghost pred = keeps_fresh(now as int);
    let mut kept: Vec<AskRecord> = Vec::new();
    let mut i: usize = 0;
    while i < journal.len()
        invariant
            pred == keeps_fresh(now as int),
            i <= journal.len(),
            journal == old(journal),
            journal_view(kept@) == journal_view(journal@).take(i as int).filter(pred),
        decreases journal.len() - i,
    {
        proof {
            crate::seqs::lemma_filter_step(journal_view(journal@), pred, i as int);
        }
        let age: i128 = now as i128 - journal[i].touched_at() as i128;
        if age < MAX_AGE_SECS as i128 {
            kept.push(copy_record(&journal[i]));
            assert(journal_view(kept@) =~= journal_view(journal@).take(i as int).filter(pred).push(
                journal@[i as int]@,
            ));
        }
        i += 1;
    }
    assert(journal_view(journal@).take(journal@.len() as int) =~= journal_view(journal@));
    *journal = kept;
}

/// The index of the first record with the smallest `(tier, touched)`.
fn min_index(journal: &Vec<AskRecord>) -> (m: usize)
    requires
        journal.len() > 0,
    ensures
        m == first_min(journal_view(journal@)),
        m < journal.len(),
{
    let ghost s = journal_view(journal@);
    let mut best: usize = 0;
    let mut i: usize = 1;
    proof {
        assert(first_min(s.take(1)) == 0);
    }
    while i < journal.len()
        invariant
            s == journal_view(journal@),
            1 <= i <= journal.len(),
            best < i,
            best == first_min(s.take(i as int)),
        decreases journal.len() - i,
    {
        proof {
            assert(s.take(i + 1).drop_last() =~= s.take(i as int));
        }
        let t_new = tier_of(&journal[i].state);
        let t_best = tier_of(&journal[best].state);
        let below = t_new < t_best || (t_new == t_best && journal[i].touched_at()
            < journal[best].touched_at());
        if below {
            best = i;
        }
        i += 1;
    }
    assert(s.take(s.len() as int) =~= s);
    best
}

fn tier_of(s: &AskState) -> (t: u8)
    ensures
        t == tier(*s),
{
    match s {
        AskState::Acknowledged { .. } => 0,
        AskState::Lost { .. } => 1,
        AskState::Open => 2,
    }
}

/// Note an ask that has just arrived.
///
/// Replaces any entry for the same `tool_call_id` rather than adding a
/// second one: goose re-raises the asks it still holds on `session/load`, so
/// an ask this journal gave up for lost can arrive again and must become
/// `Open` again.
pub fn note(journal: &mut Vec<AskRecord>, record: AskRecord, now: i64)
    ensures
        journal_view(final(journal)@) == pruned(
            without_id(journal_view(old(journal)@), record@.tool_call_id).push(record@),
            now as int,
        ),
{
    drop_id(journal, &record.tool_call_id);
    let ghost rv = record@;
    let ghost before = journal_view(journal@);
    journal.push(record);
    assert(journal_view(journal@) =~= before.push(rv));
    prune(journal, now);
}

/// The ask got its answer, or the agent took the question back.
pub fn resolve(journal: &mut Vec<AskRecord>, tool_call_id: &str)
    ensures
        journal_view(final(journal)@) == without_id(journal_view(old(journal)@), tool_call_id@),
{
    let id = tool_call_id.to_owned();
    drop_id(journal, &id);
}

/// The connection died under us with asks still open: every `Open` entry
/// becomes a loss dated `now`, and nothing else changes.
pub fn lose_open(journal: &mut Vec<AskRecord>, cause: LostCause, now: i64)
    ensures
        journal_view(final(journal)@) == all_lost(journal_view(old(journal)@), cause, now),
{
    let mut i: usize = 0;
    while i < journal.len()
        invariant
            i <= journal.len(),
            journal@.len() == old(journal)@.len(),
            forall|k: int|
                0 <= k < i ==> #[trigger] journal@[k]@ == lost_if_open(old(journal)@[k]@, cause, now),
            forall|k: int| i <= k < journal@.len() ==> #[trigger] journal@[k] == old(journal)@[k],
        decreases journal.len() - i,
    {
        if journal[i].is_open() {
            journal[i].state = AskState::Lost { at: now, cause };
        }
        i += 1;
    }
    assert(journal_view(journal@) =~= all_lost(journal_view(old(journal)@), cause, now));
}

/// The user closed the connection themselves: their open asks go without a
/// word.
pub fn forget_open(journal: &mut Vec<AskRecord>)
    ensures
        journal_view(final(journal)@) == without_open(journal_view(old(journal)@)),
{
    drop_open(journal);
}

/// The reader has seen this one and dismissed it.
pub fn acknowledge(journal: &mut Vec<AskRecord>, tool_call_id: &str, now: i64)
    ensures
        journal_view(final(journal)@) == all_acknowledged(
            journal_view(old(journal)@),
            tool_call_id@,
            now,
        ),
{
    let id = tool_call_id.to_owned();
    let mut i: usize = 0;
    while i < journal.len()
        invariant
            i <= journal.len(),
            id@ == tool_call_id@,
            journal@.len() == old(journal)@.len(),
            forall|k: int|
                0 <= k < i ==> #[trigger] journal@[k]@ == acknowledged_if(
                    old(journal)@[k]@,
                    tool_call_id@,
                    now,
                ),
            forall|k: int| i <= k < journal@.len() ==> #[trigger] journal@[k] == old(journal)@[k],
        decreases journal.len() - i,
    {
        if journal[i].tool_call_id == id {
            journal[i].state = AskState::Acknowledged { at: now };
        }
        i += 1;
    }
    assert(journal_view(journal@) =~= all_acknowledged(
        journal_view(old(journal)@),
        tool_call_id@,
        now,
    ));
}

/// What the app makes of the journal it finds on disk at startup: every
/// entry still `Open` was written by a process that never got to say what
/// happened, so it is a loss caused by the app ending. Returns whether
/// anything changed.
pub fn reconcile_at_startup(journal: &mut Vec<AskRecord>, now: i64) -> (changed: bool)
    ensures
        journal_view(final(journal)@) == pruned(
            all_lost(journal_view(old(journal)@), LostCause::AppEnded, now),
            now as int,
        ),
        changed == (journal_view(final(journal)@) != journal_view(old(journal)@)),
{
    let mut before: Vec<AskRecord> = Vec::new();
    let mut i: usize = 0;
    while i < journal.len()
        invariant
            i <= journal.len(),
            before@.len() == i,
            forall|k: int| 0 <= k < i ==> #[trigger] before@[k]@ == journal@[k]@,
        decreases journal.len() - i,
    {
        before.push(copy_record(&journal[i]));
        i += 1;
    }
    assert(journal_view(before@) =~= journal_view(journal@));
    lose_open(journal, LostCause::AppEnded, now);
    prune(journal, now);
    !same_journal(journal, &before)
}

/// Keep the journal small and current: everything older than a week goes,
/// then the oldest `Acknowledged`, then the oldest `Lost`, until at most
/// `MAX_ENTRIES` remain.
pub fn prune(journal: &mut Vec<AskRecord>, now: i64)
    ensures
        journal_view(final(journal)@) == pruned(journal_view(old(journal)@), now as int),
{
    drop_stale(journal, now);
    let ghost target = pruned(journal_view(old(journal)@), now as int);
    while journal.len() > MAX_ENTRIES
        invariant
            capped(journal_view(journal@)) == target,
        decreases journal.len(),
    {
        let victim = min_index(journal);
        let ghost s = journal_view(journal@);
        journal.remove(victim);
        assert(journal_view(journal@) =~= s.remove(victim as int));
    }
}

/// The losses to narrate in one session's transcript, oldest first, as
/// `(tool call id, sentence)`.
pub fn losses_in(journal: &Vec<AskRecord>, session_id: &str) -> (out: Vec<(String, String)>)
    ensures
        out@.len() == losses_of(journal_view(journal@), session_id@).len(),
        forall|k: int|
            0 <= k < out@.len() ==> {
                let r = #[trigger] losses_of(journal_view(journal@), session_id@)[k];
                &&& out@[k].0@ == r.tool_call_id
                &&& out@[k].1@ == sentence_of(r)
            },
{
    let sid = session_id.to_owned();
    let ghost pred = keeps_losses_of(session_id@);
    let mut out: Vec<(String, String)> = Vec::new();
    let ghost mut chosen: Seq<RecordView> = Seq::empty();
    let mut i: usize = 0;
    while i < journal.len()
        invariant
            pred == keeps_losses_of(session_id@),
            i <= journal.len(),
            sid@ == session_id@,
            chosen == journal_view(journal@).take(i as int).filter(pred),
            out@.len() == chosen.len(),
            forall|k: int|
                0 <= k < out@.len() ==> {
                    let r = #[trigger] chosen[k];
                    &&& out@[k].0@ == r.tool_call_id
                    &&& out@[k].1@ == sentence_of(r)
                },
        decreases journal.len() - i,
    {
        proof {
            crate::seqs::lemma_filter_step(journal_view(journal@), pred, i as int);
        }
        if journal[i].session_id == sid && journal[i].is_unreported_loss() {
            let entry = &journal[i];
            out.push((entry.tool_call_id.clone(), sentence(entry)));
            proof {
                chosen = chosen.push(entry@);
            }
        }
        i += 1;
    }
    assert(journal_view(journal@).take(journal@.len() as int) =~= journal_view(journal@));
    out
}

/// How many unreported losses a session has, for the Chats list.
pub fn loss_count(journal: &Vec<AskRecord>, session_id: &str) -> (n: usize)
    ensures
        n == losses_of(journal_view(journal@), session_id@).len(),
{
    let sid = session_id.to_owned();
    let ghost pred = keeps_losses_of(session_id@);
    let mut n: usize = 0;
    let mut i: usize = 0;
    while i < journal.len()
        invariant
            pred == keeps_losses_of(session_id@),
            i <= journal.len(),
            sid@ == session_id@,
            n == journal_view(journal@).take(i as int).filter(pred).len(),
            n <= i,
        decreases journal.len() - i,
    {
        proof {
            crate::seqs::lemma_filter_step(journal_view(journal@), pred, i as int);
        }
        if journal[i].session_id == sid && journal[i].is_unreported_loss() {
            n += 1;
        }
        i += 1;
    }
    assert(journal_view(journal@).take(journal@.len() as int) =~= journal_view(journal@));
    n
}

/// The sentence a lost ask gets, in the open chat's transcript.
pub fn sentence(record: &AskRecord) -> (s: String)
    ensures
        s@ == sentence_of(record@),
{
    let when = match record.state {
        AskState::Lost { cause: LostCause::AppEnded, .. } => "while the app was closed",
        _ => "when the connection dropped",
    };
    let mut s = record.title.clone();
    push_str(&mut s, " was waiting on your answer ");
    push_str(&mut s, when);
    push_str(
        &mut s,
        ". goose discarded the reply it was working on — your message is still above. Ask again to retry.",
    );
    s
}

} // verus!

verus! {

// ---- laws ---------------------------------------------------------------

proof fn lemma_capped_bounds(s: Seq<RecordView>)
    ensures
        capped(s).len() <= MAX_ENTRIES,
        crate::seqs::within(capped(s), s),
        s.len() <= MAX_ENTRIES ==> capped(s) == s,
    decreases s.len(),
{
    if s.len() > MAX_ENTRIES {
        lemma_first_min_in_range(s);
        let t = s.remove(first_min(s));
        lemma_capped_bounds(t);
        crate::seqs::lemma_remove_within(s, first_min(s));
        crate::seqs::lemma_within_trans(capped(t), t, s);
    } else {
        assert forall|i: int| 0 <= i < s.len() implies s.contains(#[trigger] s[i]) by {}
    }
}

/// What `prune` leaves is at most `MAX_ENTRIES` records, every one of them
/// touched less than a week before `now`, every one of them already in the
/// journal.
pub proof fn law_prune_bounds(s: Seq<RecordView>, now: int)
    ensures
        pruned(s, now).len() <= MAX_ENTRIES,
        forall|i: int| 0 <= i < pruned(s, now).len() ==> is_fresh(#[trigger] pruned(s, now)[i], now),
        crate::seqs::within(pruned(s, now), s),
{
    crate::seqs::lemma_filter_within(s, keeps_fresh(now));
    lemma_capped_bounds(fresh(s, now));
    crate::seqs::lemma_within_trans(pruned(s, now), fresh(s, now), s);
    assert forall|i: int| 0 <= i < pruned(s, now).len() implies is_fresh(
        #[trigger] pruned(s, now)[i],
        now,
    ) by {
        let x = pruned(s, now)[i];
        assert(fresh(s, now).contains(x));
        let k = choose|k: int| 0 <= k < fresh(s, now).len() && fresh(s, now)[k] == x;
        assert(keeps_fresh(now)(fresh(s, now)[k]));
    }
}

/// Pruning a journal that is already pruned changes nothing.
pub proof fn law_prune_is_idempotent(s: Seq<RecordView>, now: int)
    ensures
        pruned(pruned(s, now), now) == pruned(s, now),
{
    let p = pruned(s, now);
    law_prune_bounds(s, now);
    crate::seqs::lemma_filter_all(p, keeps_fresh(now));
    lemma_capped_bounds(p);
}

/// A connection loss leaves nothing open, and leaves every record that was
/// not open exactly as it was — a loss already dated keeps its date.
pub proof fn law_lose_open_settles(s: Seq<RecordView>, cause: LostCause, now: i64)
    ensures
        all_lost(s, cause, now).len() == s.len(),
        forall|i: int| 0 <= i < s.len() ==> !open_state(#[trigger] all_lost(s, cause, now)[i].state),
        forall|i: int|
            0 <= i < s.len() && !open_state(s[i].state) ==> #[trigger] all_lost(s, cause, now)[i]
                == s[i],
{
}

/// After a startup reconciliation no ask is left open.
pub proof fn law_reconcile_leaves_nothing_open(s: Seq<RecordView>, now: i64)
    ensures
        forall|i: int|
            0 <= i < pruned(all_lost(s, LostCause::AppEnded, now), now as int).len()
                ==> !open_state(
                #[trigger] pruned(all_lost(s, LostCause::AppEnded, now), now as int)[i].state,
            ),
{
    let l = all_lost(s, LostCause::AppEnded, now);
    law_prune_bounds(l, now as int);
    assert forall|i: int| 0 <= i < pruned(l, now as int).len() implies !open_state(
        #[trigger] pruned(l, now as int)[i].state,
    ) by {
        let x = pruned(l, now as int)[i];
        assert(l.contains(x));
        let k = choose|k: int| 0 <= k < l.len() && l[k] == x;
        law_lose_open_settles(s, LostCause::AppEnded, now);
    }
}

/// A second reconciliation at the same moment finds nothing to do, so a
/// restart that finds a clean journal costs no write.
pub proof fn law_reconcile_is_idempotent(s: Seq<RecordView>, now: i64)
    ensures
        ({
            let once = pruned(all_lost(s, LostCause::AppEnded, now), now as int);
            pruned(all_lost(once, LostCause::AppEnded, now), now as int) == once
        }),
{
    let once = pruned(all_lost(s, LostCause::AppEnded, now), now as int);
    law_reconcile_leaves_nothing_open(s, now);
    assert(all_lost(once, LostCause::AppEnded, now) =~= once);
    law_prune_is_idempotent(all_lost(s, LostCause::AppEnded, now), now as int);
}

proof fn lemma_filter_keeps_unique(s: Seq<RecordView>, p: spec_fn(RecordView) -> bool)
    requires
        unique_ids(s),
    ensures
        unique_ids(s.filter(p)),
    decreases s.len(),
{
    reveal_with_fuel(Seq::filter, 1);
    if s.len() > 0 {
        let rest = s.drop_last();
        assert(unique_ids(rest));
        lemma_filter_keeps_unique(rest, p);
        if p(s.last()) {
            let f = rest.filter(p);
            crate::seqs::lemma_filter_within(rest, p);
            assert forall|i: int| 0 <= i < f.len() implies #[trigger] f[i].tool_call_id
                != s.last().tool_call_id by {
                assert(rest.contains(f[i]));
                let k = choose|k: int| 0 <= k < rest.len() && rest[k] == f[i];
                assert(s[k] == rest[k]);
            }
            let g = f.push(s.last());
            assert forall|i: int, k: int|
                0 <= i < g.len() && 0 <= k < g.len() && i != k implies #[trigger] g[i].tool_call_id
                != #[trigger] g[k].tool_call_id by {
                if i < f.len() && k < f.len() {
                } else if i < f.len() {
                    assert(f[i].tool_call_id != s.last().tool_call_id);
                } else {
                    assert(f[k].tool_call_id != s.last().tool_call_id);
                }
            }
        }
    }
}

proof fn lemma_capped_keeps_unique(s: Seq<RecordView>)
    requires
        unique_ids(s),
    ensures
        unique_ids(capped(s)),
    decreases s.len(),
{
    if s.len() > MAX_ENTRIES {
        lemma_first_min_in_range(s);
        let m = first_min(s);
        let t = s.remove(m);
        assert forall|i: int, k: int|
            0 <= i < t.len() && 0 <= k < t.len() && i != k implies #[trigger] t[i].tool_call_id
            != #[trigger] t[k].tool_call_id by {
            let ii = if i < m {
                i
            } else {
                i + 1
            };
            let kk = if k < m {
                k
            } else {
                k + 1
            };
            assert(t[i] == s[ii]);
            assert(t[k] == s[kk]);
        }
        lemma_capped_keeps_unique(t);
    }
}

/// Noting an ask keeps the tool call ids unique, and any record left for
/// that id is the one just noted — so a re-raised ask takes its record back
/// as `Open` rather than sitting beside its old loss.
pub proof fn law_note_takes_the_record_back(s: Seq<RecordView>, r: RecordView, now: int)
    requires
        unique_ids(s),
    ensures
        unique_ids(pruned(without_id(s, r.tool_call_id).push(r), now)),
        forall|i: int|
            0 <= i < pruned(without_id(s, r.tool_call_id).push(r), now).len() && (
            #[trigger] pruned(without_id(s, r.tool_call_id).push(r), now)[i]).tool_call_id
                == r.tool_call_id ==> pruned(without_id(s, r.tool_call_id).push(r), now)[i] == r,
{
    let w = without_id(s, r.tool_call_id);
    lemma_filter_keeps_unique(s, keeps_other_ids(r.tool_call_id));
    crate::seqs::lemma_filter_within(s, keeps_other_ids(r.tool_call_id));
    let g = w.push(r);
    assert forall|i: int, k: int|
        0 <= i < g.len() && 0 <= k < g.len() && i != k implies #[trigger] g[i].tool_call_id
        != #[trigger] g[k].tool_call_id by {
        if i < w.len() && k < w.len() {
        } else if i < w.len() {
            assert(keeps_other_ids(r.tool_call_id)(w[i]));
        } else {
            assert(keeps_other_ids(r.tool_call_id)(w[k]));
        }
    }
    lemma_filter_keeps_unique(g, keeps_fresh(now));
    lemma_capped_keeps_unique(fresh(g, now));
    law_prune_bounds(g, now);
    let p = pruned(g, now);
    assert forall|i: int|
        0 <= i < p.len() && (#[trigger] p[i]).tool_call_id == r.tool_call_id implies p[i] == r by {
        assert(g.contains(p[i]));
        let k = choose|k: int| 0 <= k < g.len() && g[k] == p[i];
        if k < w.len() {
            assert(keeps_other_ids(r.tool_call_id)(w[k]));
        }
    }
}

/// Resolving an ask leaves no record of it.
pub proof fn law_resolve_forgets(s: Seq<RecordView>, id: Seq<char>)
    ensures
        forall|i: int|
            0 <= i < without_id(s, id).len() ==> (#[trigger] without_id(s, id)[i]).tool_call_id
                != id,
{
    crate::seqs::lemma_filter_within(s, keeps_other_ids(id));
}

/// A dismissed loss is not reported again.
pub proof fn law_acknowledged_is_not_reported(
    s: Seq<RecordView>,
    id: Seq<char>,
    now: i64,
    sid: Seq<char>,
)
    ensures
        forall|i: int|
            0 <= i < losses_of(all_acknowledged(s, id, now), sid).len() ==> (
            #[trigger] losses_of(all_acknowledged(s, id, now), sid)[i]).tool_call_id != id,
{
    let a = all_acknowledged(s, id, now);
    crate::seqs::lemma_filter_within(a, keeps_losses_of(sid));
}

/// A deliberate disconnect narrates nothing: forgetting the open asks
/// leaves no open ask and every other record in place.
pub proof fn law_forget_open_keeps_the_settled(s: Seq<RecordView>)
    ensures
        forall|i: int|
            0 <= i < without_open(s).len() ==> !open_state((#[trigger] without_open(s)[i]).state),
        (forall|i: int| 0 <= i < s.len() ==> !open_state((#[trigger] s[i]).state))
            ==> without_open(s) == s,
{
    crate::seqs::lemma_filter_within(s, keeps_settled());
    if forall|i: int| 0 <= i < s.len() ==> !open_state((#[trigger] s[i]).state) {
        crate::seqs::lemma_filter_all(s, keeps_settled());
    }
}

proof fn lemma_first_min_is_least(s: Seq<RecordView>)
    requires
        s.len() > 0,
    ensures
        forall|i: int| 0 <= i < s.len() ==> key_at_most(s[first_min(s)], #[trigger] s[i]),
        forall|i: int| 0 <= i < first_min(s) ==> key_below(s[first_min(s)], #[trigger] s[i]),
    decreases s.len(),
{
    lemma_first_min_in_range(s);
    if s.len() > 1 {
        let t = s.drop_last();
        lemma_first_min_is_least(t);
        lemma_first_min_in_range(t);
        assert forall|i: int| 0 <= i < t.len() implies #[trigger] s[i] == t[i] by {}
    }
}

/// When the journal is over the cap, the record shed is the least useful
/// one: no record has an earlier tier (acknowledged before lost before
/// open) or, within its tier, an older touch — and of equals, the first.
pub proof fn law_cap_sheds_the_least_useful(s: Seq<RecordView>)
    requires
        s.len() > MAX_ENTRIES,
    ensures
        0 <= first_min(s) < s.len(),
        capped(s) == capped(s.remove(first_min(s))),
        forall|i: int| 0 <= i < s.len() ==> key_at_most(s[first_min(s)], #[trigger] s[i]),
        forall|i: int| 0 <= i < first_min(s) ==> key_below(s[first_min(s)], #[trigger] s[i]),
{
    lemma_first_min_in_range(s);
    lemma_first_min_is_least(s);
}

/// Over the cap, what goes first is what matters least, by state alone:
/// an open ask is shed only when every record is open, and a loss only
/// when no dismissed loss is left.
pub proof fn law_the_cap_sheds_by_state(s: Seq<RecordView>)
    requires
        s.len() > MAX_ENTRIES,
    ensures
        capped(s) == capped(s.remove(first_min(s))),
        s[first_min(s)].state is Open ==> forall|i: int| 0 <= i < s.len() ==> (#[trigger] s[i]).state is Open,
        s[first_min(s)].state is Lost ==> forall|i: int|
            0 <= i < s.len() ==> !((#[trigger] s[i]).state is Acknowledged),
{
    law_cap_sheds_the_least_useful(s);
    let r = s[first_min(s)];
    assert forall|i: int| 0 <= i < s.len() implies (r.state is Open ==> (#[trigger] s[i]).state is Open)
        && (r.state is Lost ==> !(s[i].state is Acknowledged)) by {
        assert(key_at_most(r, s[i]));
    }
}

} // verus!
