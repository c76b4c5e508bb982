//! What an open code chat does with each event of its stream.
//!
//! The loop that reads the stream, sleeps and re-attaches is the caller's;
//! each event is decided here: a streamed part folds into the transcript of
//! the session on screen, an ask joins the queue once, a reply takes it
//! off, an idle session ends the turn, and a dropped stream ends it too and
//! asks for a pause and a fresh attach. A loop whose chat is no longer the
//! open one changes nothing and detaches.

use vstd::prelude::*;

use crate::code::{copy_permission, in_queue, queue_view, queued, Entry, Permission};
use crate::keyed::keyed_view;
use crate::text::same_text;
use crate::attach::{pendings_view, records, PendingAttachment, PendingView};
use crate::transcript::{fold_spec, items_view, live_kind, put, str_opt, ChatItem, ItemView, Part, Transcript};

verus! {

/// One event of a code chat's stream: the parts of it this library reads.
#[derive(Debug, PartialEq, Eq)]
pub enum CodeEvent {
    Connected,
    /// A part was added or changed; `delta` is the text appended, when the
    /// server streams one.
    PartUpdated { part: Part, delta: Option<String> },
    /// A message's role became known.
    MessageUpdated { id: String, role: String },
    /// The agent is waiting on the reader.
    PermissionAsked(Permission),
    /// An ask was answered, here or elsewhere.
    PermissionReplied { id: String },
    /// A session's turn is over.
    SessionIdle { session_id: String },
    SessionStatus,
    /// The stream dropped: a container spinning down, the network, or the
    /// gateway restarting.
    Disconnected,
    Unknown,
}

/// What the loop does after an event.
#[derive(Clone, Copy, Debug, PartialEq, Eq, Structural)]
pub enum StreamStep {
    /// Read the next event.
    Continue,
    /// Another chat was opened: stop reading, quietly.
    Detach,
    /// The turn ended: persist the transcript, then read on.
    SaveCache,
    /// The stream is gone: persist, wait, and re-attach if the reader is
    /// still on this chat.
    PauseThenReattach,
}

/// The open chat, as far as its stream is concerned.
pub struct ChatStream {
    /// The session the transcript shows, once there is one.
    pub session_id: Option<String>,
    pub transcript: Transcript,
}

pub open spec fn sid_view(o: Option<String>) -> Option<Seq<char>> {
    match o {
        Some(s) => Some(s@),
        None => None,
    }
}

/// The queue after the reader's answer to ask `id` in `chat` is known.
pub open spec fn without_ask(q: Seq<Entry>, chat: Seq<char>, id: Seq<char>) -> Seq<Entry> {
    q.filter(|e: Entry| !(e.0 == chat && e.1.id == id))
}

/// Whether a loop started for chat `epoch` is still the open chat's.
pub open spec fn current(current_epoch: u64, epoch: u64) -> bool {
    current_epoch == epoch
}

/// Take one event of the stream of chat `chat_id`, read by the loop started
/// for `epoch` while the open chat's is `current_epoch`.
pub fn apply_event(
    chat: &mut ChatStream,
    queue: &mut Vec<(String, Permission)>,
    chat_id: &str,
    current_epoch: u64,
    epoch: u64,
    event: CodeEvent,
) -> (step: StreamStep)
    ensures
        !current(current_epoch, epoch) ==> {
            &&& step == StreamStep::Detach
            &&& final(chat).session_id == old(chat).session_id
            &&& items_view(final(chat).transcript.items@) == items_view(old(chat).transcript.items@)
            &&& final(chat).transcript.part_index@ == old(chat).transcript.part_index@
            &&& final(chat).transcript.roles@ == old(chat).transcript.roles@
            &&& final(chat).transcript.running == old(chat).transcript.running
            &&& final(queue)@ == old(queue)@
        },
        current(current_epoch, epoch) ==> final(chat).session_id == old(chat).session_id,
        current(current_epoch, epoch) ==> match event {
            CodeEvent::PartUpdated { part, delta } => {
                &&& step == StreamStep::Continue
                &&& final(queue)@ == old(queue)@
                &&& final(chat).transcript.roles@ == old(chat).transcript.roles@
                &&& if sid_view(old(chat).session_id) == Some(part@.session_id) {
                    &&& (items_view(final(chat).transcript.items@), keyed_view(
                        final(chat).transcript.part_index@,
                    )) == fold_spec(
                        items_view(old(chat).transcript.items@),
                        keyed_view(old(chat).transcript.part_index@),
                        keyed_view(old(chat).transcript.roles@),
                        part@,
                        sid_view(delta),
                    )
                    &&& final(chat).transcript.running == (old(chat).transcript.running
                        || live_kind(part@.kind))
                } else {
                    &&& items_view(final(chat).transcript.items@) == items_view(
                        old(chat).transcript.items@,
                    )
                    &&& final(chat).transcript.part_index@ == old(chat).transcript.part_index@
                    &&& final(chat).transcript.running == old(chat).transcript.running
                }
            },
            CodeEvent::MessageUpdated { id, role } => {
                &&& step == StreamStep::Continue
                &&& final(queue)@ == old(queue)@
                &&& keyed_view(final(chat).transcript.roles@) == if id@.len() > 0 {
                    put(keyed_view(old(chat).transcript.roles@), id@, role@)
                } else {
                    keyed_view(old(chat).transcript.roles@)
                }
                &&& items_view(final(chat).transcript.items@) == items_view(old(chat).transcript.items@)
                &&& final(chat).transcript.running == old(chat).transcript.running
            },
            CodeEvent::PermissionAsked(p) => {
                &&& step == StreamStep::Continue
                &&& queue_view(final(queue)@) == if queued(queue_view(old(queue)@), chat_id@, p@.id) {
                    queue_view(old(queue)@)
                } else {
                    queue_view(old(queue)@).push((chat_id@, p@))
                }
                &&& items_view(final(chat).transcript.items@) == items_view(old(chat).transcript.items@)
                &&& final(chat).transcript.running == old(chat).transcript.running
            },
            CodeEvent::PermissionReplied { id } => {
                &&& step == StreamStep::Continue
                &&& queue_view(final(queue)@) == without_ask(queue_view(old(queue)@), chat_id@, id@)
                &&& items_view(final(chat).transcript.items@) == items_view(old(chat).transcript.items@)
                &&& final(chat).transcript.running == old(chat).transcript.running
            },
            CodeEvent::SessionIdle { session_id } => {
                &&& final(queue)@ == old(queue)@
                &&& items_view(final(chat).transcript.items@) == items_view(old(chat).transcript.items@)
                &&& if sid_view(old(chat).session_id) == Some(session_id@) {
                    step == StreamStep::SaveCache && !final(chat).transcript.running
                } else {
                    &&& step == StreamStep::Continue
                    &&& final(chat).transcript.running == old(chat).transcript.running
                }
            },
            CodeEvent::Disconnected => {
                &&& step == StreamStep::PauseThenReattach
                &&& !final(chat).transcript.running
                &&& final(queue)@ == old(queue)@
                &&& items_view(final(chat).transcript.items@) == items_view(old(chat).transcript.items@)
            },
            _ => {
                &&& step == StreamStep::Continue
                &&& final(queue)@ == old(queue)@
                &&& items_view(final(chat).transcript.items@) == items_view(old(chat).transcript.items@)
                &&& final(chat).transcript.running == old(chat).transcript.running
            },
        },
{
    if current_epoch != epoch {
        return StreamStep::Detach;
    }
    match event {
        CodeEvent::PartUpdated { part, delta } => {
            let is_current = match &chat.session_id {
                Some(sid) => same_text(sid.as_str(), part.session_id.as_str()),
                None => false,
            };
            if is_current {
                let d = match &delta {
                    Some(x) => Some(x.as_str()),
                    None => None,
                };
                chat.transcript.fold_part(&part, d);
            }
            StreamStep::Continue
        },
        CodeEvent::MessageUpdated { id, role } => {
            if id.as_str().unicode_len() > 0 {
                crate::transcript::put_index(&mut chat.transcript.roles, id.as_str(), role);
            }
            StreamStep::Continue
        },
        CodeEvent::PermissionAsked(p) => {
            let owned = chat_id.to_owned();
            if !in_queue(queue, &owned, &p.id) {
                let ghost before = queue_view(queue@);
                let ghost pv = p@;
                queue.push((owned, p));
                assert(queue_view(queue@) =~= before.push((chat_id@, pv)));
            }
            StreamStep::Continue
        },
        CodeEvent::PermissionReplied { id } => {
            let ghost q0 = queue_view(queue@);
            let ghost keep = |e: Entry| !(e.0 == chat_id@ && e.1.id == id@);
            let mut kept: Vec<(String, Permission)> = Vec::new();
            let mut k: usize = 0;
            assert(q0.take(0).filter(keep) =~= Seq::<Entry>::empty());
            assert(queue_view(kept@) =~= Seq::<Entry>::empty());
            while k < queue.len()
                invariant
                    q0 == queue_view(queue@),
                    keep == (|e: Entry| !(e.0 == chat_id@ && e.1.id == id@)),
                    k <= q0.len(),
                    queue_view(kept@) == q0.take(k as int).filter(keep),
                decreases queue.len() - k,
            {
                proof {
                    crate::seqs::lemma_filter_step(q0, keep, k as int);
                }
                let same = same_text(queue[k].0.as_str(), chat_id) && queue[k].1.id == id;
                if !same {
                    let ghost before = queue_view(kept@);
                    kept.push((queue[k].0.clone(), copy_permission(&queue[k].1)));
                    assert(queue_view(kept@) =~= before.push(q0[k as int]));
                }
                k += 1;
            }
            assert(q0.take(q0.len() as int) =~= q0);
            *queue = kept;
            StreamStep::Continue
        },
        CodeEvent::SessionIdle { session_id } => {
            let mine = match &chat.session_id {
                Some(sid) => same_text(sid.as_str(), session_id.as_str()),
                None => false,
            };
            if mine {
                chat.transcript.running = false;
                StreamStep::SaveCache
            } else {
                StreamStep::Continue
            }
        },
        CodeEvent::Disconnected => {
            chat.transcript.running = false;
            StreamStep::PauseThenReattach
        },
        _ => StreamStep::Continue,
    }
}

/// After the pause that follows a dropped stream: re-attach only if the
/// reader is still on this chat and on the Code tab.
pub fn reattach_after_pause(current_epoch: u64, epoch: u64, on_code_tab: bool) -> (b: bool)
    ensures
        b == (current(current_epoch, epoch) && on_code_tab),
{
    current_epoch == epoch && on_code_tab
}

/// An ask is queued once: a stream that repeats it, as a reconnect does,
/// never puts a second card on the queue.
pub proof fn law_an_ask_is_queued_once(q: Seq<Entry>, chat: Seq<char>, p: crate::code::PermissionView)
    ensures
        queued(
            if queued(q, chat, p.id) {
                q
            } else {
                q.push((chat, p))
            },
            chat,
            p.id,
        ),
        (if queued(q, chat, p.id) {
            q
        } else {
            q.push((chat, p))
        }).filter(|e: Entry| e.0 == chat && e.1.id == p.id).len() == if queued(q, chat, p.id) {
            q.filter(|e: Entry| e.0 == chat && e.1.id == p.id).len()
        } else {
            1
        },
{
    let same = |e: Entry| e.0 == chat && e.1.id == p.id;
    if !queued(q, chat, p.id) {
        let r = q.push((chat, p));
        assert(r[q.len() as int] == (chat, p));
        assert forall|i: int| 0 <= i < q.len() implies !same(#[trigger] q[i]) by {
            if same(q[i]) {
                assert(q[i].0 == chat && q[i].1.id == p.id);
            }
        }
        q.lemma_all_neg_filter_empty(same);
        q.lemma_filter_push((chat, p), same);
        assert(q.filter(same).push((chat, p)).len() == 1);
    }
}

/// An answered ask leaves the queue, and only it: no entry for that chat
/// and id remains, and every other entry stays in its order.
pub proof fn law_a_reply_takes_its_ask_and_nothing_else(q: Seq<Entry>, chat: Seq<char>, id: Seq<char>)
    ensures
        !queued(without_ask(q, chat, id), chat, id),
        forall|i: int|
            0 <= i < q.len() && !(q[i].0 == chat && q[i].1.id == id) ==> without_ask(q, chat, id).contains(
                #[trigger] q[i],
            ),
{
    let keep = |e: Entry| !(e.0 == chat && e.1.id == id);
    crate::seqs::lemma_filter_within(q, keep);
    let w = without_ask(q, chat, id);
    if queued(w, chat, id) {
        let k = choose|k: int| 0 <= k < w.len() && #[trigger] w[k].0 == chat && w[k].1.id == id;
        assert(keep(w[k]));
    }
    assert forall|i: int| 0 <= i < q.len() && !(q[i].0 == chat && q[i].1.id == id) implies w.contains(
        #[trigger] q[i],
    ) by {
        q.lemma_filter_contains(keep, i);
    }
}

// ---- opening, attaching and sending ----------------------------------------------

/// What a chat is called: its title, or its id while it has none.
pub fn chat_title(title: &str, id: &str) -> (s: String)
    ensures
        s@ == if title@.len() == 0 {
            id@
        } else {
            title@
        },
{
    if title.unicode_len() == 0 {
        id.to_owned()
    } else {
        title.to_owned()
    }
}

/// Whether opening chat `id` leaves the chat the composer belongs to, so
/// that its draft and its picked files must not follow.
pub fn leaves_chat(open: Option<&str>, id: &str) -> (b: bool)
    ensures
        b == (str_opt(open) != Some(id@)),
{
    match open {
        Some(o) => !same_text(o, id),
        None => true,
    }
}

/// The session a chat resumes: the one it had, while the server still lists
/// it, else the first the server lists, else none until the first prompt
/// makes one.
pub open spec fn resume_spec(cached: Option<Seq<char>>, listed: Seq<Seq<char>>) -> Option<Seq<char>> {
    match cached {
        Some(c) => if listed.contains(c) {
            Some(c)
        } else if listed.len() > 0 {
            Some(listed[0])
        } else {
            None
        },
        None => if listed.len() > 0 {
            Some(listed[0])
        } else {
            None
        },
    }
}

/// The session a chat resumes, given the ids of the sessions the server
/// lists for it.
pub fn resume_session(cached: Option<&str>, listed: &Vec<String>) -> (r: Option<String>)
    ensures
        sid_view(r) == resume_spec(str_opt(cached), crate::attach::strings_view(listed@)),
{
    let ghost lv = crate::attach::strings_view(listed@);
    match cached {
        Some(c) => {
            let mut k: usize = 0;
            while k < listed.len()
                invariant
                    lv == crate::attach::strings_view(listed@),
                    str_opt(cached) == Some(c@),
                    k <= lv.len(),
                    forall|q: int| 0 <= q < k ==> lv[q] != c@,
                decreases listed.len() - k,
            {
                assert(lv[k as int] == listed@[k as int]@);
                if same_text(listed[k].as_str(), c) {
                    assert(lv[k as int] == c@);
                    assert(lv.contains(c@));
                    return Some(c.to_owned());
                }
                k += 1;
            }
            assert(!lv.contains(c@));
        },
        None => {},
    }
    if listed.len() > 0 {
        assert(lv[0] == listed@[0]@);
        Some(listed[0].clone())
    } else {
        None
    }
}

/// The model, effort and agent the next turn will use.
#[derive(Clone, Debug, PartialEq, Eq)]
pub struct TurnChoices {
    pub model: Option<String>,
    pub effort: Option<String>,
    pub agent: Option<String>,
}

/// What a session record says a turn used: its model as a reference and
/// an effort, when it names a model, and its agent.
#[derive(Clone, Debug, PartialEq, Eq)]
pub struct SessionRecord {
    pub model: Option<(Option<String>, Option<String>)>,
    pub agent: Option<String>,
}

/// The choices after a session record is read. The server's record is its
/// answer to what the next turn uses, but a choice the reader made and has
/// not yet sent is the more recent intent and stands.
pub open spec fn adopted_spec(
    c: (Option<Seq<char>>, Option<Seq<char>>, Option<Seq<char>>),
    picked: bool,
    agent_picked: bool,
    model: Option<(Option<Seq<char>>, Option<Seq<char>>)>,
    agent: Option<Seq<char>>,
) -> (Option<Seq<char>>, Option<Seq<char>>, Option<Seq<char>>) {
    let (m, e) = if !picked && model is Some {
        let (reference, effort) = model->0;
        (
            match reference {
                Some(r) => Some(r),
                None => c.0,
            },
            effort,
        )
    } else {
        (c.0, c.1)
    };
    let a = if !agent_picked && agent is Some {
        agent
    } else {
        c.2
    };
    (m, e, a)
}

pub open spec fn choices_view(c: TurnChoices) -> (Option<Seq<char>>, Option<Seq<char>>, Option<Seq<char>>) {
    (sid_view(c.model), sid_view(c.effort), sid_view(c.agent))
}

fn clone_opt(o: &Option<String>) -> (r: Option<String>)
    ensures
        sid_view(r) == sid_view(*o),
{
    match o {
        Some(s) => Some(s.clone()),
        None => None,
    }
}

/// Adopt what the session record says the next turn uses, except where
/// the reader has chosen.
pub fn adopt_session(choices: &mut TurnChoices, picked: bool, agent_picked: bool, record: &SessionRecord)
    ensures
        choices_view(*final(choices)) == adopted_spec(
            choices_view(*old(choices)),
            picked,
            agent_picked,
            match record.model {
                Some((r, e)) => Some((sid_view(r), sid_view(e))),
                None => None,
            },
            sid_view(record.agent),
        ),
{
    if !picked {
        match &record.model {
            Some((reference, effort)) => {
                match reference {
                    Some(r) => choices.model = Some(r.clone()),
                    None => {},
                }
                choices.effort = clone_opt(effort);
            },
            None => {},
        }
    }
    if !agent_picked {
        match &record.agent {
            Some(a) => choices.agent = Some(a.clone()),
            None => {},
        }
    }
}

/// Whether a prompt goes out, and what is said when it does not: a chat
/// with no id has nowhere to send it; with no connection the reader is
/// told so; a message with no parts at all is not sent. Returns whether to
/// send, and the toast.
pub fn prompt_gate(chat_id: Option<&str>, connected: bool, parts_empty: bool) -> (r: (bool, Option<&'static str>))
    ensures
        r.0 == (chat_id is Some && connected && !parts_empty),
        match r.1 {
            Some(t) => chat_id is Some && !connected && t@ == "Code plane not connected — check Settings"@,
            None => !(chat_id is Some && !connected),
        },
{
    if chat_id.is_none() {
        return (false, None);
    }
    if !connected {
        return (false, Some("Code plane not connected — check Settings"));
    }
    (!parts_empty, None)
}

impl ChatStream {
    /// A prompt is on screen the moment it is sent, with what it carried,
    /// and the turn is under way.
    pub fn prompt_sent(&mut self, text: String, files: &Vec<PendingAttachment>)
        ensures
            items_view(final(self).transcript.items@) == items_view(old(self).transcript.items@).push(
                ItemView::User {
                    text: text@,
                    attachments: pendings_view(files@).map_values(|f: PendingView| f.record),
                },
            ),
            final(self).transcript.running,
            final(self).transcript.part_index@ == old(self).transcript.part_index@,
            final(self).transcript.roles@ == old(self).transcript.roles@,
            final(self).session_id == old(self).session_id,
    {
        let ghost before = items_view(self.transcript.items@);
        let item = ChatItem::User { text, attachments: records(files) };
        let ghost v = item@;
        self.transcript.items.push(item);
        assert(items_view(self.transcript.items@) =~= before.push(v));
        self.transcript.running = true;
    }
}

} // verus!
