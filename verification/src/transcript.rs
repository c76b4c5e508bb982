//! Folding a code chat's message parts into its transcript.
//!
//! One rule serves both a history replay and the live stream: a part whose
//! id is known takes a delta onto its item, or replaces the item's text with
//! the full snapshot; a part whose id is new becomes a new item. Around that
//! rule sit the cases the server makes: the echo of a prompt the transcript
//! already shows is adopted rather than drawn twice, the parts the server
//! wrote on the reader's behalf are not the conversation, and an attachment
//! lands on the message it was sent with.

use vstd::prelude::*;

use crate::attach::{attachments_view, from_part, opt_view, or_empty, part_spec, Attachment, AttachmentView, FilePart};
use crate::keyed::{find_key, first_index, first_value, keyed_view, lemma_first_index_is_first, lemma_first_push, lemma_first_update};
use crate::text::{push_str, same_text};

verus! {

/// One item of a code chat's transcript.
#[derive(Clone, Debug, PartialEq, Eq)]
pub enum ChatItem {
    /// The reader's message and what it carried.
    User { text: String, attachments: Vec<Attachment> },
    /// A reply.
    Assistant { message_id: Option<String>, text: String },
    /// The model thinking aloud.
    Thought { message_id: Option<String>, text: String },
    /// A tool call and where it stands.
    Tool { id: String, title: String, kind: String, status: String, output: String },
}

/// A transcript item read as characters.
pub enum ItemView {
    User { text: Seq<char>, attachments: Seq<AttachmentView> },
    Assistant { message_id: Option<Seq<char>>, text: Seq<char> },
    Thought { message_id: Option<Seq<char>>, text: Seq<char> },
    Tool { id: Seq<char>, title: Seq<char>, kind: Seq<char>, status: Seq<char>, output: Seq<char> },
}

impl View for ChatItem {
    type V = ItemView;

    open spec fn view(&self) -> ItemView {
        match self {
            ChatItem::User { text, attachments } => ItemView::User {
                text: text@,
                attachments: attachments_view(attachments@),
            },
            ChatItem::Assistant { message_id, text } => ItemView::Assistant {
                message_id: opt_view(*message_id),
                text: text@,
            },
            ChatItem::Thought { message_id, text } => ItemView::Thought {
                message_id: opt_view(*message_id),
                text: text@,
            },
            ChatItem::Tool { id, title, kind, status, output } => ItemView::Tool {
                id: id@,
                title: title@,
                kind: kind@,
                status: status@,
                output: output@,
            },
        }
    }
}

pub open spec fn items_view(v: Seq<ChatItem>) -> Seq<ItemView> {
    v.map_values(|i: ChatItem| i@)
}

/// The state a tool part carries: the string fields this library reads.
#[derive(Debug, PartialEq, Eq)]
pub struct ToolState {
    pub status: Option<String>,
    pub title: Option<String>,
    pub output: Option<String>,
}

/// One part of a message, as history replays it and the stream sends it.
#[derive(Debug, PartialEq, Eq)]
pub struct Part {
    pub id: String,
    pub message_id: String,
    /// The session the part's message belongs to.
    pub session_id: String,
    /// `text`, `reasoning`, `tool`, `file`, or one with nothing to render.
    pub kind: String,
    pub text: Option<String>,
    /// Written by the server on the reader's behalf.
    pub synthetic: bool,
    pub tool: Option<String>,
    pub call_id: Option<String>,
    pub state: Option<ToolState>,
    pub mime: Option<String>,
    pub filename: Option<String>,
    pub url: Option<String>,
}

/// A part read as characters.
pub struct PartView {
    pub id: Seq<char>,
    pub message_id: Seq<char>,
    pub session_id: Seq<char>,
    pub kind: Seq<char>,
    pub text: Option<Seq<char>>,
    pub synthetic: bool,
    pub tool: Option<Seq<char>>,
    pub call_id: Option<Seq<char>>,
    pub state: Option<(Option<Seq<char>>, Option<Seq<char>>, Option<Seq<char>>)>,
    pub mime: Option<Seq<char>>,
    pub filename: Option<Seq<char>>,
    pub url: Option<Seq<char>>,
}

impl View for Part {
    type V = PartView;

    open spec fn view(&self) -> PartView {
        PartView {
            id: self.id@,
            message_id: self.message_id@,
            session_id: self.session_id@,
            kind: self.kind@,
            text: opt_view(self.text),
            synthetic: self.synthetic,
            tool: opt_view(self.tool),
            call_id: opt_view(self.call_id),
            state: match self.state {
                Some(s) => Some((opt_view(s.status), opt_view(s.title), opt_view(s.output))),
                None => None,
            },
            mime: opt_view(self.mime),
            filename: opt_view(self.filename),
            url: opt_view(self.url),
        }
    }
}

/// The index after `key` is made to point at `v`: in place where the key
/// has an entry, appended where it has none.
pub open spec fn put<V>(index: Seq<(Seq<char>, V)>, key: Seq<char>, v: V) -> Seq<(Seq<char>, V)> {
    match first_index(index, key) {
        Some(j) => index.update(j, (key, v)),
        None => index.push((key, v)),
    }
}

/// Whether some part is already bound to item `i`.
pub open spec fn bound(index: Seq<(Seq<char>, usize)>, i: int) -> bool {
    exists|k: int| 0 <= k < index.len() && #[trigger] index[k].1 == i
}

/// The role of the message a part belongs to; a message of unknown role is
/// the assistant's.
pub open spec fn role_of(roles: Seq<(Seq<char>, Seq<char>)>, message_id: Seq<char>) -> Seq<char> {
    match first_value(roles, message_id) {
        Some(r) => r,
        None => "assistant"@,
    }
}

/// A text item's prose after a part it already holds arrives again: the
/// delta appended, or the full snapshot in its place.
pub open spec fn retexted(item: ItemView, delta: Option<Seq<char>>, full: Seq<char>) -> ItemView {
    let next = |t: Seq<char>| match delta {
        Some(d) => t + d,
        None => full,
    };
    match item {
        ItemView::User { text, attachments } => ItemView::User { text: next(text), attachments },
        ItemView::Assistant { message_id, text } => ItemView::Assistant { message_id, text: next(text) },
        ItemView::Thought { message_id, text } => ItemView::Thought { message_id, text: next(text) },
        ItemView::Tool { .. } => item,
    }
}

/// Whether the last item is the reader's bubble with exactly this text and
/// no part bound to it yet: the prompt the server is echoing back.
pub open spec fn echoes(items: Seq<ItemView>, index: Seq<(Seq<char>, usize)>, text: Seq<char>) -> bool {
    &&& items.len() > 0
    &&& items.last() is User
    &&& items.last()->User_text == text
    &&& !bound(index, items.len() - 1)
}

/// Whether the last item is a bubble holding only a message's attachments,
/// waiting for its text.
pub open spec fn awaits_text(items: Seq<ItemView>) -> bool {
    &&& items.len() > 0
    &&& items.last() is User
    &&& items.last()->User_text.len() == 0
    &&& items.last()->User_attachments.len() > 0
}

/// Prose — a reply, a thought, or the reader's own message — into the item
/// it belongs to.
pub open spec fn fold_text_spec(
    items: Seq<ItemView>,
    index: Seq<(Seq<char>, usize)>,
    roles: Seq<(Seq<char>, Seq<char>)>,
    p: PartView,
    delta: Option<Seq<char>>,
) -> (Seq<ItemView>, Seq<(Seq<char>, usize)>) {
    let role = role_of(roles, p.message_id);
    let full = or_empty(p.text);
    match first_value(index, p.id) {
        Some(idx) => if idx < items.len() {
            (items.update(idx as int, retexted(items[idx as int], delta, full)), index)
        } else {
            (items, index)
        },
        None => if full.len() == 0 && delta is None {
            (items, index)
        } else {
            let text = if full.len() == 0 {
                or_empty(delta)
            } else {
                full
            };
            let last = items.len() - 1;
            if role == "user"@ && echoes(items, index, text) {
                // the echo of the prompt already on screen
                (items, put(index, p.id, last as usize))
            } else if role == "user"@ && awaits_text(items) {
                // a bubble that only has this message's attachments so far
                (
                    items.update(last, ItemView::User { text, attachments: items[last]->User_attachments }),
                    put(index, p.id, last as usize),
                )
            } else {
                let item = if p.kind == "reasoning"@ {
                    ItemView::Thought { message_id: Some(p.id), text }
                } else if role == "user"@ {
                    ItemView::User { text, attachments: Seq::empty() }
                } else {
                    ItemView::Assistant { message_id: Some(p.id), text }
                };
                (items.push(item), put(index, p.id, items.len() as usize))
            }
        },
    }
}

/// What a tool part says of its call: its status (pending until told), its
/// title (else the tool's name, else "tool"), its output, and its id.
pub open spec fn tool_fields(p: PartView) -> (Seq<char>, Seq<char>, Seq<char>, Seq<char>) {
    let (status, title, output) = match p.state {
        Some(s) => (s.0, s.1, s.2),
        None => (None, None, None),
    };
    (
        match status {
            Some(s) => s,
            None => "pending"@,
        },
        match title {
            Some(t) => t,
            None => match p.tool {
                Some(t) => t,
                None => "tool"@,
            },
        },
        or_empty(output),
        match p.call_id {
            Some(c) => c,
            None => p.id,
        },
    )
}

/// A tool call into its card: a known card takes the new title and status,
/// and the output when there is one; an unknown one becomes a new card.
pub open spec fn fold_tool_spec(
    items: Seq<ItemView>,
    index: Seq<(Seq<char>, usize)>,
    p: PartView,
) -> (Seq<ItemView>, Seq<(Seq<char>, usize)>) {
    let (status, title, output, id) = tool_fields(p);
    match first_value(index, p.id) {
        Some(idx) => if idx < items.len() && items[idx as int] is Tool {
            let old = items[idx as int];
            (
                items.update(
                    idx as int,
                    ItemView::Tool {
                        id: old->Tool_id,
                        title,
                        kind: old->Tool_kind,
                        status,
                        output: if output.len() > 0 {
                            output
                        } else {
                            old->Tool_output
                        },
                    },
                ),
                index,
            )
        } else {
            (items, index)
        },
        None => (
            items.push(ItemView::Tool { id, title, kind: "execute"@, status, output }),
            put(index, p.id, items.len() as usize),
        ),
    }
}

/// Whether a bubble already shows a file of this name and weight: the echo
/// of an attachment is not a second copy of it, and a text file comes back
/// declared `text/plain` whatever type the picker gave it, so the type is
/// not compared.
pub open spec fn holds_file(atts: Seq<AttachmentView>, record: AttachmentView) -> bool {
    exists|k: int| 0 <= k < atts.len() && #[trigger] atts[k].name == record.name && atts[k].size == record.size
}

/// An attachment onto the message it was sent with: only the reader's own,
/// each once by name and weight, onto the last bubble when it is the
/// reader's and onto a new one otherwise.
pub open spec fn fold_file_spec(
    items: Seq<ItemView>,
    index: Seq<(Seq<char>, usize)>,
    roles: Seq<(Seq<char>, Seq<char>)>,
    p: PartView,
) -> (Seq<ItemView>, Seq<(Seq<char>, usize)>) {
    if role_of(roles, p.message_id) != "user"@ || first_value(index, p.id) is Some {
        (items, index)
    } else {
        let record = part_spec(p.mime, p.filename, p.url);
        let on_last = items.len() > 0 && items.last() is User;
        let base = if on_last {
            items
        } else {
            items.push(ItemView::User { text: Seq::empty(), attachments: Seq::empty() })
        };
        let idx = base.len() - 1;
        let atts = base[idx]->User_attachments;
        let known = holds_file(atts, record);
        (
            if known {
                base
            } else {
                base.update(idx, ItemView::User { text: base[idx]->User_text, attachments: atts.push(record) })
            },
            put(index, p.id, idx as usize),
        )
    }
}

/// The single folding rule, for history and live updates alike. A part the
/// server wrote on the reader's behalf is the model's context and not the
/// conversation, and a part of a kind with nothing to render changes
/// nothing.
pub open spec fn fold_spec(
    items: Seq<ItemView>,
    index: Seq<(Seq<char>, usize)>,
    roles: Seq<(Seq<char>, Seq<char>)>,
    p: PartView,
    delta: Option<Seq<char>>,
) -> (Seq<ItemView>, Seq<(Seq<char>, usize)>) {
    if p.synthetic {
        (items, index)
    } else if p.kind == "text"@ || p.kind == "reasoning"@ {
        fold_text_spec(items, index, roles, p, delta)
    } else if p.kind == "tool"@ {
        fold_tool_spec(items, index, p)
    } else if p.kind == "file"@ {
        fold_file_spec(items, index, roles, p)
    } else {
        (items, index)
    }
}

fn clone_attachments(v: &Vec<Attachment>) -> (out: Vec<Attachment>)
    ensures
        attachments_view(out@) == attachments_view(v@),
{
    let mut out: Vec<Attachment> = Vec::new();
    let mut k: usize = 0;
    while k < v.len()
        invariant
            k <= v@.len(),
            attachments_view(out@) == attachments_view(v@).take(k as int),
        decreases v.len() - k,
    {
        let a = v[k].clone();
        let ghost before = attachments_view(out@);
        let ghost av = a@;
        out.push(a);
        assert(attachments_view(out@) =~= before.push(av));
        assert(attachments_view(v@).take(k + 1) =~= attachments_view(v@).take(k as int).push(
            attachments_view(v@)[k as int],
        ));
        k += 1;
    }
    assert(attachments_view(v@).take(v@.len() as int) =~= attachments_view(v@));
    out
}

fn clone_opt(o: &Option<String>) -> (r: Option<String>)
    ensures
        opt_view(r) == opt_view(*o),
{
    match o {
        Some(s) => Some(s.clone()),
        None => None,
    }
}

pub(crate) fn put_index<V: View>(index: &mut Vec<(String, V)>, key: &str, v: V)
    ensures
        keyed_view(final(index)@) == put(keyed_view(old(index)@), key@, v@),
{
    let ghost iv = keyed_view(index@);
    match find_key(index, key) {
        Some(j) => {
            proof {
                lemma_first_index_is_first(iv, key@);
            }
            let ghost vv = v@;
            index[j].1 = v;
            assert(keyed_view(index@) =~= iv.update(j as int, (key@, vv)));
        },
        None => {
            let ghost vv = v@;
            index.push((key.to_owned(), v));
            assert(keyed_view(index@) =~= iv.push((key@, vv)));
        },
    }
}

fn is_bound(index: &Vec<(String, usize)>, i: usize) -> (b: bool)
    ensures
        b == bound(keyed_view(index@), i as int),
{
    let ghost iv = keyed_view(index@);
    let mut k: usize = 0;
    while k < index.len()
        invariant
            iv == keyed_view(index@),
            k <= iv.len(),
            forall|q: int| 0 <= q < k ==> #[trigger] iv[q].1 != i,
        decreases index.len() - k,
    {
        assert(iv[k as int].1 == index@[k as int].1);
        if index[k].1 == i {
            return true;
        }
        k += 1;
    }
    false
}

fn index_of(index: &Vec<(String, usize)>, key: &str) -> (r: Option<usize>)
    ensures
        r == first_value(keyed_view(index@), key@),
{
    let ghost iv = keyed_view(index@);
    proof {
        lemma_first_index_is_first(iv, key@);
    }
    match find_key(index, key) {
        Some(j) => {
            assert(iv[j as int] == (index@[j as int].0@, index@[j as int].1));
            Some(index[j].1)
        },
        None => None,
    }
}

fn is_user(roles: &Vec<(String, String)>, message_id: &str) -> (b: bool)
    ensures
        b == (role_of(keyed_view(roles@), message_id@) == "user"@),
{
    let ghost rv = keyed_view(roles@);
    proof {
        lemma_first_index_is_first(rv, message_id@);
        reveal_strlit("user");
        reveal_strlit("assistant");
    }
    match find_key(roles, message_id) {
        Some(j) => {
            assert(rv[j as int] == (roles@[j as int].0@, roles@[j as int].1@));
            same_text(roles[j].1.as_str(), "user")
        },
        None => {
            assert("assistant"@ != "user"@) by {
                assert("assistant"@.len() != "user"@.len());
            }
            false
        },
    }
}

fn next_text(text: &String, delta: Option<&str>, full: &String) -> (t: String)
    ensures
        t@ == (match delta {
            Some(d) => text@ + d@,
            None => full@,
        }),
{
    match delta {
        Some(d) => {
            let mut t = text.clone();
            push_str(&mut t, d);
            t
        },
        None => full.clone(),
    }
}

pub open spec fn str_opt(o: Option<&str>) -> Option<Seq<char>> {
    match o {
        Some(s) => Some(s@),
        None => None,
    }
}

/// An item copied field by field.
pub(crate) fn copy_item(item: &ChatItem) -> (r: ChatItem)
    ensures
        r@ == item@,
{
    match item {
        ChatItem::User { text, attachments } => ChatItem::User {
            text: text.clone(),
            attachments: clone_attachments(attachments),
        },
        ChatItem::Assistant { message_id, text } => ChatItem::Assistant {
            message_id: clone_opt(message_id),
            text: text.clone(),
        },
        ChatItem::Thought { message_id, text } => ChatItem::Thought {
            message_id: clone_opt(message_id),
            text: text.clone(),
        },
        ChatItem::Tool { id, title, kind, status, output } => ChatItem::Tool {
            id: id.clone(),
            title: title.clone(),
            kind: kind.clone(),
            status: status.clone(),
            output: output.clone(),
        },
    }
}

fn retext(item: &ChatItem, delta: Option<&str>, full: &String) -> (r: ChatItem)
    ensures
        r@ == retexted(item@, str_opt(delta), full@),
{
    match item {
        ChatItem::User { text, attachments } => ChatItem::User {
            text: next_text(text, delta, full),
            attachments: clone_attachments(attachments),
        },
        ChatItem::Assistant { message_id, text } => ChatItem::Assistant {
            message_id: clone_opt(message_id),
            text: next_text(text, delta, full),
        },
        ChatItem::Thought { message_id, text } => ChatItem::Thought {
            message_id: clone_opt(message_id),
            text: next_text(text, delta, full),
        },
        ChatItem::Tool { id, title, kind, status, output } => ChatItem::Tool {
            id: id.clone(),
            title: title.clone(),
            kind: kind.clone(),
            status: status.clone(),
            output: output.clone(),
        },
    }
}

/// Prose into the item it belongs to; see `fold_text_spec`.
pub fn fold_text_part(
    items: &mut Vec<ChatItem>,
    part_index: &mut Vec<(String, usize)>,
    roles: &Vec<(String, String)>,
    part: &Part,
    delta: Option<&str>,
)
    ensures
        (items_view(final(items)@), keyed_view(final(part_index)@)) == fold_text_spec(
            items_view(old(items)@),
            keyed_view(old(part_index)@),
            keyed_view(roles@),
            part@,
            str_opt(delta),
        ),
{
    let ghost iv = items_view(items@);
    let ghost xv = keyed_view(part_index@);
    let user = is_user(roles, part.message_id.as_str());
    let full = match &part.text {
        Some(t) => t.clone(),
        None => String::new(),
    };
    match index_of(part_index, part.id.as_str()) {
        Some(idx) => {
            if idx < items.len() {
                let next = retext(&items[idx], delta, &full);
                let ghost nv = next@;
                items[idx] = next;
                assert(items_view(items@) =~= iv.update(idx as int, nv));
            }
            return;
        },
        None => {},
    }
    if full.as_str().unicode_len() == 0 && delta.is_none() {
        return;
    }
    let text = if full.as_str().unicode_len() == 0 {
        match delta {
            Some(d) => d.to_owned(),
            None => String::new(),
        }
    } else {
        full
    };
    let n = items.len();
    if user && n > 0 {
        let last = n - 1;
        let b = is_bound(part_index, last);
        assert(iv.last() == iv[last as int]);
        let (same, fill) = match &items[last] {
            ChatItem::User { text: t, attachments } => (
                same_text(t.as_str(), text.as_str()),
                t.as_str().unicode_len() == 0 && attachments.len() > 0,
            ),
            _ => (false, false),
        };
        assert(same && !b <==> echoes(iv, xv, text@));
        assert(fill <==> awaits_text(iv));
        if same && !b {
            put_index(part_index, part.id.as_str(), last);
            return;
        }
        if fill {
            let atts = match &items[last] {
                ChatItem::User { attachments, .. } => clone_attachments(attachments),
                _ => Vec::new(),
            };
            let ghost av = attachments_view(atts@);
            items[last] = ChatItem::User { text, attachments: atts };
            assert(items_view(items@) =~= iv.update(last as int, ItemView::User { text: text@, attachments: av }));
            put_index(part_index, part.id.as_str(), last);
            return;
        }
    }
    let item = if same_text(part.kind.as_str(), "reasoning") {
        ChatItem::Thought { message_id: Some(part.id.clone()), text }
    } else if user {
        let none: Vec<Attachment> = Vec::new();
        assert(attachments_view(none@) =~= Seq::<AttachmentView>::empty());
        ChatItem::User { text, attachments: none }
    } else {
        ChatItem::Assistant { message_id: Some(part.id.clone()), text }
    };
    let ghost v = item@;
    items.push(item);
    assert(items_view(items@) =~= iv.push(v));
    put_index(part_index, part.id.as_str(), n);
}

fn or_text(o: &Option<String>, dflt: &str) -> (s: String)
    ensures
        s@ == (match opt_view(*o) {
            Some(t) => t,
            None => dflt@,
        }),
{
    match o {
        Some(t) => t.clone(),
        None => dflt.to_owned(),
    }
}

/// A tool call into its card; see `fold_tool_spec`.
fn fold_tool_part(items: &mut Vec<ChatItem>, part_index: &mut Vec<(String, usize)>, part: &Part)
    ensures
        (items_view(final(items)@), keyed_view(final(part_index)@)) == fold_tool_spec(
            items_view(old(items)@),
            keyed_view(old(part_index)@),
            part@,
        ),
{
    let ghost iv = items_view(items@);
    let (status, title, output) = match &part.state {
        Some(st) => (
            or_text(&st.status, "pending"),
            match &st.title {
                Some(t) => t.clone(),
                None => or_text(&part.tool, "tool"),
            },
            or_text(&st.output, ""),
        ),
        None => ("pending".to_owned(), or_text(&part.tool, "tool"), String::new()),
    };
    proof {
        reveal_strlit("");
    }
    let id = or_text(&part.call_id, part.id.as_str());
    assert(status@ == tool_fields(part@).0);
    assert(title@ == tool_fields(part@).1);
    assert(output@ == tool_fields(part@).2);
    assert(id@ == tool_fields(part@).3);
    match index_of(part_index, part.id.as_str()) {
        Some(idx) => {
            if idx < items.len() {
                let next = match &items[idx] {
                    ChatItem::Tool { id: i, kind, output: o, .. } => Some(
                        ChatItem::Tool {
                            id: i.clone(),
                            title,
                            kind: kind.clone(),
                            status,
                            output: if output.as_str().unicode_len() > 0 {
                                output
                            } else {
                                o.clone()
                            },
                        },
                    ),
                    _ => None,
                };
                match next {
                    Some(item) => {
                        let ghost v = item@;
                        items[idx] = item;
                        assert(items_view(items@) =~= iv.update(idx as int, v));
                    },
                    None => {},
                }
            }
        },
        None => {
            let n = items.len();
            let item = ChatItem::Tool { id, title, kind: "execute".to_owned(), status, output };
            let ghost v = item@;
            items.push(item);
            assert(items_view(items@) =~= iv.push(v));
            put_index(part_index, part.id.as_str(), n);
        },
    }
}

fn to_file_part(part: &Part) -> (f: FilePart)
    ensures
        opt_view(f.mime) == part@.mime,
        opt_view(f.filename) == part@.filename,
        opt_view(f.url) == part@.url,
{
    FilePart { mime: clone_opt(&part.mime), filename: clone_opt(&part.filename), url: clone_opt(&part.url) }
}

fn knows(atts: &Vec<Attachment>, name: &String, size: u64) -> (b: bool)
    ensures
        b == exists|k: int|
            0 <= k < attachments_view(atts@).len() && #[trigger] attachments_view(atts@)[k].name == name@
                && attachments_view(atts@)[k].size == size,
{
    let ghost av = attachments_view(atts@);
    let mut k: usize = 0;
    while k < atts.len()
        invariant
            av == attachments_view(atts@),
            k <= av.len(),
            forall|q: int| 0 <= q < k ==> !(#[trigger] av[q].name == name@ && av[q].size == size),
        decreases atts.len() - k,
    {
        assert(av[k as int] == atts@[k as int]@);
        if atts[k].size == size && same_text(atts[k].name.as_str(), name.as_str()) {
            assert(attachments_view(atts@)[k as int].name == name@);
            return true;
        }
        k += 1;
    }
    false
}

/// An attachment onto the message it was sent with; see `fold_file_spec`.
fn fold_file_part(
    items: &mut Vec<ChatItem>,
    part_index: &mut Vec<(String, usize)>,
    roles: &Vec<(String, String)>,
    part: &Part,
)
    ensures
        (items_view(final(items)@), keyed_view(final(part_index)@)) == fold_file_spec(
            items_view(old(items)@),
            keyed_view(old(part_index)@),
            keyed_view(roles@),
            part@,
        ),
{
    let ghost iv = items_view(items@);
    if !is_user(roles, part.message_id.as_str()) {
        return;
    }
    if index_of(part_index, part.id.as_str()).is_some() {
        return;
    }
    let record = from_part(&to_file_part(part));
    let n = items.len();
    let on_last = n > 0 && match &items[n - 1] {
        ChatItem::User { .. } => true,
        _ => false,
    };
    proof {
        if n > 0 {
            assert(iv.last() == iv[n - 1]);
        }
    }
    if !on_last {
        let none: Vec<Attachment> = Vec::new();
        assert(attachments_view(none@) =~= Seq::<AttachmentView>::empty());
        let item = ChatItem::User { text: String::new(), attachments: none };
        let ghost v = item@;
        items.push(item);
        assert(items_view(items@) =~= iv.push(v));
    }
    let ghost base = items_view(items@);
    let idx = items.len() - 1;
    let (known, text, atts) = match &items[idx] {
        ChatItem::User { text, attachments } => (
            knows(attachments, &record.name, record.size),
            text.clone(),
            clone_attachments(attachments),
        ),
        _ => (true, String::new(), Vec::new()),
    };
    if !known {
        let mut atts = atts;
        let ghost before = attachments_view(atts@);
        let ghost rv = record@;
        atts.push(record);
        assert(attachments_view(atts@) =~= before.push(rv));
        let item = ChatItem::User { text, attachments: atts };
        let ghost v = item@;
        items[idx] = item;
        assert(items_view(items@) =~= base.update(idx as int, v));
    }
    put_index(part_index, part.id.as_str(), idx);
}

/// The single folding rule for history and live updates alike: a known
/// part id takes a delta onto its item, or replaces the item's text with
/// the full snapshot; a new part id becomes a new item. `items` only grows,
/// by one at most, and `part_index` says which item each part went to.
pub fn fold_part_into(
    items: &mut Vec<ChatItem>,
    part_index: &mut Vec<(String, usize)>,
    roles: &Vec<(String, String)>,
    part: &Part,
    delta: Option<&str>,
)
    ensures
        (items_view(final(items)@), keyed_view(final(part_index)@)) == fold_spec(
            items_view(old(items)@),
            keyed_view(old(part_index)@),
            keyed_view(roles@),
            part@,
            str_opt(delta),
        ),
{
    if part.synthetic {
        return;
    }
    if same_text(part.kind.as_str(), "text") || same_text(part.kind.as_str(), "reasoning") {
        fold_text_part(items, part_index, roles, part, delta);
    } else if same_text(part.kind.as_str(), "tool") {
        fold_tool_part(items, part_index, part);
    } else if same_text(part.kind.as_str(), "file") {
        fold_file_part(items, part_index, roles, part);
    }
}

// ---- a chat's transcript -------------------------------------------------------

/// What a code chat folds its parts into.
pub struct Transcript {
    pub items: Vec<ChatItem>,
    /// Which item each part went to.
    pub part_index: Vec<(String, usize)>,
    /// Message id to its role.
    pub roles: Vec<(String, String)>,
    /// Whether a turn is under way.
    pub running: bool,
}

/// A streamed part of one of these kinds means the turn is alive.
pub open spec fn live_kind(kind: Seq<char>) -> bool {
    kind == "text"@ || kind == "reasoning"@ || kind == "tool"@
}

impl Transcript {
    /// An empty transcript with no turn under way.
    pub fn new() -> (t: Transcript)
        ensures
            t.items@.len() == 0,
            t.part_index@.len() == 0,
            t.roles@.len() == 0,
            !t.running,
    {
        Transcript { items: Vec::new(), part_index: Vec::new(), roles: Vec::new(), running: false }
    }

    /// Fold one streamed part in: text, a thought or a tool call also says
    /// the turn is alive.
    pub fn fold_part(&mut self, part: &Part, delta: Option<&str>)
        ensures
            (items_view(final(self).items@), keyed_view(final(self).part_index@)) == fold_spec(
                items_view(old(self).items@),
                keyed_view(old(self).part_index@),
                keyed_view(old(self).roles@),
                part@,
                str_opt(delta),
            ),
            final(self).roles@ == old(self).roles@,
            final(self).running == (old(self).running || live_kind(part@.kind)),
    {
        if same_text(part.kind.as_str(), "text") || same_text(part.kind.as_str(), "reasoning")
            || same_text(part.kind.as_str(), "tool") {
            self.running = true;
        }
        fold_part_into(&mut self.items, &mut self.part_index, &self.roles, part, delta);
    }
}

/// One message of a history: its id, its role, and its parts in order.
#[derive(Debug, PartialEq, Eq)]
pub struct Message {
    pub id: String,
    pub role: String,
    pub parts: Vec<Part>,
}

pub open spec fn parts_view(v: Seq<Part>) -> Seq<PartView> {
    v.map_values(|p: Part| p@)
}

/// A transcript's items, index and roles, as values.
pub type Folded = (Seq<ItemView>, Seq<(Seq<char>, usize)>, Seq<(Seq<char>, Seq<char>)>);

/// The transcript after `parts` are folded in order, none of them a delta.
pub open spec fn fold_parts(t: Folded, parts: Seq<PartView>) -> Folded
    decreases parts.len(),
{
    if parts.len() == 0 {
        t
    } else {
        let before = fold_parts(t, parts.drop_last());
        let (items, index) = fold_spec(before.0, before.1, before.2, parts.last(), None);
        (items, index, before.2)
    }
}

/// The transcript a history folds to: each message's role learned, then
/// its parts folded.
pub open spec fn history_spec(msgs: Seq<(Seq<char>, Seq<char>, Seq<PartView>)>) -> Folded
    decreases msgs.len(),
{
    if msgs.len() == 0 {
        (Seq::empty(), Seq::empty(), Seq::empty())
    } else {
        let before = history_spec(msgs.drop_last());
        let m = msgs.last();
        fold_parts((before.0, before.1, put(before.2, m.0, m.1)), m.2)
    }
}

pub open spec fn messages_view(v: Seq<Message>) -> Seq<(Seq<char>, Seq<char>, Seq<PartView>)> {
    v.map_values(|m: Message| (m.id@, m.role@, parts_view(m.parts@)))
}

/// A whole history folded into a transcript. No turn is taken to be under
/// way: completion arrives on the event stream, not in the message list,
/// and the stream corrects this.
pub fn fold_history(msgs: &Vec<Message>) -> (t: Transcript)
    ensures
        (items_view(t.items@), keyed_view(t.part_index@), keyed_view(t.roles@)) == history_spec(
            messages_view(msgs@),
        ),
        !t.running,
{
    let ghost mv = messages_view(msgs@);
    let mut t = Transcript::new();
    let mut i: usize = 0;
    assert(mv.take(0) =~= Seq::<(Seq<char>, Seq<char>, Seq<PartView>)>::empty());
    assert(items_view(t.items@) =~= Seq::<ItemView>::empty());
    assert(keyed_view(t.part_index@) =~= Seq::<(Seq<char>, usize)>::empty());
    assert(keyed_view(t.roles@) =~= Seq::<(Seq<char>, Seq<char>)>::empty());
    while i < msgs.len()
        invariant
            mv == messages_view(msgs@),
            i <= mv.len(),
            !t.running,
            (items_view(t.items@), keyed_view(t.part_index@), keyed_view(t.roles@)) == history_spec(
                mv.take(i as int),
            ),
        decreases msgs.len() - i,
    {
        let msg = &msgs[i];
        let ghost before = (items_view(t.items@), keyed_view(t.part_index@), keyed_view(t.roles@));
        put_index(&mut t.roles, msg.id.as_str(), msg.role.clone());
        let ghost start = (items_view(t.items@), keyed_view(t.part_index@), keyed_view(t.roles@));
        let ghost pv = parts_view(msg.parts@);
        let mut k: usize = 0;
        assert(pv.take(0) =~= Seq::<PartView>::empty());
        while k < msg.parts.len()
            invariant
                pv == parts_view(msg.parts@),
                k <= pv.len(),
                !t.running,
                keyed_view(t.roles@) == start.2,
                (items_view(t.items@), keyed_view(t.part_index@), keyed_view(t.roles@)) == fold_parts(
                    start,
                    pv.take(k as int),
                ),
            decreases msg.parts.len() - k,
        {
            assert(pv.take(k + 1).drop_last() =~= pv.take(k as int));
            assert(pv.take(k + 1).last() == msg.parts@[k as int]@);
            fold_part_into(&mut t.items, &mut t.part_index, &t.roles, &msg.parts[k], None);
            k += 1;
        }
        assert(pv.take(pv.len() as int) =~= pv);
        assert(mv.take(i + 1).drop_last() =~= mv.take(i as int));
        assert(mv.take(i + 1).last() == mv[i as int]);
        i += 1;
    }
    assert(mv.take(mv.len() as int) =~= mv);
    t
}

// ---- laws ----------------------------------------------------------------------

proof fn lemma_put_finds<V>(index: Seq<(Seq<char>, V)>, key: Seq<char>, v: V)
    ensures
        first_value(put(index, key, v), key) == Some(v),
{
    match first_index(index, key) {
        Some(j) => lemma_first_update(index, key, j, v, key),
        None => lemma_first_push(index, key, v, key),
    }
}

/// History and the stream send the same snapshot of a part again and again:
/// folding a snapshot a second time changes nothing the first did not.
pub proof fn law_a_snapshot_folded_twice_is_folded_once(
    items: Seq<ItemView>,
    index: Seq<(Seq<char>, usize)>,
    roles: Seq<(Seq<char>, Seq<char>)>,
    p: PartView,
)
    requires
        items.len() < usize::MAX,
    ensures
        ({
            let once = fold_spec(items, index, roles, p, None);
            fold_spec(once.0, once.1, roles, p, None) == once
        }),
{
    let once = fold_spec(items, index, roles, p, None);
    let full = or_empty(p.text);
    if !p.synthetic {
        if p.kind == "text"@ || p.kind == "reasoning"@ {
            match first_value(index, p.id) {
                Some(idx) => {
                    if idx < items.len() {
                        assert(once.0[idx as int] == retexted(items[idx as int], None, full));
                        assert(once.0.update(idx as int, retexted(once.0[idx as int], None, full)) =~= once.0);
                    }
                },
                None => {
                    if !(full.len() == 0) {
                        let role = role_of(roles, p.message_id);
                        if role == "user"@ && echoes(items, index, full) {
                            lemma_put_finds(index, p.id, (items.len() - 1) as usize);
                            assert(once.0 =~= items);
                            assert(once.0.update(items.len() - 1, retexted(once.0[items.len() - 1], None, full)) =~= once.0);
                        } else if role == "user"@ && awaits_text(items) {
                            lemma_put_finds(index, p.id, (items.len() - 1) as usize);
                            let last = items.len() - 1;
                            assert(once.0.update(last, retexted(once.0[last], None, full)) =~= once.0);
                        } else {
                            lemma_put_finds(index, p.id, items.len() as usize);
                            let n = items.len() as int;
                            assert(once.0[n] == once.0.last());
                            assert(once.0.update(n, retexted(once.0[n], None, full)) =~= once.0);
                        }
                    }
                },
            }
        } else if p.kind == "tool"@ {
            let (status, title, output, id) = tool_fields(p);
            match first_value(index, p.id) {
                Some(idx) => {
                    if idx < items.len() && items[idx as int] is Tool {
                        let t = once.0[idx as int];
                        assert(once.0.update(
                            idx as int,
                            ItemView::Tool {
                                id: t->Tool_id,
                                title,
                                kind: t->Tool_kind,
                                status,
                                output: if output.len() > 0 {
                                    output
                                } else {
                                    t->Tool_output
                                },
                            },
                        ) =~= once.0);
                    }
                },
                None => {
                    lemma_put_finds(index, p.id, items.len() as usize);
                    let n = items.len() as int;
                    let t = once.0[n];
                    assert(once.0.update(
                        n,
                        ItemView::Tool {
                            id: t->Tool_id,
                            title,
                            kind: t->Tool_kind,
                            status,
                            output: if output.len() > 0 {
                                output
                            } else {
                                t->Tool_output
                            },
                        },
                    ) =~= once.0);
                },
            }
        } else if p.kind == "file"@ {
            if !(role_of(roles, p.message_id) != "user"@ || first_value(index, p.id) is Some) {
                let on_last = items.len() > 0 && items.last() is User;
                let base = if on_last {
                    items
                } else {
                    items.push(ItemView::User { text: Seq::empty(), attachments: Seq::empty() })
                };
                lemma_put_finds(index, p.id, (base.len() - 1) as usize);
            }
        }
    }
}

/// A fold never takes an item away, and adds one at most.
pub proof fn law_a_fold_adds_one_item_at_most(
    items: Seq<ItemView>,
    index: Seq<(Seq<char>, usize)>,
    roles: Seq<(Seq<char>, Seq<char>)>,
    p: PartView,
    delta: Option<Seq<char>>,
)
    ensures
        items.len() <= fold_spec(items, index, roles, p, delta).0.len() <= items.len() + 1,
{
}

/// The prompt is on screen the moment it is sent, and the server streams the
/// same message back: the echo is bound to the bubble already there instead
/// of drawing the prompt twice.
pub proof fn law_the_echo_of_a_prompt_is_adopted(
    items: Seq<ItemView>,
    index: Seq<(Seq<char>, usize)>,
    roles: Seq<(Seq<char>, Seq<char>)>,
    p: PartView,
)
    requires
        !p.synthetic,
        p.kind == "text"@,
        role_of(roles, p.message_id) == "user"@,
        first_value(index, p.id) is None,
        or_empty(p.text).len() > 0,
        echoes(items, index, or_empty(p.text)),
    ensures
        fold_spec(items, index, roles, p, None).0 == items,
        first_value(fold_spec(items, index, roles, p, None).1, p.id) == Some((items.len() - 1) as usize),
{
    lemma_put_finds(index, p.id, (items.len() - 1) as usize);
}

/// A streamed delta for a part already in the transcript is appended to its
/// item's text; nothing else moves.
pub proof fn law_a_known_part_takes_its_delta(
    items: Seq<ItemView>,
    index: Seq<(Seq<char>, usize)>,
    roles: Seq<(Seq<char>, Seq<char>)>,
    p: PartView,
    d: Seq<char>,
    idx: usize,
)
    requires
        !p.synthetic,
        p.kind == "text"@ || p.kind == "reasoning"@,
        first_value(index, p.id) == Some(idx),
        idx < items.len(),
        items[idx as int] matches ItemView::Assistant { .. },
    ensures
        fold_spec(items, index, roles, p, Some(d)).0 == items.update(
            idx as int,
            ItemView::Assistant {
                message_id: items[idx as int]->Assistant_message_id,
                text: items[idx as int]->Assistant_text + d,
            },
        ),
        fold_spec(items, index, roles, p, Some(d)).1 == index,
{
}

/// A tool call's card always says where the call stands now: after its
/// part is folded, the part is bound to a card, and that card — new or
/// already on screen — carries the title the part states (its state's
/// title, else the tool's name, else "tool") and its status (pending until
/// told).
pub proof fn law_a_tool_card_takes_its_latest_title_and_status(
    items: Seq<ItemView>,
    index: Seq<(Seq<char>, usize)>,
    roles: Seq<(Seq<char>, Seq<char>)>,
    p: PartView,
    delta: Option<Seq<char>>,
)
    requires
        !p.synthetic,
        p.kind == "tool"@,
        items.len() < usize::MAX,
    ensures
        ({
            let (after, bound) = fold_spec(items, index, roles, p, delta);
            let title = match p.state {
                Some((_, Some(t), _)) => t,
                _ => match p.tool {
                    Some(name) => name,
                    None => "tool"@,
                },
            };
            let status = match p.state {
                Some((Some(st), _, _)) => st,
                _ => "pending"@,
            };
            &&& first_value(bound, p.id) is Some
            &&& first_value(index, p.id) is None ==> after[first_value(bound, p.id)->0 as int] is Tool
            &&& forall|idx: usize|
                first_value(bound, p.id) == Some(idx) && idx < after.len() && after[idx as int] is Tool
                    ==> after[idx as int]->Tool_title == title && after[idx as int]->Tool_status == status
        }),
{
    reveal_strlit("tool");
    reveal_strlit("text");
    reveal_strlit("reasoning");
    assert(p.kind[1] != "text"@[1]);
    assert(p.kind.len() != "reasoning"@.len());
    assert(p.kind != "text"@ && p.kind != "reasoning"@);
    assert(fold_spec(items, index, roles, p, delta) == fold_tool_spec(items, index, p));
    lemma_first_index_is_first(index, p.id);
    match first_value(index, p.id) {
        Some(idx) => {
            let after = fold_tool_spec(items, index, p).0;
            if idx < items.len() && items[idx as int] is Tool {
                assert(after[idx as int] is Tool);
            } else {
                assert(after == items);
            }
        },
        None => {
            let v = items.len() as usize;
            assert(v == items.len());
            assert(put(index, p.id, v) == index.push((p.id, v)));
            crate::keyed::lemma_first_value_push(index, (p.id, v), p.id);
            assert(first_value(fold_tool_spec(items, index, p).1, p.id) == Some(v));
            assert(fold_tool_spec(items, index, p).0[v as int] is Tool);
        },
    }
}

} // verus!
