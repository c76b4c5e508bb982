//! Attaching an image or a file to the message about to be sent.
//!
//! Both backends already carry attachments; the work here is what neither
//! protocol does: keeping what one message carries to a size a tailnet round
//! trip survives, refusing the rest by name, keeping each pick in the tray of
//! the conversation it was made in, and deciding what the transcript
//! remembers afterwards — a thumbnail, never the payload.

use vstd::prelude::*;

use crate::text::{chars_of, decimal, decimal_string, holds_at, push_str, same_text, starts_at};

verus! {

broadcast use vstd::string::group_string_axioms;

/// How many files one message may carry.
pub const MAX_ATTACHMENTS: usize = 6;

/// The most one attachment may weigh after any downscaling, in decimal
/// bytes, the way the phone states a file's size.
pub const MAX_FILE_BYTES: u64 = 4_000_000;

/// The most one message may weigh altogether.
pub const MAX_TOTAL_BYTES: u64 = 8_000_000;

/// Longest side an attached image is resized to before it is sent.
pub const IMAGE_EDGE: u32 = 1280;

/// Second try, for an image still over the cap at `IMAGE_EDGE`.
pub const RETRY_EDGE: u32 = 800;

/// Longest side of the thumbnail kept in the transcript.
pub const THUMB_EDGE: u32 = 192;

/// The most base64, in bytes, a transcript item keeps as a thumbnail.
pub const THUMB_MAX_CHARS: usize = 24_000;

/// The conversation key of the new-session composer, which has no chat yet.
pub const NEW_CONVERSATION: &'static str = "new";

/// Which composer a pick belongs to.
#[derive(Clone, Copy, Debug, PartialEq, Eq, Structural)]
pub enum AttachTarget {
    Goose,
    Code,
}

pub open spec fn target_name(t: AttachTarget) -> Seq<char> {
    match t {
        AttachTarget::Goose => "goose"@,
        AttachTarget::Code => "code"@,
    }
}

impl AttachTarget {
    /// The composer a name stands for, read as characters.
    pub open spec fn parse_spec(raw: Seq<char>) -> Option<AttachTarget> {
        if raw == "goose"@ {
            Some(AttachTarget::Goose)
        } else if raw == "code"@ {
            Some(AttachTarget::Code)
        } else {
            None
        }
    }

    /// The name the picker script carries for this composer.
    pub fn as_str(self) -> (s: &'static str)
        ensures
            s@ == target_name(self),
    {
        match self {
            AttachTarget::Goose => "goose",
            AttachTarget::Code => "code",
        }
    }

    /// The composer a name stands for, if any.
    pub fn parse(raw: &str) -> (r: Option<AttachTarget>)
        ensures
            r == AttachTarget::parse_spec(raw@),
    {
        if same_text(raw, "goose") {
            Some(AttachTarget::Goose)
        } else if same_text(raw, "code") {
            Some(AttachTarget::Code)
        } else {
            None
        }
    }
}

/// What kind of thing an attachment is, as far as the two protocols care.
#[derive(Clone, Copy, Debug, PartialEq, Eq, Structural)]
pub enum AttachKind {
    Image,
    Text,
    Binary,
}

/// The kind a mime type names.
pub open spec fn kind_spec(mime: Seq<char>) -> AttachKind {
    if holds_at(mime, 0, "image/"@) {
        AttachKind::Image
    } else if holds_at(mime, 0, "text/"@) || mime == "application/json"@ || mime
        == "application/xml"@ {
        AttachKind::Text
    } else {
        AttachKind::Binary
    }
}

/// Whether `s` begins with `prefix`.
fn begins(s: &str, prefix: &str) -> (b: bool)
    ensures
        b == holds_at(s@, 0, prefix@),
{
    let cs = chars_of(s);
    let p = chars_of(prefix);
    starts_at(&cs, 0, &p)
}

/// The kind of attachment a mime type names.
pub fn kind_of(mime: &str) -> (k: AttachKind)
    ensures
        k == kind_spec(mime@),
{
    if begins(mime, "image/") {
        AttachKind::Image
    } else if begins(mime, "text/") || same_text(mime, "application/json") || same_text(
        mime,
        "application/xml",
    ) {
        AttachKind::Text
    } else {
        AttachKind::Binary
    }
}

/// The UTF-8 bytes of a text.
pub open spec fn utf8_bytes(s: Seq<char>) -> Seq<u8> {
    vstd::utf8::encode_utf8(s)
}

/// How many `=` bytes end `b`.
pub open spec fn trailing_pad(b: Seq<u8>) -> nat
    decreases b.len(),
{
    if b.len() > 0 && b.last() == 61u8 {
        1 + trailing_pad(b.drop_last())
    } else {
        0
    }
}

/// The bytes behind a base64 text of these bytes: four characters carry
/// three bytes, and the padding carries none.
pub open spec fn base64_weight(b: Seq<u8>) -> nat {
    ((b.len() - trailing_pad(b)) as nat * 3 / 4) as nat
}

proof fn lemma_pad_bound(b: Seq<u8>)
    ensures
        trailing_pad(b) <= b.len(),
    decreases b.len(),
{
    if b.len() > 0 && b.last() == 61u8 {
        lemma_pad_bound(b.drop_last());
    }
}

/// The bytes behind a base64 string, without decoding it. Every size this
/// module reports comes from here, so a chip states what travelled rather
/// than what was picked.
pub fn base64_len_to_bytes(data: &str) -> (n: u64)
    ensures
        n == base64_weight(utf8_bytes(data@)),
{
    let bytes = data.as_bytes();
    let ghost b = utf8_bytes(data@);
    let mut end = bytes.len();
    proof {
        lemma_pad_bound(b);
    }
    assert(b.take(end as int) =~= b);
    while end > 0 && bytes[end - 1] == 61u8
        invariant
            bytes@ == b,
            end <= b.len(),
            trailing_pad(b) == (b.len() - end) + trailing_pad(b.take(end as int)),
        decreases end,
    {
        assert(b.take(end as int).drop_last() =~= b.take(end - 1));
        end -= 1;
    }
    assert(trailing_pad(b.take(end as int)) == 0) by {
        if end > 0 {
            assert(b.take(end as int).last() == bytes@[end - 1]);
        }
    }
    let len = end as u64;
    let q = len / 4;
    let r = len % 4;
    assert(len * 3 / 4 == q * 3 + r * 3 / 4) by (nonlinear_arith)
        requires
            q == len / 4,
            r == len % 4,
    ;
    q * 3 + r * 3 / 4
}

/// What the transcript remembers about one attachment.
#[derive(Debug, PartialEq, Eq)]
pub struct Attachment {
    pub name: String,
    pub mime: String,
    /// Size of what was sent, in bytes; zero when it is not known.
    pub size: u64,
    /// Base64 JPEG thumbnail, or empty for anything without a picture.
    pub thumb: String,
}

/// An attachment read as characters.
pub struct AttachmentView {
    pub name: Seq<char>,
    pub mime: Seq<char>,
    pub size: u64,
    pub thumb: Seq<char>,
}

impl View for Attachment {
    type V = AttachmentView;

    open spec fn view(&self) -> AttachmentView {
        AttachmentView { name: self.name@, mime: self.mime@, size: self.size, thumb: self.thumb@ }
    }
}

impl Clone for Attachment {
    fn clone(&self) -> (r: Attachment)
        ensures
            r@ == self@,
    {
        Attachment {
            name: self.name.clone(),
            mime: self.mime.clone(),
            size: self.size,
            thumb: self.thumb.clone(),
        }
    }
}

impl Attachment {
    /// An attachment with nothing known about it.
    pub fn empty() -> (a: Attachment)
        ensures
            a@ == (AttachmentView {
                name: Seq::empty(),
                mime: Seq::empty(),
                size: 0,
                thumb: Seq::empty(),
            }),
    {
        Attachment { name: String::new(), mime: String::new(), size: 0, thumb: String::new() }
    }

    /// What kind of thing this is.
    pub fn kind(&self) -> (k: AttachKind)
        ensures
            k == kind_spec(self.mime@),
    {
        kind_of(self.mime.as_str())
    }

    /// What identifies this file across a history reload: its name and its
    /// size. Name alone is not enough — every camera photo is `image.jpg` —
    /// and mime is the one field a round trip does not keep.
    pub fn identity(&self) -> (id: (String, u64))
        ensures
            id.0@ == self.name@,
            id.1 == self.size,
    {
        (self.name.clone(), self.size)
    }
}

/// The payload, kept only when it is already thumbnail-sized.
pub open spec fn small(data: Seq<char>) -> Seq<char> {
    if utf8_bytes(data).len() <= THUMB_MAX_CHARS {
        data
    } else {
        Seq::empty()
    }
}

/// The payload, but only if it is small enough to be a thumbnail.
/// The payload, kept only when it is already thumbnail-sized.
pub fn small_thumb(data: &str) -> (s: String)
    ensures
        s@ == small(data@),
{
    if data.as_bytes().len() <= THUMB_MAX_CHARS {
        data.to_owned()
    } else {
        String::new()
    }
}

/// Whether `c` separates the segments of a URI, for naming.
pub open spec fn uri_sep(c: char) -> bool {
    c == '/' || c == ':'
}

/// The last non-empty segment of `s` between separators, if any.
pub open spec fn last_segment(s: Seq<char>) -> Option<Seq<char>>
    decreases s.len(),
{
    if s.len() == 0 {
        None
    } else if uri_sep(s.last()) {
        last_segment(s.drop_last())
    } else {
        Some(segment_tail(s))
    }
}

/// The characters after the last separator of `s`.
pub open spec fn segment_tail(s: Seq<char>) -> Seq<char>
    decreases s.len(),
{
    if s.len() == 0 || uri_sep(s.last()) {
        Seq::empty()
    } else {
        segment_tail(s.drop_last()).push(s.last())
    }
}

/// The name to show for something whose only name is where it came from.
pub open spec fn display_name_spec(uri: Seq<char>) -> Seq<char> {
    if uri.len() == 0 || holds_at(uri, 0, "data:"@) {
        "Attachment"@
    } else {
        match last_segment(uri) {
            Some(seg) => seg,
            None => uri,
        }
    }
}

/// The last path-ish segment of a URI; a `data:` URL, which has no name at
/// all, gets a word.
pub fn display_name(uri: &str) -> (s: String)
    ensures
        s@ == display_name_spec(uri@),
{
    let cs = chars_of(uri);
    if cs.len() == 0 || begins(uri, "data:") {
        return "Attachment".to_owned();
    }
    let mut end = cs.len();
    assert(cs@.take(end as int) =~= cs@);
    while end > 0 && (cs[end - 1] == '/' || cs[end - 1] == ':')
        invariant
            cs@ == uri@,
            end <= cs@.len(),
            last_segment(uri@) == last_segment(cs@.take(end as int)),
        decreases end,
    {
        assert(cs@.take(end as int).drop_last() =~= cs@.take(end - 1));
        end -= 1;
    }
    if end == 0 {
        assert(cs@.take(0) =~= Seq::<char>::empty());
        return uri.to_owned();
    }
    let mut start = end;
    assert(cs@.subrange(end as int, end as int) =~= Seq::<char>::empty());
    while start > 0 && cs[start - 1] != '/' && cs[start - 1] != ':'
        invariant
            cs@ == uri@,
            0 < end <= cs@.len(),
            start <= end,
            !uri_sep(cs@[end - 1]),
            segment_tail(cs@.take(end as int)) == segment_tail(cs@.take(start as int)) + cs@.subrange(
                start as int,
                end as int,
            ),
        decreases start,
    {
        assert(cs@.take(start as int).drop_last() =~= cs@.take(start - 1));
        assert(cs@.subrange(start - 1, end as int) =~= seq![cs@[start - 1]] + cs@.subrange(
            start as int,
            end as int,
        ));
        assert(segment_tail(cs@.take(start as int)) == segment_tail(cs@.take(start - 1)).push(
            cs@[start - 1],
        ));
        assert(segment_tail(cs@.take(start - 1)).push(cs@[start - 1]) + cs@.subrange(
            start as int,
            end as int,
        ) =~= segment_tail(cs@.take(start - 1)) + cs@.subrange(start - 1, end as int));
        start -= 1;
    }
    assert(segment_tail(cs@.take(start as int)) =~= Seq::<char>::empty()) by {
        if start > 0 {
            assert(cs@.take(start as int).last() == cs@[start - 1]);
        } else {
            assert(cs@.take(0) =~= Seq::<char>::empty());
        }
    }
    assert(segment_tail(cs@.take(start as int)) + cs@.subrange(start as int, end as int)
        =~= cs@.subrange(start as int, end as int));
    assert(cs@.take(end as int).last() == cs@[end - 1]);
    crate::text::string_of(&cs, start, end)
}

// ---- the composer's tray ---------------------------------------------------

/// A file picked in the composer and not yet sent.
#[derive(Debug, PartialEq, Eq)]
pub struct PendingAttachment {
    pub record: Attachment,
    /// Base64 of the bytes that will be sent.
    pub data: String,
    /// The decoded contents, for a text file.
    pub text: Option<String>,
}

/// A pending attachment read as characters.
pub struct PendingView {
    pub record: AttachmentView,
    pub data: Seq<char>,
    pub text: Option<Seq<char>>,
}

pub open spec fn opt_view(o: Option<String>) -> Option<Seq<char>> {
    match o {
        Some(s) => Some(s@),
        None => None,
    }
}

impl View for PendingAttachment {
    type V = PendingView;

    open spec fn view(&self) -> PendingView {
        PendingView { record: self.record@, data: self.data@, text: opt_view(self.text) }
    }
}

/// One file as the picker script hands it back.
#[derive(Debug, PartialEq, Eq)]
pub struct PickedFile {
    pub name: String,
    pub mime: String,
    pub data: String,
    pub thumb: String,
    pub text: Option<String>,
}

impl vstd::std_specs::convert::FromSpecImpl<PickedFile> for PendingAttachment {
    open spec fn obeys_from_spec() -> bool {
        true
    }

    open spec fn from_spec(file: PickedFile) -> PendingAttachment {
        PendingAttachment {
            record: Attachment {
                name: file.name,
                mime: file.mime,
                size: base64_weight(utf8_bytes(file.data@)) as u64,
                thumb: file.thumb,
            },
            data: file.data,
            text: file.text,
        }
    }
}

impl From<PickedFile> for PendingAttachment {
    /// A picked file, weighed by the payload it carries.
    fn from(file: PickedFile) -> (r: PendingAttachment) {
        let size = base64_len_to_bytes(file.data.as_str());
        PendingAttachment {
            record: Attachment { name: file.name, mime: file.mime, size, thumb: file.thumb },
            data: file.data,
            text: file.text,
        }
    }
}

/// A refusal from the picker script: the file, and why.
#[derive(Debug, PartialEq, Eq)]
pub struct PickedRejection {
    pub name: String,
    pub reason: String,
    pub bytes: u64,
    pub mime: String,
}

/// A pick the browser is still reading.
#[derive(Debug, PartialEq, Eq)]
pub struct Pick {
    pub id: u64,
    pub target: AttachTarget,
    pub conversation: String,
    pub count: usize,
}

/// A pick read as characters.
pub struct PickView {
    pub id: u64,
    pub target: AttachTarget,
    pub conversation: Seq<char>,
    pub count: usize,
}

impl View for Pick {
    type V = PickView;

    open spec fn view(&self) -> PickView {
        PickView {
            id: self.id,
            target: self.target,
            conversation: self.conversation@,
            count: self.count,
        }
    }
}

pub open spec fn picks_view(v: Seq<Pick>) -> Seq<PickView> {
    v.map_values(|p: Pick| p@)
}

/// The reads in flight after one message from the picker: "reading n"
/// opens a row for this pick (none for a pick of nothing), and a result
/// closes this pick's rows and no other's.
pub open spec fn track_spec(
    picks: Seq<PickView>,
    id: u64,
    target: AttachTarget,
    conversation: Seq<char>,
    reading: Option<usize>,
) -> Seq<PickView> {
    match reading {
        Some(count) => if count > 0 {
            picks.push(PickView { id, target, conversation, count })
        } else {
            picks
        },
        None => picks.filter(|p: PickView| p.id != id),
    }
}

/// Fold one message from the picker into the reads still in flight, keyed
/// on the pick's own id so that a result ends its own read and no other.
pub fn track(
    picks: &mut Vec<Pick>,
    id: u64,
    target: AttachTarget,
    conversation: &str,
    reading: Option<usize>,
)
    ensures
        picks_view(final(picks)@) == track_spec(
            picks_view(old(picks)@),
            id,
            target,
            conversation@,
            reading,
        ),
{
    match reading {
        Some(count) => {
            if count > 0 {
                let ghost before = picks_view(picks@);
                picks.push(Pick { id, target, conversation: conversation.to_owned(), count });
                assert(picks_view(picks@) =~= before.push(
                    PickView { id, target, conversation: conversation@, count },
                ));
            }
        },
        None => {
            let ghost pv = picks_view(picks@);
            let ghost keep = |p: PickView| p.id != id;
            let mut kept: Vec<Pick> = Vec::new();
            let mut k: usize = 0;
            assert(pv.take(0).filter(keep) =~= Seq::<PickView>::empty());
            assert(picks_view(kept@) =~= Seq::<PickView>::empty());
            while k < picks.len()
                invariant
                    pv == picks_view(picks@),
                    keep == (|p: PickView| p.id != id),
                    k <= pv.len(),
                    picks_view(kept@) == pv.take(k as int).filter(keep),
                decreases picks.len() - k,
            {
                proof {
                    crate::seqs::lemma_filter_step(pv, keep, k as int);
                }
                if picks[k].id != id {
                    let ghost before = picks_view(kept@);
                    let p = &picks[k];
                    kept.push(
                        Pick {
                            id: p.id,
                            target: p.target,
                            conversation: p.conversation.clone(),
                            count: p.count,
                        },
                    );
                    assert(picks_view(kept@) =~= before.push(pv[k as int]));
                }
                k += 1;
            }
            assert(pv.take(pv.len() as int) =~= pv);
            *picks = kept;
        },
    }
}

/// The files the picks of one composer in one conversation are reading.
pub open spec fn reading_sum(picks: Seq<PickView>, target: AttachTarget, conversation: Seq<char>) -> nat
    decreases picks.len(),
{
    if picks.len() == 0 {
        0
    } else {
        let last = picks.last();
        reading_sum(picks.drop_last(), target, conversation) + if last.target == target
            && last.conversation == conversation {
            last.count as nat
        } else {
            0
        }
    }
}

/// How many files a composer should say it is reading: summed over the
/// picks made in this conversation, so overlapping picks are one honest
/// count and a pick made in a chat since left says nothing here.
pub fn reading_for(picks: &Vec<Pick>, target: AttachTarget, conversation: &str) -> (n: usize)
    requires
        reading_sum(picks_view(picks@), target, conversation@) <= usize::MAX,
    ensures
        n == reading_sum(picks_view(picks@), target, conversation@),
{
    let ghost pv = picks_view(picks@);
    let mut n: usize = 0;
    let mut k: usize = 0;
    assert(pv.take(0) =~= Seq::<PickView>::empty());
    while k < picks.len()
        invariant
            pv == picks_view(picks@),
            k <= pv.len(),
            n == reading_sum(pv.take(k as int), target, conversation@),
            reading_sum(pv, target, conversation@) <= usize::MAX,
        decreases picks.len() - k,
    {
        assert(pv.take(k + 1).drop_last() =~= pv.take(k as int));
        proof {
            lemma_reading_sum_prefix(pv, target, conversation@, k + 1);
        }
        if picks[k].target == target && same_text(picks[k].conversation.as_str(), conversation) {
            n = n + picks[k].count;
        }
        k += 1;
    }
    assert(pv.take(pv.len() as int) =~= pv);
    n
}

proof fn lemma_reading_sum_prefix(
    picks: Seq<PickView>,
    target: AttachTarget,
    conversation: Seq<char>,
    k: int,
)
    requires
        0 <= k <= picks.len(),
    ensures
        reading_sum(picks.take(k), target, conversation) <= reading_sum(picks, target, conversation),
    decreases picks.len() - k,
{
    if k < picks.len() {
        lemma_reading_sum_prefix(picks, target, conversation, k + 1);
        assert(picks.take(k + 1).drop_last() =~= picks.take(k));
    } else {
        assert(picks.take(k) =~= picks);
    }
}

/// The conversation a composer's picks belong to: the goose session, the
/// new-session screen's own key, or the open code chat.
pub open spec fn conversation_spec(
    target: AttachTarget,
    goose_session: Option<Seq<char>>,
    code_on_new_screen: bool,
    code_chat: Option<Seq<char>>,
) -> Seq<char> {
    match target {
        AttachTarget::Goose => match goose_session {
            Some(s) => s,
            None => Seq::empty(),
        },
        AttachTarget::Code => if code_on_new_screen {
            NEW_CONVERSATION@
        } else {
            match code_chat {
                Some(c) => c,
                None => Seq::empty(),
            }
        },
    }
}

pub open spec fn str_opt(o: Option<&str>) -> Option<Seq<char>> {
    match o {
        Some(s) => Some(s@),
        None => None,
    }
}

/// The conversation a composer's picks belong to. The new-session composer
/// has no chat yet and is its own conversation until it becomes one.
pub fn conversation_key(
    target: AttachTarget,
    goose_session: Option<&str>,
    code_on_new_screen: bool,
    code_chat: Option<&str>,
) -> (k: String)
    ensures
        k@ == conversation_spec(target, str_opt(goose_session), code_on_new_screen, str_opt(code_chat)),
{
    match target {
        AttachTarget::Goose => match goose_session {
            Some(s) => s.to_owned(),
            None => String::new(),
        },
        AttachTarget::Code => {
            if code_on_new_screen {
                NEW_CONVERSATION.to_owned()
            } else {
                match code_chat {
                    Some(c) => c.to_owned(),
                    None => String::new(),
                }
            }
        },
    }
}

/// The three trays a pick can land in.
#[derive(Clone, Copy, Debug, PartialEq, Eq, Structural)]
pub enum Tray {
    Goose,
    Code,
    /// The new-session screen's, kept apart from the last chat's.
    NewChat,
}

pub open spec fn tray_spec(target: AttachTarget, conversation: Seq<char>) -> Tray {
    match target {
        AttachTarget::Goose => Tray::Goose,
        AttachTarget::Code => if conversation == NEW_CONVERSATION@ {
            Tray::NewChat
        } else {
            Tray::Code
        },
    }
}

/// Which tray a pick belongs in: keyed by conversation and not by target
/// alone, so a pick for a session that does not exist yet cannot share a
/// tray with the chat last open.
pub fn tray_of(target: AttachTarget, conversation: &str) -> (t: Tray)
    ensures
        t == tray_spec(target, conversation@),
{
    match target {
        AttachTarget::Goose => Tray::Goose,
        AttachTarget::Code => if same_text(conversation, NEW_CONVERSATION) {
            Tray::NewChat
        } else {
            Tray::Code
        },
    }
}

// ---- the caps ----------------------------------------------------------------

/// Why a file was not attached.
#[derive(Debug, PartialEq, Eq)]
pub enum Refusal {
    /// The message already carries as many files as it may.
    TooMany { name: String },
    /// The file alone is over the per-file cap; `bytes` is what it weighs.
    TooBig { name: String, bytes: u64 },
    /// The file would take the message over its total cap.
    TooHeavy { name: String },
    /// Not an image, a text file or a PDF; `mime` is what it claimed to be.
    Unsupported { name: String, mime: String },
    /// The browser could not read it.
    Unreadable { name: String },
    /// A reason this app does not know, kept as the picker wrote it.
    Other { name: String, reason: String },
}

/// A refusal read as characters.
pub enum RefusalView {
    TooMany { name: Seq<char> },
    TooBig { name: Seq<char>, bytes: u64 },
    TooHeavy { name: Seq<char> },
    Unsupported { name: Seq<char>, mime: Seq<char> },
    Unreadable { name: Seq<char> },
    Other { name: Seq<char>, reason: Seq<char> },
}

impl View for Refusal {
    type V = RefusalView;

    open spec fn view(&self) -> RefusalView {
        match self {
            Refusal::TooMany { name } => RefusalView::TooMany { name: name@ },
            Refusal::TooBig { name, bytes } => RefusalView::TooBig { name: name@, bytes: *bytes },
            Refusal::TooHeavy { name } => RefusalView::TooHeavy { name: name@ },
            Refusal::Unsupported { name, mime } => RefusalView::Unsupported {
                name: name@,
                mime: mime@,
            },
            Refusal::Unreadable { name } => RefusalView::Unreadable { name: name@ },
            Refusal::Other { name, reason } => RefusalView::Other { name: name@, reason: reason@ },
        }
    }
}

pub open spec fn refusals_view(v: Seq<Refusal>) -> Seq<RefusalView> {
    v.map_values(|r: Refusal| r@)
}

pub open spec fn pendings_view(v: Seq<PendingAttachment>) -> Seq<PendingView> {
    v.map_values(|p: PendingAttachment| p@)
}

/// What the files in a tray weigh together.
pub open spec fn tray_weight(t: Seq<PendingView>) -> nat
    decreases t.len(),
{
    if t.len() == 0 {
        0
    } else {
        tray_weight(t.drop_last()) + t.last().record.size as nat
    }
}

/// One picked file offered to the tray: taken if it fits, or refused by
/// name with the first cap it breaks — the count, then its own weight,
/// then the message's.
pub open spec fn offer_one(t: Seq<PendingView>, f: PendingView) -> (Seq<PendingView>, Option<RefusalView>) {
    if t.len() >= MAX_ATTACHMENTS {
        (t, Some(RefusalView::TooMany { name: f.record.name }))
    } else if f.record.size > MAX_FILE_BYTES {
        (t, Some(RefusalView::TooBig { name: f.record.name, bytes: f.record.size }))
    } else if tray_weight(t) + f.record.size > MAX_TOTAL_BYTES {
        (t, Some(RefusalView::TooHeavy { name: f.record.name }))
    } else {
        (t.push(f), None)
    }
}

/// The tray and the refusals after the picked files are offered in order.
pub open spec fn accept_spec(t: Seq<PendingView>, picked: Seq<PendingView>) -> (Seq<PendingView>, Seq<RefusalView>)
    decreases picked.len(),
{
    if picked.len() == 0 {
        (t, Seq::empty())
    } else {
        let (t1, r1) = accept_spec(t, picked.drop_last());
        let (t2, r) = offer_one(t1, picked.last());
        (
            t2,
            match r {
                Some(x) => r1.push(x),
                None => r1,
            },
        )
    }
}

fn sizes_of(tray: &Vec<PendingAttachment>) -> (w: u64)
    requires
        tray_weight(pendings_view(tray@)) <= u64::MAX,
    ensures
        w == tray_weight(pendings_view(tray@)),
{
    let ghost tv = pendings_view(tray@);
    let mut w: u64 = 0;
    let mut k: usize = 0;
    assert(tv.take(0) =~= Seq::<PendingView>::empty());
    while k < tray.len()
        invariant
            tv == pendings_view(tray@),
            k <= tv.len(),
            w == tray_weight(tv.take(k as int)),
            tray_weight(tv) <= u64::MAX,
        decreases tray.len() - k,
    {
        assert(tv.take(k + 1).drop_last() =~= tv.take(k as int));
        proof {
            lemma_weight_prefix(tv, k + 1);
        }
        w = w + tray[k].record.size;
        k += 1;
    }
    assert(tv.take(tv.len() as int) =~= tv);
    w
}

proof fn lemma_weight_prefix(t: Seq<PendingView>, k: int)
    requires
        0 <= k <= t.len(),
    ensures
        tray_weight(t.take(k)) <= tray_weight(t),
    decreases t.len() - k,
{
    if k < t.len() {
        lemma_weight_prefix(t, k + 1);
        assert(t.take(k + 1).drop_last() =~= t.take(k));
    } else {
        assert(t.take(k) =~= t);
    }
}

/// Take what fits and say, by name, why the rest did not. The last word on
/// every cap: the browser applies the same ones to one pick, but only this
/// side knows what the tray already holds.
pub fn accept(tray: &mut Vec<PendingAttachment>, picked: Vec<PendingAttachment>) -> (refused: Vec<Refusal>)
    requires
        tray_weight(pendings_view(old(tray)@)) <= u64::MAX,
    ensures
        (pendings_view(final(tray)@), refusals_view(refused@)) == accept_spec(
            pendings_view(old(tray)@),
            pendings_view(picked@),
        ),
{
    let ghost t0 = pendings_view(tray@);
    let ghost pv = pendings_view(picked@);
    let mut refused: Vec<Refusal> = Vec::new();
    let mut held = sizes_of(tray);
    let mut picked = picked;
    let n0 = picked.len();
    assert(pv.len() == n0);
    let mut k: usize = 0;
    assert(pv.take(0) =~= Seq::<PendingView>::empty());
    assert(pv.skip(0) =~= pv);
    while picked.len() > 0
        invariant
            k + picked@.len() == pv.len(),
            pv.len() <= usize::MAX,
            pendings_view(picked@) == pv.skip(k as int),
            (pendings_view(tray@), refusals_view(refused@)) == accept_spec(t0, pv.take(k as int)),
            held == tray_weight(pendings_view(tray@)),
        decreases picked.len(),
    {
        let ghost tv = pendings_view(tray@);
        let ghost rv = refusals_view(refused@);
        let ghost before = pendings_view(picked@);
        let ghost raw = picked@;
        let f = picked.remove(0);
        let ghost fv = f@;
        assert(fv == before[0]);
        assert(before[0] == pv.skip(k as int)[0]);
        assert(picked@ =~= raw.remove(0));
        assert forall|i: int| 0 <= i < picked@.len() implies #[trigger] pendings_view(picked@)[i]
            == pv.skip(k + 1)[i] by {
            assert(picked@[i] == raw[i + 1]);
            assert(before[i + 1] == pv.skip(k as int)[i + 1]);
        }
        assert(pendings_view(picked@) =~= pv.skip(k + 1));
        assert(pv.take(k + 1).drop_last() =~= pv.take(k as int));
        assert(pv.take(k + 1).last() == pv[k as int]);
        if tray.len() >= MAX_ATTACHMENTS {
            refused.push(Refusal::TooMany { name: f.record.name });
            assert(refusals_view(refused@) =~= rv.push(RefusalView::TooMany { name: fv.record.name }));
        } else if f.record.size > MAX_FILE_BYTES {
            let bytes = f.record.size;
            refused.push(Refusal::TooBig { name: f.record.name, bytes });
            assert(refusals_view(refused@) =~= rv.push(
                RefusalView::TooBig { name: fv.record.name, bytes: fv.record.size },
            ));
        } else if held.saturating_add(f.record.size) > MAX_TOTAL_BYTES {
            refused.push(Refusal::TooHeavy { name: f.record.name });
            assert(refusals_view(refused@) =~= rv.push(RefusalView::TooHeavy { name: fv.record.name }));
        } else {
            held = held + f.record.size;
            tray.push(f);
            assert(pendings_view(tray@) =~= tv.push(fv));
            assert(pendings_view(tray@).drop_last() =~= tv);
        }
        k += 1;
    }
    assert(pv.take(pv.len() as int) =~= pv);
    refused
}

// ---- what a refusal says ---------------------------------------------------

/// A whole number of tenths of a megabyte as the phone writes it:
/// `8000000` is `8.0 MB`.
pub open spec fn tenths_mb(n: u64) -> Seq<char> {
    decimal((n / 1_000_000) as nat) + "."@ + decimal(((n / 100_000) % 10) as nat) + " MB"@
}

fn tenths_mb_words(n: u64) -> (s: String)
    requires
        n % 100_000 == 0,
    ensures
        s@ == tenths_mb(n),
{
    let mut s = decimal_string(n / 1_000_000);
    push_str(&mut s, ".");
    let tenth = decimal_string((n / 100_000) % 10);
    push_str(&mut s, tenth.as_str());
    push_str(&mut s, " MB");
    s
}

/// What a refusal says, given the words for the weight of a file refused
/// as too big (the only refusal that states a weight of its own).
pub open spec fn refusal_words(r: RefusalView, size_words: Seq<char>) -> Seq<char> {
    match r {
        RefusalView::TooMany { name } => name + " — one message carries at most "@ + decimal(
            MAX_ATTACHMENTS as nat,
        ) + " attachments"@,
        RefusalView::TooBig { name, bytes } => name + " is "@ + size_words + " — the limit is "@
            + tenths_mb(MAX_FILE_BYTES) + " a file"@,
        RefusalView::TooHeavy { name } => name + " — one message carries at most "@ + tenths_mb(
            MAX_TOTAL_BYTES,
        ) + " in total"@,
        RefusalView::Unsupported { name, mime } => name + " is "@ + (if mime.len() == 0 {
            "an unrecognised type"@
        } else {
            mime
        }) + " — only images, text files and PDFs can be attached"@,
        RefusalView::Unreadable { name } => name + " could not be read"@,
        RefusalView::Other { name, reason } => name + " — "@ + reason,
    }
}

/// A refusal as a person reads it, naming the file. `size_words` is the
/// refused file's weight as the phone writes it, and is read only for a
/// file refused as too big.
pub fn describe_refusal(r: &Refusal, size_words: &str) -> (s: String)
    ensures
        s@ == refusal_words(r@, size_words@),
{
    match r {
        Refusal::TooMany { name } => {
            let mut s = name.clone();
            push_str(&mut s, " — one message carries at most ");
            let n = decimal_string(MAX_ATTACHMENTS as u64);
            push_str(&mut s, n.as_str());
            push_str(&mut s, " attachments");
            s
        },
        Refusal::TooBig { name, bytes: _ } => {
            let mut s = name.clone();
            push_str(&mut s, " is ");
            push_str(&mut s, size_words);
            push_str(&mut s, " — the limit is ");
            let limit = tenths_mb_words(MAX_FILE_BYTES);
            push_str(&mut s, limit.as_str());
            push_str(&mut s, " a file");
            s
        },
        Refusal::TooHeavy { name } => {
            let mut s = name.clone();
            push_str(&mut s, " — one message carries at most ");
            let limit = tenths_mb_words(MAX_TOTAL_BYTES);
            push_str(&mut s, limit.as_str());
            push_str(&mut s, " in total");
            s
        },
        Refusal::Unsupported { name, mime } => {
            let mut s = name.clone();
            push_str(&mut s, " is ");
            if mime.as_str().unicode_len() == 0 {
                push_str(&mut s, "an unrecognised type");
            } else {
                push_str(&mut s, mime.as_str());
            }
            push_str(&mut s, " — only images, text files and PDFs can be attached");
            s
        },
        Refusal::Unreadable { name } => {
            let mut s = name.clone();
            push_str(&mut s, " could not be read");
            s
        },
        Refusal::Other { name, reason } => {
            let mut s = name.clone();
            push_str(&mut s, " — ");
            push_str(&mut s, reason.as_str());
            s
        },
    }
}

/// The refusal a reason from the picker script stands for.
pub open spec fn rejection_spec(name: Seq<char>, reason: Seq<char>, bytes: u64, mime: Seq<char>) -> RefusalView {
    if reason == "too-big"@ {
        RefusalView::TooBig { name, bytes }
    } else if reason == "unsupported"@ {
        RefusalView::Unsupported { name, mime }
    } else if reason == "unreadable"@ {
        RefusalView::Unreadable { name }
    } else if reason == "too-many"@ {
        RefusalView::TooMany { name }
    } else if reason == "too-heavy"@ {
        RefusalView::TooHeavy { name }
    } else {
        RefusalView::Other { name, reason }
    }
}

/// A refusal from the browser, read as the same refusal the tray would
/// give: one rule enforced twice must read as one.
pub fn refusal(rejection: &PickedRejection) -> (r: Refusal)
    ensures
        r@ == rejection_spec(rejection.name@, rejection.reason@, rejection.bytes, rejection.mime@),
{
    let name = rejection.name.clone();
    let reason = rejection.reason.as_str();
    if same_text(reason, "too-big") {
        Refusal::TooBig { name, bytes: rejection.bytes }
    } else if same_text(reason, "unsupported") {
        Refusal::Unsupported { name, mime: rejection.mime.clone() }
    } else if same_text(reason, "unreadable") {
        Refusal::Unreadable { name }
    } else if same_text(reason, "too-many") {
        Refusal::TooMany { name }
    } else if same_text(reason, "too-heavy") {
        Refusal::TooHeavy { name }
    } else {
        Refusal::Other { name, reason: rejection.reason.clone() }
    }
}

pub open spec fn strings_view(v: Seq<String>) -> Seq<Seq<char>> {
    v.map_values(|s: String| s@)
}

/// One toast for a whole pick: the first refusal by name, and a count of
/// the rest.
pub open spec fn summary_spec(refused: Seq<Seq<char>>) -> Option<Seq<char>> {
    if refused.len() == 0 {
        None
    } else if refused.len() == 1 {
        Some("Not attached: "@ + refused[0])
    } else {
        Some("Not attached: "@ + refused[0] + " (and "@ + decimal((refused.len() - 1) as nat)
            + " more)"@)
    }
}

/// One toast for a whole pick, naming the first refusal and counting the
/// rest, so it stays short without hiding that more than one thing failed.
pub fn refusal_summary(refused: &Vec<String>) -> (r: Option<String>)
    ensures
        match (r, summary_spec(strings_view(refused@))) {
            (Some(x), Some(y)) => x@ == y,
            (None, None) => true,
            _ => false,
        },
{
    let n = refused.len();
    if n == 0 {
        return None;
    }
    let mut s = "Not attached: ".to_owned();
    push_str(&mut s, refused[0].as_str());
    if n > 1 {
        push_str(&mut s, " (and ");
        let more = decimal_string((n - 1) as u64);
        push_str(&mut s, more.as_str());
        push_str(&mut s, " more)");
    }
    Some(s)
}

/// The clause a failed send's toast adds about the files it carried.
pub open spec fn restored_spec(restored: nat, wanted: nat) -> Seq<char> {
    if wanted == 0 {
        Seq::empty()
    } else if restored == 0 {
        " — the composer is full, so its attachments were not put back"@
    } else if restored == wanted {
        " — its attachments are back in the composer"@
    } else {
        " — "@ + decimal(restored) + " of "@ + decimal(wanted) + " attachments are back in the composer"@
    }
}

/// The clause a failed send's toast adds about the files it was carrying:
/// one toast, not two, because the second would erase the first.
pub fn restored_note(restored: usize, wanted: usize) -> (s: String)
    ensures
        s@ == restored_spec(restored as nat, wanted as nat),
{
    if wanted == 0 {
        String::new()
    } else if restored == 0 {
        " — the composer is full, so its attachments were not put back".to_owned()
    } else if restored == wanted {
        " — its attachments are back in the composer".to_owned()
    } else {
        let mut s = " — ".to_owned();
        let n = decimal_string(restored as u64);
        push_str(&mut s, n.as_str());
        push_str(&mut s, " of ");
        let w = decimal_string(wanted as u64);
        push_str(&mut s, w.as_str());
        push_str(&mut s, " attachments are back in the composer");
        s
    }
}

// ---- a pick landing --------------------------------------------------------

/// One message from the picker script: "I am reading n files", or the
/// result.
#[derive(Debug, PartialEq, Eq)]
pub struct Picked {
    /// The browser's id for this pick, carried on both messages.
    pub pick: u64,
    pub target: String,
    /// The conversation the button was tapped in.
    pub conversation: String,
    pub reading: Option<usize>,
    pub files: Vec<PickedFile>,
    pub rejected: Vec<PickedRejection>,
}

/// The composer trays: the goose chat's, the code chat's, and the
/// new-session screen's.
pub struct Trays {
    pub goose: Vec<PendingAttachment>,
    pub code: Vec<PendingAttachment>,
    pub new_chat: Vec<PendingAttachment>,
}

/// The trays read as characters.
pub struct TraysView {
    pub goose: Seq<PendingView>,
    pub code: Seq<PendingView>,
    pub new_chat: Seq<PendingView>,
}

impl View for Trays {
    type V = TraysView;

    open spec fn view(&self) -> TraysView {
        TraysView {
            goose: pendings_view(self.goose@),
            code: pendings_view(self.code@),
            new_chat: pendings_view(self.new_chat@),
        }
    }
}

pub open spec fn tray_in(t: TraysView, which: Tray) -> Seq<PendingView> {
    match which {
        Tray::Goose => t.goose,
        Tray::Code => t.code,
        Tray::NewChat => t.new_chat,
    }
}

pub open spec fn with_tray(t: TraysView, which: Tray, v: Seq<PendingView>) -> TraysView {
    match which {
        Tray::Goose => TraysView { goose: v, ..t },
        Tray::Code => TraysView { code: v, ..t },
        Tray::NewChat => TraysView { new_chat: v, ..t },
    }
}

/// Whether every tray weighs what a `u64` can count.
pub open spec fn trays_countable(t: TraysView) -> bool {
    tray_weight(t.goose) <= u64::MAX && tray_weight(t.code) <= u64::MAX && tray_weight(t.new_chat)
        <= u64::MAX
}

/// A picked file as it will sit in the tray.
pub open spec fn picked_view(f: PickedFile) -> PendingView {
    PendingView {
        record: AttachmentView {
            name: f.name@,
            mime: f.mime@,
            size: base64_weight(utf8_bytes(f.data@)) as u64,
            thumb: f.thumb@,
        },
        data: f.data@,
        text: opt_view(f.text),
    }
}

pub open spec fn pickeds_view(v: Seq<PickedFile>) -> Seq<PendingView> {
    v.map_values(|f: PickedFile| picked_view(f))
}

pub open spec fn rejections_view(v: Seq<PickedRejection>) -> Seq<RefusalView> {
    v.map_values(|r: PickedRejection| rejection_spec(r.name@, r.reason@, r.bytes, r.mime@))
}

/// What became of one message from the picker.
#[derive(Debug, PartialEq, Eq)]
pub enum Receipt {
    /// It named a composer this app does not have.
    UnknownComposer,
    /// A read has started; its row is open.
    Reading,
    /// The conversation it was picked in is no longer the open one, so
    /// nothing was attached; `had_files` says whether anything was lost.
    ChatClosed { had_files: bool },
    /// The files landed in their tray, except these.
    Landed { refused: Vec<Refusal> },
}

fn pending_of(files: Vec<PickedFile>) -> (v: Vec<PendingAttachment>)
    ensures
        pendings_view(v@) == pickeds_view(files@),
{
    let ghost fv = pickeds_view(files@);
    let mut files = files;
    let mut out: Vec<PendingAttachment> = Vec::new();
    let n0 = files.len();
    let mut k: usize = 0;
    assert(fv.skip(0) =~= fv);
    assert(pendings_view(out@) =~= fv.take(0));
    while files.len() > 0
        invariant
            k + files@.len() == fv.len(),
            fv.len() == n0,
            pickeds_view(files@) == fv.skip(k as int),
            pendings_view(out@) == fv.take(k as int),
        decreases files.len(),
    {
        let ghost raw = files@;
        let ghost before = out@;
        let f = files.remove(0);
        assert(picked_view(f) == fv[k as int]) by {
            assert(pickeds_view(raw)[0] == fv.skip(k as int)[0]);
        }
        assert(files@ =~= raw.remove(0));
        assert(pickeds_view(files@) =~= fv.skip(k + 1)) by {
            assert forall|i: int| 0 <= i < files@.len() implies #[trigger] pickeds_view(files@)[i] == fv.skip(k + 1)[i] by {
                assert(files@[i] == raw[i + 1]);
                assert(pickeds_view(raw)[i + 1] == fv.skip(k as int)[i
                    + 1]);
            }
        }
        let ghost fg = f;
        let p = PendingAttachment::from(f);
        assert(p@ == picked_view(fg));
        let ghost out0 = pendings_view(out@);
        out.push(p);
        assert(pendings_view(out@) =~= out0.push(picked_view(fg)));
        assert(fv.take(k + 1) =~= fv.take(k as int).push(fv[k as int]));
        assert(pendings_view(out@) =~= fv.take(k + 1));
        k += 1;
    }
    assert(fv.take(fv.len() as int) =~= fv);
    out
}

fn refusals_of(rejected: &Vec<PickedRejection>) -> (v: Vec<Refusal>)
    ensures
        refusals_view(v@) == rejections_view(rejected@),
{
    let ghost rv = rejections_view(rejected@);
    let mut out: Vec<Refusal> = Vec::new();
    let mut k: usize = 0;
    while k < rejected.len()
        invariant
            k <= rejected@.len(),
            rv.len() == rejected@.len(),
            rv == rejections_view(rejected@),
            refusals_view(out@) == rv.take(k as int),
        decreases rejected.len() - k,
    {
        let r = refusal(&rejected[k]);
        let ghost x = rejected@[k as int];
        assert(rv[k as int] == rejection_spec(x.name@, x.reason@, x.bytes, x.mime@));
        let ghost out0 = refusals_view(out@);
        out.push(r);
        assert(refusals_view(out@) =~= out0.push(rv[k as int]));
        assert(rv.take(k + 1) =~= rv.take(k as int).push(rv[k as int]));
        assert(refusals_view(out@) =~= rv.take(k + 1));
        k += 1;
    }
    assert(rv.take(rv.len() as int) =~= rv);
    out
}

fn accept_into(trays: &mut Trays, which: Tray, picked: Vec<PendingAttachment>) -> (refused: Vec<Refusal>)
    requires
        tray_weight(tray_in(old(trays)@, which)) <= u64::MAX,
    ensures
        final(trays)@ == with_tray(
            old(trays)@,
            which,
            accept_spec(tray_in(old(trays)@, which), pendings_view(picked@)).0,
        ),
        refusals_view(refused@) == accept_spec(tray_in(old(trays)@, which), pendings_view(picked@)).1,
{
    match which {
        Tray::Goose => accept(&mut trays.goose, picked),
        Tray::Code => accept(&mut trays.code, picked),
        Tray::NewChat => accept(&mut trays.new_chat, picked),
    }
}

/// What receiving a picker message leaves: the reads in flight, the trays,
/// and the receipt's refusals, as characters.
pub open spec fn landed_spec(
    trays: TraysView,
    msg: Picked,
    target: AttachTarget,
) -> (TraysView, Seq<RefusalView>) {
    let which = tray_spec(target, msg.conversation@);
    let taken = accept_spec(
        tray_in(trays, which),
        pickeds_view(msg.files@),
    );
    (
        with_tray(trays, which, taken.0),
        rejections_view(msg.rejected@) + taken.1,
    )
}

/// Fold one message from the picker into the composer it came from.
///
/// `open_goose` and `open_code` are the conversations the two composers are
/// in now. A result lands only in the conversation it was picked in: a read
/// takes seconds, and landing it anyway would put a photo picked in one
/// conversation on the next message sent in another.
pub fn receive(
    picks: &mut Vec<Pick>,
    trays: &mut Trays,
    open_goose: &str,
    open_code: &str,
    msg: Picked,
) -> (r: Receipt)
    requires
        trays_countable(old(trays)@),
    ensures
        match AttachTarget::parse_spec(msg.target@) {
            None => r is UnknownComposer && final(picks)@ == old(picks)@ && final(trays)@ == old(
                trays,
            )@,
            Some(t) => {
                &&& picks_view(final(picks)@) == track_spec(
                    picks_view(old(picks)@),
                    msg.pick,
                    t,
                    msg.conversation@,
                    msg.reading,
                )
                &&& if msg.reading is Some {
                    r is Reading && final(trays)@ == old(trays)@
                } else if (match t {
                    AttachTarget::Goose => open_goose@,
                    AttachTarget::Code => open_code@,
                }) != msg.conversation@ {
                    r == Receipt::ChatClosed { had_files: msg.files@.len() > 0 } && final(trays)@
                        == old(trays)@
                } else {
                    &&& r is Landed
                    &&& (final(trays)@, refusals_view(r->refused@)) == landed_spec(
                        old(trays)@,
                        msg,
                        t,
                    )
                }
            },
        },
{
    let target = match AttachTarget::parse(msg.target.as_str()) {
        Some(t) => t,
        None => {
            return Receipt::UnknownComposer;
        },
    };
    track(picks, msg.pick, target, msg.conversation.as_str(), msg.reading);
    if msg.reading.is_some() {
        return Receipt::Reading;
    }
    let open = match target {
        AttachTarget::Goose => open_goose,
        AttachTarget::Code => open_code,
    };
    if !same_text(open, msg.conversation.as_str()) {
        return Receipt::ChatClosed { had_files: msg.files.len() > 0 };
    }
    let ghost before = trays@;
    let ghost m = msg;
    let mut refused = refusals_of(&msg.rejected);
    let which = tray_of(target, msg.conversation.as_str());
    let Picked { files, .. } = msg;
    let picked = pending_of(files);
    let ghost rv = refusals_view(refused@);
    let mut more = accept_into(trays, which, picked);
    let ghost mv = refusals_view(more@);
    refused.append(&mut more);
    assert(refusals_view(refused@) =~= rv + mv);
    proof {
        assert((trays@, refusals_view(refused@)) == landed_spec(before, m, target));
    }
    Receipt::Landed { refused }
}

/// Put a failed message's attachments back in the tray they were picked
/// for, while that conversation is still the open one, and say what became
/// of them. Anything picked meanwhile keeps its place, so the caps decide
/// how much of the failed message fits back in.
pub fn return_to_tray(
    trays: &mut Trays,
    target: AttachTarget,
    open: &str,
    conversation: &str,
    files: Vec<PendingAttachment>,
) -> (note: String)
    requires
        trays_countable(old(trays)@),
    ensures
        files@.len() == 0 ==> note@.len() == 0 && final(trays)@ == old(trays)@,
        files@.len() > 0 && open@ != conversation@ ==> note@
            == " — that chat is no longer open, so its attachments were not put back"@ && final(trays)@
            == old(trays)@,
        files@.len() > 0 && open@ == conversation@ ==> ({
            let which = tray_spec(target, conversation@);
            let (t, refused) = accept_spec(tray_in(old(trays)@, which), pendings_view(files@));
            &&& final(trays)@ == with_tray(old(trays)@, which, t)
            &&& note@ == restored_spec((files@.len() - refused.len()) as nat, files@.len() as nat)
        }),
{
    let wanted = files.len();
    if wanted == 0 {
        return String::new();
    }
    if !same_text(open, conversation) {
        return " — that chat is no longer open, so its attachments were not put back".to_owned();
    }
    let which = tray_of(target, conversation);
    let refused = accept_into(trays, which, files);
    proof {
        law_every_pick_is_taken_or_refused(
            tray_in(old(trays)@, which),
            pendings_view(files@),
        );
    }
    restored_note(wanted - refused.len(), wanted)
}

/// Every picked file is either taken or refused, once.
pub proof fn law_every_pick_is_taken_or_refused(t: Seq<PendingView>, picked: Seq<PendingView>)
    ensures
        accept_spec(t, picked).0.len() - t.len() + accept_spec(t, picked).1.len() == picked.len(),
        accept_spec(t, picked).0.len() >= t.len(),
    decreases picked.len(),
{
    if picked.len() > 0 {
        law_every_pick_is_taken_or_refused(t, picked.drop_last());
    }
}

/// A tray within the caps stays within them, whatever is offered to it:
/// at most `MAX_ATTACHMENTS` files, at most `MAX_TOTAL_BYTES` together, and
/// nothing taken that weighs more than `MAX_FILE_BYTES` on its own. What
/// was in it stays, in its place, and what is taken follows in the order
/// it was picked.
pub proof fn law_the_tray_keeps_its_caps(t: Seq<PendingView>, picked: Seq<PendingView>)
    requires
        t.len() <= MAX_ATTACHMENTS,
        tray_weight(t) <= MAX_TOTAL_BYTES,
    ensures
        accept_spec(t, picked).0.len() <= MAX_ATTACHMENTS,
        tray_weight(accept_spec(t, picked).0) <= MAX_TOTAL_BYTES,
        accept_spec(t, picked).0.take(t.len() as int) == t,
        forall|i: int|
            t.len() <= i < accept_spec(t, picked).0.len() ==> (#[trigger] accept_spec(
                t,
                picked,
            ).0[i]).record.size <= MAX_FILE_BYTES && picked.contains(accept_spec(t, picked).0[i]),
    decreases picked.len(),
{
    if picked.len() > 0 {
        let front = picked.drop_last();
        law_the_tray_keeps_its_caps(t, front);
        law_every_pick_is_taken_or_refused(t, front);
        let t1 = accept_spec(t, front).0;
        let t2 = accept_spec(t, picked).0;
        assert forall|i: int| t.len() <= i < t2.len() implies (#[trigger] t2[i]).record.size
            <= MAX_FILE_BYTES && picked.contains(t2[i]) by {
            if i < t1.len() {
                assert(t2[i] == t1[i]);
                assert(front.contains(t1[i]));
                let j = choose|j: int| 0 <= j < front.len() && front[j] == t1[i];
                assert(picked[j] == front[j]);
            } else {
                assert(t2[i] == picked.last());
                assert(picked[picked.len() - 1] == picked.last());
            }
        }
        assert(t2.take(t.len() as int) =~= t) by {
            assert forall|i: int| 0 <= i < t.len() implies t2[i] == t[i] by {
                assert(t1.take(t.len() as int)[i] == t[i]);
            }
        }
        if t2.len() > t1.len() {
            assert(t2.drop_last() =~= t1);
        }
    }
}

// ---- what gets sent ----------------------------------------------------------

/// The embedded resource of an ACP content block: the string fields this
/// library reads of it.
#[derive(Debug, PartialEq, Eq)]
pub struct EmbeddedResource {
    pub uri: Option<String>,
    pub mime_type: Option<String>,
    pub text: Option<String>,
    pub blob: Option<String>,
}

/// One entry of an ACP prompt or of a replayed user message.
#[derive(Debug, PartialEq, Eq)]
#[allow(inconsistent_fields)]
pub enum ContentBlock {
    Text { text: String },
    Image { data: String, mime_type: String, uri: Option<String> },
    Audio { data: String, mime_type: String },
    ResourceLink { uri: String, name: Option<String> },
    Resource { resource: EmbeddedResource },
}

/// A content block read as characters.
#[allow(inconsistent_fields)]
pub enum BlockView {
    Text { text: Seq<char> },
    Image { data: Seq<char>, mime_type: Seq<char>, uri: Option<Seq<char>> },
    Audio { data: Seq<char>, mime_type: Seq<char> },
    ResourceLink { uri: Seq<char>, name: Option<Seq<char>> },
    Resource {
        uri: Option<Seq<char>>,
        mime_type: Option<Seq<char>>,
        text: Option<Seq<char>>,
        blob: Option<Seq<char>>,
    },
}

impl View for ContentBlock {
    type V = BlockView;

    open spec fn view(&self) -> BlockView {
        match self {
            ContentBlock::Text { text } => BlockView::Text { text: text@ },
            ContentBlock::Image { data, mime_type, uri } => BlockView::Image {
                data: data@,
                mime_type: mime_type@,
                uri: opt_view(*uri),
            },
            ContentBlock::Audio { data, mime_type } => BlockView::Audio {
                data: data@,
                mime_type: mime_type@,
            },
            ContentBlock::ResourceLink { uri, name } => BlockView::ResourceLink {
                uri: uri@,
                name: opt_view(*name),
            },
            ContentBlock::Resource { resource } => BlockView::Resource {
                uri: opt_view(resource.uri),
                mime_type: opt_view(resource.mime_type),
                text: opt_view(resource.text),
                blob: opt_view(resource.blob),
            },
        }
    }
}

pub open spec fn blocks_view(v: Seq<ContentBlock>) -> Seq<BlockView> {
    v.map_values(|b: ContentBlock| b@)
}

/// How goose is sent one file: an image inline, a text file as text and
/// anything else as bytes, each named `attachment:<name>` — not a path,
/// because the file is on this phone and the agent is not.
pub open spec fn file_block(f: PendingView) -> BlockView {
    let uri = "attachment:"@ + f.record.name;
    match kind_spec(f.record.mime) {
        AttachKind::Image => BlockView::Image { data: f.data, mime_type: f.record.mime, uri: None },
        AttachKind::Text => BlockView::Resource {
            uri: Some(uri),
            mime_type: Some(f.record.mime),
            text: Some(
                match f.text {
                    Some(t) => t,
                    None => Seq::empty(),
                },
            ),
            blob: None,
        },
        AttachKind::Binary => BlockView::Resource {
            uri: Some(uri),
            mime_type: Some(f.record.mime),
            text: None,
            blob: Some(f.data),
        },
    }
}

/// The ACP prompt for a message: the text, unless there is none, then each
/// file in order.
pub open spec fn goose_blocks_spec(text: Seq<char>, files: Seq<PendingView>) -> Seq<BlockView> {
    (if text.len() == 0 {
        Seq::empty()
    } else {
        seq![BlockView::Text { text }]
    }) + files.map_values(|f: PendingView| file_block(f))
}

fn clone_opt(o: &Option<String>) -> (r: Option<String>)
    ensures
        opt_view(r) == opt_view(*o),
{
    match o {
        Some(s) => Some(s.clone()),
        None => None,
    }
}

/// The ACP prompt array for a message: the text first, because that is the
/// message and the attachments are what it is about, then the files.
pub fn goose_blocks(text: &str, files: &Vec<PendingAttachment>) -> (blocks: Vec<ContentBlock>)
    ensures
        blocks_view(blocks@) == goose_blocks_spec(text@, pendings_view(files@)),
{
    let ghost fv = pendings_view(files@);
    let ghost head: Seq<BlockView> = if text@.len() == 0 {
        Seq::empty()
    } else {
        seq![BlockView::Text { text: text@ }]
    };
    let mut blocks: Vec<ContentBlock> = Vec::new();
    if text.unicode_len() > 0 {
        blocks.push(ContentBlock::Text { text: text.to_owned() });
    }
    assert(blocks_view(blocks@) =~= head);
    let mut k: usize = 0;
    while k < files.len()
        invariant
            fv == pendings_view(files@),
            k <= fv.len(),
            blocks_view(blocks@) == head + fv.take(k as int).map_values(|f: PendingView| file_block(f)),
        decreases files.len() - k,
    {
        let file = &files[k];
        let mut uri = "attachment:".to_owned();
        push_str(&mut uri, file.record.name.as_str());
        let b = match file.record.kind() {
            AttachKind::Image => ContentBlock::Image {
                data: file.data.clone(),
                mime_type: file.record.mime.clone(),
                uri: None,
            },
            AttachKind::Text => ContentBlock::Resource {
                resource: EmbeddedResource {
                    uri: Some(uri),
                    mime_type: Some(file.record.mime.clone()),
                    text: Some(
                        match &file.text {
                            Some(t) => t.clone(),
                            None => String::new(),
                        },
                    ),
                    blob: None,
                },
            },
            AttachKind::Binary => ContentBlock::Resource {
                resource: EmbeddedResource {
                    uri: Some(uri),
                    mime_type: Some(file.record.mime.clone()),
                    text: None,
                    blob: Some(file.data.clone()),
                },
            },
        };
        assert(b@ == file_block(fv[k as int]));
        let ghost before = blocks_view(blocks@);
        blocks.push(b);
        assert(blocks_view(blocks@) =~= before.push(file_block(fv[k as int])));
        assert(fv.take(k + 1).map_values(|f: PendingView| file_block(f)) =~= fv.take(
            k as int,
        ).map_values(|f: PendingView| file_block(f)).push(file_block(fv[k as int])));
        k += 1;
    }
    assert(fv.take(fv.len() as int) =~= fv);
    blocks
}

/// One part of an `OpenCode` prompt.
#[derive(Debug, PartialEq, Eq)]
pub enum PromptPart {
    Text { text: String },
    /// A file carried as a data URL.
    File { mime: String, filename: String, url: String },
}

/// A prompt part read as characters.
pub enum PartView {
    Text { text: Seq<char> },
    File { mime: Seq<char>, filename: Seq<char>, url: Seq<char> },
}

impl View for PromptPart {
    type V = PartView;

    open spec fn view(&self) -> PartView {
        match self {
            PromptPart::Text { text } => PartView::Text { text: text@ },
            PromptPart::File { mime, filename, url } => PartView::File {
                mime: mime@,
                filename: filename@,
                url: url@,
            },
        }
    }
}

pub open spec fn parts_view(v: Seq<PromptPart>) -> Seq<PartView> {
    v.map_values(|p: PromptPart| p@)
}

/// How `OpenCode` is sent one file: as a data URL, declared `text/plain`
/// for a text file because the server inlines exactly that type and passes
/// any other through as an opaque attachment.
pub open spec fn file_part(f: PendingView) -> PartView {
    let mime = if kind_spec(f.record.mime) is Text {
        "text/plain"@
    } else {
        f.record.mime
    };
    PartView::File {
        mime,
        filename: f.record.name,
        url: "data:"@ + mime + ";base64,"@ + f.data,
    }
}

/// The `OpenCode` prompt for a message: the text, unless there is none,
/// then each file in order.
pub open spec fn code_parts_spec(text: Seq<char>, files: Seq<PendingView>) -> Seq<PartView> {
    (if text.len() == 0 {
        Seq::empty()
    } else {
        seq![PartView::Text { text }]
    }) + files.map_values(|f: PendingView| file_part(f))
}

/// The `OpenCode` prompt parts for a message.
pub fn code_parts(text: &str, files: &Vec<PendingAttachment>) -> (parts: Vec<PromptPart>)
    ensures
        parts_view(parts@) == code_parts_spec(text@, pendings_view(files@)),
{
    let ghost fv = pendings_view(files@);
    let ghost head: Seq<PartView> = if text@.len() == 0 {
        Seq::empty()
    } else {
        seq![PartView::Text { text: text@ }]
    };
    let mut parts: Vec<PromptPart> = Vec::new();
    if text.unicode_len() > 0 {
        parts.push(PromptPart::Text { text: text.to_owned() });
    }
    assert(parts_view(parts@) =~= head);
    let mut k: usize = 0;
    while k < files.len()
        invariant
            fv == pendings_view(files@),
            k <= fv.len(),
            parts_view(parts@) == head + fv.take(k as int).map_values(|f: PendingView| file_part(f)),
        decreases files.len() - k,
    {
        let file = &files[k];
        let mime = match file.record.kind() {
            AttachKind::Text => "text/plain".to_owned(),
            _ => file.record.mime.clone(),
        };
        let mut url = "data:".to_owned();
        push_str(&mut url, mime.as_str());
        push_str(&mut url, ";base64,");
        push_str(&mut url, file.data.as_str());
        let p = PromptPart::File { mime, filename: file.record.name.clone(), url };
        assert(p@ == file_part(fv[k as int]));
        let ghost before = parts_view(parts@);
        parts.push(p);
        assert(parts_view(parts@) =~= before.push(file_part(fv[k as int])));
        assert(fv.take(k + 1).map_values(|f: PendingView| file_part(f)) =~= fv.take(
            k as int,
        ).map_values(|f: PendingView| file_part(f)).push(file_part(fv[k as int])));
        k += 1;
    }
    assert(fv.take(fv.len() as int) =~= fv);
    parts
}

pub open spec fn attachments_view(v: Seq<Attachment>) -> Seq<AttachmentView> {
    v.map_values(|a: Attachment| a@)
}

/// What the transcript keeps once a message has been sent: the records,
/// never the payloads.
pub fn records(files: &Vec<PendingAttachment>) -> (out: Vec<Attachment>)
    ensures
        attachments_view(out@) == pendings_view(files@).map_values(|f: PendingView| f.record),
{
    let ghost want = pendings_view(files@).map_values(|f: PendingView| f.record);
    let mut out: Vec<Attachment> = Vec::new();
    let mut k: usize = 0;
    while k < files.len()
        invariant
            k <= files@.len(),
            want == pendings_view(files@).map_values(|f: PendingView| f.record),
            attachments_view(out@) == want.take(k as int),
        decreases files.len() - k,
    {
        let ghost before = attachments_view(out@);
        let r = files[k].record.clone();
        assert(want[k as int] == files@[k as int].record@);
        out.push(r);
        assert(attachments_view(out@) =~= before.push(want[k as int]));
        assert(want.take(k + 1) =~= want.take(k as int).push(want[k as int]));
        assert(attachments_view(out@) =~= want.take(k + 1));
        k += 1;
    }
    assert(want.take(files@.len() as int) =~= want);
    out
}

// ---- what comes back again ---------------------------------------------------

pub open spec fn or_empty(o: Option<Seq<char>>) -> Seq<char> {
    match o {
        Some(s) => s,
        None => Seq::empty(),
    }
}

/// What the transcript records of a block replayed in a user message.
/// goose replays an image at the size it was sent, so its payload is kept
/// as a thumbnail only when it is thumbnail-sized already.
pub open spec fn replayed_spec(b: BlockView) -> AttachmentView {
    match b {
        BlockView::Image { data, mime_type, uri } => AttachmentView {
            name: match uri {
                Some(u) => u,
                None => "Image"@,
            },
            mime: mime_type,
            size: base64_weight(utf8_bytes(data)) as u64,
            thumb: small(data),
        },
        BlockView::Audio { data, mime_type } => AttachmentView {
            name: "Audio"@,
            mime: mime_type,
            size: base64_weight(utf8_bytes(data)) as u64,
            thumb: Seq::empty(),
        },
        BlockView::ResourceLink { uri, name } => AttachmentView {
            name: match name {
                Some(n) => n,
                None => uri,
            },
            mime: Seq::empty(),
            size: 0,
            thumb: Seq::empty(),
        },
        BlockView::Resource { uri, mime_type, text, blob } => AttachmentView {
            name: display_name_spec(or_empty(uri)),
            mime: or_empty(mime_type),
            size: match text {
                Some(t) => utf8_bytes(t).len() as u64,
                None => base64_weight(utf8_bytes(or_empty(blob))) as u64,
            },
            thumb: Seq::empty(),
        },
        BlockView::Text { text } => AttachmentView {
            name: Seq::empty(),
            mime: Seq::empty(),
            size: 0,
            thumb: Seq::empty(),
        },
    }
}

/// An attachment as it arrives back from goose, in a replayed user
/// message.
pub fn from_content_block(block: &ContentBlock) -> (a: Attachment)
    ensures
        a@ == replayed_spec(block@),
{
    match block {
        ContentBlock::Image { data, mime_type, uri } => {
            let name = match uri {
                Some(u) => u.clone(),
                None => "Image".to_owned(),
            };
            let size = base64_len_to_bytes(data.as_str());
            let thumb = small_thumb(data.as_str());
            Attachment { name, mime: mime_type.clone(), size, thumb }
        },
        ContentBlock::Audio { data, mime_type } => Attachment {
            name: "Audio".to_owned(),
            mime: mime_type.clone(),
            size: base64_len_to_bytes(data.as_str()),
            thumb: String::new(),
        },
        ContentBlock::ResourceLink { uri, name } => Attachment {
            name: match name {
                Some(n) => n.clone(),
                None => uri.clone(),
            },
            mime: String::new(),
            size: 0,
            thumb: String::new(),
        },
        ContentBlock::Resource { resource } => {
            let blob = match &resource.blob {
                Some(b) => b.clone(),
                None => String::new(),
            };
            let size = match &resource.text {
                Some(t) => {
                    let n = t.as_str().as_bytes().len();
                    n as u64
                },
                None => base64_len_to_bytes(blob.as_str()),
            };
            let uri = match &resource.uri {
                Some(u) => u.clone(),
                None => String::new(),
            };
            Attachment {
                name: display_name(uri.as_str()),
                mime: match &resource.mime_type {
                    Some(m) => m.clone(),
                    None => String::new(),
                },
                size,
                thumb: String::new(),
            }
        },
        ContentBlock::Text { .. } => Attachment::empty(),
    }
}

/// A `file` part as `OpenCode` replays it: the fields this library reads.
#[derive(Debug, PartialEq, Eq)]
pub struct FilePart {
    pub mime: Option<String>,
    pub filename: Option<String>,
    pub url: Option<String>,
}

/// The base64 payload of a `data:` URL whose header ends in `;base64`:
/// everything after its first comma.
pub open spec fn base64_payload(url: Seq<char>) -> Option<Seq<char>> {
    match crate::css::first_index(url, ',') {
        Some(c) => if holds_at(url, 0, "data:"@) && c >= 7 && url.subrange(c - 7, c) == ";base64"@ {
            Some(url.skip(c + 1))
        } else {
            None
        },
        None => None,
    }
}

proof fn lemma_first_index_found(s: Seq<char>, c: char, k: int)
    requires
        0 <= k < s.len(),
        s[k] == c,
        forall|j: int| 0 <= j < k ==> s[j] != c,
    ensures
        crate::css::first_index(s, c) == Some(k),
    decreases s.len(),
{
    if s.len() > k + 1 {
        lemma_first_index_found(s.drop_last(), c, k);
    } else {
        lemma_first_index_absent(s.drop_last(), c);
    }
}

proof fn lemma_first_index_absent(s: Seq<char>, c: char)
    requires
        forall|j: int| 0 <= j < s.len() ==> s[j] != c,
    ensures
        crate::css::first_index(s, c) is None,
    decreases s.len(),
{
    if s.len() > 0 {
        lemma_first_index_absent(s.drop_last(), c);
    }
}

/// The base64 payload of a data URL, if it is one.
pub fn data_url_base64(url: &str) -> (r: Option<String>)
    ensures
        opt_view(r) == base64_payload(url@),
{
    let cs = chars_of(url);
    let mut c: usize = 0;
    while c < cs.len() && cs[c] != ','
        invariant
            cs@ == url@,
            c <= cs@.len(),
            forall|j: int| 0 <= j < c ==> cs@[j] != ',',
        decreases cs.len() - c,
    {
        c += 1;
    }
    if c == cs.len() {
        proof {
            lemma_first_index_absent(url@, ',');
        }
        return None;
    }
    proof {
        lemma_first_index_found(url@, ',', c as int);
    }
    let header = chars_of(";base64");
    if !begins(url, "data:") || c < 7 || !starts_at(&cs, c - 7, &header) {
        proof {
            if c >= 7 && url@.subrange(c - 7, c as int) == ";base64"@ {
                assert(holds_at(url@, c - 7, ";base64"@));
            }
        }
        return None;
    }
    proof {
        reveal_strlit(";base64");
    }
    assert(url@.subrange(c - 7, c as int) =~= ";base64"@);
    let payload = crate::text::string_of(&cs, c + 1, cs.len());
    assert(url@.skip(c + 1) =~= cs@.subrange(c + 1, cs@.len() as int));
    Some(payload)
}

/// What the transcript records of a `file` part `OpenCode` replays.
pub open spec fn part_spec(mime: Option<Seq<char>>, filename: Option<Seq<char>>, url: Option<Seq<char>>) -> AttachmentView {
    let data = match url {
        Some(u) => or_empty(base64_payload(u)),
        None => Seq::empty(),
    };
    let m = or_empty(mime);
    AttachmentView {
        name: match filename {
            Some(n) => if n.len() > 0 {
                n
            } else {
                display_name_spec(or_empty(url))
            },
            None => display_name_spec(or_empty(url)),
        },
        mime: m,
        size: base64_weight(utf8_bytes(data)) as u64,
        thumb: if holds_at(m, 0, "image/"@) {
            small(data)
        } else {
            Seq::empty()
        },
    }
}

/// An attachment as it arrives back from `OpenCode`, as a `file` part.
pub fn from_part(part: &FilePart) -> (a: Attachment)
    ensures
        a@ == part_spec(opt_view(part.mime), opt_view(part.filename), opt_view(part.url)),
{
    let data = match &part.url {
        Some(u) => match data_url_base64(u.as_str()) {
            Some(d) => d,
            None => String::new(),
        },
        None => String::new(),
    };
    let mime = match &part.mime {
        Some(m) => m.clone(),
        None => String::new(),
    };
    let url = match &part.url {
        Some(u) => u.clone(),
        None => String::new(),
    };
    let name = match &part.filename {
        Some(n) => if n.as_str().unicode_len() > 0 {
            n.clone()
        } else {
            display_name(url.as_str())
        },
        None => display_name(url.as_str()),
    };
    let is_image = begins(mime.as_str(), "image/");
    let size = base64_len_to_bytes(data.as_str());
    let thumb = if is_image {
        small_thumb(data.as_str())
    } else {
        String::new()
    };
    Attachment { name, mime, size, thumb }
}

// ---- keeping pictures across a reload ----------------------------------------

/// The attachments of each user message of a transcript, in order.
pub open spec fn items_view(items: Seq<Vec<Attachment>>) -> Seq<Seq<AttachmentView>> {
    items.map_values(|v: Vec<Attachment>| attachments_view(v@))
}

/// The thumbnails among `atts`, by what identifies each file; a later one
/// under the same name and size replaces an earlier.
pub open spec fn thumbs_of(atts: Seq<AttachmentView>) -> Map<(Seq<char>, u64), Seq<char>>
    decreases atts.len(),
{
    if atts.len() == 0 {
        Map::empty()
    } else {
        let m = thumbs_of(atts.drop_last());
        let a = atts.last();
        if a.thumb.len() > 0 {
            m.insert((a.name, a.size), a.thumb)
        } else {
            m
        }
    }
}

/// Thumbnails already on screen, by name and size.
pub struct ThumbIndex {
    /// (name, size, thumbnail); a later entry for the same file wins.
    pub entries: Vec<(String, u64, String)>,
}

pub open spec fn entries_view(e: Seq<(String, u64, String)>) -> Seq<(Seq<char>, u64, Seq<char>)> {
    e.map_values(|x: (String, u64, String)| (x.0@, x.1, x.2@))
}

/// The map an entry list stands for.
pub open spec fn entries_map(e: Seq<(Seq<char>, u64, Seq<char>)>) -> Map<(Seq<char>, u64), Seq<char>>
    decreases e.len(),
{
    if e.len() == 0 {
        Map::empty()
    } else {
        entries_map(e.drop_last()).insert((e.last().0, e.last().1), e.last().2)
    }
}

impl View for ThumbIndex {
    type V = Map<(Seq<char>, u64), Seq<char>>;

    open spec fn view(&self) -> Map<(Seq<char>, u64), Seq<char>> {
        entries_map(entries_view(self.entries@))
    }
}

/// Thumbnails already on screen, keyed by what identifies the file, so a
/// history reload that replays a payload too big to keep does not turn a
/// photo into a chip a second after the chat opened.
pub fn thumbnail_index(items: &Vec<Vec<Attachment>>) -> (index: ThumbIndex)
    ensures
        index@ == thumbs_of(items_view(items@).flatten()),
{
    let ghost iv = items_view(items@);
    let mut entries: Vec<(String, u64, String)> = Vec::new();
    let mut i: usize = 0;
    assert(iv.take(0).flatten() =~= Seq::<AttachmentView>::empty());
    while i < items.len()
        invariant
            iv == items_view(items@),
            i <= iv.len(),
            entries_map(entries_view(entries@)) == thumbs_of(iv.take(i as int).flatten()),
        decreases items.len() - i,
    {
        let atts = &items[i];
        let ghost av = attachments_view(atts@);
        assert(av == iv[i as int]);
        let ghost base = iv.take(i as int).flatten();
        let mut q: usize = 0;
        assert(av.take(0) =~= Seq::<AttachmentView>::empty());
        assert(base + av.take(0) =~= base);
        while q < atts.len()
            invariant
                av == attachments_view(atts@),
                q <= av.len(),
                entries_map(entries_view(entries@)) == thumbs_of(base + av.take(q as int)),
            decreases atts.len() - q,
        {
            let a = &atts[q];
            assert((base + av.take(q + 1)).drop_last() =~= base + av.take(q as int));
            assert((base + av.take(q + 1)).last() == a@);
            if a.thumb.as_str().unicode_len() > 0 {
                let ghost before = entries_view(entries@);
                entries.push((a.name.clone(), a.size, a.thumb.clone()));
                assert(entries_view(entries@).drop_last() =~= before);
            }
            q += 1;
        }
        assert(av.take(av.len() as int) =~= av);
        proof {
            iv.take(i as int).lemma_flatten_push(av);
        }
        assert(iv.take(i + 1) =~= iv.take(i as int).push(av));
        i += 1;
    }
    assert(iv.take(iv.len() as int) =~= iv);
    ThumbIndex { entries }
}

proof fn lemma_entries_absent_suffix(e: Seq<(Seq<char>, u64, Seq<char>)>, j: int, k: (Seq<char>, u64))
    requires
        0 <= j <= e.len(),
        forall|q: int| j <= q < e.len() ==> (#[trigger] e[q].0, e[q].1) != k,
    ensures
        entries_map(e).dom().contains(k) == entries_map(e.take(j)).dom().contains(k),
        entries_map(e).dom().contains(k) ==> entries_map(e)[k] == entries_map(e.take(j))[k],
    decreases e.len() - j,
{
    if j < e.len() {
        lemma_entries_absent_suffix(e.drop_last(), j, k);
        assert(e.drop_last().take(j) =~= e.take(j));
        assert((e.last().0, e.last().1) != k) by {
            assert(e[e.len() - 1] == e.last());
        }
    } else {
        assert(e.take(j) =~= e);
    }
}

fn lookup_thumb(index: &ThumbIndex, name: &String, size: u64) -> (r: Option<String>)
    ensures
        match r {
            Some(t) => index@.dom().contains((name@, size)) && t@ == index@[(name@, size)],
            None => !index@.dom().contains((name@, size)),
        },
{
    let ghost e = entries_view(index.entries@);
    let ghost k = (name@, size);
    let mut j = index.entries.len();
    while j > 0
        invariant
            e == entries_view(index.entries@),
            k == (name@, size),
            j <= e.len(),
            forall|q: int| j <= q < e.len() ==> (#[trigger] e[q].0, e[q].1) != k,
        decreases j,
    {
        let x = &index.entries[j - 1];
        assert(e[j - 1] == (x.0@, x.1, x.2@));
        if x.1 == size && same_text(x.0.as_str(), name.as_str()) {
            proof {
                lemma_entries_absent_suffix(e, j as int, k);
                assert(e.take(j as int).last() == e[j - 1]);
                assert((e[j - 1].0, e[j - 1].1) == k);
                assert(entries_map(e.take(j as int)) == entries_map(e.take(j as int).drop_last()).insert(
                    k,
                    e[j - 1].2,
                ));
                assert(entries_map(e.take(j as int)).dom().contains(k));
                assert(entries_map(e.take(j as int))[k] == x.2@);
            }
            let t = x.2.clone();
            return Some(t);
        }
        assert((e[j - 1].0, e[j - 1].1) != k);
        j -= 1;
    }
    proof {
        lemma_entries_absent_suffix(e, 0, k);
        assert(e.take(0) =~= Seq::<(Seq<char>, u64, Seq<char>)>::empty());
    }
    None
}

/// An attachment after the thumbnails are put back: one without a picture
/// takes the indexed one for its name and size, if there is one.
pub open spec fn restored(a: AttachmentView, m: Map<(Seq<char>, u64), Seq<char>>) -> AttachmentView {
    if a.thumb.len() == 0 && m.dom().contains((a.name, a.size)) {
        AttachmentView { thumb: m[(a.name, a.size)], ..a }
    } else {
        a
    }
}

/// Put the indexed thumbnails back onto a freshly folded transcript.
pub fn restore_thumbnails(thumbs: &ThumbIndex, items: &mut Vec<Vec<Attachment>>)
    ensures
        final(items)@.len() == old(items)@.len(),
        forall|i: int|
            0 <= i < old(items)@.len() ==> #[trigger] items_view(final(items)@)[i]
                == items_view(old(items)@)[i].map_values(|a: AttachmentView| restored(a, thumbs@)),
{
    let ghost old_v = items_view(items@);
    let mut out: Vec<Vec<Attachment>> = Vec::new();
    let mut i: usize = 0;
    while i < items.len()
        invariant
            old_v == items_view(items@),
            i <= old_v.len(),
            out@.len() == i,
            forall|p: int|
                0 <= p < i ==> #[trigger] items_view(out@)[p] == old_v[p].map_values(
                    |a: AttachmentView| restored(a, thumbs@),
                ),
        decreases items.len() - i,
    {
        let atts = &items[i];
        let ghost av = attachments_view(atts@);
        let ghost want = av.map_values(|a: AttachmentView| restored(a, thumbs@));
        let mut fixed: Vec<Attachment> = Vec::new();
        let mut q: usize = 0;
        while q < atts.len()
            invariant
                av == attachments_view(atts@),
                want == av.map_values(|a: AttachmentView| restored(a, thumbs@)),
                q <= av.len(),
                attachments_view(fixed@) == want.take(q as int),
            decreases atts.len() - q,
        {
            let a = &atts[q];
            let mut b = a.clone();
            if a.thumb.as_str().unicode_len() == 0 {
                match lookup_thumb(thumbs, &a.name, a.size) {
                    Some(t) => {
                        b = Attachment { name: a.name.clone(), mime: a.mime.clone(), size: a.size, thumb: t };
                    },
                    None => {},
                }
            }
            assert(b@ == want[q as int]);
            let ghost before = attachments_view(fixed@);
            let ghost bv = b@;
            fixed.push(b);
            assert(attachments_view(fixed@) =~= before.push(bv));
            assert(want.take(q + 1) =~= want.take(q as int).push(want[q as int]));
            assert(attachments_view(fixed@) =~= want.take(q + 1));
            q += 1;
        }
        assert(want.take(av.len() as int) =~= want);
        let ghost out0 = items_view(out@);
        out.push(fixed);
        assert(items_view(out@)[i as int] == want);
        assert forall|p: int| 0 <= p < i + 1 implies #[trigger] items_view(out@)[p] == old_v[p].map_values(
            |a: AttachmentView| restored(a, thumbs@),
        ) by {
            if p < i {
                assert(items_view(out@)[p] == out0[p]);
            }
        }
        i += 1;
    }
    *items = out;
}

/// The files a goose transcript sent with a picture, in the order it shows
/// them: a replay names nothing else, so these are what it is matched to.
pub open spec fn sent_spec(items: Seq<Seq<AttachmentView>>) -> Seq<AttachmentView> {
    items.flatten().filter(|a: AttachmentView| a.thumb.len() > 0)
}

/// What the goose transcript knows about the pictures it sent, for the
/// replay that is about to overwrite it: an ACP image block carries its
/// bytes and its type and nothing else, so without this a reconnect turned
/// every photo into a grey chip called "Image".
pub fn sent_attachments(items: &Vec<Vec<Attachment>>) -> (out: Vec<Attachment>)
    ensures
        attachments_view(out@) == sent_spec(items_view(items@)),
{
    let ghost iv = items_view(items@);
    let ghost keep = |a: AttachmentView| a.thumb.len() > 0;
    let mut out: Vec<Attachment> = Vec::new();
    let mut i: usize = 0;
    assert(iv.take(0).flatten() =~= Seq::<AttachmentView>::empty());
    assert(Seq::<AttachmentView>::empty().filter(keep) =~= Seq::<AttachmentView>::empty()) by {
        reveal_with_fuel(Seq::filter, 1);
    }
    while i < items.len()
        invariant
            iv == items_view(items@),
            keep == (|a: AttachmentView| a.thumb.len() > 0),
            i <= iv.len(),
            attachments_view(out@) == iv.take(i as int).flatten().filter(keep),
        decreases items.len() - i,
    {
        let atts = &items[i];
        let ghost av = attachments_view(atts@);
        assert(av == iv[i as int]);
        let ghost base = iv.take(i as int).flatten();
        let mut q: usize = 0;
        assert(base + av.take(0) =~= base);
        while q < atts.len()
            invariant
                av == attachments_view(atts@),
                keep == (|a: AttachmentView| a.thumb.len() > 0),
                q <= av.len(),
                attachments_view(out@) == (base + av.take(q as int)).filter(keep),
            decreases atts.len() - q,
        {
            let a = &atts[q];
            assert(base + av.take(q + 1) =~= (base + av.take(q as int)).push(a@));
            proof {
                (base + av.take(q as int)).lemma_filter_push(a@, keep);
            }
            if a.thumb.as_str().unicode_len() > 0 {
                let ghost before = attachments_view(out@);
                out.push(a.clone());
                assert(attachments_view(out@) =~= before.push(a@));
            }
            q += 1;
        }
        assert(av.take(av.len() as int) =~= av);
        proof {
            iv.take(i as int).lemma_flatten_push(av);
        }
        assert(iv.take(i + 1) =~= iv.take(i as int).push(av));
        i += 1;
    }
    assert(iv.take(iv.len() as int) =~= iv);
    out
}

/// The first of `sent` with this type and weight, which is all a replay
/// gives to match on.
pub open spec fn first_same(sent: Seq<AttachmentView>, mime: Seq<char>, size: u64) -> Option<int>
    decreases sent.len(),
{
    if sent.len() == 0 {
        None
    } else {
        match first_same(sent.drop_last(), mime, size) {
            Some(i) => Some(i),
            None => if sent.last().mime == mime && sent.last().size == size {
                Some(sent.len() - 1)
            } else {
                None
            },
        }
    }
}

proof fn lemma_first_same_prefix(sent: Seq<AttachmentView>, mime: Seq<char>, size: u64, k: int)
    requires
        0 <= k <= sent.len(),
        forall|j: int| 0 <= j < k ==> !(#[trigger] sent[j].mime == mime && sent[j].size == size),
    ensures
        first_same(sent.take(k), mime, size) is None,
    decreases k,
{
    if k > 0 {
        assert(sent.take(k).drop_last() =~= sent.take(k - 1));
        lemma_first_same_prefix(sent, mime, size, k - 1);
        assert(sent.take(k).last() == sent[k - 1]);
    }
}

proof fn lemma_first_same_extend(sent: Seq<AttachmentView>, mime: Seq<char>, size: u64, k: int)
    requires
        0 <= k <= sent.len(),
        first_same(sent.take(k), mime, size) is Some,
    ensures
        first_same(sent, mime, size) == first_same(sent.take(k), mime, size),
    decreases sent.len() - k,
{
    if k < sent.len() {
        assert(sent.take(k + 1).drop_last() =~= sent.take(k));
        lemma_first_same_extend(sent, mime, size, k + 1);
    } else {
        assert(sent.take(k) =~= sent);
    }
}

/// Give a replayed attachment back the name and the picture it was sent
/// with: matched on type and weight, and consumed on use, so two photos of
/// the same weight keep their own thumbnails.
pub fn adopt_sent(sent: &mut Vec<Attachment>, record: &mut Attachment)
    ensures
        match first_same(attachments_view(old(sent)@), old(record).mime@, old(record).size) {
            None => final(sent)@ == old(sent)@ && final(record)@ == old(record)@,
            Some(i) => {
                &&& attachments_view(final(sent)@) == attachments_view(old(sent)@).remove(i)
                &&& final(record)@ == AttachmentView {
                    name: attachments_view(old(sent)@)[i].name,
                    thumb: attachments_view(old(sent)@)[i].thumb,
                    ..old(record)@
                }
            },
        },
{
    let ghost sv = attachments_view(sent@);
    let mut k: usize = 0;
    while k < sent.len()
        invariant
            sv == attachments_view(sent@),
            sent@ == old(sent)@,
            *record == *old(record),
            k <= sv.len(),
            forall|j: int| 0 <= j < k ==> !(#[trigger] sv[j].mime == record.mime@ && sv[j].size
                == record.size),
        decreases sent.len() - k,
    {
        assert(sv[k as int] == sent@[k as int]@);
        if sent[k].size == record.size && same_text(sent[k].mime.as_str(), record.mime.as_str()) {
            proof {
                lemma_first_same_prefix(sv, record.mime@, record.size, k as int);
                assert(sv.take(k + 1).drop_last() =~= sv.take(k as int));
                assert(sv.take(k + 1).last() == sv[k as int]);
                lemma_first_same_extend(sv, record.mime@, record.size, k + 1);
            }
            let ghost raw = sent@;
            let known = sent.remove(k);
            assert(sent@ =~= raw.remove(k as int));
            assert(attachments_view(sent@) =~= sv.remove(k as int));
            record.name = known.name;
            record.thumb = known.thumb;
            return;
        }
        k += 1;
    }
    proof {
        lemma_first_same_prefix(sv, record.mime@, record.size, sv.len() as int);
        assert(sv.take(sv.len() as int) =~= sv);
    }
}

// ---- the picker script ---------------------------------------------------------

/// The script that opens the phone's file sheet, reads what was picked,
/// downscales images and hands the result back in one message. Its limits
/// are placeholders that `picker_js` fills from this module's constants, so
/// the numbers the browser enforces and the numbers the refusals quote
/// cannot drift apart.
pub const PICK_FILES: &'static str = r#"
(() => {
  if (window.__attachWired) return;
  window.__attachWired = true;

  const MAX_BYTES = __MAX_FILE_BYTES__;
  const MAX_FILES = __MAX_ATTACHMENTS__;
  const MAX_TOTAL = __MAX_TOTAL_BYTES__;
  const EDGE = __IMAGE_EDGE__;
  const RETRY_EDGE = __RETRY_EDGE__;
  const THUMB_EDGE = __THUMB_EDGE__;
  const QUALITY = 0.72;
  const RETRY_QUALITY = 0.6;

  // A file the picker hands over with no type at all — common for Files
  // documents — is still worth taking if its name says what it is.
  const TEXTY = /\.(txt|text|md|markdown|rst|json|jsonl|ya?ml|toml|ini|cfg|conf|csv|tsv|log|patch|diff|lock|rs|ts|tsx|js|jsx|mjs|py|rb|go|java|kt|swift|c|h|cc|cpp|hpp|cs|php|sh|bash|zsh|sql|html|css|scss|xml)$/i;

  const kindOf = (file) => {
    const t = (file.type || '').toLowerCase();
    // SVG is markup, and markup that a canvas will happily rasterise into
    // something quite unlike the file the agent was asked about.
    if (t.startsWith('image/') && t !== 'image/svg+xml') return 'image';
    if (t.startsWith('text/') || t === 'application/json' || t === 'application/xml') return 'text';
    if (t === 'application/pdf') return 'binary';
    if (!t && TEXTY.test(file.name)) return 'text';
    return null;
  };

  const b64 = (buf) => {
    // Chunked: String.fromCharCode.apply with a multi-megabyte array
    // overflows the argument stack and throws.
    const view = new Uint8Array(buf);
    let out = '';
    for (let i = 0; i < view.length; i += 0x8000) {
      out += String.fromCharCode.apply(null, view.subarray(i, i + 0x8000));
    }
    return btoa(out);
  };

  const bytesOf = (data) => Math.floor(data.replace(/=+$/, '').length * 3 / 4);

  // Decoding is the step that can hang on a file the browser cannot make
  // sense of, so it is the step with a deadline. Falling out of it as a
  // failure is what turns a stall into a message.
  const decode = (file) => new Promise((resolve) => {
    const url = URL.createObjectURL(file);
    const img = new Image();
    const finish = (value) => { clearTimeout(timer); resolve(value ? { img, url } : null); };
    const timer = setTimeout(() => { URL.revokeObjectURL(url); resolve(null); }, 15000);
    img.onload = () => finish(true);
    img.onerror = () => { URL.revokeObjectURL(url); finish(false); };
    img.src = url;
  });

  const render = (img, edge, quality) => {
    try {
      const scale = Math.min(1, edge / Math.max(img.width, img.height));
      const w = Math.max(1, Math.round(img.width * scale));
      const h = Math.max(1, Math.round(img.height * scale));
      const canvas = document.createElement('canvas');
      canvas.width = w;
      canvas.height = h;
      canvas.getContext('2d').drawImage(img, 0, 0, w, h);
      return canvas.toDataURL('image/jpeg', quality).split(',')[1] || null;
    } catch (err) {
      return null;
    }
  };

  const readImage = async (file) => {
    const decoded = await decode(file);
    if (!decoded) return { rejected: { name: file.name, reason: 'unreadable' } };
    try {
      let data = render(decoded.img, EDGE, QUALITY);
      if (data && bytesOf(data) > MAX_BYTES) {
        data = render(decoded.img, RETRY_EDGE, RETRY_QUALITY);
      }
      if (!data) return { rejected: { name: file.name, reason: 'unreadable' } };
      if (bytesOf(data) > MAX_BYTES) {
        return { rejected: { name: file.name, reason: 'too-big', bytes: bytesOf(data) } };
      }
      return {
        file: {
          name: file.name,
          mime: 'image/jpeg',
          data,
          thumb: render(decoded.img, THUMB_EDGE, RETRY_QUALITY) || '',
        },
      };
    } finally {
      URL.revokeObjectURL(decoded.url);
    }
  };

  const readBytes = async (file, kind) => {
    if (file.size > MAX_BYTES) {
      return { rejected: { name: file.name, reason: 'too-big', bytes: file.size } };
    }
    const buf = await file.arrayBuffer();
    const mime = kind === 'text' ? (file.type || 'text/plain') : file.type;
    return {
      file: {
        name: file.name,
        mime,
        data: b64(buf),
        thumb: '',
        text: kind === 'text' ? new TextDecoder('utf-8').decode(buf) : null,
      },
    };
  };

  const input = document.createElement('input');
  input.type = 'file';
  input.multiple = true;
  // No accept filter on purpose: with one, iOS narrows its sheet to the photo
  // routes and the Files route — the whole "or a file" half of this control —
  // stops being offered.
  input.style.cssText = 'position:fixed;left:-9999px;width:1px;height:1px;opacity:0';
  document.body.appendChild(input);

  let target = 'goose';
  let conversation = '';
  let seq = 0;

  document.addEventListener('click', (e) => {
    const btn = e.target.closest && e.target.closest('.attach');
    if (!btn) return;
    target = btn.dataset.attach || 'goose';
    // Which chat, not just which composer: the read finishes seconds later
    // and the tray it was picked for is emptied the moment you walk out of
    // the conversation.
    conversation = btn.dataset.conversation || '';
    // Picking the same file twice in a row is a real thing to do, and without
    // this the second pick changes nothing and fires no event.
    input.value = '';
    input.click();
  }, true);

  input.addEventListener('change', async () => {
    const chosen = [...input.files];
    if (!chosen.length) return;
    // Pinned for the whole read: this handler awaits, and a tap on the other
    // composer's button — or a walk into another chat — meanwhile would
    // otherwise redirect a pick already in progress into the wrong
    // conversation. The id is how two overlapping picks tell themselves
    // apart, so one finishing does not clear the other's progress row.
    const picked = target;
    const conv = conversation;
    const id = ++seq;
    // Reading and resizing several photos takes seconds. Say so, or the
    // composer simply sits there — but never promise to read more than one
    // message can carry.
    const reading = Math.min(chosen.length, MAX_FILES);
    dioxus.send(JSON.stringify({ pick: id, target: picked, conversation: conv, reading }));

    const files = [];
    const rejected = [];
    let total = 0;
    for (const file of chosen) {
      if (files.length >= MAX_FILES) {
        rejected.push({ name: file.name, reason: 'too-many' });
        continue;
      }
      const kind = kindOf(file);
      if (!kind) {
        rejected.push({ name: file.name, reason: 'unsupported', mime: file.type || '' });
        continue;
      }
      // Refused before it is read, where the weight is known up front. A
      // photo's is not — it weighs whatever the downscale makes it, usually a
      // twentieth of the file that was picked — so those are weighed after.
      if (kind !== 'image' && total + file.size > MAX_TOTAL) {
        rejected.push({ name: file.name, reason: 'too-heavy' });
        continue;
      }
      let result;
      try {
        result = kind === 'image' ? await readImage(file) : await readBytes(file, kind);
      } catch (err) {
        result = { rejected: { name: file.name, reason: 'unreadable' } };
      }
      if (result.rejected) {
        rejected.push(result.rejected);
        continue;
      }
      const weight = bytesOf(result.file.data);
      if (total + weight > MAX_TOTAL) {
        rejected.push({ name: file.name, reason: 'too-heavy' });
        continue;
      }
      total += weight;
      files.push(result.file);
    }
    dioxus.send(JSON.stringify({ pick: id, target: picked, conversation: conv, files, rejected }));
  });
})();
"#;

/// `s` with every occurrence of `pat` replaced by `rep`, left to right and
/// without overlaps.
pub open spec fn replaced(s: Seq<char>, pat: Seq<char>, rep: Seq<char>) -> Seq<char>
    decreases s.len(),
{
    if pat.len() == 0 || s.len() < pat.len() {
        s
    } else if s.take(pat.len() as int) == pat {
        rep + replaced(s.skip(pat.len() as int), pat, rep)
    } else {
        seq![s[0]] + replaced(s.skip(1), pat, rep)
    }
}

fn replace_all(s: &str, pat: &str, rep: &str) -> (out: String)
    requires
        pat@.len() > 0,
    ensures
        out@ == replaced(s@, pat@, rep@),
{
    let cs = chars_of(s);
    let p = chars_of(pat);
    let mut out = String::new();
    let mut i: usize = 0;
    assert(cs@.skip(0) =~= cs@);
    while i < cs.len()
        invariant
            cs@ == s@,
            p@ == pat@,
            p@.len() > 0,
            i <= cs@.len(),
            out@ + replaced(cs@.skip(i as int), p@, rep@) == replaced(s@, pat@, rep@),
        decreases cs.len() - i,
    {
        let ghost rest = cs@.skip(i as int);
        if p.len() <= cs.len() - i && starts_at(&cs, i, &p) {
            assert(rest.take(p@.len() as int) =~= p@);
            assert(rest.skip(p@.len() as int) =~= cs@.skip(i + p@.len()));
            let ghost out0 = out@;
            push_str(&mut out, rep);
            assert(out@ + replaced(cs@.skip(i + p@.len()), p@, rep@) =~= out0 + (rep@ + replaced(
                cs@.skip(i + p@.len()),
                p@,
                rep@,
            )));
            i = i + p.len();
        } else {
            proof {
                if rest.len() >= p@.len() {
                    assert(rest.take(p@.len() as int) != p@) by {
                        if rest.take(p@.len() as int) == p@ {
                            assert(cs@.subrange(i as int, i + p@.len()) =~= rest.take(p@.len() as int));
                        }
                    }
                }
            }
            assert(rest.skip(1) =~= cs@.skip(i + 1));
            let ghost out0 = out@;
            crate::text::push_char(&mut out, cs[i]);
            assert(out@ + replaced(cs@.skip(i + 1), p@, rep@) =~= out0 + (seq![cs@[i as int]]
                + replaced(cs@.skip(i + 1), p@, rep@)));
            i = i + 1;
        }
    }
    assert(cs@.skip(i as int) =~= Seq::<char>::empty());
    out
}

/// The picker script with this module's limits filled in.
pub open spec fn picker_spec() -> Seq<char> {
    replaced(
        replaced(
            replaced(
                replaced(
                    replaced(
                        replaced(PICK_FILES@, "__MAX_FILE_BYTES__"@, decimal(MAX_FILE_BYTES as nat)),
                        "__MAX_ATTACHMENTS__"@,
                        decimal(MAX_ATTACHMENTS as nat),
                    ),
                    "__MAX_TOTAL_BYTES__"@,
                    decimal(MAX_TOTAL_BYTES as nat),
                ),
                "__IMAGE_EDGE__"@,
                decimal(IMAGE_EDGE as nat),
            ),
            "__RETRY_EDGE__"@,
            decimal(RETRY_EDGE as nat),
        ),
        "__THUMB_EDGE__"@,
        decimal(THUMB_EDGE as nat),
    )
}

/// The picker script with this module's limits substituted in.
pub fn picker_js() -> (js: String)
    ensures
        js@ == picker_spec(),
{
    proof {
        reveal_strlit("__MAX_FILE_BYTES__");
        reveal_strlit("__MAX_ATTACHMENTS__");
        reveal_strlit("__MAX_TOTAL_BYTES__");
        reveal_strlit("__IMAGE_EDGE__");
        reveal_strlit("__RETRY_EDGE__");
        reveal_strlit("__THUMB_EDGE__");
    }
    let n = decimal_string(MAX_FILE_BYTES);
    let js = replace_all(PICK_FILES, "__MAX_FILE_BYTES__", n.as_str());
    let n = decimal_string(MAX_ATTACHMENTS as u64);
    let js = replace_all(js.as_str(), "__MAX_ATTACHMENTS__", n.as_str());
    let n = decimal_string(MAX_TOTAL_BYTES);
    let js = replace_all(js.as_str(), "__MAX_TOTAL_BYTES__", n.as_str());
    let n = decimal_string(IMAGE_EDGE as u64);
    let js = replace_all(js.as_str(), "__IMAGE_EDGE__", n.as_str());
    let n = decimal_string(RETRY_EDGE as u64);
    let js = replace_all(js.as_str(), "__RETRY_EDGE__", n.as_str());
    let n = decimal_string(THUMB_EDGE as u64);
    replace_all(js.as_str(), "__THUMB_EDGE__", n.as_str())
}

fn weight_fits(tray: &Vec<PendingAttachment>) -> (b: bool)
    ensures
        b == (tray_weight(pendings_view(tray@)) <= u64::MAX),
{
    let ghost tv = pendings_view(tray@);
    let mut w: u64 = 0;
    let mut k: usize = 0;
    assert(tv.take(0) =~= Seq::<PendingView>::empty());
    while k < tray.len()
        invariant
            tv == pendings_view(tray@),
            k <= tv.len(),
            w == tray_weight(tv.take(k as int)),
        decreases tray.len() - k,
    {
        assert(tv.take(k + 1).drop_last() =~= tv.take(k as int));
        match w.checked_add(tray[k].record.size) {
            Some(next) => w = next,
            None => {
                proof {
                    lemma_weight_prefix(tv, k + 1);
                }
                return false;
            },
        }
        k += 1;
    }
    assert(tv.take(tv.len() as int) =~= tv);
    true
}

/// The toast a picker message leaves, if any: files lost to a chat that
/// was closed while they were read, or the refusals of the files that
/// landed, worded as `refused` words them.
pub fn receipt_toast(receipt: &Receipt, refused: &Vec<String>) -> (r: Option<String>)
    ensures
        match receipt {
            Receipt::ChatClosed { had_files: true } => r matches Some(t) && t@
                == "Not attached: the chat they were picked in is closed"@,
            Receipt::Landed { .. } => match (r, summary_spec(strings_view(refused@))) {
                (Some(x), Some(y)) => x@ == y,
                (None, None) => true,
                _ => false,
            },
            _ => r is None,
        },
{
    match receipt {
        Receipt::ChatClosed { had_files: true } => Some(
            "Not attached: the chat they were picked in is closed".to_owned(),
        ),
        Receipt::Landed { .. } => refusal_summary(refused),
        _ => None,
    }
}

/// Whether every tray weighs what a `u64` can count, which is what
/// `receive` and `return_to_tray` ask of them.
pub fn trays_fit(trays: &Trays) -> (b: bool)
    ensures
        b == trays_countable(trays@),
{
    weight_fits(&trays.goose) && weight_fits(&trays.code) && weight_fits(&trays.new_chat)
}

} // verus!
