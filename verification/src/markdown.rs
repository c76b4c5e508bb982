//! Markdown for chat bubbles: the YAML frontmatter a skill document opens
//! with, the escaping of plain text, and what the renderer does with each
//! kind of event it meets — raw HTML in the source is neutralised, rendered
//! as text, so agent output cannot inject markup into the web view, and an
//! image becomes its address in words, so nothing remote is ever fetched.

use vstd::prelude::*;

use crate::text::{chars_of, is_whitespace, push_char, push_str, trim_end_ws};
use pulldown_cmark::{html, CowStr, Event, Options, Parser, Tag, TagEnd};

verus! {

// ---- frontmatter --------------------------------------------------------

/// Where the body after an opening `---` line starts, if `s` opens with
/// exactly that line: `---` then `\n` or `\r\n`. Four dashes are a rule.
pub open spec fn fence_end(s: Seq<char>) -> Option<int> {
    if s.len() >= 4 && s[0] == '-' && s[1] == '-' && s[2] == '-' && s[3] == '\n' {
        Some(4)
    } else if s.len() >= 5 && s[0] == '-' && s[1] == '-' && s[2] == '-' && s[3] == '\r' && s[4]
        == '\n' {
        Some(5)
    } else {
        None
    }
}

/// The index just past the line that starts at `i`: past its `\n`, or the
/// end of `s`.
pub open spec fn line_end(s: Seq<char>, i: int) -> int
    decreases s.len() - i,
{
    if i >= s.len() {
        s.len() as int
    } else if s[i] == '\n' {
        i + 1
    } else {
        line_end(s, i + 1)
    }
}

/// `---` as characters.
pub open spec fn dashes() -> Seq<char> {
    seq!['-', '-', '-']
}

/// Where the body after the closing `---` line starts, looking at lines
/// from the one that starts at `i`.
pub open spec fn closing_after(s: Seq<char>, i: int) -> Option<int>
    decreases s.len() - i,
{
    if i < 0 || i >= s.len() {
        None
    } else {
        proof {
            lemma_line_end(s, i);
        }
        let j = line_end(s, i);
        if trim_end_ws(s.subrange(i, j)) == dashes() {
            Some(j)
        } else {
            closing_after(s, j)
        }
    }
}

pub proof fn lemma_line_end(s: Seq<char>, i: int)
    requires
        0 <= i < s.len(),
    ensures
        i < line_end(s, i) <= s.len(),
    decreases s.len() - i,
{
    if s[i] != '\n' {
        if i + 1 < s.len() {
            lemma_line_end(s, i + 1);
        } else {
            assert(line_end(s, i + 1) == s.len());
        }
    }
}

/// `s` without the `\r` and `\n` it starts with.
pub open spec fn trim_newlines(s: Seq<char>) -> Seq<char>
    decreases s.len(),
{
    if s.len() > 0 && (s[0] == '\r' || s[0] == '\n') {
        trim_newlines(s.drop_first())
    } else {
        s
    }
}

/// `source` without a leading frontmatter block, if it opens with a closed
/// one; otherwise all of it.
pub open spec fn strip_spec(s: Seq<char>) -> Seq<char> {
    match fence_end(s) {
        None => s,
        Some(b) => match closing_after(s, b) {
            Some(j) => trim_newlines(s.skip(j)),
            None => s,
        },
    }
}

/// What follows an opening `---` line, or `None` if `source` does not start
/// with exactly that. Exact, so `----` — four dashes, a rule — is not
/// mistaken for a fence.
pub fn open_fence(source: &str) -> (r: Option<&str>)
    ensures
        match r {
            Some(body) => fence_end(source@) matches Some(b) && body@ == source@.skip(b),
            None => fence_end(source@) is None,
        },
{
    let n = source.unicode_len();
    if n >= 4 && source.get_char(0) == '-' && source.get_char(1) == '-' && source.get_char(2)
        == '-' {
        if source.get_char(3) == '\n' {
            assert(source@.subrange(4, n as int) =~= source@.skip(4));
            return Some(source.substring_char(4, n));
        }
        if n >= 5 && source.get_char(3) == '\r' && source.get_char(4) == '\n' {
            assert(source@.subrange(5, n as int) =~= source@.skip(5));
            return Some(source.substring_char(5, n));
        }
    }
    None
}

/// Drop a leading YAML frontmatter block, if the document opens with one.
///
/// Frontmatter is not markdown, and a `SKILL.md` rendered straight through
/// would open with its own metadata set as a heading. Only a closed block
/// counts: a document whose first line is `---` and which never closes is a
/// horizontal rule the author meant. The blank line the closing fence
/// usually leaves behind goes with it.
pub fn strip_frontmatter(source: &str) -> (r: &str)
    ensures
        r@ == strip_spec(source@),
{
    let s = chars_of(source);
    let n = s.len();
    let b = match open_fence(source) {
        None => {
            return source;
        },
        Some(body) => n - body.unicode_len(),
    };
    assert(fence_end(source@) == Some(b as int));
    let mut i = b;
    loop
        invariant
            s@ == source@,
            n == s@.len(),
            b <= i <= n,
            fence_end(source@) == Some(b as int),
            closing_after(source@, i as int) == closing_after(source@, b as int),
        decreases n - i,
    {
        if i >= n {
            return source;
        }
        let mut j = i;
        while j < n && s[j] != '\n'
            invariant
                s@ == source@,
                n == s@.len(),
                i <= j <= n,
                line_end(source@, j as int) == line_end(source@, i as int),
            decreases n - j,
        {
            j += 1;
        }
        if j < n {
            j += 1;
        }
        let mut t = j;
        while t > i && is_whitespace(s[t - 1])
            invariant
                s@ == source@,
                n == s@.len(),
                i <= t <= j <= n,
                trim_end_ws(source@.subrange(i as int, t as int)) == trim_end_ws(
                    source@.subrange(i as int, j as int),
                ),
            decreases t,
        {
            assert(source@.subrange(i as int, t as int).drop_last() =~= source@.subrange(
                i as int,
                t - 1,
            ));
            t -= 1;
        }
        assert(trim_end_ws(source@.subrange(i as int, t as int)) == source@.subrange(
            i as int,
            t as int,
        ));
        if t - i == 3 && s[i] == '-' && s[i + 1] == '-' && s[i + 2] == '-' {
            assert(source@.subrange(i as int, t as int) =~= dashes());
            let mut k = j;
            while k < n && (s[k] == '\r' || s[k] == '\n')
                invariant
                    s@ == source@,
                    n == s@.len(),
                    j <= k <= n,
                    trim_newlines(source@.skip(k as int)) == trim_newlines(source@.skip(j as int)),
                decreases n - k,
            {
                assert(source@.skip(k as int).drop_first() =~= source@.skip(k + 1));
                k += 1;
            }
            assert(source@.subrange(k as int, n as int) =~= source@.skip(k as int));
            assert(trim_newlines(source@.skip(k as int)) == source@.skip(k as int));
            return source.substring_char(k, n);
        }
        assert(source@.subrange(i as int, t as int) != dashes());
        i = j;
    }
}

// ---- escaping -----------------------------------------------------------

/// One character as it may stand in HTML text.
pub open spec fn escaped_char(c: char) -> Seq<char> {
    if c == '&' {
        "&amp;"@
    } else if c == '<' {
        "&lt;"@
    } else if c == '>' {
        "&gt;"@
    } else if c == '"' {
        "&quot;"@
    } else {
        seq![c]
    }
}

/// `text` with `&`, `<`, `>` and `"` escaped for HTML.
pub open spec fn escaped(text: Seq<char>) -> Seq<char>
    decreases text.len(),
{
    if text.len() == 0 {
        Seq::empty()
    } else {
        escaped(text.drop_last()) + escaped_char(text.last())
    }
}

/// Escape plain text for embedding in HTML; user bubbles keep raw text.
pub fn escape_text(text: &str) -> (out: String)
    ensures
        out@ == escaped(text@),
{
    let cs = chars_of(text);
    let mut out = String::new();
    let mut k: usize = 0;
    assert(text@.take(0) =~= Seq::<char>::empty());
    while k < cs.len()
        invariant
            cs@ == text@,
            k <= cs@.len(),
            out@ == escaped(text@.take(k as int)),
        decreases cs.len() - k,
    {
        assert(text@.take(k + 1).drop_last() =~= text@.take(k as int));
        let c = cs[k];
        if c == '&' {
            push_str(&mut out, "&amp;");
        } else if c == '<' {
            push_str(&mut out, "&lt;");
        } else if c == '>' {
            push_str(&mut out, "&gt;");
        } else if c == '"' {
            push_str(&mut out, "&quot;");
        } else {
            push_char(&mut out, c);
        }
        k += 1;
    }
    assert(text@.take(cs@.len() as int) =~= text@);
    out
}

// ---- rendering ----------------------------------------------------------

/// The kinds of parser event the renderer tells apart.
#[derive(Clone, Copy, Debug, PartialEq, Eq, Structural)]
pub enum EventClass {
    /// A block of raw HTML.
    Html,
    /// Raw HTML inside a paragraph.
    InlineHtml,
    /// The start of an image.
    ImageStart,
    /// The end of an image.
    ImageEnd,
    /// Anything else.
    Other,
}

/// What becomes of one event.
#[derive(Clone, Copy, Debug, PartialEq, Eq, Structural)]
pub enum Screened {
    /// Rendered as it is.
    Keep,
    /// Its raw source rendered as text.
    AsText,
    /// Replaced by the image's address, in words.
    ImageLabel,
    /// Not rendered.
    Drop,
}

/// What becomes of an event of kind `class`, and whether an image is open
/// after it. Raw HTML is text wherever it stands; an image's own events —
/// its alt text — are dropped.
pub open spec fn screen_spec(class: EventClass, in_image: bool) -> (Screened, bool) {
    match class {
        EventClass::Html => (Screened::AsText, in_image),
        EventClass::InlineHtml => (Screened::AsText, in_image),
        EventClass::ImageStart => (Screened::ImageLabel, true),
        EventClass::ImageEnd => (Screened::Drop, false),
        EventClass::Other => if in_image {
            (Screened::Drop, true)
        } else {
            (Screened::Keep, false)
        },
    }
}

/// What becomes of an event of kind `class` when an image is or is not
/// open, and whether one is open after it.
pub fn screen_event(class: EventClass, in_image: bool) -> (r: (Screened, bool))
    ensures
        r == screen_spec(class, in_image),
{
    match class {
        EventClass::Html | EventClass::InlineHtml => (Screened::AsText, in_image),
        EventClass::ImageStart => (Screened::ImageLabel, true),
        EventClass::ImageEnd => (Screened::Drop, false),
        EventClass::Other => if in_image {
            (Screened::Drop, true)
        } else {
            (Screened::Keep, false)
        },
    }
}

/// The words an image is rendered as: `[image: <address>]`.
pub fn image_label(dest: &str) -> (out: String)
    ensures
        out@ == "[image: "@ + dest@ + "]"@,
{
    let mut out = String::new();
    push_str(&mut out, "[image: ");
    push_str(&mut out, dest);
    push_str(&mut out, "]");
    out
}

/// The dialect the chat renders, as pulldown-cmark's option bits: tables
/// (`1 << 1`), strikethrough (`1 << 3`) and task lists (`1 << 4`).
pub const MARKDOWN_OPTIONS: u32 = 26;

/// What pulldown-cmark reads out of `markdown` with the option bits
/// `options`: each event's kind, with the raw source of an HTML event or
/// the address of an image, and nothing for any other event.
pub uninterp spec fn md_events(markdown: Seq<char>, options: u32) -> Seq<(EventClass, Seq<char>)>;

/// The HTML pulldown-cmark writes for `markdown`, parsed with `options`,
/// once each of its events has been kept, dropped, or replaced by text as
/// `plan` says, event by event.
pub uninterp spec fn md_render(markdown: Seq<char>, options: u32, plan: Seq<EmitView>) -> Seq<char>;

pub open spec fn md_events_view(v: Seq<(EventClass, String)>) -> Seq<(EventClass, Seq<char>)> {
    v.map_values(|e: (EventClass, String)| (e.0, e.1@))
}

/// What the renderer writes in place of one event.
#[derive(Clone, Debug, PartialEq, Eq)]
pub enum Emit {
    /// The event as it is.
    Keep,
    /// Nothing.
    Drop,
    /// This text, escaped as text.
    Text(String),
}

pub enum EmitView {
    Keep,
    Drop,
    Text(Seq<char>),
}

impl View for Emit {
    type V = EmitView;

    open spec fn view(&self) -> EmitView {
        match self {
            Emit::Keep => EmitView::Keep,
            Emit::Drop => EmitView::Drop,
            Emit::Text(t) => EmitView::Text(t@),
        }
    }
}

pub open spec fn emits_view(v: Seq<Emit>) -> Seq<EmitView> {
    v.map_values(|e: Emit| e@)
}

/// Whether an image is open before event `i`: the state the screening has
/// reached after the events before it.
pub open spec fn open_at(events: Seq<(EventClass, Seq<char>)>, i: int) -> bool
    decreases i,
{
    if i <= 0 {
        false
    } else {
        screen_spec(events[i - 1].0, open_at(events, i - 1)).1
    }
}

/// What an event becomes: itself, nothing, its raw source as text, or an
/// image's address in words.
pub open spec fn emit_of(s: Screened, e: (EventClass, Seq<char>)) -> EmitView {
    match s {
        Screened::Keep => EmitView::Keep,
        Screened::Drop => EmitView::Drop,
        Screened::AsText => EmitView::Text(e.1),
        Screened::ImageLabel => EmitView::Text("[image: "@ + e.1 + "]"@),
    }
}

/// What becomes of every event of a document, screened in order starting
/// outside an image.
pub open spec fn screened_spec(events: Seq<(EventClass, Seq<char>)>) -> Seq<EmitView> {
    Seq::new(
        events.len(),
        |i: int| emit_of(screen_spec(events[i].0, open_at(events, i)).0, events[i]),
    )
}

/// The events of `markdown`, through pulldown-cmark's parser.
#[verifier::external_body]
fn parse_events(markdown: &str, options: u32) -> (v: Vec<(EventClass, String)>)
    ensures
        md_events_view(v@) == md_events(markdown@, options),
{
    Parser::new_ext(markdown, Options::from_bits_truncate(options)).map(|event| match event {
        Event::Html(raw) => (EventClass::Html, raw.to_string()),
        Event::InlineHtml(raw) => (EventClass::InlineHtml, raw.to_string()),
        Event::Start(Tag::Image { dest_url, .. }) => (EventClass::ImageStart, dest_url.to_string()),
        Event::End(TagEnd::Image) => (EventClass::ImageEnd, String::new()),
        _ => (EventClass::Other, String::new()),
    }).collect()
}

/// The HTML pulldown-cmark writes for `markdown` with each event emitted as
/// `plan` says: the parse is pulldown-cmark's, and `push_html` writes it.
#[verifier::external_body]
fn render_events(markdown: &str, options: u32, plan: &Vec<Emit>) -> (html: String)
    ensures
        html@ == md_render(markdown@, options, emits_view(plan@)),
{
    let events = Parser::new_ext(markdown, Options::from_bits_truncate(options));
    let emitted = events.zip(plan.iter()).filter_map(|(event, emit)| match emit {
        Emit::Keep => Some(event),
        Emit::Drop => None,
        Emit::Text(t) => Some(Event::Text(CowStr::from(t.clone()))),
    });
    let mut html = String::new();
    html::push_html(&mut html, emitted);
    html
}

/// What becomes of every event of a document: raw HTML as text, an image
/// as its address in words with its alt text dropped, everything else as
/// it is.
pub fn screen_all(events: &Vec<(EventClass, String)>) -> (plan: Vec<Emit>)
    ensures
        emits_view(plan@) == screened_spec(md_events_view(events@)),
{
    let ghost ev = md_events_view(events@);
    let mut plan: Vec<Emit> = Vec::new();
    let mut in_image = false;
    let mut k: usize = 0;
    while k < events.len()
        invariant
            ev == md_events_view(events@),
            k <= ev.len(),
            in_image == open_at(ev, k as int),
            emits_view(plan@) == screened_spec(ev).take(k as int),
        decreases events.len() - k,
    {
        let (what, open) = screen_event(events[k].0, in_image);
        let e = &events[k];
        assert(ev[k as int] == (e.0, e.1@));
        let emit = match what {
            Screened::Keep => Emit::Keep,
            Screened::Drop => Emit::Drop,
            Screened::AsText => Emit::Text(e.1.clone()),
            Screened::ImageLabel => Emit::Text(image_label(e.1.as_str())),
        };
        let ghost before = emits_view(plan@);
        plan.push(emit);
        assert(emits_view(plan@) =~= before.push(screened_spec(ev)[k as int]));
        assert(screened_spec(ev).take(k + 1) =~= screened_spec(ev).take(k as int).push(
            screened_spec(ev)[k as int],
        ));
        in_image = open;
        k += 1;
    }
    assert(screened_spec(ev).take(ev.len() as int) =~= screened_spec(ev));
    plan
}

/// Markdown to HTML for a chat bubble: raw HTML in the source is rendered
/// as text, so agent output cannot inject markup, and an image becomes its
/// address in words, so nothing remote is fetched.
pub fn to_html(markdown: &str) -> (html: String)
    ensures
        html@ == md_render(
            markdown@,
            MARKDOWN_OPTIONS,
            screened_spec(md_events(markdown@, MARKDOWN_OPTIONS)),
        ),
{
    let events = parse_events(markdown, MARKDOWN_OPTIONS);
    let plan = screen_all(&events);
    render_events(markdown, MARKDOWN_OPTIONS, &plan)
}

// ---- laws ---------------------------------------------------------------

proof fn lemma_trim_newlines_suffix(s: Seq<char>)
    ensures
        exists|j: int| 0 <= j <= s.len() && trim_newlines(s) == s.skip(j),
    decreases s.len(),
{
    if s.len() > 0 && (s[0] == '\r' || s[0] == '\n') {
        lemma_trim_newlines_suffix(s.drop_first());
        let j = choose|j: int|
            0 <= j <= s.drop_first().len() && trim_newlines(s.drop_first()) == s.drop_first().skip(
                j,
            );
        assert(s.drop_first().skip(j) =~= s.skip(j + 1));
    } else {
        assert(s.skip(0) =~= s);
    }
}

/// Stripping frontmatter only ever takes text off the front of a document:
/// what is left is always the document from some point on, never an
/// edited copy of it.
pub proof fn law_frontmatter_goes_from_the_front_only(source: Seq<char>)
    ensures
        exists|j: int| 0 <= j <= source.len() && strip_spec(source) == source.skip(j),
{
    match fence_end(source) {
        None => {
            assert(source.skip(0) =~= source);
        },
        Some(b) => match closing_after(source, b) {
            Some(j) => {
                lemma_closing_in_range(source, b);
                lemma_trim_newlines_suffix(source.skip(j));
                let k = choose|k: int|
                    0 <= k <= source.skip(j).len() && trim_newlines(source.skip(j))
                        == source.skip(j).skip(k);
                assert(source.skip(j).skip(k) =~= source.skip(j + k));
            },
            None => {
                assert(source.skip(0) =~= source);
            },
        },
    }
}

proof fn lemma_closing_in_range(s: Seq<char>, i: int)
    ensures
        closing_after(s, i) matches Some(j) ==> 0 <= j <= s.len(),
    decreases s.len() - i,
{
    if 0 <= i < s.len() {
        lemma_line_end(s, i);
        lemma_closing_in_range(s, line_end(s, i));
    }
}

/// Escaped text holds no `<`, `>` or `"`: whatever the text said, it cannot
/// open a tag or close an attribute once it is embedded in HTML.
pub proof fn law_escaped_text_holds_no_markup(text: Seq<char>)
    ensures
        forall|i: int|
            0 <= i < escaped(text).len() ==> #[trigger] escaped(text)[i] != '<' && escaped(
                text,
            )[i] != '>' && escaped(text)[i] != '"',
    decreases text.len(),
{
    if text.len() > 0 {
        law_escaped_text_holds_no_markup(text.drop_last());
        let head = escaped(text.drop_last());
        let tail = escaped_char(text.last());
        reveal_strlit("&amp;");
        reveal_strlit("&lt;");
        reveal_strlit("&gt;");
        reveal_strlit("&quot;");
        assert forall|i: int| 0 <= i < (head + tail).len() implies #[trigger] (head + tail)[i]
            != '<' && (head + tail)[i] != '>' && (head + tail)[i] != '"' by {
            if i >= head.len() {
                assert((head + tail)[i] == tail[i - head.len()]);
            }
        }
    }
}

/// Whether no image ends strictly between events `j` and `i`.
pub open spec fn no_end_between(events: Seq<(EventClass, Seq<char>)>, j: int, i: int) -> bool {
    forall|k: int| j < k < i ==> (#[trigger] events[k]).0 != EventClass::ImageEnd
}

/// Whether the image started at event `j` is still open before event `i`.
pub open spec fn opened_at(events: Seq<(EventClass, Seq<char>)>, j: int, i: int) -> bool {
    0 <= j < i && events[j].0 == EventClass::ImageStart && no_end_between(events, j, i)
}

/// Whether an image is open before event `i`: an image started before it
/// and has not ended since.
pub open spec fn inside_image(events: Seq<(EventClass, Seq<char>)>, i: int) -> bool {
    exists|j: int| #[trigger] opened_at(events, j, i)
}

proof fn lemma_inside_step(events: Seq<(EventClass, Seq<char>)>, i: int)
    requires
        0 < i <= events.len(),
    ensures
        inside_image(events, i) == if events[i - 1].0 == EventClass::ImageStart {
            true
        } else if events[i - 1].0 == EventClass::ImageEnd {
            false
        } else {
            inside_image(events, i - 1)
        },
{
    let c = events[i - 1].0;
    if c == EventClass::ImageStart {
        assert(opened_at(events, i - 1, i));
    } else if c == EventClass::ImageEnd {
        if inside_image(events, i) {
            let j = choose|j: int| #[trigger] opened_at(events, j, i);
            if j < i - 1 {
                assert(events[i - 1].0 != EventClass::ImageEnd);
            }
        }
    } else {
        if inside_image(events, i) {
            let j = choose|j: int| #[trigger] opened_at(events, j, i);
            assert(j != i - 1);
            assert(opened_at(events, j, i - 1));
        }
        if inside_image(events, i - 1) {
            let j = choose|j: int| #[trigger] opened_at(events, j, i - 1);
            assert(opened_at(events, j, i));
        }
    }
}

proof fn lemma_open_is_inside(events: Seq<(EventClass, Seq<char>)>, i: int)
    requires
        0 <= i <= events.len(),
    ensures
        open_at(events, i) == inside_image(events, i),
    decreases i,
{
    if i > 0 {
        lemma_open_is_inside(events, i - 1);
        lemma_inside_step(events, i);
    } else {
        assert(!inside_image(events, 0)) by {
            if inside_image(events, 0) {
                let j = choose|j: int| #[trigger] opened_at(events, j, 0);
            }
        }
    }
}

/// No raw HTML and no image of the source is rendered as itself: every
/// HTML event becomes its own source as text, every image its address in
/// words, and the only events kept as they are are the others, outside an
/// image.
pub proof fn law_no_raw_html_or_image_is_kept(events: Seq<(EventClass, Seq<char>)>)
    ensures
        screened_spec(events).len() == events.len(),
        forall|i: int|
            0 <= i < events.len() ==> {
                let e = #[trigger] events[i];
                let p = screened_spec(events)[i];
                &&& (e.0 == EventClass::Html || e.0 == EventClass::InlineHtml) ==> p == EmitView::Text(e.1)
                &&& e.0 == EventClass::ImageStart ==> p == EmitView::Text("[image: "@ + e.1 + "]"@)
                &&& (p is Keep <==> e.0 == EventClass::Other && !inside_image(events, i))
            },
{
    assert forall|i: int| 0 <= i < events.len() implies {
        let e = #[trigger] events[i];
        let p = screened_spec(events)[i];
        &&& (e.0 == EventClass::Html || e.0 == EventClass::InlineHtml) ==> p == EmitView::Text(e.1)
        &&& e.0 == EventClass::ImageStart ==> p == EmitView::Text("[image: "@ + e.1 + "]"@)
        &&& (p is Keep <==> e.0 == EventClass::Other && !inside_image(events, i))
    } by {
        lemma_open_is_inside(events, i);
    }
}

} // verus!
