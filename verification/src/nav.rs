//! The navigation table: every destination the drawer and the sidebar can
//! open, the two taxonomies over it (the phone's drawer groups and the
//! desktop's planes), and the dump keys the screens are captured under.
//!
//! A row here is what a destination is, not how it renders: the screens
//! themselves belong to the shell.

use vstd::prelude::*;

use crate::text::same_text;

verus! {

/// Where a destination sits in the phone's drawer.
#[derive(Clone, Copy, Debug, PartialEq, Eq, Structural)]
pub enum Group {
    /// What you are doing; the one group without a header.
    Work,
    /// What you have saved.
    Library,
    /// The machine's own configuration.
    Server,
}

pub open spec fn header_spec(group: Group) -> Option<Seq<char>> {
    match group {
        Group::Work => None,
        Group::Library => Some("Library"@),
        Group::Server => Some("Server"@),
    }
}

impl Group {
    /// The section header, or `None` for the group that takes none.
    pub fn header(self) -> (h: Option<&'static str>)
        ensures
            match h {
                Some(s) => header_spec(self) == Some(s@),
                None => header_spec(self) is None,
            },
    {
        match self {
            Group::Work => None,
            Group::Library => Some("Library"),
            Group::Server => Some("Server"),
        }
    }
}

/// Which half of the app a destination belongs to on the desktop.
#[derive(Clone, Copy, Debug, PartialEq, Eq, Structural)]
pub enum Plane {
    Chat,
    Code,
}

pub open spec fn plane_label_spec(plane: Plane) -> Seq<char> {
    match plane {
        Plane::Chat => "Chat"@,
        Plane::Code => "Code"@,
    }
}

pub open spec fn plane_icon_spec(plane: Plane) -> Seq<char> {
    match plane {
        Plane::Chat => "message"@,
        Plane::Code => "code"@,
    }
}

impl Plane {
    /// What the switch's segment says.
    pub fn label(self) -> (s: &'static str)
        ensures
            s@ == plane_label_spec(self),
    {
        match self {
            Plane::Chat => "Chat",
            Plane::Code => "Code",
        }
    }

    /// The glyph beside the label: that of the destination the plane opens.
    pub fn icon(self) -> (s: &'static str)
        ensures
            s@ == plane_icon_spec(self),
    {
        match self {
            Plane::Chat => "message",
            Plane::Code => "code",
        }
    }
}

/// What the desktop's window bar names a screen with.
#[derive(Clone, Debug, PartialEq, Eq)]
pub struct Crumb {
    pub title: String,
    /// Where the thing lives, what it is part of.
    pub subtitle: Option<String>,
}

impl Crumb {
    /// A name and nothing else.
    pub fn plain(title: &str) -> (c: Crumb)
        ensures
            c.title@ == title@,
            c.subtitle is None,
    {
        Crumb { title: title.to_owned(), subtitle: None }
    }

    /// A name and where it lives; no subtitle is the same as a plain crumb.
    pub fn detailed(title: &str, subtitle: Option<String>) -> (c: Crumb)
        ensures
            c.title@ == title@,
            c.subtitle == subtitle,
    {
        Crumb { title: title.to_owned(), subtitle }
    }
}

/// Which destination's stack a row is.
#[derive(Clone, Copy, Debug, PartialEq, Eq, Structural)]
pub enum Place {
    Chats,
    Code,
    Recipes,
    Skills,
    Scheduler,
    Extensions,
    Settings,
}

/// One destination of the drawer and the sidebar.
#[derive(Clone, Copy, Debug, PartialEq, Eq)]
pub struct Destination {
    /// Stable identifier, and the stem of its screens' dump keys.
    pub id: &'static str,
    pub label: &'static str,
    pub icon: &'static str,
    /// Which drawer section the phone files it under.
    pub group: Group,
    /// Which half of the app it belongs to, or `None` for the one row that
    /// belongs to neither.
    pub plane: Option<Plane>,
    /// Whether it has a list at the bottom of its stack: the column the
    /// desktop keeps while a detail is open.
    pub lists: bool,
    /// Which stack it is: what reaching it, being at its root, and naming
    /// its screens go by.
    pub place: Place,
}

/// A destination read as values.
pub struct DestView {
    pub id: Seq<char>,
    pub label: Seq<char>,
    pub icon: Seq<char>,
    pub group: Group,
    pub plane: Option<Plane>,
    pub lists: bool,
    pub place: Place,
}

impl View for Destination {
    type V = DestView;

    open spec fn view(&self) -> DestView {
        DestView {
            id: self.id@,
            label: self.label@,
            icon: self.icon@,
            group: self.group,
            plane: self.plane,
            lists: self.lists,
            place: self.place,
        }
    }
}

pub open spec fn dests_view(v: Seq<Destination>) -> Seq<DestView> {
    v.map_values(|d: Destination| d@)
}

pub open spec fn row(
    id: Seq<char>,
    label: Seq<char>,
    icon: Seq<char>,
    group: Group,
    plane: Option<Plane>,
    lists: bool,
    place: Place,
) -> DestView {
    DestView { id, label, icon, group, plane, lists, place }
}

/// Every destination, in drawer order.
pub open spec fn table() -> Seq<DestView> {
    seq![
        row("chats"@, "Chats"@, "message"@, Group::Work, Some(Plane::Chat), true, Place::Chats),
        row("code"@, "Code"@, "code"@, Group::Work, Some(Plane::Code), true, Place::Code),
        row("recipes"@, "Recipes"@, "book"@, Group::Library, Some(Plane::Chat), true, Place::Recipes),
        row("skills"@, "Skills"@, "sparkle"@, Group::Library, Some(Plane::Chat), true, Place::Skills),
        row("scheduler"@, "Scheduler"@, "clock"@, Group::Library, Some(Plane::Chat), true, Place::Scheduler),
        row("extensions"@, "Extensions"@, "package"@, Group::Server, Some(Plane::Chat), true, Place::Extensions),
        row("settings"@, "Settings"@, "gear"@, Group::Server, None, false, Place::Settings),
    ]
}

/// The destination a plane opens on.
pub open spec fn primary_spec(plane: Plane) -> DestView {
    match plane {
        Plane::Chat => table()[0],
        Plane::Code => table()[1],
    }
}

/// Whether a destination is in a plane's library: of the plane, and not the
/// destination the plane opens on.
pub open spec fn in_library(plane: Plane, d: DestView) -> bool {
    d.plane == Some(plane) && d.id != primary_spec(plane).id
}

pub open spec fn library_spec(plane: Plane) -> Seq<DestView> {
    table().filter(|d: DestView| in_library(plane, d))
}

pub open spec fn plane_free_spec() -> Seq<DestView> {
    table().filter(|d: DestView| d.plane is None)
}

fn chats() -> (d: Destination)
    ensures
        d@ == table()[0],
{
    Destination {
        id: "chats",
        label: "Chats",
        icon: "message",
        group: Group::Work,
        plane: Some(Plane::Chat),
        lists: true,
        place: Place::Chats,
    }
}

fn code() -> (d: Destination)
    ensures
        d@ == table()[1],
{
    Destination {
        id: "code",
        label: "Code",
        icon: "code",
        group: Group::Work,
        plane: Some(Plane::Code),
        lists: true,
        place: Place::Code,
    }
}

/// Every destination, in drawer order.
pub fn destinations() -> (v: Vec<Destination>)
    ensures
        dests_view(v@) == table(),
{
    let mut v: Vec<Destination> = Vec::new();
    v.push(chats());
    v.push(code());
    v.push(
        Destination {
            id: "recipes",
            label: "Recipes",
            icon: "book",
            group: Group::Library,
            plane: Some(Plane::Chat),
            lists: true,
            place: Place::Recipes,
        },
    );
    v.push(
        Destination {
            id: "skills",
            label: "Skills",
            icon: "sparkle",
            group: Group::Library,
            plane: Some(Plane::Chat),
            lists: true,
            place: Place::Skills,
        },
    );
    v.push(
        Destination {
            id: "scheduler",
            label: "Scheduler",
            icon: "clock",
            group: Group::Library,
            plane: Some(Plane::Chat),
            lists: true,
            place: Place::Scheduler,
        },
    );
    v.push(
        Destination {
            id: "extensions",
            label: "Extensions",
            icon: "package",
            group: Group::Server,
            plane: Some(Plane::Chat),
            lists: true,
            place: Place::Extensions,
        },
    );
    v.push(
        Destination {
            id: "settings",
            label: "Settings",
            icon: "gear",
            group: Group::Server,
            plane: None,
            lists: false,
            place: Place::Settings,
        },
    );
    assert(dests_view(v@) =~= table());
    v
}

/// The destination a plane opens on, whose list is the plane's own.
pub fn primary(plane: Plane) -> (d: Destination)
    ensures
        d@ == primary_spec(plane),
{
    match plane {
        Plane::Chat => chats(),
        Plane::Code => code(),
    }
}

fn same_plane(a: Option<Plane>, b: Option<Plane>) -> (r: bool)
    ensures
        r == (a == b),
{
    match (a, b) {
        (Some(Plane::Chat), Some(Plane::Chat)) => true,
        (Some(Plane::Code), Some(Plane::Code)) => true,
        (None, None) => true,
        _ => false,
    }
}

/// Whether a row is of `plane` and, where `skip` names one, not that row.
pub open spec fn keeps(plane: Option<Plane>, skip: Option<Seq<char>>, d: DestView) -> bool {
    d.plane == plane && match skip {
        Some(id) => d.id != id,
        None => true,
    }
}

/// The rows of `plane`, in table order, leaving out the one `skip` names.
fn keep_rows(plane: Option<Plane>, skip: Option<&str>) -> (v: Vec<Destination>)
    ensures
        dests_view(v@) == table().filter(
            |d: DestView| keeps(plane, crate::transcript::str_opt(skip), d),
        ),
{
    let all = destinations();
    let ghost t = table();
    let ghost sk = crate::transcript::str_opt(skip);
    let ghost pred = |d: DestView| keeps(plane, sk, d);
    let mut v: Vec<Destination> = Vec::new();
    let mut k: usize = 0;
    while k < all.len()
        invariant
            dests_view(all@) == t,
            t == table(),
            sk == crate::transcript::str_opt(skip),
            pred == (|d: DestView| keeps(plane, sk, d)),
            k <= t.len(),
            dests_view(v@) == t.take(k as int).filter(pred),
        decreases all.len() - k,
    {
        let d = all[k];
        assert(t.take(k + 1) =~= t.take(k as int).push(d@));
        proof {
            t.take(k as int).lemma_filter_push(d@, pred);
        }
        let other = match skip {
            Some(id) => !same_text(d.id, id),
            None => true,
        };
        let keep = same_plane(d.plane, plane) && other;
        assert(keep == pred(d@));
        if keep {
            v.push(d);
            assert(dests_view(v@) =~= dests_view(v@).drop_last().push(d@));
        }
        assert(dests_view(v@) =~= t.take(k + 1).filter(pred));
        k += 1;
    }
    assert(t.take(t.len() as int) =~= t);
    v
}

/// The rest of a plane: what you have saved, as against what you are doing.
pub fn library(plane: Plane) -> (v: Vec<Destination>)
    ensures
        dests_view(v@) == library_spec(plane),
{
    let p = primary(plane);
    let v = keep_rows(Some(plane), Some(p.id));
    assert((|d: DestView| keeps(Some(plane), Some(p.id@), d)) =~= (|d: DestView| in_library(plane, d)));
    v
}

/// The destinations that belong to neither half, which the desktop keeps in
/// the sidebar's footer.
pub fn plane_free() -> (v: Vec<Destination>)
    ensures
        dests_view(v@) == plane_free_spec(),
{
    let v = keep_rows(None, None);
    assert((|d: DestView| keeps(None, None, d)) =~= (|d: DestView| d.plane is None));
    v
}

/// The Home tab's screens: the chat list, a chat, and Settings.
#[derive(Clone, Copy, Debug, PartialEq, Eq, Structural)]
pub enum Screen {
    Sessions,
    Chat,
    Settings,
}

/// The Code tab's screens.
#[derive(Clone, Copy, Debug, PartialEq, Eq, Structural)]
pub enum CodeScreen {
    List,
    New,
    Chat,
    Diff,
    Pulls,
}

pub open spec fn chats_key_spec(screen: Screen) -> Option<Seq<char>> {
    match screen {
        Screen::Sessions => Some("chats"@),
        Screen::Chat => Some("chat"@),
        Screen::Settings => None,
    }
}

pub open spec fn code_key_spec(screen: CodeScreen) -> Seq<char> {
    match screen {
        CodeScreen::List => "code-list"@,
        CodeScreen::New => "code-new"@,
        CodeScreen::Chat => "code-chat"@,
        CodeScreen::Diff => "code-diff"@,
        CodeScreen::Pulls => "code-pulls"@,
    }
}

/// The dump key for the Home tab, or `None` when Home is showing Settings,
/// which is a destination of its own and not a screen of the chat list.
pub fn chats_key(screen: Screen) -> (k: Option<&'static str>)
    ensures
        match k {
            Some(s) => chats_key_spec(screen) == Some(s@),
            None => chats_key_spec(screen) is None,
        },
{
    match screen {
        Screen::Sessions => Some("chats"),
        Screen::Chat => Some("chat"),
        Screen::Settings => None,
    }
}

/// The dump key for each of the Code tab's screens.
pub fn code_key(screen: CodeScreen) -> (k: &'static str)
    ensures
        k@ == code_key_spec(screen),
{
    match screen {
        CodeScreen::List => "code-list",
        CodeScreen::New => "code-new",
        CodeScreen::Chat => "code-chat",
        CodeScreen::Diff => "code-diff",
        CodeScreen::Pulls => "code-pulls",
    }
}

/// The app's tabs: each owns a stack of screens, Home holding both the
/// chat list and Settings.
#[derive(Clone, Copy, Debug, PartialEq, Eq, Structural)]
pub enum Tab {
    Home,
    Code,
    Recipes,
    Skills,
    Scheduler,
    Extensions,
}

/// A list and what it has pushed.
#[derive(Clone, Copy, Debug, PartialEq, Eq, Structural)]
pub enum Stack {
    List,
    Detail,
}

/// Where the app is: the tab on screen and where each stack was left.
#[derive(Clone, Copy, Debug, PartialEq, Eq, Structural)]
pub struct Location {
    pub tab: Tab,
    pub home: Screen,
    pub code: CodeScreen,
    pub recipes: Stack,
    pub skills: Stack,
    pub scheduler: Stack,
    pub extensions: crate::extensions::Screen,
}

/// Where reaching a destination puts the app. Chats and Settings share the
/// Home stack, so reaching either says which; every other destination owns
/// its stack outright and is left where it was left.
pub open spec fn go_spec(place: Place, l: Location) -> Location {
    match place {
        Place::Chats => Location { tab: Tab::Home, home: Screen::Sessions, ..l },
        Place::Code => Location { tab: Tab::Code, ..l },
        Place::Recipes => Location { tab: Tab::Recipes, ..l },
        Place::Skills => Location { tab: Tab::Skills, ..l },
        Place::Scheduler => Location { tab: Tab::Scheduler, ..l },
        Place::Extensions => Location { tab: Tab::Extensions, ..l },
        Place::Settings => Location { tab: Tab::Home, home: Screen::Settings, ..l },
    }
}

/// Whether a destination's own stack is on screen at its root: what the
/// drawer marks as where you are.
pub open spec fn at_root_spec(place: Place, l: Location) -> bool {
    match place {
        Place::Chats => l.tab == Tab::Home && l.home == Screen::Sessions,
        Place::Code => l.tab == Tab::Code && l.code == CodeScreen::List,
        Place::Recipes => l.tab == Tab::Recipes && l.recipes == Stack::List,
        Place::Skills => l.tab == Tab::Skills && l.skills == Stack::List,
        Place::Scheduler => l.tab == Tab::Scheduler && l.scheduler == Stack::List,
        Place::Extensions => l.tab == Tab::Extensions && l.extensions == crate::extensions::Screen::List,
        Place::Settings => l.tab == Tab::Home && l.home == Screen::Settings,
    }
}

/// The dump key of the screen a destination has mounted, or `None` when
/// its stack is not the one on screen.
pub open spec fn key_spec(place: Place, l: Location) -> Option<Seq<char>> {
    match place {
        Place::Chats => if l.tab == Tab::Home {
            chats_key_spec(l.home)
        } else {
            None
        },
        Place::Code => if l.tab == Tab::Code {
            Some(code_key_spec(l.code))
        } else {
            None
        },
        Place::Recipes => if l.tab == Tab::Recipes {
            Some(
                match l.recipes {
                    Stack::List => "recipes-list"@,
                    Stack::Detail => "recipes-detail"@,
                },
            )
        } else {
            None
        },
        Place::Skills => if l.tab == Tab::Skills {
            Some(
                match l.skills {
                    Stack::List => "skills"@,
                    Stack::Detail => "skill"@,
                },
            )
        } else {
            None
        },
        Place::Scheduler => if l.tab == Tab::Scheduler {
            Some(
                match l.scheduler {
                    Stack::List => "scheduler"@,
                    Stack::Detail => "scheduler-detail"@,
                },
            )
        } else {
            None
        },
        Place::Extensions => if l.tab == Tab::Extensions {
            Some(crate::extensions::dump_key_spec(l.extensions))
        } else {
            None
        },
        Place::Settings => if l.tab == Tab::Home && l.home == Screen::Settings {
            Some("settings"@)
        } else {
            None
        },
    }
}

/// Whether a destination has something pushed on its root. Settings has
/// no list, so its one screen is its detail, always.
pub open spec fn has_detail_spec(place: Place, l: Location) -> bool {
    match place {
        Place::Chats => l.home == Screen::Chat,
        Place::Code => l.code != CodeScreen::List,
        Place::Recipes => l.recipes == Stack::Detail,
        Place::Skills => l.skills == Stack::Detail,
        Place::Scheduler => l.scheduler == Stack::Detail,
        Place::Extensions => l.extensions == crate::extensions::Screen::Detail,
        Place::Settings => true,
    }
}

/// The first destination of the table whose stack is on screen, from
/// `from` on; the chat list where none is.
pub open spec fn current_from(l: Location, from: int) -> DestView
    decreases table().len() - from,
{
    if from >= table().len() {
        table()[0]
    } else if key_spec(table()[from].place, l) is Some {
        table()[from]
    } else {
        current_from(l, from + 1)
    }
}

impl Destination {
    /// Make this destination the one on screen.
    pub fn go(&self, at: &mut Location)
        ensures
            *final(at) == go_spec(self.place, *old(at)),
    {
        match self.place {
            Place::Chats => {
                at.tab = Tab::Home;
                at.home = Screen::Sessions;
            },
            Place::Code => at.tab = Tab::Code,
            Place::Recipes => at.tab = Tab::Recipes,
            Place::Skills => at.tab = Tab::Skills,
            Place::Scheduler => at.tab = Tab::Scheduler,
            Place::Extensions => at.tab = Tab::Extensions,
            Place::Settings => {
                at.tab = Tab::Home;
                at.home = Screen::Settings;
            },
        }
    }

    /// Whether this destination's stack is on screen at its root.
    pub fn at_root(&self, at: &Location) -> (b: bool)
        ensures
            b == at_root_spec(self.place, *at),
    {
        match self.place {
            Place::Chats => at.tab == Tab::Home && at.home == Screen::Sessions,
            Place::Code => at.tab == Tab::Code && at.code == CodeScreen::List,
            Place::Recipes => at.tab == Tab::Recipes && at.recipes == Stack::List,
            Place::Skills => at.tab == Tab::Skills && at.skills == Stack::List,
            Place::Scheduler => at.tab == Tab::Scheduler && at.scheduler == Stack::List,
            Place::Extensions => at.tab == Tab::Extensions && at.extensions
                == crate::extensions::Screen::List,
            Place::Settings => at.tab == Tab::Home && at.home == Screen::Settings,
        }
    }

    /// The dump key of the screen this destination has mounted, or `None`
    /// when its stack is not on screen.
    pub fn key(&self, at: &Location) -> (k: Option<&'static str>)
        ensures
            match k {
                Some(s) => key_spec(self.place, *at) == Some(s@),
                None => key_spec(self.place, *at) is None,
            },
    {
        match self.place {
            Place::Chats => if at.tab == Tab::Home {
                chats_key(at.home)
            } else {
                None
            },
            Place::Code => if at.tab == Tab::Code {
                Some(code_key(at.code))
            } else {
                None
            },
            Place::Recipes => if at.tab == Tab::Recipes {
                Some(
                    match at.recipes {
                        Stack::List => "recipes-list",
                        Stack::Detail => "recipes-detail",
                    },
                )
            } else {
                None
            },
            Place::Skills => if at.tab == Tab::Skills {
                Some(
                    match at.skills {
                        Stack::List => "skills",
                        Stack::Detail => "skill",
                    },
                )
            } else {
                None
            },
            Place::Scheduler => if at.tab == Tab::Scheduler {
                Some(
                    match at.scheduler {
                        Stack::List => "scheduler",
                        Stack::Detail => "scheduler-detail",
                    },
                )
            } else {
                None
            },
            Place::Extensions => if at.tab == Tab::Extensions {
                Some(crate::extensions::dump_key(at.extensions))
            } else {
                None
            },
            Place::Settings => if at.tab == Tab::Home && at.home == Screen::Settings {
                Some("settings")
            } else {
                None
            },
        }
    }

    /// Whether this destination has something pushed on its root.
    pub fn has_detail(&self, at: &Location) -> (b: bool)
        ensures
            b == has_detail_spec(self.place, *at),
    {
        match self.place {
            Place::Chats => at.home == Screen::Chat,
            Place::Code => at.code != CodeScreen::List,
            Place::Recipes => at.recipes == Stack::Detail,
            Place::Skills => at.skills == Stack::Detail,
            Place::Scheduler => at.scheduler == Stack::Detail,
            Place::Extensions => at.extensions == crate::extensions::Screen::Detail,
            Place::Settings => true,
        }
    }
}

/// The destination whose stack is on screen.
pub fn current(at: &Location) -> (d: Destination)
    ensures
        d@ == current_from(*at, 0),
{
    let all = destinations();
    let ghost t = table();
    let mut k: usize = 0;
    while k < all.len()
        invariant
            dests_view(all@) == t,
            t == table(),
            k <= t.len(),
            current_from(*at, k as int) == current_from(*at, 0),
        decreases all.len() - k,
    {
        assert(all@[k as int]@ == t[k as int]);
        if all[k].key(at).is_some() {
            return all[k];
        }
        k += 1;
    }
    let c = chats();
    c
}

/// Whether a destination's own stack was left at its root, so that reaching
/// it lands on the list rather than on what it had pushed.
pub open spec fn left_at_root(place: Place, l: Location) -> bool {
    match place {
        Place::Code => l.code == CodeScreen::List,
        Place::Recipes => l.recipes == Stack::List,
        Place::Skills => l.skills == Stack::List,
        Place::Scheduler => l.scheduler == Stack::List,
        Place::Extensions => l.extensions == crate::extensions::Screen::List,
        _ => true,
    }
}

/// Reaching a destination whose stack was left at its root marks it, and
/// nothing else, as where you are.
pub proof fn law_arriving_somewhere_leaves_everywhere_else(place: Place, other: Place, l: Location)
    requires
        left_at_root(place, l),
    ensures
        at_root_spec(place, go_spec(place, l)),
        other != place ==> !at_root_spec(other, go_spec(place, l)),
{
}

/// Every screen the app can show is claimed by exactly one destination's
/// dump key.
pub proof fn law_every_screen_is_claimed_once(l: Location)
    ensures
        exists|p: Place| (#[trigger] key_spec(p, l)) is Some,
        forall|p: Place, q: Place|
            (#[trigger] key_spec(p, l)) is Some && (#[trigger] key_spec(q, l)) is Some ==> p == q,
{
    match l.tab {
        Tab::Home => match l.home {
            Screen::Settings => assert(key_spec(Place::Settings, l) is Some),
            _ => assert(key_spec(Place::Chats, l) is Some),
        },
        Tab::Code => assert(key_spec(Place::Code, l) is Some),
        Tab::Recipes => assert(key_spec(Place::Recipes, l) is Some),
        Tab::Skills => assert(key_spec(Place::Skills, l) is Some),
        Tab::Scheduler => assert(key_spec(Place::Scheduler, l) is Some),
        Tab::Extensions => assert(key_spec(Place::Extensions, l) is Some),
    }
}

/// A destination at its root has nothing pushed, except Settings, whose
/// one screen is its detail; and one with something pushed is not at its
/// root.
pub proof fn law_a_destination_at_its_root_has_nothing_pushed(place: Place, l: Location)
    ensures
        at_root_spec(place, l) && place != Place::Settings ==> !has_detail_spec(place, l),
        has_detail_spec(place, l) && place != Place::Settings ==> !at_root_spec(place, l),
{
}

/// The destination taken as current is the one whose stack is on screen.
pub proof fn law_the_current_destination_owns_the_screen(l: Location)
    ensures
        key_spec(current_from(l, 0).place, l) is Some,
{
    law_every_screen_is_claimed_once(l);
    let p = choose|p: Place| (#[trigger] key_spec(p, l)) is Some;
    let i: int = match p {
        Place::Chats => 0,
        Place::Code => 1,
        Place::Recipes => 2,
        Place::Skills => 3,
        Place::Scheduler => 4,
        Place::Extensions => 5,
        Place::Settings => 6,
    };
    assert(table()[i].place == p);
    reveal_with_fuel(current_from, 8);
}

proof fn lemma_the_ids_read()
    ensures
        table()[0].id == seq!['c', 'h', 'a', 't', 's'],
        table()[1].id == seq!['c', 'o', 'd', 'e'],
        table()[2].id == seq!['r', 'e', 'c', 'i', 'p', 'e', 's'],
        table()[3].id == seq!['s', 'k', 'i', 'l', 'l', 's'],
        table()[4].id == seq!['s', 'c', 'h', 'e', 'd', 'u', 'l', 'e', 'r'],
        table()[5].id == seq!['e', 'x', 't', 'e', 'n', 's', 'i', 'o', 'n', 's'],
        table()[6].id == seq!['s', 'e', 't', 't', 'i', 'n', 'g', 's'],
        "settings"@ == seq!['s', 'e', 't', 't', 'i', 'n', 'g', 's'],
{
    reveal_strlit("chats");
    reveal_strlit("code");
    reveal_strlit("recipes");
    reveal_strlit("skills");
    reveal_strlit("scheduler");
    reveal_strlit("extensions");
    reveal_strlit("settings");
}

/// No two destinations share an id.
pub proof fn law_destination_ids_are_unique()
    ensures
        forall|i: int, j: int|
            0 <= i < j < table().len() ==> #[trigger] table()[i].id != #[trigger] table()[j].id,
{
    lemma_the_ids_read();
    assert forall|i: int, j: int| 0 <= i < j < table().len() implies #[trigger] table()[i].id
        != #[trigger] table()[j].id by {
        let (a, b) = (table()[i].id, table()[j].id);
        if a.len() == b.len() {
            assert(a[0] != b[0] || a[1] != b[1]);
        }
    }
}

/// Settings is the one destination with nothing to list and the one that
/// belongs to neither half of the app.
pub proof fn law_only_settings_stands_apart()
    ensures
        forall|i: int|
            0 <= i < table().len() ==> ((#[trigger] table()[i]).lists <==> table()[i].id
                != "settings"@) && (table()[i].plane is None <==> table()[i].id == "settings"@),
{
    lemma_the_ids_read();
    assert forall|i: int| 0 <= i < table().len() implies ((#[trigger] table()[i]).lists
        <==> table()[i].id != "settings"@) && (table()[i].plane is None <==> table()[i].id
        == "settings"@) by {
        if i < 6 {
            let a = table()[i].id;
            if a.len() == 8 {
                assert(a[0] != 's' || a[1] != 'e');
            }
        }
    }
}

/// Each plane opens on a destination of its own that has a list, and the
/// plane's glyph is that destination's.
pub proof fn law_every_plane_opens_on_a_list_of_its_own(plane: Plane)
    ensures
        primary_spec(plane).lists,
        primary_spec(plane).plane == Some(plane),
        table().contains(primary_spec(plane)),
        plane_icon_spec(plane) == primary_spec(plane).icon,
{
    match plane {
        Plane::Chat => assert(table()[0] == primary_spec(plane)),
        Plane::Code => assert(table()[1] == primary_spec(plane)),
    }
}

/// A plane's library never holds the destination the plane opens on.
pub proof fn law_a_plane_does_not_file_its_own_list_under_library(plane: Plane)
    ensures
        forall|d: DestView| #[trigger] library_spec(plane).contains(d) ==> d.id != primary_spec(
            plane,
        ).id,
{
    assert forall|d: DestView| #[trigger] library_spec(plane).contains(d) implies d.id
        != primary_spec(plane).id by {
        let pred = |d: DestView| in_library(plane, d);
        let k = choose|k: int| 0 <= k < library_spec(plane).len() && library_spec(plane)[k] == d;
        table().lemma_filter_pred(pred, k);
    }
}

/// Whether some plane opens on `d`.
pub open spec fn opens_a_plane(d: DestView) -> bool {
    d == primary_spec(Plane::Chat) || d == primary_spec(Plane::Code)
}

/// The drawer's groups and the desktop's planes are one table: a row is in
/// the Work group exactly when a plane opens on it, and in Library or
/// Server (Settings aside) exactly when it is in a plane's library.
pub proof fn law_the_two_taxonomies_are_one_table()
    ensures
        forall|i: int|
            0 <= i < table().len() ==> ((#[trigger] table()[i]).group == Group::Work
                <==> opens_a_plane(table()[i])) && ((table()[i].group != Group::Work
                && table()[i].id != "settings"@) <==> (in_library(Plane::Chat, table()[i])
                || in_library(Plane::Code, table()[i]))),
{
    law_destination_ids_are_unique();
    law_only_settings_stands_apart();
    assert forall|i: int| 0 <= i < table().len() implies ((#[trigger] table()[i]).group
        == Group::Work <==> opens_a_plane(table()[i])) && ((table()[i].group != Group::Work
        && table()[i].id != "settings"@) <==> (in_library(Plane::Chat, table()[i]) || in_library(
        Plane::Code,
        table()[i],
    ))) by {
        if i >= 2 {
            assert(table()[i].id != table()[0].id);
            assert(table()[i].id != table()[1].id);
        }
    }
}

/// How many of the sidebar's routes lead to `d`: a plane's opening row, a
/// plane's library, or the footer.
pub open spec fn routes_to(d: DestView) -> int {
    (if d == primary_spec(Plane::Chat) { 1int } else { 0 })
        + (if d == primary_spec(Plane::Code) { 1int } else { 0 })
        + (if in_library(Plane::Chat, d) { 1int } else { 0 })
        + (if in_library(Plane::Code, d) { 1int } else { 0 })
        + (if d.plane is None { 1int } else { 0 })
}

/// The sidebar reaches every destination by exactly one route.
pub proof fn law_the_sidebar_reaches_every_destination_once()
    ensures
        forall|i: int| 0 <= i < table().len() ==> routes_to(#[trigger] table()[i]) == 1,
{
    law_destination_ids_are_unique();
    assert forall|i: int| 0 <= i < table().len() implies routes_to(#[trigger] table()[i]) == 1 by {
        if i >= 2 {
            assert(table()[i].id != table()[0].id);
            assert(table()[i].id != table()[1].id);
        }
    }
}

/// Every screen is captured under a dump key of its own.
pub proof fn law_every_screen_dumps_under_a_key_of_its_own()
    ensures
        forall|a: Screen, b: Screen|
            a != b && (#[trigger] chats_key_spec(a)) is Some ==> chats_key_spec(a)
                != #[trigger] chats_key_spec(b),
        forall|a: CodeScreen, b: CodeScreen|
            a != b ==> #[trigger] code_key_spec(a) != #[trigger] code_key_spec(b),
        forall|a: Screen, b: CodeScreen|
            #[trigger] chats_key_spec(a) != Some(#[trigger] code_key_spec(b)),
        forall|a: Screen| #[trigger] chats_key_spec(a) != Some("settings"@),
        forall|b: CodeScreen| #[trigger] code_key_spec(b) != "settings"@,
{
    reveal_strlit("chats");
    reveal_strlit("chat");
    reveal_strlit("settings");
    reveal_strlit("code-list");
    reveal_strlit("code-new");
    reveal_strlit("code-chat");
    reveal_strlit("code-diff");
    reveal_strlit("code-pulls");
    assert forall|a: Screen, b: Screen| a != b && (#[trigger] chats_key_spec(a)) is Some implies
        chats_key_spec(a) != #[trigger] chats_key_spec(b) by {
        if let (Some(x), Some(y)) = (chats_key_spec(a), chats_key_spec(b)) {
            assert(x.len() != y.len());
        }
    }
    assert forall|a: CodeScreen, b: CodeScreen| a != b implies #[trigger] code_key_spec(a)
        != #[trigger] code_key_spec(b) by {
        let (x, y) = (code_key_spec(a), code_key_spec(b));
        if x.len() == y.len() {
            assert(x[5] != y[5] || x[6] != y[6]);
        }
    }
    assert forall|a: Screen, b: CodeScreen| #[trigger] chats_key_spec(a) != Some(
        #[trigger] code_key_spec(b),
    ) by {
        if let Some(x) = chats_key_spec(a) {
            assert(x.len() != code_key_spec(b).len() || x[1] != code_key_spec(b)[1]);
        }
    }
    assert forall|b: CodeScreen| #[trigger] code_key_spec(b) != "settings"@ by {
        assert(code_key_spec(b)[1] != "settings"@[1]);
    }
    assert forall|a: Screen| #[trigger] chats_key_spec(a) != Some("settings"@) by {
        if let Some(x) = chats_key_spec(a) {
            assert(x[1] != "settings"@[1]);
        }
    }
}

} // verus!
