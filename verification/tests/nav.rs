use goose_mobile::extensions::Screen as ExtensionsScreen;
use goose_mobile::nav::{
    chats_key, code_key, current, destinations, library, plane_free, primary, CodeScreen, Crumb,
    Destination, Group, Location, Plane, Screen, Stack, Tab,
};

const PLANES: [Plane; 2] = [Plane::Chat, Plane::Code];
const GROUPS: [Group; 3] = [Group::Work, Group::Library, Group::Server];

#[test]
fn settings_is_not_a_screen_of_chats() {
    assert_eq!(chats_key(Screen::Settings), None);
    assert_eq!(chats_key(Screen::Sessions), Some("chats"));
    assert_eq!(chats_key(Screen::Chat), Some("chat"));
}

#[test]
fn every_screen_dumps_under_a_key_of_its_own() {
    let mut keys: Vec<&str> = [Screen::Settings, Screen::Sessions, Screen::Chat]
        .into_iter()
        .filter_map(chats_key)
        .chain(["settings"])
        .chain(
            [
                CodeScreen::List,
                CodeScreen::New,
                CodeScreen::Chat,
                CodeScreen::Diff,
                CodeScreen::Pulls,
            ]
            .into_iter()
            .map(code_key),
        )
        .collect();
    let count = keys.len();
    keys.sort_unstable();
    keys.dedup();
    assert_eq!(keys.len(), count, "two screens share a dump key");
}

#[test]
fn destination_ids_are_unique() {
    let mut ids: Vec<&str> = destinations().iter().map(|dest| dest.id).collect();
    let count = ids.len();
    ids.sort_unstable();
    ids.dedup();
    assert_eq!(ids.len(), count, "two destinations share an id");
}

#[test]
fn every_destination_but_settings_lists_something() {
    for dest in destinations() {
        assert_eq!(dest.lists, dest.id != "settings", "{} has no root screen", dest.id);
    }
}

fn ids(dests: impl IntoIterator<Item = Destination>) -> Vec<&'static str> {
    let mut out: Vec<&'static str> = dests.into_iter().map(|dest| dest.id).collect();
    out.sort_unstable();
    out.dedup();
    out
}

fn ids_in(group: Group) -> Vec<&'static str> {
    ids(destinations().into_iter().filter(|dest| dest.group == group))
}

#[test]
fn the_two_taxonomies_are_one_table() {
    assert_eq!(
        ids_in(Group::Work),
        ids(PLANES.map(primary)),
        "the drawer's Work group and the planes' opening destinations have drifted apart"
    );

    let saved = {
        let mut both = ids_in(Group::Library);
        both.extend(ids_in(Group::Server));
        both.retain(|id| *id != "settings");
        both.sort_unstable();
        both
    };
    assert_eq!(
        saved,
        ids(PLANES.into_iter().flat_map(library)),
        "a destination is in one taxonomy's library and not the other's"
    );
}

#[test]
fn every_plane_opens_on_a_list_of_its_own() {
    for plane in PLANES {
        let dest = primary(plane);
        assert!(dest.lists, "{plane:?} opens on {}, which has no list", dest.id);
        assert_eq!(dest.plane, Some(plane));
    }
}

#[test]
fn only_settings_belongs_to_neither_half() {
    for dest in destinations() {
        assert_eq!(dest.plane.is_none(), dest.id == "settings", "{} is in no plane", dest.id);
    }
}

#[test]
fn a_plane_does_not_file_its_own_list_under_library() {
    for plane in PLANES {
        assert!(
            !library(plane).iter().any(|dest| dest.id == primary(plane).id),
            "{plane:?} lists its opening destination in its own library"
        );
    }
}

#[test]
fn every_destination_sits_in_a_painted_group() {
    for dest in destinations() {
        assert!(GROUPS.contains(&dest.group), "{} is in a group the drawer never renders", dest.id);
    }
}

#[test]
fn a_crumb_with_nothing_to_add_is_a_plain_one() {
    assert_eq!(Crumb::detailed("Review", None), Crumb::plain("Review"));
    let named = Crumb::detailed("Review", Some("4 of 9 files".to_owned()));
    assert_eq!(named.title, "Review");
    assert_eq!(named.subtitle.as_deref(), Some("4 of 9 files"));
}

#[test]
fn only_the_groups_that_want_a_label_carry_one() {
    assert_eq!(
        GROUPS.map(Group::header),
        [None, Some("Library"), Some("Server")],
        "the drawer's section headers moved"
    );
}

#[test]
fn the_switch_wears_the_glyphs_of_the_destinations_it_opens() {
    assert_eq!(PLANES.map(Plane::label), ["Chat", "Code"]);
    for plane in PLANES {
        assert_eq!(plane.icon(), primary(plane).icon);
    }
}

#[test]
fn the_sidebar_reaches_every_destination_exactly_once() {
    let mut reached: Vec<&'static str> = PLANES
        .into_iter()
        .flat_map(|plane| {
            let mut rows = vec![primary(plane)];
            rows.extend(library(plane));
            rows
        })
        .chain(plane_free())
        .map(|dest| dest.id)
        .collect();
    let listed = reached.len();
    reached.sort_unstable();
    reached.dedup();
    assert_eq!(reached.len(), listed, "the sidebar lists a destination twice: {reached:?}");
    assert_eq!(reached, ids(destinations()));
    assert_eq!(ids(plane_free()), ["settings"]);
}

#[test]
fn the_tables_rows_come_in_drawer_order() {
    let order: Vec<&str> = destinations().iter().map(|d| d.id).collect();
    assert_eq!(
        order,
        ["chats", "code", "recipes", "skills", "scheduler", "extensions", "settings"]
    );
    let chat_library: Vec<&str> = library(Plane::Chat).iter().map(|d| d.id).collect();
    assert_eq!(chat_library, ["recipes", "skills", "scheduler", "extensions"]);
    assert!(library(Plane::Code).is_empty());
}

/// Where the app starts: the chat list, every other stack at its root.
fn start() -> Location {
    Location {
        tab: Tab::Home,
        home: Screen::Sessions,
        code: CodeScreen::List,
        recipes: Stack::List,
        skills: Stack::List,
        scheduler: Stack::List,
        extensions: ExtensionsScreen::List,
    }
}

/// One answer per row, in table order, joined into a single line.
fn per_destination(mut line: impl FnMut(&Destination) -> String) -> String {
    destinations().iter().map(&mut line).collect::<Vec<_>>().join(" | ")
}

/// Push whatever this destination stacks on top of its root.
fn push_detail(at: &mut Location, id: &str) {
    match id {
        "chats" => at.home = Screen::Chat,
        "code" => at.code = CodeScreen::Chat,
        "recipes" => at.recipes = Stack::Detail,
        "skills" => at.skills = Stack::Detail,
        "scheduler" => at.scheduler = Stack::Detail,
        "extensions" => at.extensions = ExtensionsScreen::Detail,
        _ => {}
    }
}

#[test]
fn opening_a_destination_lands_on_its_own_root() {
    let mut at = start();
    assert_eq!(
        per_destination(|dest| {
            dest.go(&mut at);
            format!("{}={}", dest.id, dest.at_root(&at))
        }),
        "chats=true | code=true | recipes=true | skills=true | \
         scheduler=true | extensions=true | settings=true"
    );
}

#[test]
fn arriving_somewhere_leaves_everywhere_else() {
    let mut at = start();
    let all = destinations();
    assert_eq!(
        per_destination(|dest| {
            dest.go(&mut at);
            let lit = all.iter().filter(|d| d.at_root(&at)).count();
            format!("{}={lit}", dest.id)
        }),
        "chats=1 | code=1 | recipes=1 | skills=1 | scheduler=1 | \
         extensions=1 | settings=1"
    );
}

#[test]
fn a_pushed_screen_is_not_where_the_drawer_says_you_are() {
    let mut at = start();
    assert_eq!(
        per_destination(|dest| {
            dest.go(&mut at);
            push_detail(&mut at, dest.id);
            format!("{}={},{}", dest.id, dest.at_root(&at), current(&at).id)
        }),
        "chats=false,chats | code=false,code | recipes=false,recipes | \
         skills=false,skills | scheduler=false,scheduler | \
         extensions=false,extensions | settings=true,settings"
    );
}

#[test]
fn every_screen_reports_the_key_the_gallery_captured_it_under() {
    let all = destinations();
    let claim = |at: &Location| {
        all.iter().filter_map(|dest| dest.key(at)).collect::<Vec<_>>().join("+")
    };
    let mut keys = Vec::new();
    let mut at = start();
    at.tab = Tab::Home;
    for s in [Screen::Sessions, Screen::Chat, Screen::Settings] {
        at.home = s;
        keys.push(claim(&at));
    }
    at.tab = Tab::Code;
    for s in [CodeScreen::List, CodeScreen::New, CodeScreen::Chat, CodeScreen::Diff, CodeScreen::Pulls] {
        at.code = s;
        keys.push(claim(&at));
    }
    at.tab = Tab::Recipes;
    for s in [Stack::List, Stack::Detail] {
        at.recipes = s;
        keys.push(claim(&at));
    }
    at.tab = Tab::Skills;
    for s in [Stack::List, Stack::Detail] {
        at.skills = s;
        keys.push(claim(&at));
    }
    at.tab = Tab::Scheduler;
    for s in [Stack::List, Stack::Detail] {
        at.scheduler = s;
        keys.push(claim(&at));
    }
    at.tab = Tab::Extensions;
    for s in [ExtensionsScreen::List, ExtensionsScreen::Detail] {
        at.extensions = s;
        keys.push(claim(&at));
    }
    assert_eq!(
        keys.join(" "),
        "chats chat settings code-list code-new code-chat code-diff \
         code-pulls recipes-list recipes-detail skills skill scheduler \
         scheduler-detail extensions extensions-detail"
    );
}

#[test]
fn a_destination_at_its_root_has_nothing_pushed() {
    let mut at = start();
    assert_eq!(
        per_destination(|dest| {
            dest.go(&mut at);
            format!("{}={}", dest.id, dest.has_detail(&at))
        }),
        "chats=false | code=false | recipes=false | skills=false | \
         scheduler=false | extensions=false | settings=true"
    );
}
