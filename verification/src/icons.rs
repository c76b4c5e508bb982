//! Monochrome line icons: stroke paths on a 24-unit grid, drawn in
//! `currentColor` so every colour rule keeps working.

use vstd::prelude::*;

use crate::text::same_text;

verus! {

/// The stroke every glyph is drawn with, in the 24 user units of its view
/// box: the mockups' median weight (1.5 on a 16-unit grid) rescaled.
pub const STROKE: &'static str = "2.25";
pub const PATH_GEAR: &'static str = "M12 15.5a3.5 3.5 0 1 0 0-7 3.5 3.5 0 0 0 0 7zM19.4 15a1.65 1.65 0 0 0 .33 1.82l.06.06a2 2 0 1 1-2.83 2.83l-.06-.06a1.65 1.65 0 0 0-1.82-.33 1.65 1.65 0 0 0-1 1.51V21a2 2 0 1 1-4 0v-.09A1.65 1.65 0 0 0 9 19.4a1.65 1.65 0 0 0-1.82.33l-.06.06a2 2 0 1 1-2.83-2.83l.06-.06a1.65 1.65 0 0 0 .33-1.82 1.65 1.65 0 0 0-1.51-1H3a2 2 0 1 1 0-4h.09A1.65 1.65 0 0 0 4.6 9a1.65 1.65 0 0 0-.33-1.82l-.06-.06a2 2 0 1 1 2.83-2.83l.06.06a1.65 1.65 0 0 0 1.82.33H9a1.65 1.65 0 0 0 1-1.51V3a2 2 0 1 1 4 0v.09a1.65 1.65 0 0 0 1 1.51 1.65 1.65 0 0 0 1.82-.33l.06-.06a2 2 0 1 1 2.83 2.83l-.06.06a1.65 1.65 0 0 0-.33 1.82V9a1.65 1.65 0 0 0 1.51 1H21a2 2 0 1 1 0 4h-.09a1.65 1.65 0 0 0-1.51 1z";
pub const PATH_TRASH: &'static str = "M3 6h18M8 6V4a1 1 0 0 1 1-1h6a1 1 0 0 1 1 1v2m3 0v14a1 1 0 0 1-1 1H6a1 1 0 0 1-1-1V6M10 11v6M14 11v6";
pub const PATH_REFRESH: &'static str = "M21 12a9 9 0 1 1-2.64-6.36M21 3v6h-6";
pub const PATH_HOME: &'static str = "M3 10.5 12 3l9 7.5M5.5 9.5V20a1 1 0 0 0 1 1h11a1 1 0 0 0 1-1V9.5";
pub const PATH_CODE: &'static str = "m8 6-6 6 6 6M16 6l6 6-6 6";
pub const PATH_CHEVRON_LEFT: &'static str = "m15 5-7 7 7 7";
pub const PATH_CHEVRON_RIGHT: &'static str = "m9 5 7 7-7 7";
pub const PATH_PLUS: &'static str = "M12 5v14M5 12h14";
pub const PATH_CHEVRON_DOWN: &'static str = "m6 9 6 6 6-6";
pub const PATH_CHECK: &'static str = "m5 13 4 4 10-10";
pub const PATH_CLOSE: &'static str = "M6 6l12 12M18 6 6 18";
pub const PATH_TERMINAL: &'static str = "m4 7 5 5-5 5M13 17h7";
pub const PATH_FILE: &'static str = "M14 3H7a1 1 0 0 0-1 1v16a1 1 0 0 0 1 1h10a1 1 0 0 0 1-1V7zM14 3v4h4M9 13h6M9 17h4";
pub const PATH_PENCIL: &'static str = "M4 20h4L19.5 8.5a2.12 2.12 0 0 0-3-3L5 17zM14.5 6.5l3 3";
pub const PATH_PACKAGE: &'static str = "m12 3 8 4.5v9L12 21l-8-4.5v-9zM4 7.5l8 4.5 8-4.5M12 12v9";
pub const PATH_SEARCH: &'static str = "M11 19a8 8 0 1 0 0-16 8 8 0 0 0 0 16zM21 21l-4.35-4.35";
pub const PATH_GLOBE: &'static str = "M12 21a9 9 0 1 0 0-18 9 9 0 0 0 0 18zM3 12h18M12 3a14 14 0 0 1 0 18 14 14 0 0 1 0-18z";
pub const PATH_THINK: &'static str = "M9 18h6M10 21h4M12 3a6 6 0 0 0-3.6 10.8c.5.4.8.9.9 1.2h5.4c.1-.3.4-.8.9-1.2A6 6 0 0 0 12 3z";
pub const PATH_MENU: &'static str = "M4 7h16M4 12h11M4 17h16";
pub const PATH_MESSAGE: &'static str = "M21 11.5a8.4 8.4 0 0 1-9 8.4 9 9 0 0 1-3.9-.9L3 21l1.9-5.1A8.4 8.4 0 0 1 4 11.5 8.4 8.4 0 0 1 12.5 3 8.4 8.4 0 0 1 21 11.5z";
pub const PATH_CLOUD: &'static str = "M18 17a4 4 0 0 0 0-8 6 6 0 0 0-11.7 1.6A3.7 3.7 0 0 0 7 17z";
pub const PATH_STOP: &'static str = "M7 7h10v10H7z";
pub const PATH_ARROW_UP: &'static str = "M12 20V4M5 11l7-7 7 7";
pub const PATH_WRENCH: &'static str = "M14.7 6.3a4 4 0 0 0 5 5l-9.4 9.4a2.1 2.1 0 0 1-3-3z";
pub const PATH_DIFF: &'static str = "M12 5v10M7 10h10M7 19h10";
pub const PATH_MORE: &'static str = "M6 12h.01M12 12h.01M18 12h.01";
pub const PATH_ARROW_DOWN: &'static str = "M12 4v16M5 13l7 7 7-7";
pub const PATH_WRAP_TEXT: &'static str = "M4 6h16M4 12h13a3 3 0 1 1 0 6h-5M14 16l-2 2 2 2M4 18h7";
pub const PATH_PULL_REQUEST: &'static str = "M6 9a3 3 0 1 0 0-6 3 3 0 0 0 0 6zM6 9v12M18 21a3 3 0 1 0 0-6 3 3 0 0 0 0 6zM18 15V9a3 3 0 0 0-3-3h-4m0 0 3-3m-3 3 3 3";
pub const PATH_BOLT: &'static str = "M13 3 4 14h7l-1 7 9-11h-7z";
pub const PATH_SHIELD_CHECK: &'static str = "M12 21c4.7-2.3 7-5.6 7-9.6V5.6L12 3 5 5.6V11.4c0 4 2.3 7.3 7 9.6zM9.2 11.6l2 2 3.6-3.6";
pub const PATH_LIST: &'static str = "M9 6h11M9 12h11M9 18h11M4.5 6h.01M4.5 12h.01M4.5 18h.01";
pub const PATH_REPO: &'static str = "M6 3h11a1 1 0 0 1 1 1v16a1 1 0 0 1-1 1H6a2 2 0 0 1 0-4h12";
pub const PATH_GIT_BRANCH: &'static str = "M6 7.8a2.55 2.55 0 1 0 0-5.1 2.55 2.55 0 0 0 0 5.1zM6 7.8v8.4M6 21.3a2.55 2.55 0 1 0 0-5.1 2.55 2.55 0 0 0 0 5.1zM18 7.8a2.55 2.55 0 1 0 0-5.1 2.55 2.55 0 0 0 0 5.1zM18 7.8v1.8c0 3-2.4 3.6-5.1 4.05C10.5 14.85 8.4 15.45 8.4 18";
pub const PATH_BOOK: &'static str = "M4 4.5A1.5 1.5 0 0 1 5.5 3H19v14H5.5A1.5 1.5 0 0 0 4 18.5zM4 18.5A1.5 1.5 0 0 0 5.5 20H19v-3";
pub const PATH_CLOCK: &'static str = "M12 21a9 9 0 1 0 0-18 9 9 0 0 0 0 18zM12 7v5l3.5 2";
pub const PATH_PLAY: &'static str = "M8 5.5v13l11-6.5z";
pub const PATH_PAUSE: &'static str = "M9 5v14M15 5v14";
pub const PATH_INSPECTOR: &'static str = "M4 5h16a1 1 0 0 1 1 1v12a1 1 0 0 1-1 1H4a1 1 0 0 1-1-1V6a1 1 0 0 1 1-1zM14.5 5v14";
pub const PATH_GRID: &'static str = "M3.5 3.5h6.5v6.5H3.5zM14 3.5h6.5v6.5H14zM3.5 14h6.5v6.5H3.5zM14 14h6.5v6.5H14z";
pub const PATH_SPARKLE: &'static str = "M12 3v6M12 15v6M3 12h6M15 12h6M6.5 6.5 9 9M15 15l2.5 2.5M17.5 6.5 15 9M9 15l-2.5 2.5";
pub const PATH_ARCHIVE: &'static str = "M3 5h18v4H3zM5 9v10a1 1 0 0 0 1 1h12a1 1 0 0 0 1-1V9M9.5 13h5";
pub const PATH_SIDEBAR: &'static str = "M4 5h16a1 1 0 0 1 1 1v12a1 1 0 0 1-1 1H4a1 1 0 0 1-1-1V6a1 1 0 0 1 1-1zM9.5 5v14";

/// The icon table: each name with its stroke path.
pub open spec fn icon_table() -> Seq<(Seq<char>, Seq<char>)> {
    seq![
        ("gear"@, PATH_GEAR@),
        ("trash"@, PATH_TRASH@),
        ("refresh"@, PATH_REFRESH@),
        ("home"@, PATH_HOME@),
        ("code"@, PATH_CODE@),
        ("chevron-left"@, PATH_CHEVRON_LEFT@),
        ("chevron-right"@, PATH_CHEVRON_RIGHT@),
        ("plus"@, PATH_PLUS@),
        ("chevron-down"@, PATH_CHEVRON_DOWN@),
        ("check"@, PATH_CHECK@),
        ("close"@, PATH_CLOSE@),
        ("terminal"@, PATH_TERMINAL@),
        ("file"@, PATH_FILE@),
        ("pencil"@, PATH_PENCIL@),
        ("package"@, PATH_PACKAGE@),
        ("search"@, PATH_SEARCH@),
        ("globe"@, PATH_GLOBE@),
        ("think"@, PATH_THINK@),
        ("menu"@, PATH_MENU@),
        ("message"@, PATH_MESSAGE@),
        ("cloud"@, PATH_CLOUD@),
        ("stop"@, PATH_STOP@),
        ("arrow-up"@, PATH_ARROW_UP@),
        ("wrench"@, PATH_WRENCH@),
        ("diff"@, PATH_DIFF@),
        ("more"@, PATH_MORE@),
        ("arrow-down"@, PATH_ARROW_DOWN@),
        ("wrap-text"@, PATH_WRAP_TEXT@),
        ("pull-request"@, PATH_PULL_REQUEST@),
        ("bolt"@, PATH_BOLT@),
        ("shield-check"@, PATH_SHIELD_CHECK@),
        ("list"@, PATH_LIST@),
        ("repo"@, PATH_REPO@),
        ("git-branch"@, PATH_GIT_BRANCH@),
        ("book"@, PATH_BOOK@),
        ("clock"@, PATH_CLOCK@),
        ("play"@, PATH_PLAY@),
        ("pause"@, PATH_PAUSE@),
        ("inspector"@, PATH_INSPECTOR@),
        ("grid"@, PATH_GRID@),
        ("sparkle"@, PATH_SPARKLE@),
        ("archive"@, PATH_ARCHIVE@),
        ("sidebar"@, PATH_SIDEBAR@),
    ]
}

/// The path of the first entry named `name`, if there is one.
pub open spec fn lookup(table: Seq<(Seq<char>, Seq<char>)>, name: Seq<char>) -> Option<Seq<char>>
    decreases table.len(),
{
    if table.len() == 0 {
        None
    } else if table[0].0 == name {
        Some(table[0].1)
    } else {
        lookup(table.drop_first(), name)
    }
}

/// Every icon, as (name, stroke path), in table order.
pub fn icon_entries() -> (t: Vec<(&'static str, &'static str)>)
    ensures
        t@.map_values(|e: (&'static str, &'static str)| (e.0@, e.1@)) == icon_table(),
{
    let t = vec![
        ("gear", PATH_GEAR),
        ("trash", PATH_TRASH),
        ("refresh", PATH_REFRESH),
        ("home", PATH_HOME),
        ("code", PATH_CODE),
        ("chevron-left", PATH_CHEVRON_LEFT),
        ("chevron-right", PATH_CHEVRON_RIGHT),
        ("plus", PATH_PLUS),
        ("chevron-down", PATH_CHEVRON_DOWN),
        ("check", PATH_CHECK),
        ("close", PATH_CLOSE),
        ("terminal", PATH_TERMINAL),
        ("file", PATH_FILE),
        ("pencil", PATH_PENCIL),
        ("package", PATH_PACKAGE),
        ("search", PATH_SEARCH),
        ("globe", PATH_GLOBE),
        ("think", PATH_THINK),
        ("menu", PATH_MENU),
        ("message", PATH_MESSAGE),
        ("cloud", PATH_CLOUD),
        ("stop", PATH_STOP),
        ("arrow-up", PATH_ARROW_UP),
        ("wrench", PATH_WRENCH),
        ("diff", PATH_DIFF),
        ("more", PATH_MORE),
        ("arrow-down", PATH_ARROW_DOWN),
        ("wrap-text", PATH_WRAP_TEXT),
        ("pull-request", PATH_PULL_REQUEST),
        ("bolt", PATH_BOLT),
        ("shield-check", PATH_SHIELD_CHECK),
        ("list", PATH_LIST),
        ("repo", PATH_REPO),
        ("git-branch", PATH_GIT_BRANCH),
        ("book", PATH_BOOK),
        ("clock", PATH_CLOCK),
        ("play", PATH_PLAY),
        ("pause", PATH_PAUSE),
        ("inspector", PATH_INSPECTOR),
        ("grid", PATH_GRID),
        ("sparkle", PATH_SPARKLE),
        ("archive", PATH_ARCHIVE),
        ("sidebar", PATH_SIDEBAR),
    ];
    assert(t@.map_values(|e: (&'static str, &'static str)| (e.0@, e.1@)) =~= icon_table());
    t
}

/// Stroke path data for `name`, or `None` if there is no such icon.
pub fn path_for(name: &str) -> (r: Option<&'static str>)
    ensures
        match (r, lookup(icon_table(), name@)) {
            (Some(p), Some(q)) => p@ == q,
            (None, None) => true,
            _ => false,
        },
{
    let t = icon_entries();
    let ghost tv = icon_table();
    let mut k: usize = 0;
    assert(tv.skip(0) =~= tv);
    while k < t.len()
        invariant
            tv == icon_table(),
            tv == t@.map_values(|e: (&'static str, &'static str)| (e.0@, e.1@)),
            k <= tv.len(),
            lookup(tv, name@) == lookup(tv.skip(k as int), name@),
        decreases t.len() - k,
    {
        assert(tv.skip(k as int)[0] == tv[k as int]);
        assert(tv[k as int] == (t@[k as int].0@, t@[k as int].1@));
        assert(tv.skip(k as int).drop_first() =~= tv.skip(k + 1));
        if same_text(t[k].0, name) {
            return Some(t[k].1);
        }
        k += 1;
    }
    assert(tv.skip(k as int) =~= Seq::<(Seq<char>, Seq<char>)>::empty());
    None
}

/// Every name in the table resolves to a path: the lookup cannot miss an
/// entry that is there.
pub proof fn law_every_icon_in_the_table_resolves(table: Seq<(Seq<char>, Seq<char>)>, i: int)
    requires
        0 <= i < table.len(),
    ensures
        lookup(table, table[i].0) is Some,
    decreases i,
{
    if table[0].0 != table[i].0 {
        assert(table.drop_first()[i - 1] == table[i]);
        law_every_icon_in_the_table_resolves(table.drop_first(), i - 1);
    }
}

} // verus!
