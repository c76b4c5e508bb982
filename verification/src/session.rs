//! The open code chat's picks and the pickers' sources: which model, effort
//! and agent the next turn uses and when the reader's choice stands over
//! the server's, which chat is asked for a catalogue the app has no chat
//! of its own to ask, and when a fetch is already in hand.

use vstd::prelude::*;

use crate::code::Permission;
use crate::nav::CodeScreen;
use crate::stream::{adopted_spec, choices_view, sid_view, TurnChoices};
use crate::text::same_text;
use crate::transcript::str_opt;

verus! {

/// A chat of the plane's index, as the pickers read it.
#[derive(Clone, Debug, PartialEq, Eq)]
pub struct ChatMeta {
    pub id: String,
    pub repo: String,
    /// Whether its container is awake.
    pub running: bool,
}

/// A repo the manager allows, and whether it is a public throwaway: the
/// one case where a model that trains on its input may see the code.
#[derive(Clone, Debug, PartialEq, Eq)]
pub struct RepoMeta {
    pub name: String,
    pub public_throwaway: bool,
}

pub open spec fn metas_view(v: Seq<ChatMeta>) -> Seq<(Seq<char>, Seq<char>, bool)> {
    v.map_values(|c: ChatMeta| (c.id@, c.repo@, c.running))
}

pub open spec fn repos_view(v: Seq<RepoMeta>) -> Seq<(Seq<char>, bool)> {
    v.map_values(|r: RepoMeta| (r.name@, r.public_throwaway))
}

/// Whether `repo` is listed as a public throwaway.
pub open spec fn allows_free(repos: Seq<(Seq<char>, bool)>, repo: Seq<char>) -> bool {
    exists|i: int| 0 <= i < repos.len() && (#[trigger] repos[i]).0 == repo && repos[i].1
}

/// Whether models that train on their input may be offered for `repo`.
pub fn repo_allows_free_models(repos: &Vec<RepoMeta>, repo: &str) -> (b: bool)
    ensures
        b == allows_free(repos_view(repos@), repo@),
{
    let ghost rv = repos_view(repos@);
    let mut k: usize = 0;
    while k < repos.len()
        invariant
            rv == repos_view(repos@),
            k <= rv.len(),
            forall|q: int| 0 <= q < k ==> !((#[trigger] rv[q]).0 == repo@ && rv[q].1),
        decreases repos.len() - k,
    {
        assert(rv[k as int] == (repos@[k as int].name@, repos@[k as int].public_throwaway));
        if repos[k].public_throwaway && same_text(repos[k].name.as_str(), repo) {
            return true;
        }
        k += 1;
    }
    false
}

/// Whether a chat has the given repo (when `repo` is `Some`), is awake
/// (when `running`), and has the given id (when `id` is `Some`).
pub open spec fn fits(
    c: (Seq<char>, Seq<char>, bool),
    repo: Option<Seq<char>>,
    running: bool,
    id: Option<Seq<char>>,
) -> bool {
    &&& match repo {
        Some(rp) => c.1 == rp,
        None => true,
    }
    &&& running ==> c.2
    &&& match id {
        Some(i) => c.0 == i,
        None => true,
    }
}

/// Where the first chat of the index that fits stands, if any.
pub open spec fn first_fit(
    chats: Seq<(Seq<char>, Seq<char>, bool)>,
    repo: Option<Seq<char>>,
    running: bool,
    id: Option<Seq<char>>,
) -> Option<int>
    decreases chats.len(),
{
    if chats.len() == 0 {
        None
    } else if fits(chats[0], repo, running, id) {
        Some(0)
    } else {
        match first_fit(chats.drop_first(), repo, running, id) {
            Some(i) => Some(i + 1),
            None => None,
        }
    }
}

proof fn lemma_first_fit(
    chats: Seq<(Seq<char>, Seq<char>, bool)>,
    repo: Option<Seq<char>>,
    running: bool,
    id: Option<Seq<char>>,
    k: int,
)
    requires
        0 <= k <= chats.len(),
        forall|q: int| 0 <= q < k ==> !fits(#[trigger] chats[q], repo, running, id),
    ensures
        k < chats.len() && fits(chats[k], repo, running, id) ==> first_fit(chats, repo, running, id)
            == Some(k),
        k == chats.len() ==> first_fit(chats, repo, running, id) is None,
    decreases k,
{
    if k > 0 {
        assert forall|q: int| 0 <= q < k - 1 implies !fits(
            #[trigger] chats.drop_first()[q],
            repo,
            running,
            id,
        ) by {
            assert(chats.drop_first()[q] == chats[q + 1]);
        }
        lemma_first_fit(chats.drop_first(), repo, running, id, k - 1);
        assert(!fits(chats[0], repo, running, id));
    }
}

/// The id of the first chat that fits.
pub open spec fn id_fit(
    chats: Seq<(Seq<char>, Seq<char>, bool)>,
    repo: Option<Seq<char>>,
    running: bool,
    id: Option<Seq<char>>,
) -> Option<Seq<char>> {
    match first_fit(chats, repo, running, id) {
        Some(i) => Some(chats[i].0),
        None => None,
    }
}

/// Which chat is asked for the model catalogue when the app has no chat of
/// its own to ask: a running one first, since asking a stopped one wakes
/// it; then the chat opened last; then the first the manager listed.
pub open spec fn catalogue_donor_spec(
    chats: Seq<(Seq<char>, Seq<char>, bool)>,
    open: Option<Seq<char>>,
) -> Option<Seq<char>> {
    match id_fit(chats, None, true, None) {
        Some(id) => Some(id),
        None => match open {
            Some(o) => Some(o),
            None => if chats.len() > 0 {
                Some(chats[0].0)
            } else {
                None
            },
        },
    }
}

/// Which chat is asked what agents `repo` has: one of its own first,
/// running before stopped, and only then anybody's.
pub open spec fn agent_donor_spec(
    chats: Seq<(Seq<char>, Seq<char>, bool)>,
    repo: Seq<char>,
    open: Option<Seq<char>>,
) -> Option<Seq<char>> {
    match id_fit(chats, Some(repo), true, None) {
        Some(id) => Some(id),
        None => match id_fit(chats, Some(repo), false, None) {
            Some(id) => Some(id),
            None => catalogue_donor_spec(chats, open),
        },
    }
}

/// Where in the index the first chat with the given repo (when `repo` is
/// `Some`), the given running state (when `running`), and id (when `id`
/// is `Some`) stands.
fn find_chat(chats: &Vec<ChatMeta>, repo: Option<&str>, running: bool, id: Option<&str>) -> (r: Option<usize>)
    ensures
        match r {
            Some(k) => k < chats@.len() && first_fit(metas_view(chats@), str_opt(repo), running, str_opt(id))
                == Some(k as int),
            None => first_fit(metas_view(chats@), str_opt(repo), running, str_opt(id)) is None,
        },
{
    let ghost cv = metas_view(chats@);
    let ghost (rp, ip) = (str_opt(repo), str_opt(id));
    let mut k: usize = 0;
    while k < chats.len()
        invariant
            cv == metas_view(chats@),
            rp == str_opt(repo),
            ip == str_opt(id),
            k <= cv.len(),
            forall|q: int| 0 <= q < k ==> !fits(#[trigger] cv[q], rp, running, ip),
        decreases chats.len() - k,
    {
        let c = &chats[k];
        assert(cv[k as int] == (c.id@, c.repo@, c.running));
        let repo_ok = match repo {
            Some(r) => same_text(c.repo.as_str(), r),
            None => true,
        };
        let id_ok = match id {
            Some(i) => same_text(c.id.as_str(), i),
            None => true,
        };
        if repo_ok && (!running || c.running) && id_ok {
            proof {
                lemma_first_fit(cv, rp, running, ip, k as int);
            }
            return Some(k);
        }
        k += 1;
    }
    proof {
        lemma_first_fit(cv, rp, running, ip, k as int);
    }
    None
}

/// Which chat is asked for the model catalogue; see `catalogue_donor_spec`.
pub fn catalogue_donor(chats: &Vec<ChatMeta>, open: Option<&str>) -> (r: Option<String>)
    ensures
        sid_view(r) == catalogue_donor_spec(metas_view(chats@), str_opt(open)),
{
    let ghost cv = metas_view(chats@);
    match find_chat(chats, None, true, None) {
        Some(k) => {
            assert(cv[k as int].0 == chats@[k as int].id@);
            Some(chats[k].id.clone())
        },
        None => {
            match open {
                Some(o) => Some(o.to_owned()),
                None => if chats.len() > 0 {
                    assert(cv[0].0 == chats@[0].id@);
                    Some(chats[0].id.clone())
                } else {
                    None
                },
            }
        },
    }
}

/// Which chat is asked what agents `repo` has; see `agent_donor_spec`.
pub fn agent_donor(chats: &Vec<ChatMeta>, repo: &str, open: Option<&str>) -> (r: Option<String>)
    ensures
        sid_view(r) == agent_donor_spec(metas_view(chats@), repo@, str_opt(open)),
{
    let ghost cv = metas_view(chats@);
    match find_chat(chats, Some(repo), true, None) {
        Some(k) => {
            assert(cv[k as int].0 == chats@[k as int].id@);
            Some(chats[k].id.clone())
        },
        None => match find_chat(chats, Some(repo), false, None) {
            Some(k) => {
                assert(cv[k as int].0 == chats@[k as int].id@);
                Some(chats[k].id.clone())
            },
            None => catalogue_donor(chats, open),
        },
    }
}

/// The repo whose container answered the agent list the app holds, when
/// that is not `repo`: `None` both when it is this repo's and when the
/// chat that answered is no longer listed.
pub open spec fn borrowed_from_spec(
    chats: Seq<(Seq<char>, Seq<char>, bool)>,
    from: Seq<char>,
    repo: Seq<char>,
) -> Option<Seq<char>> {
    if from.len() == 0 {
        None
    } else {
        match first_fit(chats, None, false, Some(from)) {
            Some(i) => if chats[i].1 != repo && chats[i].1.len() > 0 {
                Some(chats[i].1)
            } else {
                None
            },
            None => None,
        }
    }
}

/// Whose agents the new-session picker is showing, when they are borrowed
/// from another repo's chat.
pub fn borrowed_agents_from(chats: &Vec<ChatMeta>, from: &str, repo: &str) -> (r: Option<String>)
    ensures
        sid_view(r) == borrowed_from_spec(metas_view(chats@), from@, repo@),
{
    if from.unicode_len() == 0 {
        return None;
    }
    let ghost cv = metas_view(chats@);
    match find_chat(chats, None, false, Some(from)) {
        Some(k) => {
            let donor = &chats[k].repo;
            assert(cv[k as int].1 == donor@);
            if !same_text(donor.as_str(), repo) && donor.as_str().unicode_len() > 0 {
                Some(donor.clone())
            } else {
                None
            }
        },
        None => None,
    }
}

/// Whether the open chat has an ask the reader is looking at: only on the
/// Code tab, only from inside the chat or its review, and only for the
/// chat being read.
pub open spec fn open_chat_has_ask_spec(
    on_code_tab: bool,
    screen: CodeScreen,
    open: Option<Seq<char>>,
    queue: Seq<(Seq<char>, crate::code::PermissionView)>,
) -> bool {
    &&& on_code_tab
    &&& (screen == CodeScreen::Chat || screen == CodeScreen::Diff)
    &&& open is Some
    &&& exists|i: int| 0 <= i < queue.len() && (#[trigger] queue[i]).0 == open->0
}

/// Whether the pending-ask modal belongs over the chat being read.
pub fn open_chat_has_ask(
    on_code_tab: bool,
    screen: CodeScreen,
    open: Option<&str>,
    queue: &Vec<(String, Permission)>,
) -> (b: bool)
    ensures
        b == open_chat_has_ask_spec(
            on_code_tab,
            screen,
            str_opt(open),
            crate::keyed::keyed_view(queue@),
        ),
{
    if !on_code_tab {
        return false;
    }
    match screen {
        CodeScreen::Chat | CodeScreen::Diff => {},
        _ => return false,
    }
    let o = match open {
        Some(o) => o,
        None => return false,
    };
    let ghost qv = crate::keyed::keyed_view(queue@);
    let mut k: usize = 0;
    while k < queue.len()
        invariant
            qv == crate::keyed::keyed_view(queue@),
            k <= qv.len(),
            on_code_tab,
            str_opt(open) == Some(o@),
            screen == CodeScreen::Chat || screen == CodeScreen::Diff,
            forall|q: int| 0 <= q < k ==> (#[trigger] qv[q]).0 != o@,
        decreases queue.len() - k,
    {
        assert(qv[k as int].0 == queue@[k as int].0@);
        if same_text(queue[k].0.as_str(), o) {
            assert(qv[k as int].0 == o@);
            return true;
        }
        k += 1;
    }
    false
}

/// Whether the agent list must be fetched for `chat_id`: not when the list
/// held is that chat's and is either in hand or on its way.
pub fn agents_needed(held_from: &str, chat_id: &str, have: bool, loading: bool) -> (b: bool)
    ensures
        b == !(held_from@ == chat_id@ && (have || loading)),
{
    !(same_text(held_from, chat_id) && (have || loading))
}

/// Whether the model catalogue must be fetched: it is app-wide, so once it
/// is held or on its way it is never asked for again.
pub fn models_needed(have: bool, loading: bool) -> (b: bool)
    ensures
        b == (!have && !loading),
{
    !have && !loading
}

/// A repo's branches as the new-session screen holds them.
#[derive(Clone, Debug, PartialEq, Eq)]
pub struct BranchList {
    pub repo: String,
    pub loading: bool,
    pub names: Vec<String>,
    /// The repo's default branch, when the answer named one.
    pub default: Option<String>,
    /// The manager listed only the first page.
    pub truncated: bool,
}

/// Whether `repo`'s branches must be fetched: not for no repo, and not
/// when they are already in hand or on their way.
pub fn branches_needed(held: &BranchList, repo: &str) -> (b: bool)
    ensures
        b == (repo@.len() > 0 && !(held.repo@ == repo@ && (held.loading || held.names@.len() > 0))),
{
    if repo.unicode_len() == 0 {
        return false;
    }
    !(same_text(held.repo.as_str(), repo) && (held.loading || held.names.len() > 0))
}

/// The list while `repo`'s branches are asked for.
pub fn branches_asked(repo: &str) -> (l: BranchList)
    ensures
        l.repo@ == repo@,
        l.loading,
        l.names@.len() == 0,
        l.default is None,
        !l.truncated,
{
    BranchList { repo: repo.to_owned(), loading: true, names: Vec::new(), default: None, truncated: false }
}

/// The list once the manager has answered for `repo`: what it named, or,
/// on a failure, nothing — quietly, since the pill already says what it
/// will do without a list.
pub fn branches_answered(repo: &str, answer: Option<(Vec<String>, Option<String>, bool)>) -> (l: BranchList)
    ensures
        l.repo@ == repo@,
        !l.loading,
        match answer {
            Some((names, default, truncated)) => l.names@ == names@ && l.default == default
                && l.truncated == truncated,
            None => l.names@.len() == 0 && l.default is None && !l.truncated,
        },
{
    match answer {
        Some((names, default, truncated)) => BranchList {
            repo: repo.to_owned(),
            loading: false,
            names,
            default,
            truncated,
        },
        None => BranchList {
            repo: repo.to_owned(),
            loading: false,
            names: Vec::new(),
            default: None,
            truncated: false,
        },
    }
}

/// What the next turn uses, and which of it the reader chose.
pub struct Picks {
    pub choices: TurnChoices,
    /// The reader chose the model or its effort, so the server's record
    /// does not overrule it on the next reconnect.
    pub picked: bool,
    /// The same, for the agent.
    pub agent_picked: bool,
}

pub open spec fn set_model_spec(
    c: (Option<Seq<char>>, Option<Seq<char>>, Option<Seq<char>>),
    reference: Seq<char>,
) -> (Option<Seq<char>>, Option<Seq<char>>, Option<Seq<char>>) {
    if c.0 == Some(reference) {
        c
    } else {
        (Some(reference), None, c.2)
    }
}

fn same_opt(a: &Option<String>, b: &str) -> (r: bool)
    ensures
        r == (sid_view(*a) == Some(b@)),
{
    match a {
        Some(s) => same_text(s.as_str(), b),
        None => false,
    }
}

impl Picks {
    /// Point the next turn at `reference`. Choosing the model already there
    /// is still a choice; choosing another drops the effort, which belongs
    /// to a model and may be a value the new one never offered.
    pub fn set_model(&mut self, reference: &str)
        ensures
            choices_view(final(self).choices) == set_model_spec(choices_view(old(self).choices), reference@),
            final(self).picked,
            final(self).agent_picked == old(self).agent_picked,
    {
        self.picked = true;
        if same_opt(&self.choices.model, reference) {
            return;
        }
        self.choices.model = Some(reference.to_owned());
        self.choices.effort = None;
    }

    /// Run the next turn as `agent`; choosing the one already there is
    /// still a choice.
    pub fn set_agent(&mut self, agent: &str)
        ensures
            choices_view(final(self).choices) == (
                choices_view(old(self).choices).0,
                choices_view(old(self).choices).1,
                Some(agent@),
            ),
            final(self).agent_picked,
            final(self).picked == old(self).picked,
    {
        self.agent_picked = true;
        self.choices.agent = Some(agent.to_owned());
    }

    /// Set the thinking-effort tier; `None` is the model's default.
    pub fn set_effort(&mut self, effort: Option<&str>)
        ensures
            choices_view(final(self).choices) == (
                choices_view(old(self).choices).0,
                str_opt(effort),
                choices_view(old(self).choices).2,
            ),
            final(self).picked,
            final(self).agent_picked == old(self).agent_picked,
    {
        self.picked = true;
        self.choices.effort = match effort {
            Some(e) => Some(e.to_owned()),
            None => None,
        };
    }

    /// A new session's picks, written over what opening it seeded from the
    /// manager's record alone: each one the reader made stands as a pick.
    pub fn adopt_new_session(&mut self, model: &Option<String>, agent: &Option<String>)
        ensures
            choices_view(final(self).choices) == (
                if model is Some { sid_view(*model) } else { choices_view(old(self).choices).0 },
                choices_view(old(self).choices).1,
                if agent is Some { sid_view(*agent) } else { choices_view(old(self).choices).2 },
            ),
            final(self).picked == (old(self).picked || model is Some),
            final(self).agent_picked == (old(self).agent_picked || agent is Some),
    {
        match agent {
            Some(a) => {
                self.choices.agent = Some(a.clone());
                self.agent_picked = true;
            },
            None => {},
        }
        match model {
            Some(m) => {
                self.choices.model = Some(m.clone());
                self.picked = true;
            },
            None => {},
        }
    }

    /// The model the chat's container says it runs, written only where
    /// nothing else is known and the reader has not chosen. Returns whether
    /// it was written.
    pub fn adopt_default_model(&mut self, model: String) -> (written: bool)
        ensures
            written == (old(self).choices.model is None && !old(self).picked),
            choices_view(final(self).choices) == if written {
                (Some(model@), choices_view(old(self).choices).1, choices_view(old(self).choices).2)
            } else {
                choices_view(old(self).choices)
            },
            final(self).picked == old(self).picked,
            final(self).agent_picked == old(self).agent_picked,
    {
        if self.choices.model.is_none() && !self.picked {
            self.choices.model = Some(model);
            true
        } else {
            false
        }
    }
}

/// The chat whose container is asked which model it runs: the open chat,
/// and only while nothing the app holds names one.
pub fn default_model_wanted(chat_id: Option<&str>, known: bool) -> (r: Option<String>)
    ensures
        sid_view(r) == if known { None } else { str_opt(chat_id) },
{
    if known {
        return None;
    }
    match chat_id {
        Some(c) => Some(c.to_owned()),
        None => None,
    }
}

/// A choice the reader made survives the reconnect that follows it: the
/// session record does not overrule a picked model and effort, nor a
/// picked agent.
pub proof fn law_a_pick_survives_a_reconnect(
    c: (Option<Seq<char>>, Option<Seq<char>>, Option<Seq<char>>),
    reference: Seq<char>,
    model: Option<(Option<Seq<char>>, Option<Seq<char>>)>,
    agent: Option<Seq<char>>,
)
    ensures
        adopted_spec(set_model_spec(c, reference), true, false, model, agent).0 == Some(reference),
        adopted_spec((c.0, c.1, Some(reference)), false, true, model, agent).2 == Some(reference),
{
}

/// A donor is always a chat the index lists, or the chat the reader has
/// open; and when some chat is awake, the donor is awake.
pub proof fn law_the_catalogue_comes_from_a_listed_chat(
    chats: Seq<(Seq<char>, Seq<char>, bool)>,
    open: Option<Seq<char>>,
)
    ensures
        match catalogue_donor_spec(chats, open) {
            Some(id) => Some(id) == open || exists|i: int| 0 <= i < chats.len() && (#[trigger] chats[i]).0 == id,
            None => open is None && chats.len() == 0,
        },
        (exists|i: int| 0 <= i < chats.len() && (#[trigger] chats[i]).2) ==> exists|i: int|
            0 <= i < chats.len() && (#[trigger] chats[i]).2 && Some(chats[i].0) == catalogue_donor_spec(
                chats,
                open,
            ),
{
    lemma_first_fit_holds(chats, None, true, None);
    if exists|i: int| 0 <= i < chats.len() && (#[trigger] chats[i]).2 {
        let i = choose|i: int| 0 <= i < chats.len() && (#[trigger] chats[i]).2;
        lemma_first_fit_finds(chats, None, true, None, i);
    }
}

proof fn lemma_first_fit_holds(
    chats: Seq<(Seq<char>, Seq<char>, bool)>,
    repo: Option<Seq<char>>,
    running: bool,
    id: Option<Seq<char>>,
)
    ensures
        match first_fit(chats, repo, running, id) {
            Some(i) => 0 <= i < chats.len() && fits(chats[i], repo, running, id),
            None => true,
        },
    decreases chats.len(),
{
    if chats.len() > 0 && !fits(chats[0], repo, running, id) {
        lemma_first_fit_holds(chats.drop_first(), repo, running, id);
    }
}

proof fn lemma_first_fit_finds(
    chats: Seq<(Seq<char>, Seq<char>, bool)>,
    repo: Option<Seq<char>>,
    running: bool,
    id: Option<Seq<char>>,
    i: int,
)
    requires
        0 <= i < chats.len(),
        fits(chats[i], repo, running, id),
    ensures
        first_fit(chats, repo, running, id) is Some,
    decreases chats.len(),
{
    if !fits(chats[0], repo, running, id) {
        assert(chats.drop_first()[i - 1] == chats[i]);
        lemma_first_fit_finds(chats.drop_first(), repo, running, id, i - 1);
    }
}

} // verus!
