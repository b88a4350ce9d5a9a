//! Finding saved sessions.
use crate::hierarchy::{SessionProject, SessionSummary};
use crate::ids;
use crate::sort;
use crate::sort::NewestFirst;
use crate::text;
use vstd::prelude::*;
use vstd::string::*;

verus! {

/// Why no session was found.
#[derive(Debug)]
pub enum ResolveError {
    NoSessions,
    NoMatch(String),
    Ambiguous(String),
}

impl ResolveError {
    /// What a person is told.
    pub open spec fn text(self) -> Seq<char> {
        match self {
            ResolveError::NoSessions => "there are no saved sessions"@,
            ResolveError::NoMatch(p) => "no session matches "@ + text::quoted(p@),
            ResolveError::Ambiguous(p) => "session prefix "@ + text::quoted(p@) + " is ambiguous"@,
        }
    }

    /// What a person is told.
    pub fn message(&self) -> (s: String)
        ensures
            s@ == self.text(),
    {
        match self {
            ResolveError::NoSessions => "there are no saved sessions".to_owned(),
            ResolveError::NoMatch(p) => text::cat2("no session matches ", &text::quote(p)),
            ResolveError::Ambiguous(p) => text::cat3(
                "session prefix ",
                &text::quote(p),
                " is ambiguous",
            ),
        }
    }
}

/// What sessions are ranked by when the newest comes first.
pub open spec fn ages(s: Seq<SessionSummary>) -> Seq<NewestFirst> {
    Seq::new(s.len(), |i: int| NewestFirst { at: s[i].created_at, id: s[i].id })
}

/// The sessions in the order in which they are listed: newest first.
pub open spec fn listed(s: Seq<SessionSummary>) -> Seq<SessionSummary> {
    let order = sort::sort_by(ages(s), sort::upto(s.len()));
    Seq::new(order.len(), |i: int| s[order[i]])
}

/// The sessions, newest first.
pub fn list_sessions(sessions: &Vec<SessionSummary>) -> (r: Vec<SessionSummary>)
    ensures
        r@ == listed(sessions@),
{
    let mut keys: Vec<NewestFirst> = Vec::new();
    let mut i: usize = 0;
    while i < sessions.len()
        invariant
            i <= sessions@.len(),
            keys@.len() == i,
            forall|j: int| 0 <= j < i ==> #[trigger] keys@[j] == ages(sessions@)[j],
        decreases sessions@.len() - i,
    {
        keys.push(NewestFirst { at: sessions[i].created_at, id: sessions[i].id });
        i += 1;
    }
    assert(keys@ == ages(sessions@));
    let order = sort::sort_all(&keys);
    let ghost places = sort::sort_by(ages(sessions@), sort::upto(sessions@.len()));
    let mut r: Vec<SessionSummary> = Vec::new();
    let mut i: usize = 0;
    while i < order.len()
        invariant
            i <= order@.len(),
            sort::ints(order@) == places,
            places.len() == order@.len(),
            forall|j: int| 0 <= j < order@.len() ==> #[trigger] order@[j] < sessions@.len(),
            r@.len() == i,
            forall|j: int| 0 <= j < i ==> #[trigger] r@[j] == sessions@[places[j]],
        decreases order@.len() - i,
    {
        assert(places[i as int] == order@[i as int] as int);
        r.push(sessions[order[i]].clone());
        i += 1;
    }
    r
}

/// Whether session `a` was updated before session `b`; of two updated at once, the one with the
/// smaller id counts as the earlier.
pub open spec fn updated_before(a: SessionSummary, b: SessionSummary) -> bool {
    a.updated_at < b.updated_at || (a.updated_at == b.updated_at && a.id < b.id)
}

fn is_updated_before(a: &SessionSummary, b: &SessionSummary) -> (r: bool)
    ensures
        r == updated_before(*a, *b),
{
    a.updated_at < b.updated_at || (a.updated_at == b.updated_at && a.id < b.id)
}

/// Whether the text of the session's id begins with `prefix`.
pub open spec fn has_prefix(s: SessionSummary, prefix: Seq<char>) -> bool {
    text::begins_with(ids::id_view(s.id), prefix)
}

/// The positions below `n` of the sessions whose id begins with `prefix`.
pub open spec fn matching(s: Seq<SessionSummary>, prefix: Seq<char>, n: nat) -> Seq<int>
    decreases n,
{
    if n == 0 {
        Seq::empty()
    } else if has_prefix(s[n - 1], prefix) {
        matching(s, prefix, (n - 1) as nat).push(n - 1)
    } else {
        matching(s, prefix, (n - 1) as nat)
    }
}

/// The position below `n` of the session that was updated last.
pub open spec fn latest(s: Seq<SessionSummary>, n: nat) -> int
    decreases n,
{
    if n <= 1 {
        0
    } else {
        let best = latest(s, (n - 1) as nat);
        if updated_before(s[n - 1], s[best]) {
            best
        } else {
            n - 1
        }
    }
}

/// The session that is meant: the one updated last where nothing is asked for, else the only one
/// whose id begins with what is asked for.
pub fn resolve_id(sessions: &Vec<SessionSummary>, query: Option<&str>) -> (r: Result<
    u128,
    ResolveError,
>)
    ensures
        query is None && sessions@.len() == 0 ==> r == Err::<u128, ResolveError>(
            ResolveError::NoSessions,
        ),
        query is None && sessions@.len() > 0 ==> r == Ok::<u128, ResolveError>(
            sessions@[latest(sessions@, sessions@.len())].id,
        ),
        query matches Some(prefix) ==> {
            let m = matching(sessions@, prefix@, sessions@.len());
            &&& m.len() == 1 ==> r == Ok::<u128, ResolveError>(sessions@[m[0]].id)
            &&& m.len() == 0 ==> (r matches Err(ResolveError::NoMatch(p)) && p@ == prefix@)
            &&& m.len() > 1 ==> (r matches Err(ResolveError::Ambiguous(p)) && p@ == prefix@)
        },
{
    match query {
        None => {
            if sessions.len() == 0 {
                return Err(ResolveError::NoSessions);
            }
            let mut best: usize = 0;
            let mut i: usize = 1;
            while i < sessions.len()
                invariant
                    1 <= i <= sessions@.len(),
                    best < i,
                    best as int == latest(sessions@, i as nat),
                decreases sessions@.len() - i,
            {
                if !is_updated_before(&sessions[i], &sessions[best]) {
                    best = i;
                }
                i += 1;
            }
            Ok(sessions[best].id)
        },
        Some(prefix) => {
            let mut found: usize = 0;
            let mut first: usize = 0;
            let mut i: usize = 0;
            while i < sessions.len()
                invariant
                    i <= sessions@.len(),
                    found <= i,
                    found as nat == matching(sessions@, prefix@, i as nat).len(),
                    found > 0 ==> first < sessions@.len() && matching(
                        sessions@,
                        prefix@,
                        i as nat,
                    )[0] == first as int,
                decreases sessions@.len() - i,
            {
                if text::starts_with(&ids::id_text(sessions[i].id), prefix) {
                    if found == 0 {
                        first = i;
                    }
                    found += 1;
                }
                i += 1;
            }
            if found == 1 {
                Ok(sessions[first].id)
            } else if found == 0 {
                Err(ResolveError::NoMatch(prefix.to_owned()))
            } else {
                Err(ResolveError::Ambiguous(prefix.to_owned()))
            }
        },
    }
}

/// A session of a project.
pub struct Entry {
    pub project: int,
    pub session: int,
}

/// The sessions of the first `n` projects, project by project.
pub open spec fn entries(projects: Seq<SessionProject>, n: nat) -> Seq<Entry>
    decreases n,
{
    if n == 0 {
        Seq::empty()
    } else {
        entries(projects, (n - 1) as nat) + Seq::new(
            projects[n - 1].sessions@.len(),
            |j: int| Entry { project: n - 1, session: j },
        )
    }
}

/// The session of an entry.
pub open spec fn entry_session(projects: Seq<SessionProject>, e: Entry) -> SessionSummary {
    projects[e.project].sessions@[e.session]
}

/// The first position below `n` of an entry whose session was updated last.
pub open spec fn latest_entry(projects: Seq<SessionProject>, all: Seq<Entry>, n: nat) -> int
    decreases n,
{
    if n <= 1 {
        0
    } else {
        let best = latest_entry(projects, all, (n - 1) as nat);
        if updated_before(
            entry_session(projects, all[best]),
            entry_session(projects, all[n - 1]),
        ) {
            n - 1
        } else {
            best
        }
    }
}

/// The positions below `n` of the entries whose id begins with `prefix`.
pub open spec fn matching_entries(
    projects: Seq<SessionProject>,
    all: Seq<Entry>,
    prefix: Seq<char>,
    n: nat,
) -> Seq<int>
    decreases n,
{
    if n == 0 {
        Seq::empty()
    } else if has_prefix(entry_session(projects, all[n - 1]), prefix) {
        matching_entries(projects, all, prefix, (n - 1) as nat).push(n - 1)
    } else {
        matching_entries(projects, all, prefix, (n - 1) as nat)
    }
}

spec fn entry_of(e: (usize, usize)) -> Entry {
    Entry { project: e.0 as int, session: e.1 as int }
}

fn all_entries(projects: &Vec<SessionProject>) -> (r: Vec<(usize, usize)>)
    ensures
        r@.len() == entries(projects@, projects@.len()).len(),
        forall|i: int|
            0 <= i < r@.len() ==> entry_of(#[trigger] r@[i]) == entries(
                projects@,
                projects@.len(),
            )[i] && r@[i].0 < projects@.len() && r@[i].1 < projects@[r@[i].0 as int].sessions@.len(),
{
    let mut r: Vec<(usize, usize)> = Vec::new();
    let mut i: usize = 0;
    while i < projects.len()
        invariant
            i <= projects@.len(),
            r@.len() == entries(projects@, i as nat).len(),
            forall|k: int|
                0 <= k < r@.len() ==> entry_of(#[trigger] r@[k]) == entries(projects@, i as nat)[k]
                    && r@[k].0 < projects@.len() && r@[k].1 < projects@[r@[k].0 as int].sessions@.len(),
        decreases projects@.len() - i,
    {
        let ghost before = r@;
        let mut j: usize = 0;
        while j < projects[i].sessions.len()
            invariant
                i < projects@.len(),
                j <= projects@[i as int].sessions@.len(),
                before.len() == entries(projects@, i as nat).len(),
                r@.len() == before.len() + j,
                forall|k: int| 0 <= k < before.len() ==> #[trigger] r@[k] == before[k],
                forall|k: int|
                    before.len() <= k < r@.len() ==> #[trigger] r@[k] == (
                        i,
                        (k - before.len()) as usize,
                    ),
            decreases projects@[i as int].sessions@.len() - j,
        {
            r.push((i, j));
            j += 1;
        }
        i += 1;
    }
    r
}

/// The session that is meant among those of all projects, with the root of its project.
pub fn resolve_global_session(projects: &Vec<SessionProject>, query: Option<&str>) -> (r: Result<
    (String, u128),
    ResolveError,
>)
    ensures
        ({
            let all = entries(projects@, projects@.len());
            &&& query is None && all.len() == 0 ==> r == Err::<(String, u128), ResolveError>(
                ResolveError::NoSessions,
            )
            &&& query is None && all.len() > 0 ==> ({
                let e = all[latest_entry(projects@, all, all.len())];
                r == Ok::<(String, u128), ResolveError>(
                    (projects@[e.project].root, entry_session(projects@, e).id),
                )
            })
            &&& query matches Some(prefix) ==> {
                let m = matching_entries(projects@, all, prefix@, all.len());
                &&& m.len() == 1 ==> r == Ok::<(String, u128), ResolveError>(
                    (projects@[all[m[0]].project].root, entry_session(projects@, all[m[0]]).id),
                )
                &&& m.len() == 0 ==> (r matches Err(ResolveError::NoMatch(p)) && p@ == prefix@)
                &&& m.len() > 1 ==> (r matches Err(ResolveError::Ambiguous(p)) && p@ == prefix@)
            }
        }),
{
    let found = all_entries(projects);
    let ghost all = entries(projects@, projects@.len());
    match query {
        None => {
            if found.len() == 0 {
                return Err(ResolveError::NoSessions);
            }
            let mut best: usize = 0;
            let mut i: usize = 1;
            while i < found.len()
                invariant
                    1 <= i <= found@.len(),
                    best < i,
                    found@.len() == all.len(),
                    forall|k: int|
                        0 <= k < found@.len() ==> entry_of(#[trigger] found@[k]) == all[k]
                            && found@[k].0 < projects@.len() && found@[k].1
                            < projects@[found@[k].0 as int].sessions@.len(),
                    best as int == latest_entry(projects@, all, i as nat),
                decreases found@.len() - i,
            {
                let (a, b) = found[best];
                let (c, d) = found[i];
                assert(entry_of(found@[best as int]) == all[best as int]);
                assert(entry_of(found@[i as int]) == all[i as int]);
                if is_updated_before(&projects[a].sessions[b], &projects[c].sessions[d]) {
                    best = i;
                }
                i += 1;
            }
            let (a, b) = found[best];
            assert(entry_of(found@[best as int]) == all[best as int]);
            Ok((projects[a].root.clone(), projects[a].sessions[b].id))
        },
        Some(prefix) => {
            let mut count: usize = 0;
            let mut first: usize = 0;
            let mut i: usize = 0;
            while i < found.len()
                invariant
                    i <= found@.len(),
                    count <= i,
                    found@.len() == all.len(),
                    forall|k: int|
                        0 <= k < found@.len() ==> entry_of(#[trigger] found@[k]) == all[k]
                            && found@[k].0 < projects@.len() && found@[k].1
                            < projects@[found@[k].0 as int].sessions@.len(),
                    count as nat == matching_entries(projects@, all, prefix@, i as nat).len(),
                    count > 0 ==> first < found@.len() && matching_entries(
                        projects@,
                        all,
                        prefix@,
                        i as nat,
                    )[0] == first as int,
                decreases found@.len() - i,
            {
                let (a, b) = found[i];
                assert(entry_of(found@[i as int]) == all[i as int]);
                if text::starts_with(&ids::id_text(projects[a].sessions[b].id), prefix) {
                    if count == 0 {
                        first = i;
                    }
                    count += 1;
                }
                i += 1;
            }
            if count == 1 {
                let (a, b) = found[first];
                assert(entry_of(found@[first as int]) == all[first as int]);
                Ok((projects[a].root.clone(), projects[a].sessions[b].id))
            } else if count == 0 {
                Err(ResolveError::NoMatch(prefix.to_owned()))
            } else {
                Err(ResolveError::Ambiguous(prefix.to_owned()))
            }
        },
    }
}

/// The root to look for a session in: the one asked for, else the one of the session that is
/// meant.
pub fn resolve_session_root(
    project: Option<&str>,
    id: &str,
    projects: &Vec<SessionProject>,
) -> (r: Result<String, ResolveError>)
    ensures
        project matches Some(p) ==> (r matches Ok(root) && root@ == p@),
        project is None ==> ({
            let all = entries(projects@, projects@.len());
            let m = matching_entries(projects@, all, id@, all.len());
            &&& m.len() == 1 ==> r == Ok::<String, ResolveError>(
                projects@[all[m[0]].project].root,
            )
            &&& m.len() == 0 ==> (r matches Err(ResolveError::NoMatch(p)) && p@ == id@)
            &&& m.len() > 1 ==> (r matches Err(ResolveError::Ambiguous(p)) && p@ == id@)
        }),
{
    match project {
        Some(p) => Ok(p.to_owned()),
        None => match resolve_global_session(projects, Some(id)) {
            Ok((root, _)) => Ok(root),
            Err(e) => Err(e),
        },
    }
}

/// `roots` with each registered root that is not there yet added behind.
pub open spec fn with_roots(roots: Seq<Seq<char>>, registered: Seq<Seq<char>>) -> Seq<Seq<char>>
    decreases registered.len(),
{
    if registered.len() == 0 {
        roots
    } else {
        let before = with_roots(roots, registered.drop_last());
        if before.contains(registered.last()) {
            before
        } else {
            before.push(registered.last())
        }
    }
}

fn contains_text(list: &Vec<String>, item: &str) -> (r: bool)
    ensures
        r == text::views(list@).contains(item@),
{
    let mut i: usize = 0;
    while i < list.len()
        invariant
            i <= list@.len(),
            forall|j: int| 0 <= j < i ==> (#[trigger] list@[j])@ != item@,
        decreases list@.len() - i,
    {
        if text::same(&list[i], item) {
            assert(text::views(list@)[i as int] == item@);
            return true;
        }
        i += 1;
    }
    assert forall|j: int| 0 <= j < list@.len() implies text::views(list@)[j] != item@ by {
        assert(list@[j]@ != item@);
    }
    false
}

/// The roots whose sessions are listed: the current one first, then every registered one, none
/// twice.
pub fn session_roots(current: &str, registered: &Vec<String>) -> (r: Vec<String>)
    ensures
        text::views(r@) == with_roots(seq![current@], text::views(registered@)),
        text::views(r@).no_duplicates(),
{
    let mut r: Vec<String> = Vec::new();
    r.push(current.to_owned());
    assert(text::views(r@) == seq![current@]);
    let mut i: usize = 0;
    let ghost all = text::views(registered@);
    assert(all.take(0) == Seq::<Seq<char>>::empty());
    while i < registered.len()
        invariant
            i <= registered@.len(),
            all == text::views(registered@),
            text::views(r@) == with_roots(seq![current@], all.take(i as int)),
            text::views(r@).no_duplicates(),
        decreases registered@.len() - i,
    {
        let ghost before = text::views(r@);
        proof {
            let next = all.take(i + 1);
            assert(next.drop_last() == all.take(i as int));
            assert(next.last() == registered@[i as int]@);
        }
        if !contains_text(&r, &registered[i]) {
            r.push(registered[i].clone());
            assert(text::views(r@) == before.push(registered@[i as int]@));
        }
        i += 1;
    }
    assert(all.take(all.len() as int) == all);
    r
}

/// When a stored session was created: sessions stored without that time were created when they
/// were last updated, and are stored again.
pub fn stored_created_at(created_at: Option<i128>, updated_at: Option<i128>) -> (r: Option<
    (i128, bool),
>)
    ensures
        created_at matches Some(c) ==> r == Some((c, false)),
        created_at is None ==> r == (match updated_at {
            Some(u) => Some((u, true)),
            None => None,
        }),
{
    match created_at {
        Some(c) => Some((c, false)),
        None => match updated_at {
            Some(u) => Some((u, true)),
            None => None,
        },
    }
}

/// The session that resuming without a query finds was updated no earlier than any other.
pub proof fn the_default_session_is_the_one_updated_last(s: Seq<SessionSummary>, n: nat)
    requires
        0 < n <= s.len(),
    ensures
        0 <= latest(s, n) < n,
        forall|i: int| 0 <= i < n ==> !updated_before(s[latest(s, n)], #[trigger] s[i]),
    decreases n,
{
    if n > 1 {
        the_default_session_is_the_one_updated_last(s, (n - 1) as nat);
    }
}

// ---------------------------------------------------------------------------
// Deleting a session with its data

/// How far the deletion of a session is.
#[derive(Clone, Copy, Debug, PartialEq, Eq, Structural)]
pub enum DeleteStep {
    /// The data of the session is put aside.
    PutAside,
    /// The session is removed; its data may have been put aside.
    Remove { put_aside: bool },
    /// The data is put back, because the session could not be removed.
    PutBack,
    /// The data that was put aside is removed.
    RemoveData,
    /// All is done.
    Deleted,
    /// The data could not be put aside, and nothing was deleted.
    NotPrepared,
    /// The session could not be removed, and nothing was deleted.
    NotDeleted,
    /// The session is deleted, but its data is not.
    DataLeft,
}

/// The first step of the deletion of a session, which may have data.
pub fn begin_deletion(has_data: bool) -> (r: DeleteStep)
    ensures
        r == (if has_data {
            DeleteStep::PutAside
        } else {
            (DeleteStep::Remove { put_aside: false })
        }),
{
    if has_data {
        DeleteStep::PutAside
    } else {
        DeleteStep::Remove { put_aside: false }
    }
}

/// The step after one that worked or did not.
pub open spec fn step_after(step: DeleteStep, worked: bool) -> DeleteStep {
    match step {
        DeleteStep::PutAside => if worked {
            (DeleteStep::Remove { put_aside: true })
        } else {
            DeleteStep::NotPrepared
        },
        DeleteStep::Remove { put_aside } => if worked {
            if put_aside {
                DeleteStep::RemoveData
            } else {
                DeleteStep::Deleted
            }
        } else if put_aside {
            DeleteStep::PutBack
        } else {
            DeleteStep::NotDeleted
        },
        DeleteStep::PutBack => DeleteStep::NotDeleted,
        DeleteStep::RemoveData => if worked {
            DeleteStep::Deleted
        } else {
            DeleteStep::DataLeft
        },
        last => last,
    }
}

/// The step after one that worked or did not.
pub fn next_deletion(step: DeleteStep, worked: bool) -> (r: DeleteStep)
    ensures
        r == step_after(step, worked),
{
    match step {
        DeleteStep::PutAside => if worked {
            DeleteStep::Remove { put_aside: true }
        } else {
            DeleteStep::NotPrepared
        },
        DeleteStep::Remove { put_aside } => if worked {
            if put_aside {
                DeleteStep::RemoveData
            } else {
                DeleteStep::Deleted
            }
        } else if put_aside {
            DeleteStep::PutBack
        } else {
            DeleteStep::NotDeleted
        },
        DeleteStep::PutBack => DeleteStep::NotDeleted,
        DeleteStep::RemoveData => if worked {
            DeleteStep::Deleted
        } else {
            DeleteStep::DataLeft
        },
        last => last,
    }
}

/// What a person is told where a deletion did not end well.
pub fn deletion_failure(step: DeleteStep, session: &str, data: &str, aside: &str) -> (r: Option<
    String,
>)
    ensures
        match step {
            DeleteStep::NotPrepared => r matches Some(m) && m@ == "cannot prepare attachment data "@
                + data@ + " for deletion"@,
            DeleteStep::NotDeleted => r matches Some(m) && m@ == "cannot delete "@ + session@,
            DeleteStep::DataLeft => r matches Some(m) && m@
                == "session was deleted, but cannot remove "@ + aside@,
            _ => r is None,
        },
{
    match step {
        DeleteStep::NotPrepared => Some(
            text::cat3("cannot prepare attachment data ", data, " for deletion"),
        ),
        DeleteStep::NotDeleted => Some(text::cat2("cannot delete ", session)),
        DeleteStep::DataLeft => Some(
            text::cat2("session was deleted, but cannot remove ", aside),
        ),
        _ => None,
    }
}

/// The data of a session is removed only once the session is: what was put aside is put back
/// wherever the session could not be removed.
pub proof fn data_goes_with_its_session(step: DeleteStep, worked: bool)
    ensures
        step_after(step, worked) == DeleteStep::RemoveData && step != DeleteStep::RemoveData
            ==> step == (DeleteStep::Remove { put_aside: true }) && worked,
        step == (DeleteStep::Remove { put_aside: true }) && !worked ==> step_after(step, worked)
            == DeleteStep::PutBack,
{
}

// ---------------------------------------------------------------------------
// Laws
/// Every session is listed, the one made last first.
pub proof fn sessions_are_listed_newest_first(s: Seq<SessionSummary>)
    ensures
        listed(s).len() == s.len(),
        forall|k: int| 0 <= k < s.len() ==> listed(s).contains(#[trigger] s[k]),
        forall|i: int, j: int|
            0 <= i < j < s.len() ==> (#[trigger] listed(s)[i]).created_at >= (#[trigger] listed(
                s,
            )[j]).created_at,
{
    let keys = ages(s);
    let all = sort::upto(s.len());
    let order = sort::sort_by(keys, all);
    let shown = listed(s);
    sort::lemma_sort_members(keys, all);
    sort::lemma_sort_in_order(keys, all);
    assert forall|i: int| 0 <= i < order.len() implies 0 <= #[trigger] order[i] < s.len() by {
        sort::lemma_sort_contains(keys, all, order[i]);
        assert(order.contains(order[i]));
        let k = choose|k: int| 0 <= k < all.len() && all[k] == order[i];
        assert(all[k] == k);
    }
    assert forall|i: int, j: int| 0 <= i < j < s.len() implies (#[trigger] shown[i]).created_at >= (
    #[trigger] shown[j]).created_at by {
        assert(!sort::Rank::before(keys[order[j]], keys[order[i]]));
    }
    assert forall|k: int| 0 <= k < s.len() implies shown.contains(#[trigger] s[k]) by {
        sort::lemma_sort_contains(keys, all, k);
        assert(all[k] == k);
        assert(order.contains(k));
        let i = choose|i: int| 0 <= i < order.len() && order[i] == k;
        assert(shown[i] == s[k]);
    }
}

/// Where nothing is asked for, no session was updated later than the one meant.
pub proof fn no_session_was_updated_later(s: Seq<SessionSummary>, i: int)
    requires
        0 <= i < s.len(),
    ensures
        0 <= latest(s, s.len()) < s.len(),
        s[i].updated_at <= s[latest(s, s.len())].updated_at,
        s[i].updated_at == s[latest(s, s.len())].updated_at ==> s[i].id <= s[latest(
            s,
            s.len(),
        )].id,
{
    the_default_session_is_the_one_updated_last(s, s.len());
    assert(!updated_before(s[latest(s, s.len())], s[i]));
}

proof fn lemma_matching(s: Seq<SessionSummary>, prefix: Seq<char>, n: nat)
    requires
        n <= s.len(),
    ensures
        forall|i: int| #[trigger]
            matching(s, prefix, n).contains(i) <==> 0 <= i < n && has_prefix(s[i], prefix),
        matching(s, prefix, n).no_duplicates(),
    decreases n,
{
    if n > 0 {
        let before = matching(s, prefix, (n - 1) as nat);
        let now = matching(s, prefix, n);
        lemma_matching(s, prefix, (n - 1) as nat);
        assert forall|i: int| #[trigger]
            now.contains(i) <==> 0 <= i < n && has_prefix(s[i], prefix) by {
            if has_prefix(s[n - 1], prefix) {
                assert(now[before.len() as int] == n - 1);
                if before.contains(i) {
                    let k = choose|k: int| 0 <= k < before.len() && before[k] == i;
                    assert(now[k] == i);
                }
                if now.contains(i) && i != n - 1 {
                    let k = choose|k: int| 0 <= k < now.len() && now[k] == i;
                    assert(before[k] == i);
                }
            }
        }
        if has_prefix(s[n - 1], prefix) {
            assert(!before.contains(n - 1));
        }
    }
}

/// A session is meant by the beginning of its id exactly where no other id begins so.
pub proof fn the_only_session_that_begins_so_is_meant(
    s: Seq<SessionSummary>,
    prefix: Seq<char>,
    i: int,
)
    requires
        0 <= i < s.len(),
    ensures
        ({
            let m = matching(s, prefix, s.len());
            &&& m == seq![i] <==> text::begins_with(ids::id_view(s[i].id), prefix) && forall|j: int|
                0 <= j < s.len() && j != i ==> !text::begins_with(
                    ids::id_view((#[trigger] s[j]).id),
                    prefix,
                )
            &&& m.len() == 0 <==> forall|j: int|
                0 <= j < s.len() ==> !text::begins_with(ids::id_view((#[trigger] s[j]).id), prefix)
        }),
{
    let m = matching(s, prefix, s.len());
    lemma_matching(s, prefix, s.len());
    if m == seq![i] {
        assert(m[0] == i);
        assert(m.contains(i));
        assert forall|j: int| 0 <= j < s.len() && j != i implies !text::begins_with(
            ids::id_view((#[trigger] s[j]).id),
            prefix,
        ) by {
            if has_prefix(s[j], prefix) {
                assert(m.contains(j));
            }
        }
    }
    if has_prefix(s[i], prefix) && forall|j: int|
        0 <= j < s.len() && j != i ==> !text::begins_with(
            ids::id_view((#[trigger] s[j]).id),
            prefix,
        ) {
        assert(m.contains(i));
        assert forall|k: int| 0 <= k < m.len() implies m[k] == i by {
            assert(m.contains(m[k]));
            assert(has_prefix(s[m[k]], prefix));
        }
        if m.len() > 1 {
            assert(m[0] == m[1]);
        }
        assert(m == seq![i]);
    }
    if m.len() == 0 {
        assert forall|j: int| 0 <= j < s.len() implies !text::begins_with(
            ids::id_view((#[trigger] s[j]).id),
            prefix,
        ) by {
            if has_prefix(s[j], prefix) {
                assert(m.contains(j));
            }
        }
    }
    if m.len() > 0 {
        assert(m.contains(m[0]));
        assert(has_prefix(s[m[0]], prefix));
    }
}

proof fn lemma_entries(projects: Seq<SessionProject>, n: nat)
    requires
        n <= projects.len(),
    ensures
        forall|e: Entry| #[trigger]
            entries(projects, n).contains(e) <==> 0 <= e.project < n && 0 <= e.session
                < projects[e.project].sessions@.len(),
    decreases n,
{
    if n > 0 {
        let before = entries(projects, (n - 1) as nat);
        let own = Seq::new(
            projects[n - 1].sessions@.len(),
            |j: int| Entry { project: n - 1, session: j },
        );
        let now = entries(projects, n);
        lemma_entries(projects, (n - 1) as nat);
        assert(now == before + own);
        assert forall|e: Entry| #[trigger]
            now.contains(e) <==> 0 <= e.project < n && 0 <= e.session
                < projects[e.project].sessions@.len() by {
            if now.contains(e) {
                let k = choose|k: int| 0 <= k < now.len() && now[k] == e;
                if k < before.len() {
                    assert(before[k] == e);
                    assert(before.contains(e));
                } else {
                    assert(own[k - before.len()] == e);
                }
            }
            if before.contains(e) {
                let k = choose|k: int| 0 <= k < before.len() && before[k] == e;
                assert(now[k] == e);
            } else if e.project == n - 1 && 0 <= e.session < own.len() {
                assert(own[e.session] == e);
                assert(now[before.len() + e.session] == e);
            }
        }
    }
}

/// The sessions of all projects are looked through, and nothing else.
pub proof fn all_sessions_are_looked_through(projects: Seq<SessionProject>, p: int, j: int)
    ensures
        entries(projects, projects.len()).contains(Entry { project: p, session: j }) <==> 0 <= p
            < projects.len() && 0 <= j < projects[p].sessions@.len(),
{
    lemma_entries(projects, projects.len());
}

/// Where nothing is asked for, no session of any project was updated later than the one meant.
pub proof fn no_session_anywhere_was_updated_later(
    projects: Seq<SessionProject>,
    all: Seq<Entry>,
    n: nat,
    i: int,
)
    requires
        0 <= i < n <= all.len(),
    ensures
        0 <= latest_entry(projects, all, n) < n,
        entry_session(projects, all[i]).updated_at <= entry_session(
            projects,
            all[latest_entry(projects, all, n)],
        ).updated_at,
        entry_session(projects, all[i]).updated_at == entry_session(
            projects,
            all[latest_entry(projects, all, n)],
        ).updated_at ==> entry_session(projects, all[i]).id <= entry_session(
            projects,
            all[latest_entry(projects, all, n)],
        ).id,
    decreases n,
{
    if n > 1 {
        if i < n - 1 {
            no_session_anywhere_was_updated_later(projects, all, (n - 1) as nat, i);
        } else {
            no_session_anywhere_was_updated_later(projects, all, (n - 1) as nat, 0);
        }
    }
}

proof fn lemma_matching_entries(
    projects: Seq<SessionProject>,
    all: Seq<Entry>,
    prefix: Seq<char>,
    n: nat,
)
    requires
        n <= all.len(),
    ensures
        forall|i: int| #[trigger]
            matching_entries(projects, all, prefix, n).contains(i) <==> 0 <= i < n && has_prefix(
                entry_session(projects, all[i]),
                prefix,
            ),
        matching_entries(projects, all, prefix, n).no_duplicates(),
    decreases n,
{
    if n > 0 {
        let before = matching_entries(projects, all, prefix, (n - 1) as nat);
        let now = matching_entries(projects, all, prefix, n);
        lemma_matching_entries(projects, all, prefix, (n - 1) as nat);
        let here = has_prefix(entry_session(projects, all[n - 1]), prefix);
        assert forall|i: int| #[trigger]
            now.contains(i) <==> 0 <= i < n && has_prefix(
                entry_session(projects, all[i]),
                prefix,
            ) by {
            if here {
                assert(now[before.len() as int] == n - 1);
                if before.contains(i) {
                    let k = choose|k: int| 0 <= k < before.len() && before[k] == i;
                    assert(now[k] == i);
                }
                if now.contains(i) && i != n - 1 {
                    let k = choose|k: int| 0 <= k < now.len() && now[k] == i;
                    assert(before[k] == i);
                }
            }
        }
        if here {
            assert(!before.contains(n - 1));
        }
    }
}

/// Among the sessions of all projects, those count whose ids begin as asked for, each once.
pub proof fn the_sessions_that_begin_so_count(
    projects: Seq<SessionProject>,
    all: Seq<Entry>,
    prefix: Seq<char>,
    i: int,
)
    ensures
        matching_entries(projects, all, prefix, all.len()).contains(i) <==> 0 <= i < all.len()
            && text::begins_with(ids::id_view(entry_session(projects, all[i]).id), prefix),
        matching_entries(projects, all, prefix, all.len()).no_duplicates(),
{
    lemma_matching_entries(projects, all, prefix, all.len());
}

/// The sessions of every root are listed, those that were there first; none is listed that is neither
/// there nor registered.
pub proof fn every_root_is_listed(
    roots: Seq<Seq<char>>,
    registered: Seq<Seq<char>>,
    root: Seq<char>,
)
    ensures
        with_roots(roots, registered).contains(root) <==> roots.contains(root)
            || registered.contains(root),
        roots.is_prefix_of(with_roots(roots, registered)),
    decreases registered.len(),
{
    if registered.len() > 0 {
        let rest = registered.drop_last();
        let before = with_roots(roots, rest);
        let now = with_roots(roots, registered);
        every_root_is_listed(roots, rest, root);
        every_root_is_listed(roots, rest, registered.last());
        if registered.contains(root) {
            let k = choose|k: int| 0 <= k < registered.len() && registered[k] == root;
            if k < rest.len() {
                assert(rest[k] == root);
            }
        }
        if rest.contains(root) {
            let k = choose|k: int| 0 <= k < rest.len() && rest[k] == root;
            assert(registered[k] == root);
        }
        assert(registered[registered.len() - 1] == registered.last());
        if !before.contains(registered.last()) {
            assert(now[before.len() as int] == registered.last());
            if before.contains(root) {
                let k = choose|k: int| 0 <= k < before.len() && before[k] == root;
                assert(now[k] == root);
            }
            if now.contains(root) {
                let k = choose|k: int| 0 <= k < now.len() && now[k] == root;
                if k < before.len() {
                    assert(before[k] == root);
                }
            }
        }
    }
}

/// A deletion goes on where it worked and ends where it did not: the session is deleted exactly where
/// removing it worked.
pub proof fn a_session_is_deleted_where_removing_worked(put_aside: bool, worked: bool)
    ensures
        ({
            let removed = step_after(DeleteStep::Remove { put_aside }, worked);
            &&& worked && !put_aside ==> removed == DeleteStep::Deleted
            &&& worked && put_aside ==> removed == DeleteStep::RemoveData
            &&& !worked && !put_aside ==> removed == DeleteStep::NotDeleted
        }),
        step_after(DeleteStep::PutAside, true) == (DeleteStep::Remove { put_aside: true }),
        step_after(DeleteStep::PutAside, false) == DeleteStep::NotPrepared,
        step_after(DeleteStep::PutBack, worked) == DeleteStep::NotDeleted,
        step_after(DeleteStep::RemoveData, true) == DeleteStep::Deleted,
        step_after(DeleteStep::RemoveData, false) == DeleteStep::DataLeft,
{
}

/// The session that is meant is one of those that there are, and its id begins as asked for.
pub proof fn the_session_meant_is_there(
    sessions: Vec<SessionSummary>,
    query: Option<&str>,
    r: Result<u128, ResolveError>,
)
    requires
        call_ensures(resolve_id, (&sessions, query), r),
    ensures
        sessions@.len() == 0 ==> r is Err,
        query is None && sessions@.len() > 0 ==> r is Ok,
        r matches Ok(id) ==> exists|i: int|
            0 <= i < sessions@.len() && (#[trigger] sessions@[i]).id == id && (query matches Some(q)
                ==> text::begins_with(ids::id_view(id), q@)),
{
    let s = sessions@;
    match query {
        None => {
            if s.len() > 0 {
                no_session_was_updated_later(s, 0);
                assert(r == Ok::<u128, ResolveError>(s[latest(s, s.len())].id));
            }
        },
        Some(q) => {
            lemma_matching(s, q@, s.len());
            let m = matching(s, q@, s.len());
            if m.len() > 0 {
                assert(m.contains(m[0]));
            }
            if m.len() == 1 {
                assert(has_prefix(s[m[0]], q@));
            }
        },
    }
}

/// A session stored without the time it was made counts as made when it was last updated.
pub proof fn sessions_have_the_time_they_were_made(
    created: Option<i128>,
    updated: Option<i128>,
    r: Option<(i128, bool)>,
)
    requires
        call_ensures(stored_created_at, (created, updated), r),
    ensures
        r is None <==> created is None && updated is None,
        created matches Some(c) ==> r == Some((c, false)),
        created is None ==> (updated matches Some(u) ==> r == Some((u, true))),
{
}

} // verus!
