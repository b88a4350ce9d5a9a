//! Lists of saved sessions, arranged as a forest of sessions and those they started.
use crate::sort;
use crate::sort::{NewestFirst, Rank};
use std::collections::HashMap;
use vstd::prelude::*;

verus! {

broadcast use vstd::std_specs::hash::group_hash_axioms;

/// The scheduled run that a session was made for.
#[derive(Debug)]
pub struct ScheduledRun {
    pub job_id: String,
    pub occurrence: u64,
    pub scheduled_at: i128,
}

/// A saved session, as listed.
#[derive(Debug)]
pub struct SessionSummary {
    pub id: u128,
    pub parent_session_id: Option<u128>,
    pub scheduled_run: Option<ScheduledRun>,
    pub created_at: i128,
    pub updated_at: i128,
    pub title: String,
    pub model: String,
    pub depth: usize,
    pub descendant_count: usize,
}

/// The sessions of one project.
#[derive(Debug)]
pub struct SessionProject {
    pub root: String,
    pub sessions: Vec<SessionSummary>,
}

impl Clone for ScheduledRun {
    fn clone(&self) -> (r: Self)
        ensures
            r == *self,
    {
        ScheduledRun {
            job_id: self.job_id.clone(),
            occurrence: self.occurrence,
            scheduled_at: self.scheduled_at,
        }
    }
}

/// A copy of an optional scheduled run.
pub fn copy_run(run: &Option<ScheduledRun>) -> (r: Option<ScheduledRun>)
    ensures
        r == *run,
{
    match run {
        Some(run) => Some(run.clone()),
        None => None,
    }
}

impl Clone for SessionSummary {
    fn clone(&self) -> (r: Self)
        ensures
            r == *self,
    {
        SessionSummary {
            id: self.id,
            parent_session_id: self.parent_session_id,
            scheduled_run: copy_run(&self.scheduled_run),
            created_at: self.created_at,
            updated_at: self.updated_at,
            title: self.title.clone(),
            model: self.model.clone(),
            depth: self.depth,
            descendant_count: self.descendant_count,
        }
    }
}

// ---------------------------------------------------------------------------
// The model: positions in the list

/// The last position below `n` of a session called `id`.
pub open spec fn owner(s: Seq<SessionSummary>, id: u128, n: nat) -> Option<int>
    decreases n,
{
    if n == 0 {
        None
    } else if s[n - 1].id == id {
        Some(n - 1)
    } else {
        owner(s, id, (n - 1) as nat)
    }
}

/// The position of the session that session `i` was started by, where it is listed.
pub open spec fn parent(s: Seq<SessionSummary>, i: int) -> Option<int> {
    match s[i].parent_session_id {
        Some(id) => owner(s, id, s.len()),
        None => None,
    }
}

/// The position `k` steps above `i`.
pub open spec fn climb(s: Seq<SessionSummary>, i: int, k: nat) -> Option<int>
    decreases k,
{
    if k == 0 {
        Some(i)
    } else {
        match parent(s, i) {
            Some(p) => climb(s, p, (k - 1) as nat),
            None => None,
        }
    }
}

/// Whether session `i` stands above itself.
pub open spec fn on_cycle(s: Seq<SessionSummary>, i: int) -> bool {
    exists|k: nat| k > 0 && #[trigger] climb(s, i, k) == Some(i)
}

/// Whether session `i` stands at the top: nothing listed started it, or it stands above itself.
pub open spec fn is_root(s: Seq<SessionSummary>, i: int) -> bool {
    on_cycle(s, i) || parent(s, i) is None
}

/// The sessions below `n` that stand at the top, in the order of the list.
pub open spec fn root_list(s: Seq<SessionSummary>, n: nat) -> Seq<int>
    decreases n,
{
    if n == 0 {
        Seq::empty()
    } else if is_root(s, n - 1) {
        root_list(s, (n - 1) as nat).push(n - 1)
    } else {
        root_list(s, (n - 1) as nat)
    }
}

/// The sessions below `n` that stand right under session `p`, in the order of the list.
pub open spec fn kid_list(s: Seq<SessionSummary>, p: int, n: nat) -> Seq<int>
    decreases n,
{
    if n == 0 {
        Seq::empty()
    } else if !is_root(s, n - 1) && parent(s, n - 1) == Some(p) {
        kid_list(s, p, (n - 1) as nat).push(n - 1)
    } else {
        kid_list(s, p, (n - 1) as nat)
    }
}

/// What sessions are ranked by.
pub open spec fn ages(s: Seq<SessionSummary>) -> Seq<NewestFirst> {
    Seq::new(s.len(), |i: int| NewestFirst { at: s[i].created_at, id: s[i].id })
}

/// The sessions at the top, newest first.
pub open spec fn roots(s: Seq<SessionSummary>) -> Seq<int> {
    sort::sort_by(ages(s), root_list(s, s.len()))
}

/// The sessions right under session `p`, newest first.
pub open spec fn kids(s: Seq<SessionSummary>, p: int) -> Seq<int> {
    sort::sort_by(ages(s), kid_list(s, p, s.len()))
}

/// A session with its depth in the forest.
pub struct Placed {
    pub index: int,
    pub depth: nat,
}

/// Session `i` at `depth`, followed by everything under it.
pub open spec fn tree(s: Seq<SessionSummary>, i: int, depth: nat) -> Seq<Placed>
    decreases s.len() - depth, 0nat,
{
    if depth >= s.len() {
        Seq::empty()
    } else {
        seq![Placed { index: i, depth }] + forest(s, kids(s, i), depth + 1)
    }
}

/// The sessions in `list` at `depth`, each followed by everything under it.
pub open spec fn forest(s: Seq<SessionSummary>, list: Seq<int>, depth: nat) -> Seq<Placed>
    decreases s.len() - depth, list.len() + 1,
{
    if list.len() == 0 {
        Seq::empty()
    } else {
        forest(s, list.drop_last(), depth) + tree(s, list.last(), depth)
    }
}

/// The whole forest, from top to bottom.
pub open spec fn arranged(s: Seq<SessionSummary>) -> Seq<Placed> {
    forest(s, roots(s), 0)
}

/// A session of the list at its place: with its depth, and the number of sessions under it.
pub open spec fn summary_at(s: Seq<SessionSummary>, p: Placed) -> SessionSummary {
    SessionSummary {
        depth: p.depth as usize,
        descendant_count: (tree(s, p.index, p.depth).len() - 1) as usize,
        ..s[p.index]
    }
}

/// Sessions at their places.
pub open spec fn summaries_at(s: Seq<SessionSummary>, list: Seq<Placed>) -> Seq<SessionSummary> {
    Seq::new(list.len(), |i: int| summary_at(s, list[i]))
}

// ---------------------------------------------------------------------------
// Facts about climbing

proof fn lemma_owner(s: Seq<SessionSummary>, id: u128, n: nat)
    requires
        n <= s.len(),
    ensures
        owner(s, id, n) matches Some(i) ==> 0 <= i < n && s[i].id == id,
    decreases n,
{
    if n > 0 && s[n - 1].id != id {
        lemma_owner(s, id, (n - 1) as nat);
    }
}

proof fn lemma_parent(s: Seq<SessionSummary>, i: int)
    ensures
        parent(s, i) matches Some(p) ==> 0 <= p < s.len(),
{
    match s[i].parent_session_id {
        Some(id) => lemma_owner(s, id, s.len()),
        None => {},
    }
}

proof fn lemma_climb_range(s: Seq<SessionSummary>, i: int, k: nat)
    requires
        0 <= i < s.len(),
    ensures
        climb(s, i, k) matches Some(a) ==> 0 <= a < s.len(),
    decreases k,
{
    if k > 0 {
        lemma_parent(s, i);
        match parent(s, i) {
            Some(p) => lemma_climb_range(s, p, (k - 1) as nat),
            None => {},
        }
    }
}

proof fn lemma_climb_add(s: Seq<SessionSummary>, i: int, a: nat, b: nat)
    ensures
        climb(s, i, a + b) == (match climb(s, i, a) {
            Some(p) => climb(s, p, b),
            None => None,
        }),
    decreases a,
{
    if a > 0 {
        match parent(s, i) {
            Some(p) => lemma_climb_add(s, p, (a - 1) as nat, b),
            None => {},
        }
    }
}

proof fn lemma_climb_some_below(s: Seq<SessionSummary>, i: int, a: nat, b: nat)
    requires
        a <= b,
        climb(s, i, b) is Some,
    ensures
        climb(s, i, a) is Some,
{
    lemma_climb_add(s, i, a, (b - a) as nat);
}

proof fn lemma_climb_rounds(s: Seq<SessionSummary>, i: int, k: nat, m: nat)
    requires
        climb(s, i, k) == Some(i),
    ensures
        climb(s, i, k * m) == Some(i),
    decreases m,
{
    if m > 0 {
        lemma_climb_rounds(s, i, k, (m - 1) as nat);
        assert(k * m == k * (m - 1) + k) by (nonlinear_arith)
            requires
                m > 0,
        ;
        lemma_climb_add(s, i, (k * (m - 1)) as nat, k);
    } else {
        assert(k * m == 0) by (nonlinear_arith)
            requires
                m == 0,
        ;
    }
}

/// Among the first `n + 1` steps of a way up that goes on, two meet the same session.
proof fn lemma_pigeonhole(s: Seq<SessionSummary>, i: int) -> (r: (nat, nat))
    requires
        0 <= i < s.len(),
        climb(s, i, s.len()) is Some,
    ensures
        r.0 < r.1 <= s.len(),
        climb(s, i, r.0) is Some,
        climb(s, i, r.0) == climb(s, i, r.1),
{
    let n = s.len();
    let way = Seq::new(n + 1, |k: int| climb(s, i, k as nat)->0);
    assert forall|k: int| 0 <= k < n + 1 implies climb(s, i, k as nat) is Some && 0
        <= #[trigger] way[k] < n by {
        lemma_climb_some_below(s, i, k as nat, n);
        lemma_climb_range(s, i, k as nat);
    }
    if way.no_duplicates() {
        way.unique_seq_to_set();
        let all = vstd::set_lib::set_int_range(0, n as int);
        vstd::set_lib::lemma_int_range(0, n as int);
        assert(way.to_set().subset_of(all));
        vstd::set_lib::lemma_len_subset(way.to_set(), all);
    }
    let (a, b): (int, int) = choose|a: int, b: int|
        0 <= a < way.len() && 0 <= b < way.len() && a != b && way[a] == way[b];
    if a < b {
        (a as nat, b as nat)
    } else {
        (b as nat, a as nat)
    }
}

/// A session that stands above itself does so within as many steps as there are sessions.
proof fn lemma_short_cycle(s: Seq<SessionSummary>, i: int, k: nat) -> (m: nat)
    requires
        0 <= i < s.len(),
        k > 0,
        climb(s, i, k) == Some(i),
    ensures
        0 < m <= s.len(),
        climb(s, i, m) == Some(i),
{
    let n = s.len();
    assert(climb(s, i, n) is Some) by {
        lemma_climb_rounds(s, i, k, n);
        assert(n <= k * n) by (nonlinear_arith)
            requires
                k > 0,
        ;
        lemma_climb_some_below(s, i, n, k * n);
    }
    let (a, b) = lemma_pigeonhole(s, i);
    lemma_climb_rounds(s, i, k, a);
    assert(k * a >= a) by (nonlinear_arith)
        requires
            k > 0,
    ;
    let t = (k * a - a) as nat;
    lemma_climb_add(s, i, a, t);
    lemma_climb_add(s, i, b, t);
    assert(a + t == k * a);
    assert(climb(s, i, b + t) == Some(i));
    lemma_climb_add(s, i, k * a, (b - a) as nat);
    assert(k * a + (b - a) == b + t);
    (b - a) as nat
}

/// What is met twice on a way up stands above itself.
proof fn lemma_met_twice(s: Seq<SessionSummary>, i: int, a: nat, b: nat)
    requires
        a < b,
        climb(s, i, a) is Some,
        climb(s, i, a) == climb(s, i, b),
    ensures
        on_cycle(s, climb(s, i, a)->0),
{
    let x = climb(s, i, a)->0;
    lemma_climb_add(s, i, a, (b - a) as nat);
    assert(climb(s, x, (b - a) as nat) == Some(x));
}

// ---------------------------------------------------------------------------
// Arranging

/// Whether `indexes` tells the last position of every id.
spec fn owners_of(indexes: Map<u128, usize>, s: Seq<SessionSummary>, n: nat) -> bool {
    forall|id: u128|
        #![trigger indexes.contains_key(id)]
        indexes.contains_key(id) == owner(s, id, n) is Some && (indexes.contains_key(id)
            ==> owner(s, id, n) == Some(indexes[id] as int))
}

fn index_sessions(source: &Vec<SessionSummary>) -> (m: HashMap<u128, usize>)
    ensures
        owners_of(m@, source@, source@.len()),
{
    let mut m: HashMap<u128, usize> = HashMap::new();
    let mut i: usize = 0;
    while i < source.len()
        invariant
            i <= source@.len(),
            owners_of(m@, source@, i as nat),
        decreases source@.len() - i,
    {
        let ghost before = m@;
        m.insert(source[i].id, i);
        assert forall|id: u128|
            #![trigger m@.contains_key(id)]
            m@.contains_key(id) == owner(source@, id, (i + 1) as nat) is Some && (m@.contains_key(
                id,
            ) ==> owner(source@, id, (i + 1) as nat) == Some(m@[id] as int)) by {
            assert(before.contains_key(id) == owner(source@, id, i as nat) is Some);
        }
        i += 1;
    }
    m
}

fn parent_index(source: &Vec<SessionSummary>, indexes: &HashMap<u128, usize>, i: usize) -> (r:
    Option<usize>)
    requires
        i < source@.len(),
        owners_of(indexes@, source@, source@.len()),
    ensures
        r is Some == parent(source@, i as int) is Some,
        r matches Some(p) ==> p < source@.len() && parent(source@, i as int) == Some(p as int),
{
    proof {
        lemma_parent(source@, i as int);
    }
    match source[i].parent_session_id {
        Some(id) => {
            assert(indexes@.contains_key(id) == owner(source@, id, source@.len()) is Some);
            match indexes.get(&id) {
                Some(p) => Some(*p),
                None => None,
            }
        },
        None => None,
    }
}

/// Whether session `i` stands above itself.
fn cyclic(source: &Vec<SessionSummary>, parents: &Vec<Option<usize>>, i: usize) -> (r: bool)
    requires
        i < source@.len(),
        parents@.len() == source@.len(),
        forall|j: int|
            #![trigger parents@[j]]
            0 <= j < source@.len() ==> (parents@[j] is Some == parent(source@, j) is Some) && (
            parents@[j] matches Some(p) ==> p < source@.len() && parent(source@, j) == Some(
                p as int,
            )),
    ensures
        r == on_cycle(source@, i as int),
{
    let ghost s = source@;
    let mut current: usize = i;
    let mut steps: usize = 0;
    while steps < source.len()
        invariant
            steps <= source@.len(),
            s == source@,
            i < s.len(),
            current < s.len(),
            parents@.len() == s.len(),
            forall|j: int|
                #![trigger parents@[j]]
                0 <= j < s.len() ==> (parents@[j] is Some == parent(s, j) is Some) && (
                parents@[j] matches Some(p) ==> p < s.len() && parent(s, j) == Some(p as int)),
            climb(s, i as int, steps as nat) == Some(current as int),
            forall|k: nat| 0 < k <= steps ==> #[trigger] climb(s, i as int, k) != Some(i as int),
        decreases source@.len() - steps,
    {
        proof {
            lemma_climb_add(s, i as int, steps as nat, 1);
            reveal_with_fuel(climb, 2);
        }
        match parents[current] {
            Some(p) => {
                assert(climb(s, i as int, (steps + 1) as nat) == Some(p as int));
                if p == i {
                    return true;
                }
                current = p;
            },
            None => {
                proof {
                    assert(climb(s, i as int, (steps + 1) as nat) is None);
                    assert forall|k: nat| k > 0 implies #[trigger] climb(s, i as int, k) != Some(
                        i as int,
                    ) by {
                        if k > steps {
                            if climb(s, i as int, k) is Some {
                                lemma_climb_some_below(s, i as int, (steps + 1) as nat, k);
                            }
                        }
                    }
                }
                return false;
            },
        }
        steps += 1;
    }
    proof {
        if on_cycle(s, i as int) {
            let k = choose|k: nat| k > 0 && #[trigger] climb(s, i as int, k) == Some(i as int);
            let m = lemma_short_cycle(s, i as int, k);
            assert(climb(s, i as int, m) != Some(i as int));
        }
    }
    false
}

fn append_tree(
    source: &Vec<SessionSummary>,
    children: &Vec<Vec<usize>>,
    index: usize,
    depth: usize,
    output: &mut Vec<SessionSummary>,
)
    requires
        index < source@.len(),
        depth <= source@.len(),
        children@.len() == source@.len(),
        forall|p: int|
            #![trigger children@[p]]
            0 <= p < source@.len() ==> sort::ints(children@[p]@) == kids(source@, p) && forall|
                j: int,
            |
                0 <= j < children@[p]@.len() ==> #[trigger] children@[p]@[j] < source@.len(),
    ensures
        final(output)@ == old(output)@ + summaries_at(
            source@,
            tree(source@, index as int, depth as nat),
        ),
    decreases source@.len() - depth,
{
    let ghost s = source@;
    if depth >= source.len() {
        assert(output@ + summaries_at(s, tree(s, index as int, depth as nat)) == output@);
        return ;
    }
    let total: usize = source.len();
    let mut under: Vec<SessionSummary> = Vec::new();
    let list = &children[index];
    let mut j: usize = 0;
    let ghost all = sort::ints(list@);
    assert(all.take(0) == Seq::<int>::empty());
    assert(summaries_at(s, forest(s, all.take(0), (depth + 1) as nat)) == Seq::<
        SessionSummary,
    >::empty());
    while j < list.len()
        invariant
            j <= list@.len(),
            s == source@,
            all == sort::ints(list@),
            total == s.len(),
            depth < total,
            children@.len() == s.len(),
            forall|p: int|
                #![trigger children@[p]]
                0 <= p < s.len() ==> sort::ints(children@[p]@) == kids(s, p) && forall|j: int|
                    0 <= j < children@[p]@.len() ==> #[trigger] children@[p]@[j] < s.len(),
            forall|j: int| 0 <= j < list@.len() ==> #[trigger] list@[j] < s.len(),
            under@ == summaries_at(s, forest(s, all.take(j as int), (depth + 1) as nat)),
        decreases list@.len() - j,
    {
        let ghost before = under@;
        append_tree(source, children, list[j], depth + 1, &mut under);
        proof {
            let next = all.take(j + 1);
            assert(next.drop_last() == all.take(j as int));
            assert(next.last() == list@[j as int] as int);
            let a = forest(s, all.take(j as int), (depth + 1) as nat);
            let b = tree(s, list@[j as int] as int, (depth + 1) as nat);
            assert(summaries_at(s, a + b) == summaries_at(s, a) + summaries_at(s, b));
        }
        j += 1;
    }
    assert(all.take(all.len() as int) == all);
    let mut session = source[index].clone();
    session.depth = depth;
    session.descendant_count = under.len();
    let ghost here = session;
    let ghost inner = under@;
    output.push(session);
    output.append(&mut under);
    proof {
        let below = forest(s, kids(s, index as int), (depth + 1) as nat);
        let p = Placed { index: index as int, depth: depth as nat };
        assert(tree(s, index as int, depth as nat) == seq![p] + below);
        assert(inner == summaries_at(s, below));
        assert(inner.len() == below.len());
        assert(here == summary_at(s, p));
        assert(summaries_at(s, seq![p] + below) == seq![here] + inner);
        assert(output@ == old(output)@ + (seq![here] + inner));
    }
}

/// Arranges sessions as a forest: each right under the session that started it, newest first.
pub fn arrange_session_tree(sessions: &mut Vec<SessionSummary>)
    ensures
        final(sessions)@ == summaries_at(old(sessions)@, arranged(old(sessions)@)),
{
    let ghost s = sessions@;
    let mut source: Vec<SessionSummary> = Vec::new();
    source.append(sessions);
    assert(source@ == s);
    let indexes = index_sessions(&source);
    let mut parents: Vec<Option<usize>> = Vec::new();
    let mut ages_of: Vec<NewestFirst> = Vec::new();
    let mut children: Vec<Vec<usize>> = Vec::new();
    let mut i: usize = 0;
    while i < source.len()
        invariant
            i <= source@.len(),
            source@ == s,
            owners_of(indexes@, s, s.len()),
            parents@.len() == i,
            ages_of@.len() == i,
            children@.len() == i,
            forall|j: int|
                #![trigger parents@[j]]
                0 <= j < i ==> (parents@[j] is Some == parent(s, j) is Some) && (
                parents@[j] matches Some(p) ==> p < s.len() && parent(s, j) == Some(p as int)),
            forall|j: int| 0 <= j < i ==> #[trigger] ages_of@[j] == ages(s)[j],
            forall|j: int| 0 <= j < i ==> (#[trigger] children@[j])@ == Seq::<usize>::empty(),
        decreases source@.len() - i,
    {
        parents.push(parent_index(&source, &indexes, i));
        ages_of.push(NewestFirst { at: source[i].created_at, id: source[i].id });
        children.push(Vec::new());
        i += 1;
    }
    assert(ages_of@ == ages(s));
    let mut tops: Vec<usize> = Vec::new();
    let mut i: usize = 0;
    assert(sort::ints(tops@) == root_list(s, 0));
    assert forall|p: int| 0 <= p < s.len() implies sort::ints((#[trigger] children@[p])@)
        == kid_list(s, p, 0) by {
        assert(sort::ints(children@[p]@) == Seq::<int>::empty());
    }
    while i < source.len()
        invariant
            i <= source@.len(),
            source@ == s,
            parents@.len() == s.len(),
            children@.len() == s.len(),
            forall|j: int|
                #![trigger parents@[j]]
                0 <= j < s.len() ==> (parents@[j] is Some == parent(s, j) is Some) && (
                parents@[j] matches Some(p) ==> p < s.len() && parent(s, j) == Some(p as int)),
            sort::ints(tops@) == root_list(s, i as nat),
            forall|j: int| 0 <= j < tops@.len() ==> #[trigger] tops@[j] < s.len(),
            forall|p: int|
                #![trigger children@[p]]
                0 <= p < s.len() ==> sort::ints(children@[p]@) == kid_list(s, p, i as nat)
                    && forall|j: int|
                    0 <= j < children@[p]@.len() ==> #[trigger] children@[p]@[j] < s.len(),
        decreases source@.len() - i,
    {
        let top = cyclic(&source, &parents, i);
        let ghost before = children@;
        match parents[i] {
            Some(p) if !top => {
                assert(!is_root(s, i as int));
                let mut list: Vec<usize> = Vec::new();
                list.append(&mut children[p]);
                let ghost old_list = list@;
                assert(old_list == before[p as int]@);
                list.push(i);
                assert(sort::ints(list@) == sort::ints(old_list).push(i as int));
                children.set(p, list);
                assert forall|q: int|
                    #![trigger children@[q]]
                    0 <= q < s.len() implies sort::ints(children@[q]@) == kid_list(
                    s,
                    q,
                    (i + 1) as nat,
                ) && forall|j: int|
                    0 <= j < children@[q]@.len() ==> #[trigger] children@[q]@[j] < s.len() by {
                    assert(sort::ints(before[q]@) == kid_list(s, q, i as nat));
                    if q != p {
                        assert(children@[q] == before[q]);
                    } else {
                        assert(children@[q]@ == old_list.push(i));
                    }
                }
            },
            _ => {
                assert(is_root(s, i as int));
                let ghost old_tops = tops@;
                tops.push(i);
                assert(sort::ints(tops@) == sort::ints(old_tops).push(i as int));
            },
        }
        i += 1;
    }
    let tops = sort::sort_indexes(&ages_of, &tops);
    let mut sorted: Vec<Vec<usize>> = Vec::new();
    let mut i: usize = 0;
    while i < children.len()
        invariant
            i <= children@.len(),
            children@.len() == s.len(),
            ages_of@ == ages(s),
            sorted@.len() == i,
            forall|p: int|
                #![trigger children@[p]]
                0 <= p < s.len() ==> sort::ints(children@[p]@) == kid_list(s, p, s.len())
                    && forall|j: int|
                    0 <= j < children@[p]@.len() ==> #[trigger] children@[p]@[j] < s.len(),
            forall|p: int|
                #![trigger sorted@[p]]
                0 <= p < i ==> sort::ints(sorted@[p]@) == kids(s, p) && forall|j: int|
                    0 <= j < sorted@[p]@.len() ==> #[trigger] sorted@[p]@[j] < s.len(),
        decreases children@.len() - i,
    {
        sorted.push(sort::sort_indexes(&ages_of, &children[i]));
        i += 1;
    }
    let mut i: usize = 0;
    let ghost all = sort::ints(tops@);
    assert(all.take(0) == Seq::<int>::empty());
    assert(summaries_at(s, forest(s, all.take(0), 0)) == Seq::<SessionSummary>::empty());
    while i < tops.len()
        invariant
            i <= tops@.len(),
            source@ == s,
            all == sort::ints(tops@),
            sorted@.len() == s.len(),
            forall|j: int| 0 <= j < tops@.len() ==> #[trigger] tops@[j] < s.len(),
            forall|p: int|
                #![trigger sorted@[p]]
                0 <= p < s.len() ==> sort::ints(sorted@[p]@) == kids(s, p) && forall|j: int|
                    0 <= j < sorted@[p]@.len() ==> #[trigger] sorted@[p]@[j] < s.len(),
            sessions@ == summaries_at(s, forest(s, all.take(i as int), 0)),
        decreases tops@.len() - i,
    {
        append_tree(&source, &sorted, tops[i], 0, sessions);
        proof {
            let next = all.take(i + 1);
            assert(next.drop_last() == all.take(i as int));
            assert(next.last() == tops@[i as int] as int);
            let a = forest(s, all.take(i as int), 0);
            let b = tree(s, tops@[i as int] as int, 0);
            assert(summaries_at(s, a + b) == summaries_at(s, a) + summaries_at(s, b));
        }
        i += 1;
    }
    assert(all.take(all.len() as int) == all);
}

/// Arranges the sessions of every project.
pub fn arrange_session_projects(projects: &mut Vec<SessionProject>)
    ensures
        final(projects)@.len() == old(projects)@.len(),
        forall|i: int|
            0 <= i < final(projects)@.len() ==> (#[trigger] final(projects)@[i]).root == old(
                projects,
            )@[i].root && final(projects)@[i].sessions@ == summaries_at(
                old(projects)@[i].sessions@,
                arranged(old(projects)@[i].sessions@),
            ),
{
    let ghost before = projects@;
    let mut i: usize = 0;
    while i < projects.len()
        invariant
            i <= projects@.len(),
            projects@.len() == before.len(),
            forall|j: int| i <= j < projects@.len() ==> #[trigger] projects@[j] == before[j],
            forall|j: int|
                0 <= j < i ==> (#[trigger] projects@[j]).root == before[j].root
                    && projects@[j].sessions@ == summaries_at(
                    before[j].sessions@,
                    arranged(before[j].sessions@),
                ),
        decreases projects@.len() - i,
    {
        arrange_session_tree(&mut projects[i].sessions);
        i += 1;
    }
}

// ---------------------------------------------------------------------------
// Laws

/// Whether `r` is reached from `x` in `k` steps up, and nothing passed before stands at the top.
pub open spec fn below(s: Seq<SessionSummary>, x: int, r: int, k: nat) -> bool {
    &&& climb(s, x, k) == Some(r)
    &&& forall|j: nat|
        j < k ==> (#[trigger] climb(s, x, j)) is Some && !is_root(s, climb(s, x, j)->0)
}

proof fn lemma_root_list(s: Seq<SessionSummary>, n: nat)
    ensures
        forall|c: int| #[trigger] root_list(s, n).contains(c) <==> 0 <= c < n && is_root(s, c),
        root_list(s, n).no_duplicates(),
    decreases n,
{
    if n > 0 {
        lemma_root_list(s, (n - 1) as nat);
        let shorter = root_list(s, (n - 1) as nat);
        if is_root(s, n - 1) {
            assert(!shorter.contains(n - 1));
            assert forall|c: int| #[trigger] root_list(s, n).contains(c) <==> 0 <= c < n && is_root(s, c) by {
                if shorter.contains(c) {
                    let k = choose|k: int| 0 <= k < shorter.len() && shorter[k] == c;
                    assert(root_list(s, n)[k] == c);
                }
                assert(root_list(s, n)[shorter.len() as int] == n - 1);
            }
        }
    }
}

proof fn lemma_kid_list(s: Seq<SessionSummary>, p: int, n: nat)
    ensures
        forall|c: int|
            kid_list(s, p, n).contains(c) <==> 0 <= c < n && !is_root(s, c) && parent(s, c) == Some(
                p,
            ),
        kid_list(s, p, n).no_duplicates(),
    decreases n,
{
    if n > 0 {
        lemma_kid_list(s, p, (n - 1) as nat);
        let shorter = kid_list(s, p, (n - 1) as nat);
        if !is_root(s, n - 1) && parent(s, n - 1) == Some(p) {
            assert(!shorter.contains(n - 1));
            assert forall|c: int|
                kid_list(s, p, n).contains(c) <==> 0 <= c < n && !is_root(s, c) && parent(s, c)
                    == Some(p) by {
                if shorter.contains(c) {
                    let k = choose|k: int| 0 <= k < shorter.len() && shorter[k] == c;
                    assert(kid_list(s, p, n)[k] == c);
                }
                assert(kid_list(s, p, n)[shorter.len() as int] == n - 1);
            }
        }
    }
}

proof fn lemma_sorted_distinct(s: Seq<SessionSummary>, list: Seq<int>)
    requires
        list.no_duplicates(),
    ensures
        sort::sort_by(ages(s), list).no_duplicates(),
{
    broadcast use vstd::seq_lib::group_to_multiset_ensures;

    let out = sort::sort_by(ages(s), list);
    sort::lemma_sort_members(ages(s), list);
    list.lemma_multiset_has_no_duplicates();
    assert forall|x: int| out.to_multiset().contains(x) implies out.to_multiset().count(x) == 1 by {
        assert(list.to_multiset().contains(x));
    }
    out.lemma_multiset_has_no_duplicates_conv();
}

/// Whether the sessions in `list` all stand at the top, or all right under one session.
spec fn siblings(s: Seq<SessionSummary>, list: Seq<int>) -> bool {
    &&& list.no_duplicates()
    &&& forall|m: int| 0 <= m < list.len() ==> 0 <= #[trigger] list[m] < s.len()
    &&& {
        ||| forall|m: int| 0 <= m < list.len() ==> is_root(s, #[trigger] list[m])
        ||| exists|p: int| #[trigger] under_one(s, list, p)
    }
}

spec fn under_one(s: Seq<SessionSummary>, list: Seq<int>, p: int) -> bool {
    forall|m: int|
        0 <= m < list.len() ==> !is_root(s, #[trigger] list[m]) && parent(s, list[m]) == Some(p)
}

proof fn lemma_kids_are_siblings(s: Seq<SessionSummary>, p: int)
    ensures
        siblings(s, kids(s, p)),
        forall|c: int|
            kids(s, p).contains(c) <==> 0 <= c < s.len() && !is_root(s, c) && parent(s, c) == Some(
                p,
            ),
{
    lemma_kid_list(s, p, s.len());
    let list = kids(s, p);
    lemma_sorted_distinct(s, kid_list(s, p, s.len()));
    assert forall|c: int|
        list.contains(c) <==> 0 <= c < s.len() && !is_root(s, c) && parent(s, c) == Some(p) by {
        sort::lemma_sort_contains(ages(s), kid_list(s, p, s.len()), c);
    }
    assert forall|m: int| 0 <= m < list.len() implies 0 <= #[trigger] list[m] < s.len()
        && !is_root(s, list[m]) && parent(s, list[m]) == Some(p) by {
        assert(list.contains(list[m]));
    }
    assert(under_one(s, list, p));
}

proof fn lemma_roots_are_siblings(s: Seq<SessionSummary>)
    ensures
        siblings(s, roots(s)),
        forall|c: int| #[trigger] roots(s).contains(c) <==> 0 <= c < s.len() && is_root(s, c),
{
    lemma_root_list(s, s.len());
    let list = roots(s);
    lemma_sorted_distinct(s, root_list(s, s.len()));
    assert forall|c: int| #[trigger] list.contains(c) <==> 0 <= c < s.len() && is_root(s, c) by {
        sort::lemma_sort_contains(ages(s), root_list(s, s.len()), c);
    }
    assert forall|m: int| 0 <= m < list.len() implies 0 <= #[trigger] list[m] < s.len() && is_root(
        s,
        list[m],
    ) by {
        assert(list.contains(list[m]));
    }
}

/// No session stands under two siblings.
proof fn lemma_siblings_apart(
    s: Seq<SessionSummary>,
    list: Seq<int>,
    u: int,
    v: int,
    x: int,
    k: nat,
    l: nat,
)
    requires
        siblings(s, list),
        0 <= u < list.len(),
        0 <= v < list.len(),
        below(s, x, list[u], k),
        below(s, x, list[v], l),
        k <= l,
    ensures
        u == v,
{
    let a = list[u];
    let b = list[v];
    if u != v {
        assert(a != b);
    }
    if k < l {
        assert(climb(s, x, k) is Some && !is_root(s, a));
        let p = choose|p: int| #[trigger] under_one(s, list, p);
        assert(under_one(s, list, p));
        assert(parent(s, list[u]) == Some(p) && parent(s, list[v]) == Some(p));
        lemma_climb_add(s, x, k, 1);
        lemma_climb_add(s, x, l, 1);
        reveal_with_fuel(climb, 2);
        assert(climb(s, x, k + 1) == Some(p));
        assert(climb(s, x, l + 1) == Some(p));
        lemma_met_twice(s, x, k + 1, l + 1);
        assert(is_root(s, p));
        if k + 1 < l {
            assert(!is_root(s, climb(s, x, (k + 1) as nat)->0));
        } else {
            assert(climb(s, x, l) == Some(b));
            assert(!is_root(s, list[v]));
        }
    }
}

/// Everything in a tree stands under its top, as deep as it is placed.
proof fn lemma_tree_members(s: Seq<SessionSummary>, r: int, d: nat, j: int)
    requires
        0 <= r < s.len(),
        0 <= j < tree(s, r, d).len(),
    ensures
        ({
            let q = tree(s, r, d)[j];
            &&& d <= q.depth < s.len()
            &&& 0 <= q.index < s.len()
            &&& below(s, q.index, r, (q.depth - d) as nat)
        }),
    decreases s.len() - d, 0nat,
{
    let list = kids(s, r);
    lemma_kids_are_siblings(s, r);
    if j > 0 {
        let m = lemma_forest_members(s, list, d + 1, j - 1);
        let q = tree(s, r, d)[j];
        assert(q == forest(s, list, d + 1)[j - 1]);
        let c = list[m];
        assert(list.contains(c));
        let k = (q.depth - d - 1) as nat;
        lemma_climb_add(s, q.index, k, 1);
        reveal_with_fuel(climb, 2);
        assert(climb(s, q.index, k + 1) == Some(r));
        assert forall|i: nat| i < k + 1 implies (#[trigger] climb(s, q.index, i)) is Some
            && !is_root(s, climb(s, q.index, i)->0) by {
            if i == k {
            }
        }
    }
}

proof fn lemma_forest_members(s: Seq<SessionSummary>, list: Seq<int>, d: nat, j: int) -> (m: int)
    requires
        siblings(s, list),
        0 <= j < forest(s, list, d).len(),
    ensures
        0 <= m < list.len(),
        ({
            let q = forest(s, list, d)[j];
            &&& d <= q.depth < s.len()
            &&& 0 <= q.index < s.len()
            &&& below(s, q.index, list[m], (q.depth - d) as nat)
        }),
    decreases s.len() - d, list.len() + 1,
{
    let rest = list.drop_last();
    let front = forest(s, rest, d);
    lemma_siblings_rest(s, list);
    if j < front.len() {
        let m = lemma_forest_members(s, rest, d, j);
        assert(rest[m] == list[m]);
        m
    } else {
        lemma_tree_members(s, list.last(), d, j - front.len());
        list.len() - 1
    }
}

proof fn lemma_siblings_rest(s: Seq<SessionSummary>, list: Seq<int>)
    requires
        siblings(s, list),
        list.len() > 0,
    ensures
        siblings(s, list.drop_last()),
{
    let rest = list.drop_last();
    assert forall|m: int| 0 <= m < rest.len() implies 0 <= #[trigger] rest[m] < s.len() by {
        assert(rest[m] == list[m]);
    }
    if forall|m: int| 0 <= m < list.len() ==> is_root(s, #[trigger] list[m]) {
        assert forall|m: int| 0 <= m < rest.len() implies is_root(s, #[trigger] rest[m]) by {
            assert(rest[m] == list[m]);
        }
    } else {
        let p = choose|p: int| #[trigger] under_one(s, list, p);
        assert forall|m: int| 0 <= m < rest.len() implies !is_root(s, #[trigger] rest[m])
            && parent(s, rest[m]) == Some(p) by {
            assert(rest[m] == list[m]);
        }
        assert(under_one(s, rest, p));
    }
    assert(rest.no_duplicates());
}

/// The positions of placed sessions.
pub open spec fn positions(list: Seq<Placed>) -> Seq<int> {
    Seq::new(list.len(), |i: int| list[i].index)
}

proof fn lemma_tree_distinct(s: Seq<SessionSummary>, r: int, d: nat)
    requires
        0 <= r < s.len(),
    ensures
        positions(tree(s, r, d)).no_duplicates(),
    decreases s.len() - d, 0nat,
{
    let list = kids(s, r);
    lemma_kids_are_siblings(s, r);
    if d < s.len() {
        lemma_forest_distinct(s, list, d + 1);
        let t = tree(s, r, d);
        let inner = forest(s, list, d + 1);
        assert forall|i: int, j: int| 0 <= i < j < t.len() implies positions(t)[i] != positions(
            t,
        )[j] by {
            assert(t[j] == inner[j - 1]);
            if i == 0 {
                let m = lemma_forest_members(s, list, d + 1, j - 1);
                let k = (t[j].depth - d - 1) as nat;
                if t[j].index == r {
                    assert(list.contains(list[m]));
                    lemma_climb_add(s, r, k, 1);
                    reveal_with_fuel(climb, 2);
                    assert(climb(s, r, k + 1) == Some(r));
                    assert(on_cycle(s, r));
                    if k > 0 {
                        assert(climb(s, r, 0) is Some && !is_root(s, climb(s, r, 0)->0));
                    } else {
                        assert(list[m] == r);
                    }
                }
            } else {
                assert(t[i] == inner[i - 1]);
                assert(positions(inner)[i - 1] != positions(inner)[j - 1]);
            }
        }
    }
}

proof fn lemma_forest_distinct(s: Seq<SessionSummary>, list: Seq<int>, d: nat)
    requires
        siblings(s, list),
    ensures
        positions(forest(s, list, d)).no_duplicates(),
    decreases s.len() - d, list.len() + 1,
{
    if list.len() > 0 {
        let rest = list.drop_last();
        lemma_siblings_rest(s, list);
        lemma_forest_distinct(s, rest, d);
        lemma_tree_distinct(s, list.last(), d);
        let a = forest(s, rest, d);
        let b = tree(s, list.last(), d);
        let f = forest(s, list, d);
        assert forall|i: int, j: int| 0 <= i < j < f.len() implies positions(f)[i] != positions(
            f,
        )[j] by {
            if j < a.len() {
                assert(f[i] == a[i] && f[j] == a[j]);
                assert(positions(a)[i] != positions(a)[j]);
            } else if i >= a.len() {
                assert(f[i] == b[i - a.len()] && f[j] == b[j - a.len()]);
                assert(positions(b)[i - a.len()] != positions(b)[j - a.len()]);
            } else {
                assert(f[i] == a[i] && f[j] == b[j - a.len()]);
                let m = lemma_forest_members(s, rest, d, i);
                lemma_tree_members(s, list.last(), d, j - a.len());
                assert(rest[m] == list[m]);
                if f[i].index == f[j].index {
                    let k = (f[i].depth - d) as nat;
                    let l = (f[j].depth - d) as nat;
                    if k <= l {
                        lemma_siblings_apart(s, list, m, list.len() - 1, f[i].index, k, l);
                    } else {
                        lemma_siblings_apart(s, list, list.len() - 1, m, f[i].index, l, k);
                    }
                }
            }
        }
    }
}

/// The way up from every session reaches the top.
proof fn lemma_level(s: Seq<SessionSummary>, i: int, k: nat) -> (r: nat)
    requires
        0 <= i < s.len(),
        k <= s.len(),
        climb(s, i, k) is Some,
        forall|j: nat|
            j < k ==> (#[trigger] climb(s, i, j)) is Some && !is_root(s, climb(s, i, j)->0),
    ensures
        r < s.len(),
        climb(s, i, r) is Some,
        is_root(s, climb(s, i, r)->0),
        below(s, i, climb(s, i, r)->0, r),
    decreases s.len() - k,
{
    let n = s.len();
    if k == n {
        let (a, b) = lemma_pigeonhole(s, i);
        lemma_met_twice(s, i, a, b);
        assert(!is_root(s, climb(s, i, a)->0));
        0
    } else if is_root(s, climb(s, i, k)->0) {
        k
    } else {
        lemma_climb_add(s, i, k, 1);
        reveal_with_fuel(climb, 2);
        lemma_level(s, i, k + 1)
    }
}

proof fn lemma_forest_contains(s: Seq<SessionSummary>, list: Seq<int>, d: nat, m: int, q: Placed)
    requires
        0 <= m < list.len(),
        tree(s, list[m], d).contains(q),
    ensures
        forest(s, list, d).contains(q),
    decreases list.len(),
{
    let rest = list.drop_last();
    let a = forest(s, rest, d);
    let b = tree(s, list.last(), d);
    if m < rest.len() {
        assert(rest[m] == list[m]);
        lemma_forest_contains(s, rest, d, m, q);
        let j = choose|j: int| 0 <= j < a.len() && a[j] == q;
        assert(forest(s, list, d)[j] == q);
    } else {
        let j = choose|j: int| 0 <= j < b.len() && b[j] == q;
        assert(forest(s, list, d)[a.len() + j] == q);
    }
}

proof fn lemma_tree_contains(s: Seq<SessionSummary>, i: int, r: int, k: nat, d: nat)
    requires
        0 <= i < s.len(),
        below(s, i, r, k),
        d + k < s.len(),
    ensures
        tree(s, r, d).contains(Placed { index: i, depth: d + k }),
    decreases k,
{
    let q = Placed { index: i, depth: d + k };
    if k == 0 {
        assert(tree(s, r, d)[0] == q);
    } else {
        let c = climb(s, i, (k - 1) as nat)->0;
        assert(climb(s, i, (k - 1) as nat) is Some && !is_root(s, c));
        lemma_climb_add(s, i, (k - 1) as nat, 1);
        reveal_with_fuel(climb, 2);
        lemma_climb_range(s, i, (k - 1) as nat);
        assert(parent(s, c) == Some(r));
        assert(below(s, i, c, (k - 1) as nat));
        lemma_tree_contains(s, i, c, (k - 1) as nat, d + 1);
        lemma_kids_are_siblings(s, r);
        let list = kids(s, r);
        assert(list.contains(c));
        let m = choose|m: int| 0 <= m < list.len() && list[m] == c;
        lemma_forest_contains(s, list, d + 1, m, q);
        let inner = forest(s, list, d + 1);
        let j = choose|j: int| 0 <= j < inner.len() && inner[j] == q;
        assert(tree(s, r, d)[j + 1] == q);
    }
}

/// Arranging keeps every session, and lists none twice.
pub proof fn arranging_lists_every_session_once(s: Seq<SessionSummary>)
    ensures
        arranged(s).len() == s.len(),
        positions(arranged(s)).no_duplicates(),
        forall|i: int| 0 <= i < s.len() ==> positions(arranged(s)).contains(i),
        forall|j: int| 0 <= j < arranged(s).len() ==> 0 <= (#[trigger] arranged(s)[j]).index < s.len(),
{
    let out = arranged(s);
    lemma_roots_are_siblings(s);
    lemma_forest_distinct(s, roots(s), 0);
    assert forall|i: int| 0 <= i < s.len() implies positions(out).contains(i) by {
        let k = lemma_level(s, i, 0);
        let r = climb(s, i, k)->0;
        lemma_climb_range(s, i, k);
        lemma_tree_contains(s, i, r, k, 0);
        assert(roots(s).contains(r));
        let m = choose|m: int| 0 <= m < roots(s).len() && roots(s)[m] == r;
        let q = Placed { index: i, depth: k };
        lemma_forest_contains(s, roots(s), 0, m, q);
        let j = choose|j: int| 0 <= j < out.len() && out[j] == q;
        assert(positions(out)[j] == i);
    }
    assert forall|j: int| 0 <= j < out.len() implies 0 <= (#[trigger] out[j]).index < s.len() by {
        let m = lemma_forest_members(s, roots(s), 0, j);
    }
    positions(out).unique_seq_to_set();
    let all = vstd::set_lib::set_int_range(0, s.len() as int);
    vstd::set_lib::lemma_int_range(0, s.len() as int);
    assert(positions(out).to_set() =~= all) by {
        assert forall|x: int| positions(out).to_set().contains(x) <==> all.contains(x) by {
            if positions(out).contains(x) {
                let j = choose|j: int| 0 <= j < positions(out).len() && positions(out)[j] == x;
                assert(out[j].index == x);
            }
        }
    }
}

/// A session is placed as deep as there are steps from it to the top: the sessions on the way have
/// a listed parent and stand above none of themselves, the one at the end does not.
pub proof fn depth_counts_the_steps_to_the_top(s: Seq<SessionSummary>, j: int)
    requires
        0 <= j < arranged(s).len(),
    ensures
        ({
            let q = arranged(s)[j];
            &&& q.depth < s.len()
            &&& climb(s, q.index, q.depth) is Some
            &&& is_root(s, climb(s, q.index, q.depth)->0)
            &&& below(s, q.index, climb(s, q.index, q.depth)->0, q.depth)
        }),
{
    lemma_roots_are_siblings(s);
    let m = lemma_forest_members(s, roots(s), 0, j);
    assert(roots(s).contains(roots(s)[m]));
}

/// Sessions at the top, and sessions under one session, stand newest first.
pub proof fn siblings_stand_newest_first(s: Seq<SessionSummary>, p: int)
    ensures
        sort::in_order(ages(s), roots(s)),
        sort::in_order(ages(s), kids(s, p)),
        forall|c: int| #[trigger] roots(s).contains(c) <==> 0 <= c < s.len() && is_root(s, c),
        forall|c: int|
            kids(s, p).contains(c) <==> 0 <= c < s.len() && !is_root(s, c) && parent(s, c) == Some(
                p,
            ),
{
    sort::lemma_sort_in_order(ages(s), root_list(s, s.len()));
    sort::lemma_sort_in_order(ages(s), kid_list(s, p, s.len()));
    lemma_roots_are_siblings(s);
    lemma_kids_are_siblings(s, p);
}

/// Whether session `x` stands somewhere under session `r`.
pub open spec fn descends(s: Seq<SessionSummary>, x: int, r: int) -> bool {
    exists|k: nat| k > 0 && #[trigger] below(s, x, r, k)
}

/// What stands from place `j` on in a tree begins with the whole tree of what stands there.
proof fn lemma_tree_span(s: Seq<SessionSummary>, r: int, d: nat, j: int)
    requires
        0 <= j < tree(s, r, d).len(),
    ensures
        ({
            let q = tree(s, r, d)[j];
            let n = tree(s, q.index, q.depth).len();
            &&& j + n <= tree(s, r, d).len()
            &&& tree(s, r, d).subrange(j, j + n as int) == tree(s, q.index, q.depth)
        }),
    decreases s.len() - d, 0nat,
{
    let all = tree(s, r, d);
    if j == 0 {
        assert(all.subrange(0, all.len() as int) == all);
    } else {
        let inner = forest(s, kids(s, r), d + 1);
        lemma_forest_span(s, kids(s, r), d + 1, j - 1);
        let q = inner[j - 1];
        let n = tree(s, q.index, q.depth).len() as int;
        assert(all[j] == q);
        assert(all.subrange(j, j + n) == inner.subrange(j - 1, j - 1 + n));
    }
}

proof fn lemma_forest_span(s: Seq<SessionSummary>, list: Seq<int>, d: nat, j: int)
    requires
        0 <= j < forest(s, list, d).len(),
    ensures
        ({
            let q = forest(s, list, d)[j];
            let n = tree(s, q.index, q.depth).len();
            &&& j + n <= forest(s, list, d).len()
            &&& forest(s, list, d).subrange(j, j + n as int) == tree(s, q.index, q.depth)
        }),
    decreases s.len() - d, list.len() + 1,
{
    let all = forest(s, list, d);
    let a = forest(s, list.drop_last(), d);
    let b = tree(s, list.last(), d);
    let q = all[j];
    let n = tree(s, q.index, q.depth).len() as int;
    if j < a.len() {
        lemma_forest_span(s, list.drop_last(), d, j);
        assert(q == a[j]);
        assert(all.subrange(j, j + n) == a.subrange(j, j + n));
    } else {
        let i = j - a.len();
        lemma_tree_span(s, list.last(), d, i);
        assert(q == b[i]);
        assert(all.subrange(j, j + n) == b.subrange(i, i + n));
    }
}

/// A way up that passes nothing at the top is shorter than the list.
proof fn lemma_way_is_short(s: Seq<SessionSummary>, x: int, r: int, k: nat)
    requires
        0 <= x < s.len(),
        below(s, x, r, k),
    ensures
        k < s.len(),
{
    if k >= s.len() {
        lemma_climb_some_below(s, x, s.len(), k);
        let (a, b) = lemma_pigeonhole(s, x);
        lemma_met_twice(s, x, a, b);
        assert(!is_root(s, climb(s, x, a)->0));
    }
}

proof fn lemma_below_add(s: Seq<SessionSummary>, x: int, r: int, top: int, k: nat, d: nat)
    requires
        below(s, x, r, k),
        below(s, r, top, d),
    ensures
        below(s, x, top, k + d),
{
    lemma_climb_add(s, x, k, d);
    assert forall|j: nat| j < k + d implies (#[trigger] climb(s, x, j)) is Some && !is_root(
        s,
        climb(s, x, j)->0,
    ) by {
        if j >= k {
            lemma_climb_add(s, x, k, (j - k) as nat);
            assert(climb(s, r, (j - k) as nat) is Some);
        }
    }
}

/// Each session is directly followed by the sessions that stand under it, and by no others, as many
/// as it is said to have.
pub proof fn descendants_follow_their_session(s: Seq<SessionSummary>, j: int)
    requires
        s.len() <= usize::MAX,
        0 <= j < s.len(),
    ensures
        ({
            let places = arranged(s);
            let n = summaries_at(s, places)[j].descendant_count;
            &&& places.len() == s.len()
            &&& j + n < places.len()
            &&& forall|x: int|
                0 <= x < s.len() ==> (#[trigger] descends(s, x, places[j].index)
                    <==> positions(places).subrange(j + 1, j + 1 + n).contains(x))
        }),
{
    let places = arranged(s);
    arranging_lists_every_session_once(s);
    lemma_forest_span(s, roots(s), 0, j);
    depth_counts_the_steps_to_the_top(s, j);
    let q = places[j];
    let all = tree(s, q.index, q.depth);
    let n = all.len() - 1;
    assert(all.len() > 0);
    assert(places.subrange(j, j + all.len()) == all);
    assert(summaries_at(s, places)[j] == summary_at(s, q));
    let following = positions(places).subrange(j + 1, j + 1 + n);
    assert forall|i: int| 0 <= i < n implies #[trigger] following[i] == all[i + 1].index by {
        assert(places.subrange(j, j + all.len())[i + 1] == places[j + i + 1]);
    }
    assert forall|x: int| 0 <= x < s.len() implies (#[trigger] descends(s, x, q.index)
        <==> following.contains(x)) by {
        if descends(s, x, q.index) {
            let k = choose|k: nat| k > 0 && #[trigger] below(s, x, q.index, k);
            lemma_below_add(s, x, q.index, climb(s, q.index, q.depth)->0, k, q.depth);
            lemma_way_is_short(s, x, climb(s, q.index, q.depth)->0, k + q.depth);
            lemma_tree_contains(s, x, q.index, k, q.depth);
            let p = Placed { index: x, depth: q.depth + k };
            let i = choose|i: int| 0 <= i < all.len() && all[i] == p;
            assert(all[0].depth == q.depth);
            assert(following[i - 1] == x);
        }
        if following.contains(x) {
            let i = choose|i: int| 0 <= i < following.len() && following[i] == x;
            lemma_tree_members(s, q.index, q.depth, i + 1);
            let p = all[i + 1];
            lemma_kids_are_siblings(s, q.index);
            let m = lemma_forest_members(s, kids(s, q.index), q.depth + 1, i);
            assert(p == forest(s, kids(s, q.index), q.depth + 1)[i]);
            assert(below(s, x, q.index, (p.depth - q.depth) as nat));
        }
    }
}

// ---------------------------------------------------------------------------
// Arranging once more

/// Whether no two sessions have one id.
pub open spec fn distinct_ids(s: Seq<SessionSummary>) -> bool {
    forall|i: int, j: int|
        0 <= i < j < s.len() ==> (#[trigger] s[i]).id != (#[trigger] s[j]).id
}

/// Whether `t` lists the sessions of `s` in the order of `pi`.
spec fn moved(s: Seq<SessionSummary>, t: Seq<SessionSummary>, pi: Seq<int>) -> bool {
    &&& pi.len() == s.len()
    &&& t.len() == s.len()
    &&& distinct_ids(s)
    &&& pi.no_duplicates()
    &&& forall|i: int| 0 <= i < s.len() ==> pi.contains(i)
    &&& forall|j: int|
        0 <= j < t.len() ==> {
            &&& 0 <= #[trigger] pi[j] < s.len()
            &&& t[j].id == s[pi[j]].id
            &&& t[j].parent_session_id == s[pi[j]].parent_session_id
            &&& t[j].created_at == s[pi[j]].created_at
        }
}

spec fn carried(pi: Seq<int>, list: Seq<int>) -> Seq<int> {
    Seq::new(list.len(), |i: int| pi[list[i]])
}

spec fn carried_places(pi: Seq<int>, list: Seq<Placed>) -> Seq<Placed> {
    Seq::new(list.len(), |i: int| Placed { index: pi[list[i].index], depth: list[i].depth })
}

spec fn carried_place(pi: Seq<int>, place: Option<int>) -> Option<int> {
    match place {
        Some(p) => Some(pi[p]),
        None => None,
    }
}

proof fn lemma_owner_of(s: Seq<SessionSummary>, id: u128, n: nat, i: int)
    requires
        distinct_ids(s),
        n <= s.len(),
        0 <= i < n,
        s[i].id == id,
    ensures
        owner(s, id, n) == Some(i),
    decreases n,
{
    if i < n - 1 {
        assert(s[i].id != s[n - 1].id);
        lemma_owner_of(s, id, (n - 1) as nat, i);
    }
}

proof fn lemma_moved_ids(s: Seq<SessionSummary>, t: Seq<SessionSummary>, pi: Seq<int>)
    requires
        moved(s, t, pi),
    ensures
        distinct_ids(t),
{
    assert forall|i: int, j: int| 0 <= i < j < t.len() implies (#[trigger] t[i]).id != (
    #[trigger] t[j]).id by {
        assert(pi[i] != pi[j]);
        if pi[i] < pi[j] {
            assert(s[pi[i]].id != s[pi[j]].id);
        } else {
            assert(s[pi[j]].id != s[pi[i]].id);
        }
    }
}

proof fn lemma_moved_parent(s: Seq<SessionSummary>, t: Seq<SessionSummary>, pi: Seq<int>, j: int)
    requires
        moved(s, t, pi),
        0 <= j < t.len(),
    ensures
        parent(s, pi[j]) == carried_place(pi, parent(t, j)),
{
    lemma_moved_ids(s, t, pi);
    assert(t[j].parent_session_id == s[pi[j]].parent_session_id);
    if let Some(id) = t[j].parent_session_id {
        lemma_owner(s, id, s.len());
        lemma_owner(t, id, t.len());
        if let Some(i) = owner(s, id, s.len()) {
            assert(pi.contains(i));
            let k = choose|k: int| 0 <= k < pi.len() && pi[k] == i;
            assert(t[k].id == id);
            lemma_owner_of(t, id, t.len(), k);
        } else if let Some(k) = owner(t, id, t.len()) {
            assert(s[pi[k]].id == id);
            lemma_owner_of(s, id, s.len(), pi[k]);
        }
    }
}

proof fn lemma_moved_climb(
    s: Seq<SessionSummary>,
    t: Seq<SessionSummary>,
    pi: Seq<int>,
    j: int,
    k: nat,
)
    requires
        moved(s, t, pi),
        0 <= j < t.len(),
    ensures
        climb(s, pi[j], k) == carried_place(pi, climb(t, j, k)),
    decreases k,
{
    if k > 0 {
        lemma_moved_parent(s, t, pi, j);
        lemma_parent(t, j);
        if let Some(p) = parent(t, j) {
            lemma_moved_climb(s, t, pi, p, (k - 1) as nat);
        }
    }
}

proof fn lemma_moved_root(s: Seq<SessionSummary>, t: Seq<SessionSummary>, pi: Seq<int>, j: int)
    requires
        moved(s, t, pi),
        0 <= j < t.len(),
    ensures
        is_root(s, pi[j]) == is_root(t, j),
{
    lemma_moved_parent(s, t, pi, j);
    if on_cycle(t, j) {
        let k = choose|k: nat| k > 0 && #[trigger] climb(t, j, k) == Some(j);
        lemma_moved_climb(s, t, pi, j, k);
        assert(climb(s, pi[j], k) == Some(pi[j]));
    }
    if on_cycle(s, pi[j]) {
        let k = choose|k: nat| k > 0 && #[trigger] climb(s, pi[j], k) == Some(pi[j]);
        lemma_moved_climb(s, t, pi, j, k);
        lemma_climb_range(t, j, k);
        assert(climb(t, j, k) == Some(j));
    }
}

/// There is one order by age.
proof fn lemma_one_order(s: Seq<SessionSummary>, a: Seq<int>, b: Seq<int>)
    requires
        distinct_ids(s),
        a.no_duplicates(),
        b.no_duplicates(),
        sort::in_order(ages(s), a),
        sort::in_order(ages(s), b),
        forall|c: int| #[trigger] a.contains(c) ==> 0 <= c < s.len(),
        forall|c: int| #[trigger] a.contains(c) == b.contains(c),
    ensures
        a == b,
    decreases a.len(),
{
    if a.len() == 0 {
        if b.len() > 0 {
            assert(b.contains(b[0]));
            assert(a.contains(b[0]));
        }
        assert(a == b);
    } else {
        let x = a.last();
        assert(a.contains(x));
        assert(b.contains(x));
        let y = b.last();
        assert(b.contains(y));
        assert(a.contains(y));
        if x != y {
            let i = choose|i: int| 0 <= i < a.len() && a[i] == y;
            let j = choose|j: int| 0 <= j < b.len() && b[j] == x;
            assert(!ages(s)[a[a.len() - 1]].before(ages(s)[a[i]]));
            assert(!ages(s)[b[b.len() - 1]].before(ages(s)[b[j]]));
            if x < y {
                assert(s[x].id != s[y].id);
            } else {
                assert(s[y].id != s[x].id);
            }
        }
        let c = a.drop_last();
        let d = b.drop_last();
        assert forall|z: int| #[trigger] c.contains(z) == d.contains(z) by {
            if c.contains(z) {
                let i = choose|i: int| 0 <= i < c.len() && c[i] == z;
                assert(a[i] == z && a[i] != a[a.len() - 1]);
                assert(a.contains(z));
                let j = choose|j: int| 0 <= j < b.len() && b[j] == z;
                assert(d[j] == z);
            }
            if d.contains(z) {
                let j = choose|j: int| 0 <= j < d.len() && d[j] == z;
                assert(b[j] == z && b[j] != b[b.len() - 1]);
                assert(b.contains(z));
                assert(a.contains(z));
                let i = choose|i: int| 0 <= i < a.len() && a[i] == z;
                assert(c[i] == z);
            }
        }
        assert forall|z: int| #[trigger] c.contains(z) implies 0 <= z < s.len() by {
            let i = choose|i: int| 0 <= i < c.len() && c[i] == z;
            assert(a[i] == z);
            assert(a.contains(z));
        }
        assert(sort::in_order(ages(s), c)) by {
            assert forall|i: int, j: int| 0 <= i < j < c.len() implies !(
            #[trigger] ages(s)[c[j]]).before(#[trigger] ages(s)[c[i]]) by {
                assert(!ages(s)[a[j]].before(ages(s)[a[i]]));
            }
        }
        assert(sort::in_order(ages(s), d)) by {
            assert forall|i: int, j: int| 0 <= i < j < d.len() implies !(
            #[trigger] ages(s)[d[j]]).before(#[trigger] ages(s)[d[i]]) by {
                assert(!ages(s)[b[j]].before(ages(s)[b[i]]));
            }
        }
        lemma_one_order(s, c, d);
        assert(a == c.push(x));
        assert(b == d.push(y));
    }
}

/// A list in order stays so where its sessions are listed otherwise.
proof fn lemma_moved_order(
    s: Seq<SessionSummary>,
    t: Seq<SessionSummary>,
    pi: Seq<int>,
    list: Seq<int>,
    other: Seq<int>,
)
    requires
        moved(s, t, pi),
        list.no_duplicates(),
        other.no_duplicates(),
        sort::in_order(ages(t), list),
        sort::in_order(ages(s), other),
        forall|j: int| #[trigger] list.contains(j) ==> 0 <= j < t.len(),
        forall|c: int| #[trigger] other.contains(c) ==> 0 <= c < s.len(),
        forall|j: int|
            0 <= j < t.len() ==> #[trigger] list.contains(j) == other.contains(pi[j]),
    ensures
        carried(pi, list) == other,
{
    let out = carried(pi, list);
    assert forall|i: int| 0 <= i < list.len() implies 0 <= #[trigger] list[i] < t.len() by {
        assert(list.contains(list[i]));
    }
    assert forall|i: int, j: int| 0 <= i < j < out.len() implies !(
    #[trigger] ages(s)[out[j]]).before(#[trigger] ages(s)[out[i]]) by {
        assert(ages(s)[pi[list[i]]] == ages(t)[list[i]]);
        assert(ages(s)[pi[list[j]]] == ages(t)[list[j]]);
        assert(!ages(t)[list[j]].before(ages(t)[list[i]]));
    }
    assert forall|c: int| #[trigger] out.contains(c) == other.contains(c) by {
        if out.contains(c) {
            let i = choose|i: int| 0 <= i < out.len() && out[i] == c;
            assert(list.contains(list[i]));
        }
        if other.contains(c) {
            assert(pi.contains(c));
            let j = choose|j: int| 0 <= j < pi.len() && pi[j] == c;
            assert(list.contains(j));
            let i = choose|i: int| 0 <= i < list.len() && list[i] == j;
            assert(out[i] == c);
        }
    }
    assert(out.no_duplicates()) by {
        assert forall|i: int, j: int| 0 <= i < j < out.len() implies out[i] != out[j] by {
            assert(list[i] != list[j]);
        }
    }
    lemma_one_order(s, out, other);
}

proof fn lemma_moved_kids(s: Seq<SessionSummary>, t: Seq<SessionSummary>, pi: Seq<int>, p: int)
    requires
        moved(s, t, pi),
        0 <= p < t.len(),
    ensures
        carried(pi, kids(t, p)) == kids(s, pi[p]),
{
    siblings_stand_newest_first(t, p);
    siblings_stand_newest_first(s, pi[p]);
    lemma_kids_are_siblings(t, p);
    lemma_kids_are_siblings(s, pi[p]);
    assert forall|j: int| 0 <= j < t.len() implies #[trigger] kids(t, p).contains(j) == kids(
        s,
        pi[p],
    ).contains(pi[j]) by {
        lemma_moved_root(s, t, pi, j);
        lemma_moved_parent(s, t, pi, j);
        lemma_parent(t, j);
    }
    lemma_moved_order(s, t, pi, kids(t, p), kids(s, pi[p]));
}

proof fn lemma_moved_roots(s: Seq<SessionSummary>, t: Seq<SessionSummary>, pi: Seq<int>)
    requires
        moved(s, t, pi),
    ensures
        carried(pi, roots(t)) == roots(s),
{
    siblings_stand_newest_first(t, 0);
    siblings_stand_newest_first(s, 0);
    lemma_roots_are_siblings(t);
    lemma_roots_are_siblings(s);
    assert forall|j: int| 0 <= j < t.len() implies #[trigger] roots(t).contains(j) == roots(
        s,
    ).contains(pi[j]) by {
        lemma_moved_root(s, t, pi, j);
    }
    lemma_moved_order(s, t, pi, roots(t), roots(s));
}

proof fn lemma_moved_tree(
    s: Seq<SessionSummary>,
    t: Seq<SessionSummary>,
    pi: Seq<int>,
    j: int,
    d: nat,
)
    requires
        moved(s, t, pi),
        0 <= j < t.len(),
    ensures
        carried_places(pi, tree(t, j, d)) == tree(s, pi[j], d),
    decreases t.len() - d, 0nat,
{
    if d < t.len() {
        lemma_moved_kids(s, t, pi, j);
        lemma_kids_are_siblings(t, j);
        lemma_moved_forest(s, t, pi, kids(t, j), d + 1);
        let inner = forest(t, kids(t, j), d + 1);
        let top = Placed { index: j, depth: d };
        assert(tree(t, j, d) == seq![top] + inner);
        assert(carried_places(pi, seq![top] + inner) == seq![
            Placed { index: pi[j], depth: d },
        ] + carried_places(pi, inner));
    } else {
        assert(carried_places(pi, tree(t, j, d)) == tree(s, pi[j], d));
    }
}

proof fn lemma_moved_forest(
    s: Seq<SessionSummary>,
    t: Seq<SessionSummary>,
    pi: Seq<int>,
    list: Seq<int>,
    d: nat,
)
    requires
        moved(s, t, pi),
        forall|m: int| 0 <= m < list.len() ==> 0 <= #[trigger] list[m] < t.len(),
    ensures
        carried_places(pi, forest(t, list, d)) == forest(s, carried(pi, list), d),
    decreases t.len() - d, list.len() + 1,
{
    let out = carried(pi, list);
    if list.len() == 0 {
        assert(carried_places(pi, forest(t, list, d)) == forest(s, out, d));
    } else {
        let rest = list.drop_last();
        assert forall|m: int| 0 <= m < rest.len() implies 0 <= #[trigger] rest[m] < t.len() by {
            assert(rest[m] == list[m]);
        }
        lemma_moved_forest(s, t, pi, rest, d);
        lemma_moved_tree(s, t, pi, list.last(), d);
        assert(out.drop_last() == carried(pi, rest));
        assert(out.last() == pi[list.last()]);
        let a = forest(t, rest, d);
        let b = tree(t, list.last(), d);
        assert(carried_places(pi, a + b) == carried_places(pi, a) + carried_places(pi, b));
    }
}

/// Sessions that are arranged stay as they are when they are arranged once more.
pub proof fn arranging_twice_changes_nothing(s: Seq<SessionSummary>)
    requires
        distinct_ids(s),
    ensures
        ({
            let once = summaries_at(s, arranged(s));
            summaries_at(once, arranged(once)) == once
        }),
{
    let places = arranged(s);
    let once = summaries_at(s, places);
    let pi = positions(places);
    arranging_lists_every_session_once(s);
    assert forall|j: int| 0 <= j < once.len() implies {
        &&& 0 <= #[trigger] pi[j] < s.len()
        &&& once[j].id == s[pi[j]].id
        &&& once[j].parent_session_id == s[pi[j]].parent_session_id
        &&& once[j].created_at == s[pi[j]].created_at
    } by {
        assert(pi[j] == places[j].index);
        assert(once[j] == summary_at(s, places[j]));
    }
    assert(moved(s, once, pi));
    lemma_moved_roots(s, once, pi);
    lemma_roots_are_siblings(once);
    lemma_moved_forest(s, once, pi, roots(once), 0);
    let again = arranged(once);
    arranging_lists_every_session_once(once);
    assert(carried_places(pi, again) == places);
    let twice = summaries_at(once, again);
    assert forall|j: int| 0 <= j < once.len() implies #[trigger] twice[j] == once[j] by {
        assert(carried_places(pi, again)[j] == places[j]);
        assert(pi[again[j].index] == pi[j]);
        assert(again[j].index == j);
        assert(again[j].depth == places[j].depth);
        lemma_moved_tree(s, once, pi, j, places[j].depth);
        assert(carried_places(pi, tree(once, j, places[j].depth)).len() == tree(
            once,
            j,
            places[j].depth,
        ).len());
        assert(once[j] == summary_at(s, places[j]));
        assert(twice[j] == summary_at(once, again[j]));
    }
    assert(twice == once);
}

// ---------------------------------------------------------------------------
// What the places mean
/// A session stands under the one whose id it names, and under none where nobody has that id.
pub proof fn a_session_stands_under_the_one_it_names(s: Seq<SessionSummary>, i: int, p: int)
    requires
        distinct_ids(s),
        0 <= i < s.len(),
        0 <= p < s.len(),
    ensures
        parent(s, i) == Some(p) <==> s[i].parent_session_id == Some(s[p].id),
        s[i].parent_session_id is None ==> parent(s, i) is None,
        parent(s, i) matches Some(q) ==> 0 <= q < s.len() && s[i].parent_session_id == Some(
            s[q].id,
        ),
{
    if let Some(id) = s[i].parent_session_id {
        lemma_owner(s, id, s.len());
        if id == s[p].id {
            lemma_owner_of(s, id, s.len(), p);
        }
    }
}

/// Of two sessions at the top, or under one session, the one made later stands first.
pub proof fn the_newer_session_stands_first(s: Seq<SessionSummary>, p: int, i: int, j: int)
    requires
        0 <= i < j,
    ensures
        j < roots(s).len() ==> s[roots(s)[i]].created_at >= s[roots(s)[j]].created_at,
        j < kids(s, p).len() ==> s[kids(s, p)[i]].created_at >= s[kids(s, p)[j]].created_at,
{
    siblings_stand_newest_first(s, p);
    let keys = ages(s);
    if j < roots(s).len() {
        assert(roots(s).contains(roots(s)[i]) && roots(s).contains(roots(s)[j]));
        assert(!keys[roots(s)[j]].before(keys[roots(s)[i]]));
    }
    if j < kids(s, p).len() {
        let list = kids(s, p);
        lemma_kids_are_siblings(s, p);
        assert(list.contains(list[i]) && list.contains(list[j]));
        assert(0 <= list[i] < s.len() && 0 <= list[j] < s.len());
        assert(!keys[kids(s, p)[j]].before(keys[kids(s, p)[i]]));
    }
}

/// Arranging changes nothing of a session but its depth and the number of sessions under it.
pub proof fn arranging_keeps_what_sessions_say(s: Seq<SessionSummary>, j: int)
    requires
        s.len() <= usize::MAX,
        0 <= j < s.len(),
    ensures
        ({
            let now = summaries_at(s, arranged(s));
            let place = arranged(s)[j];
            let was = s[place.index];
            &&& now.len() == s.len()
            &&& now[j].id == was.id
            &&& now[j].parent_session_id == was.parent_session_id
            &&& now[j].scheduled_run == was.scheduled_run
            &&& now[j].created_at == was.created_at
            &&& now[j].updated_at == was.updated_at
            &&& now[j].title == was.title
            &&& now[j].model == was.model
            &&& now[j].depth == place.depth
        }),
{
    arranging_lists_every_session_once(s);
    depth_counts_the_steps_to_the_top(s, j);
}

} // verus!
