//! The conversation tree: every message ever sent, and the path of those that are active.
use crate::ids;
use crate::message;
use crate::message::{Message, MessageView};
use crate::text;
use std::collections::{HashMap, HashSet};
use vstd::prelude::*;

verus! {

broadcast use vstd::std_specs::hash::group_hash_axioms;

/// A message with its place in the tree.
#[derive(Debug)]
pub struct ConversationNode {
    pub id: u128,
    pub parent_id: Option<u128>,
    pub message: Message,
}

/// A node of the graph of what the user wrote.
#[derive(Clone, Copy, Debug, PartialEq, Eq, Structural)]
pub struct ConversationGraphNode {
    pub id: u128,
    pub parent_id: Option<u128>,
}

/// What a node says.
#[verifier::ext_equal]
pub struct NodeView {
    pub id: u128,
    pub parent_id: Option<u128>,
    pub message: MessageView,
}

impl View for ConversationNode {
    type V = NodeView;

    open spec fn view(&self) -> NodeView {
        NodeView { id: self.id, parent_id: self.parent_id, message: self.message@ }
    }
}

/// What a list of nodes says.
pub open spec fn node_views(nodes: Seq<ConversationNode>) -> Seq<NodeView> {
    Seq::new(nodes.len(), |i: int| nodes[i]@)
}

/// Why a list of nodes with an active leaf is not a conversation tree.
#[derive(Clone, Copy, Debug, PartialEq, Eq, Structural)]
pub enum TreeError {
    DuplicateId(u128),
    MissingParent { node: u128, parent: u128 },
    Cycle(u128),
    EmptyWithLeaf,
    NoActiveLeaf,
    NotALeaf(u128),
    MissingLeaf(u128),
}

impl TreeError {
    /// What a person is told.
    pub open spec fn text(self) -> Seq<char> {
        match self {
            TreeError::DuplicateId(id) => "duplicate conversation node id "@ + ids::id_view(id),
            TreeError::MissingParent { node, parent } => "conversation node "@ + ids::id_view(node)
                + " references missing parent "@ + ids::id_view(parent),
            TreeError::Cycle(id) => "conversation tree contains a cycle at node "@ + ids::id_view(
                id,
            ),
            TreeError::EmptyWithLeaf => "empty conversation tree has an active leaf"@,
            TreeError::NoActiveLeaf => "non-empty conversation tree has no active leaf"@,
            TreeError::NotALeaf(id) => "active conversation node "@ + ids::id_view(id)
                + " is not a leaf"@,
            TreeError::MissingLeaf(id) => "active conversation leaf "@ + ids::id_view(id)
                + " does not exist"@,
        }
    }

    /// What a person is told.
    pub fn message(&self) -> (s: String)
        ensures
            s@ == self.text(),
    {
        match self {
            TreeError::DuplicateId(id) => text::cat2(
                "duplicate conversation node id ",
                &ids::id_text(*id),
            ),
            TreeError::MissingParent { node, parent } => text::cat4(
                "conversation node ",
                &ids::id_text(*node),
                " references missing parent ",
                &ids::id_text(*parent),
            ),
            TreeError::Cycle(id) => text::cat2(
                "conversation tree contains a cycle at node ",
                &ids::id_text(*id),
            ),
            TreeError::EmptyWithLeaf => "empty conversation tree has an active leaf".to_owned(),
            TreeError::NoActiveLeaf => "non-empty conversation tree has no active leaf".to_owned(),
            TreeError::NotALeaf(id) => text::cat3(
                "active conversation node ",
                &ids::id_text(*id),
                " is not a leaf",
            ),
            TreeError::MissingLeaf(id) => text::cat3(
                "active conversation leaf ",
                &ids::id_text(*id),
                " does not exist",
            ),
        }
    }
}

// ---------------------------------------------------------------------------
// The model: a list of nodes

/// The position of the first node called `id` at or after `from`; the length where there is none.
pub open spec fn find(nodes: Seq<NodeView>, id: u128, from: int) -> int
    decreases nodes.len() - from,
{
    if from >= nodes.len() {
        nodes.len() as int
    } else if nodes[from].id == id {
        from
    } else {
        find(nodes, id, from + 1)
    }
}

/// Whether a node is called `id`.
pub open spec fn holds(nodes: Seq<NodeView>, id: u128) -> bool {
    exists|i: int| 0 <= i < nodes.len() && (#[trigger] nodes[i]).id == id
}

/// Whether no two nodes have the same id.
pub open spec fn distinct(nodes: Seq<NodeView>) -> bool {
    forall|i: int, j: int|
        0 <= i < j < nodes.len() ==> (#[trigger] nodes[i]).id != (#[trigger] nodes[j]).id
}

/// Whether the parent of node `i` is a node too, where it has one.
pub open spec fn parent_present(nodes: Seq<NodeView>, i: int) -> bool {
    nodes[i].parent_id is Some ==> holds(nodes, nodes[i].parent_id->0)
}

/// Whether every parent is a node too.
pub open spec fn parents_present(nodes: Seq<NodeView>) -> bool {
    forall|i: int| 0 <= i < nodes.len() ==> #[trigger] parent_present(nodes, i)
}

/// The parent of the node called `id`.
pub open spec fn parent_of(nodes: Seq<NodeView>, id: u128) -> Option<u128> {
    if holds(nodes, id) {
        nodes[find(nodes, id, 0)].parent_id
    } else {
        None
    }
}

/// The ancestor `k` steps above `id`; `id` itself for no steps.
pub open spec fn up(nodes: Seq<NodeView>, id: u128, k: nat) -> Option<u128>
    decreases k,
{
    if k == 0 {
        Some(id)
    } else {
        match parent_of(nodes, id) {
            Some(p) => up(nodes, p, (k - 1) as nat),
            None => None,
        }
    }
}

/// Whether the way up from `id` ends.
pub open spec fn grounded(nodes: Seq<NodeView>, id: u128) -> bool {
    up(nodes, id, nodes.len()) is None
}

/// Whether no node is above itself: the way up from every node ends.
pub open spec fn acyclic(nodes: Seq<NodeView>) -> bool {
    forall|i: int| 0 <= i < nodes.len() ==> grounded(nodes, (#[trigger] nodes[i]).id)
}

/// Whether some node hangs below `id`.
pub open spec fn has_child(nodes: Seq<NodeView>, id: u128) -> bool {
    exists|i: int| 0 <= i < nodes.len() && (#[trigger] nodes[i]).parent_id == Some(id)
}

/// The id of the first node, from position `i` on, whose id an earlier node has.
pub open spec fn first_duplicate(nodes: Seq<NodeView>, i: int) -> u128
    decreases nodes.len() - i,
{
    if i >= nodes.len() {
        0
    } else if find(nodes, nodes[i].id, 0) < i {
        nodes[i].id
    } else {
        first_duplicate(nodes, i + 1)
    }
}

/// The position, from `i` on, of the first node without its parent.
pub open spec fn first_orphan(nodes: Seq<NodeView>, i: int) -> int
    decreases nodes.len() - i,
{
    if i >= nodes.len() || !parent_present(nodes, i) {
        i
    } else {
        first_orphan(nodes, i + 1)
    }
}

/// The position, from `i` on, of the first node whose way up does not end.
pub open spec fn first_ungrounded(nodes: Seq<NodeView>, i: int) -> int
    decreases nodes.len() - i,
{
    if i >= nodes.len() || !grounded(nodes, nodes[i].id) {
        i
    } else {
        first_ungrounded(nodes, i + 1)
    }
}

/// Whether the ancestor `k` steps above `id` was passed before.
pub open spec fn repeats(nodes: Seq<NodeView>, id: u128, k: nat) -> bool {
    up(nodes, id, k) is Some && exists|j: nat|
        j < k && #[trigger] up(nodes, id, j) == up(nodes, id, k)
}

/// The first node that is met a second time on the way up from `id`, from step `k` on.
pub open spec fn first_repeat(nodes: Seq<NodeView>, id: u128, k: nat) -> u128
    decreases nodes.len() - k,
{
    if k >= nodes.len() || repeats(nodes, id, k) {
        up(nodes, id, k)->0
    } else {
        first_repeat(nodes, id, k + 1)
    }
}

/// Why `nodes` with the active leaf `leaf` is not a conversation tree, where it is none.
pub open spec fn tree_error(nodes: Seq<NodeView>, leaf: Option<u128>) -> Option<TreeError> {
    if !distinct(nodes) {
        Some(TreeError::DuplicateId(first_duplicate(nodes, 0)))
    } else if !parents_present(nodes) {
        let i = first_orphan(nodes, 0);
        Some(
            TreeError::MissingParent { node: nodes[i].id, parent: nodes[i].parent_id->0 },
        )
    } else if !acyclic(nodes) {
        Some(TreeError::Cycle(first_repeat(nodes, nodes[first_ungrounded(nodes, 0)].id, 0)))
    } else if nodes.len() == 0 {
        if leaf is Some {
            Some(TreeError::EmptyWithLeaf)
        } else {
            None
        }
    } else {
        match leaf {
            None => Some(TreeError::NoActiveLeaf),
            Some(l) => if has_child(nodes, l) {
                Some(TreeError::NotALeaf(l))
            } else if !holds(nodes, l) {
                Some(TreeError::MissingLeaf(l))
            } else {
                None
            },
        }
    }
}

/// The ids from the root down to `id`, over at most `steps` nodes.
pub open spec fn path_to(nodes: Seq<NodeView>, id: u128, steps: nat) -> Seq<u128>
    decreases steps,
{
    if steps == 0 {
        Seq::empty()
    } else {
        match parent_of(nodes, id) {
            None => seq![id],
            Some(p) => path_to(nodes, p, (steps - 1) as nat).push(id),
        }
    }
}

/// The ids on the active path, root first.
pub open spec fn active_path(nodes: Seq<NodeView>, leaf: Option<u128>) -> Seq<u128> {
    match leaf {
        None => Seq::empty(),
        Some(l) => path_to(nodes, l, nodes.len()),
    }
}

/// What the nodes called `ids` say.
pub open spec fn messages_of(nodes: Seq<NodeView>, ids: Seq<u128>) -> Seq<MessageView> {
    Seq::new(ids.len(), |i: int| nodes[find(nodes, ids[i], 0)].message)
}

/// What a conversation tree holds.
#[verifier::ext_equal]
pub struct TreeView {
    pub nodes: Seq<NodeView>,
    pub leaf: Option<u128>,
    pub ids: Seq<u128>,
    pub messages: Seq<MessageView>,
}

impl TreeView {
    /// Whether this is a tree, with an active leaf unless it is empty, whose active path is known.
    pub open spec fn wf(self) -> bool {
        &&& tree_error(self.nodes, self.leaf) is None
        &&& self.ids == active_path(self.nodes, self.leaf)
        &&& self.messages == messages_of(self.nodes, self.ids)
    }

    /// The tree of `nodes` with the active leaf `leaf`.
    pub open spec fn of(nodes: Seq<NodeView>, leaf: Option<u128>) -> TreeView {
        let ids = active_path(nodes, leaf);
        TreeView { nodes, leaf, ids, messages: messages_of(nodes, ids) }
    }
}

// ---------------------------------------------------------------------------
// Facts about the model

proof fn lemma_find(nodes: Seq<NodeView>, id: u128, from: int)
    requires
        0 <= from <= nodes.len(),
    ensures
        from <= find(nodes, id, from) <= nodes.len(),
        find(nodes, id, from) < nodes.len() ==> nodes[find(nodes, id, from)].id == id,
        forall|j: int| from <= j < find(nodes, id, from) ==> (#[trigger] nodes[j]).id != id,
    decreases nodes.len() - from,
{
    if from < nodes.len() && nodes[from].id != id {
        lemma_find(nodes, id, from + 1);
    }
}

proof fn lemma_has(nodes: Seq<NodeView>, id: u128)
    ensures
        holds(nodes, id) == (find(nodes, id, 0) < nodes.len()),
        holds(nodes, id) ==> 0 <= find(nodes, id, 0) && nodes[find(nodes, id, 0)].id == id,
{
    lemma_find(nodes, id, 0);
}

proof fn lemma_find_distinct(nodes: Seq<NodeView>, i: int)
    requires
        distinct(nodes),
        0 <= i < nodes.len(),
    ensures
        find(nodes, nodes[i].id, 0) == i,
        holds(nodes, nodes[i].id),
{
    lemma_find(nodes, nodes[i].id, 0);
    assert(nodes[i].id == nodes[i].id);
    lemma_has(nodes, nodes[i].id);
    let j = find(nodes, nodes[i].id, 0);
    if j < i {
        assert(nodes[j].id != nodes[i].id);
    }
}

proof fn lemma_up_back(nodes: Seq<NodeView>, id: u128, k: nat)
    ensures
        up(nodes, id, k + 1) == (match up(nodes, id, k) {
            Some(a) => parent_of(nodes, a),
            None => None,
        }),
    decreases k,
{
    reveal_with_fuel(up, 2);
    if k > 0 {
        match parent_of(nodes, id) {
            Some(p) => lemma_up_back(nodes, p, (k - 1) as nat),
            None => {},
        }
    }
}

proof fn lemma_up_none(nodes: Seq<NodeView>, id: u128, k: nat, m: nat)
    requires
        k <= m,
        up(nodes, id, k) is None,
    ensures
        up(nodes, id, m) is None,
    decreases m,
{
    if k < m {
        lemma_up_none(nodes, id, k, (m - 1) as nat);
        lemma_up_back(nodes, id, (m - 1) as nat);
    }
}

proof fn lemma_up_add(nodes: Seq<NodeView>, id: u128, a: nat, b: nat)
    requires
        up(nodes, id, a) is Some,
    ensures
        up(nodes, id, a + b) == up(nodes, up(nodes, id, a)->0, b),
    decreases a,
{
    if a > 0 {
        lemma_up_add(nodes, parent_of(nodes, id)->0, (a - 1) as nat, b);
    }
}

/// A way up that meets a node twice never ends.
proof fn lemma_repeat_never_ends(nodes: Seq<NodeView>, id: u128, j: nat, k: nat, m: nat)
    requires
        j < k,
        up(nodes, id, k) is Some,
        up(nodes, id, j) == up(nodes, id, k),
    ensures
        up(nodes, id, m) is Some,
    decreases m,
{
    if m <= k {
        if up(nodes, id, m) is None {
            lemma_up_none(nodes, id, m, k);
        }
    } else {
        let shorter = (m - (k - j)) as nat;
        lemma_repeat_never_ends(nodes, id, j, k, shorter);
        lemma_up_add(nodes, id, k, (m - k) as nat);
        lemma_up_add(nodes, id, j, (m - k) as nat);
        assert(j + (m - k) == shorter);
    }
}

proof fn lemma_up_has(nodes: Seq<NodeView>, id: u128, k: nat)
    requires
        parents_present(nodes),
        holds(nodes, id),
        up(nodes, id, k) is Some,
    ensures
        holds(nodes, up(nodes, id, k)->0),
    decreases k,
{
    if k > 0 {
        lemma_has(nodes, id);
        assert(parent_present(nodes, find(nodes, id, 0)));
        lemma_up_has(nodes, parent_of(nodes, id)->0, (k - 1) as nat);
    }
}

/// The path to `id` when its way up has `k` nodes.
proof fn lemma_path(nodes: Seq<NodeView>, id: u128, k: nat, steps: nat)
    requires
        0 < k <= steps,
        up(nodes, id, (k - 1) as nat) is Some,
        up(nodes, id, k) is None,
    ensures
        path_to(nodes, id, steps) == Seq::new(k, |i: int| up(nodes, id, (k - 1 - i) as nat)->0),
    decreases k,
{
    if k == 1 {
        reveal_with_fuel(up, 2);
        assert(path_to(nodes, id, steps) == seq![id]);
    } else {
        let p = parent_of(nodes, id)->0;
        lemma_path(nodes, p, (k - 1) as nat, (steps - 1) as nat);
        let upper = Seq::new((k - 1) as nat, |i: int| up(nodes, p, (k - 2 - i) as nat)->0);
        let whole = Seq::new(k, |i: int| up(nodes, id, (k - 1 - i) as nat)->0);
        assert(upper.push(id) == whole) by {
            assert forall|i: int| 0 <= i < k implies upper.push(id)[i] == whole[i] by {
                if i < k - 1 {
                    assert(up(nodes, id, (k - 1 - i) as nat) == up(nodes, p, (k - 2 - i) as nat));
                }
            }
        }
    }
}

proof fn lemma_height(nodes: Seq<NodeView>, id: u128, n: nat) -> (k: nat)
    requires
        up(nodes, id, n) is None,
    ensures
        0 < k <= n,
        up(nodes, id, (k - 1) as nat) is Some,
        up(nodes, id, k) is None,
    decreases n,
{
    if up(nodes, id, (n - 1) as nat) is Some {
        n
    } else {
        lemma_height(nodes, id, (n - 1) as nat)
    }
}

/// What the first `n` nodes and one more new node say of `id`.
proof fn lemma_extend_find(nodes: Seq<NodeView>, x: NodeView, id: u128, from: int)
    requires
        0 <= from <= nodes.len(),
    ensures
        find(nodes.push(x), id, from) == (if find(nodes, id, from) < nodes.len() {
            find(nodes, id, from)
        } else if x.id == id {
            nodes.len() as int
        } else {
            (nodes.len() + 1) as int
        }),
    decreases nodes.len() - from,
{
    if from < nodes.len() {
        assert(nodes.push(x)[from] == nodes[from]);
        if nodes[from].id != id {
            lemma_extend_find(nodes, x, id, from + 1);
        }
    } else {
        reveal_with_fuel(find, 2);
        assert(nodes.push(x)[from] == x);
    }
}

proof fn lemma_extend_parent(nodes: Seq<NodeView>, x: NodeView, id: u128)
    requires
        !holds(nodes, x.id),
    ensures
        holds(nodes, id) ==> holds(nodes.push(x), id) && parent_of(nodes.push(x), id) == parent_of(
            nodes,
            id,
        ),
        holds(nodes.push(x), x.id) && parent_of(nodes.push(x), x.id) == x.parent_id,
        holds(nodes.push(x), id) ==> holds(nodes, id) || id == x.id,
        holds(nodes, id) ==> find(nodes.push(x), id, 0) == find(nodes, id, 0),
        find(nodes.push(x), x.id, 0) == nodes.len(),
{
    let after = nodes.push(x);
    lemma_has(nodes, id);
    lemma_has(nodes, x.id);
    lemma_has(after, id);
    lemma_has(after, x.id);
    lemma_extend_find(nodes, x, id, 0);
    lemma_extend_find(nodes, x, x.id, 0);
}

proof fn lemma_extend_up(nodes: Seq<NodeView>, x: NodeView, id: u128, k: nat)
    requires
        !holds(nodes, x.id),
        parents_present(nodes),
        holds(nodes, id),
    ensures
        up(nodes.push(x), id, k) == up(nodes, id, k),
    decreases k,
{
    lemma_extend_parent(nodes, x, id);
    if k > 0 {
        match parent_of(nodes, id) {
            Some(p) => {
                lemma_has(nodes, id);
                assert(parent_present(nodes, find(nodes, id, 0)));
                lemma_extend_up(nodes, x, p, (k - 1) as nat);
            },
            None => {},
        }
    }
}

proof fn lemma_extend_path(nodes: Seq<NodeView>, x: NodeView, id: u128, steps: nat)
    requires
        !holds(nodes, x.id),
        parents_present(nodes),
        holds(nodes, id),
    ensures
        path_to(nodes.push(x), id, steps) == path_to(nodes, id, steps),
    decreases steps,
{
    lemma_extend_parent(nodes, x, id);
    if steps > 0 {
        match parent_of(nodes, id) {
            Some(p) => {
                lemma_has(nodes, id);
                assert(parent_present(nodes, find(nodes, id, 0)));
                lemma_extend_path(nodes, x, p, (steps - 1) as nat);
            },
            None => {},
        }
    }
}

/// Hanging a new node into a tree gives a tree whose active leaf is the new node.
pub proof fn lemma_extend(nodes: Seq<NodeView>, leaf: Option<u128>, x: NodeView)
    requires
        tree_error(nodes, leaf) is None,
        !holds(nodes, x.id),
        x.parent_id is Some ==> holds(nodes, x.parent_id->0),
    ensures
        tree_error(nodes.push(x), Some(x.id)) is None,
        active_path(nodes.push(x), Some(x.id)) == active_path(nodes, x.parent_id).push(x.id),
        messages_of(nodes.push(x), active_path(nodes, x.parent_id).push(x.id)) == messages_of(
            nodes,
            active_path(nodes, x.parent_id),
        ).push(x.message),
{
    let after = nodes.push(x);
    assert(distinct(after)) by {
        assert forall|i: int, j: int| 0 <= i < j < after.len() implies (#[trigger] after[i]).id != (
        #[trigger] after[j]).id by {
            assert(after[i] == nodes[i]);
            if j < nodes.len() {
                assert(after[j] == nodes[j]);
            }
        }
    }
    assert(parents_present(after)) by {
        assert forall|i: int| 0 <= i < after.len() implies #[trigger] parent_present(after, i) by {
            if i < nodes.len() {
                assert(after[i] == nodes[i]);
                assert(parent_present(nodes, i));
                if nodes[i].parent_id is Some {
                    lemma_extend_parent(nodes, x, nodes[i].parent_id->0);
                }
            } else {
                assert(after[i] == x);
                if x.parent_id is Some {
                    lemma_extend_parent(nodes, x, x.parent_id->0);
                }
            }
        }
    }
    lemma_extend_parent(nodes, x, x.id);
    assert(up(after, x.id, after.len()) is None) by {
        if x.parent_id is Some {
            let p = x.parent_id->0;
            lemma_has(nodes, p);
            let i = find(nodes, p, 0);
            assert(grounded(nodes, nodes[i].id));
            lemma_extend_up(nodes, x, p, nodes.len());
        }
    }
    assert(acyclic(after)) by {
        assert forall|i: int| 0 <= i < after.len() implies grounded(
            after,
            (#[trigger] after[i]).id,
        ) by {
            if i < nodes.len() {
                assert(after[i] == nodes[i]);
                assert(grounded(nodes, nodes[i].id));
                lemma_extend_up(nodes, x, nodes[i].id, nodes.len());
                lemma_up_none(after, nodes[i].id, nodes.len(), after.len());
            }
        }
    }
    assert(!has_child(after, x.id)) by {
        if has_child(after, x.id) {
            let i = choose|i: int|
                0 <= i < after.len() && (#[trigger] after[i]).parent_id == Some(x.id);
            if i < nodes.len() {
                assert(after[i] == nodes[i]);
                assert(parent_present(nodes, i));
            } else {
                assert(after[i] == x);
            }
        }
    }
    assert(active_path(after, Some(x.id)) == active_path(nodes, x.parent_id).push(x.id)) by {
        match x.parent_id {
            Some(p) => {
                lemma_extend_path(nodes, x, p, nodes.len());
            },
            None => {
                assert(seq![x.id] == Seq::<u128>::empty().push(x.id));
            },
        }
    }
    let ids = active_path(nodes, x.parent_id);
    assert(messages_of(after, ids.push(x.id)) == messages_of(nodes, ids).push(x.message)) by {
        assert forall|i: int| 0 <= i < ids.len() implies find(after, #[trigger] ids[i], 0) == find(
            nodes,
            ids[i],
            0,
        ) && holds(nodes, ids[i]) by {
            lemma_path_has(nodes, x.parent_id->0, nodes.len(), i);
            lemma_extend_parent(nodes, x, ids[i]);
        }
        assert forall|i: int| 0 <= i < ids.len() + 1 implies messages_of(after, ids.push(x.id))[i]
            == messages_of(nodes, ids).push(x.message)[i] by {
            if i < ids.len() {
                assert(ids.push(x.id)[i] == ids[i]);
                lemma_has(nodes, ids[i]);
                assert(after[find(nodes, ids[i], 0)] == nodes[find(nodes, ids[i], 0)]);
            } else {
                assert(ids.push(x.id)[i] == x.id);
                assert(after[nodes.len() as int] == x);
            }
        }
    }
}

proof fn lemma_path_has(nodes: Seq<NodeView>, id: u128, steps: nat, i: int)
    requires
        parents_present(nodes),
        holds(nodes, id),
        0 <= i < path_to(nodes, id, steps).len(),
    ensures
        holds(nodes, path_to(nodes, id, steps)[i]),
    decreases steps,
{
    match parent_of(nodes, id) {
        Some(p) => {
            lemma_has(nodes, id);
            assert(parent_present(nodes, find(nodes, id, 0)));
            let upper = path_to(nodes, p, (steps - 1) as nat);
            if i < upper.len() {
                lemma_path_has(nodes, p, (steps - 1) as nat, i);
            }
        },
        None => {},
    }
}

// ---------------------------------------------------------------------------
// Finding the active path

/// Whether `indexes` tells the position of every node.
spec fn indexes_of(indexes: Map<u128, usize>, nodes: Seq<NodeView>) -> bool {
    forall|id: u128|
        #![trigger indexes.contains_key(id)]
        indexes.contains_key(id) == holds(nodes, id) && (indexes.contains_key(id)
            ==> indexes[id] as int == find(nodes, id, 0))
}

/// The position of every node, or the first id that occurs twice.
fn index_nodes(nodes: &Vec<ConversationNode>) -> (r: Result<HashMap<u128, usize>, TreeError>)
    ensures
        r is Ok == distinct(node_views(nodes@)),
        r matches Ok(m) ==> indexes_of(m@, node_views(nodes@)) && m@.dom().len() == nodes@.len()
            && m@.dom().finite(),
        r matches Err(e) ==> e == TreeError::DuplicateId(first_duplicate(node_views(nodes@), 0)),
{
    let ghost v = node_views(nodes@);
    let mut m: HashMap<u128, usize> = HashMap::new();
    let mut i: usize = 0;
    assert forall|id: u128| #[trigger] find(v, id, 0) >= 0 by {
        lemma_find(v, id, 0);
    }
    while i < nodes.len()
        invariant
            i <= nodes@.len(),
            v == node_views(nodes@),
            m@.dom().finite(),
            m@.dom().len() == i,
            forall|id: u128|
                #![trigger m@.contains_key(id)]
                m@.contains_key(id) <==> find(v, id, 0) < i,
            forall|id: u128|
                #![trigger m@.contains_key(id)]
                m@.contains_key(id) ==> m@[id] as int == find(v, id, 0),
            forall|a: int, b: int| 0 <= a < b < i ==> (#[trigger] v[a]).id != (#[trigger] v[b]).id,
            first_duplicate(v, 0) == first_duplicate(v, i as int),
        decreases nodes@.len() - i,
    {
        let id: u128 = nodes[i].id;
        proof {
            lemma_find(v, id, 0);
            assert(v[i as int].id == id);
        }
        let ghost before = m@;
        let previous = m.insert(id, i);
        if previous.is_some() {
            proof {
                assert(find(v, id, 0) < i);
                assert(v[find(v, id, 0)].id == v[i as int].id);
            }
            return Err(TreeError::DuplicateId(id));
        }
        proof {
            assert(find(v, id, 0) == i);
            assert forall|a: int, b: int| 0 <= a < b < i + 1 implies (#[trigger] v[a]).id != (
            #[trigger] v[b]).id by {
                if b == i {
                    lemma_find(v, id, 0);
                }
            }
            assert forall|other: u128|
                #![trigger m@.contains_key(other)]
                (m@.contains_key(other) <==> find(v, other, 0) < i + 1) && (m@.contains_key(other)
                    ==> m@[other] as int == find(v, other, 0)) by {
                assert(before.contains_key(other) <==> find(v, other, 0) < i);
                lemma_find(v, other, 0);
                if find(v, other, 0) == i {
                    assert(v[i as int].id == other);
                }
            }
        }
        i += 1;
    }
    proof {
        assert forall|id: u128|
            #![trigger m@.contains_key(id)]
            m@.contains_key(id) == holds(v, id) && (m@.contains_key(id) ==> m@[id] as int == find(
                v,
                id,
                0,
            )) by {
            lemma_has(v, id);
        }
    }
    Ok(m)
}

/// Whether every parent is a node; the first node without its parent otherwise.
fn check_parents(nodes: &Vec<ConversationNode>, indexes: &HashMap<u128, usize>) -> (r: Result<
    (),
    TreeError,
>)
    requires
        indexes_of(indexes@, node_views(nodes@)),
    ensures
        r is Ok == parents_present(node_views(nodes@)),
        r matches Err(e) ==> ({
            let v = node_views(nodes@);
            let i = first_orphan(v, 0);
            e == TreeError::MissingParent { node: v[i].id, parent: v[i].parent_id->0 }
        }),
{
    let ghost v = node_views(nodes@);
    let mut i: usize = 0;
    while i < nodes.len()
        invariant
            i <= nodes@.len(),
            v == node_views(nodes@),
            indexes_of(indexes@, v),
            first_orphan(v, 0) == first_orphan(v, i as int),
            forall|j: int| 0 <= j < i ==> #[trigger] parent_present(v, j),
        decreases nodes@.len() - i,
    {
        let node = &nodes[i];
        assert(v[i as int] == node@);
        if let Some(parent) = node.parent_id {
            if !indexes.contains_key(&parent) {
                assert(!indexes@.contains_key(parent));
                assert(!parent_present(v, i as int));
                return Err(TreeError::MissingParent { node: node.id, parent });
            }
            assert(indexes@.contains_key(parent));
        }
        assert(parent_present(v, i as int));
        i += 1;
    }
    Ok(())
}

/// The parent of a node, looked up.
fn parent_by_index(
    nodes: &Vec<ConversationNode>,
    indexes: &HashMap<u128, usize>,
    id: u128,
) -> (parent: Option<u128>)
    requires
        indexes_of(indexes@, node_views(nodes@)),
    ensures
        parent == parent_of(node_views(nodes@), id),
{
    proof {
        lemma_has(node_views(nodes@), id);
        assert(indexes@.contains_key(id) == holds(node_views(nodes@), id));
    }
    match indexes.get(&id) {
        Some(index) => {
            let index: usize = *index;
            assert(node_views(nodes@)[index as int] == nodes@[index as int]@);
            nodes[index].parent_id
        },
        None => None,
    }
}

/// Walks up from one node: the first node met twice is an error.
fn check_way_up(
    nodes: &Vec<ConversationNode>,
    indexes: &HashMap<u128, usize>,
    start: u128,
) -> (r: Result<(), TreeError>)
    requires
        indexes_of(indexes@, node_views(nodes@)),
        indexes@.dom().finite(),
        indexes@.dom().len() == nodes@.len(),
        parents_present(node_views(nodes@)),
        holds(node_views(nodes@), start),
    ensures
        r is Ok == grounded(node_views(nodes@), start),
        r matches Err(e) ==> e == TreeError::Cycle(first_repeat(node_views(nodes@), start, 0)),
{
    let ghost v = node_views(nodes@);
    let mut visited: HashSet<u128> = HashSet::new();
    let mut current: Option<u128> = Some(start);
    let ghost mut k: nat = 0;
    while current.is_some()
        invariant
            v == node_views(nodes@),
            indexes_of(indexes@, v),
            indexes@.dom().finite(),
            indexes@.dom().len() == nodes@.len(),
            parents_present(v),
            holds(v, start),
            current == up(v, start, k),
            visited@.finite(),
            visited@.len() == k,
            visited@.subset_of(indexes@.dom()),
            k <= v.len(),
            forall|j: nat| j < k ==> (#[trigger] up(v, start, j)) is Some && visited@.contains(
                up(v, start, j)->0,
            ),
            forall|a: u128|
                #[trigger] visited@.contains(a) ==> exists|j: nat|
                    j < k && #[trigger] up(v, start, j) == Some(a),
            first_repeat(v, start, 0) == first_repeat(v, start, k),
        ensures
            current is None,
            current == up(v, start, k),
            k <= v.len(),
        decreases v.len() + 1 - k,
    {
        let id: u128 = current.unwrap();
        if visited.contains(&id) {
            proof {
                assert(visited@.contains(id));
                let j = choose|j: nat| j < k && #[trigger] up(v, start, j) == Some(id);
                assert(repeats(v, start, k));
                lemma_repeat_never_ends(v, start, j, k, v.len());
            }
            return Err(TreeError::Cycle(id));
        }
        proof {
            lemma_up_has(v, start, k);
            assert(indexes@.contains_key(id));
            if repeats(v, start, k) {
                let j = choose|j: nat| j < k && #[trigger] up(v, start, j) == up(v, start, k);
                assert(visited@.contains(up(v, start, j)->0));
            }
            vstd::set_lib::lemma_len_subset(visited@.insert(id), indexes@.dom());
            lemma_up_back(v, start, k);
        }
        let ghost before = visited@;
        visited.insert(id);
        current = parent_by_index(nodes, indexes, id);
        proof {
            assert(visited@ == before.insert(id));
            assert forall|a: u128| #[trigger] visited@.contains(a) implies exists|j: nat|
                j < k + 1 && #[trigger] up(v, start, j) == Some(a) by {
                if a == id {
                    assert(up(v, start, k) == Some(a));
                } else {
                    assert(before.contains(a));
                    let j = choose|j: nat| j < k && #[trigger] up(v, start, j) == Some(a);
                    assert(up(v, start, j) == Some(a));
                }
            }
            k = k + 1;
        }
    }
    proof {
        lemma_up_none(v, start, k, v.len());
    }
    Ok(())
}

/// The positions of the nodes on the way up from `leaf`, or the reason why the nodes are no tree.
fn way_up(nodes: &Vec<ConversationNode>, leaf: Option<u128>) -> (r: Result<Vec<usize>, TreeError>)
    ensures
        r is Ok == (tree_error(node_views(nodes@), leaf) is None),
        r matches Err(e) ==> tree_error(node_views(nodes@), leaf) == Some(e),
        r matches Ok(path) ==> {
            let v = node_views(nodes@);
            let ids = active_path(v, leaf);
            &&& path@.len() == ids.len()
            &&& forall|j: int|
                0 <= j < path@.len() ==> (#[trigger] path@[j]) < v.len() && path@[j] as int == find(
                    v,
                    ids[ids.len() - 1 - j],
                    0,
                ) && v[path@[j] as int].id == ids[ids.len() - 1 - j]
        },
{
    let ghost v = node_views(nodes@);
    let indexes = match index_nodes(nodes) {
        Ok(indexes) => indexes,
        Err(e) => {
            return Err(e);
        },
    };
    match check_parents(nodes, &indexes) {
        Ok(()) => {},
        Err(e) => {
            return Err(e);
        },
    }
    let mut i: usize = 0;
    while i < nodes.len()
        invariant
            i <= nodes@.len(),
            v == node_views(nodes@),
            distinct(v),
            parents_present(v),
            indexes_of(indexes@, v),
            indexes@.dom().finite(),
            indexes@.dom().len() == nodes@.len(),
            first_ungrounded(v, 0) == first_ungrounded(v, i as int),
            forall|j: int| 0 <= j < i ==> grounded(v, (#[trigger] v[j]).id),
        decreases nodes@.len() - i,
    {
        let start: u128 = nodes[i].id;
        assert(v[i as int].id == start);
        match check_way_up(nodes, &indexes, start) {
            Ok(()) => {},
            Err(e) => {
                assert(!acyclic(v));
                return Err(e);
            },
        }
        i += 1;
    }
    let mut path: Vec<usize> = Vec::new();
    if nodes.len() == 0 {
        if leaf.is_some() {
            return Err(TreeError::EmptyWithLeaf);
        }
        return Ok(path);
    }
    let leaf_id: u128 = match leaf {
        Some(id) => id,
        None => {
            return Err(TreeError::NoActiveLeaf);
        },
    };
    let mut i: usize = 0;
    while i < nodes.len()
        invariant
            i <= nodes@.len(),
            v == node_views(nodes@),
            distinct(v),
            parents_present(v),
            acyclic(v),
            v.len() > 0,
            leaf == Some(leaf_id),
            forall|j: int| 0 <= j < i ==> (#[trigger] v[j]).parent_id != Some(leaf_id),
        decreases nodes@.len() - i,
    {
        assert(v[i as int].parent_id == nodes@[i as int].parent_id);
        if nodes[i].parent_id == Some(leaf_id) {
            assert(has_child(v, leaf_id));
            return Err(TreeError::NotALeaf(leaf_id));
        }
        i += 1;
    }
    assert(!has_child(v, leaf_id));
    if !indexes.contains_key(&leaf_id) {
        assert(!indexes@.contains_key(leaf_id));
        return Err(TreeError::MissingLeaf(leaf_id));
    }
    assert(indexes@.contains_key(leaf_id));
    let mut current: Option<u128> = Some(leaf_id);
    let ghost mut k: nat = 0;
    proof {
        lemma_has(v, leaf_id);
        assert(grounded(v, v[find(v, leaf_id, 0)].id));
    }
    while current.is_some()
        invariant
            v == node_views(nodes@),
            distinct(v),
            parents_present(v),
            indexes_of(indexes@, v),
            holds(v, leaf_id),
            grounded(v, leaf_id),
            current == up(v, leaf_id, k),
            k > 0 ==> up(v, leaf_id, (k - 1) as nat) is Some,
            path@.len() == k,
            k <= v.len(),
            forall|j: int|
                0 <= j < k ==> (#[trigger] path@[j]) < v.len() && path@[j] as int == find(
                    v,
                    up(v, leaf_id, j as nat)->0,
                    0,
                ) && v[path@[j] as int].id == up(v, leaf_id, j as nat)->0,
        ensures
            current is None,
            current == up(v, leaf_id, k),
            path@.len() == k,
            forall|j: int|
                0 <= j < k ==> (#[trigger] path@[j]) < v.len() && path@[j] as int == find(
                    v,
                    up(v, leaf_id, j as nat)->0,
                    0,
                ) && v[path@[j] as int].id == up(v, leaf_id, j as nat)->0,
            0 < k ==> up(v, leaf_id, (k - 1) as nat) is Some,
            k <= v.len(),
        decreases v.len() - k,
    {
        let id: u128 = current.unwrap();
        proof {
            lemma_up_has(v, leaf_id, k);
            lemma_has(v, id);
            assert(indexes@.contains_key(id));
            if k >= v.len() {
                lemma_up_none(v, leaf_id, v.len(), k);
            }
            lemma_up_back(v, leaf_id, k);
        }
        match indexes.get(&id) {
            Some(index) => {
                let index: usize = *index;
                assert(v[index as int] == nodes@[index as int]@);
                path.push(index);
                current = nodes[index].parent_id;
            },
            None => {
                assert(false);
                return Err(TreeError::MissingLeaf(id));
            },
        }
        proof {
            k = k + 1;
        }
    }
    proof {
        assert(k > 0);
        lemma_path(v, leaf_id, k, v.len());
    }
    Ok(path)
}

// ---------------------------------------------------------------------------
// The tree

/// Every message of a conversation, and the active path through them.
#[derive(Debug)]
pub struct ConversationTree {
    nodes: Vec<ConversationNode>,
    active_leaf_id: Option<u128>,
    active_node_ids: Vec<u128>,
    active_messages: Vec<Message>,
}

impl View for ConversationTree {
    type V = TreeView;

    closed spec fn view(&self) -> TreeView {
        TreeView {
            nodes: node_views(self.nodes@),
            leaf: self.active_leaf_id,
            ids: self.active_node_ids@,
            messages: message::message_views(self.active_messages@),
        }
    }
}

/// Why a conversation was not changed as asked.
#[derive(Clone, Copy, Debug, PartialEq, Eq, Structural)]
pub enum BranchError {
    /// No node has this id.
    MissingNode(u128),
    /// Only visible messages of the user can be edited.
    NotEditable,
    /// The changed nodes are no tree.
    Broken(TreeError),
}

impl BranchError {
    /// What a person is told.
    pub open spec fn text(self) -> Seq<char> {
        match self {
            BranchError::MissingNode(id) => "conversation node "@ + ids::id_view(id)
                + " does not exist"@,
            BranchError::NotEditable => "only visible user messages can be edited"@,
            BranchError::Broken(e) => e.text(),
        }
    }

    /// What a person is told.
    pub fn message(&self) -> (s: String)
        ensures
            s@ == self.text(),
    {
        match self {
            BranchError::MissingNode(id) => text::cat3(
                "conversation node ",
                &ids::id_text(*id),
                " does not exist",
            ),
            BranchError::NotEditable => "only visible user messages can be edited".to_owned(),
            BranchError::Broken(e) => e.message(),
        }
    }
}

/// What hanging a message called `id` below `parent` makes of the tree `t`.
pub open spec fn branched(
    t: TreeView,
    parent: Option<u128>,
    message: MessageView,
    id: u128,
) -> TreeView {
    let nodes = t.nodes.push(NodeView { id, parent_id: parent, message });
    if parent == t.leaf {
        TreeView { nodes, leaf: Some(id), ids: t.ids.push(id), messages: t.messages.push(message) }
    } else if tree_error(nodes, Some(id)) is None {
        TreeView::of(nodes, Some(id))
    } else {
        TreeView { nodes, leaf: Some(id), ..t }
    }
}

/// The error of hanging a message called `id` below `parent`, where there is one.
pub open spec fn branch_error(
    t: TreeView,
    parent: Option<u128>,
    message: MessageView,
    id: u128,
) -> Option<BranchError> {
    let nodes = t.nodes.push(NodeView { id, parent_id: parent, message });
    if parent is Some && !holds(t.nodes, parent->0) {
        Some(BranchError::MissingNode(parent->0))
    } else if parent == t.leaf {
        None
    } else {
        match tree_error(nodes, Some(id)) {
            Some(e) => Some(BranchError::Broken(e)),
            None => None,
        }
    }
}

/// The first node below `id`, in the order in which nodes were added.
pub open spec fn first_child(nodes: Seq<NodeView>, id: u128, from: int) -> Option<u128>
    decreases nodes.len() - from,
{
    if from >= nodes.len() {
        None
    } else if nodes[from].parent_id == Some(id) {
        Some(nodes[from].id)
    } else {
        first_child(nodes, id, from + 1)
    }
}

/// The leaf that is reached from `id` by always going to the oldest child, in at most `steps`
/// steps.
pub open spec fn oldest_leaf(nodes: Seq<NodeView>, id: u128, steps: nat) -> u128
    decreases steps,
{
    if steps == 0 {
        id
    } else {
        match first_child(nodes, id, 0) {
            Some(c) => oldest_leaf(nodes, c, (steps - 1) as nat),
            None => id,
        }
    }
}

/// The nearest of `start` and the nodes above it that is a visible message of the user, over at
/// most `steps` nodes.
pub open spec fn nearest_user(nodes: Seq<NodeView>, start: Option<u128>, steps: nat) -> Option<u128>
    decreases steps,
{
    match start {
        None => None,
        Some(id) => if visible_at(nodes, id) {
            Some(id)
        } else if steps == 0 {
            None
        } else {
            nearest_user(nodes, parent_of(nodes, id), (steps - 1) as nat)
        },
    }
}

/// Whether the node called `id` is a visible message of the user.
pub open spec fn visible_at(nodes: Seq<NodeView>, id: u128) -> bool {
    holds(nodes, id) && message::is_visible_user(nodes[find(nodes, id, 0)].message)
}

/// The graph of the first `n` nodes that the user wrote: each with the nearest such node above.
pub open spec fn user_graph(nodes: Seq<NodeView>, n: nat) -> Seq<ConversationGraphNode>
    decreases n,
{
    if n == 0 {
        Seq::empty()
    } else {
        let node = nodes[n - 1];
        let before = user_graph(nodes, (n - 1) as nat);
        if message::is_visible_user(node.message) {
            before.push(
                ConversationGraphNode {
                    id: node.id,
                    parent_id: nearest_user(nodes, node.parent_id, nodes.len()),
                },
            )
        } else {
            before
        }
    }
}

proof fn lemma_first_child(nodes: Seq<NodeView>, id: u128, from: int)
    requires
        0 <= from <= nodes.len(),
    ensures
        first_child(nodes, id, from) is None ==> forall|j: int|
            from <= j < nodes.len() ==> (#[trigger] nodes[j]).parent_id != Some(id),
        first_child(nodes, id, from) matches Some(c) ==> exists|j: int|
            from <= j < nodes.len() && (#[trigger] nodes[j]).id == c && nodes[j].parent_id == Some(
                id,
            ),
    decreases nodes.len() - from,
{
    if from < nodes.len() {
        if nodes[from].parent_id == Some(id) {
            assert(nodes[from].id == first_child(nodes, id, from)->0);
        } else {
            lemma_first_child(nodes, id, from + 1);
        }
    }
}

impl ConversationTree {
    /// Whether this is a tree whose active path is known.
    pub open spec fn wf(&self) -> bool {
        self@.wf()
    }

    /// The empty conversation.
    pub fn new() -> (t: ConversationTree)
        ensures
            t@ == TreeView::of(Seq::empty(), None),
            t.wf(),
    {
        let t = ConversationTree {
            nodes: Vec::new(),
            active_leaf_id: None,
            active_node_ids: Vec::new(),
            active_messages: Vec::new(),
        };
        assert(t@.nodes == Seq::<NodeView>::empty());
        assert(t@ == TreeView::of(Seq::empty(), None));
        t
    }

    /// The conversation of stored nodes and a stored active leaf.
    pub fn from_parts(nodes: Vec<ConversationNode>, active_leaf_id: Option<u128>) -> (r: Result<
        ConversationTree,
        TreeError,
    >)
        ensures
            r is Ok == (tree_error(node_views(nodes@), active_leaf_id) is None),
            r matches Ok(t) ==> t.wf() && t@ == TreeView::of(node_views(nodes@), active_leaf_id),
            r matches Err(e) ==> tree_error(node_views(nodes@), active_leaf_id) == Some(e),
    {
        let mut tree = ConversationTree {
            nodes,
            active_leaf_id,
            active_node_ids: Vec::new(),
            active_messages: Vec::new(),
        };
        match tree.rebuild_active_path() {
            Ok(()) => Ok(tree),
            Err(e) => Err(e),
        }
    }

    /// Finds the active path anew.
    pub fn rebuild_active_path(&mut self) -> (r: Result<(), TreeError>)
        ensures
            r is Ok == (tree_error(old(self)@.nodes, old(self)@.leaf) is None),
            r is Ok ==> final(self)@ == TreeView::of(old(self)@.nodes, old(self)@.leaf),
            r matches Err(e) ==> tree_error(old(self)@.nodes, old(self)@.leaf) == Some(e)
                && final(self)@ == old(self)@,
    {
        let path = match way_up(&self.nodes, self.active_leaf_id) {
            Ok(path) => path,
            Err(e) => {
                return Err(e);
            },
        };
        let ghost v = node_views(self.nodes@);
        let ghost ids = active_path(v, self.active_leaf_id);
        let mut active_node_ids: Vec<u128> = Vec::new();
        let mut active_messages: Vec<Message> = Vec::new();
        let mut i: usize = path.len();
        while i > 0
            invariant
                i <= path@.len(),
                v == node_views(self.nodes@),
                path@.len() == ids.len(),
                active_node_ids@.len() == path@.len() - i,
                active_messages@.len() == path@.len() - i,
                forall|j: int|
                    0 <= j < path@.len() ==> (#[trigger] path@[j]) < v.len() && path@[j] as int
                        == find(v, ids[ids.len() - 1 - j], 0) && v[path@[j] as int].id
                        == ids[ids.len() - 1 - j],
                forall|j: int|
                    0 <= j < active_node_ids@.len() ==> #[trigger] active_node_ids@[j] == ids[j],
                forall|j: int|
                    0 <= j < active_messages@.len() ==> (#[trigger] active_messages@[j])@
                        == messages_of(v, ids)[j],
            decreases i,
        {
            i -= 1;
            let index: usize = path[i];
            assert(v[index as int] == self.nodes@[index as int]@);
            active_node_ids.push(self.nodes[index].id);
            active_messages.push(self.nodes[index].message.clone());
        }
        self.active_node_ids = active_node_ids;
        self.active_messages = active_messages;
        assert(self@.ids == ids);
        assert(self@.messages == messages_of(v, ids));
        Ok(())
    }

    /// The stored nodes, in the order in which they were added.
    pub fn nodes(&self) -> (r: &Vec<ConversationNode>)
        ensures
            node_views(r@) == self@.nodes,
    {
        &self.nodes
    }

    /// The active messages, root first.
    pub fn messages(&self) -> (r: &Vec<Message>)
        ensures
            message::message_views(r@) == self@.messages,
    {
        &self.active_messages
    }

    /// The active leaf.
    pub fn active_leaf_id(&self) -> (r: Option<u128>)
        ensures
            r == self@.leaf,
    {
        self.active_leaf_id
    }

    /// The ids of the active messages, root first.
    pub fn active_node_ids(&self) -> (r: &Vec<u128>)
        ensures
            r@ == self@.ids,
    {
        &self.active_node_ids
    }

    /// The id of the active message at an index.
    pub fn active_node_id(&self, message_index: usize) -> (r: Option<u128>)
        ensures
            r == (if message_index < self@.ids.len() {
                Some(self@.ids[message_index as int])
            } else {
                None
            }),
    {
        if message_index < self.active_node_ids.len() {
            Some(self.active_node_ids[message_index])
        } else {
            None
        }
    }

    /// The active ids with their messages, root first.
    pub fn active_entries(&self) -> (r: Vec<(u128, &Message)>)
        requires
            self.wf(),
        ensures
            r@.len() == self@.ids.len(),
            forall|i: int|
                0 <= i < r@.len() ==> (#[trigger] r@[i]).0 == self@.ids[i] && r@[i].1@
                    == self@.messages[i],
    {
        let mut r: Vec<(u128, &Message)> = Vec::new();
        let mut i: usize = 0;
        assert(self@.messages.len() == self@.ids.len());
        while i < self.active_node_ids.len()
            invariant
                i <= self.active_node_ids@.len(),
                self.active_node_ids@.len() == self.active_messages@.len(),
                self@.ids == self.active_node_ids@,
                self@.messages == message::message_views(self.active_messages@),
                r@.len() == i,
                forall|j: int|
                    0 <= j < i ==> (#[trigger] r@[j]).0 == self@.ids[j] && r@[j].1@
                        == self@.messages[j],
            decreases self.active_node_ids@.len() - i,
        {
            r.push((self.active_node_ids[i], &self.active_messages[i]));
            i += 1;
        }
        r
    }

    /// The position of the first node called `id`, or the number of nodes.
    fn position(&self, id: u128) -> (r: usize)
        ensures
            r as int == find(self@.nodes, id, 0),
            r <= self.nodes@.len(),
            (r < self.nodes@.len()) == holds(self@.nodes, id),
            r < self.nodes@.len() ==> self.nodes@[r as int].id == id,
    {
        let ghost v = node_views(self.nodes@);
        let mut i: usize = 0;
        while i < self.nodes.len() && self.nodes[i].id != id
            invariant
                i <= self.nodes@.len(),
                v == node_views(self.nodes@),
                find(v, id, 0) == find(v, id, i as int),
            decreases self.nodes@.len() - i,
        {
            assert(v[i as int].id != id);
            i += 1;
        }
        proof {
            lemma_has(v, id);
            if i < self.nodes@.len() {
                assert(v[i as int].id == id);
            }
        }
        i
    }

    /// The message of the node called `id`.
    pub fn message(&self, id: u128) -> (r: Option<&Message>)
        ensures
            r is Some == holds(self@.nodes, id),
            r matches Some(m) ==> m@ == self@.nodes[find(self@.nodes, id, 0)].message,
    {
        let i: usize = self.position(id);
        if i < self.nodes.len() {
            Some(&self.nodes[i].message)
        } else {
            None
        }
    }

    /// The parent of the node called `id`.
    pub fn parent(&self, id: u128) -> (r: Option<u128>)
        ensures
            r == parent_of(self@.nodes, id),
    {
        let i: usize = self.position(id);
        if i < self.nodes.len() {
            assert(self@.nodes[i as int] == self.nodes@[i as int]@);
            self.nodes[i].parent_id
        } else {
            None
        }
    }

    /// What the user wrote, each message below the nearest other one above it.
    pub fn visible_user_nodes(&self) -> (r: Vec<ConversationGraphNode>)
        requires
            self.wf(),
        ensures
            r@ == user_graph(self@.nodes, self@.nodes.len()),
    {
        let ghost v = self@.nodes;
        let mut r: Vec<ConversationGraphNode> = Vec::new();
        let mut i: usize = 0;
        while i < self.nodes.len()
            invariant
                i <= self.nodes@.len(),
                self.wf(),
                v == self@.nodes,
                v == node_views(self.nodes@),
                r@ == user_graph(v, i as nat),
            decreases self.nodes@.len() - i,
        {
            let node = &self.nodes[i];
            assert(v[i as int] == node@);
            if node.message.visible_user() {
                let mut parent_id: Option<u128> = node.parent_id;
                let ghost mut steps: nat = v.len();
                let ghost mut k: nat = 0;
                proof {
                    assert(grounded(v, v[i as int].id));
                    lemma_find_distinct(v, i as int);
                    reveal_with_fuel(up, 2);
                }
                while parent_id.is_some()
                    invariant
                        self.wf(),
                        v == self@.nodes,
                        v == node_views(self.nodes@),
                        0 <= i < v.len(),
                        grounded(v, v[i as int].id),
                        parent_id == up(v, v[i as int].id, k + 1),
                        k + steps == v.len(),
                        nearest_user(v, v[i as int].parent_id, v.len()) == nearest_user(
                            v,
                            parent_id,
                            steps,
                        ),
                    ensures
                        parent_id == nearest_user(v, v[i as int].parent_id, v.len()),
                    decreases steps,
                {
                    let id: u128 = parent_id.unwrap();
                    let at: usize = self.position(id);
                    assert(at < v.len() ==> v[at as int] == self.nodes@[at as int]@);
                    if at < self.nodes.len() && self.nodes[at].message.visible_user() {
                        break;
                    }
                    proof {
                        if steps == 0 {
                            lemma_up_none(v, v[i as int].id, v.len(), k + 1);
                        }
                        lemma_up_back(v, v[i as int].id, k + 1);
                    }
                    parent_id = self.parent(id);
                    proof {
                        steps = (steps - 1) as nat;
                        k = k + 1;
                    }
                }
                r.push(ConversationGraphNode { id: node.id, parent_id });
            }
            i += 1;
        }
        r
    }

    /// Hangs a message called `id` below `parent_id` and makes it the active leaf.
    pub fn branch_from_with(
        &mut self,
        parent_id: Option<u128>,
        message: Message,
        id: u128,
    ) -> (r: Result<u128, BranchError>)
        ensures
            match branch_error(old(self)@, parent_id, message@, id) {
                None => r == Ok::<u128, BranchError>(id),
                Some(e) => r == Err::<u128, BranchError>(e),
            },
            parent_id is Some && !holds(old(self)@.nodes, parent_id->0) ==> final(self)@ == old(
                self,
            )@,
            !(parent_id is Some && !holds(old(self)@.nodes, parent_id->0)) ==> final(self)@
                == branched(old(self)@, parent_id, message@, id),
            old(self).wf() && !holds(old(self)@.nodes, id) ==> final(self).wf() && (r is Ok == (
            parent_id is None || holds(old(self)@.nodes, parent_id->0))),
    {
        if let Some(parent) = parent_id {
            if self.position(parent) >= self.nodes.len() {
                return Err(BranchError::MissingNode(parent));
            }
        }
        let ghost before = self@;
        let ghost x = NodeView { id, parent_id, message: message@ };
        proof {
            if self.wf() && !holds(self@.nodes, id) {
                lemma_extend(self@.nodes, self@.leaf, x);
            }
        }
        let extends_active_path = parent_id == self.active_leaf_id;
        let copy = message.clone();
        self.nodes.push(ConversationNode { id, parent_id, message });
        self.active_leaf_id = Some(id);
        assert(self@.nodes == before.nodes.push(x));
        if extends_active_path {
            self.active_node_ids.push(id);
            self.active_messages.push(copy);
            assert(self@.messages == before.messages.push(x.message));
            Ok(id)
        } else {
            match self.rebuild_active_path() {
                Ok(()) => Ok(id),
                Err(e) => Err(BranchError::Broken(e)),
            }
        }
    }

    /// Hangs a message below `parent_id` under a new id and makes it the active leaf.
    pub fn branch_from(&mut self, parent_id: Option<u128>, message: Message) -> (r: Result<
        u128,
        BranchError,
    >)
        ensures
            parent_id is Some && !holds(old(self)@.nodes, parent_id->0) ==> final(self)@ == old(
                self,
            )@ && r == Err::<u128, BranchError>(BranchError::MissingNode(parent_id->0)),
            !(parent_id is Some && !holds(old(self)@.nodes, parent_id->0)) ==> ({
                let id = final(self)@.leaf->0;
                &&& final(self)@ == branched(old(self)@, parent_id, message@, id)
                &&& match branch_error(old(self)@, parent_id, message@, id) {
                    None => r == Ok::<u128, BranchError>(id),
                    Some(e) => r == Err::<u128, BranchError>(e),
                }
                &&& old(self).wf() && !holds(old(self)@.nodes, id) ==> final(self).wf() && r is Ok
            }),
    {
        let id: u128 = ids::random_id();
        self.branch_from_with(parent_id, message, id)
    }

    /// Hangs a message called `id` below the active leaf.
    pub fn push_with(&mut self, message: Message, id: u128)
        requires
            old(self).wf(),
        ensures
            final(self)@ == branched(old(self)@, old(self)@.leaf, message@, id),
            !holds(old(self)@.nodes, id) ==> final(self).wf(),
    {
        let leaf = self.active_leaf_id;
        let _ = self.branch_from_with(leaf, message, id);
    }

    /// Hangs a message below the active leaf under a new id.
    pub fn push(&mut self, message: Message) -> (id: u128)
        requires
            old(self).wf(),
        ensures
            final(self)@ == branched(old(self)@, old(self)@.leaf, message@, id),
            !holds(old(self)@.nodes, id) ==> final(self).wf(),
    {
        let id: u128 = ids::random_id();
        self.push_with(message, id);
        id
    }

    /// Whether `ancestor` is `descendant` or stands above it.
    pub fn is_ancestor(&self, ancestor: u128, descendant: u128) -> (r: bool)
        requires
            self.wf(),
        ensures
            r == (exists|k: nat| #[trigger] up(self@.nodes, descendant, k) == Some(ancestor)),
    {
        let ghost v = self@.nodes;
        let mut current: Option<u128> = Some(descendant);
        let ghost mut k: nat = 0;
        proof {
            lemma_has(v, descendant);
            if holds(v, descendant) {
                assert(grounded(v, v[find(v, descendant, 0)].id));
            } else {
                reveal_with_fuel(up, 2);
                lemma_up_none(v, descendant, 1, v.len() + 1);
            }
        }
        while current.is_some()
            invariant
                self.wf(),
                v == self@.nodes,
                current == up(v, descendant, k),
                grounded(v, descendant) || up(v, descendant, v.len() + 1) is None,
                forall|j: nat| j < k ==> #[trigger] up(v, descendant, j) != Some(ancestor),
            ensures
                current is None,
                current == up(v, descendant, k),
                forall|j: nat| j < k ==> #[trigger] up(v, descendant, j) != Some(ancestor),
            decreases v.len() + 1 - k,
        {
            let id: u128 = current.unwrap();
            if id == ancestor {
                assert(up(v, descendant, k) == Some(ancestor));
                return true;
            }
            proof {
                lemma_up_back(v, descendant, k);
                if k >= v.len() + 1 {
                    if grounded(v, descendant) {
                        lemma_up_none(v, descendant, v.len(), k);
                    } else {
                        lemma_up_none(v, descendant, v.len() + 1, k);
                    }
                }
            }
            current = self.parent(id);
            proof {
                k = k + 1;
            }
        }
        proof {
            assert forall|j: nat| #[trigger] up(v, descendant, j) != Some(ancestor) by {
                if j >= k {
                    lemma_up_none(v, descendant, k, j);
                }
            }
        }
        false
    }

    /// Makes the leaf below `id` that is reached over oldest children the active leaf.
    pub fn select_from_node(&mut self, id: u128) -> (r: Result<u128, BranchError>)
        requires
            old(self).wf(),
        ensures
            final(self).wf(),
            final(self)@.nodes == old(self)@.nodes,
            r is Ok == holds(old(self)@.nodes, id),
            r matches Ok(leaf) ==> leaf == oldest_leaf(old(self)@.nodes, id, old(self)@.nodes.len())
                && final(self)@ == TreeView::of(old(self)@.nodes, Some(leaf)),
            r matches Err(e) ==> e == BranchError::MissingNode(id) && final(self)@ == old(self)@,
    {
        if self.position(id) >= self.nodes.len() {
            return Err(BranchError::MissingNode(id));
        }
        let ghost v = self@.nodes;
        let mut leaf_id: u128 = id;
        let ghost mut k: nat = 0;
        loop
            invariant
                *self == *old(self),
                self.wf(),
                v == self@.nodes,
                v == node_views(self.nodes@),
                holds(v, leaf_id),
                up(v, leaf_id, k) == Some(id),
                k <= v.len(),
                oldest_leaf(v, id, v.len()) == oldest_leaf(v, leaf_id, (v.len() - k) as nat),
            ensures
                *self == *old(self),
                holds(v, leaf_id),
                first_child(v, leaf_id, 0) is None,
                leaf_id == oldest_leaf(v, id, v.len()),
            decreases v.len() - k,
        {
            let mut child: Option<u128> = None;
            let mut i: usize = 0;
            while i < self.nodes.len()
                invariant_except_break
                    i <= self.nodes@.len(),
                    child is None,
                    first_child(v, leaf_id, 0) == first_child(v, leaf_id, i as int),
                invariant
                    v == node_views(self.nodes@),
                ensures
                    child == first_child(v, leaf_id, 0),
                decreases self.nodes@.len() - i,
            {
                assert(v[i as int] == self.nodes@[i as int]@);
                if self.nodes[i].parent_id == Some(leaf_id) {
                    child = Some(self.nodes[i].id);
                    break;
                }
                i += 1;
            }
            proof {
                lemma_first_child(v, leaf_id, 0);
                lemma_has(v, leaf_id);
                assert(grounded(v, v[find(v, leaf_id, 0)].id));
                if k >= v.len() {
                    lemma_up_none(v, leaf_id, v.len(), k);
                }
            }
            match child {
                Some(c) => {
                    proof {
                        let j = choose|j: int|
                            0 <= j < v.len() && (#[trigger] v[j]).id == c && v[j].parent_id == Some(
                                leaf_id,
                            );
                        lemma_find_distinct(v, j);
                        assert(parent_of(v, c) == Some(leaf_id));
                        assert(up(v, c, k + 1) == up(v, leaf_id, k));
                        assert(grounded(v, v[j].id));
                        if k + 1 > v.len() {
                            lemma_up_none(v, c, v.len(), k + 1);
                        }
                        k = k + 1;
                    }
                    leaf_id = c;
                },
                None => {
                    break;
                },
            }
        }
        proof {
            lemma_first_child(v, leaf_id, 0);
            assert(!has_child(v, leaf_id));
        }
        self.active_leaf_id = Some(leaf_id);
        assert(self@.nodes == v);
        match self.rebuild_active_path() {
            Ok(()) => Ok(leaf_id),
            Err(e) => Err(BranchError::Broken(e)),
        }
    }

    /// Hangs an edited message called `new_id` beside the visible user message called `id`.
    pub fn branch_from_edited_with(&mut self, id: u128, message: Message, new_id: u128) -> (r: Result<
        u128,
        BranchError,
    >)
        ensures
            !holds(old(self)@.nodes, id) ==> r == Err::<u128, BranchError>(
                BranchError::MissingNode(id),
            ) && final(self)@ == old(self)@,
            holds(old(self)@.nodes, id) && !visible_at(old(self)@.nodes, id) ==> r == Err::<
                u128,
                BranchError,
            >(BranchError::NotEditable) && final(self)@ == old(self)@,
            old(self).wf() && visible_at(old(self)@.nodes, id) && !holds(old(self)@.nodes, new_id)
                ==> r == Ok::<u128, BranchError>(new_id) && final(self).wf() && final(self)@
                == branched(old(self)@, parent_of(old(self)@.nodes, id), message@, new_id),
            old(self).wf() && !holds(old(self)@.nodes, new_id) ==> final(self).wf(),
            old(self).wf() && visible_at(old(self)@.nodes, id) ==> final(self)@ == branched(
                old(self)@,
                parent_of(old(self)@.nodes, id),
                message@,
                new_id,
            ) && match branch_error(
                old(self)@,
                parent_of(old(self)@.nodes, id),
                message@,
                new_id,
            ) {
                None => r == Ok::<u128, BranchError>(new_id),
                Some(e) => r == Err::<u128, BranchError>(e),
            },
    {
        let i: usize = self.position(id);
        if i >= self.nodes.len() {
            return Err(BranchError::MissingNode(id));
        }
        assert(self@.nodes[i as int] == self.nodes@[i as int]@);
        if !self.nodes[i].message.visible_user() {
            return Err(BranchError::NotEditable);
        }
        let parent_id = self.nodes[i].parent_id;
        assert(self.wf() ==> parent_present(self@.nodes, i as int));
        self.branch_from_with(parent_id, message, new_id)
    }

    /// Hangs an edited message beside the visible user message called `id`, under a new id.
    pub fn branch_from_edited_user_message(&mut self, id: u128, message: Message) -> (r: Result<
        u128,
        BranchError,
    >)
        requires
            old(self).wf(),
        ensures
            !holds(old(self)@.nodes, id) ==> r == Err::<u128, BranchError>(
                BranchError::MissingNode(id),
            ) && final(self)@ == old(self)@,
            holds(old(self)@.nodes, id) && !visible_at(old(self)@.nodes, id) ==> r == Err::<
                u128,
                BranchError,
            >(BranchError::NotEditable) && final(self)@ == old(self)@,
            visible_at(old(self)@.nodes, id) ==> ({
                let new_id = final(self)@.leaf->0;
                &&& final(self)@ == branched(
                    old(self)@,
                    parent_of(old(self)@.nodes, id),
                    message@,
                    new_id,
                )
                &&& !holds(old(self)@.nodes, new_id) ==> r == Ok::<u128, BranchError>(new_id)
                    && final(self).wf()
            }),
    {
        let new_id: u128 = ids::random_id();
        self.branch_from_edited_with(id, message, new_id)
    }
}

// ---------------------------------------------------------------------------
// Laws

proof fn lemma_path_steps(nodes: Seq<NodeView>, id: u128, a: nat, b: nat)
    requires
        up(nodes, id, a) is None,
        a <= b,
    ensures
        path_to(nodes, id, a) == path_to(nodes, id, b),
{
    let k = lemma_height(nodes, id, a);
    lemma_path(nodes, id, k, a);
    lemma_path(nodes, id, k, b);
}

/// The active path of a conversation that is not empty begins at a root, goes from each node to
/// one of its children, and ends at the active leaf.
pub proof fn active_path_runs_from_a_root_to_the_leaf(t: TreeView)
    requires
        t.wf(),
        t.nodes.len() > 0,
    ensures
        t.ids.len() > 0,
        t.ids.len() == t.messages.len(),
        parent_of(t.nodes, t.ids[0]) is None,
        forall|i: int|
            0 <= i < t.ids.len() - 1 ==> parent_of(t.nodes, #[trigger] t.ids[i + 1]) == Some(
                t.ids[i],
            ),
        t.leaf == Some(t.ids.last()),
        !has_child(t.nodes, t.ids.last()),
        forall|i: int| 0 <= i < t.ids.len() ==> holds(t.nodes, #[trigger] t.ids[i]),
{
    let l = t.leaf->0;
    lemma_has(t.nodes, l);
    assert(grounded(t.nodes, t.nodes[find(t.nodes, l, 0)].id));
    let n = t.nodes.len();
    let k = lemma_height(t.nodes, l, n);
    lemma_path(t.nodes, l, k, n);
    assert(t.ids.len() == k);
    lemma_up_back(t.nodes, l, (k - 1) as nat);
    assert(t.ids[0] == up(t.nodes, l, (k - 1) as nat)->0);
    assert(t.ids.last() == up(t.nodes, l, 0)->0);
    assert forall|i: int| 0 <= i < t.ids.len() - 1 implies parent_of(
        t.nodes,
        #[trigger] t.ids[i + 1],
    ) == Some(t.ids[i]) by {
        let steps = (k - 2 - i) as nat;
        lemma_up_back(t.nodes, l, steps);
        assert(t.ids[i + 1] == up(t.nodes, l, steps)->0);
        assert(t.ids[i] == up(t.nodes, l, steps + 1)->0);
        if up(t.nodes, l, steps) is None {
            lemma_up_none(t.nodes, l, steps, (k - 1) as nat);
        }
        if up(t.nodes, l, steps + 1) is None {
            lemma_up_none(t.nodes, l, steps + 1, (k - 1) as nat);
        }
    }
    assert forall|i: int| 0 <= i < t.ids.len() implies holds(t.nodes, #[trigger] t.ids[i]) by {
        lemma_path_has(t.nodes, l, n, i);
    }
}

/// No message of a conversation stands above itself.
pub proof fn no_message_is_above_itself(t: TreeView, id: u128, k: nat)
    requires
        t.wf(),
        holds(t.nodes, id),
        k > 0,
    ensures
        up(t.nodes, id, k) != Some(id),
{
    lemma_has(t.nodes, id);
    assert(grounded(t.nodes, t.nodes[find(t.nodes, id, 0)].id));
    if up(t.nodes, id, k) == Some(id) {
        lemma_repeat_never_ends(t.nodes, id, 0, k, t.nodes.len());
    }
}

/// A branch keeps every earlier message: where it stood, what it said, and the way down to it.
pub proof fn a_branch_keeps_every_earlier_message(
    t: TreeView,
    parent: Option<u128>,
    message: MessageView,
    id: u128,
)
    requires
        t.wf(),
        !holds(t.nodes, id),
        parent is Some ==> holds(t.nodes, parent->0),
    ensures
        branched(t, parent, message, id).wf(),
        branched(t, parent, message, id).nodes.take(t.nodes.len() as int) == t.nodes,
        branched(t, parent, message, id).leaf == Some(id),
        branched(t, parent, message, id).ids == active_path(t.nodes, parent).push(id),
        branched(t, parent, message, id).messages.last() == message,
        forall|other: u128|
            holds(t.nodes, other) ==> #[trigger] active_path(
                branched(t, parent, message, id).nodes,
                Some(other),
            ) == active_path(t.nodes, Some(other)),
{
    let x = NodeView { id, parent_id: parent, message };
    let after = branched(t, parent, message, id);
    lemma_extend(t.nodes, t.leaf, x);
    assert(after.nodes.take(t.nodes.len() as int) == t.nodes);
    assert forall|other: u128| holds(t.nodes, other) implies #[trigger] active_path(
        after.nodes,
        Some(other),
    ) == active_path(t.nodes, Some(other)) by {
        lemma_has(t.nodes, other);
        assert(grounded(t.nodes, t.nodes[find(t.nodes, other, 0)].id));
        lemma_extend_path(t.nodes, x, other, t.nodes.len() + 1);
        lemma_path_steps(t.nodes, other, t.nodes.len(), t.nodes.len() + 1);
    }
}

/// After a branch elsewhere, selecting the former leaf brings the former messages back.
pub proof fn the_former_leaf_can_be_selected_again(
    t: TreeView,
    parent: Option<u128>,
    message: MessageView,
    id: u128,
)
    requires
        t.wf(),
        t.nodes.len() > 0,
        !holds(t.nodes, id),
        parent is Some ==> holds(t.nodes, parent->0),
        parent != t.leaf,
    ensures
        ({
            let after = branched(t, parent, message, id);
            let leaf = t.leaf->0;
            &&& holds(after.nodes, leaf)
            &&& oldest_leaf(after.nodes, leaf, after.nodes.len()) == leaf
            &&& TreeView::of(after.nodes, Some(leaf)).ids == t.ids
            &&& TreeView::of(after.nodes, Some(leaf)).messages == t.messages
        }),
{
    let x = NodeView { id, parent_id: parent, message };
    let after = branched(t, parent, message, id);
    let leaf = t.leaf->0;
    a_branch_keeps_every_earlier_message(t, parent, message, id);
    lemma_extend_parent(t.nodes, x, leaf);
    lemma_first_child(after.nodes, leaf, 0);
    if first_child(after.nodes, leaf, 0) is Some {
        let j = choose|j: int|
            0 <= j < after.nodes.len() && (#[trigger] after.nodes[j]).parent_id == Some(leaf);
        if j < t.nodes.len() {
            assert(after.nodes[j] == t.nodes[j]);
            assert(has_child(t.nodes, leaf));
        } else {
            assert(after.nodes[j] == x);
        }
    }
    assert(active_path(after.nodes, Some(leaf)) == t.ids);
    assert(messages_of(after.nodes, t.ids) == t.messages) by {
        assert forall|i: int| 0 <= i < t.ids.len() implies messages_of(after.nodes, t.ids)[i]
            == t.messages[i] by {
            lemma_path_has(t.nodes, leaf, t.nodes.len(), i);
            lemma_extend_parent(t.nodes, x, t.ids[i]);
            lemma_has(t.nodes, t.ids[i]);
            assert(after.nodes[find(t.nodes, t.ids[i], 0)] == t.nodes[find(
                t.nodes,
                t.ids[i],
                0,
            )]);
        }
    }
}

/// A new message hangs below the one that it was written under, says what was written, and is where the
/// conversation goes on; written under the active leaf, it follows the messages that are active.
pub proof fn a_new_message_hangs_where_it_was_written(
    t: TreeView,
    parent: Option<u128>,
    message: MessageView,
    id: u128,
)
    requires
        t.wf(),
        !holds(t.nodes, id),
        parent is Some ==> holds(t.nodes, parent->0),
    ensures
        ({
            let after = branched(t, parent, message, id);
            &&& after.nodes.len() == t.nodes.len() + 1
            &&& after.nodes.last().id == id
            &&& after.nodes.last().parent_id == parent
            &&& after.nodes.last().message == message
            &&& parent_of(after.nodes, id) == parent
            &&& after.leaf == Some(id)
            &&& after.ids.last() == id
            &&& parent == t.leaf ==> after.messages == t.messages.push(message) && after.ids
                == t.ids.push(id)
            &&& parent is None ==> after.ids == seq![id] && after.messages == seq![message]
        }),
        branch_error(t, parent, message, id) is None,
{
    a_branch_keeps_every_earlier_message(t, parent, message, id);
    let x = NodeView { id, parent_id: parent, message };
    lemma_extend(t.nodes, t.leaf, x);
    let after = branched(t, parent, message, id);
    lemma_find_distinct(after.nodes, t.nodes.len() as int);
    if parent is None {
        assert(active_path(t.nodes, parent) == Seq::<u128>::empty());
        assert(after.ids == seq![id]);
        assert(after.messages.len() == 1);
        assert(after.messages == seq![message]);
    }
}

/// The active messages are what the messages on the way from a root to the active leaf say.
pub proof fn the_active_messages_are_those_on_the_way(t: TreeView, i: int)
    requires
        t.wf(),
        0 <= i < t.ids.len(),
    ensures
        t.messages.len() == t.ids.len(),
        exists|j: int|
            0 <= j < t.nodes.len() && (#[trigger] t.nodes[j]).id == t.ids[i] && t.nodes[j].message
                == t.messages[i],
{
    if t.nodes.len() == 0 {
        assert(t.leaf is None);
    } else {
        active_path_runs_from_a_root_to_the_leaf(t);
        lemma_has(t.nodes, t.ids[i]);
        let j = find(t.nodes, t.ids[i], 0);
        assert(t.nodes[j].id == t.ids[i]);
    }
}

proof fn lemma_one_more_up(nodes: Seq<NodeView>, x: u128, k: nat, c: u128, p: u128)
    requires
        up(nodes, x, k) == Some(c),
        parent_of(nodes, c) == Some(p),
    ensures
        up(nodes, x, k + 1) == Some(p),
    decreases k,
{
    if k > 0 {
        let q = parent_of(nodes, x)->0;
        lemma_one_more_up(nodes, q, (k - 1) as nat, c, p);
    } else {
        assert(up(nodes, p, 0) == Some(p));
    }
}

/// The oldest answer to a message is the one that was added first.
pub proof fn the_oldest_answer_was_added_first(nodes: Seq<NodeView>, id: u128, from: int)
    requires
        0 <= from <= nodes.len(),
    ensures
        first_child(nodes, id, from) matches Some(c) ==> exists|j: int|
            {
                &&& from <= j < nodes.len()
                &&& (#[trigger] nodes[j]).id == c
                &&& nodes[j].parent_id == Some(id)
                &&& forall|i: int| from <= i < j ==> (#[trigger] nodes[i]).parent_id != Some(id)
            },
        first_child(nodes, id, from) is None ==> forall|i: int|
            from <= i < nodes.len() ==> (#[trigger] nodes[i]).parent_id != Some(id),
    decreases nodes.len() - from,
{
    if from < nodes.len() {
        if nodes[from].parent_id == Some(id) {
            assert(nodes[from].id == first_child(nodes, id, from)->0);
        } else {
            the_oldest_answer_was_added_first(nodes, id, from + 1);
        }
    }
}

/// Selecting a message goes on below it: the message stands above the leaf that is selected, or is it.
pub proof fn a_selected_message_stays_on_the_way(nodes: Seq<NodeView>, id: u128, steps: nat)
    requires
        distinct(nodes),
    ensures
        exists|k: nat| #[trigger] up(nodes, oldest_leaf(nodes, id, steps), k) == Some(id),
    decreases steps,
{
    let leaf = oldest_leaf(nodes, id, steps);
    if steps > 0 && first_child(nodes, id, 0) is Some {
        let c = first_child(nodes, id, 0)->0;
        the_oldest_answer_was_added_first(nodes, id, 0);
        let j = choose|j: int|
            {
                &&& 0 <= j < nodes.len()
                &&& (#[trigger] nodes[j]).id == c
                &&& nodes[j].parent_id == Some(id)
                &&& forall|i: int| 0 <= i < j ==> (#[trigger] nodes[i]).parent_id != Some(id)
            };
        lemma_find_distinct(nodes, j);
        assert(parent_of(nodes, c) == Some(id));
        a_selected_message_stays_on_the_way(nodes, c, (steps - 1) as nat);
        let k = choose|k: nat| #[trigger] up(nodes, leaf, k) == Some(c);
        lemma_one_more_up(nodes, leaf, k, c, id);
        assert(up(nodes, leaf, k + 1) == Some(id));
    } else {
        assert(up(nodes, leaf, 0) == Some(id));
    }
}

/// What the user wrote hangs below the nearest message above it that the user wrote.
pub proof fn the_nearest_written_message_is_above(nodes: Seq<NodeView>, start: u128, steps: nat)
    ensures
        nearest_user(nodes, Some(start), steps) matches Some(p) ==> visible_at(nodes, p) && exists|
            k: nat,
        | #[trigger]
            up(nodes, start, k) == Some(p) && forall|j: nat|
                j < k ==> (#[trigger] up(nodes, start, j) matches Some(q) ==> !visible_at(nodes, q)),
        nearest_user(nodes, Some(start), steps) is None ==> forall|j: nat|
            j <= steps ==> (#[trigger] up(nodes, start, j) matches Some(q) ==> !visible_at(
                nodes,
                q,
            )),
    decreases steps,
{
    assert(up(nodes, start, 0) == Some(start));
    if !visible_at(nodes, start) && steps > 0 {
        match parent_of(nodes, start) {
            Some(q) => {
                the_nearest_written_message_is_above(nodes, q, (steps - 1) as nat);
                if nearest_user(nodes, Some(start), steps) is Some {
                    let p = nearest_user(nodes, Some(start), steps)->0;
                    let k = choose|k: nat| #[trigger]
                        up(nodes, q, k) == Some(p) && forall|j: nat|
                            j < k ==> (#[trigger] up(nodes, q, j) matches Some(r) ==> !visible_at(
                                nodes,
                                r,
                            ));
                    assert(up(nodes, start, k + 1) == Some(p));
                    assert forall|j: nat| j < k + 1 implies (#[trigger] up(
                        nodes,
                        start,
                        j,
                    ) matches Some(r) ==> !visible_at(nodes, r)) by {
                        if j > 0 {
                            assert(up(nodes, start, j) == up(nodes, q, (j - 1) as nat));
                        }
                    }
                } else {
                    assert forall|j: nat| j <= steps implies (#[trigger] up(
                        nodes,
                        start,
                        j,
                    ) matches Some(r) ==> !visible_at(nodes, r)) by {
                        if j > 0 {
                            assert(up(nodes, start, j) == up(nodes, q, (j - 1) as nat));
                        }
                    }
                }
            },
            None => {
                assert(nearest_user(nodes, None, (steps - 1) as nat) is None);
            },
        }
    }
}

/// Every message that the user wrote and sees stands in the graph once, in the order in which the
/// messages were added, and nothing else does.
pub proof fn the_graph_holds_what_the_user_wrote(nodes: Seq<NodeView>, n: nat)
    requires
        n <= nodes.len(),
        distinct(nodes),
    ensures
        forall|i: int|
            0 <= i < n && (#[trigger] nodes[i]).message.role == message::Role::User
                && !nodes[i].message.hidden ==> exists|k: int|
                0 <= k < user_graph(nodes, n).len() && (#[trigger] user_graph(nodes, n)[k]).id
                    == nodes[i].id,
        forall|k: int|
            0 <= k < user_graph(nodes, n).len() ==> exists|i: int|
                0 <= i < n && (#[trigger] nodes[i]).id == (#[trigger] user_graph(nodes, n)[k]).id
                    && nodes[i].message.role == message::Role::User && !nodes[i].message.hidden
                    && user_graph(nodes, n)[k].parent_id == nearest_user(
                    nodes,
                    nodes[i].parent_id,
                    nodes.len(),
                ),
        user_graph(nodes, n).len() <= n,
    decreases n,
{
    if n > 0 {
        the_graph_holds_what_the_user_wrote(nodes, (n - 1) as nat);
        let before = user_graph(nodes, (n - 1) as nat);
        let all = user_graph(nodes, n);
        let written = message::is_visible_user(nodes[n - 1].message);
        assert forall|i: int|
            0 <= i < n && (#[trigger] nodes[i]).message.role == message::Role::User
                && !nodes[i].message.hidden implies exists|k: int|
            0 <= k < all.len() && (#[trigger] all[k]).id == nodes[i].id by {
            if i < n - 1 {
                let k = choose|k: int|
                    0 <= k < before.len() && (#[trigger] before[k]).id == nodes[i].id;
                assert(all[k].id == nodes[i].id);
            } else {
                assert(all[before.len() as int].id == nodes[i].id);
            }
        }
        assert forall|k: int| 0 <= k < all.len() implies exists|i: int|
            0 <= i < n && (#[trigger] nodes[i]).id == (#[trigger] all[k]).id
                && nodes[i].message.role == message::Role::User && !nodes[i].message.hidden
                && all[k].parent_id == nearest_user(nodes, nodes[i].parent_id, nodes.len()) by {
            if k < before.len() {
                assert(all[k] == before[k]);
                let i = choose|i: int|
                    0 <= i < n - 1 && (#[trigger] nodes[i]).id == before[k].id
                        && nodes[i].message.role == message::Role::User && !nodes[i].message.hidden
                        && before[k].parent_id == nearest_user(
                        nodes,
                        nodes[i].parent_id,
                        nodes.len(),
                    );
                assert(nodes[i].id == all[k].id);
            } else {
                assert(nodes[n - 1].id == all[k].id);
            }
        }
    }
}

/// Stored messages make a conversation exactly where no two have one id, every message that another
/// hangs below is there, no way up goes round in circles, and the active leaf is a message that nothing
/// hangs below, or there are no messages and no leaf.
pub proof fn stored_messages_make_a_tree(nodes: Seq<NodeView>, leaf: Option<u128>)
    ensures
        tree_error(nodes, leaf) is None <==> {
            &&& forall|i: int, j: int|
                0 <= i < j < nodes.len() ==> (#[trigger] nodes[i]).id != (#[trigger] nodes[j]).id
            &&& forall|i: int| 0 <= i < nodes.len() ==> #[trigger] parent_present(nodes, i)
            &&& forall|i: int|
                0 <= i < nodes.len() ==> grounded(nodes, (#[trigger] nodes[i]).id)
            &&& nodes.len() == 0 <==> leaf is None
            &&& leaf is Some ==> holds(nodes, leaf->0) && !has_child(nodes, leaf->0)
        },
{
    if nodes.len() == 0 && leaf is Some {
        assert(!holds(nodes, leaf->0));
    }
}

/// A message has what it hangs below where that is one of the messages, and the way up from it ends
/// where it does within as many steps as there are messages.
pub proof fn ways_up_end(nodes: Seq<NodeView>, i: int)
    requires
        0 <= i < nodes.len(),
    ensures
        parent_present(nodes, i) <==> nodes[i].parent_id is None || holds(
            nodes,
            nodes[i].parent_id->0,
        ),
        grounded(nodes, nodes[i].id) <==> up(nodes, nodes[i].id, nodes.len()) is None,
{
}

/// A message that is added comes behind all that are active, and takes nothing away.
pub proof fn an_added_message_comes_last(tree: &mut ConversationTree, message: Message, id: u128)
    requires
        call_ensures(ConversationTree::push_with, (tree, message, id), ()),
        old(tree).wf(),
        !holds(old(tree)@.nodes, id),
        old(tree)@.leaf is Some ==> holds(old(tree)@.nodes, old(tree)@.leaf->0),
    ensures
        final(tree)@.messages == old(tree)@.messages.push(message@),
        final(tree)@.ids == old(tree)@.ids.push(id),
        final(tree)@.nodes.len() == old(tree)@.nodes.len() + 1,
        final(tree)@.leaf == Some(id),
{
    a_new_message_hangs_where_it_was_written(old(tree)@, old(tree)@.leaf, message@, id);
}

} // verus!
