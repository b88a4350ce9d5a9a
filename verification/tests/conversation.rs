use codecrab::conversation::{BranchError, ConversationNode, ConversationTree, TreeError};
use codecrab::message::{Message, Role};

fn text(role: Role, content: &str) -> Message {
    Message::text(role, content)
}

fn content_at(tree: &ConversationTree, index: usize) -> Option<&str> {
    tree.messages()[index].content.as_deref()
}

#[test]
fn conversation_tree_preserves_branches_and_projects_only_the_active_path() {
    let mut tree = ConversationTree::new();
    let root = tree.push(text(Role::User, "root"));
    let original = tree.push(text(Role::Assistant, "original"));
    let original_leaf = tree.push(text(Role::User, "original leaf"));

    let alternate = tree
        .branch_from(Some(root), text(Role::Assistant, "alternate"))
        .unwrap();

    assert_eq!(tree.nodes().len(), 4);
    assert_eq!(tree.active_leaf_id(), Some(alternate));
    assert_eq!(tree.active_node_ids(), &vec![root, alternate]);
    assert_eq!(tree.messages().len(), 2);
    assert_eq!(content_at(&tree, 0), Some("root"));
    assert_eq!(content_at(&tree, 1), Some("alternate"));
    assert!(tree.is_ancestor(root, alternate));
    assert!(!tree.is_ancestor(original, alternate));
    assert_eq!(
        tree.nodes()
            .iter()
            .find(|node| node.id == original_leaf)
            .and_then(|node| node.message.content.as_deref()),
        Some("original leaf")
    );
}

#[test]
fn visible_conversation_graph_connects_user_turns_across_agent_messages() {
    let mut tree = ConversationTree::new();
    let root = tree.push(text(Role::User, "root"));
    let answer = tree.push(text(Role::Assistant, "answer"));
    let follow_up = tree.push(text(Role::User, "follow up"));
    let alternate = tree
        .branch_from(Some(answer), text(Role::User, "alternate follow up"))
        .unwrap();

    let graph = tree.visible_user_nodes();

    assert_eq!(graph.len(), 3);
    assert_eq!(graph[0].id, root);
    assert_eq!(graph[0].parent_id, None);
    assert_eq!(graph[1].id, follow_up);
    assert_eq!(graph[1].parent_id, Some(root));
    assert_eq!(graph[2].id, alternate);
    assert_eq!(graph[2].parent_id, Some(root));
}

fn node(id: u128, parent_id: Option<u128>, role: Role, content: &str) -> ConversationNode {
    ConversationNode { id, parent_id, message: text(role, content) }
}

#[test]
fn deserialization_rejects_cycles_in_inactive_branches() {
    let (first, second, active) = (1, 2, 3);
    let nodes = vec![
        node(first, Some(second), Role::User, "first"),
        node(second, Some(first), Role::Assistant, "second"),
        node(active, None, Role::User, "active"),
    ];

    let error = ConversationTree::from_parts(nodes, Some(active))
        .err()
        .expect("an inactive cycle must make the whole tree invalid");
    assert!(error.message().contains("contains a cycle"));
}

#[test]
fn broken_trees_are_refused_with_their_fault() {
    let twice = vec![
        node(1, None, Role::User, "a"),
        node(1, None, Role::User, "b"),
    ];
    assert_eq!(
        ConversationTree::from_parts(twice, Some(1)).err(),
        Some(TreeError::DuplicateId(1))
    );
    let orphan = vec![node(1, Some(9), Role::User, "a")];
    assert_eq!(
        ConversationTree::from_parts(orphan, Some(1)).err(),
        Some(TreeError::MissingParent { node: 1, parent: 9 })
    );
    assert_eq!(
        ConversationTree::from_parts(Vec::new(), Some(1)).err(),
        Some(TreeError::EmptyWithLeaf)
    );
    let chain = || {
        vec![
            node(1, None, Role::User, "a"),
            node(2, Some(1), Role::Assistant, "b"),
        ]
    };
    assert_eq!(
        ConversationTree::from_parts(chain(), None).err(),
        Some(TreeError::NoActiveLeaf)
    );
    assert_eq!(
        ConversationTree::from_parts(chain(), Some(1)).err(),
        Some(TreeError::NotALeaf(1))
    );
    assert_eq!(
        ConversationTree::from_parts(chain(), Some(7)).err(),
        Some(TreeError::MissingLeaf(7))
    );
    let tree = ConversationTree::from_parts(chain(), Some(2)).unwrap();
    assert_eq!(tree.active_node_ids(), &vec![1, 2]);
}

#[test]
fn faults_name_the_message_they_are_about() {
    assert_eq!(
        TreeError::DuplicateId(1).message(),
        "duplicate conversation node id 00000000-0000-0000-0000-000000000001"
    );
    assert_eq!(
        TreeError::Cycle(255).message(),
        "conversation tree contains a cycle at node 00000000-0000-0000-0000-0000000000ff"
    );
}

#[test]
fn a_branch_keeps_the_earlier_messages_and_the_former_leaf() {
    let mut tree = ConversationTree::new();
    tree.push_with(text(Role::User, "one"), 1);
    tree.push_with(text(Role::Assistant, "two"), 2);
    let new = tree.branch_from_with(Some(1), text(Role::Assistant, "three"), 3);
    assert_eq!(new.ok(), Some(3));
    assert_eq!(tree.nodes().len(), 3);
    assert_eq!(tree.active_node_ids(), &vec![1, 3]);
    assert_eq!(tree.select_from_node(2).ok(), Some(2));
    assert_eq!(tree.active_node_ids(), &vec![1, 2]);
    assert_eq!(content_at(&tree, 1), Some("two"));
}

#[test]
fn only_visible_messages_of_the_user_are_edited() {
    let mut tree = ConversationTree::new();
    tree.push_with(text(Role::User, "one"), 1);
    tree.push_with(text(Role::Assistant, "two"), 2);
    tree.push_with(Message::hidden_text(Role::User, "hidden"), 3);
    let edited = tree.branch_from_edited_with(1, text(Role::User, "other"), 4);
    assert_eq!(edited.ok(), Some(4));
    assert_eq!(tree.active_node_ids(), &vec![4]);
    assert!(matches!(
        tree.branch_from_edited_with(2, text(Role::User, "no"), 5),
        Err(BranchError::NotEditable)
    ));
    assert!(matches!(
        tree.branch_from_edited_with(3, text(Role::User, "no"), 5),
        Err(BranchError::NotEditable)
    ));
    assert!(matches!(
        tree.branch_from_edited_with(9, text(Role::User, "no"), 5),
        Err(BranchError::MissingNode(9))
    ));
}

#[test]
fn entries_pair_ids_with_messages() {
    let mut tree = ConversationTree::new();
    let root = tree.push(text(Role::User, "root"));
    let answer = tree.push(text(Role::Assistant, "answer"));
    let entries = tree.active_entries();
    assert_eq!(entries.len(), 2);
    assert_eq!(entries[1].0, answer);
    assert_eq!(entries[1].1.content.as_deref(), Some("answer"));
    assert_eq!(tree.active_node_id(0), Some(root));
    assert_eq!(tree.active_node_id(2), None);
    let edited = tree
        .branch_from_edited_user_message(root, text(Role::User, "other"))
        .unwrap();
    assert_eq!(tree.active_node_ids(), &vec![edited]);
    assert_eq!(
        tree.branch_from_edited_user_message(answer, text(Role::User, "x")),
        Err(BranchError::NotEditable)
    );
}
