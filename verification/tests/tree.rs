use flow_builder::base_configuration::BaseConfiguration;
use flow_builder::identity::NodeId;
use flow_builder::level::ComponentLevel;
use flow_builder::model::{AttachError, DetachError};
use flow_builder::policy::LevelPolicy;
use flow_builder::tree::ConfigurationTree;

fn id(value: u128) -> NodeId {
    NodeId::from_u128(value)
}

fn node(value: u128, level: ComponentLevel) -> BaseConfiguration {
    BaseConfiguration::with_uuid(id(value)).with_level(level)
}

fn parent_node(value: u128) -> BaseConfiguration {
    node(value, ComponentLevel::ParentOnly)
}

fn child_node(value: u128) -> BaseConfiguration {
    node(value, ComponentLevel::ChildOnly)
}

/// A tree in which nodes of level `ParentOnly` may nest in one another.
fn nesting_tree() -> ConfigurationTree {
    ConfigurationTree::with_policy(
        LevelPolicy::new().permit(ComponentLevel::ParentOnly, ComponentLevel::ParentOnly),
    )
}

fn children(tree: &ConfigurationTree, parent: u128) -> Vec<NodeId> {
    tree.get(id(parent)).unwrap().child_uuids.clone()
}

fn parent_of(tree: &ConfigurationTree, child: u128) -> Option<NodeId> {
    tree.get(id(child)).unwrap().parent
}

fn flags(tree: &ConfigurationTree, child: u128) -> (bool, bool) {
    let node = tree.get(id(child)).unwrap();
    (node.is_first, node.is_last)
}

/// Checks on every node of `ids` what a well-formed tree promises.
fn assert_consistent(tree: &ConfigurationTree, ids: &[u128]) {
    for &value in ids {
        let node = tree.get(id(value)).unwrap();
        assert_eq!(node.uuid, id(value));
        match node.parent {
            Some(parent) => {
                let listed = &tree.get(parent).unwrap().child_uuids;
                assert_eq!(listed.iter().filter(|kid| **kid == id(value)).count(), 1);
                assert!(!node.is_deleted);
            },
            None => {
                assert!(!node.is_first);
                assert!(!node.is_last);
            },
        }
        let kids = &node.child_uuids;
        for (position, kid) in kids.iter().enumerate() {
            let child = tree.get(*kid).unwrap();
            assert_eq!(child.parent, Some(id(value)));
            assert_eq!(child.is_first, position == 0);
            assert_eq!(child.is_last, position + 1 == kids.len());
        }
        let firsts = kids.iter().filter(|kid| tree.get(**kid).unwrap().is_first).count();
        let lasts = kids.iter().filter(|kid| tree.get(**kid).unwrap().is_last).count();
        assert_eq!(firsts, if kids.is_empty() { 0 } else { 1 });
        assert_eq!(lasts, if kids.is_empty() { 0 } else { 1 });
    }
}

#[test]
fn new_tree_is_empty() {
    let tree = ConfigurationTree::new();
    assert_eq!(tree.len(), 0);
    assert!(tree.is_empty());
    assert!(!tree.contains(id(1)));
    assert!(tree.get(id(1)).is_none());
    assert!(tree.policy().allows(ComponentLevel::ParentOnly, ComponentLevel::ChildOnly));
    assert!(!tree.policy().allows(ComponentLevel::ParentOnly, ComponentLevel::ParentOnly));
}

#[test]
fn insert_adds_an_unattached_node() {
    let mut tree = ConfigurationTree::new();
    assert_eq!(tree.insert(parent_node(1).with_name("root".to_string())), Some(id(1)));
    assert_eq!(tree.len(), 1);
    assert!(!tree.is_empty());
    assert!(tree.contains(id(1)));
    let held = tree.get(id(1)).unwrap();
    assert_eq!(held.name, "root");
    assert_eq!(held.parent, None);
    assert!(held.child_uuids.is_empty());
}

#[test]
fn insert_refuses_a_second_node_under_one_id() {
    let mut tree = ConfigurationTree::new();
    assert_eq!(tree.insert(parent_node(1).with_name("first".to_string())), Some(id(1)));
    assert_eq!(tree.insert(child_node(1).with_name("second".to_string())), None);
    assert_eq!(tree.len(), 1);
    assert_eq!(tree.get(id(1)).unwrap().name, "first");
    assert_eq!(tree.get(id(1)).unwrap().component_level, ComponentLevel::ParentOnly);
}

#[test]
fn insert_clears_the_links_that_a_node_carries() {
    let mut node = child_node(5);
    node.parent = Some(id(99));
    node.child_uuids.push(id(98));
    node.is_first = true;
    node.is_last = true;
    let mut tree = ConfigurationTree::new();
    assert_eq!(tree.insert(node), Some(id(5)));
    let held = tree.get(id(5)).unwrap();
    assert_eq!(held.parent, None);
    assert!(held.child_uuids.is_empty());
    assert!(!held.is_first);
    assert!(!held.is_last);
    assert_eq!(held.component_level, ComponentLevel::ChildOnly);
    assert_consistent(&tree, &[5]);
}

#[test]
fn attach_links_parent_and_child() {
    let mut tree = ConfigurationTree::new();
    tree.insert(parent_node(1));
    tree.insert(child_node(2));
    assert_eq!(tree.attach_child(id(1), id(2)), Ok(()));
    assert_eq!(children(&tree, 1), vec![id(2)]);
    assert_eq!(parent_of(&tree, 2), Some(id(1)));
    assert_eq!(flags(&tree, 2), (true, true));
    assert_eq!(flags(&tree, 1), (false, false));
    assert_consistent(&tree, &[1, 2]);
}

#[test]
fn attached_child_becomes_the_last() {
    let mut tree = ConfigurationTree::new();
    tree.insert(parent_node(1));
    for value in 2..=4 {
        tree.insert(child_node(value));
        assert_eq!(tree.attach_child(id(1), id(value)), Ok(()));
        assert_eq!(children(&tree, 1).last(), Some(&id(value)));
        assert_eq!(flags(&tree, value).1, true);
    }
    assert_eq!(children(&tree, 1), vec![id(2), id(3), id(4)]);
    assert_eq!(flags(&tree, 2), (true, false));
    assert_eq!(flags(&tree, 3), (false, false));
    assert_eq!(flags(&tree, 4), (false, true));
    assert_consistent(&tree, &[1, 2, 3, 4]);
}

#[test]
fn detach_undoes_attach() {
    let mut tree = ConfigurationTree::new();
    tree.insert(parent_node(1));
    tree.insert(child_node(2).with_name("kept".to_string()));
    assert_eq!(tree.attach_child(id(1), id(2)), Ok(()));
    assert_eq!(tree.detach_child(id(1), id(2)), Ok(id(2)));
    assert_eq!(parent_of(&tree, 2), None);
    assert!(!children(&tree, 1).contains(&id(2)));
    assert!(children(&tree, 1).is_empty());
    assert_eq!(flags(&tree, 2), (false, false));
    assert!(tree.contains(id(2)));
    assert_eq!(tree.get(id(2)).unwrap().name, "kept");
    assert_consistent(&tree, &[1, 2]);
}

#[test]
fn detach_undoes_attach_among_siblings() {
    let mut tree = ConfigurationTree::new();
    tree.insert(parent_node(1));
    for value in 2..=4 {
        tree.insert(child_node(value));
    }
    tree.attach_child(id(1), id(2)).unwrap();
    tree.attach_child(id(1), id(3)).unwrap();
    let before: Vec<(Option<NodeId>, Vec<NodeId>, bool, bool)> = (1..=4)
        .map(|value| {
            let node = tree.get(id(value)).unwrap();
            (node.parent, node.child_uuids.clone(), node.is_first, node.is_last)
        })
        .collect();
    assert_eq!(tree.attach_child(id(1), id(4)), Ok(()));
    assert_eq!(flags(&tree, 3), (false, false));
    assert_eq!(tree.detach_child(id(1), id(4)), Ok(id(4)));
    let after: Vec<(Option<NodeId>, Vec<NodeId>, bool, bool)> = (1..=4)
        .map(|value| {
            let node = tree.get(id(value)).unwrap();
            (node.parent, node.child_uuids.clone(), node.is_first, node.is_last)
        })
        .collect();
    assert_eq!(before, after);
}

#[test]
fn detach_recomputes_the_sibling_flags() {
    let mut tree = ConfigurationTree::new();
    tree.insert(parent_node(1));
    for value in 2..=5 {
        tree.insert(child_node(value));
        tree.attach_child(id(1), id(value)).unwrap();
    }
    assert_eq!(tree.detach_child(id(1), id(2)), Ok(id(2)));
    assert_eq!(children(&tree, 1), vec![id(3), id(4), id(5)]);
    assert_eq!(flags(&tree, 3), (true, false));
    assert_eq!(flags(&tree, 5), (false, true));
    assert_consistent(&tree, &[1, 2, 3, 4, 5]);
    assert_eq!(tree.detach_child(id(1), id(5)), Ok(id(5)));
    assert_eq!(children(&tree, 1), vec![id(3), id(4)]);
    assert_eq!(flags(&tree, 3), (true, false));
    assert_eq!(flags(&tree, 4), (false, true));
    assert_consistent(&tree, &[1, 2, 3, 4, 5]);
    assert_eq!(tree.detach_child(id(1), id(3)), Ok(id(3)));
    assert_eq!(children(&tree, 1), vec![id(4)]);
    assert_eq!(flags(&tree, 4), (true, true));
    assert_consistent(&tree, &[1, 2, 3, 4, 5]);
    assert_eq!(tree.detach_child(id(1), id(4)), Ok(id(4)));
    assert!(children(&tree, 1).is_empty());
    assert_consistent(&tree, &[1, 2, 3, 4, 5]);
}

#[test]
fn detach_from_the_middle_keeps_the_order() {
    let mut tree = ConfigurationTree::new();
    tree.insert(parent_node(1));
    for value in 2..=4 {
        tree.insert(child_node(value));
        tree.attach_child(id(1), id(value)).unwrap();
    }
    assert_eq!(tree.detach_child(id(1), id(3)), Ok(id(3)));
    assert_eq!(children(&tree, 1), vec![id(2), id(4)]);
    assert_eq!(flags(&tree, 2), (true, false));
    assert_eq!(flags(&tree, 4), (false, true));
    assert_eq!(flags(&tree, 3), (false, false));
}

#[test]
fn detach_of_a_missing_child_is_not_found() {
    let mut tree = ConfigurationTree::new();
    tree.insert(parent_node(1));
    tree.insert(child_node(2));
    tree.insert(child_node(3));
    tree.attach_child(id(1), id(2)).unwrap();
    assert_eq!(tree.detach_child(id(1), id(3)), Err(DetachError::NotFound));
    assert_eq!(tree.detach_child(id(1), id(9)), Err(DetachError::NotFound));
    assert_eq!(tree.detach_child(id(9), id(2)), Err(DetachError::NotFound));
    assert_eq!(tree.detach_child(id(2), id(1)), Err(DetachError::NotFound));
    assert_eq!(children(&tree, 1), vec![id(2)]);
    assert_eq!(parent_of(&tree, 2), Some(id(1)));
    assert_consistent(&tree, &[1, 2, 3]);
}

#[test]
fn detached_node_keeps_its_children() {
    let mut tree = nesting_tree();
    for value in 1..=3 {
        tree.insert(parent_node(value));
    }
    tree.attach_child(id(1), id(2)).unwrap();
    tree.attach_child(id(2), id(3)).unwrap();
    assert_eq!(tree.detach_child(id(1), id(2)), Ok(id(2)));
    assert_eq!(parent_of(&tree, 2), None);
    assert_eq!(children(&tree, 2), vec![id(3)]);
    assert_eq!(parent_of(&tree, 3), Some(id(2)));
    assert_consistent(&tree, &[1, 2, 3]);
}

#[test]
fn attach_of_an_unknown_node_is_refused() {
    let mut tree = ConfigurationTree::new();
    tree.insert(parent_node(1));
    tree.insert(child_node(2));
    assert_eq!(tree.attach_child(id(9), id(2)), Err(AttachError::UnknownNode));
    assert_eq!(tree.attach_child(id(1), id(9)), Err(AttachError::UnknownNode));
    assert_eq!(tree.attach_child(id(8), id(9)), Err(AttachError::UnknownNode));
    assert!(children(&tree, 1).is_empty());
    assert_eq!(parent_of(&tree, 2), None);
    assert_eq!(tree.len(), 2);
}

#[test]
fn child_only_under_anything_but_parent_only_is_a_level_mismatch() {
    for level in [ComponentLevel::ChildOnly, ComponentLevel::Other] {
        let mut tree = ConfigurationTree::new();
        tree.insert(node(1, level));
        tree.insert(child_node(2));
        assert_eq!(tree.attach_child(id(1), id(2)), Err(AttachError::LevelMismatch));
        assert!(children(&tree, 1).is_empty());
        assert_eq!(parent_of(&tree, 2), None);
        assert_consistent(&tree, &[1, 2]);
    }
}

#[test]
fn child_only_under_parent_only_succeeds() {
    let mut tree = ConfigurationTree::new();
    tree.insert(parent_node(1));
    tree.insert(child_node(2));
    assert_eq!(tree.attach_child(id(1), id(2)), Ok(()));
}

#[test]
fn only_the_allowed_pair_of_levels_attaches() {
    let levels = [ComponentLevel::ParentOnly, ComponentLevel::ChildOnly, ComponentLevel::Other];
    for parent in levels {
        for child in levels {
            let mut tree = ConfigurationTree::new();
            tree.insert(node(1, parent));
            tree.insert(node(2, child));
            let expected =
                if parent == ComponentLevel::ParentOnly && child == ComponentLevel::ChildOnly {
                    Ok(())
                } else {
                    Err(AttachError::LevelMismatch)
                };
            assert_eq!(tree.attach_child(id(1), id(2)), expected);
        }
    }
}

#[test]
fn node_of_level_other_attaches_nowhere() {
    let mut tree = ConfigurationTree::new();
    tree.insert(parent_node(1));
    tree.insert(node(2, ComponentLevel::Other));
    tree.insert(node(3, ComponentLevel::Other));
    assert_eq!(tree.attach_child(id(1), id(2)), Err(AttachError::LevelMismatch));
    assert_eq!(tree.attach_child(id(3), id(2)), Err(AttachError::LevelMismatch));
    assert_eq!(tree.attach_child(id(2), id(1)), Err(AttachError::LevelMismatch));
}

#[test]
fn attach_under_a_descendant_is_a_cycle() {
    let mut tree = nesting_tree();
    for value in 1..=3 {
        tree.insert(parent_node(value));
    }
    tree.attach_child(id(1), id(2)).unwrap();
    tree.attach_child(id(2), id(3)).unwrap();
    assert_eq!(tree.attach_child(id(3), id(1)), Err(AttachError::CycleDetected));
    assert_eq!(tree.attach_child(id(2), id(1)), Err(AttachError::CycleDetected));
    assert_eq!(tree.attach_child(id(3), id(2)), Err(AttachError::CycleDetected));
    assert_eq!(children(&tree, 1), vec![id(2)]);
    assert_eq!(children(&tree, 2), vec![id(3)]);
    assert!(children(&tree, 3).is_empty());
    assert_eq!(parent_of(&tree, 1), None);
    assert_eq!(parent_of(&tree, 2), Some(id(1)));
    assert_eq!(parent_of(&tree, 3), Some(id(2)));
    assert_consistent(&tree, &[1, 2, 3]);
}

#[test]
fn attach_under_itself_is_a_cycle() {
    let mut tree = nesting_tree();
    tree.insert(parent_node(1));
    assert_eq!(tree.attach_child(id(1), id(1)), Err(AttachError::CycleDetected));
    assert!(children(&tree, 1).is_empty());
    assert_eq!(parent_of(&tree, 1), None);
}

#[test]
fn levels_are_tested_before_cycles() {
    let mut tree = ConfigurationTree::new();
    tree.insert(parent_node(1));
    tree.insert(child_node(2));
    tree.attach_child(id(1), id(2)).unwrap();
    assert_eq!(tree.attach_child(id(2), id(1)), Err(AttachError::LevelMismatch));
    assert_eq!(tree.attach_child(id(1), id(1)), Err(AttachError::LevelMismatch));
    assert_consistent(&tree, &[1, 2]);
}

#[test]
fn ancestors_are_found_by_walking_up() {
    let mut tree = nesting_tree();
    for value in 1..=4 {
        tree.insert(parent_node(value));
    }
    tree.attach_child(id(1), id(2)).unwrap();
    tree.attach_child(id(2), id(3)).unwrap();
    assert!(tree.is_ancestor_or_self(id(1), id(3)));
    assert!(tree.is_ancestor_or_self(id(2), id(3)));
    assert!(tree.is_ancestor_or_self(id(3), id(3)));
    assert!(tree.is_ancestor_or_self(id(1), id(1)));
    assert!(!tree.is_ancestor_or_self(id(3), id(1)));
    assert!(!tree.is_ancestor_or_self(id(3), id(2)));
    assert!(!tree.is_ancestor_or_self(id(4), id(3)));
    assert!(!tree.is_ancestor_or_self(id(1), id(4)));
    assert!(!tree.is_ancestor_or_self(id(1), id(9)));
    assert!(tree.is_ancestor_or_self(id(9), id(9)));
}

#[test]
fn attached_child_is_not_attached_again() {
    let mut tree = ConfigurationTree::new();
    tree.insert(parent_node(1));
    tree.insert(parent_node(2));
    tree.insert(child_node(3));
    tree.attach_child(id(1), id(3)).unwrap();
    assert_eq!(tree.attach_child(id(2), id(3)), Err(AttachError::AlreadyAttached));
    assert_eq!(tree.attach_child(id(1), id(3)), Err(AttachError::AlreadyAttached));
    assert_eq!(children(&tree, 1), vec![id(3)]);
    assert!(children(&tree, 2).is_empty());
    assert_eq!(parent_of(&tree, 3), Some(id(1)));
    assert_consistent(&tree, &[1, 2, 3]);
}

#[test]
fn deleted_node_is_never_attached_again() {
    let mut tree = ConfigurationTree::new();
    tree.insert(parent_node(1));
    tree.insert(child_node(2));
    assert_eq!(tree.attach_child(id(1), id(2)), Ok(()));
    tree.mark_deleted(id(2));
    assert!(tree.get(id(2)).unwrap().is_deleted);
    assert_eq!(parent_of(&tree, 2), None);
    assert!(children(&tree, 1).is_empty());
    assert_eq!(tree.attach_child(id(1), id(2)), Err(AttachError::NodeDeleted));
    assert!(children(&tree, 1).is_empty());
    assert_eq!(parent_of(&tree, 2), None);
    assert_consistent(&tree, &[1, 2]);
}

#[test]
fn deleted_node_stays_deleted_after_other_edits() {
    let mut tree = ConfigurationTree::new();
    tree.insert(parent_node(1));
    tree.insert(parent_node(4));
    tree.insert(child_node(2));
    tree.insert(child_node(3));
    tree.attach_child(id(1), id(2)).unwrap();
    tree.mark_deleted(id(2));
    tree.attach_child(id(1), id(3)).unwrap();
    tree.detach_child(id(1), id(3)).unwrap();
    assert!(tree.reparent(id(3), id(4)).is_ok());
    tree.insert(child_node(5));
    tree.mark_deleted(id(5));
    tree.set_label(id(2), "gone".to_string());
    assert!(tree.get(id(2)).unwrap().is_deleted);
    assert_eq!(tree.attach_child(id(1), id(2)), Err(AttachError::NodeDeleted));
    assert_eq!(tree.attach_child(id(4), id(2)), Err(AttachError::NodeDeleted));
    assert_eq!(tree.reparent(id(2), id(4)), Err((AttachError::NodeDeleted, id(2))));
}

#[test]
fn nothing_attaches_under_a_deleted_parent() {
    let mut tree = ConfigurationTree::new();
    tree.insert(parent_node(1));
    tree.insert(child_node(2));
    tree.mark_deleted(id(1));
    assert_eq!(tree.attach_child(id(1), id(2)), Err(AttachError::NodeDeleted));
    assert_eq!(parent_of(&tree, 2), None);
}

#[test]
fn mark_deleted_detaches_the_node_and_refreshes_the_flags() {
    let mut tree = ConfigurationTree::new();
    tree.insert(parent_node(1));
    for value in 2..=4 {
        tree.insert(child_node(value));
        tree.attach_child(id(1), id(value)).unwrap();
    }
    tree.mark_deleted(id(4));
    assert_eq!(children(&tree, 1), vec![id(2), id(3)]);
    assert_eq!(flags(&tree, 3), (false, true));
    assert_eq!(flags(&tree, 4), (false, false));
    assert!(tree.get(id(4)).unwrap().is_deleted);
    assert!(!tree.get(id(3)).unwrap().is_deleted);
    assert_consistent(&tree, &[1, 2, 3, 4]);
}

#[test]
fn mark_deleted_does_not_mark_the_descendants() {
    let mut tree = nesting_tree();
    for value in 1..=3 {
        tree.insert(parent_node(value));
    }
    tree.attach_child(id(1), id(2)).unwrap();
    tree.attach_child(id(2), id(3)).unwrap();
    tree.mark_deleted(id(2));
    assert!(tree.get(id(2)).unwrap().is_deleted);
    assert!(!tree.get(id(3)).unwrap().is_deleted);
    assert!(!tree.get(id(1)).unwrap().is_deleted);
    assert_eq!(children(&tree, 2), vec![id(3)]);
    assert_eq!(parent_of(&tree, 3), Some(id(2)));
    assert!(children(&tree, 1).is_empty());
    assert_consistent(&tree, &[1, 2, 3]);
}

#[test]
fn mark_deleted_of_an_unknown_node_changes_nothing() {
    let mut tree = ConfigurationTree::new();
    tree.insert(parent_node(1));
    tree.mark_deleted(id(9));
    assert_eq!(tree.len(), 1);
    assert!(!tree.get(id(1)).unwrap().is_deleted);
}

#[test]
fn mark_deleted_twice_is_mark_deleted_once() {
    let mut tree = ConfigurationTree::new();
    tree.insert(parent_node(1));
    tree.insert(child_node(2));
    tree.attach_child(id(1), id(2)).unwrap();
    tree.mark_deleted(id(2));
    tree.mark_deleted(id(2));
    assert!(tree.get(id(2)).unwrap().is_deleted);
    assert_eq!(parent_of(&tree, 2), None);
    assert!(children(&tree, 1).is_empty());
}

#[test]
fn two_children_attach_in_either_order() {
    for order in [[2u128, 3u128], [3u128, 2u128]] {
        let mut tree = ConfigurationTree::new();
        tree.insert(parent_node(1));
        tree.insert(child_node(2));
        tree.insert(child_node(3));
        assert_eq!(tree.attach_child(id(1), id(order[0])), Ok(()));
        assert_eq!(tree.attach_child(id(1), id(order[1])), Ok(()));
        assert_eq!(children(&tree, 1), vec![id(order[0]), id(order[1])]);
        assert_eq!(flags(&tree, order[0]), (true, false));
        assert_eq!(flags(&tree, order[1]), (false, true));
        assert_eq!(parent_of(&tree, 2), Some(id(1)));
        assert_eq!(parent_of(&tree, 3), Some(id(1)));
        assert_consistent(&tree, &[1, 2, 3]);
    }
}

#[test]
fn reparent_moves_a_child() {
    let mut tree = ConfigurationTree::new();
    tree.insert(parent_node(1));
    tree.insert(parent_node(2));
    for value in 3..=5 {
        tree.insert(child_node(value));
    }
    tree.attach_child(id(1), id(3)).unwrap();
    tree.attach_child(id(1), id(4)).unwrap();
    tree.attach_child(id(2), id(5)).unwrap();
    assert_eq!(tree.reparent(id(3), id(2)), Ok(()));
    assert_eq!(children(&tree, 1), vec![id(4)]);
    assert_eq!(children(&tree, 2), vec![id(5), id(3)]);
    assert_eq!(parent_of(&tree, 3), Some(id(2)));
    assert_eq!(flags(&tree, 4), (true, true));
    assert_eq!(flags(&tree, 5), (true, false));
    assert_eq!(flags(&tree, 3), (false, true));
    assert_consistent(&tree, &[1, 2, 3, 4, 5]);
}

#[test]
fn reparent_attaches_an_unattached_node() {
    let mut tree = ConfigurationTree::new();
    tree.insert(parent_node(1));
    tree.insert(child_node(2));
    assert_eq!(tree.reparent(id(2), id(1)), Ok(()));
    assert_eq!(children(&tree, 1), vec![id(2)]);
    assert_eq!(parent_of(&tree, 2), Some(id(1)));
}

#[test]
fn reparent_under_the_same_parent_moves_the_child_to_the_end() {
    let mut tree = ConfigurationTree::new();
    tree.insert(parent_node(1));
    for value in 2..=4 {
        tree.insert(child_node(value));
        tree.attach_child(id(1), id(value)).unwrap();
    }
    assert_eq!(tree.reparent(id(2), id(1)), Ok(()));
    assert_eq!(children(&tree, 1), vec![id(3), id(4), id(2)]);
    assert_consistent(&tree, &[1, 2, 3, 4]);
}

#[test]
fn failed_reparent_hands_the_child_back_detached() {
    let mut tree = ConfigurationTree::new();
    tree.insert(parent_node(1));
    tree.insert(node(2, ComponentLevel::Other));
    tree.insert(child_node(3).with_name("moved".to_string()));
    tree.attach_child(id(1), id(3)).unwrap();
    assert_eq!(tree.reparent(id(3), id(2)), Err((AttachError::LevelMismatch, id(3))));
    assert!(tree.contains(id(3)));
    assert_eq!(tree.get(id(3)).unwrap().name, "moved");
    assert_eq!(parent_of(&tree, 3), None);
    assert!(children(&tree, 1).is_empty());
    assert!(children(&tree, 2).is_empty());
    assert_consistent(&tree, &[1, 2, 3]);
    assert_eq!(tree.attach_child(id(1), id(3)), Ok(()));
    assert_eq!(children(&tree, 1), vec![id(3)]);
}

#[test]
fn reparent_under_a_descendant_is_a_cycle() {
    let mut tree = nesting_tree();
    for value in 1..=3 {
        tree.insert(parent_node(value));
    }
    tree.attach_child(id(1), id(2)).unwrap();
    tree.attach_child(id(2), id(3)).unwrap();
    assert_eq!(tree.reparent(id(2), id(3)), Err((AttachError::CycleDetected, id(2))));
    assert_eq!(parent_of(&tree, 2), None);
    assert_eq!(children(&tree, 2), vec![id(3)]);
    assert!(children(&tree, 1).is_empty());
    assert_consistent(&tree, &[1, 2, 3]);
}

#[test]
fn reparent_to_or_of_an_unknown_node_is_refused() {
    let mut tree = ConfigurationTree::new();
    tree.insert(parent_node(1));
    tree.insert(child_node(2));
    tree.attach_child(id(1), id(2)).unwrap();
    assert_eq!(tree.reparent(id(9), id(1)), Err((AttachError::UnknownNode, id(9))));
    assert_eq!(children(&tree, 1), vec![id(2)]);
    assert_eq!(tree.reparent(id(2), id(9)), Err((AttachError::UnknownNode, id(2))));
    assert_eq!(parent_of(&tree, 2), None);
    assert!(children(&tree, 1).is_empty());
}

#[test]
fn drop_of_a_new_node_adds_and_attaches_it() {
    let mut tree = ConfigurationTree::new();
    tree.insert(parent_node(1));
    assert_eq!(tree.on_drop(id(1), child_node(2).with_name("dropped".to_string())), Ok(()));
    assert_eq!(tree.len(), 2);
    assert_eq!(children(&tree, 1), vec![id(2)]);
    assert_eq!(parent_of(&tree, 2), Some(id(1)));
    assert_eq!(tree.get(id(2)).unwrap().name, "dropped");
    assert_eq!(flags(&tree, 2), (true, true));
    assert_eq!(tree.on_drop(id(1), child_node(3)), Ok(()));
    assert_eq!(children(&tree, 1), vec![id(2), id(3)]);
    assert_consistent(&tree, &[1, 2, 3]);
}

#[test]
fn refused_drop_leaves_the_tree_as_it_was() {
    let mut tree = ConfigurationTree::new();
    tree.insert(parent_node(1));
    tree.insert(child_node(4));
    assert_eq!(tree.on_drop(id(1), parent_node(2)), Err(AttachError::LevelMismatch));
    assert_eq!(
        tree.on_drop(id(1), node(2, ComponentLevel::Other)),
        Err(AttachError::LevelMismatch)
    );
    assert_eq!(tree.on_drop(id(4), child_node(2)), Err(AttachError::LevelMismatch));
    assert_eq!(tree.on_drop(id(9), child_node(2)), Err(AttachError::UnknownNode));
    assert_eq!(tree.on_drop(id(2), child_node(2)), Err(AttachError::UnknownNode));
    let mut deleted = child_node(2);
    deleted.is_deleted = true;
    assert_eq!(tree.on_drop(id(1), deleted), Err(AttachError::NodeDeleted));
    assert_eq!(tree.len(), 2);
    assert!(!tree.contains(id(2)));
    assert!(children(&tree, 1).is_empty());
}

#[test]
fn drop_of_a_held_node_attaches_the_node_of_the_tree() {
    let mut tree = ConfigurationTree::new();
    tree.insert(parent_node(1));
    tree.insert(child_node(2).with_name("held".to_string()));
    assert_eq!(tree.on_drop(id(1), child_node(2).with_name("copy".to_string())), Ok(()));
    assert_eq!(tree.len(), 2);
    assert_eq!(children(&tree, 1), vec![id(2)]);
    assert_eq!(tree.get(id(2)).unwrap().name, "held");
    assert_eq!(tree.on_drop(id(1), child_node(2)), Err(AttachError::AlreadyAttached));
    assert_eq!(children(&tree, 1), vec![id(2)]);
}

#[test]
fn drop_under_a_deleted_parent_is_refused() {
    let mut tree = ConfigurationTree::new();
    tree.insert(parent_node(1));
    tree.mark_deleted(id(1));
    assert_eq!(tree.on_drop(id(1), child_node(2)), Err(AttachError::NodeDeleted));
    assert!(!tree.contains(id(2)));
}

#[test]
fn field_edits_change_one_field() {
    let mut tree = ConfigurationTree::new();
    tree.insert(parent_node(1).with_name("root".to_string()));
    tree.insert(child_node(2));
    tree.attach_child(id(1), id(2)).unwrap();
    assert!(tree.set_label(id(2), "Second".to_string()));
    assert!(tree.set_expanded(id(2), true));
    assert!(tree.set_selected(id(1), true));
    let child = tree.get(id(2)).unwrap();
    assert_eq!(child.label, "Second");
    assert!(child.is_expanded);
    assert!(!child.is_selected);
    assert_eq!(child.parent, Some(id(1)));
    assert_eq!((child.is_first, child.is_last), (true, true));
    let root = tree.get(id(1)).unwrap();
    assert!(root.is_selected);
    assert!(!root.is_expanded);
    assert_eq!(root.label, "");
    assert_eq!(root.name, "root");
    assert_eq!(root.child_uuids, vec![id(2)]);
    assert!(tree.set_expanded(id(2), false));
    assert!(!tree.get(id(2)).unwrap().is_expanded);
    assert!(tree.set_selected(id(1), false));
    assert!(!tree.get(id(1)).unwrap().is_selected);
}

#[test]
fn field_edits_of_an_unknown_node_change_nothing() {
    let mut tree = ConfigurationTree::new();
    tree.insert(parent_node(1));
    assert!(!tree.set_label(id(9), "x".to_string()));
    assert!(!tree.set_expanded(id(9), true));
    assert!(!tree.set_selected(id(9), true));
    assert_eq!(tree.len(), 1);
    assert_eq!(tree.get(id(1)).unwrap().label, "");
}

#[test]
fn for_each_child_visits_the_children_in_order() {
    let mut tree = ConfigurationTree::new();
    tree.insert(parent_node(1));
    for (value, name) in [(2u128, "a"), (3, "b"), (4, "c")] {
        tree.insert(child_node(value).with_name(name.to_string()));
        tree.attach_child(id(1), id(value)).unwrap();
    }
    let names = tree.for_each_child(id(1), |child: &BaseConfiguration| child.name.clone());
    assert_eq!(names, vec!["a".to_string(), "b".to_string(), "c".to_string()]);
    let ids = tree.for_each_child(id(1), |child: &BaseConfiguration| child.uuid);
    assert_eq!(ids, vec![id(2), id(3), id(4)]);
    let none = tree.for_each_child(id(2), |child: &BaseConfiguration| child.uuid);
    assert!(none.is_empty());
    let unknown = tree.for_each_child(id(9), |child: &BaseConfiguration| child.uuid);
    assert!(unknown.is_empty());
}

#[test]
fn for_each_child_skips_what_was_deleted() {
    let mut tree = nesting_tree();
    for value in 1..=3 {
        tree.insert(parent_node(value));
    }
    tree.attach_child(id(1), id(2)).unwrap();
    tree.attach_child(id(2), id(3)).unwrap();
    tree.mark_deleted(id(2));
    let under_root = tree.for_each_child(id(1), |child: &BaseConfiguration| child.uuid);
    assert!(under_root.is_empty());
    let under_deleted = tree.for_each_child(id(2), |child: &BaseConfiguration| child.uuid);
    assert!(under_deleted.is_empty());
}

#[test]
fn flags_stay_consistent_through_a_long_run_of_edits() {
    let mut tree = ConfigurationTree::new();
    tree.insert(parent_node(1));
    tree.insert(parent_node(2));
    let all: Vec<u128> = (1..=12).collect();
    for value in 3..=12 {
        tree.insert(child_node(value));
    }
    let mut seed: u64 = 0x2545_f491_4f6c_dd1d;
    for _ in 0..400 {
        seed ^= seed << 13;
        seed ^= seed >> 7;
        seed ^= seed << 17;
        let parent = 1 + (seed % 2) as u128;
        let child = 3 + ((seed >> 8) % 10) as u128;
        match (seed >> 16) % 3 {
            0 => {
                let _ = tree.attach_child(id(parent), id(child));
            },
            1 => {
                let _ = tree.detach_child(id(parent), id(child));
            },
            _ => {
                let _ = tree.reparent(id(child), id(parent));
            },
        }
        assert_consistent(&tree, &all);
    }
}
