//! Node-level behaviour: parent links, child mappings, and the property
//! map with its insert/overwrite/remove semantics.

use device_tree::tree::node::DeviceTreeNode;
use device_tree::tree::prop::DeviceTreeProperty;
use device_tree::DeviceTree;

#[test]
fn tests_set_parent() {
    let mut tree = DeviceTree::new_empty_root();
    let parent = tree.root();
    let child = tree.add_child(parent, "child", DeviceTreeNode::new());
    assert_eq!(tree.node(child).parent(), Some(parent));
}

#[test]
fn node_set_parent() {
    let mut child = DeviceTreeNode::new();
    assert!(!child.has_parent());
    child.set_parent(0);
    assert_eq!(child.parent(), Some(0));
    assert!(child.has_parent());
}

#[test]
fn tests_add_child() {
    let mut root = DeviceTreeNode::new();
    root.set_label("parent");
    let mut tree = DeviceTree::new(root);
    let mut child = DeviceTreeNode::new();
    child.set_label("child");
    let handle = tree.add_child(tree.root(), "child", child);
    let parent_of_child = tree.node(handle).parent().unwrap();
    assert_eq!(tree.node(parent_of_child).label(), Some(&"parent".to_string()));
    let found = tree.node(tree.root()).find_child("child").unwrap();
    assert_eq!(tree.node(found).label(), Some(&"child".to_string()));
}

#[test]
fn node_add_child() {
    let mut root = DeviceTreeNode::new();
    root.set_label("parent");
    let mut tree = DeviceTree::new(root);
    let mut child = DeviceTreeNode::new();
    child.set_label("child");
    let handle = tree.add_child(tree.root(), "child", child);
    assert_eq!(tree.node(handle).name(), "child");
    let parent_of_child = tree.node(handle).parent().unwrap();
    assert_eq!(tree.node(parent_of_child).label(), Some(&"parent".to_string()));
    assert!(tree.node(tree.root()).child_exists("child"));
    assert_eq!(tree.node(tree.root()).num_children(), 1);
}

#[test]
fn tests_add_prop() {
    let mut node = DeviceTreeNode::new();
    assert_eq!(
        node.add_prop("name", DeviceTreeProperty::String("old".to_string())),
        None
    );
    assert_eq!(node.prop_exists("name"), true);
    assert_eq!(
        node.add_prop("name", DeviceTreeProperty::String("new".to_string())),
        Some(DeviceTreeProperty::String("old".to_string()))
    );
    assert_eq!(
        node.prop_value("name"),
        Some(&DeviceTreeProperty::String("new".to_string()))
    );
}

#[test]
fn node_add_prop() {
    let mut node = DeviceTreeNode::new();
    let prop = DeviceTreeProperty::from_bytes("name", "value".as_bytes()).unwrap();
    assert_eq!(node.add_prop("name", prop), None);
    assert_eq!(node.prop_exists("name"), true);
}

#[test]
fn tests_delete_prop() {
    let mut node = DeviceTreeNode::new();
    node.add_prop("name", DeviceTreeProperty::Empty);
    assert_eq!(node.prop_exists("name"), true);
    node.remove_prop("name");
    assert_eq!(node.prop_exists("name"), false);
}

#[test]
fn node_delete_prop() {
    let mut node = DeviceTreeNode::new();
    let prop = DeviceTreeProperty::from_bytes("name", "value".as_bytes()).unwrap();
    node.add_prop("name", prop);
    assert_eq!(node.prop_exists("name"), true);
    let removed = node.remove_prop("name").unwrap();
    assert_eq!(removed.0, "name".to_string());
    assert_eq!(node.prop_exists("name"), false);
    assert_eq!(node.remove_prop("name"), None);
}

#[test]
fn node_iteration_order() {
    let mut node = DeviceTreeNode::new();
    node.add_prop("alpha", DeviceTreeProperty::U32(1));
    node.add_prop("beta", DeviceTreeProperty::U32(2));
    node.add_prop("alpha", DeviceTreeProperty::U32(3));
    let props = node.prop_iter();
    assert_eq!(props.len(), 2);
    assert_eq!(props[0], ("alpha".to_string(), DeviceTreeProperty::U32(3)));
    assert_eq!(props[1], ("beta".to_string(), DeviceTreeProperty::U32(2)));
}

#[test]
fn node_names_and_cells() {
    let mut node = DeviceTreeNode::new();
    assert_eq!(node.name(), "");
    node.set_name("serial@10000000");
    assert_eq!(node.name(), "serial@10000000");
    node.set_numcells(2, 2);
    node.set_addr_cells(1);
    node.set_size_cells(0);
    assert_eq!(node.num_cells.address_cells, 1);
    assert_eq!(node.num_cells.size_cells, 0);
}

#[test]
fn child_replaced_under_same_name() {
    let mut tree = DeviceTree::new_empty_root();
    let root = tree.root();
    let first = tree.add_child(root, "uart", DeviceTreeNode::new());
    let second = tree.add_child(root, "uart", DeviceTreeNode::new());
    assert_ne!(first, second);
    assert_eq!(tree.node(root).num_children(), 1);
    assert_eq!(tree.node(root).find_child("uart"), Some(second));
}

#[test]
fn tree_set_property() {
    let mut tree = DeviceTree::new_empty_root();
    let root = tree.root();
    assert_eq!(
        tree.set_property(root, "status", DeviceTreeProperty::String("okay".to_string())),
        None
    );
    assert_eq!(
        tree.node(root).prop_value("status"),
        Some(&DeviceTreeProperty::String("okay".to_string()))
    );
    let old = tree.set_property(root, "status", DeviceTreeProperty::String("disabled".to_string()));
    assert_eq!(old, Some(DeviceTreeProperty::String("okay".to_string())));
}
