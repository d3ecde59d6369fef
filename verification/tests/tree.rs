//! Tree-level behaviour: construction, CPU queries, and the CPU-node
//! builder.

use device_tree::tree::node::DeviceTreeNode;
use device_tree::{DeviceTree, DeviceTreeError};

#[test]
fn cpus() {
    let mut tree = DeviceTree::init().expect("Failed by init device-tree!");
    assert!(tree.add_cpus(4).is_ok());
    let root = tree.root();
    let cpus = tree.node(root).find_child("cpus").unwrap();
    assert!(tree.node(cpus).child_exists("cpu@0"));
    assert!(tree.node(cpus).child_exists("cpu@1"));
    assert!(tree.node(cpus).child_exists("cpu@2"));
    assert!(tree.node(cpus).child_exists("cpu@3"));
}

#[test]
fn tests_tree() {
    let mut tree = DeviceTree::new_empty_root();
    let root = tree.root();
    let cpus = tree.add_child(root, "cpus", DeviceTreeNode::new());
    assert!(tree.has_cpus());
    tree.add_child(cpus, "cpu@0", DeviceTreeNode::new());
    assert_eq!(tree.num_cpus(), 1);
}

#[test]
fn tree_tree() {
    let mut tree = DeviceTree::new_empty_root();
    let root = tree.root();
    let cpus = tree.add_child(root, "cpus", DeviceTreeNode::new());
    assert!(tree.has_cpus());
    tree.add_child(cpus, "cpu@0", DeviceTreeNode::new());
    assert_eq!(tree.num_cpus(), 1);
}

#[test]
fn no_cpus() {
    let tree = DeviceTree::new_empty_root();
    assert!(!tree.has_cpus());
    assert_eq!(tree.num_cpus(), 0);
    assert_eq!(tree.num_nodes(), 1);
}

#[test]
fn add_zero_cpus_rejected() {
    let mut tree = DeviceTree::init().unwrap();
    assert_eq!(tree.add_cpus(0), Err(DeviceTreeError::CpuNumInvalid));
    assert!(!tree.has_cpus());
}

#[test]
fn cpu_nodes_describe_themselves() {
    let mut tree = DeviceTree::init().unwrap();
    tree.add_cpus(2).unwrap();
    let cpus = tree.node(tree.root()).find_child("cpus").unwrap();
    let cpu1 = tree.node(cpus).find_child("cpu@1").unwrap();
    let dt = tree.node(cpu1).prop_value("device_type").unwrap();
    assert_eq!(dt.string(), Ok("cpu".to_string()));
    let reg = tree.node(cpu1).prop_value("reg").unwrap();
    assert_eq!(reg.u32(), Ok(1));
}

#[test]
fn new_renames_root() {
    let mut root = DeviceTreeNode::new();
    root.set_name("whatever");
    let tree = DeviceTree::new(root);
    assert_eq!(tree.node(tree.root()).name(), "/");
    assert_eq!(tree.node(tree.root()).parent(), None);
}
