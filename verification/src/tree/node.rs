//! Nodes of a decoded devicetree.
//!
//! Nodes live in an arena owned by the tree and address one another by
//! stable indices: each node holds an optional parent index and ordered,
//! uniquely-keyed name-to-index and name-to-property mappings, so ownership
//! flows strictly from the arena while the parent relation stays a plain
//! back-reference.

use vstd::prelude::*;

use crate::tree::prop::{DeviceTreeProperty, NumCells, PropV};
use crate::utils::str_eq;

verus! {

/// The first position holding key `k` in an association list, or `-1`.
pub open spec fn spec_key_index<V>(m: Seq<(Seq<char>, V)>, k: Seq<char>) -> int
    decreases m.len(),
{
    if m.len() == 0 {
        -1
    } else if m[0].0 == k {
        0
    } else {
        let r = spec_key_index(m.drop_first(), k);
        if r < 0 {
            -1
        } else {
            r + 1
        }
    }
}

/// Whether an association list holds key `k`.
pub open spec fn spec_map_contains<V>(m: Seq<(Seq<char>, V)>, k: Seq<char>) -> bool {
    spec_key_index(m, k) >= 0
}

/// The value under key `k`, if the list holds it.
pub open spec fn spec_map_get<V>(m: Seq<(Seq<char>, V)>, k: Seq<char>) -> Option<V> {
    if spec_map_contains(m, k) {
        Some(m[spec_key_index(m, k)].1)
    } else {
        None
    }
}

/// The list with `v` bound under `k`: an existing binding is overwritten in
/// place, a new one appended, so insertion order is kept.
pub open spec fn spec_map_insert<V>(m: Seq<(Seq<char>, V)>, k: Seq<char>, v: V) -> Seq<
    (Seq<char>, V),
> {
    if spec_map_contains(m, k) {
        m.update(spec_key_index(m, k), (k, v))
    } else {
        m.push((k, v))
    }
}

/// The list without the binding under `k`, if one was held.
pub open spec fn spec_map_remove<V>(m: Seq<(Seq<char>, V)>, k: Seq<char>) -> Seq<(Seq<char>, V)> {
    if spec_map_contains(m, k) {
        m.remove(spec_key_index(m, k))
    } else {
        m
    }
}

/// Whether no two entries of the list share a key.
pub open spec fn spec_keys_unique<V>(m: Seq<(Seq<char>, V)>) -> bool {
    forall|i: int, j: int| 0 <= i < j < m.len() ==> m[i].0 != m[j].0
}

/// What `spec_key_index` finds: a position bearing the key with none before
/// it, or the guarantee that no position bears it.
pub proof fn lemma_key_index_props<V>(m: Seq<(Seq<char>, V)>, k: Seq<char>)
    ensures
        spec_key_index(m, k) < 0 ==> forall|i: int| 0 <= i < m.len() ==> m[i].0 != k,
        spec_key_index(m, k) >= 0 ==> (spec_key_index(m, k) < m.len() && m[spec_key_index(m, k)].0
            == k && forall|i: int| 0 <= i < spec_key_index(m, k) ==> m[i].0 != k),
    decreases m.len(),
{
    if m.len() > 0 && m[0].0 != k {
        let d = m.drop_first();
        let r = spec_key_index(d, k);
        lemma_key_index_props(d, k);
        if r < 0 {
            assert forall|i: int| 0 <= i < m.len() implies m[i].0 != k by {
                if i > 0 {
                    assert(d[i - 1] == m[i]);
                }
            }
        } else {
            assert(m[r + 1] == d[r]);
            assert forall|i: int| 0 <= i < r + 1 implies m[i].0 != k by {
                if i > 0 {
                    assert(d[i - 1] == m[i]);
                }
            }
        }
    }
}

/// A found key stands where the search says: the position of `k` is `i`
/// exactly when `m[i]` bears `k` and no earlier entry does.
pub proof fn lemma_key_index_of_witness<V>(m: Seq<(Seq<char>, V)>, k: Seq<char>, i: int)
    requires
        0 <= i < m.len(),
        m[i].0 == k,
        forall|j: int| 0 <= j < i ==> m[j].0 != k,
    ensures
        spec_key_index(m, k) == i,
    decreases m.len(),
{
    if i > 0 {
        lemma_key_index_of_witness(m.drop_first(), k, i - 1);
    }
}

/// A node of a devicetree.
#[derive(Debug, PartialEq)]
pub struct DeviceTreeNode {
    /// The node's name; the root is conventionally named "/".
    pub name: String,
    /// An optional label.
    pub label: Option<String>,
    /// The arena index of the parent; absent for the root and for nodes not
    /// yet hung into a tree.
    pub parent: Option<usize>,
    /// Ordered name-to-arena-index mapping of the children; keys are unique.
    pub children: Vec<(String, usize)>,
    /// Ordered name-to-value mapping of the properties; keys are unique and
    /// the last write under a key wins.
    pub properties: Vec<(String, DeviceTreeProperty)>,
    /// The declared address/size cell counts; defaults two and one.
    pub num_cells: NumCells,
}

/// The mathematical content of a node.
pub ghost struct NodeV {
    pub name: Seq<char>,
    pub label: Option<Seq<char>>,
    pub parent: Option<usize>,
    pub children: Seq<(Seq<char>, usize)>,
    pub props: Seq<(Seq<char>, PropV)>,
    pub num_cells: NumCells,
}

impl DeepView for DeviceTreeProperty {
    type V = PropV;

    open spec fn deep_view(&self) -> PropV {
        self.view()
    }
}

impl DeepView for DeviceTreeNode {
    type V = NodeV;

    open spec fn deep_view(&self) -> NodeV {
        self.view()
    }
}

impl View for DeviceTreeNode {
    type V = NodeV;

    open spec fn view(&self) -> NodeV {
        NodeV {
            name: self.name@,
            label: self.label.deep_view(),
            parent: self.parent,
            children: self.children.deep_view(),
            props: self.properties.deep_view(),
            num_cells: self.num_cells,
        }
    }
}

/// A fresh node: named `name`, under `parent`, with no label, children or
/// properties, and the default cell counts.
pub open spec fn spec_fresh_node(name: Seq<char>, parent: Option<usize>) -> NodeV {
    NodeV {
        name: name,
        label: None,
        parent: parent,
        children: Seq::empty(),
        props: Seq::empty(),
        num_cells: NumCells { address_cells: 2u32, size_cells: 1u32 },
    }
}

/// The first position of `m` whose key holds the characters of `k`, if any.
fn key_index<T: DeepView>(m: &Vec<(String, T)>, k: &str) -> (r: Option<usize>)
    ensures
        r matches Some(i) ==> (i < m@.len() && i as int == spec_key_index(m.deep_view(), k@)),
        r is None ==> spec_key_index(m.deep_view(), k@) < 0,
{
    let n = m.len();
    let mut i: usize = 0;
    while i < n
        invariant
            n == m@.len(),
            i <= n,
            forall|j: int| 0 <= j < i ==> m.deep_view()[j].0 != k@,
        decreases n - i,
    {
        if str_eq(m[i].0.as_str(), k) {
            proof {
                lemma_key_index_of_witness(m.deep_view(), k@, i as int);
            }
            return Some(i);
        }
        i = i + 1;
    }
    proof {
        lemma_key_index_props(m.deep_view(), k@);
    }
    None
}

impl DeviceTreeNode {
    /// A fresh, unnamed, parentless node with no children or properties and
    /// the default cell counts.
    pub fn new() -> (r: Self)
        ensures
            r@ == (NodeV {
                name: Seq::<char>::empty(),
                label: None::<Seq<char>>,
                parent: None::<usize>,
                children: Seq::<(Seq<char>, usize)>::empty(),
                props: Seq::<(Seq<char>, PropV)>::empty(),
                num_cells: NumCells { address_cells: 2u32, size_cells: 1u32 },
            }),
    {
        let r = DeviceTreeNode {
            name: String::new(),
            label: None,
            parent: None,
            children: Vec::new(),
            properties: Vec::new(),
            num_cells: NumCells::new(),
        };
        proof {
            assert(r@.children =~= Seq::<(Seq<char>, usize)>::empty());
            assert(r@.props =~= Seq::<(Seq<char>, PropV)>::empty());
        }
        r
    }

    /// The node's name.
    pub fn name(&self) -> (r: &str)
        ensures
            r@ == self@.name,
    {
        self.name.as_str()
    }

    /// Rename the node.
    pub fn set_name(&mut self, name: &str)
        ensures
            final(self)@ == (NodeV { name: name@, ..old(self)@ }),
    {
        self.name = name.to_owned();
    }

    /// The node's label, if set.
    pub fn label(&self) -> (r: Option<&String>)
        ensures
            r matches Some(l) ==> self@.label == Some(l@),
            r is None ==> self@.label is None,
    {
        self.label.as_ref()
    }

    /// Set the node's label.
    pub fn set_label(&mut self, label: &str)
        ensures
            final(self)@ == (NodeV { label: Some(label@), ..old(self)@ }),
    {
        self.label = Some(label.to_owned());
    }

    /// The arena index of the parent, absent for the root.
    pub fn parent(&self) -> (r: Option<usize>)
        ensures
            r == self@.parent,
    {
        self.parent
    }

    /// Point the back-reference at the parent's arena index.
    pub fn set_parent(&mut self, parent: usize)
        ensures
            final(self)@ == (NodeV { parent: Some(parent), ..old(self)@ }),
    {
        self.parent = Some(parent);
    }

    /// Whether the node has a parent.
    pub fn has_parent(&self) -> (r: bool)
        ensures
            r == (self@.parent is Some),
    {
        self.parent.is_some()
    }

    /// The ordered name-to-index entries of the children.
    pub fn children_iter(&self) -> (r: &Vec<(String, usize)>)
        ensures
            r.deep_view() == self@.children,
    {
        &self.children
    }

    /// The arena index of the child named `name`, if one exists.
    pub fn find_child(&self, name: &str) -> (r: Option<usize>)
        ensures
            r == spec_map_get(self@.children, name@),
    {
        proof {
            lemma_key_index_props(self@.children, name@);
        }
        match key_index(&self.children, name) {
            Some(i) => Some(self.children[i].1),
            None => None,
        }
    }

    /// Whether a child named `name` exists.
    pub fn child_exists(&self, name: &str) -> (r: bool)
        ensures
            r == spec_map_contains(self@.children, name@),
    {
        match key_index(&self.children, name) {
            Some(_) => true,
            None => false,
        }
    }

    /// The number of children.
    pub fn num_children(&self) -> (r: usize)
        ensures
            r == self@.children.len(),
    {
        self.children.len()
    }

    /// The value of the property named `name`, if the node holds one.
    pub fn prop_value(&self, name: &str) -> (r: Option<&DeviceTreeProperty>)
        ensures
            r matches Some(p) ==> spec_map_get(self@.props, name@) == Some(p@),
            r is None ==> spec_map_get(self@.props, name@) is None,
    {
        proof {
            lemma_key_index_props(self@.props, name@);
        }
        match key_index(&self.properties, name) {
            Some(i) => Some(&self.properties[i].1),
            None => None,
        }
    }

    /// The ordered name-to-value entries of the properties.
    pub fn prop_iter(&self) -> (r: &Vec<(String, DeviceTreeProperty)>)
        ensures
            r.deep_view() == self@.props,
    {
        &self.properties
    }

    /// Whether a property named `name` exists.
    pub fn prop_exists(&self, name: &str) -> (r: bool)
        ensures
            r == spec_map_contains(self@.props, name@),
    {
        match key_index(&self.properties, name) {
            Some(_) => true,
            None => false,
        }
    }

    /// Bind `prop` under `name` in the node's property map.
    ///
    /// If the map did not hold the name, `None` is returned; if it did, the
    /// value is overwritten in place and the old value is returned.
    pub fn add_prop(&mut self, name: &str, prop: DeviceTreeProperty) -> (r: Option<
        DeviceTreeProperty,
    >)
        ensures
            final(self)@ == (NodeV {
                props: spec_map_insert(old(self)@.props, name@, prop@),
                ..old(self)@
            }),
            r matches Some(p) ==> spec_map_get(old(self)@.props, name@) == Some(p@),
            r is None ==> spec_map_get(old(self)@.props, name@) is None,
    {
        let ghost gprop = prop@;
        let ghost pre = self.properties.deep_view();
        proof {
            lemma_key_index_props(pre, name@);
        }
        match key_index(&self.properties, name) {
            Some(i) => {
                let mut pair = (name.to_owned(), prop);
                let slot = &mut self.properties[i];
                core::mem::swap(slot, &mut pair);
                proof {
                    assert(self.properties.deep_view() =~= pre.update(
                        i as int,
                        (name@, gprop),
                    ));
                }
                Some(pair.1)
            },
            None => {
                self.properties.push((name.to_owned(), prop));
                proof {
                    assert(self.properties.deep_view() =~= pre.push((name@, gprop)));
                }
                None
            },
        }
    }

    /// Bind arena index `idx` under `name` in the node's child map.
    ///
    /// If the map did not hold the name, `None` is returned; if it did, the
    /// index is overwritten in place and the old index is returned.
    pub(crate) fn add_child_entry(&mut self, name: &str, idx: usize) -> (r: Option<usize>)
        ensures
            final(self)@ == (NodeV {
                children: spec_map_insert(old(self)@.children, name@, idx),
                ..old(self)@
            }),
            r matches Some(c) ==> spec_map_get(old(self)@.children, name@) == Some(c),
            r is None ==> spec_map_get(old(self)@.children, name@) is None,
    {
        let ghost pre = self.children.deep_view();
        proof {
            lemma_key_index_props(pre, name@);
        }
        match key_index(&self.children, name) {
            Some(i) => {
                let old_idx = self.children[i].1;
                let mut pair = (name.to_owned(), idx);
                let slot = &mut self.children[i];
                core::mem::swap(slot, &mut pair);
                proof {
                    assert(self.children.deep_view() =~= pre.update(i as int, (name@, idx)));
                }
                Some(old_idx)
            },
            None => {
                self.children.push((name.to_owned(), idx));
                proof {
                    assert(self.children.deep_view() =~= pre.push((name@, idx)));
                }
                None
            },
        }
    }

    /// Remove the property named `name`, returning the stored name and value
    /// if the map held one.
    pub fn remove_prop(&mut self, name: &str) -> (r: Option<(String, DeviceTreeProperty)>)
        ensures
            final(self)@ == (NodeV {
                props: spec_map_remove(old(self)@.props, name@),
                ..old(self)@
            }),
            r matches Some(pair) ==> (spec_map_get(old(self)@.props, name@) == Some(pair.1@)
                && pair.0@ == name@),
            r is None ==> spec_map_get(old(self)@.props, name@) is None,
    {
        let ghost pre = self.properties.deep_view();
        proof {
            lemma_key_index_props(pre, name@);
        }
        match key_index(&self.properties, name) {
            Some(i) => {
                let pair = self.properties.remove(i);
                proof {
                    assert(self.properties.deep_view() =~= pre.remove(i as int));
                }
                Some(pair)
            },
            None => None,
        }
    }

    /// Set both declared cell counts.
    pub fn set_numcells(&mut self, addr_cells: u32, size_cells: u32)
        ensures
            final(self)@ == (NodeV {
                num_cells: NumCells { address_cells: addr_cells, size_cells },
                ..old(self)@
            }),
    {
        self.num_cells.set(addr_cells, size_cells);
    }

    /// Set the declared address-cell count.
    pub fn set_addr_cells(&mut self, addr_cells: u32)
        ensures
            final(self)@ == (NodeV {
                num_cells: NumCells {
                    address_cells: addr_cells,
                    ..old(self)@.num_cells
                },
                ..old(self)@
            }),
    {
        self.num_cells.set_addr_cells(addr_cells);
    }

    /// Set the declared size-cell count.
    pub fn set_size_cells(&mut self, size_cells: u32)
        ensures
            final(self)@ == (NodeV {
                num_cells: NumCells { size_cells, ..old(self)@.num_cells },
                ..old(self)@
            }),
    {
        self.num_cells.set_size_cells(size_cells);
    }
}

} // verus!
