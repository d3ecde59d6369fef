//! The decoded tree as a whole: the node arena, its well-formedness, and
//! the read/write surface external builders consume.

use vstd::prelude::*;

use vstd::string::StringExecFns;

use crate::tree::node::{
    lemma_key_index_of_witness, lemma_key_index_props, spec_fresh_node, spec_key_index,
    spec_keys_unique, spec_map_contains, spec_map_get, spec_map_insert, DeviceTreeNode, NodeV,
};
use crate::tree::prop::{DeviceTreeProperty, NumCells, PropV};
use crate::utils::{dec_str, spec_dec};
use crate::{DeviceTree, DeviceTreeError};

verus! {

/// Whether child entry `j` of node `i` is sound: the index points forward
/// into the arena, and the child carries the entry's name and a parent
/// back-reference to the owning node.
pub open spec fn spec_child_ok(ns: Seq<NodeV>, i: int, j: int) -> bool {
    let c = ns[i].children[j].1 as int;
    &&& i < c < ns.len()
    &&& (ns[c].parent matches Some(p) && p as int == i)
    &&& ns[c].name == ns[i].children[j].0
}

/// Well-formedness of a node arena: a parentless root stands at index zero,
/// every parent back-reference points strictly backward, each node's name
/// mappings are uniquely keyed, and every child entry points forward at a
/// node bearing the entry's name and the owning node's index. The strict
/// index ordering rules out ownership cycles.
pub open spec fn spec_nodes_wf(ns: Seq<NodeV>) -> bool {
    &&& ns.len() >= 1
    &&& ns[0].parent is None
    &&& forall|i: int|
        0 <= i < ns.len() ==> ((#[trigger] ns[i].parent) matches Some(p) ==> (p as int) < i)
    &&& forall|i: int| 0 <= i < ns.len() ==> spec_keys_unique(#[trigger] ns[i].children)
    &&& forall|i: int| 0 <= i < ns.len() ==> spec_keys_unique(#[trigger] ns[i].props)
    &&& forall|i: int, j: int|
        0 <= i < ns.len() && 0 <= j < ns[i].children.len() ==> #[trigger] spec_child_ok(ns, i, j)
}

/// Where an insert writes: the key's position, or one past the end for a
/// fresh key.
pub open spec fn spec_key_index_or_end<V>(m: Seq<(Seq<char>, V)>, k: Seq<char>) -> int {
    if spec_map_contains(m, k) {
        spec_key_index(m, k)
    } else {
        m.len() as int
    }
}

/// What an insert does entry by entry: it writes `(k, v)` at the key's
/// position (or the end), leaves every other entry alone, and keeps the
/// list uniquely keyed.
pub proof fn lemma_map_insert_entries<V>(m: Seq<(Seq<char>, V)>, k: Seq<char>, v: V)
    requires
        spec_keys_unique(m),
    ensures
        spec_keys_unique(spec_map_insert(m, k, v)),
        spec_map_insert(m, k, v).len() == spec_key_index_or_end(m, k) + 1 || spec_map_insert(
            m,
            k,
            v,
        ).len() == m.len(),
        spec_map_insert(m, k, v) =~= if spec_map_contains(m, k) {
            m.update(spec_key_index_or_end(m, k), (k, v))
        } else {
            m.push((k, v))
        },
        forall|i: int|
            0 <= i < spec_map_insert(m, k, v).len() && i != spec_key_index_or_end(m, k)
                ==> spec_map_insert(m, k, v)[i] == m[i],
        spec_map_insert(m, k, v)[spec_key_index_or_end(m, k)] == (k, v),
{
    lemma_key_index_props(m, k);
    let out = spec_map_insert(m, k, v);
    let ki = spec_key_index_or_end(m, k);
    assert forall|i: int, j: int| 0 <= i < j < out.len() implies out[i].0 != out[j].0 by {
        if i != ki && j != ki {
            assert(out[i] == m[i] && out[j] == m[j]);
        } else if i == ki && j != ki {
            assert(out[j] == m[j]);
        } else if j == ki && i != ki {
            assert(out[i] == m[i]);
            if spec_map_contains(m, k) {
                assert(m[i].0 != k);
            }
        }
    }
}

/// The name of the CPU node with index `i`.
pub open spec fn spec_cpu_name(i: int) -> Seq<char> {
    "cpu@"@ + spec_dec(i)
}

/// The value of the first 32-bit property named `name` declared by a strict
/// ancestor of node `i` (the nearest ancestor wins), or `dflt` where no
/// ancestor declares one. A parent reference not pointing strictly backward
/// ends the walk at the default; a well-formed arena has none.
pub open spec fn spec_inherited_u32(ns: Seq<NodeV>, i: int, name: Seq<char>, dflt: u32) -> u32
    decreases i,
{
    if !(0 <= i < ns.len()) {
        dflt
    } else {
        match ns[i].parent {
            None => dflt,
            Some(p) => if p as int >= i {
                dflt
            } else {
                match spec_map_get(ns[p as int].props, name) {
                    Some(PropV::U32(v)) => v,
                    _ => spec_inherited_u32(ns, p as int, name, dflt),
                }
            },
        }
    }
}

/// An entry bearing a key shows the list holds that key.
pub proof fn lemma_contains_of_witness<V>(m: Seq<(Seq<char>, V)>, k: Seq<char>, i: int)
    requires
        0 <= i < m.len(),
        m[i].0 == k,
    ensures
        spec_map_contains(m, k),
    decreases m.len(),
{
    if m[0].0 != k {
        lemma_contains_of_witness(m.drop_first(), k, i - 1);
    }
}

/// After an insert, the inserted key is bound to the inserted value.
pub proof fn lemma_map_insert_get<V>(m: Seq<(Seq<char>, V)>, k: Seq<char>, v: V)
    requires
        spec_keys_unique(m),
    ensures
        spec_map_get(spec_map_insert(m, k, v), k) == Some(v),
{
    lemma_key_index_props(m, k);
    lemma_map_insert_entries(m, k, v);
    let out = spec_map_insert(m, k, v);
    let ki = spec_key_index_or_end(m, k);
    assert forall|j: int| 0 <= j < ki implies out[j].0 != k by {
        assert(out[j] == m[j]);
    }
    lemma_key_index_of_witness(out, k, ki);
}

/// An insert leaves every key's binding present: the inserted key is bound
/// anew, every other stays where it was.
pub proof fn lemma_map_insert_preserves<V>(
    m: Seq<(Seq<char>, V)>,
    k: Seq<char>,
    v: V,
    k2: Seq<char>,
)
    requires
        spec_keys_unique(m),
        spec_map_contains(m, k2),
    ensures
        spec_map_contains(spec_map_insert(m, k, v), k2),
{
    lemma_key_index_props(m, k2);
    lemma_key_index_props(m, k);
    lemma_map_insert_entries(m, k, v);
    let out = spec_map_insert(m, k, v);
    let ki = spec_key_index_or_end(m, k);
    if k2 == k {
        lemma_contains_of_witness(out, k2, ki);
    } else {
        let i = spec_key_index(m, k2);
        assert(out[i] == m[i]);
        lemma_contains_of_witness(out, k2, i);
    }
}

/// The arena after hanging leaf `child` under node `parent` with name
/// `name`: the child is appended at the end and the parent's child mapping
/// binds the name to the new index.
pub open spec fn spec_arena_add_child(
    ns: Seq<NodeV>,
    parent: usize,
    name: Seq<char>,
    child: NodeV,
) -> Seq<NodeV> {
    let idx = ns.len() as usize;
    let pn = ns[parent as int];
    ns.update(parent as int, NodeV { children: spec_map_insert(pn.children, name, idx), ..pn }).push(
        child,
    )
}

/// Hanging a well-formed leaf under an existing node keeps the arena
/// well-formed.
pub proof fn lemma_arena_add_child_wf(ns: Seq<NodeV>, parent: usize, name: Seq<char>, child: NodeV)
    requires
        spec_nodes_wf(ns),
        (parent as int) < ns.len(),
        ns.len() <= usize::MAX,
        child.name == name,
        child.parent == Some(parent),
        child.children.len() == 0,
        spec_keys_unique(child.props),
    ensures
        spec_nodes_wf(spec_arena_add_child(ns, parent, name, child)),
{
    let idx = ns.len() as usize;
    let p = parent as int;
    let pn = ns[p];
    lemma_key_index_props(pn.children, name);
    lemma_map_insert_entries(pn.children, name, idx);
    let ki = spec_key_index_or_end(pn.children, name);
    let out = spec_arena_add_child(ns, parent, name, child);
    assert(out.len() == ns.len() + 1);
    assert(out[0].parent is None);
    assert forall|i: int|
        0 <= i < out.len() implies ((#[trigger] out[i].parent) matches Some(q) ==> (q as int)
        < i) by {
        if i < ns.len() && i != p {
            assert(out[i] == ns[i]);
        } else if i == p {
            assert(out[i].parent == pn.parent);
        } else {
            assert(out[i] == child);
        }
    }
    assert forall|i: int| 0 <= i < out.len() implies spec_keys_unique(
        #[trigger] out[i].children,
    ) by {
        if i < ns.len() && i != p {
            assert(out[i] == ns[i]);
        } else if i == ns.len() {
            assert(out[i] == child);
        }
    }
    assert forall|i: int| 0 <= i < out.len() implies spec_keys_unique(#[trigger] out[i].props) by {
        if i < ns.len() && i != p {
            assert(out[i] == ns[i]);
        } else if i == p {
            assert(out[i].props == pn.props);
        } else {
            assert(out[i] == child);
        }
    }
    assert forall|i: int, j: int|
        0 <= i < out.len() && 0 <= j < out[i].children.len() implies #[trigger] spec_child_ok(
        out,
        i,
        j,
    ) by {
        if i == ns.len() {
            assert(out[i] == child);
        } else if i == p {
            assert(out[i] == (NodeV {
                children: spec_map_insert(pn.children, name, idx),
                ..pn
            }));
            if j == ki {
                assert(out[i].children[j] == (name, idx));
                assert(out[idx as int] == child);
            } else {
                if spec_map_contains(pn.children, name) {
                    let kidx = spec_key_index(pn.children, name);
                    assert(out[i].children == pn.children.update(kidx, (name, idx)));
                    assert(0 <= kidx < pn.children.len());
                    assert(out[i].children.len() == pn.children.len());
                } else {
                    assert(out[i].children == pn.children.push((name, idx)));
                    assert(ki == pn.children.len());
                }
                assert(j < pn.children.len());
                assert(out[i].children[j] == pn.children[j]);
                assert(spec_child_ok(ns, i, j));
                let c = ns[i].children[j].1 as int;
                if c != p {
                    assert(out[c] == ns[c]);
                } else {
                    assert(out[c].parent == ns[c].parent && out[c].name == ns[c].name);
                }
            }
        } else {
            assert(out[i] == ns[i]);
            assert(spec_child_ok(ns, i, j));
            let c = ns[i].children[j].1 as int;
            if c != p {
                assert(out[c] == ns[c]);
            } else {
                assert(out[c].parent == ns[c].parent && out[c].name == ns[c].name);
            }
        }
    }
}

/// The arena after rebinding node `at`'s property map.
pub open spec fn spec_arena_set_props(ns: Seq<NodeV>, at: int, props: Seq<(Seq<char>, PropV)>) -> Seq<
    NodeV,
> {
    ns.update(at, NodeV { props, ..ns[at] })
}

/// Rewriting one node's property map to any uniquely-keyed one keeps the
/// arena well-formed: well-formedness never looks at property values.
pub proof fn lemma_arena_set_props_wf(ns: Seq<NodeV>, at: int, props: Seq<(Seq<char>, PropV)>)
    requires
        spec_nodes_wf(ns),
        0 <= at < ns.len(),
        spec_keys_unique(props),
    ensures
        spec_nodes_wf(spec_arena_set_props(ns, at, props)),
{
    let out = spec_arena_set_props(ns, at, props);
    assert(out[0].parent is None);
    assert forall|i: int|
        0 <= i < out.len() implies ((#[trigger] out[i].parent) matches Some(q) ==> (q as int)
        < i) by {
        if i != at {
            assert(out[i] == ns[i]);
        } else {
            assert(out[i].parent == ns[i].parent);
        }
    }
    assert forall|i: int| 0 <= i < out.len() implies spec_keys_unique(
        #[trigger] out[i].children,
    ) by {
        if i != at {
            assert(out[i] == ns[i]);
        } else {
            assert(out[i].children == ns[i].children);
        }
    }
    assert forall|i: int| 0 <= i < out.len() implies spec_keys_unique(#[trigger] out[i].props) by {
        if i != at {
            assert(out[i] == ns[i]);
        }
    }
    assert forall|i: int, j: int|
        0 <= i < out.len() && 0 <= j < out[i].children.len() implies #[trigger] spec_child_ok(
        out,
        i,
        j,
    ) by {
        assert(out[i].children == ns[i].children);
        assert(spec_child_ok(ns, i, j));
        let c = ns[i].children[j].1 as int;
        assert(out[c].parent == ns[c].parent && out[c].name == ns[c].name);
    }
}

impl DeviceTree {
    /// Well-formedness of the tree's arena.
    pub open spec fn wf(&self) -> bool {
        spec_nodes_wf(self@)
    }

    /// A tree holding a single fresh, unnamed root.
    pub fn new_empty_root() -> (r: Self)
        ensures
            r@ =~= seq![spec_fresh_node(Seq::<char>::empty(), None::<usize>)],
            r.wf(),
    {
        let mut nodes: Vec<DeviceTreeNode> = Vec::new();
        nodes.push(DeviceTreeNode::new());
        let t = DeviceTree { nodes };
        proof {
            assert(t@ =~= seq![spec_fresh_node(Seq::<char>::empty(), None::<usize>)]);
        }
        t
    }

    /// A tree whose root is `root`, renamed "/" and made parentless.
    ///
    /// The root must come as a leaf with uniquely-keyed properties: child
    /// indices of a free-standing node would carry no meaning in this
    /// tree's arena.
    pub fn new(root: DeviceTreeNode) -> (r: Self)
        requires
            root@.children.len() == 0,
            spec_keys_unique(root@.props),
        ensures
            r@ =~= seq![
                NodeV { name: "/"@, parent: None::<usize>, ..root@ },
            ],
            r.wf(),
    {
        let mut root = root;
        root.set_name("/");
        root.parent = None;
        let mut nodes: Vec<DeviceTreeNode> = Vec::new();
        nodes.push(root);
        let t = DeviceTree { nodes };
        proof {
            assert(t@ =~= seq![NodeV { name: "/"@, parent: None::<usize>, ..t@[0] }]);
        }
        t
    }

    /// The handle of the root node.
    pub fn root(&self) -> (r: usize)
        ensures
            r == 0,
    {
        0
    }

    /// The node a handle addresses.
    pub fn node(&self, handle: usize) -> (r: &DeviceTreeNode)
        requires
            handle < self@.len(),
        ensures
            r@ == self@[handle as int],
    {
        &self.nodes[handle]
    }

    /// The number of nodes the arena holds.
    pub fn num_nodes(&self) -> (r: usize)
        ensures
            r == self@.len(),
    {
        self.nodes.len()
    }

    /// Hang `child` (a leaf) under the node `parent` addresses, binding it
    /// under `name`; returns the new node's handle. A child already bound
    /// under the name is replaced in the mapping.
    pub fn add_child(&mut self, parent: usize, name: &str, child: DeviceTreeNode) -> (r: usize)
        requires
            old(self).wf(),
            parent < old(self)@.len(),
            child@.children.len() == 0,
            spec_keys_unique(child@.props),
        ensures
            final(self)@ == spec_arena_add_child(
                old(self)@,
                parent,
                name@,
                NodeV { name: name@, parent: Some(parent), ..child@ },
            ),
            final(self).wf(),
            r == old(self)@.len(),
    {
        let ghost pre = self.nodes.deep_view();
        let idx = self.nodes.len();
        let mut child = child;
        child.set_name(name);
        child.set_parent(parent);
        let ghost cv = child@;
        self.nodes.push(child);
        let pn = &mut self.nodes[parent];
        pn.add_child_entry(name, idx);
        proof {
            let expected = spec_arena_add_child(pre, parent, name@, cv);
            assert(self.nodes.deep_view() =~= expected);
            lemma_arena_add_child_wf(pre, parent, name@, cv);
        }
        idx
    }

    /// Bind `value` under `name` on the node `handle` addresses; returns the
    /// overwritten value, if the node held one under that name.
    pub fn set_property(&mut self, handle: usize, name: &str, value: DeviceTreeProperty) -> (r:
        Option<DeviceTreeProperty>)
        requires
            old(self).wf(),
            handle < old(self)@.len(),
        ensures
            final(self)@ == spec_arena_set_props(
                old(self)@,
                handle as int,
                spec_map_insert(old(self)@[handle as int].props, name@, value@),
            ),
            final(self).wf(),
            r matches Some(p) ==> spec_map_get(old(self)@[handle as int].props, name@) == Some(p@),
            r is None ==> spec_map_get(old(self)@[handle as int].props, name@) is None,
    {
        let ghost pre = self.nodes.deep_view();
        let ghost gv = value@;
        let n = &mut self.nodes[handle];
        let r = n.add_prop(name, value);
        proof {
            assert(self.nodes.deep_view() =~= spec_arena_set_props(
                pre,
                handle as int,
                spec_map_insert(pre[handle as int].props, name@, gv),
            ));
            lemma_map_insert_entries(pre[handle as int].props, name@, gv);
            lemma_arena_set_props_wf(
                pre,
                handle as int,
                spec_map_insert(pre[handle as int].props, name@, gv),
            );
        }
        r
    }

    /// A fresh tree ready for building: a lone root named "/".
    pub fn init() -> (r: Result<Self, DeviceTreeError>)
        ensures
            r matches Ok(t) ==> (t.wf() && t@ =~= seq![spec_fresh_node("/"@, None::<usize>)]),
            r is Ok,
    {
        Ok(DeviceTree::new(DeviceTreeNode::new()))
    }

    /// Add `num` CPU nodes named cpu@0 .. cpu@(num-1) under a "cpus" node of
    /// the root, creating that node if the root has none; each CPU node
    /// carries a device_type of "cpu" and its index as reg.
    ///
    /// Fails with `CpuNumInvalid`, changing nothing, when `num` is zero.
    pub fn add_cpus(&mut self, num: usize) -> (r: Result<(), DeviceTreeError>)
        requires
            old(self).wf(),
        ensures
            num == 0 ==> (r == Err::<(), DeviceTreeError>(DeviceTreeError::CpuNumInvalid)
                && final(self)@ == old(self)@),
            num > 0 ==> (r == Ok::<(), DeviceTreeError>(()) && final(self).wf() && (
            match spec_map_get(final(self)@[0].children, "cpus"@) {
                Some(c) => (c as int) < final(self)@.len() && (forall|i: int|
                    0 <= i < num ==> spec_map_contains(
                        final(self)@[c as int].children,
                        #[trigger] spec_cpu_name(i),
                    )),
                None => false,
            })),
    {
        if num == 0 {
            return Err(DeviceTreeError::CpuNumInvalid);
        }
        let cpus = match self.node(0).find_child("cpus") {
            Some(c) => {
                proof {
                    lemma_key_index_props(self@[0].children, "cpus"@);
                    assert(spec_child_ok(self@, 0, spec_key_index(self@[0].children, "cpus"@)));
                }
                c
            },
            None => {
                let ghost pre = self@;
                let c = self.add_child(0, "cpus", DeviceTreeNode::new());
                proof {
                    lemma_map_insert_get(pre[0].children, "cpus"@, c);
                }
                c
            },
        };
        let mut i: usize = 0;
        while i < num
            invariant
                self.wf(),
                1 <= cpus,
                (cpus as int) < self@.len(),
                spec_map_get(self@[0].children, "cpus"@) == Some(cpus),
                i <= num,
                forall|j: int|
                    0 <= j < i ==> spec_map_contains(
                        self@[cpus as int].children,
                        #[trigger] spec_cpu_name(j),
                    ),
            decreases num - i,
        {
            let mut child = DeviceTreeNode::new();
            child.add_prop("device_type", DeviceTreeProperty::String("cpu".to_owned()));
            child.add_prop("reg", DeviceTreeProperty::U32(i as u32));
            proof {
                lemma_map_insert_entries(
                    Seq::<(Seq<char>, PropV)>::empty(),
                    "device_type"@,
                    PropV::Str("cpu"@),
                );
                lemma_map_insert_entries(
                    spec_map_insert(
                        Seq::<(Seq<char>, PropV)>::empty(),
                        "device_type"@,
                        PropV::Str("cpu"@),
                    ),
                    "reg"@,
                    PropV::U32(i as u32),
                );
            }
            let mut namebuf = "cpu@".to_owned();
            namebuf.append(dec_str(i as u64).as_str());
            proof {
                assert(namebuf@ == spec_cpu_name(i as int));
            }
            let ghost pre = self@;
            let ghost cv = NodeV { name: namebuf@, parent: Some(cpus), ..child@ };
            self.add_child(cpus, namebuf.as_str(), child);
            proof {
                assert(self@[0] == pre[0]);
                lemma_map_insert_get(pre[cpus as int].children, namebuf@, pre.len() as usize);
                assert forall|j: int| 0 <= j < i + 1 implies spec_map_contains(
                    self@[cpus as int].children,
                    #[trigger] spec_cpu_name(j),
                ) by {
                    if j < i {
                        lemma_map_insert_preserves(
                            pre[cpus as int].children,
                            namebuf@,
                            pre.len() as usize,
                            spec_cpu_name(j),
                        );
                    }
                }
            }
            i = i + 1;
        }
        Ok(())
    }

    /// The value of the first 32-bit property named `name` declared by an
    /// ancestor of node `handle` (the nearest ancestor wins), or `dflt`
    /// where no ancestor declares one.
    fn inherited_u32(&self, handle: usize, name: &str, dflt: u32) -> (r: u32)
        requires
            self.wf(),
            handle < self@.len(),
        ensures
            r == spec_inherited_u32(self@, handle as int, name@, dflt),
    {
        let mut cur = handle;
        loop
            invariant
                self.wf(),
                (cur as int) < self@.len(),
                spec_inherited_u32(self@, handle as int, name@, dflt) == spec_inherited_u32(
                    self@,
                    cur as int,
                    name@,
                    dflt,
                ),
            decreases cur,
        {
            let p = match self.nodes[cur].parent {
                None => {
                    return dflt;
                },
                Some(p) => p,
            };
            proof {
                assert(self@[cur as int].parent == Some(p));
            }
            match self.nodes[p].prop_value(name) {
                Some(prop) => match prop {
                    DeviceTreeProperty::U32(v) => {
                        return *v;
                    },
                    _ => {
                        cur = p;
                    },
                },
                None => {
                    cur = p;
                },
            }
        }
    }

    /// The effective cell counts governing node `handle`'s `reg` property:
    /// `#address-cells` and `#size-cells` as declared by the nearest
    /// ancestor declaring each, with the defaults two and one where none
    /// does.
    pub fn effective_num_cells(&self, handle: usize) -> (r: NumCells)
        requires
            self.wf(),
            handle < self@.len(),
        ensures
            r == (NumCells {
                address_cells: spec_inherited_u32(self@, handle as int, "#address-cells"@, 2),
                size_cells: spec_inherited_u32(self@, handle as int, "#size-cells"@, 1),
            }),
    {
        NumCells {
            address_cells: self.inherited_u32(handle, "#address-cells", 2),
            size_cells: self.inherited_u32(handle, "#size-cells", 1),
        }
    }

    /// The number of children of the root's "cpus" node, or zero where the
    /// root has none.
    pub fn num_cpus(&self) -> (r: usize)
        requires
            self.wf(),
        ensures
            r == (match spec_map_get(self@[0].children, "cpus"@) {
                Some(c) => self@[c as int].children.len(),
                None => 0nat,
            }),
    {
        let root = &self.nodes[0];
        match root.find_child("cpus") {
            Some(c) => {
                proof {
                    lemma_key_index_props(self@[0].children, "cpus"@);
                    assert(spec_child_ok(self@, 0, spec_key_index(self@[0].children, "cpus"@)));
                }
                self.nodes[c].num_children()
            },
            None => 0,
        }
    }

    /// Whether the root has a child named "cpus".
    pub fn has_cpus(&self) -> (r: bool)
        requires
            self.wf(),
        ensures
            r == spec_map_contains(self@[0].children, "cpus"@),
    {
        let root = &self.nodes[0];
        match root.find_child("cpus") {
            Some(_) => true,
            None => false,
        }
    }
}

} // verus!
