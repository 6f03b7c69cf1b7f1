//! The render graph: owns the named nodes, the slot-to-slot data edges and
//! the node-to-node ordering edges, validates construction, computes a
//! deterministic execution order (a topological sort with insertion-order
//! tie-break), and runs one frame by invoking every node in that order.

use vstd::prelude::*;

use bevy_ecs::world::World;

use crate::context::ResourceContext;
use crate::node::{lemma_live_preserved, slots_conform, slots_live, NodeKind, ReadoutSink};
use crate::resource::RenderResourceId;
use crate::slot::{ResourceSlotInfo, ResourceSlots};

verus! {

/// Why a graph construction call or a frame run was rejected.
#[derive(Clone, Copy, PartialEq, Eq, Structural, Debug)]
pub enum GraphError {
    /// `add_node` was given a name that is already taken.
    DuplicateNodeName,
    /// An edge named a node the graph does not contain.
    UnknownNode,
    /// A slot edge named a slot its node does not declare.
    UnknownSlot,
    /// A slot edge connects slots of different declared kinds.
    MismatchedSlotType,
    /// A slot edge targets an input slot that already has an inbound edge.
    SlotAlreadyOccupied,
    /// The edge set admits no execution order.
    CycleDetected,
}

/// A data-dependency edge: the resource in `output_node`'s output slot
/// `output_index` flows into `input_node`'s input slot `input_index`.
#[derive(Clone, Copy, PartialEq, Eq, Structural, Debug)]
pub struct SlotEdge {
    pub output_node: usize,
    pub output_index: usize,
    pub input_node: usize,
    pub input_index: usize,
}

/// An ordering-only edge: `output_node` must run before `input_node`.
#[derive(Clone, Copy, PartialEq, Eq, Structural, Debug)]
pub struct NodeEdge {
    pub output_node: usize,
    pub input_node: usize,
}

struct NodeEntry<S: ReadoutSink> {
    name: String,
    kind: NodeKind<S>,
    output_slots: ResourceSlots,
}

/// Index of the slot with this name in a declared slot-name list
/// (meaningful when the list contains it).
pub open spec fn slot_named(names: Seq<Seq<char>>, name: Seq<char>) -> int {
    choose|i: int| 0 <= i < names.len() && names[i] == name
}

fn find_slot(infos: &Vec<ResourceSlotInfo>, name: &str) -> (r: Option<usize>)
    ensures
        match r {
            Some(i) => i < infos@.len() && infos@[i as int].name@ == name@,
            None => forall|j: int| 0 <= j < infos@.len() ==> infos@[j].name@ != name@,
        },
{
    let key: String = name.to_owned();
    let n = infos.len();
    let mut i: usize = 0;
    while i < n
        invariant
            key@ == name@,
            n == infos@.len(),
            i <= n,
            forall|j: int| 0 <= j < i ==> infos@[j].name@ != name@,
        decreases n - i,
    {
        if infos[i].name == key {
            return Some(i);
        }
        i = i + 1;
    }
    None
}

/// A table of `n` unresolved slots.
pub open spec fn unresolved_slots(n: nat) -> Seq<Option<RenderResourceId>> {
    Seq::new(n, |i: int| None)
}

/// `order` lists the node index `v` somewhere.
pub open spec fn order_contains(order: Seq<usize>, v: int) -> bool {
    exists|i: int| 0 <= i < order.len() && order[i] == v
}

/// `order` lists the node index `v` before position `upto`.
pub open spec fn in_prefix(order: Seq<usize>, upto: int, v: int) -> bool {
    exists|i: int| 0 <= i < upto && i < order.len() && order[i] == v
}

/// A duplicate-free list of indices below `n` that lists every index below
/// `n` has at least `n` entries.
proof fn lemma_perm_covers(order: Seq<usize>, n: int)
    requires
        n >= 0,
        forall|i: int| 0 <= i < order.len() ==> (#[trigger] order[i]) < n,
        forall|i: int, j: int|
            0 <= i < order.len() && 0 <= j < order.len() && i != j ==> order[i] != order[j],
        forall|v: int| 0 <= v < n ==> #[trigger] order_contains(order, v),
    ensures
        order.len() >= n,
{
    broadcast use vstd::seq_lib::seq_to_set_is_finite;

    let oi = Seq::new(order.len(), |i: int| order[i] as int);
    assert(oi.no_duplicates());
    oi.unique_seq_to_set();
    assert(vstd::set_lib::set_int_range(0, n).subset_of(oi.to_set())) by {
        assert forall|v: int|
            vstd::set_lib::set_int_range(0, n).contains(v) implies oi.to_set().contains(v) by {
            assert(order_contains(order, v));
            let i = choose|i: int| 0 <= i < order.len() && order[i] == v;
            assert(oi[i] == v);
            assert(oi.contains(v));
        }
    }
    vstd::set_lib::lemma_int_range(0, n);
    vstd::set_lib::lemma_len_subset(vstd::set_lib::set_int_range(0, n), oi.to_set());
}

/// A duplicate-free list of `n` indices below `n` lists every one of them.
proof fn lemma_missing_value(order: Seq<usize>, n: int, v: int)
    requires
        order.len() == n,
        0 <= v < n,
        forall|i: int| 0 <= i < order.len() ==> (#[trigger] order[i]) < n,
        forall|i: int, j: int|
            0 <= i < order.len() && 0 <= j < order.len() && i != j ==> order[i] != order[j],
    ensures
        order_contains(order, v),
{
    if !order_contains(order, v) {
        lemma_absent_value_impossible(order, n, v);
    }
}

/// The contradiction behind the pigeonhole: `n` distinct entries cannot all
/// avoid `v` while staying below `n`.
proof fn lemma_absent_value_impossible(order: Seq<usize>, n: int, v: int)
    requires
        order.len() == n,
        0 <= v < n,
        forall|i: int| 0 <= i < order.len() ==> (#[trigger] order[i]) < n,
        forall|i: int, j: int|
            0 <= i < order.len() && 0 <= j < order.len() && i != j ==> order[i] != order[j],
        !order_contains(order, v),
    ensures
        order_contains(order, v),
{
    broadcast use vstd::seq_lib::seq_to_set_is_finite;

    let oi = Seq::new(order.len(), |i: int| order[i] as int);
    assert(oi.no_duplicates());
    oi.unique_seq_to_set();
    let target = vstd::set_lib::set_int_range(0, n).remove(v);
    assert(oi.to_set().subset_of(target)) by {
        assert forall|x: int| oi.to_set().contains(x) implies target.contains(x) by {
            let i = choose|i: int| 0 <= i < oi.len() && oi[i] == x;
            assert(order[i] == x);
            if x == v {
                assert(order_contains(order, v));
            }
        }
    }
    vstd::set_lib::lemma_int_range(0, n);
    vstd::set_lib::lemma_len_subset(oi.to_set(), target);
    assert(n <= target.len());
    assert(target.len() <= n - 1) by {
        assert(vstd::set_lib::set_int_range(0, n).contains(v));
    }
    assert(false);
}

/// Appending to an order leaves membership of its strict prefixes alone.
proof fn lemma_prefix_push(order: Seq<usize>, c: usize, upto: int, v: int)
    requires
        0 <= upto <= order.len(),
    ensures
        in_prefix(order.push(c), upto, v) == in_prefix(order, upto, v),
{
    if in_prefix(order.push(c), upto, v) {
        let s = choose|s: int|
            0 <= s < upto && s < order.push(c).len() && order.push(c)[s] == v;
        assert(order[s] == v);
        assert(in_prefix(order, upto, v));
    }
    if in_prefix(order, upto, v) {
        let s = choose|s: int| 0 <= s < upto && s < order.len() && order[s] == v;
        assert(order.push(c)[s] == v);
        assert(in_prefix(order.push(c), upto, v));
    }
}

proof fn lemma_submap_trans<K, V>(a: Map<K, V>, b: Map<K, V>, c: Map<K, V>)
    requires
        a.submap_of(b),
        b.submap_of(c),
    ensures
        a.submap_of(c),
{
    assert forall|k: K| #[trigger]
        a.dom().contains(k) implies c.dom().contains(k) && a[k] == c[k] by {
        assert(b.dom().contains(k));
    }
}

/// The directed graph of processing nodes for one rendering pipeline.
pub struct RenderGraph<S: ReadoutSink> {
    nodes: Vec<NodeEntry<S>>,
    slot_edges: Vec<SlotEdge>,
    node_edges: Vec<NodeEdge>,
}

impl<S: ReadoutSink> RenderGraph<S> {
    /// Number of nodes, in insertion order.
    pub closed spec fn node_count(self) -> nat {
        self.nodes@.len()
    }

    /// The node names, in insertion order.
    pub closed spec fn node_names(self) -> Seq<Seq<char>> {
        self.nodes@.map(|i: int, e: NodeEntry<S>| e.name@)
    }

    /// The nodes themselves, in insertion order.
    pub closed spec fn kinds(self) -> Seq<NodeKind<S>> {
        self.nodes@.map(|i: int, e: NodeEntry<S>| e.kind)
    }

    /// Each node's persisted output slot table.
    pub closed spec fn outputs(self) -> Seq<Seq<Option<RenderResourceId>>> {
        self.nodes@.map(|i: int, e: NodeEntry<S>| e.output_slots@)
    }

    /// The slot edges, in insertion order.
    pub closed spec fn slot_edge_seq(self) -> Seq<SlotEdge> {
        self.slot_edges@
    }

    /// The node edges, in insertion order.
    pub closed spec fn node_edge_seq(self) -> Seq<NodeEdge> {
        self.node_edges@
    }

    /// Some declared edge — of either relation — runs from node `u` to `v`.
    pub open spec fn has_edge(self, u: int, v: int) -> bool {
        ||| exists|k: int|
            0 <= k < self.slot_edge_seq().len() && (#[trigger] self.slot_edge_seq()[k]).output_node
                == u && self.slot_edge_seq()[k].input_node == v
        ||| exists|k: int|
            0 <= k < self.node_edge_seq().len() && (#[trigger] self.node_edge_seq()[k]).output_node
                == u && self.node_edge_seq()[k].input_node == v
    }

    /// A graph is contained in a stuck state: a nonempty set of nodes each of
    /// which waits on another member of the set.  Finite graphs have such a
    /// set exactly when they have a cycle.
    pub open spec fn stuck_set(self, s: Set<int>) -> bool {
        &&& s.finite()
        &&& s.len() > 0
        &&& forall|v: int| #[trigger] s.contains(v) ==> 0 <= v < self.node_count()
        &&& forall|v: int| #[trigger]
            s.contains(v) ==> exists|u: int| #[trigger] s.contains(u) && self.has_edge(u, v)
    }

    /// The graph contains a dependency cycle.
    pub open spec fn cyclic(self) -> bool {
        exists|s: Set<int>| self.stuck_set(s)
    }

    /// Graph well-formedness: names unique, every edge's endpoints and slot
    /// indices in range, slot-edge endpoint kinds equal, at most one inbound
    /// slot edge per input slot, every node well formed, and every persisted
    /// output table conforming to its node's declaration.
    pub open spec fn wf(self) -> bool {
        &&& self.node_names().len() == self.node_count()
        &&& self.kinds().len() == self.node_count()
        &&& self.outputs().len() == self.node_count()
        &&& forall|i: int, j: int|
            0 <= i < j < self.node_count() ==> self.node_names()[i] != self.node_names()[j]
        &&& forall|k: int|
            0 <= k < self.slot_edge_seq().len() ==> {
                let e = #[trigger] self.slot_edge_seq()[k];
                &&& e.output_node < self.node_count()
                &&& e.input_node < self.node_count()
                &&& e.output_index < self.kinds()[e.output_node as int].output_types().len()
                &&& e.input_index < self.kinds()[e.input_node as int].input_types().len()
                &&& self.kinds()[e.output_node as int].output_types()[e.output_index as int]
                    == self.kinds()[e.input_node as int].input_types()[e.input_index as int]
            }
        &&& forall|k1: int, k2: int|
            0 <= k1 < self.slot_edge_seq().len() && 0 <= k2 < self.slot_edge_seq().len() && k1 != k2
                ==> !((#[trigger] self.slot_edge_seq()[k1]).input_node
                == (#[trigger] self.slot_edge_seq()[k2]).input_node
                && self.slot_edge_seq()[k1].input_index == self.slot_edge_seq()[k2].input_index)
        &&& forall|k: int|
            0 <= k < self.node_edge_seq().len() ==> (#[trigger] self.node_edge_seq()[k]).output_node
                < self.node_count() && self.node_edge_seq()[k].input_node < self.node_count()
        &&& forall|i: int|
            0 <= i < self.node_count() ==> (#[trigger] self.kinds()[i]).wf()
        &&& forall|i: int|
            0 <= i < self.node_count() ==> slots_conform(
                #[trigger] self.outputs()[i],
                self.kinds()[i].output_types(),
            )
    }

    /// Every node's cached device resources and every resolved output handle
    /// are live in `ctx`.
    pub open spec fn resident<C: ResourceContext>(self, ctx: &C) -> bool {
        forall|i: int|
            0 <= i < self.node_count() ==> (#[trigger] self.kinds()[i]).resident(ctx) && slots_live(
                self.outputs()[i],
                ctx,
            )
    }

    /// Node `i`'s input is wired: some slot edge targets it.
    pub open spec fn has_inbound(self, i: int) -> bool {
        exists|k: int|
            0 <= k < self.slot_edge_seq().len() && (#[trigger] self.slot_edge_seq()[k]).input_node
                == i
    }

    /// What one frame pass (from graph `prior` and context `prior_ctx` to
    /// this graph and `ctx`) guarantees for node `i`.  A texture-producing
    /// node ends the frame with a resolved output slot; when the slot was
    /// unresolved the frame allocated a fresh texture from that node's
    /// descriptor.  A readout node with an inbound slot edge delivered
    /// exactly one readout — staging-buffer-sized bytes and its descriptor —
    /// to its sink; one with no inbound edge was left untouched.
    pub open spec fn frame_done_at<C: ResourceContext>(
        self,
        prior: Self,
        prior_ctx: &C,
        ctx: &C,
        i: int,
    ) -> bool {
        &&& (prior.kinds()[i] matches NodeKind::Texture(nd) ==> {
            &&& self.kinds()[i] == prior.kinds()[i]
            &&& self.outputs()[i].len() == 1
            &&& self.outputs()[i][0] is Some
            &&& prior.outputs()[i][0] is Some ==> self.outputs()[i] == prior.outputs()[i]
            &&& prior.outputs()[i][0] is None ==> {
                &&& self.outputs()[i][0] matches Some(RenderResourceId::Texture(t))
                &&& !prior_ctx.textures().contains_key(t)
                &&& ctx.textures().contains_key(t)
                &&& ctx.textures()[t] == nd.descriptor()
            }
        })
        &&& (prior.kinds()[i] matches NodeKind::TextureReadout(nd) ==> {
            &&& self.outputs()[i] == prior.outputs()[i]
            &&& self.kinds()[i] matches NodeKind::TextureReadout(n2) && {
                &&& n2.descriptor() == nd.descriptor()
                &&& prior.has_inbound(i) ==> exists|bytes: Seq<u8>|
                    bytes.len() == n2.staging_size() && n2.sink().calls()
                        == nd.sink().calls().push((bytes, nd.descriptor()))
                &&& !prior.has_inbound(i) ==> self.kinds()[i] == prior.kinds()[i]
                &&& forall|k: int|
                    0 <= k < prior.slot_edge_seq().len() && (#[trigger] prior.slot_edge_seq()[
                        k
                    ]).input_node == i ==> n2.observed_input() == self.outputs()[
                        prior.slot_edge_seq()[k].output_node as int
                    ][prior.slot_edge_seq()[k].output_index as int]
            }
        })
    }

    proof fn lemma_frame_done_step<C: ResourceContext>(
        g1: Self,
        g2: Self,
        prior: Self,
        prior_ctx: &C,
        a: &C,
        b: &C,
        i: int,
    )
        requires
            g1.frame_done_at(prior, prior_ctx, a, i),
            g2.kinds()[i] == g1.kinds()[i],
            g2.outputs()[i] == g1.outputs()[i],
            forall|k: int|
                0 <= k < prior.slot_edge_seq().len() && (#[trigger] prior.slot_edge_seq()[
                    k
                ]).input_node == i ==> g2.outputs()[prior.slot_edge_seq()[k].output_node as int]
                    == g1.outputs()[prior.slot_edge_seq()[k].output_node as int],
            a.textures().submap_of(b.textures()),
        ensures
            g2.frame_done_at(prior, prior_ctx, b, i),
    {
        match prior.kinds()[i] {
            NodeKind::Texture(_) => {
                if prior.outputs()[i][0] is None {
                    match g1.outputs()[i][0] {
                        Some(RenderResourceId::Texture(t)) => {
                            assert(a.textures().dom().contains(t));
                            let ghost probe = b.textures().dom().contains(t);
                            assert(b.textures()[t] == a.textures()[t]);
                        },
                        _ => {},
                    }
                }
            },
            NodeKind::TextureReadout(_) => {},
        }
    }

    /// The graph has a node of this name.
    pub open spec fn has_node(self, name: Seq<char>) -> bool {
        self.node_names().contains(name)
    }

    /// Index of the node of this name (meaningful when `has_node`).
    pub open spec fn node_at(self, name: Seq<char>) -> int {
        choose|i: int| 0 <= i < self.node_count() && self.node_names()[i] == name
    }

    /// An empty graph.
    pub fn new() -> (r: Self)
        ensures
            r.wf(),
            r.node_count() == 0,
            r.node_names() == Seq::<Seq<char>>::empty(),
            r.kinds() == Seq::<NodeKind<S>>::empty(),
            r.outputs() == Seq::<Seq<Option<RenderResourceId>>>::empty(),
            r.slot_edge_seq() == Seq::<SlotEdge>::empty(),
            r.node_edge_seq() == Seq::<NodeEdge>::empty(),
    {
        let r = RenderGraph { nodes: Vec::new(), slot_edges: Vec::new(), node_edges: Vec::new() };
        proof {
            assert(r.node_names() =~= Seq::<Seq<char>>::empty());
            assert(r.kinds() =~= Seq::<NodeKind<S>>::empty());
            assert(r.outputs() =~= Seq::<Seq<Option<RenderResourceId>>>::empty());
        }
        r
    }

    fn find_node(&self, name: &str) -> (r: Option<usize>)
        requires
            self.wf(),
        ensures
            match r {
                Some(i) => i < self.node_count() && self.node_names()[i as int] == name@
                    && self.has_node(name@) && i as int == self.node_at(name@),
                None => !self.has_node(name@),
            },
    {
        let key: String = name.to_owned();
        let n = self.nodes.len();
        let mut i: usize = 0;
        while i < n
            invariant
                self.wf(),
                key@ == name@,
                n == self.node_count(),
                i <= n,
                forall|j: int| 0 <= j < i ==> self.node_names()[j] != name@,
            decreases n - i,
        {
            if self.nodes[i].name == key {
                proof {
                    assert(self.node_names()[i as int] == name@);
                    let j = self.node_at(name@);
                    assert(0 <= j < self.node_count() && self.node_names()[j] == name@);
                    assert(j == i as int);
                }
                return Some(i);
            }
            i = i + 1;
        }
        proof {
            assert(forall|j: int| 0 <= j < self.node_count() ==> self.node_names()[j] != name@);
            assert(!self.has_node(name@)) by {
                if self.has_node(name@) {
                    let j: int = choose|j: int|
                        0 <= j < self.node_names().len() && self.node_names()[j] == name@;
                    assert(false);
                }
            }
        }
        None
    }

    /// Add a node under a fresh name; a taken name is rejected and the graph
    /// is left exactly as it was.
    pub fn add_node(&mut self, name: String, node: NodeKind<S>) -> (r: Result<(), GraphError>)
        requires
            old(self).wf(),
            node.wf(),
        ensures
            final(self).wf(),
            match r {
                Ok(()) => {
                    &&& !old(self).has_node(name@)
                    &&& final(self).node_names() == old(self).node_names().push(name@)
                    &&& final(self).kinds() == old(self).kinds().push(node)
                    &&& final(self).outputs() == old(self).outputs().push(
                        unresolved_slots(node.output_types().len()),
                    )
                    &&& final(self).slot_edge_seq() == old(self).slot_edge_seq()
                    &&& final(self).node_edge_seq() == old(self).node_edge_seq()
                },
                Err(e) => {
                    &&& e == GraphError::DuplicateNodeName
                    &&& old(self).has_node(name@)
                    &&& *final(self) == *old(self)
                },
            },
    {
        if self.find_node(&name).is_some() {
            return Err(GraphError::DuplicateNodeName);
        }
        let out_infos = node.output();
        let output_slots = ResourceSlots::new(out_infos.len());
        let ghost prior = *self;
        self.nodes.push(NodeEntry { name, kind: node, output_slots });
        proof {
            assert(self.node_names() =~= prior.node_names().push(name@));
            assert(self.kinds() =~= prior.kinds().push(node));
            assert(self.outputs()[self.node_count() - 1] =~= unresolved_slots(
                node.output_types().len(),
            ));
            assert(self.outputs() =~= prior.outputs().push(
                unresolved_slots(node.output_types().len()),
            ));
            assert(self.slot_edge_seq() == prior.slot_edge_seq());
            assert(self.node_edge_seq() == prior.node_edge_seq());
            assert forall|k: int| 0 <= k < self.slot_edge_seq().len() implies {
                let e = #[trigger] self.slot_edge_seq()[k];
                &&& e.output_node < self.node_count()
                &&& e.input_node < self.node_count()
                &&& e.output_index < self.kinds()[e.output_node as int].output_types().len()
                &&& e.input_index < self.kinds()[e.input_node as int].input_types().len()
                &&& self.kinds()[e.output_node as int].output_types()[e.output_index as int]
                    == self.kinds()[e.input_node as int].input_types()[e.input_index as int]
            } by {
                let e = self.slot_edge_seq()[k];
                assert(e == prior.slot_edge_seq()[k]);
                assert(e.output_node < prior.node_count());
                assert(self.kinds()[e.output_node as int] == prior.kinds()[e.output_node as int]);
                assert(self.kinds()[e.input_node as int] == prior.kinds()[e.input_node as int]);
            }
        }
        Ok(())
    }

    /// Add a node fed by external scene state; shares the namespace and the
    /// rules of `add_node`.
    pub fn add_system_node(&mut self, name: String, node: NodeKind<S>) -> (r: Result<
        (),
        GraphError,
    >)
        requires
            old(self).wf(),
            node.wf(),
        ensures
            final(self).wf(),
            match r {
                Ok(()) => {
                    &&& !old(self).has_node(name@)
                    &&& final(self).node_names() == old(self).node_names().push(name@)
                    &&& final(self).kinds() == old(self).kinds().push(node)
                    &&& final(self).outputs() == old(self).outputs().push(
                        unresolved_slots(node.output_types().len()),
                    )
                    &&& final(self).slot_edge_seq() == old(self).slot_edge_seq()
                    &&& final(self).node_edge_seq() == old(self).node_edge_seq()
                },
                Err(e) => {
                    &&& e == GraphError::DuplicateNodeName
                    &&& old(self).has_node(name@)
                    &&& *final(self) == *old(self)
                },
            },
    {
        self.add_node(name, node)
    }

    /// What `add_slot_edge` does for these arguments: the edge it inserts, or
    /// the construction error it rejects them with.
    pub open spec fn slot_edge_decision(
        self,
        output_node: Seq<char>,
        output_slot: Seq<char>,
        input_node: Seq<char>,
        input_slot: Seq<char>,
    ) -> Result<SlotEdge, GraphError> {
        if !self.has_node(output_node) || !self.has_node(input_node) {
            Err(GraphError::UnknownNode)
        } else {
            let oi = self.node_at(output_node);
            let ii = self.node_at(input_node);
            if !self.kinds()[oi].output_names().contains(output_slot) || !self.kinds()[
                ii
            ].input_names().contains(input_slot) {
                Err(GraphError::UnknownSlot)
            } else {
                let osl = slot_named(self.kinds()[oi].output_names(), output_slot);
                let isl = slot_named(self.kinds()[ii].input_names(), input_slot);
                if self.kinds()[oi].output_types()[osl] != self.kinds()[ii].input_types()[isl] {
                    Err(GraphError::MismatchedSlotType)
                } else if exists|k: int|
                    0 <= k < self.slot_edge_seq().len() && (#[trigger] self.slot_edge_seq()[
                        k
                    ]).input_node == ii && self.slot_edge_seq()[k].input_index == isl {
                    Err(GraphError::SlotAlreadyOccupied)
                } else {
                    Ok(
                        SlotEdge {
                            output_node: oi as usize,
                            output_index: osl as usize,
                            input_node: ii as usize,
                            input_index: isl as usize,
                        },
                    )
                }
            }
        }
    }

    /// Connect an output slot to an input slot, both by name.  Exactly the
    /// conditions of `slot_edge_decision` are enforced, and a rejected call
    /// leaves the graph untouched.
    pub fn add_slot_edge(
        &mut self,
        output_node: &str,
        output_slot: &str,
        input_node: &str,
        input_slot: &str,
    ) -> (r: Result<(), GraphError>)
        requires
            old(self).wf(),
        ensures
            final(self).wf(),
            match old(self).slot_edge_decision(
                output_node@,
                output_slot@,
                input_node@,
                input_slot@,
            ) {
                Ok(e) => {
                    &&& r is Ok
                    &&& final(self).slot_edge_seq() == old(self).slot_edge_seq().push(e)
                    &&& final(self).node_names() == old(self).node_names()
                    &&& final(self).kinds() == old(self).kinds()
                    &&& final(self).outputs() == old(self).outputs()
                    &&& final(self).node_edge_seq() == old(self).node_edge_seq()
                },
                Err(err) => r == Err::<(), GraphError>(err) && *final(self) == *old(self),
            },
    {
        let oi = match self.find_node(output_node) {
            Some(i) => i,
            None => {
                return Err(GraphError::UnknownNode);
            },
        };
        let ii = match self.find_node(input_node) {
            Some(i) => i,
            None => {
                return Err(GraphError::UnknownNode);
            },
        };
        proof {
            assert(self.kinds()[oi as int] == self.nodes@[oi as int].kind);
            assert(self.kinds()[ii as int] == self.nodes@[ii as int].kind);
            self.kinds()[oi as int].lemma_slot_names_unique();
            self.kinds()[ii as int].lemma_slot_names_unique();
        }
        let out_infos = self.nodes[oi].kind.output();
        let osl = match find_slot(&out_infos, output_slot) {
            Some(s) => s,
            None => {
                proof {
                    let names = self.kinds()[oi as int].output_names();
                    assert(!names.contains(output_slot@)) by {
                        if names.contains(output_slot@) {
                            let j = choose|j: int| 0 <= j < names.len() && names[j] == output_slot@;
                            assert(out_infos@[j].name@ == output_slot@);
                            assert(false);
                        }
                    }
                }
                return Err(GraphError::UnknownSlot);
            },
        };
        let in_infos = self.nodes[ii].kind.input();
        let isl = match find_slot(&in_infos, input_slot) {
            Some(s) => s,
            None => {
                proof {
                    let inames = self.kinds()[ii as int].input_names();
                    assert(!inames.contains(input_slot@)) by {
                        if inames.contains(input_slot@) {
                            let j = choose|j: int| 0 <= j < inames.len() && inames[j] == input_slot@;
                            assert(in_infos@[j].name@ == input_slot@);
                            assert(false);
                        }
                    }
                }
                return Err(GraphError::UnknownSlot);
            },
        };
        proof {
            let names = self.kinds()[oi as int].output_names();
            assert(names[osl as int] == output_slot@);
            assert(osl as int == slot_named(names, output_slot@)) by {
                let c = slot_named(names, output_slot@);
                assert(0 <= c < names.len() && names[c] == output_slot@);
            }
            let inames = self.kinds()[ii as int].input_names();
            assert(inames[isl as int] == input_slot@);
            assert(isl as int == slot_named(inames, input_slot@)) by {
                let c = slot_named(inames, input_slot@);
                assert(0 <= c < inames.len() && inames[c] == input_slot@);
            }
        }
        if out_infos[osl].resource_type != in_infos[isl].resource_type {
            return Err(GraphError::MismatchedSlotType);
        }
        let m = self.slot_edges.len();
        let mut k: usize = 0;
        #[verifier::loop_isolation(false)]
        while k < m
            invariant
                k <= m,
                forall|k2: int|
                    0 <= k2 < k ==> !((#[trigger] self.slot_edge_seq()[k2]).input_node == ii
                        && self.slot_edge_seq()[k2].input_index == isl),
            decreases m - k,
        {
            if self.slot_edges[k].input_node == ii && self.slot_edges[k].input_index == isl {
                proof {
                    assert(self.slot_edge_seq()[k as int].input_node == ii
                        && self.slot_edge_seq()[k as int].input_index == isl);
                    assert(self.slot_edge_decision(output_node@, output_slot@, input_node@,
                        input_slot@) == Err::<SlotEdge, GraphError>(GraphError::SlotAlreadyOccupied));
                }
                return Err(GraphError::SlotAlreadyOccupied);
            }
            k = k + 1;
        }
        let edge = SlotEdge { output_node: oi, output_index: osl, input_node: ii, input_index: isl };
        let ghost prior = *self;
        self.slot_edges.push(edge);
        proof {
            assert(prior.slot_edge_decision(output_node@, output_slot@, input_node@, input_slot@)
                == Ok::<SlotEdge, GraphError>(edge));
            assert(self.node_names() == prior.node_names());
            assert(self.kinds() == prior.kinds());
            assert(self.outputs() == prior.outputs());
            assert(self.node_edge_seq() == prior.node_edge_seq());
            assert(self.slot_edge_seq() == prior.slot_edge_seq().push(edge));
        }
        Ok(())
    }

    /// What `add_slot_edge_by_index` does for these arguments: the edge it
    /// inserts, or the construction error it rejects them with.
    pub open spec fn slot_edge_index_decision(
        self,
        output_node: Seq<char>,
        output_index: int,
        input_node: Seq<char>,
        input_index: int,
    ) -> Result<SlotEdge, GraphError> {
        if !self.has_node(output_node) || !self.has_node(input_node) {
            Err(GraphError::UnknownNode)
        } else {
            let oi = self.node_at(output_node);
            let ii = self.node_at(input_node);
            if output_index >= self.kinds()[oi].output_types().len() || input_index
                >= self.kinds()[ii].input_types().len() {
                Err(GraphError::UnknownSlot)
            } else if self.kinds()[oi].output_types()[output_index] != self.kinds()[
                ii
            ].input_types()[input_index] {
                Err(GraphError::MismatchedSlotType)
            } else if exists|k: int|
                0 <= k < self.slot_edge_seq().len() && (#[trigger] self.slot_edge_seq()[
                    k
                ]).input_node == ii && self.slot_edge_seq()[k].input_index == input_index {
                Err(GraphError::SlotAlreadyOccupied)
            } else {
                Ok(
                    SlotEdge {
                        output_node: oi as usize,
                        output_index: output_index as usize,
                        input_node: ii as usize,
                        input_index: input_index as usize,
                    },
                )
            }
        }
    }

    /// Connect an output slot to an input slot, both by index into the
    /// nodes' declared slot lists.  Exactly the conditions of
    /// `slot_edge_index_decision` are enforced, and a rejected call leaves
    /// the graph untouched.
    pub fn add_slot_edge_by_index(
        &mut self,
        output_node: &str,
        output_index: usize,
        input_node: &str,
        input_index: usize,
    ) -> (r: Result<(), GraphError>)
        requires
            old(self).wf(),
        ensures
            final(self).wf(),
            match old(self).slot_edge_index_decision(
                output_node@,
                output_index as int,
                input_node@,
                input_index as int,
            ) {
                Ok(e) => {
                    &&& r is Ok
                    &&& final(self).slot_edge_seq() == old(self).slot_edge_seq().push(e)
                    &&& final(self).node_names() == old(self).node_names()
                    &&& final(self).kinds() == old(self).kinds()
                    &&& final(self).outputs() == old(self).outputs()
                    &&& final(self).node_edge_seq() == old(self).node_edge_seq()
                },
                Err(err) => r == Err::<(), GraphError>(err) && *final(self) == *old(self),
            },
    {
        let oi = match self.find_node(output_node) {
            Some(i) => i,
            None => {
                return Err(GraphError::UnknownNode);
            },
        };
        let ii = match self.find_node(input_node) {
            Some(i) => i,
            None => {
                return Err(GraphError::UnknownNode);
            },
        };
        proof {
            assert(self.kinds()[oi as int] == self.nodes@[oi as int].kind);
            assert(self.kinds()[ii as int] == self.nodes@[ii as int].kind);
        }
        let out_infos = self.nodes[oi].kind.output();
        let in_infos = self.nodes[ii].kind.input();
        if output_index >= out_infos.len() || input_index >= in_infos.len() {
            return Err(GraphError::UnknownSlot);
        }
        if out_infos[output_index].resource_type != in_infos[input_index].resource_type {
            return Err(GraphError::MismatchedSlotType);
        }
        let m = self.slot_edges.len();
        let mut k: usize = 0;
        #[verifier::loop_isolation(false)]
        while k < m
            invariant
                k <= m,
                forall|k2: int|
                    0 <= k2 < k ==> !((#[trigger] self.slot_edge_seq()[k2]).input_node == ii
                        && self.slot_edge_seq()[k2].input_index == input_index),
            decreases m - k,
        {
            if self.slot_edges[k].input_node == ii && self.slot_edges[k].input_index
                == input_index {
                proof {
                    assert(self.slot_edge_seq()[k as int].input_node == ii
                        && self.slot_edge_seq()[k as int].input_index == input_index);
                    assert(self.slot_edge_index_decision(output_node@, output_index as int,
                        input_node@, input_index as int)
                        == Err::<SlotEdge, GraphError>(GraphError::SlotAlreadyOccupied));
                }
                return Err(GraphError::SlotAlreadyOccupied);
            }
            k = k + 1;
        }
        let edge = SlotEdge {
            output_node: oi,
            output_index,
            input_node: ii,
            input_index,
        };
        let ghost prior = *self;
        self.slot_edges.push(edge);
        proof {
            assert(prior.slot_edge_index_decision(output_node@, output_index as int,
                input_node@, input_index as int) == Ok::<SlotEdge, GraphError>(edge));
            assert(self.node_names() == prior.node_names());
            assert(self.kinds() == prior.kinds());
            assert(self.outputs() == prior.outputs());
            assert(self.node_edge_seq() == prior.node_edge_seq());
            assert(self.slot_edge_seq() == prior.slot_edge_seq().push(edge));
        }
        Ok(())
    }

    /// What `add_node_edge` does for these arguments: the edge it inserts,
    /// `None` when the edge already exists (a harmless repeat), or the error.
    pub open spec fn node_edge_decision(
        self,
        output_node: Seq<char>,
        input_node: Seq<char>,
    ) -> Result<Option<NodeEdge>, GraphError> {
        if !self.has_node(output_node) || !self.has_node(input_node) {
            Err(GraphError::UnknownNode)
        } else {
            let e = NodeEdge {
                output_node: self.node_at(output_node) as usize,
                input_node: self.node_at(input_node) as usize,
            };
            if self.node_edge_seq().contains(e) {
                Ok(None)
            } else {
                Ok(Some(e))
            }
        }
    }

    /// Declare that one node must run before another.  A repeated declaration
    /// is a no-op, not an error; an unknown node is rejected and the graph is
    /// left untouched.
    pub fn add_node_edge(&mut self, output_node: &str, input_node: &str) -> (r: Result<
        (),
        GraphError,
    >)
        requires
            old(self).wf(),
        ensures
            final(self).wf(),
            match old(self).node_edge_decision(output_node@, input_node@) {
                Ok(added) => {
                    &&& r is Ok
                    &&& final(self).node_edge_seq() == match added {
                        Some(e) => old(self).node_edge_seq().push(e),
                        None => old(self).node_edge_seq(),
                    }
                    &&& final(self).node_names() == old(self).node_names()
                    &&& final(self).kinds() == old(self).kinds()
                    &&& final(self).outputs() == old(self).outputs()
                    &&& final(self).slot_edge_seq() == old(self).slot_edge_seq()
                },
                Err(err) => r == Err::<(), GraphError>(err) && *final(self) == *old(self),
            },
    {
        let oi = match self.find_node(output_node) {
            Some(i) => i,
            None => {
                return Err(GraphError::UnknownNode);
            },
        };
        let ii = match self.find_node(input_node) {
            Some(i) => i,
            None => {
                return Err(GraphError::UnknownNode);
            },
        };
        let edge = NodeEdge { output_node: oi, input_node: ii };
        let m = self.node_edges.len();
        let mut k: usize = 0;
        #[verifier::loop_isolation(false)]
        while k < m
            invariant
                k <= m,
                forall|k2: int| 0 <= k2 < k ==> self.node_edge_seq()[k2] != edge,
            decreases m - k,
        {
            if self.node_edges[k] == edge {
                proof {
                    assert(self.node_edge_seq().contains(edge));
                }
                return Ok(());
            }
            k = k + 1;
        }
        proof {
            assert(!self.node_edge_seq().contains(edge));
        }
        let ghost prior = *self;
        self.node_edges.push(edge);
        proof {
            assert(self.node_names() == prior.node_names());
            assert(self.kinds() == prior.kinds());
            assert(self.outputs() == prior.outputs());
            assert(self.slot_edge_seq() == prior.slot_edge_seq());
        }
        Ok(())
    }

    /// Every inbound edge of `v` starts inside the prefix `order[..upto]`.
    pub open spec fn preds_in_prefix(self, order: Seq<usize>, upto: int, v: int) -> bool {
        forall|u: int|
            0 <= u < self.node_count() && #[trigger] self.has_edge(u, v) ==> in_prefix(
                order,
                upto,
                u,
            )
    }

    /// The deterministic tie-break: each position runs the smallest-index
    /// node among those not yet run whose dependencies have all run, so
    /// nodes that no edge constrains keep their insertion order.
    pub open spec fn min_ready_first(self, order: Seq<usize>) -> bool {
        forall|i: int, v: int|
            0 <= i < order.len() && 0 <= v < self.node_count() && !in_prefix(order, i, v)
                && #[trigger] self.preds_in_prefix(order, i, v) ==> order[i] <= v
    }

    proof fn lemma_min_pick_step(self, order: Seq<usize>, placed: Seq<bool>, c: usize)
        requires
            self.topo_inv(order, placed),
            c < self.node_count(),
            !placed[c as int],
            forall|w: int|
                0 <= w < c ==> (placed[w] || exists|u: int|
                    0 <= u < self.node_count() && #[trigger] self.has_edge(u, w) && !placed[u]),
            self.min_ready_first(order),
        ensures
            self.min_ready_first(order.push(c)),
    {
        let order2 = order.push(c);
        assert forall|i: int, v: int|
            0 <= i < order2.len() && 0 <= v < self.node_count() && !in_prefix(order2, i, v)
                && #[trigger] self.preds_in_prefix(order2, i, v) implies order2[i] <= v by {
            if i < order.len() {
                lemma_prefix_push(order, c, i, v);
                assert(self.preds_in_prefix(order, i, v)) by {
                    assert forall|u: int|
                        0 <= u < self.node_count() && #[trigger] self.has_edge(u, v) implies
                        in_prefix(order, i, u) by {
                        assert(in_prefix(order2, i, u));
                        lemma_prefix_push(order, c, i, u);
                    }
                }
                assert(order[i] <= v);
                assert(order2[i] == order[i]);
            } else {
                assert(!order_contains(order, v)) by {
                    if order_contains(order, v) {
                        let s = choose|s2: int| 0 <= s2 < order.len() && order[s2] == v;
                        assert(order2[s] == v);
                        assert(in_prefix(order2, i, v));
                    }
                }
                assert(!placed[v]);
                if v < c {
                    let u = choose|u: int|
                        0 <= u < self.node_count() && #[trigger] self.has_edge(u, v)
                            && !placed[u];
                    assert(in_prefix(order2, i, u));
                    let s = choose|s2: int|
                        0 <= s2 < i && s2 < order2.len() && order2[s2] == u;
                    assert(order[s] == u);
                    assert(order_contains(order, u));
                    assert(placed[u]);
                    assert(false);
                }
                assert(order2[i] == c);
            }
        }
    }

    /// `order` is a total execution order: a permutation of all node indices
    /// in which every edge's source precedes its target.
    pub open spec fn valid_order(self, order: Seq<usize>) -> bool {
        &&& order.len() == self.node_count()
        &&& forall|i: int| 0 <= i < order.len() ==> (#[trigger] order[i]) < self.node_count()
        &&& forall|i: int, j: int|
            0 <= i < order.len() && 0 <= j < order.len() && i != j ==> order[i] != order[j]
        &&& forall|v: int| 0 <= v < self.node_count() ==> #[trigger] order_contains(order, v)
        &&& forall|i: int, j: int|
            0 <= i < order.len() && 0 <= j < order.len() && #[trigger] self.has_edge(
                order[i] as int,
                order[j] as int,
            ) ==> i < j
    }

    proof fn lemma_stuck_not_in_order(self, order: Seq<usize>, s: Set<int>, i: int)
        requires
            self.valid_order(order),
            self.stuck_set(s),
            0 <= i < order.len(),
        ensures
            !s.contains(order[i] as int),
        decreases i,
    {
        if s.contains(order[i] as int) {
            let u = choose|u: int| #[trigger] s.contains(u) && self.has_edge(u, order[i] as int);
            assert(0 <= u < self.node_count());
            assert(order_contains(order, u));
            let j = choose|j: int| 0 <= j < order.len() && order[j] == u;
            assert(self.has_edge(order[j] as int, order[i] as int));
            assert(j < i);
            self.lemma_stuck_not_in_order(order, s, j);
            assert(false);
        }
    }

    /// Law: a graph that admits a valid execution order has no dependency
    /// cycle, so a cyclic graph — a self-loop included — admits no order.
    pub proof fn lemma_valid_order_acyclic(self, order: Seq<usize>)
        requires
            self.valid_order(order),
        ensures
            !self.cyclic(),
    {
        if self.cyclic() {
            let s = choose|s: Set<int>| self.stuck_set(s);
            assert(exists|v: int| s.contains(v)) by {
                if forall|v: int| !(#[trigger] s.contains(v)) {
                    assert(s =~= Set::<int>::empty());
                    assert(s.len() == 0);
                }
            }
            let v = choose|v: int| s.contains(v);
            assert(0 <= v < self.node_count());
            assert(order_contains(order, v));
            let i = choose|i: int| 0 <= i < order.len() && order[i] == v;
            self.lemma_stuck_not_in_order(order, s, i);
            assert(false);
        }
    }

    /// Every inbound edge of `v` starts at a node already placed.
    fn no_unplaced_preds(&self, placed: &Vec<bool>, v: usize) -> (r: bool)
        requires
            self.wf(),
            placed@.len() == self.node_count(),
            v < self.node_count(),
        ensures
            r <==> (forall|u: int|
                0 <= u < self.node_count() && #[trigger] self.has_edge(u, v as int)
                    ==> placed@[u]),
    {
        let m = self.slot_edges.len();
        let mut k: usize = 0;
        #[verifier::loop_isolation(false)]
        while k < m
            invariant
                k <= m,
                forall|k2: int|
                    0 <= k2 < k && (#[trigger] self.slot_edge_seq()[k2]).input_node == v
                        ==> placed@[self.slot_edge_seq()[k2].output_node as int],
            decreases m - k,
        {
            if self.slot_edges[k].input_node == v && !placed[self.slot_edges[k].output_node] {
                proof {
                    let u: int = self.slot_edge_seq()[k as int].output_node as int;
                    assert(self.has_edge(u, v as int));
                    assert(0 <= u < self.node_count() && !placed@[u]);
                }
                return false;
            }
            k = k + 1;
        }
        let m2 = self.node_edges.len();
        let mut k2: usize = 0;
        #[verifier::loop_isolation(false)]
        while k2 < m2
            invariant
                k2 <= m2,
                forall|k3: int|
                    0 <= k3 < k2 && (#[trigger] self.node_edge_seq()[k3]).input_node == v
                        ==> placed@[self.node_edge_seq()[k3].output_node as int],
            decreases m2 - k2,
        {
            if self.node_edges[k2].input_node == v && !placed[self.node_edges[k2].output_node] {
                proof {
                    let u: int = self.node_edge_seq()[k2 as int].output_node as int;
                    assert(self.has_edge(u, v as int));
                    assert(0 <= u < self.node_count() && !placed@[u]);
                }
                return false;
            }
            k2 = k2 + 1;
        }
        proof {
            assert forall|u: int|
                0 <= u < self.node_count() && #[trigger] self.has_edge(u, v as int)
                implies placed@[u] by {
                if exists|k3: int|
                    0 <= k3 < self.slot_edge_seq().len() && (#[trigger] self.slot_edge_seq()[
                        k3
                    ]).output_node == u && self.slot_edge_seq()[k3].input_node == v as int {
                    let k3 = choose|k3: int|
                        0 <= k3 < self.slot_edge_seq().len() && (#[trigger] self.slot_edge_seq()[
                            k3
                        ]).output_node == u && self.slot_edge_seq()[k3].input_node == v as int;
                    assert(placed@[self.slot_edge_seq()[k3].output_node as int]);
                } else {
                    let k3 = choose|k3: int|
                        0 <= k3 < self.node_edge_seq().len() && (#[trigger] self.node_edge_seq()[
                            k3
                        ]).output_node == u && self.node_edge_seq()[k3].input_node == v as int;
                    assert(placed@[self.node_edge_seq()[k3].output_node as int]);
                }
            }
        }
        true
    }

    /// The running state of the order computation: `placed` marks exactly
    /// the members of `order`, which is a duplicate-free, edge-respecting
    /// prefix of an execution order whose members' predecessors are all
    /// placed.
    pub open spec fn topo_inv(self, order: Seq<usize>, placed: Seq<bool>) -> bool {
        &&& placed.len() == self.node_count()
        &&& order.len() <= self.node_count()
        &&& forall|i: int| 0 <= i < order.len() ==> (#[trigger] order[i]) < self.node_count()
        &&& forall|i: int, j: int|
            0 <= i < order.len() && 0 <= j < order.len() && i != j ==> order[i] != order[j]
        &&& forall|x: int|
            0 <= x < self.node_count() ==> (placed[x] <==> #[trigger] order_contains(order, x))
        &&& forall|i: int, j: int|
            0 <= i < order.len() && 0 <= j < order.len() && #[trigger] self.has_edge(
                order[i] as int,
                order[j] as int,
            ) ==> i < j
        &&& forall|j: int, u: int|
            0 <= j < order.len() && 0 <= u < self.node_count() && #[trigger] self.has_edge(
                u,
                order[j] as int,
            ) ==> placed[u]
    }

    proof fn lemma_place_step(self, order: Seq<usize>, placed: Seq<bool>, c: usize)
        requires
            self.topo_inv(order, placed),
            order.len() < self.node_count(),
            c < self.node_count(),
            !placed[c as int],
            forall|u: int|
                0 <= u < self.node_count() && #[trigger] self.has_edge(u, c as int) ==> placed[u],
        ensures
            self.topo_inv(order.push(c), placed.update(c as int, true)),
    {
        let order2 = order.push(c);
        let placed2 = placed.update(c as int, true);
        assert forall|i: int| 0 <= i < order.len() implies order[i] != c by {
            if order[i] == c {
                assert(order_contains(order, c as int));
            }
        }
        assert forall|x: int|
            0 <= x < self.node_count() implies (placed2[x] <==> #[trigger] order_contains(
            order2,
            x,
        )) by {
            if x == c as int {
                assert(order2[order2.len() - 1] == c);
                assert(order_contains(order2, x));
            } else {
                if order_contains(order2, x) {
                    let i = choose|i: int| 0 <= i < order2.len() && order2[i] == x;
                    assert(i < order2.len() - 1);
                    assert(order_contains(order, x));
                } else {
                    if order_contains(order, x) {
                        let i = choose|i: int| 0 <= i < order.len() && order[i] == x;
                        assert(order2[i] == x);
                        assert(order_contains(order2, x));
                    }
                }
            }
        }
        assert forall|i: int, j: int|
            0 <= i < order2.len() && 0 <= j < order2.len() && #[trigger] self.has_edge(
                order2[i] as int,
                order2[j] as int,
            ) implies i < j by {
            if j == order2.len() - 1 && i < order2.len() - 1 {
                // an edge into the new node comes from a placed node
            } else if i == order2.len() - 1 && j < order2.len() - 1 {
                assert(self.has_edge(c as int, order[j] as int));
                assert(placed[c as int]);
                assert(false);
            }
        }
    }

    proof fn lemma_stuck_step(self, order: Seq<usize>, placed: Seq<bool>)
        requires
            self.topo_inv(order, placed),
            order.len() < self.node_count(),
            forall|w: int|
                0 <= w < self.node_count() ==> (placed[w] || exists|u: int|
                    0 <= u < self.node_count() && #[trigger] self.has_edge(u, w) && !placed[u]),
        ensures
            self.cyclic(),
    {
        let n = self.node_count() as int;
        let s = Set::new(|x: int| 0 <= x < n && !placed[x]);
        vstd::set_lib::lemma_int_range(0, n);
        assert(s.subset_of(vstd::set_lib::set_int_range(0, n)));
        vstd::set_lib::lemma_set_subset_finite(vstd::set_lib::set_int_range(0, n), s);
        assert(exists|x: int| 0 <= x < n && !placed[x]) by {
            if forall|x: int| 0 <= x < n ==> #[trigger] placed[x] {
                assert forall|v: int| 0 <= v < n implies #[trigger] order_contains(order, v) by {
                    assert(placed[v]);
                }
                lemma_perm_covers(order, n);
            }
        }
        let w = choose|x: int| 0 <= x < n && !placed[x];
        assert(s.contains(w));
        if s.len() == 0 {
            s.lemma_len0_is_empty();
            assert(!s.contains(w));
        }
        assert forall|x: int| #[trigger] s.contains(x) implies exists|u: int|
            #[trigger] s.contains(u) && self.has_edge(u, x) by {
            assert(0 <= x < n && !placed[x]);
            let u = choose|u: int| 0 <= u < n && #[trigger] self.has_edge(u, x) && !placed[u];
            assert(s.contains(u) && self.has_edge(u, x));
        }
        assert(self.stuck_set(s));
    }

    proof fn lemma_topo_complete(self, order: Seq<usize>, placed: Seq<bool>)
        requires
            self.topo_inv(order, placed),
            order.len() == self.node_count(),
        ensures
            self.valid_order(order),
            !self.cyclic(),
    {
        assert forall|v: int| 0 <= v < self.node_count() implies #[trigger] order_contains(
            order,
            v,
        ) by {
            lemma_missing_value(order, self.node_count() as int, v);
        }
        self.lemma_valid_order_acyclic(order);
    }

    /// Compute the execution order: a topological sort over the union of
    /// slot edges and node edges, deterministic because ties go to the
    /// smallest (earliest-inserted) ready node.  Succeeds exactly on acyclic
    /// graphs; a cyclic graph is rejected with no order produced.
    #[verifier::rlimit(80)]
    pub fn execution_order(&self) -> (r: Result<Vec<usize>, GraphError>)
        requires
            self.wf(),
        ensures
            match r {
                Ok(order) => self.valid_order(order@) && self.min_ready_first(order@)
                    && !self.cyclic(),
                Err(e) => e == GraphError::CycleDetected && self.cyclic(),
            },
    {
        let n = self.nodes.len();
        let mut placed: Vec<bool> = Vec::new();
        let mut i0: usize = 0;
        #[verifier::loop_isolation(false)]
        while i0 < n
            invariant
                i0 <= n,
                placed@.len() == i0,
                forall|x: int| 0 <= x < i0 ==> !(#[trigger] placed@[x]),
            decreases n - i0,
        {
            placed.push(false);
            i0 = i0 + 1;
        }
        let mut order: Vec<usize> = Vec::new();
        proof {
            assert forall|x: int|
                0 <= x < self.node_count() implies (placed@[x] <==> #[trigger] order_contains(
                order@,
                x,
            )) by {
                if order_contains(order@, x) {
                    let i = choose|i: int| 0 <= i < order@.len() && order@[i] == x;
                }
            }
            assert(self.topo_inv(order@, placed@));
        }
        #[verifier::loop_isolation(false)]
        while order.len() < n
            invariant
                self.topo_inv(order@, placed@),
                self.min_ready_first(order@),
                placed@.len() == n,
            decreases n - order.len(),
        {
            let mut chosen: Option<usize> = None;
            let mut v: usize = 0;
            #[verifier::loop_isolation(false)]
            while v < n && chosen.is_none()
                invariant
                    v <= n,
                    match chosen {
                        Some(c) => c < n && !placed@[c as int] && (forall|u: int|
                            0 <= u < n && #[trigger] self.has_edge(u, c as int) ==> placed@[u])
                            && (forall|w: int|
                            0 <= w < c ==> (placed@[w] || exists|u: int|
                                0 <= u < n && #[trigger] self.has_edge(u, w) && !placed@[u])),
                        None => forall|w: int|
                            0 <= w < v ==> (placed@[w] || exists|u: int|
                                0 <= u < n && #[trigger] self.has_edge(u, w) && !placed@[u]),
                    },
                decreases n - v,
            {
                if !placed[v] {
                    if self.no_unplaced_preds(&placed, v) {
                        chosen = Some(v);
                    }
                }
                v = v + 1;
            }
            match chosen {
                Some(c) => {
                    proof {
                        self.lemma_min_pick_step(order@, placed@, c);
                        self.lemma_place_step(order@, placed@, c);
                    }
                    placed.set(c, true);
                    order.push(c);
                },
                None => {
                    proof {
                        self.lemma_stuck_step(order@, placed@);
                    }
                    return Err(GraphError::CycleDetected);
                },
            }
        }
        proof {
            self.lemma_topo_complete(order@, placed@);
        }
        Ok(order)
    }

    /// Run one frame: validate and compute the execution order, then invoke
    /// every node's `update` in that order, feeding each input slot from the
    /// upstream output slot its inbound slot edge names.  A cyclic graph is
    /// rejected before any node executes.  The context only grows, no buffer
    /// is left mapped, and the graph keeps its names, edges and node shapes.
    /// Every texture-producing node ends the frame resolved and every wired
    /// readout delivered to its sink: see `frame_done_at`.
    #[verifier::rlimit(100)]
    pub fn run_frame<C: ResourceContext>(&mut self, world: &World, render_context: &mut C) -> (r:
        Result<(), GraphError>)
        requires
            old(self).wf(),
            old(self).resident(&*old(render_context)),
        ensures
            final(self).wf(),
            final(self).resident(&*final(render_context)),
            final(self).node_count() == old(self).node_count(),
            final(self).node_names() == old(self).node_names(),
            final(self).slot_edge_seq() == old(self).slot_edge_seq(),
            final(self).node_edge_seq() == old(self).node_edge_seq(),
            forall|i: int|
                0 <= i < old(self).node_count() ==> (#[trigger] final(self).kinds()[i]).same_kind(
                    old(self).kinds()[i],
                ),
            match r {
                Ok(()) => !old(self).cyclic(),
                Err(e) => {
                    &&& e == GraphError::CycleDetected
                    &&& old(self).cyclic()
                    &&& *final(self) == *old(self)
                    &&& *final(render_context) == *old(render_context)
                },
            },
            old(render_context).textures().submap_of(final(render_context).textures()),
            old(render_context).buffers().submap_of(final(render_context).buffers()),
            final(render_context).mapped() == old(render_context).mapped(),
            forall|w: nat|
                #![trigger old(render_context).aligned_spec(w)]
                #![trigger final(render_context).aligned_spec(w)]
                final(render_context).aligned_spec(w) == old(render_context).aligned_spec(w),
            r is Ok ==> forall|i: int|
                0 <= i < old(self).node_count() ==> final(self).frame_done_at(
                    *old(self),
                    &*old(render_context),
                    &*final(render_context),
                    i,
                ),
    {
        let order = match self.execution_order() {
            Ok(o) => o,
            Err(e) => {
                return Err(e);
            },
        };
        let n = self.nodes.len();
        let mut step: usize = 0;
        #[verifier::loop_isolation(false)]
        while step < order.len()
            invariant
                order@.len() == n,
                forall|i: int| 0 <= i < order@.len() ==> (#[trigger] order@[i]) < n,
                self.wf(),
                self.resident(&*render_context),
                self.node_count() == n,
                self.node_names() == old(self).node_names(),
                self.slot_edge_seq() == old(self).slot_edge_seq(),
                self.node_edge_seq() == old(self).node_edge_seq(),
                forall|i: int|
                    0 <= i < n ==> (#[trigger] self.kinds()[i]).same_kind(old(self).kinds()[i])
                        && self.kinds()[i].input_types() == old(self).kinds()[i].input_types()
                        && self.kinds()[i].output_types() == old(self).kinds()[i].output_types(),
                old(render_context).textures().submap_of(render_context.textures()),
                old(render_context).buffers().submap_of(render_context.buffers()),
                render_context.mapped() == old(render_context).mapped(),
                forall|w: nat|
                    #![trigger old(render_context).aligned_spec(w)]
                    #![trigger render_context.aligned_spec(w)]
                    render_context.aligned_spec(w) == old(render_context).aligned_spec(w),
                old(self).valid_order(order@),
                forall|i: int|
                    0 <= i < n && #[trigger] in_prefix(order@, step as int, i)
                        ==> self.frame_done_at(
                        *old(self),
                        &*old(render_context),
                        &*render_context,
                        i,
                    ),
                forall|i: int|
                    0 <= i < n && !(#[trigger] in_prefix(order@, step as int, i))
                        ==> self.kinds()[i] == old(self).kinds()[i] && self.outputs()[i] == old(
                        self,
                    ).outputs()[i],
            decreases order.len() - step,
        {
            let idx = order[step];
            let input_infos = self.nodes[idx].kind.input();
            let icount = input_infos.len();
            let mut inputs = ResourceSlots::new(icount);
            let m = self.slot_edges.len();
            let mut k: usize = 0;
            #[verifier::loop_isolation(false)]
            while k < m
                invariant
                    k <= m,
                    inputs@.len() == icount,
                    slots_conform(inputs@, self.kinds()[idx as int].input_types()),
                    slots_live(inputs@, &*render_context),
                    forall|k2: int|
                        0 <= k2 < k && (#[trigger] self.slot_edge_seq()[k2]).input_node == idx
                            ==> inputs@[self.slot_edge_seq()[k2].input_index as int] is Some
                            && inputs@[self.slot_edge_seq()[k2].input_index as int]
                            == self.outputs()[self.slot_edge_seq()[k2].output_node as int][
                            self.slot_edge_seq()[k2].output_index as int
                        ],
                    forall|j: int|
                        0 <= j < icount && #[trigger] inputs@[j] is Some ==> old(self).has_inbound(
                            idx as int,
                        ),
                decreases m - k,
            {
                let e = self.slot_edges[k];
                if e.input_node == idx {
                    proof {
                        assert(self.slot_edge_seq()[k as int] == e);
                        let u: int = e.output_node as int;
                        // the edge's source declares an output slot, so it is
                        // a texture-producing node that already ran this frame
                        assert(e.output_index < self.kinds()[u].output_types().len());
                        if self.kinds()[u] matches NodeKind::TextureReadout(_) {
                            assert(self.kinds()[u].output_types().len() == 0);
                        }
                        assert(self.kinds()[u] is Texture);
                        if old(self).kinds()[u] matches NodeKind::TextureReadout(_) {
                            assert(!self.kinds()[u].same_kind(old(self).kinds()[u]));
                        }
                        assert(old(self).kinds()[u] is Texture);
                        assert(old(self).has_edge(u, idx as int));
                        assert(order_contains(order@, u));
                        let su = choose|s2: int|
                            0 <= s2 < order@.len() && order@[s2] == u;
                        assert(order@[step as int] == idx);
                        assert(old(self).has_edge(
                            order@[su] as int,
                            order@[step as int] as int,
                        ));
                        assert(su < step);
                        assert(in_prefix(order@, step as int, u));
                        assert(self.frame_done_at(
                            *old(self),
                            &*old(render_context),
                            &*render_context,
                            u,
                        ));
                        assert(self.outputs()[u][0] is Some);
                        assert(e.output_index == 0);
                        assert(self.outputs()[u] == self.nodes@[u].output_slots@);
                    }
                    match self.nodes[e.output_node].output_slots.get(e.output_index) {
                        Some(val) => {
                            proof {
                                assert(self.outputs()[e.output_node as int]
                                    == self.nodes@[e.output_node as int].output_slots@);
                                assert(slots_conform(
                                    self.outputs()[e.output_node as int],
                                    self.kinds()[e.output_node as int].output_types(),
                                ));
                                assert(slots_live(
                                    self.outputs()[e.output_node as int],
                                    &*render_context,
                                ));
                                assert(val.resource_type() == self.kinds()[
                                    idx as int
                                ].input_types()[e.input_index as int]);
                            }
                            inputs.set(e.input_index, val);
                        },
                        None => {
                            proof {
                                assert(false);
                            }
                        },
                    }
                }
                k = k + 1;
            }
            let ghost prior_graph = *self;
            let ghost prior_ctx = *render_context;
            let entry = self.nodes.remove(idx);
            proof {
                assert(entry == prior_graph.nodes@[idx as int]);
                assert(entry.kind == prior_graph.kinds()[idx as int]);
                assert(entry.output_slots@ == prior_graph.outputs()[idx as int]);
            }
            let NodeEntry { name, mut kind, mut output_slots } = entry;
            kind.update(world, render_context, &inputs, &mut output_slots);
            let entry = NodeEntry { name, kind, output_slots };
            self.nodes.insert(idx, entry);
            proof {
                assert(self.nodes@ =~= prior_graph.nodes@.update(idx as int, entry));
                assert(self.node_names() =~= prior_graph.node_names());
                assert(self.slot_edge_seq() == prior_graph.slot_edge_seq());
                assert(self.node_edge_seq() == prior_graph.node_edge_seq());
                assert forall|i: int| 0 <= i < n implies (#[trigger] self.kinds()[i]).wf()
                    && self.kinds()[i].same_kind(old(self).kinds()[i]) && self.kinds()[
                    i
                ].input_types() == old(self).kinds()[i].input_types() && self.kinds()[
                    i
                ].output_types() == old(self).kinds()[i].output_types() && slots_conform(
                    self.outputs()[i],
                    self.kinds()[i].output_types(),
                ) by {
                    if i != idx as int {
                        assert(self.kinds()[i] == prior_graph.kinds()[i]);
                        assert(self.outputs()[i] == prior_graph.outputs()[i]);
                    }
                }
                assert forall|i: int| 0 <= i < n implies (#[trigger] self.kinds()[i]).resident(
                    &*render_context,
                ) && slots_live(self.outputs()[i], &*render_context) by {
                    if i != idx as int {
                        assert(self.kinds()[i] == prior_graph.kinds()[i]);
                        assert(self.outputs()[i] == prior_graph.outputs()[i]);
                        assert(prior_graph.kinds()[i].resident(&prior_ctx));
                        assert(slots_live(prior_graph.outputs()[i], &prior_ctx));
                        lemma_live_preserved(
                            prior_graph.outputs()[i],
                            &prior_ctx,
                            &*render_context,
                        );
                        prior_graph.kinds()[i].lemma_resident_preserved(
                            &prior_ctx,
                            &*render_context,
                        );
                    }
                }
                lemma_submap_trans(
                    old(render_context).textures(),
                    prior_ctx.textures(),
                    render_context.textures(),
                );
                lemma_submap_trans(
                    old(render_context).buffers(),
                    prior_ctx.buffers(),
                    render_context.buffers(),
                );
                // idx had not run yet this frame, so its entry was untouched
                assert(!in_prefix(order@, step as int, idx as int)) by {
                    if in_prefix(order@, step as int, idx as int) {
                        let s = choose|s2: int|
                            0 <= s2 < step && s2 < order@.len() && order@[s2] == idx as int;
                        assert(order@[s] == order@[step as int]);
                    }
                }
                assert(prior_graph.kinds()[idx as int] == old(self).kinds()[idx as int]);
                assert(prior_graph.outputs()[idx as int] == old(self).outputs()[idx as int]);
                assert(self.kinds()[idx as int] == entry.kind);
                assert(self.outputs()[idx as int] == entry.output_slots@);
                // the node run this step meets its frame postcondition
                assert(self.frame_done_at(
                    *old(self),
                    &*old(render_context),
                    &*render_context,
                    idx as int,
                )) by {
                    match old(self).kinds()[idx as int] {
                        NodeKind::Texture(nd) => {
                            if old(self).outputs()[idx as int][0] is None {
                                match self.outputs()[idx as int][0] {
                                    Some(RenderResourceId::Texture(t)) => {
                                        assert(!prior_ctx.textures().contains_key(t));
                                        assert(!old(render_context).textures().contains_key(
                                            t,
                                        )) by {
                                            if old(render_context).textures().contains_key(t) {
                                                assert(old(
                                                    render_context,
                                                ).textures().dom().contains(t));
                                                let ghost probe =
                                                    prior_ctx.textures().dom().contains(t);
                                            }
                                        }
                                    },
                                    _ => {},
                                }
                            }
                        },
                        NodeKind::TextureReadout(nd) => {
                            assert(icount == 1);
                            assert forall|k2: int|
                                0 <= k2 < old(self).slot_edge_seq().len() && (#[trigger] old(
                                    self,
                                ).slot_edge_seq()[k2]).input_node == idx as int implies
                                inputs@[0] == self.outputs()[
                                old(self).slot_edge_seq()[k2].output_node as int
                            ][old(self).slot_edge_seq()[k2].output_index as int] by {
                                let e2 = old(self).slot_edge_seq()[k2];
                                let u: int = e2.output_node as int;
                                assert(e2.input_index == 0);
                                assert(inputs@[0] == prior_graph.outputs()[u][
                                    e2.output_index as int
                                ]);
                                // a slot edge from a node to itself would be a
                                // cycle, which the computed order excludes
                                assert(u != idx as int) by {
                                    if u == idx as int {
                                        assert(old(self).has_edge(
                                            order@[step as int] as int,
                                            order@[step as int] as int,
                                        ));
                                    }
                                }
                                assert(self.outputs()[u] == prior_graph.outputs()[u]);
                            }
                            if old(self).has_inbound(idx as int) {
                                let ke = choose|k2: int|
                                    0 <= k2 < old(self).slot_edge_seq().len() && (
                                    #[trigger] old(self).slot_edge_seq()[k2]).input_node
                                        == idx as int;
                                assert(self.slot_edge_seq()[ke].input_node == idx);
                                assert(self.slot_edge_seq()[ke].input_index == 0);
                                assert(inputs@[0] is Some);
                                assert(inputs.get_spec(0) is Some);
                            } else {
                                assert(inputs@[0] is None) by {
                                    if inputs@[0] is Some {
                                        assert(old(self).has_inbound(idx as int));
                                    }
                                }
                                assert(inputs.get_spec(0) is None);
                            }
                        },
                    }
                }
                // nodes already run keep their postcondition; the rest stay put
                assert forall|i: int|
                    0 <= i < n && #[trigger] in_prefix(order@, step as int + 1, i) implies
                    self.frame_done_at(
                    *old(self),
                    &*old(render_context),
                    &*render_context,
                    i,
                ) by {
                    if i != idx as int {
                        assert(in_prefix(order@, step as int, i)) by {
                            let s = choose|s2: int|
                                0 <= s2 < step + 1 && s2 < order@.len() && order@[s2] == i;
                            assert(s != step as int);
                        }
                        assert(self.kinds()[i] == prior_graph.kinds()[i]);
                        assert(self.outputs()[i] == prior_graph.outputs()[i]);
                        assert forall|k2: int|
                            0 <= k2 < old(self).slot_edge_seq().len() && (#[trigger] old(
                                self,
                            ).slot_edge_seq()[k2]).input_node == i implies self.outputs()[
                            old(self).slot_edge_seq()[k2].output_node as int
                        ] == prior_graph.outputs()[
                            old(self).slot_edge_seq()[k2].output_node as int
                        ] by {
                            let u: int = old(self).slot_edge_seq()[k2].output_node as int;
                            assert(old(self).has_edge(u, i));
                            // u runs before i, which already ran, so u is not
                            // the node this step touched
                            let si = choose|s2: int|
                                0 <= s2 < step && s2 < order@.len() && order@[s2] == i;
                            assert(order_contains(order@, u));
                            let su = choose|s2: int|
                                0 <= s2 < order@.len() && order@[s2] == u;
                            assert(old(self).has_edge(
                                order@[su] as int,
                                order@[si] as int,
                            ));
                            assert(su < si);
                            assert(in_prefix(order@, step as int, u));
                            assert(u != idx as int);
                        }
                        Self::lemma_frame_done_step(
                            prior_graph,
                            *self,
                            *old(self),
                            &*old(render_context),
                            &prior_ctx,
                            &*render_context,
                            i,
                        );
                    }
                }
                assert forall|i: int|
                    0 <= i < n && !(#[trigger] in_prefix(order@, step as int + 1, i)) implies
                    self.kinds()[i] == old(self).kinds()[i] && self.outputs()[i] == old(
                    self,
                ).outputs()[i] by {
                    assert(in_prefix(order@, step as int + 1, idx as int));
                    assert(i != idx as int);
                    assert(!in_prefix(order@, step as int, i)) by {
                        if in_prefix(order@, step as int, i) {
                            let s = choose|s2: int|
                                0 <= s2 < step && s2 < order@.len() && order@[s2] == i;
                        }
                    }
                    assert(self.kinds()[i] == prior_graph.kinds()[i]);
                    assert(self.outputs()[i] == prior_graph.outputs()[i]);
                }
            }
            step = step + 1;
        }
        proof {
            assert forall|i: int| 0 <= i < n implies self.frame_done_at(
                *old(self),
                &*old(render_context),
                &*render_context,
                i,
            ) by {
                assert(order_contains(order@, i));
                let s = choose|s2: int| 0 <= s2 < order@.len() && order@[s2] == i;
                assert(in_prefix(order@, step as int, i));
            }
        }
        Ok(())
    }

    /// Exclusive access to the node of this name, if any.  The caller can
    /// change only the node's own state; the graph's names, edges and the
    /// persisted slot tables stay as they were.
    pub fn get_node_mut(&mut self, name: &str) -> (r: Option<&mut NodeKind<S>>)
        requires
            old(self).wf(),
        ensures
            match r {
                Some(k) => {
                    &&& old(self).has_node(name@)
                    &&& *k == old(self).kinds()[old(self).node_at(name@)]
                    &&& final(self).node_names() == old(self).node_names()
                    &&& final(self).slot_edge_seq() == old(self).slot_edge_seq()
                    &&& final(self).node_edge_seq() == old(self).node_edge_seq()
                    &&& final(self).outputs() == old(self).outputs()
                    &&& final(self).kinds() == old(self).kinds().update(
                        old(self).node_at(name@),
                        *final(k),
                    )
                },
                None => !old(self).has_node(name@) && *final(self) == *old(self),
            },
    {
        match self.find_node(name) {
            Some(i) => {
                let entry = &mut self.nodes[i];
                Some(&mut entry.kind)
            },
            None => None,
        }
    }

    /// Shared access to the node of this name, if any.
    pub fn get_node(&self, name: &str) -> (r: Option<&NodeKind<S>>)
        requires
            self.wf(),
        ensures
            match r {
                Some(k) => self.has_node(name@) && *k == self.kinds()[self.node_at(name@)],
                None => !self.has_node(name@),
            },
    {
        match self.find_node(name) {
            Some(i) => Some(&self.nodes[i].kind),
            None => None,
        }
    }
}

} // verus!
