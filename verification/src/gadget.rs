//! Gadget definitions: ports, states, and the traversals between them.

use vstd::prelude::*;
use fnv::FnvHashSet;
use std::rc::Rc;
use crate::grid::WH;
use crate::math::Vec2i;
use crate::perimeter::edge_of_slot;
use crate::perimeter::perimeter_len;
use crate::perimeter::slot_double_midpoint;
use crate::perimeter::slot_double_position;
use crate::perimeter::slot_edge;
use vstd::arithmetic::div_mod::lemma_add_mod_noop;
use vstd::arithmetic::div_mod::lemma_fundamental_div_mod;
use vstd::arithmetic::div_mod::lemma_fundamental_div_mod_converse;
use vstd::arithmetic::div_mod::lemma_mod_bound;
use vstd::arithmetic::div_mod::lemma_mod_self_0;
use vstd::arithmetic::div_mod::lemma_mod_sub_multiples_vanish;
use vstd::arithmetic::div_mod::lemma_small_mod;
use crate::tables::lemma_take_to_set;
use crate::tables::set_elements;
use crate::tables::set_insert;

verus! {

#[derive(Copy, Clone, Debug, Eq, PartialEq, Hash, Ord, PartialOrd, Structural)]
pub struct Port(pub usize);

impl Port {
    /// Gets the id of this port
    pub fn id(self) -> (id: usize)
        ensures
            id == self.0,
    {
        self.0
    }
}

#[derive(Copy, Clone, Debug, Eq, PartialEq, Hash, Ord, PartialOrd, Structural)]
pub struct State(pub usize);

impl State {
    /// Gets the id of this state
    pub fn id(self) -> (id: usize)
        ensures
            id == self.0,
    {
        self.0
    }
}

/// Type for (state, port) combinations
pub type SP = (State, Port);

/// Type for (port, port) traversals
pub type PP = (Port, Port);

/// Type for ((state, port), (state, port)) traversals
pub type SPSP = (SP, SP);

/// A traversal as the bare ids of its states and ports, the form in which
/// traversals are hashed.
pub type RawTraversal = ((usize, usize), (usize, usize));

pub open spec fn raw_traversal(t: SPSP) -> RawTraversal {
    ((t.0.0.0, t.0.1.0), (t.1.0.0, t.1.1.0))
}

pub open spec fn typed_traversal(r: RawTraversal) -> SPSP {
    ((State(r.0.0), Port(r.0.1)), (State(r.1.0), Port(r.1.1)))
}

/// The order in which destinations are listed: by state, then by port.
pub open spec fn sp_before(a: SP, b: SP) -> bool {
    a.0.0 < b.0.0 || (a.0.0 == b.0.0 && a.1.0 < b.1.0)
}

/// The order in which traversals are listed: by source, then by destination.
pub open spec fn spsp_before(a: SPSP, b: SPSP) -> bool {
    sp_before(a.0, b.0) || (a.0 == b.0 && sp_before(a.1, b.1))
}

/// Listed in ascending order, nothing twice.
pub open spec fn sp_sorted(s: Seq<SP>) -> bool {
    forall|i: int, j: int| 0 <= i < j < s.len() ==> sp_before(#[trigger] s[i], #[trigger] s[j])
}

/// Listed in ascending order, nothing twice.
pub open spec fn spsp_sorted(s: Seq<SPSP>) -> bool {
    forall|i: int, j: int| 0 <= i < j < s.len() ==> spsp_before(#[trigger] s[i], #[trigger] s[j])
}

/// Whether every traversal of a list stays within `num_states` states and
/// `num_ports` ports.
pub open spec fn traversals_in_range(num_states: usize, num_ports: usize, traversals: Seq<SPSP>) -> bool {
    forall|i: int|
        0 <= i < traversals.len() ==> (#[trigger] traversals[i]).0.0.0 < num_states
            && traversals[i].0.1.0 < num_ports && traversals[i].1.0.0 < num_states
            && traversals[i].1.1.0 < num_ports
}

/// What a gadget definition says: how many ports and states there are, and
/// which traversals are allowed.
pub struct GadgetDefModel {
    pub num_ports: nat,
    pub num_states: nat,
    pub traversals: Set<SPSP>,
}

impl GadgetDefModel {
    /// There is at least one state, and every traversal stays within the
    /// states and ports of the definition.
    pub open spec fn wf(self) -> bool {
        &&& self.num_states >= 1
        &&& forall|t: SPSP| #[trigger]
            self.traversals.contains(t) ==> t.0.0.0 < self.num_states && t.0.1.0 < self.num_ports
                && t.1.0.0 < self.num_states && t.1.1.0 < self.num_ports
    }

    /// The destinations allowed from a state and port.
    pub open spec fn targets(self, sp: SP) -> Set<SP> {
        Set::new(|d: SP| self.traversals.contains((sp, d)))
    }

    /// The port-to-port traversals allowed in a state, whatever state they
    /// lead to.
    pub open spec fn port_traversals(self, state: State) -> Set<PP> {
        Set::new(
            |pp: PP| exists|s1: State| #[trigger] self.traversals.contains(((state, pp.0), (s1, pp.1))),
        )
    }
}

fn sp_lt(a: SP, b: SP) -> (lt: bool)
    ensures
        lt == sp_before(a, b),
{
    a.0.0 < b.0.0 || (a.0.0 == b.0.0 && a.1.0 < b.1.0)
}

fn sp_same(a: SP, b: SP) -> (same: bool)
    ensures
        same == (a == b),
{
    a.0.0 == b.0.0 && a.1.0 == b.1.0
}

fn spsp_lt(a: SPSP, b: SPSP) -> (lt: bool)
    ensures
        lt == spsp_before(a, b),
{
    sp_lt(a.0, b.0) || (sp_same(a.0, b.0) && sp_lt(a.1, b.1))
}

/// Puts a traversal at its place in an ascending list, unless it is there
/// already.
fn insert_sorted(list: &mut Vec<SPSP>, t: SPSP)
    requires
        spsp_sorted(old(list)@),
    ensures
        spsp_sorted(final(list)@),
        final(list)@.to_set() == old(list)@.to_set().insert(t),
{
    let mut i: usize = 0;
    while i < list.len() && spsp_lt(list[i], t)
        invariant
            0 <= i <= list@.len(),
            list@ == old(list)@,
            forall|k: int| 0 <= k < i ==> spsp_before(#[trigger] list@[k], t),
        decreases list@.len() - i,
    {
        i = i + 1;
    }
    let ghost before = list@;
    if i < list.len() && !spsp_lt(t, list[i]) {
        proof {
            assert(before[i as int] == t);
            assert(before.to_set().contains(t));
            assert(before.to_set() =~= before.to_set().insert(t));
        }
        return ;
    }
    list.insert(i, t);
    proof {
        let after = list@;
        assert(after == before.insert(i as int, t));
        assert forall|a: int, b: int| 0 <= a < b < after.len() implies spsp_before(
            #[trigger] after[a],
            #[trigger] after[b],
        ) by {
            let x = if a < i {
                before[a]
            } else if a == i {
                t
            } else {
                before[a - 1]
            };
            let y = if b < i {
                before[b]
            } else if b == i {
                t
            } else {
                before[b - 1]
            };
            assert(after[a] == x);
            assert(after[b] == y);
            if b < i {
                assert(spsp_before(before[a], before[b]));
            } else if b == i {
                assert(spsp_before(before[a], t));
            } else if a < i {
                assert(spsp_before(before[a], t));
                if b - 1 > i {
                    assert(spsp_before(before[i as int], before[b - 1]));
                }
            } else if a == i {
                if b - 1 > i {
                    assert(spsp_before(before[i as int], before[b - 1]));
                }
            } else {
                assert(spsp_before(before[a - 1], before[b - 1]));
            }
        }
        assert forall|u: SPSP| after.to_set().contains(u) <==> before.to_set().insert(t).contains(
            u,
        ) by {
            if after.contains(u) {
                let k = choose|k: int| 0 <= k < after.len() && after[k] == u;
                if k < i {
                    assert(before[k] == u);
                } else if k > i {
                    assert(before[k - 1] == u);
                }
            }
            if before.contains(u) {
                let k = choose|k: int| 0 <= k < before.len() && before[k] == u;
                if k < i {
                    assert(after[k] == u);
                } else {
                    assert(after[k + 1] == u);
                }
            }
            if u == t {
                assert(after[i as int] == u);
            }
        }
        assert(after.to_set() =~= before.to_set().insert(t));
    }
}

/// Why a definition was refused.
#[derive(Clone, Copy, Debug, PartialEq, Eq, Structural)]
pub enum DefError {
    /// A gadget is always in some state: there has to be one at least.
    NoStates,
}

/// Definition of a gadget, including ports, states, and transitions
#[derive(Debug)]
pub struct GadgetDef {
    num_ports: usize,
    num_states: usize,
    traversals: FnvHashSet<RawTraversal>,
}

impl View for GadgetDef {
    type V = GadgetDefModel;

    closed spec fn view(&self) -> GadgetDefModel {
        GadgetDefModel {
            num_ports: self.num_ports as nat,
            num_states: self.num_states as nat,
            traversals: Set::new(|t: SPSP| self.traversals@.contains(raw_traversal(t))),
        }
    }
}

impl GadgetDef {
    /// The invariant of a definition; see [`GadgetDefModel::wf`].
    pub open spec fn wf(&self) -> bool {
        self@.wf()
    }

    /// Constructs the "nope" gadget, which has no traversals. A definition
    /// without states is refused.
    pub fn new(num_states: usize, num_ports: usize) -> (made: Result<GadgetDef, DefError>)
        ensures
            match made {
                Ok(def) => {
                    &&& num_states >= 1
                    &&& def.wf()
                    &&& def@.num_states == num_states
                    &&& def@.num_ports == num_ports
                    &&& def@.traversals == Set::<SPSP>::empty()
                },
                Err(e) => num_states == 0 && e == DefError::NoStates,
            },
    {
        if num_states < 1 {
            return Err(DefError::NoStates);
        }
        let def = GadgetDef { num_ports, num_states, traversals: FnvHashSet::default() };
        proof {
            assert(def@.traversals =~= Set::<SPSP>::empty());
        }
        Ok(def)
    }

    /// Whether every traversal of a list stays within `num_states` states and
    /// `num_ports` ports: what [`GadgetDef::from_traversals`] asks of its
    /// caller.
    pub fn check_traversals(num_states: usize, num_ports: usize, traversals: &Vec<SPSP>) -> (ok:
        bool)
        ensures
            ok == traversals_in_range(num_states, num_ports, traversals@),
    {
        let mut i: usize = 0;
        while i < traversals.len()
            invariant
                0 <= i <= traversals@.len(),
                traversals_in_range(num_states, num_ports, traversals@.take(i as int)),
            decreases traversals@.len() - i,
        {
            let t = traversals[i];
            if !(t.0.0.0 < num_states && t.0.1.0 < num_ports && t.1.0.0 < num_states && t.1.1.0
                < num_ports) {
                return false;
            }
            proof {
                let next = traversals@.take(i + 1);
                assert forall|k: int| 0 <= k < next.len() implies (#[trigger] next[k]).0.0.0
                    < num_states && next[k].0.1.0 < num_ports && next[k].1.0.0 < num_states
                    && next[k].1.1.0 < num_ports by {
                    if k < i {
                        assert(traversals@.take(i as int)[k] == next[k]);
                    }
                }
            }
            i = i + 1;
        }
        proof {
            assert(traversals@.take(traversals@.len() as int) =~= traversals@);
        }
        true
    }

    /// Constructs a definition with the given traversals. A definition
    /// without states is refused. The ids in the traversals are not checked:
    /// that they lie within the states and ports is up to the caller.
    pub fn from_traversals(num_states: usize, num_ports: usize, traversals: Vec<SPSP>) -> (made:
        Result<GadgetDef, DefError>)
        requires
            traversals_in_range(num_states, num_ports, traversals@),
        ensures
            match made {
                Ok(def) => {
                    &&& num_states >= 1
                    &&& def.wf()
                    &&& def@.num_states == num_states
                    &&& def@.num_ports == num_ports
                    &&& def@.traversals == traversals@.to_set()
                },
                Err(e) => num_states == 0 && e == DefError::NoStates,
            },
    {
        if num_states < 1 {
            return Err(DefError::NoStates);
        }
        let mut set: FnvHashSet<RawTraversal> = FnvHashSet::default();
        let mut i: usize = 0;
        while i < traversals.len()
            invariant
                0 <= i <= traversals@.len(),
                forall|r: RawTraversal|
                    set@.contains(r) <==> exists|j: int|
                        0 <= j < i && raw_traversal(#[trigger] traversals@[j]) == r,
            decreases traversals@.len() - i,
        {
            let t = traversals[i];
            let ghost before = set@;
            set_insert(&mut set, ((t.0.0.0, t.0.1.0), (t.1.0.0, t.1.1.0)));
            proof {
                assert forall|r: RawTraversal|
                    set@.contains(r) <==> exists|j: int|
                        0 <= j < i + 1 && raw_traversal(#[trigger] traversals@[j]) == r by {
                    if before.contains(r) {
                        let j = choose|j: int|
                            0 <= j < i && raw_traversal(#[trigger] traversals@[j]) == r;
                        assert(0 <= j < i + 1 && raw_traversal(traversals@[j]) == r);
                    }
                    if r == raw_traversal(t) {
                        assert(raw_traversal(traversals@[i as int]) == r);
                    }
                    if exists|j: int| 0 <= j < i + 1 && raw_traversal(#[trigger] traversals@[j]) == r {
                        let j = choose|j: int|
                            0 <= j < i + 1 && raw_traversal(#[trigger] traversals@[j]) == r;
                        if j < i {
                            assert(before.contains(r));
                        }
                    }
                }
            }
            i = i + 1;
        }
        let def = GadgetDef { num_ports, num_states, traversals: set };
        proof {
            assert forall|t: SPSP| def@.traversals.contains(t) <==> traversals@.to_set().contains(
                t,
            ) by {
                if def@.traversals.contains(t) {
                    let j = choose|j: int|
                        0 <= j < traversals@.len() && raw_traversal(#[trigger] traversals@[j])
                            == raw_traversal(t);
                    assert(traversals@[j] == t);
                }
                if traversals@.to_set().contains(t) {
                    let j = choose|j: int| 0 <= j < traversals@.len() && traversals@[j] == t;
                    assert(raw_traversal(traversals@[j]) == raw_traversal(t));
                }
            }
            assert(def@.traversals =~= traversals@.to_set());
        }
        Ok(def)
    }

    pub fn num_ports(&self) -> (n: usize)
        ensures
            n == self@.num_ports,
    {
        self.num_ports
    }

    pub fn num_states(&self) -> (n: usize)
        ensures
            n == self@.num_states,
    {
        self.num_states
    }

    /// Gets all the traversals, in ascending order.
    pub fn traversals(&self) -> (list: Vec<SPSP>)
        ensures
            spsp_sorted(list@),
            list@.to_set() == self@.traversals,
    {
        let raw = set_elements(&self.traversals);
        let mut list: Vec<SPSP> = Vec::new();
        let mut i: usize = 0;
        proof {
            assert(list@.to_set() =~= raw@.take(0).to_set().map(|r: RawTraversal| typed_traversal(r)));
        }
        while i < raw.len()
            invariant
                0 <= i <= raw@.len(),
                spsp_sorted(list@),
                list@.to_set() == raw@.take(i as int).to_set().map(
                    |r: RawTraversal| typed_traversal(r),
                ),
            decreases raw@.len() - i,
        {
            let r = raw[i];
            let t: SPSP = ((State(r.0.0), Port(r.0.1)), (State(r.1.0), Port(r.1.1)));
            insert_sorted(&mut list, t);
            proof {
                lemma_take_to_set(raw@, i as int);
                let head = raw@.take(i as int).to_set();
                let typed = |r: RawTraversal| typed_traversal(r);
                assert(head.insert(r).map(typed) =~= head.map(typed).insert(t)) by {
                    assert forall|u: SPSP| head.insert(r).map(typed).contains(u) implies head.map(
                        typed,
                    ).insert(t).contains(u) by {
                        let w = choose|w: RawTraversal| head.insert(r).contains(w) && typed(w) == u;
                        if w != r {
                            assert(head.contains(w));
                        }
                    }
                    assert forall|u: SPSP| head.map(typed).insert(t).contains(u) implies head.insert(
                        r,
                    ).map(typed).contains(u) by {
                        if u == t {
                            assert(head.insert(r).contains(r) && typed(r) == u);
                        } else {
                            let w = choose|w: RawTraversal| head.contains(w) && typed(w) == u;
                            assert(head.insert(r).contains(w) && typed(w) == u);
                        }
                    }
                }
            }
            i = i + 1;
        }
        proof {
            assert(raw@.take(raw@.len() as int) =~= raw@);
            let typed = |r: RawTraversal| typed_traversal(r);
            assert forall|u: SPSP| self.traversals@.map(typed).contains(u) <==> self@.traversals.contains(
                u,
            ) by {
                if self.traversals@.map(typed).contains(u) {
                    let w = choose|w: RawTraversal| self.traversals@.contains(w) && typed(w) == u;
                    assert(raw_traversal(u) == w);
                }
                if self@.traversals.contains(u) {
                    assert(self.traversals@.contains(raw_traversal(u)) && typed(raw_traversal(u)) == u);
                }
            }
            assert(list@.to_set() =~= self@.traversals);
        }
        list
    }

    /// Gets all the destinations allowed in some state and port, in ascending
    /// order.
    pub fn targets_from_state_port(&self, sp: SP) -> (targets: Vec<SP>)
        ensures
            sp_sorted(targets@),
            targets@.to_set() == self@.targets(sp),
    {
        let all = self.traversals();
        let mut targets: Vec<SP> = Vec::new();
        let ghost mut from: Seq<int> = Seq::empty();
        let mut i: usize = 0;
        while i < all.len()
            invariant
                0 <= i <= all@.len(),
                spsp_sorted(all@),
                sp_sorted(targets@),
                from.len() == targets@.len(),
                forall|k: int|
                    0 <= k < from.len() ==> 0 <= #[trigger] from[k] < i && all@[from[k]] == (
                        sp,
                        targets@[k],
                    ),
                forall|j: int|
                    0 <= j < i && (#[trigger] all@[j]).0 == sp ==> targets@.contains(all@[j].1),
            decreases all@.len() - i,
        {
            let t = all[i];
            if sp_same(t.0, sp) {
                let ghost before = targets@;
                targets.push(t.1);
                proof {
                    from = from.push(i as int);
                    assert forall|a: int, b: int| 0 <= a < b < targets@.len() implies sp_before(
                        #[trigger] targets@[a],
                        #[trigger] targets@[b],
                    ) by {
                        if b == before.len() {
                            assert(spsp_before(all@[from[a]], all@[i as int]));
                        }
                    }
                    assert forall|j: int|
                        0 <= j < i + 1 && (#[trigger] all@[j]).0 == sp implies targets@.contains(
                        all@[j].1,
                    ) by {
                        if j < i {
                            let k = choose|k: int| 0 <= k < before.len() && before[k] == all@[j].1;
                            assert(targets@[k] == all@[j].1);
                        } else {
                            assert(targets@[before.len() as int] == all@[j].1);
                        }
                    }
                }
            }
            i = i + 1;
        }
        proof {
            assert forall|d: SP| targets@.to_set().contains(d) <==> self@.targets(sp).contains(
                d,
            ) by {
                if targets@.contains(d) {
                    let k = choose|k: int| 0 <= k < targets@.len() && targets@[k] == d;
                    assert(all@.to_set().contains(all@[from[k]]));
                }
                if self@.targets(sp).contains(d) {
                    assert(all@.to_set().contains((sp, d)));
                    let j = choose|j: int| 0 <= j < all@.len() && all@[j] == (sp, d);
                    assert(targets@.contains(all@[j].1));
                }
            }
            assert(targets@.to_set() =~= self@.targets(sp));
        }
        targets
    }

    /// Gets all the port-to-port traversals allowed in some state, by the
    /// ids of the ports.
    pub fn port_traversals_in_state(&self, state: State) -> (pairs: FnvHashSet<(usize, usize)>)
        ensures
            forall|p0: Port, p1: Port|
                pairs@.contains((p0.0, p1.0)) <==> self@.port_traversals(state).contains((p0, p1)),
    {
        let raw = set_elements(&self.traversals);
        let mut pairs: FnvHashSet<(usize, usize)> = FnvHashSet::default();
        let mut i: usize = 0;
        while i < raw.len()
            invariant
                0 <= i <= raw@.len(),
                forall|pp: (usize, usize)|
                    pairs@.contains(pp) <==> exists|j: int|
                        0 <= j < i && (#[trigger] raw@[j]).0 == (state.0, pp.0) && raw@[j].1.1
                            == pp.1,
            decreases raw@.len() - i,
        {
            let r = raw[i];
            if r.0.0 == state.0 {
                let ghost before = pairs@;
                set_insert(&mut pairs, (r.0.1, r.1.1));
                proof {
                    assert forall|pp: (usize, usize)|
                        pairs@.contains(pp) <==> exists|j: int|
                            0 <= j < i + 1 && (#[trigger] raw@[j]).0 == (state.0, pp.0)
                                && raw@[j].1.1 == pp.1 by {
                        if before.contains(pp) {
                            let j = choose|j: int|
                                0 <= j < i && (#[trigger] raw@[j]).0 == (state.0, pp.0)
                                    && raw@[j].1.1 == pp.1;
                            assert(0 <= j < i + 1 && raw@[j].0 == (state.0, pp.0) && raw@[j].1.1
                                == pp.1);
                        }
                        if pp == (r.0.1, r.1.1) {
                            assert(raw@[i as int].0 == (state.0, pp.0) && raw@[i as int].1.1
                                == pp.1);
                        }
                        if exists|j: int|
                            0 <= j < i + 1 && (#[trigger] raw@[j]).0 == (state.0, pp.0)
                                && raw@[j].1.1 == pp.1 {
                            let j = choose|j: int|
                                0 <= j < i + 1 && (#[trigger] raw@[j]).0 == (state.0, pp.0)
                                    && raw@[j].1.1 == pp.1;
                            if j < i {
                                assert(before.contains(pp));
                            }
                        }
                    }
                }
            } else {
                proof {
                    assert forall|pp: (usize, usize)|
                        pairs@.contains(pp) <==> exists|j: int|
                            0 <= j < i + 1 && (#[trigger] raw@[j]).0 == (state.0, pp.0)
                                && raw@[j].1.1 == pp.1 by {
                        if pairs@.contains(pp) {
                            let j = choose|j: int|
                                0 <= j < i && (#[trigger] raw@[j]).0 == (state.0, pp.0)
                                    && raw@[j].1.1 == pp.1;
                            assert(0 <= j < i + 1 && raw@[j].0 == (state.0, pp.0) && raw@[j].1.1
                                == pp.1);
                        }
                    }
                }
            }
            i = i + 1;
        }
        proof {
            assert forall|p0: Port, p1: Port|
                pairs@.contains((p0.0, p1.0)) <==> self@.port_traversals(state).contains(
                    (p0, p1),
                ) by {
                if pairs@.contains((p0.0, p1.0)) {
                    let j = choose|j: int|
                        0 <= j < raw@.len() && (#[trigger] raw@[j]).0 == (state.0, p0.0)
                            && raw@[j].1.1 == p1.0;
                    assert(raw@.to_set().contains(raw@[j]));
                    let s1 = State(raw@[j].1.0);
                    assert(raw_traversal(((state, p0), (s1, p1))) == raw@[j]);
                    assert(self@.traversals.contains(((state, p0), (s1, p1))));
                }
                if self@.port_traversals(state).contains((p0, p1)) {
                    let s1 = choose|s1: State| #[trigger]
                        self@.traversals.contains(((state, p0), (s1, p1)));
                    let r = raw_traversal(((state, p0), (s1, p1)));
                    assert(raw@.to_set().contains(r));
                    let j = choose|j: int| 0 <= j < raw@.len() && raw@[j] == r;
                    assert(raw@[j].0 == (state.0, p0.0) && raw@[j].1.1 == p1.0);
                }
            }
        }
        pairs
    }
}

impl Clone for GadgetDef {
    fn clone(&self) -> (copy: Self)
        ensures
            copy@ == self@,
    {
        let raw = set_elements(&self.traversals);
        let mut set: FnvHashSet<RawTraversal> = FnvHashSet::default();
        let mut i: usize = 0;
        while i < raw.len()
            invariant
                0 <= i <= raw@.len(),
                set@ == raw@.take(i as int).to_set(),
            decreases raw@.len() - i,
        {
            set_insert(&mut set, raw[i]);
            proof {
                lemma_take_to_set(raw@, i as int);
            }
            i = i + 1;
        }
        proof {
            assert(raw@.take(raw@.len() as int) =~= raw@);
        }
        let copy = GadgetDef { num_ports: self.num_ports, num_states: self.num_states, traversals: set };
        proof {
            assert(copy@.traversals =~= self@.traversals);
        }
        copy
    }
}

/// An ascending list is determined by what it holds: two ascending lists of
/// the same destinations are the same list.
pub proof fn lemma_sp_sorted_unique(a: Seq<SP>, b: Seq<SP>)
    requires
        sp_sorted(a),
        sp_sorted(b),
        a.to_set() == b.to_set(),
    ensures
        a == b,
    decreases a.len(),
{
    if a.len() == 0 {
        if b.len() > 0 {
            assert(b.to_set().contains(b[0]));
            assert(a.contains(b[0]));
        }
        assert(a =~= b);
    } else {
        let x = a.last();
        assert(a.to_set().contains(x));
        assert(b.contains(x));
        let k = choose|k: int| 0 <= k < b.len() && b[k] == x;
        if k < b.len() - 1 {
            let y = b.last();
            assert(b.to_set().contains(y));
            assert(a.contains(y));
            let m = choose|m: int| 0 <= m < a.len() && a[m] == y;
            assert(sp_before(b[k], b[b.len() - 1]));
            if m < a.len() - 1 {
                assert(sp_before(a[m], a[a.len() - 1]));
            }
            assert(false);
        }
        let a0 = a.drop_last();
        let b0 = b.drop_last();
        assert forall|d: SP| a0.to_set().contains(d) <==> b0.to_set().contains(d) by {
            if a0.contains(d) {
                let i = choose|i: int| 0 <= i < a0.len() && a0[i] == d;
                assert(a[i] == d);
                assert(sp_before(a[i], a[a.len() - 1]));
                assert(a.to_set().contains(d));
                assert(b.contains(d));
                let j = choose|j: int| 0 <= j < b.len() && b[j] == d;
                assert(b0[j] == d);
            }
            if b0.contains(d) {
                let j = choose|j: int| 0 <= j < b0.len() && b0[j] == d;
                assert(b[j] == d);
                assert(sp_before(b[j], b[b.len() - 1]));
                assert(b.to_set().contains(d));
                assert(a.contains(d));
                let i = choose|i: int| 0 <= i < a.len() && a[i] == d;
                assert(a0[i] == d);
            }
        }
        assert(a0.to_set() =~= b0.to_set());
        lemma_sp_sorted_unique(a0, b0);
        assert(a =~= a0.push(x));
        assert(b =~= b0.push(x));
    }
}

/// The destinations of all sources, put together again, are exactly the
/// traversals of the definition.
pub proof fn lemma_targets_round_trip(def: GadgetDefModel)
    ensures
        Set::new(|t: SPSP| def.targets(t.0).contains(t.1)) == def.traversals,
        forall|src: SP, dst: SP| def.targets(src).contains(dst) <==> def.traversals.contains((src, dst)),
{
    assert(Set::new(|t: SPSP| def.targets(t.0).contains(t.1)) =~= def.traversals);
}

/// The port-to-port traversals of a state are the traversals that start in
/// that state, without their states: source port first, destination port
/// second.
pub proof fn lemma_port_traversals_projection(def: GadgetDefModel, state: State, p0: Port, p1: Port)
    ensures
        def.port_traversals(state).contains((p0, p1)) <==> exists|t: SPSP|
            #[trigger] def.traversals.contains(t) && t.0.0 == state && t.0.1 == p0 && t.1.1 == p1,
{
    if def.port_traversals(state).contains((p0, p1)) {
        let s1 = choose|s1: State| #[trigger] def.traversals.contains(((state, p0), (s1, p1)));
        assert(def.traversals.contains(((state, p0), (s1, p1))));
    }
    if exists|t: SPSP|
        #[trigger] def.traversals.contains(t) && t.0.0 == state && t.0.1 == p0 && t.1.1 == p1 {
        let t = choose|t: SPSP|
            #[trigger] def.traversals.contains(t) && t.0.0 == state && t.0.1 == p0 && t.1.1 == p1;
        assert(def.traversals.contains(((state, p0), (t.1.0, p1))));
    }
}

/// `std::rc::Rc::clone`: another handle to the same value.
#[verifier::external_body]
fn share<T>(handle: &Rc<T>) -> (other: Rc<T>)
    ensures
        other == *handle,
{
    Rc::clone(handle)
}

/// By how many slots a rotation by `n` spaces moves each port on a perimeter
/// of `len` slots: `n` modulo `len`.
pub open spec fn rotation_shift(len: int, n: int) -> int {
    if len > 0 {
        n % len
    } else {
        0
    }
}

/// The slot whose port arrives at `slot` when every port moves `shift` slots
/// counter-clockwise.
pub open spec fn rotation_source(len: int, shift: int, slot: int) -> int {
    if slot >= shift {
        slot - shift
    } else {
        slot + len - shift
    }
}

/// The bucket offset of a facing: up 0, right 1, down 2, left 3.
pub open spec fn facing_offset(facing: Vec2i) -> int {
    if facing.x == 0 {
        if facing.y > 0 {
            0
        } else {
            2
        }
    } else {
        if facing.x > 0 {
            1
        } else {
            3
        }
    }
}

/// Whether a slot map suits a gadget of the given size: it has one entry for
/// each unit segment of the perimeter, and names no port twice.
pub open spec fn slots_fit(size: WH, slots: Seq<Option<Port>>) -> bool {
    &&& slots.len() == perimeter_len(size)
    &&& forall|i: int, j: int|
        0 <= i < slots.len() && 0 <= j < slots.len() && i != j && (#[trigger] slots[i]) is Some
            ==> slots[i] != #[trigger] slots[j]
}

/// What a placed gadget is: its definition, its size, the port at each slot
/// of its perimeter, its state, and whether it changed since it was last
/// drawn.
pub struct GadgetModel {
    pub def: GadgetDefModel,
    pub size: WH,
    pub slots: Seq<Option<Port>>,
    pub state: State,
    pub dirty: bool,
}

impl GadgetModel {
    /// The definition is well formed, there is one slot for each unit segment
    /// of the perimeter, and no port sits at two slots.
    pub open spec fn wf(self) -> bool {
        &&& self.def.wf()
        &&& slots_fit(self.size, self.slots)
    }

    /// The port at a slot.
    pub open spec fn port(self, slot: int) -> Option<Port> {
        if 0 <= slot < self.slots.len() {
            self.slots[slot]
        } else {
            None
        }
    }

    /// Whether `port` sits at `slot`.
    pub open spec fn has_slot(self, port: Port, slot: int) -> bool {
        0 <= slot < self.slots.len() && self.slots[slot] == Some(port)
    }

    /// Whether `port` sits at any slot. A port that does not cannot be
    /// reached.
    pub open spec fn mapped(self, port: Port) -> bool {
        exists|slot: int| self.has_slot(port, slot)
    }

    /// The slot of a mapped port.
    pub open spec fn slot_of(self, port: Port) -> int {
        choose|slot: int| self.has_slot(port, slot)
    }

    /// Twice the midpoint of a mapped port's slot, relative to the gadget's
    /// bottom-left corner.
    pub open spec fn double_port_position(self, port: Port) -> Option<(int, int)> {
        if self.mapped(port) {
            Some(slot_double_midpoint(self.size, self.slot_of(port)))
        } else {
            None
        }
    }

    pub open spec fn set_state(self, state: State) -> GadgetModel {
        GadgetModel { state, dirty: true, ..self }
    }

    /// The next state, the first one after the last.
    pub open spec fn cycle_state(self) -> GadgetModel {
        self.set_state(State(((self.state.0 + 1) % (self.def.num_states as int)) as usize))
    }

    /// Every port moved `n` slots counter-clockwise around the perimeter
    /// (clockwise where `n` is negative).
    pub open spec fn rotate_ports(self, n: int) -> GadgetModel {
        let len = self.slots.len() as int;
        let shift = rotation_shift(len, n);
        GadgetModel {
            slots: Seq::new(
                self.slots.len(),
                |slot: int| self.slots[rotation_source(len, shift, slot)],
            ),
            dirty: true,
            ..self
        }
    }

    /// The order of the slots reversed.
    pub open spec fn flip_ports(self) -> GadgetModel {
        GadgetModel {
            slots: Seq::new(self.slots.len(), |slot: int| self.slots[self.slots.len() - 1 - slot]),
            dirty: true,
            ..self
        }
    }

    /// The gadget turned 90 degrees counter-clockwise: the ports move on by
    /// the height, and width and height change places.
    pub open spec fn quarter_turn(self) -> GadgetModel {
        GadgetModel {
            size: (self.size.1, self.size.0),
            ..self.rotate_ports(self.size.1 as int)
        }
    }

    /// `count` quarter turns, one after another.
    pub open spec fn quarter_turns(self, count: nat) -> GadgetModel
        decreases count,
    {
        if count == 0 {
            self
        } else {
            self.quarter_turns((count - 1) as nat).quarter_turn()
        }
    }

    /// The gadget rotated by `num_turns` quarter turns, counter-clockwise
    /// where positive; only `num_turns` modulo 4 matters.
    pub open spec fn rotate(self, num_turns: int) -> GadgetModel {
        GadgetModel { dirty: true, ..self.quarter_turns((num_turns % 4) as nat) }
    }

    /// The bucket of a destination at `slot` for an agent facing `facing`:
    /// 0 back, 1 right, 2 front, 3 left.
    pub open spec fn bucket_of(self, slot: int, facing: Vec2i) -> int {
        (slot_edge(self.size, slot) + facing_offset(facing)) % 4
    }

    /// The destinations allowed from `port` in the current state that fall in
    /// `bucket` for an agent facing `facing`. Destinations at unmapped ports
    /// fall in no bucket.
    pub open spec fn targets_brfl(self, port: Port, facing: Vec2i, bucket: int) -> Set<SP> {
        Set::new(
            |d: SP|
                self.def.targets((self.state, port)).contains(d) && self.mapped(d.1)
                    && self.bucket_of(self.slot_of(d.1), facing) == bucket,
        )
    }
}

/// A port of a well-formed gadget sits at one slot at most.
pub proof fn lemma_slot_of_unique(g: GadgetModel, port: Port, slot: int)
    requires
        g.wf(),
        g.has_slot(port, slot),
    ensures
        g.mapped(port),
        g.slot_of(port) == slot,
{
    let k = g.slot_of(port);
    assert(g.has_slot(port, k));
    if k != slot {
        assert(g.slots[k] is Some);
        assert(g.slots[k] != g.slots[slot]);
    }
}

/// The remainder of a sum, from the remainders of its terms.
proof fn lemma_shift_sum(len: int, a: int, b: int)
    requires
        len > 0,
    ensures
        0 <= a % len < len,
        0 <= b % len < len,
        (a + b) % len == (if a % len + b % len >= len {
            a % len + b % len - len
        } else {
            a % len + b % len
        }),
{
    lemma_mod_bound(a, len);
    lemma_mod_bound(b, len);
    lemma_add_mod_noop(a, b, len);
    let s = a % len + b % len;
    if s >= len {
        lemma_mod_sub_multiples_vanish(s, len);
        lemma_small_mod((s - len) as nat, len as nat);
    } else {
        lemma_small_mod(s as nat, len as nat);
    }
}

/// Rotating the ports keeps a gadget well formed.
pub proof fn lemma_rotate_ports_wf(g: GadgetModel, n: int)
    requires
        g.wf(),
    ensures
        g.rotate_ports(n).wf(),
{
    let len = g.slots.len() as int;
    if len > 0 {
        lemma_mod_bound(n, len);
    }
    let r = g.rotate_ports(n);
    let shift = rotation_shift(len, n);
    assert forall|i: int, j: int|
        0 <= i < r.slots.len() && 0 <= j < r.slots.len() && i != j && (
        #[trigger] r.slots[i]) is Some implies r.slots[i] != #[trigger] r.slots[j] by {
        let a = rotation_source(len, shift, i);
        let b = rotation_source(len, shift, j);
        assert(g.slots[a] is Some);
        assert(g.slots[a] != g.slots[b]);
    }
}

/// Reversing the slots keeps a gadget well formed.
pub proof fn lemma_flip_ports_wf(g: GadgetModel)
    requires
        g.wf(),
    ensures
        g.flip_ports().wf(),
{
    let r = g.flip_ports();
    let len = g.slots.len() as int;
    assert forall|i: int, j: int|
        0 <= i < r.slots.len() && 0 <= j < r.slots.len() && i != j && (
        #[trigger] r.slots[i]) is Some implies r.slots[i] != #[trigger] r.slots[j] by {
        assert(g.slots[len - 1 - i] is Some);
        assert(g.slots[len - 1 - i] != g.slots[len - 1 - j]);
    }
}

/// A quarter turn keeps a gadget well formed.
pub proof fn lemma_quarter_turn_wf(g: GadgetModel)
    requires
        g.wf(),
    ensures
        g.quarter_turn().wf(),
{
    lemma_rotate_ports_wf(g, g.size.1 as int);
}

/// Any number of quarter turns keeps a gadget well formed.
pub proof fn lemma_quarter_turns_wf(g: GadgetModel, count: nat)
    requires
        g.wf(),
    ensures
        g.quarter_turns(count).wf(),
    decreases count,
{
    if count > 0 {
        lemma_quarter_turns_wf(g, (count - 1) as nat);
        lemma_quarter_turn_wf(g.quarter_turns((count - 1) as nat));
    }
}

/// Rotating the ports by `a` spaces and then by `b` spaces is rotating them
/// by `a + b` spaces.
pub proof fn lemma_rotate_ports_add(g: GadgetModel, a: int, b: int)
    ensures
        g.rotate_ports(a).rotate_ports(b).slots == g.rotate_ports(a + b).slots,
{
    let len = g.slots.len() as int;
    if len > 0 {
        lemma_shift_sum(len, a, b);
    }
    assert(g.rotate_ports(a).rotate_ports(b).slots =~= g.rotate_ports(a + b).slots);
}

/// Rotating the ports by a whole number of rounds moves nothing.
pub proof fn lemma_rotate_ports_round(g: GadgetModel, n: int)
    requires
        rotation_shift(g.slots.len() as int, n) == 0,
    ensures
        g.rotate_ports(n).slots == g.slots,
{
    assert(g.rotate_ports(n).slots =~= g.slots);
}

/// Rotating the ports by `n` spaces and then by `-n` spaces puts every port
/// back at its slot, for any `n`.
pub proof fn lemma_rotate_ports_inverse(g: GadgetModel, n: int)
    ensures
        g.rotate_ports(n).rotate_ports(-n).slots == g.slots,
        g.rotate_ports(n).rotate_ports(-n).size == g.size,
        g.rotate_ports(n).rotate_ports(-n).state == g.state,
        g.rotate_ports(n).rotate_ports(-n).def == g.def,
{
    lemma_rotate_ports_add(g, n, -n);
    let len = g.slots.len() as int;
    if len > 0 {
        lemma_small_mod(0, len as nat);
    }
    lemma_rotate_ports_round(g, 0);
}

/// Four quarter turns bring a gadget back to its size and to its ports.
pub proof fn lemma_four_quarter_turns(g: GadgetModel)
    requires
        g.slots.len() == perimeter_len(g.size),
    ensures
        g.quarter_turns(4).size == g.size,
        g.quarter_turns(4).slots == g.slots,
        g.quarter_turns(4).state == g.state,
        g.quarter_turns(4).def == g.def,
{
    reveal_with_fuel(GadgetModel::quarter_turns, 5);
    let w = g.size.0 as int;
    let h = g.size.1 as int;
    let g1 = g.quarter_turn();
    let g2 = g1.quarter_turn();
    let g3 = g2.quarter_turn();
    let g4 = g3.quarter_turn();
    assert(g.quarter_turns(4) == g4);
    let r1 = g.rotate_ports(h);
    let r2 = r1.rotate_ports(w);
    let r3 = r2.rotate_ports(h);
    let r4 = r3.rotate_ports(w);
    assert(g1.slots == r1.slots);
    assert(g2.slots =~= r2.slots);
    assert(g3.slots =~= r3.slots);
    assert(g4.slots =~= r4.slots);
    lemma_rotate_ports_add(g, h, w);
    let s2 = g.rotate_ports(h + w);
    assert(r2.slots == s2.slots);
    assert(r3.slots =~= s2.rotate_ports(h).slots);
    lemma_rotate_ports_add(g, h + w, h);
    let s3 = g.rotate_ports(h + w + h);
    assert(r3.slots == s3.slots);
    assert(r4.slots =~= s3.rotate_ports(w).slots);
    lemma_rotate_ports_add(g, h + w + h, w);
    let len = g.slots.len() as int;
    if len > 0 {
        lemma_mod_self_0(len);
    }
    lemma_rotate_ports_round(g, h + w + h + w);
}

/// Rotating a gadget by four quarter turns, or by any multiple of four,
/// leaves its size and its ports as they were.
pub proof fn lemma_rotate_full_turns(g: GadgetModel, num_turns: int)
    requires
        num_turns % 4 == 0,
    ensures
        g.rotate(num_turns).size == g.size,
        g.rotate(num_turns).slots == g.slots,
        g.rotate(num_turns).state == g.state,
        g.rotate(num_turns).def == g.def,
{
}

/// `n` modulo `len`.
fn euclid_mod(n: i64, len: usize) -> (k: usize)
    requires
        len > 0,
    ensures
        k == (n as int) % (len as int),
        k < len,
{
    let d: u64 = len as u64;
    if n >= 0 {
        proof {
            lemma_mod_bound(n as int, len as int);
        }
        ((n as u64) % d) as usize
    } else {
        let a: u64 = (-(n as i128)) as u64;
        let m: u64 = a % d;
        proof {
            let q = (a as int) / (d as int);
            lemma_fundamental_div_mod(a as int, d as int);
            lemma_mod_bound(a as int, d as int);
            if m == 0 {
                assert((n as int) == (-q) * (d as int) + 0) by (nonlinear_arith)
                    requires
                        a as int == (d as int) * q + 0,
                        n as int == -(a as int),
                ;
                lemma_fundamental_div_mod_converse(n as int, d as int, -q, 0);
            } else {
                assert((n as int) == (-q - 1) * (d as int) + (d as int - m as int))
                    by (nonlinear_arith)
                    requires
                        a as int == (d as int) * q + m as int,
                        n as int == -(a as int),
                ;
                lemma_fundamental_div_mod_converse(n as int, d as int, -q - 1, d as int - m as int);
            }
        }
        if m == 0 {
            0
        } else {
            (d - m) as usize
        }
    }
}

pub struct Gadget {
    def: Rc<GadgetDef>,
    size: WH,
    /// Ports are located at midpoints of unit segments along the perimeter,
    /// starting from the bottom left and going counterclockwise.
    /// This map gives the port at each position index along the perimeter.
    slot_map: Vec<Option<Port>>,
    state: State,
    dirty: bool,
}

impl View for Gadget {
    type V = GadgetModel;

    closed spec fn view(&self) -> GadgetModel {
        GadgetModel {
            def: self.def@,
            size: self.size,
            slots: self.slot_map@,
            state: self.state,
            dirty: self.dirty,
        }
    }
}

impl Gadget {
    /// The invariant of a gadget; see [`GadgetModel::wf`].
    pub open spec fn wf(&self) -> bool {
        self@.wf()
    }

    /// Whether a slot map suits a gadget of the given size: what
    /// [`Gadget::new`] asks of its caller.
    pub fn check_slot_map(size: WH, slot_map: &Vec<Option<Port>>) -> (ok: bool)
        ensures
            ok == slots_fit(size, slot_map@),
    {
        let len = slot_map.len();
        if len as u64 != 2 * (size.0 as u64 + size.1 as u64) {
            return false;
        }
        let mut i: usize = 0;
        while i < len
            invariant
                0 <= i <= len,
                len == slot_map@.len(),
                len == perimeter_len(size),
                forall|a: int, b: int|
                    0 <= a < i && 0 <= b < len && a != b && (#[trigger] slot_map@[a]) is Some
                        ==> slot_map@[a] != #[trigger] slot_map@[b],
            decreases len - i,
        {
            match slot_map[i] {
                Some(port) => {
                    let mut j: usize = 0;
                    while j < len
                        invariant
                            0 <= j <= len,
                            0 <= i < len,
                            len == slot_map@.len(),
                            slot_map@[i as int] == Some(port),
                            forall|b: int|
                                0 <= b < j && b != i ==> slot_map@[i as int]
                                    != #[trigger] slot_map@[b],
                        decreases len - j,
                    {
                        if j != i {
                            match slot_map[j] {
                                Some(other) => {
                                    if other.0 == port.0 {
                                        return false;
                                    }
                                },
                                None => {},
                            }
                        }
                        j = j + 1;
                    }
                },
                None => {},
            }
            i = i + 1;
        }
        true
    }

    /// Constructs a new `Gadget` with a gadget definition, a size,
    /// and a slot map.
    ///
    /// Ports are located at midpoints of unit segments along the perimeter,
    /// starting from the bottom left and going counterclockwise.
    /// The slot map gives the port at each position index along the
    /// perimeter, if there is one. That it has one entry for each position
    /// and names no port twice is up to the caller.
    pub fn new(def: &Rc<GadgetDef>, size: WH, slot_map: Vec<Option<Port>>, state: State) -> (g:
        Gadget)
        requires
            def@.wf(),
            slots_fit(size, slot_map@),
        ensures
            g.wf(),
            g@ == (GadgetModel { def: def@, size, slots: slot_map@, state, dirty: true }),
    {
        Gadget { def: share(def), size, slot_map, state, dirty: true }
    }

    pub fn def(&self) -> (def: &Rc<GadgetDef>)
        ensures
            def@ == self@.def,
    {
        &self.def
    }

    pub fn size(&self) -> (size: WH)
        ensures
            size == self@.size,
    {
        self.size
    }

    /// The port at each position index along the perimeter.
    pub fn slot_map(&self) -> (slot_map: &Vec<Option<Port>>)
        ensures
            slot_map@ == self@.slots,
    {
        &self.slot_map
    }

    /// A gadget has no more slots than a `usize` counts.
    pub proof fn lemma_slots_fit(&self)
        ensures
            self@.slots.len() <= usize::MAX,
    {
        assert(self.slot_map@.len() == self.slot_map.len());
    }

    /// The port at a position index along the perimeter.
    pub fn port(&self, index: usize) -> (port: Option<Port>)
        ensures
            port == self@.port(index as int),
    {
        if index < self.slot_map.len() {
            self.slot_map[index]
        } else {
            None
        }
    }

    /// The position index along the perimeter at which a port sits.
    pub fn port_slot(&self, port: Port) -> (slot: Option<usize>)
        requires
            self.wf(),
        ensures
            match slot {
                Some(k) => self@.has_slot(port, k as int) && self@.mapped(port) && self@.slot_of(
                    port,
                ) == k,
                None => !self@.mapped(port),
            },
    {
        let mut i: usize = 0;
        while i < self.slot_map.len()
            invariant
                0 <= i <= self.slot_map@.len(),
                self.wf(),
                self@.slots == self.slot_map@,
                forall|k: int| 0 <= k < i ==> !self@.has_slot(port, k),
            decreases self.slot_map@.len() - i,
        {
            match self.slot_map[i] {
                Some(p) => {
                    if p.0 == port.0 {
                        proof {
                            lemma_slot_of_unique(self@, port, i as int);
                        }
                        return Some(i);
                    }
                },
                None => {},
            }
            i = i + 1;
        }
        None
    }

    pub fn state(&self) -> (state: State)
        ensures
            state == self@.state,
    {
        self.state
    }

    pub fn set_state(&mut self, state: State)
        ensures
            final(self)@ == old(self)@.set_state(state),
            old(self).wf() ==> final(self).wf(),
    {
        self.state = state;
        self.dirty = true;
    }

    /// Whether the gadget changed since it was last marked clean: what is
    /// drawn from it is stale.
    pub fn is_dirty(&self) -> (dirty: bool)
        ensures
            dirty == self@.dirty,
    {
        self.dirty
    }

    /// Records that what is drawn from the gadget is up to date.
    pub fn mark_clean(&mut self)
        ensures
            final(self)@ == (GadgetModel { dirty: false, ..old(self)@ }),
            old(self).wf() ==> final(self).wf(),
    {
        self.dirty = false;
    }

    /// The destinations among `targets` that fall in `bucket` for an agent
    /// facing `direction`, in the order of `targets`.
    fn bucket(&self, targets: &Vec<SP>, port: Port, direction: Vec2i, bucket: u8) -> (found: Vec<
        SP,
    >)
        requires
            self.wf(),
            sp_sorted(targets@),
            targets@.to_set() == self@.def.targets((self@.state, port)),
        ensures
            sp_sorted(found@),
            found@.to_set() == self@.targets_brfl(port, direction, bucket as int),
    {
        let offset: u8 = if direction.x == 0 {
            if direction.y > 0 {
                0
            } else {
                2
            }
        } else {
            if direction.x > 0 {
                1
            } else {
                3
            }
        };
        let mut found: Vec<SP> = Vec::new();
        let ghost mut from: Seq<int> = Seq::empty();
        let mut i: usize = 0;
        while i < targets.len()
            invariant
                0 <= i <= targets@.len(),
                self.wf(),
                offset == facing_offset(direction),
                sp_sorted(targets@),
                sp_sorted(found@),
                from.len() == found@.len(),
                forall|k: int|
                    0 <= k < from.len() ==> 0 <= #[trigger] from[k] < i && targets@[from[k]]
                        == found@[k] && self@.mapped(found@[k].1) && self@.bucket_of(
                        self@.slot_of(found@[k].1),
                        direction,
                    ) == bucket,
                forall|j: int|
                    0 <= j < i && self@.mapped((#[trigger] targets@[j]).1) && self@.bucket_of(
                        self@.slot_of(targets@[j].1),
                        direction,
                    ) == bucket ==> found@.contains(targets@[j]),
            decreases targets@.len() - i,
        {
            let d = targets[i];
            let fits = match self.port_slot(d.1) {
                Some(slot) => (edge_of_slot(self.size, slot as u64) + offset) % 4 == bucket,
                None => false,
            };
            if fits {
                let ghost before = found@;
                found.push(d);
                proof {
                    from = from.push(i as int);
                    assert forall|a: int, b: int| 0 <= a < b < found@.len() implies sp_before(
                        #[trigger] found@[a],
                        #[trigger] found@[b],
                    ) by {
                        if b == before.len() {
                            assert(sp_before(targets@[from[a]], targets@[i as int]));
                        }
                    }
                    assert forall|j: int|
                        0 <= j < i + 1 && self@.mapped((#[trigger] targets@[j]).1)
                            && self@.bucket_of(self@.slot_of(targets@[j].1), direction)
                            == bucket implies found@.contains(targets@[j]) by {
                        if j < i {
                            let k = choose|k: int| 0 <= k < before.len() && before[k] == targets@[j];
                            assert(found@[k] == targets@[j]);
                        } else {
                            assert(found@[before.len() as int] == targets@[j]);
                        }
                    }
                }
            }
            i = i + 1;
        }
        proof {
            let wanted = self@.targets_brfl(port, direction, bucket as int);
            assert forall|d: SP| found@.to_set().contains(d) <==> wanted.contains(d) by {
                if found@.contains(d) {
                    let k = choose|k: int| 0 <= k < found@.len() && found@[k] == d;
                    assert(targets@.to_set().contains(targets@[from[k]]));
                }
                if wanted.contains(d) {
                    assert(targets@.to_set().contains(d));
                    let j = choose|j: int| 0 <= j < targets@.len() && targets@[j] == d;
                    assert(found@.contains(targets@[j]));
                }
            }
            assert(found@.to_set() =~= wanted);
        }
        found
    }

    /// Gets the traversals allowed in the current state, at some port
    /// in back, right, front, left order relative to some facing direction.
    /// Each of the four lists is in ascending order.
    pub fn targets_from_state_port_brfl(&self, port: Port, direction: Vec2i) -> (brfl: [Vec<SP>; 4])
        requires
            self.wf(),
        ensures
            forall|b: int|
                0 <= b < 4 ==> sp_sorted((#[trigger] brfl[b])@) && brfl[b]@.to_set()
                    == self@.targets_brfl(port, direction, b),
    {
        let targets = self.def.targets_from_state_port((self.state, port));
        let back = self.bucket(&targets, port, direction, 0);
        let right = self.bucket(&targets, port, direction, 1);
        let front = self.bucket(&targets, port, direction, 2);
        let left = self.bucket(&targets, port, direction, 3);
        [back, right, front, left]
    }

    /// Moves every port `n` slots counter-clockwise around the perimeter.
    fn rotate_ports_by(&mut self, n: i64)
        requires
            old(self).wf(),
        ensures
            final(self).wf(),
            final(self)@ == old(self)@.rotate_ports(n as int),
    {
        self.dirty = true;
        let len = self.slot_map.len();
        if len == 0 {
            proof {
                assert(self@.slots =~= old(self)@.rotate_ports(n as int).slots);
            }
            return ;
        }
        let shift = euclid_mod(n, len);
        let mut turned: Vec<Option<Port>> = Vec::new();
        let mut i: usize = 0;
        while i < len
            invariant
                0 <= i <= len,
                len == self.slot_map@.len(),
                shift < len,
                self.slot_map@ == old(self)@.slots,
                turned@.len() == i,
                forall|k: int|
                    0 <= k < i ==> #[trigger] turned@[k] == self.slot_map@[rotation_source(
                        len as int,
                        shift as int,
                        k,
                    )],
            decreases len - i,
        {
            let source = if i >= shift {
                i - shift
            } else {
                i + (len - shift)
            };
            turned.push(self.slot_map[source]);
            i = i + 1;
        }
        self.slot_map = turned;
        proof {
            assert(self@.slots =~= old(self)@.rotate_ports(n as int).slots);
            lemma_rotate_ports_wf(old(self)@, n as int);
        }
    }

    /// Rotates the ports of the gadget by some number of spaces.
    /// A positive number means counterclockwise,
    /// a negative number means clockwise.
    pub fn rotate_ports(&mut self, num_spaces: i32)
        requires
            old(self).wf(),
        ensures
            final(self).wf(),
            final(self)@ == old(self)@.rotate_ports(num_spaces as int),
    {
        self.rotate_ports_by(num_spaces as i64);
    }

    /// Rotates the gadget by some number of 90-degree turns.
    /// A positive number means counterclockwise,
    /// a negative number means clockwise.
    pub fn rotate(&mut self, num_turns: i32)
        requires
            old(self).wf(),
        ensures
            final(self).wf(),
            final(self)@ == old(self)@.rotate(num_turns as int),
    {
        self.dirty = true;
        let turns: u8 = if num_turns >= 0 {
            (num_turns % 4) as u8
        } else {
            let m: i64 = (-(num_turns as i64)) % 4;
            if m == 0 {
                0
            } else {
                (4 - m) as u8
            }
        };
        let mut done: u8 = 0;
        while done < turns
            invariant
                0 <= done <= turns,
                old(self).wf(),
                self.wf(),
                self@ == (GadgetModel { dirty: true, ..old(self)@.quarter_turns(done as nat) }),
            decreases turns - done,
        {
            let ghost before = self@;
            let h = self.size.1;
            self.rotate_ports_by(h as i64);
            self.size = (self.size.1, self.size.0);
            proof {
                let turned = old(self)@.quarter_turns(done as nat);
                assert(before.rotate_ports(h as int).slots =~= turned.rotate_ports(
                    h as int,
                ).slots);
                assert(self@ == (GadgetModel { dirty: true, ..turned.quarter_turn() }));
                lemma_quarter_turns_wf(old(self)@, (done + 1) as nat);
            }
            done = done + 1;
        }
    }

    /// Reverses the order of the slots.
    pub fn flip_ports(&mut self)
        requires
            old(self).wf(),
        ensures
            final(self).wf(),
            final(self)@ == old(self)@.flip_ports(),
    {
        self.dirty = true;
        let len = self.slot_map.len();
        let mut flipped: Vec<Option<Port>> = Vec::new();
        let mut i: usize = 0;
        while i < len
            invariant
                0 <= i <= len,
                len == self.slot_map@.len(),
                self.slot_map@ == old(self)@.slots,
                flipped@.len() == i,
                forall|k: int| 0 <= k < i ==> #[trigger] flipped@[k] == self.slot_map@[len - 1 - k],
            decreases len - i,
        {
            flipped.push(self.slot_map[len - 1 - i]);
            i = i + 1;
        }
        self.slot_map = flipped;
        proof {
            assert(self@.slots =~= old(self)@.flip_ports().slots);
            lemma_flip_ports_wf(old(self)@);
        }
    }

    /// Adds 1 to the state; resetting it to 0 in case of overflow
    pub fn cycle_state(&mut self)
        requires
            old(self).wf(),
        ensures
            final(self).wf(),
            final(self)@ == old(self)@.cycle_state(),
    {
        let n = self.def.num_states();
        proof {
            lemma_add_mod_noop(self.state.0 as int, 1, n as int);
            lemma_mod_bound(self.state.0 as int, n as int);
            if n > 1 {
                lemma_small_mod(1, n as nat);
            }
        }
        let next = (self.state.0 % n + 1) % n;
        self.set_state(State(next));
    }

    /// Gets twice the positions of the ports of this gadget in port order: the
    /// doubled midpoint of the slot of each port, or nothing for a port that
    /// sits at no slot. The positions are relative to the bottom-left corner.
    pub fn double_port_positions(&self) -> (positions: Vec<Option<(i64, i64)>>)
        requires
            self.wf(),
        ensures
            positions@.len() == self@.def.num_ports,
            forall|p: int|
                0 <= p < positions@.len() ==> match self@.double_port_position(Port(p as usize)) {
                    Some((x, y)) => #[trigger] positions@[p] == Some((x as i64, y as i64)),
                    None => positions@[p] is None,
                },
    {
        let count = self.def.num_ports();
        let mut positions: Vec<Option<(i64, i64)>> = Vec::new();
        let mut p: usize = 0;
        while p < count
            invariant
                0 <= p <= count,
                count == self@.def.num_ports,
                self.wf(),
                positions@.len() == p,
                forall|q: int|
                    0 <= q < p ==> match self@.double_port_position(Port(q as usize)) {
                        Some((x, y)) => #[trigger] positions@[q] == Some((x as i64, y as i64)),
                        None => positions@[q] is None,
                    },
            decreases count - p,
        {
            let position = match self.port_slot(Port(p)) {
                Some(slot) => Some(slot_double_position(self.size, slot as u64)),
                None => None,
            };
            positions.push(position);
            p = p + 1;
        }
        positions
    }
}

impl Clone for Gadget {
    fn clone(&self) -> (copy: Self)
        ensures
            copy@ == self@,
    {
        let mut slot_map: Vec<Option<Port>> = Vec::new();
        let mut i: usize = 0;
        while i < self.slot_map.len()
            invariant
                0 <= i <= self.slot_map@.len(),
                slot_map@ == self.slot_map@.take(i as int),
            decreases self.slot_map@.len() - i,
        {
            slot_map.push(self.slot_map[i]);
            proof {
                assert(slot_map@ =~= self.slot_map@.take(i + 1));
            }
            i = i + 1;
        }
        proof {
            assert(self.slot_map@.take(self.slot_map@.len() as int) =~= self.slot_map@);
        }
        Gadget {
            def: share(&self.def),
            size: self.size,
            slot_map,
            state: self.state,
            dirty: self.dirty,
        }
    }
}

} // verus!
