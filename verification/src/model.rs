//! The data model: values, fields, bindings, and whole programs, together with
//! the well-formedness condition that the rest of the library relies on.

use vstd::prelude::*;

verus! {

/// One field of a value: an edge to another value in the program's arena.
///
/// An owned field is destroyed by its owner's glue; a non-owned field is a
/// reference, a non-owning relation that carries no destruction
/// responsibility.
#[derive(Clone, Copy, PartialEq, Eq, Structural, Debug)]
pub struct Field {
    /// Index of the field's target in `Program::values`.
    pub target: usize,
    /// Structural ownership: destruction glue descends into the target. A
    /// marker that restores ownership over an otherwise non-owning slot sets
    /// this flag too.
    pub owned: bool,
    /// The implementer asserted, unsafely, that the custom destructor does not
    /// need this field valid. The assertion is honored only for automatic
    /// (scope-exit) destruction, never for explicit destruction requests.
    pub opt_out: bool,
    /// The owner's custom destructor dereferences this field.
    pub dtor_reads: bool,
}

/// A value in the ownership graph.
#[derive(Clone, PartialEq, Eq, Debug)]
pub struct Value {
    /// The value's type carries user-written destructor logic that runs before
    /// glue. A value without it is destroyed by pure glue, which never
    /// dereferences anything except to recurse into owned fields.
    pub custom_dtor: bool,
    /// Fields in declaration order.
    pub fields: Vec<Field>,
}

/// A name introduced in a scope, holding the root of an ownership tree.
#[derive(Clone, Copy, PartialEq, Eq, Structural, Debug)]
pub struct Binding {
    /// Root value of the binding's ownership tree.
    pub root: usize,
    /// Order in which the binding was initialized. Destruction order is
    /// governed by declaration order alone, so no operation of the model
    /// consults this field; `order::lemma_order_ignores_initialization`
    /// proves that it cannot matter.
    pub init_order: usize,
}

/// A scope's worth of bindings over an arena of values, plus the explicit
/// destruction requests the program makes before the scope ends.
#[derive(Clone, PartialEq, Eq, Debug)]
pub struct Program {
    /// The arena. Owned edges always point to a strictly larger index, which
    /// encodes that ownership forms a tree (no cycles) by construction.
    pub values: Vec<Value>,
    /// Bindings in declaration order: `bindings[0]` was declared first.
    pub bindings: Vec<Binding>,
    /// Explicit destruction requests, in program order; all of them happen
    /// before control leaves the scope. A binding destroyed here is skipped
    /// by automatic scope-exit destruction.
    pub explicit_drops: Vec<usize>,
}

impl Program {
    /// Field `k` of value `v` stays inside the arena, and owned edges point
    /// strictly forward, so that ownership cannot form a cycle.
    pub open spec fn field_wf(self, v: int, k: int) -> bool {
        let f = self.values@[v].fields@[k];
        &&& (f.target as int) < self.values@.len()
        &&& f.owned ==> (f.target as int) > v
    }

    /// There is an owned edge from value `v` (at field `k`) in this program.
    pub open spec fn owned_edge(self, v: int, k: int) -> bool {
        &&& 0 <= v < self.values@.len()
        &&& 0 <= k < self.values@[v].fields@.len()
        &&& self.values@[v].fields@[k].owned
    }

    /// Value `x` is the target of some owned edge.
    pub open spec fn is_owned_target(self, x: usize) -> bool {
        exists|v: int, k: int|
            self.owned_edge(v, k) && self.values@[v].fields@[k].target == x
    }

    /// Ownership is a tree: no value is owned twice, and no binding root is
    /// owned by another value.
    pub open spec fn ownership_is_tree(self) -> bool {
        &&& forall|v1: int, k1: int, v2: int, k2: int|
            #![trigger self.owned_edge(v1, k1), self.owned_edge(v2, k2)]
            self.owned_edge(v1, k1) && self.owned_edge(v2, k2)
                && self.values@[v1].fields@[k1].target == self.values@[v2].fields@[k2].target
                ==> v1 == v2 && k1 == k2
        &&& forall|b: int| 0 <= b < self.bindings@.len()
            ==> !self.is_owned_target(#[trigger] self.bindings@[b].root)
    }

    /// The whole program is well formed: every index stays in bounds, owned
    /// edges form a tree, bindings name distinct roots, and no value is
    /// explicitly destroyed twice.
    pub open spec fn wf(self) -> bool {
        &&& self.values@.len() <= usize::MAX
        &&& self.bindings@.len() <= usize::MAX
        &&& self.explicit_drops@.len() <= usize::MAX
        &&& forall|v: int| 0 <= v < self.values@.len()
            ==> (#[trigger] self.values@[v].fields@.len()) <= usize::MAX
        &&& forall|v: int, k: int|
            0 <= v < self.values@.len() && 0 <= k < self.values@[v].fields@.len()
                ==> self.field_wf(v, k)
        &&& forall|b: int| 0 <= b < self.bindings@.len()
            ==> (#[trigger] self.bindings@[b].root as int) < self.values@.len()
        &&& forall|b1: int, b2: int|
            0 <= b1 < self.bindings@.len() && 0 <= b2 < self.bindings@.len()
                && self.bindings@[b1].root == self.bindings@[b2].root ==> b1 == b2
        &&& forall|d: int| 0 <= d < self.explicit_drops@.len()
            ==> (#[trigger] self.explicit_drops@[d] as int) < self.values@.len()
        &&& forall|d1: int, d2: int|
            0 <= d1 < self.explicit_drops@.len() && 0 <= d2 < self.explicit_drops@.len()
                && self.explicit_drops@[d1] == self.explicit_drops@[d2] ==> d1 == d2
        &&& forall|d: int| 0 <= d < self.explicit_drops@.len()
            ==> !self.is_owned_target(#[trigger] self.explicit_drops@[d])
        &&& self.ownership_is_tree()
    }
}

/// Decides [`Program::wf`] executably, so that unverified callers can test a
/// configuration before handing it to the model.
pub fn is_well_formed(p: &Program) -> (r: bool)
    ensures
        r == p.wf(),
{
    let n = p.values.len();
    let mut v: usize = 0;
    while v < p.values.len()
        invariant
            v <= p.values@.len(),
            n == p.values@.len(),
            forall|vv: int, k: int|
                0 <= vv < v && 0 <= k < p.values@[vv].fields@.len() ==> p.field_wf(vv, k),
            forall|vv: int| 0 <= vv < v
                ==> (#[trigger] p.values@[vv].fields@.len()) <= usize::MAX,
        decreases p.values@.len() - v,
    {
        let nf = p.values[v].fields.len();
        proof {
            assert(p.values@[v as int].fields@.len() == nf);
        }
        let mut k: usize = 0;
        while k < nf
            invariant
                v < p.values@.len(),
                n == p.values@.len(),
                k <= nf,
                nf == p.values@[v as int].fields@.len(),
                forall|kk: int| 0 <= kk < k ==> p.field_wf(v as int, kk),
            decreases nf - k,
        {
            let f = p.values[v].fields[k];
            if f.target >= n {
                assert(!p.field_wf(v as int, k as int));
                return false;
            }
            if f.owned && f.target <= v {
                assert(!p.field_wf(v as int, k as int));
                return false;
            }
            assert(p.field_wf(v as int, k as int));
            k = k + 1;
        }
        v = v + 1;
    }
    let mut owned_by: Vec<bool> = Vec::new();
    let mut i: usize = 0;
    while i < n
        invariant
            i <= n,
            owned_by@.len() == i,
            forall|x: int| 0 <= x < i ==> !owned_by@[x],
        decreases n - i,
    {
        owned_by.push(false);
        i = i + 1;
    }
    // Mark every owned target; a second mark means a value is owned twice.
    let mut v: usize = 0;
    while v < p.values.len()
        invariant
            v <= p.values@.len(),
            n == p.values@.len(),
            owned_by@.len() == n,
            forall|vv: int, k: int|
                0 <= vv < p.values@.len() && 0 <= k < p.values@[vv].fields@.len()
                    ==> p.field_wf(vv, k),
            forall|x: int| 0 <= x < n ==> (owned_by@[x] <==> exists|vv: int, k: int|
                vv < v && p.owned_edge(vv, k)
                    && p.values@[vv].fields@[k].target == x),
            forall|v1: int, k1: int, v2: int, k2: int|
                #![trigger p.owned_edge(v1, k1), p.owned_edge(v2, k2)]
                v1 < v && v2 < v && p.owned_edge(v1, k1) && p.owned_edge(v2, k2)
                    && p.values@[v1].fields@[k1].target == p.values@[v2].fields@[k2].target
                    ==> v1 == v2 && k1 == k2,
        decreases p.values@.len() - v,
    {
        let nf = p.values[v].fields.len();
        let mut k: usize = 0;
        while k < nf
            invariant
                v < p.values@.len(),
                n == p.values@.len(),
                k <= nf,
                nf == p.values@[v as int].fields@.len(),
                owned_by@.len() == n,
                forall|vv: int, kk: int|
                    0 <= vv < p.values@.len() && 0 <= kk < p.values@[vv].fields@.len()
                        ==> p.field_wf(vv, kk),
                forall|x: int| 0 <= x < n ==> (owned_by@[x] <==> exists|vv: int, kk: int|
                    (vv < v || (vv == v && kk < k)) && p.owned_edge(vv, kk)
                        && p.values@[vv].fields@[kk].target == x),
                forall|v1: int, k1: int, v2: int, k2: int|
                    #![trigger p.owned_edge(v1, k1), p.owned_edge(v2, k2)]
                    (v1 < v || (v1 == v && k1 < k)) && (v2 < v || (v2 == v && k2 < k))
                        && p.owned_edge(v1, k1) && p.owned_edge(v2, k2)
                        && p.values@[v1].fields@[k1].target == p.values@[v2].fields@[k2].target
                        ==> v1 == v2 && k1 == k2,
            decreases nf - k,
        {
            let f = p.values[v].fields[k];
            proof {
                assert(p.field_wf(v as int, k as int));
            }
            if f.owned {
                if owned_by[f.target] {
                    proof {
                        assert(owned_by@[f.target as int]);
                        let (vv, kk) = choose|vv: int, kk: int|
                            (vv < v || (vv == v && kk < k)) && p.owned_edge(vv, kk)
                                && p.values@[vv].fields@[kk].target == f.target;
                        assert(p.owned_edge(vv, kk));
                        assert(p.owned_edge(v as int, k as int));
                        assert(!p.ownership_is_tree());
                    }
                    return false;
                }
                owned_by.set(f.target, true);
                proof {
                    assert(p.owned_edge(v as int, k as int));
                    assert forall|x: int|
                        0 <= x < n && (exists|vv: int, kk: int|
                            (vv < v || (vv == v && kk < k + 1)) && p.owned_edge(vv, kk)
                                && p.values@[vv].fields@[kk].target == x)
                        implies owned_by@[x] by {
                        let (vv, kk) = choose|vv: int, kk: int|
                            (vv < v || (vv == v && kk < k + 1)) && p.owned_edge(vv, kk)
                                && p.values@[vv].fields@[kk].target == x;
                        if vv == v as int && kk == k as int {
                            assert(x == f.target as int);
                        }
                    }
                }
            } else {
                proof {
                    assert(!p.owned_edge(v as int, k as int));
                    assert forall|x: int|
                        0 <= x < n && (exists|vv: int, kk: int|
                            (vv < v || (vv == v && kk < k + 1)) && p.owned_edge(vv, kk)
                                && p.values@[vv].fields@[kk].target == x)
                        implies owned_by@[x] by {
                        let (vv, kk) = choose|vv: int, kk: int|
                            (vv < v || (vv == v && kk < k + 1)) && p.owned_edge(vv, kk)
                                && p.values@[vv].fields@[kk].target == x;
                        assert(vv < v || (vv == v && kk < k));
                    }
                }
            }
            k = k + 1;
        }
        v = v + 1;
    }
    // Roots must lie in bounds, be pairwise distinct, and not be owned.
    let mut seen_root: Vec<bool> = Vec::new();
    let mut i: usize = 0;
    while i < n
        invariant
            i <= n,
            seen_root@.len() == i,
            forall|x: int| 0 <= x < i ==> !seen_root@[x],
        decreases n - i,
    {
        seen_root.push(false);
        i = i + 1;
    }
    let mut b: usize = 0;
    while b < p.bindings.len()
        invariant
            b <= p.bindings@.len(),
            n == p.values@.len(),
            owned_by@.len() == n,
            seen_root@.len() == n,
            forall|x: int| 0 <= x < n ==> (owned_by@[x] <==> p.is_owned_target(x as usize)),
            forall|bb: int| 0 <= bb < b
                ==> (#[trigger] p.bindings@[bb].root as int) < n,
            forall|bb: int| 0 <= bb < b ==> !p.is_owned_target(p.bindings@[bb].root),
            forall|x: int| 0 <= x < n ==> (seen_root@[x] <==> exists|bb: int|
                0 <= bb < b && (#[trigger] p.bindings@[bb].root) == x),
            forall|b1: int, b2: int|
                0 <= b1 < b && 0 <= b2 < b
                    && p.bindings@[b1].root == p.bindings@[b2].root ==> b1 == b2,
        decreases p.bindings@.len() - b,
    {
        let r = p.bindings[b].root;
        if r >= n {
            return false;
        }
        if owned_by[r] {
            return false;
        }
        if seen_root[r] {
            proof {
                let bb = choose|bb: int| 0 <= bb < b && (#[trigger] p.bindings@[bb].root) == r;
                assert(p.bindings@[bb].root == p.bindings@[b as int].root);
            }
            return false;
        }
        seen_root.set(r, true);
        b = b + 1;
    }
    // Explicit destruction requests: in bounds, distinct, never an owned value.
    let mut seen_drop: Vec<bool> = Vec::new();
    let mut i: usize = 0;
    while i < n
        invariant
            i <= n,
            seen_drop@.len() == i,
            forall|x: int| 0 <= x < i ==> !seen_drop@[x],
        decreases n - i,
    {
        seen_drop.push(false);
        i = i + 1;
    }
    let mut d: usize = 0;
    while d < p.explicit_drops.len()
        invariant
            d <= p.explicit_drops@.len(),
            n == p.values@.len(),
            owned_by@.len() == n,
            seen_drop@.len() == n,
            forall|x: int| 0 <= x < n ==> (owned_by@[x] <==> p.is_owned_target(x as usize)),
            forall|dd: int| 0 <= dd < d
                ==> (#[trigger] p.explicit_drops@[dd] as int) < n,
            forall|dd: int| 0 <= dd < d ==> !p.is_owned_target(p.explicit_drops@[dd]),
            forall|x: int| 0 <= x < n ==> (seen_drop@[x] <==> exists|dd: int|
                0 <= dd < d && (#[trigger] p.explicit_drops@[dd]) == x),
            forall|d1: int, d2: int|
                0 <= d1 < d && 0 <= d2 < d
                    && p.explicit_drops@[d1] == p.explicit_drops@[d2] ==> d1 == d2,
        decreases p.explicit_drops@.len() - d,
    {
        let x = p.explicit_drops[d];
        if x >= n {
            return false;
        }
        if owned_by[x] {
            return false;
        }
        if seen_drop[x] {
            proof {
                let dd = choose|dd: int|
                    0 <= dd < d && (#[trigger] p.explicit_drops@[dd]) == x;
                assert(p.explicit_drops@[dd] == p.explicit_drops@[d as int]);
            }
            return false;
        }
        seen_drop.set(x, true);
        d = d + 1;
    }
    true
}

} // verus!
