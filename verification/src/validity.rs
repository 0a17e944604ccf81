//! Borrow validity during destruction: which reference fields a custom
//! destructor may still read, checked against the destruction order.
//!
//! A value whose type has no custom destructor never needs its reference
//! fields to remain valid: pure glue reads nothing except owned fields. A
//! value with a custom destructor requires every reference reachable through
//! its owned, checked structure to still be valid when the destructor runs,
//! unless the implementer explicitly opted that field out — and the opt-out
//! is honored only for automatic scope-exit destruction, never for an
//! explicit destruction request.

use vstd::prelude::*;

use crate::model::Program;
use crate::order::death_pos;
use crate::order::death_sequence;
use crate::order::destroyed_before;
use crate::order::explicit_deaths;
use crate::order::first_pos;
use crate::order::lemma_first_pos;
use crate::order::lemma_first_pos_concat;
use crate::order::program_death_seq;

verus! {

/// The outcome of validating a program configuration.
#[derive(Clone, Copy, PartialEq, Eq, Structural, Debug)]
pub enum Verdict {
    /// Every dependency the configuration asserts is satisfied by the
    /// destruction order.
    Accept,
    /// The referent of reference field `field` of value `owner` is destroyed
    /// strictly before the custom destructor of `dependent` runs, and the
    /// field is subject to checking. Validation of the configuration aborts.
    Reject { dependent: usize, owner: usize, field: usize },
}

/// The destructor of `v` can cross owned field `k` while reading: the edge is
/// owned, and either checking is strict (`explicit` destruction) or the field
/// was not opted out.
pub open spec fn crossable(p: Program, v: usize, k: int, explicit: bool) -> bool {
    &&& p.owned_edge(v as int, k)
    &&& (explicit || !p.values@[v as int].fields@[k].opt_out)
    &&& p.values@[v as int].fields@[k].target > v
    &&& (p.values@[v as int].fields@[k].target as int) < p.values@.len()
}

/// Value `w` is reachable from `v` through owned fields that the destructor
/// of `v` is entitled to read. Under an explicit destruction request every
/// owned edge counts; under automatic destruction opted-out edges are not
/// crossed.
pub open spec fn dtor_reach(p: Program, v: usize, w: usize, explicit: bool) -> bool
    decreases p.values@.len() - v,
{
    if (v as int) < p.values@.len() {
        ||| w == v
        ||| exists|k: int|
            #[trigger] crossable(p, v, k, explicit)
                && dtor_reach(p, p.values@[v as int].fields@[k].target, w, explicit)
    } else {
        false
    }
}

/// Value `x` dies during the explicit destruction phase, not at scope exit.
pub open spec fn explicitly_destroyed(p: Program, x: usize) -> bool {
    explicit_deaths(p, p.explicit_drops@.len() as int).contains(x)
}

/// Reference field `k` of `w` breaks the validity rule for a destructor that
/// runs at moment `t` under checking mode `explicit`: the field is a
/// reference, it is subject to checking, and its referent is destroyed
/// strictly before `t`.
pub open spec fn dangling_field(p: Program, w: usize, k: int, explicit: bool, t: int) -> bool {
    &&& (w as int) < p.values@.len()
    &&& 0 <= k < p.values@[w as int].fields@.len()
    &&& !p.values@[w as int].fields@[k].owned
    &&& (!p.values@[w as int].fields@[k].opt_out || explicit)
    &&& destroyed_before(p, p.values@[w as int].fields@[k].target, t)
}

/// A violation of the validity rule: value `v` has a custom destructor that
/// actually runs, value `w` is reachable from `v` through readable owned
/// structure, and reference field `k` of `w` has its referent destroyed
/// strictly before `v`'s destructor runs. Whether opted-out fields are
/// exempt depends on whether `v` dies by explicit request.
pub open spec fn violation(p: Program, v: usize, w: usize, k: int) -> bool {
    &&& (v as int) < p.values@.len()
    &&& p.values@[v as int].custom_dtor
    &&& death_pos(p, v) >= 0
    &&& dtor_reach(p, v, w, explicitly_destroyed(p, v))
    &&& dangling_field(p, w, k, explicitly_destroyed(p, v), death_pos(p, v))
}

/// The program asserts no dependency that the destruction order breaks.
pub open spec fn accepts(p: Program) -> bool {
    forall|v: usize, w: usize, k: int| !violation(p, v, w, k)
}

/// Computes, for every value, the moment it dies (its position in the death
/// sequence), or `None` for a value that is never destroyed. Also reports
/// the length of the explicit destruction prefix.
pub(crate) fn death_positions(p: &Program) -> (r: (Vec<Option<usize>>, usize))
    requires
        p.wf(),
    ensures
        r.0@.len() == p.values@.len(),
        forall|x: usize| (x as int) < p.values@.len() ==> match #[trigger] r.0@[x as int] {
            Option::Some(t) => death_pos(*p, x) == t,
            Option::None => death_pos(*p, x) == -1,
        },
        r.1 == explicit_deaths(*p, p.explicit_drops@.len() as int).len(),
{
    let (order, mid) = death_sequence(p);
    let n = p.values.len();
    let mut pos: Vec<Option<usize>> = Vec::new();
    let mut i: usize = 0;
    while i < n
        invariant
            i <= n,
            pos@.len() == i,
            forall|x: int| 0 <= x < i ==> pos@[x] is None,
        decreases n - i,
    {
        pos.push(Option::None);
        i = i + 1;
    }
    let no = order.len();
    let mut i: usize = 0;
    while i < no
        invariant
            p.wf(),
            i <= no,
            no == order@.len(),
            order@ == program_death_seq(*p),
            n == p.values@.len(),
            pos@.len() == n,
            forall|x: usize| (x as int) < n ==> match #[trigger] pos@[x as int] {
                Option::Some(t) => first_pos(order@.subrange(0, i as int), x) == t,
                Option::None => first_pos(order@.subrange(0, i as int), x) == -1,
            },
        decreases no - i,
    {
        let v = order[i];
        proof {
            lemma_death_seq_in_bounds(*p);
            assert((order@[i as int] as int) < n);
        }
        let is_new = match pos[v] {
            Option::Some(_) => false,
            Option::None => true,
        };
        if is_new {
            pos.set(v, Option::Some(i));
        }
        proof {
            let pre = order@.subrange(0, i as int);
            let ext = order@.subrange(0, i + 1);
            assert(ext =~= pre + seq![v]);
            assert forall|x: usize| (x as int) < n implies match #[trigger] pos@[x as int] {
                Option::Some(t) => first_pos(ext, x) == t,
                Option::None => first_pos(ext, x) == -1,
            } by {
                lemma_first_pos(pre, x);
                lemma_first_pos(seq![v], x);
                lemma_first_pos_concat(pre, seq![v], x);
                if x != v {
                    assert(seq![v][0] != x);
                    assert(!seq![v].contains(x));
                }
            }
        }
        i = i + 1;
    }
    proof {
        assert(order@.subrange(0, no as int) =~= order@);
    }
    (pos, mid)
}

/// Every member of the death sequence is a valid arena index.
proof fn lemma_death_seq_in_bounds(p: Program)
    requires
        p.wf(),
    ensures
        forall|i: int| 0 <= i < program_death_seq(p).len()
            ==> (#[trigger] program_death_seq(p)[i] as int) < p.values@.len(),
{
    lemma_explicit_deaths_in_bounds(p, p.explicit_drops@.len() as int);
    lemma_auto_deaths_in_bounds(p, p.bindings@.len() as int);
    let ex = explicit_deaths(p, p.explicit_drops@.len() as int);
    let auto = crate::order::auto_deaths(p, p.bindings@.len() as int);
    assert forall|i: int| 0 <= i < program_death_seq(p).len()
        implies (program_death_seq(p)[i] as int) < p.values@.len() by {
        if i < ex.len() {
            assert(program_death_seq(p)[i] == ex[i]);
            assert(ex.contains(ex[i]));
        } else {
            assert(program_death_seq(p)[i] == auto[i - ex.len()]);
            assert(auto.contains(auto[i - ex.len()]));
        }
    }
}

/// Members of the explicit death phase are valid arena indices.
proof fn lemma_explicit_deaths_in_bounds(p: Program, n: int)
    requires
        p.wf(),
        0 <= n <= p.explicit_drops@.len(),
    ensures
        forall|x: usize| #[trigger] explicit_deaths(p, n).contains(x)
            ==> (x as int) < p.values@.len(),
    decreases n,
{
    if n > 0 {
        lemma_explicit_deaths_in_bounds(p, n - 1);
        let d = p.explicit_drops@[n - 1];
        crate::order::lemma_value_deaths_members(p, d);
        assert forall|x: usize| #[trigger] explicit_deaths(p, n).contains(x)
            implies (x as int) < p.values@.len() by {
            let s1 = explicit_deaths(p, n - 1);
            let s2 = crate::order::value_deaths(p, d);
            let i = choose|i: int| 0 <= i < (s1 + s2).len() && (s1 + s2)[i] == x;
            if i < s1.len() {
                assert(s1.contains(x));
            } else {
                assert(s2[i - s1.len()] == x);
                assert(s2.contains(x));
            }
        }
    }
}

/// Members of the scope-exit death phase are valid arena indices.
proof fn lemma_auto_deaths_in_bounds(p: Program, n: int)
    requires
        p.wf(),
        0 <= n <= p.bindings@.len(),
    ensures
        forall|x: usize| #[trigger] crate::order::auto_deaths(p, n).contains(x)
            ==> (x as int) < p.values@.len(),
    decreases n,
{
    if n > 0 {
        lemma_auto_deaths_in_bounds(p, n - 1);
        let seg = if crate::order::skipped(p, n - 1) {
            Seq::<usize>::empty()
        } else {
            crate::order::value_deaths(p, p.bindings@[n - 1].root)
        };
        if !crate::order::skipped(p, n - 1) {
            crate::order::lemma_value_deaths_members(p, p.bindings@[n - 1].root);
        }
        assert forall|x: usize| #[trigger] crate::order::auto_deaths(p, n).contains(x)
            implies (x as int) < p.values@.len() by {
            let s2 = crate::order::auto_deaths(p, n - 1);
            let i = choose|i: int| 0 <= i < (seg + s2).len() && (seg + s2)[i] == x;
            if i < seg.len() {
                assert(seg[i] == x);
                assert(seg.contains(x));
            } else {
                assert(s2[i - seg.len()] == x);
                assert(s2.contains(x));
            }
        }
    }
}

/// A value dies during the explicit phase exactly when its death moment lies
/// below the explicit prefix length.
proof fn lemma_explicit_iff_before_mid(p: Program, x: usize)
    requires
        p.wf(),
    ensures
        explicitly_destroyed(p, x)
            <==> 0 <= death_pos(p, x)
                < explicit_deaths(p, p.explicit_drops@.len() as int).len(),
{
    let ex = explicit_deaths(p, p.explicit_drops@.len() as int);
    let auto = crate::order::auto_deaths(p, p.bindings@.len() as int);
    lemma_first_pos(ex, x);
    lemma_first_pos(auto, x);
    lemma_first_pos_concat(ex, auto, x);
}

/// Searches the structure the destructor of `cur` may read for a reference
/// field whose referent dies strictly before moment `t`. Returns the first
/// such field found, or `None` if every checked reference is still valid.
fn find_dangling(p: &Program, cur: usize, explicit: bool, t: usize,
    pos: &Vec<Option<usize>>) -> (r: Option<(usize, usize)>)
    requires
        p.wf(),
        (cur as int) < p.values@.len(),
        pos@.len() == p.values@.len(),
        forall|x: usize| (x as int) < p.values@.len() ==> match #[trigger] pos@[x as int] {
            Option::Some(u) => death_pos(*p, x) == u,
            Option::None => death_pos(*p, x) == -1,
        },
    ensures
        r is None ==> forall|w: usize, k: int|
            dtor_reach(*p, cur, w, explicit)
                ==> !dangling_field(*p, w, k, explicit, t as int),
        r matches Option::Some((w, k)) ==> dtor_reach(*p, cur, w, explicit)
            && dangling_field(*p, w, k as int, explicit, t as int),
    decreases p.values@.len() - cur,
{
    let nf = p.values[cur].fields.len();
    let mut k: usize = 0;
    while k < nf
        invariant
            p.wf(),
            (cur as int) < p.values@.len(),
            k <= nf,
            nf == p.values@[cur as int].fields@.len(),
            pos@.len() == p.values@.len(),
            forall|x: usize| (x as int) < p.values@.len() ==> match #[trigger] pos@[x as int] {
                Option::Some(u) => death_pos(*p, x) == u,
                Option::None => death_pos(*p, x) == -1,
            },
            forall|kk: int| 0 <= kk < k
                ==> !dangling_field(*p, cur, kk, explicit, t as int),
            forall|kk: int, w: usize, j: int|
                0 <= kk < k && crossable(*p, cur, kk, explicit)
                    && dtor_reach(*p, p.values@[cur as int].fields@[kk].target, w, explicit)
                    ==> !dangling_field(*p, w, j, explicit, t as int),
        decreases nf - k,
    {
        let f = p.values[cur].fields[k];
        proof {
            assert(p.field_wf(cur as int, k as int));
        }
        if f.owned {
            if explicit || !f.opt_out {
                let sub = find_dangling(p, f.target, explicit, t, pos);
                match sub {
                    Option::Some(bad) => {
                        proof {
                            assert(crossable(*p, cur, k as int, explicit));
                        }
                        return Option::Some(bad);
                    },
                    Option::None => {},
                }
            }
        } else {
            if !f.opt_out || explicit {
                let referent_dead_before = match pos[f.target] {
                    Option::Some(u) => u < t,
                    Option::None => false,
                };
                if referent_dead_before {
                    return Option::Some((cur, k));
                }
            }
        }
        k = k + 1;
    }
    proof {
        assert forall|w: usize, j: int| dtor_reach(*p, cur, w, explicit)
            implies !dangling_field(*p, w, j, explicit, t as int) by {
            if w != cur {
                let kk = choose|kk: int|
                    #[trigger] crossable(*p, cur, kk, explicit)
                        && dtor_reach(
                            *p, p.values@[cur as int].fields@[kk].target, w, explicit);
            }
        }
    }
    Option::None
}

/// Validates the whole configuration against the destruction order.
///
/// The verdict is `Accept` exactly when no [`violation`] exists anywhere in
/// the program. A `Reject` names a witness: a value whose custom destructor
/// runs while the referent of a checked reference field, reachable through
/// the structure that destructor may read, is already destroyed — the
/// failure mode this model exists to prevent. An opted-out field is exempt
/// only when the dependent value dies automatically at scope exit; a value
/// destroyed by explicit request is checked as if no opt-out existed.
pub fn check_validity(p: &Program) -> (r: Verdict)
    requires
        p.wf(),
    ensures
        r is Accept <==> accepts(*p),
        r matches Verdict::Reject { dependent, owner, field }
            ==> violation(*p, dependent, owner, field as int),
{
    let (pos, mid) = death_positions(p);
    let n = p.values.len();
    let mut v: usize = 0;
    while v < n
        invariant
            p.wf(),
            v <= n,
            n == p.values@.len(),
            pos@.len() == n,
            mid == explicit_deaths(*p, p.explicit_drops@.len() as int).len(),
            forall|x: usize| (x as int) < n ==> match #[trigger] pos@[x as int] {
                Option::Some(u) => death_pos(*p, x) == u,
                Option::None => death_pos(*p, x) == -1,
            },
            forall|vv: usize, w: usize, k: int| vv < v ==> !violation(*p, vv, w, k),
        decreases n - v,
    {
        if p.values[v].custom_dtor {
            let t_opt = pos[v];
            match t_opt {
                Option::Some(t) => {
                    let explicit = t < mid;
                    proof {
                        lemma_explicit_iff_before_mid(*p, v);
                        assert(explicit == explicitly_destroyed(*p, v));
                    }
                    let bad = find_dangling(p, v, explicit, t, &pos);
                    match bad {
                        Option::Some((w, k)) => {
                            proof {
                                assert(violation(*p, v, w, k as int));
                                assert(!accepts(*p));
                            }
                            return Verdict::Reject { dependent: v, owner: w, field: k };
                        },
                        Option::None => {},
                    }
                },
                Option::None => {},
            }
        }
        v = v + 1;
    }
    Verdict::Accept
}

/// A non-opted-out reference field whose referent dies strictly before the
/// owning value's custom destructor runs is always a violation: the
/// configuration is rejected.
pub proof fn lemma_direct_dangling_rejected(p: Program, v: usize, k: int)
    requires
        p.wf(),
        (v as int) < p.values@.len(),
        p.values@[v as int].custom_dtor,
        death_pos(p, v) >= 0,
        0 <= k < p.values@[v as int].fields@.len(),
        !p.values@[v as int].fields@[k].owned,
        !p.values@[v as int].fields@[k].opt_out,
        destroyed_before(p, p.values@[v as int].fields@[k].target, death_pos(p, v)),
    ensures
        violation(p, v, v, k),
        !accepts(p),
{
    assert(dtor_reach(p, v, v, explicitly_destroyed(p, v)));
    assert(violation(p, v, v, k));
    assert(!accepts(p)) by {
        assert(exists|vv: usize, ww: usize, kk: int| violation(p, vv, ww, kk)) by {
            assert(violation(p, v, v, k));
        }
    }
}

/// A value destroyed by pure glue generates no violation, however dangling
/// its reference fields are: nothing will read them.
pub proof fn lemma_trivial_drop_never_rejected(p: Program, v: usize)
    requires
        !((v as int) < p.values@.len() && p.values@[v as int].custom_dtor),
    ensures
        forall|w: usize, k: int| !violation(p, v, w, k),
{
}

/// For a value destroyed automatically at scope exit, an opted-out reference
/// field is exempt from checking: it can never be the field of a violation
/// whose dependent is its owner.
pub proof fn lemma_opt_out_suppresses_automatic(p: Program, v: usize, k: int)
    requires
        !explicitly_destroyed(p, v),
        0 <= k,
        (v as int) < p.values@.len() && k < p.values@[v as int].fields@.len()
            ==> p.values@[v as int].fields@[k].opt_out,
    ensures
        !violation(p, v, v, k),
{
}

/// For a value destroyed by explicit request, the opt-out is void: a
/// dangling reference field is a violation exactly as if no opt-out existed.
pub proof fn lemma_explicit_ignores_opt_out(p: Program, v: usize, k: int)
    requires
        p.wf(),
        (v as int) < p.values@.len(),
        p.values@[v as int].custom_dtor,
        death_pos(p, v) >= 0,
        explicitly_destroyed(p, v),
        0 <= k < p.values@[v as int].fields@.len(),
        !p.values@[v as int].fields@[k].owned,
        destroyed_before(p, p.values@[v as int].fields@[k].target, death_pos(p, v)),
    ensures
        violation(p, v, v, k),
        !accepts(p),
{
    assert(dtor_reach(p, v, v, explicitly_destroyed(p, v)));
    assert(violation(p, v, v, k));
    assert(!accepts(p)) by {
        assert(exists|vv: usize, ww: usize, kk: int| violation(p, vv, ww, kk)) by {
            assert(violation(p, v, v, k));
        }
    }
}

} // verus!
