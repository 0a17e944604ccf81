//! Simulation of destructor reads: classifying every dereference a custom
//! destructor performs during destruction.
//!
//! A destructor that dereferences an opted-out field acts on an assertion the
//! model cannot verify: if the data behind the field has been invalidated,
//! the read yields an arbitrary, unspecified value. Such an invocation is
//! flagged *unsound if executed* — an obligation the implementer accepted,
//! not an error the model can reject. A destructor that dereferences a
//! checked field whose referent is already destroyed corresponds to a
//! configuration the validity check rejects outright, so it is flagged
//! *rejected by model*; it never reaches execution. Every other dereference
//! is sound and earns no flag.

use vstd::prelude::*;

use crate::model::Program;
use crate::order::death_pos;
use crate::order::destroyed_before;
use crate::validity::death_positions;

verus! {

/// How a single destructor dereference is classified.
#[derive(Clone, Copy, PartialEq, Eq, Structural, Debug)]
pub enum FlagKind {
    /// The destructor reads through an opted-out field: the implementer
    /// asserted safety and the model cannot verify it. Executing the read on
    /// invalidated data yields an unspecified value.
    UnsoundIfExecuted,
    /// The destructor reads a checked field whose referent is already
    /// destroyed: the configuration is rejected before anything runs.
    RejectedByModel,
}

/// One flagged destructor dereference: field `field` of value `value`, read
/// by `value`'s custom destructor when it runs.
#[derive(Clone, Copy, PartialEq, Eq, Structural, Debug)]
pub struct DerefFlag {
    pub value: usize,
    pub field: usize,
    pub kind: FlagKind,
}

/// The custom destructor of `v` runs and dereferences its opted-out field
/// `k`: the model cannot vouch for the read.
pub open spec fn unsound_if_executed(p: Program, v: usize, k: int) -> bool {
    &&& (v as int) < p.values@.len()
    &&& p.values@[v as int].custom_dtor
    &&& death_pos(p, v) >= 0
    &&& 0 <= k < p.values@[v as int].fields@.len()
    &&& p.values@[v as int].fields@[k].dtor_reads
    &&& p.values@[v as int].fields@[k].opt_out
}

/// The custom destructor of `v` runs and dereferences its checked field `k`
/// whose referent is destroyed strictly before the destructor starts.
pub open spec fn rejected_by_model(p: Program, v: usize, k: int) -> bool {
    &&& (v as int) < p.values@.len()
    &&& p.values@[v as int].custom_dtor
    &&& death_pos(p, v) >= 0
    &&& 0 <= k < p.values@[v as int].fields@.len()
    &&& p.values@[v as int].fields@[k].dtor_reads
    &&& !p.values@[v as int].fields@[k].opt_out
    &&& destroyed_before(p, p.values@[v as int].fields@[k].target, death_pos(p, v))
}

/// The flag (if any) earned by field `k` of value `v`, assuming `v`'s custom
/// destructor runs.
pub open spec fn field_flag(p: Program, v: usize, k: int) -> Seq<DerefFlag> {
    if unsound_if_executed(p, v, k) {
        seq![DerefFlag {
            value: v,
            field: k as usize,
            kind: FlagKind::UnsoundIfExecuted,
        }]
    } else if rejected_by_model(p, v, k) {
        seq![DerefFlag { value: v, field: k as usize, kind: FlagKind::RejectedByModel }]
    } else {
        Seq::empty()
    }
}

/// Flags earned by the first `k` fields of `v`, in declaration order.
pub open spec fn value_flags(p: Program, v: usize, k: int) -> Seq<DerefFlag>
    decreases k,
{
    if (v as int) < p.values@.len() && 0 < k <= p.values@[v as int].fields@.len() {
        value_flags(p, v, k - 1) + field_flag(p, v, k - 1)
    } else {
        Seq::empty()
    }
}

/// Flags of the first `n` values, in arena order, fields in declaration
/// order within each value.
pub open spec fn flags_upto(p: Program, n: int) -> Seq<DerefFlag>
    decreases n,
{
    if 0 < n <= p.values@.len() {
        flags_upto(p, n - 1)
            + value_flags(p, (n - 1) as usize, p.values@[n - 1].fields@.len() as int)
    } else {
        Seq::empty()
    }
}

/// Every flag the program earns.
pub open spec fn dangling_flags(p: Program) -> Seq<DerefFlag> {
    flags_upto(p, p.values@.len() as int)
}

/// Classifies every dereference the custom destructors of the program
/// perform while destruction runs: reads through opted-out fields are
/// unsound if executed (the model cannot vouch for them), reads through
/// checked fields of already-destroyed referents are rejected by the model,
/// and everything else earns no flag.
pub fn simulate_dangling(p: &Program) -> (r: Vec<DerefFlag>)
    requires
        p.wf(),
    ensures
        r@ == dangling_flags(*p),
{
    let (pos, _mid) = death_positions(p);
    let n = p.values.len();
    let mut out: Vec<DerefFlag> = Vec::new();
    let mut v: usize = 0;
    while v < n
        invariant
            p.wf(),
            v <= n,
            n == p.values@.len(),
            pos@.len() == n,
            forall|x: usize| (x as int) < n ==> match #[trigger] pos@[x as int] {
                Option::Some(t) => death_pos(*p, x) == t,
                Option::None => death_pos(*p, x) == -1,
            },
            out@ == flags_upto(*p, v as int),
        decreases n - v,
    {
        let nf = p.values[v].fields.len();
        let runs = p.values[v].custom_dtor && match pos[v] {
            Option::Some(_) => true,
            Option::None => false,
        };
        let mut k: usize = 0;
        while k < nf
            invariant
                p.wf(),
                (v as int) < n,
                n == p.values@.len(),
                k <= nf,
                nf == p.values@[v as int].fields@.len(),
                pos@.len() == n,
                forall|x: usize| (x as int) < n ==> match #[trigger] pos@[x as int] {
                    Option::Some(t) => death_pos(*p, x) == t,
                    Option::None => death_pos(*p, x) == -1,
                },
                runs == (p.values@[v as int].custom_dtor && death_pos(*p, v) >= 0),
                out@ == flags_upto(*p, v as int) + value_flags(*p, v, k as int),
            decreases nf - k,
        {
            let f = p.values[v].fields[k];
            proof {
                assert(p.field_wf(v as int, k as int));
            }
            if runs && f.dtor_reads {
                if f.opt_out {
                    out.push(DerefFlag {
                        value: v,
                        field: k,
                        kind: FlagKind::UnsoundIfExecuted,
                    });
                } else {
                    let t = match pos[v] {
                        Option::Some(t) => t,
                        Option::None => 0,
                    };
                    let referent_dead_before = match pos[f.target] {
                        Option::Some(u) => u < t,
                        Option::None => false,
                    };
                    if referent_dead_before {
                        out.push(DerefFlag {
                            value: v,
                            field: k,
                            kind: FlagKind::RejectedByModel,
                        });
                    }
                }
            }
            proof {
                assert(value_flags(*p, v, k + 1)
                    == value_flags(*p, v, k as int) + field_flag(*p, v, k as int));
                assert(out@ == flags_upto(*p, v as int) + value_flags(*p, v, k + 1));
            }
            k = k + 1;
        }
        proof {
            assert(flags_upto(*p, v + 1)
                == flags_upto(*p, v as int) + value_flags(*p, v, nf as int));
        }
        v = v + 1;
    }
    out
}

/// What the flag list contains, field by field: an unsound-if-executed flag
/// stands for exactly the opted-out dereferences of destructors that run,
/// and a rejected-by-model flag for exactly the checked dereferences of
/// already-destroyed referents.
pub proof fn lemma_flag_membership(p: Program)
    requires
        p.wf(),
    ensures
        forall|v: usize, k: usize| dangling_flags(p).contains(
            (DerefFlag { value: v, field: k, kind: FlagKind::UnsoundIfExecuted }))
            <==> unsound_if_executed(p, v, k as int),
        forall|v: usize, k: usize| dangling_flags(p).contains(
            (DerefFlag { value: v, field: k, kind: FlagKind::RejectedByModel }))
            <==> rejected_by_model(p, v, k as int),
{
    lemma_flags_upto_membership(p, p.values@.len() as int);
    assert forall|v: usize, k: usize| unsound_if_executed(p, v, k as int)
        implies dangling_flags(p).contains(
            (DerefFlag { value: v, field: k, kind: FlagKind::UnsoundIfExecuted })) by {
        lemma_flag_emitted(p, v, k);
    }
    assert forall|v: usize, k: usize| rejected_by_model(p, v, k as int)
        implies dangling_flags(p).contains(
            (DerefFlag { value: v, field: k, kind: FlagKind::RejectedByModel })) by {
        lemma_flag_emitted(p, v, k);
    }
}

/// Any flag in the first `n` values' flags is truthful.
proof fn lemma_flags_upto_membership(p: Program, n: int)
    requires
        p.wf(),
        0 <= n <= p.values@.len(),
    ensures
        forall|e: DerefFlag| #[trigger] flags_upto(p, n).contains(e) ==> match e.kind {
            FlagKind::UnsoundIfExecuted => unsound_if_executed(p, e.value, e.field as int),
            FlagKind::RejectedByModel => rejected_by_model(p, e.value, e.field as int),
        },
    decreases n,
{
    if n > 0 {
        lemma_flags_upto_membership(p, n - 1);
        let v = (n - 1) as usize;
        let nf = p.values@[n - 1].fields@.len() as int;
        lemma_value_flags_membership(p, v, nf);
        assert forall|e: DerefFlag| #[trigger] flags_upto(p, n).contains(e)
            implies match e.kind {
                FlagKind::UnsoundIfExecuted =>
                    unsound_if_executed(p, e.value, e.field as int),
                FlagKind::RejectedByModel => rejected_by_model(p, e.value, e.field as int),
            } by {
            let s1 = flags_upto(p, n - 1);
            let s2 = value_flags(p, v, nf);
            let i = choose|i: int| 0 <= i < (s1 + s2).len() && (s1 + s2)[i] == e;
            if i < s1.len() {
                assert(s1.contains(e));
            } else {
                assert(s2[i - s1.len()] == e);
                assert(s2.contains(e));
            }
        }
    }
}

/// Any flag in the first `k` fields' flags of `v` is truthful.
proof fn lemma_value_flags_membership(p: Program, v: usize, k: int)
    requires
        p.wf(),
        (v as int) < p.values@.len(),
        0 <= k <= p.values@[v as int].fields@.len(),
    ensures
        forall|e: DerefFlag| #[trigger] value_flags(p, v, k).contains(e) ==> match e.kind {
            FlagKind::UnsoundIfExecuted => unsound_if_executed(p, e.value, e.field as int),
            FlagKind::RejectedByModel => rejected_by_model(p, e.value, e.field as int),
        },
    decreases k,
{
    if k > 0 {
        lemma_value_flags_membership(p, v, k - 1);
        assert forall|e: DerefFlag| #[trigger] value_flags(p, v, k).contains(e)
            implies match e.kind {
                FlagKind::UnsoundIfExecuted =>
                    unsound_if_executed(p, e.value, e.field as int),
                FlagKind::RejectedByModel => rejected_by_model(p, e.value, e.field as int),
            } by {
            let s1 = value_flags(p, v, k - 1);
            let s2 = field_flag(p, v, k - 1);
            let i = choose|i: int| 0 <= i < (s1 + s2).len() && (s1 + s2)[i] == e;
            if i < s1.len() {
                assert(s1.contains(e));
            } else {
                assert(s2[i - s1.len()] == e);
            }
        }
    }
}

/// A truthful flag really is emitted for its value and field.
proof fn lemma_flag_emitted(p: Program, v: usize, k: usize)
    requires
        p.wf(),
        unsound_if_executed(p, v, k as int) || rejected_by_model(p, v, k as int),
    ensures
        unsound_if_executed(p, v, k as int) ==> dangling_flags(p).contains(
            (DerefFlag { value: v, field: k, kind: FlagKind::UnsoundIfExecuted })),
        rejected_by_model(p, v, k as int) ==> dangling_flags(p).contains(
            (DerefFlag { value: v, field: k, kind: FlagKind::RejectedByModel })),
{
    let nf = p.values@[v as int].fields@.len() as int;
    lemma_flag_in_value_flags(p, v, k, nf);
    lemma_value_flags_in_upto(p, v, p.values@.len() as int);
}

/// The flag of field `k` appears once `k + 1` fields of `v` are covered.
proof fn lemma_flag_in_value_flags(p: Program, v: usize, k: usize, j: int)
    requires
        p.wf(),
        unsound_if_executed(p, v, k as int) || rejected_by_model(p, v, k as int),
        (k as int) < j <= p.values@[v as int].fields@.len(),
    ensures
        unsound_if_executed(p, v, k as int) ==> value_flags(p, v, j).contains(
            (DerefFlag { value: v, field: k, kind: FlagKind::UnsoundIfExecuted })),
        rejected_by_model(p, v, k as int) ==> value_flags(p, v, j).contains(
            (DerefFlag { value: v, field: k, kind: FlagKind::RejectedByModel })),
    decreases j,
{
    let s1 = value_flags(p, v, j - 1);
    let s2 = field_flag(p, v, j - 1);
    if k as int == j - 1 {
        if unsound_if_executed(p, v, k as int) {
            let e = DerefFlag { value: v, field: k, kind: FlagKind::UnsoundIfExecuted };
            assert(s2[0] == e);
            assert((s1 + s2)[s1.len() as int] == e);
        } else {
            let e = DerefFlag { value: v, field: k, kind: FlagKind::RejectedByModel };
            assert(s2[0] == e);
            assert((s1 + s2)[s1.len() as int] == e);
        }
    } else {
        lemma_flag_in_value_flags(p, v, k, j - 1);
        if unsound_if_executed(p, v, k as int) {
            let e = DerefFlag { value: v, field: k, kind: FlagKind::UnsoundIfExecuted };
            let i = choose|i: int| 0 <= i < s1.len() && s1[i] == e;
            assert((s1 + s2)[i] == e);
        } else {
            let e = DerefFlag { value: v, field: k, kind: FlagKind::RejectedByModel };
            let i = choose|i: int| 0 <= i < s1.len() && s1[i] == e;
            assert((s1 + s2)[i] == e);
        }
    }
}

/// Flags of value `v` survive into the flags of any value range past `v`.
proof fn lemma_value_flags_in_upto(p: Program, v: usize, n: int)
    requires
        p.wf(),
        (v as int) < n <= p.values@.len(),
    ensures
        forall|e: DerefFlag|
            #[trigger] value_flags(p, v, p.values@[v as int].fields@.len() as int)
                .contains(e) ==> flags_upto(p, n).contains(e),
    decreases n,
{
    let s2 = value_flags(p, (n - 1) as usize, p.values@[n - 1].fields@.len() as int);
    let s1 = flags_upto(p, n - 1);
    assert forall|e: DerefFlag|
        #[trigger] value_flags(p, v, p.values@[v as int].fields@.len() as int)
            .contains(e) implies flags_upto(p, n).contains(e) by {
        if v as int == n - 1 {
            let i = choose|i: int| 0 <= i < s2.len() && s2[i] == e;
            assert((s1 + s2)[s1.len() + i] == e);
        } else {
            lemma_value_flags_in_upto(p, v, n - 1);
            let i = choose|i: int| 0 <= i < s1.len() && s1[i] == e;
            assert((s1 + s2)[i] == e);
        }
    }
}

} // verus!
