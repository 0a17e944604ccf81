//! Destruction order: the sequence of observable events and the timeline of
//! value deaths for a whole program.
//!
//! Destroying one value emits its "destructor start" event (only if it has a
//! custom destructor), then destroys each owned field in declaration order,
//! diving recursively before moving to the next field — the "glue". A whole
//! program first performs its explicit destruction requests in program order,
//! then destroys the remaining bindings in reverse declaration order.

use vstd::prelude::*;

use crate::model::Program;

verus! {

/// One observable step of destruction.
#[derive(Clone, Copy, PartialEq, Eq, Structural, Debug)]
pub enum Event {
    /// The custom destructor of `value` begins to run. Emitted only for
    /// values that have one.
    DtorStart { value: usize },
    /// Glue destroys owned field `field` of `owner`; the events of the
    /// field's own destruction follow immediately.
    GlueField { owner: usize, field: usize },
}

/// The sequence of values whose storage dies when `v` is destroyed, in the
/// order their validity ends: `v` itself first (its destructor runs before
/// anything else), then each owned field's subtree in declaration order.
pub open spec fn value_deaths(p: Program, v: usize) -> Seq<usize>
    decreases p.values@.len() - v, p.values@[v as int].fields@.len() + 1,
{
    if (v as int) < p.values@.len() {
        seq![v] + fields_deaths(p, v, p.values@[v as int].fields@.len() as int)
    } else {
        Seq::empty()
    }
}

/// Deaths contributed by the first `k` fields of `v`, in declaration order.
pub open spec fn fields_deaths(p: Program, v: usize, k: int) -> Seq<usize>
    decreases p.values@.len() - v, k,
{
    if (v as int) < p.values@.len() && 0 < k <= p.values@[v as int].fields@.len() {
        let f = p.values@[v as int].fields@[k - 1];
        fields_deaths(p, v, k - 1) + if f.owned && v < f.target
            && (f.target as int) < p.values@.len() {
            value_deaths(p, f.target)
        } else {
            Seq::empty()
        }
    } else {
        Seq::empty()
    }
}

/// The observable events of destroying `v`: the custom destructor first, if
/// any, then the glue over the owned fields in declaration order.
pub open spec fn value_trace(p: Program, v: usize) -> Seq<Event>
    decreases p.values@.len() - v, p.values@[v as int].fields@.len() + 1,
{
    if (v as int) < p.values@.len() {
        (if p.values@[v as int].custom_dtor {
            seq![Event::DtorStart { value: v }]
        } else {
            Seq::empty()
        }) + fields_trace(p, v, p.values@[v as int].fields@.len() as int)
    } else {
        Seq::empty()
    }
}

/// Events contributed by the first `k` fields of `v`, in declaration order.
pub open spec fn fields_trace(p: Program, v: usize, k: int) -> Seq<Event>
    decreases p.values@.len() - v, k,
{
    if (v as int) < p.values@.len() && 0 < k <= p.values@[v as int].fields@.len() {
        let f = p.values@[v as int].fields@[k - 1];
        fields_trace(p, v, k - 1) + if f.owned && v < f.target
            && (f.target as int) < p.values@.len() {
            seq![Event::GlueField { owner: v, field: (k - 1) as usize }]
                + value_trace(p, f.target)
        } else {
            Seq::empty()
        }
    } else {
        Seq::empty()
    }
}

/// Deaths of the first `n` explicit destruction requests, in program order.
pub open spec fn explicit_deaths(p: Program, n: int) -> Seq<usize>
    decreases n,
{
    if 0 < n <= p.explicit_drops@.len() {
        explicit_deaths(p, n - 1) + value_deaths(p, p.explicit_drops@[n - 1])
    } else {
        Seq::empty()
    }
}

/// Events of the first `n` explicit destruction requests, in program order.
pub open spec fn explicit_trace(p: Program, n: int) -> Seq<Event>
    decreases n,
{
    if 0 < n <= p.explicit_drops@.len() {
        explicit_trace(p, n - 1) + value_trace(p, p.explicit_drops@[n - 1])
    } else {
        Seq::empty()
    }
}

/// Whether binding `b` is skipped at scope exit because it was already
/// destroyed by an explicit request.
pub open spec fn skipped(p: Program, b: int) -> bool {
    p.explicit_drops@.contains(p.bindings@[b].root)
}

/// Deaths at scope exit for the bindings `[0, n)`: reverse declaration order,
/// so binding `n - 1` dies first. A binding destroyed explicitly is skipped.
pub open spec fn auto_deaths(p: Program, n: int) -> Seq<usize>
    decreases n,
{
    if 0 < n <= p.bindings@.len() {
        (if skipped(p, n - 1) {
            Seq::empty()
        } else {
            value_deaths(p, p.bindings@[n - 1].root)
        }) + auto_deaths(p, n - 1)
    } else {
        Seq::empty()
    }
}

/// Events at scope exit for the bindings `[0, n)`, in reverse declaration
/// order.
pub open spec fn auto_trace(p: Program, n: int) -> Seq<Event>
    decreases n,
{
    if 0 < n <= p.bindings@.len() {
        (if skipped(p, n - 1) {
            Seq::empty()
        } else {
            value_trace(p, p.bindings@[n - 1].root)
        }) + auto_trace(p, n - 1)
    } else {
        Seq::empty()
    }
}

/// The order in which every value of the program dies: explicit requests
/// first, then scope exit in reverse declaration order.
pub open spec fn program_death_seq(p: Program) -> Seq<usize> {
    explicit_deaths(p, p.explicit_drops@.len() as int)
        + auto_deaths(p, p.bindings@.len() as int)
}

/// The full observable event trace of the program.
pub open spec fn program_trace(p: Program) -> Seq<Event> {
    explicit_trace(p, p.explicit_drops@.len() as int)
        + auto_trace(p, p.bindings@.len() as int)
}

/// Index of the first occurrence of `x` in `s`, or `-1` if `x` never occurs.
pub open spec fn first_pos(s: Seq<usize>, x: usize) -> int
    decreases s.len(),
{
    if s.len() == 0 {
        -1
    } else if s[0] == x {
        0
    } else {
        let r = first_pos(s.subrange(1, s.len() as int), x);
        if r < 0 {
            -1
        } else {
            r + 1
        }
    }
}

/// The moment `x` dies, as a position in [`program_death_seq`]; `-1` means
/// `x` is never destroyed. A value's custom destructor runs at exactly this
/// moment, before its glue.
pub open spec fn death_pos(p: Program, x: usize) -> int {
    first_pos(program_death_seq(p), x)
}

/// `x` is destroyed at some point, and strictly before moment `t`.
pub open spec fn destroyed_before(p: Program, x: usize, t: int) -> bool {
    0 <= death_pos(p, x) < t
}

/// `first_pos` finds `x` exactly when `s` contains it, inside the bounds of
/// `s`, and at a position that really holds `x` and is the first to do so.
pub proof fn lemma_first_pos(s: Seq<usize>, x: usize)
    ensures
        s.contains(x) <==> 0 <= first_pos(s, x) < s.len(),
        s.contains(x) ==> s[first_pos(s, x)] == x,
        forall|i: int| 0 <= i < first_pos(s, x) ==> s[i] != x,
        !s.contains(x) ==> first_pos(s, x) == -1,
    decreases s.len(),
{
    if s.len() == 0 {
    } else if s[0] == x {
    } else {
        let tail = s.subrange(1, s.len() as int);
        lemma_first_pos(tail, x);
        assert forall|y: usize| tail.contains(y) implies s.contains(y) by {
            let i = choose|i: int| 0 <= i < tail.len() && tail[i] == y;
            assert(s[i + 1] == y);
        }
        if s.contains(x) {
            let i = choose|i: int| 0 <= i < s.len() && s[i] == x;
            assert(tail[i - 1] == x);
        }
        assert forall|i: int| 0 <= i < first_pos(s, x) implies s[i] != x by {
            if i > 0 {
                assert(tail[i - 1] == s[i]);
            }
        }
    }
}

/// How `first_pos` distributes over concatenation.
pub proof fn lemma_first_pos_concat(s1: Seq<usize>, s2: Seq<usize>, x: usize)
    ensures
        s1.contains(x) ==> first_pos(s1 + s2, x) == first_pos(s1, x),
        !s1.contains(x) && s2.contains(x)
            ==> first_pos(s1 + s2, x) == s1.len() + first_pos(s2, x),
        !s1.contains(x) && !s2.contains(x) ==> first_pos(s1 + s2, x) == -1,
    decreases s1.len(),
{
    lemma_first_pos(s1, x);
    lemma_first_pos(s2, x);
    lemma_first_pos(s1 + s2, x);
    if s1.len() == 0 {
        assert(s1 + s2 =~= s2);
    } else {
        let t1 = s1.subrange(1, s1.len() as int);
        lemma_first_pos_concat(t1, s2, x);
        assert((s1 + s2).subrange(1, (s1 + s2).len() as int) =~= t1 + s2);
        if s1[0] == x {
            assert((s1 + s2)[0] == x);
        } else {
            assert(s1.contains(x) <==> t1.contains(x)) by {
                if s1.contains(x) {
                    let i = choose|i: int| 0 <= i < s1.len() && s1[i] == x;
                    assert(t1[i - 1] == x);
                }
                if t1.contains(x) {
                    let i = choose|i: int| 0 <= i < t1.len() && t1[i] == x;
                    assert(s1[i + 1] == x);
                }
            }
        }
    }
}

/// Membership in a concatenation is membership in either part.
proof fn lemma_concat_contains<A>(s1: Seq<A>, s2: Seq<A>)
    ensures
        forall|x: A| #[trigger] (s1 + s2).contains(x)
            <==> s1.contains(x) || s2.contains(x),
{
    assert forall|x: A| (s1 + s2).contains(x)
        implies s1.contains(x) || s2.contains(x) by {
        let i = choose|i: int| 0 <= i < (s1 + s2).len() && (s1 + s2)[i] == x;
        if i < s1.len() {
            assert(s1[i] == x);
        } else {
            assert(s2[i - s1.len()] == x);
        }
    }
    assert forall|x: A| s1.contains(x) || s2.contains(x)
        implies (s1 + s2).contains(x) by {
        if s1.contains(x) {
            let i = choose|i: int| 0 <= i < s1.len() && s1[i] == x;
            assert((s1 + s2)[i] == x);
        } else {
            let i = choose|i: int| 0 <= i < s2.len() && s2[i] == x;
            assert((s1 + s2)[s1.len() + i] == x);
        }
    }
}

/// Every event of `v`'s destruction concerns `v` itself or a value deeper in
/// its subtree, never anything with a smaller index.
proof fn lemma_value_trace_members(p: Program, v: usize)
    requires
        p.wf(),
        (v as int) < p.values@.len(),
    ensures
        forall|e: Event| #[trigger] value_trace(p, v).contains(e)
            ==> (e matches Event::DtorStart { value } ==> v <= value)
                && (e matches Event::GlueField { owner, field } ==> v <= owner),
    decreases p.values@.len() - v, p.values@[v as int].fields@.len() + 1,
{
    let nf = p.values@[v as int].fields@.len() as int;
    lemma_fields_trace_members(p, v, nf);
    let dpart = if p.values@[v as int].custom_dtor {
        seq![Event::DtorStart { value: v }]
    } else {
        Seq::<Event>::empty()
    };
    lemma_concat_contains(dpart, fields_trace(p, v, nf));
    assert forall|e: Event| dpart.contains(e)
        implies e == (Event::DtorStart { value: v }) by {
        let i = choose|i: int| 0 <= i < dpart.len() && dpart[i] == e;
    }
}

/// Every event of destroying the first `k` fields of `v` concerns a value
/// strictly deeper than `v`, except the glue events of `v` itself.
proof fn lemma_fields_trace_members(p: Program, v: usize, k: int)
    requires
        p.wf(),
        (v as int) < p.values@.len(),
        0 <= k <= p.values@[v as int].fields@.len(),
    ensures
        forall|e: Event| #[trigger] fields_trace(p, v, k).contains(e)
            ==> (e matches Event::DtorStart { value } ==> v < value)
                && (e matches Event::GlueField { owner, field } ==> v <= owner),
    decreases p.values@.len() - v, k,
{
    if k > 0 {
        lemma_fields_trace_members(p, v, k - 1);
        let f = p.values@[v as int].fields@[k - 1];
        let part = if f.owned && v < f.target && (f.target as int) < p.values@.len() {
            seq![Event::GlueField { owner: v, field: (k - 1) as usize }]
                + value_trace(p, f.target)
        } else {
            Seq::<Event>::empty()
        };
        lemma_concat_contains(fields_trace(p, v, k - 1), part);
        if f.owned && v < f.target && (f.target as int) < p.values@.len() {
            lemma_value_trace_members(p, f.target);
            lemma_concat_contains(
                seq![Event::GlueField { owner: v, field: (k - 1) as usize }],
                value_trace(p, f.target),
            );
            let single = seq![Event::GlueField { owner: v, field: (k - 1) as usize }];
            assert forall|e: Event| #[trigger] single.contains(e)
                implies e == (Event::GlueField { owner: v, field: (k - 1) as usize }) by {
                let i = choose|i: int| 0 <= i < single.len() && single[i] == e;
                assert(i == 0);
            }
        }
    }
}

/// A value destroyed by pure glue emits no "destructor start" event of its
/// own; its trace is exactly the glue over its fields.
pub proof fn lemma_trivial_drop_trace(p: Program, v: usize)
    requires
        p.wf(),
        (v as int) < p.values@.len(),
        !p.values@[v as int].custom_dtor,
    ensures
        value_trace(p, v) == fields_trace(
            p, v, p.values@[v as int].fields@.len() as int),
        !value_trace(p, v).contains((Event::DtorStart { value: v })),
{
    let nf = p.values@[v as int].fields@.len() as int;
    assert(value_trace(p, v) =~= fields_trace(p, v, nf));
    lemma_fields_trace_members(p, v, nf);
}

/// The glue event for owned field `k` of `v` really appears in `v`'s trace.
pub proof fn lemma_glue_emitted(p: Program, v: usize, k: usize)
    requires
        p.wf(),
        p.owned_edge(v as int, k as int),
    ensures
        value_trace(p, v).contains((Event::GlueField { owner: v, field: k })),
{
    let nf = p.values@[v as int].fields@.len() as int;
    lemma_glue_in_prefix(p, v, k, nf);
    let dpart = if p.values@[v as int].custom_dtor {
        seq![Event::DtorStart { value: v }]
    } else {
        Seq::<Event>::empty()
    };
    lemma_concat_contains(dpart, fields_trace(p, v, nf));
}

/// The glue event for owned field `k` appears once `k` fields are covered.
proof fn lemma_glue_in_prefix(p: Program, v: usize, k: usize, j: int)
    requires
        p.wf(),
        p.owned_edge(v as int, k as int),
        k < j <= p.values@[v as int].fields@.len(),
    ensures
        fields_trace(p, v, j).contains((Event::GlueField { owner: v, field: k })),
    decreases j,
{
    let f = p.values@[v as int].fields@[j - 1];
    let part = if f.owned && v < f.target && (f.target as int) < p.values@.len() {
        seq![Event::GlueField { owner: v, field: (j - 1) as usize }]
            + value_trace(p, f.target)
    } else {
        Seq::<Event>::empty()
    };
    lemma_concat_contains(fields_trace(p, v, j - 1), part);
    if k as int == j - 1 {
        assert(p.field_wf(v as int, k as int));
        assert(part[0] == (Event::GlueField { owner: v, field: k }));
        assert(part.contains((Event::GlueField { owner: v, field: k })));
    } else {
        lemma_glue_in_prefix(p, v, k, j - 1);
    }
}

/// Within the first `k` fields' trace, glue events of `v` name fields below
/// `k`, and they occur in declaration order.
proof fn lemma_glue_localized(p: Program, v: usize, k: int)
    requires
        p.wf(),
        (v as int) < p.values@.len(),
        0 <= k <= p.values@[v as int].fields@.len(),
    ensures
        forall|j: usize, i: int|
            0 <= i < fields_trace(p, v, k).len()
                && fields_trace(p, v, k)[i] == (Event::GlueField { owner: v, field: j })
                ==> (j as int) < k,
        forall|j1: usize, j2: usize, i1: int, i2: int|
            0 <= i1 < fields_trace(p, v, k).len()
                && 0 <= i2 < fields_trace(p, v, k).len()
                && fields_trace(p, v, k)[i1] == (Event::GlueField { owner: v, field: j1 })
                && fields_trace(p, v, k)[i2] == (Event::GlueField { owner: v, field: j2 })
                && j1 < j2 ==> i1 < i2,
    decreases k,
{
    if k > 0 {
        lemma_glue_localized(p, v, k - 1);
        let prefix = fields_trace(p, v, k - 1);
        let f = p.values@[v as int].fields@[k - 1];
        let part = if f.owned && v < f.target && (f.target as int) < p.values@.len() {
            seq![Event::GlueField { owner: v, field: (k - 1) as usize }]
                + value_trace(p, f.target)
        } else {
            Seq::<Event>::empty()
        };
        if f.owned && v < f.target && (f.target as int) < p.values@.len() {
            lemma_value_trace_members(p, f.target);
        }
        // Any glue event of `v` inside the new segment sits at its very
        // start and names field k - 1: the recursive trace of the target
        // only mentions deeper values.
        assert forall|j: usize, i: int|
            0 <= i < part.len()
                && part[i] == (Event::GlueField { owner: v, field: j })
            implies i == 0 && j as int == k - 1 by {
            assert(part.len() > 0);
            assert(f.owned && v < f.target && (f.target as int) < p.values@.len());
            let single = seq![Event::GlueField { owner: v, field: (k - 1) as usize }];
            let tr = value_trace(p, f.target);
            assert(part == single + tr);
            if i > 0 {
                assert(part[i] == tr[i - 1]);
                assert(tr.contains((Event::GlueField { owner: v, field: j })));
                assert(false);
            } else {
                assert(part[0] == single[0]);
            }
        }
        assert forall|j: usize, i: int|
            0 <= i < fields_trace(p, v, k).len()
                && fields_trace(p, v, k)[i] == (Event::GlueField { owner: v, field: j })
            implies (j as int) < k by {
            if i < prefix.len() {
                assert(prefix[i] == (Event::GlueField { owner: v, field: j }));
            } else {
                assert(part[i - prefix.len()]
                    == (Event::GlueField { owner: v, field: j }));
            }
        }
        assert forall|j1: usize, j2: usize, i1: int, i2: int|
            0 <= i1 < fields_trace(p, v, k).len()
                && 0 <= i2 < fields_trace(p, v, k).len()
                && fields_trace(p, v, k)[i1] == (Event::GlueField { owner: v, field: j1 })
                && fields_trace(p, v, k)[i2] == (Event::GlueField { owner: v, field: j2 })
                && j1 < j2 implies i1 < i2 by {
            if i1 < prefix.len() {
                assert(prefix[i1] == (Event::GlueField { owner: v, field: j1 }));
            } else {
                assert(part[i1 - prefix.len()]
                    == (Event::GlueField { owner: v, field: j1 }));
            }
            if i2 < prefix.len() {
                assert(prefix[i2] == (Event::GlueField { owner: v, field: j2 }));
            } else {
                assert(part[i2 - prefix.len()]
                    == (Event::GlueField { owner: v, field: j2 }));
            }
        }
    }
}

/// Glue events of one value stand in its trace in field declaration order:
/// first-declared fields are destroyed first.
pub proof fn lemma_glue_in_declared_order(p: Program, v: usize, k1: usize, k2: usize)
    requires
        p.wf(),
        p.owned_edge(v as int, k1 as int),
        p.owned_edge(v as int, k2 as int),
        k1 < k2,
    ensures
        value_trace(p, v).contains((Event::GlueField { owner: v, field: k1 })),
        value_trace(p, v).contains((Event::GlueField { owner: v, field: k2 })),
        forall|i1: int, i2: int|
            0 <= i1 < value_trace(p, v).len() && 0 <= i2 < value_trace(p, v).len()
                && value_trace(p, v)[i1] == (Event::GlueField { owner: v, field: k1 })
                && value_trace(p, v)[i2] == (Event::GlueField { owner: v, field: k2 })
                ==> i1 < i2,
{
    let nf = p.values@[v as int].fields@.len() as int;
    lemma_glue_emitted(p, v, k1);
    lemma_glue_emitted(p, v, k2);
    lemma_glue_localized(p, v, nf);
    let dpart = if p.values@[v as int].custom_dtor {
        seq![Event::DtorStart { value: v }]
    } else {
        Seq::<Event>::empty()
    };
    let ft = fields_trace(p, v, nf);
    assert forall|i1: int, i2: int|
        0 <= i1 < value_trace(p, v).len() && 0 <= i2 < value_trace(p, v).len()
            && value_trace(p, v)[i1] == (Event::GlueField { owner: v, field: k1 })
            && value_trace(p, v)[i2] == (Event::GlueField { owner: v, field: k2 })
        implies i1 < i2 by {
        let d = dpart.len() as int;
        assert(i1 >= d && i2 >= d);
        assert(ft[i1 - d] == (Event::GlueField { owner: v, field: k1 }));
        assert(ft[i2 - d] == (Event::GlueField { owner: v, field: k2 }));
    }
}

/// The event order for a value with a custom destructor and two owned fields:
/// the destructor body first, then the first field's full destruction,
/// recursively, then the second field's.
pub proof fn lemma_custom_dtor_event_order(p: Program, v: usize)
    requires
        p.wf(),
        (v as int) < p.values@.len(),
        p.values@[v as int].custom_dtor,
        p.values@[v as int].fields@.len() == 2,
        p.values@[v as int].fields@[0].owned,
        p.values@[v as int].fields@[1].owned,
    ensures
        value_trace(p, v) == seq![
            Event::DtorStart { value: v },
            Event::GlueField { owner: v, field: 0 },
        ] + value_trace(p, p.values@[v as int].fields@[0].target)
            + seq![Event::GlueField { owner: v, field: 1 }]
            + value_trace(p, p.values@[v as int].fields@[1].target),
{
    assert(p.field_wf(v as int, 0));
    assert(p.field_wf(v as int, 1));
    let t0 = p.values@[v as int].fields@[0].target;
    let t1 = p.values@[v as int].fields@[1].target;
    assert(fields_trace(p, v, 0) =~= Seq::<Event>::empty());
    assert(fields_trace(p, v, 1) =~= Seq::<Event>::empty()
        + (seq![Event::GlueField { owner: v, field: 0 }] + value_trace(p, t0)));
    assert(value_trace(p, v) =~= seq![
        Event::DtorStart { value: v },
        Event::GlueField { owner: v, field: 0 },
    ] + value_trace(p, t0)
        + seq![Event::GlueField { owner: v, field: 1 }]
        + value_trace(p, t1));
}

/// Everything that dies with `v` lies in `v`'s subtree: it is `v` itself or

/// Everything that dies with `v` lies in `v`'s subtree: it is `v` itself or
/// the target of an owned edge, its index is at least `v`, and `v` itself
/// dies first.
pub proof fn lemma_value_deaths_members(p: Program, v: usize)
    requires
        p.wf(),
        (v as int) < p.values@.len(),
    ensures
        value_deaths(p, v).len() >= 1,
        value_deaths(p, v)[0] == v,
        value_deaths(p, v).contains(v),
        forall|x: usize| #[trigger] value_deaths(p, v).contains(x)
            ==> v <= x && (x as int) < p.values@.len(),
        forall|x: usize| #[trigger] value_deaths(p, v).contains(x) && x != v
            ==> p.is_owned_target(x),
    decreases p.values@.len() - v, p.values@[v as int].fields@.len() + 1,
{
    let nf = p.values@[v as int].fields@.len() as int;
    lemma_fields_deaths_members(p, v, nf);
    lemma_concat_contains(seq![v], fields_deaths(p, v, nf));
    assert(value_deaths(p, v)[0] == (seq![v] + fields_deaths(p, v, nf))[0]);
    assert forall|x: usize| #[trigger] value_deaths(p, v).contains(x) && x != v
        implies p.is_owned_target(x) by {
        assert(seq![v].contains(x) ==> x == v);
    }
    assert forall|x: usize| #[trigger] value_deaths(p, v).contains(x)
        implies v <= x && (x as int) < p.values@.len() by {
        assert(seq![v].contains(x) ==> x == v);
    }
}

/// Everything that dies with the first `k` fields of `v` is the target of an
/// owned edge and has an index strictly greater than `v`.
proof fn lemma_fields_deaths_members(p: Program, v: usize, k: int)
    requires
        p.wf(),
        (v as int) < p.values@.len(),
        0 <= k <= p.values@[v as int].fields@.len(),
    ensures
        forall|x: usize| #[trigger] fields_deaths(p, v, k).contains(x)
            ==> v < x && (x as int) < p.values@.len() && p.is_owned_target(x),
    decreases p.values@.len() - v, k,
{
    if k > 0 {
        lemma_fields_deaths_members(p, v, k - 1);
        let f = p.values@[v as int].fields@[k - 1];
        let part = if f.owned && v < f.target && (f.target as int) < p.values@.len() {
            value_deaths(p, f.target)
        } else {
            Seq::<usize>::empty()
        };
        lemma_concat_contains(fields_deaths(p, v, k - 1), part);
        if f.owned && v < f.target && (f.target as int) < p.values@.len() {
            lemma_value_deaths_members(p, f.target);
            assert(p.owned_edge(v as int, k - 1));
            assert(p.is_owned_target(f.target));
        }
    }
}

/// A binding that is not explicitly destroyed never appears among the deaths
/// of the explicit destruction phase.
proof fn lemma_root_not_in_explicit(p: Program, b: int, n: int)
    requires
        p.wf(),
        0 <= b < p.bindings@.len(),
        !skipped(p, b),
        0 <= n <= p.explicit_drops@.len(),
    ensures
        !explicit_deaths(p, n).contains(p.bindings@[b].root),
    decreases n,
{
    let r = p.bindings@[b].root;
    if n > 0 {
        lemma_root_not_in_explicit(p, b, n - 1);
        let d = p.explicit_drops@[n - 1];
        lemma_value_deaths_members(p, d);
        lemma_concat_contains(explicit_deaths(p, n - 1), value_deaths(p, d));
        if value_deaths(p, d).contains(r) {
            // r is not d (r is not explicitly dropped), so r would have to be
            // an owned target, which a well-formed program forbids for roots.
            assert(p.explicit_drops@.contains(d));
            assert(r != d);
            assert(p.is_owned_target(r));
            assert(false);
        }
    }
}

/// A live binding's root appears in the scope-exit deaths of any range of
/// bindings that includes it.
proof fn lemma_auto_contains_root(p: Program, b: int, n: int)
    requires
        p.wf(),
        0 <= b < n <= p.bindings@.len(),
        !skipped(p, b),
    ensures
        auto_deaths(p, n).contains(p.bindings@[b].root),
    decreases n,
{
    let r = p.bindings@[b].root;
    let seg = if skipped(p, n - 1) {
        Seq::<usize>::empty()
    } else {
        value_deaths(p, p.bindings@[n - 1].root)
    };
    lemma_concat_contains(seg, auto_deaths(p, n - 1));
    if b == n - 1 {
        lemma_value_deaths_members(p, r);
    } else {
        lemma_auto_contains_root(p, b, n - 1);
    }
}

/// Among the scope-exit deaths, the root of a later-declared binding dies
/// strictly before the root of an earlier-declared one.
proof fn lemma_auto_reverse(p: Program, i: int, j: int, n: int)
    requires
        p.wf(),
        0 <= i < j < n <= p.bindings@.len(),
        !skipped(p, i),
        !skipped(p, j),
    ensures
        0 <= first_pos(auto_deaths(p, n), p.bindings@[j].root)
            < first_pos(auto_deaths(p, n), p.bindings@[i].root),
    decreases n,
{
    let ri = p.bindings@[i].root;
    let rj = p.bindings@[j].root;
    let seg = if skipped(p, n - 1) {
        Seq::<usize>::empty()
    } else {
        value_deaths(p, p.bindings@[n - 1].root)
    };
    let rest = auto_deaths(p, n - 1);
    lemma_first_pos_concat(seg, rest, ri);
    lemma_first_pos_concat(seg, rest, rj);
    lemma_first_pos(seg, ri);
    lemma_first_pos(seg, rj);
    lemma_first_pos(rest, ri);
    lemma_first_pos(rest, rj);
    // The root of a binding other than n - 1 cannot die in segment n - 1.
    assert forall|b: int|
        0 <= b < n - 1 && !skipped(p, b)
        implies !seg.contains(p.bindings@[b].root) by {
        if !skipped(p, n - 1) {
            let rn = p.bindings@[n - 1].root;
            lemma_value_deaths_members(p, rn);
            if seg.contains(p.bindings@[b].root) {
                assert(p.bindings@[b].root != rn);
                assert(p.is_owned_target(p.bindings@[b].root));
                assert(false);
            }
        }
    }
    if j == n - 1 {
        lemma_value_deaths_members(p, rj);
        assert(seg[0] == rj);
        assert(seg.contains(rj));
        lemma_auto_contains_root(p, i, n - 1);
        assert(first_pos(seg + rest, rj) == first_pos(seg, rj));
        assert(forall|q: int| 0 <= q < first_pos(seg, rj) ==> seg[q] != rj);
        assert(first_pos(seg, rj) == 0);
    } else {
        lemma_auto_reverse(p, i, j, n - 1);
    }
}

/// Automatic destruction order is the reverse of declaration order: of two
/// bindings both destroyed at scope exit, the one declared later dies
/// strictly earlier, wherever their initializations stood.
pub proof fn lemma_reverse_declaration_order(p: Program, i: int, j: int)
    requires
        p.wf(),
        0 <= i < j < p.bindings@.len(),
        !skipped(p, i),
        !skipped(p, j),
    ensures
        0 <= death_pos(p, p.bindings@[j].root) < death_pos(p, p.bindings@[i].root),
{
    let ri = p.bindings@[i].root;
    let rj = p.bindings@[j].root;
    let ex = explicit_deaths(p, p.explicit_drops@.len() as int);
    let auto = auto_deaths(p, p.bindings@.len() as int);
    lemma_root_not_in_explicit(p, i, p.explicit_drops@.len() as int);
    lemma_root_not_in_explicit(p, j, p.explicit_drops@.len() as int);
    lemma_auto_reverse(p, i, j, p.bindings@.len() as int);
    lemma_first_pos(auto, ri);
    lemma_first_pos(auto, rj);
    lemma_first_pos_concat(ex, auto, ri);
    lemma_first_pos_concat(ex, auto, rj);
}

/// Destruction order is governed by declaration, not initialization: two
/// programs that differ only in the recorded initialization order of their
/// bindings have the same deaths and the same event trace.
pub proof fn lemma_order_ignores_initialization(p1: Program, p2: Program)
    requires
        p1.values@ == p2.values@,
        p1.explicit_drops@ == p2.explicit_drops@,
        p1.bindings@.len() == p2.bindings@.len(),
        forall|b: int| 0 <= b < p1.bindings@.len()
            ==> (#[trigger] p1.bindings@[b].root) == p2.bindings@[b].root,
    ensures
        program_death_seq(p1) == program_death_seq(p2),
        program_trace(p1) == program_trace(p2),
{
    assert forall|v: usize|
        value_deaths(p1, v) == value_deaths(p2, v)
            && value_trace(p1, v) == value_trace(p2, v) by {
        lemma_values_determine_value_order(p1, p2, v);
    }
    lemma_values_determine_explicit(p1, p2, p1.explicit_drops@.len() as int);
    lemma_values_determine_auto(p1, p2, p1.bindings@.len() as int);
}

/// The deaths and events of a single value depend only on the arena.
proof fn lemma_values_determine_value_order(p1: Program, p2: Program, v: usize)
    requires
        p1.values@ == p2.values@,
    ensures
        value_deaths(p1, v) == value_deaths(p2, v),
        value_trace(p1, v) == value_trace(p2, v),
    decreases p1.values@.len() - v, p1.values@[v as int].fields@.len() + 1,
{
    if (v as int) < p1.values@.len() {
        lemma_values_determine_fields_order(
            p1, p2, v, p1.values@[v as int].fields@.len() as int);
    }
}

/// The deaths and events of a field range depend only on the arena.
proof fn lemma_values_determine_fields_order(p1: Program, p2: Program, v: usize, k: int)
    requires
        p1.values@ == p2.values@,
    ensures
        fields_deaths(p1, v, k) == fields_deaths(p2, v, k),
        fields_trace(p1, v, k) == fields_trace(p2, v, k),
    decreases p1.values@.len() - v, k,
{
    if (v as int) < p1.values@.len() && 0 < k <= p1.values@[v as int].fields@.len() {
        lemma_values_determine_fields_order(p1, p2, v, k - 1);
        let f = p1.values@[v as int].fields@[k - 1];
        if f.owned && v < f.target && (f.target as int) < p1.values@.len() {
            lemma_values_determine_value_order(p1, p2, f.target);
        }
    }
}

/// The explicit destruction phase depends only on the arena and the requests.
proof fn lemma_values_determine_explicit(p1: Program, p2: Program, n: int)
    requires
        p1.values@ == p2.values@,
        p1.explicit_drops@ == p2.explicit_drops@,
    ensures
        explicit_deaths(p1, n) == explicit_deaths(p2, n),
        explicit_trace(p1, n) == explicit_trace(p2, n),
    decreases n,
{
    if 0 < n <= p1.explicit_drops@.len() {
        lemma_values_determine_explicit(p1, p2, n - 1);
        lemma_values_determine_value_order(p1, p2, p1.explicit_drops@[n - 1]);
    }
}

/// The scope-exit phase depends only on the arena, the requests, and the
/// declaration order of the binding roots.
proof fn lemma_values_determine_auto(p1: Program, p2: Program, n: int)
    requires
        p1.values@ == p2.values@,
        p1.explicit_drops@ == p2.explicit_drops@,
        p1.bindings@.len() == p2.bindings@.len(),
        forall|b: int| 0 <= b < p1.bindings@.len()
            ==> (#[trigger] p1.bindings@[b].root) == p2.bindings@[b].root,
    ensures
        auto_deaths(p1, n) == auto_deaths(p2, n),
        auto_trace(p1, n) == auto_trace(p2, n),
    decreases n,
{
    if 0 < n <= p1.bindings@.len() {
        lemma_values_determine_auto(p1, p2, n - 1);
        assert(skipped(p1, n - 1) == skipped(p2, n - 1));
        if !skipped(p1, n - 1) {
            lemma_values_determine_value_order(p1, p2, p1.bindings@[n - 1].root);
        }
    }
}

/// Decides `p.explicit_drops@.contains(x)` executably.
fn drops_contain(p: &Program, x: usize) -> (r: bool)
    ensures
        r == p.explicit_drops@.contains(x),
{
    let nd = p.explicit_drops.len();
    let mut d: usize = 0;
    while d < nd
        invariant
            d <= nd,
            nd == p.explicit_drops@.len(),
            forall|i: int| 0 <= i < d ==> p.explicit_drops@[i] != x,
        decreases nd - d,
    {
        if p.explicit_drops[d] == x {
            return true;
        }
        d = d + 1;
    }
    false
}

/// Appends the destruction events of `v` to `out`.
fn push_value_trace(p: &Program, v: usize, out: &mut Vec<Event>)
    requires
        p.wf(),
        (v as int) < p.values@.len(),
    ensures
        final(out)@ == old(out)@ + value_trace(*p, v),
    decreases p.values@.len() - v,
{
    if p.values[v].custom_dtor {
        out.push(Event::DtorStart { value: v });
    }
    let ghost head = out@;
    let nf = p.values[v].fields.len();
    let mut k: usize = 0;
    while k < nf
        invariant
            p.wf(),
            (v as int) < p.values@.len(),
            k <= nf,
            nf == p.values@[v as int].fields@.len(),
            out@ == head + fields_trace(*p, v, k as int),
        decreases nf - k,
    {
        let f = p.values[v].fields[k];
        proof {
            assert(p.field_wf(v as int, k as int));
        }
        if f.owned {
            out.push(Event::GlueField { owner: v, field: k });
            push_value_trace(p, f.target, out);
        }
        k = k + 1;
    }
    proof {
        assert(out@ == head + fields_trace(*p, v, nf as int));
        assert(out@ == old(out)@ + value_trace(*p, v));
    }
}

/// Appends the death order of `v`'s subtree to `out`.
fn push_value_deaths(p: &Program, v: usize, out: &mut Vec<usize>)
    requires
        p.wf(),
        (v as int) < p.values@.len(),
    ensures
        final(out)@ == old(out)@ + value_deaths(*p, v),
    decreases p.values@.len() - v,
{
    out.push(v);
    let ghost head = out@;
    let nf = p.values[v].fields.len();
    let mut k: usize = 0;
    while k < nf
        invariant
            p.wf(),
            (v as int) < p.values@.len(),
            k <= nf,
            nf == p.values@[v as int].fields@.len(),
            out@ == head + fields_deaths(*p, v, k as int),
        decreases nf - k,
    {
        let f = p.values[v].fields[k];
        proof {
            assert(p.field_wf(v as int, k as int));
        }
        if f.owned {
            push_value_deaths(p, f.target, out);
        }
        k = k + 1;
    }
    proof {
        assert(out@ == head + fields_deaths(*p, v, nf as int));
        assert(out@ == old(out)@ + value_deaths(*p, v));
    }
}

/// Computes the full observable destruction trace of the program: explicit
/// destruction requests in program order, then scope exit in reverse
/// declaration order, each value emitting its "destructor start" event (if it
/// has a custom destructor) followed by glue over its owned fields in
/// declaration order.
pub fn compute_destruction_order(p: &Program) -> (r: Vec<Event>)
    requires
        p.wf(),
    ensures
        r@ == program_trace(*p),
{
    let mut out: Vec<Event> = Vec::new();
    let nd = p.explicit_drops.len();
    let mut d: usize = 0;
    while d < nd
        invariant
            p.wf(),
            d <= nd,
            nd == p.explicit_drops@.len(),
            out@ == explicit_trace(*p, d as int),
        decreases nd - d,
    {
        push_value_trace(p, p.explicit_drops[d], &mut out);
        d = d + 1;
    }
    let nb = p.bindings.len();
    let mut b: usize = nb;
    while b > 0
        invariant
            p.wf(),
            b <= nb,
            nb == p.bindings@.len(),
            out@ + auto_trace(*p, b as int)
                == explicit_trace(*p, p.explicit_drops@.len() as int)
                    + auto_trace(*p, nb as int),
        decreases b,
    {
        let root = p.bindings[b - 1].root;
        if !drops_contain(p, root) {
            push_value_trace(p, root, &mut out);
        }
        b = b - 1;
        proof {
            assert(auto_trace(*p, b + 1) == (if skipped(*p, b as int) {
                Seq::<Event>::empty()
            } else {
                value_trace(*p, p.bindings@[b as int].root)
            }) + auto_trace(*p, b as int));
        }
    }
    proof {
        assert(auto_trace(*p, 0) =~= Seq::<Event>::empty());
        assert(out@ =~= out@ + auto_trace(*p, 0));
    }
    out
}

/// Computes the order in which every value of the program dies, together with
/// the length of the prefix that came from explicit destruction requests:
/// every death at a position below that length was explicitly requested, and
/// every later one happened automatically at scope exit.
pub fn death_sequence(p: &Program) -> (r: (Vec<usize>, usize))
    requires
        p.wf(),
    ensures
        r.0@ == program_death_seq(*p),
        r.1 == explicit_deaths(*p, p.explicit_drops@.len() as int).len(),
        r.1 <= r.0@.len(),
{
    let mut out: Vec<usize> = Vec::new();
    let nd = p.explicit_drops.len();
    let mut d: usize = 0;
    while d < nd
        invariant
            p.wf(),
            d <= nd,
            nd == p.explicit_drops@.len(),
            out@ == explicit_deaths(*p, d as int),
        decreases nd - d,
    {
        push_value_deaths(p, p.explicit_drops[d], &mut out);
        d = d + 1;
    }
    let mid = out.len();
    let nb = p.bindings.len();
    let mut b: usize = nb;
    while b > 0
        invariant
            p.wf(),
            b <= nb,
            nb == p.bindings@.len(),
            out@ + auto_deaths(*p, b as int)
                == explicit_deaths(*p, p.explicit_drops@.len() as int)
                    + auto_deaths(*p, nb as int),
        decreases b,
    {
        let root = p.bindings[b - 1].root;
        if !drops_contain(p, root) {
            push_value_deaths(p, root, &mut out);
        }
        b = b - 1;
        proof {
            assert(auto_deaths(*p, b + 1) == (if skipped(*p, b as int) {
                Seq::<usize>::empty()
            } else {
                value_deaths(*p, p.bindings@[b as int].root)
            }) + auto_deaths(*p, b as int));
        }
    }
    proof {
        assert(auto_deaths(*p, 0) =~= Seq::<usize>::empty());
        assert(out@ =~= out@ + auto_deaths(*p, 0));
    }
    (out, mid)
}

} // verus!
