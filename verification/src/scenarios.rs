//! Concrete programs, one per facet of the destruction model: declaration
//! order, glue, trivial drops, the opt-out, and the structural ownership
//! marker. Each builder returns the configuration it describes; run
//! [`crate::order::compute_destruction_order`],
//! [`crate::validity::check_validity`] or
//! [`crate::dangling::simulate_dangling`] on it to observe the behavior its
//! contract states.

use vstd::prelude::*;

use crate::model::Binding;
use crate::model::Field;
use crate::model::Program;
use crate::model::Value;
use crate::order::Event;
use crate::order::death_pos;
use crate::order::fields_deaths;
use crate::order::fields_trace;
use crate::order::first_pos;
use crate::order::program_death_seq;
use crate::order::program_trace;
use crate::order::value_deaths;
use crate::order::value_trace;
use crate::validity::accepts;
use crate::validity::violation;

verus! {

/// A value none of whose first `k` fields is owned contributes no deaths and
/// no events through those fields.
proof fn lemma_no_owned_tail(p: Program, v: usize, k: int)
    requires
        (v as int) < p.values@.len(),
        0 <= k <= p.values@[v as int].fields@.len(),
        forall|kk: int| 0 <= kk < k
            ==> !(#[trigger] p.values@[v as int].fields@[kk]).owned,
    ensures
        fields_deaths(p, v, k) =~= Seq::<usize>::empty(),
        fields_trace(p, v, k) =~= Seq::<Event>::empty(),
    decreases k,
{
    if k > 0 {
        lemma_no_owned_tail(p, v, k - 1);
    }
}

/// A value with no owned fields dies alone; its trace is its own destructor
/// event, if it has one.
proof fn lemma_simple_value(p: Program, v: usize)
    requires
        (v as int) < p.values@.len(),
        forall|kk: int| 0 <= kk < p.values@[v as int].fields@.len()
            ==> !(#[trigger] p.values@[v as int].fields@[kk]).owned,
    ensures
        value_deaths(p, v) =~= seq![v],
        p.values@[v as int].custom_dtor
            ==> value_trace(p, v) =~= seq![Event::DtorStart { value: v }],
        !p.values@[v as int].custom_dtor
            ==> value_trace(p, v) =~= Seq::<Event>::empty(),
{
    lemma_no_owned_tail(p, v, p.values@[v as int].fields@.len() as int);
}

/// A value with no fields and no custom destructor: destroying it is not
/// observable.
fn leaf(custom_dtor: bool) -> (r: Value)
    ensures
        r.custom_dtor == custom_dtor,
        r.fields@.len() == 0,
{
    Value { custom_dtor, fields: Vec::new() }
}

/// A value with a single field.
fn single_field_value(custom_dtor: bool, f: Field) -> (r: Value)
    ensures
        r.custom_dtor == custom_dtor,
        r.fields@.len() == 1,
        r.fields@[0] == f,
{
    let mut fields: Vec<Field> = Vec::new();
    fields.push(f);
    Value { custom_dtor, fields }
}

/// Two bindings declared in order over two values, binding 0 first; the
/// recorded initialization orders say the *second*-declared binding was
/// initialized first, which must not matter.
fn two_bindings() -> (r: Vec<Binding>)
    ensures
        r@.len() == 2,
        (r@[0] == Binding { root: 0, init_order: 1 }),
        (r@[1] == Binding { root: 1, init_order: 0 }),
{
    let mut bindings: Vec<Binding> = Vec::new();
    bindings.push(Binding { root: 0, init_order: 1 });
    bindings.push(Binding { root: 1, init_order: 0 });
    bindings
}

/// A single binding holding the root of an ownership tree.
fn single_binding(root: usize) -> (r: Vec<Binding>)
    ensures
        r@.len() == 1,
        (r@[0] == Binding { root, init_order: 0 }),
{
    let mut bindings: Vec<Binding> = Vec::new();
    bindings.push(Binding { root, init_order: 0 });
    bindings
}

/// Declared first, destroyed last: two bindings with custom destructors,
/// where the first-declared one was initialized second. Destruction order
/// follows declaration alone, so the second-declared value's destructor runs
/// first.
pub fn drop_order() -> (p: Program)
    ensures
        p.wf(),
        p.values@.len() == 2,
        p.values@[0].custom_dtor && p.values@[1].custom_dtor,
        p.bindings@.len() == 2,
        (p.bindings@[0] == Binding { root: 0, init_order: 1 }),
        (p.bindings@[1] == Binding { root: 1, init_order: 0 }),
        p.explicit_drops@.len() == 0,
        program_trace(p) == seq![
            Event::DtorStart { value: 1 },
            Event::DtorStart { value: 0 },
        ],
{
    let mut values: Vec<Value> = Vec::new();
    values.push(leaf(true));
    values.push(leaf(true));
    let p = Program { values, bindings: two_bindings(), explicit_drops: Vec::new() };
    proof {
        assert(p.wf());
        lemma_simple_value(p, 0);
        lemma_simple_value(p, 1);
        assert(crate::order::auto_trace(p, 0) =~= Seq::<Event>::empty());
        assert(crate::order::auto_trace(p, 1)
            =~= seq![Event::DtorStart { value: 0 }]);
        assert(crate::order::auto_trace(p, 2)
            =~= seq![Event::DtorStart { value: 1 }, Event::DtorStart { value: 0 }]);
        assert(crate::order::explicit_trace(p, 0) =~= Seq::<Event>::empty());
        assert(program_trace(p)
            =~= seq![Event::DtorStart { value: 1 }, Event::DtorStart { value: 0 }]);
    }
    p
}

/// A custom destructor and glue cooperate: a value owning two fields, all
/// three with custom destructors. The owner's destructor body runs first,
/// then glue destroys each owned field in declaration order.
pub fn drop_glue1() -> (p: Program)
    ensures
        p.wf(),
        p.values@.len() == 3,
        p.values@[0].custom_dtor,
        p.values@[0].fields@.len() == 2,
        (p.values@[0].fields@[0]
            == Field { target: 1, owned: true, opt_out: false, dtor_reads: false }),
        (p.values@[0].fields@[1]
            == Field { target: 2, owned: true, opt_out: false, dtor_reads: false }),
        p.values@[1].custom_dtor && p.values@[2].custom_dtor,
        p.bindings@.len() == 1,
        p.bindings@[0].root == 0,
        p.explicit_drops@.len() == 0,
        program_trace(p) == seq![
            Event::DtorStart { value: 0 },
            Event::GlueField { owner: 0, field: 0 },
            Event::DtorStart { value: 1 },
            Event::GlueField { owner: 0, field: 1 },
            Event::DtorStart { value: 2 },
        ],
{
    let mut fields: Vec<Field> = Vec::new();
    fields.push(Field { target: 1, owned: true, opt_out: false, dtor_reads: false });
    fields.push(Field { target: 2, owned: true, opt_out: false, dtor_reads: false });
    let mut values: Vec<Value> = Vec::new();
    values.push(Value { custom_dtor: true, fields });
    values.push(leaf(true));
    values.push(leaf(true));
    let p = Program { values, bindings: single_binding(0), explicit_drops: Vec::new() };
    proof {
        assert forall|v: int, k: int| p.owned_edge(v, k) implies v == 0 by {}
        assert(p.wf());
        lemma_simple_value(p, 1);
        lemma_simple_value(p, 2);
        assert(fields_trace(p, 0, 0) =~= Seq::<Event>::empty());
        assert(fields_trace(p, 0, 1) =~= seq![
            Event::GlueField { owner: 0, field: 0 },
            Event::DtorStart { value: 1 },
        ]);
        assert(fields_trace(p, 0, 2) =~= seq![
            Event::GlueField { owner: 0, field: 0 },
            Event::DtorStart { value: 1 },
            Event::GlueField { owner: 0, field: 1 },
            Event::DtorStart { value: 2 },
        ]);
        assert(value_trace(p, 0) =~= seq![
            Event::DtorStart { value: 0 },
            Event::GlueField { owner: 0, field: 0 },
            Event::DtorStart { value: 1 },
            Event::GlueField { owner: 0, field: 1 },
            Event::DtorStart { value: 2 },
        ]);
        assert(crate::order::auto_trace(p, 0) =~= Seq::<Event>::empty());
        assert(crate::order::auto_trace(p, 1) =~= value_trace(p, 0));
        assert(crate::order::explicit_trace(p, 0) =~= Seq::<Event>::empty());
        assert(program_trace(p) =~= value_trace(p, 0));
    }
    p
}

/// Glue sticks only to owned fields: a value with a reference field and an
/// owned field. The referent, a separate earlier-declared binding, is not
/// destroyed as part of the owner's glue; it dies later, when its own
/// binding leaves scope.
pub fn drop_glue2() -> (p: Program)
    ensures
        p.wf(),
        p.values@.len() == 3,
        p.values@[0].custom_dtor,
        p.values@[1].custom_dtor,
        p.values@[1].fields@.len() == 2,
        (p.values@[1].fields@[0]
            == Field { target: 0, owned: false, opt_out: false, dtor_reads: false }),
        (p.values@[1].fields@[1]
            == Field { target: 2, owned: true, opt_out: false, dtor_reads: false }),
        p.values@[2].custom_dtor,
        p.bindings@.len() == 2,
        p.bindings@[0].root == 0,
        p.bindings@[1].root == 1,
        p.explicit_drops@.len() == 0,
        program_trace(p) == seq![
            Event::DtorStart { value: 1 },
            Event::GlueField { owner: 1, field: 1 },
            Event::DtorStart { value: 2 },
            Event::DtorStart { value: 0 },
        ],
        accepts(p),
{
    let mut fields: Vec<Field> = Vec::new();
    fields.push(Field { target: 0, owned: false, opt_out: false, dtor_reads: false });
    fields.push(Field { target: 2, owned: true, opt_out: false, dtor_reads: false });
    let mut values: Vec<Value> = Vec::new();
    values.push(leaf(true));
    values.push(Value { custom_dtor: true, fields });
    values.push(leaf(true));
    let mut bindings: Vec<Binding> = Vec::new();
    bindings.push(Binding { root: 0, init_order: 0 });
    bindings.push(Binding { root: 1, init_order: 1 });
    let p = Program { values, bindings, explicit_drops: Vec::new() };
    proof {
        assert forall|v: int, k: int| p.owned_edge(v, k) implies v == 1 && k == 1 by {}
        assert(p.wf());
        lemma_simple_value(p, 0);
        lemma_simple_value(p, 2);
        assert(fields_trace(p, 1, 0) =~= Seq::<Event>::empty());
        assert(fields_trace(p, 1, 1) =~= Seq::<Event>::empty());
        assert(fields_trace(p, 1, 2) =~= seq![
            Event::GlueField { owner: 1, field: 1 },
            Event::DtorStart { value: 2 },
        ]);
        assert(value_trace(p, 1) =~= seq![
            Event::DtorStart { value: 1 },
            Event::GlueField { owner: 1, field: 1 },
            Event::DtorStart { value: 2 },
        ]);
        assert(crate::order::auto_trace(p, 0) =~= Seq::<Event>::empty());
        assert(crate::order::auto_trace(p, 1) =~= value_trace(p, 0));
        assert(crate::order::auto_trace(p, 2) =~= value_trace(p, 1) + value_trace(p, 0));
        assert(crate::order::explicit_trace(p, 0) =~= Seq::<Event>::empty());
        assert(program_trace(p) =~= seq![
            Event::DtorStart { value: 1 },
            Event::GlueField { owner: 1, field: 1 },
            Event::DtorStart { value: 2 },
            Event::DtorStart { value: 0 },
        ]);
        // The owner's reference field points at a binding destroyed later,
        // so no dependency is broken.
        assert(fields_deaths(p, 1, 2) =~= seq![2usize]) by {
            assert(fields_deaths(p, 1, 0) =~= Seq::<usize>::empty());
            assert(fields_deaths(p, 1, 1) =~= Seq::<usize>::empty());
            assert(value_deaths(p, 2) =~= seq![2usize]);
        }
        assert(value_deaths(p, 1) =~= seq![1usize, 2usize]);
        assert(value_deaths(p, 0) =~= seq![0usize]);
        assert(crate::order::auto_deaths(p, 0) =~= Seq::<usize>::empty());
        assert(crate::order::auto_deaths(p, 1) =~= seq![0usize]);
        assert(crate::order::auto_deaths(p, 2) =~= seq![1usize, 2usize, 0usize]);
        assert(crate::order::explicit_deaths(p, 0) =~= Seq::<usize>::empty());
        assert(program_death_seq(p) =~= seq![1usize, 2usize, 0usize]);
        lemma_first_pos_three(seq![1usize, 2usize, 0usize]);
        assert(death_pos(p, 0) == 2 && death_pos(p, 1) == 0 && death_pos(p, 2) == 1);
        assert forall|v: usize, w: usize, k: int| !violation(p, v, w, k) by {
            if violation(p, v, w, k) {
                assert((v as int) < 3 && p.values@[v as int].custom_dtor);
                assert(!crate::validity::explicitly_destroyed(p, v));
                if v == 0 || v == 2 {
                    assert(crate::validity::dtor_reach(p, v, w, false));
                    assert(w == v);
                    assert(false);
                } else {
                    assert(crate::validity::dtor_reach(p, 1, w, false));
                    assert(w == 1 || w == 2);
                    assert(crate::validity::dangling_field(p, w, k, false, 0));
                    assert(false);
                }
            }
        }
    }
    p
}

/// Glue recurses: a value owning a value that itself owns two more, all with
/// custom destructors. Destruction dives depth first through the owned
/// structure.
pub fn drop_glue3() -> (p: Program)
    ensures
        p.wf(),
        p.values@.len() == 4,
        p.bindings@.len() == 1,
        p.bindings@[0].root == 0,
        p.explicit_drops@.len() == 0,
        program_trace(p) == seq![
            Event::DtorStart { value: 0 },
            Event::GlueField { owner: 0, field: 0 },
            Event::DtorStart { value: 1 },
            Event::GlueField { owner: 1, field: 0 },
            Event::DtorStart { value: 2 },
            Event::GlueField { owner: 1, field: 1 },
            Event::DtorStart { value: 3 },
        ],
{
    let mut inner_fields: Vec<Field> = Vec::new();
    inner_fields.push(Field { target: 2, owned: true, opt_out: false, dtor_reads: false });
    inner_fields.push(Field { target: 3, owned: true, opt_out: false, dtor_reads: false });
    let mut values: Vec<Value> = Vec::new();
    values.push(single_field_value(
        true,
        Field { target: 1, owned: true, opt_out: false, dtor_reads: false },
    ));
    values.push(Value { custom_dtor: true, fields: inner_fields });
    values.push(leaf(true));
    values.push(leaf(true));
    let p = Program { values, bindings: single_binding(0), explicit_drops: Vec::new() };
    proof {
        assert forall|v: int, k: int| p.owned_edge(v, k)
            implies v == 0 || v == 1 by {}
        assert(p.wf());
        lemma_simple_value(p, 2);
        lemma_simple_value(p, 3);
        assert(fields_trace(p, 1, 0) =~= Seq::<Event>::empty());
        assert(fields_trace(p, 1, 1) =~= seq![
            Event::GlueField { owner: 1, field: 0 },
            Event::DtorStart { value: 2 },
        ]);
        assert(fields_trace(p, 1, 2) =~= seq![
            Event::GlueField { owner: 1, field: 0 },
            Event::DtorStart { value: 2 },
            Event::GlueField { owner: 1, field: 1 },
            Event::DtorStart { value: 3 },
        ]);
        assert(value_trace(p, 1) =~= seq![
            Event::DtorStart { value: 1 },
            Event::GlueField { owner: 1, field: 0 },
            Event::DtorStart { value: 2 },
            Event::GlueField { owner: 1, field: 1 },
            Event::DtorStart { value: 3 },
        ]);
        assert(fields_trace(p, 0, 0) =~= Seq::<Event>::empty());
        assert(fields_trace(p, 0, 1)
            =~= seq![Event::GlueField { owner: 0, field: 0 }] + value_trace(p, 1));
        assert(value_trace(p, 0)
            =~= seq![Event::DtorStart { value: 0 }]
                + (seq![Event::GlueField { owner: 0, field: 0 }] + value_trace(p, 1)));
        assert(crate::order::auto_trace(p, 0) =~= Seq::<Event>::empty());
        assert(crate::order::auto_trace(p, 1) =~= value_trace(p, 0));
        assert(crate::order::explicit_trace(p, 0) =~= Seq::<Event>::empty());
        assert(program_trace(p) =~= seq![
            Event::DtorStart { value: 0 },
            Event::GlueField { owner: 0, field: 0 },
            Event::DtorStart { value: 1 },
            Event::GlueField { owner: 1, field: 0 },
            Event::DtorStart { value: 2 },
            Event::GlueField { owner: 1, field: 1 },
            Event::DtorStart { value: 3 },
        ]);
    }
    p
}

/// Exact first occurrences in a three-element death order.
proof fn lemma_first_pos_three(s: Seq<usize>)
    requires
        s.len() == 3,
        s[0] != s[1] && s[0] != s[2] && s[1] != s[2],
    ensures
        first_pos(s, s[0]) == 0,
        first_pos(s, s[1]) == 1,
        first_pos(s, s[2]) == 2,
{
    let t1 = s.subrange(1, 3);
    let t2 = t1.subrange(1, 2);
    assert(t2 =~= s.subrange(2, 3));
    assert(t1[0] == s[1] && t2[0] == s[2]);
    assert(t2.subrange(1, 1) =~= Seq::<usize>::empty());
    assert(first_pos(t2, s[2]) == 0);
    assert(first_pos(t1, s[2]) == 1);
    assert(first_pos(t1, s[1]) == 0);
    assert(first_pos(s, s[0]) == 0);
    assert(first_pos(s, s[1]) == 1);
    assert(first_pos(s, s[2]) == 2);
}

/// A dependent value with a custom destructor and one reference field is
/// declared before its referent, so the referent dies first at scope exit,
/// while the reference field carries the unsafe opt-out. The opt-out is
/// honored for automatic destruction: the configuration is accepted,
/// although the reference is dangling in memory terms.
pub fn may_dangle3() -> (p: Program)
    ensures
        p.wf(),
        p.values@.len() == 2,
        p.values@[0].custom_dtor,
        p.values@[0].fields@.len() == 1,
        (p.values@[0].fields@[0]
            == Field { target: 1, owned: false, opt_out: true, dtor_reads: false }),
        !p.values@[1].custom_dtor,
        p.bindings@.len() == 2,
        p.bindings@[0].root == 0,
        p.bindings@[1].root == 1,
        p.explicit_drops@.len() == 0,
        accepts(p),
{
    let dependent = single_field_value(
        true,
        Field { target: 1, owned: false, opt_out: true, dtor_reads: false },
    );
    let referent = leaf(false);
    let mut values: Vec<Value> = Vec::new();
    values.push(dependent);
    values.push(referent);
    let p = Program { values, bindings: two_bindings(), explicit_drops: Vec::new() };
    proof {
        lemma_two_value_wf(p);
        assert forall|v: usize, w: usize, k: int| !violation(p, v, w, k) by {
            if violation(p, v, w, k) {
                assert((v as int) < 2 && p.values@[v as int].custom_dtor);
                assert(v == 0);
                assert(crate::order::explicit_deaths(p, 0) =~= Seq::<usize>::empty());
                assert(!crate::validity::explicitly_destroyed(p, 0));
                assert(crate::validity::dangling_field(
                    p, w, k, false, crate::order::death_pos(p, 0)));
                assert((w as int) < 2);
                assert(false);
            }
        }
    }
    p
}

/// Exact first occurrences in a two-element death order, and absence of
/// everything else.
proof fn lemma_first_pos_pair(s: Seq<usize>)
    requires
        s.len() == 2,
        s[0] != s[1],
    ensures
        first_pos(s, s[0]) == 0,
        first_pos(s, s[1]) == 1,
        forall|x: usize| x != s[0] && x != s[1] ==> first_pos(s, x) == -1,
{
    let t = s.subrange(1, 2);
    assert(t[0] == s[1]);
    assert(t.subrange(1, 1) =~= Seq::<usize>::empty());
    assert(first_pos(t, s[1]) == 0);
    assert(first_pos(s, s[0]) == 0);
    assert(first_pos(s, s[1]) == 1);
    assert forall|x: usize| x != s[0] && x != s[1] implies first_pos(s, x) == -1 by {
        assert(first_pos(Seq::<usize>::empty(), x) == -1);
        assert(t.subrange(1, 1) =~= Seq::<usize>::empty());
        assert(first_pos(t, x) == -1);
    }
}

/// The death order of the plain two-binding scope: the second-declared
/// binding dies first at scope exit; nothing dies explicitly.
proof fn lemma_pair_deaths(p: Program)
    requires
        p.values@.len() == 2,
        forall|v: int, k: int|
            0 <= v < 2 && 0 <= k < p.values@[v].fields@.len()
                ==> !(#[trigger] p.values@[v].fields@[k]).owned,
        p.bindings@.len() == 2,
        p.bindings@[0].root == 0,
        p.bindings@[1].root == 1,
        p.explicit_drops@.len() == 0,
    ensures
        program_death_seq(p) =~= seq![1usize, 0usize],
        death_pos(p, 0) == 1,
        death_pos(p, 1) == 0,
        !crate::validity::explicitly_destroyed(p, 0),
        !crate::validity::explicitly_destroyed(p, 1),
{
    lemma_simple_value(p, 0);
    lemma_simple_value(p, 1);
    assert(crate::order::explicit_deaths(p, 0) =~= Seq::<usize>::empty());
    assert(crate::order::auto_deaths(p, 0) =~= Seq::<usize>::empty());
    assert(crate::order::auto_deaths(p, 1) =~= seq![0usize]);
    assert(crate::order::auto_deaths(p, 2) =~= seq![1usize, 0usize]);
    assert(program_death_seq(p) =~= seq![1usize, 0usize]);
    lemma_first_pos_pair(seq![1usize, 0usize]);
}

/// Well-formedness of the two-value, two-binding shape every pairwise
/// scenario uses: value 0 may reference value 1, nothing is owned.
proof fn lemma_two_value_wf(p: Program)
    requires
        p.values@.len() == 2,
        forall|v: int, k: int|
            0 <= v < 2 && 0 <= k < p.values@[v].fields@.len()
                ==> !(#[trigger] p.values@[v].fields@[k]).owned
                    && (p.values@[v].fields@[k].target as int) < 2,
        forall|v: int| 0 <= v < 2 ==> (#[trigger] p.values@[v].fields@.len()) <= 1,
        p.bindings@.len() == 2,
        p.bindings@[0].root == 0,
        p.bindings@[1].root == 1,
        p.explicit_drops@.len() <= 1,
        forall|d: int| 0 <= d < p.explicit_drops@.len()
            ==> (#[trigger] p.explicit_drops@[d] as int) < 2,
    ensures
        p.wf(),
{
    assert(forall|v: int, k: int| !p.owned_edge(v, k));
    assert(forall|x: usize| !p.is_owned_target(x));
}

/// A trivial drop never checks its references: a value with no custom
/// destructor holds a reference whose referent is destroyed first by an
/// explicit request. Nothing will read the dangling reference during pure
/// glue, so the configuration is accepted.
pub fn may_dangle1() -> (p: Program)
    ensures
        p.wf(),
        p.values@.len() == 2,
        !p.values@[0].custom_dtor,
        p.values@[0].fields@.len() == 1,
        (p.values@[0].fields@[0]
            == Field { target: 1, owned: false, opt_out: false, dtor_reads: false }),
        !p.values@[1].custom_dtor,
        p.bindings@.len() == 2,
        p.bindings@[0].root == 0,
        p.bindings@[1].root == 1,
        p.explicit_drops@ == seq![1usize],
        accepts(p),
{
    let holder = single_field_value(
        false,
        Field { target: 1, owned: false, opt_out: false, dtor_reads: false },
    );
    let mut values: Vec<Value> = Vec::new();
    values.push(holder);
    values.push(leaf(false));
    let mut bindings: Vec<Binding> = Vec::new();
    bindings.push(Binding { root: 0, init_order: 0 });
    bindings.push(Binding { root: 1, init_order: 1 });
    let mut drops: Vec<usize> = Vec::new();
    drops.push(1);
    let p = Program { values, bindings, explicit_drops: drops };
    proof {
        lemma_two_value_wf(p);
        assert forall|v: usize, w: usize, k: int| !violation(p, v, w, k) by {
            if violation(p, v, w, k) {
                assert((v as int) < 2 && p.values@[v as int].custom_dtor);
                assert(false);
            }
        }
    }
    p
}

/// A custom destructor demands validity even when its body reads nothing:
/// the dependent value is declared before its referent, so the referent dies
/// first at scope exit, and the reference field carries no opt-out. The
/// configuration is rejected.
pub fn may_dangle2() -> (p: Program)
    ensures
        p.wf(),
        p.values@.len() == 2,
        p.values@[0].custom_dtor,
        p.values@[0].fields@.len() == 1,
        (p.values@[0].fields@[0]
            == Field { target: 1, owned: false, opt_out: false, dtor_reads: false }),
        !p.values@[1].custom_dtor,
        p.bindings@.len() == 2,
        p.bindings@[0].root == 0,
        p.bindings@[1].root == 1,
        p.explicit_drops@.len() == 0,
        violation(p, 0, 0, 0),
        !accepts(p),
{
    let dependent = single_field_value(
        true,
        Field { target: 1, owned: false, opt_out: false, dtor_reads: false },
    );
    let mut values: Vec<Value> = Vec::new();
    values.push(dependent);
    values.push(leaf(false));
    let p = Program { values, bindings: two_bindings(), explicit_drops: Vec::new() };
    proof {
        lemma_two_value_wf(p);
        lemma_pair_deaths(p);
        crate::validity::lemma_direct_dangling_rejected(p, 0, 0);
    }
    p
}

/// As [`may_dangle3`], with the opted-out parameter a generic rather than a
/// lifetime: the ownership graph is the same, and so is the verdict.
pub fn may_dangle4() -> (p: Program)
    ensures
        p.wf(),
        p.values@.len() == 2,
        p.values@[0].custom_dtor,
        (p.values@[0].fields@[0]
            == Field { target: 1, owned: false, opt_out: true, dtor_reads: false }),
        p.bindings@.len() == 2,
        p.bindings@[0].root == 0,
        p.bindings@[1].root == 1,
        p.explicit_drops@.len() == 0,
        accepts(p),
{
    may_dangle3()
}

/// The opt-out is an unchecked promise: the same accepted configuration as
/// [`may_dangle3`], but the custom destructor really dereferences the
/// opted-out field. Validation still accepts it — and the simulation flags
/// the invocation as unsound if executed: the read yields an unspecified
/// value.
pub fn may_dangle5() -> (p: Program)
    ensures
        p.wf(),
        p.values@.len() == 2,
        p.values@[0].custom_dtor,
        (p.values@[0].fields@[0]
            == Field { target: 1, owned: false, opt_out: true, dtor_reads: true }),
        p.bindings@.len() == 2,
        p.bindings@[0].root == 0,
        p.bindings@[1].root == 1,
        p.explicit_drops@.len() == 0,
        accepts(p),
        crate::dangling::unsound_if_executed(p, 0, 0),
{
    let dependent = single_field_value(
        true,
        Field { target: 1, owned: false, opt_out: true, dtor_reads: true },
    );
    let mut values: Vec<Value> = Vec::new();
    values.push(dependent);
    values.push(leaf(false));
    let p = Program { values, bindings: two_bindings(), explicit_drops: Vec::new() };
    proof {
        lemma_two_value_wf(p);
        lemma_pair_deaths(p);
        assert forall|v: usize, w: usize, k: int| !violation(p, v, w, k) by {
            if violation(p, v, w, k) {
                assert((v as int) < 2 && p.values@[v as int].custom_dtor);
                assert(v == 0);
                assert(!crate::validity::explicitly_destroyed(p, 0));
                assert(crate::validity::dangling_field(p, w, k, false, death_pos(p, 0)));
                assert((w as int) < 2);
                assert(false);
            }
        }
    }
    p
}

/// The opt-out applies only to automatic destruction: the same dependent
/// value as [`may_dangle3`], but the program explicitly destroys the
/// referent and then the dependent value. Explicit destruction is checked
/// as if no opt-out existed, so the configuration is rejected.
pub fn may_dangle6() -> (p: Program)
    ensures
        p.wf(),
        p.values@.len() == 2,
        p.values@[0].custom_dtor,
        (p.values@[0].fields@[0]
            == Field { target: 1, owned: false, opt_out: true, dtor_reads: false }),
        p.bindings@.len() == 2,
        p.bindings@[0].root == 0,
        p.bindings@[1].root == 1,
        p.explicit_drops@ == seq![1usize, 0usize],
        violation(p, 0, 0, 0),
        !accepts(p),
{
    let dependent = single_field_value(
        true,
        Field { target: 1, owned: false, opt_out: true, dtor_reads: false },
    );
    let mut values: Vec<Value> = Vec::new();
    values.push(dependent);
    values.push(leaf(false));
    let mut drops: Vec<usize> = Vec::new();
    drops.push(1);
    drops.push(0);
    let p = Program { values, bindings: two_bindings(), explicit_drops: drops };
    proof {
        assert(p.explicit_drops@ =~= seq![1usize, 0usize]);
        assert(forall|v: int, k: int| !p.owned_edge(v, k));
        assert(forall|x: usize| !p.is_owned_target(x));
        assert(p.wf());
        lemma_simple_value(p, 0);
        lemma_simple_value(p, 1);
        assert(crate::order::explicit_deaths(p, 0) =~= Seq::<usize>::empty());
        assert(crate::order::explicit_deaths(p, 1) =~= seq![1usize]);
        assert(crate::order::explicit_deaths(p, 2) =~= seq![1usize, 0usize]);
        assert(crate::order::skipped(p, 0) && crate::order::skipped(p, 1)) by {
            assert(p.explicit_drops@[0] == 1 && p.explicit_drops@[1] == 0);
        }
        assert(crate::order::auto_deaths(p, 0) =~= Seq::<usize>::empty());
        assert(crate::order::auto_deaths(p, 1) =~= Seq::<usize>::empty());
        assert(crate::order::auto_deaths(p, 2) =~= Seq::<usize>::empty());
        assert(program_death_seq(p) =~= seq![1usize, 0usize]);
        lemma_first_pos_pair(seq![1usize, 0usize]);
        assert(death_pos(p, 0) == 1 && death_pos(p, 1) == 0);
        assert(crate::validity::explicitly_destroyed(p, 0)) by {
            assert(crate::order::explicit_deaths(p, 2)[1] == 0);
        }
        crate::validity::lemma_explicit_ignores_opt_out(p, 0, 0);
    }
    p
}

/// An opted-out owned field still gets glue: a value owning another value
/// with a custom destructor, the owning edge opted out. Glue descends into
/// the owned field regardless, after the owner's destructor body.
pub fn may_dangle7() -> (p: Program)
    ensures
        p.wf(),
        p.values@.len() == 2,
        p.values@[0].custom_dtor,
        (p.values@[0].fields@[0]
            == Field { target: 1, owned: true, opt_out: true, dtor_reads: false }),
        p.values@[1].custom_dtor,
        p.bindings@.len() == 1,
        p.bindings@[0].root == 0,
        p.explicit_drops@.len() == 0,
        program_trace(p) == seq![
            Event::DtorStart { value: 0 },
            Event::GlueField { owner: 0, field: 0 },
            Event::DtorStart { value: 1 },
        ],
        accepts(p),
{
    let owner = single_field_value(
        true,
        Field { target: 1, owned: true, opt_out: true, dtor_reads: false },
    );
    let mut values: Vec<Value> = Vec::new();
    values.push(owner);
    values.push(leaf(true));
    let p = Program { values, bindings: single_binding(0), explicit_drops: Vec::new() };
    proof {
        assert forall|v: int, k: int| p.owned_edge(v, k) implies v == 0 && k == 0 by {}
        assert(p.wf());
        lemma_simple_value(p, 1);
        assert(fields_trace(p, 0, 0) =~= Seq::<Event>::empty());
        assert(fields_trace(p, 0, 1) =~= seq![
            Event::GlueField { owner: 0, field: 0 },
            Event::DtorStart { value: 1 },
        ]);
        assert(value_trace(p, 0) =~= seq![
            Event::DtorStart { value: 0 },
            Event::GlueField { owner: 0, field: 0 },
            Event::DtorStart { value: 1 },
        ]);
        assert(crate::order::auto_trace(p, 0) =~= Seq::<Event>::empty());
        assert(crate::order::auto_trace(p, 1) =~= value_trace(p, 0));
        assert(crate::order::explicit_trace(p, 0) =~= Seq::<Event>::empty());
        assert(program_trace(p) =~= value_trace(p, 0));
        assert forall|v: usize, w: usize, k: int| !violation(p, v, w, k) by {
            if violation(p, v, w, k) {
                let ex = crate::validity::explicitly_destroyed(p, v);
                assert(crate::validity::dangling_field(p, w, k, ex, death_pos(p, v)));
                assert((w as int) < 2);
                assert(!p.values@[w as int].fields@[k].owned);
                assert(false);
            }
        }
    }
    p
}

/// A raw slot without an ownership marker, holding only a borrowed value:
/// the slot is opted out and the destructor merely frees storage without
/// dereferencing the borrow. The configuration is accepted and the
/// simulation has nothing to flag.
pub fn phantom1() -> (p: Program)
    ensures
        p.wf(),
        p.values@.len() == 2,
        p.values@[0].custom_dtor,
        (p.values@[0].fields@[0]
            == Field { target: 1, owned: false, opt_out: true, dtor_reads: false }),
        !p.values@[1].custom_dtor,
        p.bindings@.len() == 2,
        p.bindings@[0].root == 0,
        p.bindings@[1].root == 1,
        p.explicit_drops@ == seq![1usize],
        accepts(p),
        crate::dangling::dangling_flags(p) == Seq::<crate::dangling::DerefFlag>::empty(),
{
    let slot_holder = single_field_value(
        true,
        Field { target: 1, owned: false, opt_out: true, dtor_reads: false },
    );
    let mut values: Vec<Value> = Vec::new();
    values.push(slot_holder);
    values.push(leaf(false));
    let mut bindings: Vec<Binding> = Vec::new();
    bindings.push(Binding { root: 0, init_order: 0 });
    bindings.push(Binding { root: 1, init_order: 1 });
    let mut drops: Vec<usize> = Vec::new();
    drops.push(1);
    let p = Program { values, bindings, explicit_drops: drops };
    proof {
        lemma_two_value_wf(p);
        lemma_simple_value(p, 1);
        assert(crate::order::explicit_deaths(p, 0) =~= Seq::<usize>::empty());
        assert(crate::order::explicit_deaths(p, 1) =~= seq![1usize]);
        assert(!crate::validity::explicitly_destroyed(p, 0));
        assert forall|v: usize, w: usize, k: int| !violation(p, v, w, k) by {
            if violation(p, v, w, k) {
                assert((v as int) < 2 && p.values@[v as int].custom_dtor);
                assert(v == 0);
                assert(crate::validity::dangling_field(p, w, k, false, death_pos(p, 0)));
                assert((w as int) < 2);
                assert(false);
            }
        }
        assert(crate::dangling::value_flags(p, 0, 0)
            =~= Seq::<crate::dangling::DerefFlag>::empty());
        assert(crate::dangling::value_flags(p, 0, 1)
            =~= Seq::<crate::dangling::DerefFlag>::empty());
        assert(crate::dangling::value_flags(p, 1, 0)
            =~= Seq::<crate::dangling::DerefFlag>::empty());
        assert(crate::dangling::flags_upto(p, 0)
            =~= Seq::<crate::dangling::DerefFlag>::empty());
        assert(crate::dangling::flags_upto(p, 1)
            =~= Seq::<crate::dangling::DerefFlag>::empty());
        assert(crate::dangling::flags_upto(p, 2)
            =~= Seq::<crate::dangling::DerefFlag>::empty());
    }
    p
}

/// A raw slot without an ownership marker, holding a value whose own
/// destructor reads a reference: the caller invalidates that reference
/// before the slot's owner dies. The model sees no ownership edge, so
/// validation accepts the configuration — and the simulation flags the
/// owner's read through the opted-out slot as unsound if executed.
pub fn phantom2() -> (p: Program)
    ensures
        p.wf(),
        p.values@.len() == 3,
        p.values@[0].custom_dtor,
        (p.values@[0].fields@[0]
            == Field { target: 1, owned: false, opt_out: true, dtor_reads: true }),
        p.values@[1].custom_dtor,
        (p.values@[1].fields@[0]
            == Field { target: 2, owned: false, opt_out: false, dtor_reads: true }),
        !p.values@[2].custom_dtor,
        p.bindings@.len() == 2,
        p.bindings@[0].root == 0,
        p.bindings@[1].root == 2,
        p.explicit_drops@ == seq![2usize],
        accepts(p),
        crate::dangling::unsound_if_executed(p, 0, 0),
{
    let p = build_slot_program(false);
    proof {
        lemma_slot_program(p, false);
        assert forall|v: usize, w: usize, k: int| !violation(p, v, w, k) by {
            if violation(p, v, w, k) {
                assert((v as int) < 3 && p.values@[v as int].custom_dtor);
                assert(death_pos(p, v) >= 0);
                assert(v != 1);
                assert(v == 0);
                assert(!crate::validity::explicitly_destroyed(p, 0));
                assert(crate::validity::dtor_reach(p, 0, w, false));
                assert(w == 0);
                assert(crate::validity::dangling_field(p, 0, k, false, death_pos(p, 0)));
                assert(false);
            }
        }
    }
    p
}

/// The same raw slot with the structural ownership marker present: the
/// marker restores the ownership edge the slot was hiding, glue now reaches
/// the slotted value, and that value's own destructor reads a reference
/// whose referent died first. The configuration is rejected.
pub fn phantom3() -> (p: Program)
    ensures
        p.wf(),
        p.values@.len() == 3,
        p.values@[0].custom_dtor,
        (p.values@[0].fields@[0]
            == Field { target: 1, owned: true, opt_out: true, dtor_reads: true }),
        p.values@[1].custom_dtor,
        (p.values@[1].fields@[0]
            == Field { target: 2, owned: false, opt_out: false, dtor_reads: true }),
        !p.values@[2].custom_dtor,
        p.bindings@.len() == 2,
        p.bindings@[0].root == 0,
        p.bindings@[1].root == 2,
        p.explicit_drops@ == seq![2usize],
        violation(p, 1, 1, 0),
        !accepts(p),
{
    let p = build_slot_program(true);
    proof {
        lemma_slot_program(p, true);
        crate::validity::lemma_direct_dangling_rejected(p, 1, 0);
    }
    p
}

/// The slot-and-referent arena shared by the marker scenarios: a slot owner
/// whose destructor reads its opted-out slot, the slotted value whose own
/// destructor reads a reference, and the referent, explicitly destroyed
/// first. `marked` decides whether the slot carries the structural
/// ownership marker.
fn build_slot_program(marked: bool) -> (p: Program)
    ensures
        p.values@.len() == 3,
        p.values@[0].custom_dtor,
        p.values@[0].fields@.len() == 1,
        (p.values@[0].fields@[0]
            == Field { target: 1, owned: marked, opt_out: true, dtor_reads: true }),
        p.values@[1].custom_dtor,
        p.values@[1].fields@.len() == 1,
        (p.values@[1].fields@[0]
            == Field { target: 2, owned: false, opt_out: false, dtor_reads: true }),
        !p.values@[2].custom_dtor,
        p.values@[2].fields@.len() == 0,
        p.bindings@.len() == 2,
        (p.bindings@[0] == Binding { root: 0, init_order: 0 }),
        (p.bindings@[1] == Binding { root: 2, init_order: 1 }),
        p.explicit_drops@ == seq![2usize],
{
    let slot_owner = single_field_value(
        true,
        Field { target: 1, owned: marked, opt_out: true, dtor_reads: true },
    );
    let slotted = single_field_value(
        true,
        Field { target: 2, owned: false, opt_out: false, dtor_reads: true },
    );
    let mut values: Vec<Value> = Vec::new();
    values.push(slot_owner);
    values.push(slotted);
    values.push(leaf(false));
    let mut bindings: Vec<Binding> = Vec::new();
    bindings.push(Binding { root: 0, init_order: 0 });
    bindings.push(Binding { root: 2, init_order: 1 });
    let mut drops: Vec<usize> = Vec::new();
    drops.push(2);
    Program { values, bindings, explicit_drops: drops }
}

/// Well-formedness and death order of the slot arena, with or without the
/// marker.
proof fn lemma_slot_program(p: Program, marked: bool)
    requires
        p.values@.len() == 3,
        p.values@[0].custom_dtor,
        p.values@[0].fields@.len() == 1,
        (p.values@[0].fields@[0]
            == Field { target: 1, owned: marked, opt_out: true, dtor_reads: true }),
        p.values@[1].custom_dtor,
        p.values@[1].fields@.len() == 1,
        (p.values@[1].fields@[0]
            == Field { target: 2, owned: false, opt_out: false, dtor_reads: true }),
        !p.values@[2].custom_dtor,
        p.values@[2].fields@.len() == 0,
        p.bindings@.len() == 2,
        p.bindings@[0].root == 0,
        p.bindings@[1].root == 2,
        p.explicit_drops@ == seq![2usize],
    ensures
        p.wf(),
        !marked ==> program_death_seq(p) =~= seq![2usize, 0usize],
        !marked ==> death_pos(p, 0) == 1 && death_pos(p, 2) == 0
            && death_pos(p, 1) == -1,
        marked ==> program_death_seq(p) =~= seq![2usize, 0usize, 1usize],
        marked ==> death_pos(p, 0) == 1 && death_pos(p, 1) == 2
            && death_pos(p, 2) == 0,
        !crate::validity::explicitly_destroyed(p, 0),
        !crate::validity::explicitly_destroyed(p, 1),
        crate::dangling::unsound_if_executed(p, 0, 0) == (death_pos(p, 0) >= 0),
        crate::order::destroyed_before(p, 2, death_pos(p, 1)) == marked,
{
    assert forall|v: int, k: int| p.owned_edge(v, k)
        implies marked && v == 0 && k == 0 by {}
    assert(p.wf()) by {
        assert forall|x: usize| p.is_owned_target(x) implies marked && x == 1 by {
            let (v, k) = choose|v: int, k: int|
                p.owned_edge(v, k) && p.values@[v].fields@[k].target == x;
        }
    }
    lemma_simple_value(p, 1);
    lemma_simple_value(p, 2);
    assert(crate::order::explicit_deaths(p, 0) =~= Seq::<usize>::empty());
    assert(crate::order::explicit_deaths(p, 1) =~= seq![2usize]);
    assert(crate::order::skipped(p, 1)) by {
        assert(p.explicit_drops@[0] == 2);
    }
    assert(!crate::order::skipped(p, 0)) by {
        assert(p.explicit_drops@[0] == 2);
    }
    assert(crate::order::auto_deaths(p, 0) =~= Seq::<usize>::empty());
    if marked {
        assert(fields_deaths(p, 0, 0) =~= Seq::<usize>::empty());
        assert(fields_deaths(p, 0, 1) =~= value_deaths(p, 1));
        assert(value_deaths(p, 0) =~= seq![0usize, 1usize]);
        assert(crate::order::auto_deaths(p, 1) =~= seq![0usize, 1usize]);
        assert(crate::order::auto_deaths(p, 2) =~= seq![0usize, 1usize]);
        assert(program_death_seq(p) =~= seq![2usize, 0usize, 1usize]);
        lemma_first_pos_three(seq![2usize, 0usize, 1usize]);
    } else {
        lemma_simple_value(p, 0);
        assert(crate::order::auto_deaths(p, 1) =~= seq![0usize]);
        assert(crate::order::auto_deaths(p, 2) =~= seq![0usize]);
        assert(program_death_seq(p) =~= seq![2usize, 0usize]);
        lemma_first_pos_pair(seq![2usize, 0usize]);
    }
}

} // verus!
