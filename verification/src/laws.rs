//! The laws of the evaluator, proved once and for all over the interpreter
//! `eval_v` that every contract of `Value::get` speaks of.
use vstd::prelude::*;

use crate::context::{compute_v, CursorDocV, ContextV};
use crate::eval::{
    Error, Res, ResL, eval_list, eval_v, has_plan, where_keep,
};
use crate::part::{first_rr, PartV, Recurse, RecurseInstruction};
use crate::value::{lookup_field, FieldV, ValueV};

verus! {

/// An empty path returns the value unchanged, whatever the value, the
/// context, the document and the fuel.
pub proof fn law_empty_path(
    env: ContextV,
    doc: Option<CursorDocV>,
    v: ValueV,
    fuel: nat,
)
    ensures
        eval_v(env, doc, v, Seq::empty(), fuel) == Res::Val(v),
{
    assert(Seq::<PartV>::empty().len() == 0);
}

/// A path longer than the configured computation depth always fails with
/// the depth error, whatever the value and the fuel.
pub proof fn law_depth_exceeded(
    env: ContextV,
    doc: Option<CursorDocV>,
    v: ValueV,
    path: Seq<PartV>,
    fuel: nat,
)
    requires
        path.len() > env.max_computation_depth,
    ensures
        eval_v(env, doc, v, path, fuel) == Res::Fail(Error::ComputationDepthExceeded),
{
}

/// An optional step is skipped on a present value and stops the descent as
/// absence on an absent one. Deferred values are outside the statement:
/// futures, reference lists and edge descriptors materialize first, so the
/// optional step applies to what they stand for, not to them.
pub proof fn law_optional(
    env: ContextV,
    doc: Option<CursorDocV>,
    v: ValueV,
    rest: Seq<PartV>,
    fuel: nat,
)
    requires
        1 + rest.len() <= env.max_computation_depth,
        !(v is Future),
        !(v is Refs),
        !(v is Edges),
    ensures
        eval_v(env, doc, v, seq![PartV::Optional] + rest, fuel) == (if v is Nothing {
            Res::Val(ValueV::Nothing)
        } else {
            eval_v(env, doc, v, rest, fuel)
        }),
{
    let path = seq![PartV::Optional] + rest;
    assert(path.len() == 1 + rest.len());
    assert(path.first() == PartV::Optional);
    assert(path.drop_first() =~= rest);
    match v {
        ValueV::Object(fs) => {
            assert(eval_v(env, doc, v, path, fuel) == crate::eval::eval_object(
                env,
                doc,
                fs,
                path,
                fuel,
            ));
            assert(crate::eval::eval_object(env, doc, fs, path, fuel) == eval_v(
                env,
                doc,
                ValueV::Object(fs),
                rest,
                fuel,
            ));
        },
        ValueV::Array(xs) => {
            assert(eval_v(env, doc, v, path, fuel) == crate::eval::eval_array(
                env,
                doc,
                xs,
                path,
                fuel,
            ));
            assert(crate::eval::eval_array(env, doc, xs, path, fuel) == eval_v(
                env,
                doc,
                ValueV::Array(xs),
                rest,
                fuel,
            ));
        },
        ValueV::Thing(t) => {
            assert(eval_v(env, doc, v, path, fuel) == crate::eval::eval_thing(
                env,
                doc,
                t,
                path,
                fuel,
            ));
            assert(crate::eval::eval_thing(env, doc, t, path, fuel) == eval_v(
                env,
                doc,
                ValueV::Thing(t),
                rest,
                fuel,
            ));
        },
        _ => {
            assert(eval_v(env, doc, v, path, fuel) == crate::eval::eval_other(
                env,
                doc,
                v,
                path,
                fuel,
            ));
        },
    }
}

/// A field step on an object descends into the named field, and a missing
/// field descends as absence. The one special form stands apart: an `id`
/// field holding a record reference with an object or array identifier,
/// with more path to come, opens into that identifier instead.
pub proof fn law_field(
    env: ContextV,
    doc: Option<CursorDocV>,
    fs: Seq<FieldV>,
    k: Seq<char>,
    rest: Seq<PartV>,
    fuel: nat,
)
    requires
        1 + rest.len() <= env.max_computation_depth,
        !(k == seq!['i', 'd'] && rest.len() > 0 && (match lookup_field(fs, k) {
            Option::Some(ValueV::Thing(t)) => t.id is Object || t.id is Array,
            _ => false,
        })),
    ensures
        eval_v(env, doc, ValueV::Object(fs), seq![PartV::Field(k)] + rest, fuel) == (match lookup_field(
            fs,
            k,
        ) {
            Option::Some(w) => eval_v(env, doc, w, rest, fuel),
            Option::None => eval_v(env, doc, ValueV::Nothing, rest, fuel),
        }),
{
    let path = seq![PartV::Field(k)] + rest;
    assert(path.len() == 1 + rest.len());
    assert(path.first() == PartV::Field(k));
    assert(path.drop_first() =~= rest);
    assert(eval_v(env, doc, ValueV::Object(fs), path, fuel) == crate::eval::eval_object(
        env,
        doc,
        fs,
        path,
        fuel,
    ));
    if k == seq!['i', 'd'] && path.len() > 1 {
        match lookup_field(fs, k) {
            Option::Some(ValueV::Thing(t)) => {
                assert(!(t.id is Object) && !(t.id is Array));
            },
            _ => {},
        }
    }
}

/// A predicate step keeps exactly the elements the predicate holds of, in
/// encounter order, each element checked as its own document; the descent
/// continues on the kept array.
pub proof fn law_where(
    env: ContextV,
    doc: Option<CursorDocV>,
    xs: Seq<ValueV>,
    w: crate::value::ExprV,
    rest: Seq<PartV>,
    fuel: nat,
)
    requires
        1 + rest.len() <= env.max_computation_depth,
    ensures
        eval_v(env, doc, ValueV::Array(xs), seq![PartV::Where(w)] + rest, fuel) == eval_v(
            env,
            doc,
            ValueV::Array(where_keep(xs, w)),
            rest,
            fuel,
        ),
{
    let path = seq![PartV::Where(w)] + rest;
    assert(path.len() == 1 + rest.len());
    assert(path.first() == PartV::Where(w));
    assert(path.drop_first() =~= rest);
    assert(eval_v(env, doc, ValueV::Array(xs), path, fuel) == crate::eval::eval_array(
        env,
        doc,
        xs,
        path,
        fuel,
    ));
}

/// Kept elements keep their encounter order: filtering a concatenation is
/// the concatenation of the filterings.
pub proof fn law_where_order(a: Seq<ValueV>, b: Seq<ValueV>, w: crate::value::ExprV)
    ensures
        where_keep(a + b, w) == where_keep(a, w) + where_keep(b, w),
    decreases a,
{
    if a.len() == 0 {
        assert(a + b =~= b);
        assert(where_keep(a, w) + where_keep(b, w) =~= where_keep(b, w));
    } else {
        law_where_order(a.drop_first(), b, w);
        assert((a + b).first() == a.first());
        assert((a + b).drop_first() =~= a.drop_first() + b);
        if crate::value::truthy(
            compute_v(w, Option::Some(CursorDocV { rid: Option::None, doc: a.first() })),
        ) {
            assert(seq![a.first()] + (where_keep(a.drop_first(), w) + where_keep(b, w)) =~= (seq![
                a.first(),
            ] + where_keep(a.drop_first(), w)) + where_keep(b, w));
        }
    }
}

/// A repetition marker at the head of a path, outside any recursion step,
/// always fails with the unsupported-repetition error.
pub proof fn law_repeat_recurse(
    env: ContextV,
    doc: Option<CursorDocV>,
    v: ValueV,
    rest: Seq<PartV>,
    fuel: nat,
)
    requires
        1 + rest.len() <= env.max_computation_depth,
    ensures
        eval_v(env, doc, v, seq![PartV::RepeatRecurse] + rest, fuel) == Res::Fail(
            Error::UnsupportedRepeatRecurse,
        ),
{
    let path = seq![PartV::RepeatRecurse] + rest;
    assert(path.len() == 1 + rest.len());
    assert(path.first() == PartV::RepeatRecurse);
}

/// A recursion step that carries an instruction while its repeating segment
/// hides a recursion plan, and no root-level repetition marker, always
/// fails with the conflict error.
pub proof fn law_instruction_plan_conflict(
    env: ContextV,
    doc: Option<CursorDocV>,
    v: ValueV,
    bounds: Recurse,
    inner: Option<Seq<PartV>>,
    inst: RecurseInstruction,
    rest: Seq<PartV>,
    fuel: nat,
)
    requires
        1 + rest.len() <= env.max_computation_depth,
        fuel >= 1,
        ({
            let rep0 = (match inner {
                Option::Some(p) => p,
                Option::None => rest,
            });
            first_rr(rep0) == rep0.len() && has_plan(rep0)
        }),
    ensures
        eval_v(
            env,
            doc,
            v,
            seq![PartV::Recurse(bounds, inner, Option::Some(inst))] + rest,
            fuel,
        ) == Res::Fail(Error::RecursionInstructionPlanConflict),
{
    let path = seq![PartV::Recurse(bounds, inner, Option::Some(inst))] + rest;
    assert(path.len() == 1 + rest.len());
    assert(path.first() == PartV::Recurse(bounds, inner, Option::Some(inst)));
    assert(path.drop_first() =~= rest);
    let rep0 = (match inner {
        Option::Some(p) => p,
        Option::None => rest,
    });
    assert(eval_v(env, doc, v, path, fuel) == crate::eval::eval_recurse_part(
        env,
        doc,
        v,
        path,
        bounds,
        inner,
        Option::Some(inst),
        (fuel - 1) as nat,
    ));
}

/// A future is opaque under the empty path, and under a non-empty path it
/// is computed first, with one unit of the budget spent on the reentry. A
/// path headed by a recursion step drives the future through the recursion
/// engine instead, and a document step never consults the value at all, so
/// both stand outside the statement.
pub proof fn law_future(
    env: ContextV,
    doc: Option<CursorDocV>,
    e: crate::value::ExprV,
    path: Seq<PartV>,
    fuel: nat,
)
    requires
        1 <= path.len() <= env.max_computation_depth,
        fuel >= 1,
        !(path.first() is Recurse),
        !(path.first() is Doc),
    ensures
        eval_v(env, doc, ValueV::Future(Box::new(e)), Seq::empty(), fuel) == Res::Val(
            ValueV::Future(Box::new(e)),
        ),
        eval_v(env, doc, ValueV::Future(Box::new(e)), path, fuel) == eval_v(
            env,
            doc,
            compute_v(e, doc),
            path,
            (fuel - 1) as nat,
        ),
{
    law_empty_path(env, doc, ValueV::Future(Box::new(e)), fuel);
}

} // verus!

verus! {

/// What mapping a path over elements yields, element by element: on
/// success, one result per element in order; on failure, some element's
/// own failure.
pub proof fn law_list_elements(
    env: ContextV,
    doc: Option<CursorDocV>,
    xs: Seq<ValueV>,
    path: Seq<PartV>,
    fuel: nat,
)
    ensures
        match eval_list(env, doc, xs, path, fuel) {
            ResL::Vals(ys) => ys.len() == xs.len() && forall|i: int|
                0 <= i < xs.len() ==> eval_v(env, doc, #[trigger] xs[i], path, fuel) == Res::Val(
                    ys[i],
                ),
            ResL::Fail(e) => exists|i: int|
                0 <= i < xs.len() && eval_v(env, doc, #[trigger] xs[i], path, fuel) == Res::Fail(e),
        },
    decreases xs.len(),
{
    if xs.len() > 0 {
        law_list_elements(env, doc, xs.drop_first(), path, fuel);
        match eval_v(env, doc, xs.first(), path, fuel) {
            Res::Fail(e) => {
                assert(xs[0] == xs.first());
            },
            Res::Val(y) => {
                match eval_list(env, doc, xs.drop_first(), path, fuel) {
                    ResL::Fail(e) => {
                        let w = choose|i: int|
                            0 <= i < xs.drop_first().len() && eval_v(
                                env,
                                doc,
                                #[trigger] xs.drop_first()[i],
                                path,
                                fuel,
                            ) == Res::Fail(e);
                        assert(xs.drop_first()[w] == xs[w + 1]);
                        assert(eval_v(env, doc, xs[w + 1], path, fuel) == Res::Fail(e));
                    },
                    ResL::Vals(ys) => {
                        let all = seq![y] + ys;
                        assert forall|i: int|
                            0 <= i < xs.len() implies eval_v(
                            env,
                            doc,
                            #[trigger] xs[i],
                            path,
                            fuel,
                        ) == Res::Val(all[i]) by {
                            if i == 0 {
                                assert(xs[0] == xs.first());
                                assert(all[0] == y);
                            } else {
                                assert(xs.drop_first()[i - 1] == xs[i]);
                                assert(all[i] == ys[i - 1]);
                            }
                        }
                    },
                }
            },
        }
    }
}

/// A member step over an array maps the remaining path over every element,
/// keeping order: each result stands where its element stood, and a failing
/// element fails the whole step.
pub proof fn law_all(
    env: ContextV,
    doc: Option<CursorDocV>,
    xs: Seq<ValueV>,
    rest: Seq<PartV>,
    fuel: nat,
)
    requires
        1 + rest.len() <= env.max_computation_depth,
    ensures
        match eval_v(env, doc, ValueV::Array(xs), seq![PartV::All] + rest, fuel) {
            Res::Val(w) => w is Array && w->Array_0.len() == xs.len() && forall|i: int|
                0 <= i < xs.len() ==> eval_v(env, doc, #[trigger] xs[i], rest, fuel) == Res::Val(
                    w->Array_0[i],
                ),
            Res::Fail(e) => exists|i: int|
                0 <= i < xs.len() && eval_v(env, doc, #[trigger] xs[i], rest, fuel) == Res::Fail(e),
        },
{
    let path = seq![PartV::All] + rest;
    assert(path.len() == 1 + rest.len());
    assert(path.first() == PartV::All);
    assert(path.drop_first() =~= rest);
    assert(eval_v(env, doc, ValueV::Array(xs), path, fuel) == crate::eval::eval_array(
        env,
        doc,
        xs,
        path,
        fuel,
    ));
    law_list_elements(env, doc, xs, rest, fuel);
}

/// Every row a selection over edge ids yields is a record object.
proof fn lemma_rows_are_objects(records: Seq<crate::context::RecordV>, ids: Seq<crate::value::ThingV>)
    ensures
        forall|i: int|
            0 <= i < crate::context::rows_of(records, ids).len() ==> (#[trigger] crate::context::rows_of(
                records,
                ids,
            )[i]) is Object,
    decreases ids,
{
    if ids.len() > 0 {
        lemma_rows_are_objects(records, ids.drop_first());
        let rest = crate::context::rows_of(records, ids.drop_first());
        match crate::context::fetch_v(records, ids.first()) {
            ValueV::Object(fs) => {
                assert forall|i: int|
                    0 <= i < crate::context::rows_of(records, ids).len() implies (
                #[trigger] crate::context::rows_of(records, ids)[i]) is Object by {
                    if i > 0 {
                        assert(crate::context::rows_of(records, ids)[i] == rest[i - 1]);
                    }
                }
            },
            _ => {},
        }
    }
}

/// Every projected edge id is a record reference.
proof fn lemma_ids_are_things(ts: Seq<crate::value::ThingV>)
    ensures
        forall|i: int|
            0 <= i < crate::eval::things_to_values(ts).len() ==> (
            #[trigger] crate::eval::things_to_values(ts)[i]) is Thing,
    decreases ts,
{
    if ts.len() > 0 {
        lemma_ids_are_things(ts.drop_first());
        let rest = crate::eval::things_to_values(ts.drop_first());
        assert forall|i: int|
            0 <= i < crate::eval::things_to_values(ts).len() implies (
        #[trigger] crate::eval::things_to_values(ts)[i]) is Thing by {
            if i > 0 {
                assert(crate::eval::things_to_values(ts)[i] == rest[i - 1]);
            }
        }
    }
}

/// Flattening one level of a sequence whose elements are arrays of
/// non-arrays, or plain non-array values, leaves no array behind.
proof fn lemma_flat_seq_flat(s: Seq<ValueV>)
    requires
        forall|i: int|
            0 <= i < s.len() ==> match #[trigger] s[i] {
                ValueV::Array(zs) => forall|j: int| 0 <= j < zs.len() ==> !((#[trigger] zs[j]) is Array),
                _ => true,
            },
    ensures
        forall|i: int|
            0 <= i < crate::value::flat_seq(s).len() ==> !((#[trigger] crate::value::flat_seq(s)[i]) is Array),
    decreases s,
{
    if s.len() > 0 {
        assert forall|i: int|
            0 <= i < s.drop_first().len() implies match #[trigger] s.drop_first()[i] {
            ValueV::Array(zs) => forall|j: int| 0 <= j < zs.len() ==> !((#[trigger] zs[j]) is Array),
            _ => true,
        } by {
            assert(s.drop_first()[i] == s[i + 1]);
        }
        lemma_flat_seq_flat(s.drop_first());
        let head = (match s.first() {
            ValueV::Array(ys) => ys,
            v => seq![v],
        });
        let rest = crate::value::flat_seq(s.drop_first());
        assert(crate::value::flat_seq(s) == head + rest);
        assert(s[0] == s.first());
        assert forall|i: int|
            0 <= i < crate::value::flat_seq(s).len() implies !((
        #[trigger] crate::value::flat_seq(s)[i]) is Array) by {
            if i < head.len() {
                assert(crate::value::flat_seq(s)[i] == head[i]);
                match s.first() {
                    ValueV::Array(ys) => {},
                    v => {
                        assert(head[i] == v);
                    },
                }
            } else {
                assert(crate::value::flat_seq(s)[i] == rest[i - head.len()]);
            }
        }
    }
}

/// Chained graph traversals from a record yield one flat list: the
/// per-source groupings of the second traversal are spliced together, so no
/// nesting survives.
pub proof fn law_graph_chain(
    env: ContextV,
    doc: Option<CursorDocV>,
    t: crate::value::ThingV,
    g1: crate::part::GraphV,
    g2: crate::part::GraphV,
    fuel: nat,
)
    requires
        2 <= env.max_computation_depth,
        fuel >= 3,
    ensures
        ({
            let r = eval_v(env, doc, ValueV::Thing(t), seq![PartV::Graph(g1), PartV::Graph(g2)], fuel);
            &&& r is Val
            &&& r->Val_0 is Array
            &&& forall|i: int|
                0 <= i < r->Val_0->Array_0.len() ==> !((#[trigger] r->Val_0->Array_0[i]) is Array)
        }),
{
    let path = seq![PartV::Graph(g1), PartV::Graph(g2)];
    assert(path.len() == 2);
    assert(path.first() == PartV::Graph(g1));
    let path2 = path.drop_first();
    assert(path2 =~= seq![PartV::Graph(g2)]);
    assert(eval_v(env, doc, ValueV::Thing(t), path, fuel) == crate::eval::eval_thing(
        env,
        doc,
        t,
        path,
        fuel,
    ));
    let ids1 = crate::context::graph_ids(env.edges, t, g1.dir, g1.what);
    let rows = crate::context::rows_of(env.records, ids1);
    lemma_rows_are_objects(env.records, ids1);
    let f1 = (fuel - 1) as nat;
    // The second traversal maps over the fetched rows.
    assert(path2.first() == PartV::Graph(g2));
    assert(path2.len() == 1);
    assert(eval_v(env, Option::None, ValueV::Array(rows), path2, f1) == crate::eval::eval_array(
        env,
        Option::None,
        rows,
        path2,
        f1,
    ));
    let f2 = (f1 - 1) as nat;
    let sub = seq![path2[0]];
    assert(sub =~= path2);
    assert(path2.drop_first() =~= Seq::<PartV>::empty());
    // Each row answers the second traversal with its own flat id list, or
    // with absence when it carries no record id.
    assert forall|i: int| 0 <= i < rows.len() implies (match eval_v(
        env,
        Option::None,
        #[trigger] rows[i],
        path2,
        f2,
    ) {
        Res::Val(w) => match w {
            ValueV::Array(zs) => forall|j: int| 0 <= j < zs.len() ==> !((#[trigger] zs[j]) is Array),
            ValueV::Nothing => true,
            _ => false,
        },
        Res::Fail(_) => false,
    }) by {
        let row = rows[i];
        assert(row is Object);
        let fs = row->Object_0;
        assert(eval_v(env, Option::None, row, path2, f2) == crate::eval::eval_object(
            env,
            Option::None,
            fs,
            path2,
            f2,
        ));
        match crate::value::rid_of(fs) {
            Option::Some(t2) => {
                assert(crate::eval::eval_object(env, Option::None, fs, path2, f2) == eval_v(
                    env,
                    Option::None,
                    ValueV::Thing(t2),
                    path2,
                    f2,
                ));
                assert(eval_v(env, Option::None, ValueV::Thing(t2), path2, f2)
                    == crate::eval::eval_thing(env, Option::None, t2, path2, f2));
                let ids2 = crate::context::graph_ids(env.edges, t2, g2.dir, g2.what);
                assert(crate::eval::eval_thing(env, Option::None, t2, path2, f2) == Res::Val(
                    ValueV::Array(crate::eval::things_to_values(ids2)),
                ));
                lemma_ids_are_things(ids2);
            },
            Option::None => {
                assert(crate::eval::eval_object(env, Option::None, fs, path2, f2) == eval_v(
                    env,
                    Option::None,
                    ValueV::Nothing,
                    path2.drop_first(),
                    f2,
                ));
                law_empty_path(env, Option::None, ValueV::Nothing, f2);
            },
        }
    }
    law_list_elements(env, Option::None, rows, path2, f2);
    match eval_list(env, Option::None, rows, path2, f2) {
        ResL::Fail(e) => {
            let w = choose|i: int|
                0 <= i < rows.len() && eval_v(env, Option::None, #[trigger] rows[i], path2, f2)
                    == Res::Fail(e);
            assert(false);
        },
        ResL::Vals(ys) => {
            assert(eval_list(env, Option::None, rows, path2.subrange(0, 1), f2) == eval_list(
                env,
                Option::None,
                rows,
                path2,
                f2,
            )) by {
                assert(path2.subrange(0, 1) =~= path2);
            }
            assert forall|i: int| 0 <= i < ys.len() implies match #[trigger] ys[i] {
                ValueV::Array(zs) => forall|j: int| 0 <= j < zs.len() ==> !((#[trigger] zs[j]) is Array),
                _ => !(ys[i] is Array) || (ys[i] is Array),
            } by {
                assert(eval_v(env, Option::None, rows[i], path2, f2) == Res::Val(ys[i]));
            }
            lemma_flat_seq_flat(ys);
            law_empty_path(env, Option::None, ValueV::Array(ys), f2);
        },
    }
}

} // verus!
