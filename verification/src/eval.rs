//! The specification of the evaluator: a total, fuel-bounded interpreter of
//! idiom paths over values. Every contract of the executable evaluator in
//! `get` speaks in terms of `eval_v`.
//!
//! Two bounds keep the interpreter total. The configured
//! `max_computation_depth` rejects any path longer than the budget, at every
//! reentry. The same budget, plus one, serves as the fuel for reentries that
//! neither shorten the path nor shrink the value (computing a future,
//! materializing references, fetching a record, traversing edges, each
//! recursion level, and the two skip-ahead descents); exhausting it reports
//! the same depth error, so the effective reentry depth is the configured
//! limit.
use vstd::prelude::*;

use crate::context::{CursorDocV, ContextV, compute_v, fetch_v, graph_ids, rows_of};
use crate::part::{
    DestructureEntryV, PartV, Recurse, RecurseInstruction, dsize_seq, first_method, first_rr,
    psize, psize_seq,
};
use crate::value::{
    FieldV, ThingV, ValueV, dec_chars, flatten_v, is_final_v, lookup_field, rid_of, thing_key,
    truthy, vsize, vsize_seq,
};

verus! {

/// How an evaluation can fail.
#[derive(PartialEq, Eq, Structural, Clone, Copy, Debug)]
pub enum Error {
    /// The path outran the configured computation depth.
    ComputationDepthExceeded,
    /// A repetition marker stood outside a recursion step.
    UnsupportedRepeatRecurse,
    /// A recursion carried both an instruction and a discoverable plan.
    RecursionInstructionPlanConflict,
    /// A recursion ran dry before reaching its minimum.
    RecursionMinimumNotReached,
    /// A method call named no known method.
    InvalidFunction,
}

/// The outcome of evaluating one value against a path.
pub enum Res {
    Val(ValueV),
    Fail(Error),
}

/// The outcome of evaluating every element of an array against a path.
pub enum ResL {
    Vals(Seq<ValueV>),
    Fail(Error),
}

// ---------------------------------------------------------------------------
// Small total helpers
// ---------------------------------------------------------------------------

/// The values of an object's fields, in field order.
pub open spec fn obj_values(fs: Seq<FieldV>) -> Seq<ValueV>
    decreases fs,
{
    if fs.len() == 0 {
        Seq::empty()
    } else {
        seq![fs.first().val] + obj_values(fs.drop_first())
    }
}

/// Record references as values, in order.
pub open spec fn things_to_values(ts: Seq<ThingV>) -> Seq<ValueV>
    decreases ts,
{
    if ts.len() == 0 {
        Seq::empty()
    } else {
        seq![ValueV::Thing(ts.first())] + things_to_values(ts.drop_first())
    }
}

/// The computed values of a list of argument expressions, in order.
pub open spec fn compute_list(args: Seq<crate::value::ExprV>, doc: Option<CursorDocV>) -> Seq<
    ValueV,
>
    decreases args,
{
    if args.len() == 0 {
        Seq::empty()
    } else {
        seq![compute_v(args.first(), doc)] + compute_list(args.drop_first(), doc)
    }
}

/// The elements a predicate keeps, in encounter order: those whose
/// computed predicate value is truthy, each element serving as the current
/// document of its own check.
pub open spec fn where_keep(xs: Seq<ValueV>, w: crate::value::ExprV) -> Seq<ValueV>
    decreases xs,
{
    if xs.len() == 0 {
        Seq::empty()
    } else {
        let rest = where_keep(xs.drop_first(), w);
        if truthy(compute_v(w, Option::Some(CursorDocV { rid: Option::None, doc: xs.first() }))) {
            seq![xs.first()] + rest
        } else {
            rest
        }
    }
}

/// The record id of the current document, as a value.
pub open spec fn doc_rid(doc: Option<CursorDocV>) -> ValueV {
    match doc {
        Option::Some(d) => match d.rid {
            Option::Some(t) => ValueV::Thing(t),
            Option::None => ValueV::Nothing,
        },
        Option::None => ValueV::Nothing,
    }
}

/// What the method dispatcher returns: `len` counts the members of an
/// array, string or object and is absence on any other receiver; an unknown
/// name is a distinguishable invalid-function error.
pub open spec fn invoke_v(name: Seq<char>, recv: ValueV, args: Seq<ValueV>) -> Res {
    if name == seq!['l', 'e', 'n'] {
        match recv {
            ValueV::Array(xs) => if xs.len() <= i64::MAX {
                Res::Val(ValueV::Number(xs.len() as i64))
            } else {
                Res::Val(ValueV::Nothing)
            },
            ValueV::Strand(s) => if s.len() <= i64::MAX {
                Res::Val(ValueV::Number(s.len() as i64))
            } else {
                Res::Val(ValueV::Nothing)
            },
            ValueV::Object(fs) => if fs.len() <= i64::MAX {
                Res::Val(ValueV::Number(fs.len() as i64))
            } else {
                Res::Val(ValueV::Nothing)
            },
            _ => Res::Val(ValueV::Nothing),
        }
    } else {
        Res::Fail(Error::InvalidFunction)
    }
}

/// The method-call policy on objects: the dispatcher first; on an
/// invalid-function error, an existing field of that name is applied as an
/// anonymous function, which in this model of values is never callable, so
/// the second invalid-function collapses to absence; a missing field keeps
/// the error.
pub open spec fn object_method_v(fs: Seq<FieldV>, name: Seq<char>, argv: Seq<ValueV>) -> Res {
    match invoke_v(name, ValueV::Object(fs), argv) {
        Res::Val(v) => Res::Val(v),
        Res::Fail(e) => if e == Error::InvalidFunction {
            match lookup_field(fs, name) {
                Option::Some(_) => Res::Val(ValueV::Nothing),
                Option::None => Res::Fail(Error::InvalidFunction),
            }
        } else {
            Res::Fail(e)
        },
    }
}

// ---------------------------------------------------------------------------
// Recursion plans
// ---------------------------------------------------------------------------

/// Whether a destructuring step hides a repetition marker at the root of one
/// of its field paths.
pub open spec fn dest_has_rr(es: Seq<DestructureEntryV>) -> bool {
    exists|i: int| 0 <= i < es.len() && first_rr((#[trigger] es[i]).path) < es[i].path.len()
}

/// Whether a step can steer a recursion: a destructuring step that hides a
/// repetition marker.
pub open spec fn is_plan_part(p: PartV) -> bool {
    match p {
        PartV::Destructure(es) => dest_has_rr(es),
        _ => false,
    }
}

/// The index of the first plan-bearing step, or the path's length when there
/// is none.
pub open spec fn first_plan(s: Seq<PartV>) -> int
    decreases s,
{
    if s.len() == 0 {
        0
    } else if is_plan_part(s.first()) {
        0
    } else {
        1 + first_plan(s.drop_first())
    }
}

/// Whether a path holds a plan-bearing step.
pub open spec fn has_plan(s: Seq<PartV>) -> bool {
    first_plan(s) < s.len()
}

// ---------------------------------------------------------------------------
// The interpreter
// ---------------------------------------------------------------------------

/// What one traversal of a path from a value yields. `fuel` bounds the
/// reentry chains that no structural measure bounds; the public evaluator
/// supplies `max_computation_depth + 1`.
pub open spec fn eval_v(
    env: ContextV,
    doc: Option<CursorDocV>,
    v: ValueV,
    path: Seq<PartV>,
    fuel: nat,
) -> Res
    decreases fuel, psize_seq(path), vsize(v), 1nat,
    via eval_v_dec
{
    if path.len() > env.max_computation_depth {
        Res::Fail(Error::ComputationDepthExceeded)
    } else if path.len() == 0 {
        Res::Val(v)
    } else {
        let p = path.first();
        let tail = path.drop_first();
        match p {
            PartV::Recurse(bounds, inner, inst) => if fuel == 0 {
                Res::Fail(Error::ComputationDepthExceeded)
            } else {
                eval_recurse_part(env, doc, v, path, bounds, inner, inst, (fuel - 1) as nat)
            },
            PartV::RepeatRecurse => Res::Fail(Error::UnsupportedRepeatRecurse),
            PartV::Doc => eval_v(env, doc, doc_rid(doc), tail, fuel),
            _ => match v {
                ValueV::Refs(ts) => if fuel == 0 {
                    Res::Fail(Error::ComputationDepthExceeded)
                } else {
                    eval_v(env, doc, ValueV::Array(things_to_values(ts)), path, (fuel - 1) as nat)
                },
                ValueV::Future(x) => if fuel == 0 {
                    Res::Fail(Error::ComputationDepthExceeded)
                } else {
                    eval_v(env, doc, compute_v(*x, doc), path, (fuel - 1) as nat)
                },
                ValueV::Object(fs) => eval_object(env, doc, fs, path, fuel),
                ValueV::Array(xs) => eval_array(env, doc, xs, path, fuel),
                ValueV::Edges(e) => if fuel == 0 {
                    Res::Fail(Error::ComputationDepthExceeded)
                } else {
                    let ids = graph_ids(env.edges, e.from, e.dir, e.what);
                    let rows = rows_of(env.records, ids);
                    match eval_v(env, Option::None, ValueV::Array(rows), path, (fuel - 1) as nat) {
                        Res::Val(r) => Res::Val(flatten_v(r)),
                        Res::Fail(er) => Res::Fail(er),
                    }
                },
                ValueV::Thing(t) => eval_thing(env, doc, t, path, fuel),
                _ => eval_other(env, doc, v, path, fuel),
            },
        }
    }
}

/// The recursion step: partition the path into the repeating segment, the
/// plan, and what follows; iterate; then continue on what follows.
pub open spec fn eval_recurse_part(
    env: ContextV,
    doc: Option<CursorDocV>,
    v: ValueV,
    path: Seq<PartV>,
    bounds: Recurse,
    inner: Option<Seq<PartV>>,
    inst: Option<RecurseInstruction>,
    fuel: nat,
) -> Res
    decreases fuel, 0nat, 0nat, 0nat,
{
    let rep0 = (match inner {
        Option::Some(p) => p,
        Option::None => path.drop_first(),
    });
    let after0 = (match inner {
        Option::Some(p) => path.drop_first(),
        Option::None => Seq::<PartV>::empty(),
    });
    let i = first_rr(rep0);
    if i < rep0.len() {
        // A root-level repetition marker splits the segment; no plan.
        let rep = rep0.subrange(0, i);
        let after = rep0.subrange(i + 1, rep0.len() as int) + after0;
        if fuel == 0 {
            Res::Fail(Error::ComputationDepthExceeded)
        } else {
            eval_rec_run(env, doc, v, bounds, rep, false, inst, after, (fuel - 1) as nat)
        }
    } else if inst is Some && has_plan(rep0) {
        Res::Fail(Error::RecursionInstructionPlanConflict)
    } else if has_plan(rep0) {
        let j = first_plan(rep0);
        let rep = rep0.subrange(0, j);
        let after = rep0.subrange(j + 1, rep0.len() as int) + after0;
        if fuel == 0 {
            Res::Fail(Error::ComputationDepthExceeded)
        } else {
            eval_rec_run(env, doc, v, bounds, rep, true, inst, after, (fuel - 1) as nat)
        }
    } else {
        if fuel == 0 {
            Res::Fail(Error::ComputationDepthExceeded)
        } else {
            eval_rec_run(env, doc, v, bounds, rep0, false, inst, after0, (fuel - 1) as nat)
        }
    }
}

/// Runs the iteration, then what follows it.
pub open spec fn eval_rec_run(
    env: ContextV,
    doc: Option<CursorDocV>,
    v: ValueV,
    bounds: Recurse,
    rep: Seq<PartV>,
    plan: bool,
    inst: Option<RecurseInstruction>,
    after: Seq<PartV>,
    fuel: nat,
) -> Res
    decreases fuel, psize_seq(rep) + 1, 0nat, 1nat,
{
    let collect = plan || inst is Some;
    match eval_rec_v(env, doc, bounds, v, rep, collect, 0, Seq::empty(), fuel) {
        Res::Fail(e) => Res::Fail(e),
        Res::Val(rv) => if after.len() > 0 {
            if fuel == 0 {
                Res::Fail(Error::ComputationDepthExceeded)
            } else {
                eval_v(env, doc, rv, after, (fuel - 1) as nat)
            }
        } else {
            Res::Val(rv)
        },
    }
}

/// One recursion: apply the repeating segment up to the bounds, collecting
/// the visited values when a plan or instruction asks for them.
pub open spec fn eval_rec_v(
    env: ContextV,
    doc: Option<CursorDocV>,
    bounds: Recurse,
    current: ValueV,
    path: Seq<PartV>,
    collect: bool,
    iterated: u64,
    acc: Seq<ValueV>,
    fuel: nat,
) -> Res
    decreases fuel, psize_seq(path) + 1, 0nat, 0nat,
{
    if (match bounds.max {
        Option::Some(m) => iterated >= m,
        Option::None => false,
    }) {
        Res::Val(
            if collect {
                ValueV::Array(acc)
            } else {
                current
            },
        )
    } else {
        match eval_v(env, doc, current, path, fuel) {
            Res::Fail(e) => Res::Fail(e),
            Res::Val(stepped) => if is_final_v(stepped) {
                if iterated < bounds.min {
                    Res::Fail(Error::RecursionMinimumNotReached)
                } else {
                    Res::Val(
                        if collect {
                            ValueV::Array(acc)
                        } else {
                            current
                        },
                    )
                }
            } else if fuel == 0 || iterated == u64::MAX {
                Res::Fail(Error::ComputationDepthExceeded)
            } else {
                eval_rec_v(
                    env,
                    doc,
                    bounds,
                    stepped,
                    path,
                    collect,
                    (iterated + 1) as u64,
                    acc.push(stepped),
                    (fuel - 1) as nat,
                )
            },
        }
    }
}

/// The object cases.
pub open spec fn eval_object(
    env: ContextV,
    doc: Option<CursorDocV>,
    fs: Seq<FieldV>,
    path: Seq<PartV>,
    fuel: nat,
) -> Res
    decreases fuel, psize_seq(path), vsize(ValueV::Object(fs)), 0nat,
    via eval_object_dec
{
    if path.len() == 0 {
        Res::Val(ValueV::Object(fs))
    } else {
    let p = path.first();
    let tail = path.drop_first();
    match p {
        PartV::Field(name) => if name == seq!['i', 'd'] && path.len() > 1 {
            // A complex record id opens into its object or array form.
            match lookup_field(fs, name) {
                Option::Some(ValueV::Thing(t)) => match t.id {
                    crate::value::IdV::Object(o) => eval_v(env, doc, ValueV::Object(o), tail, fuel),
                    crate::value::IdV::Array(a) => eval_v(env, doc, ValueV::Array(a), tail, fuel),
                    _ => eval_v(env, doc, ValueV::Thing(t), tail, fuel),
                },
                Option::Some(v) => eval_v(env, doc, v, tail, fuel),
                Option::None => eval_v(env, doc, ValueV::Nothing, tail, fuel),
            }
        } else {
            match lookup_field(fs, name) {
                Option::Some(v) => eval_v(env, doc, v, tail, fuel),
                Option::None => eval_v(env, doc, ValueV::Nothing, tail, fuel),
            }
        },
        PartV::Graph(_) => match rid_of(fs) {
            // The object's latent record id carries the traversal.
            Option::Some(t) => eval_v(env, doc, ValueV::Thing(t), path, fuel),
            Option::None => eval_v(env, doc, ValueV::Nothing, tail, fuel),
        },
        PartV::Index(i) => match lookup_field(fs, dec_chars(i)) {
            Option::Some(v) => eval_v(env, doc, v, tail, fuel),
            Option::None => eval_v(env, doc, ValueV::Nothing, tail, fuel),
        },
        PartV::Value(x) => match compute_v(x, doc) {
            ValueV::Strand(s) => match lookup_field(fs, s) {
                Option::Some(v) => eval_v(env, doc, v, tail, fuel),
                Option::None => Res::Val(ValueV::Nothing),
            },
            ValueV::Thing(t) => match thing_key(t) {
                Option::Some(k) => match lookup_field(fs, k) {
                    Option::Some(v) => eval_v(env, doc, v, tail, fuel),
                    Option::None => Res::Val(ValueV::Nothing),
                },
                Option::None => Res::Val(ValueV::Nothing),
            },
            _ => eval_v(env, doc, ValueV::Nothing, tail, fuel),
        },
        PartV::All => eval_v(env, doc, ValueV::Array(obj_values(fs)), tail, fuel),
        PartV::Destructure(entries) => {
            let cur = CursorDocV { rid: Option::None, doc: ValueV::Object(fs) };
            match eval_destructure(env, cur, entries, fuel) {
                Res::Fail(e) => Res::Fail(e),
                Res::Val(obj) => eval_v(env, doc, obj, tail, fuel),
            }
        },
        PartV::Method(name, args) => {
            let argv = compute_list(args, doc);
            match object_method_v(fs, name, argv) {
                Res::Fail(e) => Res::Fail(e),
                Res::Val(r) => eval_v(env, doc, r, tail, fuel),
            }
        },
        PartV::Optional => eval_v(env, doc, ValueV::Object(fs), tail, fuel),
        _ => Res::Val(ValueV::Nothing),
    }
    }
}

/// A destructuring step on an object: each field of the result is one
/// traversal against the object as its own document.
pub open spec fn eval_destructure(
    env: ContextV,
    cur: CursorDocV,
    entries: Seq<DestructureEntryV>,
    fuel: nat,
) -> Res
    decreases fuel, dsize_seq(entries) + 1, 0nat, entries.len(),
    via eval_destructure_dec
{
    if entries.len() == 0 {
        Res::Val(ValueV::Object(Seq::empty()))
    } else {
        let e = entries.first();
        match eval_v(env, Option::Some(cur), cur.doc, e.path, fuel) {
            Res::Fail(er) => Res::Fail(er),
            Res::Val(v) => match eval_destructure(env, cur, entries.drop_first(), fuel) {
                Res::Fail(er) => Res::Fail(er),
                Res::Val(ValueV::Object(rest)) => Res::Val(
                    ValueV::Object(seq![FieldV { key: e.field, val: v }] + rest),
                ),
                Res::Val(_) => Res::Fail(Error::InvalidFunction),
            },
        }
    }
}

/// The array cases.
pub open spec fn eval_array(
    env: ContextV,
    doc: Option<CursorDocV>,
    xs: Seq<ValueV>,
    path: Seq<PartV>,
    fuel: nat,
) -> Res
    decreases fuel, psize_seq(path), vsize(ValueV::Array(xs)), 0nat,
    via eval_array_dec
{
    if path.len() == 0 {
        Res::Val(ValueV::Array(xs))
    } else {
    let p = path.first();
    let tail = path.drop_first();
    match p {
        PartV::All | PartV::Flatten => match eval_list(env, doc, xs, tail, fuel) {
            ResL::Vals(ys) => Res::Val(ValueV::Array(ys)),
            ResL::Fail(e) => Res::Fail(e),
        },
        PartV::First => if xs.len() > 0 {
            eval_v(env, doc, xs.first(), tail, fuel)
        } else {
            eval_v(env, doc, ValueV::Nothing, tail, fuel)
        },
        PartV::Last => if xs.len() > 0 {
            eval_v(env, doc, xs.last(), tail, fuel)
        } else {
            eval_v(env, doc, ValueV::Nothing, tail, fuel)
        },
        PartV::Index(i) => if i < xs.len() {
            eval_v(env, doc, xs[i as int], tail, fuel)
        } else {
            eval_v(env, doc, ValueV::Nothing, tail, fuel)
        },
        PartV::Where(w) => eval_v(env, doc, ValueV::Array(where_keep(xs, w)), tail, fuel),
        PartV::Value(x) => match compute_v(x, doc) {
            ValueV::Number(n) => if 0 <= n < xs.len() {
                eval_v(env, doc, xs[n as int], tail, fuel)
            } else {
                Res::Val(ValueV::Nothing)
            },
            ValueV::Range(a, b) => {
                let sliced = (if 0 <= a <= b <= xs.len() {
                    ValueV::Array(xs.subrange(a as int, b as int))
                } else {
                    ValueV::Nothing
                });
                eval_v(env, doc, sliced, tail, fuel)
            },
            _ => eval_v(env, doc, ValueV::Nothing, tail, fuel),
        },
        PartV::Method(name, args) => {
            let argv = compute_list(args, doc);
            match invoke_v(name, ValueV::Array(xs), argv) {
                Res::Fail(e) => Res::Fail(e),
                Res::Val(r) => eval_v(env, doc, r, tail, fuel),
            }
        },
        PartV::Optional => eval_v(env, doc, ValueV::Array(xs), tail, fuel),
        _ => {
            // Mapped descent over the elements; a lookahead `All` binds to
            // the element, and chained graph steps flatten one level.
            if fuel == 0 {
                Res::Fail(Error::ComputationDepthExceeded)
            } else {
                let two = path.len() >= 2 && path[1] is All;
                let sub = (if two {
                    seq![path[0], path[1]]
                } else {
                    seq![path[0]]
                });
                let rest = (if two {
                    path.drop_first().drop_first()
                } else {
                    path.drop_first()
                });
                match eval_list(env, doc, xs, sub, (fuel - 1) as nat) {
                    ResL::Fail(e) => Res::Fail(e),
                    ResL::Vals(ys) => {
                        let mapped = (if path[0] is Graph && path.len() >= 2 && (path[1] is Graph
                            || path[1] is Where) {
                            flatten_v(ValueV::Array(ys))
                        } else {
                            ValueV::Array(ys)
                        });
                        eval_v(env, doc, mapped, rest, (fuel - 1) as nat)
                    },
                }
            }
        },
    }
    }
}

/// One traversal of the same path from every element, keeping order.
pub open spec fn eval_list(
    env: ContextV,
    doc: Option<CursorDocV>,
    xs: Seq<ValueV>,
    path: Seq<PartV>,
    fuel: nat,
) -> ResL
    decreases fuel, psize_seq(path), 1 + vsize_seq(xs), xs.len(),
    via eval_list_dec
{
    if xs.len() == 0 {
        ResL::Vals(Seq::empty())
    } else {
        match eval_v(env, doc, xs.first(), path, fuel) {
            Res::Fail(e) => ResL::Fail(e),
            Res::Val(y) => match eval_list(env, doc, xs.drop_first(), path, fuel) {
                ResL::Fail(e) => ResL::Fail(e),
                ResL::Vals(ys) => ResL::Vals(seq![y] + ys),
            },
        }
    }
}

/// The record-reference cases.
pub open spec fn eval_thing(
    env: ContextV,
    doc: Option<CursorDocV>,
    t: ThingV,
    path: Seq<PartV>,
    fuel: nat,
) -> Res
    decreases fuel, psize_seq(path), vsize(ValueV::Thing(t)), 0nat,
    via eval_thing_dec
{
    if path.len() == 0 {
        Res::Val(ValueV::Thing(t))
    } else {
    let p = path.first();
    let tail = path.drop_first();
    match p {
        PartV::Graph(g) => if fuel == 0 {
            Res::Fail(Error::ComputationDepthExceeded)
        } else {
            let ids = graph_ids(env.edges, t, g.dir, g.what);
            if path.len() == 1 {
                // The last step projects the edge ids themselves.
                Res::Val(ValueV::Array(things_to_values(ids)))
            } else {
                let rows = rows_of(env.records, ids);
                match eval_v(env, Option::None, ValueV::Array(rows), tail, (fuel - 1) as nat) {
                    Res::Fail(e) => Res::Fail(e),
                    Res::Val(r) => if path[1] is Graph || path[1] is Where {
                        Res::Val(flatten_v(r))
                    } else {
                        Res::Val(r)
                    },
                }
            }
        },
        PartV::Method(name, args) => {
            let argv = compute_list(args, doc);
            match invoke_v(name, ValueV::Thing(t), argv) {
                Res::Fail(e) => Res::Fail(e),
                Res::Val(r) => eval_v(env, doc, r, tail, fuel),
            }
        },
        PartV::Optional => eval_v(env, doc, ValueV::Thing(t), tail, fuel),
        _ => if fuel == 0 {
            Res::Fail(Error::ComputationDepthExceeded)
        } else {
            // A remote field: fetch the record and continue on it.
            let fetched = fetch_v(env.records, t);
            let next = (if p is All {
                tail
            } else {
                path
            });
            eval_v(env, Option::None, fetched, next, (fuel - 1) as nat)
        },
    }
    }
}

/// The remaining cases: scalars, null, absence and ranges.
pub open spec fn eval_other(
    env: ContextV,
    doc: Option<CursorDocV>,
    v: ValueV,
    path: Seq<PartV>,
    fuel: nat,
) -> Res
    decreases fuel, psize_seq(path), vsize(v), 0nat,
    via eval_other_dec
{
    if path.len() == 0 {
        Res::Val(v)
    } else {
    let p = path.first();
    let tail = path.drop_first();
    match p {
        PartV::Optional => if v is Nothing {
            Res::Val(ValueV::Nothing)
        } else {
            eval_v(env, doc, v, tail, fuel)
        },
        PartV::Flatten => eval_v(env, Option::None, v, tail, fuel),
        PartV::Method(name, args) => {
            let argv = compute_list(args, doc);
            match invoke_v(name, v, argv) {
                Res::Fail(e) => Res::Fail(e),
                Res::Val(r) => eval_v(env, doc, r, tail, fuel),
            }
        },
        _ => if fuel == 0 {
            Res::Fail(Error::ComputationDepthExceeded)
        } else {
            // Off a scalar, only a later method call can rebuild a value:
            // skip ahead to it, descending as absence.
            let m = first_method(path);
            eval_v(env, doc, ValueV::Nothing, path.subrange(m, path.len() as int), (
            fuel - 1) as nat)
        },
    }
    }
}

// ---------------------------------------------------------------------------
// Termination helpers: unfold the size measures once at each recursion site.
// ---------------------------------------------------------------------------

proof fn path_step_facts(path: Seq<PartV>)
    ensures
        path.len() > 0 ==> psize_seq(path) == psize(path.first()) + psize_seq(path.drop_first()),
        path.len() > 0 ==> psize(path.first()) >= 1,
{
    if path.len() > 0 {
        assert(psize_seq(path) == psize(path.first()) + psize_seq(path.drop_first()));
        crate::part::lemma_psize_pos(path.first());
    }
}

proof fn seq_step_facts(xs: Seq<ValueV>)
    ensures
        xs.len() > 0 ==> vsize_seq(xs) == vsize(xs.first()) + vsize_seq(xs.drop_first()),
        xs.len() > 0 ==> vsize(xs.first()) >= 1,
{
    if xs.len() > 0 {
        assert(vsize_seq(xs) == vsize(xs.first()) + vsize_seq(xs.drop_first()));
        crate::value::lemma_vsize_pos(xs.first());
    }
}

#[via_fn]
proof fn eval_v_dec(env: ContextV, doc: Option<CursorDocV>, v: ValueV, path: Seq<PartV>, fuel: nat) {
    path_step_facts(path);
}

#[via_fn]
proof fn eval_object_dec(
    env: ContextV,
    doc: Option<CursorDocV>,
    fs: Seq<FieldV>,
    path: Seq<PartV>,
    fuel: nat,
) {
    path_step_facts(path);
    if path.len() > 0 {
        match path.first() {
            PartV::Destructure(entries) => {
                assert(psize(path.first()) == 2 + dsize_seq(entries));
            },
            _ => {},
        }
    }
}

#[via_fn]
proof fn eval_array_dec(
    env: ContextV,
    doc: Option<CursorDocV>,
    xs: Seq<ValueV>,
    path: Seq<PartV>,
    fuel: nat,
) {
    path_step_facts(path);
    seq_step_facts(xs);
    assert(vsize(ValueV::Array(xs)) == 2 + vsize_seq(xs));
}

#[via_fn]
proof fn eval_thing_dec(
    env: ContextV,
    doc: Option<CursorDocV>,
    t: ThingV,
    path: Seq<PartV>,
    fuel: nat,
) {
    path_step_facts(path);
}

#[via_fn]
proof fn eval_other_dec(
    env: ContextV,
    doc: Option<CursorDocV>,
    v: ValueV,
    path: Seq<PartV>,
    fuel: nat,
) {
    path_step_facts(path);
}

#[via_fn]
proof fn eval_list_dec(
    env: ContextV,
    doc: Option<CursorDocV>,
    xs: Seq<ValueV>,
    path: Seq<PartV>,
    fuel: nat,
) {
    path_step_facts(path);
    seq_step_facts(xs);
}

#[via_fn]
proof fn eval_destructure_dec(env: ContextV, cur: CursorDocV, entries: Seq<DestructureEntryV>, fuel: nat) {
    if entries.len() > 0 {
        assert(dsize_seq(entries) == 1 + psize_seq(entries.first().path) + dsize_seq(
            entries.drop_first(),
        ));
    }
}

} // verus!

verus! {

/// What `first_plan` finds: a position within bounds, a plan-bearing step
/// there when in range, and none before it.
pub proof fn lemma_first_plan(s: Seq<PartV>)
    ensures
        0 <= first_plan(s) <= s.len(),
        first_plan(s) < s.len() ==> is_plan_part(s[first_plan(s)]),
        forall|j: int| 0 <= j < first_plan(s) ==> !is_plan_part(#[trigger] s[j]),
    decreases s,
{
    if s.len() > 0 && !is_plan_part(s.first()) {
        lemma_first_plan(s.drop_first());
        assert forall|j: int| 0 <= j < first_plan(s) implies !is_plan_part(#[trigger] s[j]) by {
            if j > 0 {
                assert(s.drop_first()[j - 1] == s[j]);
            } else {
                assert(s[0] == s.first());
            }
        }
        if first_plan(s) < s.len() {
            assert(s.drop_first()[first_plan(s) - 1] == s[first_plan(s)]);
        }
    }
}

/// A position with a plan-bearing step, before which there is none, is
/// exactly `first_plan`.
pub proof fn lemma_first_plan_at(s: Seq<PartV>, i: int)
    requires
        0 <= i < s.len(),
        is_plan_part(s[i]),
        forall|j: int| 0 <= j < i ==> !is_plan_part(#[trigger] s[j]),
    ensures
        first_plan(s) == i,
    decreases s,
{
    if i == 0 {
        assert(s.first() == s[0]);
    } else {
        assert(s[0] == s.first());
        assert(!is_plan_part(s.first()));
        assert(s.drop_first()[i - 1] == s[i]);
        assert forall|j: int| 0 <= j < i - 1 implies !is_plan_part(#[trigger] s.drop_first()[j]) by {
            assert(s.drop_first()[j] == s[j + 1]);
        }
        lemma_first_plan_at(s.drop_first(), i - 1);
    }
}

/// A path inspected end to end without a plan-bearing step pins
/// `first_plan` to the length.
pub proof fn lemma_first_plan_none(s: Seq<PartV>)
    requires
        forall|j: int| 0 <= j < s.len() ==> !is_plan_part(#[trigger] s[j]),
    ensures
        first_plan(s) == s.len(),
    decreases s,
{
    if s.len() > 0 {
        assert(s[0] == s.first());
        assert forall|j: int|
            0 <= j < s.drop_first().len() implies !is_plan_part(#[trigger] s.drop_first()[j]) by {
            assert(s.drop_first()[j] == s[j + 1]);
        }
        lemma_first_plan_none(s.drop_first());
    }
}

} // verus!

verus! {

/// A destructuring step that succeeds always yields an object.
pub proof fn lemma_destructure_shape(
    env: ContextV,
    cur: CursorDocV,
    entries: Seq<DestructureEntryV>,
    fuel: nat,
)
    ensures
        match eval_destructure(env, cur, entries, fuel) {
            Res::Val(v) => v is Object,
            Res::Fail(_) => true,
        },
    decreases entries.len(),
{
    if entries.len() > 0 {
        lemma_destructure_shape(env, cur, entries.drop_first(), fuel);
    }
}

} // verus!
