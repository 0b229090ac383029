//! The executable evaluator: `Value::get` resolves an idiom path against a
//! value. Every function here carries a contract stating that it returns
//! exactly what the interpreter in `eval` defines, with the fuel set to the
//! configured computation depth plus one.
use vstd::prelude::*;

use crate::context::{
    Context, CursorDoc, CursorDocV, compute, doc_view_of,
};
use crate::context::Options;
use crate::eval::{
    Error, Res, ResL, compute_list, dest_has_rr, doc_rid, eval_list, eval_v, first_plan,
    invoke_v, is_plan_part, lemma_first_plan_at, lemma_first_plan_none, obj_values,
    things_to_values, where_keep,
};
use crate::part::{
    Part, PartV, first_rr, lemma_part_view_variant, lemma_view_exprs, lemma_view_parts,
    lemma_view_parts_subrange, view_exprs, view_parts,
};
use crate::value::{
    Entry, Expr, Thing, Value, ValueV, lemma_value_view_variant, lemma_view_entries,
    lemma_view_things, lemma_view_values, view_entries, view_things, view_values,
};

verus! {

/// The view of an evaluation outcome.
pub open spec fn res_view(r: Result<Value, Error>) -> Res {
    match r {
        Result::Ok(v) => Res::Val(v@),
        Result::Err(e) => Res::Fail(e),
    }
}

/// Record references as an array of values, as `things_to_values` states it.
fn refs_to_values(ts: &Vec<Thing>) -> (r: Vec<Value>)
    ensures
        view_values(r@) == things_to_values(view_things(ts@)),
{
    proof {
        lemma_view_things(ts@);
        lemma_view_values(Seq::<Value>::empty());
    }
    let ghost tv = view_things(ts@);
    let mut out: Vec<Value> = Vec::new();
    let n = ts.len();
    proof {
        assert(tv.skip(0) =~= tv);
        assert(view_values(out@) + things_to_values(tv.skip(0)) =~= things_to_values(tv));
    }
    for i in 0..n
        invariant
            n == ts@.len(),
            tv == view_things(ts@),
            tv.len() == n,
            view_values(out@) + things_to_values(tv.skip(i as int)) == things_to_values(tv),
    {
        proof {
            lemma_view_things(ts@);
            assert(tv[i as int] == ts@[i as int]@);
            assert(tv.skip(i as int).first() == tv[i as int]);
            assert(tv.skip(i as int).drop_first() =~= tv.skip(i + 1));
        }
        let d = Value::Thing(ts[i].duplicate());
        proof {
            lemma_view_values(out@.push(d));
            assert(view_values(out@.push(d)) == view_values(out@.push(d).drop_last()).push(d@));
            assert(out@.push(d).drop_last() =~= out@);
            assert(view_values(out@) + (seq![ValueV::Thing(tv[i as int])] + things_to_values(
                tv.skip(i + 1),
            )) =~= view_values(out@.push(d)) + things_to_values(tv.skip(i + 1)));
        }
        out.push(d);
    }
    proof {
        assert(tv.skip(n as int).len() == 0);
        assert(view_values(out@) + things_to_values(tv.skip(n as int)) =~= view_values(out@));
    }
    out
}

/// An object's field values as an array, as `obj_values` states it.
fn object_values(es: &Vec<Entry>) -> (r: Vec<Value>)
    ensures
        view_values(r@) == obj_values(view_entries(es@)),
{
    proof {
        lemma_view_entries(es@);
        lemma_view_values(Seq::<Value>::empty());
    }
    let ghost fs = view_entries(es@);
    let mut out: Vec<Value> = Vec::new();
    let n = es.len();
    proof {
        assert(fs.skip(0) =~= fs);
        assert(view_values(out@) + obj_values(fs.skip(0)) =~= obj_values(fs));
    }
    for i in 0..n
        invariant
            n == es@.len(),
            fs == view_entries(es@),
            fs.len() == n,
            view_values(out@) + obj_values(fs.skip(i as int)) == obj_values(fs),
    {
        proof {
            lemma_view_entries(es@);
            assert(fs[i as int] == crate::value::FieldV {
                key: es@[i as int].key@,
                val: es@[i as int].val@,
            });
            assert(fs.skip(i as int).first() == fs[i as int]);
            assert(fs.skip(i as int).drop_first() =~= fs.skip(i + 1));
        }
        let d = es[i].val.duplicate();
        proof {
            lemma_view_values(out@.push(d));
            assert(view_values(out@.push(d)) == view_values(out@.push(d).drop_last()).push(d@));
            assert(out@.push(d).drop_last() =~= out@);
            assert(view_values(out@) + (seq![fs[i as int].val] + obj_values(fs.skip(i + 1)))
                =~= view_values(out@.push(d)) + obj_values(fs.skip(i + 1)));
        }
        out.push(d);
    }
    proof {
        assert(fs.skip(n as int).len() == 0);
        assert(view_values(out@) + obj_values(fs.skip(n as int)) =~= view_values(out@));
    }
    out
}

/// Computed method arguments, as `compute_list` states them.
fn compute_args(args: &Vec<Expr>, opt: &Options, doc: Option<&CursorDoc>) -> (r: Vec<Value>)
    ensures
        view_values(r@) == compute_list(view_exprs(args@), doc_view_of(doc)),
{
    proof {
        lemma_view_exprs(args@);
        lemma_view_values(Seq::<Value>::empty());
    }
    let ghost av = view_exprs(args@);
    let ghost dv = doc_view_of(doc);
    let mut out: Vec<Value> = Vec::new();
    let n = args.len();
    proof {
        assert(av.skip(0) =~= av);
        assert(view_values(out@) + compute_list(av.skip(0), dv) =~= compute_list(av, dv));
    }
    for i in 0..n
        invariant
            n == args@.len(),
            av == view_exprs(args@),
            dv == doc_view_of(doc),
            av.len() == n,
            view_values(out@) + compute_list(av.skip(i as int), dv) == compute_list(av, dv),
    {
        proof {
            lemma_view_exprs(args@);
            assert(av[i as int] == args@[i as int]@);
            assert(av.skip(i as int).first() == av[i as int]);
            assert(av.skip(i as int).drop_first() =~= av.skip(i + 1));
        }
        let d = compute(&args[i], opt, doc);
        proof {
            lemma_view_values(out@.push(d));
            assert(view_values(out@.push(d)) == view_values(out@.push(d).drop_last()).push(d@));
            assert(out@.push(d).drop_last() =~= out@);
            assert(view_values(out@) + (seq![crate::context::compute_v(av[i as int], dv)]
                + compute_list(av.skip(i + 1), dv)) =~= view_values(out@.push(d)) + compute_list(
                av.skip(i + 1),
                dv,
            ));
        }
        out.push(d);
    }
    proof {
        assert(av.skip(n as int).len() == 0);
        assert(view_values(out@) + compute_list(av.skip(n as int), dv) =~= view_values(out@));
    }
    out
}

/// The array elements a predicate keeps, as `where_keep` states them.
fn where_filter(xs: &Vec<Value>, w: &Expr, opt: &Options) -> (r: Vec<Value>)
    ensures
        view_values(r@) == where_keep(view_values(xs@), w@),
{
    proof {
        lemma_view_values(xs@);
        lemma_view_values(Seq::<Value>::empty());
    }
    let ghost sv = view_values(xs@);
    let mut out: Vec<Value> = Vec::new();
    let n = xs.len();
    proof {
        assert(sv.skip(0) =~= sv);
        assert(view_values(out@) + where_keep(sv.skip(0), w@) =~= where_keep(sv, w@));
    }
    for i in 0..n
        invariant
            n == xs@.len(),
            sv == view_values(xs@),
            sv.len() == n,
            view_values(out@) + where_keep(sv.skip(i as int), w@) == where_keep(sv, w@),
    {
        proof {
            lemma_view_values(xs@);
            assert(sv[i as int] == xs@[i as int]@);
            assert(sv.skip(i as int).first() == sv[i as int]);
            assert(sv.skip(i as int).drop_first() =~= sv.skip(i + 1));
        }
        let cur = CursorDoc { rid: Option::None, doc: xs[i].duplicate() };
        let c = compute(w, opt, Option::Some(&cur));
        if c.is_truthy() {
            let d = xs[i].duplicate();
            proof {
                lemma_view_values(out@.push(d));
                assert(view_values(out@.push(d)) == view_values(out@.push(d).drop_last()).push(d@));
                assert(out@.push(d).drop_last() =~= out@);
                assert(view_values(out@) + (seq![sv[i as int]] + where_keep(sv.skip(i + 1), w@))
                    =~= view_values(out@.push(d)) + where_keep(sv.skip(i + 1), w@));
            }
            out.push(d);
        }
    }
    proof {
        assert(sv.skip(n as int).len() == 0);
        assert(view_values(out@) + where_keep(sv.skip(n as int), w@) =~= view_values(out@));
    }
    out
}

/// Copies of the elements in a half-open range of an array.
fn dup_range(xs: &Vec<Value>, a: usize, b: usize) -> (r: Vec<Value>)
    requires
        a <= b <= xs@.len(),
    ensures
        view_values(r@) == view_values(xs@).subrange(a as int, b as int),
{
    proof {
        lemma_view_values(xs@);
    }
    let mut out: Vec<Value> = Vec::new();
    for i in a..b
        invariant
            a <= b <= xs@.len(),
            out@.len() == i - a,
            forall|j: int| 0 <= j < i - a ==> (#[trigger] out@[j])@ == xs@[a + j]@,
    {
        out.push(xs[i].duplicate());
    }
    proof {
        lemma_view_values(out@);
        lemma_view_values(xs@);
        assert forall|j: int|
            0 <= j < out@.len() implies view_values(out@)[j] == view_values(xs@).subrange(
            a as int,
            b as int,
        )[j] by {
            assert(view_values(out@)[j] == out@[j]@);
            assert(view_values(xs@)[a + j] == xs@[a + j]@);
        }
        assert(view_values(out@) =~= view_values(xs@).subrange(a as int, b as int));
    }
    out
}

/// Decides whether a string is exactly the method name `len`.
fn is_len_name(k: &String) -> (r: bool)
    ensures
        r == (k@ == seq!['l', 'e', 'n']),
{
    let s = k.as_str();
    if s.unicode_len() == 3 {
        let r = s.get_char(0) == 'l' && s.get_char(1) == 'e' && s.get_char(2) == 'n';
        proof {
            if r {
                assert(k@ =~= seq!['l', 'e', 'n']);
            }
        }
        r
    } else {
        false
    }
}

/// The method dispatcher, as `invoke_v` states it.
fn invoke(name: &String, recv: &Value, args: &Vec<Value>) -> (r: Result<Value, Error>)
    ensures
        res_view(r) == invoke_v(name@, recv@, view_values(args@)),
{
    if is_len_name(name) {
        match recv {
            Value::Array(xs) => {
                proof {
                    lemma_view_values(xs@);
                }
                if (xs.len() as u64) <= (i64::MAX as u64) {
                    Result::Ok(Value::Number(xs.len() as i64))
                } else {
                    Result::Ok(Value::Nothing)
                }
            },
            Value::Strand(s) => {
                let l = s.as_str().unicode_len();
                if (l as u64) <= (i64::MAX as u64) {
                    Result::Ok(Value::Number(l as i64))
                } else {
                    Result::Ok(Value::Nothing)
                }
            },
            Value::Object(fs) => {
                proof {
                    crate::value::lemma_view_entries(fs@);
                }
                if (fs.len() as u64) <= (i64::MAX as u64) {
                    Result::Ok(Value::Number(fs.len() as i64))
                } else {
                    Result::Ok(Value::Nothing)
                }
            },
            other => {
                proof {
                    lemma_value_view_variant(other);
                }
                Result::Ok(Value::Nothing)
            },
        }
    } else {
        Result::Err(Error::InvalidFunction)
    }
}

/// Copies of two path segments, one after the other.
fn concat_parts(a: &[Part], b: &[Part]) -> (r: Vec<Part>)
    ensures
        view_parts(r@) == view_parts(a@) + view_parts(b@),
{
    proof {
        lemma_view_parts(a@);
        lemma_view_parts(b@);
    }
    let mut out: Vec<Part> = Vec::new();
    let na = a.len();
    for i in 0..na
        invariant
            na == a@.len(),
            out@.len() == i,
            forall|j: int| 0 <= j < i ==> (#[trigger] out@[j])@ == a@[j]@,
    {
        out.push(vstd::slice::slice_index_get(a, i).duplicate());
    }
    let nb = b.len();
    for i in 0..nb
        invariant
            na == a@.len(),
            nb == b@.len(),
            out@.len() == na + i,
            forall|j: int| 0 <= j < na ==> (#[trigger] out@[j])@ == a@[j]@,
            forall|j: int| 0 <= j < i ==> (#[trigger] out@[na + j])@ == b@[j]@,
    {
        out.push(vstd::slice::slice_index_get(b, i).duplicate());
    }
    proof {
        lemma_view_parts(out@);
        lemma_view_parts(a@);
        lemma_view_parts(b@);
        assert forall|j: int|
            0 <= j < out@.len() implies view_parts(out@)[j] == (view_parts(a@) + view_parts(
            b@,
        ))[j] by {
            assert(view_parts(out@)[j] == out@[j]@);
            if j < na {
                assert(view_parts(a@)[j] == a@[j]@);
            } else {
                assert(out@[na + (j - na)]@ == b@[j - na]@);
                assert(view_parts(b@)[j - na] == b@[j - na]@);
            }
        }
        assert(view_parts(out@) =~= view_parts(a@) + view_parts(b@));
    }
    out
}

/// Decides whether a step can steer a recursion, as `is_plan_part` states
/// it.
fn part_is_plan(p: &Part) -> (r: bool)
    ensures
        r == is_plan_part(p@),
{
    proof {
        lemma_part_view_variant(p);
    }
    match p {
        Part::Destructure(es) => {
            proof {
                crate::part::lemma_view_dentries(es@);
            }
            let ghost esv = crate::part::view_dentries(es@);
            let n = es.len();
            for i in 0..n
                invariant
                    n == es@.len(),
                    esv == crate::part::view_dentries(es@),
                    p@ == PartV::Destructure(esv),
                    esv.len() == n,
                    forall|j: int|
                        0 <= j < i ==> first_rr((#[trigger] esv[j]).path) == esv[j].path.len(),
            {
                proof {
                    crate::part::lemma_view_dentries(es@);
                    assert(esv[i as int] == (crate::part::DestructureEntryV {
                        field: es@[i as int].field@,
                        path: view_parts(es@[i as int].path@),
                    }));
                    lemma_view_parts(es@[i as int].path@);
                }
                match find_repeat_recurse_vec(&es[i].path) {
                    Option::Some(_) => {
                        proof {
                            assert(first_rr(esv[i as int].path) < esv[i as int].path.len());
                            assert(dest_has_rr(esv));
                        }
                        return true;
                    },
                    Option::None => {},
                }
            }
            proof {
                if dest_has_rr(esv) {
                    let w = choose|i: int|
                        0 <= i < esv.len() && first_rr((#[trigger] esv[i]).path)
                            < esv[i].path.len();
                    assert(first_rr(esv[w].path) == esv[w].path.len());
                }
            }
            false
        },
        _ => false,
    }
}

/// Searches a vector-held path for a root-level repetition marker.
fn find_repeat_recurse_vec(path: &Vec<Part>) -> (r: Option<usize>)
    ensures
        match r {
            Option::Some(i) => i < path@.len() && first_rr(view_parts(path@)) == i,
            Option::None => first_rr(view_parts(path@)) == view_parts(path@).len(),
        },
{
    crate::part::find_repeat_recurse(path.as_slice())
}

/// Searches a path for the first plan-bearing step.
fn find_plan(path: &[Part]) -> (r: Option<usize>)
    ensures
        match r {
            Option::Some(i) => i < path@.len() && first_plan(view_parts(path@)) == i,
            Option::None => first_plan(view_parts(path@)) == view_parts(path@).len(),
        },
{
    proof {
        lemma_view_parts(path@);
    }
    let n = path.len();
    for i in 0..n
        invariant
            n == path@.len(),
            forall|j: int| 0 <= j < i ==> !is_plan_part(#[trigger] view_parts(path@)[j]),
    {
        proof {
            lemma_view_parts(path@);
        }
        let p = vstd::slice::slice_index_get(path, i);
        if part_is_plan(p) {
            proof {
                lemma_first_plan_at(view_parts(path@), i as int);
            }
            return Option::Some(i);
        }
    }
    proof {
        lemma_first_plan_none(view_parts(path@));
    }
    Option::None
}

} // verus!

verus! {

/// The fuel the public evaluator grants: the configured depth budget plus
/// one, capped at the machine maximum.
pub open spec fn budget(max: u64) -> nat {
    if max == u64::MAX {
        u64::MAX as nat
    } else {
        (max + 1) as nat
    }
}

impl Value {
    /// Resolves a path against this value: the sole public entry point of
    /// the evaluator. Returns exactly what the interpreter `eval_v` defines,
    /// under the context's depth budget.
    pub fn get(&self, ctx: &Context, opt: &Options, doc: Option<&CursorDoc>, path: &[Part]) -> (r:
        Result<Value, Error>)
        ensures
            res_view(r) == eval_v(
                ctx@,
                doc_view_of(doc),
                self@,
                view_parts(path@),
                budget(ctx@.max_computation_depth),
            ),
    {
        let fuel = if ctx.max_computation_depth == u64::MAX {
            u64::MAX
        } else {
            ctx.max_computation_depth + 1
        };
        get_at(ctx, opt, doc, self, path, fuel)
    }
}

/// One traversal of a path from a value, as `eval_v` states it.
fn get_at(
    ctx: &Context,
    opt: &Options,
    doc: Option<&CursorDoc>,
    v: &Value,
    path: &[Part],
    fuel: u64,
) -> (r: Result<Value, Error>)
    ensures
        res_view(r) == eval_v(ctx@, doc_view_of(doc), v@, view_parts(path@), fuel as nat),
    decreases fuel, crate::part::psize_seq(view_parts(path@)), crate::value::vsize(v@), 1nat,
{
    proof {
        lemma_view_parts(path@);
    }
    let ghost pv = view_parts(path@);
    let ghost dv = doc_view_of(doc);
    let n = path.len();
    if (n as u64) > ctx.max_computation_depth {
        return Result::Err(Error::ComputationDepthExceeded);
    }
    if n == 0 {
        return Result::Ok(v.duplicate());
    }
    proof {
        assert(pv.first() == path@[0]@);
        assert(crate::part::psize_seq(pv) == crate::part::psize(pv.first())
            + crate::part::psize_seq(pv.drop_first()));
        crate::part::lemma_psize_pos(pv.first());
    }
    let p0 = vstd::slice::slice_index_get(path, 0);
    proof {
        lemma_part_view_variant(p0);
    }
    let tail = vstd::slice::slice_subrange(path, 1, n);
    proof {
        lemma_view_parts_subrange(path@, 1, n as int);
        assert(view_parts(tail@) =~= pv.drop_first());
    }
    match p0 {
        Part::Recurse(bounds, inner, inst) => {
            if fuel == 0 {
                Result::Err(Error::ComputationDepthExceeded)
            } else {
                get_recurse_part(ctx, opt, doc, v, path, bounds, inner, inst, fuel - 1)
            }
        },
        Part::RepeatRecurse => Result::Err(Error::UnsupportedRepeatRecurse),
        Part::Doc => {
            let dval = (match doc {
                Option::Some(d) => match &d.rid {
                    Option::Some(t) => Value::Thing(t.duplicate()),
                    Option::None => Value::Nothing,
                },
                Option::None => Value::Nothing,
            });
            proof {
                assert(dval@ == doc_rid(dv));
            }
            get_at(ctx, opt, doc, &dval, tail, fuel)
        },
        _ => {
            match v {
                Value::Refs(ts) => {
                    if fuel == 0 {
                        Result::Err(Error::ComputationDepthExceeded)
                    } else {
                        let arr = Value::Array(refs_to_values(ts));
                        get_at(ctx, opt, doc, &arr, path, fuel - 1)
                    }
                },
                Value::Future(x) => {
                    if fuel == 0 {
                        Result::Err(Error::ComputationDepthExceeded)
                    } else {
                        let fut_opt = opt.new_with_futures(true);
                        let val = compute(x, &fut_opt, doc);
                        get_at(ctx, opt, doc, &val, path, fuel - 1)
                    }
                },
                Value::Object(es) => get_object(ctx, opt, doc, es, path, fuel),
                Value::Array(xs) => get_array(ctx, opt, doc, xs, path, fuel),
                Value::Edges(e) => {
                    if fuel == 0 {
                        Result::Err(Error::ComputationDepthExceeded)
                    } else {
                        let ids = ctx.select_graph_ids(&e.from, e.dir, &e.what);
                        let rows = ctx.fetch_rows(&ids);
                        let arr = Value::Array(rows);
                        match get_at(ctx, opt, Option::None, &arr, path, fuel - 1) {
                            Result::Ok(res) => Result::Ok(crate::value::flatten_value(res)),
                            Result::Err(er) => Result::Err(er),
                        }
                    }
                },
                Value::Thing(t) => get_thing(ctx, opt, doc, t, path, fuel),
                other => get_other(ctx, opt, doc, other, path, fuel),
            }
        },
    }
}

/// The object cases, as `eval_object` states them.
#[verifier::rlimit(100)]
fn get_object(
    ctx: &Context,
    opt: &Options,
    doc: Option<&CursorDoc>,
    es: &Vec<Entry>,
    path: &[Part],
    fuel: u64,
) -> (r: Result<Value, Error>)
    requires
        path@.len() > 0,
    ensures
        res_view(r) == crate::eval::eval_object(
            ctx@,
            doc_view_of(doc),
            view_entries(es@),
            view_parts(path@),
            fuel as nat,
        ),
    decreases fuel, crate::part::psize_seq(view_parts(path@)), crate::value::vsize(
        ValueV::Object(view_entries(es@)),
    ), 0nat,
{
    proof {
        lemma_view_parts(path@);
        lemma_view_entries(es@);
    }
    let ghost pv = view_parts(path@);
    let ghost dv = doc_view_of(doc);
    let ghost fsv = view_entries(es@);
    let n = path.len();
    proof {
        assert(pv.first() == path@[0]@);
        assert(crate::part::psize_seq(pv) == crate::part::psize(pv.first())
            + crate::part::psize_seq(pv.drop_first()));
        crate::part::lemma_psize_pos(pv.first());
    }
    let p0 = vstd::slice::slice_index_get(path, 0);
    proof {
        lemma_part_view_variant(p0);
    }
    let tail = vstd::slice::slice_subrange(path, 1, n);
    proof {
        lemma_view_parts_subrange(path@, 1, n as int);
        assert(view_parts(tail@) =~= pv.drop_first());
    }
    match p0 {
        Part::Field(name) => {
            if crate::value::is_id_key(name) && n > 1 {
                match crate::value::lookup(es, name) {
                    Option::Some(found) => {
                        match found {
                            Value::Thing(th) => {
                                match &th.id {
                                    crate::value::Id::Object(o) => {
                                        let inner = Value::Object(crate::value::dup_entries(o));
                                        proof {
                                            assert(found@ == ValueV::Thing(th@));
                                            assert(th@.id == crate::value::IdV::Object(
                                                view_entries(o@),
                                            ));
                                            assert(inner@ == ValueV::Object(view_entries(o@)));
                                            assert(crate::eval::eval_object(
                                                ctx@,
                                                dv,
                                                fsv,
                                                pv,
                                                fuel as nat,
                                            ) == eval_v(ctx@, dv, inner@, pv.drop_first(), fuel as nat));
                                        }
                                        get_at(ctx, opt, doc, &inner, tail, fuel)
                                    },
                                    crate::value::Id::Array(a) => {
                                        let inner = Value::Array(crate::value::dup_values(a));
                                        proof {
                                            assert(found@ == ValueV::Thing(th@));
                                            assert(th@.id == crate::value::IdV::Array(
                                                view_values(a@),
                                            ));
                                            assert(inner@ == ValueV::Array(view_values(a@)));
                                            assert(crate::eval::eval_object(
                                                ctx@,
                                                dv,
                                                fsv,
                                                pv,
                                                fuel as nat,
                                            ) == eval_v(ctx@, dv, inner@, pv.drop_first(), fuel as nat));
                                        }
                                        get_at(ctx, opt, doc, &inner, tail, fuel)
                                    },
                                    other_id => {
                                        proof {
                                            crate::value::lemma_id_view_variant(other_id);
                                            assert(crate::eval::eval_object(
                                                ctx@,
                                                dv,
                                                fsv,
                                                pv,
                                                fuel as nat,
                                            ) == eval_v(ctx@, dv, found@, pv.drop_first(), fuel as nat));
                                        }
                                        get_at(ctx, opt, doc, found, tail, fuel)
                                    },
                                }
                            },
                            other => {
                                proof {
                                    lemma_value_view_variant(other);
                                    assert(crate::eval::eval_object(ctx@, dv, fsv, pv, fuel as nat)
                                        == eval_v(ctx@, dv, found@, pv.drop_first(), fuel as nat));
                                }
                                get_at(ctx, opt, doc, found, tail, fuel)
                            },
                        }
                    },
                    Option::None => {
                        proof {
                            assert(crate::eval::eval_object(ctx@, dv, fsv, pv, fuel as nat)
                                == eval_v(ctx@, dv, ValueV::Nothing, pv.drop_first(), fuel as nat));
                        }
                        get_at(ctx, opt, doc, &Value::Nothing, tail, fuel)
                    },
                }
            } else {
                match crate::value::lookup(es, name) {
                    Option::Some(found) => {
                        proof {
                            assert(crate::eval::eval_object(ctx@, dv, fsv, pv, fuel as nat)
                                == eval_v(ctx@, dv, found@, pv.drop_first(), fuel as nat));
                        }
                        get_at(ctx, opt, doc, found, tail, fuel)
                    },
                    Option::None => {
                        proof {
                            assert(crate::eval::eval_object(ctx@, dv, fsv, pv, fuel as nat)
                                == eval_v(ctx@, dv, ValueV::Nothing, pv.drop_first(), fuel as nat));
                        }
                        get_at(ctx, opt, doc, &Value::Nothing, tail, fuel)
                    },
                }
            }
        },
        Part::Graph(_) => {
            match object_rid(es) {
                Option::Some(t) => {
                    let tv = Value::Thing(t.duplicate());
                    proof {
                        assert(crate::value::vsize(tv@) == 1);
                        assert(crate::value::vsize(ValueV::Object(fsv)) >= 2);
                        assert(crate::eval::eval_object(ctx@, dv, fsv, pv, fuel as nat) == eval_v(
                            ctx@,
                            dv,
                            ValueV::Thing(t@),
                            pv,
                            fuel as nat,
                        ));
                    }
                    get_at(ctx, opt, doc, &tv, path, fuel)
                },
                Option::None => {
                    proof {
                        assert(crate::eval::eval_object(ctx@, dv, fsv, pv, fuel as nat) == eval_v(
                            ctx@,
                            dv,
                            ValueV::Nothing,
                            pv.drop_first(),
                            fuel as nat,
                        ));
                    }
                    get_at(ctx, opt, doc, &Value::Nothing, tail, fuel)
                },
            }
        },
        Part::Index(i) => {
            match crate::value::lookup_index(es, *i) {
                Option::Some(found) => {
                    proof {
                        assert(crate::eval::eval_object(ctx@, dv, fsv, pv, fuel as nat) == eval_v(
                            ctx@,
                            dv,
                            found@,
                            pv.drop_first(),
                            fuel as nat,
                        ));
                    }
                    get_at(ctx, opt, doc, found, tail, fuel)
                },
                Option::None => {
                    proof {
                        assert(crate::eval::eval_object(ctx@, dv, fsv, pv, fuel as nat) == eval_v(
                            ctx@,
                            dv,
                            ValueV::Nothing,
                            pv.drop_first(),
                            fuel as nat,
                        ));
                    }
                    get_at(ctx, opt, doc, &Value::Nothing, tail, fuel)
                },
            }
        },
        Part::Value(x) => {
            let computed = compute(x, opt, doc);
            match &computed {
                Value::Strand(s) => {
                    match crate::value::lookup(es, s) {
                        Option::Some(found) => {
                            proof {
                                assert(crate::eval::eval_object(ctx@, dv, fsv, pv, fuel as nat)
                                    == eval_v(ctx@, dv, found@, pv.drop_first(), fuel as nat));
                            }
                            get_at(ctx, opt, doc, found, tail, fuel)
                        },
                        Option::None => {
                            proof {
                                assert(crate::eval::eval_object(ctx@, dv, fsv, pv, fuel as nat)
                                    == Res::Val(ValueV::Nothing));
                            }
                            Result::Ok(Value::Nothing)
                        },
                    }
                },
                Value::Thing(t) => {
                    match crate::value::lookup_thing(es, t) {
                        Option::Some(found) => {
                            proof {
                                assert(crate::eval::eval_object(ctx@, dv, fsv, pv, fuel as nat)
                                    == eval_v(ctx@, dv, found@, pv.drop_first(), fuel as nat));
                            }
                            get_at(ctx, opt, doc, found, tail, fuel)
                        },
                        Option::None => {
                            proof {
                                assert(crate::eval::eval_object(ctx@, dv, fsv, pv, fuel as nat)
                                    == Res::Val(ValueV::Nothing));
                            }
                            Result::Ok(Value::Nothing)
                        },
                    }
                },
                other => {
                    proof {
                        lemma_value_view_variant(other);
                        assert(crate::eval::eval_object(ctx@, dv, fsv, pv, fuel as nat) == eval_v(
                            ctx@,
                            dv,
                            ValueV::Nothing,
                            pv.drop_first(),
                            fuel as nat,
                        ));
                    }
                    get_at(ctx, opt, doc, &Value::Nothing, tail, fuel)
                },
            }
        },
        Part::All => {
            let arr = Value::Array(object_values(es));
            proof {
                assert(crate::eval::eval_object(ctx@, dv, fsv, pv, fuel as nat) == eval_v(
                    ctx@,
                    dv,
                    arr@,
                    pv.drop_first(),
                    fuel as nat,
                ));
            }
            get_at(ctx, opt, doc, &arr, tail, fuel)
        },
        Part::Destructure(entries) => {
            let cur = CursorDoc { rid: Option::None, doc: Value::Object(crate::value::dup_entries(es)) };
            proof {
                assert(cur@ == (CursorDocV { rid: Option::None, doc: ValueV::Object(fsv) }));
                assert(crate::part::psize(pv.first()) == 2 + crate::part::dsize_seq(
                    crate::part::view_dentries(entries@),
                ));
            }
            match get_destructure(ctx, opt, &cur, entries, fuel) {
                Result::Err(e) => {
                    proof {
                        assert(crate::eval::eval_object(ctx@, dv, fsv, pv, fuel as nat)
                            == Res::Fail(e));
                    }
                    Result::Err(e)
                },
                Result::Ok(obj) => {
                    proof {
                        assert(crate::eval::eval_object(ctx@, dv, fsv, pv, fuel as nat) == eval_v(
                            ctx@,
                            dv,
                            obj@,
                            pv.drop_first(),
                            fuel as nat,
                        ));
                    }
                    get_at(ctx, opt, doc, &obj, tail, fuel)
                },
            }
        },
        Part::Method(name, args) => {
            let argv = compute_args(args, opt, doc);
            let recv = Value::Object(crate::value::dup_entries(es));
            match invoke(name, &recv, &argv) {
                Result::Ok(res) => {
                    proof {
                        assert(crate::eval::eval_object(ctx@, dv, fsv, pv, fuel as nat) == eval_v(
                            ctx@,
                            dv,
                            res@,
                            pv.drop_first(),
                            fuel as nat,
                        ));
                    }
                    get_at(ctx, opt, doc, &res, tail, fuel)
                },
                Result::Err(e) => {
                    if e == Error::InvalidFunction {
                        match crate::value::lookup(es, name) {
                            Option::Some(_) => {
                                proof {
                                    assert(crate::eval::eval_object(ctx@, dv, fsv, pv, fuel as nat)
                                        == eval_v(
                                        ctx@,
                                        dv,
                                        ValueV::Nothing,
                                        pv.drop_first(),
                                        fuel as nat,
                                    ));
                                }
                                get_at(ctx, opt, doc, &Value::Nothing, tail, fuel)
                            },
                            Option::None => {
                                proof {
                                    assert(crate::eval::eval_object(ctx@, dv, fsv, pv, fuel as nat)
                                        == Res::Fail(Error::InvalidFunction));
                                }
                                Result::Err(Error::InvalidFunction)
                            },
                        }
                    } else {
                        proof {
                            assert(crate::eval::eval_object(ctx@, dv, fsv, pv, fuel as nat)
                                == Res::Fail(e));
                        }
                        Result::Err(e)
                    }
                },
            }
        },
        Part::Optional => {
            let own = Value::Object(crate::value::dup_entries(es));
            proof {
                assert(crate::eval::eval_object(ctx@, dv, fsv, pv, fuel as nat) == eval_v(
                    ctx@,
                    dv,
                    ValueV::Object(fsv),
                    pv.drop_first(),
                    fuel as nat,
                ));
            }
            get_at(ctx, opt, doc, &own, tail, fuel)
        },
        _ => {
            proof {
                assert(crate::eval::eval_object(ctx@, dv, fsv, pv, fuel as nat) == Res::Val(
                    ValueV::Nothing,
                ));
            }
            Result::Ok(Value::Nothing)
        },
    }
}

/// The object's latent record id, as `rid_of` states it.
fn object_rid<'a>(es: &'a Vec<Entry>) -> (r: Option<&'a Thing>)
    ensures
        match r {
            Option::Some(t) => crate::value::rid_of(view_entries(es@)) == Option::Some(t@),
            Option::None => crate::value::rid_of(view_entries(es@)) is None,
        },
{
    let key = <String as vstd::string::StringExecFns>::from_str("id");
    proof {
        reveal_strlit("id");
        assert(key@ =~= seq!['i', 'd']);
    }
    match crate::value::lookup(es, &key) {
        Option::Some(found) => {
            match found {
                Value::Thing(t) => Option::Some(t),
                other => {
                    proof {
                        lemma_value_view_variant(other);
                    }
                    Option::None
                },
            }
        },
        Option::None => Option::None,
    }
}

} // verus!

verus! {

/// The array cases, as `eval_array` states them.
fn get_array(
    ctx: &Context,
    opt: &Options,
    doc: Option<&CursorDoc>,
    xs: &Vec<Value>,
    path: &[Part],
    fuel: u64,
) -> (r: Result<Value, Error>)
    requires
        path@.len() > 0,
    ensures
        res_view(r) == crate::eval::eval_array(
            ctx@,
            doc_view_of(doc),
            view_values(xs@),
            view_parts(path@),
            fuel as nat,
        ),
    decreases fuel, crate::part::psize_seq(view_parts(path@)), crate::value::vsize(
        ValueV::Array(view_values(xs@)),
    ), 0nat,
{
    proof {
        lemma_view_parts(path@);
        lemma_view_values(xs@);
    }
    let ghost pv = view_parts(path@);
    let ghost dv = doc_view_of(doc);
    let ghost sv = view_values(xs@);
    let n = path.len();
    proof {
        assert(pv.first() == path@[0]@);
        assert(crate::part::psize_seq(pv) == crate::part::psize(pv.first())
            + crate::part::psize_seq(pv.drop_first()));
        crate::part::lemma_psize_pos(pv.first());
        assert(crate::value::vsize(ValueV::Array(sv)) == 2 + crate::value::vsize_seq(sv));
    }
    let p0 = vstd::slice::slice_index_get(path, 0);
    proof {
        lemma_part_view_variant(p0);
    }
    let tail = vstd::slice::slice_subrange(path, 1, n);
    proof {
        lemma_view_parts_subrange(path@, 1, n as int);
        assert(view_parts(tail@) =~= pv.drop_first());
    }
    match p0 {
        Part::All | Part::Flatten => {
            match get_list(ctx, opt, doc, xs, tail, fuel) {
                Result::Ok(ys) => Result::Ok(Value::Array(ys)),
                Result::Err(e) => Result::Err(e),
            }
        },
        Part::First => {
            if xs.len() > 0 {
                proof {
                    assert(sv.first() == xs@[0]@);
                    crate::value::lemma_vsize_seq_index(sv, 0);
                }
                get_at(ctx, opt, doc, &xs[0], tail, fuel)
            } else {
                get_at(ctx, opt, doc, &Value::Nothing, tail, fuel)
            }
        },
        Part::Last => {
            if xs.len() > 0 {
                proof {
                    assert(sv.last() == xs@[xs@.len() - 1]@);
                    crate::value::lemma_vsize_seq_index(sv, sv.len() as int - 1);
                }
                get_at(ctx, opt, doc, &xs[xs.len() - 1], tail, fuel)
            } else {
                get_at(ctx, opt, doc, &Value::Nothing, tail, fuel)
            }
        },
        Part::Index(i) => {
            if *i < (xs.len() as u64) {
                let iu = *i as usize;
                proof {
                    assert(sv[*i as int] == xs@[*i as int]@);
                    crate::value::lemma_vsize_seq_index(sv, *i as int);
                }
                get_at(ctx, opt, doc, &xs[iu], tail, fuel)
            } else {
                get_at(ctx, opt, doc, &Value::Nothing, tail, fuel)
            }
        },
        Part::Where(w) => {
            let kept = Value::Array(where_filter(xs, w, opt));
            get_at(ctx, opt, doc, &kept, tail, fuel)
        },
        Part::Value(x) => {
            let computed = compute(x, opt, doc);
            match &computed {
                Value::Number(nn) => {
                    if 0 <= *nn && (*nn as u64) < (xs.len() as u64) {
                        let iu = *nn as usize;
                        proof {
                            assert(sv[*nn as int] == xs@[*nn as int]@);
                            crate::value::lemma_vsize_seq_index(sv, *nn as int);
                        }
                        get_at(ctx, opt, doc, &xs[iu], tail, fuel)
                    } else {
                        Result::Ok(Value::Nothing)
                    }
                },
                Value::Range(a, b) => {
                    let sliced = (if 0 <= *a && *a <= *b && (*b as u64) <= (xs.len() as u64) {
                        let va = dup_range(xs, *a as usize, *b as usize);
                        Value::Array(va)
                    } else {
                        Value::Nothing
                    });
                    get_at(ctx, opt, doc, &sliced, tail, fuel)
                },
                other => {
                    proof {
                        lemma_value_view_variant(other);
                    }
                    get_at(ctx, opt, doc, &Value::Nothing, tail, fuel)
                },
            }
        },
        Part::Method(name, args) => {
            let argv = compute_args(args, opt, doc);
            let recv = Value::Array(crate::value::dup_values(xs));
            match invoke(name, &recv, &argv) {
                Result::Ok(res) => get_at(ctx, opt, doc, &res, tail, fuel),
                Result::Err(e) => Result::Err(e),
            }
        },
        Part::Optional => {
            let own = Value::Array(crate::value::dup_values(xs));
            get_at(ctx, opt, doc, &own, tail, fuel)
        },
        _ => {
            if fuel == 0 {
                Result::Err(Error::ComputationDepthExceeded)
            } else {
                let two = (if n >= 2 {
                    let p1 = vstd::slice::slice_index_get(path, 1);
                    proof {
                        lemma_part_view_variant(p1);
                        assert(pv[1] == path@[1]@);
                    }
                    match p1 {
                        Part::All => true,
                        _ => false,
                    }
                } else {
                    false
                });
                let len_take: usize = if two {
                    2
                } else {
                    1
                };
                let sub = vstd::slice::slice_subrange(path, 0, len_take);
                let rest = vstd::slice::slice_subrange(path, len_take, n);
                proof {
                    lemma_view_parts_subrange(path@, 0, len_take as int);
                    lemma_view_parts_subrange(path@, len_take as int, n as int);
                    if two {
                        assert(view_parts(sub@) =~= seq![pv[0], pv[1]]);
                        assert(view_parts(rest@) =~= pv.drop_first().drop_first());
                    } else {
                        assert(view_parts(sub@) =~= seq![pv[0]]);
                        assert(view_parts(rest@) =~= pv.drop_first());
                    }
                }
                match get_list(ctx, opt, doc, xs, sub, fuel - 1) {
                    Result::Err(e) => Result::Err(e),
                    Result::Ok(ys) => {
                        let is_graph_head = (match p0 {
                            Part::Graph(_) => true,
                            _ => false,
                        });
                        let flatten_now = (if is_graph_head && n >= 2 {
                            let p1 = vstd::slice::slice_index_get(path, 1);
                            proof {
                                lemma_part_view_variant(p1);
                                assert(pv[1] == path@[1]@);
                            }
                            match p1 {
                                Part::Graph(_) => true,
                                Part::Where(_) => true,
                                _ => false,
                            }
                        } else {
                            false
                        });
                        let mapped = (if flatten_now {
                            crate::value::flatten_value(Value::Array(ys))
                        } else {
                            Value::Array(ys)
                        });
                        get_at(ctx, opt, doc, &mapped, rest, fuel - 1)
                    },
                }
            }
        },
    }
}

/// One traversal of the same path from every element, as `eval_list` states
/// it.
fn get_list(
    ctx: &Context,
    opt: &Options,
    doc: Option<&CursorDoc>,
    xs: &Vec<Value>,
    path: &[Part],
    fuel: u64,
) -> (r: Result<Vec<Value>, Error>)
    ensures
        (match r {
            Result::Ok(ys) => eval_list(
                ctx@,
                doc_view_of(doc),
                view_values(xs@),
                view_parts(path@),
                fuel as nat,
            ) == ResL::Vals(view_values(ys@)),
            Result::Err(e) => eval_list(
                ctx@,
                doc_view_of(doc),
                view_values(xs@),
                view_parts(path@),
                fuel as nat,
            ) == ResL::Fail(e),
        }),
    decreases fuel, crate::part::psize_seq(view_parts(path@)), 1 + crate::value::vsize_seq(
        view_values(xs@),
    ), view_values(xs@).len(),
{
    proof {
        lemma_view_values(xs@);
        lemma_view_values(Seq::<Value>::empty());
    }
    let ghost sv = view_values(xs@);
    let ghost pv = view_parts(path@);
    let ghost dv = doc_view_of(doc);
    let mut out: Vec<Value> = Vec::new();
    let n = xs.len();
    proof {
        assert(sv.skip(0) =~= sv);
    }
    for i in 0..n
        invariant
            n == xs@.len(),
            sv == view_values(xs@),
            pv == view_parts(path@),
            dv == doc_view_of(doc),
            sv.len() == n,
            (match eval_list(ctx@, dv, sv.skip(i as int), pv, fuel as nat) {
                ResL::Vals(restv) => eval_list(ctx@, dv, sv, pv, fuel as nat) == ResL::Vals(
                    view_values(out@) + restv,
                ),
                ResL::Fail(e) => eval_list(ctx@, dv, sv, pv, fuel as nat) == ResL::Fail(e),
            }),
    {
        proof {
            lemma_view_values(xs@);
            assert(sv[i as int] == xs@[i as int]@);
            assert(sv.skip(i as int).first() == sv[i as int]);
            assert(sv.skip(i as int).drop_first() =~= sv.skip(i + 1));
            crate::value::lemma_vsize_seq_index(sv, i as int);
        }
        match get_at(ctx, opt, doc, &xs[i], path, fuel) {
            Result::Err(e) => {
                return Result::Err(e);
            },
            Result::Ok(y) => {
                proof {
                    lemma_view_values(out@.push(y));
                    assert(view_values(out@.push(y)) == view_values(
                        out@.push(y).drop_last(),
                    ).push(y@));
                    assert(out@.push(y).drop_last() =~= out@);
                    match eval_list(ctx@, dv, sv.skip(i + 1), pv, fuel as nat) {
                        ResL::Vals(restv) => {
                            assert(view_values(out@) + (seq![y@] + restv) =~= view_values(
                                out@.push(y),
                            ) + restv);
                        },
                        ResL::Fail(_) => {},
                    }
                }
                out.push(y);
            },
        }
    }
    proof {
        assert(sv.skip(n as int).len() == 0);
        assert(view_values(out@) + Seq::<ValueV>::empty() =~= view_values(out@));
    }
    Result::Ok(out)
}

/// The record-reference cases, as `eval_thing` states them.
fn get_thing(
    ctx: &Context,
    opt: &Options,
    doc: Option<&CursorDoc>,
    t: &Thing,
    path: &[Part],
    fuel: u64,
) -> (r: Result<Value, Error>)
    requires
        path@.len() > 0,
    ensures
        res_view(r) == crate::eval::eval_thing(
            ctx@,
            doc_view_of(doc),
            t@,
            view_parts(path@),
            fuel as nat,
        ),
    decreases fuel, crate::part::psize_seq(view_parts(path@)), crate::value::vsize(
        ValueV::Thing(t@),
    ), 0nat,
{
    proof {
        lemma_view_parts(path@);
    }
    let ghost pv = view_parts(path@);
    let ghost dv = doc_view_of(doc);
    let n = path.len();
    proof {
        assert(pv.first() == path@[0]@);
        assert(crate::part::psize_seq(pv) == crate::part::psize(pv.first())
            + crate::part::psize_seq(pv.drop_first()));
        crate::part::lemma_psize_pos(pv.first());
    }
    let p0 = vstd::slice::slice_index_get(path, 0);
    proof {
        lemma_part_view_variant(p0);
    }
    let tail = vstd::slice::slice_subrange(path, 1, n);
    proof {
        lemma_view_parts_subrange(path@, 1, n as int);
        assert(view_parts(tail@) =~= pv.drop_first());
    }
    match p0 {
        Part::Graph(g) => {
            if fuel == 0 {
                Result::Err(Error::ComputationDepthExceeded)
            } else {
                let ids = ctx.select_graph_ids(t, g.dir, &g.what);
                if n == 1 {
                    Result::Ok(Value::Array(refs_to_values(&ids)))
                } else {
                    let rows = ctx.fetch_rows(&ids);
                    let arr = Value::Array(rows);
                    match get_at(ctx, opt, Option::None, &arr, tail, fuel - 1) {
                        Result::Err(e) => Result::Err(e),
                        Result::Ok(res) => {
                            let p1 = vstd::slice::slice_index_get(path, 1);
                            proof {
                                lemma_part_view_variant(p1);
                                assert(pv[1] == path@[1]@);
                            }
                            let flatten_now = (match p1 {
                                Part::Graph(_) => true,
                                Part::Where(_) => true,
                                _ => false,
                            });
                            if flatten_now {
                                Result::Ok(crate::value::flatten_value(res))
                            } else {
                                Result::Ok(res)
                            }
                        },
                    }
                }
            }
        },
        Part::Method(name, args) => {
            let argv = compute_args(args, opt, doc);
            let recv = Value::Thing(t.duplicate());
            match invoke(name, &recv, &argv) {
                Result::Ok(res) => get_at(ctx, opt, doc, &res, tail, fuel),
                Result::Err(e) => Result::Err(e),
            }
        },
        Part::Optional => {
            let own = Value::Thing(t.duplicate());
            get_at(ctx, opt, doc, &own, tail, fuel)
        },
        _ => {
            if fuel == 0 {
                Result::Err(Error::ComputationDepthExceeded)
            } else {
                let fetched = ctx.fetch_record(t);
                let is_all = (match p0 {
                    Part::All => true,
                    _ => false,
                });
                let next = if is_all {
                    tail
                } else {
                    path
                };
                get_at(ctx, opt, Option::None, &fetched, next, fuel - 1)
            }
        },
    }
}

/// The scalar cases, as `eval_other` states them.
fn get_other(
    ctx: &Context,
    opt: &Options,
    doc: Option<&CursorDoc>,
    v: &Value,
    path: &[Part],
    fuel: u64,
) -> (r: Result<Value, Error>)
    requires
        path@.len() > 0,
        !(v@ is Object),
        !(v@ is Array),
        !(v@ is Thing),
        !(v@ is Edges),
        !(v@ is Future),
        !(v@ is Refs),
    ensures
        res_view(r) == crate::eval::eval_other(
            ctx@,
            doc_view_of(doc),
            v@,
            view_parts(path@),
            fuel as nat,
        ),
    decreases fuel, crate::part::psize_seq(view_parts(path@)), crate::value::vsize(v@), 0nat,
{
    proof {
        lemma_view_parts(path@);
    }
    let ghost pv = view_parts(path@);
    let ghost dv = doc_view_of(doc);
    let n = path.len();
    proof {
        assert(pv.first() == path@[0]@);
        assert(crate::part::psize_seq(pv) == crate::part::psize(pv.first())
            + crate::part::psize_seq(pv.drop_first()));
        crate::part::lemma_psize_pos(pv.first());
    }
    let p0 = vstd::slice::slice_index_get(path, 0);
    proof {
        lemma_part_view_variant(p0);
        lemma_value_view_variant(v);
    }
    let tail = vstd::slice::slice_subrange(path, 1, n);
    proof {
        lemma_view_parts_subrange(path@, 1, n as int);
        assert(view_parts(tail@) =~= pv.drop_first());
    }
    match p0 {
        Part::Optional => {
            let is_nothing = (match v {
                Value::Nothing => true,
                _ => false,
            });
            if is_nothing {
                Result::Ok(Value::Nothing)
            } else {
                let own = v.duplicate();
                get_at(ctx, opt, doc, &own, tail, fuel)
            }
        },
        Part::Flatten => {
            let own = v.duplicate();
            get_at(ctx, opt, Option::None, &own, tail, fuel)
        },
        Part::Method(name, args) => {
            let argv = compute_args(args, opt, doc);
            let recv = v.duplicate();
            match invoke(name, &recv, &argv) {
                Result::Ok(res) => get_at(ctx, opt, doc, &res, tail, fuel),
                Result::Err(e) => Result::Err(e),
            }
        },
        _ => {
            if fuel == 0 {
                Result::Err(Error::ComputationDepthExceeded)
            } else {
                let m = crate::part::next_method_index(path);
                let skipped = vstd::slice::slice_subrange(path, m, n);
                proof {
                    lemma_view_parts_subrange(path@, m as int, n as int);
                }
                get_at(ctx, opt, doc, &Value::Nothing, skipped, fuel - 1)
            }
        },
    }
}

} // verus!

verus! {

/// A destructuring step on an object, as `eval_destructure` states it.
fn get_destructure(
    ctx: &Context,
    opt: &Options,
    cur: &CursorDoc,
    entries: &Vec<crate::part::DestructureEntry>,
    fuel: u64,
) -> (r: Result<Value, Error>)
    ensures
        res_view(r) == crate::eval::eval_destructure(
            ctx@,
            cur@,
            crate::part::view_dentries(entries@),
            fuel as nat,
        ),
    decreases fuel, crate::part::dsize_seq(crate::part::view_dentries(entries@)) + 1, 0nat,
        crate::part::view_dentries(entries@).len(),
{
    proof {
        crate::part::lemma_view_dentries(entries@);
        lemma_view_entries(Seq::<Entry>::empty());
    }
    let ghost esv = crate::part::view_dentries(entries@);
    let mut out: Vec<Entry> = Vec::new();
    let n = entries.len();
    proof {
        assert(esv.skip(0) =~= esv);
    }
    for i in 0..n
        invariant
            n == entries@.len(),
            esv == crate::part::view_dentries(entries@),
            esv.len() == n,
            (match crate::eval::eval_destructure(ctx@, cur@, esv.skip(i as int), fuel as nat) {
                Res::Val(ValueV::Object(restv)) => crate::eval::eval_destructure(
                    ctx@,
                    cur@,
                    esv,
                    fuel as nat,
                ) == Res::Val(ValueV::Object(view_entries(out@) + restv)),
                Res::Fail(e) => crate::eval::eval_destructure(ctx@, cur@, esv, fuel as nat)
                    == Res::Fail(e),
                Res::Val(_) => false,
            }),
    {
        proof {
            crate::part::lemma_view_dentries(entries@);
            assert(esv[i as int] == (crate::part::DestructureEntryV {
                field: entries@[i as int].field@,
                path: view_parts(entries@[i as int].path@),
            }));
            assert(esv.skip(i as int).first() == esv[i as int]);
            assert(esv.skip(i as int).drop_first() =~= esv.skip(i + 1));
            crate::eval::lemma_destructure_shape(ctx@, cur@, esv.skip(i + 1), fuel as nat);
            crate::part::lemma_dsize_seq_elem(esv, i as int);
        }
        let en = &entries[i];
        match get_at(ctx, opt, Option::Some(cur), &cur.doc, en.path.as_slice(), fuel) {
            Result::Err(e) => {
                return Result::Err(e);
            },
            Result::Ok(v) => {
                let newe = Entry { key: en.field.clone(), val: v };
                proof {
                    lemma_view_entries(out@.push(newe));
                    assert(view_entries(out@.push(newe)) == view_entries(
                        out@.push(newe).drop_last(),
                    ).push(crate::value::FieldV { key: newe.key@, val: newe.val@ }));
                    assert(out@.push(newe).drop_last() =~= out@);
                    match crate::eval::eval_destructure(ctx@, cur@, esv.skip(i + 1), fuel as nat) {
                        Res::Val(ValueV::Object(restv)) => {
                            assert(view_entries(out@) + (seq![
                                crate::value::FieldV { key: esv[i as int].field, val: newe.val@ },
                            ] + restv) =~= view_entries(out@.push(newe)) + restv);
                        },
                        _ => {},
                    }
                }
                out.push(newe);
            },
        }
    }
    proof {
        assert(esv.skip(n as int).len() == 0);
        assert(view_entries(out@) + Seq::<crate::value::FieldV>::empty() =~= view_entries(out@));
    }
    Result::Ok(Value::Object(out))
}

/// The recursion step, as `eval_recurse_part` states it.
fn get_recurse_part(
    ctx: &Context,
    opt: &Options,
    doc: Option<&CursorDoc>,
    v: &Value,
    path: &[Part],
    bounds: &crate::part::Recurse,
    inner: &Option<Vec<Part>>,
    inst: &Option<crate::part::RecurseInstruction>,
    fuel: u64,
) -> (r: Result<Value, Error>)
    requires
        path@.len() > 0,
        view_parts(path@).first() == PartV::Recurse(
            *bounds,
            match inner {
                Option::Some(ps) => Option::Some(view_parts(ps@)),
                Option::None => Option::None,
            },
            *inst,
        ),
    ensures
        res_view(r) == crate::eval::eval_recurse_part(
            ctx@,
            doc_view_of(doc),
            v@,
            view_parts(path@),
            *bounds,
            match inner {
                Option::Some(ps) => Option::Some(view_parts(ps@)),
                Option::None => Option::None,
            },
            *inst,
            fuel as nat,
        ),
    decreases fuel, 0nat, 0nat, 0nat,
{
    proof {
        lemma_view_parts(path@);
    }
    let ghost pv = view_parts(path@);
    let ghost dv = doc_view_of(doc);
    let n = path.len();
    let tail = vstd::slice::slice_subrange(path, 1, n);
    proof {
        lemma_view_parts_subrange(path@, 1, n as int);
        assert(view_parts(tail@) =~= pv.drop_first());
    }
    let empty_after = vstd::slice::slice_subrange(path, 0, 0);
    proof {
        lemma_view_parts_subrange(path@, 0, 0);
        assert(view_parts(empty_after@) =~= Seq::<PartV>::empty());
    }
    let rep0: &[Part] = (match inner {
        Option::Some(ps) => ps.as_slice(),
        Option::None => tail,
    });
    let after0: &[Part] = (match inner {
        Option::Some(_) => tail,
        Option::None => empty_after,
    });
    let ghost rep0v = view_parts(rep0@);
    let ghost after0v = view_parts(after0@);
    proof {
        lemma_view_parts(rep0@);
        match inner {
            Option::Some(ps) => {
                assert(rep0@ == ps@);
                assert(rep0v == view_parts(ps@));
                assert(after0v == view_parts(tail@));
            },
            Option::None => {
                assert(rep0v == view_parts(tail@));
                assert(after0v == Seq::<PartV>::empty());
            },
        }
    }
    match crate::part::find_repeat_recurse(rep0) {
        Option::Some(i) => {
            if fuel == 0 {
                return Result::Err(Error::ComputationDepthExceeded);
            }
            let m = rep0.len();
            proof {
                assert(i < m);
            }
            let rep = vstd::slice::slice_subrange(rep0, 0, i);
            let post = vstd::slice::slice_subrange(rep0, i + 1, m);
            let after_vec = concat_parts(post, after0);
            proof {
                lemma_view_parts(rep0@);
                lemma_view_parts_subrange(rep0@, 0, i as int);
                lemma_view_parts_subrange(rep0@, i + 1, rep0@.len() as int);
                assert(view_parts(rep@) =~= rep0v.subrange(0, i as int));
                assert(view_parts(after_vec@) == rep0v.subrange(i + 1, rep0v.len() as int)
                    + after0v);
            }
            proof {
                assert(crate::eval::eval_recurse_part(
                    ctx@,
                    dv,
                    v@,
                    pv,
                    *bounds,
                    match inner {
                        Option::Some(ps) => Option::Some(view_parts(ps@)),
                        Option::None => Option::None,
                    },
                    *inst,
                    fuel as nat,
                ) == crate::eval::eval_rec_run(
                    ctx@,
                    dv,
                    v@,
                    *bounds,
                    view_parts(rep@),
                    false,
                    *inst,
                    view_parts(after_vec@),
                    (fuel - 1) as nat,
                ));
            }
            get_rec_run(ctx, opt, doc, v, bounds, rep, false, inst, after_vec.as_slice(), fuel - 1)
        },
        Option::None => {
            match find_plan(rep0) {
                Option::Some(j) => {
                    if inst.is_some() {
                        Result::Err(Error::RecursionInstructionPlanConflict)
                    } else if fuel == 0 {
                        Result::Err(Error::ComputationDepthExceeded)
                    } else {
                        let m = rep0.len();
                        proof {
                            assert(j < m);
                        }
                        let rep = vstd::slice::slice_subrange(rep0, 0, j);
                        let post = vstd::slice::slice_subrange(rep0, j + 1, m);
                        let after_vec = concat_parts(post, after0);
                        proof {
                            lemma_view_parts(rep0@);
                            lemma_view_parts_subrange(rep0@, 0, j as int);
                            lemma_view_parts_subrange(rep0@, j + 1, rep0@.len() as int);
                            assert(view_parts(rep@) =~= rep0v.subrange(0, j as int));
                            assert(view_parts(after_vec@) == rep0v.subrange(
                                j + 1,
                                rep0v.len() as int,
                            ) + after0v);
                        }
                        proof {
                            assert(crate::eval::eval_recurse_part(
                                ctx@,
                                dv,
                                v@,
                                pv,
                                *bounds,
                                match inner {
                                    Option::Some(ps) => Option::Some(view_parts(ps@)),
                                    Option::None => Option::None,
                                },
                                *inst,
                                fuel as nat,
                            ) == crate::eval::eval_rec_run(
                                ctx@,
                                dv,
                                v@,
                                *bounds,
                                view_parts(rep@),
                                true,
                                *inst,
                                view_parts(after_vec@),
                                (fuel - 1) as nat,
                            ));
                        }
                        get_rec_run(
                            ctx,
                            opt,
                            doc,
                            v,
                            bounds,
                            rep,
                            true,
                            inst,
                            after_vec.as_slice(),
                            fuel - 1,
                        )
                    }
                },
                Option::None => {
                    if fuel == 0 {
                        return Result::Err(Error::ComputationDepthExceeded);
                    }
                    proof {
                        assert(crate::eval::eval_recurse_part(
                            ctx@,
                            dv,
                            v@,
                            pv,
                            *bounds,
                            match inner {
                                Option::Some(ps) => Option::Some(view_parts(ps@)),
                                Option::None => Option::None,
                            },
                            *inst,
                            fuel as nat,
                        ) == crate::eval::eval_rec_run(
                            ctx@,
                            dv,
                            v@,
                            *bounds,
                            rep0v,
                            false,
                            *inst,
                            after0v,
                            (fuel - 1) as nat,
                        ));
                    }
                    get_rec_run(ctx, opt, doc, v, bounds, rep0, false, inst, after0, fuel - 1)
                },
            }
        },
    }
}

/// Runs the iteration, then what follows it, as `eval_rec_run` states it.
#[verifier::rlimit(100)]
fn get_rec_run(
    ctx: &Context,
    opt: &Options,
    doc: Option<&CursorDoc>,
    v: &Value,
    bounds: &crate::part::Recurse,
    rep: &[Part],
    plan: bool,
    inst: &Option<crate::part::RecurseInstruction>,
    after: &[Part],
    fuel: u64,
) -> (r: Result<Value, Error>)
    ensures
        res_view(r) == crate::eval::eval_rec_run(
            ctx@,
            doc_view_of(doc),
            v@,
            *bounds,
            view_parts(rep@),
            plan,
            *inst,
            view_parts(after@),
            fuel as nat,
        ),
    decreases fuel, crate::part::psize_seq(view_parts(rep@)) + 1, 0nat, 1nat,
{
    proof {
        lemma_view_parts(after@);
        lemma_view_parts(rep@);
    }
    let collect = plan || inst.is_some();
    match get_rec(ctx, opt, doc, bounds, v, rep, collect, fuel) {
        Result::Err(e) => Result::Err(e),
        Result::Ok(rv) => {
            if after.len() > 0 {
                if fuel == 0 {
                    Result::Err(Error::ComputationDepthExceeded)
                } else {
                    get_at(ctx, opt, doc, &rv, after, fuel - 1)
                }
            } else {
                Result::Ok(rv)
            }
        },
    }
}

/// The iteration of a recursion, as `eval_rec_v` states it.
#[verifier::rlimit(100)]
fn get_rec(
    ctx: &Context,
    opt: &Options,
    doc: Option<&CursorDoc>,
    bounds: &crate::part::Recurse,
    v: &Value,
    rep: &[Part],
    collect: bool,
    fuel: u64,
) -> (r: Result<Value, Error>)
    ensures
        res_view(r) == crate::eval::eval_rec_v(
            ctx@,
            doc_view_of(doc),
            *bounds,
            v@,
            view_parts(rep@),
            collect,
            0,
            Seq::empty(),
            fuel as nat,
        ),
    decreases fuel, crate::part::psize_seq(view_parts(rep@)) + 1, 0nat, 0nat,
{
    proof {
        lemma_view_values(Seq::<Value>::empty());
    }
    let ghost dv = doc_view_of(doc);
    let ghost repv = view_parts(rep@);
    let ghost fuel0 = fuel as nat;
    proof {
        assert(view_values(Seq::<Value>::empty()) =~= Seq::<ValueV>::empty());
    }
    let mut current = v.duplicate();
    let mut iterated: u64 = 0;
    let mut acc: Vec<Value> = Vec::new();
    let mut fuel_now = fuel;
    loop
        invariant
            fuel_now <= fuel,
            fuel0 == fuel as nat,
            repv == view_parts(rep@),
            dv == doc_view_of(doc),
            crate::eval::eval_rec_v(
                ctx@,
                dv,
                *bounds,
                current@,
                repv,
                collect,
                iterated,
                view_values(acc@),
                fuel_now as nat,
            ) == crate::eval::eval_rec_v(
                ctx@,
                dv,
                *bounds,
                v@,
                repv,
                collect,
                0,
                Seq::empty(),
                fuel0,
            ),
        decreases fuel_now,
    {
        let maxed = (match bounds.max {
            Option::Some(m) => iterated >= m,
            Option::None => false,
        });
        if maxed {
            return (if collect {
                Result::Ok(Value::Array(acc))
            } else {
                Result::Ok(current)
            });
        }
        let stepped = (match get_at(ctx, opt, doc, &current, rep, fuel_now) {
            Result::Err(e) => {
                return Result::Err(e);
            },
            Result::Ok(s) => s,
        });
        if stepped.is_final() {
            if iterated < bounds.min {
                return Result::Err(Error::RecursionMinimumNotReached);
            } else {
                return (if collect {
                    Result::Ok(Value::Array(acc))
                } else {
                    Result::Ok(current)
                });
            }
        }
        if fuel_now == 0 || iterated == u64::MAX {
            return Result::Err(Error::ComputationDepthExceeded);
        }
        let kept = stepped.duplicate();
        proof {
            lemma_view_values(acc@.push(kept));
            assert(view_values(acc@.push(kept)) == view_values(acc@.push(kept).drop_last()).push(
                kept@,
            ));
            assert(acc@.push(kept).drop_last() =~= acc@);
        }
        acc.push(kept);
        current = stepped;
        iterated = iterated + 1;
        fuel_now = fuel_now - 1;
    }
}

} // verus!
