//! The read-only surroundings of an evaluation: the depth budget, the record
//! store and edge store standing behind the record fetcher, the options
//! snapshot, the current document, and the expression interpreter used by
//! predicates, computed indices and futures.
use vstd::prelude::*;

use crate::value::{
    Dir, Entry, Expr, ExprEntry, ExprV, FieldV, Thing, ThingV, Value, ValueV, dup_entries, eq_thing,
    lemma_view_entries, lookup, lookup_field, view_entries,
};

verus! {

/// One stored record: its id and its content fields.
#[derive(PartialEq, Eq, Debug)]
pub struct Record {
    pub id: Thing,
    pub content: Vec<Entry>,
}

/// One stored graph edge: source record, direction, edge table, and the id
/// of the edge record itself.
#[derive(PartialEq, Eq, Debug)]
pub struct EdgeRow {
    pub from: Thing,
    pub dir: Dir,
    pub tb: String,
    pub id: Thing,
}

/// The evaluation context: the configured depth budget and the stores the
/// record fetcher selects from.
#[derive(PartialEq, Eq, Debug)]
pub struct Context {
    pub max_computation_depth: u64,
    pub records: Vec<Record>,
    pub edges: Vec<EdgeRow>,
}

/// The options snapshot; futures are computed only under an options value
/// with `futures` set.
#[derive(PartialEq, Eq, Structural, Clone, Copy, Debug)]
pub struct Options {
    pub futures: bool,
}

impl Options {
    /// A fresh options value with futures disabled.
    pub fn new() -> (r: Options)
        ensures
            r.futures == false,
    {
        Options { futures: false }
    }

    /// The same options with the futures flag set as given.
    pub fn new_with_futures(&self, futures: bool) -> (r: Options)
        ensures
            r.futures == futures,
    {
        Options { futures }
    }
}

/// The current document: its record id, if it has one, and its value.
#[derive(PartialEq, Eq, Debug)]
pub struct CursorDoc {
    pub rid: Option<Thing>,
    pub doc: Value,
}

// ---------------------------------------------------------------------------
// Views
// ---------------------------------------------------------------------------

pub struct RecordV {
    pub id: ThingV,
    pub content: Seq<FieldV>,
}

pub struct EdgeRowV {
    pub from: ThingV,
    pub dir: Dir,
    pub tb: Seq<char>,
    pub id: ThingV,
}

pub struct ContextV {
    pub max_computation_depth: u64,
    pub records: Seq<RecordV>,
    pub edges: Seq<EdgeRowV>,
}

pub struct CursorDocV {
    pub rid: Option<ThingV>,
    pub doc: ValueV,
}

impl View for Record {
    type V = RecordV;

    open spec fn view(&self) -> RecordV {
        RecordV { id: self.id@, content: view_entries(self.content@) }
    }
}

impl View for EdgeRow {
    type V = EdgeRowV;

    open spec fn view(&self) -> EdgeRowV {
        EdgeRowV { from: self.from@, dir: self.dir, tb: self.tb@, id: self.id@ }
    }
}

impl View for Context {
    type V = ContextV;

    open spec fn view(&self) -> ContextV {
        ContextV {
            max_computation_depth: self.max_computation_depth,
            records: view_records(self.records@),
            edges: view_edges(self.edges@),
        }
    }
}

impl View for CursorDoc {
    type V = CursorDocV;

    open spec fn view(&self) -> CursorDocV {
        CursorDocV {
            rid: match self.rid {
                Option::Some(t) => Option::Some(t@),
                Option::None => Option::None,
            },
            doc: self.doc@,
        }
    }
}

pub open spec fn view_records(s: Seq<Record>) -> Seq<RecordV>
    decreases s,
{
    if s.len() == 0 {
        Seq::empty()
    } else {
        view_records(s.drop_last()).push(s.last()@)
    }
}

pub open spec fn view_edges(s: Seq<EdgeRow>) -> Seq<EdgeRowV>
    decreases s,
{
    if s.len() == 0 {
        Seq::empty()
    } else {
        view_edges(s.drop_last()).push(s.last()@)
    }
}

/// The views of a sequence of records, element by element.
pub broadcast proof fn lemma_view_records(s: Seq<Record>)
    ensures
        (#[trigger] view_records(s)).len() == s.len(),
        forall|i: int| 0 <= i < s.len() ==> view_records(s)[i] == #[trigger] s[i]@,
    decreases s,
{
    if s.len() > 0 {
        lemma_view_records(s.drop_last());
        assert(view_records(s) == view_records(s.drop_last()).push(s.last()@));
        assert forall|i: int| 0 <= i < s.len() implies view_records(s)[i] == #[trigger] s[i]@ by {
            if i < s.len() - 1 {
                assert(view_records(s)[i] == view_records(s.drop_last())[i]);
                assert(s.drop_last()[i] == s[i]);
            } else {
                assert(s[i] == s.last());
            }
        }
    }
}

/// The views of a sequence of edges, element by element.
pub broadcast proof fn lemma_view_edges(s: Seq<EdgeRow>)
    ensures
        (#[trigger] view_edges(s)).len() == s.len(),
        forall|i: int| 0 <= i < s.len() ==> view_edges(s)[i] == #[trigger] s[i]@,
    decreases s,
{
    if s.len() > 0 {
        lemma_view_edges(s.drop_last());
        assert(view_edges(s) == view_edges(s.drop_last()).push(s.last()@));
        assert forall|i: int| 0 <= i < s.len() implies view_edges(s)[i] == #[trigger] s[i]@ by {
            if i < s.len() - 1 {
                assert(view_edges(s)[i] == view_edges(s.drop_last())[i]);
                assert(s.drop_last()[i] == s[i]);
            } else {
                assert(s[i] == s.last());
            }
        }
    }
}

// ---------------------------------------------------------------------------
// The record fetcher: selecting a record by id, and selecting edge rows.
// ---------------------------------------------------------------------------

/// What selecting one record by id returns: the content object of the first
/// record with that id, or absence.
pub open spec fn fetch_v(records: Seq<RecordV>, t: ThingV) -> ValueV
    decreases records,
{
    if records.len() == 0 {
        ValueV::Nothing
    } else if records.first().id == t {
        ValueV::Object(records.first().content)
    } else {
        fetch_v(records.drop_first(), t)
    }
}

proof fn lemma_fetch_skip(records: Seq<RecordV>, t: ThingV, i: int)
    requires
        0 <= i <= records.len(),
        forall|j: int| 0 <= j < i ==> (#[trigger] records[j].id) != t,
    ensures
        fetch_v(records, t) == fetch_v(records.skip(i), t),
    decreases i,
{
    if i == 0 {
        assert(records.skip(0) =~= records);
    } else {
        lemma_fetch_skip(records, t, i - 1);
        let s = records.skip(i - 1);
        assert(s.len() == records.len() - i + 1);
        assert(s.first() == records[i - 1]);
        assert(records[i - 1].id != t);
        assert(fetch_v(s, t) == fetch_v(s.drop_first(), t));
        assert(s.drop_first() =~= records.skip(i));
    }
}

impl Context {
    /// A fresh context: the default depth budget and empty stores.
    pub fn new() -> (r: Context)
        ensures
            r@.max_computation_depth == 120,
            r@.records.len() == 0,
            r@.edges.len() == 0,
    {
        let r = Context { max_computation_depth: 120, records: Vec::new(), edges: Vec::new() };
        proof {
            lemma_view_records(r.records@);
            lemma_view_edges(r.edges@);
        }
        r
    }

    /// Selects one record by id, as `fetch_v` states it.
    pub fn fetch_record(&self, t: &Thing) -> (r: Value)
        ensures
            r@ == fetch_v(self@.records, t@),
    {
        proof {
            lemma_view_records(self.records@);
        }
        let ghost rs = view_records(self.records@);
        let n = self.records.len();
        for i in 0..n
            invariant
                n == self.records@.len(),
                rs == view_records(self.records@),
                rs.len() == n,
                forall|j: int| 0 <= j < i ==> (#[trigger] rs[j].id) != t@,
        {
            proof {
                lemma_view_records(self.records@);
                assert(rs[i as int] == self.records@[i as int]@);
            }
            if eq_thing(&self.records[i].id, t) {
                proof {
                    lemma_fetch_skip(rs, t@, i as int);
                    assert(rs.skip(i as int).first() == rs[i as int]);
                }
                return Value::Object(dup_entries(&self.records[i].content));
            }
        }
        proof {
            lemma_fetch_skip(rs, t@, n as int);
            assert(rs.skip(n as int).len() == 0);
        }
        Value::Nothing
    }
}

/// Whether one stored edge answers a traversal from `from` in direction
/// `dir` over the edge table `what`.
pub open spec fn edge_matches(e: EdgeRowV, from: ThingV, dir: Dir, what: Seq<char>) -> bool {
    e.from == from && e.dir == dir && e.tb == what
}

/// The ids of the edge records answering a traversal, in store order.
pub open spec fn graph_ids(edges: Seq<EdgeRowV>, from: ThingV, dir: Dir, what: Seq<char>) -> Seq<
    ThingV,
>
    decreases edges,
{
    if edges.len() == 0 {
        Seq::empty()
    } else {
        let rest = graph_ids(edges.drop_first(), from, dir, what);
        if edge_matches(edges.first(), from, dir, what) {
            seq![edges.first().id] + rest
        } else {
            rest
        }
    }
}

proof fn lemma_graph_ids_skip(
    edges: Seq<EdgeRowV>,
    from: ThingV,
    dir: Dir,
    what: Seq<char>,
    i: int,
    acc: Seq<ThingV>,
)
    requires
        0 <= i < edges.len(),
    ensures
        acc + graph_ids(edges.skip(i), from, dir, what) == (if edge_matches(
            edges[i],
            from,
            dir,
            what,
        ) {
            acc.push(edges[i].id)
        } else {
            acc
        }) + graph_ids(edges.skip(i + 1), from, dir, what),
{
    let s = edges.skip(i);
    assert(s.first() == edges[i]);
    assert(s.drop_first() =~= edges.skip(i + 1));
    if edge_matches(edges[i], from, dir, what) {
        assert(graph_ids(s, from, dir, what) == seq![edges[i].id] + graph_ids(
            edges.skip(i + 1),
            from,
            dir,
            what,
        ));
        assert(acc + (seq![edges[i].id] + graph_ids(edges.skip(i + 1), from, dir, what))
            =~= acc.push(edges[i].id) + graph_ids(edges.skip(i + 1), from, dir, what));
    } else {
        assert(graph_ids(s, from, dir, what) == graph_ids(edges.skip(i + 1), from, dir, what));
    }
}

impl Context {
    /// Selects the edge records answering a traversal, in store order, as
    /// `graph_ids` states it.
    pub fn select_graph_ids(&self, from: &Thing, dir: Dir, what: &String) -> (r: Vec<Thing>)
        ensures
            crate::value::view_things(r@) == graph_ids(self@.edges, from@, dir, what@),
    {
        proof {
            lemma_view_edges(self.edges@);
            crate::value::lemma_view_things(Seq::<Thing>::empty());
        }
        let ghost es = view_edges(self.edges@);
        let ghost goal = graph_ids(es, from@, dir, what@);
        let mut out: Vec<Thing> = Vec::new();
        let n = self.edges.len();
        proof {
            assert(es.skip(0) =~= es);
            assert(crate::value::view_things(out@) + graph_ids(es.skip(0), from@, dir, what@)
                =~= goal);
        }
        for i in 0..n
            invariant
                n == self.edges@.len(),
                es == view_edges(self.edges@),
                es.len() == n,
                goal == graph_ids(es, from@, dir, what@),
                crate::value::view_things(out@) + graph_ids(es.skip(i as int), from@, dir, what@)
                    == goal,
        {
            proof {
                lemma_view_edges(self.edges@);
                assert(es[i as int] == self.edges@[i as int]@);
                lemma_graph_ids_skip(es, from@, dir, what@, i as int, crate::value::view_things(out@));
            }
            let e = &self.edges[i];
            let matches_from = eq_thing(&e.from, from);
            let matches_dir = e.dir == dir;
            let matches_tb = e.tb == *what;
            if matches_from && matches_dir && matches_tb {
                let d = e.id.duplicate();
                proof {
                    crate::value::lemma_view_things(out@.push(d));
                    assert(crate::value::view_things(out@.push(d)) == crate::value::view_things(
                        out@.push(d).drop_last(),
                    ).push(d@));
                    assert(out@.push(d).drop_last() =~= out@);
                }
                out.push(d);
            }
        }
        proof {
            assert(es.skip(n as int).len() == 0);
            assert(crate::value::view_things(out@) + graph_ids(
                es.skip(n as int),
                from@,
                dir,
                what@,
            ) =~= crate::value::view_things(out@));
        }
        out
    }
}

/// Computes the fields of an object constructor, as `compute_obj_v` states
/// it.
pub fn compute_obj(entries: &Vec<ExprEntry>, opt: &Options, doc: Option<&CursorDoc>) -> (r: Vec<Entry>)
    ensures
        view_entries(r@) == compute_obj_v(
            crate::value::view_expr_entries(entries@),
            doc_view_of(doc),
        ),
    decreases entries,
{
    proof {
        crate::value::lemma_view_expr_entries(entries@);
    }
    let ghost evs = crate::value::view_expr_entries(entries@);
    let mut out: Vec<Entry> = Vec::new();
    let n = entries.len();
    for i in 0..n
        invariant
            n == entries@.len(),
            evs == crate::value::view_expr_entries(entries@),
            evs.len() == n,
            view_entries(out@) == compute_obj_v(evs.subrange(0, i as int), doc_view_of(doc)),
    {
        proof {
            crate::value::lemma_view_expr_entries(entries@);
            assert(evs[i as int] == (entries@[i as int].key@, entries@[i as int].expr@));
        }
        let en = &entries[i];
        let v = compute(&en.expr, opt, doc);
        let newe = Entry { key: en.key.clone(), val: v };
        proof {
            lemma_view_entries(out@.push(newe));
            assert(view_entries(out@.push(newe)) == view_entries(out@.push(newe).drop_last()).push(
                FieldV { key: newe.key@, val: newe.val@ },
            ));
            assert(out@.push(newe).drop_last() =~= out@);
            assert(evs.subrange(0, i + 1).drop_last() =~= evs.subrange(0, i as int));
            assert(evs.subrange(0, i + 1).last() == evs[i as int]);
        }
        out.push(newe);
    }
    proof {
        assert(evs.subrange(0, n as int) =~= evs);
    }
    out
}

} // verus!

verus! {

/// The rows a selection over edge ids returns: the content object of each
/// id's record, in order, skipping ids without a record.
pub open spec fn rows_of(records: Seq<RecordV>, ids: Seq<ThingV>) -> Seq<ValueV>
    decreases ids,
{
    if ids.len() == 0 {
        Seq::empty()
    } else {
        let rest = rows_of(records, ids.drop_first());
        match fetch_v(records, ids.first()) {
            ValueV::Object(fs) => seq![ValueV::Object(fs)] + rest,
            _ => rest,
        }
    }
}

proof fn lemma_rows_of_skip(records: Seq<RecordV>, ids: Seq<ThingV>, i: int, acc: Seq<ValueV>)
    requires
        0 <= i < ids.len(),
    ensures
        acc + rows_of(records, ids.skip(i)) == (match fetch_v(records, ids[i]) {
            ValueV::Object(fs) => acc.push(ValueV::Object(fs))
        ,
            _ => acc,
        }) + rows_of(records, ids.skip(i + 1)),
{
    let s = ids.skip(i);
    assert(s.first() == ids[i]);
    assert(s.drop_first() =~= ids.skip(i + 1));
    match fetch_v(records, ids[i]) {
        ValueV::Object(fs) => {
            assert(rows_of(records, s) == seq![ValueV::Object(fs)] + rows_of(
                records,
                ids.skip(i + 1),
            ));
            assert(acc + (seq![ValueV::Object(fs)] + rows_of(records, ids.skip(i + 1)))
                =~= acc.push(ValueV::Object(fs)) + rows_of(records, ids.skip(i + 1)));
        },
        _ => {
            assert(rows_of(records, s) == rows_of(records, ids.skip(i + 1)));
        },
    }
}

impl Context {
    /// Materializes the records behind a list of ids, as `rows_of` states it.
    pub fn fetch_rows(&self, ids: &Vec<Thing>) -> (r: Vec<Value>)
        ensures
            crate::value::view_values(r@) == rows_of(self@.records, crate::value::view_things(ids@)),
    {
        proof {
            crate::value::lemma_view_things(ids@);
            crate::value::lemma_view_values(Seq::<Value>::empty());
        }
        let ghost tids = crate::value::view_things(ids@);
        let ghost goal = rows_of(self@.records, tids);
        let mut out: Vec<Value> = Vec::new();
        let n = ids.len();
        proof {
            assert(tids.skip(0) =~= tids);
            assert(crate::value::view_values(out@) + rows_of(self@.records, tids.skip(0)) =~= goal);
        }
        for i in 0..n
            invariant
                n == ids@.len(),
                tids == crate::value::view_things(ids@),
                tids.len() == n,
                goal == rows_of(self@.records, tids),
                crate::value::view_values(out@) + rows_of(self@.records, tids.skip(i as int))
                    == goal,
        {
            proof {
                crate::value::lemma_view_things(ids@);
                assert(tids[i as int] == ids@[i as int]@);
                lemma_rows_of_skip(
                    self@.records,
                    tids,
                    i as int,
                    crate::value::view_values(out@),
                );
            }
            let row = self.fetch_record(&ids[i]);
            let keep = match &row {
                Value::Object(_) => true,
                _ => false,
            };
            proof {
                crate::value::lemma_value_view_variant(&row);
            }
            if keep {
                proof {
                    crate::value::lemma_view_values(out@.push(row));
                    assert(crate::value::view_values(out@.push(row))
                        == crate::value::view_values(out@.push(row).drop_last()).push(row@));
                    assert(out@.push(row).drop_last() =~= out@);
                }
                out.push(row);
            }
        }
        proof {
            assert(tids.skip(n as int).len() == 0);
            assert(crate::value::view_values(out@) + rows_of(self@.records, tids.skip(n as int))
                =~= crate::value::view_values(out@));
        }
        out
    }
}

// ---------------------------------------------------------------------------
// The expression interpreter: total, and independent of the evaluator.
// ---------------------------------------------------------------------------

/// The view of an optional current document.
pub open spec fn doc_view_of(doc: Option<&CursorDoc>) -> Option<CursorDocV> {
    match doc {
        Option::Some(d) => Option::Some(d@),
        Option::None => Option::None,
    }
}

/// What an expression computes against the current document: literals stand
/// for themselves, a field reference reads the document object, an object
/// constructor computes each field, and a comparison holds of two numbers.
pub open spec fn compute_v(e: ExprV, doc: Option<CursorDocV>) -> ValueV
    decreases e,
{
    match e {
        ExprV::Literal(v) => v,
        ExprV::FieldRef(name) => match doc {
            Option::Some(d) => match d.doc {
                ValueV::Object(fs) => match lookup_field(fs, name) {
                    Option::Some(v) => v,
                    Option::None => ValueV::Nothing,
                },
                _ => ValueV::Nothing,
            },
            Option::None => ValueV::Nothing,
        },
        ExprV::Obj(entries) => ValueV::Object(compute_obj_v(entries, doc)),
        ExprV::Gt(a, b) => match (compute_v(*a, doc), compute_v(*b, doc)) {
            (ValueV::Number(x), ValueV::Number(y)) => ValueV::Bool(x > y),
            _ => ValueV::Nothing,
        },
    }
}

/// The fields an object constructor computes, in order.
pub open spec fn compute_obj_v(es: Seq<(Seq<char>, ExprV)>, doc: Option<CursorDocV>) -> Seq<FieldV>
    decreases es,
{
    if es.len() == 0 {
        Seq::empty()
    } else {
        compute_obj_v(es.drop_last(), doc).push(
            FieldV { key: es.last().0, val: compute_v(es.last().1, doc) },
        )
    }
}

/// Computes an expression against the current document, as `compute_v`
/// states it; the options snapshot is carried for the collaborators'
/// interfaces and does not change what an expression means.
pub fn compute(e: &Expr, opt: &Options, doc: Option<&CursorDoc>) -> (r: Value)
    ensures
        r@ == compute_v(e@, doc_view_of(doc)),
    decreases e,
{
    match e {
        Expr::Literal(v) => v.duplicate(),
        Expr::FieldRef(name) => {
            match doc {
                Option::Some(d) => {
                    match &d.doc {
                        Value::Object(es) => {
                            match lookup(es, name) {
                                Option::Some(v) => v.duplicate(),
                                Option::None => Value::Nothing,
                            }
                        },
                        other => {
                            proof {
                                crate::value::lemma_value_view_variant(other);
                            }
                            Value::Nothing
                        },
                    }
                },
                Option::None => Value::Nothing,
            }
        },
        Expr::Obj(entries) => Value::Object(compute_obj(entries, opt, doc)),
        Expr::Gt(a, b) => {
            let va = compute(a, opt, doc);
            let vb = compute(b, opt, doc);
            match (&va, &vb) {
                (Value::Number(x), Value::Number(y)) => Value::Bool(*x > *y),
                _ => {
                    proof {
                        crate::value::lemma_value_view_variant(&va);
                        crate::value::lemma_value_view_variant(&vb);
                    }
                    Value::Nothing
                },
            }
        },
    }
}

} // verus!
