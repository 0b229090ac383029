//! The value tree: a closed sum type for database values, with a
//! mathematical view (`ValueV`) used by every contract in the crate.
use vstd::prelude::*;

verus! {

/// Direction of a graph traversal.
#[derive(Clone, Copy, PartialEq, Eq, Structural, Debug)]
pub enum Dir {
    In,
    Out,
    Both,
}

/// One field of an object: a key and the value stored under it.
#[derive(PartialEq, Eq, Debug)]
pub struct Entry {
    pub key: String,
    pub val: Value,
}

/// The identifier payload of a record reference: a primitive, an array,
/// or an object.
#[derive(PartialEq, Eq, Debug)]
pub enum Id {
    Number(i64),
    Strand(String),
    Array(Vec<Value>),
    Object(Vec<Entry>),
}

/// A record reference: a table name and an identifier within the table.
#[derive(PartialEq, Eq, Debug)]
pub struct Thing {
    pub tb: String,
    pub id: Id,
}

/// A graph traversal descriptor bound to a source record.
#[derive(PartialEq, Eq, Debug)]
pub struct Edges {
    pub from: Thing,
    pub dir: Dir,
    pub what: String,
}

/// A database value: the tagged union the evaluator walks over.
#[derive(PartialEq, Eq, Debug)]
pub enum Value {
    /// Absence of a value; most steps on it descend as absence.
    Nothing,
    /// An explicit null.
    Null,
    Bool(bool),
    Number(i64),
    Strand(String),
    /// A half-open integer range, used to slice arrays.
    Range(i64, i64),
    Array(Vec<Value>),
    Object(Vec<Entry>),
    Thing(Thing),
    Edges(Edges),
    /// A deferred expression, opaque until a path continues beyond it.
    Future(Box<Expr>),
    /// A deferred reference list, materialized before any descent.
    Refs(Vec<Thing>),
}

/// An expression, as used by `Where` predicates, `Value` steps and futures.
#[derive(PartialEq, Eq, Debug)]
pub enum Expr {
    /// A literal value.
    Literal(Value),
    /// The named field of the current document.
    FieldRef(String),
    /// An object constructor: each field is computed from an expression.
    Obj(Vec<ExprEntry>),
    /// A numeric greater-than comparison.
    Gt(Box<Expr>, Box<Expr>),
}

/// One field of an object constructor expression.
#[derive(PartialEq, Eq, Debug)]
pub struct ExprEntry {
    pub key: String,
    pub expr: Expr,
}

// ---------------------------------------------------------------------------
// The mathematical view of the types above. `Seq`/`Seq<char>` replace
// `Vec`/`String`, so equality of views is structural.
// ---------------------------------------------------------------------------

pub struct FieldV {
    pub key: Seq<char>,
    pub val: ValueV,
}

pub enum IdV {
    Number(i64),
    Strand(Seq<char>),
    Array(Seq<ValueV>),
    Object(Seq<FieldV>),
}

pub struct ThingV {
    pub tb: Seq<char>,
    pub id: IdV,
}

pub struct EdgesV {
    pub from: ThingV,
    pub dir: Dir,
    pub what: Seq<char>,
}

pub enum ValueV {
    Nothing,
    Null,
    Bool(bool),
    Number(i64),
    Strand(Seq<char>),
    Range(i64, i64),
    Array(Seq<ValueV>),
    Object(Seq<FieldV>),
    Thing(ThingV),
    Edges(EdgesV),
    Future(Box<ExprV>),
    Refs(Seq<ThingV>),
}

pub enum ExprV {
    Literal(ValueV),
    FieldRef(Seq<char>),
    Obj(Seq<(Seq<char>, ExprV)>),
    Gt(Box<ExprV>, Box<ExprV>),
}

impl View for Value {
    type V = ValueV;

    open spec fn view(&self) -> ValueV
        decreases self,
    {
        match self {
            Value::Nothing => ValueV::Nothing,
            Value::Null => ValueV::Null,
            Value::Bool(b) => ValueV::Bool(*b),
            Value::Number(n) => ValueV::Number(*n),
            Value::Strand(s) => ValueV::Strand(s@),
            Value::Range(a, b) => ValueV::Range(*a, *b),
            Value::Array(xs) => ValueV::Array(view_values(xs@)),
            Value::Object(es) => ValueV::Object(view_entries(es@)),
            Value::Thing(t) => ValueV::Thing(t@),
            Value::Edges(e) => ValueV::Edges(e@),
            Value::Future(x) => ValueV::Future(Box::new((**x)@)),
            Value::Refs(ts) => ValueV::Refs(view_things(ts@)),
        }
    }
}

pub open spec fn view_values(s: Seq<Value>) -> Seq<ValueV>
    decreases s,
{
    if s.len() == 0 {
        Seq::empty()
    } else {
        view_values(s.drop_last()).push(s.last()@)
    }
}

pub open spec fn view_entries(s: Seq<Entry>) -> Seq<FieldV>
    decreases s,
{
    if s.len() == 0 {
        Seq::empty()
    } else {
        view_entries(s.drop_last()).push(FieldV { key: s.last().key@, val: s.last().val@ })
    }
}

pub open spec fn view_things(s: Seq<Thing>) -> Seq<ThingV>
    decreases s,
{
    if s.len() == 0 {
        Seq::empty()
    } else {
        view_things(s.drop_last()).push(s.last()@)
    }
}

/// The views of a sequence of values, element by element.
pub broadcast proof fn lemma_view_values(s: Seq<Value>)
    ensures
        (#[trigger] view_values(s)).len() == s.len(),
        forall|i: int| 0 <= i < s.len() ==> view_values(s)[i] == #[trigger] s[i]@,
    decreases s,
{
    if s.len() == 0 {
        assert(view_values(s) == Seq::<ValueV>::empty());
    } else {
        lemma_view_values(s.drop_last());
        assert(view_values(s) == view_values(s.drop_last()).push(s.last()@));
        assert(view_values(s).len() == s.len());
        assert forall|i: int| 0 <= i < s.len() implies view_values(s)[i] == #[trigger] s[i]@ by {
            if i < s.len() - 1 {
                assert(view_values(s)[i] == view_values(s.drop_last())[i]);
                assert(s.drop_last()[i] == s[i]);
            } else {
                assert(view_values(s)[i] == s.last()@);
            }
        }
    }
}

/// The views of a sequence of object fields, element by element.
pub broadcast proof fn lemma_view_entries(s: Seq<Entry>)
    ensures
        (#[trigger] view_entries(s)).len() == s.len(),
        forall|i: int|
            0 <= i < s.len() ==> view_entries(s)[i] == (FieldV {
                key: #[trigger] s[i].key@,
                val: s[i].val@,
            }),
    decreases s,
{
    if s.len() > 0 {
        lemma_view_entries(s.drop_last());
        assert(view_entries(s) == view_entries(s.drop_last()).push(
            FieldV { key: s.last().key@, val: s.last().val@ },
        ));
        assert forall|i: int|
            0 <= i < s.len() implies view_entries(s)[i] == (FieldV {
            key: #[trigger] s[i].key@,
            val: s[i].val@,
        }) by {
            if i < s.len() - 1 {
                assert(view_entries(s)[i] == view_entries(s.drop_last())[i]);
                assert(s.drop_last()[i] == s[i]);
            } else {
                assert(s[i] == s.last());
            }
        }
    }
}

/// The views of a sequence of record references, element by element.
pub broadcast proof fn lemma_view_things(s: Seq<Thing>)
    ensures
        (#[trigger] view_things(s)).len() == s.len(),
        forall|i: int| 0 <= i < s.len() ==> view_things(s)[i] == #[trigger] s[i]@,
    decreases s,
{
    if s.len() > 0 {
        lemma_view_things(s.drop_last());
        assert(view_things(s) == view_things(s.drop_last()).push(s.last()@));
        assert forall|i: int| 0 <= i < s.len() implies view_things(s)[i] == #[trigger] s[i]@ by {
            if i < s.len() - 1 {
                assert(view_things(s)[i] == view_things(s.drop_last())[i]);
                assert(s.drop_last()[i] == s[i]);
            } else {
                assert(s[i] == s.last());
            }
        }
    }
}

impl View for Id {
    type V = IdV;

    open spec fn view(&self) -> IdV
        decreases self,
    {
        match self {
            Id::Number(n) => IdV::Number(*n),
            Id::Strand(s) => IdV::Strand(s@),
            Id::Array(xs) => IdV::Array(view_values(xs@)),
            Id::Object(es) => IdV::Object(view_entries(es@)),
        }
    }
}

impl View for Thing {
    type V = ThingV;

    open spec fn view(&self) -> ThingV
        decreases self,
    {
        ThingV { tb: self.tb@, id: self.id@ }
    }
}

impl View for Edges {
    type V = EdgesV;

    open spec fn view(&self) -> EdgesV
        decreases self,
    {
        EdgesV { from: self.from@, dir: self.dir, what: self.what@ }
    }
}

impl View for Expr {
    type V = ExprV;

    open spec fn view(&self) -> ExprV
        decreases self,
    {
        match self {
            Expr::Literal(v) => ExprV::Literal(v@),
            Expr::FieldRef(s) => ExprV::FieldRef(s@),
            Expr::Obj(es) => ExprV::Obj(view_expr_entries(es@)),
            Expr::Gt(a, b) => ExprV::Gt(Box::new((**a)@), Box::new((**b)@)),
        }
    }
}

pub open spec fn view_expr_entries(s: Seq<ExprEntry>) -> Seq<(Seq<char>, ExprV)>
    decreases s,
{
    if s.len() == 0 {
        Seq::empty()
    } else {
        view_expr_entries(s.drop_last()).push((s.last().key@, s.last().expr@))
    }
}

/// The views of a sequence of object-constructor fields, element by element.
pub broadcast proof fn lemma_view_expr_entries(s: Seq<ExprEntry>)
    ensures
        (#[trigger] view_expr_entries(s)).len() == s.len(),
        forall|i: int|
            0 <= i < s.len() ==> view_expr_entries(s)[i] == (#[trigger] s[i].key@, s[i].expr@),
    decreases s,
{
    if s.len() > 0 {
        lemma_view_expr_entries(s.drop_last());
        assert(view_expr_entries(s) == view_expr_entries(s.drop_last()).push(
            (s.last().key@, s.last().expr@),
        ));
        assert forall|i: int|
            0 <= i < s.len() implies view_expr_entries(s)[i] == (
        #[trigger] s[i].key@,
        s[i].expr@,
        ) by {
            if i < s.len() - 1 {
                assert(view_expr_entries(s)[i] == view_expr_entries(s.drop_last())[i]);
                assert(s.drop_last()[i] == s[i]);
            } else {
                assert(s[i] == s.last());
            }
        }
    }
}

} // verus!

verus! {

// ---------------------------------------------------------------------------
// Size measures, used as termination measures by the evaluator.
// ---------------------------------------------------------------------------

/// The size of a value: every value counts at least 1; containers add the
/// sizes of their members and count 2 themselves, so a member is always
/// strictly smaller than its container.
pub open spec fn vsize(v: ValueV) -> nat
    decreases v,
{
    match v {
        ValueV::Array(xs) => 2 + vsize_seq(xs),
        ValueV::Object(fs) => 2 + vsize_fields(fs),
        _ => 1,
    }
}

pub open spec fn vsize_seq(s: Seq<ValueV>) -> nat
    decreases s,
{
    if s.len() == 0 {
        0
    } else {
        vsize(s.first()) + vsize_seq(s.drop_first())
    }
}

pub open spec fn vsize_fields(s: Seq<FieldV>) -> nat
    decreases s,
{
    if s.len() == 0 {
        0
    } else {
        vsize(s.first().val) + vsize_fields(s.drop_first())
    }
}

pub broadcast proof fn lemma_vsize_pos(v: ValueV)
    ensures
        #[trigger] vsize(v) >= 1,
{
}

/// An element of a sequence never outweighs the whole sequence.
pub proof fn lemma_vsize_seq_index(s: Seq<ValueV>, i: int)
    requires
        0 <= i < s.len(),
    ensures
        vsize(s[i]) <= vsize_seq(s),
    decreases s,
{
    if i == 0 {
        assert(s[0] == s.first());
    } else {
        lemma_vsize_seq_index(s.drop_first(), i - 1);
        assert(s.drop_first()[i - 1] == s[i]);
    }
}

// ---------------------------------------------------------------------------
// Truthiness
// ---------------------------------------------------------------------------

/// Which values count as true in a predicate position: booleans by their
/// payload, numbers when non-zero, strings and containers when non-empty,
/// absence and null never, everything else always.
pub open spec fn truthy(v: ValueV) -> bool {
    match v {
        ValueV::Nothing => false,
        ValueV::Null => false,
        ValueV::Bool(b) => b,
        ValueV::Number(n) => n != 0,
        ValueV::Strand(s) => s.len() != 0,
        ValueV::Range(_, _) => true,
        ValueV::Array(xs) => xs.len() != 0,
        ValueV::Object(fs) => fs.len() != 0,
        ValueV::Thing(_) => true,
        ValueV::Edges(_) => true,
        ValueV::Future(_) => true,
        ValueV::Refs(_) => true,
    }
}

impl Value {
    /// Decides truthiness, as `truthy` states it.
    pub fn is_truthy(&self) -> (r: bool)
        ensures
            r == truthy(self@),
    {
        match self {
            Value::Nothing => false,
            Value::Null => false,
            Value::Bool(b) => *b,
            Value::Number(n) => *n != 0,
            Value::Strand(s) => !s.as_str().is_empty(),
            Value::Range(_, _) => true,
            Value::Array(xs) => {
                proof {
                    lemma_view_values(xs@);
                }
                xs.len() != 0
            },
            Value::Object(fs) => {
                proof {
                    lemma_view_entries(fs@);
                }
                fs.len() != 0
            },
            Value::Thing(_) => true,
            Value::Edges(_) => true,
            Value::Future(_) => true,
            Value::Refs(_) => true,
        }
    }
}

/// A recursion step that produced one of these stops the iteration: absence,
/// null, or an empty collection.
pub open spec fn is_final_v(v: ValueV) -> bool {
    match v {
        ValueV::Nothing => true,
        ValueV::Null => true,
        ValueV::Array(xs) => xs.len() == 0,
        _ => false,
    }
}

impl Value {
    /// Decides whether a recursion step result is final, as `is_final_v`
    /// states it.
    pub fn is_final(&self) -> (r: bool)
        ensures
            r == is_final_v(self@),
    {
        match self {
            Value::Nothing => true,
            Value::Null => true,
            Value::Array(xs) => {
                proof {
                    lemma_view_values(xs@);
                }
                xs.len() == 0
            },
            _ => false,
        }
    }
}

} // verus!

verus! {

// ---------------------------------------------------------------------------
// Object field lookup
// ---------------------------------------------------------------------------

/// The value stored under the first field named `k`, if any.
pub open spec fn lookup_field(fs: Seq<FieldV>, k: Seq<char>) -> Option<ValueV>
    decreases fs,
{
    if fs.len() == 0 {
        Option::None
    } else if fs.first().key == k {
        Option::Some(fs.first().val)
    } else {
        lookup_field(fs.drop_first(), k)
    }
}

pub proof fn lemma_lookup_skip(fs: Seq<FieldV>, k: Seq<char>, i: int)
    requires
        0 <= i <= fs.len(),
        forall|j: int| 0 <= j < i ==> (#[trigger] fs[j].key) != k,
    ensures
        lookup_field(fs, k) == lookup_field(fs.skip(i), k),
    decreases i,
{
    if i == 0 {
        assert(fs.skip(0) =~= fs);
    } else {
        lemma_lookup_skip(fs, k, i - 1);
        let t = fs.skip(i - 1);
        assert(t.len() == fs.len() - i + 1);
        assert(t.first() == fs[i - 1]);
        assert(fs[i - 1].key != k);
        assert(lookup_field(t, k) == lookup_field(t.drop_first(), k));
        assert(t.drop_first() =~= fs.skip(i));
    }
}

/// Looks a key up among an object's fields; the first field with that key
/// wins, and a missing key yields nothing.
pub fn lookup<'a>(es: &'a Vec<Entry>, k: &String) -> (r: Option<&'a Value>)
    ensures
        match r {
            Option::Some(v) => lookup_field(view_entries(es@), k@) == Option::Some(v@),
            Option::None => lookup_field(view_entries(es@), k@) is None,
        },
{
    proof {
        lemma_view_entries(es@);
    }
    let ghost fs = view_entries(es@);
    let n = es.len();
    for i in 0..n
        invariant
            n == es.len(),
            fs == view_entries(es@),
            fs.len() == n,
            forall|j: int| 0 <= j < i ==> (#[trigger] fs[j].key) != k@,
    {
        proof {
            lemma_view_entries(es@);
            assert(fs[i as int].key == es@[i as int].key@);
            assert(fs[i as int].val == es@[i as int].val@);
        }
        if es[i].key == *k {
            proof {
                lemma_lookup_skip(fs, k@, i as int);
                assert(fs.skip(i as int).len() > 0);
                assert(fs.skip(i as int).first() == fs[i as int]);
                assert(lookup_field(fs, k@) == Option::Some(fs[i as int].val));
            }
            return Option::Some(&es[i].val);
        }
    }
    proof {
        lemma_lookup_skip(fs, k@, n as int);
        assert(fs.skip(n as int).len() == 0);
    }
    Option::None
}

/// The latent record id of an object: the `id` field, when it holds a
/// record reference.
pub open spec fn rid_of(fs: Seq<FieldV>) -> Option<ThingV> {
    match lookup_field(fs, seq!['i', 'd']) {
        Option::Some(ValueV::Thing(t)) => Option::Some(t),
        _ => Option::None,
    }
}

/// Decides whether a string is exactly the field name `id`.
pub fn is_id_key(k: &String) -> (r: bool)
    ensures
        r == (k@ == seq!['i', 'd']),
{
    let s = k.as_str();
    if s.unicode_len() == 2 {
        let r = s.get_char(0) == 'i' && s.get_char(1) == 'd';
        proof {
            if r {
                assert(k@ =~= seq!['i', 'd']);
            }
        }
        r
    } else {
        false
    }
}

} // verus!

verus! {

// ---------------------------------------------------------------------------
// Deep copy. The evaluator never mutates its input; results that reuse a part
// of the input carry a copy with the same view.
// ---------------------------------------------------------------------------

impl Value {
    /// A copy of the value with the same view.
    pub fn duplicate(&self) -> (r: Value)
        ensures
            r@ == self@,
        decreases self,
    {
        match self {
            Value::Nothing => Value::Nothing,
            Value::Null => Value::Null,
            Value::Bool(b) => Value::Bool(*b),
            Value::Number(n) => Value::Number(*n),
            Value::Strand(s) => Value::Strand(s.clone()),
            Value::Range(a, b) => Value::Range(*a, *b),
            Value::Array(xs) => Value::Array(dup_values(xs)),
            Value::Object(es) => Value::Object(dup_entries(es)),
            Value::Thing(t) => Value::Thing(t.duplicate()),
            Value::Edges(e) => Value::Edges(e.duplicate()),
            Value::Future(x) => Value::Future(Box::new((**x).duplicate())),
            Value::Refs(ts) => Value::Refs(dup_things(ts)),
        }
    }
}

/// Copies of a vector of values, element by element.
pub fn dup_values(xs: &Vec<Value>) -> (r: Vec<Value>)
    ensures
        view_values(r@) == view_values(xs@),
        r@.len() == xs@.len(),
    decreases xs,
{
    let mut out: Vec<Value> = Vec::new();
    let n = xs.len();
    for i in 0..n
        invariant
            n == xs.len(),
            out@.len() == i,
            forall|j: int| 0 <= j < i ==> (#[trigger] out@[j])@ == xs@[j]@,
    {
        out.push(xs[i].duplicate());
    }
    proof {
        lemma_view_values(out@);
        lemma_view_values(xs@);
        assert forall|j: int|
            0 <= j < out@.len() implies view_values(out@)[j] == view_values(xs@)[j] by {
            assert(view_values(out@)[j] == out@[j]@);
            assert(view_values(xs@)[j] == xs@[j]@);
        }
        assert(view_values(out@) =~= view_values(xs@));
    }
    out
}

/// Copies of a vector of object fields, element by element.
pub fn dup_entries(es: &Vec<Entry>) -> (r: Vec<Entry>)
    ensures
        view_entries(r@) == view_entries(es@),
        r@.len() == es@.len(),
    decreases es,
{
    let mut out: Vec<Entry> = Vec::new();
    let n = es.len();
    for i in 0..n
        invariant
            n == es.len(),
            out@.len() == i,
            forall|j: int|
                0 <= j < i ==> (#[trigger] out@[j]).key@ == es@[j].key@ && out@[j].val@
                    == es@[j].val@,
    {
        let e = &es[i];
        out.push(Entry { key: e.key.clone(), val: e.val.duplicate() });
    }
    proof {
        lemma_view_entries(out@);
        lemma_view_entries(es@);
        assert forall|j: int|
            0 <= j < out@.len() implies view_entries(out@)[j] == view_entries(es@)[j] by {
            assert(out@[j].key@ == es@[j].key@);
            assert(view_entries(out@)[j] == FieldV { key: out@[j].key@, val: out@[j].val@ });
            assert(view_entries(es@)[j] == FieldV { key: es@[j].key@, val: es@[j].val@ });
        }
        assert(view_entries(out@) =~= view_entries(es@));
    }
    out
}

/// Copies of a vector of record references, element by element.
pub fn dup_things(ts: &Vec<Thing>) -> (r: Vec<Thing>)
    ensures
        view_things(r@) == view_things(ts@),
        r@.len() == ts@.len(),
    decreases ts,
{
    let mut out: Vec<Thing> = Vec::new();
    let n = ts.len();
    for i in 0..n
        invariant
            n == ts.len(),
            out@.len() == i,
            forall|j: int| 0 <= j < i ==> (#[trigger] out@[j])@ == ts@[j]@,
    {
        out.push(ts[i].duplicate());
    }
    proof {
        lemma_view_things(out@);
        lemma_view_things(ts@);
        assert forall|j: int|
            0 <= j < out@.len() implies view_things(out@)[j] == view_things(ts@)[j] by {
            assert(view_things(out@)[j] == out@[j]@);
            assert(view_things(ts@)[j] == ts@[j]@);
        }
        assert(view_things(out@) =~= view_things(ts@));
    }
    out
}

impl Id {
    /// A copy of the identifier with the same view.
    pub fn duplicate(&self) -> (r: Id)
        ensures
            r@ == self@,
        decreases self,
    {
        match self {
            Id::Number(n) => Id::Number(*n),
            Id::Strand(s) => Id::Strand(s.clone()),
            Id::Array(xs) => Id::Array(dup_values(xs)),
            Id::Object(es) => Id::Object(dup_entries(es)),
        }
    }
}

impl Thing {
    /// A copy of the record reference with the same view.
    pub fn duplicate(&self) -> (r: Thing)
        ensures
            r@ == self@,
        decreases self,
    {
        Thing { tb: self.tb.clone(), id: self.id.duplicate() }
    }
}

impl Edges {
    /// A copy of the traversal descriptor with the same view.
    pub fn duplicate(&self) -> (r: Edges)
        ensures
            r@ == self@,
        decreases self,
    {
        Edges { from: self.from.duplicate(), dir: self.dir, what: self.what.clone() }
    }
}

impl Expr {
    /// A copy of the expression with the same view.
    pub fn duplicate(&self) -> (r: Expr)
        ensures
            r@ == self@,
        decreases self,
    {
        match self {
            Expr::Literal(v) => Expr::Literal(v.duplicate()),
            Expr::FieldRef(s) => Expr::FieldRef(s.clone()),
            Expr::Obj(es) => Expr::Obj(dup_expr_entries(es)),
            Expr::Gt(a, b) => Expr::Gt(Box::new((**a).duplicate()), Box::new((**b).duplicate())),
        }
    }
}

/// Copies of a vector of object-constructor fields, element by element.
pub fn dup_expr_entries(es: &Vec<ExprEntry>) -> (r: Vec<ExprEntry>)
    ensures
        view_expr_entries(r@) == view_expr_entries(es@),
        r@.len() == es@.len(),
    decreases es,
{
    let mut out: Vec<ExprEntry> = Vec::new();
    let n = es.len();
    for i in 0..n
        invariant
            n == es.len(),
            out@.len() == i,
            forall|j: int|
                0 <= j < i ==> (#[trigger] out@[j]).key@ == es@[j].key@ && out@[j].expr@
                    == es@[j].expr@,
    {
        let e = &es[i];
        out.push(ExprEntry { key: e.key.clone(), expr: e.expr.duplicate() });
    }
    proof {
        lemma_view_expr_entries(out@);
        lemma_view_expr_entries(es@);
        assert forall|j: int|
            0 <= j < out@.len() implies view_expr_entries(out@)[j] == view_expr_entries(es@)[j] by {
            assert(out@[j].key@ == es@[j].key@);
            assert(view_expr_entries(out@)[j] == (out@[j].key@, out@[j].expr@));
            assert(view_expr_entries(es@)[j] == (es@[j].key@, es@[j].expr@));
        }
        assert(view_expr_entries(out@) =~= view_expr_entries(es@));
    }
    out
}

} // verus!

verus! {

// ---------------------------------------------------------------------------
// Deep equality, decided on views.
// ---------------------------------------------------------------------------

/// Decides whether two values have the same view.
pub fn eq_value(a: &Value, b: &Value) -> (r: bool)
    ensures
        r == (a@ == b@),
    decreases a,
{
    match (a, b) {
        (Value::Nothing, Value::Nothing) => true,
        (Value::Null, Value::Null) => true,
        (Value::Bool(x), Value::Bool(y)) => *x == *y,
        (Value::Number(x), Value::Number(y)) => *x == *y,
        (Value::Strand(x), Value::Strand(y)) => *x == *y,
        (Value::Range(x1, x2), Value::Range(y1, y2)) => *x1 == *y1 && *x2 == *y2,
        (Value::Array(xs), Value::Array(ys)) => eq_values(xs, ys),
        (Value::Object(xs), Value::Object(ys)) => eq_entries(xs, ys),
        (Value::Thing(x), Value::Thing(y)) => eq_thing(x, y),
        (Value::Edges(x), Value::Edges(y)) => eq_edges(x, y),
        (Value::Future(x), Value::Future(y)) => eq_expr(x, y),
        (Value::Refs(x), Value::Refs(y)) => eq_things(x, y),
        _ => {
            proof {
                lemma_value_view_variant(a);
                lemma_value_view_variant(b);
            }
            false
        },
    }
}

/// Decides whether two vectors of values have the same views.
pub fn eq_values(xs: &Vec<Value>, ys: &Vec<Value>) -> (r: bool)
    ensures
        r == (view_values(xs@) == view_values(ys@)),
    decreases xs,
{
    proof {
        lemma_view_values(xs@);
        lemma_view_values(ys@);
    }
    if xs.len() != ys.len() {
        return false;
    }
    let n = xs.len();
    for i in 0..n
        invariant
            n == xs.len() == ys.len(),
            forall|j: int| 0 <= j < i ==> (#[trigger] xs@[j])@ == ys@[j]@,
    {
        if !eq_value(&xs[i], &ys[i]) {
            proof {
                lemma_view_values(xs@);
                lemma_view_values(ys@);
                assert(view_values(xs@)[i as int] == xs@[i as int]@);
                assert(view_values(ys@)[i as int] == ys@[i as int]@);
            }
            return false;
        }
        proof {
            lemma_view_values(xs@);
            lemma_view_values(ys@);
        }
    }
    proof {
        lemma_view_values(xs@);
        lemma_view_values(ys@);
        assert forall|j: int|
            0 <= j < xs@.len() implies view_values(xs@)[j] == view_values(ys@)[j] by {
            assert(view_values(xs@)[j] == xs@[j]@);
            assert(view_values(ys@)[j] == ys@[j]@);
        }
        assert(view_values(xs@) =~= view_values(ys@));
    }
    true
}

/// Decides whether two vectors of object fields have the same views.
pub fn eq_entries(xs: &Vec<Entry>, ys: &Vec<Entry>) -> (r: bool)
    ensures
        r == (view_entries(xs@) == view_entries(ys@)),
    decreases xs,
{
    proof {
        lemma_view_entries(xs@);
        lemma_view_entries(ys@);
    }
    if xs.len() != ys.len() {
        return false;
    }
    let n = xs.len();
    for i in 0..n
        invariant
            n == xs.len() == ys.len(),
            forall|j: int|
                0 <= j < i ==> (#[trigger] xs@[j]).key@ == ys@[j].key@ && xs@[j].val@
                    == ys@[j].val@,
    {
        proof {
            lemma_view_entries(xs@);
            lemma_view_entries(ys@);
            assert(view_entries(xs@)[i as int] == FieldV {
                key: xs@[i as int].key@,
                val: xs@[i as int].val@,
            });
            assert(view_entries(ys@)[i as int] == FieldV {
                key: ys@[i as int].key@,
                val: ys@[i as int].val@,
            });
        }
        if !(xs[i].key == ys[i].key) {
            return false;
        }
        if !eq_value(&xs[i].val, &ys[i].val) {
            return false;
        }
    }
    proof {
        lemma_view_entries(xs@);
        lemma_view_entries(ys@);
        assert forall|j: int|
            0 <= j < xs@.len() implies view_entries(xs@)[j] == view_entries(ys@)[j] by {
            assert(xs@[j].key@ == ys@[j].key@);
            assert(view_entries(xs@)[j] == FieldV { key: xs@[j].key@, val: xs@[j].val@ });
            assert(view_entries(ys@)[j] == FieldV { key: ys@[j].key@, val: ys@[j].val@ });
        }
        assert(view_entries(xs@) =~= view_entries(ys@));
    }
    true
}

/// Decides whether two vectors of record references have the same views.
pub fn eq_things(xs: &Vec<Thing>, ys: &Vec<Thing>) -> (r: bool)
    ensures
        r == (view_things(xs@) == view_things(ys@)),
    decreases xs,
{
    proof {
        lemma_view_things(xs@);
        lemma_view_things(ys@);
    }
    if xs.len() != ys.len() {
        return false;
    }
    let n = xs.len();
    for i in 0..n
        invariant
            n == xs.len() == ys.len(),
            forall|j: int| 0 <= j < i ==> (#[trigger] xs@[j])@ == ys@[j]@,
    {
        proof {
            lemma_view_things(xs@);
            lemma_view_things(ys@);
            assert(view_things(xs@)[i as int] == xs@[i as int]@);
            assert(view_things(ys@)[i as int] == ys@[i as int]@);
        }
        if !eq_thing(&xs[i], &ys[i]) {
            return false;
        }
    }
    proof {
        lemma_view_things(xs@);
        lemma_view_things(ys@);
        assert forall|j: int|
            0 <= j < xs@.len() implies view_things(xs@)[j] == view_things(ys@)[j] by {
            assert(view_things(xs@)[j] == xs@[j]@);
            assert(view_things(ys@)[j] == ys@[j]@);
        }
        assert(view_things(xs@) =~= view_things(ys@));
    }
    true
}

/// Decides whether two record identifiers have the same view.
pub fn eq_id(a: &Id, b: &Id) -> (r: bool)
    ensures
        r == (a@ == b@),
    decreases a,
{
    match (a, b) {
        (Id::Number(x), Id::Number(y)) => *x == *y,
        (Id::Strand(x), Id::Strand(y)) => *x == *y,
        (Id::Array(xs), Id::Array(ys)) => eq_values(xs, ys),
        (Id::Object(xs), Id::Object(ys)) => eq_entries(xs, ys),
        _ => {
            proof {
                lemma_id_view_variant(a);
                lemma_id_view_variant(b);
            }
            false
        },
    }
}

/// Decides whether two record references have the same view.
pub fn eq_thing(a: &Thing, b: &Thing) -> (r: bool)
    ensures
        r == (a@ == b@),
    decreases a,
{
    a.tb == b.tb && eq_id(&a.id, &b.id)
}

/// Decides whether two traversal descriptors have the same view.
pub fn eq_edges(a: &Edges, b: &Edges) -> (r: bool)
    ensures
        r == (a@ == b@),
    decreases a,
{
    eq_thing(&a.from, &b.from) && a.dir == b.dir && a.what == b.what
}

/// Decides whether two expressions have the same view.
pub fn eq_expr(a: &Expr, b: &Expr) -> (r: bool)
    ensures
        r == (a@ == b@),
    decreases a,
{
    match (a, b) {
        (Expr::Literal(x), Expr::Literal(y)) => eq_value(x, y),
        (Expr::FieldRef(x), Expr::FieldRef(y)) => *x == *y,
        (Expr::Obj(xs), Expr::Obj(ys)) => eq_expr_entries(xs, ys),
        (Expr::Gt(x1, x2), Expr::Gt(y1, y2)) => eq_expr(x1, y1) && eq_expr(x2, y2),
        _ => {
            proof {
                lemma_expr_view_variant(a);
                lemma_expr_view_variant(b);
            }
            false
        },
    }
}

/// Decides whether two vectors of object-constructor fields have the same
/// views.
pub fn eq_expr_entries(xs: &Vec<ExprEntry>, ys: &Vec<ExprEntry>) -> (r: bool)
    ensures
        r == (view_expr_entries(xs@) == view_expr_entries(ys@)),
    decreases xs,
{
    proof {
        lemma_view_expr_entries(xs@);
        lemma_view_expr_entries(ys@);
    }
    if xs.len() != ys.len() {
        return false;
    }
    let n = xs.len();
    for i in 0..n
        invariant
            n == xs.len() == ys.len(),
            forall|j: int|
                0 <= j < i ==> (#[trigger] xs@[j]).key@ == ys@[j].key@ && xs@[j].expr@
                    == ys@[j].expr@,
    {
        proof {
            lemma_view_expr_entries(xs@);
            lemma_view_expr_entries(ys@);
            assert(view_expr_entries(xs@)[i as int] == (xs@[i as int].key@, xs@[i as int].expr@));
            assert(view_expr_entries(ys@)[i as int] == (ys@[i as int].key@, ys@[i as int].expr@));
        }
        if !(xs[i].key == ys[i].key) {
            return false;
        }
        if !eq_expr(&xs[i].expr, &ys[i].expr) {
            return false;
        }
    }
    proof {
        lemma_view_expr_entries(xs@);
        lemma_view_expr_entries(ys@);
        assert forall|j: int|
            0 <= j < xs@.len() implies view_expr_entries(xs@)[j] == view_expr_entries(ys@)[j] by {
            assert(xs@[j].key@ == ys@[j].key@);
            assert(view_expr_entries(xs@)[j] == (xs@[j].key@, xs@[j].expr@));
            assert(view_expr_entries(ys@)[j] == (ys@[j].key@, ys@[j].expr@));
        }
        assert(view_expr_entries(xs@) =~= view_expr_entries(ys@));
    }
    true
}

} // verus!

verus! {

/// A value and its view always carry the same constructor.
pub proof fn lemma_value_view_variant(v: &Value)
    ensures
        (v is Nothing <==> v@ is Nothing),
        (v is Null <==> v@ is Null),
        (v is Bool <==> v@ is Bool),
        (v is Number <==> v@ is Number),
        (v is Strand <==> v@ is Strand),
        (v is Range <==> v@ is Range),
        (v is Array <==> v@ is Array),
        (v is Object <==> v@ is Object),
        (v is Thing <==> v@ is Thing),
        (v is Edges <==> v@ is Edges),
        (v is Future <==> v@ is Future),
        (v is Refs <==> v@ is Refs),
{
    match v {
        Value::Nothing => {},
        Value::Null => {},
        Value::Bool(_) => {},
        Value::Number(_) => {},
        Value::Strand(_) => {},
        Value::Range(_, _) => {},
        Value::Array(_) => {},
        Value::Object(_) => {},
        Value::Thing(_) => {},
        Value::Edges(_) => {},
        Value::Future(_) => {},
        Value::Refs(_) => {},
    }
}

/// An identifier and its view always carry the same constructor.
pub proof fn lemma_id_view_variant(v: &Id)
    ensures
        (v is Number <==> v@ is Number),
        (v is Strand <==> v@ is Strand),
        (v is Array <==> v@ is Array),
        (v is Object <==> v@ is Object),
{
    match v {
        Id::Number(_) => {},
        Id::Strand(_) => {},
        Id::Array(_) => {},
        Id::Object(_) => {},
    }
}

/// An expression and its view always carry the same constructor.
pub proof fn lemma_expr_view_variant(v: &Expr)
    ensures
        (v is Literal <==> v@ is Literal),
        (v is FieldRef <==> v@ is FieldRef),
        (v is Obj <==> v@ is Obj),
        (v is Gt <==> v@ is Gt),
{
    match v {
        Expr::Literal(_) => {},
        Expr::FieldRef(_) => {},
        Expr::Obj(_) => {},
        Expr::Gt(_, _) => {},
    }
}

} // verus!

verus! {

// ---------------------------------------------------------------------------
// One-level flattening, applied when graph traversals are chained.
// ---------------------------------------------------------------------------

/// Splices the members of array elements into the surrounding sequence, one
/// level deep; other elements stay as they are.
pub open spec fn flat_seq(s: Seq<ValueV>) -> Seq<ValueV>
    decreases s,
{
    if s.len() == 0 {
        Seq::empty()
    } else {
        (match s.first() {
            ValueV::Array(ys) => ys,
            v => seq![v],
        }) + flat_seq(s.drop_first())
    }
}

/// One-level flattening of a value: on an array, `flat_seq`; on anything
/// else, the value unchanged.
pub open spec fn flatten_v(v: ValueV) -> ValueV {
    match v {
        ValueV::Array(xs) => ValueV::Array(flat_seq(xs)),
        _ => v,
    }
}

/// Views map over concatenation.
pub proof fn lemma_view_values_concat(s1: Seq<Value>, s2: Seq<Value>)
    ensures
        view_values(s1 + s2) == view_values(s1) + view_values(s2),
{
    lemma_view_values(s1);
    lemma_view_values(s2);
    lemma_view_values(s1 + s2);
    assert forall|j: int|
        0 <= j < (s1 + s2).len() implies view_values(s1 + s2)[j] == (view_values(s1)
        + view_values(s2))[j] by {
        assert(view_values(s1 + s2)[j] == (s1 + s2)[j]@);
        if j < s1.len() {
            assert((s1 + s2)[j] == s1[j]);
            assert(view_values(s1)[j] == s1[j]@);
        } else {
            assert((s1 + s2)[j] == s2[j - s1.len()]);
            assert(view_values(s2)[j - s1.len()] == s2[j - s1.len()]@);
        }
    }
    assert(view_values(s1 + s2) =~= view_values(s1) + view_values(s2));
}

/// Flattening distributes over adding one element at the end.
pub proof fn lemma_flat_seq_snoc(t: Seq<ValueV>, x: ValueV)
    ensures
        flat_seq(t.push(x)) == flat_seq(t) + (match x {
            ValueV::Array(ys) => ys,
            v => seq![v],
        }),
    decreases t,
{
    let piece = (match x {
        ValueV::Array(ys) => ys,
        v => seq![v],
    });
    if t.len() == 0 {
        assert(t.push(x).first() == x);
        assert(t.push(x).drop_first() =~= Seq::<ValueV>::empty());
        assert(flat_seq(t.push(x)) == piece + flat_seq(Seq::<ValueV>::empty()));
        assert(flat_seq(t.push(x)) =~= flat_seq(t) + piece);
    } else {
        assert(t.push(x).first() == t.first());
        assert(t.push(x).drop_first() =~= t.drop_first().push(x));
        lemma_flat_seq_snoc(t.drop_first(), x);
        let head = (match t.first() {
            ValueV::Array(ys) => ys,
            v => seq![v],
        });
        assert(flat_seq(t.push(x)) == head + (flat_seq(t.drop_first()) + piece));
        assert(flat_seq(t) == head + flat_seq(t.drop_first()));
        assert(head + (flat_seq(t.drop_first()) + piece) =~= (head + flat_seq(t.drop_first()))
            + piece);
    }
}

/// Flattens an array one level; any other value passes through unchanged.
pub fn flatten_value(v: Value) -> (r: Value)
    ensures
        r@ == flatten_v(v@),
{
    match v {
        Value::Array(xs) => {
            proof {
                lemma_view_values(xs@);
            }
            let ghost orig = view_values(xs@);
            let mut out: Vec<Value> = Vec::new();
            let n = xs.len();
            for i in 0..n
                invariant
                    n == xs.len(),
                    orig == view_values(xs@),
                    orig.len() == n,
                    view_values(out@) == flat_seq(orig.subrange(0, i as int)),
            {
                proof {
                    lemma_view_values(xs@);
                    assert(orig[i as int] == xs@[i as int]@);
                    assert(orig.subrange(0, i + 1) =~= orig.subrange(0, i as int).push(
                        orig[i as int],
                    ));
                    lemma_flat_seq_snoc(orig.subrange(0, i as int), orig[i as int]);
                }
                match &xs[i] {
                    Value::Array(ys) => {
                        let mut d = dup_values(ys);
                        proof {
                            lemma_view_values(out@ + d@);
                            lemma_view_values_concat(out@, d@);
                        }
                        out.append(&mut d);
                    },
                    other => {
                        let d = other.duplicate();
                        proof {
                            lemma_view_values(out@.push(d));
                            assert(view_values(out@.push(d)) == view_values(
                                out@.push(d).drop_last(),
                            ).push(d@));
                            assert(out@.push(d).drop_last() =~= out@);
                        }
                        out.push(d);
                    },
                }
            }
            proof {
                assert(orig.subrange(0, n as int) =~= orig);
            }
            Value::Array(out)
        },
        other => other,
    }
}

// ---------------------------------------------------------------------------
// Keys formed from numbers and record references, for index and value steps
// on objects.
// ---------------------------------------------------------------------------

/// The decimal digits of a non-negative number, as characters.
pub open spec fn dec_chars(n: u64) -> Seq<char>
    decreases n,
{
    if n < 10 {
        seq![digit_char(n)]
    } else {
        dec_chars(n / 10).push(digit_char(n % 10))
    }
}

/// The character for a single decimal digit.
pub open spec fn digit_char(d: u64) -> char {
    ((48 + (d % 10)) as u8) as char
}

/// The decimal digits of a number, as a vector of characters.
pub fn digits_vec(n: u64) -> (r: Vec<char>)
    ensures
        r@ == dec_chars(n),
    decreases n,
{
    if n < 10 {
        let c: char = (48 + (n % 10)) as u8 as char;
        let mut v: Vec<char> = Vec::new();
        v.push(c);
        proof {
            assert(v@ =~= seq![digit_char(n)]);
        }
        v
    } else {
        let mut v = digits_vec(n / 10);
        let c: char = (48 + (n % 10)) as u8 as char;
        v.push(c);
        v
    }
}

/// Decides whether a string is exactly the decimal form of a number.
pub fn key_matches_index(k: &String, n: u64) -> (r: bool)
    ensures
        r == (k@ == dec_chars(n)),
{
    let ds = digits_vec(n);
    let s = k.as_str();
    let len = s.unicode_len();
    if len != ds.len() {
        proof {
            assert(k@.len() != dec_chars(n).len());
        }
        return false;
    }
    for i in 0..len
        invariant
            s@ == k@,
            len == k@.len(),
            ds@ == dec_chars(n),
            len == ds@.len(),
            forall|j: int| 0 <= j < i ==> k@[j] == dec_chars(n)[j],
    {
        if s.get_char(i) != ds[i] {
            proof {
                assert(k@[i as int] != dec_chars(n)[i as int]);
            }
            return false;
        }
    }
    proof {
        assert(k@ =~= dec_chars(n));
    }
    true
}

/// The object key a record reference addresses: `table:id`, defined when the
/// identifier is a string.
pub open spec fn thing_key(t: ThingV) -> Option<Seq<char>> {
    match t.id {
        IdV::Strand(s) => Option::Some(t.tb + seq![':'] + s),
        _ => Option::None,
    }
}

/// Decides whether a string is the `table:id` key of a record reference.
pub fn key_matches_thing(k: &String, t: &Thing) -> (r: bool)
    ensures
        r == (thing_key(t@) == Option::Some(k@)),
{
    match &t.id {
        Id::Strand(ids) => {
            let ghost goal = t.tb@ + seq![':'] + ids@;
            let s = k.as_str();
            let klen = s.unicode_len();
            let tbs = t.tb.as_str();
            let tblen = tbs.unicode_len();
            let ids_str = ids.as_str();
            let idlen = ids_str.unicode_len();
            if klen <= tblen || klen - tblen - 1 != idlen {
                proof {
                    assert(goal.len() == tblen + 1 + idlen);
                }
                return false;
            }
            for i in 0..tblen
                invariant
                    s@ == k@,
                    tbs@ == t.tb@,
                    klen == k@.len(),
                    tblen == t.tb@.len(),
                    idlen == ids@.len(),
                    klen == tblen + 1 + idlen,
                    goal == t.tb@ + seq![':'] + ids@,
                    thing_key(t@) == Option::Some(goal),
                    forall|j: int| 0 <= j < i ==> k@[j] == goal[j],
            {
                proof {
                    assert(goal[i as int] == t.tb@[i as int]);
                }
                if s.get_char(i) != tbs.get_char(i) {
                    return false;
                }
            }
            proof {
                assert(goal[tblen as int] == ':');
            }
            if s.get_char(tblen) != ':' {
                return false;
            }
            for i in 0..idlen
                invariant
                    s@ == k@,
                    ids_str@ == ids@,
                    klen == k@.len(),
                    tblen == t.tb@.len(),
                    idlen == ids@.len(),
                    klen == tblen + 1 + idlen,
                    goal == t.tb@ + seq![':'] + ids@,
                    thing_key(t@) == Option::Some(goal),
                    forall|j: int| 0 <= j < tblen + 1 ==> k@[j] == goal[j],
                    forall|j: int| 0 <= j < i ==> #[trigger] k@[tblen + 1 + j] == goal[tblen + 1 + j],
            {
                proof {
                    assert(goal[tblen + 1 + i] == ids@[i as int]);
                }
                if s.get_char(tblen + 1 + i) != ids_str.get_char(i) {
                    proof {
                        assert(k@[tblen + 1 + i] != goal[tblen + 1 + i]);
                    }
                    return false;
                }
            }
            proof {
                assert forall|j: int| 0 <= j < klen implies k@[j] == goal[j] by {
                    if j >= tblen + 1 {
                        let j2 = j - (tblen + 1);
                        assert(k@[tblen + 1 + j2] == goal[tblen + 1 + j2]);
                    }
                }
                assert(k@ =~= goal);
            }
            true
        },
        _ => {
            proof {
                lemma_id_view_variant(&t.id);
            }
            false
        },
    }
}

} // verus!

verus! {

/// Looks up the field whose key is the decimal form of a number.
pub fn lookup_index<'a>(es: &'a Vec<Entry>, n: u64) -> (r: Option<&'a Value>)
    ensures
        match r {
            Option::Some(v) => lookup_field(view_entries(es@), dec_chars(n)) == Option::Some(v@),
            Option::None => lookup_field(view_entries(es@), dec_chars(n)) is None,
        },
{
    proof {
        lemma_view_entries(es@);
    }
    let ghost fs = view_entries(es@);
    let m = es.len();
    for i in 0..m
        invariant
            m == es.len(),
            fs == view_entries(es@),
            fs.len() == m,
            forall|j: int| 0 <= j < i ==> (#[trigger] fs[j].key) != dec_chars(n),
    {
        proof {
            lemma_view_entries(es@);
            assert(fs[i as int].key == es@[i as int].key@);
            assert(fs[i as int].val == es@[i as int].val@);
        }
        if key_matches_index(&es[i].key, n) {
            proof {
                lemma_lookup_skip(fs, dec_chars(n), i as int);
                assert(fs.skip(i as int).len() > 0);
                assert(fs.skip(i as int).first() == fs[i as int]);
            }
            return Option::Some(&es[i].val);
        }
    }
    proof {
        lemma_lookup_skip(fs, dec_chars(n), m as int);
        assert(fs.skip(m as int).len() == 0);
    }
    Option::None
}

/// Looks up the field whose key is the `table:id` form of a record
/// reference; no key matches a reference whose id is not a string.
pub fn lookup_thing<'a>(es: &'a Vec<Entry>, t: &Thing) -> (r: Option<&'a Value>)
    ensures
        match r {
            Option::Some(v) => thing_key(t@) is Some && lookup_field(
                view_entries(es@),
                thing_key(t@)->0,
            ) == Option::Some(v@),
            Option::None => thing_key(t@) is Some ==> lookup_field(
                view_entries(es@),
                thing_key(t@)->0,
            ) is None,
        },
{
    proof {
        lemma_view_entries(es@);
    }
    let ghost fs = view_entries(es@);
    let m = es.len();
    for i in 0..m
        invariant
            m == es.len(),
            fs == view_entries(es@),
            fs.len() == m,
            forall|j: int|
                0 <= j < i ==> thing_key(t@) is Some ==> (#[trigger] fs[j].key) != thing_key(t@)->0,
    {
        proof {
            lemma_view_entries(es@);
            assert(fs[i as int].key == es@[i as int].key@);
            assert(fs[i as int].val == es@[i as int].val@);
        }
        if key_matches_thing(&es[i].key, t) {
            proof {
                lemma_lookup_skip(fs, thing_key(t@)->0, i as int);
                assert(fs.skip(i as int).len() > 0);
                assert(fs.skip(i as int).first() == fs[i as int]);
            }
            return Option::Some(&es[i].val);
        }
    }
    proof {
        if thing_key(t@) is Some {
            lemma_lookup_skip(fs, thing_key(t@)->0, m as int);
            assert(fs.skip(m as int).len() == 0);
        }
    }
    Option::None
}

} // verus!
