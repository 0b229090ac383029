//! Path steps: the navigation alphabet of an idiom path, its mathematical
//! view, the size measure that bounds the evaluator's recursion, and the
//! path utilities the evaluator relies on.
use vstd::prelude::*;

use crate::value::{Dir, Expr, ExprV};

verus! {

/// A graph step: traversal direction and the target edge table.
#[derive(PartialEq, Eq, Debug)]
pub struct Graph {
    pub dir: Dir,
    pub what: String,
}

/// Iteration bounds of a recursion step: at least `min` levels, and at most
/// `max` when a bound is given.
#[derive(PartialEq, Eq, Debug, Clone, Copy)]
pub struct Recurse {
    pub min: u64,
    pub max: Option<u64>,
}

/// A user-supplied recursion policy: collect every visited value.
#[derive(PartialEq, Eq, Debug, Clone, Copy)]
pub enum RecurseInstruction {
    Collect,
}

/// One field of a destructuring step: the name of the produced field and the
/// path evaluated against the current value to fill it.
#[derive(PartialEq, Eq, Debug)]
pub struct DestructureEntry {
    pub field: String,
    pub path: Vec<Part>,
}

/// One navigation step of an idiom path.
#[derive(PartialEq, Eq, Debug)]
pub enum Part {
    /// Every member of the current container.
    All,
    /// One level of array flattening.
    Flatten,
    /// The first array element.
    First,
    /// The last array element.
    Last,
    /// A no-op on present values; absence stays absence.
    Optional,
    /// The record id of the current document.
    Doc,
    /// The repetition marker inside a recursion step.
    RepeatRecurse,
    /// A named field of an object.
    Field(String),
    /// A positional index.
    Index(u64),
    /// Keep the array elements a predicate holds of.
    Where(Expr),
    /// An index computed from an expression.
    Value(Expr),
    /// A method call with computed arguments.
    Method(String, Vec<Expr>),
    /// A graph traversal from the current record.
    Graph(Graph),
    /// Build an object by evaluating a path per field.
    Destructure(Vec<DestructureEntry>),
    /// Bounded repeated application of an inner path.
    Recurse(Recurse, Option<Vec<Part>>, Option<RecurseInstruction>),
}

// ---------------------------------------------------------------------------
// Views
// ---------------------------------------------------------------------------

pub struct GraphV {
    pub dir: Dir,
    pub what: Seq<char>,
}

pub struct DestructureEntryV {
    pub field: Seq<char>,
    pub path: Seq<PartV>,
}

pub enum PartV {
    All,
    Flatten,
    First,
    Last,
    Optional,
    Doc,
    RepeatRecurse,
    Field(Seq<char>),
    Index(u64),
    Where(ExprV),
    Value(ExprV),
    Method(Seq<char>, Seq<ExprV>),
    Graph(GraphV),
    Destructure(Seq<DestructureEntryV>),
    Recurse(Recurse, Option<Seq<PartV>>, Option<RecurseInstruction>),
}

impl View for Graph {
    type V = GraphV;

    open spec fn view(&self) -> GraphV {
        GraphV { dir: self.dir, what: self.what@ }
    }
}

impl View for Part {
    type V = PartV;

    open spec fn view(&self) -> PartV
        decreases self,
    {
        match self {
            Part::All => PartV::All,
            Part::Flatten => PartV::Flatten,
            Part::First => PartV::First,
            Part::Last => PartV::Last,
            Part::Optional => PartV::Optional,
            Part::Doc => PartV::Doc,
            Part::RepeatRecurse => PartV::RepeatRecurse,
            Part::Field(s) => PartV::Field(s@),
            Part::Index(i) => PartV::Index(*i),
            Part::Where(x) => PartV::Where(x@),
            Part::Value(x) => PartV::Value(x@),
            Part::Method(name, args) => PartV::Method(name@, view_exprs(args@)),
            Part::Graph(g) => PartV::Graph(g@),
            Part::Destructure(es) => PartV::Destructure(view_dentries(es@)),
            Part::Recurse(r, inner, inst) => PartV::Recurse(
                *r,
                match inner {
                    Option::Some(ps) => Option::Some(view_parts(ps@)),
                    Option::None => Option::None,
                },
                *inst,
            ),
        }
    }
}

pub open spec fn view_parts(s: Seq<Part>) -> Seq<PartV>
    decreases s,
{
    if s.len() == 0 {
        Seq::empty()
    } else {
        view_parts(s.drop_last()).push(s.last()@)
    }
}

pub open spec fn view_exprs(s: Seq<Expr>) -> Seq<ExprV>
    decreases s,
{
    if s.len() == 0 {
        Seq::empty()
    } else {
        view_exprs(s.drop_last()).push(s.last()@)
    }
}

pub open spec fn view_dentries(s: Seq<DestructureEntry>) -> Seq<DestructureEntryV>
    decreases s,
{
    if s.len() == 0 {
        Seq::empty()
    } else {
        view_dentries(s.drop_last()).push(
            DestructureEntryV { field: s.last().field@, path: view_parts(s.last().path@) },
        )
    }
}

/// The views of a sequence of parts, element by element.
pub broadcast proof fn lemma_view_parts(s: Seq<Part>)
    ensures
        (#[trigger] view_parts(s)).len() == s.len(),
        forall|i: int| 0 <= i < s.len() ==> view_parts(s)[i] == #[trigger] s[i]@,
    decreases s,
{
    if s.len() > 0 {
        lemma_view_parts(s.drop_last());
        assert(view_parts(s) == view_parts(s.drop_last()).push(s.last()@));
        assert forall|i: int| 0 <= i < s.len() implies view_parts(s)[i] == #[trigger] s[i]@ by {
            if i < s.len() - 1 {
                assert(view_parts(s)[i] == view_parts(s.drop_last())[i]);
                assert(s.drop_last()[i] == s[i]);
            } else {
                assert(s[i] == s.last());
            }
        }
    }
}

/// The views of a sequence of expressions, element by element.
pub broadcast proof fn lemma_view_exprs(s: Seq<Expr>)
    ensures
        (#[trigger] view_exprs(s)).len() == s.len(),
        forall|i: int| 0 <= i < s.len() ==> view_exprs(s)[i] == #[trigger] s[i]@,
    decreases s,
{
    if s.len() > 0 {
        lemma_view_exprs(s.drop_last());
        assert(view_exprs(s) == view_exprs(s.drop_last()).push(s.last()@));
        assert forall|i: int| 0 <= i < s.len() implies view_exprs(s)[i] == #[trigger] s[i]@ by {
            if i < s.len() - 1 {
                assert(view_exprs(s)[i] == view_exprs(s.drop_last())[i]);
                assert(s.drop_last()[i] == s[i]);
            } else {
                assert(s[i] == s.last());
            }
        }
    }
}

/// The views of a sequence of destructuring fields, element by element.
pub broadcast proof fn lemma_view_dentries(s: Seq<DestructureEntry>)
    ensures
        (#[trigger] view_dentries(s)).len() == s.len(),
        forall|i: int|
            0 <= i < s.len() ==> view_dentries(s)[i] == (DestructureEntryV {
                field: #[trigger] s[i].field@,
                path: view_parts(s[i].path@),
            }),
    decreases s,
{
    if s.len() > 0 {
        lemma_view_dentries(s.drop_last());
        assert(view_dentries(s) == view_dentries(s.drop_last()).push(
            DestructureEntryV { field: s.last().field@, path: view_parts(s.last().path@) },
        ));
        assert forall|i: int|
            0 <= i < s.len() implies view_dentries(s)[i] == (DestructureEntryV {
            field: #[trigger] s[i].field@,
            path: view_parts(s[i].path@),
        }) by {
            if i < s.len() - 1 {
                assert(view_dentries(s)[i] == view_dentries(s.drop_last())[i]);
                assert(s.drop_last()[i] == s[i]);
            } else {
                assert(s[i] == s.last());
            }
        }
    }
}

} // verus!

verus! {

// ---------------------------------------------------------------------------
// The size measure of a path: the termination measure of the evaluator.
// Every step weighs at least 1; a step that carries an inner path outweighs
// that inner path by at least 2.
// ---------------------------------------------------------------------------

pub open spec fn psize(p: PartV) -> nat
    decreases p,
{
    match p {
        PartV::Recurse(_, inner, _) => 2 + (match inner {
            Option::Some(ps) => psize_seq(ps),
            Option::None => 0,
        }),
        PartV::Destructure(es) => 2 + dsize_seq(es),
        _ => 1,
    }
}

pub open spec fn psize_seq(s: Seq<PartV>) -> nat
    decreases s,
{
    if s.len() == 0 {
        0
    } else {
        psize(s.first()) + psize_seq(s.drop_first())
    }
}

pub open spec fn dsize_seq(s: Seq<DestructureEntryV>) -> nat
    decreases s,
{
    if s.len() == 0 {
        0
    } else {
        1 + psize_seq(s.first().path) + dsize_seq(s.drop_first())
    }
}

pub broadcast proof fn lemma_psize_pos(p: PartV)
    ensures
        #[trigger] psize(p) >= 1,
{
}




/// One destructuring field's path is strictly below the whole field list.
pub proof fn lemma_dsize_seq_elem(s: Seq<DestructureEntryV>, i: int)
    requires
        0 <= i < s.len(),
    ensures
        1 + psize_seq(s[i].path) <= dsize_seq(s),
    decreases s,
{
    if i == 0 {
        assert(s[0] == s.first());
    } else {
        lemma_dsize_seq_elem(s.drop_first(), i - 1);
        assert(s.drop_first()[i - 1] == s[i]);
    }
}

// ---------------------------------------------------------------------------
// Deep copy of parts
// ---------------------------------------------------------------------------

impl Graph {
    /// A copy of the graph step with the same view.
    pub fn duplicate(&self) -> (r: Graph)
        ensures
            r@ == self@,
    {
        Graph { dir: self.dir, what: self.what.clone() }
    }
}

impl Part {
    /// A copy of the step with the same view.
    pub fn duplicate(&self) -> (r: Part)
        ensures
            r@ == self@,
        decreases self,
    {
        match self {
            Part::All => Part::All,
            Part::Flatten => Part::Flatten,
            Part::First => Part::First,
            Part::Last => Part::Last,
            Part::Optional => Part::Optional,
            Part::Doc => Part::Doc,
            Part::RepeatRecurse => Part::RepeatRecurse,
            Part::Field(s) => Part::Field(s.clone()),
            Part::Index(i) => Part::Index(*i),
            Part::Where(x) => Part::Where(x.duplicate()),
            Part::Value(x) => Part::Value(x.duplicate()),
            Part::Method(name, args) => Part::Method(name.clone(), dup_exprs(args)),
            Part::Graph(g) => Part::Graph(g.duplicate()),
            Part::Destructure(es) => Part::Destructure(dup_dentries(es)),
            Part::Recurse(r, inner, inst) => Part::Recurse(
                *r,
                match inner {
                    Option::Some(ps) => Option::Some(dup_parts_vec(ps)),
                    Option::None => Option::None,
                },
                *inst,
            ),
        }
    }
}

/// Copies of a vector of expressions, element by element.
pub fn dup_exprs(xs: &Vec<Expr>) -> (r: Vec<Expr>)
    ensures
        view_exprs(r@) == view_exprs(xs@),
        r@.len() == xs@.len(),
    decreases xs,
{
    let mut out: Vec<Expr> = Vec::new();
    let n = xs.len();
    for i in 0..n
        invariant
            n == xs.len(),
            out@.len() == i,
            forall|j: int| 0 <= j < i ==> (#[trigger] out@[j])@ == xs@[j]@,
    {
        out.push(xs[i].duplicate());
    }
    proof {
        lemma_view_exprs(out@);
        lemma_view_exprs(xs@);
        assert forall|j: int|
            0 <= j < out@.len() implies view_exprs(out@)[j] == view_exprs(xs@)[j] by {
            assert(view_exprs(out@)[j] == out@[j]@);
            assert(view_exprs(xs@)[j] == xs@[j]@);
        }
        assert(view_exprs(out@) =~= view_exprs(xs@));
    }
    out
}

/// Copies of a vector of parts, element by element.
pub fn dup_parts_vec(xs: &Vec<Part>) -> (r: Vec<Part>)
    ensures
        view_parts(r@) == view_parts(xs@),
        r@.len() == xs@.len(),
    decreases xs,
{
    let mut out: Vec<Part> = Vec::new();
    let n = xs.len();
    for i in 0..n
        invariant
            n == xs.len(),
            out@.len() == i,
            forall|j: int| 0 <= j < i ==> (#[trigger] out@[j])@ == xs@[j]@,
    {
        out.push(xs[i].duplicate());
    }
    proof {
        lemma_view_parts(out@);
        lemma_view_parts(xs@);
        assert forall|j: int|
            0 <= j < out@.len() implies view_parts(out@)[j] == view_parts(xs@)[j] by {
            assert(view_parts(out@)[j] == out@[j]@);
            assert(view_parts(xs@)[j] == xs@[j]@);
        }
        assert(view_parts(out@) =~= view_parts(xs@));
    }
    out
}

/// Copies of a vector of destructuring fields, element by element.
pub fn dup_dentries(xs: &Vec<DestructureEntry>) -> (r: Vec<DestructureEntry>)
    ensures
        view_dentries(r@) == view_dentries(xs@),
        r@.len() == xs@.len(),
    decreases xs,
{
    let mut out: Vec<DestructureEntry> = Vec::new();
    let n = xs.len();
    for i in 0..n
        invariant
            n == xs.len(),
            out@.len() == i,
            forall|j: int|
                0 <= j < i ==> (#[trigger] out@[j]).field@ == xs@[j].field@ && view_parts(
                    out@[j].path@,
                ) == view_parts(xs@[j].path@),
    {
        let e = &xs[i];
        out.push(DestructureEntry { field: e.field.clone(), path: dup_parts_vec(&e.path) });
    }
    proof {
        lemma_view_dentries(out@);
        lemma_view_dentries(xs@);
        assert forall|j: int|
            0 <= j < out@.len() implies view_dentries(out@)[j] == view_dentries(xs@)[j] by {
            assert(out@[j].field@ == xs@[j].field@);
            assert(view_dentries(out@)[j] == DestructureEntryV {
                field: out@[j].field@,
                path: view_parts(out@[j].path@),
            });
            assert(view_dentries(xs@)[j] == DestructureEntryV {
                field: xs@[j].field@,
                path: view_parts(xs@[j].path@),
            });
        }
        assert(view_dentries(out@) =~= view_dentries(xs@));
    }
    out
}

// ---------------------------------------------------------------------------
// Path searches: the first repetition marker, the first method step.
// ---------------------------------------------------------------------------

/// The index of the first repetition marker in a path, or the path's length
/// when there is none.
pub open spec fn first_rr(s: Seq<PartV>) -> int
    decreases s,
{
    if s.len() == 0 {
        0
    } else if s.first() is RepeatRecurse {
        0
    } else {
        1 + first_rr(s.drop_first())
    }
}

/// What `first_rr` finds: a position within bounds, the marker there when in
/// range, and no marker before it.
pub proof fn lemma_first_rr(s: Seq<PartV>)
    ensures
        0 <= first_rr(s) <= s.len(),
        first_rr(s) < s.len() ==> s[first_rr(s)] is RepeatRecurse,
        forall|j: int| 0 <= j < first_rr(s) ==> !(#[trigger] s[j] is RepeatRecurse),
    decreases s,
{
    if s.len() > 0 && !(s.first() is RepeatRecurse) {
        lemma_first_rr(s.drop_first());
        assert forall|j: int| 0 <= j < first_rr(s) implies !(#[trigger] s[j] is RepeatRecurse) by {
            if j > 0 {
                assert(s.drop_first()[j - 1] == s[j]);
            }
        }
        if first_rr(s) < s.len() {
            assert(s.drop_first()[first_rr(s) - 1] == s[first_rr(s)]);
        }
    }
}

/// A position with the marker, before which there is no marker, is exactly
/// `first_rr`.
pub proof fn lemma_first_rr_at(s: Seq<PartV>, i: int)
    requires
        0 <= i < s.len(),
        s[i] is RepeatRecurse,
        forall|j: int| 0 <= j < i ==> !(#[trigger] s[j] is RepeatRecurse),
    ensures
        first_rr(s) == i,
    decreases s,
{
    if i == 0 {
        assert(s.first() == s[0]);
    } else {
        assert(s[0] == s.first());
        assert(!(s.first() is RepeatRecurse));
        assert(s.drop_first()[i - 1] == s[i]);
        assert forall|j: int|
            0 <= j < i - 1 implies !(#[trigger] s.drop_first()[j] is RepeatRecurse) by {
            assert(s.drop_first()[j] == s[j + 1]);
        }
        lemma_first_rr_at(s.drop_first(), i - 1);
    }
}

/// Searches a path for a root-level repetition marker.
pub fn find_repeat_recurse(path: &[Part]) -> (r: Option<usize>)
    ensures
        match r {
            Option::Some(i) => i < path@.len() && first_rr(view_parts(path@)) == i,
            Option::None => first_rr(view_parts(path@)) == view_parts(path@).len(),
        },
{
    proof {
        lemma_view_parts(path@);
    }
    let n = path.len();
    for i in 0..n
        invariant
            n == path@.len(),
            forall|j: int| 0 <= j < i ==> !(#[trigger] view_parts(path@)[j] is RepeatRecurse),
    {
        proof {
            lemma_view_parts(path@);
        }
        let p = vstd::slice::slice_index_get(path, i);
        proof {
            lemma_part_view_variant(p);
        }
        let is_rr = match p {
            Part::RepeatRecurse => true,
            _ => false,
        };
        if is_rr {
            proof {
                lemma_first_rr_at(view_parts(path@), i as int);
            }
            return Option::Some(i);
        }
    }
    proof {
        lemma_first_rr(view_parts(path@));
    }
    Option::None
}

/// The index of the first method step in a path, or the path's length when
/// there is none.
pub open spec fn first_method(s: Seq<PartV>) -> int
    decreases s,
{
    if s.len() == 0 {
        0
    } else if s.first() is Method {
        0
    } else {
        1 + first_method(s.drop_first())
    }
}

/// What `first_method` finds: a position within bounds.
pub proof fn lemma_first_method(s: Seq<PartV>)
    ensures
        0 <= first_method(s) <= s.len(),
    decreases s,
{
    if s.len() > 0 && !(s.first() is Method) {
        lemma_first_method(s.drop_first());
    }
}

/// A position with a method step, before which there is none, is exactly
/// `first_method`.
pub proof fn lemma_first_method_at(s: Seq<PartV>, i: int)
    requires
        0 <= i < s.len(),
        s[i] is Method,
        forall|j: int| 0 <= j < i ==> !(#[trigger] s[j] is Method),
    ensures
        first_method(s) == i,
    decreases s,
{
    if i == 0 {
        assert(s.first() == s[0]);
    } else {
        assert(s[0] == s.first());
        assert(!(s.first() is Method));
        assert(s.drop_first()[i - 1] == s[i]);
        assert forall|j: int| 0 <= j < i - 1 implies !(#[trigger] s.drop_first()[j] is Method) by {
            assert(s.drop_first()[j] == s[j + 1]);
        }
        lemma_first_method_at(s.drop_first(), i - 1);
    }
}

/// A position past which every step was inspected without finding a method
/// step pins `first_method` to the length.
pub proof fn lemma_first_method_none(s: Seq<PartV>)
    requires
        forall|j: int| 0 <= j < s.len() ==> !(#[trigger] s[j] is Method),
    ensures
        first_method(s) == s.len(),
    decreases s,
{
    if s.len() > 0 {
        assert(s[0] == s.first());
        assert forall|j: int|
            0 <= j < s.drop_first().len() implies !(#[trigger] s.drop_first()[j] is Method) by {
            assert(s.drop_first()[j] == s[j + 1]);
        }
        lemma_first_method_none(s.drop_first());
    }
}

/// The index of the first method step of a path, or its length when none
/// exists.
pub fn next_method_index(path: &[Part]) -> (r: usize)
    ensures
        r as int == first_method(view_parts(path@)),
        r <= path@.len(),
{
    proof {
        lemma_view_parts(path@);
    }
    let n = path.len();
    for i in 0..n
        invariant
            n == path@.len(),
            forall|j: int| 0 <= j < i ==> !(#[trigger] view_parts(path@)[j] is Method),
    {
        proof {
            lemma_view_parts(path@);
        }
        let p = vstd::slice::slice_index_get(path, i);
        proof {
            lemma_part_view_variant(p);
        }
        let is_m = match p {
            Part::Method(_, _) => true,
            _ => false,
        };
        if is_m {
            proof {
                lemma_first_method_at(view_parts(path@), i as int);
            }
            return i;
        }
    }
    proof {
        lemma_first_method_none(view_parts(path@));
    }
    n
}

} // verus!

verus! {

/// A step and its view always carry the same constructor.
pub proof fn lemma_part_view_variant(p: &Part)
    ensures
        (p is All <==> p@ is All),
        (p is Flatten <==> p@ is Flatten),
        (p is First <==> p@ is First),
        (p is Last <==> p@ is Last),
        (p is Optional <==> p@ is Optional),
        (p is Doc <==> p@ is Doc),
        (p is RepeatRecurse <==> p@ is RepeatRecurse),
        (p is Field <==> p@ is Field),
        (p is Index <==> p@ is Index),
        (p is Where <==> p@ is Where),
        (p is Value <==> p@ is Value),
        (p is Method <==> p@ is Method),
        (p is Graph <==> p@ is Graph),
        (p is Destructure <==> p@ is Destructure),
        (p is Recurse <==> p@ is Recurse),
{
    match p {
        Part::All => {},
        Part::Flatten => {},
        Part::First => {},
        Part::Last => {},
        Part::Optional => {},
        Part::Doc => {},
        Part::RepeatRecurse => {},
        Part::Field(_) => {},
        Part::Index(_) => {},
        Part::Where(_) => {},
        Part::Value(_) => {},
        Part::Method(_, _) => {},
        Part::Graph(_) => {},
        Part::Destructure(_) => {},
        Part::Recurse(_, _, _) => {},
    }
}

} // verus!

verus! {

/// Views commute with taking a subrange of a path.
pub proof fn lemma_view_parts_subrange(s: Seq<Part>, i: int, j: int)
    requires
        0 <= i <= j <= s.len(),
    ensures
        view_parts(s.subrange(i, j)) == view_parts(s).subrange(i, j),
{
    lemma_view_parts(s);
    lemma_view_parts(s.subrange(i, j));
    assert forall|k: int|
        0 <= k < j - i implies view_parts(s.subrange(i, j))[k] == view_parts(s).subrange(i, j)[k] by {
        assert(view_parts(s.subrange(i, j))[k] == s.subrange(i, j)[k]@);
        assert(s.subrange(i, j)[k] == s[i + k]);
        assert(view_parts(s)[i + k] == s[i + k]@);
    }
    assert(view_parts(s.subrange(i, j)) =~= view_parts(s).subrange(i, j));
}

} // verus!
