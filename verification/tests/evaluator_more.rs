use idiompath::context::{Context, CursorDoc, EdgeRow, Options, Record};
use idiompath::eval::Error;
use idiompath::part::{DestructureEntry, Part, Recurse, RecurseInstruction};
use idiompath::value::{Dir, Edges, Entry, Expr, Id, Thing, Value};

fn obj(fields: Vec<(&str, Value)>) -> Value {
    Value::Object(
        fields.into_iter().map(|(k, v)| Entry { key: k.to_string(), val: v }).collect(),
    )
}

fn field(name: &str) -> Part {
    Part::Field(name.to_string())
}

fn thing(tb: &str, id: &str) -> Thing {
    Thing { tb: tb.to_string(), id: Id::Strand(id.to_string()) }
}

fn graph_ctx() -> Context {
    let mut ctx = Context::new();
    let edge = |from: Thing, tb: &str, id: Thing| EdgeRow { from, dir: Dir::Out, tb: tb.to_string(), id };
    ctx.edges.push(edge(thing("person", "a"), "likes", thing("likes", "1")));
    ctx.edges.push(edge(thing("person", "a"), "likes", thing("likes", "2")));
    ctx.edges.push(edge(thing("likes", "1"), "follows", thing("follows", "7")));
    ctx.edges.push(edge(thing("likes", "2"), "follows", thing("follows", "8")));
    ctx.edges.push(edge(thing("likes", "2"), "follows", thing("follows", "9")));
    ctx.records.push(Record {
        id: thing("likes", "1"),
        content: vec![Entry { key: "id".to_string(), val: Value::Thing(thing("likes", "1")) }],
    });
    ctx.records.push(Record {
        id: thing("likes", "2"),
        content: vec![Entry { key: "id".to_string(), val: Value::Thing(thing("likes", "2")) }],
    });
    ctx.records.push(Record {
        id: thing("person", "a"),
        content: vec![Entry { key: "name".to_string(), val: Value::Strand("A".to_string()) }],
    });
    ctx
}

#[test]
fn graph_single_step_projects_edge_ids() {
    let ctx = graph_ctx();
    let opt = Options::new();
    let val = Value::Thing(thing("person", "a"));
    let idi = vec![Part::Graph(idiompath::part::Graph { dir: Dir::Out, what: "likes".to_string() })];
    let res = val.get(&ctx, &opt, None, &idi).unwrap();
    assert_eq!(
        res,
        Value::Array(vec![
            Value::Thing(thing("likes", "1")),
            Value::Thing(thing("likes", "2")),
        ])
    );
}

#[test]
fn graph_chained_steps_come_out_flat() {
    let ctx = graph_ctx();
    let opt = Options::new();
    let val = Value::Thing(thing("person", "a"));
    let idi = vec![
        Part::Graph(idiompath::part::Graph { dir: Dir::Out, what: "likes".to_string() }),
        Part::Graph(idiompath::part::Graph { dir: Dir::Out, what: "follows".to_string() }),
    ];
    let res = val.get(&ctx, &opt, None, &idi).unwrap();
    assert_eq!(
        res,
        Value::Array(vec![
            Value::Thing(thing("follows", "7")),
            Value::Thing(thing("follows", "8")),
            Value::Thing(thing("follows", "9")),
        ])
    );
}

#[test]
fn thing_field_fetches_the_record() {
    let ctx = graph_ctx();
    let opt = Options::new();
    let val = Value::Thing(thing("person", "a"));
    let idi = vec![field("name")];
    let res = val.get(&ctx, &opt, None, &idi).unwrap();
    assert_eq!(res, Value::Strand("A".to_string()));
}

#[test]
fn edges_value_descends_into_rows() {
    let ctx = graph_ctx();
    let opt = Options::new();
    let val = Value::Edges(Edges { from: thing("person", "a"), dir: Dir::Out, what: "likes".to_string() });
    let idi = vec![field("id")];
    let res = val.get(&ctx, &opt, None, &idi).unwrap();
    assert_eq!(
        res,
        Value::Array(vec![
            Value::Thing(thing("likes", "1")),
            Value::Thing(thing("likes", "2")),
        ])
    );
}

#[test]
fn recursion_applies_the_segment_up_to_the_bound() {
    let ctx = Context::new();
    let opt = Options::new();
    let val = obj(vec![("a", obj(vec![("a", obj(vec![("a", Value::Number(123))]))]))]);
    let idi = vec![
        Part::Recurse(Recurse { min: 1, max: Some(2) }, None, None),
        field("a"),
    ];
    let res = val.get(&ctx, &opt, None, &idi).unwrap();
    assert_eq!(res, obj(vec![("a", Value::Number(123))]));
}

#[test]
fn recursion_below_the_minimum_fails() {
    let ctx = Context::new();
    let opt = Options::new();
    let val = obj(vec![("b", Value::Number(1))]);
    let idi = vec![
        Part::Recurse(Recurse { min: 2, max: Some(5) }, None, None),
        field("a"),
    ];
    assert_eq!(val.get(&ctx, &opt, None, &idi).unwrap_err(), Error::RecursionMinimumNotReached);
}

#[test]
fn repeat_recurse_alone_is_unsupported() {
    let ctx = Context::new();
    let opt = Options::new();
    let val = Value::Number(1);
    let idi = vec![Part::RepeatRecurse];
    assert_eq!(val.get(&ctx, &opt, None, &idi).unwrap_err(), Error::UnsupportedRepeatRecurse);
}

#[test]
fn instruction_and_plan_conflict() {
    let ctx = Context::new();
    let opt = Options::new();
    let val = obj(vec![("a", Value::Number(1))]);
    let plan_part = Part::Destructure(vec![DestructureEntry {
        field: "x".to_string(),
        path: vec![Part::RepeatRecurse],
    }]);
    let idi = vec![Part::Recurse(
        Recurse { min: 1, max: Some(2) },
        Some(vec![plan_part]),
        Some(RecurseInstruction::Collect),
    )];
    assert_eq!(
        val.get(&ctx, &opt, None, &idi).unwrap_err(),
        Error::RecursionInstructionPlanConflict
    );
}

#[test]
fn method_len_counts_members() {
    let ctx = Context::new();
    let opt = Options::new();
    let val = Value::Array(vec![Value::Number(1), Value::Number(2)]);
    let idi = vec![Part::Method("len".to_string(), vec![])];
    assert_eq!(val.get(&ctx, &opt, None, &idi).unwrap(), Value::Number(2));
}

#[test]
fn unknown_method_without_field_is_an_error() {
    let ctx = Context::new();
    let opt = Options::new();
    let val = obj(vec![("x", Value::Number(1))]);
    let idi = vec![Part::Method("frob".to_string(), vec![])];
    assert_eq!(val.get(&ctx, &opt, None, &idi).unwrap_err(), Error::InvalidFunction);
}

#[test]
fn unknown_method_with_field_collapses_to_absence() {
    let ctx = Context::new();
    let opt = Options::new();
    let val = obj(vec![("frob", Value::Number(1))]);
    let idi = vec![Part::Method("frob".to_string(), vec![])];
    assert_eq!(val.get(&ctx, &opt, None, &idi).unwrap(), Value::Nothing);
}

#[test]
fn optional_skips_on_present_values() {
    let ctx = Context::new();
    let opt = Options::new();
    let val = obj(vec![("x", Value::Number(1))]);
    let idi = vec![Part::Optional, field("x")];
    assert_eq!(val.get(&ctx, &opt, None, &idi).unwrap(), Value::Number(1));
    let idi2 = vec![Part::Optional, field("x")];
    assert_eq!(Value::Nothing.get(&ctx, &opt, None, &idi2).unwrap(), Value::Nothing);
}

#[test]
fn refs_materialize_before_descent() {
    let ctx = Context::new();
    let opt = Options::new();
    let val = Value::Refs(vec![thing("t", "a"), thing("t", "b")]);
    let idi = vec![Part::Index(0)];
    assert_eq!(val.get(&ctx, &opt, None, &idi).unwrap(), Value::Thing(thing("t", "a")));
}

#[test]
fn computed_range_slices_an_array() {
    let ctx = Context::new();
    let opt = Options::new();
    let val = Value::Array(vec![
        Value::Number(10),
        Value::Number(20),
        Value::Number(30),
        Value::Number(40),
    ]);
    let idi = vec![Part::Value(Expr::Literal(Value::Range(1, 3)))];
    assert_eq!(
        val.get(&ctx, &opt, None, &idi).unwrap(),
        Value::Array(vec![Value::Number(20), Value::Number(30)])
    );
    let idi2 = vec![Part::Value(Expr::Literal(Value::Number(2)))];
    assert_eq!(val.get(&ctx, &opt, None, &idi2).unwrap(), Value::Number(30));
}

#[test]
fn doc_step_yields_the_document_id() {
    let ctx = Context::new();
    let opt = Options::new();
    let cur = CursorDoc { rid: Some(thing("person", "a")), doc: Value::Nothing };
    let idi = vec![Part::Doc];
    let res = Value::Number(5).get(&ctx, &opt, Some(&cur), &idi).unwrap();
    assert_eq!(res, Value::Thing(thing("person", "a")));
}

#[test]
fn object_index_reads_the_decimal_key() {
    let ctx = Context::new();
    let opt = Options::new();
    let val = obj(vec![("1", Value::Number(99))]);
    let idi = vec![Part::Index(1)];
    assert_eq!(val.get(&ctx, &opt, None, &idi).unwrap(), Value::Number(99));
}

#[test]
fn first_and_last_select_the_ends() {
    let ctx = Context::new();
    let opt = Options::new();
    let val = Value::Array(vec![Value::Number(5), Value::Number(6)]);
    assert_eq!(val.get(&ctx, &opt, None, &vec![Part::First]).unwrap(), Value::Number(5));
    assert_eq!(val.get(&ctx, &opt, None, &vec![Part::Last]).unwrap(), Value::Number(6));
}

#[test]
fn where_keeps_encounter_order() {
    let ctx = Context::new();
    let opt = Options::new();
    let mk = |n: i64| obj(vec![("age", Value::Number(n))]);
    let val = Value::Array(vec![mk(1), mk(5), mk(3), mk(7)]);
    let pred = Expr::Gt(
        Box::new(Expr::FieldRef("age".to_string())),
        Box::new(Expr::Literal(Value::Number(2))),
    );
    let idi = vec![Part::Where(pred)];
    assert_eq!(
        val.get(&ctx, &opt, None, &idi).unwrap(),
        Value::Array(vec![mk(5), mk(3), mk(7)])
    );
}

#[test]
fn scalar_descent_skips_to_the_next_method() {
    let ctx = Context::new();
    let opt = Options::new();
    let val = Value::Number(123);
    let idi = vec![field("x"), field("y")];
    assert_eq!(val.get(&ctx, &opt, None, &idi).unwrap(), Value::Nothing);
}

#[test]
fn destructure_builds_a_fresh_object() {
    let ctx = Context::new();
    let opt = Options::new();
    let val = obj(vec![("a", Value::Number(1)), ("b", obj(vec![("c", Value::Number(2))]))]);
    let idi = vec![Part::Destructure(vec![
        DestructureEntry { field: "a".to_string(), path: vec![field("a")] },
        DestructureEntry { field: "c".to_string(), path: vec![field("b"), field("c")] },
    ])];
    assert_eq!(
        val.get(&ctx, &opt, None, &idi).unwrap(),
        obj(vec![("a", Value::Number(1)), ("c", Value::Number(2))])
    );
}

#[test]
fn complex_record_id_opens_under_id_field() {
    let ctx = Context::new();
    let opt = Options::new();
    let complex = Thing {
        tb: "t".to_string(),
        id: Id::Object(vec![Entry { key: "k".to_string(), val: Value::Number(8) }]),
    };
    let val = obj(vec![("id", Value::Thing(complex))]);
    let idi = vec![field("id"), field("k")];
    assert_eq!(val.get(&ctx, &opt, None, &idi).unwrap(), Value::Number(8));
}

#[test]
fn repeat_recurse_inside_recursion_is_consumed() {
    let ctx = Context::new();
    let opt = Options::new();
    let val = obj(vec![("a", obj(vec![("a", obj(vec![("a", Value::Number(123))]))]))]);
    let idi = vec![
        Part::Recurse(Recurse { min: 1, max: Some(2) }, None, None),
        field("a"),
        Part::RepeatRecurse,
    ];
    let res = val.get(&ctx, &opt, None, &idi).unwrap();
    assert_eq!(res, obj(vec![("a", Value::Number(123))]));
}

#[test]
fn recursion_plan_collects_the_visited_values() {
    let ctx = Context::new();
    let opt = Options::new();
    let val = obj(vec![("a", obj(vec![("a", Value::Number(1))]))]);
    let plan_part = Part::Destructure(vec![DestructureEntry {
        field: "x".to_string(),
        path: vec![Part::RepeatRecurse],
    }]);
    let idi = vec![Part::Recurse(
        Recurse { min: 1, max: Some(9) },
        Some(vec![field("a"), plan_part]),
        None,
    )];
    let res = val.get(&ctx, &opt, None, &idi).unwrap();
    assert_eq!(
        res,
        Value::Array(vec![obj(vec![("a", Value::Number(1))]), Value::Number(1)])
    );
}
