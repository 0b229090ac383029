use idiompath::context::{Context, CursorDoc, Options};
use idiompath::part::Part;
use idiompath::value::{Entry, Expr, ExprEntry, Id, Thing, Value};

fn obj(fields: Vec<(&str, Value)>) -> Value {
    Value::Object(
        fields.into_iter().map(|(k, v)| Entry { key: k.to_string(), val: v }).collect(),
    )
}

fn field(name: &str) -> Part {
    Part::Field(name.to_string())
}

fn thing(tb: &str, id: &str) -> Thing {
    Thing { tb: tb.to_string(), id: Id::Strand(id.to_string()) }
}

fn age_gt(n: i64) -> Expr {
    Expr::Gt(
        Box::new(Expr::FieldRef("age".to_string())),
        Box::new(Expr::Literal(Value::Number(n))),
    )
}

fn ages() -> Value {
    obj(vec![(
        "test",
        obj(vec![(
            "something",
            Value::Array(vec![
                obj(vec![("age", Value::Number(34))]),
                obj(vec![("age", Value::Number(36))]),
            ]),
        )]),
    )])
}

#[test]
fn get_none() {
    let ctx = Context::new();
    let opt = Options::new();
    let idi: Vec<Part> = vec![];
    let val = obj(vec![(
        "test",
        obj(vec![("other", Value::Null), ("something", Value::Number(123))]),
    )]);
    let res = val.get(&ctx, &opt, None, &idi).unwrap();
    assert_eq!(res, val);
}

#[test]
fn get_basic() {
    let ctx = Context::new();
    let opt = Options::new();
    let idi = vec![field("test"), field("something")];
    let val = obj(vec![(
        "test",
        obj(vec![("other", Value::Null), ("something", Value::Number(123))]),
    )]);
    let res = val.get(&ctx, &opt, None, &idi).unwrap();
    assert_eq!(res, Value::Number(123));
}

#[test]
fn get_basic_deep_ok() {
    let ctx = Context::new();
    let opt = Options::new();
    let depth = 20;
    let mut idi: Vec<Part> = Vec::new();
    for _ in 0..depth {
        idi.push(field("test"));
    }
    idi.push(field("something"));
    let mut val = obj(vec![("other", Value::Null), ("something", Value::Number(123))]);
    for _ in 0..depth {
        val = obj(vec![("test", val)]);
    }
    let res = val.get(&ctx, &opt, None, &idi).unwrap();
    assert_eq!(res, Value::Number(123));
}

#[test]
fn get_basic_deep_ko() {
    let ctx = Context::new();
    let opt = Options::new();
    let depth = 2000;
    let mut idi: Vec<Part> = Vec::new();
    for _ in 0..depth {
        idi.push(field("test"));
    }
    idi.push(field("something"));
    let val = obj(vec![]);
    let err = val.get(&ctx, &opt, None, &idi).unwrap_err();
    assert!(
        matches!(err, idiompath::eval::Error::ComputationDepthExceeded),
        "expected computation depth exceeded, got {:?}",
        err
    );
}

#[test]
fn get_thing() {
    let ctx = Context::new();
    let opt = Options::new();
    let idi = vec![field("test"), field("other")];
    let val = obj(vec![(
        "test",
        obj(vec![
            ("other", Value::Thing(thing("test", "tobie"))),
            ("something", Value::Number(123)),
        ]),
    )]);
    let res = val.get(&ctx, &opt, None, &idi).unwrap();
    assert_eq!(res, Value::Thing(thing("test", "tobie")));
}

#[test]
fn get_array() {
    let ctx = Context::new();
    let opt = Options::new();
    let idi = vec![field("test"), field("something"), Part::Index(1)];
    let val = obj(vec![(
        "test",
        obj(vec![(
            "something",
            Value::Array(vec![Value::Number(123), Value::Number(456), Value::Number(789)]),
        )]),
    )]);
    let res = val.get(&ctx, &opt, None, &idi).unwrap();
    assert_eq!(res, Value::Number(456));
}

#[test]
fn get_array_thing() {
    let ctx = Context::new();
    let opt = Options::new();
    let idi = vec![field("test"), field("something"), Part::Index(1)];
    let val = obj(vec![(
        "test",
        obj(vec![(
            "something",
            Value::Array(vec![
                Value::Thing(thing("test", "tobie")),
                Value::Thing(thing("test", "jaime")),
            ]),
        )]),
    )]);
    let res = val.get(&ctx, &opt, None, &idi).unwrap();
    assert_eq!(res, Value::Thing(thing("test", "jaime")));
}

#[test]
fn get_array_field() {
    let ctx = Context::new();
    let opt = Options::new();
    let idi = vec![field("test"), field("something"), Part::Index(1), field("age")];
    let val = ages();
    let res = val.get(&ctx, &opt, None, &idi).unwrap();
    assert_eq!(res, Value::Number(36));
}

#[test]
fn get_array_fields() {
    let ctx = Context::new();
    let opt = Options::new();
    let idi = vec![field("test"), field("something"), Part::All, field("age")];
    let val = ages();
    let res = val.get(&ctx, &opt, None, &idi).unwrap();
    assert_eq!(res, Value::Array(vec![Value::Number(34), Value::Number(36)]));
}

#[test]
fn get_array_fields_flat() {
    let ctx = Context::new();
    let opt = Options::new();
    let idi = vec![field("test"), field("something"), field("age")];
    let val = ages();
    let res = val.get(&ctx, &opt, None, &idi).unwrap();
    assert_eq!(res, Value::Array(vec![Value::Number(34), Value::Number(36)]));
}

#[test]
fn get_array_where_field() {
    let ctx = Context::new();
    let opt = Options::new();
    let idi = vec![field("test"), field("something"), Part::Where(age_gt(35)), field("age")];
    let val = ages();
    let res = val.get(&ctx, &opt, None, &idi).unwrap();
    assert_eq!(res, Value::Array(vec![Value::Number(36)]));
}

#[test]
fn get_array_where_fields() {
    let ctx = Context::new();
    let opt = Options::new();
    let idi = vec![field("test"), field("something"), Part::Where(age_gt(35))];
    let val = ages();
    let res = val.get(&ctx, &opt, None, &idi).unwrap();
    assert_eq!(res, Value::Array(vec![obj(vec![("age", Value::Number(36))])]));
}

#[test]
fn get_array_where_fields_array_index() {
    let ctx = Context::new();
    let opt = Options::new();
    let idi = vec![field("test"), field("something"), Part::Where(age_gt(30)), Part::Index(0)];
    let val = ages();
    let res = val.get(&ctx, &opt, None, &idi).unwrap();
    assert_eq!(res, obj(vec![("age", Value::Number(34))]));
}

#[test]
fn get_future_embedded_field() {
    let ctx = Context::new();
    let opt = Options::new();
    let idi = vec![field("test"), field("something"), Part::Where(age_gt(35))];
    let inner = obj(vec![(
        "something",
        Value::Array(vec![
            obj(vec![("age", Value::Number(34))]),
            obj(vec![("age", Value::Number(36))]),
        ]),
    )]);
    let val = obj(vec![("test", Value::Future(Box::new(Expr::Literal(inner))))]);
    let res = val.get(&ctx, &opt, None, &idi).unwrap();
    assert_eq!(res, Value::Array(vec![obj(vec![("age", Value::Number(36))])]));
}

#[test]
fn get_future_embedded_field_with_reference() {
    let ctx = Context::new();
    let opt = Options::new();
    let doc = obj(vec![
        ("name", Value::Strand("Tobie".to_string())),
        (
            "something",
            Value::Array(vec![
                obj(vec![("age", Value::Number(34))]),
                obj(vec![("age", Value::Number(36))]),
            ]),
        ),
    ]);
    let idi = vec![field("test"), field("something"), Part::Where(age_gt(35))];
    let fut = Expr::Obj(vec![ExprEntry {
        key: "something".to_string(),
        expr: Expr::FieldRef("something".to_string()),
    }]);
    let val = obj(vec![("test", Value::Future(Box::new(fut)))]);
    let cur = CursorDoc { rid: None, doc };
    let res = val.get(&ctx, &opt, Some(&cur), &idi).unwrap();
    assert_eq!(res, Value::Array(vec![obj(vec![("age", Value::Number(36))])]));
}

#[test]
fn get_object_with_thing_based_key() {
    let ctx = Context::new();
    let opt = Options::new();
    let idi = vec![
        field("test"),
        Part::Value(Expr::Literal(Value::Thing(thing("city", "london")))),
    ];
    let val = obj(vec![(
        "test",
        obj(vec![
            ("city:london", Value::Bool(true)),
            ("other", Value::Thing(thing("test", "tobie"))),
            ("something", Value::Number(123)),
        ]),
    )]);
    let res = val.get(&ctx, &opt, None, &idi).unwrap();
    assert_eq!(res, Value::Bool(true));
}
