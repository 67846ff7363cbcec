use lake::lake::{RecordBatch, DB};
use lake::schema::{Field, Schema, SchemaError};

fn names(list: &[&str]) -> Vec<String> {
    list.iter().map(|s| s.to_string()).collect()
}

#[test]
fn field_has_its_name() {
    let field = Field::new("id");
    assert_eq!(field.name(), "id");
    assert_eq!(field.to_text(), "Field(id)");
}

#[test]
fn schema_of_unique_fields() {
    let schema = Schema::from(vec![Field::new("a"), Field::new("b"), Field::new("c")]).unwrap();
    assert_eq!(schema.field_count(), 3);
    assert!(schema.has_field(&"b".to_string()));
    assert!(!schema.has_field(&"d".to_string()));
    assert_eq!(schema.to_text(), "[Field(a), Field(b), Field(c)]");
    assert_eq!(Schema::from(vec![]).unwrap().to_text(), "[]");
}

#[test]
fn duplicate_field_is_refused() {
    let r = Schema::from(vec![
        Field::new("a"),
        Field::new("b"),
        Field::new("c"),
        Field::new("b"),
        Field::new("a"),
    ]);
    match r {
        Err(SchemaError::DuplicateField(name)) => assert_eq!(name, "b"),
        other => panic!("{:?}", other),
    }
    let e = Schema::from(vec![Field::new("x"), Field::new("x")]).unwrap_err();
    assert_eq!(e.message(), "Schema should contain unique fd names only, x is duplicated");
}

#[test]
fn index_over_known_fields() {
    let schema = Schema::from(vec![Field::new("a"), Field::new("b")]).unwrap();
    let schema = schema.with_index("by_a".to_string(), names(&["a"])).unwrap();
    assert_eq!(schema.to_text(), "[Field(a), Field(b)by_a[\"a\"]]");
    let schema = schema.with_index("both".to_string(), names(&["b", "a"])).unwrap();
    assert_eq!(schema.to_text(), "[Field(a), Field(b)by_a[\"a\"], both[\"b\", \"a\"]]");
    // an index of the same name is replaced
    let schema = schema.with_index("by_a".to_string(), names(&["b"])).unwrap();
    assert_eq!(schema.to_text(), "[Field(a), Field(b)by_a[\"b\"], both[\"b\", \"a\"]]");
}

#[test]
fn index_over_unknown_field_is_refused() {
    let schema = Schema::from(vec![Field::new("a"), Field::new("b")]).unwrap();
    let r = schema.with_index("idx".to_string(), names(&["a", "z", "y"]));
    match r {
        Err(SchemaError::UnknownField(name)) => assert_eq!(name, "z"),
        other => panic!("{:?}", other),
    }
    let schema = Schema::from(vec![Field::new("a")]).unwrap();
    let e = schema.with_index("idx".to_string(), names(&["q"])).unwrap_err();
    assert_eq!(e.message(), "Unknown field name q to create index");
}

#[test]
fn database_keeps_its_schema() {
    let schema = Schema::from(vec![Field::new("a")]).unwrap();
    let db = DB::new(schema);
    assert_eq!(db.schema().to_text(), "[Field(a)]");
    let batch = RecordBatch::new(names(&["a"]), vec![vec![vec![1, 2]]]);
    assert_eq!(batch.keys(), &names(&["a"]));
    assert_eq!(batch.values(), &vec![vec![vec![1u8, 2]]]);
}
