use terminal_macro::classifier::{PrimitiveKind, TypeDescriptor};
use terminal_macro::schema::{
    parse_schema, parse_statement, segments, statements, FieldSpec, RecordSchema,
};
use terminal_macro::text::{identifier, lex};

fn field(name: &str, ty: TypeDescriptor) -> FieldSpec {
    FieldSpec { name: name.to_string(), ty }
}

fn primitive(kind: PrimitiveKind) -> TypeDescriptor {
    TypeDescriptor::Primitive(kind)
}

fn strings(items: &[&str]) -> Vec<String> {
    items.iter().map(|s| s.to_string()).collect()
}

#[test]
fn point_schema_keeps_field_order() {
    let records = parse_schema("Point,x,u32,y,u32;");
    assert_eq!(
        records,
        vec![RecordSchema {
            name: "Point".to_string(),
            fields: vec![
                field("x", primitive(PrimitiveKind::U32)),
                field("y", primitive(PrimitiveKind::U32)),
            ],
        }]
    );
}

#[test]
fn statements_end_at_semicolons() {
    let tokens = lex("A,x,u8; B ;; C,y,u8");
    assert_eq!(
        statements(&tokens),
        vec![strings(&["A", ",", "x", ",", "u8"]), strings(&["B"]), strings(&[])]
    );
}

#[test]
fn text_after_last_semicolon_is_dropped() {
    assert_eq!(parse_schema("A,x,u8"), Vec::<RecordSchema>::new());
    let records = parse_schema("A,x,u8;B,y,u8");
    assert_eq!(records.len(), 1);
    assert_eq!(records[0].name, "A");
}

#[test]
fn segments_split_at_top_level_commas() {
    let tokens = lex("Rec, m, HashMap<String, u8>, n, u8");
    assert_eq!(
        segments(&tokens),
        vec![
            strings(&["Rec"]),
            strings(&["m"]),
            strings(&["HashMap", "<", "String", ",", "u8", ">"]),
            strings(&["n"]),
            strings(&["u8"]),
        ]
    );
}

#[test]
fn doubled_comma_counts_once() {
    let records = parse_schema("Point,,x,u32,,y,u32;");
    assert_eq!(records.len(), 1);
    assert_eq!(records[0].fields.len(), 2);
    assert_eq!(segments(&lex(",a,,b,")), vec![strings(&["a"]), strings(&["b"])]);
}

#[test]
fn odd_number_of_field_tokens_is_skipped() {
    let records = parse_schema("Bad,x;Good,y,bool;");
    assert_eq!(
        records,
        vec![RecordSchema {
            name: "Good".to_string(),
            fields: vec![field("y", primitive(PrimitiveKind::Bool))],
        }]
    );
}

#[test]
fn unparseable_statement_is_skipped() {
    assert_eq!(parse_schema(";"), Vec::<RecordSchema>::new());
    assert_eq!(parse_schema("<,x,u8;"), Vec::<RecordSchema>::new());
    assert_eq!(parse_schema("A b,x,u8;"), Vec::<RecordSchema>::new());
    assert_eq!(parse_schema("A,1x,u8;"), Vec::<RecordSchema>::new());
    assert_eq!(parse_schema("A,Vec<u8>,u8;"), Vec::<RecordSchema>::new());
}

#[test]
fn record_without_fields() {
    assert_eq!(
        parse_schema("Empty;"),
        vec![RecordSchema { name: "Empty".to_string(), fields: vec![] }]
    );
}

#[test]
fn semicolon_separated_fields_are_separate_statements() {
    // Each `;` ends a statement, so only `Point` is a record here and it has no
    // fields: `x,u32` and `y,u32` have an odd number of field tokens.
    assert_eq!(
        parse_schema("Point;x,u32;y,u32;"),
        vec![RecordSchema { name: "Point".to_string(), fields: vec![] }]
    );
}

#[test]
fn parse_statement_reads_pairs() {
    let parts = vec![strings(&["Cmd"]), strings(&["data"]), strings(&["Vec", "<", "u8", ">"])];
    assert_eq!(
        parse_statement(&parts),
        Some(RecordSchema {
            name: "Cmd".to_string(),
            fields: vec![field(
                "data",
                TypeDescriptor::Sequence(Box::new(primitive(PrimitiveKind::U8)))
            )],
        })
    );
    assert_eq!(parse_statement(&vec![]), None);
    assert_eq!(parse_statement(&vec![strings(&["Cmd"]), strings(&["data"])]), None);
}

#[test]
fn identifier_rule() {
    assert!(identifier(&"abc_1".to_string()));
    assert!(identifier(&"_x".to_string()));
    assert!(!identifier(&"".to_string()));
    assert!(!identifier(&"1abc".to_string()));
    assert!(!identifier(&"a-b".to_string()));
    assert!(!identifier(&"<".to_string()));
}

#[test]
fn record_clone_is_equal() {
    let records = parse_schema("Point,x,u32,y,Option<Vec<Named>>;");
    assert_eq!(records[0].clone(), records[0]);
}
