use terminal_macro::classifier::{classify, PrimitiveKind, TypeDescriptor};
use terminal_macro::generator::{
    batch_references_of, batch_units_of, expand, generate, names_of, references_of, retain_first,
    EmissionBuffer, GenerateError, GeneratedUnit, ResolutionContext,
};
use terminal_macro::project::{index_project, Package, ProjectContext, ProjectIndex, SourceFile};
use terminal_macro::schema::{parse_schema, FieldSpec};

fn strings(items: &[&str]) -> Vec<String> {
    items.iter().map(|s| s.to_string()).collect()
}

fn field(name: &str, token: &str) -> FieldSpec {
    FieldSpec { name: name.to_string(), ty: classify(token) }
}

fn record(name: &str, fields: Vec<FieldSpec>) -> GeneratedUnit {
    GeneratedUnit::Record { name: name.to_string(), fields }
}

fn enumeration(name: &str, variants: &[&str]) -> GeneratedUnit {
    GeneratedUnit::Enumeration { name: name.to_string(), variants: strings(variants) }
}

fn project(dependency: &str) -> ProjectIndex {
    index_project(&ProjectContext {
        module: String::new(),
        files: vec![],
        packages: vec![Package {
            name: "dep".to_string(),
            files: vec![SourceFile {
                path: strings(&["dep", "src", "lib.rs"]),
                source: dependency.to_string(),
            }],
        }],
        vendor_root: vec![],
    })
}

fn buffer(units: Vec<GeneratedUnit>, commands: &[&str]) -> EmissionBuffer {
    let mut buffer = EmissionBuffer::new(strings(commands));
    buffer.extend(units);
    buffer
}

fn names(buffer: &EmissionBuffer) -> Vec<String> {
    buffer
        .units()
        .iter()
        .map(|unit| match unit {
            GeneratedUnit::Record { name, .. } => name.clone(),
            GeneratedUnit::Enumeration { name, .. } => name.clone(),
        })
        .collect()
}

#[test]
fn point_record_is_generated_in_field_order() {
    let found = generate(&parse_schema("Point,x,u32,y,u32;"), &project("")).unwrap();
    assert_eq!(
        found,
        buffer(vec![record("Point", vec![field("x", "u32"), field("y", "u32")])], &["Point"])
    );
}

#[test]
fn sequence_field_is_no_named_lookup() {
    // `u8` and `Vec` are defined in the project, yet neither is looked up.
    let index = project("pub struct Vec { a: u8 } pub struct u8 { b: bool }");
    let buffer = generate(&parse_schema("Cmd,data,Vec<u8>;"), &index).unwrap();
    assert_eq!(
        *buffer.units(),
        vec![record(
            "Cmd",
            vec![FieldSpec {
                name: "data".to_string(),
                ty: TypeDescriptor::Sequence(Box::new(TypeDescriptor::Primitive(PrimitiveKind::U8))),
            }]
        )]
    );
}

#[test]
fn duplicate_record_keeps_the_first() {
    let records = parse_schema("Dup,a,u8;Other,b,u8;Dup,c,bool;");
    let kept = retain_first(&records);
    assert_eq!(names_of(&kept), strings(&["Dup", "Other"]));
    let buffer = generate(&records, &project("")).unwrap();
    assert_eq!(
        *buffer.units(),
        vec![record("Dup", vec![field("a", "u8")]), record("Other", vec![field("b", "u8")])]
    );
    assert_eq!(*buffer.commands(), strings(&["Dup", "Other"]));
}

#[test]
fn fields_of_a_dropped_duplicate_are_not_expanded() {
    let index = project("pub enum Mode { On }");
    let buffer = generate(&parse_schema("Dup,a,u8;Dup,m,Mode;"), &index).unwrap();
    assert_eq!(names(&buffer), strings(&["Dup"]));
}

#[test]
fn shared_definition_has_one_unit() {
    let index = project("pub struct Inner { v: u8 }");
    let buffer = generate(&parse_schema("A,x,Inner;B,y,Inner,z,Inner;"), &index).unwrap();
    assert_eq!(names(&buffer), strings(&["A", "B", "Inner"]));
    assert_eq!(buffer.units()[2], record("Inner", vec![field("v", "u8")]));
    assert_eq!(*buffer.commands(), strings(&["A", "B"]));
}

#[test]
fn units_come_in_discovery_order() {
    let index = project(
        "pub struct P { a: A, b: B } pub struct A { b: B, c: C } \
         pub enum B { B1, B2 } pub struct C { d: u8 } pub struct Q { c: C, e: E } pub enum E { E1 }",
    );
    let buffer = generate(&parse_schema("Top,p,P,q,Q;Next,e,E,b,B;"), &index).unwrap();
    assert_eq!(names(&buffer), strings(&["Top", "Next", "P", "A", "B", "C", "Q", "E"]));
    assert_eq!(buffer.units()[4], enumeration("B", &["B1", "B2"]));
}

#[test]
fn self_reference_is_expanded_once() {
    let index = project("pub struct Node { next: Node, value: u8 }");
    let buffer = generate(&parse_schema("List,head,Node;"), &index).unwrap();
    assert_eq!(names(&buffer), strings(&["List", "Node"]));
}

#[test]
fn mutual_reference_is_expanded_once() {
    let index = project("pub struct Ping { pong: Pong } pub struct Pong { ping: Ping }");
    let buffer = generate(&parse_schema("Game,a,Pong,b,Ping;"), &index).unwrap();
    assert_eq!(names(&buffer), strings(&["Game", "Pong", "Ping"]));
}

#[test]
fn reference_inside_a_container_is_not_expanded() {
    let index = project("pub struct Inner { v: u8 }");
    let buffer = generate(&parse_schema("A,x,Vec<Inner>,y,Option<Inner>;"), &index).unwrap();
    assert_eq!(names(&buffer), strings(&["A"]));
}

#[test]
fn batch_record_is_not_looked_up() {
    let index = project("pub struct B { from_project: u8 }");
    let buffer = generate(&parse_schema("A,b,B;B,x,u8;"), &index).unwrap();
    assert_eq!(
        *buffer.units(),
        vec![record("A", vec![field("b", "B")]), record("B", vec![field("x", "u8")])]
    );
}

#[test]
fn unresolvable_type_is_left_out() {
    let index = project("pub struct Known { v: u8 }");
    let buffer = generate(&parse_schema("A,x,Missing,y,Known,z,Missing;"), &index).unwrap();
    assert_eq!(names(&buffer), strings(&["A", "Known"]));
    assert_eq!(
        buffer.units()[0],
        record("A", vec![field("x", "Missing"), field("y", "Known"), field("z", "Missing")])
    );
}

#[test]
fn positional_fields_end_the_pass() {
    let index = project("pub struct Pair(u8, u8); pub struct Holder { p: Pair } pub struct Unit;");
    assert_eq!(
        generate(&parse_schema("A,p,Pair;"), &index),
        Err(GenerateError::UnsupportedFields { record: "Pair".to_string() })
    );
    assert_eq!(
        generate(&parse_schema("A,x,u8;B,h,Holder;"), &index),
        Err(GenerateError::UnsupportedFields { record: "Pair".to_string() })
    );
    assert_eq!(
        generate(&parse_schema("A,u,Unit;"), &index),
        Err(GenerateError::UnsupportedFields { record: "Unit".to_string() })
    );
    // What is never referred to does no harm.
    assert!(generate(&parse_schema("A,x,u8;"), &index).is_ok());
}

#[test]
fn empty_schema_gives_an_empty_buffer() {
    let found = generate(&vec![], &project("pub struct X { a: u8 }")).unwrap();
    assert_eq!(found, EmissionBuffer::new(vec![]));
    assert!(found.units().is_empty() && found.commands().is_empty());
}

#[test]
fn references_follow_field_order() {
    let records = parse_schema("A,x,Foo,n,u8,y,Bar,z,Vec<Baz>,w,Foo;B,v,Qux;");
    assert_eq!(references_of(&records[0].fields), strings(&["Foo", "Bar", "Foo"]));
    assert_eq!(batch_references_of(&records), strings(&["Foo", "Bar", "Foo", "Qux"]));
    assert_eq!(batch_units_of(&records).len(), 2);
}

#[test]
fn expand_takes_names_and_references() {
    let index = project("pub enum Foo { F } pub enum Bar { B }");
    let units = expand(&index, &strings(&["Bar"]), &strings(&["Foo", "Bar", "Foo"])).unwrap();
    assert_eq!(units, vec![enumeration("Foo", &["F"])]);
    assert_eq!(expand(&index, &vec![], &vec![]), Ok(vec![]));
}

#[test]
fn generation_is_repeatable() {
    let index = project("pub struct P { a: A } pub struct A { v: u8 }");
    let records = parse_schema("Top,p,P;");
    assert_eq!(generate(&records, &index), generate(&records, &index));
}

#[test]
fn context_advances_step_by_step() {
    let index = project("pub struct P { a: A, m: Missing } pub enum A { A1 }");
    let mut context =
        ResolutionContext::new(&index, strings(&["Own"]), &strings(&["Own", "P", "P", "A"]));
    assert!(!context.is_done());
    assert_eq!(context.pending, strings(&["A", "P", "P", "Own"]));
    assert!(context.visited.is_empty() && context.units.is_empty());

    // `Own` is a record of the batch: passed over, not visited.
    assert_eq!(context.advance(), Ok(()));
    assert_eq!(context.pending, strings(&["A", "P", "P"]));
    assert!(context.visited.is_empty() && context.units.is_empty());

    // `P` is visited, gets its unit, and its references come next.
    assert_eq!(context.advance(), Ok(()));
    assert_eq!(context.pending, strings(&["A", "P", "Missing", "A"]));
    assert_eq!(context.visited, strings(&["P"]));
    assert_eq!(context.units, vec![record("P", vec![field("a", "A"), field("m", "Missing")])]);

    // `A` is an enumeration.
    assert_eq!(context.advance(), Ok(()));
    assert_eq!(context.visited, strings(&["P", "A"]));
    assert_eq!(context.units.len(), 2);
    assert_eq!(context.units[1], enumeration("A", &["A1"]));

    // `Missing` is visited without a unit.
    assert_eq!(context.advance(), Ok(()));
    assert_eq!(context.visited, strings(&["P", "A", "Missing"]));
    assert_eq!(context.units.len(), 2);

    // `P` and `A` are visited already.
    assert_eq!(context.advance(), Ok(()));
    assert_eq!(context.advance(), Ok(()));
    assert!(context.is_done());
    assert_eq!(context.visited, strings(&["P", "A", "Missing"]));
    assert_eq!(context.units.len(), 2);

    // With nothing pending a step changes nothing.
    assert_eq!(context.advance(), Ok(()));
    assert!(context.is_done());
    assert_eq!(context.units.len(), 2);
}

#[test]
fn context_reports_positional_fields() {
    let index = project("pub struct Pair(u8, u8);");
    let mut context = ResolutionContext::new(&index, vec![], &strings(&["Pair"]));
    assert_eq!(
        context.advance(),
        Err(GenerateError::UnsupportedFields { record: "Pair".to_string() })
    );
}

#[test]
fn buffer_keeps_the_order_of_addition() {
    let mut buffer = EmissionBuffer::new(strings(&["A"]));
    buffer.push(record("A", vec![]));
    buffer.extend(vec![enumeration("B", &["B1"]), record("C", vec![])]);
    buffer.push(enumeration("D", &[]));
    buffer.extend(vec![]);
    assert_eq!(names(&buffer), strings(&["A", "B", "C", "D"]));
    assert_eq!(*buffer.commands(), strings(&["A"]));
}

#[test]
fn error_message_names_the_record() {
    let error = GenerateError::UnsupportedFields { record: "Pair".to_string() };
    assert_eq!(error.message(), "Only named fields are supported: Pair");
}

#[test]
fn named_type_is_looked_up_by_its_leading_identifier() {
    let index = project("pub struct Page<T> { items: Vec<T>, next: Option<u32> }");
    let found = generate(&parse_schema("Listing,page,Page<u8>;"), &index).unwrap();
    assert_eq!(names(&found), strings(&["Listing", "Page"]));
    assert_eq!(found.units()[0], record("Listing", vec![field("page", "Page<u8>")]));
    let records = parse_schema("A,p,store::Page<u8>,q,&str,r,Page;");
    assert_eq!(references_of(&records[0].fields), strings(&["store", "&str", "Page"]));
}
