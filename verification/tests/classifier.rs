use terminal_macro::classifier::{classify, reference_name, PrimitiveKind, TypeDescriptor};
use terminal_macro::text::lex;

fn named(name: &str) -> TypeDescriptor {
    TypeDescriptor::Named(name.to_string())
}

#[test]
fn lex_cuts_words_and_punctuation() {
    assert_eq!(lex("Vec<u8>"), vec!["Vec", "<", "u8", ">"]);
    assert_eq!(lex("  crate :: models::Foo "), vec!["crate", ":", ":", "models", ":", ":", "Foo"]);
    assert_eq!(lex(""), Vec::<String>::new());
    assert_eq!(lex(" \t\n"), Vec::<String>::new());
    assert_eq!(lex("a_b1,c;"), vec!["a_b1", ",", "c", ";"]);
}

#[test]
fn classify_primitive_keywords() {
    let cases = [
        ("u8", PrimitiveKind::U8),
        ("u16", PrimitiveKind::U16),
        ("u32", PrimitiveKind::U32),
        ("u64", PrimitiveKind::U64),
        ("u128", PrimitiveKind::U128),
        ("usize", PrimitiveKind::Usize),
        ("i8", PrimitiveKind::I8),
        ("i16", PrimitiveKind::I16),
        ("i32", PrimitiveKind::I32),
        ("i64", PrimitiveKind::I64),
        ("i128", PrimitiveKind::I128),
        ("isize", PrimitiveKind::Isize),
        ("f32", PrimitiveKind::F32),
        ("f64", PrimitiveKind::F64),
        ("String", PrimitiveKind::Text),
        ("bool", PrimitiveKind::Bool),
        ("char", PrimitiveKind::Char),
    ];
    for (token, kind) in cases {
        assert_eq!(classify(token), TypeDescriptor::Primitive(kind));
    }
}

#[test]
fn classify_sequence_of_primitive() {
    assert_eq!(
        classify("Vec<u8>"),
        TypeDescriptor::Sequence(Box::new(TypeDescriptor::Primitive(PrimitiveKind::U8)))
    );
    assert_eq!(
        classify("Vec < u8 >"),
        TypeDescriptor::Sequence(Box::new(TypeDescriptor::Primitive(PrimitiveKind::U8)))
    );
}

#[test]
fn classify_nested_containers() {
    assert_eq!(
        classify("Option<Vec<Point>>"),
        TypeDescriptor::Optional(Box::new(TypeDescriptor::Sequence(Box::new(named("Point")))))
    );
}

#[test]
fn classify_other_tokens_as_named() {
    assert_eq!(classify("Point"), named("Point"));
    assert_eq!(classify("models::Point"), named("models::Point"));
    assert_eq!(classify("models :: Point"), named("models::Point"));
    assert_eq!(classify("dyn  Shape"), named("dyn Shape"));
    assert_eq!(classify("HashMap < String , u8 >"), named("HashMap<String,u8>"));
    assert_eq!(classify("Vec"), named("Vec"));
    assert_eq!(classify("Vec<>"), named("Vec<>"));
    assert_eq!(classify(""), named(""));
    assert_eq!(classify("U8"), named("U8"));
}

#[test]
fn type_text_round_trip() {
    for token in ["u8", "Vec<u8>", "Option<Vec<String>>", "Point", "Vec<Point>"] {
        let mut out = String::new();
        classify(token).write(&mut out);
        assert_eq!(out, token);
    }
}

#[test]
fn descriptor_clone_is_equal() {
    let ty = classify("Option<Vec<Point>>");
    assert_eq!(ty.clone(), ty);
}

#[test]
fn reference_name_is_the_leading_identifier() {
    let name = |text: &str| reference_name(&text.to_string());
    assert_eq!(name("Point"), "Point");
    assert_eq!(name("Page<u8>"), "Page");
    assert_eq!(name("store::Page"), "store");
    assert_eq!(name("dyn Shape"), "dyn");
    assert_eq!(name("&str"), "&str");
    assert_eq!(name("(u8,u8)"), "(u8,u8)");
    assert_eq!(name("9lives"), "9lives");
    assert_eq!(name(""), "");
}
