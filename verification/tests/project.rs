use terminal_macro::classifier::{PrimitiveKind, TypeDescriptor};
use terminal_macro::project::{
    declarations, declare, declare_all, ends_with, index_project, module_of, read_fields, read_import_path,
    read_record, rust_file, searched, vendored, Declaration, ImportPath, Package, ProjectContext,
    Scope, SourceFile,
};
use terminal_macro::schema::FieldSpec;
use terminal_macro::syntax::RawItem;
use terminal_macro::text::lex;

fn strings(items: &[&str]) -> Vec<String> {
    items.iter().map(|s| s.to_string()).collect()
}

fn path(segments: &[&str], terminal: Option<&str>) -> ImportPath {
    ImportPath { segments: strings(segments), terminal: terminal.map(|s| s.to_string()) }
}

fn field(name: &str, ty: TypeDescriptor) -> FieldSpec {
    FieldSpec { name: name.to_string(), ty }
}

fn file(components: &[&str], source: &str) -> SourceFile {
    SourceFile { path: strings(components), source: source.to_string() }
}

const MODULE: &str = "
use crate::models::Point;
use std::collections::{HashMap, HashSet};
use serde::Serialize as Ser;
use other_crate::*;

/// A point.
#[derive(Debug)]
pub struct Point { pub x: u32, #[allow(unused)] y: Vec<u8> }
struct Pair(u8, u8);
struct Marker;
pub enum Colour { Red, Green(u8), Blue { level: u8 } }
fn helper() {}
";

#[test]
fn declarations_of_a_source_text() {
    let found = declarations(MODULE);
    assert_eq!(found.len(), 9);
    assert_eq!(found[0], Declaration::Import(path(&["crate", "models"], Some("Point"))));
    assert_eq!(found[1], Declaration::Import(path(&["std", "collections"], None)));
    assert_eq!(found[2], Declaration::Import(path(&["serde"], None)));
    assert_eq!(found[3], Declaration::Import(path(&["other_crate"], None)));
    assert_eq!(
        found[4],
        Declaration::Record {
            name: "Point".to_string(),
            fields: Some(vec![
                field("x", TypeDescriptor::Primitive(PrimitiveKind::U32)),
                field(
                    "y",
                    TypeDescriptor::Sequence(Box::new(TypeDescriptor::Primitive(PrimitiveKind::U8)))
                ),
            ]),
        }
    );
    assert_eq!(found[5], Declaration::Record { name: "Pair".to_string(), fields: None });
    assert_eq!(found[6], Declaration::Record { name: "Marker".to_string(), fields: None });
    assert_eq!(
        found[7],
        Declaration::Enumeration {
            name: "Colour".to_string(),
            variants: strings(&["Red", "Green", "Blue"]),
        }
    );
    assert_eq!(found[8], Declaration::Other);
}

#[test]
fn declarations_of_a_text_that_does_not_parse() {
    assert_eq!(declarations("pub struct {"), vec![]);
    assert_eq!(declarations("struct S { a: u8 } fn"), vec![]);
    assert_eq!(declarations(""), vec![]);
}

#[test]
fn declare_all_keeps_the_order_of_the_items() {
    let items = vec![
        RawItem::Other,
        RawItem::Import { path: "crate :: models :: Point".to_string() },
        RawItem::Enumeration { name: "E".to_string(), variants: strings(&["A", "B"]) },
        RawItem::Record { name: "T".to_string(), fields: "(u8 , u8)".to_string() },
        RawItem::Record { name: "U".to_string(), fields: "".to_string() },
    ];
    assert_eq!(
        declare_all(&items),
        vec![
            Declaration::Other,
            Declaration::Import(path(&["crate", "models"], Some("Point"))),
            Declaration::Enumeration { name: "E".to_string(), variants: strings(&["A", "B"]) },
            Declaration::Record { name: "T".to_string(), fields: None },
            Declaration::Record { name: "U".to_string(), fields: None },
        ]
    );
    assert_eq!(declare_all(&vec![]), vec![]);
}

#[test]
fn declare_reads_the_field_list() {
    let item = RawItem::Record { name: "R".to_string(), fields: "{ a : Inner }".to_string() };
    assert_eq!(
        declare(&item),
        Declaration::Record {
            name: "R".to_string(),
            fields: Some(vec![field("a", TypeDescriptor::Named("Inner".to_string()))]),
        }
    );
    let empty = RawItem::Record { name: "E".to_string(), fields: "{ }".to_string() };
    assert_eq!(declare(&empty), Declaration::Record { name: "E".to_string(), fields: Some(vec![]) });
}

#[test]
fn read_record_with_and_without_names() {
    let named = Some(vec![("a".to_string(), "Option < u8 >".to_string())]);
    assert_eq!(
        read_record("R".to_string(), &named),
        Declaration::Record {
            name: "R".to_string(),
            fields: Some(vec![field(
                "a",
                TypeDescriptor::Optional(Box::new(TypeDescriptor::Primitive(PrimitiveKind::U8)))
            )]),
        }
    );
    assert_eq!(
        read_record("R".to_string(), &None),
        Declaration::Record { name: "R".to_string(), fields: None }
    );
    assert_eq!(read_fields(&vec![]), vec![]);
}

#[test]
fn import_paths() {
    assert_eq!(read_import_path(&lex("crate :: a :: b :: Foo")), path(&["crate", "a", "b"], Some("Foo")));
    assert_eq!(read_import_path(&lex("crate::Foo")), path(&["crate"], Some("Foo")));
    assert_eq!(read_import_path(&lex("Foo")), path(&[], Some("Foo")));
    assert_eq!(read_import_path(&lex("a :: *")), path(&["a"], None));
    assert_eq!(read_import_path(&lex("a :: b as c")), path(&["a"], None));
    assert_eq!(read_import_path(&lex("a :: { b , c :: d }")), path(&["a"], None));
    assert_eq!(read_import_path(&lex("")), path(&[], None));
    assert_eq!(read_import_path(&lex("a ::")), path(&["a"], None));
}

#[test]
fn file_name_rules() {
    assert!(ends_with("lib.rs", ".rs"));
    assert!(ends_with("lib.rs", ""));
    assert!(!ends_with("rs", ".rs"));
    assert!(rust_file(&"lib.rs".to_string()));
    assert!(rust_file(&"a.b.rs".to_string()));
    assert!(!rust_file(&".rs".to_string()));
    assert!(!rust_file(&"lib.rss".to_string()));
    assert!(!rust_file(&"librs".to_string()));
    assert_eq!(module_of(&strings(&["src", "models.rs"])), Some("models".to_string()));
    assert_eq!(module_of(&strings(&["src", "a", "models.rs"])), None);
    assert_eq!(module_of(&strings(&["tests", "models.rs"])), None);
    assert_eq!(module_of(&strings(&["src", "models.txt"])), None);
}

#[test]
fn vendored_paths() {
    let root = strings(&["root", ".cargo", "registry"]);
    assert!(vendored(&strings(&["root", ".cargo", "registry", "src", "x", "lib.rs"]), &root));
    assert!(vendored(&strings(&["root", ".cargo", "registry"]), &root));
    assert!(!vendored(&strings(&["root", ".cargo"]), &root));
    assert!(!vendored(&strings(&["root", ".cargo", "registry2", "lib.rs"]), &root));
    assert!(!vendored(&strings(&["root", ".cargo", "registry", "lib.rs"]), &vec![]));
    assert!(searched(&strings(&["dep", "src", "lib.rs"]), &root));
    assert!(!searched(&strings(&["dep", "README.md"]), &root));
    assert!(!searched(&strings(&["root", ".cargo", "registry", "lib.rs"]), &root));
    assert!(!searched(&vec![], &root));
}

#[test]
fn index_of_a_project() {
    let context = ProjectContext {
        module: "use crate::models::Point;".to_string(),
        files: vec![
            file(&["src", "models.rs"], "pub struct Point { x: u8 }"),
            file(&["src", "broken.rs"], "pub struct {"),
            file(&["Cargo.toml"], "[package]"),
        ],
        packages: vec![Package {
            name: "dep".to_string(),
            files: vec![
                file(&["deps", "dep", "build.rs"], "pub enum First { A }"),
                file(&["deps", "dep", "notes.txt"], "pub enum Text { A }"),
                file(&["vendor", "x", "lib.rs"], "pub enum Cached { A }"),
                file(&["deps", "dep", "src", "lib.rs"], "pub struct {"),
                file(&["deps", "dep", "src", "z.rs"], "pub enum Last { B }"),
            ],
        }],
        vendor_root: strings(&["vendor"]),
    };
    let index = index_project(&context);
    assert_eq!(index.module, vec![Declaration::Import(path(&["crate", "models"], Some("Point")))]);
    assert_eq!(
        index.modules,
        vec![
            Scope {
                name: "models".to_string(),
                declarations: vec![Declaration::Record {
                    name: "Point".to_string(),
                    fields: Some(vec![field("x", TypeDescriptor::Primitive(PrimitiveKind::U8))]),
                }],
            },
            Scope { name: "broken".to_string(), declarations: vec![] },
        ]
    );
    assert_eq!(
        index.packages,
        vec![Scope {
            name: "dep".to_string(),
            declarations: vec![
                Declaration::Enumeration { name: "First".to_string(), variants: strings(&["A"]) },
                Declaration::Enumeration { name: "Last".to_string(), variants: strings(&["B"]) },
            ],
        }]
    );
}
