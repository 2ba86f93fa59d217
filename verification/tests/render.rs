use terminal_macro::classifier::classify;
use terminal_macro::generator::{generate, EmissionBuffer, GenerateError, GeneratedUnit};
use terminal_macro::project::{index_project, Package, ProjectContext, SourceFile};
use terminal_macro::render::{
    render, write_dispatch, write_unit, CHOICE_LOOP, DISPATCH_BODY, DISPATCH_HEAD, DISPLAY_HEAD,
    ENUMERATION_DERIVES, GLUE, RECORD_DERIVES,
};
use terminal_macro::schema::{parse_schema, FieldSpec};
use terminal_macro::terminal_macro;

fn strings(items: &[&str]) -> Vec<String> {
    items.iter().map(|s| s.to_string()).collect()
}

fn field(name: &str, token: &str) -> FieldSpec {
    FieldSpec { name: name.to_string(), ty: classify(token) }
}

fn file(components: &[&str], source: &str) -> SourceFile {
    SourceFile { path: strings(components), source: source.to_string() }
}

fn empty_project() -> ProjectContext {
    ProjectContext { module: String::new(), files: vec![], packages: vec![], vendor_root: vec![] }
}

fn unit_text(unit: &GeneratedUnit) -> String {
    let mut out = String::new();
    write_unit(&mut out, unit);
    out
}

const POINT: &str = "#[derive(Debug, Default, Clone, PartialEq, serde::Serialize, serde::Deserialize)] \
pub struct Point { pub x: u32, pub y: u32, } \
impl UserInput for Point { fn input() -> Self { Point { \
x: { println!(\"{}: {}\", \"x\", \"u32\"); read_value::<u32>() }, \
y: { println!(\"{}: {}\", \"y\", \"u32\"); read_value::<u32>() }, \
} } } ";

const POINT_DISPATCH: &str = "#[derive(Debug, Clone, PartialEq)] pub enum Command { Point, } \
impl std::fmt::Display for Command { \
fn fmt(&self, f: &mut std::fmt::Formatter<'_>) -> std::fmt::Result { match *self { \
Command::Point => write!(f, \"Point\"), } } } \
pub fn dispatch(command: &Command) -> String { match *command { \
Command::Point => serde_json::to_string(&<Point as UserInput>::input()).unwrap(), } } ";

#[test]
fn point_artifact_text() {
    let text = terminal_macro("Point,x,u32,y,u32;", &empty_project()).unwrap();
    assert_eq!(text, format!("{}{}{}", GLUE, POINT, POINT_DISPATCH));
}

#[test]
fn point_routine_reads_x_before_y() {
    let text = terminal_macro("Point,x,u32,y,u32;", &empty_project()).unwrap();
    let routine = text.find("impl UserInput for Point").unwrap();
    let x = text[routine..].find("x: { println!").unwrap();
    let y = text[routine..].find("y: { println!").unwrap();
    assert!(x < y);
    assert!(text.contains("pub struct Point { pub x: u32, pub y: u32, }"));
}

#[test]
fn record_unit_text() {
    let unit = GeneratedUnit::Record {
        name: "Point".to_string(),
        fields: vec![field("x", "u32"), field("y", "u32")],
    };
    assert_eq!(unit_text(&unit), POINT);
}

#[test]
fn sequence_field_is_read_as_a_sequence() {
    let unit = GeneratedUnit::Record { name: "Cmd".to_string(), fields: vec![field("data", "Vec<u8>")] };
    let text = unit_text(&unit);
    assert!(text.contains("pub data: Vec<u8>, "));
    assert!(text.contains("data: { println!(\"{}: {}\", \"data\", \"Vec<u8>\"); read_sequence::<u8>() }, "));
    assert!(!text.contains("as UserInput>::input()"));
}

#[test]
fn acquisition_call_follows_the_shape() {
    let unit = GeneratedUnit::Record {
        name: "All".to_string(),
        fields: vec![
            field("a", "String"),
            field("b", "Option<bool>"),
            field("c", "Vec<Option<Inner>>"),
            field("d", "Inner"),
        ],
    };
    let text = unit_text(&unit);
    assert!(text.contains("\"String\"); read_value::<String>() }, "));
    assert!(text.contains("\"Option<bool>\"); read_optional::<bool>() }, "));
    assert!(text.contains("\"Vec<Option<Inner>>\"); read_sequence::<Option<Inner>>() }, "));
    assert!(text.contains("\"Inner\"); <Inner as UserInput>::input() }, "));
}

#[test]
fn record_without_fields_text() {
    let unit = GeneratedUnit::Record { name: "Empty".to_string(), fields: vec![] };
    assert_eq!(
        unit_text(&unit),
        format!(
            "{}Empty {{ }} impl UserInput for Empty {{ fn input() -> Self {{ Empty {{ }} }} }} ",
            RECORD_DERIVES
        )
    );
}

#[test]
fn enumeration_unit_text() {
    let unit = GeneratedUnit::Enumeration {
        name: "Mode".to_string(),
        variants: strings(&["On", "Off"]),
    };
    assert_eq!(
        unit_text(&unit),
        format!(
            "{}Mode {{ On, Off, }} impl Default for Mode {{ fn default() -> Self {{ Mode::On }} }} \
impl UserInput for Mode {{ fn input() -> Self {{ let names: Vec<&str> = vec![\"On\", \"Off\", \
]; let variants: Vec<Mode> = vec![Mode::On, Mode::Off, {}",
            ENUMERATION_DERIVES, CHOICE_LOOP
        )
    );
}

#[test]
fn enumeration_without_variants_has_no_default() {
    let unit = GeneratedUnit::Enumeration { name: "Never".to_string(), variants: vec![] };
    assert_eq!(
        unit_text(&unit),
        format!(
            "{}Never {{ }} impl UserInput for Never {{ fn input() -> Self {{ \
let names: Vec<&str> = vec![]; let variants: Vec<Never> = vec![{}",
            ENUMERATION_DERIVES, CHOICE_LOOP
        )
    );
}

#[test]
fn dispatch_text() {
    let mut out = String::from("before ");
    write_dispatch(&mut out, &strings(&["A", "B"]));
    assert_eq!(
        out,
        format!(
            "before {}A, B, {}Command::A => write!(f, \"A\"), Command::B => write!(f, \"B\"), \
{}Command::A => serde_json::to_string(&<A as UserInput>::input()).unwrap(), \
Command::B => serde_json::to_string(&<B as UserInput>::input()).unwrap(), }} }} ",
            DISPATCH_HEAD, DISPLAY_HEAD, DISPATCH_BODY
        )
    );
}

#[test]
fn empty_buffer_text() {
    let buffer = EmissionBuffer::new(vec![]);
    assert_eq!(
        render(&buffer),
        format!("{}{}{}{}}} }} ", GLUE, DISPATCH_HEAD, DISPLAY_HEAD, DISPATCH_BODY)
    );
}

#[test]
fn render_puts_units_in_buffer_order() {
    let project = ProjectContext {
        module: "use dep::Inner;".to_string(),
        files: vec![],
        packages: vec![Package {
            name: "dep".to_string(),
            files: vec![file(&["dep", "lib.rs"], "pub struct Inner { m: Mode } pub enum Mode { On }")],
        }],
        vendor_root: vec![],
    };
    let buffer = generate(&parse_schema("A,i,Inner;B,m,Mode;"), &index_project(&project)).unwrap();
    let text = render(&buffer);
    let places: Vec<usize> = ["pub struct A ", "pub struct B ", "pub struct Inner ", "pub enum Mode ", "pub enum Command "]
        .iter()
        .map(|needle| text.find(needle).unwrap())
        .collect();
    assert!(places.windows(2).all(|pair| pair[0] < pair[1]));
    assert_eq!(text.matches("pub struct Inner ").count(), 1);
    assert_eq!(text.matches("pub enum Mode ").count(), 1);
    assert_eq!(terminal_macro("A,i,Inner;B,m,Mode;", &project), Ok(text));
}

#[test]
fn artifact_is_the_same_on_every_run() {
    let project = ProjectContext {
        module: String::new(),
        files: vec![],
        packages: vec![Package {
            name: "dep".to_string(),
            files: vec![file(&["dep", "lib.rs"], "pub struct Inner { v: Vec<u8> }")],
        }],
        vendor_root: vec![],
    };
    let first = terminal_macro("A,i,Inner;", &project);
    let second = terminal_macro("A,i,Inner;", &project);
    assert!(first.is_ok());
    assert_eq!(first, second);
}

#[test]
fn artifact_does_not_depend_on_the_listing_order() {
    let a = file(&["dep", "a.rs"], "pub enum Shape { FromA }");
    let b = file(&["dep", "b.rs"], "pub enum Shape { FromB }");
    let sub = file(&["dep", "a", "z.rs"], "pub enum Shape { FromSub }");
    let listed = |files: Vec<SourceFile>| ProjectContext {
        module: String::new(),
        files: vec![],
        packages: vec![Package { name: "dep".to_string(), files }],
        vendor_root: vec![],
    };
    let first = terminal_macro("R,s,Shape;", &listed(vec![a.clone(), sub.clone(), b.clone()])).unwrap();
    let second = terminal_macro("R,s,Shape;", &listed(vec![b, a, sub])).unwrap();
    assert_eq!(first, second);
    // The directory `a` is walked before the file `a.rs`.
    assert!(first.contains("pub enum Shape { FromSub, }"));
}

#[test]
fn artifact_with_positional_fields_is_an_error() {
    let project = ProjectContext {
        module: String::new(),
        files: vec![],
        packages: vec![Package {
            name: "dep".to_string(),
            files: vec![file(&["dep", "lib.rs"], "pub struct Pair(u8, u8);")],
        }],
        vendor_root: vec![],
    };
    assert_eq!(
        terminal_macro("A,p,Pair;", &project),
        Err(GenerateError::UnsupportedFields { record: "Pair".to_string() })
    );
}

#[test]
fn artifact_skips_malformed_statements() {
    let text = terminal_macro("Bad,x;Good,y,bool;", &empty_project()).unwrap();
    assert!(text.contains("pub struct Good { pub y: bool, }"));
    assert!(!text.contains("Bad"));
}

#[test]
fn artifact_leaves_out_unresolved_types() {
    let text = terminal_macro("A,m,Missing;", &empty_project()).unwrap();
    assert!(text.contains("pub struct A { pub m: Missing, }"));
    assert!(!text.contains("pub struct Missing"));
    assert!(!text.contains("pub enum Missing"));
}

#[test]
fn artifact_is_rust_source() {
    let project = ProjectContext {
        module: String::new(),
        files: vec![],
        packages: vec![Package {
            name: "dep".to_string(),
            files: vec![file(
                &["dep", "lib.rs"],
                "pub struct Inner { v: Vec<u8>, m: Mode, r#type: Option<Inner> } \
                 pub enum Mode { On, Off } pub enum Never {}",
            )],
        }],
        vendor_root: vec![],
    };
    let text =
        terminal_macro("A,i,Inner,n,Never,s,String,o,Option<Vec<f64>>;Empty;B,a,A;", &project).unwrap();
    let parsed = syn::parse_file(&text).unwrap();
    // The glue has one trait and three functions; every unit has a definition
    // and a routine, an enumeration with variants a default too; the dispatch
    // has an enumeration, its formatting and a function.
    assert_eq!(parsed.items.len(), 4 + 3 * 2 + 2 * 2 + 3 + 1 + 2);
    let empty = terminal_macro("", &project).unwrap();
    assert_eq!(syn::parse_file(&empty).unwrap().items.len(), 4 + 3);
}
