use terminal_macro::project::{
    declarations, index_project, Declaration, ImportPath, Package, ProjectContext, ProjectIndex,
    Scope, SourceFile,
};
use terminal_macro::resolver::{
    find_alias, find_definition, follow_path, is_definition, package_of, path_ends_in, resolve,
    search,
};
use terminal_macro::text::contains_text;

fn strings(items: &[&str]) -> Vec<String> {
    items.iter().map(|s| s.to_string()).collect()
}

fn path(segments: &[&str], terminal: Option<&str>) -> ImportPath {
    ImportPath { segments: strings(segments), terminal: terminal.map(|s| s.to_string()) }
}

fn file(components: &[&str], source: &str) -> SourceFile {
    SourceFile { path: strings(components), source: source.to_string() }
}

fn enumeration(name: &str, variant: &str) -> Declaration {
    Declaration::Enumeration { name: name.to_string(), variants: strings(&[variant]) }
}

fn scope(name: &str, source: &str) -> Scope {
    Scope { name: name.to_string(), declarations: declarations(source) }
}

fn project(module: &str) -> ProjectIndex {
    index_project(&ProjectContext {
        module: module.to_string(),
        files: vec![
            file(&["src", "models.rs"], "pub enum Shape { Local } pub struct Other { a: u8 }"),
            file(&["src", "service.rs"], "pub enum Shape { Service }"),
        ],
        packages: vec![
            Package {
                name: "first-dep".to_string(),
                files: vec![
                    file(&["first", "src", "a.rs"], "pub enum Shape { FirstA }"),
                    file(&["first", "src", "b.rs"], "pub enum Shape { FirstB } pub enum OnlyB { B }"),
                ],
            },
            Package {
                name: "second_dep".to_string(),
                files: vec![file(
                    &["second", "lib.rs"],
                    "pub enum Shape { Second } pub enum Deep { D }",
                )],
            },
        ],
        vendor_root: vec![],
    })
}

#[test]
fn path_ends_in_its_terminal_name() {
    let p = path(&["crate", "models"], Some("Shape"));
    assert!(path_ends_in(&p, &"Shape".to_string()));
    assert!(!path_ends_in(&p, &"models".to_string()));
    assert!(!path_ends_in(&p, &"crate".to_string()));
    assert!(!path_ends_in(&p, &"Other".to_string()));
    // A name that is renamed, globbed or grouped away ends no path.
    assert!(!path_ends_in(&path(&["a"], None), &"Shape".to_string()));
    // A bare name without a path is no alias.
    assert!(!path_ends_in(&path(&[], Some("Shape")), &"Shape".to_string()));
}

#[test]
fn find_alias_takes_the_first_import() {
    let found = declarations(
        "use std::fmt::Debug; use first_dep::Shape; use crate::models::Shape; struct Shape;",
    );
    assert_eq!(find_alias(&found, &"Shape".to_string()), Some(&path(&["first_dep"], Some("Shape"))));
    assert_eq!(find_alias(&found, &"Debug".to_string()), Some(&path(&["std", "fmt"], Some("Debug"))));
    assert_eq!(find_alias(&found, &"Missing".to_string()), None);
    assert_eq!(find_alias(&vec![], &"Shape".to_string()), None);
}

#[test]
fn find_definition_takes_the_first_match() {
    let found = declarations(
        "use a::Shape; fn Shape() {} pub enum Shape { One } pub struct Shape { x: u8 }",
    );
    assert_eq!(find_definition(&found, &"Shape".to_string()), Some(&enumeration("Shape", "One")));
    assert_eq!(find_definition(&found, &"Other".to_string()), None);
    assert!(is_definition(&found[2], &"Shape".to_string()));
    assert!(is_definition(&found[3], &"Shape".to_string()));
    assert!(!is_definition(&found[0], &"Shape".to_string()));
    assert!(!is_definition(&found[1], &"Shape".to_string()));
}

#[test]
fn search_by_name_and_everywhere() {
    let scopes = vec![
        scope("a", "pub enum X { A }"),
        scope("b", "pub enum Y { B1 }"),
        scope("b", "pub enum X { B2 } pub enum Y { B3 }"),
    ];
    let x = "X".to_string();
    let y = "Y".to_string();
    assert_eq!(search(&scopes, None, &x), Some(&enumeration("X", "A")));
    assert_eq!(search(&scopes, Some(&"b".to_string()), &x), Some(&enumeration("X", "B2")));
    assert_eq!(search(&scopes, Some(&"b".to_string()), &y), Some(&enumeration("Y", "B1")));
    assert_eq!(search(&scopes, Some(&"c".to_string()), &x), None);
    assert_eq!(search(&scopes, None, &"Z".to_string()), None);
    assert_eq!(search(&vec![], None, &x), None);
}

#[test]
fn package_names_use_hyphens() {
    assert_eq!(package_of(&"first_dep".to_string()), "first-dep");
    assert_eq!(package_of(&"plain".to_string()), "plain");
    assert_eq!(package_of(&"_a__b_".to_string()), "-a--b-");
    assert_eq!(package_of(&"".to_string()), "");
}

#[test]
fn contains_text_finds_equal_strings() {
    let list = strings(&["a", "b"]);
    assert!(contains_text(&list, &"b".to_string()));
    assert!(!contains_text(&list, &"c".to_string()));
    assert!(!contains_text(&vec![], &"a".to_string()));
}

#[test]
fn resolve_through_a_crate_relative_import() {
    let index = project("use crate::models::Shape;");
    assert_eq!(resolve(&index, &"Shape".to_string()), Some(&enumeration("Shape", "Local")));
}

#[test]
fn two_hop_chain_resolves_like_one_hop() {
    let one_hop = project("use crate::models::Shape;");
    let two_hop = project("use crate::api::models::Shape;");
    let name = "Shape".to_string();
    assert_eq!(resolve(&two_hop, &name), Some(&enumeration("Shape", "Local")));
    assert_eq!(resolve(&two_hop, &name), resolve(&one_hop, &name));
}

#[test]
fn resolve_through_an_import_of_a_dependency() {
    let index = project("use second_dep::Shape;");
    // `second_dep` stands for the package `second-dep`, which is not declared.
    assert_eq!(resolve(&index, &"Shape".to_string()), None);
    let index = project("use first_dep::inner::Shape;");
    assert_eq!(resolve(&index, &"Shape".to_string()), Some(&enumeration("Shape", "FirstA")));
    let index = project("use first_dep::OnlyB;");
    assert_eq!(resolve(&index, &"OnlyB".to_string()), Some(&enumeration("OnlyB", "B")));
}

#[test]
fn resolve_without_an_import_searches_every_dependency() {
    let index = project("");
    assert_eq!(resolve(&index, &"Shape".to_string()), Some(&enumeration("Shape", "FirstA")));
    assert_eq!(resolve(&index, &"Deep".to_string()), Some(&enumeration("Deep", "D")));
    // Without an import the project's own modules are not searched.
    assert_eq!(resolve(&index, &"Other".to_string()), None);
    assert_eq!(resolve(&index, &"Missing".to_string()), None);
}

#[test]
fn an_import_that_leads_nowhere_ends_the_search() {
    // The import is found, so the other dependencies are not searched.
    let index = project("use crate::missing::Deep;");
    assert_eq!(resolve(&index, &"Deep".to_string()), None);
    let index = project("use crate::models::Deep;");
    assert_eq!(resolve(&index, &"Deep".to_string()), None);
    let index = project("use first_dep::Deep;");
    assert_eq!(resolve(&index, &"Deep".to_string()), None);
}

#[test]
fn unparseable_current_module_falls_back_to_dependencies() {
    let index = project("use crate::models::Shape; struct {");
    assert_eq!(resolve(&index, &"Shape".to_string()), Some(&enumeration("Shape", "FirstA")));
}

#[test]
fn follow_path_prefers_the_project() {
    let mut index = project("");
    index.packages.push(scope("crate", "pub enum Other { FromPackage } pub enum Far { F }"));
    let other = "Other".to_string();
    let far = "Far".to_string();
    let p = path(&["crate", "models"], Some("Other"));
    assert_eq!(
        follow_path(&index, &p, &other),
        Some(&Declaration::Record {
            name: "Other".to_string(),
            fields: Some(vec![terminal_macro::schema::FieldSpec {
                name: "a".to_string(),
                ty: terminal_macro::classifier::TypeDescriptor::Primitive(
                    terminal_macro::classifier::PrimitiveKind::U8
                ),
            }]),
        })
    );
    assert_eq!(follow_path(&index, &p, &far), Some(&enumeration("Far", "F")));
    assert_eq!(follow_path(&index, &path(&[], Some("Other")), &other), None);
}
