//! The project that surrounds a schema: the declarations of the current
//! module, of the project's other modules and of its dependencies.
//!
//! A [`ProjectContext`] holds the sources as text. A [`ProjectIndex`] holds
//! what they declare. Resolution and generation read the index only.

use crate::classifier::{classify, shape_of};
use crate::order::{
    has_distinct_paths, law_listing_order_is_irrelevant, sort_by_path, sort_files,
};
use crate::schema::{is_name, FieldShape, FieldSpec};
use crate::syntax::{
    parse_items, parse_named_fields, parsed_items, parsed_named_fields, RawItem, RawItemView,
};
use crate::text::{copy_texts, identifier, is_identifier, lex, text_is, tokens_of};
use vstd::prelude::*;
use vstd::string::*;

verus! {

/// The path of a `use` declaration: the segments that are followed by `::`,
/// and the name that ends the path where it ends in a plain name.
#[derive(Debug, PartialEq, Eq)]
pub struct ImportPath {
    pub segments: Vec<String>,
    pub terminal: Option<String>,
}

/// The model of an [`ImportPath`].
pub struct ImportPathView {
    pub segments: Seq<Seq<char>>,
    pub terminal: Option<Seq<char>>,
}

impl DeepView for ImportPath {
    type V = ImportPathView;

    open spec fn deep_view(&self) -> ImportPathView {
        ImportPathView { segments: self.segments.deep_view(), terminal: self.terminal.deep_view() }
    }
}

/// A top-level declaration of a source file.
#[derive(Debug, PartialEq, Eq)]
pub enum Declaration {
    /// A `use` declaration.
    Import(ImportPath),
    /// A record. `fields` is `None` where its fields have no names.
    Record { name: String, fields: Option<Vec<FieldSpec>> },
    /// An enumeration and the names of its variants.
    Enumeration { name: String, variants: Vec<String> },
    /// Anything else.
    Other,
}

/// The model of a [`Declaration`].
pub enum DeclarationView {
    Import(ImportPathView),
    Record { name: Seq<char>, fields: Option<Seq<FieldShape>> },
    Enumeration { name: Seq<char>, variants: Seq<Seq<char>> },
    Other,
}

impl DeepView for Declaration {
    type V = DeclarationView;

    open spec fn deep_view(&self) -> DeclarationView {
        match self {
            Declaration::Import(path) => DeclarationView::Import(path.deep_view()),
            Declaration::Record { name, fields } => DeclarationView::Record {
                name: name@,
                fields: fields.deep_view(),
            },
            Declaration::Enumeration { name, variants } => DeclarationView::Enumeration {
                name: name@,
                variants: variants.deep_view(),
            },
            Declaration::Other => DeclarationView::Other,
        }
    }
}

/// A named group of declarations: a module of the project, or a dependency.
#[derive(Debug, PartialEq, Eq)]
pub struct Scope {
    pub name: String,
    pub declarations: Vec<Declaration>,
}

/// The model of a [`Scope`].
pub struct ScopeView {
    pub name: Seq<char>,
    pub declarations: Seq<DeclarationView>,
}

impl DeepView for Scope {
    type V = ScopeView;

    open spec fn deep_view(&self) -> ScopeView {
        ScopeView { name: self.name@, declarations: self.declarations.deep_view() }
    }
}

/// What a project declares.
#[derive(Debug, PartialEq, Eq)]
pub struct ProjectIndex {
    /// The declarations of the current module.
    pub module: Vec<Declaration>,
    /// The project's modules, by name.
    pub modules: Vec<Scope>,
    /// The dependencies in manifest order, by package name.
    pub packages: Vec<Scope>,
}

/// The model of a [`ProjectIndex`].
pub struct ProjectIndexView {
    pub module: Seq<DeclarationView>,
    pub modules: Seq<ScopeView>,
    pub packages: Seq<ScopeView>,
}

impl DeepView for ProjectIndex {
    type V = ProjectIndexView;

    open spec fn deep_view(&self) -> ProjectIndexView {
        ProjectIndexView {
            module: self.module.deep_view(),
            modules: self.modules.deep_view(),
            packages: self.packages.deep_view(),
        }
    }
}

/// A source file: the components of its path and its text.
#[derive(Debug, PartialEq, Eq)]
pub struct SourceFile {
    pub path: Vec<String>,
    pub source: String,
}

/// The model of a [`SourceFile`].
pub struct SourceFileView {
    pub path: Seq<Seq<char>>,
    pub source: Seq<char>,
}

impl DeepView for SourceFile {
    type V = SourceFileView;

    open spec fn deep_view(&self) -> SourceFileView {
        SourceFileView { path: self.path.deep_view(), source: self.source@ }
    }
}

impl Clone for SourceFile {
    fn clone(&self) -> (r: SourceFile)
        ensures
            r.deep_view() == self.deep_view(),
    {
        SourceFile { path: copy_texts(&self.path), source: self.source.clone() }
    }
}

/// A dependency: its package name and the files of its tree, in any order.
#[derive(Debug, PartialEq, Eq)]
pub struct Package {
    pub name: String,
    pub files: Vec<SourceFile>,
}

/// The model of a [`Package`].
pub struct PackageView {
    pub name: Seq<char>,
    pub files: Seq<SourceFileView>,
}

impl DeepView for Package {
    type V = PackageView;

    open spec fn deep_view(&self) -> PackageView {
        PackageView { name: self.name@, files: self.files.deep_view() }
    }
}

/// The sources of a project.
#[derive(Debug, PartialEq, Eq)]
pub struct ProjectContext {
    /// The text of the current module.
    pub module: String,
    /// The project's own files, with paths below the project's root.
    pub files: Vec<SourceFile>,
    /// The dependencies in manifest order.
    pub packages: Vec<Package>,
    /// The directory below which third-party sources are cached. No file
    /// below it is searched. Empty where there is none.
    pub vendor_root: Vec<String>,
}

/// The model of a [`ProjectContext`].
pub struct ProjectContextView {
    pub module: Seq<char>,
    pub files: Seq<SourceFileView>,
    pub packages: Seq<PackageView>,
    pub vendor_root: Seq<Seq<char>>,
}

impl DeepView for ProjectContext {
    type V = ProjectContextView;

    open spec fn deep_view(&self) -> ProjectContextView {
        ProjectContextView {
            module: self.module@,
            files: self.files.deep_view(),
            packages: self.packages.deep_view(),
            vendor_root: self.vendor_root.deep_view(),
        }
    }
}

/// The number of leading pairs of an identifier and `::`.
pub open spec fn prefix_length(tokens: Seq<Seq<char>>) -> nat
    decreases tokens.len(),
{
    if tokens.len() >= 3 && is_identifier(tokens[0]) && tokens[1] == ":"@ && tokens[2] == ":"@ {
        1 + prefix_length(tokens.skip(3))
    } else {
        0
    }
}

/// The segment `k` of a path that starts with at least `k + 1` segments.
pub open spec fn segment_at(tokens: Seq<Seq<char>>, k: int) -> Seq<char> {
    tokens[3 * k]
}

/// The import path that the tokens of a `use` tree spell.
pub open spec fn import_path(tokens: Seq<Seq<char>>) -> ImportPathView {
    let count = prefix_length(tokens);
    let rest = tokens.skip(3 * count as int);
    ImportPathView {
        segments: Seq::new(count, |k: int| segment_at(tokens, k)),
        terminal: if is_name(rest) {
            Some(rest[0])
        } else {
            None
        },
    }
}

/// The fields that a list of names and type tokens declares.
pub open spec fn fields_of(named: Seq<(Seq<char>, Seq<char>)>) -> Seq<FieldShape> {
    Seq::new(named.len(), |k: int| FieldShape { name: named[k].0, ty: shape_of(named[k].1) })
}

/// The record of the given name and named fields.
pub open spec fn record_of(
    name: Seq<char>,
    named: Option<Seq<(Seq<char>, Seq<char>)>>,
) -> DeclarationView {
    DeclarationView::Record {
        name,
        fields: match named {
            Some(list) => Some(fields_of(list)),
            None => None,
        },
    }
}

/// The declaration that an item stands for.
pub open spec fn declaration_of(item: RawItemView) -> DeclarationView {
    match item {
        RawItemView::Import { path } => DeclarationView::Import(import_path(tokens_of(path))),
        RawItemView::Record { name, fields } => record_of(name, parsed_named_fields(fields)),
        RawItemView::Enumeration { name, variants } => DeclarationView::Enumeration {
            name,
            variants,
        },
        RawItemView::Other => DeclarationView::Other,
    }
}

/// The declarations of a source text. A text that does not parse declares
/// nothing.
pub open spec fn declarations_of(source: Seq<char>) -> Seq<DeclarationView> {
    match parsed_items(source) {
        Some(items) => Seq::new(items.len(), |k: int| declaration_of(items[k])),
        None => Seq::empty(),
    }
}

/// Whether a text ends with the given suffix.
pub open spec fn has_suffix(text: Seq<char>, suffix: Seq<char>) -> bool {
    text.len() >= suffix.len() && text.skip(text.len() - suffix.len()) == suffix
}

/// A file name with the extension `rs`.
pub open spec fn is_rust_file(name: Seq<char>) -> bool {
    name.len() > 3 && has_suffix(name, ".rs"@)
}

/// The module that a file of the project holds: `src/<name>.rs` holds the
/// module `<name>`.
pub open spec fn module_name(path: Seq<Seq<char>>) -> Option<Seq<char>> {
    if path.len() == 2 && path[0] == "src"@ && is_rust_file(path[1]) {
        Some(path[1].take(path[1].len() - 3))
    } else {
        None
    }
}

/// Whether a path lies below the vendor root.
pub open spec fn is_vendored(path: Seq<Seq<char>>, vendor_root: Seq<Seq<char>>) -> bool {
    0 < vendor_root.len() <= path.len() && path.take(vendor_root.len() as int) == vendor_root
}

/// Whether a file of a dependency is searched: a Rust source file that does
/// not lie below the vendor root.
pub open spec fn is_searched(path: Seq<Seq<char>>, vendor_root: Seq<Seq<char>>) -> bool {
    path.len() > 0 && is_rust_file(path.last()) && !is_vendored(path, vendor_root)
}

/// The scopes of the project's modules, in the order of its files.
pub open spec fn module_scopes(files: Seq<SourceFileView>) -> Seq<ScopeView>
    decreases files.len(),
{
    if files.len() == 0 {
        Seq::empty()
    } else {
        let earlier = module_scopes(files.drop_last());
        match module_name(files.last().path) {
            Some(name) => earlier.push(
                ScopeView { name, declarations: declarations_of(files.last().source) },
            ),
            None => earlier,
        }
    }
}

/// The declarations of the searched files of a dependency, in file order.
pub open spec fn package_declarations(
    files: Seq<SourceFileView>,
    vendor_root: Seq<Seq<char>>,
) -> Seq<DeclarationView>
    decreases files.len(),
{
    if files.len() == 0 {
        Seq::empty()
    } else {
        let earlier = package_declarations(files.drop_last(), vendor_root);
        if is_searched(files.last().path, vendor_root) {
            earlier + declarations_of(files.last().source)
        } else {
            earlier
        }
    }
}

/// The scope of a dependency: the declarations of its searched files, the
/// files taken in the order of their paths.
pub open spec fn package_scope(package: PackageView, vendor_root: Seq<Seq<char>>) -> ScopeView {
    ScopeView {
        name: package.name,
        declarations: package_declarations(sort_by_path(package.files), vendor_root),
    }
}

/// The index of a project.
pub open spec fn index_of(context: ProjectContextView) -> ProjectIndexView {
    ProjectIndexView {
        module: declarations_of(context.module),
        modules: module_scopes(context.files),
        packages: Seq::new(
            context.packages.len(),
            |k: int| package_scope(context.packages[k], context.vendor_root),
        ),
    }
}

/// What a dependency declares does not depend on the order in which its
/// files are listed, where no two of them have one path.
pub proof fn law_package_scope_ignores_listing_order(
    first: PackageView,
    second: PackageView,
    vendor_root: Seq<Seq<char>>,
)
    requires
        first.name == second.name,
        first.files.to_multiset() == second.files.to_multiset(),
        has_distinct_paths(first.files.to_multiset()),
    ensures
        package_scope(first, vendor_root) == package_scope(second, vendor_root),
{
    law_listing_order_is_irrelevant(first.files, second.files);
}

/// Reads the path of a `use` declaration from the tokens of its tree.
pub fn read_import_path(tokens: &Vec<String>) -> (r: ImportPath)
    ensures
        r.deep_view() == import_path(tokens.deep_view()),
{
    let ghost all = tokens.deep_view();
    let mut segments: Vec<String> = Vec::new();
    let mut i: usize = 0;
    assert(all.skip(0) =~= all);
    while tokens.len() - i >= 3 && identifier(&tokens[i]) && text_is(
        &tokens[i + 1],
        ":",
    ) && text_is(&tokens[i + 2], ":")
        invariant
            i <= tokens.len(),
            i == 3 * segments.len(),
            all == tokens.deep_view(),
            prefix_length(all) == segments.len() + prefix_length(all.skip(i as int)),
            forall|k: int| 0 <= k < segments.len() ==> segments@[k]@ == segment_at(all, k),
        decreases tokens.len() - i,
    {
        proof {
            assert(all.skip(i as int).skip(3) =~= all.skip(i + 3));
        }
        segments.push(tokens[i].clone());
        i += 3;
    }
    assert(prefix_length(all) == segments.len());
    assert(segments.deep_view() =~= import_path(all).segments);
    let terminal = if tokens.len() - i == 1 && identifier(&tokens[i]) {
        Some(tokens[i].clone())
    } else {
        None
    };
    ImportPath { segments, terminal }
}

/// The fields that a list of names and type tokens declares.
pub fn read_fields(named: &Vec<(String, String)>) -> (r: Vec<FieldSpec>)
    ensures
        r.deep_view() == fields_of(named.deep_view()),
{
    let mut fields: Vec<FieldSpec> = Vec::new();
    let mut i: usize = 0;
    while i < named.len()
        invariant
            i <= named.len(),
            fields.len() == i,
            forall|k: int|
                0 <= k < i ==> #[trigger] fields@[k].deep_view() == fields_of(named.deep_view())[k],
        decreases named.len() - i,
    {
        let field = FieldSpec { name: named[i].0.clone(), ty: classify(named[i].1.as_str()) };
        fields.push(field);
        i += 1;
    }
    assert(fields.deep_view() =~= fields_of(named.deep_view()));
    fields
}

/// The record of the given name and named fields. `None` stands for a field
/// list without names.
pub fn read_record(name: String, named: &Option<Vec<(String, String)>>) -> (r: Declaration)
    ensures
        r.deep_view() == record_of(name@, named.deep_view()),
{
    match named {
        Some(list) => Declaration::Record { name, fields: Some(read_fields(list)) },
        None => Declaration::Record { name, fields: None },
    }
}

/// The declaration that an item stands for.
pub fn declare(item: &RawItem) -> (r: Declaration)
    ensures
        r.deep_view() == declaration_of(item.deep_view()),
{
    match item {
        RawItem::Import { path } => {
            let tokens = lex(path.as_str());
            Declaration::Import(read_import_path(&tokens))
        },
        RawItem::Record { name, fields } => {
            let named = parse_named_fields(fields.as_str());
            read_record(name.clone(), &named)
        },
        RawItem::Enumeration { name, variants } => Declaration::Enumeration {
            name: name.clone(),
            variants: copy_texts(variants),
        },
        RawItem::Other => Declaration::Other,
    }
}

/// The declarations that a list of items stands for.
pub fn declare_all(items: &Vec<RawItem>) -> (r: Vec<Declaration>)
    ensures
        r.deep_view() == Seq::new(
            items.deep_view().len(),
            |k: int| declaration_of(items.deep_view()[k]),
        ),
{
    let mut out: Vec<Declaration> = Vec::new();
    let mut i: usize = 0;
    while i < items.len()
        invariant
            i <= items.len(),
            out.len() == i,
            forall|k: int|
                0 <= k < i ==> #[trigger] out@[k].deep_view() == declaration_of(
                    items.deep_view()[k],
                ),
        decreases items.len() - i,
    {
        out.push(declare(&items[i]));
        i += 1;
    }
    assert(out.deep_view() =~= Seq::new(
        items.deep_view().len(),
        |k: int| declaration_of(items.deep_view()[k]),
    ));
    out
}

/// The declarations of a source text. A text that does not parse declares
/// nothing.
pub fn declarations(source: &str) -> (r: Vec<Declaration>)
    ensures
        r.deep_view() == declarations_of(source@),
{
    match parse_items(source) {
        Some(items) => declare_all(&items),
        None => {
            let out: Vec<Declaration> = Vec::new();
            assert(out.deep_view() =~= Seq::<DeclarationView>::empty());
            out
        },
    }
}

/// Whether a text ends with the given suffix.
pub fn ends_with(text: &str, suffix: &str) -> (r: bool)
    ensures
        r == has_suffix(text@, suffix@),
{
    let n = text.unicode_len();
    let m = suffix.unicode_len();
    if n < m {
        return false;
    }
    let tail = text.substring_char(n - m, n);
    text_is(&tail.to_owned(), suffix)
}

/// Whether a file name has the extension `rs`.
pub fn rust_file(name: &String) -> (r: bool)
    ensures
        r == is_rust_file(name@),
{
    name.as_str().unicode_len() > 3 && ends_with(name.as_str(), ".rs")
}

/// The module that a file of the project holds, if it holds one.
pub fn module_of(path: &Vec<String>) -> (r: Option<String>)
    ensures
        r.deep_view() == module_name(path.deep_view()),
{
    if path.len() == 2 && text_is(&path[0], "src") && rust_file(&path[1]) {
        let n = path[1].as_str().unicode_len();
        Some(path[1].as_str().substring_char(0, n - 3).to_owned())
    } else {
        None
    }
}

/// Whether a path lies below the vendor root.
pub fn vendored(path: &Vec<String>, vendor_root: &Vec<String>) -> (r: bool)
    ensures
        r == is_vendored(path.deep_view(), vendor_root.deep_view()),
{
    let n = vendor_root.len();
    if n == 0 || n > path.len() {
        return false;
    }
    let ghost head = path.deep_view().take(n as int);
    let mut i: usize = 0;
    while i < n
        invariant
            i <= n <= path.len(),
            n == vendor_root.len(),
            head == path.deep_view().take(n as int),
            forall|k: int| 0 <= k < i ==> head[k] == vendor_root.deep_view()[k],
        decreases n - i,
    {
        if path[i] != vendor_root[i] {
            assert(head[i as int] != vendor_root.deep_view()[i as int]);
            return false;
        }
        i += 1;
    }
    assert(head =~= vendor_root.deep_view());
    true
}

/// Whether a file of a dependency is searched.
pub fn searched(path: &Vec<String>, vendor_root: &Vec<String>) -> (r: bool)
    ensures
        r == is_searched(path.deep_view(), vendor_root.deep_view()),
{
    path.len() > 0 && rust_file(&path[path.len() - 1]) && !vendored(path, vendor_root)
}

/// The scopes of the project's modules.
pub fn index_modules(files: &Vec<SourceFile>) -> (r: Vec<Scope>)
    ensures
        r.deep_view() == module_scopes(files.deep_view()),
{
    let ghost all = files.deep_view();
    let mut scopes: Vec<Scope> = Vec::new();
    let mut i: usize = 0;
    assert(scopes.deep_view() =~= Seq::<ScopeView>::empty());
    while i < files.len()
        invariant
            i <= files.len(),
            all == files.deep_view(),
            scopes.deep_view() == module_scopes(all.take(i as int)),
        decreases files.len() - i,
    {
        proof {
            assert(all.take(i + 1).drop_last() =~= all.take(i as int));
            assert(all.take(i + 1).last() == files@[i as int].deep_view());
        }
        let ghost before = scopes.deep_view();
        match module_of(&files[i].path) {
            Some(name) => {
                let scope = Scope { name, declarations: declarations(files[i].source.as_str()) };
                let ghost view = scope.deep_view();
                scopes.push(scope);
                assert(scopes.deep_view() =~= before.push(view));
            },
            None => {},
        }
        i += 1;
    }
    assert(all.take(files.len() as int) =~= all);
    scopes
}

/// The scope of a dependency: the declarations of its searched files, the
/// files taken in the order of their paths.
pub fn index_package(package: &Package, vendor_root: &Vec<String>) -> (r: Scope)
    ensures
        r.deep_view() == package_scope(package.deep_view(), vendor_root.deep_view()),
{
    let files = sort_files(&package.files);
    let ghost all = files.deep_view();
    let ghost root = vendor_root.deep_view();
    let mut found: Vec<Declaration> = Vec::new();
    let mut i: usize = 0;
    assert(found.deep_view() =~= Seq::<DeclarationView>::empty());
    while i < files.len()
        invariant
            i <= files.len(),
            all == files.deep_view(),
            root == vendor_root.deep_view(),
            found.deep_view() == package_declarations(all.take(i as int), root),
        decreases files.len() - i,
    {
        proof {
            assert(all.take(i + 1).drop_last() =~= all.take(i as int));
            assert(all.take(i + 1).last() == files@[i as int].deep_view());
        }
        let file = files[i];
        if searched(&file.path, vendor_root) {
            let ghost before = found.deep_view();
            let mut more = declarations(file.source.as_str());
            let ghost added = more.deep_view();
            found.append(&mut more);
            assert(found.deep_view() =~= before + added);
        }
        i += 1;
    }
    assert(all.take(files.len() as int) =~= all);
    Scope { name: package.name.clone(), declarations: found }
}

/// Builds the index of a project: parses the current module, the project's
/// modules and the searched files of every dependency.
pub fn index_project(context: &ProjectContext) -> (r: ProjectIndex)
    ensures
        r.deep_view() == index_of(context.deep_view()),
{
    let mut packages: Vec<Scope> = Vec::new();
    let mut i: usize = 0;
    while i < context.packages.len()
        invariant
            i <= context.packages.len(),
            packages.len() == i,
            forall|k: int|
                0 <= k < i ==> #[trigger] packages@[k].deep_view() == package_scope(
                    context.packages@[k].deep_view(),
                    context.vendor_root.deep_view(),
                ),
        decreases context.packages.len() - i,
    {
        packages.push(index_package(&context.packages[i], &context.vendor_root));
        i += 1;
    }
    assert(packages.deep_view() =~= index_of(context.deep_view()).packages);
    ProjectIndex {
        module: declarations(context.module.as_str()),
        modules: index_modules(&context.files),
        packages,
    }
}

} // verus!
