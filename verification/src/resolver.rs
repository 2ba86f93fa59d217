//! Resolution of a named type to its definition.
//!
//! The search goes in three steps, each tried only where the one before found
//! nothing. An import of the current module that ends in the identifier
//! leads, where it starts at `crate`, to the module before the imported name.
//! Otherwise the import's first segment names a dependency, and that
//! dependency is searched. Without any such import every dependency is
//! searched in manifest order. The first definition met is the answer.

use crate::project::{
    Declaration, DeclarationView, ImportPath, ImportPathView, ProjectIndex, ProjectIndexView,
    Scope, ScopeView,
};
use crate::text::text_is;
use vstd::prelude::*;
use vstd::seq_lib::lemma_seq_concat_contains_all_elements;

verus! {

/// Whether an import path ends in an identifier: it has segments, and the
/// plain name behind the last of them is the identifier. A path that ends in
/// a renaming, a glob or a group ends in no identifier.
pub open spec fn ends_in(path: ImportPathView, identifier: Seq<char>) -> bool {
    path.segments.len() > 0 && path.terminal == Some(identifier)
}

/// Whether a declaration is an import that ends in the identifier.
pub open spec fn imports(declaration: DeclarationView, identifier: Seq<char>) -> bool {
    declaration matches DeclarationView::Import(path) && ends_in(path, identifier)
}

/// The path of the first import that ends in the identifier.
pub open spec fn first_alias(
    declarations: Seq<DeclarationView>,
    identifier: Seq<char>,
) -> Option<ImportPathView>
    decreases declarations.len(),
{
    if declarations.len() == 0 {
        None
    } else if imports(declarations[0], identifier) {
        Some(declarations[0]->Import_0)
    } else {
        first_alias(declarations.skip(1), identifier)
    }
}

/// Whether a declaration defines a record or an enumeration of that name.
pub open spec fn defines(declaration: DeclarationView, identifier: Seq<char>) -> bool {
    match declaration {
        DeclarationView::Record { name, .. } => name == identifier,
        DeclarationView::Enumeration { name, .. } => name == identifier,
        _ => false,
    }
}

/// The first declaration that defines the identifier.
pub open spec fn first_definition(
    declarations: Seq<DeclarationView>,
    identifier: Seq<char>,
) -> Option<DeclarationView>
    decreases declarations.len(),
{
    if declarations.len() == 0 {
        None
    } else if defines(declarations[0], identifier) {
        Some(declarations[0])
    } else {
        first_definition(declarations.skip(1), identifier)
    }
}

/// Whether a scope is searched: every scope where no name is asked for, else
/// the scopes of that name.
pub open spec fn in_reach(scope: ScopeView, name: Option<Seq<char>>) -> bool {
    name is None || name == Some(scope.name)
}

/// The first definition of the identifier in the scopes that are searched.
pub open spec fn search_result(
    scopes: Seq<ScopeView>,
    name: Option<Seq<char>>,
    identifier: Seq<char>,
) -> Option<DeclarationView>
    decreases scopes.len(),
{
    if scopes.len() == 0 {
        None
    } else if in_reach(scopes[0], name) && first_definition(scopes[0].declarations, identifier)
        is Some {
        first_definition(scopes[0].declarations, identifier)
    } else {
        search_result(scopes.skip(1), name, identifier)
    }
}

/// The package that the first segment of an import names: underscores stand
/// for the hyphens of the package name.
pub open spec fn package_name(segment: Seq<char>) -> Seq<char> {
    Seq::new(
        segment.len(),
        |i: int|
            if segment[i] == '_' {
                '-'
            } else {
                segment[i]
            },
    )
}

/// Where an import path leads inside the project: for a path that starts at
/// `crate`, the definition in the module of its last segment.
pub open spec fn local_result(
    index: ProjectIndexView,
    path: ImportPathView,
    identifier: Seq<char>,
) -> Option<DeclarationView> {
    if path.segments.len() > 0 && path.segments[0] == "crate"@ {
        search_result(index.modules, Some(path.segments.last()), identifier)
    } else {
        None
    }
}

/// Where an import path leads: into the project, else into the dependency
/// that its first segment names.
pub open spec fn path_result(
    index: ProjectIndexView,
    path: ImportPathView,
    identifier: Seq<char>,
) -> Option<DeclarationView> {
    if local_result(index, path, identifier) is Some {
        local_result(index, path, identifier)
    } else if path.segments.len() > 0 {
        search_result(index.packages, Some(package_name(path.segments[0])), identifier)
    } else {
        None
    }
}

/// The definition of an identifier, or `None` where the project has none.
pub open spec fn resolution(index: ProjectIndexView, identifier: Seq<char>) -> Option<
    DeclarationView,
> {
    match first_alias(index.module, identifier) {
        Some(path) => path_result(index, path, identifier),
        None => search_result(index.packages, None, identifier),
    }
}

/// All declarations of the scopes, scope by scope.
pub open spec fn flatten(scopes: Seq<ScopeView>) -> Seq<DeclarationView>
    decreases scopes.len(),
{
    if scopes.len() == 0 {
        Seq::empty()
    } else {
        scopes[0].declarations + flatten(scopes.skip(1))
    }
}

/// All declarations that resolution can return.
pub open spec fn definitions(index: ProjectIndexView) -> Seq<DeclarationView> {
    flatten(index.modules) + flatten(index.packages)
}

/// A definition that is found is one of the given declarations and defines
/// the identifier.
pub proof fn lemma_first_definition_member(
    declarations: Seq<DeclarationView>,
    identifier: Seq<char>,
)
    ensures
        first_definition(declarations, identifier) matches Some(found) ==> declarations.contains(
            found,
        ) && defines(found, identifier),
    decreases declarations.len(),
{
    if declarations.len() > 0 {
        if defines(declarations[0], identifier) {
        } else {
            lemma_first_definition_member(declarations.skip(1), identifier);
            if let Some(found) = first_definition(declarations, identifier) {
                let k = choose|k: int|
                    0 <= k < declarations.skip(1).len() && declarations.skip(1)[k] == found;
                assert(declarations[k + 1] == found);
            }
        }
    }
}

/// A definition that a search returns is a declaration of one of the scopes
/// and defines the identifier.
pub proof fn lemma_search_member(
    scopes: Seq<ScopeView>,
    name: Option<Seq<char>>,
    identifier: Seq<char>,
)
    ensures
        search_result(scopes, name, identifier) matches Some(found) ==> flatten(scopes).contains(
            found,
        ) && defines(found, identifier),
    decreases scopes.len(),
{
    if scopes.len() > 0 {
        lemma_first_definition_member(scopes[0].declarations, identifier);
        lemma_search_member(scopes.skip(1), name, identifier);
        if let Some(found) = search_result(scopes, name, identifier) {
            lemma_seq_concat_contains_all_elements(
                scopes[0].declarations,
                flatten(scopes.skip(1)),
                found,
            );
        }
    }
}

/// A definition that resolution returns is one of the index's declarations
/// and defines the identifier.
pub proof fn lemma_resolution_member(index: ProjectIndexView, identifier: Seq<char>)
    ensures
        resolution(index, identifier) matches Some(found) ==> definitions(index).contains(found)
            && defines(found, identifier),
{
    if let Some(found) = resolution(index, identifier) {
        match first_alias(index.module, identifier) {
            Some(path) => {
                if local_result(index, path, identifier) is Some {
                    lemma_search_member(index.modules, Some(path.segments.last()), identifier);
                } else {
                    lemma_search_member(
                        index.packages,
                        Some(package_name(path.segments[0])),
                        identifier,
                    );
                }
            },
            None => {
                lemma_search_member(index.packages, None, identifier);
            },
        }
        lemma_seq_concat_contains_all_elements(
            flatten(index.modules),
            flatten(index.packages),
            found,
        );
    }
}

/// The first definition of an identifier in two lists, one after the other,
/// is the first in the first list, or else the first in the second.
pub proof fn lemma_first_definition_concat(
    before: Seq<DeclarationView>,
    after: Seq<DeclarationView>,
    identifier: Seq<char>,
)
    ensures
        first_definition(before + after, identifier) == if first_definition(before, identifier)
            is Some {
            first_definition(before, identifier)
        } else {
            first_definition(after, identifier)
        },
    decreases before.len(),
{
    if before.len() == 0 {
        assert(before + after =~= after);
    } else {
        assert((before + after).skip(1) =~= before.skip(1) + after);
        lemma_first_definition_concat(before.skip(1), after, identifier);
    }
}

/// A search of all scopes returns the first definition among all their
/// declarations, taken scope by scope: the first match wins.
pub proof fn law_first_match_wins(scopes: Seq<ScopeView>, identifier: Seq<char>)
    ensures
        search_result(scopes, None, identifier) == first_definition(flatten(scopes), identifier),
    decreases scopes.len(),
{
    if scopes.len() > 0 {
        law_first_match_wins(scopes.skip(1), identifier);
        lemma_first_definition_concat(
            scopes[0].declarations,
            flatten(scopes.skip(1)),
            identifier,
        );
    }
}

/// Without an import that ends in the identifier, resolution returns the
/// first definition among the declarations of all dependencies, taken in
/// manifest order.
pub proof fn law_fallback_searches_every_dependency(
    index: ProjectIndexView,
    identifier: Seq<char>,
)
    requires
        first_alias(index.module, identifier) is None,
    ensures
        resolution(index, identifier) == first_definition(flatten(index.packages), identifier),
{
    law_first_match_wins(index.packages, identifier);
}

/// The first import that ends in an identifier in two lists, one after the
/// other, is the first in the first list, or else the first in the second.
pub proof fn lemma_first_alias_concat(
    before: Seq<DeclarationView>,
    after: Seq<DeclarationView>,
    identifier: Seq<char>,
)
    ensures
        first_alias(before + after, identifier) == if first_alias(before, identifier) is Some {
            first_alias(before, identifier)
        } else {
            first_alias(after, identifier)
        },
    decreases before.len(),
{
    if before.len() == 0 {
        assert(before + after =~= after);
    } else {
        assert((before + after).skip(1) =~= before.skip(1) + after);
        lemma_first_alias_concat(before.skip(1), after, identifier);
    }
}

/// Two import paths that start with the same segment and have the same last
/// segment lead to the same definition, however many segments lie between.
pub proof fn law_alias_chain(
    index: ProjectIndexView,
    short: ImportPathView,
    long: ImportPathView,
    identifier: Seq<char>,
)
    requires
        short.segments.len() > 0,
        long.segments.len() > 0,
        short.segments[0] == long.segments[0],
        short.segments.last() == long.segments.last(),
    ensures
        path_result(index, short, identifier) == path_result(index, long, identifier),
{
}

/// Resolution through an import with a longer chain of segments gives what
/// resolution through an import with a shorter chain gives, where both end
/// in the identifier, start with the same segment and have the same last
/// segment, and stand at the same place of the current module.
pub proof fn law_alias_chain_resolution(
    index: ProjectIndexView,
    before: Seq<DeclarationView>,
    after: Seq<DeclarationView>,
    short: ImportPathView,
    long: ImportPathView,
    identifier: Seq<char>,
)
    requires
        ends_in(short, identifier),
        ends_in(long, identifier),
        short.segments[0] == long.segments[0],
        short.segments.last() == long.segments.last(),
    ensures
        resolution(
            ProjectIndexView {
                module: before.push(DeclarationView::Import(short)) + after,
                ..index
            },
            identifier,
        ) == resolution(
            ProjectIndexView {
                module: before.push(DeclarationView::Import(long)) + after,
                ..index
            },
            identifier,
        ),
{
    let one = DeclarationView::Import(short);
    let two = DeclarationView::Import(long);
    lemma_first_alias_concat(before.push(one), after, identifier);
    lemma_first_alias_concat(before.push(two), after, identifier);
    assert(before.push(one) =~= before + seq![one]);
    assert(before.push(two) =~= before + seq![two]);
    lemma_first_alias_concat(before, seq![one], identifier);
    lemma_first_alias_concat(before, seq![two], identifier);
    assert(first_alias(seq![one], identifier) == Some(short));
    assert(first_alias(seq![two], identifier) == Some(long));
}

/// Whether an import path ends in an identifier.
pub fn path_ends_in(path: &ImportPath, identifier: &String) -> (r: bool)
    ensures
        r == ends_in(path.deep_view(), identifier@),
{
    if path.segments.len() == 0 {
        return false;
    }
    match &path.terminal {
        Some(name) => *name == *identifier,
        None => false,
    }
}

/// The path of the first import that ends in the identifier.
pub fn find_alias<'a>(declarations: &'a Vec<Declaration>, identifier: &String) -> (r: Option<
    &'a ImportPath,
>)
    ensures
        r.deep_view() == first_alias(declarations.deep_view(), identifier@),
{
    let ghost all = declarations.deep_view();
    let mut i: usize = 0;
    assert(all.skip(0) =~= all);
    while i < declarations.len()
        invariant
            i <= declarations.len(),
            all == declarations.deep_view(),
            first_alias(all, identifier@) == first_alias(all.skip(i as int), identifier@),
        decreases declarations.len() - i,
    {
        proof {
            assert(all.skip(i as int).skip(1) =~= all.skip(i + 1));
            assert(all.skip(i as int)[0] == declarations@[i as int].deep_view());
        }
        match &declarations[i] {
            Declaration::Import(path) => {
                if path_ends_in(path, identifier) {
                    return Some(path);
                }
            },
            _ => {},
        }
        i += 1;
    }
    None
}

/// Whether a declaration defines a record or an enumeration of that name.
pub fn is_definition(declaration: &Declaration, identifier: &String) -> (r: bool)
    ensures
        r == defines(declaration.deep_view(), identifier@),
{
    match declaration {
        Declaration::Record { name, .. } => *name == *identifier,
        Declaration::Enumeration { name, .. } => *name == *identifier,
        _ => false,
    }
}

/// The first declaration that defines the identifier.
pub fn find_definition<'a>(declarations: &'a Vec<Declaration>, identifier: &String) -> (r:
    Option<&'a Declaration>)
    ensures
        r.deep_view() == first_definition(declarations.deep_view(), identifier@),
{
    let ghost all = declarations.deep_view();
    let mut i: usize = 0;
    assert(all.skip(0) =~= all);
    while i < declarations.len()
        invariant
            i <= declarations.len(),
            all == declarations.deep_view(),
            first_definition(all, identifier@) == first_definition(
                all.skip(i as int),
                identifier@,
            ),
        decreases declarations.len() - i,
    {
        proof {
            assert(all.skip(i as int).skip(1) =~= all.skip(i + 1));
            assert(all.skip(i as int)[0] == declarations@[i as int].deep_view());
        }
        if is_definition(&declarations[i], identifier) {
            return Some(&declarations[i]);
        }
        i += 1;
    }
    None
}

/// Searches the scopes in order: all of them where `name` is `None`, else
/// those of that name. The first definition met is returned.
pub fn search<'a>(scopes: &'a Vec<Scope>, name: Option<&String>, identifier: &String) -> (r:
    Option<&'a Declaration>)
    ensures
        r.deep_view() == search_result(scopes.deep_view(), name.deep_view(), identifier@),
{
    let ghost all = scopes.deep_view();
    let mut i: usize = 0;
    assert(all.skip(0) =~= all);
    while i < scopes.len()
        invariant
            i <= scopes.len(),
            all == scopes.deep_view(),
            search_result(all, name.deep_view(), identifier@) == search_result(
                all.skip(i as int),
                name.deep_view(),
                identifier@,
            ),
        decreases scopes.len() - i,
    {
        proof {
            assert(all.skip(i as int).skip(1) =~= all.skip(i + 1));
            assert(all.skip(i as int)[0] == scopes@[i as int].deep_view());
        }
        let reached = match name {
            Some(wanted) => scopes[i].name == *wanted,
            None => true,
        };
        if reached {
            let found = find_definition(&scopes[i].declarations, identifier);
            if found.is_some() {
                return found;
            }
        }
        i += 1;
    }
    None
}

/// The package that the first segment of an import names.
pub fn package_of(segment: &String) -> (r: String)
    ensures
        r@ == package_name(segment@),
{
    broadcast use vstd::string::group_string_axioms;

    let mut out = String::new();
    for c in it: segment.as_str().chars()
        invariant
            it.seq() == segment@,
            out@ == package_name(segment@).take(it.index()),
    {
        let ghost before = out@;
        if c == '_' {
            out.push('-');
        } else {
            out.push(c);
        }
        assert(out@ =~= package_name(segment@).take(it.index() + 1));
    }
    assert(out@ =~= package_name(segment@));
    out
}

/// Follows an import path that ends in the identifier.
pub fn follow_path<'a>(index: &'a ProjectIndex, path: &ImportPath, identifier: &String) -> (r:
    Option<&'a Declaration>)
    ensures
        r.deep_view() == path_result(index.deep_view(), path.deep_view(), identifier@),
{
    if path.segments.len() == 0 {
        return None;
    }
    if text_is(&path.segments[0], "crate") {
        let module = &path.segments[path.segments.len() - 1];
        let local = search(&index.modules, Some(module), identifier);
        if local.is_some() {
            return local;
        }
    }
    let package = package_of(&path.segments[0]);
    search(&index.packages, Some(&package), identifier)
}

/// Resolves an identifier to its definition: a record or an enumeration of
/// that name, or `None` where the search finds none.
pub fn resolve<'a>(index: &'a ProjectIndex, identifier: &String) -> (r: Option<&'a Declaration>)
    ensures
        r.deep_view() == resolution(index.deep_view(), identifier@),
{
    match find_alias(&index.module, identifier) {
        Some(path) => follow_path(index, path, identifier),
        None => search(&index.packages, None, identifier),
    }
}

} // verus!
