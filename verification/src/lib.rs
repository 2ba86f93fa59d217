//! Schema-driven generation of record definitions and of the routines that
//! acquire their values from an input channel.
//!
//! A schema document declares records; each is a name and an ordered list of
//! fields with their type tokens. For every record the artifact holds its
//! definition and an acquisition routine. A field whose type is neither
//! primitive nor a record of the document is looked up in the surrounding
//! project, and what is found there is added to the artifact once, however
//! often and from wherever it is referred to.

use vstd::prelude::*;

pub mod classifier;
pub mod generator;
pub mod laws;
pub mod order;
pub mod project;
pub mod render;
pub mod resolver;
pub mod schema;
pub mod syntax;
pub mod text;

use crate::generator::{generate, generated, ErrorView, GenerateError};
use crate::order::has_distinct_paths;
use crate::project::{
    index_of, index_project, law_package_scope_ignores_listing_order, PackageView, ProjectContext,
    ProjectContextView,
};
use crate::render::{render, rendered};
use crate::schema::{parse_schema, schema_of};

verus! {

/// The artifact for a schema document in a project: its text, or the error
/// that ended the pass.
pub open spec fn artifact(document: Seq<char>, context: ProjectContextView) -> Result<
    Seq<char>,
    ErrorView,
> {
    match generated(schema_of(document), index_of(context)) {
        Ok(buffer) => Ok(rendered(buffer)),
        Err(error) => Err(error),
    }
}

/// The model of the result of [`terminal_macro`].
pub open spec fn artifact_view(outcome: Result<String, GenerateError>) -> Result<
    Seq<char>,
    ErrorView,
> {
    match outcome {
        Ok(text) => Ok(text@),
        Err(error) => Err(error.deep_view()),
    }
}

/// Generates the code artifact for a schema document in a project.
///
/// Malformed statements of the document are skipped and types that the
/// project does not define are left out. The pass is given up only where a
/// definition that a field refers to has fields without names.
pub fn terminal_macro(document: &str, project: &ProjectContext) -> (r: Result<
    String,
    GenerateError,
>)
    ensures
        artifact_view(r) == artifact(document@, project.deep_view()),
{
    let records = parse_schema(document);
    let index = index_project(project);
    match generate(&records, &index) {
        Ok(buffer) => Ok(render(&buffer)),
        Err(error) => Err(error),
    }
}

/// The artifact is a function of the schema document and of the project's
/// sources: the same document in the same project gives the same text,
/// character for character.
pub proof fn law_same_input_same_artifact(
    first_document: Seq<char>,
    first_context: ProjectContextView,
    second_document: Seq<char>,
    second_context: ProjectContextView,
)
    requires
        first_document == second_document,
        first_context == second_context,
    ensures
        artifact(first_document, first_context) == artifact(second_document, second_context),
{
}

/// Whether two listings of a dependency hold the same files, no two of them
/// with one path, under the same package name.
pub open spec fn is_relisted(first: PackageView, second: PackageView) -> bool {
    &&& first.name == second.name
    &&& first.files.to_multiset() == second.files.to_multiset()
    &&& has_distinct_paths(first.files.to_multiset())
}

/// The artifact does not depend on the order in which the files of the
/// dependencies are listed.
pub proof fn law_artifact_ignores_listing_order(
    document: Seq<char>,
    first: ProjectContextView,
    second: ProjectContextView,
)
    requires
        first.module == second.module,
        first.files == second.files,
        first.vendor_root == second.vendor_root,
        first.packages.len() == second.packages.len(),
        forall|k: int|
            0 <= k < first.packages.len() ==> is_relisted(
                #[trigger] first.packages[k],
                second.packages[k],
            ),
    ensures
        artifact(document, first) == artifact(document, second),
{
    assert forall|k: int| 0 <= k < first.packages.len() implies #[trigger] index_of(
        first,
    ).packages[k] == index_of(second).packages[k] by {
        assert(is_relisted(first.packages[k], second.packages[k]));
        law_package_scope_ignores_listing_order(
            first.packages[k],
            second.packages[k],
            first.vendor_root,
        );
    }
    assert(index_of(first).packages =~= index_of(second).packages);
}

} // verus!
