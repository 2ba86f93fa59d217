//! The top-level items of a Rust source file, as far as generation reads them.
//!
//! The parsing itself is `syn`'s. What comes back is copied into plain values:
//! names as strings, and the parts that are read further (an import's path, a
//! record's field list, a field's type) as their token text.

use quote::ToTokens;
use syn::{FieldsNamed, Item};
use vstd::prelude::*;

verus! {

/// One top-level item of a source file.
#[derive(Debug, PartialEq, Eq)]
pub enum RawItem {
    /// A `use` declaration, with the token text of its tree.
    Import { path: String },
    /// A `struct`, with its name and the token text of its field list.
    Record { name: String, fields: String },
    /// An `enum`, with its name and the names of its variants.
    Enumeration { name: String, variants: Vec<String> },
    /// Any other item.
    Other,
}

/// The model of a [`RawItem`].
pub enum RawItemView {
    Import { path: Seq<char> },
    Record { name: Seq<char>, fields: Seq<char> },
    Enumeration { name: Seq<char>, variants: Seq<Seq<char>> },
    Other,
}

impl DeepView for RawItem {
    type V = RawItemView;

    open spec fn deep_view(&self) -> RawItemView {
        match self {
            RawItem::Import { path } => RawItemView::Import { path: path@ },
            RawItem::Record { name, fields } => RawItemView::Record {
                name: name@,
                fields: fields@,
            },
            RawItem::Enumeration { name, variants } => RawItemView::Enumeration {
                name: name@,
                variants: variants.deep_view(),
            },
            RawItem::Other => RawItemView::Other,
        }
    }
}

/// The items that `syn::parse_file` finds in a source text, or `None` where it
/// reports a syntax error.
pub uninterp spec fn parsed_items(source: Seq<char>) -> Option<Seq<RawItemView>>;

/// The names and type texts of the fields that `syn::parse_str` finds in a
/// braced list of named fields, or `None` where the text is no such list.
pub uninterp spec fn parsed_named_fields(fields: Seq<char>) -> Option<Seq<(Seq<char>, Seq<char>)>>;

/// Calls `syn::parse_file` and copies each item it returns: the parse is a
/// function of the source text alone, and a syntax error gives `None`.
///
/// Between `proc_macro2::fallback::force` and `unforce` the tokens are read
/// and printed by `proc-macro2` itself, also in a process in which a compiler
/// offers its own token streams, so the texts do not depend on the process.
#[verifier::external_body]
pub(crate) fn parse_items(source: &str) -> (items: Option<Vec<RawItem>>)
    ensures
        items.deep_view() == parsed_items(source@),
{
    proc_macro2::fallback::force();
    let parsed = syn::parse_file(source).ok();
    let items = parsed.map(|file| file.items.iter().map(|item| match item {
        Item::Use(u) => RawItem::Import { path: u.tree.to_token_stream().to_string() },
        Item::Struct(s) => {
            RawItem::Record { name: s.ident.to_string(), fields: s.fields.to_token_stream().to_string() }
        },
        Item::Enum(e) => RawItem::Enumeration {
            name: e.ident.to_string(),
            variants: e.variants.iter().map(|v| v.ident.to_string()).collect(),
        },
        _ => RawItem::Other,
    }).collect());
    proc_macro2::fallback::unforce();
    items
}

/// Calls `syn::parse_str` for `syn::FieldsNamed` and copies each field's name
/// and the token text of its type: a function of the text alone, `None` where
/// the text is not a braced list of named fields. The tokens are read and
/// printed by `proc-macro2` itself, as in [`parse_items`].
#[verifier::external_body]
pub(crate) fn parse_named_fields(fields: &str) -> (named: Option<Vec<(String, String)>>)
    ensures
        named.deep_view() == parsed_named_fields(fields@),
{
    proc_macro2::fallback::force();
    let parsed = syn::parse_str::<FieldsNamed>(fields).ok();
    let named = parsed.map(|list| list.named.iter().map(|field| {
        (field.ident.to_token_stream().to_string(), field.ty.to_token_stream().to_string())
    }).collect());
    proc_macro2::fallback::unforce();
    named
}

} // verus!
