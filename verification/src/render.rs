//! The text of the code artifact.
//!
//! The artifact starts with the acquisition glue. Then every unit follows in
//! buffer order, as its definition and its acquisition routine. The dispatch
//! enumeration over the batch's records, with its formatting and its dispatch
//! function, comes last.
//!
//! Every part is written to the end of the text that is there already, so the
//! model of each writer takes the text before it and gives the text after it.

use crate::classifier::{type_text, TypeDescriptor, TypeShape};
use crate::generator::{BufferView, EmissionBuffer, GeneratedUnit, UnitView};
use crate::schema::{FieldShape, FieldSpec};
use vstd::prelude::*;
use vstd::string::*;

verus! {

/// The acquisition glue: the capability that every unit implements, and the
/// routines that read one line as a value, as a sequence or as an optional.
pub const GLUE: &'static str =
    "pub trait UserInput: Sized { fn input() -> Self; } \
pub fn read_value<T: serde::de::DeserializeOwned>() -> T { \
let mut line = String::new(); \
std::io::stdin().read_line(&mut line).unwrap(); \
serde_json::from_str::<T>(line.trim()).unwrap() } \
pub fn read_sequence<T: serde::de::DeserializeOwned>() -> Vec<T> { read_value::<Vec<T>>() } \
pub fn read_optional<T: serde::de::DeserializeOwned>() -> Option<T> { read_value::<Option<T>>() } ";

/// What stands before the name in a record's definition.
pub const RECORD_DERIVES: &'static str =
    "#[derive(Debug, Default, Clone, PartialEq, serde::Serialize, serde::Deserialize)] pub struct ";

/// What stands before the name in an enumeration's definition.
pub const ENUMERATION_DERIVES: &'static str =
    "#[derive(Debug, Clone, PartialEq, serde::Serialize, serde::Deserialize)] pub enum ";

/// What stands before the variants of the dispatch enumeration.
pub const DISPATCH_HEAD: &'static str = "#[derive(Debug, Clone, PartialEq)] pub enum Command { ";

/// What stands between the variants of the dispatch enumeration and the
/// arms of its formatting.
pub const DISPLAY_HEAD: &'static str =
    "} impl std::fmt::Display for Command { \
fn fmt(&self, f: &mut std::fmt::Formatter<'_>) -> std::fmt::Result { match *self { ";

/// What stands between the arms of the formatting and the arms of the
/// dispatch function.
pub const DISPATCH_BODY: &'static str =
    "} } } pub fn dispatch(command: &Command) -> String { match *command { ";

/// The end of an enumeration's routine: the variants are offered by name
/// until one is chosen.
pub const CHOICE_LOOP: &'static str =
    "]; loop { match dialoguer::Select::new().items(&names).interact_opt() { \
Ok(Some(chosen)) => { return variants[chosen].clone() } _ => continue, } } } } ";

/// The call that acquires a value of the given shape: a primitive is read from
/// one line, a sequence and an optional are read from one line as a whole,
/// and a named type is acquired by its own routine.
pub open spec fn emit_call(out: Seq<char>, ty: TypeShape) -> Seq<char> {
    match ty {
        TypeShape::Primitive(_) => out + "read_value::<"@ + type_text(ty) + ">()"@,
        TypeShape::Sequence(element) => out + "read_sequence::<"@ + type_text(*element) + ">()"@,
        TypeShape::Optional(element) => out + "read_optional::<"@ + type_text(*element) + ">()"@,
        TypeShape::Named(name) => out + "<"@ + name + " as UserInput>::input()"@,
    }
}

/// One field of a record's definition.
pub open spec fn emit_member(out: Seq<char>, field: FieldShape) -> Seq<char> {
    out + "pub "@ + field.name + ": "@ + type_text(field.ty) + ", "@
}

/// The fields of a record's definition, in declaration order.
pub open spec fn emit_members(out: Seq<char>, fields: Seq<FieldShape>) -> Seq<char>
    decreases fields.len(),
{
    if fields.len() == 0 {
        out
    } else {
        emit_member(emit_members(out, fields.drop_last()), fields.last())
    }
}

/// The acquisition of one field: a prompt with the field's name and type,
/// then the call for its type.
pub open spec fn emit_acquisition(out: Seq<char>, field: FieldShape) -> Seq<char> {
    emit_call(
        out + field.name + ": { println!(\"{}: {}\", \""@ + field.name + "\", \""@ + type_text(
            field.ty,
        ) + "\"); "@,
        field.ty,
    ) + " }, "@
}

/// The acquisitions of a record's fields, in declaration order.
pub open spec fn emit_acquisitions(out: Seq<char>, fields: Seq<FieldShape>) -> Seq<char>
    decreases fields.len(),
{
    if fields.len() == 0 {
        out
    } else {
        emit_acquisition(emit_acquisitions(out, fields.drop_last()), fields.last())
    }
}

/// A record: its definition, then the routine that acquires its fields in
/// declaration order and assembles them.
pub open spec fn emit_record(out: Seq<char>, name: Seq<char>, fields: Seq<FieldShape>) -> Seq<
    char,
> {
    emit_acquisitions(
        emit_members(out + RECORD_DERIVES@ + name + " { "@, fields) + "} impl UserInput for "@
            + name + " { fn input() -> Self { "@ + name + " { "@,
        fields,
    ) + "} } } "@
}

/// The names, each between the given prefix and suffix.
pub open spec fn emit_list(
    out: Seq<char>,
    prefix: Seq<char>,
    names: Seq<Seq<char>>,
    suffix: Seq<char>,
) -> Seq<char>
    decreases names.len(),
{
    if names.len() == 0 {
        out
    } else {
        emit_list(out, prefix, names.drop_last(), suffix) + prefix + names.last() + suffix
    }
}

/// The default of an enumeration: its first variant, where it has one.
pub open spec fn emit_default(out: Seq<char>, name: Seq<char>, variants: Seq<Seq<char>>) -> Seq<
    char,
> {
    if variants.len() == 0 {
        out
    } else {
        out + "impl Default for "@ + name + " { fn default() -> Self { "@ + name + "::"@
            + variants[0] + " } } "@
    }
}

/// An enumeration: its definition, its default, then the routine that offers
/// the names of the variants until one is chosen.
pub open spec fn emit_enumeration(
    out: Seq<char>,
    name: Seq<char>,
    variants: Seq<Seq<char>>,
) -> Seq<char> {
    emit_list(
        emit_list(
            emit_default(
                emit_list(out + ENUMERATION_DERIVES@ + name + " { "@, ""@, variants, ", "@)
                    + "} "@,
                name,
                variants,
            ) + "impl UserInput for "@ + name
                + " { fn input() -> Self { let names: Vec<&str> = vec!["@,
            "\""@,
            variants,
            "\", "@,
        ) + "]; let variants: Vec<"@ + name + "> = vec!["@,
        name + "::"@,
        variants,
        ", "@,
    ) + CHOICE_LOOP@
}

/// A unit: a record or an enumeration.
pub open spec fn emit_unit(out: Seq<char>, unit: UnitView) -> Seq<char> {
    match unit {
        UnitView::Record { name, fields } => emit_record(out, name, fields),
        UnitView::Enumeration { name, variants } => emit_enumeration(out, name, variants),
    }
}

/// The units, in their order.
pub open spec fn emit_units(out: Seq<char>, units: Seq<UnitView>) -> Seq<char>
    decreases units.len(),
{
    if units.len() == 0 {
        out
    } else {
        emit_unit(emit_units(out, units.drop_last()), units.last())
    }
}

/// The formatting arms of the dispatch enumeration.
pub open spec fn emit_labels(out: Seq<char>, names: Seq<Seq<char>>) -> Seq<char>
    decreases names.len(),
{
    if names.len() == 0 {
        out
    } else {
        emit_labels(out, names.drop_last()) + "Command::"@ + names.last() + " => write!(f, \""@
            + names.last() + "\"), "@
    }
}

/// The arms of the dispatch function: acquire the record, then serialize it.
pub open spec fn emit_arms(out: Seq<char>, names: Seq<Seq<char>>) -> Seq<char>
    decreases names.len(),
{
    if names.len() == 0 {
        out
    } else {
        emit_arms(out, names.drop_last()) + "Command::"@ + names.last()
            + " => serde_json::to_string(&<"@ + names.last()
            + " as UserInput>::input()).unwrap(), "@
    }
}

/// The dispatch enumeration, its formatting and the dispatch function.
pub open spec fn emit_dispatch(out: Seq<char>, names: Seq<Seq<char>>) -> Seq<char> {
    emit_arms(
        emit_labels(
            emit_list(out + DISPATCH_HEAD@, ""@, names, ", "@) + DISPLAY_HEAD@,
            names,
        ) + DISPATCH_BODY@,
        names,
    ) + "} } "@
}

/// The text of the artifact for a buffer.
pub open spec fn rendered(buffer: BufferView) -> Seq<char> {
    emit_dispatch(emit_units(GLUE@, buffer.units), buffer.commands)
}

/// Writes the call that acquires a value of the given type.
fn write_call(out: &mut String, ty: &TypeDescriptor)
    ensures
        final(out)@ == emit_call(old(out)@, ty.deep_view()),
{
    match ty {
        TypeDescriptor::Primitive(_) => {
            out.append("read_value::<");
            ty.write(out);
            out.append(">()");
        },
        TypeDescriptor::Sequence(element) => {
            out.append("read_sequence::<");
            element.write(out);
            out.append(">()");
        },
        TypeDescriptor::Optional(element) => {
            out.append("read_optional::<");
            element.write(out);
            out.append(">()");
        },
        TypeDescriptor::Named(name) => {
            out.append("<");
            out.append(name.as_str());
            out.append(" as UserInput>::input()");
        },
    }
}

/// Writes the fields of a record's definition.
fn write_members(out: &mut String, fields: &Vec<FieldSpec>)
    ensures
        final(out)@ == emit_members(old(out)@, fields.deep_view()),
{
    let ghost all = fields.deep_view();
    let mut i: usize = 0;
    while i < fields.len()
        invariant
            i <= fields.len(),
            all == fields.deep_view(),
            out@ == emit_members(old(out)@, all.take(i as int)),
        decreases fields.len() - i,
    {
        proof {
            assert(all.take(i + 1).drop_last() =~= all.take(i as int));
            assert(all.take(i + 1).last() == fields@[i as int].deep_view());
        }
        out.append("pub ");
        out.append(fields[i].name.as_str());
        out.append(": ");
        fields[i].ty.write(out);
        out.append(", ");
        i += 1;
    }
    assert(all.take(fields.len() as int) =~= all);
}

/// Writes the acquisitions of a record's fields.
fn write_acquisitions(out: &mut String, fields: &Vec<FieldSpec>)
    ensures
        final(out)@ == emit_acquisitions(old(out)@, fields.deep_view()),
{
    let ghost all = fields.deep_view();
    let mut i: usize = 0;
    while i < fields.len()
        invariant
            i <= fields.len(),
            all == fields.deep_view(),
            out@ == emit_acquisitions(old(out)@, all.take(i as int)),
        decreases fields.len() - i,
    {
        proof {
            assert(all.take(i + 1).drop_last() =~= all.take(i as int));
            assert(all.take(i + 1).last() == fields@[i as int].deep_view());
        }
        out.append(fields[i].name.as_str());
        out.append(": { println!(\"{}: {}\", \"");
        out.append(fields[i].name.as_str());
        out.append("\", \"");
        fields[i].ty.write(out);
        out.append("\"); ");
        write_call(out, &fields[i].ty);
        out.append(" }, ");
        i += 1;
    }
    assert(all.take(fields.len() as int) =~= all);
}

/// Writes the names, each between the given prefix and suffix.
fn write_list(out: &mut String, prefix: &str, names: &Vec<String>, suffix: &str)
    ensures
        final(out)@ == emit_list(old(out)@, prefix@, names.deep_view(), suffix@),
{
    let ghost all = names.deep_view();
    let mut i: usize = 0;
    while i < names.len()
        invariant
            i <= names.len(),
            all == names.deep_view(),
            out@ == emit_list(old(out)@, prefix@, all.take(i as int), suffix@),
        decreases names.len() - i,
    {
        proof {
            assert(all.take(i + 1).drop_last() =~= all.take(i as int));
            assert(all.take(i + 1).last() == names@[i as int]@);
        }
        out.append(prefix);
        out.append(names[i].as_str());
        out.append(suffix);
        i += 1;
    }
    assert(all.take(names.len() as int) =~= all);
}

/// Writes the formatting arms of the dispatch enumeration.
fn write_labels(out: &mut String, names: &Vec<String>)
    ensures
        final(out)@ == emit_labels(old(out)@, names.deep_view()),
{
    let ghost all = names.deep_view();
    let mut i: usize = 0;
    while i < names.len()
        invariant
            i <= names.len(),
            all == names.deep_view(),
            out@ == emit_labels(old(out)@, all.take(i as int)),
        decreases names.len() - i,
    {
        proof {
            assert(all.take(i + 1).drop_last() =~= all.take(i as int));
            assert(all.take(i + 1).last() == names@[i as int]@);
        }
        out.append("Command::");
        out.append(names[i].as_str());
        out.append(" => write!(f, \"");
        out.append(names[i].as_str());
        out.append("\"), ");
        i += 1;
    }
    assert(all.take(names.len() as int) =~= all);
}

/// Writes the arms of the dispatch function.
fn write_arms(out: &mut String, names: &Vec<String>)
    ensures
        final(out)@ == emit_arms(old(out)@, names.deep_view()),
{
    let ghost all = names.deep_view();
    let mut i: usize = 0;
    while i < names.len()
        invariant
            i <= names.len(),
            all == names.deep_view(),
            out@ == emit_arms(old(out)@, all.take(i as int)),
        decreases names.len() - i,
    {
        proof {
            assert(all.take(i + 1).drop_last() =~= all.take(i as int));
            assert(all.take(i + 1).last() == names@[i as int]@);
        }
        out.append("Command::");
        out.append(names[i].as_str());
        out.append(" => serde_json::to_string(&<");
        out.append(names[i].as_str());
        out.append(" as UserInput>::input()).unwrap(), ");
        i += 1;
    }
    assert(all.take(names.len() as int) =~= all);
}

/// Writes one unit to the end of the text.
pub fn write_unit(out: &mut String, unit: &GeneratedUnit)
    ensures
        final(out)@ == emit_unit(old(out)@, unit.deep_view()),
{
    match unit {
        GeneratedUnit::Record { name, fields } => {
            out.append(RECORD_DERIVES);
            out.append(name.as_str());
            out.append(" { ");
            write_members(out, fields);
            out.append("} impl UserInput for ");
            out.append(name.as_str());
            out.append(" { fn input() -> Self { ");
            out.append(name.as_str());
            out.append(" { ");
            write_acquisitions(out, fields);
            out.append("} } } ");
        },
        GeneratedUnit::Enumeration { name, variants } => {
            out.append(ENUMERATION_DERIVES);
            out.append(name.as_str());
            out.append(" { ");
            write_list(out, "", variants, ", ");
            out.append("} ");
            if variants.len() > 0 {
                out.append("impl Default for ");
                out.append(name.as_str());
                out.append(" { fn default() -> Self { ");
                out.append(name.as_str());
                out.append("::");
                out.append(variants[0].as_str());
                out.append(" } } ");
            }
            out.append("impl UserInput for ");
            out.append(name.as_str());
            out.append(" { fn input() -> Self { let names: Vec<&str> = vec![");
            write_list(out, "\"", variants, "\", ");
            out.append("]; let variants: Vec<");
            out.append(name.as_str());
            out.append("> = vec![");
            let mut prefix = name.clone();
            prefix.append("::");
            write_list(out, prefix.as_str(), variants, ", ");
            out.append(CHOICE_LOOP);
        },
    }
}

/// Writes the dispatch enumeration over the given record names.
pub fn write_dispatch(out: &mut String, names: &Vec<String>)
    ensures
        final(out)@ == emit_dispatch(old(out)@, names.deep_view()),
{
    out.append(DISPATCH_HEAD);
    write_list(out, "", names, ", ");
    out.append(DISPLAY_HEAD);
    write_labels(out, names);
    out.append(DISPATCH_BODY);
    write_arms(out, names);
    out.append("} } ");
}

/// The text of the artifact for a buffer.
pub fn render(buffer: &EmissionBuffer) -> (r: String)
    ensures
        r@ == rendered(buffer.deep_view()),
{
    let units = buffer.units();
    let ghost all = units.deep_view();
    let mut out = GLUE.to_owned();
    let mut i: usize = 0;
    while i < units.len()
        invariant
            i <= units.len(),
            all == units.deep_view(),
            out@ == emit_units(GLUE@, all.take(i as int)),
        decreases units.len() - i,
    {
        proof {
            assert(all.take(i + 1).drop_last() =~= all.take(i as int));
            assert(all.take(i + 1).last() == units@[i as int].deep_view());
        }
        write_unit(&mut out, &units[i]);
        i += 1;
    }
    assert(all.take(units.len() as int) =~= all);
    write_dispatch(&mut out, buffer.commands());
    out
}

} // verus!
