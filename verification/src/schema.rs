//! Schema documents.
//!
//! A document is a sequence of statements, each closed by `;`. A statement is a
//! list of tokens separated by `,`: the record's name, then a field's name and
//! its type token for each field, in declaration order.

use crate::classifier::{classify_tokens, shape_of_tokens, TypeDescriptor, TypeShape};
use crate::text::{identifier, is_identifier, lex, text_is, tokens_of};
use vstd::prelude::*;

verus! {

/// One field of a record: its name and the shape of its type.
#[derive(Debug, PartialEq, Eq)]
pub struct FieldSpec {
    pub name: String,
    pub ty: TypeDescriptor,
}

/// The model of a [`FieldSpec`].
pub struct FieldShape {
    pub name: Seq<char>,
    pub ty: TypeShape,
}

impl DeepView for FieldSpec {
    type V = FieldShape;

    open spec fn deep_view(&self) -> FieldShape {
        FieldShape { name: self.name@, ty: self.ty.deep_view() }
    }
}

impl Clone for FieldSpec {
    fn clone(&self) -> (r: FieldSpec)
        ensures
            r.deep_view() == self.deep_view(),
    {
        FieldSpec { name: self.name.clone(), ty: self.ty.clone() }
    }
}

/// One record of a schema: its name and its fields in declaration order.
#[derive(Debug, PartialEq, Eq)]
pub struct RecordSchema {
    pub name: String,
    pub fields: Vec<FieldSpec>,
}

/// The model of a [`RecordSchema`].
pub struct RecordShape {
    pub name: Seq<char>,
    pub fields: Seq<FieldShape>,
}

impl DeepView for RecordSchema {
    type V = RecordShape;

    open spec fn deep_view(&self) -> RecordShape {
        RecordShape { name: self.name@, fields: self.fields.deep_view() }
    }
}

impl Clone for RecordSchema {
    fn clone(&self) -> (r: RecordSchema)
        ensures
            r.deep_view() == self.deep_view(),
    {
        RecordSchema { name: self.name.clone(), fields: copy_fields(&self.fields) }
    }
}

/// A copy of a list of fields.
pub fn copy_fields(fields: &Vec<FieldSpec>) -> (r: Vec<FieldSpec>)
    ensures
        r.deep_view() == fields.deep_view(),
{
    let mut out: Vec<FieldSpec> = Vec::new();
    let mut i: usize = 0;
    while i < fields.len()
        invariant
            i <= fields.len(),
            out.len() == i,
            forall|k: int| 0 <= k < i ==> out@[k].deep_view() == fields@[k].deep_view(),
        decreases fields.len() - i,
    {
        out.push(fields[i].clone());
        i += 1;
    }
    assert(out.deep_view() =~= fields.deep_view());
    out
}

/// What a split holds after a prefix of the tokens: the finished parts, the
/// part that is still growing, and how many `<` are open in it.
pub struct SplitState {
    pub done: Seq<Seq<Seq<char>>>,
    pub part: Seq<Seq<char>>,
    pub depth: nat,
}

/// The state before the first token.
pub open spec fn split_start() -> SplitState {
    SplitState { done: Seq::empty(), part: Seq::empty(), depth: 0 }
}

/// A `;` closes a statement, whatever stands before it.
pub open spec fn statement_step(st: SplitState, token: Seq<char>) -> SplitState {
    if token == ";"@ {
        SplitState { done: st.done.push(st.part), part: Seq::empty(), depth: 0 }
    } else {
        SplitState { done: st.done, part: st.part.push(token), depth: 0 }
    }
}

/// The state of the split into statements after the given tokens.
pub open spec fn statement_state(tokens: Seq<Seq<char>>) -> SplitState
    decreases tokens.len(),
{
    if tokens.len() == 0 {
        split_start()
    } else {
        statement_step(statement_state(tokens.drop_last()), tokens.last())
    }
}

/// The statements of a document: the tokens before each `;`. What follows the
/// last `;` is no statement.
pub open spec fn statements_of(tokens: Seq<Seq<char>>) -> Seq<Seq<Seq<char>>> {
    statement_state(tokens).done
}

/// The finished segments and the growing one, which is left out where it is
/// empty.
pub open spec fn segment_flush(st: SplitState) -> Seq<Seq<Seq<char>>> {
    if st.part.len() > 0 {
        st.done.push(st.part)
    } else {
        st.done
    }
}

/// The depth after a token: `<` opens, `>` closes what is open.
pub open spec fn depth_after(depth: nat, token: Seq<char>) -> nat {
    if token == "<"@ {
        depth + 1
    } else if token == ">"@ && depth > 0 {
        (depth - 1) as nat
    } else {
        depth
    }
}

/// A `,` outside angle brackets closes a segment.
pub open spec fn segment_step(st: SplitState, token: Seq<char>) -> SplitState {
    if token == ","@ && st.depth == 0 {
        SplitState { done: segment_flush(st), part: Seq::empty(), depth: 0 }
    } else {
        SplitState {
            done: st.done,
            part: st.part.push(token),
            depth: depth_after(st.depth, token),
        }
    }
}

/// The state of the split into segments after the given tokens.
pub open spec fn segment_state(tokens: Seq<Seq<char>>) -> SplitState
    decreases tokens.len(),
{
    if tokens.len() == 0 {
        split_start()
    } else {
        segment_step(segment_state(tokens.drop_last()), tokens.last())
    }
}

/// The segments of a statement: the tokens between its commas, where a comma
/// between angle brackets belongs to its segment. A segment without tokens is
/// left out, so a doubled comma counts once.
pub open spec fn segments_of(tokens: Seq<Seq<char>>) -> Seq<Seq<Seq<char>>> {
    segment_flush(segment_state(tokens))
}

/// A segment that is one identifier.
pub open spec fn is_name(segment: Seq<Seq<char>>) -> bool {
    segment.len() == 1 && is_identifier(segment[0])
}

/// The segment that holds the name of field `k`.
pub open spec fn name_segment(segments: Seq<Seq<Seq<char>>>, k: int) -> Seq<Seq<char>> {
    segments[2 * k + 1]
}

/// The segment that holds the type token of field `k`.
pub open spec fn type_segment(segments: Seq<Seq<Seq<char>>>, k: int) -> Seq<Seq<char>> {
    segments[2 * k + 2]
}

/// A statement is well formed when it starts with a record name and goes on
/// in pairs of a field name and a type token.
pub open spec fn well_formed(segments: Seq<Seq<Seq<char>>>) -> bool {
    &&& segments.len() % 2 == 1
    &&& is_name(segments[0])
    &&& forall|k: int|
        0 <= k < (segments.len() - 1) / 2 ==> is_name(#[trigger] name_segment(segments, k))
}

/// The field `k` of a well-formed statement.
pub open spec fn field_of(segments: Seq<Seq<Seq<char>>>, k: int) -> FieldShape {
    FieldShape {
        name: name_segment(segments, k)[0],
        ty: shape_of_tokens(type_segment(segments, k)),
    }
}

/// The record that a statement declares, or `None` where it is malformed.
pub open spec fn statement_record(segments: Seq<Seq<Seq<char>>>) -> Option<RecordShape> {
    if well_formed(segments) {
        Some(
            RecordShape {
                name: segments[0][0],
                fields: Seq::new(
                    ((segments.len() - 1) / 2) as nat,
                    |k: int| field_of(segments, k),
                ),
            },
        )
    } else {
        None
    }
}

/// The records of the well-formed statements, in order.
pub open spec fn records_of(statements: Seq<Seq<Seq<char>>>) -> Seq<RecordShape>
    decreases statements.len(),
{
    if statements.len() == 0 {
        Seq::empty()
    } else {
        let earlier = records_of(statements.drop_last());
        match statement_record(segments_of(statements.last())) {
            Some(record) => earlier.push(record),
            None => earlier,
        }
    }
}

/// The records that a schema document declares.
pub open spec fn schema_of(document: Seq<char>) -> Seq<RecordShape> {
    records_of(statements_of(tokens_of(document)))
}

/// The statements of a document that is cut into tokens.
pub fn statements(tokens: &Vec<String>) -> (r: Vec<Vec<String>>)
    ensures
        r.deep_view() == statements_of(tokens.deep_view()),
{
    let ghost all = tokens.deep_view();
    let mut done: Vec<Vec<String>> = Vec::new();
    let mut part: Vec<String> = Vec::new();
    let mut i: usize = 0;
    assert(done.deep_view() =~= Seq::<Seq<Seq<char>>>::empty());
    assert(part.deep_view() =~= Seq::<Seq<char>>::empty());
    while i < tokens.len()
        invariant
            i <= tokens.len(),
            all == tokens.deep_view(),
            statement_state(all.take(i as int)) == (SplitState {
                done: done.deep_view(),
                part: part.deep_view(),
                depth: 0,
            }),
        decreases tokens.len() - i,
    {
        proof {
            assert(all.take(i + 1).drop_last() =~= all.take(i as int));
            assert(all.take(i + 1).last() == tokens@[i as int]@);
        }
        let ghost done_before = done.deep_view();
        let ghost part_before = part.deep_view();
        if text_is(&tokens[i], ";") {
            done.push(part);
            assert(done.deep_view() =~= done_before.push(part_before));
            part = Vec::new();
            assert(part.deep_view() =~= Seq::<Seq<char>>::empty());
        } else {
            part.push(tokens[i].clone());
            assert(part.deep_view() =~= part_before.push(tokens@[i as int]@));
        }
        i += 1;
    }
    assert(all.take(tokens.len() as int) =~= all);
    done
}

/// The segments of a statement.
pub fn segments(tokens: &Vec<String>) -> (r: Vec<Vec<String>>)
    ensures
        r.deep_view() == segments_of(tokens.deep_view()),
{
    let ghost all = tokens.deep_view();
    let mut done: Vec<Vec<String>> = Vec::new();
    let mut part: Vec<String> = Vec::new();
    let mut depth: usize = 0;
    let mut i: usize = 0;
    assert(done.deep_view() =~= Seq::<Seq<Seq<char>>>::empty());
    assert(part.deep_view() =~= Seq::<Seq<char>>::empty());
    while i < tokens.len()
        invariant
            i <= tokens.len(),
            depth <= i,
            all == tokens.deep_view(),
            segment_state(all.take(i as int)) == (SplitState {
                done: done.deep_view(),
                part: part.deep_view(),
                depth: depth as nat,
            }),
        decreases tokens.len() - i,
    {
        proof {
            assert(all.take(i + 1).drop_last() =~= all.take(i as int));
            assert(all.take(i + 1).last() == tokens@[i as int]@);
        }
        let ghost done_before = done.deep_view();
        let ghost part_before = part.deep_view();
        if depth == 0 && text_is(&tokens[i], ",") {
            if part.len() > 0 {
                done.push(part);
                assert(done.deep_view() =~= done_before.push(part_before));
            }
            part = Vec::new();
            assert(part.deep_view() =~= Seq::<Seq<char>>::empty());
        } else {
            if text_is(&tokens[i], "<") {
                depth += 1;
            } else if depth > 0 && text_is(&tokens[i], ">") {
                depth -= 1;
            }
            part.push(tokens[i].clone());
            assert(part.deep_view() =~= part_before.push(tokens@[i as int]@));
        }
        i += 1;
    }
    assert(all.take(tokens.len() as int) =~= all);
    if part.len() > 0 {
        let ghost done_before = done.deep_view();
        let ghost part_view = part.deep_view();
        done.push(part);
        assert(done.deep_view() =~= done_before.push(part_view));
    }
    done
}

/// Whether the segment `i` is one identifier.
fn name_at(segments: &Vec<Vec<String>>, i: usize) -> (r: bool)
    requires
        i < segments.len(),
    ensures
        r == is_name(segments.deep_view()[i as int]),
{
    segments[i].len() == 1 && identifier(&segments[i][0])
}

/// Reads one statement. A statement that does not start with a record name,
/// or does not go on in pairs of a field name and a type token, gives `None`.
pub fn parse_statement(segments: &Vec<Vec<String>>) -> (r: Option<RecordSchema>)
    ensures
        r.deep_view() == statement_record(segments.deep_view()),
{
    let ghost all = segments.deep_view();
    if segments.len() % 2 != 1 || !name_at(segments, 0) {
        return None;
    }
    let count: usize = (segments.len() - 1) / 2;
    let mut fields: Vec<FieldSpec> = Vec::new();
    let mut k: usize = 0;
    while k < count
        invariant
            k <= count,
            count == (segments.len() - 1) / 2,
            segments.len() % 2 == 1,
            all == segments.deep_view(),
            fields.len() == k,
            forall|j: int| 0 <= j < k ==> is_name(#[trigger] name_segment(all, j)),
            forall|j: int| 0 <= j < k ==> fields@[j].deep_view() == field_of(all, j),
        decreases count - k,
    {
        if !name_at(segments, 2 * k + 1) {
            assert(!is_name(name_segment(all, k as int)));
            return None;
        }
        let field = FieldSpec {
            name: segments[2 * k + 1][0].clone(),
            ty: classify_tokens(&segments[2 * k + 2]),
        };
        assert(field.deep_view() == field_of(all, k as int));
        fields.push(field);
        k += 1;
    }
    let record = RecordSchema { name: segments[0][0].clone(), fields };
    assert(record.deep_view().fields =~= statement_record(all).unwrap().fields);
    Some(record)
}

/// Reads a schema document. A malformed statement is skipped; the others give
/// one record each, in the order of the document.
pub fn parse_schema(document: &str) -> (r: Vec<RecordSchema>)
    ensures
        r.deep_view() == schema_of(document@),
{
    let tokens = lex(document);
    let statements = statements(&tokens);
    let ghost all = statements.deep_view();
    let mut records: Vec<RecordSchema> = Vec::new();
    let mut i: usize = 0;
    assert(records.deep_view() =~= Seq::<RecordShape>::empty());
    while i < statements.len()
        invariant
            i <= statements.len(),
            all == statements.deep_view(),
            records.deep_view() == records_of(all.take(i as int)),
        decreases statements.len() - i,
    {
        proof {
            assert(all.take(i + 1).drop_last() =~= all.take(i as int));
            assert(all.take(i + 1).last() == statements@[i as int].deep_view());
        }
        let ghost before = records.deep_view();
        let parts = segments(&statements[i]);
        match parse_statement(&parts) {
            Some(record) => {
                let ghost shape = record.deep_view();
                records.push(record);
                assert(records.deep_view() =~= before.push(shape));
            },
            None => {},
        }
        i += 1;
    }
    assert(all.take(statements.len() as int) =~= all);
    records
}

} // verus!
