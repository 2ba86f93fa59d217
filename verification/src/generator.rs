//! Generation of the units of a batch.
//!
//! Every record of the batch gets one unit. Every named type that a field
//! refers to, and that is neither a record of the batch nor visited before, is
//! resolved in the project; a definition that is found gets one unit too, and
//! its own fields are treated in the same way before the fields that follow.
//! An identifier is marked as visited before its definition is expanded, so a
//! definition that refers to itself, or two that refer to each other, are
//! expanded once.
//!
//! The routine of a record that refers to itself, directly or through other
//! records, calls itself whenever it runs. Generation neither rejects nor
//! changes such a record: whether it is wanted is for the author of the
//! schema to decide.

use crate::classifier::{reference_name, reference_of, TypeDescriptor, TypeShape};
use crate::laws::{law_one_unit_per_identifier, law_unresolved_has_no_unit};
use crate::project::{Declaration, DeclarationView, ProjectIndex, ProjectIndexView};
use crate::resolver::{definitions, defines, lemma_resolution_member, resolution, resolve};
use crate::schema::{copy_fields, FieldShape, FieldSpec, RecordSchema, RecordShape};
use crate::text::{contains_text, copy_texts};
use vstd::prelude::*;
use vstd::seq_lib::lemma_seq_contains_after_push;
use vstd::string::*;

verus! {

/// A definition together with what its acquisition routine needs.
#[derive(Debug, PartialEq, Eq)]
pub enum GeneratedUnit {
    /// A record, whose value is acquired field by field in declaration order.
    Record { name: String, fields: Vec<FieldSpec> },
    /// An enumeration, whose value is chosen among its variants.
    Enumeration { name: String, variants: Vec<String> },
}

/// The model of a [`GeneratedUnit`].
pub enum UnitView {
    Record { name: Seq<char>, fields: Seq<FieldShape> },
    Enumeration { name: Seq<char>, variants: Seq<Seq<char>> },
}

impl DeepView for GeneratedUnit {
    type V = UnitView;

    open spec fn deep_view(&self) -> UnitView {
        match self {
            GeneratedUnit::Record { name, fields } => UnitView::Record {
                name: name@,
                fields: fields.deep_view(),
            },
            GeneratedUnit::Enumeration { name, variants } => UnitView::Enumeration {
                name: name@,
                variants: variants.deep_view(),
            },
        }
    }
}

/// The result of a pass: the units in discovery order, the records of the
/// batch first, and the names of the batch's records, which are the variants
/// of the dispatch enumeration. Units are only ever added at the end.
#[derive(Debug, PartialEq, Eq)]
pub struct EmissionBuffer {
    units: Vec<GeneratedUnit>,
    commands: Vec<String>,
}

/// The model of an [`EmissionBuffer`].
pub struct BufferView {
    pub units: Seq<UnitView>,
    pub commands: Seq<Seq<char>>,
}

impl DeepView for EmissionBuffer {
    type V = BufferView;

    closed spec fn deep_view(&self) -> BufferView {
        BufferView { units: self.units.deep_view(), commands: self.commands.deep_view() }
    }
}

impl EmissionBuffer {
    /// A buffer without units, for a batch whose records have the given
    /// names.
    pub fn new(commands: Vec<String>) -> (r: EmissionBuffer)
        ensures
            r.deep_view() == (BufferView { units: Seq::empty(), commands: commands.deep_view() }),
    {
        let units: Vec<GeneratedUnit> = Vec::new();
        assert(units.deep_view() =~= Seq::<UnitView>::empty());
        EmissionBuffer { units, commands }
    }

    /// Adds a unit at the end.
    pub fn push(&mut self, unit: GeneratedUnit)
        ensures
            final(self).deep_view() == (BufferView {
                units: old(self).deep_view().units.push(unit.deep_view()),
                commands: old(self).deep_view().commands,
            }),
    {
        let ghost before = self.units.deep_view();
        self.units.push(unit);
        assert(self.units.deep_view() =~= before.push(unit.deep_view()));
    }

    /// Adds units at the end, in their order.
    pub fn extend(&mut self, units: Vec<GeneratedUnit>)
        ensures
            final(self).deep_view() == (BufferView {
                units: old(self).deep_view().units + units.deep_view(),
                commands: old(self).deep_view().commands,
            }),
    {
        let ghost before = self.units.deep_view();
        let ghost added = units.deep_view();
        let mut units = units;
        self.units.append(&mut units);
        assert(self.units.deep_view() =~= before + added);
    }

    /// The units, in the order in which they were added.
    pub fn units(&self) -> (r: &Vec<GeneratedUnit>)
        ensures
            r.deep_view() == self.deep_view().units,
    {
        &self.units
    }

    /// The names of the batch's records.
    pub fn commands(&self) -> (r: &Vec<String>)
        ensures
            r.deep_view() == self.deep_view().commands,
    {
        &self.commands
    }
}

/// Why a pass was given up.
#[derive(Debug, PartialEq, Eq)]
pub enum GenerateError {
    /// A definition that a field refers to has fields without names.
    UnsupportedFields { record: String },
}

/// The model of a [`GenerateError`].
pub enum ErrorView {
    UnsupportedFields { record: Seq<char> },
}

impl DeepView for GenerateError {
    type V = ErrorView;

    open spec fn deep_view(&self) -> ErrorView {
        match self {
            GenerateError::UnsupportedFields { record } => ErrorView::UnsupportedFields {
                record: record@,
            },
        }
    }
}

/// The model of a pass's result.
pub open spec fn outcome_view(outcome: Result<EmissionBuffer, GenerateError>) -> Result<
    BufferView,
    ErrorView,
> {
    match outcome {
        Ok(buffer) => Ok(buffer.deep_view()),
        Err(error) => Err(error.deep_view()),
    }
}

/// The name of the type that a unit is for.
pub open spec fn unit_name(unit: UnitView) -> Seq<char> {
    match unit {
        UnitView::Record { name, .. } => name,
        UnitView::Enumeration { name, .. } => name,
    }
}

/// The names of the units, in their order.
pub open spec fn unit_names(units: Seq<UnitView>) -> Seq<Seq<char>> {
    Seq::new(units.len(), |k: int| unit_name(units[k]))
}

/// The names of the records, in their order.
pub open spec fn record_names(records: Seq<RecordShape>) -> Seq<Seq<char>> {
    Seq::new(records.len(), |k: int| records[k].name)
}

/// The records that are kept: of several with one name, the first.
pub open spec fn retained(records: Seq<RecordShape>) -> Seq<RecordShape>
    decreases records.len(),
{
    if records.len() == 0 {
        Seq::empty()
    } else {
        let earlier = retained(records.drop_last());
        if record_names(earlier).contains(records.last().name) {
            earlier
        } else {
            earlier.push(records.last())
        }
    }
}

/// The identifiers of the named types that the fields refer to, in field
/// order. A type inside a container is no reference.
pub open spec fn references(fields: Seq<FieldShape>) -> Seq<Seq<char>>
    decreases fields.len(),
{
    if fields.len() == 0 {
        Seq::empty()
    } else {
        let earlier = references(fields.drop_last());
        match fields.last().ty {
            TypeShape::Named(name) => earlier.push(reference_of(name)),
            _ => earlier,
        }
    }
}

/// The identifiers of the named types that the records' fields refer to,
/// record by record.
pub open spec fn batch_references(records: Seq<RecordShape>) -> Seq<Seq<char>>
    decreases records.len(),
{
    if records.len() == 0 {
        Seq::empty()
    } else {
        batch_references(records.drop_last()) + references(records.last().fields)
    }
}

/// The units of the batch's own records.
pub open spec fn batch_units(records: Seq<RecordShape>) -> Seq<UnitView> {
    Seq::new(
        records.len(),
        |k: int| UnitView::Record { name: records[k].name, fields: records[k].fields },
    )
}

/// The state of a pass: the identifiers still to be looked at, the next one
/// first; the identifiers visited so far; the units found so far.
pub struct Expansion {
    pub pending: Seq<Seq<char>>,
    pub visited: Seq<Seq<char>>,
    pub units: Seq<UnitView>,
}

/// Whether a declaration defines a name that is not yet visited.
pub open spec fn is_fresh(declaration: DeclarationView, visited: Seq<Seq<char>>) -> bool {
    match declaration {
        DeclarationView::Record { name, .. } => !visited.contains(name),
        DeclarationView::Enumeration { name, .. } => !visited.contains(name),
        _ => false,
    }
}

/// The number of declarations that define a name that is not yet visited.
pub open spec fn unvisited(declarations: Seq<DeclarationView>, visited: Seq<Seq<char>>) -> nat
    decreases declarations.len(),
{
    if declarations.len() == 0 {
        0
    } else {
        unvisited(declarations.drop_last(), visited) + if is_fresh(declarations.last(), visited) {
            1nat
        } else {
            0nat
        }
    }
}

/// One step of a pass, on a state with a pending identifier.
pub open spec fn step(index: ProjectIndexView, batch: Seq<Seq<char>>, st: Expansion) -> Result<
    Expansion,
    ErrorView,
> {
    let identifier = st.pending[0];
    let rest = st.pending.skip(1);
    if batch.contains(identifier) || st.visited.contains(identifier) {
        Ok(Expansion { pending: rest, visited: st.visited, units: st.units })
    } else {
        let visited = st.visited.push(identifier);
        match resolution(index, identifier) {
            Some(DeclarationView::Record { name, fields: Some(fields) }) => Ok(
                Expansion {
                    pending: references(fields) + rest,
                    visited,
                    units: st.units.push(UnitView::Record { name, fields }),
                },
            ),
            Some(DeclarationView::Record { name, fields: None }) => Err(
                ErrorView::UnsupportedFields { record: name },
            ),
            Some(DeclarationView::Enumeration { name, variants }) => Ok(
                Expansion {
                    pending: rest,
                    visited,
                    units: st.units.push(UnitView::Enumeration { name, variants }),
                },
            ),
            _ => Ok(Expansion { pending: rest, visited, units: st.units }),
        }
    }
}

/// The state that a pass ends in when it starts in the given state: the first
/// state on its way in which nothing is pending, or the error that ends it.
pub open spec fn run(index: ProjectIndexView, batch: Seq<Seq<char>>, st: Expansion) -> Result<
    Expansion,
    ErrorView,
>
    decreases unvisited(definitions(index), st.visited), st.pending.len(),
{
    if st.pending.len() == 0 {
        Ok(st)
    } else {
        match step(index, batch, st) {
            Ok(next) => {
                proof {
                    lemma_step_decreases(index, batch, st);
                }
                run(index, batch, next)
            },
            Err(error) => Err(error),
        }
    }
}

/// The units that a pass ends with.
pub open spec fn found_units(outcome: Result<Expansion, ErrorView>) -> Result<
    Seq<UnitView>,
    ErrorView,
> {
    match outcome {
        Ok(last) => Ok(last.units),
        Err(error) => Err(error),
    }
}

/// Whether a result holds a unit of the given name.
pub open spec fn has_unit(outcome: Result<BufferView, ErrorView>, identifier: Seq<char>) -> bool {
    outcome matches Ok(buffer) && unit_names(buffer.units).contains(identifier)
}

/// Whether no two units of a result have one name.
pub open spec fn has_distinct_units(outcome: Result<BufferView, ErrorView>) -> bool {
    outcome matches Ok(buffer) ==> unit_names(buffer.units).no_duplicates()
}

/// The state in which the pass over a batch starts.
pub open spec fn start(batch: Seq<RecordShape>) -> Expansion {
    Expansion {
        pending: batch_references(batch),
        visited: Seq::empty(),
        units: Seq::empty(),
    }
}

/// The result of generation for the records of a schema in a project.
pub open spec fn generated(records: Seq<RecordShape>, index: ProjectIndexView) -> Result<
    BufferView,
    ErrorView,
> {
    let batch = retained(records);
    match run(index, record_names(batch), start(batch)) {
        Ok(last) => Ok(
            BufferView { units: batch_units(batch) + last.units, commands: record_names(batch) },
        ),
        Err(error) => Err(error),
    }
}

/// Visiting one more identifier never raises the count of unvisited
/// definitions, and lowers it where a declaration defines that identifier.
pub proof fn lemma_unvisited_push(
    declarations: Seq<DeclarationView>,
    visited: Seq<Seq<char>>,
    identifier: Seq<char>,
)
    ensures
        unvisited(declarations, visited.push(identifier)) <= unvisited(declarations, visited),
        !visited.contains(identifier) && (exists|k: int|
            0 <= k < declarations.len() && defines(#[trigger] declarations[k], identifier))
            ==> unvisited(declarations, visited.push(identifier)) < unvisited(
            declarations,
            visited,
        ),
    decreases declarations.len(),
{
    if declarations.len() > 0 {
        let earlier = declarations.drop_last();
        let last = declarations.last();
        lemma_unvisited_push(earlier, visited, identifier);
        match last {
            DeclarationView::Record { name, .. } => {
                lemma_seq_contains_after_push(visited, identifier, name);
            },
            DeclarationView::Enumeration { name, .. } => {
                lemma_seq_contains_after_push(visited, identifier, name);
            },
            _ => {},
        }
        if !visited.contains(identifier) && (exists|k: int|
            0 <= k < declarations.len() && defines(#[trigger] declarations[k], identifier)) {
            let k = choose|k: int|
                0 <= k < declarations.len() && defines(#[trigger] declarations[k], identifier);
            if k < earlier.len() {
                assert(defines(earlier[k], identifier));
            } else {
                assert(defines(last, identifier));
                assert(is_fresh(last, visited));
                assert(!is_fresh(last, visited.push(identifier)));
            }
        }
    }
}

/// Every step brings a pass nearer to its end: it visits a definition that
/// was not visited, or it leaves the visited ones and shortens the pending
/// list.
pub proof fn lemma_step_decreases(index: ProjectIndexView, batch: Seq<Seq<char>>, st: Expansion)
    requires
        st.pending.len() > 0,
    ensures
        step(index, batch, st) matches Ok(next) ==> {
            let before = unvisited(definitions(index), st.visited);
            let after = unvisited(definitions(index), next.visited);
            after < before || (after == before && next.pending.len() < st.pending.len())
        },
{
    let identifier = st.pending[0];
    if let Ok(next) = step(index, batch, st) {
        if batch.contains(identifier) || st.visited.contains(identifier) {
        } else {
            lemma_unvisited_push(definitions(index), st.visited, identifier);
            lemma_resolution_member(index, identifier);
            if let Some(found) = resolution(index, identifier) {
                let k = choose|k: int|
                    0 <= k < definitions(index).len() && definitions(index)[k] == found;
                assert(defines(definitions(index)[k], identifier));
            }
        }
    }
}

/// The model of the result of an expansion.
pub open spec fn units_view(outcome: Result<Vec<GeneratedUnit>, GenerateError>) -> Result<
    Seq<UnitView>,
    ErrorView,
> {
    match outcome {
        Ok(units) => Ok(units.deep_view()),
        Err(error) => Err(error.deep_view()),
    }
}

/// The names of the records.
pub fn names_of(records: &Vec<RecordSchema>) -> (r: Vec<String>)
    ensures
        r.deep_view() == record_names(records.deep_view()),
{
    let mut names: Vec<String> = Vec::new();
    let mut i: usize = 0;
    while i < records.len()
        invariant
            i <= records.len(),
            names.len() == i,
            forall|k: int| 0 <= k < i ==> names@[k]@ == records@[k].name@,
        decreases records.len() - i,
    {
        names.push(records[i].name.clone());
        i += 1;
    }
    assert(names.deep_view() =~= record_names(records.deep_view()));
    names
}

/// Keeps, of several records with one name, the first.
pub fn retain_first(records: &Vec<RecordSchema>) -> (r: Vec<RecordSchema>)
    ensures
        r.deep_view() == retained(records.deep_view()),
{
    let ghost all = records.deep_view();
    let mut kept: Vec<RecordSchema> = Vec::new();
    let mut names: Vec<String> = Vec::new();
    let mut i: usize = 0;
    assert(kept.deep_view() =~= Seq::<RecordShape>::empty());
    assert(names.deep_view() =~= record_names(kept.deep_view()));
    while i < records.len()
        invariant
            i <= records.len(),
            all == records.deep_view(),
            kept.deep_view() == retained(all.take(i as int)),
            names.deep_view() == record_names(kept.deep_view()),
        decreases records.len() - i,
    {
        proof {
            assert(all.take(i + 1).drop_last() =~= all.take(i as int));
            assert(all.take(i + 1).last() == records@[i as int].deep_view());
        }
        if !contains_text(&names, &records[i].name) {
            let ghost kept_before = kept.deep_view();
            let ghost names_before = names.deep_view();
            names.push(records[i].name.clone());
            kept.push(records[i].clone());
            assert(kept.deep_view() =~= kept_before.push(records@[i as int].deep_view()));
            assert(names.deep_view() =~= names_before.push(records@[i as int].name@));
            assert(names.deep_view() =~= record_names(kept.deep_view()));
        }
        i += 1;
    }
    assert(all.take(records.len() as int) =~= all);
    kept
}

/// The identifiers of the named types that the fields refer to, in field
/// order.
pub fn references_of(fields: &Vec<FieldSpec>) -> (r: Vec<String>)
    ensures
        r.deep_view() == references(fields.deep_view()),
{
    let ghost all = fields.deep_view();
    let mut names: Vec<String> = Vec::new();
    let mut i: usize = 0;
    assert(names.deep_view() =~= Seq::<Seq<char>>::empty());
    while i < fields.len()
        invariant
            i <= fields.len(),
            all == fields.deep_view(),
            names.deep_view() == references(all.take(i as int)),
        decreases fields.len() - i,
    {
        proof {
            assert(all.take(i + 1).drop_last() =~= all.take(i as int));
            assert(all.take(i + 1).last() == fields@[i as int].deep_view());
        }
        match &fields[i].ty {
            TypeDescriptor::Named(name) => {
                let ghost before = names.deep_view();
                names.push(reference_name(name));
                assert(names.deep_view() =~= before.push(reference_of(name@)));
            },
            _ => {},
        }
        i += 1;
    }
    assert(all.take(fields.len() as int) =~= all);
    names
}

/// The named types that the records' fields refer to, record by record.
pub fn batch_references_of(records: &Vec<RecordSchema>) -> (r: Vec<String>)
    ensures
        r.deep_view() == batch_references(records.deep_view()),
{
    let ghost all = records.deep_view();
    let mut names: Vec<String> = Vec::new();
    let mut i: usize = 0;
    assert(names.deep_view() =~= Seq::<Seq<char>>::empty());
    while i < records.len()
        invariant
            i <= records.len(),
            all == records.deep_view(),
            names.deep_view() == batch_references(all.take(i as int)),
        decreases records.len() - i,
    {
        proof {
            assert(all.take(i + 1).drop_last() =~= all.take(i as int));
            assert(all.take(i + 1).last() == records@[i as int].deep_view());
        }
        let ghost before = names.deep_view();
        let mut more = references_of(&records[i].fields);
        let ghost added = more.deep_view();
        names.append(&mut more);
        assert(names.deep_view() =~= before + added);
        i += 1;
    }
    assert(all.take(records.len() as int) =~= all);
    names
}

/// The units of the batch's own records.
pub fn batch_units_of(records: &Vec<RecordSchema>) -> (r: Vec<GeneratedUnit>)
    ensures
        r.deep_view() == batch_units(records.deep_view()),
{
    let mut units: Vec<GeneratedUnit> = Vec::new();
    let mut i: usize = 0;
    while i < records.len()
        invariant
            i <= records.len(),
            units.len() == i,
            forall|k: int|
                0 <= k < i ==> #[trigger] units@[k].deep_view() == batch_units(
                    records.deep_view(),
                )[k],
        decreases records.len() - i,
    {
        units.push(
            GeneratedUnit::Record {
                name: records[i].name.clone(),
                fields: copy_fields(&records[i].fields),
            },
        );
        i += 1;
    }
    assert(units.deep_view() =~= batch_units(records.deep_view()));
    units
}

/// Puts the items on a stack so that the first item is on top.
fn push_reversed(stack: &mut Vec<String>, items: &Vec<String>)
    ensures
        final(stack).deep_view().reverse() == items.deep_view() + old(stack).deep_view().reverse(),
{
    let ghost base = stack.deep_view();
    let ghost all = items.deep_view();
    let mut i: usize = items.len();
    assert(all.skip(i as int) =~= Seq::<Seq<char>>::empty());
    assert(stack.deep_view().reverse() =~= all.skip(i as int) + base.reverse());
    while i > 0
        invariant
            i <= items.len(),
            all == items.deep_view(),
            stack.deep_view().reverse() == all.skip(i as int) + base.reverse(),
        decreases i,
    {
        let ghost before = stack.deep_view();
        i -= 1;
        stack.push(items[i].clone());
        assert(stack.deep_view() =~= before.push(all[i as int]));
        assert(stack.deep_view().reverse() =~= seq![all[i as int]] + before.reverse());
        assert(all.skip(i as int) =~= seq![all[i as int]] + all.skip(i + 1));
        assert(stack.deep_view().reverse() =~= all.skip(i as int) + base.reverse());
    }
    assert(all.skip(0) =~= all);
}

/// The state that is threaded through one pass: the project that is
/// searched, the names of the batch's records, the identifiers still to be
/// looked at, the identifiers visited so far and the units found so far.
///
/// An identifier is visited at most once in a pass: once it is among the
/// visited ones, no step expands it again, from wherever it is referred to.
pub struct ResolutionContext<'a> {
    pub index: &'a ProjectIndex,
    pub batch: Vec<String>,
    /// The identifiers still to be looked at, the next one last.
    pub pending: Vec<String>,
    pub visited: Vec<String>,
    pub units: Vec<GeneratedUnit>,
}

impl<'a> ResolutionContext<'a> {
    /// The model of the state: the pending identifiers with the next one
    /// first.
    pub open spec fn state(&self) -> Expansion {
        Expansion {
            pending: self.pending.deep_view().reverse(),
            visited: self.visited.deep_view(),
            units: self.units.deep_view(),
        }
    }

    /// The state in which a pass starts: the references are pending in their
    /// order, nothing is visited and no unit is found.
    pub fn new(index: &'a ProjectIndex, batch: Vec<String>, references: &Vec<String>) -> (r: Self)
        ensures
            r.index == index,
            r.batch == batch,
            r.state() == (Expansion {
                pending: references.deep_view(),
                visited: Seq::empty(),
                units: Seq::empty(),
            }),
    {
        let mut pending: Vec<String> = Vec::new();
        let visited: Vec<String> = Vec::new();
        let units: Vec<GeneratedUnit> = Vec::new();
        assert(pending.deep_view().reverse() =~= Seq::<Seq<char>>::empty());
        push_reversed(&mut pending, references);
        assert(pending.deep_view().reverse() =~= references.deep_view());
        assert(visited.deep_view() =~= Seq::<Seq<char>>::empty());
        assert(units.deep_view() =~= Seq::<UnitView>::empty());
        ResolutionContext { index, batch, pending, visited, units }
    }

    /// Whether nothing is pending.
    pub fn is_done(&self) -> (r: bool)
        ensures
            r == (self.state().pending.len() == 0),
    {
        self.pending.len() == 0
    }

    /// Takes one step: looks at the next pending identifier. A record of the
    /// batch and a visited identifier are passed over. Any other identifier
    /// is marked as visited and resolved; where the project defines it, its
    /// unit is added and what its fields refer to is looked at next. A
    /// definition whose fields have no names is an error, and the state is
    /// then of no further use. With nothing pending the state stays as it is.
    pub fn advance(&mut self) -> (r: Result<(), GenerateError>)
        ensures
            final(self).index == old(self).index,
            final(self).batch == old(self).batch,
            old(self).state().pending.len() == 0 ==> r is Ok && final(self).state() == old(
                self,
            ).state(),
            old(self).state().pending.len() > 0 ==> match step(
                old(self).index.deep_view(),
                old(self).batch.deep_view(),
                old(self).state(),
            ) {
                Ok(next) => r is Ok && final(self).state() == next,
                Err(error) => r matches Err(found) && found.deep_view() == error,
            },
    {
        let ghost st = self.state();
        let ghost stack_before = self.pending.deep_view();
        if self.pending.len() == 0 {
            return Ok(());
        }
        let identifier = self.pending.pop().unwrap();
        assert(self.pending.deep_view() =~= stack_before.drop_last());
        assert(identifier@ == st.pending[0]);
        assert(self.pending.deep_view().reverse() =~= st.pending.skip(1));
        if contains_text(&self.batch, &identifier) || contains_text(&self.visited, &identifier) {
            return Ok(());
        }
        let ghost units_before = self.units.deep_view();
        let index = self.index;
        match resolve(index, &identifier) {
            Some(Declaration::Record { name, fields: Some(fields) }) => {
                let targets = references_of(fields);
                push_reversed(&mut self.pending, &targets);
                self.units.push(
                    GeneratedUnit::Record { name: name.clone(), fields: copy_fields(fields) },
                );
                assert(self.units.deep_view() =~= units_before.push(
                    UnitView::Record { name: name@, fields: fields.deep_view() },
                ));
            },
            Some(Declaration::Record { name, fields: None }) => {
                return Err(GenerateError::UnsupportedFields { record: name.clone() });
            },
            Some(Declaration::Enumeration { name, variants }) => {
                self.units.push(
                    GeneratedUnit::Enumeration {
                        name: name.clone(),
                        variants: copy_texts(variants),
                    },
                );
                assert(self.units.deep_view() =~= units_before.push(
                    UnitView::Enumeration { name: name@, variants: variants.deep_view() },
                ));
            },
            _ => {},
        }
        let ghost visited_before = self.visited.deep_view();
        self.visited.push(identifier);
        assert(self.visited.deep_view() =~= visited_before.push(st.pending[0]));
        Ok(())
    }
}

/// Expands the named types that a batch refers to. `names` holds the names of
/// the batch's records and `references` the named types that their fields
/// refer to. Returns the units of the definitions that were found, in
/// discovery order, or the error of the first definition whose fields have no
/// names.
pub fn expand(index: &ProjectIndex, names: &Vec<String>, references: &Vec<String>) -> (r: Result<
    Vec<GeneratedUnit>,
    GenerateError,
>)
    ensures
        units_view(r) == found_units(
            run(
                index.deep_view(),
                names.deep_view(),
                Expansion {
                    pending: references.deep_view(),
                    visited: Seq::empty(),
                    units: Seq::empty(),
                },
            ),
        ),
{
    let ghost idx = index.deep_view();
    let ghost batch = names.deep_view();
    let ghost goal = run(
        idx,
        batch,
        Expansion { pending: references.deep_view(), visited: Seq::empty(), units: Seq::empty() },
    );
    let mut context = ResolutionContext::new(index, copy_texts(names), references);
    while !context.is_done()
        invariant
            idx == index.deep_view(),
            idx == context.index.deep_view(),
            batch == names.deep_view(),
            batch == context.batch.deep_view(),
            goal == run(
                idx,
                batch,
                Expansion {
                    pending: references.deep_view(),
                    visited: Seq::empty(),
                    units: Seq::empty(),
                },
            ),
            run(idx, batch, context.state()) == goal,
        decreases
            unvisited(definitions(idx), context.state().visited),
            context.state().pending.len(),
    {
        let ghost st = context.state();
        proof {
            lemma_step_decreases(idx, batch, st);
            assert(run(idx, batch, st) == goal);
        }
        match context.advance() {
            Ok(()) => {},
            Err(error) => {
                return Err(error);
            },
        }
    }
    Ok(context.units)
}

/// Generates the units of a batch. Of several records with one name the first
/// is kept. The records of the batch come first, in schema order, then the
/// definitions found in the project, in discovery order. A definition whose
/// fields have no names ends the pass with an error.
///
/// No two units of the result have one name, and a type that is neither a
/// record of the batch nor defined in the project has no unit.
pub fn generate(records: &Vec<RecordSchema>, index: &ProjectIndex) -> (r: Result<
    EmissionBuffer,
    GenerateError,
>)
    ensures
        outcome_view(r) == generated(records.deep_view(), index.deep_view()),
        has_distinct_units(outcome_view(r)),
        forall|identifier: Seq<char>|
            resolution(index.deep_view(), identifier) is None && !record_names(
                retained(records.deep_view()),
            ).contains(identifier) ==> !#[trigger] has_unit(outcome_view(r), identifier),
{
    let batch = retain_first(records);
    let names = names_of(&batch);
    let references = batch_references_of(&batch);
    proof {
        let outcome = generated(records.deep_view(), index.deep_view());
        law_one_unit_per_identifier(records.deep_view(), index.deep_view());
        assert forall|identifier: Seq<char>|
            resolution(index.deep_view(), identifier) is None && !record_names(
                retained(records.deep_view()),
            ).contains(identifier) implies !#[trigger] has_unit(outcome, identifier) by {
            law_unresolved_has_no_unit(records.deep_view(), index.deep_view(), identifier);
        }
    }
    match expand(index, &names, &references) {
        Ok(resolved) => {
            let mut buffer = EmissionBuffer::new(names);
            buffer.extend(batch_units_of(&batch));
            buffer.extend(resolved);
            assert(Seq::<UnitView>::empty() + batch_units(batch.deep_view()) =~= batch_units(
                batch.deep_view(),
            ));
            Ok(buffer)
        },
        Err(error) => Err(error),
    }
}

impl GenerateError {
    /// What went wrong, in words.
    pub fn message(&self) -> (r: String)
        ensures
            r@ == error_text(self.deep_view()),
    {
        match self {
            GenerateError::UnsupportedFields { record } => {
                let mut text = "Only named fields are supported: ".to_owned();
                text.append(record.as_str());
                text
            },
        }
    }
}

/// The words for an error.
pub open spec fn error_text(error: ErrorView) -> Seq<char> {
    match error {
        ErrorView::UnsupportedFields { record } => "Only named fields are supported: "@ + record,
    }
}

} // verus!
