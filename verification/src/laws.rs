//! What holds of every pass.
//!
//! The proofs follow a pass step by step. [`consistent`] is what holds of
//! every state that a pass goes through, and [`complete`] is what then holds
//! of the units it ends with.

use crate::generator::{
    batch_references, batch_units, generated, lemma_step_decreases, record_names, references,
    retained, run, start, step, unit_name, unit_names, unvisited, BufferView, ErrorView, Expansion,
    UnitView,
};
use crate::project::{DeclarationView, ProjectIndexView};
use crate::resolver::{definitions, lemma_resolution_member, resolution};
use crate::schema::RecordShape;
use vstd::prelude::*;
use vstd::seq_lib::{lemma_no_dup_in_concat, lemma_seq_contains_after_push};

verus! {

/// The unit that a definition gets, if it gets one.
pub open spec fn unit_of(declaration: DeclarationView) -> Option<UnitView> {
    match declaration {
        DeclarationView::Record { name, fields: Some(fields) } => Some(
            UnitView::Record { name, fields },
        ),
        DeclarationView::Enumeration { name, variants } => Some(
            UnitView::Enumeration { name, variants },
        ),
        _ => None,
    }
}

/// The unit that an identifier gets when it is expanded: that of its
/// definition, where the project has one.
pub open spec fn expansion_of(index: ProjectIndexView, identifier: Seq<char>) -> Option<UnitView> {
    match resolution(index, identifier) {
        Some(declaration) => unit_of(declaration),
        None => None,
    }
}

/// The named types that the fields of a unit refer to.
pub open spec fn unit_references(unit: UnitView) -> Seq<Seq<char>> {
    match unit {
        UnitView::Record { fields, .. } => references(fields),
        UnitView::Enumeration { .. } => Seq::empty(),
    }
}

/// Whether an identifier is a record of the batch, visited, or pending.
pub open spec fn is_reached(batch: Seq<Seq<char>>, st: Expansion, identifier: Seq<char>) -> bool {
    batch.contains(identifier) || st.visited.contains(identifier) || st.pending.contains(
        identifier,
    )
}

/// What holds of every state of a pass: no identifier is visited twice, no
/// record of the batch is visited, every unit belongs to a visited identifier
/// and is the unit of its definition, every visited identifier that has a
/// definition has its unit, no two units have one name, and what a unit's
/// fields refer to is reached.
pub open spec fn consistent(index: ProjectIndexView, batch: Seq<Seq<char>>, st: Expansion) -> bool {
    &&& st.visited.no_duplicates()
    &&& forall|i: int| 0 <= i < st.visited.len() ==> !batch.contains(#[trigger] st.visited[i])
    &&& forall|k: int|
        0 <= k < st.units.len() ==> st.visited.contains(unit_name(#[trigger] st.units[k]))
    &&& forall|k: int|
        0 <= k < st.units.len() ==> expansion_of(index, unit_name(st.units[k])) == Some(
            #[trigger] st.units[k],
        )
    &&& forall|x: Seq<char>|
        #[trigger] st.visited.contains(x) && expansion_of(index, x) is Some ==> unit_names(
            st.units,
        ).contains(x)
    &&& unit_names(st.units).no_duplicates()
    &&& forall|k: int, x: Seq<char>|
        0 <= k < st.units.len() && #[trigger] unit_references(st.units[k]).contains(x)
            ==> is_reached(batch, st, x)
}

/// What holds of the units that a pass ends with, seen from one of its
/// states: they start with the units of that state, no two have one name,
/// none has the name of a record of the batch, each is the unit of its
/// definition, every identifier that was pending or visited and has a
/// definition has its unit, and so has every defined type that a unit's
/// fields refer to.
pub open spec fn complete(
    index: ProjectIndexView,
    batch: Seq<Seq<char>>,
    st: Expansion,
    units: Seq<UnitView>,
) -> bool {
    &&& st.units.len() <= units.len()
    &&& forall|k: int| 0 <= k < st.units.len() ==> units[k] == #[trigger] st.units[k]
    &&& unit_names(units).no_duplicates()
    &&& forall|k: int| 0 <= k < units.len() ==> !batch.contains(unit_name(#[trigger] units[k]))
    &&& forall|k: int|
        0 <= k < units.len() ==> expansion_of(index, unit_name(units[k])) == Some(
            #[trigger] units[k],
        )
    &&& forall|x: Seq<char>|
        (st.pending.contains(x) || st.visited.contains(x)) && !batch.contains(x) && expansion_of(
            index,
            x,
        ) is Some ==> #[trigger] unit_names(units).contains(x)
    &&& forall|k: int, x: Seq<char>|
        0 <= k < units.len() && #[trigger] unit_references(units[k]).contains(x) && !batch.contains(
            x,
        ) && expansion_of(index, x) is Some ==> unit_names(units).contains(x)
}

/// The unit of an identifier's definition has the identifier as its name.
pub proof fn lemma_expansion_name(index: ProjectIndexView, identifier: Seq<char>)
    ensures
        expansion_of(index, identifier) matches Some(unit) ==> unit_name(unit) == identifier,
{
    lemma_resolution_member(index, identifier);
}

/// A list without repetition stays so when an element is added that it does
/// not hold.
pub proof fn lemma_push_distinct<A>(s: Seq<A>, x: A)
    requires
        s.no_duplicates(),
        !s.contains(x),
    ensures
        s.push(x).no_duplicates(),
{
    assert forall|i: int, j: int|
        0 <= i < s.push(x).len() && 0 <= j < s.push(x).len() && i != j implies s.push(x)[i]
        != s.push(x)[j] by {
        if i < s.len() && j < s.len() {
        } else if i < s.len() {
            assert(s[i] != x);
        } else {
            assert(s[j] != x);
        }
    }
}

/// A step leads from a consistent state to a consistent state. It keeps the
/// units and the visited identifiers that are there, and what was pending is
/// pending still, or visited, or a record of the batch.
pub proof fn lemma_step_consistent(index: ProjectIndexView, batch: Seq<Seq<char>>, st: Expansion)
    requires
        consistent(index, batch, st),
        st.pending.len() > 0,
    ensures
        step(index, batch, st) matches Ok(next) ==> {
            &&& consistent(index, batch, next)
            &&& st.units.len() <= next.units.len()
            &&& forall|k: int| 0 <= k < st.units.len() ==> next.units[k] == #[trigger] st.units[k]
            &&& forall|x: Seq<char>| #[trigger] st.visited.contains(x) ==> next.visited.contains(x)
            &&& forall|x: Seq<char>| #[trigger]
                st.pending.contains(x) ==> next.pending.contains(x) || next.visited.contains(x)
                    || batch.contains(x)
        },
{
    let identifier = st.pending[0];
    let rest = st.pending.skip(1);
    if let Ok(next) = step(index, batch, st) {
        assert forall|x: Seq<char>| #[trigger] st.pending.contains(x) implies rest.contains(x) || x
            == identifier by {
            let i = choose|i: int| 0 <= i < st.pending.len() && st.pending[i] == x;
            if i > 0 {
                assert(rest[i - 1] == x);
            }
        }
        if batch.contains(identifier) || st.visited.contains(identifier) {
            assert(next.pending == rest);
            assert forall|k: int, x: Seq<char>|
                0 <= k < next.units.len() && #[trigger] unit_references(next.units[k]).contains(
                    x,
                ) implies is_reached(batch, next, x) by {
                assert(is_reached(batch, st, x));
            }
        } else {
            lemma_expansion_name(index, identifier);
            lemma_push_distinct(st.visited, identifier);
            assert(next.visited == st.visited.push(identifier));
            assert forall|x: Seq<char>| #[trigger] next.visited.contains(x) implies x == identifier
                || st.visited.contains(x) by {
                lemma_seq_contains_after_push(st.visited, identifier, x);
            }
            assert forall|x: Seq<char>| st.visited.contains(x) || x
                == identifier implies #[trigger] next.visited.contains(x) by {
                lemma_seq_contains_after_push(st.visited, identifier, x);
            }
            assert forall|x: Seq<char>| #[trigger] rest.contains(x) implies next.pending.contains(
                x,
            ) by {
                let i = choose|i: int| 0 <= i < rest.len() && rest[i] == x;
                let shift = next.pending.len() - rest.len();
                assert(next.pending[shift + i] == x);
            }
            assert forall|i: int| 0 <= i < next.visited.len() implies !batch.contains(
                #[trigger] next.visited[i],
            ) by {
                if i < st.visited.len() {
                    assert(next.visited[i] == st.visited[i]);
                }
            }
            assert forall|k: int, x: Seq<char>|
                0 <= k < st.units.len() && #[trigger] unit_references(st.units[k]).contains(
                    x,
                ) implies is_reached(batch, next, x) by {
                assert(is_reached(batch, st, x));
            }
            match expansion_of(index, identifier) {
                Some(unit) => {
                    assert(next.units == st.units.push(unit));
                    assert forall|x: Seq<char>| #[trigger]
                        unit_references(unit).contains(x) implies next.pending.contains(x) by {
                        let i = choose|i: int|
                            0 <= i < unit_references(unit).len() && unit_references(unit)[i] == x;
                        assert(next.pending[i] == x);
                    }
                    assert forall|k: int, x: Seq<char>|
                        0 <= k < next.units.len() && #[trigger] unit_references(
                            next.units[k],
                        ).contains(x) implies is_reached(batch, next, x) by {
                        if k < st.units.len() {
                            assert(next.units[k] == st.units[k]);
                        }
                    }
                    assert(unit_names(next.units) =~= unit_names(st.units).push(identifier));
                    assert(!unit_names(st.units).contains(identifier)) by {
                        if unit_names(st.units).contains(identifier) {
                            let k = choose|k: int|
                                0 <= k < unit_names(st.units).len() && unit_names(st.units)[k]
                                    == identifier;
                            assert(st.visited.contains(unit_name(st.units[k])));
                        }
                    }
                    lemma_push_distinct(unit_names(st.units), identifier);
                    assert forall|k: int| 0 <= k < next.units.len() implies next.visited.contains(
                        unit_name(#[trigger] next.units[k]),
                    ) by {
                        if k < st.units.len() {
                            assert(next.units[k] == st.units[k]);
                        }
                    }
                    assert forall|k: int| 0 <= k < next.units.len() implies expansion_of(
                        index,
                        unit_name(next.units[k]),
                    ) == Some(#[trigger] next.units[k]) by {
                        if k < st.units.len() {
                            assert(next.units[k] == st.units[k]);
                        }
                    }
                    assert forall|x: Seq<char>| #[trigger]
                        next.visited.contains(x) && expansion_of(
                            index,
                            x,
                        ) is Some implies unit_names(next.units).contains(x) by {
                        lemma_seq_contains_after_push(unit_names(st.units), identifier, x);
                    }
                },
                None => {
                    assert(next.units == st.units);
                },
            }
        }
    }
}

/// What a pass that starts in a state keeps of it: what is visited stays
/// visited, and what is pending is visited in the end unless it is a record
/// of the batch.
pub open spec fn extends(batch: Seq<Seq<char>>, st: Expansion, last: Expansion) -> bool {
    &&& forall|x: Seq<char>| #[trigger] st.visited.contains(x) ==> last.visited.contains(x)
    &&& forall|x: Seq<char>| #[trigger]
        st.pending.contains(x) ==> last.visited.contains(x) || batch.contains(x)
}

/// The state that a pass ends in is consistent, has nothing pending, keeps
/// what the state it started in had visited, and its units are complete for
/// every consistent state that the pass goes through.
pub proof fn lemma_run_complete(index: ProjectIndexView, batch: Seq<Seq<char>>, st: Expansion)
    requires
        consistent(index, batch, st),
    ensures
        run(index, batch, st) matches Ok(last) ==> {
            &&& last.pending.len() == 0
            &&& consistent(index, batch, last)
            &&& extends(batch, st, last)
            &&& complete(index, batch, st, last.units)
        },
    decreases unvisited(definitions(index), st.visited), st.pending.len(),
{
    if st.pending.len() == 0 {
        assert forall|k: int| 0 <= k < st.units.len() implies !batch.contains(
            unit_name(#[trigger] st.units[k]),
        ) by {
            let name = unit_name(st.units[k]);
            assert(st.visited.contains(name));
            let i = choose|i: int| 0 <= i < st.visited.len() && st.visited[i] == name;
            assert(!batch.contains(st.visited[i]));
        }
        assert forall|k: int, x: Seq<char>|
            0 <= k < st.units.len() && #[trigger] unit_references(st.units[k]).contains(x)
                && !batch.contains(x) && expansion_of(index, x) is Some implies unit_names(
            st.units,
        ).contains(x) by {
            assert(is_reached(batch, st, x));
            assert(st.visited.contains(x));
        }
        assert forall|x: Seq<char>| #[trigger] st.pending.contains(x) implies false by {
            let i = choose|i: int| 0 <= i < st.pending.len() && st.pending[i] == x;
        }
    } else {
        lemma_step_consistent(index, batch, st);
        lemma_step_decreases(index, batch, st);
        if let Ok(next) = step(index, batch, st) {
            lemma_run_complete(index, batch, next);
            if let Ok(last) = run(index, batch, next) {
                assert forall|k: int| 0 <= k < st.units.len() implies last.units[k]
                    == #[trigger] st.units[k] by {
                    assert(next.units[k] == st.units[k]);
                }
                assert forall|x: Seq<char>| #[trigger] st.pending.contains(x) implies
                    last.visited.contains(x) || batch.contains(x) by {
                    if next.pending.contains(x) {
                    } else if next.visited.contains(x) {
                    }
                }
            }
        }
    }
}

/// The records that are kept have pairwise different names.
pub proof fn lemma_retained_distinct(records: Seq<RecordShape>)
    ensures
        record_names(retained(records)).no_duplicates(),
    decreases records.len(),
{
    if records.len() > 0 {
        lemma_retained_distinct(records.drop_last());
        let earlier = retained(records.drop_last());
        if !record_names(earlier).contains(records.last().name) {
            assert(record_names(earlier.push(records.last())) =~= record_names(earlier).push(
                records.last().name,
            ));
            lemma_push_distinct(record_names(earlier), records.last().name);
        }
    }
}

/// The state in which a pass starts is consistent.
pub proof fn lemma_start_consistent(index: ProjectIndexView, batch: Seq<RecordShape>)
    ensures
        consistent(index, record_names(batch), start(batch)),
{
    assert(unit_names(start(batch).units) =~= Seq::<Seq<char>>::empty());
}

/// The state in which the pass over the records of a schema ends.
pub open spec fn pass(records: Seq<RecordShape>, index: ProjectIndexView) -> Result<
    Expansion,
    ErrorView,
> {
    run(index, record_names(retained(records)), start(retained(records)))
}

/// By the end of a pass every named type that a field refers to, be it a
/// field of a record of the batch or of a definition that got a unit, is a
/// record of the batch or is visited. No identifier is visited twice and no
/// record of the batch is visited. A visited identifier has a unit exactly
/// where the project defines it as a record with named fields or as an
/// enumeration.
pub proof fn law_every_reference_is_settled(records: Seq<RecordShape>, index: ProjectIndexView)
    ensures
        pass(records, index) matches Ok(last) ==> {
            let batch = record_names(retained(records));
            &&& last.pending.len() == 0
            &&& last.visited.no_duplicates()
            &&& forall|x: Seq<char>| #[trigger]
                batch_references(retained(records)).contains(x) ==> batch.contains(x)
                    || last.visited.contains(x)
            &&& forall|k: int, x: Seq<char>|
                0 <= k < last.units.len() && #[trigger] unit_references(last.units[k]).contains(x)
                    ==> batch.contains(x) || last.visited.contains(x)
            &&& forall|x: Seq<char>| #[trigger]
                last.visited.contains(x) ==> !batch.contains(x) && (unit_names(
                    last.units,
                ).contains(x) <==> expansion_of(index, x) is Some)
        },
{
    let batch = record_names(retained(records));
    lemma_start_consistent(index, retained(records));
    lemma_run_complete(index, batch, start(retained(records)));
    if let Ok(last) = pass(records, index) {
        assert forall|k: int, x: Seq<char>|
            0 <= k < last.units.len() && #[trigger] unit_references(last.units[k]).contains(
                x,
            ) implies batch.contains(x) || last.visited.contains(x) by {
            assert(is_reached(batch, last, x));
            if last.pending.contains(x) {
                let i = choose|i: int| 0 <= i < last.pending.len() && last.pending[i] == x;
            }
        }
        assert forall|x: Seq<char>| #[trigger] last.visited.contains(x) implies !batch.contains(x)
            && (unit_names(last.units).contains(x) <==> expansion_of(index, x) is Some) by {
            let i = choose|i: int| 0 <= i < last.visited.len() && last.visited[i] == x;
            assert(!batch.contains(last.visited[i]));
            if unit_names(last.units).contains(x) {
                let k = choose|k: int|
                    0 <= k < unit_names(last.units).len() && unit_names(last.units)[k] == x;
                assert(expansion_of(index, unit_name(last.units[k])) == Some(last.units[k]));
            }
        }
    }
}

/// No two units of an artifact have one name: a definition that several
/// records refer to, directly or through other definitions, has one unit, and
/// of several records with one name only one has a unit.
pub proof fn law_one_unit_per_identifier(records: Seq<RecordShape>, index: ProjectIndexView)
    ensures
        generated(records, index) matches Ok(buffer) ==> unit_names(buffer.units).no_duplicates(),
{
    let batch = retained(records);
    let names = record_names(batch);
    lemma_retained_distinct(records);
    lemma_start_consistent(index, batch);
    lemma_run_complete(index, names, start(batch));
    if let Ok(last) = run(index, names, start(batch)) {
        let resolved = last.units;
        let own = unit_names(batch_units(batch));
        let found = unit_names(resolved);
        assert(own =~= names);
        assert forall|i: int, j: int| 0 <= i < own.len() && 0 <= j < found.len() implies own[i]
            != found[j] by {
            assert(!names.contains(unit_name(resolved[j])));
        }
        lemma_no_dup_in_concat(own, found);
        assert(unit_names(batch_units(batch) + resolved) =~= own + found);
    }
}

/// A type that a field of the batch refers to, that is no record of the batch
/// and that the project defines as a record with named fields or as an
/// enumeration, has a unit in the artifact.
pub proof fn law_referenced_definition_has_unit(
    records: Seq<RecordShape>,
    index: ProjectIndexView,
    identifier: Seq<char>,
)
    requires
        batch_references(retained(records)).contains(identifier),
        !record_names(retained(records)).contains(identifier),
        expansion_of(index, identifier) is Some,
    ensures
        generated(records, index) matches Ok(buffer) ==> unit_names(buffer.units).contains(
            identifier,
        ),
{
    let batch = retained(records);
    let names = record_names(batch);
    lemma_start_consistent(index, batch);
    lemma_run_complete(index, names, start(batch));
    if let Ok(last) = run(index, names, start(batch)) {
        let resolved = last.units;
        assert(unit_names(resolved).contains(identifier));
        let k = choose|k: int|
            0 <= k < unit_names(resolved).len() && unit_names(resolved)[k] == identifier;
        let all = batch_units(batch) + resolved;
        assert(unit_names(all)[batch.len() + k] == identifier);
    }
}

/// Every unit of an artifact is the unit of a record of the batch or the unit
/// of its name's definition in the project.
pub proof fn law_units_are_defined(records: Seq<RecordShape>, index: ProjectIndexView)
    ensures
        generated(records, index) matches Ok(buffer) ==> forall|k: int|
            0 <= k < buffer.units.len() ==> {
                ||| k < retained(records).len() && #[trigger] buffer.units[k] == batch_units(
                    retained(records),
                )[k]
                ||| expansion_of(index, unit_name(buffer.units[k])) == Some(buffer.units[k])
            },
{
    let batch = retained(records);
    let names = record_names(batch);
    lemma_start_consistent(index, batch);
    lemma_run_complete(index, names, start(batch));
    if let Ok(last) = run(index, names, start(batch)) {
        let resolved = last.units;
        let all = batch_units(batch) + resolved;
        assert forall|k: int| 0 <= k < all.len() implies {
            ||| k < batch.len() && #[trigger] all[k] == batch_units(batch)[k]
            ||| expansion_of(index, unit_name(all[k])) == Some(all[k])
        } by {
            if k >= batch.len() {
                assert(all[k] == resolved[k - batch.len()]);
            }
        }
    }
}

/// A type that the project does not define, and that is no record of the
/// batch, has no unit in the artifact.
pub proof fn law_unresolved_has_no_unit(
    records: Seq<RecordShape>,
    index: ProjectIndexView,
    identifier: Seq<char>,
)
    requires
        resolution(index, identifier) is None,
        !record_names(retained(records)).contains(identifier),
    ensures
        generated(records, index) matches Ok(buffer) ==> !unit_names(buffer.units).contains(
            identifier,
        ),
{
    law_units_are_defined(records, index);
    if let Ok(buffer) = generated(records, index) {
        if unit_names(buffer.units).contains(identifier) {
            let k = choose|k: int|
                0 <= k < unit_names(buffer.units).len() && unit_names(buffer.units)[k]
                    == identifier;
            let batch = retained(records);
            if k < batch.len() {
                assert(buffer.units[k] == batch_units(batch)[k]);
                assert(record_names(batch)[k] == identifier);
            } else {
                assert(expansion_of(index, unit_name(buffer.units[k])) == Some(buffer.units[k]));
            }
        }
    }
}

/// Every type that a field of a unit refers to, that is no record of the
/// batch and that the project defines as a record with named fields or as an
/// enumeration, has a unit in the artifact: the units are closed under
/// reference.
pub proof fn law_references_have_units(
    records: Seq<RecordShape>,
    index: ProjectIndexView,
    k: int,
    identifier: Seq<char>,
)
    requires
        generated(records, index) matches Ok(buffer) && 0 <= k < buffer.units.len()
            && unit_references(buffer.units[k]).contains(identifier),
        !record_names(retained(records)).contains(identifier),
        expansion_of(index, identifier) is Some,
    ensures
        generated(records, index) matches Ok(buffer) && unit_names(buffer.units).contains(
            identifier,
        ),
{
    let batch = retained(records);
    let names = record_names(batch);
    lemma_start_consistent(index, batch);
    lemma_run_complete(index, names, start(batch));
    let resolved = run(index, names, start(batch))->Ok_0.units;
    let all = batch_units(batch) + resolved;
    if k < batch.len() {
        assert(all[k] == batch_units(batch)[k]);
        lemma_references_of_batch(batch, k, identifier);
        assert(start(batch).pending.contains(identifier));
    } else {
        assert(all[k] == resolved[k - batch.len()]);
        assert(unit_references(resolved[k - batch.len()]).contains(identifier));
    }
    assert(unit_names(resolved).contains(identifier));
    let j = choose|j: int|
        0 <= j < unit_names(resolved).len() && unit_names(resolved)[j] == identifier;
    assert(unit_names(all)[batch.len() + j] == identifier);
}

/// What a field of a record of the batch refers to is among the references
/// of the batch.
pub proof fn lemma_references_of_batch(batch: Seq<RecordShape>, k: int, identifier: Seq<char>)
    requires
        0 <= k < batch.len(),
        references(batch[k].fields).contains(identifier),
    ensures
        batch_references(batch).contains(identifier),
    decreases batch.len(),
{
    let earlier = batch_references(batch.drop_last());
    let last = references(batch.last().fields);
    if k < batch.len() - 1 {
        lemma_references_of_batch(batch.drop_last(), k, identifier);
        let i = choose|i: int| 0 <= i < earlier.len() && earlier[i] == identifier;
        assert((earlier + last)[i] == identifier);
    } else {
        let i = choose|i: int| 0 <= i < last.len() && last[i] == identifier;
        assert((earlier + last)[earlier.len() + i] == identifier);
    }
}

/// The records of the batch come first in the artifact, in schema order and
/// each with its fields in declaration order, and they are the variants of
/// the dispatch enumeration.
pub proof fn law_batch_comes_first(records: Seq<RecordShape>, index: ProjectIndexView)
    ensures
        generated(records, index) matches Ok(buffer) ==> {
            &&& buffer.commands == record_names(retained(records))
            &&& buffer.units.len() >= retained(records).len()
            &&& forall|k: int|
                0 <= k < retained(records).len() ==> #[trigger] buffer.units[k]
                    == (UnitView::Record {
                    name: retained(records)[k].name,
                    fields: retained(records)[k].fields,
                })
        },
{
}

/// Every pass ends, whatever the definitions of the project refer to,
/// themselves and each other included: in a state in which nothing is
/// pending, or in an error.
pub proof fn law_every_pass_ends(index: ProjectIndexView, batch: Seq<Seq<char>>, st: Expansion)
    ensures
        run(index, batch, st) matches Ok(last) ==> last.pending.len() == 0,
    decreases unvisited(definitions(index), st.visited), st.pending.len(),
{
    if st.pending.len() > 0 {
        lemma_step_decreases(index, batch, st);
        if let Ok(next) = step(index, batch, st) {
            law_every_pass_ends(index, batch, next);
        }
    }
}

/// A schema whose fields refer to no named type gives its own records and
/// nothing else, in every project.
pub proof fn law_schema_without_references_succeeds(
    records: Seq<RecordShape>,
    index: ProjectIndexView,
)
    requires
        batch_references(retained(records)).len() == 0,
    ensures
        generated(records, index) == Ok::<BufferView, ErrorView>(
            BufferView {
                units: batch_units(retained(records)),
                commands: record_names(retained(records)),
            },
        ),
{
    let batch = retained(records);
    assert(batch_units(batch) + start(batch).units =~= batch_units(batch));
}

/// A pass that is given up names a record that the project defines without
/// named fields.
pub proof fn lemma_run_error(index: ProjectIndexView, batch: Seq<Seq<char>>, st: Expansion)
    ensures
        run(index, batch, st) matches Err(ErrorView::UnsupportedFields { record }) ==> resolution(
            index,
            record,
        ) == Some(DeclarationView::Record { name: record, fields: None }),
    decreases unvisited(definitions(index), st.visited), st.pending.len(),
{
    if st.pending.len() > 0 {
        lemma_step_decreases(index, batch, st);
        match step(index, batch, st) {
            Ok(next) => {
                lemma_run_error(index, batch, next);
            },
            Err(error) => {
                lemma_resolution_member(index, st.pending[0]);
            },
        }
    }
}

/// Generation is given up only for a type whose definition in the project is
/// a record without named fields. A type that the project does not define
/// never ends a pass.
pub proof fn law_error_names_definition(records: Seq<RecordShape>, index: ProjectIndexView)
    ensures
        generated(records, index) matches Err(ErrorView::UnsupportedFields { record })
            ==> resolution(index, record) == Some(
            DeclarationView::Record { name: record, fields: None },
        ),
{
    let batch = retained(records);
    lemma_run_error(index, record_names(batch), start(batch));
}

/// Whether a declaration is a record whose fields have no names.
pub open spec fn is_positional(declaration: DeclarationView) -> bool {
    declaration matches DeclarationView::Record { fields: None, .. }
}

/// Where every record of the project has named fields, generation succeeds
/// for every schema.
pub proof fn law_named_fields_succeed(records: Seq<RecordShape>, index: ProjectIndexView)
    requires
        forall|k: int|
            0 <= k < definitions(index).len() ==> !is_positional(#[trigger] definitions(index)[k]),
    ensures
        generated(records, index) is Ok,
{
    law_error_names_definition(records, index);
    if let Err(ErrorView::UnsupportedFields { record }) = generated(records, index) {
        lemma_resolution_member(index, record);
        let found = DeclarationView::Record { name: record, fields: None };
        let k = choose|k: int| 0 <= k < definitions(index).len() && definitions(index)[k] == found;
        assert(is_positional(definitions(index)[k]));
    }
}

/// A step never takes an identifier out of the visited ones.
pub proof fn law_visited_grows(
    index: ProjectIndexView,
    batch: Seq<Seq<char>>,
    st: Expansion,
    identifier: Seq<char>,
)
    requires
        st.pending.len() > 0,
        st.visited.contains(identifier),
    ensures
        step(index, batch, st) matches Ok(next) ==> next.visited.contains(identifier),
{
    lemma_seq_contains_after_push(st.visited, st.pending[0], identifier);
}

} // verus!
