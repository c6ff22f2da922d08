//! What the statements about notes, and those about vectors, do to a room's database.
use vstd::prelude::*;

use crate::db::{ParamView, StatementView};
use crate::embed::{
    creating, discarded, dropping, incompatible, noting, saving, table_statements, Embeddable,
    Memories, META_UPSERT,
};
use crate::memory::{deleting, discarding, storing, FORGET, STORE};

verus! {

// ---------------------------------------------------------------------------------------------
// Vectors
// ---------------------------------------------------------------------------------------------

/// What a database holds of the vectors of a table: the model that they belong to and their length,
/// where that was noted, and the rows that have one.
#[verifier::ext_equal]
pub struct VectorsView {
    pub model: Option<(Seq<char>, i64)>,
    pub embedded: Set<i64>,
}

/// What is read of the model that vectors belong to.
pub open spec fn noted(current: Option<(String, i64)>) -> Option<(Seq<char>, i64)> {
    match current {
        Some((model, dimensions)) => Some((model@, dimensions)),
        None => None,
    }
}

/// The vectors of a table after a statement. The one that keeps a vector has the row bound first.
pub open spec fn vectors_after<E: Embeddable>(before: VectorsView, s: StatementView) -> VectorsView {
    if s == dropping::<E>() {
        VectorsView { embedded: Set::empty(), ..before }
    } else if s.sql == META_UPSERT@ && s.params.len() == 3 && s.params[0] == ParamView::Text(
        E::TABLE@,
    ) {
        VectorsView { model: Some((s.params[1]->Text_0, s.params[2]->Int_0)), ..before }
    } else if s.sql == saving::<E>().sql && s.params.len() == 2 && s.params[0] is Int {
        VectorsView { embedded: before.embedded.insert(s.params[0]->Int_0), ..before }
    } else if s.params.len() == 1 && s.params[0] is Int && s == discarded::<E>(s.params[0]->Int_0) {
        VectorsView { embedded: before.embedded.remove(s.params[0]->Int_0), ..before }
    } else {
        before
    }
}

/// The vectors of a table after statements, one after the other.
pub open spec fn vectors_through<E: Embeddable>(
    before: VectorsView,
    statements: Seq<StatementView>,
) -> VectorsView
    decreases statements.len(),
{
    if statements.len() == 0 {
        before
    } else {
        vectors_after::<E>(
            vectors_through::<E>(before, statements.drop_last()),
            statements.last(),
        )
    }
}

/// What the statements that make a table of vectors ready do, one by one.
proof fn lemma_made_ready<E: Embeddable>(before: VectorsView, model: Seq<char>, dimensions: i64)
    ensures
        vectors_after::<E>(before, dropping::<E>()) == (VectorsView {
            embedded: Set::empty(),
            ..before
        }),
        vectors_after::<E>(before, creating::<E>(dimensions)) == before,
        vectors_after::<E>(before, noting::<E>(model, dimensions)) == (VectorsView {
            model: Some((model, dimensions)),
            ..before
        }),
{
    reveal_strlit("DROP TABLE IF EXISTS ");
    reveal_strlit("CREATE VIRTUAL TABLE IF NOT EXISTS ");
    assert(dropping::<E>().sql[0] == 'D');
    assert(creating::<E>(dimensions).sql[0] == 'C');
    let s = noting::<E>(model, dimensions);
    assert(s.params[0] == ParamView::Text(E::TABLE@));
    assert(s.params[1] == ParamView::Text(model));
    assert(s.params[2] == ParamView::Int(dimensions));
}

/// When a table of vectors is made ready for a model, the vectors of another model or another length
/// are discarded, every one of them, and those that fit are kept, every one of them. Either way the
/// table belongs to the model from then on.
pub proof fn law_vectors_of_another_model_are_discarded<E: Embeddable>(
    before: VectorsView,
    current: Option<(String, i64)>,
    model: Seq<char>,
    dimensions: i64,
)
    requires
        noted(current) == before.model,
    ensures
        ({
            let after = vectors_through::<E>(
                before,
                table_statements::<E>(current, model, dimensions),
            );
            &&& after.model == Some((model, dimensions))
            &&& incompatible(current, model, dimensions) ==> after.embedded == Set::<i64>::empty()
            &&& !incompatible(current, model, dimensions) ==> after.embedded == before.embedded
        }),
{
    let all = table_statements::<E>(current, model, dimensions);
    let made = all.drop_last();
    let dropped = made.drop_last();
    assert(all.last() == noting::<E>(model, dimensions));
    assert(made.last() == creating::<E>(dimensions));
    let a = vectors_through::<E>(before, dropped);
    let b = vectors_through::<E>(before, made);
    lemma_made_ready::<E>(before, model, dimensions);
    lemma_made_ready::<E>(a, model, dimensions);
    lemma_made_ready::<E>(b, model, dimensions);
    if incompatible(current, model, dimensions) {
        assert(dropped.last() == dropping::<E>());
        assert(dropped.drop_last() =~= Seq::empty());
        assert(vectors_through::<E>(before, dropped.drop_last()) == before);
    } else {
        assert(dropped =~= Seq::empty());
    }
}

/// A table that was made ready for one model and is then made ready for a model, the same or another:
/// whatever was kept or discarded in between, all vectors are left where model and length are the
/// same, and none where they are not.
pub proof fn law_a_table_keeps_to_its_model<E: Embeddable>(
    before: VectorsView,
    current: Option<(String, i64)>,
    first: (String, i64),
    later: VectorsView,
    model: Seq<char>,
    dimensions: i64,
)
    requires
        noted(current) == before.model,
        later.model == vectors_through::<E>(
            before,
            table_statements::<E>(current, first.0@, first.1),
        ).model,
    ensures
        ({
            let after = vectors_through::<E>(
                later,
                table_statements::<E>(Some(first), model, dimensions),
            );
            &&& (model, dimensions) != (first.0@, first.1) ==> after.embedded == Set::<i64>::empty()
            &&& (model, dimensions) == (first.0@, first.1) ==> after.embedded == later.embedded
            &&& after.model == Some((model, dimensions))
        }),
{
    law_vectors_of_another_model_are_discarded::<E>(before, current, first.0@, first.1);
    law_vectors_of_another_model_are_discarded::<E>(later, Some(first), model, dimensions);
}

/// Keeping or discarding the vector of a row changes that of no other row, nor the model.
pub proof fn law_vectors_are_kept_row_by_row<E: Embeddable>(
    before: VectorsView,
    row: i64,
    vector: ParamView,
    other: i64,
)
    requires
        other != row,
    ensures
        ({
            let params = Seq::empty().push(ParamView::Int(row)).push(vector);
            let kept = vectors_after::<E>(before, StatementView { params, ..saving::<E>() });
            let gone = vectors_after::<E>(before, discarded::<E>(row));
            &&& kept.embedded.contains(row)
            &&& !gone.embedded.contains(row)
            &&& kept.embedded.contains(other) == before.embedded.contains(other)
            &&& gone.embedded.contains(other) == before.embedded.contains(other)
            &&& kept.model == before.model
            &&& gone.model == before.model
        }),
{
    lemma_discards_one::<E>(before, row);
    let params = Seq::empty().push(ParamView::Int(row)).push(vector);
    assert(params.len() == 2 && params[0] == ParamView::Int(row));
}

/// What discards the vector of a row does that and nothing else.
proof fn lemma_discards_one<E: Embeddable>(before: VectorsView, row: i64)
    ensures
        vectors_after::<E>(before, discarded::<E>(row)) == (VectorsView {
            embedded: before.embedded.remove(row),
            ..before
        }),
{
    let s = discarded::<E>(row);
    assert(s.params.len() == 1 && s.params[0] == ParamView::Int(row));
    assert(dropping::<E>().params.len() == 0);
}

// ---------------------------------------------------------------------------------------------
// Notes
// ---------------------------------------------------------------------------------------------

/// A note as a database keeps it.
#[verifier::ext_equal]
pub struct NoteView {
    pub row: i64,
    pub id: Seq<char>,
    pub content: Seq<char>,
    pub category: Seq<char>,
    pub room_id: Option<Seq<char>>,
    pub created_at: Seq<char>,
    pub updated_at: Seq<char>,
}

/// What a database holds of notes: the notes under their keys, and their vectors.
#[verifier::ext_equal]
pub struct NotesView {
    pub notes: Map<Seq<char>, NoteView>,
    pub vectors: VectorsView,
}

impl NotesView {
    /// Whether a row holds a note.
    pub open spec fn used(self, row: i64) -> bool {
        exists|key: Seq<char>| #[trigger]
            self.notes.dom().contains(key) && self.notes[key].row == row
    }

    /// Whether there are finitely many notes, no row holds two of them, and no vector is left of a
    /// row without a note.
    pub open spec fn well_formed(self) -> bool {
        &&& self.notes.dom().finite()
        &&& forall|a: Seq<char>, b: Seq<char>| #[trigger]
            self.notes.dom().contains(a) && #[trigger] self.notes.dom().contains(b)
                && self.notes[a].row == self.notes[b].row ==> a == b
        &&& forall|row: i64| #[trigger] self.vectors.embedded.contains(row) ==> self.used(row)
    }

    /// The row of a note.
    pub open spec fn row_of(self, key: Seq<char>) -> Option<i64> {
        if self.notes.dom().contains(key) {
            Some(self.notes[key].row)
        } else {
            None
        }
    }

    /// Whether there is such a note and it waits to be embedded.
    pub open spec fn pending(self, key: Seq<char>) -> bool {
        self.notes.dom().contains(key) && !self.vectors.embedded.contains(self.notes[key].row)
    }
}

/// A bound text.
pub open spec fn bound_text(p: ParamView) -> Option<Seq<char>> {
    match p {
        ParamView::Text(t) => Some(t),
        _ => None,
    }
}

/// The note that a statement writes, at a row.
pub open spec fn written(params: Seq<ParamView>, row: i64) -> NoteView {
    NoteView {
        row,
        id: bound_text(params[0])->0,
        content: bound_text(params[2])->0,
        category: bound_text(params[3])->0,
        room_id: bound_text(params[4]),
        created_at: bound_text(params[5])->0,
        updated_at: bound_text(params[5])->0,
    }
}

/// A note revised by the one that a statement writes: of the earlier one its row, its id, its room
/// and when it was created are kept.
pub open spec fn revised(earlier: NoteView, later: NoteView) -> NoteView {
    NoteView {
        content: later.content,
        category: later.category,
        updated_at: later.updated_at,
        ..earlier
    }
}

/// What a database may hold after a statement about notes. Which row a new note gets is the
/// database's choice among those that are free.
pub open spec fn effect(before: NotesView, s: StatementView, after: NotesView) -> bool {
    if s.sql == STORE@ && s.params.len() == 6 {
        let key = bound_text(s.params[1])->0;
        if before.notes.dom().contains(key) {
            let earlier = before.notes[key];
            after == (NotesView {
                notes: before.notes.insert(key, revised(earlier, written(s.params, earlier.row))),
                ..before
            })
        } else {
            exists|row: i64| !#[trigger] before.used(row) && after == (NotesView {
                notes: before.notes.insert(key, written(s.params, row)),
                ..before
            })
        }
    } else if s.sql == FORGET@ && s.params.len() == 1 && s.params[0] is Text {
        after == (NotesView {
            notes: before.notes.remove(bound_text(s.params[0])->0),
            ..before
        })
    } else {
        after == (NotesView { vectors: vectors_after::<Memories>(before.vectors, s), ..before })
    }
}

/// What a database may hold after statements about notes, one after the other.
pub open spec fn carried_out(
    before: NotesView,
    statements: Seq<StatementView>,
    after: NotesView,
) -> bool
    decreases statements.len(),
{
    if statements.len() == 0 {
        after == before
    } else {
        exists|between: NotesView|
            carried_out(before, statements.drop_last(), between) && #[trigger] effect(
                between,
                statements.last(),
                after,
            )
    }
}

/// How many rows the deletion of a note changes.
pub open spec fn deleted_rows(before: NotesView, key: Seq<char>) -> nat {
    if before.notes.dom().contains(key) {
        1
    } else {
        0
    }
}

/// What the statements before the last of a forgotten note, or after a stored one, do.
proof fn lemma_discarding(before: NotesView, row: Option<i64>, after: NotesView)
    requires
        carried_out(before, discarding(row), after),
    ensures
        match row {
            Some(row) => after == (NotesView {
                vectors: VectorsView {
                    embedded: before.vectors.embedded.remove(row),
                    ..before.vectors
                },
                ..before
            }),
            None => after == before,
        },
{
    reveal_with_fuel(carried_out, 2);
    match row {
        Some(row) => {
            let s = discarded::<Memories>(row);
            lemma_discards_one::<Memories>(before.vectors, row);
            assert(discarding(Some(row)).drop_last() =~= Seq::empty());
            assert(discarding(Some(row)).last() == s);
            assert(s.params[0] == ParamView::Int(row));
        },
        None => {},
    }
}

/// A note that is written again stays one note, and a note that is new becomes one more: of an
/// earlier one the row, the id, the room and when it was created are kept, its text, its category
/// and when it was updated are the new ones, and it waits to be embedded anew. Nothing happens to
/// other notes, nor to their vectors.
pub proof fn law_a_stored_note_waits_to_be_embedded(
    before: NotesView,
    id: Seq<char>,
    key: Seq<char>,
    content: Seq<char>,
    category: Seq<char>,
    room_id: Option<Seq<char>>,
    now: Seq<char>,
    between: NotesView,
    after: NotesView,
    other: Seq<char>,
)
    requires
        before.well_formed(),
        effect(before, storing(id, key, content, category, room_id, now), between),
        carried_out(between, discarding(between.row_of(key)), after),
        other != key,
    ensures
        after.well_formed(),
        after.pending(key),
        after.notes[key].content == content,
        after.notes[key].category == category,
        after.notes[key].updated_at == now,
        before.notes.dom().contains(key) ==> {
            &&& after.notes.dom() == before.notes.dom()
            &&& after.notes.len() == before.notes.len()
            &&& after.notes[key].row == before.notes[key].row
            &&& after.notes[key].id == before.notes[key].id
            &&& after.notes[key].room_id == before.notes[key].room_id
            &&& after.notes[key].created_at == before.notes[key].created_at
        },
        !before.notes.dom().contains(key) ==> {
            &&& after.notes.dom() == before.notes.dom().insert(key)
            &&& after.notes.len() == before.notes.len() + 1
            &&& after.notes[key].id == id
            &&& after.notes[key].room_id == room_id
            &&& after.notes[key].created_at == now
        },
        after.notes.dom().contains(other) == before.notes.dom().contains(other),
        before.notes.dom().contains(other) ==> after.notes[other] == before.notes[other],
        after.pending(other) == before.pending(other),
{
    let s = storing(id, key, content, category, room_id, now);
    assert(s.params[0] == ParamView::Text(id));
    assert(s.params[1] == ParamView::Text(key));
    assert(s.params[2] == ParamView::Text(content));
    assert(s.params[3] == ParamView::Text(category));
    assert(bound_text(s.params[4]) == room_id);
    assert(s.params[5] == ParamView::Text(now));
    lemma_discarding(between, between.row_of(key), after);
    let row = between.notes[key].row;
    if before.notes.dom().contains(key) {
        assert(between.notes.dom() =~= before.notes.dom());
    } else {
        assert(!before.used(row));
        assert(between.notes.dom() =~= before.notes.dom().insert(key));
    }
    assert forall|r: i64| #[trigger] after.vectors.embedded.contains(r) implies after.used(r) by {
        assert(before.vectors.embedded.contains(r));
        let k = choose|k: Seq<char>| #[trigger]
            before.notes.dom().contains(k) && before.notes[k].row == r;
        assert(after.notes.dom().contains(k));
    }
}

/// A forgotten note is gone and so is its vector, and nothing else is. The deletion changes a row
/// exactly where there was such a note, and to forget the note once more finds nothing.
pub proof fn law_a_forgotten_note_takes_its_vector_with_it(
    before: NotesView,
    key: Seq<char>,
    after: NotesView,
)
    requires
        before.well_formed(),
        carried_out(before, discarding(before.row_of(key)).push(deleting(key)), after),
    ensures
        forall|between: NotesView| #[trigger]
            carried_out(before, discarding(before.row_of(key)), between) ==> deleted_rows(
                between,
                key,
            ) == deleted_rows(before, key),
        after.well_formed(),
        after.notes == before.notes.remove(key),
        before.notes.dom().contains(key) ==> after.vectors.embedded == before.vectors.embedded.remove(
            before.notes[key].row,
        ),
        !before.notes.dom().contains(key) ==> after == before,
        forall|other: Seq<char>|
            other != key ==> #[trigger] after.pending(other) == before.pending(other),
        deleted_rows(after, key) == 0,
        effect(after, deleting(key), after),
{
    reveal_with_fuel(carried_out, 2);
    let discards = discarding(before.row_of(key));
    let both = discards.push(deleting(key));
    assert(both.drop_last() =~= discards);
    assert(both.last() == deleting(key));
    assert forall|between: NotesView| #[trigger]
        carried_out(before, discards, between) implies deleted_rows(between, key) == deleted_rows(
        before,
        key,
    ) by {
        lemma_discarding(before, before.row_of(key), between);
    }
    let between = choose|between: NotesView|
        carried_out(before, discards, between) && #[trigger] effect(between, deleting(key), after);
    lemma_discarding(before, before.row_of(key), between);
    assert(deleting(key).params[0] == ParamView::Text(key));
    assert(after.notes =~= before.notes.remove(key));
    assert(after.notes.remove(key) =~= after.notes);
    if !before.notes.dom().contains(key) {
        assert(after.notes =~= before.notes);
    }
    assert forall|r: i64| #[trigger] after.vectors.embedded.contains(r) implies after.used(r) by {
        assert(before.vectors.embedded.contains(r));
        let k = choose|k: Seq<char>| #[trigger]
            before.notes.dom().contains(k) && before.notes[k].row == r;
        assert(k != key);
        assert(after.notes.dom().contains(k));
    }
}

/// A note that is new waits to be embedded as soon as it is written: the row that it gets has no
/// vector, though an earlier note may have had that row.
pub proof fn law_a_row_used_again_inherits_no_vector(
    before: NotesView,
    id: Seq<char>,
    key: Seq<char>,
    content: Seq<char>,
    category: Seq<char>,
    room_id: Option<Seq<char>>,
    now: Seq<char>,
    after: NotesView,
)
    requires
        before.well_formed(),
        !before.notes.dom().contains(key),
        effect(before, storing(id, key, content, category, room_id, now), after),
    ensures
        after.pending(key),
{
    assert(storing(id, key, content, category, room_id, now).params[1] == ParamView::Text(key));
}

/// When the vectors of the notes are made ready for a model, the notes stay as they are. Where the
/// vectors belong to another model or have another length, every note waits to be embedded anew; where
/// they fit, no note waits that did not wait before.
pub proof fn law_another_model_embeds_every_note_anew(
    before: NotesView,
    current: Option<(String, i64)>,
    model: Seq<char>,
    dimensions: i64,
    after: NotesView,
    key: Seq<char>,
)
    requires
        noted(current) == before.vectors.model,
        carried_out(before, table_statements::<Memories>(current, model, dimensions), after),
        before.notes.dom().contains(key),
    ensures
        after.notes == before.notes,
        after.vectors.model == Some((model, dimensions)),
        before.well_formed() ==> after.well_formed(),
        incompatible(current, model, dimensions) ==> after.pending(key),
        !incompatible(current, model, dimensions) ==> after.pending(key) == before.pending(key),
{
    let all = table_statements::<Memories>(current, model, dimensions);
    assert forall|i: int| 0 <= i < all.len() implies touches_no_note(#[trigger] all[i]) by {
    }
    lemma_notes_untouched(before, all, after);
    law_vectors_of_another_model_are_discarded::<Memories>(
        before.vectors,
        current,
        model,
        dimensions,
    );
    assert forall|r: i64| #[trigger]
        after.vectors.embedded.contains(r) && before.well_formed() implies after.used(r) by {
        assert(before.vectors.embedded.contains(r));
        let k = choose|k: Seq<char>| #[trigger]
            before.notes.dom().contains(k) && before.notes[k].row == r;
        assert(after.notes.dom().contains(k));
    }
}

/// Whether a statement is none of those that write or delete notes.
pub open spec fn touches_no_note(s: StatementView) -> bool {
    s.params.len() != 6 && !(s.params.len() == 1 && s.params[0] is Text)
}

/// Statements about vectors leave the notes alone.
proof fn lemma_notes_untouched(before: NotesView, statements: Seq<StatementView>, after: NotesView)
    requires
        carried_out(before, statements, after),
        forall|i: int| 0 <= i < statements.len() ==> touches_no_note(#[trigger] statements[i]),
    ensures
        after.notes == before.notes,
        after.vectors == vectors_through::<Memories>(before.vectors, statements),
    decreases statements.len(),
{
    if statements.len() > 0 {
        let earlier = statements.drop_last();
        let between = choose|between: NotesView|
            carried_out(before, earlier, between) && #[trigger] effect(
                between,
                statements.last(),
                after,
            );
        assert forall|i: int| 0 <= i < earlier.len() implies touches_no_note(
            #[trigger] earlier[i],
        ) by {
            assert(earlier[i] == statements[i]);
        }
        lemma_notes_untouched(before, earlier, between);
        assert(touches_no_note(statements[statements.len() - 1]));
    }
}

} // verus!
