use vstd::prelude::*;
use crate::catalog::{
    contains_id, key_list, attribute_refs, lemma_all_in_grow, lemma_included_push, option_refs, attribute_ids, distinct, ids_distinct, keys, position_of, option_ids, option_rows, Catalog, OptionRowView};
use crate::error::{StorageFailure, TransactionFailure};
use crate::model::{Attribute, AttributeOptionRow, Timestamp, Uuid};

verus! {

/// An option sent with an update: with an id it is upserted, without one it is new.
#[derive(Clone, Debug)]
pub struct AttributeOption {
    pub id: Option<Uuid>,
    pub value: String,
}

/// A request to rename an attribute and merge a list of options into it.
#[derive(Clone, Debug)]
pub struct UpdateAttributeUsecase {
    pub id: Uuid,
    pub name: String,
    pub attribute_options: Vec<AttributeOption>,
}

pub type UpdateAttributePayload = UpdateAttributeUsecase;

#[derive(Clone, Copy, Debug, PartialEq, Eq, Structural)]
pub enum UpdateAttributeError {
    InternalServerError(TransactionFailure),
}

/// The option ids of rows.
pub open spec fn row_ids(s: Seq<OptionRowView>) -> Seq<Uuid> {
    s.map_values(|o: OptionRowView| o.id)
}

pub open spec fn has_option(table: Seq<OptionRowView>, id: Uuid) -> bool {
    exists|j: int| 0 <= j < table.len() && table[j].id == id
}

pub open spec fn option_position(table: Seq<OptionRowView>, id: Uuid) -> int {
    choose|j: int| 0 <= j < table.len() && table[j].id == id
}

/// Insert-or-update by id: a row with the same id takes the new value and
/// keeps its attribute; else the row is added.
pub open spec fn upsert_option(table: Seq<OptionRowView>, o: OptionRowView) -> Seq<OptionRowView> {
    if has_option(table, o.id) {
        let j = option_position(table, o.id);
        table.update(j, OptionRowView { value: o.value, ..table[j] })
    } else {
        table.push(o)
    }
}

/// Upserts a batch of rows, in order.
pub open spec fn upsert_options(table: Seq<OptionRowView>, batch: Seq<OptionRowView>) -> Seq<OptionRowView>
    decreases batch.len(),
{
    if batch.len() == 0 {
        table
    } else {
        upsert_option(upsert_options(table, batch.drop_last()), batch.last())
    }
}

/// The option rows of a request: the given id, or else `fresh[i]`, with
/// the given value, under the attribute being updated.
pub open spec fn planned_upserts(u: UpdateAttributeUsecase, fresh: Seq<Uuid>) -> Seq<OptionRowView> {
    Seq::new(
        u.attribute_options@.len(),
        |i: int| OptionRowView {
            id: match u.attribute_options@[i].id {
                Some(id) => id,
                None => fresh[i],
            },
            value: u.attribute_options@[i].value@,
            attribute_id: u.id,
        },
    )
}

/// Why the update fails, if it does: the attribute is missing, or one
/// statement would write the same option id twice, or an id given to an
/// option sent without one is already stored (a new option needs a new id).
pub open spec fn update_failure(db: Catalog, u: UpdateAttributeUsecase, fresh: Seq<Uuid>) -> Option<StorageFailure> {
    if !attribute_ids(db.attributes@).contains(u.id) {
        Some(StorageFailure::RecordNotUpdated)
    } else if !distinct(row_ids(planned_upserts(u, fresh))) || fresh_id_taken(db, u, fresh) {
        Some(StorageFailure::DuplicateKey)
    } else {
        None
    }
}

/// Some option sent without an id was given a `fresh` id that is already stored.
pub open spec fn fresh_id_taken(db: Catalog, u: UpdateAttributeUsecase, fresh: Seq<Uuid>) -> bool {
    exists|i: int|
        0 <= i < u.attribute_options@.len() && (#[trigger] u.attribute_options@[i]).id is None
            && option_ids(db.attribute_options@).contains(fresh[i])
}

/// Whether some option sent without an id was given a stored id.
fn any_fresh_taken(options: &Vec<AttributeOption>, fresh: &Vec<Uuid>, taken: &Vec<Uuid>) -> (r: bool)
    requires
        fresh@.len() == options@.len(),
    ensures
        r == exists|i: int|
            0 <= i < options@.len() && (#[trigger] options@[i]).id is None && taken@.contains(fresh@[i]),
{
    let mut i: usize = 0;
    while i < options.len()
        invariant
            fresh@.len() == options@.len(),
            i <= options@.len(),
            forall|j: int| 0 <= j < i ==> !((#[trigger] options@[j]).id is None && taken@.contains(fresh@[j])),
        decreases options@.len() - i,
    {
        if options[i].id.is_none() && contains_id(taken, fresh[i]) {
            return true;
        }
        i += 1;
    }
    false
}

/// Whether some entry of the batch has this id.
pub open spec fn in_batch(batch: Seq<OptionRowView>, id: Uuid) -> bool {
    exists|i: int| 0 <= i < batch.len() && (#[trigger] batch[i]).id == id
}

/// How many entries of the batch have an id that the table lacks.
pub open spec fn new_entries(table: Seq<OptionRowView>, batch: Seq<OptionRowView>) -> nat
    decreases batch.len(),
{
    if batch.len() == 0 {
        0
    } else {
        new_entries(table, batch.drop_last()) + if has_option(table, batch.last().id) {
            0nat
        } else {
            1nat
        }
    }
}

/// What an upsert of a batch without repeated ids keeps and adds: the
/// stored rows stay in place with their ids and attributes, a stored row
/// whose id is not in the batch is unchanged, the ids afterwards are those
/// stored or submitted, and one row is added per entry with a new id.
pub proof fn lemma_upsert_frame(table: Seq<OptionRowView>, batch: Seq<OptionRowView>)
    requires
        distinct(row_ids(table)),
        distinct(row_ids(batch)),
    ensures
        upsert_options(table, batch).len() == table.len() + new_entries(table, batch),
        forall|j: int| 0 <= j < table.len() ==> (#[trigger] upsert_options(table, batch)[j]).id == table[j].id
            && upsert_options(table, batch)[j].attribute_id == table[j].attribute_id,
        forall|j: int| 0 <= j < table.len() && !in_batch(batch, table[j].id)
            ==> #[trigger] upsert_options(table, batch)[j] == table[j],
        forall|x: Uuid| #[trigger] has_option(upsert_options(table, batch), x) <==> (has_option(table, x) || in_batch(batch, x)),
    decreases batch.len(),
{
    let after = upsert_options(table, batch);
    if batch.len() == 0 {
        assert forall|x: Uuid| #[trigger] has_option(after, x) <==> (has_option(table, x) || in_batch(batch, x)) by {}
    } else {
        let prev = batch.drop_last();
        let o = batch.last();
        assert(distinct(row_ids(prev))) by {
            assert forall|a: int, b: int| 0 <= a < b < row_ids(prev).len() implies row_ids(prev)[a] != row_ids(prev)[b] by {
                assert(row_ids(prev)[a] == row_ids(batch)[a]);
                assert(row_ids(prev)[b] == row_ids(batch)[b]);
            }
        }
        lemma_upsert_frame(table, prev);
        let before = upsert_options(table, prev);
        lemma_upserts_keep_ids_distinct(table, prev);
        assert(!in_batch(prev, o.id)) by {
            if in_batch(prev, o.id) {
                let w = choose|w: int| 0 <= w < prev.len() && (#[trigger] prev[w]).id == o.id;
                assert(row_ids(batch)[w] == row_ids(batch)[batch.len() - 1]);
            }
        }
        assert(has_option(before, o.id) <==> has_option(table, o.id));
        assert forall|x: Uuid| in_batch(batch, x) <==> (in_batch(prev, x) || x == o.id) by {
            if in_batch(batch, x) {
                let w = choose|w: int| 0 <= w < batch.len() && (#[trigger] batch[w]).id == x;
                if w < prev.len() {
                    assert(prev[w] == batch[w]);
                }
            }
            if in_batch(prev, x) {
                let w = choose|w: int| 0 <= w < prev.len() && (#[trigger] prev[w]).id == x;
                assert(batch[w] == prev[w]);
            }
            if x == o.id {
                assert(batch[batch.len() - 1].id == x);
            }
        }
        if has_option(before, o.id) {
            let p = option_position(before, o.id);
            assert(after == before.update(p, OptionRowView { value: o.value, ..before[p] }));
            assert forall|j: int| 0 <= j < table.len() && !in_batch(batch, table[j].id)
                implies #[trigger] after[j] == table[j] by {
                assert(before[j].id == table[j].id);
                assert(j != p);
            }
            assert forall|x: Uuid| #[trigger] has_option(after, x) <==> (has_option(table, x) || in_batch(batch, x)) by {
                if has_option(after, x) {
                    let w = choose|w: int| 0 <= w < after.len() && after[w].id == x;
                    assert(before[w].id == x);
                }
                if has_option(before, x) {
                    let w = choose|w: int| 0 <= w < before.len() && before[w].id == x;
                    assert(after[w].id == x);
                }
            }
        } else {
            assert(after == before.push(o));
            assert(after[before.len() as int].id == o.id);
            assert forall|x: Uuid| #[trigger] has_option(after, x) <==> (has_option(table, x) || in_batch(batch, x)) by {
                if has_option(after, x) {
                    let w = choose|w: int| 0 <= w < after.len() && after[w].id == x;
                    if w < before.len() {
                        assert(before[w].id == x);
                    }
                }
                if has_option(before, x) {
                    let w = choose|w: int| 0 <= w < before.len() && before[w].id == x;
                    assert(after[w].id == x);
                }
            }
        }
    }
}

/// What an accepted update does to the options (with `invoke`'s contract,
/// the stored options become `upsert_options(table, batch)`): every option
/// sent without an id is new, stored options keep their place, id and
/// attribute and are unchanged unless their id was submitted, and one row is
/// added per entry with a new id.
pub proof fn lemma_update_options(db: Catalog, u: UpdateAttributeUsecase, fresh: Seq<Uuid>)
    requires
        db.wf(),
        fresh.len() == u.attribute_options@.len(),
        update_failure(db, u, fresh) is None,
    ensures
        forall|i: int| 0 <= i < u.attribute_options@.len() && (#[trigger] u.attribute_options@[i]).id is None
            ==> !has_option(option_rows(db.attribute_options@), planned_upserts(u, fresh)[i].id),
        upsert_options(option_rows(db.attribute_options@), planned_upserts(u, fresh)).len()
            == db.attribute_options@.len() + new_entries(option_rows(db.attribute_options@), planned_upserts(u, fresh)),
        forall|j: int| 0 <= j < db.attribute_options@.len() && !in_batch(planned_upserts(u, fresh), db.attribute_options@[j].id)
            ==> #[trigger] upsert_options(option_rows(db.attribute_options@), planned_upserts(u, fresh))[j]
                == db.attribute_options@[j]@,
        forall|j: int| 0 <= j < db.attribute_options@.len()
            ==> (#[trigger] upsert_options(option_rows(db.attribute_options@), planned_upserts(u, fresh))[j]).id
                == db.attribute_options@[j].id
            && upsert_options(option_rows(db.attribute_options@), planned_upserts(u, fresh))[j].attribute_id
                == db.attribute_options@[j].attribute_id,
{
    let table = option_rows(db.attribute_options@);
    let batch = planned_upserts(u, fresh);
    lemma_option_ids_are_row_ids(db.attribute_options@);
    lemma_upsert_frame(table, batch);
    assert forall|i: int| 0 <= i < u.attribute_options@.len() && (#[trigger] u.attribute_options@[i]).id is None
        implies !has_option(table, batch[i].id) by {
        assert(batch[i].id == fresh[i]);
        assert(!option_ids(db.attribute_options@).contains(fresh[i]));
        if has_option(table, fresh[i]) {
            let w = choose|w: int| 0 <= w < table.len() && table[w].id == fresh[i];
            assert(option_ids(db.attribute_options@)[w] == fresh[i]);
        }
    }
    assert forall|j: int| 0 <= j < db.attribute_options@.len() && !in_batch(batch, db.attribute_options@[j].id)
        implies #[trigger] upsert_options(table, batch)[j] == db.attribute_options@[j]@ by {
        assert(table[j] == db.attribute_options@[j]@);
    }
}

pub proof fn lemma_upsert_keeps_ids_distinct(table: Seq<OptionRowView>, o: OptionRowView)
    requires
        distinct(row_ids(table)),
    ensures
        distinct(row_ids(upsert_option(table, o))),
        has_option(upsert_option(table, o), o.id),
        forall|id: Uuid| has_option(table, id) ==> has_option(upsert_option(table, o), id),
{
    let t2 = upsert_option(table, o);
    if has_option(table, o.id) {
        let j = option_position(table, o.id);
        assert(t2[j].id == o.id);
        assert forall|a: int, b: int| 0 <= a < b < row_ids(t2).len() implies row_ids(t2)[a] != row_ids(t2)[b] by {
            assert(row_ids(t2)[a] == row_ids(table)[a]);
            assert(row_ids(t2)[b] == row_ids(table)[b]);
        }
        assert forall|id: Uuid| has_option(table, id) implies has_option(t2, id) by {
            let w = choose|w: int| 0 <= w < table.len() && table[w].id == id;
            assert(t2[w].id == id);
        }
    } else {
        assert(t2[table.len() as int].id == o.id);
        assert forall|a: int, b: int| 0 <= a < b < row_ids(t2).len() implies row_ids(t2)[a] != row_ids(t2)[b] by {
            if b == table.len() {
                assert(row_ids(t2)[a] == table[a].id);
            } else {
                assert(row_ids(t2)[a] == row_ids(table)[a]);
                assert(row_ids(t2)[b] == row_ids(table)[b]);
            }
        }
        assert forall|id: Uuid| has_option(table, id) implies has_option(t2, id) by {
            let w = choose|w: int| 0 <= w < table.len() && table[w].id == id;
            assert(t2[w].id == id);
        }
    }
}

pub proof fn lemma_upserts_keep_ids_distinct(table: Seq<OptionRowView>, batch: Seq<OptionRowView>)
    requires
        distinct(row_ids(table)),
    ensures
        distinct(row_ids(upsert_options(table, batch))),
    decreases batch.len(),
{
    if batch.len() > 0 {
        lemma_upserts_keep_ids_distinct(table, batch.drop_last());
        lemma_upsert_keeps_ids_distinct(upsert_options(table, batch.drop_last()), batch.last());
    }
}

/// After upserting a batch whose ids are distinct, the row with the id of
/// the batch's `i`-th entry holds that entry's value.
pub proof fn lemma_upsert_latest_value(table: Seq<OptionRowView>, batch: Seq<OptionRowView>, i: int)
    requires
        distinct(row_ids(table)),
        distinct(row_ids(batch)),
        0 <= i < batch.len(),
    ensures
        exists|j: int|
            0 <= j < upsert_options(table, batch).len() && upsert_options(table, batch)[j].id == batch[i].id
                && #[trigger] upsert_options(table, batch)[j].value == batch[i].value,
    decreases batch.len(),
{
    let prev = batch.drop_last();
    let before = upsert_options(table, prev);
    let after = upsert_options(table, batch);
    lemma_upserts_keep_ids_distinct(table, prev);
    let o = batch.last();
    if i == batch.len() - 1 {
        if has_option(before, o.id) {
            let j = option_position(before, o.id);
            assert(after[j].id == o.id && after[j].value == o.value);
        } else {
            assert(after[before.len() as int].id == o.id && after[before.len() as int].value == o.value);
        }
    } else {
        assert(distinct(row_ids(prev))) by {
            assert forall|a: int, b: int| 0 <= a < b < row_ids(prev).len() implies row_ids(prev)[a] != row_ids(prev)[b] by {
                assert(row_ids(prev)[a] == row_ids(batch)[a]);
                assert(row_ids(prev)[b] == row_ids(batch)[b]);
            }
        }
        assert(prev[i] == batch[i]);
        lemma_upsert_latest_value(table, prev, i);
        let j = choose|j: int| 0 <= j < before.len() && before[j].id == prev[i].id && #[trigger] before[j].value == prev[i].value;
        assert(row_ids(batch)[i] != row_ids(batch)[batch.len() - 1]);
        assert(o.id != batch[i].id);
        if has_option(before, o.id) {
            let k = option_position(before, o.id);
            assert(k != j);
            assert(after[j] == before[j]);
        } else {
            assert(after[j] == before[j]);
        }
    }
}

/// Submitting an option id again with another value leaves one row with
/// that id, holding the value of the later submission: upserting a first
/// batch and then a second one (each without repeated ids) keeps option ids
/// unique, and exactly one row has an id of the second batch, with its value.
pub proof fn lemma_option_upsert_idempotent(
    table: Seq<OptionRowView>,
    first: Seq<OptionRowView>,
    second: Seq<OptionRowView>,
    k: int,
)
    requires
        distinct(row_ids(table)),
        distinct(row_ids(first)),
        distinct(row_ids(second)),
        0 <= k < second.len(),
    ensures
        distinct(row_ids(upsert_options(upsert_options(table, first), second))),
        exists|j: int|
            0 <= j < upsert_options(upsert_options(table, first), second).len()
                && upsert_options(upsert_options(table, first), second)[j].id == second[k].id
                && #[trigger] upsert_options(upsert_options(table, first), second)[j].value == second[k].value,
        forall|a: int, b: int|
            0 <= a < upsert_options(upsert_options(table, first), second).len()
                && 0 <= b < upsert_options(upsert_options(table, first), second).len()
                && #[trigger] upsert_options(upsert_options(table, first), second)[a].id == second[k].id
                && #[trigger] upsert_options(upsert_options(table, first), second)[b].id == second[k].id ==> a == b,
{
    lemma_upserts_keep_ids_distinct(table, first);
    lemma_upserts_keep_ids_distinct(upsert_options(table, first), second);
    lemma_upsert_latest_value(upsert_options(table, first), second, k);
    let after = upsert_options(upsert_options(table, first), second);
    assert forall|a: int, b: int|
        0 <= a < after.len() && 0 <= b < after.len() && after[a].id == second[k].id && after[b].id == second[k].id
        implies a == b by {
        if a < b {
            assert(row_ids(after)[a] != row_ids(after)[b]);
        } else if b < a {
            assert(row_ids(after)[b] != row_ids(after)[a]);
        }
    }
}

proof fn lemma_upserts_keep_options(table: Seq<OptionRowView>, batch: Seq<OptionRowView>, id: Uuid)
    requires
        distinct(row_ids(table)),
        has_option(table, id),
    ensures
        has_option(upsert_options(table, batch), id),
    decreases batch.len(),
{
    if batch.len() > 0 {
        lemma_upserts_keep_options(table, batch.drop_last(), id);
        lemma_upserts_keep_ids_distinct(table, batch.drop_last());
        lemma_upsert_keeps_ids_distinct(upsert_options(table, batch.drop_last()), batch.last());
    }
}

/// Upserting only ids that are already stored adds no row.
pub proof fn lemma_upsert_stored_keeps_count(table: Seq<OptionRowView>, batch: Seq<OptionRowView>)
    requires
        distinct(row_ids(table)),
        forall|i: int| 0 <= i < batch.len() ==> has_option(table, #[trigger] batch[i].id),
    ensures
        upsert_options(table, batch).len() == table.len(),
    decreases batch.len(),
{
    if batch.len() > 0 {
        let prev = batch.drop_last();
        assert forall|i: int| 0 <= i < prev.len() implies has_option(table, #[trigger] prev[i].id) by {
            assert(prev[i] == batch[i]);
        }
        lemma_upsert_stored_keeps_count(table, prev);
        assert(has_option(table, batch[batch.len() - 1].id));
        lemma_upserts_keep_options(table, prev, batch.last().id);
    }
}

proof fn lemma_option_ids_are_row_ids(s: Seq<AttributeOptionRow>)
    ensures
        option_ids(s) == row_ids(option_rows(s)),
{
    assert(option_ids(s) =~= row_ids(option_rows(s)));
}

impl Catalog {
    /// Inserts an option row, or, where a row has its id, sets that row's value.
    /// The option's attribute must be stored.
    pub fn upsert_option(&mut self, o: AttributeOptionRow)
        requires
            old(self).wf(),
            attribute_ids(old(self).attributes@).contains(o.attribute_id),
        ensures
            final(self).wf(),
            option_rows(final(self).attribute_options@) == upsert_option(option_rows(old(self).attribute_options@), o@),
            final(self).uoms@ == old(self).uoms@,
            final(self).categories@ == old(self).categories@,
            final(self).attributes@ == old(self).attributes@,
            final(self).product_templates@ == old(self).product_templates@,
            final(self).products@ == old(self).products@,
            final(self).product_combinations@ == old(self).product_combinations@,
    {
        let ghost table = option_rows(self.attribute_options@);
        proof {
            lemma_option_ids_are_row_ids(self.attribute_options@);
            lemma_upsert_keeps_ids_distinct(table, o@);
        }
        match position_of(&self.attribute_options, o.id) {
            Some(j) => {
                proof {
                    assert(table[j as int].id == o.id);
                    assert(has_option(table, o.id));
                    let p = option_position(table, o.id);
                    if p != j as int {
                        assert(row_ids(table)[p] == row_ids(table)[j as int]);
                    }
                }
                let attribute_id = self.attribute_options[j].attribute_id;
                let ghost before = self.attribute_options@;
                self.attribute_options.set(j, AttributeOptionRow { id: o.id, value: o.value, attribute_id });
                proof {
                    assert(attribute_refs(self.attribute_options@) =~= attribute_refs(before));
                    assert(keys(self.attribute_options@) =~= keys(before));
                    assert(option_rows(self.attribute_options@) =~= upsert_option(table, o@));
                }
            },
            None => {
                let ghost ov = o@;
                proof {
                    assert(!has_option(table, ov.id)) by {
                        if has_option(table, ov.id) {
                            let w = choose|w: int| 0 <= w < table.len() && table[w].id == ov.id;
                            assert(keys(self.attribute_options@)[w] == ov.id);
                        }
                    }
                }
                let ghost before = self.attribute_options@;
                let ghost attribute_id = o.attribute_id;
                self.attribute_options.push(o);
                proof {
                    assert(attribute_refs(self.attribute_options@) =~= attribute_refs(before).push(attribute_id));
                    assert(keys(self.attribute_options@) =~= keys(before).push(ov.id));
                    lemma_included_push(keys(before), ov.id);
                    lemma_all_in_grow(option_refs(self.product_combinations@), keys(before), keys(self.attribute_options@));
                    assert(option_rows(self.attribute_options@) =~= table.push(ov));
                }
            },
        }
        proof {
            lemma_option_ids_are_row_ids(self.attribute_options@);
        }
    }
}

impl UpdateAttributeUsecase {
    /// The option rows this request upserts: each keeps its id or takes
    /// `fresh[i]`, and belongs to the attribute being updated.
    pub fn plan(&self, fresh: &Vec<Uuid>) -> (r: Vec<AttributeOptionRow>)
        requires
            fresh@.len() == self.attribute_options@.len(),
        ensures
            option_rows(r@) == planned_upserts(*self, fresh@),
    {
        let mut rows: Vec<AttributeOptionRow> = Vec::new();
        let mut i: usize = 0;
        while i < self.attribute_options.len()
            invariant
                fresh@.len() == self.attribute_options@.len(),
                i <= self.attribute_options@.len(),
                rows@.len() == i,
                forall|j: int| 0 <= j < i ==> (#[trigger] rows@[j])@ == planned_upserts(*self, fresh@)[j],
            decreases self.attribute_options@.len() - i,
        {
            let option = &self.attribute_options[i];
            let id = match option.id {
                Some(id) => id,
                None => fresh[i],
            };
            rows.push(AttributeOptionRow { id, value: option.value.clone(), attribute_id: self.id });
            i += 1;
        }
        assert(option_rows(rows@) =~= planned_upserts(*self, fresh@));
        rows
    }

    /// Renames the attribute, stamping `now` as its update time, and upserts
    /// the options, all in one transaction; options not in the request are
    /// kept. Returns the updated attribute. When the attribute does not exist
    /// or the request repeats an option id, nothing is written.
    pub fn invoke(&self, db: &mut Catalog, fresh: &Vec<Uuid>, now: Timestamp) -> (r: Result<Attribute, UpdateAttributeError>)
        requires
            old(db).wf(),
            fresh@.len() == self.attribute_options@.len(),
        ensures
            final(db).wf(),
            match update_failure(*old(db), *self, fresh@) {
                None => r is Ok
                    && r->Ok_0.id == self.id
                    && r->Ok_0.name == self.name
                    && r->Ok_0.updated_at == Some(now)
                    && (exists|k: int| 0 <= k < old(db).attributes@.len()
                        && #[trigger] old(db).attributes@[k].id == self.id
                        && r->Ok_0.created_at == old(db).attributes@[k].created_at
                        && final(db).attributes@ == old(db).attributes@.update(k, r->Ok_0))
                    && option_rows(final(db).attribute_options@)
                        == upsert_options(option_rows(old(db).attribute_options@), planned_upserts(*self, fresh@))
                    && final(db).uoms@ == old(db).uoms@
                    && final(db).categories@ == old(db).categories@
                    && final(db).product_templates@ == old(db).product_templates@
                    && final(db).products@ == old(db).products@
                    && final(db).product_combinations@ == old(db).product_combinations@,
                Some(e) => r == Err::<Attribute, UpdateAttributeError>(
                    UpdateAttributeError::InternalServerError(TransactionFailure { cause: e }),
                ) && *final(db) == *old(db),
            },
    {
        let k = match position_of(&db.attributes, self.id) {
            Some(k) => k,
            None => {
                proof {
                    if attribute_ids(db.attributes@).contains(self.id) {
                        let w = choose|w: int| 0 <= w < attribute_ids(db.attributes@).len() && attribute_ids(db.attributes@)[w] == self.id;
                        assert(db.attributes@[w].id == self.id);
                    }
                }
                return Err(UpdateAttributeError::InternalServerError(TransactionFailure { cause: StorageFailure::RecordNotUpdated }));
            },
        };
        proof {
            assert(attribute_ids(db.attributes@)[k as int] == self.id);
        }
        let rows = self.plan(fresh);
        let ids = ids_of_rows(&rows);
        if !ids_distinct(&ids) || any_fresh_taken(&self.attribute_options, fresh, &key_list(&db.attribute_options)) {
            return Err(UpdateAttributeError::InternalServerError(TransactionFailure { cause: StorageFailure::DuplicateKey }));
        }
        let ghost old_db = *db;
        let created_at = db.attributes[k].created_at;
        let updated = Attribute { id: self.id, name: self.name.clone(), created_at, updated_at: Some(now) };
        let result = Attribute { id: self.id, name: self.name.clone(), created_at, updated_at: Some(now) };
        db.attributes.set(k, updated);
        proof {
            assert(attribute_ids(db.attributes@) =~= attribute_ids(old_db.attributes@));
        }
        let ghost batch = option_rows(rows@);
        let ghost start = option_rows(db.attribute_options@);
        assert forall|j: int| 0 <= j < rows@.len() implies (#[trigger] rows@[j]).attribute_id == self.id by {
            assert(option_rows(rows@)[j] == planned_upserts(*self, fresh@)[j]);
        }
        let mut i: usize = 0;
        while i < rows.len()
            invariant
                i <= rows@.len(),
                db.wf(),
                batch == option_rows(rows@),
                option_rows(db.attribute_options@) == upsert_options(start, batch.take(i as int)),
                db.attributes@ == old_db.attributes@.update(k as int, result),
                attribute_ids(db.attributes@).contains(self.id),
                forall|j: int| 0 <= j < rows@.len() ==> (#[trigger] rows@[j]).attribute_id == self.id,
                db.uoms@ == old_db.uoms@,
                db.categories@ == old_db.categories@,
                db.product_templates@ == old_db.product_templates@,
                db.products@ == old_db.products@,
                db.product_combinations@ == old_db.product_combinations@,
            decreases rows@.len() - i,
        {
            let row = AttributeOptionRow { id: rows[i].id, value: rows[i].value.clone(), attribute_id: rows[i].attribute_id };
            db.upsert_option(row);
            proof {
                assert(batch.take(i as int + 1).drop_last() =~= batch.take(i as int));
                assert(batch.take(i as int + 1).last() == batch[i as int]);
            }
            i += 1;
        }
        proof {
            assert(batch.take(rows@.len() as int) =~= batch);
        }
        Ok(result)
    }
}

fn ids_of_rows(rows: &Vec<AttributeOptionRow>) -> (r: Vec<Uuid>)
    ensures
        r@ == row_ids(option_rows(rows@)),
{
    let mut r: Vec<Uuid> = Vec::new();
    let mut i: usize = 0;
    while i < rows.len()
        invariant
            i <= rows@.len(),
            r@ =~= row_ids(option_rows(rows@.take(i as int))),
        decreases rows@.len() - i,
    {
        r.push(rows[i].id);
        proof {
            assert(row_ids(option_rows(rows@.take(i as int + 1)))
                =~= row_ids(option_rows(rows@.take(i as int))).push(rows@[i as int].id));
        }
        i += 1;
    }
    assert(rows@.take(rows@.len() as int) =~= rows@);
    r
}

} // verus!
