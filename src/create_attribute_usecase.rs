use vstd::prelude::*;
use crate::catalog::{
    any_taken, attribute_ids, attribute_refs, key_list, lemma_all_in_concat, lemma_all_in_grow, lemma_included_concat,
    lemma_included_push, option_refs, contains_id, distinct, ids_distinct, option_ids, option_rows, Catalog, OptionRowView};
use crate::error::{StorageFailure, TransactionFailure};
use crate::model::{Attribute, AttributeOptionRow, Timestamp, Uuid};

verus! {

/// An option to create with a new attribute.
#[derive(Clone, Debug)]
pub struct AttributeOption {
    pub value: String,
}

/// A request to create an attribute together with its options.
#[derive(Clone, Debug)]
pub struct CreateAttributeUsecase {
    pub name: String,
    pub attribute_options: Vec<AttributeOption>,
}

pub type CreateAttributePayload = CreateAttributeUsecase;

#[derive(Clone, Copy, Debug, PartialEq, Eq, Structural)]
pub enum CreateAttributeError {
    InternalServerError(TransactionFailure),
}

/// The rows that creating an attribute writes, in one transaction.
#[derive(Clone, Debug)]
pub struct AttributeCreation {
    pub attribute: Attribute,
    pub options: Vec<AttributeOptionRow>,
}

/// The option rows of a request, the `i`-th with id `ids[i]`.
pub open spec fn planned_options(u: CreateAttributeUsecase, attribute_id: Uuid, ids: Seq<Uuid>) -> Seq<OptionRowView> {
    Seq::new(
        u.attribute_options@.len(),
        |i: int| OptionRowView { id: ids[i], value: u.attribute_options@[i].value@, attribute_id },
    )
}

/// The first constraint that the rows would break: the attribute's key,
/// then the options' keys.
pub open spec fn attribute_creation_failure(db: Catalog, attribute_id: Uuid, ids: Seq<Uuid>) -> Option<StorageFailure> {
    if attribute_ids(db.attributes@).contains(attribute_id) {
        Some(StorageFailure::DuplicateKey)
    } else if !distinct(ids) || exists|i: int| 0 <= i < ids.len() && option_ids(db.attribute_options@).contains(#[trigger] ids[i]) {
        Some(StorageFailure::DuplicateKey)
    } else {
        None
    }
}

/// Creating an attribute with no options succeeds whenever its id is free,
/// and adds no option row: with `invoke`'s contract, the option table is
/// left as it was.
pub proof fn lemma_empty_options_no_op(db: Catalog, u: CreateAttributeUsecase, attribute_id: Uuid, ids: Seq<Uuid>)
    requires
        u.attribute_options@.len() == 0,
        ids.len() == 0,
        !attribute_ids(db.attributes@).contains(attribute_id),
    ensures
        attribute_creation_failure(db, attribute_id, ids) is None,
        planned_options(u, attribute_id, ids) == Seq::<OptionRowView>::empty(),
        option_rows(db.attribute_options@) + planned_options(u, attribute_id, ids) == option_rows(db.attribute_options@),
{
    assert(planned_options(u, attribute_id, ids) =~= Seq::<OptionRowView>::empty());
    assert(option_rows(db.attribute_options@) + planned_options(u, attribute_id, ids) =~= option_rows(db.attribute_options@));
}

impl CreateAttributeUsecase {
    /// The rows this request writes: the attribute, stamped `now` at creation
    /// and not yet updated, and one option per requested value, in order.
    pub fn plan(&self, attribute_id: Uuid, new_ids: &Vec<Uuid>, now: Timestamp) -> (r: AttributeCreation)
        requires
            new_ids@.len() == self.attribute_options@.len(),
        ensures
            r.attribute == (Attribute { id: attribute_id, name: self.name, created_at: now, updated_at: None }),
            option_rows(r.options@) == planned_options(*self, attribute_id, new_ids@),
            forall|i: int| 0 <= i < r.options@.len() ==> (#[trigger] r.options@[i]).id == new_ids@[i],
    {
        let attribute = Attribute { id: attribute_id, name: self.name.clone(), created_at: now, updated_at: None };
        let mut options: Vec<AttributeOptionRow> = Vec::new();
        let mut i: usize = 0;
        while i < self.attribute_options.len()
            invariant
                new_ids@.len() == self.attribute_options@.len(),
                i <= self.attribute_options@.len(),
                options@.len() == i,
                forall|j: int| 0 <= j < i ==> (#[trigger] options@[j])@ == planned_options(*self, attribute_id, new_ids@)[j],
            decreases self.attribute_options@.len() - i,
        {
            options.push(AttributeOptionRow {
                id: new_ids[i],
                value: self.attribute_options[i].value.clone(),
                attribute_id,
            });
            i += 1;
        }
        assert(option_rows(options@) =~= planned_options(*self, attribute_id, new_ids@));
        AttributeCreation { attribute, options }
    }

    /// Creates the attribute and its options in one transaction and returns
    /// the attribute. With no options only the attribute is written. When a
    /// key is taken, nothing is written and the failure is returned.
    pub fn invoke(&self, db: &mut Catalog, attribute_id: Uuid, new_ids: &Vec<Uuid>, now: Timestamp) -> (r: Result<Attribute, CreateAttributeError>)
        requires
            old(db).wf(),
            new_ids@.len() == self.attribute_options@.len(),
        ensures
            final(db).wf(),
            match attribute_creation_failure(*old(db), attribute_id, new_ids@) {
                None => r == Ok::<Attribute, CreateAttributeError>(
                    Attribute { id: attribute_id, name: self.name, created_at: now, updated_at: None },
                )
                    && final(db).attributes@ == old(db).attributes@.push(r->Ok_0)
                    && option_rows(final(db).attribute_options@)
                        == option_rows(old(db).attribute_options@) + planned_options(*self, attribute_id, new_ids@)
                    && final(db).uoms@ == old(db).uoms@
                    && final(db).categories@ == old(db).categories@
                    && final(db).product_templates@ == old(db).product_templates@
                    && final(db).products@ == old(db).products@
                    && final(db).product_combinations@ == old(db).product_combinations@,
                Some(e) => r == Err::<Attribute, CreateAttributeError>(
                    CreateAttributeError::InternalServerError(TransactionFailure { cause: e }),
                ) && *final(db) == *old(db),
            },
    {
        if contains_id(&key_list(&db.attributes), attribute_id) {
            return Err(CreateAttributeError::InternalServerError(TransactionFailure { cause: StorageFailure::DuplicateKey }));
        }
        if !ids_distinct(new_ids) {
            return Err(CreateAttributeError::InternalServerError(TransactionFailure { cause: StorageFailure::DuplicateKey }));
        }
        if any_taken(&key_list(&db.attribute_options), new_ids) {
            return Err(CreateAttributeError::InternalServerError(TransactionFailure { cause: StorageFailure::DuplicateKey }));
        }
        let plan = self.plan(attribute_id, new_ids, now);
        let AttributeCreation { attribute, options } = plan;
        let mut options = options;
        let result = Attribute {
            id: attribute.id,
            name: attribute.name.clone(),
            created_at: attribute.created_at,
            updated_at: attribute.updated_at,
        };
        let ghost old_db = *db;
        proof {
            assert(attribute_ids(old_db.attributes@.push(attribute))
                =~= attribute_ids(old_db.attributes@).push(attribute_id));
            assert(options@.len() == new_ids@.len()) by {
                assert(option_rows(options@).len() == options@.len());
            }
            assert(option_ids(options@) =~= new_ids@);
            assert(option_ids(old_db.attribute_options@ + options@)
                =~= option_ids(old_db.attribute_options@) + new_ids@);
            assert(option_rows(old_db.attribute_options@ + options@)
                =~= option_rows(old_db.attribute_options@) + option_rows(options@));
            let a = attribute_ids(old_db.attributes@);
            assert forall|x: int, y: int| 0 <= x < y < a.push(attribute_id).len()
                implies a.push(attribute_id)[x] != a.push(attribute_id)[y] by {
                if y == a.len() {
                    assert(a.contains(a[x]));
                }
            }
            let o = option_ids(old_db.attribute_options@);
            assert forall|x: int, y: int| 0 <= x < y < (o + new_ids@).len()
                implies (o + new_ids@)[x] != (o + new_ids@)[y] by {
                if x < o.len() && y >= o.len() {
                    assert(new_ids@[y - o.len()] == (o + new_ids@)[y]);
                    if (o + new_ids@)[x] == (o + new_ids@)[y] {
                        assert(o.contains(new_ids@[y - o.len()]));
                    }
                }
            }
            let a2 = a.push(attribute_id);
            lemma_included_push(a, attribute_id);
            assert(attribute_refs(old_db.attribute_options@ + options@)
                =~= attribute_refs(old_db.attribute_options@) + attribute_refs(options@));
            assert forall|i: int| 0 <= i < attribute_refs(options@).len()
                implies a2.contains(#[trigger] attribute_refs(options@)[i]) by {
                assert(option_rows(options@)[i] == planned_options(*self, attribute_id, new_ids@)[i]);
                assert(attribute_refs(options@)[i] == attribute_id);
            }
            lemma_all_in_grow(attribute_refs(old_db.attribute_options@), a, a2);
            lemma_all_in_concat(attribute_refs(old_db.attribute_options@), attribute_refs(options@), a2);
            lemma_included_concat(o, new_ids@);
            lemma_all_in_grow(option_refs(old_db.product_combinations@), o, o + new_ids@);
        }
        db.attributes.push(attribute);
        if options.len() > 0 {
            db.attribute_options.append(&mut options);
        } else {
            assert(old_db.attribute_options@ + options@ =~= old_db.attribute_options@);
        }
        Ok(result)
    }
}

} // verus!
