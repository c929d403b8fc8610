use vstd::prelude::*;
use crate::catalog::{lemma_all_in_grow, lemma_included_push, position_of, uom_ids, uom_refs, Catalog};
use crate::error::StorageFailure;
use crate::model::{Uom, Uuid};

verus! {

/// A request to create a unit of measurement.
#[derive(Clone, Debug)]
pub struct CreateUomUsecase {
    pub name: String,
}

pub type CreateUomParams = CreateUomUsecase;

#[derive(Clone, Copy, Debug, PartialEq, Eq, Structural)]
pub enum CreateUomError {
    InternalServerError(StorageFailure),
}

/// A lookup of one unit of measurement.
#[derive(Clone, Copy, Debug, PartialEq, Eq, Structural)]
pub struct FindUomUsecase {
    pub id: Uuid,
}

pub type FindUomParams = FindUomUsecase;

#[derive(Clone, Copy, Debug, PartialEq, Eq, Structural)]
pub enum FindUomError {
    InternalServerError(StorageFailure),
    RecordNotFound,
}

/// A request to rename a unit of measurement.
#[derive(Clone, Debug)]
pub struct UpdateUomUsecase {
    pub id: Uuid,
    pub name: String,
}

pub type UpdateUomParams = UpdateUomUsecase;

#[derive(Clone, Copy, Debug, PartialEq, Eq, Structural)]
pub enum UpdateUomError {
    InternalServerError(StorageFailure),
}

impl CreateUomUsecase {
    /// Stores a new unit with the given id and this name; `DuplicateKey` when
    /// the id is taken, and then nothing is written.
    pub fn invoke(&self, db: &mut Catalog, id: Uuid) -> (r: Result<Uom, CreateUomError>)
        requires
            old(db).wf(),
        ensures
            final(db).wf(),
            uom_ids(old(db).uoms@).contains(id) ==> r == Err::<Uom, CreateUomError>(
                CreateUomError::InternalServerError(StorageFailure::DuplicateKey),
            ) && *final(db) == *old(db),
            !uom_ids(old(db).uoms@).contains(id) ==> r == Ok::<Uom, CreateUomError>(Uom { id, name: self.name })
                && final(db).uoms@ == old(db).uoms@.push(Uom { id, name: self.name })
                && final(db).categories@ == old(db).categories@
                && final(db).attributes@ == old(db).attributes@
                && final(db).attribute_options@ == old(db).attribute_options@
                && final(db).product_templates@ == old(db).product_templates@
                && final(db).products@ == old(db).products@
                && final(db).product_combinations@ == old(db).product_combinations@,
    {
        if let Some(k) = position_of(&db.uoms, id) {
            proof {
                assert(uom_ids(db.uoms@)[k as int] == id);
            }
            return Err(CreateUomError::InternalServerError(StorageFailure::DuplicateKey));
        }
        let ghost old_ids = uom_ids(db.uoms@);
        db.uoms.push(Uom { id, name: self.name.clone() });
        proof {
            assert(uom_ids(db.uoms@) =~= old_ids.push(id));
            lemma_included_push(old_ids, id);
            lemma_all_in_grow(uom_refs(db.product_templates@), old_ids, uom_ids(db.uoms@));
            assert forall|a: int, b: int| 0 <= a < b < uom_ids(db.uoms@).len()
                implies uom_ids(db.uoms@)[a] != uom_ids(db.uoms@)[b] by {
                if b == old_ids.len() {
                    assert(old_ids.contains(old_ids[a]));
                }
            }
        }
        Ok(Uom { id, name: self.name.clone() })
    }
}

impl FindUomUsecase {
    /// The unit with this id; `RecordNotFound` when there is none.
    pub fn invoke(&self, db: &Catalog) -> (r: Result<Uom, FindUomError>)
        ensures
            !uom_ids(db.uoms@).contains(self.id) <==> r == Err::<Uom, FindUomError>(FindUomError::RecordNotFound),
            uom_ids(db.uoms@).contains(self.id) ==> r is Ok,
            r matches Ok(u) ==> exists|k: int| 0 <= k < db.uoms@.len() && #[trigger] db.uoms@[k] == u && u.id == self.id,
    {
        match position_of(&db.uoms, self.id) {
            Some(k) => {
                proof {
                    assert(uom_ids(db.uoms@)[k as int] == self.id);
                }
                Ok(Uom { id: db.uoms[k].id, name: db.uoms[k].name.clone() })
            },
            None => Err(FindUomError::RecordNotFound),
        }
    }
}

impl UpdateUomUsecase {
    /// Renames the unit with this id; `RecordNotUpdated` when there is none,
    /// and then nothing is written.
    pub fn invoke(&self, db: &mut Catalog) -> (r: Result<Uom, UpdateUomError>)
        requires
            old(db).wf(),
        ensures
            final(db).wf(),
            !uom_ids(old(db).uoms@).contains(self.id) ==> r == Err::<Uom, UpdateUomError>(
                UpdateUomError::InternalServerError(StorageFailure::RecordNotUpdated),
            ) && *final(db) == *old(db),
            uom_ids(old(db).uoms@).contains(self.id) ==> r == Ok::<Uom, UpdateUomError>(Uom { id: self.id, name: self.name })
                && (exists|k: int| 0 <= k < old(db).uoms@.len() && #[trigger] old(db).uoms@[k].id == self.id
                    && final(db).uoms@ == old(db).uoms@.update(k, Uom { id: self.id, name: self.name }))
                && final(db).categories@ == old(db).categories@
                && final(db).attributes@ == old(db).attributes@
                && final(db).attribute_options@ == old(db).attribute_options@
                && final(db).product_templates@ == old(db).product_templates@
                && final(db).products@ == old(db).products@
                && final(db).product_combinations@ == old(db).product_combinations@,
    {
        match position_of(&db.uoms, self.id) {
            Some(k) => {
                proof {
                    assert(uom_ids(db.uoms@)[k as int] == self.id);
                }
                let ghost old_ids = uom_ids(db.uoms@);
                db.uoms.set(k, Uom { id: self.id, name: self.name.clone() });
                proof {
                    assert(uom_ids(db.uoms@) =~= old_ids);
                }
                Ok(Uom { id: self.id, name: self.name.clone() })
            },
            None => Err(UpdateUomError::InternalServerError(StorageFailure::RecordNotUpdated)),
        }
    }
}

} // verus!
