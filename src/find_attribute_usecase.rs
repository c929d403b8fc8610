use vstd::prelude::*;
use crate::attribute::{option_views, AttributeDTO};
use crate::catalog::{attribute_ids, option_rows, Catalog, OptionRowView};
use crate::error::StorageFailure;
use crate::model::{Attribute, AttributeOptionRow, OptionRef, RefView, Uuid};

verus! {

/// A lookup of one attribute with its options.
#[derive(Clone, Copy, Debug, PartialEq, Eq, Structural)]
pub struct FindAttributeUsecase {
    pub id: Uuid,
}

pub type FindAttributeParams = FindAttributeUsecase;

#[derive(Clone, Copy, Debug, PartialEq, Eq, Structural)]
pub enum FindAttributeError {
    InternalServerError(StorageFailure),
    RecordNotFound,
}

/// A lookup of the options of one attribute.
#[derive(Clone, Copy, Debug, PartialEq, Eq, Structural)]
pub struct FindOptionsByAttributeIdUsecase {
    pub attribute_id: Uuid,
}

pub type FindOptionsByAttributeIdParams = FindOptionsByAttributeIdUsecase;

#[derive(Clone, Copy, Debug, PartialEq, Eq, Structural)]
pub enum FindOptionsByAttributeIdError {
    InternalServerError(StorageFailure),
    RecordNotFound,
}

/// The options of attribute `id` among `rows`, in table order, as id and value.
pub open spec fn options_of_attribute(rows: Seq<OptionRowView>, id: Uuid) -> Seq<RefView>
    decreases rows.len(),
{
    if rows.len() == 0 {
        Seq::empty()
    } else {
        let prev = options_of_attribute(rows.drop_last(), id);
        let r = rows.last();
        if r.attribute_id == id {
            prev.push(RefView { id: r.id, text: r.value })
        } else {
            prev
        }
    }
}

/// The options of an attribute, taken from a table of option rows.
pub fn options_for(rows: &Vec<AttributeOptionRow>, attribute_id: Uuid) -> (r: Vec<OptionRef>)
    ensures
        option_views(r@) == options_of_attribute(option_rows(rows@), attribute_id),
{
    let mut out: Vec<OptionRef> = Vec::new();
    let mut i: usize = 0;
    while i < rows.len()
        invariant
            i <= rows@.len(),
            option_views(out@) == options_of_attribute(option_rows(rows@.take(i as int)), attribute_id),
        decreases rows@.len() - i,
    {
        proof {
            assert(option_rows(rows@.take(i as int + 1)).drop_last() =~= option_rows(rows@.take(i as int)));
            assert(option_rows(rows@.take(i as int + 1)).last() == rows@[i as int]@);
        }
        if rows[i].attribute_id == attribute_id {
            let option = OptionRef { id: rows[i].id, value: rows[i].value.clone() };
            let ghost v = option@;
            out.push(option);
            proof {
                assert(option_views(out@) =~= option_views(out@.drop_last()).push(v));
                assert(out@.drop_last() =~= out@.take(out@.len() - 1));
            }
        }
        i += 1;
    }
    proof {
        assert(rows@.take(rows@.len() as int) =~= rows@);
    }
    out
}

/// The view of an attribute together with the options that name it.
pub fn attribute_dto(attribute: &Attribute, rows: &Vec<AttributeOptionRow>) -> (r: AttributeDTO)
    ensures
        r.id == attribute.id,
        r.name@ == attribute.name@,
        option_views(r.attribute_options@) == options_of_attribute(option_rows(rows@), attribute.id),
{
    AttributeDTO { id: attribute.id, name: attribute.name.clone(), attribute_options: options_for(rows, attribute.id) }
}

impl FindAttributeUsecase {
    /// The attribute with this id and its options; `RecordNotFound` when no
    /// attribute has the id.
    pub fn invoke(&self, db: &Catalog) -> (r: Result<AttributeDTO, FindAttributeError>)
        requires
            db.wf(),
        ensures
            !attribute_ids(db.attributes@).contains(self.id) <==> r == Err::<AttributeDTO, FindAttributeError>(
                FindAttributeError::RecordNotFound,
            ),
            attribute_ids(db.attributes@).contains(self.id) ==> r is Ok,
            r matches Ok(dto) ==> exists|k: int| 0 <= k < db.attributes@.len()
                && #[trigger] db.attributes@[k].id == self.id
                && dto.id == self.id
                && dto.name@ == db.attributes@[k].name@
                && option_views(dto.attribute_options@) == options_of_attribute(option_rows(db.attribute_options@), self.id),
    {
        let mut k: usize = 0;
        while k < db.attributes.len()
            invariant
                k <= db.attributes@.len(),
                forall|j: int| 0 <= j < k ==> db.attributes@[j].id != self.id,
            decreases db.attributes@.len() - k,
        {
            if db.attributes[k].id == self.id {
                proof {
                    assert(attribute_ids(db.attributes@)[k as int] == self.id);
                }
                return Ok(attribute_dto(&db.attributes[k], &db.attribute_options));
            }
            k += 1;
        }
        proof {
            if attribute_ids(db.attributes@).contains(self.id) {
                let w = choose|w: int| 0 <= w < attribute_ids(db.attributes@).len() && attribute_ids(db.attributes@)[w] == self.id;
                assert(db.attributes@[w].id == self.id);
            }
        }
        Err(FindAttributeError::RecordNotFound)
    }
}

impl FindOptionsByAttributeIdUsecase {
    /// The options that name this attribute, in table order (none for an
    /// unknown attribute).
    pub fn invoke(&self, db: &Catalog) -> (r: Result<Vec<OptionRef>, FindOptionsByAttributeIdError>)
        ensures
            r matches Ok(options) && option_views(options@) == options_of_attribute(option_rows(db.attribute_options@), self.attribute_id),
    {
        Ok(options_for(&db.attribute_options, self.attribute_id))
    }
}

} // verus!
