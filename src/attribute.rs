use vstd::prelude::*;
use crate::catalog::{keys, position_of, Keyed};
use crate::model::{OptionRef, RefView, Uuid};

verus! {

impl Keyed for AttributeDTO {
    open spec fn key_spec(&self) -> Uuid {
        self.id
    }

    fn key(&self) -> (r: Uuid) {
        self.id
    }
}

/// One flat row of the attribute listing: an attribute and one of its
/// options; the option columns are empty for an attribute without options.
#[derive(Clone, Debug)]
pub struct QueryResult {
    pub id: Uuid,
    pub name: String,
    pub attribute_option_id: Option<Uuid>,
    pub attribute_option_value: Option<String>,
}

/// An attribute with its options.
#[derive(Clone, Debug)]
pub struct AttributeDTO {
    pub id: Uuid,
    pub name: String,
    pub attribute_options: Vec<OptionRef>,
}

pub struct AttributeView {
    pub id: Uuid,
    pub name: Seq<char>,
    pub attribute_options: Seq<RefView>,
}

pub open spec fn option_views(s: Seq<OptionRef>) -> Seq<RefView> {
    s.map_values(|o: OptionRef| o@)
}

impl View for AttributeDTO {
    type V = AttributeView;

    open spec fn view(&self) -> AttributeView {
        AttributeView { id: self.id, name: self.name@, attribute_options: option_views(self.attribute_options@) }
    }
}

pub open spec fn attribute_views(s: Seq<AttributeDTO>) -> Seq<AttributeView> {
    s.map_values(|a: AttributeDTO| a@)
}

/// The option a row carries: present when both option columns are filled.
pub open spec fn row_option(r: QueryResult) -> Option<RefView> {
    if r.attribute_option_id is Some && r.attribute_option_value is Some {
        Some(RefView { id: r.attribute_option_id->0, text: r.attribute_option_value->0@ })
    } else {
        None
    }
}

pub open spec fn has_attribute_id(acc: Seq<AttributeView>, id: Uuid) -> bool {
    exists|k: int| 0 <= k < acc.len() && acc[k].id == id
}

pub open spec fn attribute_position(acc: Seq<AttributeView>, id: Uuid) -> int {
    choose|k: int| 0 <= k < acc.len() && acc[k].id == id
}

/// Folds one row into the attributes seen so far.
pub open spec fn add_attribute_row(acc: Seq<AttributeView>, r: QueryResult) -> Seq<AttributeView> {
    let opened = if has_attribute_id(acc, r.id) {
        acc
    } else {
        acc.push(AttributeView { id: r.id, name: r.name@, attribute_options: Seq::empty() })
    };
    let k = attribute_position(opened, r.id);
    match row_option(r) {
        Some(o) => opened.update(
            k,
            AttributeView { attribute_options: opened[k].attribute_options.push(o), ..opened[k] },
        ),
        None => opened,
    }
}

/// The attributes of a listing, one per attribute id in order of first
/// appearance, each with the options of its rows in row order.
pub open spec fn aggregate_attributes(rows: Seq<QueryResult>) -> Seq<AttributeView>
    decreases rows.len(),
{
    if rows.len() == 0 {
        Seq::empty()
    } else {
        add_attribute_row(aggregate_attributes(rows.drop_last()), rows.last())
    }
}

pub open spec fn unique_attribute_view_ids(acc: Seq<AttributeView>) -> bool {
    forall|a: int, b: int| 0 <= a < b < acc.len() ==> acc[a].id != acc[b].id
}

/// The options that the rows give attribute `id`, in row order.
pub open spec fn options_of(rows: Seq<QueryResult>, id: Uuid) -> Seq<RefView>
    decreases rows.len(),
{
    if rows.len() == 0 {
        Seq::empty()
    } else {
        let prev = options_of(rows.drop_last(), id);
        let r = rows.last();
        if r.id == id && row_option(r) is Some {
            prev.push(row_option(r)->0)
        } else {
            prev
        }
    }
}

/// The attribute ids of the rows, each once, in order of first appearance.
pub open spec fn distinct_attribute_ids(rows: Seq<QueryResult>) -> Seq<Uuid>
    decreases rows.len(),
{
    if rows.len() == 0 {
        Seq::empty()
    } else {
        let ids = distinct_attribute_ids(rows.drop_last());
        if ids.contains(rows.last().id) {
            ids
        } else {
            ids.push(rows.last().id)
        }
    }
}

pub open spec fn attribute_view_ids(acc: Seq<AttributeView>) -> Seq<Uuid> {
    acc.map_values(|a: AttributeView| a.id)
}

proof fn lemma_unseen_has_no_options(rows: Seq<QueryResult>, id: Uuid)
    requires
        !distinct_attribute_ids(rows).contains(id),
    ensures
        options_of(rows, id) == Seq::<RefView>::empty(),
    decreases rows.len(),
{
    if rows.len() > 0 {
        let prev = rows.drop_last();
        let ids = distinct_attribute_ids(prev);
        assert(!ids.contains(id)) by {
            if ids.contains(id) {
                let w = choose|w: int| 0 <= w < ids.len() && ids[w] == id;
                if !ids.contains(rows.last().id) {
                    assert(ids.push(rows.last().id)[w] == id);
                }
            }
        }
        lemma_unseen_has_no_options(prev, id);
        if rows.last().id == id {
            assert(ids.push(id)[ids.len() as int] == id);
        }
    }
}

proof fn lemma_attribute_step(acc: Seq<AttributeView>, rows: Seq<QueryResult>, r: QueryResult)
    requires
        unique_attribute_view_ids(acc),
        attribute_view_ids(acc) == distinct_attribute_ids(rows),
        forall|k: int| 0 <= k < acc.len() ==> #[trigger] acc[k].attribute_options == options_of(rows, acc[k].id),
    ensures
        unique_attribute_view_ids(add_attribute_row(acc, r)),
        attribute_view_ids(add_attribute_row(acc, r)) == distinct_attribute_ids(rows.push(r)),
        forall|k: int| 0 <= k < add_attribute_row(acc, r).len() ==>
            #[trigger] add_attribute_row(acc, r)[k].attribute_options == options_of(rows.push(r), add_attribute_row(acc, r)[k].id),
{
    let rows2 = rows.push(r);
    assert(rows2.drop_last() =~= rows);
    assert(rows2.last() == r);
    let acc2 = add_attribute_row(acc, r);
    let fresh = AttributeView { id: r.id, name: r.name@, attribute_options: Seq::empty() };
    let opened = if has_attribute_id(acc, r.id) { acc } else { acc.push(fresh) };
    assert(distinct_attribute_ids(rows).contains(r.id) <==> has_attribute_id(acc, r.id)) by {
        if has_attribute_id(acc, r.id) {
            let k = choose|k: int| 0 <= k < acc.len() && acc[k].id == r.id;
            assert(attribute_view_ids(acc)[k] == r.id);
        }
        if distinct_attribute_ids(rows).contains(r.id) {
            let k = choose|k: int| 0 <= k < attribute_view_ids(acc).len() && attribute_view_ids(acc)[k] == r.id;
            assert(acc[k].id == r.id);
        }
    }
    assert(has_attribute_id(opened, r.id)) by {
        if !has_attribute_id(acc, r.id) {
            assert(opened[acc.len() as int].id == r.id);
        }
    }
    assert(unique_attribute_view_ids(opened)) by {
        if !has_attribute_id(acc, r.id) {
            assert forall|a: int, b: int| 0 <= a < b < opened.len() implies opened[a].id != opened[b].id by {
                if b == acc.len() {
                    assert(acc[a].id != r.id);
                }
            }
        }
    }
    let idx = attribute_position(opened, r.id);
    assert(opened[idx].id == r.id);
    assert(forall|k: int| 0 <= k < acc2.len() ==> #[trigger] acc2[k].id == opened[k].id);
    assert(acc2.len() == opened.len());
    assert(attribute_view_ids(acc2) =~= distinct_attribute_ids(rows2)) by {
        assert(attribute_view_ids(opened) =~= distinct_attribute_ids(rows2));
    }
    assert(unique_attribute_view_ids(acc2));
    assert forall|k: int| 0 <= k < acc2.len() implies
        #[trigger] acc2[k].attribute_options == options_of(rows2, acc2[k].id) by {
        if k == idx {
            if !has_attribute_id(acc, r.id) {
                lemma_unseen_has_no_options(rows, r.id);
                assert(opened[idx] == fresh) by {
                    if idx < acc.len() {
                        assert(acc[idx].id == r.id);
                    }
                }
            } else {
                assert(opened[idx] == acc[idx]);
            }
        } else {
            assert(acc2[k] == opened[k]);
            if k < acc.len() {
                assert(opened[k] == acc[k]);
            } else {
                assert(opened[k] == fresh);
                assert(opened[k].id == r.id);
                assert(false);
            }
            assert(acc2[k].id != r.id) by {
                if k < idx {
                    assert(opened[k].id != opened[idx].id);
                } else {
                    assert(opened[idx].id != opened[k].id);
                }
            }
        }
    }
}

/// Grouping correctness of the attribute listing: one attribute per
/// distinct attribute id among the rows, in order of first appearance, each
/// with exactly the options of its rows, in row order.
pub proof fn lemma_attribute_grouping(rows: Seq<QueryResult>)
    ensures
        attribute_view_ids(aggregate_attributes(rows)) == distinct_attribute_ids(rows),
        unique_attribute_view_ids(aggregate_attributes(rows)),
        forall|k: int| 0 <= k < aggregate_attributes(rows).len() ==>
            #[trigger] aggregate_attributes(rows)[k].attribute_options == options_of(rows, aggregate_attributes(rows)[k].id),
    decreases rows.len(),
{
    if rows.len() > 0 {
        let prev = rows.drop_last();
        lemma_attribute_grouping(prev);
        lemma_attribute_step(aggregate_attributes(prev), prev, rows.last());
        assert(prev.push(rows.last()) =~= rows);
    } else {
        assert(attribute_view_ids(aggregate_attributes(rows)) =~= distinct_attribute_ids(rows));
    }
}

/// Groups the flat rows of an attribute listing by attribute id, in the order
/// in which each id first appears; an option is added only where the row
/// carries both its id and its value.
pub fn group_attribute_rows(rows: &Vec<QueryResult>) -> (r: Vec<AttributeDTO>)
    ensures
        attribute_views(r@) == aggregate_attributes(rows@),
        unique_attribute_view_ids(attribute_views(r@)),
{
    let mut out: Vec<AttributeDTO> = Vec::new();
    let mut i: usize = 0;
    while i < rows.len()
        invariant
            i <= rows@.len(),
            attribute_views(out@) == aggregate_attributes(rows@.take(i as int)),
            unique_attribute_view_ids(attribute_views(out@)),
        decreases rows@.len() - i,
    {
        let row = &rows[i];
        let ghost acc = attribute_views(out@);
        proof {
            assert(rows@.take(i as int + 1).drop_last() =~= rows@.take(i as int));
            assert(rows@.take(i as int + 1).last() == rows@[i as int]);
        }
        let k = match position_of(&out, row.id) {
            Some(k) => {
                assert(acc[k as int].id == row.id);
                k
            },
            None => {
                proof {
                    assert(!has_attribute_id(acc, row.id)) by {
                        if has_attribute_id(acc, row.id) {
                            let w = choose|w: int| 0 <= w < acc.len() && acc[w].id == row.id;
                            assert(keys(out@)[w] == row.id);
                        }
                    }
                }
                let fresh = AttributeDTO { id: row.id, name: row.name.clone(), attribute_options: Vec::new() };
                proof {
                    assert(option_views(fresh.attribute_options@) =~= Seq::empty());
                }
                out.push(fresh);
                proof {
                    assert(attribute_views(out@) =~= acc.push(
                        AttributeView { id: row.id, name: row.name@, attribute_options: Seq::empty() },
                    ));
                }
                out.len() - 1
            },
        };
        let ghost opened = attribute_views(out@);
        proof {
            assert(opened[k as int].id == row.id);
            assert(unique_attribute_view_ids(opened));
            let p = attribute_position(opened, row.id);
            if p < k as int {
                assert(opened[p].id != opened[k as int].id);
            } else if p > k as int {
                assert(opened[k as int].id != opened[p].id);
            }
        }
        match (&row.attribute_option_id, &row.attribute_option_value) {
            (Some(oid), Some(value)) => {
                let option = OptionRef { id: *oid, value: value.clone() };
                let ghost ov = option@;
                out[k].attribute_options.push(option);
                proof {
                    assert(option_views(out@[k as int].attribute_options@)
                        =~= opened[k as int].attribute_options.push(ov));
                    assert(attribute_views(out@) =~= opened.update(
                        k as int,
                        AttributeView { attribute_options: opened[k as int].attribute_options.push(ov), ..opened[k as int] },
                    ));
                }
            },
            _ => {},
        }
        i += 1;
    }
    proof {
        assert(rows@.take(rows@.len() as int) =~= rows@);
    }
    out
}

} // verus!
