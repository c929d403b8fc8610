use vstd::prelude::*;
use crate::catalog::{keys, position_of, Keyed};
use crate::model::{AttributeRef, OptionRef, RefView, Uuid};

verus! {

impl Keyed for ProductDTO {
    open spec fn key_spec(&self) -> Uuid {
        self.id
    }

    fn key(&self) -> (r: Uuid) {
        self.id
    }
}

/// One flat row of the product listing: a product, the name of its template,
/// and one attribute option that it is combined with. The combination columns
/// are empty for a product without combinations, the name for a product whose
/// template is missing.
#[derive(Clone, Debug)]
pub struct QueryProductResult {
    pub id: Uuid,
    pub name: Option<String>,
    pub is_product_variant: bool,
    pub product_template_id: Option<Uuid>,
    pub attribute_id: Option<Uuid>,
    pub attribute_name: Option<String>,
    pub attribute_option_id: Option<Uuid>,
    pub attribute_option_value: Option<String>,
}

/// An attribute of a variant together with the option the variant takes for it.
#[derive(Clone, Debug)]
pub struct AttributeWithOptionDTO {
    pub attribute: AttributeRef,
    pub option: OptionRef,
}

/// A product with the attribute options that make up its variant.
#[derive(Clone, Debug)]
pub struct ProductDTO {
    pub id: Uuid,
    pub name: Option<String>,
    pub is_product_variant: bool,
    pub combinations: Vec<AttributeWithOptionDTO>,
}

pub struct CombinationView {
    pub attribute: RefView,
    pub option: RefView,
}

pub struct ProductView {
    pub id: Uuid,
    pub name: Option<Seq<char>>,
    pub is_product_variant: bool,
    pub combinations: Seq<CombinationView>,
}

impl View for AttributeWithOptionDTO {
    type V = CombinationView;

    open spec fn view(&self) -> CombinationView {
        CombinationView { attribute: self.attribute@, option: self.option@ }
    }
}

pub open spec fn combination_views(s: Seq<AttributeWithOptionDTO>) -> Seq<CombinationView> {
    s.map_values(|c: AttributeWithOptionDTO| c@)
}

pub open spec fn text_view(s: Option<String>) -> Option<Seq<char>> {
    match s {
        Some(t) => Some(t@),
        None => None,
    }
}

impl View for ProductDTO {
    type V = ProductView;

    open spec fn view(&self) -> ProductView {
        ProductView {
            id: self.id,
            name: text_view(self.name),
            is_product_variant: self.is_product_variant,
            combinations: combination_views(self.combinations@),
        }
    }
}

pub open spec fn product_views(s: Seq<ProductDTO>) -> Seq<ProductView> {
    s.map_values(|d: ProductDTO| d@)
}

/// The combination a row contributes: present when the row belongs to a
/// variant and its attribute and option columns are all filled.
pub open spec fn row_combination(r: QueryProductResult) -> Option<CombinationView> {
    if r.is_product_variant && r.attribute_id is Some && r.attribute_name is Some
        && r.attribute_option_id is Some && r.attribute_option_value is Some {
        Some(CombinationView {
            attribute: RefView { id: r.attribute_id->0, text: r.attribute_name->0@ },
            option: RefView { id: r.attribute_option_id->0, text: r.attribute_option_value->0@ },
        })
    } else {
        None
    }
}

pub open spec fn has_attribute(cs: Seq<CombinationView>, attribute_id: Uuid) -> bool {
    exists|j: int| 0 <= j < cs.len() && cs[j].attribute.id == attribute_id
}

pub open spec fn attribute_index(cs: Seq<CombinationView>, attribute_id: Uuid) -> int {
    choose|j: int| 0 <= j < cs.len() && cs[j].attribute.id == attribute_id
}

/// Adds a combination to a list: where an entry for the same attribute is
/// there, its option is replaced (the later row wins); else it is appended.
pub open spec fn merge_combination(cs: Seq<CombinationView>, c: CombinationView) -> Seq<CombinationView> {
    if has_attribute(cs, c.attribute.id) {
        let j = attribute_index(cs, c.attribute.id);
        cs.update(j, CombinationView { attribute: cs[j].attribute, option: c.option })
    } else {
        cs.push(c)
    }
}

pub open spec fn has_product(acc: Seq<ProductView>, id: Uuid) -> bool {
    exists|k: int| 0 <= k < acc.len() && acc[k].id == id
}

pub open spec fn product_index(acc: Seq<ProductView>, id: Uuid) -> int {
    choose|k: int| 0 <= k < acc.len() && acc[k].id == id
}

/// The entry that a product's first row opens.
pub open spec fn first_view(r: QueryProductResult) -> ProductView {
    ProductView {
        id: r.id,
        name: text_view(r.name),
        is_product_variant: r.is_product_variant,
        combinations: Seq::empty(),
    }
}

/// Folds one row into the products seen so far.
pub open spec fn add_row(acc: Seq<ProductView>, r: QueryProductResult) -> Seq<ProductView> {
    let opened = if has_product(acc, r.id) { acc } else { acc.push(first_view(r)) };
    let k = product_index(opened, r.id);
    match row_combination(r) {
        Some(c) => opened.update(
            k,
            ProductView { combinations: merge_combination(opened[k].combinations, c), ..opened[k] },
        ),
        None => opened,
    }
}

/// The products of a listing, one per product id in the order of first
/// appearance, each with the combinations of its rows.
pub open spec fn aggregate_products(rows: Seq<QueryProductResult>) -> Seq<ProductView>
    decreases rows.len(),
{
    if rows.len() == 0 {
        Seq::empty()
    } else {
        add_row(aggregate_products(rows.drop_last()), rows.last())
    }
}

pub open spec fn unique_product_ids(acc: Seq<ProductView>) -> bool {
    forall|a: int, b: int| 0 <= a < b < acc.len() ==> acc[a].id != acc[b].id
}

pub open spec fn unique_attribute_ids(cs: Seq<CombinationView>) -> bool {
    forall|a: int, b: int| 0 <= a < b < cs.len() ==> cs[a].attribute.id != cs[b].attribute.id
}

pub open spec fn well_grouped(acc: Seq<ProductView>) -> bool {
    &&& unique_product_ids(acc)
    &&& forall|k: int| 0 <= k < acc.len() ==> unique_attribute_ids(#[trigger] acc[k].combinations)
}

pub proof fn lemma_merge_unique(cs: Seq<CombinationView>, c: CombinationView)
    requires
        unique_attribute_ids(cs),
    ensures
        unique_attribute_ids(merge_combination(cs, c)),
        has_attribute(cs, c.attribute.id) ==> merge_combination(cs, c).len() == cs.len(),
{
}

pub proof fn lemma_add_row_grouped(acc: Seq<ProductView>, r: QueryProductResult)
    requires
        well_grouped(acc),
    ensures
        well_grouped(add_row(acc, r)),
{
    let opened = if has_product(acc, r.id) { acc } else { acc.push(first_view(r)) };
    assert(has_product(opened, r.id)) by {
        if !has_product(acc, r.id) {
            assert(opened[acc.len() as int].id == r.id);
        }
    }
    assert(well_grouped(opened));
    let k = product_index(opened, r.id);
    if let Some(c) = row_combination(r) {
        lemma_merge_unique(opened[k].combinations, c);
    }
}

pub proof fn lemma_aggregate_grouped(rows: Seq<QueryProductResult>)
    ensures
        well_grouped(aggregate_products(rows)),
    decreases rows.len(),
{
    if rows.len() > 0 {
        lemma_aggregate_grouped(rows.drop_last());
        lemma_add_row_grouped(aggregate_products(rows.drop_last()), rows.last());
    }
}

/// The product ids of the rows, each once, in the order of first appearance.
pub open spec fn distinct_product_ids(rows: Seq<QueryProductResult>) -> Seq<Uuid>
    decreases rows.len(),
{
    if rows.len() == 0 {
        Seq::empty()
    } else {
        let ids = distinct_product_ids(rows.drop_last());
        if ids.contains(rows.last().id) {
            ids
        } else {
            ids.push(rows.last().id)
        }
    }
}

pub open spec fn product_ids(acc: Seq<ProductView>) -> Seq<Uuid> {
    acc.map_values(|p: ProductView| p.id)
}

/// Some row of product `id` carries combination `c`'s attribute with `c`'s option.
pub open spec fn sourced_by(rows: Seq<QueryProductResult>, id: Uuid, c: CombinationView) -> bool {
    exists|i: int|
        0 <= i < rows.len() && #[trigger] rows[i].id == id && row_combination(rows[i]) is Some
            && row_combination(rows[i])->0.attribute.id == c.attribute.id
            && row_combination(rows[i])->0.option == c.option
}

/// Every combination row appears, under its product, as an entry for its attribute.
pub open spec fn covers(acc: Seq<ProductView>, rows: Seq<QueryProductResult>) -> bool {
    &&& forall|i: int| 0 <= i < rows.len() ==> has_product(acc, #[trigger] rows[i].id)
    &&& forall|i: int, k: int|
        0 <= i < rows.len() && 0 <= k < acc.len() && #[trigger] rows[i].id == #[trigger] acc[k].id
            && row_combination(rows[i]) is Some
            ==> has_attribute(acc[k].combinations, row_combination(rows[i])->0.attribute.id)
}

/// Every entry comes from a row of its product.
pub open spec fn sourced(acc: Seq<ProductView>, rows: Seq<QueryProductResult>) -> bool {
    forall|k: int, j: int|
        0 <= k < acc.len() && 0 <= j < acc[k].combinations.len()
            ==> sourced_by(rows, acc[k].id, #[trigger] acc[k].combinations[j])
}

proof fn lemma_merge_facts(cs: Seq<CombinationView>, c: CombinationView)
    ensures
        has_attribute(merge_combination(cs, c), c.attribute.id),
        forall|a: Uuid| has_attribute(cs, a) ==> has_attribute(merge_combination(cs, c), a),
        cs.len() <= merge_combination(cs, c).len(),
        forall|j: int| 0 <= j < merge_combination(cs, c).len() ==>
            (j < cs.len() && #[trigger] merge_combination(cs, c)[j] == cs[j])
            || (merge_combination(cs, c)[j].attribute.id == c.attribute.id
                && merge_combination(cs, c)[j].option == c.option),
{
    let m = merge_combination(cs, c);
    if has_attribute(cs, c.attribute.id) {
        let jj = attribute_index(cs, c.attribute.id);
        assert(m[jj].attribute.id == c.attribute.id);
        assert forall|a: Uuid| has_attribute(cs, a) implies has_attribute(m, a) by {
            let w = choose|j: int| 0 <= j < cs.len() && cs[j].attribute.id == a;
            assert(m[w].attribute.id == a);
        }
    } else {
        assert(m[cs.len() as int] == c);
        assert forall|a: Uuid| has_attribute(cs, a) implies has_attribute(m, a) by {
            let w = choose|j: int| 0 <= j < cs.len() && cs[j].attribute.id == a;
            assert(m[w].attribute.id == a);
        }
    }
}

proof fn lemma_add_row_laws(acc: Seq<ProductView>, rows: Seq<QueryProductResult>, r: QueryProductResult)
    requires
        well_grouped(acc),
        product_ids(acc) == distinct_product_ids(rows),
        covers(acc, rows),
        sourced(acc, rows),
    ensures
        product_ids(add_row(acc, r)) == distinct_product_ids(rows.push(r)),
        covers(add_row(acc, r), rows.push(r)),
        sourced(add_row(acc, r), rows.push(r)),
{
    let rows2 = rows.push(r);
    assert(rows2.drop_last() =~= rows);
    assert(rows2.last() == r);
    let acc2 = add_row(acc, r);
    lemma_add_row_grouped(acc, r);
    let opened = if has_product(acc, r.id) { acc } else { acc.push(first_view(r)) };
    assert(has_product(opened, r.id)) by {
        if !has_product(acc, r.id) {
            assert(opened[acc.len() as int].id == r.id);
        }
    }
    let idx = product_index(opened, r.id);
    assert(well_grouped(opened));
    // ids
    assert(distinct_product_ids(rows).contains(r.id) <==> has_product(acc, r.id)) by {
        if has_product(acc, r.id) {
            let k = choose|k: int| 0 <= k < acc.len() && acc[k].id == r.id;
            assert(product_ids(acc)[k] == r.id);
        }
        if distinct_product_ids(rows).contains(r.id) {
            let k = choose|k: int| 0 <= k < product_ids(acc).len() && product_ids(acc)[k] == r.id;
            assert(acc[k].id == r.id);
        }
    }
    assert(product_ids(acc2) =~= distinct_product_ids(rows2)) by {
        assert(product_ids(opened) =~= distinct_product_ids(rows2));
        assert(acc2.len() == opened.len());
        assert forall|k: int| 0 <= k < acc2.len() implies acc2[k].id == opened[k].id by {}
    }
    assert(acc2.len() == opened.len());
    assert(forall|k: int| 0 <= k < acc2.len() ==> #[trigger] acc2[k].id == opened[k].id);
    assert(acc2[idx].id == r.id);
    // the entries other than idx are those of opened
    assert(forall|k: int| 0 <= k < acc2.len() && k != idx ==> #[trigger] acc2[k] == opened[k]);
    if let Some(c) = row_combination(r) {
        lemma_merge_facts(opened[idx].combinations, c);
        assert(acc2[idx].combinations == merge_combination(opened[idx].combinations, c));
    } else {
        assert(acc2 == opened);
    }
    // covers
    assert forall|i: int| 0 <= i < rows2.len() implies has_product(acc2, #[trigger] rows2[i].id) by {
        if i < rows.len() {
            assert(rows2[i] == rows[i]);
            let k = choose|k: int| 0 <= k < acc.len() && acc[k].id == rows[i].id;
            assert(opened[k] == acc[k]);
            assert(acc2[k].id == rows2[i].id);
        } else {
            assert(acc2[idx].id == rows2[i].id);
        }
    }
    assert forall|i: int, k: int|
        0 <= i < rows2.len() && 0 <= k < acc2.len() && #[trigger] rows2[i].id == #[trigger] acc2[k].id
            && row_combination(rows2[i]) is Some
        implies has_attribute(acc2[k].combinations, row_combination(rows2[i])->0.attribute.id) by {
        let a = row_combination(rows2[i])->0.attribute.id;
        if i < rows.len() {
            assert(rows2[i] == rows[i]);
            assert(k < acc.len()) by {
                if k >= acc.len() {
                    assert(opened[k] == first_view(r));
                    assert(!has_product(acc, r.id));
                    assert(has_product(acc, rows[i].id));
                }
            }
            assert(opened[k] == acc[k]);
            assert(has_attribute(acc[k].combinations, a));
            if k != idx {
            } else {
                if let Some(c) = row_combination(r) {
                    assert(has_attribute(opened[idx].combinations, a));
                }
            }
        } else {
            assert(rows2[i] == r);
            assert(k == idx) by {
                if k != idx {
                    if k < idx {
                        assert(acc2[k].id != acc2[idx].id);
                    } else {
                        assert(acc2[idx].id != acc2[k].id);
                    }
                }
            }
        }
    }
    // sourced
    assert forall|k: int, j: int|
        0 <= k < acc2.len() && 0 <= j < acc2[k].combinations.len()
        implies sourced_by(rows2, acc2[k].id, #[trigger] acc2[k].combinations[j]) by {
        let e = acc2[k].combinations[j];
        let old_entry = k < acc.len() && j < acc[k].combinations.len() && e == acc[k].combinations[j];
        if old_entry {
            assert(opened[k] == acc[k]);
            assert(sourced_by(rows, acc[k].id, e));
            let i = choose|i: int|
                0 <= i < rows.len() && #[trigger] rows[i].id == acc[k].id && row_combination(rows[i]) is Some
                    && row_combination(rows[i])->0.attribute.id == e.attribute.id
                    && row_combination(rows[i])->0.option == e.option;
            assert(rows2[i] == rows[i]);
        } else {
            assert(k == idx) by {
                if k != idx {
                    assert(acc2[k] == opened[k]);
                    if k >= acc.len() {
                        assert(opened[k] == first_view(r));
                    }
                }
            }
            let c = row_combination(r)->0;
            assert(row_combination(r) is Some) by {
                if row_combination(r) is None {
                    if k >= acc.len() {
                        assert(opened[k] == first_view(r));
                    }
                }
            }
            assert(e.attribute.id == c.attribute.id && e.option == c.option) by {
                if k >= acc.len() {
                    assert(opened[k] == first_view(r));
                }
            }
            assert(rows2[rows.len() as int] == r);
        }
    }
}

/// Grouping correctness of the product listing: with K distinct product ids
/// among the rows there are exactly K products, in order of first appearance,
/// no two with the same id; within each, attribute ids are unique; every
/// combination row shows up under its product as an entry for its attribute,
/// and every entry carries the attribute and option of a row of that product.
pub proof fn lemma_grouping_correct(rows: Seq<QueryProductResult>)
    ensures
        product_ids(aggregate_products(rows)) == distinct_product_ids(rows),
        aggregate_products(rows).len() == distinct_product_ids(rows).len(),
        well_grouped(aggregate_products(rows)),
        covers(aggregate_products(rows), rows),
        sourced(aggregate_products(rows), rows),
    decreases rows.len(),
{
    lemma_aggregate_grouped(rows);
    if rows.len() > 0 {
        let prev = rows.drop_last();
        lemma_grouping_correct(prev);
        lemma_add_row_laws(aggregate_products(prev), prev, rows.last());
        assert(prev.push(rows.last()) =~= rows);
    } else {
        assert(product_ids(aggregate_products(rows)) =~= distinct_product_ids(rows));
    }
}

/// The combination a row contributes, as a value.
fn combination_of_row(r: &QueryProductResult) -> (c: Option<AttributeWithOptionDTO>)
    ensures
        match c {
            Some(c) => row_combination(*r) == Some(c@),
            None => row_combination(*r) is None,
        },
{
    if !r.is_product_variant {
        return None;
    }
    match (&r.attribute_id, &r.attribute_name, &r.attribute_option_id, &r.attribute_option_value) {
        (Some(aid), Some(aname), Some(oid), Some(ovalue)) => Some(AttributeWithOptionDTO {
            attribute: AttributeRef { id: *aid, name: aname.clone() },
            option: OptionRef { id: *oid, value: ovalue.clone() },
        }),
        _ => None,
    }
}

/// Rows shaped like the product join: a variant row that names an attribute
/// also carries the attribute's name and the option's id and value.
pub open spec fn join_shaped(rows: Seq<QueryProductResult>) -> bool {
    forall|i: int|
        0 <= i < rows.len() && (#[trigger] rows[i]).is_product_variant && rows[i].attribute_id is Some
            ==> rows[i].attribute_name is Some && rows[i].attribute_option_id is Some
            && rows[i].attribute_option_value is Some
}

/// Some variant row of product `id` names attribute `a`.
pub open spec fn row_names_attribute(rows: Seq<QueryProductResult>, id: Uuid, a: Uuid) -> bool {
    exists|i: int|
        0 <= i < rows.len() && #[trigger] rows[i].id == id && rows[i].is_product_variant && rows[i].attribute_id == Some(a)
}

/// For join-shaped rows, the attributes of each grouped product are exactly
/// those that the variant rows of that product name.
pub proof fn lemma_grouped_attribute_sets(rows: Seq<QueryProductResult>)
    requires
        join_shaped(rows),
    ensures
        forall|k: int, a: Uuid| 0 <= k < aggregate_products(rows).len() ==>
            (#[trigger] has_attribute(aggregate_products(rows)[k].combinations, a)
                <==> row_names_attribute(rows, aggregate_products(rows)[k].id, a)),
{
    lemma_grouping_correct(rows);
    let agg = aggregate_products(rows);
    assert forall|k: int, a: Uuid| 0 <= k < agg.len() implies
        (#[trigger] has_attribute(agg[k].combinations, a) <==> row_names_attribute(rows, agg[k].id, a)) by {
        if has_attribute(agg[k].combinations, a) {
            let j = choose|j: int| 0 <= j < agg[k].combinations.len() && agg[k].combinations[j].attribute.id == a;
            assert(sourced_by(rows, agg[k].id, agg[k].combinations[j]));
            let i = choose|i: int|
                0 <= i < rows.len() && #[trigger] rows[i].id == agg[k].id && row_combination(rows[i]) is Some
                    && row_combination(rows[i])->0.attribute.id == agg[k].combinations[j].attribute.id
                    && row_combination(rows[i])->0.option == agg[k].combinations[j].option;
            assert(rows[i].attribute_id == Some(a));
        }
        if row_names_attribute(rows, agg[k].id, a) {
            let i = choose|i: int|
                0 <= i < rows.len() && #[trigger] rows[i].id == agg[k].id && rows[i].is_product_variant
                    && rows[i].attribute_id == Some(a);
            assert(row_combination(rows[i]) is Some);
            assert(rows[i].id == agg[k].id);
        }
    }
}

impl ProductDTO {
    /// Records that the product takes `c.option` for `c.attribute`: the option
    /// of an entry for that attribute is replaced, else `c` is appended.
    pub fn add_combination(&mut self, c: AttributeWithOptionDTO)
        requires
            unique_attribute_ids(old(self)@.combinations),
        ensures
            final(self)@ == (ProductView {
                combinations: merge_combination(old(self)@.combinations, c@),
                ..old(self)@
            }),
    {
        let ghost cs = self@.combinations;
        assert(unique_attribute_ids(cs));
        let mut j: usize = 0;
        while j < self.combinations.len()
            invariant
                j <= self.combinations@.len(),
                *self == *old(self),
                self@.combinations == cs,
                unique_attribute_ids(cs),
                forall|i: int| 0 <= i < j ==> cs[i].attribute.id != c.attribute.id,
            decreases self.combinations@.len() - j,
        {
            if self.combinations[j].attribute.id == c.attribute.id {
                let attribute = self.combinations[j].attribute.copy();
                let entry = AttributeWithOptionDTO { attribute, option: c.option };
                let ghost e = entry@;
                self.combinations.set(j, entry);
                proof {
                    assert(cs[j as int].attribute.id == c@.attribute.id);
                    assert(has_attribute(cs, c@.attribute.id));
                    let k = attribute_index(cs, c@.attribute.id);
                    assert(cs[k].attribute.id == c@.attribute.id);
                    if k < j as int {
                        assert(cs[k].attribute.id != cs[j as int].attribute.id);
                    } else if k > j as int {
                        assert(unique_attribute_ids(cs));
                        assert(cs[j as int].attribute.id != cs[k].attribute.id);
                    }
                    assert(k == j as int);
                    assert(combination_views(self.combinations@) =~= cs.update(k, e));
                }
                return;
            }
            j += 1;
        }
        let ghost e = c@;
        self.combinations.push(c);
        proof {
            assert(!has_attribute(cs, e.attribute.id));
            assert(combination_views(self.combinations@) =~= cs.push(e));
        }
    }
}

/// Groups the flat rows of a product listing by product id, in the order in
/// which each id first appears. Each product keeps the name and variant flag
/// of its first row and one combination per attribute, whose option is that
/// of the last row naming the attribute.
pub fn group_product_rows(rows: &Vec<QueryProductResult>) -> (r: Vec<ProductDTO>)
    ensures
        product_views(r@) == aggregate_products(rows@),
{
    let mut out: Vec<ProductDTO> = Vec::new();
    let mut i: usize = 0;
    while i < rows.len()
        invariant
            i <= rows@.len(),
            product_views(out@) == aggregate_products(rows@.take(i as int)),
            well_grouped(product_views(out@)),
        decreases rows@.len() - i,
    {
        let row = &rows[i];
        let ghost acc = product_views(out@);
        proof {
            assert(rows@.take(i as int + 1).drop_last() =~= rows@.take(i as int));
            assert(rows@.take(i as int + 1).last() == rows@[i as int]);
        }
        let k = match position_of(&out, row.id) {
            Some(k) => {
                assert(acc[k as int].id == row.id);
                k
            },
            None => {
                proof {
                    assert(!has_product(acc, row.id)) by {
                        if has_product(acc, row.id) {
                            let w = choose|w: int| 0 <= w < acc.len() && acc[w].id == row.id;
                            assert(keys(out@)[w] == row.id);
                        }
                    }
                }
                let name = match &row.name {
                    Some(n) => Some(n.clone()),
                    None => None,
                };
                let fresh = ProductDTO {
                    id: row.id,
                    name,
                    is_product_variant: row.is_product_variant,
                    combinations: Vec::new(),
                };
                proof {
                    assert(combination_views(fresh.combinations@) =~= Seq::empty());
                    assert(text_view(fresh.name) == text_view(row.name));
                    assert(fresh@ == first_view(*row));
                }
                out.push(fresh);
                proof {
                    assert(product_views(out@) =~= acc.push(first_view(*row)));
                }
                out.len() - 1
            },
        };
        let ghost opened = product_views(out@);
        proof {
            assert(opened[k as int].id == row.id);
            assert(well_grouped(opened));
            assert(product_index(opened, row.id) == k as int);
        }
        match combination_of_row(row) {
            Some(c) => {
                let ghost cv = c@;
                out[k].add_combination(c);
                proof {
                    assert(product_views(out@) =~= opened.update(
                        k as int,
                        ProductView { combinations: merge_combination(opened[k as int].combinations, cv), ..opened[k as int] },
                    ));
                }
            },
            None => {},
        }
        proof {
            lemma_add_row_grouped(acc, *row);
        }
        i += 1;
    }
    proof {
        assert(rows@.take(rows@.len() as int) =~= rows@);
    }
    out
}

} // verus!
