use vstd::prelude::*;
use crate::catalog::{distinct, product_ids, Catalog};
use crate::model::{Attribute, AttributeOptionRow, Product, ProductCombination, ProductTemplate, Uuid};
use crate::pagination::{page_of, PageWindow};
use crate::product::{join_shaped, aggregate_products, distinct_product_ids, lemma_grouping_correct, QueryProductResult};

verus! {

/// The name of the template with this id, if one is stored.
pub open spec fn template_name(ts: Seq<ProductTemplate>, id: Uuid) -> Option<String>
    decreases ts.len(),
{
    if ts.len() == 0 {
        None
    } else if ts.last().id == id {
        Some(ts.last().name)
    } else {
        template_name(ts.drop_last(), id)
    }
}

/// The option with this id, if one is stored.
pub open spec fn option_by_id(os: Seq<AttributeOptionRow>, id: Uuid) -> Option<AttributeOptionRow>
    decreases os.len(),
{
    if os.len() == 0 {
        None
    } else if os.last().id == id {
        Some(os.last())
    } else {
        option_by_id(os.drop_last(), id)
    }
}

/// The attribute with this id, if one is stored.
pub open spec fn attribute_by_id(attrs: Seq<Attribute>, id: Uuid) -> Option<Attribute>
    decreases attrs.len(),
{
    if attrs.len() == 0 {
        None
    } else if attrs.last().id == id {
        Some(attrs.last())
    } else {
        attribute_by_id(attrs.drop_last(), id)
    }
}

/// The joined row of product `p` and one of its combinations: the option
/// and its attribute where they are stored, empty columns where not.
pub open spec fn combination_row(db: Catalog, p: Product, c: ProductCombination) -> QueryProductResult {
    let o = option_by_id(db.attribute_options@, c.attribute_option_id);
    let a = match o {
        Some(o) => attribute_by_id(db.attributes@, o.attribute_id),
        None => None,
    };
    QueryProductResult {
        id: p.id,
        name: template_name(db.product_templates@, p.product_template_id),
        is_product_variant: p.is_product_variant,
        product_template_id: Some(p.product_template_id),
        attribute_id: match a {
            Some(a) => Some(a.id),
            None => None,
        },
        attribute_name: match a {
            Some(a) => Some(a.name),
            None => None,
        },
        attribute_option_id: match o {
            Some(o) => Some(o.id),
            None => None,
        },
        attribute_option_value: match o {
            Some(o) => Some(o.value),
            None => None,
        },
    }
}

/// The joined rows of product `p` with those of `cs` that belong to it, in order.
pub open spec fn combination_join(db: Catalog, p: Product, cs: Seq<ProductCombination>) -> Seq<QueryProductResult>
    decreases cs.len(),
{
    if cs.len() == 0 {
        Seq::empty()
    } else {
        let prev = combination_join(db, p, cs.drop_last());
        if cs.last().product_id == p.id {
            prev.push(combination_row(db, p, cs.last()))
        } else {
            prev
        }
    }
}

/// The row of a product without combinations.
pub open spec fn bare_row(db: Catalog, p: Product) -> QueryProductResult {
    QueryProductResult {
        id: p.id,
        name: template_name(db.product_templates@, p.product_template_id),
        is_product_variant: p.is_product_variant,
        product_template_id: Some(p.product_template_id),
        attribute_id: None,
        attribute_name: None,
        attribute_option_id: None,
        attribute_option_value: None,
    }
}

/// The left join of one product with its template, combinations, options and attributes.
pub open spec fn rows_for_product(db: Catalog, p: Product) -> Seq<QueryProductResult> {
    if combination_join(db, p, db.product_combinations@).len() == 0 {
        seq![bare_row(db, p)]
    } else {
        combination_join(db, p, db.product_combinations@)
    }
}

/// The left join of products, product by product.
pub open spec fn product_join(db: Catalog, ps: Seq<Product>) -> Seq<QueryProductResult>
    decreases ps.len(),
{
    if ps.len() == 0 {
        Seq::empty()
    } else {
        product_join(db, ps.drop_last()) + rows_for_product(db, ps.last())
    }
}

proof fn lemma_rows_for_product(db: Catalog, p: Product)
    ensures
        rows_for_product(db, p).len() > 0,
        forall|i: int| 0 <= i < rows_for_product(db, p).len() ==> (#[trigger] rows_for_product(db, p)[i]).id == p.id,
{
    lemma_combination_join_ids(db, p, db.product_combinations@);
}

proof fn lemma_combination_join_ids(db: Catalog, p: Product, cs: Seq<ProductCombination>)
    ensures
        forall|i: int| 0 <= i < combination_join(db, p, cs).len() ==> (#[trigger] combination_join(db, p, cs)[i]).id == p.id,
    decreases cs.len(),
{
    if cs.len() > 0 {
        lemma_combination_join_ids(db, p, cs.drop_last());
    }
}

proof fn lemma_product_ids_of_block(x: Seq<QueryProductResult>, y: Seq<QueryProductResult>, c: Uuid)
    requires
        y.len() > 0,
        forall|i: int| 0 <= i < y.len() ==> (#[trigger] y[i]).id == c,
        !distinct_product_ids(x).contains(c),
    ensures
        distinct_product_ids(x + y) == distinct_product_ids(x).push(c),
    decreases y.len(),
{
    assert((x + y).drop_last() =~= x + y.drop_last());
    assert((x + y).last() == y.last());
    if y.len() == 1 {
        assert(x + y.drop_last() =~= x);
    } else {
        lemma_product_ids_of_block(x, y.drop_last(), c);
        assert(distinct_product_ids(x).push(c)[distinct_product_ids(x).len() as int] == c);
    }
}

proof fn lemma_product_join_ids(db: Catalog, ps: Seq<Product>)
    requires
        distinct(product_ids(ps)),
    ensures
        distinct_product_ids(product_join(db, ps)) == product_ids(ps),
    decreases ps.len(),
{
    if ps.len() == 0 {
        assert(product_ids(ps) =~= Seq::<Uuid>::empty());
    } else {
        let prev = ps.drop_last();
        let p = ps.last();
        assert(product_ids(ps) =~= product_ids(prev).push(p.id));
        assert forall|a: int, b: int| 0 <= a < b < product_ids(prev).len()
            implies product_ids(prev)[a] != product_ids(prev)[b] by {
            assert(product_ids(prev)[a] == product_ids(ps)[a]);
            assert(product_ids(prev)[b] == product_ids(ps)[b]);
        }
        assert(!product_ids(prev).contains(p.id)) by {
            if product_ids(prev).contains(p.id) {
                let w = choose|w: int| 0 <= w < product_ids(prev).len() && product_ids(prev)[w] == p.id;
                assert(product_ids(ps)[w] == product_ids(ps)[prev.len() as int]);
            }
        }
        lemma_product_join_ids(db, prev);
        lemma_rows_for_product(db, p);
        lemma_product_ids_of_block(product_join(db, prev), rows_for_product(db, p), p.id);
    }
}

/// Paging products before joining keeps each product whole: grouping the
/// joined rows of products with distinct ids gives exactly those products,
/// in order (and, by the grouping law, each with all of its combinations).
pub proof fn lemma_product_page(db: Catalog, ps: Seq<Product>)
    requires
        distinct(product_ids(ps)),
    ensures
        crate::product::product_ids(aggregate_products(product_join(db, ps))) == product_ids(ps),
{
    lemma_product_join_ids(db, ps);
    lemma_grouping_correct(product_join(db, ps));
}

proof fn lemma_combination_join_shaped(db: Catalog, p: Product, cs: Seq<ProductCombination>)
    ensures
        join_shaped(combination_join(db, p, cs)),
    decreases cs.len(),
{
    if cs.len() > 0 {
        lemma_combination_join_shaped(db, p, cs.drop_last());
        let prev = combination_join(db, p, cs.drop_last());
        if cs.last().product_id == p.id {
            let row = combination_row(db, p, cs.last());
            assert forall|i: int| 0 <= i < prev.push(row).len() && (#[trigger] prev.push(row)[i]).is_product_variant
                && prev.push(row)[i].attribute_id is Some implies prev.push(row)[i].attribute_name is Some
                && prev.push(row)[i].attribute_option_id is Some && prev.push(row)[i].attribute_option_value is Some by {
                if i < prev.len() {
                    assert(prev.push(row)[i] == prev[i]);
                }
            }
        }
    }
}

/// The rows of the store's product join are join-shaped, so the grouping
/// law on attribute sets applies to them.
pub proof fn lemma_product_join_shaped(db: Catalog, ps: Seq<Product>)
    ensures
        join_shaped(product_join(db, ps)),
    decreases ps.len(),
{
    if ps.len() > 0 {
        lemma_product_join_shaped(db, ps.drop_last());
        lemma_combination_join_shaped(db, ps.last(), db.product_combinations@);
        let x = product_join(db, ps.drop_last());
        let y = rows_for_product(db, ps.last());
        assert forall|i: int| 0 <= i < (x + y).len() && (#[trigger] (x + y)[i]).is_product_variant
            && (x + y)[i].attribute_id is Some implies (x + y)[i].attribute_name is Some
            && (x + y)[i].attribute_option_id is Some && (x + y)[i].attribute_option_value is Some by {
            if i < x.len() {
                assert((x + y)[i] == x[i]);
            } else {
                assert((x + y)[i] == y[i - x.len()]);
            }
        }
    }
}

fn template_name_of(ts: &Vec<ProductTemplate>, id: Uuid) -> (r: Option<String>)
    ensures
        r == template_name(ts@, id),
{
    let mut i: usize = ts.len();
    assert(ts@.take(ts@.len() as int) =~= ts@);
    while i > 0
        invariant
            i <= ts@.len(),
            template_name(ts@, id) == template_name(ts@.take(i as int), id),
        decreases i,
    {
        proof {
            assert(ts@.take(i as int).drop_last() =~= ts@.take(i as int - 1));
            assert(ts@.take(i as int).last() == ts@[i as int - 1]);
        }
        if ts[i - 1].id == id {
            return Some(ts[i - 1].name.clone());
        }
        i -= 1;
    }
    None
}

fn option_of(os: &Vec<AttributeOptionRow>, id: Uuid) -> (r: Option<usize>)
    ensures
        match r {
            Some(k) => k < os@.len() && option_by_id(os@, id) == Some(os@[k as int]),
            None => option_by_id(os@, id) is None,
        },
{
    let mut i: usize = os.len();
    assert(os@.take(os@.len() as int) =~= os@);
    while i > 0
        invariant
            i <= os@.len(),
            option_by_id(os@, id) == option_by_id(os@.take(i as int), id),
        decreases i,
    {
        proof {
            assert(os@.take(i as int).drop_last() =~= os@.take(i as int - 1));
            assert(os@.take(i as int).last() == os@[i as int - 1]);
        }
        if os[i - 1].id == id {
            return Some(i - 1);
        }
        i -= 1;
    }
    None
}

fn attribute_of(attrs: &Vec<Attribute>, id: Uuid) -> (r: Option<usize>)
    ensures
        match r {
            Some(k) => k < attrs@.len() && attribute_by_id(attrs@, id) == Some(attrs@[k as int]),
            None => attribute_by_id(attrs@, id) is None,
        },
{
    let mut i: usize = attrs.len();
    assert(attrs@.take(attrs@.len() as int) =~= attrs@);
    while i > 0
        invariant
            i <= attrs@.len(),
            attribute_by_id(attrs@, id) == attribute_by_id(attrs@.take(i as int), id),
        decreases i,
    {
        proof {
            assert(attrs@.take(i as int).drop_last() =~= attrs@.take(i as int - 1));
            assert(attrs@.take(i as int).last() == attrs@[i as int - 1]);
        }
        if attrs[i - 1].id == id {
            return Some(i - 1);
        }
        i -= 1;
    }
    None
}

fn clone_name(s: &Option<String>) -> (r: Option<String>)
    ensures
        r == *s,
{
    match s {
        Some(n) => Some(n.clone()),
        None => None,
    }
}

impl Catalog {
    /// The joined row of product `p` and combination `c`.
    fn combination_row_of(&self, p: &Product, c: &ProductCombination, name: &Option<String>) -> (r: QueryProductResult)
        requires
            *name == template_name(self.product_templates@, p.product_template_id),
        ensures
            r == combination_row(*self, *p, *c),
    {
        let (attribute_id, attribute_name, option_id, option_value) = match option_of(&self.attribute_options, c.attribute_option_id) {
            Some(k) => {
                let o = &self.attribute_options[k];
                match attribute_of(&self.attributes, o.attribute_id) {
                    Some(j) => (
                        Some(self.attributes[j].id),
                        Some(self.attributes[j].name.clone()),
                        Some(o.id),
                        Some(o.value.clone()),
                    ),
                    None => (None, None, Some(o.id), Some(o.value.clone())),
                }
            },
            None => (None, None, None, None),
        };
        QueryProductResult {
            id: p.id,
            name: clone_name(name),
            is_product_variant: p.is_product_variant,
            product_template_id: Some(p.product_template_id),
            attribute_id,
            attribute_name,
            attribute_option_id: option_id,
            attribute_option_value: option_value,
        }
    }

    /// The rows of one page of the product listing: the products that the
    /// window covers, in table order, each left-joined with its template's
    /// name and with its combinations, their options and attributes.
    pub fn product_page_rows(&self, window: PageWindow) -> (r: Vec<QueryProductResult>)
        ensures
            r@ == product_join(*self, page_of(self.products@, window)),
    {
        let len = self.products.len();
        let start: usize = if (window.offset as u128) < (len as u128) { window.offset as usize } else { len };
        let end: usize = if (window.offset as u128) + (window.limit as u128) < (len as u128) {
            (window.offset + window.limit) as usize
        } else {
            len
        };
        let ghost page = page_of(self.products@, window);
        assert(page == self.products@.subrange(start as int, end as int));
        let mut out: Vec<QueryProductResult> = Vec::new();
        let mut i: usize = start;
        while i < end
            invariant
                start <= i <= end,
                end <= self.products@.len(),
                page == self.products@.subrange(start as int, end as int),
                out@ == product_join(*self, self.products@.subrange(start as int, i as int)),
            decreases end - i,
        {
            let p = &self.products[i];
            let name = template_name_of(&self.product_templates, p.product_template_id);
            let mut mine: Vec<QueryProductResult> = Vec::new();
            let mut j: usize = 0;
            while j < self.product_combinations.len()
                invariant
                    j <= self.product_combinations@.len(),
                    name == template_name(self.product_templates@, p.product_template_id),
                    mine@ == combination_join(*self, *p, self.product_combinations@.take(j as int)),
                decreases self.product_combinations@.len() - j,
            {
                let c = &self.product_combinations[j];
                proof {
                    assert(self.product_combinations@.take(j as int + 1).drop_last()
                        =~= self.product_combinations@.take(j as int));
                    assert(self.product_combinations@.take(j as int + 1).last() == *c);
                }
                if c.product_id == p.id {
                    mine.push(self.combination_row_of(p, c, &name));
                }
                j += 1;
            }
            proof {
                assert(self.product_combinations@.take(self.product_combinations@.len() as int)
                    =~= self.product_combinations@);
                assert(self.products@.subrange(start as int, i as int + 1).drop_last()
                    =~= self.products@.subrange(start as int, i as int));
                assert(self.products@.subrange(start as int, i as int + 1).last() == *p);
            }
            let ghost before = out@;
            if mine.len() == 0 {
                out.push(QueryProductResult {
                    id: p.id,
                    name,
                    is_product_variant: p.is_product_variant,
                    product_template_id: Some(p.product_template_id),
                    attribute_id: None,
                    attribute_name: None,
                    attribute_option_id: None,
                    attribute_option_value: None,
                });
                proof {
                    assert(out@ =~= before + rows_for_product(*self, *p));
                }
            } else {
                out.append(&mut mine);
                proof {
                    assert(out@ =~= before + rows_for_product(*self, *p));
                }
            }
            i += 1;
        }
        out
    }
}

} // verus!
