use vstd::prelude::*;
use crate::catalog::{
    all_in, lemma_all_in_concat, lemma_all_in_grow, lemma_included_concat, lemma_included_push, option_refs, product_refs,
    template_refs, uom_refs, any_taken, category_ids, contains_id, key_list, distinct, ids_distinct, option_ids, product_ids, template_ids, uom_ids, Catalog,
};
use crate::error::{StorageFailure, TransactionFailure};
use crate::model::{
    AttributeRef, Decimal, OptionRef, Product, ProductCombination, ProductSubtype, ProductTemplate, ProductType,
    Timestamp, Uuid,
};

verus! {

/// One choice of a variant: an attribute and the option taken for it.
#[derive(Clone, Debug)]
pub struct VariantAttributeOption {
    pub attribute: AttributeRef,
    pub option: OptionRef,
}

/// One variant to create: its price and its chosen options.
#[derive(Clone, Debug)]
pub struct Variant {
    pub price: Decimal,
    pub attribute_options: Vec<VariantAttributeOption>,
}

/// A request to create a product template with its product or variants.
#[derive(Clone, Debug)]
pub struct CreateProductUsecase {
    pub name: String,
    pub product_type: ProductType,
    pub product_subtype: ProductSubtype,
    pub is_track_inventory: bool,
    pub price: Decimal,
    pub cost: Decimal,
    pub uom_id: Uuid,
    pub category_id: Option<Uuid>,
    pub create_corresponding_moulds: bool,
    pub is_multiple_variants: bool,
    pub variants: Vec<Variant>,
}

pub type CreateProductPayload = CreateProductUsecase;

#[derive(Clone, Copy, Debug, PartialEq, Eq, Structural)]
pub enum CreateProductError {
    InternalServerError(TransactionFailure),
}

/// The rows that creating a template writes, in one transaction.
#[derive(Clone, Debug)]
pub struct ProductCreation {
    pub template: ProductTemplate,
    pub products: Vec<Product>,
    pub combinations: Vec<ProductCombination>,
}

/// How many products a request creates: one per variant, or a single one.
pub open spec fn product_count(u: CreateProductUsecase) -> nat {
    if u.is_multiple_variants {
        u.variants@.len()
    } else {
        1
    }
}

/// The template row of a request: no description, not yet updated.
pub open spec fn is_planned_template(t: ProductTemplate, u: CreateProductUsecase, id: Uuid, now: Timestamp) -> bool {
    &&& t.id == id
    &&& t.name == u.name
    &&& t.description@ == Seq::<char>::empty()
    &&& t.uom_id == u.uom_id
    &&& t.category_id == u.category_id
    &&& t.product_type == u.product_type
    &&& t.product_subtype == u.product_subtype
    &&& t.is_track_inventory == u.is_track_inventory
    &&& t.created_at == now
    &&& t.updated_at is None
}

/// The `i`-th product row of a request: a variant at the variant's price, or
/// the single non-variant product at the request's price; the cost is shared.
pub open spec fn planned_product(
    u: CreateProductUsecase,
    template_id: Uuid,
    ids: Seq<Uuid>,
    now: Timestamp,
    i: int,
) -> Product {
    Product {
        id: ids[i],
        product_template_id: template_id,
        price: if u.is_multiple_variants { u.variants@[i].price } else { u.price },
        cost: u.cost,
        is_product_variant: u.is_multiple_variants,
        created_at: now,
        updated_at: None,
    }
}

pub open spec fn planned_products(u: CreateProductUsecase, template_id: Uuid, ids: Seq<Uuid>, now: Timestamp) -> Seq<Product> {
    Seq::new(product_count(u), |i: int| planned_product(u, template_id, ids, now, i))
}

/// One combination row per chosen option of a variant.
pub open spec fn variant_combinations(product_id: Uuid, v: Variant) -> Seq<ProductCombination> {
    v.attribute_options@.map_values(
        |o: VariantAttributeOption| ProductCombination { product_id, attribute_option_id: o.option.id },
    )
}

/// The combination rows of the first `n` variants, variant by variant.
pub open spec fn combinations_upto(u: CreateProductUsecase, ids: Seq<Uuid>, n: nat) -> Seq<ProductCombination>
    decreases n,
{
    if n == 0 {
        Seq::empty()
    } else {
        combinations_upto(u, ids, (n - 1) as nat) + variant_combinations(ids[n - 1], u.variants@[n - 1])
    }
}

/// The combination rows of a request: none for a single product.
pub open spec fn planned_combinations(u: CreateProductUsecase, ids: Seq<Uuid>) -> Seq<ProductCombination> {
    if u.is_multiple_variants {
        combinations_upto(u, ids, u.variants@.len())
    } else {
        Seq::empty()
    }
}

/// The first constraint that writing these rows would break, checked in
/// this order: the template's key, its unit, its category, the products'
/// templates, the products' keys, the options the combinations name, the
/// combinations' products, the combinations' keys.
pub open spec fn creation_failure(
    db: Catalog,
    t: ProductTemplate,
    ps: Seq<Product>,
    cs: Seq<ProductCombination>,
) -> Option<StorageFailure> {
    failure_of(db, t.id, t.uom_id, t.category_id, ps, cs)
}

pub open spec fn failure_of(
    db: Catalog,
    template_id: Uuid,
    uom_id: Uuid,
    category_id: Option<Uuid>,
    ps: Seq<Product>,
    cs: Seq<ProductCombination>,
) -> Option<StorageFailure> {
    if template_ids(db.product_templates@).contains(template_id) {
        Some(StorageFailure::DuplicateKey)
    } else if !uom_ids(db.uoms@).contains(uom_id) {
        Some(StorageFailure::MissingReference)
    } else if category_id is Some && !category_ids(db.categories@).contains(category_id->0) {
        Some(StorageFailure::MissingReference)
    } else if !all_in(template_refs(ps), template_ids(db.product_templates@).push(template_id)) {
        Some(StorageFailure::MissingReference)
    } else if !distinct(product_ids(ps)) || exists|i: int|
        0 <= i < ps.len() && product_ids(db.products@).contains(#[trigger] ps[i].id) {
        Some(StorageFailure::DuplicateKey)
    } else if exists|i: int|
        0 <= i < cs.len() && !option_ids(db.attribute_options@).contains(#[trigger] cs[i].attribute_option_id) {
        Some(StorageFailure::MissingReference)
    } else if !all_in(product_refs(cs), product_ids(db.products@) + product_ids(ps)) {
        Some(StorageFailure::MissingReference)
    } else if !distinct(cs) || exists|i: int| 0 <= i < cs.len() && db.product_combinations@.contains(#[trigger] cs[i]) {
        Some(StorageFailure::DuplicateKey)
    } else {
        None
    }
}

/// The first constraint that the rows of request `u` would break.
pub open spec fn request_failure(db: Catalog, u: CreateProductUsecase, template_id: Uuid, ids: Seq<Uuid>, now: Timestamp) -> Option<StorageFailure> {
    failure_of(db, template_id, u.uom_id, u.category_id, planned_products(u, template_id, ids, now), planned_combinations(u, ids))
}

/// Atomicity when a combination cannot be written: if one combination row
/// of the request names an option that is not stored, or is already stored,
/// the request fails as a whole, so that, by `invoke`'s contract, none of its
/// template, product or combination rows is written.
pub proof fn lemma_failed_combination_writes_nothing(
    db: Catalog,
    u: CreateProductUsecase,
    template_id: Uuid,
    ids: Seq<Uuid>,
    now: Timestamp,
    i: int,
)
    requires
        0 <= i < planned_combinations(u, ids).len(),
        !option_ids(db.attribute_options@).contains(planned_combinations(u, ids)[i].attribute_option_id)
            || db.product_combinations@.contains(planned_combinations(u, ids)[i]),
    ensures
        request_failure(db, u, template_id, ids, now) is Some,
{
    let cs = planned_combinations(u, ids);
    assert(cs[i] == cs[i]);
}

proof fn lemma_combination_owners(u: CreateProductUsecase, ids: Seq<Uuid>, n: nat)
    requires
        n <= u.variants@.len(),
        n <= ids.len(),
    ensures
        forall|k: int| 0 <= k < combinations_upto(u, ids, n).len() ==> exists|j: int|
            0 <= j < n && #[trigger] combinations_upto(u, ids, n)[k].product_id == ids[j]
                && u.variants@[j].attribute_options@.len() > 0,
    decreases n,
{
    if n > 0 {
        let m = (n - 1) as nat;
        lemma_combination_owners(u, ids, m);
        let prev = combinations_upto(u, ids, m);
        let block = variant_combinations(ids[m as int], u.variants@[m as int]);
        assert forall|k: int| 0 <= k < combinations_upto(u, ids, n).len() implies exists|j: int|
            0 <= j < n && #[trigger] combinations_upto(u, ids, n)[k].product_id == ids[j]
                && u.variants@[j].attribute_options@.len() > 0 by {
            if k < prev.len() {
                assert(combinations_upto(u, ids, n)[k] == prev[k]);
                let j = choose|j: int| 0 <= j < m && #[trigger] prev[k].product_id == ids[j]
                    && u.variants@[j].attribute_options@.len() > 0;
                assert(combinations_upto(u, ids, n)[k].product_id == ids[j]);
            } else {
                assert(combinations_upto(u, ids, n)[k] == block[k - prev.len()]);
                assert(block[k - prev.len()].product_id == ids[m as int]);
                assert(combinations_upto(u, ids, n)[k].product_id == ids[m as int]);
            }
        }
    }
}

/// A variant created with no options has no combination row: after a
/// successful creation on a well-formed store, no stored combination names
/// that variant's product (the stored ones name older products, the new
/// ones the products of variants that chose options).
pub proof fn lemma_variant_without_options(
    old_db: Catalog,
    new_db: Catalog,
    u: CreateProductUsecase,
    template_id: Uuid,
    ids: Seq<Uuid>,
    now: Timestamp,
    i: int,
)
    requires
        old_db.wf(),
        u.is_multiple_variants,
        ids.len() == product_count(u),
        0 <= i < u.variants@.len(),
        u.variants@[i].attribute_options@.len() == 0,
        request_failure(old_db, u, template_id, ids, now) is None,
        new_db.product_combinations@ == old_db.product_combinations@ + planned_combinations(u, ids),
    ensures
        forall|k: int| 0 <= k < new_db.product_combinations@.len() ==> (#[trigger] new_db.product_combinations@[k]).product_id != ids[i],
{
    let ps = planned_products(u, template_id, ids, now);
    let olds = old_db.product_combinations@;
    let news = planned_combinations(u, ids);
    assert(ps[i].id == ids[i]);
    assert(!product_ids(old_db.products@).contains(ids[i])) by {
        assert(!product_ids(old_db.products@).contains(ps[i].id));
    }
    lemma_combination_owners(u, ids, u.variants@.len());
    assert forall|k: int| 0 <= k < new_db.product_combinations@.len() implies
        (#[trigger] new_db.product_combinations@[k]).product_id != ids[i] by {
        if k < olds.len() {
            assert(new_db.product_combinations@[k] == olds[k]);
            assert(product_refs(olds)[k] == olds[k].product_id);
        } else {
            let c = news[k - olds.len()];
            assert(new_db.product_combinations@[k] == c);
            let j = choose|j: int| 0 <= j < u.variants@.len() && #[trigger] news[k - olds.len()].product_id == ids[j]
                && u.variants@[j].attribute_options@.len() > 0;
            assert(j != i);
            assert(product_ids(ps)[i] == ids[i] && product_ids(ps)[j] == ids[j]);
            if j < i {
                assert(product_ids(ps)[j] != product_ids(ps)[i]);
            } else {
                assert(product_ids(ps)[i] != product_ids(ps)[j]);
            }
        }
    }
}

/// The store after the rows are written.
pub open spec fn created(old_db: Catalog, new_db: Catalog, t: ProductTemplate, ps: Seq<Product>, cs: Seq<ProductCombination>) -> bool {
    &&& new_db.product_templates@ == old_db.product_templates@.push(t)
    &&& new_db.products@ == old_db.products@ + ps
    &&& new_db.product_combinations@ == old_db.product_combinations@ + cs
    &&& new_db.uoms@ == old_db.uoms@
    &&& new_db.categories@ == old_db.categories@
    &&& new_db.attributes@ == old_db.attributes@
    &&& new_db.attribute_options@ == old_db.attribute_options@
}

fn combination_in(v: &Vec<ProductCombination>, c: ProductCombination) -> (r: bool)
    ensures
        r == v@.contains(c),
{
    let mut i: usize = 0;
    while i < v.len()
        invariant
            i <= v@.len(),
            forall|j: int| 0 <= j < i ==> v@[j] != c,
        decreases v@.len() - i,
    {
        if v[i] == c {
            assert(v@[i as int] == c);
            return true;
        }
        i += 1;
    }
    false
}

fn combinations_distinct(v: &Vec<ProductCombination>) -> (r: bool)
    ensures
        r == distinct(v@),
{
    let mut i: usize = 0;
    while i < v.len()
        invariant
            i <= v@.len(),
            forall|a: int, b: int| 0 <= a < b < v@.len() && a < i ==> v@[a] != v@[b],
        decreases v@.len() - i,
    {
        let mut j: usize = i + 1;
        while j < v.len()
            invariant
                i < v@.len(),
                i + 1 <= j <= v@.len(),
                forall|a: int, b: int| 0 <= a < b < v@.len() && a < i ==> v@[a] != v@[b],
                forall|b: int| i < b < j ==> v@[i as int] != v@[b],
            decreases v@.len() - j,
        {
            if v[i] == v[j] {
                return false;
            }
            j += 1;
        }
        i += 1;
    }
    true
}

/// Whether every reference names one of the ids.
fn refs_known(refs: &Vec<Uuid>, ids: &Vec<Uuid>) -> (r: bool)
    ensures
        r == all_in(refs@, ids@),
{
    let mut i: usize = 0;
    while i < refs.len()
        invariant
            i <= refs@.len(),
            forall|j: int| 0 <= j < i ==> ids@.contains(#[trigger] refs@[j]),
        decreases refs@.len() - i,
    {
        if !contains_id(ids, refs[i]) {
            return false;
        }
        i += 1;
    }
    true
}

fn template_ref_list(ps: &Vec<Product>) -> (r: Vec<Uuid>)
    ensures
        r@ == template_refs(ps@),
{
    let mut r: Vec<Uuid> = Vec::new();
    let mut i: usize = 0;
    while i < ps.len()
        invariant
            i <= ps@.len(),
            r@ =~= template_refs(ps@.take(i as int)),
        decreases ps@.len() - i,
    {
        r.push(ps[i].product_template_id);
        proof {
            assert(template_refs(ps@.take(i as int + 1)) =~= template_refs(ps@.take(i as int)).push(ps@[i as int].product_template_id));
        }
        i += 1;
    }
    assert(ps@.take(ps@.len() as int) =~= ps@);
    r
}

fn product_ref_list(cs: &Vec<ProductCombination>) -> (r: Vec<Uuid>)
    ensures
        r@ == product_refs(cs@),
{
    let mut r: Vec<Uuid> = Vec::new();
    let mut i: usize = 0;
    while i < cs.len()
        invariant
            i <= cs@.len(),
            r@ =~= product_refs(cs@.take(i as int)),
        decreases cs@.len() - i,
    {
        r.push(cs[i].product_id);
        proof {
            assert(product_refs(cs@.take(i as int + 1)) =~= product_refs(cs@.take(i as int)).push(cs@[i as int].product_id));
        }
        i += 1;
    }
    assert(cs@.take(cs@.len() as int) =~= cs@);
    r
}

/// Whether every combination names a known option.
fn all_options_known(options: &Vec<Uuid>, cs: &Vec<ProductCombination>) -> (r: bool)
    ensures
        r == forall|i: int| 0 <= i < cs@.len() ==> options@.contains(#[trigger] cs@[i].attribute_option_id),
{
    let mut i: usize = 0;
    while i < cs.len()
        invariant
            i <= cs@.len(),
            forall|j: int| 0 <= j < i ==> options@.contains(#[trigger] cs@[j].attribute_option_id),
        decreases cs@.len() - i,
    {
        if !contains_id(options, cs[i].attribute_option_id) {
            return false;
        }
        i += 1;
    }
    true
}

/// Whether some combination of `cs` is already stored.
fn any_combination_in(stored: &Vec<ProductCombination>, cs: &Vec<ProductCombination>) -> (r: bool)
    ensures
        r == exists|i: int| 0 <= i < cs@.len() && stored@.contains(#[trigger] cs@[i]),
{
    let mut i: usize = 0;
    while i < cs.len()
        invariant
            i <= cs@.len(),
            forall|j: int| 0 <= j < i ==> !stored@.contains(#[trigger] cs@[j]),
        decreases cs@.len() - i,
    {
        if combination_in(stored, cs[i]) {
            return true;
        }
        i += 1;
    }
    false
}

proof fn lemma_distinct_concat<T>(a: Seq<T>, b: Seq<T>)
    requires
        distinct(a),
        distinct(b),
        forall|i: int| 0 <= i < b.len() ==> !a.contains(#[trigger] b[i]),
    ensures
        distinct(a + b),
{
    assert forall|i: int, j: int| 0 <= i < j < (a + b).len() implies (a + b)[i] != (a + b)[j] by {
        if i < a.len() && j >= a.len() {
            assert(b[j - a.len()] == (a + b)[j]);
            if (a + b)[i] == (a + b)[j] {
                assert(a.contains(b[j - a.len()]));
            }
        }
    }
}

impl Catalog {
    /// Writes a template with its products and their combinations, all or
    /// nothing: when a constraint would break, the store is left as it was.
    pub fn apply_product_creation(&mut self, plan: ProductCreation) -> (r: Result<(), StorageFailure>)
        requires
            old(self).wf(),
        ensures
            final(self).wf(),
            match creation_failure(*old(self), plan.template, plan.products@, plan.combinations@) {
                None => r is Ok && created(*old(self), *final(self), plan.template, plan.products@, plan.combinations@),
                Some(e) => r == Err::<(), StorageFailure>(e) && *final(self) == *old(self),
            },
    {
        let t = &plan.template;
        if contains_id(&key_list(&self.product_templates), t.id) {
            return Err(StorageFailure::DuplicateKey);
        }
        if !contains_id(&key_list(&self.uoms), t.uom_id) {
            return Err(StorageFailure::MissingReference);
        }
        if let Some(c) = t.category_id {
            if !contains_id(&key_list(&self.categories), c) {
                return Err(StorageFailure::MissingReference);
            }
        }
        let mut known_templates = key_list(&self.product_templates);
        known_templates.push(t.id);
        if !refs_known(&template_ref_list(&plan.products), &known_templates) {
            return Err(StorageFailure::MissingReference);
        }
        let new_ids = key_list(&plan.products);
        if !ids_distinct(&new_ids) {
            return Err(StorageFailure::DuplicateKey);
        }
        if any_taken(&key_list(&self.products), &new_ids) {
            return Err(StorageFailure::DuplicateKey);
        }
        proof {
            assert forall|i: int| 0 <= i < plan.products@.len()
                implies !product_ids(self.products@).contains(#[trigger] plan.products@[i].id) by {
                assert(new_ids@[i] == plan.products@[i].id);
            }
        }
        if !all_options_known(&key_list(&self.attribute_options), &plan.combinations) {
            proof {
                let i = choose|i: int| 0 <= i < plan.combinations@.len()
                    && !option_ids(self.attribute_options@).contains(#[trigger] plan.combinations@[i].attribute_option_id);
            }
            return Err(StorageFailure::MissingReference);
        }
        let mut known_products = key_list(&self.products);
        let mut fresh = key_list(&plan.products);
        known_products.append(&mut fresh);
        if !refs_known(&product_ref_list(&plan.combinations), &known_products) {
            return Err(StorageFailure::MissingReference);
        }
        if !combinations_distinct(&plan.combinations) || any_combination_in(&self.product_combinations, &plan.combinations) {
            return Err(StorageFailure::DuplicateKey);
        }
        let ghost old_db = *self;
        let ProductCreation { template, products, combinations } = plan;
        let mut products = products;
        let mut combinations = combinations;
        proof {
            assert(template_ids(old_db.product_templates@.push(template))
                =~= template_ids(old_db.product_templates@).push(template.id));
            lemma_distinct_concat(template_ids(old_db.product_templates@), seq![template.id]);
            assert(template_ids(old_db.product_templates@).push(template.id)
                =~= template_ids(old_db.product_templates@) + seq![template.id]);
            assert(product_ids(old_db.products@ + products@)
                =~= product_ids(old_db.products@) + product_ids(products@));
            lemma_distinct_concat(product_ids(old_db.products@), product_ids(products@));
            lemma_distinct_concat(old_db.product_combinations@, combinations@);
            // references of the new template
            let tids = template_ids(old_db.product_templates@);
            let t2 = tids.push(template.id);
            assert(uom_refs(old_db.product_templates@.push(template)) =~= uom_refs(old_db.product_templates@) + seq![template.uom_id]);
            lemma_all_in_concat(uom_refs(old_db.product_templates@), seq![template.uom_id], uom_ids(old_db.uoms@));
            assert forall|i: int| 0 <= i < old_db.product_templates@.push(template).len()
                && (#[trigger] old_db.product_templates@.push(template)[i]).category_id is Some
                implies category_ids(old_db.categories@).contains(old_db.product_templates@.push(template)[i].category_id->0) by {
                if i < old_db.product_templates@.len() {
                    assert(old_db.product_templates@.push(template)[i] == old_db.product_templates@[i]);
                }
            }
            // references of the new products
            lemma_included_push(tids, template.id);
            lemma_all_in_grow(template_refs(old_db.products@), tids, t2);
            assert(template_refs(old_db.products@ + products@) =~= template_refs(old_db.products@) + template_refs(products@));
            lemma_all_in_concat(template_refs(old_db.products@), template_refs(products@), t2);
            // references of the new combinations
            let pids = product_ids(old_db.products@);
            lemma_included_concat(pids, product_ids(products@));
            lemma_all_in_grow(product_refs(old_db.product_combinations@), pids, pids + product_ids(products@));
            assert(product_refs(old_db.product_combinations@ + combinations@)
                =~= product_refs(old_db.product_combinations@) + product_refs(combinations@));
            lemma_all_in_concat(product_refs(old_db.product_combinations@), product_refs(combinations@), pids + product_ids(products@));
            assert forall|i: int| 0 <= i < option_refs(combinations@).len()
                implies option_ids(old_db.attribute_options@).contains(#[trigger] option_refs(combinations@)[i]) by {
                assert(option_refs(combinations@)[i] == combinations@[i].attribute_option_id);
            }
            assert(option_refs(old_db.product_combinations@ + combinations@)
                =~= option_refs(old_db.product_combinations@) + option_refs(combinations@));
            lemma_all_in_concat(option_refs(old_db.product_combinations@), option_refs(combinations@), option_ids(old_db.attribute_options@));
        }
        self.product_templates.push(template);
        self.products.append(&mut products);
        self.product_combinations.append(&mut combinations);
        Ok(())
    }
}

impl CreateProductUsecase {
    /// How many products this request creates, so many ids it needs.
    pub fn product_count(&self) -> (r: usize)
        ensures
            r == product_count(*self),
    {
        if self.is_multiple_variants {
            self.variants.len()
        } else {
            1
        }
    }

    /// The rows that this request writes: the template; then, with multiple
    /// variants, one variant product per variant at its own price followed by
    /// its combinations; else one non-variant product at the request's price.
    /// `product_ids` gives the new products their ids, in order.
    pub fn plan(&self, template_id: Uuid, product_ids: &Vec<Uuid>, now: Timestamp) -> (r: ProductCreation)
        requires
            product_ids@.len() == product_count(*self),
        ensures
            is_planned_template(r.template, *self, template_id, now),
            r.products@ == planned_products(*self, template_id, product_ids@, now),
            r.combinations@ == planned_combinations(*self, product_ids@),
    {
        let template = ProductTemplate {
            id: template_id,
            name: self.name.clone(),
            description: String::new(),
            uom_id: self.uom_id,
            category_id: self.category_id,
            product_type: self.product_type,
            product_subtype: self.product_subtype,
            is_track_inventory: self.is_track_inventory,
            created_at: now,
            updated_at: None,
        };
        let mut products: Vec<Product> = Vec::new();
        let mut combinations: Vec<ProductCombination> = Vec::new();
        let ghost u = *self;
        if self.is_multiple_variants {
            let mut i: usize = 0;
            while i < self.variants.len()
                invariant
                    u == *self,
                    u.is_multiple_variants,
                    product_ids@.len() == u.variants@.len(),
                    i <= u.variants@.len(),
                    products@.len() == i,
                    forall|j: int| 0 <= j < i ==> products@[j] == planned_product(u, template_id, product_ids@, now, j),
                    combinations@ == combinations_upto(u, product_ids@, i as nat),
                decreases u.variants@.len() - i,
            {
                let variant = &self.variants[i];
                let product_id = product_ids[i];
                products.push(Product {
                    id: product_id,
                    product_template_id: template_id,
                    price: variant.price,
                    cost: self.cost,
                    is_product_variant: true,
                    created_at: now,
                    updated_at: None,
                });
                let ghost before = combinations@;
                let mut k: usize = 0;
                while k < variant.attribute_options.len()
                    invariant
                        k <= variant.attribute_options@.len(),
                        combinations@ == before + variant_combinations(product_id, *variant).take(k as int),
                    decreases variant.attribute_options@.len() - k,
                {
                    combinations.push(ProductCombination {
                        product_id,
                        attribute_option_id: variant.attribute_options[k].option.id,
                    });
                    proof {
                        assert(variant_combinations(product_id, *variant).take(k as int + 1)
                            =~= variant_combinations(product_id, *variant).take(k as int).push(
                                ProductCombination { product_id, attribute_option_id: variant.attribute_options@[k as int].option.id },
                            ));
                        assert(before + variant_combinations(product_id, *variant).take(k as int + 1)
                            =~= (before + variant_combinations(product_id, *variant).take(k as int)).push(
                                ProductCombination { product_id, attribute_option_id: variant.attribute_options@[k as int].option.id },
                            ));
                    }
                    k += 1;
                }
                proof {
                    assert(variant_combinations(product_id, *variant).take(k as int)
                        =~= variant_combinations(product_id, *variant));
                    assert(combinations_upto(u, product_ids@, (i + 1) as nat)
                        == combinations_upto(u, product_ids@, i as nat) + variant_combinations(product_ids@[i as int], u.variants@[i as int]));
                }
                i += 1;
            }
            proof {
                assert(products@ =~= planned_products(u, template_id, product_ids@, now));
            }
        } else {
            products.push(Product {
                id: product_ids[0],
                product_template_id: template_id,
                price: self.price,
                cost: self.cost,
                is_product_variant: false,
                created_at: now,
                updated_at: None,
            });
            proof {
                assert(products@ =~= planned_products(u, template_id, product_ids@, now));
                assert(combinations@ =~= planned_combinations(u, product_ids@));
            }
        }
        ProductCreation { template, products, combinations }
    }

    /// Creates the template with its products and combinations in one
    /// transaction and returns the created products; when any row would
    /// break a constraint, nothing is written and the failure is returned.
    /// A request for multiple variants names at least one.
    pub fn invoke(&self, db: &mut Catalog, template_id: Uuid, product_ids: &Vec<Uuid>, now: Timestamp) -> (r: Result<Vec<Product>, CreateProductError>)
        requires
            old(db).wf(),
            self.is_multiple_variants ==> self.variants@.len() > 0,
            product_ids@.len() == product_count(*self),
        ensures
            final(db).wf(),
            match request_failure(*old(db), *self, template_id, product_ids@, now) {
                None => r is Ok
                    && r->Ok_0@ == planned_products(*self, template_id, product_ids@, now)
                    && final(db).product_templates@.len() == old(db).product_templates@.len() + 1
                    && is_planned_template(final(db).product_templates@.last(), *self, template_id, now)
                    && created(*old(db), *final(db), final(db).product_templates@.last(),
                        planned_products(*self, template_id, product_ids@, now), planned_combinations(*self, product_ids@)),
                Some(e) => r == Err::<Vec<Product>, CreateProductError>(
                    CreateProductError::InternalServerError(TransactionFailure { cause: e }),
                ) && *final(db) == *old(db),
            },
    {
        let plan = self.plan(template_id, product_ids, now);
        let products = plan.products.clone();
        let ghost t = plan.template;
        match db.apply_product_creation(plan) {
            Ok(()) => {
                assert(products@ == planned_products(*self, template_id, product_ids@, now));
                assert(db.product_templates@.last() == t);
                Ok(products)
            },
            Err(e) => Err(CreateProductError::InternalServerError(TransactionFailure { cause: e })),
        }
    }
}

} // verus!
