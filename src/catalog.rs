use vstd::prelude::*;
use crate::model::{
    Attribute, AttributeOptionRow, Category, Product, ProductCombination, ProductTemplate, Uom,
    Uuid,
};

verus! {

/// The entity store: one table per entity. Each write operation either
/// applies all of its rows or, on a constraint violation, none of them.
#[derive(Debug)]
pub struct Catalog {
    pub uoms: Vec<Uom>,
    pub categories: Vec<Category>,
    pub attributes: Vec<Attribute>,
    pub attribute_options: Vec<AttributeOptionRow>,
    pub product_templates: Vec<ProductTemplate>,
    pub products: Vec<Product>,
    pub product_combinations: Vec<ProductCombination>,
}

/// Spec-level form of a stored attribute option.
pub struct OptionRowView {
    pub id: Uuid,
    pub value: Seq<char>,
    pub attribute_id: Uuid,
}

impl View for AttributeOptionRow {
    type V = OptionRowView;

    open spec fn view(&self) -> OptionRowView {
        OptionRowView { id: self.id, value: self.value@, attribute_id: self.attribute_id }
    }
}

/// A stored row with a primary key.
pub trait Keyed {
    spec fn key_spec(&self) -> Uuid;

    fn key(&self) -> (r: Uuid)
        ensures
            r == self.key_spec(),
    ;
}

impl Keyed for Uom {
    open spec fn key_spec(&self) -> Uuid {
        self.id
    }

    fn key(&self) -> (r: Uuid) {
        self.id
    }
}

impl Keyed for Category {
    open spec fn key_spec(&self) -> Uuid {
        self.id
    }

    fn key(&self) -> (r: Uuid) {
        self.id
    }
}

impl Keyed for Attribute {
    open spec fn key_spec(&self) -> Uuid {
        self.id
    }

    fn key(&self) -> (r: Uuid) {
        self.id
    }
}

impl Keyed for AttributeOptionRow {
    open spec fn key_spec(&self) -> Uuid {
        self.id
    }

    fn key(&self) -> (r: Uuid) {
        self.id
    }
}

impl Keyed for ProductTemplate {
    open spec fn key_spec(&self) -> Uuid {
        self.id
    }

    fn key(&self) -> (r: Uuid) {
        self.id
    }
}

impl Keyed for Product {
    open spec fn key_spec(&self) -> Uuid {
        self.id
    }

    fn key(&self) -> (r: Uuid) {
        self.id
    }
}

/// The primary keys of a table, in table order.
pub open spec fn keys<T: Keyed>(s: Seq<T>) -> Seq<Uuid> {
    s.map_values(|x: T| x.key_spec())
}

/// The primary keys of a table, as values.
pub fn key_list<T: Keyed>(v: &Vec<T>) -> (r: Vec<Uuid>)
    ensures
        r@ == keys(v@),
{
    let mut r: Vec<Uuid> = Vec::new();
    let mut i: usize = 0;
    while i < v.len()
        invariant
            i <= v@.len(),
            r@ =~= keys(v@.take(i as int)),
        decreases v@.len() - i,
    {
        r.push(v[i].key());
        proof {
            assert(keys(v@.take(i as int + 1)) =~= keys(v@.take(i as int)).push(v@[i as int].key_spec()));
        }
        i += 1;
    }
    assert(v@.take(v@.len() as int) =~= v@);
    r
}

/// The position of the row with this key, if there is one.
pub fn position_of<T: Keyed>(v: &Vec<T>, id: Uuid) -> (r: Option<usize>)
    ensures
        match r {
            Some(k) => k < v@.len() && v@[k as int].key_spec() == id,
            None => !keys(v@).contains(id),
        },
{
    let mut k: usize = 0;
    while k < v.len()
        invariant
            k <= v@.len(),
            forall|j: int| 0 <= j < k ==> v@[j].key_spec() != id,
        decreases v@.len() - k,
    {
        if v[k].key() == id {
            return Some(k);
        }
        k += 1;
    }
    proof {
        if keys(v@).contains(id) {
            let w = choose|w: int| 0 <= w < keys(v@).len() && keys(v@)[w] == id;
            assert(v@[w].key_spec() == id);
        }
    }
    None
}

pub open spec fn uom_ids(s: Seq<Uom>) -> Seq<Uuid> {
    keys(s)
}

pub open spec fn category_ids(s: Seq<Category>) -> Seq<Uuid> {
    keys(s)
}

pub open spec fn attribute_ids(s: Seq<Attribute>) -> Seq<Uuid> {
    keys(s)
}

pub open spec fn option_ids(s: Seq<AttributeOptionRow>) -> Seq<Uuid> {
    keys(s)
}

pub open spec fn template_ids(s: Seq<ProductTemplate>) -> Seq<Uuid> {
    keys(s)
}

pub open spec fn product_ids(s: Seq<Product>) -> Seq<Uuid> {
    keys(s)
}

pub open spec fn option_rows(s: Seq<AttributeOptionRow>) -> Seq<OptionRowView> {
    s.map_values(|o: AttributeOptionRow| o@)
}

/// Every reference in `refs` names one of `ids`.
pub open spec fn all_in(refs: Seq<Uuid>, ids: Seq<Uuid>) -> bool {
    forall|i: int| 0 <= i < refs.len() ==> ids.contains(#[trigger] refs[i])
}

/// Every id of `ids` is also one of `more`.
pub open spec fn included(ids: Seq<Uuid>, more: Seq<Uuid>) -> bool {
    forall|x: Uuid| ids.contains(x) ==> #[trigger] more.contains(x)
}

pub open spec fn uom_refs(s: Seq<ProductTemplate>) -> Seq<Uuid> {
    s.map_values(|t: ProductTemplate| t.uom_id)
}

/// Every template that names a category names a stored one.
pub open spec fn categories_known(s: Seq<ProductTemplate>, ids: Seq<Uuid>) -> bool {
    forall|i: int| 0 <= i < s.len() && (#[trigger] s[i]).category_id is Some ==> ids.contains(s[i].category_id->0)
}

pub open spec fn template_refs(s: Seq<Product>) -> Seq<Uuid> {
    s.map_values(|p: Product| p.product_template_id)
}

pub open spec fn attribute_refs(s: Seq<AttributeOptionRow>) -> Seq<Uuid> {
    s.map_values(|o: AttributeOptionRow| o.attribute_id)
}

pub open spec fn product_refs(s: Seq<ProductCombination>) -> Seq<Uuid> {
    s.map_values(|c: ProductCombination| c.product_id)
}

pub open spec fn option_refs(s: Seq<ProductCombination>) -> Seq<Uuid> {
    s.map_values(|c: ProductCombination| c.attribute_option_id)
}

pub proof fn lemma_all_in_grow(refs: Seq<Uuid>, ids: Seq<Uuid>, more: Seq<Uuid>)
    requires
        all_in(refs, ids),
        included(ids, more),
    ensures
        all_in(refs, more),
{
}

pub proof fn lemma_all_in_concat(a: Seq<Uuid>, b: Seq<Uuid>, ids: Seq<Uuid>)
    requires
        all_in(a, ids),
        all_in(b, ids),
    ensures
        all_in(a + b, ids),
{
    assert forall|i: int| 0 <= i < (a + b).len() implies ids.contains(#[trigger] (a + b)[i]) by {
        if i >= a.len() {
            assert((a + b)[i] == b[i - a.len()]);
        }
    }
}

pub proof fn lemma_included_concat(a: Seq<Uuid>, b: Seq<Uuid>)
    ensures
        included(a, a + b),
        all_in(b, a + b),
{
    assert forall|x: Uuid| a.contains(x) implies #[trigger] (a + b).contains(x) by {
        let w = choose|w: int| 0 <= w < a.len() && a[w] == x;
        assert((a + b)[w] == x);
    }
    assert forall|i: int| 0 <= i < b.len() implies (a + b).contains(#[trigger] b[i]) by {
        assert((a + b)[a.len() + i] == b[i]);
    }
}

pub proof fn lemma_included_push(a: Seq<Uuid>, y: Uuid)
    ensures
        included(a, a.push(y)),
        a.push(y).contains(y),
{
    assert(a.push(y)[a.len() as int] == y);
    assert forall|x: Uuid| a.contains(x) implies #[trigger] a.push(y).contains(x) by {
        let w = choose|w: int| 0 <= w < a.len() && a[w] == x;
        assert(a.push(y)[w] == x);
    }
}

/// No two elements are equal.
pub open spec fn distinct<T>(s: Seq<T>) -> bool {
    forall|i: int, j: int| 0 <= i < j < s.len() ==> s[i] != s[j]
}

/// Uuid search in a sequence of ids.
pub fn contains_id(ids: &Vec<Uuid>, id: Uuid) -> (r: bool)
    ensures
        r == ids@.contains(id),
{
    let mut i: usize = 0;
    while i < ids.len()
        invariant
            i <= ids@.len(),
            forall|j: int| 0 <= j < i ==> ids@[j] != id,
        decreases ids@.len() - i,
    {
        if ids[i] == id {
            assert(ids@[i as int] == id);
            return true;
        }
        i += 1;
    }
    false
}

/// Whether no two ids are equal.
pub fn ids_distinct(ids: &Vec<Uuid>) -> (r: bool)
    ensures
        r == distinct(ids@),
{
    let mut i: usize = 0;
    while i < ids.len()
        invariant
            i <= ids@.len(),
            forall|a: int, b: int| 0 <= a < b < ids@.len() && a < i ==> ids@[a] != ids@[b],
        decreases ids@.len() - i,
    {
        let mut j: usize = i + 1;
        while j < ids.len()
            invariant
                i < ids@.len(),
                i + 1 <= j <= ids@.len(),
                forall|a: int, b: int| 0 <= a < b < ids@.len() && a < i ==> ids@[a] != ids@[b],
                forall|b: int| i < b < j ==> ids@[i as int] != ids@[b],
            decreases ids@.len() - j,
        {
            if ids[i] == ids[j] {
                return false;
            }
            j += 1;
        }
        i += 1;
    }
    true
}

/// Whether some id of `ids` is already in `taken`.
pub fn any_taken(taken: &Vec<Uuid>, ids: &Vec<Uuid>) -> (r: bool)
    ensures
        r == exists|i: int| 0 <= i < ids@.len() && taken@.contains(#[trigger] ids@[i]),
{
    let mut i: usize = 0;
    while i < ids.len()
        invariant
            i <= ids@.len(),
            forall|j: int| 0 <= j < i ==> !taken@.contains(#[trigger] ids@[j]),
        decreases ids@.len() - i,
    {
        if contains_id(taken, ids[i]) {
            return true;
        }
        i += 1;
    }
    false
}

impl Catalog {
    /// An empty store.
    pub fn new() -> (r: Catalog)
        ensures
            r.wf(),
            r.uoms@.len() == 0,
            r.categories@.len() == 0,
            r.attributes@.len() == 0,
            r.attribute_options@.len() == 0,
            r.product_templates@.len() == 0,
            r.products@.len() == 0,
            r.product_combinations@.len() == 0,
    {
        Catalog {
            uoms: Vec::new(),
            categories: Vec::new(),
            attributes: Vec::new(),
            attribute_options: Vec::new(),
            product_templates: Vec::new(),
            products: Vec::new(),
            product_combinations: Vec::new(),
        }
    }

    /// Every reference names a stored row: a template its unit and its
    /// category, a product its template, an option its attribute, and a
    /// combination its product and its option.
    pub open spec fn linked(&self) -> bool {
        &&& all_in(uom_refs(self.product_templates@), uom_ids(self.uoms@))
        &&& categories_known(self.product_templates@, category_ids(self.categories@))
        &&& all_in(template_refs(self.products@), template_ids(self.product_templates@))
        &&& all_in(attribute_refs(self.attribute_options@), attribute_ids(self.attributes@))
        &&& all_in(product_refs(self.product_combinations@), product_ids(self.products@))
        &&& all_in(option_refs(self.product_combinations@), option_ids(self.attribute_options@))
    }

    /// Primary keys are unique in every table, and every reference names a stored row.
    pub open spec fn wf(&self) -> bool {
        &&& self.linked()
        &&& distinct(uom_ids(self.uoms@))
        &&& distinct(category_ids(self.categories@))
        &&& distinct(attribute_ids(self.attributes@))
        &&& distinct(option_ids(self.attribute_options@))
        &&& distinct(template_ids(self.product_templates@))
        &&& distinct(product_ids(self.products@))
        &&& distinct(self.product_combinations@)
    }
}

} // verus!
