use vstd::prelude::*;

verus! {

/// A 128-bit opaque identifier.
pub type Uuid = u128;

/// A point in time, in microseconds since the Unix epoch.
pub type Timestamp = i64;

/// A decimal amount: `mantissa * 10^-scale`.
#[derive(Clone, Copy, Debug, PartialEq, Eq, Structural)]
pub struct Decimal {
    pub mantissa: i128,
    pub scale: u32,
}

impl Decimal {
    pub fn new(mantissa: i128, scale: u32) -> (r: Decimal)
        ensures
            r.mantissa == mantissa,
            r.scale == scale,
    {
        Decimal { mantissa, scale }
    }
}

#[derive(Clone, Copy, Debug, PartialEq, Eq, Structural)]
pub enum ProductType {
    Goods,
    Service,
}

#[derive(Clone, Copy, Debug, PartialEq, Eq, Structural)]
pub enum ProductSubtype {
    Normal,
    PackagingWithPrint,
    Mould,
}

/// A unit of measurement.
#[derive(Clone, Debug)]
pub struct Uom {
    pub id: Uuid,
    pub name: String,
}

/// A product category.
#[derive(Clone, Debug)]
pub struct Category {
    pub id: Uuid,
    pub name: String,
}

/// A stored attribute (an axis of variation such as "Color").
#[derive(Clone, Debug)]
pub struct Attribute {
    pub id: Uuid,
    pub name: String,
    pub created_at: Timestamp,
    pub updated_at: Option<Timestamp>,
}

/// A stored option of an attribute (such as "Red").
#[derive(Clone, Debug)]
pub struct AttributeOptionRow {
    pub id: Uuid,
    pub value: String,
    pub attribute_id: Uuid,
}

/// A stored product template.
#[derive(Clone, Debug)]
pub struct ProductTemplate {
    pub id: Uuid,
    pub name: String,
    pub description: String,
    pub uom_id: Uuid,
    pub category_id: Option<Uuid>,
    pub product_type: ProductType,
    pub product_subtype: ProductSubtype,
    pub is_track_inventory: bool,
    pub created_at: Timestamp,
    pub updated_at: Option<Timestamp>,
}

/// A stored product: the single item of a template, or one of its variants.
#[derive(Clone, Copy, Debug, PartialEq, Eq, Structural)]
pub struct Product {
    pub id: Uuid,
    pub product_template_id: Uuid,
    pub price: Decimal,
    pub cost: Decimal,
    pub is_product_variant: bool,
    pub created_at: Timestamp,
    pub updated_at: Option<Timestamp>,
}

/// A stored link between a variant product and one chosen attribute option.
#[derive(Clone, Copy, Debug, PartialEq, Eq, Structural)]
pub struct ProductCombination {
    pub product_id: Uuid,
    pub attribute_option_id: Uuid,
}

/// An attribute as shown inside other views: its id and name.
#[derive(Clone, Debug)]
pub struct AttributeRef {
    pub id: Uuid,
    pub name: String,
}

/// An attribute option as shown inside other views: its id and value.
#[derive(Clone, Debug)]
pub struct OptionRef {
    pub id: Uuid,
    pub value: String,
}

/// Spec-level form of an [`AttributeRef`] or an [`OptionRef`].
pub struct RefView {
    pub id: Uuid,
    pub text: Seq<char>,
}

impl View for AttributeRef {
    type V = RefView;

    open spec fn view(&self) -> RefView {
        RefView { id: self.id, text: self.name@ }
    }
}

impl View for OptionRef {
    type V = RefView;

    open spec fn view(&self) -> RefView {
        RefView { id: self.id, text: self.value@ }
    }
}

impl AttributeRef {
    pub fn copy(&self) -> (r: AttributeRef)
        ensures
            r@ == self@,
    {
        AttributeRef { id: self.id, name: self.name.clone() }
    }
}

impl OptionRef {
    pub fn copy(&self) -> (r: OptionRef)
        ensures
            r@ == self@,
    {
        OptionRef { id: self.id, value: self.value.clone() }
    }
}

} // verus!
