//! Product catalog core: variant composition, attribute option upserts,
//! aggregation of flat joined rows into nested views, and pagination.
//!
//! Storage is modelled by [`catalog::Catalog`], whose operations are
//! all-or-nothing; each write use case first computes the rows it will
//! write (a plan), so that any store able to run a transaction can apply
//! the same plan.

pub mod model;
pub mod error;
pub mod pagination;
pub mod response;
pub mod catalog;
pub mod attribute;
pub mod attribute_page;
pub mod product;
pub mod product_page;
pub mod create_product_usecase;
pub mod create_attribute_usecase;
pub mod update_attribute_usecase;
pub mod find_attribute_usecase;
pub mod measurement;
pub mod listing;
