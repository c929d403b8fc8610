use vstd::prelude::*;
use crate::attribute::{aggregate_attributes, attribute_views, group_attribute_rows, AttributeDTO, QueryResult};
use crate::attribute_page::attribute_join;
use crate::catalog::Catalog;
use crate::product_page::product_join;
use crate::error::StorageFailure;
use crate::model::{Category, Uom};
use crate::pagination::{
    ceil_div, page_of, page_or_default, page_window, paginate, per_page_or_default, valid_per_page, PageWindow, PaginationMeta,
};
use crate::product::{aggregate_products, group_product_rows, product_views, ProductDTO, QueryProductResult};

verus! {

/// A request for one page of attributes with their options.
#[derive(Clone, Copy, Debug, PartialEq, Eq, Structural)]
pub struct ListPaginatedAttributesUsecase {
    pub page: Option<u64>,
    pub per_page: Option<u64>,
}

pub type ListPaginatedAttributesParams = ListPaginatedAttributesUsecase;

#[derive(Clone, Copy, Debug, PartialEq, Eq, Structural)]
pub enum ListPaginatedAttributesError {
    InternalServerError(StorageFailure),
}

/// A request for one page of categories.
#[derive(Clone, Copy, Debug, PartialEq, Eq, Structural)]
pub struct ListPaginatedCategoriesUsecase {
    pub page: Option<u64>,
    pub per_page: Option<u64>,
}

pub type ListPaginatedCategoriesParams = ListPaginatedCategoriesUsecase;

#[derive(Clone, Copy, Debug, PartialEq, Eq, Structural)]
pub enum ListPaginatedCategoriesError {
    InternalServerError(StorageFailure),
}

/// A request for one page of units of measurement.
#[derive(Clone, Copy, Debug, PartialEq, Eq, Structural)]
pub struct ListPaginatedUomsUsecase {
    pub page: Option<u64>,
    pub per_page: Option<u64>,
}

pub type ListPaginatedUomsParams = ListPaginatedUomsUsecase;

#[derive(Clone, Copy, Debug, PartialEq, Eq, Structural)]
pub enum ListPaginatedUomsError {
    InternalServerError(StorageFailure),
}

/// A request for one page of products with their combinations.
#[derive(Clone, Copy, Debug, PartialEq, Eq, Structural)]
pub struct ListPaginatedProductsUsecase {
    pub page: Option<u64>,
    pub per_page: Option<u64>,
}

pub type ListPaginatedProductsParams = ListPaginatedProductsUsecase;

#[derive(Clone, Copy, Debug, PartialEq, Eq, Structural)]
pub enum ListPaginatedProductsError {
    InternalServerError(StorageFailure),
}

/// The metadata of a page of a listing of `total` items.
pub open spec fn meta_of(page: Option<u64>, per_page: Option<u64>, total: u64) -> PaginationMeta {
    PaginationMeta {
        page: page_or_default(page),
        total_pages: ceil_div(total as nat, per_page_or_default(per_page) as nat) as u64,
        per_page: per_page_or_default(per_page),
        total,
    }
}

pub open spec fn window_of(page: Option<u64>, per_page: Option<u64>) -> Option<PageWindow> {
    if page_or_default(page) >= 1 && per_page_or_default(per_page) >= 1
        && (page_or_default(page) - 1) * per_page_or_default(per_page) <= u64::MAX {
        Some(PageWindow {
            offset: ((page_or_default(page) - 1) * per_page_or_default(per_page)) as u64,
            limit: per_page_or_default(per_page),
        })
    } else {
        None
    }
}

impl ListPaginatedAttributesUsecase {
    /// The attributes that the page covers, to be fetched with their options
    /// (a page of attributes, then the join); `None` for page or page size 0.
    pub fn window(&self) -> (r: Option<PageWindow>)
        ensures
            r == window_of(self.page, self.per_page),
    {
        page_window(self.page, self.per_page)
    }

    /// The page: the attributes of the joined rows grouped with their
    /// options, and the metadata against `total` attributes in all.
    pub fn invoke(&self, rows: &Vec<QueryResult>, total: u64) -> (r: (Vec<AttributeDTO>, PaginationMeta))
        requires
            page_or_default(self.page) >= 1,
            valid_per_page(self.per_page),
        ensures
            attribute_views(r.0@) == aggregate_attributes(rows@),
            r.1 == meta_of(self.page, self.per_page, total),
    {
        let attributes = group_attribute_rows(rows);
        (attributes, paginate(self.page, self.per_page, total))
    }

    /// The page read from the store: the attributes that the window covers,
    /// joined with their options and grouped, and the metadata against all
    /// stored attributes; `None` when the window is invalid.
    pub fn fetch_page(&self, db: &Catalog) -> (r: Option<(Vec<AttributeDTO>, PaginationMeta)>)
        ensures
            r is Some <==> window_of(self.page, self.per_page) is Some,
            r matches Some(x) ==> attribute_views(x.0@) == aggregate_attributes(
                attribute_join(page_of(db.attributes@, window_of(self.page, self.per_page)->0), db.attribute_options@),
            ) && x.1 == meta_of(self.page, self.per_page, db.attributes@.len() as u64),
    {
        match self.window() {
            Some(w) => {
                let rows = db.attribute_page_rows(w);
                Some(self.invoke(&rows, db.attributes.len() as u64))
            },
            None => None,
        }
    }
}

impl ListPaginatedCategoriesUsecase {
    /// The categories that the page covers; `None` for page or page size 0.
    pub fn window(&self) -> (r: Option<PageWindow>)
        ensures
            r == window_of(self.page, self.per_page),
    {
        page_window(self.page, self.per_page)
    }

    /// The page: the categories fetched for it, and the metadata against
    /// `total` categories in all.
    pub fn invoke(&self, categories: Vec<Category>, total: u64) -> (r: (Vec<Category>, PaginationMeta))
        requires
            page_or_default(self.page) >= 1,
            valid_per_page(self.per_page),
        ensures
            r.0 == categories,
            r.1 == meta_of(self.page, self.per_page, total),
    {
        (categories, paginate(self.page, self.per_page, total))
    }

    /// The page read from the store: the categories that the window covers,
    /// in table order, and the metadata against all stored categories;
    /// `None` when the window is invalid.
    pub fn fetch_page(&self, db: &Catalog) -> (r: Option<(Vec<Category>, PaginationMeta)>)
        ensures
            r is Some <==> window_of(self.page, self.per_page) is Some,
            r matches Some(x) ==> x.0@ == page_of(db.categories@, window_of(self.page, self.per_page)->0)
                && x.1 == meta_of(self.page, self.per_page, db.categories@.len() as u64),
    {
        match self.window() {
            Some(w) => {
                let len = db.categories.len();
                let start: usize = if (w.offset as u128) < (len as u128) { w.offset as usize } else { len };
                let end: usize = if (w.offset as u128) + (w.limit as u128) < (len as u128) {
                    (w.offset + w.limit) as usize
                } else {
                    len
                };
                let mut page: Vec<Category> = Vec::new();
                let mut i: usize = start;
                while i < end
                    invariant
                        start <= i <= end,
                        end <= db.categories@.len(),
                        page@ == db.categories@.subrange(start as int, i as int),
                    decreases end - i,
                {
                    page.push(Category { id: db.categories[i].id, name: db.categories[i].name.clone() });
                    proof {
                        assert(db.categories@.subrange(start as int, i as int + 1)
                            =~= db.categories@.subrange(start as int, i as int).push(db.categories@[i as int]));
                    }
                    i += 1;
                }
                Some(self.invoke(page, len as u64))
            },
            None => None,
        }
    }
}

impl ListPaginatedUomsUsecase {
    /// The units that the page covers; `None` for page or page size 0.
    pub fn window(&self) -> (r: Option<PageWindow>)
        ensures
            r == window_of(self.page, self.per_page),
    {
        page_window(self.page, self.per_page)
    }

    /// The page: the units fetched for it, and the metadata against `total`
    /// units in all.
    pub fn invoke(&self, uoms: Vec<Uom>, total: u64) -> (r: (Vec<Uom>, PaginationMeta))
        requires
            page_or_default(self.page) >= 1,
            valid_per_page(self.per_page),
        ensures
            r.0 == uoms,
            r.1 == meta_of(self.page, self.per_page, total),
    {
        (uoms, paginate(self.page, self.per_page, total))
    }
}

impl ListPaginatedProductsUsecase {
    /// The joined rows that the page covers; `None` for page or page size 0.
    pub fn window(&self) -> (r: Option<PageWindow>)
        ensures
            r == window_of(self.page, self.per_page),
    {
        page_window(self.page, self.per_page)
    }

    /// The page: the products of the joined rows, grouped by product id in
    /// order of first appearance with their combinations, and the metadata
    /// against `total` products in all.
    pub fn invoke(&self, rows: &Vec<QueryProductResult>, total: u64) -> (r: (Vec<ProductDTO>, PaginationMeta))
        requires
            page_or_default(self.page) >= 1,
            valid_per_page(self.per_page),
        ensures
            product_views(r.0@) == aggregate_products(rows@),
            r.1 == meta_of(self.page, self.per_page, total),
    {
        let products = group_product_rows(rows);
        (products, paginate(self.page, self.per_page, total))
    }

    /// The page read from the store: the products that the window covers,
    /// joined and grouped, and the metadata against all stored products;
    /// `None` when the window is invalid.
    pub fn fetch_page(&self, db: &Catalog) -> (r: Option<(Vec<ProductDTO>, PaginationMeta)>)
        ensures
            r is Some <==> window_of(self.page, self.per_page) is Some,
            r matches Some(x) ==> product_views(x.0@) == aggregate_products(
                product_join(*db, page_of(db.products@, window_of(self.page, self.per_page)->0)),
            ) && x.1 == meta_of(self.page, self.per_page, db.products@.len() as u64),
    {
        match self.window() {
            Some(w) => {
                let rows = db.product_page_rows(w);
                Some(self.invoke(&rows, db.products.len() as u64))
            },
            None => None,
        }
    }
}

} // verus!
