use catalog_core::pagination::{paginate, page_window, total_pages, PageWindow, PaginationMeta};

#[test]
fn paginate_defaults_for_ninety_five_items() {
    let meta = paginate(None, None, 95);
    assert_eq!(meta, PaginationMeta { page: 1, total_pages: 4, per_page: 30, total: 95 });
}

#[test]
fn paginate_second_page_of_ten() {
    let meta = paginate(Some(2), Some(10), 25);
    assert_eq!(meta.total_pages, 3);
    assert_eq!(meta.page, 2);
    assert_eq!(meta.per_page, 10);
    assert_eq!(meta.total, 25);
}

#[test]
fn paginate_exact_and_empty() {
    assert_eq!(paginate(Some(1), Some(5), 20).total_pages, 4);
    assert_eq!(paginate(Some(1), Some(5), 0).total_pages, 0);
    assert_eq!(paginate(Some(3), Some(1), 1).total_pages, 1);
}

#[test]
fn total_pages_at_the_largest_size() {
    assert_eq!(total_pages(u64::MAX, 1), u64::MAX);
    assert_eq!(total_pages(u64::MAX, 2), u64::MAX / 2 + 1);
    assert_eq!(total_pages(u64::MAX, u64::MAX), 1);
}

#[test]
fn page_window_offsets() {
    assert_eq!(page_window(None, None), Some(PageWindow { offset: 0, limit: 30 }));
    assert_eq!(page_window(Some(3), Some(10)), Some(PageWindow { offset: 20, limit: 10 }));
    assert_eq!(page_window(Some(0), Some(10)), None);
    assert_eq!(page_window(Some(2), Some(0)), None);
    assert_eq!(page_window(Some(u64::MAX), Some(2)), None);
    assert_eq!(page_window(Some(2), Some(u64::MAX)), Some(PageWindow { offset: u64::MAX, limit: u64::MAX }));
}

#[test]
fn list_uoms_page_meta() {
    let usecase = catalog_core::listing::ListPaginatedUomsUsecase { page: Some(3), per_page: Some(4) };
    let units = vec![catalog_core::model::Uom { id: 1, name: "kg".to_string() }];
    let (page, meta) = usecase.invoke(units, 9);
    assert_eq!(page.len(), 1);
    assert_eq!(meta, PaginationMeta { page: 3, total_pages: 3, per_page: 4, total: 9 });
    assert_eq!(usecase.window(), Some(PageWindow { offset: 8, limit: 4 }));
}
