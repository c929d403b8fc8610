use catalog_core::attribute::{group_attribute_rows, QueryResult};
use catalog_core::listing::{ListPaginatedAttributesUsecase, ListPaginatedProductsUsecase};
use catalog_core::product::{group_product_rows, QueryProductResult};

fn product_row(id: u128, name: Option<&str>, variant: bool, combo: Option<(u128, &str, u128, &str)>) -> QueryProductResult {
    QueryProductResult {
        id,
        name: name.map(|n| n.to_string()),
        is_product_variant: variant,
        product_template_id: Some(900),
        attribute_id: combo.map(|c| c.0),
        attribute_name: combo.map(|c| c.1.to_string()),
        attribute_option_id: combo.map(|c| c.2),
        attribute_option_value: combo.map(|c| c.3.to_string()),
    }
}

fn attribute_row(id: u128, name: &str, option: Option<(u128, &str)>) -> QueryResult {
    QueryResult {
        id,
        name: name.to_string(),
        attribute_option_id: option.map(|o| o.0),
        attribute_option_value: option.map(|o| o.1.to_string()),
    }
}

#[test]
fn products_grouped_in_first_seen_order() {
    let rows = vec![
        product_row(2, Some("Shirt"), true, Some((10, "Color", 100, "Red"))),
        product_row(1, Some("Box"), false, None),
        product_row(2, Some("Shirt"), true, Some((11, "Size", 110, "M"))),
        product_row(3, Some("Shirt"), true, Some((10, "Color", 101, "Blue"))),
    ];
    let out = group_product_rows(&rows);
    assert_eq!(out.len(), 3);
    assert_eq!(out[0].id, 2);
    assert_eq!(out[1].id, 1);
    assert_eq!(out[2].id, 3);
    assert_eq!(out[0].combinations.len(), 2);
    assert_eq!(out[0].combinations[0].attribute.id, 10);
    assert_eq!(out[0].combinations[0].option.value, "Red");
    assert_eq!(out[0].combinations[1].attribute.name, "Size");
    assert_eq!(out[0].combinations[1].option.id, 110);
    assert!(out[1].combinations.is_empty());
    assert!(!out[1].is_product_variant);
    assert_eq!(out[1].name.as_deref(), Some("Box"));
    assert_eq!(out[2].combinations.len(), 1);
}

#[test]
fn same_attribute_twice_keeps_last_option() {
    let rows = vec![
        product_row(5, Some("Cup"), true, Some((10, "Color", 100, "Red"))),
        product_row(5, Some("Cup"), true, Some((10, "Colour", 101, "Blue"))),
    ];
    let out = group_product_rows(&rows);
    assert_eq!(out.len(), 1);
    assert_eq!(out[0].combinations.len(), 1);
    assert_eq!(out[0].combinations[0].attribute.name, "Color");
    assert_eq!(out[0].combinations[0].option.id, 101);
    assert_eq!(out[0].combinations[0].option.value, "Blue");
}

#[test]
fn missing_template_name_and_empty_variant_do_not_fail() {
    let rows = vec![product_row(7, None, true, None), product_row(8, Some("Lid"), true, None)];
    let out = group_product_rows(&rows);
    assert_eq!(out.len(), 2);
    assert_eq!(out[0].name, None);
    assert!(out[0].combinations.is_empty());
    assert!(out[1].combinations.is_empty());
}

#[test]
fn grouping_yields_one_product_per_distinct_id() {
    let mut rows = Vec::new();
    for i in 0..12u128 {
        rows.push(product_row(i % 4, Some("P"), true, Some((i % 3, "A", 1000 + i, "v"))));
    }
    let out = group_product_rows(&rows);
    assert_eq!(out.len(), 4);
    for dto in &out {
        let mut ids: Vec<u128> = dto.combinations.iter().map(|c| c.attribute.id).collect();
        ids.sort();
        ids.dedup();
        assert_eq!(ids.len(), dto.combinations.len());
        assert_eq!(dto.combinations.len(), 3);
    }
}

#[test]
fn empty_rows_give_no_products() {
    assert!(group_product_rows(&Vec::new()).is_empty());
    assert!(group_attribute_rows(&Vec::new()).is_empty());
}

#[test]
fn attributes_grouped_with_their_options() {
    let rows = vec![
        attribute_row(1, "Color", Some((10, "Red"))),
        attribute_row(2, "Size", None),
        attribute_row(1, "Color", Some((11, "Blue"))),
        QueryResult { id: 3, name: "Material".to_string(), attribute_option_id: Some(30), attribute_option_value: None },
    ];
    let out = group_attribute_rows(&rows);
    assert_eq!(out.len(), 3);
    assert_eq!(out[0].name, "Color");
    assert_eq!(out[0].attribute_options.len(), 2);
    assert_eq!(out[0].attribute_options[1].value, "Blue");
    assert_eq!(out[1].id, 2);
    assert!(out[1].attribute_options.is_empty());
    assert!(out[2].attribute_options.is_empty());
}

#[test]
fn list_products_page_with_meta() {
    let usecase = ListPaginatedProductsUsecase { page: Some(2), per_page: Some(2) };
    let rows = vec![product_row(1, Some("A"), false, None), product_row(2, Some("B"), false, None)];
    let (products, meta) = usecase.invoke(&rows, 5);
    assert_eq!(products.len(), 2);
    assert_eq!(meta.page, 2);
    assert_eq!(meta.total_pages, 3);
    assert_eq!(meta.per_page, 2);
    assert_eq!(meta.total, 5);
    assert_eq!(usecase.window().map(|w| (w.offset, w.limit)), Some((2, 2)));
}

#[test]
fn list_attributes_page_with_defaults() {
    let usecase = ListPaginatedAttributesUsecase { page: None, per_page: None };
    let rows = vec![attribute_row(1, "Color", Some((10, "Red")))];
    let (attributes, meta) = usecase.invoke(&rows, 95);
    assert_eq!(attributes.len(), 1);
    assert_eq!(meta.per_page, 30);
    assert_eq!(meta.page, 1);
    assert_eq!(meta.total_pages, 4);
}
