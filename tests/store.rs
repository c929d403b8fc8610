use catalog_core::catalog::Catalog;
use catalog_core::create_attribute_usecase::{self as create_attr, CreateAttributeError, CreateAttributeUsecase};
use catalog_core::create_product_usecase::{
    CreateProductError, CreateProductUsecase, Variant, VariantAttributeOption,
};
use catalog_core::error::{StorageFailure, TransactionFailure};
use catalog_core::find_attribute_usecase::{FindAttributeError, FindAttributeUsecase, FindOptionsByAttributeIdUsecase};
use catalog_core::measurement::{CreateUomError, CreateUomUsecase, FindUomError, FindUomUsecase, UpdateUomError, UpdateUomUsecase};
use catalog_core::model::{AttributeRef, Category, Decimal, OptionRef, ProductSubtype, ProductType};
use catalog_core::update_attribute_usecase::{self as update_attr, UpdateAttributeError, UpdateAttributeUsecase};
use catalog_core::listing::{ListPaginatedAttributesUsecase, ListPaginatedCategoriesUsecase, ListPaginatedProductsUsecase};
use catalog_core::pagination::{PageWindow, PaginationMeta};

const UOM: u128 = 1;
const NOW: i64 = 1_700_000_000_000_000;

fn store_with_uom() -> Catalog {
    let mut db = Catalog::new();
    CreateUomUsecase { name: "pcs".to_string() }.invoke(&mut db, UOM).unwrap();
    db
}

fn money(units: i128) -> Decimal {
    Decimal::new(units * 100, 2)
}

fn template(name: &str, multiple: bool, variants: Vec<Variant>) -> CreateProductUsecase {
    CreateProductUsecase {
        name: name.to_string(),
        product_type: ProductType::Goods,
        product_subtype: ProductSubtype::Normal,
        is_track_inventory: true,
        price: money(10),
        cost: money(4),
        uom_id: UOM,
        category_id: None,
        create_corresponding_moulds: false,
        is_multiple_variants: multiple,
        variants,
    }
}

fn color_attribute(db: &mut Catalog) {
    let usecase = CreateAttributeUsecase {
        name: "Color".to_string(),
        attribute_options: vec![
            create_attr::AttributeOption { value: "Red".to_string() },
            create_attr::AttributeOption { value: "Blue".to_string() },
        ],
    };
    usecase.invoke(db, 50, &vec![500, 501], NOW).unwrap();
}

fn pick(option_id: u128, value: &str) -> VariantAttributeOption {
    VariantAttributeOption {
        attribute: AttributeRef { id: 50, name: "Color".to_string() },
        option: OptionRef { id: option_id, value: value.to_string() },
    }
}

#[test]
fn single_variant_product() {
    let mut db = store_with_uom();
    let products = template("Box", false, Vec::new()).invoke(&mut db, 10, &vec![20], NOW).unwrap();
    assert_eq!(products.len(), 1);
    assert!(!products[0].is_product_variant);
    assert_eq!(products[0].price, money(10));
    assert_eq!(products[0].cost, money(4));
    assert_eq!(products[0].product_template_id, 10);
    assert_eq!(db.products.len(), 1);
    assert_eq!(db.product_templates.len(), 1);
    assert_eq!(db.product_templates[0].name, "Box");
    assert_eq!(db.product_templates[0].description, "");
    assert!(db.product_combinations.is_empty());
}

#[test]
fn multi_variant_product() {
    let mut db = store_with_uom();
    color_attribute(&mut db);
    let variants = vec![
        Variant { price: money(12), attribute_options: vec![pick(500, "Red")] },
        Variant { price: money(13), attribute_options: vec![pick(501, "Blue")] },
    ];
    let products = template("Shirt", true, variants).invoke(&mut db, 10, &vec![20, 21], NOW).unwrap();
    assert_eq!(products.len(), 2);
    assert!(products.iter().all(|p| p.is_product_variant && p.cost == money(4)));
    assert_eq!(products[0].price, money(12));
    assert_eq!(products[1].price, money(13));
    assert_eq!(db.product_combinations.len(), 2);
    let first: Vec<_> = db.product_combinations.iter().filter(|c| c.product_id == 20).collect();
    let second: Vec<_> = db.product_combinations.iter().filter(|c| c.product_id == 21).collect();
    assert_eq!(first.len(), 1);
    assert_eq!(second.len(), 1);
    assert_ne!(first[0].attribute_option_id, second[0].attribute_option_id);
}

#[test]
fn variant_without_options_writes_no_combination() {
    let mut db = store_with_uom();
    let variants = vec![Variant { price: money(9), attribute_options: Vec::new() }];
    let products = template("Plain", true, variants).invoke(&mut db, 10, &vec![20], NOW).unwrap();
    assert_eq!(products.len(), 1);
    assert!(products[0].is_product_variant);
    assert!(db.product_combinations.is_empty());
}

#[test]
fn failing_combination_rolls_back_everything() {
    let mut db = store_with_uom();
    color_attribute(&mut db);
    let variants = vec![
        Variant { price: money(12), attribute_options: vec![pick(500, "Red")] },
        Variant { price: money(13), attribute_options: vec![pick(999, "Ghost")] },
    ];
    let r = template("Shirt", true, variants).invoke(&mut db, 10, &vec![20, 21], NOW);
    assert_eq!(
        r,
        Err(CreateProductError::InternalServerError(TransactionFailure { cause: StorageFailure::MissingReference }))
    );
    assert!(db.product_templates.is_empty());
    assert!(db.products.is_empty());
    assert!(db.product_combinations.is_empty());
}

#[test]
fn repeated_option_in_variant_rolls_back() {
    let mut db = store_with_uom();
    color_attribute(&mut db);
    let variants = vec![Variant { price: money(12), attribute_options: vec![pick(500, "Red"), pick(500, "Red")] }];
    let r = template("Shirt", true, variants).invoke(&mut db, 10, &vec![20], NOW);
    assert_eq!(r, Err(CreateProductError::InternalServerError(TransactionFailure { cause: StorageFailure::DuplicateKey })));
    assert!(db.products.is_empty());
}

#[test]
fn unknown_unit_or_category_is_missing_reference() {
    let mut db = Catalog::new();
    let r = template("Box", false, Vec::new()).invoke(&mut db, 10, &vec![20], NOW);
    assert_eq!(r, Err(CreateProductError::InternalServerError(TransactionFailure { cause: StorageFailure::MissingReference })));
    let mut db = store_with_uom();
    let mut with_category = template("Box", false, Vec::new());
    with_category.category_id = Some(77);
    let r = with_category.invoke(&mut db, 10, &vec![20], NOW);
    assert_eq!(r, Err(CreateProductError::InternalServerError(TransactionFailure { cause: StorageFailure::MissingReference })));
    db.categories.push(Category { id: 77, name: "Boxes".to_string() });
    assert!(with_category.invoke(&mut db, 10, &vec![20], NOW).is_ok());
}

#[test]
fn reused_template_or_product_id_is_duplicate_key() {
    let mut db = store_with_uom();
    template("Box", false, Vec::new()).invoke(&mut db, 10, &vec![20], NOW).unwrap();
    let r = template("Box", false, Vec::new()).invoke(&mut db, 10, &vec![21], NOW);
    assert_eq!(r, Err(CreateProductError::InternalServerError(TransactionFailure { cause: StorageFailure::DuplicateKey })));
    let r = template("Box", false, Vec::new()).invoke(&mut db, 11, &vec![20], NOW);
    assert_eq!(r, Err(CreateProductError::InternalServerError(TransactionFailure { cause: StorageFailure::DuplicateKey })));
    assert_eq!(db.product_templates.len(), 1);
    assert_eq!(db.products.len(), 1);
}

#[test]
fn attribute_with_zero_options() {
    let mut db = Catalog::new();
    let usecase = CreateAttributeUsecase { name: "Finish".to_string(), attribute_options: Vec::new() };
    let attribute = usecase.invoke(&mut db, 50, &Vec::new(), NOW).unwrap();
    assert_eq!(attribute.id, 50);
    assert_eq!(attribute.name, "Finish");
    assert_eq!(attribute.created_at, NOW);
    assert_eq!(attribute.updated_at, None);
    assert_eq!(db.attributes.len(), 1);
    assert!(db.attribute_options.is_empty());
}

#[test]
fn attribute_with_options_and_taken_id() {
    let mut db = Catalog::new();
    color_attribute(&mut db);
    assert_eq!(db.attribute_options.len(), 2);
    assert!(db.attribute_options.iter().all(|o| o.attribute_id == 50));
    let again = CreateAttributeUsecase { name: "Other".to_string(), attribute_options: Vec::new() };
    assert_eq!(
        again.invoke(&mut db, 50, &Vec::new(), NOW).unwrap_err(),
        CreateAttributeError::InternalServerError(TransactionFailure { cause: StorageFailure::DuplicateKey })
    );
    let clash = CreateAttributeUsecase {
        name: "Size".to_string(),
        attribute_options: vec![create_attr::AttributeOption { value: "S".to_string() }],
    };
    assert_eq!(
        clash.invoke(&mut db, 51, &vec![500], NOW).unwrap_err(),
        CreateAttributeError::InternalServerError(TransactionFailure { cause: StorageFailure::DuplicateKey })
    );
    assert_eq!(db.attributes.len(), 1);
}

fn update(name: &str, options: Vec<(Option<u128>, &str)>) -> UpdateAttributeUsecase {
    UpdateAttributeUsecase {
        id: 50,
        name: name.to_string(),
        attribute_options: options
            .into_iter()
            .map(|(id, value)| update_attr::AttributeOption { id, value: value.to_string() })
            .collect(),
    }
}

#[test]
fn option_upsert_keeps_latest_value() {
    let mut db = Catalog::new();
    color_attribute(&mut db);
    update("Colour", vec![(Some(500), "Crimson")]).invoke(&mut db, &vec![600], NOW + 1).unwrap();
    let attribute = update("Colour", vec![(Some(500), "Scarlet"), (None, "Green")]).invoke(&mut db, &vec![601, 602], NOW + 2).unwrap();
    assert_eq!(attribute.name, "Colour");
    assert_eq!(attribute.created_at, NOW);
    assert_eq!(attribute.updated_at, Some(NOW + 2));
    let rows: Vec<_> = db.attribute_options.iter().filter(|o| o.id == 500).collect();
    assert_eq!(rows.len(), 1);
    assert_eq!(rows[0].value, "Scarlet");
    assert_eq!(db.attribute_options.len(), 3);
    assert!(db.attribute_options.iter().any(|o| o.id == 602 && o.value == "Green" && o.attribute_id == 50));
    assert!(db.attribute_options.iter().any(|o| o.id == 501 && o.value == "Blue"));
    assert_eq!(db.attributes[0].name, "Colour");
}

#[test]
fn update_errors_leave_store_unchanged() {
    let mut db = Catalog::new();
    let r = update("X", Vec::new()).invoke(&mut db, &Vec::new(), NOW);
    assert_eq!(r.unwrap_err(), UpdateAttributeError::InternalServerError(TransactionFailure { cause: StorageFailure::RecordNotUpdated }));
    color_attribute(&mut db);
    let r = update("X", vec![(Some(500), "a"), (Some(500), "b")]).invoke(&mut db, &vec![1, 2], NOW);
    assert_eq!(r.unwrap_err(), UpdateAttributeError::InternalServerError(TransactionFailure { cause: StorageFailure::DuplicateKey }));
    assert_eq!(db.attributes[0].name, "Color");
    assert_eq!(db.attribute_options[0].value, "Red");
}

#[test]
fn find_attribute_and_its_options() {
    let mut db = Catalog::new();
    color_attribute(&mut db);
    CreateAttributeUsecase {
        name: "Size".to_string(),
        attribute_options: vec![create_attr::AttributeOption { value: "L".to_string() }],
    }
    .invoke(&mut db, 51, &vec![510], NOW)
    .unwrap();
    let dto = FindAttributeUsecase { id: 50 }.invoke(&db).unwrap();
    assert_eq!(dto.name, "Color");
    let values: Vec<_> = dto.attribute_options.iter().map(|o| o.value.as_str()).collect();
    assert_eq!(values, vec!["Red", "Blue"]);
    assert_eq!(FindAttributeUsecase { id: 99 }.invoke(&db).unwrap_err(), FindAttributeError::RecordNotFound);
    let options = FindOptionsByAttributeIdUsecase { attribute_id: 51 }.invoke(&db).unwrap();
    assert_eq!(options.len(), 1);
    assert_eq!(options[0].id, 510);
    assert!(FindOptionsByAttributeIdUsecase { attribute_id: 99 }.invoke(&db).unwrap().is_empty());
}

#[test]
fn units_of_measurement() {
    let mut db = store_with_uom();
    assert_eq!(
        CreateUomUsecase { name: "kg".to_string() }.invoke(&mut db, UOM).unwrap_err(),
        CreateUomError::InternalServerError(StorageFailure::DuplicateKey)
    );
    assert_eq!(FindUomUsecase { id: UOM }.invoke(&db).unwrap().name, "pcs");
    assert_eq!(FindUomUsecase { id: 2 }.invoke(&db).unwrap_err(), FindUomError::RecordNotFound);
    let renamed = UpdateUomUsecase { id: UOM, name: "pieces".to_string() }.invoke(&mut db).unwrap();
    assert_eq!(renamed.name, "pieces");
    assert_eq!(db.uoms[0].name, "pieces");
    assert_eq!(
        UpdateUomUsecase { id: 2, name: "x".to_string() }.invoke(&mut db).unwrap_err(),
        UpdateUomError::InternalServerError(StorageFailure::RecordNotUpdated)
    );
}

fn attribute_with(db: &mut Catalog, id: u128, name: &str, values: &[&str], first_option: u128) {
    let usecase = CreateAttributeUsecase {
        name: name.to_string(),
        attribute_options: values.iter().map(|v| create_attr::AttributeOption { value: v.to_string() }).collect(),
    };
    let ids: Vec<u128> = (0..values.len() as u128).map(|i| first_option + i).collect();
    usecase.invoke(db, id, &ids, NOW).unwrap();
}

#[test]
fn attribute_page_keeps_whole_option_sets() {
    let mut db = Catalog::new();
    attribute_with(&mut db, 1, "Color", &["Red", "Blue", "Green"], 100);
    attribute_with(&mut db, 2, "Size", &["S", "M"], 200);
    attribute_with(&mut db, 3, "Finish", &[], 300);
    let second = ListPaginatedAttributesUsecase { page: Some(2), per_page: Some(1) };
    let (attributes, meta) = second.fetch_page(&db).unwrap();
    assert_eq!(attributes.len(), 1);
    assert_eq!(attributes[0].name, "Size");
    let values: Vec<_> = attributes[0].attribute_options.iter().map(|o| o.value.as_str()).collect();
    assert_eq!(values, vec!["S", "M"]);
    assert_eq!(meta, PaginationMeta { page: 2, total_pages: 3, per_page: 1, total: 3 });
    let all = ListPaginatedAttributesUsecase { page: None, per_page: None };
    let (attributes, meta) = all.fetch_page(&db).unwrap();
    assert_eq!(attributes.len(), 3);
    assert_eq!(attributes[0].attribute_options.len(), 3);
    assert!(attributes[2].attribute_options.is_empty());
    assert_eq!(meta.total_pages, 1);
    let beyond = ListPaginatedAttributesUsecase { page: Some(9), per_page: Some(2) };
    assert!(beyond.fetch_page(&db).unwrap().0.is_empty());
    assert!(ListPaginatedAttributesUsecase { page: Some(0), per_page: None }.fetch_page(&db).is_none());
}

#[test]
fn attribute_page_rows_left_join() {
    let mut db = Catalog::new();
    attribute_with(&mut db, 1, "Color", &["Red"], 100);
    attribute_with(&mut db, 2, "Finish", &[], 300);
    let rows = db.attribute_page_rows(PageWindow { offset: 0, limit: 10 });
    assert_eq!(rows.len(), 2);
    assert_eq!(rows[0].attribute_option_value.as_deref(), Some("Red"));
    assert_eq!(rows[1].id, 2);
    assert_eq!(rows[1].attribute_option_id, None);
    assert!(db.attribute_page_rows(PageWindow { offset: 2, limit: 10 }).is_empty());
}

#[test]
fn category_page_from_store() {
    let mut db = Catalog::new();
    for (id, name) in [(1u128, "Boxes"), (2, "Bags"), (3, "Cups")] {
        db.categories.push(Category { id, name: name.to_string() });
    }
    let usecase = ListPaginatedCategoriesUsecase { page: Some(2), per_page: Some(2) };
    let (categories, meta) = usecase.fetch_page(&db).unwrap();
    assert_eq!(categories.len(), 1);
    assert_eq!(categories[0].name, "Cups");
    assert_eq!(meta, PaginationMeta { page: 2, total_pages: 2, per_page: 2, total: 3 });
    assert!(ListPaginatedCategoriesUsecase { page: Some(1), per_page: Some(0) }.fetch_page(&db).is_none());
}

#[test]
fn product_page_from_store() {
    let mut db = store_with_uom();
    color_attribute(&mut db);
    template("Box", false, Vec::new()).invoke(&mut db, 10, &vec![20], NOW).unwrap();
    let variants = vec![
        Variant { price: money(12), attribute_options: vec![pick(500, "Red")] },
        Variant { price: money(13), attribute_options: vec![pick(501, "Blue")] },
    ];
    template("Shirt", true, variants).invoke(&mut db, 11, &vec![21, 22], NOW).unwrap();
    let rows = db.product_page_rows(PageWindow { offset: 0, limit: 30 });
    assert_eq!(rows.len(), 3);
    assert_eq!(rows[0].attribute_id, None);
    assert_eq!(rows[1].attribute_name.as_deref(), Some("Color"));
    let (products, meta) = ListPaginatedProductsUsecase { page: None, per_page: None }.fetch_page(&db).unwrap();
    assert_eq!(meta, PaginationMeta { page: 1, total_pages: 1, per_page: 30, total: 3 });
    assert_eq!(products.len(), 3);
    assert_eq!(products[0].name.as_deref(), Some("Box"));
    assert!(products[0].combinations.is_empty());
    assert_eq!(products[1].id, 21);
    assert_eq!(products[1].combinations.len(), 1);
    assert_eq!(products[1].combinations[0].option.value, "Red");
    assert_eq!(products[2].combinations[0].option.id, 501);
    let (second, meta) = ListPaginatedProductsUsecase { page: Some(2), per_page: Some(2) }.fetch_page(&db).unwrap();
    assert_eq!(second.len(), 1);
    assert_eq!(second[0].id, 22);
    assert_eq!(meta.total_pages, 2);
}

#[test]
fn product_with_missing_template_still_listed() {
    let mut db = Catalog::new();
    db.products.push(catalog_core::model::Product {
        id: 5,
        product_template_id: 404,
        price: money(1),
        cost: money(1),
        is_product_variant: false,
        created_at: NOW,
        updated_at: None,
    });
    let (products, _) = ListPaginatedProductsUsecase { page: None, per_page: None }.fetch_page(&db).unwrap();
    assert_eq!(products.len(), 1);
    assert_eq!(products[0].name, None);
}

#[test]
fn plan_rows_must_reference_stored_rows() {
    let mut db = store_with_uom();
    let mut plan = template("Box", false, Vec::new()).plan(10, &vec![20], NOW);
    plan.products[0].product_template_id = 99;
    let catalog_core::create_product_usecase::ProductCreation { template: t, products, .. } = plan;
    let stray = catalog_core::create_product_usecase::ProductCreation { template: t, products, combinations: Vec::new() };
    assert_eq!(db.apply_product_creation(stray), Err(StorageFailure::MissingReference));
    color_attribute(&mut db);
    let mut plan = template("Box", false, Vec::new()).plan(10, &vec![20], NOW);
    plan.combinations.push(catalog_core::model::ProductCombination { product_id: 77, attribute_option_id: 500 });
    assert_eq!(db.apply_product_creation(plan), Err(StorageFailure::MissingReference));
    assert!(db.products.is_empty());
    assert!(db.product_templates.is_empty());
}

#[test]
fn upserting_stored_ids_adds_no_row() {
    let mut db = Catalog::new();
    color_attribute(&mut db);
    update("Color", vec![(Some(500), "Red"), (Some(501), "Navy")]).invoke(&mut db, &vec![1, 2], NOW + 1).unwrap();
    assert_eq!(db.attribute_options.len(), 2);
    assert_eq!(db.attribute_options[1].value, "Navy");
}

#[test]
fn new_option_with_a_stored_id_is_rejected() {
    let mut db = Catalog::new();
    color_attribute(&mut db);
    attribute_with(&mut db, 2, "Size", &["S"], 200);
    let r = update("Colour", vec![(None, "Green")]).invoke(&mut db, &vec![200], NOW + 1);
    assert_eq!(r.unwrap_err(), UpdateAttributeError::InternalServerError(TransactionFailure { cause: StorageFailure::DuplicateKey }));
    let r = update("Colour", vec![(Some(500), "Crimson"), (None, "Green")]).invoke(&mut db, &vec![0, 500], NOW + 1);
    assert_eq!(r.unwrap_err(), UpdateAttributeError::InternalServerError(TransactionFailure { cause: StorageFailure::DuplicateKey }));
    assert_eq!(db.attribute_options.iter().find(|o| o.id == 200).unwrap().value, "S");
    assert_eq!(db.attributes[0].name, "Color");
    assert_eq!(db.attributes[0].updated_at, None);
    let before = db.attribute_options.len();
    update("Colour", vec![(Some(500), "Crimson"), (None, "Green"), (None, "Teal")]).invoke(&mut db, &vec![0, 700, 701], NOW + 1).unwrap();
    assert_eq!(db.attribute_options.len(), before + 2);
    assert_eq!(db.attribute_options.iter().find(|o| o.id == 200).unwrap().value, "S");
}

#[test]
fn product_count_matches_request() {
    assert_eq!(template("Box", false, Vec::new()).product_count(), 1);
    let variants = vec![
        Variant { price: money(1), attribute_options: Vec::new() },
        Variant { price: money(2), attribute_options: Vec::new() },
    ];
    assert_eq!(template("Cup", true, variants).product_count(), 2);
}
