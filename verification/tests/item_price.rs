use kuantframe::price::{same_sub_type, ItemPriceModule, PriceRow, SubType};

fn row(url: &str, id: &str, sub_type: Option<SubType>, price: u32) -> PriceRow<u32> {
    PriceRow { wfm_url: url.to_string(), wfm_id: id.to_string(), sub_type, data: price }
}

fn rank(r: i64) -> Option<SubType> {
    Some(SubType { rank: Some(r), variant: None, amber_stars: None, cyan_stars: None })
}

fn rows() -> Vec<PriceRow<u32>> {
    vec![
        row("arcane_energize", "id1", rank(0), 10),
        row("arcane_energize", "id1", rank(5), 50),
        row("arcane_energize", "id1", rank(5), 99),
        row("primed_flow", "id2", None, 7),
        row("primed_flow", "id2", None, 8),
    ]
}

#[test]
fn new_cache_is_empty() {
    let m: ItemPriceModule<u32> = ItemPriceModule::new();
    assert_eq!(m.len(), 0);
    assert!(m.find_by("arcane_energize", &rank(0)).is_none());
    assert!(m.find_by_id("id1", &None).is_none());
}

#[test]
fn load_reports_the_row_count() {
    let mut m = ItemPriceModule::new();
    assert_eq!(m.load(rows()), 5);
    assert_eq!(m.len(), 5);
    assert_eq!(m.load(Vec::new()), 0);
    assert!(m.find_by("primed_flow", &None).is_none());
}

#[test]
fn find_by_returns_first_occurrence() {
    let mut m = ItemPriceModule::new();
    m.load(rows());
    assert_eq!(m.find_by("arcane_energize", &rank(5)).unwrap().data, 50);
    assert_eq!(m.find_by("arcane_energize", &rank(0)).unwrap().data, 10);
    assert_eq!(m.find_by("primed_flow", &None).unwrap().data, 7);
}

#[test]
fn find_by_needs_url_and_sub_type_to_match() {
    let mut m = ItemPriceModule::new();
    m.load(rows());
    assert!(m.find_by("arcane_energize", &rank(3)).is_none());
    assert!(m.find_by("arcane_energize", &None).is_none());
    assert!(m.find_by("primed_flow", &rank(0)).is_none());
    assert!(m.find_by("id1", &rank(0)).is_none());
}

#[test]
fn find_by_id_returns_first_occurrence() {
    let mut m = ItemPriceModule::new();
    m.load(rows());
    assert_eq!(m.find_by_id("id1", &rank(5)).unwrap().data, 50);
    assert_eq!(m.find_by_id("id2", &None).unwrap().data, 7);
    assert!(m.find_by_id("arcane_energize", &rank(5)).is_none());
}

#[test]
fn sub_types_differ_by_variant_and_stars() {
    let a = Some(SubType { rank: None, variant: Some("flawless".to_string()), amber_stars: None, cyan_stars: None });
    let b = Some(SubType { rank: None, variant: Some("radiant".to_string()), amber_stars: None, cyan_stars: None });
    let c = Some(SubType { rank: None, variant: None, amber_stars: Some(2), cyan_stars: Some(1) });
    assert!(same_sub_type(&a, &a));
    assert!(!same_sub_type(&a, &b));
    assert!(!same_sub_type(&c, &None));
    let mut m = ItemPriceModule::new();
    m.load(vec![row("relic", "r", b, 1), row("relic", "r", a.clone(), 2), row("ayatan", "y", c.clone(), 3)]);
    assert_eq!(m.find_by("relic", &a).unwrap().data, 2);
    assert_eq!(m.find_by_id("y", &c).unwrap().data, 3);
}

#[test]
fn get_by_filter_keeps_order() {
    let mut m = ItemPriceModule::new();
    m.load(rows());
    let cheap: Vec<u32> = m.get_by_filter(|r: &PriceRow<u32>| r.data < 20).iter().map(|r| r.data).collect();
    assert_eq!(cheap, vec![10, 7, 8]);
    let none = m.get_by_filter(|_r: &PriceRow<u32>| false);
    assert!(none.is_empty());
}

#[test]
fn check_update_when_cache_file_missing() {
    let (update, remote) = ItemPriceModule::<u32>::check_update("v1", "v1".to_string(), false);
    assert!(update);
    assert_eq!(remote, "v1");
}

#[test]
fn check_update_compares_versions() {
    assert_eq!(ItemPriceModule::<u32>::check_update("v1", "v1".to_string(), true), (false, "v1".to_string()));
    assert_eq!(ItemPriceModule::<u32>::check_update("v1", "v2".to_string(), true), (true, "v2".to_string()));
}
