use csslancer::css_language_types::{
    AtDirectiveData, AtDirectiveDataSource, Content, CssDataV1, CssDataVersion, EntryStatus,
    PropertyData, PropertyDataSource, ProvideCssData,
};
use csslancer::data_manager::CssDataManager;

fn property(name: &str, status: Option<EntryStatus>, relevance: i64) -> PropertyData {
    PropertyData {
        name: name.to_owned(),
        description: None,
        browsers: None,
        restrictions: None,
        status,
        syntax: None,
        values: Vec::new(),
        references: None,
        relevance,
        at_rule: None,
    }
}

fn at(name: &str) -> AtDirectiveData {
    AtDirectiveData { name: name.to_owned(), description: None, browsers: None, status: None, references: None }
}

fn data(properties: Vec<PropertyData>, at_directives: Vec<AtDirectiveData>) -> Box<dyn ProvideCssData> {
    Box::new(CssDataV1 {
        version: CssDataVersion::One,
        properties,
        at_directives,
        pseudo_classes: vec![at(":hover")],
        pseudo_elements: vec![at("::after")],
    })
}

#[test]
fn properties_are_found_by_name() {
    let m = CssDataManager::new(
        Some(data(vec![property("color", Some(EntryStatus::Standard), 10), property("zoom", Some(EntryStatus::NonStandard), 2)], vec![at("@media")])),
        None,
    );
    assert_eq!(m.get_property("color").unwrap().relevance, 10);
    assert!(m.get_property("Color").is_none());
    assert!(m.is_known_property("COLOR"));
    assert!(m.is_known_property("zoom"));
    assert!(!m.is_known_property("colour"));
    assert!(m.is_standard_property("Color"));
    assert!(!m.is_standard_property("zoom"));
    assert!(!m.is_standard_property("margin"));
    assert_eq!(m.get_at_directive("@media").unwrap().name, "@media");
    assert!(m.get_at_directive("@page").is_none());
    assert!(m.get_pseudo_class(":hover").is_some());
    assert!(m.get_pseudo_element("::after").is_some());
    assert!(m.get_pseudo_element("::before").is_none());
}

#[test]
fn later_providers_replace_earlier_entries() {
    let m = CssDataManager::new(
        Some(data(vec![property("color", None, 1), property("color", None, 2)], Vec::new())),
        Some(vec![data(vec![property("color", Some(EntryStatus::Standard), 3)], vec![at("@page")])]),
    );
    assert_eq!(m.get_property("color").unwrap().relevance, 3);
    assert!(m.is_standard_property("color"));
    assert!(m.get_at_directive("@page").is_some());

    let only_default = CssDataManager::new(
        Some(data(vec![property("color", None, 1), property("color", None, 2)], Vec::new())),
        None,
    );
    assert_eq!(only_default.get_property("color").unwrap().relevance, 2);
}

#[test]
fn an_empty_manager_knows_nothing() {
    let m = CssDataManager::default();
    assert!(m.get_property("color").is_none());
    assert!(!m.is_known_property("color"));
    let none = CssDataManager::new(None, None);
    assert!(none.get_at_directive("@media").is_none());
}

#[test]
fn provided_data_is_added_by_name() {
    let mut m = CssDataManager::default();
    m.collect_provided(vec![property("width", None, 5)], vec![at("@layer")], Vec::new(), vec![at("::marker")]);
    m.collect_provided(vec![property("width", None, 7), property("height", None, 1)], Vec::new(), Vec::new(), Vec::new());
    assert_eq!(m.get_property("width").unwrap().relevance, 7);
    assert_eq!(m.get_property("height").unwrap().relevance, 1);
    assert!(m.get_at_directive("@layer").is_some());
    assert!(m.get_pseudo_element("::marker").is_some());
    assert!(m.get_pseudo_class("::marker").is_none());
}

#[test]
fn data_sources_become_plain_text_descriptions() {
    let src = AtDirectiveDataSource {
        name: "@font-face".to_owned(),
        description: Some("fonts".to_owned()),
        browsers: Some(vec!["FF3".to_owned()]),
        status: Some(EntryStatus::Standard),
        references: None,
    };
    let converted: AtDirectiveData = src.into();
    assert_eq!(converted.name, "@font-face");
    match converted.description {
        Some(Content::String(s)) => assert_eq!(s, "fonts"),
        _ => panic!("expected a plain description"),
    }
    assert_eq!(converted.browsers, Some(vec!["FF3".to_owned()]));

    let prop = PropertyData::from_source(PropertyDataSource {
        name: "display".to_owned(),
        description: None,
        browsers: None,
        restrictions: Some(vec!["enum".to_owned()]),
        status: None,
        syntax: Some("<x>".to_owned()),
        values: vec![
            AtDirectiveDataSource { name: "block".to_owned(), description: Some("b".to_owned()), browsers: None, status: None, references: None },
            AtDirectiveDataSource { name: "none".to_owned(), description: None, browsers: None, status: None, references: None },
        ],
        references: None,
        relevance: 93,
        at_rule: None,
    });
    assert_eq!(prop.name, "display");
    assert!(prop.description.is_none());
    assert_eq!(prop.values.len(), 2);
    assert_eq!(prop.values[0].name, "block");
    assert_eq!(prop.values[0].description.as_ref().map(|c| c.value()), Some("b"));
    assert_eq!(prop.values[1].name, "none");
    assert_eq!(prop.relevance, 93);
    assert_eq!(prop.syntax.as_deref(), Some("<x>"));
}
