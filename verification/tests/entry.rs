use csslancer::css_language_types::{
    AtDirectiveData, Content, CssDataV1, CssDataVersion, EntryStatus, HoverSettings, MarkupContent,
    MarkupKind, PropertyData, ProvideCssData, Reference,
};
use csslancer::entry::{get_browser_label, get_entry_description, get_entry_status, IEntry2};

fn strings(v: &[&str]) -> Vec<String> {
    v.iter().map(|s| s.to_string()).collect()
}

fn property() -> PropertyData {
    PropertyData {
        name: "color".to_owned(),
        description: Some(Content::String("Sets the *color*.".to_owned())),
        browsers: Some(strings(&["E12", "FF1"])),
        restrictions: None,
        status: Some(EntryStatus::NonStandard),
        syntax: Some("<color>".to_owned()),
        values: Vec::new(),
        references: Some(vec![
            Reference { name: "MDN".to_owned(), url: "https://mdn.example/color".to_owned() },
            Reference { name: "Spec".to_owned(), url: "https://spec.example".to_owned() },
        ]),
        relevance: 90,
        at_rule: None,
    }
}

#[test]
fn browser_label_of_the_documented_example() {
    let label = get_browser_label(&strings(&["E12", "FF49", "C47", "IE", "O"]));
    assert_eq!(label, Some("Edge 12, Firefox 49, Chrome 47, IE, Opera".to_owned()));
}

#[test]
fn browser_label_edge_cases() {
    assert_eq!(get_browser_label(&Vec::new()), None);
    assert_eq!(get_browser_label(&strings(&["X12"])), Some(" 12".to_owned()));
    assert_eq!(get_browser_label(&strings(&["s4"])), Some("".to_owned()));
    assert_eq!(get_browser_label(&strings(&["S", "C"])), Some("Safari, Chrome".to_owned()));
}

#[test]
fn entry_status_warnings() {
    assert_eq!(get_entry_status(EntryStatus::Standard), "");
    assert_eq!(get_entry_status(EntryStatus::Obsolete), "Property is obsolete. Avoid using it.\n\n");
    assert!(get_entry_status(EntryStatus::Experimental).starts_with("Property is experimental."));
}

#[test]
fn plain_text_description_of_a_property() {
    let p = property();
    let settings = Some(HoverSettings { documentation: true, references: true });
    let d = get_entry_description(IEntry2::Prop(&p), false, &settings).unwrap();
    assert_eq!(d.kind, MarkupKind::PlainText);
    assert_eq!(
        d.value,
        "Property is nonstandard. Avoid using it.\n\nSets the *color*.\n(Edge 12, Firefox 1)\n\nSyntax: <color>\n\nMDN: https://mdn.example/color | Spec: https://spec.example"
    );
}

#[test]
fn markdown_description_of_a_property() {
    let p = property();
    let settings = Some(HoverSettings { documentation: true, references: true });
    let d = get_entry_description(IEntry2::Prop(&p), true, &settings).unwrap();
    assert_eq!(d.kind, MarkupKind::Markdown);
    assert_eq!(
        d.value,
        "Property is nonstandard. Avoid using it.\n\nSets the \\*color\\*\\.\n\n(Edge 12, Firefox 1)\n\nSyntax: &lt;color&gt;\n\n[MDN](https://mdn.example/color) | [Spec](https://spec.example)"
    );
}

#[test]
fn description_settings_choose_the_parts() {
    let p = property();
    let only_refs = Some(HoverSettings { documentation: false, references: true });
    let d = get_entry_description(IEntry2::Prop(&p), false, &only_refs).unwrap();
    assert_eq!(d.value, "MDN: https://mdn.example/color | Spec: https://spec.example");
    let only_doc = Some(HoverSettings { documentation: true, references: false });
    let d = get_entry_description(IEntry2::Prop(&p), false, &only_doc).unwrap();
    assert!(d.value.ends_with("Syntax: <color>"));
    assert!(get_entry_description(IEntry2::Prop(&p), false, &None).is_none());
    assert!(get_entry_description(IEntry2::Prop(&p), true, &None).is_none());
}

#[test]
fn descriptions_of_other_entries() {
    let at = AtDirectiveData {
        name: "@media".to_owned(),
        description: Some(Content::Markup(MarkupContent {
            kind: MarkupKind::Markdown,
            value: "A *conditional* rule".to_owned(),
        })),
        browsers: None,
        status: None,
        references: None,
    };
    let settings = Some(HoverSettings { documentation: true, references: true });
    let md = get_entry_description(IEntry2::AtDir(&at), true, &settings).unwrap();
    assert_eq!(md.value, "A *conditional* rule");
    let plain = get_entry_description(IEntry2::AtDir(&at), false, &None).unwrap();
    assert_eq!(plain.value, "A *conditional* rule");
    let empty = AtDirectiveData {
        name: "x".to_owned(),
        description: Some(Content::String(String::new())),
        browsers: None,
        status: None,
        references: None,
    };
    assert!(get_entry_description(IEntry2::Value(&empty), true, &settings).is_none());
    let none = AtDirectiveData { description: None, ..empty.clone() };
    assert!(get_entry_description(IEntry2::PseuClass(&none), false, &settings).is_none());
}

#[test]
fn default_language_settings() {
    let s = csslancer::css_language_types::LanguageSettings::default();
    assert!(s.validate);
    assert!(s.lint.is_empty());
    assert!(s.alias.is_empty());
    assert!(s.completion.trigger_property_value_completion);
    assert!(s.completion.complete_property_with_semicolon);
    assert!(s.hover.documentation && s.hover.references);
}

#[test]
fn css_data_is_handed_over_once() {
    let at = AtDirectiveData {
        name: "@media".to_owned(),
        description: None,
        browsers: None,
        status: None,
        references: None,
    };
    let mut data = CssDataV1 {
        version: CssDataVersion::OneOne,
        properties: vec![property()],
        at_directives: vec![at.clone()],
        pseudo_classes: vec![at.clone(), at.clone()],
        pseudo_elements: Vec::new(),
    };
    assert_eq!(data.provide_properties().len(), 1);
    assert_eq!(data.provide_properties().len(), 0);
    assert_eq!(data.provide_pseudo_classes().len(), 2);
    assert_eq!(data.provide_at_directives()[0].name, "@media");
    assert_eq!(data.provide_pseudo_elements().len(), 0);
    assert_eq!(data.version, CssDataVersion::OneOne);
}
