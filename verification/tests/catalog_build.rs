use what_rs::catalog::{build_catalog, RawPattern};

fn raw(name: &str, regex: &str, rarity: u32, tags: &[&str]) -> RawPattern {
    RawPattern {
        name: name.to_string(),
        regex: regex.to_string(),
        rarity,
        tags: tags.iter().map(|t| t.to_string()).collect(),
        description: None,
        exploit: None,
        url: None,
    }
}

#[test]
fn compiles_both_forms() {
    let catalog = build_catalog(&vec![raw("addr", "^0x[0-9]+$", 500, &["Numbers"])]);
    assert_eq!(catalog.patterns.len(), 1);
    assert_eq!(catalog.patterns[0].regex_bordered, "^0x[0-9]+$");
    assert_eq!(catalog.patterns[0].regex_borderless, "0x[0-9]+");
}

#[test]
fn drops_uncompilable_definitions() {
    let catalog = build_catalog(&vec![
        raw("broken", "(", 500, &["Broken"]),
        raw("fine", "^a+$", 500, &["Fine"]),
    ]);
    assert_eq!(catalog.patterns.len(), 1);
    assert_eq!(catalog.patterns[0].name, "fine");
    assert_eq!(catalog.tags, vec!["fine".to_string()]);
}

#[test]
fn lowercases_and_collects_tags() {
    let catalog = build_catalog(&vec![
        raw("one", "^a$", 500, &["URL", "Identifiers"]),
        raw("two", "^b$", 500, &["url", "Media"]),
    ]);
    assert_eq!(
        catalog.tags,
        vec![
            "url".to_string(),
            "identifiers".to_string(),
            "media".to_string()
        ]
    );
}

#[test]
fn keeps_catalog_order() {
    let catalog = build_catalog(&vec![
        raw("first", "^a$", 100, &[]),
        raw("second", "^b$", 200, &[]),
    ]);
    let names: Vec<&str> = catalog.patterns.iter().map(|p| p.name.as_str()).collect();
    assert_eq!(names, vec!["first", "second"]);
}

#[test]
fn keeps_metadata() {
    let mut definition = raw("meta", "^a$", 250, &["Tagged"]);
    definition.description = Some("a description".to_string());
    definition.exploit = Some("an exploit hint".to_string());
    definition.url = Some("https://example.com/".to_string());
    let catalog = build_catalog(&vec![definition]);
    let p = &catalog.patterns[0];
    assert_eq!(p.rarity, 250);
    assert_eq!(p.description.as_deref(), Some("a description"));
    assert_eq!(p.exploit.as_deref(), Some("an exploit hint"));
    assert_eq!(p.url.as_deref(), Some("https://example.com/"));
}
