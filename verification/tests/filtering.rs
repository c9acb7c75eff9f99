use what_rs::catalog::PatternDef;
use what_rs::filter::{parse_rarity, Filter, FilterError};

fn pattern(rarity: u32, tags: &[&str]) -> PatternDef {
    PatternDef {
        name: "probe".to_string(),
        regex_bordered: "^x$".to_string(),
        regex_borderless: "x".to_string(),
        rarity,
        tags: tags.iter().map(|t| t.to_string()).collect(),
        description: None,
        exploit: None,
        url: None,
    }
}

#[test]
fn parses_default_range() {
    assert!(matches!(parse_rarity("0.1:1"), Ok((100, 1000))));
}

#[test]
fn parses_zero_to_one() {
    assert!(matches!(parse_rarity("0:1"), Ok((0, 1000))));
}

#[test]
fn parses_fractions() {
    assert!(matches!(parse_rarity("0.25:0.75"), Ok((250, 750))));
    assert!(matches!(parse_rarity(".5:1"), Ok((500, 1000))));
}

#[test]
fn rejects_wrong_shape() {
    assert!(matches!(parse_rarity("1"), Err(FilterError::RarityFormat)));
    assert!(matches!(
        parse_rarity("0:1:2"),
        Err(FilterError::RarityFormat)
    ));
}

#[test]
fn rejects_non_numbers() {
    assert!(matches!(
        parse_rarity("a:1"),
        Err(FilterError::RarityNumber)
    ));
    assert!(matches!(
        parse_rarity("0.1:"),
        Err(FilterError::RarityNumber)
    ));
}

#[test]
fn rejects_out_of_range() {
    assert!(matches!(
        parse_rarity("-0.5:1"),
        Err(FilterError::RarityRange)
    ));
    assert!(matches!(
        parse_rarity("0:1.5"),
        Err(FilterError::RarityRange)
    ));
}

#[test]
fn allows_inverted_window() {
    assert!(matches!(parse_rarity("0.5:0.2"), Ok((500, 200))));
}

#[test]
fn default_filter_values() {
    let f = Filter::default();
    assert_eq!(f.min, 100);
    assert_eq!(f.max, 1000);
    assert!(f.borderless);
    assert!(f.include_set.is_empty());
    assert!(f.exclude_set.is_empty());
}

#[test]
fn rarity_below_window_excludes_whatever_the_tags() {
    let f = Filter::default();
    assert!(f.gets_excluded(&pattern(50, &["url"])));
    assert!(f.gets_excluded(&pattern(50, &[])));
    assert!(f.gets_excluded(&pattern(99, &["media", "url"])));
}

#[test]
fn rarity_above_window_excludes_whatever_the_tags() {
    let f = Filter::default()
        .rarity(&"0.1:0.5".to_string())
        .expect("range parses");
    assert!(f.gets_excluded(&pattern(501, &["url"])));
    assert!(!f.gets_excluded(&pattern(500, &["url"])));
}

#[test]
fn excluded_tag_wins() {
    let known = vec!["url".to_string(), "media".to_string()];
    let f = Filter::default()
        .exclude(&"url".to_string(), &known)
        .expect("tags are known");
    assert!(f.gets_excluded(&pattern(500, &["url"])));
    assert!(!f.gets_excluded(&pattern(500, &["media"])));
}

#[test]
fn include_set_must_intersect() {
    let known = vec!["url".to_string(), "media".to_string()];
    let f = Filter::default()
        .include_tags(&"media".to_string(), &known)
        .expect("tags are known");
    assert!(f.gets_excluded(&pattern(500, &["url"])));
    assert!(!f.gets_excluded(&pattern(500, &["media", "url"])));
}

#[test]
fn tag_lists_are_lowercased() {
    let known = vec!["url".to_string()];
    let f = Filter::default()
        .include_tags(&"URL".to_string(), &known)
        .expect("lowercased tag is known");
    assert_eq!(f.include_set, vec!["url".to_string()]);
}

#[test]
fn unknown_tags_are_reported() {
    let known = vec!["url".to_string()];
    match Filter::default().exclude(&"url,bogus,worse".to_string(), &known) {
        Err(FilterError::UnknownTags(bad)) => {
            assert_eq!(bad, vec!["bogus".to_string(), "worse".to_string()]);
        }
        _ => panic!("expected the unknown tags to be reported"),
    }
}

#[test]
fn empty_tag_lists_change_nothing() {
    let known: Vec<String> = Vec::new();
    let f = Filter::default()
        .include_tags(&"".to_string(), &known)
        .expect("empty list is fine")
        .exclude(&"".to_string(), &known)
        .expect("empty list is fine");
    assert!(f.include_set.is_empty());
    assert!(f.exclude_set.is_empty());
}
