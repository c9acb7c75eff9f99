use what_rs::catalog::{build_catalog, Catalog, RawPattern};
use what_rs::filter::Filter;
use what_rs::identifier::{Identifier, Match};
use what_rs::options::Options;

const ETH_ADDRESS: &str = "0x52908400098527886E0F7030069857D2E4169EE7";

fn raw(name: &str, regex: &str, rarity: u32, tags: &[&str]) -> RawPattern {
    RawPattern {
        name: name.to_string(),
        regex: regex.to_string(),
        rarity,
        tags: tags.iter().map(|t| t.to_string()).collect(),
        description: Some(format!("{} description", name)),
        exploit: None,
        url: Some("https://example.com/".to_string()),
    }
}

fn test_catalog() -> Catalog {
    build_catalog(&vec![
        raw(
            "Ethereum (ETH) Wallet Address",
            "^0x[a-fA-F0-9]{40}$",
            600,
            &["Cryptocurrency", "Ethereum"],
        ),
        raw(
            "Turkish Identification Number",
            "^[1-9][0-9]{9}[02468]$",
            400,
            &["Identification"],
        ),
        raw(
            "Uniform Resource Locator (URL)",
            "^(https?://)?[A-Za-z0-9-]+\\.[a-z]{2,6}(/\\S*)?$",
            500,
            &["URL", "Identifiers"],
        ),
        raw(
            "Internet Hostname",
            "^[a-z0-9-]+\\.[a-z]{2,6}$",
            450,
            &["Networking"],
        ),
        raw(
            "Bitcoin Wallet Address",
            "^[13][a-km-zA-HJ-NP-Z1-9]{25,34}$",
            400,
            &["Bitcoin", "Cryptocurrency"],
        ),
        raw(
            "YouTube Video ID",
            "^[a-zA-Z0-9_-]{11}$",
            50,
            &["Media"],
        ),
    ])
}

fn options() -> Options {
    Options {
        verbose: false,
        only_text: true,
        allow_duplicates: false,
        pcapng: false,
    }
}

fn scan(text: &str, filter: &Filter) -> Vec<Match> {
    let catalog = test_catalog();
    let mut matches: Vec<Match> = Vec::new();
    Identifier::new().identify_text(
        text.to_string(),
        &mut matches,
        &catalog,
        filter,
        &options(),
    );
    matches
}

fn names(matches: &[Match]) -> Vec<&str> {
    matches.iter().map(|m| m.name.as_str()).collect()
}

#[test]
fn find_content_in_text() {
    let matches = scan(ETH_ADDRESS, &Filter::default());
    let m = matches
        .iter()
        .find(|m| m.name.contains("Ethereum"))
        .expect("the Ethereum pattern matches");
    assert_eq!(m.matched_on, ETH_ADDRESS);
    assert_eq!(m.rarity, 600);
}

#[test]
fn find_content_in_file() {
    // The file path: raw bytes go through printable-text extraction first.
    let catalog = test_catalog();
    let mut matches: Vec<Match> = Vec::new();
    let mut bytes = b"\x00\x01".to_vec();
    bytes.extend_from_slice(ETH_ADDRESS.as_bytes());
    bytes.extend_from_slice(b"\x02\x03");
    Identifier::new().identify_bytes(
        bytes,
        &mut matches,
        &catalog,
        &Filter::default(),
        &options(),
    );
    assert!(names(&matches).contains(&"Ethereum (ETH) Wallet Address"));
}

#[test]
fn find_borderless_content_in_text() {
    let matches = scan(ETH_ADDRESS, &Filter::default());
    let turkish = matches
        .iter()
        .find(|m| m.name == "Turkish Identification Number")
        .expect("the borderless Turkish pattern matches inside the address");
    assert_eq!(turkish.matched_on, "52908400098");
}

#[test]
fn dont_find_bordered_content_in_text() {
    let filter = Filter::default().borderless(false);
    let matches = scan(ETH_ADDRESS, &filter);
    assert!(names(&matches).contains(&"Ethereum (ETH) Wallet Address"));
    assert!(!names(&matches).contains(&"Turkish Identification Number"));
}

#[test]
fn find_url() {
    let matches = scan("test.com", &Filter::default());
    assert!(names(&matches).contains(&"Uniform Resource Locator (URL)"));
}

#[test]
fn find_url_if_in_included() {
    let catalog = test_catalog();
    let filter = Filter::default()
        .include_tags(&"url".to_string(), &catalog.tags)
        .expect("url is a known tag");
    let matches = scan("test.com", &filter);
    assert!(names(&matches).contains(&"Uniform Resource Locator (URL)"));
}

#[test]
fn find_url_if_unrelated_in_excluded() {
    let catalog = test_catalog();
    let filter = Filter::default()
        .exclude(&"bitcoin".to_string(), &catalog.tags)
        .expect("bitcoin is a known tag");
    let matches = scan("test.com", &filter);
    assert!(names(&matches).contains(&"Uniform Resource Locator (URL)"));
}

#[test]
fn dont_find_url_if_in_excluded() {
    let catalog = test_catalog();
    let filter = Filter::default()
        .exclude(&"url".to_string(), &catalog.tags)
        .expect("url is a known tag");
    let matches = scan("test.com", &filter);
    assert!(!names(&matches).contains(&"Uniform Resource Locator (URL)"));
    // An unrelated pattern on the same input is still reported.
    assert!(names(&matches).contains(&"Internet Hostname"));
}

#[test]
fn dont_find_url_if_unrelated_in_included() {
    let catalog = test_catalog();
    let filter = Filter::default()
        .include_tags(&"bitcoin".to_string(), &catalog.tags)
        .expect("bitcoin is a known tag");
    let matches = scan("test.com", &filter);
    assert!(!names(&matches).contains(&"Uniform Resource Locator (URL)"));
}

#[test]
fn dont_find_url_if_too_rare() {
    let matches = scan("dQw4w9WgXcQ", &Filter::default());
    assert!(!names(&matches).contains(&"YouTube Video ID"));
}

#[test]
fn find_url_if_not_too_rare() {
    let filter = Filter::default()
        .rarity(&"0:1".to_string())
        .expect("range parses");
    let matches = scan("dQw4w9WgXcQ", &filter);
    assert!(names(&matches).contains(&"YouTube Video ID"));
}

#[test]
fn duplicate_literal_reported_once() {
    let text = format!("{} {}", ETH_ADDRESS, ETH_ADDRESS);
    let matches = scan(&text, &Filter::default());
    let eth: Vec<&Match> = matches
        .iter()
        .filter(|m| m.name.contains("Ethereum"))
        .collect();
    assert_eq!(eth.len(), 1);
}

#[test]
fn duplicate_literal_reported_twice_when_allowed() {
    let text = format!("{} {}", ETH_ADDRESS, ETH_ADDRESS);
    let catalog = test_catalog();
    let mut matches: Vec<Match> = Vec::new();
    let mut opts = options();
    opts.allow_duplicates = true;
    Identifier::new().identify_text(
        text,
        &mut matches,
        &catalog,
        &Filter::default(),
        &opts,
    );
    let eth: Vec<&Match> = matches
        .iter()
        .filter(|m| m.name.contains("Ethereum"))
        .collect();
    assert_eq!(eth.len(), 2);
}

#[test]
fn dedup_spans_texts_of_one_session() {
    let catalog = test_catalog();
    let mut matches: Vec<Match> = Vec::new();
    let mut identifier = Identifier::new();
    identifier.identify_text(
        ETH_ADDRESS.to_string(),
        &mut matches,
        &catalog,
        &Filter::default(),
        &options(),
    );
    identifier.identify_text(
        ETH_ADDRESS.to_string(),
        &mut matches,
        &catalog,
        &Filter::default(),
        &options(),
    );
    let eth: Vec<&Match> = matches
        .iter()
        .filter(|m| m.name.contains("Ethereum"))
        .collect();
    assert_eq!(eth.len(), 1);
}

#[test]
fn match_carries_pattern_metadata() {
    let matches = scan(ETH_ADDRESS, &Filter::default());
    let m = matches
        .iter()
        .find(|m| m.name.contains("Ethereum"))
        .expect("the Ethereum pattern matches");
    assert_eq!(
        m.description.as_deref(),
        Some("Ethereum (ETH) Wallet Address description")
    );
    assert_eq!(m.link.as_deref(), Some("https://example.com/"));
    assert_eq!(m.exploit, None);
}
