use what_rs::capture::CaptureError;
use what_rs::catalog::{build_catalog, Catalog, RawPattern};
use what_rs::filter::Filter;
use what_rs::identifier::{Identifier, Match};
use what_rs::options::Options;

const ETH_ADDRESS: &str = "0x52908400098527886E0F7030069857D2E4169EE7";

fn catalog() -> Catalog {
    build_catalog(&vec![RawPattern {
        name: "Ethereum (ETH) Wallet Address".to_string(),
        regex: "^0x[a-fA-F0-9]{40}$".to_string(),
        rarity: 600,
        tags: vec!["cryptocurrency".to_string()],
        description: None,
        exploit: None,
        url: None,
    }])
}

fn options() -> Options {
    Options {
        verbose: false,
        only_text: false,
        allow_duplicates: false,
        pcapng: true,
    }
}

/// A minimal capture stream: a section header block, an interface
/// description block, and one simple packet block whose payload holds the
/// address.
fn capture_bytes() -> Vec<u8> {
    let mut bytes: Vec<u8> = Vec::new();
    // Section header block: type, length 28, byte-order magic, version 1.0,
    // unknown section length, length again.
    bytes.extend_from_slice(&[0x0A, 0x0D, 0x0D, 0x0A]);
    bytes.extend_from_slice(&28u32.to_le_bytes());
    bytes.extend_from_slice(&[0x4D, 0x3C, 0x2B, 0x1A]);
    bytes.extend_from_slice(&[0x01, 0x00, 0x00, 0x00]);
    bytes.extend_from_slice(&[0xFF; 8]);
    bytes.extend_from_slice(&28u32.to_le_bytes());
    // Interface description block: type, length 20, link type 1, snap length
    // 0, length again.
    bytes.extend_from_slice(&[0x01, 0x00, 0x00, 0x00]);
    bytes.extend_from_slice(&20u32.to_le_bytes());
    bytes.extend_from_slice(&[0x01, 0x00, 0x00, 0x00]);
    bytes.extend_from_slice(&0u32.to_le_bytes());
    bytes.extend_from_slice(&20u32.to_le_bytes());
    // Simple packet block: type, length 60, original length 42, the payload
    // padded to a multiple of four, length again.
    let payload = ETH_ADDRESS.as_bytes();
    bytes.extend_from_slice(&[0x03, 0x00, 0x00, 0x00]);
    bytes.extend_from_slice(&60u32.to_le_bytes());
    bytes.extend_from_slice(&(payload.len() as u32).to_le_bytes());
    bytes.extend_from_slice(payload);
    bytes.extend_from_slice(&[0x00, 0x00]);
    bytes.extend_from_slice(&60u32.to_le_bytes());
    bytes
}

#[test]
fn identify_pcapng() {
    let catalog = catalog();
    let mut matches: Vec<Match> = Vec::new();
    let data = capture_bytes();
    let result = Identifier::new().identify_capture_bytes(
        &data,
        &mut matches,
        &catalog,
        &Filter::default(),
        &options(),
    );
    assert!(result.is_ok());
    let eth: Vec<&Match> = matches
        .iter()
        .filter(|m| m.name.contains("Ethereum"))
        .collect();
    assert_eq!(eth.len(), 1);
    assert_eq!(eth[0].matched_on, ETH_ADDRESS);
}

#[test]
fn truncated_block_does_not_hang() {
    let catalog = catalog();
    let mut matches: Vec<Match> = Vec::new();
    let mut data = capture_bytes();
    // A block header claiming far more bytes than the stream holds.
    data.extend_from_slice(&[0x06, 0x00, 0x00, 0x00]);
    data.extend_from_slice(&1024u32.to_le_bytes());
    let result = Identifier::new().identify_capture_bytes(
        &data,
        &mut matches,
        &catalog,
        &Filter::default(),
        &options(),
    );
    assert!(result.is_err());
    // The whole blocks before the truncation were still scanned.
    assert!(matches.iter().any(|m| m.name.contains("Ethereum")));
}

#[test]
fn rejects_non_capture_input() {
    let catalog = catalog();
    let mut matches: Vec<Match> = Vec::new();
    let result = Identifier::new().identify_capture_bytes(
        b"this is not a capture container",
        &mut matches,
        &catalog,
        &Filter::default(),
        &options(),
    );
    assert!(matches!(result, Err(CaptureError::Init)));
    assert!(matches.is_empty());
}
