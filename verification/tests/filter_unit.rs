use gem_index_filter::{
    filter_versions_streaming, DigestAlgorithm, FilterMode, NameSet, VersionOutput,
};


#[test]
fn test_streaming_filter() {
    let input = r#"created_at: 2024-04-01T00:00:05Z
---
rails 7.0.0 abc123
activerecord 7.0.0 def456
sinatra 3.0.0 ghi789
rails 7.0.1 xyz999
"#;

    let mut allowlist = NameSet::new();
    allowlist.insert(b"rails");
    allowlist.insert(b"sinatra");

    let mut output = Vec::new();
    let digest = filter_versions_streaming(input.as_bytes(), &mut output, FilterMode::Allow(&allowlist), VersionOutput::Preserve, None).unwrap();
    assert!(digest.is_none());

    let result = String::from_utf8(output).unwrap();

    // Should contain metadata
    assert!(result.contains("created_at: 2024-04-01T00:00:05Z"));
    assert!(result.contains("---"));

    // Should contain allowlisted gems
    assert!(result.contains("rails 7.0.0 abc123"));
    assert!(result.contains("sinatra 3.0.0 ghi789"));
    assert!(result.contains("rails 7.0.1 xyz999"));

    // Should NOT contain filtered gem
    assert!(!result.contains("activerecord"));
}

#[test]
fn test_streaming_preserves_exact_format() {
    let input = r#"created_at: 2024-04-01T00:00:05Z
---
rails 7.0.0 abc123
"#;

    let mut allowlist = NameSet::new();
    allowlist.insert(b"rails");

    let mut output = Vec::new();
    filter_versions_streaming(input.as_bytes(), &mut output, FilterMode::Allow(&allowlist), VersionOutput::Preserve, None).unwrap();

    let result = String::from_utf8(output).unwrap();
    assert_eq!(result, input); // Should be identical for all-included case
}

#[test]
fn test_streaming_empty_allowlist() {
    let input = r#"created_at: 2024-04-01T00:00:05Z
---
rails 7.0.0 abc123
sinatra 3.0.0 ghi789
"#;

    let allowlist = NameSet::new();

    let mut output = Vec::new();
    filter_versions_streaming(input.as_bytes(), &mut output, FilterMode::Allow(&allowlist), VersionOutput::Preserve, None).unwrap();

    let result = String::from_utf8(output).unwrap();

    // Should only contain metadata
    assert!(result.contains("created_at"));
    assert!(result.contains("---"));
    assert!(!result.contains("rails"));
    assert!(!result.contains("sinatra"));
}

#[test]
fn test_passthrough_mode() {
    let input = r#"created_at: 2024-04-01T00:00:05Z
---
rails 7.0.0 abc123
activerecord 7.0.0 def456
sinatra 3.0.0 ghi789
"#;

    let mut output = Vec::new();
    filter_versions_streaming(input.as_bytes(), &mut output, FilterMode::Passthrough, VersionOutput::Preserve, None).unwrap();

    let result = String::from_utf8(output).unwrap();

    // Should contain metadata
    assert!(result.contains("created_at: 2024-04-01T00:00:05Z"));
    assert!(result.contains("---"));

    // Should contain all gems
    assert!(result.contains("rails 7.0.0 abc123"));
    assert!(result.contains("activerecord 7.0.0 def456"));
    assert!(result.contains("sinatra 3.0.0 ghi789"));
}

#[test]
fn test_block_mode() {
    let input = r#"created_at: 2024-04-01T00:00:05Z
---
rails 7.0.0 abc123
activerecord 7.0.0 def456
sinatra 3.0.0 ghi789
puma 5.0.0 xyz999
"#;

    let mut blocklist = NameSet::new();
    blocklist.insert(b"activerecord");
    blocklist.insert(b"puma");

    let mut output = Vec::new();
    filter_versions_streaming(input.as_bytes(), &mut output, FilterMode::Block(&blocklist), VersionOutput::Preserve, None).unwrap();

    let result = String::from_utf8(output).unwrap();

    // Should contain metadata
    assert!(result.contains("created_at: 2024-04-01T00:00:05Z"));
    assert!(result.contains("---"));

    // Should contain non-blocked gems
    assert!(result.contains("rails 7.0.0 abc123"));
    assert!(result.contains("sinatra 3.0.0 ghi789"));

    // Should NOT contain blocked gems
    assert!(!result.contains("activerecord"));
    assert!(!result.contains("puma"));
}

#[test]
fn test_block_mode_with_strip_versions() {
    let input = r#"created_at: 2024-04-01T00:00:05Z
---
rails 7.0.0,7.0.1 abc123
activerecord 7.0.0 def456
sinatra 3.0.0 ghi789
"#;

    let mut blocklist = NameSet::new();
    blocklist.insert(b"activerecord");

    let mut output = Vec::new();
    filter_versions_streaming(input.as_bytes(), &mut output, FilterMode::Block(&blocklist), VersionOutput::Strip, None).unwrap();

    let result = String::from_utf8(output).unwrap();

    // Should contain stripped versions for non-blocked gems
    assert!(result.contains("rails 0 abc123"));
    assert!(result.contains("sinatra 0 ghi789"));

    // Should NOT contain blocked gem
    assert!(!result.contains("activerecord"));
}

#[test]
fn test_strip_versions_preserves_extra_fields() {
    let input = r#"created_at: 2024-04-01T00:00:05Z
---
rails 7.0.0 abc123 extra1 extra2
sinatra 3.0.0 def456
puma 5.0.0 ghi789 extra_field
"#;

    let mut allowlist = NameSet::new();
    allowlist.insert(b"rails");
    allowlist.insert(b"puma");

    let mut output = Vec::new();
    filter_versions_streaming(input.as_bytes(), &mut output, FilterMode::Allow(&allowlist), VersionOutput::Strip, None).unwrap();

    let result = String::from_utf8(output).unwrap();

    // Should preserve extra fields after md5 hash
    assert!(result.contains("rails 0 abc123 extra1 extra2"));
    assert!(result.contains("puma 0 ghi789 extra_field"));

    // Should NOT contain filtered gem
    assert!(!result.contains("sinatra"));
}

#[test]
fn test_strip_versions() {
    let input = r#"created_at: 2024-04-01T00:00:05Z
---
rails 7.0.0,7.0.1,7.0.2 abc123def456
activerecord 7.0.0 def456
sinatra 3.0.0,3.0.1 123456789abc
rails 7.0.3,7.0.4 updated999888
"#;

    let mut allowlist = NameSet::new();
    allowlist.insert(b"rails");
    allowlist.insert(b"sinatra");

    let mut output = Vec::new();
    filter_versions_streaming(input.as_bytes(), &mut output, FilterMode::Allow(&allowlist), VersionOutput::Strip, None).unwrap();

    let result = String::from_utf8(output).unwrap();

    // Should contain metadata
    assert!(result.contains("created_at: 2024-04-01T00:00:05Z"));
    assert!(result.contains("---"));

    // Should contain stripped versions (0 instead of version list)
    assert!(result.contains("rails 0 abc123def456"));
    assert!(result.contains("rails 0 updated999888"));
    assert!(result.contains("sinatra 0 123456789abc"));

    // Should NOT contain original version strings
    assert!(!result.contains("7.0.0,7.0.1,7.0.2"));
    assert!(!result.contains("7.0.3,7.0.4"));
    assert!(!result.contains("3.0.0,3.0.1"));

    // Should NOT contain filtered gem
    assert!(!result.contains("activerecord"));
}

#[test]
fn test_strip_versions_preserves_order() {
    let input = r#"created_at: 2024-04-01T00:00:05Z
---
zebra 1.0.0 aaa111
apple 1.0.0 bbb222
mango 1.0.0 ccc333
banana 1.0.0 ddd444
"#;

    let mut allowlist = NameSet::new();
    allowlist.insert(b"banana");
    allowlist.insert(b"zebra");
    allowlist.insert(b"mango");

    let mut output = Vec::new();
    filter_versions_streaming(input.as_bytes(), &mut output, FilterMode::Allow(&allowlist), VersionOutput::Strip, None).unwrap();

    let result = String::from_utf8(output).unwrap();

    let lines: Vec<&str> = result.lines().collect();
    let gem_lines: Vec<&str> = lines.iter().skip(2).copied().collect();

    // Verify original order is preserved with stripped versions
    assert_eq!(gem_lines.len(), 3);
    assert_eq!(gem_lines[0], "zebra 0 aaa111");
    assert_eq!(gem_lines[1], "mango 0 ccc333");
    assert_eq!(gem_lines[2], "banana 0 ddd444");
}

#[test]
fn test_digest_sha256() {
    let input = r#"created_at: 2024-04-01T00:00:05Z
---
rails 7.0.0 abc123
sinatra 3.0.0 ghi789
"#;

    let mut allowlist = NameSet::new();
    allowlist.insert(b"rails");

    let mut output = Vec::new();
    let digest = filter_versions_streaming(
        input.as_bytes(),
        &mut output,
        FilterMode::Allow(&allowlist),
        VersionOutput::Preserve,
        Some(DigestAlgorithm::Sha256)
    ).unwrap();

    // Should return a digest
    assert!(digest.is_some());
    let digest_hex = digest.unwrap();

    // SHA-256 produces 64 hex characters (32 bytes)
    assert_eq!(digest_hex.len(), 64);

    // Verify digest is hex
    assert!(digest_hex.chars().all(|c| c.is_ascii_hexdigit()));

    // Verify output content is correct
    let result = String::from_utf8(output).unwrap();
    assert!(result.contains("rails 7.0.0 abc123"));
    assert!(!result.contains("sinatra"));
}


#[test]
fn test_digest_sha512() {
    let input = r#"created_at: 2024-04-01T00:00:05Z
---
rails 7.0.0 abc123
"#;

    let mut output = Vec::new();
    let digest = filter_versions_streaming(
        input.as_bytes(),
        &mut output,
        FilterMode::Passthrough,
        VersionOutput::Preserve,
        Some(DigestAlgorithm::Sha512)
    ).unwrap();

    // Should return a digest
    assert!(digest.is_some());
    let digest_hex = digest.unwrap();

    // SHA-512 produces 128 hex characters (64 bytes)
    assert_eq!(digest_hex.len(), 128);

    // Verify digest is hex
    assert!(digest_hex.chars().all(|c| c.is_ascii_hexdigit()));
}

#[test]
fn test_digest_with_strip_versions() {
    let input = r#"created_at: 2024-04-01T00:00:05Z
---
rails 7.0.0,7.0.1,7.0.2 abc123
sinatra 3.0.0 def456
"#;

    let mut allowlist = NameSet::new();
    allowlist.insert(b"rails");

    let mut output = Vec::new();
    let digest = filter_versions_streaming(
        input.as_bytes(),
        &mut output,
        FilterMode::Allow(&allowlist),
        VersionOutput::Strip,
        Some(DigestAlgorithm::Sha256)
    ).unwrap();

    assert!(digest.is_some());
    let result = String::from_utf8(output).unwrap();

    // Verify stripped output
    assert!(result.contains("rails 0 abc123"));

    // Digest should be different from non-stripped version
    let mut output2 = Vec::new();
    let digest2 = filter_versions_streaming(
        input.as_bytes(),
        &mut output2,
        FilterMode::Allow(&allowlist),
        VersionOutput::Preserve,
        Some(DigestAlgorithm::Sha256)
    ).unwrap();

    assert_ne!(digest.unwrap(), digest2.unwrap());
}

#[test]
fn test_digest_consistency() {
    let input = r#"created_at: 2024-04-01T00:00:05Z
---
rails 7.0.0 abc123
"#;

    // Run twice with same input, should get same digest
    let mut output1 = Vec::new();
    let digest1 = filter_versions_streaming(
        input.as_bytes(),
        &mut output1,
        FilterMode::Passthrough,
        VersionOutput::Preserve,
        Some(DigestAlgorithm::Sha256)
    ).unwrap();

    let mut output2 = Vec::new();
    let digest2 = filter_versions_streaming(
        input.as_bytes(),
        &mut output2,
        FilterMode::Passthrough,
        VersionOutput::Preserve,
        Some(DigestAlgorithm::Sha256)
    ).unwrap();

    assert_eq!(digest1, digest2);
    assert_eq!(output1, output2);
}
