use gateway::artifact::{check_artifact_bytes, classify_wasm_uri, digest_matches,
    hex_encode, FetchKind};
use gateway::policy::{PolicyArtifact, PolicyKey, PolicyRuntimeError};
use sha2::Digest;

fn artifact(sha256: &str) -> PolicyArtifact {
    PolicyArtifact {
        key: PolicyKey::new("hdr".to_string(), "1.0.0".to_string()),
        wasm_uri: "file:///p/mod.wasm".to_string(),
        sha256: sha256.to_string(),
    }
}

fn empty_module() -> Vec<u8> {
    b"\0asm\x01\0\0\0".to_vec()
}

fn sha_hex(bytes: &[u8]) -> String {
    hex_encode(&sha2::Sha256::digest(bytes).to_vec())
}

#[test]
fn hex_encoding_is_two_lowercase_digits_per_byte() {
    assert_eq!(hex_encode(&vec![0x00, 0xab, 0x0f, 0xff]), "00ab0fff");
    assert_eq!(hex_encode(&Vec::new()), "");
}

#[test]
fn the_digest_of_a_known_vector_matches() {
    assert!(digest_matches(
        "ba7816bf8f01cfea414140de5dae2223b00361a396177a9cb410ff61f20015ad",
        &b"abc".to_vec(),
    ));
}

#[test]
fn digests_compare_case_insensitively_and_ignore_the_prefix() {
    let bytes = empty_module();
    let hex = sha_hex(&bytes).to_uppercase();
    assert!(digest_matches(&format!("sha256:{hex}"), &bytes));
    assert!(digest_matches(&format!("  {hex}  "), &bytes));
}

#[test]
fn a_mismatched_digest_rejects_the_artifact() {
    let bytes = empty_module();
    let err = check_artifact_bytes(&artifact("sha256:deadbeef"), &bytes).unwrap_err();
    match err {
        PolicyRuntimeError::ShaMismatch { id, version } => {
            assert_eq!(id, "hdr");
            assert_eq!(version, "1.0.0");
        },
        other => panic!("unexpected error: {other:?}"),
    }
}

#[test]
fn a_matching_digest_with_a_valid_module_is_accepted() {
    let bytes = empty_module();
    let declared = sha_hex(&bytes);
    assert!(check_artifact_bytes(&artifact(&declared), &bytes).is_ok());
}

#[test]
fn a_matching_digest_with_invalid_bytes_is_rejected_as_bad_wasm() {
    let bytes = b"not a module".to_vec();
    let declared = sha_hex(&bytes);
    let err = check_artifact_bytes(&artifact(&declared), &bytes).unwrap_err();
    assert!(matches!(err, PolicyRuntimeError::InvalidWasm { .. }));
}

#[test]
fn uri_schemes_classify_as_documented() {
    assert_eq!(
        classify_wasm_uri("file:///p/mod.wasm").unwrap(),
        FetchKind::LocalFile
    );
    assert_eq!(
        classify_wasm_uri("http://example.com/m.wasm").unwrap(),
        FetchKind::HttpFetch
    );
    assert_eq!(
        classify_wasm_uri("https://example.com/m.wasm").unwrap(),
        FetchKind::HttpFetch
    );
    assert!(matches!(
        classify_wasm_uri("oci://registry/m"),
        Err(PolicyRuntimeError::UnsupportedUri(_))
    ));
    assert!(matches!(
        classify_wasm_uri("not a uri"),
        Err(PolicyRuntimeError::UnsupportedUri(_))
    ));
}
