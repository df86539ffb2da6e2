//! Policy artifact integrity: digest verification, module validation, and
//! fetch-location classification.
//!
//! An artifact's bytes must hash to its declared digest — compared case
//! insensitively, with an optional `sha256:` prefix stripped — and must be
//! a valid sandbox module, before anything may execute them.

use sha2::Digest;
use vstd::prelude::*;
use vstd::string::StrSliceExecFns;
use vstd::string::StringExecFns;

use crate::json_text::hex_digit_char;
use crate::policy::{PolicyArtifact, PolicyRuntimeError};
use crate::strutil::{ascii_lower, lower_seq, str_eq, str_starts_with, trim_ascii,
    trim_spec};

verus! {

broadcast use vstd::string::group_string_axioms;

/// The SHA-256 digest of a byte sequence; a function of the bytes alone.
pub uninterp spec fn sha256_of(bytes: Seq<u8>) -> Seq<u8>;

/// Relies on sha2::Sha256::digest: the SHA-256 digest, 32 bytes, a
/// function of the input bytes alone.
#[verifier::external_body]
fn sha256_digest(bytes: &Vec<u8>) -> (r: Vec<u8>)
    ensures
        r@ == sha256_of(bytes@),
        r@.len() == 32,
{
    sha2::Sha256::digest(bytes.as_slice()).to_vec()
}

/// The lower-case hexadecimal rendering of a byte sequence, two digits a
/// byte.
pub open spec fn hex_of(bytes: Seq<u8>) -> Seq<char>
    decreases bytes.len(),
{
    if bytes.len() == 0 {
        Seq::empty()
    } else {
        seq![hex_digit_char(bytes[0] as int / 16), hex_digit_char(bytes[0] as int % 16)]
            + hex_of(bytes.drop_first())
    }
}

/// One more byte extends the rendering by its two digits.
proof fn lemma_hex_of_snoc(bytes: Seq<u8>, b: u8)
    ensures
        hex_of(bytes.push(b)) == hex_of(bytes) + seq![hex_digit_char(b as int / 16),
            hex_digit_char(b as int % 16)],
    decreases bytes.len(),
{
    let p = bytes.push(b);
    if bytes.len() == 0 {
        assert(p[0] == b);
        assert(p.drop_first() =~= Seq::<u8>::empty());
        assert(hex_of(Seq::<u8>::empty()) =~= Seq::<char>::empty());
        assert(hex_of(p) =~= hex_of(bytes) + seq![hex_digit_char(b as int / 16),
            hex_digit_char(b as int % 16)]);
    } else {
        lemma_hex_of_snoc(bytes.drop_first(), b);
        assert(p[0] == bytes[0]);
        assert(p.drop_first() =~= bytes.drop_first().push(b));
        let head = seq![hex_digit_char(bytes[0] as int / 16), hex_digit_char(
            bytes[0] as int % 16)];
        let tail = seq![hex_digit_char(b as int / 16), hex_digit_char(b as int % 16)];
        assert(head + (hex_of(bytes.drop_first()) + tail)
            =~= (head + hex_of(bytes.drop_first())) + tail);
    }
}

/// The lower-case hexadecimal rendering of bytes.
pub fn hex_encode(bytes: &Vec<u8>) -> (r: String)
    ensures
        r@ == hex_of(bytes@),
{
    let mut out = String::new();
    proof {
        assert(bytes@.take(0) =~= Seq::<u8>::empty());
        assert(hex_of(Seq::<u8>::empty()) =~= Seq::<char>::empty());
    }
    let mut i: usize = 0;
    while i < bytes.len()
        invariant
            i <= bytes@.len(),
            out@ == hex_of(bytes@.take(i as int)),
        decreases bytes@.len() - i,
    {
        let b = bytes[i];
        let hi: u8 = b / 16;
        let lo: u8 = b % 16;
        let hc = if hi < 10 {
            crate::strutil::char_from_u32(48 + hi as u32)
        } else {
            crate::strutil::char_from_u32(87 + hi as u32)
        };
        let lc = if lo < 10 {
            crate::strutil::char_from_u32(48 + lo as u32)
        } else {
            crate::strutil::char_from_u32(87 + lo as u32)
        };
        crate::strutil::push_char(&mut out, hc);
        crate::strutil::push_char(&mut out, lc);
        proof {
            lemma_hex_of_snoc(bytes@.take(i as int), bytes@[i as int]);
            assert(bytes@.take(i as int + 1) =~= bytes@.take(i as int).push(
                bytes@[i as int]));
            assert(out@ =~= hex_of(bytes@.take(i as int + 1)));
        }
        i = i + 1;
    }
    proof {
        assert(bytes@.take(bytes@.len() as int) =~= bytes@);
    }
    out
}

/// A declared digest in canonical form: trimmed, the `sha256:` prefix
/// stripped, and lowered.
pub open spec fn normalize_digest(s: Seq<char>) -> Seq<char> {
    let t = trim_spec(s);
    if "sha256:"@.is_prefix_of(t) {
        lower_seq(t.skip("sha256:"@.len() as int))
    } else {
        lower_seq(t)
    }
}

/// The canonical form of a declared digest.
pub fn normalize_digest_exec(s: &str) -> (r: String)
    ensures
        r@ == normalize_digest(s@),
{
    let t = trim_ascii(s);
    proof {
        reveal_strlit("sha256:");
    }
    if str_starts_with(t, "sha256:") {
        let n = t.unicode_len();
        let rest = t.substring_char(7, n);
        proof {
            assert(rest@ =~= t@.skip("sha256:"@.len() as int));
        }
        ascii_lower(rest)
    } else {
        ascii_lower(t)
    }
}

/// Whether the declared digest names the bytes' SHA-256 value.
pub fn digest_matches(expected: &str, bytes: &Vec<u8>) -> (r: bool)
    ensures
        r == (normalize_digest(expected@) == hex_of(sha256_of(bytes@))),
{
    let digest = sha256_digest(bytes);
    let actual = hex_encode(&digest);
    let norm = normalize_digest_exec(expected);
    norm == actual
}

/// Whether the sandbox format accepts the bytes as a module; a function
/// of the bytes alone.
pub uninterp spec fn wasm_module_valid(bytes: Seq<u8>) -> bool;

/// Relies on wasmparser::Validator::validate_all: static validation of the
/// module bytes, a function of the bytes alone; the failure carries the
/// validator's message.
#[verifier::external_body]
fn validate_wasm_bytes(bytes: &Vec<u8>) -> (r: Result<(), String>)
    ensures
        r is Ok <==> wasm_module_valid(bytes@),
{
    wasmparser::Validator::new()
        .validate_all(bytes.as_slice())
        .map(|_| ())
        .map_err(|e| e.to_string())
}

/// An artifact's fetched bytes pass exactly when the digest matches and
/// the module validates; a digest mismatch is reported before anything
/// else, so no artifact with a wrong digest is ever accepted.
pub fn check_artifact_bytes(artifact: &PolicyArtifact, bytes: &Vec<u8>) -> (r: Result<
    (), PolicyRuntimeError>)
    ensures
        r is Ok <==> (normalize_digest(artifact.sha256@) == hex_of(sha256_of(bytes@))
            && wasm_module_valid(bytes@)),
        normalize_digest(artifact.sha256@) != hex_of(sha256_of(bytes@))
            ==> (r matches Err(e) && e matches PolicyRuntimeError::ShaMismatch {
                id, version } && id@ == artifact.key.id@
                && version@ == artifact.key.version@),
        (normalize_digest(artifact.sha256@) == hex_of(sha256_of(bytes@))
            && !wasm_module_valid(bytes@))
            ==> (r matches Err(e) && e matches PolicyRuntimeError::InvalidWasm {
                id, version, .. } && id@ == artifact.key.id@
                && version@ == artifact.key.version@),
{
    if !digest_matches(artifact.sha256.as_str(), bytes) {
        return Err(PolicyRuntimeError::ShaMismatch {
            id: artifact.key.id.clone(),
            version: artifact.key.version.clone(),
        });
    }
    match validate_wasm_bytes(bytes) {
        Ok(()) => Ok(()),
        Err(reason) => Err(PolicyRuntimeError::InvalidWasm {
            id: artifact.key.id.clone(),
            version: artifact.key.version.clone(),
            reason,
        }),
    }
}

/// Whether a URL string parses; a function of the text alone.
pub uninterp spec fn url_parses(s: Seq<char>) -> bool;

/// The scheme, host, and scheme-defaulted port of a URL that parses; a
/// function of the text alone.
pub uninterp spec fn url_parts_of(s: Seq<char>) -> (Seq<char>, Option<Seq<char>>, Option<
    u16>);

/// The parts of a parsed URL that the library reads.
pub struct UrlParts {
    pub scheme: String,
    pub host: Option<String>,
    pub port: Option<u16>,
}

/// The views of the parts.
pub open spec fn url_parts_view(p: UrlParts) -> (Seq<char>, Option<Seq<char>>, Option<
    u16>) {
    (p.scheme@, match p.host {
        Some(h) => Some(h@),
        None => None,
    }, p.port)
}

/// Relies on url::Url::parse, and on the parsed value's scheme, host_str
/// and port_or_known_default accessors: all are functions of the text
/// alone.
#[verifier::external_body]
pub fn parse_url(s: &str) -> (r: Option<UrlParts>)
    ensures
        r is Some <==> url_parses(s@),
        r matches Some(p) ==> url_parts_view(p) == url_parts_of(s@),
{
    match url::Url::parse(s) {
        Ok(u) => Some(UrlParts {
            scheme: u.scheme().to_string(),
            host: u.host_str().map(|h| h.to_string()),
            port: u.port_or_known_default(),
        }),
        Err(_) => None,
    }
}

/// How an artifact's bytes are obtained: a local file, or an HTTP fetch.
#[derive(Debug, PartialEq, Eq, Structural)]
pub enum FetchKind {
    LocalFile,
    HttpFetch,
}

/// The fetch plan for an artifact location. The `file` and `http(s)`
/// schemes are supported; `oci` is reserved, and anything else — or a
/// string that is not a URL — is unsupported.
pub fn classify_wasm_uri(uri: &str) -> (r: Result<FetchKind, PolicyRuntimeError>)
    ensures
        !url_parses(uri@) ==> (r matches Err(e)
            && e matches PolicyRuntimeError::UnsupportedUri(u) && u@ == uri@),
        url_parses(uri@) ==> {
            let (scheme, host, port) = url_parts_of(uri@);
            &&& scheme == "file"@ ==> r == Ok::<FetchKind, PolicyRuntimeError>(
                FetchKind::LocalFile)
            &&& (scheme == "http"@ || scheme == "https"@) ==> r == Ok::<FetchKind,
                PolicyRuntimeError>(FetchKind::HttpFetch)
            &&& !(scheme == "file"@ || scheme == "http"@ || scheme == "https"@)
                ==> (r matches Err(e)
                && e matches PolicyRuntimeError::UnsupportedUri(_))
        },
{
    proof {
        reveal_strlit("file");
        reveal_strlit("http");
        reveal_strlit("https");
        reveal_strlit("oci");
        assert("file"@ != "http"@) by {
            assert("file"@[0] == 'f');
            assert("http"@[0] == 'h');
        }
        assert("file"@ != "https"@) by {
            assert("file"@.len() != "https"@.len());
        }
        assert("oci"@ != "http"@) by {
            assert("oci"@.len() != "http"@.len());
        }
        assert("oci"@ != "https"@) by {
            assert("oci"@.len() != "https"@.len());
        }
        assert("oci"@ != "file"@) by {
            assert("oci"@.len() != "file"@.len());
        }
    }
    let parts = match parse_url(uri) {
        Some(p) => p,
        None => {
            return Err(PolicyRuntimeError::UnsupportedUri(uri.to_owned()));
        },
    };
    if str_eq(parts.scheme.as_str(), "file") {
        Ok(FetchKind::LocalFile)
    } else if str_eq(parts.scheme.as_str(), "http")
        || str_eq(parts.scheme.as_str(), "https") {
        Ok(FetchKind::HttpFetch)
    } else if str_eq(parts.scheme.as_str(), "oci") {
        Err(PolicyRuntimeError::UnsupportedUri(
            "oci:// uri is not implemented yet".to_owned()))
    } else {
        Err(PolicyRuntimeError::UnsupportedUri(uri.to_owned()))
    }
}

} // verus!
