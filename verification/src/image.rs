//! Content-addressed image assets: the data URIs used as fallbacks, the file
//! extension of a media type, and the cache file and `asset://` URL that a
//! base64 image is stored under.

use base64::Engine;
use sha2::Digest;
use vstd::prelude::*;

use crate::paths::{join_path, path_join};
use crate::text::{char_from_ascii_code, chars_of, string_from_chars};

verus! {

/// Placeholder for an image that could not be stored.
pub open spec fn empty_data_uri_text() -> Seq<char> {
    "data:application/octet-stream;base64,"@
}

/// An empty `data:` URI (the broken-image placeholder).
pub fn empty_data_uri() -> (r: String)
    ensures
        r@ == empty_data_uri_text(),
{
    String::from_str("data:application/octet-stream;base64,")
}

/// `data:{media_type};base64,{data}`.
pub open spec fn data_uri(media_type: Seq<char>, data: Seq<char>) -> Seq<char> {
    "data:"@ + media_type + ";base64,"@ + data
}

/// The full inline `data:` URI of an image.
pub fn format_data_uri(media_type: &str, base64_data: &str) -> (r: String)
    ensures
        r@ == data_uri(media_type@, base64_data@),
{
    let mut s = String::from_str("data:");
    s.append(media_type);
    s.append(";base64,");
    s.append(base64_data);
    s
}

/// File extension used for an image of media type `m`.
pub open spec fn media_ext(m: Seq<char>) -> Seq<char> {
    if m == "image/png"@ {
        "png"@
    } else if m == "image/jpeg"@ || m == "image/jpg"@ {
        "jpg"@
    } else if m == "image/gif"@ {
        "gif"@
    } else if m == "image/webp"@ {
        "webp"@
    } else if m == "image/svg+xml"@ {
        "svg"@
    } else {
        "bin"@
    }
}

/// The cache-file extension of a media type; `bin` for unknown types.
pub fn media_type_to_ext(mime: &str) -> (r: &'static str)
    ensures
        r@ == media_ext(mime@),
{
    if crate::text::str_eq(mime, "image/png") {
        "png"
    } else if crate::text::str_eq(mime, "image/jpeg") || crate::text::str_eq(mime, "image/jpg") {
        "jpg"
    } else if crate::text::str_eq(mime, "image/gif") {
        "gif"
    } else if crate::text::str_eq(mime, "image/webp") {
        "webp"
    } else if crate::text::str_eq(mime, "image/svg+xml") {
        "svg"
    } else {
        "bin"
    }
}

/// What the standard base64 engine (`base64::engine::general_purpose::STANDARD`)
/// decodes `text` to, or `None` where it refuses the text.
pub uninterp spec fn base64_standard_decoding(text: Seq<char>) -> Option<Seq<u8>>;

/// The text the standard base64 engine encodes `bytes` to (with padding).
pub uninterp spec fn base64_standard_encoding(bytes: Seq<u8>) -> Seq<char>;

/// `STANDARD.encode(bytes)`: the padded standard base64 text of `bytes`,
/// which the same engine decodes back to `bytes` (its output is canonical:
/// padded, with zero trailing bits, as `STANDARD.decode` requires).
#[verifier::external_body]
pub(crate) fn base64_encode(bytes: &[u8]) -> (r: String)
    ensures
        r@ == base64_standard_encoding(bytes@),
        base64_standard_decoding(r@) == Some(bytes@),
{
    base64::engine::general_purpose::STANDARD.encode(bytes)
}

/// The SHA-256 digest of `bytes`.
pub uninterp spec fn sha256_digest(bytes: Seq<u8>) -> Seq<u8>;

/// The error of a refused base64 text.
#[verifier::external_type_specification]
#[verifier::external_body]
pub struct ExDecodeError(base64::DecodeError);

/// `STANDARD.decode` of the UTF-8 bytes of `text`: `Ok` with the decoded
/// bytes exactly where the engine accepts the text.
#[verifier::external_body]
pub(crate) fn base64_decode(text: &str) -> (r: Result<Vec<u8>, base64::DecodeError>)
    ensures
        match r {
            Ok(bytes) => base64_standard_decoding(text@) == Some(bytes@),
            Err(_) => base64_standard_decoding(text@) is None,
        },
{
    base64::engine::general_purpose::STANDARD.decode(text)
}

/// `Sha256::new()`, `update(bytes)`, `finalize()`: the 32-byte digest.
#[verifier::external_body]
fn sha256(bytes: &[u8]) -> (r: Vec<u8>)
    ensures
        r@ == sha256_digest(bytes@),
        r@.len() == 32,
{
    let mut hasher = sha2::Sha256::new();
    hasher.update(bytes);
    hasher.finalize().to_vec()
}

/// Lower-case hexadecimal digit of `n < 16`.
pub open spec fn hex_digit(n: u8) -> char {
    if n < 10 {
        (48 + n) as char
    } else {
        (87 + n) as char
    }
}

/// Two lower-case hex digits per byte (`{b:02x}`), in order.
pub open spec fn hex_of(bytes: Seq<u8>) -> Seq<char>
    decreases bytes.len(),
{
    if bytes.len() == 0 {
        Seq::empty()
    } else {
        seq![hex_digit(bytes[0] / 16), hex_digit(bytes[0] % 16)] + hex_of(bytes.drop_first())
    }
}

proof fn lemma_hex_of_push(bytes: Seq<u8>, b: u8)
    ensures
        hex_of(bytes.push(b)) == hex_of(bytes) + seq![hex_digit(b / 16), hex_digit(b % 16)],
    decreases bytes.len(),
{
    if bytes.len() == 0 {
        assert(bytes.push(b).drop_first() =~= bytes);
        assert(hex_of(bytes) =~= Seq::<char>::empty());
    } else {
        assert(bytes.push(b).drop_first() =~= bytes.drop_first().push(b));
        lemma_hex_of_push(bytes.drop_first(), b);
        assert(hex_of(bytes.push(b)) =~= hex_of(bytes) + seq![hex_digit(b / 16), hex_digit(b % 16)]);
    }
}

fn hex_char(n: u8) -> (c: char)
    requires
        n < 16,
    ensures
        c == hex_digit(n),
{
    if n < 10 {
        char_from_ascii_code(48 + n as u32)
    } else {
        char_from_ascii_code(87 + n as u32)
    }
}

/// Lower-case hex of the first eight bytes of `bytes` (all of them when
/// there are fewer).
pub fn hex_prefix8(bytes: &[u8]) -> (r: String)
    ensures
        r@ == hex_of(bytes@.take(if bytes@.len() < 8 { bytes@.len() as int } else { 8 })),
{
    let n: usize = if bytes.len() < 8 { bytes.len() } else { 8 };
    let mut out: Vec<char> = Vec::new();
    let mut i: usize = 0;
    assert(bytes@.take(0) =~= Seq::<u8>::empty());
    while i < n
        invariant
            i <= n <= bytes@.len(),
            out@ == hex_of(bytes@.take(i as int)),
        decreases n - i,
    {
        let b = bytes[i];
        proof {
            assert(bytes@.take(i + 1) =~= bytes@.take(i as int).push(b));
            lemma_hex_of_push(bytes@.take(i as int), b);
        }
        out.push(hex_char(b / 16));
        out.push(hex_char(b % 16));
        i = i + 1;
        assert(out@ =~= hex_of(bytes@.take(i as int)));
    }
    string_from_chars(&out)
}

/// Cache file name of image bytes: the hex of the first eight digest bytes,
/// a dot and the extension of the media type.
pub open spec fn cache_file_name(media_type: Seq<char>, bytes: Seq<u8>) -> Seq<char> {
    hex_of(sha256_digest(bytes).take(8)) + seq!['.'] + media_ext(media_type)
}

/// The content-addressed file name under which `bytes` are cached.
pub fn image_cache_file_name(media_type: &str, bytes: &[u8]) -> (r: String)
    ensures
        r@ == cache_file_name(media_type@, bytes@),
{
    let digest = sha256(bytes);
    let mut name = hex_prefix8(&digest);
    name.append(".");
    name.append(media_type_to_ext(media_type));
    proof {
        reveal_strlit(".");
    }
    name
}

/// `p` with every `\` turned into `/`.
pub open spec fn forward_slashes(p: Seq<char>) -> Seq<char> {
    p.map_values(|c: char| if c == '\\' { '/' } else { c })
}

/// `asset://localhost/` followed by the path with forward slashes.
pub open spec fn asset_url(path: Seq<char>) -> Seq<char> {
    "asset://localhost/"@ + forward_slashes(path)
}

/// The `asset://` URL under which the web view reads the file `path`.
pub fn asset_url_for_path(path: &str) -> (r: String)
    ensures
        r@ == asset_url(path@),
{
    let cs = chars_of(path);
    let mut out: Vec<char> = Vec::new();
    let mut i: usize = 0;
    while i < cs.len()
        invariant
            i <= cs@.len(),
            cs@ == path@,
            out@ == forward_slashes(cs@.take(i as int)),
        decreases cs@.len() - i,
    {
        if cs[i] == '\\' {
            out.push('/');
        } else {
            out.push(cs[i]);
        }
        i = i + 1;
        assert(out@ =~= forward_slashes(cs@.take(i as int)));
    }
    assert(cs@.take(cs@.len() as int) =~= cs@);
    let tail = string_from_chars(&out);
    let mut url = String::from_str("asset://localhost/");
    url.append(tail.as_str());
    url
}

/// How an image is to be shown.
#[derive(Debug)]
pub enum ImageAssetPlan {
    /// Show the image inline through this `data:` URI.
    Inline(String),
    /// Write `bytes` to `file_path` (unless the file exists) and show `url`.
    Cached { file_path: String, bytes: Vec<u8>, url: String },
}

/// Plans how to show a base64 image cached under `cache_dir`: text that
/// the standard engine refuses is shown inline; decoded bytes go to the
/// content-addressed file in `cache_dir`, shown through its `asset://` URL.
pub fn plan_image_asset(cache_dir: &str, media_type: &str, base64_data: &str) -> (r: ImageAssetPlan)
    ensures
        match base64_standard_decoding(base64_data@) {
            None => r matches ImageAssetPlan::Inline(uri) && uri@ == data_uri(media_type@, base64_data@),
            Some(b) => r matches ImageAssetPlan::Cached { file_path, bytes, url }
                && bytes@ == b
                && file_path@ == join_path(cache_dir@, cache_file_name(media_type@, b))
                && url@ == asset_url(file_path@),
        },
{
    match base64_decode(base64_data) {
        Err(_) => ImageAssetPlan::Inline(format_data_uri(media_type, base64_data)),
        Ok(bytes) => {
            let name = image_cache_file_name(media_type, &bytes);
            let file_path = path_join(cache_dir, name.as_str());
            let url = asset_url_for_path(file_path.as_str());
            ImageAssetPlan::Cached { file_path, bytes, url }
        },
    }
}

} // verus!
