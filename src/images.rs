//! Names and inline forms of cached cover images.

use vstd::prelude::*;

verus! {

/// The lower-case hexadecimal MD5 digest of the UTF-8 bytes of `s`.
pub uninterp spec fn md5_hex(s: Seq<char>) -> Seq<char>;

/// Relies on `md5::compute` and the digest's `LowerHex` format (two digits
/// per byte); the result depends on the text alone.
#[verifier::external_body]
fn md5_hex_of(s: &str) -> (r: String)
    ensures
        r@ == md5_hex(s@),
{
    format!("{:x}", md5::compute(s))
}

/// The standard (padded) base64 encoding of `b`.
pub uninterp spec fn base64_standard(b: Seq<u8>) -> Seq<char>;

/// Relies on `base64::Engine::encode` with the `STANDARD` engine; the
/// result depends on the bytes alone. It panics where the encoded length
/// overflows `usize`, which the bound keeps out.
#[verifier::external_body]
fn base64_encode(b: &[u8]) -> (r: String)
    requires
        b@.len() <= usize::MAX / 4,
    ensures
        r@ == base64_standard(b@),
{
    base64::Engine::encode(&base64::engine::general_purpose::STANDARD, b)
}

pub open spec fn image_cache_dir() -> Seq<char> {
    "./cache/images"@
}

pub open spec fn jpeg_data_prefix() -> Seq<char> {
    "data:image/jpeg;base64,"@
}

/// The cache file of an image whose URL hashes to `hash`.
pub fn cache_path_for_hash(hash: &str) -> (r: String)
    ensures
        r@ == image_cache_dir() + "/"@ + hash@,
{
    let mut r = String::from_str("./cache/images");
    r.append("/");
    r.append(hash);
    r
}

/// The cache file of the image at `url`: named by the MD5 digest of the URL.
pub fn image_cache_path(url: &str) -> (r: String)
    ensures
        r@ == image_cache_dir() + "/"@ + md5_hex(url@),
{
    let hash = md5_hex_of(url);
    cache_path_for_hash(hash.as_str())
}

/// A JPEG data URI with an already encoded payload.
pub fn data_uri_for(encoded: &str) -> (r: String)
    ensures
        r@ == jpeg_data_prefix() + encoded@,
{
    let mut r = String::from_str("data:image/jpeg;base64,");
    r.append(encoded);
    r
}

/// The cached image bytes as a JPEG data URI, to inline in a response.
pub fn jpeg_data_uri(bytes: &Vec<u8>) -> (r: String)
    requires
        bytes@.len() <= usize::MAX / 4,
    ensures
        r@ == jpeg_data_prefix() + base64_standard(bytes@),
{
    let encoded = base64_encode(bytes.as_slice());
    data_uri_for(encoded.as_str())
}

/// The centred square that a thumbnail is cut to: its left and top offsets
/// and its side, the shorter of the image's two sides.
pub fn square_crop(width: u32, height: u32) -> (r: (u32, u32, u32))
    ensures
        r.2 == if width <= height { width } else { height },
        r.0 == (width - r.2) / 2,
        r.1 == (height - r.2) / 2,
{
    let size = if width <= height { width } else { height };
    ((width - size) / 2, (height - size) / 2, size)
}

} // verus!
