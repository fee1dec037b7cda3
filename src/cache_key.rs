//! Names of cache entries, derived from the font data and the settings that
//! shape its pixels.
use vstd::prelude::*;

use sha2::Digest;

verus! {

/// Fixed bytes appended to every hashed input, so that a change of the
/// derivation gives new names.
pub open spec fn salt() -> Seq<u8> {
    seq![0xE6u8, 0x26u8, 0x69u8, 0x11u8]
}

/// The SHA-256 digest of `data`.
pub uninterp spec fn sha256_of(data: Seq<u8>) -> Seq<u8>;

/// The padded, URL-safe base64 text of `data`.
pub uninterp spec fn base64_url_of(data: Seq<u8>) -> Seq<char>;

/// The bytes that are hashed: the font data, the settings text, the salt.
pub open spec fn key_input(font: Seq<u8>, settings: Seq<u8>) -> Seq<u8> {
    font + settings + salt()
}

/// Relies on `sha2::Sha256::digest`: the 32-byte SHA-256 digest of the data.
#[verifier::external_body]
fn sha256(data: &[u8]) -> (r: Vec<u8>)
    ensures
        r@ == sha256_of(data@),
        r@.len() == 32,
{
    sha2::Sha256::digest(data).to_vec()
}

/// Relies on `base64::encode_config` with `base64::URL_SAFE`: the padded
/// base64 text of the data over the URL-safe alphabet.
#[verifier::external_body]
fn base64_url(data: &[u8]) -> (r: String)
    requires
        data@.len() <= 0xFFFF,
    ensures
        r@ == base64_url_of(data@),
{
    base64::encode_config(data, base64::URL_SAFE)
}

/// The bytes hashed into the cache key of `font` under `settings`.
pub fn cache_key_input(font: &[u8], settings: &[u8]) -> (r: Vec<u8>)
    ensures
        r@ == key_input(font@, settings@),
{
    let mut out: Vec<u8> = Vec::new();
    let mut i: usize = 0;
    while i < font.len()
        invariant
            i <= font@.len(),
            out@ == font@.subrange(0, i as int),
        decreases font@.len() - i,
    {
        out.push(font[i]);
        i = i + 1;
        assert(out@ =~= font@.subrange(0, i as int));
    }
    let mut j: usize = 0;
    while j < settings.len()
        invariant
            j <= settings@.len(),
            out@ == font@ + settings@.subrange(0, j as int),
        decreases settings@.len() - j,
    {
        out.push(settings[j]);
        j = j + 1;
        assert(out@ =~= font@ + settings@.subrange(0, j as int));
    }
    out.push(0xE6u8);
    out.push(0x26u8);
    out.push(0x69u8);
    out.push(0x11u8);
    assert(out@ =~= key_input(font@, settings@));
    out
}

/// The name of the cache entry of `font` rendered under `settings`: the
/// URL-safe base64 text of the SHA-256 digest of the key input.
pub fn cache_key(font: &[u8], settings: &[u8]) -> (r: String)
    ensures
        r@ == base64_url_of(sha256_of(key_input(font@, settings@))),
{
    let input = cache_key_input(font, settings);
    let digest = sha256(input.as_slice());
    base64_url(digest.as_slice())
}

} // verus!
