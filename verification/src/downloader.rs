//! Remote locations of the distributable content, and decompression of
//! fetched bodies. The network transfer itself is I/O and lives with the
//! caller; this module owns what can be computed: the request URL for a
//! remote path, the randomized mirror path the manifest itself is fetched
//! under, and the decompression applied to every fetched body.

use vstd::prelude::*;
use crate::digits::{hex_char_upper, hex_digit_str};

verus! {

/// Why retrieving one remote object failed.
#[derive(Debug, Clone, Copy, PartialEq, Eq, Structural)]
pub enum DownloaderError {
    /// The network transfer itself failed; produced by the caller that
    /// performs the GET.
    Transport,
    /// The fetched body is not well-formed compressed data.
    Decompress,
    /// An input/output failure while draining the decompressed data.
    Io,
}

/// The full request URL for a remote path: the fixed content origin with the
/// path appended as it stands.
pub open spec fn spec_content_url(path: Seq<char>) -> Seq<char> {
    "http://origin.warframe.com/"@ + path
}

/// Builds the request URL for a remote path.
pub fn content_url(path: &str) -> (r: String)
    ensures
        r@ == spec_content_url(path@),
{
    let mut url = "http://origin.warframe.com/".to_owned();
    url.append(path);
    url
}

/// The eight upper-case hexadecimal digits of `x`, most significant first.
pub open spec fn spec_hex8(x: u32) -> Seq<char> {
    Seq::new(8, |i: int| hex_char_upper(((x >> (((7 - i) as u32) * 4)) & 0xF) as int))
}

/// Renders `x` as eight upper-case hexadecimal digits.
pub fn hex8_upper(x: u32) -> (r: String)
    ensures
        r@ == spec_hex8(x),
{
    let mut out = String::new();
    let mut i: usize = 0;
    while i < 8
        invariant
            i <= 8,
            out@.len() == i,
            forall|j: int| 0 <= j < i ==> out@[j] == spec_hex8(x)[j],
        decreases 8 - i,
    {
        let sh: u32 = (7 - i as u32) * 4;
        let nib: u32 = (x >> sh) & 0xF;
        assert(nib < 16) by (bit_vector)
            requires
                nib == (x >> sh) & 0xF,
        ;
        out.append(hex_digit_str(nib as u8));
        i += 1;
    }
    proof {
        assert(out@ =~= spec_hex8(x));
    }
    out
}

/// The manifest's own remote path under the mirror segment `seed` selects.
pub open spec fn spec_index_path(seed: u32) -> Seq<char> {
    "origin/"@ + spec_hex8(seed) + "/index.txt.lzma"@
}

/// Builds the manifest's remote path for a given mirror segment.
pub fn index_path_for(seed: u32) -> (r: String)
    ensures
        r@ == spec_index_path(seed),
{
    let mut out = "origin/".to_owned();
    let hex = hex8_upper(seed);
    out.append(hex.as_str());
    out.append("/index.txt.lzma");
    out
}

/// Relies on rand::random (crate rand) for an arbitrary unsigned 32-bit
/// value; nothing is promised of which one comes back.
#[verifier::external_body]
fn random_u32() -> u32 {
    rand::random::<u32>()
}

/// A freshly randomized remote path for fetching the manifest: eight random
/// upper-case hexadecimal digits form the mirror segment, a cache-busting
/// convention of the content service.
pub fn index_remote_path() -> (r: String)
    ensures
        exists|seed: u32| r@ == spec_index_path(seed),
{
    let seed = random_u32();
    let r = index_path_for(seed);
    proof {
        assert(r@ == spec_index_path(seed));
    }
    r
}

/// What the outside decompressor yields on a byte string, a function of the
/// bytes alone: the decompressed content, or nothing when it rejects them.
pub uninterp spec fn lzma_inflate(data: Seq<u8>) -> Option<Seq<u8>>;

/// Relies on lzma::LzmaReader (crate rust-lzma, binding liblzma): on
/// success the result is the full decompressed body, a function of the
/// input bytes. A decoder that cannot be set up is a decompression error;
/// a failure while draining it — where the stream's data faults also
/// surface — is an input/output error.
#[verifier::external_body]
fn lzma_decompress_raw(data: &[u8]) -> (r: Result<Vec<u8>, DownloaderError>)
    ensures
        match r {
            Ok(v) => lzma_inflate(data@) == Some(v@),
            Err(e) => e == DownloaderError::Decompress || e == DownloaderError::Io,
        },
{
    let mut decoder = match lzma::LzmaReader::new_decompressor(data) {
        Ok(d) => d,
        Err(_) => return Err(DownloaderError::Decompress),
    };
    let mut body = vec![];
    match std::io::Read::read_to_end(&mut decoder, &mut body) {
        Ok(_) => Ok(body),
        Err(_) => Err(DownloaderError::Io),
    }
}

/// Decompresses a fetched body in full, before any caller looks at it.
///
/// A well-formed body decompresses to exactly what the outside decoder
/// defines for its bytes; a failure is reported as malformed data or as an
/// input/output fault, never as a transport error.
pub fn decompress_body(data: &[u8]) -> (r: Result<Vec<u8>, DownloaderError>)
    ensures
        match r {
            Ok(v) => lzma_inflate(data@) == Some(v@),
            Err(e) => e == DownloaderError::Decompress || e == DownloaderError::Io,
        },
{
    lzma_decompress_raw(data)
}

} // verus!
