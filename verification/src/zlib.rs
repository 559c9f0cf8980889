//! DEFLATE in the zlib format, as the `flate2` crate performs it.

use vstd::prelude::*;

verus! {

/// What compressing a byte string at the fastest level gives: the zlib stream, or
/// `None` where the compressor reports a failure.
pub uninterp spec fn zlib_deflated(data: Seq<u8>) -> Option<Seq<u8>>;

/// What a byte string inflates to: the content of the zlib stream at its start, or
/// `None` where it does not start with a zlib stream.
pub uninterp spec fn zlib_inflated(data: Seq<u8>) -> Option<Seq<u8>>;

/// The failure of a byte stream, of which nothing is looked at.
#[verifier::external_type_specification]
#[verifier::external_body]
pub struct ExIoError(std::io::Error);

/// Compresses with `flate2::write::ZlibEncoder` over a `Vec<u8>`, made by `new` at
/// `Compression::fast()`, fed by `write_all` and closed by `finish`.
/// Trusted: the outcome depends on the bytes alone; `zlib_deflated` names it.
#[verifier::external_body]
pub(crate) fn deflate(data: &[u8]) -> (compressed: Result<Vec<u8>, std::io::Error>)
    ensures
        compressed matches Ok(bytes) ==> zlib_deflated(data@) == Some(bytes@),
        compressed is Err ==> zlib_deflated(data@) is None,
{
    let mut encoder = flate2::write::ZlibEncoder::new(Vec::new(), flate2::Compression::fast());
    std::io::Write::write_all(&mut encoder, data)?;
    encoder.finish()
}

/// Inflates with `flate2::bufread::ZlibDecoder` over the bytes, read to its end by
/// `read_to_end`.
/// Trusted: the outcome depends on the bytes alone; `zlib_inflated` names it. What
/// the compressor above produced inflates to what was compressed.
#[verifier::external_body]
pub(crate) fn inflate(data: &[u8]) -> (inflated: Result<Vec<u8>, std::io::Error>)
    ensures
        inflated matches Ok(bytes) ==> zlib_inflated(data@) == Some(bytes@),
        inflated matches Ok(bytes) ==> (forall|raw: Seq<u8>|
            #[trigger] zlib_deflated(raw) == Some(data@) ==> raw == bytes@),
        inflated is Err ==> zlib_inflated(data@) is None,
        inflated is Err ==> (forall|raw: Seq<u8>| #[trigger] zlib_deflated(raw) != Some(data@)),
{
    let mut decoder = flate2::bufread::ZlibDecoder::new(data);
    let mut buf = Vec::<u8>::new();
    std::io::Read::read_to_end(&mut decoder, &mut buf)?;
    Ok(buf)
}

} // verus!
