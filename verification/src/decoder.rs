use std::io::Read;
use vstd::prelude::*;
use vstd::slice::slice_to_vec;
use vstd::utf8::{decode_utf8, valid_utf8};
use crate::error::{FetchError, FetchErrorView};

verus! {

/// What reading a gzip stream to its end returns for these bytes: the text
/// that they unpack to, where they are a gzip stream of UTF-8 text.
pub uninterp spec fn gunzip_text(bytes: Seq<u8>) -> Option<Seq<char>>;

/// Calls `flate2::read::GzDecoder::new` on the bytes and `read_to_string` on
/// the decoder: the unpacked text, or nothing where the decoder reports an
/// error. What comes back depends on the bytes alone.
#[verifier::external_body]
fn gunzip_to_string(bytes: &[u8]) -> (r: Option<String>)
    ensures
        text_view(r) == gunzip_text(bytes@),
{
    let mut text = String::new();
    match flate2::read::GzDecoder::new(bytes).read_to_string(&mut text) {
        Ok(_) => Some(text),
        Err(_) => None,
    }
}

/// Calls `String::from_utf8`, which accepts the bytes just when they are
/// valid UTF-8 and then returns the text that they encode.
#[verifier::external_body]
fn text_from_utf8(bytes: Vec<u8>) -> (r: Option<String>)
    ensures
        r is Some <==> valid_utf8(bytes@),
        r is Some ==> r->Some_0@ == decode_utf8(bytes@),
{
    String::from_utf8(bytes).ok()
}

/// The model of a text that may be there.
pub open spec fn text_view(text: Option<String>) -> Option<Seq<char>> {
    match text {
        Some(t) => Some(t@),
        None => None,
    }
}

/// The text of a payload, given what unpacking it gave: the unpacked text, or
/// else the payload itself read as UTF-8.
pub open spec fn text_or_fallback(unpacked: Option<Seq<char>>, bytes: Seq<u8>) -> Option<Seq<char>> {
    match unpacked {
        Some(t) => Some(t),
        None => if valid_utf8(bytes) {
            Some(decode_utf8(bytes))
        } else {
            None
        },
    }
}

/// The text of a payload: what it unpacks to as a gzip stream, or else the
/// payload itself read as UTF-8.
pub open spec fn payload_text(bytes: Seq<u8>) -> Option<Seq<char>> {
    text_or_fallback(gunzip_text(bytes), bytes)
}

/// The text of a payload, given what unpacking it gave.
///
/// Where unpacking gave a text, that text is returned. Where it failed, the
/// payload itself is read as UTF-8; bytes that are no valid UTF-8 are an
/// encoding error.
pub fn decode_unpacked(unpacked: Option<String>, bytes: &[u8]) -> (r: Result<String, FetchError>)
    ensures
        match r {
            Ok(text) => text_or_fallback(text_view(unpacked), bytes@) == Some(text@),
            Err(e) => text_or_fallback(text_view(unpacked), bytes@) is None && e@
                == FetchErrorView::Encoding,
        },
{
    match unpacked {
        Some(text) => Ok(text),
        None => match text_from_utf8(slice_to_vec(bytes)) {
            Some(text) => Ok(text),
            None => Err(FetchError::Encoding),
        },
    }
}

/// The text of a raw payload.
///
/// Decompression is tried first: where the bytes are a gzip stream of text,
/// the unpacked text is returned. Otherwise the bytes themselves are read as
/// UTF-8. Where they are neither, the payload cannot be turned into text and
/// the result is an encoding error.
pub fn decompress_or_convert(bytes: &[u8]) -> (r: Result<String, FetchError>)
    ensures
        match r {
            Ok(text) => payload_text(bytes@) == Some(text@),
            Err(e) => payload_text(bytes@) is None && e@ == FetchErrorView::Encoding,
        },
{
    let unpacked = gunzip_to_string(bytes);
    decode_unpacked(unpacked, bytes)
}

} // verus!
