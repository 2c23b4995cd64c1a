//! HTML minification through `minify-html`.
use vstd::prelude::*;
use vstd::utf8::{decode_utf8, valid_utf8};
use crate::error::Error;

verus! {

broadcast use vstd::string::group_string_axioms;

/// The bytes `minify_html::minify` makes of the UTF-8 bytes of `html`, with
/// CSS minification on and every other setting at its default (which keeps
/// the spaces between attributes).
pub uninterp spec fn minified(html: Seq<char>) -> Seq<u8>;

/// `minify_html::minify` with CSS minification on.
#[verifier::external_body]
fn minify_bytes(html: &str) -> (r: Vec<u8>)
    ensures r@ == minified(html@),
{
    let cfg = minify_html::Cfg { minify_css: true, ..Default::default() };
    minify_html::minify(html.as_bytes(), &cfg)
}

/// `String::from_utf8`: the text the bytes encode, when they are valid UTF-8.
#[verifier::external_body]
fn string_from_utf8(bytes: Vec<u8>) -> (r: Option<String>)
    ensures
        r is Some <==> valid_utf8(bytes@),
        r matches Some(s) ==> s@ == decode_utf8(bytes@),
{
    String::from_utf8(bytes).ok()
}

/// Minifies a document; bytes that are not UTF-8 are an error.
pub fn process(html: &str) -> (r: Result<String, Error>)
    ensures
        r is Ok <==> valid_utf8(minified(html@)),
        r matches Ok(s) ==> s@ == decode_utf8(minified(html@)),
        r matches Err(e) ==> e is Minify,
{
    let bytes = minify_bytes(html);
    match string_from_utf8(bytes) {
        Some(s) => Ok(s),
        None => Err(Error::Minify),
    }
}

} // verus!
