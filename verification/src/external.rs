//! Thin trusted wrappers around the outside functions that the library calls.
//! Each wrapper makes one call; its contract is what the callee's source or
//! documentation promises, and nothing more.
use vstd::prelude::*;
use vstd::utf8::{decode_utf8, valid_utf8};
use pulldown_cmark::{Options, Parser};
use sha1::{Digest, Sha1};
use unicode_normalization::UnicodeNormalization;

verus! {

/// The HTML that pulldown-cmark renders for a Markdown text, with tables,
/// strikethrough and task lists enabled.
pub uninterp spec fn commonmark_html(markdown: Seq<char>) -> Seq<char>;

/// The SHA-1 digest of a byte string.
pub uninterp spec fn sha1(data: Seq<u8>) -> Seq<u8>;

/// The NFKC normal form of a text, as unicode-normalization computes it.
pub uninterp spec fn nfkc(text: Seq<char>) -> Seq<char>;

/// The Unicode lowercase mapping of a text, as `str::to_lowercase` computes it.
pub uninterp spec fn unicode_lowercase(text: Seq<char>) -> Seq<char>;

/// The text that `String::from_utf8_lossy` decodes from a byte string.
pub uninterp spec fn utf8_lossy(bytes: Seq<u8>) -> Seq<char>;

/// Calls `String::push`: the character is appended at the end.
#[verifier::external_body]
pub(crate) fn push_char(s: &mut String, c: char)
    ensures
        final(s)@ == old(s)@.push(c),
{
    s.push(c);
}

/// Calls `pulldown_cmark::Parser::new_ext` with tables, strikethrough and task
/// lists enabled, and `pulldown_cmark::html::push_html` into an empty string.
/// The result is named by `commonmark_html`; nothing more is claimed of it.
#[verifier::external_body]
pub(crate) fn markdown_to_html(markdown: &str) -> (html: String)
    ensures
        html@ == commonmark_html(markdown@),
{
    let mut options = Options::empty();
    options.insert(Options::ENABLE_TABLES);
    options.insert(Options::ENABLE_STRIKETHROUGH);
    options.insert(Options::ENABLE_TASKLISTS);
    let parser = Parser::new_ext(markdown, options);
    let mut html_buf = String::new();
    pulldown_cmark::html::push_html(&mut html_buf, parser);
    html_buf
}

/// Calls `sha1::Sha1` (`new`, `update`, `finalize`). The result is named by
/// `sha1`; its length is the 20 bytes that the output type `Array<u8, U20>` fixes.
#[verifier::external_body]
pub(crate) fn sha1_digest(data: &[u8]) -> (digest: Vec<u8>)
    ensures
        digest@ == sha1(data@),
        digest@.len() == 20,
{
    let mut hasher = Sha1::new();
    hasher.update(data);
    hasher.finalize().to_vec()
}

/// Calls `UnicodeNormalization::nfkc` and collects the characters. The result
/// is named by `nfkc`; nothing more is claimed of it.
#[verifier::external_body]
pub(crate) fn nfkc_normalize(text: &str) -> (normalized: String)
    ensures
        normalized@ == nfkc(text@),
{
    text.nfkc().collect::<String>()
}

/// Calls `str::to_lowercase`. The result is named by `unicode_lowercase`.
#[verifier::external_body]
pub(crate) fn to_lowercase(text: &str) -> (lowered: String)
    ensures
        lowered@ == unicode_lowercase(text@),
{
    text.to_lowercase()
}

/// Calls `String::from_utf8_lossy`. Its documentation promises that valid
/// UTF-8 is decoded as it stands; what it makes of invalid sequences (each
/// replaced by U+FFFD) is only named by `utf8_lossy`.
#[verifier::external_body]
pub(crate) fn decode_lossy(bytes: &[u8]) -> (text: String)
    ensures
        text@ == utf8_lossy(bytes@),
        valid_utf8(bytes@) ==> text@ == decode_utf8(bytes@),
{
    String::from_utf8_lossy(bytes).to_string()
}

} // verus!
