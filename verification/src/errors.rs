//! Error messages persisted for failed filesets.

use vstd::prelude::*;
use vstd::utf8::{decode_utf8, encode_utf8, is_char_boundary};

use crate::text::{chars_of, string_from_chars, string_views};

verus! {

/// Longest message stored, in bytes.
pub const MAX_ERROR_MESSAGE_BYTES: usize = 2000;

/// `String::truncate` keeps the first `new_len` bytes; it panics unless `new_len` is a
/// character boundary, and does nothing when the string is not longer.
pub assume_specification[ String::truncate ](s: &mut String, new_len: usize)
    requires
        new_len >= encode_utf8(old(s)@).len() || is_char_boundary(encode_utf8(old(s)@), new_len as int),
    ensures
        new_len >= encode_utf8(old(s)@).len() ==> final(s)@ == old(s)@,
        new_len < encode_utf8(old(s)@).len() ==> final(s)@ == decode_utf8(
            encode_utf8(old(s)@).take(new_len as int),
        ),
;

/// Messages of an error chain joined with ": ", outermost first.
pub open spec fn join_messages(ms: Seq<Seq<char>>) -> Seq<char>
    decreases ms.len(),
{
    if ms.len() == 0 {
        Seq::empty()
    } else if ms.len() == 1 {
        ms[0]
    } else {
        join_messages(ms.drop_last()) + ": "@ + ms.last()
    }
}

/// Whether shortening the joined message to 1997 bytes cuts between characters
/// (always so for messages of at most 2000 bytes, which are not shortened).
pub open spec fn truncation_fits(ms: Seq<Seq<char>>) -> bool {
    let b = encode_utf8(join_messages(ms));
    b.len() > 2000 ==> is_char_boundary(b, 1997)
}

/// The stored message: the joined chain, cut to 1997 bytes plus "..." when it is
/// longer than 2000 bytes.
pub open spec fn spec_error_message(ms: Seq<Seq<char>>) -> Seq<char> {
    let j = join_messages(ms);
    let b = encode_utf8(j);
    if b.len() > 2000 {
        decode_utf8(b.take(1997)) + "..."@
    } else {
        j
    }
}

/// Joins an error chain's messages with ": " and caps the result at 2000 bytes.
pub fn format_error_messages(messages: &[String]) -> (r: String)
    requires
        truncation_fits(string_views(messages@)),
    ensures
        r@ == spec_error_message(string_views(messages@)),
{
    let ghost ms = string_views(messages@);
    let mut out: Vec<char> = Vec::new();
    let mut i: usize = 0;
    while i < messages.len()
        invariant
            i <= messages@.len(),
            ms == string_views(messages@),
            out@ == join_messages(ms.take(i as int)),
        decreases messages@.len() - i,
    {
        assert(ms.take(i + 1).drop_last() == ms.take(i as int));
        assert(ms.take(i + 1).last() == messages@[i as int]@);
        if i > 0 {
            let mut sep = chars_of(": ");
            out.append(&mut sep);
        } else {
            assert(ms.take(1) == seq![messages@[0]@]);
        }
        let mut m = chars_of(messages[i].as_str());
        out.append(&mut m);
        i = i + 1;
    }
    assert(ms.take(messages@.len() as int) == ms);
    let mut msg = string_from_chars(out.as_slice());
    let n = msg.as_str().as_bytes().len();
    if n > MAX_ERROR_MESSAGE_BYTES {
        msg.truncate(MAX_ERROR_MESSAGE_BYTES - 3);
        msg.append("...");
    }
    msg
}

/// The messages of an `anyhow` error's chain, outermost first: what
/// `anyhow::Error::chain` walks, each error rendered with `to_string`.
pub uninterp spec fn error_chain(err: anyhow::Error) -> Seq<Seq<char>>;

/// The messages of an `anyhow` error chain, outermost first.
///
/// Calls `anyhow::Error::chain` and renders each error with `to_string`; the messages
/// are claimed to be the error's chain, named by `error_chain`, and nothing more.
#[verifier::external_body]
fn chain_messages(err: &anyhow::Error) -> (r: Vec<String>)
    ensures
        string_views(r@) == error_chain(*err),
{
    err.chain().map(|e| e.to_string()).collect()
}

/// Whether the message joined from `messages` can be shortened without splitting a
/// character.
fn truncation_fits_exec(messages: &[String]) -> (b: bool)
    ensures
        b == truncation_fits(string_views(messages@)),
{
    let ghost ms = string_views(messages@);
    let mut out: Vec<char> = Vec::new();
    let mut i: usize = 0;
    while i < messages.len()
        invariant
            i <= messages@.len(),
            ms == string_views(messages@),
            out@ == join_messages(ms.take(i as int)),
        decreases messages@.len() - i,
    {
        assert(ms.take(i + 1).drop_last() == ms.take(i as int));
        assert(ms.take(i + 1).last() == messages@[i as int]@);
        if i > 0 {
            let mut sep = chars_of(": ");
            out.append(&mut sep);
        } else {
            assert(ms.take(1) == seq![messages@[0]@]);
        }
        let mut m = chars_of(messages[i].as_str());
        out.append(&mut m);
        i = i + 1;
    }
    assert(ms.take(messages@.len() as int) == ms);
    let joined = string_from_chars(out.as_slice());
    let s = joined.as_str();
    let n = s.as_bytes().len();
    if n > MAX_ERROR_MESSAGE_BYTES {
        s.is_char_boundary(MAX_ERROR_MESSAGE_BYTES - 3)
    } else {
        true
    }
}

/// Formats an error with its full cause chain for `filesets.error_message`, capped at
/// 2000 bytes. Gives `None` when the cap would split a character (where cutting the
/// text in place would panic).
pub fn format_error(err: &anyhow::Error) -> (r: Option<String>)
    ensures
        r is None <==> !truncation_fits(error_chain(*err)),
        r matches Some(s) ==> s@ == spec_error_message(error_chain(*err)),
{
    let messages = chain_messages(err);
    if truncation_fits_exec(messages.as_slice()) {
        Some(format_error_messages(messages.as_slice()))
    } else {
        None
    }
}

} // verus!
