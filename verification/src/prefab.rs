//! Prefabs: stored messages, kept in the configuration as base64 text, that staff can
//! have the bot send.

use vstd::prelude::*;

use crate::embed::{empty_embed, text_is, Embed};
use crate::text::push_str;
use vstd::utf8::{decode_utf8, valid_utf8};

verus! {

/// What `base64::decode` (the standard alphabet, with padding) gives for a text:
/// `None` when the text is no valid base64.
pub uninterp spec fn base64_decoded(text: Seq<char>) -> Option<Seq<u8>>;

/// Decodes base64 text with `base64::decode`. Claimed: the result is
/// [`base64_decoded`] of the text (`None` for the decoder's error).
#[verifier::external_body]
fn decode_base64(text: &str) -> (r: Option<Vec<u8>>)
    ensures
        match base64_decoded(text@) {
            Some(b) => r matches Some(v) && v@ == b,
            None => r is None,
        },
{
    base64::decode(text).ok()
}

/// Reads bytes as UTF-8 with `String::from_utf8`. Claimed, as its documentation
/// says: it succeeds exactly on valid UTF-8 (no overlong forms, no surrogates, nothing
/// above U+10FFFF), and then holds the characters the bytes encode.
#[verifier::external_body]
fn text_of_utf8(bytes: Vec<u8>) -> (r: Option<String>)
    ensures
        r is Some <==> valid_utf8(bytes@),
        r matches Some(s) ==> s@ == decode_utf8(bytes@),
{
    String::from_utf8(bytes).ok()
}

/// The text of a prefab: its configured value decoded from base64, read as UTF-8.
pub open spec fn prefab_text(value: Seq<char>) -> Option<Seq<char>> {
    match base64_decoded(value) {
        Some(b) => if valid_utf8(b) {
            Some(decode_utf8(b))
        } else {
            None
        },
        None => None,
    }
}

/// The command that sends a prefab.
pub struct Prefab;

impl Prefab {
    /// The command's name.
    pub fn name(&self) -> (s: String)
        ensures
            s@ == "prefab"@,
    {
        String::from_str("prefab")
    }

    /// The JSON text of a prefab from its configured value; `None` when the value is no
    /// base64 or the bytes are no UTF-8.
    pub fn decode(value: &str) -> (r: Option<String>)
        ensures
            match prefab_text(value@) {
                Some(t) => r matches Some(s) && s@ == t,
                None => r is None,
            },
    {
        match decode_base64(value) {
            None => None,
            Some(bytes) => text_of_utf8(bytes),
        }
    }

    /// The colour of the confirmation.
    pub const SENT_COLOR: u64 = 0x1abc9c;

    /// The confirmation that a prefab was sent.
    pub fn sent_embed(name: &str) -> (e: Embed)
        ensures
            text_is(e.title, "Prefab Sent"@),
            text_is(e.description, "The prefab `"@ + name@ + "` has been sent."@),
            e.color == Some(Self::SENT_COLOR),
            e.author is None && e.url is None && e.fields@.len() == 0 && e.image is None
                && e.thumbnail is None && e.footer is None && e.timestamp is None,
    {
        let mut d = String::from_str("The prefab `");
        push_str(&mut d, name);
        push_str(&mut d, "` has been sent.");
        let mut e = empty_embed();
        e.title = Some(String::from_str("Prefab Sent"));
        e.description = Some(d);
        e.color = Some(Self::SENT_COLOR);
        e
    }
}

} // verus!
