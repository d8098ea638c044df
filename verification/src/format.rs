//! Text for people: public keys as base64 text, shortened base64, and a
//! reference query written out field by field.

use vstd::prelude::*;
use vstd::string::*;
use vstd::utf8::*;

use crate::keys::{
    lemma_public_key_round_trip, spec_decode_public_key, spec_encode_public_key, PublicKey, SpecPublicKey,
};
use crate::text::{
    base64_url_encode, decode_base64_url, lemma_base64_url_decode, push_str, spec_base64, spec_base64_url,
    spec_base64_url_decode,
};

verus! {

broadcast use vstd::utf8::group_utf8_lib;

// ---------------------------------------------------------------- key text

/// A public key as text: its encoding, in URL-safe base64 without padding, as
/// the protocol's own clients write it.
pub open spec fn spec_public_key_text(k: SpecPublicKey) -> Seq<char> {
    spec_base64_url(spec_encode_public_key(k))
}

/// A public key as text.
pub fn encode_public_key_to_base64(public_key: &PublicKey) -> (r: String)
    ensures
        r@ == spec_public_key_text(public_key@),
{
    let bytes = public_key.encode();
    base64_url_encode(bytes.as_slice())
}

/// Why text is not a public key.
pub enum KeyTextFault {
    /// It is not URL-safe base64 without padding.
    Base64,
    /// Its bytes are not the encoding of a public key.
    Protobuf,
}

/// The public key that a text holds, or why it holds none.
pub open spec fn spec_parse_public_key_text(text: Seq<char>) -> Result<SpecPublicKey, KeyTextFault> {
    match spec_base64_url_decode(text) {
        None => Err(KeyTextFault::Base64),
        Some(b) => match spec_decode_public_key(b) {
            None => Err(KeyTextFault::Protobuf),
            Some(k) => Ok(k),
        },
    }
}

/// The message that says why a text is not a public key: a prefix for the
/// kind of failure, then a description (for base64, the base64 crate's
/// description of its error, which is not stated).
pub open spec fn key_text_fault_message(fault: KeyTextFault, message: Seq<char>) -> bool {
    match fault {
        KeyTextFault::Base64 => exists|d: Seq<char>| message == "Base64 decode error: "@ + d,
        KeyTextFault::Protobuf => message == "Protobuf decode error: failed to decode Protobuf message"@,
    }
}

/// The public key that a text holds; an error message where it holds none.
pub fn decode_public_key_from_base64(encoded: &str) -> (r: Result<PublicKey, String>)
    ensures
        match spec_parse_public_key_text(encoded@) {
            Ok(k) => r matches Ok(x) && x@ == k,
            Err(fault) => r matches Err(e) && key_text_fault_message(fault, e@),
        },
{
    let bytes = match decode_base64_url(encoded) {
        Ok(b) => b,
        Err(e) => {
            let mut m = String::new();
            push_str(&mut m, "Base64 decode error: ");
            push_str(&mut m, e.as_str());
            assert(m@ =~= "Base64 decode error: "@ + e@);
            return Err(m);
        },
    };
    match PublicKey::decode(bytes.as_slice()) {
        Some(k) => Ok(k),
        None => Err("Protobuf decode error: failed to decode Protobuf message".to_owned()),
    }
}

/// Reading back a public key written as text gives the key (for every key
/// whose encoding fits a 64-bit length).
pub proof fn lemma_public_key_text_round_trip(k: SpecPublicKey)
    requires
        spec_encode_public_key(k).len() < 0x1_0000_0000_0000_0000,
    ensures
        spec_parse_public_key_text(spec_public_key_text(k)) == Ok::<SpecPublicKey, KeyTextFault>(k),
{
    lemma_base64_url_decode(spec_encode_public_key(k));
    lemma_public_key_round_trip(k);
}

// ---------------------------------------------------------------- shortening

/// Gives back the text as it is (kept so that callers can show the full text).
pub fn truncate_base64(encoded: String) -> (r: String)
    ensures
        r@ == encoded@,
{
    encoded
}

/// Text shortened for display: where its UTF-8 length is over `max_len`
/// bytes, its first `max_len` bytes followed by `...`.
pub open spec fn spec_truncate_display(text: Seq<char>, max_len: nat) -> Seq<char> {
    if encode_utf8(text).len() <= max_len {
        text
    } else {
        decode_utf8(encode_utf8(text).take(max_len as int)) + "..."@
    }
}

/// Text shortened for display, to its first `max_len` bytes and `...`. The cut
/// must fall between two characters (as it does in base64 text).
pub fn truncate_base64_display(encoded: &str, max_len: usize) -> (r: String)
    requires
        encoded.spec_bytes().len() <= max_len || is_char_boundary(encoded.spec_bytes(), max_len as int),
    ensures
        r@ == spec_truncate_display(encoded@, max_len as nat),
{
    let n = encoded.as_bytes().len();
    if n <= max_len {
        encoded.to_owned()
    } else {
        let (head, _) = encoded.split_at(max_len);
        let mut s = head.to_owned();
        push_str(&mut s, "...");
        proof {
            assert(head.spec_bytes() =~= encoded.spec_bytes().take(max_len as int));
            assert(head.spec_bytes() == encode_utf8(head@));
            encode_utf8_decode_utf8(head@);
            assert(head@ == decode_utf8(encode_utf8(encoded@).take(max_len as int)));
            assert(s@ == head@ + "..."@);
        }
        s
    }
}

/// ASCII text is cut between characters anywhere, and is shortened character
/// by character.
pub proof fn lemma_truncate_ascii(text: Seq<char>, max_len: nat)
    requires
        is_ascii_chars(text),
    ensures
        encode_utf8(text).len() == text.len(),
        max_len <= text.len() ==> is_char_boundary(encode_utf8(text), max_len as int),
        spec_truncate_display(text, max_len) == if text.len() <= max_len {
            text
        } else {
            text.take(max_len as int) + "..."@
        },
{
    let b = encode_utf8(text);
    is_ascii_chars_encode_utf8(text);
    if max_len < text.len() {
        assert(text[max_len as int] as u8 == b[max_len as int]);
        assert(is_leading_byte_width_1(b[max_len as int]));
        is_char_boundary_iff_is_leading_byte(b, max_len as int);
        let t = text.take(max_len as int);
        assert(is_ascii_chars(t));
        is_ascii_chars_encode_utf8(t);
        assert(encode_utf8(t) =~= b.take(max_len as int));
    } else if max_len == text.len() {
        is_char_boundary_start_end_of_seq(b);
    }
}

/// Base64 text is ASCII.
pub proof fn lemma_base64_ascii(b: Seq<u8>, url: bool, pad: bool)
    ensures
        is_ascii_chars(spec_base64(b, url, pad)),
    decreases b.len(),
{
    if b.len() >= 3 {
        lemma_base64_ascii(b.skip(3), url, pad);
    }
}

/// Base64 text shortened for display: where it is longer than `max_len`, its
/// first `max_len` characters followed by `...`.
pub open spec fn spec_short_base64(text: Seq<char>, max_len: nat) -> Seq<char> {
    if text.len() <= max_len {
        text
    } else {
        text.take(max_len as int) + "..."@
    }
}

/// Shortens text for display, to its first `max_len` bytes and `...`; the cut
/// must fall between two characters. For base64 text (or any ASCII text) that
/// is its first `max_len` characters and `...`.
pub fn short_base64(encoded: &str, max_len: usize) -> (r: String)
    requires
        encoded.spec_bytes().len() <= max_len || is_char_boundary(encoded.spec_bytes(), max_len as int),
    ensures
        r@ == spec_truncate_display(encoded@, max_len as nat),
        is_ascii_chars(encoded@) ==> r@ == spec_short_base64(encoded@, max_len as nat),
{
    proof {
        if is_ascii_chars(encoded@) {
            lemma_truncate_ascii(encoded@, max_len as nat);
        }
    }
    truncate_base64_display(encoded, max_len)
}

} // verus!
