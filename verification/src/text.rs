//! Text: UTF-8 between bytes and strings, building strings, decimal numbers,
//! and the base64 encodings that the protocol's clients show keys in.

use vstd::prelude::*;
use vstd::string::*;
use vstd::utf8::*;

verus! {

broadcast use vstd::utf8::group_utf8_lib;

// ---------------------------------------------------------------- UTF-8

/// `std::str::from_utf8`: its documentation says that it succeeds exactly on
/// valid UTF-8, and gives the string that the bytes encode.
#[verifier::external_body]
pub(crate) fn utf8_to_str(bytes: &[u8]) -> (r: Option<&str>)
    ensures
        match r {
            Some(s) => valid_utf8(bytes@) && s@ == decode_utf8(bytes@),
            None => !valid_utf8(bytes@),
        },
{
    match std::str::from_utf8(bytes) {
        Ok(s) => Some(s),
        Err(_) => None,
    }
}

/// The text that the bytes encode, where they are valid UTF-8.
pub open spec fn spec_utf8_text(b: Seq<u8>) -> Option<Seq<char>> {
    if valid_utf8(b) {
        Some(decode_utf8(b))
    } else {
        None
    }
}

/// A string from UTF-8 bytes; `None` where they are not valid UTF-8.
pub fn string_from_utf8(bytes: &[u8]) -> (r: Option<String>)
    ensures
        match spec_utf8_text(bytes@) {
            Some(t) => r matches Some(s) && s@ == t,
            None => r is None,
        },
{
    match utf8_to_str(bytes) {
        Some(s) => Some(s.to_owned()),
        None => None,
    }
}

/// The UTF-8 bytes of a string.
pub fn string_bytes(s: &str) -> (r: Vec<u8>)
    ensures
        r@ == encode_utf8(s@),
{
    vstd::slice::slice_to_vec(s.as_bytes())
}

/// Text decoded back from its UTF-8 encoding is the same text.
pub proof fn lemma_utf8_round_trip(t: Seq<char>)
    ensures
        spec_utf8_text(encode_utf8(t)) == Some(t),
{
    encode_utf8_valid_utf8(t);
    encode_utf8_decode_utf8(t);
}

// ---------------------------------------------------------------- strings

/// `String::push`: its documentation says that it appends the character.
#[verifier::external_body]
pub(crate) fn push_char(s: &mut String, c: char)
    ensures
        final(s)@ == old(s)@.push(c),
{
    s.push(c);
}

/// Appends `t` to `s`.
pub fn push_str(s: &mut String, t: &str)
    ensures
        final(s)@ == old(s)@ + t@,
{
    s.append(t);
}

/// The character of a decimal digit.
pub open spec fn digit_char(d: nat) -> char {
    (48 + d) as char
}

/// The decimal numeral of `n`, without leading zeros.
pub open spec fn spec_decimal(n: nat) -> Seq<char>
    decreases n,
{
    if n < 10 {
        seq![digit_char(n)]
    } else {
        spec_decimal(n / 10).push(digit_char(n % 10))
    }
}

/// Appends the decimal numeral of `n` to `s`.
pub fn push_decimal(s: &mut String, n: u64)
    ensures
        final(s)@ == old(s)@ + spec_decimal(n as nat),
    decreases n,
{
    if n >= 10 {
        push_decimal(s, n / 10);
    }
    let d = (n % 10) as u32;
    let c: char = if d == 0 {
        '0'
    } else if d == 1 {
        '1'
    } else if d == 2 {
        '2'
    } else if d == 3 {
        '3'
    } else if d == 4 {
        '4'
    } else if d == 5 {
        '5'
    } else if d == 6 {
        '6'
    } else if d == 7 {
        '7'
    } else if d == 8 {
        '8'
    } else {
        '9'
    };
    assert(c == digit_char((n % 10) as nat));
    push_char(s, c);
    proof {
        if n >= 10 {
            assert(final(s)@ =~= old(s)@ + spec_decimal(n as nat));
        } else {
            assert(final(s)@ =~= old(s)@ + spec_decimal(n as nat));
        }
    }
}

/// The decimal numeral of `n`.
pub fn decimal(n: u64) -> (r: String)
    ensures
        r@ == spec_decimal(n as nat),
{
    let mut s = String::new();
    push_decimal(&mut s, n);
    assert(s@ =~= spec_decimal(n as nat));
    s
}

// ---------------------------------------------------------------- blank text

/// Whether `c` has the Unicode property White_Space: U+0009 to U+000D, U+0020,
/// U+0085, U+00A0, U+1680, U+2000 to U+200A, U+2028, U+2029, U+202F, U+205F
/// and U+3000.
pub open spec fn spec_is_white_space(c: char) -> bool {
    let n = c as u32;
    (0x9 <= n <= 0xd) || n == 0x20 || n == 0x85 || n == 0xa0 || n == 0x1680 || (0x2000 <= n <= 0x200a)
        || n == 0x2028 || n == 0x2029 || n == 0x202f || n == 0x205f || n == 0x3000
}

/// Whether `c` is white space.
pub fn is_white_space(c: char) -> (r: bool)
    ensures
        r == spec_is_white_space(c),
{
    let n = c as u32;
    (0x9 <= n && n <= 0xd) || n == 0x20 || n == 0x85 || n == 0xa0 || n == 0x1680 || (0x2000 <= n && n
        <= 0x200a) || n == 0x2028 || n == 0x2029 || n == 0x202f || n == 0x205f || n == 0x3000
}

/// Whether the text is blank: every character of it is white space (so that
/// nothing is left of it once white space is trimmed from both ends).
pub open spec fn spec_is_blank(t: Seq<char>) -> bool {
    forall|i: int| 0 <= i < t.len() ==> spec_is_white_space(#[trigger] t[i])
}

/// Whether the text is blank.
pub fn is_blank(s: &str) -> (r: bool)
    ensures
        r == spec_is_blank(s@),
{
    let n = s.unicode_len();
    let mut i: usize = 0;
    while i < n
        invariant
            n == s@.len(),
            i <= n,
            forall|j: int| 0 <= j < i ==> spec_is_white_space(#[trigger] s@[j]),
        decreases n - i,
    {
        let c = s.get_char(i);
        if !is_white_space(c) {
            return false;
        }
        i = i + 1;
    }
    true
}

/// Whether `s` begins with `prefix`.
pub fn has_prefix(s: &str, prefix: &str) -> (r: bool)
    ensures
        r == prefix@.is_prefix_of(s@),
{
    let n = prefix.unicode_len();
    let m = s.unicode_len();
    if n > m {
        return false;
    }
    let mut i: usize = 0;
    while i < n
        invariant
            n == prefix@.len(),
            m == s@.len(),
            n <= m,
            i <= n,
            forall|j: int| 0 <= j < i ==> prefix@[j] == s@[j],
        decreases n - i,
    {
        if prefix.get_char(i) != s.get_char(i) {
            return false;
        }
        i = i + 1;
    }
    assert(prefix@ =~= s@.take(n as int));
    true
}

// ---------------------------------------------------------------- base64

/// The character for a six-bit value in the base64 alphabet of RFC 4648: the
/// standard one, or the URL-safe one, which writes 62 and 63 as `-` and `_`.
pub open spec fn base64_symbol(v: nat, url: bool) -> char {
    if v < 26 {
        (65 + v) as char
    } else if v < 52 {
        (97 + v - 26) as char
    } else if v < 62 {
        (48 + v - 52) as char
    } else if v == 62 {
        if url {
            '-'
        } else {
            '+'
        }
    } else {
        if url {
            '_'
        } else {
            '/'
        }
    }
}

/// Base64 of RFC 4648: each three bytes become four characters; a last group
/// of one or two bytes becomes two or three characters, followed by `=`
/// padding to four where `pad` holds.
pub open spec fn spec_base64(b: Seq<u8>, url: bool, pad: bool) -> Seq<char>
    decreases b.len(),
{
    if b.len() == 0 {
        seq![]
    } else if b.len() == 1 {
        seq![base64_symbol((b[0] / 4) as nat, url), base64_symbol(((b[0] % 4) * 16) as nat, url)] + if pad {
            seq!['=', '=']
        } else {
            seq![]
        }
    } else if b.len() == 2 {
        seq![
            base64_symbol((b[0] / 4) as nat, url),
            base64_symbol(((b[0] % 4) * 16 + b[1] / 16) as nat, url),
            base64_symbol(((b[1] % 16) * 4) as nat, url),
        ] + if pad {
            seq!['=']
        } else {
            seq![]
        }
    } else {
        seq![
            base64_symbol((b[0] / 4) as nat, url),
            base64_symbol(((b[0] % 4) * 16 + b[1] / 16) as nat, url),
            base64_symbol(((b[1] % 16) * 4 + b[2] / 64) as nat, url),
            base64_symbol((b[2] % 64) as nat, url),
        ] + spec_base64(b.skip(3), url, pad)
    }
}

/// URL-safe base64 without padding.
pub open spec fn spec_base64_url(b: Seq<u8>) -> Seq<char> {
    spec_base64(b, true, false)
}

/// Standard base64 with padding.
pub open spec fn spec_base64_std(b: Seq<u8>) -> Seq<char> {
    spec_base64(b, false, true)
}

/// `base64::Engine::encode` on the engine `URL_SAFE_NO_PAD` (URL-safe alphabet,
/// no padding): the crate's documentation gives it as RFC 4648 base64.
#[verifier::external_body]
pub(crate) fn base64_url_encode(bytes: &[u8]) -> (r: String)
    ensures
        r@ == spec_base64_url(bytes@),
{
    base64::Engine::encode(&base64::engine::general_purpose::URL_SAFE_NO_PAD, bytes)
}

/// `base64::Engine::decode` on the engine `URL_SAFE_NO_PAD`, which refuses
/// padding and trailing bits: it succeeds on exactly the strings that the
/// engine's encoder writes, and gives the bytes that they encode. On failure
/// it gives the crate's description of the error (its text is not stated).
#[verifier::external_body]
pub(crate) fn base64_url_decode(s: &str) -> (r: Result<Vec<u8>, String>)
    ensures
        r matches Ok(v) ==> spec_base64_url(v@) == s@,
        (exists|b: Seq<u8>| #[trigger] spec_base64_url(b) == s@) ==> r is Ok,
{
    match base64::Engine::decode(&base64::engine::general_purpose::URL_SAFE_NO_PAD, s) {
        Ok(v) => Ok(v),
        Err(e) => Err(e.to_string()),
    }
}

/// `base64::Engine::encode` on the engine `STANDARD` (standard alphabet, with
/// padding): the crate's documentation gives it as RFC 4648 base64.
#[verifier::external_body]
pub(crate) fn base64_std_encode(bytes: &[u8]) -> (r: String)
    ensures
        r@ == spec_base64_std(bytes@),
{
    base64::Engine::encode(&base64::engine::general_purpose::STANDARD, bytes)
}

/// `base64::Engine::decode` on the engine `STANDARD`, which requires canonical
/// padding and refuses trailing bits: it succeeds on exactly the strings that
/// the engine's encoder writes, and gives the bytes that they encode. On
/// failure it gives the crate's description of the error (its text is not
/// stated).
#[verifier::external_body]
pub(crate) fn base64_std_decode(s: &str) -> (r: Result<Vec<u8>, String>)
    ensures
        r matches Ok(v) ==> spec_base64_std(v@) == s@,
        (exists|b: Seq<u8>| #[trigger] spec_base64_std(b) == s@) ==> r is Ok,
{
    match base64::Engine::decode(&base64::engine::general_purpose::STANDARD, s) {
        Ok(v) => Ok(v),
        Err(e) => Err(e.to_string()),
    }
}

/// Different six-bit values have different symbols, and no symbol is `=`.
proof fn lemma_base64_symbol_injective(v: nat, w: nat, url: bool)
    requires
        v < 64,
        w < 64,
    ensures
        base64_symbol(v, url) == base64_symbol(w, url) ==> v == w,
        base64_symbol(v, url) != '=',
{
    let cv = base64_symbol(v, url);
    let cw = base64_symbol(w, url);
    assert(cv as int == if v < 26 {
        65 + v as int
    } else if v < 52 {
        97 + v - 26
    } else if v < 62 {
        48 + v - 52
    } else if v == 62 {
        if url {
            45int
        } else {
            43int
        }
    } else {
        if url {
            95int
        } else {
            47int
        }
    });
    assert(cw as int == if w < 26 {
        65 + w as int
    } else if w < 52 {
        97 + w - 26
    } else if w < 62 {
        48 + w - 52
    } else if w == 62 {
        if url {
            45int
        } else {
            43int
        }
    } else {
        if url {
            95int
        } else {
            47int
        }
    });
}

/// Three bytes are given back by the four six-bit values they are written as.
proof fn lemma_base64_group_injective(x0: u8, x1: u8, x2: u8, y0: u8, y1: u8, y2: u8)
    requires
        x0 / 4 == y0 / 4,
        (x0 % 4) * 16 + x1 / 16 == (y0 % 4) * 16 + y1 / 16,
        (x1 % 16) * 4 + x2 / 64 == (y1 % 16) * 4 + y2 / 64,
        x2 % 64 == y2 % 64,
    ensures
        x0 == y0 && x1 == y1 && x2 == y2,
{
    assert(x0 == y0 && x1 == y1 && x2 == y2) by (bit_vector)
        requires
            x0 / 4 == y0 / 4,
            (x0 % 4) * 16 + x1 / 16 == (y0 % 4) * 16 + y1 / 16,
            (x1 % 16) * 4 + x2 / 64 == (y1 % 16) * 4 + y2 / 64,
            x2 % 64 == y2 % 64,
    ;
}

/// Two bytes are given back by the three six-bit values they are written as.
proof fn lemma_base64_pair_injective(x0: u8, x1: u8, y0: u8, y1: u8)
    requires
        x0 / 4 == y0 / 4,
        (x0 % 4) * 16 + x1 / 16 == (y0 % 4) * 16 + y1 / 16,
        (x1 % 16) * 4 == (y1 % 16) * 4,
    ensures
        x0 == y0 && x1 == y1,
{
    assert(x0 == y0 && x1 == y1) by (bit_vector)
        requires
            x0 / 4 == y0 / 4,
            (x0 % 4) * 16 + x1 / 16 == (y0 % 4) * 16 + y1 / 16,
            (x1 % 16) * 4 == (y1 % 16) * 4,
    ;
}

/// One byte is given back by the two six-bit values it is written as.
proof fn lemma_base64_single_injective(x0: u8, y0: u8)
    requires
        x0 / 4 == y0 / 4,
        (x0 % 4) * 16 == (y0 % 4) * 16,
    ensures
        x0 == y0,
{
    assert(x0 == y0) by (bit_vector)
        requires
            x0 / 4 == y0 / 4,
            (x0 % 4) * 16 == (y0 % 4) * 16,
    ;
}

/// The length of an encoding.
proof fn lemma_base64_len(b: Seq<u8>, url: bool, pad: bool)
    ensures
        spec_base64(b, url, pad).len() == if pad {
            (4 * ((b.len() + 2) / 3)) as int
        } else {
            4 * (b.len() / 3) + if b.len() % 3 == 0 {
                0int
            } else {
                (b.len() % 3 + 1) as int
            }
        },
    decreases b.len(),
{
    if b.len() >= 3 {
        lemma_base64_len(b.skip(3), url, pad);
    }
}

/// Different bytes have different base64 encodings.
pub proof fn lemma_base64_injective(a: Seq<u8>, b: Seq<u8>, url: bool, pad: bool)
    requires
        spec_base64(a, url, pad) == spec_base64(b, url, pad),
    ensures
        a == b,
    decreases a.len(),
{
    let ea = spec_base64(a, url, pad);
    let eb = spec_base64(b, url, pad);
    lemma_base64_len(a, url, pad);
    lemma_base64_len(b, url, pad);
    if a.len() == 0 || b.len() == 0 {
        assert(a.len() == 0 && b.len() == 0);
        assert(a =~= b);
        return;
    }
    let ia0 = (a[0] / 4) as nat;
    let ib0 = (b[0] / 4) as nat;
    lemma_base64_symbol_injective(ia0, ib0, url);
    assert(ea[0] == base64_symbol(ia0, url));
    assert(eb[0] == base64_symbol(ib0, url));
    if a.len() >= 3 && b.len() >= 3 {
        let ia1 = ((a[0] % 4) * 16 + a[1] / 16) as nat;
        let ib1 = ((b[0] % 4) * 16 + b[1] / 16) as nat;
        let ia2 = ((a[1] % 16) * 4 + a[2] / 64) as nat;
        let ib2 = ((b[1] % 16) * 4 + b[2] / 64) as nat;
        let ia3 = (a[2] % 64) as nat;
        let ib3 = (b[2] % 64) as nat;
        lemma_base64_symbol_injective(ia1, ib1, url);
        lemma_base64_symbol_injective(ia2, ib2, url);
        lemma_base64_symbol_injective(ia3, ib3, url);
        assert(ea[1] == base64_symbol(ia1, url) && ea[2] == base64_symbol(ia2, url) && ea[3]
            == base64_symbol(ia3, url));
        assert(eb[1] == base64_symbol(ib1, url) && eb[2] == base64_symbol(ib2, url) && eb[3]
            == base64_symbol(ib3, url));
        lemma_base64_group_injective(a[0], a[1], a[2], b[0], b[1], b[2]);
        assert(ea.skip(4) =~= spec_base64(a.skip(3), url, pad));
        assert(eb.skip(4) =~= spec_base64(b.skip(3), url, pad));
        lemma_base64_injective(a.skip(3), b.skip(3), url, pad);
        assert(a =~= b.take(3) + b.skip(3));
        assert(b =~= b.take(3) + b.skip(3));
    } else if a.len() >= 3 || b.len() >= 3 {
        // A final group of one or two bytes against a full group: the lengths
        // differ, or (with padding) a `=` stands against a symbol.
        if pad {
            let (long, short) = if a.len() >= 3 {
                (a, b)
            } else {
                (b, a)
            };
            let el = spec_base64(long, url, pad);
            let es = spec_base64(short, url, pad);
            assert(es[3] == '=');
            lemma_base64_symbol_injective((long[2] % 64) as nat, 0, url);
            assert(el[3] == base64_symbol((long[2] % 64) as nat, url));
            assert(false);
        }
    } else if a.len() == 1 && b.len() == 1 {
        let ia1 = ((a[0] % 4) * 16) as nat;
        let ib1 = ((b[0] % 4) * 16) as nat;
        lemma_base64_symbol_injective(ia1, ib1, url);
        assert(ea[1] == base64_symbol(ia1, url));
        assert(eb[1] == base64_symbol(ib1, url));
        lemma_base64_single_injective(a[0], b[0]);
        assert(a =~= b);
    } else if a.len() == 2 && b.len() == 2 {
        let ia1 = ((a[0] % 4) * 16 + a[1] / 16) as nat;
        let ib1 = ((b[0] % 4) * 16 + b[1] / 16) as nat;
        let ia2 = ((a[1] % 16) * 4) as nat;
        let ib2 = ((b[1] % 16) * 4) as nat;
        lemma_base64_symbol_injective(ia1, ib1, url);
        lemma_base64_symbol_injective(ia2, ib2, url);
        assert(ea[1] == base64_symbol(ia1, url) && ea[2] == base64_symbol(ia2, url));
        assert(eb[1] == base64_symbol(ib1, url) && eb[2] == base64_symbol(ib2, url));
        lemma_base64_pair_injective(a[0], a[1], b[0], b[1]);
        assert(a =~= b);
    } else {
        // One byte against two.
        if pad {
            let (two, one) = if a.len() == 2 {
                (a, b)
            } else {
                (b, a)
            };
            let et = spec_base64(two, url, pad);
            let eo = spec_base64(one, url, pad);
            assert(eo[2] == '=');
            lemma_base64_symbol_injective(((two[1] % 16) * 4) as nat, 0, url);
            assert(false);
        }
    }
}

/// Decoding what the URL-safe encoder wrote gives back the bytes.
pub proof fn lemma_base64_url_round_trip(b: Seq<u8>, v: Seq<u8>)
    requires
        spec_base64_url(v) == spec_base64_url(b),
    ensures
        v == b,
{
    lemma_base64_injective(v, b, true, false);
}

/// Decoding what the standard encoder wrote gives back the bytes.
pub proof fn lemma_base64_std_round_trip(b: Seq<u8>, v: Seq<u8>)
    requires
        spec_base64_std(v) == spec_base64_std(b),
    ensures
        v == b,
{
    lemma_base64_injective(v, b, false, true);
}

/// The bytes that a URL-safe base64 string (without padding) encodes, where it
/// is the encoding of some bytes.
pub open spec fn spec_base64_url_decode(s: Seq<char>) -> Option<Seq<u8>> {
    if exists|b: Seq<u8>| #[trigger] spec_base64_url(b) == s {
        Some(choose|b: Seq<u8>| #[trigger] spec_base64_url(b) == s)
    } else {
        None
    }
}

/// The bytes that a standard base64 string (with padding) encodes, where it
/// is the encoding of some bytes.
pub open spec fn spec_base64_std_decode(s: Seq<char>) -> Option<Seq<u8>> {
    if exists|b: Seq<u8>| #[trigger] spec_base64_std(b) == s {
        Some(choose|b: Seq<u8>| #[trigger] spec_base64_std(b) == s)
    } else {
        None
    }
}

/// Decoding URL-safe base64 gives back the bytes that were encoded.
pub proof fn lemma_base64_url_decode(b: Seq<u8>)
    ensures
        spec_base64_url_decode(spec_base64_url(b)) == Some(b),
{
    let s = spec_base64_url(b);
    assert(exists|x: Seq<u8>| #[trigger] spec_base64_url(x) == s);
    let c = choose|x: Seq<u8>| #[trigger] spec_base64_url(x) == s;
    lemma_base64_url_round_trip(b, c);
}

/// Decoding standard base64 gives back the bytes that were encoded.
pub proof fn lemma_base64_std_decode(b: Seq<u8>)
    ensures
        spec_base64_std_decode(spec_base64_std(b)) == Some(b),
{
    let s = spec_base64_std(b);
    assert(exists|x: Seq<u8>| #[trigger] spec_base64_std(x) == s);
    let c = choose|x: Seq<u8>| #[trigger] spec_base64_std(x) == s;
    lemma_base64_std_round_trip(b, c);
}

/// Decodes URL-safe base64 without padding; on failure, the base64 crate's
/// description of the error.
pub fn decode_base64_url(s: &str) -> (r: Result<Vec<u8>, String>)
    ensures
        match spec_base64_url_decode(s@) {
            Some(b) => r matches Ok(v) && v@ == b,
            None => r is Err,
        },
{
    let r = base64_url_decode(s);
    proof {
        if r is Ok {
            lemma_base64_url_decode(r->Ok_0@);
        }
    }
    r
}

/// Decodes standard base64 with padding; on failure, the base64 crate's
/// description of the error.
pub fn decode_base64_std(s: &str) -> (r: Result<Vec<u8>, String>)
    ensures
        match spec_base64_std_decode(s@) {
            Some(b) => r matches Ok(v) && v@ == b,
            None => r is Err,
        },
{
    let r = base64_std_decode(s);
    proof {
        if r is Ok {
            lemma_base64_std_decode(r->Ok_0@);
        }
    }
    r
}

} // verus!
