//! The byte-level format of protocol messages: base-128 varints, field keys,
//! and the stream of fields that makes up a message.

use vstd::prelude::*;
use vstd::utf8::*;

use crate::text::{spec_utf8_text, string_from_utf8};

verus! {

/// Little-endian base-128 encoding of `v`: seven bits per byte, high bit set
/// on every byte but the last.
pub open spec fn spec_varint(v: nat) -> Seq<u8>
    decreases v,
{
    if v < 128 {
        seq![v as u8]
    } else {
        seq![(v % 128 + 128) as u8] + spec_varint(v / 128)
    }
}

/// Reads a varint whose first byte is `b[0]`, at nesting `depth` (the number of
/// bytes already read). A varint has at most ten bytes, and its tenth byte may
/// only be 0 or 1, so that the value fits in 64 bits. Gives the value and the
/// number of bytes read.
pub open spec fn spec_parse_varint_from(b: Seq<u8>, depth: nat) -> Option<(nat, nat)>
    decreases 10 - depth,
{
    if depth >= 10 || b.len() == 0 {
        None
    } else if b[0] < 128 {
        if depth == 9 && b[0] >= 2 {
            None
        } else {
            Some((b[0] as nat, 1nat))
        }
    } else {
        match spec_parse_varint_from(b.drop_first(), depth + 1) {
            Some((v, n)) => Some((((b[0] - 128) + 128 * v) as nat, n + 1)),
            None => None,
        }
    }
}

/// Reads a varint at the start of `b`: its value and its length in bytes.
pub open spec fn spec_parse_varint(b: Seq<u8>) -> Option<(u64, nat)> {
    match spec_parse_varint_from(b, 0) {
        Some((v, n)) => Some((v as u64, n)),
        None => None,
    }
}

/// The largest value (exclusive) that a varint read at `depth` can have.
pub open spec fn varint_bound(depth: nat) -> nat
    decreases 9 - depth,
{
    if depth >= 9 {
        2
    } else {
        128 * varint_bound(depth + 1)
    }
}

proof fn lemma_varint_bound_zero()
    ensures
        varint_bound(0) == 0x1_0000_0000_0000_0000,
{
    reveal_with_fuel(varint_bound, 10);
}

proof fn lemma_varint_bound_pos(depth: nat)
    ensures
        varint_bound(depth) >= 2,
    decreases 9 - depth,
{
    if depth < 9 {
        lemma_varint_bound_pos(depth + 1);
    }
}

/// What a read gives: a value below the bound of its depth, and between one
/// and `10 - depth` bytes, all taken from the input.
proof fn lemma_parse_varint_from_facts(b: Seq<u8>, depth: nat)
    ensures
        spec_parse_varint_from(b, depth) matches Some((v, n)) ==> {
            &&& v < varint_bound(depth)
            &&& 1 <= n <= 10 - depth
            &&& n <= b.len()
        },
    decreases 10 - depth,
{
    lemma_varint_bound_pos(depth);
    if depth < 10 && b.len() > 0 && b[0] >= 128 {
        lemma_parse_varint_from_facts(b.drop_first(), depth + 1);
        if depth < 9 {
            lemma_varint_bound_pos(depth + 1);
        }
    }
}

/// A read only looks at the bytes it consumes.
proof fn lemma_parse_varint_from_prefix(b: Seq<u8>, rest: Seq<u8>, depth: nat)
    requires
        spec_parse_varint_from(b, depth) is Some,
    ensures
        spec_parse_varint_from(b + rest, depth) == spec_parse_varint_from(b, depth),
    decreases 10 - depth,
{
    assert((b + rest)[0] == b[0]);
    if b[0] >= 128 {
        assert((b + rest).drop_first() =~= b.drop_first() + rest);
        lemma_parse_varint_from_prefix(b.drop_first(), rest, depth + 1);
    }
}

proof fn lemma_varint_len_pos(v: nat)
    ensures
        spec_varint(v).len() >= 1,
    decreases v,
{
    if v >= 128 {
        lemma_varint_len_pos(v / 128);
    }
}

/// Reading the encoding of a value below the bound of `depth` gives back the
/// value and the encoding's length.
proof fn lemma_parse_spec_varint_from(v: nat, depth: nat)
    requires
        v < varint_bound(depth),
        depth < 10,
    ensures
        spec_parse_varint_from(spec_varint(v), depth) == Some((v, spec_varint(v).len())),
    decreases v,
{
    let e = spec_varint(v);
    if v < 128 {
        if depth == 9 {
            assert(varint_bound(9) == 2);
        }
    } else {
        if depth >= 9 {
            assert(varint_bound(depth) == 2);
        }
        assert(varint_bound(depth) == 128 * varint_bound(depth + 1));
        assert(v / 128 < varint_bound(depth + 1));
        lemma_parse_spec_varint_from(v / 128, depth + 1);
        assert(e.drop_first() =~= spec_varint(v / 128));
        assert(e[0] == (v % 128 + 128) as u8);
    }
}

/// The length of the varint encoding of a 64-bit value.
pub proof fn lemma_varint_len(v: nat)
    requires
        v < 0x1_0000_0000_0000_0000,
    ensures
        1 <= spec_varint(v).len() <= 10,
{
    lemma_varint_bound_zero();
    lemma_parse_spec_varint_from(v, 0);
    lemma_parse_varint_from_facts(spec_varint(v), 0);
}

/// Reading a varint back: for every 64-bit value, and whatever follows its
/// encoding, the read gives the value and the encoding's length.
pub proof fn lemma_parse_varint_encoding(v: u64, rest: Seq<u8>)
    ensures
        spec_parse_varint(spec_varint(v as nat) + rest) == Some((v, spec_varint(v as nat).len())),
{
    lemma_varint_bound_zero();
    lemma_parse_spec_varint_from(v as nat, 0);
    lemma_parse_varint_from_prefix(spec_varint(v as nat), rest, 0);
}

/// Appends the varint encoding of `v` to `out`.
pub fn encode_varint(v: u64, out: &mut Vec<u8>)
    ensures
        final(out)@ == old(out)@ + spec_varint(v as nat),
{
    let mut x: u64 = v;
    while x >= 128
        invariant
            out@ + spec_varint(x as nat) == old(out)@ + spec_varint(v as nat),
        decreases x,
    {
        let ghost before = out@;
        out.push((x % 128 + 128) as u8);
        assert(spec_varint(x as nat) =~= seq![(x % 128 + 128) as u8] + spec_varint((x / 128) as nat));
        assert(out@ + spec_varint((x / 128) as nat) =~= before + spec_varint(x as nat));
        x = x / 128;
    }
    out.push(x as u8);
    assert(spec_varint(x as nat) =~= seq![x as u8]);
}

/// Reads a varint from `buf[pos..end]` at nesting `depth`.
fn decode_varint_from(buf: &[u8], pos: usize, end: usize, depth: usize) -> (r: Option<(u64, usize)>)
    requires
        pos <= end <= buf@.len(),
        depth <= 10,
    ensures
        match spec_parse_varint_from(buf@.subrange(pos as int, end as int), depth as nat) {
            Some((v, n)) => r == Some((v as u64, n as usize)),
            None => r is None,
        },
    decreases 10 - depth,
{
    let ghost b = buf@.subrange(pos as int, end as int);
    if depth >= 10 || pos >= end {
        return None;
    }
    let byte = buf[pos];
    assert(b[0] == byte);
    if byte < 128 {
        if depth == 9 && byte >= 2 {
            None
        } else {
            Some((byte as u64, 1))
        }
    } else {
        assert(b.drop_first() =~= buf@.subrange(pos + 1, end as int));
        match decode_varint_from(buf, pos + 1, end, depth + 1) {
            Some((v, n)) => {
                proof {
                    lemma_parse_varint_from_facts(b.drop_first(), (depth + 1) as nat);
                    lemma_varint_bound_zero();
                    lemma_varint_bound_mono(depth as nat);
                }
                Some(((byte - 128) as u64 + 128 * v, n + 1))
            },
            None => None,
        }
    }
}

/// The bound for a deeper read is at most a 128th of the bound at `depth`.
proof fn lemma_varint_bound_mono(depth: nat)
    requires
        depth < 9,
    ensures
        128 * varint_bound(depth + 1) == varint_bound(depth),
        varint_bound(depth) <= 0x1_0000_0000_0000_0000,
    decreases depth,
{
    if depth > 0 {
        lemma_varint_bound_mono((depth - 1) as nat);
    } else {
        lemma_varint_bound_zero();
    }
    lemma_varint_bound_le(depth);
}

proof fn lemma_varint_bound_le(depth: nat)
    ensures
        varint_bound(depth) <= 0x1_0000_0000_0000_0000,
    decreases depth,
{
    lemma_varint_bound_zero();
    if depth > 0 {
        lemma_varint_bound_le((depth - 1) as nat);
        if depth <= 9 {
            lemma_varint_bound_pos(depth);
            assert(varint_bound((depth - 1) as nat) == 128 * varint_bound(depth));
        }
    }
}

/// Reads a varint from `buf[pos..end]`: its value and its length.
pub fn decode_varint(buf: &[u8], pos: usize, end: usize) -> (r: Option<(u64, usize)>)
    requires
        pos <= end <= buf@.len(),
    ensures
        match spec_parse_varint(buf@.subrange(pos as int, end as int)) {
            Some((v, n)) => r == Some((v, n as usize)) && pos + n <= end && 1 <= n,
            None => r is None,
        },
{
    proof {
        lemma_parse_varint_from_facts(buf@.subrange(pos as int, end as int), 0);
    }
    decode_varint_from(buf, pos, end, 0)
}

/// The value that a field carries, by wire type.
pub enum WireValue {
    /// Wire type 0: a varint.
    Varint(u64),
    /// Wire type 1: eight raw bytes.
    Fixed64(Seq<u8>),
    /// Wire type 2: a length-delimited run of bytes.
    Bytes(Seq<u8>),
    /// Wire type 5: four raw bytes.
    Fixed32(Seq<u8>),
    /// Wire type 3: a group, whose contents are skipped.
    Group,
}

/// One field of a message: its field number and its value.
pub struct WireField {
    pub tag: nat,
    pub value: WireValue,
}

pub open spec fn wire_type_of(v: WireValue) -> nat {
    match v {
        WireValue::Varint(_) => 0,
        WireValue::Fixed64(_) => 1,
        WireValue::Bytes(_) => 2,
        WireValue::Fixed32(_) => 5,
        WireValue::Group => 3,
    }
}

/// The largest key value (field number and wire type) that a message may hold.
pub open spec fn max_key() -> nat {
    0xffff_ffff
}

/// A field that the format can carry: a field number from 1 whose key fits in
/// 32 bits, and a value of the size its wire type gives.
pub open spec fn wf_field(f: WireField) -> bool {
    &&& 1 <= f.tag
    &&& f.tag * 8 + 7 <= max_key()
    &&& match f.value {
        WireValue::Varint(_) => true,
        WireValue::Fixed64(b) => b.len() == 8,
        WireValue::Bytes(b) => b.len() < 0x1_0000_0000_0000_0000,
        WireValue::Fixed32(b) => b.len() == 4,
        WireValue::Group => false,
    }
}

/// The key that starts a field: field number times eight plus the wire type.
pub open spec fn spec_key(tag: nat, wire_type: nat) -> Seq<u8> {
    spec_varint(tag * 8 + wire_type)
}

/// The bytes of one field.
pub open spec fn spec_encode_field(f: WireField) -> Seq<u8> {
    spec_key(f.tag, wire_type_of(f.value)) + match f.value {
        WireValue::Varint(v) => spec_varint(v as nat),
        WireValue::Fixed64(b) => b,
        WireValue::Bytes(b) => spec_varint(b.len()) + b,
        WireValue::Fixed32(b) => b,
        WireValue::Group => seq![],
    }
}

/// The bytes of a list of fields, one after the other.
pub open spec fn spec_encode_fields(fs: Seq<WireField>) -> Seq<u8>
    decreases fs.len(),
{
    if fs.len() == 0 {
        seq![]
    } else {
        spec_encode_field(fs[0]) + spec_encode_fields(fs.drop_first())
    }
}

/// How many levels of nesting decoding allows: a group is skipped with this
/// many levels left, and every field inside a group takes one more.
pub open spec fn recursion_limit() -> nat {
    100
}

/// Reads one item inside a group that began with field number `tag`, with
/// `count` levels of nesting left: the key that ends the group (`true`), or a
/// field, which is skipped (`false`); gives the number of bytes it takes. The
/// end key must carry the group's own field number; a field inside the group
/// needs a level to spare, and a group inside it is skipped in turn.
pub open spec fn spec_group_item(b: Seq<u8>, tag: nat, count: nat) -> Option<(bool, nat)>
    decreases b.len(), 0nat,
{
    match spec_parse_varint(b) {
        None => None,
        Some((key, n)) => {
            let rest = b.skip(n as int);
            let t = (key / 8) as nat;
            let wt = key % 8;
            if key > max_key() || t == 0 || wt >= 6 {
                None
            } else if wt == 4 {
                if t == tag {
                    Some((true, n))
                } else {
                    None
                }
            } else if count <= 1 {
                None
            } else if wt == 0 {
                match spec_parse_varint(rest) {
                    Some((_, m)) => Some((false, n + m)),
                    None => None,
                }
            } else if wt == 1 {
                if rest.len() >= 8 {
                    Some((false, n + 8))
                } else {
                    None
                }
            } else if wt == 2 {
                match spec_parse_varint(rest) {
                    Some((len, m)) => if len <= rest.len() - m {
                        Some((false, (n + m + len) as nat))
                    } else {
                        None
                    },
                    None => None,
                }
            } else if wt == 5 {
                if rest.len() >= 4 {
                    Some((false, n + 4))
                } else {
                    None
                }
            } else if 0 < n <= b.len() {
                match spec_skip_group(rest, t, (count - 1) as nat) {
                    Some(m) => Some((false, n + m)),
                    None => None,
                }
            } else {
                None
            }
        },
    }
}

/// Skips the contents of a group that began with field number `tag`, with
/// `count` levels of nesting left, up to and including its end key; gives the
/// number of bytes skipped.
pub open spec fn spec_skip_group(b: Seq<u8>, tag: nat, count: nat) -> Option<nat>
    decreases b.len(), 1nat,
{
    match spec_group_item(b, tag, count) {
        None => None,
        Some((true, n)) => Some(n),
        Some((false, n)) => if 0 < n <= b.len() {
            match spec_skip_group(b.skip(n as int), tag, count) {
                Some(k) => Some(n + k),
                None => None,
            }
        } else {
            None
        },
    }
}

/// An item of a group takes between one byte and what there is.
pub proof fn lemma_group_item_len(b: Seq<u8>, tag: nat, count: nat)
    ensures
        spec_group_item(b, tag, count) matches Some((_, n)) ==> 1 <= n <= b.len(),
    decreases b.len(), 0nat,
{
    lemma_parse_varint_from_facts(b, 0);
    if let Some((key, n)) = spec_parse_varint(b) {
        let rest = b.skip(n as int);
        lemma_parse_varint_from_facts(rest, 0);
        if key % 8 == 3 && 0 < n <= b.len() {
            lemma_skip_group_len(rest, (key / 8) as nat, (count - 1) as nat);
        }
    }
}

/// A skipped group takes between one byte and what there is.
pub proof fn lemma_skip_group_len(b: Seq<u8>, tag: nat, count: nat)
    ensures
        spec_skip_group(b, tag, count) matches Some(k) ==> 1 <= k <= b.len(),
    decreases b.len(), 1nat,
{
    lemma_group_item_len(b, tag, count);
    if let Some((false, n)) = spec_group_item(b, tag, count) {
        if 0 < n <= b.len() {
            lemma_skip_group_len(b.skip(n as int), tag, count);
        }
    }
}

/// Reads the field at the start of `b`: the field and the number of bytes it
/// takes. The key must fit in 32 bits, name a field number from 1, and name
/// wire type 0, 1, 2, 3 or 5; a length-delimited value must fit in what is
/// left, and a group (wire type 3) must be closed by its end key within the
/// recursion limit.
pub open spec fn spec_parse_field(b: Seq<u8>) -> Option<(WireField, nat)> {
    match spec_parse_varint(b) {
        None => None,
        Some((key, n)) => {
            let rest = b.skip(n as int);
            let tag = (key / 8) as nat;
            let wt = key % 8;
            if key > max_key() || tag == 0 {
                None
            } else if wt == 0 {
                match spec_parse_varint(rest) {
                    Some((v, m)) => Some((WireField { tag, value: WireValue::Varint(v) }, n + m)),
                    None => None,
                }
            } else if wt == 1 {
                if rest.len() >= 8 {
                    Some((WireField { tag, value: WireValue::Fixed64(rest.take(8)) }, n + 8))
                } else {
                    None
                }
            } else if wt == 2 {
                match spec_parse_varint(rest) {
                    Some((len, m)) => if len <= rest.len() - m {
                        Some(
                            (
                                WireField {
                                    tag,
                                    value: WireValue::Bytes(rest.subrange(m as int, m + len)),
                                },
                                (n + m + len) as nat,
                            ),
                        )
                    } else {
                        None
                    },
                    None => None,
                }
            } else if wt == 5 {
                if rest.len() >= 4 {
                    Some((WireField { tag, value: WireValue::Fixed32(rest.take(4)) }, n + 4))
                } else {
                    None
                }
            } else if wt == 3 {
                match spec_skip_group(rest, tag, recursion_limit()) {
                    Some(m) => Some((WireField { tag, value: WireValue::Group }, n + m)),
                    None => None,
                }
            } else {
                None
            }
        },
    }
}

/// Merges the fields of `b` into `m`, one after the other, with `apply`; fails
/// where a field cannot be read or `apply` refuses one.
pub open spec fn spec_merge_with<M>(
    apply: spec_fn(M, WireField) -> Option<M>,
    m: M,
    b: Seq<u8>,
) -> Option<M>
    decreases b.len(),
{
    if b.len() == 0 {
        Some(m)
    } else {
        match spec_parse_field(b) {
            Some((f, n)) => if 0 < n <= b.len() {
                match apply(m, f) {
                    Some(m2) => spec_merge_with(apply, m2, b.skip(n as int)),
                    None => None,
                }
            } else {
                None
            },
            None => None,
        }
    }
}

/// Applies the fields `fs` to `m`, one after the other.
pub open spec fn spec_apply_all<M>(
    apply: spec_fn(M, WireField) -> Option<M>,
    m: M,
    fs: Seq<WireField>,
) -> Option<M>
    decreases fs.len(),
{
    if fs.len() == 0 {
        Some(m)
    } else {
        match apply(m, fs[0]) {
            Some(m2) => spec_apply_all(apply, m2, fs.drop_first()),
            None => None,
        }
    }
}

/// Reading a field back from its encoding, whatever follows it.
pub proof fn lemma_parse_field_encoding(f: WireField, rest: Seq<u8>)
    requires
        wf_field(f),
    ensures
        spec_parse_field(spec_encode_field(f) + rest) == Some((f, spec_encode_field(f).len())),
{
    let wt = wire_type_of(f.value);
    let key = f.tag * 8 + wt;
    let k = spec_key(f.tag, wt);
    let body = match f.value {
        WireValue::Varint(v) => spec_varint(v as nat),
        WireValue::Fixed64(b) => b,
        WireValue::Bytes(b) => spec_varint(b.len()) + b,
        WireValue::Fixed32(b) => b,
        WireValue::Group => seq![],
    };
    let all = spec_encode_field(f) + rest;
    assert(all =~= k + (body + rest));
    lemma_parse_varint_encoding(key as u64, body + rest);
    lemma_varint_len(key);
    assert(all.skip(k.len() as int) =~= body + rest);
    assert(key / 8 == f.tag);
    assert(key % 8 == wt);
    match f.value {
        WireValue::Varint(v) => {
            lemma_parse_varint_encoding(v, rest);
        },
        WireValue::Fixed64(b) => {
            assert((body + rest).take(8) =~= b);
        },
        WireValue::Bytes(b) => {
            let lv = spec_varint(b.len());
            assert(body + rest =~= lv + (b + rest));
            lemma_parse_varint_encoding(b.len() as u64, b + rest);
            assert((body + rest).subrange(lv.len() as int, (lv.len() + b.len()) as int) =~= b);
        },
        WireValue::Fixed32(b) => {
            assert((body + rest).take(4) =~= b);
        },
        WireValue::Group => {},
    }
}

/// Merging the encoding of a list of fields is applying the fields in turn.
pub proof fn lemma_merge_encoded_fields<M>(
    apply: spec_fn(M, WireField) -> Option<M>,
    m: M,
    fs: Seq<WireField>,
)
    requires
        forall|i: int| 0 <= i < fs.len() ==> wf_field(#[trigger] fs[i]),
    ensures
        spec_merge_with(apply, m, spec_encode_fields(fs)) == spec_apply_all(apply, m, fs),
    decreases fs.len(),
{
    if fs.len() > 0 {
        let e = spec_encode_fields(fs);
        let first = spec_encode_field(fs[0]);
        let tail = spec_encode_fields(fs.drop_first());
        assert(wf_field(fs[0]));
        lemma_parse_field_encoding(fs[0], tail);
        assert(e == first + tail);
        lemma_varint_len_pos(fs[0].tag * 8 + wire_type_of(fs[0].value));
        assert(first.len() > 0);
        assert(e.skip(first.len() as int) =~= tail);
        assert forall|i: int| 0 <= i < fs.drop_first().len() implies wf_field(
            #[trigger] fs.drop_first()[i],
        ) by {
            assert(fs.drop_first()[i] == fs[i + 1]);
        }
        match apply(m, fs[0]) {
            Some(m2) => {
                lemma_merge_encoded_fields(apply, m2, fs.drop_first());
            },
            None => {},
        }
    }
}

/// Applying the concatenation of two field lists is applying one, then the other.
pub proof fn lemma_apply_all_concat<M>(
    apply: spec_fn(M, WireField) -> Option<M>,
    m: M,
    a: Seq<WireField>,
    b: Seq<WireField>,
)
    ensures
        spec_apply_all(apply, m, a + b) == match spec_apply_all(apply, m, a) {
            Some(m2) => spec_apply_all(apply, m2, b),
            None => None,
        },
    decreases a.len(),
{
    if a.len() > 0 {
        assert((a + b)[0] == a[0]);
        assert((a + b).drop_first() =~= a.drop_first() + b);
        match apply(m, a[0]) {
            Some(m2) => lemma_apply_all_concat(apply, m2, a.drop_first(), b),
            None => {},
        }
    } else {
        assert(a + b =~= b);
    }
}

/// The encoding of the concatenation of two field lists.
pub broadcast proof fn lemma_encode_fields_concat(a: Seq<WireField>, b: Seq<WireField>)
    ensures
        #[trigger] spec_encode_fields(a + b) == spec_encode_fields(a) + spec_encode_fields(b),
    decreases a.len(),
{
    if a.len() > 0 {
        assert((a + b)[0] == a[0]);
        assert((a + b).drop_first() =~= a.drop_first() + b);
        lemma_encode_fields_concat(a.drop_first(), b);
        assert(spec_encode_fields(a + b) =~= spec_encode_fields(a) + spec_encode_fields(b));
    } else {
        assert(a + b =~= b);
        assert(spec_encode_fields(a) =~= Seq::<u8>::empty());
        assert(spec_encode_fields(a + b) =~= spec_encode_fields(a) + spec_encode_fields(b));
    }
}

/// The encoding of a list of one field is that field's encoding.
pub broadcast proof fn lemma_encode_single_field(f: WireField)
    ensures
        #[trigger] spec_encode_fields(seq![f]) == spec_encode_field(f),
{
    assert(seq![f].drop_first() =~= Seq::<WireField>::empty());
    assert(spec_encode_fields(seq![f].drop_first()) =~= Seq::<u8>::empty());
    assert(spec_encode_fields(seq![f]) =~= spec_encode_field(f));
}

/// The encoding of the empty list of fields is empty.
pub broadcast proof fn lemma_encode_no_fields()
    ensures
        #[trigger] spec_encode_fields(Seq::<WireField>::empty()) == Seq::<u8>::empty(),
{
}

pub broadcast group group_field_lists {
    lemma_encode_fields_concat,
    lemma_encode_single_field,
    lemma_encode_no_fields,
}

/// Where a field read from a buffer finds its value: a varint, the start of
/// its raw bytes, or the bounds of its length-delimited bytes.
pub enum RawValue {
    Varint(u64),
    Fixed64(usize),
    Bytes(usize, usize),
    Fixed32(usize),
    Group,
}

/// A field read from a buffer.
pub struct RawField {
    pub tag: u64,
    pub value: RawValue,
}

/// The field that a raw field stands for in `buf`.
pub open spec fn raw_field_view(f: RawField, buf: Seq<u8>) -> WireField {
    WireField {
        tag: f.tag as nat,
        value: match f.value {
            RawValue::Varint(v) => WireValue::Varint(v),
            RawValue::Fixed64(s) => WireValue::Fixed64(buf.subrange(s as int, s + 8)),
            RawValue::Bytes(s, e) => WireValue::Bytes(buf.subrange(s as int, e as int)),
            RawValue::Fixed32(s) => WireValue::Fixed32(buf.subrange(s as int, s + 4)),
            RawValue::Group => WireValue::Group,
        },
    }
}

/// The raw field's bytes lie in `buf[..end]`.
pub open spec fn raw_field_within(f: RawField, end: nat) -> bool {
    match f.value {
        RawValue::Varint(_) => true,
        RawValue::Fixed64(s) => s + 8 <= end,
        RawValue::Bytes(s, e) => s <= e <= end,
        RawValue::Fixed32(s) => s + 4 <= end,
        RawValue::Group => true,
    }
}

/// Reads the field that starts at `buf[pos]`, within `buf[pos..end]`; gives the
/// field and the position after it.
pub fn read_field(buf: &[u8], pos: usize, end: usize) -> (r: Option<(RawField, usize)>)
    requires
        pos <= end <= buf@.len(),
    ensures
        match spec_parse_field(buf@.subrange(pos as int, end as int)) {
            Some((f, n)) => r matches Some((rf, next)) && next == pos + n && pos < next <= end
                && raw_field_view(rf, buf@) == f && raw_field_within(rf, end as nat),
            None => r is None,
        },
{
    let ghost b = buf@.subrange(pos as int, end as int);
    let (key, n) = match decode_varint(buf, pos, end) {
        Some(x) => x,
        None => return None,
    };
    let p = pos + n;
    let ghost rest = b.skip(n as int);
    assert(rest =~= buf@.subrange(p as int, end as int));
    if key > 0xffff_ffff || key / 8 == 0 {
        return None;
    }
    let tag = key / 8;
    let wt = key % 8;
    if wt == 0 {
        match decode_varint(buf, p, end) {
            Some((v, m)) => Some((RawField { tag, value: RawValue::Varint(v) }, p + m)),
            None => None,
        }
    } else if wt == 1 {
        if end - p >= 8 {
            assert(rest.take(8) =~= buf@.subrange(p as int, p + 8));
            Some((RawField { tag, value: RawValue::Fixed64(p) }, p + 8))
        } else {
            None
        }
    } else if wt == 2 {
        match decode_varint(buf, p, end) {
            Some((len, m)) => {
                if len <= (end - p - m) as u64 {
                    let s = p + m;
                    let e = s + len as usize;
                    assert(rest.subrange(m as int, m + len) =~= buf@.subrange(s as int, e as int));
                    Some((RawField { tag, value: RawValue::Bytes(s, e) }, e))
                } else {
                    None
                }
            },
            None => None,
        }
    } else if wt == 5 {
        if end - p >= 4 {
            assert(rest.take(4) =~= buf@.subrange(p as int, p + 4));
            Some((RawField { tag, value: RawValue::Fixed32(p) }, p + 4))
        } else {
            None
        }
    } else if wt == 3 {
        proof {
            lemma_skip_group_len(rest, tag as nat, recursion_limit());
        }
        match skip_group(buf, p, end, tag, 100) {
            Some(q) => Some((RawField { tag, value: RawValue::Group }, q)),
            None => None,
        }
    } else {
        None
    }
}

/// Reads the item of a group that starts at `buf[pos]`, within `buf[pos..end]`:
/// whether it is the group's end key, and the position after it.
fn group_item(buf: &[u8], pos: usize, end: usize, tag: u64, count: u64) -> (r: Option<(bool, usize)>)
    requires
        pos <= end <= buf@.len(),
    ensures
        match spec_group_item(buf@.subrange(pos as int, end as int), tag as nat, count as nat) {
            Some((e, n)) => r == Some((e, (pos + n) as usize)) && pos + n <= end,
            None => r is None,
        },
    decreases end - pos, 0nat,
{
    let ghost b = buf@.subrange(pos as int, end as int);
    proof {
        lemma_group_item_len(b, tag as nat, count as nat);
    }
    let (key, n) = match decode_varint(buf, pos, end) {
        Some(x) => x,
        None => return None,
    };
    let p = pos + n;
    let ghost rest = b.skip(n as int);
    assert(rest =~= buf@.subrange(p as int, end as int));
    if key > 0xffff_ffff || key / 8 == 0 || key % 8 >= 6 {
        return None;
    }
    let t = key / 8;
    let wt = key % 8;
    if wt == 4 {
        if t == tag {
            Some((true, p))
        } else {
            None
        }
    } else if count <= 1 {
        None
    } else if wt == 0 {
        match decode_varint(buf, p, end) {
            Some((_, m)) => Some((false, p + m)),
            None => None,
        }
    } else if wt == 1 {
        if end - p >= 8 {
            Some((false, p + 8))
        } else {
            None
        }
    } else if wt == 2 {
        match decode_varint(buf, p, end) {
            Some((len, m)) => {
                if len <= (end - p - m) as u64 {
                    Some((false, p + m + len as usize))
                } else {
                    None
                }
            },
            None => None,
        }
    } else if wt == 5 {
        if end - p >= 4 {
            Some((false, p + 4))
        } else {
            None
        }
    } else {
        match skip_group(buf, p, end, t, count - 1) {
            Some(q) => Some((false, q)),
            None => None,
        }
    }
}

/// Skips the contents of a group that starts at `buf[pos]`, within
/// `buf[pos..end]`, up to and including its end key; gives the position after
/// it.
fn skip_group(buf: &[u8], pos: usize, end: usize, tag: u64, count: u64) -> (r: Option<usize>)
    requires
        pos <= end <= buf@.len(),
    ensures
        match spec_skip_group(buf@.subrange(pos as int, end as int), tag as nat, count as nat) {
            Some(k) => r == Some((pos + k) as usize) && pos + k <= end,
            None => r is None,
        },
    decreases end - pos, 1nat,
{
    let ghost whole = buf@.subrange(pos as int, end as int);
    proof {
        lemma_skip_group_len(whole, tag as nat, count as nat);
    }
    let mut p = pos;
    loop
        invariant
            pos <= p <= end <= buf@.len(),
            whole == buf@.subrange(pos as int, end as int),
            spec_skip_group(whole, tag as nat, count as nat) == match spec_skip_group(
                buf@.subrange(p as int, end as int),
                tag as nat,
                count as nat,
            ) {
                Some(k) => Some((p - pos + k) as nat),
                None => None,
            },
        decreases end - p,
    {
        let ghost b = buf@.subrange(p as int, end as int);
        proof {
            lemma_skip_group_len(b, tag as nat, count as nat);
            lemma_group_item_len(b, tag as nat, count as nat);
        }
        match group_item(buf, p, end, tag, count) {
            None => {
                return None;
            },
            Some((true, q)) => {
                return Some(q);
            },
            Some((false, q)) => {
                proof {
                    assert(b.skip(q - p) =~= buf@.subrange(q as int, end as int));
                    lemma_skip_group_len(buf@.subrange(q as int, end as int), tag as nat, count as nat);
                }
                p = q;
            },
        }
    }
}

/// One merge step: where `buf[pos..end]` is not empty and its first field is
/// `f`, ending at `next`, merging from `pos` is applying `f` then merging from
/// `next`.
pub proof fn lemma_merge_step<M>(
    apply: spec_fn(M, WireField) -> Option<M>,
    m: M,
    buf: Seq<u8>,
    pos: nat,
    next: nat,
    end: nat,
    f: WireField,
)
    requires
        pos < end <= buf.len(),
        spec_parse_field(buf.subrange(pos as int, end as int)) == Some((f, (next - pos) as nat)),
        pos < next <= end,
    ensures
        spec_merge_with(apply, m, buf.subrange(pos as int, end as int)) == match apply(m, f) {
            Some(m2) => spec_merge_with(apply, m2, buf.subrange(next as int, end as int)),
            None => None,
        },
{
    let b = buf.subrange(pos as int, end as int);
    assert(b.skip(next - pos) =~= buf.subrange(next as int, end as int));
}

/// Merging from the end of a buffer changes nothing.
pub proof fn lemma_merge_empty<M>(apply: spec_fn(M, WireField) -> Option<M>, m: M, buf: Seq<u8>, pos: nat)
    requires
        pos <= buf.len(),
    ensures
        spec_merge_with(apply, m, buf.subrange(pos as int, pos as int)) == Some(m),
{
    assert(buf.subrange(pos as int, pos as int).len() == 0);
}

/// Where a field read fails, so does the merge.
pub proof fn lemma_merge_bad_field<M>(
    apply: spec_fn(M, WireField) -> Option<M>,
    m: M,
    buf: Seq<u8>,
    pos: nat,
    end: nat,
)
    requires
        pos < end <= buf.len(),
        spec_parse_field(buf.subrange(pos as int, end as int)) is None,
    ensures
        spec_merge_with(apply, m, buf.subrange(pos as int, end as int)) is None,
{
}

// Field lists that a message's fields are written as.

/// A varint field, left out where the value is zero (the default).
pub open spec fn uint_field(tag: nat, v: u64) -> Seq<WireField> {
    if v == 0 {
        seq![]
    } else {
        seq![WireField { tag, value: WireValue::Varint(v) }]
    }
}

/// A varint field that is written whenever it is present.
pub open spec fn opt_uint_field(tag: nat, v: Option<u64>) -> Seq<WireField> {
    match v {
        Some(x) => seq![WireField { tag, value: WireValue::Varint(x) }],
        None => seq![],
    }
}

/// A length-delimited field, left out where the bytes are empty (the default).
pub open spec fn bytes_field(tag: nat, b: Seq<u8>) -> Seq<WireField> {
    if b.len() == 0 {
        seq![]
    } else {
        seq![WireField { tag, value: WireValue::Bytes(b) }]
    }
}

/// A length-delimited field that is written whenever it is present.
pub open spec fn opt_bytes_field(tag: nat, b: Option<Seq<u8>>) -> Seq<WireField> {
    match b {
        Some(x) => seq![WireField { tag, value: WireValue::Bytes(x) }],
        None => seq![],
    }
}

/// One length-delimited field per element, in order (repeated bytes and
/// repeated messages, each given by its encoding).
pub open spec fn repeated_bytes_fields(tag: nat, items: Seq<Seq<u8>>) -> Seq<WireField> {
    Seq::new(items.len(), |i: int| WireField { tag, value: WireValue::Bytes(items[i]) })
}

/// The varints of `vs`, one after the other: the payload of a packed field.
pub open spec fn spec_packed(vs: Seq<u64>) -> Seq<u8>
    decreases vs.len(),
{
    if vs.len() == 0 {
        seq![]
    } else {
        spec_varint(vs[0] as nat) + spec_packed(vs.drop_first())
    }
}

/// A packed repeated varint field, left out where there are no values.
pub open spec fn packed_field(tag: nat, vs: Seq<u64>) -> Seq<WireField> {
    if vs.len() == 0 {
        seq![]
    } else {
        seq![WireField { tag, value: WireValue::Bytes(spec_packed(vs)) }]
    }
}

/// Reads the varints of a packed payload, to its end.
pub open spec fn spec_parse_packed(b: Seq<u8>) -> Option<Seq<u64>>
    decreases b.len(),
{
    if b.len() == 0 {
        Some(seq![])
    } else {
        match spec_parse_varint(b) {
            Some((v, n)) => if 0 < n <= b.len() {
                match spec_parse_packed(b.skip(n as int)) {
                    Some(vs) => Some(seq![v] + vs),
                    None => None,
                }
            } else {
                None
            },
            None => None,
        }
    }
}

/// Appends the encoding of `fs` to `out`, given the encoding of a list whose
/// items each met `wf_field`.
pub open spec fn all_wf(fs: Seq<WireField>) -> bool {
    forall|i: int| 0 <= i < fs.len() ==> wf_field(#[trigger] fs[i])
}

/// Appends the key for field `tag` and wire type `wt`.
fn put_key(tag: u64, wt: u64, out: &mut Vec<u8>)
    requires
        1 <= tag <= 0x1fff_ffff,
        wt <= 7,
    ensures
        final(out)@ == old(out)@ + spec_key(tag as nat, wt as nat),
{
    encode_varint(tag * 8 + wt, out);
}

/// Appends a varint field, unless `v` is zero.
pub fn put_uint(tag: u64, v: u64, out: &mut Vec<u8>)
    requires
        1 <= tag <= 0x1fff_ffff,
    ensures
        final(out)@ == old(out)@ + spec_encode_fields(uint_field(tag as nat, v)),
{
    broadcast use group_field_lists;

    if v != 0 {
        put_key(tag, 0, out);
        encode_varint(v, out);
        assert(final(out)@ =~= old(out)@ + spec_encode_field(WireField { tag: tag as nat, value: WireValue::Varint(v) }));
    }
}

/// Appends a varint field where `v` is present.
pub fn put_opt_uint(tag: u64, v: Option<u64>, out: &mut Vec<u8>)
    requires
        1 <= tag <= 0x1fff_ffff,
    ensures
        final(out)@ == old(out)@ + spec_encode_fields(opt_uint_field(tag as nat, v)),
{
    broadcast use group_field_lists;

    match v {
        Some(x) => {
            put_key(tag, 0, out);
            encode_varint(x, out);
            assert(final(out)@ =~= old(out)@ + spec_encode_field(WireField { tag: tag as nat, value: WireValue::Varint(x) }));
        },
        None => {},
    }
}

/// Appends a length-delimited field holding `b`, whatever its length.
pub fn put_bytes_always(tag: u64, b: &[u8], out: &mut Vec<u8>)
    requires
        1 <= tag <= 0x1fff_ffff,
    ensures
        final(out)@ == old(out)@ + spec_encode_fields(seq![WireField { tag: tag as nat, value: WireValue::Bytes(b@) }]),
{
    broadcast use group_field_lists;

    put_key(tag, 2, out);
    encode_varint(b.len() as u64, out);
    out.extend_from_slice(b);
    assert(final(out)@ =~= old(out)@ + spec_encode_field(WireField { tag: tag as nat, value: WireValue::Bytes(b@) }));
}

/// Appends a length-delimited field holding `b`, unless `b` is empty.
pub fn put_bytes(tag: u64, b: &[u8], out: &mut Vec<u8>)
    requires
        1 <= tag <= 0x1fff_ffff,
    ensures
        final(out)@ == old(out)@ + spec_encode_fields(bytes_field(tag as nat, b@)),
{
    broadcast use group_field_lists;

    if b.len() != 0 {
        put_bytes_always(tag, b, out);
    } else {
        assert(final(out)@ =~= old(out)@);
    }
}

/// Appends a length-delimited field holding `b` where it is present.
pub fn put_opt_bytes(tag: u64, b: &Option<Vec<u8>>, out: &mut Vec<u8>)
    requires
        1 <= tag <= 0x1fff_ffff,
    ensures
        final(out)@ == old(out)@ + spec_encode_fields(opt_bytes_field(tag as nat, match b {
            Some(x) => Some(x@),
            None => None,
        })),
{
    broadcast use group_field_lists;

    match b {
        Some(x) => put_bytes_always(tag, x.as_slice(), out),
        None => {
            assert(final(out)@ =~= old(out)@);
        },
    }
}

/// The contents of a list of byte strings.
pub open spec fn view_byte_strings(v: Seq<Vec<u8>>) -> Seq<Seq<u8>> {
    v.map_values(|x: Vec<u8>| x@)
}

/// Appends one length-delimited field per item of `items`.
pub fn put_repeated_bytes(tag: u64, items: &Vec<Vec<u8>>, out: &mut Vec<u8>)
    requires
        1 <= tag <= 0x1fff_ffff,
    ensures
        final(out)@ == old(out)@ + spec_encode_fields(
            repeated_bytes_fields(tag as nat, view_byte_strings(items@)),
        ),
{
    broadcast use group_field_lists;

    let ghost all = view_byte_strings(items@);
    let mut i: usize = 0;
    while i < items.len()
        invariant
            1 <= tag <= 0x1fff_ffff,
            i <= items@.len(),
            all == view_byte_strings(items@),
            out@ == old(out)@ + spec_encode_fields(repeated_bytes_fields(tag as nat, all.take(i as int))),
        decreases items@.len() - i,
    {
        let ghost before = out@;
        put_bytes_always(tag, items[i].as_slice(), out);
        let ghost f = WireField { tag: tag as nat, value: WireValue::Bytes(items@[i as int]@) };
        let ghost prev = repeated_bytes_fields(tag as nat, all.take(i as int));
        assert(all[i as int] == items@[i as int]@);
        assert(repeated_bytes_fields(tag as nat, all.take(i + 1)) =~= prev + seq![f]);
        proof {
            lemma_encode_fields_concat(prev, seq![f]);
            lemma_encode_single_field(f);
        }
        assert(out@ =~= old(out)@ + spec_encode_fields(prev + seq![f]));
        i = i + 1;
    }
    assert(all.take(i as int) =~= all);
}

/// Appends the varints of `vs` to `out`.
fn put_packed_payload(vs: &Vec<u64>, out: &mut Vec<u8>)
    ensures
        final(out)@ == old(out)@ + spec_packed(vs@),
{
    let mut i: usize = 0;
    assert(vs@.skip(0) =~= vs@);
    while i < vs.len()
        invariant
            i <= vs@.len(),
            out@ + spec_packed(vs@.skip(i as int)) == old(out)@ + spec_packed(vs@),
        decreases vs@.len() - i,
    {
        let ghost before = out@;
        encode_varint(vs[i], out);
        assert(vs@.skip(i as int).drop_first() =~= vs@.skip(i + 1));
        assert(out@ + spec_packed(vs@.skip(i + 1)) =~= before + spec_packed(vs@.skip(i as int)));
        i = i + 1;
    }
    assert(spec_packed(vs@.skip(i as int)) =~= Seq::<u8>::empty());
}

/// Appends a packed repeated varint field, unless `vs` is empty.
pub fn put_packed(tag: u64, vs: &Vec<u64>, out: &mut Vec<u8>)
    requires
        1 <= tag <= 0x1fff_ffff,
    ensures
        final(out)@ == old(out)@ + spec_encode_fields(packed_field(tag as nat, vs@)),
{
    broadcast use group_field_lists;

    if vs.len() != 0 {
        let mut payload: Vec<u8> = Vec::new();
        put_packed_payload(vs, &mut payload);
        assert(payload@ =~= spec_packed(vs@));
        put_bytes_always(tag, payload.as_slice(), out);
    } else {
        assert(final(out)@ =~= old(out)@);
    }
}

// Reading field values.

/// The value of a varint field; fails on any other wire type.
pub open spec fn field_varint(f: WireField) -> Option<u64> {
    match f.value {
        WireValue::Varint(v) => Some(v),
        _ => None,
    }
}

/// The bytes of a length-delimited field; fails on any other wire type.
pub open spec fn field_bytes(f: WireField) -> Option<Seq<u8>> {
    match f.value {
        WireValue::Bytes(b) => Some(b),
        _ => None,
    }
}

/// A repeated varint field takes one value per varint field, and all the
/// values of a packed (length-delimited) field.
pub open spec fn merge_packed(vs: Seq<u64>, f: WireField) -> Option<Seq<u64>> {
    match f.value {
        WireValue::Varint(v) => Some(vs.push(v)),
        WireValue::Bytes(b) => match spec_parse_packed(b) {
            Some(more) => Some(vs + more),
            None => None,
        },
        _ => None,
    }
}

/// The value of a raw varint field.
pub fn raw_varint(f: &RawField) -> (r: Option<u64>)
    ensures
        forall|buf: Seq<u8>| r == field_varint(#[trigger] raw_field_view(*f, buf)),
{
    match f.value {
        RawValue::Varint(v) => Some(v),
        _ => None,
    }
}

/// A copy of the bytes of a raw length-delimited field.
pub fn raw_bytes(buf: &[u8], f: &RawField) -> (r: Option<Vec<u8>>)
    requires
        raw_field_within(*f, buf@.len()),
    ensures
        match field_bytes(raw_field_view(*f, buf@)) {
            Some(b) => r matches Some(v) && v@ == b,
            None => r is None,
        },
{
    match f.value {
        RawValue::Bytes(s, e) => Some(vstd::slice::slice_to_vec(vstd::slice::slice_subrange(buf, s, e))),
        _ => None,
    }
}

/// Reads the varints of `buf[start..end]` onto the end of `vs`.
fn read_packed(vs: &mut Vec<u64>, buf: &[u8], start: usize, end: usize) -> (ok: bool)
    requires
        start <= end <= buf@.len(),
    ensures
        match spec_parse_packed(buf@.subrange(start as int, end as int)) {
            Some(more) => ok && final(vs)@ == old(vs)@ + more,
            None => !ok,
        },
{
    let mut pos = start;
    assert(old(vs)@ + Seq::<u64>::empty() =~= old(vs)@);
    while pos < end
        invariant
            start <= pos <= end <= buf@.len(),
            match spec_parse_packed(buf@.subrange(start as int, end as int)) {
                Some(all) => match spec_parse_packed(buf@.subrange(pos as int, end as int)) {
                    Some(rest) => old(vs)@ + all == vs@ + rest,
                    None => false,
                },
                None => spec_parse_packed(buf@.subrange(pos as int, end as int)) is None,
            },
        decreases end - pos,
    {
        let ghost b = buf@.subrange(pos as int, end as int);
        match decode_varint(buf, pos, end) {
            Some((v, n)) => {
                if n == 0 {
                    return false;
                }
                let ghost before = vs@;
                assert(b.skip(n as int) =~= buf@.subrange(pos + n, end as int));
                vs.push(v);
                pos = pos + n;
                proof {
                    match spec_parse_packed(buf@.subrange(pos as int, end as int)) {
                        Some(rest) => {
                            assert(vs@ + rest =~= before + (seq![v] + rest));
                            assert(spec_parse_packed(b) == Some(seq![v] + rest));
                        },
                        None => {},
                    }
                }
            },
            None => {
                return false;
            },
        }
    }
    assert(buf@.subrange(pos as int, end as int).len() == 0);
    proof {
        match spec_parse_packed(buf@.subrange(start as int, end as int)) {
            Some(all) => {
                assert(vs@ + Seq::<u64>::empty() =~= vs@);
                assert(old(vs)@ + all == vs@);
            },
            None => {},
        }
    }
    true
}

/// Merges a raw field into a repeated varint field.
pub fn raw_merge_packed(vs: &mut Vec<u64>, buf: &[u8], f: &RawField) -> (ok: bool)
    requires
        raw_field_within(*f, buf@.len()),
    ensures
        match merge_packed(old(vs)@, raw_field_view(*f, buf@)) {
            Some(n) => ok && final(vs)@ == n,
            None => !ok,
        },
{
    match f.value {
        RawValue::Varint(v) => {
            vs.push(v);
            true
        },
        RawValue::Bytes(s, e) => read_packed(vs, buf, s, e),
        _ => false,
    }
}

/// Reading a packed payload back gives the values it was written from.
pub proof fn lemma_parse_packed(vs: Seq<u64>)
    ensures
        spec_parse_packed(spec_packed(vs)) == Some(vs),
    decreases vs.len(),
{
    if vs.len() > 0 {
        let p = spec_packed(vs);
        let tail = spec_packed(vs.drop_first());
        lemma_parse_varint_encoding(vs[0], tail);
        lemma_varint_len_pos(vs[0] as nat);
        assert(p.skip(spec_varint(vs[0] as nat).len() as int) =~= tail);
        lemma_parse_packed(vs.drop_first());
        assert(seq![vs[0]] + vs.drop_first() =~= vs);
    } else {
        assert(p_empty(vs));
    }
}

spec fn p_empty(vs: Seq<u64>) -> bool {
    spec_packed(vs) =~= Seq::<u8>::empty()
}

/// The field's length-delimited value, if it has one, is at most `n` long.
pub open spec fn bytes_at_most(f: WireField, n: nat) -> bool {
    match f.value {
        WireValue::Bytes(b) => b.len() <= n,
        _ => true,
    }
}

/// Every length-delimited value in a list of fields is no longer than the
/// list's encoding.
pub proof fn lemma_fields_bytes_bounded(fs: Seq<WireField>)
    ensures
        forall|i: int| 0 <= i < fs.len() ==> bytes_at_most(#[trigger] fs[i], spec_encode_fields(fs).len()),
    decreases fs.len(),
{
    if fs.len() > 0 {
        lemma_fields_bytes_bounded(fs.drop_first());
        assert forall|i: int| 0 <= i < fs.len() implies bytes_at_most(
            #[trigger] fs[i],
            spec_encode_fields(fs).len(),
        ) by {
            if i > 0 {
                assert(fs[i] == fs.drop_first()[i - 1]);
            }
        }
    }
}

/// Tags that keys can carry, on fields that are varints or length-delimited.
pub open spec fn fields_tags_ok(fs: Seq<WireField>) -> bool {
    forall|i: int|
        0 <= i < fs.len() ==> {
            &&& 1 <= (#[trigger] fs[i]).tag <= 0x1fff_ffff
            &&& (fs[i].value is Varint || fs[i].value is Bytes)
        }
}

/// A list of fields whose encoding fits a 64-bit length is well formed.
pub proof fn lemma_fields_wf(fs: Seq<WireField>)
    requires
        fields_tags_ok(fs),
        spec_encode_fields(fs).len() < 0x1_0000_0000_0000_0000,
    ensures
        all_wf(fs),
{
    lemma_fields_bytes_bounded(fs);
    assert forall|i: int| 0 <= i < fs.len() implies wf_field(#[trigger] fs[i]) by {
        assert(1 <= fs[i].tag <= 0x1fff_ffff);
    }
}

/// Decoding the encoding of a list of tag-valid fields whose encoding fits a
/// 64-bit length is applying the fields in turn.
pub proof fn lemma_decode_fields<M>(apply: spec_fn(M, WireField) -> Option<M>, m: M, fs: Seq<WireField>)
    requires
        fields_tags_ok(fs),
        spec_encode_fields(fs).len() < 0x1_0000_0000_0000_0000,
    ensures
        spec_merge_with(apply, m, spec_encode_fields(fs)) == spec_apply_all(apply, m, fs),
{
    lemma_fields_wf(fs);
    lemma_merge_encoded_fields(apply, m, fs);
}

/// Applying a list of one field is applying that field.
pub broadcast proof fn lemma_apply_single<M>(apply: spec_fn(M, WireField) -> Option<M>, m: M, f: WireField)
    ensures
        #[trigger] spec_apply_all(apply, m, seq![f]) == apply(m, f),
{
    assert(seq![f].drop_first() =~= Seq::<WireField>::empty());
    match apply(m, f) {
        Some(m2) => {
            assert(spec_apply_all(apply, m2, seq![f].drop_first()) == Some(m2));
        },
        None => {},
    }
}

/// Applying no fields changes nothing.
pub broadcast proof fn lemma_apply_none<M>(apply: spec_fn(M, WireField) -> Option<M>, m: M)
    ensures
        #[trigger] spec_apply_all(apply, m, Seq::<WireField>::empty()) == Some(m),
{
}

/// Applying two lists in a row.
pub broadcast proof fn lemma_apply_concat<M>(
    apply: spec_fn(M, WireField) -> Option<M>,
    m: M,
    a: Seq<WireField>,
    b: Seq<WireField>,
)
    ensures
        #[trigger] spec_apply_all(apply, m, a + b) == match spec_apply_all(apply, m, a) {
            Some(m2) => spec_apply_all(apply, m2, b),
            None => None,
        },
{
    lemma_apply_all_concat(apply, m, a, b);
}

pub broadcast group group_apply_lists {
    lemma_apply_single,
    lemma_apply_none,
    lemma_apply_concat,
}

/// The text of a length-delimited field that holds valid UTF-8; fails on any
/// other field.
pub open spec fn field_string(f: WireField) -> Option<Seq<char>> {
    match f.value {
        WireValue::Bytes(b) => spec_utf8_text(b),
        _ => None,
    }
}

/// The text of a raw length-delimited field.
pub fn raw_string(buf: &[u8], f: &RawField) -> (r: Option<String>)
    requires
        raw_field_within(*f, buf@.len()),
    ensures
        match field_string(raw_field_view(*f, buf@)) {
            Some(t) => r matches Some(s) && s@ == t,
            None => r is None,
        },
{
    match f.value {
        RawValue::Bytes(s, e) => string_from_utf8(vstd::slice::slice_subrange(buf, s, e)),
        _ => None,
    }
}

/// A text field, written as its UTF-8 bytes and left out where it is empty.
pub open spec fn string_field(tag: nat, t: Seq<char>) -> Seq<WireField> {
    bytes_field(tag, encode_utf8(t))
}

/// A text field written whenever it is present.
pub open spec fn opt_string_field(tag: nat, t: Option<Seq<char>>) -> Seq<WireField> {
    match t {
        Some(x) => seq![WireField { tag, value: WireValue::Bytes(encode_utf8(x)) }],
        None => seq![],
    }
}

/// Appends a text field, unless the text is empty.
pub fn put_string(tag: u64, t: &String, out: &mut Vec<u8>)
    requires
        1 <= tag <= 0x1fff_ffff,
    ensures
        final(out)@ == old(out)@ + spec_encode_fields(string_field(tag as nat, t@)),
{
    broadcast use vstd::utf8::group_utf8_lib;

    let b = t.as_str().as_bytes();
    if b.len() != 0 {
        put_bytes_always(tag, b, out);
    } else {
        assert(final(out)@ =~= old(out)@ + spec_encode_fields(Seq::<WireField>::empty()));
    }
}

/// Appends a text field where it is present.
pub fn put_opt_string(tag: u64, t: &Option<String>, out: &mut Vec<u8>)
    requires
        1 <= tag <= 0x1fff_ffff,
    ensures
        final(out)@ == old(out)@ + spec_encode_fields(opt_string_field(tag as nat, match t {
            Some(x) => Some(x@),
            None => None,
        })),
{
    match t {
        Some(x) => put_bytes_always(tag, x.as_str().as_bytes(), out),
        None => {
            assert(final(out)@ =~= old(out)@ + spec_encode_fields(Seq::<WireField>::empty()));
        },
    }
}

// Facts about the field lists of messages.

/// The two lists' tags are valid, so are those of their concatenation.
pub broadcast proof fn lemma_tags_ok_concat(a: Seq<WireField>, b: Seq<WireField>)
    requires
        fields_tags_ok(a),
        fields_tags_ok(b),
    ensures
        #[trigger] fields_tags_ok(a + b),
{
    assert forall|i: int| 0 <= i < (a + b).len() implies {
        &&& 1 <= (#[trigger] (a + b)[i]).tag <= 0x1fff_ffff
        &&& ((a + b)[i].value is Varint || (a + b)[i].value is Bytes)
    } by {
        if i < a.len() {
            assert((a + b)[i] == a[i]);
        } else {
            assert((a + b)[i] == b[i - a.len()]);
        }
    }
}

/// A field number that a key can carry.
pub open spec fn tag_ok(tag: nat) -> bool {
    1 <= tag <= 0x1fff_ffff
}

pub broadcast proof fn lemma_tags_ok_uint(tag: nat, v: u64)
    requires
        tag_ok(tag),
    ensures
        #[trigger] fields_tags_ok(uint_field(tag, v)),
{
}

pub broadcast proof fn lemma_tags_ok_opt_uint(tag: nat, v: Option<u64>)
    requires
        tag_ok(tag),
    ensures
        #[trigger] fields_tags_ok(opt_uint_field(tag, v)),
{
}

pub broadcast proof fn lemma_tags_ok_bytes(tag: nat, b: Seq<u8>)
    requires
        tag_ok(tag),
    ensures
        #[trigger] fields_tags_ok(bytes_field(tag, b)),
{
}

pub broadcast proof fn lemma_tags_ok_opt_bytes(tag: nat, b: Option<Seq<u8>>)
    requires
        tag_ok(tag),
    ensures
        #[trigger] fields_tags_ok(opt_bytes_field(tag, b)),
{
}

pub broadcast proof fn lemma_tags_ok_string(tag: nat, t: Seq<char>)
    requires
        tag_ok(tag),
    ensures
        #[trigger] fields_tags_ok(string_field(tag, t)),
{
}

pub broadcast proof fn lemma_tags_ok_opt_string(tag: nat, t: Option<Seq<char>>)
    requires
        tag_ok(tag),
    ensures
        #[trigger] fields_tags_ok(opt_string_field(tag, t)),
{
}

pub broadcast proof fn lemma_tags_ok_packed(tag: nat, vs: Seq<u64>)
    requires
        tag_ok(tag),
    ensures
        #[trigger] fields_tags_ok(packed_field(tag, vs)),
{
}

pub broadcast proof fn lemma_tags_ok_repeated(tag: nat, items: Seq<Seq<u8>>)
    requires
        tag_ok(tag),
    ensures
        #[trigger] fields_tags_ok(repeated_bytes_fields(tag, items)),
{
}

pub broadcast group group_tags_ok {
    lemma_tags_ok_concat,
    lemma_tags_ok_uint,
    lemma_tags_ok_opt_uint,
    lemma_tags_ok_bytes,
    lemma_tags_ok_opt_bytes,
    lemma_tags_ok_string,
    lemma_tags_ok_opt_string,
    lemma_tags_ok_packed,
    lemma_tags_ok_repeated,
}

/// A field's length-delimited value is no longer than the field.
pub proof fn lemma_field_payload_le(f: WireField)
    ensures
        bytes_at_most(f, spec_encode_field(f).len()),
{
}

/// Applying a varint field that is left out where it is zero.
pub proof fn lemma_apply_uint_field<M>(apply: spec_fn(M, WireField) -> Option<M>, m: M, tag: nat, v: u64)
    ensures
        spec_apply_all(apply, m, uint_field(tag, v)) == if v == 0 {
            Some(m)
        } else {
            apply(m, WireField { tag, value: WireValue::Varint(v) })
        },
{
    broadcast use group_apply_lists;

}

/// Applying a varint field that is written where present.
pub proof fn lemma_apply_opt_uint_field<M>(
    apply: spec_fn(M, WireField) -> Option<M>,
    m: M,
    tag: nat,
    v: Option<u64>,
)
    ensures
        spec_apply_all(apply, m, opt_uint_field(tag, v)) == match v {
            Some(x) => apply(m, WireField { tag, value: WireValue::Varint(x) }),
            None => Some(m),
        },
{
    broadcast use group_apply_lists;

}

/// Applying a length-delimited field that is left out where it is empty.
pub proof fn lemma_apply_bytes_field<M>(apply: spec_fn(M, WireField) -> Option<M>, m: M, tag: nat, b: Seq<u8>)
    ensures
        spec_apply_all(apply, m, bytes_field(tag, b)) == if b.len() == 0 {
            Some(m)
        } else {
            apply(m, WireField { tag, value: WireValue::Bytes(b) })
        },
{
    broadcast use group_apply_lists;

}

/// Applying a length-delimited field that is written where present.
pub proof fn lemma_apply_opt_bytes_field<M>(
    apply: spec_fn(M, WireField) -> Option<M>,
    m: M,
    tag: nat,
    b: Option<Seq<u8>>,
)
    ensures
        spec_apply_all(apply, m, opt_bytes_field(tag, b)) == match b {
            Some(x) => apply(m, WireField { tag, value: WireValue::Bytes(x) }),
            None => Some(m),
        },
{
    broadcast use group_apply_lists;

}

/// Applying a packed field that is left out where it holds no values.
pub proof fn lemma_apply_packed_field<M>(apply: spec_fn(M, WireField) -> Option<M>, m: M, tag: nat, vs: Seq<u64>)
    ensures
        spec_apply_all(apply, m, packed_field(tag, vs)) == if vs.len() == 0 {
            Some(m)
        } else {
            apply(m, WireField { tag, value: WireValue::Bytes(spec_packed(vs)) })
        },
{
    broadcast use group_apply_lists;

}

/// Applying a text field that is left out where it is empty.
pub proof fn lemma_apply_string_field<M>(apply: spec_fn(M, WireField) -> Option<M>, m: M, tag: nat, t: Seq<char>)
    ensures
        spec_apply_all(apply, m, string_field(tag, t)) == if t.len() == 0 {
            Some(m)
        } else {
            apply(m, WireField { tag, value: WireValue::Bytes(encode_utf8(t)) })
        },
{
    broadcast use group_apply_lists;

    lemma_utf8_empty(t);
}

/// Text is empty exactly where its UTF-8 bytes are.
pub proof fn lemma_utf8_empty(t: Seq<char>)
    ensures
        (encode_utf8(t).len() == 0) == (t.len() == 0),
{
    broadcast use vstd::utf8::group_utf8_lib;

    crate::text::lemma_utf8_round_trip(t);
    if encode_utf8(t).len() == 0 {
        assert(encode_utf8(t) =~= Seq::<u8>::empty());
        assert(valid_utf8(Seq::<u8>::empty()));
        assert(decode_utf8(Seq::<u8>::empty()) =~= Seq::<char>::empty()) by {
            reveal_with_fuel(decode_utf8, 2);
        }
    }
    if t.len() == 0 {
        assert(encode_utf8(t) =~= Seq::<u8>::empty()) by {
            reveal_with_fuel(encode_utf8, 2);
        }
    }
}

/// Applying a text field that is written where present.
pub proof fn lemma_apply_opt_string_field<M>(
    apply: spec_fn(M, WireField) -> Option<M>,
    m: M,
    tag: nat,
    t: Option<Seq<char>>,
)
    ensures
        spec_apply_all(apply, m, opt_string_field(tag, t)) == match t {
            Some(x) => apply(m, WireField { tag, value: WireValue::Bytes(encode_utf8(x)) }),
            None => Some(m),
        },
{
    broadcast use group_apply_lists;

}

/// The field list of one item of a repeated field, and the rest.
pub proof fn lemma_repeated_split(tag: nat, items: Seq<Seq<u8>>)
    requires
        items.len() > 0,
    ensures
        repeated_bytes_fields(tag, items) == seq![WireField { tag, value: WireValue::Bytes(items[0]) }]
            + repeated_bytes_fields(tag, items.drop_first()),
{
    assert(repeated_bytes_fields(tag, items) =~= seq![WireField { tag, value: WireValue::Bytes(items[0]) }]
        + repeated_bytes_fields(tag, items.drop_first()));
}

/// Every item of a repeated field is no longer than the fields' encoding.
pub proof fn lemma_repeated_bounded(tag: nat, items: Seq<Seq<u8>>)
    ensures
        forall|i: int| 0 <= i < items.len() ==> (#[trigger] items[i]).len() <= spec_encode_fields(repeated_bytes_fields(tag, items)).len(),
{
    let fs = repeated_bytes_fields(tag, items);
    lemma_fields_bytes_bounded(fs);
    assert forall|i: int| 0 <= i < items.len() implies (#[trigger] items[i]).len() <= spec_encode_fields(fs).len() by {
        assert(bytes_at_most(fs[i], spec_encode_fields(fs).len()));
    }
}

/// Applying a text field read back from its encoding.
pub proof fn lemma_field_string_round_trip(tag: nat, t: Seq<char>)
    ensures
        field_string(WireField { tag, value: WireValue::Bytes(encode_utf8(t)) }) == Some(t),
{
    crate::text::lemma_utf8_round_trip(t);
}

/// A copy of a list of byte strings.
pub fn duplicate_byte_strings(items: &Vec<Vec<u8>>) -> (r: Vec<Vec<u8>>)
    ensures
        view_byte_strings(r@) == view_byte_strings(items@),
{
    let mut r: Vec<Vec<u8>> = Vec::new();
    let mut i: usize = 0;
    while i < items.len()
        invariant
            i <= items@.len(),
            view_byte_strings(r@) == view_byte_strings(items@).take(i as int),
        decreases items@.len() - i,
    {
        let ghost before = r@;
        let d = vstd::slice::slice_to_vec(items[i].as_slice());
        r.push(d);
        assert(view_byte_strings(r@) =~= view_byte_strings(before).push(d@));
        assert(view_byte_strings(items@).take(i + 1) =~= view_byte_strings(items@).take(i as int).push(
            items@[i as int]@,
        ));
        i = i + 1;
    }
    assert(view_byte_strings(items@).take(i as int) =~= view_byte_strings(items@));
    r
}

} // verus!
