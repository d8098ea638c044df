//! Events, signed events and the messages they carry.

use vstd::prelude::*;
use vstd::utf8::*;

use crate::wire::{
    bytes_field, field_bytes, field_string, field_varint, group_field_lists, lemma_apply_bytes_field,
    lemma_apply_concat, lemma_apply_opt_bytes_field, lemma_apply_opt_uint_field, lemma_apply_packed_field,
    lemma_apply_single, lemma_apply_string_field, lemma_apply_uint_field, lemma_decode_fields,
    lemma_encode_fields_concat, lemma_encode_single_field, lemma_field_payload_le, lemma_field_string_round_trip,
    lemma_merge_bad_field, lemma_merge_empty, lemma_merge_step, lemma_parse_packed, lemma_repeated_bounded,
    lemma_repeated_split, merge_packed, opt_bytes_field, opt_uint_field, packed_field, put_bytes, put_bytes_always,
    put_opt_uint, put_packed, put_string, put_uint, raw_bytes, raw_field_view, raw_field_within, raw_merge_packed,
    raw_string, raw_varint, read_field, repeated_bytes_fields, spec_apply_all, fields_tags_ok, spec_encode_fields,
    spec_merge_with, string_field, uint_field, RawField, RawValue, WireField, WireValue, lemma_tags_ok_uint,
    lemma_tags_ok_bytes, lemma_tags_ok_string, lemma_tags_ok_opt_uint, lemma_tags_ok_opt_bytes,
    lemma_tags_ok_repeated, lemma_tags_ok_packed, lemma_tags_ok_concat,
};

use crate::keys::{
    Process, PublicKey, SpecProcess, SpecPublicKey, default_process, default_public_key, lemma_process_round_trip,
    lemma_public_key_round_trip, spec_encode_process, spec_encode_public_key, spec_merge_process,
    spec_merge_public_key,
};

verus! {

/// A reference from an event: its type (2: a pointer, 3: bytes such as a topic) and its bytes.
#[derive(Clone, Debug, PartialEq, Eq, Default)]
pub struct Reference {
    /// 2 for a pointer, 3 for a byte reference such as a topic.
    pub reference_type: u64,
    pub reference: Vec<u8>,
}

/// The value of a [`Reference`].
#[verifier::ext_equal]
pub struct SpecReference {
    pub reference_type: u64,
    pub reference: Seq<u8>,
}

impl View for Reference {
    type V = SpecReference;

    open spec fn view(&self) -> SpecReference {
        SpecReference {
            reference_type: self.reference_type,
            reference: self.reference@,
        }
    }
}

/// The value that decoding starts from: every field at its default.
pub open spec fn default_reference() -> SpecReference {
    SpecReference { reference_type: 0, reference: seq![] }
}

/// The fields that a [`Reference`] is written as, in field-number order; fields
/// at their default are left out.
pub open spec fn reference_fields(m: SpecReference) -> Seq<WireField> {
    uint_field(1, m.reference_type)
        + bytes_field(2, m.reference)
}

/// The encoding of a [`Reference`].
pub open spec fn spec_encode_reference(m: SpecReference) -> Seq<u8> {
    spec_encode_fields(reference_fields(m))
}

/// Merges one field into a [`Reference`]: a known field number must come with
/// its wire type; fields with other numbers are skipped.
pub open spec fn apply_reference(m: SpecReference, f: WireField) -> Option<SpecReference> {
    if f.tag == 1 {
        match field_varint(f) { Some(v) => Some(SpecReference { reference_type: v, reference: m.reference }), None => None }
    } else if f.tag == 2 {
        match field_bytes(f) { Some(b) => Some(SpecReference { reference_type: m.reference_type, reference: b }), None => None }
    } else {
        Some(m)
    }
}

pub open spec fn reference_applier() -> spec_fn(SpecReference, WireField) -> Option<SpecReference> {
    |m: SpecReference, f: WireField| apply_reference(m, f)
}

/// Merges the fields of `b` into `m`.
pub open spec fn spec_merge_reference(m: SpecReference, b: Seq<u8>) -> Option<SpecReference> {
    spec_merge_with(reference_applier(), m, b)
}

/// Decodes a [`Reference`]: the fields of `b` merged into the default.
pub open spec fn spec_decode_reference(b: Seq<u8>) -> Option<SpecReference> {
    spec_merge_reference(default_reference(), b)
}

/// The values of a list of [`Reference`]s.
pub open spec fn view_references(v: Seq<Reference>) -> Seq<SpecReference> {
    v.map_values(|x: Reference| x@)
}

/// The encodings of a list of [`Reference`] values.
pub open spec fn encode_references(v: Seq<SpecReference>) -> Seq<Seq<u8>> {
    v.map_values(|x: SpecReference| spec_encode_reference(x))
}

impl Reference {
    /// A value with every field at its default.
    pub fn new_default() -> (r: Self)
        ensures
            r@ == default_reference(),
    {
        let r = Reference { reference_type: 0, reference: Vec::new() };
        assert(r@ =~= default_reference());
        r
    }

    /// A copy.
    pub fn duplicate(&self) -> (r: Self)
        ensures
            r@ == self@,
    {
        let r = Reference {
            reference_type: self.reference_type,
            reference: vstd::slice::slice_to_vec(self.reference.as_slice()),
        };
        assert(r@ =~= self@);
        r
    }

    /// The protocol encoding.
    pub fn encode(&self) -> (r: Vec<u8>)
        ensures
            r@ == spec_encode_reference(self@),
    {
        broadcast use group_field_lists;

        let mut out: Vec<u8> = Vec::new();
        put_uint(1, self.reference_type, &mut out);
        put_bytes(2, self.reference.as_slice(), &mut out);
        assert(out@ =~= spec_encode_reference(self@));
        out
    }

    fn apply_field(&mut self, buf: &[u8], f: &RawField) -> (ok: bool)
        requires
            raw_field_within(*f, buf@.len()),
        ensures
            match apply_reference(old(self)@, raw_field_view(*f, buf@)) {
                Some(m) => ok && final(self)@ == m,
                None => !ok,
            },
    {
        if f.tag == 1 {
            match raw_varint(f) { Some(v) => { self.reference_type = v; true }, None => false }
        } else if f.tag == 2 {
            match raw_bytes(buf, f) { Some(b) => { self.reference = b; true }, None => false }
        } else {
            true
        }
    }

    /// Merges the fields of `buf[start..end]` into `self`; `false` where the
    /// bytes are not a valid encoding (`self` is then left in no stated state).
    pub fn merge(&mut self, buf: &[u8], start: usize, end: usize) -> (ok: bool)
        requires
            start <= end <= buf@.len(),
        ensures
            match spec_merge_reference(old(self)@, buf@.subrange(start as int, end as int)) {
                Some(m) => ok && final(self)@ == m,
                None => !ok,
            },
    {
        let mut pos = start;
        while pos < end
            invariant
                start <= pos <= end <= buf@.len(),
                spec_merge_reference(old(self)@, buf@.subrange(start as int, end as int)) == spec_merge_reference(
                    self@,
                    buf@.subrange(pos as int, end as int),
                ),
            decreases end - pos,
        {
            match read_field(buf, pos, end) {
                Some((f, next)) => {
                    proof {
                        lemma_merge_step(
                            reference_applier(),
                            self@,
                            buf@,
                            pos as nat,
                            next as nat,
                            end as nat,
                            raw_field_view(f, buf@),
                        );
                    }
                    if !self.apply_field(buf, &f) {
                        return false;
                    }
                    pos = next;
                },
                None => {
                    proof {
                        lemma_merge_bad_field(reference_applier(), self@, buf@, pos as nat, end as nat);
                    }
                    return false;
                },
            }
        }
        proof {
            lemma_merge_empty(reference_applier(), self@, buf@, pos as nat);
        }
        true
    }

    /// Decodes a [`Reference`] from its protocol encoding; `None` where the bytes
    /// are not one.
    pub fn decode(buf: &[u8]) -> (r: Option<Self>)
        ensures
            match spec_decode_reference(buf@) {
                Some(m) => r matches Some(x) && x@ == m,
                None => r is None,
            },
    {
        let mut m = Reference::new_default();
        assert(buf@.subrange(0, buf@.len() as int) =~= buf@);
        if m.merge(buf, 0, buf.len()) {
            Some(m)
        } else {
            None
        }
    }
}

/// Appends one field per item of `items`, each holding the item's encoding.
pub fn put_references(tag: u64, items: &Vec<Reference>, out: &mut Vec<u8>)
    requires
        1 <= tag <= 0x1fff_ffff,
    ensures
        final(out)@ == old(out)@ + spec_encode_fields(
            repeated_bytes_fields(tag as nat, encode_references(view_references(items@))),
        ),
{
    let ghost all = encode_references(view_references(items@));
    let mut i: usize = 0;
    while i < items.len()
        invariant
            1 <= tag <= 0x1fff_ffff,
            i <= items@.len(),
            all == encode_references(view_references(items@)),
            out@ == old(out)@ + spec_encode_fields(repeated_bytes_fields(tag as nat, all.take(i as int))),
        decreases items@.len() - i,
    {
        let e = items[i].encode();
        put_bytes_always(tag, e.as_slice(), out);
        let ghost f = WireField { tag: tag as nat, value: WireValue::Bytes(e@) };
        let ghost prev = repeated_bytes_fields(tag as nat, all.take(i as int));
        assert(all[i as int] == e@);
        assert(repeated_bytes_fields(tag as nat, all.take(i + 1)) =~= prev + seq![f]);
        proof {
            lemma_encode_fields_concat(prev, seq![f]);
            lemma_encode_single_field(f);
        }
        assert(out@ =~= old(out)@ + spec_encode_fields(prev + seq![f]));
        i = i + 1;
    }
    assert(all.take(i as int) =~= all);
}

/// A copy of a list of [`Reference`]s.
pub fn duplicate_references(items: &Vec<Reference>) -> (r: Vec<Reference>)
    ensures
        view_references(r@) == view_references(items@),
{
    let mut r: Vec<Reference> = Vec::new();
    let mut i: usize = 0;
    while i < items.len()
        invariant
            i <= items@.len(),
            view_references(r@) == view_references(items@).take(i as int),
        decreases items@.len() - i,
    {
        let ghost before = r@;
        let d = items[i].duplicate();
        r.push(d);
        assert(view_references(r@) =~= view_references(before).push(d@));
        assert(view_references(items@).take(i + 1) =~= view_references(items@).take(i as int).push(items@[i as int]@));
        i = i + 1;
    }
    assert(view_references(items@).take(i as int) =~= view_references(items@));
    r
}

proof fn lemma_reference_tags_ok(m: SpecReference)
    ensures
        fields_tags_ok(reference_fields(m)),
{
    lemma_tags_ok_uint(1, m.reference_type);
    lemma_tags_ok_bytes(2, m.reference);
    lemma_tags_ok_concat(uint_field(1, m.reference_type), bytes_field(2, m.reference));
}

proof fn lemma_reference_part_lengths(m: SpecReference)
    ensures
        spec_encode_fields(uint_field(1, m.reference_type)).len() <= spec_encode_fields(reference_fields(m)).len(),
        spec_encode_fields(bytes_field(2, m.reference)).len() <= spec_encode_fields(reference_fields(m)).len(),
{
    broadcast use group_field_lists;

}

proof fn lemma_reference_step_reference_type(m: SpecReference)
    requires
        spec_encode_fields(uint_field(1, m.reference_type)).len() < 0x1_0000_0000_0000_0000,
    ensures
        spec_apply_all(reference_applier(), SpecReference { reference_type: 0, reference: seq![] }, uint_field(1, m.reference_type)) == Some(SpecReference { reference_type: m.reference_type, reference: seq![] }),
{
    let d = SpecReference { reference_type: 0, reference: seq![] };
    lemma_apply_uint_field(reference_applier(), d, 1, m.reference_type);
}

proof fn lemma_reference_step_reference(m: SpecReference)
    requires
        spec_encode_fields(bytes_field(2, m.reference)).len() < 0x1_0000_0000_0000_0000,
    ensures
        spec_apply_all(reference_applier(), SpecReference { reference_type: m.reference_type, reference: seq![] }, bytes_field(2, m.reference)) == Some(SpecReference { reference_type: m.reference_type, reference: m.reference }),
{
    let d = SpecReference { reference_type: m.reference_type, reference: seq![] };
    lemma_apply_bytes_field(reference_applier(), d, 2, m.reference);
    if m.reference.len() == 0 {
        assert(m.reference =~= Seq::<u8>::empty());
    }
}

/// Decoding the encoding of a [`Reference`] gives back the value (for every value
/// whose encoding fits a 64-bit length).
pub proof fn lemma_reference_round_trip(m: SpecReference)
    requires
        spec_encode_reference(m).len() < 0x1_0000_0000_0000_0000,
    ensures
        spec_decode_reference(spec_encode_reference(m)) == Some(m),
{
    let fs = reference_fields(m);
    lemma_reference_tags_ok(m);
    lemma_decode_fields(reference_applier(), default_reference(), fs);
    lemma_reference_part_lengths(m);
    lemma_reference_step_reference_type(m);
    lemma_reference_step_reference(m);
    lemma_apply_concat(reference_applier(), default_reference(), uint_field(1, m.reference_type), bytes_field(2, m.reference));
    assert(SpecReference { reference_type: m.reference_type, reference: m.reference } =~= m);
}

/// The logical clocks of a system's other processes that an event has seen.
#[derive(Clone, Debug, PartialEq, Eq, Default)]
pub struct VectorClock {
    pub logical_clocks: Vec<u64>,
}

/// The value of a [`VectorClock`].
#[verifier::ext_equal]
pub struct SpecVectorClock {
    pub logical_clocks: Seq<u64>,
}

impl View for VectorClock {
    type V = SpecVectorClock;

    open spec fn view(&self) -> SpecVectorClock {
        SpecVectorClock {
            logical_clocks: self.logical_clocks@,
        }
    }
}

/// The value that decoding starts from: every field at its default.
pub open spec fn default_vector_clock() -> SpecVectorClock {
    SpecVectorClock { logical_clocks: seq![] }
}

/// The fields that a [`VectorClock`] is written as, in field-number order; fields
/// at their default are left out.
pub open spec fn vector_clock_fields(m: SpecVectorClock) -> Seq<WireField> {
    packed_field(1, m.logical_clocks)
}

/// The encoding of a [`VectorClock`].
pub open spec fn spec_encode_vector_clock(m: SpecVectorClock) -> Seq<u8> {
    spec_encode_fields(vector_clock_fields(m))
}

/// Merges one field into a [`VectorClock`]: a known field number must come with
/// its wire type; fields with other numbers are skipped.
pub open spec fn apply_vector_clock(m: SpecVectorClock, f: WireField) -> Option<SpecVectorClock> {
    if f.tag == 1 {
        match merge_packed(m.logical_clocks, f) { Some(vs) => Some(SpecVectorClock { logical_clocks: vs }), None => None }
    } else {
        Some(m)
    }
}

pub open spec fn vector_clock_applier() -> spec_fn(SpecVectorClock, WireField) -> Option<SpecVectorClock> {
    |m: SpecVectorClock, f: WireField| apply_vector_clock(m, f)
}

/// Merges the fields of `b` into `m`.
pub open spec fn spec_merge_vector_clock(m: SpecVectorClock, b: Seq<u8>) -> Option<SpecVectorClock> {
    spec_merge_with(vector_clock_applier(), m, b)
}

/// Decodes a [`VectorClock`]: the fields of `b` merged into the default.
pub open spec fn spec_decode_vector_clock(b: Seq<u8>) -> Option<SpecVectorClock> {
    spec_merge_vector_clock(default_vector_clock(), b)
}

/// The values of a list of [`VectorClock`]s.
pub open spec fn view_vector_clocks(v: Seq<VectorClock>) -> Seq<SpecVectorClock> {
    v.map_values(|x: VectorClock| x@)
}

/// The encodings of a list of [`VectorClock`] values.
pub open spec fn encode_vector_clocks(v: Seq<SpecVectorClock>) -> Seq<Seq<u8>> {
    v.map_values(|x: SpecVectorClock| spec_encode_vector_clock(x))
}

impl VectorClock {
    /// A value with every field at its default.
    pub fn new_default() -> (r: Self)
        ensures
            r@ == default_vector_clock(),
    {
        let r = VectorClock { logical_clocks: Vec::new() };
        assert(r@ =~= default_vector_clock());
        r
    }

    /// A copy.
    pub fn duplicate(&self) -> (r: Self)
        ensures
            r@ == self@,
    {
        let r = VectorClock {
            logical_clocks: vstd::slice::slice_to_vec(self.logical_clocks.as_slice()),
        };
        assert(r@ =~= self@);
        r
    }

    /// The protocol encoding.
    pub fn encode(&self) -> (r: Vec<u8>)
        ensures
            r@ == spec_encode_vector_clock(self@),
    {
        broadcast use group_field_lists;

        let mut out: Vec<u8> = Vec::new();
        put_packed(1, &self.logical_clocks, &mut out);
        assert(out@ =~= spec_encode_vector_clock(self@));
        out
    }

    fn apply_field(&mut self, buf: &[u8], f: &RawField) -> (ok: bool)
        requires
            raw_field_within(*f, buf@.len()),
        ensures
            match apply_vector_clock(old(self)@, raw_field_view(*f, buf@)) {
                Some(m) => ok && final(self)@ == m,
                None => !ok,
            },
    {
        if f.tag == 1 {
            raw_merge_packed(&mut self.logical_clocks, buf, f)
        } else {
            true
        }
    }

    /// Merges the fields of `buf[start..end]` into `self`; `false` where the
    /// bytes are not a valid encoding (`self` is then left in no stated state).
    pub fn merge(&mut self, buf: &[u8], start: usize, end: usize) -> (ok: bool)
        requires
            start <= end <= buf@.len(),
        ensures
            match spec_merge_vector_clock(old(self)@, buf@.subrange(start as int, end as int)) {
                Some(m) => ok && final(self)@ == m,
                None => !ok,
            },
    {
        let mut pos = start;
        while pos < end
            invariant
                start <= pos <= end <= buf@.len(),
                spec_merge_vector_clock(old(self)@, buf@.subrange(start as int, end as int)) == spec_merge_vector_clock(
                    self@,
                    buf@.subrange(pos as int, end as int),
                ),
            decreases end - pos,
        {
            match read_field(buf, pos, end) {
                Some((f, next)) => {
                    proof {
                        lemma_merge_step(
                            vector_clock_applier(),
                            self@,
                            buf@,
                            pos as nat,
                            next as nat,
                            end as nat,
                            raw_field_view(f, buf@),
                        );
                    }
                    if !self.apply_field(buf, &f) {
                        return false;
                    }
                    pos = next;
                },
                None => {
                    proof {
                        lemma_merge_bad_field(vector_clock_applier(), self@, buf@, pos as nat, end as nat);
                    }
                    return false;
                },
            }
        }
        proof {
            lemma_merge_empty(vector_clock_applier(), self@, buf@, pos as nat);
        }
        true
    }

    /// Decodes a [`VectorClock`] from its protocol encoding; `None` where the bytes
    /// are not one.
    pub fn decode(buf: &[u8]) -> (r: Option<Self>)
        ensures
            match spec_decode_vector_clock(buf@) {
                Some(m) => r matches Some(x) && x@ == m,
                None => r is None,
            },
    {
        let mut m = VectorClock::new_default();
        assert(buf@.subrange(0, buf@.len() as int) =~= buf@);
        if m.merge(buf, 0, buf.len()) {
            Some(m)
        } else {
            None
        }
    }
}

proof fn lemma_vector_clock_tags_ok(m: SpecVectorClock)
    ensures
        fields_tags_ok(vector_clock_fields(m)),
{
    lemma_tags_ok_packed(1, m.logical_clocks);
}

proof fn lemma_vector_clock_part_lengths(m: SpecVectorClock)
    ensures
        spec_encode_fields(packed_field(1, m.logical_clocks)).len() <= spec_encode_fields(vector_clock_fields(m)).len(),
{
    broadcast use group_field_lists;

}

proof fn lemma_vector_clock_step_logical_clocks(m: SpecVectorClock)
    requires
        spec_encode_fields(packed_field(1, m.logical_clocks)).len() < 0x1_0000_0000_0000_0000,
    ensures
        spec_apply_all(vector_clock_applier(), SpecVectorClock { logical_clocks: seq![] }, packed_field(1, m.logical_clocks)) == Some(SpecVectorClock { logical_clocks: m.logical_clocks }),
{
    let d = SpecVectorClock { logical_clocks: seq![] };
    lemma_apply_packed_field(vector_clock_applier(), d, 1, m.logical_clocks);
    lemma_parse_packed(m.logical_clocks);
    assert(d.logical_clocks + m.logical_clocks =~= m.logical_clocks);
    if m.logical_clocks.len() == 0 {
        assert(m.logical_clocks =~= Seq::<u64>::empty());
    }
}

/// Decoding the encoding of a [`VectorClock`] gives back the value (for every value
/// whose encoding fits a 64-bit length).
pub proof fn lemma_vector_clock_round_trip(m: SpecVectorClock)
    requires
        spec_encode_vector_clock(m).len() < 0x1_0000_0000_0000_0000,
    ensures
        spec_decode_vector_clock(spec_encode_vector_clock(m)) == Some(m),
{
    let fs = vector_clock_fields(m);
    lemma_vector_clock_tags_ok(m);
    lemma_decode_fields(vector_clock_applier(), default_vector_clock(), fs);
    lemma_vector_clock_part_lengths(m);
    lemma_vector_clock_step_logical_clocks(m);
    assert(SpecVectorClock { logical_clocks: m.logical_clocks } =~= m);
}

/// An entry of the index of a system: the newest logical clock of a content type.
#[derive(Clone, Debug, PartialEq, Eq, Default)]
pub struct Index {
    pub index_type: u64,
    pub logical_clock: u64,
}

/// The value of an [`Index`].
#[verifier::ext_equal]
pub struct SpecIndex {
    pub index_type: u64,
    pub logical_clock: u64,
}

impl View for Index {
    type V = SpecIndex;

    open spec fn view(&self) -> SpecIndex {
        SpecIndex {
            index_type: self.index_type,
            logical_clock: self.logical_clock,
        }
    }
}

/// The value that decoding starts from: every field at its default.
pub open spec fn default_index() -> SpecIndex {
    SpecIndex { index_type: 0, logical_clock: 0 }
}

/// The fields that an [`Index`] is written as, in field-number order; fields
/// at their default are left out.
pub open spec fn index_fields(m: SpecIndex) -> Seq<WireField> {
    uint_field(1, m.index_type)
        + uint_field(2, m.logical_clock)
}

/// The encoding of an [`Index`].
pub open spec fn spec_encode_index(m: SpecIndex) -> Seq<u8> {
    spec_encode_fields(index_fields(m))
}

/// Merges one field into an [`Index`]: a known field number must come with
/// its wire type; fields with other numbers are skipped.
pub open spec fn apply_index(m: SpecIndex, f: WireField) -> Option<SpecIndex> {
    if f.tag == 1 {
        match field_varint(f) { Some(v) => Some(SpecIndex { index_type: v, logical_clock: m.logical_clock }), None => None }
    } else if f.tag == 2 {
        match field_varint(f) { Some(v) => Some(SpecIndex { index_type: m.index_type, logical_clock: v }), None => None }
    } else {
        Some(m)
    }
}

pub open spec fn index_applier() -> spec_fn(SpecIndex, WireField) -> Option<SpecIndex> {
    |m: SpecIndex, f: WireField| apply_index(m, f)
}

/// Merges the fields of `b` into `m`.
pub open spec fn spec_merge_index(m: SpecIndex, b: Seq<u8>) -> Option<SpecIndex> {
    spec_merge_with(index_applier(), m, b)
}

/// Decodes an [`Index`]: the fields of `b` merged into the default.
pub open spec fn spec_decode_index(b: Seq<u8>) -> Option<SpecIndex> {
    spec_merge_index(default_index(), b)
}

/// The values of a list of [`Index`]s.
pub open spec fn view_index_list(v: Seq<Index>) -> Seq<SpecIndex> {
    v.map_values(|x: Index| x@)
}

/// The encodings of a list of [`Index`] values.
pub open spec fn encode_index_list(v: Seq<SpecIndex>) -> Seq<Seq<u8>> {
    v.map_values(|x: SpecIndex| spec_encode_index(x))
}

impl Index {
    /// A value with every field at its default.
    pub fn new_default() -> (r: Self)
        ensures
            r@ == default_index(),
    {
        let r = Index { index_type: 0, logical_clock: 0 };
        assert(r@ =~= default_index());
        r
    }

    /// A copy.
    pub fn duplicate(&self) -> (r: Self)
        ensures
            r@ == self@,
    {
        let r = Index {
            index_type: self.index_type,
            logical_clock: self.logical_clock,
        };
        assert(r@ =~= self@);
        r
    }

    /// The protocol encoding.
    pub fn encode(&self) -> (r: Vec<u8>)
        ensures
            r@ == spec_encode_index(self@),
    {
        broadcast use group_field_lists;

        let mut out: Vec<u8> = Vec::new();
        put_uint(1, self.index_type, &mut out);
        put_uint(2, self.logical_clock, &mut out);
        assert(out@ =~= spec_encode_index(self@));
        out
    }

    fn apply_field(&mut self, buf: &[u8], f: &RawField) -> (ok: bool)
        requires
            raw_field_within(*f, buf@.len()),
        ensures
            match apply_index(old(self)@, raw_field_view(*f, buf@)) {
                Some(m) => ok && final(self)@ == m,
                None => !ok,
            },
    {
        if f.tag == 1 {
            match raw_varint(f) { Some(v) => { self.index_type = v; true }, None => false }
        } else if f.tag == 2 {
            match raw_varint(f) { Some(v) => { self.logical_clock = v; true }, None => false }
        } else {
            true
        }
    }

    /// Merges the fields of `buf[start..end]` into `self`; `false` where the
    /// bytes are not a valid encoding (`self` is then left in no stated state).
    pub fn merge(&mut self, buf: &[u8], start: usize, end: usize) -> (ok: bool)
        requires
            start <= end <= buf@.len(),
        ensures
            match spec_merge_index(old(self)@, buf@.subrange(start as int, end as int)) {
                Some(m) => ok && final(self)@ == m,
                None => !ok,
            },
    {
        let mut pos = start;
        while pos < end
            invariant
                start <= pos <= end <= buf@.len(),
                spec_merge_index(old(self)@, buf@.subrange(start as int, end as int)) == spec_merge_index(
                    self@,
                    buf@.subrange(pos as int, end as int),
                ),
            decreases end - pos,
        {
            match read_field(buf, pos, end) {
                Some((f, next)) => {
                    proof {
                        lemma_merge_step(
                            index_applier(),
                            self@,
                            buf@,
                            pos as nat,
                            next as nat,
                            end as nat,
                            raw_field_view(f, buf@),
                        );
                    }
                    if !self.apply_field(buf, &f) {
                        return false;
                    }
                    pos = next;
                },
                None => {
                    proof {
                        lemma_merge_bad_field(index_applier(), self@, buf@, pos as nat, end as nat);
                    }
                    return false;
                },
            }
        }
        proof {
            lemma_merge_empty(index_applier(), self@, buf@, pos as nat);
        }
        true
    }

    /// Decodes an [`Index`] from its protocol encoding; `None` where the bytes
    /// are not one.
    pub fn decode(buf: &[u8]) -> (r: Option<Self>)
        ensures
            match spec_decode_index(buf@) {
                Some(m) => r matches Some(x) && x@ == m,
                None => r is None,
            },
    {
        let mut m = Index::new_default();
        assert(buf@.subrange(0, buf@.len() as int) =~= buf@);
        if m.merge(buf, 0, buf.len()) {
            Some(m)
        } else {
            None
        }
    }
}

/// Appends one field per item of `items`, each holding the item's encoding.
pub fn put_index_list(tag: u64, items: &Vec<Index>, out: &mut Vec<u8>)
    requires
        1 <= tag <= 0x1fff_ffff,
    ensures
        final(out)@ == old(out)@ + spec_encode_fields(
            repeated_bytes_fields(tag as nat, encode_index_list(view_index_list(items@))),
        ),
{
    let ghost all = encode_index_list(view_index_list(items@));
    let mut i: usize = 0;
    while i < items.len()
        invariant
            1 <= tag <= 0x1fff_ffff,
            i <= items@.len(),
            all == encode_index_list(view_index_list(items@)),
            out@ == old(out)@ + spec_encode_fields(repeated_bytes_fields(tag as nat, all.take(i as int))),
        decreases items@.len() - i,
    {
        let e = items[i].encode();
        put_bytes_always(tag, e.as_slice(), out);
        let ghost f = WireField { tag: tag as nat, value: WireValue::Bytes(e@) };
        let ghost prev = repeated_bytes_fields(tag as nat, all.take(i as int));
        assert(all[i as int] == e@);
        assert(repeated_bytes_fields(tag as nat, all.take(i + 1)) =~= prev + seq![f]);
        proof {
            lemma_encode_fields_concat(prev, seq![f]);
            lemma_encode_single_field(f);
        }
        assert(out@ =~= old(out)@ + spec_encode_fields(prev + seq![f]));
        i = i + 1;
    }
    assert(all.take(i as int) =~= all);
}

/// A copy of a list of [`Index`]s.
pub fn duplicate_index_list(items: &Vec<Index>) -> (r: Vec<Index>)
    ensures
        view_index_list(r@) == view_index_list(items@),
{
    let mut r: Vec<Index> = Vec::new();
    let mut i: usize = 0;
    while i < items.len()
        invariant
            i <= items@.len(),
            view_index_list(r@) == view_index_list(items@).take(i as int),
        decreases items@.len() - i,
    {
        let ghost before = r@;
        let d = items[i].duplicate();
        r.push(d);
        assert(view_index_list(r@) =~= view_index_list(before).push(d@));
        assert(view_index_list(items@).take(i + 1) =~= view_index_list(items@).take(i as int).push(items@[i as int]@));
        i = i + 1;
    }
    assert(view_index_list(items@).take(i as int) =~= view_index_list(items@));
    r
}

proof fn lemma_index_tags_ok(m: SpecIndex)
    ensures
        fields_tags_ok(index_fields(m)),
{
    lemma_tags_ok_uint(1, m.index_type);
    lemma_tags_ok_uint(2, m.logical_clock);
    lemma_tags_ok_concat(uint_field(1, m.index_type), uint_field(2, m.logical_clock));
}

proof fn lemma_index_part_lengths(m: SpecIndex)
    ensures
        spec_encode_fields(uint_field(1, m.index_type)).len() <= spec_encode_fields(index_fields(m)).len(),
        spec_encode_fields(uint_field(2, m.logical_clock)).len() <= spec_encode_fields(index_fields(m)).len(),
{
    broadcast use group_field_lists;

}

proof fn lemma_index_step_index_type(m: SpecIndex)
    requires
        spec_encode_fields(uint_field(1, m.index_type)).len() < 0x1_0000_0000_0000_0000,
    ensures
        spec_apply_all(index_applier(), SpecIndex { index_type: 0, logical_clock: 0 }, uint_field(1, m.index_type)) == Some(SpecIndex { index_type: m.index_type, logical_clock: 0 }),
{
    let d = SpecIndex { index_type: 0, logical_clock: 0 };
    lemma_apply_uint_field(index_applier(), d, 1, m.index_type);
}

proof fn lemma_index_step_logical_clock(m: SpecIndex)
    requires
        spec_encode_fields(uint_field(2, m.logical_clock)).len() < 0x1_0000_0000_0000_0000,
    ensures
        spec_apply_all(index_applier(), SpecIndex { index_type: m.index_type, logical_clock: 0 }, uint_field(2, m.logical_clock)) == Some(SpecIndex { index_type: m.index_type, logical_clock: m.logical_clock }),
{
    let d = SpecIndex { index_type: m.index_type, logical_clock: 0 };
    lemma_apply_uint_field(index_applier(), d, 2, m.logical_clock);
}

/// Decoding the encoding of an [`Index`] gives back the value (for every value
/// whose encoding fits a 64-bit length).
pub proof fn lemma_index_round_trip(m: SpecIndex)
    requires
        spec_encode_index(m).len() < 0x1_0000_0000_0000_0000,
    ensures
        spec_decode_index(spec_encode_index(m)) == Some(m),
{
    let fs = index_fields(m);
    lemma_index_tags_ok(m);
    lemma_decode_fields(index_applier(), default_index(), fs);
    lemma_index_part_lengths(m);
    lemma_index_step_index_type(m);
    lemma_index_step_logical_clock(m);
    lemma_apply_concat(index_applier(), default_index(), uint_field(1, m.index_type), uint_field(2, m.logical_clock));
    assert(SpecIndex { index_type: m.index_type, logical_clock: m.logical_clock } =~= m);
}

/// The indices that an event carries.
#[derive(Clone, Debug, PartialEq, Eq, Default)]
pub struct Indices {
    pub indices: Vec<Index>,
}

/// The value of an [`Indices`].
#[verifier::ext_equal]
pub struct SpecIndices {
    pub indices: Seq<SpecIndex>,
}

impl View for Indices {
    type V = SpecIndices;

    open spec fn view(&self) -> SpecIndices {
        SpecIndices {
            indices: view_index_list(self.indices@),
        }
    }
}

/// The value that decoding starts from: every field at its default.
pub open spec fn default_indices() -> SpecIndices {
    SpecIndices { indices: seq![] }
}

/// The fields that an [`Indices`] is written as, in field-number order; fields
/// at their default are left out.
pub open spec fn indices_fields(m: SpecIndices) -> Seq<WireField> {
    repeated_bytes_fields(1, encode_index_list(m.indices))
}

/// The encoding of an [`Indices`].
pub open spec fn spec_encode_indices(m: SpecIndices) -> Seq<u8> {
    spec_encode_fields(indices_fields(m))
}

/// Merges one field into an [`Indices`]: a known field number must come with
/// its wire type; fields with other numbers are skipped.
pub open spec fn apply_indices(m: SpecIndices, f: WireField) -> Option<SpecIndices> {
    if f.tag == 1 {
        match field_bytes(f) { Some(b) => match spec_decode_index(b) { Some(v) => Some(SpecIndices { indices: m.indices.push(v) }), None => None }, None => None }
    } else {
        Some(m)
    }
}

pub open spec fn indices_applier() -> spec_fn(SpecIndices, WireField) -> Option<SpecIndices> {
    |m: SpecIndices, f: WireField| apply_indices(m, f)
}

/// Merges the fields of `b` into `m`.
pub open spec fn spec_merge_indices(m: SpecIndices, b: Seq<u8>) -> Option<SpecIndices> {
    spec_merge_with(indices_applier(), m, b)
}

/// Decodes an [`Indices`]: the fields of `b` merged into the default.
pub open spec fn spec_decode_indices(b: Seq<u8>) -> Option<SpecIndices> {
    spec_merge_indices(default_indices(), b)
}

/// The values of a list of [`Indices`]s.
pub open spec fn view_indices_list(v: Seq<Indices>) -> Seq<SpecIndices> {
    v.map_values(|x: Indices| x@)
}

/// The encodings of a list of [`Indices`] values.
pub open spec fn encode_indices_list(v: Seq<SpecIndices>) -> Seq<Seq<u8>> {
    v.map_values(|x: SpecIndices| spec_encode_indices(x))
}

impl Indices {
    /// A value with every field at its default.
    pub fn new_default() -> (r: Self)
        ensures
            r@ == default_indices(),
    {
        let r = Indices { indices: Vec::new() };
        assert(r@ =~= default_indices());
        r
    }

    /// A copy.
    pub fn duplicate(&self) -> (r: Self)
        ensures
            r@ == self@,
    {
        let r = Indices {
            indices: duplicate_index_list(&self.indices),
        };
        assert(r@ =~= self@);
        r
    }

    /// The protocol encoding.
    pub fn encode(&self) -> (r: Vec<u8>)
        ensures
            r@ == spec_encode_indices(self@),
    {
        broadcast use group_field_lists;

        let mut out: Vec<u8> = Vec::new();
        put_index_list(1, &self.indices, &mut out);
        assert(out@ =~= spec_encode_indices(self@));
        out
    }

    fn apply_field(&mut self, buf: &[u8], f: &RawField) -> (ok: bool)
        requires
            raw_field_within(*f, buf@.len()),
        ensures
            match apply_indices(old(self)@, raw_field_view(*f, buf@)) {
                Some(m) => ok && final(self)@ == m,
                None => !ok,
            },
    {
        if f.tag == 1 {
            match f.value {
                RawValue::Bytes(s, e) => {
                    let mut sub = Index::new_default();
                    if sub.merge(buf, s, e) {
                        let ghost before = self.indices@;
                        self.indices.push(sub);
                        assert(view_index_list(self.indices@) =~= view_index_list(before).push(sub@));
                        true
                    } else {
                        false
                    }
                },
                _ => false,
            }
        } else {
            true
        }
    }

    /// Merges the fields of `buf[start..end]` into `self`; `false` where the
    /// bytes are not a valid encoding (`self` is then left in no stated state).
    pub fn merge(&mut self, buf: &[u8], start: usize, end: usize) -> (ok: bool)
        requires
            start <= end <= buf@.len(),
        ensures
            match spec_merge_indices(old(self)@, buf@.subrange(start as int, end as int)) {
                Some(m) => ok && final(self)@ == m,
                None => !ok,
            },
    {
        let mut pos = start;
        while pos < end
            invariant
                start <= pos <= end <= buf@.len(),
                spec_merge_indices(old(self)@, buf@.subrange(start as int, end as int)) == spec_merge_indices(
                    self@,
                    buf@.subrange(pos as int, end as int),
                ),
            decreases end - pos,
        {
            match read_field(buf, pos, end) {
                Some((f, next)) => {
                    proof {
                        lemma_merge_step(
                            indices_applier(),
                            self@,
                            buf@,
                            pos as nat,
                            next as nat,
                            end as nat,
                            raw_field_view(f, buf@),
                        );
                    }
                    if !self.apply_field(buf, &f) {
                        return false;
                    }
                    pos = next;
                },
                None => {
                    proof {
                        lemma_merge_bad_field(indices_applier(), self@, buf@, pos as nat, end as nat);
                    }
                    return false;
                },
            }
        }
        proof {
            lemma_merge_empty(indices_applier(), self@, buf@, pos as nat);
        }
        true
    }

    /// Decodes an [`Indices`] from its protocol encoding; `None` where the bytes
    /// are not one.
    pub fn decode(buf: &[u8]) -> (r: Option<Self>)
        ensures
            match spec_decode_indices(buf@) {
                Some(m) => r matches Some(x) && x@ == m,
                None => r is None,
            },
    {
        let mut m = Indices::new_default();
        assert(buf@.subrange(0, buf@.len() as int) =~= buf@);
        if m.merge(buf, 0, buf.len()) {
            Some(m)
        } else {
            None
        }
    }
}

/// Applying the fields of `items` to the `indices` of `m` appends them.
proof fn lemma_indices_apply_indices(m: SpecIndices, items: Seq<SpecIndex>)
    requires
        forall|i: int| 0 <= i < items.len() ==> (#[trigger] spec_encode_index(items[i])).len() < 0x1_0000_0000_0000_0000,
    ensures
        spec_apply_all(indices_applier(), m, repeated_bytes_fields(1, encode_index_list(items))) == Some(SpecIndices { indices: m.indices + items }),
    decreases items.len(),
{
    if items.len() == 0 {
        assert(repeated_bytes_fields(1, encode_index_list(items)) =~= Seq::<WireField>::empty());
        assert(m.indices + items =~= m.indices);
        assert(SpecIndices { indices: m.indices + items } =~= m);
    } else {
        lemma_repeated_split(1, encode_index_list(items));
        assert(encode_index_list(items).drop_first() =~= encode_index_list(items.drop_first()));
        assert(encode_index_list(items)[0] == spec_encode_index(items[0]));
        lemma_index_round_trip(items[0]);
        let m1 = SpecIndices { indices: m.indices.push(items[0]) };
        lemma_apply_concat(indices_applier(), m, seq![WireField { tag: 1, value: WireValue::Bytes(encode_index_list(items)[0]) }], repeated_bytes_fields(1, encode_index_list(items.drop_first())));
        lemma_apply_single(indices_applier(), m, WireField { tag: 1, value: WireValue::Bytes(encode_index_list(items)[0]) });
        assert forall|i: int| 0 <= i < items.drop_first().len() implies (#[trigger] spec_encode_index(items.drop_first()[i])).len() < 0x1_0000_0000_0000_0000 by {
            assert(items.drop_first()[i] == items[i + 1]);
        }
        lemma_indices_apply_indices(m1, items.drop_first());
        assert(m1.indices + items.drop_first() =~= m.indices + items);
    }
}

proof fn lemma_indices_tags_ok(m: SpecIndices)
    ensures
        fields_tags_ok(indices_fields(m)),
{
    lemma_tags_ok_repeated(1, encode_index_list(m.indices));
}

proof fn lemma_indices_part_lengths(m: SpecIndices)
    ensures
        spec_encode_fields(repeated_bytes_fields(1, encode_index_list(m.indices))).len() <= spec_encode_fields(indices_fields(m)).len(),
{
    broadcast use group_field_lists;

}

proof fn lemma_indices_step_indices(m: SpecIndices)
    requires
        spec_encode_fields(repeated_bytes_fields(1, encode_index_list(m.indices))).len() < 0x1_0000_0000_0000_0000,
    ensures
        spec_apply_all(indices_applier(), SpecIndices { indices: seq![] }, repeated_bytes_fields(1, encode_index_list(m.indices))) == Some(SpecIndices { indices: m.indices }),
{
    let d = SpecIndices { indices: seq![] };
    lemma_repeated_bounded(1, encode_index_list(m.indices));
    assert forall|i: int| 0 <= i < m.indices.len() implies (#[trigger] spec_encode_index(m.indices[i])).len()
        < 0x1_0000_0000_0000_0000 by {
        assert(encode_index_list(m.indices)[i] == spec_encode_index(m.indices[i]));
    }
    lemma_indices_apply_indices(d, m.indices);
    assert(d.indices + m.indices =~= m.indices);
}

/// Decoding the encoding of an [`Indices`] gives back the value (for every value
/// whose encoding fits a 64-bit length).
pub proof fn lemma_indices_round_trip(m: SpecIndices)
    requires
        spec_encode_indices(m).len() < 0x1_0000_0000_0000_0000,
    ensures
        spec_decode_indices(spec_encode_indices(m)) == Some(m),
{
    let fs = indices_fields(m);
    lemma_indices_tags_ok(m);
    lemma_decode_fields(indices_applier(), default_indices(), fs);
    lemma_indices_part_lengths(m);
    lemma_indices_step_indices(m);
    assert(SpecIndices { indices: m.indices } =~= m);
}

/// A last-writer-wins value, such as a username, and when it was written.
#[derive(Clone, Debug, PartialEq, Eq, Default)]
pub struct LwwElement {
    pub value: Vec<u8>,
    pub unix_milliseconds: u64,
}

/// The value of a [`LwwElement`].
#[verifier::ext_equal]
pub struct SpecLwwElement {
    pub value: Seq<u8>,
    pub unix_milliseconds: u64,
}

impl View for LwwElement {
    type V = SpecLwwElement;

    open spec fn view(&self) -> SpecLwwElement {
        SpecLwwElement {
            value: self.value@,
            unix_milliseconds: self.unix_milliseconds,
        }
    }
}

/// The value that decoding starts from: every field at its default.
pub open spec fn default_lww_element() -> SpecLwwElement {
    SpecLwwElement { value: seq![], unix_milliseconds: 0 }
}

/// The fields that a [`LwwElement`] is written as, in field-number order; fields
/// at their default are left out.
pub open spec fn lww_element_fields(m: SpecLwwElement) -> Seq<WireField> {
    bytes_field(1, m.value)
        + uint_field(2, m.unix_milliseconds)
}

/// The encoding of a [`LwwElement`].
pub open spec fn spec_encode_lww_element(m: SpecLwwElement) -> Seq<u8> {
    spec_encode_fields(lww_element_fields(m))
}

/// Merges one field into a [`LwwElement`]: a known field number must come with
/// its wire type; fields with other numbers are skipped.
pub open spec fn apply_lww_element(m: SpecLwwElement, f: WireField) -> Option<SpecLwwElement> {
    if f.tag == 1 {
        match field_bytes(f) { Some(b) => Some(SpecLwwElement { value: b, unix_milliseconds: m.unix_milliseconds }), None => None }
    } else if f.tag == 2 {
        match field_varint(f) { Some(v) => Some(SpecLwwElement { value: m.value, unix_milliseconds: v }), None => None }
    } else {
        Some(m)
    }
}

pub open spec fn lww_element_applier() -> spec_fn(SpecLwwElement, WireField) -> Option<SpecLwwElement> {
    |m: SpecLwwElement, f: WireField| apply_lww_element(m, f)
}

/// Merges the fields of `b` into `m`.
pub open spec fn spec_merge_lww_element(m: SpecLwwElement, b: Seq<u8>) -> Option<SpecLwwElement> {
    spec_merge_with(lww_element_applier(), m, b)
}

/// Decodes a [`LwwElement`]: the fields of `b` merged into the default.
pub open spec fn spec_decode_lww_element(b: Seq<u8>) -> Option<SpecLwwElement> {
    spec_merge_lww_element(default_lww_element(), b)
}

/// The values of a list of [`LwwElement`]s.
pub open spec fn view_lww_elements(v: Seq<LwwElement>) -> Seq<SpecLwwElement> {
    v.map_values(|x: LwwElement| x@)
}

/// The encodings of a list of [`LwwElement`] values.
pub open spec fn encode_lww_elements(v: Seq<SpecLwwElement>) -> Seq<Seq<u8>> {
    v.map_values(|x: SpecLwwElement| spec_encode_lww_element(x))
}

impl LwwElement {
    /// A value with every field at its default.
    pub fn new_default() -> (r: Self)
        ensures
            r@ == default_lww_element(),
    {
        let r = LwwElement { value: Vec::new(), unix_milliseconds: 0 };
        assert(r@ =~= default_lww_element());
        r
    }

    /// A copy.
    pub fn duplicate(&self) -> (r: Self)
        ensures
            r@ == self@,
    {
        let r = LwwElement {
            value: vstd::slice::slice_to_vec(self.value.as_slice()),
            unix_milliseconds: self.unix_milliseconds,
        };
        assert(r@ =~= self@);
        r
    }

    /// The protocol encoding.
    pub fn encode(&self) -> (r: Vec<u8>)
        ensures
            r@ == spec_encode_lww_element(self@),
    {
        broadcast use group_field_lists;

        let mut out: Vec<u8> = Vec::new();
        put_bytes(1, self.value.as_slice(), &mut out);
        put_uint(2, self.unix_milliseconds, &mut out);
        assert(out@ =~= spec_encode_lww_element(self@));
        out
    }

    fn apply_field(&mut self, buf: &[u8], f: &RawField) -> (ok: bool)
        requires
            raw_field_within(*f, buf@.len()),
        ensures
            match apply_lww_element(old(self)@, raw_field_view(*f, buf@)) {
                Some(m) => ok && final(self)@ == m,
                None => !ok,
            },
    {
        if f.tag == 1 {
            match raw_bytes(buf, f) { Some(b) => { self.value = b; true }, None => false }
        } else if f.tag == 2 {
            match raw_varint(f) { Some(v) => { self.unix_milliseconds = v; true }, None => false }
        } else {
            true
        }
    }

    /// Merges the fields of `buf[start..end]` into `self`; `false` where the
    /// bytes are not a valid encoding (`self` is then left in no stated state).
    pub fn merge(&mut self, buf: &[u8], start: usize, end: usize) -> (ok: bool)
        requires
            start <= end <= buf@.len(),
        ensures
            match spec_merge_lww_element(old(self)@, buf@.subrange(start as int, end as int)) {
                Some(m) => ok && final(self)@ == m,
                None => !ok,
            },
    {
        let mut pos = start;
        while pos < end
            invariant
                start <= pos <= end <= buf@.len(),
                spec_merge_lww_element(old(self)@, buf@.subrange(start as int, end as int)) == spec_merge_lww_element(
                    self@,
                    buf@.subrange(pos as int, end as int),
                ),
            decreases end - pos,
        {
            match read_field(buf, pos, end) {
                Some((f, next)) => {
                    proof {
                        lemma_merge_step(
                            lww_element_applier(),
                            self@,
                            buf@,
                            pos as nat,
                            next as nat,
                            end as nat,
                            raw_field_view(f, buf@),
                        );
                    }
                    if !self.apply_field(buf, &f) {
                        return false;
                    }
                    pos = next;
                },
                None => {
                    proof {
                        lemma_merge_bad_field(lww_element_applier(), self@, buf@, pos as nat, end as nat);
                    }
                    return false;
                },
            }
        }
        proof {
            lemma_merge_empty(lww_element_applier(), self@, buf@, pos as nat);
        }
        true
    }

    /// Decodes a [`LwwElement`] from its protocol encoding; `None` where the bytes
    /// are not one.
    pub fn decode(buf: &[u8]) -> (r: Option<Self>)
        ensures
            match spec_decode_lww_element(buf@) {
                Some(m) => r matches Some(x) && x@ == m,
                None => r is None,
            },
    {
        let mut m = LwwElement::new_default();
        assert(buf@.subrange(0, buf@.len() as int) =~= buf@);
        if m.merge(buf, 0, buf.len()) {
            Some(m)
        } else {
            None
        }
    }
}

proof fn lemma_lww_element_tags_ok(m: SpecLwwElement)
    ensures
        fields_tags_ok(lww_element_fields(m)),
{
    lemma_tags_ok_bytes(1, m.value);
    lemma_tags_ok_uint(2, m.unix_milliseconds);
    lemma_tags_ok_concat(bytes_field(1, m.value), uint_field(2, m.unix_milliseconds));
}

proof fn lemma_lww_element_part_lengths(m: SpecLwwElement)
    ensures
        spec_encode_fields(bytes_field(1, m.value)).len() <= spec_encode_fields(lww_element_fields(m)).len(),
        spec_encode_fields(uint_field(2, m.unix_milliseconds)).len() <= spec_encode_fields(lww_element_fields(m)).len(),
{
    broadcast use group_field_lists;

}

proof fn lemma_lww_element_step_value(m: SpecLwwElement)
    requires
        spec_encode_fields(bytes_field(1, m.value)).len() < 0x1_0000_0000_0000_0000,
    ensures
        spec_apply_all(lww_element_applier(), SpecLwwElement { value: seq![], unix_milliseconds: 0 }, bytes_field(1, m.value)) == Some(SpecLwwElement { value: m.value, unix_milliseconds: 0 }),
{
    let d = SpecLwwElement { value: seq![], unix_milliseconds: 0 };
    lemma_apply_bytes_field(lww_element_applier(), d, 1, m.value);
    if m.value.len() == 0 {
        assert(m.value =~= Seq::<u8>::empty());
    }
}

proof fn lemma_lww_element_step_unix_milliseconds(m: SpecLwwElement)
    requires
        spec_encode_fields(uint_field(2, m.unix_milliseconds)).len() < 0x1_0000_0000_0000_0000,
    ensures
        spec_apply_all(lww_element_applier(), SpecLwwElement { value: m.value, unix_milliseconds: 0 }, uint_field(2, m.unix_milliseconds)) == Some(SpecLwwElement { value: m.value, unix_milliseconds: m.unix_milliseconds }),
{
    let d = SpecLwwElement { value: m.value, unix_milliseconds: 0 };
    lemma_apply_uint_field(lww_element_applier(), d, 2, m.unix_milliseconds);
}

/// Decoding the encoding of a [`LwwElement`] gives back the value (for every value
/// whose encoding fits a 64-bit length).
pub proof fn lemma_lww_element_round_trip(m: SpecLwwElement)
    requires
        spec_encode_lww_element(m).len() < 0x1_0000_0000_0000_0000,
    ensures
        spec_decode_lww_element(spec_encode_lww_element(m)) == Some(m),
{
    let fs = lww_element_fields(m);
    lemma_lww_element_tags_ok(m);
    lemma_decode_fields(lww_element_applier(), default_lww_element(), fs);
    lemma_lww_element_part_lengths(m);
    lemma_lww_element_step_value(m);
    lemma_lww_element_step_unix_milliseconds(m);
    lemma_apply_concat(lww_element_applier(), default_lww_element(), bytes_field(1, m.value), uint_field(2, m.unix_milliseconds));
    assert(SpecLwwElement { value: m.value, unix_milliseconds: m.unix_milliseconds } =~= m);
}

/// A change to a last-writer-wins set: the operation (0 adds, 1 removes), the value and when.
#[derive(Clone, Debug, PartialEq, Eq, Default)]
pub struct LwwElementSet {
    /// 0 adds the value, 1 removes it.
    pub operation: i32,
    pub value: Vec<u8>,
    pub unix_milliseconds: u64,
}

/// The value of a [`LwwElementSet`].
#[verifier::ext_equal]
pub struct SpecLwwElementSet {
    pub operation: i32,
    pub value: Seq<u8>,
    pub unix_milliseconds: u64,
}

impl View for LwwElementSet {
    type V = SpecLwwElementSet;

    open spec fn view(&self) -> SpecLwwElementSet {
        SpecLwwElementSet {
            operation: self.operation,
            value: self.value@,
            unix_milliseconds: self.unix_milliseconds,
        }
    }
}

/// The value that decoding starts from: every field at its default.
pub open spec fn default_lww_element_set() -> SpecLwwElementSet {
    SpecLwwElementSet { operation: 0, value: seq![], unix_milliseconds: 0 }
}

/// The fields that a [`LwwElementSet`] is written as, in field-number order; fields
/// at their default are left out.
pub open spec fn lww_element_set_fields(m: SpecLwwElementSet) -> Seq<WireField> {
    uint_field(1, m.operation as u64)
        + bytes_field(2, m.value)
        + uint_field(3, m.unix_milliseconds)
}

/// The encoding of a [`LwwElementSet`].
pub open spec fn spec_encode_lww_element_set(m: SpecLwwElementSet) -> Seq<u8> {
    spec_encode_fields(lww_element_set_fields(m))
}

/// Merges one field into a [`LwwElementSet`]: a known field number must come with
/// its wire type; fields with other numbers are skipped.
pub open spec fn apply_lww_element_set(m: SpecLwwElementSet, f: WireField) -> Option<SpecLwwElementSet> {
    if f.tag == 1 {
        match field_varint(f) { Some(v) => Some(SpecLwwElementSet { operation: v as i32, value: m.value, unix_milliseconds: m.unix_milliseconds }), None => None }
    } else if f.tag == 2 {
        match field_bytes(f) { Some(b) => Some(SpecLwwElementSet { operation: m.operation, value: b, unix_milliseconds: m.unix_milliseconds }), None => None }
    } else if f.tag == 3 {
        match field_varint(f) { Some(v) => Some(SpecLwwElementSet { operation: m.operation, value: m.value, unix_milliseconds: v }), None => None }
    } else {
        Some(m)
    }
}

pub open spec fn lww_element_set_applier() -> spec_fn(SpecLwwElementSet, WireField) -> Option<SpecLwwElementSet> {
    |m: SpecLwwElementSet, f: WireField| apply_lww_element_set(m, f)
}

/// Merges the fields of `b` into `m`.
pub open spec fn spec_merge_lww_element_set(m: SpecLwwElementSet, b: Seq<u8>) -> Option<SpecLwwElementSet> {
    spec_merge_with(lww_element_set_applier(), m, b)
}

/// Decodes a [`LwwElementSet`]: the fields of `b` merged into the default.
pub open spec fn spec_decode_lww_element_set(b: Seq<u8>) -> Option<SpecLwwElementSet> {
    spec_merge_lww_element_set(default_lww_element_set(), b)
}

/// The values of a list of [`LwwElementSet`]s.
pub open spec fn view_lww_element_sets(v: Seq<LwwElementSet>) -> Seq<SpecLwwElementSet> {
    v.map_values(|x: LwwElementSet| x@)
}

/// The encodings of a list of [`LwwElementSet`] values.
pub open spec fn encode_lww_element_sets(v: Seq<SpecLwwElementSet>) -> Seq<Seq<u8>> {
    v.map_values(|x: SpecLwwElementSet| spec_encode_lww_element_set(x))
}

impl LwwElementSet {
    /// A value with every field at its default.
    pub fn new_default() -> (r: Self)
        ensures
            r@ == default_lww_element_set(),
    {
        let r = LwwElementSet { operation: 0, value: Vec::new(), unix_milliseconds: 0 };
        assert(r@ =~= default_lww_element_set());
        r
    }

    /// A copy.
    pub fn duplicate(&self) -> (r: Self)
        ensures
            r@ == self@,
    {
        let r = LwwElementSet {
            operation: self.operation,
            value: vstd::slice::slice_to_vec(self.value.as_slice()),
            unix_milliseconds: self.unix_milliseconds,
        };
        assert(r@ =~= self@);
        r
    }

    /// The protocol encoding.
    pub fn encode(&self) -> (r: Vec<u8>)
        ensures
            r@ == spec_encode_lww_element_set(self@),
    {
        broadcast use group_field_lists;

        let mut out: Vec<u8> = Vec::new();
        put_uint(1, self.operation as u64, &mut out);
        put_bytes(2, self.value.as_slice(), &mut out);
        put_uint(3, self.unix_milliseconds, &mut out);
        assert(out@ =~= spec_encode_lww_element_set(self@));
        out
    }

    fn apply_field(&mut self, buf: &[u8], f: &RawField) -> (ok: bool)
        requires
            raw_field_within(*f, buf@.len()),
        ensures
            match apply_lww_element_set(old(self)@, raw_field_view(*f, buf@)) {
                Some(m) => ok && final(self)@ == m,
                None => !ok,
            },
    {
        if f.tag == 1 {
            match raw_varint(f) { Some(v) => { self.operation = v as i32; true }, None => false }
        } else if f.tag == 2 {
            match raw_bytes(buf, f) { Some(b) => { self.value = b; true }, None => false }
        } else if f.tag == 3 {
            match raw_varint(f) { Some(v) => { self.unix_milliseconds = v; true }, None => false }
        } else {
            true
        }
    }

    /// Merges the fields of `buf[start..end]` into `self`; `false` where the
    /// bytes are not a valid encoding (`self` is then left in no stated state).
    pub fn merge(&mut self, buf: &[u8], start: usize, end: usize) -> (ok: bool)
        requires
            start <= end <= buf@.len(),
        ensures
            match spec_merge_lww_element_set(old(self)@, buf@.subrange(start as int, end as int)) {
                Some(m) => ok && final(self)@ == m,
                None => !ok,
            },
    {
        let mut pos = start;
        while pos < end
            invariant
                start <= pos <= end <= buf@.len(),
                spec_merge_lww_element_set(old(self)@, buf@.subrange(start as int, end as int)) == spec_merge_lww_element_set(
                    self@,
                    buf@.subrange(pos as int, end as int),
                ),
            decreases end - pos,
        {
            match read_field(buf, pos, end) {
                Some((f, next)) => {
                    proof {
                        lemma_merge_step(
                            lww_element_set_applier(),
                            self@,
                            buf@,
                            pos as nat,
                            next as nat,
                            end as nat,
                            raw_field_view(f, buf@),
                        );
                    }
                    if !self.apply_field(buf, &f) {
                        return false;
                    }
                    pos = next;
                },
                None => {
                    proof {
                        lemma_merge_bad_field(lww_element_set_applier(), self@, buf@, pos as nat, end as nat);
                    }
                    return false;
                },
            }
        }
        proof {
            lemma_merge_empty(lww_element_set_applier(), self@, buf@, pos as nat);
        }
        true
    }

    /// Decodes a [`LwwElementSet`] from its protocol encoding; `None` where the bytes
    /// are not one.
    pub fn decode(buf: &[u8]) -> (r: Option<Self>)
        ensures
            match spec_decode_lww_element_set(buf@) {
                Some(m) => r matches Some(x) && x@ == m,
                None => r is None,
            },
    {
        let mut m = LwwElementSet::new_default();
        assert(buf@.subrange(0, buf@.len() as int) =~= buf@);
        if m.merge(buf, 0, buf.len()) {
            Some(m)
        } else {
            None
        }
    }
}

proof fn lemma_lww_element_set_tags_ok(m: SpecLwwElementSet)
    ensures
        fields_tags_ok(lww_element_set_fields(m)),
{
    lemma_tags_ok_uint(1, m.operation as u64);
    lemma_tags_ok_bytes(2, m.value);
    lemma_tags_ok_uint(3, m.unix_milliseconds);
    lemma_tags_ok_concat(uint_field(1, m.operation as u64), bytes_field(2, m.value));
    lemma_tags_ok_concat(uint_field(1, m.operation as u64) + bytes_field(2, m.value), uint_field(3, m.unix_milliseconds));
}

proof fn lemma_lww_element_set_part_lengths(m: SpecLwwElementSet)
    ensures
        spec_encode_fields(uint_field(1, m.operation as u64)).len() <= spec_encode_fields(lww_element_set_fields(m)).len(),
        spec_encode_fields(bytes_field(2, m.value)).len() <= spec_encode_fields(lww_element_set_fields(m)).len(),
        spec_encode_fields(uint_field(3, m.unix_milliseconds)).len() <= spec_encode_fields(lww_element_set_fields(m)).len(),
{
    broadcast use group_field_lists;

}

proof fn lemma_lww_element_set_step_operation(m: SpecLwwElementSet)
    requires
        spec_encode_fields(uint_field(1, m.operation as u64)).len() < 0x1_0000_0000_0000_0000,
    ensures
        spec_apply_all(lww_element_set_applier(), SpecLwwElementSet { operation: 0, value: seq![], unix_milliseconds: 0 }, uint_field(1, m.operation as u64)) == Some(SpecLwwElementSet { operation: m.operation, value: seq![], unix_milliseconds: 0 }),
{
    let d = SpecLwwElementSet { operation: 0, value: seq![], unix_milliseconds: 0 };
    lemma_apply_uint_field(lww_element_set_applier(), d, 1, m.operation as u64);
    let x = m.operation;
    assert(((x as u64) as i32) == x) by (bit_vector);
}

proof fn lemma_lww_element_set_step_value(m: SpecLwwElementSet)
    requires
        spec_encode_fields(bytes_field(2, m.value)).len() < 0x1_0000_0000_0000_0000,
    ensures
        spec_apply_all(lww_element_set_applier(), SpecLwwElementSet { operation: m.operation, value: seq![], unix_milliseconds: 0 }, bytes_field(2, m.value)) == Some(SpecLwwElementSet { operation: m.operation, value: m.value, unix_milliseconds: 0 }),
{
    let d = SpecLwwElementSet { operation: m.operation, value: seq![], unix_milliseconds: 0 };
    lemma_apply_bytes_field(lww_element_set_applier(), d, 2, m.value);
    if m.value.len() == 0 {
        assert(m.value =~= Seq::<u8>::empty());
    }
}

proof fn lemma_lww_element_set_step_unix_milliseconds(m: SpecLwwElementSet)
    requires
        spec_encode_fields(uint_field(3, m.unix_milliseconds)).len() < 0x1_0000_0000_0000_0000,
    ensures
        spec_apply_all(lww_element_set_applier(), SpecLwwElementSet { operation: m.operation, value: m.value, unix_milliseconds: 0 }, uint_field(3, m.unix_milliseconds)) == Some(SpecLwwElementSet { operation: m.operation, value: m.value, unix_milliseconds: m.unix_milliseconds }),
{
    let d = SpecLwwElementSet { operation: m.operation, value: m.value, unix_milliseconds: 0 };
    lemma_apply_uint_field(lww_element_set_applier(), d, 3, m.unix_milliseconds);
}

/// Decoding the encoding of a [`LwwElementSet`] gives back the value (for every value
/// whose encoding fits a 64-bit length).
pub proof fn lemma_lww_element_set_round_trip(m: SpecLwwElementSet)
    requires
        spec_encode_lww_element_set(m).len() < 0x1_0000_0000_0000_0000,
    ensures
        spec_decode_lww_element_set(spec_encode_lww_element_set(m)) == Some(m),
{
    let fs = lww_element_set_fields(m);
    lemma_lww_element_set_tags_ok(m);
    lemma_decode_fields(lww_element_set_applier(), default_lww_element_set(), fs);
    lemma_lww_element_set_part_lengths(m);
    lemma_lww_element_set_step_operation(m);
    lemma_lww_element_set_step_value(m);
    lemma_lww_element_set_step_unix_milliseconds(m);
    lemma_apply_concat(lww_element_set_applier(), default_lww_element_set(), uint_field(1, m.operation as u64), bytes_field(2, m.value));
    lemma_apply_concat(lww_element_set_applier(), default_lww_element_set(), uint_field(1, m.operation as u64) + bytes_field(2, m.value), uint_field(3, m.unix_milliseconds));
    assert(SpecLwwElementSet { operation: m.operation, value: m.value, unix_milliseconds: m.unix_milliseconds } =~= m);
}

/// An event of a system: who wrote it, where it stands in its process, and its content.
#[derive(Clone, Debug, PartialEq, Eq, Default)]
pub struct Event {
    pub system: Option<PublicKey>,
    pub process: Option<Process>,
    pub logical_clock: u64,
    /// What `content` holds: 3 a post, 5 a username, and so on.
    pub content_type: u64,
    pub content: Vec<u8>,
    pub vector_clock: Option<VectorClock>,
    pub indices: Option<Indices>,
    pub lww_element_set: Option<LwwElementSet>,
    pub lww_element: Option<LwwElement>,
    pub references: Vec<Reference>,
    pub unix_milliseconds: Option<u64>,
}

/// The value of an [`Event`].
#[verifier::ext_equal]
pub struct SpecEvent {
    pub system: Option<SpecPublicKey>,
    pub process: Option<SpecProcess>,
    pub logical_clock: u64,
    pub content_type: u64,
    pub content: Seq<u8>,
    pub vector_clock: Option<SpecVectorClock>,
    pub indices: Option<SpecIndices>,
    pub lww_element_set: Option<SpecLwwElementSet>,
    pub lww_element: Option<SpecLwwElement>,
    pub references: Seq<SpecReference>,
    pub unix_milliseconds: Option<u64>,
}

impl View for Event {
    type V = SpecEvent;

    open spec fn view(&self) -> SpecEvent {
        SpecEvent {
            system: match self.system { Some(v) => Some(v@), None => None },
            process: match self.process { Some(v) => Some(v@), None => None },
            logical_clock: self.logical_clock,
            content_type: self.content_type,
            content: self.content@,
            vector_clock: match self.vector_clock { Some(v) => Some(v@), None => None },
            indices: match self.indices { Some(v) => Some(v@), None => None },
            lww_element_set: match self.lww_element_set { Some(v) => Some(v@), None => None },
            lww_element: match self.lww_element { Some(v) => Some(v@), None => None },
            references: view_references(self.references@),
            unix_milliseconds: self.unix_milliseconds,
        }
    }
}

/// The value that decoding starts from: every field at its default.
pub open spec fn default_event() -> SpecEvent {
    SpecEvent { system: None, process: None, logical_clock: 0, content_type: 0, content: seq![], vector_clock: None, indices: None, lww_element_set: None, lww_element: None, references: seq![], unix_milliseconds: None }
}

/// The fields that an [`Event`] is written as, in field-number order; fields
/// at their default are left out.
pub open spec fn event_fields(m: SpecEvent) -> Seq<WireField> {
    opt_bytes_field(1, match m.system { Some(v) => Some(spec_encode_public_key(v)), None => None })
        + opt_bytes_field(2, match m.process { Some(v) => Some(spec_encode_process(v)), None => None })
        + uint_field(3, m.logical_clock)
        + uint_field(4, m.content_type)
        + bytes_field(5, m.content)
        + opt_bytes_field(6, match m.vector_clock { Some(v) => Some(spec_encode_vector_clock(v)), None => None })
        + opt_bytes_field(7, match m.indices { Some(v) => Some(spec_encode_indices(v)), None => None })
        + opt_bytes_field(8, match m.lww_element_set { Some(v) => Some(spec_encode_lww_element_set(v)), None => None })
        + opt_bytes_field(9, match m.lww_element { Some(v) => Some(spec_encode_lww_element(v)), None => None })
        + repeated_bytes_fields(10, encode_references(m.references))
        + opt_uint_field(11, m.unix_milliseconds)
}

/// The encoding of an [`Event`].
pub open spec fn spec_encode_event(m: SpecEvent) -> Seq<u8> {
    spec_encode_fields(event_fields(m))
}

/// Merges one field into an [`Event`]: a known field number must come with
/// its wire type; fields with other numbers are skipped.
pub open spec fn apply_event(m: SpecEvent, f: WireField) -> Option<SpecEvent> {
    if f.tag == 1 {
        match field_bytes(f) { Some(b) => match spec_merge_public_key(match m.system { Some(v) => v, None => default_public_key() }, b) { Some(v) => Some(SpecEvent { system: Some(v), process: m.process, logical_clock: m.logical_clock, content_type: m.content_type, content: m.content, vector_clock: m.vector_clock, indices: m.indices, lww_element_set: m.lww_element_set, lww_element: m.lww_element, references: m.references, unix_milliseconds: m.unix_milliseconds }), None => None }, None => None }
    } else if f.tag == 2 {
        match field_bytes(f) { Some(b) => match spec_merge_process(match m.process { Some(v) => v, None => default_process() }, b) { Some(v) => Some(SpecEvent { system: m.system, process: Some(v), logical_clock: m.logical_clock, content_type: m.content_type, content: m.content, vector_clock: m.vector_clock, indices: m.indices, lww_element_set: m.lww_element_set, lww_element: m.lww_element, references: m.references, unix_milliseconds: m.unix_milliseconds }), None => None }, None => None }
    } else if f.tag == 3 {
        match field_varint(f) { Some(v) => Some(SpecEvent { system: m.system, process: m.process, logical_clock: v, content_type: m.content_type, content: m.content, vector_clock: m.vector_clock, indices: m.indices, lww_element_set: m.lww_element_set, lww_element: m.lww_element, references: m.references, unix_milliseconds: m.unix_milliseconds }), None => None }
    } else if f.tag == 4 {
        match field_varint(f) { Some(v) => Some(SpecEvent { system: m.system, process: m.process, logical_clock: m.logical_clock, content_type: v, content: m.content, vector_clock: m.vector_clock, indices: m.indices, lww_element_set: m.lww_element_set, lww_element: m.lww_element, references: m.references, unix_milliseconds: m.unix_milliseconds }), None => None }
    } else if f.tag == 5 {
        match field_bytes(f) { Some(b) => Some(SpecEvent { system: m.system, process: m.process, logical_clock: m.logical_clock, content_type: m.content_type, content: b, vector_clock: m.vector_clock, indices: m.indices, lww_element_set: m.lww_element_set, lww_element: m.lww_element, references: m.references, unix_milliseconds: m.unix_milliseconds }), None => None }
    } else if f.tag == 6 {
        match field_bytes(f) { Some(b) => match spec_merge_vector_clock(match m.vector_clock { Some(v) => v, None => default_vector_clock() }, b) { Some(v) => Some(SpecEvent { system: m.system, process: m.process, logical_clock: m.logical_clock, content_type: m.content_type, content: m.content, vector_clock: Some(v), indices: m.indices, lww_element_set: m.lww_element_set, lww_element: m.lww_element, references: m.references, unix_milliseconds: m.unix_milliseconds }), None => None }, None => None }
    } else if f.tag == 7 {
        match field_bytes(f) { Some(b) => match spec_merge_indices(match m.indices { Some(v) => v, None => default_indices() }, b) { Some(v) => Some(SpecEvent { system: m.system, process: m.process, logical_clock: m.logical_clock, content_type: m.content_type, content: m.content, vector_clock: m.vector_clock, indices: Some(v), lww_element_set: m.lww_element_set, lww_element: m.lww_element, references: m.references, unix_milliseconds: m.unix_milliseconds }), None => None }, None => None }
    } else if f.tag == 8 {
        match field_bytes(f) { Some(b) => match spec_merge_lww_element_set(match m.lww_element_set { Some(v) => v, None => default_lww_element_set() }, b) { Some(v) => Some(SpecEvent { system: m.system, process: m.process, logical_clock: m.logical_clock, content_type: m.content_type, content: m.content, vector_clock: m.vector_clock, indices: m.indices, lww_element_set: Some(v), lww_element: m.lww_element, references: m.references, unix_milliseconds: m.unix_milliseconds }), None => None }, None => None }
    } else if f.tag == 9 {
        match field_bytes(f) { Some(b) => match spec_merge_lww_element(match m.lww_element { Some(v) => v, None => default_lww_element() }, b) { Some(v) => Some(SpecEvent { system: m.system, process: m.process, logical_clock: m.logical_clock, content_type: m.content_type, content: m.content, vector_clock: m.vector_clock, indices: m.indices, lww_element_set: m.lww_element_set, lww_element: Some(v), references: m.references, unix_milliseconds: m.unix_milliseconds }), None => None }, None => None }
    } else if f.tag == 10 {
        match field_bytes(f) { Some(b) => match spec_decode_reference(b) { Some(v) => Some(SpecEvent { system: m.system, process: m.process, logical_clock: m.logical_clock, content_type: m.content_type, content: m.content, vector_clock: m.vector_clock, indices: m.indices, lww_element_set: m.lww_element_set, lww_element: m.lww_element, references: m.references.push(v), unix_milliseconds: m.unix_milliseconds }), None => None }, None => None }
    } else if f.tag == 11 {
        match field_varint(f) { Some(v) => Some(SpecEvent { system: m.system, process: m.process, logical_clock: m.logical_clock, content_type: m.content_type, content: m.content, vector_clock: m.vector_clock, indices: m.indices, lww_element_set: m.lww_element_set, lww_element: m.lww_element, references: m.references, unix_milliseconds: Some(v) }), None => None }
    } else {
        Some(m)
    }
}

pub open spec fn event_applier() -> spec_fn(SpecEvent, WireField) -> Option<SpecEvent> {
    |m: SpecEvent, f: WireField| apply_event(m, f)
}

/// Merges the fields of `b` into `m`.
pub open spec fn spec_merge_event(m: SpecEvent, b: Seq<u8>) -> Option<SpecEvent> {
    spec_merge_with(event_applier(), m, b)
}

/// Decodes an [`Event`]: the fields of `b` merged into the default.
pub open spec fn spec_decode_event(b: Seq<u8>) -> Option<SpecEvent> {
    spec_merge_event(default_event(), b)
}

/// The values of a list of [`Event`]s.
pub open spec fn view_events(v: Seq<Event>) -> Seq<SpecEvent> {
    v.map_values(|x: Event| x@)
}

/// The encodings of a list of [`Event`] values.
pub open spec fn encode_events(v: Seq<SpecEvent>) -> Seq<Seq<u8>> {
    v.map_values(|x: SpecEvent| spec_encode_event(x))
}

impl Event {
    /// A value with every field at its default.
    pub fn new_default() -> (r: Self)
        ensures
            r@ == default_event(),
    {
        let r = Event { system: None, process: None, logical_clock: 0, content_type: 0, content: Vec::new(), vector_clock: None, indices: None, lww_element_set: None, lww_element: None, references: Vec::new(), unix_milliseconds: None };
        assert(r@ =~= default_event());
        r
    }

    /// A copy.
    pub fn duplicate(&self) -> (r: Self)
        ensures
            r@ == self@,
    {
        let r = Event {
            system: match &self.system { Some(v) => Some(v.duplicate()), None => None },
            process: match &self.process { Some(v) => Some(v.duplicate()), None => None },
            logical_clock: self.logical_clock,
            content_type: self.content_type,
            content: vstd::slice::slice_to_vec(self.content.as_slice()),
            vector_clock: match &self.vector_clock { Some(v) => Some(v.duplicate()), None => None },
            indices: match &self.indices { Some(v) => Some(v.duplicate()), None => None },
            lww_element_set: match &self.lww_element_set { Some(v) => Some(v.duplicate()), None => None },
            lww_element: match &self.lww_element { Some(v) => Some(v.duplicate()), None => None },
            references: duplicate_references(&self.references),
            unix_milliseconds: self.unix_milliseconds,
        };
        assert(r@ =~= self@);
        r
    }

    /// The protocol encoding.
    pub fn encode(&self) -> (r: Vec<u8>)
        ensures
            r@ == spec_encode_event(self@),
    {
        broadcast use group_field_lists;

        let mut out: Vec<u8> = Vec::new();
        match &self.system {
            Some(v) => {
                let e = v.encode();
                put_bytes_always(1, e.as_slice(), &mut out);
            },
            None => {},
        }
        match &self.process {
            Some(v) => {
                let e = v.encode();
                put_bytes_always(2, e.as_slice(), &mut out);
            },
            None => {},
        }
        put_uint(3, self.logical_clock, &mut out);
        put_uint(4, self.content_type, &mut out);
        put_bytes(5, self.content.as_slice(), &mut out);
        match &self.vector_clock {
            Some(v) => {
                let e = v.encode();
                put_bytes_always(6, e.as_slice(), &mut out);
            },
            None => {},
        }
        match &self.indices {
            Some(v) => {
                let e = v.encode();
                put_bytes_always(7, e.as_slice(), &mut out);
            },
            None => {},
        }
        match &self.lww_element_set {
            Some(v) => {
                let e = v.encode();
                put_bytes_always(8, e.as_slice(), &mut out);
            },
            None => {},
        }
        match &self.lww_element {
            Some(v) => {
                let e = v.encode();
                put_bytes_always(9, e.as_slice(), &mut out);
            },
            None => {},
        }
        put_references(10, &self.references, &mut out);
        put_opt_uint(11, self.unix_milliseconds, &mut out);
        assert(out@ =~= spec_encode_event(self@));
        out
    }

    fn apply_field(&mut self, buf: &[u8], f: &RawField) -> (ok: bool)
        requires
            raw_field_within(*f, buf@.len()),
        ensures
            match apply_event(old(self)@, raw_field_view(*f, buf@)) {
                Some(m) => ok && final(self)@ == m,
                None => !ok,
            },
    {
        if f.tag == 1 {
            match f.value {
                RawValue::Bytes(s, e) => {
                    let mut sub = match &self.system {
                        Some(v) => v.duplicate(),
                        None => PublicKey::new_default(),
                    };
                    if sub.merge(buf, s, e) {
                        self.system = Some(sub);
                        true
                    } else {
                        false
                    }
                },
                _ => false,
            }
        } else if f.tag == 2 {
            match f.value {
                RawValue::Bytes(s, e) => {
                    let mut sub = match &self.process {
                        Some(v) => v.duplicate(),
                        None => Process::new_default(),
                    };
                    if sub.merge(buf, s, e) {
                        self.process = Some(sub);
                        true
                    } else {
                        false
                    }
                },
                _ => false,
            }
        } else if f.tag == 3 {
            match raw_varint(f) { Some(v) => { self.logical_clock = v; true }, None => false }
        } else if f.tag == 4 {
            match raw_varint(f) { Some(v) => { self.content_type = v; true }, None => false }
        } else if f.tag == 5 {
            match raw_bytes(buf, f) { Some(b) => { self.content = b; true }, None => false }
        } else if f.tag == 6 {
            match f.value {
                RawValue::Bytes(s, e) => {
                    let mut sub = match &self.vector_clock {
                        Some(v) => v.duplicate(),
                        None => VectorClock::new_default(),
                    };
                    if sub.merge(buf, s, e) {
                        self.vector_clock = Some(sub);
                        true
                    } else {
                        false
                    }
                },
                _ => false,
            }
        } else if f.tag == 7 {
            match f.value {
                RawValue::Bytes(s, e) => {
                    let mut sub = match &self.indices {
                        Some(v) => v.duplicate(),
                        None => Indices::new_default(),
                    };
                    if sub.merge(buf, s, e) {
                        self.indices = Some(sub);
                        true
                    } else {
                        false
                    }
                },
                _ => false,
            }
        } else if f.tag == 8 {
            match f.value {
                RawValue::Bytes(s, e) => {
                    let mut sub = match &self.lww_element_set {
                        Some(v) => v.duplicate(),
                        None => LwwElementSet::new_default(),
                    };
                    if sub.merge(buf, s, e) {
                        self.lww_element_set = Some(sub);
                        true
                    } else {
                        false
                    }
                },
                _ => false,
            }
        } else if f.tag == 9 {
            match f.value {
                RawValue::Bytes(s, e) => {
                    let mut sub = match &self.lww_element {
                        Some(v) => v.duplicate(),
                        None => LwwElement::new_default(),
                    };
                    if sub.merge(buf, s, e) {
                        self.lww_element = Some(sub);
                        true
                    } else {
                        false
                    }
                },
                _ => false,
            }
        } else if f.tag == 10 {
            match f.value {
                RawValue::Bytes(s, e) => {
                    let mut sub = Reference::new_default();
                    if sub.merge(buf, s, e) {
                        let ghost before = self.references@;
                        self.references.push(sub);
                        assert(view_references(self.references@) =~= view_references(before).push(sub@));
                        true
                    } else {
                        false
                    }
                },
                _ => false,
            }
        } else if f.tag == 11 {
            match raw_varint(f) { Some(v) => { self.unix_milliseconds = Some(v); true }, None => false }
        } else {
            true
        }
    }

    /// Merges the fields of `buf[start..end]` into `self`; `false` where the
    /// bytes are not a valid encoding (`self` is then left in no stated state).
    pub fn merge(&mut self, buf: &[u8], start: usize, end: usize) -> (ok: bool)
        requires
            start <= end <= buf@.len(),
        ensures
            match spec_merge_event(old(self)@, buf@.subrange(start as int, end as int)) {
                Some(m) => ok && final(self)@ == m,
                None => !ok,
            },
    {
        let mut pos = start;
        while pos < end
            invariant
                start <= pos <= end <= buf@.len(),
                spec_merge_event(old(self)@, buf@.subrange(start as int, end as int)) == spec_merge_event(
                    self@,
                    buf@.subrange(pos as int, end as int),
                ),
            decreases end - pos,
        {
            match read_field(buf, pos, end) {
                Some((f, next)) => {
                    proof {
                        lemma_merge_step(
                            event_applier(),
                            self@,
                            buf@,
                            pos as nat,
                            next as nat,
                            end as nat,
                            raw_field_view(f, buf@),
                        );
                    }
                    if !self.apply_field(buf, &f) {
                        return false;
                    }
                    pos = next;
                },
                None => {
                    proof {
                        lemma_merge_bad_field(event_applier(), self@, buf@, pos as nat, end as nat);
                    }
                    return false;
                },
            }
        }
        proof {
            lemma_merge_empty(event_applier(), self@, buf@, pos as nat);
        }
        true
    }

    /// Decodes an [`Event`] from its protocol encoding; `None` where the bytes
    /// are not one.
    pub fn decode(buf: &[u8]) -> (r: Option<Self>)
        ensures
            match spec_decode_event(buf@) {
                Some(m) => r matches Some(x) && x@ == m,
                None => r is None,
            },
    {
        let mut m = Event::new_default();
        assert(buf@.subrange(0, buf@.len() as int) =~= buf@);
        if m.merge(buf, 0, buf.len()) {
            Some(m)
        } else {
            None
        }
    }
}

/// Applying the fields of `items` to the `references` of `m` appends them.
proof fn lemma_event_apply_references(m: SpecEvent, items: Seq<SpecReference>)
    requires
        forall|i: int| 0 <= i < items.len() ==> (#[trigger] spec_encode_reference(items[i])).len() < 0x1_0000_0000_0000_0000,
    ensures
        spec_apply_all(event_applier(), m, repeated_bytes_fields(10, encode_references(items))) == Some(SpecEvent { system: m.system, process: m.process, logical_clock: m.logical_clock, content_type: m.content_type, content: m.content, vector_clock: m.vector_clock, indices: m.indices, lww_element_set: m.lww_element_set, lww_element: m.lww_element, references: m.references + items, unix_milliseconds: m.unix_milliseconds }),
    decreases items.len(),
{
    if items.len() == 0 {
        assert(repeated_bytes_fields(10, encode_references(items)) =~= Seq::<WireField>::empty());
        assert(m.references + items =~= m.references);
        assert(SpecEvent { system: m.system, process: m.process, logical_clock: m.logical_clock, content_type: m.content_type, content: m.content, vector_clock: m.vector_clock, indices: m.indices, lww_element_set: m.lww_element_set, lww_element: m.lww_element, references: m.references + items, unix_milliseconds: m.unix_milliseconds } =~= m);
    } else {
        lemma_repeated_split(10, encode_references(items));
        assert(encode_references(items).drop_first() =~= encode_references(items.drop_first()));
        assert(encode_references(items)[0] == spec_encode_reference(items[0]));
        lemma_reference_round_trip(items[0]);
        let m1 = SpecEvent { system: m.system, process: m.process, logical_clock: m.logical_clock, content_type: m.content_type, content: m.content, vector_clock: m.vector_clock, indices: m.indices, lww_element_set: m.lww_element_set, lww_element: m.lww_element, references: m.references.push(items[0]), unix_milliseconds: m.unix_milliseconds };
        lemma_apply_concat(event_applier(), m, seq![WireField { tag: 10, value: WireValue::Bytes(encode_references(items)[0]) }], repeated_bytes_fields(10, encode_references(items.drop_first())));
        lemma_apply_single(event_applier(), m, WireField { tag: 10, value: WireValue::Bytes(encode_references(items)[0]) });
        assert forall|i: int| 0 <= i < items.drop_first().len() implies (#[trigger] spec_encode_reference(items.drop_first()[i])).len() < 0x1_0000_0000_0000_0000 by {
            assert(items.drop_first()[i] == items[i + 1]);
        }
        lemma_event_apply_references(m1, items.drop_first());
        assert(m1.references + items.drop_first() =~= m.references + items);
    }
}

proof fn lemma_event_tags_ok(m: SpecEvent)
    ensures
        fields_tags_ok(event_fields(m)),
{
    lemma_tags_ok_opt_bytes(1, match m.system { Some(v) => Some(spec_encode_public_key(v)), None => None });
    lemma_tags_ok_opt_bytes(2, match m.process { Some(v) => Some(spec_encode_process(v)), None => None });
    lemma_tags_ok_uint(3, m.logical_clock);
    lemma_tags_ok_uint(4, m.content_type);
    lemma_tags_ok_bytes(5, m.content);
    lemma_tags_ok_opt_bytes(6, match m.vector_clock { Some(v) => Some(spec_encode_vector_clock(v)), None => None });
    lemma_tags_ok_opt_bytes(7, match m.indices { Some(v) => Some(spec_encode_indices(v)), None => None });
    lemma_tags_ok_opt_bytes(8, match m.lww_element_set { Some(v) => Some(spec_encode_lww_element_set(v)), None => None });
    lemma_tags_ok_opt_bytes(9, match m.lww_element { Some(v) => Some(spec_encode_lww_element(v)), None => None });
    lemma_tags_ok_repeated(10, encode_references(m.references));
    lemma_tags_ok_opt_uint(11, m.unix_milliseconds);
    lemma_tags_ok_concat(opt_bytes_field(1, match m.system { Some(v) => Some(spec_encode_public_key(v)), None => None }), opt_bytes_field(2, match m.process { Some(v) => Some(spec_encode_process(v)), None => None }));
    lemma_tags_ok_concat(opt_bytes_field(1, match m.system { Some(v) => Some(spec_encode_public_key(v)), None => None }) + opt_bytes_field(2, match m.process { Some(v) => Some(spec_encode_process(v)), None => None }), uint_field(3, m.logical_clock));
    lemma_tags_ok_concat(opt_bytes_field(1, match m.system { Some(v) => Some(spec_encode_public_key(v)), None => None }) + opt_bytes_field(2, match m.process { Some(v) => Some(spec_encode_process(v)), None => None }) + uint_field(3, m.logical_clock), uint_field(4, m.content_type));
    lemma_tags_ok_concat(opt_bytes_field(1, match m.system { Some(v) => Some(spec_encode_public_key(v)), None => None }) + opt_bytes_field(2, match m.process { Some(v) => Some(spec_encode_process(v)), None => None }) + uint_field(3, m.logical_clock) + uint_field(4, m.content_type), bytes_field(5, m.content));
    lemma_tags_ok_concat(opt_bytes_field(1, match m.system { Some(v) => Some(spec_encode_public_key(v)), None => None }) + opt_bytes_field(2, match m.process { Some(v) => Some(spec_encode_process(v)), None => None }) + uint_field(3, m.logical_clock) + uint_field(4, m.content_type) + bytes_field(5, m.content), opt_bytes_field(6, match m.vector_clock { Some(v) => Some(spec_encode_vector_clock(v)), None => None }));
    lemma_tags_ok_concat(opt_bytes_field(1, match m.system { Some(v) => Some(spec_encode_public_key(v)), None => None }) + opt_bytes_field(2, match m.process { Some(v) => Some(spec_encode_process(v)), None => None }) + uint_field(3, m.logical_clock) + uint_field(4, m.content_type) + bytes_field(5, m.content) + opt_bytes_field(6, match m.vector_clock { Some(v) => Some(spec_encode_vector_clock(v)), None => None }), opt_bytes_field(7, match m.indices { Some(v) => Some(spec_encode_indices(v)), None => None }));
    lemma_tags_ok_concat(opt_bytes_field(1, match m.system { Some(v) => Some(spec_encode_public_key(v)), None => None }) + opt_bytes_field(2, match m.process { Some(v) => Some(spec_encode_process(v)), None => None }) + uint_field(3, m.logical_clock) + uint_field(4, m.content_type) + bytes_field(5, m.content) + opt_bytes_field(6, match m.vector_clock { Some(v) => Some(spec_encode_vector_clock(v)), None => None }) + opt_bytes_field(7, match m.indices { Some(v) => Some(spec_encode_indices(v)), None => None }), opt_bytes_field(8, match m.lww_element_set { Some(v) => Some(spec_encode_lww_element_set(v)), None => None }));
    lemma_tags_ok_concat(opt_bytes_field(1, match m.system { Some(v) => Some(spec_encode_public_key(v)), None => None }) + opt_bytes_field(2, match m.process { Some(v) => Some(spec_encode_process(v)), None => None }) + uint_field(3, m.logical_clock) + uint_field(4, m.content_type) + bytes_field(5, m.content) + opt_bytes_field(6, match m.vector_clock { Some(v) => Some(spec_encode_vector_clock(v)), None => None }) + opt_bytes_field(7, match m.indices { Some(v) => Some(spec_encode_indices(v)), None => None }) + opt_bytes_field(8, match m.lww_element_set { Some(v) => Some(spec_encode_lww_element_set(v)), None => None }), opt_bytes_field(9, match m.lww_element { Some(v) => Some(spec_encode_lww_element(v)), None => None }));
    lemma_tags_ok_concat(opt_bytes_field(1, match m.system { Some(v) => Some(spec_encode_public_key(v)), None => None }) + opt_bytes_field(2, match m.process { Some(v) => Some(spec_encode_process(v)), None => None }) + uint_field(3, m.logical_clock) + uint_field(4, m.content_type) + bytes_field(5, m.content) + opt_bytes_field(6, match m.vector_clock { Some(v) => Some(spec_encode_vector_clock(v)), None => None }) + opt_bytes_field(7, match m.indices { Some(v) => Some(spec_encode_indices(v)), None => None }) + opt_bytes_field(8, match m.lww_element_set { Some(v) => Some(spec_encode_lww_element_set(v)), None => None }) + opt_bytes_field(9, match m.lww_element { Some(v) => Some(spec_encode_lww_element(v)), None => None }), repeated_bytes_fields(10, encode_references(m.references)));
    lemma_tags_ok_concat(opt_bytes_field(1, match m.system { Some(v) => Some(spec_encode_public_key(v)), None => None }) + opt_bytes_field(2, match m.process { Some(v) => Some(spec_encode_process(v)), None => None }) + uint_field(3, m.logical_clock) + uint_field(4, m.content_type) + bytes_field(5, m.content) + opt_bytes_field(6, match m.vector_clock { Some(v) => Some(spec_encode_vector_clock(v)), None => None }) + opt_bytes_field(7, match m.indices { Some(v) => Some(spec_encode_indices(v)), None => None }) + opt_bytes_field(8, match m.lww_element_set { Some(v) => Some(spec_encode_lww_element_set(v)), None => None }) + opt_bytes_field(9, match m.lww_element { Some(v) => Some(spec_encode_lww_element(v)), None => None }) + repeated_bytes_fields(10, encode_references(m.references)), opt_uint_field(11, m.unix_milliseconds));
}

proof fn lemma_event_part_lengths(m: SpecEvent)
    ensures
        spec_encode_fields(opt_bytes_field(1, match m.system { Some(v) => Some(spec_encode_public_key(v)), None => None })).len() <= spec_encode_fields(event_fields(m)).len(),
        spec_encode_fields(opt_bytes_field(2, match m.process { Some(v) => Some(spec_encode_process(v)), None => None })).len() <= spec_encode_fields(event_fields(m)).len(),
        spec_encode_fields(uint_field(3, m.logical_clock)).len() <= spec_encode_fields(event_fields(m)).len(),
        spec_encode_fields(uint_field(4, m.content_type)).len() <= spec_encode_fields(event_fields(m)).len(),
        spec_encode_fields(bytes_field(5, m.content)).len() <= spec_encode_fields(event_fields(m)).len(),
        spec_encode_fields(opt_bytes_field(6, match m.vector_clock { Some(v) => Some(spec_encode_vector_clock(v)), None => None })).len() <= spec_encode_fields(event_fields(m)).len(),
        spec_encode_fields(opt_bytes_field(7, match m.indices { Some(v) => Some(spec_encode_indices(v)), None => None })).len() <= spec_encode_fields(event_fields(m)).len(),
        spec_encode_fields(opt_bytes_field(8, match m.lww_element_set { Some(v) => Some(spec_encode_lww_element_set(v)), None => None })).len() <= spec_encode_fields(event_fields(m)).len(),
        spec_encode_fields(opt_bytes_field(9, match m.lww_element { Some(v) => Some(spec_encode_lww_element(v)), None => None })).len() <= spec_encode_fields(event_fields(m)).len(),
        spec_encode_fields(repeated_bytes_fields(10, encode_references(m.references))).len() <= spec_encode_fields(event_fields(m)).len(),
        spec_encode_fields(opt_uint_field(11, m.unix_milliseconds)).len() <= spec_encode_fields(event_fields(m)).len(),
{
    broadcast use group_field_lists;

}

proof fn lemma_event_step_system(m: SpecEvent)
    requires
        spec_encode_fields(opt_bytes_field(1, match m.system { Some(v) => Some(spec_encode_public_key(v)), None => None })).len() < 0x1_0000_0000_0000_0000,
    ensures
        spec_apply_all(event_applier(), SpecEvent { system: None, process: None, logical_clock: 0, content_type: 0, content: seq![], vector_clock: None, indices: None, lww_element_set: None, lww_element: None, references: seq![], unix_milliseconds: None }, opt_bytes_field(1, match m.system { Some(v) => Some(spec_encode_public_key(v)), None => None })) == Some(SpecEvent { system: m.system, process: None, logical_clock: 0, content_type: 0, content: seq![], vector_clock: None, indices: None, lww_element_set: None, lww_element: None, references: seq![], unix_milliseconds: None }),
{
    let d = SpecEvent { system: None, process: None, logical_clock: 0, content_type: 0, content: seq![], vector_clock: None, indices: None, lww_element_set: None, lww_element: None, references: seq![], unix_milliseconds: None };
    lemma_apply_opt_bytes_field(
        event_applier(),
        d,
        1,
        match m.system {
            Some(v) => Some(spec_encode_public_key(v)),
            None => None,
        },
    );
    match m.system {
        Some(v) => {
            let fld = WireField { tag: 1, value: WireValue::Bytes(spec_encode_public_key(v)) };
            lemma_encode_single_field(fld);
            lemma_field_payload_le(fld);
            lemma_public_key_round_trip(v);
        },
        None => {},
    }
}

proof fn lemma_event_step_process(m: SpecEvent)
    requires
        spec_encode_fields(opt_bytes_field(2, match m.process { Some(v) => Some(spec_encode_process(v)), None => None })).len() < 0x1_0000_0000_0000_0000,
    ensures
        spec_apply_all(event_applier(), SpecEvent { system: m.system, process: None, logical_clock: 0, content_type: 0, content: seq![], vector_clock: None, indices: None, lww_element_set: None, lww_element: None, references: seq![], unix_milliseconds: None }, opt_bytes_field(2, match m.process { Some(v) => Some(spec_encode_process(v)), None => None })) == Some(SpecEvent { system: m.system, process: m.process, logical_clock: 0, content_type: 0, content: seq![], vector_clock: None, indices: None, lww_element_set: None, lww_element: None, references: seq![], unix_milliseconds: None }),
{
    let d = SpecEvent { system: m.system, process: None, logical_clock: 0, content_type: 0, content: seq![], vector_clock: None, indices: None, lww_element_set: None, lww_element: None, references: seq![], unix_milliseconds: None };
    lemma_apply_opt_bytes_field(
        event_applier(),
        d,
        2,
        match m.process {
            Some(v) => Some(spec_encode_process(v)),
            None => None,
        },
    );
    match m.process {
        Some(v) => {
            let fld = WireField { tag: 2, value: WireValue::Bytes(spec_encode_process(v)) };
            lemma_encode_single_field(fld);
            lemma_field_payload_le(fld);
            lemma_process_round_trip(v);
        },
        None => {},
    }
}

proof fn lemma_event_step_logical_clock(m: SpecEvent)
    requires
        spec_encode_fields(uint_field(3, m.logical_clock)).len() < 0x1_0000_0000_0000_0000,
    ensures
        spec_apply_all(event_applier(), SpecEvent { system: m.system, process: m.process, logical_clock: 0, content_type: 0, content: seq![], vector_clock: None, indices: None, lww_element_set: None, lww_element: None, references: seq![], unix_milliseconds: None }, uint_field(3, m.logical_clock)) == Some(SpecEvent { system: m.system, process: m.process, logical_clock: m.logical_clock, content_type: 0, content: seq![], vector_clock: None, indices: None, lww_element_set: None, lww_element: None, references: seq![], unix_milliseconds: None }),
{
    let d = SpecEvent { system: m.system, process: m.process, logical_clock: 0, content_type: 0, content: seq![], vector_clock: None, indices: None, lww_element_set: None, lww_element: None, references: seq![], unix_milliseconds: None };
    lemma_apply_uint_field(event_applier(), d, 3, m.logical_clock);
}

proof fn lemma_event_step_content_type(m: SpecEvent)
    requires
        spec_encode_fields(uint_field(4, m.content_type)).len() < 0x1_0000_0000_0000_0000,
    ensures
        spec_apply_all(event_applier(), SpecEvent { system: m.system, process: m.process, logical_clock: m.logical_clock, content_type: 0, content: seq![], vector_clock: None, indices: None, lww_element_set: None, lww_element: None, references: seq![], unix_milliseconds: None }, uint_field(4, m.content_type)) == Some(SpecEvent { system: m.system, process: m.process, logical_clock: m.logical_clock, content_type: m.content_type, content: seq![], vector_clock: None, indices: None, lww_element_set: None, lww_element: None, references: seq![], unix_milliseconds: None }),
{
    let d = SpecEvent { system: m.system, process: m.process, logical_clock: m.logical_clock, content_type: 0, content: seq![], vector_clock: None, indices: None, lww_element_set: None, lww_element: None, references: seq![], unix_milliseconds: None };
    lemma_apply_uint_field(event_applier(), d, 4, m.content_type);
}

proof fn lemma_event_step_content(m: SpecEvent)
    requires
        spec_encode_fields(bytes_field(5, m.content)).len() < 0x1_0000_0000_0000_0000,
    ensures
        spec_apply_all(event_applier(), SpecEvent { system: m.system, process: m.process, logical_clock: m.logical_clock, content_type: m.content_type, content: seq![], vector_clock: None, indices: None, lww_element_set: None, lww_element: None, references: seq![], unix_milliseconds: None }, bytes_field(5, m.content)) == Some(SpecEvent { system: m.system, process: m.process, logical_clock: m.logical_clock, content_type: m.content_type, content: m.content, vector_clock: None, indices: None, lww_element_set: None, lww_element: None, references: seq![], unix_milliseconds: None }),
{
    let d = SpecEvent { system: m.system, process: m.process, logical_clock: m.logical_clock, content_type: m.content_type, content: seq![], vector_clock: None, indices: None, lww_element_set: None, lww_element: None, references: seq![], unix_milliseconds: None };
    lemma_apply_bytes_field(event_applier(), d, 5, m.content);
    if m.content.len() == 0 {
        assert(m.content =~= Seq::<u8>::empty());
    }
}

proof fn lemma_event_step_vector_clock(m: SpecEvent)
    requires
        spec_encode_fields(opt_bytes_field(6, match m.vector_clock { Some(v) => Some(spec_encode_vector_clock(v)), None => None })).len() < 0x1_0000_0000_0000_0000,
    ensures
        spec_apply_all(event_applier(), SpecEvent { system: m.system, process: m.process, logical_clock: m.logical_clock, content_type: m.content_type, content: m.content, vector_clock: None, indices: None, lww_element_set: None, lww_element: None, references: seq![], unix_milliseconds: None }, opt_bytes_field(6, match m.vector_clock { Some(v) => Some(spec_encode_vector_clock(v)), None => None })) == Some(SpecEvent { system: m.system, process: m.process, logical_clock: m.logical_clock, content_type: m.content_type, content: m.content, vector_clock: m.vector_clock, indices: None, lww_element_set: None, lww_element: None, references: seq![], unix_milliseconds: None }),
{
    let d = SpecEvent { system: m.system, process: m.process, logical_clock: m.logical_clock, content_type: m.content_type, content: m.content, vector_clock: None, indices: None, lww_element_set: None, lww_element: None, references: seq![], unix_milliseconds: None };
    lemma_apply_opt_bytes_field(
        event_applier(),
        d,
        6,
        match m.vector_clock {
            Some(v) => Some(spec_encode_vector_clock(v)),
            None => None,
        },
    );
    match m.vector_clock {
        Some(v) => {
            let fld = WireField { tag: 6, value: WireValue::Bytes(spec_encode_vector_clock(v)) };
            lemma_encode_single_field(fld);
            lemma_field_payload_le(fld);
            lemma_vector_clock_round_trip(v);
        },
        None => {},
    }
}

proof fn lemma_event_step_indices(m: SpecEvent)
    requires
        spec_encode_fields(opt_bytes_field(7, match m.indices { Some(v) => Some(spec_encode_indices(v)), None => None })).len() < 0x1_0000_0000_0000_0000,
    ensures
        spec_apply_all(event_applier(), SpecEvent { system: m.system, process: m.process, logical_clock: m.logical_clock, content_type: m.content_type, content: m.content, vector_clock: m.vector_clock, indices: None, lww_element_set: None, lww_element: None, references: seq![], unix_milliseconds: None }, opt_bytes_field(7, match m.indices { Some(v) => Some(spec_encode_indices(v)), None => None })) == Some(SpecEvent { system: m.system, process: m.process, logical_clock: m.logical_clock, content_type: m.content_type, content: m.content, vector_clock: m.vector_clock, indices: m.indices, lww_element_set: None, lww_element: None, references: seq![], unix_milliseconds: None }),
{
    let d = SpecEvent { system: m.system, process: m.process, logical_clock: m.logical_clock, content_type: m.content_type, content: m.content, vector_clock: m.vector_clock, indices: None, lww_element_set: None, lww_element: None, references: seq![], unix_milliseconds: None };
    lemma_apply_opt_bytes_field(
        event_applier(),
        d,
        7,
        match m.indices {
            Some(v) => Some(spec_encode_indices(v)),
            None => None,
        },
    );
    match m.indices {
        Some(v) => {
            let fld = WireField { tag: 7, value: WireValue::Bytes(spec_encode_indices(v)) };
            lemma_encode_single_field(fld);
            lemma_field_payload_le(fld);
            lemma_indices_round_trip(v);
        },
        None => {},
    }
}

proof fn lemma_event_step_lww_element_set(m: SpecEvent)
    requires
        spec_encode_fields(opt_bytes_field(8, match m.lww_element_set { Some(v) => Some(spec_encode_lww_element_set(v)), None => None })).len() < 0x1_0000_0000_0000_0000,
    ensures
        spec_apply_all(event_applier(), SpecEvent { system: m.system, process: m.process, logical_clock: m.logical_clock, content_type: m.content_type, content: m.content, vector_clock: m.vector_clock, indices: m.indices, lww_element_set: None, lww_element: None, references: seq![], unix_milliseconds: None }, opt_bytes_field(8, match m.lww_element_set { Some(v) => Some(spec_encode_lww_element_set(v)), None => None })) == Some(SpecEvent { system: m.system, process: m.process, logical_clock: m.logical_clock, content_type: m.content_type, content: m.content, vector_clock: m.vector_clock, indices: m.indices, lww_element_set: m.lww_element_set, lww_element: None, references: seq![], unix_milliseconds: None }),
{
    let d = SpecEvent { system: m.system, process: m.process, logical_clock: m.logical_clock, content_type: m.content_type, content: m.content, vector_clock: m.vector_clock, indices: m.indices, lww_element_set: None, lww_element: None, references: seq![], unix_milliseconds: None };
    lemma_apply_opt_bytes_field(
        event_applier(),
        d,
        8,
        match m.lww_element_set {
            Some(v) => Some(spec_encode_lww_element_set(v)),
            None => None,
        },
    );
    match m.lww_element_set {
        Some(v) => {
            let fld = WireField { tag: 8, value: WireValue::Bytes(spec_encode_lww_element_set(v)) };
            lemma_encode_single_field(fld);
            lemma_field_payload_le(fld);
            lemma_lww_element_set_round_trip(v);
        },
        None => {},
    }
}

proof fn lemma_event_step_lww_element(m: SpecEvent)
    requires
        spec_encode_fields(opt_bytes_field(9, match m.lww_element { Some(v) => Some(spec_encode_lww_element(v)), None => None })).len() < 0x1_0000_0000_0000_0000,
    ensures
        spec_apply_all(event_applier(), SpecEvent { system: m.system, process: m.process, logical_clock: m.logical_clock, content_type: m.content_type, content: m.content, vector_clock: m.vector_clock, indices: m.indices, lww_element_set: m.lww_element_set, lww_element: None, references: seq![], unix_milliseconds: None }, opt_bytes_field(9, match m.lww_element { Some(v) => Some(spec_encode_lww_element(v)), None => None })) == Some(SpecEvent { system: m.system, process: m.process, logical_clock: m.logical_clock, content_type: m.content_type, content: m.content, vector_clock: m.vector_clock, indices: m.indices, lww_element_set: m.lww_element_set, lww_element: m.lww_element, references: seq![], unix_milliseconds: None }),
{
    let d = SpecEvent { system: m.system, process: m.process, logical_clock: m.logical_clock, content_type: m.content_type, content: m.content, vector_clock: m.vector_clock, indices: m.indices, lww_element_set: m.lww_element_set, lww_element: None, references: seq![], unix_milliseconds: None };
    lemma_apply_opt_bytes_field(
        event_applier(),
        d,
        9,
        match m.lww_element {
            Some(v) => Some(spec_encode_lww_element(v)),
            None => None,
        },
    );
    match m.lww_element {
        Some(v) => {
            let fld = WireField { tag: 9, value: WireValue::Bytes(spec_encode_lww_element(v)) };
            lemma_encode_single_field(fld);
            lemma_field_payload_le(fld);
            lemma_lww_element_round_trip(v);
        },
        None => {},
    }
}

proof fn lemma_event_step_references(m: SpecEvent)
    requires
        spec_encode_fields(repeated_bytes_fields(10, encode_references(m.references))).len() < 0x1_0000_0000_0000_0000,
    ensures
        spec_apply_all(event_applier(), SpecEvent { system: m.system, process: m.process, logical_clock: m.logical_clock, content_type: m.content_type, content: m.content, vector_clock: m.vector_clock, indices: m.indices, lww_element_set: m.lww_element_set, lww_element: m.lww_element, references: seq![], unix_milliseconds: None }, repeated_bytes_fields(10, encode_references(m.references))) == Some(SpecEvent { system: m.system, process: m.process, logical_clock: m.logical_clock, content_type: m.content_type, content: m.content, vector_clock: m.vector_clock, indices: m.indices, lww_element_set: m.lww_element_set, lww_element: m.lww_element, references: m.references, unix_milliseconds: None }),
{
    let d = SpecEvent { system: m.system, process: m.process, logical_clock: m.logical_clock, content_type: m.content_type, content: m.content, vector_clock: m.vector_clock, indices: m.indices, lww_element_set: m.lww_element_set, lww_element: m.lww_element, references: seq![], unix_milliseconds: None };
    lemma_repeated_bounded(10, encode_references(m.references));
    assert forall|i: int| 0 <= i < m.references.len() implies (#[trigger] spec_encode_reference(m.references[i])).len()
        < 0x1_0000_0000_0000_0000 by {
        assert(encode_references(m.references)[i] == spec_encode_reference(m.references[i]));
    }
    lemma_event_apply_references(d, m.references);
    assert(d.references + m.references =~= m.references);
}

proof fn lemma_event_step_unix_milliseconds(m: SpecEvent)
    requires
        spec_encode_fields(opt_uint_field(11, m.unix_milliseconds)).len() < 0x1_0000_0000_0000_0000,
    ensures
        spec_apply_all(event_applier(), SpecEvent { system: m.system, process: m.process, logical_clock: m.logical_clock, content_type: m.content_type, content: m.content, vector_clock: m.vector_clock, indices: m.indices, lww_element_set: m.lww_element_set, lww_element: m.lww_element, references: m.references, unix_milliseconds: None }, opt_uint_field(11, m.unix_milliseconds)) == Some(SpecEvent { system: m.system, process: m.process, logical_clock: m.logical_clock, content_type: m.content_type, content: m.content, vector_clock: m.vector_clock, indices: m.indices, lww_element_set: m.lww_element_set, lww_element: m.lww_element, references: m.references, unix_milliseconds: m.unix_milliseconds }),
{
    let d = SpecEvent { system: m.system, process: m.process, logical_clock: m.logical_clock, content_type: m.content_type, content: m.content, vector_clock: m.vector_clock, indices: m.indices, lww_element_set: m.lww_element_set, lww_element: m.lww_element, references: m.references, unix_milliseconds: None };
    lemma_apply_opt_uint_field(event_applier(), d, 11, m.unix_milliseconds);
}

/// Decoding the encoding of an [`Event`] gives back the value (for every value
/// whose encoding fits a 64-bit length).
pub proof fn lemma_event_round_trip(m: SpecEvent)
    requires
        spec_encode_event(m).len() < 0x1_0000_0000_0000_0000,
    ensures
        spec_decode_event(spec_encode_event(m)) == Some(m),
{
    let fs = event_fields(m);
    lemma_event_tags_ok(m);
    lemma_decode_fields(event_applier(), default_event(), fs);
    lemma_event_part_lengths(m);
    lemma_event_step_system(m);
    lemma_event_step_process(m);
    lemma_event_step_logical_clock(m);
    lemma_event_step_content_type(m);
    lemma_event_step_content(m);
    lemma_event_step_vector_clock(m);
    lemma_event_step_indices(m);
    lemma_event_step_lww_element_set(m);
    lemma_event_step_lww_element(m);
    lemma_event_step_references(m);
    lemma_event_step_unix_milliseconds(m);
    lemma_apply_concat(event_applier(), default_event(), opt_bytes_field(1, match m.system { Some(v) => Some(spec_encode_public_key(v)), None => None }), opt_bytes_field(2, match m.process { Some(v) => Some(spec_encode_process(v)), None => None }));
    lemma_apply_concat(event_applier(), default_event(), opt_bytes_field(1, match m.system { Some(v) => Some(spec_encode_public_key(v)), None => None }) + opt_bytes_field(2, match m.process { Some(v) => Some(spec_encode_process(v)), None => None }), uint_field(3, m.logical_clock));
    lemma_apply_concat(event_applier(), default_event(), opt_bytes_field(1, match m.system { Some(v) => Some(spec_encode_public_key(v)), None => None }) + opt_bytes_field(2, match m.process { Some(v) => Some(spec_encode_process(v)), None => None }) + uint_field(3, m.logical_clock), uint_field(4, m.content_type));
    lemma_apply_concat(event_applier(), default_event(), opt_bytes_field(1, match m.system { Some(v) => Some(spec_encode_public_key(v)), None => None }) + opt_bytes_field(2, match m.process { Some(v) => Some(spec_encode_process(v)), None => None }) + uint_field(3, m.logical_clock) + uint_field(4, m.content_type), bytes_field(5, m.content));
    lemma_apply_concat(event_applier(), default_event(), opt_bytes_field(1, match m.system { Some(v) => Some(spec_encode_public_key(v)), None => None }) + opt_bytes_field(2, match m.process { Some(v) => Some(spec_encode_process(v)), None => None }) + uint_field(3, m.logical_clock) + uint_field(4, m.content_type) + bytes_field(5, m.content), opt_bytes_field(6, match m.vector_clock { Some(v) => Some(spec_encode_vector_clock(v)), None => None }));
    lemma_apply_concat(event_applier(), default_event(), opt_bytes_field(1, match m.system { Some(v) => Some(spec_encode_public_key(v)), None => None }) + opt_bytes_field(2, match m.process { Some(v) => Some(spec_encode_process(v)), None => None }) + uint_field(3, m.logical_clock) + uint_field(4, m.content_type) + bytes_field(5, m.content) + opt_bytes_field(6, match m.vector_clock { Some(v) => Some(spec_encode_vector_clock(v)), None => None }), opt_bytes_field(7, match m.indices { Some(v) => Some(spec_encode_indices(v)), None => None }));
    lemma_apply_concat(event_applier(), default_event(), opt_bytes_field(1, match m.system { Some(v) => Some(spec_encode_public_key(v)), None => None }) + opt_bytes_field(2, match m.process { Some(v) => Some(spec_encode_process(v)), None => None }) + uint_field(3, m.logical_clock) + uint_field(4, m.content_type) + bytes_field(5, m.content) + opt_bytes_field(6, match m.vector_clock { Some(v) => Some(spec_encode_vector_clock(v)), None => None }) + opt_bytes_field(7, match m.indices { Some(v) => Some(spec_encode_indices(v)), None => None }), opt_bytes_field(8, match m.lww_element_set { Some(v) => Some(spec_encode_lww_element_set(v)), None => None }));
    lemma_apply_concat(event_applier(), default_event(), opt_bytes_field(1, match m.system { Some(v) => Some(spec_encode_public_key(v)), None => None }) + opt_bytes_field(2, match m.process { Some(v) => Some(spec_encode_process(v)), None => None }) + uint_field(3, m.logical_clock) + uint_field(4, m.content_type) + bytes_field(5, m.content) + opt_bytes_field(6, match m.vector_clock { Some(v) => Some(spec_encode_vector_clock(v)), None => None }) + opt_bytes_field(7, match m.indices { Some(v) => Some(spec_encode_indices(v)), None => None }) + opt_bytes_field(8, match m.lww_element_set { Some(v) => Some(spec_encode_lww_element_set(v)), None => None }), opt_bytes_field(9, match m.lww_element { Some(v) => Some(spec_encode_lww_element(v)), None => None }));
    lemma_apply_concat(event_applier(), default_event(), opt_bytes_field(1, match m.system { Some(v) => Some(spec_encode_public_key(v)), None => None }) + opt_bytes_field(2, match m.process { Some(v) => Some(spec_encode_process(v)), None => None }) + uint_field(3, m.logical_clock) + uint_field(4, m.content_type) + bytes_field(5, m.content) + opt_bytes_field(6, match m.vector_clock { Some(v) => Some(spec_encode_vector_clock(v)), None => None }) + opt_bytes_field(7, match m.indices { Some(v) => Some(spec_encode_indices(v)), None => None }) + opt_bytes_field(8, match m.lww_element_set { Some(v) => Some(spec_encode_lww_element_set(v)), None => None }) + opt_bytes_field(9, match m.lww_element { Some(v) => Some(spec_encode_lww_element(v)), None => None }), repeated_bytes_fields(10, encode_references(m.references)));
    lemma_apply_concat(event_applier(), default_event(), opt_bytes_field(1, match m.system { Some(v) => Some(spec_encode_public_key(v)), None => None }) + opt_bytes_field(2, match m.process { Some(v) => Some(spec_encode_process(v)), None => None }) + uint_field(3, m.logical_clock) + uint_field(4, m.content_type) + bytes_field(5, m.content) + opt_bytes_field(6, match m.vector_clock { Some(v) => Some(spec_encode_vector_clock(v)), None => None }) + opt_bytes_field(7, match m.indices { Some(v) => Some(spec_encode_indices(v)), None => None }) + opt_bytes_field(8, match m.lww_element_set { Some(v) => Some(spec_encode_lww_element_set(v)), None => None }) + opt_bytes_field(9, match m.lww_element { Some(v) => Some(spec_encode_lww_element(v)), None => None }) + repeated_bytes_fields(10, encode_references(m.references)), opt_uint_field(11, m.unix_milliseconds));
    assert(SpecEvent { system: m.system, process: m.process, logical_clock: m.logical_clock, content_type: m.content_type, content: m.content, vector_clock: m.vector_clock, indices: m.indices, lww_element_set: m.lww_element_set, lww_element: m.lww_element, references: m.references, unix_milliseconds: m.unix_milliseconds } =~= m);
}

/// A moderation label that a server attaches to an event, and its level.
#[derive(Clone, Debug, PartialEq, Eq, Default)]
pub struct ModerationTag {
    pub name: String,
    pub level: u32,
}

/// The value of a [`ModerationTag`].
#[verifier::ext_equal]
pub struct SpecModerationTag {
    pub name: Seq<char>,
    pub level: u32,
}

impl View for ModerationTag {
    type V = SpecModerationTag;

    open spec fn view(&self) -> SpecModerationTag {
        SpecModerationTag {
            name: self.name@,
            level: self.level,
        }
    }
}

/// The value that decoding starts from: every field at its default.
pub open spec fn default_moderation_tag() -> SpecModerationTag {
    SpecModerationTag { name: seq![], level: 0 }
}

/// The fields that a [`ModerationTag`] is written as, in field-number order; fields
/// at their default are left out.
pub open spec fn moderation_tag_fields(m: SpecModerationTag) -> Seq<WireField> {
    string_field(1, m.name)
        + uint_field(2, m.level as u64)
}

/// The encoding of a [`ModerationTag`].
pub open spec fn spec_encode_moderation_tag(m: SpecModerationTag) -> Seq<u8> {
    spec_encode_fields(moderation_tag_fields(m))
}

/// Merges one field into a [`ModerationTag`]: a known field number must come with
/// its wire type; fields with other numbers are skipped.
pub open spec fn apply_moderation_tag(m: SpecModerationTag, f: WireField) -> Option<SpecModerationTag> {
    if f.tag == 1 {
        match field_string(f) { Some(t) => Some(SpecModerationTag { name: t, level: m.level }), None => None }
    } else if f.tag == 2 {
        match field_varint(f) { Some(v) => Some(SpecModerationTag { name: m.name, level: v as u32 }), None => None }
    } else {
        Some(m)
    }
}

pub open spec fn moderation_tag_applier() -> spec_fn(SpecModerationTag, WireField) -> Option<SpecModerationTag> {
    |m: SpecModerationTag, f: WireField| apply_moderation_tag(m, f)
}

/// Merges the fields of `b` into `m`.
pub open spec fn spec_merge_moderation_tag(m: SpecModerationTag, b: Seq<u8>) -> Option<SpecModerationTag> {
    spec_merge_with(moderation_tag_applier(), m, b)
}

/// Decodes a [`ModerationTag`]: the fields of `b` merged into the default.
pub open spec fn spec_decode_moderation_tag(b: Seq<u8>) -> Option<SpecModerationTag> {
    spec_merge_moderation_tag(default_moderation_tag(), b)
}

/// The values of a list of [`ModerationTag`]s.
pub open spec fn view_moderation_tags(v: Seq<ModerationTag>) -> Seq<SpecModerationTag> {
    v.map_values(|x: ModerationTag| x@)
}

/// The encodings of a list of [`ModerationTag`] values.
pub open spec fn encode_moderation_tags(v: Seq<SpecModerationTag>) -> Seq<Seq<u8>> {
    v.map_values(|x: SpecModerationTag| spec_encode_moderation_tag(x))
}

impl ModerationTag {
    /// A value with every field at its default.
    pub fn new_default() -> (r: Self)
        ensures
            r@ == default_moderation_tag(),
    {
        let r = ModerationTag { name: String::new(), level: 0 };
        assert(r@ =~= default_moderation_tag());
        r
    }

    /// A copy.
    pub fn duplicate(&self) -> (r: Self)
        ensures
            r@ == self@,
    {
        let r = ModerationTag {
            name: self.name.clone(),
            level: self.level,
        };
        assert(r@ =~= self@);
        r
    }

    /// The protocol encoding.
    pub fn encode(&self) -> (r: Vec<u8>)
        ensures
            r@ == spec_encode_moderation_tag(self@),
    {
        broadcast use group_field_lists;

        let mut out: Vec<u8> = Vec::new();
        put_string(1, &self.name, &mut out);
        put_uint(2, self.level as u64, &mut out);
        assert(out@ =~= spec_encode_moderation_tag(self@));
        out
    }

    fn apply_field(&mut self, buf: &[u8], f: &RawField) -> (ok: bool)
        requires
            raw_field_within(*f, buf@.len()),
        ensures
            match apply_moderation_tag(old(self)@, raw_field_view(*f, buf@)) {
                Some(m) => ok && final(self)@ == m,
                None => !ok,
            },
    {
        if f.tag == 1 {
            match raw_string(buf, f) { Some(t) => { self.name = t; true }, None => false }
        } else if f.tag == 2 {
            match raw_varint(f) { Some(v) => { self.level = v as u32; true }, None => false }
        } else {
            true
        }
    }

    /// Merges the fields of `buf[start..end]` into `self`; `false` where the
    /// bytes are not a valid encoding (`self` is then left in no stated state).
    pub fn merge(&mut self, buf: &[u8], start: usize, end: usize) -> (ok: bool)
        requires
            start <= end <= buf@.len(),
        ensures
            match spec_merge_moderation_tag(old(self)@, buf@.subrange(start as int, end as int)) {
                Some(m) => ok && final(self)@ == m,
                None => !ok,
            },
    {
        let mut pos = start;
        while pos < end
            invariant
                start <= pos <= end <= buf@.len(),
                spec_merge_moderation_tag(old(self)@, buf@.subrange(start as int, end as int)) == spec_merge_moderation_tag(
                    self@,
                    buf@.subrange(pos as int, end as int),
                ),
            decreases end - pos,
        {
            match read_field(buf, pos, end) {
                Some((f, next)) => {
                    proof {
                        lemma_merge_step(
                            moderation_tag_applier(),
                            self@,
                            buf@,
                            pos as nat,
                            next as nat,
                            end as nat,
                            raw_field_view(f, buf@),
                        );
                    }
                    if !self.apply_field(buf, &f) {
                        return false;
                    }
                    pos = next;
                },
                None => {
                    proof {
                        lemma_merge_bad_field(moderation_tag_applier(), self@, buf@, pos as nat, end as nat);
                    }
                    return false;
                },
            }
        }
        proof {
            lemma_merge_empty(moderation_tag_applier(), self@, buf@, pos as nat);
        }
        true
    }

    /// Decodes a [`ModerationTag`] from its protocol encoding; `None` where the bytes
    /// are not one.
    pub fn decode(buf: &[u8]) -> (r: Option<Self>)
        ensures
            match spec_decode_moderation_tag(buf@) {
                Some(m) => r matches Some(x) && x@ == m,
                None => r is None,
            },
    {
        let mut m = ModerationTag::new_default();
        assert(buf@.subrange(0, buf@.len() as int) =~= buf@);
        if m.merge(buf, 0, buf.len()) {
            Some(m)
        } else {
            None
        }
    }
}

/// Appends one field per item of `items`, each holding the item's encoding.
pub fn put_moderation_tags(tag: u64, items: &Vec<ModerationTag>, out: &mut Vec<u8>)
    requires
        1 <= tag <= 0x1fff_ffff,
    ensures
        final(out)@ == old(out)@ + spec_encode_fields(
            repeated_bytes_fields(tag as nat, encode_moderation_tags(view_moderation_tags(items@))),
        ),
{
    let ghost all = encode_moderation_tags(view_moderation_tags(items@));
    let mut i: usize = 0;
    while i < items.len()
        invariant
            1 <= tag <= 0x1fff_ffff,
            i <= items@.len(),
            all == encode_moderation_tags(view_moderation_tags(items@)),
            out@ == old(out)@ + spec_encode_fields(repeated_bytes_fields(tag as nat, all.take(i as int))),
        decreases items@.len() - i,
    {
        let e = items[i].encode();
        put_bytes_always(tag, e.as_slice(), out);
        let ghost f = WireField { tag: tag as nat, value: WireValue::Bytes(e@) };
        let ghost prev = repeated_bytes_fields(tag as nat, all.take(i as int));
        assert(all[i as int] == e@);
        assert(repeated_bytes_fields(tag as nat, all.take(i + 1)) =~= prev + seq![f]);
        proof {
            lemma_encode_fields_concat(prev, seq![f]);
            lemma_encode_single_field(f);
        }
        assert(out@ =~= old(out)@ + spec_encode_fields(prev + seq![f]));
        i = i + 1;
    }
    assert(all.take(i as int) =~= all);
}

/// A copy of a list of [`ModerationTag`]s.
pub fn duplicate_moderation_tags(items: &Vec<ModerationTag>) -> (r: Vec<ModerationTag>)
    ensures
        view_moderation_tags(r@) == view_moderation_tags(items@),
{
    let mut r: Vec<ModerationTag> = Vec::new();
    let mut i: usize = 0;
    while i < items.len()
        invariant
            i <= items@.len(),
            view_moderation_tags(r@) == view_moderation_tags(items@).take(i as int),
        decreases items@.len() - i,
    {
        let ghost before = r@;
        let d = items[i].duplicate();
        r.push(d);
        assert(view_moderation_tags(r@) =~= view_moderation_tags(before).push(d@));
        assert(view_moderation_tags(items@).take(i + 1) =~= view_moderation_tags(items@).take(i as int).push(items@[i as int]@));
        i = i + 1;
    }
    assert(view_moderation_tags(items@).take(i as int) =~= view_moderation_tags(items@));
    r
}

proof fn lemma_moderation_tag_tags_ok(m: SpecModerationTag)
    ensures
        fields_tags_ok(moderation_tag_fields(m)),
{
    lemma_tags_ok_string(1, m.name);
    lemma_tags_ok_uint(2, m.level as u64);
    lemma_tags_ok_concat(string_field(1, m.name), uint_field(2, m.level as u64));
}

proof fn lemma_moderation_tag_part_lengths(m: SpecModerationTag)
    ensures
        spec_encode_fields(string_field(1, m.name)).len() <= spec_encode_fields(moderation_tag_fields(m)).len(),
        spec_encode_fields(uint_field(2, m.level as u64)).len() <= spec_encode_fields(moderation_tag_fields(m)).len(),
{
    broadcast use group_field_lists;

}

proof fn lemma_moderation_tag_step_name(m: SpecModerationTag)
    requires
        spec_encode_fields(string_field(1, m.name)).len() < 0x1_0000_0000_0000_0000,
    ensures
        spec_apply_all(moderation_tag_applier(), SpecModerationTag { name: seq![], level: 0 }, string_field(1, m.name)) == Some(SpecModerationTag { name: m.name, level: 0 }),
{
    let d = SpecModerationTag { name: seq![], level: 0 };
    lemma_apply_string_field(moderation_tag_applier(), d, 1, m.name);
    lemma_field_string_round_trip(1, m.name);
    if m.name.len() == 0 {
        assert(m.name =~= Seq::<char>::empty());
    }
}

proof fn lemma_moderation_tag_step_level(m: SpecModerationTag)
    requires
        spec_encode_fields(uint_field(2, m.level as u64)).len() < 0x1_0000_0000_0000_0000,
    ensures
        spec_apply_all(moderation_tag_applier(), SpecModerationTag { name: m.name, level: 0 }, uint_field(2, m.level as u64)) == Some(SpecModerationTag { name: m.name, level: m.level }),
{
    let d = SpecModerationTag { name: m.name, level: 0 };
    lemma_apply_uint_field(moderation_tag_applier(), d, 2, m.level as u64);
    let x = m.level;
    assert(((x as u64) as u32) == x) by (bit_vector);
}

/// Decoding the encoding of a [`ModerationTag`] gives back the value (for every value
/// whose encoding fits a 64-bit length).
pub proof fn lemma_moderation_tag_round_trip(m: SpecModerationTag)
    requires
        spec_encode_moderation_tag(m).len() < 0x1_0000_0000_0000_0000,
    ensures
        spec_decode_moderation_tag(spec_encode_moderation_tag(m)) == Some(m),
{
    let fs = moderation_tag_fields(m);
    lemma_moderation_tag_tags_ok(m);
    lemma_decode_fields(moderation_tag_applier(), default_moderation_tag(), fs);
    lemma_moderation_tag_part_lengths(m);
    lemma_moderation_tag_step_name(m);
    lemma_moderation_tag_step_level(m);
    lemma_apply_concat(moderation_tag_applier(), default_moderation_tag(), string_field(1, m.name), uint_field(2, m.level as u64));
    assert(SpecModerationTag { name: m.name, level: m.level } =~= m);
}

/// An encoded event with its signature.
#[derive(Clone, Debug, PartialEq, Eq, Default)]
pub struct SignedEvent {
    /// The ed25519 signature of `event`.
    pub signature: Vec<u8>,
    /// The encoding of an [`Event`].
    pub event: Vec<u8>,
    pub moderation_tags: Vec<ModerationTag>,
}

/// The value of a [`SignedEvent`].
#[verifier::ext_equal]
pub struct SpecSignedEvent {
    pub signature: Seq<u8>,
    pub event: Seq<u8>,
    pub moderation_tags: Seq<SpecModerationTag>,
}

impl View for SignedEvent {
    type V = SpecSignedEvent;

    open spec fn view(&self) -> SpecSignedEvent {
        SpecSignedEvent {
            signature: self.signature@,
            event: self.event@,
            moderation_tags: view_moderation_tags(self.moderation_tags@),
        }
    }
}

/// The value that decoding starts from: every field at its default.
pub open spec fn default_signed_event() -> SpecSignedEvent {
    SpecSignedEvent { signature: seq![], event: seq![], moderation_tags: seq![] }
}

/// The fields that a [`SignedEvent`] is written as, in field-number order; fields
/// at their default are left out.
pub open spec fn signed_event_fields(m: SpecSignedEvent) -> Seq<WireField> {
    bytes_field(1, m.signature)
        + bytes_field(2, m.event)
        + repeated_bytes_fields(3, encode_moderation_tags(m.moderation_tags))
}

/// The encoding of a [`SignedEvent`].
pub open spec fn spec_encode_signed_event(m: SpecSignedEvent) -> Seq<u8> {
    spec_encode_fields(signed_event_fields(m))
}

/// Merges one field into a [`SignedEvent`]: a known field number must come with
/// its wire type; fields with other numbers are skipped.
pub open spec fn apply_signed_event(m: SpecSignedEvent, f: WireField) -> Option<SpecSignedEvent> {
    if f.tag == 1 {
        match field_bytes(f) { Some(b) => Some(SpecSignedEvent { signature: b, event: m.event, moderation_tags: m.moderation_tags }), None => None }
    } else if f.tag == 2 {
        match field_bytes(f) { Some(b) => Some(SpecSignedEvent { signature: m.signature, event: b, moderation_tags: m.moderation_tags }), None => None }
    } else if f.tag == 3 {
        match field_bytes(f) { Some(b) => match spec_decode_moderation_tag(b) { Some(v) => Some(SpecSignedEvent { signature: m.signature, event: m.event, moderation_tags: m.moderation_tags.push(v) }), None => None }, None => None }
    } else {
        Some(m)
    }
}

pub open spec fn signed_event_applier() -> spec_fn(SpecSignedEvent, WireField) -> Option<SpecSignedEvent> {
    |m: SpecSignedEvent, f: WireField| apply_signed_event(m, f)
}

/// Merges the fields of `b` into `m`.
pub open spec fn spec_merge_signed_event(m: SpecSignedEvent, b: Seq<u8>) -> Option<SpecSignedEvent> {
    spec_merge_with(signed_event_applier(), m, b)
}

/// Decodes a [`SignedEvent`]: the fields of `b` merged into the default.
pub open spec fn spec_decode_signed_event(b: Seq<u8>) -> Option<SpecSignedEvent> {
    spec_merge_signed_event(default_signed_event(), b)
}

/// The values of a list of [`SignedEvent`]s.
pub open spec fn view_signed_events(v: Seq<SignedEvent>) -> Seq<SpecSignedEvent> {
    v.map_values(|x: SignedEvent| x@)
}

/// The encodings of a list of [`SignedEvent`] values.
pub open spec fn encode_signed_events(v: Seq<SpecSignedEvent>) -> Seq<Seq<u8>> {
    v.map_values(|x: SpecSignedEvent| spec_encode_signed_event(x))
}

impl SignedEvent {
    /// A value with every field at its default.
    pub fn new_default() -> (r: Self)
        ensures
            r@ == default_signed_event(),
    {
        let r = SignedEvent { signature: Vec::new(), event: Vec::new(), moderation_tags: Vec::new() };
        assert(r@ =~= default_signed_event());
        r
    }

    /// A copy.
    pub fn duplicate(&self) -> (r: Self)
        ensures
            r@ == self@,
    {
        let r = SignedEvent {
            signature: vstd::slice::slice_to_vec(self.signature.as_slice()),
            event: vstd::slice::slice_to_vec(self.event.as_slice()),
            moderation_tags: duplicate_moderation_tags(&self.moderation_tags),
        };
        assert(r@ =~= self@);
        r
    }

    /// The protocol encoding.
    pub fn encode(&self) -> (r: Vec<u8>)
        ensures
            r@ == spec_encode_signed_event(self@),
    {
        broadcast use group_field_lists;

        let mut out: Vec<u8> = Vec::new();
        put_bytes(1, self.signature.as_slice(), &mut out);
        put_bytes(2, self.event.as_slice(), &mut out);
        put_moderation_tags(3, &self.moderation_tags, &mut out);
        assert(out@ =~= spec_encode_signed_event(self@));
        out
    }

    fn apply_field(&mut self, buf: &[u8], f: &RawField) -> (ok: bool)
        requires
            raw_field_within(*f, buf@.len()),
        ensures
            match apply_signed_event(old(self)@, raw_field_view(*f, buf@)) {
                Some(m) => ok && final(self)@ == m,
                None => !ok,
            },
    {
        if f.tag == 1 {
            match raw_bytes(buf, f) { Some(b) => { self.signature = b; true }, None => false }
        } else if f.tag == 2 {
            match raw_bytes(buf, f) { Some(b) => { self.event = b; true }, None => false }
        } else if f.tag == 3 {
            match f.value {
                RawValue::Bytes(s, e) => {
                    let mut sub = ModerationTag::new_default();
                    if sub.merge(buf, s, e) {
                        let ghost before = self.moderation_tags@;
                        self.moderation_tags.push(sub);
                        assert(view_moderation_tags(self.moderation_tags@) =~= view_moderation_tags(before).push(sub@));
                        true
                    } else {
                        false
                    }
                },
                _ => false,
            }
        } else {
            true
        }
    }

    /// Merges the fields of `buf[start..end]` into `self`; `false` where the
    /// bytes are not a valid encoding (`self` is then left in no stated state).
    pub fn merge(&mut self, buf: &[u8], start: usize, end: usize) -> (ok: bool)
        requires
            start <= end <= buf@.len(),
        ensures
            match spec_merge_signed_event(old(self)@, buf@.subrange(start as int, end as int)) {
                Some(m) => ok && final(self)@ == m,
                None => !ok,
            },
    {
        let mut pos = start;
        while pos < end
            invariant
                start <= pos <= end <= buf@.len(),
                spec_merge_signed_event(old(self)@, buf@.subrange(start as int, end as int)) == spec_merge_signed_event(
                    self@,
                    buf@.subrange(pos as int, end as int),
                ),
            decreases end - pos,
        {
            match read_field(buf, pos, end) {
                Some((f, next)) => {
                    proof {
                        lemma_merge_step(
                            signed_event_applier(),
                            self@,
                            buf@,
                            pos as nat,
                            next as nat,
                            end as nat,
                            raw_field_view(f, buf@),
                        );
                    }
                    if !self.apply_field(buf, &f) {
                        return false;
                    }
                    pos = next;
                },
                None => {
                    proof {
                        lemma_merge_bad_field(signed_event_applier(), self@, buf@, pos as nat, end as nat);
                    }
                    return false;
                },
            }
        }
        proof {
            lemma_merge_empty(signed_event_applier(), self@, buf@, pos as nat);
        }
        true
    }

    /// Decodes a [`SignedEvent`] from its protocol encoding; `None` where the bytes
    /// are not one.
    pub fn decode(buf: &[u8]) -> (r: Option<Self>)
        ensures
            match spec_decode_signed_event(buf@) {
                Some(m) => r matches Some(x) && x@ == m,
                None => r is None,
            },
    {
        let mut m = SignedEvent::new_default();
        assert(buf@.subrange(0, buf@.len() as int) =~= buf@);
        if m.merge(buf, 0, buf.len()) {
            Some(m)
        } else {
            None
        }
    }
}

/// Appends one field per item of `items`, each holding the item's encoding.
pub fn put_signed_events(tag: u64, items: &Vec<SignedEvent>, out: &mut Vec<u8>)
    requires
        1 <= tag <= 0x1fff_ffff,
    ensures
        final(out)@ == old(out)@ + spec_encode_fields(
            repeated_bytes_fields(tag as nat, encode_signed_events(view_signed_events(items@))),
        ),
{
    let ghost all = encode_signed_events(view_signed_events(items@));
    let mut i: usize = 0;
    while i < items.len()
        invariant
            1 <= tag <= 0x1fff_ffff,
            i <= items@.len(),
            all == encode_signed_events(view_signed_events(items@)),
            out@ == old(out)@ + spec_encode_fields(repeated_bytes_fields(tag as nat, all.take(i as int))),
        decreases items@.len() - i,
    {
        let e = items[i].encode();
        put_bytes_always(tag, e.as_slice(), out);
        let ghost f = WireField { tag: tag as nat, value: WireValue::Bytes(e@) };
        let ghost prev = repeated_bytes_fields(tag as nat, all.take(i as int));
        assert(all[i as int] == e@);
        assert(repeated_bytes_fields(tag as nat, all.take(i + 1)) =~= prev + seq![f]);
        proof {
            lemma_encode_fields_concat(prev, seq![f]);
            lemma_encode_single_field(f);
        }
        assert(out@ =~= old(out)@ + spec_encode_fields(prev + seq![f]));
        i = i + 1;
    }
    assert(all.take(i as int) =~= all);
}

/// A copy of a list of [`SignedEvent`]s.
pub fn duplicate_signed_events(items: &Vec<SignedEvent>) -> (r: Vec<SignedEvent>)
    ensures
        view_signed_events(r@) == view_signed_events(items@),
{
    let mut r: Vec<SignedEvent> = Vec::new();
    let mut i: usize = 0;
    while i < items.len()
        invariant
            i <= items@.len(),
            view_signed_events(r@) == view_signed_events(items@).take(i as int),
        decreases items@.len() - i,
    {
        let ghost before = r@;
        let d = items[i].duplicate();
        r.push(d);
        assert(view_signed_events(r@) =~= view_signed_events(before).push(d@));
        assert(view_signed_events(items@).take(i + 1) =~= view_signed_events(items@).take(i as int).push(items@[i as int]@));
        i = i + 1;
    }
    assert(view_signed_events(items@).take(i as int) =~= view_signed_events(items@));
    r
}

/// Applying the fields of `items` to the `moderation_tags` of `m` appends them.
proof fn lemma_signed_event_apply_moderation_tags(m: SpecSignedEvent, items: Seq<SpecModerationTag>)
    requires
        forall|i: int| 0 <= i < items.len() ==> (#[trigger] spec_encode_moderation_tag(items[i])).len() < 0x1_0000_0000_0000_0000,
    ensures
        spec_apply_all(signed_event_applier(), m, repeated_bytes_fields(3, encode_moderation_tags(items))) == Some(SpecSignedEvent { signature: m.signature, event: m.event, moderation_tags: m.moderation_tags + items }),
    decreases items.len(),
{
    if items.len() == 0 {
        assert(repeated_bytes_fields(3, encode_moderation_tags(items)) =~= Seq::<WireField>::empty());
        assert(m.moderation_tags + items =~= m.moderation_tags);
        assert(SpecSignedEvent { signature: m.signature, event: m.event, moderation_tags: m.moderation_tags + items } =~= m);
    } else {
        lemma_repeated_split(3, encode_moderation_tags(items));
        assert(encode_moderation_tags(items).drop_first() =~= encode_moderation_tags(items.drop_first()));
        assert(encode_moderation_tags(items)[0] == spec_encode_moderation_tag(items[0]));
        lemma_moderation_tag_round_trip(items[0]);
        let m1 = SpecSignedEvent { signature: m.signature, event: m.event, moderation_tags: m.moderation_tags.push(items[0]) };
        lemma_apply_concat(signed_event_applier(), m, seq![WireField { tag: 3, value: WireValue::Bytes(encode_moderation_tags(items)[0]) }], repeated_bytes_fields(3, encode_moderation_tags(items.drop_first())));
        lemma_apply_single(signed_event_applier(), m, WireField { tag: 3, value: WireValue::Bytes(encode_moderation_tags(items)[0]) });
        assert forall|i: int| 0 <= i < items.drop_first().len() implies (#[trigger] spec_encode_moderation_tag(items.drop_first()[i])).len() < 0x1_0000_0000_0000_0000 by {
            assert(items.drop_first()[i] == items[i + 1]);
        }
        lemma_signed_event_apply_moderation_tags(m1, items.drop_first());
        assert(m1.moderation_tags + items.drop_first() =~= m.moderation_tags + items);
    }
}

proof fn lemma_signed_event_tags_ok(m: SpecSignedEvent)
    ensures
        fields_tags_ok(signed_event_fields(m)),
{
    lemma_tags_ok_bytes(1, m.signature);
    lemma_tags_ok_bytes(2, m.event);
    lemma_tags_ok_repeated(3, encode_moderation_tags(m.moderation_tags));
    lemma_tags_ok_concat(bytes_field(1, m.signature), bytes_field(2, m.event));
    lemma_tags_ok_concat(bytes_field(1, m.signature) + bytes_field(2, m.event), repeated_bytes_fields(3, encode_moderation_tags(m.moderation_tags)));
}

proof fn lemma_signed_event_part_lengths(m: SpecSignedEvent)
    ensures
        spec_encode_fields(bytes_field(1, m.signature)).len() <= spec_encode_fields(signed_event_fields(m)).len(),
        spec_encode_fields(bytes_field(2, m.event)).len() <= spec_encode_fields(signed_event_fields(m)).len(),
        spec_encode_fields(repeated_bytes_fields(3, encode_moderation_tags(m.moderation_tags))).len() <= spec_encode_fields(signed_event_fields(m)).len(),
{
    broadcast use group_field_lists;

}

proof fn lemma_signed_event_step_signature(m: SpecSignedEvent)
    requires
        spec_encode_fields(bytes_field(1, m.signature)).len() < 0x1_0000_0000_0000_0000,
    ensures
        spec_apply_all(signed_event_applier(), SpecSignedEvent { signature: seq![], event: seq![], moderation_tags: seq![] }, bytes_field(1, m.signature)) == Some(SpecSignedEvent { signature: m.signature, event: seq![], moderation_tags: seq![] }),
{
    let d = SpecSignedEvent { signature: seq![], event: seq![], moderation_tags: seq![] };
    lemma_apply_bytes_field(signed_event_applier(), d, 1, m.signature);
    if m.signature.len() == 0 {
        assert(m.signature =~= Seq::<u8>::empty());
    }
}

proof fn lemma_signed_event_step_event(m: SpecSignedEvent)
    requires
        spec_encode_fields(bytes_field(2, m.event)).len() < 0x1_0000_0000_0000_0000,
    ensures
        spec_apply_all(signed_event_applier(), SpecSignedEvent { signature: m.signature, event: seq![], moderation_tags: seq![] }, bytes_field(2, m.event)) == Some(SpecSignedEvent { signature: m.signature, event: m.event, moderation_tags: seq![] }),
{
    let d = SpecSignedEvent { signature: m.signature, event: seq![], moderation_tags: seq![] };
    lemma_apply_bytes_field(signed_event_applier(), d, 2, m.event);
    if m.event.len() == 0 {
        assert(m.event =~= Seq::<u8>::empty());
    }
}

proof fn lemma_signed_event_step_moderation_tags(m: SpecSignedEvent)
    requires
        spec_encode_fields(repeated_bytes_fields(3, encode_moderation_tags(m.moderation_tags))).len() < 0x1_0000_0000_0000_0000,
    ensures
        spec_apply_all(signed_event_applier(), SpecSignedEvent { signature: m.signature, event: m.event, moderation_tags: seq![] }, repeated_bytes_fields(3, encode_moderation_tags(m.moderation_tags))) == Some(SpecSignedEvent { signature: m.signature, event: m.event, moderation_tags: m.moderation_tags }),
{
    let d = SpecSignedEvent { signature: m.signature, event: m.event, moderation_tags: seq![] };
    lemma_repeated_bounded(3, encode_moderation_tags(m.moderation_tags));
    assert forall|i: int| 0 <= i < m.moderation_tags.len() implies (#[trigger] spec_encode_moderation_tag(m.moderation_tags[i])).len()
        < 0x1_0000_0000_0000_0000 by {
        assert(encode_moderation_tags(m.moderation_tags)[i] == spec_encode_moderation_tag(m.moderation_tags[i]));
    }
    lemma_signed_event_apply_moderation_tags(d, m.moderation_tags);
    assert(d.moderation_tags + m.moderation_tags =~= m.moderation_tags);
}

/// Decoding the encoding of a [`SignedEvent`] gives back the value (for every value
/// whose encoding fits a 64-bit length).
pub proof fn lemma_signed_event_round_trip(m: SpecSignedEvent)
    requires
        spec_encode_signed_event(m).len() < 0x1_0000_0000_0000_0000,
    ensures
        spec_decode_signed_event(spec_encode_signed_event(m)) == Some(m),
{
    let fs = signed_event_fields(m);
    lemma_signed_event_tags_ok(m);
    lemma_decode_fields(signed_event_applier(), default_signed_event(), fs);
    lemma_signed_event_part_lengths(m);
    lemma_signed_event_step_signature(m);
    lemma_signed_event_step_event(m);
    lemma_signed_event_step_moderation_tags(m);
    lemma_apply_concat(signed_event_applier(), default_signed_event(), bytes_field(1, m.signature), bytes_field(2, m.event));
    lemma_apply_concat(signed_event_applier(), default_signed_event(), bytes_field(1, m.signature) + bytes_field(2, m.event), repeated_bytes_fields(3, encode_moderation_tags(m.moderation_tags)));
    assert(SpecSignedEvent { signature: m.signature, event: m.event, moderation_tags: m.moderation_tags } =~= m);
}

/// A list of signed events, as the server takes and gives them.
#[derive(Clone, Debug, PartialEq, Eq, Default)]
pub struct Events {
    pub events: Vec<SignedEvent>,
}

/// The value of an [`Events`].
#[verifier::ext_equal]
pub struct SpecEvents {
    pub events: Seq<SpecSignedEvent>,
}

impl View for Events {
    type V = SpecEvents;

    open spec fn view(&self) -> SpecEvents {
        SpecEvents {
            events: view_signed_events(self.events@),
        }
    }
}

/// The value that decoding starts from: every field at its default.
pub open spec fn default_events() -> SpecEvents {
    SpecEvents { events: seq![] }
}

/// The fields that an [`Events`] is written as, in field-number order; fields
/// at their default are left out.
pub open spec fn events_fields(m: SpecEvents) -> Seq<WireField> {
    repeated_bytes_fields(1, encode_signed_events(m.events))
}

/// The encoding of an [`Events`].
pub open spec fn spec_encode_events(m: SpecEvents) -> Seq<u8> {
    spec_encode_fields(events_fields(m))
}

/// Merges one field into an [`Events`]: a known field number must come with
/// its wire type; fields with other numbers are skipped.
pub open spec fn apply_events(m: SpecEvents, f: WireField) -> Option<SpecEvents> {
    if f.tag == 1 {
        match field_bytes(f) { Some(b) => match spec_decode_signed_event(b) { Some(v) => Some(SpecEvents { events: m.events.push(v) }), None => None }, None => None }
    } else {
        Some(m)
    }
}

pub open spec fn events_applier() -> spec_fn(SpecEvents, WireField) -> Option<SpecEvents> {
    |m: SpecEvents, f: WireField| apply_events(m, f)
}

/// Merges the fields of `b` into `m`.
pub open spec fn spec_merge_events(m: SpecEvents, b: Seq<u8>) -> Option<SpecEvents> {
    spec_merge_with(events_applier(), m, b)
}

/// Decodes an [`Events`]: the fields of `b` merged into the default.
pub open spec fn spec_decode_events(b: Seq<u8>) -> Option<SpecEvents> {
    spec_merge_events(default_events(), b)
}

/// The values of a list of [`Events`]s.
pub open spec fn view_events_list(v: Seq<Events>) -> Seq<SpecEvents> {
    v.map_values(|x: Events| x@)
}

/// The encodings of a list of [`Events`] values.
pub open spec fn encode_events_list(v: Seq<SpecEvents>) -> Seq<Seq<u8>> {
    v.map_values(|x: SpecEvents| spec_encode_events(x))
}

impl Events {
    /// A value with every field at its default.
    pub fn new_default() -> (r: Self)
        ensures
            r@ == default_events(),
    {
        let r = Events { events: Vec::new() };
        assert(r@ =~= default_events());
        r
    }

    /// A copy.
    pub fn duplicate(&self) -> (r: Self)
        ensures
            r@ == self@,
    {
        let r = Events {
            events: duplicate_signed_events(&self.events),
        };
        assert(r@ =~= self@);
        r
    }

    /// The protocol encoding.
    pub fn encode(&self) -> (r: Vec<u8>)
        ensures
            r@ == spec_encode_events(self@),
    {
        broadcast use group_field_lists;

        let mut out: Vec<u8> = Vec::new();
        put_signed_events(1, &self.events, &mut out);
        assert(out@ =~= spec_encode_events(self@));
        out
    }

    fn apply_field(&mut self, buf: &[u8], f: &RawField) -> (ok: bool)
        requires
            raw_field_within(*f, buf@.len()),
        ensures
            match apply_events(old(self)@, raw_field_view(*f, buf@)) {
                Some(m) => ok && final(self)@ == m,
                None => !ok,
            },
    {
        if f.tag == 1 {
            match f.value {
                RawValue::Bytes(s, e) => {
                    let mut sub = SignedEvent::new_default();
                    if sub.merge(buf, s, e) {
                        let ghost before = self.events@;
                        self.events.push(sub);
                        assert(view_signed_events(self.events@) =~= view_signed_events(before).push(sub@));
                        true
                    } else {
                        false
                    }
                },
                _ => false,
            }
        } else {
            true
        }
    }

    /// Merges the fields of `buf[start..end]` into `self`; `false` where the
    /// bytes are not a valid encoding (`self` is then left in no stated state).
    pub fn merge(&mut self, buf: &[u8], start: usize, end: usize) -> (ok: bool)
        requires
            start <= end <= buf@.len(),
        ensures
            match spec_merge_events(old(self)@, buf@.subrange(start as int, end as int)) {
                Some(m) => ok && final(self)@ == m,
                None => !ok,
            },
    {
        let mut pos = start;
        while pos < end
            invariant
                start <= pos <= end <= buf@.len(),
                spec_merge_events(old(self)@, buf@.subrange(start as int, end as int)) == spec_merge_events(
                    self@,
                    buf@.subrange(pos as int, end as int),
                ),
            decreases end - pos,
        {
            match read_field(buf, pos, end) {
                Some((f, next)) => {
                    proof {
                        lemma_merge_step(
                            events_applier(),
                            self@,
                            buf@,
                            pos as nat,
                            next as nat,
                            end as nat,
                            raw_field_view(f, buf@),
                        );
                    }
                    if !self.apply_field(buf, &f) {
                        return false;
                    }
                    pos = next;
                },
                None => {
                    proof {
                        lemma_merge_bad_field(events_applier(), self@, buf@, pos as nat, end as nat);
                    }
                    return false;
                },
            }
        }
        proof {
            lemma_merge_empty(events_applier(), self@, buf@, pos as nat);
        }
        true
    }

    /// Decodes an [`Events`] from its protocol encoding; `None` where the bytes
    /// are not one.
    pub fn decode(buf: &[u8]) -> (r: Option<Self>)
        ensures
            match spec_decode_events(buf@) {
                Some(m) => r matches Some(x) && x@ == m,
                None => r is None,
            },
    {
        let mut m = Events::new_default();
        assert(buf@.subrange(0, buf@.len() as int) =~= buf@);
        if m.merge(buf, 0, buf.len()) {
            Some(m)
        } else {
            None
        }
    }
}

/// Applying the fields of `items` to the `events` of `m` appends them.
proof fn lemma_events_apply_events(m: SpecEvents, items: Seq<SpecSignedEvent>)
    requires
        forall|i: int| 0 <= i < items.len() ==> (#[trigger] spec_encode_signed_event(items[i])).len() < 0x1_0000_0000_0000_0000,
    ensures
        spec_apply_all(events_applier(), m, repeated_bytes_fields(1, encode_signed_events(items))) == Some(SpecEvents { events: m.events + items }),
    decreases items.len(),
{
    if items.len() == 0 {
        assert(repeated_bytes_fields(1, encode_signed_events(items)) =~= Seq::<WireField>::empty());
        assert(m.events + items =~= m.events);
        assert(SpecEvents { events: m.events + items } =~= m);
    } else {
        lemma_repeated_split(1, encode_signed_events(items));
        assert(encode_signed_events(items).drop_first() =~= encode_signed_events(items.drop_first()));
        assert(encode_signed_events(items)[0] == spec_encode_signed_event(items[0]));
        lemma_signed_event_round_trip(items[0]);
        let m1 = SpecEvents { events: m.events.push(items[0]) };
        lemma_apply_concat(events_applier(), m, seq![WireField { tag: 1, value: WireValue::Bytes(encode_signed_events(items)[0]) }], repeated_bytes_fields(1, encode_signed_events(items.drop_first())));
        lemma_apply_single(events_applier(), m, WireField { tag: 1, value: WireValue::Bytes(encode_signed_events(items)[0]) });
        assert forall|i: int| 0 <= i < items.drop_first().len() implies (#[trigger] spec_encode_signed_event(items.drop_first()[i])).len() < 0x1_0000_0000_0000_0000 by {
            assert(items.drop_first()[i] == items[i + 1]);
        }
        lemma_events_apply_events(m1, items.drop_first());
        assert(m1.events + items.drop_first() =~= m.events + items);
    }
}

proof fn lemma_events_tags_ok(m: SpecEvents)
    ensures
        fields_tags_ok(events_fields(m)),
{
    lemma_tags_ok_repeated(1, encode_signed_events(m.events));
}

proof fn lemma_events_part_lengths(m: SpecEvents)
    ensures
        spec_encode_fields(repeated_bytes_fields(1, encode_signed_events(m.events))).len() <= spec_encode_fields(events_fields(m)).len(),
{
    broadcast use group_field_lists;

}

proof fn lemma_events_step_events(m: SpecEvents)
    requires
        spec_encode_fields(repeated_bytes_fields(1, encode_signed_events(m.events))).len() < 0x1_0000_0000_0000_0000,
    ensures
        spec_apply_all(events_applier(), SpecEvents { events: seq![] }, repeated_bytes_fields(1, encode_signed_events(m.events))) == Some(SpecEvents { events: m.events }),
{
    let d = SpecEvents { events: seq![] };
    lemma_repeated_bounded(1, encode_signed_events(m.events));
    assert forall|i: int| 0 <= i < m.events.len() implies (#[trigger] spec_encode_signed_event(m.events[i])).len()
        < 0x1_0000_0000_0000_0000 by {
        assert(encode_signed_events(m.events)[i] == spec_encode_signed_event(m.events[i]));
    }
    lemma_events_apply_events(d, m.events);
    assert(d.events + m.events =~= m.events);
}

/// Decoding the encoding of an [`Events`] gives back the value (for every value
/// whose encoding fits a 64-bit length).
pub proof fn lemma_events_round_trip(m: SpecEvents)
    requires
        spec_encode_events(m).len() < 0x1_0000_0000_0000_0000,
    ensures
        spec_decode_events(spec_encode_events(m)) == Some(m),
{
    let fs = events_fields(m);
    lemma_events_tags_ok(m);
    lemma_decode_fields(events_applier(), default_events(), fs);
    lemma_events_part_lengths(m);
    lemma_events_step_events(m);
    assert(SpecEvents { events: m.events } =~= m);
}

} // verus!
