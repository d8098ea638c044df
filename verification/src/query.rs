//! Queries for references and the answers of the server.

use vstd::prelude::*;
use vstd::utf8::*;

use crate::wire::{
    bytes_field, field_bytes, field_varint, group_field_lists, lemma_apply_bytes_field, lemma_apply_concat,
    lemma_apply_opt_bytes_field, lemma_apply_opt_uint_field, lemma_apply_packed_field, lemma_apply_single,
    lemma_decode_fields, lemma_encode_fields_concat, lemma_encode_single_field, lemma_field_payload_le,
    lemma_merge_bad_field, lemma_merge_empty, lemma_merge_step, lemma_parse_packed, lemma_repeated_bounded,
    lemma_repeated_split, merge_packed, opt_bytes_field, opt_uint_field, packed_field, put_bytes, put_bytes_always,
    put_opt_bytes, put_opt_uint, put_packed, put_repeated_bytes, raw_bytes, raw_field_view, raw_field_within,
    raw_merge_packed, raw_varint, read_field, repeated_bytes_fields, spec_apply_all, fields_tags_ok,
    spec_encode_fields, spec_merge_with, view_byte_strings, RawField, RawValue, WireField, WireValue,
    lemma_tags_ok_bytes, lemma_tags_ok_opt_uint, lemma_tags_ok_opt_bytes, lemma_tags_ok_repeated,
    lemma_tags_ok_packed, lemma_tags_ok_concat,
};
use crate::wire::duplicate_byte_strings;
use crate::event::{
    Events, Reference, SignedEvent, SpecEvents, SpecReference, SpecSignedEvent, default_events, default_reference,
    default_signed_event, duplicate_signed_events, encode_signed_events, lemma_events_round_trip,
    lemma_reference_round_trip, lemma_signed_event_round_trip, put_signed_events, spec_decode_signed_event,
    spec_encode_events, spec_encode_reference, spec_encode_signed_event, spec_merge_events, spec_merge_reference,
    spec_merge_signed_event, view_signed_events,
};

verus! {

/// Asks for counts of last-writer-wins values among the referencing events.
#[derive(Clone, Debug, PartialEq, Eq, Default)]
pub struct QueryReferencesRequestCountLwwElementReferences {
    pub value: Vec<u8>,
    pub from_type: Option<u64>,
}

/// The value of a [`QueryReferencesRequestCountLwwElementReferences`].
#[verifier::ext_equal]
pub struct SpecQueryReferencesRequestCountLwwElementReferences {
    pub value: Seq<u8>,
    pub from_type: Option<u64>,
}

impl View for QueryReferencesRequestCountLwwElementReferences {
    type V = SpecQueryReferencesRequestCountLwwElementReferences;

    open spec fn view(&self) -> SpecQueryReferencesRequestCountLwwElementReferences {
        SpecQueryReferencesRequestCountLwwElementReferences {
            value: self.value@,
            from_type: self.from_type,
        }
    }
}

/// The value that decoding starts from: every field at its default.
pub open spec fn default_query_references_request_count_lww_element_references() -> SpecQueryReferencesRequestCountLwwElementReferences {
    SpecQueryReferencesRequestCountLwwElementReferences { value: seq![], from_type: None }
}

/// The fields that a [`QueryReferencesRequestCountLwwElementReferences`] is written as, in field-number order; fields
/// at their default are left out.
pub open spec fn query_references_request_count_lww_element_references_fields(m: SpecQueryReferencesRequestCountLwwElementReferences) -> Seq<WireField> {
    bytes_field(1, m.value)
        + opt_uint_field(2, m.from_type)
}

/// The encoding of a [`QueryReferencesRequestCountLwwElementReferences`].
pub open spec fn spec_encode_query_references_request_count_lww_element_references(m: SpecQueryReferencesRequestCountLwwElementReferences) -> Seq<u8> {
    spec_encode_fields(query_references_request_count_lww_element_references_fields(m))
}

/// Merges one field into a [`QueryReferencesRequestCountLwwElementReferences`]: a known field number must come with
/// its wire type; fields with other numbers are skipped.
pub open spec fn apply_query_references_request_count_lww_element_references(m: SpecQueryReferencesRequestCountLwwElementReferences, f: WireField) -> Option<SpecQueryReferencesRequestCountLwwElementReferences> {
    if f.tag == 1 {
        match field_bytes(f) { Some(b) => Some(SpecQueryReferencesRequestCountLwwElementReferences { value: b, from_type: m.from_type }), None => None }
    } else if f.tag == 2 {
        match field_varint(f) { Some(v) => Some(SpecQueryReferencesRequestCountLwwElementReferences { value: m.value, from_type: Some(v) }), None => None }
    } else {
        Some(m)
    }
}

pub open spec fn query_references_request_count_lww_element_references_applier() -> spec_fn(SpecQueryReferencesRequestCountLwwElementReferences, WireField) -> Option<SpecQueryReferencesRequestCountLwwElementReferences> {
    |m: SpecQueryReferencesRequestCountLwwElementReferences, f: WireField| apply_query_references_request_count_lww_element_references(m, f)
}

/// Merges the fields of `b` into `m`.
pub open spec fn spec_merge_query_references_request_count_lww_element_references(m: SpecQueryReferencesRequestCountLwwElementReferences, b: Seq<u8>) -> Option<SpecQueryReferencesRequestCountLwwElementReferences> {
    spec_merge_with(query_references_request_count_lww_element_references_applier(), m, b)
}

/// Decodes a [`QueryReferencesRequestCountLwwElementReferences`]: the fields of `b` merged into the default.
pub open spec fn spec_decode_query_references_request_count_lww_element_references(b: Seq<u8>) -> Option<SpecQueryReferencesRequestCountLwwElementReferences> {
    spec_merge_query_references_request_count_lww_element_references(default_query_references_request_count_lww_element_references(), b)
}

/// The values of a list of [`QueryReferencesRequestCountLwwElementReferences`]s.
pub open spec fn view_query_references_request_count_lww_element_references_list(v: Seq<QueryReferencesRequestCountLwwElementReferences>) -> Seq<SpecQueryReferencesRequestCountLwwElementReferences> {
    v.map_values(|x: QueryReferencesRequestCountLwwElementReferences| x@)
}

/// The encodings of a list of [`QueryReferencesRequestCountLwwElementReferences`] values.
pub open spec fn encode_query_references_request_count_lww_element_references_list(v: Seq<SpecQueryReferencesRequestCountLwwElementReferences>) -> Seq<Seq<u8>> {
    v.map_values(|x: SpecQueryReferencesRequestCountLwwElementReferences| spec_encode_query_references_request_count_lww_element_references(x))
}

impl QueryReferencesRequestCountLwwElementReferences {
    /// A value with every field at its default.
    pub fn new_default() -> (r: Self)
        ensures
            r@ == default_query_references_request_count_lww_element_references(),
    {
        let r = QueryReferencesRequestCountLwwElementReferences { value: Vec::new(), from_type: None };
        assert(r@ =~= default_query_references_request_count_lww_element_references());
        r
    }

    /// A copy.
    pub fn duplicate(&self) -> (r: Self)
        ensures
            r@ == self@,
    {
        let r = QueryReferencesRequestCountLwwElementReferences {
            value: vstd::slice::slice_to_vec(self.value.as_slice()),
            from_type: self.from_type,
        };
        assert(r@ =~= self@);
        r
    }

    /// The protocol encoding.
    pub fn encode(&self) -> (r: Vec<u8>)
        ensures
            r@ == spec_encode_query_references_request_count_lww_element_references(self@),
    {
        broadcast use group_field_lists;

        let mut out: Vec<u8> = Vec::new();
        put_bytes(1, self.value.as_slice(), &mut out);
        put_opt_uint(2, self.from_type, &mut out);
        assert(out@ =~= spec_encode_query_references_request_count_lww_element_references(self@));
        out
    }

    fn apply_field(&mut self, buf: &[u8], f: &RawField) -> (ok: bool)
        requires
            raw_field_within(*f, buf@.len()),
        ensures
            match apply_query_references_request_count_lww_element_references(old(self)@, raw_field_view(*f, buf@)) {
                Some(m) => ok && final(self)@ == m,
                None => !ok,
            },
    {
        if f.tag == 1 {
            match raw_bytes(buf, f) { Some(b) => { self.value = b; true }, None => false }
        } else if f.tag == 2 {
            match raw_varint(f) { Some(v) => { self.from_type = Some(v); true }, None => false }
        } else {
            true
        }
    }

    /// Merges the fields of `buf[start..end]` into `self`; `false` where the
    /// bytes are not a valid encoding (`self` is then left in no stated state).
    pub fn merge(&mut self, buf: &[u8], start: usize, end: usize) -> (ok: bool)
        requires
            start <= end <= buf@.len(),
        ensures
            match spec_merge_query_references_request_count_lww_element_references(old(self)@, buf@.subrange(start as int, end as int)) {
                Some(m) => ok && final(self)@ == m,
                None => !ok,
            },
    {
        let mut pos = start;
        while pos < end
            invariant
                start <= pos <= end <= buf@.len(),
                spec_merge_query_references_request_count_lww_element_references(old(self)@, buf@.subrange(start as int, end as int)) == spec_merge_query_references_request_count_lww_element_references(
                    self@,
                    buf@.subrange(pos as int, end as int),
                ),
            decreases end - pos,
        {
            match read_field(buf, pos, end) {
                Some((f, next)) => {
                    proof {
                        lemma_merge_step(
                            query_references_request_count_lww_element_references_applier(),
                            self@,
                            buf@,
                            pos as nat,
                            next as nat,
                            end as nat,
                            raw_field_view(f, buf@),
                        );
                    }
                    if !self.apply_field(buf, &f) {
                        return false;
                    }
                    pos = next;
                },
                None => {
                    proof {
                        lemma_merge_bad_field(query_references_request_count_lww_element_references_applier(), self@, buf@, pos as nat, end as nat);
                    }
                    return false;
                },
            }
        }
        proof {
            lemma_merge_empty(query_references_request_count_lww_element_references_applier(), self@, buf@, pos as nat);
        }
        true
    }

    /// Decodes a [`QueryReferencesRequestCountLwwElementReferences`] from its protocol encoding; `None` where the bytes
    /// are not one.
    pub fn decode(buf: &[u8]) -> (r: Option<Self>)
        ensures
            match spec_decode_query_references_request_count_lww_element_references(buf@) {
                Some(m) => r matches Some(x) && x@ == m,
                None => r is None,
            },
    {
        let mut m = QueryReferencesRequestCountLwwElementReferences::new_default();
        assert(buf@.subrange(0, buf@.len() as int) =~= buf@);
        if m.merge(buf, 0, buf.len()) {
            Some(m)
        } else {
            None
        }
    }
}

/// Appends one field per item of `items`, each holding the item's encoding.
pub fn put_query_references_request_count_lww_element_references_list(tag: u64, items: &Vec<QueryReferencesRequestCountLwwElementReferences>, out: &mut Vec<u8>)
    requires
        1 <= tag <= 0x1fff_ffff,
    ensures
        final(out)@ == old(out)@ + spec_encode_fields(
            repeated_bytes_fields(tag as nat, encode_query_references_request_count_lww_element_references_list(view_query_references_request_count_lww_element_references_list(items@))),
        ),
{
    let ghost all = encode_query_references_request_count_lww_element_references_list(view_query_references_request_count_lww_element_references_list(items@));
    let mut i: usize = 0;
    while i < items.len()
        invariant
            1 <= tag <= 0x1fff_ffff,
            i <= items@.len(),
            all == encode_query_references_request_count_lww_element_references_list(view_query_references_request_count_lww_element_references_list(items@)),
            out@ == old(out)@ + spec_encode_fields(repeated_bytes_fields(tag as nat, all.take(i as int))),
        decreases items@.len() - i,
    {
        let e = items[i].encode();
        put_bytes_always(tag, e.as_slice(), out);
        let ghost f = WireField { tag: tag as nat, value: WireValue::Bytes(e@) };
        let ghost prev = repeated_bytes_fields(tag as nat, all.take(i as int));
        assert(all[i as int] == e@);
        assert(repeated_bytes_fields(tag as nat, all.take(i + 1)) =~= prev + seq![f]);
        proof {
            lemma_encode_fields_concat(prev, seq![f]);
            lemma_encode_single_field(f);
        }
        assert(out@ =~= old(out)@ + spec_encode_fields(prev + seq![f]));
        i = i + 1;
    }
    assert(all.take(i as int) =~= all);
}

/// A copy of a list of [`QueryReferencesRequestCountLwwElementReferences`]s.
pub fn duplicate_query_references_request_count_lww_element_references_list(items: &Vec<QueryReferencesRequestCountLwwElementReferences>) -> (r: Vec<QueryReferencesRequestCountLwwElementReferences>)
    ensures
        view_query_references_request_count_lww_element_references_list(r@) == view_query_references_request_count_lww_element_references_list(items@),
{
    let mut r: Vec<QueryReferencesRequestCountLwwElementReferences> = Vec::new();
    let mut i: usize = 0;
    while i < items.len()
        invariant
            i <= items@.len(),
            view_query_references_request_count_lww_element_references_list(r@) == view_query_references_request_count_lww_element_references_list(items@).take(i as int),
        decreases items@.len() - i,
    {
        let ghost before = r@;
        let d = items[i].duplicate();
        r.push(d);
        assert(view_query_references_request_count_lww_element_references_list(r@) =~= view_query_references_request_count_lww_element_references_list(before).push(d@));
        assert(view_query_references_request_count_lww_element_references_list(items@).take(i + 1) =~= view_query_references_request_count_lww_element_references_list(items@).take(i as int).push(items@[i as int]@));
        i = i + 1;
    }
    assert(view_query_references_request_count_lww_element_references_list(items@).take(i as int) =~= view_query_references_request_count_lww_element_references_list(items@));
    r
}

proof fn lemma_query_references_request_count_lww_element_references_tags_ok(m: SpecQueryReferencesRequestCountLwwElementReferences)
    ensures
        fields_tags_ok(query_references_request_count_lww_element_references_fields(m)),
{
    lemma_tags_ok_bytes(1, m.value);
    lemma_tags_ok_opt_uint(2, m.from_type);
    lemma_tags_ok_concat(bytes_field(1, m.value), opt_uint_field(2, m.from_type));
}

proof fn lemma_query_references_request_count_lww_element_references_part_lengths(m: SpecQueryReferencesRequestCountLwwElementReferences)
    ensures
        spec_encode_fields(bytes_field(1, m.value)).len() <= spec_encode_fields(query_references_request_count_lww_element_references_fields(m)).len(),
        spec_encode_fields(opt_uint_field(2, m.from_type)).len() <= spec_encode_fields(query_references_request_count_lww_element_references_fields(m)).len(),
{
    broadcast use group_field_lists;

}

proof fn lemma_query_references_request_count_lww_element_references_step_value(m: SpecQueryReferencesRequestCountLwwElementReferences)
    requires
        spec_encode_fields(bytes_field(1, m.value)).len() < 0x1_0000_0000_0000_0000,
    ensures
        spec_apply_all(query_references_request_count_lww_element_references_applier(), SpecQueryReferencesRequestCountLwwElementReferences { value: seq![], from_type: None }, bytes_field(1, m.value)) == Some(SpecQueryReferencesRequestCountLwwElementReferences { value: m.value, from_type: None }),
{
    let d = SpecQueryReferencesRequestCountLwwElementReferences { value: seq![], from_type: None };
    lemma_apply_bytes_field(query_references_request_count_lww_element_references_applier(), d, 1, m.value);
    if m.value.len() == 0 {
        assert(m.value =~= Seq::<u8>::empty());
    }
}

proof fn lemma_query_references_request_count_lww_element_references_step_from_type(m: SpecQueryReferencesRequestCountLwwElementReferences)
    requires
        spec_encode_fields(opt_uint_field(2, m.from_type)).len() < 0x1_0000_0000_0000_0000,
    ensures
        spec_apply_all(query_references_request_count_lww_element_references_applier(), SpecQueryReferencesRequestCountLwwElementReferences { value: m.value, from_type: None }, opt_uint_field(2, m.from_type)) == Some(SpecQueryReferencesRequestCountLwwElementReferences { value: m.value, from_type: m.from_type }),
{
    let d = SpecQueryReferencesRequestCountLwwElementReferences { value: m.value, from_type: None };
    lemma_apply_opt_uint_field(query_references_request_count_lww_element_references_applier(), d, 2, m.from_type);
}

/// Decoding the encoding of a [`QueryReferencesRequestCountLwwElementReferences`] gives back the value (for every value
/// whose encoding fits a 64-bit length).
pub proof fn lemma_query_references_request_count_lww_element_references_round_trip(m: SpecQueryReferencesRequestCountLwwElementReferences)
    requires
        spec_encode_query_references_request_count_lww_element_references(m).len() < 0x1_0000_0000_0000_0000,
    ensures
        spec_decode_query_references_request_count_lww_element_references(spec_encode_query_references_request_count_lww_element_references(m)) == Some(m),
{
    let fs = query_references_request_count_lww_element_references_fields(m);
    lemma_query_references_request_count_lww_element_references_tags_ok(m);
    lemma_decode_fields(query_references_request_count_lww_element_references_applier(), default_query_references_request_count_lww_element_references(), fs);
    lemma_query_references_request_count_lww_element_references_part_lengths(m);
    lemma_query_references_request_count_lww_element_references_step_value(m);
    lemma_query_references_request_count_lww_element_references_step_from_type(m);
    lemma_apply_concat(query_references_request_count_lww_element_references_applier(), default_query_references_request_count_lww_element_references(), bytes_field(1, m.value), opt_uint_field(2, m.from_type));
    assert(SpecQueryReferencesRequestCountLwwElementReferences { value: m.value, from_type: m.from_type } =~= m);
}

/// Asks for counts of the referencing events of a content type.
#[derive(Clone, Debug, PartialEq, Eq, Default)]
pub struct QueryReferencesRequestCountReferences {
    pub from_type: Option<u64>,
}

/// The value of a [`QueryReferencesRequestCountReferences`].
#[verifier::ext_equal]
pub struct SpecQueryReferencesRequestCountReferences {
    pub from_type: Option<u64>,
}

impl View for QueryReferencesRequestCountReferences {
    type V = SpecQueryReferencesRequestCountReferences;

    open spec fn view(&self) -> SpecQueryReferencesRequestCountReferences {
        SpecQueryReferencesRequestCountReferences {
            from_type: self.from_type,
        }
    }
}

/// The value that decoding starts from: every field at its default.
pub open spec fn default_query_references_request_count_references() -> SpecQueryReferencesRequestCountReferences {
    SpecQueryReferencesRequestCountReferences { from_type: None }
}

/// The fields that a [`QueryReferencesRequestCountReferences`] is written as, in field-number order; fields
/// at their default are left out.
pub open spec fn query_references_request_count_references_fields(m: SpecQueryReferencesRequestCountReferences) -> Seq<WireField> {
    opt_uint_field(1, m.from_type)
}

/// The encoding of a [`QueryReferencesRequestCountReferences`].
pub open spec fn spec_encode_query_references_request_count_references(m: SpecQueryReferencesRequestCountReferences) -> Seq<u8> {
    spec_encode_fields(query_references_request_count_references_fields(m))
}

/// Merges one field into a [`QueryReferencesRequestCountReferences`]: a known field number must come with
/// its wire type; fields with other numbers are skipped.
pub open spec fn apply_query_references_request_count_references(m: SpecQueryReferencesRequestCountReferences, f: WireField) -> Option<SpecQueryReferencesRequestCountReferences> {
    if f.tag == 1 {
        match field_varint(f) { Some(v) => Some(SpecQueryReferencesRequestCountReferences { from_type: Some(v) }), None => None }
    } else {
        Some(m)
    }
}

pub open spec fn query_references_request_count_references_applier() -> spec_fn(SpecQueryReferencesRequestCountReferences, WireField) -> Option<SpecQueryReferencesRequestCountReferences> {
    |m: SpecQueryReferencesRequestCountReferences, f: WireField| apply_query_references_request_count_references(m, f)
}

/// Merges the fields of `b` into `m`.
pub open spec fn spec_merge_query_references_request_count_references(m: SpecQueryReferencesRequestCountReferences, b: Seq<u8>) -> Option<SpecQueryReferencesRequestCountReferences> {
    spec_merge_with(query_references_request_count_references_applier(), m, b)
}

/// Decodes a [`QueryReferencesRequestCountReferences`]: the fields of `b` merged into the default.
pub open spec fn spec_decode_query_references_request_count_references(b: Seq<u8>) -> Option<SpecQueryReferencesRequestCountReferences> {
    spec_merge_query_references_request_count_references(default_query_references_request_count_references(), b)
}

/// The values of a list of [`QueryReferencesRequestCountReferences`]s.
pub open spec fn view_query_references_request_count_references_list(v: Seq<QueryReferencesRequestCountReferences>) -> Seq<SpecQueryReferencesRequestCountReferences> {
    v.map_values(|x: QueryReferencesRequestCountReferences| x@)
}

/// The encodings of a list of [`QueryReferencesRequestCountReferences`] values.
pub open spec fn encode_query_references_request_count_references_list(v: Seq<SpecQueryReferencesRequestCountReferences>) -> Seq<Seq<u8>> {
    v.map_values(|x: SpecQueryReferencesRequestCountReferences| spec_encode_query_references_request_count_references(x))
}

impl QueryReferencesRequestCountReferences {
    /// A value with every field at its default.
    pub fn new_default() -> (r: Self)
        ensures
            r@ == default_query_references_request_count_references(),
    {
        let r = QueryReferencesRequestCountReferences { from_type: None };
        assert(r@ =~= default_query_references_request_count_references());
        r
    }

    /// A copy.
    pub fn duplicate(&self) -> (r: Self)
        ensures
            r@ == self@,
    {
        let r = QueryReferencesRequestCountReferences {
            from_type: self.from_type,
        };
        assert(r@ =~= self@);
        r
    }

    /// The protocol encoding.
    pub fn encode(&self) -> (r: Vec<u8>)
        ensures
            r@ == spec_encode_query_references_request_count_references(self@),
    {
        broadcast use group_field_lists;

        let mut out: Vec<u8> = Vec::new();
        put_opt_uint(1, self.from_type, &mut out);
        assert(out@ =~= spec_encode_query_references_request_count_references(self@));
        out
    }

    fn apply_field(&mut self, buf: &[u8], f: &RawField) -> (ok: bool)
        requires
            raw_field_within(*f, buf@.len()),
        ensures
            match apply_query_references_request_count_references(old(self)@, raw_field_view(*f, buf@)) {
                Some(m) => ok && final(self)@ == m,
                None => !ok,
            },
    {
        if f.tag == 1 {
            match raw_varint(f) { Some(v) => { self.from_type = Some(v); true }, None => false }
        } else {
            true
        }
    }

    /// Merges the fields of `buf[start..end]` into `self`; `false` where the
    /// bytes are not a valid encoding (`self` is then left in no stated state).
    pub fn merge(&mut self, buf: &[u8], start: usize, end: usize) -> (ok: bool)
        requires
            start <= end <= buf@.len(),
        ensures
            match spec_merge_query_references_request_count_references(old(self)@, buf@.subrange(start as int, end as int)) {
                Some(m) => ok && final(self)@ == m,
                None => !ok,
            },
    {
        let mut pos = start;
        while pos < end
            invariant
                start <= pos <= end <= buf@.len(),
                spec_merge_query_references_request_count_references(old(self)@, buf@.subrange(start as int, end as int)) == spec_merge_query_references_request_count_references(
                    self@,
                    buf@.subrange(pos as int, end as int),
                ),
            decreases end - pos,
        {
            match read_field(buf, pos, end) {
                Some((f, next)) => {
                    proof {
                        lemma_merge_step(
                            query_references_request_count_references_applier(),
                            self@,
                            buf@,
                            pos as nat,
                            next as nat,
                            end as nat,
                            raw_field_view(f, buf@),
                        );
                    }
                    if !self.apply_field(buf, &f) {
                        return false;
                    }
                    pos = next;
                },
                None => {
                    proof {
                        lemma_merge_bad_field(query_references_request_count_references_applier(), self@, buf@, pos as nat, end as nat);
                    }
                    return false;
                },
            }
        }
        proof {
            lemma_merge_empty(query_references_request_count_references_applier(), self@, buf@, pos as nat);
        }
        true
    }

    /// Decodes a [`QueryReferencesRequestCountReferences`] from its protocol encoding; `None` where the bytes
    /// are not one.
    pub fn decode(buf: &[u8]) -> (r: Option<Self>)
        ensures
            match spec_decode_query_references_request_count_references(buf@) {
                Some(m) => r matches Some(x) && x@ == m,
                None => r is None,
            },
    {
        let mut m = QueryReferencesRequestCountReferences::new_default();
        assert(buf@.subrange(0, buf@.len() as int) =~= buf@);
        if m.merge(buf, 0, buf.len()) {
            Some(m)
        } else {
            None
        }
    }
}

/// Appends one field per item of `items`, each holding the item's encoding.
pub fn put_query_references_request_count_references_list(tag: u64, items: &Vec<QueryReferencesRequestCountReferences>, out: &mut Vec<u8>)
    requires
        1 <= tag <= 0x1fff_ffff,
    ensures
        final(out)@ == old(out)@ + spec_encode_fields(
            repeated_bytes_fields(tag as nat, encode_query_references_request_count_references_list(view_query_references_request_count_references_list(items@))),
        ),
{
    let ghost all = encode_query_references_request_count_references_list(view_query_references_request_count_references_list(items@));
    let mut i: usize = 0;
    while i < items.len()
        invariant
            1 <= tag <= 0x1fff_ffff,
            i <= items@.len(),
            all == encode_query_references_request_count_references_list(view_query_references_request_count_references_list(items@)),
            out@ == old(out)@ + spec_encode_fields(repeated_bytes_fields(tag as nat, all.take(i as int))),
        decreases items@.len() - i,
    {
        let e = items[i].encode();
        put_bytes_always(tag, e.as_slice(), out);
        let ghost f = WireField { tag: tag as nat, value: WireValue::Bytes(e@) };
        let ghost prev = repeated_bytes_fields(tag as nat, all.take(i as int));
        assert(all[i as int] == e@);
        assert(repeated_bytes_fields(tag as nat, all.take(i + 1)) =~= prev + seq![f]);
        proof {
            lemma_encode_fields_concat(prev, seq![f]);
            lemma_encode_single_field(f);
        }
        assert(out@ =~= old(out)@ + spec_encode_fields(prev + seq![f]));
        i = i + 1;
    }
    assert(all.take(i as int) =~= all);
}

/// A copy of a list of [`QueryReferencesRequestCountReferences`]s.
pub fn duplicate_query_references_request_count_references_list(items: &Vec<QueryReferencesRequestCountReferences>) -> (r: Vec<QueryReferencesRequestCountReferences>)
    ensures
        view_query_references_request_count_references_list(r@) == view_query_references_request_count_references_list(items@),
{
    let mut r: Vec<QueryReferencesRequestCountReferences> = Vec::new();
    let mut i: usize = 0;
    while i < items.len()
        invariant
            i <= items@.len(),
            view_query_references_request_count_references_list(r@) == view_query_references_request_count_references_list(items@).take(i as int),
        decreases items@.len() - i,
    {
        let ghost before = r@;
        let d = items[i].duplicate();
        r.push(d);
        assert(view_query_references_request_count_references_list(r@) =~= view_query_references_request_count_references_list(before).push(d@));
        assert(view_query_references_request_count_references_list(items@).take(i + 1) =~= view_query_references_request_count_references_list(items@).take(i as int).push(items@[i as int]@));
        i = i + 1;
    }
    assert(view_query_references_request_count_references_list(items@).take(i as int) =~= view_query_references_request_count_references_list(items@));
    r
}

proof fn lemma_query_references_request_count_references_tags_ok(m: SpecQueryReferencesRequestCountReferences)
    ensures
        fields_tags_ok(query_references_request_count_references_fields(m)),
{
    lemma_tags_ok_opt_uint(1, m.from_type);
}

proof fn lemma_query_references_request_count_references_part_lengths(m: SpecQueryReferencesRequestCountReferences)
    ensures
        spec_encode_fields(opt_uint_field(1, m.from_type)).len() <= spec_encode_fields(query_references_request_count_references_fields(m)).len(),
{
    broadcast use group_field_lists;

}

proof fn lemma_query_references_request_count_references_step_from_type(m: SpecQueryReferencesRequestCountReferences)
    requires
        spec_encode_fields(opt_uint_field(1, m.from_type)).len() < 0x1_0000_0000_0000_0000,
    ensures
        spec_apply_all(query_references_request_count_references_applier(), SpecQueryReferencesRequestCountReferences { from_type: None }, opt_uint_field(1, m.from_type)) == Some(SpecQueryReferencesRequestCountReferences { from_type: m.from_type }),
{
    let d = SpecQueryReferencesRequestCountReferences { from_type: None };
    lemma_apply_opt_uint_field(query_references_request_count_references_applier(), d, 1, m.from_type);
}

/// Decoding the encoding of a [`QueryReferencesRequestCountReferences`] gives back the value (for every value
/// whose encoding fits a 64-bit length).
pub proof fn lemma_query_references_request_count_references_round_trip(m: SpecQueryReferencesRequestCountReferences)
    requires
        spec_encode_query_references_request_count_references(m).len() < 0x1_0000_0000_0000_0000,
    ensures
        spec_decode_query_references_request_count_references(spec_encode_query_references_request_count_references(m)) == Some(m),
{
    let fs = query_references_request_count_references_fields(m);
    lemma_query_references_request_count_references_tags_ok(m);
    lemma_decode_fields(query_references_request_count_references_applier(), default_query_references_request_count_references(), fs);
    lemma_query_references_request_count_references_part_lengths(m);
    lemma_query_references_request_count_references_step_from_type(m);
    assert(SpecQueryReferencesRequestCountReferences { from_type: m.from_type } =~= m);
}

/// Asks for the referencing events themselves, of a content type.
#[derive(Clone, Debug, PartialEq, Eq, Default)]
pub struct QueryReferencesRequestEvents {
    pub from_type: Option<u64>,
    pub count_lww_element_references: Vec<QueryReferencesRequestCountLwwElementReferences>,
    pub count_references: Vec<QueryReferencesRequestCountReferences>,
}

/// The value of a [`QueryReferencesRequestEvents`].
#[verifier::ext_equal]
pub struct SpecQueryReferencesRequestEvents {
    pub from_type: Option<u64>,
    pub count_lww_element_references: Seq<SpecQueryReferencesRequestCountLwwElementReferences>,
    pub count_references: Seq<SpecQueryReferencesRequestCountReferences>,
}

impl View for QueryReferencesRequestEvents {
    type V = SpecQueryReferencesRequestEvents;

    open spec fn view(&self) -> SpecQueryReferencesRequestEvents {
        SpecQueryReferencesRequestEvents {
            from_type: self.from_type,
            count_lww_element_references: view_query_references_request_count_lww_element_references_list(self.count_lww_element_references@),
            count_references: view_query_references_request_count_references_list(self.count_references@),
        }
    }
}

/// The value that decoding starts from: every field at its default.
pub open spec fn default_query_references_request_events() -> SpecQueryReferencesRequestEvents {
    SpecQueryReferencesRequestEvents { from_type: None, count_lww_element_references: seq![], count_references: seq![] }
}

/// The fields that a [`QueryReferencesRequestEvents`] is written as, in field-number order; fields
/// at their default are left out.
pub open spec fn query_references_request_events_fields(m: SpecQueryReferencesRequestEvents) -> Seq<WireField> {
    opt_uint_field(1, m.from_type)
        + repeated_bytes_fields(2, encode_query_references_request_count_lww_element_references_list(m.count_lww_element_references))
        + repeated_bytes_fields(3, encode_query_references_request_count_references_list(m.count_references))
}

/// The encoding of a [`QueryReferencesRequestEvents`].
pub open spec fn spec_encode_query_references_request_events(m: SpecQueryReferencesRequestEvents) -> Seq<u8> {
    spec_encode_fields(query_references_request_events_fields(m))
}

/// Merges one field into a [`QueryReferencesRequestEvents`]: a known field number must come with
/// its wire type; fields with other numbers are skipped.
pub open spec fn apply_query_references_request_events(m: SpecQueryReferencesRequestEvents, f: WireField) -> Option<SpecQueryReferencesRequestEvents> {
    if f.tag == 1 {
        match field_varint(f) { Some(v) => Some(SpecQueryReferencesRequestEvents { from_type: Some(v), count_lww_element_references: m.count_lww_element_references, count_references: m.count_references }), None => None }
    } else if f.tag == 2 {
        match field_bytes(f) { Some(b) => match spec_decode_query_references_request_count_lww_element_references(b) { Some(v) => Some(SpecQueryReferencesRequestEvents { from_type: m.from_type, count_lww_element_references: m.count_lww_element_references.push(v), count_references: m.count_references }), None => None }, None => None }
    } else if f.tag == 3 {
        match field_bytes(f) { Some(b) => match spec_decode_query_references_request_count_references(b) { Some(v) => Some(SpecQueryReferencesRequestEvents { from_type: m.from_type, count_lww_element_references: m.count_lww_element_references, count_references: m.count_references.push(v) }), None => None }, None => None }
    } else {
        Some(m)
    }
}

pub open spec fn query_references_request_events_applier() -> spec_fn(SpecQueryReferencesRequestEvents, WireField) -> Option<SpecQueryReferencesRequestEvents> {
    |m: SpecQueryReferencesRequestEvents, f: WireField| apply_query_references_request_events(m, f)
}

/// Merges the fields of `b` into `m`.
pub open spec fn spec_merge_query_references_request_events(m: SpecQueryReferencesRequestEvents, b: Seq<u8>) -> Option<SpecQueryReferencesRequestEvents> {
    spec_merge_with(query_references_request_events_applier(), m, b)
}

/// Decodes a [`QueryReferencesRequestEvents`]: the fields of `b` merged into the default.
pub open spec fn spec_decode_query_references_request_events(b: Seq<u8>) -> Option<SpecQueryReferencesRequestEvents> {
    spec_merge_query_references_request_events(default_query_references_request_events(), b)
}

/// The values of a list of [`QueryReferencesRequestEvents`]s.
pub open spec fn view_query_references_request_events_list(v: Seq<QueryReferencesRequestEvents>) -> Seq<SpecQueryReferencesRequestEvents> {
    v.map_values(|x: QueryReferencesRequestEvents| x@)
}

/// The encodings of a list of [`QueryReferencesRequestEvents`] values.
pub open spec fn encode_query_references_request_events_list(v: Seq<SpecQueryReferencesRequestEvents>) -> Seq<Seq<u8>> {
    v.map_values(|x: SpecQueryReferencesRequestEvents| spec_encode_query_references_request_events(x))
}

impl QueryReferencesRequestEvents {
    /// A value with every field at its default.
    pub fn new_default() -> (r: Self)
        ensures
            r@ == default_query_references_request_events(),
    {
        let r = QueryReferencesRequestEvents { from_type: None, count_lww_element_references: Vec::new(), count_references: Vec::new() };
        assert(r@ =~= default_query_references_request_events());
        r
    }

    /// A copy.
    pub fn duplicate(&self) -> (r: Self)
        ensures
            r@ == self@,
    {
        let r = QueryReferencesRequestEvents {
            from_type: self.from_type,
            count_lww_element_references: duplicate_query_references_request_count_lww_element_references_list(&self.count_lww_element_references),
            count_references: duplicate_query_references_request_count_references_list(&self.count_references),
        };
        assert(r@ =~= self@);
        r
    }

    /// The protocol encoding.
    pub fn encode(&self) -> (r: Vec<u8>)
        ensures
            r@ == spec_encode_query_references_request_events(self@),
    {
        broadcast use group_field_lists;

        let mut out: Vec<u8> = Vec::new();
        put_opt_uint(1, self.from_type, &mut out);
        put_query_references_request_count_lww_element_references_list(2, &self.count_lww_element_references, &mut out);
        put_query_references_request_count_references_list(3, &self.count_references, &mut out);
        assert(out@ =~= spec_encode_query_references_request_events(self@));
        out
    }

    fn apply_field(&mut self, buf: &[u8], f: &RawField) -> (ok: bool)
        requires
            raw_field_within(*f, buf@.len()),
        ensures
            match apply_query_references_request_events(old(self)@, raw_field_view(*f, buf@)) {
                Some(m) => ok && final(self)@ == m,
                None => !ok,
            },
    {
        if f.tag == 1 {
            match raw_varint(f) { Some(v) => { self.from_type = Some(v); true }, None => false }
        } else if f.tag == 2 {
            match f.value {
                RawValue::Bytes(s, e) => {
                    let mut sub = QueryReferencesRequestCountLwwElementReferences::new_default();
                    if sub.merge(buf, s, e) {
                        let ghost before = self.count_lww_element_references@;
                        self.count_lww_element_references.push(sub);
                        assert(view_query_references_request_count_lww_element_references_list(self.count_lww_element_references@) =~= view_query_references_request_count_lww_element_references_list(before).push(sub@));
                        true
                    } else {
                        false
                    }
                },
                _ => false,
            }
        } else if f.tag == 3 {
            match f.value {
                RawValue::Bytes(s, e) => {
                    let mut sub = QueryReferencesRequestCountReferences::new_default();
                    if sub.merge(buf, s, e) {
                        let ghost before = self.count_references@;
                        self.count_references.push(sub);
                        assert(view_query_references_request_count_references_list(self.count_references@) =~= view_query_references_request_count_references_list(before).push(sub@));
                        true
                    } else {
                        false
                    }
                },
                _ => false,
            }
        } else {
            true
        }
    }

    /// Merges the fields of `buf[start..end]` into `self`; `false` where the
    /// bytes are not a valid encoding (`self` is then left in no stated state).
    pub fn merge(&mut self, buf: &[u8], start: usize, end: usize) -> (ok: bool)
        requires
            start <= end <= buf@.len(),
        ensures
            match spec_merge_query_references_request_events(old(self)@, buf@.subrange(start as int, end as int)) {
                Some(m) => ok && final(self)@ == m,
                None => !ok,
            },
    {
        let mut pos = start;
        while pos < end
            invariant
                start <= pos <= end <= buf@.len(),
                spec_merge_query_references_request_events(old(self)@, buf@.subrange(start as int, end as int)) == spec_merge_query_references_request_events(
                    self@,
                    buf@.subrange(pos as int, end as int),
                ),
            decreases end - pos,
        {
            match read_field(buf, pos, end) {
                Some((f, next)) => {
                    proof {
                        lemma_merge_step(
                            query_references_request_events_applier(),
                            self@,
                            buf@,
                            pos as nat,
                            next as nat,
                            end as nat,
                            raw_field_view(f, buf@),
                        );
                    }
                    if !self.apply_field(buf, &f) {
                        return false;
                    }
                    pos = next;
                },
                None => {
                    proof {
                        lemma_merge_bad_field(query_references_request_events_applier(), self@, buf@, pos as nat, end as nat);
                    }
                    return false;
                },
            }
        }
        proof {
            lemma_merge_empty(query_references_request_events_applier(), self@, buf@, pos as nat);
        }
        true
    }

    /// Decodes a [`QueryReferencesRequestEvents`] from its protocol encoding; `None` where the bytes
    /// are not one.
    pub fn decode(buf: &[u8]) -> (r: Option<Self>)
        ensures
            match spec_decode_query_references_request_events(buf@) {
                Some(m) => r matches Some(x) && x@ == m,
                None => r is None,
            },
    {
        let mut m = QueryReferencesRequestEvents::new_default();
        assert(buf@.subrange(0, buf@.len() as int) =~= buf@);
        if m.merge(buf, 0, buf.len()) {
            Some(m)
        } else {
            None
        }
    }
}

/// Applying the fields of `items` to the `count_lww_element_references` of `m` appends them.
proof fn lemma_query_references_request_events_apply_count_lww_element_references(m: SpecQueryReferencesRequestEvents, items: Seq<SpecQueryReferencesRequestCountLwwElementReferences>)
    requires
        forall|i: int| 0 <= i < items.len() ==> (#[trigger] spec_encode_query_references_request_count_lww_element_references(items[i])).len() < 0x1_0000_0000_0000_0000,
    ensures
        spec_apply_all(query_references_request_events_applier(), m, repeated_bytes_fields(2, encode_query_references_request_count_lww_element_references_list(items))) == Some(SpecQueryReferencesRequestEvents { from_type: m.from_type, count_lww_element_references: m.count_lww_element_references + items, count_references: m.count_references }),
    decreases items.len(),
{
    if items.len() == 0 {
        assert(repeated_bytes_fields(2, encode_query_references_request_count_lww_element_references_list(items)) =~= Seq::<WireField>::empty());
        assert(m.count_lww_element_references + items =~= m.count_lww_element_references);
        assert(SpecQueryReferencesRequestEvents { from_type: m.from_type, count_lww_element_references: m.count_lww_element_references + items, count_references: m.count_references } =~= m);
    } else {
        lemma_repeated_split(2, encode_query_references_request_count_lww_element_references_list(items));
        assert(encode_query_references_request_count_lww_element_references_list(items).drop_first() =~= encode_query_references_request_count_lww_element_references_list(items.drop_first()));
        assert(encode_query_references_request_count_lww_element_references_list(items)[0] == spec_encode_query_references_request_count_lww_element_references(items[0]));
        lemma_query_references_request_count_lww_element_references_round_trip(items[0]);
        let m1 = SpecQueryReferencesRequestEvents { from_type: m.from_type, count_lww_element_references: m.count_lww_element_references.push(items[0]), count_references: m.count_references };
        lemma_apply_concat(query_references_request_events_applier(), m, seq![WireField { tag: 2, value: WireValue::Bytes(encode_query_references_request_count_lww_element_references_list(items)[0]) }], repeated_bytes_fields(2, encode_query_references_request_count_lww_element_references_list(items.drop_first())));
        lemma_apply_single(query_references_request_events_applier(), m, WireField { tag: 2, value: WireValue::Bytes(encode_query_references_request_count_lww_element_references_list(items)[0]) });
        assert forall|i: int| 0 <= i < items.drop_first().len() implies (#[trigger] spec_encode_query_references_request_count_lww_element_references(items.drop_first()[i])).len() < 0x1_0000_0000_0000_0000 by {
            assert(items.drop_first()[i] == items[i + 1]);
        }
        lemma_query_references_request_events_apply_count_lww_element_references(m1, items.drop_first());
        assert(m1.count_lww_element_references + items.drop_first() =~= m.count_lww_element_references + items);
    }
}

/// Applying the fields of `items` to the `count_references` of `m` appends them.
proof fn lemma_query_references_request_events_apply_count_references(m: SpecQueryReferencesRequestEvents, items: Seq<SpecQueryReferencesRequestCountReferences>)
    requires
        forall|i: int| 0 <= i < items.len() ==> (#[trigger] spec_encode_query_references_request_count_references(items[i])).len() < 0x1_0000_0000_0000_0000,
    ensures
        spec_apply_all(query_references_request_events_applier(), m, repeated_bytes_fields(3, encode_query_references_request_count_references_list(items))) == Some(SpecQueryReferencesRequestEvents { from_type: m.from_type, count_lww_element_references: m.count_lww_element_references, count_references: m.count_references + items }),
    decreases items.len(),
{
    if items.len() == 0 {
        assert(repeated_bytes_fields(3, encode_query_references_request_count_references_list(items)) =~= Seq::<WireField>::empty());
        assert(m.count_references + items =~= m.count_references);
        assert(SpecQueryReferencesRequestEvents { from_type: m.from_type, count_lww_element_references: m.count_lww_element_references, count_references: m.count_references + items } =~= m);
    } else {
        lemma_repeated_split(3, encode_query_references_request_count_references_list(items));
        assert(encode_query_references_request_count_references_list(items).drop_first() =~= encode_query_references_request_count_references_list(items.drop_first()));
        assert(encode_query_references_request_count_references_list(items)[0] == spec_encode_query_references_request_count_references(items[0]));
        lemma_query_references_request_count_references_round_trip(items[0]);
        let m1 = SpecQueryReferencesRequestEvents { from_type: m.from_type, count_lww_element_references: m.count_lww_element_references, count_references: m.count_references.push(items[0]) };
        lemma_apply_concat(query_references_request_events_applier(), m, seq![WireField { tag: 3, value: WireValue::Bytes(encode_query_references_request_count_references_list(items)[0]) }], repeated_bytes_fields(3, encode_query_references_request_count_references_list(items.drop_first())));
        lemma_apply_single(query_references_request_events_applier(), m, WireField { tag: 3, value: WireValue::Bytes(encode_query_references_request_count_references_list(items)[0]) });
        assert forall|i: int| 0 <= i < items.drop_first().len() implies (#[trigger] spec_encode_query_references_request_count_references(items.drop_first()[i])).len() < 0x1_0000_0000_0000_0000 by {
            assert(items.drop_first()[i] == items[i + 1]);
        }
        lemma_query_references_request_events_apply_count_references(m1, items.drop_first());
        assert(m1.count_references + items.drop_first() =~= m.count_references + items);
    }
}

proof fn lemma_query_references_request_events_tags_ok(m: SpecQueryReferencesRequestEvents)
    ensures
        fields_tags_ok(query_references_request_events_fields(m)),
{
    lemma_tags_ok_opt_uint(1, m.from_type);
    lemma_tags_ok_repeated(2, encode_query_references_request_count_lww_element_references_list(m.count_lww_element_references));
    lemma_tags_ok_repeated(3, encode_query_references_request_count_references_list(m.count_references));
    lemma_tags_ok_concat(opt_uint_field(1, m.from_type), repeated_bytes_fields(2, encode_query_references_request_count_lww_element_references_list(m.count_lww_element_references)));
    lemma_tags_ok_concat(opt_uint_field(1, m.from_type) + repeated_bytes_fields(2, encode_query_references_request_count_lww_element_references_list(m.count_lww_element_references)), repeated_bytes_fields(3, encode_query_references_request_count_references_list(m.count_references)));
}

proof fn lemma_query_references_request_events_part_lengths(m: SpecQueryReferencesRequestEvents)
    ensures
        spec_encode_fields(opt_uint_field(1, m.from_type)).len() <= spec_encode_fields(query_references_request_events_fields(m)).len(),
        spec_encode_fields(repeated_bytes_fields(2, encode_query_references_request_count_lww_element_references_list(m.count_lww_element_references))).len() <= spec_encode_fields(query_references_request_events_fields(m)).len(),
        spec_encode_fields(repeated_bytes_fields(3, encode_query_references_request_count_references_list(m.count_references))).len() <= spec_encode_fields(query_references_request_events_fields(m)).len(),
{
    broadcast use group_field_lists;

}

proof fn lemma_query_references_request_events_step_from_type(m: SpecQueryReferencesRequestEvents)
    requires
        spec_encode_fields(opt_uint_field(1, m.from_type)).len() < 0x1_0000_0000_0000_0000,
    ensures
        spec_apply_all(query_references_request_events_applier(), SpecQueryReferencesRequestEvents { from_type: None, count_lww_element_references: seq![], count_references: seq![] }, opt_uint_field(1, m.from_type)) == Some(SpecQueryReferencesRequestEvents { from_type: m.from_type, count_lww_element_references: seq![], count_references: seq![] }),
{
    let d = SpecQueryReferencesRequestEvents { from_type: None, count_lww_element_references: seq![], count_references: seq![] };
    lemma_apply_opt_uint_field(query_references_request_events_applier(), d, 1, m.from_type);
}

proof fn lemma_query_references_request_events_step_count_lww_element_references(m: SpecQueryReferencesRequestEvents)
    requires
        spec_encode_fields(repeated_bytes_fields(2, encode_query_references_request_count_lww_element_references_list(m.count_lww_element_references))).len() < 0x1_0000_0000_0000_0000,
    ensures
        spec_apply_all(query_references_request_events_applier(), SpecQueryReferencesRequestEvents { from_type: m.from_type, count_lww_element_references: seq![], count_references: seq![] }, repeated_bytes_fields(2, encode_query_references_request_count_lww_element_references_list(m.count_lww_element_references))) == Some(SpecQueryReferencesRequestEvents { from_type: m.from_type, count_lww_element_references: m.count_lww_element_references, count_references: seq![] }),
{
    let d = SpecQueryReferencesRequestEvents { from_type: m.from_type, count_lww_element_references: seq![], count_references: seq![] };
    lemma_repeated_bounded(2, encode_query_references_request_count_lww_element_references_list(m.count_lww_element_references));
    assert forall|i: int| 0 <= i < m.count_lww_element_references.len() implies (#[trigger] spec_encode_query_references_request_count_lww_element_references(m.count_lww_element_references[i])).len()
        < 0x1_0000_0000_0000_0000 by {
        assert(encode_query_references_request_count_lww_element_references_list(m.count_lww_element_references)[i] == spec_encode_query_references_request_count_lww_element_references(m.count_lww_element_references[i]));
    }
    lemma_query_references_request_events_apply_count_lww_element_references(d, m.count_lww_element_references);
    assert(d.count_lww_element_references + m.count_lww_element_references =~= m.count_lww_element_references);
}

proof fn lemma_query_references_request_events_step_count_references(m: SpecQueryReferencesRequestEvents)
    requires
        spec_encode_fields(repeated_bytes_fields(3, encode_query_references_request_count_references_list(m.count_references))).len() < 0x1_0000_0000_0000_0000,
    ensures
        spec_apply_all(query_references_request_events_applier(), SpecQueryReferencesRequestEvents { from_type: m.from_type, count_lww_element_references: m.count_lww_element_references, count_references: seq![] }, repeated_bytes_fields(3, encode_query_references_request_count_references_list(m.count_references))) == Some(SpecQueryReferencesRequestEvents { from_type: m.from_type, count_lww_element_references: m.count_lww_element_references, count_references: m.count_references }),
{
    let d = SpecQueryReferencesRequestEvents { from_type: m.from_type, count_lww_element_references: m.count_lww_element_references, count_references: seq![] };
    lemma_repeated_bounded(3, encode_query_references_request_count_references_list(m.count_references));
    assert forall|i: int| 0 <= i < m.count_references.len() implies (#[trigger] spec_encode_query_references_request_count_references(m.count_references[i])).len()
        < 0x1_0000_0000_0000_0000 by {
        assert(encode_query_references_request_count_references_list(m.count_references)[i] == spec_encode_query_references_request_count_references(m.count_references[i]));
    }
    lemma_query_references_request_events_apply_count_references(d, m.count_references);
    assert(d.count_references + m.count_references =~= m.count_references);
}

/// Decoding the encoding of a [`QueryReferencesRequestEvents`] gives back the value (for every value
/// whose encoding fits a 64-bit length).
pub proof fn lemma_query_references_request_events_round_trip(m: SpecQueryReferencesRequestEvents)
    requires
        spec_encode_query_references_request_events(m).len() < 0x1_0000_0000_0000_0000,
    ensures
        spec_decode_query_references_request_events(spec_encode_query_references_request_events(m)) == Some(m),
{
    let fs = query_references_request_events_fields(m);
    lemma_query_references_request_events_tags_ok(m);
    lemma_decode_fields(query_references_request_events_applier(), default_query_references_request_events(), fs);
    lemma_query_references_request_events_part_lengths(m);
    lemma_query_references_request_events_step_from_type(m);
    lemma_query_references_request_events_step_count_lww_element_references(m);
    lemma_query_references_request_events_step_count_references(m);
    lemma_apply_concat(query_references_request_events_applier(), default_query_references_request_events(), opt_uint_field(1, m.from_type), repeated_bytes_fields(2, encode_query_references_request_count_lww_element_references_list(m.count_lww_element_references)));
    lemma_apply_concat(query_references_request_events_applier(), default_query_references_request_events(), opt_uint_field(1, m.from_type) + repeated_bytes_fields(2, encode_query_references_request_count_lww_element_references_list(m.count_lww_element_references)), repeated_bytes_fields(3, encode_query_references_request_count_references_list(m.count_references)));
    assert(SpecQueryReferencesRequestEvents { from_type: m.from_type, count_lww_element_references: m.count_lww_element_references, count_references: m.count_references } =~= m);
}

/// A query for the events that reference something, such as a topic.
#[derive(Clone, Debug, PartialEq, Eq, Default)]
pub struct QueryReferencesRequest {
    pub reference: Option<Reference>,
    pub cursor: Option<Vec<u8>>,
    pub request_events: Option<QueryReferencesRequestEvents>,
    pub count_lww_element_references: Vec<QueryReferencesRequestCountLwwElementReferences>,
    pub count_references: Vec<QueryReferencesRequestCountReferences>,
    pub extra_byte_references: Vec<Vec<u8>>,
}

/// The value of a [`QueryReferencesRequest`].
#[verifier::ext_equal]
pub struct SpecQueryReferencesRequest {
    pub reference: Option<SpecReference>,
    pub cursor: Option<Seq<u8>>,
    pub request_events: Option<SpecQueryReferencesRequestEvents>,
    pub count_lww_element_references: Seq<SpecQueryReferencesRequestCountLwwElementReferences>,
    pub count_references: Seq<SpecQueryReferencesRequestCountReferences>,
    pub extra_byte_references: Seq<Seq<u8>>,
}

impl View for QueryReferencesRequest {
    type V = SpecQueryReferencesRequest;

    open spec fn view(&self) -> SpecQueryReferencesRequest {
        SpecQueryReferencesRequest {
            reference: match self.reference { Some(v) => Some(v@), None => None },
            cursor: match self.cursor { Some(v) => Some(v@), None => None },
            request_events: match self.request_events { Some(v) => Some(v@), None => None },
            count_lww_element_references: view_query_references_request_count_lww_element_references_list(self.count_lww_element_references@),
            count_references: view_query_references_request_count_references_list(self.count_references@),
            extra_byte_references: view_byte_strings(self.extra_byte_references@),
        }
    }
}

/// The value that decoding starts from: every field at its default.
pub open spec fn default_query_references_request() -> SpecQueryReferencesRequest {
    SpecQueryReferencesRequest { reference: None, cursor: None, request_events: None, count_lww_element_references: seq![], count_references: seq![], extra_byte_references: seq![] }
}

/// The fields that a [`QueryReferencesRequest`] is written as, in field-number order; fields
/// at their default are left out.
pub open spec fn query_references_request_fields(m: SpecQueryReferencesRequest) -> Seq<WireField> {
    opt_bytes_field(1, match m.reference { Some(v) => Some(spec_encode_reference(v)), None => None })
        + opt_bytes_field(2, m.cursor)
        + opt_bytes_field(3, match m.request_events { Some(v) => Some(spec_encode_query_references_request_events(v)), None => None })
        + repeated_bytes_fields(4, encode_query_references_request_count_lww_element_references_list(m.count_lww_element_references))
        + repeated_bytes_fields(5, encode_query_references_request_count_references_list(m.count_references))
        + repeated_bytes_fields(6, m.extra_byte_references)
}

/// The encoding of a [`QueryReferencesRequest`].
pub open spec fn spec_encode_query_references_request(m: SpecQueryReferencesRequest) -> Seq<u8> {
    spec_encode_fields(query_references_request_fields(m))
}

/// Merges one field into a [`QueryReferencesRequest`]: a known field number must come with
/// its wire type; fields with other numbers are skipped.
pub open spec fn apply_query_references_request(m: SpecQueryReferencesRequest, f: WireField) -> Option<SpecQueryReferencesRequest> {
    if f.tag == 1 {
        match field_bytes(f) { Some(b) => match spec_merge_reference(match m.reference { Some(v) => v, None => default_reference() }, b) { Some(v) => Some(SpecQueryReferencesRequest { reference: Some(v), cursor: m.cursor, request_events: m.request_events, count_lww_element_references: m.count_lww_element_references, count_references: m.count_references, extra_byte_references: m.extra_byte_references }), None => None }, None => None }
    } else if f.tag == 2 {
        match field_bytes(f) { Some(b) => Some(SpecQueryReferencesRequest { reference: m.reference, cursor: Some(b), request_events: m.request_events, count_lww_element_references: m.count_lww_element_references, count_references: m.count_references, extra_byte_references: m.extra_byte_references }), None => None }
    } else if f.tag == 3 {
        match field_bytes(f) { Some(b) => match spec_merge_query_references_request_events(match m.request_events { Some(v) => v, None => default_query_references_request_events() }, b) { Some(v) => Some(SpecQueryReferencesRequest { reference: m.reference, cursor: m.cursor, request_events: Some(v), count_lww_element_references: m.count_lww_element_references, count_references: m.count_references, extra_byte_references: m.extra_byte_references }), None => None }, None => None }
    } else if f.tag == 4 {
        match field_bytes(f) { Some(b) => match spec_decode_query_references_request_count_lww_element_references(b) { Some(v) => Some(SpecQueryReferencesRequest { reference: m.reference, cursor: m.cursor, request_events: m.request_events, count_lww_element_references: m.count_lww_element_references.push(v), count_references: m.count_references, extra_byte_references: m.extra_byte_references }), None => None }, None => None }
    } else if f.tag == 5 {
        match field_bytes(f) { Some(b) => match spec_decode_query_references_request_count_references(b) { Some(v) => Some(SpecQueryReferencesRequest { reference: m.reference, cursor: m.cursor, request_events: m.request_events, count_lww_element_references: m.count_lww_element_references, count_references: m.count_references.push(v), extra_byte_references: m.extra_byte_references }), None => None }, None => None }
    } else if f.tag == 6 {
        match field_bytes(f) { Some(b) => Some(SpecQueryReferencesRequest { reference: m.reference, cursor: m.cursor, request_events: m.request_events, count_lww_element_references: m.count_lww_element_references, count_references: m.count_references, extra_byte_references: m.extra_byte_references.push(b) }), None => None }
    } else {
        Some(m)
    }
}

pub open spec fn query_references_request_applier() -> spec_fn(SpecQueryReferencesRequest, WireField) -> Option<SpecQueryReferencesRequest> {
    |m: SpecQueryReferencesRequest, f: WireField| apply_query_references_request(m, f)
}

/// Merges the fields of `b` into `m`.
pub open spec fn spec_merge_query_references_request(m: SpecQueryReferencesRequest, b: Seq<u8>) -> Option<SpecQueryReferencesRequest> {
    spec_merge_with(query_references_request_applier(), m, b)
}

/// Decodes a [`QueryReferencesRequest`]: the fields of `b` merged into the default.
pub open spec fn spec_decode_query_references_request(b: Seq<u8>) -> Option<SpecQueryReferencesRequest> {
    spec_merge_query_references_request(default_query_references_request(), b)
}

/// The values of a list of [`QueryReferencesRequest`]s.
pub open spec fn view_query_references_requests(v: Seq<QueryReferencesRequest>) -> Seq<SpecQueryReferencesRequest> {
    v.map_values(|x: QueryReferencesRequest| x@)
}

/// The encodings of a list of [`QueryReferencesRequest`] values.
pub open spec fn encode_query_references_requests(v: Seq<SpecQueryReferencesRequest>) -> Seq<Seq<u8>> {
    v.map_values(|x: SpecQueryReferencesRequest| spec_encode_query_references_request(x))
}

impl QueryReferencesRequest {
    /// A value with every field at its default.
    pub fn new_default() -> (r: Self)
        ensures
            r@ == default_query_references_request(),
    {
        let r = QueryReferencesRequest { reference: None, cursor: None, request_events: None, count_lww_element_references: Vec::new(), count_references: Vec::new(), extra_byte_references: Vec::new() };
        assert(r@ =~= default_query_references_request());
        r
    }

    /// A copy.
    pub fn duplicate(&self) -> (r: Self)
        ensures
            r@ == self@,
    {
        let r = QueryReferencesRequest {
            reference: match &self.reference { Some(v) => Some(v.duplicate()), None => None },
            cursor: match &self.cursor { Some(v) => Some(vstd::slice::slice_to_vec(v.as_slice())), None => None },
            request_events: match &self.request_events { Some(v) => Some(v.duplicate()), None => None },
            count_lww_element_references: duplicate_query_references_request_count_lww_element_references_list(&self.count_lww_element_references),
            count_references: duplicate_query_references_request_count_references_list(&self.count_references),
            extra_byte_references: duplicate_byte_strings(&self.extra_byte_references),
        };
        assert(r@ =~= self@);
        r
    }

    /// The protocol encoding.
    pub fn encode(&self) -> (r: Vec<u8>)
        ensures
            r@ == spec_encode_query_references_request(self@),
    {
        broadcast use group_field_lists;

        let mut out: Vec<u8> = Vec::new();
        match &self.reference {
            Some(v) => {
                let e = v.encode();
                put_bytes_always(1, e.as_slice(), &mut out);
            },
            None => {},
        }
        put_opt_bytes(2, &self.cursor, &mut out);
        match &self.request_events {
            Some(v) => {
                let e = v.encode();
                put_bytes_always(3, e.as_slice(), &mut out);
            },
            None => {},
        }
        put_query_references_request_count_lww_element_references_list(4, &self.count_lww_element_references, &mut out);
        put_query_references_request_count_references_list(5, &self.count_references, &mut out);
        put_repeated_bytes(6, &self.extra_byte_references, &mut out);
        assert(out@ =~= spec_encode_query_references_request(self@));
        out
    }

    fn apply_field(&mut self, buf: &[u8], f: &RawField) -> (ok: bool)
        requires
            raw_field_within(*f, buf@.len()),
        ensures
            match apply_query_references_request(old(self)@, raw_field_view(*f, buf@)) {
                Some(m) => ok && final(self)@ == m,
                None => !ok,
            },
    {
        if f.tag == 1 {
            match f.value {
                RawValue::Bytes(s, e) => {
                    let mut sub = match &self.reference {
                        Some(v) => v.duplicate(),
                        None => Reference::new_default(),
                    };
                    if sub.merge(buf, s, e) {
                        self.reference = Some(sub);
                        true
                    } else {
                        false
                    }
                },
                _ => false,
            }
        } else if f.tag == 2 {
            match raw_bytes(buf, f) { Some(b) => { self.cursor = Some(b); true }, None => false }
        } else if f.tag == 3 {
            match f.value {
                RawValue::Bytes(s, e) => {
                    let mut sub = match &self.request_events {
                        Some(v) => v.duplicate(),
                        None => QueryReferencesRequestEvents::new_default(),
                    };
                    if sub.merge(buf, s, e) {
                        self.request_events = Some(sub);
                        true
                    } else {
                        false
                    }
                },
                _ => false,
            }
        } else if f.tag == 4 {
            match f.value {
                RawValue::Bytes(s, e) => {
                    let mut sub = QueryReferencesRequestCountLwwElementReferences::new_default();
                    if sub.merge(buf, s, e) {
                        let ghost before = self.count_lww_element_references@;
                        self.count_lww_element_references.push(sub);
                        assert(view_query_references_request_count_lww_element_references_list(self.count_lww_element_references@) =~= view_query_references_request_count_lww_element_references_list(before).push(sub@));
                        true
                    } else {
                        false
                    }
                },
                _ => false,
            }
        } else if f.tag == 5 {
            match f.value {
                RawValue::Bytes(s, e) => {
                    let mut sub = QueryReferencesRequestCountReferences::new_default();
                    if sub.merge(buf, s, e) {
                        let ghost before = self.count_references@;
                        self.count_references.push(sub);
                        assert(view_query_references_request_count_references_list(self.count_references@) =~= view_query_references_request_count_references_list(before).push(sub@));
                        true
                    } else {
                        false
                    }
                },
                _ => false,
            }
        } else if f.tag == 6 {
            match raw_bytes(buf, f) {
                Some(b) => {
                    let ghost before = self.extra_byte_references@;
                    self.extra_byte_references.push(b);
                    assert(view_byte_strings(self.extra_byte_references@) =~= view_byte_strings(before).push(b@));
                    true
                },
                None => false,
            }
        } else {
            true
        }
    }

    /// Merges the fields of `buf[start..end]` into `self`; `false` where the
    /// bytes are not a valid encoding (`self` is then left in no stated state).
    pub fn merge(&mut self, buf: &[u8], start: usize, end: usize) -> (ok: bool)
        requires
            start <= end <= buf@.len(),
        ensures
            match spec_merge_query_references_request(old(self)@, buf@.subrange(start as int, end as int)) {
                Some(m) => ok && final(self)@ == m,
                None => !ok,
            },
    {
        let mut pos = start;
        while pos < end
            invariant
                start <= pos <= end <= buf@.len(),
                spec_merge_query_references_request(old(self)@, buf@.subrange(start as int, end as int)) == spec_merge_query_references_request(
                    self@,
                    buf@.subrange(pos as int, end as int),
                ),
            decreases end - pos,
        {
            match read_field(buf, pos, end) {
                Some((f, next)) => {
                    proof {
                        lemma_merge_step(
                            query_references_request_applier(),
                            self@,
                            buf@,
                            pos as nat,
                            next as nat,
                            end as nat,
                            raw_field_view(f, buf@),
                        );
                    }
                    if !self.apply_field(buf, &f) {
                        return false;
                    }
                    pos = next;
                },
                None => {
                    proof {
                        lemma_merge_bad_field(query_references_request_applier(), self@, buf@, pos as nat, end as nat);
                    }
                    return false;
                },
            }
        }
        proof {
            lemma_merge_empty(query_references_request_applier(), self@, buf@, pos as nat);
        }
        true
    }

    /// Decodes a [`QueryReferencesRequest`] from its protocol encoding; `None` where the bytes
    /// are not one.
    pub fn decode(buf: &[u8]) -> (r: Option<Self>)
        ensures
            match spec_decode_query_references_request(buf@) {
                Some(m) => r matches Some(x) && x@ == m,
                None => r is None,
            },
    {
        let mut m = QueryReferencesRequest::new_default();
        assert(buf@.subrange(0, buf@.len() as int) =~= buf@);
        if m.merge(buf, 0, buf.len()) {
            Some(m)
        } else {
            None
        }
    }
}

/// Applying the fields of `items` to the `count_lww_element_references` of `m` appends them.
proof fn lemma_query_references_request_apply_count_lww_element_references(m: SpecQueryReferencesRequest, items: Seq<SpecQueryReferencesRequestCountLwwElementReferences>)
    requires
        forall|i: int| 0 <= i < items.len() ==> (#[trigger] spec_encode_query_references_request_count_lww_element_references(items[i])).len() < 0x1_0000_0000_0000_0000,
    ensures
        spec_apply_all(query_references_request_applier(), m, repeated_bytes_fields(4, encode_query_references_request_count_lww_element_references_list(items))) == Some(SpecQueryReferencesRequest { reference: m.reference, cursor: m.cursor, request_events: m.request_events, count_lww_element_references: m.count_lww_element_references + items, count_references: m.count_references, extra_byte_references: m.extra_byte_references }),
    decreases items.len(),
{
    if items.len() == 0 {
        assert(repeated_bytes_fields(4, encode_query_references_request_count_lww_element_references_list(items)) =~= Seq::<WireField>::empty());
        assert(m.count_lww_element_references + items =~= m.count_lww_element_references);
        assert(SpecQueryReferencesRequest { reference: m.reference, cursor: m.cursor, request_events: m.request_events, count_lww_element_references: m.count_lww_element_references + items, count_references: m.count_references, extra_byte_references: m.extra_byte_references } =~= m);
    } else {
        lemma_repeated_split(4, encode_query_references_request_count_lww_element_references_list(items));
        assert(encode_query_references_request_count_lww_element_references_list(items).drop_first() =~= encode_query_references_request_count_lww_element_references_list(items.drop_first()));
        assert(encode_query_references_request_count_lww_element_references_list(items)[0] == spec_encode_query_references_request_count_lww_element_references(items[0]));
        lemma_query_references_request_count_lww_element_references_round_trip(items[0]);
        let m1 = SpecQueryReferencesRequest { reference: m.reference, cursor: m.cursor, request_events: m.request_events, count_lww_element_references: m.count_lww_element_references.push(items[0]), count_references: m.count_references, extra_byte_references: m.extra_byte_references };
        lemma_apply_concat(query_references_request_applier(), m, seq![WireField { tag: 4, value: WireValue::Bytes(encode_query_references_request_count_lww_element_references_list(items)[0]) }], repeated_bytes_fields(4, encode_query_references_request_count_lww_element_references_list(items.drop_first())));
        lemma_apply_single(query_references_request_applier(), m, WireField { tag: 4, value: WireValue::Bytes(encode_query_references_request_count_lww_element_references_list(items)[0]) });
        assert forall|i: int| 0 <= i < items.drop_first().len() implies (#[trigger] spec_encode_query_references_request_count_lww_element_references(items.drop_first()[i])).len() < 0x1_0000_0000_0000_0000 by {
            assert(items.drop_first()[i] == items[i + 1]);
        }
        lemma_query_references_request_apply_count_lww_element_references(m1, items.drop_first());
        assert(m1.count_lww_element_references + items.drop_first() =~= m.count_lww_element_references + items);
    }
}

/// Applying the fields of `items` to the `count_references` of `m` appends them.
proof fn lemma_query_references_request_apply_count_references(m: SpecQueryReferencesRequest, items: Seq<SpecQueryReferencesRequestCountReferences>)
    requires
        forall|i: int| 0 <= i < items.len() ==> (#[trigger] spec_encode_query_references_request_count_references(items[i])).len() < 0x1_0000_0000_0000_0000,
    ensures
        spec_apply_all(query_references_request_applier(), m, repeated_bytes_fields(5, encode_query_references_request_count_references_list(items))) == Some(SpecQueryReferencesRequest { reference: m.reference, cursor: m.cursor, request_events: m.request_events, count_lww_element_references: m.count_lww_element_references, count_references: m.count_references + items, extra_byte_references: m.extra_byte_references }),
    decreases items.len(),
{
    if items.len() == 0 {
        assert(repeated_bytes_fields(5, encode_query_references_request_count_references_list(items)) =~= Seq::<WireField>::empty());
        assert(m.count_references + items =~= m.count_references);
        assert(SpecQueryReferencesRequest { reference: m.reference, cursor: m.cursor, request_events: m.request_events, count_lww_element_references: m.count_lww_element_references, count_references: m.count_references + items, extra_byte_references: m.extra_byte_references } =~= m);
    } else {
        lemma_repeated_split(5, encode_query_references_request_count_references_list(items));
        assert(encode_query_references_request_count_references_list(items).drop_first() =~= encode_query_references_request_count_references_list(items.drop_first()));
        assert(encode_query_references_request_count_references_list(items)[0] == spec_encode_query_references_request_count_references(items[0]));
        lemma_query_references_request_count_references_round_trip(items[0]);
        let m1 = SpecQueryReferencesRequest { reference: m.reference, cursor: m.cursor, request_events: m.request_events, count_lww_element_references: m.count_lww_element_references, count_references: m.count_references.push(items[0]), extra_byte_references: m.extra_byte_references };
        lemma_apply_concat(query_references_request_applier(), m, seq![WireField { tag: 5, value: WireValue::Bytes(encode_query_references_request_count_references_list(items)[0]) }], repeated_bytes_fields(5, encode_query_references_request_count_references_list(items.drop_first())));
        lemma_apply_single(query_references_request_applier(), m, WireField { tag: 5, value: WireValue::Bytes(encode_query_references_request_count_references_list(items)[0]) });
        assert forall|i: int| 0 <= i < items.drop_first().len() implies (#[trigger] spec_encode_query_references_request_count_references(items.drop_first()[i])).len() < 0x1_0000_0000_0000_0000 by {
            assert(items.drop_first()[i] == items[i + 1]);
        }
        lemma_query_references_request_apply_count_references(m1, items.drop_first());
        assert(m1.count_references + items.drop_first() =~= m.count_references + items);
    }
}

/// Applying the fields of `items` to the `extra_byte_references` of `m` appends them.
proof fn lemma_query_references_request_apply_extra_byte_references(m: SpecQueryReferencesRequest, items: Seq<Seq<u8>>)
    ensures
        spec_apply_all(query_references_request_applier(), m, repeated_bytes_fields(6, items)) == Some(SpecQueryReferencesRequest { reference: m.reference, cursor: m.cursor, request_events: m.request_events, count_lww_element_references: m.count_lww_element_references, count_references: m.count_references, extra_byte_references: m.extra_byte_references + items }),
    decreases items.len(),
{
    if items.len() == 0 {
        assert(repeated_bytes_fields(6, items) =~= Seq::<WireField>::empty());
        assert(m.extra_byte_references + items =~= m.extra_byte_references);
        assert(SpecQueryReferencesRequest { reference: m.reference, cursor: m.cursor, request_events: m.request_events, count_lww_element_references: m.count_lww_element_references, count_references: m.count_references, extra_byte_references: m.extra_byte_references + items } =~= m);
    } else {
        lemma_repeated_split(6, items);

        let m1 = SpecQueryReferencesRequest { reference: m.reference, cursor: m.cursor, request_events: m.request_events, count_lww_element_references: m.count_lww_element_references, count_references: m.count_references, extra_byte_references: m.extra_byte_references.push(items[0]) };
        lemma_apply_concat(query_references_request_applier(), m, seq![WireField { tag: 6, value: WireValue::Bytes(items[0]) }], repeated_bytes_fields(6, items.drop_first()));
        lemma_apply_single(query_references_request_applier(), m, WireField { tag: 6, value: WireValue::Bytes(items[0]) });
        lemma_query_references_request_apply_extra_byte_references(m1, items.drop_first());
        assert(m1.extra_byte_references + items.drop_first() =~= m.extra_byte_references + items);
    }
}

proof fn lemma_query_references_request_tags_ok(m: SpecQueryReferencesRequest)
    ensures
        fields_tags_ok(query_references_request_fields(m)),
{
    lemma_tags_ok_opt_bytes(1, match m.reference { Some(v) => Some(spec_encode_reference(v)), None => None });
    lemma_tags_ok_opt_bytes(2, m.cursor);
    lemma_tags_ok_opt_bytes(3, match m.request_events { Some(v) => Some(spec_encode_query_references_request_events(v)), None => None });
    lemma_tags_ok_repeated(4, encode_query_references_request_count_lww_element_references_list(m.count_lww_element_references));
    lemma_tags_ok_repeated(5, encode_query_references_request_count_references_list(m.count_references));
    lemma_tags_ok_repeated(6, m.extra_byte_references);
    lemma_tags_ok_concat(opt_bytes_field(1, match m.reference { Some(v) => Some(spec_encode_reference(v)), None => None }), opt_bytes_field(2, m.cursor));
    lemma_tags_ok_concat(opt_bytes_field(1, match m.reference { Some(v) => Some(spec_encode_reference(v)), None => None }) + opt_bytes_field(2, m.cursor), opt_bytes_field(3, match m.request_events { Some(v) => Some(spec_encode_query_references_request_events(v)), None => None }));
    lemma_tags_ok_concat(opt_bytes_field(1, match m.reference { Some(v) => Some(spec_encode_reference(v)), None => None }) + opt_bytes_field(2, m.cursor) + opt_bytes_field(3, match m.request_events { Some(v) => Some(spec_encode_query_references_request_events(v)), None => None }), repeated_bytes_fields(4, encode_query_references_request_count_lww_element_references_list(m.count_lww_element_references)));
    lemma_tags_ok_concat(opt_bytes_field(1, match m.reference { Some(v) => Some(spec_encode_reference(v)), None => None }) + opt_bytes_field(2, m.cursor) + opt_bytes_field(3, match m.request_events { Some(v) => Some(spec_encode_query_references_request_events(v)), None => None }) + repeated_bytes_fields(4, encode_query_references_request_count_lww_element_references_list(m.count_lww_element_references)), repeated_bytes_fields(5, encode_query_references_request_count_references_list(m.count_references)));
    lemma_tags_ok_concat(opt_bytes_field(1, match m.reference { Some(v) => Some(spec_encode_reference(v)), None => None }) + opt_bytes_field(2, m.cursor) + opt_bytes_field(3, match m.request_events { Some(v) => Some(spec_encode_query_references_request_events(v)), None => None }) + repeated_bytes_fields(4, encode_query_references_request_count_lww_element_references_list(m.count_lww_element_references)) + repeated_bytes_fields(5, encode_query_references_request_count_references_list(m.count_references)), repeated_bytes_fields(6, m.extra_byte_references));
}

proof fn lemma_query_references_request_part_lengths(m: SpecQueryReferencesRequest)
    ensures
        spec_encode_fields(opt_bytes_field(1, match m.reference { Some(v) => Some(spec_encode_reference(v)), None => None })).len() <= spec_encode_fields(query_references_request_fields(m)).len(),
        spec_encode_fields(opt_bytes_field(2, m.cursor)).len() <= spec_encode_fields(query_references_request_fields(m)).len(),
        spec_encode_fields(opt_bytes_field(3, match m.request_events { Some(v) => Some(spec_encode_query_references_request_events(v)), None => None })).len() <= spec_encode_fields(query_references_request_fields(m)).len(),
        spec_encode_fields(repeated_bytes_fields(4, encode_query_references_request_count_lww_element_references_list(m.count_lww_element_references))).len() <= spec_encode_fields(query_references_request_fields(m)).len(),
        spec_encode_fields(repeated_bytes_fields(5, encode_query_references_request_count_references_list(m.count_references))).len() <= spec_encode_fields(query_references_request_fields(m)).len(),
        spec_encode_fields(repeated_bytes_fields(6, m.extra_byte_references)).len() <= spec_encode_fields(query_references_request_fields(m)).len(),
{
    broadcast use group_field_lists;

}

proof fn lemma_query_references_request_step_reference(m: SpecQueryReferencesRequest)
    requires
        spec_encode_fields(opt_bytes_field(1, match m.reference { Some(v) => Some(spec_encode_reference(v)), None => None })).len() < 0x1_0000_0000_0000_0000,
    ensures
        spec_apply_all(query_references_request_applier(), SpecQueryReferencesRequest { reference: None, cursor: None, request_events: None, count_lww_element_references: seq![], count_references: seq![], extra_byte_references: seq![] }, opt_bytes_field(1, match m.reference { Some(v) => Some(spec_encode_reference(v)), None => None })) == Some(SpecQueryReferencesRequest { reference: m.reference, cursor: None, request_events: None, count_lww_element_references: seq![], count_references: seq![], extra_byte_references: seq![] }),
{
    let d = SpecQueryReferencesRequest { reference: None, cursor: None, request_events: None, count_lww_element_references: seq![], count_references: seq![], extra_byte_references: seq![] };
    lemma_apply_opt_bytes_field(
        query_references_request_applier(),
        d,
        1,
        match m.reference {
            Some(v) => Some(spec_encode_reference(v)),
            None => None,
        },
    );
    match m.reference {
        Some(v) => {
            let fld = WireField { tag: 1, value: WireValue::Bytes(spec_encode_reference(v)) };
            lemma_encode_single_field(fld);
            lemma_field_payload_le(fld);
            lemma_reference_round_trip(v);
        },
        None => {},
    }
}

proof fn lemma_query_references_request_step_cursor(m: SpecQueryReferencesRequest)
    requires
        spec_encode_fields(opt_bytes_field(2, m.cursor)).len() < 0x1_0000_0000_0000_0000,
    ensures
        spec_apply_all(query_references_request_applier(), SpecQueryReferencesRequest { reference: m.reference, cursor: None, request_events: None, count_lww_element_references: seq![], count_references: seq![], extra_byte_references: seq![] }, opt_bytes_field(2, m.cursor)) == Some(SpecQueryReferencesRequest { reference: m.reference, cursor: m.cursor, request_events: None, count_lww_element_references: seq![], count_references: seq![], extra_byte_references: seq![] }),
{
    let d = SpecQueryReferencesRequest { reference: m.reference, cursor: None, request_events: None, count_lww_element_references: seq![], count_references: seq![], extra_byte_references: seq![] };
    lemma_apply_opt_bytes_field(query_references_request_applier(), d, 2, m.cursor);
}

proof fn lemma_query_references_request_step_request_events(m: SpecQueryReferencesRequest)
    requires
        spec_encode_fields(opt_bytes_field(3, match m.request_events { Some(v) => Some(spec_encode_query_references_request_events(v)), None => None })).len() < 0x1_0000_0000_0000_0000,
    ensures
        spec_apply_all(query_references_request_applier(), SpecQueryReferencesRequest { reference: m.reference, cursor: m.cursor, request_events: None, count_lww_element_references: seq![], count_references: seq![], extra_byte_references: seq![] }, opt_bytes_field(3, match m.request_events { Some(v) => Some(spec_encode_query_references_request_events(v)), None => None })) == Some(SpecQueryReferencesRequest { reference: m.reference, cursor: m.cursor, request_events: m.request_events, count_lww_element_references: seq![], count_references: seq![], extra_byte_references: seq![] }),
{
    let d = SpecQueryReferencesRequest { reference: m.reference, cursor: m.cursor, request_events: None, count_lww_element_references: seq![], count_references: seq![], extra_byte_references: seq![] };
    lemma_apply_opt_bytes_field(
        query_references_request_applier(),
        d,
        3,
        match m.request_events {
            Some(v) => Some(spec_encode_query_references_request_events(v)),
            None => None,
        },
    );
    match m.request_events {
        Some(v) => {
            let fld = WireField { tag: 3, value: WireValue::Bytes(spec_encode_query_references_request_events(v)) };
            lemma_encode_single_field(fld);
            lemma_field_payload_le(fld);
            lemma_query_references_request_events_round_trip(v);
        },
        None => {},
    }
}

proof fn lemma_query_references_request_step_count_lww_element_references(m: SpecQueryReferencesRequest)
    requires
        spec_encode_fields(repeated_bytes_fields(4, encode_query_references_request_count_lww_element_references_list(m.count_lww_element_references))).len() < 0x1_0000_0000_0000_0000,
    ensures
        spec_apply_all(query_references_request_applier(), SpecQueryReferencesRequest { reference: m.reference, cursor: m.cursor, request_events: m.request_events, count_lww_element_references: seq![], count_references: seq![], extra_byte_references: seq![] }, repeated_bytes_fields(4, encode_query_references_request_count_lww_element_references_list(m.count_lww_element_references))) == Some(SpecQueryReferencesRequest { reference: m.reference, cursor: m.cursor, request_events: m.request_events, count_lww_element_references: m.count_lww_element_references, count_references: seq![], extra_byte_references: seq![] }),
{
    let d = SpecQueryReferencesRequest { reference: m.reference, cursor: m.cursor, request_events: m.request_events, count_lww_element_references: seq![], count_references: seq![], extra_byte_references: seq![] };
    lemma_repeated_bounded(4, encode_query_references_request_count_lww_element_references_list(m.count_lww_element_references));
    assert forall|i: int| 0 <= i < m.count_lww_element_references.len() implies (#[trigger] spec_encode_query_references_request_count_lww_element_references(m.count_lww_element_references[i])).len()
        < 0x1_0000_0000_0000_0000 by {
        assert(encode_query_references_request_count_lww_element_references_list(m.count_lww_element_references)[i] == spec_encode_query_references_request_count_lww_element_references(m.count_lww_element_references[i]));
    }
    lemma_query_references_request_apply_count_lww_element_references(d, m.count_lww_element_references);
    assert(d.count_lww_element_references + m.count_lww_element_references =~= m.count_lww_element_references);
}

proof fn lemma_query_references_request_step_count_references(m: SpecQueryReferencesRequest)
    requires
        spec_encode_fields(repeated_bytes_fields(5, encode_query_references_request_count_references_list(m.count_references))).len() < 0x1_0000_0000_0000_0000,
    ensures
        spec_apply_all(query_references_request_applier(), SpecQueryReferencesRequest { reference: m.reference, cursor: m.cursor, request_events: m.request_events, count_lww_element_references: m.count_lww_element_references, count_references: seq![], extra_byte_references: seq![] }, repeated_bytes_fields(5, encode_query_references_request_count_references_list(m.count_references))) == Some(SpecQueryReferencesRequest { reference: m.reference, cursor: m.cursor, request_events: m.request_events, count_lww_element_references: m.count_lww_element_references, count_references: m.count_references, extra_byte_references: seq![] }),
{
    let d = SpecQueryReferencesRequest { reference: m.reference, cursor: m.cursor, request_events: m.request_events, count_lww_element_references: m.count_lww_element_references, count_references: seq![], extra_byte_references: seq![] };
    lemma_repeated_bounded(5, encode_query_references_request_count_references_list(m.count_references));
    assert forall|i: int| 0 <= i < m.count_references.len() implies (#[trigger] spec_encode_query_references_request_count_references(m.count_references[i])).len()
        < 0x1_0000_0000_0000_0000 by {
        assert(encode_query_references_request_count_references_list(m.count_references)[i] == spec_encode_query_references_request_count_references(m.count_references[i]));
    }
    lemma_query_references_request_apply_count_references(d, m.count_references);
    assert(d.count_references + m.count_references =~= m.count_references);
}

proof fn lemma_query_references_request_step_extra_byte_references(m: SpecQueryReferencesRequest)
    requires
        spec_encode_fields(repeated_bytes_fields(6, m.extra_byte_references)).len() < 0x1_0000_0000_0000_0000,
    ensures
        spec_apply_all(query_references_request_applier(), SpecQueryReferencesRequest { reference: m.reference, cursor: m.cursor, request_events: m.request_events, count_lww_element_references: m.count_lww_element_references, count_references: m.count_references, extra_byte_references: seq![] }, repeated_bytes_fields(6, m.extra_byte_references)) == Some(SpecQueryReferencesRequest { reference: m.reference, cursor: m.cursor, request_events: m.request_events, count_lww_element_references: m.count_lww_element_references, count_references: m.count_references, extra_byte_references: m.extra_byte_references }),
{
    let d = SpecQueryReferencesRequest { reference: m.reference, cursor: m.cursor, request_events: m.request_events, count_lww_element_references: m.count_lww_element_references, count_references: m.count_references, extra_byte_references: seq![] };
    lemma_query_references_request_apply_extra_byte_references(d, m.extra_byte_references);
    assert(d.extra_byte_references + m.extra_byte_references =~= m.extra_byte_references);
}

/// Decoding the encoding of a [`QueryReferencesRequest`] gives back the value (for every value
/// whose encoding fits a 64-bit length).
pub proof fn lemma_query_references_request_round_trip(m: SpecQueryReferencesRequest)
    requires
        spec_encode_query_references_request(m).len() < 0x1_0000_0000_0000_0000,
    ensures
        spec_decode_query_references_request(spec_encode_query_references_request(m)) == Some(m),
{
    let fs = query_references_request_fields(m);
    lemma_query_references_request_tags_ok(m);
    lemma_decode_fields(query_references_request_applier(), default_query_references_request(), fs);
    lemma_query_references_request_part_lengths(m);
    lemma_query_references_request_step_reference(m);
    lemma_query_references_request_step_cursor(m);
    lemma_query_references_request_step_request_events(m);
    lemma_query_references_request_step_count_lww_element_references(m);
    lemma_query_references_request_step_count_references(m);
    lemma_query_references_request_step_extra_byte_references(m);
    lemma_apply_concat(query_references_request_applier(), default_query_references_request(), opt_bytes_field(1, match m.reference { Some(v) => Some(spec_encode_reference(v)), None => None }), opt_bytes_field(2, m.cursor));
    lemma_apply_concat(query_references_request_applier(), default_query_references_request(), opt_bytes_field(1, match m.reference { Some(v) => Some(spec_encode_reference(v)), None => None }) + opt_bytes_field(2, m.cursor), opt_bytes_field(3, match m.request_events { Some(v) => Some(spec_encode_query_references_request_events(v)), None => None }));
    lemma_apply_concat(query_references_request_applier(), default_query_references_request(), opt_bytes_field(1, match m.reference { Some(v) => Some(spec_encode_reference(v)), None => None }) + opt_bytes_field(2, m.cursor) + opt_bytes_field(3, match m.request_events { Some(v) => Some(spec_encode_query_references_request_events(v)), None => None }), repeated_bytes_fields(4, encode_query_references_request_count_lww_element_references_list(m.count_lww_element_references)));
    lemma_apply_concat(query_references_request_applier(), default_query_references_request(), opt_bytes_field(1, match m.reference { Some(v) => Some(spec_encode_reference(v)), None => None }) + opt_bytes_field(2, m.cursor) + opt_bytes_field(3, match m.request_events { Some(v) => Some(spec_encode_query_references_request_events(v)), None => None }) + repeated_bytes_fields(4, encode_query_references_request_count_lww_element_references_list(m.count_lww_element_references)), repeated_bytes_fields(5, encode_query_references_request_count_references_list(m.count_references)));
    lemma_apply_concat(query_references_request_applier(), default_query_references_request(), opt_bytes_field(1, match m.reference { Some(v) => Some(spec_encode_reference(v)), None => None }) + opt_bytes_field(2, m.cursor) + opt_bytes_field(3, match m.request_events { Some(v) => Some(spec_encode_query_references_request_events(v)), None => None }) + repeated_bytes_fields(4, encode_query_references_request_count_lww_element_references_list(m.count_lww_element_references)) + repeated_bytes_fields(5, encode_query_references_request_count_references_list(m.count_references)), repeated_bytes_fields(6, m.extra_byte_references));
    assert(SpecQueryReferencesRequest { reference: m.reference, cursor: m.cursor, request_events: m.request_events, count_lww_element_references: m.count_lww_element_references, count_references: m.count_references, extra_byte_references: m.extra_byte_references } =~= m);
}

/// A referencing event, with its counts.
#[derive(Clone, Debug, PartialEq, Eq, Default)]
pub struct QueryReferencesResponseEventItem {
    pub event: Option<SignedEvent>,
    pub counts: Vec<u64>,
}

/// The value of a [`QueryReferencesResponseEventItem`].
#[verifier::ext_equal]
pub struct SpecQueryReferencesResponseEventItem {
    pub event: Option<SpecSignedEvent>,
    pub counts: Seq<u64>,
}

impl View for QueryReferencesResponseEventItem {
    type V = SpecQueryReferencesResponseEventItem;

    open spec fn view(&self) -> SpecQueryReferencesResponseEventItem {
        SpecQueryReferencesResponseEventItem {
            event: match self.event { Some(v) => Some(v@), None => None },
            counts: self.counts@,
        }
    }
}

/// The value that decoding starts from: every field at its default.
pub open spec fn default_query_references_response_event_item() -> SpecQueryReferencesResponseEventItem {
    SpecQueryReferencesResponseEventItem { event: None, counts: seq![] }
}

/// The fields that a [`QueryReferencesResponseEventItem`] is written as, in field-number order; fields
/// at their default are left out.
pub open spec fn query_references_response_event_item_fields(m: SpecQueryReferencesResponseEventItem) -> Seq<WireField> {
    opt_bytes_field(1, match m.event { Some(v) => Some(spec_encode_signed_event(v)), None => None })
        + packed_field(2, m.counts)
}

/// The encoding of a [`QueryReferencesResponseEventItem`].
pub open spec fn spec_encode_query_references_response_event_item(m: SpecQueryReferencesResponseEventItem) -> Seq<u8> {
    spec_encode_fields(query_references_response_event_item_fields(m))
}

/// Merges one field into a [`QueryReferencesResponseEventItem`]: a known field number must come with
/// its wire type; fields with other numbers are skipped.
pub open spec fn apply_query_references_response_event_item(m: SpecQueryReferencesResponseEventItem, f: WireField) -> Option<SpecQueryReferencesResponseEventItem> {
    if f.tag == 1 {
        match field_bytes(f) { Some(b) => match spec_merge_signed_event(match m.event { Some(v) => v, None => default_signed_event() }, b) { Some(v) => Some(SpecQueryReferencesResponseEventItem { event: Some(v), counts: m.counts }), None => None }, None => None }
    } else if f.tag == 2 {
        match merge_packed(m.counts, f) { Some(vs) => Some(SpecQueryReferencesResponseEventItem { event: m.event, counts: vs }), None => None }
    } else {
        Some(m)
    }
}

pub open spec fn query_references_response_event_item_applier() -> spec_fn(SpecQueryReferencesResponseEventItem, WireField) -> Option<SpecQueryReferencesResponseEventItem> {
    |m: SpecQueryReferencesResponseEventItem, f: WireField| apply_query_references_response_event_item(m, f)
}

/// Merges the fields of `b` into `m`.
pub open spec fn spec_merge_query_references_response_event_item(m: SpecQueryReferencesResponseEventItem, b: Seq<u8>) -> Option<SpecQueryReferencesResponseEventItem> {
    spec_merge_with(query_references_response_event_item_applier(), m, b)
}

/// Decodes a [`QueryReferencesResponseEventItem`]: the fields of `b` merged into the default.
pub open spec fn spec_decode_query_references_response_event_item(b: Seq<u8>) -> Option<SpecQueryReferencesResponseEventItem> {
    spec_merge_query_references_response_event_item(default_query_references_response_event_item(), b)
}

/// The values of a list of [`QueryReferencesResponseEventItem`]s.
pub open spec fn view_query_references_response_event_items(v: Seq<QueryReferencesResponseEventItem>) -> Seq<SpecQueryReferencesResponseEventItem> {
    v.map_values(|x: QueryReferencesResponseEventItem| x@)
}

/// The encodings of a list of [`QueryReferencesResponseEventItem`] values.
pub open spec fn encode_query_references_response_event_items(v: Seq<SpecQueryReferencesResponseEventItem>) -> Seq<Seq<u8>> {
    v.map_values(|x: SpecQueryReferencesResponseEventItem| spec_encode_query_references_response_event_item(x))
}

impl QueryReferencesResponseEventItem {
    /// A value with every field at its default.
    pub fn new_default() -> (r: Self)
        ensures
            r@ == default_query_references_response_event_item(),
    {
        let r = QueryReferencesResponseEventItem { event: None, counts: Vec::new() };
        assert(r@ =~= default_query_references_response_event_item());
        r
    }

    /// A copy.
    pub fn duplicate(&self) -> (r: Self)
        ensures
            r@ == self@,
    {
        let r = QueryReferencesResponseEventItem {
            event: match &self.event { Some(v) => Some(v.duplicate()), None => None },
            counts: vstd::slice::slice_to_vec(self.counts.as_slice()),
        };
        assert(r@ =~= self@);
        r
    }

    /// The protocol encoding.
    pub fn encode(&self) -> (r: Vec<u8>)
        ensures
            r@ == spec_encode_query_references_response_event_item(self@),
    {
        broadcast use group_field_lists;

        let mut out: Vec<u8> = Vec::new();
        match &self.event {
            Some(v) => {
                let e = v.encode();
                put_bytes_always(1, e.as_slice(), &mut out);
            },
            None => {},
        }
        put_packed(2, &self.counts, &mut out);
        assert(out@ =~= spec_encode_query_references_response_event_item(self@));
        out
    }

    fn apply_field(&mut self, buf: &[u8], f: &RawField) -> (ok: bool)
        requires
            raw_field_within(*f, buf@.len()),
        ensures
            match apply_query_references_response_event_item(old(self)@, raw_field_view(*f, buf@)) {
                Some(m) => ok && final(self)@ == m,
                None => !ok,
            },
    {
        if f.tag == 1 {
            match f.value {
                RawValue::Bytes(s, e) => {
                    let mut sub = match &self.event {
                        Some(v) => v.duplicate(),
                        None => SignedEvent::new_default(),
                    };
                    if sub.merge(buf, s, e) {
                        self.event = Some(sub);
                        true
                    } else {
                        false
                    }
                },
                _ => false,
            }
        } else if f.tag == 2 {
            raw_merge_packed(&mut self.counts, buf, f)
        } else {
            true
        }
    }

    /// Merges the fields of `buf[start..end]` into `self`; `false` where the
    /// bytes are not a valid encoding (`self` is then left in no stated state).
    pub fn merge(&mut self, buf: &[u8], start: usize, end: usize) -> (ok: bool)
        requires
            start <= end <= buf@.len(),
        ensures
            match spec_merge_query_references_response_event_item(old(self)@, buf@.subrange(start as int, end as int)) {
                Some(m) => ok && final(self)@ == m,
                None => !ok,
            },
    {
        let mut pos = start;
        while pos < end
            invariant
                start <= pos <= end <= buf@.len(),
                spec_merge_query_references_response_event_item(old(self)@, buf@.subrange(start as int, end as int)) == spec_merge_query_references_response_event_item(
                    self@,
                    buf@.subrange(pos as int, end as int),
                ),
            decreases end - pos,
        {
            match read_field(buf, pos, end) {
                Some((f, next)) => {
                    proof {
                        lemma_merge_step(
                            query_references_response_event_item_applier(),
                            self@,
                            buf@,
                            pos as nat,
                            next as nat,
                            end as nat,
                            raw_field_view(f, buf@),
                        );
                    }
                    if !self.apply_field(buf, &f) {
                        return false;
                    }
                    pos = next;
                },
                None => {
                    proof {
                        lemma_merge_bad_field(query_references_response_event_item_applier(), self@, buf@, pos as nat, end as nat);
                    }
                    return false;
                },
            }
        }
        proof {
            lemma_merge_empty(query_references_response_event_item_applier(), self@, buf@, pos as nat);
        }
        true
    }

    /// Decodes a [`QueryReferencesResponseEventItem`] from its protocol encoding; `None` where the bytes
    /// are not one.
    pub fn decode(buf: &[u8]) -> (r: Option<Self>)
        ensures
            match spec_decode_query_references_response_event_item(buf@) {
                Some(m) => r matches Some(x) && x@ == m,
                None => r is None,
            },
    {
        let mut m = QueryReferencesResponseEventItem::new_default();
        assert(buf@.subrange(0, buf@.len() as int) =~= buf@);
        if m.merge(buf, 0, buf.len()) {
            Some(m)
        } else {
            None
        }
    }
}

/// Appends one field per item of `items`, each holding the item's encoding.
pub fn put_query_references_response_event_items(tag: u64, items: &Vec<QueryReferencesResponseEventItem>, out: &mut Vec<u8>)
    requires
        1 <= tag <= 0x1fff_ffff,
    ensures
        final(out)@ == old(out)@ + spec_encode_fields(
            repeated_bytes_fields(tag as nat, encode_query_references_response_event_items(view_query_references_response_event_items(items@))),
        ),
{
    let ghost all = encode_query_references_response_event_items(view_query_references_response_event_items(items@));
    let mut i: usize = 0;
    while i < items.len()
        invariant
            1 <= tag <= 0x1fff_ffff,
            i <= items@.len(),
            all == encode_query_references_response_event_items(view_query_references_response_event_items(items@)),
            out@ == old(out)@ + spec_encode_fields(repeated_bytes_fields(tag as nat, all.take(i as int))),
        decreases items@.len() - i,
    {
        let e = items[i].encode();
        put_bytes_always(tag, e.as_slice(), out);
        let ghost f = WireField { tag: tag as nat, value: WireValue::Bytes(e@) };
        let ghost prev = repeated_bytes_fields(tag as nat, all.take(i as int));
        assert(all[i as int] == e@);
        assert(repeated_bytes_fields(tag as nat, all.take(i + 1)) =~= prev + seq![f]);
        proof {
            lemma_encode_fields_concat(prev, seq![f]);
            lemma_encode_single_field(f);
        }
        assert(out@ =~= old(out)@ + spec_encode_fields(prev + seq![f]));
        i = i + 1;
    }
    assert(all.take(i as int) =~= all);
}

/// A copy of a list of [`QueryReferencesResponseEventItem`]s.
pub fn duplicate_query_references_response_event_items(items: &Vec<QueryReferencesResponseEventItem>) -> (r: Vec<QueryReferencesResponseEventItem>)
    ensures
        view_query_references_response_event_items(r@) == view_query_references_response_event_items(items@),
{
    let mut r: Vec<QueryReferencesResponseEventItem> = Vec::new();
    let mut i: usize = 0;
    while i < items.len()
        invariant
            i <= items@.len(),
            view_query_references_response_event_items(r@) == view_query_references_response_event_items(items@).take(i as int),
        decreases items@.len() - i,
    {
        let ghost before = r@;
        let d = items[i].duplicate();
        r.push(d);
        assert(view_query_references_response_event_items(r@) =~= view_query_references_response_event_items(before).push(d@));
        assert(view_query_references_response_event_items(items@).take(i + 1) =~= view_query_references_response_event_items(items@).take(i as int).push(items@[i as int]@));
        i = i + 1;
    }
    assert(view_query_references_response_event_items(items@).take(i as int) =~= view_query_references_response_event_items(items@));
    r
}

proof fn lemma_query_references_response_event_item_tags_ok(m: SpecQueryReferencesResponseEventItem)
    ensures
        fields_tags_ok(query_references_response_event_item_fields(m)),
{
    lemma_tags_ok_opt_bytes(1, match m.event { Some(v) => Some(spec_encode_signed_event(v)), None => None });
    lemma_tags_ok_packed(2, m.counts);
    lemma_tags_ok_concat(opt_bytes_field(1, match m.event { Some(v) => Some(spec_encode_signed_event(v)), None => None }), packed_field(2, m.counts));
}

proof fn lemma_query_references_response_event_item_part_lengths(m: SpecQueryReferencesResponseEventItem)
    ensures
        spec_encode_fields(opt_bytes_field(1, match m.event { Some(v) => Some(spec_encode_signed_event(v)), None => None })).len() <= spec_encode_fields(query_references_response_event_item_fields(m)).len(),
        spec_encode_fields(packed_field(2, m.counts)).len() <= spec_encode_fields(query_references_response_event_item_fields(m)).len(),
{
    broadcast use group_field_lists;

}

proof fn lemma_query_references_response_event_item_step_event(m: SpecQueryReferencesResponseEventItem)
    requires
        spec_encode_fields(opt_bytes_field(1, match m.event { Some(v) => Some(spec_encode_signed_event(v)), None => None })).len() < 0x1_0000_0000_0000_0000,
    ensures
        spec_apply_all(query_references_response_event_item_applier(), SpecQueryReferencesResponseEventItem { event: None, counts: seq![] }, opt_bytes_field(1, match m.event { Some(v) => Some(spec_encode_signed_event(v)), None => None })) == Some(SpecQueryReferencesResponseEventItem { event: m.event, counts: seq![] }),
{
    let d = SpecQueryReferencesResponseEventItem { event: None, counts: seq![] };
    lemma_apply_opt_bytes_field(
        query_references_response_event_item_applier(),
        d,
        1,
        match m.event {
            Some(v) => Some(spec_encode_signed_event(v)),
            None => None,
        },
    );
    match m.event {
        Some(v) => {
            let fld = WireField { tag: 1, value: WireValue::Bytes(spec_encode_signed_event(v)) };
            lemma_encode_single_field(fld);
            lemma_field_payload_le(fld);
            lemma_signed_event_round_trip(v);
        },
        None => {},
    }
}

proof fn lemma_query_references_response_event_item_step_counts(m: SpecQueryReferencesResponseEventItem)
    requires
        spec_encode_fields(packed_field(2, m.counts)).len() < 0x1_0000_0000_0000_0000,
    ensures
        spec_apply_all(query_references_response_event_item_applier(), SpecQueryReferencesResponseEventItem { event: m.event, counts: seq![] }, packed_field(2, m.counts)) == Some(SpecQueryReferencesResponseEventItem { event: m.event, counts: m.counts }),
{
    let d = SpecQueryReferencesResponseEventItem { event: m.event, counts: seq![] };
    lemma_apply_packed_field(query_references_response_event_item_applier(), d, 2, m.counts);
    lemma_parse_packed(m.counts);
    assert(d.counts + m.counts =~= m.counts);
    if m.counts.len() == 0 {
        assert(m.counts =~= Seq::<u64>::empty());
    }
}

/// Decoding the encoding of a [`QueryReferencesResponseEventItem`] gives back the value (for every value
/// whose encoding fits a 64-bit length).
pub proof fn lemma_query_references_response_event_item_round_trip(m: SpecQueryReferencesResponseEventItem)
    requires
        spec_encode_query_references_response_event_item(m).len() < 0x1_0000_0000_0000_0000,
    ensures
        spec_decode_query_references_response_event_item(spec_encode_query_references_response_event_item(m)) == Some(m),
{
    let fs = query_references_response_event_item_fields(m);
    lemma_query_references_response_event_item_tags_ok(m);
    lemma_decode_fields(query_references_response_event_item_applier(), default_query_references_response_event_item(), fs);
    lemma_query_references_response_event_item_part_lengths(m);
    lemma_query_references_response_event_item_step_event(m);
    lemma_query_references_response_event_item_step_counts(m);
    lemma_apply_concat(query_references_response_event_item_applier(), default_query_references_response_event_item(), opt_bytes_field(1, match m.event { Some(v) => Some(spec_encode_signed_event(v)), None => None }), packed_field(2, m.counts));
    assert(SpecQueryReferencesResponseEventItem { event: m.event, counts: m.counts } =~= m);
}

/// The answer to a query for references.
#[derive(Clone, Debug, PartialEq, Eq, Default)]
pub struct QueryReferencesResponse {
    pub items: Vec<QueryReferencesResponseEventItem>,
    pub related_events: Vec<SignedEvent>,
    pub cursor: Option<Vec<u8>>,
    pub counts: Vec<u64>,
}

/// The value of a [`QueryReferencesResponse`].
#[verifier::ext_equal]
pub struct SpecQueryReferencesResponse {
    pub items: Seq<SpecQueryReferencesResponseEventItem>,
    pub related_events: Seq<SpecSignedEvent>,
    pub cursor: Option<Seq<u8>>,
    pub counts: Seq<u64>,
}

impl View for QueryReferencesResponse {
    type V = SpecQueryReferencesResponse;

    open spec fn view(&self) -> SpecQueryReferencesResponse {
        SpecQueryReferencesResponse {
            items: view_query_references_response_event_items(self.items@),
            related_events: view_signed_events(self.related_events@),
            cursor: match self.cursor { Some(v) => Some(v@), None => None },
            counts: self.counts@,
        }
    }
}

/// The value that decoding starts from: every field at its default.
pub open spec fn default_query_references_response() -> SpecQueryReferencesResponse {
    SpecQueryReferencesResponse { items: seq![], related_events: seq![], cursor: None, counts: seq![] }
}

/// The fields that a [`QueryReferencesResponse`] is written as, in field-number order; fields
/// at their default are left out.
pub open spec fn query_references_response_fields(m: SpecQueryReferencesResponse) -> Seq<WireField> {
    repeated_bytes_fields(1, encode_query_references_response_event_items(m.items))
        + repeated_bytes_fields(2, encode_signed_events(m.related_events))
        + opt_bytes_field(3, m.cursor)
        + packed_field(4, m.counts)
}

/// The encoding of a [`QueryReferencesResponse`].
pub open spec fn spec_encode_query_references_response(m: SpecQueryReferencesResponse) -> Seq<u8> {
    spec_encode_fields(query_references_response_fields(m))
}

/// Merges one field into a [`QueryReferencesResponse`]: a known field number must come with
/// its wire type; fields with other numbers are skipped.
pub open spec fn apply_query_references_response(m: SpecQueryReferencesResponse, f: WireField) -> Option<SpecQueryReferencesResponse> {
    if f.tag == 1 {
        match field_bytes(f) { Some(b) => match spec_decode_query_references_response_event_item(b) { Some(v) => Some(SpecQueryReferencesResponse { items: m.items.push(v), related_events: m.related_events, cursor: m.cursor, counts: m.counts }), None => None }, None => None }
    } else if f.tag == 2 {
        match field_bytes(f) { Some(b) => match spec_decode_signed_event(b) { Some(v) => Some(SpecQueryReferencesResponse { items: m.items, related_events: m.related_events.push(v), cursor: m.cursor, counts: m.counts }), None => None }, None => None }
    } else if f.tag == 3 {
        match field_bytes(f) { Some(b) => Some(SpecQueryReferencesResponse { items: m.items, related_events: m.related_events, cursor: Some(b), counts: m.counts }), None => None }
    } else if f.tag == 4 {
        match merge_packed(m.counts, f) { Some(vs) => Some(SpecQueryReferencesResponse { items: m.items, related_events: m.related_events, cursor: m.cursor, counts: vs }), None => None }
    } else {
        Some(m)
    }
}

pub open spec fn query_references_response_applier() -> spec_fn(SpecQueryReferencesResponse, WireField) -> Option<SpecQueryReferencesResponse> {
    |m: SpecQueryReferencesResponse, f: WireField| apply_query_references_response(m, f)
}

/// Merges the fields of `b` into `m`.
pub open spec fn spec_merge_query_references_response(m: SpecQueryReferencesResponse, b: Seq<u8>) -> Option<SpecQueryReferencesResponse> {
    spec_merge_with(query_references_response_applier(), m, b)
}

/// Decodes a [`QueryReferencesResponse`]: the fields of `b` merged into the default.
pub open spec fn spec_decode_query_references_response(b: Seq<u8>) -> Option<SpecQueryReferencesResponse> {
    spec_merge_query_references_response(default_query_references_response(), b)
}

/// The values of a list of [`QueryReferencesResponse`]s.
pub open spec fn view_query_references_responses(v: Seq<QueryReferencesResponse>) -> Seq<SpecQueryReferencesResponse> {
    v.map_values(|x: QueryReferencesResponse| x@)
}

/// The encodings of a list of [`QueryReferencesResponse`] values.
pub open spec fn encode_query_references_responses(v: Seq<SpecQueryReferencesResponse>) -> Seq<Seq<u8>> {
    v.map_values(|x: SpecQueryReferencesResponse| spec_encode_query_references_response(x))
}

impl QueryReferencesResponse {
    /// A value with every field at its default.
    pub fn new_default() -> (r: Self)
        ensures
            r@ == default_query_references_response(),
    {
        let r = QueryReferencesResponse { items: Vec::new(), related_events: Vec::new(), cursor: None, counts: Vec::new() };
        assert(r@ =~= default_query_references_response());
        r
    }

    /// A copy.
    pub fn duplicate(&self) -> (r: Self)
        ensures
            r@ == self@,
    {
        let r = QueryReferencesResponse {
            items: duplicate_query_references_response_event_items(&self.items),
            related_events: duplicate_signed_events(&self.related_events),
            cursor: match &self.cursor { Some(v) => Some(vstd::slice::slice_to_vec(v.as_slice())), None => None },
            counts: vstd::slice::slice_to_vec(self.counts.as_slice()),
        };
        assert(r@ =~= self@);
        r
    }

    /// The protocol encoding.
    pub fn encode(&self) -> (r: Vec<u8>)
        ensures
            r@ == spec_encode_query_references_response(self@),
    {
        broadcast use group_field_lists;

        let mut out: Vec<u8> = Vec::new();
        put_query_references_response_event_items(1, &self.items, &mut out);
        put_signed_events(2, &self.related_events, &mut out);
        put_opt_bytes(3, &self.cursor, &mut out);
        put_packed(4, &self.counts, &mut out);
        assert(out@ =~= spec_encode_query_references_response(self@));
        out
    }

    fn apply_field(&mut self, buf: &[u8], f: &RawField) -> (ok: bool)
        requires
            raw_field_within(*f, buf@.len()),
        ensures
            match apply_query_references_response(old(self)@, raw_field_view(*f, buf@)) {
                Some(m) => ok && final(self)@ == m,
                None => !ok,
            },
    {
        if f.tag == 1 {
            match f.value {
                RawValue::Bytes(s, e) => {
                    let mut sub = QueryReferencesResponseEventItem::new_default();
                    if sub.merge(buf, s, e) {
                        let ghost before = self.items@;
                        self.items.push(sub);
                        assert(view_query_references_response_event_items(self.items@) =~= view_query_references_response_event_items(before).push(sub@));
                        true
                    } else {
                        false
                    }
                },
                _ => false,
            }
        } else if f.tag == 2 {
            match f.value {
                RawValue::Bytes(s, e) => {
                    let mut sub = SignedEvent::new_default();
                    if sub.merge(buf, s, e) {
                        let ghost before = self.related_events@;
                        self.related_events.push(sub);
                        assert(view_signed_events(self.related_events@) =~= view_signed_events(before).push(sub@));
                        true
                    } else {
                        false
                    }
                },
                _ => false,
            }
        } else if f.tag == 3 {
            match raw_bytes(buf, f) { Some(b) => { self.cursor = Some(b); true }, None => false }
        } else if f.tag == 4 {
            raw_merge_packed(&mut self.counts, buf, f)
        } else {
            true
        }
    }

    /// Merges the fields of `buf[start..end]` into `self`; `false` where the
    /// bytes are not a valid encoding (`self` is then left in no stated state).
    pub fn merge(&mut self, buf: &[u8], start: usize, end: usize) -> (ok: bool)
        requires
            start <= end <= buf@.len(),
        ensures
            match spec_merge_query_references_response(old(self)@, buf@.subrange(start as int, end as int)) {
                Some(m) => ok && final(self)@ == m,
                None => !ok,
            },
    {
        let mut pos = start;
        while pos < end
            invariant
                start <= pos <= end <= buf@.len(),
                spec_merge_query_references_response(old(self)@, buf@.subrange(start as int, end as int)) == spec_merge_query_references_response(
                    self@,
                    buf@.subrange(pos as int, end as int),
                ),
            decreases end - pos,
        {
            match read_field(buf, pos, end) {
                Some((f, next)) => {
                    proof {
                        lemma_merge_step(
                            query_references_response_applier(),
                            self@,
                            buf@,
                            pos as nat,
                            next as nat,
                            end as nat,
                            raw_field_view(f, buf@),
                        );
                    }
                    if !self.apply_field(buf, &f) {
                        return false;
                    }
                    pos = next;
                },
                None => {
                    proof {
                        lemma_merge_bad_field(query_references_response_applier(), self@, buf@, pos as nat, end as nat);
                    }
                    return false;
                },
            }
        }
        proof {
            lemma_merge_empty(query_references_response_applier(), self@, buf@, pos as nat);
        }
        true
    }

    /// Decodes a [`QueryReferencesResponse`] from its protocol encoding; `None` where the bytes
    /// are not one.
    pub fn decode(buf: &[u8]) -> (r: Option<Self>)
        ensures
            match spec_decode_query_references_response(buf@) {
                Some(m) => r matches Some(x) && x@ == m,
                None => r is None,
            },
    {
        let mut m = QueryReferencesResponse::new_default();
        assert(buf@.subrange(0, buf@.len() as int) =~= buf@);
        if m.merge(buf, 0, buf.len()) {
            Some(m)
        } else {
            None
        }
    }
}

/// Applying the fields of `items` to the `items` of `m` appends them.
proof fn lemma_query_references_response_apply_items(m: SpecQueryReferencesResponse, items: Seq<SpecQueryReferencesResponseEventItem>)
    requires
        forall|i: int| 0 <= i < items.len() ==> (#[trigger] spec_encode_query_references_response_event_item(items[i])).len() < 0x1_0000_0000_0000_0000,
    ensures
        spec_apply_all(query_references_response_applier(), m, repeated_bytes_fields(1, encode_query_references_response_event_items(items))) == Some(SpecQueryReferencesResponse { items: m.items + items, related_events: m.related_events, cursor: m.cursor, counts: m.counts }),
    decreases items.len(),
{
    if items.len() == 0 {
        assert(repeated_bytes_fields(1, encode_query_references_response_event_items(items)) =~= Seq::<WireField>::empty());
        assert(m.items + items =~= m.items);
        assert(SpecQueryReferencesResponse { items: m.items + items, related_events: m.related_events, cursor: m.cursor, counts: m.counts } =~= m);
    } else {
        lemma_repeated_split(1, encode_query_references_response_event_items(items));
        assert(encode_query_references_response_event_items(items).drop_first() =~= encode_query_references_response_event_items(items.drop_first()));
        assert(encode_query_references_response_event_items(items)[0] == spec_encode_query_references_response_event_item(items[0]));
        lemma_query_references_response_event_item_round_trip(items[0]);
        let m1 = SpecQueryReferencesResponse { items: m.items.push(items[0]), related_events: m.related_events, cursor: m.cursor, counts: m.counts };
        lemma_apply_concat(query_references_response_applier(), m, seq![WireField { tag: 1, value: WireValue::Bytes(encode_query_references_response_event_items(items)[0]) }], repeated_bytes_fields(1, encode_query_references_response_event_items(items.drop_first())));
        lemma_apply_single(query_references_response_applier(), m, WireField { tag: 1, value: WireValue::Bytes(encode_query_references_response_event_items(items)[0]) });
        assert forall|i: int| 0 <= i < items.drop_first().len() implies (#[trigger] spec_encode_query_references_response_event_item(items.drop_first()[i])).len() < 0x1_0000_0000_0000_0000 by {
            assert(items.drop_first()[i] == items[i + 1]);
        }
        lemma_query_references_response_apply_items(m1, items.drop_first());
        assert(m1.items + items.drop_first() =~= m.items + items);
    }
}

/// Applying the fields of `items` to the `related_events` of `m` appends them.
proof fn lemma_query_references_response_apply_related_events(m: SpecQueryReferencesResponse, items: Seq<SpecSignedEvent>)
    requires
        forall|i: int| 0 <= i < items.len() ==> (#[trigger] spec_encode_signed_event(items[i])).len() < 0x1_0000_0000_0000_0000,
    ensures
        spec_apply_all(query_references_response_applier(), m, repeated_bytes_fields(2, encode_signed_events(items))) == Some(SpecQueryReferencesResponse { items: m.items, related_events: m.related_events + items, cursor: m.cursor, counts: m.counts }),
    decreases items.len(),
{
    if items.len() == 0 {
        assert(repeated_bytes_fields(2, encode_signed_events(items)) =~= Seq::<WireField>::empty());
        assert(m.related_events + items =~= m.related_events);
        assert(SpecQueryReferencesResponse { items: m.items, related_events: m.related_events + items, cursor: m.cursor, counts: m.counts } =~= m);
    } else {
        lemma_repeated_split(2, encode_signed_events(items));
        assert(encode_signed_events(items).drop_first() =~= encode_signed_events(items.drop_first()));
        assert(encode_signed_events(items)[0] == spec_encode_signed_event(items[0]));
        lemma_signed_event_round_trip(items[0]);
        let m1 = SpecQueryReferencesResponse { items: m.items, related_events: m.related_events.push(items[0]), cursor: m.cursor, counts: m.counts };
        lemma_apply_concat(query_references_response_applier(), m, seq![WireField { tag: 2, value: WireValue::Bytes(encode_signed_events(items)[0]) }], repeated_bytes_fields(2, encode_signed_events(items.drop_first())));
        lemma_apply_single(query_references_response_applier(), m, WireField { tag: 2, value: WireValue::Bytes(encode_signed_events(items)[0]) });
        assert forall|i: int| 0 <= i < items.drop_first().len() implies (#[trigger] spec_encode_signed_event(items.drop_first()[i])).len() < 0x1_0000_0000_0000_0000 by {
            assert(items.drop_first()[i] == items[i + 1]);
        }
        lemma_query_references_response_apply_related_events(m1, items.drop_first());
        assert(m1.related_events + items.drop_first() =~= m.related_events + items);
    }
}

proof fn lemma_query_references_response_tags_ok(m: SpecQueryReferencesResponse)
    ensures
        fields_tags_ok(query_references_response_fields(m)),
{
    lemma_tags_ok_repeated(1, encode_query_references_response_event_items(m.items));
    lemma_tags_ok_repeated(2, encode_signed_events(m.related_events));
    lemma_tags_ok_opt_bytes(3, m.cursor);
    lemma_tags_ok_packed(4, m.counts);
    lemma_tags_ok_concat(repeated_bytes_fields(1, encode_query_references_response_event_items(m.items)), repeated_bytes_fields(2, encode_signed_events(m.related_events)));
    lemma_tags_ok_concat(repeated_bytes_fields(1, encode_query_references_response_event_items(m.items)) + repeated_bytes_fields(2, encode_signed_events(m.related_events)), opt_bytes_field(3, m.cursor));
    lemma_tags_ok_concat(repeated_bytes_fields(1, encode_query_references_response_event_items(m.items)) + repeated_bytes_fields(2, encode_signed_events(m.related_events)) + opt_bytes_field(3, m.cursor), packed_field(4, m.counts));
}

proof fn lemma_query_references_response_part_lengths(m: SpecQueryReferencesResponse)
    ensures
        spec_encode_fields(repeated_bytes_fields(1, encode_query_references_response_event_items(m.items))).len() <= spec_encode_fields(query_references_response_fields(m)).len(),
        spec_encode_fields(repeated_bytes_fields(2, encode_signed_events(m.related_events))).len() <= spec_encode_fields(query_references_response_fields(m)).len(),
        spec_encode_fields(opt_bytes_field(3, m.cursor)).len() <= spec_encode_fields(query_references_response_fields(m)).len(),
        spec_encode_fields(packed_field(4, m.counts)).len() <= spec_encode_fields(query_references_response_fields(m)).len(),
{
    broadcast use group_field_lists;

}

proof fn lemma_query_references_response_step_items(m: SpecQueryReferencesResponse)
    requires
        spec_encode_fields(repeated_bytes_fields(1, encode_query_references_response_event_items(m.items))).len() < 0x1_0000_0000_0000_0000,
    ensures
        spec_apply_all(query_references_response_applier(), SpecQueryReferencesResponse { items: seq![], related_events: seq![], cursor: None, counts: seq![] }, repeated_bytes_fields(1, encode_query_references_response_event_items(m.items))) == Some(SpecQueryReferencesResponse { items: m.items, related_events: seq![], cursor: None, counts: seq![] }),
{
    let d = SpecQueryReferencesResponse { items: seq![], related_events: seq![], cursor: None, counts: seq![] };
    lemma_repeated_bounded(1, encode_query_references_response_event_items(m.items));
    assert forall|i: int| 0 <= i < m.items.len() implies (#[trigger] spec_encode_query_references_response_event_item(m.items[i])).len()
        < 0x1_0000_0000_0000_0000 by {
        assert(encode_query_references_response_event_items(m.items)[i] == spec_encode_query_references_response_event_item(m.items[i]));
    }
    lemma_query_references_response_apply_items(d, m.items);
    assert(d.items + m.items =~= m.items);
}

proof fn lemma_query_references_response_step_related_events(m: SpecQueryReferencesResponse)
    requires
        spec_encode_fields(repeated_bytes_fields(2, encode_signed_events(m.related_events))).len() < 0x1_0000_0000_0000_0000,
    ensures
        spec_apply_all(query_references_response_applier(), SpecQueryReferencesResponse { items: m.items, related_events: seq![], cursor: None, counts: seq![] }, repeated_bytes_fields(2, encode_signed_events(m.related_events))) == Some(SpecQueryReferencesResponse { items: m.items, related_events: m.related_events, cursor: None, counts: seq![] }),
{
    let d = SpecQueryReferencesResponse { items: m.items, related_events: seq![], cursor: None, counts: seq![] };
    lemma_repeated_bounded(2, encode_signed_events(m.related_events));
    assert forall|i: int| 0 <= i < m.related_events.len() implies (#[trigger] spec_encode_signed_event(m.related_events[i])).len()
        < 0x1_0000_0000_0000_0000 by {
        assert(encode_signed_events(m.related_events)[i] == spec_encode_signed_event(m.related_events[i]));
    }
    lemma_query_references_response_apply_related_events(d, m.related_events);
    assert(d.related_events + m.related_events =~= m.related_events);
}

proof fn lemma_query_references_response_step_cursor(m: SpecQueryReferencesResponse)
    requires
        spec_encode_fields(opt_bytes_field(3, m.cursor)).len() < 0x1_0000_0000_0000_0000,
    ensures
        spec_apply_all(query_references_response_applier(), SpecQueryReferencesResponse { items: m.items, related_events: m.related_events, cursor: None, counts: seq![] }, opt_bytes_field(3, m.cursor)) == Some(SpecQueryReferencesResponse { items: m.items, related_events: m.related_events, cursor: m.cursor, counts: seq![] }),
{
    let d = SpecQueryReferencesResponse { items: m.items, related_events: m.related_events, cursor: None, counts: seq![] };
    lemma_apply_opt_bytes_field(query_references_response_applier(), d, 3, m.cursor);
}

proof fn lemma_query_references_response_step_counts(m: SpecQueryReferencesResponse)
    requires
        spec_encode_fields(packed_field(4, m.counts)).len() < 0x1_0000_0000_0000_0000,
    ensures
        spec_apply_all(query_references_response_applier(), SpecQueryReferencesResponse { items: m.items, related_events: m.related_events, cursor: m.cursor, counts: seq![] }, packed_field(4, m.counts)) == Some(SpecQueryReferencesResponse { items: m.items, related_events: m.related_events, cursor: m.cursor, counts: m.counts }),
{
    let d = SpecQueryReferencesResponse { items: m.items, related_events: m.related_events, cursor: m.cursor, counts: seq![] };
    lemma_apply_packed_field(query_references_response_applier(), d, 4, m.counts);
    lemma_parse_packed(m.counts);
    assert(d.counts + m.counts =~= m.counts);
    if m.counts.len() == 0 {
        assert(m.counts =~= Seq::<u64>::empty());
    }
}

/// Decoding the encoding of a [`QueryReferencesResponse`] gives back the value (for every value
/// whose encoding fits a 64-bit length).
pub proof fn lemma_query_references_response_round_trip(m: SpecQueryReferencesResponse)
    requires
        spec_encode_query_references_response(m).len() < 0x1_0000_0000_0000_0000,
    ensures
        spec_decode_query_references_response(spec_encode_query_references_response(m)) == Some(m),
{
    let fs = query_references_response_fields(m);
    lemma_query_references_response_tags_ok(m);
    lemma_decode_fields(query_references_response_applier(), default_query_references_response(), fs);
    lemma_query_references_response_part_lengths(m);
    lemma_query_references_response_step_items(m);
    lemma_query_references_response_step_related_events(m);
    lemma_query_references_response_step_cursor(m);
    lemma_query_references_response_step_counts(m);
    lemma_apply_concat(query_references_response_applier(), default_query_references_response(), repeated_bytes_fields(1, encode_query_references_response_event_items(m.items)), repeated_bytes_fields(2, encode_signed_events(m.related_events)));
    lemma_apply_concat(query_references_response_applier(), default_query_references_response(), repeated_bytes_fields(1, encode_query_references_response_event_items(m.items)) + repeated_bytes_fields(2, encode_signed_events(m.related_events)), opt_bytes_field(3, m.cursor));
    lemma_apply_concat(query_references_response_applier(), default_query_references_response(), repeated_bytes_fields(1, encode_query_references_response_event_items(m.items)) + repeated_bytes_fields(2, encode_signed_events(m.related_events)) + opt_bytes_field(3, m.cursor), packed_field(4, m.counts));
    assert(SpecQueryReferencesResponse { items: m.items, related_events: m.related_events, cursor: m.cursor, counts: m.counts } =~= m);
}

/// The answer of the explore and search endpoints.
#[derive(Clone, Debug, PartialEq, Eq, Default)]
pub struct ResultEventsAndRelatedEventsAndCursor {
    pub result_events: Option<Events>,
    pub related_events: Option<Events>,
    pub cursor: Option<Vec<u8>>,
}

/// The value of a [`ResultEventsAndRelatedEventsAndCursor`].
#[verifier::ext_equal]
pub struct SpecResultEventsAndRelatedEventsAndCursor {
    pub result_events: Option<SpecEvents>,
    pub related_events: Option<SpecEvents>,
    pub cursor: Option<Seq<u8>>,
}

impl View for ResultEventsAndRelatedEventsAndCursor {
    type V = SpecResultEventsAndRelatedEventsAndCursor;

    open spec fn view(&self) -> SpecResultEventsAndRelatedEventsAndCursor {
        SpecResultEventsAndRelatedEventsAndCursor {
            result_events: match self.result_events { Some(v) => Some(v@), None => None },
            related_events: match self.related_events { Some(v) => Some(v@), None => None },
            cursor: match self.cursor { Some(v) => Some(v@), None => None },
        }
    }
}

/// The value that decoding starts from: every field at its default.
pub open spec fn default_result_events_and_related_events_and_cursor() -> SpecResultEventsAndRelatedEventsAndCursor {
    SpecResultEventsAndRelatedEventsAndCursor { result_events: None, related_events: None, cursor: None }
}

/// The fields that a [`ResultEventsAndRelatedEventsAndCursor`] is written as, in field-number order; fields
/// at their default are left out.
pub open spec fn result_events_and_related_events_and_cursor_fields(m: SpecResultEventsAndRelatedEventsAndCursor) -> Seq<WireField> {
    opt_bytes_field(1, match m.result_events { Some(v) => Some(spec_encode_events(v)), None => None })
        + opt_bytes_field(2, match m.related_events { Some(v) => Some(spec_encode_events(v)), None => None })
        + opt_bytes_field(3, m.cursor)
}

/// The encoding of a [`ResultEventsAndRelatedEventsAndCursor`].
pub open spec fn spec_encode_result_events_and_related_events_and_cursor(m: SpecResultEventsAndRelatedEventsAndCursor) -> Seq<u8> {
    spec_encode_fields(result_events_and_related_events_and_cursor_fields(m))
}

/// Merges one field into a [`ResultEventsAndRelatedEventsAndCursor`]: a known field number must come with
/// its wire type; fields with other numbers are skipped.
pub open spec fn apply_result_events_and_related_events_and_cursor(m: SpecResultEventsAndRelatedEventsAndCursor, f: WireField) -> Option<SpecResultEventsAndRelatedEventsAndCursor> {
    if f.tag == 1 {
        match field_bytes(f) { Some(b) => match spec_merge_events(match m.result_events { Some(v) => v, None => default_events() }, b) { Some(v) => Some(SpecResultEventsAndRelatedEventsAndCursor { result_events: Some(v), related_events: m.related_events, cursor: m.cursor }), None => None }, None => None }
    } else if f.tag == 2 {
        match field_bytes(f) { Some(b) => match spec_merge_events(match m.related_events { Some(v) => v, None => default_events() }, b) { Some(v) => Some(SpecResultEventsAndRelatedEventsAndCursor { result_events: m.result_events, related_events: Some(v), cursor: m.cursor }), None => None }, None => None }
    } else if f.tag == 3 {
        match field_bytes(f) { Some(b) => Some(SpecResultEventsAndRelatedEventsAndCursor { result_events: m.result_events, related_events: m.related_events, cursor: Some(b) }), None => None }
    } else {
        Some(m)
    }
}

pub open spec fn result_events_and_related_events_and_cursor_applier() -> spec_fn(SpecResultEventsAndRelatedEventsAndCursor, WireField) -> Option<SpecResultEventsAndRelatedEventsAndCursor> {
    |m: SpecResultEventsAndRelatedEventsAndCursor, f: WireField| apply_result_events_and_related_events_and_cursor(m, f)
}

/// Merges the fields of `b` into `m`.
pub open spec fn spec_merge_result_events_and_related_events_and_cursor(m: SpecResultEventsAndRelatedEventsAndCursor, b: Seq<u8>) -> Option<SpecResultEventsAndRelatedEventsAndCursor> {
    spec_merge_with(result_events_and_related_events_and_cursor_applier(), m, b)
}

/// Decodes a [`ResultEventsAndRelatedEventsAndCursor`]: the fields of `b` merged into the default.
pub open spec fn spec_decode_result_events_and_related_events_and_cursor(b: Seq<u8>) -> Option<SpecResultEventsAndRelatedEventsAndCursor> {
    spec_merge_result_events_and_related_events_and_cursor(default_result_events_and_related_events_and_cursor(), b)
}

/// The values of a list of [`ResultEventsAndRelatedEventsAndCursor`]s.
pub open spec fn view_result_events_and_related_events_and_cursors(v: Seq<ResultEventsAndRelatedEventsAndCursor>) -> Seq<SpecResultEventsAndRelatedEventsAndCursor> {
    v.map_values(|x: ResultEventsAndRelatedEventsAndCursor| x@)
}

/// The encodings of a list of [`ResultEventsAndRelatedEventsAndCursor`] values.
pub open spec fn encode_result_events_and_related_events_and_cursors(v: Seq<SpecResultEventsAndRelatedEventsAndCursor>) -> Seq<Seq<u8>> {
    v.map_values(|x: SpecResultEventsAndRelatedEventsAndCursor| spec_encode_result_events_and_related_events_and_cursor(x))
}

impl ResultEventsAndRelatedEventsAndCursor {
    /// A value with every field at its default.
    pub fn new_default() -> (r: Self)
        ensures
            r@ == default_result_events_and_related_events_and_cursor(),
    {
        let r = ResultEventsAndRelatedEventsAndCursor { result_events: None, related_events: None, cursor: None };
        assert(r@ =~= default_result_events_and_related_events_and_cursor());
        r
    }

    /// A copy.
    pub fn duplicate(&self) -> (r: Self)
        ensures
            r@ == self@,
    {
        let r = ResultEventsAndRelatedEventsAndCursor {
            result_events: match &self.result_events { Some(v) => Some(v.duplicate()), None => None },
            related_events: match &self.related_events { Some(v) => Some(v.duplicate()), None => None },
            cursor: match &self.cursor { Some(v) => Some(vstd::slice::slice_to_vec(v.as_slice())), None => None },
        };
        assert(r@ =~= self@);
        r
    }

    /// The protocol encoding.
    pub fn encode(&self) -> (r: Vec<u8>)
        ensures
            r@ == spec_encode_result_events_and_related_events_and_cursor(self@),
    {
        broadcast use group_field_lists;

        let mut out: Vec<u8> = Vec::new();
        match &self.result_events {
            Some(v) => {
                let e = v.encode();
                put_bytes_always(1, e.as_slice(), &mut out);
            },
            None => {},
        }
        match &self.related_events {
            Some(v) => {
                let e = v.encode();
                put_bytes_always(2, e.as_slice(), &mut out);
            },
            None => {},
        }
        put_opt_bytes(3, &self.cursor, &mut out);
        assert(out@ =~= spec_encode_result_events_and_related_events_and_cursor(self@));
        out
    }

    fn apply_field(&mut self, buf: &[u8], f: &RawField) -> (ok: bool)
        requires
            raw_field_within(*f, buf@.len()),
        ensures
            match apply_result_events_and_related_events_and_cursor(old(self)@, raw_field_view(*f, buf@)) {
                Some(m) => ok && final(self)@ == m,
                None => !ok,
            },
    {
        if f.tag == 1 {
            match f.value {
                RawValue::Bytes(s, e) => {
                    let mut sub = match &self.result_events {
                        Some(v) => v.duplicate(),
                        None => Events::new_default(),
                    };
                    if sub.merge(buf, s, e) {
                        self.result_events = Some(sub);
                        true
                    } else {
                        false
                    }
                },
                _ => false,
            }
        } else if f.tag == 2 {
            match f.value {
                RawValue::Bytes(s, e) => {
                    let mut sub = match &self.related_events {
                        Some(v) => v.duplicate(),
                        None => Events::new_default(),
                    };
                    if sub.merge(buf, s, e) {
                        self.related_events = Some(sub);
                        true
                    } else {
                        false
                    }
                },
                _ => false,
            }
        } else if f.tag == 3 {
            match raw_bytes(buf, f) { Some(b) => { self.cursor = Some(b); true }, None => false }
        } else {
            true
        }
    }

    /// Merges the fields of `buf[start..end]` into `self`; `false` where the
    /// bytes are not a valid encoding (`self` is then left in no stated state).
    pub fn merge(&mut self, buf: &[u8], start: usize, end: usize) -> (ok: bool)
        requires
            start <= end <= buf@.len(),
        ensures
            match spec_merge_result_events_and_related_events_and_cursor(old(self)@, buf@.subrange(start as int, end as int)) {
                Some(m) => ok && final(self)@ == m,
                None => !ok,
            },
    {
        let mut pos = start;
        while pos < end
            invariant
                start <= pos <= end <= buf@.len(),
                spec_merge_result_events_and_related_events_and_cursor(old(self)@, buf@.subrange(start as int, end as int)) == spec_merge_result_events_and_related_events_and_cursor(
                    self@,
                    buf@.subrange(pos as int, end as int),
                ),
            decreases end - pos,
        {
            match read_field(buf, pos, end) {
                Some((f, next)) => {
                    proof {
                        lemma_merge_step(
                            result_events_and_related_events_and_cursor_applier(),
                            self@,
                            buf@,
                            pos as nat,
                            next as nat,
                            end as nat,
                            raw_field_view(f, buf@),
                        );
                    }
                    if !self.apply_field(buf, &f) {
                        return false;
                    }
                    pos = next;
                },
                None => {
                    proof {
                        lemma_merge_bad_field(result_events_and_related_events_and_cursor_applier(), self@, buf@, pos as nat, end as nat);
                    }
                    return false;
                },
            }
        }
        proof {
            lemma_merge_empty(result_events_and_related_events_and_cursor_applier(), self@, buf@, pos as nat);
        }
        true
    }

    /// Decodes a [`ResultEventsAndRelatedEventsAndCursor`] from its protocol encoding; `None` where the bytes
    /// are not one.
    pub fn decode(buf: &[u8]) -> (r: Option<Self>)
        ensures
            match spec_decode_result_events_and_related_events_and_cursor(buf@) {
                Some(m) => r matches Some(x) && x@ == m,
                None => r is None,
            },
    {
        let mut m = ResultEventsAndRelatedEventsAndCursor::new_default();
        assert(buf@.subrange(0, buf@.len() as int) =~= buf@);
        if m.merge(buf, 0, buf.len()) {
            Some(m)
        } else {
            None
        }
    }
}

proof fn lemma_result_events_and_related_events_and_cursor_tags_ok(m: SpecResultEventsAndRelatedEventsAndCursor)
    ensures
        fields_tags_ok(result_events_and_related_events_and_cursor_fields(m)),
{
    lemma_tags_ok_opt_bytes(1, match m.result_events { Some(v) => Some(spec_encode_events(v)), None => None });
    lemma_tags_ok_opt_bytes(2, match m.related_events { Some(v) => Some(spec_encode_events(v)), None => None });
    lemma_tags_ok_opt_bytes(3, m.cursor);
    lemma_tags_ok_concat(opt_bytes_field(1, match m.result_events { Some(v) => Some(spec_encode_events(v)), None => None }), opt_bytes_field(2, match m.related_events { Some(v) => Some(spec_encode_events(v)), None => None }));
    lemma_tags_ok_concat(opt_bytes_field(1, match m.result_events { Some(v) => Some(spec_encode_events(v)), None => None }) + opt_bytes_field(2, match m.related_events { Some(v) => Some(spec_encode_events(v)), None => None }), opt_bytes_field(3, m.cursor));
}

proof fn lemma_result_events_and_related_events_and_cursor_part_lengths(m: SpecResultEventsAndRelatedEventsAndCursor)
    ensures
        spec_encode_fields(opt_bytes_field(1, match m.result_events { Some(v) => Some(spec_encode_events(v)), None => None })).len() <= spec_encode_fields(result_events_and_related_events_and_cursor_fields(m)).len(),
        spec_encode_fields(opt_bytes_field(2, match m.related_events { Some(v) => Some(spec_encode_events(v)), None => None })).len() <= spec_encode_fields(result_events_and_related_events_and_cursor_fields(m)).len(),
        spec_encode_fields(opt_bytes_field(3, m.cursor)).len() <= spec_encode_fields(result_events_and_related_events_and_cursor_fields(m)).len(),
{
    broadcast use group_field_lists;

}

proof fn lemma_result_events_and_related_events_and_cursor_step_result_events(m: SpecResultEventsAndRelatedEventsAndCursor)
    requires
        spec_encode_fields(opt_bytes_field(1, match m.result_events { Some(v) => Some(spec_encode_events(v)), None => None })).len() < 0x1_0000_0000_0000_0000,
    ensures
        spec_apply_all(result_events_and_related_events_and_cursor_applier(), SpecResultEventsAndRelatedEventsAndCursor { result_events: None, related_events: None, cursor: None }, opt_bytes_field(1, match m.result_events { Some(v) => Some(spec_encode_events(v)), None => None })) == Some(SpecResultEventsAndRelatedEventsAndCursor { result_events: m.result_events, related_events: None, cursor: None }),
{
    let d = SpecResultEventsAndRelatedEventsAndCursor { result_events: None, related_events: None, cursor: None };
    lemma_apply_opt_bytes_field(
        result_events_and_related_events_and_cursor_applier(),
        d,
        1,
        match m.result_events {
            Some(v) => Some(spec_encode_events(v)),
            None => None,
        },
    );
    match m.result_events {
        Some(v) => {
            let fld = WireField { tag: 1, value: WireValue::Bytes(spec_encode_events(v)) };
            lemma_encode_single_field(fld);
            lemma_field_payload_le(fld);
            lemma_events_round_trip(v);
        },
        None => {},
    }
}

proof fn lemma_result_events_and_related_events_and_cursor_step_related_events(m: SpecResultEventsAndRelatedEventsAndCursor)
    requires
        spec_encode_fields(opt_bytes_field(2, match m.related_events { Some(v) => Some(spec_encode_events(v)), None => None })).len() < 0x1_0000_0000_0000_0000,
    ensures
        spec_apply_all(result_events_and_related_events_and_cursor_applier(), SpecResultEventsAndRelatedEventsAndCursor { result_events: m.result_events, related_events: None, cursor: None }, opt_bytes_field(2, match m.related_events { Some(v) => Some(spec_encode_events(v)), None => None })) == Some(SpecResultEventsAndRelatedEventsAndCursor { result_events: m.result_events, related_events: m.related_events, cursor: None }),
{
    let d = SpecResultEventsAndRelatedEventsAndCursor { result_events: m.result_events, related_events: None, cursor: None };
    lemma_apply_opt_bytes_field(
        result_events_and_related_events_and_cursor_applier(),
        d,
        2,
        match m.related_events {
            Some(v) => Some(spec_encode_events(v)),
            None => None,
        },
    );
    match m.related_events {
        Some(v) => {
            let fld = WireField { tag: 2, value: WireValue::Bytes(spec_encode_events(v)) };
            lemma_encode_single_field(fld);
            lemma_field_payload_le(fld);
            lemma_events_round_trip(v);
        },
        None => {},
    }
}

proof fn lemma_result_events_and_related_events_and_cursor_step_cursor(m: SpecResultEventsAndRelatedEventsAndCursor)
    requires
        spec_encode_fields(opt_bytes_field(3, m.cursor)).len() < 0x1_0000_0000_0000_0000,
    ensures
        spec_apply_all(result_events_and_related_events_and_cursor_applier(), SpecResultEventsAndRelatedEventsAndCursor { result_events: m.result_events, related_events: m.related_events, cursor: None }, opt_bytes_field(3, m.cursor)) == Some(SpecResultEventsAndRelatedEventsAndCursor { result_events: m.result_events, related_events: m.related_events, cursor: m.cursor }),
{
    let d = SpecResultEventsAndRelatedEventsAndCursor { result_events: m.result_events, related_events: m.related_events, cursor: None };
    lemma_apply_opt_bytes_field(result_events_and_related_events_and_cursor_applier(), d, 3, m.cursor);
}

/// Decoding the encoding of a [`ResultEventsAndRelatedEventsAndCursor`] gives back the value (for every value
/// whose encoding fits a 64-bit length).
pub proof fn lemma_result_events_and_related_events_and_cursor_round_trip(m: SpecResultEventsAndRelatedEventsAndCursor)
    requires
        spec_encode_result_events_and_related_events_and_cursor(m).len() < 0x1_0000_0000_0000_0000,
    ensures
        spec_decode_result_events_and_related_events_and_cursor(spec_encode_result_events_and_related_events_and_cursor(m)) == Some(m),
{
    let fs = result_events_and_related_events_and_cursor_fields(m);
    lemma_result_events_and_related_events_and_cursor_tags_ok(m);
    lemma_decode_fields(result_events_and_related_events_and_cursor_applier(), default_result_events_and_related_events_and_cursor(), fs);
    lemma_result_events_and_related_events_and_cursor_part_lengths(m);
    lemma_result_events_and_related_events_and_cursor_step_result_events(m);
    lemma_result_events_and_related_events_and_cursor_step_related_events(m);
    lemma_result_events_and_related_events_and_cursor_step_cursor(m);
    lemma_apply_concat(result_events_and_related_events_and_cursor_applier(), default_result_events_and_related_events_and_cursor(), opt_bytes_field(1, match m.result_events { Some(v) => Some(spec_encode_events(v)), None => None }), opt_bytes_field(2, match m.related_events { Some(v) => Some(spec_encode_events(v)), None => None }));
    lemma_apply_concat(result_events_and_related_events_and_cursor_applier(), default_result_events_and_related_events_and_cursor(), opt_bytes_field(1, match m.result_events { Some(v) => Some(spec_encode_events(v)), None => None }) + opt_bytes_field(2, match m.related_events { Some(v) => Some(spec_encode_events(v)), None => None }), opt_bytes_field(3, m.cursor));
    assert(SpecResultEventsAndRelatedEventsAndCursor { result_events: m.result_events, related_events: m.related_events, cursor: m.cursor } =~= m);
}

} // verus!
