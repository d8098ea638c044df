//! The content of post, claim and delete events.

use vstd::prelude::*;
use vstd::utf8::*;

use crate::wire::{
    field_bytes, field_string, field_varint, group_field_lists, lemma_apply_concat, lemma_apply_opt_bytes_field,
    lemma_apply_opt_string_field, lemma_apply_opt_uint_field, lemma_apply_single, lemma_apply_string_field,
    lemma_apply_uint_field, lemma_decode_fields, lemma_encode_fields_concat, lemma_encode_single_field,
    lemma_field_payload_le, lemma_field_string_round_trip, lemma_merge_bad_field, lemma_merge_empty,
    lemma_merge_step, lemma_repeated_bounded, lemma_repeated_split, opt_bytes_field, opt_string_field,
    opt_uint_field, put_bytes_always, put_opt_string, put_opt_uint, put_string, put_uint, raw_field_view,
    raw_field_within, raw_string, raw_varint, read_field, repeated_bytes_fields, spec_apply_all, fields_tags_ok,
    spec_encode_fields, spec_merge_with, string_field, uint_field, RawField, RawValue, WireField, WireValue,
    lemma_tags_ok_uint, lemma_tags_ok_string, lemma_tags_ok_opt_uint, lemma_tags_ok_opt_bytes,
    lemma_tags_ok_opt_string, lemma_tags_ok_repeated, lemma_tags_ok_concat,
};

use crate::keys::{
    Process, SpecProcess, default_process, lemma_process_round_trip, spec_encode_process, spec_merge_process,
};
use crate::event::{
    Indices, SpecIndices, default_indices, lemma_indices_round_trip, spec_encode_indices, spec_merge_indices,
};

verus! {

/// A range of values, from `low` to `high`.
#[derive(Clone, Debug, PartialEq, Eq, Default)]
pub struct Range {
    pub low: u64,
    pub high: u64,
}

/// The value of a [`Range`].
#[verifier::ext_equal]
pub struct SpecRange {
    pub low: u64,
    pub high: u64,
}

impl View for Range {
    type V = SpecRange;

    open spec fn view(&self) -> SpecRange {
        SpecRange {
            low: self.low,
            high: self.high,
        }
    }
}

/// The value that decoding starts from: every field at its default.
pub open spec fn default_range() -> SpecRange {
    SpecRange { low: 0, high: 0 }
}

/// The fields that a [`Range`] is written as, in field-number order; fields
/// at their default are left out.
pub open spec fn range_fields(m: SpecRange) -> Seq<WireField> {
    uint_field(1, m.low)
        + uint_field(2, m.high)
}

/// The encoding of a [`Range`].
pub open spec fn spec_encode_range(m: SpecRange) -> Seq<u8> {
    spec_encode_fields(range_fields(m))
}

/// Merges one field into a [`Range`]: a known field number must come with
/// its wire type; fields with other numbers are skipped.
pub open spec fn apply_range(m: SpecRange, f: WireField) -> Option<SpecRange> {
    if f.tag == 1 {
        match field_varint(f) { Some(v) => Some(SpecRange { low: v, high: m.high }), None => None }
    } else if f.tag == 2 {
        match field_varint(f) { Some(v) => Some(SpecRange { low: m.low, high: v }), None => None }
    } else {
        Some(m)
    }
}

pub open spec fn range_applier() -> spec_fn(SpecRange, WireField) -> Option<SpecRange> {
    |m: SpecRange, f: WireField| apply_range(m, f)
}

/// Merges the fields of `b` into `m`.
pub open spec fn spec_merge_range(m: SpecRange, b: Seq<u8>) -> Option<SpecRange> {
    spec_merge_with(range_applier(), m, b)
}

/// Decodes a [`Range`]: the fields of `b` merged into the default.
pub open spec fn spec_decode_range(b: Seq<u8>) -> Option<SpecRange> {
    spec_merge_range(default_range(), b)
}

/// The values of a list of [`Range`]s.
pub open spec fn view_ranges(v: Seq<Range>) -> Seq<SpecRange> {
    v.map_values(|x: Range| x@)
}

/// The encodings of a list of [`Range`] values.
pub open spec fn encode_ranges(v: Seq<SpecRange>) -> Seq<Seq<u8>> {
    v.map_values(|x: SpecRange| spec_encode_range(x))
}

impl Range {
    /// A value with every field at its default.
    pub fn new_default() -> (r: Self)
        ensures
            r@ == default_range(),
    {
        let r = Range { low: 0, high: 0 };
        assert(r@ =~= default_range());
        r
    }

    /// A copy.
    pub fn duplicate(&self) -> (r: Self)
        ensures
            r@ == self@,
    {
        let r = Range {
            low: self.low,
            high: self.high,
        };
        assert(r@ =~= self@);
        r
    }

    /// The protocol encoding.
    pub fn encode(&self) -> (r: Vec<u8>)
        ensures
            r@ == spec_encode_range(self@),
    {
        broadcast use group_field_lists;

        let mut out: Vec<u8> = Vec::new();
        put_uint(1, self.low, &mut out);
        put_uint(2, self.high, &mut out);
        assert(out@ =~= spec_encode_range(self@));
        out
    }

    fn apply_field(&mut self, buf: &[u8], f: &RawField) -> (ok: bool)
        requires
            raw_field_within(*f, buf@.len()),
        ensures
            match apply_range(old(self)@, raw_field_view(*f, buf@)) {
                Some(m) => ok && final(self)@ == m,
                None => !ok,
            },
    {
        if f.tag == 1 {
            match raw_varint(f) { Some(v) => { self.low = v; true }, None => false }
        } else if f.tag == 2 {
            match raw_varint(f) { Some(v) => { self.high = v; true }, None => false }
        } else {
            true
        }
    }

    /// Merges the fields of `buf[start..end]` into `self`; `false` where the
    /// bytes are not a valid encoding (`self` is then left in no stated state).
    pub fn merge(&mut self, buf: &[u8], start: usize, end: usize) -> (ok: bool)
        requires
            start <= end <= buf@.len(),
        ensures
            match spec_merge_range(old(self)@, buf@.subrange(start as int, end as int)) {
                Some(m) => ok && final(self)@ == m,
                None => !ok,
            },
    {
        let mut pos = start;
        while pos < end
            invariant
                start <= pos <= end <= buf@.len(),
                spec_merge_range(old(self)@, buf@.subrange(start as int, end as int)) == spec_merge_range(
                    self@,
                    buf@.subrange(pos as int, end as int),
                ),
            decreases end - pos,
        {
            match read_field(buf, pos, end) {
                Some((f, next)) => {
                    proof {
                        lemma_merge_step(
                            range_applier(),
                            self@,
                            buf@,
                            pos as nat,
                            next as nat,
                            end as nat,
                            raw_field_view(f, buf@),
                        );
                    }
                    if !self.apply_field(buf, &f) {
                        return false;
                    }
                    pos = next;
                },
                None => {
                    proof {
                        lemma_merge_bad_field(range_applier(), self@, buf@, pos as nat, end as nat);
                    }
                    return false;
                },
            }
        }
        proof {
            lemma_merge_empty(range_applier(), self@, buf@, pos as nat);
        }
        true
    }

    /// Decodes a [`Range`] from its protocol encoding; `None` where the bytes
    /// are not one.
    pub fn decode(buf: &[u8]) -> (r: Option<Self>)
        ensures
            match spec_decode_range(buf@) {
                Some(m) => r matches Some(x) && x@ == m,
                None => r is None,
            },
    {
        let mut m = Range::new_default();
        assert(buf@.subrange(0, buf@.len() as int) =~= buf@);
        if m.merge(buf, 0, buf.len()) {
            Some(m)
        } else {
            None
        }
    }
}

/// Appends one field per item of `items`, each holding the item's encoding.
pub fn put_ranges(tag: u64, items: &Vec<Range>, out: &mut Vec<u8>)
    requires
        1 <= tag <= 0x1fff_ffff,
    ensures
        final(out)@ == old(out)@ + spec_encode_fields(
            repeated_bytes_fields(tag as nat, encode_ranges(view_ranges(items@))),
        ),
{
    let ghost all = encode_ranges(view_ranges(items@));
    let mut i: usize = 0;
    while i < items.len()
        invariant
            1 <= tag <= 0x1fff_ffff,
            i <= items@.len(),
            all == encode_ranges(view_ranges(items@)),
            out@ == old(out)@ + spec_encode_fields(repeated_bytes_fields(tag as nat, all.take(i as int))),
        decreases items@.len() - i,
    {
        let e = items[i].encode();
        put_bytes_always(tag, e.as_slice(), out);
        let ghost f = WireField { tag: tag as nat, value: WireValue::Bytes(e@) };
        let ghost prev = repeated_bytes_fields(tag as nat, all.take(i as int));
        assert(all[i as int] == e@);
        assert(repeated_bytes_fields(tag as nat, all.take(i + 1)) =~= prev + seq![f]);
        proof {
            lemma_encode_fields_concat(prev, seq![f]);
            lemma_encode_single_field(f);
        }
        assert(out@ =~= old(out)@ + spec_encode_fields(prev + seq![f]));
        i = i + 1;
    }
    assert(all.take(i as int) =~= all);
}

/// A copy of a list of [`Range`]s.
pub fn duplicate_ranges(items: &Vec<Range>) -> (r: Vec<Range>)
    ensures
        view_ranges(r@) == view_ranges(items@),
{
    let mut r: Vec<Range> = Vec::new();
    let mut i: usize = 0;
    while i < items.len()
        invariant
            i <= items@.len(),
            view_ranges(r@) == view_ranges(items@).take(i as int),
        decreases items@.len() - i,
    {
        let ghost before = r@;
        let d = items[i].duplicate();
        r.push(d);
        assert(view_ranges(r@) =~= view_ranges(before).push(d@));
        assert(view_ranges(items@).take(i + 1) =~= view_ranges(items@).take(i as int).push(items@[i as int]@));
        i = i + 1;
    }
    assert(view_ranges(items@).take(i as int) =~= view_ranges(items@));
    r
}

proof fn lemma_range_tags_ok(m: SpecRange)
    ensures
        fields_tags_ok(range_fields(m)),
{
    lemma_tags_ok_uint(1, m.low);
    lemma_tags_ok_uint(2, m.high);
    lemma_tags_ok_concat(uint_field(1, m.low), uint_field(2, m.high));
}

proof fn lemma_range_part_lengths(m: SpecRange)
    ensures
        spec_encode_fields(uint_field(1, m.low)).len() <= spec_encode_fields(range_fields(m)).len(),
        spec_encode_fields(uint_field(2, m.high)).len() <= spec_encode_fields(range_fields(m)).len(),
{
    broadcast use group_field_lists;

}

proof fn lemma_range_step_low(m: SpecRange)
    requires
        spec_encode_fields(uint_field(1, m.low)).len() < 0x1_0000_0000_0000_0000,
    ensures
        spec_apply_all(range_applier(), SpecRange { low: 0, high: 0 }, uint_field(1, m.low)) == Some(SpecRange { low: m.low, high: 0 }),
{
    let d = SpecRange { low: 0, high: 0 };
    lemma_apply_uint_field(range_applier(), d, 1, m.low);
}

proof fn lemma_range_step_high(m: SpecRange)
    requires
        spec_encode_fields(uint_field(2, m.high)).len() < 0x1_0000_0000_0000_0000,
    ensures
        spec_apply_all(range_applier(), SpecRange { low: m.low, high: 0 }, uint_field(2, m.high)) == Some(SpecRange { low: m.low, high: m.high }),
{
    let d = SpecRange { low: m.low, high: 0 };
    lemma_apply_uint_field(range_applier(), d, 2, m.high);
}

/// Decoding the encoding of a [`Range`] gives back the value (for every value
/// whose encoding fits a 64-bit length).
pub proof fn lemma_range_round_trip(m: SpecRange)
    requires
        spec_encode_range(m).len() < 0x1_0000_0000_0000_0000,
    ensures
        spec_decode_range(spec_encode_range(m)) == Some(m),
{
    let fs = range_fields(m);
    lemma_range_tags_ok(m);
    lemma_decode_fields(range_applier(), default_range(), fs);
    lemma_range_part_lengths(m);
    lemma_range_step_low(m);
    lemma_range_step_high(m);
    lemma_apply_concat(range_applier(), default_range(), uint_field(1, m.low), uint_field(2, m.high));
    assert(SpecRange { low: m.low, high: m.high } =~= m);
}

/// An image that a post carries: its type, size, and where its bytes are.
#[derive(Clone, Debug, PartialEq, Eq, Default)]
pub struct ImageManifest {
    pub mime: String,
    pub width: u64,
    pub height: u64,
    pub byte_count: u64,
    pub process: Option<Process>,
    pub sections: Vec<Range>,
}

/// The value of an [`ImageManifest`].
#[verifier::ext_equal]
pub struct SpecImageManifest {
    pub mime: Seq<char>,
    pub width: u64,
    pub height: u64,
    pub byte_count: u64,
    pub process: Option<SpecProcess>,
    pub sections: Seq<SpecRange>,
}

impl View for ImageManifest {
    type V = SpecImageManifest;

    open spec fn view(&self) -> SpecImageManifest {
        SpecImageManifest {
            mime: self.mime@,
            width: self.width,
            height: self.height,
            byte_count: self.byte_count,
            process: match self.process { Some(v) => Some(v@), None => None },
            sections: view_ranges(self.sections@),
        }
    }
}

/// The value that decoding starts from: every field at its default.
pub open spec fn default_image_manifest() -> SpecImageManifest {
    SpecImageManifest { mime: seq![], width: 0, height: 0, byte_count: 0, process: None, sections: seq![] }
}

/// The fields that an [`ImageManifest`] is written as, in field-number order; fields
/// at their default are left out.
pub open spec fn image_manifest_fields(m: SpecImageManifest) -> Seq<WireField> {
    string_field(1, m.mime)
        + uint_field(2, m.width)
        + uint_field(3, m.height)
        + uint_field(4, m.byte_count)
        + opt_bytes_field(5, match m.process { Some(v) => Some(spec_encode_process(v)), None => None })
        + repeated_bytes_fields(6, encode_ranges(m.sections))
}

/// The encoding of an [`ImageManifest`].
pub open spec fn spec_encode_image_manifest(m: SpecImageManifest) -> Seq<u8> {
    spec_encode_fields(image_manifest_fields(m))
}

/// Merges one field into an [`ImageManifest`]: a known field number must come with
/// its wire type; fields with other numbers are skipped.
pub open spec fn apply_image_manifest(m: SpecImageManifest, f: WireField) -> Option<SpecImageManifest> {
    if f.tag == 1 {
        match field_string(f) { Some(t) => Some(SpecImageManifest { mime: t, width: m.width, height: m.height, byte_count: m.byte_count, process: m.process, sections: m.sections }), None => None }
    } else if f.tag == 2 {
        match field_varint(f) { Some(v) => Some(SpecImageManifest { mime: m.mime, width: v, height: m.height, byte_count: m.byte_count, process: m.process, sections: m.sections }), None => None }
    } else if f.tag == 3 {
        match field_varint(f) { Some(v) => Some(SpecImageManifest { mime: m.mime, width: m.width, height: v, byte_count: m.byte_count, process: m.process, sections: m.sections }), None => None }
    } else if f.tag == 4 {
        match field_varint(f) { Some(v) => Some(SpecImageManifest { mime: m.mime, width: m.width, height: m.height, byte_count: v, process: m.process, sections: m.sections }), None => None }
    } else if f.tag == 5 {
        match field_bytes(f) { Some(b) => match spec_merge_process(match m.process { Some(v) => v, None => default_process() }, b) { Some(v) => Some(SpecImageManifest { mime: m.mime, width: m.width, height: m.height, byte_count: m.byte_count, process: Some(v), sections: m.sections }), None => None }, None => None }
    } else if f.tag == 6 {
        match field_bytes(f) { Some(b) => match spec_decode_range(b) { Some(v) => Some(SpecImageManifest { mime: m.mime, width: m.width, height: m.height, byte_count: m.byte_count, process: m.process, sections: m.sections.push(v) }), None => None }, None => None }
    } else {
        Some(m)
    }
}

pub open spec fn image_manifest_applier() -> spec_fn(SpecImageManifest, WireField) -> Option<SpecImageManifest> {
    |m: SpecImageManifest, f: WireField| apply_image_manifest(m, f)
}

/// Merges the fields of `b` into `m`.
pub open spec fn spec_merge_image_manifest(m: SpecImageManifest, b: Seq<u8>) -> Option<SpecImageManifest> {
    spec_merge_with(image_manifest_applier(), m, b)
}

/// Decodes an [`ImageManifest`]: the fields of `b` merged into the default.
pub open spec fn spec_decode_image_manifest(b: Seq<u8>) -> Option<SpecImageManifest> {
    spec_merge_image_manifest(default_image_manifest(), b)
}

/// The values of a list of [`ImageManifest`]s.
pub open spec fn view_image_manifests(v: Seq<ImageManifest>) -> Seq<SpecImageManifest> {
    v.map_values(|x: ImageManifest| x@)
}

/// The encodings of a list of [`ImageManifest`] values.
pub open spec fn encode_image_manifests(v: Seq<SpecImageManifest>) -> Seq<Seq<u8>> {
    v.map_values(|x: SpecImageManifest| spec_encode_image_manifest(x))
}

impl ImageManifest {
    /// A value with every field at its default.
    pub fn new_default() -> (r: Self)
        ensures
            r@ == default_image_manifest(),
    {
        let r = ImageManifest { mime: String::new(), width: 0, height: 0, byte_count: 0, process: None, sections: Vec::new() };
        assert(r@ =~= default_image_manifest());
        r
    }

    /// A copy.
    pub fn duplicate(&self) -> (r: Self)
        ensures
            r@ == self@,
    {
        let r = ImageManifest {
            mime: self.mime.clone(),
            width: self.width,
            height: self.height,
            byte_count: self.byte_count,
            process: match &self.process { Some(v) => Some(v.duplicate()), None => None },
            sections: duplicate_ranges(&self.sections),
        };
        assert(r@ =~= self@);
        r
    }

    /// The protocol encoding.
    pub fn encode(&self) -> (r: Vec<u8>)
        ensures
            r@ == spec_encode_image_manifest(self@),
    {
        broadcast use group_field_lists;

        let mut out: Vec<u8> = Vec::new();
        put_string(1, &self.mime, &mut out);
        put_uint(2, self.width, &mut out);
        put_uint(3, self.height, &mut out);
        put_uint(4, self.byte_count, &mut out);
        match &self.process {
            Some(v) => {
                let e = v.encode();
                put_bytes_always(5, e.as_slice(), &mut out);
            },
            None => {},
        }
        put_ranges(6, &self.sections, &mut out);
        assert(out@ =~= spec_encode_image_manifest(self@));
        out
    }

    fn apply_field(&mut self, buf: &[u8], f: &RawField) -> (ok: bool)
        requires
            raw_field_within(*f, buf@.len()),
        ensures
            match apply_image_manifest(old(self)@, raw_field_view(*f, buf@)) {
                Some(m) => ok && final(self)@ == m,
                None => !ok,
            },
    {
        if f.tag == 1 {
            match raw_string(buf, f) { Some(t) => { self.mime = t; true }, None => false }
        } else if f.tag == 2 {
            match raw_varint(f) { Some(v) => { self.width = v; true }, None => false }
        } else if f.tag == 3 {
            match raw_varint(f) { Some(v) => { self.height = v; true }, None => false }
        } else if f.tag == 4 {
            match raw_varint(f) { Some(v) => { self.byte_count = v; true }, None => false }
        } else if f.tag == 5 {
            match f.value {
                RawValue::Bytes(s, e) => {
                    let mut sub = match &self.process {
                        Some(v) => v.duplicate(),
                        None => Process::new_default(),
                    };
                    if sub.merge(buf, s, e) {
                        self.process = Some(sub);
                        true
                    } else {
                        false
                    }
                },
                _ => false,
            }
        } else if f.tag == 6 {
            match f.value {
                RawValue::Bytes(s, e) => {
                    let mut sub = Range::new_default();
                    if sub.merge(buf, s, e) {
                        let ghost before = self.sections@;
                        self.sections.push(sub);
                        assert(view_ranges(self.sections@) =~= view_ranges(before).push(sub@));
                        true
                    } else {
                        false
                    }
                },
                _ => false,
            }
        } else {
            true
        }
    }

    /// Merges the fields of `buf[start..end]` into `self`; `false` where the
    /// bytes are not a valid encoding (`self` is then left in no stated state).
    pub fn merge(&mut self, buf: &[u8], start: usize, end: usize) -> (ok: bool)
        requires
            start <= end <= buf@.len(),
        ensures
            match spec_merge_image_manifest(old(self)@, buf@.subrange(start as int, end as int)) {
                Some(m) => ok && final(self)@ == m,
                None => !ok,
            },
    {
        let mut pos = start;
        while pos < end
            invariant
                start <= pos <= end <= buf@.len(),
                spec_merge_image_manifest(old(self)@, buf@.subrange(start as int, end as int)) == spec_merge_image_manifest(
                    self@,
                    buf@.subrange(pos as int, end as int),
                ),
            decreases end - pos,
        {
            match read_field(buf, pos, end) {
                Some((f, next)) => {
                    proof {
                        lemma_merge_step(
                            image_manifest_applier(),
                            self@,
                            buf@,
                            pos as nat,
                            next as nat,
                            end as nat,
                            raw_field_view(f, buf@),
                        );
                    }
                    if !self.apply_field(buf, &f) {
                        return false;
                    }
                    pos = next;
                },
                None => {
                    proof {
                        lemma_merge_bad_field(image_manifest_applier(), self@, buf@, pos as nat, end as nat);
                    }
                    return false;
                },
            }
        }
        proof {
            lemma_merge_empty(image_manifest_applier(), self@, buf@, pos as nat);
        }
        true
    }

    /// Decodes an [`ImageManifest`] from its protocol encoding; `None` where the bytes
    /// are not one.
    pub fn decode(buf: &[u8]) -> (r: Option<Self>)
        ensures
            match spec_decode_image_manifest(buf@) {
                Some(m) => r matches Some(x) && x@ == m,
                None => r is None,
            },
    {
        let mut m = ImageManifest::new_default();
        assert(buf@.subrange(0, buf@.len() as int) =~= buf@);
        if m.merge(buf, 0, buf.len()) {
            Some(m)
        } else {
            None
        }
    }
}

/// Appends one field per item of `items`, each holding the item's encoding.
pub fn put_image_manifests(tag: u64, items: &Vec<ImageManifest>, out: &mut Vec<u8>)
    requires
        1 <= tag <= 0x1fff_ffff,
    ensures
        final(out)@ == old(out)@ + spec_encode_fields(
            repeated_bytes_fields(tag as nat, encode_image_manifests(view_image_manifests(items@))),
        ),
{
    let ghost all = encode_image_manifests(view_image_manifests(items@));
    let mut i: usize = 0;
    while i < items.len()
        invariant
            1 <= tag <= 0x1fff_ffff,
            i <= items@.len(),
            all == encode_image_manifests(view_image_manifests(items@)),
            out@ == old(out)@ + spec_encode_fields(repeated_bytes_fields(tag as nat, all.take(i as int))),
        decreases items@.len() - i,
    {
        let e = items[i].encode();
        put_bytes_always(tag, e.as_slice(), out);
        let ghost f = WireField { tag: tag as nat, value: WireValue::Bytes(e@) };
        let ghost prev = repeated_bytes_fields(tag as nat, all.take(i as int));
        assert(all[i as int] == e@);
        assert(repeated_bytes_fields(tag as nat, all.take(i + 1)) =~= prev + seq![f]);
        proof {
            lemma_encode_fields_concat(prev, seq![f]);
            lemma_encode_single_field(f);
        }
        assert(out@ =~= old(out)@ + spec_encode_fields(prev + seq![f]));
        i = i + 1;
    }
    assert(all.take(i as int) =~= all);
}

/// A copy of a list of [`ImageManifest`]s.
pub fn duplicate_image_manifests(items: &Vec<ImageManifest>) -> (r: Vec<ImageManifest>)
    ensures
        view_image_manifests(r@) == view_image_manifests(items@),
{
    let mut r: Vec<ImageManifest> = Vec::new();
    let mut i: usize = 0;
    while i < items.len()
        invariant
            i <= items@.len(),
            view_image_manifests(r@) == view_image_manifests(items@).take(i as int),
        decreases items@.len() - i,
    {
        let ghost before = r@;
        let d = items[i].duplicate();
        r.push(d);
        assert(view_image_manifests(r@) =~= view_image_manifests(before).push(d@));
        assert(view_image_manifests(items@).take(i + 1) =~= view_image_manifests(items@).take(i as int).push(items@[i as int]@));
        i = i + 1;
    }
    assert(view_image_manifests(items@).take(i as int) =~= view_image_manifests(items@));
    r
}

/// Applying the fields of `items` to the `sections` of `m` appends them.
proof fn lemma_image_manifest_apply_sections(m: SpecImageManifest, items: Seq<SpecRange>)
    requires
        forall|i: int| 0 <= i < items.len() ==> (#[trigger] spec_encode_range(items[i])).len() < 0x1_0000_0000_0000_0000,
    ensures
        spec_apply_all(image_manifest_applier(), m, repeated_bytes_fields(6, encode_ranges(items))) == Some(SpecImageManifest { mime: m.mime, width: m.width, height: m.height, byte_count: m.byte_count, process: m.process, sections: m.sections + items }),
    decreases items.len(),
{
    if items.len() == 0 {
        assert(repeated_bytes_fields(6, encode_ranges(items)) =~= Seq::<WireField>::empty());
        assert(m.sections + items =~= m.sections);
        assert(SpecImageManifest { mime: m.mime, width: m.width, height: m.height, byte_count: m.byte_count, process: m.process, sections: m.sections + items } =~= m);
    } else {
        lemma_repeated_split(6, encode_ranges(items));
        assert(encode_ranges(items).drop_first() =~= encode_ranges(items.drop_first()));
        assert(encode_ranges(items)[0] == spec_encode_range(items[0]));
        lemma_range_round_trip(items[0]);
        let m1 = SpecImageManifest { mime: m.mime, width: m.width, height: m.height, byte_count: m.byte_count, process: m.process, sections: m.sections.push(items[0]) };
        lemma_apply_concat(image_manifest_applier(), m, seq![WireField { tag: 6, value: WireValue::Bytes(encode_ranges(items)[0]) }], repeated_bytes_fields(6, encode_ranges(items.drop_first())));
        lemma_apply_single(image_manifest_applier(), m, WireField { tag: 6, value: WireValue::Bytes(encode_ranges(items)[0]) });
        assert forall|i: int| 0 <= i < items.drop_first().len() implies (#[trigger] spec_encode_range(items.drop_first()[i])).len() < 0x1_0000_0000_0000_0000 by {
            assert(items.drop_first()[i] == items[i + 1]);
        }
        lemma_image_manifest_apply_sections(m1, items.drop_first());
        assert(m1.sections + items.drop_first() =~= m.sections + items);
    }
}

proof fn lemma_image_manifest_tags_ok(m: SpecImageManifest)
    ensures
        fields_tags_ok(image_manifest_fields(m)),
{
    lemma_tags_ok_string(1, m.mime);
    lemma_tags_ok_uint(2, m.width);
    lemma_tags_ok_uint(3, m.height);
    lemma_tags_ok_uint(4, m.byte_count);
    lemma_tags_ok_opt_bytes(5, match m.process { Some(v) => Some(spec_encode_process(v)), None => None });
    lemma_tags_ok_repeated(6, encode_ranges(m.sections));
    lemma_tags_ok_concat(string_field(1, m.mime), uint_field(2, m.width));
    lemma_tags_ok_concat(string_field(1, m.mime) + uint_field(2, m.width), uint_field(3, m.height));
    lemma_tags_ok_concat(string_field(1, m.mime) + uint_field(2, m.width) + uint_field(3, m.height), uint_field(4, m.byte_count));
    lemma_tags_ok_concat(string_field(1, m.mime) + uint_field(2, m.width) + uint_field(3, m.height) + uint_field(4, m.byte_count), opt_bytes_field(5, match m.process { Some(v) => Some(spec_encode_process(v)), None => None }));
    lemma_tags_ok_concat(string_field(1, m.mime) + uint_field(2, m.width) + uint_field(3, m.height) + uint_field(4, m.byte_count) + opt_bytes_field(5, match m.process { Some(v) => Some(spec_encode_process(v)), None => None }), repeated_bytes_fields(6, encode_ranges(m.sections)));
}

proof fn lemma_image_manifest_part_lengths(m: SpecImageManifest)
    ensures
        spec_encode_fields(string_field(1, m.mime)).len() <= spec_encode_fields(image_manifest_fields(m)).len(),
        spec_encode_fields(uint_field(2, m.width)).len() <= spec_encode_fields(image_manifest_fields(m)).len(),
        spec_encode_fields(uint_field(3, m.height)).len() <= spec_encode_fields(image_manifest_fields(m)).len(),
        spec_encode_fields(uint_field(4, m.byte_count)).len() <= spec_encode_fields(image_manifest_fields(m)).len(),
        spec_encode_fields(opt_bytes_field(5, match m.process { Some(v) => Some(spec_encode_process(v)), None => None })).len() <= spec_encode_fields(image_manifest_fields(m)).len(),
        spec_encode_fields(repeated_bytes_fields(6, encode_ranges(m.sections))).len() <= spec_encode_fields(image_manifest_fields(m)).len(),
{
    broadcast use group_field_lists;

}

proof fn lemma_image_manifest_step_mime(m: SpecImageManifest)
    requires
        spec_encode_fields(string_field(1, m.mime)).len() < 0x1_0000_0000_0000_0000,
    ensures
        spec_apply_all(image_manifest_applier(), SpecImageManifest { mime: seq![], width: 0, height: 0, byte_count: 0, process: None, sections: seq![] }, string_field(1, m.mime)) == Some(SpecImageManifest { mime: m.mime, width: 0, height: 0, byte_count: 0, process: None, sections: seq![] }),
{
    let d = SpecImageManifest { mime: seq![], width: 0, height: 0, byte_count: 0, process: None, sections: seq![] };
    lemma_apply_string_field(image_manifest_applier(), d, 1, m.mime);
    lemma_field_string_round_trip(1, m.mime);
    if m.mime.len() == 0 {
        assert(m.mime =~= Seq::<char>::empty());
    }
}

proof fn lemma_image_manifest_step_width(m: SpecImageManifest)
    requires
        spec_encode_fields(uint_field(2, m.width)).len() < 0x1_0000_0000_0000_0000,
    ensures
        spec_apply_all(image_manifest_applier(), SpecImageManifest { mime: m.mime, width: 0, height: 0, byte_count: 0, process: None, sections: seq![] }, uint_field(2, m.width)) == Some(SpecImageManifest { mime: m.mime, width: m.width, height: 0, byte_count: 0, process: None, sections: seq![] }),
{
    let d = SpecImageManifest { mime: m.mime, width: 0, height: 0, byte_count: 0, process: None, sections: seq![] };
    lemma_apply_uint_field(image_manifest_applier(), d, 2, m.width);
}

proof fn lemma_image_manifest_step_height(m: SpecImageManifest)
    requires
        spec_encode_fields(uint_field(3, m.height)).len() < 0x1_0000_0000_0000_0000,
    ensures
        spec_apply_all(image_manifest_applier(), SpecImageManifest { mime: m.mime, width: m.width, height: 0, byte_count: 0, process: None, sections: seq![] }, uint_field(3, m.height)) == Some(SpecImageManifest { mime: m.mime, width: m.width, height: m.height, byte_count: 0, process: None, sections: seq![] }),
{
    let d = SpecImageManifest { mime: m.mime, width: m.width, height: 0, byte_count: 0, process: None, sections: seq![] };
    lemma_apply_uint_field(image_manifest_applier(), d, 3, m.height);
}

proof fn lemma_image_manifest_step_byte_count(m: SpecImageManifest)
    requires
        spec_encode_fields(uint_field(4, m.byte_count)).len() < 0x1_0000_0000_0000_0000,
    ensures
        spec_apply_all(image_manifest_applier(), SpecImageManifest { mime: m.mime, width: m.width, height: m.height, byte_count: 0, process: None, sections: seq![] }, uint_field(4, m.byte_count)) == Some(SpecImageManifest { mime: m.mime, width: m.width, height: m.height, byte_count: m.byte_count, process: None, sections: seq![] }),
{
    let d = SpecImageManifest { mime: m.mime, width: m.width, height: m.height, byte_count: 0, process: None, sections: seq![] };
    lemma_apply_uint_field(image_manifest_applier(), d, 4, m.byte_count);
}

proof fn lemma_image_manifest_step_process(m: SpecImageManifest)
    requires
        spec_encode_fields(opt_bytes_field(5, match m.process { Some(v) => Some(spec_encode_process(v)), None => None })).len() < 0x1_0000_0000_0000_0000,
    ensures
        spec_apply_all(image_manifest_applier(), SpecImageManifest { mime: m.mime, width: m.width, height: m.height, byte_count: m.byte_count, process: None, sections: seq![] }, opt_bytes_field(5, match m.process { Some(v) => Some(spec_encode_process(v)), None => None })) == Some(SpecImageManifest { mime: m.mime, width: m.width, height: m.height, byte_count: m.byte_count, process: m.process, sections: seq![] }),
{
    let d = SpecImageManifest { mime: m.mime, width: m.width, height: m.height, byte_count: m.byte_count, process: None, sections: seq![] };
    lemma_apply_opt_bytes_field(
        image_manifest_applier(),
        d,
        5,
        match m.process {
            Some(v) => Some(spec_encode_process(v)),
            None => None,
        },
    );
    match m.process {
        Some(v) => {
            let fld = WireField { tag: 5, value: WireValue::Bytes(spec_encode_process(v)) };
            lemma_encode_single_field(fld);
            lemma_field_payload_le(fld);
            lemma_process_round_trip(v);
        },
        None => {},
    }
}

proof fn lemma_image_manifest_step_sections(m: SpecImageManifest)
    requires
        spec_encode_fields(repeated_bytes_fields(6, encode_ranges(m.sections))).len() < 0x1_0000_0000_0000_0000,
    ensures
        spec_apply_all(image_manifest_applier(), SpecImageManifest { mime: m.mime, width: m.width, height: m.height, byte_count: m.byte_count, process: m.process, sections: seq![] }, repeated_bytes_fields(6, encode_ranges(m.sections))) == Some(SpecImageManifest { mime: m.mime, width: m.width, height: m.height, byte_count: m.byte_count, process: m.process, sections: m.sections }),
{
    let d = SpecImageManifest { mime: m.mime, width: m.width, height: m.height, byte_count: m.byte_count, process: m.process, sections: seq![] };
    lemma_repeated_bounded(6, encode_ranges(m.sections));
    assert forall|i: int| 0 <= i < m.sections.len() implies (#[trigger] spec_encode_range(m.sections[i])).len()
        < 0x1_0000_0000_0000_0000 by {
        assert(encode_ranges(m.sections)[i] == spec_encode_range(m.sections[i]));
    }
    lemma_image_manifest_apply_sections(d, m.sections);
    assert(d.sections + m.sections =~= m.sections);
}

/// Decoding the encoding of an [`ImageManifest`] gives back the value (for every value
/// whose encoding fits a 64-bit length).
pub proof fn lemma_image_manifest_round_trip(m: SpecImageManifest)
    requires
        spec_encode_image_manifest(m).len() < 0x1_0000_0000_0000_0000,
    ensures
        spec_decode_image_manifest(spec_encode_image_manifest(m)) == Some(m),
{
    let fs = image_manifest_fields(m);
    lemma_image_manifest_tags_ok(m);
    lemma_decode_fields(image_manifest_applier(), default_image_manifest(), fs);
    lemma_image_manifest_part_lengths(m);
    lemma_image_manifest_step_mime(m);
    lemma_image_manifest_step_width(m);
    lemma_image_manifest_step_height(m);
    lemma_image_manifest_step_byte_count(m);
    lemma_image_manifest_step_process(m);
    lemma_image_manifest_step_sections(m);
    lemma_apply_concat(image_manifest_applier(), default_image_manifest(), string_field(1, m.mime), uint_field(2, m.width));
    lemma_apply_concat(image_manifest_applier(), default_image_manifest(), string_field(1, m.mime) + uint_field(2, m.width), uint_field(3, m.height));
    lemma_apply_concat(image_manifest_applier(), default_image_manifest(), string_field(1, m.mime) + uint_field(2, m.width) + uint_field(3, m.height), uint_field(4, m.byte_count));
    lemma_apply_concat(image_manifest_applier(), default_image_manifest(), string_field(1, m.mime) + uint_field(2, m.width) + uint_field(3, m.height) + uint_field(4, m.byte_count), opt_bytes_field(5, match m.process { Some(v) => Some(spec_encode_process(v)), None => None }));
    lemma_apply_concat(image_manifest_applier(), default_image_manifest(), string_field(1, m.mime) + uint_field(2, m.width) + uint_field(3, m.height) + uint_field(4, m.byte_count) + opt_bytes_field(5, match m.process { Some(v) => Some(spec_encode_process(v)), None => None }), repeated_bytes_fields(6, encode_ranges(m.sections)));
    assert(SpecImageManifest { mime: m.mime, width: m.width, height: m.height, byte_count: m.byte_count, process: m.process, sections: m.sections } =~= m);
}

/// The content of a post event: its text and images.
#[derive(Clone, Debug, PartialEq, Eq, Default)]
pub struct Post {
    pub content: Option<String>,
    pub images: Vec<ImageManifest>,
}

/// The value of a [`Post`].
#[verifier::ext_equal]
pub struct SpecPost {
    pub content: Option<Seq<char>>,
    pub images: Seq<SpecImageManifest>,
}

impl View for Post {
    type V = SpecPost;

    open spec fn view(&self) -> SpecPost {
        SpecPost {
            content: match self.content { Some(v) => Some(v@), None => None },
            images: view_image_manifests(self.images@),
        }
    }
}

/// The value that decoding starts from: every field at its default.
pub open spec fn default_post() -> SpecPost {
    SpecPost { content: None, images: seq![] }
}

/// The fields that a [`Post`] is written as, in field-number order; fields
/// at their default are left out.
pub open spec fn post_fields(m: SpecPost) -> Seq<WireField> {
    opt_string_field(1, m.content)
        + repeated_bytes_fields(2, encode_image_manifests(m.images))
}

/// The encoding of a [`Post`].
pub open spec fn spec_encode_post(m: SpecPost) -> Seq<u8> {
    spec_encode_fields(post_fields(m))
}

/// Merges one field into a [`Post`]: a known field number must come with
/// its wire type; fields with other numbers are skipped.
pub open spec fn apply_post(m: SpecPost, f: WireField) -> Option<SpecPost> {
    if f.tag == 1 {
        match field_string(f) { Some(t) => Some(SpecPost { content: Some(t), images: m.images }), None => None }
    } else if f.tag == 2 {
        match field_bytes(f) { Some(b) => match spec_decode_image_manifest(b) { Some(v) => Some(SpecPost { content: m.content, images: m.images.push(v) }), None => None }, None => None }
    } else {
        Some(m)
    }
}

pub open spec fn post_applier() -> spec_fn(SpecPost, WireField) -> Option<SpecPost> {
    |m: SpecPost, f: WireField| apply_post(m, f)
}

/// Merges the fields of `b` into `m`.
pub open spec fn spec_merge_post(m: SpecPost, b: Seq<u8>) -> Option<SpecPost> {
    spec_merge_with(post_applier(), m, b)
}

/// Decodes a [`Post`]: the fields of `b` merged into the default.
pub open spec fn spec_decode_post(b: Seq<u8>) -> Option<SpecPost> {
    spec_merge_post(default_post(), b)
}

/// The values of a list of [`Post`]s.
pub open spec fn view_posts(v: Seq<Post>) -> Seq<SpecPost> {
    v.map_values(|x: Post| x@)
}

/// The encodings of a list of [`Post`] values.
pub open spec fn encode_posts(v: Seq<SpecPost>) -> Seq<Seq<u8>> {
    v.map_values(|x: SpecPost| spec_encode_post(x))
}

impl Post {
    /// A value with every field at its default.
    pub fn new_default() -> (r: Self)
        ensures
            r@ == default_post(),
    {
        let r = Post { content: None, images: Vec::new() };
        assert(r@ =~= default_post());
        r
    }

    /// A copy.
    pub fn duplicate(&self) -> (r: Self)
        ensures
            r@ == self@,
    {
        let r = Post {
            content: match &self.content { Some(v) => Some(v.clone()), None => None },
            images: duplicate_image_manifests(&self.images),
        };
        assert(r@ =~= self@);
        r
    }

    /// The protocol encoding.
    pub fn encode(&self) -> (r: Vec<u8>)
        ensures
            r@ == spec_encode_post(self@),
    {
        broadcast use group_field_lists;

        let mut out: Vec<u8> = Vec::new();
        put_opt_string(1, &self.content, &mut out);
        put_image_manifests(2, &self.images, &mut out);
        assert(out@ =~= spec_encode_post(self@));
        out
    }

    fn apply_field(&mut self, buf: &[u8], f: &RawField) -> (ok: bool)
        requires
            raw_field_within(*f, buf@.len()),
        ensures
            match apply_post(old(self)@, raw_field_view(*f, buf@)) {
                Some(m) => ok && final(self)@ == m,
                None => !ok,
            },
    {
        if f.tag == 1 {
            match raw_string(buf, f) { Some(t) => { self.content = Some(t); true }, None => false }
        } else if f.tag == 2 {
            match f.value {
                RawValue::Bytes(s, e) => {
                    let mut sub = ImageManifest::new_default();
                    if sub.merge(buf, s, e) {
                        let ghost before = self.images@;
                        self.images.push(sub);
                        assert(view_image_manifests(self.images@) =~= view_image_manifests(before).push(sub@));
                        true
                    } else {
                        false
                    }
                },
                _ => false,
            }
        } else {
            true
        }
    }

    /// Merges the fields of `buf[start..end]` into `self`; `false` where the
    /// bytes are not a valid encoding (`self` is then left in no stated state).
    pub fn merge(&mut self, buf: &[u8], start: usize, end: usize) -> (ok: bool)
        requires
            start <= end <= buf@.len(),
        ensures
            match spec_merge_post(old(self)@, buf@.subrange(start as int, end as int)) {
                Some(m) => ok && final(self)@ == m,
                None => !ok,
            },
    {
        let mut pos = start;
        while pos < end
            invariant
                start <= pos <= end <= buf@.len(),
                spec_merge_post(old(self)@, buf@.subrange(start as int, end as int)) == spec_merge_post(
                    self@,
                    buf@.subrange(pos as int, end as int),
                ),
            decreases end - pos,
        {
            match read_field(buf, pos, end) {
                Some((f, next)) => {
                    proof {
                        lemma_merge_step(
                            post_applier(),
                            self@,
                            buf@,
                            pos as nat,
                            next as nat,
                            end as nat,
                            raw_field_view(f, buf@),
                        );
                    }
                    if !self.apply_field(buf, &f) {
                        return false;
                    }
                    pos = next;
                },
                None => {
                    proof {
                        lemma_merge_bad_field(post_applier(), self@, buf@, pos as nat, end as nat);
                    }
                    return false;
                },
            }
        }
        proof {
            lemma_merge_empty(post_applier(), self@, buf@, pos as nat);
        }
        true
    }

    /// Decodes a [`Post`] from its protocol encoding; `None` where the bytes
    /// are not one.
    pub fn decode(buf: &[u8]) -> (r: Option<Self>)
        ensures
            match spec_decode_post(buf@) {
                Some(m) => r matches Some(x) && x@ == m,
                None => r is None,
            },
    {
        let mut m = Post::new_default();
        assert(buf@.subrange(0, buf@.len() as int) =~= buf@);
        if m.merge(buf, 0, buf.len()) {
            Some(m)
        } else {
            None
        }
    }
}

/// Applying the fields of `items` to the `images` of `m` appends them.
proof fn lemma_post_apply_images(m: SpecPost, items: Seq<SpecImageManifest>)
    requires
        forall|i: int| 0 <= i < items.len() ==> (#[trigger] spec_encode_image_manifest(items[i])).len() < 0x1_0000_0000_0000_0000,
    ensures
        spec_apply_all(post_applier(), m, repeated_bytes_fields(2, encode_image_manifests(items))) == Some(SpecPost { content: m.content, images: m.images + items }),
    decreases items.len(),
{
    if items.len() == 0 {
        assert(repeated_bytes_fields(2, encode_image_manifests(items)) =~= Seq::<WireField>::empty());
        assert(m.images + items =~= m.images);
        assert(SpecPost { content: m.content, images: m.images + items } =~= m);
    } else {
        lemma_repeated_split(2, encode_image_manifests(items));
        assert(encode_image_manifests(items).drop_first() =~= encode_image_manifests(items.drop_first()));
        assert(encode_image_manifests(items)[0] == spec_encode_image_manifest(items[0]));
        lemma_image_manifest_round_trip(items[0]);
        let m1 = SpecPost { content: m.content, images: m.images.push(items[0]) };
        lemma_apply_concat(post_applier(), m, seq![WireField { tag: 2, value: WireValue::Bytes(encode_image_manifests(items)[0]) }], repeated_bytes_fields(2, encode_image_manifests(items.drop_first())));
        lemma_apply_single(post_applier(), m, WireField { tag: 2, value: WireValue::Bytes(encode_image_manifests(items)[0]) });
        assert forall|i: int| 0 <= i < items.drop_first().len() implies (#[trigger] spec_encode_image_manifest(items.drop_first()[i])).len() < 0x1_0000_0000_0000_0000 by {
            assert(items.drop_first()[i] == items[i + 1]);
        }
        lemma_post_apply_images(m1, items.drop_first());
        assert(m1.images + items.drop_first() =~= m.images + items);
    }
}

proof fn lemma_post_tags_ok(m: SpecPost)
    ensures
        fields_tags_ok(post_fields(m)),
{
    lemma_tags_ok_opt_string(1, m.content);
    lemma_tags_ok_repeated(2, encode_image_manifests(m.images));
    lemma_tags_ok_concat(opt_string_field(1, m.content), repeated_bytes_fields(2, encode_image_manifests(m.images)));
}

proof fn lemma_post_part_lengths(m: SpecPost)
    ensures
        spec_encode_fields(opt_string_field(1, m.content)).len() <= spec_encode_fields(post_fields(m)).len(),
        spec_encode_fields(repeated_bytes_fields(2, encode_image_manifests(m.images))).len() <= spec_encode_fields(post_fields(m)).len(),
{
    broadcast use group_field_lists;

}

proof fn lemma_post_step_content(m: SpecPost)
    requires
        spec_encode_fields(opt_string_field(1, m.content)).len() < 0x1_0000_0000_0000_0000,
    ensures
        spec_apply_all(post_applier(), SpecPost { content: None, images: seq![] }, opt_string_field(1, m.content)) == Some(SpecPost { content: m.content, images: seq![] }),
{
    let d = SpecPost { content: None, images: seq![] };
    lemma_apply_opt_string_field(post_applier(), d, 1, m.content);
    match m.content {
        Some(x) => lemma_field_string_round_trip(1, x),
        None => {},
    }
}

proof fn lemma_post_step_images(m: SpecPost)
    requires
        spec_encode_fields(repeated_bytes_fields(2, encode_image_manifests(m.images))).len() < 0x1_0000_0000_0000_0000,
    ensures
        spec_apply_all(post_applier(), SpecPost { content: m.content, images: seq![] }, repeated_bytes_fields(2, encode_image_manifests(m.images))) == Some(SpecPost { content: m.content, images: m.images }),
{
    let d = SpecPost { content: m.content, images: seq![] };
    lemma_repeated_bounded(2, encode_image_manifests(m.images));
    assert forall|i: int| 0 <= i < m.images.len() implies (#[trigger] spec_encode_image_manifest(m.images[i])).len()
        < 0x1_0000_0000_0000_0000 by {
        assert(encode_image_manifests(m.images)[i] == spec_encode_image_manifest(m.images[i]));
    }
    lemma_post_apply_images(d, m.images);
    assert(d.images + m.images =~= m.images);
}

/// Decoding the encoding of a [`Post`] gives back the value (for every value
/// whose encoding fits a 64-bit length).
pub proof fn lemma_post_round_trip(m: SpecPost)
    requires
        spec_encode_post(m).len() < 0x1_0000_0000_0000_0000,
    ensures
        spec_decode_post(spec_encode_post(m)) == Some(m),
{
    let fs = post_fields(m);
    lemma_post_tags_ok(m);
    lemma_decode_fields(post_applier(), default_post(), fs);
    lemma_post_part_lengths(m);
    lemma_post_step_content(m);
    lemma_post_step_images(m);
    lemma_apply_concat(post_applier(), default_post(), opt_string_field(1, m.content), repeated_bytes_fields(2, encode_image_manifests(m.images)));
    assert(SpecPost { content: m.content, images: m.images } =~= m);
}

/// A field of a claim: its key and its text.
#[derive(Clone, Debug, PartialEq, Eq, Default)]
pub struct ClaimFieldEntry {
    pub key: u64,
    pub value: String,
}

/// The value of a [`ClaimFieldEntry`].
#[verifier::ext_equal]
pub struct SpecClaimFieldEntry {
    pub key: u64,
    pub value: Seq<char>,
}

impl View for ClaimFieldEntry {
    type V = SpecClaimFieldEntry;

    open spec fn view(&self) -> SpecClaimFieldEntry {
        SpecClaimFieldEntry {
            key: self.key,
            value: self.value@,
        }
    }
}

/// The value that decoding starts from: every field at its default.
pub open spec fn default_claim_field_entry() -> SpecClaimFieldEntry {
    SpecClaimFieldEntry { key: 0, value: seq![] }
}

/// The fields that a [`ClaimFieldEntry`] is written as, in field-number order; fields
/// at their default are left out.
pub open spec fn claim_field_entry_fields(m: SpecClaimFieldEntry) -> Seq<WireField> {
    uint_field(1, m.key)
        + string_field(2, m.value)
}

/// The encoding of a [`ClaimFieldEntry`].
pub open spec fn spec_encode_claim_field_entry(m: SpecClaimFieldEntry) -> Seq<u8> {
    spec_encode_fields(claim_field_entry_fields(m))
}

/// Merges one field into a [`ClaimFieldEntry`]: a known field number must come with
/// its wire type; fields with other numbers are skipped.
pub open spec fn apply_claim_field_entry(m: SpecClaimFieldEntry, f: WireField) -> Option<SpecClaimFieldEntry> {
    if f.tag == 1 {
        match field_varint(f) { Some(v) => Some(SpecClaimFieldEntry { key: v, value: m.value }), None => None }
    } else if f.tag == 2 {
        match field_string(f) { Some(t) => Some(SpecClaimFieldEntry { key: m.key, value: t }), None => None }
    } else {
        Some(m)
    }
}

pub open spec fn claim_field_entry_applier() -> spec_fn(SpecClaimFieldEntry, WireField) -> Option<SpecClaimFieldEntry> {
    |m: SpecClaimFieldEntry, f: WireField| apply_claim_field_entry(m, f)
}

/// Merges the fields of `b` into `m`.
pub open spec fn spec_merge_claim_field_entry(m: SpecClaimFieldEntry, b: Seq<u8>) -> Option<SpecClaimFieldEntry> {
    spec_merge_with(claim_field_entry_applier(), m, b)
}

/// Decodes a [`ClaimFieldEntry`]: the fields of `b` merged into the default.
pub open spec fn spec_decode_claim_field_entry(b: Seq<u8>) -> Option<SpecClaimFieldEntry> {
    spec_merge_claim_field_entry(default_claim_field_entry(), b)
}

/// The values of a list of [`ClaimFieldEntry`]s.
pub open spec fn view_claim_field_entries(v: Seq<ClaimFieldEntry>) -> Seq<SpecClaimFieldEntry> {
    v.map_values(|x: ClaimFieldEntry| x@)
}

/// The encodings of a list of [`ClaimFieldEntry`] values.
pub open spec fn encode_claim_field_entries(v: Seq<SpecClaimFieldEntry>) -> Seq<Seq<u8>> {
    v.map_values(|x: SpecClaimFieldEntry| spec_encode_claim_field_entry(x))
}

impl ClaimFieldEntry {
    /// A value with every field at its default.
    pub fn new_default() -> (r: Self)
        ensures
            r@ == default_claim_field_entry(),
    {
        let r = ClaimFieldEntry { key: 0, value: String::new() };
        assert(r@ =~= default_claim_field_entry());
        r
    }

    /// A copy.
    pub fn duplicate(&self) -> (r: Self)
        ensures
            r@ == self@,
    {
        let r = ClaimFieldEntry {
            key: self.key,
            value: self.value.clone(),
        };
        assert(r@ =~= self@);
        r
    }

    /// The protocol encoding.
    pub fn encode(&self) -> (r: Vec<u8>)
        ensures
            r@ == spec_encode_claim_field_entry(self@),
    {
        broadcast use group_field_lists;

        let mut out: Vec<u8> = Vec::new();
        put_uint(1, self.key, &mut out);
        put_string(2, &self.value, &mut out);
        assert(out@ =~= spec_encode_claim_field_entry(self@));
        out
    }

    fn apply_field(&mut self, buf: &[u8], f: &RawField) -> (ok: bool)
        requires
            raw_field_within(*f, buf@.len()),
        ensures
            match apply_claim_field_entry(old(self)@, raw_field_view(*f, buf@)) {
                Some(m) => ok && final(self)@ == m,
                None => !ok,
            },
    {
        if f.tag == 1 {
            match raw_varint(f) { Some(v) => { self.key = v; true }, None => false }
        } else if f.tag == 2 {
            match raw_string(buf, f) { Some(t) => { self.value = t; true }, None => false }
        } else {
            true
        }
    }

    /// Merges the fields of `buf[start..end]` into `self`; `false` where the
    /// bytes are not a valid encoding (`self` is then left in no stated state).
    pub fn merge(&mut self, buf: &[u8], start: usize, end: usize) -> (ok: bool)
        requires
            start <= end <= buf@.len(),
        ensures
            match spec_merge_claim_field_entry(old(self)@, buf@.subrange(start as int, end as int)) {
                Some(m) => ok && final(self)@ == m,
                None => !ok,
            },
    {
        let mut pos = start;
        while pos < end
            invariant
                start <= pos <= end <= buf@.len(),
                spec_merge_claim_field_entry(old(self)@, buf@.subrange(start as int, end as int)) == spec_merge_claim_field_entry(
                    self@,
                    buf@.subrange(pos as int, end as int),
                ),
            decreases end - pos,
        {
            match read_field(buf, pos, end) {
                Some((f, next)) => {
                    proof {
                        lemma_merge_step(
                            claim_field_entry_applier(),
                            self@,
                            buf@,
                            pos as nat,
                            next as nat,
                            end as nat,
                            raw_field_view(f, buf@),
                        );
                    }
                    if !self.apply_field(buf, &f) {
                        return false;
                    }
                    pos = next;
                },
                None => {
                    proof {
                        lemma_merge_bad_field(claim_field_entry_applier(), self@, buf@, pos as nat, end as nat);
                    }
                    return false;
                },
            }
        }
        proof {
            lemma_merge_empty(claim_field_entry_applier(), self@, buf@, pos as nat);
        }
        true
    }

    /// Decodes a [`ClaimFieldEntry`] from its protocol encoding; `None` where the bytes
    /// are not one.
    pub fn decode(buf: &[u8]) -> (r: Option<Self>)
        ensures
            match spec_decode_claim_field_entry(buf@) {
                Some(m) => r matches Some(x) && x@ == m,
                None => r is None,
            },
    {
        let mut m = ClaimFieldEntry::new_default();
        assert(buf@.subrange(0, buf@.len() as int) =~= buf@);
        if m.merge(buf, 0, buf.len()) {
            Some(m)
        } else {
            None
        }
    }
}

/// Appends one field per item of `items`, each holding the item's encoding.
pub fn put_claim_field_entries(tag: u64, items: &Vec<ClaimFieldEntry>, out: &mut Vec<u8>)
    requires
        1 <= tag <= 0x1fff_ffff,
    ensures
        final(out)@ == old(out)@ + spec_encode_fields(
            repeated_bytes_fields(tag as nat, encode_claim_field_entries(view_claim_field_entries(items@))),
        ),
{
    let ghost all = encode_claim_field_entries(view_claim_field_entries(items@));
    let mut i: usize = 0;
    while i < items.len()
        invariant
            1 <= tag <= 0x1fff_ffff,
            i <= items@.len(),
            all == encode_claim_field_entries(view_claim_field_entries(items@)),
            out@ == old(out)@ + spec_encode_fields(repeated_bytes_fields(tag as nat, all.take(i as int))),
        decreases items@.len() - i,
    {
        let e = items[i].encode();
        put_bytes_always(tag, e.as_slice(), out);
        let ghost f = WireField { tag: tag as nat, value: WireValue::Bytes(e@) };
        let ghost prev = repeated_bytes_fields(tag as nat, all.take(i as int));
        assert(all[i as int] == e@);
        assert(repeated_bytes_fields(tag as nat, all.take(i + 1)) =~= prev + seq![f]);
        proof {
            lemma_encode_fields_concat(prev, seq![f]);
            lemma_encode_single_field(f);
        }
        assert(out@ =~= old(out)@ + spec_encode_fields(prev + seq![f]));
        i = i + 1;
    }
    assert(all.take(i as int) =~= all);
}

/// A copy of a list of [`ClaimFieldEntry`]s.
pub fn duplicate_claim_field_entries(items: &Vec<ClaimFieldEntry>) -> (r: Vec<ClaimFieldEntry>)
    ensures
        view_claim_field_entries(r@) == view_claim_field_entries(items@),
{
    let mut r: Vec<ClaimFieldEntry> = Vec::new();
    let mut i: usize = 0;
    while i < items.len()
        invariant
            i <= items@.len(),
            view_claim_field_entries(r@) == view_claim_field_entries(items@).take(i as int),
        decreases items@.len() - i,
    {
        let ghost before = r@;
        let d = items[i].duplicate();
        r.push(d);
        assert(view_claim_field_entries(r@) =~= view_claim_field_entries(before).push(d@));
        assert(view_claim_field_entries(items@).take(i + 1) =~= view_claim_field_entries(items@).take(i as int).push(items@[i as int]@));
        i = i + 1;
    }
    assert(view_claim_field_entries(items@).take(i as int) =~= view_claim_field_entries(items@));
    r
}

proof fn lemma_claim_field_entry_tags_ok(m: SpecClaimFieldEntry)
    ensures
        fields_tags_ok(claim_field_entry_fields(m)),
{
    lemma_tags_ok_uint(1, m.key);
    lemma_tags_ok_string(2, m.value);
    lemma_tags_ok_concat(uint_field(1, m.key), string_field(2, m.value));
}

proof fn lemma_claim_field_entry_part_lengths(m: SpecClaimFieldEntry)
    ensures
        spec_encode_fields(uint_field(1, m.key)).len() <= spec_encode_fields(claim_field_entry_fields(m)).len(),
        spec_encode_fields(string_field(2, m.value)).len() <= spec_encode_fields(claim_field_entry_fields(m)).len(),
{
    broadcast use group_field_lists;

}

proof fn lemma_claim_field_entry_step_key(m: SpecClaimFieldEntry)
    requires
        spec_encode_fields(uint_field(1, m.key)).len() < 0x1_0000_0000_0000_0000,
    ensures
        spec_apply_all(claim_field_entry_applier(), SpecClaimFieldEntry { key: 0, value: seq![] }, uint_field(1, m.key)) == Some(SpecClaimFieldEntry { key: m.key, value: seq![] }),
{
    let d = SpecClaimFieldEntry { key: 0, value: seq![] };
    lemma_apply_uint_field(claim_field_entry_applier(), d, 1, m.key);
}

proof fn lemma_claim_field_entry_step_value(m: SpecClaimFieldEntry)
    requires
        spec_encode_fields(string_field(2, m.value)).len() < 0x1_0000_0000_0000_0000,
    ensures
        spec_apply_all(claim_field_entry_applier(), SpecClaimFieldEntry { key: m.key, value: seq![] }, string_field(2, m.value)) == Some(SpecClaimFieldEntry { key: m.key, value: m.value }),
{
    let d = SpecClaimFieldEntry { key: m.key, value: seq![] };
    lemma_apply_string_field(claim_field_entry_applier(), d, 2, m.value);
    lemma_field_string_round_trip(2, m.value);
    if m.value.len() == 0 {
        assert(m.value =~= Seq::<char>::empty());
    }
}

/// Decoding the encoding of a [`ClaimFieldEntry`] gives back the value (for every value
/// whose encoding fits a 64-bit length).
pub proof fn lemma_claim_field_entry_round_trip(m: SpecClaimFieldEntry)
    requires
        spec_encode_claim_field_entry(m).len() < 0x1_0000_0000_0000_0000,
    ensures
        spec_decode_claim_field_entry(spec_encode_claim_field_entry(m)) == Some(m),
{
    let fs = claim_field_entry_fields(m);
    lemma_claim_field_entry_tags_ok(m);
    lemma_decode_fields(claim_field_entry_applier(), default_claim_field_entry(), fs);
    lemma_claim_field_entry_part_lengths(m);
    lemma_claim_field_entry_step_key(m);
    lemma_claim_field_entry_step_value(m);
    lemma_apply_concat(claim_field_entry_applier(), default_claim_field_entry(), uint_field(1, m.key), string_field(2, m.value));
    assert(SpecClaimFieldEntry { key: m.key, value: m.value } =~= m);
}

/// The content of a claim event: the kind of claim and its fields.
#[derive(Clone, Debug, PartialEq, Eq, Default)]
pub struct Claim {
    pub claim_type: u64,
    pub claim_fields: Vec<ClaimFieldEntry>,
    pub images: Vec<ImageManifest>,
}

/// The value of a [`Claim`].
#[verifier::ext_equal]
pub struct SpecClaim {
    pub claim_type: u64,
    pub claim_fields: Seq<SpecClaimFieldEntry>,
    pub images: Seq<SpecImageManifest>,
}

impl View for Claim {
    type V = SpecClaim;

    open spec fn view(&self) -> SpecClaim {
        SpecClaim {
            claim_type: self.claim_type,
            claim_fields: view_claim_field_entries(self.claim_fields@),
            images: view_image_manifests(self.images@),
        }
    }
}

/// The value that decoding starts from: every field at its default.
pub open spec fn default_claim() -> SpecClaim {
    SpecClaim { claim_type: 0, claim_fields: seq![], images: seq![] }
}

/// The fields that a [`Claim`] is written as, in field-number order; fields
/// at their default are left out.
pub open spec fn claim_fields(m: SpecClaim) -> Seq<WireField> {
    uint_field(1, m.claim_type)
        + repeated_bytes_fields(2, encode_claim_field_entries(m.claim_fields))
        + repeated_bytes_fields(3, encode_image_manifests(m.images))
}

/// The encoding of a [`Claim`].
pub open spec fn spec_encode_claim(m: SpecClaim) -> Seq<u8> {
    spec_encode_fields(claim_fields(m))
}

/// Merges one field into a [`Claim`]: a known field number must come with
/// its wire type; fields with other numbers are skipped.
pub open spec fn apply_claim(m: SpecClaim, f: WireField) -> Option<SpecClaim> {
    if f.tag == 1 {
        match field_varint(f) { Some(v) => Some(SpecClaim { claim_type: v, claim_fields: m.claim_fields, images: m.images }), None => None }
    } else if f.tag == 2 {
        match field_bytes(f) { Some(b) => match spec_decode_claim_field_entry(b) { Some(v) => Some(SpecClaim { claim_type: m.claim_type, claim_fields: m.claim_fields.push(v), images: m.images }), None => None }, None => None }
    } else if f.tag == 3 {
        match field_bytes(f) { Some(b) => match spec_decode_image_manifest(b) { Some(v) => Some(SpecClaim { claim_type: m.claim_type, claim_fields: m.claim_fields, images: m.images.push(v) }), None => None }, None => None }
    } else {
        Some(m)
    }
}

pub open spec fn claim_applier() -> spec_fn(SpecClaim, WireField) -> Option<SpecClaim> {
    |m: SpecClaim, f: WireField| apply_claim(m, f)
}

/// Merges the fields of `b` into `m`.
pub open spec fn spec_merge_claim(m: SpecClaim, b: Seq<u8>) -> Option<SpecClaim> {
    spec_merge_with(claim_applier(), m, b)
}

/// Decodes a [`Claim`]: the fields of `b` merged into the default.
pub open spec fn spec_decode_claim(b: Seq<u8>) -> Option<SpecClaim> {
    spec_merge_claim(default_claim(), b)
}

/// The values of a list of [`Claim`]s.
pub open spec fn view_claims(v: Seq<Claim>) -> Seq<SpecClaim> {
    v.map_values(|x: Claim| x@)
}

/// The encodings of a list of [`Claim`] values.
pub open spec fn encode_claims(v: Seq<SpecClaim>) -> Seq<Seq<u8>> {
    v.map_values(|x: SpecClaim| spec_encode_claim(x))
}

impl Claim {
    /// A value with every field at its default.
    pub fn new_default() -> (r: Self)
        ensures
            r@ == default_claim(),
    {
        let r = Claim { claim_type: 0, claim_fields: Vec::new(), images: Vec::new() };
        assert(r@ =~= default_claim());
        r
    }

    /// A copy.
    pub fn duplicate(&self) -> (r: Self)
        ensures
            r@ == self@,
    {
        let r = Claim {
            claim_type: self.claim_type,
            claim_fields: duplicate_claim_field_entries(&self.claim_fields),
            images: duplicate_image_manifests(&self.images),
        };
        assert(r@ =~= self@);
        r
    }

    /// The protocol encoding.
    pub fn encode(&self) -> (r: Vec<u8>)
        ensures
            r@ == spec_encode_claim(self@),
    {
        broadcast use group_field_lists;

        let mut out: Vec<u8> = Vec::new();
        put_uint(1, self.claim_type, &mut out);
        put_claim_field_entries(2, &self.claim_fields, &mut out);
        put_image_manifests(3, &self.images, &mut out);
        assert(out@ =~= spec_encode_claim(self@));
        out
    }

    fn apply_field(&mut self, buf: &[u8], f: &RawField) -> (ok: bool)
        requires
            raw_field_within(*f, buf@.len()),
        ensures
            match apply_claim(old(self)@, raw_field_view(*f, buf@)) {
                Some(m) => ok && final(self)@ == m,
                None => !ok,
            },
    {
        if f.tag == 1 {
            match raw_varint(f) { Some(v) => { self.claim_type = v; true }, None => false }
        } else if f.tag == 2 {
            match f.value {
                RawValue::Bytes(s, e) => {
                    let mut sub = ClaimFieldEntry::new_default();
                    if sub.merge(buf, s, e) {
                        let ghost before = self.claim_fields@;
                        self.claim_fields.push(sub);
                        assert(view_claim_field_entries(self.claim_fields@) =~= view_claim_field_entries(before).push(sub@));
                        true
                    } else {
                        false
                    }
                },
                _ => false,
            }
        } else if f.tag == 3 {
            match f.value {
                RawValue::Bytes(s, e) => {
                    let mut sub = ImageManifest::new_default();
                    if sub.merge(buf, s, e) {
                        let ghost before = self.images@;
                        self.images.push(sub);
                        assert(view_image_manifests(self.images@) =~= view_image_manifests(before).push(sub@));
                        true
                    } else {
                        false
                    }
                },
                _ => false,
            }
        } else {
            true
        }
    }

    /// Merges the fields of `buf[start..end]` into `self`; `false` where the
    /// bytes are not a valid encoding (`self` is then left in no stated state).
    pub fn merge(&mut self, buf: &[u8], start: usize, end: usize) -> (ok: bool)
        requires
            start <= end <= buf@.len(),
        ensures
            match spec_merge_claim(old(self)@, buf@.subrange(start as int, end as int)) {
                Some(m) => ok && final(self)@ == m,
                None => !ok,
            },
    {
        let mut pos = start;
        while pos < end
            invariant
                start <= pos <= end <= buf@.len(),
                spec_merge_claim(old(self)@, buf@.subrange(start as int, end as int)) == spec_merge_claim(
                    self@,
                    buf@.subrange(pos as int, end as int),
                ),
            decreases end - pos,
        {
            match read_field(buf, pos, end) {
                Some((f, next)) => {
                    proof {
                        lemma_merge_step(
                            claim_applier(),
                            self@,
                            buf@,
                            pos as nat,
                            next as nat,
                            end as nat,
                            raw_field_view(f, buf@),
                        );
                    }
                    if !self.apply_field(buf, &f) {
                        return false;
                    }
                    pos = next;
                },
                None => {
                    proof {
                        lemma_merge_bad_field(claim_applier(), self@, buf@, pos as nat, end as nat);
                    }
                    return false;
                },
            }
        }
        proof {
            lemma_merge_empty(claim_applier(), self@, buf@, pos as nat);
        }
        true
    }

    /// Decodes a [`Claim`] from its protocol encoding; `None` where the bytes
    /// are not one.
    pub fn decode(buf: &[u8]) -> (r: Option<Self>)
        ensures
            match spec_decode_claim(buf@) {
                Some(m) => r matches Some(x) && x@ == m,
                None => r is None,
            },
    {
        let mut m = Claim::new_default();
        assert(buf@.subrange(0, buf@.len() as int) =~= buf@);
        if m.merge(buf, 0, buf.len()) {
            Some(m)
        } else {
            None
        }
    }
}

/// Applying the fields of `items` to the `claim_fields` of `m` appends them.
proof fn lemma_claim_apply_claim_fields(m: SpecClaim, items: Seq<SpecClaimFieldEntry>)
    requires
        forall|i: int| 0 <= i < items.len() ==> (#[trigger] spec_encode_claim_field_entry(items[i])).len() < 0x1_0000_0000_0000_0000,
    ensures
        spec_apply_all(claim_applier(), m, repeated_bytes_fields(2, encode_claim_field_entries(items))) == Some(SpecClaim { claim_type: m.claim_type, claim_fields: m.claim_fields + items, images: m.images }),
    decreases items.len(),
{
    if items.len() == 0 {
        assert(repeated_bytes_fields(2, encode_claim_field_entries(items)) =~= Seq::<WireField>::empty());
        assert(m.claim_fields + items =~= m.claim_fields);
        assert(SpecClaim { claim_type: m.claim_type, claim_fields: m.claim_fields + items, images: m.images } =~= m);
    } else {
        lemma_repeated_split(2, encode_claim_field_entries(items));
        assert(encode_claim_field_entries(items).drop_first() =~= encode_claim_field_entries(items.drop_first()));
        assert(encode_claim_field_entries(items)[0] == spec_encode_claim_field_entry(items[0]));
        lemma_claim_field_entry_round_trip(items[0]);
        let m1 = SpecClaim { claim_type: m.claim_type, claim_fields: m.claim_fields.push(items[0]), images: m.images };
        lemma_apply_concat(claim_applier(), m, seq![WireField { tag: 2, value: WireValue::Bytes(encode_claim_field_entries(items)[0]) }], repeated_bytes_fields(2, encode_claim_field_entries(items.drop_first())));
        lemma_apply_single(claim_applier(), m, WireField { tag: 2, value: WireValue::Bytes(encode_claim_field_entries(items)[0]) });
        assert forall|i: int| 0 <= i < items.drop_first().len() implies (#[trigger] spec_encode_claim_field_entry(items.drop_first()[i])).len() < 0x1_0000_0000_0000_0000 by {
            assert(items.drop_first()[i] == items[i + 1]);
        }
        lemma_claim_apply_claim_fields(m1, items.drop_first());
        assert(m1.claim_fields + items.drop_first() =~= m.claim_fields + items);
    }
}

/// Applying the fields of `items` to the `images` of `m` appends them.
proof fn lemma_claim_apply_images(m: SpecClaim, items: Seq<SpecImageManifest>)
    requires
        forall|i: int| 0 <= i < items.len() ==> (#[trigger] spec_encode_image_manifest(items[i])).len() < 0x1_0000_0000_0000_0000,
    ensures
        spec_apply_all(claim_applier(), m, repeated_bytes_fields(3, encode_image_manifests(items))) == Some(SpecClaim { claim_type: m.claim_type, claim_fields: m.claim_fields, images: m.images + items }),
    decreases items.len(),
{
    if items.len() == 0 {
        assert(repeated_bytes_fields(3, encode_image_manifests(items)) =~= Seq::<WireField>::empty());
        assert(m.images + items =~= m.images);
        assert(SpecClaim { claim_type: m.claim_type, claim_fields: m.claim_fields, images: m.images + items } =~= m);
    } else {
        lemma_repeated_split(3, encode_image_manifests(items));
        assert(encode_image_manifests(items).drop_first() =~= encode_image_manifests(items.drop_first()));
        assert(encode_image_manifests(items)[0] == spec_encode_image_manifest(items[0]));
        lemma_image_manifest_round_trip(items[0]);
        let m1 = SpecClaim { claim_type: m.claim_type, claim_fields: m.claim_fields, images: m.images.push(items[0]) };
        lemma_apply_concat(claim_applier(), m, seq![WireField { tag: 3, value: WireValue::Bytes(encode_image_manifests(items)[0]) }], repeated_bytes_fields(3, encode_image_manifests(items.drop_first())));
        lemma_apply_single(claim_applier(), m, WireField { tag: 3, value: WireValue::Bytes(encode_image_manifests(items)[0]) });
        assert forall|i: int| 0 <= i < items.drop_first().len() implies (#[trigger] spec_encode_image_manifest(items.drop_first()[i])).len() < 0x1_0000_0000_0000_0000 by {
            assert(items.drop_first()[i] == items[i + 1]);
        }
        lemma_claim_apply_images(m1, items.drop_first());
        assert(m1.images + items.drop_first() =~= m.images + items);
    }
}

proof fn lemma_claim_tags_ok(m: SpecClaim)
    ensures
        fields_tags_ok(claim_fields(m)),
{
    lemma_tags_ok_uint(1, m.claim_type);
    lemma_tags_ok_repeated(2, encode_claim_field_entries(m.claim_fields));
    lemma_tags_ok_repeated(3, encode_image_manifests(m.images));
    lemma_tags_ok_concat(uint_field(1, m.claim_type), repeated_bytes_fields(2, encode_claim_field_entries(m.claim_fields)));
    lemma_tags_ok_concat(uint_field(1, m.claim_type) + repeated_bytes_fields(2, encode_claim_field_entries(m.claim_fields)), repeated_bytes_fields(3, encode_image_manifests(m.images)));
}

proof fn lemma_claim_part_lengths(m: SpecClaim)
    ensures
        spec_encode_fields(uint_field(1, m.claim_type)).len() <= spec_encode_fields(claim_fields(m)).len(),
        spec_encode_fields(repeated_bytes_fields(2, encode_claim_field_entries(m.claim_fields))).len() <= spec_encode_fields(claim_fields(m)).len(),
        spec_encode_fields(repeated_bytes_fields(3, encode_image_manifests(m.images))).len() <= spec_encode_fields(claim_fields(m)).len(),
{
    broadcast use group_field_lists;

}

proof fn lemma_claim_step_claim_type(m: SpecClaim)
    requires
        spec_encode_fields(uint_field(1, m.claim_type)).len() < 0x1_0000_0000_0000_0000,
    ensures
        spec_apply_all(claim_applier(), SpecClaim { claim_type: 0, claim_fields: seq![], images: seq![] }, uint_field(1, m.claim_type)) == Some(SpecClaim { claim_type: m.claim_type, claim_fields: seq![], images: seq![] }),
{
    let d = SpecClaim { claim_type: 0, claim_fields: seq![], images: seq![] };
    lemma_apply_uint_field(claim_applier(), d, 1, m.claim_type);
}

proof fn lemma_claim_step_claim_fields(m: SpecClaim)
    requires
        spec_encode_fields(repeated_bytes_fields(2, encode_claim_field_entries(m.claim_fields))).len() < 0x1_0000_0000_0000_0000,
    ensures
        spec_apply_all(claim_applier(), SpecClaim { claim_type: m.claim_type, claim_fields: seq![], images: seq![] }, repeated_bytes_fields(2, encode_claim_field_entries(m.claim_fields))) == Some(SpecClaim { claim_type: m.claim_type, claim_fields: m.claim_fields, images: seq![] }),
{
    let d = SpecClaim { claim_type: m.claim_type, claim_fields: seq![], images: seq![] };
    lemma_repeated_bounded(2, encode_claim_field_entries(m.claim_fields));
    assert forall|i: int| 0 <= i < m.claim_fields.len() implies (#[trigger] spec_encode_claim_field_entry(m.claim_fields[i])).len()
        < 0x1_0000_0000_0000_0000 by {
        assert(encode_claim_field_entries(m.claim_fields)[i] == spec_encode_claim_field_entry(m.claim_fields[i]));
    }
    lemma_claim_apply_claim_fields(d, m.claim_fields);
    assert(d.claim_fields + m.claim_fields =~= m.claim_fields);
}

proof fn lemma_claim_step_images(m: SpecClaim)
    requires
        spec_encode_fields(repeated_bytes_fields(3, encode_image_manifests(m.images))).len() < 0x1_0000_0000_0000_0000,
    ensures
        spec_apply_all(claim_applier(), SpecClaim { claim_type: m.claim_type, claim_fields: m.claim_fields, images: seq![] }, repeated_bytes_fields(3, encode_image_manifests(m.images))) == Some(SpecClaim { claim_type: m.claim_type, claim_fields: m.claim_fields, images: m.images }),
{
    let d = SpecClaim { claim_type: m.claim_type, claim_fields: m.claim_fields, images: seq![] };
    lemma_repeated_bounded(3, encode_image_manifests(m.images));
    assert forall|i: int| 0 <= i < m.images.len() implies (#[trigger] spec_encode_image_manifest(m.images[i])).len()
        < 0x1_0000_0000_0000_0000 by {
        assert(encode_image_manifests(m.images)[i] == spec_encode_image_manifest(m.images[i]));
    }
    lemma_claim_apply_images(d, m.images);
    assert(d.images + m.images =~= m.images);
}

/// Decoding the encoding of a [`Claim`] gives back the value (for every value
/// whose encoding fits a 64-bit length).
pub proof fn lemma_claim_round_trip(m: SpecClaim)
    requires
        spec_encode_claim(m).len() < 0x1_0000_0000_0000_0000,
    ensures
        spec_decode_claim(spec_encode_claim(m)) == Some(m),
{
    let fs = claim_fields(m);
    lemma_claim_tags_ok(m);
    lemma_decode_fields(claim_applier(), default_claim(), fs);
    lemma_claim_part_lengths(m);
    lemma_claim_step_claim_type(m);
    lemma_claim_step_claim_fields(m);
    lemma_claim_step_images(m);
    lemma_apply_concat(claim_applier(), default_claim(), uint_field(1, m.claim_type), repeated_bytes_fields(2, encode_claim_field_entries(m.claim_fields)));
    lemma_apply_concat(claim_applier(), default_claim(), uint_field(1, m.claim_type) + repeated_bytes_fields(2, encode_claim_field_entries(m.claim_fields)), repeated_bytes_fields(3, encode_image_manifests(m.images)));
    assert(SpecClaim { claim_type: m.claim_type, claim_fields: m.claim_fields, images: m.images } =~= m);
}

/// The content of a delete event: the event that it deletes.
#[derive(Clone, Debug, PartialEq, Eq, Default)]
pub struct Delete {
    pub process: Option<Process>,
    pub logical_clock: u64,
    pub indices: Option<Indices>,
    pub unix_milliseconds: Option<u64>,
    pub content_type: u64,
}

/// The value of a [`Delete`].
#[verifier::ext_equal]
pub struct SpecDelete {
    pub process: Option<SpecProcess>,
    pub logical_clock: u64,
    pub indices: Option<SpecIndices>,
    pub unix_milliseconds: Option<u64>,
    pub content_type: u64,
}

impl View for Delete {
    type V = SpecDelete;

    open spec fn view(&self) -> SpecDelete {
        SpecDelete {
            process: match self.process { Some(v) => Some(v@), None => None },
            logical_clock: self.logical_clock,
            indices: match self.indices { Some(v) => Some(v@), None => None },
            unix_milliseconds: self.unix_milliseconds,
            content_type: self.content_type,
        }
    }
}

/// The value that decoding starts from: every field at its default.
pub open spec fn default_delete() -> SpecDelete {
    SpecDelete { process: None, logical_clock: 0, indices: None, unix_milliseconds: None, content_type: 0 }
}

/// The fields that a [`Delete`] is written as, in field-number order; fields
/// at their default are left out.
pub open spec fn delete_fields(m: SpecDelete) -> Seq<WireField> {
    opt_bytes_field(1, match m.process { Some(v) => Some(spec_encode_process(v)), None => None })
        + uint_field(2, m.logical_clock)
        + opt_bytes_field(3, match m.indices { Some(v) => Some(spec_encode_indices(v)), None => None })
        + opt_uint_field(4, m.unix_milliseconds)
        + uint_field(5, m.content_type)
}

/// The encoding of a [`Delete`].
pub open spec fn spec_encode_delete(m: SpecDelete) -> Seq<u8> {
    spec_encode_fields(delete_fields(m))
}

/// Merges one field into a [`Delete`]: a known field number must come with
/// its wire type; fields with other numbers are skipped.
pub open spec fn apply_delete(m: SpecDelete, f: WireField) -> Option<SpecDelete> {
    if f.tag == 1 {
        match field_bytes(f) { Some(b) => match spec_merge_process(match m.process { Some(v) => v, None => default_process() }, b) { Some(v) => Some(SpecDelete { process: Some(v), logical_clock: m.logical_clock, indices: m.indices, unix_milliseconds: m.unix_milliseconds, content_type: m.content_type }), None => None }, None => None }
    } else if f.tag == 2 {
        match field_varint(f) { Some(v) => Some(SpecDelete { process: m.process, logical_clock: v, indices: m.indices, unix_milliseconds: m.unix_milliseconds, content_type: m.content_type }), None => None }
    } else if f.tag == 3 {
        match field_bytes(f) { Some(b) => match spec_merge_indices(match m.indices { Some(v) => v, None => default_indices() }, b) { Some(v) => Some(SpecDelete { process: m.process, logical_clock: m.logical_clock, indices: Some(v), unix_milliseconds: m.unix_milliseconds, content_type: m.content_type }), None => None }, None => None }
    } else if f.tag == 4 {
        match field_varint(f) { Some(v) => Some(SpecDelete { process: m.process, logical_clock: m.logical_clock, indices: m.indices, unix_milliseconds: Some(v), content_type: m.content_type }), None => None }
    } else if f.tag == 5 {
        match field_varint(f) { Some(v) => Some(SpecDelete { process: m.process, logical_clock: m.logical_clock, indices: m.indices, unix_milliseconds: m.unix_milliseconds, content_type: v }), None => None }
    } else {
        Some(m)
    }
}

pub open spec fn delete_applier() -> spec_fn(SpecDelete, WireField) -> Option<SpecDelete> {
    |m: SpecDelete, f: WireField| apply_delete(m, f)
}

/// Merges the fields of `b` into `m`.
pub open spec fn spec_merge_delete(m: SpecDelete, b: Seq<u8>) -> Option<SpecDelete> {
    spec_merge_with(delete_applier(), m, b)
}

/// Decodes a [`Delete`]: the fields of `b` merged into the default.
pub open spec fn spec_decode_delete(b: Seq<u8>) -> Option<SpecDelete> {
    spec_merge_delete(default_delete(), b)
}

/// The values of a list of [`Delete`]s.
pub open spec fn view_deletes(v: Seq<Delete>) -> Seq<SpecDelete> {
    v.map_values(|x: Delete| x@)
}

/// The encodings of a list of [`Delete`] values.
pub open spec fn encode_deletes(v: Seq<SpecDelete>) -> Seq<Seq<u8>> {
    v.map_values(|x: SpecDelete| spec_encode_delete(x))
}

impl Delete {
    /// A value with every field at its default.
    pub fn new_default() -> (r: Self)
        ensures
            r@ == default_delete(),
    {
        let r = Delete { process: None, logical_clock: 0, indices: None, unix_milliseconds: None, content_type: 0 };
        assert(r@ =~= default_delete());
        r
    }

    /// A copy.
    pub fn duplicate(&self) -> (r: Self)
        ensures
            r@ == self@,
    {
        let r = Delete {
            process: match &self.process { Some(v) => Some(v.duplicate()), None => None },
            logical_clock: self.logical_clock,
            indices: match &self.indices { Some(v) => Some(v.duplicate()), None => None },
            unix_milliseconds: self.unix_milliseconds,
            content_type: self.content_type,
        };
        assert(r@ =~= self@);
        r
    }

    /// The protocol encoding.
    pub fn encode(&self) -> (r: Vec<u8>)
        ensures
            r@ == spec_encode_delete(self@),
    {
        broadcast use group_field_lists;

        let mut out: Vec<u8> = Vec::new();
        match &self.process {
            Some(v) => {
                let e = v.encode();
                put_bytes_always(1, e.as_slice(), &mut out);
            },
            None => {},
        }
        put_uint(2, self.logical_clock, &mut out);
        match &self.indices {
            Some(v) => {
                let e = v.encode();
                put_bytes_always(3, e.as_slice(), &mut out);
            },
            None => {},
        }
        put_opt_uint(4, self.unix_milliseconds, &mut out);
        put_uint(5, self.content_type, &mut out);
        assert(out@ =~= spec_encode_delete(self@));
        out
    }

    fn apply_field(&mut self, buf: &[u8], f: &RawField) -> (ok: bool)
        requires
            raw_field_within(*f, buf@.len()),
        ensures
            match apply_delete(old(self)@, raw_field_view(*f, buf@)) {
                Some(m) => ok && final(self)@ == m,
                None => !ok,
            },
    {
        if f.tag == 1 {
            match f.value {
                RawValue::Bytes(s, e) => {
                    let mut sub = match &self.process {
                        Some(v) => v.duplicate(),
                        None => Process::new_default(),
                    };
                    if sub.merge(buf, s, e) {
                        self.process = Some(sub);
                        true
                    } else {
                        false
                    }
                },
                _ => false,
            }
        } else if f.tag == 2 {
            match raw_varint(f) { Some(v) => { self.logical_clock = v; true }, None => false }
        } else if f.tag == 3 {
            match f.value {
                RawValue::Bytes(s, e) => {
                    let mut sub = match &self.indices {
                        Some(v) => v.duplicate(),
                        None => Indices::new_default(),
                    };
                    if sub.merge(buf, s, e) {
                        self.indices = Some(sub);
                        true
                    } else {
                        false
                    }
                },
                _ => false,
            }
        } else if f.tag == 4 {
            match raw_varint(f) { Some(v) => { self.unix_milliseconds = Some(v); true }, None => false }
        } else if f.tag == 5 {
            match raw_varint(f) { Some(v) => { self.content_type = v; true }, None => false }
        } else {
            true
        }
    }

    /// Merges the fields of `buf[start..end]` into `self`; `false` where the
    /// bytes are not a valid encoding (`self` is then left in no stated state).
    pub fn merge(&mut self, buf: &[u8], start: usize, end: usize) -> (ok: bool)
        requires
            start <= end <= buf@.len(),
        ensures
            match spec_merge_delete(old(self)@, buf@.subrange(start as int, end as int)) {
                Some(m) => ok && final(self)@ == m,
                None => !ok,
            },
    {
        let mut pos = start;
        while pos < end
            invariant
                start <= pos <= end <= buf@.len(),
                spec_merge_delete(old(self)@, buf@.subrange(start as int, end as int)) == spec_merge_delete(
                    self@,
                    buf@.subrange(pos as int, end as int),
                ),
            decreases end - pos,
        {
            match read_field(buf, pos, end) {
                Some((f, next)) => {
                    proof {
                        lemma_merge_step(
                            delete_applier(),
                            self@,
                            buf@,
                            pos as nat,
                            next as nat,
                            end as nat,
                            raw_field_view(f, buf@),
                        );
                    }
                    if !self.apply_field(buf, &f) {
                        return false;
                    }
                    pos = next;
                },
                None => {
                    proof {
                        lemma_merge_bad_field(delete_applier(), self@, buf@, pos as nat, end as nat);
                    }
                    return false;
                },
            }
        }
        proof {
            lemma_merge_empty(delete_applier(), self@, buf@, pos as nat);
        }
        true
    }

    /// Decodes a [`Delete`] from its protocol encoding; `None` where the bytes
    /// are not one.
    pub fn decode(buf: &[u8]) -> (r: Option<Self>)
        ensures
            match spec_decode_delete(buf@) {
                Some(m) => r matches Some(x) && x@ == m,
                None => r is None,
            },
    {
        let mut m = Delete::new_default();
        assert(buf@.subrange(0, buf@.len() as int) =~= buf@);
        if m.merge(buf, 0, buf.len()) {
            Some(m)
        } else {
            None
        }
    }
}

proof fn lemma_delete_tags_ok(m: SpecDelete)
    ensures
        fields_tags_ok(delete_fields(m)),
{
    lemma_tags_ok_opt_bytes(1, match m.process { Some(v) => Some(spec_encode_process(v)), None => None });
    lemma_tags_ok_uint(2, m.logical_clock);
    lemma_tags_ok_opt_bytes(3, match m.indices { Some(v) => Some(spec_encode_indices(v)), None => None });
    lemma_tags_ok_opt_uint(4, m.unix_milliseconds);
    lemma_tags_ok_uint(5, m.content_type);
    lemma_tags_ok_concat(opt_bytes_field(1, match m.process { Some(v) => Some(spec_encode_process(v)), None => None }), uint_field(2, m.logical_clock));
    lemma_tags_ok_concat(opt_bytes_field(1, match m.process { Some(v) => Some(spec_encode_process(v)), None => None }) + uint_field(2, m.logical_clock), opt_bytes_field(3, match m.indices { Some(v) => Some(spec_encode_indices(v)), None => None }));
    lemma_tags_ok_concat(opt_bytes_field(1, match m.process { Some(v) => Some(spec_encode_process(v)), None => None }) + uint_field(2, m.logical_clock) + opt_bytes_field(3, match m.indices { Some(v) => Some(spec_encode_indices(v)), None => None }), opt_uint_field(4, m.unix_milliseconds));
    lemma_tags_ok_concat(opt_bytes_field(1, match m.process { Some(v) => Some(spec_encode_process(v)), None => None }) + uint_field(2, m.logical_clock) + opt_bytes_field(3, match m.indices { Some(v) => Some(spec_encode_indices(v)), None => None }) + opt_uint_field(4, m.unix_milliseconds), uint_field(5, m.content_type));
}

proof fn lemma_delete_part_lengths(m: SpecDelete)
    ensures
        spec_encode_fields(opt_bytes_field(1, match m.process { Some(v) => Some(spec_encode_process(v)), None => None })).len() <= spec_encode_fields(delete_fields(m)).len(),
        spec_encode_fields(uint_field(2, m.logical_clock)).len() <= spec_encode_fields(delete_fields(m)).len(),
        spec_encode_fields(opt_bytes_field(3, match m.indices { Some(v) => Some(spec_encode_indices(v)), None => None })).len() <= spec_encode_fields(delete_fields(m)).len(),
        spec_encode_fields(opt_uint_field(4, m.unix_milliseconds)).len() <= spec_encode_fields(delete_fields(m)).len(),
        spec_encode_fields(uint_field(5, m.content_type)).len() <= spec_encode_fields(delete_fields(m)).len(),
{
    broadcast use group_field_lists;

}

proof fn lemma_delete_step_process(m: SpecDelete)
    requires
        spec_encode_fields(opt_bytes_field(1, match m.process { Some(v) => Some(spec_encode_process(v)), None => None })).len() < 0x1_0000_0000_0000_0000,
    ensures
        spec_apply_all(delete_applier(), SpecDelete { process: None, logical_clock: 0, indices: None, unix_milliseconds: None, content_type: 0 }, opt_bytes_field(1, match m.process { Some(v) => Some(spec_encode_process(v)), None => None })) == Some(SpecDelete { process: m.process, logical_clock: 0, indices: None, unix_milliseconds: None, content_type: 0 }),
{
    let d = SpecDelete { process: None, logical_clock: 0, indices: None, unix_milliseconds: None, content_type: 0 };
    lemma_apply_opt_bytes_field(
        delete_applier(),
        d,
        1,
        match m.process {
            Some(v) => Some(spec_encode_process(v)),
            None => None,
        },
    );
    match m.process {
        Some(v) => {
            let fld = WireField { tag: 1, value: WireValue::Bytes(spec_encode_process(v)) };
            lemma_encode_single_field(fld);
            lemma_field_payload_le(fld);
            lemma_process_round_trip(v);
        },
        None => {},
    }
}

proof fn lemma_delete_step_logical_clock(m: SpecDelete)
    requires
        spec_encode_fields(uint_field(2, m.logical_clock)).len() < 0x1_0000_0000_0000_0000,
    ensures
        spec_apply_all(delete_applier(), SpecDelete { process: m.process, logical_clock: 0, indices: None, unix_milliseconds: None, content_type: 0 }, uint_field(2, m.logical_clock)) == Some(SpecDelete { process: m.process, logical_clock: m.logical_clock, indices: None, unix_milliseconds: None, content_type: 0 }),
{
    let d = SpecDelete { process: m.process, logical_clock: 0, indices: None, unix_milliseconds: None, content_type: 0 };
    lemma_apply_uint_field(delete_applier(), d, 2, m.logical_clock);
}

proof fn lemma_delete_step_indices(m: SpecDelete)
    requires
        spec_encode_fields(opt_bytes_field(3, match m.indices { Some(v) => Some(spec_encode_indices(v)), None => None })).len() < 0x1_0000_0000_0000_0000,
    ensures
        spec_apply_all(delete_applier(), SpecDelete { process: m.process, logical_clock: m.logical_clock, indices: None, unix_milliseconds: None, content_type: 0 }, opt_bytes_field(3, match m.indices { Some(v) => Some(spec_encode_indices(v)), None => None })) == Some(SpecDelete { process: m.process, logical_clock: m.logical_clock, indices: m.indices, unix_milliseconds: None, content_type: 0 }),
{
    let d = SpecDelete { process: m.process, logical_clock: m.logical_clock, indices: None, unix_milliseconds: None, content_type: 0 };
    lemma_apply_opt_bytes_field(
        delete_applier(),
        d,
        3,
        match m.indices {
            Some(v) => Some(spec_encode_indices(v)),
            None => None,
        },
    );
    match m.indices {
        Some(v) => {
            let fld = WireField { tag: 3, value: WireValue::Bytes(spec_encode_indices(v)) };
            lemma_encode_single_field(fld);
            lemma_field_payload_le(fld);
            lemma_indices_round_trip(v);
        },
        None => {},
    }
}

proof fn lemma_delete_step_unix_milliseconds(m: SpecDelete)
    requires
        spec_encode_fields(opt_uint_field(4, m.unix_milliseconds)).len() < 0x1_0000_0000_0000_0000,
    ensures
        spec_apply_all(delete_applier(), SpecDelete { process: m.process, logical_clock: m.logical_clock, indices: m.indices, unix_milliseconds: None, content_type: 0 }, opt_uint_field(4, m.unix_milliseconds)) == Some(SpecDelete { process: m.process, logical_clock: m.logical_clock, indices: m.indices, unix_milliseconds: m.unix_milliseconds, content_type: 0 }),
{
    let d = SpecDelete { process: m.process, logical_clock: m.logical_clock, indices: m.indices, unix_milliseconds: None, content_type: 0 };
    lemma_apply_opt_uint_field(delete_applier(), d, 4, m.unix_milliseconds);
}

proof fn lemma_delete_step_content_type(m: SpecDelete)
    requires
        spec_encode_fields(uint_field(5, m.content_type)).len() < 0x1_0000_0000_0000_0000,
    ensures
        spec_apply_all(delete_applier(), SpecDelete { process: m.process, logical_clock: m.logical_clock, indices: m.indices, unix_milliseconds: m.unix_milliseconds, content_type: 0 }, uint_field(5, m.content_type)) == Some(SpecDelete { process: m.process, logical_clock: m.logical_clock, indices: m.indices, unix_milliseconds: m.unix_milliseconds, content_type: m.content_type }),
{
    let d = SpecDelete { process: m.process, logical_clock: m.logical_clock, indices: m.indices, unix_milliseconds: m.unix_milliseconds, content_type: 0 };
    lemma_apply_uint_field(delete_applier(), d, 5, m.content_type);
}

/// Decoding the encoding of a [`Delete`] gives back the value (for every value
/// whose encoding fits a 64-bit length).
pub proof fn lemma_delete_round_trip(m: SpecDelete)
    requires
        spec_encode_delete(m).len() < 0x1_0000_0000_0000_0000,
    ensures
        spec_decode_delete(spec_encode_delete(m)) == Some(m),
{
    let fs = delete_fields(m);
    lemma_delete_tags_ok(m);
    lemma_decode_fields(delete_applier(), default_delete(), fs);
    lemma_delete_part_lengths(m);
    lemma_delete_step_process(m);
    lemma_delete_step_logical_clock(m);
    lemma_delete_step_indices(m);
    lemma_delete_step_unix_milliseconds(m);
    lemma_delete_step_content_type(m);
    lemma_apply_concat(delete_applier(), default_delete(), opt_bytes_field(1, match m.process { Some(v) => Some(spec_encode_process(v)), None => None }), uint_field(2, m.logical_clock));
    lemma_apply_concat(delete_applier(), default_delete(), opt_bytes_field(1, match m.process { Some(v) => Some(spec_encode_process(v)), None => None }) + uint_field(2, m.logical_clock), opt_bytes_field(3, match m.indices { Some(v) => Some(spec_encode_indices(v)), None => None }));
    lemma_apply_concat(delete_applier(), default_delete(), opt_bytes_field(1, match m.process { Some(v) => Some(spec_encode_process(v)), None => None }) + uint_field(2, m.logical_clock) + opt_bytes_field(3, match m.indices { Some(v) => Some(spec_encode_indices(v)), None => None }), opt_uint_field(4, m.unix_milliseconds));
    lemma_apply_concat(delete_applier(), default_delete(), opt_bytes_field(1, match m.process { Some(v) => Some(spec_encode_process(v)), None => None }) + uint_field(2, m.logical_clock) + opt_bytes_field(3, match m.indices { Some(v) => Some(spec_encode_indices(v)), None => None }) + opt_uint_field(4, m.unix_milliseconds), uint_field(5, m.content_type));
    assert(SpecDelete { process: m.process, logical_clock: m.logical_clock, indices: m.indices, unix_milliseconds: m.unix_milliseconds, content_type: m.content_type } =~= m);
}

} // verus!
