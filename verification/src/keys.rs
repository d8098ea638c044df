//! The protocol messages that name systems, processes and events.

use vstd::prelude::*;
use vstd::utf8::*;

use crate::wire::{
    bytes_field, field_bytes, field_varint, group_field_lists, lemma_apply_bytes_field, lemma_apply_concat,
    lemma_apply_opt_bytes_field, lemma_apply_uint_field, lemma_decode_fields, lemma_encode_single_field,
    lemma_field_payload_le, lemma_merge_bad_field, lemma_merge_empty, lemma_merge_step, opt_bytes_field, put_bytes,
    put_bytes_always, put_uint, raw_bytes, raw_field_view, raw_field_within, raw_varint, read_field, spec_apply_all,
    fields_tags_ok, spec_encode_fields, spec_merge_with, uint_field, RawField, RawValue, WireField, WireValue,
    lemma_tags_ok_uint, lemma_tags_ok_bytes, lemma_tags_ok_opt_bytes, lemma_tags_ok_concat,
};

verus! {

/// A system's public key: the key's type (1 stands for ed25519) and its bytes.
#[derive(Clone, Debug, PartialEq, Eq, Default)]
pub struct PublicKey {
    /// The kind of key; 1 is ed25519.
    pub key_type: u64,
    /// The key bytes.
    pub key: Vec<u8>,
}

/// The value of a [`PublicKey`].
#[verifier::ext_equal]
pub struct SpecPublicKey {
    pub key_type: u64,
    pub key: Seq<u8>,
}

impl View for PublicKey {
    type V = SpecPublicKey;

    open spec fn view(&self) -> SpecPublicKey {
        SpecPublicKey {
            key_type: self.key_type,
            key: self.key@,
        }
    }
}

/// The value that decoding starts from: every field at its default.
pub open spec fn default_public_key() -> SpecPublicKey {
    SpecPublicKey { key_type: 0, key: seq![] }
}

/// The fields that a [`PublicKey`] is written as, in field-number order; fields
/// at their default are left out.
pub open spec fn public_key_fields(m: SpecPublicKey) -> Seq<WireField> {
    uint_field(1, m.key_type)
        + bytes_field(2, m.key)
}

/// The encoding of a [`PublicKey`].
pub open spec fn spec_encode_public_key(m: SpecPublicKey) -> Seq<u8> {
    spec_encode_fields(public_key_fields(m))
}

/// Merges one field into a [`PublicKey`]: a known field number must come with
/// its wire type; fields with other numbers are skipped.
pub open spec fn apply_public_key(m: SpecPublicKey, f: WireField) -> Option<SpecPublicKey> {
    if f.tag == 1 {
        match field_varint(f) { Some(v) => Some(SpecPublicKey { key_type: v, key: m.key }), None => None }
    } else if f.tag == 2 {
        match field_bytes(f) { Some(b) => Some(SpecPublicKey { key_type: m.key_type, key: b }), None => None }
    } else {
        Some(m)
    }
}

pub open spec fn public_key_applier() -> spec_fn(SpecPublicKey, WireField) -> Option<SpecPublicKey> {
    |m: SpecPublicKey, f: WireField| apply_public_key(m, f)
}

/// Merges the fields of `b` into `m`.
pub open spec fn spec_merge_public_key(m: SpecPublicKey, b: Seq<u8>) -> Option<SpecPublicKey> {
    spec_merge_with(public_key_applier(), m, b)
}

/// Decodes a [`PublicKey`]: the fields of `b` merged into the default.
pub open spec fn spec_decode_public_key(b: Seq<u8>) -> Option<SpecPublicKey> {
    spec_merge_public_key(default_public_key(), b)
}

/// The values of a list of [`PublicKey`]s.
pub open spec fn view_public_keys(v: Seq<PublicKey>) -> Seq<SpecPublicKey> {
    v.map_values(|x: PublicKey| x@)
}

/// The encodings of a list of [`PublicKey`] values.
pub open spec fn encode_public_keys(v: Seq<SpecPublicKey>) -> Seq<Seq<u8>> {
    v.map_values(|x: SpecPublicKey| spec_encode_public_key(x))
}

impl PublicKey {
    /// A value with every field at its default.
    pub fn new_default() -> (r: Self)
        ensures
            r@ == default_public_key(),
    {
        let r = PublicKey { key_type: 0, key: Vec::new() };
        assert(r@ =~= default_public_key());
        r
    }

    /// A copy.
    pub fn duplicate(&self) -> (r: Self)
        ensures
            r@ == self@,
    {
        let r = PublicKey {
            key_type: self.key_type,
            key: vstd::slice::slice_to_vec(self.key.as_slice()),
        };
        assert(r@ =~= self@);
        r
    }

    /// The protocol encoding.
    pub fn encode(&self) -> (r: Vec<u8>)
        ensures
            r@ == spec_encode_public_key(self@),
    {
        broadcast use group_field_lists;

        let mut out: Vec<u8> = Vec::new();
        put_uint(1, self.key_type, &mut out);
        put_bytes(2, self.key.as_slice(), &mut out);
        assert(out@ =~= spec_encode_public_key(self@));
        out
    }

    fn apply_field(&mut self, buf: &[u8], f: &RawField) -> (ok: bool)
        requires
            raw_field_within(*f, buf@.len()),
        ensures
            match apply_public_key(old(self)@, raw_field_view(*f, buf@)) {
                Some(m) => ok && final(self)@ == m,
                None => !ok,
            },
    {
        if f.tag == 1 {
            match raw_varint(f) { Some(v) => { self.key_type = v; true }, None => false }
        } else if f.tag == 2 {
            match raw_bytes(buf, f) { Some(b) => { self.key = b; true }, None => false }
        } else {
            true
        }
    }

    /// Merges the fields of `buf[start..end]` into `self`; `false` where the
    /// bytes are not a valid encoding (`self` is then left in no stated state).
    pub fn merge(&mut self, buf: &[u8], start: usize, end: usize) -> (ok: bool)
        requires
            start <= end <= buf@.len(),
        ensures
            match spec_merge_public_key(old(self)@, buf@.subrange(start as int, end as int)) {
                Some(m) => ok && final(self)@ == m,
                None => !ok,
            },
    {
        let mut pos = start;
        while pos < end
            invariant
                start <= pos <= end <= buf@.len(),
                spec_merge_public_key(old(self)@, buf@.subrange(start as int, end as int)) == spec_merge_public_key(
                    self@,
                    buf@.subrange(pos as int, end as int),
                ),
            decreases end - pos,
        {
            match read_field(buf, pos, end) {
                Some((f, next)) => {
                    proof {
                        lemma_merge_step(
                            public_key_applier(),
                            self@,
                            buf@,
                            pos as nat,
                            next as nat,
                            end as nat,
                            raw_field_view(f, buf@),
                        );
                    }
                    if !self.apply_field(buf, &f) {
                        return false;
                    }
                    pos = next;
                },
                None => {
                    proof {
                        lemma_merge_bad_field(public_key_applier(), self@, buf@, pos as nat, end as nat);
                    }
                    return false;
                },
            }
        }
        proof {
            lemma_merge_empty(public_key_applier(), self@, buf@, pos as nat);
        }
        true
    }

    /// Decodes a [`PublicKey`] from its protocol encoding; `None` where the bytes
    /// are not one.
    pub fn decode(buf: &[u8]) -> (r: Option<Self>)
        ensures
            match spec_decode_public_key(buf@) {
                Some(m) => r matches Some(x) && x@ == m,
                None => r is None,
            },
    {
        let mut m = PublicKey::new_default();
        assert(buf@.subrange(0, buf@.len() as int) =~= buf@);
        if m.merge(buf, 0, buf.len()) {
            Some(m)
        } else {
            None
        }
    }
}

proof fn lemma_public_key_tags_ok(m: SpecPublicKey)
    ensures
        fields_tags_ok(public_key_fields(m)),
{
    lemma_tags_ok_uint(1, m.key_type);
    lemma_tags_ok_bytes(2, m.key);
    lemma_tags_ok_concat(uint_field(1, m.key_type), bytes_field(2, m.key));
}

proof fn lemma_public_key_part_lengths(m: SpecPublicKey)
    ensures
        spec_encode_fields(uint_field(1, m.key_type)).len() <= spec_encode_fields(public_key_fields(m)).len(),
        spec_encode_fields(bytes_field(2, m.key)).len() <= spec_encode_fields(public_key_fields(m)).len(),
{
    broadcast use group_field_lists;

}

proof fn lemma_public_key_step_key_type(m: SpecPublicKey)
    requires
        spec_encode_fields(uint_field(1, m.key_type)).len() < 0x1_0000_0000_0000_0000,
    ensures
        spec_apply_all(public_key_applier(), SpecPublicKey { key_type: 0, key: seq![] }, uint_field(1, m.key_type)) == Some(SpecPublicKey { key_type: m.key_type, key: seq![] }),
{
    let d = SpecPublicKey { key_type: 0, key: seq![] };
    lemma_apply_uint_field(public_key_applier(), d, 1, m.key_type);
}

proof fn lemma_public_key_step_key(m: SpecPublicKey)
    requires
        spec_encode_fields(bytes_field(2, m.key)).len() < 0x1_0000_0000_0000_0000,
    ensures
        spec_apply_all(public_key_applier(), SpecPublicKey { key_type: m.key_type, key: seq![] }, bytes_field(2, m.key)) == Some(SpecPublicKey { key_type: m.key_type, key: m.key }),
{
    let d = SpecPublicKey { key_type: m.key_type, key: seq![] };
    lemma_apply_bytes_field(public_key_applier(), d, 2, m.key);
    if m.key.len() == 0 {
        assert(m.key =~= Seq::<u8>::empty());
    }
}

/// Decoding the encoding of a [`PublicKey`] gives back the value (for every value
/// whose encoding fits a 64-bit length).
pub proof fn lemma_public_key_round_trip(m: SpecPublicKey)
    requires
        spec_encode_public_key(m).len() < 0x1_0000_0000_0000_0000,
    ensures
        spec_decode_public_key(spec_encode_public_key(m)) == Some(m),
{
    let fs = public_key_fields(m);
    lemma_public_key_tags_ok(m);
    lemma_decode_fields(public_key_applier(), default_public_key(), fs);
    lemma_public_key_part_lengths(m);
    lemma_public_key_step_key_type(m);
    lemma_public_key_step_key(m);
    lemma_apply_concat(public_key_applier(), default_public_key(), uint_field(1, m.key_type), bytes_field(2, m.key));
    assert(SpecPublicKey { key_type: m.key_type, key: m.key } =~= m);
}

/// A process of a system: a random identifier that keeps its events apart from those of other devices.
#[derive(Clone, Debug, PartialEq, Eq, Default)]
pub struct Process {
    /// The identifier bytes.
    pub process: Vec<u8>,
}

/// The value of a [`Process`].
#[verifier::ext_equal]
pub struct SpecProcess {
    pub process: Seq<u8>,
}

impl View for Process {
    type V = SpecProcess;

    open spec fn view(&self) -> SpecProcess {
        SpecProcess {
            process: self.process@,
        }
    }
}

/// The value that decoding starts from: every field at its default.
pub open spec fn default_process() -> SpecProcess {
    SpecProcess { process: seq![] }
}

/// The fields that a [`Process`] is written as, in field-number order; fields
/// at their default are left out.
pub open spec fn process_fields(m: SpecProcess) -> Seq<WireField> {
    bytes_field(1, m.process)
}

/// The encoding of a [`Process`].
pub open spec fn spec_encode_process(m: SpecProcess) -> Seq<u8> {
    spec_encode_fields(process_fields(m))
}

/// Merges one field into a [`Process`]: a known field number must come with
/// its wire type; fields with other numbers are skipped.
pub open spec fn apply_process(m: SpecProcess, f: WireField) -> Option<SpecProcess> {
    if f.tag == 1 {
        match field_bytes(f) { Some(b) => Some(SpecProcess { process: b }), None => None }
    } else {
        Some(m)
    }
}

pub open spec fn process_applier() -> spec_fn(SpecProcess, WireField) -> Option<SpecProcess> {
    |m: SpecProcess, f: WireField| apply_process(m, f)
}

/// Merges the fields of `b` into `m`.
pub open spec fn spec_merge_process(m: SpecProcess, b: Seq<u8>) -> Option<SpecProcess> {
    spec_merge_with(process_applier(), m, b)
}

/// Decodes a [`Process`]: the fields of `b` merged into the default.
pub open spec fn spec_decode_process(b: Seq<u8>) -> Option<SpecProcess> {
    spec_merge_process(default_process(), b)
}

/// The values of a list of [`Process`]s.
pub open spec fn view_process_list(v: Seq<Process>) -> Seq<SpecProcess> {
    v.map_values(|x: Process| x@)
}

/// The encodings of a list of [`Process`] values.
pub open spec fn encode_process_list(v: Seq<SpecProcess>) -> Seq<Seq<u8>> {
    v.map_values(|x: SpecProcess| spec_encode_process(x))
}

impl Process {
    /// A value with every field at its default.
    pub fn new_default() -> (r: Self)
        ensures
            r@ == default_process(),
    {
        let r = Process { process: Vec::new() };
        assert(r@ =~= default_process());
        r
    }

    /// A copy.
    pub fn duplicate(&self) -> (r: Self)
        ensures
            r@ == self@,
    {
        let r = Process {
            process: vstd::slice::slice_to_vec(self.process.as_slice()),
        };
        assert(r@ =~= self@);
        r
    }

    /// The protocol encoding.
    pub fn encode(&self) -> (r: Vec<u8>)
        ensures
            r@ == spec_encode_process(self@),
    {
        broadcast use group_field_lists;

        let mut out: Vec<u8> = Vec::new();
        put_bytes(1, self.process.as_slice(), &mut out);
        assert(out@ =~= spec_encode_process(self@));
        out
    }

    fn apply_field(&mut self, buf: &[u8], f: &RawField) -> (ok: bool)
        requires
            raw_field_within(*f, buf@.len()),
        ensures
            match apply_process(old(self)@, raw_field_view(*f, buf@)) {
                Some(m) => ok && final(self)@ == m,
                None => !ok,
            },
    {
        if f.tag == 1 {
            match raw_bytes(buf, f) { Some(b) => { self.process = b; true }, None => false }
        } else {
            true
        }
    }

    /// Merges the fields of `buf[start..end]` into `self`; `false` where the
    /// bytes are not a valid encoding (`self` is then left in no stated state).
    pub fn merge(&mut self, buf: &[u8], start: usize, end: usize) -> (ok: bool)
        requires
            start <= end <= buf@.len(),
        ensures
            match spec_merge_process(old(self)@, buf@.subrange(start as int, end as int)) {
                Some(m) => ok && final(self)@ == m,
                None => !ok,
            },
    {
        let mut pos = start;
        while pos < end
            invariant
                start <= pos <= end <= buf@.len(),
                spec_merge_process(old(self)@, buf@.subrange(start as int, end as int)) == spec_merge_process(
                    self@,
                    buf@.subrange(pos as int, end as int),
                ),
            decreases end - pos,
        {
            match read_field(buf, pos, end) {
                Some((f, next)) => {
                    proof {
                        lemma_merge_step(
                            process_applier(),
                            self@,
                            buf@,
                            pos as nat,
                            next as nat,
                            end as nat,
                            raw_field_view(f, buf@),
                        );
                    }
                    if !self.apply_field(buf, &f) {
                        return false;
                    }
                    pos = next;
                },
                None => {
                    proof {
                        lemma_merge_bad_field(process_applier(), self@, buf@, pos as nat, end as nat);
                    }
                    return false;
                },
            }
        }
        proof {
            lemma_merge_empty(process_applier(), self@, buf@, pos as nat);
        }
        true
    }

    /// Decodes a [`Process`] from its protocol encoding; `None` where the bytes
    /// are not one.
    pub fn decode(buf: &[u8]) -> (r: Option<Self>)
        ensures
            match spec_decode_process(buf@) {
                Some(m) => r matches Some(x) && x@ == m,
                None => r is None,
            },
    {
        let mut m = Process::new_default();
        assert(buf@.subrange(0, buf@.len() as int) =~= buf@);
        if m.merge(buf, 0, buf.len()) {
            Some(m)
        } else {
            None
        }
    }
}

proof fn lemma_process_tags_ok(m: SpecProcess)
    ensures
        fields_tags_ok(process_fields(m)),
{
    lemma_tags_ok_bytes(1, m.process);
}

proof fn lemma_process_part_lengths(m: SpecProcess)
    ensures
        spec_encode_fields(bytes_field(1, m.process)).len() <= spec_encode_fields(process_fields(m)).len(),
{
    broadcast use group_field_lists;

}

proof fn lemma_process_step_process(m: SpecProcess)
    requires
        spec_encode_fields(bytes_field(1, m.process)).len() < 0x1_0000_0000_0000_0000,
    ensures
        spec_apply_all(process_applier(), SpecProcess { process: seq![] }, bytes_field(1, m.process)) == Some(SpecProcess { process: m.process }),
{
    let d = SpecProcess { process: seq![] };
    lemma_apply_bytes_field(process_applier(), d, 1, m.process);
    if m.process.len() == 0 {
        assert(m.process =~= Seq::<u8>::empty());
    }
}

/// Decoding the encoding of a [`Process`] gives back the value (for every value
/// whose encoding fits a 64-bit length).
pub proof fn lemma_process_round_trip(m: SpecProcess)
    requires
        spec_encode_process(m).len() < 0x1_0000_0000_0000_0000,
    ensures
        spec_decode_process(spec_encode_process(m)) == Some(m),
{
    let fs = process_fields(m);
    lemma_process_tags_ok(m);
    lemma_decode_fields(process_applier(), default_process(), fs);
    lemma_process_part_lengths(m);
    lemma_process_step_process(m);
    assert(SpecProcess { process: m.process } =~= m);
}

/// A digest of an event: the hash's type and its bytes.
#[derive(Clone, Debug, PartialEq, Eq, Default)]
pub struct Digest {
    pub digest_type: u64,
    pub digest: Vec<u8>,
}

/// The value of a [`Digest`].
#[verifier::ext_equal]
pub struct SpecDigest {
    pub digest_type: u64,
    pub digest: Seq<u8>,
}

impl View for Digest {
    type V = SpecDigest;

    open spec fn view(&self) -> SpecDigest {
        SpecDigest {
            digest_type: self.digest_type,
            digest: self.digest@,
        }
    }
}

/// The value that decoding starts from: every field at its default.
pub open spec fn default_digest() -> SpecDigest {
    SpecDigest { digest_type: 0, digest: seq![] }
}

/// The fields that a [`Digest`] is written as, in field-number order; fields
/// at their default are left out.
pub open spec fn digest_fields(m: SpecDigest) -> Seq<WireField> {
    uint_field(1, m.digest_type)
        + bytes_field(2, m.digest)
}

/// The encoding of a [`Digest`].
pub open spec fn spec_encode_digest(m: SpecDigest) -> Seq<u8> {
    spec_encode_fields(digest_fields(m))
}

/// Merges one field into a [`Digest`]: a known field number must come with
/// its wire type; fields with other numbers are skipped.
pub open spec fn apply_digest(m: SpecDigest, f: WireField) -> Option<SpecDigest> {
    if f.tag == 1 {
        match field_varint(f) { Some(v) => Some(SpecDigest { digest_type: v, digest: m.digest }), None => None }
    } else if f.tag == 2 {
        match field_bytes(f) { Some(b) => Some(SpecDigest { digest_type: m.digest_type, digest: b }), None => None }
    } else {
        Some(m)
    }
}

pub open spec fn digest_applier() -> spec_fn(SpecDigest, WireField) -> Option<SpecDigest> {
    |m: SpecDigest, f: WireField| apply_digest(m, f)
}

/// Merges the fields of `b` into `m`.
pub open spec fn spec_merge_digest(m: SpecDigest, b: Seq<u8>) -> Option<SpecDigest> {
    spec_merge_with(digest_applier(), m, b)
}

/// Decodes a [`Digest`]: the fields of `b` merged into the default.
pub open spec fn spec_decode_digest(b: Seq<u8>) -> Option<SpecDigest> {
    spec_merge_digest(default_digest(), b)
}

/// The values of a list of [`Digest`]s.
pub open spec fn view_digests(v: Seq<Digest>) -> Seq<SpecDigest> {
    v.map_values(|x: Digest| x@)
}

/// The encodings of a list of [`Digest`] values.
pub open spec fn encode_digests(v: Seq<SpecDigest>) -> Seq<Seq<u8>> {
    v.map_values(|x: SpecDigest| spec_encode_digest(x))
}

impl Digest {
    /// A value with every field at its default.
    pub fn new_default() -> (r: Self)
        ensures
            r@ == default_digest(),
    {
        let r = Digest { digest_type: 0, digest: Vec::new() };
        assert(r@ =~= default_digest());
        r
    }

    /// A copy.
    pub fn duplicate(&self) -> (r: Self)
        ensures
            r@ == self@,
    {
        let r = Digest {
            digest_type: self.digest_type,
            digest: vstd::slice::slice_to_vec(self.digest.as_slice()),
        };
        assert(r@ =~= self@);
        r
    }

    /// The protocol encoding.
    pub fn encode(&self) -> (r: Vec<u8>)
        ensures
            r@ == spec_encode_digest(self@),
    {
        broadcast use group_field_lists;

        let mut out: Vec<u8> = Vec::new();
        put_uint(1, self.digest_type, &mut out);
        put_bytes(2, self.digest.as_slice(), &mut out);
        assert(out@ =~= spec_encode_digest(self@));
        out
    }

    fn apply_field(&mut self, buf: &[u8], f: &RawField) -> (ok: bool)
        requires
            raw_field_within(*f, buf@.len()),
        ensures
            match apply_digest(old(self)@, raw_field_view(*f, buf@)) {
                Some(m) => ok && final(self)@ == m,
                None => !ok,
            },
    {
        if f.tag == 1 {
            match raw_varint(f) { Some(v) => { self.digest_type = v; true }, None => false }
        } else if f.tag == 2 {
            match raw_bytes(buf, f) { Some(b) => { self.digest = b; true }, None => false }
        } else {
            true
        }
    }

    /// Merges the fields of `buf[start..end]` into `self`; `false` where the
    /// bytes are not a valid encoding (`self` is then left in no stated state).
    pub fn merge(&mut self, buf: &[u8], start: usize, end: usize) -> (ok: bool)
        requires
            start <= end <= buf@.len(),
        ensures
            match spec_merge_digest(old(self)@, buf@.subrange(start as int, end as int)) {
                Some(m) => ok && final(self)@ == m,
                None => !ok,
            },
    {
        let mut pos = start;
        while pos < end
            invariant
                start <= pos <= end <= buf@.len(),
                spec_merge_digest(old(self)@, buf@.subrange(start as int, end as int)) == spec_merge_digest(
                    self@,
                    buf@.subrange(pos as int, end as int),
                ),
            decreases end - pos,
        {
            match read_field(buf, pos, end) {
                Some((f, next)) => {
                    proof {
                        lemma_merge_step(
                            digest_applier(),
                            self@,
                            buf@,
                            pos as nat,
                            next as nat,
                            end as nat,
                            raw_field_view(f, buf@),
                        );
                    }
                    if !self.apply_field(buf, &f) {
                        return false;
                    }
                    pos = next;
                },
                None => {
                    proof {
                        lemma_merge_bad_field(digest_applier(), self@, buf@, pos as nat, end as nat);
                    }
                    return false;
                },
            }
        }
        proof {
            lemma_merge_empty(digest_applier(), self@, buf@, pos as nat);
        }
        true
    }

    /// Decodes a [`Digest`] from its protocol encoding; `None` where the bytes
    /// are not one.
    pub fn decode(buf: &[u8]) -> (r: Option<Self>)
        ensures
            match spec_decode_digest(buf@) {
                Some(m) => r matches Some(x) && x@ == m,
                None => r is None,
            },
    {
        let mut m = Digest::new_default();
        assert(buf@.subrange(0, buf@.len() as int) =~= buf@);
        if m.merge(buf, 0, buf.len()) {
            Some(m)
        } else {
            None
        }
    }
}

proof fn lemma_digest_tags_ok(m: SpecDigest)
    ensures
        fields_tags_ok(digest_fields(m)),
{
    lemma_tags_ok_uint(1, m.digest_type);
    lemma_tags_ok_bytes(2, m.digest);
    lemma_tags_ok_concat(uint_field(1, m.digest_type), bytes_field(2, m.digest));
}

proof fn lemma_digest_part_lengths(m: SpecDigest)
    ensures
        spec_encode_fields(uint_field(1, m.digest_type)).len() <= spec_encode_fields(digest_fields(m)).len(),
        spec_encode_fields(bytes_field(2, m.digest)).len() <= spec_encode_fields(digest_fields(m)).len(),
{
    broadcast use group_field_lists;

}

proof fn lemma_digest_step_digest_type(m: SpecDigest)
    requires
        spec_encode_fields(uint_field(1, m.digest_type)).len() < 0x1_0000_0000_0000_0000,
    ensures
        spec_apply_all(digest_applier(), SpecDigest { digest_type: 0, digest: seq![] }, uint_field(1, m.digest_type)) == Some(SpecDigest { digest_type: m.digest_type, digest: seq![] }),
{
    let d = SpecDigest { digest_type: 0, digest: seq![] };
    lemma_apply_uint_field(digest_applier(), d, 1, m.digest_type);
}

proof fn lemma_digest_step_digest(m: SpecDigest)
    requires
        spec_encode_fields(bytes_field(2, m.digest)).len() < 0x1_0000_0000_0000_0000,
    ensures
        spec_apply_all(digest_applier(), SpecDigest { digest_type: m.digest_type, digest: seq![] }, bytes_field(2, m.digest)) == Some(SpecDigest { digest_type: m.digest_type, digest: m.digest }),
{
    let d = SpecDigest { digest_type: m.digest_type, digest: seq![] };
    lemma_apply_bytes_field(digest_applier(), d, 2, m.digest);
    if m.digest.len() == 0 {
        assert(m.digest =~= Seq::<u8>::empty());
    }
}

/// Decoding the encoding of a [`Digest`] gives back the value (for every value
/// whose encoding fits a 64-bit length).
pub proof fn lemma_digest_round_trip(m: SpecDigest)
    requires
        spec_encode_digest(m).len() < 0x1_0000_0000_0000_0000,
    ensures
        spec_decode_digest(spec_encode_digest(m)) == Some(m),
{
    let fs = digest_fields(m);
    lemma_digest_tags_ok(m);
    lemma_decode_fields(digest_applier(), default_digest(), fs);
    lemma_digest_part_lengths(m);
    lemma_digest_step_digest_type(m);
    lemma_digest_step_digest(m);
    lemma_apply_concat(digest_applier(), default_digest(), uint_field(1, m.digest_type), bytes_field(2, m.digest));
    assert(SpecDigest { digest_type: m.digest_type, digest: m.digest } =~= m);
}

/// A pointer to an event: the system and process that wrote it, its logical clock and its digest.
#[derive(Clone, Debug, PartialEq, Eq, Default)]
pub struct Pointer {
    pub system: Option<PublicKey>,
    pub process: Option<Process>,
    pub logical_clock: u64,
    pub event_digest: Option<Digest>,
}

/// The value of a [`Pointer`].
#[verifier::ext_equal]
pub struct SpecPointer {
    pub system: Option<SpecPublicKey>,
    pub process: Option<SpecProcess>,
    pub logical_clock: u64,
    pub event_digest: Option<SpecDigest>,
}

impl View for Pointer {
    type V = SpecPointer;

    open spec fn view(&self) -> SpecPointer {
        SpecPointer {
            system: match self.system { Some(v) => Some(v@), None => None },
            process: match self.process { Some(v) => Some(v@), None => None },
            logical_clock: self.logical_clock,
            event_digest: match self.event_digest { Some(v) => Some(v@), None => None },
        }
    }
}

/// The value that decoding starts from: every field at its default.
pub open spec fn default_pointer() -> SpecPointer {
    SpecPointer { system: None, process: None, logical_clock: 0, event_digest: None }
}

/// The fields that a [`Pointer`] is written as, in field-number order; fields
/// at their default are left out.
pub open spec fn pointer_fields(m: SpecPointer) -> Seq<WireField> {
    opt_bytes_field(1, match m.system { Some(v) => Some(spec_encode_public_key(v)), None => None })
        + opt_bytes_field(2, match m.process { Some(v) => Some(spec_encode_process(v)), None => None })
        + uint_field(3, m.logical_clock)
        + opt_bytes_field(4, match m.event_digest { Some(v) => Some(spec_encode_digest(v)), None => None })
}

/// The encoding of a [`Pointer`].
pub open spec fn spec_encode_pointer(m: SpecPointer) -> Seq<u8> {
    spec_encode_fields(pointer_fields(m))
}

/// Merges one field into a [`Pointer`]: a known field number must come with
/// its wire type; fields with other numbers are skipped.
pub open spec fn apply_pointer(m: SpecPointer, f: WireField) -> Option<SpecPointer> {
    if f.tag == 1 {
        match field_bytes(f) { Some(b) => match spec_merge_public_key(match m.system { Some(v) => v, None => default_public_key() }, b) { Some(v) => Some(SpecPointer { system: Some(v), process: m.process, logical_clock: m.logical_clock, event_digest: m.event_digest }), None => None }, None => None }
    } else if f.tag == 2 {
        match field_bytes(f) { Some(b) => match spec_merge_process(match m.process { Some(v) => v, None => default_process() }, b) { Some(v) => Some(SpecPointer { system: m.system, process: Some(v), logical_clock: m.logical_clock, event_digest: m.event_digest }), None => None }, None => None }
    } else if f.tag == 3 {
        match field_varint(f) { Some(v) => Some(SpecPointer { system: m.system, process: m.process, logical_clock: v, event_digest: m.event_digest }), None => None }
    } else if f.tag == 4 {
        match field_bytes(f) { Some(b) => match spec_merge_digest(match m.event_digest { Some(v) => v, None => default_digest() }, b) { Some(v) => Some(SpecPointer { system: m.system, process: m.process, logical_clock: m.logical_clock, event_digest: Some(v) }), None => None }, None => None }
    } else {
        Some(m)
    }
}

pub open spec fn pointer_applier() -> spec_fn(SpecPointer, WireField) -> Option<SpecPointer> {
    |m: SpecPointer, f: WireField| apply_pointer(m, f)
}

/// Merges the fields of `b` into `m`.
pub open spec fn spec_merge_pointer(m: SpecPointer, b: Seq<u8>) -> Option<SpecPointer> {
    spec_merge_with(pointer_applier(), m, b)
}

/// Decodes a [`Pointer`]: the fields of `b` merged into the default.
pub open spec fn spec_decode_pointer(b: Seq<u8>) -> Option<SpecPointer> {
    spec_merge_pointer(default_pointer(), b)
}

/// The values of a list of [`Pointer`]s.
pub open spec fn view_pointers(v: Seq<Pointer>) -> Seq<SpecPointer> {
    v.map_values(|x: Pointer| x@)
}

/// The encodings of a list of [`Pointer`] values.
pub open spec fn encode_pointers(v: Seq<SpecPointer>) -> Seq<Seq<u8>> {
    v.map_values(|x: SpecPointer| spec_encode_pointer(x))
}

impl Pointer {
    /// A value with every field at its default.
    pub fn new_default() -> (r: Self)
        ensures
            r@ == default_pointer(),
    {
        let r = Pointer { system: None, process: None, logical_clock: 0, event_digest: None };
        assert(r@ =~= default_pointer());
        r
    }

    /// A copy.
    pub fn duplicate(&self) -> (r: Self)
        ensures
            r@ == self@,
    {
        let r = Pointer {
            system: match &self.system { Some(v) => Some(v.duplicate()), None => None },
            process: match &self.process { Some(v) => Some(v.duplicate()), None => None },
            logical_clock: self.logical_clock,
            event_digest: match &self.event_digest { Some(v) => Some(v.duplicate()), None => None },
        };
        assert(r@ =~= self@);
        r
    }

    /// The protocol encoding.
    pub fn encode(&self) -> (r: Vec<u8>)
        ensures
            r@ == spec_encode_pointer(self@),
    {
        broadcast use group_field_lists;

        let mut out: Vec<u8> = Vec::new();
        match &self.system {
            Some(v) => {
                let e = v.encode();
                put_bytes_always(1, e.as_slice(), &mut out);
            },
            None => {},
        }
        match &self.process {
            Some(v) => {
                let e = v.encode();
                put_bytes_always(2, e.as_slice(), &mut out);
            },
            None => {},
        }
        put_uint(3, self.logical_clock, &mut out);
        match &self.event_digest {
            Some(v) => {
                let e = v.encode();
                put_bytes_always(4, e.as_slice(), &mut out);
            },
            None => {},
        }
        assert(out@ =~= spec_encode_pointer(self@));
        out
    }

    fn apply_field(&mut self, buf: &[u8], f: &RawField) -> (ok: bool)
        requires
            raw_field_within(*f, buf@.len()),
        ensures
            match apply_pointer(old(self)@, raw_field_view(*f, buf@)) {
                Some(m) => ok && final(self)@ == m,
                None => !ok,
            },
    {
        if f.tag == 1 {
            match f.value {
                RawValue::Bytes(s, e) => {
                    let mut sub = match &self.system {
                        Some(v) => v.duplicate(),
                        None => PublicKey::new_default(),
                    };
                    if sub.merge(buf, s, e) {
                        self.system = Some(sub);
                        true
                    } else {
                        false
                    }
                },
                _ => false,
            }
        } else if f.tag == 2 {
            match f.value {
                RawValue::Bytes(s, e) => {
                    let mut sub = match &self.process {
                        Some(v) => v.duplicate(),
                        None => Process::new_default(),
                    };
                    if sub.merge(buf, s, e) {
                        self.process = Some(sub);
                        true
                    } else {
                        false
                    }
                },
                _ => false,
            }
        } else if f.tag == 3 {
            match raw_varint(f) { Some(v) => { self.logical_clock = v; true }, None => false }
        } else if f.tag == 4 {
            match f.value {
                RawValue::Bytes(s, e) => {
                    let mut sub = match &self.event_digest {
                        Some(v) => v.duplicate(),
                        None => Digest::new_default(),
                    };
                    if sub.merge(buf, s, e) {
                        self.event_digest = Some(sub);
                        true
                    } else {
                        false
                    }
                },
                _ => false,
            }
        } else {
            true
        }
    }

    /// Merges the fields of `buf[start..end]` into `self`; `false` where the
    /// bytes are not a valid encoding (`self` is then left in no stated state).
    pub fn merge(&mut self, buf: &[u8], start: usize, end: usize) -> (ok: bool)
        requires
            start <= end <= buf@.len(),
        ensures
            match spec_merge_pointer(old(self)@, buf@.subrange(start as int, end as int)) {
                Some(m) => ok && final(self)@ == m,
                None => !ok,
            },
    {
        let mut pos = start;
        while pos < end
            invariant
                start <= pos <= end <= buf@.len(),
                spec_merge_pointer(old(self)@, buf@.subrange(start as int, end as int)) == spec_merge_pointer(
                    self@,
                    buf@.subrange(pos as int, end as int),
                ),
            decreases end - pos,
        {
            match read_field(buf, pos, end) {
                Some((f, next)) => {
                    proof {
                        lemma_merge_step(
                            pointer_applier(),
                            self@,
                            buf@,
                            pos as nat,
                            next as nat,
                            end as nat,
                            raw_field_view(f, buf@),
                        );
                    }
                    if !self.apply_field(buf, &f) {
                        return false;
                    }
                    pos = next;
                },
                None => {
                    proof {
                        lemma_merge_bad_field(pointer_applier(), self@, buf@, pos as nat, end as nat);
                    }
                    return false;
                },
            }
        }
        proof {
            lemma_merge_empty(pointer_applier(), self@, buf@, pos as nat);
        }
        true
    }

    /// Decodes a [`Pointer`] from its protocol encoding; `None` where the bytes
    /// are not one.
    pub fn decode(buf: &[u8]) -> (r: Option<Self>)
        ensures
            match spec_decode_pointer(buf@) {
                Some(m) => r matches Some(x) && x@ == m,
                None => r is None,
            },
    {
        let mut m = Pointer::new_default();
        assert(buf@.subrange(0, buf@.len() as int) =~= buf@);
        if m.merge(buf, 0, buf.len()) {
            Some(m)
        } else {
            None
        }
    }
}

proof fn lemma_pointer_tags_ok(m: SpecPointer)
    ensures
        fields_tags_ok(pointer_fields(m)),
{
    lemma_tags_ok_opt_bytes(1, match m.system { Some(v) => Some(spec_encode_public_key(v)), None => None });
    lemma_tags_ok_opt_bytes(2, match m.process { Some(v) => Some(spec_encode_process(v)), None => None });
    lemma_tags_ok_uint(3, m.logical_clock);
    lemma_tags_ok_opt_bytes(4, match m.event_digest { Some(v) => Some(spec_encode_digest(v)), None => None });
    lemma_tags_ok_concat(opt_bytes_field(1, match m.system { Some(v) => Some(spec_encode_public_key(v)), None => None }), opt_bytes_field(2, match m.process { Some(v) => Some(spec_encode_process(v)), None => None }));
    lemma_tags_ok_concat(opt_bytes_field(1, match m.system { Some(v) => Some(spec_encode_public_key(v)), None => None }) + opt_bytes_field(2, match m.process { Some(v) => Some(spec_encode_process(v)), None => None }), uint_field(3, m.logical_clock));
    lemma_tags_ok_concat(opt_bytes_field(1, match m.system { Some(v) => Some(spec_encode_public_key(v)), None => None }) + opt_bytes_field(2, match m.process { Some(v) => Some(spec_encode_process(v)), None => None }) + uint_field(3, m.logical_clock), opt_bytes_field(4, match m.event_digest { Some(v) => Some(spec_encode_digest(v)), None => None }));
}

proof fn lemma_pointer_part_lengths(m: SpecPointer)
    ensures
        spec_encode_fields(opt_bytes_field(1, match m.system { Some(v) => Some(spec_encode_public_key(v)), None => None })).len() <= spec_encode_fields(pointer_fields(m)).len(),
        spec_encode_fields(opt_bytes_field(2, match m.process { Some(v) => Some(spec_encode_process(v)), None => None })).len() <= spec_encode_fields(pointer_fields(m)).len(),
        spec_encode_fields(uint_field(3, m.logical_clock)).len() <= spec_encode_fields(pointer_fields(m)).len(),
        spec_encode_fields(opt_bytes_field(4, match m.event_digest { Some(v) => Some(spec_encode_digest(v)), None => None })).len() <= spec_encode_fields(pointer_fields(m)).len(),
{
    broadcast use group_field_lists;

}

proof fn lemma_pointer_step_system(m: SpecPointer)
    requires
        spec_encode_fields(opt_bytes_field(1, match m.system { Some(v) => Some(spec_encode_public_key(v)), None => None })).len() < 0x1_0000_0000_0000_0000,
    ensures
        spec_apply_all(pointer_applier(), SpecPointer { system: None, process: None, logical_clock: 0, event_digest: None }, opt_bytes_field(1, match m.system { Some(v) => Some(spec_encode_public_key(v)), None => None })) == Some(SpecPointer { system: m.system, process: None, logical_clock: 0, event_digest: None }),
{
    let d = SpecPointer { system: None, process: None, logical_clock: 0, event_digest: None };
    lemma_apply_opt_bytes_field(
        pointer_applier(),
        d,
        1,
        match m.system {
            Some(v) => Some(spec_encode_public_key(v)),
            None => None,
        },
    );
    match m.system {
        Some(v) => {
            let fld = WireField { tag: 1, value: WireValue::Bytes(spec_encode_public_key(v)) };
            lemma_encode_single_field(fld);
            lemma_field_payload_le(fld);
            lemma_public_key_round_trip(v);
        },
        None => {},
    }
}

proof fn lemma_pointer_step_process(m: SpecPointer)
    requires
        spec_encode_fields(opt_bytes_field(2, match m.process { Some(v) => Some(spec_encode_process(v)), None => None })).len() < 0x1_0000_0000_0000_0000,
    ensures
        spec_apply_all(pointer_applier(), SpecPointer { system: m.system, process: None, logical_clock: 0, event_digest: None }, opt_bytes_field(2, match m.process { Some(v) => Some(spec_encode_process(v)), None => None })) == Some(SpecPointer { system: m.system, process: m.process, logical_clock: 0, event_digest: None }),
{
    let d = SpecPointer { system: m.system, process: None, logical_clock: 0, event_digest: None };
    lemma_apply_opt_bytes_field(
        pointer_applier(),
        d,
        2,
        match m.process {
            Some(v) => Some(spec_encode_process(v)),
            None => None,
        },
    );
    match m.process {
        Some(v) => {
            let fld = WireField { tag: 2, value: WireValue::Bytes(spec_encode_process(v)) };
            lemma_encode_single_field(fld);
            lemma_field_payload_le(fld);
            lemma_process_round_trip(v);
        },
        None => {},
    }
}

proof fn lemma_pointer_step_logical_clock(m: SpecPointer)
    requires
        spec_encode_fields(uint_field(3, m.logical_clock)).len() < 0x1_0000_0000_0000_0000,
    ensures
        spec_apply_all(pointer_applier(), SpecPointer { system: m.system, process: m.process, logical_clock: 0, event_digest: None }, uint_field(3, m.logical_clock)) == Some(SpecPointer { system: m.system, process: m.process, logical_clock: m.logical_clock, event_digest: None }),
{
    let d = SpecPointer { system: m.system, process: m.process, logical_clock: 0, event_digest: None };
    lemma_apply_uint_field(pointer_applier(), d, 3, m.logical_clock);
}

proof fn lemma_pointer_step_event_digest(m: SpecPointer)
    requires
        spec_encode_fields(opt_bytes_field(4, match m.event_digest { Some(v) => Some(spec_encode_digest(v)), None => None })).len() < 0x1_0000_0000_0000_0000,
    ensures
        spec_apply_all(pointer_applier(), SpecPointer { system: m.system, process: m.process, logical_clock: m.logical_clock, event_digest: None }, opt_bytes_field(4, match m.event_digest { Some(v) => Some(spec_encode_digest(v)), None => None })) == Some(SpecPointer { system: m.system, process: m.process, logical_clock: m.logical_clock, event_digest: m.event_digest }),
{
    let d = SpecPointer { system: m.system, process: m.process, logical_clock: m.logical_clock, event_digest: None };
    lemma_apply_opt_bytes_field(
        pointer_applier(),
        d,
        4,
        match m.event_digest {
            Some(v) => Some(spec_encode_digest(v)),
            None => None,
        },
    );
    match m.event_digest {
        Some(v) => {
            let fld = WireField { tag: 4, value: WireValue::Bytes(spec_encode_digest(v)) };
            lemma_encode_single_field(fld);
            lemma_field_payload_le(fld);
            lemma_digest_round_trip(v);
        },
        None => {},
    }
}

/// Decoding the encoding of a [`Pointer`] gives back the value (for every value
/// whose encoding fits a 64-bit length).
pub proof fn lemma_pointer_round_trip(m: SpecPointer)
    requires
        spec_encode_pointer(m).len() < 0x1_0000_0000_0000_0000,
    ensures
        spec_decode_pointer(spec_encode_pointer(m)) == Some(m),
{
    let fs = pointer_fields(m);
    lemma_pointer_tags_ok(m);
    lemma_decode_fields(pointer_applier(), default_pointer(), fs);
    lemma_pointer_part_lengths(m);
    lemma_pointer_step_system(m);
    lemma_pointer_step_process(m);
    lemma_pointer_step_logical_clock(m);
    lemma_pointer_step_event_digest(m);
    lemma_apply_concat(pointer_applier(), default_pointer(), opt_bytes_field(1, match m.system { Some(v) => Some(spec_encode_public_key(v)), None => None }), opt_bytes_field(2, match m.process { Some(v) => Some(spec_encode_process(v)), None => None }));
    lemma_apply_concat(pointer_applier(), default_pointer(), opt_bytes_field(1, match m.system { Some(v) => Some(spec_encode_public_key(v)), None => None }) + opt_bytes_field(2, match m.process { Some(v) => Some(spec_encode_process(v)), None => None }), uint_field(3, m.logical_clock));
    lemma_apply_concat(pointer_applier(), default_pointer(), opt_bytes_field(1, match m.system { Some(v) => Some(spec_encode_public_key(v)), None => None }) + opt_bytes_field(2, match m.process { Some(v) => Some(spec_encode_process(v)), None => None }) + uint_field(3, m.logical_clock), opt_bytes_field(4, match m.event_digest { Some(v) => Some(spec_encode_digest(v)), None => None }));
    assert(SpecPointer { system: m.system, process: m.process, logical_clock: m.logical_clock, event_digest: m.event_digest } =~= m);
}

} // verus!
