//! A reference query written out for people, field by field: the query
//! decoder of the client's debug pages.

use vstd::prelude::*;

use crate::format::spec_public_key_text;
use crate::keys::{spec_decode_pointer, Pointer, SpecPointer};
use crate::query::{
    lemma_query_references_request_round_trip, spec_encode_query_references_request, QueryReferencesRequest, QueryReferencesRequestCountLwwElementReferences, QueryReferencesRequestCountReferences,
    QueryReferencesRequestEvents, SpecQueryReferencesRequest, SpecQueryReferencesRequestCountLwwElementReferences,
    SpecQueryReferencesRequestCountReferences, SpecQueryReferencesRequestEvents,
};
use crate::event::{Reference, SpecReference};
use crate::text::{
    base64_url_encode, decode_base64_url, lemma_base64_url_decode, push_decimal, push_str, spec_base64_url, spec_base64_url_decode,
    spec_decimal, spec_utf8_text, string_from_utf8,
};

verus! {

/// `label`, the decimal numeral of `n`, and a line break.
pub open spec fn num_line(label: Seq<char>, n: nat) -> Seq<char> {
    label + spec_decimal(n) + "\n"@
}

/// `label`, `text`, and a line break.
pub open spec fn text_line(label: Seq<char>, text: Seq<char>) -> Seq<char> {
    label + text + "\n"@
}

/// `label`, `text` in double quotes, and a line break.
pub open spec fn quoted_line(label: Seq<char>, text: Seq<char>) -> Seq<char> {
    label + "\""@ + text + "\"\n"@
}

fn push_num_line(s: &mut String, label: &str, n: u64)
    ensures
        final(s)@ == old(s)@ + num_line(label@, n as nat),
{
    push_str(s, label);
    push_decimal(s, n);
    push_str(s, "\n");
    assert(final(s)@ =~= old(s)@ + num_line(label@, n as nat));
}

fn push_text_line(s: &mut String, label: &str, text: &str)
    ensures
        final(s)@ == old(s)@ + text_line(label@, text@),
{
    push_str(s, label);
    push_str(s, text);
    push_str(s, "\n");
    assert(final(s)@ =~= old(s)@ + text_line(label@, text@));
}

fn push_quoted_line(s: &mut String, label: &str, text: &str)
    ensures
        final(s)@ == old(s)@ + quoted_line(label@, text@),
{
    push_str(s, label);
    push_str(s, "\"");
    push_str(s, text);
    push_str(s, "\"\n");
    assert(final(s)@ =~= old(s)@ + quoted_line(label@, text@));
}

fn push_base64_line(s: &mut String, label: &str, bytes: &[u8])
    ensures
        final(s)@ == old(s)@ + text_line(label@, spec_base64_url(bytes@)),
{
    let b = base64_url_encode(bytes);
    push_text_line(s, label, b.as_str());
}

/// Where `o` holds a number, a line with `label` and the number; else nothing.
pub open spec fn opt_num_line(label: Seq<char>, o: Option<u64>) -> Seq<char> {
    match o {
        Some(n) => num_line(label, n as nat),
        None => seq![],
    }
}

fn push_opt_num_line(s: &mut String, label: &str, o: Option<u64>)
    ensures
        final(s)@ == old(s)@ + opt_num_line(label@, o),
{
    match o {
        Some(n) => push_num_line(s, label, n),
        None => {
            assert(final(s)@ =~= old(s)@ + opt_num_line(label@, o));
        },
    }
}

// ---------------------------------------------------------------- the reference

/// A pointer, written out: its system as key text, its process and digest in
/// base64, and its logical clock.
pub open spec fn spec_format_pointer(p: SpecPointer) -> Seq<char> {
    "  Pointer:\n"@ + match p.system {
        Some(k) => text_line("    System: "@, spec_public_key_text(k)),
        None => seq![],
    } + match p.process {
        Some(pr) => text_line("    Process: "@, spec_base64_url(pr.process)),
        None => seq![],
    } + num_line("    Logical Clock: "@, p.logical_clock as nat) + match p.event_digest {
        Some(d) => num_line("    Digest Type: "@, d.digest_type as nat) + text_line(
            "    Digest: "@,
            spec_base64_url(d.digest),
        ),
        None => seq![],
    }
}

fn push_pointer(s: &mut String, p: &Pointer)
    ensures
        final(s)@ == old(s)@ + spec_format_pointer(p@),
{
    let ghost start = s@;
    push_str(s, "  Pointer:\n");
    let ghost a = s@;
    match &p.system {
        Some(k) => {
            let text = crate::format::encode_public_key_to_base64(k);
            push_text_line(s, "    System: ", text.as_str());
        },
        None => {},
    }
    let ghost b = s@;
    match &p.process {
        Some(pr) => push_base64_line(s, "    Process: ", pr.process.as_slice()),
        None => {},
    }
    let ghost c = s@;
    push_num_line(s, "    Logical Clock: ", p.logical_clock);
    let ghost d = s@;
    match &p.event_digest {
        Some(dg) => {
            push_num_line(s, "    Digest Type: ", dg.digest_type);
            push_base64_line(s, "    Digest: ", dg.digest.as_slice());
        },
        None => {},
    }
    assert(s@ =~= start + spec_format_pointer(p@));
}

/// What a reference says: a pointer (type 2) written out where its bytes
/// decode as one, a topic (type 3) in quotes where its bytes are UTF-8, and
/// otherwise its bytes in base64.
pub open spec fn spec_format_reference_body(r: SpecReference) -> Seq<char> {
    if r.reference_type == 2 {
        match spec_decode_pointer(r.reference) {
            Some(p) => spec_format_pointer(p),
            None => text_line("  Raw: "@, spec_base64_url(r.reference)),
        }
    } else if r.reference_type == 3 {
        match spec_utf8_text(r.reference) {
            Some(t) => quoted_line("  Topic: "@, t),
            None => text_line("  Bytes: "@, spec_base64_url(r.reference)),
        }
    } else {
        text_line("  Raw: "@, spec_base64_url(r.reference))
    }
}

/// The reference section: a heading, the type, and what the reference says.
pub open spec fn spec_format_reference(r: SpecReference) -> Seq<char> {
    "Reference:\n"@ + num_line("  Type: "@, r.reference_type as nat) + spec_format_reference_body(r)
}

fn push_reference(s: &mut String, r: &Reference)
    ensures
        final(s)@ == old(s)@ + spec_format_reference(r@),
{
    let ghost start = s@;
    push_str(s, "Reference:\n");
    push_num_line(s, "  Type: ", r.reference_type);
    let ghost mid = s@;
    if r.reference_type == 2 {
        match Pointer::decode(r.reference.as_slice()) {
            Some(p) => push_pointer(s, &p),
            None => push_base64_line(s, "  Raw: ", r.reference.as_slice()),
        }
    } else if r.reference_type == 3 {
        match string_from_utf8(r.reference.as_slice()) {
            Some(t) => push_quoted_line(s, "  Topic: ", t.as_str()),
            None => push_base64_line(s, "  Bytes: ", r.reference.as_slice()),
        }
    } else {
        push_base64_line(s, "  Raw: ", r.reference.as_slice());
    }
    assert(s@ =~= start + spec_format_reference(r@));
}

// ---------------------------------------------------------------- the other fields

/// The request for events: its content type, and how many counts it asks for.
pub open spec fn spec_format_request_events(e: SpecQueryReferencesRequestEvents) -> Seq<char> {
    "\nRequest Events:\n"@ + opt_num_line("  From Type: "@, e.from_type) + if e.count_lww_element_references.len()
        > 0 {
        num_line("  Count LWW Element References: "@, e.count_lww_element_references.len())
    } else {
        seq![]
    } + if e.count_references.len() > 0 {
        num_line("  Count References: "@, e.count_references.len())
    } else {
        seq![]
    }
}

fn push_request_events(s: &mut String, e: &QueryReferencesRequestEvents)
    ensures
        final(s)@ == old(s)@ + spec_format_request_events(e@),
{
    let ghost start = s@;
    push_str(s, "\nRequest Events:\n");
    push_opt_num_line(s, "  From Type: ", e.from_type);
    let ghost a = s@;
    if e.count_lww_element_references.len() > 0 {
        push_num_line(s, "  Count LWW Element References: ", e.count_lww_element_references.len() as u64);
    }
    let ghost b = s@;
    if e.count_references.len() > 0 {
        push_num_line(s, "  Count References: ", e.count_references.len() as u64);
    }
    assert(s@ =~= start + spec_format_request_events(e@));
}

/// The start of the line of the `i`th item of a list: `  [i`.
pub open spec fn index_label(i: nat) -> Seq<char> {
    "  ["@ + spec_decimal(i)
}

/// The first `n` requests for last-writer-wins counts.
pub open spec fn spec_format_lww_items(
    items: Seq<SpecQueryReferencesRequestCountLwwElementReferences>,
    n: nat,
) -> Seq<char>
    decreases n,
{
    if n == 0 {
        seq![]
    } else {
        spec_format_lww_items(items, (n - 1) as nat) + spec_lww_item(((n - 1) as nat), items[n - 1])
    }
}

/// The `i`th request for last-writer-wins counts: its value, quoted where it
/// is UTF-8 and in base64 otherwise, and its content type.
pub open spec fn spec_lww_item(i: nat, c: SpecQueryReferencesRequestCountLwwElementReferences) -> Seq<char> {
    index_label(i) + "]:\n"@ + match spec_utf8_text(c.value) {
        Some(t) => quoted_line("    Value: "@, t),
        None => text_line("    Value: "@, spec_base64_url(c.value)),
    } + opt_num_line("    From Type: "@, c.from_type)
}

fn push_lww_item(s: &mut String, i: u64, c: &QueryReferencesRequestCountLwwElementReferences)
    ensures
        final(s)@ == old(s)@ + spec_lww_item(i as nat, c@),
{
    let ghost start = s@;
    push_str(s, "  [");
    push_decimal(s, i);
    push_str(s, "]:\n");
    let ghost a = s@;
    match string_from_utf8(c.value.as_slice()) {
        Some(t) => push_quoted_line(s, "    Value: ", t.as_str()),
        None => push_base64_line(s, "    Value: ", c.value.as_slice()),
    }
    let ghost b = s@;
    push_opt_num_line(s, "    From Type: ", c.from_type);
    assert(s@ =~= start + spec_lww_item(i as nat, c@));
}

/// The `i`th request for reference counts: its content type.
pub open spec fn spec_count_item(i: nat, c: SpecQueryReferencesRequestCountReferences) -> Seq<char> {
    index_label(i) + "]:\n"@ + opt_num_line("    From Type: "@, c.from_type)
}

/// The first `n` requests for reference counts.
pub open spec fn spec_format_count_items(items: Seq<SpecQueryReferencesRequestCountReferences>, n: nat) -> Seq<char>
    decreases n,
{
    if n == 0 {
        seq![]
    } else {
        spec_format_count_items(items, (n - 1) as nat) + spec_count_item(((n - 1) as nat), items[n - 1])
    }
}

fn push_count_item(s: &mut String, i: u64, c: &QueryReferencesRequestCountReferences)
    ensures
        final(s)@ == old(s)@ + spec_count_item(i as nat, c@),
{
    let ghost start = s@;
    push_str(s, "  [");
    push_decimal(s, i);
    push_str(s, "]:\n");
    push_opt_num_line(s, "    From Type: ", c.from_type);
    assert(s@ =~= start + spec_count_item(i as nat, c@));
}

/// The `i`th extra byte reference: quoted where it is UTF-8, in base64
/// otherwise.
pub open spec fn spec_extra_item(i: nat, b: Seq<u8>) -> Seq<char> {
    match spec_utf8_text(b) {
        Some(t) => quoted_line(index_label(i) + "]: "@, t),
        None => text_line(index_label(i) + "]: "@, spec_base64_url(b)),
    }
}

/// The first `n` extra byte references.
pub open spec fn spec_format_extra_items(items: Seq<Seq<u8>>, n: nat) -> Seq<char>
    decreases n,
{
    if n == 0 {
        seq![]
    } else {
        spec_format_extra_items(items, (n - 1) as nat) + spec_extra_item(((n - 1) as nat), items[n - 1])
    }
}

fn push_extra_item(s: &mut String, i: u64, b: &Vec<u8>)
    ensures
        final(s)@ == old(s)@ + spec_extra_item(i as nat, b@),
{
    let ghost start = s@;
    push_str(s, "  [");
    push_decimal(s, i);
    let ghost a = s@;
    match string_from_utf8(b.as_slice()) {
        Some(t) => {
            push_str(s, "]: ");
            push_str(s, "\"");
            push_str(s, t.as_str());
            push_str(s, "\"\n");
            assert(s@ =~= start + spec_extra_item(i as nat, b@));
        },
        None => {
            push_str(s, "]: ");
            let e = base64_url_encode(b.as_slice());
            push_str(s, e.as_str());
            push_str(s, "\n");
            assert(s@ =~= start + spec_extra_item(i as nat, b@));
        },
    }
}

/// The section of the requests for last-writer-wins counts: their number,
/// then each of them; nothing where there are none.
pub open spec fn spec_lww_section(items: Seq<SpecQueryReferencesRequestCountLwwElementReferences>) -> Seq<char> {
    if items.len() > 0 {
        "\n"@ + num_line("Count LWW Element References: "@, items.len()) + spec_format_lww_items(items, items.len())
    } else {
        seq![]
    }
}

/// The section of the requests for reference counts: their number, then each
/// of them; nothing where there are none.
pub open spec fn spec_counts_section(items: Seq<SpecQueryReferencesRequestCountReferences>) -> Seq<char> {
    if items.len() > 0 {
        "\n"@ + num_line("Count References: "@, items.len()) + spec_format_count_items(items, items.len())
    } else {
        seq![]
    }
}

/// The section of the extra byte references: their number, then each of
/// them; nothing where there are none.
pub open spec fn spec_extra_section(items: Seq<Seq<u8>>) -> Seq<char> {
    if items.len() > 0 {
        "\n"@ + num_line("Extra Byte References: "@, items.len()) + spec_format_extra_items(items, items.len())
    } else {
        seq![]
    }
}

/// The cursor section: the cursor in base64; nothing where there is none.
pub open spec fn spec_cursor_section(cursor: Option<Seq<u8>>) -> Seq<char> {
    match cursor {
        Some(c) => "\n"@ + text_line("Cursor: "@, spec_base64_url(c)),
        None => seq![],
    }
}

/// A reference query written out: the reference, the cursor, the request for
/// events, and each request for counts and extra byte reference, every
/// section present only where the query has it.
pub open spec fn spec_format_query_references_request(q: SpecQueryReferencesRequest) -> Seq<char> {
    let reference = match q.reference {
        Some(r) => spec_format_reference(r),
        None => seq![],
    };
    let request_events = match q.request_events {
        Some(e) => spec_format_request_events(e),
        None => seq![],
    };
    reference + spec_cursor_section(q.cursor) + request_events + spec_lww_section(q.count_lww_element_references)
        + spec_counts_section(q.count_references) + spec_extra_section(q.extra_byte_references)
}

fn push_lww_section(s: &mut String, lww: &Vec<QueryReferencesRequestCountLwwElementReferences>)
    ensures
        final(s)@ == old(s)@ + spec_lww_section(
            crate::query::view_query_references_request_count_lww_element_references_list(lww@),
        ),
{
    let ghost items = crate::query::view_query_references_request_count_lww_element_references_list(lww@);
    let ghost start = s@;
    if lww.len() > 0 {
        push_str(s, "\n");
        push_num_line(s, "Count LWW Element References: ", lww.len() as u64);
        let ghost base = s@;
        let mut i: usize = 0;
        while i < lww.len()
            invariant
                i <= lww@.len(),
                items == crate::query::view_query_references_request_count_lww_element_references_list(lww@),
                s@ == base + spec_format_lww_items(items, i as nat),
            decreases lww@.len() - i,
        {
            push_lww_item(s, i as u64, &lww[i]);
            assert(items[i as int] == lww@[i as int]@);
            assert(s@ =~= base + spec_format_lww_items(items, (i + 1) as nat));
            i = i + 1;
        }
        assert(s@ =~= start + spec_lww_section(items));
    } else {
        assert(s@ =~= start + spec_lww_section(items));
    }
}

fn push_counts_section(s: &mut String, refs: &Vec<QueryReferencesRequestCountReferences>)
    ensures
        final(s)@ == old(s)@ + spec_counts_section(
            crate::query::view_query_references_request_count_references_list(refs@),
        ),
{
    let ghost items = crate::query::view_query_references_request_count_references_list(refs@);
    let ghost start = s@;
    if refs.len() > 0 {
        push_str(s, "\n");
        push_num_line(s, "Count References: ", refs.len() as u64);
        let ghost base = s@;
        let mut i: usize = 0;
        while i < refs.len()
            invariant
                i <= refs@.len(),
                items == crate::query::view_query_references_request_count_references_list(refs@),
                s@ == base + spec_format_count_items(items, i as nat),
            decreases refs@.len() - i,
        {
            push_count_item(s, i as u64, &refs[i]);
            assert(items[i as int] == refs@[i as int]@);
            assert(s@ =~= base + spec_format_count_items(items, (i + 1) as nat));
            i = i + 1;
        }
        assert(s@ =~= start + spec_counts_section(items));
    } else {
        assert(s@ =~= start + spec_counts_section(items));
    }
}

fn push_extra_section(s: &mut String, extra: &Vec<Vec<u8>>)
    ensures
        final(s)@ == old(s)@ + spec_extra_section(crate::wire::view_byte_strings(extra@)),
{
    let ghost items = crate::wire::view_byte_strings(extra@);
    let ghost start = s@;
    if extra.len() > 0 {
        push_str(s, "\n");
        push_num_line(s, "Extra Byte References: ", extra.len() as u64);
        let ghost base = s@;
        let mut i: usize = 0;
        while i < extra.len()
            invariant
                i <= extra@.len(),
                items == crate::wire::view_byte_strings(extra@),
                s@ == base + spec_format_extra_items(items, i as nat),
            decreases extra@.len() - i,
        {
            push_extra_item(s, i as u64, &extra[i]);
            assert(items[i as int] == extra@[i as int]@);
            assert(s@ =~= base + spec_format_extra_items(items, (i + 1) as nat));
            i = i + 1;
        }
        assert(s@ =~= start + spec_extra_section(items));
    } else {
        assert(s@ =~= start + spec_extra_section(items));
    }
}

fn push_cursor_section(s: &mut String, cursor: &Option<Vec<u8>>)
    ensures
        final(s)@ == old(s)@ + spec_cursor_section(match cursor {
            Some(c) => Some(c@),
            None => None,
        }),
{
    let ghost start = s@;
    match cursor {
        Some(c) => {
            push_str(s, "\n");
            push_base64_line(s, "Cursor: ", c.as_slice());
            assert(s@ =~= start + spec_cursor_section(Some(c@)));
        },
        None => {
            assert(s@ =~= start + spec_cursor_section(None));
        },
    }
}

/// A reference query written out for people.
pub fn format_query_references_request(request: &QueryReferencesRequest) -> (r: String)
    ensures
        r@ == spec_format_query_references_request(request@),
{
    let mut s = String::new();
    match &request.reference {
        Some(r) => push_reference(&mut s, r),
        None => {},
    }
    let ghost a = s@;
    push_cursor_section(&mut s, &request.cursor);
    let ghost b = s@;
    match &request.request_events {
        Some(e) => push_request_events(&mut s, e),
        None => {},
    }
    let ghost c = s@;
    push_lww_section(&mut s, &request.count_lww_element_references);
    push_counts_section(&mut s, &request.count_references);
    push_extra_section(&mut s, &request.extra_byte_references);
    assert(s@ =~= spec_format_query_references_request(request@));
    s
}

/// What the query decoder shows for its input: an error where the input is
/// empty, is not URL-safe base64, or is not the encoding of a query; else the
/// query written out.
pub open spec fn spec_decode_query_text(input: Seq<char>, shown: Seq<char>) -> bool {
    if input.len() == 0 {
        shown == "Error: Input is empty"@
    } else {
        match spec_base64_url_decode(input) {
            None => exists|d: Seq<char>| shown == "Error decoding base64: "@ + d,
            Some(b) => match crate::query::spec_decode_query_references_request(b) {
                None => shown == "Error decoding protobuf: failed to decode Protobuf message"@,
                Some(q) => shown == spec_format_query_references_request(q),
            },
        }
    }
}

/// Decodes a query given as URL-safe base64 and writes it out; where it
/// cannot, says why.
pub fn decode_query_text(input: &str) -> (r: String)
    ensures
        spec_decode_query_text(input@, r@),
{
    if input.is_empty() {
        return "Error: Input is empty".to_owned();
    }
    match decode_base64_url(input) {
        Err(e) => {
            let mut m = String::new();
            push_str(&mut m, "Error decoding base64: ");
            push_str(&mut m, e.as_str());
            assert(m@ =~= "Error decoding base64: "@ + e@);
            m
        },
        Ok(bytes) => match QueryReferencesRequest::decode(bytes.as_slice()) {
            Some(q) => format_query_references_request(&q),
            None => "Error decoding protobuf: failed to decode Protobuf message".to_owned(),
        },
    }
}

proof fn lemma_count_items_contain(
    items: Seq<SpecQueryReferencesRequestCountReferences>,
    n: nat,
    i: nat,
)
    requires
        i < n <= items.len(),
    ensures
        exists|pre: Seq<char>, post: Seq<char>|
            spec_format_count_items(items, n) == pre + spec_count_item(i, items[i as int]) + post,
    decreases n,
{
    let prev = spec_format_count_items(items, (n - 1) as nat);
    let last = spec_count_item((n - 1) as nat, items[n - 1]);
    if i == n - 1 {
        assert(spec_format_count_items(items, n) == prev + last + Seq::<char>::empty());
    } else {
        lemma_count_items_contain(items, (n - 1) as nat, i);
        let (pre, post) = choose|pre: Seq<char>, post: Seq<char>|
            prev == pre + spec_count_item(i, items[i as int]) + post;
        assert(spec_format_count_items(items, n) == pre + spec_count_item(i, items[i as int]) + (post + last));
    }
}

proof fn lemma_splice(f: Seq<char>, x: Seq<char>, body: Seq<char>, y: Seq<char>, p0: Seq<char>, item: Seq<char>, p1: Seq<char>)
    requires
        f == x + body + y,
        body == p0 + item + p1,
    ensures
        f == (x + p0) + item + (p1 + y),
{
    assert(f =~= (x + p0) + item + (p1 + y));
}

proof fn lemma_counts_in_format(q: SpecQueryReferencesRequest) -> (r: (Seq<char>, Seq<char>))
    requires
        q.count_references.len() > 0,
    ensures
        spec_format_query_references_request(q) == r.0 + ("\n"@ + "Count References: "@ + spec_decimal(
            q.count_references.len(),
        ) + "\n"@) + spec_format_count_items(q.count_references, q.count_references.len()) + r.1,
{
    let reference = match q.reference {
        Some(r) => spec_format_reference(r),
        None => seq![],
    };
    let request_events = match q.request_events {
        Some(e) => spec_format_request_events(e),
        None => seq![],
    };
    let before = reference + spec_cursor_section(q.cursor) + request_events + spec_lww_section(
        q.count_lww_element_references,
    );
    let after = spec_extra_section(q.extra_byte_references);
    let head = "\n"@ + "Count References: "@ + spec_decimal(q.count_references.len()) + "\n"@;
    let body = spec_format_count_items(q.count_references, q.count_references.len());
    assert(spec_counts_section(q.count_references) =~= head + body);
    assert(spec_format_query_references_request(q) =~= before + head + body + after);
    (before, after)
}

proof fn lemma_lww_in_format(q: SpecQueryReferencesRequest) -> (r: (Seq<char>, Seq<char>))
    requires
        q.count_lww_element_references.len() > 0,
    ensures
        spec_format_query_references_request(q) == r.0 + ("\n"@ + "Count LWW Element References: "@ + spec_decimal(
            q.count_lww_element_references.len(),
        ) + "\n"@) + spec_format_lww_items(q.count_lww_element_references, q.count_lww_element_references.len())
            + r.1,
{
    let reference = match q.reference {
        Some(r) => spec_format_reference(r),
        None => seq![],
    };
    let request_events = match q.request_events {
        Some(e) => spec_format_request_events(e),
        None => seq![],
    };
    let before = reference + spec_cursor_section(q.cursor) + request_events;
    let after = spec_counts_section(q.count_references) + spec_extra_section(q.extra_byte_references);
    let items = q.count_lww_element_references;
    let head = "\n"@ + "Count LWW Element References: "@ + spec_decimal(items.len()) + "\n"@;
    let body = spec_format_lww_items(items, items.len());
    assert(spec_lww_section(items) =~= head + body);
    assert(spec_format_query_references_request(q) =~= before + head + body + after);
    (before, after)
}

proof fn lemma_extra_in_format(q: SpecQueryReferencesRequest) -> (r: Seq<char>)
    requires
        q.extra_byte_references.len() > 0,
    ensures
        spec_format_query_references_request(q) == r + ("\n"@ + "Extra Byte References: "@ + spec_decimal(
            q.extra_byte_references.len(),
        ) + "\n"@) + spec_format_extra_items(q.extra_byte_references, q.extra_byte_references.len()),
{
    let reference = match q.reference {
        Some(r) => spec_format_reference(r),
        None => seq![],
    };
    let request_events = match q.request_events {
        Some(e) => spec_format_request_events(e),
        None => seq![],
    };
    let before = reference + spec_cursor_section(q.cursor) + request_events + spec_lww_section(
        q.count_lww_element_references,
    ) + spec_counts_section(q.count_references);
    let items = q.extra_byte_references;
    let head = "\n"@ + "Extra Byte References: "@ + spec_decimal(items.len()) + "\n"@;
    let body = spec_format_extra_items(items, items.len());
    assert(spec_extra_section(items) =~= head + body);
    assert(spec_format_query_references_request(q) =~= before + head + body);
    before
}

/// The written query holds each request for reference counts as the original
/// format lays it out: the section starts with the line `Count References: `
/// and their number, and the `i`th request with a content type `n` is
/// written as the line `  [i]:` followed directly by the line
/// `    From Type: n` (a request without one as the line `  [i]:` alone).
pub proof fn lemma_format_count_references(q: SpecQueryReferencesRequest, i: nat)
    requires
        i < q.count_references.len(),
    ensures
        exists|pre: Seq<char>, post: Seq<char>|
            spec_format_query_references_request(q) == pre + ("\n"@ + "Count References: "@ + spec_decimal(
                q.count_references.len(),
            ) + "\n"@) + post,
        match q.count_references[i as int].from_type {
            Some(n) => exists|pre: Seq<char>, post: Seq<char>|
                spec_format_query_references_request(q) == pre + ("  ["@ + spec_decimal(i) + "]:\n"@
                    + "    From Type: "@ + spec_decimal(n as nat) + "\n"@) + post,
            None => exists|pre: Seq<char>, post: Seq<char>|
                spec_format_query_references_request(q) == pre + ("  ["@ + spec_decimal(i) + "]:\n"@) + post,
        },
{
    let items = q.count_references;
    let f = spec_format_query_references_request(q);
    let (before, after) = lemma_counts_in_format(q);
    let head = "\n"@ + "Count References: "@ + spec_decimal(items.len()) + "\n"@;
    let body = spec_format_count_items(items, items.len());
    assert(f == before + head + (body + after)) by {
        assert(f =~= before + head + (body + after));
    }
    lemma_count_items_contain(items, items.len(), i);
    let (p0, p1) = choose|pre: Seq<char>, post: Seq<char>|
        body == pre + spec_count_item(i, items[i as int]) + post;
    let item = spec_count_item(i, items[i as int]);
    lemma_splice(f, before + head, body, after, p0, item, p1);
    match items[i as int].from_type {
        Some(n) => {
            let text = "  ["@ + spec_decimal(i) + "]:\n"@ + "    From Type: "@ + spec_decimal(n as nat) + "\n"@;
            assert(item =~= text);
            assert(f == (before + head + p0) + text + (p1 + after));
        },
        None => {
            let text = "  ["@ + spec_decimal(i) + "]:\n"@;
            assert(item =~= text);
            assert(f == (before + head + p0) + text + (p1 + after));
        },
    }
}

proof fn lemma_lww_items_contain(
    items: Seq<SpecQueryReferencesRequestCountLwwElementReferences>,
    n: nat,
    i: nat,
)
    requires
        i < n <= items.len(),
    ensures
        exists|pre: Seq<char>, post: Seq<char>|
            spec_format_lww_items(items, n) == pre + spec_lww_item(i, items[i as int]) + post,
    decreases n,
{
    let prev = spec_format_lww_items(items, (n - 1) as nat);
    let last = spec_lww_item((n - 1) as nat, items[n - 1]);
    if i == n - 1 {
        assert(spec_format_lww_items(items, n) == prev + last + Seq::<char>::empty());
    } else {
        lemma_lww_items_contain(items, (n - 1) as nat, i);
        let (pre, post) = choose|pre: Seq<char>, post: Seq<char>|
            prev == pre + spec_lww_item(i, items[i as int]) + post;
        assert(spec_format_lww_items(items, n) == pre + spec_lww_item(i, items[i as int]) + (post + last));
    }
}

proof fn lemma_extra_items_contain(items: Seq<Seq<u8>>, n: nat, i: nat)
    requires
        i < n <= items.len(),
    ensures
        exists|pre: Seq<char>, post: Seq<char>|
            spec_format_extra_items(items, n) == pre + spec_extra_item(i, items[i as int]) + post,
    decreases n,
{
    let prev = spec_format_extra_items(items, (n - 1) as nat);
    let last = spec_extra_item((n - 1) as nat, items[n - 1]);
    if i == n - 1 {
        assert(spec_format_extra_items(items, n) == prev + last + Seq::<char>::empty());
    } else {
        lemma_extra_items_contain(items, (n - 1) as nat, i);
        let (pre, post) = choose|pre: Seq<char>, post: Seq<char>|
            prev == pre + spec_extra_item(i, items[i as int]) + post;
        assert(spec_format_extra_items(items, n) == pre + spec_extra_item(i, items[i as int]) + (post + last));
    }
}

/// The line `    Value: ` with bytes in double quotes where they are UTF-8
/// text, in URL-safe base64 otherwise.
pub open spec fn value_line(value: Seq<u8>) -> Seq<char> {
    match spec_utf8_text(value) {
        Some(t) => "    Value: "@ + "\""@ + t + "\"\n"@,
        None => "    Value: "@ + spec_base64_url(value) + "\n"@,
    }
}

/// The line `    From Type: ` with a content type, where there is one.
pub open spec fn from_type_line(o: Option<u64>) -> Seq<char> {
    match o {
        Some(n) => "    From Type: "@ + spec_decimal(n as nat) + "\n"@,
        None => Seq::<char>::empty(),
    }
}

/// Bytes in double quotes where they are UTF-8 text, in URL-safe base64
/// otherwise, ending a line.
pub open spec fn bytes_text(b: Seq<u8>) -> Seq<char> {
    match spec_utf8_text(b) {
        Some(t) => "\""@ + t + "\"\n"@,
        None => spec_base64_url(b) + "\n"@,
    }
}

/// The written query holds each request for last-writer-wins counts as the
/// original format lays it out: the section starts with the line
/// `Count LWW Element References: ` and their number, and the `i`th request is
/// the line `  [i]:`, then its value (in double quotes where it is UTF-8 text,
/// in URL-safe base64 otherwise), then its content type where it has one.
pub proof fn lemma_format_lww_references(q: SpecQueryReferencesRequest, i: nat)
    requires
        i < q.count_lww_element_references.len(),
    ensures
        exists|pre: Seq<char>, post: Seq<char>|
            spec_format_query_references_request(q) == pre + ("\n"@ + "Count LWW Element References: "@
                + spec_decimal(q.count_lww_element_references.len()) + "\n"@) + post,
        exists|pre: Seq<char>, post: Seq<char>|
            spec_format_query_references_request(q) == pre + ("  ["@ + spec_decimal(i) + "]:\n"@ + value_line(
                q.count_lww_element_references[i as int].value,
            ) + from_type_line(q.count_lww_element_references[i as int].from_type)) + post,
{
    let items = q.count_lww_element_references;
    let c = items[i as int];
    let f = spec_format_query_references_request(q);
    let (before, after) = lemma_lww_in_format(q);
    let head = "\n"@ + "Count LWW Element References: "@ + spec_decimal(items.len()) + "\n"@;
    let body = spec_format_lww_items(items, items.len());
    assert(f == before + head + (body + after)) by {
        assert(f =~= before + head + (body + after));
    }
    lemma_lww_items_contain(items, items.len(), i);
    let (p0, p1) = choose|pre: Seq<char>, post: Seq<char>| body == pre + spec_lww_item(i, c) + post;
    let item = spec_lww_item(i, c);
    lemma_splice(f, before + head, body, after, p0, item, p1);
    let text = "  ["@ + spec_decimal(i) + "]:\n"@ + value_line(c.value) + from_type_line(c.from_type);
    assert(item =~= text);
    assert(f == (before + head + p0) + text + (p1 + after));
}

/// The written query holds each extra byte reference as the original format
/// lays it out: the section starts with the line `Extra Byte References: `
/// and their number, and the `i`th reference is the line `  [i]: ` with the
/// bytes in double quotes where they are UTF-8 text, in URL-safe base64
/// otherwise.
pub proof fn lemma_format_extra_references(q: SpecQueryReferencesRequest, i: nat)
    requires
        i < q.extra_byte_references.len(),
    ensures
        exists|pre: Seq<char>, post: Seq<char>|
            spec_format_query_references_request(q) == pre + ("\n"@ + "Extra Byte References: "@ + spec_decimal(
                q.extra_byte_references.len(),
            ) + "\n"@) + post,
        exists|pre: Seq<char>, post: Seq<char>|
            spec_format_query_references_request(q) == pre + ("  ["@ + spec_decimal(i) + "]: "@ + bytes_text(
                q.extra_byte_references[i as int],
            )) + post,
{
    let items = q.extra_byte_references;
    let b = items[i as int];
    let f = spec_format_query_references_request(q);
    let before = lemma_extra_in_format(q);
    let after = Seq::<char>::empty();
    let head = "\n"@ + "Extra Byte References: "@ + spec_decimal(items.len()) + "\n"@;
    let body = spec_format_extra_items(items, items.len());
    assert(f == before + head + (body + after)) by {
        assert(f =~= before + head + (body + after));
    }
    lemma_extra_items_contain(items, items.len(), i);
    let (p0, p1) = choose|pre: Seq<char>, post: Seq<char>| body == pre + spec_extra_item(i, b) + post;
    let item = spec_extra_item(i, b);
    lemma_splice(f, before + head, body, after, p0, item, p1);
    let text = "  ["@ + spec_decimal(i) + "]: "@ + bytes_text(b);
    assert(item =~= text);
    assert(f == (before + head + p0) + text + (p1 + after));
}

/// What the original format writes for a reference of type 2 whose bytes
/// decode as the pointer `p`: the line `  Pointer:`, the system as key text
/// and the process in URL-safe base64 where present, the logical clock, and
/// the digest's type and bytes where present.
pub open spec fn pointer_lines(p: SpecPointer) -> Seq<char> {
    "  Pointer:\n"@ + (match p.system {
        Some(k) => "    System: "@ + spec_public_key_text(k) + "\n"@,
        None => Seq::<char>::empty(),
    }) + (match p.process {
        Some(pr) => "    Process: "@ + spec_base64_url(pr.process) + "\n"@,
        None => Seq::<char>::empty(),
    }) + "    Logical Clock: "@ + spec_decimal(p.logical_clock as nat) + "\n"@ + (match p.event_digest {
        Some(d) => "    Digest Type: "@ + spec_decimal(d.digest_type as nat) + "\n"@ + "    Digest: "@
            + spec_base64_url(d.digest) + "\n"@,
        None => Seq::<char>::empty(),
    })
}

/// What the original format writes for the bytes of a reference: a pointer
/// (type 2) where they decode as one, a topic in double quotes (type 3) where
/// they are UTF-8 text, and otherwise the bytes in URL-safe base64 (`Bytes:`
/// for type 3, `Raw:` for the others).
pub open spec fn reference_lines(r: SpecReference) -> Seq<char> {
    if r.reference_type == 2 && spec_decode_pointer(r.reference) is Some {
        pointer_lines(spec_decode_pointer(r.reference)->0)
    } else if r.reference_type == 3 && spec_utf8_text(r.reference) is Some {
        "  Topic: "@ + "\""@ + spec_utf8_text(r.reference)->0 + "\"\n"@
    } else if r.reference_type == 3 {
        "  Bytes: "@ + spec_base64_url(r.reference) + "\n"@
    } else {
        "  Raw: "@ + spec_base64_url(r.reference) + "\n"@
    }
}

proof fn lemma_regroup(a: Seq<char>, b: Seq<char>, c: Seq<char>, d: Seq<char>, e: Seq<char>, g: Seq<char>)
    ensures
        a + b + c + d + e + g == a + (b + c + d + e + g),
        a + b + c + d + e + g == a + b + (c + d + e + g),
{
    assert(a + b + c + d + e + g =~= a + (b + c + d + e + g));
    assert(a + b + c + d + e + g =~= a + b + (c + d + e + g));
}

proof fn lemma_reference_text(r: SpecReference)
    ensures
        spec_format_reference(r) == "Reference:\n"@ + "  Type: "@ + spec_decimal(r.reference_type as nat) + "\n"@
            + reference_lines(r),
{
    if r.reference_type == 2 && spec_decode_pointer(r.reference) is Some {
        let p = spec_decode_pointer(r.reference)->0;
        assert(spec_format_pointer(p) =~= pointer_lines(p));
        assert(spec_format_reference_body(r) == reference_lines(r));
    } else if r.reference_type == 3 && spec_utf8_text(r.reference) is Some {
        assert(spec_format_reference_body(r) =~= reference_lines(r));
    } else {
        assert(spec_format_reference_body(r) =~= reference_lines(r));
    }
    assert(spec_format_reference(r) =~= "Reference:\n"@ + "  Type: "@ + spec_decimal(r.reference_type as nat)
        + "\n"@ + reference_lines(r));
}

/// A written query with a reference starts with it: the line `Reference:`, its
/// type, and what its bytes say.
pub proof fn lemma_format_reference(q: SpecQueryReferencesRequest)
    requires
        q.reference is Some,
    ensures
        exists|post: Seq<char>|
            spec_format_query_references_request(q) == ("Reference:\n"@ + "  Type: "@ + spec_decimal(
                (q.reference->0).reference_type as nat,
            ) + "\n"@ + reference_lines(q.reference->0)) + post,
{
    let r = q.reference->0;
    let f = spec_format_query_references_request(q);
    let request_events = match q.request_events {
        Some(e) => spec_format_request_events(e),
        None => seq![],
    };
    let c = spec_cursor_section(q.cursor);
    let l = spec_lww_section(q.count_lww_element_references);
    let n = spec_counts_section(q.count_references);
    let x = spec_extra_section(q.extra_byte_references);
    assert(f == spec_format_reference(r) + c + request_events + l + n + x);
    lemma_regroup(spec_format_reference(r), c, request_events, l, n, x);
    lemma_reference_text(r);
    assert(f == spec_format_reference(r) + (c + request_events + l + n + x));
}

/// A written query with a cursor holds the line `Cursor: ` with the cursor in
/// URL-safe base64, after an empty line.
pub proof fn lemma_format_cursor(q: SpecQueryReferencesRequest)
    requires
        q.cursor is Some,
    ensures
        exists|pre: Seq<char>, post: Seq<char>|
            spec_format_query_references_request(q) == pre + ("\n"@ + "Cursor: "@ + spec_base64_url(q.cursor->0)
                + "\n"@) + post,
{
    let f = spec_format_query_references_request(q);
    let reference = match q.reference {
        Some(r) => spec_format_reference(r),
        None => seq![],
    };
    let request_events = match q.request_events {
        Some(e) => spec_format_request_events(e),
        None => seq![],
    };
    let c = spec_cursor_section(q.cursor);
    let l = spec_lww_section(q.count_lww_element_references);
    let n = spec_counts_section(q.count_references);
    let x = spec_extra_section(q.extra_byte_references);
    let text = "\n"@ + "Cursor: "@ + spec_base64_url(q.cursor->0) + "\n"@;
    assert(c =~= text);
    assert(f == reference + c + request_events + l + n + x);
    lemma_regroup(reference, c, request_events, l, n, x);
    assert(f == reference + text + (request_events + l + n + x));
}

/// A written query with a request for events holds the line
/// `Request Events:` after an empty line, then its content type where it has
/// one, and how many counts of each kind it asks for where it asks for any.
pub proof fn lemma_format_request_events(q: SpecQueryReferencesRequest)
    requires
        q.request_events is Some,
    ensures
        ({
            let e = q.request_events->0;
            exists|pre: Seq<char>, post: Seq<char>|
                spec_format_query_references_request(q) == pre + ("\n"@ + "Request Events:\n"@ + request_count_lines(e))
                    + post
        }),
{
    let e = q.request_events->0;
    let f = spec_format_query_references_request(q);
    let reference = match q.reference {
        Some(r) => spec_format_reference(r),
        None => seq![],
    };
    let rest = spec_lww_section(q.count_lww_element_references) + spec_counts_section(q.count_references)
        + spec_extra_section(q.extra_byte_references);
    let text = "\n"@ + "Request Events:\n"@ + request_count_lines(e);
    assert(spec_format_request_events(e) =~= text) by {
        reveal_strlit("\nRequest Events:\n");
        reveal_strlit("\n");
        reveal_strlit("Request Events:\n");
    }
    assert(f =~= (reference + spec_cursor_section(q.cursor)) + text + rest);
}

/// The lines of a request for events after its heading: `  From Type: ` with
/// its content type where it has one, then the number of last-writer-wins
/// counts and of reference counts it asks for, each where it is not zero.
pub open spec fn request_count_lines(e: SpecQueryReferencesRequestEvents) -> Seq<char> {
    (match e.from_type {
        Some(n) => "  From Type: "@ + spec_decimal(n as nat) + "\n"@,
        None => Seq::<char>::empty(),
    }) + (if e.count_lww_element_references.len() > 0 {
        "  Count LWW Element References: "@ + spec_decimal(e.count_lww_element_references.len()) + "\n"@
    } else {
        Seq::<char>::empty()
    }) + (if e.count_references.len() > 0 {
        "  Count References: "@ + spec_decimal(e.count_references.len()) + "\n"@
    } else {
        Seq::<char>::empty()
    })
}

/// Decoding a query written in URL-safe base64 shows the query written out:
/// for every query whose encoding fits a 64-bit length, the decoder shows
/// exactly the written query for the base64 of its encoding.
pub proof fn lemma_decode_query_text_round_trip(q: SpecQueryReferencesRequest)
    requires
        spec_encode_query_references_request(q).len() < 0x1_0000_0000_0000_0000,
        spec_encode_query_references_request(q).len() > 0,
    ensures
        spec_decode_query_text(
            spec_base64_url(spec_encode_query_references_request(q)),
            spec_format_query_references_request(q),
        ),
{
    let b = spec_encode_query_references_request(q);
    lemma_base64_url_decode(b);
    lemma_query_references_request_round_trip(q);
    assert(spec_base64_url(b).len() > 0) by {
        if spec_base64_url(b).len() == 0 {
            assert(spec_base64_url(Seq::<u8>::empty()) =~= spec_base64_url(b));
            crate::text::lemma_base64_url_round_trip(b, Seq::<u8>::empty());
        }
    }
}

} // verus!
