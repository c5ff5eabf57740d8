//! The immutable, case-insensitive header collection and the typed headers
//! built on it: `Accept-Encoding`, `Content-Encoding` and `Content-Length`.

use vstd::prelude::*;
use vstd::slice::{slice_subrange, slice_to_vec};
use vstd::string::StringSliceAdditionalSpecFns;

use crate::encoding::{
    spec_args, spec_parse_encoding, spec_program, spec_token, CodecCommand, Encoding, EncodingSet,
    SystemEncoder,
};
use crate::text::{find_byte, skip_whitespace, spec_find_byte, spec_parse_u64, spec_skip_ws};

verus! {

/// A byte is an ASCII letter (`A`..`Z` or `a`..`z`).
pub open spec fn is_alpha(b: u8) -> bool {
    (65 <= b && b <= 90) || (97 <= b && b <= 122)
}

/// Two bytes are equal up to ASCII case: identical, or both letters whose
/// codes differ by exactly the upper/lower distance.
pub open spec fn byte_eq_ignore_case(x: u8, y: u8) -> bool {
    x == y || (is_alpha(x) && is_alpha(y) && (x + 32 == y || y + 32 == x))
}

/// Bytewise case-insensitive equality of byte strings.
pub open spec fn seq_eq_ignore_case(a: Seq<u8>, b: Seq<u8>) -> bool {
    a.len() == b.len() && forall|i: int| 0 <= i < a.len() ==> byte_eq_ignore_case(a[i], b[i])
}

/// Whether byte `x` matches byte `y` ignoring the case of ASCII letters.
pub fn ignore_case_eq(x: u8, y: u8) -> (r: bool)
    ensures
        r == byte_eq_ignore_case(x, y),
{
    let x_alpha = (65 <= x && x <= 90) || (97 <= x && x <= 122);
    let y_alpha = (65 <= y && y <= 90) || (97 <= y && y <= 122);
    x == y || (x_alpha && y_alpha && (x + 32 == y || y + 32 == x))
}

/// Whether `data` matches `target` ignoring the case of ASCII letters.
pub fn compare(data: &[u8], target: &[u8]) -> (r: bool)
    ensures
        r == seq_eq_ignore_case(data@, target@),
{
    if data.len() != target.len() {
        return false;
    }
    let mut i: usize = 0;
    while i < data.len()
        invariant
            data@.len() == target@.len(),
            0 <= i <= data@.len(),
            forall|j: int| 0 <= j < i ==> byte_eq_ignore_case(data@[j], target@[j]),
        decreases data@.len() - i,
    {
        if !ignore_case_eq(data[i], target[i]) {
            return false;
        }
        i = i + 1;
    }
    true
}

/// Case-insensitive equality of byte strings is an equivalence relation.
pub proof fn lemma_seq_eq_ignore_case_equivalence(a: Seq<u8>, b: Seq<u8>, c: Seq<u8>)
    ensures
        seq_eq_ignore_case(a, a),
        seq_eq_ignore_case(a, b) == seq_eq_ignore_case(b, a),
        seq_eq_ignore_case(a, b) && seq_eq_ignore_case(b, c) ==> seq_eq_ignore_case(a, c),
{
}

// ---------------------------------------------------------------------------
// Well-known header names and values.
// ---------------------------------------------------------------------------
/// The name of the `Accept-Encoding` header.
pub open spec fn accept_encoding_name() -> Seq<u8> {
    "Accept-Encoding".spec_bytes()
}

/// The name of the `Content-Type` header.
pub open spec fn content_type_name() -> Seq<u8> {
    "Content-Type".spec_bytes()
}

/// The name of the `Content-Length` header.
pub open spec fn content_length_name() -> Seq<u8> {
    "Content-Length".spec_bytes()
}

/// The name of the `Content-Encoding` header.
pub open spec fn content_encoding_name() -> Seq<u8> {
    "Content-Encoding".spec_bytes()
}

/// The `text/plain` media type.
pub open spec fn text_plain_value() -> Seq<u8> {
    "text/plain".spec_bytes()
}

/// The `application/octet-stream` media type.
pub open spec fn octet_stream_value() -> Seq<u8> {
    "application/octet-stream".spec_bytes()
}

/// The name of the `Accept-Encoding` header.
pub fn accept_encoding_header() -> (r: Vec<u8>)
    ensures
        r@ == accept_encoding_name(),
{
    slice_to_vec("Accept-Encoding".as_bytes())
}

/// The name of the `Content-Type` header.
pub fn content_type_header() -> (r: Vec<u8>)
    ensures
        r@ == content_type_name(),
{
    slice_to_vec("Content-Type".as_bytes())
}

/// The name of the `Content-Length` header.
pub fn content_length_header() -> (r: Vec<u8>)
    ensures
        r@ == content_length_name(),
{
    slice_to_vec("Content-Length".as_bytes())
}

/// The name of the `Content-Encoding` header.
pub fn content_encoding_header() -> (r: Vec<u8>)
    ensures
        r@ == content_encoding_name(),
{
    slice_to_vec("Content-Encoding".as_bytes())
}

/// The `text/plain` media type.
pub fn text_plain() -> (r: Vec<u8>)
    ensures
        r@ == text_plain_value(),
{
    slice_to_vec("text/plain".as_bytes())
}

/// The `application/octet-stream` media type.
pub fn octet_stream() -> (r: Vec<u8>)
    ensures
        r@ == octet_stream_value(),
{
    slice_to_vec("application/octet-stream".as_bytes())
}

// ---------------------------------------------------------------------------
// The header collection.
// ---------------------------------------------------------------------------
/// The value of the first entry whose name matches `key` up to ASCII case.
pub open spec fn lookup(entries: Seq<(Seq<u8>, Seq<u8>)>, key: Seq<u8>) -> Option<Seq<u8>>
    decreases entries.len(),
{
    if entries.len() == 0 {
        None
    } else if seq_eq_ignore_case(entries[0].0, key) {
        Some(entries[0].1)
    } else {
        lookup(entries.drop_first(), key)
    }
}

/// Some entry's name matches `key` up to ASCII case.
pub open spec fn has_name(entries: Seq<(Seq<u8>, Seq<u8>)>, key: Seq<u8>) -> bool {
    lookup(entries, key) is Some
}

/// Every entry whose name matches `key` up to ASCII case replaced by
/// `(key, val)`; the others are kept, in place.
pub open spec fn assoc_entries(
    entries: Seq<(Seq<u8>, Seq<u8>)>,
    key: Seq<u8>,
    val: Seq<u8>,
) -> Seq<(Seq<u8>, Seq<u8>)> {
    entries.map_values(
        |p: (Seq<u8>, Seq<u8>)|
            if seq_eq_ignore_case(p.0, key) {
                (key, val)
            } else {
                p
            },
    )
}

/// `assoc_entries` where some name matches `key`; `(key, val)` appended
/// where none does.
pub open spec fn insert_entries(
    entries: Seq<(Seq<u8>, Seq<u8>)>,
    key: Seq<u8>,
    val: Seq<u8>,
) -> Seq<(Seq<u8>, Seq<u8>)> {
    if has_name(entries, key) {
        assoc_entries(entries, key, val)
    } else {
        entries.push((key, val))
    }
}

/// A map with a matching name holds a matching entry at some index.
proof fn lemma_has_name_index(entries: Seq<(Seq<u8>, Seq<u8>)>, key: Seq<u8>)
    requires
        has_name(entries, key),
    ensures
        exists|i: int|
            0 <= i < entries.len() && #[trigger] seq_eq_ignore_case(entries[i].0, key),
    decreases entries.len(),
{
    if seq_eq_ignore_case(entries[0].0, key) {
        assert(seq_eq_ignore_case(entries[0].0, key));
    } else {
        lemma_has_name_index(entries.drop_first(), key);
        let i = choose|i: int|
            0 <= i < entries.drop_first().len() && #[trigger] seq_eq_ignore_case(
                entries.drop_first()[i].0,
                key,
            );
        assert(seq_eq_ignore_case(entries[i + 1].0, key));
    }
}

/// After `insert_entries(entries, key, val)`, the exact entry `(key, val)`
/// stands at some index of the result.
pub proof fn lemma_insert_entry_present(
    entries: Seq<(Seq<u8>, Seq<u8>)>,
    key: Seq<u8>,
    val: Seq<u8>,
)
    ensures
        exists|i: int|
            0 <= i < insert_entries(entries, key, val).len() && #[trigger] insert_entries(
                entries,
                key,
                val,
            )[i] == (key, val),
{
    let out = insert_entries(entries, key, val);
    if has_name(entries, key) {
        lemma_has_name_index(entries, key);
        let i = choose|i: int|
            0 <= i < entries.len() && #[trigger] seq_eq_ignore_case(entries[i].0, key);
        assert(out[i] == (key, val));
    } else {
        assert(out[entries.len() as int] == (key, val));
    }
}

/// Looking up either of two keys that match up to ASCII case finds the same
/// entry.
pub proof fn lemma_lookup_case_insensitive(
    entries: Seq<(Seq<u8>, Seq<u8>)>,
    k1: Seq<u8>,
    k2: Seq<u8>,
)
    requires
        seq_eq_ignore_case(k1, k2),
    ensures
        lookup(entries, k1) == lookup(entries, k2),
    decreases entries.len(),
{
    if entries.len() > 0 {
        lemma_seq_eq_ignore_case_equivalence(entries[0].0, k1, k2);
        lemma_seq_eq_ignore_case_equivalence(entries[0].0, k2, k1);
        lemma_seq_eq_ignore_case_equivalence(k1, k2, entries[0].0);
        lemma_lookup_case_insensitive(entries.drop_first(), k1, k2);
    }
}

/// After `insert_entries(entries, key, val)`, looking `key` up finds `val`.
pub proof fn lemma_lookup_after_insert(entries: Seq<(Seq<u8>, Seq<u8>)>, key: Seq<u8>, val: Seq<u8>)
    ensures
        lookup(insert_entries(entries, key, val), key) == Some(val),
    decreases entries.len(),
{
    lemma_seq_eq_ignore_case_equivalence(key, key, key);
    if has_name(entries, key) {
        lemma_lookup_after_assoc(entries, key, val);
    } else {
        lemma_lookup_push_miss(entries, key, val);
    }
}

/// Looking `key` up after `assoc_entries` on a map that holds a matching
/// name finds `val`.
proof fn lemma_lookup_after_assoc(entries: Seq<(Seq<u8>, Seq<u8>)>, key: Seq<u8>, val: Seq<u8>)
    requires
        has_name(entries, key),
    ensures
        lookup(assoc_entries(entries, key, val), key) == Some(val),
    decreases entries.len(),
{
    lemma_seq_eq_ignore_case_equivalence(key, key, key);
    let mapped = assoc_entries(entries, key, val);
    if entries.len() > 0 {
        if seq_eq_ignore_case(entries[0].0, key) {
            assert(mapped[0] == (key, val));
        } else {
            assert(mapped[0] == entries[0]);
            lemma_lookup_after_assoc(entries.drop_first(), key, val);
            assert(mapped.drop_first() =~= assoc_entries(entries.drop_first(), key, val));
        }
    }
}

/// Appending `(key, val)` to a map with no name matching `key` makes `key`
/// look up to `val`.
proof fn lemma_lookup_push_miss(entries: Seq<(Seq<u8>, Seq<u8>)>, key: Seq<u8>, val: Seq<u8>)
    requires
        !has_name(entries, key),
    ensures
        lookup(entries.push((key, val)), key) == Some(val),
    decreases entries.len(),
{
    lemma_seq_eq_ignore_case_equivalence(key, key, key);
    if entries.len() == 0 {
        assert(lookup(entries.push((key, val)), key) == Some(val));
    } else {
        lemma_lookup_push_miss(entries.drop_first(), key, val);
        assert(entries.push((key, val)).drop_first() =~= entries.drop_first().push((key, val)));
    }
}

/// An immutable, ordered collection of header name/value pairs. Lookups are
/// case-insensitive and find the first match; duplicate names may coexist.
/// Updates never mutate in place: they produce a new map.
#[derive(Debug)]
pub struct HeaderMap {
    entries: Vec<(Vec<u8>, Vec<u8>)>,
}

impl View for HeaderMap {
    type V = Seq<(Seq<u8>, Seq<u8>)>;

    closed spec fn view(&self) -> Seq<(Seq<u8>, Seq<u8>)> {
        self.entries.deep_view()
    }
}

/// A fresh copy of a list of entries.
fn copy_entries(entries: &Vec<(Vec<u8>, Vec<u8>)>) -> (r: Vec<(Vec<u8>, Vec<u8>)>)
    ensures
        r.deep_view() == entries.deep_view(),
{
    let mut out: Vec<(Vec<u8>, Vec<u8>)> = Vec::new();
    let mut i: usize = 0;
    while i < entries.len()
        invariant
            0 <= i <= entries@.len(),
            out@.len() == i,
            forall|j: int| 0 <= j < i ==> out.deep_view()[j] == entries.deep_view()[j],
        decreases entries@.len() - i,
    {
        let name = slice_to_vec(entries[i].0.as_slice());
        let value = slice_to_vec(entries[i].1.as_slice());
        out.push((name, value));
        i = i + 1;
    }
    proof {
        assert(out.deep_view() =~~= entries.deep_view());
    }
    out
}

impl HeaderMap {
    /// The map holding exactly the given entries, in order.
    pub fn from_iter(entries: Vec<(Vec<u8>, Vec<u8>)>) -> (r: HeaderMap)
        ensures
            r@ == entries.deep_view(),
    {
        HeaderMap { entries }
    }

    /// The entries of the map, in stored order.
    pub fn iter(&self) -> (r: &Vec<(Vec<u8>, Vec<u8>)>)
        ensures
            r.deep_view() == self@,
    {
        &self.entries
    }

    /// The value of the first entry whose name matches `key` up to ASCII
    /// case, if any.
    pub fn get(&self, key: &[u8]) -> (r: Option<&Vec<u8>>)
        ensures
            match r {
                Some(v) => lookup(self@, key@) == Some(v@),
                None => lookup(self@, key@) is None,
            },
    {
        let n = self.entries.len();
        proof {
            assert(self@.subrange(0, n as int) =~= self@);
        }
        let mut i: usize = 0;
        while i < n
            invariant
                0 <= i <= n,
                n == self@.len(),
                lookup(self@, key@) == lookup(self@.subrange(i as int, n as int), key@),
            decreases n - i,
        {
            proof {
                assert(self@.subrange(i as int, n as int).drop_first() =~= self@.subrange(
                    i + 1,
                    n as int,
                ));
                assert(self@.subrange(i as int, n as int)[0] == self@[i as int]);
            }
            if compare(self.entries[i].0.as_slice(), key) {
                return Some(&self.entries[i].1);
            }
            i = i + 1;
        }
        None
    }

    /// Some entry's name matches `key` up to ASCII case.
    pub fn contains_name(&self, key: &[u8]) -> (r: bool)
        ensures
            r == has_name(self@, key@),
    {
        self.get(key).is_some()
    }

    /// The value of the first entry whose name matches `key`, read as a
    /// decimal unsigned integer; `None` on any failure.
    pub fn read(&self, key: &[u8]) -> (r: Option<u64>)
        ensures
            r == match lookup(self@, key@) {
                Some(v) => spec_parse_u64(v),
                None => None::<u64>,
            },
    {
        match self.get(key) {
            Some(v) => crate::text::parse_u64(v.as_slice()),
            None => None,
        }
    }

    /// A new map with every entry whose name matches `key` replaced by
    /// `(key, val)`; a map without such an entry comes back unchanged.
    pub fn assoc(&self, key: &[u8], val: &[u8]) -> (r: HeaderMap)
        ensures
            r@ == assoc_entries(self@, key@, val@),
    {
        let n = self.entries.len();
        let mut out: Vec<(Vec<u8>, Vec<u8>)> = Vec::new();
        let mut i: usize = 0;
        while i < n
            invariant
                0 <= i <= n,
                n == self@.len(),
                out@.len() == i,
                forall|j: int|
                    0 <= j < i ==> out.deep_view()[j] == (if seq_eq_ignore_case(
                        self@[j].0,
                        key@,
                    ) {
                        (key@, val@)
                    } else {
                        self@[j]
                    }),
            decreases n - i,
        {
            let ghost prev = out.deep_view();
            proof {
                assert(self@[i as int] == (self.entries@[i as int].0@, self.entries@[i as int].1@));
            }
            if compare(self.entries[i].0.as_slice(), key) {
                out.push((slice_to_vec(key), slice_to_vec(val)));
                proof {
                    assert(out.deep_view()[i as int] == (key@, val@));
                }
            } else {
                let name = slice_to_vec(self.entries[i].0.as_slice());
                let value = slice_to_vec(self.entries[i].1.as_slice());
                out.push((name, value));
                proof {
                    assert(out.deep_view()[i as int] == self@[i as int]);
                }
            }
            proof {
                assert forall|j: int| 0 <= j < i implies out.deep_view()[j] == prev[j] by {
                    assert(out@[j] == out@.drop_last()[j]);
                }
                assert forall|j: int| 0 <= j < i + 1 implies out.deep_view()[j] == (
                if seq_eq_ignore_case(self@[j].0, key@) {
                    (key@, val@)
                } else {
                    self@[j]
                }) by {
                    if j < i {
                        assert(out.deep_view()[j] == prev[j]);
                    }
                }
            }
            i = i + 1;
        }
        proof {
            assert(out.deep_view() =~~= assoc_entries(self@, key@, val@));
        }
        HeaderMap { entries: out }
    }

    /// A new map where `key` holds `val`: a map with a matching name gets
    /// every matching entry replaced, one without gets `(key, val)`
    /// appended.
    pub fn insert_pair(&self, key: &[u8], val: &[u8]) -> (r: HeaderMap)
        ensures
            r@ == insert_entries(self@, key@, val@),
    {
        if self.contains_name(key) {
            self.assoc(key, val)
        } else {
            let mut out = copy_entries(&self.entries);
            out.push((slice_to_vec(key), slice_to_vec(val)));
            proof {
                assert(out.deep_view() =~~= self@.push((key@, val@)));
            }
            HeaderMap { entries: out }
        }
    }

    /// An empty builder.
    pub fn builder() -> (r: HeaderMapBuilder)
        ensures
            r@ == Seq::<(Seq<u8>, Seq<u8>)>::empty(),
    {
        HeaderMapBuilder { entries: Vec::new() }
    }
}

/// The mutable builder of a `HeaderMap`: entries accumulate in insertion
/// order, duplicates and all, and `build` produces the immutable map.
#[derive(Debug)]
pub struct HeaderMapBuilder {
    entries: Vec<(Vec<u8>, Vec<u8>)>,
}

impl View for HeaderMapBuilder {
    type V = Seq<(Seq<u8>, Seq<u8>)>;

    closed spec fn view(&self) -> Seq<(Seq<u8>, Seq<u8>)> {
        self.entries.deep_view()
    }
}

impl HeaderMapBuilder {
    /// An empty builder.
    pub fn new() -> (r: HeaderMapBuilder)
        ensures
            r@ == Seq::<(Seq<u8>, Seq<u8>)>::empty(),
    {
        HeaderMapBuilder { entries: Vec::new() }
    }

    /// Appends an entry; an already-present name is kept as a separate,
    /// earlier entry.
    pub fn assoc(&mut self, name: Vec<u8>, value: Vec<u8>)
        ensures
            final(self)@ == old(self)@.push((name@, value@)),
    {
        let ghost old_view = self@;
        self.entries.push((name, value));
        proof {
            assert(self@ =~~= old_view.push((name@, value@)));
        }
    }

    /// The immutable map holding the accumulated entries, in order.
    pub fn build(self) -> (r: HeaderMap)
        ensures
            r@ == self@,
    {
        HeaderMap { entries: self.entries }
    }
}

impl Default for HeaderMapBuilder {
    /// An empty builder.
    fn default() -> (r: HeaderMapBuilder)
        ensures
            r@ == Seq::<(Seq<u8>, Seq<u8>)>::empty(),
    {
        HeaderMapBuilder::new()
    }
}

// ---------------------------------------------------------------------------
// Typed headers.
// ---------------------------------------------------------------------------
/// A header with a fixed name.
pub trait ToHeaderName {
    /// The header's name.
    spec fn spec_header_name() -> Seq<u8>;

    /// The header's name.
    fn header_name() -> (r: Vec<u8>)
        ensures
            r@ == Self::spec_header_name(),
    ;
}

/// A header whose value can be written to the wire.
pub trait IntoHeaderValue: Sized {
    /// The wire form of the value.
    spec fn spec_header_value(&self) -> Seq<u8>;

    /// The wire form of the value.
    fn into_header_value(self) -> (r: Vec<u8>)
        ensures
            r@ == self.spec_header_value(),
    ;
}

/// A header whose value can be read from the wire.
pub trait FromHeaderValue: DeepView + Sized {
    /// What the wire form `v` parses to, if anything.
    spec fn spec_from_value(v: Seq<u8>) -> Option<Self::V>;

    /// Parses the wire form `v`.
    fn from_value(v: &[u8]) -> (r: Option<Self>)
        ensures
            match r {
                Some(x) => Self::spec_from_value(v@) == Some(x.deep_view()),
                None => Self::spec_from_value(v@) is None,
            },
    ;
}

/// What extracting the typed header `V` from `entries` yields: its value
/// looked up by name and parsed.
pub open spec fn spec_extract<V: ToHeaderName + FromHeaderValue>(
    entries: Seq<(Seq<u8>, Seq<u8>)>,
) -> Option<V::V> {
    match lookup(entries, V::spec_header_name()) {
        Some(v) => V::spec_from_value(v),
        None => None,
    }
}

impl HeaderMap {
    /// The typed header `V`, looked up by its name and parsed; `None` when
    /// the header is missing or its value does not parse.
    pub fn extract<V: ToHeaderName + FromHeaderValue>(&self) -> (r: Option<V>)
        ensures
            match r {
                Some(x) => spec_extract::<V>(self@) == Some(x.deep_view()),
                None => spec_extract::<V>(self@) is None,
            },
    {
        let name = V::header_name();
        match self.get(name.as_slice()) {
            Some(v) => V::from_value(v.as_slice()),
            None => None,
        }
    }

    /// A new map where the typed header `H` holds its value: a map with a
    /// matching name gets every matching entry replaced, one without gets
    /// the header appended.
    pub fn insert<H: ToHeaderName + IntoHeaderValue>(&self, header: H) -> (r: HeaderMap)
        ensures
            r@ == insert_entries(self@, H::spec_header_name(), header.spec_header_value()),
    {
        let name = H::header_name();
        let value = header.into_header_value();
        self.insert_pair(name.as_slice(), value.as_slice())
    }
}

impl HeaderMapBuilder {
    /// Appends the typed header `H` as an entry.
    pub fn insert<H: ToHeaderName + IntoHeaderValue>(&mut self, header: H)
        ensures
            final(self)@ == old(self)@.push(
                (H::spec_header_name(), header.spec_header_value()),
            ),
    {
        let name = H::header_name();
        let value = header.into_header_value();
        self.assoc(name, value);
    }
}

// ---------------------------------------------------------------------------
// Accept-Encoding.
// ---------------------------------------------------------------------------
/// Concatenation of `parts` with `sep` between each adjacent pair.
pub open spec fn spec_join(parts: Seq<Seq<u8>>, sep: Seq<u8>) -> Seq<u8>
    decreases parts.len(),
{
    if parts.len() == 0 {
        Seq::empty()
    } else if parts.len() == 1 {
        parts[0]
    } else {
        parts[0] + sep + spec_join(parts.drop_first(), sep)
    }
}

/// Relies on itertools::intersperse: yields the parts with the separator
/// between each adjacent pair, in order.
#[verifier::external_body]
fn join_bytes(parts: &Vec<Vec<u8>>, sep: &[u8]) -> (r: Vec<u8>)
    ensures
        r@ == spec_join(parts.deep_view(), sep@),
{
    itertools::intersperse(parts.iter().map(|p| p.as_slice()), sep).flatten().copied().collect()
}

/// The encodings named by an `Accept-Encoding` value, in client order,
/// de-duplicated by first occurrence: the value splits at commas, each piece
/// loses its leading whitespace, and unknown pieces are dropped.
pub open spec fn spec_parse_accept(v: Seq<u8>) -> Seq<Encoding> {
    spec_accept_encodings(v, 0, Seq::empty())
}

/// The encodings recognized in `v` from `from` on, appended to `acc`.
pub open spec fn spec_accept_encodings(v: Seq<u8>, from: int, acc: Seq<Encoding>) -> Seq<Encoding>
    decreases v.len() - from
    when 0 <= from <= v.len()
    via spec_accept_encodings_dec
{
    match spec_find_byte(v, from, 44) {
        None => spec_accept_step(acc, v.subrange(from, v.len() as int)),
        Some(i) => spec_accept_encodings(v, i + 1, spec_accept_step(acc, v.subrange(from, i))),
    }
}

#[via_fn]
proof fn spec_accept_encodings_dec(v: Seq<u8>, from: int, acc: Seq<Encoding>) {
    crate::text::lemma_find_byte(v, from, 44);
}

/// One piece of an `Accept-Encoding` value folded into the accumulated
/// list: leading whitespace dropped, the token parsed, a recognized and
/// new encoding appended.
pub open spec fn spec_accept_step(acc: Seq<Encoding>, piece: Seq<u8>) -> Seq<Encoding> {
    let token = piece.subrange(spec_skip_ws(piece, 0), piece.len() as int);
    match spec_parse_encoding(token) {
        Some(e) => if acc.contains(e) {
            acc
        } else {
            acc.push(e)
        },
        None => acc,
    }
}

/// The first of `list` that `sup` holds, if any.
pub open spec fn spec_select(list: Seq<Encoding>, sup: EncodingSet) -> Option<Encoding>
    decreases list.len(),
{
    if list.len() == 0 {
        None
    } else if sup.spec_contains(list[0]) {
        Some(list[0])
    } else {
        spec_select(list.drop_first(), sup)
    }
}

/// A list with no supported encoding selects none: negotiation over only
/// unsupported encodings yields no encoding at all.
pub proof fn lemma_select_unsupported(list: Seq<Encoding>, sup: EncodingSet)
    requires
        forall|e: Encoding| list.contains(e) ==> !sup.spec_contains(e),
    ensures
        spec_select(list, sup) is None,
    decreases list.len(),
{
    if list.len() > 0 {
        assert(list.contains(list[0]));
        assert forall|e: Encoding| list.drop_first().contains(e) implies !sup.spec_contains(
            e,
        ) by {
            let i = choose|i: int| 0 <= i < list.drop_first().len() && list.drop_first()[i] == e;
            assert(list[i + 1] == e);
        }
        lemma_select_unsupported(list.drop_first(), sup);
    }
}

/// The encodings a client accepts, in its order of preference.
#[derive(Debug, Default)]
pub struct AcceptEncoding(pub Vec<Encoding>);

impl View for AcceptEncoding {
    type V = Seq<Encoding>;

    open spec fn view(&self) -> Seq<Encoding> {
        self.0@
    }
}

impl DeepView for AcceptEncoding {
    type V = Seq<Encoding>;

    open spec fn deep_view(&self) -> Seq<Encoding> {
        self.0@
    }
}

/// Whether `v` holds `e`.
fn encodings_contain(v: &Vec<Encoding>, e: Encoding) -> (r: bool)
    ensures
        r == v@.contains(e),
{
    let mut i: usize = 0;
    while i < v.len()
        invariant
            0 <= i <= v@.len(),
            forall|j: int| 0 <= j < i ==> v@[j] != e,
        decreases v@.len() - i,
    {
        if v[i] == e {
            assert(v@.contains(e));
            return true;
        }
        i = i + 1;
    }
    false
}

impl AcceptEncoding {
    /// Parses an `Accept-Encoding` value: pieces split at commas, leading
    /// whitespace dropped, unknown pieces silently dropped, duplicates kept
    /// once, client order preserved.
    pub fn parse(value: &[u8]) -> (r: AcceptEncoding)
        ensures
            r@ == spec_parse_accept(value@),
    {
        let n = value.len();
        let mut encs: Vec<Encoding> = Vec::new();
        let mut from: usize = 0;
        loop
            invariant_except_break
                spec_accept_encodings(value@, from as int, encs@) == spec_parse_accept(value@),
            invariant
                0 <= from <= n,
                n == value@.len(),
            ensures
                encs@ == spec_parse_accept(value@),
            decreases n - from,
        {
            let (piece_end, next) = match find_byte(value, from, 44) {
                Some(i) => (i, Some(i + 1)),
                None => (n, None),
            };
            let piece = slice_subrange(value, from, piece_end);
            let token_start = skip_whitespace(piece, 0);
            let token = slice_subrange(piece, token_start, piece.len());
            let ghost old_encs = encs@;
            match Encoding::parse(token) {
                Some(e) => {
                    if !encodings_contain(&encs, e) {
                        encs.push(e);
                    }
                },
                None => {},
            }
            proof {
                assert(encs@ == spec_accept_step(old_encs, value@.subrange(
                    from as int,
                    piece_end as int,
                )));
            }
            match next {
                Some(nf) => {
                    from = nf;
                },
                None => {
                    proof {
                        assert(spec_accept_encodings(value@, from as int, old_encs)
                            == spec_accept_step(old_encs, value@.subrange(from as int, n as int)));
                    }
                    break;
                },
            }
        }
        AcceptEncoding(encs)
    }

    /// The first encoding the client accepts that the server supports, if
    /// any; client preference order decides.
    pub fn select(&self, supported: &EncodingSet) -> (r: Option<Encoding>)
        ensures
            r == spec_select(self@, *supported),
    {
        let n = self.0.len();
        let mut i: usize = 0;
        proof {
            assert(self@.subrange(0, n as int) =~= self@);
        }
        while i < n
            invariant
                0 <= i <= n,
                n == self@.len(),
                spec_select(self@, *supported) == spec_select(
                    self@.subrange(i as int, n as int),
                    *supported,
                ),
            decreases n - i,
        {
            proof {
                assert(self@.subrange(i as int, n as int).drop_first() =~= self@.subrange(
                    i + 1,
                    n as int,
                ));
                assert(self@.subrange(i as int, n as int)[0] == self@[i as int]);
            }
            if supported.contains(self.0[i]) {
                return Some(self.0[i]);
            }
            i = i + 1;
        }
        None
    }

    /// The wire form of the list: the tokens joined by `", "`; an empty
    /// list has no wire form.
    pub fn to_header_value(self) -> (r: Option<Vec<u8>>)
        ensures
            match r {
                Some(v) => self@.len() > 0 && v@ == spec_join(
                    self@.map_values(|e: Encoding| spec_token(e)),
                    ", ".spec_bytes(),
                ),
                None => self@.len() == 0,
            },
    {
        if self.0.len() == 0 {
            return None;
        }
        let mut parts: Vec<Vec<u8>> = Vec::new();
        let mut i: usize = 0;
        while i < self.0.len()
            invariant
                0 <= i <= self.0@.len(),
                parts@.len() == i,
                forall|j: int| 0 <= j < i ==> parts.deep_view()[j] == spec_token(self.0@[j]),
            decreases self.0@.len() - i,
        {
            let ghost prev = parts.deep_view();
            parts.push(self.0[i].token());
            proof {
                assert forall|j: int| 0 <= j < i implies parts.deep_view()[j] == prev[j] by {
                    assert(parts@[j] == parts@.drop_last()[j]);
                }
                assert(parts.deep_view()[i as int] == spec_token(self.0@[i as int]));
                assert forall|j: int|
                    0 <= j < i + 1 implies parts.deep_view()[j] == spec_token(self.0@[j]) by {
                    if j < i {
                        assert(parts.deep_view()[j] == prev[j]);
                    }
                }
            }
            i = i + 1;
        }
        proof {
            assert(parts.deep_view() =~~= self@.map_values(|e: Encoding| spec_token(e)));
        }
        Some(join_bytes(&parts, ", ".as_bytes()))
    }
}

impl ToHeaderName for AcceptEncoding {
    open spec fn spec_header_name() -> Seq<u8> {
        accept_encoding_name()
    }

    fn header_name() -> (r: Vec<u8>) {
        accept_encoding_header()
    }
}

impl FromHeaderValue for AcceptEncoding {
    open spec fn spec_from_value(v: Seq<u8>) -> Option<Seq<Encoding>> {
        Some(spec_parse_accept(v))
    }

    fn from_value(v: &[u8]) -> (r: Option<AcceptEncoding>) {
        Some(AcceptEncoding::parse(v))
    }
}

// ---------------------------------------------------------------------------
// Content-Encoding.
// ---------------------------------------------------------------------------
/// The single encoding a response body carries.
#[derive(Debug)]
pub struct ContentEncoding(pub Encoding);

impl View for ContentEncoding {
    type V = Encoding;

    open spec fn view(&self) -> Encoding {
        self.0
    }
}

impl DeepView for ContentEncoding {
    type V = Encoding;

    open spec fn deep_view(&self) -> Encoding {
        self.0
    }
}

impl ToHeaderName for ContentEncoding {
    open spec fn spec_header_name() -> Seq<u8> {
        content_encoding_name()
    }

    fn header_name() -> (r: Vec<u8>) {
        content_encoding_header()
    }
}

impl IntoHeaderValue for ContentEncoding {
    open spec fn spec_header_value(&self) -> Seq<u8> {
        spec_token(self.0)
    }

    fn into_header_value(self) -> (r: Vec<u8>) {
        self.0.token()
    }
}

impl FromHeaderValue for ContentEncoding {
    open spec fn spec_from_value(v: Seq<u8>) -> Option<Encoding> {
        spec_parse_encoding(v)
    }

    fn from_value(v: &[u8]) -> (r: Option<ContentEncoding>) {
        match Encoding::parse(v) {
            Some(e) => Some(ContentEncoding(e)),
            None => None,
        }
    }
}

impl SystemEncoder for ContentEncoding {
    open spec fn encoder_program(&self) -> Option<Seq<u8>> {
        spec_program(self.0)
    }

    open spec fn encoder_args(&self) -> Seq<Seq<u8>> {
        spec_args(self.0)
    }

    fn program(&self) -> (r: Option<&'static str>) {
        self.0.program()
    }

    fn command(&self) -> (r: Option<CodecCommand>) {
        self.0.command()
    }
}

// ---------------------------------------------------------------------------
// Content-Length.
// ---------------------------------------------------------------------------
/// The byte length of a body, in its wire form.
#[derive(Debug)]
pub struct ContentLength(pub Vec<u8>);

impl View for ContentLength {
    type V = Seq<u8>;

    open spec fn view(&self) -> Seq<u8> {
        self.0@
    }
}

impl ContentLength {
    /// The wire form of length `n`: its decimal digits.
    pub fn from_len(n: u64) -> (r: ContentLength)
        ensures
            r@ == crate::text::spec_u64_decimal(n as nat),
    {
        ContentLength(crate::text::u64_to_decimal(n))
    }
}

impl ToHeaderName for ContentLength {
    open spec fn spec_header_name() -> Seq<u8> {
        content_length_name()
    }

    fn header_name() -> (r: Vec<u8>) {
        content_length_header()
    }
}

impl IntoHeaderValue for ContentLength {
    open spec fn spec_header_value(&self) -> Seq<u8> {
        self.0@
    }

    fn into_header_value(self) -> (r: Vec<u8>) {
        self.0
    }
}

} // verus!
