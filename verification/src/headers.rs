//! The header map and header values of the `http` crate, as the rest of the
//! library sees them.
//!
//! A header map is modelled by what it holds: for each lowercase header name,
//! the byte strings of its values in the order in which they were added.

use http::header::{HeaderMap, HeaderValue, InvalidHeaderValue};
use vstd::prelude::*;

verus! {

#[verifier::external_type_specification]
#[verifier::external_body]
#[verifier::reject_recursive_types(T)]
pub struct ExHeaderMap<T>(HeaderMap<T>);

#[verifier::external_type_specification]
#[verifier::external_body]
pub struct ExHeaderValue(HeaderValue);

#[verifier::external_type_specification]
#[verifier::external_body]
pub struct ExInvalidHeaderValue(InvalidHeaderValue);

/// For each lowercase header name present, the bytes of its values in order.
pub type HeaderContents = Map<Seq<char>, Seq<Seq<u8>>>;

/// What a header map holds: each header name present, in lowercase, with the
/// bytes of its values in insertion order.
pub uninterp spec fn header_map_contents(m: HeaderMap<HeaderValue>) -> HeaderContents;

/// The bytes that a header value holds.
pub uninterp spec fn header_value_bytes(v: HeaderValue) -> Seq<u8>;

/// A byte that `http` accepts in a header value: visible ASCII, any byte of
/// 128 or more, or a horizontal tab.
pub open spec fn is_header_value_byte(b: u8) -> bool {
    (b >= 32 && b != 127) || b == 9
}

/// A byte string that `http` accepts as a header value.
pub open spec fn is_header_value(bytes: Seq<u8>) -> bool {
    forall|i: int| 0 <= i < bytes.len() ==> #[trigger] is_header_value_byte(bytes[i])
}

/// A character of a lowercase header name as this library writes them.
pub open spec fn is_header_name_char(c: char) -> bool {
    ('a' <= c && c <= 'z') || ('0' <= c && c <= '9') || c == '-'
}

/// A lowercase header name made of letters, digits and hyphens, short enough
/// that `http` looks it up and stores it under exactly this text.
pub open spec fn is_header_name(s: Seq<char>) -> bool {
    &&& 0 < s.len() <= 64
    &&& forall|i: int| 0 <= i < s.len() ==> #[trigger] is_header_name_char(s[i])
}

/// One more than the largest number of distinct names at which a header map
/// can always take one more entry: at 6553 names its table never has to grow
/// past `http`'s maximum size, whatever the hashes.
pub open spec fn header_map_key_limit() -> nat {
    6554
}

/// A header map to which `extra` more distinct names can be added without
/// reaching the limit of `http`'s table.
pub open spec fn has_room_for(contents: HeaderContents, extra: nat) -> bool {
    &&& contents.dom().finite()
    &&& contents.dom().len() + extra <= header_map_key_limit()
}

/// The values held under `name` once `value` has been appended to them.
pub open spec fn appended_values(
    contents: HeaderContents,
    name: Seq<char>,
    value: Seq<u8>,
) -> Seq<Seq<u8>> {
    if contents.dom().contains(name) {
        contents[name].push(value)
    } else {
        seq![value]
    }
}

/// `HeaderMap::new`: an empty map.
#[verifier::external_body]
pub(crate) fn new_header_map() -> (m: HeaderMap<HeaderValue>)
    ensures
        header_map_contents(m) == HeaderContents::empty(),
{
    HeaderMap::new()
}

/// A header map holding finitely many names, `n` of them.
pub open spec fn counts_names(contents: HeaderContents, n: nat) -> bool {
    contents.dom().finite() && contents.dom().len() == n
}

/// `HeaderMap::keys_len`: the number of distinct names the map holds, which
/// the source counts as its entries, one per name.
#[verifier::external_body]
pub(crate) fn header_map_keys_len(m: &HeaderMap<HeaderValue>) -> (n: usize)
    ensures
        counts_names(header_map_contents(*m), n as nat),
{
    m.keys_len()
}

/// Whether `extra` more distinct names can be added to the map without
/// reaching the limit of `http`'s table.
pub fn header_map_has_room(m: &HeaderMap<HeaderValue>, extra: usize) -> (b: bool)
    ensures
        b == has_room_for(header_map_contents(*m), extra as nat),
{
    let n = header_map_keys_len(m);
    n <= 6554 && extra <= 6554 - n
}

/// `HeaderMap::contains_key` with a lowercase name given as text: whether the
/// map holds a value under that name.
#[verifier::external_body]
pub(crate) fn header_map_contains_key(m: &HeaderMap<HeaderValue>, name: &str) -> (b: bool)
    requires
        is_header_name(name@),
    ensures
        b == header_map_contents(*m).dom().contains(name@),
{
    m.contains_key(name)
}

/// `HeaderMap::insert` with a static lowercase name: every value held under
/// the name is replaced by `value`. `http` fails once its table would have to
/// grow past its maximum size; below `header_map_key_limit` distinct names no
/// insertion reaches that point, whatever the hashes, so the limit is
/// required here.
#[verifier::external_body]
pub(crate) fn header_map_insert(m: &mut HeaderMap<HeaderValue>, name: &'static str, value: HeaderValue)
    requires
        is_header_name(name@),
        has_room_for(header_map_contents(*old(m)), 1),
    ensures
        header_map_contents(*final(m)) == header_map_contents(*old(m)).insert(
            name@,
            seq![header_value_bytes(value)],
        ),
{
    m.insert(name, value);
}

/// `HeaderMap::append` with a static lowercase name: `value` is added after
/// the values already held under the name. The size limit is that of
/// `header_map_insert`.
#[verifier::external_body]
pub(crate) fn header_map_append(m: &mut HeaderMap<HeaderValue>, name: &'static str, value: HeaderValue)
    requires
        is_header_name(name@),
        has_room_for(header_map_contents(*old(m)), 1),
    ensures
        header_map_contents(*final(m)) == header_map_contents(*old(m)).insert(
            name@,
            appended_values(header_map_contents(*old(m)), name@, header_value_bytes(value)),
        ),
{
    m.append(name, value);
}

/// `HeaderValue::from_bytes`: succeeds exactly when every byte is accepted in
/// a header value, and then holds those bytes.
#[verifier::external_body]
pub(crate) fn header_value_from_bytes(src: &[u8]) -> (r: Result<HeaderValue, InvalidHeaderValue>)
    ensures
        r is Ok <==> is_header_value(src@),
        r matches Ok(v) ==> header_value_bytes(v) == src@,
{
    HeaderValue::from_bytes(src)
}

/// The values that a header map holds under `name`, none if it holds no such
/// name.
pub open spec fn values_held(contents: HeaderContents, name: Seq<char>) -> Seq<Seq<u8>> {
    if contents.dom().contains(name) {
        contents[name]
    } else {
        Seq::empty()
    }
}

/// Whether the map holds `name`, and every value it holds under it is
/// exactly `value`.
pub open spec fn holds_only(contents: HeaderContents, name: Seq<char>, value: Seq<u8>) -> bool {
    &&& contents.dom().contains(name)
    &&& forall|i: int| 0 <= i < contents[name].len() ==> #[trigger] contents[name][i] == value
}

/// `HeaderMap::get_all` with a lowercase name given as text: the values held
/// under the name, in order, each handed out as its bytes.
#[verifier::external_body]
pub(crate) fn header_map_get_all(m: &HeaderMap<HeaderValue>, name: &str) -> (values: Vec<Vec<u8>>)
    requires
        is_header_name(name@),
    ensures
        values@.len() == values_held(header_map_contents(*m), name@).len() && forall|i: int|
            0 <= i < values@.len() ==> #[trigger] values@[i]@ == values_held(
                header_map_contents(*m),
                name@,
            )[i],
{
    m.get_all(name).iter().map(|v| v.as_bytes().to_vec()).collect()
}

fn bytes_equal(a: &[u8], b: &[u8]) -> (r: bool)
    ensures
        r == (a@ == b@),
{
    if a.len() != b.len() {
        return false;
    }
    let mut i: usize = 0;
    while i < a.len()
        invariant
            a@.len() == b@.len(),
            i <= a@.len(),
            forall|j: int| 0 <= j < i ==> a@[j] == b@[j],
        decreases a@.len() - i,
    {
        if a[i] != b[i] {
            return false;
        }
        i = i + 1;
    }
    assert(a@ =~= b@);
    true
}

/// What a header map holds under a name, measured against one value.
pub enum HeldValues {
    /// The name is not present.
    Absent,
    /// Every value held under the name is the given one.
    Same,
    /// Some value held under the name differs from the given one.
    Different,
}

/// What the map holds under `name`, measured against `value`.
pub open spec fn held_values(contents: HeaderContents, name: Seq<char>, value: Seq<u8>) -> HeldValues {
    if !contents.dom().contains(name) {
        HeldValues::Absent
    } else if holds_only(contents, name, value) {
        HeldValues::Same
    } else {
        HeldValues::Different
    }
}

/// Looks up `name` in the map and compares what it holds with `value`.
pub fn compare_held_values(m: &HeaderMap<HeaderValue>, name: &str, value: &[u8]) -> (h: HeldValues)
    requires
        is_header_name(name@),
    ensures
        h == held_values(header_map_contents(*m), name@, value@),
{
    if !header_map_contains_key(m, name) {
        return HeldValues::Absent;
    }
    let values = header_map_get_all(m, name);
    let ghost held = header_map_contents(*m)[name@];
    let mut i: usize = 0;
    while i < values.len()
        invariant
            values@.len() == held.len(),
            held == header_map_contents(*m)[name@],
            header_map_contents(*m).dom().contains(name@),
            forall|j: int| 0 <= j < values@.len() ==> #[trigger] values@[j]@ == held[j],
            i <= values@.len(),
            forall|j: int| 0 <= j < i ==> #[trigger] held[j] == value@,
        decreases values@.len() - i,
    {
        if !bytes_equal(values[i].as_slice(), value) {
            assert(values@[i as int]@ == held[i as int]);
            return HeldValues::Different;
        }
        i = i + 1;
    }
    HeldValues::Same
}

} // verus!
