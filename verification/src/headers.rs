use hyper::header::{HeaderMap, HeaderValue};
use vstd::prelude::*;
use vstd::string::StringSliceAdditionalSpecFns;

verus! {

/// The http crate's header map, which Verus sees only through
/// `header_fields`.
#[verifier::external_type_specification]
#[verifier::external_body]
#[verifier::reject_recursive_types(T)]
pub struct ExHeaderMap<T>(HeaderMap<T>);

/// The http crate's header value, which Verus sees only through
/// `header_value_bytes`.
#[verifier::external_type_specification]
#[verifier::external_body]
pub struct ExHeaderValue(HeaderValue);

/// What a header map holds: for each header name it has, in lower case, the
/// value bytes of that name, in the order they were added.
pub uninterp spec fn header_fields(m: HeaderMap) -> Map<Seq<char>, Seq<Seq<u8>>>;

/// The bytes of a header value.
pub uninterp spec fn header_value_bytes(v: HeaderValue) -> Seq<u8>;

/// A header name as the header map keeps it: 1 to 64 characters, each a
/// lower-case ASCII letter, a digit or `-`.
pub open spec fn is_lower_header_name(name: Seq<char>) -> bool {
    &&& 0 < name.len() <= 64
    &&& forall|i: int|
        0 <= i < name.len() ==> ('a' <= #[trigger] name[i] <= 'z' || '0' <= name[i] <= '9'
            || name[i] == '-')
}

/// Bytes the http crate takes as a header value: each a tab, or a byte from
/// the space up other than DEL.
pub open spec fn is_header_value(bytes: Seq<u8>) -> bool {
    forall|i: int| 0 <= i < bytes.len() ==> #[trigger] bytes[i] == 9 || (32 <= bytes[i] && bytes[i] != 127)
}

/// The most names a header map may hold for an insertion into it to be sure
/// to succeed: the map's table grows to at most 2^15 slots, and it may need
/// to double a table of that size once five times the number of names
/// reaches it.
pub const HEADER_NAMES_LIMIT: usize = 6553;

/// The first value of `name` in a header map (`HeaderMap::get`, the value
/// cloned): `None` exactly where the map has no value of that name.
#[verifier::external_body]
pub(crate) fn header_get(m: &HeaderMap, name: &'static str) -> (r: Option<HeaderValue>)
    requires
        is_lower_header_name(name@),
    ensures
        r is Some <==> header_fields(*m).contains_key(name@),
        r matches Some(v) ==> header_value_bytes(v) == header_fields(*m)[name@][0],
{
    m.get(name).cloned()
}

/// Sets `name` to `value` alone in a header map (`HeaderMap::insert`): the
/// values `name` had are dropped. The map then fails only where it holds
/// more names than `HEADER_NAMES_LIMIT`, which is left out.
#[verifier::external_body]
pub(crate) fn header_insert(m: &mut HeaderMap, name: &'static str, value: HeaderValue)
    requires
        is_lower_header_name(name@),
        header_fields(*old(m)).dom().len() <= HEADER_NAMES_LIMIT,
    ensures
        header_fields(*final(m)) == header_fields(*old(m)).insert(
            name@,
            seq![header_value_bytes(value)],
        ),
{
    m.insert(name, value);
}

/// Takes every value of `name` out of a header map (`HeaderMap::remove`).
#[verifier::external_body]
pub(crate) fn header_remove(m: &mut HeaderMap, name: &'static str)
    requires
        is_lower_header_name(name@),
    ensures
        header_fields(*final(m)) == header_fields(*old(m)).remove(name@),
{
    m.remove(name);
}

/// The header value of the bytes of `text` (`HeaderValue::from_str`):
/// `None` exactly where a byte of it is not one a header value may hold.
#[verifier::external_body]
pub(crate) fn header_value_from_str(text: &str) -> (r: Option<HeaderValue>)
    ensures
        r is Some <==> is_header_value(text.spec_bytes()),
        r matches Some(v) ==> header_value_bytes(v) == text.spec_bytes(),
{
    HeaderValue::from_str(text).ok()
}

} // verus!
