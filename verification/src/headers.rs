//! The headers of a reply.

use vstd::prelude::*;
use crate::text;

verus! {

/// The headers of a reply, as `reqwest` holds them.
#[verifier::external_type_specification]
#[verifier::external_body]
#[verifier::reject_recursive_types(T)]
pub struct ExHeaderMap<T>(reqwest::header::HeaderMap<T>);

/// A header's value.
#[verifier::external_type_specification]
#[verifier::external_body]
pub struct ExHeaderValue(reqwest::header::HeaderValue);

/// The headers of a reply: the lower-case name of each with the bytes of its first value.
pub uninterp spec fn header_map(headers: reqwest::header::HeaderMap) -> Map<Seq<char>, Seq<u8>>;

/// `reqwest::header::HeaderMap::get`: the first value under a name, in whatever case the name
/// is written.
#[verifier::external_body]
fn header_bytes(headers: &reqwest::header::HeaderMap, name: &str) -> (r: Option<Vec<u8>>)
    ensures
        match r {
            Some(bytes) => header_map(*headers).contains_pair(text::lowered(name@), bytes@),
            None => !header_map(*headers).contains_key(text::lowered(name@)),
        },
{
    headers.get(name).map(|v| v.as_bytes().to_vec())
}

/// Whether a byte of a header's value can be shown as a character: visible ASCII, a space or
/// a tab.
pub open spec fn showable(b: u8) -> bool {
    32 <= b < 127 || b == 9
}

/// The text of a header's value, if all of it can be shown.
pub open spec fn shown(bytes: Seq<u8>) -> Option<Seq<char>> {
    if forall|i: int| 0 <= i < bytes.len() ==> showable(#[trigger] bytes[i]) {
        Some(bytes.map_values(|b: u8| b as char))
    } else {
        None
    }
}

/// A header of a reply.
#[derive(Debug)]
pub enum Header {
    Absent,
    /// The header is there, but cannot be shown as text.
    Unreadable,
    Value(String),
}

/// What a [`Header`] stands for.
pub enum HeaderModel {
    Absent,
    Unreadable,
    Value(Seq<char>),
}

impl View for Header {
    type V = HeaderModel;

    open spec fn view(&self) -> HeaderModel {
        match *self {
            Header::Absent => HeaderModel::Absent,
            Header::Unreadable => HeaderModel::Unreadable,
            Header::Value(s) => HeaderModel::Value(s@),
        }
    }
}

/// The header with these bytes as its value.
pub open spec fn header_with(bytes: Option<Seq<u8>>) -> HeaderModel {
    match bytes {
        Some(b) => match shown(b) {
            Some(s) => HeaderModel::Value(s),
            None => HeaderModel::Unreadable,
        },
        None => HeaderModel::Absent,
    }
}

/// The header under a name.
pub open spec fn header_of(headers: Map<Seq<char>, Seq<u8>>, name: Seq<char>) -> HeaderModel {
    if headers.contains_key(text::lowered(name)) {
        header_with(Some(headers[text::lowered(name)]))
    } else {
        HeaderModel::Absent
    }
}

/// The text of the header under a name, if it is there and can be shown.
pub open spec fn header_text(headers: Map<Seq<char>, Seq<u8>>, name: Seq<char>) -> Option<Seq<char>> {
    match header_of(headers, name) {
        HeaderModel::Value(s) => Some(s),
        _ => None,
    }
}

/// The header with these bytes as its value.
pub fn read_header(bytes: Option<Vec<u8>>) -> (r: Header)
    ensures
        r@ == header_with(
            match bytes {
                Some(b) => Some(b@),
                None => None,
            },
        ),
{
    let content = match bytes {
        Some(content) => content,
        None => return Header::Absent,
    };
    let mut s = String::new();
    let mut i: usize = 0;
    while i < content.len()
        invariant
            i <= content@.len(),
            bytes == Some(content),
            forall|k: int| 0 <= k < i ==> showable(#[trigger] content@[k]),
            s@ == content@.take(i as int).map_values(|b: u8| b as char),
        decreases content@.len() - i,
    {
        let b: u8 = content[i];
        if !((32 <= b && b < 127) || b == 9) {
            proof {
                assert(!showable(content@[i as int]));
            }
            return Header::Unreadable;
        }
        s.push(b as char);
        proof {
            assert(s@ =~= content@.take(i + 1).map_values(|b: u8| b as char));
        }
        i = i + 1;
    }
    proof {
        assert(content@.take(i as int) =~= content@);
    }
    Header::Value(s)
}

/// The header under a name.
pub fn header(headers: &reqwest::header::HeaderMap, name: &str) -> (r: Header)
    ensures
        r@ == header_of(header_map(*headers), name@),
{
    read_header(header_bytes(headers, name))
}

/// The text of the header under a name, if it is there and can be shown.
pub fn header_value(headers: &reqwest::header::HeaderMap, name: &str) -> (r: Option<String>)
    ensures
        text::option_view(r) == header_text(header_map(*headers), name@),
{
    match header(headers, name) {
        Header::Value(s) => Some(s),
        Header::Unreadable => None,
        Header::Absent => None,
    }
}

/// A header is found in whatever case its name is written, and only under its name.
pub proof fn law_header_names_have_no_case(headers: Map<Seq<char>, Seq<u8>>, name: Seq<char>, other: Seq<char>)
    requires
        text::lowered(name) == text::lowered(other),
    ensures
        header_of(headers, name) == header_of(headers, other),
        header_of(headers, name) == header_of(headers, text::lowered(name)),
        header_of(headers, name) is Absent <==> !headers.contains_key(text::lowered(name)),
{
    text::law_lowered(name);
    assert(text::lowered(text::lowered(name)) =~= text::lowered(name));
}

/// A header is shown character for character where all of it is visible ASCII, a space or a tab,
/// and not at all where any of it is not. An empty one is there, with an empty text.
pub proof fn law_shown(bytes: Seq<u8>)
    ensures
        shown(bytes) is Some <==> forall|i: int|
            0 <= i < bytes.len() ==> (' ' as u8 <= #[trigger] bytes[i] <= '~' as u8 || bytes[i] == '\t' as u8),
        shown(bytes) matches Some(s) ==> s.len() == bytes.len() && forall|i: int|
            0 <= i < bytes.len() ==> s[i] as int == #[trigger] bytes[i] as int,
        shown(Seq::empty()) == Some(Seq::<char>::empty()),
{
    if shown(bytes) is Some {
        assert forall|i: int| 0 <= i < bytes.len() implies (' ' as u8 <= #[trigger] bytes[i] <= '~' as u8 || bytes[i]
            == '\t' as u8) by {
            assert(showable(bytes[i]));
        }
    }
    assert(Seq::<u8>::empty().map_values(|b: u8| b as char) =~= Seq::<char>::empty());
}

/// A header that is missing and one that cannot be shown have no text, and any other has.
pub proof fn law_header_text(headers: Map<Seq<char>, Seq<u8>>, name: Seq<char>)
    ensures
        header_text(headers, name) is Some <==> headers.contains_key(text::lowered(name)) && shown(
            headers[text::lowered(name)],
        ) is Some,
        header_text(headers, name) matches Some(s) ==> shown(headers[text::lowered(name)]) == Some(s),
        header_of(headers, name) is Unreadable <==> headers.contains_key(text::lowered(name)) && shown(
            headers[text::lowered(name)],
        ) is None,
{
}

} // verus!
