//! HTTP header maps, held by the `http` crate and described by their entries.

use http::{HeaderMap, HeaderName, HeaderValue};
use vstd::prelude::*;

use crate::text;

verus! {

/// The multimap `http::HeaderMap`.
#[verifier::external_type_specification]
#[verifier::external_body]
#[verifier::reject_recursive_types(T)]
pub struct ExHeaderMap<T>(http::HeaderMap<T>);

/// The header value `http::HeaderValue`.
#[verifier::external_type_specification]
#[verifier::external_body]
pub struct ExHeaderValue(http::HeaderValue);

/// The header name `http::HeaderName`.
#[verifier::external_type_specification]
#[verifier::external_body]
pub struct ExHeaderName(http::HeaderName);

/// The text of a header name, as `http::HeaderName::as_str` gives it.
pub uninterp spec fn name_text(name: http::HeaderName) -> Seq<char>;

/// One header: its name in lower case, its value, and whether the value is
/// sensitive.
pub type Entry = (Seq<char>, Seq<u8>, bool);

/// The headers of a map in the order in which `http::HeaderMap::iter` visits
/// them. A name with several values occurs once for each value.
pub uninterp spec fn entries(map: http::HeaderMap<http::HeaderValue>) -> Seq<
    (Seq<char>, Seq<u8>, bool),
>;

/// The most headers that a map may hold for another one to be added. Below this
/// number the table of `http::HeaderMap` never has to grow past its own limit.
pub const MAX_HEADERS: usize = 6_553;

/// Whether some header has this name, given in lower case.
pub open spec fn has_name(headers: Seq<Entry>, name: Seq<char>) -> bool {
    exists|i: int| 0 <= i < headers.len() && (#[trigger] headers[i]).0 == name
}

/// The headers with this name, in order.
pub open spec fn of_name(headers: Seq<Entry>, name: Seq<char>) -> Seq<Entry>
    decreases headers.len(),
{
    if headers.len() == 0 {
        seq![]
    } else {
        let before = of_name(headers.drop_last(), name);
        if headers.last().0 == name {
            before.push(headers.last())
        } else {
            before
        }
    }
}

/// The headers with another name.
pub open spec fn without(headers: Seq<Entry>, name: Seq<char>) -> Seq<Entry> {
    headers.filter(|e: Entry| e.0 != name)
}

/// The headers with `entry` in place of all headers of its name: where the
/// first of them stood, or at the end where there was none.
pub open spec fn replaced(headers: Seq<Entry>, entry: Entry) -> Seq<Entry>
    decreases headers.len(),
{
    if headers.len() == 0 {
        seq![entry]
    } else if headers[0].0 == entry.0 {
        seq![entry] + without(headers.drop_first(), entry.0)
    } else {
        seq![headers[0]] + replaced(headers.drop_first(), entry)
    }
}

/// A character that a header name may hold.
pub open spec fn is_name_char(c: char) -> bool {
    ||| '0' <= c <= '9'
    ||| 'A' <= c <= 'Z'
    ||| 'a' <= c <= 'z'
    ||| c == '!'
    ||| '#' <= c <= '\''
    ||| c == '*'
    ||| c == '+'
    ||| c == '-'
    ||| c == '.'
    ||| '^' <= c <= '`'
    ||| c == '|'
    ||| c == '~'
}

/// A byte that a header value may hold: anything but control characters, and
/// the tab.
pub open spec fn is_value_byte(b: u8) -> bool {
    b >= 32 && b != 127 || b == 9
}

/// Whether the characters make a header name.
pub open spec fn is_name(name: Seq<char>) -> bool {
    1 <= name.len() <= 65_535 && forall|i: int| 0 <= i < name.len() ==> is_name_char(name[i])
}

/// Whether the bytes make a header value.
pub open spec fn is_value(value: Seq<u8>) -> bool {
    forall|i: int| 0 <= i < value.len() ==> is_value_byte(value[i])
}

/// A header name holds every visible ASCII character but the separators. A value
/// holds every byte but the control characters, and of these the tab.
pub proof fn names_and_values_leave_out(c: char, b: u8, name: Seq<char>, value: Seq<u8>)
    ensures
        is_name(seq![c]) == ('!' <= c <= '~' && c != '"' && c != '(' && c != ')' && c != ','
            && c != '/' && c != ':' && c != ';' && c != '<' && c != '=' && c != '>' && c != '?'
            && c != '@' && c != '[' && c != '\\' && c != ']' && c != '{' && c != '}'),
        is_value(seq![b]) == !(b == 127 || b < 9 || 9 < b < 32),
        name.len() > 0 && is_name(name.push(c)) ==> is_name(name) && is_name(seq![c]),
        name.len() < 65_535 && is_name(name) && is_name(seq![c]) ==> is_name(name.push(c)),
        is_value(value.push(b)) == (is_value(value) && is_value(seq![b])),
        is_value(seq![]),
        !is_name(seq![]),
{
    let (one, byte) = (seq![c], seq![b]);
    assert(one[0] == c && byte[0] == b);
    let (longer, more) = (name.push(c), value.push(b));
    assert(longer[name.len() as int] == c && more[value.len() as int] == b);
    assert(forall|i: int| 0 <= i < name.len() ==> longer[i] == name[i]);
    assert(forall|i: int| 0 <= i < value.len() ==> more[i] == value[i]);
}

/// Whether a header name may hold the character.
pub fn name_char(c: char) -> (r: bool)
    ensures
        r == is_name_char(c),
{
    ('0' <= c && c <= '9') || ('A' <= c && c <= 'Z') || ('a' <= c && c <= 'z') || c == '!' || ('#'
        <= c && c <= '\'') || c == '*' || c == '+' || c == '-' || c == '.' || ('^' <= c && c <= '`')
        || c == '|' || c == '~'
}

/// Whether a text is a header name.
pub fn is_header_name(name: &str) -> (r: bool)
    ensures
        r == is_name(name@),
{
    let chars = text::chars_of(name);
    if chars.len() == 0 || chars.len() > 65_535 {
        return false;
    }
    let mut i: usize = 0;
    while i < chars.len()
        invariant
            i <= chars@.len(),
            chars@ == name@,
            forall|j: int| 0 <= j < i ==> is_name_char(name@[j]),
        decreases chars@.len() - i,
    {
        if !name_char(chars[i]) {
            assert(!is_name_char(name@[i as int]));
            return false;
        }
        i = i + 1;
    }
    true
}

/// Whether the bytes make a header value.
pub fn is_header_value(value: &[u8]) -> (r: bool)
    ensures
        r == is_value(value@),
{
    let mut i: usize = 0;
    while i < value.len()
        invariant
            i <= value@.len(),
            forall|j: int| 0 <= j < i ==> is_value_byte(value@[j]),
        decreases value@.len() - i,
    {
        let b: u8 = value[i];
        if !(b >= 32 && b != 127 || b == 9) {
            assert(!is_value_byte(value@[i as int]));
            return false;
        }
        i = i + 1;
    }
    true
}

/// `http::HeaderMap::new`: a map without headers.
#[verifier::external_body]
pub(crate) fn new_map() -> (map: HeaderMap<HeaderValue>)
    ensures
        entries(map) == Seq::<Entry>::empty(),
{
    HeaderMap::new()
}

/// `http::HeaderMap::len`: how many headers the map holds, each value counted.
#[verifier::external_body]
pub(crate) fn count(map: &HeaderMap<HeaderValue>) -> (n: usize)
    ensures
        n == entries(*map).len(),
{
    map.len()
}

/// `http::HeaderMap::clone`: a map with the same headers in the same order.
#[verifier::external_body]
pub(crate) fn copy_map(map: &HeaderMap<HeaderValue>) -> (copy: HeaderMap<HeaderValue>)
    ensures
        entries(copy) == entries(*map),
{
    map.clone()
}

/// `http::HeaderName::from_bytes`: the name with this text, in lower case. The
/// call accepts exactly the texts that `requires` admits.
#[verifier::external_body]
pub(crate) fn parse_name(name: &str) -> (r: HeaderName)
    requires
        is_name(name@),
    ensures
        name_text(r) == text::lower_text(name@),
{
    HeaderName::from_bytes(name.as_bytes()).unwrap()
}

/// `http::HeaderMap::contains_key`: whether some header has this name. Two names
/// are the same where their texts are.
#[verifier::external_body]
pub(crate) fn contains(map: &HeaderMap<HeaderValue>, name: &HeaderName) -> (r: bool)
    ensures
        r == has_name(entries(*map), name_text(*name)),
{
    map.contains_key(name)
}

/// `http::HeaderMap::insert`: the value replaces all values of the name, in the
/// place of the first, or is added at the end. The call panics on a full map;
/// `requires` keeps far away from that.
#[verifier::external_body]
pub(crate) fn insert(
    map: &mut HeaderMap<HeaderValue>,
    name: HeaderName,
    value: &[u8],
    sensitive: bool,
)
    requires
        is_value(value@),
        entries(*old(map)).len() <= MAX_HEADERS,
    ensures
        entries(*final(map)) == replaced(
            entries(*old(map)),
            (name_text(name), value@, sensitive),
        ),
{
    let mut value = HeaderValue::from_bytes(value).unwrap();
    value.set_sensitive(sensitive);
    map.insert(name, value);
}

/// The headers with `entry` behind the last header of its name, or at the end
/// where there is none.
pub open spec fn appended(headers: Seq<Entry>, entry: Entry) -> Seq<Entry>
    decreases headers.len(),
{
    if !has_name(headers, entry.0) || headers.last().0 == entry.0 {
        headers.push(entry)
    } else {
        appended(headers.drop_last(), entry).push(headers.last())
    }
}

/// `http::HeaderMap::append`: the value is added behind the other values of the
/// name, or at the end. The call panics on a full map; `requires` keeps far away
/// from that.
#[verifier::external_body]
pub(crate) fn append(
    map: &mut HeaderMap<HeaderValue>,
    name: &HeaderName,
    value: &[u8],
    sensitive: bool,
)
    requires
        is_value(value@),
        entries(*old(map)).len() <= MAX_HEADERS,
    ensures
        entries(*final(map)) == appended(
            entries(*old(map)),
            (name_text(*name), value@, sensitive),
        ),
{
    let mut value = HeaderValue::from_bytes(value).unwrap();
    value.set_sensitive(sensitive);
    map.append(name, value);
}

/// Appending a header adds exactly one.
pub proof fn appended_len(headers: Seq<Entry>, entry: Entry)
    ensures
        appended(headers, entry).len() == headers.len() + 1,
    decreases headers.len(),
{
    if has_name(headers, entry.0) && headers.last().0 != entry.0 {
        appended_len(headers.drop_last(), entry);
    }
}

/// The headers of a name after another header was added: the values of its own
/// name with the new one behind them, those of every other name as before.
pub proof fn appended_of_name(headers: Seq<Entry>, entry: Entry, name: Seq<char>)
    ensures
        of_name(appended(headers, entry), name) == (if entry.0 == name {
            of_name(headers, name).push(entry)
        } else {
            of_name(headers, name)
        }),
    decreases headers.len(),
{
    if !has_name(headers, entry.0) || headers.last().0 == entry.0 {
        assert(headers.push(entry).drop_last() =~= headers);
    } else {
        appended_of_name(headers.drop_last(), entry, name);
        let before = appended(headers.drop_last(), entry);
        assert(before.push(headers.last()).drop_last() =~= before);
    }
}

/// Whether a name occurs shows in the headers of that name.
pub proof fn name_occurs(headers: Seq<Entry>, name: Seq<char>)
    ensures
        has_name(headers, name) == (of_name(headers, name).len() > 0),
    decreases headers.len(),
{
    if headers.len() > 0 {
        let rest = headers.drop_last();
        name_occurs(rest, name);
        if has_name(rest, name) {
            let i = choose|i: int| 0 <= i < rest.len() && (#[trigger] rest[i]).0 == name;
            assert(headers[i].0 == name);
        }
        if headers.last().0 == name {
            assert(headers[headers.len() - 1].0 == name);
        } else if has_name(headers, name) {
            let i = choose|i: int| 0 <= i < headers.len() && (#[trigger] headers[i]).0 == name;
            assert(rest[i].0 == name);
        }
    }
}

proof fn lemma_of_name_of_sum(a: Seq<Entry>, b: Seq<Entry>, name: Seq<char>)
    ensures
        of_name(a + b, name) == of_name(a, name) + of_name(b, name),
    decreases b.len(),
{
    if b.len() == 0 {
        assert(a + b =~= a);
        assert(of_name(a, name) + of_name(b, name) =~= of_name(a, name));
    } else {
        lemma_of_name_of_sum(a, b.drop_last(), name);
        assert((a + b).drop_last() =~= a + b.drop_last());
        assert((a + b).last() == b.last());
        let (left, right) = (of_name(a, name), of_name(b.drop_last(), name));
        assert((left + right).push(b.last()) =~= left + right.push(b.last()));
    }
}

proof fn lemma_of_name_of_one(entry: Entry, name: Seq<char>)
    ensures
        of_name(seq![entry], name) == (if entry.0 == name {
            seq![entry]
        } else {
            seq![]
        }),
{
    reveal_with_fuel(of_name, 2);
    assert(seq![entry].drop_last() =~= Seq::<Entry>::empty());
    assert(Seq::<Entry>::empty().push(entry) =~= seq![entry]);
}

proof fn lemma_without_of_name(headers: Seq<Entry>, other: Seq<char>, name: Seq<char>)
    requires
        name != other,
    ensures
        of_name(without(headers, other), name) == of_name(headers, name),
    decreases headers.len(),
{
    reveal(Seq::filter);
    if headers.len() > 0 {
        lemma_without_of_name(headers.drop_last(), other, name);
        let before = without(headers.drop_last(), other);
        assert(before.push(headers.last()).drop_last() =~= before);
    }
}

proof fn lemma_without_of_same(headers: Seq<Entry>, name: Seq<char>)
    ensures
        of_name(without(headers, name), name).len() == 0,
    decreases headers.len(),
{
    reveal(Seq::filter);
    if headers.len() > 0 {
        lemma_without_of_same(headers.drop_last(), name);
        let before = without(headers.drop_last(), name);
        assert(before.push(headers.last()).drop_last() =~= before);
    }
}

/// Replacing a header leaves those of every other name as they are.
pub proof fn replaced_of_name(headers: Seq<Entry>, entry: Entry, name: Seq<char>)
    requires
        name != entry.0,
    ensures
        of_name(replaced(headers, entry), name) == of_name(headers, name),
    decreases headers.len(),
{
    lemma_of_name_of_one(entry, name);
    if headers.len() > 0 {
        let first = seq![headers[0]];
        let rest = headers.drop_first();
        assert(headers =~= first + rest);
        lemma_of_name_of_one(headers[0], name);
        lemma_of_name_of_sum(first, rest, name);
        if headers[0].0 == entry.0 {
            lemma_of_name_of_sum(seq![entry], without(rest, entry.0), name);
            lemma_without_of_name(rest, entry.0, name);
        } else {
            lemma_of_name_of_sum(first, replaced(rest, entry), name);
            replaced_of_name(rest, entry, name);
        }
    }
}

/// A header: its name, the bytes of its value, and whether these are sensitive.
#[derive(Debug)]
pub struct Header {
    pub name: HeaderName,
    pub value: Vec<u8>,
    pub sensitive: bool,
}

impl View for Header {
    type V = Entry;

    open spec fn view(&self) -> Entry {
        (name_text(self.name), self.value@, self.sensitive)
    }
}

/// The headers as their entries.
pub open spec fn views(headers: Seq<Header>) -> Seq<Entry> {
    headers.map_values(|h: Header| h@)
}

/// `http::HeaderMap::iter`: all headers in order. Each one has a valid value.
#[verifier::external_body]
pub(crate) fn list(map: &HeaderMap<HeaderValue>) -> (r: Vec<Header>)
    ensures
        views(r@) == entries(*map),
        forall|i: int|
            0 <= i < r@.len() ==> is_value((#[trigger] r@[i]).value@),
{
    let header = |(name, value): (&HeaderName, &HeaderValue)| Header {
        name: name.clone(),
        value: value.as_bytes().to_vec(),
        sensitive: value.is_sensitive(),
    };
    map.iter().map(header).collect()
}

/// A map that holds the given headers, where later ones replace earlier ones
/// of the same name.
pub open spec fn built(headers: Seq<(Seq<char>, Seq<u8>)>) -> Seq<Entry>
    decreases headers.len(),
{
    if headers.len() == 0 {
        seq![]
    } else {
        replaced(
            built(headers.drop_last()),
            (text::lower_text(headers.last().0), headers.last().1, false),
        )
    }
}

/// Replacing a header adds at most one.
pub proof fn replaced_len(headers: Seq<Entry>, entry: Entry)
    ensures
        1 <= replaced(headers, entry).len() <= headers.len() + 1,
    decreases headers.len(),
{
    if headers.len() > 0 {
        if headers[0].0 == entry.0 {
            headers.drop_first().lemma_filter_len(|e: Entry| e.0 != entry.0);
        } else {
            replaced_len(headers.drop_first(), entry);
        }
    }
}

/// A header that was just set is found, and is the only one of its name.
pub proof fn replaced_holds_one(headers: Seq<Entry>, entry: Entry)
    ensures
        of_name(replaced(headers, entry), entry.0) == seq![entry],
        has_name(replaced(headers, entry), entry.0),
        forall|i: int|
            0 <= i < replaced(headers, entry).len() && (#[trigger] replaced(headers, entry)[i]).0
                == entry.0 ==> replaced(headers, entry)[i] == entry,
    decreases headers.len(),
{
    let all = replaced(headers, entry);
    lemma_of_name_of_one(entry, entry.0);
    if headers.len() == 0 {
        assert(all[0].0 == entry.0);
    } else if headers[0].0 == entry.0 {
        assert(all[0].0 == entry.0);
        let rest = headers.drop_first();
        lemma_of_name_of_sum(seq![entry], without(rest, entry.0), entry.0);
        lemma_without_of_same(rest, entry.0);
        let other = |e: Entry| e.0 != entry.0;
        assert forall|i: int| 0 <= i < all.len() && (#[trigger] all[i]).0 == entry.0 implies all[i]
            == entry by {
            if i > 0 {
                rest.lemma_filter_pred(other, i - 1);
                assert(all[i] == without(rest, entry.0)[i - 1]);
            }
        }
    } else {
        let rest = replaced(headers.drop_first(), entry);
        replaced_holds_one(headers.drop_first(), entry);
        lemma_of_name_of_one(headers[0], entry.0);
        lemma_of_name_of_sum(seq![headers[0]], rest, entry.0);
        let at = choose|i: int| 0 <= i < rest.len() && (#[trigger] rest[i]).0 == entry.0;
        assert(all[at + 1] == rest[at]);
        assert forall|i: int| 0 <= i < all.len() && (#[trigger] all[i]).0 == entry.0 implies all[i]
            == entry by {
            if i > 0 {
                assert(all[i] == rest[i - 1]);
            }
        }
    }
}

/// Setting a header of a name that is not there yet adds it at the end.
pub proof fn replaced_when_absent(headers: Seq<Entry>, entry: Entry)
    requires
        !has_name(headers, entry.0),
    ensures
        replaced(headers, entry) == headers.push(entry),
    decreases headers.len(),
{
    if headers.len() > 0 {
        let rest = headers.drop_first();
        assert(headers[0].0 != entry.0);
        assert(!has_name(rest, entry.0)) by {
            if has_name(rest, entry.0) {
                let i = choose|i: int| 0 <= i < rest.len() && (#[trigger] rest[i]).0 == entry.0;
                assert(headers[i + 1].0 == entry.0);
            }
        }
        replaced_when_absent(rest, entry);
        assert(seq![headers[0]] + rest.push(entry) =~= headers.push(entry));
    } else {
        assert(seq![entry] =~= headers.push(entry));
    }
}

} // verus!
