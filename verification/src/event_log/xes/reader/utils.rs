use vstd::prelude::*;

use quick_xml::events::BytesStart;
use vstd::string::StringSliceAdditionalSpecFns;
use vstd::utf8::{decode_utf8, valid_utf8};

use chrono::{DateTime, Utc};

use crate::event_log::standard_lifecycle::{lemma_lifecycle_names_distinct, lifecycle_name, same_text, XesStandardLifecycle};
use crate::event_log::xes::xes_event_log::EventPayloadValue;
use crate::event_log::xes::xes_event_log_writer::{
    BOOLEAN_TAG_NAME_STR, DATE_TAG_NAME_STR, FALSE_STR, INT_TAG_NAME_STR, STRING_TAG_NAME_STR, TRUE_STR,
};
use crate::utils::decimal::{parse_i64, parsed_i64};
use crate::utils::xml_utils::string_from_utf8;

verus! {

/// A key and a value, each when present.
pub struct KeyValuePair<TKey, TValue> {
    pub key: Option<TKey>,
    pub value: Option<TValue>,
}

/// The bytes of the name of the attribute that holds an XES key.
pub open spec fn key_attr_name() -> Seq<u8> {
    seq![107u8, 101u8, 121u8]
}

/// The bytes of the name of the attribute that holds an XES value.
pub open spec fn value_attr_name() -> Seq<u8> {
    seq![118u8, 97u8, 108u8, 117u8, 101u8]
}

/// An attribute as raw bytes: its name and its value, or `None` where it could not be read.
pub type RawAttribute = Option<(Vec<u8>, Vec<u8>)>;

/// The view of a raw attribute.
pub open spec fn raw_view(a: RawAttribute) -> Option<(Seq<u8>, Seq<u8>)> {
    match a {
        Some((k, v)) => Some((k@, v@)),
        None => None,
    }
}

/// The key and the value that the attributes give, read in order: each
/// readable `key` or `value` attribute whose value is valid UTF-8 sets the
/// key or the value, later ones replacing earlier ones; the rest are skipped.
pub open spec fn key_value_spec(attrs: Seq<Option<(Seq<u8>, Seq<u8>)>>) -> (Option<Seq<char>>, Option<Seq<char>>)
    decreases attrs.len(),
{
    if attrs.len() == 0 {
        (None, None)
    } else {
        let before = key_value_spec(attrs.drop_last());
        match attrs.last() {
            Some((name, value)) => if name == key_attr_name() && valid_utf8(value) {
                (Some(decode_utf8(value)), before.1)
            } else if name == value_attr_name() && valid_utf8(value) {
                (before.0, Some(decode_utf8(value)))
            } else {
                before
            },
            None => before,
        }
    }
}

/// The attribute was read, has the name, and its value is valid UTF-8.
pub open spec fn readable_as(a: Option<(Seq<u8>, Seq<u8>)>, name: Seq<u8>) -> bool {
    a matches Some((n, v)) && n == name && valid_utf8(v)
}

/// The text of a readable attribute's value.
pub open spec fn attr_text(a: Option<(Seq<u8>, Seq<u8>)>) -> Seq<char> {
    match a {
        Some((_, v)) => decode_utf8(v),
        None => Seq::empty(),
    }
}

/// One more attribute sets the key or the value when it is readable as
/// such, and leaves the other as it was.
proof fn lemma_key_value_step(attrs: Seq<Option<(Seq<u8>, Seq<u8>)>>)
    requires
        attrs.len() > 0,
    ensures
        attrs[attrs.len() - 1] == attrs.last(),
        !readable_as(attrs.last(), key_attr_name()) ==> key_value_spec(attrs).0 == key_value_spec(attrs.drop_last()).0,
        !readable_as(attrs.last(), value_attr_name()) ==> key_value_spec(attrs).1 == key_value_spec(attrs.drop_last()).1,
        readable_as(attrs.last(), key_attr_name()) ==> key_value_spec(attrs).0 == Some(attr_text(attrs.last())),
        readable_as(attrs.last(), value_attr_name()) ==> key_value_spec(attrs).1 == Some(attr_text(attrs.last())),
{
    assert(key_attr_name().len() == 3 && value_attr_name().len() == 5);
    assert(key_attr_name() != value_attr_name());
}

/// The key that the attributes give is the text of the last readable
/// `key` attribute, and none where there is none.
pub proof fn lemma_key_last(attrs: Seq<Option<(Seq<u8>, Seq<u8>)>>)
    ensures
        forall|i: int| #![trigger readable_as(attrs[i], key_attr_name())]
            0 <= i < attrs.len() && readable_as(attrs[i], key_attr_name())
            && (forall|j: int| i < j < attrs.len() ==> !#[trigger] readable_as(attrs[j], key_attr_name()))
            ==> key_value_spec(attrs).0 == Some(attr_text(attrs[i])),
        (forall|i: int| 0 <= i < attrs.len() ==> !#[trigger] readable_as(attrs[i], key_attr_name()))
            ==> key_value_spec(attrs).0 is None,
    decreases attrs.len(),
{
    if attrs.len() > 0 {
        let r = attrs.drop_last();
        let n = attrs.len() - 1;
        lemma_key_value_step(attrs);
        lemma_key_last(r);
        let kv = key_value_spec(attrs);
        assert forall|i: int| #![trigger readable_as(attrs[i], key_attr_name())]
            0 <= i < attrs.len() && readable_as(attrs[i], key_attr_name())
            && (forall|j: int| i < j < attrs.len() ==> !#[trigger] readable_as(attrs[j], key_attr_name()))
            implies kv.0 == Some(attr_text(attrs[i])) by {
            if i < n {
                assert(!readable_as(attrs[n], key_attr_name()));
                assert(r[i] == attrs[i]);
                assert(readable_as(r[i], key_attr_name()));
                assert forall|j: int| i < j < r.len() implies !#[trigger] readable_as(r[j], key_attr_name()) by {
                    assert(r[j] == attrs[j]);
                }
            }
        }
        if forall|i: int| 0 <= i < attrs.len() ==> !#[trigger] readable_as(attrs[i], key_attr_name()) {
            assert(!readable_as(attrs[n], key_attr_name()));
            assert forall|i: int| 0 <= i < r.len() implies !#[trigger] readable_as(r[i], key_attr_name()) by {
                assert(r[i] == attrs[i]);
            }
        }
    }
}

/// The value that the attributes give is the text of the last readable
/// `value` attribute, and none where there is none.
pub proof fn lemma_value_last(attrs: Seq<Option<(Seq<u8>, Seq<u8>)>>)
    ensures
        forall|i: int| #![trigger readable_as(attrs[i], value_attr_name())]
            0 <= i < attrs.len() && readable_as(attrs[i], value_attr_name())
            && (forall|j: int| i < j < attrs.len() ==> !#[trigger] readable_as(attrs[j], value_attr_name()))
            ==> key_value_spec(attrs).1 == Some(attr_text(attrs[i])),
        (forall|i: int| 0 <= i < attrs.len() ==> !#[trigger] readable_as(attrs[i], value_attr_name()))
            ==> key_value_spec(attrs).1 is None,
    decreases attrs.len(),
{
    if attrs.len() > 0 {
        let r = attrs.drop_last();
        let n = attrs.len() - 1;
        lemma_key_value_step(attrs);
        lemma_value_last(r);
        let kv = key_value_spec(attrs);
        assert forall|i: int| #![trigger readable_as(attrs[i], value_attr_name())]
            0 <= i < attrs.len() && readable_as(attrs[i], value_attr_name())
            && (forall|j: int| i < j < attrs.len() ==> !#[trigger] readable_as(attrs[j], value_attr_name()))
            implies kv.1 == Some(attr_text(attrs[i])) by {
            if i < n {
                assert(!readable_as(attrs[n], value_attr_name()));
                assert(r[i] == attrs[i]);
                assert(readable_as(r[i], value_attr_name()));
                assert forall|j: int| i < j < r.len() implies !#[trigger] readable_as(r[j], value_attr_name()) by {
                    assert(r[j] == attrs[j]);
                }
            }
        }
        if forall|i: int| 0 <= i < attrs.len() ==> !#[trigger] readable_as(attrs[i], value_attr_name()) {
            assert(!readable_as(attrs[n], value_attr_name()));
            assert forall|i: int| 0 <= i < r.len() implies !#[trigger] readable_as(r[i], value_attr_name()) by {
                assert(r[i] == attrs[i]);
            }
        }
    }
}

/// The view of a key-value pair of strings.
pub open spec fn pair_view(p: KeyValuePair<String, String>) -> (Option<Seq<char>>, Option<Seq<char>>) {
    (match p.key { Some(k) => Some(k@), None => None }, match p.value { Some(v) => Some(v@), None => None })
}

/// What quick_xml's attribute parse gives for a tag: the raw bytes of each
/// attribute's name and value in order, or `None` for one it reports
/// malformed. `tag` is the content of a start or empty tag as quick_xml's
/// reader gives it (the bytes between `<` and `>`, without the `/` of an
/// empty tag) and `name_len` the length of the tag's name in it.
pub uninterp spec fn tag_attributes_of(tag: Seq<u8>, name_len: nat) -> Seq<Option<(Seq<u8>, Seq<u8>)>>;

/// quick_xml's `BytesStart::attributes` of the tag made by
/// `BytesStart::from_content(tag, name_len)`, read to the end: the result is
/// `tag_attributes_of` the tag's bytes and the name's length. The iterator
/// ends on every input and does not panic.
#[verifier::external_body]
fn tag_attributes(tag: &str, name_len: usize) -> (res: Vec<RawAttribute>)
    requires
        name_len <= tag.spec_bytes().len(),
    ensures
        res@.map_values(|a: RawAttribute| raw_view(a)) == tag_attributes_of(tag.spec_bytes(), name_len as nat),
{
    BytesStart::from_content(tag, name_len).attributes().map(|a| match a {
        Ok(a) => Some((a.key.0.to_vec(), a.value.to_vec())),
        Err(_) => None,
    }).collect()
}

/// Whether the byte is XML whitespace (space, carriage return, line feed or tab).
pub open spec fn is_xml_whitespace(b: u8) -> bool {
    b == 32u8 || b == 13u8 || b == 10u8 || b == 9u8
}

/// The length of a tag's name: the position of the first whitespace byte in
/// the tag, or the tag's length where it has none.
pub open spec fn name_len_of(tag: Seq<u8>) -> nat
    decreases tag.len(),
{
    if tag.len() == 0 {
        0
    } else if is_xml_whitespace(tag[0]) {
        0
    } else {
        1 + name_len_of(tag.drop_first())
    }
}

/// The length of a tag's name is the position of its first whitespace byte:
/// no byte before it is whitespace, and the byte there is, unless the tag
/// ends there.
pub proof fn lemma_name_len_first_whitespace(tag: Seq<u8>)
    ensures
        name_len_of(tag) <= tag.len(),
        forall|j: int| 0 <= j < name_len_of(tag) ==> !is_xml_whitespace(#[trigger] tag[j]),
        name_len_of(tag) < tag.len() ==> is_xml_whitespace(tag[name_len_of(tag) as int]),
    decreases tag.len(),
{
    if tag.len() > 0 && !is_xml_whitespace(tag[0]) {
        let rest = tag.drop_first();
        lemma_name_len_first_whitespace(rest);
        assert forall|j: int| 0 <= j < name_len_of(tag) implies !is_xml_whitespace(#[trigger] tag[j]) by {
            if j > 0 {
                assert(tag[j] == rest[j - 1]);
            }
        }
        if name_len_of(tag) < tag.len() {
            assert(tag[name_len_of(tag) as int] == rest[name_len_of(rest) as int]);
        }
    }
}

proof fn lemma_name_len_step(tag: Seq<u8>, i: int)
    requires
        0 <= i < tag.len(),
        forall|j: int| 0 <= j < i ==> !is_xml_whitespace(#[trigger] tag[j]),
    ensures
        is_xml_whitespace(tag[i]) ==> name_len_of(tag) == i,
        name_len_of(tag) >= i,
    decreases i,
{
    if i > 0 {
        assert(!is_xml_whitespace(tag[0]));
        assert forall|j: int| 0 <= j < i - 1 implies !is_xml_whitespace(#[trigger] tag.drop_first()[j]) by {
            assert(tag.drop_first()[j] == tag[j + 1]);
        }
        lemma_name_len_step(tag.drop_first(), i - 1);
    }
}

proof fn lemma_name_len_all(tag: Seq<u8>)
    requires
        forall|j: int| 0 <= j < tag.len() ==> !is_xml_whitespace(#[trigger] tag[j]),
    ensures
        name_len_of(tag) == tag.len(),
    decreases tag.len(),
{
    if tag.len() > 0 {
        assert forall|j: int| 0 <= j < tag.len() - 1 implies !is_xml_whitespace(#[trigger] tag.drop_first()[j]) by {
            assert(tag.drop_first()[j] == tag[j + 1]);
        }
        lemma_name_len_all(tag.drop_first());
    }
}

/// The length of the tag's name (see `name_len_of`).
pub fn tag_name_len(tag: &str) -> (res: usize)
    ensures
        res == name_len_of(tag.spec_bytes()),
        res <= tag.spec_bytes().len(),
{
    let bytes = tag.as_bytes();
    let mut i: usize = 0;
    while i < bytes.len()
        invariant
            bytes@ == tag.spec_bytes(),
            i <= bytes@.len(),
            forall|j: int| 0 <= j < i ==> !is_xml_whitespace(#[trigger] bytes@[j]),
        decreases bytes@.len() - i,
    {
        let b = bytes[i];
        if b == 32u8 || b == 13u8 || b == 10u8 || b == 9u8 {
            proof {
                lemma_name_len_step(bytes@, i as int);
                lemma_name_len_bound(bytes@);
            }
            return i;
        }
        i = i + 1;
    }
    proof {
        lemma_name_len_all(bytes@);
    }
    i
}

proof fn lemma_name_len_bound(tag: Seq<u8>)
    ensures
        name_len_of(tag) <= tag.len(),
    decreases tag.len(),
{
    if tag.len() > 0 {
        lemma_name_len_bound(tag.drop_first());
    }
}

/// Whether the bytes are the name.
fn bytes_are(bytes: &Vec<u8>, name: &[u8]) -> (res: bool)
    ensures
        res == (bytes@ == name@),
{
    if bytes.len() != name.len() {
        return false;
    }
    let mut i: usize = 0;
    while i < bytes.len()
        invariant
            bytes@.len() == name@.len(),
            i <= bytes@.len(),
            forall|j: int| 0 <= j < i ==> bytes@[j] == name@[j],
        decreases bytes@.len() - i,
    {
        if bytes[i] != name[i] {
            return false;
        }
        i = i + 1;
    }
    assert(bytes@ =~= name@);
    true
}

/// The key and the value that the attributes give (see `key_value_spec`).
pub fn key_value_of(attributes: Vec<RawAttribute>) -> (res: KeyValuePair<String, String>)
    ensures
        pair_view(res) == key_value_spec(attributes@.map_values(|a: RawAttribute| raw_view(a))),
{
    let ghost orig = attributes@;
    let ghost all = attributes@.map_values(|a: RawAttribute| raw_view(a));
    let key_name: [u8; 3] = [107u8, 101u8, 121u8];
    let value_name: [u8; 5] = [118u8, 97u8, 108u8, 117u8, 101u8];
    proof {
        assert(key_name@ =~= key_attr_name());
        assert(value_name@ =~= value_attr_name());
    }
    let mut rest = attributes;
    let mut key: Option<String> = None;
    let mut value: Option<String> = None;
    let ghost mut n: int = 0;
    proof {
        assert(all.take(0) =~= Seq::<Option<(Seq<u8>, Seq<u8>)>>::empty());
    }
    while rest.len() > 0
        invariant
            0 <= n <= all.len(),
            all.len() == orig.len(),
            all == orig.map_values(|a: RawAttribute| raw_view(a)),
            rest@ == orig.skip(n),
            key_name@ == key_attr_name(),
            value_name@ == value_attr_name(),
            pair_view(KeyValuePair { key, value }) == key_value_spec(all.take(n)),
        decreases rest@.len(),
    {
        let attribute = rest.remove(0);
        proof {
            assert(attribute == orig[n]);
            assert(raw_view(attribute) == all[n]);
            assert(all.take(n + 1).drop_last() =~= all.take(n));
            assert(all.take(n + 1).last() == all[n]);
            assert(rest@ =~= orig.skip(n + 1));
        }
        match attribute {
            Some((name, bytes)) => {
                if bytes_are(&name, &key_name) {
                    match string_from_utf8(bytes) {
                        Ok(text) => {
                            key = Some(text);
                        },
                        Err(_) => {},
                    }
                } else if bytes_are(&name, &value_name) {
                    match string_from_utf8(bytes) {
                        Ok(text) => {
                            value = Some(text);
                        },
                        Err(_) => {},
                    }
                }
            },
            None => {},
        }
        proof {
            n = n + 1;
        }
    }
    proof {
        assert(all.take(n) =~= all);
    }
    KeyValuePair { key, value }
}

/// The key and the value of the tag's `key` and `value` attributes: each
/// readable one whose value is valid UTF-8 sets them, a later one replacing
/// an earlier one. `tag` is the content of a start or empty tag (see
/// `tag_attributes_of`).
pub fn extract_key_value(tag: &str) -> (res: KeyValuePair<String, String>)
    ensures
        pair_view(res) == key_value_spec(tag_attributes_of(tag.spec_bytes(), name_len_of(tag.spec_bytes()))),
{
    let name_len = tag_name_len(tag);
    let attributes = tag_attributes(tag, name_len);
    key_value_of(attributes)
}

/// The type of a payload tag (its name), its key and its value.
pub struct PayloadTagDescriptor {
    pub payload_type: String,
    pub key: String,
    pub value: String,
}

/// The view of a descriptor: its type, key and value.
pub open spec fn descriptor_view(d: Option<PayloadTagDescriptor>) -> Option<(Seq<char>, Seq<char>, Seq<char>)> {
    match d {
        Some(d) => Some((d.payload_type@, d.key@, d.value@)),
        None => None,
    }
}

/// What quick_xml's `escape::unescape` gives for the text: the text with each
/// escape (`&...;`) replaced by what it stands for, or `None` where quick_xml
/// reports an error.
pub uninterp spec fn xml_unescaped(text: Seq<char>) -> Option<Seq<char>>;

/// quick_xml's `escape::unescape`: `Some` of the unescaped text exactly when
/// it succeeds (see `xml_unescaped`).
#[verifier::external_body]
fn unescape_text(text: &str) -> (res: Option<String>)
    ensures
        res is Some == xml_unescaped(text@) is Some,
        res matches Some(s) ==> s@ == xml_unescaped(text@)->0,
{
    match quick_xml::escape::unescape(text) {
        Ok(unescaped) => Some(unescaped.into_owned()),
        Err(_) => None,
    }
}

/// The descriptor of a payload tag with the name's bytes and the attributes:
/// present exactly when the attributes give both a key and a value, both
/// unescape, and the name is valid UTF-8; it then holds the decoded name and
/// the unescaped key and value.
pub open spec fn payload_tag_spec(name: Seq<u8>, attributes: Seq<Option<(Seq<u8>, Seq<u8>)>>) -> Option<(Seq<char>, Seq<char>, Seq<char>)> {
    let kv = key_value_spec(attributes);
    if kv.0 is Some && kv.1 is Some && xml_unescaped(kv.0->0) is Some && xml_unescaped(kv.1->0) is Some && valid_utf8(name) {
        Some((decode_utf8(name), xml_unescaped(kv.0->0)->0, xml_unescaped(kv.1->0)->0))
    } else {
        None
    }
}

/// The descriptor of a payload tag with the name and the raw attributes (see
/// `payload_tag_spec`). A key or a value that does not unescape gives `None`.
pub fn payload_tag_descriptor(tag_name: Vec<u8>, attributes: Vec<RawAttribute>) -> (res: Option<PayloadTagDescriptor>)
    ensures
        descriptor_view(res) == payload_tag_spec(tag_name@, attributes@.map_values(|a: RawAttribute| raw_view(a))),
{
    let kv = key_value_of(attributes);
    let (raw_key, raw_value) = match (kv.key, kv.value) {
        (Some(k), Some(v)) => (k, v),
        _ => {
            return None;
        },
    };
    let key = match unescape_text(raw_key.as_str()) {
        Some(k) => k,
        None => {
            return None;
        },
    };
    let value = match unescape_text(raw_value.as_str()) {
        Some(v) => v,
        None => {
            return None;
        },
    };
    let payload_type = match string_from_utf8(tag_name) {
        Ok(name) => name,
        Err(_) => {
            return None;
        },
    };
    Some(PayloadTagDescriptor { payload_type, key, value })
}

/// The descriptor of a payload tag (`tag` as in `tag_attributes_of`): its
/// name, and the unescaped key and value of its `key` and `value` attributes
/// (see `payload_tag_spec`). Where the key or the value does not unescape,
/// the library answers `None` in place of panicking.
pub fn read_payload_like_tag(tag: &str) -> (res: Option<PayloadTagDescriptor>)
    ensures
        descriptor_view(res) == payload_tag_spec(
            tag.spec_bytes().take(name_len_of(tag.spec_bytes()) as int),
            tag_attributes_of(tag.spec_bytes(), name_len_of(tag.spec_bytes())),
        ),
{
    let name_len = tag_name_len(tag);
    let attributes = tag_attributes(tag, name_len);
    let bytes = tag.as_bytes();
    let mut name: Vec<u8> = Vec::new();
    let mut i: usize = 0;
    while i < name_len
        invariant
            bytes@ == tag.spec_bytes(),
            name_len <= bytes@.len(),
            i <= name_len,
            name@ == bytes@.take(i as int),
        decreases name_len - i,
    {
        name.push(bytes[i]);
        proof {
            assert(bytes@.take(i + 1) =~= bytes@.take(i as int).push(bytes@[i as int]));
        }
        i = i + 1;
    }
    payload_tag_descriptor(name, attributes)
}

/// Reads an attribute's raw value as text into `var`: where it is valid
/// UTF-8, `var` becomes the text and the answer is `true`; else `var` stays
/// as it was and the answer is `false`.
pub fn read_attr_value(value: Vec<u8>, var: &mut Option<String>) -> (res: bool)
    ensures
        res == valid_utf8(value@),
        res ==> final(var).is_some() && final(var).unwrap()@ == decode_utf8(value@),
        !res ==> *final(var) == *old(var),
{
    match string_from_utf8(value) {
        Ok(text) => {
            *var = Some(text);
            true
        },
        Err(_) => false,
    }
}

/// The key of the lifecycle transition of an event.
pub const LIFECYCLE_TRANSITION_STR: &'static str = "lifecycle:transition";

/// What chrono's `DateTime::parse_from_rfc3339` gives for the text, taken to
/// UTC: the seconds after the Unix epoch and the nanoseconds within that
/// second; `None` where chrono refuses the text.
pub uninterp spec fn rfc3339_instant(text: Seq<char>) -> Option<(i64, u32)>;

/// chrono's `DateTime::parse_from_rfc3339`, then `with_timezone(&Utc)`,
/// `timestamp` and `timestamp_subsec_nanos` (see `rfc3339_instant`).
#[verifier::external_body]
fn parse_rfc3339(text: &str) -> (res: Option<(i64, u32)>)
    ensures
        res == rfc3339_instant(text@),
{
    match DateTime::parse_from_rfc3339(text) {
        Ok(date) => {
            let utc = date.with_timezone(&Utc);
            Some((utc.timestamp(), utc.timestamp_subsec_nanos()))
        },
        Err(_) => None,
    }
}

/// The lifecycle transition with the name, if one has it.
pub open spec fn lifecycle_named(name: Seq<char>) -> Option<XesStandardLifecycle> {
    if exists|l: XesStandardLifecycle| lifecycle_name(l) == name {
        Some(choose|l: XesStandardLifecycle| lifecycle_name(l) == name)
    } else {
        None
    }
}

/// What Rust's `bool::from_str` gives for the text: `true` and `false` for
/// exactly those words, `None` for any other text.
pub open spec fn parsed_bool(text: Seq<char>) -> Option<bool> {
    if text == TRUE_STR@ {
        Some(true)
    } else if text == FALSE_STR@ {
        Some(false)
    } else {
        None
    }
}

/// The payload value that a tag named `name` with the key and the value
/// text gives: a lifecycle transition for the `lifecycle:transition` key of
/// a `string` tag; the instant of a `date` tag; the integer of an `int` tag;
/// the text of a `string` tag; the truth value of a `boolean` tag; `None`
/// where the text does not read as such a value, and for every other tag
/// (`float` and `id` among them).
pub open spec fn payload_value_read(
    res: Option<EventPayloadValue>,
    name: Seq<u8>,
    key: Seq<char>,
    value: Seq<char>,
    value_bytes: Seq<u8>,
) -> bool {
    if key == LIFECYCLE_TRANSITION_STR@ && name == STRING_TAG_NAME_STR.spec_bytes() {
        match lifecycle_named(value) {
            Some(l) => res == Some(EventPayloadValue::Lifecycle(l)),
            None => res is None,
        }
    } else if name == DATE_TAG_NAME_STR.spec_bytes() {
        match rfc3339_instant(value) {
            Some((seconds, nanos)) => res == Some(EventPayloadValue::Date(seconds, nanos)),
            None => res is None,
        }
    } else if name == INT_TAG_NAME_STR.spec_bytes() {
        match parsed_i64(value_bytes) {
            Some(n) => res == Some(EventPayloadValue::Int64(n)),
            None => res is None,
        }
    } else if name == STRING_TAG_NAME_STR.spec_bytes() {
        res matches Some(EventPayloadValue::String(s)) && s@ == value
    } else if name == BOOLEAN_TAG_NAME_STR.spec_bytes() {
        match parsed_bool(value) {
            Some(b) => res == Some(EventPayloadValue::Boolean(b)),
            None => res is None,
        }
    } else {
        res is None
    }
}

/// Whether the two byte slices are equal.
fn same_bytes(a: &[u8], b: &[u8]) -> (res: bool)
    ensures
        res == (a@ == b@),
{
    if a.len() != b.len() {
        return false;
    }
    let mut i: usize = 0;
    while i < a.len()
        invariant
            a@.len() == b@.len(),
            i <= a@.len(),
            forall|j: int| 0 <= j < i ==> a@[j] == b@[j],
        decreases a@.len() - i,
    {
        if a[i] != b[i] {
            return false;
        }
        i = i + 1;
    }
    assert(a@ =~= b@);
    true
}

/// The payload value of a tag named `name` with the key and the value text
/// (see `payload_value_read`). An unknown lifecycle name gives `None`, where
/// a panic would otherwise end the reading. Floats and ids are not read
/// here.
pub fn extract_payload_value(name: &[u8], key: &str, value: &str) -> (res: Option<EventPayloadValue>)
    ensures
        payload_value_read(res, name@, key@, value@, value.spec_bytes()),
{
    if same_text(key, LIFECYCLE_TRANSITION_STR) && same_bytes(name, STRING_TAG_NAME_STR.as_bytes()) {
        return match XesStandardLifecycle::from_str(value) {
            Ok(lifecycle) => {
                proof {
                    let c = choose|l: XesStandardLifecycle| lifecycle_name(l) == value@;
                    lemma_lifecycle_names_distinct(c, lifecycle);
                }
                Some(EventPayloadValue::Lifecycle(lifecycle))
            },
            Err(_) => None,
        };
    }
    if same_bytes(name, DATE_TAG_NAME_STR.as_bytes()) {
        return match parse_rfc3339(value) {
            Some((seconds, nanos)) => Some(EventPayloadValue::Date(seconds, nanos)),
            None => None,
        };
    }
    if same_bytes(name, INT_TAG_NAME_STR.as_bytes()) {
        return match parse_i64(value) {
            Some(n) => Some(EventPayloadValue::Int64(n)),
            None => None,
        };
    }
    if same_bytes(name, STRING_TAG_NAME_STR.as_bytes()) {
        return Some(EventPayloadValue::String(value.to_owned()));
    }
    if same_bytes(name, BOOLEAN_TAG_NAME_STR.as_bytes()) {
        return if same_text(value, TRUE_STR) {
            Some(EventPayloadValue::Boolean(true))
        } else if same_text(value, FALSE_STR) {
            Some(EventPayloadValue::Boolean(false))
        } else {
            None
        };
    }
    None
}

} // verus!
