//! Saving and restoring the record set as a JSON document: an array of
//! objects with the fields `url` (string), `last_item_ts` (integer seconds)
//! and `channels` (array of unsigned integers), in record order.
use vstd::prelude::*;
use crate::store::{RssFeeds, FeedSubscription, FeedView, restore_spec, dedup_channels, lemma_dedup_no_duplicates};
use json::JsonValue;
use vstd::utf8::encode_utf8;
use vstd::string::StringSliceAdditionalSpecFns;

verus! {

/// A JSON value as plain data. A number is held as its sign, mantissa and
/// decimal exponent, as `json::number::Number::as_parts` reports them; a
/// string is the same whether the library stores it short or long.
pub enum JsonModel {
    Null,
    Bool(bool),
    Number { negative: bool, mantissa: nat, exponent: int },
    Str(Seq<char>),
    Array(Seq<JsonModel>),
    Object(Seq<(Seq<char>, JsonModel)>),
}

#[verifier::external_type_specification]
#[verifier::external_body]
pub struct ExJsonValue(json::JsonValue);

/// What a `json::JsonValue` holds.
pub uninterp spec fn json_view(v: JsonValue) -> JsonModel;

/// The document that `json::parse` reads from a text, `None` when it fails.
pub uninterp spec fn json_parsed(text: Seq<char>) -> Option<JsonModel>;

/// The value stored under `key` in an object's entries, null when absent.
pub open spec fn lookup(es: Seq<(Seq<char>, JsonModel)>, key: Seq<char>) -> JsonModel
    decreases es.len(),
{
    if es.len() == 0 {
        JsonModel::Null
    } else if es[0].0 == key {
        es[0].1
    } else {
        lookup(es.subrange(1, es.len() as int), key)
    }
}

/// Field `key` of an object; null for anything else.
pub open spec fn field_of(m: JsonModel, key: Seq<char>) -> JsonModel {
    match m {
        JsonModel::Object(es) => lookup(es, key),
        _ => JsonModel::Null,
    }
}

/// Member `i` of an array; null when there is none.
pub open spec fn member_of(m: JsonModel, i: int) -> JsonModel {
    match m {
        JsonModel::Array(a) => if 0 <= i < a.len() {
            a[i]
        } else {
            JsonModel::Null
        },
        _ => JsonModel::Null,
    }
}

/// A signed integer as the JSON library stores it.
pub open spec fn int_model(n: i64) -> JsonModel {
    if n < 0 {
        JsonModel::Number { negative: true, mantissa: (-n) as nat, exponent: 0 }
    } else {
        JsonModel::Number { negative: false, mantissa: n as nat, exponent: 0 }
    }
}

/// An unsigned integer as the JSON library stores it.
pub open spec fn uint_model(n: u64) -> JsonModel {
    JsonModel::Number { negative: false, mantissa: n as nat, exponent: 0 }
}

/// The saved form of one record.
pub open spec fn saved_record(f: FeedView) -> JsonModel {
    JsonModel::Object(
        seq![
            ("url"@, JsonModel::Str(f.url)),
            ("last_item_ts"@, int_model(f.last_item_ts)),
            ("channels"@, JsonModel::Array(f.channels.map_values(|c: u64| uint_model(c)))),
        ],
    )
}

/// The saved form of a record set: an array of saved records, in order.
pub open spec fn saved_doc(s: Seq<FeedView>) -> JsonModel {
    JsonModel::Array(s.map_values(|f: FeedView| saved_record(f)))
}

/// A watermark read from JSON: an integer of magnitude at most `i64::MAX`.
pub open spec fn ts_of(m: JsonModel) -> Option<i64> {
    match m {
        JsonModel::Number { negative, mantissa, exponent } => if exponent == 0 && mantissa
            <= i64::MAX {
            Some((if negative { -(mantissa as int) } else { mantissa as int }) as i64)
        } else {
            None
        },
        _ => None,
    }
}

/// A channel id read from JSON: a non-negative integer that fits a `u64`.
pub open spec fn channel_of(m: JsonModel) -> Option<u64> {
    match m {
        JsonModel::Number { negative, mantissa, exponent } => if !negative && exponent == 0
            && mantissa <= u64::MAX {
            Some(mantissa as u64)
        } else {
            None
        },
        _ => None,
    }
}

/// The channel ids of a JSON array, `None` when a member is no channel id.
pub open spec fn channels_of(a: Seq<JsonModel>) -> Option<Seq<u64>> {
    if forall|k: int| 0 <= k < a.len() ==> (#[trigger] channel_of(a[k])) is Some {
        Some(Seq::new(a.len(), |k: int| channel_of(a[k])->0))
    } else {
        None
    }
}

/// The record an object holds, `None` when a field is missing or of the
/// wrong kind.
pub open spec fn record_of(m: JsonModel) -> Option<FeedView> {
    match (field_of(m, "url"@), ts_of(field_of(m, "last_item_ts"@)), field_of(m, "channels"@)) {
        (JsonModel::Str(u), Some(t), JsonModel::Array(a)) => match channels_of(a) {
            Some(c) => Some(FeedView { url: u, last_item_ts: t, channels: c }),
            None => None,
        },
        _ => None,
    }
}

/// The records of a JSON array, `None` when a member is no record.
pub open spec fn records_of(a: Seq<JsonModel>) -> Option<Seq<FeedView>> {
    if forall|k: int| 0 <= k < a.len() ==> (#[trigger] record_of(a[k])) is Some {
        Some(Seq::new(a.len(), |k: int| record_of(a[k])->0))
    } else {
        None
    }
}

/// The records a parsed document holds: it must be an array of records.
pub open spec fn document_records(doc: Option<JsonModel>) -> Option<Seq<FeedView>> {
    match doc {
        Some(JsonModel::Array(a)) => records_of(a),
        _ => None,
    }
}

/// Every watermark can be written by the JSON library, which cannot hold
/// `i64::MIN`.
pub open spec fn saveable(s: Seq<FeedView>) -> bool {
    forall|k: int| 0 <= k < s.len() ==> (#[trigger] s[k]).last_item_ts != i64::MIN
}

/// The most digits in a row after a decimal point that the JSON parser
/// counts without overflowing its exponent.
pub const MAX_FRACTION_DIGITS: usize = 32767;

pub open spec fn is_digit(b: u8) -> bool {
    48 <= b && b <= 57
}

/// The `n` bytes after position `i` are all digits.
pub open spec fn digits_after(b: Seq<u8>, i: int, n: int) -> bool {
    forall|j: int| i < j <= i + n ==> #[trigger] is_digit(b[j])
}

/// No decimal point in `b` is followed by more than `MAX_FRACTION_DIGITS`
/// digits in a row.
pub open spec fn fractions_short(b: Seq<u8>) -> bool {
    forall|i: int|
        0 <= i && i + 32768 < b.len() && b[i] == 46u8 ==> !#[trigger] digits_after(b, i, 32768)
}

/// The records a saved text holds, as `RssFeeds::load` reads it: texts with
/// an overlong fraction are refused before parsing.
pub open spec fn text_records(t: Seq<char>) -> Option<Seq<FeedView>> {
    if fractions_short(encode_utf8(t)) {
        document_records(json_parsed(t))
    } else {
        None
    }
}

spec fn window(i: int, pos: int) -> int {
    if pos - 1 - i < 32768 {
        pos - 1 - i
    } else {
        32768
    }
}

/// Whether every decimal point in `b` is followed by at most
/// `MAX_FRACTION_DIGITS` digits in a row.
pub fn check_fractions(b: &[u8]) -> (r: bool)
    ensures
        r == fractions_short(b@),
{
    let n = b.len();
    let mut pos: usize = 0;
    let mut active = false;
    let mut run: usize = 0;
    while pos < n
        invariant
            n == b@.len(),
            pos <= n,
            active ==> run <= MAX_FRACTION_DIGITS && run + 1 <= pos && b@[pos - 1 - run] == 46u8
                && digits_after(b@, pos - 1 - run, run as int),
            forall|i: int|
                0 <= i < pos && b@[i] == 46u8 && !(active && i == pos - 1 - run) ==> !#[trigger] digits_after(
                    b@,
                    i,
                    window(i, pos as int),
                ),
        decreases n - pos,
    {
        let c = b[pos];
        let ghost old_pos = pos as int;
        let ghost old_start = pos - 1 - run;
        let ghost was_active = active;
        if c == 46u8 {
            active = true;
            run = 0;
        } else if 48u8 <= c && c <= 57u8 {
            if active {
                if run == MAX_FRACTION_DIGITS {
                    assert(digits_after(b@, old_start, 32768)) by {
                        assert forall|j: int| old_start < j <= old_start + 32768 implies #[trigger] is_digit(b@[j]) by {
                            if j < old_pos {
                                assert(old_start < j <= old_start + run);
                            }
                        }
                    }
                    assert(!fractions_short(b@));
                    return false;
                }
                run = run + 1;
            }
        } else {
            active = false;
        }
        pos = pos + 1;
        proof {
            assert forall|i: int|
                0 <= i < pos && b@[i] == 46u8 && !(active && i == pos - 1 - run) implies !#[trigger] digits_after(
                b@,
                i,
                window(i, pos as int),
            ) by {
                if i < old_pos && !(was_active && i == old_start) {
                    assert(!digits_after(b@, i, window(i, old_pos)));
                    let j = choose|j: int| i < j <= i + window(i, old_pos) && !is_digit(b@[j]);
                    assert(i < j <= i + window(i, pos as int));
                } else if i < old_pos {
                    assert(!is_digit(b@[old_pos]));
                    assert(i < old_pos <= i + window(i, pos as int));
                }
            }
        }
    }
    assert forall|i: int| 0 <= i && i + 32768 < b@.len() && b@[i] == 46u8 implies !#[trigger] digits_after(
        b@,
        i,
        32768,
    ) by {
        if !(active && i == pos - 1 - run) {
            assert(window(i, pos as int) == 32768);
        }
    }
    true
}

/// Relies on json::parse: the document that `text` holds, `None` when it is
/// no JSON; an empty text holds no document. The parser counts fraction
/// digits in an `i16` exponent without an overflow check, so texts with an
/// overlong fraction are left out.
#[verifier::external_body]
fn parse_document(text: &str) -> (r: Option<JsonValue>)
    requires
        fractions_short(text.spec_bytes()),
    ensures
        match r {
            Some(v) => json_parsed(text@) == Some(json_view(v)),
            None => json_parsed(text@) is None,
        },
        text@.len() == 0 ==> r is None,
{
    json::parse(text).ok()
}

/// Relies on the `Array` variant of json::JsonValue: the number of members of
/// an array, `None` for any other value.
#[verifier::external_body]
fn array_len(v: &JsonValue) -> (r: Option<usize>)
    ensures
        match json_view(*v) {
            JsonModel::Array(a) => r matches Some(n) && n == a.len(),
            _ => r is None,
        },
{
    match v {
        JsonValue::Array(a) => Some(a.len()),
        _ => None,
    }
}

/// Relies on indexing a json::JsonValue by position: member `i` of an array
/// (null when there is none).
#[verifier::external_body]
fn member(v: &JsonValue, i: usize) -> (r: &JsonValue)
    ensures
        json_view(*r) == member_of(json_view(*v), i as int),
{
    &v[i]
}

/// Relies on indexing a json::JsonValue by key: field `key` of an object
/// (null when there is none).
#[verifier::external_body]
fn field<'a>(v: &'a JsonValue, key: &str) -> (r: &'a JsonValue)
    ensures
        json_view(*r) == field_of(json_view(*v), key@),
{
    &v[key]
}

/// Relies on json::JsonValue::as_str: the text of a string value.
#[verifier::external_body]
fn text_of(v: &JsonValue) -> (r: Option<String>)
    ensures
        match json_view(*v) {
            JsonModel::Str(s) => r matches Some(t) && t@ == s,
            _ => r is None,
        },
{
    v.as_str().map(String::from)
}

/// Relies on json::JsonValue::as_number and Number::as_parts: the sign (true
/// when positive), mantissa and exponent of a number.
#[verifier::external_body]
fn number_parts(v: &JsonValue) -> (r: Option<(bool, u64, i16)>)
    ensures
        match json_view(*v) {
            JsonModel::Number { negative, mantissa, exponent } => r matches Some(p) && p.0
                == !negative && p.1 == mantissa && p.2 == exponent,
            _ => r is None,
        },
{
    v.as_number().map(|n| n.as_parts())
}

/// An object with `key` set to `v`: the value of an existing entry is
/// replaced in place, a new key is appended; anything but an object is left
/// as it is.
pub open spec fn object_insert(m: JsonModel, key: Seq<char>, v: JsonModel) -> JsonModel {
    match m {
        JsonModel::Object(es) => if exists|i: int| 0 <= i < es.len() && es[i].0 == key {
            JsonModel::Object(es.update(choose|i: int| 0 <= i < es.len() && es[i].0 == key, (key, v)))
        } else {
            JsonModel::Object(es.push((key, v)))
        },
        _ => m,
    }
}

/// Relies on json::JsonValue::new_object: an object without entries.
#[verifier::external_body]
fn new_object() -> (r: JsonValue)
    ensures
        json_view(r) == JsonModel::Object(Seq::empty()),
{
    JsonValue::new_object()
}

/// Relies on json::JsonValue::insert: sets `key` of an object to `v`.
#[verifier::external_body]
fn insert_value(o: &mut JsonValue, key: &str, v: JsonValue)
    ensures
        json_view(*final(o)) == object_insert(json_view(*old(o)), key@, json_view(v)),
{
    let _ = o.insert(key, v);
}

/// Relies on `From<&str>` for json::JsonValue: a string value.
#[verifier::external_body]
fn str_value(s: &str) -> (r: JsonValue)
    ensures
        json_view(r) == JsonModel::Str(s@),
{
    JsonValue::from(s)
}

/// Relies on `From<i64>` for json::JsonValue: an integer value. The
/// conversion negates the value, so `i64::MIN` is left out.
#[verifier::external_body]
fn i64_value(n: i64) -> (r: JsonValue)
    requires
        n != i64::MIN,
    ensures
        json_view(r) == int_model(n),
{
    JsonValue::from(n)
}

/// Relies on `From<Vec<u64>>` for json::JsonValue: an array of integers.
#[verifier::external_body]
fn u64_array_value(v: &Vec<u64>) -> (r: JsonValue)
    ensures
        json_view(r) == JsonModel::Array(v@.map_values(|c: u64| uint_model(c))),
{
    JsonValue::from(v.clone())
}

/// The saved form of one record: an object with the keys `url`,
/// `last_item_ts` and `channels`, in that order.
fn record_value(url: &str, last_item_ts: i64, channels: &Vec<u64>) -> (r: JsonValue)
    requires
        last_item_ts != i64::MIN,
    ensures
        json_view(r) == saved_record(FeedView { url: url@, last_item_ts, channels: channels@ }),
{
    let mut o = new_object();
    insert_value(&mut o, "url", str_value(url));
    insert_value(&mut o, "last_item_ts", i64_value(last_item_ts));
    insert_value(&mut o, "channels", u64_array_value(channels));
    proof {
        reveal_strlit("url");
        reveal_strlit("last_item_ts");
        reveal_strlit("channels");
        assert("last_item_ts"@.len() == 12 && "url"@.len() == 3 && "channels"@.len() == 8);
        let e0 = ("url"@, JsonModel::Str(url@));
        let e1 = ("last_item_ts"@, int_model(last_item_ts));
        let e2 = ("channels"@, JsonModel::Array(channels@.map_values(|c: u64| uint_model(c))));
        assert(Seq::<(Seq<char>, JsonModel)>::empty().push(e0) =~= seq![e0]);
        assert(!exists|i: int| 0 <= i < seq![e0].len() && seq![e0][i].0 == "last_item_ts"@) by {
            assert(seq![e0][0].0 != "last_item_ts"@);
        }
        assert(seq![e0].push(e1) =~= seq![e0, e1]);
        assert(!exists|i: int| 0 <= i < seq![e0, e1].len() && seq![e0, e1][i].0 == "channels"@) by {
            assert(seq![e0, e1][0].0 != "channels"@);
            assert(seq![e0, e1][1].0 != "channels"@);
        }
        assert(seq![e0, e1].push(e2) =~= seq![e0, e1, e2]);
    }
    o
}

/// Relies on json::JsonValue::dump and json::parse: the compact text of an
/// array of saved records, which parses back to the same array.
#[verifier::external_body]
fn document_text(records: Vec<JsonValue>) -> (r: String)
    requires
        forall|k: int|
            0 <= k < records@.len() ==> exists|f: FeedView| #[trigger] json_view(records@[k]) == saved_record(f),
    ensures
        json_parsed(r@) == Some(JsonModel::Array(records@.map_values(|v: JsonValue| json_view(v)))),
{
    JsonValue::Array(records).dump()
}

fn decode_channels(list: &JsonValue) -> (r: Option<Vec<u64>>)
    ensures
        match json_view(*list) {
            JsonModel::Array(a) => match channels_of(a) {
                Some(c) => r matches Some(v) && v@ == c,
                None => r is None,
            },
            _ => r is None,
        },
{
    let n = array_len(list)?;
    let ghost a = match json_view(*list) {
        JsonModel::Array(a) => a,
        _ => Seq::empty(),
    };
    let mut channels: Vec<u64> = Vec::new();
    let mut k: usize = 0;
    while k < n
        invariant
            json_view(*list) == JsonModel::Array(a),
            n == a.len(),
            k <= n,
            forall|j: int| 0 <= j < k ==> (#[trigger] channel_of(a[j])) is Some,
            channels@ == Seq::new(k as nat, |j: int| channel_of(a[j])->0),
        decreases n - k,
    {
        let parts = number_parts(member(list, k));
        match parts {
            Some((positive, mantissa, exponent)) => {
                if !positive || exponent != 0 {
                    assert(channel_of(a[k as int]) is None);
                    return None;
                }
                channels.push(mantissa);
                assert(channels@ =~= Seq::new((k + 1) as nat, |j: int| channel_of(a[j])->0));
            },
            None => {
                assert(channel_of(a[k as int]) is None);
                return None;
            },
        }
        k = k + 1;
    }
    assert(channels@ =~= Seq::new(a.len(), |j: int| channel_of(a[j])->0));
    Some(channels)
}

fn decode_record(v: &JsonValue) -> (r: Option<FeedSubscription>)
    ensures
        match record_of(json_view(*v)) {
            Some(f) => r matches Some(x) && x@ == f,
            None => r is None,
        },
{
    let url = text_of(field(v, "url"))?;
    let (positive, mantissa, exponent) = number_parts(field(v, "last_item_ts"))?;
    if exponent != 0 || mantissa > 9223372036854775807u64 {
        return None;
    }
    let last_item_ts: i64 = if positive {
        mantissa as i64
    } else {
        -(mantissa as i64)
    };
    let channels = decode_channels(field(v, "channels"))?;
    Some(FeedSubscription { url, last_item_ts, channels })
}

/// The saved records of a JSON document: `None` exactly when a decimal point
/// is followed by more than `MAX_FRACTION_DIGITS` digits, or the text is no
/// JSON, or no array, or a member lacks a field or has one of the wrong kind.
pub fn decode_feeds(text: &str) -> (r: Option<Vec<FeedSubscription>>)
    ensures
        match text_records(text@) {
            Some(s) => r matches Some(v) && v@.map_values(|f: FeedSubscription| f@) == s,
            None => r is None,
        },
        text@.len() == 0 ==> r is None,
{
    if !check_fractions(text.as_bytes()) {
        return None;
    }
    let doc = parse_document(text)?;
    let n = array_len(&doc)?;
    let ghost a = match json_view(doc) {
        JsonModel::Array(a) => a,
        _ => Seq::empty(),
    };
    let mut out: Vec<FeedSubscription> = Vec::new();
    let mut i: usize = 0;
    while i < n
        invariant
            json_view(doc) == JsonModel::Array(a),
            json_parsed(text@) == Some(json_view(doc)),
            n == a.len(),
            i <= n,
            forall|j: int| 0 <= j < i ==> (#[trigger] record_of(a[j])) is Some,
            out@.len() == i,
            forall|j: int| 0 <= j < i ==> (#[trigger] out@[j])@ == record_of(a[j])->0,
        decreases n - i,
    {
        let rec = decode_record(member(&doc, i));
        match rec {
            Some(f) => {
                out.push(f);
            },
            None => {
                assert(record_of(a[i as int]) is None);
                assert(records_of(a) is None);
                assert(json_parsed(text@) == Some(JsonModel::Array(a)));
                assert(document_records(json_parsed(text@)) is None);
                return None;
            },
        }
        i = i + 1;
    }
    assert(out@.map_values(|f: FeedSubscription| f@) =~= Seq::new(a.len(), |j: int| record_of(a[j])->0));
    Some(out)
}

proof fn lemma_saved_record_reads_back(f: FeedView)
    requires
        f.last_item_ts != i64::MIN,
    ensures
        record_of(saved_record(f)) == Some(f),
{
    reveal_strlit("url");
    reveal_strlit("last_item_ts");
    reveal_strlit("channels");
    let es = seq![
        ("url"@, JsonModel::Str(f.url)),
        ("last_item_ts"@, int_model(f.last_item_ts)),
        ("channels"@, JsonModel::Array(f.channels.map_values(|c: u64| uint_model(c)))),
    ];
    assert(es.subrange(1, 3) =~= seq![es[1], es[2]]);
    assert(es.subrange(1, 3).subrange(1, 2) =~= seq![es[2]]);
    assert(lookup(es, "url"@) == JsonModel::Str(f.url));
    assert("last_item_ts"@.len() == 12 && "url"@.len() == 3 && "channels"@.len() == 8);
    assert("last_item_ts"@ != "url"@);
    let t1 = es.subrange(1, 3);
    let t2 = t1.subrange(1, 2);
    assert(t1[0] == es[1] && t1[1] == es[2] && t1.len() == 2);
    assert(t2[0] == es[2] && t2.len() == 1);
    assert(lookup(es, "last_item_ts"@) == lookup(t1, "last_item_ts"@));
    assert(lookup(es, "last_item_ts"@) == int_model(f.last_item_ts));
    assert("channels"@ != "url"@);
    assert("channels"@ != "last_item_ts"@);
    assert(lookup(es, "channels"@) == lookup(t1, "channels"@));
    assert(lookup(t1, "channels"@) == lookup(t2, "channels"@));
    assert(lookup(es, "channels"@) == es[2].1);
    let a = f.channels.map_values(|c: u64| uint_model(c));
    assert(channels_of(a) == Some(f.channels)) by {
        assert forall|k: int| 0 <= k < a.len() implies (#[trigger] channel_of(a[k])) is Some by {}
        assert(Seq::new(a.len(), |k: int| channel_of(a[k])->0) =~= f.channels);
    }
}

/// Saving a well-formed record set and loading the saved document gives back
/// the same records: the same URLs, watermarks and channels, in the same
/// order.
pub proof fn lemma_save_load_round_trip(s: Seq<FeedView>)
    requires
        crate::store::feeds_wf(s),
        saveable(s),
    ensures
        document_records(Some(saved_doc(s))) == Some(s),
        restore_spec(document_records(Some(saved_doc(s)))) == s,
{
    assert(dedup_channels(s) =~= s) by {
        assert forall|k: int| 0 <= k < s.len() implies #[trigger] dedup_channels(s)[k] == s[k] by {
            lemma_dedup_no_duplicates(s[k].channels);
        }
    }
    let a = s.map_values(|f: FeedView| saved_record(f));
    assert forall|k: int| 0 <= k < a.len() implies (#[trigger] record_of(a[k])) is Some && record_of(a[k])->0 == s[k] by {
        lemma_saved_record_reads_back(s[k]);
    }
    assert(Seq::new(a.len(), |k: int| record_of(a[k])->0) =~= s);
}

/// A text that parses to the saved document of a well-formed record set, and
/// has no overlong fraction, loads back to exactly that record set.
pub proof fn lemma_saved_text_loads_back(s: Seq<FeedView>, t: Seq<char>)
    requires
        crate::store::feeds_wf(s),
        saveable(s),
        json_parsed(t) == Some(saved_doc(s)),
        fractions_short(encode_utf8(t)),
    ensures
        restore_spec(text_records(t)) == s,
{
    lemma_save_load_round_trip(s);
}

impl RssFeeds {
    /// Restores the record set from a saved document, replacing nothing but
    /// building it whole: the records the document holds when it is an array
    /// of well-formed records, and no records otherwise.
    pub fn load(text: &str) -> (r: RssFeeds)
        ensures
            r.wf(),
            r@ == restore_spec(text_records(text@)),
            text@.len() == 0 ==> r@ == Seq::<FeedView>::empty(),
    {
        RssFeeds::restore(decode_feeds(text))
    }

    /// The whole record set as a JSON document, in record order; `None` when
    /// a watermark is `i64::MIN`, which the JSON library cannot write.
    pub fn store(&self) -> (r: Option<String>)
        ensures
            r is None <==> !saveable(self@),
            r matches Some(t) ==> json_parsed(t@) == Some(saved_doc(self@)),
    {
        let records = self.snapshot();
        let ghost s = self@;
        let mut values: Vec<JsonValue> = Vec::new();
        let mut i: usize = 0;
        while i < records.len()
            invariant
                records@.map_values(|f: FeedSubscription| f@) == s,
                s == self@,
                i <= records@.len(),
                values@.len() == i,
                forall|k: int| 0 <= k < i ==> json_view(#[trigger] values@[k]) == saved_record(s[k]),
                forall|k: int| 0 <= k < i ==> (#[trigger] s[k]).last_item_ts != i64::MIN,
            decreases records@.len() - i,
        {
            let f = &records[i];
            assert(s[i as int] == f@);
            if f.last_item_ts == i64::MIN {
                assert(s[i as int].last_item_ts == i64::MIN);
                assert(!saveable(s));
                assert(!saveable(self@));
                return None;
            }
            values.push(record_value(f.url.as_str(), f.last_item_ts, &f.channels));
            i = i + 1;
        }
        assert forall|k: int| 0 <= k < values@.len() implies exists|f: FeedView| #[trigger] json_view(values@[k]) == saved_record(f) by {
            assert(json_view(values@[k]) == saved_record(s[k]));
        }
        assert(values@.map_values(|v: JsonValue| json_view(v)) =~= saved_doc(s)->Array_0);
        Some(document_text(values))
    }
}

} // verus!
