//! Whether a document can be written, and what its index has to learn first.

use vstd::prelude::*;
use vstd::string::*;
use crate::{errors, ip, json, names, schema, text};
use crate::ip::reads_as_address;
use crate::json::{Json, JsonNumber, JsonV, NumV, compare_doubles, json_text, read_number};
use crate::schema::{IndexSchema, SchemaV, TantivyFieldType};
use crate::names::list_names;
use crate::text::{Standing, same_text};

verus! {

// ---------------------------------------------------------------------------
// Dates
// ---------------------------------------------------------------------------

/// The moment that `chrono` reads a text in the form of RFC 3339 as, in seconds since 1970.
pub uninterp spec fn rfc3339_secs(text: Seq<char>) -> Option<i64>;

/// The moment that `chrono` reads a text as by a format of date and time without an offset,
/// taken in universal time, in seconds since 1970.
pub uninterp spec fn naive_datetime_secs(text: Seq<char>, format: Seq<char>) -> Option<i64>;

/// The midnight that `chrono` reads a text as by a format of a date, taken in universal time, in
/// seconds since 1970.
pub uninterp spec fn naive_date_secs(text: Seq<char>, format: Seq<char>) -> Option<i64>;

/// Reads a moment in the form of RFC 3339.
///
/// What `DateTime::parse_from_rfc3339` makes of a text is only named here.
#[verifier::external_body]
pub(crate) fn read_rfc3339(text: &str) -> (secs: Option<i64>)
    ensures
        secs == rfc3339_secs(text@),
{
    chrono::DateTime::parse_from_rfc3339(text).ok().map(|moment| moment.timestamp())
}

/// Reads a date and time by a format.
///
/// What `NaiveDateTime::parse_from_str` makes of a text is only named here.
#[verifier::external_body]
pub(crate) fn read_naive_datetime(text: &str, format: &str) -> (secs: Option<i64>)
    ensures
        secs == naive_datetime_secs(text@, format@),
{
    chrono::NaiveDateTime::parse_from_str(text, format).ok().map(|moment| moment.and_utc().timestamp())
}

/// Reads a date by a format.
///
/// What `NaiveDate::parse_from_str` makes of a text is only named here.
#[verifier::external_body]
pub(crate) fn read_naive_date(text: &str, format: &str) -> (secs: Option<i64>)
    ensures
        secs == naive_date_secs(text@, format@),
{
    chrono::NaiveDate::parse_from_str(text, format).ok().map(
        |day| day.and_time(chrono::NaiveTime::MIN).and_utc().timestamp(),
    )
}

/// The first reading there is.
pub open spec fn first_reading(readings: Seq<Option<i64>>) -> Option<i64>
    decreases readings.len(),
{
    if readings.len() == 0 {
        None
    } else if readings[0] is Some {
        readings[0]
    } else {
        first_reading(readings.drop_first())
    }
}

/// The readings of a text by the common formats of date and time without an offset.
pub open spec fn datetime_readings(text: Seq<char>) -> Seq<Option<i64>> {
    seq![
        naive_datetime_secs(text, "%Y-%m-%d %H:%M:%S"@),
        naive_datetime_secs(text, "%Y-%m-%d %H:%M"@),
        naive_datetime_secs(text, "%Y-%m-%dT%H:%M:%S"@),
        naive_datetime_secs(text, "%Y-%m-%dT%H:%M"@),
        naive_datetime_secs(text, "%Y-%m-%d %H:%M:%S%.f"@),
        naive_datetime_secs(text, "%Y-%m-%dT%H:%M:%S%.f"@),
    ]
}

/// The readings of a text by the common formats of a date.
pub open spec fn date_readings(text: Seq<char>) -> Seq<Option<i64>> {
    seq![
        naive_date_secs(text, "%Y-%m-%d"@),
        naive_date_secs(text, "%Y/%m/%d"@),
        naive_date_secs(text, "%Y%m%d"@),
        naive_date_secs(text, "%Y-%m"@),
        naive_date_secs(text, "%Y"@),
    ]
}

/// The moment of a date and time without an offset.
pub fn naive_datetime(text: &str) -> (secs: Option<i64>)
    ensures
        secs == first_reading(datetime_readings(text@)),
{
    proof {
        let all = datetime_readings(text@);
        lemma_first_reading_steps(all);
    }
    if let Some(secs) = read_naive_datetime(text, "%Y-%m-%d %H:%M:%S") {
        return Some(secs);
    }
    if let Some(secs) = read_naive_datetime(text, "%Y-%m-%d %H:%M") {
        return Some(secs);
    }
    if let Some(secs) = read_naive_datetime(text, "%Y-%m-%dT%H:%M:%S") {
        return Some(secs);
    }
    if let Some(secs) = read_naive_datetime(text, "%Y-%m-%dT%H:%M") {
        return Some(secs);
    }
    if let Some(secs) = read_naive_datetime(text, "%Y-%m-%d %H:%M:%S%.f") {
        return Some(secs);
    }
    read_naive_datetime(text, "%Y-%m-%dT%H:%M:%S%.f")
}

/// The first reading is the one no earlier reading precedes.
proof fn lemma_first_reading_steps(readings: Seq<Option<i64>>)
    ensures
        forall|i: int|
            0 <= i < readings.len() && (#[trigger] readings[i]) is Some && (forall|j: int|
                0 <= j < i ==> (#[trigger] readings[j]) is None) ==> first_reading(readings)
                == readings[i],
        (forall|i: int| 0 <= i < readings.len() ==> (#[trigger] readings[i]) is None)
            ==> first_reading(readings) is None,
    decreases readings.len(),
{
    if readings.len() > 0 && readings[0] is None {
        let rest = readings.drop_first();
        lemma_first_reading_steps(rest);
        assert forall|i: int|
            0 <= i < readings.len() && (#[trigger] readings[i]) is Some && (forall|j: int|
                0 <= j < i ==> (#[trigger] readings[j]) is None) implies first_reading(readings)
            == readings[i] by {
            assert(rest[i - 1] == readings[i]);
            assert forall|j: int| 0 <= j < i - 1 implies (#[trigger] rest[j]) is None by {
                assert(readings[j + 1] is None);
            }
        }
        if forall|i: int| 0 <= i < readings.len() ==> (#[trigger] readings[i]) is None {
            assert forall|i: int| 0 <= i < rest.len() implies (#[trigger] rest[i]) is None by {
                assert(readings[i + 1] is None);
            }
        }
    }
}

/// The midnight of a date.
pub fn naive_date(text: &str) -> (secs: Option<i64>)
    ensures
        secs == first_reading(date_readings(text@)),
{
    proof {
        let all = date_readings(text@);
        lemma_first_reading_steps(all);
    }
    if let Some(secs) = read_naive_date(text, "%Y-%m-%d") {
        return Some(secs);
    }
    if let Some(secs) = read_naive_date(text, "%Y/%m/%d") {
        return Some(secs);
    }
    if let Some(secs) = read_naive_date(text, "%Y%m%d") {
        return Some(secs);
    }
    if let Some(secs) = read_naive_date(text, "%Y-%m") {
        return Some(secs);
    }
    read_naive_date(text, "%Y")
}

/// Whether a text is a date and time in a common form without an offset.
pub fn is_naive_datetime(text: &str) -> (reads: bool)
    ensures
        reads == (first_reading(datetime_readings(text@)) is Some),
{
    naive_datetime(text).is_some()
}

/// Whether a text is a date in a common form.
pub fn is_naive_date(text: &str) -> (reads: bool)
    ensures
        reads == (first_reading(date_readings(text@)) is Some),
{
    naive_date(text).is_some()
}

/// The moment a text stands for, in seconds since 1970: as RFC 3339, as a date and time, or as
/// the midnight of a date.
pub open spec fn date_secs(text: Seq<char>) -> Option<i64> {
    if rfc3339_secs(text) is Some {
        rfc3339_secs(text)
    } else if first_reading(datetime_readings(text)) is Some {
        first_reading(datetime_readings(text))
    } else {
        first_reading(date_readings(text))
    }
}

/// The moment a text stands for, in seconds since 1970.
pub fn parse_date_to_timestamp_secs(text: &str) -> (secs: Option<i64>)
    ensures
        secs == date_secs(text@),
{
    if let Some(secs) = read_rfc3339(text) {
        return Some(secs);
    }
    if let Some(secs) = naive_datetime(text) {
        return Some(secs);
    }
    naive_date(text)
}

// ---------------------------------------------------------------------------
// Types of values
// ---------------------------------------------------------------------------

/// The field type a value would be given if the schema had never seen the field.
pub open spec fn inferred_type(value: JsonV) -> TantivyFieldType {
    match value {
        JsonV::Text(text) => if date_secs(text) is Some {
            TantivyFieldType::Date
        } else if ip::is_address(text) {
            TantivyFieldType::Ip
        } else {
            TantivyFieldType::Text
        },
        JsonV::Number(NumV::Real(_)) => TantivyFieldType::F64,
        JsonV::Number(NumV::Negative(_)) => TantivyFieldType::I64,
        JsonV::Number(NumV::Unsigned(n)) => if n <= i64::MAX {
            TantivyFieldType::I64
        } else {
            TantivyFieldType::U64
        },
        JsonV::Bool(_) => TantivyFieldType::Boolean,
        JsonV::Array(_) => TantivyFieldType::Text,
        JsonV::Object(_) => TantivyFieldType::Json,
        JsonV::Null => TantivyFieldType::Text,
    }
}

/// The field type a value would be given if the schema had never seen the field.
///
/// A text is examined before it is called text: a timestamp is a date and an address is an
/// address. A list reads as text, an object as json, and null as text, the one type that can hold
/// the absence of a value. Not asked of the document key, which is text whatever it looks like.
pub fn infer_field_type(value: &Json) -> (field_type: TantivyFieldType)
    ensures
        field_type == inferred_type(value@),
{
    match value {
        Json::Text(text) => {
            let is_date: bool = read_rfc3339(text.as_str()).is_some() || is_naive_datetime(
                text.as_str(),
            ) || is_naive_date(text.as_str());
            if is_date {
                TantivyFieldType::Date
            } else if reads_as_address(text.as_str()) {
                TantivyFieldType::Ip
            } else {
                TantivyFieldType::Text
            }
        },
        Json::Number(JsonNumber::Real(_)) => TantivyFieldType::F64,
        Json::Number(JsonNumber::Negative(_)) => TantivyFieldType::I64,
        Json::Number(JsonNumber::Unsigned(n)) => if *n <= i64::MAX as u64 {
            TantivyFieldType::I64
        } else {
            TantivyFieldType::U64
        },
        Json::Bool(_) => TantivyFieldType::Boolean,
        Json::Array(_) => TantivyFieldType::Text,
        Json::Object(_) => TantivyFieldType::Json,
        Json::Null => TantivyFieldType::Text,
    }
}

/// Whether a field declared as one type can hold a single value that reads as another.
pub open spec fn type_holds(declared: TantivyFieldType, inferred: TantivyFieldType) -> bool {
    ||| declared == inferred
    ||| declared == TantivyFieldType::String && inferred == TantivyFieldType::Text
    ||| (declared == TantivyFieldType::I64 || declared == TantivyFieldType::U64) && inferred
        == TantivyFieldType::F64
}

/// Whether a field declared as one type can hold a single value that reads as another.
///
/// `String` is `Text` under an older name, and a numeric field widens to a float. Everything else
/// has to match.
pub fn scalar_type_is_storable(declared: &TantivyFieldType, inferred: &TantivyFieldType) -> (holds:
    bool)
    ensures
        holds == type_holds(*declared, *inferred),
{
    if *declared == *inferred {
        return true;
    }
    match (declared, inferred) {
        (TantivyFieldType::String, TantivyFieldType::Text) => true,
        (TantivyFieldType::I64, TantivyFieldType::F64) => true,
        (TantivyFieldType::U64, TantivyFieldType::F64) => true,
        _ => false,
    }
}

/// The one wording for a value whose type the field cannot hold.
pub open spec fn mismatch(field: Seq<char>, declared: TantivyFieldType, value: JsonV) -> Seq<char> {
    "Type mismatch for field '"@ + field + "': expected "@ + schema::type_label(declared) + ", got "@
        + schema::type_label(inferred_type(value))
}

/// The one wording for a value whose type the field cannot hold.
pub fn type_mismatch(field: &str, declared: &TantivyFieldType, value: &Json) -> (why: String)
    ensures
        why@ == mismatch(field@, *declared, value@),
{
    let mut why: String = String::from_str("Type mismatch for field '");
    why.append(field);
    why.append("': expected ");
    why.append(declared.label());
    why.append(", got ");
    why.append(infer_field_type(value).label());
    why
}

// ---------------------------------------------------------------------------
// What only the store can judge
// ---------------------------------------------------------------------------

/// What the store says of values that only it can judge: the ones that it refuses, each with why.
#[derive(Debug, Clone, PartialEq, Eq)]
pub struct StoreRefusals {
    /// Values that are no bytes, by how they are written.
    pub bytes: Vec<(String, String)>,
    /// Texts that are no facet paths.
    pub facets: Vec<(String, String)>,
}

/// What the store refuses, as a value of the model.
pub struct RefusalsV {
    pub bytes: Seq<(Seq<char>, Seq<char>)>,
    pub facets: Seq<(Seq<char>, Seq<char>)>,
}

/// Pairs of texts, as values of the model.
pub open spec fn text_pairs(list: Seq<(String, String)>) -> Seq<(Seq<char>, Seq<char>)> {
    list.map_values(|pair: (String, String)| (pair.0@, pair.1@))
}

impl View for StoreRefusals {
    type V = RefusalsV;

    open spec fn view(&self) -> RefusalsV {
        RefusalsV { bytes: text_pairs(self.bytes@), facets: text_pairs(self.facets@) }
    }
}

impl StoreRefusals {
    /// Nothing is refused.
    pub fn none() -> (refusals: StoreRefusals)
        ensures
            refusals@ == (RefusalsV { bytes: Seq::empty(), facets: Seq::empty() }),
    {
        let refusals = StoreRefusals { bytes: Vec::new(), facets: Vec::new() };
        assert(text_pairs(refusals.bytes@) =~= Seq::empty());
        assert(text_pairs(refusals.facets@) =~= Seq::empty());
        refusals
    }
}

/// What is said of a text, if anything is.
fn said_of(list: &Vec<(String, String)>, wanted: &str) -> (said: Option<String>)
    ensures
        errors::opt_text(said) == json::value_under(text_pairs(list@), wanted@),
{
    let ghost pairs = text_pairs(list@);
    proof {
        json::lemma_key_place(pairs, wanted@);
    }
    let mut i: usize = 0;
    while i < list.len()
        invariant
            i <= list.len(),
            pairs == text_pairs(list@),
            0 <= json::key_place(pairs, wanted@) <= pairs.len(),
            json::key_place(pairs, wanted@) < pairs.len() ==> pairs[json::key_place(
                pairs,
                wanted@,
            )].0 == wanted@,
            i <= json::key_place(pairs, wanted@),
        decreases list.len() - i,
    {
        proof {
            json::lemma_key_place(pairs, wanted@);
            assert(pairs[i as int] == (list@[i as int].0@, list@[i as int].1@));
        }
        if same_text(list[i].0.as_str(), wanted) {
            return Some(list[i].1.clone());
        }
        i += 1;
    }
    None
}

/// Why a value is not one byte, if it is not.
pub open spec fn byte_error(value: JsonV, refusals: RefusalsV) -> Option<Seq<char>> {
    json::value_under(refusals.bytes, json::json_chars(value))
}

/// Why a value is not one byte, if it is not.
pub fn byte_value_error(value: &Json, refusals: &StoreRefusals) -> (why: Option<String>)
    ensures
        errors::opt_text(why) == byte_error(value@, refusals@),
{
    said_of(&refusals.bytes, json_text(value).as_str())
}

/// Why a text is not a facet path, if it is not.
pub open spec fn facet_error(path: Seq<char>, refusals: RefusalsV) -> Option<Seq<char>> {
    json::value_under(refusals.facets, path)
}

/// Why a text is not a facet path, if it is not.
pub fn facet_path_error(path: &str, refusals: &StoreRefusals) -> (why: Option<String>)
    ensures
        errors::opt_text(why) == facet_error(path@, refusals@),
{
    said_of(&refusals.facets, path)
}

/// A reason told of a field.
pub open spec fn of_field(field: Seq<char>, why: Seq<char>) -> Seq<char> {
    "field '"@ + field + "': "@ + why
}

/// Tells a reason of a field.
fn tell_of_field(field: &str, why: &str) -> (told: String)
    ensures
        told@ == of_field(field@, why@),
{
    let mut told: String = String::from_str("field '");
    told.append(field);
    told.append("': ");
    told.append(why);
    told
}

/// Why a field cannot hold one value of it, if it cannot.
pub open spec fn scalar_error(
    field: Seq<char>,
    declared: TantivyFieldType,
    value: JsonV,
    refusals: RefusalsV,
) -> Option<Seq<char>> {
    if value is Null {
        None
    } else if declared == TantivyFieldType::Facet {
        match value {
            JsonV::Text(path) => match facet_error(path, refusals) {
                Some(why) => Some(of_field(field, why)),
                None => None,
            },
            _ => Some(mismatch(field, declared, value)),
        }
    } else if type_holds(declared, inferred_type(value)) {
        None
    } else {
        Some(mismatch(field, declared, value))
    }
}

/// Why the field cannot hold one value of it, if it cannot.
///
/// A list and a scalar are judged alike: an element is exactly as unstorable in a list as it is on
/// its own. Of a facet the value decides rather than the type.
pub fn unstorable_scalar(
    field: &str,
    declared: &TantivyFieldType,
    value: &Json,
    refusals: &StoreRefusals,
) -> (why: Option<String>)
    ensures
        errors::opt_text(why) == scalar_error(field@, *declared, value@, refusals@),
{
    if let Json::Null = value {
        return None;
    }
    if let TantivyFieldType::Facet = declared {
        return match value {
            Json::Text(path) => match facet_path_error(path.as_str(), refusals) {
                Some(why) => Some(tell_of_field(field, why.as_str())),
                None => None,
            },
            _ => Some(type_mismatch(field, declared, value)),
        };
    }
    let inferred: TantivyFieldType = infer_field_type(value);
    if scalar_type_is_storable(declared, &inferred) {
        None
    } else {
        Some(type_mismatch(field, declared, value))
    }
}

/// The first of several reasons there is.
pub open spec fn first_reason(reasons: Seq<Option<Seq<char>>>) -> Option<Seq<char>>
    decreases reasons.len(),
{
    if reasons.len() == 0 {
        None
    } else {
        match first_reason(reasons.drop_last()) {
            Some(why) => Some(why),
            None => reasons.last(),
        }
    }
}

/// Nothing precedes a first reason, and adding behind it does not change it.
proof fn lemma_first_reason_stays(reasons: Seq<Option<Seq<char>>>, n: int)
    requires
        0 <= n <= reasons.len(),
        first_reason(reasons.take(n)) is Some,
    ensures
        first_reason(reasons) == first_reason(reasons.take(n)),
    decreases reasons.len() - n,
{
    if n < reasons.len() {
        assert(reasons.take(n + 1).drop_last() =~= reasons.take(n));
        lemma_first_reason_stays(reasons, n + 1);
    } else {
        assert(reasons.take(n) =~= reasons);
    }
}

/// Why the items of a list cannot be held, one by one.
pub open spec fn item_errors(
    field: Seq<char>,
    declared: TantivyFieldType,
    items: Seq<JsonV>,
    refusals: RefusalsV,
) -> Seq<Option<Seq<char>>> {
    items.map_values(
        |item: JsonV|
            if declared == TantivyFieldType::Bytes {
                match byte_error(item, refusals) {
                    Some(why) => Some(of_field(field, why)),
                    None => None,
                }
            } else {
                scalar_error(field, declared, item, refusals)
            },
    )
}

/// Why a field cannot hold a value, if it cannot.
pub open spec fn storage_error(
    field: Seq<char>,
    declared: TantivyFieldType,
    value: JsonV,
    refusals: RefusalsV,
) -> Option<Seq<char>> {
    if value is Null || declared == TantivyFieldType::Text || declared == TantivyFieldType::Json {
        None
    } else {
        match value {
            JsonV::Array(items) => first_reason(item_errors(field, declared, items, refusals)),
            _ => if declared == TantivyFieldType::Bytes {
                Some(mismatch(field, declared, value))
            } else {
                scalar_error(field, declared, value, refusals)
            },
        }
    }
}

/// Why the field cannot hold this value, if it cannot.
///
/// A list is several values of the field, each held to the declared type on its own, and one level
/// is looked into and no more. A text or json field takes anything. Bytes wants a list of byte
/// values and nothing else. Null is the absence of a value, and any field may be absent.
pub fn unstorable_value(
    field: &str,
    declared: &TantivyFieldType,
    value: &Json,
    refusals: &StoreRefusals,
) -> (why: Option<String>)
    ensures
        errors::opt_text(why) == storage_error(field@, *declared, value@, refusals@),
{
    broadcast use json::lemma_model_by_parts;

    if let Json::Null = value {
        return None;
    }
    match declared {
        TantivyFieldType::Text => {
            return None;
        },
        TantivyFieldType::Json => {
            return None;
        },
        _ => {},
    }
    let bytes: bool = *declared == TantivyFieldType::Bytes;
    match value {
        Json::Array(items) => {
            let ghost reasons = item_errors(field@, *declared, json::models(items@), refusals@);
            let mut i: usize = 0;
            while i < items.len()
                invariant
                    i <= items.len(),
                    bytes == (*declared == TantivyFieldType::Bytes),
                    !(*declared == TantivyFieldType::Text || *declared == TantivyFieldType::Json),
                    *value == Json::Array(*items),
                    reasons == item_errors(field@, *declared, json::models(items@), refusals@),
                    first_reason(reasons.take(i as int)) is None,
                decreases items.len() - i,
            {
                let why: Option<String> = if bytes {
                    match byte_value_error(&items[i], refusals) {
                        Some(why) => Some(tell_of_field(field, why.as_str())),
                        None => None,
                    }
                } else {
                    unstorable_scalar(field, declared, &items[i], refusals)
                };
                proof {
                    assert(json::models(items@)[i as int] == items@[i as int]@);
                    assert(errors::opt_text(why) == reasons[i as int]);
                    assert(reasons.take(i + 1).drop_last() =~= reasons.take(i as int));
                }
                if why.is_some() {
                    proof {
                        lemma_first_reason_stays(reasons, i + 1);
                        assert(reasons.take(i + 1).last() == reasons[i as int]);
                        json::lemma_model_by_parts(*value);
                    }
                    return why;
                }
                i += 1;
            }
            assert(reasons.take(items.len() as int) =~= reasons);
            None
        },
        _ => {
            if bytes {
                Some(type_mismatch(field, declared, value))
            } else {
                unstorable_scalar(field, declared, value, refusals)
            }
        },
    }
}

/// Whether a field takes a list apart into several values of it.
pub open spec fn takes_lists_apart(declared: TantivyFieldType) -> bool {
    declared != TantivyFieldType::Text && declared != TantivyFieldType::Json && declared
        != TantivyFieldType::Bytes
}

/// A list is several values of a field: it can be held exactly where each of its elements can be held
/// on its own.
pub proof fn law_a_list_is_judged_by_its_elements(
    field: Seq<char>,
    declared: TantivyFieldType,
    items: Seq<JsonV>,
    refusals: RefusalsV,
)
    requires
        takes_lists_apart(declared),
    ensures
        storage_error(field, declared, JsonV::Array(items), refusals) is None <==> forall|i: int|
            0 <= i < items.len() ==> scalar_error(field, declared, #[trigger] items[i], refusals) is None,
        forall|i: int|
            0 <= i < items.len() && !((#[trigger] items[i]) is Array) ==> storage_error(
                field,
                declared,
                items[i],
                refusals,
            ) == scalar_error(field, declared, items[i], refusals),
{
    let errors = item_errors(field, declared, items, refusals);
    lemma_first_reason_is_none(errors);
    assert forall|i: int| 0 <= i < items.len() implies #[trigger] errors[i] == scalar_error(
        field,
        declared,
        items[i],
        refusals,
    ) by {}
    if forall|i: int|
        0 <= i < items.len() ==> scalar_error(field, declared, #[trigger] items[i], refusals) is None {
        assert forall|i: int| 0 <= i < errors.len() implies (#[trigger] errors[i]) is None by {
            assert(scalar_error(field, declared, items[i], refusals) is None);
        }
    }
    if storage_error(field, declared, JsonV::Array(items), refusals) is None {
        assert forall|i: int| 0 <= i < items.len() implies scalar_error(
            field,
            declared,
            #[trigger] items[i],
            refusals,
        ) is None by {
            assert(errors[i] is None);
        }
    }
}

/// There is no first reason exactly where there is no reason.
proof fn lemma_first_reason_is_none(reasons: Seq<Option<Seq<char>>>)
    ensures
        first_reason(reasons) is None <==> forall|i: int|
            0 <= i < reasons.len() ==> (#[trigger] reasons[i]) is None,
    decreases reasons.len(),
{
    if reasons.len() > 0 {
        let front = reasons.drop_last();
        lemma_first_reason_is_none(front);
        if forall|i: int| 0 <= i < front.len() ==> (#[trigger] front[i]) is None {
            assert forall|i: int| 0 <= i < reasons.len() - 1 implies (#[trigger] reasons[i]) is None by {
                assert(front[i] is None);
            }
        } else {
            let i = choose|i: int| 0 <= i < front.len() && !((#[trigger] front[i]) is None);
            assert(reasons[i] == front[i]);
        }
    }
}

/// An absent value can be held by any field, and any value by a field of text or of JSON.
pub proof fn law_absence_and_text_fit_anywhere(
    field: Seq<char>,
    declared: TantivyFieldType,
    value: JsonV,
    refusals: RefusalsV,
)
    requires
        value is Null || declared == TantivyFieldType::Text || declared == TantivyFieldType::Json,
    ensures
        storage_error(field, declared, value, refusals) is None,
{
}

// ---------------------------------------------------------------------------
// Identity
// ---------------------------------------------------------------------------

/// Whether two numbers are the same number, written as the same kind.
pub open spec fn same_number(a: NumV, b: NumV) -> bool {
    match (a, b) {
        (NumV::Unsigned(x), NumV::Unsigned(y)) => x == y,
        (NumV::Negative(x), NumV::Negative(y)) => x == y,
        (NumV::Real(x), NumV::Real(y)) => json::double_of(x) is Some && json::double_of(x)
            == json::double_of(y),
        _ => false,
    }
}

/// Whether a value written under a name for the document key is that key.
pub open spec fn is_identifier(value: JsonV, id: Seq<char>) -> bool {
    match value {
        JsonV::Text(text) => text == id,
        JsonV::Number(number) => match json::number_reading(id) {
            Some(read) => same_number(read, number),
            None => false,
        },
        _ => false,
    }
}

/// Whether a value written under a name for the document key is that key.
///
/// The key itself is always a text, while a body may carry it as a number. So the key is read as a
/// number too before those two are called a disagreement.
pub fn names_identifier(value: &Json, id: &str) -> (names: bool)
    ensures
        names == is_identifier(value@, id@),
{
    match value {
        Json::Text(text) => same_text(text.as_str(), id),
        Json::Number(number) => match read_number(id) {
            Some(read) => match (&read, number) {
                (JsonNumber::Unsigned(x), JsonNumber::Unsigned(y)) => *x == *y,
                (JsonNumber::Negative(x), JsonNumber::Negative(y)) => *x == *y,
                (JsonNumber::Real(x), JsonNumber::Real(y)) => match compare_doubles(
                    x.as_str(),
                    y.as_str(),
                ) {
                    Some(Standing::Level) => true,
                    _ => false,
                },
                _ => false,
            },
            None => false,
        },
        _ => false,
    }
}

/// What is said of a document written without a key.
pub open spec fn no_key_refusal() -> Seq<char> {
    "Document must be written with a non-empty 'id' beside its body: the identifier is the key it is stored, updated and looked up under. The body itself does not have to repeat it."@
}

/// What is said of a document whose body contradicts its key.
pub open spec fn key_refusal(id: Seq<char>, body_id: JsonV) -> Seq<char> {
    "document is written under id="@ + id + " but its body says id="@ + json::json_chars(body_id)
        + ". The identifier beside the body is the key the document is stored under, so the two cannot differ: a later read would find this document as "@
        + id + " and report "@ + json::json_chars(body_id)
        + ". Leave 'id' out of the body — it is supplied from the key — or correct one of the two."@
}

/// Why a document cannot be stored under the identifier it arrived with, if it cannot.
pub open spec fn identity_error(id: Seq<char>, doc: JsonV) -> Option<Seq<char>> {
    match doc {
        JsonV::Object(_) => if id.len() == 0 {
            Some(no_key_refusal())
        } else {
            match doc.get("id"@) {
                Some(body_id) if !is_identifier(body_id, id) => Some(key_refusal(id, body_id)),
                _ => None,
            }
        },
        _ => Some("Document body must be a JSON object"@),
    }
}

/// Why a document cannot be stored under the identifier it arrived with, if it cannot.
///
/// A body that carries the key is valid only while it agrees with it.
pub fn unusable_document_identity(id: &str, doc: &Json) -> (why: Option<String>)
    ensures
        errors::opt_text(why) == identity_error(id@, doc@),
{
    if doc.as_object().is_none() {
        return Some(String::from_str("Document body must be a JSON object"));
    }
    if id.is_empty() {
        return Some(
            String::from_str(
                "Document must be written with a non-empty 'id' beside its body: the identifier is the key it is stored, updated and looked up under. The body itself does not have to repeat it.",
            ),
        );
    }
    match doc.get("id") {
        Some(body_id) => {
            if names_identifier(body_id, id) {
                return None;
            }
            let written: String = json_text(body_id);
            let mut why: String = String::from_str("document is written under id=");
            why.append(id);
            why.append(" but its body says id=");
            why.append(written.as_str());
            why.append(
                ". The identifier beside the body is the key the document is stored under, so the two cannot differ: a later read would find this document as ",
            );
            why.append(id);
            why.append(" and report ");
            why.append(written.as_str());
            why.append(
                ". Leave 'id' out of the body — it is supplied from the key — or correct one of the two.",
            );
            Some(why)
        },
        None => None,
    }
}

/// What is said of a shadow field that does not carry the key.
pub open spec fn shadow_refusal(name: Seq<char>, value: JsonV, id: Seq<char>) -> Seq<char> {
    "field '"@ + name
        + "' is a shadow of 'id' and must carry the same value, but this document has "@ + name
        + "="@ + json::json_chars(value) + " and id="@ + id
        + ". A shadow field is a name for the identifier rather than a field of its own, so nothing would store "@
        + json::json_chars(value) + " and a later read would report "@ + id + " under '"@ + name
        + "'. Write the value under a different field name, or correct the identifier."@
}

/// Whether a document says something else than its key under a name for the key.
pub open spec fn disagrees_under(doc: JsonV, name: Seq<char>, id: Seq<char>) -> bool {
    match doc.get(name) {
        Some(value) => !is_identifier(value, id),
        None => false,
    }
}

/// Whether a text is the refusal for the name under which a document disagrees with its key, and
/// that name comes first alphabetically.
pub open spec fn is_shadow_refusal(
    why: Seq<char>,
    doc: JsonV,
    names: Seq<Seq<char>>,
    id: Seq<char>,
    name: Seq<char>,
) -> bool {
    &&& names.contains(name)
    &&& disagrees_under(doc, name, id)
    &&& why == shadow_refusal(name, doc.get(name)->0, id)
    &&& forall|other: Seq<char>|
        names.contains(other) && disagrees_under(doc, other, id) ==> #[trigger] text::text_order(name, other)
            != Standing::After
}

/// Whether a text tells of the first name under which a document disagrees with its key.
pub open spec fn tells_of_disagreement(
    why: Seq<char>,
    doc: JsonV,
    names: Seq<Seq<char>>,
    id: Seq<char>,
) -> bool {
    exists|name: Seq<char>| #[trigger] is_shadow_refusal(why, doc, names, id, name)
}

/// Why a document's shadow fields cannot be stored as written, if they cannot.
///
/// A shadow field is the document key under the source's own name, and nothing holds a second copy
/// of the value, so a document that says otherwise is refused. Leaving the field out is no
/// disagreement. Names are taken alphabetically, so the same document is told the same thing.
pub fn disagreeing_shadow_field(doc: &Json, schema: &IndexSchema, id: &str) -> (why: Option<String>)
    ensures
        why is Some <==> exists|name: Seq<char>| #[trigger]
            schema@.shadow_names().contains(name) && disagrees_under(doc@, name, id@),
        why matches Some(told) ==> tells_of_disagreement(
            told@,
            doc@,
            schema@.shadow_names(),
            id@,
        ),
{
    let declared: Vec<String> = schema.shadow_names();
    let ghost all = text::texts(declared@);
    let names: Vec<String> = list_names(declared, false);
    let ghost order = choose|order: Seq<int>| #[trigger]
        names::is_listing(text::texts(names@), all, false, order);
    proof {
        names::lemma_listing_holds_the_same(text::texts(names@), all, false, order);
    }
    let mut i: usize = 0;
    while i < names.len()
        invariant
            i <= names.len(),
            all == schema@.shadow_names(),
            names::is_listing(text::texts(names@), all, false, order),
            forall|name: Seq<char>| #[trigger] text::texts(names@).contains(name) <==> all.contains(name),
            forall|k: int|
                0 <= k < i ==> !disagrees_under(doc@, #[trigger] text::texts(names@)[k], id@),
        decreases names.len() - i,
    {
        let name: &String = &names[i];
        assert(text::texts(names@)[i as int] == name@);
        assert(text::texts(names@).contains(name@));
        if let Some(value) = doc.get(name.as_str()) {
            if !names_identifier(value, id) {
                let written: String = json_text(value);
                let mut why: String = String::from_str("field '");
                why.append(name.as_str());
                why.append(
                    "' is a shadow of 'id' and must carry the same value, but this document has ",
                );
                why.append(name.as_str());
                why.append("=");
                why.append(written.as_str());
                why.append(" and id=");
                why.append(id);
                why.append(
                    ". A shadow field is a name for the identifier rather than a field of its own, so nothing would store ",
                );
                why.append(written.as_str());
                why.append(" and a later read would report ");
                why.append(id);
                why.append(" under '");
                why.append(name.as_str());
                why.append(
                    "'. Write the value under a different field name, or correct the identifier.",
                );
                proof {
                    assert(all.contains(name@) && disagrees_under(doc@, name@, id@));
                    assert forall|other: Seq<char>|
                        all.contains(other) && disagrees_under(doc@, other, id@) implies #[trigger] text::text_order(
                        name@,
                        other,
                    ) != Standing::After by {
                        assert(text::texts(names@).contains(other));
                        let k = choose|k: int| 0 <= k < text::texts(names@).len() && text::texts(names@)[k] == other;
                        assert(k >= i);
                        if k == i {
                            text::lemma_text_order_flips(name@, other);
                        } else {
                            assert((names::name_before(all, false))(order[i as int], order[k]));
                            assert(text::texts(names@)[i as int] == all[order[i as int]]);
                            assert(text::texts(names@)[k] == all[order[k]]);
                        }
                    }
                    assert(is_shadow_refusal(why@, doc@, all, id@, name@));
                    assert(tells_of_disagreement(why@, doc@, all, id@));
                }
                return Some(why);
            }
        }
        i += 1;
    }
    proof {
        if exists|name: Seq<char>| #[trigger] all.contains(name) && disagrees_under(doc@, name, id@) {
            let name = choose|name: Seq<char>| #[trigger] all.contains(name) && disagrees_under(
                doc@,
                name,
                id@,
            );
            assert(text::texts(names@).contains(name));
            let k = choose|k: int| 0 <= k < text::texts(names@).len() && text::texts(names@)[k] == name;
            assert(!disagrees_under(doc@, text::texts(names@)[k], id@));
        }
    }
    None
}

// ---------------------------------------------------------------------------
// Documents
// ---------------------------------------------------------------------------

/// Names and types, as values of the model.
pub open spec fn typed_names(list: Seq<(String, TantivyFieldType)>) -> Seq<
    (Seq<char>, TantivyFieldType),
> {
    list.map_values(|entry: (String, TantivyFieldType)| (entry.0@, entry.1))
}

/// What one document was judged to be.
#[derive(Debug, Clone, PartialEq, Eq)]
pub struct SchemaValidationResult {
    pub needs_evolution: bool,
    pub new_fields: Vec<(String, TantivyFieldType)>,
    pub validation_error: Option<String>,
}

/// What one document was judged to be, as a value of the model.
pub struct VerdictV {
    pub needs_evolution: bool,
    pub new_fields: Seq<(Seq<char>, TantivyFieldType)>,
    pub error: Option<Seq<char>>,
}

impl View for SchemaValidationResult {
    type V = VerdictV;

    open spec fn view(&self) -> VerdictV {
        VerdictV {
            needs_evolution: self.needs_evolution,
            new_fields: typed_names(self.new_fields@),
            error: errors::opt_text(self.validation_error),
        }
    }
}

/// The verdict on a document that cannot be written.
pub open spec fn refused(why: Seq<char>) -> VerdictV {
    VerdictV { needs_evolution: false, new_fields: Seq::empty(), error: Some(why) }
}

/// The verdict on a document that can be written once its index knows some fields.
pub open spec fn accepted(new_fields: Seq<(Seq<char>, TantivyFieldType)>) -> VerdictV {
    VerdictV { needs_evolution: new_fields.len() > 0, new_fields, error: None }
}

/// What the fields of a document come to: the fields its index has yet to hear of, in the order
/// the document carries them, or why the first that does not fit cannot be stored.
pub open spec fn judged_fields(
    entries: Seq<(Seq<char>, JsonV)>,
    schema: SchemaV,
    refusals: RefusalsV,
) -> Result<Seq<(Seq<char>, TantivyFieldType)>, Seq<char>>
    decreases entries.len(),
{
    if entries.len() == 0 {
        Ok(Seq::empty())
    } else {
        match judged_fields(entries.drop_last(), schema, refusals) {
            Err(why) => Err(why),
            Ok(known) => {
                let (key, value) = entries.last();
                if key == "id"@ {
                    Ok(known)
                } else {
                    match schema.field(key) {
                        Some(field) => match storage_error(key, field.field_type, value, refusals) {
                            Some(why) => Err(why),
                            None => Ok(known),
                        },
                        None => Ok(known.push((key, inferred_type(value)))),
                    }
                }
            },
        }
    }
}

/// A field that does not fit stays the first that does not fit.
proof fn lemma_judged_refusal_stays(
    entries: Seq<(Seq<char>, JsonV)>,
    schema: SchemaV,
    refusals: RefusalsV,
    n: int,
)
    requires
        0 <= n <= entries.len(),
        judged_fields(entries.take(n), schema, refusals) is Err,
    ensures
        judged_fields(entries, schema, refusals) == judged_fields(entries.take(n), schema, refusals),
    decreases entries.len() - n,
{
    if n < entries.len() {
        assert(entries.take(n + 1).drop_last() =~= entries.take(n));
        lemma_judged_refusal_stays(entries, schema, refusals, n + 1);
    } else {
        assert(entries.take(n) =~= entries);
    }
}

/// Whether a document disagrees with its key under any name for the key.
pub open spec fn has_disagreement(doc: JsonV, schema: SchemaV, id: Seq<char>) -> bool {
    exists|name: Seq<char>| #[trigger]
        schema.shadow_names().contains(name) && disagrees_under(doc, name, id)
}

/// Whether a verdict is the one a document gets.
pub open spec fn is_verdict(
    verdict: VerdictV,
    id: Seq<char>,
    doc: JsonV,
    schema: SchemaV,
    refusals: RefusalsV,
) -> bool {
    match identity_error(id, doc) {
        Some(why) => verdict == refused(why),
        None => if has_disagreement(doc, schema, id) {
            exists|why: Seq<char>| #[trigger]
                tells_of_disagreement(why, doc, schema.shadow_names(), id) && verdict == refused(
                    why,
                )
        } else {
            match judged_fields(doc->Object_0, schema, refusals) {
                Err(why) => verdict == refused(why),
                Ok(new_fields) => verdict == accepted(new_fields),
            }
        },
    }
}

/// A refusal.
fn refuse(why: String) -> (verdict: SchemaValidationResult)
    ensures
        verdict@ == refused(why@),
{
    let verdict = SchemaValidationResult {
        needs_evolution: false,
        new_fields: Vec::new(),
        validation_error: Some(why),
    };
    assert(verdict@.new_fields =~= Seq::empty());
    verdict
}

/// Whether one document can be written, and what the schema would have to learn first.
///
/// `id` is the identifier the write arrived with. The document must not contradict it, neither
/// under its own name nor under another; every field must fit what is declared of it; and a field
/// that is not declared is one the schema has yet to hear of. `refusals` holds what the store says of
/// the values that only it can judge.
pub fn validate_document(
    id: &str,
    doc: &Json,
    schema: &IndexSchema,
    refusals: &StoreRefusals,
) -> (verdict: SchemaValidationResult)
    ensures
        is_verdict(verdict@, id@, doc@, schema@, refusals@),
{
    if let Some(why) = unusable_document_identity(id, doc) {
        return refuse(why);
    }
    if let Some(why) = disagreeing_shadow_field(doc, schema, id) {
        let verdict: SchemaValidationResult = refuse(why);
        proof {
            assert(has_disagreement(doc@, schema@, id@));
        }
        return verdict;
    }
    assert(!has_disagreement(doc@, schema@, id@));
    let mut new_fields: Vec<(String, TantivyFieldType)> = Vec::new();
    if let Some(entries) = doc.as_object() {
        let ghost all = json::entry_models(entries@);
        let mut i: usize = 0;
        assert(typed_names(new_fields@) =~= Seq::empty());
        while i < entries.len()
            invariant
                i <= entries.len(),
                all == json::entry_models(entries@),
                doc@ == JsonV::Object(all),
                identity_error(id@, doc@) is None,
                !has_disagreement(doc@, schema@, id@),
                judged_fields(all.take(i as int), schema@, refusals@) == Ok::<_, Seq<char>>(
                    typed_names(new_fields@),
                ),
            decreases entries.len() - i,
        {
            let key: &String = &entries[i].0;
            let value: &Json = &entries[i].1;
            let ghost before = new_fields@;
            proof {
                assert(all.take(i + 1).drop_last() =~= all.take(i as int));
                assert(all.take(i + 1).last() == (key@, value@));
            }
            if !same_text(key.as_str(), "id") {
                match schema.field(key.as_str()) {
                    Some(field) => {
                        if let Some(why) = unstorable_value(
                            key.as_str(),
                            &field.field_type,
                            value,
                            refusals,
                        ) {
                            proof {
                                lemma_judged_refusal_stays(all, schema@, refusals@, i + 1);
                            }
                            return refuse(why);
                        }
                    },
                    None => {
                        new_fields.push((key.clone(), infer_field_type(value)));
                        assert(typed_names(new_fields@) =~= typed_names(before).push(
                            (key@, inferred_type(value@)),
                        ));
                    },
                }
            }
            i += 1;
        }
        assert(all.take(entries.len() as int) =~= all);
    }
    let verdict = SchemaValidationResult {
        needs_evolution: new_fields.len() > 0,
        new_fields,
        validation_error: None,
    };
    verdict
}

// ---------------------------------------------------------------------------
// What the store has to be asked
// ---------------------------------------------------------------------------

/// The texts among some values.
pub open spec fn texts_of_items(items: Seq<JsonV>) -> Seq<Seq<char>>
    decreases items.len(),
{
    if items.len() == 0 {
        Seq::empty()
    } else {
        match items.last() {
            JsonV::Text(text) => texts_of_items(items.drop_last()).push(text),
            _ => texts_of_items(items.drop_last()),
        }
    }
}

/// The values that the store has to judge as bytes before a field can hold a value.
pub open spec fn bytes_in(declared: TantivyFieldType, value: JsonV) -> Seq<JsonV> {
    match value {
        JsonV::Array(items) if declared == TantivyFieldType::Bytes => items,
        _ => Seq::empty(),
    }
}

/// The texts that the store has to judge as facet paths before a field can hold a value.
pub open spec fn facets_in(declared: TantivyFieldType, value: JsonV) -> Seq<Seq<char>> {
    match value {
        JsonV::Text(path) if declared == TantivyFieldType::Facet => seq![path],
        JsonV::Array(items) if declared == TantivyFieldType::Facet => texts_of_items(items),
        _ => Seq::empty(),
    }
}

/// The values that the store has to judge as bytes before a document can be judged.
pub open spec fn all_bytes_in(entries: Seq<(Seq<char>, JsonV)>, schema: SchemaV) -> Seq<JsonV>
    decreases entries.len(),
{
    if entries.len() == 0 {
        Seq::empty()
    } else {
        let before = all_bytes_in(entries.drop_last(), schema);
        match schema.field(entries.last().0) {
            Some(field) => before + bytes_in(field.field_type, entries.last().1),
            None => before,
        }
    }
}

/// The texts that the store has to judge as facet paths before a document can be judged.
pub open spec fn all_facets_in(entries: Seq<(Seq<char>, JsonV)>, schema: SchemaV) -> Seq<Seq<char>>
    decreases entries.len(),
{
    if entries.len() == 0 {
        Seq::empty()
    } else {
        let before = all_facets_in(entries.drop_last(), schema);
        match schema.field(entries.last().0) {
            Some(field) => before + facets_in(field.field_type, entries.last().1),
            None => before,
        }
    }
}

/// The entries of a document, none where it is no object.
pub open spec fn entries_of(doc: JsonV) -> Seq<(Seq<char>, JsonV)> {
    match doc {
        JsonV::Object(entries) => entries,
        _ => Seq::empty(),
    }
}

/// What the store has to judge before a document can be judged.
#[derive(Debug, Clone, PartialEq)]
pub struct StoreQuestions {
    /// Values that have to be bytes.
    pub bytes: Vec<Json>,
    /// Texts that have to be facet paths.
    pub facets: Vec<String>,
}

/// Adds the questions that one value raises.
fn add_questions(questions: &mut StoreQuestions, declared: TantivyFieldType, value: &Json)
    ensures
        json::models(final(questions).bytes@) == json::models(old(questions).bytes@) + bytes_in(
            declared,
            value@,
        ),
        text::texts(final(questions).facets@) == text::texts(old(questions).facets@) + facets_in(
            declared,
            value@,
        ),
{
    let ghost bytes_before = json::models(questions.bytes@);
    let ghost facets_before = text::texts(questions.facets@);
    proof {
        json::lemma_model_by_parts(*value);
    }
    match value {
        Json::Text(path) => {
            if let TantivyFieldType::Facet = declared {
                questions.facets.push(path.clone());
                assert(text::texts(questions.facets@) =~= facets_before + seq![path@]);
            } else {
                assert(facets_in(declared, value@) =~= Seq::empty());
            }
        },
        Json::Array(items) => {
            let ghost all = json::models(items@);
            let asks_bytes: bool = declared == TantivyFieldType::Bytes;
            let asks_facets: bool = declared == TantivyFieldType::Facet;
            let mut i: usize = 0;
            assert(all.take(0) =~= Seq::empty());
            while i < items.len()
                invariant
                    i <= items.len(),
                    all == json::models(items@),
                    json::models(questions.bytes@) == bytes_before + (if asks_bytes {
                        all.take(i as int)
                    } else {
                        Seq::empty()
                    }),
                    text::texts(questions.facets@) == facets_before + (if asks_facets {
                        texts_of_items(all.take(i as int))
                    } else {
                        Seq::empty()
                    }),
                decreases items.len() - i,
            {
                let ghost bytes_so_far = questions.bytes@;
                let ghost facets_so_far = questions.facets@;
                proof {
                    assert(all.take(i + 1).drop_last() =~= all.take(i as int));
                    assert(all.take(i + 1) =~= all.take(i as int).push(all[i as int]));
                    assert(all[i as int] == items@[i as int]@);
                    json::lemma_model_by_parts(items@[i as int]);
                }
                if asks_bytes {
                    questions.bytes.push(items[i].clone());
                    assert(json::models(questions.bytes@) =~= json::models(bytes_so_far).push(
                        all[i as int],
                    ));
                }
                if asks_facets {
                    if let Json::Text(path) = &items[i] {
                        questions.facets.push(path.clone());
                        assert(text::texts(questions.facets@) =~= text::texts(facets_so_far).push(
                            path@,
                        ));
                    }
                }
                assert(json::models(questions.bytes@) =~= bytes_before + (if asks_bytes {
                    all.take(i + 1)
                } else {
                    Seq::empty()
                }));
                assert(text::texts(questions.facets@) =~= facets_before + (if asks_facets {
                    texts_of_items(all.take(i + 1))
                } else {
                    Seq::empty()
                }));
                i += 1;
            }
            assert(all.take(all.len() as int) =~= all);
        },
        _ => {},
    }
    assert(json::models(questions.bytes@) =~= bytes_before + bytes_in(declared, value@));
    assert(text::texts(questions.facets@) =~= facets_before + facets_in(declared, value@));
}

/// What the store has to judge before a document can be judged.
pub fn questions_for_store(doc: &Json, schema: &IndexSchema) -> (questions: StoreQuestions)
    ensures
        json::models(questions.bytes@) == all_bytes_in(entries_of(doc@), schema@),
        text::texts(questions.facets@) == all_facets_in(entries_of(doc@), schema@),
{
    let mut questions = StoreQuestions { bytes: Vec::new(), facets: Vec::new() };
    assert(json::models(questions.bytes@) =~= Seq::empty());
    assert(text::texts(questions.facets@) =~= Seq::empty());
    if let Some(entries) = doc.as_object() {
        let ghost all = json::entry_models(entries@);
        let mut i: usize = 0;
        assert(all.take(0) =~= Seq::empty());
        while i < entries.len()
            invariant
                i <= entries.len(),
                all == json::entry_models(entries@),
                json::models(questions.bytes@) == all_bytes_in(all.take(i as int), schema@),
                text::texts(questions.facets@) == all_facets_in(all.take(i as int), schema@),
            decreases entries.len() - i,
        {
            proof {
                assert(all.take(i + 1).drop_last() =~= all.take(i as int));
                assert(all.take(i + 1).last() == (entries@[i as int].0@, entries@[i as int].1@));
            }
            if let Some(field) = schema.field(entries[i].0.as_str()) {
                add_questions(&mut questions, field.field_type, &entries[i].1);
            }
            i += 1;
        }
        assert(all.take(entries.len() as int) =~= all);
    }
    questions
}

/// Whether two stores say the same of some values.
pub open spec fn agree_on(
    one: RefusalsV,
    other: RefusalsV,
    bytes: Seq<JsonV>,
    facets: Seq<Seq<char>>,
) -> bool {
    &&& forall|i: int|
        0 <= i < bytes.len() ==> byte_error(#[trigger] bytes[i], one) == byte_error(bytes[i], other)
    &&& forall|i: int|
        0 <= i < facets.len() ==> facet_error(#[trigger] facets[i], one) == facet_error(
            facets[i],
            other,
        )
}

/// Nothing but what is asked of the store decides: two stores that say the same of it judge the fields
/// of a document alike.
pub proof fn law_only_what_is_asked_decides(
    entries: Seq<(Seq<char>, JsonV)>,
    schema: SchemaV,
    one: RefusalsV,
    other: RefusalsV,
)
    requires
        agree_on(one, other, all_bytes_in(entries, schema), all_facets_in(entries, schema)),
    ensures
        judged_fields(entries, schema, one) == judged_fields(entries, schema, other),
    decreases entries.len(),
{
    if entries.len() > 0 {
        let shorter = entries.drop_last();
        let bytes = all_bytes_in(entries, schema);
        let facets = all_facets_in(entries, schema);
        let first_bytes = all_bytes_in(shorter, schema);
        let first_facets = all_facets_in(shorter, schema);
        assert forall|i: int| 0 <= i < first_bytes.len() implies byte_error(
            #[trigger] first_bytes[i],
            one,
        ) == byte_error(first_bytes[i], other) by {
            assert(bytes[i] == first_bytes[i]);
        }
        assert forall|i: int| 0 <= i < first_facets.len() implies facet_error(
            #[trigger] first_facets[i],
            one,
        ) == facet_error(first_facets[i], other) by {
            assert(facets[i] == first_facets[i]);
        }
        law_only_what_is_asked_decides(shorter, schema, one, other);
        let (key, value) = entries.last();
        if let Some(field) = schema.field(key) {
            let more_bytes = bytes_in(field.field_type, value);
            let more_facets = facets_in(field.field_type, value);
            assert forall|i: int| 0 <= i < more_bytes.len() implies byte_error(
                #[trigger] more_bytes[i],
                one,
            ) == byte_error(more_bytes[i], other) by {
                assert(bytes[first_bytes.len() + i] == more_bytes[i]);
            }
            assert forall|i: int| 0 <= i < more_facets.len() implies facet_error(
                #[trigger] more_facets[i],
                one,
            ) == facet_error(more_facets[i], other) by {
                assert(facets[first_facets.len() + i] == more_facets[i]);
            }
            lemma_value_is_judged_alike(key, field.field_type, value, one, other);
        }
    }
}

/// Two stores that say the same of what a value asks judge it alike.
proof fn lemma_value_is_judged_alike(
    field: Seq<char>,
    declared: TantivyFieldType,
    value: JsonV,
    one: RefusalsV,
    other: RefusalsV,
)
    requires
        agree_on(one, other, bytes_in(declared, value), facets_in(declared, value)),
    ensures
        storage_error(field, declared, value, one) == storage_error(field, declared, value, other),
{
    match value {
        JsonV::Array(items) => {
            let these = item_errors(field, declared, items, one);
            let those = item_errors(field, declared, items, other);
            assert forall|i: int| 0 <= i < items.len() implies #[trigger] these[i] == those[i] by {
                if declared == TantivyFieldType::Bytes {
                    assert(bytes_in(declared, value)[i] == items[i]);
                } else if declared == TantivyFieldType::Facet {
                    if let JsonV::Text(path) = items[i] {
                        lemma_text_among_items(items, i);
                        let k = choose|k: int|
                            0 <= k < texts_of_items(items).len() && texts_of_items(items)[k] == path;
                        assert(facets_in(declared, value)[k] == path);
                    }
                }
            }
            assert(these =~= those);
        },
        JsonV::Text(path) => {
            if declared == TantivyFieldType::Facet {
                assert(facets_in(declared, value)[0] == path);
            }
        },
        _ => {},
    }
}

/// A text among some values is one of their texts.
proof fn lemma_text_among_items(items: Seq<JsonV>, place: int)
    requires
        0 <= place < items.len(),
        items[place] is Text,
    ensures
        texts_of_items(items).contains(items[place]->Text_0),
    decreases items.len(),
{
    let shorter = items.drop_last();
    let found = texts_of_items(items);
    if place == items.len() - 1 {
        assert(found[found.len() - 1] == items[place]->Text_0);
    } else {
        lemma_text_among_items(shorter, place);
        let k = choose|k: int|
            0 <= k < texts_of_items(shorter).len() && texts_of_items(shorter)[k]
                == shorter[place]->Text_0;
        assert(found[k] == items[place]->Text_0);
    }
}

} // verus!
