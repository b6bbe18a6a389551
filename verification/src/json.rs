//! Documents and responses as JSON values.
//!
//! An object keeps its entries in the order they were written. A number that is not an integer
//! is held as the text it is written with, so nothing is rounded on the way through.

use vstd::prelude::*;
use vstd::string::*;
use crate::text;
use crate::text::{Standing, decimal_text, same_text};

verus! {

/// A JSON number.
#[derive(Debug, PartialEq)]
pub enum JsonNumber {
    /// A whole number that is not negative.
    Unsigned(u64),
    /// A whole number below zero.
    Negative(i64),
    /// Any other number, as it is written.
    Real(String),
}

/// A JSON value.
#[derive(Debug, PartialEq)]
pub enum Json {
    Null,
    Bool(bool),
    Number(JsonNumber),
    Text(String),
    Array(Vec<Json>),
    Object(Vec<(String, Json)>),
}

/// A JSON number, as a value of the model.
pub enum NumV {
    Unsigned(u64),
    Negative(i64),
    Real(Seq<char>),
}

/// A JSON value, as a value of the model.
pub enum JsonV {
    Null,
    Bool(bool),
    Number(NumV),
    Text(Seq<char>),
    Array(Seq<JsonV>),
    Object(Seq<(Seq<char>, JsonV)>),
}

impl View for JsonNumber {
    type V = NumV;

    open spec fn view(&self) -> NumV {
        match *self {
            JsonNumber::Unsigned(n) => NumV::Unsigned(n),
            JsonNumber::Negative(n) => NumV::Negative(n),
            JsonNumber::Real(text) => NumV::Real(text@),
        }
    }
}

/// What a JSON value stands for.
pub open spec fn json_model(value: Json) -> JsonV
    decreases value,
{
    match value {
        Json::Null => JsonV::Null,
        Json::Bool(b) => JsonV::Bool(b),
        Json::Number(n) => JsonV::Number(n@),
        Json::Text(text) => JsonV::Text(text@),
        Json::Array(items) => JsonV::Array(
            Seq::new(
                items@.len(),
                |i: int|
                    if 0 <= i < items@.len() {
                        json_model(items@[i])
                    } else {
                        JsonV::Null
                    },
            ),
        ),
        Json::Object(entries) => JsonV::Object(
            Seq::new(
                entries@.len(),
                |i: int|
                    if 0 <= i < entries@.len() {
                        (entries@[i].0@, json_model(entries@[i].1))
                    } else {
                        (Seq::empty(), JsonV::Null)
                    },
            ),
        ),
    }
}

impl View for Json {
    type V = JsonV;

    open spec fn view(&self) -> JsonV {
        json_model(*self)
    }
}

/// Several values at once.
pub open spec fn models(items: Seq<Json>) -> Seq<JsonV> {
    items.map_values(|item: Json| item@)
}

/// Several entries at once.
pub open spec fn entry_models(entries: Seq<(String, Json)>) -> Seq<(Seq<char>, JsonV)> {
    entries.map_values(|entry: (String, Json)| (entry.0@, entry.1@))
}

/// A list and an object are read slot by slot.
pub broadcast proof fn lemma_model_by_parts(value: Json)
    ensures
        #![trigger json_model(value)]
        value matches Json::Array(items) ==> json_model(value) == JsonV::Array(models(items@)),
        value matches Json::Object(entries) ==> json_model(value) == JsonV::Object(
            entry_models(entries@),
        ),
{
    if let Json::Array(items) = value {
        assert(json_model(value)->Array_0 =~= models(items@));
    }
    if let Json::Object(entries) = value {
        assert(json_model(value)->Object_0 =~= entry_models(entries@));
    }
}

impl Clone for JsonNumber {
    fn clone(&self) -> (copy: Self)
        ensures
            copy@ == self@,
    {
        match self {
            JsonNumber::Unsigned(n) => JsonNumber::Unsigned(*n),
            JsonNumber::Negative(n) => JsonNumber::Negative(*n),
            JsonNumber::Real(text) => JsonNumber::Real(text.clone()),
        }
    }
}

impl Clone for Json {
    fn clone(&self) -> (copy: Self)
        ensures
            copy@ == self@,
        decreases self,
    {
        broadcast use lemma_model_by_parts;

        match self {
            Json::Null => Json::Null,
            Json::Bool(b) => Json::Bool(*b),
            Json::Number(n) => Json::Number(n.clone()),
            Json::Text(text) => Json::Text(text.clone()),
            Json::Array(items) => {
                let mut copies: Vec<Json> = Vec::new();
                let mut i: usize = 0;
                while i < items.len()
                    invariant
                        i <= items.len(),
                        *self == Json::Array(*items),
                        models(copies@) == models(items@).take(i as int),
                    decreases items.len() - i,
                {
                    let ghost before = copies@;
                    assert(decreases_to!(*self => self->Array_0@[i as int]));
                    copies.push(items[i].clone());
                    i += 1;
                    assert(models(copies@) =~= models(before).push(items@[i - 1]@));
                    assert(models(items@).take(i as int) =~= models(items@).take(i - 1).push(
                        items@[i - 1]@,
                    ));
                }
                assert(models(items@).take(items.len() as int) =~= models(items@));
                Json::Array(copies)
            },
            Json::Object(entries) => {
                let mut copies: Vec<(String, Json)> = Vec::new();
                let mut i: usize = 0;
                while i < entries.len()
                    invariant
                        i <= entries.len(),
                        *self == Json::Object(*entries),
                        entry_models(copies@) == entry_models(entries@).take(i as int),
                    decreases entries.len() - i,
                {
                    let ghost before = copies@;
                    assert(decreases_to!(*self => self->Object_0@[i as int].1));
                    copies.push((entries[i].0.clone(), entries[i].1.clone()));
                    i += 1;
                    assert(entry_models(copies@) =~= entry_models(before).push(
                        (entries@[i - 1].0@, entries@[i - 1].1@),
                    ));
                    assert(entry_models(entries@).take(i as int) =~= entry_models(entries@).take(
                        i - 1,
                    ).push((entries@[i - 1].0@, entries@[i - 1].1@)));
                }
                assert(entry_models(entries@).take(entries.len() as int) =~= entry_models(entries@));
                Json::Object(copies)
            },
        }
    }
}

// ---------------------------------------------------------------------------
// Objects
// ---------------------------------------------------------------------------

/// Where a key first stands among entries, or how many entries there are if it does not.
pub open spec fn key_place<T>(entries: Seq<(Seq<char>, T)>, key: Seq<char>) -> int
    decreases entries.len(),
{
    if entries.len() == 0 {
        0
    } else if entries[0].0 == key {
        0
    } else {
        1 + key_place(entries.drop_first(), key)
    }
}

/// Whether entries hold a key.
pub open spec fn has_key<T>(entries: Seq<(Seq<char>, T)>, key: Seq<char>) -> bool {
    key_place(entries, key) < entries.len()
}

/// What entries hold under a key.
pub open spec fn value_under<T>(entries: Seq<(Seq<char>, T)>, key: Seq<char>) -> Option<T> {
    if has_key(entries, key) {
        Some(entries[key_place(entries, key)].1)
    } else {
        None
    }
}

/// Entries after one is written: in place where the key is already there, at the end otherwise.
pub open spec fn with_entry<T>(
    entries: Seq<(Seq<char>, T)>,
    key: Seq<char>,
    value: T,
) -> Seq<(Seq<char>, T)> {
    if has_key(entries, key) {
        entries.update(key_place(entries, key), (key, value))
    } else {
        entries.push((key, value))
    }
}

/// Entries after one is taken out: the last entry takes its place.
pub open spec fn without_key<T>(entries: Seq<(Seq<char>, T)>, key: Seq<char>) -> Seq<
    (Seq<char>, T),
> {
    if has_key(entries, key) {
        entries.update(key_place(entries, key), entries.last()).drop_last()
    } else {
        entries
    }
}

/// Whether no key stands twice.
pub open spec fn keys_distinct<T>(entries: Seq<(Seq<char>, T)>) -> bool {
    forall|i: int, j: int|
        0 <= i < j < entries.len() ==> (#[trigger] entries[i]).0 != (#[trigger] entries[j]).0
}

/// The first place of a key is where it stands and where it does not stand earlier.
pub proof fn lemma_key_place<T>(entries: Seq<(Seq<char>, T)>, key: Seq<char>)
    ensures
        0 <= key_place(entries, key) <= entries.len(),
        has_key(entries, key) ==> entries[key_place(entries, key)].0 == key,
        forall|j: int| 0 <= j < key_place(entries, key) ==> (#[trigger] entries[j]).0 != key,
    decreases entries.len(),
{
    if entries.len() > 0 && entries[0].0 != key {
        let rest = entries.drop_first();
        lemma_key_place(rest, key);
        assert forall|j: int| 0 <= j < key_place(entries, key) implies (#[trigger] entries[j]).0
            != key by {
            if j > 0 {
                assert(entries[j] == rest[j - 1]);
            }
        }
    }
}

/// A place that holds the key with none before it is its first place.
pub proof fn lemma_key_place_is<T>(entries: Seq<(Seq<char>, T)>, key: Seq<char>, place: int)
    requires
        0 <= place <= entries.len(),
        place < entries.len() ==> entries[place].0 == key,
        forall|j: int| 0 <= j < place ==> (#[trigger] entries[j]).0 != key,
    ensures
        key_place(entries, key) == place,
{
    lemma_key_place(entries, key);
    let found = key_place(entries, key);
    if found < place {
        assert(entries[found].0 != key);
    } else if place < found {
        assert(entries[place].0 != key);
    }
}

/// Writing an entry keeps every key in one place.
pub proof fn lemma_with_entry_keeps_keys_distinct<T>(
    entries: Seq<(Seq<char>, T)>,
    key: Seq<char>,
    value: T,
)
    requires
        keys_distinct(entries),
    ensures
        keys_distinct(with_entry(entries, key, value)),
{
    lemma_key_place(entries, key);
    let after = with_entry(entries, key, value);
    assert forall|i: int, j: int| 0 <= i < j < after.len() implies (#[trigger] after[i]).0 != (
    #[trigger] after[j]).0 by {
        if has_key(entries, key) {
            assert(after[i].0 == entries[i].0);
            assert(after[j].0 == entries[j].0);
        } else if j < entries.len() {
            assert(after[j] == entries[j]);
            assert(after[i] == entries[i]);
        } else {
            assert(after[i] == entries[i]);
        }
    }
}

/// An entry that was just written is what its key holds, and no other key is affected.
pub proof fn lemma_with_entry_read_back<T>(
    entries: Seq<(Seq<char>, T)>,
    key: Seq<char>,
    value: T,
    other: Seq<char>,
)
    ensures
        value_under(with_entry(entries, key, value), key) == Some(value),
        other != key ==> value_under(with_entry(entries, key, value), other) == value_under(
            entries,
            other,
        ),
{
    let after = with_entry(entries, key, value);
    lemma_key_place(entries, key);
    lemma_key_place(entries, other);
    let place = key_place(entries, key);
    assert forall|j: int| 0 <= j < place implies (#[trigger] after[j]).0 != key by {
        assert(after[j] == entries[j]);
    }
    lemma_key_place_is(after, key, place);
    if other != key {
        let seen = key_place(entries, other);
        if seen < entries.len() {
            assert(after[seen] == entries[seen]);
            assert forall|j: int| 0 <= j < seen implies (#[trigger] after[j]).0 != other by {
                assert(entries[j].0 != other);
            }
            lemma_key_place_is(after, other, seen);
        } else {
            assert forall|j: int| 0 <= j < after.len() implies (#[trigger] after[j]).0 != other by {
                if j < entries.len() {
                    assert(entries[j].0 != other);
                }
            }
            lemma_key_place_is(after, other, after.len() as int);
        }
    }
}

impl JsonV {
    /// What the value holds under a key, if it is an object that holds one.
    pub open spec fn get(self, key: Seq<char>) -> Option<JsonV> {
        match self {
            JsonV::Object(entries) => value_under(entries, key),
            _ => None,
        }
    }

    /// The whole number a value is, if it is one that is not negative.
    pub open spec fn as_u64(self) -> Option<u64> {
        match self {
            JsonV::Number(NumV::Unsigned(n)) => Some(n),
            _ => None,
        }
    }

    /// The signed whole number a value is, if it is one that fits.
    pub open spec fn as_i64(self) -> Option<i64> {
        match self {
            JsonV::Number(NumV::Unsigned(n)) if n <= i64::MAX => Some(n as i64),
            JsonV::Number(NumV::Negative(n)) => Some(n),
            _ => None,
        }
    }

    /// The truth value a value is, if it is one.
    pub open spec fn as_bool(self) -> Option<bool> {
        match self {
            JsonV::Bool(truth) => Some(truth),
            _ => None,
        }
    }

    /// The text this is, if it is one.
    pub open spec fn as_text(self) -> Option<Seq<char>> {
        match self {
            JsonV::Text(text) => Some(text),
            _ => None,
        }
    }

    /// The items of a list.
    pub open spec fn as_array(self) -> Option<Seq<JsonV>> {
        match self {
            JsonV::Array(items) => Some(items),
            _ => None,
        }
    }

    /// The value after an entry is written into it, where it is an object.
    pub open spec fn with(self, key: Seq<char>, value: JsonV) -> JsonV {
        match self {
            JsonV::Object(entries) => JsonV::Object(with_entry(entries, key, value)),
            _ => self,
        }
    }

    /// The value after an entry is taken out of it, where it is an object.
    pub open spec fn without(self, key: Seq<char>) -> JsonV {
        match self {
            JsonV::Object(entries) => JsonV::Object(without_key(entries, key)),
            _ => self,
        }
    }
}

/// What an object holds after one of its entries is written.
pub proof fn lemma_read_back(value: JsonV, key: Seq<char>, put: JsonV, asked: Seq<char>)
    requires
        value is Object,
    ensures
        value.with(key, put) is Object,
        value.with(key, put).get(asked) == (if asked == key {
            Some(put)
        } else {
            value.get(asked)
        }),
{
    if let JsonV::Object(entries) = value {
        lemma_with_entry_read_back(entries, key, put, asked);
    }
}

/// Where a key first stands among entries.
pub fn find_key(entries: &Vec<(String, Json)>, key: &str) -> (place: usize)
    ensures
        place == key_place(entry_models(entries@), key@),
        place <= entries@.len(),
{
    let mut place: usize = 0;
    while place < entries.len()
        invariant
            place <= entries.len(),
            forall|j: int| 0 <= j < place ==> (#[trigger] entry_models(entries@)[j]).0 != key@,
        decreases entries.len() - place,
    {
        if same_text(entries[place].0.as_str(), key) {
            proof {
                lemma_key_place_is(entry_models(entries@), key@, place as int);
            }
            return place;
        }
        place += 1;
    }
    proof {
        lemma_key_place_is(entry_models(entries@), key@, place as int);
    }
    place
}

/// Writes an entry among entries.
pub fn put_entry(entries: &mut Vec<(String, Json)>, key: &str, value: Json)
    ensures
        entry_models(final(entries)@) == with_entry(entry_models(old(entries)@), key@, value@),
{
    let place: usize = find_key(entries, key);
    let ghost before = entries@;
    let written: (String, Json) = (String::from_str(key), value);
    if place < entries.len() {
        proof {
            lemma_key_place(entry_models(before), key@);
        }
        entries.set(place, written);
        assert(entry_models(entries@) =~= with_entry(entry_models(before), key@, value@));
    } else {
        entries.push(written);
        assert(entry_models(entries@) =~= with_entry(entry_models(before), key@, value@));
    }
}

/// Takes an entry out of entries.
pub fn take_entry(entries: &mut Vec<(String, Json)>, key: &str) -> (taken: Option<Json>)
    ensures
        entry_models(final(entries)@) == without_key(entry_models(old(entries)@), key@),
        taken matches Some(value) ==> value_under(entry_models(old(entries)@), key@) == Some(value@),
        taken is None ==> value_under(entry_models(old(entries)@), key@) is None,
{
    let place: usize = find_key(entries, key);
    let ghost before = entries@;
    if place < entries.len() {
        let taken: (String, Json) = entries.swap_remove(place);
        assert(entry_models(entries@) =~= without_key(entry_models(before), key@));
        Some(taken.1)
    } else {
        None
    }
}

/// An entry of an object.
pub fn entry(key: &str, value: Json) -> (entry: (String, Json))
    ensures
        entry.0@ == key@,
        entry.1@ == value@,
{
    (String::from_str(key), value)
}

impl Json {
    /// A text value.
    pub fn text(text: &str) -> (value: Json)
        ensures
            value@ == JsonV::Text(text@),
    {
        Json::Text(String::from_str(text))
    }

    /// A number that counts something.
    pub fn count(n: usize) -> (value: Json)
        ensures
            value@ == JsonV::Number(NumV::Unsigned(n as u64)),
    {
        Json::Number(JsonNumber::Unsigned(n as u64))
    }

    /// A whole number that is not negative.
    pub fn unsigned(n: u64) -> (value: Json)
        ensures
            value@ == JsonV::Number(NumV::Unsigned(n)),
    {
        Json::Number(JsonNumber::Unsigned(n))
    }

    /// A whole number.
    pub fn whole(n: i64) -> (value: Json)
        ensures
            value@ == JsonV::Number(
                if n >= 0 {
                    NumV::Unsigned(n as u64)
                } else {
                    NumV::Negative(n)
                },
            ),
    {
        if n >= 0 {
            Json::Number(JsonNumber::Unsigned(n as u64))
        } else {
            Json::Number(JsonNumber::Negative(n))
        }
    }

    /// A number that is written with a fraction or an exponent.
    pub fn decimal(text: &str) -> (value: Json)
        ensures
            value@ == JsonV::Number(NumV::Real(text@)),
    {
        Json::Number(JsonNumber::Real(String::from_str(text)))
    }

    /// A list of texts.
    pub fn text_list(list: &Vec<String>) -> (value: Json)
        ensures
            value@ == JsonV::Array(text::texts(list@).map_values(|t: Seq<char>| JsonV::Text(t))),
    {
        broadcast use lemma_model_by_parts;

        let mut items: Vec<Json> = Vec::new();
        let ghost all = text::texts(list@).map_values(|t: Seq<char>| JsonV::Text(t));
        let mut i: usize = 0;
        while i < list.len()
            invariant
                i <= list.len(),
                all == text::texts(list@).map_values(|t: Seq<char>| JsonV::Text(t)),
                models(items@) == all.take(i as int),
            decreases list.len() - i,
        {
            let ghost before = items@;
            items.push(Json::Text(list[i].clone()));
            i += 1;
            assert(models(items@) =~= models(before).push(JsonV::Text(list@[i - 1]@)));
            assert(all.take(i as int) =~= all.take(i - 1).push(all[i - 1]));
        }
        assert(all.take(list.len() as int) =~= all);
        Json::Array(items)
    }

    /// An object of these entries.
    pub fn object(entries: Vec<(String, Json)>) -> (value: Json)
        ensures
            value@ == JsonV::Object(entry_models(entries@)),
    {
        broadcast use lemma_model_by_parts;

        Json::Object(entries)
    }

    /// A list of these items.
    pub fn list(items: Vec<Json>) -> (value: Json)
        ensures
            value@ == JsonV::Array(models(items@)),
    {
        broadcast use lemma_model_by_parts;

        Json::Array(items)
    }

    /// What the value holds under a key, if it is an object that holds one.
    pub fn get(&self, key: &str) -> (found: Option<&Json>)
        ensures
            found is Some <==> self@.get(key@) is Some,
            found matches Some(value) ==> self@.get(key@) == Some(value@),
    {
        broadcast use lemma_model_by_parts;

        match self {
            Json::Object(entries) => {
                let place: usize = find_key(entries, key);
                if place < entries.len() {
                    Some(&entries[place].1)
                } else {
                    None
                }
            },
            _ => None,
        }
    }

    /// The truth value the value is, if it is one.
    pub fn as_bool(&self) -> (truth: Option<bool>)
        ensures
            truth == self@.as_bool(),
    {
        broadcast use lemma_model_by_parts;

        match self {
            Json::Bool(truth) => Some(*truth),
            _ => None,
        }
    }

    /// The text this is, if it is one.
    pub fn as_text(&self) -> (text: Option<&String>)
        ensures
            text is Some <==> self@.as_text() is Some,
            text matches Some(t) ==> self@ == JsonV::Text(t@),
    {
        match self {
            Json::Text(text) => Some(text),
            _ => None,
        }
    }

    /// The items of a list.
    pub fn as_array(&self) -> (items: Option<&Vec<Json>>)
        ensures
            items is Some <==> self@.as_array() is Some,
            items matches Some(list) ==> self@ == JsonV::Array(models(list@)),
    {
        broadcast use lemma_model_by_parts;

        match self {
            Json::Array(items) => Some(items),
            _ => None,
        }
    }

    /// The entries of an object.
    pub fn as_object(&self) -> (entries: Option<&Vec<(String, Json)>>)
        ensures
            entries is Some <==> self@ is Object,
            entries matches Some(list) ==> self@ == JsonV::Object(entry_models(list@)),
    {
        broadcast use lemma_model_by_parts;

        match self {
            Json::Object(entries) => Some(entries),
            _ => None,
        }
    }

    /// The whole number the value is, if it is one that is not negative.
    pub fn as_u64(&self) -> (n: Option<u64>)
        ensures
            n == self@.as_u64(),
    {
        match self {
            Json::Number(JsonNumber::Unsigned(n)) => Some(*n),
            _ => None,
        }
    }

    /// The signed whole number the value is, if it is one that fits.
    pub fn as_i64(&self) -> (n: Option<i64>)
        ensures
            n == self@.as_i64(),
    {
        match self {
            Json::Number(JsonNumber::Unsigned(n)) => {
                if *n <= i64::MAX as u64 {
                    Some(*n as i64)
                } else {
                    None
                }
            },
            Json::Number(JsonNumber::Negative(n)) => Some(*n),
            _ => None,
        }
    }

    /// Writes an entry into the value, where it is an object.
    pub fn put(&mut self, key: &str, value: Json)
        ensures
            final(self)@ == old(self)@.with(key@, value@),
    {
        broadcast use lemma_model_by_parts;

        if let Json::Object(entries) = self {
            put_entry(entries, key, value);
        }
    }

    /// Takes an entry out of the value, where it is an object.
    pub fn remove(&mut self, key: &str)
        ensures
            final(self)@ == old(self)@.without(key@),
    {
        broadcast use lemma_model_by_parts;

        if let Json::Object(entries) = self {
            let _taken: Option<Json> = take_entry(entries, key);
        }
    }
}

// ---------------------------------------------------------------------------
// Numbers
// ---------------------------------------------------------------------------

/// How a number is written.
pub open spec fn number_chars(n: NumV) -> Seq<char> {
    match n {
        NumV::Unsigned(n) => text::decimal(n as nat),
        NumV::Negative(n) => if n < 0 {
            "-"@ + text::decimal((-(n as int)) as nat)
        } else {
            text::decimal(n as nat)
        },
        NumV::Real(text) => text,
    }
}

/// How two whole numbers stand to each other.
pub open spec fn order_of(x: int, y: int) -> Standing {
    if x < y {
        Standing::Before
    } else if x == y {
        Standing::Level
    } else {
        Standing::After
    }
}

/// The double a written number is read as, counted in the smallest step between two doubles.
///
/// None where the text is no JSON number, or one too large for a double.
pub uninterp spec fn double_value(text: Seq<char>) -> Option<int>;

/// Zero for the text `0`, and the double that is named for any other.
pub open spec fn zero_or(text: Seq<char>, named: Option<int>) -> Option<int> {
    if text == "0"@ {
        Some(0)
    } else {
        named
    }
}

/// The double a text is read as: zero for `0`.
pub open spec fn double_of(text: Seq<char>) -> Option<int> {
    zero_or(text, double_value(text))
}

/// Compares two written numbers as doubles.
///
/// `serde_json`'s `Number` reads each text and `Number::as_f64` gives its double. Which double a
/// text becomes is only named here, but for `0`, which is read as zero. A JSON number is never infinite and never undefined, so two
/// doubles always compare, and they compare by value.
#[verifier::external_body]
pub(crate) fn compare_doubles(a: &str, b: &str) -> (order: Option<Standing>)
    ensures
        order == match (
            zero_or(a@, double_value(a@)),
            zero_or(b@, double_value(b@)),
        ) {
            (Some(x), Some(y)) => Some(order_of(x, y)),
            _ => None,
        },
{
    let x = a.parse::<serde_json::Number>().ok().and_then(|n| n.as_f64());
    let y = b.parse::<serde_json::Number>().ok().and_then(|n| n.as_f64());
    x.zip(y).and_then(|(x, y)| x.partial_cmp(&y)).map(|order| match order {
        std::cmp::Ordering::Less => Standing::Before,
        std::cmp::Ordering::Equal => Standing::Level,
        std::cmp::Ordering::Greater => Standing::After,
    })
}

/// The number `serde_json` reads a text as.
pub uninterp spec fn number_reading(text: Seq<char>) -> Option<NumV>;

/// Reads a number out of a text.
///
/// The result of reading a `serde_json::Number` is only named here; a number that is no integer
/// comes back as the text `serde_json` writes it with.
#[verifier::external_body]
pub(crate) fn read_number(text: &str) -> (number: Option<JsonNumber>)
    ensures
        number is Some <==> number_reading(text@) is Some,
        number matches Some(n) ==> number_reading(text@) == Some(n@),
{
    text.parse::<serde_json::Number>().ok().map(|n| match (n.as_u64(), n.as_i64()) {
        (Some(whole), _) => JsonNumber::Unsigned(whole),
        (None, Some(whole)) => JsonNumber::Negative(whole),
        (None, None) => JsonNumber::Real(n.to_string()),
    })
}

impl JsonNumber {
    /// Writes the number.
    pub fn written(&self) -> (text: String)
        ensures
            text@ == number_chars(self@),
    {
        match self {
            JsonNumber::Unsigned(n) => decimal_text(*n),
            JsonNumber::Negative(n) => {
                if *n < 0 {
                    let mut text: String = String::from_str("-");
                    text.append(decimal_text((-(*n as i128)) as u64).as_str());
                    text
                } else {
                    decimal_text(*n as u64)
                }
            },
            JsonNumber::Real(text) => text.clone(),
        }
    }
}

// ---------------------------------------------------------------------------
// Writing
// ---------------------------------------------------------------------------

/// How `serde_json` writes a text: in double quotes, with what has to be escaped escaped.
pub uninterp spec fn quoted(text: Seq<char>) -> Seq<char>;

/// Writes a text as a JSON string.
///
/// The result of `serde_json::to_string` on a `str` is only named here. It cannot fail: writing
/// goes to memory and every `str` has a JSON form.
#[verifier::external_body]
pub(crate) fn quote(text: &str) -> (written: String)
    ensures
        written@ == quoted(text@),
{
    serde_json::to_string(text).unwrap_or_default()
}

/// The compact JSON text of a value.
pub open spec fn json_chars(value: JsonV) -> Seq<char>
    decreases value,
{
    match value {
        JsonV::Null => "null"@,
        JsonV::Bool(b) => if b {
            "true"@
        } else {
            "false"@
        },
        JsonV::Number(n) => number_chars(n),
        JsonV::Text(text) => quoted(text),
        JsonV::Array(items) => "["@ + text::joined(item_texts(items), ","@) + "]"@,
        JsonV::Object(entries) => "{"@ + text::joined(entry_texts(entries), ","@) + "}"@,
    }
}

/// The written items of a list.
pub open spec fn item_texts(items: Seq<JsonV>) -> Seq<Seq<char>>
    decreases items,
{
    Seq::new(
        items.len(),
        |i: int|
            if 0 <= i < items.len() {
                json_chars(items[i])
            } else {
                Seq::empty()
            },
    )
}

/// The written entries of an object.
pub open spec fn entry_texts(entries: Seq<(Seq<char>, JsonV)>) -> Seq<Seq<char>>
    decreases entries,
{
    Seq::new(
        entries.len(),
        |i: int|
            if 0 <= i < entries.len() {
                quoted(entries[i].0) + ":"@ + json_chars(entries[i].1)
            } else {
                Seq::empty()
            },
    )
}

/// One step of joining: a part goes behind the separator, the first behind nothing.
proof fn lemma_joined_push(parts: Seq<Seq<char>>, separator: Seq<char>, part: Seq<char>)
    ensures
        parts.len() == 0 ==> text::joined(parts.push(part), separator) == part,
        parts.len() > 0 ==> text::joined(parts.push(part), separator) == text::joined(parts, separator)
            + separator + part,
{
    assert(parts.push(part).drop_last() =~= parts);
}

/// Writes a value as compact JSON text.
pub fn json_text(value: &Json) -> (text: String)
    ensures
        text@ == json_chars(value@),
    decreases value,
{
    broadcast use lemma_model_by_parts;

    match value {
        Json::Null => String::from_str("null"),
        Json::Bool(b) => {
            if *b {
                String::from_str("true")
            } else {
                String::from_str("false")
            }
        },
        Json::Number(n) => n.written(),
        Json::Text(text) => quote(text.as_str()),
        Json::Array(items) => {
            let mut inner: String = String::new();
            let ghost parts = item_texts(models(items@));
            let mut i: usize = 0;
            while i < items.len()
                invariant
                    i <= items.len(),
                    *value == Json::Array(*items),
                    parts == item_texts(models(items@)),
                    inner@ == text::joined(parts.take(i as int), ","@),
                decreases items.len() - i,
            {
                proof {
                    lemma_joined_push(parts.take(i as int), ","@, parts[i as int]);
                    assert(parts.take(i + 1) =~= parts.take(i as int).push(parts[i as int]));
                    assert(decreases_to!(*value => value->Array_0@[i as int]));
                }
                if i > 0 {
                    inner.append(",");
                }
                inner.append(json_text(&items[i]).as_str());
                i += 1;
                assert(inner@ =~= text::joined(parts.take(i as int), ","@));
            }
            assert(parts.take(items.len() as int) =~= parts);
            let mut text: String = String::from_str("[");
            text.append(inner.as_str());
            text.append("]");
            text
        },
        Json::Object(entries) => {
            let mut inner: String = String::new();
            let ghost parts = entry_texts(entry_models(entries@));
            let mut i: usize = 0;
            while i < entries.len()
                invariant
                    i <= entries.len(),
                    *value == Json::Object(*entries),
                    parts == entry_texts(entry_models(entries@)),
                    inner@ == text::joined(parts.take(i as int), ","@),
                decreases entries.len() - i,
            {
                proof {
                    lemma_joined_push(parts.take(i as int), ","@, parts[i as int]);
                    assert(parts.take(i + 1) =~= parts.take(i as int).push(parts[i as int]));
                    assert(decreases_to!(*value => value->Object_0@[i as int].1));
                }
                if i > 0 {
                    inner.append(",");
                }
                let mut entry: String = quote(entries[i].0.as_str());
                entry.append(":");
                entry.append(json_text(&entries[i].1).as_str());
                assert(entry@ == parts[i as int]);
                inner.append(entry.as_str());
                i += 1;
                assert(inner@ =~= text::joined(parts.take(i as int), ","@));
            }
            assert(parts.take(entries.len() as int) =~= parts);
            let mut text: String = String::from_str("{");
            text.append(inner.as_str());
            text.append("}");
            text
        },
    }
}

} // verus!
