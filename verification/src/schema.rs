//! What an index declares: its fields, the key it routes by, and the names its documents answer
//! under.

use vstd::prelude::*;
use vstd::string::*;
use crate::{errors, json, text};
use crate::json::Json;
use crate::text::same_text;

verus! {

/// The type a field is declared with.
#[derive(Debug, Clone, Copy, PartialEq, Eq, Structural)]
pub enum TantivyFieldType {
    Text,
    /// Text under an older name.
    String,
    I64,
    U64,
    F64,
    Boolean,
    Date,
    Ip,
    Json,
    Facet,
    Bytes,
}

/// The name a listing shows for a type.
pub open spec fn listed_type(field_type: TantivyFieldType) -> Seq<char> {
    match field_type {
        TantivyFieldType::Text => "text"@,
        TantivyFieldType::String => "string"@,
        TantivyFieldType::I64 => "i64"@,
        TantivyFieldType::U64 => "u64"@,
        TantivyFieldType::F64 => "f64"@,
        TantivyFieldType::Boolean => "boolean"@,
        TantivyFieldType::Date => "date"@,
        TantivyFieldType::Ip => "ip"@,
        TantivyFieldType::Json => "json"@,
        TantivyFieldType::Facet => "facet"@,
        TantivyFieldType::Bytes => "bytes"@,
    }
}

/// The name a refusal calls a type by.
pub open spec fn type_label(field_type: TantivyFieldType) -> Seq<char> {
    match field_type {
        TantivyFieldType::Text => "Text"@,
        TantivyFieldType::String => "String"@,
        TantivyFieldType::I64 => "I64"@,
        TantivyFieldType::U64 => "U64"@,
        TantivyFieldType::F64 => "F64"@,
        TantivyFieldType::Boolean => "Boolean"@,
        TantivyFieldType::Date => "Date"@,
        TantivyFieldType::Ip => "Ip"@,
        TantivyFieldType::Json => "Json"@,
        TantivyFieldType::Facet => "Facet"@,
        TantivyFieldType::Bytes => "Bytes"@,
    }
}

/// Whether a column can be built for fields of a type: a sort needs one, and the index builder
/// gives these types none whatever is declared.
pub open spec fn type_can_be_fast(field_type: TantivyFieldType) -> bool {
    match field_type {
        TantivyFieldType::Boolean => false,
        TantivyFieldType::Bytes => false,
        TantivyFieldType::Ip => false,
        TantivyFieldType::Json => false,
        TantivyFieldType::Facet => false,
        _ => true,
    }
}

/// Whether fields of a type get a column when nothing is declared.
pub open spec fn type_is_fast_by_default(field_type: TantivyFieldType) -> bool {
    match field_type {
        TantivyFieldType::I64 => true,
        TantivyFieldType::U64 => true,
        TantivyFieldType::F64 => true,
        TantivyFieldType::Date => true,
        _ => false,
    }
}

impl TantivyFieldType {
    /// The name a listing shows for the type.
    pub fn name(&self) -> (name: &'static str)
        ensures
            name@ == listed_type(*self),
    {
        match self {
            TantivyFieldType::Text => "text",
            TantivyFieldType::String => "string",
            TantivyFieldType::I64 => "i64",
            TantivyFieldType::U64 => "u64",
            TantivyFieldType::F64 => "f64",
            TantivyFieldType::Boolean => "boolean",
            TantivyFieldType::Date => "date",
            TantivyFieldType::Ip => "ip",
            TantivyFieldType::Json => "json",
            TantivyFieldType::Facet => "facet",
            TantivyFieldType::Bytes => "bytes",
        }
    }

    /// The name a refusal calls the type by.
    pub fn label(&self) -> (label: &'static str)
        ensures
            label@ == type_label(*self),
    {
        match self {
            TantivyFieldType::Text => "Text",
            TantivyFieldType::String => "String",
            TantivyFieldType::I64 => "I64",
            TantivyFieldType::U64 => "U64",
            TantivyFieldType::F64 => "F64",
            TantivyFieldType::Boolean => "Boolean",
            TantivyFieldType::Date => "Date",
            TantivyFieldType::Ip => "Ip",
            TantivyFieldType::Json => "Json",
            TantivyFieldType::Facet => "Facet",
            TantivyFieldType::Bytes => "Bytes",
        }
    }
}

/// What an index declares of one field.
#[derive(Debug, PartialEq, Eq)]
pub struct FieldDef {
    pub name: String,
    pub field_type: TantivyFieldType,
    /// Whether a query may reach it.
    pub indexed: bool,
    /// Whether the search index keeps its value. Only the document key is kept there: hits are
    /// rebuilt from the stored documents.
    pub stored: bool,
    /// Whether a column was asked for or declined; absent leaves it to the type.
    pub fast: Option<bool>,
    /// Whether the field is another name for the document key.
    pub is_shadow: bool,
    pub description: Option<String>,
    pub tokenizer: Option<String>,
}

/// What an index declares of one field, as a value of the model.
pub struct FieldV {
    pub name: Seq<char>,
    pub field_type: TantivyFieldType,
    pub indexed: bool,
    pub stored: bool,
    pub fast: Option<bool>,
    pub is_shadow: bool,
    pub description: Option<Seq<char>>,
    pub tokenizer: Option<Seq<char>>,
}

impl View for FieldDef {
    type V = FieldV;

    open spec fn view(&self) -> FieldV {
        FieldV {
            name: self.name@,
            field_type: self.field_type,
            indexed: self.indexed,
            stored: self.stored,
            fast: self.fast,
            is_shadow: self.is_shadow,
            description: errors::opt_text(self.description),
            tokenizer: errors::opt_text(self.tokenizer),
        }
    }
}

/// Copies an optional text.
pub fn copy_opt(text: &Option<String>) -> (copy: Option<String>)
    ensures
        errors::opt_text(copy) == errors::opt_text(*text),
{
    match text {
        Some(t) => Some(t.clone()),
        None => None,
    }
}

impl Clone for FieldDef {
    fn clone(&self) -> (copy: Self)
        ensures
            copy@ == self@,
    {
        FieldDef {
            name: self.name.clone(),
            field_type: self.field_type,
            indexed: self.indexed,
            stored: self.stored,
            fast: self.fast,
            is_shadow: self.is_shadow,
            description: copy_opt(&self.description),
            tokenizer: copy_opt(&self.tokenizer),
        }
    }
}

/// A field as it is declared when nothing but its name and type is said: reachable by queries,
/// kept in the search index only if it is the document key.
pub open spec fn plain_field(name: Seq<char>, field_type: TantivyFieldType) -> FieldV {
    FieldV {
        name,
        field_type,
        indexed: true,
        stored: name == "id"@,
        fast: None,
        is_shadow: false,
        description: None,
        tokenizer: None,
    }
}

/// Whether a field is declared to have a column to sort on.
pub open spec fn declared_fast(field: FieldV) -> bool {
    type_can_be_fast(field.field_type) && match field.fast {
        Some(fast) => fast,
        None => type_is_fast_by_default(field.field_type),
    }
}

impl FieldDef {
    /// Declares a field by name and type.
    pub fn new(name: String, field_type: TantivyFieldType) -> (field: FieldDef)
        ensures
            field@ == plain_field(name@, field_type),
    {
        let stored: bool = same_text(name.as_str(), "id");
        FieldDef {
            name,
            field_type,
            indexed: true,
            stored,
            fast: None,
            is_shadow: false,
            description: None,
            tokenizer: None,
        }
    }

    /// Whether a column can be built for fields of a type.
    pub fn can_be_fast(field_type: &TantivyFieldType) -> (can: bool)
        ensures
            can == type_can_be_fast(*field_type),
    {
        match field_type {
            TantivyFieldType::Boolean => false,
            TantivyFieldType::Bytes => false,
            TantivyFieldType::Ip => false,
            TantivyFieldType::Json => false,
            TantivyFieldType::Facet => false,
            _ => true,
        }
    }

    /// Whether the field is declared to have a column to sort on.
    pub fn is_fast(&self) -> (fast: bool)
        ensures
            fast == declared_fast(self@),
    {
        FieldDef::can_be_fast(&self.field_type) && match self.fast {
            Some(fast) => fast,
            None => match self.field_type {
                TantivyFieldType::I64 => true,
                TantivyFieldType::U64 => true,
                TantivyFieldType::F64 => true,
                TantivyFieldType::Date => true,
                _ => false,
            },
        }
    }
}

/// What an index declares.
///
/// Fields stand under their names, each name once.
#[derive(Debug, PartialEq, Eq)]
pub struct IndexSchema {
    pub fields: Vec<(String, FieldDef)>,
    /// The field documents are routed by; the document key where none is named.
    pub routing_field: Option<String>,
    pub description: Option<String>,
}

/// What an index declares, as a value of the model.
pub struct SchemaV {
    pub fields: Seq<(Seq<char>, FieldV)>,
    pub routing_field: Option<Seq<char>>,
    pub description: Option<Seq<char>>,
}

/// Fields under their names, as values of the model.
pub open spec fn field_models(fields: Seq<(String, FieldDef)>) -> Seq<(Seq<char>, FieldV)> {
    fields.map_values(|field: (String, FieldDef)| (field.0@, field.1@))
}

impl View for IndexSchema {
    type V = SchemaV;

    open spec fn view(&self) -> SchemaV {
        SchemaV {
            fields: field_models(self.fields@),
            routing_field: errors::opt_text(self.routing_field),
            description: errors::opt_text(self.description),
        }
    }
}

impl SchemaV {
    /// Whether every field stands under one name.
    pub open spec fn well_formed(self) -> bool {
        json::keys_distinct(self.fields)
    }

    /// What is declared of a field.
    pub open spec fn field(self, name: Seq<char>) -> Option<FieldV> {
        json::value_under(self.fields, name)
    }

    /// Whether a name is another name for the document key.
    pub open spec fn is_shadow(self, name: Seq<char>) -> bool {
        match self.field(name) {
            Some(field) => field.is_shadow,
            None => false,
        }
    }

    /// The field documents are routed by.
    pub open spec fn routes_by(self) -> Seq<char> {
        match self.routing_field {
            Some(name) => name,
            None => "id"@,
        }
    }

    /// The names the document key goes by besides its own.
    pub open spec fn shadow_names(self) -> Seq<Seq<char>> {
        shadow_names_of(self.fields)
    }

    /// The name hits carry the document key under.
    pub open spec fn document_key(self) -> Seq<char> {
        if self.shadow_names().len() > 0 {
            self.shadow_names()[0]
        } else {
            "id"@
        }
    }
}

/// The names of the shadow fields among fields, in order.
pub open spec fn shadow_names_of(fields: Seq<(Seq<char>, FieldV)>) -> Seq<Seq<char>>
    decreases fields.len(),
{
    if fields.len() == 0 {
        Seq::empty()
    } else {
        let before = shadow_names_of(fields.drop_last());
        if fields.last().1.is_shadow {
            before.push(fields.last().0)
        } else {
            before
        }
    }
}

impl Clone for IndexSchema {
    fn clone(&self) -> (copy: Self)
        ensures
            copy@ == self@,
    {
        let mut fields: Vec<(String, FieldDef)> = Vec::new();
        let ghost all = field_models(self.fields@);
        let mut i: usize = 0;
        while i < self.fields.len()
            invariant
                i <= self.fields.len(),
                all == field_models(self.fields@),
                field_models(fields@) == all.take(i as int),
            decreases self.fields.len() - i,
        {
            let ghost before = fields@;
            fields.push((self.fields[i].0.clone(), self.fields[i].1.clone()));
            i += 1;
            assert(field_models(fields@) =~= field_models(before).push(all[i - 1]));
            assert(all.take(i as int) =~= all.take(i - 1).push(all[i - 1]));
        }
        assert(all.take(self.fields.len() as int) =~= all);
        IndexSchema {
            fields,
            routing_field: copy_opt(&self.routing_field),
            description: copy_opt(&self.description),
        }
    }
}

impl Default for IndexSchema {
    fn default() -> (schema: Self)
        ensures
            schema@.fields.len() == 0,
            schema@.routing_field is None,
            schema@.description is None,
    {
        IndexSchema { fields: Vec::new(), routing_field: None, description: None }
    }
}

/// Where a field stands among fields.
pub fn find_field(fields: &Vec<(String, FieldDef)>, name: &str) -> (place: usize)
    ensures
        place == json::key_place(field_models(fields@), name@),
        place <= fields@.len(),
{
    let mut place: usize = 0;
    while place < fields.len()
        invariant
            place <= fields.len(),
            forall|j: int| 0 <= j < place ==> (#[trigger] field_models(fields@)[j]).0 != name@,
        decreases fields.len() - place,
    {
        if same_text(fields[place].0.as_str(), name) {
            proof {
                json::lemma_key_place_is(field_models(fields@), name@, place as int);
            }
            return place;
        }
        place += 1;
    }
    proof {
        json::lemma_key_place_is(field_models(fields@), name@, place as int);
    }
    place
}

impl IndexSchema {
    /// What is declared of a field.
    pub fn field(&self, name: &str) -> (found: Option<&FieldDef>)
        ensures
            found is Some <==> self@.field(name@) is Some,
            found matches Some(field) ==> self@.field(name@) == Some(field@),
    {
        let place: usize = find_field(&self.fields, name);
        if place < self.fields.len() {
            Some(&self.fields[place].1)
        } else {
            None
        }
    }

    /// Declares a field, in place of what was declared under that name.
    pub fn put_field(&mut self, name: &str, field: FieldDef)
        ensures
            final(self)@ == (SchemaV {
                fields: json::with_entry(old(self)@.fields, name@, field@),
                ..old(self)@
            }),
            old(self)@.well_formed() ==> final(self)@.well_formed(),
    {
        let ghost before = field_models(self.fields@);
        let place: usize = find_field(&self.fields, name);
        let entry: (String, FieldDef) = (String::from_str(name), field);
        proof {
            json::lemma_key_place(before, name@);
            if json::keys_distinct(before) {
                json::lemma_with_entry_keeps_keys_distinct(before, name@, field@);
            }
        }
        if place < self.fields.len() {
            self.fields.set(place, entry);
        } else {
            self.fields.push(entry);
        }
        assert(field_models(self.fields@) =~= json::with_entry(before, name@, field@));
    }

    /// Declares another name for the document key. It carries no column and no value of its own.
    pub fn add_shadow_field(&mut self, name: String, field_type: TantivyFieldType)
        ensures
            final(self)@ == (SchemaV {
                fields: json::with_entry(
                    old(self)@.fields,
                    name@,
                    FieldV {
                        indexed: false,
                        stored: false,
                        is_shadow: true,
                        ..plain_field(name@, field_type)
                    },
                ),
                ..old(self)@
            }),
            old(self)@.well_formed() ==> final(self)@.well_formed(),
    {
        let mut field: FieldDef = FieldDef::new(name.clone(), field_type);
        field.indexed = false;
        field.stored = false;
        field.is_shadow = true;
        self.put_field(name.as_str(), field);
    }

    /// Names the field documents are routed by, if the index has it.
    pub fn set_routing_field(&mut self, name: String) -> (done: Result<(), String>)
        ensures
            done is Ok <==> old(self)@.field(name@) is Some,
            done is Ok ==> final(self)@ == (SchemaV { routing_field: Some(name@), ..old(self)@ }),
            done matches Err(why) ==> final(self)@ == old(self)@ && why@
                == "no such field in this schema: "@ + name@,
    {
        if self.field(name.as_str()).is_some() {
            self.routing_field = Some(name);
            Ok(())
        } else {
            let mut why: String = String::from_str("no such field in this schema: ");
            why.append(name.as_str());
            Err(why)
        }
    }

    /// The field documents are routed by: the document key where none is named.
    pub fn get_routing_field(&self) -> (name: &str)
        ensures
            name@ == self@.routes_by(),
    {
        match &self.routing_field {
            Some(name) => name.as_str(),
            None => "id",
        }
    }

    /// Whether a name is another name for the document key.
    pub fn is_shadow_field(&self, name: &str) -> (shadow: bool)
        ensures
            shadow == self@.is_shadow(name@),
    {
        match self.field(name) {
            Some(field) => field.is_shadow,
            None => false,
        }
    }

    /// The names the document key goes by besides its own, in the order they are declared.
    pub fn shadow_names(&self) -> (names: Vec<String>)
        ensures
            text::texts(names@) == self@.shadow_names(),
    {
        let mut names: Vec<String> = Vec::new();
        let ghost all = field_models(self.fields@);
        let mut i: usize = 0;
        assert(text::texts(names@) =~= shadow_names_of(all.take(0)));
        while i < self.fields.len()
            invariant
                i <= self.fields.len(),
                all == field_models(self.fields@),
                text::texts(names@) == shadow_names_of(all.take(i as int)),
            decreases self.fields.len() - i,
        {
            proof {
                assert(all.take(i + 1).drop_last() =~= all.take(i as int));
                assert(all.take(i + 1).last() == all[i as int]);
            }
            if self.fields[i].1.is_shadow {
                let ghost before = names@;
                names.push(self.fields[i].0.clone());
                assert(text::texts(names@) =~= text::texts(before).push(all[i as int].0));
            }
            i += 1;
        }
        assert(all.take(self.fields.len() as int) =~= all);
        names
    }

    /// The name hits carry the document key under: the first of its other names, or its own.
    pub fn document_key_field(&self) -> (name: String)
        ensures
            name@ == self@.document_key(),
    {
        let names: Vec<String> = self.shadow_names();
        if names.len() > 0 {
            assert(text::texts(names@)[0] == names@[0]@);
            names[0].clone()
        } else {
            assert(text::texts(names@).len() == 0);
            String::from_str("id")
        }
    }
}

} // verus!
