//! What the rows look like when written out: CSV records and JSON values, and
//! the format names.

use vstd::prelude::*;

use crate::capability::{CapabilityComparisonRow, CapabilityRow, ComparisonEntry};
use crate::json::{bool_of, lookup, member, member_of, text_of, JsonValue};
use crate::text::same_text;

verus! {

/// How rows are written out.
#[derive(Debug, PartialEq)]
pub enum OutputFormat {
    Csv,
    Json,
}

/// What `str::to_lowercase` makes of a text.
pub uninterp spec fn lower_of(s: Seq<char>) -> Seq<char>;

/// Relies on `str::to_lowercase`: the lower-case form of a text, which depends
/// on its characters alone.
#[verifier::external_body]
fn lowercase(s: &str) -> (r: String)
    ensures
        r@ == lower_of(s@),
{
    s.to_lowercase()
}

/// The format that a lower-case name selects, or the message that rejects the
/// name as it was `given`.
pub open spec fn format_named(lower: Seq<char>, given: Seq<char>) -> Result<OutputFormat, Seq<char>> {
    if lower == "csv"@ {
        Ok(OutputFormat::Csv)
    } else if lower == "json"@ {
        Ok(OutputFormat::Json)
    } else {
        Err("Invalid output format: "@ + given)
    }
}

impl OutputFormat {
    /// Selects the format by its lower-case name `lower`; `given` is the name as
    /// the user wrote it, for the message of a rejection.
    pub fn from_lowercase(lower: &str, given: &str) -> (r: Result<OutputFormat, String>)
        ensures
            match r {
                Ok(f) => format_named(lower@, given@) == Ok::<OutputFormat, Seq<char>>(f),
                Err(m) => format_named(lower@, given@) == Err::<OutputFormat, Seq<char>>(m@),
            },
    {
        if same_text(lower, "csv") {
            Ok(OutputFormat::Csv)
        } else if same_text(lower, "json") {
            Ok(OutputFormat::Json)
        } else {
            let message = "Invalid output format: ".to_owned();
            Err(message.concat(given))
        }
    }

    /// Selects the format by name, in any mix of upper and lower case.
    pub fn from_name(s: &str) -> (r: Result<OutputFormat, String>)
        ensures
            match r {
                Ok(f) => format_named(lower_of(s@), s@) == Ok::<OutputFormat, Seq<char>>(f),
                Err(m) => format_named(lower_of(s@), s@) == Err::<OutputFormat, Seq<char>>(m@),
            },
    {
        let lower = lowercase(s);
        OutputFormat::from_lowercase(lower.as_str(), s)
    }
}

impl core::str::FromStr for OutputFormat {
    type Err = String;

    fn from_str(s: &str) -> Result<OutputFormat, String> {
        OutputFormat::from_name(s)
    }
}

/// The texts of a list of string slices.
pub open spec fn texts(s: Seq<&str>) -> Seq<Seq<char>> {
    s.map_values(|x: &str| x@)
}

/// The text of a boolean in a record.
pub open spec fn bool_text(b: bool) -> Seq<char> {
    if b {
        "true"@
    } else {
        "false"@
    }
}

/// A row that can be written out as a CSV record or as a JSON value.
pub trait OutputSerializable: Sized {
    /// The column names.
    spec fn header_spec() -> Seq<Seq<char>>;

    /// The fields of this row's record.
    spec fn record_spec(&self) -> Seq<Seq<char>>;

    /// `v` is this row's JSON value.
    spec fn json_spec(&self, v: JsonValue) -> bool;

    fn csv_header() -> (r: Vec<&'static str>)
        ensures
            texts(r@) == Self::header_spec(),
    ;

    fn csv_record(&self) -> (r: Vec<String>)
        ensures
            r.deep_view() == self.record_spec(),
            self.record_spec().len() == Self::header_spec().len(),
    ;

    fn to_json_value(&self) -> (r: JsonValue)
        ensures
            self.json_spec(r),
    ;
}

/// The text of a boolean.
fn bool_string(b: bool) -> (r: String)
    ensures
        r@ == bool_text(b),
{
    if b {
        "true".to_owned()
    } else {
        "false".to_owned()
    }
}

/// The JSON value of a capability: an object with the members `resource` and
/// `action`, in that order.
pub open spec fn capability_json(resource: Seq<char>, action: Seq<char>, v: JsonValue) -> bool {
    match v {
        JsonValue::Object(m) => {
            &&& m@.len() == 2
            &&& m@[0].0@ == "resource"@ && text_of(m@[0].1) == Some(resource)
            &&& m@[1].0@ == "action"@ && text_of(m@[1].1) == Some(action)
        },
        _ => false,
    }
}

/// The JSON value of a comparison row: an object with the members `resource`,
/// `action`, `role1` and `role2`, in that order.
pub open spec fn comparison_json(e: ComparisonEntry, v: JsonValue) -> bool {
    match v {
        JsonValue::Object(m) => {
            &&& m@.len() == 4
            &&& m@[0].0@ == "resource"@ && text_of(m@[0].1) == Some(e.capability.0)
            &&& m@[1].0@ == "action"@ && text_of(m@[1].1) == Some(e.capability.1)
            &&& m@[2].0@ == "role1"@ && bool_of(m@[2].1) == Some(e.side1)
            &&& m@[3].0@ == "role2"@ && bool_of(m@[3].1) == Some(e.side2)
        },
        _ => false,
    }
}

impl OutputSerializable for CapabilityRow {
    open spec fn header_spec() -> Seq<Seq<char>> {
        seq!["Resource"@, "Action"@]
    }

    open spec fn record_spec(&self) -> Seq<Seq<char>> {
        seq![self.resource@, self.action@]
    }

    open spec fn json_spec(&self, v: JsonValue) -> bool {
        capability_json(self.resource@, self.action@, v)
    }

    fn csv_header() -> (r: Vec<&'static str>) {
        let mut r: Vec<&'static str> = Vec::new();
        r.push("Resource");
        r.push("Action");
        assert(texts(r@) =~= seq!["Resource"@, "Action"@]);
        r
    }

    fn csv_record(&self) -> (r: Vec<String>) {
        let mut r: Vec<String> = Vec::new();
        r.push(self.resource.clone());
        r.push(self.action.clone());
        assert(r.deep_view() =~= seq![self.resource@, self.action@]);
        r
    }

    fn to_json_value(&self) -> (r: JsonValue) {
        let mut members: Vec<(String, JsonValue)> = Vec::new();
        members.push(("resource".to_owned(), JsonValue::Str(self.resource.clone())));
        members.push(("action".to_owned(), JsonValue::Str(self.action.clone())));
        JsonValue::Object(members)
    }
}

impl OutputSerializable for CapabilityComparisonRow {
    open spec fn header_spec() -> Seq<Seq<char>> {
        seq!["Resource"@, "Action"@, "Role1"@, "Role2"@]
    }

    open spec fn record_spec(&self) -> Seq<Seq<char>> {
        seq![self.resource@, self.action@, bool_text(self.has_capability1), bool_text(self.has_capability2)]
    }

    open spec fn json_spec(&self, v: JsonValue) -> bool {
        comparison_json(self@, v)
    }

    fn csv_header() -> (r: Vec<&'static str>) {
        let mut r: Vec<&'static str> = Vec::new();
        r.push("Resource");
        r.push("Action");
        r.push("Role1");
        r.push("Role2");
        assert(texts(r@) =~= seq!["Resource"@, "Action"@, "Role1"@, "Role2"@]);
        r
    }

    fn csv_record(&self) -> (r: Vec<String>) {
        let mut r: Vec<String> = Vec::new();
        r.push(self.resource.clone());
        r.push(self.action.clone());
        r.push(bool_string(self.has_capability1));
        r.push(bool_string(self.has_capability2));
        assert(r.deep_view() =~= seq![
            self.resource@,
            self.action@,
            bool_text(self.has_capability1),
            bool_text(self.has_capability2),
        ]);
        r
    }

    fn to_json_value(&self) -> (r: JsonValue) {
        let mut members: Vec<(String, JsonValue)> = Vec::new();
        members.push(("resource".to_owned(), JsonValue::Str(self.resource.clone())));
        members.push(("action".to_owned(), JsonValue::Str(self.action.clone())));
        members.push(("role1".to_owned(), JsonValue::Bool(self.has_capability1)));
        members.push(("role2".to_owned(), JsonValue::Bool(self.has_capability2)));
        JsonValue::Object(members)
    }
}

/// The records of a CSV table of `rows`: the column names, then one record
/// per row.
pub open spec fn table_spec<T: OutputSerializable>(rows: Seq<T>) -> Seq<Seq<Seq<char>>> {
    seq![T::header_spec()] + rows.map_values(|r: T| r.record_spec())
}

/// Every record has as many fields as the first.
pub open spec fn uniform(records: Seq<Seq<Seq<char>>>) -> bool {
    forall|i: int| 0 <= i < records.len() ==> (#[trigger] records[i]).len() == records[0].len()
}

/// The records of a CSV table: the column names, then one record per row.
pub fn csv_table<T: OutputSerializable>(rows: &[T]) -> (r: Vec<Vec<String>>)
    ensures
        r.deep_view() == table_spec(rows@),
        uniform(r.deep_view()),
{
    let names = T::csv_header();
    let mut header: Vec<String> = Vec::new();
    let mut k: usize = 0;
    while k < names.len()
        invariant
            k <= names@.len(),
            header.deep_view() == texts(names@).take(k as int),
        decreases names@.len() - k,
    {
        let ghost before = header.deep_view();
        let name: &str = names[k];
        header.push(name.to_owned());
        assert(header.deep_view() =~= before.push(name@));
        assert(texts(names@).take(k + 1) =~= texts(names@).take(k as int).push(name@));
        k = k + 1;
    }
    assert(texts(names@).take(names@.len() as int) =~= texts(names@));
    let mut table: Vec<Vec<String>> = Vec::new();
    table.push(header);
    let mut i: usize = 0;
    while i < rows.len()
        invariant
            i <= rows@.len(),
            table@.len() == i + 1,
            table@[0].deep_view() == T::header_spec(),
            forall|j: int| 0 <= j < i ==> (#[trigger] table@[j + 1]).deep_view() == rows@[j].record_spec(),
            forall|j: int| 0 <= j < i ==> (#[trigger] rows@[j].record_spec()).len() == T::header_spec().len(),
        decreases rows@.len() - i,
    {
        table.push(rows[i].csv_record());
        i = i + 1;
    }
    assert(table.deep_view() =~= table_spec(rows@)) by {
        assert forall|j: int| 0 <= j < table@.len() implies #[trigger] table.deep_view()[j] == table_spec(rows@)[j] by {
            if j > 0 {
                assert(table@[(j - 1) + 1].deep_view() == rows@[j - 1].record_spec());
            }
        }
    }
    assert forall|j: int| 0 <= j < table@.len() implies (#[trigger] table.deep_view()[j]).len() == table.deep_view()[0].len() by {
        if j > 0 {
            assert(table@[(j - 1) + 1].deep_view() == rows@[j - 1].record_spec());
            assert(rows@[j - 1].record_spec().len() == T::header_spec().len());
        }
    }
    table
}

/// What `csv::Writer` writes for a list of records.
pub uninterp spec fn csv_encoded(records: Seq<Seq<Seq<char>>>) -> Seq<char>;

/// Relies on `csv::Writer` with its default settings, writing into memory: it
/// writes each record as one line. Writing into memory does not fail, so it
/// refuses only records whose number of fields differs from the first's.
#[verifier::external_body]
fn encode_csv(records: &Vec<Vec<String>>) -> (r: Option<String>)
    ensures
        r.is_some() == uniform(records.deep_view()),
        r.is_some() ==> r.unwrap()@ == csv_encoded(records.deep_view()),
{
    let mut writer = csv::Writer::from_writer(Vec::new());
    for record in records.iter() {
        if writer.write_record(record).is_err() {
            return None;
        }
    }
    writer.into_inner().ok().and_then(|bytes| String::from_utf8(bytes).ok())
}

/// The rows as CSV text: a line of column names, then one line per row.
pub fn csv_text<T: OutputSerializable>(rows: &[T]) -> (r: String)
    ensures
        r@ == csv_encoded(table_spec(rows@)),
{
    let table = csv_table(rows);
    match encode_csv(&table) {
        Some(text) => text,
        None => {
            assert(false);
            String::new()
        },
    }
}

/// The JSON array of the rows' values, in order.
pub fn rows_to_json<T: OutputSerializable>(rows: &[T]) -> (r: JsonValue)
    ensures
        r matches JsonValue::Array(items) && items@.len() == rows@.len() && forall|i: int|
            0 <= i < rows@.len() ==> rows@[i].json_spec(#[trigger] items@[i]),
{
    let mut items: Vec<JsonValue> = Vec::new();
    let mut i: usize = 0;
    while i < rows.len()
        invariant
            i <= rows@.len(),
            items@.len() == i,
            forall|j: int| 0 <= j < i ==> rows@[j].json_spec(#[trigger] items@[j]),
        decreases rows@.len() - i,
    {
        items.push(rows[i].to_json_value());
        i = i + 1;
    }
    JsonValue::Array(items)
}

/// `v` is the JSON array of the comparison rows `rows`.
pub open spec fn renders_comparison(v: JsonValue, rows: Seq<ComparisonEntry>) -> bool {
    v matches JsonValue::Array(items) && items@.len() == rows.len() && forall|i: int|
        0 <= i < rows.len() ==> comparison_json(rows[i], #[trigger] items@[i])
}

/// A comparison row read back from a JSON object by the names of its members,
/// in any order; other members are ignored.
pub open spec fn entry_from_json(v: JsonValue) -> Option<ComparisonEntry> {
    match (member_of(v, "resource"@), member_of(v, "action"@), member_of(v, "role1"@), member_of(v, "role2"@)) {
        (Some(JsonValue::Str(r)), Some(JsonValue::Str(a)), Some(JsonValue::Bool(b1)), Some(JsonValue::Bool(b2))) => Some(
            ComparisonEntry { capability: (r@, a@), side1: b1, side2: b2 },
        ),
        _ => None,
    }
}

/// Comparison rows read back from a JSON array, if every item reads.
pub open spec fn entries_from_json(v: JsonValue) -> Option<Seq<ComparisonEntry>> {
    match v {
        JsonValue::Array(items) => if forall|i: int|
            0 <= i < items@.len() ==> (#[trigger] entry_from_json(items@[i])).is_some() {
            Some(items@.map_values(|x: JsonValue| entry_from_json(x).unwrap()))
        } else {
            None
        },
        _ => None,
    }
}

/// Reads one comparison row back from its JSON object.
fn comparison_row_from_json(v: &JsonValue) -> (r: Option<CapabilityComparisonRow>)
    ensures
        r.is_some() == entry_from_json(*v).is_some(),
        r.is_some() ==> r.unwrap()@ == entry_from_json(*v).unwrap(),
{
    let resource = match member(v, "resource") {
        Some(JsonValue::Str(s)) => s.clone(),
        _ => return None,
    };
    let action = match member(v, "action") {
        Some(JsonValue::Str(s)) => s.clone(),
        _ => return None,
    };
    let has_capability1 = match member(v, "role1") {
        Some(JsonValue::Bool(b)) => *b,
        _ => return None,
    };
    let has_capability2 = match member(v, "role2") {
        Some(JsonValue::Bool(b)) => *b,
        _ => return None,
    };
    Some(CapabilityComparisonRow { resource, action, has_capability1, has_capability2 })
}

/// Reads comparison rows back from a JSON array of their objects; `None` when
/// `v` is no array or an item lacks a member or has one of the wrong kind.
pub fn comparison_rows_from_json(v: &JsonValue) -> (r: Option<Vec<CapabilityComparisonRow>>)
    ensures
        r.is_some() == entries_from_json(*v).is_some(),
        r.is_some() ==> crate::capability::entry_seq(r.unwrap()@) == entries_from_json(*v).unwrap(),
{
    match v {
        JsonValue::Array(items) => {
            let mut rows: Vec<CapabilityComparisonRow> = Vec::new();
            let mut i: usize = 0;
            while i < items.len()
                invariant
                    *v == JsonValue::Array(*items),
                    i <= items@.len(),
                    rows@.len() == i,
                    forall|j: int| 0 <= j < i ==> (#[trigger] entry_from_json(items@[j])) == Some(rows@[j]@),
                decreases items@.len() - i,
            {
                match comparison_row_from_json(&items[i]) {
                    Some(row) => rows.push(row),
                    None => return None,
                }
                i = i + 1;
            }
            assert(crate::capability::entry_seq(rows@) =~= items@.map_values(|x: JsonValue| entry_from_json(x).unwrap()));
            Some(rows)
        },
        _ => None,
    }
}

/// The member names of a comparison row's object differ from one another.
proof fn lemma_member_names_differ()
    ensures
        "resource"@ != "action"@,
        "resource"@ != "role1"@,
        "resource"@ != "role2"@,
        "action"@ != "role1"@,
        "action"@ != "role2"@,
        "role1"@ != "role2"@,
{
    reveal_strlit("resource");
    reveal_strlit("action");
    reveal_strlit("role1");
    reveal_strlit("role2");
    assert("resource"@.len() == 8);
    assert("action"@.len() == 6);
    assert("role1"@.len() == 5);
    assert("role2"@.len() == 5);
    assert("role1"@[4] != "role2"@[4]);
}

/// A comparison row's JSON object reads back as that row.
proof fn lemma_entry_round_trip(e: ComparisonEntry, v: JsonValue)
    requires
        comparison_json(e, v),
    ensures
        entry_from_json(v) == Some(e),
{
    lemma_member_names_differ();
    let m = v->Object_0@;
    let m1 = m.drop_first();
    let m2 = m1.drop_first();
    let m3 = m2.drop_first();
    assert(m1[0] == m[1] && m2[0] == m[2] && m3[0] == m[3]);
    assert(lookup(m, "resource"@) == Some(m[0].1));
    assert(lookup(m1, "action"@) == Some(m[1].1));
    assert(lookup(m, "action"@) == lookup(m1, "action"@));
    assert(lookup(m2, "role1"@) == Some(m[2].1));
    assert(lookup(m1, "role1"@) == lookup(m2, "role1"@));
    assert(lookup(m, "role1"@) == lookup(m1, "role1"@));
    assert(lookup(m3, "role2"@) == Some(m[3].1));
    assert(lookup(m2, "role2"@) == lookup(m3, "role2"@));
    assert(lookup(m1, "role2"@) == lookup(m2, "role2"@));
    assert(lookup(m, "role2"@) == lookup(m1, "role2"@));
}

/// Writing comparison rows as JSON and reading them back gives the same rows,
/// in the same order.
pub proof fn lemma_json_round_trip(rows: Seq<ComparisonEntry>, v: JsonValue)
    requires
        renders_comparison(v, rows),
    ensures
        entries_from_json(v) == Some(rows),
{
    let items = v->Array_0@;
    assert forall|i: int| 0 <= i < items.len() implies (#[trigger] entry_from_json(items[i])) == Some(rows[i]) by {
        lemma_entry_round_trip(rows[i], items[i]);
    }
    assert(items.map_values(|x: JsonValue| entry_from_json(x).unwrap()) =~= rows);
}

} // verus!
