//! Permission documents: their shape, and how they are read from decoded JSON.

use vstd::prelude::*;

use crate::json::{member, member_of, text_of, JsonValue};
use crate::text::same_text;

verus! {

/// Whether a statement allows or denies what it names.
#[derive(Clone, Copy, Debug, PartialEq, Eq)]
pub enum Effect {
    Allow,
    Deny,
}

/// One statement of a document: the actions it names on the resources it names.
#[derive(Clone, Debug)]
pub struct PolicyStatement {
    pub effect: Effect,
    pub action: Vec<String>,
    pub resource: Vec<String>,
}

/// A permission document: a version tag and its statements, in order.
#[derive(Clone, Debug)]
pub struct Policy {
    pub version: String,
    pub statements: Vec<PolicyStatement>,
}

/// What a statement holds.
pub struct StatementView {
    pub effect: Effect,
    pub actions: Seq<Seq<char>>,
    pub resources: Seq<Seq<char>>,
}

/// What a document holds.
pub struct PolicyView {
    pub version: Seq<char>,
    pub statements: Seq<StatementView>,
}

impl View for PolicyStatement {
    type V = StatementView;

    open spec fn view(&self) -> StatementView {
        StatementView {
            effect: self.effect,
            actions: self.action.deep_view(),
            resources: self.resource.deep_view(),
        }
    }
}

impl View for Policy {
    type V = PolicyView;

    open spec fn view(&self) -> PolicyView {
        PolicyView { version: self.version@, statements: statement_views(self.statements@) }
    }
}

/// What each statement holds, in order.
pub open spec fn statement_views(s: Seq<PolicyStatement>) -> Seq<StatementView> {
    s.map_values(|st: PolicyStatement| st@)
}

/// What each document holds, in order.
pub open spec fn policy_views(s: Seq<Policy>) -> Seq<PolicyView> {
    s.map_values(|p: Policy| p@)
}

/// A statement as its parser leaves it: both lists hold at least one entry.
pub open spec fn statement_wf(s: StatementView) -> bool {
    s.actions.len() > 0 && s.resources.len() > 0
}

/// Why a document could not be read.
#[derive(Clone, Debug, PartialEq, Eq)]
pub enum ParseError {
    /// A statement's `Effect` is missing or is neither `"Allow"` nor `"Deny"`.
    InvalidEffect,
    /// The named member is missing or does not have the shape it must have.
    InvalidField(String),
}

/// A parse failure, with the field name as text.
pub enum ParseFailure {
    InvalidEffect,
    InvalidField(Seq<char>),
}

impl View for ParseError {
    type V = ParseFailure;

    open spec fn view(&self) -> ParseFailure {
        match self {
            ParseError::InvalidEffect => ParseFailure::InvalidEffect,
            ParseError::InvalidField(name) => ParseFailure::InvalidField(name@),
        }
    }
}

/// The effect that a JSON value names.
pub open spec fn effect_of(v: JsonValue) -> Option<Effect> {
    match v {
        JsonValue::Str(s) => if s@ == "Allow"@ {
            Some(Effect::Allow)
        } else if s@ == "Deny"@ {
            Some(Effect::Deny)
        } else {
            None
        },
        _ => None,
    }
}

/// A field that holds one string or a non-empty array of strings, as the list
/// of those strings.
pub open spec fn texts_of(v: JsonValue) -> Option<Seq<Seq<char>>> {
    match v {
        JsonValue::Str(s) => Some(seq![s@]),
        JsonValue::Array(items) => if items@.len() > 0 && (forall|i: int|
            0 <= i < items@.len() ==> (#[trigger] text_of(items@[i])).is_some()) {
            Some(items@.map_values(|x: JsonValue| text_of(x).unwrap()))
        } else {
            None
        },
        _ => None,
    }
}

/// A field written as a bare string reads exactly as an array that holds only
/// that string.
pub proof fn lemma_bare_string_reads_as_list(s: String, items: Vec<JsonValue>)
    requires
        items@ == seq![JsonValue::Str(s)],
    ensures
        texts_of(JsonValue::Str(s)) == texts_of(JsonValue::Array(items)),
        texts_of(JsonValue::Str(s)) == Some(seq![s@]),
{
    assert(text_of(items@[0]) == Some(s@));
    assert(items@.map_values(|x: JsonValue| text_of(x).unwrap()) =~= seq![s@]);
}

/// The list held by member `key` of a statement, or the failure that names it.
pub open spec fn list_member(v: JsonValue, key: Seq<char>) -> Result<Seq<Seq<char>>, ParseFailure> {
    match member_of(v, key) {
        Some(x) => match texts_of(x) {
            Some(t) => Ok(t),
            None => Err(ParseFailure::InvalidField(key)),
        },
        None => Err(ParseFailure::InvalidField(key)),
    }
}

/// Reading one statement. The members are checked in the order `Effect`,
/// `Action`, `Resource`; other members are ignored.
pub open spec fn statement_from_json(v: JsonValue) -> Result<StatementView, ParseFailure> {
    if !(v is Object) {
        Err(ParseFailure::InvalidField("Statement"@))
    } else {
        match member_of(v, "Effect"@) {
            Some(e) if effect_of(e).is_some() => match list_member(v, "Action"@) {
                Ok(actions) => match list_member(v, "Resource"@) {
                    Ok(resources) => Ok(
                        StatementView { effect: effect_of(e).unwrap(), actions, resources },
                    ),
                    Err(f) => Err(f),
                },
                Err(f) => Err(f),
            },
            _ => Err(ParseFailure::InvalidEffect),
        }
    }
}

/// Reading a list of statements: the first failure in order, or all of them.
pub open spec fn statements_from_json(items: Seq<JsonValue>) -> Result<Seq<StatementView>, ParseFailure>
    decreases items.len(),
{
    if items.len() == 0 {
        Ok(Seq::empty())
    } else {
        match statements_from_json(items.drop_last()) {
            Ok(done) => match statement_from_json(items.last()) {
                Ok(s) => Ok(done.push(s)),
                Err(f) => Err(f),
            },
            Err(f) => Err(f),
        }
    }
}

/// Reading a document: a string `Version` and an array `Statement`, checked in
/// that order; other members are ignored.
pub open spec fn policy_from_json(v: JsonValue) -> Result<PolicyView, ParseFailure> {
    match member_of(v, "Version"@) {
        Some(JsonValue::Str(version)) => match member_of(v, "Statement"@) {
            Some(JsonValue::Array(items)) => match statements_from_json(items@) {
                Ok(statements) => Ok(PolicyView { version: version@, statements }),
                Err(f) => Err(f),
            },
            _ => Err(ParseFailure::InvalidField("Statement"@)),
        },
        _ => Err(ParseFailure::InvalidField("Version"@)),
    }
}

/// A failure among the first `n` statements is the failure of the whole list.
proof fn lemma_failure_spreads(items: Seq<JsonValue>, n: int, f: ParseFailure)
    requires
        0 <= n <= items.len(),
        statements_from_json(items.take(n)) == Err::<Seq<StatementView>, ParseFailure>(f),
    ensures
        statements_from_json(items) == Err::<Seq<StatementView>, ParseFailure>(f),
    decreases items.len() - n,
{
    if n == items.len() {
        assert(items.take(n) =~= items);
    } else {
        assert(items.take(n + 1).drop_last() =~= items.take(n));
        lemma_failure_spreads(items, n + 1, f);
    }
}

/// A field that is either one string or an array of strings, as a list.
fn string_or_array(v: &JsonValue) -> (r: Option<Vec<String>>)
    ensures
        r.is_some() == texts_of(*v).is_some(),
        r.is_some() ==> r.unwrap().deep_view() == texts_of(*v).unwrap(),
{
    match v {
        JsonValue::Str(s) => {
            let mut out: Vec<String> = Vec::new();
            out.push(s.clone());
            assert(out.deep_view() =~= seq![s@]);
            Some(out)
        },
        JsonValue::Array(items) => {
            if items.len() == 0 {
                return None;
            }
            let mut out: Vec<String> = Vec::new();
            let mut i: usize = 0;
            while i < items.len()
                invariant
                    *v == JsonValue::Array(*items),
                    i <= items@.len(),
                    out@.len() == i,
                    forall|j: int| 0 <= j < i ==> (#[trigger] text_of(items@[j])) == Some(out@[j]@),
                decreases items@.len() - i,
            {
                match &items[i] {
                    JsonValue::Str(s) => {
                        out.push(s.clone());
                    },
                    _ => {
                        assert(text_of(items@[i as int]).is_none());
                        return None;
                    },
                }
                i = i + 1;
            }
            assert(out.deep_view() =~= items@.map_values(|x: JsonValue| text_of(x).unwrap()));
            Some(out)
        },
        _ => None,
    }
}

/// The effect named by `v`.
fn effect_from(v: &JsonValue) -> (r: Option<Effect>)
    ensures
        r == effect_of(*v),
{
    match v {
        JsonValue::Str(s) => {
            if same_text(s.as_str(), "Allow") {
                Some(Effect::Allow)
            } else if same_text(s.as_str(), "Deny") {
                Some(Effect::Deny)
            } else {
                None
            }
        },
        _ => None,
    }
}

/// The list held by member `key`.
fn list_from(v: &JsonValue, key: &str) -> (r: Result<Vec<String>, ParseError>)
    ensures
        match r {
            Ok(t) => list_member(*v, key@) == Ok::<Seq<Seq<char>>, ParseFailure>(t.deep_view()),
            Err(e) => list_member(*v, key@) == Err::<Seq<Seq<char>>, ParseFailure>(e@),
        },
{
    match member(v, key) {
        Some(x) => match string_or_array(x) {
            Some(t) => Ok(t),
            None => Err(ParseError::InvalidField(key.to_owned())),
        },
        None => Err(ParseError::InvalidField(key.to_owned())),
    }
}

impl PolicyStatement {
    /// Reads a statement from its JSON object.
    pub fn from_json(v: &JsonValue) -> (r: Result<PolicyStatement, ParseError>)
        ensures
            match r {
                Ok(s) => statement_from_json(*v) == Ok::<StatementView, ParseFailure>(s@),
                Err(e) => statement_from_json(*v) == Err::<StatementView, ParseFailure>(e@),
            },
    {
        if !matches!(v, JsonValue::Object(_)) {
            return Err(ParseError::InvalidField("Statement".to_owned()));
        }
        let effect = match member(v, "Effect") {
            Some(e) => match effect_from(e) {
                Some(effect) => effect,
                None => return Err(ParseError::InvalidEffect),
            },
            None => return Err(ParseError::InvalidEffect),
        };
        let action = match list_from(v, "Action") {
            Ok(t) => t,
            Err(e) => return Err(e),
        };
        let resource = match list_from(v, "Resource") {
            Ok(t) => t,
            Err(e) => return Err(e),
        };
        Ok(PolicyStatement { effect, action, resource })
    }
}

impl Policy {
    /// Reads a document from its decoded JSON.
    pub fn from_json(v: &JsonValue) -> (r: Result<Policy, ParseError>)
        ensures
            match r {
                Ok(p) => policy_from_json(*v) == Ok::<PolicyView, ParseFailure>(p@),
                Err(e) => policy_from_json(*v) == Err::<PolicyView, ParseFailure>(e@),
            },
    {
        let version = match member(v, "Version") {
            Some(JsonValue::Str(s)) => s.clone(),
            _ => return Err(ParseError::InvalidField("Version".to_owned())),
        };
        let items = match member(v, "Statement") {
            Some(JsonValue::Array(items)) => items,
            _ => return Err(ParseError::InvalidField("Statement".to_owned())),
        };
        let mut statements: Vec<PolicyStatement> = Vec::new();
        let mut i: usize = 0;
        assert(items@.take(0) =~= Seq::<JsonValue>::empty());
        assert(statement_views(statements@) =~= Seq::<StatementView>::empty());
        while i < items.len()
            invariant
                member_of(*v, "Version"@) matches Some(JsonValue::Str(vs)) && vs@ == version@,
                member_of(*v, "Statement"@) == Some(JsonValue::Array(*items)),
                i <= items@.len(),
                statements_from_json(items@.take(i as int)) == Ok::<Seq<StatementView>, ParseFailure>(
                    statement_views(statements@),
                ),
            decreases items@.len() - i,
        {
            assert(items@.take(i + 1).drop_last() =~= items@.take(i as int));
            match PolicyStatement::from_json(&items[i]) {
                Ok(s) => {
                    let ghost done = statements@;
                    statements.push(s);
                    assert(statement_views(statements@) =~= statement_views(done).push(s@));
                },
                Err(e) => {
                    proof {
                        lemma_failure_spreads(items@, i + 1, e@);
                    }
                    return Err(e);
                },
            }
            i = i + 1;
        }
        assert(items@.take(items@.len() as int) =~= items@);
        Ok(Policy { version, statements })
    }
}

} // verus!
