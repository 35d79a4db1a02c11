//! Capabilities, the (resource, action) pairs that documents grant, and their
//! extraction from documents.

use vstd::prelude::*;

use crate::iam::{policy_views, statement_views, Policy, PolicyStatement, PolicyView, StatementView};
use crate::text::{
    compare_text, lemma_text_lt_irreflexive, lemma_text_lt_total, lemma_text_lt_transitive,
    same_text, text_lt,
};

verus! {

/// A capability as text: (resource, action).
pub type Capability = (Seq<char>, Seq<char>);

/// One capability: an action on a resource.
#[derive(Hash, PartialEq, Eq, Debug)]
pub struct CapabilityRow {
    pub resource: String,
    pub action: String,
}

impl View for CapabilityRow {
    type V = Capability;

    open spec fn view(&self) -> Capability {
        (self.resource@, self.action@)
    }
}

/// One capability with whether each of two sides grants it.
#[derive(Debug, PartialEq, Eq, Clone)]
pub struct CapabilityComparisonRow {
    pub resource: String,
    pub action: String,
    pub has_capability1: bool,
    pub has_capability2: bool,
}

/// What a comparison row holds.
pub struct ComparisonEntry {
    pub capability: Capability,
    pub side1: bool,
    pub side2: bool,
}

impl View for CapabilityComparisonRow {
    type V = ComparisonEntry;

    open spec fn view(&self) -> ComparisonEntry {
        ComparisonEntry {
            capability: (self.resource@, self.action@),
            side1: self.has_capability1,
            side2: self.has_capability2,
        }
    }
}

/// What each comparison row holds, in order.
pub open spec fn entry_seq(rows: Seq<CapabilityComparisonRow>) -> Seq<ComparisonEntry> {
    rows.map_values(|r: CapabilityComparisonRow| r@)
}

/// The capability of each row, in order.
pub open spec fn capability_seq(rows: Seq<CapabilityRow>) -> Seq<Capability> {
    rows.map_values(|r: CapabilityRow| r@)
}

/// Capabilities are ordered by resource, then by action.
pub open spec fn capability_lt(a: Capability, b: Capability) -> bool {
    text_lt(a.0, b.0) || (a.0 == b.0 && text_lt(a.1, b.1))
}

/// Every capability sorts strictly before each one after it.
pub open spec fn strictly_ascending(s: Seq<Capability>) -> bool {
    forall|i: int, j: int| 0 <= i < j < s.len() ==> capability_lt(#[trigger] s[i], #[trigger] s[j])
}

pub proof fn lemma_capability_lt_irreflexive(a: Capability)
    ensures
        !capability_lt(a, a),
{
    lemma_text_lt_irreflexive(a.0);
    lemma_text_lt_irreflexive(a.1);
}

pub proof fn lemma_capability_lt_transitive(a: Capability, b: Capability, c: Capability)
    requires
        capability_lt(a, b),
        capability_lt(b, c),
    ensures
        capability_lt(a, c),
{
    if text_lt(a.0, b.0) && text_lt(b.0, c.0) {
        lemma_text_lt_transitive(a.0, b.0, c.0);
    } else if a.0 == b.0 && b.0 == c.0 {
        lemma_text_lt_transitive(a.1, b.1, c.1);
    }
}

pub proof fn lemma_capability_lt_total(a: Capability, b: Capability)
    requires
        a != b,
    ensures
        capability_lt(a, b) || capability_lt(b, a),
{
    if a.0 != b.0 {
        lemma_text_lt_total(a.0, b.0);
    } else {
        lemma_text_lt_total(a.1, b.1);
    }
}

/// The pairs of one action with each resource, in the order of the resources.
pub open spec fn action_pairs(resources: Seq<Seq<char>>, action: Seq<char>) -> Seq<Capability> {
    resources.map_values(|r: Seq<char>| (r, action))
}

/// Every action with every resource: action by action, each with every
/// resource in turn.
pub open spec fn cross_pairs(actions: Seq<Seq<char>>, resources: Seq<Seq<char>>) -> Seq<Capability>
    decreases actions.len(),
{
    if actions.len() == 0 {
        Seq::empty()
    } else {
        cross_pairs(actions.drop_last(), resources) + action_pairs(resources, actions.last())
    }
}

/// The pairs of a list of statements, statement by statement, before any
/// duplicate is removed.
pub open spec fn statements_pairs(statements: Seq<StatementView>) -> Seq<Capability>
    decreases statements.len(),
{
    if statements.len() == 0 {
        Seq::empty()
    } else {
        statements_pairs(statements.drop_last()) + cross_pairs(
            statements.last().actions,
            statements.last().resources,
        )
    }
}

/// How many pairs a list of statements yields before duplicates are removed:
/// for each statement, its number of actions times its number of resources.
pub open spec fn statements_pair_count(statements: Seq<StatementView>) -> nat
    decreases statements.len(),
{
    if statements.len() == 0 {
        0
    } else {
        statements_pair_count(statements.drop_last()) + statements.last().actions.len()
            * statements.last().resources.len()
    }
}

/// How many pairs a list of documents yields before duplicates are removed.
pub open spec fn pair_count(policies: Seq<PolicyView>) -> nat
    decreases policies.len(),
{
    if policies.len() == 0 {
        0
    } else {
        pair_count(policies.drop_last()) + statements_pair_count(policies.last().statements)
    }
}

/// The capabilities one statement grants.
pub open spec fn statement_capabilities(s: StatementView) -> Set<Capability> {
    Set::new(|c: Capability| s.resources.contains(c.0) && s.actions.contains(c.1))
}

/// Some statement of the document grants `c`.
pub open spec fn policy_grants(p: PolicyView, c: Capability) -> bool {
    exists|k: int| 0 <= k < p.statements.len() && statement_capabilities(#[trigger] p.statements[k]).contains(c)
}

/// The capabilities that some statement of some document grants.
pub open spec fn capabilities_of(policies: Seq<PolicyView>) -> Set<Capability> {
    Set::new(|c: Capability| exists|i: int| 0 <= i < policies.len() && policy_grants(#[trigger] policies[i], c))
}

proof fn lemma_cross_pairs_len(actions: Seq<Seq<char>>, resources: Seq<Seq<char>>)
    ensures
        cross_pairs(actions, resources).len() == actions.len() * resources.len(),
    decreases actions.len(),
{
    if actions.len() > 0 {
        lemma_cross_pairs_len(actions.drop_last(), resources);
        assert((actions.len() - 1) * resources.len() + resources.len() == actions.len()
            * resources.len()) by (nonlinear_arith);
    }
}

proof fn lemma_cross_pairs_contains(actions: Seq<Seq<char>>, resources: Seq<Seq<char>>, c: Capability)
    ensures
        cross_pairs(actions, resources).contains(c) <==> (resources.contains(c.0) && actions.contains(c.1)),
    decreases actions.len(),
{
    if actions.len() > 0 {
        let rest = actions.drop_last();
        let last = action_pairs(resources, actions.last());
        lemma_cross_pairs_contains(rest, resources, c);
        let all = cross_pairs(actions, resources);
        let front = cross_pairs(rest, resources);
        assert(all == front + last);
        if all.contains(c) {
            let k = choose|k: int| 0 <= k < all.len() && all[k] == c;
            if k < front.len() {
                assert(front[k] == c);
                let m = choose|m: int| 0 <= m < rest.len() && rest[m] == c.1;
                assert(actions[m] == c.1);
            } else {
                assert(last[k - front.len()] == c);
                assert(resources[k - front.len()] == c.0);
                assert(actions[actions.len() - 1] == c.1);
            }
        }
        if resources.contains(c.0) && actions.contains(c.1) {
            let m = choose|m: int| 0 <= m < actions.len() && actions[m] == c.1;
            let r = choose|r: int| 0 <= r < resources.len() && resources[r] == c.0;
            if m < actions.len() - 1 {
                assert(rest[m] == c.1);
                let k = choose|k: int| 0 <= k < front.len() && front[k] == c;
                assert(all[k] == c);
            } else {
                assert(last[r] == c);
                assert(all[front.len() + r] == c);
            }
        }
    }
}

proof fn lemma_statements_pairs_len(statements: Seq<StatementView>)
    ensures
        statements_pairs(statements).len() == statements_pair_count(statements),
    decreases statements.len(),
{
    if statements.len() > 0 {
        lemma_statements_pairs_len(statements.drop_last());
        lemma_cross_pairs_len(statements.last().actions, statements.last().resources);
    }
}

proof fn lemma_statements_pairs_contains(statements: Seq<StatementView>, c: Capability)
    ensures
        statements_pairs(statements).contains(c) <==> exists|k: int|
            0 <= k < statements.len() && statement_capabilities(#[trigger] statements[k]).contains(c),
    decreases statements.len(),
{
    if statements.len() > 0 {
        let rest = statements.drop_last();
        let s = statements.last();
        lemma_statements_pairs_contains(rest, c);
        lemma_cross_pairs_contains(s.actions, s.resources, c);
        let front = statements_pairs(rest);
        let last = cross_pairs(s.actions, s.resources);
        let all = statements_pairs(statements);
        assert(all == front + last);
        if all.contains(c) {
            let k = choose|k: int| 0 <= k < all.len() && all[k] == c;
            if k < front.len() {
                assert(front[k] == c);
                let m = choose|m: int| 0 <= m < rest.len() && statement_capabilities(rest[m]).contains(c);
                assert(statements[m] == rest[m]);
            } else {
                assert(last[k - front.len()] == c);
                assert(statement_capabilities(statements[statements.len() - 1]).contains(c));
            }
        }
        if exists|k: int| 0 <= k < statements.len() && statement_capabilities(#[trigger] statements[k]).contains(c) {
            let k = choose|k: int| 0 <= k < statements.len() && statement_capabilities(#[trigger] statements[k]).contains(c);
            if k < statements.len() - 1 {
                assert(rest[k] == statements[k]);
                let j = choose|j: int| 0 <= j < front.len() && front[j] == c;
                assert(all[j] == c);
            } else {
                let j = choose|j: int| 0 <= j < last.len() && last[j] == c;
                assert(all[front.len() + j] == c);
            }
        }
    }
}

/// Whether `a` sorts strictly before `b`.
fn capability_before(a: &CapabilityRow, b: &CapabilityRow) -> (r: bool)
    ensures
        r == capability_lt(a@, b@),
{
    match compare_text(a.resource.as_str(), b.resource.as_str()) {
        core::cmp::Ordering::Less => true,
        core::cmp::Ordering::Greater => false,
        core::cmp::Ordering::Equal => match compare_text(a.action.as_str(), b.action.as_str()) {
            core::cmp::Ordering::Less => true,
            _ => false,
        },
    }
}

/// Whether `a` and `b` name the same capability.
pub(crate) fn same_capability(a: &CapabilityRow, b: &CapabilityRow) -> (r: bool)
    ensures
        r == (a@ == b@),
{
    same_text(a.resource.as_str(), b.resource.as_str()) && same_text(a.action.as_str(), b.action.as_str())
}

impl CapabilityRow {
    /// A copy of this capability.
    pub(crate) fn duplicate(&self) -> (r: CapabilityRow)
        ensures
            r@ == self@,
    {
        CapabilityRow { resource: self.resource.clone(), action: self.action.clone() }
    }
}

/// Adds `row` to a strictly ascending list at its place, unless the list holds
/// it already.
pub(crate) fn insert_capability(rows: &mut Vec<CapabilityRow>, row: CapabilityRow)
    requires
        strictly_ascending(capability_seq(old(rows)@)),
    ensures
        strictly_ascending(capability_seq(final(rows)@)),
        forall|c: Capability|
            capability_seq(final(rows)@).contains(c) <==> (capability_seq(old(rows)@).contains(c) || c == row@),
        final(rows)@.len() <= old(rows)@.len() + 1,
{
    let ghost s = capability_seq(rows@);
    let mut i: usize = 0;
    while i < rows.len() && capability_before(&rows[i], &row)
        invariant
            s == capability_seq(rows@),
            strictly_ascending(s),
            i <= rows@.len(),
            forall|k: int| 0 <= k < i ==> capability_lt(#[trigger] s[k], row@),
        decreases rows@.len() - i,
    {
        i = i + 1;
    }
    if i < rows.len() && same_capability(&rows[i], &row) {
        assert(s[i as int] == row@);
        return;
    }
    let ghost x = row@;
    proof {
        if i < s.len() {
            lemma_capability_lt_total(s[i as int], x);
            assert forall|k: int| i <= k < s.len() implies capability_lt(x, #[trigger] s[k]) by {
                if k > i {
                    lemma_capability_lt_transitive(x, s[i as int], s[k]);
                }
            }
        }
    }
    rows.insert(i, row);
    let ghost t = capability_seq(rows@);
    assert(t =~= s.insert(i as int, x));
    assert forall|p: int, q: int| 0 <= p < q < t.len() implies capability_lt(#[trigger] t[p], #[trigger] t[q]) by {
        if q < i {
        } else if q == i {
        } else if p < i {
            assert(t[q] == s[q - 1]);
        } else if p == i {
            assert(t[q] == s[q - 1]);
        } else {
            assert(t[p] == s[p - 1] && t[q] == s[q - 1]);
        }
    }
    assert forall|c: Capability| t.contains(c) <==> (s.contains(c) || c == x) by {
        if t.contains(c) {
            let k = choose|k: int| 0 <= k < t.len() && t[k] == c;
            if k < i {
                assert(s[k] == c);
            } else if k > i {
                assert(s[k - 1] == c);
            }
        }
        if s.contains(c) {
            let k = choose|k: int| 0 <= k < s.len() && s[k] == c;
            if k < i {
                assert(t[k] == c);
            } else {
                assert(t[k + 1] == c);
            }
        }
        if c == x {
            assert(t[i as int] == c);
        }
    }
}

/// Appends the pairs of `action` with each of `resources`.
fn push_action_pairs(out: &mut Vec<CapabilityRow>, resources: &Vec<String>, action: &String)
    ensures
        capability_seq(final(out)@) == capability_seq(old(out)@) + action_pairs(resources.deep_view(), action@),
{
    let ghost start = capability_seq(out@);
    let mut r: usize = 0;
    while r < resources.len()
        invariant
            r <= resources@.len(),
            capability_seq(out@) == start + action_pairs(resources.deep_view().take(r as int), action@),
        decreases resources@.len() - r,
    {
        let ghost before = capability_seq(out@);
        out.push(CapabilityRow { resource: resources[r].clone(), action: action.clone() });
        assert(action_pairs(resources.deep_view().take(r + 1), action@) =~= action_pairs(
            resources.deep_view().take(r as int),
            action@,
        ).push((resources@[r as int]@, action@)));
        assert(capability_seq(out@) =~= before.push((resources@[r as int]@, action@)));
        r = r + 1;
    }
    assert(resources.deep_view().take(resources@.len() as int) =~= resources.deep_view());
}

/// Every capability the statements name, statement by statement and in each
/// statement action by action, each action with every resource in turn;
/// nothing is removed or reordered. A statement with `m` actions and `n`
/// resources gives `m * n` entries.
pub fn extract_capabilities_from_statement(statements: &[PolicyStatement]) -> (r: Vec<CapabilityRow>)
    ensures
        capability_seq(r@) == statements_pairs(statement_views(statements@)),
        r@.len() == statements_pair_count(statement_views(statements@)),
{
    let ghost views = statement_views(statements@);
    let mut capabilities: Vec<CapabilityRow> = Vec::new();
    let mut s: usize = 0;
    assert(views.take(0) =~= Seq::<StatementView>::empty());
    assert(capability_seq(capabilities@) =~= Seq::<Capability>::empty());
    while s < statements.len()
        invariant
            views == statement_views(statements@),
            s <= statements@.len(),
            capability_seq(capabilities@) == statements_pairs(views.take(s as int)),
        decreases statements@.len() - s,
    {
        let statement = &statements[s];
        let ghost sv = statement@;
        let ghost start = capability_seq(capabilities@);
        let mut a: usize = 0;
        assert(sv.actions.take(0) =~= Seq::<Seq<char>>::empty());
        assert(start + cross_pairs(sv.actions.take(0), sv.resources) =~= start);
        while a < statement.action.len()
            invariant
                sv == statement@,
                a <= sv.actions.len(),
                capability_seq(capabilities@) == start + cross_pairs(sv.actions.take(a as int), sv.resources),
            decreases sv.actions.len() - a,
        {
            push_action_pairs(&mut capabilities, &statement.resource, &statement.action[a]);
            assert(sv.actions.take(a + 1).drop_last() =~= sv.actions.take(a as int));
            assert(sv.actions.take(a + 1).last() == statement.action@[a as int]@);
            a = a + 1;
        }
        assert(sv.actions.take(sv.actions.len() as int) =~= sv.actions);
        assert(views.take(s + 1).drop_last() =~= views.take(s as int));
        assert(views.take(s + 1).last() == sv);
        s = s + 1;
    }
    assert(views.take(statements@.len() as int) =~= views);
    proof {
        lemma_statements_pairs_len(views);
    }
    capabilities
}

/// Lists exactly the members of `set`.
pub open spec fn lists_exactly(s: Seq<Capability>, set: Set<Capability>) -> bool {
    forall|c: Capability| s.contains(c) <==> #[trigger] set.contains(c)
}

/// `r` is the extraction of `policies`: the capabilities they grant, each
/// once, in strictly ascending order; no more entries than the documents name
/// pairs.
pub open spec fn is_extraction(r: Seq<Capability>, policies: Seq<PolicyView>) -> bool {
    &&& strictly_ascending(r)
    &&& lists_exactly(r, capabilities_of(policies))
    &&& r.len() <= pair_count(policies)
}

/// The capabilities that the documents grant, each once, ordered by resource
/// and then by action.
pub fn extract_capabilities_from_policies(policies: Vec<Policy>) -> (r: Vec<CapabilityRow>)
    ensures
        is_extraction(capability_seq(r@), policy_views(policies@)),
{
    let ghost views = policy_views(policies@);
    let mut capabilities: Vec<CapabilityRow> = Vec::new();
    let mut i: usize = 0;
    assert(views.take(0) =~= Seq::<PolicyView>::empty());
    while i < policies.len()
        invariant
            views == policy_views(policies@),
            i <= policies@.len(),
            strictly_ascending(capability_seq(capabilities@)),
            lists_exactly(capability_seq(capabilities@), capabilities_of(views.take(i as int))),
            capabilities@.len() <= pair_count(views.take(i as int)),
        decreases policies@.len() - i,
    {
        let found = extract_capabilities_from_statement(policies[i].statements.as_slice());
        let ghost raw = capability_seq(found@);
        let ghost done = capabilities_of(views.take(i as int));
        let ghost base = capabilities@.len();
        let mut j: usize = 0;
        while j < found.len()
            invariant
                raw == capability_seq(found@),
                j <= found@.len(),
                strictly_ascending(capability_seq(capabilities@)),
                forall|c: Capability|
                    #[trigger] capability_seq(capabilities@).contains(c) <==> (done.contains(c) || raw.take(j as int).contains(c)),
                capabilities@.len() <= base + j,
            decreases found@.len() - j,
        {
            insert_capability(&mut capabilities, found[j].duplicate());
            let ghost before = raw.take(j as int);
            let ghost after = raw.take(j + 1);
            assert(after =~= before.push(raw[j as int]));
            assert forall|c: Capability| after.contains(c) <==> (before.contains(c) || c == raw[j as int]) by {
                if after.contains(c) {
                    let k = choose|k: int| 0 <= k < after.len() && after[k] == c;
                    if k < j {
                        assert(before[k] == c);
                    }
                }
                if before.contains(c) {
                    let k = choose|k: int| 0 <= k < before.len() && before[k] == c;
                    assert(after[k] == c);
                }
                if c == raw[j as int] {
                    assert(after[j as int] == c);
                }
            }
            assert forall|c: Capability| capability_seq(capabilities@).contains(c) <==> (done.contains(c) || after.contains(c)) by {
                assert(after.contains(c) <==> (before.contains(c) || c == raw[j as int]));
            }
            j = j + 1;
        }
        assert(raw.take(found@.len() as int) =~= raw);
        let ghost p = views[i as int];
        assert(views.take(i + 1).drop_last() =~= views.take(i as int));
        assert(views.take(i + 1).last() == p);
        assert(p.statements == statement_views(policies@[i as int].statements@));
        assert forall|c: Capability| #[trigger] capabilities_of(views.take(i + 1)).contains(c) <==> (done.contains(c) || raw.contains(c)) by {
            lemma_statements_pairs_contains(p.statements, c);
            let next = views.take(i + 1);
            if capabilities_of(next).contains(c) {
                let m = choose|m: int| 0 <= m < next.len() && policy_grants(#[trigger] next[m], c);
                if m < i {
                    assert(views.take(i as int)[m] == next[m]);
                }
            }
            if done.contains(c) {
                let prev = views.take(i as int);
                let m = choose|m: int| 0 <= m < prev.len() && policy_grants(#[trigger] prev[m], c);
                assert(next[m] == prev[m]);
            }
            if raw.contains(c) {
                assert(next[i as int] == p);
            }
        }
        proof {
            lemma_statements_pairs_len(p.statements);
        }
        i = i + 1;
    }
    assert(views.take(policies@.len() as int) =~= views);
    capabilities
}

/// A statement with `m` actions and `n` resources yields exactly `m * n`
/// capability pairs before duplicates are removed.
pub proof fn lemma_cross_product(s: StatementView)
    ensures
        statements_pairs(seq![s]).len() == s.actions.len() * s.resources.len(),
{
    let one = seq![s];
    assert(one.drop_last() =~= Seq::<StatementView>::empty());
    assert(one.last() == s);
    assert(statements_pairs(one.drop_last()).len() == 0);
    assert(statements_pairs(one) == statements_pairs(one.drop_last()) + cross_pairs(s.actions, s.resources));
    lemma_cross_pairs_len(s.actions, s.resources);
}

/// A capability that several statements or documents grant appears exactly
/// once in their extraction, so the extraction is no longer than the number of
/// pairs the documents name.
pub proof fn lemma_one_entry_per_capability(r: Seq<Capability>, policies: Seq<PolicyView>, c: Capability)
    requires
        is_extraction(r, policies),
        capabilities_of(policies).contains(c),
    ensures
        exists|i: int| 0 <= i < r.len() && r[i] == c,
        forall|i: int, j: int| 0 <= i < r.len() && 0 <= j < r.len() && r[i] == c && r[j] == c ==> i == j,
        r.len() <= pair_count(policies),
{
    assert(r.contains(c));
    assert forall|i: int, j: int| 0 <= i < r.len() && 0 <= j < r.len() && r[i] == c && r[j] == c implies i == j by {
        lemma_capability_lt_irreflexive(c);
        if i < j {
            assert(capability_lt(r[i], r[j]));
        } else if j < i {
            assert(capability_lt(r[j], r[i]));
        }
    }
}

/// Any two entries of an extraction differ, and the earlier one sorts first:
/// by resource, and by action where the resources are equal.
pub proof fn lemma_extraction_sorted(r: Seq<Capability>, policies: Seq<PolicyView>)
    requires
        is_extraction(r, policies),
    ensures
        forall|i: int, j: int|
            0 <= i < j < r.len() ==> #[trigger] r[i] != #[trigger] r[j] && (text_lt(r[i].0, r[j].0) || (
            r[i].0 == r[j].0 && text_lt(r[i].1, r[j].1))),
{
    assert forall|i: int, j: int| 0 <= i < j < r.len() implies #[trigger] r[i] != #[trigger] r[j] by {
        lemma_capability_lt_irreflexive(r[i]);
    }
}

/// Whether `rows` holds `row`.
pub(crate) fn holds_capability(rows: &Vec<CapabilityRow>, row: &CapabilityRow) -> (r: bool)
    ensures
        r == capability_seq(rows@).contains(row@),
{
    let mut i: usize = 0;
    while i < rows.len()
        invariant
            i <= rows@.len(),
            forall|k: int| 0 <= k < i ==> (#[trigger] capability_seq(rows@)[k]) != row@,
        decreases rows@.len() - i,
    {
        if same_capability(&rows[i], row) {
            assert(capability_seq(rows@)[i as int] == row@);
            return true;
        }
        i = i + 1;
    }
    false
}

} // verus!
