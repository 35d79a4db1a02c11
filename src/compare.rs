//! Comparison of the capabilities that two sets of documents grant.

use vstd::prelude::*;

use crate::capability::{
    capabilities_of, capability_lt, capability_seq, entry_seq, extract_capabilities_from_policies,
    holds_capability, insert_capability, lemma_capability_lt_irreflexive, strictly_ascending,
    Capability, CapabilityComparisonRow, CapabilityRow, ComparisonEntry,
};
use crate::iam::{policy_views, Policy, PolicyView};

verus! {

/// `rows` compares `side1` with `side2`: one row for each capability that
/// exactly one side grants, with what each side grants, in strictly ascending
/// order of capability; nothing else.
pub open spec fn is_comparison(rows: Seq<ComparisonEntry>, side1: Set<Capability>, side2: Set<Capability>) -> bool {
    &&& forall|i: int, j: int|
        0 <= i < j < rows.len() ==> capability_lt(#[trigger] rows[i].capability, #[trigger] rows[j].capability)
    &&& forall|i: int|
        0 <= i < rows.len() ==> {
            &&& (#[trigger] rows[i]).side1 == side1.contains(rows[i].capability)
            &&& rows[i].side2 == side2.contains(rows[i].capability)
            &&& rows[i].side1 != rows[i].side2
        }
    &&& forall|c: Capability|
        #![trigger side1.contains(c)]
        #![trigger side2.contains(c)]
        side1.contains(c) != side2.contains(c) ==> exists|i: int| 0 <= i < rows.len() && (#[trigger] rows[i]).capability == c
}

/// A capability that both sides grant, or neither, has no row; one that
/// exactly one side grants has exactly one row, which marks the other side as
/// not granting it.
pub proof fn lemma_diff_correct(
    policies1: Seq<PolicyView>,
    policies2: Seq<PolicyView>,
    rows: Seq<ComparisonEntry>,
    c: Capability,
)
    requires
        is_comparison(rows, capabilities_of(policies1), capabilities_of(policies2)),
    ensures
        capabilities_of(policies1).contains(c) == capabilities_of(policies2).contains(c) ==> forall|i: int|
            0 <= i < rows.len() ==> (#[trigger] rows[i]).capability != c,
        capabilities_of(policies1).contains(c) != capabilities_of(policies2).contains(c) ==> exists|i: int|
            0 <= i < rows.len() && (#[trigger] rows[i]).capability == c && rows[i].side1 == capabilities_of(
                policies1,
            ).contains(c) && rows[i].side2 == capabilities_of(policies2).contains(c) && (forall|j: int|
                0 <= j < rows.len() && (#[trigger] rows[j]).capability == c ==> j == i),
{
    let side1 = capabilities_of(policies1);
    let side2 = capabilities_of(policies2);
    assert forall|i: int, j: int| 0 <= i < rows.len() && 0 <= j < rows.len() && rows[i].capability == c
        && rows[j].capability == c implies i == j by {
        lemma_capability_lt_irreflexive(c);
        if i < j {
            assert(capability_lt(rows[i].capability, rows[j].capability));
        } else if j < i {
            assert(capability_lt(rows[j].capability, rows[i].capability));
        }
    }
    if side1.contains(c) != side2.contains(c) {
        let i = choose|i: int| 0 <= i < rows.len() && (#[trigger] rows[i]).capability == c;
        assert(rows[i].side1 == side1.contains(c));
    } else {
        assert forall|i: int| 0 <= i < rows.len() implies (#[trigger] rows[i]).capability != c by {
            if rows[i].capability == c {
                assert(rows[i].side1 != rows[i].side2);
            }
        }
    }
}

/// The capabilities that exactly one of the two sets of documents grants,
/// each with what each side grants, ordered by resource and then by action.
pub fn compare_policies(policies1: Vec<Policy>, policies2: Vec<Policy>) -> (rows: Vec<CapabilityComparisonRow>)
    ensures
        is_comparison(
            entry_seq(rows@),
            capabilities_of(policy_views(policies1@)),
            capabilities_of(policy_views(policies2@)),
        ),
{
    let ghost side1 = capabilities_of(policy_views(policies1@));
    let ghost side2 = capabilities_of(policy_views(policies2@));
    let capabilities1 = extract_capabilities_from_policies(policies1);
    let capabilities2 = extract_capabilities_from_policies(policies2);
    let ghost s1 = capability_seq(capabilities1@);
    let ghost s2 = capability_seq(capabilities2@);

    let mut all_keys: Vec<CapabilityRow> = Vec::new();
    let mut i: usize = 0;
    while i < capabilities1.len()
        invariant
            s1 == capability_seq(capabilities1@),
            strictly_ascending(s1),
            i <= s1.len(),
            capability_seq(all_keys@) == s1.take(i as int),
        decreases s1.len() - i,
    {
        let ghost before = capability_seq(all_keys@);
        all_keys.push(capabilities1[i].duplicate());
        assert(capability_seq(all_keys@) =~= before.push(s1[i as int]));
        assert(s1.take(i + 1) =~= s1.take(i as int).push(s1[i as int]));
        i = i + 1;
    }
    assert(s1.take(s1.len() as int) =~= s1);
    let mut j: usize = 0;
    while j < capabilities2.len()
        invariant
            s1 == capability_seq(capabilities1@),
            s2 == capability_seq(capabilities2@),
            j <= s2.len(),
            strictly_ascending(capability_seq(all_keys@)),
            forall|c: Capability|
                #[trigger] capability_seq(all_keys@).contains(c) <==> (s1.contains(c) || s2.take(j as int).contains(c)),
        decreases s2.len() - j,
    {
        insert_capability(&mut all_keys, capabilities2[j].duplicate());
        let ghost before = s2.take(j as int);
        let ghost after = s2.take(j + 1);
        assert(after =~= before.push(s2[j as int]));
        assert forall|c: Capability| after.contains(c) <==> (before.contains(c) || c == s2[j as int]) by {
            if after.contains(c) {
                let k = choose|k: int| 0 <= k < after.len() && after[k] == c;
                if k < j {
                    assert(before[k] == c);
                }
            }
            if before.contains(c) {
                let k = choose|k: int| 0 <= k < before.len() && before[k] == c;
                assert(after[k] == c);
            }
            if c == s2[j as int] {
                assert(after[j as int] == c);
            }
        }
        assert forall|c: Capability| capability_seq(all_keys@).contains(c) <==> (s1.contains(c) || after.contains(c)) by {
            assert(after.contains(c) <==> (before.contains(c) || c == s2[j as int]));
        }
        j = j + 1;
    }
    assert(s2.take(s2.len() as int) =~= s2);
    let ghost keys = capability_seq(all_keys@);

    let mut rows: Vec<CapabilityComparisonRow> = Vec::new();
    let ghost mut origin: Seq<int> = Seq::empty();
    let mut k: usize = 0;
    while k < all_keys.len()
        invariant
            s1 == capability_seq(capabilities1@),
            s2 == capability_seq(capabilities2@),
            keys == capability_seq(all_keys@),
            strictly_ascending(keys),
            forall|c: Capability| #[trigger] keys.contains(c) <==> (s1.contains(c) || s2.contains(c)),
            k <= keys.len(),
            origin.len() == rows@.len(),
            forall|p: int|
                0 <= p < origin.len() ==> 0 <= #[trigger] origin[p] < k && entry_seq(rows@)[p].capability
                    == keys[origin[p]],
            forall|p: int, q: int|
                0 <= p < q < rows@.len() ==> capability_lt(
                    #[trigger] entry_seq(rows@)[p].capability,
                    #[trigger] entry_seq(rows@)[q].capability,
                ),
            forall|p: int|
                0 <= p < rows@.len() ==> {
                    &&& (#[trigger] entry_seq(rows@)[p]).side1 == s1.contains(entry_seq(rows@)[p].capability)
                    &&& entry_seq(rows@)[p].side2 == s2.contains(entry_seq(rows@)[p].capability)
                    &&& entry_seq(rows@)[p].side1 != entry_seq(rows@)[p].side2
                },
            forall|m: int|
                0 <= m < k && s1.contains(#[trigger] keys[m]) != s2.contains(keys[m]) ==> exists|p: int|
                    0 <= p < rows@.len() && (#[trigger] entry_seq(rows@)[p]).capability == keys[m],
        decreases keys.len() - k,
    {
        let key = &all_keys[k];
        let has_capability1 = holds_capability(&capabilities1, key);
        let has_capability2 = holds_capability(&capabilities2, key);
        if !(has_capability1 && has_capability2) {
            assert(keys.contains(key@)) by {
                assert(keys[k as int] == key@);
            }
            let ghost before = entry_seq(rows@);
            rows.push(
                CapabilityComparisonRow {
                    resource: key.resource.clone(),
                    action: key.action.clone(),
                    has_capability1,
                    has_capability2,
                },
            );
            proof {
                origin = origin.push(k as int);
            }
            let ghost after = entry_seq(rows@);
            assert(after =~= before.push(after[before.len() as int]));
            assert(after[before.len() as int].capability == keys[k as int]);
            assert forall|p: int, q: int| 0 <= p < q < after.len() implies capability_lt(
                #[trigger] after[p].capability,
                #[trigger] after[q].capability,
            ) by {
                if q == before.len() {
                    assert(after[p] == before[p]);
                    assert(origin[p] < k);
                }
            }
            assert forall|m: int| 0 <= m < k + 1 && s1.contains(#[trigger] keys[m]) != s2.contains(keys[m]) implies exists|p: int|
                0 <= p < after.len() && (#[trigger] after[p]).capability == keys[m] by {
                if m < k {
                    let p = choose|p: int| 0 <= p < before.len() && (#[trigger] before[p]).capability == keys[m];
                    assert(after[p] == before[p]);
                } else {
                    assert(after[before.len() as int].capability == keys[m]);
                }
            }
        } else {
            assert(s1.contains(keys[k as int]) && s2.contains(keys[k as int]));
        }
        k = k + 1;
    }
    assert forall|c: Capability| #![trigger side1.contains(c)] #![trigger side2.contains(c)]
        side1.contains(c) != side2.contains(c) implies exists|p: int|
            0 <= p < rows@.len() && (#[trigger] entry_seq(rows@)[p]).capability == c by {
        assert(side1.contains(c) == s1.contains(c));
        assert(side2.contains(c) == s2.contains(c));
        assert(keys.contains(c));
        let m = choose|m: int| 0 <= m < keys.len() && keys[m] == c;
        assert(s1.contains(keys[m]) != s2.contains(keys[m]));
    }
    rows
}

} // verus!
