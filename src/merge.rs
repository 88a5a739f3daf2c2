use vstd::prelude::*;
use crate::event::bytes_equal;
use crate::event::copy_bytes;

verus! {

/// A versioned record of the network, owned by the group whose name it bears.
#[derive(Debug, PartialEq, Eq)]
pub struct StructuredData {
    /// Name of the group that owns this record.
    pub name: u64,
    pub type_tag: u64,
    pub version: u64,
    pub data: Vec<u8>,
}

/// Mathematical value of a `StructuredData`.
pub ghost struct StructuredDataView {
    pub name: u64,
    pub type_tag: u64,
    pub version: u64,
    pub data: Seq<u8>,
}

impl View for StructuredData {
    type V = StructuredDataView;

    open spec fn view(&self) -> StructuredDataView {
        StructuredDataView {
            name: self.name,
            type_tag: self.type_tag,
            version: self.version,
            data: self.data@,
        }
    }
}

impl StructuredData {
    /// Whether two records hold the same value.
    pub fn same_value(&self, other: &StructuredData) -> (r: bool)
        ensures
            r == (self@ == other@),
    {
        self.name == other.name && self.type_tag == other.type_tag && self.version
            == other.version && bytes_equal(&self.data, &other.data)
    }

    /// An independent copy of this record.
    pub fn duplicate(&self) -> (r: StructuredData)
        ensures
            r@ == self@,
    {
        StructuredData {
            name: self.name,
            type_tag: self.type_tag,
            version: self.version,
            data: copy_bytes(&self.data),
        }
    }
}

/// The views of a sequence of records, in order.
pub open spec fn records_view(s: Seq<StructuredData>) -> Seq<StructuredDataView> {
    s.map_values(|d: StructuredData| d@)
}

/// The records of `s` that belong to `owner`, in their order in `s`.
pub open spec fn owned_by(s: Seq<StructuredDataView>, owner: u64) -> Seq<StructuredDataView>
    decreases s.len(),
{
    if s.len() == 0 {
        Seq::empty()
    } else if s.last().name == owner {
        owned_by(s.drop_last(), owner).push(s.last())
    } else {
        owned_by(s.drop_last(), owner)
    }
}

/// How many times `v` occurs in `s`.
pub open spec fn count_in(s: Seq<StructuredDataView>, v: StructuredDataView) -> nat
    decreases s.len(),
{
    if s.len() == 0 {
        0
    } else {
        count_in(s.drop_last(), v) + if s.last() == v {
            1nat
        } else {
            0nat
        }
    }
}

/// The value that leads a scan of `s` in order, with its count: the value
/// whose count, counted from the start, first reached the largest count of
/// any value. `None` with count 0 for an empty sequence.
pub open spec fn leader(s: Seq<StructuredDataView>) -> (Option<StructuredDataView>, nat)
    decreases s.len(),
{
    if s.len() == 0 {
        (None, 0)
    } else {
        let before = leader(s.drop_last());
        let c = count_in(s, s.last());
        if c > before.1 {
            (Some(s.last()), c)
        } else {
            before
        }
    }
}

/// The least count of equal responses that a group of `group_size` members
/// accepts: half of the group, rounded up.
pub open spec fn quorum(group_size: u64) -> nat {
    ((group_size as nat + 1) / 2) as nat
}

/// The value that the responses for `owner` agree on, if any: the leader of
/// the responses that belong to `owner`, when there is at least one and the
/// leader's count reaches the quorum of `group_size`.
pub open spec fn merge_spec(owner: u64, s: Seq<StructuredDataView>, group_size: u64) -> Option<
    StructuredDataView,
> {
    let f = owned_by(s, owner);
    if f.len() > 0 && leader(f).1 >= quorum(group_size) {
        leader(f).0
    } else {
        None
    }
}

proof fn lemma_count_positive_means_present(s: Seq<StructuredDataView>, v: StructuredDataView)
    requires
        count_in(s, v) > 0,
    ensures
        exists|j: int| 0 <= j < s.len() && s[j] == v,
    decreases s.len(),
{
    if s.last() != v {
        lemma_count_positive_means_present(s.drop_last(), v);
        let j = choose|j: int| 0 <= j < s.drop_last().len() && s.drop_last()[j] == v;
        assert(s[j] == v);
    } else {
        assert(s[s.len() - 1] == v);
    }
}

proof fn lemma_owned_by_len(s: Seq<StructuredDataView>, owner: u64)
    ensures
        owned_by(s, owner).len() <= s.len(),
    decreases s.len(),
{
    if s.len() > 0 {
        lemma_owned_by_len(s.drop_last(), owner);
    }
}

proof fn lemma_count_le_len(s: Seq<StructuredDataView>, v: StructuredDataView)
    ensures
        count_in(s, v) <= s.len(),
    decreases s.len(),
{
    if s.len() > 0 {
        lemma_count_le_len(s.drop_last(), v);
    }
}

proof fn lemma_owned_by_concat(a: Seq<StructuredDataView>, b: Seq<StructuredDataView>, owner: u64)
    ensures
        owned_by(a + b, owner) == owned_by(a, owner) + owned_by(b, owner),
    decreases b.len(),
{
    if b.len() == 0 {
        assert(a + b =~= a);
        assert(owned_by(a, owner) + owned_by(b, owner) =~= owned_by(a, owner));
    } else {
        assert((a + b).drop_last() =~= a + b.drop_last());
        lemma_owned_by_concat(a, b.drop_last(), owner);
        if b.last().name == owner {
            assert(owned_by(a, owner) + owned_by(b, owner) =~= (owned_by(a, owner) + owned_by(
                b.drop_last(),
                owner,
            )).push(b.last()));
        }
    }
}

proof fn lemma_leader_is_plurality(s: Seq<StructuredDataView>)
    ensures
        s.len() == 0 ==> leader(s).0 is None && leader(s).1 == 0,
        s.len() > 0 ==> leader(s).0 is Some && leader(s).1 > 0 && count_in(s, leader(s).0->0)
            == leader(s).1,
        forall|w: StructuredDataView| #[trigger] count_in(s, w) <= leader(s).1,
    decreases s.len(),
{
    if s.len() > 0 {
        let p = s.drop_last();
        lemma_leader_is_plurality(p);
        assert forall|w: StructuredDataView| #[trigger] count_in(s, w) <= leader(s).1 by {
            assert(count_in(p, w) <= leader(p).1);
        }
        if p.len() > 0 {
            assert(count_in(p, leader(p).0->0) == leader(p).1);
        }
    }
}

/// Responses that belong to another group change nothing: inserting one
/// anywhere among the responses leaves the merged result as it was, since it
/// is neither counted nor part of the quorum.
pub proof fn lemma_merge_ignores_other_groups(
    owner: u64,
    before: Seq<StructuredDataView>,
    after: Seq<StructuredDataView>,
    other: StructuredDataView,
    group_size: u64,
)
    requires
        other.name != owner,
    ensures
        merge_spec(owner, before + seq![other] + after, group_size) == merge_spec(
            owner,
            before + after,
            group_size,
        ),
{
    lemma_owned_by_concat(before + seq![other], after, owner);
    lemma_owned_by_concat(before, seq![other], owner);
    lemma_owned_by_concat(before, after, owner);
    assert(seq![other].drop_last() =~= Seq::<StructuredDataView>::empty());
    assert(seq![other].last() == other);
    assert(owned_by(Seq::<StructuredDataView>::empty(), owner) =~= Seq::<StructuredDataView>::empty());
    assert(owned_by(seq![other], owner) =~= Seq::<StructuredDataView>::empty());
    assert(owned_by(before, owner) + Seq::<StructuredDataView>::empty() =~= owned_by(before, owner));
}

/// A merged value belongs to the group, occurs among its responses at least
/// as often as any other value, and reaches the quorum; and a value is
/// merged exactly when some response of the group occurs often enough to
/// reach the quorum.
pub proof fn lemma_merge_is_quorum_plurality(
    owner: u64,
    responses: Seq<StructuredDataView>,
    group_size: u64,
)
    ensures
        merge_spec(owner, responses, group_size) is Some <==> exists|v: StructuredDataView|
            #![trigger count_in(owned_by(responses, owner), v)]
            count_in(owned_by(responses, owner), v) > 0 && count_in(owned_by(responses, owner), v)
                >= quorum(group_size),
        merge_spec(owner, responses, group_size) is Some ==> {
            let v = merge_spec(owner, responses, group_size)->0;
            &&& v.name == owner
            &&& count_in(owned_by(responses, owner), v) >= quorum(group_size)
            &&& forall|w: StructuredDataView|
                #[trigger] count_in(owned_by(responses, owner), w) <= count_in(
                    owned_by(responses, owner),
                    v,
                )
        },
{
    let f = owned_by(responses, owner);
    lemma_leader_is_plurality(f);
    lemma_owned_by_names(responses, owner);
    if f.len() > 0 {
        let v = leader(f).0->0;
        assert(count_in(f, v) == leader(f).1);
        if leader(f).1 >= quorum(group_size) {
            lemma_count_positive_means_present(f, v);
        }
    }
    if exists|v: StructuredDataView|
        #![trigger count_in(f, v)]
        count_in(f, v) > 0 && count_in(f, v) >= quorum(group_size) {
        let v = choose|v: StructuredDataView|
            #![trigger count_in(f, v)]
            count_in(f, v) > 0 && count_in(f, v) >= quorum(group_size);
        lemma_count_positive_means_present(f, v);
        assert(count_in(f, v) <= leader(f).1);
    }
}

proof fn lemma_owned_by_names(s: Seq<StructuredDataView>, owner: u64)
    ensures
        forall|j: int| 0 <= j < owned_by(s, owner).len() ==> (#[trigger] owned_by(s, owner)[j]).name == owner,
    decreases s.len(),
{
    if s.len() > 0 {
        lemma_owned_by_names(s.drop_last(), owner);
        let p = owned_by(s.drop_last(), owner);
        if s.last().name == owner {
            assert forall|j: int| 0 <= j < owned_by(s, owner).len() implies (#[trigger] owned_by(
                s,
                owner,
            )[j]).name == owner by {
                if j < p.len() {
                    assert(owned_by(s, owner)[j] == p[j]);
                }
            }
        }
    }
}

/// A value merged for a group of `group_size` members is also merged, and
/// is the same value, for any smaller group: the winner does not depend on
/// the group size, and a smaller group asks for no larger a quorum.
pub proof fn lemma_merge_smaller_group_keeps_result(
    owner: u64,
    responses: Seq<StructuredDataView>,
    group_size: u64,
    smaller: u64,
)
    requires
        merge_spec(owner, responses, group_size) is Some,
        smaller <= group_size,
    ensures
        merge_spec(owner, responses, smaller) == merge_spec(owner, responses, group_size),
{
    assert(quorum(smaller) <= quorum(group_size));
}

/// Merges the responses gathered for the group `owner` during one churn
/// round, for a group of `group_size` members.
///
/// Responses that belong to another group are left out. Among the rest, equal
/// values are counted; the value whose count first reaches the largest count,
/// scanning in order, is returned if that count is at least half of
/// `group_size`, rounded up. With no response for `owner` there is no result.
pub fn merge_responses(owner: u64, responses: &Vec<StructuredData>, group_size: u64) -> (r: Option<
    StructuredData,
>)
    ensures
        match r {
            Some(d) => merge_spec(owner, records_view(responses@), group_size) == Some(d@),
            None => merge_spec(owner, records_view(responses@), group_size) is None,
        },
{
    let ghost vs = records_view(responses@);
    // Each entry: the index in `responses` of a value first seen there, and its count.
    let mut tally: Vec<(usize, usize)> = Vec::new();
    let mut best: Option<usize> = None;
    let mut best_count: usize = 0;
    let mut i: usize = 0;
    proof {
        assert forall|j: int| 0 <= j < responses@.len() implies vs[j] == (#[trigger] responses@[j])@ by {}
    }
    while i < responses.len()
        invariant
            vs == records_view(responses@),
            vs.len() == responses@.len(),
            forall|j: int| 0 <= j < responses@.len() ==> vs[j] == (#[trigger] responses@[j])@,
            i <= responses@.len(),
            forall|k: int|
                0 <= k < tally@.len() ==> {
                    &&& (#[trigger] tally@[k]).0 < i
                    &&& vs[tally@[k].0 as int].name == owner
                    &&& tally@[k].1 == count_in(owned_by(vs.take(i as int), owner), vs[tally@[k].0 as int])
                },
            forall|k1: int, k2: int|
                0 <= k1 < tally@.len() && 0 <= k2 < tally@.len() && k1 != k2 ==>
                    vs[(#[trigger] tally@[k1]).0 as int] != vs[(#[trigger] tally@[k2]).0 as int],
            forall|v: StructuredDataView|
                #[trigger] count_in(owned_by(vs.take(i as int), owner), v) > 0 ==>
                    exists|k: int| 0 <= k < tally@.len() && vs[(#[trigger] tally@[k]).0 as int] == v,
            best_count == leader(owned_by(vs.take(i as int), owner)).1,
            match best {
                Some(b) => b < i && leader(owned_by(vs.take(i as int), owner)).0 == Some(vs[b as int]),
                None => leader(owned_by(vs.take(i as int), owner)).0 is None && best_count == 0,
            },
        decreases responses@.len() - i,
    {
        let ghost before = owned_by(vs.take(i as int), owner);
        let ghost after = owned_by(vs.take(i + 1), owner);
        proof {
            assert(vs.take(i + 1).drop_last() =~= vs.take(i as int));
            assert(vs.take(i + 1).last() == vs[i as int]);
            lemma_owned_by_len(vs.take(i as int), owner);
        }
        let response = &responses[i];
        if response.name == owner {
            assert(after == before.push(vs[i as int]));
            assert(after.drop_last() =~= before);
            let mut k: usize = 0;
            let mut found: bool = false;
            assert(response@ == vs[i as int]);
            while k < tally.len() && !found
                invariant
                    !found ==> forall|m: int| 0 <= m < k ==> vs[(#[trigger] tally@[m]).0 as int] != vs[i as int],
                    found ==> k < tally@.len() && vs[tally@[k as int].0 as int] == vs[i as int],
                    k <= tally@.len(),
                    vs == records_view(responses@),
                    forall|j: int| 0 <= j < responses@.len() ==> vs[j] == (#[trigger] responses@[j])@,
                    i < responses@.len(),
                    response@ == vs[i as int],
                    forall|m: int| 0 <= m < tally@.len() ==> (#[trigger] tally@[m]).0 < i,
                decreases tally@.len() - k + if found { 0int } else { 1int },
            {
                if responses[tally[k].0].same_value(response) {
                    found = true;
                } else {
                    k = k + 1;
                }
            }
            let ghost old_tally = tally@;
            let count: usize;
            if found {
                proof {
                    lemma_count_le_len(before, vs[i as int]);
                }
                count = tally[k].1 + 1;
                let first = tally[k].0;
                tally.set(k, (first, count));
            } else {
                proof {
                    if count_in(before, vs[i as int]) > 0 {
                        let m = choose|m: int| 0 <= m < old_tally.len() && vs[(#[trigger] old_tally[m]).0 as int] == vs[i as int];
                        assert(vs[old_tally[m].0 as int] != vs[i as int]);
                    }
                }
                count = 1;
                tally.push((i, 1));
            }
            proof {
                assert(count == count_in(after, vs[i as int]));
                assert forall|v: StructuredDataView| v != vs[i as int] implies
                    count_in(after, v) == count_in(before, v) by {}
                assert forall|m: int| 0 <= m < tally@.len() implies
                    (#[trigger] tally@[m]).1 == count_in(after, vs[tally@[m].0 as int]) by {
                    if m < old_tally.len() && (!found || m != k) {
                        assert(tally@[m] == old_tally[m]);
                        if found {
                            assert(vs[old_tally[m].0 as int] != vs[old_tally[k as int].0 as int]);
                        }
                        assert(vs[old_tally[m].0 as int] != vs[i as int]);
                    }
                }
                assert forall|v: StructuredDataView|
                    #[trigger] count_in(after, v) > 0 implies
                    exists|m: int| 0 <= m < tally@.len() && vs[(#[trigger] tally@[m]).0 as int] == v by {
                    if v == vs[i as int] {
                        if found {
                            assert(vs[tally@[k as int].0 as int] == v);
                        } else {
                            assert(vs[tally@[old_tally.len() as int].0 as int] == v);
                        }
                    } else {
                        let m = choose|m: int| 0 <= m < old_tally.len() && vs[(#[trigger] old_tally[m]).0 as int] == v;
                        assert(vs[tally@[m].0 as int] == v);
                    }
                }
            }
            if count > best_count {
                best = Some(i);
                best_count = count;
            }
        } else {
            assert(after == before);
        }
        i = i + 1;
    }
    proof {
        assert(vs.take(i as int) =~= vs);
    }
    match best {
        Some(b) => {
            if best_count as u64 >= (group_size / 2) + (group_size % 2) {
                Some(responses[b].duplicate())
            } else {
                None
            }
        },
        None => None,
    }
}

/// State that is refreshed on churn: copies gathered from the members of a
/// group can be merged into one accepted value.
pub trait Refreshable: Sized {
    /// Merges the copies gathered for the group `from_group`, of
    /// `group_size` members, into the value they agree on, if any.
    fn merge(from_group: u64, responses: Vec<Self>, group_size: u64) -> Option<Self>;
}

impl Refreshable for StructuredData {
    fn merge(from_group: u64, responses: Vec<StructuredData>, group_size: u64) -> (r: Option<
        StructuredData,
    >)
        ensures
            match r {
                Some(d) => merge_spec(from_group, records_view(responses@), group_size) == Some(d@),
                None => merge_spec(from_group, records_view(responses@), group_size) is None,
            },
    {
        merge_responses(from_group, &responses, group_size)
    }
}

} // verus!
