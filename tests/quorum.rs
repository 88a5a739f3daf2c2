use mock_routing::merge::merge_responses;
use mock_routing::merge::Refreshable;
use mock_routing::merge::StructuredData;

const OWNER: u64 = 42;

fn sd(name: u64, version: u64, data: &[u8]) -> StructuredData {
    StructuredData { name, type_tag: 500, version, data: data.to_vec() }
}

fn a() -> StructuredData {
    sd(OWNER, 1, b"a")
}
fn b() -> StructuredData {
    sd(OWNER, 1, b"b")
}
fn c() -> StructuredData {
    sd(OWNER, 2, b"a")
}
fn d() -> StructuredData {
    sd(OWNER, 3, b"d")
}
fn e() -> StructuredData {
    sd(OWNER, 4, b"e")
}

#[test]
fn quorum_reached_by_majority_value() {
    let responses = vec![a(), a(), b(), a(), c()];
    assert_eq!(merge_responses(OWNER, &responses, 5), Some(a()));
}

#[test]
fn quorum_missed_when_all_differ() {
    let responses = vec![a(), b(), c(), d(), e()];
    assert_eq!(merge_responses(OWNER, &responses, 5), None);
}

#[test]
fn tie_goes_to_value_first_reaching_top_count() {
    let responses = vec![b(), a(), b(), a()];
    assert_eq!(merge_responses(OWNER, &responses, 4), Some(b()));
    // The value seen first does not win a tie by that alone.
    let responses = vec![b(), a(), a(), b()];
    assert_eq!(merge_responses(OWNER, &responses, 4), Some(a()));
}

#[test]
fn responses_of_other_groups_are_not_counted() {
    let other = sd(7, 1, b"x");
    let responses = vec![a(), other.duplicate(), a(), other.duplicate(), other.duplicate()];
    assert_eq!(merge_responses(OWNER, &responses, 5), None);
    let responses = vec![a(), other.duplicate(), a(), a()];
    assert_eq!(merge_responses(OWNER, &responses, 5), Some(a()));
    // A value equal in all but its group is a different value.
    let responses = vec![sd(7, 1, b"a"), sd(7, 1, b"a"), sd(7, 1, b"a")];
    assert_eq!(merge_responses(OWNER, &responses, 5), None);
}

#[test]
fn empty_responses_give_no_consensus() {
    assert_eq!(merge_responses(OWNER, &vec![], 5), None);
    assert_eq!(merge_responses(OWNER, &vec![], 0), None);
}

#[test]
fn quorum_is_half_the_group_rounded_up() {
    // groupSize 4 needs 2, groupSize 5 needs 3, groupSize 1 needs 1.
    assert_eq!(merge_responses(OWNER, &vec![a(), a(), b()], 4), Some(a()));
    assert_eq!(merge_responses(OWNER, &vec![a(), a(), b()], 5), None);
    assert_eq!(merge_responses(OWNER, &vec![b()], 1), Some(b()));
    assert_eq!(merge_responses(OWNER, &vec![b()], 2), Some(b()));
    assert_eq!(merge_responses(OWNER, &vec![b()], 3), None);
}

#[test]
fn trait_merge_agrees_with_merge_responses() {
    let responses = vec![c(), a(), c()];
    assert_eq!(StructuredData::merge(OWNER, responses, 3), Some(c()));
    assert_eq!(StructuredData::merge(OWNER, vec![c(), a()], 3), None);
}

#[test]
fn duplicate_and_same_value() {
    let x = sd(OWNER, 9, b"payload");
    let y = x.duplicate();
    assert_eq!(x, y);
    assert!(x.same_value(&y));
    assert!(!x.same_value(&a()));
}
