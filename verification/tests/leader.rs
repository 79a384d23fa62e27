//! Generations, object aggregation and pull fan-outs.

use kvbm_engine::ids::SequenceHash;
use kvbm_engine::leader::aggregation::{aggregate_object_presence, aggregate_object_results};
use kvbm_engine::leader::dispatch::{PullDispatchError, PullDispatchKind, PullFanOut};
use kvbm_engine::leader::publication::{
    BundlePublicationSequence, PublicationGenerationExhausted,
};

fn sequence_hash(value: u64) -> SequenceHash {
    SequenceHash::new(u128::from(value), value)
}

#[test]
fn sequence_reserves_the_last_generation_then_fails_closed() {
    let mut sequence = BundlePublicationSequence::starting_after(u64::MAX - 1);

    assert_eq!(sequence.reserve(), Ok(u64::MAX));
    assert!(sequence.reserve().is_err());
    assert!(sequence.reserve().is_err());
}

#[test]
fn a_new_sequence_counts_from_one() {
    let mut sequence = BundlePublicationSequence::default();
    assert_eq!(sequence.reserve(), Ok(1));
    assert_eq!(sequence.reserve(), Ok(2));
    let mut exhausted = BundlePublicationSequence::starting_after(u64::MAX);
    assert_eq!(exhausted.reserve(), Err(PublicationGenerationExhausted));
}

#[test]
fn results_use_returned_hashes_across_reordered_partial_failures() {
    let a = sequence_hash(1);
    let b = sequence_hash(2);
    let c = sequence_hash(3);

    let results = aggregate_object_results(
        &[a, b, c],
        vec![vec![Ok(c), Ok(a), Err(b)], vec![Ok(b), Ok(c), Ok(a)]],
    );

    assert_eq!(results, vec![Ok(a), Err(b), Ok(c)]);
}

#[test]
fn results_reject_missing_duplicate_and_unknown_hashes() {
    let a = sequence_hash(1);
    let b = sequence_hash(2);
    let unknown = sequence_hash(9);

    for malformed in [
        vec![Ok(a)],
        vec![Ok(a), Err(a)],
        vec![Ok(a), Ok(b), Ok(unknown)],
    ] {
        assert_eq!(
            aggregate_object_results(&[a, b], vec![malformed]),
            vec![Err(a), Err(b)]
        );
    }
}

#[test]
fn presence_uses_returned_hashes_and_requires_rank_agreement() {
    let a = sequence_hash(1);
    let b = sequence_hash(2);
    let c = sequence_hash(3);

    let results = aggregate_object_presence(
        &[a, b, c],
        vec![
            vec![(c, Some(30)), (a, Some(10)), (b, Some(20))],
            vec![(b, None), (c, Some(30)), (a, Some(10))],
        ],
    );

    assert_eq!(results, vec![(a, Some(10)), (b, None), (c, Some(30))]);
}

#[test]
fn presence_rejects_missing_duplicate_and_unknown_hashes() {
    let a = sequence_hash(1);
    let b = sequence_hash(2);
    let unknown = sequence_hash(9);

    for malformed in [
        vec![(a, Some(10))],
        vec![(a, Some(10)), (a, None)],
        vec![(a, Some(10)), (b, Some(20)), (unknown, Some(90))],
    ] {
        assert_eq!(
            aggregate_object_presence(&[a, b], vec![malformed]),
            vec![(a, None), (b, None)]
        );
    }
}

#[test]
fn a_fan_out_keeps_started_ranks_beside_the_first_failure() {
    let mut fan_out = PullFanOut::new(PullDispatchKind::Strict, 2);
    assert!(fan_out.has_worker(1));
    assert!(!fan_out.has_worker(2));
    fan_out.record(0, true);
    assert_eq!(fan_out.first_failure(), None);
    fan_out.record(1, false);
    fan_out.record(5, true);
    let refused = PullDispatchError::Refused {
        kind: PullDispatchKind::Strict,
        local_rank: 1,
    };
    let unknown = PullDispatchError::UnknownRank {
        kind: PullDispatchKind::Strict,
        local_rank: 5,
        worker_count: 2,
    };
    assert_eq!(fan_out.results(), &[Ok(0), Err(refused), Err(unknown)]);
    assert_eq!(fan_out.first_failure(), Some(refused));
    assert_eq!(PullDispatchKind::Strict.label(), "strict");
    assert_eq!(PullDispatchKind::Replicated.label(), "replicated");
}
