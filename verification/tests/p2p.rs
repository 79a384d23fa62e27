//! Checksums, staging, attached pulls and parked sessions.

use kvbm_engine::ids::{LogicalResourceId, SequenceHash, SessionId};
use kvbm_engine::message::MessagePart;
use kvbm_engine::ordered::{KeyMap, KeySet};
use kvbm_engine::p2p::attached::{AttachedAction, AttachedEvent, AttachedPull};
use kvbm_engine::p2p::integrity::{
    bind_payload_checksum, bound_message, digest_request, payload_checksums, ChecksumPlacement,
    IntegrityError, ParallelismMode, PayloadBlock, PayloadChecksum, PayloadDigest,
};
use kvbm_engine::p2p::session::{
    resolve_g2_manager, stage_from_session, SessionEnd, SessionError, SessionHandle,
    SessionManager, WatchAction, WatchEvent,
};
use kvbm_engine::p2p::staging::{
    order_selected, prepare_payload_verification, select_hashes, source_ordinals,
    verify_payloads, CommittedBlock, CommittedHashes, StagingError, VerifiedCommittedBlock,
};
use kvbm_engine::time::Duration;

fn block(hash: u64, ordinal: u32) -> PayloadBlock {
    PayloadBlock {
        hash: SequenceHash::new(u128::from(hash), u64::from(ordinal)),
        block_id: 9,
        ordinal,
    }
}

fn digest(byte: u8) -> PayloadDigest {
    PayloadDigest::from_bytes([byte; 32])
}

/// Shows a message as its reader sees it.
fn shown(parts: &[MessagePart], cause: &str) -> String {
    parts
        .iter()
        .map(|part| match part {
            MessagePart::Text(text) => (*text).to_owned(),
            MessagePart::Number(number) => format!("{number}"),
            MessagePart::Resource(resource) => format!("{resource:?}"),
            MessagePart::Hash(hash) => format!("{hash:?}"),
            MessagePart::Cause => cause.to_owned(),
        })
        .collect()
}

#[test]
fn checksum_binds_resource_identity_order_and_rank_order() {
    let a = digest(1);
    let b = digest(2);
    let bind = |resource, block, digests: &[(usize, PayloadDigest)]| {
        PayloadChecksum::bind(
            resource,
            block,
            ChecksumPlacement::TensorSharded { world_size: 2 },
            digests,
        )
        .unwrap()
    };
    let baseline = bind(LogicalResourceId(3), block(7, 0), &[(0, a), (1, b)]);
    assert_ne!(
        baseline,
        bind(LogicalResourceId(4), block(7, 0), &[(0, a), (1, b)])
    );
    assert_ne!(
        baseline,
        bind(LogicalResourceId(3), block(8, 0), &[(0, a), (1, b)])
    );
    assert_ne!(
        baseline,
        bind(LogicalResourceId(3), block(7, 1), &[(0, a), (1, b)])
    );
    assert_ne!(
        baseline,
        bind(LogicalResourceId(3), block(7, 0), &[(0, b), (1, a)])
    );
}

#[test]
fn replicated_checksum_is_independent_of_owner_rank() {
    let digest = PayloadDigest::from_bytes([5; 32]);
    let block = block(7, 2);
    let left = PayloadChecksum::bind(
        LogicalResourceId(3),
        block,
        ChecksumPlacement::ReplicatedOwner,
        &[(0, digest)],
    )
    .unwrap();
    let right = PayloadChecksum::bind(
        LogicalResourceId(3),
        block,
        ChecksumPlacement::ReplicatedOwner,
        &[(7, digest)],
    )
    .unwrap();
    assert_eq!(left, right);
}

#[test]
fn a_checksum_is_the_hash_of_the_bound_message() {
    let placement = ChecksumPlacement::TensorSharded { world_size: 2 };
    let digests = [(0, digest(1)), (1, digest(2))];
    let resource = LogicalResourceId(3);
    let message = bound_message(resource, block(7, 4), placement, &digests).unwrap();
    let checksum = PayloadChecksum::bind(resource, block(7, 4), placement, &digests).unwrap();
    assert_eq!(
        checksum,
        PayloadChecksum::from_test_bytes(*blake3::hash(&message).as_bytes())
    );
    assert!(message.windows(32).any(|window| window == [1u8; 32]));
    assert!(message.ends_with(&[2u8; 32]));
    assert!(checksum.same_as(&checksum));
    assert_eq!(
        bind_payload_checksum(
            resource,
            block(7, 4),
            placement,
            vec![(1, digest(2)), (0, digest(1))]
        ),
        Ok(checksum)
    );
}

#[test]
fn checksums_refuse_digests_that_do_not_fit_the_placement() {
    let resource = LogicalResourceId(3);
    let bind = |placement, digests: &[(usize, PayloadDigest)]| {
        PayloadChecksum::bind(resource, block(7, 0), placement, digests).unwrap_err()
    };
    assert_eq!(
        bind(ChecksumPlacement::ReplicatedOwner, &[]),
        IntegrityError::NoDigests
    );
    assert_eq!(
        bind(
            ChecksumPlacement::ReplicatedOwner,
            &[(0, digest(1)), (1, digest(1))]
        ),
        IntegrityError::OwnerDigestCount { digests: 2 }
    );
    assert_eq!(
        bind(
            ChecksumPlacement::TensorSharded { world_size: 2 },
            &[(0, digest(1))]
        ),
        IntegrityError::RankDigestCount {
            world_size: 2,
            digests: 1,
        }
    );
}

#[test]
fn sharded_checksums_collect_one_digest_of_each_rank() {
    let resource = LogicalResourceId(3);
    let blocks = [block(7, 0), block(8, 1)];
    assert_eq!(
        digest_request(ParallelismMode::TensorParallel, &blocks, &[], 1),
        vec![(0, 9), (1, 9)]
    );
    let checksums = payload_checksums(
        resource,
        &blocks,
        ParallelismMode::TensorParallel,
        2,
        &[],
        &[
            Some(vec![digest(1), digest(2)]),
            Some(vec![digest(3), digest(4)]),
        ],
    )
    .unwrap();
    assert_eq!(
        checksums[1],
        PayloadChecksum::bind(
            resource,
            blocks[1],
            ChecksumPlacement::TensorSharded { world_size: 2 },
            &[(0, digest(2)), (1, digest(4))],
        )
        .unwrap()
    );
    assert_eq!(
        payload_checksums(
            resource,
            &blocks,
            ParallelismMode::TensorParallel,
            0,
            &[],
            &[]
        ),
        Err(IntegrityError::NoWorkers)
    );
    assert_eq!(
        payload_checksums(
            resource,
            &blocks,
            ParallelismMode::TensorParallel,
            2,
            &[],
            &[Some(vec![digest(1), digest(2)]), None],
        ),
        Err(IntegrityError::WorkerFailed { rank: 1 })
    );
    assert_eq!(
        payload_checksums(
            resource,
            &blocks,
            ParallelismMode::TensorParallel,
            1,
            &[],
            &[Some(vec![digest(1)])],
        ),
        Err(IntegrityError::WorkerDigestCount {
            rank: 0,
            returned: 1,
            requested: 2,
        })
    );
}

#[test]
fn advertised_payload_ordinal_must_match_source_commit_position() {
    let hash = SequenceHash::new(11, 0);
    let expected = [VerifiedCommittedBlock {
        block: CommittedBlock {
            hash,
            peer_block_id: 0,
        },
        ordinal: 1,
        checksum: PayloadChecksum::from_test_bytes([3; 32]),
    }];
    let ordinals = KeyMap::collect(vec![(hash, 0)]);

    let error = prepare_payload_verification(&ordinals, &expected, &[0])
        .expect_err("wrong advertised order must fail before checksum comparison");
    assert!(shown(&error.message(LogicalResourceId(7)), "")
        .contains("payload_checksum_order_mismatch"));
    assert_eq!(
        error,
        StagingError::OrderMismatch {
            hash,
            advertised: 1,
            expected: 0,
        }
    );
}

fn hashes() -> (SequenceHash, SequenceHash, SequenceHash) {
    (
        SequenceHash::new(1, 0),
        SequenceHash::new(2, 1),
        SequenceHash::new(3, 2),
    )
}

#[test]
fn selector_none_preserves_committed_stream_order() {
    let (first, second, _) = hashes();
    assert_eq!(
        select_hashes(vec![second, first], None).unwrap(),
        vec![second, first]
    );
}

#[test]
fn selector_subset_keeps_source_commit_ordinal() {
    let (first, second, third) = hashes();

    let ordinals = source_ordinals(&[first, second, third]).unwrap();

    assert_eq!(ordinals.get(&third), Some(&2));
}

#[test]
fn reordered_selector_orders_results_without_rewriting_source_ordinals() {
    let (first, second, third) = hashes();
    let selector = vec![third, first];
    let ordinals = source_ordinals(&[first, second, third]).unwrap();

    let ordered = order_selected(&selector, vec![(first, "first"), (third, "third")]).unwrap();

    assert_eq!(ordered, vec!["third", "first"]);
    assert_eq!(ordinals.get(&third), Some(&2));
    assert_eq!(ordinals.get(&first), Some(&0));
}

#[test]
fn selectors_name_committed_hashes_and_results_the_selected_ones() {
    let (first, second, third) = hashes();
    assert_eq!(
        select_hashes(vec![first], Some(vec![second, first, third])),
        Err(StagingError::HashesNotCommitted { missing: 2 })
    );
    assert_eq!(
        order_selected(&[first, second], vec![(first, 1)]),
        Err(StagingError::MissingDestination { hash: second })
    );
    assert_eq!(
        order_selected(&[first], vec![(first, 1), (second, 2)]),
        Err(StagingError::OutsideSelector { blocks: 1 })
    );
    let mut committed = CommittedHashes::new();
    committed.add(&[second, first]);
    committed.add(&[first, third]);
    assert_eq!(committed.into_hashes(), vec![second, first, third]);
}

fn record(hash: SequenceHash, ordinal: u32, byte: u8) -> VerifiedCommittedBlock {
    VerifiedCommittedBlock {
        block: CommittedBlock {
            hash,
            peer_block_id: 4,
        },
        ordinal,
        checksum: PayloadChecksum::from_test_bytes([byte; 32]),
    }
}

#[test]
fn payloads_with_other_checksums_are_refused() {
    let (first, second, _) = hashes();
    let expected = [record(first, 0, 1), record(second, 1, 2)];
    let actual = |byte| {
        [
            PayloadChecksum::from_test_bytes([1; 32]),
            PayloadChecksum::from_test_bytes([byte; 32]),
        ]
    };
    assert_eq!(verify_payloads(&expected, &actual(2)), Ok(()));
    assert_eq!(
        verify_payloads(&expected, &actual(3)),
        Err(StagingError::ChecksumMismatch { hash: second })
    );
    assert_eq!(
        verify_payloads(&expected, &actual(2)[..1]),
        Err(StagingError::ChecksumUnavailable)
    );
}

#[test]
fn an_attached_pull_stages_in_selector_order() {
    let (first, second, third) = hashes();
    let (mut pull, action) = AttachedPull::new(
        vec![first, second, third],
        Some(vec![third, first]),
        true,
    )
    .unwrap();
    assert!(matches!(action, AttachedAction::Next));
    assert_eq!(pull.targets(), &[third, first]);
    let action = pull.step(AttachedEvent::Verified(vec![
        record(first, 0, 1),
        record(second, 1, 2),
        record(third, 2, 3),
    ]));
    assert!(matches!(action, AttachedAction::Pull(asked) if asked == vec![first, third]));
    let action = pull.step(AttachedEvent::Filled(vec![20, 21]));
    let AttachedAction::Checksum(blocks) = action else {
        panic!("filled blocks are checksummed")
    };
    assert_eq!(blocks[1].ordinal, 2);
    assert_eq!(blocks[1].block_id, 21);
    let action = pull.step(AttachedEvent::Checksums(vec![
        PayloadChecksum::from_test_bytes([1; 32]),
        PayloadChecksum::from_test_bytes([3; 32]),
    ]));
    let AttachedAction::Stage { hashes, filled } = action else {
        panic!("verified blocks are staged")
    };
    assert_eq!(hashes, vec![first, third]);
    assert_eq!(filled, vec![20, 21]);
    let action = pull.step(AttachedEvent::Staged);
    assert!(matches!(
        action,
        AttachedAction::Finish { blocks, host_blocks: 2 } if blocks == vec![21, 20]
    ));
}

#[test]
fn an_attached_pull_refuses_unverified_short_and_corrupt_offers() {
    let (first, second, _) = hashes();
    let start = |integrity| {
        AttachedPull::new(vec![first, second], None, integrity)
            .unwrap()
            .0
    };
    let plain = |hash| CommittedBlock {
        hash,
        peer_block_id: 4,
    };
    assert!(matches!(
        start(true).step(AttachedEvent::Available(vec![plain(first)])),
        AttachedAction::Fail(StagingError::Unverified)
    ));
    let mut short = start(false);
    short.step(AttachedEvent::Available(vec![plain(first)]));
    assert!(matches!(
        short.step(AttachedEvent::Filled(vec![7])),
        AttachedAction::Stage { .. }
    ));
    assert!(matches!(
        short.step(AttachedEvent::Staged),
        AttachedAction::Next
    ));
    assert!(matches!(
        short.step(AttachedEvent::Drained),
        AttachedAction::Fail(StagingError::Drained {
            pulled: 1,
            wanted: 2
        })
    ));
    let mut corrupt = start(true);
    corrupt.step(AttachedEvent::Verified(vec![
        record(first, 0, 1),
        record(second, 1, 2),
    ]));
    corrupt.step(AttachedEvent::Filled(vec![7, 8]));
    assert!(matches!(
        corrupt.step(AttachedEvent::Checksums(vec![
            PayloadChecksum::from_test_bytes([1; 32]),
            PayloadChecksum::from_test_bytes([9; 32]),
        ])),
        AttachedAction::Fail(StagingError::ChecksumMismatch { hash }) if hash == second
    ));
    let mut unstaged = start(false);
    unstaged.step(AttachedEvent::Available(vec![plain(first)]));
    unstaged.step(AttachedEvent::Filled(vec![7]));
    assert!(matches!(
        unstaged.step(AttachedEvent::StageFailed),
        AttachedAction::Fail(StagingError::StageFailed)
    ));
    let mut uncounted = start(true);
    uncounted.step(AttachedEvent::Verified(vec![
        record(first, 0, 1),
        record(second, 1, 2),
    ]));
    uncounted.step(AttachedEvent::Filled(vec![7, 8]));
    assert!(matches!(
        uncounted.step(AttachedEvent::Checksums(vec![
            PayloadChecksum::from_test_bytes([1; 32])
        ])),
        AttachedAction::Fail(StagingError::ChecksumUnavailable)
    ));
    let mut refused = start(false);
    refused.step(AttachedEvent::Available(vec![plain(first), plain(second)]));
    assert!(matches!(
        refused.step(AttachedEvent::AllocationFailed),
        AttachedAction::Fail(StagingError::AllocationFailed { blocks: 2 })
    ));
}

#[test]
fn parked_sessions_are_found_until_they_are_removed() {
    let mut manager = SessionManager::with_default_watchdog();
    assert!(manager.is_empty());
    let watch = manager.register(SessionId(1), SessionHandle(10));
    assert_eq!(watch.watchdog(), Duration::from_secs(30));
    assert_eq!(watch.session_id(), SessionId(1));
    let watch = manager.register_with_watchdog(
        SessionId(2),
        SessionHandle(20),
        Duration::from_secs(90),
    );
    assert_eq!(watch.watchdog(), Duration::from_secs(30));
    let watch =
        manager.register_with_watchdog(SessionId(2), SessionHandle(21), Duration::from_nanos(0));
    assert_eq!(watch.watchdog(), Duration::from_millis(1));
    assert_eq!(manager.len(), 2);
    assert!(!manager.is_empty());
    assert_eq!(manager.get(&SessionId(1)), Some(SessionHandle(10)));
    assert_eq!(manager.get(&SessionId(2)), Some(SessionHandle(21)));
    assert_eq!(manager.remove(&SessionId(2)), Some(SessionHandle(21)));
    assert_eq!(manager.get(&SessionId(2)), None);
    assert_eq!(manager.remove(&SessionId(2)), None);
    assert_eq!(manager.len(), 1);
}

#[test]
fn a_closed_session_is_evicted_once_its_pulls_are_done() {
    let mut manager = SessionManager::new(Duration::from_secs(1));
    let mut watch = manager.register(SessionId(1), SessionHandle(10));
    assert_eq!(watch.step(WatchEvent::Attached), WatchAction::Wait);
    assert_eq!(
        watch.step(WatchEvent::WatchdogTimeout),
        WatchAction::Close(SessionEnd::WatchdogTimeout)
    );
    assert_eq!(
        watch.step(WatchEvent::Pulls { inflight: true }),
        WatchAction::Sleep
    );
    assert_eq!(
        watch.step(WatchEvent::Pulls { inflight: false }),
        WatchAction::Evict(SessionEnd::WatchdogTimeout)
    );
    assert_eq!(watch.step(WatchEvent::Attached), WatchAction::Ignore);
    assert_eq!(
        shown(&SessionEnd::WatchdogTimeout.message(), ""),
        "session watchdog timeout"
    );
}

#[test]
fn staging_resolves_the_resource_before_it_needs_an_endpoint() {
    let primary = LogicalResourceId(1);
    let other = LogicalResourceId(2);
    let served = KeySet::from_keys(&[primary]).0;
    assert_eq!(resolve_g2_manager(None, primary, &served), Ok(primary));
    assert_eq!(
        resolve_g2_manager(Some(other), primary, &served),
        Err(SessionError::ResourceNotFound { resource: other })
    );
    assert_eq!(
        stage_from_session(None, primary, &served, false, true),
        Err(SessionError::EndpointRequired)
    );
    assert_eq!(
        stage_from_session(None, primary, &served, true, false),
        Err(SessionError::NotInitialized)
    );
    assert_eq!(
        stage_from_session(Some(primary), primary, &served, true, true),
        Ok(primary)
    );
}
