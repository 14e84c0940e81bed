//! The consensus components around the ledger: buckets, elections,
//! the vote cache, the confirming set, the solicitor, the processor
//! queue and the bootstrap session.

use rsnode::bootstrap::{
    BootstrapAttempt, BootstrapAttemptLegacy, BootstrapMode, LegacyBootstrapConfig, PullInfo,
};
use rsnode::cementing::ConfirmingSet;
use rsnode::election::{
    CachedVote, Election, ElectionBehavior, ElectionState, VoteCache, VoteResult, FINAL_TIMESTAMP,
};
use rsnode::messages::HASHES_MAX;
use rsnode::numbers::{Account, Amount, BlockHash};
use rsnode::processor::{
    received_type_action, throttle_action, BlockProcessor, BlockSource, ReceivedTypeAction,
    ThrottleAction,
};
use rsnode::scheduler::{Buckets, PriorityScheduler};
use rsnode::solicitor::{ConfirmationSolicitor, PeeredRep};
use rsnode::stats::{DetailType, Direction, Stats, StatType};
use rsnode::voting::{ElectionStatus, RecentlyCementedCache};

fn hash_from(value: u8) -> BlockHash {
    let mut bytes = [0u8; 32];
    bytes[31] = value;
    BlockHash::from_bytes(bytes)
}

fn account_from(value: u8) -> Account {
    let mut bytes = [0u8; 32];
    bytes[31] = value;
    Account::from_bytes(bytes)
}

#[test]
fn buckets_keep_blocks_in_time_order() {
    let mut buckets = Buckets::new();
    assert!(buckets.is_empty());
    assert!(buckets.push(30, hash_from(3), Amount::raw(0)).is_none());
    assert!(buckets.push(10, hash_from(1), Amount::raw(0)).is_none());
    assert!(buckets.push(20, hash_from(2), Amount::raw(0)).is_none());
    assert_eq!(buckets.len(), 3);
    let (time, hash) = buckets.pop().unwrap();
    assert_eq!(time, 10);
    assert_eq!(hash, hash_from(1));
    assert_eq!(buckets.len(), 2);
}

#[test]
fn buckets_separate_priorities() {
    // A zero balance and a huge balance land in different buckets; the
    // fairness cursor serves both.
    let mut buckets = Buckets::new();
    assert!(buckets.push(10, hash_from(1), Amount::raw(0)).is_none());
    assert!(buckets.push(5, hash_from(2), Amount::raw(u128::MAX)).is_none());
    assert_eq!(buckets.len(), 2);
    let first = buckets.pop().unwrap().1;
    let second = buckets.pop().unwrap().1;
    assert!(buckets.pop().is_none());
    assert!(first == hash_from(1) || first == hash_from(2));
    assert!(second != first);
}

#[test]
fn bucket_eviction_returns_block() {
    // Pushing past the bucket bound hands the evicted pair back
    // instead of dropping it silently.
    let mut buckets = Buckets::new();
    for i in 0..250u64 {
        assert!(buckets.push(i, hash_from((i % 200) as u8), Amount::raw(0)).is_none());
    }
    let evicted = buckets.push(1000, hash_from(201), Amount::raw(0));
    let (time, _) = evicted.unwrap();
    assert_eq!(time, 1000);
    assert_eq!(buckets.len(), 250);
}

#[test]
fn scheduler_next_election_respects_vacancy() {
    let mut scheduler = PriorityScheduler::new();
    assert!(scheduler.next_election(0).is_none());
    assert!(scheduler.next_election(8).is_none());
    scheduler.stop();
    assert!(scheduler.next_election(8).is_none());
}

#[test]
fn election_counts_votes_to_quorum() {
    let winner = hash_from(1);
    let mut election = Election::new(1, winner, ElectionBehavior::Normal);
    election.transition_active();
    assert_eq!(election.state, ElectionState::Active);
    assert_eq!(
        election.vote(&account_from(1), 10, winner, Amount::raw(40)),
        VoteResult::Vote
    );
    assert!(!election.try_confirm(Amount::raw(100)));
    assert_eq!(
        election.vote(&account_from(2), 10, winner, Amount::raw(70)),
        VoteResult::Vote
    );
    assert!(election.try_confirm(Amount::raw(100)));
    assert_eq!(election.state, ElectionState::Confirmed);
    election.transition_cemented();
    assert_eq!(election.state, ElectionState::Cemented);
}

#[test]
fn election_newer_vote_supersedes() {
    // A newer-timestamped vote moves the weight to the new hash; an
    // older or equal one is a replay.
    let winner = hash_from(1);
    let other = hash_from(2);
    let mut election = Election::new(1, winner, ElectionBehavior::Normal);
    election.transition_active();
    assert_eq!(
        election.vote(&account_from(1), 10, other, Amount::raw(70)),
        VoteResult::Vote
    );
    assert_eq!(
        election.vote(&account_from(1), 10, winner, Amount::raw(70)),
        VoteResult::Replay
    );
    assert!(!election.try_confirm(Amount::raw(60)));
    assert_eq!(
        election.vote(&account_from(1), 20, winner, Amount::raw(70)),
        VoteResult::Vote
    );
    assert!(election.try_confirm(Amount::raw(60)));
}

#[test]
fn vote_cache_is_bounded_lru() {
    // The cache never exceeds its bound; a hit moves its entry to the
    // back, so eviction follows insertion order modulo hits.
    let mut cache = VoteCache::new(3);
    let vote = CachedVote {
        representative: account_from(1),
        timestamp: 1,
        weight: Amount::raw(5),
    };
    cache.observe(hash_from(1), vote);
    cache.observe(hash_from(2), vote);
    cache.observe(hash_from(3), vote);
    assert_eq!(cache.len(), 3);
    // A hit on the oldest moves it to the back.
    cache.observe(hash_from(1), vote);
    assert_eq!(cache.len(), 3);
    // A new entry now evicts the oldest entry, which is the second.
    cache.observe(hash_from(4), vote);
    assert_eq!(cache.len(), 3);
    assert!(cache.find_votes(&hash_from(2)).is_none());
    assert!(cache.find_votes(&hash_from(1)).is_some());
    assert!(cache.find_votes(&hash_from(3)).is_some());
    assert!(cache.find_votes(&hash_from(4)).is_some());
    // The replayed votes of a hit accumulate on the entry.
    assert_eq!(cache.find_votes(&hash_from(1)).unwrap().len(), 2);
}

#[test]
fn confirming_set_deduplicates() {
    let mut set = ConfirmingSet::new(250);
    set.add(hash_from(1));
    set.add(hash_from(2));
    set.add(hash_from(1));
    assert_eq!(set.len(), 2);
    assert!(set.contains(&hash_from(1)));
    assert!(!set.contains(&hash_from(3)));
    let batch = set.next_batch(1);
    assert_eq!(batch.len(), 1);
    assert_eq!(batch[0], hash_from(1));
    assert_eq!(set.len(), 1);
    let batch = set.next_batch(10);
    assert_eq!(batch.len(), 1);
    assert_eq!(batch[0], hash_from(2));
    assert_eq!(set.len(), 0);
}

#[test]
fn batches() {
    // One representative; the batch takes HASHES_MAX winners, the next
    // add reports saturation, broadcasting counts a directed publish
    // and a flood, and the flush sends exactly one confirm request.
    let mut stats = Stats::new();
    let representatives = vec![PeeredRep::new(account_from(1), 42)];
    let mut solicitor = ConfirmationSolicitor::new();
    solicitor.prepare(&representatives);
    for i in 0..HASHES_MAX {
        assert_eq!(solicitor.add(&hash_from(i as u8)), false);
    }
    assert_eq!(solicitor.add(&hash_from(200)), true);
    assert_eq!(
        stats.count(StatType::Message, DetailType::Publish, Direction::Out),
        0
    );
    solicitor.broadcast(&representatives, &mut stats);
    assert_eq!(
        stats.count(StatType::Message, DetailType::Publish, Direction::Out),
        2
    );
    let sent = solicitor.flush(&mut stats);
    assert_eq!(sent, 1);
    assert_eq!(
        stats.count(StatType::Message, DetailType::ConfirmReq, Direction::Out),
        1
    );
}

#[test]
fn processor_queue_priorities_and_bounds() {
    let mut processor = BlockProcessor::new(2);
    let block = sample_block(1);
    assert!(processor.add(block, BlockSource::Live));
    assert!(processor.add(sample_block(2), BlockSource::Forced));
    assert!(processor.add(sample_block(3), BlockSource::Live));
    // The live queue is at its bound of two; the next add is dropped.
    assert!(!processor.add(sample_block(4), BlockSource::Live));
    assert_eq!(processor.queue_len(BlockSource::Live), 2);
    // Forced blocks drain first.
    let (_, source) = processor.next().unwrap();
    assert_eq!(source, BlockSource::Forced);
    let (first_live, source) = processor.next().unwrap();
    assert_eq!(source, BlockSource::Live);
    assert_eq!(first_live, block);
}

#[test]
fn processor_backpressure_throttles_reads() {
    // While any queue is past half its bound the receiver delays; as
    // soon as the processor drains below it reads again.
    let mut processor = BlockProcessor::new(4);
    assert_eq!(throttle_action(&processor), ThrottleAction::Receive);
    assert!(processor.add(sample_block(1), BlockSource::Live));
    assert!(processor.add(sample_block(2), BlockSource::Live));
    assert!(processor.add(sample_block(3), BlockSource::Live));
    assert!(processor.half_full());
    assert_eq!(throttle_action(&processor), ThrottleAction::Delay);
    let _ = processor.next();
    assert!(!processor.half_full());
    assert_eq!(throttle_action(&processor), ThrottleAction::Receive);
}

#[test]
fn received_type_actions() {
    assert_eq!(received_type_action(1), ReceivedTypeAction::Terminate);
    assert_eq!(received_type_action(0), ReceivedTypeAction::Unknown);
    assert_eq!(received_type_action(9), ReceivedTypeAction::Unknown);
    assert_eq!(
        received_type_action(2),
        ReceivedTypeAction::ReadBlock(rsnode::blocks::BlockType::LegacySend, 152)
    );
    assert_eq!(
        received_type_action(3),
        ReceivedTypeAction::ReadBlock(rsnode::blocks::BlockType::LegacyReceive, 136)
    );
    assert_eq!(
        received_type_action(4),
        ReceivedTypeAction::ReadBlock(rsnode::blocks::BlockType::LegacyOpen, 168)
    );
    assert_eq!(
        received_type_action(5),
        ReceivedTypeAction::ReadBlock(rsnode::blocks::BlockType::LegacyChange, 136)
    );
    assert_eq!(
        received_type_action(6),
        ReceivedTypeAction::ReadBlock(rsnode::blocks::BlockType::State, 216)
    );
}

#[test]
fn bootstrap_attempt_counters() {
    let mut attempt = BootstrapAttempt::new(7, BootstrapMode::Legacy);
    assert!(attempt.still_pulling());
    attempt.pull_started();
    attempt.pull_started();
    assert_eq!(attempt.pulling, 2);
    attempt.pull_finished();
    assert_eq!(attempt.pulling, 1);
    attempt.total_blocks_inc();
    assert_eq!(attempt.total_blocks, 1);
    assert!(!attempt.set_started());
    assert!(attempt.set_started());
    attempt.set_stopped();
    assert!(!attempt.still_pulling());
    assert_eq!(BootstrapMode::Legacy.mode_text(), "legacy");
}

#[test]
fn legacy_session_pull_bookkeeping() {
    let config = LegacyBootstrapConfig {
        frontier_request_count: 1000,
        frontier_retry_limit: 16,
        disable_bulk_push_client: false,
    };
    let mut session = BootstrapAttemptLegacy::new(1, config, 0, Account::zero());
    // A zero head is refused; real heads queue up.
    session.add_frontier(pull(0, 0));
    assert_eq!(session.frontier_pulls.len(), 0);
    session.add_frontier(pull(1, 1));
    session.add_frontier(pull(2, 2));
    session.add_frontier(pull(3, 3));
    assert_eq!(session.frontier_pulls.len(), 3);
    session.set_start_account(account_from(9));
    session.add_bulk_push_target(hash_from(1), hash_from(2));
    let info = session.get_information();
    assert_eq!(info.frontier_pulls, 3);
    assert_eq!(info.last_account, account_from(9));
    assert!(!info.frontiers_received);
    // A successful frontier round hands every pull over exactly once.
    let handed = session.on_frontier_result(false);
    assert_eq!(handed.len(), 3);
    assert_eq!(session.frontier_pulls.len(), 0);
    assert_eq!(session.attempt.pulling, 3);
    assert!(session.attempt.frontiers_received);
    for value in 1..=3u8 {
        assert_eq!(
            handed.iter().filter(|p| p.account == account_from(value)).count(),
            1
        );
    }
    assert_eq!(session.request_bulk_push_target(), Some((hash_from(1), hash_from(2))));
    assert_eq!(session.request_bulk_push_target(), None);
    session.stop();
    assert!(session.attempt.stopped);
}

#[test]
fn failed_frontier_round_clears_pulls() {
    let config = LegacyBootstrapConfig {
        frontier_request_count: 1000,
        frontier_retry_limit: 16,
        disable_bulk_push_client: true,
    };
    let mut session = BootstrapAttemptLegacy::new(2, config, 0, Account::zero());
    session.add_frontier(pull(1, 1));
    session.add_frontier(pull(2, 2));
    let handed = session.on_frontier_result(true);
    assert!(handed.is_empty());
    assert_eq!(session.frontier_pulls.len(), 0);
    assert_eq!(session.attempt.pulling, 0);
}

#[test]
fn recently_cemented_cache_keeps_results() {
    let mut cache = RecentlyCementedCache::new(5);
    assert_eq!(cache.size(), 0);
    cache.put(ElectionStatus {
        winner: hash_from(1),
        tally: Amount::raw(10),
        block_count: 1,
        voter_count: 2,
    });
    cache.put(ElectionStatus {
        winner: hash_from(2),
        tally: Amount::raw(20),
        block_count: 1,
        voter_count: 3,
    });
    assert_eq!(cache.size(), 2);
    let cemented = cache.get_cemented();
    assert_eq!(cemented.len(), 2);
    assert_eq!(cemented[0].winner, hash_from(1));
    assert_eq!(cemented[1].winner, hash_from(2));
    assert!(RecentlyCementedCache::element_size() > 0);
}

fn pull(account: u8, head: u8) -> PullInfo {
    PullInfo {
        account: account_from(account),
        head: hash_from(head),
        end: BlockHash::zero(),
        retry_limit: 16,
    }
}

fn sample_block(seed: u8) -> rsnode::blocks::BlockEnum {
    let key = rsnode::numbers::RawKey::from_bytes([seed; 32]);
    rsnode::blocks::BlockEnum::State(rsnode::blocks::StateBlock::new(
        account_from(seed),
        hash_from(seed),
        account_from(seed),
        Amount::raw(seed as u128),
        rsnode::numbers::Link::zero(),
        &key,
        &rsnode::crypto::public_key(&key),
        seed as u64,
    ))
}

#[test]
fn final_vote_outranks_numeric_timestamps() {
    // A final vote carries the sentinel timestamp: it supersedes any
    // numeric vote, and nothing supersedes it.
    let winner = hash_from(1);
    let other = hash_from(2);
    let mut election = Election::new(1, winner, ElectionBehavior::Normal);
    election.transition_active();
    assert_eq!(
        election.vote(&account_from(1), 500, other, Amount::raw(80)),
        VoteResult::Vote
    );
    assert_eq!(
        election.vote(&account_from(1), FINAL_TIMESTAMP, winner, Amount::raw(80)),
        VoteResult::Vote
    );
    assert_eq!(
        election.vote(&account_from(1), FINAL_TIMESTAMP, other, Amount::raw(80)),
        VoteResult::Replay
    );
    assert!(election.try_confirm(Amount::raw(80)));
}
