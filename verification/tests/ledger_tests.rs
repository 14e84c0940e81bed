//! Ledger validation: the send/receive round trip, sidebands, weights,
//! forks, and every error outcome.

use rsnode::blocks::{BlockDetails, BlockEnum, Epoch, OpenBlock, SendBlock, StateBlock};
use rsnode::crypto::public_key;
use rsnode::ledger::{
    dev_ledger_with_genesis, generate_work, receive_50_raw_into_genesis, Ledger, ProcessResult,
};
use rsnode::numbers::{Account, Amount, BlockHash, Link, RawKey};
use rsnode::store::LmdbEnv;

fn dev_key() -> RawKey {
    RawKey::from_bytes([0x34u8; 32])
}

fn other_key() -> RawKey {
    RawKey::from_bytes([0x77u8; 32])
}

fn dev_ledger() -> (Ledger, OpenBlock, RawKey) {
    let prv = dev_key();
    let mut env = LmdbEnv::new();
    let (ledger, genesis) = dev_ledger_with_genesis(&prv, &mut env, 1000);
    (ledger, genesis, prv)
}

fn work_for(ledger: &Ledger, root: &[u8; 32]) -> u64 {
    generate_work(root, ledger.constants.work_threshold, 0, 0xffff_ffff).unwrap()
}

#[test]
fn genesis_state() {
    let (ledger, genesis, prv) = dev_ledger();
    let account = public_key(&prv).to_account();
    let info = ledger.account_info(&account).unwrap();
    assert_eq!(info.head, genesis.hash());
    assert_eq!(info.balance, Amount::max_value());
    assert_eq!(info.block_count, 1);
    assert_eq!(ledger.weight(&account), Amount::max_value());
}

#[test]
fn save_block() {
    let (mut ledger, _genesis, prv) = dev_ledger();
    let (_, receive) = receive_50_raw_into_genesis(&mut ledger, &prv, 2000).unwrap();
    let loaded = ledger.get_block(&receive.hash()).unwrap();
    let BlockEnum::State(loaded_block) = loaded.block else {
        panic!("not a state block");
    };
    assert_eq!(loaded_block, receive);
}

#[test]
fn create_sideband() {
    let (mut ledger, _genesis, prv) = dev_ledger();
    let account = public_key(&prv).to_account();
    let (_, receive) = receive_50_raw_into_genesis(&mut ledger, &prv, 2000).unwrap();
    let sideband = ledger.get_block(&receive.hash()).unwrap().sideband;
    assert_eq!(sideband.account, account);
    assert_eq!(sideband.height, 3);
    assert_eq!(sideband.details, BlockDetails::new(Epoch::Epoch0, false, true, false));
}

#[test]
fn update_vote_weight() {
    let (mut ledger, _genesis, prv) = dev_ledger();
    let account = public_key(&prv).to_account();
    let (_, receive) = receive_50_raw_into_genesis(&mut ledger, &prv, 2000).unwrap();
    assert_eq!(ledger.weight(&account), receive.hashables.balance);
}

#[test]
fn remove_pending_info() {
    let (mut ledger, _genesis, prv) = dev_ledger();
    let account = public_key(&prv).to_account();
    let (send, _) = receive_50_raw_into_genesis(&mut ledger, &prv, 2000).unwrap();
    let key = rsnode::store::PendingKey::new(account, send.hash());
    assert!(ledger.pending.get(&key).is_none());
}

#[test]
fn receive_old_send_block() {
    let (mut ledger, _genesis, prv) = dev_ledger();
    let account = public_key(&prv).to_account();
    let (_, receive) = receive_50_raw_into_genesis(&mut ledger, &prv, 2000).unwrap();
    let sideband = ledger.get_block(&receive.hash()).unwrap().sideband;
    assert_eq!(sideband.account, account);
    assert_eq!(sideband.height, 3);
    assert_eq!(sideband.details, BlockDetails::new(Epoch::Epoch0, false, true, false));
    let loaded = ledger.get_block(&receive.hash()).unwrap();
    let BlockEnum::State(loaded_block) = loaded.block else {
        panic!("not a state block");
    };
    assert_eq!(loaded_block, receive);
}

#[test]
fn send_creates_pending_and_moves_weight() {
    // A state send to another account leaves the amount pending and
    // takes it off the representative's weight.
    let (mut ledger, genesis, prv) = dev_ledger();
    let account = public_key(&prv).to_account();
    let destination = public_key(&other_key()).to_account();
    let info = ledger.account_info(&account).unwrap();
    let work = work_for(&ledger, info.head.as_bytes());
    let send = StateBlock::new(
        account,
        info.head,
        info.representative,
        Amount::raw(u128::MAX - 50),
        Link::from_bytes(*destination.as_bytes()),
        &prv,
        &public_key(&prv),
        work,
    );
    assert_eq!(ledger.process(&BlockEnum::State(send), 2000), ProcessResult::Progress);
    let key = rsnode::store::PendingKey::new(destination, send.hash());
    let pending = ledger.pending.get(&key).unwrap();
    assert_eq!(pending.amount, Amount::raw(50));
    assert_eq!(pending.source, account);
    assert_eq!(ledger.weight(&account), Amount::raw(u128::MAX - 50));
    let info = ledger.account_info(&account).unwrap();
    assert_eq!(info.head, send.hash());
    assert_eq!(info.block_count, 2);
    assert!(genesis.hash() != send.hash());
}

#[test]
fn process_same_block_twice_is_old() {
    // First processing returns Progress; the second returns Old and
    // leaves the ledger untouched.
    let (mut ledger, _genesis, prv) = dev_ledger();
    let account = public_key(&prv).to_account();
    let info = ledger.account_info(&account).unwrap();
    let work = work_for(&ledger, info.head.as_bytes());
    let send = StateBlock::new(
        account,
        info.head,
        info.representative,
        Amount::raw(u128::MAX - 50),
        Link::from_bytes(*account.as_bytes()),
        &prv,
        &public_key(&prv),
        work,
    );
    assert_eq!(ledger.process(&BlockEnum::State(send), 2000), ProcessResult::Progress);
    let info_after_first = ledger.account_info(&account).unwrap();
    let weight_after_first = ledger.weight(&account);
    let blocks_after_first = ledger.blocks.len();
    let pending_after_first = ledger.pending.len();
    assert_eq!(ledger.process(&BlockEnum::State(send), 3000), ProcessResult::Old);
    assert_eq!(ledger.account_info(&account).unwrap(), info_after_first);
    assert_eq!(ledger.weight(&account), weight_after_first);
    assert_eq!(ledger.blocks.len(), blocks_after_first);
    assert_eq!(ledger.pending.len(), pending_after_first);
}

#[test]
fn fork_keeps_first_block() {
    // Two state blocks share a predecessor but differ in link: the
    // first wins, the second answers Fork, and only the first stays.
    let (mut ledger, _genesis, prv) = dev_ledger();
    let account = public_key(&prv).to_account();
    let info = ledger.account_info(&account).unwrap();
    let work_a = work_for(&ledger, info.head.as_bytes());
    let block_a = StateBlock::new(
        account,
        info.head,
        info.representative,
        Amount::raw(u128::MAX - 50),
        Link::from_bytes([0x11u8; 32]),
        &prv,
        &public_key(&prv),
        work_a,
    );
    let block_b = StateBlock::new(
        account,
        info.head,
        info.representative,
        Amount::raw(u128::MAX - 70),
        Link::from_bytes([0x22u8; 32]),
        &prv,
        &public_key(&prv),
        work_a,
    );
    assert_eq!(ledger.process(&BlockEnum::State(block_a), 2000), ProcessResult::Progress);
    assert_eq!(ledger.process(&BlockEnum::State(block_b), 2000), ProcessResult::Fork);
    assert!(ledger.get_block(&block_a.hash()).is_some());
    assert!(ledger.get_block(&block_b.hash()).is_none());
    assert_eq!(ledger.account_info(&account).unwrap().head, block_a.hash());
}

#[test]
fn negative_spend_rejected() {
    // On a legacy chain, a send whose balance exceeds the previous
    // balance would create money: it is a negative spend.
    let (mut ledger, _genesis, prv) = dev_ledger();
    let account = public_key(&prv).to_account();
    let info = ledger.account_info(&account).unwrap();
    let work = work_for(&ledger, info.head.as_bytes());
    let lower = SendBlock::new(
        info.head,
        public_key(&other_key()).to_account(),
        Amount::raw(1000),
        &prv,
        &public_key(&prv),
        work,
    );
    assert_eq!(ledger.process(&BlockEnum::Send(lower), 2000), ProcessResult::Progress);
    let work2 = work_for(&ledger, lower.hash().as_bytes());
    let overdraw = SendBlock::new(
        lower.hash(),
        public_key(&other_key()).to_account(),
        Amount::raw(5000),
        &prv,
        &public_key(&prv),
        work2,
    );
    assert_eq!(ledger.process(&BlockEnum::Send(overdraw), 3000), ProcessResult::NegativeSpend);
}

#[test]
fn bad_signature_rejected() {
    let (mut ledger, _genesis, prv) = dev_ledger();
    let account = public_key(&prv).to_account();
    let info = ledger.account_info(&account).unwrap();
    let work = work_for(&ledger, info.head.as_bytes());
    // Signed by the wrong key: the signature cannot verify under the
    // account's public key.
    let forged = StateBlock::new(
        account,
        info.head,
        info.representative,
        Amount::raw(u128::MAX - 50),
        Link::from_bytes(*account.as_bytes()),
        &other_key(),
        &public_key(&other_key()),
        work,
    );
    assert_eq!(ledger.process(&BlockEnum::State(forged), 2000), ProcessResult::BadSignature);
}

#[test]
fn insufficient_work_rejected() {
    let (mut ledger, _genesis, prv) = dev_ledger();
    let account = public_key(&prv).to_account();
    let info = ledger.account_info(&account).unwrap();
    // Search for a nonce that misses the threshold.
    let mut bad_work: Option<u64> = None;
    for nonce in 0..100_000u64 {
        if !rsnode::ledger::check_work(
            info.head.as_bytes(),
            nonce,
            ledger.constants.work_threshold,
        ) {
            bad_work = Some(nonce);
            break;
        }
    }
    let block = StateBlock::new(
        account,
        info.head,
        info.representative,
        Amount::raw(u128::MAX - 50),
        Link::from_bytes(*account.as_bytes()),
        &prv,
        &public_key(&prv),
        bad_work.unwrap(),
    );
    assert_eq!(ledger.process(&BlockEnum::State(block), 2000), ProcessResult::InsufficientWork);
}

#[test]
fn gap_previous_rejected() {
    let (mut ledger, _genesis, prv) = dev_ledger();
    let account = public_key(&prv).to_account();
    let missing = BlockHash::from_bytes([9u8; 32]);
    let work = work_for(&ledger, missing.as_bytes());
    let block = StateBlock::new(
        account,
        missing,
        account,
        Amount::raw(1),
        Link::zero(),
        &prv,
        &public_key(&prv),
        work,
    );
    assert_eq!(ledger.process(&BlockEnum::State(block), 2000), ProcessResult::GapPrevious);
}

#[test]
fn unreceivable_rejected() {
    // Receiving a source that is stored but not pending for this
    // account is unreceivable.
    let (mut ledger, genesis, prv) = dev_ledger();
    let account = public_key(&prv).to_account();
    let info = ledger.account_info(&account).unwrap();
    let work = work_for(&ledger, info.head.as_bytes());
    let bogus_receive = StateBlock::new(
        account,
        info.head,
        info.representative,
        Amount::max_value(),
        Link::from_bytes(*genesis.hash().as_bytes()),
        &prv,
        &public_key(&prv),
        work,
    );
    // Balance equal and link set: the receive path runs and finds no
    // pending entry.
    assert_eq!(
        ledger.process(&BlockEnum::State(bogus_receive), 2000),
        ProcessResult::Unreceivable
    );
}

#[test]
fn gap_source_rejected() {
    let (mut ledger, _genesis, prv) = dev_ledger();
    let account = public_key(&prv).to_account();
    let info = ledger.account_info(&account).unwrap();
    let work = work_for(&ledger, info.head.as_bytes());
    let missing_source = StateBlock::new(
        account,
        info.head,
        info.representative,
        Amount::max_value(),
        Link::from_bytes([0x5au8; 32]),
        &prv,
        &public_key(&prv),
        work,
    );
    assert_eq!(
        ledger.process(&BlockEnum::State(missing_source), 2000),
        ProcessResult::GapSource
    );
}

#[test]
fn opened_burn_account_rejected() {
    let (mut ledger, genesis, _prv) = dev_ledger();
    let burn_key = RawKey::from_bytes([0x01u8; 32]);
    let work = generate_work(&[0u8; 32], ledger.constants.work_threshold, 0, 0xffff_ffff)
        .unwrap();
    let open = OpenBlock::new(
        genesis.hash(),
        Account::zero(),
        Account::zero(),
        &burn_key,
        &public_key(&burn_key),
        work,
    );
    assert_eq!(
        ledger.process(&BlockEnum::Open(open), 2000),
        ProcessResult::OpenedBurnAccount
    );
}

#[test]
fn balance_mismatch_rejected() {
    // A state block that raises the balance with a zero link claims
    // money from nowhere.
    let (mut ledger, _genesis, prv) = dev_ledger();
    let account = public_key(&prv).to_account();
    let info = ledger.account_info(&account).unwrap();
    let work = work_for(&ledger, info.head.as_bytes());
    let lower = StateBlock::new(
        account,
        info.head,
        info.representative,
        Amount::raw(1000),
        Link::from_bytes(*account.as_bytes()),
        &prv,
        &public_key(&prv),
        work,
    );
    assert_eq!(ledger.process(&BlockEnum::State(lower), 2000), ProcessResult::Progress);
    let work2 = work_for(&ledger, lower.hash().as_bytes());
    let inflate = StateBlock::new(
        account,
        lower.hash(),
        info.representative,
        Amount::raw(5000),
        Link::zero(),
        &prv,
        &public_key(&prv),
        work2,
    );
    assert_eq!(ledger.process(&BlockEnum::State(inflate), 3000), ProcessResult::BalanceMismatch);
}

#[test]
fn weights_match_balances() {
    // The representative weights account for exactly the stored
    // balances, before and after a full send/receive round trip.
    let (mut ledger, _genesis, prv) = dev_ledger();
    let account = public_key(&prv).to_account();
    assert_eq!(ledger.weight(&account).number(), u128::MAX);
    let (_, _) = receive_50_raw_into_genesis(&mut ledger, &prv, 2000).unwrap();
    let mut balance_sum: u128 = 0;
    for (_, info) in ledger.account_store.begin() {
        balance_sum = balance_sum.wrapping_add(info.balance.number());
    }
    let mut weight_sum: u128 = 0;
    for (_, weight) in ledger.rep_weights.to_entries() {
        weight_sum = weight_sum.wrapping_add(weight.number());
    }
    assert_eq!(balance_sum, weight_sum);
}

#[test]
fn legacy_change_moves_weight() {
    // A legacy change block moves the whole balance's weight to the
    // new representative and nothing else.
    let (mut ledger, _genesis, prv) = dev_ledger();
    let account = public_key(&prv).to_account();
    let new_rep = public_key(&other_key()).to_account();
    let info = ledger.account_info(&account).unwrap();
    let work = work_for(&ledger, info.head.as_bytes());
    let change = rsnode::blocks::ChangeBlock::new(
        info.head,
        new_rep,
        &prv,
        &public_key(&prv),
        work,
    );
    assert_eq!(ledger.process(&BlockEnum::Change(change), 2000), ProcessResult::Progress);
    assert_eq!(ledger.weight(&new_rep), Amount::max_value());
    assert_eq!(ledger.weight(&account), Amount::zero());
    let info = ledger.account_info(&account).unwrap();
    assert_eq!(info.representative, new_rep);
    assert_eq!(info.balance, Amount::max_value());
}

#[test]
fn cementation_is_monotonic() {
    // Cementing a block raises the confirmation height to its height;
    // cementing an earlier block afterwards changes nothing.
    let (mut ledger, genesis, prv) = dev_ledger();
    let account = public_key(&prv).to_account();
    let (send, receive) = receive_50_raw_into_genesis(&mut ledger, &prv, 2000).unwrap();
    let newly = rsnode::cementing::cement(&mut ledger, &send.hash());
    assert_eq!(newly, 2);
    let height = ledger.confirmation_height.get(&account).unwrap().height;
    assert_eq!(height, 2);
    let again = rsnode::cementing::cement(&mut ledger, &genesis.hash());
    assert_eq!(again, 0);
    assert_eq!(ledger.confirmation_height.get(&account).unwrap().height, 2);
    let more = rsnode::cementing::cement(&mut ledger, &receive.hash());
    assert_eq!(more, 1);
    assert_eq!(ledger.confirmation_height.get(&account).unwrap().height, 3);
}

#[test]
fn epoch_upgrade_marks_account() {
    // A state block whose link carries the epoch marker and whose
    // balance stands still upgrades the account's epoch and nothing
    // else.
    let (mut ledger, _genesis, prv) = dev_ledger();
    let account = public_key(&prv).to_account();
    let info = ledger.account_info(&account).unwrap();
    let work = work_for(&ledger, info.head.as_bytes());
    let epoch_link = Link::from_bytes(ledger.constants.epoch_link);
    let upgrade = StateBlock::new(
        account,
        info.head,
        info.representative,
        info.balance,
        epoch_link,
        &prv,
        &public_key(&prv),
        work,
    );
    assert_eq!(ledger.process(&BlockEnum::State(upgrade), 2000), ProcessResult::Progress);
    let after = ledger.account_info(&account).unwrap();
    assert_eq!(after.epoch, Epoch::Epoch1);
    assert_eq!(after.balance, info.balance);
    assert_eq!(after.block_count, 2);
    let sideband = ledger.get_block(&upgrade.hash()).unwrap().sideband;
    assert!(sideband.details.is_epoch);
    assert!(!sideband.details.is_send);
    assert!(!sideband.details.is_receive);
    assert_eq!(sideband.details.epoch, Epoch::Epoch1);
    assert_eq!(ledger.weight(&account), info.balance);
    assert_eq!(ledger.pending.len(), 0);
    // An epoch block that also raises the balance claims money from
    // nowhere.
    let work2 = work_for(&ledger, upgrade.hash().as_bytes());
    let inflate = StateBlock::new(
        account,
        upgrade.hash(),
        info.representative,
        Amount::max_value(),
        epoch_link,
        &prv,
        &public_key(&prv),
        work2,
    );
    let lowered = StateBlock::new(
        account,
        upgrade.hash(),
        info.representative,
        Amount::raw(1000),
        Link::from_bytes(*account.as_bytes()),
        &prv,
        &public_key(&prv),
        work2,
    );
    assert_eq!(ledger.process(&BlockEnum::State(lowered), 3000), ProcessResult::Progress);
    let work3 = work_for(&ledger, lowered.hash().as_bytes());
    let bad = StateBlock::new(
        account,
        lowered.hash(),
        info.representative,
        Amount::raw(2000),
        epoch_link,
        &prv,
        &public_key(&prv),
        work3,
    );
    let _ = inflate;
    assert_eq!(ledger.process(&BlockEnum::State(bad), 4000), ProcessResult::BalanceMismatch);
}
