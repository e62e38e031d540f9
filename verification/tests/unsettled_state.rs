use northstar::accounts::{Account, Pubkey};
use northstar::unsettled_state::journal::{encode_record, read_journal, MAX_RECORD_BYTES};
use northstar::unsettled_state::records::{
    JournalRecord, Mutation, MutationKind, UnsettledSessionIdentity, WithdrawalPayoutEvent,
};
use northstar::unsettled_state::{
    FileState, RecoveryDisposition, RecoveryOutcome, SessionTerms, StoredFiles,
    UnsettledStateStore, COMPACT_RECORDS, FORMAT_VERSION, JOURNAL_FILE, SNAPSHOT_FILE,
};

/// The two files of a store, held in memory.
#[derive(Clone)]
struct Disk {
    snapshot: FileState,
    journal: FileState,
}

impl Disk {
    fn new() -> Disk {
        Disk {
            snapshot: FileState::Missing,
            journal: FileState::Missing,
        }
    }

    fn journal_len(&self) -> u64 {
        match &self.journal {
            FileState::Contents(bytes) => bytes.len() as u64,
            _ => 0,
        }
    }

    fn begin(
        &mut self,
        store: &mut UnsettledStateStore,
        identity: UnsettledSessionIdentity,
    ) -> RecoveryOutcome {
        let start = store.begin_session(
            identity,
            &StoredFiles {
                snapshot: self.snapshot.clone(),
                journal: self.journal.clone(),
                journal_len: self.journal_len(),
            },
        );
        if let Some(bytes) = start.reset() {
            self.snapshot = FileState::Contents(bytes.clone());
            self.journal = FileState::Missing;
        }
        store.start_session(start)
    }

    fn append(
        &mut self,
        store: &mut UnsettledStateStore,
        accounts: Vec<(Pubkey, Account)>,
        touched: Vec<Pubkey>,
        payouts: Option<Vec<WithdrawalPayoutEvent>>,
        signatures: Vec<([u8; 64], u64)>,
    ) -> bool {
        let pending = store
            .append_update(&accounts, &touched, payouts.as_ref(), &signatures)
            .unwrap();
        let Some(pending) = pending else {
            return false;
        };
        let mut bytes = match &self.journal {
            FileState::Contents(bytes) => bytes.clone(),
            _ => Vec::new(),
        };
        bytes.extend_from_slice(pending.frame());
        self.journal = FileState::Contents(bytes);
        if store.commit_update(&pending) {
            self.snapshot = FileState::Contents(store.compaction_snapshot().unwrap());
            self.journal = FileState::Contents(Vec::new());
            store.compact();
        }
        true
    }
}

fn configured() -> UnsettledStateStore {
    let mut store = UnsettledStateStore::new();
    store.configure(String::from("state"));
    store
}

fn system_account(lamports: u64, data: &[u8]) -> Account {
    Account {
        lamports,
        data: data.to_vec(),
        owner: [0; 32],
        executable: false,
        rent_epoch: 0,
    }
}

fn identity(portal: Pubkey, grid_id: u64) -> UnsettledSessionIdentity {
    UnsettledSessionIdentity {
        format_version: FORMAT_VERSION,
        portal_program_id: portal,
        session_pda: [2; 32],
        nonce: 3,
        created_at: 10,
        authority: [4; 32],
        validator: [5; 32],
        grid_id,
        ttl_slots: 100,
        fee_cap: 1_000,
        settlement_interval_slots: 20,
        bump: 254,
    }
}

#[test]
fn test_journal_recovers_unsettled_state() {
    let mut disk = Disk::new();
    let identity = identity([1; 32], 7);
    let account_key = [11; 32];
    let account = system_account(42, &[1, 2, 3]);
    let signature = [7; 64];
    let payout = WithdrawalPayoutEvent {
        er_source: account_key,
        l1_recipient: [12; 32],
        lamports: 12,
        cumulative_withdrawn: 12,
        signature,
        er_slot: 99,
    };

    let mut store = configured();
    assert_eq!(
        disk.begin(&mut store, identity).disposition,
        RecoveryDisposition::New
    );
    store.enable_writes();
    assert!(disk.append(
        &mut store,
        vec![(account_key, account.clone())],
        vec![account_key],
        Some(vec![payout]),
        vec![(signature, 99)],
    ));
    drop(store);

    let mut recovered_store = configured();
    let outcome = disk.begin(&mut recovered_store, identity);
    assert_eq!(outcome.disposition, RecoveryDisposition::Recovered);
    assert_eq!(outcome.state.accounts, vec![(account_key, account)]);
    assert_eq!(outcome.state.touched_accounts, vec![account_key]);
    assert_eq!(outcome.state.processed_signatures, vec![(signature, 99)]);
    assert_eq!(outcome.state.payout_events, vec![payout]);
}

#[test]
fn test_identity_mismatch_drops_unsettled_state() {
    let base = identity([1; 32], 7);
    let mismatches = [
        UnsettledSessionIdentity {
            format_version: FORMAT_VERSION + 1,
            ..base
        },
        UnsettledSessionIdentity {
            portal_program_id: [21; 32],
            ..base
        },
        UnsettledSessionIdentity {
            session_pda: [22; 32],
            ..base
        },
        UnsettledSessionIdentity {
            nonce: base.nonce + 1,
            ..base
        },
        UnsettledSessionIdentity {
            created_at: base.created_at + 1,
            ..base
        },
        UnsettledSessionIdentity {
            authority: [23; 32],
            ..base
        },
        UnsettledSessionIdentity {
            validator: [24; 32],
            ..base
        },
        UnsettledSessionIdentity {
            grid_id: base.grid_id + 1,
            ..base
        },
        UnsettledSessionIdentity {
            ttl_slots: base.ttl_slots + 1,
            ..base
        },
        UnsettledSessionIdentity {
            fee_cap: base.fee_cap + 1,
            ..base
        },
        UnsettledSessionIdentity {
            settlement_interval_slots: base.settlement_interval_slots + 1,
            ..base
        },
        UnsettledSessionIdentity {
            bump: base.bump.wrapping_add(1),
            ..base
        },
    ];

    for changed in mismatches {
        let mut disk = Disk::new();
        let mut store = configured();
        disk.begin(&mut store, base);
        store.enable_writes();
        disk.append(
            &mut store,
            vec![([31; 32], system_account(1, &[]))],
            vec![],
            None,
            vec![],
        );

        let outcome = disk.begin(&mut store, changed);
        assert_eq!(
            outcome.disposition,
            RecoveryDisposition::DroppedIdentityMismatch
        );
        assert!(outcome.state.accounts.is_empty());
    }
}

#[test]
fn dropped_state_does_not_come_back() {
    let base = identity([1; 32], 7);
    let other = UnsettledSessionIdentity { bump: 1, ..base };
    let mut disk = Disk::new();
    let mut store = configured();
    disk.begin(&mut store, base);
    store.enable_writes();
    disk.append(
        &mut store,
        vec![([31; 32], system_account(1, &[]))],
        vec![[31; 32]],
        None,
        vec![([7; 64], 1)],
    );
    disk.begin(&mut store, other);
    store.enable_writes();
    disk.append(
        &mut store,
        vec![([32; 32], system_account(2, &[]))],
        vec![],
        None,
        vec![],
    );
    let outcome = disk.begin(&mut store, base);
    assert_eq!(
        outcome.disposition,
        RecoveryDisposition::DroppedIdentityMismatch
    );
    assert!(outcome.state.accounts.is_empty());
    assert!(outcome.state.touched_accounts.is_empty());
    assert!(outcome.state.payout_events.is_empty());
    assert!(outcome.state.processed_signatures.is_empty());
}

#[test]
fn test_journal_compacts_without_losing_state() {
    let mut disk = Disk::new();
    let identity = identity([1; 32], 7);
    let account_key = [11; 32];
    let mut store = configured();
    disk.begin(&mut store, identity);
    store.enable_writes();
    for lamports in 1..=COMPACT_RECORDS as u64 {
        disk.append(
            &mut store,
            vec![(account_key, system_account(lamports, &[]))],
            vec![account_key],
            None,
            vec![],
        );
    }
    assert_eq!(disk.journal_len(), 0);
    drop(store);

    let mut recovered_store = configured();
    let outcome = disk.begin(&mut recovered_store, identity);
    assert_eq!(outcome.disposition, RecoveryDisposition::Recovered);
    assert_eq!(
        outcome.state.accounts[0].1.lamports,
        COMPACT_RECORDS as u64
    );
}

#[test]
fn restarts_and_compactions_lose_no_update() {
    let mut disk = Disk::new();
    let session = identity([1; 32], 7);
    let mut signatures = Vec::new();
    let mut compactions = 0;
    for run in 0..5u64 {
        let mut store = configured();
        let outcome = disk.begin(&mut store, session);
        let expected = if run == 0 {
            RecoveryDisposition::New
        } else {
            RecoveryDisposition::Recovered
        };
        assert_eq!(outcome.disposition, expected);
        assert_eq!(outcome.state.processed_signatures, signatures);
        store.enable_writes();
        for step in 0..70u64 {
            let update = run * 70 + step;
            let mut signature = [0; 64];
            signature[..8].copy_from_slice(&update.to_be_bytes());
            assert!(disk.append(
                &mut store,
                vec![([(update % 3) as u8; 32], system_account(update + 1, &[]))],
                vec![],
                None,
                vec![(signature, update)],
            ));
            signatures.push((signature, update));
            compactions += u64::from(disk.journal_len() == 0);
        }
    }
    assert!(compactions >= 2);
    let outcome = disk.begin(&mut configured(), session);
    assert_eq!(outcome.disposition, RecoveryDisposition::Recovered);
    assert_eq!(outcome.state.processed_signatures, signatures);
    assert_eq!(
        outcome.state.accounts,
        vec![
            ([0; 32], system_account(349, &[])),
            ([1; 32], system_account(350, &[])),
            ([2; 32], system_account(348, &[])),
        ]
    );
}

#[test]
fn updates_are_not_applied_twice() {
    let mut disk = Disk::new();
    let session = identity([1; 32], 7);
    let mut store = configured();
    disk.begin(&mut store, session);
    store.enable_writes();
    for lamports in [5, 6] {
        disk.append(
            &mut store,
            vec![([9; 32], system_account(lamports, &[]))],
            vec![],
            None,
            vec![([lamports as u8; 64], lamports)],
        );
    }
    disk.snapshot = FileState::Contents(store.compaction_snapshot().unwrap());
    assert!(disk.journal_len() > 0);
    let outcome = disk.begin(&mut configured(), session);
    assert_eq!(outcome.disposition, RecoveryDisposition::Recovered);
    assert_eq!(
        outcome.state.accounts,
        vec![([9; 32], system_account(6, &[]))]
    );
    assert_eq!(
        outcome.state.processed_signatures,
        vec![([5; 64], 5), ([6; 64], 6)]
    );
}

#[test]
fn test_corrupt_journal_drops_unsettled_state() {
    let mut disk = Disk::new();
    let identity = identity([1; 32], 7);
    let mut store = configured();
    disk.begin(&mut store, identity);
    store.enable_writes();
    disk.append(
        &mut store,
        vec![([31; 32], system_account(1, &[]))],
        vec![],
        None,
        vec![],
    );
    disk.journal = FileState::Contents(b"torn".to_vec());

    let mut recovered_store = configured();
    let outcome = disk.begin(&mut recovered_store, identity);
    assert_eq!(outcome.disposition, RecoveryDisposition::DroppedCorrupt);
    assert!(outcome.state.accounts.is_empty());
}

#[test]
fn nothing_is_written_before_writes_are_enabled() {
    let mut disk = Disk::new();
    let identity = identity([1; 32], 7);
    let mut store = configured();
    disk.begin(&mut store, identity);
    assert!(!disk.append(
        &mut store,
        vec![([31; 32], system_account(1, &[]))],
        vec![],
        None,
        vec![],
    ));
    store.enable_writes();
    assert!(disk.append(&mut store, vec![], vec![[1; 32]], None, vec![]));
    let outcome = disk.begin(&mut store, identity);
    assert_eq!(outcome.state.touched_accounts, vec![[1; 32]]);
    assert!(!disk.append(&mut store, vec![], vec![[2; 32]], None, vec![]));
}

#[test]
fn stores_without_a_directory_keep_nothing() {
    let mut disk = Disk::new();
    let mut store = UnsettledStateStore::new();
    let outcome = disk.begin(&mut store, identity([1; 32], 7));
    assert_eq!(outcome.disposition, RecoveryDisposition::New);
    store.enable_writes();
    assert!(!disk.append(&mut store, vec![], vec![[1; 32]], None, vec![]));
    assert_eq!(disk.snapshot, FileState::Missing);
    assert!(!store.clear());
    assert!(configured().clear());
}

#[test]
fn cleared_stores_write_no_more() {
    let mut disk = Disk::new();
    let mut store = configured();
    disk.begin(&mut store, identity([1; 32], 7));
    store.enable_writes();
    assert!(store.clear());
    store.enable_writes();
    assert!(!disk.append(&mut store, vec![], vec![[1; 32]], None, vec![]));
}

#[test]
fn unreadable_files_are_dropped() {
    let mut disk = Disk::new();
    let identity = identity([1; 32], 7);
    disk.snapshot = FileState::Unreadable;
    let mut store = configured();
    assert_eq!(
        disk.begin(&mut store, identity).disposition,
        RecoveryDisposition::DroppedCorrupt
    );
    assert_eq!(
        disk.begin(&mut store, identity).disposition,
        RecoveryDisposition::Recovered
    );
    disk.snapshot = FileState::Contents(vec![1, 2, 3]);
    assert_eq!(
        disk.begin(&mut store, identity).disposition,
        RecoveryDisposition::DroppedCorrupt
    );
    let mut lone_journal = Disk::new();
    lone_journal.journal = FileState::Contents(vec![1]);
    assert_eq!(
        lone_journal.begin(&mut store, identity).disposition,
        RecoveryDisposition::DroppedCorrupt
    );
    let mut empty_journal = Disk::new();
    empty_journal.journal = FileState::Contents(Vec::new());
    assert_eq!(
        empty_journal.begin(&mut store, identity).disposition,
        RecoveryDisposition::New
    );
}

#[test]
fn later_updates_replace_earlier_ones() {
    let mut disk = Disk::new();
    let identity = identity([1; 32], 7);
    let mut store = configured();
    disk.begin(&mut store, identity);
    store.enable_writes();
    for (key, lamports) in [([9; 32], 1), ([8; 32], 2), ([9; 32], 3)] {
        disk.append(
            &mut store,
            vec![(key, system_account(lamports, &[]))],
            vec![key],
            Some(vec![]),
            vec![([lamports as u8; 64], lamports)],
        );
    }
    let outcome = disk.begin(&mut store, identity);
    assert_eq!(
        outcome.state.accounts,
        vec![
            ([8; 32], system_account(2, &[])),
            ([9; 32], system_account(3, &[])),
        ]
    );
    assert_eq!(outcome.state.touched_accounts, vec![[8; 32], [9; 32]]);
    assert_eq!(
        outcome.state.processed_signatures,
        vec![([1; 64], 1), ([2; 64], 2), ([3; 64], 3)]
    );
}

fn record(sequence: u64) -> JournalRecord {
    JournalRecord {
        sequence,
        mutation: Mutation {
            kind: MutationKind::Update,
            accounts: vec![],
            touched_accounts: vec![[6; 32]],
            payout_events: None,
            processed_signatures: vec![],
        },
    }
}

#[test]
fn frames_hold_length_digest_and_payload() {
    let mut payload = 5u64.to_le_bytes().to_vec();
    payload.push(0);
    payload.extend_from_slice(&0u32.to_le_bytes());
    payload.extend_from_slice(&1u32.to_le_bytes());
    payload.extend_from_slice(&[6; 32]);
    payload.push(0);
    payload.extend_from_slice(&0u32.to_le_bytes());
    let mut frame = (payload.len() as u64).to_le_bytes().to_vec();
    frame.extend_from_slice(&solana_sha256_hasher::hashv(&[&payload]).to_bytes());
    frame.extend_from_slice(&payload);
    assert_eq!(encode_record(&record(5)), Some(frame));
}

#[test]
fn journals_are_read_whole_or_not_at_all() {
    let mut journal = encode_record(&record(1)).unwrap();
    journal.extend_from_slice(&encode_record(&record(2)).unwrap());
    assert_eq!(read_journal(&journal), Some(vec![record(1), record(2)]));
    assert_eq!(read_journal(&[]), Some(vec![]));
    for cut in 1..40 {
        assert_eq!(read_journal(&journal[..journal.len() - cut]), None);
    }
    let mut changed = journal.clone();
    let last = changed.len() - 1;
    changed[last] ^= 1;
    assert_eq!(read_journal(&changed), None);
    let mut long = (MAX_RECORD_BYTES + 1).to_le_bytes().to_vec();
    long.extend_from_slice(&[0; 64]);
    assert_eq!(read_journal(&long), None);
}

#[test]
fn identities_repeat_the_terms_of_the_session() {
    let terms = SessionTerms {
        nonce: 3,
        created_at: 10,
        authority: [4; 32],
        validator: [5; 32],
        grid_id: 7,
        ttl_slots: 100,
        fee_cap: 1_000,
        settlement_interval_slots: 20,
        bump: 254,
    };
    let made = UnsettledSessionIdentity::new([1; 32], [2; 32], &terms);
    assert_eq!(made, identity([1; 32], 7));
    assert!(made.same(&identity([1; 32], 7)));
    assert!(!made.same(&identity([1; 32], 8)));
    assert_eq!(SNAPSHOT_FILE, "state.borsh");
    assert_eq!(JOURNAL_FILE, "journal.bin");
}
