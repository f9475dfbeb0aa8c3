//! The wallet: address allocation, the live-subscription switch and the
//! deposit filter.
//!
//! The wallet owns the mnemonic and knows which subscription task, if any, is
//! the active one. The ledger and the publisher are handed to each operation,
//! so that a caller may guard each with a lock of its own and hold it for one
//! operation only.

use crate::encoding::{big_endian, decimal};
use crate::pubsub::{message_frames, ChainEvent, ChainEventView, Publisher};
use crate::wallet::database::{
    holds_address, holds_slot, ledger_wf, lemma_max_index, max_index, AddressRecordView,
    LedgerError, WalletDatabase,
};
use crate::wallet::mnemonic::{address_at, indexed_path, Mnemonic};
use crate::wallet::usdt::contract::{
    forwarded, subscribe_to_transfer_logs, transfer_topic, LiveWatch, LogFilter, RawLog,
    TransferLog, TransferLogView,
};
use vstd::prelude::*;
use vstd::string::*;

verus! {

/// Why no address was revealed.
#[derive(Debug, Clone, Copy, PartialEq, Eq, Structural)]
pub enum WalletError {
    /// Every index below the derivation path has been handed out.
    IndexExhausted,
    /// The derivation path is not usable, or not one that key derivation
    /// accepts.
    InvalidPath,
    /// The derived address is already in the ledger.
    AddressExists,
}

/// Whether a live subscription is active, and which task runs it.
pub struct SyncState {
    /// Whether a subscription task is active.
    pub syncing: bool,
    /// The number of the task that was started last.
    pub task: u64,
}

/// A subscription task to run: subscribe with `filter`, feed every log to
/// `watch`, and end when the wallet's `stop_sync` names `id`.
pub struct SyncTask {
    pub id: u64,
    pub filter: LogFilter,
    pub watch: LiveWatch,
}

/// What one arriving log leads to.
pub struct SyncStep {
    /// The log's block, where it differs from the block of the log before.
    pub new_block: Option<u64>,
    /// The message to publish: one deposit event, for a log that pays a
    /// known address.
    pub message: Option<Vec<Vec<u8>>>,
    /// The address that was paid, and stamped as used in the ledger.
    pub paid: Option<String>,
    /// Whether the subscription ends after this log.
    pub stop: bool,
}

/// The wallet.
pub struct EthServWallet {
    mnemonic: Mnemonic,
    derivation_path: String,
    contract: [u8; 20],
    is_syncing: bool,
    task: u64,
}

/// The number of the task after task `id`.
pub open spec fn next_task(id: u64) -> u64 {
    if id == u64::MAX {
        0
    } else {
        (id + 1) as u64
    }
}

/// The state after `start_sync`: an active subscription stays as it is,
/// otherwise a new task becomes the active one.
pub open spec fn after_start(state: SyncState) -> SyncState {
    if state.syncing {
        state
    } else {
        SyncState { syncing: true, task: next_task(state.task) }
    }
}

/// The state after `stop_sync`: no subscription is active.
pub open spec fn after_stop(state: SyncState) -> SyncState {
    SyncState { syncing: false, task: state.task }
}

/// The index that the next allocation under `path` gets: one more than the
/// greatest recorded, and 1 for a path without records.
pub open spec fn next_index(rows: Seq<AddressRecordView>, path: Seq<char>) -> int {
    match max_index(rows, path) {
        Some(m) => m + 1,
        None => 1,
    }
}

/// The record of an allocation.
pub open spec fn allocation(address: Seq<char>, path: Seq<char>, addr_index: u32, now: u64) -> AddressRecordView {
    AddressRecordView { address, path, addr_index, created_at: now, last_used: None }
}

/// The ledger after the record of `address` was stamped as used at `now`.
pub open spec fn stamped(rows: Seq<AddressRecordView>, address: Seq<char>, now: u64) -> Seq<
    AddressRecordView,
> {
    Seq::new(
        rows.len(),
        |i: int|
            if rows[i].address == address {
                AddressRecordView { last_used: Some(now), ..rows[i] }
            } else {
                rows[i]
            },
    )
}

/// Stamping a record as used changes no address: the ledger knows the same
/// addresses before and after.
pub proof fn lemma_stamping_keeps_addresses(
    rows: Seq<AddressRecordView>,
    address: Seq<char>,
    now: u64,
    other: Seq<char>,
)
    ensures
        holds_address(stamped(rows, address, now), other) == holds_address(rows, other),
{
    let after = stamped(rows, address, now);
    if holds_address(rows, other) {
        let i = choose|i: int| 0 <= i < rows.len() && (#[trigger] rows[i]).address == other;
        assert(after[i].address == other);
    }
    if holds_address(after, other) {
        let i = choose|i: int| 0 <= i < after.len() && (#[trigger] after[i]).address == other;
        assert(rows[i].address == other);
    }
}

/// The deposit event that reports a transfer: recipient, amount in decimal,
/// block number, transaction hash and log position.
pub open spec fn deposit_of(transfer: TransferLogView) -> ChainEventView {
    ChainEventView::NewDeposit {
        deposit: (
            transfer.to,
            decimal(big_endian(transfer.amount)),
            transfer.block_number,
            transfer.hash,
            transfer.index,
        ),
    }
}

/// Starting twice without stopping leaves the one task of the first start
/// active: the second start changes nothing.
pub proof fn lemma_second_start_is_noop(state: SyncState)
    ensures
        after_start(state).syncing,
        after_start(after_start(state)) == after_start(state),
{
}

/// Stopping and starting again gives an active task that is not the one that
/// was stopped.
pub proof fn lemma_restart_is_fresh(state: SyncState)
    ensures
        !after_stop(state).syncing,
        after_start(after_stop(state)).syncing,
        after_start(after_stop(state)).task != state.task,
{
}

/// An allocation at the next index of its path keeps the ledger's rules,
/// adds one record at an index that the path did not have, and moves the
/// path's next index up by one.
pub proof fn lemma_allocation_advances(
    rows: Seq<AddressRecordView>,
    address: Seq<char>,
    path: Seq<char>,
    now: u64,
)
    requires
        ledger_wf(rows),
        !holds_address(rows, address),
        next_index(rows, path) <= u32::MAX,
    ensures
        ledger_wf(rows.push(allocation(address, path, next_index(rows, path) as u32, now))),
        next_index(rows.push(allocation(address, path, next_index(rows, path) as u32, now)), path)
            == next_index(rows, path) + 1,
        !holds_slot(rows, path, next_index(rows, path) as u32),
{
    let added = allocation(address, path, next_index(rows, path) as u32, now);
    let after = rows.push(added);
    lemma_max_index(rows, path);
    assert(after.drop_last() =~= rows);
    assert(after.last() == added);
    assert(!holds_slot(rows, path, next_index(rows, path) as u32)) by {
        if holds_slot(rows, path, next_index(rows, path) as u32) {
            let i = choose|i: int|
                0 <= i < rows.len() && (#[trigger] rows[i]).path == path && rows[i].addr_index
                    == next_index(rows, path) as u32;
            assert(rows[i].path == path);
        }
    }
    assert forall|i: int, j: int|
        #![trigger after[i], after[j]]
        0 <= i < j < after.len() implies after[i].address != after[j].address && !(after[i].path
        == after[j].path && after[i].addr_index == after[j].addr_index) by {
        if j < rows.len() {
            assert(rows[i].address != rows[j].address);
        } else {
            assert(rows[i] == after[i]);
            if rows[i].path == path && rows[i].addr_index == added.addr_index {
                assert(holds_slot(rows, path, added.addr_index));
            }
        }
    }
}

/// An allocation under one path leaves the next index of every other path.
pub proof fn lemma_allocation_keeps_other_paths(
    rows: Seq<AddressRecordView>,
    added: AddressRecordView,
    other: Seq<char>,
)
    requires
        added.path != other,
    ensures
        next_index(rows.push(added), other) == next_index(rows, other),
{
    assert(rows.push(added).drop_last() =~= rows);
}

/// The ledger after `addresses` were allocated one after the other under
/// `path`, the k-th stamped `stamps[k]`.
pub open spec fn allocated(
    rows: Seq<AddressRecordView>,
    path: Seq<char>,
    addresses: Seq<Seq<char>>,
    stamps: Seq<u64>,
) -> Seq<AddressRecordView>
    decreases addresses.len(),
{
    if addresses.len() == 0 {
        rows
    } else {
        let before = allocated(rows, path, addresses.drop_last(), stamps.drop_last());
        before.push(
            allocation(addresses.last(), path, next_index(before, path) as u32, stamps.last()),
        )
    }
}

/// Allocating some addresses and then some more is allocating all of them
/// in a row: what successive calls leave is one run.
pub proof fn lemma_allocated_then(
    rows: Seq<AddressRecordView>,
    path: Seq<char>,
    first: Seq<Seq<char>>,
    first_stamps: Seq<u64>,
    then: Seq<Seq<char>>,
    then_stamps: Seq<u64>,
)
    requires
        first.len() == first_stamps.len(),
        then.len() == then_stamps.len(),
    ensures
        allocated(allocated(rows, path, first, first_stamps), path, then, then_stamps) == allocated(
            rows,
            path,
            first + then,
            first_stamps + then_stamps,
        ),
    decreases then.len(),
{
    if then.len() == 0 {
        assert(first + then =~= first);
        assert(first_stamps + then_stamps =~= first_stamps);
    } else {
        lemma_allocated_then(
            rows,
            path,
            first,
            first_stamps,
            then.drop_last(),
            then_stamps.drop_last(),
        );
        assert((first + then).drop_last() =~= first + then.drop_last());
        assert((first_stamps + then_stamps).drop_last() =~= first_stamps + then_stamps.drop_last());
        assert((first + then).last() == then.last());
        assert((first_stamps + then_stamps).last() == then_stamps.last());
    }
}

/// Allocations that follow one another under a path get indices that rise
/// by one from the path's next index, none twice; the ledger keeps its rules
/// and holds one more record for each allocation, so as many distinct
/// addresses were added as allocations were made.
pub proof fn lemma_allocations_rise(
    rows: Seq<AddressRecordView>,
    path: Seq<char>,
    addresses: Seq<Seq<char>>,
    stamps: Seq<u64>,
)
    requires
        ledger_wf(rows),
        stamps.len() == addresses.len(),
        forall|k: int| 0 <= k < addresses.len() ==> !holds_address(rows, #[trigger] addresses[k]),
        forall|j: int, k: int|
            0 <= j < k < addresses.len() ==> #[trigger] addresses[j] != #[trigger] addresses[k],
        next_index(rows, path) + addresses.len() <= u32::MAX + 1,
    ensures
        ledger_wf(allocated(rows, path, addresses, stamps)),
        allocated(rows, path, addresses, stamps).len() == rows.len() + addresses.len(),
        next_index(allocated(rows, path, addresses, stamps), path) == next_index(rows, path)
            + addresses.len(),
        forall|k: int|
            0 <= k < rows.len() ==> #[trigger] allocated(rows, path, addresses, stamps)[k]
                == rows[k],
        forall|k: int|
            0 <= k < addresses.len() ==> #[trigger] allocated(rows, path, addresses, stamps)[rows.len()
                + k] == allocation(
                addresses[k],
                path,
                (next_index(rows, path) + k) as u32,
                stamps[k],
            ),
    decreases addresses.len(),
{
    if addresses.len() > 0 {
        let front = addresses.drop_last();
        let early = stamps.drop_last();
        let before = allocated(rows, path, front, early);
        assert forall|k: int| 0 <= k < front.len() implies !holds_address(
            rows,
            #[trigger] front[k],
        ) by {
            assert(front[k] == addresses[k]);
        }
        assert forall|j: int, k: int| 0 <= j < k < front.len() implies #[trigger] front[j]
            != #[trigger] front[k] by {
            assert(front[j] == addresses[j] && front[k] == addresses[k]);
        }
        lemma_allocations_rise(rows, path, front, early);
        let last = addresses.last();
        assert(!holds_address(before, last)) by {
            if holds_address(before, last) {
                let i = choose|i: int| 0 <= i < before.len() && (#[trigger] before[i]).address == last;
                if i < rows.len() {
                    assert(before[i] == rows[i]);
                    assert(rows[i].address == addresses[addresses.len() - 1]);
                } else {
                    let k = i - rows.len();
                    assert(before[rows.len() + k].address == front[k]);
                    assert(addresses[k] != addresses[addresses.len() - 1]);
                }
            }
        }
        lemma_allocation_advances(before, last, path, stamps.last());
        let after = allocated(rows, path, addresses, stamps);
        assert forall|k: int| 0 <= k < rows.len() implies #[trigger] after[k] == rows[k] by {
            assert(after[k] == before[k]);
        }
        assert forall|k: int| 0 <= k < addresses.len() implies #[trigger] after[rows.len() + k]
            == allocation(
            addresses[k],
            path,
            (next_index(rows, path) + k) as u32,
            stamps[k],
        ) by {
            if k < front.len() {
                assert(after[rows.len() + k] == before[rows.len() + k]);
                assert(front[k] == addresses[k] && early[k] == stamps[k]);
            }
        }
    }
}

impl EthServWallet {
    /// A wallet over `mnemonic` that allocates below `derivation_path` and
    /// watches the token contract at `contract`. No subscription is active.
    pub fn new(mnemonic: Mnemonic, derivation_path: &str, contract: [u8; 20]) -> (wallet: Self)
        ensures
            wallet.phrase() == mnemonic.phrase(),
            wallet.path() == derivation_path@,
            wallet.contract_address() == contract@,
            wallet.sync_state() == (SyncState { syncing: false, task: 0 }),
    {
        EthServWallet {
            mnemonic,
            derivation_path: String::from_str(derivation_path),
            contract,
            is_syncing: false,
            task: 0,
        }
    }

    /// The wallet's mnemonic phrase.
    pub closed spec fn phrase(&self) -> Seq<char> {
        self.mnemonic.phrase()
    }

    /// The derivation path below which addresses are allocated.
    pub closed spec fn path(&self) -> Seq<char> {
        self.derivation_path@
    }

    /// The watched token contract.
    pub closed spec fn contract_address(&self) -> Seq<u8> {
        self.contract@
    }

    /// Whether a subscription is active, and the task started last.
    pub closed spec fn sync_state(&self) -> SyncState {
        SyncState { syncing: self.is_syncing, task: self.task }
    }

    /// Whether a subscription is active.
    pub fn is_syncing(&self) -> (syncing: bool)
        ensures
            syncing == self.sync_state().syncing,
    {
        self.is_syncing
    }

    /// The derivation path below which addresses are allocated.
    pub fn derivation_path(&self) -> (path: &str)
        ensures
            path@ == self.path(),
    {
        self.derivation_path.as_str()
    }

    /// Starts the live subscription.
    ///
    /// While a subscription is active this is a no-op and gives nothing.
    /// Otherwise a new task becomes the active one and is handed back for
    /// running: it subscribes to every transfer of the contract and starts
    /// with a fresh watch.
    pub fn start_sync(&mut self) -> (task: Option<SyncTask>)
        ensures
            final(self).sync_state() == after_start(old(self).sync_state()),
            final(self).phrase() == old(self).phrase(),
            final(self).path() == old(self).path(),
            final(self).contract_address() == old(self).contract_address(),
            task is Some <==> !old(self).sync_state().syncing,
            task matches Some(t) ==> {
                &&& t.id == final(self).sync_state().task
                &&& t.id != old(self).sync_state().task
                &&& t.filter.address@ == old(self).contract_address()
                &&& t.filter.topic0@ == transfer_topic()
                &&& t.filter.topic2 is None
                &&& t.filter.from_block is None
                &&& t.filter.to_block is None
                &&& t.watch.last_block() == 0
                &&& !t.watch.is_stopped()
            },
    {
        if self.is_syncing {
            return None;
        }
        self.is_syncing = true;
        self.task = if self.task == u64::MAX {
            0
        } else {
            self.task + 1
        };
        let (filter, watch) = subscribe_to_transfer_logs(&self.contract);
        Some(SyncTask { id: self.task, filter, watch })
    }

    /// Stops the live subscription.
    ///
    /// Gives the task to signal, if one is active. The signal is cooperative:
    /// the task ends at the next log it takes.
    pub fn stop_sync(&mut self) -> (stopped: Option<u64>)
        ensures
            final(self).sync_state() == after_stop(old(self).sync_state()),
            final(self).phrase() == old(self).phrase(),
            final(self).path() == old(self).path(),
            final(self).contract_address() == old(self).contract_address(),
            stopped == (if old(self).sync_state().syncing {
                Some(old(self).sync_state().task)
            } else {
                None
            }),
    {
        let stopped = if self.is_syncing {
            Some(self.task)
        } else {
            None
        };
        self.is_syncing = false;
        stopped
    }

    /// Records that the subscription task `id` has ended by itself: it could
    /// not subscribe, or the node closed the stream.
    ///
    /// Where `id` is the active task, no subscription is active afterwards,
    /// so that a later start makes a new task; the answer tells whether that
    /// was so. The end of any other task changes nothing.
    pub fn sync_ended(&mut self, id: u64) -> (was_active: bool)
        ensures
            was_active == (old(self).sync_state().syncing && old(self).sync_state().task == id),
            final(self).sync_state() == (if was_active {
                after_stop(old(self).sync_state())
            } else {
                old(self).sync_state()
            }),
            final(self).phrase() == old(self).phrase(),
            final(self).path() == old(self).path(),
            final(self).contract_address() == old(self).contract_address(),
    {
        if self.is_syncing && self.task == id {
            self.is_syncing = false;
            true
        } else {
            false
        }
    }

    /// Allocates the next address below the wallet's derivation path.
    ///
    /// The index is one more than the greatest that `db` records under the
    /// path. The address derived there is recorded, stamped `now`, and
    /// returned. Nothing is recorded where the indices are exhausted, the
    /// path is not usable or not accepted, or the address is already in the
    /// ledger.
    pub fn reveal_next_address(&self, db: &mut WalletDatabase, now: u64) -> (revealed: Result<
        String,
        WalletError,
    >)
        ensures
            old(db).wf() ==> final(db).wf(),
            match revealed {
                Ok(address) => {
                    &&& next_index(old(db)@, self.path()) <= u32::MAX
                    &&& address_at(
                        self.phrase(),
                        indexed_path(self.path(), next_index(old(db)@, self.path()) as u32),
                    ) == Some(address@)
                    &&& !holds_address(old(db)@, address@)
                    &&& final(db)@ == old(db)@.push(
                        allocation(
                            address@,
                            self.path(),
                            next_index(old(db)@, self.path()) as u32,
                            now,
                        ),
                    )
                    &&& final(db)@ == allocated(old(db)@, self.path(), seq![address@], seq![now])
                },
                Err(WalletError::IndexExhausted) => {
                    &&& next_index(old(db)@, self.path()) > u32::MAX
                    &&& final(db)@ == old(db)@
                },
                Err(WalletError::InvalidPath) => {
                    &&& next_index(old(db)@, self.path()) <= u32::MAX
                    &&& address_at(
                        self.phrase(),
                        indexed_path(self.path(), next_index(old(db)@, self.path()) as u32),
                    ) is None
                    &&& final(db)@ == old(db)@
                },
                Err(WalletError::AddressExists) => {
                    &&& next_index(old(db)@, self.path()) <= u32::MAX
                    &&& address_at(
                        self.phrase(),
                        indexed_path(self.path(), next_index(old(db)@, self.path()) as u32),
                    ) matches Some(a)
                    &&& holds_address(old(db)@, a)
                    &&& final(db)@ == old(db)@
                },
            },
    {
        let path = self.derivation_path.as_str();
        let last_index: u32 = match db.get_max_index_for_path(path) {
            Some(m) => m,
            None => 0,
        };
        if last_index == u32::MAX {
            return Err(WalletError::IndexExhausted);
        }
        let new_index: u32 = last_index + 1;
        let address = match self.mnemonic.derive_address(path, new_index) {
            Some(address) => address,
            None => {
                return Err(WalletError::InvalidPath);
            },
        };
        proof {
            lemma_max_index(db@, path@);
            if holds_slot(db@, path@, new_index) {
                let i = choose|i: int|
                    0 <= i < db@.len() && (#[trigger] db@[i]).path == path@ && db@[i].addr_index
                        == new_index;
                assert(db@[i].path == path@);
            }
        }
        proof {
            let one = seq![address@];
            let stamp = seq![now];
            assert(one.drop_last() =~= Seq::<Seq<char>>::empty());
            assert(stamp.drop_last() =~= Seq::<u64>::empty());
            assert(allocated(db@, path@, one.drop_last(), stamp.drop_last()) == db@);
        }
        match db.store_address(address.as_str(), path, new_index, now) {
            Ok(true) => Ok(address),
            Ok(false) => Err(WalletError::AddressExists),
            Err(LedgerError::AddressTaken) => Err(WalletError::AddressExists),
        }
    }

    /// Frames `event` for publishing; see `Publisher::publish`.
    pub fn publish_chainevent(&self, publisher: &Publisher, event: ChainEvent) -> (message: Vec<
        Vec<u8>,
    >)
        ensures
            crate::pubsub::frame_views(message@) == message_frames(event@),
            message@.len() == 2,
    {
        publisher.publish(event)
    }
}

impl WalletError {
    /// A one-line description of the error.
    pub open spec fn text(self) -> Seq<char> {
        match self {
            WalletError::IndexExhausted => "no index left below the derivation path"@,
            WalletError::InvalidPath => "derivation path not accepted"@,
            WalletError::AddressExists => "Address already exists"@,
        }
    }

    /// A one-line description of the error.
    pub fn message(&self) -> (text: &'static str)
        ensures
            text@ == self.text(),
    {
        match self {
            WalletError::IndexExhausted => "no index left below the derivation path",
            WalletError::InvalidPath => "derivation path not accepted",
            WalletError::AddressExists => "Address already exists",
        }
    }
}

/// The deposit event that reports `transfer`.
pub fn deposit_event(transfer: TransferLog) -> (event: ChainEvent)
    ensures
        event@ == deposit_of(transfer@),
{
    let amount = transfer.amount.to_decimal();
    ChainEvent::NewDeposit {
        deposit: (transfer.to, amount, transfer.block_number, transfer.hash, transfer.index),
    }
}

/// The deposit filter: takes one log from the live subscription, and where
/// it pays an address of the ledger, gives the message that reports the
/// deposit and stamps the address as used at `now`.
///
/// A log that pays a known address gives exactly one message, a deposit
/// event with the log's recipient, amount, block number, transaction hash and
/// position. Any other log gives none and leaves the ledger as it is. What
/// the filter forwards for a later log is the same after the step as before
/// it, so a run of logs is reported log by log, in the order of their
/// arrival.
pub fn process_log(
    watch: &mut LiveWatch,
    db: &mut WalletDatabase,
    publisher: &Publisher,
    log: &RawLog,
    stop_requested: bool,
    now: u64,
) -> (step: SyncStep)
    ensures
        old(db).wf() ==> final(db).wf(),
        old(watch).is_stopped() ==> *final(watch) == *old(watch) && final(db)@ == old(db)@
            && step.message is None && step.paid is None && step.new_block is None && step.stop,
        !old(watch).is_stopped() ==> {
            &&& final(watch).is_stopped() == stop_requested
            &&& step.stop == stop_requested
            &&& final(watch).last_block() == (match log.block_number {
                Some(n) => n,
                None => old(watch).last_block(),
            })
            &&& step.new_block == (match log.block_number {
                Some(n) => if n != old(watch).last_block() {
                    Some(n)
                } else {
                    None
                },
                None => None,
            })
            &&& step.message is Some <==> forwarded(*log, *old(db)) is Some
            &&& step.message matches Some(m) ==> crate::pubsub::frame_views(m@) == message_frames(
                deposit_of(forwarded(*log, *old(db)).unwrap()),
            )
            &&& step.paid is Some <==> forwarded(*log, *old(db)) is Some
            &&& step.paid matches Some(a) ==> a@ == forwarded(*log, *old(db)).unwrap().to
            &&& step.message is None ==> final(db)@ == old(db)@
            &&& forall|later: RawLog| #[trigger]
                forwarded(later, *final(db)) == forwarded(later, *old(db))
            &&& step.message is Some ==> final(db)@ == stamped(
                old(db)@,
                forwarded(*log, *old(db)).unwrap().to,
                now,
            )
        },
{
    let taken = watch.on_log(log, db, stop_requested);
    match taken.transfer {
        Some(transfer) => {
            let ghost before = db@;
            db.update_last_used(transfer.to.as_str(), now);
            assert(db@ =~= stamped(before, transfer.to@, now));
            proof {
                assert forall|later: RawLog| #[trigger]
                    forwarded(later, *db) == forwarded(later, *old(db)) by {
                    lemma_stamping_keeps_addresses(
                        before,
                        transfer.to@,
                        now,
                        crate::wallet::usdt::contract::decoded(later).to,
                    );
                }
            }
            let paid = transfer.to.clone();
            let message = publisher.publish(deposit_event(transfer));
            SyncStep {
                new_block: taken.new_block,
                message: Some(message),
                paid: Some(paid),
                stop: taken.stop,
            }
        },
        None => SyncStep {
            new_block: taken.new_block,
            message: None,
            paid: None,
            stop: taken.stop,
        },
    }
}

} // verus!
