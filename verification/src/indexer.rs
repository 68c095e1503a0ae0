//! The polling loop as a state machine. The machine decides; its driver
//! does what the machine waits for (a query to the chain, a sleep) and
//! hands the outcome back as an event.

use crate::amount::decimal_text;
use crate::decoder::{
    decode_error, decode_log, log_recipient, log_sender, log_value, DecodeError, RawLog,
};
use crate::hex::{hex_text, to_hex};
use crate::ledger::{
    apply_transfer, insert_raw_transfer, insert_row, update_net_flows_on_transfer, has_hash,
    Ledger, LedgerView, TransferRow,
};
use crate::watchlist::{classify, is_watched};
use vstd::prelude::*;

verus! {

/// How often the logs of one block are asked for before the block is
/// given up.
pub const MAX_FETCH_ATTEMPTS: u32 = 5;

/// The wait after a failed query, in seconds.
pub const RETRY_DELAY_SECS: u64 = 5;

/// The wait between two rounds, in seconds.
pub const POLL_INTERVAL_SECS: u64 = 5;

/// Where the machine stands, named by what it waits for.
#[derive(Clone, Copy, Debug, PartialEq, Eq, Structural)]
pub enum Phase {
    /// Idle: nothing was scanned yet; the height at which to start is
    /// awaited.
    Idle,
    /// Fetching the height: the height up to which this round scans is
    /// awaited.
    FetchingHeight,
    /// Fetching the height: the wait after a failed query for it.
    HeightRetryWait,
    /// Scanning the range: the logs of the current block are awaited.
    FetchingLogs,
    /// Scanning the range: the wait after a failed query for the logs.
    LogsRetryWait,
    /// Scanning the range: the time of a log's block is awaited.
    FetchingTimestamp,
    /// Sleeping: the wait between two rounds.
    Sleeping,
    /// The start failed; the machine does nothing more.
    Halted,
}

/// What the driver hands to the machine.
#[derive(Debug)]
pub enum Event {
    /// The chain's current height.
    Height(u64),
    /// The query for the height failed.
    HeightFailed,
    /// The logs of the block asked for.
    Logs(Vec<RawLog>),
    /// The query for the logs failed.
    LogsFailed,
    /// The time of the block asked for, in seconds since the epoch.
    Timestamp(u64),
    /// The chain knows no such block.
    TimestampMissing,
    /// The query for the block failed.
    TimestampFailed,
    /// The wait is over.
    Woke,
}

/// What the machine waits for, and the driver has to do.
#[derive(Clone, Copy, Debug, PartialEq, Eq, Structural)]
pub enum Action {
    /// Ask the chain for its current height.
    QueryHeight,
    /// Ask the chain for the transfer events of one block.
    FetchLogs { block: u64 },
    /// Ask the chain for the time of one block.
    LookupTimestamp { block: u64 },
    /// Wait.
    Sleep { secs: u64 },
    /// Stop.
    Halt,
}

/// What the machine reports of a step.
#[derive(Debug, PartialEq, Eq)]
pub enum Notice {
    /// The height could not be had at the start.
    StartupFailed,
    /// The height could not be had; the query is made again after a wait.
    HeightFailed,
    /// The logs of `block` could not be had at the attempt number `attempt`.
    FetchFailed { block: u64, attempt: u32 },
    /// The logs of `block` were asked for as often as is allowed; the block
    /// is skipped.
    GaveUp { block: u64 },
    /// A log is no transfer event; it is skipped.
    DecodeFailed { error: DecodeError },
    /// A log names no block; it is skipped.
    MissingBlockNumber,
    /// The chain knows no block of this number; the log is skipped.
    BlockNotFound { block: u64 },
    /// The time of this block could not be had; the log is skipped.
    TimestampFailed { block: u64 },
    /// A log names no transaction; it is skipped.
    MissingTransactionHash,
    /// A transfer was taken in. `inserted` says whether its row is new.
    Transfer {
        tx_hash: String,
        block_number: i64,
        is_in: bool,
        is_out: bool,
        value: String,
        inserted: bool,
    },
    /// The row of cumulative flows is absent; the transfer was not added
    /// to it.
    AggregateMissing,
}

/// What a notice holds.
pub enum NoticeView {
    StartupFailed,
    HeightFailed,
    FetchFailed { block: u64, attempt: u32 },
    GaveUp { block: u64 },
    DecodeFailed { error: DecodeError },
    MissingBlockNumber,
    BlockNotFound { block: u64 },
    TimestampFailed { block: u64 },
    MissingTransactionHash,
    Transfer {
        tx_hash: Seq<char>,
        block_number: i64,
        is_in: bool,
        is_out: bool,
        value: Seq<char>,
        inserted: bool,
    },
    AggregateMissing,
}

impl View for Notice {
    type V = NoticeView;

    open spec fn view(&self) -> NoticeView {
        match *self {
            Notice::StartupFailed => NoticeView::StartupFailed,
            Notice::HeightFailed => NoticeView::HeightFailed,
            Notice::FetchFailed { block, attempt } => NoticeView::FetchFailed { block, attempt },
            Notice::GaveUp { block } => NoticeView::GaveUp { block },
            Notice::DecodeFailed { error } => NoticeView::DecodeFailed { error },
            Notice::MissingBlockNumber => NoticeView::MissingBlockNumber,
            Notice::BlockNotFound { block } => NoticeView::BlockNotFound { block },
            Notice::TimestampFailed { block } => NoticeView::TimestampFailed { block },
            Notice::MissingTransactionHash => NoticeView::MissingTransactionHash,
            Notice::Transfer { tx_hash, block_number, is_in, is_out, value, inserted } => {
                NoticeView::Transfer {
                    tx_hash: tx_hash@,
                    block_number,
                    is_in,
                    is_out,
                    value: value@,
                    inserted,
                }
            },
            Notice::AggregateMissing => NoticeView::AggregateMissing,
        }
    }
}

/// What a list of notices holds.
pub open spec fn notice_views(notices: Seq<Notice>) -> Seq<NoticeView> {
    Seq::new(notices.len(), |i: int| notices[i]@)
}

/// What the machine holds.
pub struct IndexerView {
    pub phase: Phase,
    /// The block cursor: the next block to scan.
    pub cursor: u64,
    /// The last block of the range that is being scanned.
    pub to_block: u64,
    /// The block that is being scanned.
    pub block: u64,
    /// How often the query for the logs of `block` has failed.
    pub attempts: u32,
    /// The logs of `block`.
    pub logs: Seq<RawLog>,
    /// The first of `logs` that is not done with.
    pub next: nat,
    pub ledger: LedgerView,
    pub watchlist: Seq<String>,
}

/// The phases in which a range is being scanned.
pub open spec fn scanning(phase: Phase) -> bool {
    phase == Phase::FetchingLogs || phase == Phase::LogsRetryWait || phase
        == Phase::FetchingTimestamp
}

/// What holds of every machine.
pub open spec fn well_formed(s: IndexerView) -> bool {
    &&& s.next <= s.logs.len()
    &&& s.attempts <= MAX_FETCH_ATTEMPTS
    &&& s.phase == Phase::FetchingLogs ==> s.attempts < MAX_FETCH_ATTEMPTS
    &&& s.phase == Phase::LogsRetryWait ==> s.attempts >= 1
    &&& s.phase == Phase::FetchingTimestamp ==> s.next < s.logs.len() && ready(
        s.logs[s.next as int],
    )
    &&& scanning(s.phase) ==> s.cursor <= s.block <= s.to_block < u64::MAX
    &&& s.phase == Phase::Idle ==> s.cursor == 0
}

/// An event that the machine takes: a height below the largest number
/// that a block can have, so that the cursor can pass it.
pub open spec fn acceptable(event: Event) -> bool {
    event matches Event::Height(h) ==> h < u64::MAX
}

/// A log that waits for the time of its block: a transfer event that names
/// its block.
pub open spec fn ready(log: RawLog) -> bool {
    decode_error(log) is None && log.block_number is Some
}

/// Why a log that is not ready is skipped.
pub open spec fn skip_notice(log: RawLog) -> NoticeView {
    match decode_error(log) {
        Some(error) => NoticeView::DecodeFailed { error },
        None => NoticeView::MissingBlockNumber,
    }
}

/// The first log at or after `from` that is ready; the number of logs where
/// there is none.
pub open spec fn seek_index(logs: Seq<RawLog>, from: nat) -> nat
    decreases logs.len() - from,
{
    if from >= logs.len() {
        logs.len()
    } else if ready(logs[from as int]) {
        from
    } else {
        seek_index(logs, from + 1)
    }
}

/// The notices of the logs skipped from `from` to the first that is ready.
pub open spec fn seek_notices(logs: Seq<RawLog>, from: nat) -> Seq<NoticeView>
    decreases logs.len() - from,
{
    if from >= logs.len() || ready(logs[from as int]) {
        Seq::empty()
    } else {
        seq![skip_notice(logs[from as int])] + seek_notices(logs, from + 1)
    }
}

/// The row that is stored for the transfer in `log`, whose block has the
/// time `timestamp`.
pub open spec fn transfer_row(log: RawLog, timestamp: u64) -> TransferRow {
    TransferRow {
        tx_hash: hex_text(log.transaction_hash->0@),
        block_number: log.block_number->0 as i64,
        from_address: hex_text(log_sender(log)),
        to_address: hex_text(log_recipient(log)),
        value: decimal_text(log_value(log)),
        timestamp: timestamp as i64,
    }
}

/// The ledger after the transfer in `log` was taken in: its row is stored
/// unless its hash is there already, and its value is added to the
/// cumulative flows on each side that is watched. A log that names no
/// transaction changes nothing, and a transfer between two addresses that
/// are not watched leaves the cumulative flows alone.
pub open spec fn ledger_after(
    ledger: LedgerView,
    watchlist: Seq<String>,
    log: RawLog,
    timestamp: u64,
) -> LedgerView {
    if log.transaction_hash is None {
        ledger
    } else {
        let row = transfer_row(log, timestamp);
        let is_in = is_watched(row.to_address, watchlist);
        let is_out = is_watched(row.from_address, watchlist);
        LedgerView {
            transfers: insert_row(ledger.transfers, row),
            net_flows: match ledger.net_flows {
                Some(flows) if is_in || is_out => Some(
                    apply_transfer(flows, row.value, row.timestamp, is_in, is_out),
                ),
                _ => ledger.net_flows,
            },
        }
    }
}

/// The notices of taking the transfer in `log` in.
pub open spec fn record_notices(
    ledger: LedgerView,
    watchlist: Seq<String>,
    log: RawLog,
    timestamp: u64,
) -> Seq<NoticeView> {
    if log.transaction_hash is None {
        seq![NoticeView::MissingTransactionHash]
    } else {
        let row = transfer_row(log, timestamp);
        let is_in = is_watched(row.to_address, watchlist);
        let is_out = is_watched(row.from_address, watchlist);
        let taken = NoticeView::Transfer {
            tx_hash: row.tx_hash,
            block_number: row.block_number,
            is_in,
            is_out,
            value: row.value,
            inserted: !has_hash(ledger.transfers, row.tx_hash),
        };
        if (is_in || is_out) && ledger.net_flows is None {
            seq![taken, NoticeView::AggregateMissing]
        } else {
            seq![taken]
        }
    }
}

/// The machine after the current block is done with: at the next block of
/// the range, or, after the last one, asleep with the cursor behind the
/// range.
pub open spec fn finish_block(s: IndexerView) -> IndexerView {
    if s.block < s.to_block {
        IndexerView {
            phase: Phase::FetchingLogs,
            block: (s.block + 1) as u64,
            attempts: 0,
            logs: Seq::empty(),
            next: 0,
            ..s
        }
    } else {
        IndexerView {
            phase: Phase::Sleeping,
            cursor: (s.to_block + 1) as u64,
            logs: Seq::empty(),
            next: 0,
            ..s
        }
    }
}

/// The machine after the logs before `from` are done with: waiting for the
/// time of the next log that is ready, or done with the block.
pub open spec fn resume_scan(s: IndexerView, from: nat) -> IndexerView {
    let k = seek_index(s.logs, from);
    if k < s.logs.len() {
        IndexerView { phase: Phase::FetchingTimestamp, next: k, ..s }
    } else {
        finish_block(s)
    }
}

/// The machine after `event`. An event that the machine does not wait for
/// changes nothing.
pub open spec fn step_state(s: IndexerView, event: Event) -> IndexerView {
    match (s.phase, event) {
        (Phase::Idle, Event::Height(h)) => IndexerView {
            phase: Phase::FetchingHeight,
            cursor: h,
            ..s
        },
        (Phase::Idle, Event::HeightFailed) => IndexerView { phase: Phase::Halted, ..s },
        (Phase::FetchingHeight, Event::Height(h)) => if h >= s.cursor {
            IndexerView {
                phase: Phase::FetchingLogs,
                to_block: h,
                block: s.cursor,
                attempts: 0,
                logs: Seq::empty(),
                next: 0,
                ..s
            }
        } else {
            IndexerView { phase: Phase::Sleeping, ..s }
        },
        (Phase::FetchingHeight, Event::HeightFailed) => IndexerView {
            phase: Phase::HeightRetryWait,
            ..s
        },
        (Phase::HeightRetryWait, Event::Woke) => IndexerView { phase: Phase::FetchingHeight, ..s },
        (Phase::FetchingLogs, Event::Logs(logs)) => resume_scan(
            IndexerView { logs: logs@, next: 0, ..s },
            0,
        ),
        (Phase::FetchingLogs, Event::LogsFailed) => IndexerView {
            phase: Phase::LogsRetryWait,
            attempts: (s.attempts + 1) as u32,
            ..s
        },
        (Phase::LogsRetryWait, Event::Woke) => if s.attempts >= MAX_FETCH_ATTEMPTS {
            finish_block(s)
        } else {
            IndexerView { phase: Phase::FetchingLogs, ..s }
        },
        (Phase::FetchingTimestamp, Event::Timestamp(t)) => resume_scan(
            IndexerView {
                ledger: ledger_after(s.ledger, s.watchlist, s.logs[s.next as int], t),
                ..s
            },
            s.next + 1,
        ),
        (Phase::FetchingTimestamp, Event::TimestampMissing) => resume_scan(s, s.next + 1),
        (Phase::FetchingTimestamp, Event::TimestampFailed) => resume_scan(s, s.next + 1),
        (Phase::Sleeping, Event::Woke) => IndexerView { phase: Phase::FetchingHeight, ..s },
        _ => s,
    }
}

/// What the machine reports of `event`.
pub open spec fn step_notices(s: IndexerView, event: Event) -> Seq<NoticeView> {
    match (s.phase, event) {
        (Phase::Idle, Event::HeightFailed) => seq![NoticeView::StartupFailed],
        (Phase::FetchingHeight, Event::HeightFailed) => seq![NoticeView::HeightFailed],
        (Phase::FetchingLogs, Event::Logs(logs)) => seek_notices(logs@, 0),
        (Phase::FetchingLogs, Event::LogsFailed) => seq![
            NoticeView::FetchFailed { block: s.block, attempt: (s.attempts + 1) as u32 },
        ],
        (Phase::LogsRetryWait, Event::Woke) => if s.attempts >= MAX_FETCH_ATTEMPTS {
            seq![NoticeView::GaveUp { block: s.block }]
        } else {
            Seq::empty()
        },
        (Phase::FetchingTimestamp, Event::Timestamp(t)) => record_notices(
            s.ledger,
            s.watchlist,
            s.logs[s.next as int],
            t,
        ) + seek_notices(s.logs, s.next + 1),
        (Phase::FetchingTimestamp, Event::TimestampMissing) => seq![
            NoticeView::BlockNotFound { block: s.logs[s.next as int].block_number->0 },
        ] + seek_notices(s.logs, s.next + 1),
        (Phase::FetchingTimestamp, Event::TimestampFailed) => seq![
            NoticeView::TimestampFailed { block: s.logs[s.next as int].block_number->0 },
        ] + seek_notices(s.logs, s.next + 1),
        _ => Seq::empty(),
    }
}

/// What the machine waits for.
pub open spec fn awaited_action(s: IndexerView) -> Action {
    match s.phase {
        Phase::Idle => Action::QueryHeight,
        Phase::FetchingHeight => Action::QueryHeight,
        Phase::HeightRetryWait => Action::Sleep { secs: RETRY_DELAY_SECS },
        Phase::FetchingLogs => Action::FetchLogs { block: s.block },
        Phase::LogsRetryWait => Action::Sleep { secs: RETRY_DELAY_SECS },
        Phase::FetchingTimestamp => Action::LookupTimestamp {
            block: s.logs[s.next as int].block_number->0,
        },
        Phase::Sleeping => Action::Sleep { secs: POLL_INTERVAL_SECS },
        Phase::Halted => Action::Halt,
    }
}

/// The machine before its first step.
pub open spec fn initial(ledger: LedgerView, watchlist: Seq<String>) -> IndexerView {
    IndexerView {
        phase: Phase::Idle,
        cursor: 0,
        to_block: 0,
        block: 0,
        attempts: 0,
        logs: Seq::empty(),
        next: 0,
        ledger,
        watchlist,
    }
}

/// The indexer: the ledger, the watch-list, the block cursor and the place
/// in the round.
pub struct Indexer {
    phase: Phase,
    cursor: u64,
    to_block: u64,
    block: u64,
    attempts: u32,
    logs: Vec<RawLog>,
    next: usize,
    ledger: Ledger,
    watchlist: Vec<String>,
}

impl View for Indexer {
    type V = IndexerView;

    closed spec fn view(&self) -> IndexerView {
        IndexerView {
            phase: self.phase,
            cursor: self.cursor,
            to_block: self.to_block,
            block: self.block,
            attempts: self.attempts,
            logs: self.logs@,
            next: self.next as nat,
            ledger: self.ledger@,
            watchlist: self.watchlist@,
        }
    }
}

/// Skips the logs from `from` on that are not ready, with a notice for
/// each, and returns the place of the first that is.
fn seek_ready(logs: &Vec<RawLog>, from: usize, notices: &mut Vec<Notice>) -> (k: usize)
    requires
        from <= logs.len(),
    ensures
        k == seek_index(logs@, from as nat),
        from <= k <= logs.len(),
        k < logs.len() ==> ready(logs@[k as int]),
        notice_views(final(notices)@) == notice_views(old(notices)@) + seek_notices(
            logs@,
            from as nat,
        ),
{
    let mut k: usize = from;
    while k < logs.len()
        invariant
            from <= k <= logs.len(),
            seek_index(logs@, k as nat) == seek_index(logs@, from as nat),
            notice_views(notices@) + seek_notices(logs@, k as nat) == notice_views(old(notices)@)
                + seek_notices(logs@, from as nat),
        decreases logs.len() - k,
    {
        let ghost before = notices@;
        let log: &RawLog = &logs[k];
        match decode_log(log) {
            Err(error) => {
                notices.push(Notice::DecodeFailed { error });
            },
            Ok(_) => {
                if log.block_number.is_some() {
                    assert(notice_views(notices@) + Seq::<NoticeView>::empty() =~= notice_views(
                        notices@,
                    ));
                    return k;
                }
                notices.push(Notice::MissingBlockNumber);
            },
        }
        proof {
            let skipped = skip_notice(logs@[k as int]);
            let rest = seek_notices(logs@, (k + 1) as nat);
            assert(notice_views(notices@) =~= notice_views(before).push(skipped));
            assert(notice_views(before).push(skipped) + rest =~= notice_views(before) + (
                seq![skipped] + rest
            ));
        }
        k += 1;
    }
    assert(notice_views(notices@) + Seq::<NoticeView>::empty() =~= notice_views(notices@));
    k
}

/// Takes the transfer in `log` into the ledger, now that the time of its
/// block is known.
fn record(
    ledger: &mut Ledger,
    watchlist: &Vec<String>,
    log: &RawLog,
    timestamp: u64,
    notices: &mut Vec<Notice>,
)
    requires
        ready(*log),
    ensures
        final(ledger)@ == ledger_after(old(ledger)@, watchlist@, *log, timestamp),
        notice_views(final(notices)@) == notice_views(old(notices)@) + record_notices(
            old(ledger)@,
            watchlist@,
            *log,
            timestamp,
        ),
{
    let ghost before = notices@;
    let hash: [u8; 32] = match log.transaction_hash {
        Some(hash) => hash,
        None => {
            notices.push(Notice::MissingTransactionHash);
            assert(notice_views(notices@) =~= notice_views(before) + seq![
                NoticeView::MissingTransactionHash,
            ]);
            return;
        },
    };
    // A log that is ready is a transfer event and names its block.
    if let Ok(transfer) = decode_log(log) {
        if let Some(number) = log.block_number {
            let tx_hash: String = to_hex(hash.as_slice());
            let block_number: i64 = #[verifier::truncate]
            (number as i64);
            let time: i64 = #[verifier::truncate]
            (timestamp as i64);
            let from_addr: String = to_hex(transfer.from.as_slice());
            let to_addr: String = to_hex(transfer.to.as_slice());
            let value: String = transfer.value.to_decimal_string();
            let inserted: bool = insert_raw_transfer(
                ledger,
                tx_hash.as_str(),
                block_number,
                from_addr.as_str(),
                to_addr.as_str(),
                value.as_str(),
                time,
            );
            let (is_in, is_out): (bool, bool) = classify(
                from_addr.as_str(),
                to_addr.as_str(),
                watchlist,
            );
            let mut missing: bool = false;
            if is_in || is_out {
                missing =
                update_net_flows_on_transfer(ledger, value.as_str(), time, is_in, is_out).is_err();
            }
            let taken = Notice::Transfer { tx_hash, block_number, is_in, is_out, value, inserted };
            let ghost taken_view = taken@;
            notices.push(taken);
            if missing {
                notices.push(Notice::AggregateMissing);
                assert(notice_views(notices@) =~= notice_views(before) + seq![
                    taken_view,
                    NoticeView::AggregateMissing,
                ]);
            } else {
                assert(notice_views(notices@) =~= notice_views(before) + seq![taken_view]);
            }
        }
    }
}

impl Indexer {
    #[verifier::type_invariant]
    spec fn inv(&self) -> bool {
        well_formed(self@)
    }

    /// A machine at its start, with the ledger and the watch-list it is to
    /// work on.
    pub fn new(ledger: Ledger, watchlist: Vec<String>) -> (r: Indexer)
        ensures
            r@ == initial(ledger@, watchlist@),
            well_formed(r@),
    {
        Indexer {
            phase: Phase::Idle,
            cursor: 0,
            to_block: 0,
            block: 0,
            attempts: 0,
            logs: Vec::new(),
            next: 0,
            ledger,
            watchlist,
        }
    }

    /// Where the machine stands.
    pub fn phase(&self) -> (r: Phase)
        ensures
            r == self@.phase,
    {
        self.phase
    }

    /// The block cursor: the next block to scan.
    pub fn cursor(&self) -> (r: u64)
        ensures
            r == self@.cursor,
    {
        self.cursor
    }

    /// The ledger as it stands.
    pub fn ledger(&self) -> (r: &Ledger)
        ensures
            r@ == self@.ledger,
    {
        &self.ledger
    }

    /// Gives the ledger back.
    pub fn into_ledger(self) -> (r: Ledger)
        ensures
            r@ == self@.ledger,
    {
        self.ledger
    }

    /// What the machine waits for: the driver does it and hands the
    /// outcome to `step`.
    pub fn awaited(&self) -> (r: Action)
        ensures
            r == awaited_action(self@),
    {
        proof {
            use_type_invariant(self);
        }
        match self.phase {
            Phase::Idle => Action::QueryHeight,
            Phase::FetchingHeight => Action::QueryHeight,
            Phase::HeightRetryWait => Action::Sleep { secs: RETRY_DELAY_SECS },
            Phase::FetchingLogs => Action::FetchLogs { block: self.block },
            Phase::LogsRetryWait => Action::Sleep { secs: RETRY_DELAY_SECS },
            Phase::FetchingTimestamp => match self.logs[self.next].block_number {
                Some(block) => Action::LookupTimestamp { block },
                // A log whose time is awaited names its block.
                None => Action::Halt,
            },
            Phase::Sleeping => Action::Sleep { secs: POLL_INTERVAL_SECS },
            Phase::Halted => Action::Halt,
        }
    }

    /// Takes an event and moves on. Returns the machine after the event and
    /// what it has to report.
    pub fn step(self, event: Event) -> (r: (Indexer, Vec<Notice>))
        requires
            acceptable(event),
        ensures
            r.0@ == step_state(self@, event),
            notice_views(r.1@) == step_notices(self@, event),
            well_formed(r.0@),
    {
        proof {
            use_type_invariant(&self);
        }
        let ghost old_view = self@;
        let Indexer {
            mut phase,
            mut cursor,
            mut to_block,
            mut block,
            mut attempts,
            mut logs,
            mut next,
            mut ledger,
            watchlist,
        } = self;
        let mut notices: Vec<Notice> = Vec::new();
        let mut resume: bool = false;
        let held: usize = logs.len();
        match phase {
            Phase::Idle => match event {
                Event::Height(h) => {
                    cursor = h;
                    phase = Phase::FetchingHeight;
                },
                Event::HeightFailed => {
                    notices.push(Notice::StartupFailed);
                    phase = Phase::Halted;
                },
                _ => {},
            },
            Phase::FetchingHeight => match event {
                Event::Height(h) => {
                    if h >= cursor {
                        to_block = h;
                        block = cursor;
                        attempts = 0;
                        logs = Vec::new();
                        next = 0;
                        phase = Phase::FetchingLogs;
                    } else {
                        phase = Phase::Sleeping;
                    }
                },
                Event::HeightFailed => {
                    notices.push(Notice::HeightFailed);
                    phase = Phase::HeightRetryWait;
                },
                _ => {},
            },
            Phase::HeightRetryWait => match event {
                Event::Woke => {
                    phase = Phase::FetchingHeight;
                },
                _ => {},
            },
            Phase::FetchingLogs => match event {
                Event::Logs(fetched) => {
                    logs = fetched;
                    next = 0;
                    resume = true;
                },
                Event::LogsFailed => {
                    attempts = attempts + 1;
                    notices.push(Notice::FetchFailed { block, attempt: attempts });
                    phase = Phase::LogsRetryWait;
                },
                _ => {},
            },
            Phase::LogsRetryWait => match event {
                Event::Woke => {
                    if attempts >= MAX_FETCH_ATTEMPTS {
                        notices.push(Notice::GaveUp { block });
                        next = held;
                        resume = true;
                    } else {
                        phase = Phase::FetchingLogs;
                    }
                },
                _ => {},
            },
            Phase::FetchingTimestamp => match event {
                Event::Timestamp(t) => {
                    record(&mut ledger, &watchlist, &logs[next], t, &mut notices);
                    next = next + 1;
                    resume = true;
                },
                Event::TimestampMissing => {
                    if let Some(number) = logs[next].block_number {
                        notices.push(Notice::BlockNotFound { block: number });
                    }
                    next = next + 1;
                    resume = true;
                },
                Event::TimestampFailed => {
                    if let Some(number) = logs[next].block_number {
                        notices.push(Notice::TimestampFailed { block: number });
                    }
                    next = next + 1;
                    resume = true;
                },
                _ => {},
            },
            Phase::Sleeping => match event {
                Event::Woke => {
                    phase = Phase::FetchingHeight;
                },
                _ => {},
            },
            Phase::Halted => {},
        }
        if resume {
            let k: usize = seek_ready(&logs, next, &mut notices);
            if k < logs.len() {
                next = k;
                phase = Phase::FetchingTimestamp;
            } else {
                logs = Vec::new();
                next = 0;
                if block < to_block {
                    block = block + 1;
                    attempts = 0;
                    phase = Phase::FetchingLogs;
                } else {
                    cursor = to_block + 1;
                    phase = Phase::Sleeping;
                }
            }
        }
        let after = Indexer {
            phase,
            cursor,
            to_block,
            block,
            attempts,
            logs,
            next,
            ledger,
            watchlist,
        };
        proof {
            assert(after@.logs =~= step_state(old_view, event).logs);
            assert(notice_views(notices@) =~= step_notices(old_view, event));
        }
        (after, notices)
    }
}

/// The machine after the query for the logs has failed `n` more times,
/// each failure followed by its wait.
pub open spec fn after_failures(s: IndexerView, n: nat) -> IndexerView
    decreases n,
{
    if n == 0 {
        s
    } else {
        step_state(
            step_state(after_failures(s, (n - 1) as nat), Event::LogsFailed),
            Event::Woke,
        )
    }
}

/// Every step keeps what holds of every machine, and never moves the block
/// cursor back. While a range is scanned the cursor and the range stand
/// still and the block never goes back; the scan ends at the last block of
/// the range only, and leaves the cursor right behind it.
pub proof fn lemma_step_keeps_order(s: IndexerView, event: Event)
    requires
        well_formed(s),
        acceptable(event),
    ensures
        well_formed(step_state(s, event)),
        step_state(s, event).cursor >= s.cursor,
        step_state(s, event).watchlist == s.watchlist,
        scanning(s.phase) && scanning(step_state(s, event).phase) ==> {
            &&& step_state(s, event).cursor == s.cursor
            &&& step_state(s, event).to_block == s.to_block
            &&& step_state(s, event).block == s.block || step_state(s, event).block == s.block
                + 1
        },
        scanning(s.phase) && !scanning(step_state(s, event).phase) ==> {
            &&& s.block == s.to_block
            &&& step_state(s, event).cursor == s.to_block + 1
            &&& step_state(s, event).phase == Phase::Sleeping
        },
{
    match (s.phase, event) {
        (Phase::FetchingLogs, Event::Logs(logs)) => {
            lemma_seek_index(logs@, 0);
        },
        (Phase::FetchingTimestamp, Event::Timestamp(t)) => {
            lemma_seek_index(s.logs, s.next + 1);
        },
        (Phase::FetchingTimestamp, Event::TimestampMissing) => {
            lemma_seek_index(s.logs, s.next + 1);
        },
        (Phase::FetchingTimestamp, Event::TimestampFailed) => {
            lemma_seek_index(s.logs, s.next + 1);
        },
        _ => {},
    }
}

proof fn lemma_seek_index(logs: Seq<RawLog>, from: nat)
    requires
        from <= logs.len(),
    ensures
        from <= seek_index(logs, from) <= logs.len(),
        seek_index(logs, from) < logs.len() ==> ready(logs[seek_index(logs, from) as int]),
    decreases logs.len() - from,
{
    if from < logs.len() && !ready(logs[from as int]) {
        lemma_seek_index(logs, from + 1);
    }
}

/// When every query for the logs of a block fails, the logs are asked for
/// `MAX_FETCH_ATTEMPTS` times and no more: after fewer failures the machine
/// asks for the logs of the same block again, and after the last one it
/// goes on as after a block without logs, with the ledger as it was.
pub proof fn lemma_retry_exhaustion(s: IndexerView, n: nat)
    requires
        well_formed(s),
        s.phase == Phase::FetchingLogs,
        s.attempts == 0,
        n <= MAX_FETCH_ATTEMPTS,
    ensures
        n < MAX_FETCH_ATTEMPTS ==> after_failures(s, n) == (IndexerView {
            attempts: n as u32,
            ..s
        }),
        n < MAX_FETCH_ATTEMPTS ==> awaited_action(after_failures(s, n)) == (Action::FetchLogs {
            block: s.block,
        }),
        n == MAX_FETCH_ATTEMPTS ==> after_failures(s, n) == finish_block(
            IndexerView { attempts: MAX_FETCH_ATTEMPTS, ..s },
        ),
        after_failures(s, n).ledger == s.ledger,
    decreases n,
{
    if n > 0 {
        lemma_retry_exhaustion(s, (n - 1) as nat);
    }
}

/// A transfer between two addresses that are not watched leaves the
/// cumulative flows as they were.
pub proof fn lemma_unwatched_leaves_flows(
    ledger: LedgerView,
    watchlist: Seq<String>,
    log: RawLog,
    timestamp: u64,
)
    requires
        !is_watched(hex_text(log_sender(log)), watchlist),
        !is_watched(hex_text(log_recipient(log)), watchlist),
    ensures
        ledger_after(ledger, watchlist, log, timestamp).net_flows == ledger.net_flows,
{
}

} // verus!
