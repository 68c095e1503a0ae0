//! The ledger: the transfers seen, one row for each transaction hash, and
//! the one row of cumulative flows.

use crate::amount::{amount_of, decimal_text, lemma_text_value, saturating_diff, Amount};
use vstd::prelude::*;
use vstd::string::StringExecFns;

verus! {

/// One transfer as it is stored.
#[derive(Debug, PartialEq, Eq)]
pub struct RawTransfer {
    /// The hash of the transaction, the key of the row.
    pub tx_hash: String,
    /// The block that holds the transfer.
    pub block_number: i64,
    /// The sender's address.
    pub from_address: String,
    /// The recipient's address.
    pub to_address: String,
    /// The value moved, as a decimal numeral.
    pub value: String,
    /// The time of the block, in seconds since the epoch.
    pub timestamp: i64,
}

/// What a stored transfer holds.
pub struct TransferRow {
    pub tx_hash: Seq<char>,
    pub block_number: i64,
    pub from_address: Seq<char>,
    pub to_address: Seq<char>,
    pub value: Seq<char>,
    pub timestamp: i64,
}

impl View for RawTransfer {
    type V = TransferRow;

    open spec fn view(&self) -> TransferRow {
        TransferRow {
            tx_hash: self.tx_hash@,
            block_number: self.block_number,
            from_address: self.from_address@,
            to_address: self.to_address@,
            value: self.value@,
            timestamp: self.timestamp,
        }
    }
}

/// The row of cumulative flows as it is stored: three decimal numerals and
/// the time of the last update.
#[derive(Debug, PartialEq, Eq)]
pub struct NetFlows {
    pub cumulative_in: String,
    pub cumulative_out: String,
    pub net_flow: String,
    pub last_updated: i64,
}

/// What the row of cumulative flows holds.
pub struct NetFlowsRow {
    pub cumulative_in: Seq<char>,
    pub cumulative_out: Seq<char>,
    pub net_flow: Seq<char>,
    pub last_updated: i64,
}

impl View for NetFlows {
    type V = NetFlowsRow;

    open spec fn view(&self) -> NetFlowsRow {
        NetFlowsRow {
            cumulative_in: self.cumulative_in@,
            cumulative_out: self.cumulative_out@,
            net_flow: self.net_flow@,
            last_updated: self.last_updated,
        }
    }
}

/// What a ledger holds: the transfers in the order in which they came, and
/// the row of cumulative flows once it has been seeded.
pub struct LedgerView {
    pub transfers: Seq<TransferRow>,
    pub net_flows: Option<NetFlowsRow>,
}

/// Why an operation on the ledger failed.
#[derive(Clone, Copy, Debug, PartialEq, Eq, Structural)]
pub enum LedgerError {
    /// The row of cumulative flows is absent.
    NotFound,
}

/// Some row has the hash `tx_hash`.
pub open spec fn has_hash(rows: Seq<TransferRow>, tx_hash: Seq<char>) -> bool {
    exists|i: int| 0 <= i < rows.len() && (#[trigger] rows[i]).tx_hash == tx_hash
}

/// No two rows have the same hash.
pub open spec fn unique_hashes(rows: Seq<TransferRow>) -> bool {
    forall|i: int, j: int|
        0 <= i < j < rows.len() ==> (#[trigger] rows[i]).tx_hash != (#[trigger] rows[j]).tx_hash
}

/// The rows after `row` was offered: unchanged where its hash is there
/// already, else with `row` at the end.
pub open spec fn insert_row(rows: Seq<TransferRow>, row: TransferRow) -> Seq<TransferRow> {
    if has_hash(rows, row.tx_hash) {
        rows
    } else {
        rows.push(row)
    }
}

/// The row of cumulative flows of a new ledger.
pub open spec fn zero_flows() -> NetFlowsRow {
    NetFlowsRow {
        cumulative_in: seq!['0'],
        cumulative_out: seq!['0'],
        net_flow: seq!['0'],
        last_updated: 0,
    }
}

/// The inflow after a transfer of `amount`.
pub open spec fn next_in(row: NetFlowsRow, amount: Seq<char>, is_in: bool) -> nat {
    amount_of(row.cumulative_in) + if is_in {
        amount_of(amount)
    } else {
        0
    }
}

/// The outflow after a transfer of `amount`.
pub open spec fn next_out(row: NetFlowsRow, amount: Seq<char>, is_out: bool) -> nat {
    amount_of(row.cumulative_out) + if is_out {
        amount_of(amount)
    } else {
        0
    }
}

/// The row of cumulative flows after a transfer: `amount` is added on each
/// side that is flagged, the net flow is the inflow less the outflow and
/// never below zero, and the three are written without leading zeros. A
/// stored or given text that is no decimal numeral counts as zero.
pub open spec fn apply_transfer(
    row: NetFlowsRow,
    amount: Seq<char>,
    timestamp: i64,
    is_in: bool,
    is_out: bool,
) -> NetFlowsRow {
    NetFlowsRow {
        cumulative_in: decimal_text(next_in(row, amount, is_in)),
        cumulative_out: decimal_text(next_out(row, amount, is_out)),
        net_flow: decimal_text(
            saturating_diff(next_in(row, amount, is_in), next_out(row, amount, is_out)),
        ),
        last_updated: timestamp,
    }
}

/// The ledger. In it no two transfers have the same transaction hash.
pub struct Ledger {
    transfers: Vec<RawTransfer>,
    net_flows: Option<NetFlows>,
}

impl View for Ledger {
    type V = LedgerView;

    closed spec fn view(&self) -> LedgerView {
        LedgerView {
            transfers: Seq::new(self.transfers@.len(), |i: int| self.transfers@[i]@),
            net_flows: match self.net_flows {
                Some(row) => Some(row@),
                None => None,
            },
        }
    }
}

impl Ledger {
    #[verifier::type_invariant]
    spec fn well_formed(&self) -> bool {
        unique_hashes(self@.transfers)
    }

    /// A ledger that holds nothing: no transfer, and no row of cumulative
    /// flows.
    pub fn new() -> (r: Ledger)
        ensures
            r@.transfers == Seq::<TransferRow>::empty(),
            r@.net_flows is None,
    {
        let r = Ledger { transfers: Vec::new(), net_flows: None };
        assert(r@.transfers =~= Seq::<TransferRow>::empty());
        r
    }

    /// How many transfers the ledger holds.
    pub fn transfer_count(&self) -> (n: usize)
        ensures
            n == self@.transfers.len(),
            unique_hashes(self@.transfers),
    {
        proof {
            use_type_invariant(self);
        }
        self.transfers.len()
    }

    /// The transfer with the hash `tx_hash`, if the ledger holds one.
    pub fn find_transfer(&self, tx_hash: &str) -> (r: Option<&RawTransfer>)
        ensures
            match r {
                Some(t) => t@.tx_hash == tx_hash@ && self@.transfers.contains(t@),
                None => !has_hash(self@.transfers, tx_hash@),
            },
    {
        let key: String = String::from_str(tx_hash);
        let mut i: usize = 0;
        while i < self.transfers.len()
            invariant
                i <= self.transfers.len(),
                key@ == tx_hash@,
                forall|j: int| 0 <= j < i ==> (#[trigger] self@.transfers[j]).tx_hash != tx_hash@,
            decreases self.transfers.len() - i,
        {
            if self.transfers[i].tx_hash == key {
                assert(self@.transfers[i as int] == self.transfers[i as int]@);
                return Some(&self.transfers[i]);
            }
            i += 1;
        }
        None
    }
}

/// Brings a ledger into use: seeds the row of cumulative flows with zeros
/// where it is absent, and changes nothing else. A second call changes
/// nothing.
pub fn init_db(ledger: &mut Ledger)
    ensures
        final(ledger)@.transfers == old(ledger)@.transfers,
        final(ledger)@.net_flows == match old(ledger)@.net_flows {
            Some(row) => Some(row),
            None => Some(zero_flows()),
        },
{
    proof {
        use_type_invariant(&*ledger);
    }
    if ledger.net_flows.is_none() {
        proof {
            reveal_strlit("0");
        }
        let row = NetFlows {
            cumulative_in: String::from_str("0"),
            cumulative_out: String::from_str("0"),
            net_flow: String::from_str("0"),
            last_updated: 0,
        };
        assert(row@.cumulative_in =~= seq!['0']);
        ledger.net_flows = Some(row);
    }
}

/// Writes the row of cumulative flows as given, whatever it was.
pub fn store_net_flows(
    ledger: &mut Ledger,
    cumulative_in: &str,
    cumulative_out: &str,
    net_flow: &str,
    last_updated: i64,
)
    ensures
        final(ledger)@.transfers == old(ledger)@.transfers,
        final(ledger)@.net_flows == Some(
            NetFlowsRow {
                cumulative_in: cumulative_in@,
                cumulative_out: cumulative_out@,
                net_flow: net_flow@,
                last_updated,
            },
        ),
{
    proof {
        use_type_invariant(&*ledger);
    }
    ledger.net_flows = Some(
        NetFlows {
            cumulative_in: String::from_str(cumulative_in),
            cumulative_out: String::from_str(cumulative_out),
            net_flow: String::from_str(net_flow),
            last_updated,
        },
    );
}

/// Stores a transfer unless one with the same transaction hash is there
/// already: then nothing changes. Says whether the transfer was stored.
pub fn insert_raw_transfer(
    ledger: &mut Ledger,
    tx_hash: &str,
    block_number: i64,
    from_addr: &str,
    to_addr: &str,
    value_dec_str: &str,
    timestamp: i64,
) -> (inserted: bool)
    ensures
        final(ledger)@.transfers == insert_row(
            old(ledger)@.transfers,
            TransferRow {
                tx_hash: tx_hash@,
                block_number,
                from_address: from_addr@,
                to_address: to_addr@,
                value: value_dec_str@,
                timestamp,
            },
        ),
        final(ledger)@.net_flows == old(ledger)@.net_flows,
        inserted == !has_hash(old(ledger)@.transfers, tx_hash@),
        unique_hashes(final(ledger)@.transfers),
        has_hash(final(ledger)@.transfers, tx_hash@),
{
    proof {
        use_type_invariant(&*ledger);
    }
    let key: String = String::from_str(tx_hash);
    let mut i: usize = 0;
    while i < ledger.transfers.len()
        invariant
            i <= ledger.transfers.len(),
            key@ == tx_hash@,
            *ledger == *old(ledger),
            unique_hashes(ledger@.transfers),
            forall|j: int| 0 <= j < i ==> (#[trigger] ledger@.transfers[j]).tx_hash != tx_hash@,
        decreases ledger.transfers.len() - i,
    {
        if ledger.transfers[i].tx_hash == key {
            assert(ledger@.transfers[i as int].tx_hash == tx_hash@);
            return false;
        }
        i += 1;
    }
    let row = RawTransfer {
        tx_hash: key,
        block_number,
        from_address: String::from_str(from_addr),
        to_address: String::from_str(to_addr),
        value: String::from_str(value_dec_str),
        timestamp,
    };
    let ghost added = row@;
    let mut rows: Vec<RawTransfer> = Vec::new();
    core::mem::swap(&mut ledger.transfers, &mut rows);
    rows.push(row);
    proof {
        let offered = Seq::new(rows@.len(), |i: int| rows@[i]@);
        assert(offered =~= old(ledger)@.transfers.push(added));
        assert(unique_hashes(offered));
    }
    core::mem::swap(&mut ledger.transfers, &mut rows);
    proof {
        assert(ledger@.transfers =~= old(ledger)@.transfers.push(added));
        assert(ledger@.transfers[ledger@.transfers.len() - 1].tx_hash == tx_hash@);
    }
    true
}

/// Reads the row of cumulative flows: inflow, outflow, net flow and the
/// time of the last update.
pub fn read_net_flows(ledger: &Ledger) -> (r: Result<(String, String, String, i64), LedgerError>)
    ensures
        match r {
            Ok(row) => ledger@.net_flows == Some(
                NetFlowsRow {
                    cumulative_in: row.0@,
                    cumulative_out: row.1@,
                    net_flow: row.2@,
                    last_updated: row.3,
                },
            ),
            Err(e) => e == LedgerError::NotFound && ledger@.net_flows is None,
        },
{
    match &ledger.net_flows {
        Some(row) => Ok(
            (
                row.cumulative_in.clone(),
                row.cumulative_out.clone(),
                row.net_flow.clone(),
                row.last_updated,
            ),
        ),
        None => Err(LedgerError::NotFound),
    }
}

/// Brings a transfer into the row of cumulative flows, in one step: reads
/// the row, adds `amount` on each flagged side, and writes the row back
/// with the new net flow and `timestamp`. Fails, and changes nothing, where
/// the row is absent.
pub fn update_net_flows_on_transfer(
    ledger: &mut Ledger,
    amount: &str,
    timestamp: i64,
    is_in: bool,
    is_out: bool,
) -> (r: Result<(), LedgerError>)
    ensures
        final(ledger)@.transfers == old(ledger)@.transfers,
        match old(ledger)@.net_flows {
            Some(row) => r is Ok && final(ledger)@.net_flows == Some(
                apply_transfer(row, amount@, timestamp, is_in, is_out),
            ),
            None => r == Err::<(), LedgerError>(LedgerError::NotFound) && final(ledger)@.net_flows
                is None,
        },
{
    proof {
        use_type_invariant(&*ledger);
    }
    let (cur_in, cur_out): (Amount, Amount) = match &ledger.net_flows {
        Some(row) => (
            Amount::parse(row.cumulative_in.as_str()),
            Amount::parse(row.cumulative_out.as_str()),
        ),
        None => {
            return Err(LedgerError::NotFound);
        },
    };
    let amt: Amount = Amount::parse(amount);
    let new_in: Amount = if is_in {
        cur_in.add(&amt)
    } else {
        cur_in
    };
    let new_out: Amount = if is_out {
        cur_out.add(&amt)
    } else {
        cur_out
    };
    let new_net: Amount = new_in.saturating_sub(&new_out);
    ledger.net_flows = Some(
        NetFlows {
            cumulative_in: new_in.to_decimal_string(),
            cumulative_out: new_out.to_decimal_string(),
            net_flow: new_net.to_decimal_string(),
            last_updated: timestamp,
        },
    );
    Ok(())
}

/// Offering a transfer twice leaves the rows as the first offer left them,
/// whatever the second one holds beside the hash: there is a row with that
/// hash, its fields are those it had, and where no two rows shared a hash
/// before, none do after.
pub proof fn lemma_insert_idempotent(rows: Seq<TransferRow>, first: TransferRow, again: TransferRow)
    requires
        first.tx_hash == again.tx_hash,
    ensures
        insert_row(insert_row(rows, first), again) == insert_row(rows, first),
        has_hash(insert_row(rows, first), first.tx_hash),
        unique_hashes(rows) ==> unique_hashes(insert_row(rows, first)),
{
    let once = insert_row(rows, first);
    if !has_hash(rows, first.tx_hash) {
        assert(once[once.len() - 1].tx_hash == first.tx_hash);
    }
}

/// After a transfer was brought in, the net flow is the inflow less the
/// outflow, or zero where that is negative, and neither the inflow nor the
/// outflow has gone down.
pub proof fn lemma_aggregate_invariant(
    row: NetFlowsRow,
    amount: Seq<char>,
    timestamp: i64,
    is_in: bool,
    is_out: bool,
)
    ensures
        ({
            let next = apply_transfer(row, amount, timestamp, is_in, is_out);
            &&& amount_of(next.net_flow) == saturating_diff(
                amount_of(next.cumulative_in),
                amount_of(next.cumulative_out),
            )
            &&& amount_of(next.cumulative_in) == next_in(row, amount, is_in)
            &&& amount_of(next.cumulative_out) == next_out(row, amount, is_out)
            &&& amount_of(next.cumulative_in) >= amount_of(row.cumulative_in)
            &&& amount_of(next.cumulative_out) >= amount_of(row.cumulative_out)
        }),
{
    let new_in = next_in(row, amount, is_in);
    let new_out = next_out(row, amount, is_out);
    lemma_text_value(new_in);
    lemma_text_value(new_out);
    lemma_text_value(saturating_diff(new_in, new_out));
}

/// One transfer to bring into the cumulative flows.
pub struct FlowUpdate {
    pub amount: Seq<char>,
    pub timestamp: i64,
    pub is_in: bool,
    pub is_out: bool,
}

/// The row of cumulative flows after the transfers of `updates` were
/// brought in, one after the other.
pub open spec fn apply_all(row: NetFlowsRow, updates: Seq<FlowUpdate>) -> NetFlowsRow
    decreases updates.len(),
{
    if updates.len() == 0 {
        row
    } else {
        let last = updates.last();
        apply_transfer(
            apply_all(row, updates.drop_last()),
            last.amount,
            last.timestamp,
            last.is_in,
            last.is_out,
        )
    }
}

/// Whatever transfers are brought in, and from whatever row: after each of
/// them the net flow is the inflow less the outflow, or zero where that is
/// negative, and neither the inflow nor the outflow is below what it was
/// before that transfer.
pub proof fn lemma_aggregate_invariant_always(row: NetFlowsRow, updates: Seq<FlowUpdate>, n: int)
    requires
        0 < n <= updates.len(),
    ensures
        ({
            let before = apply_all(row, updates.take(n - 1));
            let after = apply_all(row, updates.take(n));
            &&& amount_of(after.net_flow) == saturating_diff(
                amount_of(after.cumulative_in),
                amount_of(after.cumulative_out),
            )
            &&& amount_of(after.cumulative_in) >= amount_of(before.cumulative_in)
            &&& amount_of(after.cumulative_out) >= amount_of(before.cumulative_out)
            &&& after.last_updated == updates[n - 1].timestamp
        }),
{
    let step = updates[n - 1];
    assert(updates.take(n).drop_last() =~= updates.take(n - 1));
    assert(updates.take(n).last() == step);
    lemma_aggregate_invariant(
        apply_all(row, updates.take(n - 1)),
        step.amount,
        step.timestamp,
        step.is_in,
        step.is_out,
    );
}

} // verus!
