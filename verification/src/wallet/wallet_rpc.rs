//! The wallet's remote procedure calls.
use vstd::prelude::*;

use crate::outside;
use crate::text;
use crate::wallet::address::{Address, AddressReading};
use crate::wallet::json::JsonValue;
use crate::wallet::reading;
use crate::wallet::reading::{read_address, read_number, read_text, read_truth, Reading};

verus! {

/// A transfer of money into or out of the wallet.
pub struct Transfer {
    pub address: Address,
    pub amount: u64,
    pub fee: u64,
    pub confirmations: u64,
    pub double_spend_seen: bool,
    pub height: u64,
    pub addr_index: u64,
    pub unlock_time: u64,
}

/// A transfer with its address as text.
pub struct TransferView {
    pub address: Seq<char>,
    pub amount: u64,
    pub fee: u64,
    pub confirmations: u64,
    pub double_spend_seen: bool,
    pub height: u64,
    pub addr_index: u64,
    pub unlock_time: u64,
}

impl View for Transfer {
    type V = TransferView;

    open spec fn view(&self) -> TransferView {
        TransferView {
            address: self.address@,
            amount: self.amount,
            fee: self.fee,
            confirmations: self.confirmations,
            double_spend_seen: self.double_spend_seen,
            height: self.height,
            addr_index: self.addr_index,
            unlock_time: self.unlock_time,
        }
    }
}

/// All transfers of one subaddress.
pub struct Transfers {
    pub addr_index: u64,
    pub transfers_in: Vec<Transfer>,
    pub transfers_out: Vec<Transfer>,
}

/// All transfers of one subaddress, with addresses as text.
#[verifier::ext_equal]
pub struct TransfersView {
    pub addr_index: u64,
    pub transfers_in: Seq<TransferView>,
    pub transfers_out: Seq<TransferView>,
}

/// The views of a list of transfers.
pub open spec fn transfer_views(list: Seq<Transfer>) -> Seq<TransferView> {
    list.map_values(|t: Transfer| t@)
}

impl View for Transfers {
    type V = TransfersView;

    open spec fn view(&self) -> TransfersView {
        TransfersView {
            addr_index: self.addr_index,
            transfers_in: transfer_views(self.transfers_in@),
            transfers_out: transfer_views(self.transfers_out@),
        }
    }
}

impl Clone for Transfer {
    fn clone(&self) -> (res: Self)
        ensures
            res@ == self@,
    {
        Transfer {
            address: self.address.clone(),
            amount: self.amount,
            fee: self.fee,
            confirmations: self.confirmations,
            double_spend_seen: self.double_spend_seen,
            height: self.height,
            addr_index: self.addr_index,
            unlock_time: self.unlock_time,
        }
    }
}

/// Copies a list of transfers.
fn clone_transfers(list: &Vec<Transfer>) -> (res: Vec<Transfer>)
    ensures
        transfer_views(res@) == transfer_views(list@),
{
    let mut res: Vec<Transfer> = Vec::new();
    let mut i: usize = 0;
    while i < list.len()
        invariant
            i <= list@.len(),
            res@.len() == i,
            forall|j: int| 0 <= j < i ==> (#[trigger] res@[j])@ == list@[j]@,
        decreases list@.len() - i,
    {
        res.push(list[i].clone());
        i += 1;
    }
    assert(transfer_views(res@) =~= transfer_views(list@));
    res
}

impl Clone for Transfers {
    fn clone(&self) -> (res: Self)
        ensures
            res@ == self@,
    {
        Transfers {
            addr_index: self.addr_index,
            transfers_in: clone_transfers(&self.transfers_in),
            transfers_out: clone_transfers(&self.transfers_out),
        }
    }
}

/// What can go wrong with a call of the wallet.
#[derive(Debug)]
pub enum WalletRPCError {
    InvalidPaymentId,
    InvalidSetDaemonReq,
    InvalidSetRefreshReq,
    MissingData,
    AddrError(monero::util::address::Error),
    ReqwestError(reqwest::Error),
}

/// The number of the subaddress that a transfer belongs to.
pub open spec fn subaddress_in(value: JsonValue) -> Reading<u64> {
    match value.member("subaddr_index"@) {
        Some(index) => reading::number_in(index, "minor"@),
        None => Reading::Missing,
    }
}

/// The transfer that `value` describes. The fields are looked at in this
/// order, and the first that is not found decides.
pub open spec fn transfer_in(value: JsonValue) -> Reading<TransferView> {
    let address = reading::address_in(value, "address"@);
    let amount = reading::number_in(value, "amount"@);
    let confirmations = reading::number_in(value, "confirmations"@);
    let double_spend_seen = reading::truth_in(value, "double_spend_seen"@);
    let height = reading::number_in(value, "height"@);
    let addr_index = subaddress_in(value);
    let unlock_time = reading::number_in(value, "unlock_time"@);
    let fee = reading::number_in(value, "fee"@);
    if address !is Found {
        address.gap()
    } else if amount !is Found {
        amount.gap()
    } else if confirmations !is Found {
        confirmations.gap()
    } else if double_spend_seen !is Found {
        double_spend_seen.gap()
    } else if height !is Found {
        height.gap()
    } else if addr_index !is Found {
        addr_index.gap()
    } else if unlock_time !is Found {
        unlock_time.gap()
    } else if fee !is Found {
        fee.gap()
    } else {
        Reading::Found(
            TransferView {
                address: address->Found_0,
                amount: amount->Found_0,
                fee: fee->Found_0,
                confirmations: confirmations->Found_0,
                double_spend_seen: double_spend_seen->Found_0,
                height: height->Found_0,
                addr_index: addr_index->Found_0,
                unlock_time: unlock_time->Found_0,
            },
        )
    }
}

/// Reads a transfer.
pub fn read_transfer(value: &JsonValue) -> (res: Reading<Transfer>)
    ensures
        res is Missing <==> transfer_in(*value) is Missing,
        res is Malformed <==> transfer_in(*value) is Malformed,
        res matches Reading::Found(t) ==> transfer_in(*value) == Reading::Found(t@),
{
    let address = match read_address(value, "address") {
        Reading::Found(address) => address,
        Reading::Missing => return Reading::Missing,
        Reading::Malformed => return Reading::Malformed,
    };
    let amount: u64 = match read_number(value, "amount") {
        Reading::Found(n) => n,
        Reading::Missing => return Reading::Missing,
        Reading::Malformed => return Reading::Malformed,
    };
    let confirmations: u64 = match read_number(value, "confirmations") {
        Reading::Found(n) => n,
        Reading::Missing => return Reading::Missing,
        Reading::Malformed => return Reading::Malformed,
    };
    let double_spend_seen: bool = match read_truth(value, "double_spend_seen") {
        Reading::Found(b) => b,
        Reading::Missing => return Reading::Missing,
        Reading::Malformed => return Reading::Malformed,
    };
    let height: u64 = match read_number(value, "height") {
        Reading::Found(n) => n,
        Reading::Missing => return Reading::Missing,
        Reading::Malformed => return Reading::Malformed,
    };
    let index = match value.get("subaddr_index") {
        Some(index) => index,
        None => return Reading::Missing,
    };
    let addr_index: u64 = match read_number(index, "minor") {
        Reading::Found(n) => n,
        Reading::Missing => return Reading::Missing,
        Reading::Malformed => return Reading::Malformed,
    };
    let unlock_time: u64 = match read_number(value, "unlock_time") {
        Reading::Found(n) => n,
        Reading::Missing => return Reading::Missing,
        Reading::Malformed => return Reading::Malformed,
    };
    let fee: u64 = match read_number(value, "fee") {
        Reading::Found(n) => n,
        Reading::Missing => return Reading::Missing,
        Reading::Malformed => return Reading::Malformed,
    };
    Reading::Found(
        Transfer {
            address,
            amount,
            fee,
            confirmations,
            double_spend_seen,
            height,
            addr_index,
            unlock_time,
        },
    )
}

/// The transfers that a list describes, in its order, without the entries
/// that lack a field.
pub open spec fn transfers_listed(list: Seq<JsonValue>) -> Seq<TransferView>
    decreases list.len(),
{
    if list.len() == 0 {
        seq![]
    } else {
        let before = transfers_listed(list.drop_last());
        match transfer_in(list.last()) {
            Reading::Found(t) => before.push(t),
            _ => before,
        }
    }
}

/// Whether no entry of a list holds a field of the wrong kind.
pub open spec fn transfers_well_formed(list: Seq<JsonValue>) -> bool {
    forall|i: int| 0 <= i < list.len() ==> !(#[trigger] transfer_in(list[i]) is Malformed)
}

/// Reads a list of transfers, unless a field is of the wrong kind.
fn read_transfers(list: &Vec<JsonValue>) -> (res: Option<Vec<Transfer>>)
    ensures
        res is Some <==> transfers_well_formed(list@),
        res matches Some(transfers) ==> transfer_views(transfers@) == transfers_listed(list@),
{
    let mut transfers: Vec<Transfer> = Vec::new();
    let mut i: usize = 0;
    while i < list.len()
        invariant
            i <= list@.len(),
            transfers_well_formed(list@.take(i as int)),
            transfer_views(transfers@) =~= transfers_listed(list@.take(i as int)),
        decreases list@.len() - i,
    {
        let ghost before = transfers@;
        assert(list@.take(i + 1).drop_last() =~= list@.take(i as int));
        match read_transfer(&list[i]) {
            Reading::Found(transfer) => {
                transfers.push(transfer);
                assert(transfer_views(transfers@) =~= transfer_views(before).push(transfer@));
            },
            Reading::Missing => {},
            Reading::Malformed => {
                assert(transfer_in(list@[i as int]) is Malformed);
                return None;
            },
        }
        assert forall|j: int| 0 <= j < i + 1 implies !(#[trigger] transfer_in(
            list@.take(i + 1)[j],
        ) is Malformed) by {
            if j < i {
                assert(list@.take(i + 1)[j] == list@.take(i as int)[j]);
            }
        }
        i += 1;
    }
    assert(list@.take(list@.len() as int) =~= list@);
    Some(transfers)
}

/// The wallet's answer, or nothing where the answer breaks the protocol: a
/// field is there and of the wrong kind.
pub type Answer<T> = Option<Result<T, WalletRPCError>>;

/// The incoming or outgoing transfers that a result lists under `name`; none
/// where there is no such list.
pub open spec fn listed_under(result: JsonValue, name: Seq<char>) -> Seq<JsonValue> {
    match reading::list_in(result, name) {
        Reading::Found(list) => list,
        _ => seq![],
    }
}

/// Whether the list under `name` can be read.
pub open spec fn side_well_formed(result: JsonValue, name: Seq<char>) -> bool {
    &&& !(reading::list_in(result, name) is Malformed)
    &&& transfers_well_formed(listed_under(result, name))
}

/// Reads the transfers listed under `name`.
fn read_side(result: &JsonValue, name: &str) -> (res: Option<Vec<Transfer>>)
    ensures
        res is Some <==> side_well_formed(*result, name@),
        res matches Some(transfers) ==> transfer_views(transfers@) == transfers_listed(
            listed_under(*result, name@),
        ),
{
    match result.get(name) {
        Some(field) => match field.as_array() {
            Some(list) => read_transfers(list),
            None => None,
        },
        None => {
            let none: Vec<Transfer> = Vec::new();
            assert(transfer_views(none@) =~= seq![]);
            Some(none)
        },
    }
}

/// Whether every incoming transfer belongs to a subaddress from 1 on. Only
/// then, and where the number fits the machine, is there a place to put it.
pub open spec fn incoming_placed(transfers: Seq<TransferView>) -> bool {
    forall|i: int|
        0 <= i < transfers.len() ==> 1 <= (#[trigger] transfers[i]).addr_index <= usize::MAX
}

/// Whether the number of every outgoing transfer's subaddress fits the machine.
pub open spec fn outgoing_placed(transfers: Seq<TransferView>) -> bool {
    forall|i: int| 0 <= i < transfers.len() ==> (#[trigger] transfers[i]).addr_index <= usize::MAX
}

/// The transfers of the subaddress `index`, in their order.
pub open spec fn transfers_of(transfers: Seq<TransferView>, index: int) -> Seq<TransferView> {
    transfers.filter(|t: TransferView| t.addr_index == index)
}

/// The transfers for each of the wanted subaddresses. The place `j` holds
/// the transfers of the subaddress `j + 1`.
pub open spec fn sorted_transfers(
    addr_indices: Seq<u64>,
    incoming: Seq<TransferView>,
    outgoing: Seq<TransferView>,
) -> Seq<TransfersView> {
    Seq::new(
        addr_indices.len(),
        |j: int|
            TransfersView {
                addr_index: addr_indices[j],
                transfers_in: transfers_of(incoming, j + 1),
                transfers_out: transfers_of(outgoing, j + 1),
            },
    )
}

/// Whether a result of `get_transfers` can be read.
pub open spec fn transfers_readable(result: JsonValue) -> bool {
    &&& side_well_formed(result, "in"@)
    &&& side_well_formed(result, "out"@)
    &&& incoming_placed(transfers_listed(listed_under(result, "in"@)))
    &&& outgoing_placed(transfers_listed(listed_under(result, "out"@)))
}

/// The views of the transfers of several subaddresses.
pub open spec fn all_views(list: Seq<Transfers>) -> Seq<TransfersView> {
    list.map_values(|t: Transfers| t@)
}

/// Puts every incoming transfer at its place behind those that are there,
/// unless one of them has none.
fn place_incoming(slots: &mut Vec<Transfers>, transfers: Vec<Transfer>) -> (placed: bool)
    ensures
        placed == incoming_placed(transfer_views(transfers@)),
        placed ==> final(slots)@.len() == old(slots)@.len(),
        placed ==> forall|j: int|
            0 <= j < old(slots)@.len() ==> (#[trigger] final(slots)@[j])@ == (TransfersView {
                transfers_in: old(slots)@[j]@.transfers_in + transfers_of(
                    transfer_views(transfers@),
                    j + 1,
                ),
                ..old(slots)@[j]@
            }),
{
    let ghost all = transfer_views(transfers@);
    for transfer in iter: transfers
        invariant
            all == transfer_views(iter.seq()),
            incoming_placed(all.take(iter.index())),
            slots@.len() == old(slots)@.len(),
            forall|j: int|
                0 <= j < slots@.len() ==> (#[trigger] slots@[j])@ == (TransfersView {
                    transfers_in: old(slots)@[j]@.transfers_in + transfers_of(
                        all.take(iter.index()),
                        j + 1,
                    ),
                    ..old(slots)@[j]@
                }),
    {
        let ghost before = slots@;
        let ghost k = iter.index();
        let ghost view = transfer@;
        assert(all[k] == view);
        assert(all.take(k + 1).drop_last() =~= all.take(k));
        if transfer.addr_index == 0 || transfer.addr_index > usize::MAX as u64 {
            assert(!incoming_placed(all)) by {
                assert(!(1 <= all[k].addr_index <= usize::MAX));
            }
            return false;
        }
        let place: usize = transfer.addr_index as usize - 1;
        if place < slots.len() {
            slots[place].transfers_in.push(transfer);
            assert(slots@[place as int]@.transfers_in =~= before[place as int]@.transfers_in.push(
                view,
            ));
        }
        proof {
            reveal(Seq::filter);
            assert forall|j: int| 0 <= j < slots@.len() implies (#[trigger] slots@[j])@ == (
            TransfersView {
                transfers_in: old(slots)@[j]@.transfers_in + transfers_of(all.take(k + 1), j + 1),
                ..old(slots)@[j]@
            }) by {
                assert(before[j]@.transfers_in == old(slots)@[j]@.transfers_in + transfers_of(
                    all.take(k),
                    j + 1,
                ));
                if j != place {
                    assert(slots@[j] == before[j]);
                }
                assert(slots@[j]@.transfers_in =~= old(slots)@[j]@.transfers_in + transfers_of(
                    all.take(k + 1),
                    j + 1,
                ));
            }
        }
    }
    assert(all.take(all.len() as int) =~= all);
    true
}

/// Puts every outgoing transfer at its place behind those that are there,
/// unless the number of one of them does not fit. Those of the subaddress 0
/// have no place and are left out.
fn place_outgoing(slots: &mut Vec<Transfers>, transfers: Vec<Transfer>) -> (placed: bool)
    ensures
        placed == outgoing_placed(transfer_views(transfers@)),
        placed ==> final(slots)@.len() == old(slots)@.len(),
        placed ==> forall|j: int|
            0 <= j < old(slots)@.len() ==> (#[trigger] final(slots)@[j])@ == (TransfersView {
                transfers_out: old(slots)@[j]@.transfers_out + transfers_of(
                    transfer_views(transfers@),
                    j + 1,
                ),
                ..old(slots)@[j]@
            }),
{
    let ghost all = transfer_views(transfers@);
    for transfer in iter: transfers
        invariant
            all == transfer_views(iter.seq()),
            outgoing_placed(all.take(iter.index())),
            slots@.len() == old(slots)@.len(),
            forall|j: int|
                0 <= j < slots@.len() ==> (#[trigger] slots@[j])@ == (TransfersView {
                    transfers_out: old(slots)@[j]@.transfers_out + transfers_of(
                        all.take(iter.index()),
                        j + 1,
                    ),
                    ..old(slots)@[j]@
                }),
    {
        let ghost before = slots@;
        let ghost k = iter.index();
        let ghost view = transfer@;
        assert(all[k] == view);
        assert(all.take(k + 1).drop_last() =~= all.take(k));
        if transfer.addr_index > usize::MAX as u64 {
            assert(!outgoing_placed(all)) by {
                assert(!(all[k].addr_index <= usize::MAX));
            }
            return false;
        }
        let index: usize = transfer.addr_index as usize;
        if index > 0 && index - 1 < slots.len() {
            slots[index - 1].transfers_out.push(transfer);
            assert(slots@[index - 1]@.transfers_out =~= before[index - 1]@.transfers_out.push(
                view,
            ));
        }
        proof {
            assert forall|j: int| 0 <= j < slots@.len() implies (#[trigger] slots@[j])@ == (
            TransfersView {
                transfers_out: old(slots)@[j]@.transfers_out + transfers_of(all.take(k + 1), j + 1),
                ..old(slots)@[j]@
            }) by {
                reveal(Seq::filter);
                assert(before[j]@.transfers_out == old(slots)@[j]@.transfers_out + transfers_of(
                    all.take(k),
                    j + 1,
                ));
                if j != index - 1 {
                    assert(slots@[j] == before[j]);
                }
                assert(slots@[j]@.transfers_out =~= old(slots)@[j]@.transfers_out + transfers_of(
                    all.take(k + 1),
                    j + 1,
                ));
            }
        }
    }
    assert(all.take(all.len() as int) =~= all);
    true
}

/// One empty place per subaddress.
fn empty_slots(addr_indices: &[u64]) -> (slots: Vec<Transfers>)
    ensures
        all_views(slots@) == sorted_transfers(addr_indices@, seq![], seq![]),
{
    let mut slots: Vec<Transfers> = Vec::new();
    let mut i: usize = 0;
    while i < addr_indices.len()
        invariant
            i <= addr_indices@.len(),
            all_views(slots@) =~= sorted_transfers(addr_indices@.take(i as int), seq![], seq![]),
        decreases addr_indices@.len() - i,
    {
        let ghost before = slots@;
        let slot = Transfers {
            addr_index: addr_indices[i],
            transfers_in: Vec::new(),
            transfers_out: Vec::new(),
        };
        slots.push(slot);
        proof {
            reveal(Seq::filter);
            assert(slot@ =~= sorted_transfers(addr_indices@, seq![], seq![])[i as int]);
            assert(all_views(slots@) =~= all_views(before).push(slot@));
            let grown = sorted_transfers(addr_indices@.take(i + 1), seq![], seq![]);
            assert(grown.drop_last() =~= all_views(before));
            assert(grown.last() == slot@);
            assert(all_views(slots@) =~= grown);
        }
        i += 1;
    }
    assert(addr_indices@.take(addr_indices@.len() as int) =~= addr_indices@);
    slots
}

/// `true` or `false`.
pub open spec fn truth_text(b: bool) -> Seq<char> {
    if b {
        "true"@
    } else {
        "false"@
    }
}

/// Writes `true` or `false`.
fn text_of_truth(b: bool) -> (res: &'static str)
    ensures
        res@ == truth_text(b),
{
    if b {
        "true"
    } else {
        "false"
    }
}

/// The numbers in decimal, one directly behind the other.
pub open spec fn run_together(numbers: Seq<u64>) -> Seq<char>
    decreases numbers.len(),
{
    if numbers.len() == 0 {
        seq![]
    } else {
        run_together(numbers.drop_last()) + text::decimal(numbers.last() as nat)
    }
}

/// The subaddresses as the requests name them: between square brackets, with
/// nothing between the numbers.
pub open spec fn addr_indices_text(addr_indices: Seq<u64>) -> Seq<char> {
    "["@ + run_together(addr_indices) + "]"@
}

/// Writes the subaddresses as the requests name them.
pub fn addr_indices_to_string(addr_indices: &[u64]) -> (res: String)
    ensures
        res@ == addr_indices_text(addr_indices@),
{
    let mut res: String = "[".to_owned();
    let mut i: usize = 0;
    assert(run_together(addr_indices@.take(0)) =~= seq![]);
    while i < addr_indices.len()
        invariant
            i <= addr_indices@.len(),
            res@ =~= "["@ + run_together(addr_indices@.take(i as int)),
        decreases addr_indices@.len() - i,
    {
        res.append(text::decimal_text(addr_indices[i]).as_str());
        assert(addr_indices@.take(i + 1).drop_last() =~= addr_indices@.take(i as int));
        i += 1;
    }
    res.append("]");
    assert(addr_indices@.take(addr_indices@.len() as int) =~= addr_indices@);
    res
}

/// What a subaddress holds.
pub struct SubaddressBalance {
    pub addr: Address,
    pub addr_index: u64,
    pub balance: u64,
}

/// What a subaddress holds, with its address as text.
pub struct SubaddressBalanceView {
    pub addr: Seq<char>,
    pub addr_index: u64,
    pub balance: u64,
}

impl View for SubaddressBalance {
    type V = SubaddressBalanceView;

    open spec fn view(&self) -> SubaddressBalanceView {
        SubaddressBalanceView {
            addr: self.addr@,
            addr_index: self.addr_index,
            balance: self.balance,
        }
    }
}

/// What the wallet holds.
pub struct WalletBalance {
    pub balance: u64,
    pub per_subaddress: Vec<SubaddressBalance>,
}

/// What the wallet holds, with addresses as text.
#[verifier::ext_equal]
pub struct WalletBalanceView {
    pub balance: u64,
    pub per_subaddress: Seq<SubaddressBalanceView>,
}

impl View for WalletBalance {
    type V = WalletBalanceView;

    open spec fn view(&self) -> WalletBalanceView {
        WalletBalanceView {
            balance: self.balance,
            per_subaddress: self.per_subaddress@.map_values(|b: SubaddressBalance| b@),
        }
    }
}

/// The balance of a subaddress that `value` describes, with the amount in the
/// field `amount`.
pub open spec fn subaddress_balance_in(value: JsonValue, amount: Seq<char>) -> Reading<
    SubaddressBalanceView,
> {
    let addr = reading::address_in(value, "address"@);
    let addr_index = reading::number_in(value, "address_index"@);
    let balance = reading::number_in(value, amount);
    if addr !is Found {
        addr.gap()
    } else if addr_index !is Found {
        addr_index.gap()
    } else if balance !is Found {
        balance.gap()
    } else {
        Reading::Found(
            SubaddressBalanceView {
                addr: addr->Found_0,
                addr_index: addr_index->Found_0,
                balance: balance->Found_0,
            },
        )
    }
}

/// Reads the balance of a subaddress.
fn read_subaddress_balance(value: &JsonValue, amount: &str) -> (res: Reading<SubaddressBalance>)
    ensures
        res is Missing <==> subaddress_balance_in(*value, amount@) is Missing,
        res is Malformed <==> subaddress_balance_in(*value, amount@) is Malformed,
        res matches Reading::Found(b) ==> subaddress_balance_in(*value, amount@) == Reading::Found(
            b@,
        ),
{
    let addr = match read_address(value, "address") {
        Reading::Found(addr) => addr,
        Reading::Missing => return Reading::Missing,
        Reading::Malformed => return Reading::Malformed,
    };
    let addr_index: u64 = match read_number(value, "address_index") {
        Reading::Found(n) => n,
        Reading::Missing => return Reading::Missing,
        Reading::Malformed => return Reading::Malformed,
    };
    let balance: u64 = match read_number(value, amount) {
        Reading::Found(n) => n,
        Reading::Missing => return Reading::Missing,
        Reading::Malformed => return Reading::Malformed,
    };
    Reading::Found(SubaddressBalance { addr, addr_index, balance })
}

/// The balances that a list describes: malformed where one of them is, missing
/// where one of them lacks a field.
pub open spec fn balances_listed(list: Seq<JsonValue>, amount: Seq<char>) -> Reading<
    Seq<SubaddressBalanceView>,
> {
    if exists|i: int|
        0 <= i < list.len() && #[trigger] subaddress_balance_in(list[i], amount) is Malformed {
        Reading::Malformed
    } else if exists|i: int|
        0 <= i < list.len() && #[trigger] subaddress_balance_in(list[i], amount) is Missing {
        Reading::Missing
    } else {
        Reading::Found(list.map_values(|v: JsonValue| subaddress_balance_in(v, amount)->Found_0))
    }
}

/// Reads a list of balances.
fn read_balances(list: &Vec<JsonValue>, amount: &str) -> (res: Reading<Vec<SubaddressBalance>>)
    ensures
        res is Missing <==> balances_listed(list@, amount@) is Missing,
        res is Malformed <==> balances_listed(list@, amount@) is Malformed,
        res matches Reading::Found(v) ==> balances_listed(list@, amount@) == Reading::Found(
            v@.map_values(|b: SubaddressBalance| b@),
        ),
{
    let mut balances: Vec<SubaddressBalance> = Vec::new();
    let mut complete: bool = true;
    let mut i: usize = 0;
    while i < list.len()
        invariant
            i <= list@.len(),
            forall|j: int|
                0 <= j < i ==> !(#[trigger] subaddress_balance_in(list@[j], amount@) is Malformed),
            complete <==> forall|j: int|
                0 <= j < i ==> !(#[trigger] subaddress_balance_in(list@[j], amount@) is Missing),
            complete ==> balances@.len() == i,
            complete ==> forall|j: int|
                0 <= j < i ==> #[trigger] subaddress_balance_in(list@[j], amount@)
                    == Reading::Found(balances@[j]@),
        decreases list@.len() - i,
    {
        match read_subaddress_balance(&list[i], amount) {
            Reading::Found(balance) => {
                balances.push(balance);
            },
            Reading::Missing => {
                assert(subaddress_balance_in(list@[i as int], amount@) is Missing);
                complete = false;
            },
            Reading::Malformed => {
                assert(subaddress_balance_in(list@[i as int], amount@) is Malformed);
                return Reading::Malformed;
            },
        }
        i += 1;
    }
    if complete {
        proof {
            let read = list@.map_values(
                |v: JsonValue| subaddress_balance_in(v, amount@)->Found_0,
            );
            let views = balances@.map_values(|b: SubaddressBalance| b@);
            assert forall|j: int| 0 <= j < list@.len() implies read[j] == views[j] by {
                assert(subaddress_balance_in(list@[j], amount@) == Reading::Found(balances@[j]@));
            }
            assert(read =~= views);
        }
        Reading::Found(balances)
    } else {
        Reading::Missing
    }
}

/// The balances in an answer, with the amounts in the fields `amount`.
pub open spec fn balance_in(response: JsonValue, amount: Seq<char>) -> Reading<WalletBalanceView> {
    match response.member("result"@) {
        None => Reading::Missing,
        Some(result) => match reading::list_in(result, "per_subaddress"@) {
            Reading::Missing => Reading::Missing,
            Reading::Malformed => Reading::Malformed,
            Reading::Found(list) => {
                let balances = balances_listed(list, amount);
                let total = reading::number_in(result, amount);
                if balances is Malformed {
                    Reading::Malformed
                } else if total !is Found {
                    total.gap()
                } else if balances !is Found {
                    balances.gap()
                } else {
                    Reading::Found(
                        WalletBalanceView {
                            balance: total->Found_0,
                            per_subaddress: balances->Found_0,
                        },
                    )
                }
            },
        },
    }
}

/// Reads the balances in an answer.
fn read_balance(response: &JsonValue, amount: &str) -> (res: Answer<WalletBalance>)
    ensures
        res is None <==> balance_in(*response, amount@) is Malformed,
        res matches Some(Err(err)) ==> err is MissingData && balance_in(
            *response,
            amount@,
        ) is Missing,
        res matches Some(Ok(b)) ==> balance_in(*response, amount@) == Reading::Found(b@),
{
    let result = match response.get("result") {
        Some(result) => result,
        None => return Some(Err(WalletRPCError::MissingData)),
    };
    let list = match result.get("per_subaddress") {
        Some(field) => match field.as_array() {
            Some(list) => list,
            None => return None,
        },
        None => return Some(Err(WalletRPCError::MissingData)),
    };
    let balances = read_balances(list, amount);
    if let Reading::Malformed = balances {
        return None;
    }
    let balance: u64 = match read_number(result, amount) {
        Reading::Found(n) => n,
        Reading::Missing => return Some(Err(WalletRPCError::MissingData)),
        Reading::Malformed => return None,
    };
    match balances {
        Reading::Found(per_subaddress) => Some(Ok(WalletBalance { balance, per_subaddress })),
        _ => Some(Err(WalletRPCError::MissingData)),
    }
}

/// A transfer that the wallet has sent.
pub struct TransferOut {
    pub amount: u64,
    pub fee: u64,
    pub tx_key: String,
}

/// The same, with its key as a sequence of characters.
pub struct TransferOutView {
    pub amount: u64,
    pub fee: u64,
    pub tx_key: Seq<char>,
}

impl View for TransferOut {
    type V = TransferOutView;

    open spec fn view(&self) -> TransferOutView {
        TransferOutView { amount: self.amount, fee: self.fee, tx_key: self.tx_key@ }
    }
}

impl TransferOut {
    /// What the receiver gets.
    pub fn amount(&self) -> (res: u64)
        ensures
            res == self.amount,
    {
        self.amount
    }

    /// What the network gets.
    pub fn fee(&self) -> (res: u64)
        ensures
            res == self.fee,
    {
        self.fee
    }

    /// What the sender pays.
    pub fn total(&self) -> (res: u64)
        requires
            self.amount + self.fee <= u64::MAX,
        ensures
            res == self.amount + self.fee,
    {
        self.amount + self.fee
    }
}

/// The sent transfer that an answer describes.
pub open spec fn sent_in(response: JsonValue) -> Reading<TransferOutView> {
    match response.member("result"@) {
        None => Reading::Missing,
        Some(result) => {
            let amount = reading::number_in(result, "amount"@);
            let fee = reading::number_in(result, "fee"@);
            let tx_key = reading::text_in(result, "tx_key"@);
            if amount !is Found {
                amount.gap()
            } else if fee !is Found {
                fee.gap()
            } else if tx_key !is Found {
                tx_key.gap()
            } else {
                Reading::Found(
                    TransferOutView {
                        amount: amount->Found_0,
                        fee: fee->Found_0,
                        tx_key: tx_key->Found_0,
                    },
                )
            }
        },
    }
}

/// The new subaddress that an answer describes: its address and its number.
pub open spec fn created_in(response: JsonValue) -> Reading<(Seq<char>, u64)> {
    match response.member("result"@) {
        None => Reading::Missing,
        Some(result) => {
            let addr = reading::address_in(result, "address"@);
            let index = reading::number_in(result, "address_index"@);
            if addr !is Found {
                addr.gap()
            } else if index !is Found {
                index.gap()
            } else {
                Reading::Found((addr->Found_0, index->Found_0))
            }
        },
    }
}

/// The value under `result` and `address` in an answer.
pub open spec fn address_field(response: JsonValue) -> Option<JsonValue> {
    match response.member("result"@) {
        Some(result) => result.member("address"@),
        None => None,
    }
}

/// The answer, where there is one.
pub open spec fn read(response: Option<&JsonValue>) -> Option<JsonValue> {
    match response {
        Some(response) => Some(*response),
        None => None,
    }
}

/// The wallet's own address, as one try to learn it gives it. Nothing is found
/// where there is no answer, where what stands for the address is no text, and
/// where the text is no address.
pub open spec fn own_address_in(response: Option<JsonValue>) -> Reading<Seq<char>> {
    match response {
        None => Reading::Missing,
        Some(response) => match address_field(response) {
            None => Reading::Malformed,
            Some(field) => match field.text() {
                None => Reading::Missing,
                Some(text) => if !crate::wallet::address::address_readable(text) {
                    Reading::Malformed
                } else {
                    match outside::address::address_text(text) {
                        Some(addr) => Reading::Found(addr),
                        None => Reading::Missing,
                    }
                },
            },
        },
    }
}

/// Where asking stands after some tries: how many of them were made, and what
/// the last of them gave. Only a try that finds nothing is followed by another.
pub open spec fn asked(tries: Seq<Option<JsonValue>>) -> (nat, Reading<Seq<char>>)
    decreases tries.len(),
{
    if tries.len() == 0 {
        (0, Reading::Missing)
    } else {
        match own_address_in(tries[0]) {
            Reading::Missing => {
                let rest = asked(tries.drop_first());
                (rest.0 + 1, rest.1)
            },
            found => (1, found),
        }
    }
}

/// Whether none of the first `n` tries finds anything.
pub open spec fn nothing_found(tries: Seq<Option<JsonValue>>, n: int) -> bool {
    forall|i: int| 0 <= i < n ==> own_address_in(#[trigger] tries[i]) is Missing
}

/// The wallet is asked until it tells its address and no longer: it is asked on
/// while nothing is found, and the first try that finds something is the last
/// and gives the result.
pub proof fn asked_until_it_answers(tries: Seq<Option<JsonValue>>, n: int)
    requires
        0 <= n <= tries.len(),
    ensures
        nothing_found(tries, n) && n == tries.len() ==> asked(tries) == (
            tries.len(),
            Reading::<Seq<char>>::Missing,
        ),
        nothing_found(tries, n) && n < tries.len() && !(own_address_in(tries[n]) is Missing)
            ==> asked(tries) == ((n + 1) as nat, own_address_in(tries[n])),
    decreases n,
{
    if n > 0 && nothing_found(tries, n) {
        let rest = tries.drop_first();
        assert(own_address_in(tries[0]) is Missing);
        assert forall|i: int| 0 <= i < n - 1 implies own_address_in(
            #[trigger] rest[i],
        ) is Missing by {
            assert(rest[i] == tries[i + 1]);
        }
        asked_until_it_answers(rest, n - 1);
    }
}

/// How to reach the wallet.
pub struct WalletRPC {
    /// Where requests are sent.
    pub wallet_daemon_url: String,
    /// Milliseconds that a connection may take to be made.
    pub connect_timeout: u64,
    /// Milliseconds that a request may take.
    pub timeout: u64,
    /// The same, for requests that take long.
    pub long_connect_timeout: u64,
    pub long_timeout: u64,
}

impl WalletRPC {
    /// A wallet that answers below `wallet_daemon_url`. Without timeouts of
    /// the caller's own, requests get 3.5 seconds, and long ones 45.
    pub fn new(
        wallet_daemon_url: String,
        connection_timeout: Option<u64>,
        send_timeout: Option<u64>,
    ) -> (res: Self)
        ensures
            res.wallet_daemon_url@ == wallet_daemon_url@ + "/json_rpc"@,
            res.connect_timeout == (if connection_timeout is Some {
                connection_timeout->0
            } else {
                3500
            }),
            res.timeout == (if send_timeout is Some {
                send_timeout->0
            } else {
                3500
            }),
            res.long_connect_timeout == (if connection_timeout is Some {
                connection_timeout->0
            } else {
                45_000
            }),
            res.long_timeout == (if send_timeout is Some {
                send_timeout->0
            } else {
                45_000
            }),
    {
        let mut wallet_daemon_url = wallet_daemon_url;
        wallet_daemon_url.append("/json_rpc");
        WalletRPC {
            wallet_daemon_url,
            connect_timeout: connection_timeout.unwrap_or(3500),
            timeout: send_timeout.unwrap_or(3500),
            long_connect_timeout: connection_timeout.unwrap_or(45_000),
            long_timeout: send_timeout.unwrap_or(45_000),
        }
    }

    /// The request for the transfers of the subaddresses `addr_indices`.
    pub fn get_transfers_request(
        &self,
        addr_indices: &[u64],
        transfers_in: bool,
        transfers_out: bool,
    ) -> (req: String)
        ensures
            req@ == r#"{"jsonrpc":"2.0","id":"0","method":"get_transfers","params":{"account_index": 0,"#@
                + r#""in":"#@ + truth_text(transfers_in) + r#","out":"#@ + truth_text(transfers_out)
                + r#","subaddr_indices":"#@ + addr_indices_text(addr_indices@) + "}}"@,
    {
        let mut req: String =
            r#"{"jsonrpc":"2.0","id":"0","method":"get_transfers","params":{"account_index": 0,"#.to_owned();
        req.append(r#""in":"#);
        req.append(text_of_truth(transfers_in));
        req.append(r#","out":"#);
        req.append(text_of_truth(transfers_out));
        req.append(r#","subaddr_indices":"#);
        req.append(addr_indices_to_string(addr_indices).as_str());
        req.append("}}");
        req
    }

    /// Reads the answer to a `get_transfers` request for the subaddresses
    /// `addr_indices`. The place `j` of the list holds the transfers of the
    /// subaddress `j + 1`, whatever the list of wanted subaddresses says.
    pub fn get_transfers(&self, addr_indices: &[u64], response: &JsonValue) -> (res: Answer<
        Vec<Transfers>,
    >)
        ensures
            res is None <==> (response.member("result"@) matches Some(result) && !transfers_readable(
                result,
            )),
            res matches Some(Err(err)) ==> err is MissingData,
            res matches Some(answer) ==> (answer is Err <==> response.member("result"@) is None),
            res matches Some(Ok(list)) ==> all_views(list@) == sorted_transfers(
                addr_indices@,
                transfers_listed(listed_under(response.member("result"@)->0, "in"@)),
                transfers_listed(listed_under(response.member("result"@)->0, "out"@)),
            ),
    {
        let result = match response.get("result") {
            Some(result) => result,
            None => return Some(Err(WalletRPCError::MissingData)),
        };
        let incoming = match read_side(result, "in") {
            Some(incoming) => incoming,
            None => return None,
        };
        let outgoing = match read_side(result, "out") {
            Some(outgoing) => outgoing,
            None => return None,
        };
        let ghost ins = transfer_views(incoming@);
        let ghost outs = transfer_views(outgoing@);
        let mut slots = empty_slots(addr_indices);
        let ghost empty = slots@;
        if !place_incoming(&mut slots, incoming) {
            return None;
        }
        let ghost half = slots@;
        if !place_outgoing(&mut slots, outgoing) {
            return None;
        }
        proof {
            let wanted = sorted_transfers(addr_indices@, ins, outs);
            assert(all_views(empty).len() == addr_indices@.len());
            assert forall|j: int| 0 <= j < slots@.len() implies #[trigger] all_views(slots@)[j]
                == wanted[j] by {
                reveal(Seq::filter);
                assert(empty[j]@ == all_views(empty)[j]);
                assert(empty[j]@ == sorted_transfers(addr_indices@, seq![], seq![])[j]);
                assert(transfers_of(seq![], j + 1) =~= seq![]);
                assert(half[j]@.transfers_in =~= transfers_of(ins, j + 1));
                assert(slots@[j]@.transfers_out =~= transfers_of(outs, j + 1));
            }
            assert(all_views(slots@) =~= wanted);
        }
        Some(Ok(slots))
    }

    /// The request for the balances of the subaddresses `addr_indices`.
    pub fn get_balance_request(&self, addr_indices: &[u64]) -> (req: String)
        ensures
            req@ == r#"{"jsonrpc": "2.0","id": "0","method": "get_balance","params":{"account_index":0,"address_indices":"#@
                + addr_indices_text(addr_indices@) + "}}"@,
    {
        let mut req: String =
            r#"{"jsonrpc": "2.0","id": "0","method": "get_balance","params":{"account_index":0,"address_indices":"#.to_owned();
        req.append(addr_indices_to_string(addr_indices).as_str());
        req.append("}}");
        req
    }

    /// Reads what can be spent from the answer to a `get_balance` request.
    pub fn get_balance(&self, response: &JsonValue) -> (res: Answer<WalletBalance>)
        ensures
            res is None <==> balance_in(*response, "unlocked_balance"@) is Malformed,
            res matches Some(Err(err)) ==> err is MissingData && balance_in(
                *response,
                "unlocked_balance"@,
            ) is Missing,
            res matches Some(Ok(b)) ==> balance_in(*response, "unlocked_balance"@)
                == Reading::Found(b@),
    {
        read_balance(response, "unlocked_balance")
    }

    /// Reads what there is, locked amounts with it, from the answer to a
    /// `get_balance` request.
    pub fn get_all_balance(&self, response: &JsonValue) -> (res: Answer<WalletBalance>)
        ensures
            res is None <==> balance_in(*response, "balance"@) is Malformed,
            res matches Some(Err(err)) ==> err is MissingData && balance_in(
                *response,
                "balance"@,
            ) is Missing,
            res matches Some(Ok(b)) ==> balance_in(*response, "balance"@) == Reading::Found(b@),
    {
        read_balance(response, "balance")
    }

    /// The request for a new subaddress, labelled with the user's name.
    pub fn create_address_request(&self, username: &str) -> (req: String)
        ensures
            req@ == r#"{"jsonrpc":"2.0","id":"0","method":"create_address","params":{"account_index":0,"label":""#@
                + username@ + r#""}}"#@,
    {
        let mut req: String =
            r#"{"jsonrpc":"2.0","id":"0","method":"create_address","params":{"account_index":0,"label":""#.to_owned();
        req.append(username);
        req.append(r#""}}"#);
        req
    }

    /// Reads the new subaddress and its number from the answer to a
    /// `create_address` request.
    pub fn create_address(&self, response: &JsonValue) -> (res: Answer<(Address, u64)>)
        ensures
            res is None <==> created_in(*response) is Malformed,
            res matches Some(Err(err)) ==> err is MissingData && created_in(*response) is Missing,
            res matches Some(Ok(new)) ==> created_in(*response) == Reading::Found((new.0@, new.1)),
    {
        let result = match response.get("result") {
            Some(result) => result,
            None => return Some(Err(WalletRPCError::MissingData)),
        };
        let addr = match read_address(result, "address") {
            Reading::Found(addr) => addr,
            Reading::Missing => return Some(Err(WalletRPCError::MissingData)),
            Reading::Malformed => return None,
        };
        match read_number(result, "address_index") {
            Reading::Found(index) => Some(Ok((addr, index))),
            Reading::Missing => Some(Err(WalletRPCError::MissingData)),
            Reading::Malformed => None,
        }
    }

    /// The request for the wallet's own address.
    pub fn get_address_request(&self) -> (req: String)
        ensures
            req@ == r#"{"jsonrpc":"2.0","id":"0","method":"get_address","params":{"account_index":0}}}"#@,
    {
        r#"{"jsonrpc":"2.0","id":"0","method":"get_address","params":{"account_index":0}}}"#.to_owned()
    }

    /// Reads the wallet's own address from the answer to a `get_address`
    /// request.
    pub fn get_address(&self, response: &JsonValue) -> (res: Answer<Address>)
        ensures
            res is None <==> (match address_field(*response) {
                None => true,
                Some(field) => field.text() matches Some(text)
                    && !crate::wallet::address::address_readable(text),
            }),
            res matches Some(Err(err)) ==> match address_field(*response)->0.text() {
                None => err is MissingData,
                Some(text) => err is AddrError && outside::address::address_text(text) is None,
            },
            res matches Some(Ok(addr)) ==> (address_field(*response)->0.text() matches Some(text)
                && outside::address::address_text(text) == Some(addr@)),
    {
        let field = match response.get("result") {
            Some(result) => match result.get("address") {
                Some(field) => field,
                None => return None,
            },
            None => return None,
        };
        let text = match field.as_str() {
            Some(text) => text,
            None => return Some(Err(WalletRPCError::MissingData)),
        };
        match Address::read(text.as_str()) {
            AddressReading::Found(addr) => Some(Ok(addr)),
            AddressReading::Invalid(err) => Some(Err(WalletRPCError::from(err))),
            AddressReading::Incomplete => None,
        }
    }

    /// What is to be made of one try to learn the wallet's own address.
    /// Without an answer, and where the answer is an error, nothing was found
    /// and the wallet is asked again.
    pub fn own_address(&self, response: Option<&JsonValue>) -> (res: Reading<Address>)
        ensures
            match res {
                Reading::Found(addr) => own_address_in(read(response)) == Reading::Found(addr@),
                Reading::Missing => own_address_in(read(response)) is Missing,
                Reading::Malformed => own_address_in(read(response)) is Malformed,
            },
    {
        match response {
            None => Reading::Missing,
            Some(response) => match self.get_address(response) {
                Some(Ok(addr)) => Reading::Found(addr),
                Some(Err(_)) => Reading::Missing,
                None => Reading::Malformed,
            },
        }
    }

    /// The request that sends `amt` from the subaddress `addr_index` to `dst`.
    pub fn transfer_request(
        &self,
        priority: Option<u8>,
        dst: &Address,
        amt: u64,
        addr_index: u64,
    ) -> (req: String)
        requires
            priority matches Some(p) ==> p <= 3,
        ensures
            req@ == r#"{"jsonrpc":"2.0","id":"0","method":"transfer","params":{"destinations":[{"amount":"#@
                + text::decimal(amt as nat) + r#","address":""#@ + dst@ + r#""}],"priority":"#@
                + text::decimal(
                (if priority is Some {
                    priority->0
                } else {
                    0
                }) as nat,
            ) + r#","ring_size":11"#@ + r#","account_index":0"#@ + r#","get_tx_key": true,"#@
                + r#""subaddr_indices":["#@ + text::decimal(addr_index as nat) + "]}}"@,
    {
        let mut req: String =
            r#"{"jsonrpc":"2.0","id":"0","method":"transfer","params":{"destinations":[{"amount":"#.to_owned();
        req.append(text::decimal_text(amt).as_str());
        req.append(r#","address":""#);
        req.append(dst.to_text().as_str());
        req.append(r#""}],"priority":"#);
        req.append(text::decimal_text(priority.unwrap_or(0) as u64).as_str());
        req.append(r#","ring_size":11"#);
        req.append(r#","account_index":0"#);
        req.append(r#","get_tx_key": true,"#);
        req.append(r#""subaddr_indices":["#);
        req.append(text::decimal_text(addr_index).as_str());
        req.append("]}}");
        req
    }

    /// Reads the sent transfer from the answer to a `transfer` request.
    pub fn transfer(&self, response: &JsonValue) -> (res: Answer<TransferOut>)
        ensures
            res is None <==> sent_in(*response) is Malformed,
            res matches Some(Err(err)) ==> err is MissingData && sent_in(*response) is Missing,
            res matches Some(Ok(sent)) ==> sent_in(*response) == Reading::Found(sent@),
    {
        let result = match response.get("result") {
            Some(result) => result,
            None => return Some(Err(WalletRPCError::MissingData)),
        };
        let amount: u64 = match read_number(result, "amount") {
            Reading::Found(n) => n,
            Reading::Missing => return Some(Err(WalletRPCError::MissingData)),
            Reading::Malformed => return None,
        };
        let fee: u64 = match read_number(result, "fee") {
            Reading::Found(n) => n,
            Reading::Missing => return Some(Err(WalletRPCError::MissingData)),
            Reading::Malformed => return None,
        };
        match read_text(result, "tx_key") {
            Reading::Found(tx_key) => Some(Ok(TransferOut { amount, fee, tx_key })),
            Reading::Missing => Some(Err(WalletRPCError::MissingData)),
            Reading::Malformed => None,
        }
    }

    /// The request that makes the wallet use the daemon at `daemon_url`.
    pub fn set_daemon_request(&self, daemon_url: &str, trusted: bool) -> (req: String)
        ensures
            req@ == r#"{"jsonrpc":"2.0","id":"0","method":"set_daemon","params":{"address":""#@
                + daemon_url@ + r#"","trusted":"#@ + truth_text(trusted) + r#"}}"#@,
    {
        let mut req: String =
            r#"{"jsonrpc":"2.0","id":"0","method":"set_daemon","params":{"address":""#.to_owned();
        req.append(daemon_url);
        req.append(r#"","trusted":"#);
        req.append(text_of_truth(trusted));
        req.append(r#"}}"#);
        req
    }

    /// Whether the wallet took the daemon.
    pub fn set_daemon(&self, response: &JsonValue) -> (res: Result<(), WalletRPCError>)
        ensures
            res is Ok <==> response.member("result"@) is Some,
            res matches Err(err) ==> err is InvalidSetDaemonReq,
    {
        if response.contains_key("result") {
            Ok(())
        } else {
            Err(WalletRPCError::InvalidSetDaemonReq)
        }
    }

    /// The request that makes the wallet refresh itself every `refresh_time`
    /// seconds.
    pub fn set_refresh_time_request(&self, refresh_time: u64) -> (req: String)
        ensures
            req@ == r#"{"jsonrpc":"2.0","id":"0","method":"auto_refresh","params":{"period":"#@
                + text::decimal(refresh_time as nat) + "}}"@,
    {
        let mut req: String =
            r#"{"jsonrpc":"2.0","id":"0","method":"auto_refresh","params":{"period":"#.to_owned();
        req.append(text::decimal_text(refresh_time).as_str());
        req.append("}}");
        req
    }

    /// Whether the wallet took the refresh time.
    pub fn set_refresh_time(&self, response: &JsonValue) -> (res: Result<(), WalletRPCError>)
        ensures
            res is Ok <==> response.member("result"@) is Some,
            res matches Err(err) ==> err is InvalidSetRefreshReq,
    {
        if response.contains_key("result") {
            Ok(())
        } else {
            Err(WalletRPCError::InvalidSetRefreshReq)
        }
    }
}

impl From<reqwest::Error> for WalletRPCError {
    fn from(err: reqwest::Error) -> (res: Self) {
        WalletRPCError::ReqwestError(err)
    }
}

impl vstd::std_specs::convert::FromSpecImpl<reqwest::Error> for WalletRPCError {
    open spec fn obeys_from_spec() -> bool {
        true
    }

    open spec fn from_spec(err: reqwest::Error) -> Self {
        WalletRPCError::ReqwestError(err)
    }
}

impl From<monero::util::address::Error> for WalletRPCError {
    fn from(err: monero::util::address::Error) -> (res: Self) {
        WalletRPCError::AddrError(err)
    }
}

impl vstd::std_specs::convert::FromSpecImpl<monero::util::address::Error> for WalletRPCError {
    open spec fn obeys_from_spec() -> bool {
        true
    }

    open spec fn from_spec(err: monero::util::address::Error) -> Self {
        WalletRPCError::AddrError(err)
    }
}

/// Every transfer of a list is found at the place of its subaddress, and at no
/// other place: what is at the place `j` belongs to the subaddress `j + 1`.
pub proof fn transfers_are_kept(
    addr_indices: Seq<u64>,
    incoming: Seq<TransferView>,
    outgoing: Seq<TransferView>,
)
    ensures
        ({
            let sorted = sorted_transfers(addr_indices, incoming, outgoing);
            &&& sorted.len() == addr_indices.len()
            &&& forall|i: int|
                0 <= i < incoming.len() && 1 <= (#[trigger] incoming[i]).addr_index <= sorted.len()
                    ==> sorted[incoming[i].addr_index - 1].transfers_in.contains(incoming[i])
            &&& forall|i: int|
                0 <= i < outgoing.len() && 1 <= (#[trigger] outgoing[i]).addr_index <= sorted.len()
                    ==> sorted[outgoing[i].addr_index - 1].transfers_out.contains(outgoing[i])
            &&& forall|j: int, k: int|
                0 <= j < sorted.len() && 0 <= k < sorted[j].transfers_in.len() ==> (
                #[trigger] sorted[j].transfers_in[k]).addr_index == j + 1 && incoming.contains(
                    sorted[j].transfers_in[k],
                )
            &&& forall|j: int, k: int|
                0 <= j < sorted.len() && 0 <= k < sorted[j].transfers_out.len() ==> (
                #[trigger] sorted[j].transfers_out[k]).addr_index == j + 1 && outgoing.contains(
                    sorted[j].transfers_out[k],
                )
        }),
{
    let sorted = sorted_transfers(addr_indices, incoming, outgoing);
    assert forall|i: int|
        0 <= i < incoming.len() && 1 <= (#[trigger] incoming[i]).addr_index
            <= sorted.len() implies sorted[incoming[i].addr_index - 1].transfers_in.contains(
        incoming[i],
    ) by {
        lemma_filter_keeps(incoming, incoming[i].addr_index as int, i);
    }
    assert forall|i: int|
        0 <= i < outgoing.len() && 1 <= (#[trigger] outgoing[i]).addr_index
            <= sorted.len() implies sorted[outgoing[i].addr_index - 1].transfers_out.contains(
        outgoing[i],
    ) by {
        lemma_filter_keeps(outgoing, outgoing[i].addr_index as int, i);
    }
    assert forall|j: int, k: int|
        0 <= j < sorted.len() && 0 <= k < sorted[j].transfers_in.len() implies (
    #[trigger] sorted[j].transfers_in[k]).addr_index == j + 1 && incoming.contains(
        sorted[j].transfers_in[k],
    ) by {
        lemma_filter_is_part(incoming, j + 1, k);
    }
    assert forall|j: int, k: int|
        0 <= j < sorted.len() && 0 <= k < sorted[j].transfers_out.len() implies (
    #[trigger] sorted[j].transfers_out[k]).addr_index == j + 1 && outgoing.contains(
        sorted[j].transfers_out[k],
    ) by {
        lemma_filter_is_part(outgoing, j + 1, k);
    }
}

proof fn lemma_filter_keeps(transfers: Seq<TransferView>, index: int, i: int)
    requires
        0 <= i < transfers.len(),
        transfers[i].addr_index == index,
    ensures
        transfers_of(transfers, index).contains(transfers[i]),
    decreases transfers.len(),
{
    reveal(Seq::filter);
    let of = transfers_of(transfers, index);
    let shorter = transfers.drop_last();
    if i == transfers.len() - 1 {
        assert(of[of.len() - 1] == transfers[i]);
    } else {
        lemma_filter_keeps(shorter, index, i);
        let before = transfers_of(shorter, index);
        let k = choose|k: int| 0 <= k < before.len() && before[k] == shorter[i];
        assert(of[k] == transfers[i]);
    }
}

proof fn lemma_filter_is_part(transfers: Seq<TransferView>, index: int, k: int)
    requires
        0 <= k < transfers_of(transfers, index).len(),
    ensures
        transfers_of(transfers, index)[k].addr_index == index,
        transfers.contains(transfers_of(transfers, index)[k]),
    decreases transfers.len(),
{
    reveal(Seq::filter);
    if transfers.len() > 0 {
        let shorter = transfers.drop_last();
        let before = transfers_of(shorter, index);
        let of = transfers_of(transfers, index);
        if k < before.len() {
            lemma_filter_is_part(shorter, index, k);
            let i = choose|i: int| 0 <= i < shorter.len() && shorter[i] == before[k];
            assert(transfers[i] == of[k]);
        } else {
            assert(of[k] == transfers.last());
        }
    }
}

/// A transfer is read exactly where all of its fields are there and of the
/// right kind, whatever they hold, and it is read with just what they hold.
pub proof fn whole_transfers_are_read(value: JsonValue)
    ensures
        ({
            let index = value.member("subaddr_index"@);
            transfer_in(value) is Found <==> {
                &&& reading::address_in(value, "address"@) is Found
                &&& reading::number_in(value, "amount"@) is Found
                &&& reading::number_in(value, "confirmations"@) is Found
                &&& reading::truth_in(value, "double_spend_seen"@) is Found
                &&& reading::number_in(value, "height"@) is Found
                &&& index is Some && reading::number_in(index->0, "minor"@) is Found
                &&& reading::number_in(value, "unlock_time"@) is Found
                &&& reading::number_in(value, "fee"@) is Found
            }
        }),
        transfer_in(value) matches Reading::Found(t) ==> {
            &&& reading::address_in(value, "address"@) == Reading::Found(t.address)
            &&& reading::number_in(value, "amount"@) == Reading::Found(t.amount)
            &&& reading::number_in(value, "confirmations"@) == Reading::Found(t.confirmations)
            &&& reading::truth_in(value, "double_spend_seen"@) == Reading::Found(
                t.double_spend_seen,
            )
            &&& reading::number_in(value, "height"@) == Reading::Found(t.height)
            &&& reading::number_in(value.member("subaddr_index"@)->0, "minor"@) == Reading::Found(
                t.addr_index,
            )
            &&& reading::number_in(value, "unlock_time"@) == Reading::Found(t.unlock_time)
            &&& reading::number_in(value, "fee"@) == Reading::Found(t.fee)
        },
{
}

/// The first field of a transfer that is not found says why it is not read:
/// where none of the fields is of the wrong kind it lacks one, and where none
/// is lacking one is of the wrong kind.
pub proof fn gaps_in_transfers(value: JsonValue)
    ensures
        ({
            let index = value.member("subaddr_index"@);
            let lacks = {
                ||| reading::address_in(value, "address"@) is Missing
                ||| reading::number_in(value, "amount"@) is Missing
                ||| reading::number_in(value, "confirmations"@) is Missing
                ||| reading::truth_in(value, "double_spend_seen"@) is Missing
                ||| reading::number_in(value, "height"@) is Missing
                ||| index is None || reading::number_in(index->0, "minor"@) is Missing
                ||| reading::number_in(value, "unlock_time"@) is Missing
                ||| reading::number_in(value, "fee"@) is Missing
            };
            let wrong = {
                ||| reading::address_in(value, "address"@) is Malformed
                ||| reading::number_in(value, "amount"@) is Malformed
                ||| reading::number_in(value, "confirmations"@) is Malformed
                ||| reading::truth_in(value, "double_spend_seen"@) is Malformed
                ||| reading::number_in(value, "height"@) is Malformed
                ||| index is Some && reading::number_in(index->0, "minor"@) is Malformed
                ||| reading::number_in(value, "unlock_time"@) is Malformed
                ||| reading::number_in(value, "fee"@) is Malformed
            };
            &&& lacks && !wrong ==> transfer_in(value) is Missing
            &&& wrong && !lacks ==> transfer_in(value) is Malformed
            &&& transfer_in(value) is Missing ==> lacks
            &&& transfer_in(value) is Malformed ==> wrong
            &&& reading::address_in(value, "address"@) is Missing ==> transfer_in(value) is Missing
            &&& reading::address_in(value, "address"@) is Malformed ==> transfer_in(
                value,
            ) is Malformed
        }),
{
}

/// Every entry of a list that has all its fields is among the transfers that
/// are read, whatever the fields hold, and nothing else is: as many transfers
/// are read as there are such entries, and in their order.
pub proof fn all_whole_entries_are_read(list: Seq<JsonValue>)
    ensures
        transfers_listed(list) == list.filter(
            |value: JsonValue| transfer_in(value) is Found,
        ).map_values(|value: JsonValue| transfer_in(value)->Found_0),
    decreases list.len(),
{
    let whole = |value: JsonValue| transfer_in(value) is Found;
    let read = |value: JsonValue| transfer_in(value)->Found_0;
    reveal(Seq::filter);
    if list.len() == 0 {
        assert(list.filter(whole).map_values(read) =~= seq![]);
    } else {
        let shorter = list.drop_last();
        all_whole_entries_are_read(shorter);
        if whole(list.last()) {
            assert(list.filter(whole) =~= shorter.filter(whole).push(list.last()));
            assert(list.filter(whole).map_values(read) =~= shorter.filter(whole).map_values(
                read,
            ).push(read(list.last())));
        }
    }
}

/// The transfers of two lists are those of the first and then those of the
/// second, and an entry with all its fields is one of them.
pub proof fn lists_of_transfers_add_up(a: Seq<JsonValue>, b: Seq<JsonValue>, value: JsonValue)
    ensures
        transfers_listed(a + b) == transfers_listed(a) + transfers_listed(b),
        transfers_listed(seq![value]) == match transfer_in(value) {
            Reading::Found(t) => seq![t],
            _ => seq![],
        },
    decreases b.len(),
{
    reveal_with_fuel(transfers_listed, 2);
    if let Reading::Found(t) = transfer_in(value) {
        assert(transfers_listed(seq![value]) =~= seq![t]);
    }
    if b.len() == 0 {
        assert(a + b =~= a);
        assert(transfers_listed(a) + transfers_listed(b) =~= transfers_listed(a));
    } else {
        lists_of_transfers_add_up(a, b.drop_last(), value);
        assert((a + b).drop_last() =~= a + b.drop_last());
        assert(transfers_listed(a + b) =~= transfers_listed(a) + transfers_listed(b));
    }
}

/// Each place holds just the transfers of the subaddress that is one more than
/// it, all of them and in their order, and is labelled with the subaddress that
/// was asked for there.
pub proof fn places_hold_their_transfers(
    addr_indices: Seq<u64>,
    incoming: Seq<TransferView>,
    outgoing: Seq<TransferView>,
    j: int,
)
    requires
        0 <= j < addr_indices.len(),
    ensures
        ({
            let sorted = sorted_transfers(addr_indices, incoming, outgoing);
            &&& sorted.len() == addr_indices.len()
            &&& sorted[j].addr_index == addr_indices[j]
            &&& sorted[j].transfers_in == incoming.filter(
                |t: TransferView| t.addr_index as int == j + 1,
            )
            &&& sorted[j].transfers_out == outgoing.filter(
                |t: TransferView| t.addr_index as int == j + 1,
            )
        }),
{
    assert(transfers_of(incoming, j + 1) =~= incoming.filter(
        |t: TransferView| t.addr_index as int == j + 1,
    ));
    assert(transfers_of(outgoing, j + 1) =~= outgoing.filter(
        |t: TransferView| t.addr_index as int == j + 1,
    ));
}

/// The transfers that are read are just those of the entries.
proof fn lemma_listed_are_entries(list: Seq<JsonValue>)
    ensures
        forall|i: int|
            0 <= i < list.len() && (#[trigger] transfer_in(list[i])) is Found
                ==> transfers_listed(list).contains(transfer_in(list[i])->Found_0),
        forall|k: int|
            0 <= k < transfers_listed(list).len() ==> exists|i: int|
                0 <= i < list.len() && #[trigger] transfer_in(list[i]) == Reading::Found(
                    #[trigger] transfers_listed(list)[k],
                ),
    decreases list.len(),
{
    if list.len() > 0 {
        let shorter = list.drop_last();
        lemma_listed_are_entries(shorter);
        let before = transfers_listed(shorter);
        let all = transfers_listed(list);
        let last = list.len() - 1;
        assert forall|i: int|
            0 <= i < list.len() && (#[trigger] transfer_in(list[i])) is Found implies all.contains(
            transfer_in(list[i])->Found_0,
        ) by {
            let t = transfer_in(list[i])->Found_0;
            if i < last {
                assert(transfer_in(shorter[i]) is Found);
                let k = choose|k: int| 0 <= k < before.len() && before[k] == t;
                assert(all[k] == t);
            } else {
                assert(all[before.len() as int] == t);
            }
        }
        assert forall|k: int| 0 <= k < all.len() implies exists|i: int|
            0 <= i < list.len() && #[trigger] transfer_in(list[i]) == Reading::Found(
                #[trigger] all[k],
            ) by {
            if k < before.len() {
                let i = choose|i: int|
                    0 <= i < shorter.len() && #[trigger] transfer_in(shorter[i]) == Reading::Found(
                        before[k],
                    );
                assert(transfer_in(list[i]) == Reading::Found(all[k]));
            } else {
                assert(transfer_in(list[last]) == Reading::Found(all[k]));
            }
        }
    }
}

/// Whether all transfers have a place is decided by the entries of the list.
proof fn lemma_placed(list: Seq<JsonValue>)
    ensures
        incoming_placed(transfers_listed(list)) <==> forall|i: int|
            0 <= i < list.len() ==> ((#[trigger] transfer_in(list[i])) matches Reading::Found(t)
                ==> 1 <= t.addr_index <= usize::MAX),
        outgoing_placed(transfers_listed(list)) <==> forall|i: int|
            0 <= i < list.len() ==> ((#[trigger] transfer_in(list[i])) matches Reading::Found(t)
                ==> t.addr_index <= usize::MAX),
{
    lemma_listed_are_entries(list);
    let all = transfers_listed(list);
    assert forall|i: int|
        0 <= i < list.len() && (#[trigger] transfer_in(list[i])) is Found implies exists|k: int|
        0 <= k < all.len() && #[trigger] all[k] == transfer_in(list[i])->Found_0 by {
        assert(all.contains(transfer_in(list[i])->Found_0));
    }
    if incoming_placed(all) {
        assert forall|i: int| 0 <= i < list.len() implies ((#[trigger] transfer_in(
            list[i],
        )) matches Reading::Found(t) ==> 1 <= t.addr_index <= usize::MAX) by {
            if transfer_in(list[i]) is Found {
                let k = choose|k: int|
                    0 <= k < all.len() && #[trigger] all[k] == transfer_in(list[i])->Found_0;
                assert(1 <= all[k].addr_index <= usize::MAX);
            }
        }
    }
    if outgoing_placed(all) {
        assert forall|i: int| 0 <= i < list.len() implies ((#[trigger] transfer_in(
            list[i],
        )) matches Reading::Found(t) ==> t.addr_index <= usize::MAX) by {
            if transfer_in(list[i]) is Found {
                let k = choose|k: int|
                    0 <= k < all.len() && #[trigger] all[k] == transfer_in(list[i])->Found_0;
                assert(all[k].addr_index <= usize::MAX);
            }
        }
    }
    if forall|i: int|
        0 <= i < list.len() ==> ((#[trigger] transfer_in(list[i])) matches Reading::Found(t) ==> 1
            <= t.addr_index <= usize::MAX) {
        assert forall|k: int| 0 <= k < all.len() implies 1 <= (#[trigger] all[k]).addr_index
            <= usize::MAX by {
            let i = choose|i: int|
                0 <= i < list.len() && #[trigger] transfer_in(list[i]) == Reading::Found(all[k]);
            assert(transfer_in(list[i]) is Found);
        }
    }
    if forall|i: int|
        0 <= i < list.len() ==> ((#[trigger] transfer_in(list[i])) matches Reading::Found(t)
            ==> t.addr_index <= usize::MAX) {
        assert forall|k: int| 0 <= k < all.len() implies (#[trigger] all[k]).addr_index
            <= usize::MAX by {
            let i = choose|i: int|
                0 <= i < list.len() && #[trigger] transfer_in(list[i]) == Reading::Found(all[k]);
            assert(transfer_in(list[i]) is Found);
        }
    }
}

/// A result can be read where both of its lists, if they are there, are lists
/// without a field of the wrong kind, no number of a subaddress is too great
/// for the machine, and no incoming transfer belongs to the subaddress 0.
pub proof fn results_that_can_be_read(
    result: JsonValue,
    incoming: Seq<JsonValue>,
    outgoing: Seq<JsonValue>,
)
    requires
        match result.member("in"@) {
            Some(field) => field.items() == Some(incoming),
            None => incoming.len() == 0,
        },
        match result.member("out"@) {
            Some(field) => field.items() == Some(outgoing),
            None => outgoing.len() == 0,
        },
    ensures
        listed_under(result, "in"@) == incoming,
        listed_under(result, "out"@) == outgoing,
        transfers_readable(result) <==> {
            &&& forall|i: int|
                0 <= i < incoming.len() ==> match #[trigger] transfer_in(incoming[i]) {
                    Reading::Found(t) => 1 <= t.addr_index <= usize::MAX,
                    Reading::Missing => true,
                    Reading::Malformed => false,
                }
            &&& forall|i: int|
                0 <= i < outgoing.len() ==> match #[trigger] transfer_in(outgoing[i]) {
                    Reading::Found(t) => t.addr_index <= usize::MAX,
                    Reading::Missing => true,
                    Reading::Malformed => false,
                }
        },
{
    assert(listed_under(result, "in"@) =~= incoming);
    assert(listed_under(result, "out"@) =~= outgoing);
    lemma_placed(incoming);
    lemma_placed(outgoing);
}

/// A field that should list transfers and is no list breaks the protocol.
pub proof fn lists_must_be_lists(result: JsonValue)
    ensures
        result.member("in"@) matches Some(field) && field.items() is None ==> !transfers_readable(
            result,
        ),
        result.member("out"@) matches Some(field) && field.items() is None ==> !transfers_readable(
            result,
        ),
{
}

/// The numbers of two lists are written one directly behind the other, each in
/// decimal, and the whole between square brackets.
pub proof fn numbers_are_run_together(a: Seq<u64>, b: Seq<u64>, n: u64)
    ensures
        run_together(a + b) == run_together(a) + run_together(b),
        run_together(seq![n]) == text::decimal(n as nat),
        addr_indices_text(a).len() == run_together(a).len() + 2,
        addr_indices_text(a)[0] == '[' && addr_indices_text(a).last() == ']',
        addr_indices_text(a).subrange(1, addr_indices_text(a).len() - 1) == run_together(a),
    decreases b.len(),
{
    reveal_strlit("[");
    reveal_strlit("]");
    reveal_with_fuel(run_together, 2);
    assert(run_together(seq![n]) =~= text::decimal(n as nat));
    assert(addr_indices_text(a).subrange(1, addr_indices_text(a).len() - 1) =~= run_together(a));
    if b.len() == 0 {
        assert(a + b =~= a);
        assert(run_together(a) + run_together(b) =~= run_together(a));
    } else {
        numbers_are_run_together(a, b.drop_last(), n);
        assert((a + b).drop_last() =~= a + b.drop_last());
        assert(run_together(a + b) =~= run_together(a) + run_together(b));
    }
}

/// Truth values are written as JSON writes them.
pub proof fn truth_is_written()
    ensures
        truth_text(true) == seq!['t', 'r', 'u', 'e'],
        truth_text(false) == seq!['f', 'a', 'l', 's', 'e'],
{
    reveal_strlit("true");
    reveal_strlit("false");
    assert(truth_text(true) =~= seq!['t', 'r', 'u', 'e']);
    assert(truth_text(false) =~= seq!['f', 'a', 'l', 's', 'e']);
}

/// The balance of a subaddress is read where its address, its number and the
/// amount are there and of the right kind, whatever they hold.
pub proof fn whole_balances_are_read(value: JsonValue, amount: Seq<char>)
    ensures
        subaddress_balance_in(value, amount) is Found <==> {
            &&& reading::address_in(value, "address"@) is Found
            &&& reading::number_in(value, "address_index"@) is Found
            &&& reading::number_in(value, amount) is Found
        },
        subaddress_balance_in(value, amount) matches Reading::Found(b) ==> {
            &&& reading::address_in(value, "address"@) == Reading::Found(b.addr)
            &&& reading::number_in(value, "address_index"@) == Reading::Found(b.addr_index)
            &&& reading::number_in(value, amount) == Reading::Found(b.balance)
        },
        subaddress_balance_in(value, amount) is Malformed ==> {
            ||| reading::address_in(value, "address"@) is Malformed
            ||| reading::number_in(value, "address_index"@) is Malformed
            ||| reading::number_in(value, amount) is Malformed
        },
        subaddress_balance_in(value, amount) is Missing ==> {
            ||| reading::address_in(value, "address"@) is Missing
            ||| reading::number_in(value, "address_index"@) is Missing
            ||| reading::number_in(value, amount) is Missing
        },
{
}

/// A list of balances is read where every entry is, each in its place; one
/// entry of the wrong kind spoils the list, and else one that lacks a field.
pub proof fn lists_of_balances_are_read(list: Seq<JsonValue>, amount: Seq<char>, k: int)
    requires
        0 <= k < list.len(),
    ensures
        subaddress_balance_in(list[k], amount) is Malformed ==> balances_listed(
            list,
            amount,
        ) is Malformed,
        subaddress_balance_in(list[k], amount) is Missing ==> balances_listed(
            list,
            amount,
        ) !is Found,
        balances_listed(list, amount) matches Reading::Found(balances) ==> balances.len()
            == list.len() && subaddress_balance_in(list[k], amount) == Reading::Found(balances[k]),
        (forall|i: int|
            0 <= i < list.len() ==> (#[trigger] subaddress_balance_in(list[i], amount)) is Found)
            ==> balances_listed(list, amount) is Found,
        (forall|i: int|
            0 <= i < list.len() ==> (#[trigger] subaddress_balance_in(
                list[i],
                amount,
            )) !is Malformed) ==> balances_listed(list, amount) !is Malformed,
{
}

/// The wallet's balance is read from the total and from the list of
/// subaddresses below the result, where both can be read.
pub proof fn balances_are_read(response: JsonValue, amount: Seq<char>)
    ensures
        response.member("result"@) is None ==> balance_in(response, amount) is Missing,
        response.member("result"@) matches Some(result) ==> {
            &&& balance_in(response, amount) is Found <==> {
                &&& reading::number_in(result, amount) is Found
                &&& reading::list_in(result, "per_subaddress"@) matches Reading::Found(list)
                &&& balances_listed(list, amount) is Found
            }
            &&& balance_in(response, amount) matches Reading::Found(balance) ==> {
                &&& reading::number_in(result, amount) == Reading::Found(balance.balance)
                &&& balances_listed(
                    reading::list_in(result, "per_subaddress"@)->Found_0,
                    amount,
                ) == Reading::Found(balance.per_subaddress)
            }
            &&& reading::list_in(result, "per_subaddress"@) is Missing ==> balance_in(
                response,
                amount,
            ) is Missing
            &&& reading::list_in(result, "per_subaddress"@) is Malformed ==> balance_in(
                response,
                amount,
            ) is Malformed
        },
{
}

/// A sent transfer is read where its amount, its fee and its key are there and
/// of the right kind, whatever they hold; without a result nothing is.
pub proof fn sent_transfers_are_read(response: JsonValue)
    ensures
        response.member("result"@) is None ==> sent_in(response) is Missing,
        response.member("result"@) matches Some(result) ==> {
            &&& sent_in(response) is Found <==> {
                &&& reading::number_in(result, "amount"@) is Found
                &&& reading::number_in(result, "fee"@) is Found
                &&& reading::text_in(result, "tx_key"@) is Found
            }
            &&& sent_in(response) matches Reading::Found(sent) ==> {
                &&& reading::number_in(result, "amount"@) == Reading::Found(sent.amount)
                &&& reading::number_in(result, "fee"@) == Reading::Found(sent.fee)
                &&& reading::text_in(result, "tx_key"@) == Reading::Found(sent.tx_key)
            }
            &&& sent_in(response) is Malformed ==> {
                ||| reading::number_in(result, "amount"@) is Malformed
                ||| reading::number_in(result, "fee"@) is Malformed
                ||| reading::text_in(result, "tx_key"@) is Malformed
            }
            &&& sent_in(response) is Missing ==> {
                ||| reading::number_in(result, "amount"@) is Missing
                ||| reading::number_in(result, "fee"@) is Missing
                ||| reading::text_in(result, "tx_key"@) is Missing
            }
        },
{
}

/// A new subaddress is read where its address and its number are there and of
/// the right kind, whatever they hold; without a result nothing is.
pub proof fn new_subaddresses_are_read(response: JsonValue)
    ensures
        response.member("result"@) is None ==> created_in(response) is Missing,
        response.member("result"@) matches Some(result) ==> {
            &&& created_in(response) is Found <==> {
                &&& reading::address_in(result, "address"@) is Found
                &&& reading::number_in(result, "address_index"@) is Found
            }
            &&& created_in(response) matches Reading::Found(created) ==> {
                &&& reading::address_in(result, "address"@) == Reading::Found(created.0)
                &&& reading::number_in(result, "address_index"@) == Reading::Found(created.1)
            }
            &&& created_in(response) is Malformed ==> {
                ||| reading::address_in(result, "address"@) is Malformed
                ||| reading::number_in(result, "address_index"@) is Malformed
            }
            &&& created_in(response) is Missing ==> {
                ||| reading::address_in(result, "address"@) is Missing
                ||| reading::number_in(result, "address_index"@) is Missing
            }
        },
{
}

/// The wallet's own address is what stands under `address` in the result, where
/// that is text for an address. An answer without it breaks the protocol, and
/// so does the beginning of an address; anything else is asked for again.
pub proof fn own_addresses_are_read(response: JsonValue, addr: Seq<char>)
    ensures
        own_address_in(None) is Missing,
        response.member("result"@) is None ==> own_address_in(Some(response)) is Malformed,
        response.member("result"@) matches Some(result) ==> match result.member("address"@) {
            None => own_address_in(Some(response)) is Malformed,
            Some(field) => match field.text() {
                None => own_address_in(Some(response)) is Missing,
                Some(text) => {
                    &&& own_address_in(Some(response)) is Malformed
                        <==> !crate::wallet::address::address_readable(text)
                    &&& own_address_in(Some(response)) == Reading::Found(addr)
                        <==> crate::wallet::address::address_readable(text)
                        && outside::address::address_text(text) == Some(addr)
                },
            },
        },
{
}

/// What is told of transfers and balances is told in full and in order.
pub proof fn views_leave_nothing_out(
    t: Transfer,
    all: Transfers,
    list: Seq<Transfer>,
    places: Seq<Transfers>,
    i: int,
)
    ensures
        t@.address == t.address@ && t@.amount == t.amount && t@.fee == t.fee,
        t@.confirmations == t.confirmations && t@.double_spend_seen == t.double_spend_seen,
        t@.height == t.height && t@.addr_index == t.addr_index,
        t@.unlock_time == t.unlock_time,
        all@.addr_index == all.addr_index,
        all@.transfers_in.len() == all.transfers_in@.len(),
        all@.transfers_out.len() == all.transfers_out@.len(),
        0 <= i < all.transfers_in@.len() ==> all@.transfers_in[i] == all.transfers_in@[i]@,
        0 <= i < all.transfers_out@.len() ==> all@.transfers_out[i] == all.transfers_out@[i]@,
        transfer_views(list).len() == list.len(),
        0 <= i < list.len() ==> transfer_views(list)[i] == list[i]@,
        all_views(places).len() == places.len(),
        0 <= i < places.len() ==> all_views(places)[i] == places[i]@,
{
}

/// What is told of sent transfers and of balances is told in full and in order,
/// and an answer is taken as it came.
pub proof fn answers_leave_nothing_out(
    sent: TransferOut,
    balance: SubaddressBalance,
    all: WalletBalance,
    response: &JsonValue,
    i: int,
)
    ensures
        sent@.amount == sent.amount && sent@.fee == sent.fee && sent@.tx_key == sent.tx_key@,
        balance@.addr == balance.addr@ && balance@.addr_index == balance.addr_index,
        balance@.balance == balance.balance,
        all@.balance == all.balance,
        all@.per_subaddress.len() == all.per_subaddress@.len(),
        0 <= i < all.per_subaddress@.len() ==> all@.per_subaddress[i] == all.per_subaddress@[i]@,
        read(None) is None,
        read(Some(response)) == Some(*response),
{
}

} // verus!
