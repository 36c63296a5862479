//! Balances, deposits and withdrawals.
use vstd::prelude::*;

use crate::auth;
use crate::auth::{is_authorized, AuthCookie};
use crate::denial::{deny, deny_unauthorized, DenialFault, DenialResponse};
use crate::fundraiser;
use crate::fundraiser::Fundraiser;
use crate::outside;
use crate::text;
use crate::wallet::address::{Address, AddressReading};
use crate::wallet::json::JsonValue;
use crate::wallet::wallet_rpc;
use crate::wallet::wallet_rpc::{
    SubaddressBalance, Transfer, TransferOut, Transfers, TransfersView, WalletBalance,
};
use crate::wallet::Wallet;

verus! {

/// What the server knows of a user's money. Amounts are in piconeros.
pub struct FinancialInfo {
    /// Where withdrawals go.
    pub xmr_addr: Option<Address>,
    /// Where deposits come in.
    pub deposit_addr: Address,
    pub transfers: Transfers,
    pub balance: u64,
    pub pending_balance: u64,
    pub active_fundraisers: Vec<Fundraiser>,
    pub old_fundraisers: Vec<Fundraiser>,
    pub service_fee_total: u64,
}

/// What some fundraisers have earned together.
pub open spec fn earned_total(fundraisers: Seq<Fundraiser>) -> int
    decreases fundraisers.len(),
{
    if fundraisers.len() == 0 {
        0
    } else {
        earned_total(fundraisers.drop_last()) + fundraisers.last().earned()
    }
}

/// What the service kept of some outgoing transfers, worked out of what was
/// sent and of the network's fee.
pub open spec fn service_fees(transfers_out: Seq<Transfer>) -> int
    decreases transfers_out.len(),
{
    if transfers_out.len() == 0 {
        0
    } else {
        service_fees(transfers_out.drop_last()) + (transfers_out.last().amount
            + transfers_out.last().fee) / 49
    }
}

/// The greater of two numbers.
pub open spec fn greater(a: int, b: int) -> int {
    if a >= b {
        a
    } else {
        b
    }
}

impl FinancialInfo {
    /// The fees that the service has taken. The transfers lag behind, and so
    /// can the sum that is kept; the greater of the two counts.
    pub open spec fn fees_taken(self) -> int {
        greater(self.service_fee_total as int, service_fees(self.transfers.transfers_out@))
    }

    /// What has come in.
    pub open spec fn income(self) -> int {
        earned_total(self.active_fundraisers@) + earned_total(self.old_fundraisers@) + self.balance
    }

    /// What the user can spend.
    pub open spec fn spendable(self) -> int {
        self.income() - self.fees_taken()
    }

    /// Whether all sums that the balance is made of fit a number, and the fees
    /// are no more than what has come in.
    pub open spec fn balance_known(self) -> bool {
        &&& self.income() <= u64::MAX
        &&& forall|i: int|
            0 <= i < self.transfers.transfers_out@.len() ==> (
            #[trigger] self.transfers.transfers_out@[i]).amount
                + self.transfers.transfers_out@[i].fee <= u64::MAX
        &&& service_fees(self.transfers.transfers_out@) <= u64::MAX
        &&& self.spendable() >= 0
    }

    /// A new account that deposits come in for at `deposit_addr`.
    pub fn new(addr_index: u64, deposit_addr: Address) -> (res: Self)
        ensures
            res.xmr_addr is None,
            res.deposit_addr == deposit_addr,
            res.transfers.addr_index == addr_index,
            res.transfers.transfers_in@.len() == 0,
            res.transfers.transfers_out@.len() == 0,
            res.balance == 0,
            res.pending_balance == 0,
            res.active_fundraisers@.len() == 0,
            res.old_fundraisers@.len() == 0,
            res.service_fee_total == 0,
    {
        FinancialInfo {
            xmr_addr: None,
            deposit_addr,
            transfers: Transfers {
                addr_index,
                transfers_in: Vec::new(),
                transfers_out: Vec::new(),
            },
            balance: 0,
            pending_balance: 0,
            active_fundraisers: Vec::new(),
            old_fundraisers: Vec::new(),
            service_fee_total: 0,
        }
    }

    /// Adds a fundraiser to those that are open.
    pub fn add_fundraiser(&mut self, fundraiser: Fundraiser)
        ensures
            final(self).active_fundraisers@ == old(self).active_fundraisers@.push(fundraiser),
            *final(self) == (FinancialInfo {
                active_fundraisers: final(self).active_fundraisers,
                ..*old(self)
            }),
    {
        self.active_fundraisers.push(fundraiser);
    }

    /// The fundraisers that are open.
    pub fn active_fundraisers(&self) -> (res: &Vec<Fundraiser>)
        ensures
            *res == self.active_fundraisers,
    {
        &self.active_fundraisers
    }

    /// What the user can spend: what their fundraisers have earned and what
    /// their address holds, less the service's fees.
    pub fn get_balance(&self) -> (res: u64)
        requires
            self.balance_known(),
        ensures
            res == self.spendable(),
    {
        self.checked_balance().unwrap()
    }

    /// What the user can spend, unless a sum on the way does not fit a number
    /// or the fees are more than what has come in.
    pub fn checked_balance(&self) -> (res: Option<u64>)
        ensures
            res is Some <==> self.balance_known(),
            res matches Some(balance) ==> balance == self.spendable(),
    {
        proof {
            lemma_earned_is_positive(self.active_fundraisers@);
            lemma_earned_is_positive(self.old_fundraisers@);
            lemma_fees_are_positive(self.transfers.transfers_out@);
        }
        let active: u64 = match checked_earned_total(&self.active_fundraisers) {
            Some(active) => active,
            None => return None,
        };
        let past: u64 = match checked_earned_total(&self.old_fundraisers) {
            Some(past) => past,
            None => return None,
        };
        let transfer_fees: u64 = match checked_service_fees(&self.transfers.transfers_out) {
            Some(transfer_fees) => transfer_fees,
            None => return None,
        };
        let fees: u64 = if self.service_fee_total >= transfer_fees {
            self.service_fee_total
        } else {
            transfer_fees
        };
        let earned: u64 = match active.checked_add(past) {
            Some(earned) => earned,
            None => return None,
        };
        match earned.checked_add(self.balance) {
            Some(income) => income.checked_sub(fees),
            None => None,
        }
    }
}

proof fn lemma_earned_is_positive(fundraisers: Seq<Fundraiser>)
    ensures
        earned_total(fundraisers) >= 0,
    decreases fundraisers.len(),
{
    if fundraisers.len() > 0 {
        lemma_earned_is_positive(fundraisers.drop_last());
        fundraiser::payments_are_positive(fundraisers.last().payments@);
    }
}

proof fn lemma_earned_grows(fundraisers: Seq<Fundraiser>, n: int)
    requires
        0 <= n <= fundraisers.len(),
    ensures
        earned_total(fundraisers.take(n)) <= earned_total(fundraisers),
    decreases fundraisers.len() - n,
{
    if n == fundraisers.len() {
        assert(fundraisers.take(n) =~= fundraisers);
    } else {
        lemma_earned_grows(fundraisers, n + 1);
        assert(fundraisers.take(n + 1).drop_last() =~= fundraisers.take(n));
        fundraiser::payments_are_positive(fundraisers[n].payments@);
    }
}

/// Adds up what some fundraisers have earned, unless it does not fit.
fn checked_earned_total(fundraisers: &Vec<Fundraiser>) -> (res: Option<u64>)
    ensures
        res is Some <==> earned_total(fundraisers@) <= u64::MAX,
        res matches Some(total) ==> total == earned_total(fundraisers@),
{
    let mut total: u64 = 0;
    let mut i: usize = 0;
    while i < fundraisers.len()
        invariant
            i <= fundraisers@.len(),
            total == earned_total(fundraisers@.take(i as int)),
        decreases fundraisers@.len() - i,
    {
        proof {
            lemma_earned_grows(fundraisers@, i + 1);
            assert(fundraisers@.take(i + 1).drop_last() =~= fundraisers@.take(i as int));
            fundraiser::payments_are_positive(fundraisers@[i as int].payments@);
        }
        let earned: u64 = match fundraisers[i].checked_amt_earned() {
            Some(earned) => earned,
            None => return None,
        };
        total = match total.checked_add(earned) {
            Some(sum) => sum,
            None => return None,
        };
        i += 1;
    }
    assert(fundraisers@.take(fundraisers@.len() as int) =~= fundraisers@);
    Some(total)
}

proof fn lemma_fees_are_positive(transfers_out: Seq<Transfer>)
    ensures
        service_fees(transfers_out) >= 0,
    decreases transfers_out.len(),
{
    if transfers_out.len() > 0 {
        lemma_fees_are_positive(transfers_out.drop_last());
    }
}

proof fn lemma_fees_grow(transfers_out: Seq<Transfer>, n: int)
    requires
        0 <= n <= transfers_out.len(),
    ensures
        service_fees(transfers_out.take(n)) <= service_fees(transfers_out),
    decreases transfers_out.len() - n,
{
    if n == transfers_out.len() {
        assert(transfers_out.take(n) =~= transfers_out);
    } else {
        lemma_fees_grow(transfers_out, n + 1);
        assert(transfers_out.take(n + 1).drop_last() =~= transfers_out.take(n));
    }
}

/// Works out what the service kept of some outgoing transfers, unless a sum
/// does not fit.
fn checked_service_fees(transfers_out: &Vec<Transfer>) -> (res: Option<u64>)
    ensures
        res is Some <==> {
            &&& forall|i: int|
                0 <= i < transfers_out@.len() ==> (#[trigger] transfers_out@[i]).amount
                    + transfers_out@[i].fee <= u64::MAX
            &&& service_fees(transfers_out@) <= u64::MAX
        },
        res matches Some(total) ==> total == service_fees(transfers_out@),
{
    let mut total: u64 = 0;
    let mut i: usize = 0;
    while i < transfers_out.len()
        invariant
            i <= transfers_out@.len(),
            total == service_fees(transfers_out@.take(i as int)),
            forall|j: int|
                0 <= j < i ==> (#[trigger] transfers_out@[j]).amount + transfers_out@[j].fee
                    <= u64::MAX,
        decreases transfers_out@.len() - i,
    {
        proof {
            lemma_fees_grow(transfers_out@, i + 1);
            assert(transfers_out@.take(i + 1).drop_last() =~= transfers_out@.take(i as int));
        }
        let paid: u64 = match transfers_out[i].amount.checked_add(transfers_out[i].fee) {
            Some(paid) => paid,
            None => return None,
        };
        total = match total.checked_add(paid / 49) {
            Some(sum) => sum,
            None => return None,
        };
        i += 1;
    }
    assert(transfers_out@.take(transfers_out@.len() as int) =~= transfers_out@);
    Some(total)
}

/// A request that needs a session and nothing else.
pub struct AuthorizedReq {
    pub username: String,
    pub auth_cookie: String,
}

/// A request to send withdrawals to a Monero address.
pub struct AttachXMRAddress {
    pub username: String,
    pub auth_cookie: String,
    pub monero_address: String,
}

/// Where to deposit, and the least that is worth it.
pub struct DepositReqResp {
    pub addr: String,
    pub min_amt: u64,
}

/// What a user has.
pub struct BalanceReqResp {
    pub balance: u64,
    pub pending_deposits: u64,
}

/// A request to withdraw money.
pub struct WithdrawMoneroReq {
    pub username: String,
    pub auth_cookie: String,
    pub amt: u64,
}

/// What came of a request to withdraw money.
pub struct WithdrawMoneroResp {
    pub amt_sent_after_fee: u64,
    pub fee_taken: u64,
}

/// A transfer that the chain knows of.
pub struct BlockchainTransfer {
    pub from: String,
    pub block_height: u64,
    pub amt: u64,
    pub tx_hash: String,
}

/// The network's fee, kept so that it need not be asked for each time.
pub struct CachedFee {
    pub fee: u64,
    pub block_updated: u64,
}

/// Bytes of a usual transaction, by which a fee per byte is multiplied.
pub const TRANSACTION_SIZE: u64 = 2_000;

/// The fee per byte that is taken where the network's cannot be had.
pub const FALLBACK_FEE: u64 = 4157;

impl CachedFee {
    /// No fee is known yet.
    pub fn new() -> (res: Self)
        ensures
            res.fee == 0,
            res.block_updated == 0,
    {
        CachedFee { fee: 0, block_updated: 0 }
    }

    /// The fee that is kept. Where there is none yet, the network's fee per
    /// byte, or an older known one, for a usual transaction.
    pub fn get_fee(&self, fee_per_byte: Option<u64>) -> (res: u64)
        requires
            self.fee == 0 ==> (fee_per_byte matches Some(fee) ==> fee * TRANSACTION_SIZE
                <= u64::MAX),
        ensures
            res == (if self.fee != 0 {
                self.fee as int
            } else if fee_per_byte is Some {
                fee_per_byte->0 * 2_000
            } else {
                8_314_000
            }),
            res == fee_in_use(self.fee, fee_per_byte),
    {
        if self.fee == 0 {
            fee_per_byte.unwrap_or(FALLBACK_FEE) * TRANSACTION_SIZE
        } else {
            self.fee
        }
    }

    /// The network's fee for a usual transaction, if it can be had.
    pub fn get_uptodate_fee(&self, fee_per_byte: Option<u64>) -> (res: Option<u64>)
        requires
            fee_per_byte matches Some(fee) ==> fee * TRANSACTION_SIZE <= u64::MAX,
        ensures
            res is Some <==> fee_per_byte is Some,
            res matches Some(fee) ==> fee == fee_per_byte->0 * 2_000,
            res matches Some(fee) ==> fee == usual_fee(fee_per_byte->0),
    {
        match fee_per_byte {
            Some(fee) => Some(fee * TRANSACTION_SIZE),
            None => None,
        }
    }
}

/// Keeps the fee per byte that the network gave; without one, what was kept
/// stays.
pub fn update_cached_fee(cached_fee: &mut CachedFee, fee: Option<u64>)
    ensures
        final(cached_fee).fee == (match fee {
            Some(fee) => fee,
            None => old(cached_fee).fee,
        }),
        final(cached_fee).block_updated == old(cached_fee).block_updated,
        final(cached_fee).fee == fee_to_keep(old(cached_fee).fee, fee),
{
    if let Some(fee) = fee {
        cached_fee.fee = fee;
    }
}

/// A transfer that waits to be sent.
pub struct TransferReq {
    pub username: String,
    pub dst: Address,
    pub priority: Option<u8>,
    pub amt: u64,
    pub addr_index: u64,
}

/// Answers a request for a place to deposit. The least amount is five times
/// the fee.
pub fn deposit_req(
    invoice_req: &AuthorizedReq,
    user_exists: bool,
    stored: &Option<AuthCookie>,
    fee: u64,
    financial_info: &Option<FinancialInfo>,
) -> (res: Result<DepositReqResp, DenialResponse>)
    requires
        auth::authorized(user_exists, invoice_req.auth_cookie@, *stored) ==> financial_info is Some
            && fee * 5 <= u64::MAX,
    ensures
        res is Ok <==> auth::authorized(user_exists, invoice_req.auth_cookie@, *stored),
        res matches Ok(resp) ==> resp.addr@ == financial_info->0.deposit_addr@ && resp.min_amt
            == fee * 5,
        res matches Err(denial) ==> denial.says_unauthorized(),
        res matches Ok(resp) ==> is_deposit_offer(resp, financial_info->0, fee),
{
    match financial_info {
        Some(info) if is_authorized(user_exists, &invoice_req.auth_cookie, stored) => Ok(
            DepositReqResp { addr: info.deposit_addr.to_text(), min_amt: fee * 5 },
        ),
        _ => Err(deny_unauthorized()),
    }
}

/// Answers a request for a user's balance.
pub fn get_balance(
    auth_req: &AuthorizedReq,
    user_exists: bool,
    stored: &Option<AuthCookie>,
    financial_info: &Option<FinancialInfo>,
) -> (res: Result<BalanceReqResp, DenialResponse>)
    requires
        auth::authorized(user_exists, auth_req.auth_cookie@, *stored) ==> (
        financial_info matches Some(info) && info.balance_known()),
    ensures
        res is Ok <==> auth::authorized(user_exists, auth_req.auth_cookie@, *stored),
        res matches Ok(resp) ==> {
            &&& resp.balance == financial_info->0.spendable()
            &&& resp.pending_deposits == financial_info->0.pending_balance
        },
        res matches Err(denial) ==> denial.says_unauthorized(),
        res matches Ok(resp) ==> is_statement(resp, financial_info->0),
{
    match financial_info {
        Some(info) if is_authorized(user_exists, &auth_req.auth_cookie, stored) => Ok(
            BalanceReqResp { balance: info.get_balance(), pending_deposits: info.pending_balance },
        ),
        _ => Err(deny_unauthorized()),
    }
}

/// What came of a request to attach an address.
pub enum Attachment {
    /// The account with the new address, to be stored.
    Attached(FinancialInfo),
    /// The request is refused.
    Denied(DenialResponse),
    /// The text is the beginning of an address: it cannot even be refused.
    Incomplete,
}

/// Answers a request to send withdrawals to a Monero address.
pub fn attach_xmr_address(
    attach_req: &AttachXMRAddress,
    user_exists: bool,
    stored: &Option<AuthCookie>,
    financial_info: Option<FinancialInfo>,
) -> (res: Attachment)
    requires
        auth::authorized(user_exists, attach_req.auth_cookie@, *stored) ==> financial_info is Some,
    ensures
        !auth::authorized(user_exists, attach_req.auth_cookie@, *stored) ==> (
        res matches Attachment::Denied(denial) && denial.says_unauthorized()),
        auth::authorized(user_exists, attach_req.auth_cookie@, *stored) ==> {
            let text = attach_req.monero_address@;
            if !crate::wallet::address::address_readable(text) {
                res is Incomplete
            } else if outside::address::address_text(text) is None {
                res matches Attachment::Denied(denial) && denial.says(
                    400,
                    DenialFault::User,
                    "Invalid address"@,
                    ""@,
                )
            } else {
                &&& res matches Attachment::Attached(info)
                &&& info == (FinancialInfo { xmr_addr: info.xmr_addr, ..financial_info->0 })
                &&& info.xmr_addr matches Some(addr)
                &&& Some(addr@) == outside::address::address_text(text)
            }
        },
        res matches Attachment::Attached(info) ==> only_address_changed(info, financial_info->0),
{
    match financial_info {
        Some(info) if is_authorized(user_exists, &attach_req.auth_cookie, stored) => {
            match Address::read(attach_req.monero_address.as_str()) {
                AddressReading::Found(addr) => Attachment::Attached(
                    FinancialInfo { xmr_addr: Some(addr), ..info },
                ),
                AddressReading::Invalid(_) => Attachment::Denied(
                    deny(400, DenialFault::User, "Invalid address", ""),
                ),
                AddressReading::Incomplete => Attachment::Incomplete,
            }
        },
        _ => Attachment::Denied(deny_unauthorized()),
    }
}

/// What some users can spend together.
pub open spec fn spendable_total(accounts: Seq<FinancialInfo>) -> int
    decreases accounts.len(),
{
    if accounts.len() == 0 {
        0
    } else {
        spendable_total(accounts.drop_last()) + accounts.last().spendable()
    }
}

/// Whether the balance of every user is known, and all of them together are no
/// more than the wallet holds.
pub open spec fn profits_known(accounts: Seq<FinancialInfo>, wallet_balance: u64) -> bool {
    &&& forall|i: int| 0 <= i < accounts.len() ==> (#[trigger] accounts[i]).balance_known()
    &&& spendable_total(accounts) <= wallet_balance
}

proof fn lemma_spendable_grows(accounts: Seq<FinancialInfo>, n: int)
    requires
        0 <= n <= accounts.len(),
        forall|i: int| n <= i < accounts.len() ==> (#[trigger] accounts[i]).balance_known(),
    ensures
        spendable_total(accounts.take(n)) <= spendable_total(accounts),
    decreases accounts.len() - n,
{
    if n == accounts.len() {
        assert(accounts.take(n) =~= accounts);
    } else {
        lemma_spendable_grows(accounts, n + 1);
        assert(accounts.take(n + 1).drop_last() =~= accounts.take(n));
    }
}

/// What the wallet holds beyond what belongs to the users. Only one name and
/// one cookie are told.
pub fn server_profits(
    auth_req: &AuthorizedReq,
    wallet_balance: u64,
    accounts: &Vec<FinancialInfo>,
) -> (res: Option<u64>)
    requires
        auth_req.username@ == "billy"@ && auth_req.auth_cookie@ == "bobby"@ ==> profits_known(
            accounts@,
            wallet_balance,
        ),
    ensures
        res is Some <==> auth_req.username@ == "billy"@ && auth_req.auth_cookie@ == "bobby"@,
        res matches Some(profit) ==> profit == wallet_balance - spendable_total(accounts@),
        res matches Some(profit) ==> is_profit(profit, wallet_balance, accounts@),
{
    if auth_req.username != "billy".to_owned() || auth_req.auth_cookie != "bobby".to_owned() {
        return None;
    }
    let mut total: u64 = 0;
    let mut i: usize = 0;
    while i < accounts.len()
        invariant
            i <= accounts@.len(),
            profits_known(accounts@, wallet_balance),
            total == spendable_total(accounts@.take(i as int)),
        decreases accounts@.len() - i,
    {
        proof {
            lemma_spendable_grows(accounts@, i + 1);
            assert(accounts@.take(i + 1).drop_last() =~= accounts@.take(i as int));
        }
        total += accounts[i].get_balance();
        i += 1;
    }
    assert(accounts@.take(accounts@.len() as int) =~= accounts@);
    Some(wallet_balance - total)
}

/// The least that can be withdrawn.
pub open spec fn min_withdrawal(net_fee: u64) -> int {
    net_fee * 5
}

/// What the service keeps of a withdrawal: two in a hundred.
pub open spec fn service_fee(amt: u64) -> int {
    (2 * amt) / 100
}

/// A withdrawal that is granted: the transfer to put into the queue, and the
/// answer once it is there.
pub struct Withdrawal {
    pub transfer_req: TransferReq,
    pub resp: WithdrawMoneroResp,
}

/// Answers a request to withdraw money. `net_fee` is the network's fee, if it
/// could be had, and `financial_info` what is known of the user's money.
pub fn withdraw_monero(
    withdraw_req: &WithdrawMoneroReq,
    user_exists: bool,
    stored: &Option<AuthCookie>,
    net_fee: Option<u64>,
    financial_info: &Option<FinancialInfo>,
) -> (res: Result<Withdrawal, DenialResponse>)
    requires
        auth::authorized(user_exists, withdraw_req.auth_cookie@, *stored) ==> (
        net_fee matches Some(fee) ==> {
            &&& min_withdrawal(fee) <= u64::MAX
            &&& withdraw_req.amt >= min_withdrawal(fee) ==> (financial_info matches Some(info)
                ==> info.balance_known())
        }),
    ensures
        ({
            let amt = withdraw_req.amt;
            if !auth::authorized(user_exists, withdraw_req.auth_cookie@, *stored) {
                res matches Err(denial) && denial.says_unauthorized()
            } else if net_fee is None {
                res matches Err(denial) && denial.says(
                    500,
                    DenialFault::Server,
                    "Could not get Monero fee"@,
                    ""@,
                )
            } else if amt < min_withdrawal(net_fee->0) {
                res matches Err(denial) && denial.says(
                    412,
                    DenialFault::User,
                    "Withdrawal amount "@ + text::decimal(amt as nat)
                        + " is lower than the minimum: "@ + text::decimal(
                        min_withdrawal(net_fee->0) as nat,
                    ),
                    ""@,
                )
            } else if financial_info is None {
                res matches Err(denial) && denial.says_unauthorized()
            } else if financial_info->0.spendable() < min_withdrawal(net_fee->0) {
                res matches Err(denial) && denial.says(
                    412,
                    DenialFault::User,
                    "User balance "@ + text::decimal(financial_info->0.spendable() as nat)
                        + " is lower than the minimum: "@ + text::decimal(
                        min_withdrawal(net_fee->0) as nat,
                    ),
                    ""@,
                )
            } else if financial_info->0.xmr_addr is None {
                res matches Err(denial) && denial.says(
                    400,
                    DenialFault::User,
                    "Withdrawal address not found"@,
                    "Please attach a withdrawl address to your account"@,
                )
            } else {
                &&& res matches Ok(withdrawal)
                &&& withdrawal.transfer_req.username@ == withdraw_req.username@
                &&& withdrawal.transfer_req.dst@ == financial_info->0.xmr_addr->0@
                &&& withdrawal.transfer_req.priority == Some(0u8)
                &&& withdrawal.transfer_req.amt == amt - net_fee->0 - service_fee(amt)
                &&& withdrawal.transfer_req.addr_index == financial_info->0.transfers.addr_index
                &&& withdrawal.resp.amt_sent_after_fee == withdrawal.transfer_req.amt
                &&& withdrawal.resp.fee_taken == service_fee(amt) + net_fee->0
            }
        }),
        res is Ok <==> can_withdraw(
            auth::authorized(user_exists, withdraw_req.auth_cookie@, *stored),
            withdraw_req.amt,
            net_fee,
            *financial_info,
        ),
        res matches Ok(withdrawal) ==> is_withdrawal(
            withdrawal,
            *withdraw_req,
            net_fee->0,
            financial_info->0,
        ),
{
    if !is_authorized(user_exists, &withdraw_req.auth_cookie, stored) {
        return Err(deny_unauthorized());
    }
    let net_fee: u64 = match net_fee {
        Some(net_fee) => net_fee,
        None => return Err(deny(500, DenialFault::Server, "Could not get Monero fee", "")),
    };
    let min_amt: u64 = net_fee * 5;
    if withdraw_req.amt < min_amt {
        let mut reason: String = "Withdrawal amount ".to_owned();
        reason.append(text::decimal_text(withdraw_req.amt).as_str());
        reason.append(" is lower than the minimum: ");
        reason.append(text::decimal_text(min_amt).as_str());
        return Err(deny(412, DenialFault::User, reason.as_str(), ""));
    }
    let info = match financial_info {
        Some(info) => info,
        None => return Err(deny_unauthorized()),
    };
    let user_balance: u64 = info.get_balance();
    if user_balance < min_amt {
        let mut reason: String = "User balance ".to_owned();
        reason.append(text::decimal_text(user_balance).as_str());
        reason.append(" is lower than the minimum: ");
        reason.append(text::decimal_text(min_amt).as_str());
        return Err(deny(412, DenialFault::User, reason.as_str(), ""));
    }
    let service_fee: u64 = withdraw_req.amt / 50;
    let fee_taken: u64 = service_fee + net_fee;
    let amt_sent_after_fee: u64 = withdraw_req.amt - fee_taken;
    match &info.xmr_addr {
        Some(addr) => Ok(
            Withdrawal {
                transfer_req: TransferReq {
                    username: withdraw_req.username.clone(),
                    dst: addr.clone(),
                    priority: Some(0),
                    amt: amt_sent_after_fee,
                    addr_index: info.transfers.addr_index,
                },
                resp: WithdrawMoneroResp { amt_sent_after_fee, fee_taken },
            },
        ),
        None => Err(
            deny(
                400,
                DenialFault::User,
                "Withdrawal address not found",
                "Please attach a withdrawl address to your account",
            ),
        ),
    }
}

/// The refusal of a withdrawal that could not be put into the queue.
pub fn withdrawal_not_queued() -> (res: DenialResponse)
    ensures
        res.says(500, DenialFault::Server, "Internal server error, please try again"@, ""@),
{
    deny(500, DenialFault::Server, "Internal server error, please try again", "")
}

/// What is sent, what the service keeps and what the network gets are together
/// the amount that was asked for, and something is always left to be sent.
pub proof fn withdrawal_is_split(amt: u64, net_fee: u64)
    requires
        amt >= min_withdrawal(net_fee),
        amt > 0,
    ensures
        amt - net_fee - service_fee(amt) > 0,
        (amt - net_fee - service_fee(amt)) + service_fee(amt) + net_fee == amt,
{
}

/// The service's fee can be worked out of what was sent and of the network's
/// fee, unless the amount is one short of a multiple of fifty: it then comes
/// out as one too much.
pub proof fn service_fee_is_recovered(amt: u64, net_fee: u64)
    requires
        amt >= min_withdrawal(net_fee),
    ensures
        amt as int % 50 != 49 ==> ((amt - net_fee - service_fee(amt)) + net_fee) / 49
            == service_fee(amt),
        amt as int % 50 == 49 ==> ((amt - net_fee - service_fee(amt)) + net_fee) / 49
            == service_fee(amt) + 1,
{
}

/// Whose money it is, and what is known of it.
pub struct Account {
    pub username: String,
    pub info: FinancialInfo,
}

/// The balance of the first subaddress with the number `addr_index`.
pub open spec fn balance_at(balances: Seq<SubaddressBalance>, addr_index: u64) -> Option<u64>
    decreases balances.len(),
{
    if balances.len() == 0 {
        None
    } else if balances[0].addr_index == addr_index {
        Some(balances[0].balance)
    } else {
        balance_at(balances.drop_first(), addr_index)
    }
}

/// Looks the balance of a subaddress up.
fn find_balance(balances: &Vec<SubaddressBalance>, addr_index: u64) -> (res: Option<u64>)
    ensures
        res == balance_at(balances@, addr_index),
{
    let mut i: usize = 0;
    assert(balances@.skip(0) =~= balances@);
    while i < balances.len()
        invariant
            i <= balances@.len(),
            balance_at(balances@, addr_index) == balance_at(balances@.skip(i as int), addr_index),
        decreases balances@.len() - i,
    {
        assert(balances@.skip(i as int).drop_first() =~= balances@.skip(i + 1));
        if balances[i].addr_index == addr_index {
            return Some(balances[i].balance);
        }
        i += 1;
    }
    None
}

/// The balance that `balances` state for a subaddress, where they could be had.
pub open spec fn stated_balance(balances: Option<WalletBalance>, addr_index: u64) -> Option<u64> {
    match balances {
        Some(all) => balance_at(all.per_subaddress@, addr_index),
        None => None,
    }
}

/// The transfers of an account: those at its place in the list, or without one
/// those that are known already.
pub open spec fn fresh_transfers(
    info: FinancialInfo,
    all_transfers: Seq<Transfers>,
) -> TransfersView {
    if info.transfers.addr_index - 1 < all_transfers.len() {
        all_transfers[info.transfers.addr_index - 1]@
    } else {
        info.transfers@
    }
}

/// The balance of an account: what the wallet states for it, or else what is
/// known already.
pub open spec fn fresh_balance(
    info: FinancialInfo,
    all_transfers: Seq<Transfers>,
    balances: Option<WalletBalance>,
) -> u64 {
    match stated_balance(balances, fresh_transfers(info, all_transfers).addr_index) {
        Some(balance) => balance,
        None => info.balance,
    }
}

/// What there is on an account beyond what can be spent yet: nothing where
/// less is there than can be spent.
pub open spec fn fresh_pending(
    info: FinancialInfo,
    all_transfers: Seq<Transfers>,
    balances: Option<WalletBalance>,
    full_balances: Option<WalletBalance>,
) -> Option<int> {
    match stated_balance(full_balances, fresh_transfers(info, all_transfers).addr_index) {
        Some(balance) => if balance >= fresh_balance(info, all_transfers, balances) {
            Some(balance - fresh_balance(info, all_transfers, balances))
        } else {
            None
        },
        None => Some(info.pending_balance as int),
    }
}

/// Whether an account can be brought up to date: it has a subaddress other
/// than 0 whose number fits the machine, and no less is there than can be
/// spent.
pub open spec fn can_update(
    info: FinancialInfo,
    all_transfers: Seq<Transfers>,
    balances: Option<WalletBalance>,
    full_balances: Option<WalletBalance>,
) -> bool {
    &&& 1 <= info.transfers.addr_index <= usize::MAX
    &&& fresh_pending(info, all_transfers, balances, full_balances) is Some
}

/// Whether `updated` is the account `info` brought up to date.
pub open spec fn is_updated(
    updated: FinancialInfo,
    info: FinancialInfo,
    all_transfers: Seq<Transfers>,
    balances: Option<WalletBalance>,
    full_balances: Option<WalletBalance>,
) -> bool {
    &&& updated == (FinancialInfo {
        transfers: updated.transfers,
        balance: fresh_balance(info, all_transfers, balances),
        pending_balance: updated.pending_balance,
        ..info
    })
    &&& updated.transfers@ == fresh_transfers(info, all_transfers)
    &&& fresh_pending(info, all_transfers, balances, full_balances) == Some(
        updated.pending_balance as int,
    )
}

/// Brings an account up to date with the wallet.
fn update_account(
    info: FinancialInfo,
    all_transfers: &Vec<Transfers>,
    balances: &Option<WalletBalance>,
    full_balances: &Option<WalletBalance>,
) -> (res: Option<FinancialInfo>)
    ensures
        res is Some <==> can_update(info, all_transfers@, *balances, *full_balances),
        res matches Some(updated) ==> is_updated(
            updated,
            info,
            all_transfers@,
            *balances,
            *full_balances,
        ),
{
    if info.transfers.addr_index == 0 || info.transfers.addr_index > usize::MAX as u64 {
        return None;
    }
    let place: usize = info.transfers.addr_index as usize - 1;
    let transfers: Transfers = if place < all_transfers.len() {
        all_transfers[place].clone()
    } else {
        info.transfers.clone()
    };
    let addr_index: u64 = transfers.addr_index;
    assert(addr_index == transfers@.addr_index);
    let stated: Option<u64> = match balances {
        Some(all) => find_balance(&all.per_subaddress, addr_index),
        None => None,
    };
    let balance: u64 = match stated {
        Some(balance) => balance,
        None => info.balance,
    };
    let full: Option<u64> = match full_balances {
        Some(all) => find_balance(&all.per_subaddress, addr_index),
        None => None,
    };
    let pending_balance: u64 = match full {
        Some(full) => if full >= balance {
            full - balance
        } else {
            return None;
        },
        None => info.pending_balance,
    };
    Some(FinancialInfo { transfers, balance, pending_balance, ..info })
}

/// Brings all accounts up to date with the wallet: the list of accounts to
/// store, unless one of them cannot be brought up to date. `balances` is what
/// can be spent and `full_balances` what is there, where the wallet told it.
pub fn update_acc_balances(
    accounts: Vec<Account>,
    all_transfers: &Vec<Transfers>,
    balances: &Option<WalletBalance>,
    full_balances: &Option<WalletBalance>,
) -> (res: Option<Vec<Account>>)
    ensures
        res is Some <==> forall|i: int|
            0 <= i < accounts@.len() ==> can_update(
                (#[trigger] accounts@[i]).info,
                all_transfers@,
                *balances,
                *full_balances,
            ),
        res matches Some(batch) ==> batch@.len() == accounts@.len() && forall|i: int|
            0 <= i < accounts@.len() ==> (#[trigger] batch@[i]).username == accounts@[i].username
                && is_updated(
                batch@[i].info,
                accounts@[i].info,
                all_transfers@,
                *balances,
                *full_balances,
            ),
{
    let mut batch: Vec<Account> = Vec::new();
    let ghost all = accounts@;
    for account in iter: accounts
        invariant
            all == iter.seq(),
            batch@.len() == iter.index(),
            forall|i: int|
                0 <= i < iter.index() ==> can_update(
                    (#[trigger] all[i]).info,
                    all_transfers@,
                    *balances,
                    *full_balances,
                ),
            forall|i: int|
                0 <= i < iter.index() ==> (#[trigger] batch@[i]).username == all[i].username
                    && is_updated(
                    batch@[i].info,
                    all[i].info,
                    all_transfers@,
                    *balances,
                    *full_balances,
                ),
    {
        assert(account == all[iter.index()]);
        match update_account(account.info, all_transfers, balances, full_balances) {
            Some(info) => batch.push(Account { username: account.username, info }),
            None => return None,
        }
    }
    Some(batch)
}

/// The numbers of the subaddresses of some accounts.
pub fn account_indices(accounts: &Vec<FinancialInfo>) -> (res: Vec<u64>)
    ensures
        res@ == accounts@.map_values(|info: FinancialInfo| info.transfers.addr_index),
{
    let mut res: Vec<u64> = Vec::new();
    let mut i: usize = 0;
    while i < accounts.len()
        invariant
            i <= accounts@.len(),
            res@.len() == i,
            forall|j: int| 0 <= j < i ==> res@[j] == accounts@[j].transfers.addr_index,
        decreases accounts@.len() - i,
    {
        res.push(accounts[i].transfers.addr_index);
        i += 1;
    }
    assert(res@ =~= accounts@.map_values(|info: FinancialInfo| info.transfers.addr_index));
    res
}

/// Seconds between two questions for the transfers of all users.
pub const TRANSFERS_WAIT_SECS: u64 = 7;

/// Seconds before the wallet is asked again after it gave no transfers.
pub const TRANSFERS_RETRY_SECS: u64 = 30;

/// What comes of one question for the transfers of all users.
pub enum TransferUpdate {
    /// The transfers were replaced.
    Updated,
    /// There was no answer, or none with a result: the transfers stay.
    Unanswered,
    /// The answer breaks the protocol: the transfers stay.
    Malformed,
}

/// What comes of the wallet's answer to the question for all transfers.
pub open spec fn transfer_update(response: Option<JsonValue>) -> TransferUpdate {
    match response {
        None => TransferUpdate::Unanswered,
        Some(response) => match response.member("result"@) {
            None => TransferUpdate::Unanswered,
            Some(result) => if wallet_rpc::transfers_readable(result) {
                TransferUpdate::Updated
            } else {
                TransferUpdate::Malformed
            },
        },
    }
}

/// Brings the transfers of all users up to date with the wallet's answer to the
/// question for the subaddresses of all accounts: see `Wallet::get_transfers`.
/// Gives the seconds after which to ask again, or nothing where the answer
/// breaks the protocol.
pub fn update_transfers(
    all_transfers: &mut Vec<Transfers>,
    wallet: &Wallet,
    accounts: &Vec<FinancialInfo>,
    response: Option<&JsonValue>,
) -> (wait: Option<u64>)
    ensures
        match transfer_update(wallet_rpc::read(response)) {
            TransferUpdate::Updated => {
                &&& wait == Some(TRANSFERS_WAIT_SECS)
                &&& wallet_rpc::all_views(final(all_transfers)@) == wallet_rpc::sorted_transfers(
                    accounts@.map_values(|info: FinancialInfo| info.transfers.addr_index),
                    wallet_rpc::transfers_listed(
                        wallet_rpc::listed_under(response->0.member("result"@)->0, "in"@),
                    ),
                    wallet_rpc::transfers_listed(
                        wallet_rpc::listed_under(response->0.member("result"@)->0, "out"@),
                    ),
                )
            },
            TransferUpdate::Unanswered => wait == Some(TRANSFERS_RETRY_SECS)
                && *final(all_transfers) == *old(all_transfers),
            TransferUpdate::Malformed => wait is None && *final(all_transfers) == *old(
                all_transfers,
            ),
        },
{
    let response = match response {
        Some(response) => response,
        None => return Some(TRANSFERS_RETRY_SECS),
    };
    let indices = account_indices(accounts);
    match wallet.get_transfers(indices.as_slice(), response) {
        Some(Ok(transfers)) => {
            *all_transfers = transfers;
            Some(TRANSFERS_WAIT_SECS)
        },
        Some(Err(_)) => Some(TRANSFERS_RETRY_SECS),
        None => None,
    }
}

/// Transfers that wait to be sent, in the order in which they came.
pub struct PendingTransfers {
    pub requests: Vec<TransferReq>,
}

/// The queue after the transfer at `i` was tried: a transfer that was sent
/// leaves it.
pub open spec fn after_try(queue: Seq<TransferReq>, i: int, sent: bool) -> Seq<TransferReq> {
    if sent {
        queue.remove(i)
    } else {
        queue
    }
}

/// The place of the transfer to try next.
pub open spec fn place_after_try(i: int, sent: bool) -> int {
    if sent {
        i
    } else {
        i + 1
    }
}

impl PendingTransfers {
    /// An empty queue.
    pub fn new() -> (res: Self)
        ensures
            res.requests@.len() == 0,
    {
        PendingTransfers { requests: Vec::new() }
    }

    /// Puts a transfer at the end of the queue if the user can pay it.
    pub fn accept(&mut self, req: TransferReq, financial_info: &FinancialInfo)
        requires
            financial_info.balance_known(),
        ensures
            final(self).requests@ == (if financial_info.spendable() >= req.amt {
                old(self).requests@.push(req)
            } else {
                old(self).requests@
            }),
            final(self).requests@ == queue_with(
                old(self).requests@,
                req,
                financial_info.spendable(),
            ),
    {
        if financial_info.get_balance() >= req.amt {
            self.requests.push(req);
        }
    }
}

impl FinancialInfo {
    /// Whether the service's fee for a transfer of `amt` that cost the network
    /// fee `fee` can be noted.
    pub open spec fn can_charge(self, amt: u64, fee: u64) -> bool {
        &&& amt + fee <= u64::MAX
        &&& self.service_fee_total + (amt + fee) / 49 <= u64::MAX
    }

    /// Notes the service's fee for a transfer of `amt` that cost the network
    /// fee `fee`.
    pub fn charge_service_fee(&mut self, amt: u64, fee: u64)
        requires
            old(self).can_charge(amt, fee),
        ensures
            *final(self) == (FinancialInfo {
                service_fee_total: (old(self).service_fee_total + (amt + fee) / 49) as u64,
                ..*old(self)
            }),
            is_charged(*final(self), *old(self), amt, fee),
    {
        self.service_fee_total = self.service_fee_total + (amt + fee) / 49;
    }
}

/// A transfer that was sent: what the wallet says of it, and what is known of
/// the money of the user who asked for it.
pub struct SentTransfer {
    pub out: TransferOut,
    pub financial_info: FinancialInfo,
}

/// What follows after a transfer was tried: the place of the one to try next,
/// and the user's money, to be stored if the transfer was sent.
pub struct SendStep {
    pub next: usize,
    pub financial_info: Option<FinancialInfo>,
}

/// Settles the transfer at the place `i` of the queue after it was tried. One
/// that was sent leaves the queue, and the service's fee is noted; one that
/// was not stays, and the next one is tried.
pub fn send_monero(
    pending_requests: &mut PendingTransfers,
    i: usize,
    sent: Option<SentTransfer>,
) -> (step: SendStep)
    requires
        i < old(pending_requests).requests@.len(),
        sent matches Some(transfer) ==> transfer.financial_info.can_charge(
            old(pending_requests).requests@[i as int].amt,
            transfer.out.fee,
        ),
    ensures
        final(pending_requests).requests@ == after_try(
            old(pending_requests).requests@,
            i as int,
            sent is Some,
        ),
        step.next == place_after_try(i as int, sent is Some),
        step.financial_info is Some <==> sent is Some,
        sent matches Some(transfer) ==> step.financial_info == Some(
            FinancialInfo {
                service_fee_total: (transfer.financial_info.service_fee_total + (old(
                    pending_requests,
                ).requests@[i as int].amt + transfer.out.fee) / 49) as u64,
                ..transfer.financial_info
            },
        ),
        sent matches Some(transfer) ==> is_charged(
            step.financial_info->0,
            transfer.financial_info,
            old(pending_requests).requests@[i as int].amt,
            transfer.out.fee,
        ),
{
    match sent {
        Some(transfer) => {
            let mut financial_info = transfer.financial_info;
            let req = pending_requests.requests.remove(i);
            financial_info.charge_service_fee(req.amt, transfer.out.fee);
            SendStep { next: i, financial_info: Some(financial_info) }
        },
        None => {
            let len: usize = pending_requests.requests.len();
            assert(i < len);
            SendStep { next: i + 1, financial_info: None }
        },
    }
}

/// The queue after every transfer from the place `i` on was tried once, where
/// `sent` says of each of them whether it was sent.
pub open spec fn after_pass(queue: Seq<TransferReq>, i: int, sent: Seq<bool>) -> Seq<TransferReq>
    decreases sent.len(),
{
    if sent.len() == 0 {
        queue
    } else {
        after_pass(
            after_try(queue, i, sent[0]),
            place_after_try(i, sent[0]),
            sent.drop_first(),
        )
    }
}

/// The transfers that were not sent, in their order.
pub open spec fn unsent(queue: Seq<TransferReq>, sent: Seq<bool>) -> Seq<TransferReq>
    decreases queue.len(),
{
    if queue.len() == 0 {
        seq![]
    } else if sent[0] {
        unsent(queue.drop_first(), sent.drop_first())
    } else {
        seq![queue[0]] + unsent(queue.drop_first(), sent.drop_first())
    }
}

/// One pass over the queue tries each transfer once: exactly those that were
/// sent leave the queue, and the others stay in their order.
pub proof fn pass_keeps_the_unsent(queue: Seq<TransferReq>, sent: Seq<bool>)
    requires
        sent.len() == queue.len(),
    ensures
        after_pass(queue, 0, sent) == unsent(queue, sent),
{
    lemma_pass(queue, 0, sent);
    assert(queue.take(0) =~= seq![]);
    assert(queue.skip(0) =~= queue);
    assert(after_pass(queue, 0, sent) =~= unsent(queue, sent));
}

proof fn lemma_pass(queue: Seq<TransferReq>, i: int, sent: Seq<bool>)
    requires
        0 <= i <= queue.len(),
        sent.len() == queue.len() - i,
    ensures
        after_pass(queue, i, sent) == queue.take(i) + unsent(queue.skip(i), sent),
    decreases sent.len(),
{
    if sent.len() == 0 {
        assert(queue.take(i) + unsent(queue.skip(i), sent) =~= queue);
    } else {
        let rest = after_try(queue, i, sent[0]);
        let next = place_after_try(i, sent[0]);
        lemma_pass(rest, next, sent.drop_first());
        assert(queue.skip(i).drop_first() =~= queue.skip(i + 1));
        if sent[0] {
            assert(rest.take(i) =~= queue.take(i));
            assert(rest.skip(i) =~= queue.skip(i + 1));
        } else {
            assert(queue.take(i + 1) =~= queue.take(i).push(queue[i]));
            assert(queue.take(i + 1) + unsent(queue.skip(i + 1), sent.drop_first())
                =~= queue.take(i) + unsent(queue.skip(i), sent));
        }
    }
}

/// What two groups of fundraisers have earned is earned together, and a single
/// one counts with all of its payments.
pub proof fn earnings_add_up(a: Seq<Fundraiser>, b: Seq<Fundraiser>, single: Fundraiser)
    ensures
        earned_total(a + b) == earned_total(a) + earned_total(b),
        earned_total(seq![single]) == fundraiser::payments_total(single.payments@),
    decreases b.len(),
{
    reveal_with_fuel(earned_total, 2);
    if b.len() == 0 {
        assert(a + b =~= a);
    } else {
        earnings_add_up(a, b.drop_last(), single);
        assert((a + b).drop_last() =~= a + b.drop_last());
    }
}

/// The service's part of two runs of outgoing transfers adds up, and its part
/// of one transfer is a forty-ninth, rounded down, of what the transfer and the
/// network cost.
pub proof fn service_fees_add_up(a: Seq<Transfer>, b: Seq<Transfer>, single: Transfer)
    ensures
        service_fees(a + b) == service_fees(a) + service_fees(b),
        49 * service_fees(seq![single]) <= single.amount + single.fee < 49 * service_fees(
            seq![single],
        ) + 49,
    decreases b.len(),
{
    reveal_with_fuel(service_fees, 2);
    if b.len() == 0 {
        assert(a + b =~= a);
    } else {
        service_fees_add_up(a, b.drop_last(), single);
        assert((a + b).drop_last() =~= a + b.drop_last());
    }
}

/// Of two sums of fees the greater counts: neither of them is more than what is
/// counted, and one of them is just that.
pub proof fn greater_fees_count(info: FinancialInfo)
    ensures
        info.fees_taken() >= info.service_fee_total,
        info.fees_taken() >= service_fees(info.transfers.transfers_out@),
        info.fees_taken() == info.service_fee_total || info.fees_taken() == service_fees(
            info.transfers.transfers_out@,
        ),
{
}

/// What a user can spend and what the service has taken are together all that
/// has come in: what every open and every past fundraiser has earned, and what
/// the user's address holds.
pub proof fn income_is_spendable_or_taken(info: FinancialInfo)
    ensures
        info.spendable() + info.fees_taken() == earned_total(
            info.active_fundraisers@ + info.old_fundraisers@,
        ) + info.balance,
        info.income() == info.spendable() + info.fees_taken(),
{
    earnings_add_up(
        info.active_fundraisers@,
        info.old_fundraisers@,
        info.active_fundraisers@[0],
    );
}

/// A fundraiser that has earned some amount raises what its owner can spend by
/// that amount, and closing a fundraiser changes nothing.
pub proof fn earnings_can_be_spent(before: FinancialInfo, after: FinancialInfo, new: Fundraiser)
    requires
        after.balance == before.balance,
        after.transfers.transfers_out@ == before.transfers.transfers_out@,
        after.service_fee_total == before.service_fee_total,
    ensures
        after.active_fundraisers@ == before.active_fundraisers@.push(new)
            && after.old_fundraisers@ == before.old_fundraisers@ ==> after.spendable()
            == before.spendable() + fundraiser::payments_total(new.payments@),
        before.active_fundraisers@ == after.active_fundraisers@.push(new)
            && after.old_fundraisers@ == before.old_fundraisers@.push(new) ==> after.spendable()
            == before.spendable(),
{
    earnings_add_up(before.active_fundraisers@, seq![new], new);
    earnings_add_up(after.active_fundraisers@, seq![new], new);
    earnings_add_up(before.old_fundraisers@, seq![new], new);
    assert(before.active_fundraisers@.push(new) =~= before.active_fundraisers@ + seq![new]);
    assert(after.active_fundraisers@.push(new) =~= after.active_fundraisers@ + seq![new]);
    assert(before.old_fundraisers@.push(new) =~= before.old_fundraisers@ + seq![new]);
}

/// Whatever comes in on the user's address can be spent, and whatever is added
/// to the fees that the service keeps count of cannot, once that count is ahead
/// of the transfers.
pub proof fn deposits_can_be_spent(before: FinancialInfo, after: FinancialInfo)
    requires
        after.active_fundraisers@ == before.active_fundraisers@,
        after.old_fundraisers@ == before.old_fundraisers@,
        after.transfers.transfers_out@ == before.transfers.transfers_out@,
    ensures
        after.service_fee_total == before.service_fee_total ==> after.spendable()
            - before.spendable() == after.balance - before.balance,
        after.balance == before.balance && service_fees(before.transfers.transfers_out@)
            <= before.service_fee_total <= after.service_fee_total ==> before.spendable()
            - after.spendable() == after.service_fee_total - before.service_fee_total,
{
}

/// A balance is known unless a sum does not fit a number, or the fees are more
/// than what has come in.
pub proof fn balances_are_known(info: FinancialInfo)
    ensures
        info.balance_known() <==> {
            let out = info.transfers.transfers_out@;
            let income = earned_total(info.active_fundraisers@) + earned_total(
                info.old_fundraisers@,
            ) + info.balance;
            &&& income <= u64::MAX
            &&& forall|i: int|
                0 <= i < out.len() ==> (#[trigger] out[i]).amount + out[i].fee <= u64::MAX
            &&& service_fees(out) <= u64::MAX
            &&& service_fees(out) <= income
            &&& info.service_fee_total <= income
        },
{
}

/// What two groups of users can spend adds up, and a single user counts with
/// all that they can spend.
pub proof fn users_add_up(a: Seq<FinancialInfo>, b: Seq<FinancialInfo>, single: FinancialInfo)
    ensures
        spendable_total(a + b) == spendable_total(a) + spendable_total(b),
        spendable_total(seq![single]) == single.spendable(),
    decreases b.len(),
{
    reveal_with_fuel(spendable_total, 2);
    if b.len() == 0 {
        assert(a + b =~= a);
    } else {
        users_add_up(a, b.drop_last(), single);
        assert((a + b).drop_last() =~= a + b.drop_last());
    }
}

/// Profits are known as soon as every balance is and the wallet holds them all.
pub proof fn profits_are_known(accounts: Seq<FinancialInfo>, wallet_balance: u64)
    ensures
        profits_known(accounts, wallet_balance) <==> {
            &&& forall|i: int| 0 <= i < accounts.len() ==> (#[trigger] accounts[i]).balance_known()
            &&& spendable_total(accounts) <= wallet_balance
        },
{
}

/// The service keeps two in a hundred, rounded down, whatever the amount, and
/// the least that can be withdrawn is five times the network's fee.
pub proof fn withdrawal_terms(amt: u64, net_fee: u64)
    ensures
        100 * service_fee(amt) <= 2 * amt < 100 * service_fee(amt) + 100,
        min_withdrawal(net_fee) == 5 * net_fee,
{
}

/// Whether the place `k` is the first that states a balance for the subaddress.
pub open spec fn first_stated(
    balances: Option<WalletBalance>,
    addr_index: u64,
    k: int,
) -> bool {
    &&& balances matches Some(all)
    &&& 0 <= k < all.per_subaddress@.len()
    &&& all.per_subaddress@[k].addr_index == addr_index
    &&& forall|j: int|
        0 <= j < k ==> (#[trigger] all.per_subaddress@[j]).addr_index != addr_index
}

/// Whether no balance is stated for the subaddress.
pub open spec fn nowhere_stated(balances: Option<WalletBalance>, addr_index: u64) -> bool {
    balances matches Some(all) ==> forall|j: int|
        0 <= j < all.per_subaddress@.len() ==> (#[trigger] all.per_subaddress@[j]).addr_index
            != addr_index
}

/// The first balance that is stated for a subaddress is the one that counts.
pub proof fn first_balance_counts(balances: Option<WalletBalance>, addr_index: u64, k: int)
    ensures
        first_stated(balances, addr_index, k) ==> stated_balance(balances, addr_index) == Some(
            balances->0.per_subaddress@[k].balance,
        ),
        nowhere_stated(balances, addr_index) ==> stated_balance(balances, addr_index) is None,
{
    if let Some(all) = balances {
        lemma_first_balance(all.per_subaddress@, addr_index, k);
    }
}

proof fn lemma_first_balance(balances: Seq<SubaddressBalance>, addr_index: u64, k: int)
    ensures
        0 <= k < balances.len() && balances[k].addr_index == addr_index && (forall|j: int|
            0 <= j < k ==> (#[trigger] balances[j]).addr_index != addr_index) ==> balance_at(
            balances,
            addr_index,
        ) == Some(balances[k].balance),
        (forall|j: int|
            0 <= j < balances.len() ==> (#[trigger] balances[j]).addr_index != addr_index)
            ==> balance_at(balances, addr_index) is None,
    decreases balances.len(),
{
    if balances.len() > 0 {
        let rest = balances.drop_first();
        lemma_first_balance(rest, addr_index, k - 1);
        assert forall|j: int| 0 <= j < rest.len() implies #[trigger] rest[j] == balances[j + 1] by {}
        if k > 0 && 0 <= k < balances.len() {
            assert(rest[k - 1] == balances[k]);
        }
    }
}

/// An account follows the wallet, whatever was known of it before. Its balance
/// is the first that is stated for its subaddress, however much less that is;
/// its balance and what is pending are together the first full balance that is
/// stated. What is not stated stays, and nothing else changes.
pub proof fn accounts_follow_the_wallet(
    updated: FinancialInfo,
    info: FinancialInfo,
    all_transfers: Seq<Transfers>,
    balances: Option<WalletBalance>,
    full_balances: Option<WalletBalance>,
    k: int,
    m: int,
)
    requires
        is_updated(updated, info, all_transfers, balances, full_balances),
        info.transfers.addr_index >= 1,
    ensures
        first_stated(balances, updated.transfers.addr_index, k) ==> updated.balance
            == balances->0.per_subaddress@[k].balance,
        nowhere_stated(balances, updated.transfers.addr_index) ==> updated.balance == info.balance,
        first_stated(full_balances, updated.transfers.addr_index, m) ==> updated.balance
            + updated.pending_balance == full_balances->0.per_subaddress@[m].balance,
        nowhere_stated(full_balances, updated.transfers.addr_index) ==> updated.pending_balance
            == info.pending_balance,
        info.transfers.addr_index <= all_transfers.len() ==> updated.transfers@
            == all_transfers[info.transfers.addr_index - 1]@,
        info.transfers.addr_index > all_transfers.len() ==> updated.transfers@ == info.transfers@,
        updated.xmr_addr == info.xmr_addr,
        updated.deposit_addr == info.deposit_addr,
        updated.active_fundraisers == info.active_fundraisers,
        updated.old_fundraisers == info.old_fundraisers,
        updated.service_fee_total == info.service_fee_total,
{
    assert(updated.transfers@.addr_index == updated.transfers.addr_index);
    first_balance_counts(balances, updated.transfers.addr_index, k);
    first_balance_counts(full_balances, updated.transfers.addr_index, m);
}

/// Two accounts of one subaddress for which the wallet states a balance are
/// brought to the same balance, whatever was known of each of them before.
pub proof fn known_balances_do_not_matter(
    updated_a: FinancialInfo,
    updated_b: FinancialInfo,
    a: FinancialInfo,
    b: FinancialInfo,
    all_transfers: Seq<Transfers>,
    balances: Option<WalletBalance>,
    full_balances: Option<WalletBalance>,
    k: int,
)
    requires
        is_updated(updated_a, a, all_transfers, balances, full_balances),
        is_updated(updated_b, b, all_transfers, balances, full_balances),
        a.transfers.addr_index == b.transfers.addr_index,
        a.transfers.addr_index >= 1,
        first_stated(balances, updated_a.transfers.addr_index, k),
    ensures
        updated_a.balance == updated_b.balance,
{
    assert(updated_a.transfers@.addr_index == updated_a.transfers.addr_index);
    assert(updated_b.transfers@.addr_index == updated_b.transfers.addr_index);
    assert(a.transfers@.addr_index == b.transfers@.addr_index);
    accounts_follow_the_wallet(updated_a, a, all_transfers, balances, full_balances, k, 0);
    accounts_follow_the_wallet(updated_b, b, all_transfers, balances, full_balances, k, 0);
}

/// When an account can follow the wallet: it has a subaddress other than 0
/// whose number fits the machine, and the full balance that is stated, if any
/// is, is no less than the balance that can be spent.
pub proof fn accounts_can_follow(
    info: FinancialInfo,
    all_transfers: Seq<Transfers>,
    balances: Option<WalletBalance>,
    full_balances: Option<WalletBalance>,
    addr_index: u64,
    k: int,
    m: int,
)
    requires
        info.transfers.addr_index >= 1,
        addr_index == if info.transfers.addr_index <= all_transfers.len() {
            all_transfers[info.transfers.addr_index - 1].addr_index
        } else {
            info.transfers.addr_index
        },
    ensures
        info.transfers.addr_index > usize::MAX ==> !can_update(
            info,
            all_transfers,
            balances,
            full_balances,
        ),
        info.transfers.addr_index <= usize::MAX && nowhere_stated(full_balances, addr_index)
            ==> can_update(info, all_transfers, balances, full_balances),
        info.transfers.addr_index <= usize::MAX && first_stated(full_balances, addr_index, m)
            && first_stated(balances, addr_index, k) ==> (can_update(
            info,
            all_transfers,
            balances,
            full_balances,
        ) <==> full_balances->0.per_subaddress@[m].balance
            >= balances->0.per_subaddress@[k].balance),
        info.transfers.addr_index <= usize::MAX && first_stated(full_balances, addr_index, m)
            && nowhere_stated(balances, addr_index) ==> (can_update(
            info,
            all_transfers,
            balances,
            full_balances,
        ) <==> full_balances->0.per_subaddress@[m].balance >= info.balance),
{
    assert(fresh_transfers(info, all_transfers).addr_index == addr_index);
    first_balance_counts(balances, addr_index, k);
    first_balance_counts(full_balances, addr_index, m);
}

/// An account without a subaddress cannot follow the wallet.
pub proof fn accounts_need_a_subaddress(
    info: FinancialInfo,
    all_transfers: Seq<Transfers>,
    balances: Option<WalletBalance>,
    full_balances: Option<WalletBalance>,
)
    requires
        info.transfers.addr_index == 0,
    ensures
        !can_update(info, all_transfers, balances, full_balances),
{
}

/// The transfers are replaced exactly where the wallet answers with a result
/// that can be read, and only an answer with a result can break the protocol.
pub proof fn answers_with_a_result_decide(response: JsonValue)
    ensures
        transfer_update(None) is Unanswered,
        transfer_update(Some(response)) is Unanswered <==> response.member("result"@) is None,
        response.member("result"@) matches Some(result) ==> (transfer_update(
            Some(response),
        ) is Updated <==> wallet_rpc::transfers_readable(result)),
{
}

/// The wallet is asked for transfers every seven seconds, and after it gave
/// none again after thirty.
pub proof fn waits_between_questions()
    ensures
        TRANSFERS_WAIT_SECS == 7,
        TRANSFERS_RETRY_SECS == 30,
{
}

/// A pass over two queues, one behind the other, is a pass over the first and a
/// pass over the second; a single transfer leaves the queue if it was sent and
/// stays if it was not.
pub proof fn passes_add_up(
    a: Seq<TransferReq>,
    b: Seq<TransferReq>,
    sent_a: Seq<bool>,
    sent_b: Seq<bool>,
    single: TransferReq,
)
    requires
        sent_a.len() == a.len(),
        sent_b.len() == b.len(),
    ensures
        after_pass(a + b, 0, sent_a + sent_b) == after_pass(a, 0, sent_a) + after_pass(
            b,
            0,
            sent_b,
        ),
        after_pass(seq![single], 0, seq![true]) == Seq::<TransferReq>::empty(),
        after_pass(seq![single], 0, seq![false]) == seq![single],
{
    pass_keeps_the_unsent(a + b, sent_a + sent_b);
    pass_keeps_the_unsent(a, sent_a);
    pass_keeps_the_unsent(b, sent_b);
    pass_keeps_the_unsent(seq![single], seq![true]);
    pass_keeps_the_unsent(seq![single], seq![false]);
    lemma_unsent_adds_up(a, b, sent_a, sent_b);
    reveal_with_fuel(unsent, 2);
    assert(unsent(seq![single], seq![true]) =~= seq![]);
    assert(unsent(seq![single], seq![false]) =~= seq![single]);
}

proof fn lemma_unsent_adds_up(
    a: Seq<TransferReq>,
    b: Seq<TransferReq>,
    sent_a: Seq<bool>,
    sent_b: Seq<bool>,
)
    requires
        sent_a.len() == a.len(),
        sent_b.len() == b.len(),
    ensures
        unsent(a + b, sent_a + sent_b) == unsent(a, sent_a) + unsent(b, sent_b),
    decreases a.len(),
{
    if a.len() == 0 {
        assert(a + b =~= b);
        assert(sent_a + sent_b =~= sent_b);
        assert(unsent(a, sent_a) + unsent(b, sent_b) =~= unsent(b, sent_b));
    } else {
        lemma_unsent_adds_up(a.drop_first(), b, sent_a.drop_first(), sent_b);
        assert((a + b).drop_first() =~= a.drop_first() + b);
        assert((sent_a + sent_b).drop_first() =~= sent_a.drop_first() + sent_b);
        assert(unsent(a + b, sent_a + sent_b) =~= unsent(a, sent_a) + unsent(b, sent_b));
    }
}

/// The fee for a transfer can be noted unless what the transfer cost, or the
/// fees together, do not fit a number.
pub proof fn fees_can_be_noted(info: FinancialInfo, amt: u64, fee: u64)
    ensures
        info.can_charge(amt, fee) <==> {
            &&& amt + fee <= u64::MAX
            &&& 49 * info.service_fee_total + amt + fee <= 49 * u64::MAX + 48
        },
{
}

/// What a usual transaction costs where the network asks this much per byte.
pub open spec fn usual_fee(fee_per_byte: u64) -> int {
    fee_per_byte * TRANSACTION_SIZE
}

/// The fee that is worked with: the one that is kept, or else that of a usual
/// transaction.
pub open spec fn fee_in_use(kept: u64, fee_per_byte: Option<u64>) -> int {
    if kept != 0 {
        kept as int
    } else {
        match fee_per_byte {
            Some(fee) => usual_fee(fee),
            None => usual_fee(FALLBACK_FEE),
        }
    }
}

/// The fee to keep after the network was asked.
pub open spec fn fee_to_keep(kept: u64, asked: Option<u64>) -> u64 {
    match asked {
        Some(fee) => fee,
        None => kept,
    }
}

/// A fee that is kept is used as it is. Without one a usual transaction of two
/// thousand bytes is paid for, at the network's fee per byte, or at 4157 where
/// the network cannot be asked. An answer of the network replaces what is kept.
pub proof fn fees_that_are_used(kept: u64, fee_per_byte: u64, asked: Option<u64>)
    ensures
        kept > 0 ==> fee_in_use(kept, asked) == kept,
        fee_in_use(0, Some(fee_per_byte)) == usual_fee(fee_per_byte),
        fee_in_use(0, None) == 4157 * 2000,
        usual_fee(fee_per_byte) == 2000 * fee_per_byte,
        fee_to_keep(kept, Some(fee_per_byte)) == fee_per_byte,
        fee_to_keep(kept, None) == kept,
{
}

/// Whether a user is told where to deposit and the least that is worth it.
pub open spec fn is_deposit_offer(resp: DepositReqResp, info: FinancialInfo, fee: u64) -> bool {
    &&& resp.addr@ == info.deposit_addr@
    &&& resp.min_amt == min_withdrawal(fee)
}

/// Deposits are taken at the user's own address, from the least amount on that
/// could be withdrawn again: five times the fee.
pub proof fn deposits_are_worth_it(resp: DepositReqResp, info: FinancialInfo, fee: u64)
    requires
        is_deposit_offer(resp, info, fee),
    ensures
        resp.addr@ == info.deposit_addr@,
        resp.min_amt == fee + fee + fee + fee + fee,
{
}

/// Whether a user is told what they have.
pub open spec fn is_statement(resp: BalanceReqResp, info: FinancialInfo) -> bool {
    &&& resp.balance == info.spendable()
    &&& resp.pending_deposits == info.pending_balance
}

/// What a user is told to have is all that has come in less what the service
/// has taken, and what is pending is told apart.
pub proof fn statements_are_complete(resp: BalanceReqResp, info: FinancialInfo)
    requires
        is_statement(resp, info),
    ensures
        resp.balance + info.fees_taken() == earned_total(info.active_fundraisers@) + earned_total(
            info.old_fundraisers@,
        ) + info.balance,
        resp.pending_deposits == info.pending_balance,
{
}

/// Whether two states of an account differ in the address for withdrawals only.
pub open spec fn only_address_changed(after: FinancialInfo, before: FinancialInfo) -> bool {
    after == (FinancialInfo { xmr_addr: after.xmr_addr, ..before })
}

/// A new address for withdrawals leaves the money as it is.
pub proof fn addresses_change_no_money(after: FinancialInfo, before: FinancialInfo)
    requires
        only_address_changed(after, before),
    ensures
        after.spendable() == before.spendable(),
        after.balance_known() == before.balance_known(),
        after.deposit_addr == before.deposit_addr,
        after.transfers == before.transfers,
        after.balance == before.balance && after.pending_balance == before.pending_balance,
        after.active_fundraisers == before.active_fundraisers,
        after.old_fundraisers == before.old_fundraisers,
        after.service_fee_total == before.service_fee_total,
{
}

/// Whether an amount is what the wallet holds beyond the users' money.
pub open spec fn is_profit(profit: u64, wallet_balance: u64, accounts: Seq<FinancialInfo>) -> bool {
    profit + spendable_total(accounts) == wallet_balance
}

/// Whatever a new user can spend lessens the profit, and whatever the wallet
/// holds more raises it.
pub proof fn profits_are_what_is_left(
    profit: u64,
    other_profit: u64,
    wallet_balance: u64,
    other_balance: u64,
    accounts: Seq<FinancialInfo>,
    new: FinancialInfo,
)
    requires
        is_profit(profit, wallet_balance, accounts),
    ensures
        is_profit(other_profit, wallet_balance, accounts.push(new)) ==> profit - other_profit
            == new.spendable(),
        is_profit(other_profit, other_balance, accounts) ==> other_profit - profit == other_balance
            - wallet_balance,
        accounts.len() == 0 ==> profit == wallet_balance,
{
    users_add_up(accounts, seq![new], new);
    assert(accounts.push(new) =~= accounts + seq![new]);
}

/// Whether a withdrawal is granted: the user has a session, the network's fee
/// could be had, the amount and what the user can spend reach the least that
/// can be withdrawn, and there is an address to send it to.
pub open spec fn can_withdraw(
    authorized: bool,
    amt: u64,
    net_fee: Option<u64>,
    info: Option<FinancialInfo>,
) -> bool {
    &&& authorized
    &&& net_fee matches Some(fee)
    &&& amt >= min_withdrawal(fee)
    &&& info matches Some(known)
    &&& known.spendable() >= min_withdrawal(fee)
    &&& known.xmr_addr is Some
}

/// Whether a withdrawal sends what is left of the amount to the user's address
/// and tells the fees.
pub open spec fn is_withdrawal(
    withdrawal: Withdrawal,
    req: WithdrawMoneroReq,
    net_fee: u64,
    info: FinancialInfo,
) -> bool {
    &&& withdrawal.transfer_req.username@ == req.username@
    &&& info.xmr_addr matches Some(addr)
    &&& withdrawal.transfer_req.dst@ == addr@
    &&& withdrawal.transfer_req.priority == Some(0u8)
    &&& withdrawal.transfer_req.addr_index == info.transfers.addr_index
    &&& withdrawal.transfer_req.amt == withdrawal.resp.amt_sent_after_fee
    &&& withdrawal.resp.amt_sent_after_fee + withdrawal.resp.fee_taken == req.amt
    &&& withdrawal.resp.fee_taken == net_fee + service_fee(req.amt)
}

/// When a withdrawal is granted: for users with a session and an address who
/// ask for at least five times the network's fee, and can spend as much. The
/// amount may be as great as it likes.
pub proof fn withdrawals_that_are_granted(
    authorized: bool,
    amt: u64,
    fee: u64,
    info: FinancialInfo,
)
    ensures
        can_withdraw(authorized, amt, Some(fee), Some(info)) <==> authorized && amt >= 5 * fee
            && info.spendable() >= 5 * fee && info.xmr_addr is Some,
        !can_withdraw(authorized, amt, None, Some(info)),
        !can_withdraw(authorized, amt, Some(fee), None),
{
}

/// A withdrawal takes just the amount from the user: what is sent to their
/// address, the network's fee, and two in a hundred, rounded down, for the
/// service.
pub proof fn withdrawals_are_paid_out(
    withdrawal: Withdrawal,
    req: WithdrawMoneroReq,
    net_fee: u64,
    info: FinancialInfo,
)
    requires
        is_withdrawal(withdrawal, req, net_fee, info),
    ensures
        withdrawal.transfer_req.amt + withdrawal.resp.fee_taken == req.amt,
        withdrawal.resp.amt_sent_after_fee == withdrawal.transfer_req.amt,
        100 * (withdrawal.resp.fee_taken - net_fee) <= 2 * req.amt < 100 * (
        withdrawal.resp.fee_taken - net_fee) + 100,
        info.xmr_addr is Some && withdrawal.transfer_req.dst@ == info.xmr_addr->0@,
        withdrawal.transfer_req.username@ == req.username@,
        withdrawal.transfer_req.addr_index == info.transfers.addr_index,
        withdrawal.transfer_req.priority == Some(0u8),
{
}

/// The queue after a transfer was asked for by a user who can spend so much.
pub open spec fn queue_with(
    queue: Seq<TransferReq>,
    req: TransferReq,
    spendable: int,
) -> Seq<TransferReq> {
    if req.amt <= spendable {
        queue.push(req)
    } else {
        queue
    }
}

/// A transfer that the user can pay comes to the end of the queue, and one that
/// they cannot pay does not come into it; those that wait keep their places.
pub proof fn payable_transfers_are_queued(
    queue: Seq<TransferReq>,
    req: TransferReq,
    spendable: int,
)
    ensures
        spendable >= req.amt ==> queue_with(queue, req, spendable).len() == queue.len() + 1
            && queue_with(queue, req, spendable).last() == req,
        spendable < req.amt ==> queue_with(queue, req, spendable).len() == queue.len(),
        queue_with(queue, req, spendable).take(queue.len() as int) == queue,
{
    assert(queue_with(queue, req, spendable).take(queue.len() as int) =~= queue);
}

/// Whether the service's fee for a transfer was noted, and nothing else.
pub open spec fn is_charged(
    after: FinancialInfo,
    before: FinancialInfo,
    amt: u64,
    fee: u64,
) -> bool {
    &&& after == (FinancialInfo { service_fee_total: after.service_fee_total, ..before })
    &&& after.service_fee_total == before.service_fee_total + (amt + fee) / 49
}

/// The fee that is noted when a transfer is sent is the one that is worked out
/// when the transfer is later listed: a forty-ninth of what it cost.
pub proof fn noted_fees_are_found_again(
    after: FinancialInfo,
    before: FinancialInfo,
    listed: Transfer,
)
    requires
        is_charged(after, before, listed.amount, listed.fee),
    ensures
        after.service_fee_total - before.service_fee_total == service_fees(seq![listed]),
        49 * (after.service_fee_total - before.service_fee_total) <= listed.amount + listed.fee
            < 49 * (after.service_fee_total - before.service_fee_total) + 49,
        after.balance == before.balance && after.pending_balance == before.pending_balance,
        after.transfers == before.transfers,
        after.xmr_addr == before.xmr_addr && after.deposit_addr == before.deposit_addr,
        after.active_fundraisers == before.active_fundraisers,
        after.old_fundraisers == before.old_fundraisers,
{
    reveal_with_fuel(service_fees, 2);
}

} // verus!
