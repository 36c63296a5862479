use coinstribute::auth::{auth_cookie_from, AuthCookie};
use coinstribute::fundraiser::{Fundraiser, InternalTransfer};
use coinstribute::money::{
    account_indices, attach_xmr_address, deposit_req, get_balance, send_monero, server_profits,
    update_acc_balances, update_cached_fee, update_transfers, withdraw_monero,
    withdrawal_not_queued, Account, AttachXMRAddress, Attachment, AuthorizedReq,
    BlockchainTransfer, CachedFee, FinancialInfo, PendingTransfers, SentTransfer, TransferReq,
    WithdrawMoneroReq,
};
use coinstribute::wallet::address::{Address, AddressReading};
use coinstribute::wallet::json::{JsonValue, Member};
use coinstribute::wallet::wallet_rpc::{
    SubaddressBalance, Transfer, TransferOut, Transfers, WalletBalance,
};
use coinstribute::wallet::Wallet;

const SUB: &str = "8AW7SotwFrqfAKnibspuuhfowW4g3asvpQvdrTmPcpNr2GmXPtBBSxUPZQATAt8Vw2hiX9GDyxB4tMNgHjwt8qYsCeFDVvn";
const PLAIN: &str = "4ADT1BtbxqEWeMKp9GgPr2NeyJXXtNxvoDawpyA4WpzFcGcoHUvXeijE66DNfohE9r1bQYaBiQjEtKE7CtkTdLwiDznFzra";

fn s(text: &str) -> String {
    text.to_string()
}

fn address(text: &str) -> Address {
    match Address::read(text) {
        AddressReading::Found(address) => address,
        _ => panic!("no address"),
    }
}

fn session() -> Option<AuthCookie> {
    Some(auth_cookie_from(&s("alice"), s("abc"), 0))
}

fn info(balance: u64) -> FinancialInfo {
    let mut info = FinancialInfo::new(1, address(SUB));
    info.balance = balance;
    info
}

fn transfer(amount: u64, fee: u64) -> Transfer {
    Transfer {
        address: address(SUB),
        amount,
        fee,
        confirmations: 1,
        double_spend_seen: false,
        height: 1,
        addr_index: 1,
        unlock_time: 0,
    }
}

fn fundraiser(amounts: &[u64]) -> Fundraiser {
    Fundraiser {
        name: s("f"),
        owner: s("alice"),
        goal: 100,
        fundraiser_id: 1,
        purpose: s("p"),
        payments: amounts
            .iter()
            .map(|amt| InternalTransfer {
                origin: s("bob"),
                receiver_fundraiser: 1,
                transfer_time: 0,
                amt: *amt,
            })
            .collect(),
    }
}

fn request() -> AuthorizedReq {
    AuthorizedReq { username: s("alice"), auth_cookie: s("abc") }
}

#[test]
fn balance_is_income_less_fees() {
    let mut info = info(1_000);
    assert_eq!(info.get_balance(), 1_000);
    info.add_fundraiser(fundraiser(&[10, 20]));
    info.old_fundraisers.push(fundraiser(&[5]));
    assert_eq!(info.active_fundraisers().len(), 1);
    assert_eq!(info.get_balance(), 1_035);
    info.service_fee_total = 15;
    assert_eq!(info.get_balance(), 1_020);
    // (490 + 48) / 49 + (49 + 0) / 49 = 10 + 1, less than what is kept.
    info.transfers.transfers_out = vec![transfer(490, 48), transfer(49, 0)];
    assert_eq!(info.get_balance(), 1_020);
    info.service_fee_total = 3;
    assert_eq!(info.get_balance(), 1_024);
}

#[test]
fn balances_that_do_not_fit_are_unknown() {
    assert_eq!(info(u64::MAX).checked_balance(), Some(u64::MAX));
    let mut too_much = info(u64::MAX);
    too_much.add_fundraiser(fundraiser(&[1]));
    assert_eq!(too_much.checked_balance(), None);
    let mut overdrawn = info(5);
    overdrawn.service_fee_total = 6;
    assert_eq!(overdrawn.checked_balance(), None);
    let mut huge = info(5);
    huge.transfers.transfers_out = vec![transfer(u64::MAX, 1)];
    assert_eq!(huge.checked_balance(), None);
    let mut earned = info(0);
    earned.add_fundraiser(fundraiser(&[u64::MAX, 1]));
    assert_eq!(earned.checked_balance(), None);
}

#[test]
fn the_balance_is_told_to_its_owner_only() {
    let mut money = info(70);
    money.pending_balance = 4;
    let money = Some(money);
    let resp = get_balance(&request(), true, &session(), &money).ok().unwrap();
    assert_eq!((resp.balance, resp.pending_deposits), (70, 4));
    for (exists, stored) in [(false, session()), (true, None)] {
        let denial = get_balance(&request(), exists, &stored, &money).err().unwrap();
        assert_eq!(denial.status, 401);
        assert_eq!(denial.denial.reason, "Invalid username or cookie");
        assert_eq!(denial.denial.fault, "User");
    }
}

#[test]
fn deposits_go_to_the_users_address() {
    let resp = deposit_req(&request(), true, &session(), 8_314_000, &Some(info(0))).ok().unwrap();
    assert_eq!((resp.addr.as_str(), resp.min_amt), (SUB, 41_570_000));
    assert_eq!(deposit_req(&request(), true, &None, 1, &None).err().unwrap().status, 401);
}

#[test]
fn the_fee_is_asked_for_only_while_none_is_kept() {
    let mut fee = CachedFee::new();
    assert_eq!((fee.fee, fee.block_updated), (0, 0));
    assert_eq!(fee.get_fee(Some(3)), 6_000);
    assert_eq!(fee.get_fee(None), 8_314_000);
    assert_eq!(fee.get_uptodate_fee(Some(3)), Some(6_000));
    assert_eq!(fee.get_uptodate_fee(None), None);
    update_cached_fee(&mut fee, None);
    assert_eq!(fee.fee, 0);
    update_cached_fee(&mut fee, Some(55));
    assert_eq!(fee.get_fee(Some(3)), 55);
    update_cached_fee(&mut fee, None);
    assert_eq!(fee.get_fee(None), 55);
}

#[test]
fn addresses_are_attached() {
    let attach = |text: &str, stored: &Option<AuthCookie>| {
        let req =
            AttachXMRAddress { username: s("alice"), auth_cookie: s("abc"), monero_address: s(text) };
        attach_xmr_address(&req, true, stored, Some(info(12)))
    };
    match attach(PLAIN, &session()) {
        Attachment::Attached(money) => {
            assert_eq!(money.xmr_addr.unwrap().to_text(), PLAIN);
            assert_eq!(money.balance, 12);
            assert_eq!(money.deposit_addr.to_text(), SUB);
        },
        _ => panic!("refused"),
    }
    match attach("0OIl", &session()) {
        Attachment::Denied(denial) => {
            assert_eq!((denial.status, denial.denial.reason.as_str()), (400, "Invalid address"));
        },
        _ => panic!("taken"),
    }
    assert!(matches!(attach("", &session()), Attachment::Incomplete));
    match attach(PLAIN, &None) {
        Attachment::Denied(denial) => assert_eq!(denial.status, 401),
        _ => panic!("taken"),
    }
}

fn withdraw(
    amt: u64,
    net_fee: Option<u64>,
    money: &Option<FinancialInfo>,
) -> Result<(u64, u64, u64), (u16, String, String)> {
    let req = WithdrawMoneroReq { username: s("alice"), auth_cookie: s("abc"), amt };
    match withdraw_monero(&req, true, &session(), net_fee, money) {
        Ok(w) => {
            assert_eq!(w.transfer_req.username, "alice");
            assert_eq!(w.transfer_req.priority, Some(0));
            assert_eq!(w.transfer_req.amt, w.resp.amt_sent_after_fee);
            assert_eq!(w.transfer_req.dst.to_text(), PLAIN);
            Ok((w.resp.amt_sent_after_fee, w.resp.fee_taken, w.transfer_req.addr_index))
        },
        Err(d) => Err((d.status, d.denial.reason, d.denial.additional_info)),
    }
}

fn with_address(balance: u64) -> Option<FinancialInfo> {
    let mut money = info(balance);
    money.xmr_addr = Some(address(PLAIN));
    Some(money)
}

#[test]
fn withdrawals_are_split_into_fees_and_rest() {
    // Two percent, rounded down, and the network's fee.
    assert_eq!(withdraw(1_050, Some(10), &with_address(5_000)), Ok((1_019, 31, 1)));
    assert_eq!(withdraw(10_050, Some(2_000), &with_address(20_000)), Ok((7_849, 2_201, 1)));
    assert_eq!(withdraw(50, Some(10), &with_address(50)), Ok((39, 11, 1)));
    for amt in [50, 98, 99, 100, 149, 1_048, 1_049, 987_654] {
        let (sent, fees, _) = withdraw(amt, Some(10), &with_address(1_000_000)).unwrap();
        assert_eq!(sent + fees, amt);
        let service_fee = fees - 10;
        assert_eq!(service_fee, 2 * amt / 100);
        assert_eq!((sent + 10) / 49, service_fee + (amt % 50) / 49);
    }
}

#[test]
fn withdrawals_are_refused() {
    let s401 = Err((401, s("Invalid username or cookie"), s("")));
    let req = WithdrawMoneroReq { username: s("alice"), auth_cookie: s("no"), amt: 100 };
    let denial = withdraw_monero(&req, true, &session(), Some(1), &None).err().unwrap();
    assert_eq!((denial.status, denial.denial.reason.as_str()), (401, "Invalid username or cookie"));
    assert_eq!(
        withdraw(100, None, &with_address(100)),
        Err((500, s("Could not get Monero fee"), s("")))
    );
    assert_eq!(
        withdraw(49, Some(10), &with_address(100)),
        Err((412, s("Withdrawal amount 49 is lower than the minimum: 50"), s("")))
    );
    assert_eq!(withdraw(100, Some(10), &None), s401);
    assert_eq!(
        withdraw(100, Some(10), &with_address(49)),
        Err((412, s("User balance 49 is lower than the minimum: 50"), s("")))
    );
    assert_eq!(
        withdraw(100, Some(10), &Some(info(100))),
        Err((
            400,
            s("Withdrawal address not found"),
            s("Please attach a withdrawl address to your account")
        ))
    );
    let queue = withdrawal_not_queued();
    assert_eq!(queue.status, 500);
    assert_eq!(queue.denial.fault, "Server");
    assert_eq!(queue.denial.reason, "Internal server error, please try again");
}

#[test]
fn profits_are_what_belongs_to_no_user() {
    let owner = AuthorizedReq { username: s("billy"), auth_cookie: s("bobby") };
    let accounts = vec![info(10), info(20)];
    assert_eq!(server_profits(&owner, 100, &accounts), Some(70));
    assert_eq!(server_profits(&request(), 100, &accounts), None);
}

fn balances(list: &[(u64, u64)]) -> Option<WalletBalance> {
    Some(WalletBalance {
        balance: 0,
        per_subaddress: list
            .iter()
            .map(|(addr_index, balance)| SubaddressBalance {
                addr: address(SUB),
                addr_index: *addr_index,
                balance: *balance,
            })
            .collect(),
    })
}

fn account(name: &str, addr_index: u64) -> Account {
    let mut money = info(3);
    money.transfers.addr_index = addr_index;
    money.pending_balance = 8;
    money.service_fee_total = 2;
    Account { username: s(name), info: money }
}

#[test]
fn accounts_are_brought_up_to_date() {
    let all = vec![
        Transfers { addr_index: 1, transfers_in: vec![transfer(9, 1)], transfers_out: vec![] },
        Transfers { addr_index: 2, transfers_in: vec![], transfers_out: vec![transfer(4, 1)] },
    ];
    let batch = update_acc_balances(
        vec![account("alice", 1), account("bob", 2), account("carol", 7)],
        &all,
        &balances(&[(2, 50), (1, 40), (1, 41)]),
        &balances(&[(1, 45), (7, 3)]),
    )
    .unwrap();
    assert_eq!(batch[0].username, "alice");
    assert_eq!((batch[0].info.balance, batch[0].info.pending_balance), (40, 5));
    assert_eq!(batch[0].info.transfers.transfers_in.len(), 1);
    assert_eq!((batch[1].info.balance, batch[1].info.pending_balance), (50, 8));
    assert_eq!(batch[1].info.transfers.transfers_out[0].amount, 4);
    assert_eq!((batch[2].info.balance, batch[2].info.pending_balance), (3, 0));
    assert_eq!(batch[2].info.service_fee_total, 2);
    let kept = update_acc_balances(vec![account("alice", 1)], &vec![], &None, &None).unwrap();
    assert_eq!((kept[0].info.balance, kept[0].info.pending_balance), (3, 8));
}

#[test]
fn accounts_that_cannot_be_brought_up_to_date() {
    assert!(update_acc_balances(vec![account("alice", 0)], &vec![], &None, &None).is_none());
    let less = update_acc_balances(
        vec![account("alice", 1)],
        &vec![],
        &balances(&[(1, 5)]),
        &balances(&[(1, 4)]),
    );
    assert!(less.is_none());
    assert_eq!(account_indices(&vec![account("a", 4).info, account("b", 2).info]), vec![4, 2]);
}

fn object(members: Vec<(&str, JsonValue)>) -> JsonValue {
    JsonValue::Object(
        members.into_iter().map(|(name, value)| Member { name: s(name), value }).collect(),
    )
}

fn listed(index: u64, amount: u64) -> JsonValue {
    object(vec![
        ("address", JsonValue::Text(s(SUB))),
        ("amount", JsonValue::Unsigned(amount)),
        ("confirmations", JsonValue::Unsigned(10)),
        ("double_spend_seen", JsonValue::Bool(false)),
        ("height", JsonValue::Unsigned(1)),
        ("subaddr_index", object(vec![("minor", JsonValue::Unsigned(index))])),
        ("unlock_time", JsonValue::Unsigned(0)),
        ("fee", JsonValue::Unsigned(7)),
    ])
}

#[test]
fn transfers_are_kept_until_there_are_new_ones() {
    let wallet = Wallet::new(s("http://w"), s("http://d"), None, None, address(PLAIN));
    let accounts = vec![account("alice", 1).info, account("bob", 2).info];
    let mut all = vec![];
    let answer = |incoming| {
        object(vec![("result", object(vec![("in", JsonValue::Array(incoming))]))])
    };
    let mut update = |response: Option<&JsonValue>| {
        let wait = update_transfers(&mut all, &wallet, &accounts, response);
        let kept: Vec<(u64, Vec<u64>)> = all
            .iter()
            .map(|t: &Transfers| {
                (t.addr_index, t.transfers_in.iter().map(|t| t.amount).collect())
            })
            .collect();
        (wait, kept)
    };
    assert_eq!(update(None), (Some(30), vec![]));
    let first = answer(vec![listed(2, 70), listed(1, 80), listed(2, 90)]);
    let kept = vec![(1, vec![80]), (2, vec![70, 90])];
    assert_eq!(update(Some(&first)), (Some(7), kept.clone()));
    assert_eq!(update(None), (Some(30), kept.clone()));
    assert_eq!(update(Some(&object(vec![]))), (Some(30), kept.clone()));
    let broken = answer(vec![object(vec![("address", JsonValue::Bool(true))])]);
    assert_eq!(update(Some(&broken)), (None, kept));
    assert_eq!(update(Some(&answer(vec![]))), (Some(7), vec![(1, vec![]), (2, vec![])]));
}

fn req(amt: u64) -> TransferReq {
    TransferReq { username: s("alice"), dst: address(SUB), priority: Some(0), amt, addr_index: 1 }
}

fn queued(queue: &PendingTransfers) -> Vec<u64> {
    queue.requests.iter().map(|r| r.amt).collect()
}

#[test]
fn only_what_can_be_paid_is_queued() {
    let mut queue = PendingTransfers::new();
    queue.accept(req(100), &info(100));
    queue.accept(req(101), &info(100));
    assert_eq!(queued(&queue), vec![100]);
}

#[test]
fn a_pass_over_the_queue_keeps_what_was_not_sent() {
    let mut queue = PendingTransfers::new();
    for amt in [970, 20, 30, 40] {
        queue.accept(req(amt), &info(1_000));
    }
    let sent = |fee| {
        Some(SentTransfer {
            out: TransferOut { amount: 0, fee, tx_key: String::new() },
            financial_info: info(7),
        })
    };
    let step = send_monero(&mut queue, 0, sent(10));
    assert_eq!(step.next, 0);
    let money = step.financial_info.unwrap();
    // (970 + 10) / 49
    assert_eq!((money.service_fee_total, money.balance), (20, 7));
    let step = send_monero(&mut queue, step.next, None);
    assert_eq!(step.next, 1);
    assert!(step.financial_info.is_none());
    let step = send_monero(&mut queue, step.next, sent(1));
    assert_eq!(step.next, 1);
    let step = send_monero(&mut queue, step.next, None);
    assert_eq!(step.next, 2);
    assert_eq!(queued(&queue), vec![20, 40]);
}

#[test]
fn transfers_on_the_chain_are_plain_values() {
    let t = BlockchainTransfer { from: s("a"), block_height: 1, amt: 2, tx_hash: s("h") };
    assert_eq!((t.from.as_str(), t.block_height, t.amt, t.tx_hash.as_str()), ("a", 1, 2, "h"));
}
