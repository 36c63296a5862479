use coinstribute::outside::address::Network;
use coinstribute::wallet::address::{Address, AddressReading};
use coinstribute::wallet::json::{JsonValue, Member};
use coinstribute::wallet::reading::Reading;
use coinstribute::wallet::wallet_rpc::{
    addr_indices_to_string, TransferOut, WalletRPC, WalletRPCError,
};
use coinstribute::wallet::{Wallet, WalletError};

const PLAIN: &str = "4ADT1BtbxqEWeMKp9GgPr2NeyJXXtNxvoDawpyA4WpzFcGcoHUvXeijE66DNfohE9r1bQYaBiQjEtKE7CtkTdLwiDznFzra";
const SUB: &str = "8AW7SotwFrqfAKnibspuuhfowW4g3asvpQvdrTmPcpNr2GmXPtBBSxUPZQATAt8Vw2hiX9GDyxB4tMNgHjwt8qYsCeFDVvn";
const INTEGRATED: &str = "4Byr22j9M2878Mtyb3fEPcBNwBZf5EXqn1Yi6VzR46618SFBrYysab2Cs1474CVDbsh94AJq7vuV3Z2DRq4zLcY3LHzo1Nbv3d8J6VhvCV";

fn object(members: Vec<(&str, JsonValue)>) -> JsonValue {
    JsonValue::Object(
        members
            .into_iter()
            .map(|(name, value)| Member { name: name.to_string(), value })
            .collect(),
    )
}

fn text(s: &str) -> JsonValue {
    JsonValue::Text(s.to_string())
}

fn number(n: u64) -> JsonValue {
    JsonValue::Unsigned(n)
}

fn address(s: &str) -> Address {
    match Address::read(s) {
        AddressReading::Found(address) => address,
        _ => panic!("no address"),
    }
}

fn rpc() -> WalletRPC {
    WalletRPC::new("http://127.0.0.1:19000".to_string(), None, None)
}

fn transfer(index: u64, amount: u64) -> JsonValue {
    object(vec![
        ("address", text(SUB)),
        ("amount", number(amount)),
        ("confirmations", number(10)),
        ("double_spend_seen", JsonValue::Bool(false)),
        ("height", number(2_000_000)),
        ("subaddr_index", object(vec![("major", number(0)), ("minor", number(index))])),
        ("unlock_time", number(0)),
        ("fee", number(7)),
    ])
}

fn transfers_answer(incoming: Vec<JsonValue>, outgoing: Vec<JsonValue>) -> JsonValue {
    object(vec![(
        "result",
        object(vec![("in", JsonValue::Array(incoming)), ("out", JsonValue::Array(outgoing))]),
    )])
}

#[test]
fn addresses_are_read_and_written_back() {
    for s in [PLAIN, SUB, INTEGRATED] {
        assert_eq!(address(s).to_text(), s);
        assert_eq!(address(s).clone().to_text(), s);
    }
}

#[test]
fn text_that_is_no_address_is_refused() {
    // Not base58 at all.
    assert!(matches!(Address::read("0OIl"), AddressReading::Invalid(_)));
    // Base58, but the checksum is wrong.
    let wrong = PLAIN.replace("4ADT1", "4ADT2");
    assert!(matches!(Address::read(&wrong), AddressReading::Invalid(_)));
}

#[test]
fn the_beginning_of_an_address_is_incomplete() {
    assert!(matches!(Address::read(""), AddressReading::Incomplete));
    let bytes = [18u8, 1, 2, 3];
    let short = base58_monero::encode(&bytes).unwrap();
    assert!(matches!(Address::read(&short), AddressReading::Incomplete));
}

#[test]
fn what_follows_a_wrong_key_is_not_read() {
    let read = |bytes: &[u8]| Address::read(&base58_monero::encode(bytes).unwrap());
    let good = base58_monero::decode(PLAIN).unwrap();
    // Both keys are points of the curve: the checksum must follow.
    assert!(matches!(read(&good[..33]), AddressReading::Incomplete));
    assert!(matches!(read(&good[..65]), AddressReading::Incomplete));
    assert!(matches!(read(&good[..68]), AddressReading::Incomplete));
    // The first key is none: the bytes are refused though they end behind it.
    let mut wrong = good[..33].to_vec();
    wrong[1..].fill(0);
    wrong[1] = 2;
    assert!(monero::PublicKey::from_slice(&wrong[1..]).is_err());
    assert!(matches!(read(&wrong), AddressReading::Invalid(_)));
    assert!(matches!(read(&wrong[..32]), AddressReading::Incomplete));
    // The tag of no network is refused at once.
    assert!(matches!(read(&[1, 2]), AddressReading::Invalid(_)));
    // A payment id is read before the keys.
    wrong[0] = 19;
    assert!(matches!(read(&wrong), AddressReading::Incomplete));
}

#[test]
fn integrated_addresses_carry_the_keys_and_the_id() {
    let id = [88, 118, 184, 183, 41, 150, 255, 151];
    let wallet = Wallet::new(
        "http://w".to_string(),
        "http://d".to_string(),
        Some(3000),
        None,
        address(INTEGRATED),
    );
    assert_eq!(wallet.new_integrated_addr(id).to_text(), INTEGRATED);
    assert_ne!(wallet.new_integrated_addr([0; 8]).to_text(), INTEGRATED);
    assert_eq!(wallet.address().to_text(), INTEGRATED);
    assert_eq!(wallet.wallet_rpc.wallet_daemon_url, "http://w/json_rpc");
    assert_eq!(wallet.daemon_rpc.daemon_url, "http://d");
    assert_eq!(wallet.wallet_rpc.connect_timeout, 3000);
    assert_eq!(wallet.wallet_rpc.timeout, 3500);
    assert_eq!(wallet.wallet_rpc.long_connect_timeout, 3000);
    assert_eq!(wallet.wallet_rpc.long_timeout, 45_000);
    assert_eq!(wallet.daemon_rpc.timeout, 3500);
}

#[test]
fn integrated_addresses_are_on_the_network_and_differ_by_their_id() {
    let main_net: monero::Address = PLAIN.parse().unwrap();
    let (spend, view) = (main_net.public_spend, main_net.public_view);
    let test_net = monero::Address::standard(monero::Network::Testnet, spend, view);
    let test_net = address(&test_net.to_string());
    let keys = |text: &str| base58_monero::decode(text).unwrap()[1..65].to_vec();
    for base in [address(PLAIN), address(SUB), address(INTEGRATED), test_net] {
        let text = base.to_text();
        let wallet =
            Wallet::new("http://w".to_string(), "http://d".to_string(), None, None, base.clone());
        let first = wallet.new_integrated_addr([1; 8]).to_text();
        assert_eq!(wallet.new_integrated_addr([1; 8]).to_text(), first);
        assert_ne!(wallet.new_integrated_addr([2; 8]).to_text(), first);
        let bytes = base58_monero::decode(&first).unwrap();
        assert_eq!((bytes.len(), bytes[0]), (77, 19));
        assert_eq!(bytes[1..65], keys(&text)[..]);
        assert_eq!(bytes[65..73], [1; 8]);
        for (network, tag) in
            [(Network::Mainnet, 19), (Network::Testnet, 54), (Network::Stagenet, 25)]
        {
            let on_network = base.integrated(network, [1; 8]).to_text();
            assert_eq!(base58_monero::decode(&on_network).unwrap()[0], tag);
        }
    }
}

#[test]
fn the_wallet_is_asked_until_it_tells_its_address() {
    let answer = |value| object(vec![("result", object(vec![("address", value)]))]);
    let rpc = rpc();
    assert!(matches!(rpc.own_address(None), Reading::Missing));
    assert!(matches!(rpc.own_address(Some(&answer(JsonValue::Null))), Reading::Missing));
    assert!(matches!(rpc.own_address(Some(&answer(text("0OIl")))), Reading::Missing));
    assert!(matches!(rpc.own_address(Some(&object(vec![]))), Reading::Malformed));
    assert!(matches!(rpc.own_address(Some(&answer(text("")))), Reading::Malformed));
    match rpc.own_address(Some(&answer(text(PLAIN)))) {
        Reading::Found(addr) => assert_eq!(addr.to_text(), PLAIN),
        _ => panic!("not found"),
    }
}

#[test]
fn subaddresses_are_named_without_separators() {
    assert_eq!(addr_indices_to_string(&[]), "[]");
    assert_eq!(addr_indices_to_string(&[7]), "[7]");
    assert_eq!(addr_indices_to_string(&[1, 2, 30]), "[1230]");
}

#[test]
fn requests_to_the_wallet() {
    let rpc = rpc();
    assert_eq!(rpc.wallet_daemon_url, "http://127.0.0.1:19000/json_rpc");
    assert_eq!(
        rpc.get_transfers_request(&[1, 2], true, false),
        r#"{"jsonrpc":"2.0","id":"0","method":"get_transfers","params":{"account_index": 0,"in":true,"out":false,"subaddr_indices":[12]}}"#
    );
    assert_eq!(
        rpc.get_balance_request(&[3]),
        r#"{"jsonrpc": "2.0","id": "0","method": "get_balance","params":{"account_index":0,"address_indices":[3]}}"#
    );
    assert_eq!(
        rpc.create_address_request("alice"),
        r#"{"jsonrpc":"2.0","id":"0","method":"create_address","params":{"account_index":0,"label":"alice"}}"#
    );
    assert_eq!(
        rpc.get_address_request(),
        r#"{"jsonrpc":"2.0","id":"0","method":"get_address","params":{"account_index":0}}}"#
    );
    assert_eq!(
        rpc.transfer_request(Some(2), &address(SUB), 1000, 4),
        format!(
            r#"{{"jsonrpc":"2.0","id":"0","method":"transfer","params":{{"destinations":[{{"amount":1000,"address":"{}"}}],"priority":2,"ring_size":11,"account_index":0,"get_tx_key": true,"subaddr_indices":[4]}}}}"#,
            SUB
        )
    );
    assert!(rpc.transfer_request(None, &address(SUB), 1, 1).contains(r#""priority":0,"#));
    assert_eq!(
        rpc.set_daemon_request("http://127.0.0.1:18081", true),
        r#"{"jsonrpc":"2.0","id":"0","method":"set_daemon","params":{"address":"http://127.0.0.1:18081","trusted":true}}"#
    );
    assert_eq!(
        rpc.set_refresh_time_request(60),
        r#"{"jsonrpc":"2.0","id":"0","method":"auto_refresh","params":{"period":60}}"#
    );
}

#[test]
fn transfers_come_to_the_places_of_their_subaddresses() {
    let answer = transfers_answer(
        vec![transfer(2, 5), transfer(1, 6), transfer(2, 8), transfer(9, 1)],
        vec![transfer(0, 3), transfer(1, 4)],
    );
    let list = rpc().get_transfers(&[1, 2], &answer).unwrap().unwrap();
    assert_eq!(list.len(), 2);
    assert_eq!(list[0].addr_index, 1);
    assert_eq!(list[0].transfers_in.iter().map(|t| t.amount).collect::<Vec<_>>(), vec![6]);
    assert_eq!(list[0].transfers_out.iter().map(|t| t.amount).collect::<Vec<_>>(), vec![4]);
    assert_eq!(list[1].transfers_in.iter().map(|t| t.amount).collect::<Vec<_>>(), vec![5, 8]);
    assert!(list[1].transfers_out.is_empty());
    let first = &list[0].transfers_in[0];
    assert_eq!(first.address.to_text(), SUB);
    assert_eq!((first.fee, first.confirmations, first.height, first.unlock_time), (7, 10, 2_000_000, 0));
    assert!(!first.double_spend_seen);
}

#[test]
fn transfers_without_a_field_are_left_out() {
    let incomplete = object(vec![("address", text(SUB)), ("amount", number(1))]);
    let answer = transfers_answer(vec![incomplete, transfer(1, 6)], vec![]);
    let list = rpc().get_transfers(&[1], &answer).unwrap().unwrap();
    assert_eq!(list[0].transfers_in.len(), 1);
    // No lists at all are empty lists.
    let none = object(vec![("result", object(vec![]))]);
    let list = rpc().get_transfers(&[5], &none).unwrap().unwrap();
    assert_eq!((list.len(), list[0].addr_index), (1, 5));
    assert!(list[0].transfers_in.is_empty() && list[0].transfers_out.is_empty());
}

#[test]
fn transfer_answers_that_cannot_be_read() {
    let rpc = rpc();
    let no_result = object(vec![("error", JsonValue::Null)]);
    assert!(matches!(
        rpc.get_transfers(&[1], &no_result),
        Some(Err(WalletRPCError::MissingData))
    ));
    // The subaddress 0 has no place for incoming transfers.
    assert!(rpc.get_transfers(&[1], &transfers_answer(vec![transfer(0, 1)], vec![])).is_none());
    // A field of the wrong kind.
    let wrong = object(vec![("address", number(4))]);
    assert!(rpc.get_transfers(&[1], &transfers_answer(vec![wrong], vec![])).is_none());
    let no_list = object(vec![("result", object(vec![("in", number(1))]))]);
    assert!(rpc.get_transfers(&[1], &no_list).is_none());
}

fn balance_answer(unlocked: Vec<(u64, u64)>, total: u64) -> JsonValue {
    let list = unlocked
        .into_iter()
        .map(|(index, amount)| {
            object(vec![
                ("address", text(SUB)),
                ("address_index", number(index)),
                ("unlocked_balance", number(amount)),
                ("balance", number(amount + 5)),
            ])
        })
        .collect();
    object(vec![(
        "result",
        object(vec![
            ("unlocked_balance", number(total)),
            ("balance", number(total + 10)),
            ("per_subaddress", JsonValue::Array(list)),
        ]),
    )])
}

#[test]
fn balances_are_read() {
    let answer = balance_answer(vec![(1, 10), (2, 20)], 30);
    let b = rpc().get_balance(&answer).unwrap().unwrap();
    assert_eq!(b.balance, 30);
    assert_eq!(b.per_subaddress.iter().map(|s| (s.addr_index, s.balance)).collect::<Vec<_>>(), vec![(1, 10), (2, 20)]);
    assert_eq!(b.per_subaddress[0].addr.to_text(), SUB);
    let all = rpc().get_all_balance(&answer).unwrap().unwrap();
    assert_eq!(all.balance, 40);
    assert_eq!(all.per_subaddress[1].balance, 25);
}

#[test]
fn balance_answers_that_cannot_be_read() {
    let rpc = rpc();
    assert!(matches!(rpc.get_balance(&object(vec![])), Some(Err(WalletRPCError::MissingData))));
    let no_list = object(vec![("result", object(vec![("unlocked_balance", number(1))]))]);
    assert!(matches!(rpc.get_balance(&no_list), Some(Err(WalletRPCError::MissingData))));
    let entry = object(vec![("address", text(SUB))]);
    let missing = object(vec![(
        "result",
        object(vec![
            ("unlocked_balance", number(1)),
            ("per_subaddress", JsonValue::Array(vec![entry])),
        ]),
    )]);
    assert!(matches!(rpc.get_balance(&missing), Some(Err(WalletRPCError::MissingData))));
    let wrong = object(vec![("result", object(vec![("per_subaddress", number(1))]))]);
    assert!(rpc.get_balance(&wrong).is_none());
    // Negative amounts are no amounts.
    let negative = object(vec![(
        "result",
        object(vec![
            ("unlocked_balance", JsonValue::Signed(-1)),
            ("per_subaddress", JsonValue::Array(vec![])),
        ]),
    )]);
    assert!(rpc.get_balance(&negative).is_none());
}

#[test]
fn new_subaddresses_are_read() {
    let rpc = rpc();
    let answer = object(vec![(
        "result",
        object(vec![("address", text(SUB)), ("address_index", JsonValue::Signed(6))]),
    )]);
    let (addr, index) = rpc.create_address(&answer).unwrap().unwrap();
    assert_eq!((addr.to_text().as_str(), index), (SUB, 6));
    let missing = object(vec![("result", object(vec![("address", text(SUB))]))]);
    assert!(matches!(rpc.create_address(&missing), Some(Err(WalletRPCError::MissingData))));
    let wrong = object(vec![("result", object(vec![("address", text("nothing"))]))]);
    assert!(rpc.create_address(&wrong).is_none());
}

#[test]
fn the_own_address_is_read() {
    let rpc = rpc();
    let answer = |value| object(vec![("result", object(vec![("address", value)]))]);
    assert_eq!(rpc.get_address(&answer(text(PLAIN))).unwrap().unwrap().to_text(), PLAIN);
    assert!(matches!(
        rpc.get_address(&answer(number(1))),
        Some(Err(WalletRPCError::MissingData))
    ));
    assert!(matches!(
        rpc.get_address(&answer(text("0OIl"))),
        Some(Err(WalletRPCError::AddrError(_)))
    ));
    assert!(rpc.get_address(&answer(text(""))).is_none());
    assert!(rpc.get_address(&object(vec![])).is_none());
}

#[test]
fn sent_transfers_are_read() {
    let rpc = rpc();
    let answer = object(vec![(
        "result",
        object(vec![("amount", number(90)), ("fee", number(4)), ("tx_key", text("ab"))]),
    )]);
    let out = rpc.transfer(&answer).unwrap().unwrap();
    assert_eq!((out.amount(), out.fee(), out.total(), out.tx_key.as_str()), (90, 4, 94, "ab"));
    let missing = object(vec![("result", object(vec![("amount", number(90))]))]);
    assert!(matches!(rpc.transfer(&missing), Some(Err(WalletRPCError::MissingData))));
    let wrong = object(vec![("result", object(vec![("amount", text("90"))]))]);
    assert!(rpc.transfer(&wrong).is_none());
    let out = TransferOut { amount: 1, fee: 2, tx_key: String::new() };
    assert_eq!(out.total(), 3);
}

#[test]
fn settings_are_taken_where_there_is_a_result() {
    let wallet = Wallet::new(
        "w".to_string(),
        "d".to_string(),
        None,
        None,
        address(PLAIN),
    );
    let taken = object(vec![("result", object(vec![]))]);
    let refused = object(vec![("error", object(vec![]))]);
    assert!(wallet.set_daemon(&taken).is_ok());
    assert!(matches!(
        wallet.set_daemon(&refused),
        Err(WalletError::WalletRPC(WalletRPCError::InvalidSetDaemonReq))
    ));
    assert!(wallet.set_refresh_time(&taken).is_ok());
    assert!(matches!(
        wallet.set_refresh_time(&refused),
        Err(WalletError::WalletRPC(WalletRPCError::InvalidSetRefreshReq))
    ));
}

#[test]
fn the_wallet_hands_answers_and_errors_on() {
    let wallet = Wallet::new("w".to_string(), "d".to_string(), None, None, address(PLAIN));
    let missing = || object(vec![]);
    assert!(matches!(
        wallet.get_balance(&missing()),
        Some(Err(WalletError::WalletRPC(WalletRPCError::MissingData)))
    ));
    assert!(matches!(
        wallet.get_all_balance(&missing()),
        Some(Err(WalletError::WalletRPC(WalletRPCError::MissingData)))
    ));
    assert!(matches!(
        wallet.get_transfers(&[], &missing()),
        Some(Err(WalletError::WalletRPC(WalletRPCError::MissingData)))
    ));
    assert!(matches!(
        wallet.create_address(&missing()),
        Some(Err(WalletError::WalletRPC(WalletRPCError::MissingData)))
    ));
    assert!(matches!(
        wallet.transfer(&missing()),
        Some(Err(WalletRPCError::MissingData))
    ));
    let answer = balance_answer(vec![(1, 10)], 10);
    assert_eq!(wallet.get_balance(&answer).unwrap().unwrap().balance, 10);
    assert_eq!(wallet.get_all_balance(&answer).unwrap().unwrap().balance, 20);
}
