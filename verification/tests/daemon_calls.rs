use coinstribute::wallet::address::{Address, AddressReading};
use coinstribute::wallet::daemon_rpc::{DaemonRPC, DaemonRPCError};
use coinstribute::wallet::gathering::{batch_entries, gather};
use coinstribute::wallet::json::{JsonValue, Member};
use coinstribute::wallet::retry::{
    after_attempt, Outcome, Step, DAEMON_ATTEMPTS, LONG_ATTEMPTS, WALLET_ATTEMPTS,
};
use coinstribute::wallet::{Wallet, WalletError};

fn object(members: Vec<(&str, JsonValue)>) -> JsonValue {
    JsonValue::Object(
        members
            .into_iter()
            .map(|(name, value)| Member { name: name.to_string(), value })
            .collect(),
    )
}

fn text(s: &str) -> JsonValue {
    JsonValue::Text(s.to_string())
}

fn rpc() -> DaemonRPC {
    DaemonRPC::new("http://127.0.0.1:18081".to_string(), None, Some(9))
}

#[test]
fn requests_to_the_daemon() {
    let rpc = rpc();
    assert_eq!((rpc.connect_timeout, rpc.timeout), (3500, 9));
    assert_eq!(rpc.url("/json_rpc"), "http://127.0.0.1:18081/json_rpc");
    assert_eq!(
        rpc.get_fee_request(),
        r#"{"jsonrpc":"2.0","id":"0","method":"get_fee_estimate"}}"#
    );
    assert_eq!(
        rpc.daemon_height_request(),
        r#"{"jsonrpc":"2.0","id":"0","method":"get_block_count"}"#
    );
    assert_eq!(
        rpc.block_request(31),
        r#"{"jsonrpc":"2.0","id":"0","method":"get_block","params":{"height":31}}"#
    );
}

#[test]
fn fee_and_height_are_read() {
    let rpc = rpc();
    let fee = object(vec![("result", object(vec![("fee", JsonValue::Unsigned(20_000))]))]);
    assert_eq!(rpc.get_fee(&fee).unwrap().unwrap(), 20_000);
    let no_number = object(vec![("result", object(vec![("fee", JsonValue::OtherNumber)]))]);
    assert!(matches!(rpc.get_fee(&no_number), Some(Err(DaemonRPCError::MissingData))));
    assert!(rpc.get_fee(&object(vec![("result", object(vec![]))])).is_none());
    let count = object(vec![("result", object(vec![("count", JsonValue::Unsigned(3))]))]);
    assert_eq!(rpc.daemon_height(&count).unwrap().unwrap(), 3);
    assert!(rpc.daemon_height(&JsonValue::Null).is_none());
}

#[test]
fn the_wallet_asks_the_daemon() {
    let main = "4ADT1BtbxqEWeMKp9GgPr2NeyJXXtNxvoDawpyA4WpzFcGcoHUvXeijE66DNfohE9r1bQYaBiQjEtKE7CtkTdLwiDznFzra";
    let addr = match Address::read(main) {
        AddressReading::Found(addr) => addr,
        _ => panic!("no address"),
    };
    let wallet = Wallet::new("w".to_string(), "d".to_string(), None, None, addr);
    let fee = object(vec![("result", object(vec![("fee", JsonValue::Unsigned(5))]))]);
    assert_eq!(wallet.get_fee(&fee).unwrap().unwrap(), 5);
    let count = object(vec![("result", object(vec![("count", text("3"))]))]);
    assert!(matches!(
        wallet.get_height(&count),
        Some(Err(WalletError::DaemonRPC(DaemonRPCError::MissingData)))
    ));
}

fn block(hash: JsonValue, blob: JsonValue) -> JsonValue {
    object(vec![(
        "result",
        object(vec![("block_header", object(vec![("hash", hash)])), ("blob", blob)]),
    )])
}

#[test]
fn a_block_has_a_hash_and_bytes() {
    let rpc = rpc();
    // The sixteen decoded bytes are followed by the second half of the text.
    let (hash, bytes) =
        rpc.block(&block(text("000102030405060708090A0b0C0d0E0f"), text("ff00"))).unwrap().unwrap();
    let mut expected: Vec<u8> = (0..16).collect();
    expected.extend_from_slice(b"08090A0b0C0d0E0f");
    assert_eq!(hash.to_vec(), expected);
    assert_eq!(bytes, vec![255, 0]);
}

#[test]
fn blocks_that_cannot_be_read() {
    let rpc = rpc();
    let good = "000102030405060708090a0b0c0d0e0f";
    assert!(matches!(
        rpc.block(&block(JsonValue::Null, text(""))),
        Some(Err(DaemonRPCError::MissingData))
    ));
    assert!(matches!(
        rpc.block(&block(text("xy"), text(""))),
        Some(Err(DaemonRPCError::HexError(_)))
    ));
    assert!(rpc.block(&block(text("0011"), text(""))).is_none());
    assert!(matches!(
        rpc.block(&block(text(good), JsonValue::Null)),
        Some(Err(DaemonRPCError::MissingData))
    ));
    assert!(matches!(
        rpc.block(&block(text(good), text("abc"))),
        Some(Err(DaemonRPCError::HexError(_)))
    ));
    assert!(rpc.block(&object(vec![])).is_none());
}

#[test]
fn waiting_transactions_are_read_one_by_one() {
    let rpc = rpc();
    let entry = |value| object(vec![("tx_blob", value)]);
    let answer = object(vec![(
        "transactions",
        JsonValue::Array(vec![
            entry(text("0a0b")),
            entry(text("0a0")),
            entry(JsonValue::Null),
            object(vec![]),
        ]),
    )]);
    let blobs = rpc.txpool(&answer).unwrap();
    assert_eq!(blobs.len(), 4);
    assert_eq!(blobs[0].as_ref().unwrap().as_ref().unwrap(), &vec![10, 11, b'0', b'b']);
    assert!(matches!(&blobs[1], Some(Err(DaemonRPCError::HexError(_)))));
    assert!(matches!(&blobs[2], Some(Err(DaemonRPCError::MissingData))));
    assert!(blobs[3].is_none());
    assert!(rpc.txpool(&object(vec![("transactions", JsonValue::Null)])).unwrap().is_empty());
    assert!(rpc.txpool(&object(vec![])).is_none());
}

#[test]
fn hashes_of_waiting_transactions_are_a_set() {
    let rpc = rpc();
    let hash = "00000000000000000000000000000001";
    let answer = |list| object(vec![("tx_hashes", JsonValue::Array(list))]);
    let set = rpc.txpool_hashes(&answer(vec![text(hash), text(hash)])).unwrap().unwrap();
    let mut expected = [0u8; 32];
    expected[15] = 1;
    expected[16..].copy_from_slice(b"0000000000000001");
    assert!(set.has(&expected));
    assert!(!set.has(&[0; 32]));
    let none = rpc.txpool_hashes(&object(vec![("tx_hashes", JsonValue::Bool(true))])).unwrap().unwrap();
    assert!(!none.has(&expected));
    assert!(rpc.txpool_hashes(&object(vec![])).is_none());
    // The first fault decides.
    assert!(matches!(
        rpc.txpool_hashes(&answer(vec![text("zz"), JsonValue::Null])),
        Some(Err(DaemonRPCError::HexError(_)))
    ));
    assert!(matches!(
        rpc.txpool_hashes(&answer(vec![JsonValue::Null, text("zz")])),
        Some(Err(DaemonRPCError::MissingData))
    ));
    assert!(matches!(
        rpc.txpool_hashes(&answer(vec![text(hash), text("00")])),
        Some(Err(DaemonRPCError::MoneroEncodingError(_)))
    ));
}

#[test]
fn transactions_are_requested_a_hundred_at_once() {
    let rpc = rpc();
    assert!(rpc.transactions_by_hashes_requests(&[]).is_empty());
    let one = rpc.transactions_by_hashes_requests(&[[0xAB; 32]]);
    assert_eq!(one, vec![format!(r#"{{"txs_hashes":["{}"]}}"#, "ab".repeat(32))]);
    let two = rpc.transactions_by_hashes_requests(&[[0; 32], [1; 32]]);
    assert_eq!(
        two,
        vec![format!(r#"{{"txs_hashes":["{}","{}"]}}"#, "00".repeat(32), "01".repeat(32))]
    );
    let counts = |n: usize| -> Vec<usize> {
        rpc.transactions_by_hashes_requests(&vec![[7; 32]; n])
            .iter()
            .map(|req| req.matches("0707").count() / 16)
            .collect()
    };
    assert_eq!(counts(100), vec![100]);
    assert_eq!(counts(101), vec![100, 1]);
    assert_eq!(counts(250), vec![100, 100, 50]);
}

#[test]
fn requested_transactions_are_read() {
    let rpc = rpc();
    let answer = object(vec![(
        "txs_as_hex",
        JsonValue::Array(vec![text("ff"), text("f"), JsonValue::Null]),
    )]);
    let blobs = rpc.transactions_by_hashes(&answer).unwrap().unwrap();
    assert_eq!(blobs[0].as_ref().unwrap().as_ref().unwrap(), &vec![255, b'f']);
    assert!(matches!(&blobs[1], Some(Err(DaemonRPCError::HexError(_)))));
    assert!(blobs[2].is_none());
    let no_list = object(vec![("txs_as_hex", JsonValue::Null)]);
    assert!(matches!(
        rpc.transactions_by_hashes(&no_list),
        Some(Err(DaemonRPCError::MissingData))
    ));
    assert!(rpc.transactions_by_hashes(&object(vec![])).is_none());
}

#[test]
fn answers_are_gathered_until_the_first_fault() {
    let rpc = rpc();
    let answer = |list| object(vec![("txs_as_hex", JsonValue::Array(list))]);
    let gather_all = |responses: &[JsonValue]| {
        let mut values: Vec<Vec<u8>> = vec![];
        for response in responses {
            for blob in batch_entries(rpc.transactions_by_hashes(response)) {
                match gather(&mut values, blob) {
                    Some(Ok(())) => {},
                    fault => return (values, fault),
                }
            }
        }
        (values, Some(Ok(())))
    };
    let good = || answer(vec![text("ff"), text("01")]);
    let more = || answer(vec![text("02")]);
    let (values, outcome) = gather_all(&[good(), more()]);
    assert!(matches!(outcome, Some(Ok(()))));
    assert_eq!(values, vec![vec![255, b'f'], vec![1, b'1'], vec![2, b'2']]);
    let bad = answer(vec![text("03"), text("zz"), JsonValue::Null]);
    let (values, outcome) = gather_all(&[good(), bad, more()]);
    assert!(matches!(outcome, Some(Err(DaemonRPCError::HexError(_)))));
    assert_eq!(values.len(), 3);
    let no_list = object(vec![("txs_as_hex", JsonValue::Null)]);
    let (values, outcome) = gather_all(&[good(), no_list, more()]);
    assert!(matches!(outcome, Some(Err(DaemonRPCError::MissingData))));
    assert_eq!(values.len(), 2);
    assert!(gather_all(&[object(vec![]), good()]).1.is_none());
}

#[test]
fn only_timeouts_are_tried_again() {
    assert_eq!((WALLET_ATTEMPTS, LONG_ATTEMPTS, DAEMON_ATTEMPTS), (5, 2, 6));
    for limit in [WALLET_ATTEMPTS, LONG_ATTEMPTS, DAEMON_ATTEMPTS] {
        for attempt in 0..limit {
            assert!(after_attempt(attempt, limit, Outcome::Answered) == Step::Return);
            assert!(after_attempt(attempt, limit, Outcome::Failed) == Step::GiveUp);
            let timed_out = after_attempt(attempt, limit, Outcome::TimedOut);
            assert!(timed_out == if attempt + 1 < limit { Step::Retry } else { Step::GiveUp });
        }
    }
}
