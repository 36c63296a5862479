//! The daemon's remote procedure calls.
use vstd::prelude::*;
use vstd::slice::slice_subrange;
use vstd::slice::slice_to_vec;
use vstd::utf8::*;

use crate::bytes;
use crate::outside;
use crate::outside::codec::json_array;
use crate::outside::consensus::deserialize_hash;
use crate::outside::hex::{decode_hex, decode_hex_in_place, encode_hex};
use crate::outside::sets::{empty_set, insert, DigestSet};
use crate::text;
use crate::wallet::json::JsonValue;

verus! {

/// What can go wrong with a call of the daemon.
#[derive(Debug)]
pub enum DaemonRPCError {
    MissingData,
    MoneroEncodingError(monero::consensus::encode::Error),
    ReqwestError(reqwest::Error),
    HexError(hex_simd::Error),
}

/// The daemon's answer, or nothing where the answer breaks the protocol: a
/// field that every answer has is not there.
pub type DaemonAnswer<T> = Option<Result<T, DaemonRPCError>>;

/// The value that `response` holds under `name` below its `result`.
pub open spec fn result_field(response: JsonValue, name: Seq<char>) -> Option<JsonValue> {
    match response.member("result"@) {
        Some(result) => result.member(name),
        None => None,
    }
}

/// Reads the number under `name` below the `result` of an answer.
fn read_result_number(response: &JsonValue, name: &str) -> (res: DaemonAnswer<u64>)
    ensures
        res is None <==> result_field(*response, name@) is None,
        res matches Some(Ok(n)) ==> result_field(*response, name@)->0.number() == Some(n),
        res matches Some(Err(err)) ==> err is MissingData && result_field(
            *response,
            name@,
        )->0.number() is None,
{
    let result = match response.get("result") {
        Some(result) => result,
        None => return None,
    };
    match result.get(name) {
        Some(field) => match field.as_u64() {
            Some(n) => Some(Ok(n)),
            None => Some(Err(DaemonRPCError::MissingData)),
        },
        None => None,
    }
}

/// Whether a value is text and the text hexadecimal.
pub open spec fn is_hex_text(value: JsonValue) -> bool {
    value.text() matches Some(text) && outside::hex::is_hex(encode_utf8(text))
}

/// What is read from hexadecimal text that is decoded in place: the decoded
/// bytes, followed by the second half of the text.
pub open spec fn in_place_bytes(value: JsonValue) -> Seq<u8> {
    outside::hex::hex_in_place(encode_utf8(value.text()->0))
}

/// Decodes hexadecimal text in place and reads the whole buffer.
fn read_in_place(value: &JsonValue) -> (res: Result<Vec<u8>, DaemonRPCError>)
    ensures
        res is Ok <==> is_hex_text(*value),
        res matches Ok(buffer) ==> buffer@ == in_place_bytes(*value),
        res matches Err(err) ==> match value.text() {
            Some(_) => err is HexError,
            None => err is MissingData,
        },
{
    let text = match value.as_str() {
        Some(text) => text,
        None => return Err(DaemonRPCError::MissingData),
    };
    let mut buffer: Vec<u8> = slice_to_vec(text.as_str().as_bytes());
    match decode_hex_in_place(&mut buffer) {
        Ok(_) => Ok(buffer),
        Err(err) => Err(DaemonRPCError::from(err)),
    }
}

/// The hash of the block in an answer, as the daemon writes it.
pub open spec fn block_hash_field(response: JsonValue) -> Option<JsonValue> {
    match result_field(response, "block_header"@) {
        Some(header) => header.member("hash"@),
        None => None,
    }
}

/// One entry of a list of transactions: its bytes, the error that it gives, or
/// nothing where it breaks the protocol.
pub open spec fn is_pool_blob(entry: JsonValue, blob: DaemonAnswer<Vec<u8>>) -> bool {
    match entry.member("tx_blob"@) {
        None => blob is None,
        Some(value) => match value.text() {
            None => blob matches Some(Err(err)) && err is MissingData,
            Some(_) => if is_hex_text(value) {
                blob matches Some(Ok(buffer)) && buffer@ == in_place_bytes(value)
            } else {
                blob matches Some(Err(err)) && err is HexError
            },
        },
    }
}

/// One requested transaction: its bytes, the error that it gives, or nothing
/// where it is no text.
pub open spec fn is_requested_blob(entry: JsonValue, blob: DaemonAnswer<Vec<u8>>) -> bool {
    match entry.text() {
        None => blob is None,
        Some(_) => if is_hex_text(entry) {
            blob matches Some(Ok(buffer)) && buffer@ == in_place_bytes(entry)
        } else {
            blob matches Some(Err(err)) && err is HexError
        },
    }
}

/// Why a list of hashes cannot be read.
pub enum HashFault {
    MissingData,
    HexError,
    MoneroEncodingError,
}

impl HashFault {
    /// Whether `err` says the same.
    pub open spec fn is_error(self, err: DaemonRPCError) -> bool {
        match self {
            HashFault::MissingData => err is MissingData,
            HashFault::HexError => err is HexError,
            HashFault::MoneroEncodingError => err is MoneroEncodingError,
        }
    }
}

/// The hash that a value holds. The text is decoded in place and the whole
/// buffer, as long as the text, is taken for the hash.
pub open spec fn hash_in(value: JsonValue) -> Result<Seq<u8>, HashFault> {
    if value.text() is None {
        Err(HashFault::MissingData)
    } else if !is_hex_text(value) {
        Err(HashFault::HexError)
    } else if in_place_bytes(value).len() != 32 {
        Err(HashFault::MoneroEncodingError)
    } else {
        Ok(in_place_bytes(value))
    }
}

/// The hashes in a list, or the fault of the first entry that has one.
pub open spec fn hashes_in(list: Seq<JsonValue>) -> Result<Set<Seq<u8>>, HashFault>
    decreases list.len(),
{
    if list.len() == 0 {
        Ok(Set::empty())
    } else {
        match hashes_in(list.drop_last()) {
            Ok(set) => match hash_in(list.last()) {
                Ok(hash) => Ok(set.insert(hash)),
                Err(fault) => Err(fault),
            },
            Err(fault) => Err(fault),
        }
    }
}

/// A fault in the beginning of a list is the fault of the list.
proof fn lemma_fault_stays(list: Seq<JsonValue>, n: int)
    requires
        0 <= n <= list.len(),
        hashes_in(list.take(n)) is Err,
    ensures
        hashes_in(list) == hashes_in(list.take(n)),
    decreases list.len() - n,
{
    if n == list.len() {
        assert(list.take(n) =~= list);
    } else {
        assert(list.take(n + 1).drop_last() =~= list.take(n));
        lemma_fault_stays(list, n + 1);
    }
}

/// Whether `set` holds exactly the given hashes.
pub open spec fn holds_hashes(set: DigestSet, hashes: Set<Seq<u8>>) -> bool {
    forall|hash: [u8; 32]| #[trigger]
        outside::sets::digests(set).contains(hash) <==> hashes.contains(hash@)
}

/// Transactions that the daemon hands out at once.
pub const MAX_REQUESTED_TRANSACTIONS: usize = 100;

/// The hashes in groups of a hundred, in their order; only the last group may
/// be smaller, and none is empty.
pub open spec fn batches(hashes: Seq<[u8; 32]>) -> Seq<Seq<[u8; 32]>>
    decreases hashes.len(),
{
    if hashes.len() == 0 {
        seq![]
    } else if hashes.len() <= 100 {
        seq![hashes]
    } else {
        seq![hashes.take(100)] + batches(hashes.skip(100))
    }
}

/// The request for the transactions with the given hashes.
pub open spec fn transactions_request_text(hashes: Seq<[u8; 32]>) -> Seq<char> {
    r#"{"txs_hashes":"#@ + seq!['['] + outside::codec::quoted_list(
        hashes.map_values(|hash: [u8; 32]| outside::hex::lower_hex(hash@)),
    ) + seq![']'] + "}"@
}

/// Writes the request for the transactions with the given hashes.
fn transactions_request(hashes: &[[u8; 32]]) -> (req: String)
    requires
        hashes@.len() > 0,
    ensures
        req@ == transactions_request_text(hashes@),
{
    let mut list: Vec<String> = Vec::new();
    let mut i: usize = 0;
    while i < hashes.len()
        invariant
            i <= hashes@.len(),
            list@.len() == i,
            forall|j: int|
                0 <= j < i ==> (#[trigger] list@[j])@ == outside::hex::lower_hex(hashes@[j]@),
        decreases hashes@.len() - i,
    {
        list.push(encode_hex(hashes[i].as_slice()));
        i += 1;
    }
    proof {
        assert(list@.map_values(|s: String| s@) =~= hashes@.map_values(
            |hash: [u8; 32]| outside::hex::lower_hex(hash@),
        ));
        assert forall|j: int| 0 <= j < list@.len() implies outside::codec::plain_in_json(
            #[trigger] list@[j]@,
        ) by {
            lemma_hex_is_plain(hashes@[j]@);
        }
    }
    let mut req: String = r#"{"txs_hashes":"#.to_owned();
    req.append(json_array(&list).as_str());
    req.append("}");
    assert(req@ =~= transactions_request_text(hashes@));
    req
}

proof fn lemma_hex_is_plain(bytes: Seq<u8>)
    ensures
        outside::codec::plain_in_json(outside::hex::lower_hex(bytes)),
{
}

/// How to reach the daemon.
pub struct DaemonRPC {
    /// Where requests are sent.
    pub daemon_url: String,
    /// Milliseconds that a connection may take to be made.
    pub connect_timeout: u64,
    /// Milliseconds that a request may take.
    pub timeout: u64,
}

impl DaemonRPC {
    /// A daemon at `daemon_url`. Without timeouts of the caller's own, requests
    /// get 3.5 seconds.
    pub fn new(
        daemon_url: String,
        connection_timeout: Option<u64>,
        send_timeout: Option<u64>,
    ) -> (res: Self)
        ensures
            res.daemon_url@ == daemon_url@,
            res.connect_timeout == (if connection_timeout is Some {
                connection_timeout->0
            } else {
                3500
            }),
            res.timeout == (if send_timeout is Some {
                send_timeout->0
            } else {
                3500
            }),
    {
        DaemonRPC {
            daemon_url,
            connect_timeout: connection_timeout.unwrap_or(3500),
            timeout: send_timeout.unwrap_or(3500),
        }
    }

    /// Where a request to `endpoint` is sent.
    pub fn url(&self, endpoint: &str) -> (res: String)
        ensures
            res@ == self.daemon_url@ + endpoint@,
    {
        let mut res = self.daemon_url.clone();
        res.append(endpoint);
        res
    }

    /// The request for the network fee, sent to `/json_rpc`.
    pub fn get_fee_request(&self) -> (req: String)
        ensures
            req@ == r#"{"jsonrpc":"2.0","id":"0","method":"get_fee_estimate"}}"#@,
    {
        r#"{"jsonrpc":"2.0","id":"0","method":"get_fee_estimate"}}"#.to_owned()
    }

    /// Reads the network fee per byte.
    pub fn get_fee(&self, response: &JsonValue) -> (res: DaemonAnswer<u64>)
        ensures
            res is None <==> result_field(*response, "fee"@) is None,
            res matches Some(Ok(n)) ==> result_field(*response, "fee"@)->0.number() == Some(n),
            res matches Some(Err(err)) ==> err is MissingData && result_field(
                *response,
                "fee"@,
            )->0.number() is None,
    {
        read_result_number(response, "fee")
    }

    /// The request for the number of blocks, sent to `/json_rpc`.
    pub fn daemon_height_request(&self) -> (req: String)
        ensures
            req@ == r#"{"jsonrpc":"2.0","id":"0","method":"get_block_count"}"#@,
    {
        r#"{"jsonrpc":"2.0","id":"0","method":"get_block_count"}"#.to_owned()
    }

    /// Reads the number of blocks.
    pub fn daemon_height(&self, response: &JsonValue) -> (res: DaemonAnswer<u64>)
        ensures
            res is None <==> result_field(*response, "count"@) is None,
            res matches Some(Ok(n)) ==> result_field(*response, "count"@)->0.number() == Some(n),
            res matches Some(Err(err)) ==> err is MissingData && result_field(
                *response,
                "count"@,
            )->0.number() is None,
    {
        read_result_number(response, "count")
    }

    /// The request for the block at `height`, sent to `/json_rpc`.
    pub fn block_request(&self, height: u64) -> (req: String)
        ensures
            req@ == r#"{"jsonrpc":"2.0","id":"0","method":"get_block","params":{"height":"#@
                + text::decimal(height as nat) + "}}"@,
    {
        let mut req: String =
            r#"{"jsonrpc":"2.0","id":"0","method":"get_block","params":{"height":"#.to_owned();
        req.append(text::decimal_text(height).as_str());
        req.append("}}");
        req
    }

    /// Reads a block's hash and its encoded bytes. The text of the hash is
    /// decoded in place and the whole buffer is taken for the hash, so the text
    /// must be 32 characters long.
    pub fn block(&self, response: &JsonValue) -> (res: DaemonAnswer<([u8; 32], Vec<u8>)>)
        ensures
            match block_hash_field(*response) {
                None => res is None,
                Some(hash) => match hash_in(hash) {
                    Err(HashFault::MissingData) => res matches Some(Err(err)) && err is MissingData,
                    Err(HashFault::HexError) => res matches Some(Err(err)) && err is HexError,
                    Err(HashFault::MoneroEncodingError) => res is None,
                    Ok(bytes) => match result_field(*response, "blob"@) {
                        None => res is None,
                        Some(blob) => match blob.text() {
                            None => res matches Some(Err(err)) && err is MissingData,
                            Some(text) => if outside::hex::is_hex(encode_utf8(text)) {
                                res matches Some(Ok(block)) && block.0@ == bytes && block.1@
                                    == outside::hex::hex_bytes(encode_utf8(text))
                            } else {
                                res matches Some(Err(err)) && err is HexError
                            },
                        },
                    },
                },
            },
    {
        let result = match response.get("result") {
            Some(result) => result,
            None => return None,
        };
        let header = match result.get("block_header") {
            Some(header) => header,
            None => return None,
        };
        let hash_field = match header.get("hash") {
            Some(hash_field) => hash_field,
            None => return None,
        };
        let buffer = match read_in_place(hash_field) {
            Ok(buffer) => buffer,
            Err(err) => return Some(Err(err)),
        };
        if buffer.len() != 32 {
            return None;
        }
        let hash: [u8; 32] = bytes::digest_at(buffer.as_slice(), 0);
        assert(hash@ =~= buffer@);
        let text = match result.get("blob") {
            Some(blob) => match blob.as_str() {
                Some(text) => text,
                None => return Some(Err(DaemonRPCError::MissingData)),
            },
            None => return None,
        };
        match decode_hex(text.as_str().as_bytes()) {
            Ok(block) => Some(Ok((hash, block))),
            Err(err) => Some(Err(DaemonRPCError::from(err))),
        }
    }

    /// Reads the transactions that wait to be mined: for each entry, in their
    /// order, its bytes or why there are none. Where the answer holds no list
    /// there are none.
    pub fn txpool(&self, response: &JsonValue) -> (res: Option<Vec<DaemonAnswer<Vec<u8>>>>)
        ensures
            res is None <==> response.member("transactions"@) is None,
            res matches Some(blobs) ==> match response.member("transactions"@)->0.items() {
                None => blobs@.len() == 0,
                Some(list) => blobs@.len() == list.len() && forall|i: int|
                    0 <= i < list.len() ==> is_pool_blob(list[i], #[trigger] blobs@[i]),
            },
    {
        let list = match response.get("transactions") {
            Some(field) => match field.as_array() {
                Some(list) => list,
                None => return Some(Vec::new()),
            },
            None => return None,
        };
        let mut blobs: Vec<DaemonAnswer<Vec<u8>>> = Vec::new();
        let mut i: usize = 0;
        while i < list.len()
            invariant
                i <= list@.len(),
                blobs@.len() == i,
                forall|j: int| 0 <= j < i ==> is_pool_blob(list@[j], #[trigger] blobs@[j]),
            decreases list@.len() - i,
        {
            let blob = match list[i].get("tx_blob") {
                Some(value) => Some(read_in_place(value)),
                None => None,
            };
            assert(is_pool_blob(list@[i as int], blob));
            blobs.push(blob);
            i += 1;
        }
        Some(blobs)
    }

    /// Reads the hashes of the transactions that wait to be mined. Where the
    /// answer holds no list there are none.
    pub fn txpool_hashes(&self, response: &JsonValue) -> (res: DaemonAnswer<DigestSet>)
        ensures
            res is None <==> response.member("tx_hashes"@) is None,
            res matches Some(Ok(set)) ==> match response.member("tx_hashes"@)->0.items() {
                None => holds_hashes(set, Set::empty()),
                Some(list) => hashes_in(list) matches Ok(hashes) && holds_hashes(set, hashes),
            },
            res matches Some(Err(err)) ==> (response.member("tx_hashes"@)->0.items() matches Some(
                list,
            ) && hashes_in(list) matches Err(fault) && fault.is_error(err)),
    {
        let mut hashes = empty_set();
        let list = match response.get("tx_hashes") {
            Some(field) => match field.as_array() {
                Some(list) => list,
                None => return Some(Ok(hashes)),
            },
            None => return None,
        };
        let mut i: usize = 0;
        while i < list.len()
            invariant
                i <= list@.len(),
                response.member("tx_hashes"@) is Some,
                response.member("tx_hashes"@)->0.items() == Some(list@),
                hashes_in(list@.take(i as int)) matches Ok(found) && holds_hashes(hashes, found),
            decreases list@.len() - i,
        {
            assert(list@.take(i + 1).drop_last() =~= list@.take(i as int));
            let buffer = match read_in_place(&list[i]) {
                Ok(buffer) => buffer,
                Err(err) => {
                    proof {
                        lemma_fault_stays(list@, i + 1);
                    }
                    return Some(Err(err));
                },
            };
            match deserialize_hash(buffer.as_slice()) {
                Ok(hash) => {
                    let ghost before = outside::sets::digests(hashes);
                    insert(&mut hashes, hash);
                    proof {
                        let found = hashes_in(list@.take(i as int))->Ok_0;
                        assert forall|other: [u8; 32]| #[trigger]
                            outside::sets::digests(hashes).contains(other) <==> found.insert(
                            hash@,
                        ).contains(other@) by {
                            if other@ == hash@ {
                                assert(other =~= hash);
                            }
                            assert(before.contains(other) <==> found.contains(other@));
                        }
                    }
                },
                Err(err) => {
                    proof {
                        lemma_fault_stays(list@, i + 1);
                    }
                    return Some(Err(DaemonRPCError::from(err)));
                },
            }
            i += 1;
        }
        assert(list@.take(list@.len() as int) =~= list@);
        Some(Ok(hashes))
    }

    /// The requests for the transactions with the given hashes, sent to
    /// `/get_transactions` one after the other: a hundred at once, as the
    /// daemon limits it.
    pub fn transactions_by_hashes_requests(&self, hashes: &[[u8; 32]]) -> (reqs: Vec<String>)
        ensures
            reqs@.map_values(|s: String| s@) == batches(hashes@).map_values(
                |batch: Seq<[u8; 32]>| transactions_request_text(batch),
            ),
    {
        let mut reqs: Vec<String> = Vec::new();
        let total: usize = hashes.len();
        let mut start: usize = 0;
        let ghost write = |batch: Seq<[u8; 32]>| transactions_request_text(batch);
        assert(hashes@.skip(0) =~= hashes@);
        while start < total
            invariant
                start <= total,
                total == hashes@.len(),
                write == (|batch: Seq<[u8; 32]>| transactions_request_text(batch)),
                batches(hashes@).map_values(write) =~= reqs@.map_values(|s: String| s@) + batches(
                    hashes@.skip(start as int),
                ).map_values(write),
            decreases total - start,
        {
            let ghost before = reqs@;
            let ghost rest = hashes@.skip(start as int);
            let end: usize = if total - start < MAX_REQUESTED_TRANSACTIONS {
                total
            } else {
                start + MAX_REQUESTED_TRANSACTIONS
            };
            let batch = slice_subrange(hashes, start, end);
            reqs.push(transactions_request(batch));
            proof {
                assert(hashes@.skip(end as int) =~= rest.skip(end - start));
                assert(batch@ =~= rest.take(end - start));
                assert(rest.take(rest.len() as int) =~= rest);
                assert(batches(rest) =~= seq![batch@] + batches(hashes@.skip(end as int)));
                assert(reqs@.map_values(|s: String| s@) =~= before.map_values(|s: String| s@).push(
                    write(batch@),
                ));
                assert(batches(rest).map_values(write) =~= seq![write(batch@)] + batches(
                    hashes@.skip(end as int),
                ).map_values(write));
            }
            start = end;
        }
        assert(hashes@.skip(total as int) =~= seq![]);
        assert(batches(seq![]).map_values(write) =~= seq![]);
        reqs
    }

    /// Reads the transactions from the answer to one of the requests: for each
    /// entry, in their order, its bytes or why there are none.
    pub fn transactions_by_hashes(&self, response: &JsonValue) -> (res: DaemonAnswer<
        Vec<DaemonAnswer<Vec<u8>>>,
    >)
        ensures
            res is None <==> response.member("txs_as_hex"@) is None,
            res matches Some(Err(err)) ==> err is MissingData && response.member(
                "txs_as_hex"@,
            )->0.items() is None,
            res matches Some(Ok(blobs)) ==> (response.member("txs_as_hex"@)->0.items() matches Some(
                list,
            ) && blobs@.len() == list.len() && forall|i: int|
                0 <= i < list.len() ==> is_requested_blob(list[i], #[trigger] blobs@[i])),
    {
        let list = match response.get("txs_as_hex") {
            Some(field) => match field.as_array() {
                Some(list) => list,
                None => return Some(Err(DaemonRPCError::MissingData)),
            },
            None => return None,
        };
        let mut blobs: Vec<DaemonAnswer<Vec<u8>>> = Vec::new();
        let mut i: usize = 0;
        while i < list.len()
            invariant
                i <= list@.len(),
                blobs@.len() == i,
                forall|j: int| 0 <= j < i ==> is_requested_blob(list@[j], #[trigger] blobs@[j]),
            decreases list@.len() - i,
        {
            let blob = if list[i].as_str().is_some() {
                Some(read_in_place(&list[i]))
            } else {
                None
            };
            assert(is_requested_blob(list@[i as int], blob));
            blobs.push(blob);
            i += 1;
        }
        Some(Ok(blobs))
    }
}

/// All batches together, one behind the other.
pub open spec fn joined<T>(parts: Seq<Seq<T>>) -> Seq<T>
    decreases parts.len(),
{
    if parts.len() == 0 {
        seq![]
    } else {
        parts[0] + joined(parts.drop_first())
    }
}

/// Every hash is requested, once and in its place, and no request asks for
/// more than a hundred transactions or for none.
pub proof fn batches_cover(hashes: Seq<[u8; 32]>)
    ensures
        joined(batches(hashes)) == hashes,
        forall|i: int| 0 <= i < batches(hashes).len() ==> 1 <= (#[trigger] batches(hashes)[i]).len() <= 100,
    decreases hashes.len(),
{
    if hashes.len() == 0 {
    } else if hashes.len() <= 100 {
        let parts = batches(hashes);
        assert(parts.drop_first() =~= seq![]);
        assert(joined(parts.drop_first()) =~= seq![]);
        assert(joined(parts) =~= hashes);
    } else {
        batches_cover(hashes.skip(100));
        let parts = batches(hashes);
        assert(parts.drop_first() =~= batches(hashes.skip(100)));
        assert(hashes =~= hashes.take(100) + hashes.skip(100));
        assert forall|i: int| 0 <= i < parts.len() implies 1 <= (#[trigger] parts[i]).len() <= 100 by {
            if i > 0 {
                assert(parts[i] == batches(hashes.skip(100))[i - 1]);
            }
        }
    }
}

impl From<reqwest::Error> for DaemonRPCError {
    fn from(err: reqwest::Error) -> (res: Self) {
        DaemonRPCError::ReqwestError(err)
    }
}

impl vstd::std_specs::convert::FromSpecImpl<reqwest::Error> for DaemonRPCError {
    open spec fn obeys_from_spec() -> bool {
        true
    }

    open spec fn from_spec(err: reqwest::Error) -> Self {
        DaemonRPCError::ReqwestError(err)
    }
}

impl From<monero::consensus::encode::Error> for DaemonRPCError {
    fn from(err: monero::consensus::encode::Error) -> (res: Self) {
        DaemonRPCError::MoneroEncodingError(err)
    }
}

impl vstd::std_specs::convert::FromSpecImpl<monero::consensus::encode::Error> for DaemonRPCError {
    open spec fn obeys_from_spec() -> bool {
        true
    }

    open spec fn from_spec(err: monero::consensus::encode::Error) -> Self {
        DaemonRPCError::MoneroEncodingError(err)
    }
}

impl From<hex_simd::Error> for DaemonRPCError {
    fn from(err: hex_simd::Error) -> (res: Self) {
        DaemonRPCError::HexError(err)
    }
}

impl vstd::std_specs::convert::FromSpecImpl<hex_simd::Error> for DaemonRPCError {
    open spec fn obeys_from_spec() -> bool {
        true
    }

    open spec fn from_spec(err: hex_simd::Error) -> Self {
        DaemonRPCError::HexError(err)
    }
}

/// Groups of hashes are full: only the last may have fewer than a hundred.
pub proof fn batches_are_full(hashes: Seq<[u8; 32]>)
    ensures
        forall|i: int|
            0 <= i < batches(hashes).len() - 1 ==> (#[trigger] batches(hashes)[i]).len() == 100,
        100 * (batches(hashes).len() - 1) < hashes.len() || hashes.len() == 0,
        hashes.len() <= 100 * batches(hashes).len(),
    decreases hashes.len(),
{
    if hashes.len() > 100 {
        let rest = batches(hashes.skip(100));
        batches_are_full(hashes.skip(100));
        assert forall|i: int| 0 <= i < batches(hashes).len() - 1 implies (#[trigger] batches(
            hashes,
        )[i]).len() == 100 by {
            if i > 0 {
                assert(batches(hashes)[i] == rest[i - 1]);
            }
        }
    }
}

/// The daemon hands out a hundred transactions at once.
pub proof fn hundred_transactions_at_once()
    ensures
        MAX_REQUESTED_TRANSACTIONS == 100,
{
}

/// A request names each hash once, in lower-case hexadecimal between quotes,
/// and one more hash is named behind the others.
pub proof fn requests_name_the_hashes(hashes: Seq<[u8; 32]>, hash: [u8; 32])
    ensures
        transactions_request_text(seq![hash]) == r#"{"txs_hashes":["#@ + seq!['"']
            + outside::hex::lower_hex(hash@) + seq!['"', ']', '}'],
        hashes.len() > 0 ==> ({
            let text = transactions_request_text(hashes);
            transactions_request_text(hashes.push(hash)) == text.take(text.len() - 2) + seq![
                ',',
                '"',
            ] + outside::hex::lower_hex(hash@) + seq!['"', ']', '}']
        }),
{
    reveal_strlit(r#"{"txs_hashes":["#);
    reveal_strlit(r#"{"txs_hashes":"#);
    reveal_strlit("}");
    let write = |hash: [u8; 32]| outside::hex::lower_hex(hash@);
    reveal_with_fuel(outside::codec::quoted_list, 2);
    assert(seq![hash].map_values(write) =~= seq![write(hash)]);
    assert(transactions_request_text(seq![hash]) =~= r#"{"txs_hashes":["#@ + seq!['"']
        + outside::hex::lower_hex(hash@) + seq!['"', ']', '}']);
    if hashes.len() > 0 {
        let text = transactions_request_text(hashes);
        let more = hashes.push(hash).map_values(write);
        assert(more.drop_last() =~= hashes.map_values(write));
        assert(more.last() == write(hash));
        assert(transactions_request_text(hashes.push(hash)) =~= text.take(text.len() - 2) + seq![
            ',',
            '"',
        ] + outside::hex::lower_hex(hash@) + seq!['"', ']', '}']);
    }
}

/// A hash is read from text of 32 hexadecimal digits, as the sixteen bytes that
/// they stand for and the last sixteen digits themselves. Whatever is no text,
/// no hexadecimal or not as long is told apart.
pub proof fn hashes_are_read(value: JsonValue, text: Seq<char>)
    ensures
        value.text() is None ==> hash_in(value) == Result::<Seq<u8>, HashFault>::Err(
            HashFault::MissingData,
        ),
        value.text() == Some(text) ==> {
            let digits = encode_utf8(text);
            &&& !outside::hex::is_hex(digits) ==> hash_in(value) == Result::<
                Seq<u8>,
                HashFault,
            >::Err(HashFault::HexError)
            &&& outside::hex::is_hex(digits) && digits.len() != 32 ==> hash_in(value) == Result::<
                Seq<u8>,
                HashFault,
            >::Err(HashFault::MoneroEncodingError)
            &&& outside::hex::is_hex(digits) && digits.len() == 32 ==> hash_in(value) == Result::<
                Seq<u8>,
                HashFault,
            >::Ok(outside::hex::hex_bytes(digits) + digits.skip(16))
            &&& is_hex_text(value) <==> outside::hex::is_hex(digits)
            &&& outside::hex::is_hex(digits) ==> in_place_bytes(value).len() == digits.len()
                && in_place_bytes(value) == outside::hex::hex_bytes(digits) + digits.skip(
                digits.len() as int / 2,
            )
        },
{
    if value.text() == Some(text) {
        let digits = encode_utf8(text);
        assert(digits.subrange(digits.len() as int / 2, digits.len() as int) =~= digits.skip(
            digits.len() as int / 2,
        ));
    }
}

/// Where every entry of a list is a hash, just these hashes are read; else the
/// first entry that is none says why.
pub proof fn lists_of_hashes_are_read(list: Seq<JsonValue>, hash: Seq<u8>, k: int)
    ensures
        (forall|i: int| 0 <= i < list.len() ==> (#[trigger] hash_in(list[i])) is Ok) ==> (hashes_in(
            list,
        ) matches Ok(set) && (set.contains(hash) <==> exists|i: int|
            0 <= i < list.len() && #[trigger] hash_in(list[i]) == Result::<
                Seq<u8>,
                HashFault,
            >::Ok(hash))),
        0 <= k < list.len() && (forall|i: int|
            0 <= i < k ==> (#[trigger] hash_in(list[i])) is Ok) ==> (hash_in(list[k]) matches Err(
            fault,
        ) ==> hashes_in(list) == Result::<Set<Seq<u8>>, HashFault>::Err(fault)),
    decreases list.len(),
{
    if list.len() > 0 {
        let shorter = list.drop_last();
        let last = list.len() - 1;
        lists_of_hashes_are_read(shorter, hash, k);
        lists_of_hashes_are_read(shorter, hash, last);
        assert forall|i: int| 0 <= i < shorter.len() implies #[trigger] hash_in(shorter[i])
            == hash_in(list[i]) by {}
        if forall|i: int| 0 <= i < list.len() ==> (#[trigger] hash_in(list[i])) is Ok {
            assert forall|i: int| 0 <= i < shorter.len() implies (#[trigger] hash_in(
                shorter[i],
            )) is Ok by {
                assert(hash_in(list[i]) is Ok);
            }
            assert(hash_in(list[last]) is Ok);
            let before = hashes_in(shorter)->Ok_0;
            let set = hashes_in(list)->Ok_0;
            if set.contains(hash) {
                if before.contains(hash) {
                    let i = choose|i: int|
                        0 <= i < shorter.len() && #[trigger] hash_in(shorter[i]) == Result::<
                            Seq<u8>,
                            HashFault,
                        >::Ok(hash);
                    assert(hash_in(list[i]) == Result::<Seq<u8>, HashFault>::Ok(hash));
                } else {
                    assert(hash_in(list[last]) == Result::<Seq<u8>, HashFault>::Ok(hash));
                }
            }
            if exists|i: int|
                0 <= i < list.len() && #[trigger] hash_in(list[i]) == Result::<
                    Seq<u8>,
                    HashFault,
                >::Ok(hash) {
                let i = choose|i: int|
                    0 <= i < list.len() && #[trigger] hash_in(list[i]) == Result::<
                        Seq<u8>,
                        HashFault,
                    >::Ok(hash);
                if i < last {
                    assert(hash_in(shorter[i]) == Result::<Seq<u8>, HashFault>::Ok(hash));
                }
            }
        }
        if 0 <= k < list.len() && (forall|i: int|
            0 <= i < k ==> (#[trigger] hash_in(list[i])) is Ok) && hash_in(list[k]) is Err {
            assert forall|i: int| 0 <= i < k && i < shorter.len() implies (#[trigger] hash_in(
                shorter[i],
            )) is Ok by {
                assert(hash_in(list[i]) is Ok);
            }
            if k < last {
                assert(hash_in(shorter[k]) == hash_in(list[k]));
            }
        }
    }
}

/// A waiting transaction is read from the text under `tx_blob` of its entry and
/// a requested one from the entry itself, each as it was decoded in place;
/// where there is no text, or no hexadecimal, that is said.
pub proof fn transactions_are_read(
    entry: JsonValue,
    blob: JsonValue,
    text: Seq<char>,
    read: DaemonAnswer<Vec<u8>>,
)
    ensures
        ({
            let digits = encode_utf8(text);
            &&& entry.member("tx_blob"@) is None ==> (is_pool_blob(entry, read) <==> read is None)
            &&& entry.member("tx_blob"@) == Some(blob) && blob.text() is None ==> (is_pool_blob(
                entry,
                read,
            ) <==> (read matches Some(Err(err)) && err is MissingData))
            &&& entry.member("tx_blob"@) == Some(blob) && blob.text() == Some(text) ==> (
            is_pool_blob(entry, read) <==> if outside::hex::is_hex(digits) {
                read matches Some(Ok(bytes)) && bytes@ == outside::hex::hex_in_place(digits)
            } else {
                read matches Some(Err(err)) && err is HexError
            })
            &&& entry.text() is None ==> (is_requested_blob(entry, read) <==> read is None)
            &&& entry.text() == Some(text) ==> (is_requested_blob(entry, read)
                <==> if outside::hex::is_hex(digits) {
                read matches Some(Ok(bytes)) && bytes@ == outside::hex::hex_in_place(digits)
            } else {
                read matches Some(Err(err)) && err is HexError
            })
        }),
{
}

/// A field is looked for below the result, and the hash of a block below the
/// header in the result.
pub proof fn fields_stand_below_the_result(response: JsonValue, result: JsonValue, name: Seq<char>)
    ensures
        response.member("result"@) is None ==> result_field(response, name) is None
            && block_hash_field(response) is None,
        response.member("result"@) == Some(result) ==> {
            &&& result_field(response, name) == result.member(name)
            &&& result.member("block_header"@) is None ==> block_hash_field(response) is None
            &&& result.member("block_header"@) matches Some(header) ==> block_hash_field(response)
                == header.member("hash"@)
        },
{
}

/// A fault is told as the error of its own kind, and a set holds just the
/// hashes that were read.
pub proof fn faults_are_told(err: DaemonRPCError, set: DigestSet, hashes: Set<Seq<u8>>)
    ensures
        HashFault::MissingData.is_error(err) <==> err is MissingData,
        HashFault::HexError.is_error(err) <==> err is HexError,
        HashFault::MoneroEncodingError.is_error(err) <==> err is MoneroEncodingError,
        holds_hashes(set, hashes) ==> forall|hash: [u8; 32]|
            hashes.contains(#[trigger] hash@) <==> outside::sets::digests(set).contains(hash),
{
}

} // verus!
