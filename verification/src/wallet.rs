//! Talking to a Monero wallet and a Monero daemon: what to send and what to
//! make of the answers.
use vstd::prelude::*;

pub mod address;
pub mod daemon_rpc;
pub mod gathering;
pub mod json;
pub mod reading;
pub mod retry;
pub mod wallet_rpc;

use crate::outside::address::Network;
use address::Address;
use daemon_rpc::{DaemonAnswer, DaemonRPC, DaemonRPCError};
use json::JsonValue;
use reading::Reading;
use wallet_rpc::{Answer, TransferOut, Transfers, WalletBalance, WalletRPC, WalletRPCError};

verus! {

/// What can go wrong with a call of the wallet or the daemon.
#[derive(Debug)]
pub enum WalletError {
    WalletRPC(WalletRPCError),
    DaemonRPC(DaemonRPCError),
}

impl From<WalletRPCError> for WalletError {
    fn from(e: WalletRPCError) -> (res: Self) {
        WalletError::WalletRPC(e)
    }
}

impl vstd::std_specs::convert::FromSpecImpl<WalletRPCError> for WalletError {
    open spec fn obeys_from_spec() -> bool {
        true
    }

    open spec fn from_spec(e: WalletRPCError) -> Self {
        WalletError::WalletRPC(e)
    }
}

impl From<DaemonRPCError> for WalletError {
    fn from(e: DaemonRPCError) -> (res: Self) {
        WalletError::DaemonRPC(e)
    }
}

impl vstd::std_specs::convert::FromSpecImpl<DaemonRPCError> for WalletError {
    open spec fn obeys_from_spec() -> bool {
        true
    }

    open spec fn from_spec(e: DaemonRPCError) -> Self {
        WalletError::DaemonRPC(e)
    }
}

/// A wallet together with the daemon that it watches the network through.
pub struct Wallet {
    pub wallet_rpc: WalletRPC,
    pub daemon_rpc: DaemonRPC,
    pub addr: Address,
}

/// An answer of the wallet, with its error as an error of the whole.
fn wallet_answer<T>(answer: Answer<T>) -> (res: Option<Result<T, WalletError>>)
    ensures
        res == match answer {
            None => None,
            Some(Ok(value)) => Some(Ok(value)),
            Some(Err(err)) => Some(Err(WalletError::WalletRPC(err))),
        },
{
    match answer {
        None => None,
        Some(Ok(value)) => Some(Ok(value)),
        Some(Err(err)) => Some(Err(WalletError::from(err))),
    }
}

/// An answer of the daemon, with its error as an error of the whole.
fn daemon_answer<T>(answer: DaemonAnswer<T>) -> (res: Option<Result<T, WalletError>>)
    ensures
        res == match answer {
            None => None,
            Some(Ok(value)) => Some(Ok(value)),
            Some(Err(err)) => Some(Err(WalletError::DaemonRPC(err))),
        },
{
    match answer {
        None => None,
        Some(Ok(value)) => Some(Ok(value)),
        Some(Err(err)) => Some(Err(WalletError::from(err))),
    }
}

/// Whether the error says that something was missing in the wallet's answer.
pub open spec fn wallet_data_missing(err: WalletError) -> bool {
    err matches WalletError::WalletRPC(e) && e is MissingData
}

/// Whether the error says that something was missing in the daemon's answer.
pub open spec fn daemon_data_missing(err: WalletError) -> bool {
    err matches WalletError::DaemonRPC(e) && e is MissingData
}

impl Wallet {
    /// A wallet and a daemon at the given places. `addr` is the address that
    /// the wallet gave for its own.
    pub fn new(
        wallet_url: String,
        daemon_url: String,
        connection_timeout: Option<u64>,
        send_timeout: Option<u64>,
        addr: Address,
    ) -> (res: Self)
        ensures
            res.addr@ == addr@,
            res.wallet_rpc.wallet_daemon_url@ == wallet_url@ + "/json_rpc"@,
            res.daemon_rpc.daemon_url@ == daemon_url@,
            connection_timeout matches Some(t) ==> {
                &&& res.wallet_rpc.connect_timeout == t
                &&& res.wallet_rpc.long_connect_timeout == t
                &&& res.daemon_rpc.connect_timeout == t
            },
            connection_timeout is None ==> {
                &&& res.wallet_rpc.connect_timeout == 3500
                &&& res.wallet_rpc.long_connect_timeout == 45_000
                &&& res.daemon_rpc.connect_timeout == 3500
            },
            send_timeout matches Some(t) ==> {
                &&& res.wallet_rpc.timeout == t
                &&& res.wallet_rpc.long_timeout == t
                &&& res.daemon_rpc.timeout == t
            },
            send_timeout is None ==> {
                &&& res.wallet_rpc.timeout == 3500
                &&& res.wallet_rpc.long_timeout == 45_000
                &&& res.daemon_rpc.timeout == 3500
            },
    {
        Wallet {
            wallet_rpc: WalletRPC::new(wallet_url, connection_timeout, send_timeout),
            daemon_rpc: DaemonRPC::new(daemon_url, connection_timeout, send_timeout),
            addr,
        }
    }

    /// A payment address of this wallet that carries the payment id `id`. It is
    /// on the main network, whatever network the wallet's own address is on.
    pub fn new_integrated_addr(&self, id: [u8; 8]) -> (res: Address)
        ensures
            address::is_integrated(res@, self.addr@, Network::Mainnet, id@),
    {
        self.addr.integrated(Network::Mainnet, id)
    }

    /// The address of this wallet.
    pub fn address(&self) -> (res: &Address)
        ensures
            *res == self.addr,
    {
        &self.addr
    }

    /// What came of sending money: see `WalletRPC::transfer`.
    pub fn transfer(&self, response: &JsonValue) -> (res: Answer<TransferOut>)
        ensures
            res is None <==> wallet_rpc::sent_in(*response) is Malformed,
            res matches Some(Err(err)) ==> err is MissingData && wallet_rpc::sent_in(
                *response,
            ) is Missing,
            res matches Some(Ok(sent)) ==> wallet_rpc::sent_in(*response) == Reading::Found(sent@),
    {
        self.wallet_rpc.transfer(response)
    }

    /// What this wallet can spend, the balances of all users together.
    pub fn get_balance(&self, response: &JsonValue) -> (res: Option<
        Result<WalletBalance, WalletError>,
    >)
        ensures
            res is None <==> wallet_rpc::balance_in(*response, "unlocked_balance"@) is Malformed,
            res matches Some(Err(err)) ==> wallet_data_missing(err) && wallet_rpc::balance_in(
                *response,
                "unlocked_balance"@,
            ) is Missing,
            res matches Some(Ok(b)) ==> wallet_rpc::balance_in(*response, "unlocked_balance"@)
                == Reading::Found(b@),
    {
        wallet_answer(self.wallet_rpc.get_balance(response))
    }

    /// What this wallet holds, locked amounts with it.
    pub fn get_all_balance(&self, response: &JsonValue) -> (res: Option<
        Result<WalletBalance, WalletError>,
    >)
        ensures
            res is None <==> wallet_rpc::balance_in(*response, "balance"@) is Malformed,
            res matches Some(Err(err)) ==> wallet_data_missing(err) && wallet_rpc::balance_in(
                *response,
                "balance"@,
            ) is Missing,
            res matches Some(Ok(b)) ==> wallet_rpc::balance_in(*response, "balance"@)
                == Reading::Found(b@),
    {
        wallet_answer(self.wallet_rpc.get_all_balance(response))
    }

    /// The transfers of the subaddresses `acc_indices`: see
    /// `WalletRPC::get_transfers`.
    pub fn get_transfers(&self, acc_indices: &[u64], response: &JsonValue) -> (res: Option<
        Result<Vec<Transfers>, WalletError>,
    >)
        ensures
            res is None <==> (response.member("result"@) matches Some(result)
                && !wallet_rpc::transfers_readable(result)),
            res matches Some(Err(err)) ==> wallet_data_missing(err),
            res matches Some(answer) ==> (answer is Err <==> response.member("result"@) is None),
            res matches Some(Ok(list)) ==> wallet_rpc::all_views(list@)
                == wallet_rpc::sorted_transfers(
                acc_indices@,
                wallet_rpc::transfers_listed(
                    wallet_rpc::listed_under(response.member("result"@)->0, "in"@),
                ),
                wallet_rpc::transfers_listed(
                    wallet_rpc::listed_under(response.member("result"@)->0, "out"@),
                ),
            ),
    {
        wallet_answer(self.wallet_rpc.get_transfers(acc_indices, response))
    }

    /// The height of the chain.
    pub fn get_height(&self, response: &JsonValue) -> (res: Option<Result<u64, WalletError>>)
        ensures
            res is None <==> daemon_rpc::result_field(*response, "count"@) is None,
            res matches Some(Ok(n)) ==> daemon_rpc::result_field(*response, "count"@)->0.number()
                == Some(n),
            res matches Some(Err(err)) ==> daemon_data_missing(err) && daemon_rpc::result_field(
                *response,
                "count"@,
            )->0.number() is None,
    {
        daemon_answer(self.daemon_rpc.daemon_height(response))
    }

    /// What the network asks per byte.
    pub fn get_fee(&self, response: &JsonValue) -> (res: Option<Result<u64, WalletError>>)
        ensures
            res is None <==> daemon_rpc::result_field(*response, "fee"@) is None,
            res matches Some(Ok(n)) ==> daemon_rpc::result_field(*response, "fee"@)->0.number()
                == Some(n),
            res matches Some(Err(err)) ==> daemon_data_missing(err) && daemon_rpc::result_field(
                *response,
                "fee"@,
            )->0.number() is None,
    {
        daemon_answer(self.daemon_rpc.get_fee(response))
    }

    /// Whether the wallet took the daemon.
    pub fn set_daemon(&self, response: &JsonValue) -> (res: Result<(), WalletError>)
        ensures
            res is Ok <==> response.member("result"@) is Some,
            res matches Err(err) ==> (err matches WalletError::WalletRPC(e)
                && e is InvalidSetDaemonReq),
    {
        match self.wallet_rpc.set_daemon(response) {
            Ok(()) => Ok(()),
            Err(err) => Err(WalletError::from(err)),
        }
    }

    /// Whether the wallet took the refresh time.
    pub fn set_refresh_time(&self, response: &JsonValue) -> (res: Result<(), WalletError>)
        ensures
            res is Ok <==> response.member("result"@) is Some,
            res matches Err(err) ==> (err matches WalletError::WalletRPC(e)
                && e is InvalidSetRefreshReq),
    {
        match self.wallet_rpc.set_refresh_time(response) {
            Ok(()) => Ok(()),
            Err(err) => Err(WalletError::from(err)),
        }
    }

    /// The new subaddress and its number.
    pub fn create_address(&self, response: &JsonValue) -> (res: Option<
        Result<(Address, u64), WalletError>,
    >)
        ensures
            res is None <==> wallet_rpc::created_in(*response) is Malformed,
            res matches Some(Err(err)) ==> wallet_data_missing(err) && wallet_rpc::created_in(
                *response,
            ) is Missing,
            res matches Some(Ok(new)) ==> wallet_rpc::created_in(*response) == Reading::Found(
                (new.0@, new.1),
            ),
    {
        wallet_answer(self.wallet_rpc.create_address(response))
    }
}

/// An error says that something was missing in the answer of the one that was
/// asked, and of no other.
pub proof fn missing_data_is_told_apart(err: WalletError)
    ensures
        wallet_data_missing(err) ==> err is WalletRPC && !daemon_data_missing(err),
        daemon_data_missing(err) ==> err is DaemonRPC && !wallet_data_missing(err),
        err matches WalletError::WalletRPC(e) ==> (wallet_data_missing(err) <==> e is MissingData),
        err matches WalletError::DaemonRPC(e) ==> (daemon_data_missing(err) <==> e is MissingData),
{
}

} // verus!
