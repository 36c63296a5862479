//! Accounts and sessions.
use vstd::prelude::*;
use vstd::utf8::*;

use crate::bytes::same_digest;
use crate::denial::{deny, DenialFault, DenialResponse};
use crate::logging::{log_user, Event, Log, LogType, Priority};
use crate::money::FinancialInfo;
use crate::outside;
use crate::outside::chance::{random_alphanumeric, random_bytes};
use crate::outside::digest::blake3_hash;
use crate::outside::unicode::{is_alphanumeric, to_lowercase};
use crate::wallet::address::Address;

verus! {

/// The fewest bytes that a username may have.
pub const MIN_USER_LEN: usize = 4;

/// The most bytes that a username may have.
pub const MAX_USER_LEN: usize = 50;

/// What a user gives to register or to log in.
pub struct AuthRequest {
    pub username: String,
    pub password: String,
}

/// An account.
pub struct User {
    pub username: String,
    pub salt: [u8; 32],
    pub hashed_password: [u8; 32],
}

/// A session.
pub struct AuthCookie {
    pub username: String,
    pub cookie: String,
    /// Seconds since the Unix epoch.
    pub creation_time: u64,
    pub expiration_time: u64,
}

/// Why no session could be made. What the database and the encoder said is
/// kept as text.
pub enum GenAuthCookieErr {
    UserDoesntExist,
    DbErr(String),
    BincodeErr(String),
}

impl GenAuthCookieErr {
    /// The error as it is logged.
    pub open spec fn text(self) -> Seq<char> {
        match self {
            GenAuthCookieErr::UserDoesntExist => "UserDoesntExist"@,
            GenAuthCookieErr::DbErr(err) => "DbErr("@ + err@ + ")"@,
            GenAuthCookieErr::BincodeErr(err) => "BincodeErr("@ + err@ + ")"@,
        }
    }

    /// Writes the error as it is logged.
    pub fn to_text(&self) -> (res: String)
        ensures
            res@ == self.text(),
    {
        match self {
            GenAuthCookieErr::UserDoesntExist => "UserDoesntExist".to_owned(),
            GenAuthCookieErr::DbErr(err) => {
                let mut res: String = "DbErr(".to_owned();
                res.append(err.as_str());
                res.append(")");
                res
            },
            GenAuthCookieErr::BincodeErr(err) => {
                let mut res: String = "BincodeErr(".to_owned();
                res.append(err.as_str());
                res.append(")");
                res
            },
        }
    }
}

/// What a user gets who has registered or logged in.
pub struct AuthReqResponse {
    pub username: String,
    pub cookie: String,
    pub exp_time: u64,
}

/// Why a username is not taken.
#[derive(Clone, Copy, PartialEq, Eq, Structural)]
pub enum InvalidUserReason {
    UsernameLenIncorrect,
    NotAlphanumeric,
    ReservedUsername,
}

impl InvalidUserReason {
    /// The reason as users see it.
    pub open spec fn text(self) -> Seq<char> {
        match self {
            InvalidUserReason::UsernameLenIncorrect =>
                "The username given is too short! (Must be between 4 and 50 long"@,
            InvalidUserReason::NotAlphanumeric => "The username given is not alphanumeric"@,
            InvalidUserReason::ReservedUsername =>
                r#"The username given is one of the following reserved usernames: ["admin", "root", "sudo", "bootlegbilly", "susorodni", "billyb2", "billyb", "billy"]"#@,
        }
    }

    /// Writes the reason as users see it.
    pub fn to_text(&self) -> (res: String)
        ensures
            res@ == self.text(),
    {
        match self {
            InvalidUserReason::UsernameLenIncorrect =>
                "The username given is too short! (Must be between 4 and 50 long".to_owned(),
            InvalidUserReason::NotAlphanumeric =>
                "The username given is not alphanumeric".to_owned(),
            InvalidUserReason::ReservedUsername =>
                r#"The username given is one of the following reserved usernames: ["admin", "root", "sudo", "bootlegbilly", "susorodni", "billyb2", "billyb", "billy"]"#.to_owned(),
        }
    }
}

/// Whether no user may have this name.
pub open spec fn reserved(name: Seq<char>) -> bool {
    ||| name == "admin"@
    ||| name == "root"@
    ||| name == "sudo"@
    ||| name == "bootlegbilly"@
    ||| name == "susorodni"@
    ||| name == "billyb2"@
    ||| name == "billyb"@
    ||| name == "billy"@
}

/// Whether a name consists of letters and digits only.
pub open spec fn all_alphanumeric(name: Seq<char>) -> bool {
    forall|i: int|
        0 <= i < name.len() ==> outside::unicode::unicode_alphanumeric(#[trigger] name[i])
}

/// Why a username is not taken, if there is a reason.
pub open spec fn user_fault(username: Seq<char>) -> Option<InvalidUserReason> {
    if !(MIN_USER_LEN <= encode_utf8(username).len() <= MAX_USER_LEN) {
        Some(InvalidUserReason::UsernameLenIncorrect)
    } else if !all_alphanumeric(username) {
        Some(InvalidUserReason::NotAlphanumeric)
    } else if reserved(outside::unicode::lowercase(username)) {
        Some(InvalidUserReason::ReservedUsername)
    } else {
        None
    }
}

/// Whether every character is a letter or a digit.
fn is_all_alphanumeric(name: &str) -> (res: bool)
    ensures
        res == all_alphanumeric(name@),
{
    let len: usize = name.unicode_len();
    let mut i: usize = 0;
    while i < len
        invariant
            i <= len,
            len == name@.len(),
            forall|j: int|
                0 <= j < i ==> outside::unicode::unicode_alphanumeric(#[trigger] name@[j]),
        decreases len - i,
    {
        if !is_alphanumeric(name.get_char(i)) {
            return false;
        }
        i += 1;
    }
    true
}

/// Says why a username is not taken, if there is a reason.
pub fn invalid_user_reason(username: &str) -> (res: Option<InvalidUserReason>)
    ensures
        res == user_fault(username@),
{
    let len: usize = username.as_bytes().len();
    if len < MIN_USER_LEN || len > MAX_USER_LEN {
        return Some(InvalidUserReason::UsernameLenIncorrect);
    }
    if !is_all_alphanumeric(username) {
        return Some(InvalidUserReason::NotAlphanumeric);
    }
    let name: String = to_lowercase(username);
    if name == "admin".to_owned() || name == "root".to_owned() || name == "sudo".to_owned() || name
        == "bootlegbilly".to_owned() || name == "susorodni".to_owned() || name
        == "billyb2".to_owned() || name == "billyb".to_owned() || name == "billy".to_owned() {
        Some(InvalidUserReason::ReservedUsername)
    } else {
        None
    }
}

/// The digest of a password and a salt.
pub fn hash_password(password: &[u8], salt: &[u8; 32]) -> (res: [u8; 32])
    ensures
        res@ == outside::digest::blake3_digest(password@ + salt@),
{
    let mut bytes: Vec<u8> = Vec::new();
    bytes.extend_from_slice(password);
    bytes.extend_from_slice(salt.as_slice());
    assert(bytes@ =~= password@ + salt@);
    blake3_hash(bytes.as_slice())
}

/// Whether a password belongs to a digest. The digest itself is taken for the
/// salt.
pub fn verify_hash(password: &[u8], hash: &[u8; 32]) -> (res: bool)
    ensures
        res == (outside::digest::blake3_digest(password@ + hash@) == hash@),
{
    same_digest(&hash_password(password, hash), hash)
}

/// Whether `cookie` is the session in `stored`.
pub open spec fn cookie_valid(cookie: Seq<char>, stored: Option<AuthCookie>) -> bool {
    stored matches Some(auth_cookie) && auth_cookie.cookie@ == cookie
}

/// Compares a user's cookie with the one that is stored for them.
pub fn verify_auth_cookie(cookie: &String, stored: &Option<AuthCookie>) -> (res: bool)
    ensures
        res == cookie_valid(cookie@, *stored),
{
    match stored {
        Some(auth_cookie) => auth_cookie.cookie == *cookie,
        None => false,
    }
}

/// Whether a request comes from a user with a session.
pub open spec fn authorized(
    user_exists: bool,
    cookie: Seq<char>,
    stored: Option<AuthCookie>,
) -> bool {
    user_exists && cookie_valid(cookie, stored)
}

/// Decides whether a request comes from a user with a session.
pub fn is_authorized(user_exists: bool, cookie: &String, stored: &Option<AuthCookie>) -> (res: bool)
    ensures
        res == authorized(user_exists, cookie@, *stored),
{
    user_exists && verify_auth_cookie(cookie, stored)
}

/// Seconds that a session lasts: ninety days.
pub const NINETY_DAYS_AS_SECS: u64 = 7776000;

/// Characters of a cookie.
pub const COOKIE_LEN: usize = 50;

/// Whether a text can be a cookie: fifty letters and digits of ASCII.
pub open spec fn is_cookie(cookie: Seq<char>) -> bool {
    &&& cookie.len() == COOKIE_LEN
    &&& forall|i: int|
        0 <= i < cookie.len() ==> outside::chance::ascii_alphanumeric(#[trigger] cookie[i])
}

/// Draws a cookie.
fn random_cookie() -> (cookie: String)
    ensures
        is_cookie(cookie@),
{
    let mut cookie: String = String::new();
    let mut i: usize = 0;
    while i < COOKIE_LEN
        invariant
            i <= COOKIE_LEN,
            cookie@.len() == i,
            forall|j: int|
                0 <= j < i ==> outside::chance::ascii_alphanumeric(#[trigger] cookie@[j]),
        decreases COOKIE_LEN - i,
    {
        cookie.push(random_alphanumeric());
        i += 1;
    }
    cookie
}

/// The session of `username` with the given cookie, from `now` on.
pub fn auth_cookie_from(username: &String, cookie: String, now: u64) -> (res: AuthCookie)
    requires
        now + NINETY_DAYS_AS_SECS <= u64::MAX,
    ensures
        res.username@ == username@,
        res.cookie@ == cookie@,
        res.creation_time == now,
        res.expiration_time == now + NINETY_DAYS_AS_SECS,
        is_session(res, username@, cookie@, now),
{
    AuthCookie {
        username: username.clone(),
        cookie,
        creation_time: now,
        expiration_time: now + NINETY_DAYS_AS_SECS,
    }
}

/// Makes a session for a user, from `now` on, with a cookie drawn by chance.
pub fn generate_auth_cookie(username: &String, user_exists: bool, now: u64) -> (res: Result<
    AuthCookie,
    GenAuthCookieErr,
>)
    requires
        user_exists ==> now + NINETY_DAYS_AS_SECS <= u64::MAX,
    ensures
        res is Ok <==> user_exists,
        res matches Ok(auth_cookie) ==> {
            &&& auth_cookie.username@ == username@
            &&& is_cookie(auth_cookie.cookie@)
            &&& auth_cookie.creation_time == now
            &&& auth_cookie.expiration_time == now + NINETY_DAYS_AS_SECS
        },
        res matches Err(err) ==> err is UserDoesntExist,
        res matches Ok(auth_cookie) ==> is_session(
            auth_cookie,
            username@,
            auth_cookie.cookie@,
            now,
        ),
{
    if user_exists {
        Ok(auth_cookie_from(username, random_cookie(), now))
    } else {
        Err(GenAuthCookieErr::UserDoesntExist)
    }
}

/// Whether a session has ended.
pub open spec fn expired(auth_cookie: AuthCookie, now: u64) -> bool {
    now > auth_cookie.expiration_time
}

/// The names of those whose sessions have ended, in their order.
pub open spec fn expired_names(sessions: Seq<AuthCookie>, now: u64) -> Seq<Seq<char>>
    decreases sessions.len(),
{
    if sessions.len() == 0 {
        seq![]
    } else {
        let before = expired_names(sessions.drop_last(), now);
        if expired(sessions.last(), now) {
            before.push(sessions.last().username@)
        } else {
            before
        }
    }
}

/// Finds the sessions that have ended, which are to be removed: the names of
/// their users.
pub fn destroy_expired_auth_cookies(sessions: &Vec<AuthCookie>, now: u64) -> (res: Vec<String>)
    ensures
        res@.map_values(|name: String| name@) == expired_names(sessions@, now),
{
    let mut res: Vec<String> = Vec::new();
    let mut i: usize = 0;
    while i < sessions.len()
        invariant
            i <= sessions@.len(),
            res@.map_values(|name: String| name@) =~= expired_names(
                sessions@.take(i as int),
                now,
            ),
        decreases sessions@.len() - i,
    {
        let ghost before = res@;
        assert(sessions@.take(i + 1).drop_last() =~= sessions@.take(i as int));
        if now > sessions[i].expiration_time {
            let name: String = sessions[i].username.clone();
            res.push(name);
            assert(res@.map_values(|name: String| name@) =~= before.map_values(
                |name: String| name@,
            ).push(name@));
        }
        i += 1;
    }
    assert(sessions@.take(sessions@.len() as int) =~= sessions@);
    res
}

/// Seconds between two looks for sessions that have ended.
pub const SWEEP_WAIT_SECS: u64 = 1;

/// Whether no user has two sessions.
pub open spec fn one_session_each(sessions: Seq<AuthCookie>) -> bool {
    forall|i: int, j: int|
        0 <= i < j < sessions.len() ==> (#[trigger] sessions[i]).username@ != (
        #[trigger] sessions[j]).username@
}

/// The sessions that are left once those of the given users are removed.
pub open spec fn without(sessions: Seq<AuthCookie>, names: Seq<Seq<char>>) -> Seq<AuthCookie> {
    sessions.filter(|session: AuthCookie| !names.contains(session.username@))
}

/// Removing the sessions of the users that are found leaves exactly the
/// sessions that have not ended, in their order.
pub proof fn sweep_leaves_the_rest(sessions: Seq<AuthCookie>, now: u64)
    requires
        one_session_each(sessions),
    ensures
        without(sessions, expired_names(sessions, now)) == sessions.filter(
            |session: AuthCookie| !expired(session, now),
        ),
{
    let names = expired_names(sessions, now);
    assert forall|i: int| 0 <= i < sessions.len() implies names.contains(
        (#[trigger] sessions[i]).username@,
    ) == expired(sessions[i], now) by {
        lemma_expired_names(sessions, now, sessions[i].username@);
        if names.contains(sessions[i].username@) {
            let j = choose|j: int|
                0 <= j < sessions.len() && expired(#[trigger] sessions[j], now)
                    && sessions[j].username@ == sessions[i].username@;
            if j < i {
                assert(sessions[j].username@ != sessions[i].username@);
            } else if i < j {
                assert(sessions[i].username@ != sessions[j].username@);
            }
        }
    }
    lemma_same_filter(
        sessions,
        |session: AuthCookie| !names.contains(session.username@),
        |session: AuthCookie| !expired(session, now),
    );
}

proof fn lemma_expired_names(sessions: Seq<AuthCookie>, now: u64, name: Seq<char>)
    ensures
        expired_names(sessions, now).contains(name) <==> exists|j: int|
            0 <= j < sessions.len() && expired(#[trigger] sessions[j], now)
                && sessions[j].username@ == name,
    decreases sessions.len(),
{
    if sessions.len() > 0 {
        let shorter = sessions.drop_last();
        let last = sessions.last();
        let before = expired_names(shorter, now);
        let after = expired_names(sessions, now);
        lemma_expired_names(shorter, now, name);
        if after.contains(name) {
            let k = choose|k: int| 0 <= k < after.len() && after[k] == name;
            if k < before.len() {
                assert(before[k] == name);
                let j = choose|j: int|
                    0 <= j < shorter.len() && expired(#[trigger] shorter[j], now)
                        && shorter[j].username@ == name;
                assert(sessions[j] == shorter[j]);
            } else {
                assert(expired(sessions[sessions.len() - 1], now));
            }
        }
        if exists|j: int|
            0 <= j < sessions.len() && expired(#[trigger] sessions[j], now)
                && sessions[j].username@ == name {
            let j = choose|j: int|
                0 <= j < sessions.len() && expired(#[trigger] sessions[j], now)
                    && sessions[j].username@ == name;
            if j < shorter.len() {
                assert(shorter[j] == sessions[j]);
                let k = choose|k: int| 0 <= k < before.len() && before[k] == name;
                assert(after[k] == name);
            } else {
                assert(after[after.len() - 1] == name);
            }
        }
    }
}

proof fn lemma_same_filter(
    sessions: Seq<AuthCookie>,
    f: spec_fn(AuthCookie) -> bool,
    g: spec_fn(AuthCookie) -> bool,
)
    requires
        forall|i: int| 0 <= i < sessions.len() ==> f(#[trigger] sessions[i]) == g(sessions[i]),
    ensures
        sessions.filter(f) == sessions.filter(g),
    decreases sessions.len(),
{
    reveal(Seq::filter);
    if sessions.len() > 0 {
        let shorter = sessions.drop_last();
        assert forall|i: int| 0 <= i < shorter.len() implies f(#[trigger] shorter[i]) == g(
            shorter[i],
        ) by {
            assert(shorter[i] == sessions[i]);
        }
        lemma_same_filter(shorter, f, g);
        assert(sessions[sessions.len() - 1] == sessions.last());
    }
}

/// A session lasts for ninety days to the second and ends after them, and
/// while it is stored its cookie, and no other, is taken.
pub proof fn session_lasts(session: AuthCookie, start: u64, now: u64, cookie: Seq<char>)
    requires
        session.creation_time == start,
        session.expiration_time == start + NINETY_DAYS_AS_SECS,
    ensures
        expired(session, now) <==> now - start > NINETY_DAYS_AS_SECS,
        cookie_valid(cookie, Some(session)) <==> cookie == session.cookie@,
        !cookie_valid(cookie, None),
{
}

/// A refusal together with what is logged about it.
pub struct Refusal {
    pub log: Log,
    pub response: DenialResponse,
}

/// The name that an account goes by: the one that was given, in lower case.
pub fn account_name(user_info: &AuthRequest) -> (res: String)
    ensures
        res@ == outside::unicode::lowercase(user_info.username@),
{
    to_lowercase(user_info.username.as_str())
}

/// Refuses a registration and logs why.
fn refuse_registration(
    username: &String,
    ip: &String,
    status: u16,
    reason: &str,
    now: u64,
) -> (res: Refusal)
    ensures
        res.response.says(status, DenialFault::User, reason@, ""@),
        res.log.tells(
            username@,
            ip@,
            Event::Registration { success: false },
            LogType::Auth,
            reason@,
            Priority::Low,
            now,
        ),
{
    Refusal {
        log: log_user(
            username,
            ip,
            Event::Registration { success: false },
            LogType::Auth,
            reason,
            Priority::Low,
            now,
        ),
        response: deny(status, DenialFault::User, reason, ""),
    }
}

/// Decides whether an account can be opened. `username` is the account's name
/// and `registered` whether there is such an account already.
pub fn register(username: &String, registered: bool, ip: &String, now: u64) -> (res: Result<
    (),
    Refusal,
>)
    ensures
        res is Ok <==> !registered && user_fault(username@) is None,
        res matches Err(refusal) ==> {
            let status: u16 = if registered {
                409
            } else {
                400
            };
            let reason = if registered {
                "Username already registered"@
            } else {
                user_fault(username@)->0.text()
            };
            &&& refusal.response.says(status, DenialFault::User, reason, ""@)
            &&& refusal.log.tells(
                username@,
                ip@,
                Event::Registration { success: false },
                LogType::Auth,
                reason,
                Priority::Low,
                now,
            )
        },
        res is Ok <==> may_register(username@, registered),
{
    if registered {
        return Err(refuse_registration(username, ip, 409, "Username already registered", now));
    }
    match invalid_user_reason(username.as_str()) {
        Some(reason) => Err(
            refuse_registration(username, ip, 400, reason.to_text().as_str(), now),
        ),
        None => Ok(()),
    }
}

/// A new account: the user and their money, to be stored under the name.
pub struct NewAccount {
    pub user: User,
    pub financial_info: FinancialInfo,
}

/// Whether `user` has the password, hashed with their salt.
pub open spec fn has_password(user: User, password: Seq<char>) -> bool {
    user.hashed_password@ == outside::digest::blake3_digest(encode_utf8(password) + user.salt@)
}

/// Whether an account is new, under the given name and subaddress.
pub open spec fn is_new_account(
    account: NewAccount,
    username: Seq<char>,
    password: Seq<char>,
    address: Address,
    addr_index: u64,
) -> bool {
    &&& account.user.username@ == username
    &&& has_password(account.user, password)
    &&& account.financial_info.deposit_addr == address
    &&& account.financial_info.transfers.addr_index == addr_index
    &&& account.financial_info.transfers.transfers_in@.len() == 0
    &&& account.financial_info.transfers.transfers_out@.len() == 0
    &&& account.financial_info.xmr_addr is None
    &&& account.financial_info.balance == 0
    &&& account.financial_info.pending_balance == 0
    &&& account.financial_info.active_fundraisers@.len() == 0
    &&& account.financial_info.old_fundraisers@.len() == 0
    &&& account.financial_info.service_fee_total == 0
}

/// Whether a registration is refused because the wallet gave no subaddress.
pub open spec fn says_no_address(
    refusal: Refusal,
    username: Seq<char>,
    err: Seq<char>,
    ip: Seq<char>,
    now: u64,
) -> bool {
    &&& refusal.response.says(
        500,
        DenialFault::Server,
        "Internal Server Error"@,
        "Error creating financial account due to "@ + err,
    )
    &&& refusal.log.tells(
        username,
        ip,
        Event::Registration { success: false },
        LogType::Auth,
        "Internal Server Error"@,
        Priority::High,
        now,
    )
}

/// Opens an account with the given salt. `created` is the subaddress that the
/// wallet made for it, or what the wallet said instead.
pub fn open_account_with(
    username: &String,
    password: &String,
    salt: [u8; 32],
    created: Result<(Address, u64), String>,
    ip: &String,
    now: u64,
) -> (res: Result<NewAccount, Refusal>)
    ensures
        res is Ok <==> created is Ok,
        res matches Ok(account) ==> account.user.salt@ == salt@ && is_new_account(
            account,
            username@,
            password@,
            created->Ok_0.0,
            created->Ok_0.1,
        ),
        res matches Err(refusal) ==> says_no_address(
            refusal,
            username@,
            created->Err_0@,
            ip@,
            now,
        ),
{
    match created {
        Ok((addr, addr_index)) => {
            let hashed_password: [u8; 32] = hash_password(password.as_str().as_bytes(), &salt);
            Ok(
                NewAccount {
                    user: User { username: username.clone(), salt, hashed_password },
                    financial_info: FinancialInfo::new(addr_index, addr),
                },
            )
        },
        Err(err) => {
            let mut info: String = "Error creating financial account due to ".to_owned();
            info.append(err.as_str());
            Err(
                Refusal {
                    log: log_user(
                        username,
                        ip,
                        Event::Registration { success: false },
                        LogType::Auth,
                        "Internal Server Error",
                        Priority::High,
                        now,
                    ),
                    response: deny(
                        500,
                        DenialFault::Server,
                        "Internal Server Error",
                        info.as_str(),
                    ),
                },
            )
        },
    }
}

/// Opens an account with a salt drawn by chance.
pub fn open_account(
    username: &String,
    password: &String,
    created: Result<(Address, u64), String>,
    ip: &String,
    now: u64,
) -> (res: Result<NewAccount, Refusal>)
    ensures
        res is Ok <==> created is Ok,
        res matches Ok(account) ==> is_new_account(
            account,
            username@,
            password@,
            created->Ok_0.0,
            created->Ok_0.1,
        ),
        res matches Err(refusal) ==> says_no_address(
            refusal,
            username@,
            created->Err_0@,
            ip@,
            now,
        ),
{
    open_account_with(username, password, random_bytes(), created, ip, now)
}

/// Whether a password is taken for the account `user`.
pub open spec fn login_granted(user: Option<User>, password: Seq<char>) -> bool {
    user matches Some(user) && outside::digest::blake3_digest(
        encode_utf8(password) + user.hashed_password@,
    ) == user.hashed_password@
}

/// When the owner of a new account can log in: exactly where hashing their
/// password with the stored digest for the salt gives that digest again.
pub proof fn login_after_registration(user: User, password: Seq<char>)
    requires
        has_password(user, password),
    ensures
        login_granted(Some(user), password) <==> outside::digest::blake3_digest(
            encode_utf8(password) + outside::digest::blake3_digest(
                encode_utf8(password) + user.salt@,
            ),
        ) == outside::digest::blake3_digest(encode_utf8(password) + user.salt@),
{
}

/// Decides whether a user may log in. `username` is the account's name and
/// `user` the account that is stored under it.
pub fn login(
    username: &String,
    password: &String,
    user: &Option<User>,
    ip: &String,
    now: u64,
) -> (res: Result<(), Refusal>)
    ensures
        res is Ok <==> login_granted(*user, password@),
        res matches Err(refusal) ==> {
            &&& refusal.response.says(
                401,
                DenialFault::User,
                "Wrong username or password"@,
                ""@,
            )
            &&& refusal.log.tells(
                username@,
                ip@,
                Event::Login { success: false },
                LogType::Auth,
                "Wrong username or password"@,
                Priority::Low,
                now,
            )
        },
{
    let granted: bool = match user {
        Some(user) => verify_hash(password.as_str().as_bytes(), &user.hashed_password),
        None => false,
    };
    if granted {
        return Ok(());
    }
    Err(
        Refusal {
            log: log_user(
                username,
                ip,
                Event::Login { success: false },
                LogType::Auth,
                "Wrong username or password",
                Priority::Low,
                now,
            ),
            response: deny(401, DenialFault::User, "Wrong username or password", ""),
        },
    )
}

/// The event that is logged when a session was made or could not be made.
pub open spec fn session_event(
    auth_cookie: Result<AuthCookie, GenAuthCookieErr>,
    login: bool,
) -> Event {
    match auth_cookie {
        Ok(_) => if login {
            Event::Login { success: true }
        } else {
            Event::Registration { success: true }
        },
        Err(GenAuthCookieErr::UserDoesntExist) => if login {
            Event::Login { success: false }
        } else {
            Event::Registration { success: false }
        },
        Err(_) => Event::ServerError,
    }
}

/// What is logged, and what the user is told.
pub struct SessionReply {
    pub log: Log,
    pub response: Result<AuthReqResponse, DenialResponse>,
}

/// Answers a user for whom a session was made, or could not be made, after
/// they logged in (`login`) or registered. Whatever the error, the user is
/// told of an internal one; the log has its text.
pub fn auth_cookie_result_to_response(
    username: String,
    auth_cookie: Result<AuthCookie, GenAuthCookieErr>,
    ip: &String,
    login: bool,
    now: u64,
) -> (res: SessionReply)
    ensures
        res.log.tells(
            username@,
            ip@,
            session_event(auth_cookie, login),
            LogType::Auth,
            match auth_cookie {
                Ok(_) => ""@,
                Err(err) => err.text(),
            },
            Priority::Low,
            now,
        ),
        res.response is Ok <==> auth_cookie is Ok,
        res.response matches Ok(resp) ==> {
            &&& resp.username@ == username@
            &&& resp.cookie@ == auth_cookie->Ok_0.cookie@
            &&& resp.exp_time == auth_cookie->Ok_0.expiration_time
        },
        res.response matches Err(denial) ==> denial.says(
            500,
            DenialFault::Server,
            "Internal Server Error"@,
            ""@,
        ),
{
    match auth_cookie {
        Ok(auth_cookie) => {
            let event = if login {
                Event::Login { success: true }
            } else {
                Event::Registration { success: true }
            };
            SessionReply {
                log: log_user(&username, ip, event, LogType::Auth, "", Priority::Low, now),
                response: Ok(
                    AuthReqResponse {
                        username,
                        cookie: auth_cookie.cookie,
                        exp_time: auth_cookie.expiration_time,
                    },
                ),
            }
        },
        Err(err) => {
            let event = match &err {
                GenAuthCookieErr::UserDoesntExist => if login {
                    Event::Login { success: false }
                } else {
                    Event::Registration { success: false }
                },
                GenAuthCookieErr::DbErr(_) => Event::ServerError,
                GenAuthCookieErr::BincodeErr(_) => Event::ServerError,
            };
            let reason: String = err.to_text();
            SessionReply {
                log: log_user(
                    &username,
                    ip,
                    event,
                    LogType::Auth,
                    reason.as_str(),
                    Priority::Low,
                    now,
                ),
                response: Err(deny(500, DenialFault::Server, "Internal Server Error", "")),
            }
        },
    }
}

/// Who may use a name: it has from 4 to 50 bytes, all its characters are
/// letters or digits, and in lower case it is none of the reserved names. The
/// first of these that fails is the reason why it is not taken.
pub proof fn names_that_are_taken(name: Seq<char>)
    ensures
        ({
            let lower = outside::unicode::lowercase(name);
            let long_enough = 4 <= encode_utf8(name).len() <= 50;
            let plain = forall|i: int|
                0 <= i < name.len() ==> outside::unicode::unicode_alphanumeric(#[trigger] name[i]);
            let free = lower != "admin"@ && lower != "root"@ && lower != "sudo"@ && lower
                != "bootlegbilly"@ && lower != "susorodni"@ && lower != "billyb2"@ && lower
                != "billyb"@ && lower != "billy"@;
            &&& user_fault(name) is None <==> long_enough && plain && free
            &&& !long_enough <==> user_fault(name) == Some(InvalidUserReason::UsernameLenIncorrect)
            &&& long_enough && !plain <==> user_fault(name) == Some(
                InvalidUserReason::NotAlphanumeric,
            )
            &&& long_enough && plain && !free <==> user_fault(name) == Some(
                InvalidUserReason::ReservedUsername,
            )
        }),
{
}

/// A request comes from a user with a session where there is an account, and
/// the cookie is just the one that is stored, whoever it was made for and
/// whenever.
pub proof fn stored_cookies_decide(
    user_exists: bool,
    cookie: Seq<char>,
    stored: Option<AuthCookie>,
)
    ensures
        authorized(user_exists, cookie, stored) <==> user_exists && stored is Some && cookie
            == stored->0.cookie@,
        cookie_valid(cookie, stored) <==> stored is Some && cookie == stored->0.cookie@,
{
}

/// A session lasts for ninety days, and ends only after its last second.
pub proof fn sessions_last_ninety_days(session: AuthCookie, now: u64)
    ensures
        NINETY_DAYS_AS_SECS == 90 * 24 * 60 * 60,
        expired(session, now) <==> now > session.expiration_time,
{
}

/// The ended sessions of two lists are those of the first and then those of the
/// second, and each is named by its user.
pub proof fn ended_sessions_add_up(
    a: Seq<AuthCookie>,
    b: Seq<AuthCookie>,
    session: AuthCookie,
    now: u64,
)
    ensures
        expired_names(a + b, now) == expired_names(a, now) + expired_names(b, now),
        expired_names(seq![session], now) == if now > session.expiration_time {
            seq![session.username@]
        } else {
            seq![]
        },
    decreases b.len(),
{
    reveal_with_fuel(expired_names, 2);
    if now > session.expiration_time {
        assert(expired_names(seq![session], now) =~= seq![session.username@]);
    }
    if b.len() == 0 {
        assert(a + b =~= a);
        assert(expired_names(a, now) + expired_names(b, now) =~= expired_names(a, now));
    } else {
        ended_sessions_add_up(a, b.drop_last(), session, now);
        assert((a + b).drop_last() =~= a + b.drop_last());
        assert(expired_names(a + b, now) =~= expired_names(a, now) + expired_names(b, now));
    }
}

/// The server looks for ended sessions once a second.
pub proof fn sweeps_come_every_second()
    ensures
        SWEEP_WAIT_SECS == 1,
{
}

/// A cookie has fifty characters, each of them a letter or a digit of ASCII.
pub proof fn cookies_have_fifty_characters(cookie: Seq<char>)
    ensures
        is_cookie(cookie) <==> {
            &&& cookie.len() == 50
            &&& forall|i: int|
                0 <= i < cookie.len() ==> ('0' <= #[trigger] cookie[i] <= '9' || 'A' <= cookie[i]
                    <= 'Z' || 'a' <= cookie[i] <= 'z')
        },
{
    if is_cookie(cookie) {
        assert forall|i: int| 0 <= i < cookie.len() implies ('0' <= #[trigger] cookie[i] <= '9'
            || 'A' <= cookie[i] <= 'Z' || 'a' <= cookie[i] <= 'z') by {
            assert(outside::chance::ascii_alphanumeric(cookie[i]));
        }
    }
}

/// A new account is empty and can be used at once: nothing has come in, nothing
/// was taken, and deposits are expected at the address that was made for it.
pub proof fn new_accounts_are_empty(
    account: NewAccount,
    username: Seq<char>,
    password: Seq<char>,
    address: Address,
    addr_index: u64,
)
    ensures
        is_new_account(account, username, password, address, addr_index) ==> {
            let info = account.financial_info;
            &&& account.user.username@ == username
            &&& account.user.hashed_password@ == outside::digest::blake3_digest(
                encode_utf8(password) + account.user.salt@,
            )
            &&& info.deposit_addr == address
            &&& info.transfers.addr_index == addr_index
            &&& info.xmr_addr is None
            &&& info.balance_known()
            &&& info.spendable() == 0
            &&& info.balance == 0
            &&& info.pending_balance == 0
            &&& info.service_fee_total == 0
            &&& info.active_fundraisers@.len() == 0
            &&& info.old_fundraisers@.len() == 0
            &&& info.transfers.transfers_in@.len() == 0
            &&& info.transfers.transfers_out@.len() == 0
        },
{
}

/// Logging in depends on the password and on the digest that is stored, and on
/// nothing else of the account; without an account nobody can log in.
pub proof fn stored_digests_decide(a: User, b: User, password: Seq<char>)
    ensures
        !login_granted(None, password),
        login_granted(Some(a), password) <==> outside::digest::blake3_digest(
            encode_utf8(password) + a.hashed_password@,
        ) == a.hashed_password@,
        a.hashed_password@ == b.hashed_password@ ==> (login_granted(Some(a), password)
            <==> login_granted(Some(b), password)),
        has_password(a, password) <==> outside::digest::blake3_digest(
            encode_utf8(password) + a.salt@,
        ) == a.hashed_password@,
{
}

/// A session that was made is logged as a success, and one that could not be
/// made because there is no such user as a failure, each of the login or of the
/// registration that it was made for; any other fault is the server's.
pub proof fn sessions_are_logged(
    auth_cookie: Result<AuthCookie, GenAuthCookieErr>,
    login: bool,
)
    ensures
        login && auth_cookie is Ok ==> session_event(auth_cookie, login) == (Event::Login {
            success: true,
        }),
        !login && auth_cookie is Ok ==> session_event(auth_cookie, login) == (
        Event::Registration { success: true }),
        auth_cookie matches Err(err) ==> {
            &&& login && err is UserDoesntExist ==> session_event(auth_cookie, login) == (
            Event::Login { success: false })
            &&& !login && err is UserDoesntExist ==> session_event(auth_cookie, login) == (
            Event::Registration { success: false })
            &&& err !is UserDoesntExist ==> session_event(auth_cookie, login) == Event::ServerError
        },
{
}

/// What the database or the encoder said is logged as it is.
pub proof fn faults_are_logged_as_they_are(said: String)
    ensures
        GenAuthCookieErr::UserDoesntExist.text() == "UserDoesntExist"@,
        GenAuthCookieErr::DbErr(said).text() == "DbErr("@ + said@ + ")"@,
        GenAuthCookieErr::BincodeErr(said).text() == "BincodeErr("@ + said@ + ")"@,
{
}

/// Each reason why a name is not taken is told in its own words.
pub proof fn reasons_are_told()
    ensures
        InvalidUserReason::UsernameLenIncorrect.text()
            == "The username given is too short! (Must be between 4 and 50 long"@,
        InvalidUserReason::NotAlphanumeric.text() == "The username given is not alphanumeric"@,
        InvalidUserReason::ReservedUsername.text()
            == r#"The username given is one of the following reserved usernames: ["admin", "root", "sudo", "bootlegbilly", "susorodni", "billyb2", "billyb", "billy"]"#@,
{
}

/// A registration for which the wallet gave no subaddress is refused as the
/// server's fault, with what the wallet said, and logged as a failure of high
/// priority.
pub proof fn missing_subaddresses_are_told(
    refusal: Refusal,
    username: Seq<char>,
    err: Seq<char>,
    ip: Seq<char>,
    now: u64,
)
    requires
        says_no_address(refusal, username, err, ip, now),
    ensures
        refusal.response.status == 500,
        refusal.response.denial.fault@ == "Server"@,
        refusal.response.denial.reason@ == "Internal Server Error"@,
        refusal.response.denial.additional_info@ == "Error creating financial account due to "@
            + err,
        refusal.log.username is Some && refusal.log.username->0@ == username,
        refusal.log.event == (Event::Registration { success: false }),
        refusal.log.priority == Priority::High,
        refusal.log.log_type == LogType::Auth,
        refusal.log.ip@ == ip && refusal.log.time == now,
        refusal.log.reason@ == "Internal Server Error"@,
{
}

/// Whether this is the session of a user with the cookie, from `now` on.
pub open spec fn is_session(
    session: AuthCookie,
    username: Seq<char>,
    cookie: Seq<char>,
    now: u64,
) -> bool {
    &&& session.username@ == username
    &&& session.cookie@ == cookie
    &&& session.creation_time == now
    &&& session.expiration_time == now + NINETY_DAYS_AS_SECS
}

/// A session belongs to its user and their cookie. It is good from the moment
/// at which it was made to the last second of the ninetieth day, and ends then.
pub proof fn sessions_begin_at_once(
    session: AuthCookie,
    username: Seq<char>,
    cookie: Seq<char>,
    now: u64,
    later: u64,
)
    requires
        is_session(session, username, cookie, now),
        later >= now,
    ensures
        session.username@ == username,
        session.creation_time == now,
        authorized(true, cookie, Some(session)),
        later - now <= 7_776_000 ==> !expired(session, later),
        later - now > 7_776_000 ==> expired(session, later),
{
}

/// Whether an account may be opened under a name.
pub open spec fn may_register(username: Seq<char>, registered: bool) -> bool {
    !registered && user_fault(username) is None
}

/// An account may be opened under every name that there is no reason against
/// and that nobody has yet.
pub proof fn free_names_can_be_registered(name: Seq<char>)
    ensures
        !may_register(name, true),
        may_register(name, false) <==> {
            let lower = outside::unicode::lowercase(name);
            &&& 4 <= encode_utf8(name).len() <= 50
            &&& forall|i: int|
                0 <= i < name.len() ==> outside::unicode::unicode_alphanumeric(#[trigger] name[i])
            &&& lower != "admin"@ && lower != "root"@ && lower != "sudo"@
            &&& lower != "bootlegbilly"@ && lower != "susorodni"@
            &&& lower != "billyb2"@ && lower != "billyb"@ && lower != "billy"@
        },
{
    names_that_are_taken(name);
}

} // verus!
