use coinstribute::auth::{
    account_name, auth_cookie_from, auth_cookie_result_to_response, destroy_expired_auth_cookies,
    generate_auth_cookie, hash_password, invalid_user_reason, is_authorized, login, open_account,
    open_account_with, register, verify_auth_cookie, verify_hash, AuthCookie, AuthRequest,
    GenAuthCookieErr, InvalidUserReason, User, SWEEP_WAIT_SECS,
};
use coinstribute::logging::{Event, LogType, Priority};
use coinstribute::wallet::address::{Address, AddressReading};

const SUB: &str = "8AW7SotwFrqfAKnibspuuhfowW4g3asvpQvdrTmPcpNr2GmXPtBBSxUPZQATAt8Vw2hiX9GDyxB4tMNgHjwt8qYsCeFDVvn";

fn address() -> Address {
    match Address::read(SUB) {
        AddressReading::Found(address) => address,
        _ => panic!("no address"),
    }
}

fn s(text: &str) -> String {
    text.to_string()
}

#[test]
fn names_must_be_of_some_length() {
    let reason = |name: &str| invalid_user_reason(name);
    assert!(reason("abc") == Some(InvalidUserReason::UsernameLenIncorrect));
    assert!(reason("abcd").is_none());
    assert!(reason(&"a".repeat(50)).is_none());
    assert!(reason(&"a".repeat(51)) == Some(InvalidUserReason::UsernameLenIncorrect));
    // Bytes are counted, not characters.
    assert!(reason("éé").is_none());
    assert_eq!(
        InvalidUserReason::UsernameLenIncorrect.to_text(),
        "The username given is too short! (Must be between 4 and 50 long"
    );
}

#[test]
fn names_must_be_letters_and_digits() {
    assert!(invalid_user_reason("ab cd") == Some(InvalidUserReason::NotAlphanumeric));
    assert!(invalid_user_reason("user_1") == Some(InvalidUserReason::NotAlphanumeric));
    assert!(invalid_user_reason("user1").is_none());
    assert_eq!(
        InvalidUserReason::NotAlphanumeric.to_text(),
        "The username given is not alphanumeric"
    );
}

#[test]
fn some_names_are_reserved() {
    for name in
        ["admin", "root", "sudo", "bootlegbilly", "susorodni", "billyb2", "billyb", "billy", "AdMiN"]
    {
        assert!(invalid_user_reason(name) == Some(InvalidUserReason::ReservedUsername));
    }
    assert!(invalid_user_reason("billyc").is_none());
    let list =
        ["admin", "root", "sudo", "bootlegbilly", "susorodni", "billyb2", "billyb", "billy"];
    assert_eq!(
        InvalidUserReason::ReservedUsername.to_text(),
        format!("The username given is one of the following reserved usernames: {:?}", list)
    );
}

#[test]
fn accounts_go_by_lower_case_names() {
    let req = AuthRequest { username: s("AlIcE"), password: s("pw") };
    assert_eq!(account_name(&req), "alice");
}

#[test]
fn passwords_are_hashed_with_their_salt() {
    let salt = [9u8; 32];
    let mut bytes = b"secret".to_vec();
    bytes.extend_from_slice(&salt);
    assert_eq!(hash_password(b"secret", &salt), *blake3::hash(&bytes).as_bytes());
    assert_ne!(hash_password(b"secret", &[8; 32]), hash_password(b"secret", &salt));
}

#[test]
fn a_digest_is_its_own_salt_when_it_is_verified() {
    let hash = hash_password(b"secret", &[9; 32]);
    let again = hash_password(b"secret", &hash);
    assert_eq!(verify_hash(b"secret", &hash), again == hash);
    assert!(!verify_hash(b"other", &hash));
}

#[test]
fn registration_is_refused_for_a_taken_name() {
    let refusal = register(&s("alice"), true, &s("1.2.3.4"), 77).err().unwrap();
    assert_eq!(refusal.response.status, 409);
    assert_eq!(refusal.response.denial.fault, "User");
    assert_eq!(refusal.response.denial.reason, "Username already registered");
    assert_eq!(refusal.response.denial.additional_info, "");
    assert_eq!(refusal.log.username, Some(s("alice")));
    assert_eq!(refusal.log.ip, "1.2.3.4");
    assert_eq!(refusal.log.time, 77);
    assert_eq!(refusal.log.reason, "Username already registered");
    assert!(matches!(refusal.log.event, Event::Registration { success: false }));
    assert_eq!(refusal.log.log_type, LogType::Auth);
    assert_eq!(refusal.log.priority, Priority::Low);
}

#[test]
fn registration_is_refused_for_an_invalid_name() {
    let refusal = register(&s("a b"), false, &s("ip"), 1).err().unwrap();
    assert_eq!(refusal.response.status, 400);
    assert_eq!(
        refusal.response.denial.reason,
        "The username given is too short! (Must be between 4 and 50 long"
    );
    assert_eq!(refusal.log.reason, refusal.response.denial.reason);
    assert!(register(&s("alice"), false, &s("ip"), 1).is_ok());
}

#[test]
fn a_new_account_has_nothing_yet() {
    let created = Ok((address(), 12));
    let account =
        open_account_with(&s("alice"), &s("secret"), [3; 32], created, &s("ip"), 5).ok().unwrap();
    assert_eq!(account.user.username, "alice");
    assert_eq!(account.user.salt, [3; 32]);
    assert_eq!(account.user.hashed_password, hash_password(b"secret", &[3; 32]));
    assert_eq!(account.financial_info.deposit_addr.to_text(), SUB);
    assert_eq!(account.financial_info.transfers.addr_index, 12);
    assert!(account.financial_info.xmr_addr.is_none());
    assert_eq!(account.financial_info.get_balance(), 0);
}

#[test]
fn salts_are_drawn_by_chance() {
    let open = || {
        open_account(&s("alice"), &s("secret"), Ok((address(), 1)), &s("ip"), 5).ok().unwrap()
    };
    let (a, b) = (open(), open());
    assert_ne!(a.user.salt, b.user.salt);
    assert_eq!(a.user.hashed_password, hash_password(b"secret", &a.user.salt));
}

#[test]
fn no_account_without_a_subaddress() {
    let refusal =
        open_account(&s("alice"), &s("secret"), Err(s("MissingData")), &s("ip"), 5).err().unwrap();
    assert_eq!(refusal.response.status, 500);
    assert_eq!(refusal.response.denial.fault, "Server");
    assert_eq!(refusal.response.denial.reason, "Internal Server Error");
    assert_eq!(
        refusal.response.denial.additional_info,
        "Error creating financial account due to MissingData"
    );
    assert_eq!(refusal.log.priority, Priority::High);
    assert_eq!(refusal.log.reason, "Internal Server Error");
}

fn user_with(hash: [u8; 32]) -> User {
    User { username: s("alice"), salt: [0; 32], hashed_password: hash }
}

#[test]
fn login_is_refused_for_unknown_users_and_wrong_passwords() {
    let wrong = Some(user_with([1; 32]));
    for user in [&None, &wrong] {
        let refusal = login(&s("alice"), &s("secret"), user, &s("ip"), 9).err().unwrap();
        assert_eq!(refusal.response.status, 401);
        assert_eq!(refusal.response.denial.reason, "Wrong username or password");
        assert!(matches!(refusal.log.event, Event::Login { success: false }));
        assert_eq!(refusal.log.reason, "Wrong username or password");
    }
}

#[test]
fn the_digest_of_a_new_account_decides_its_login() {
    let account =
        open_account_with(&s("alice"), &s("secret"), [3; 32], Ok((address(), 1)), &s("ip"), 5)
            .ok()
            .unwrap();
    let stored = account.user.hashed_password;
    let granted = hash_password(b"secret", &stored) == stored;
    assert_eq!(login(&s("alice"), &s("secret"), &Some(account.user), &s("ip"), 6).is_ok(), granted);
}

#[test]
fn sessions_last_ninety_days() {
    let session = generate_auth_cookie(&s("alice"), true, 1_000).ok().unwrap();
    assert_eq!(session.username, "alice");
    assert_eq!(session.creation_time, 1_000);
    assert_eq!(session.expiration_time, 1_000 + 7_776_000);
    assert_eq!(session.cookie.len(), 50);
    assert!(session.cookie.chars().all(|c| c.is_ascii_alphanumeric()));
    let other = generate_auth_cookie(&s("alice"), true, 1_000).ok().unwrap();
    assert_ne!(session.cookie, other.cookie);
    let sessions = vec![session];
    assert!(destroy_expired_auth_cookies(&sessions, 1_000 + 7_776_000).is_empty());
    assert_eq!(destroy_expired_auth_cookies(&sessions, 1_001 + 7_776_000), vec!["alice"]);
    assert!(matches!(
        generate_auth_cookie(&s("bob"), false, 0),
        Err(GenAuthCookieErr::UserDoesntExist)
    ));
}

fn session(name: &str, cookie: &str, now: u64) -> AuthCookie {
    auth_cookie_from(&s(name), s(cookie), now)
}

#[test]
fn ended_sessions_are_found_in_order() {
    let sessions = vec![session("a", "x", 0), session("b", "y", 100), session("c", "z", 1)];
    let ended = destroy_expired_auth_cookies(&sessions, 7_776_050);
    assert_eq!(ended, vec!["a", "c"]);
    let left: Vec<&str> = sessions
        .iter()
        .filter(|session| !ended.contains(&session.username))
        .map(|session| session.username.as_str())
        .collect();
    assert_eq!(left, vec!["b"]);
    assert_eq!(SWEEP_WAIT_SECS, 1);
}

#[test]
fn only_the_stored_cookie_is_taken() {
    let stored = Some(session("alice", "abc", 0));
    assert!(verify_auth_cookie(&s("abc"), &stored));
    assert!(!verify_auth_cookie(&s("abd"), &stored));
    assert!(!verify_auth_cookie(&s(""), &None));
    assert!(is_authorized(true, &s("abc"), &stored));
    assert!(!is_authorized(false, &s("abc"), &stored));
}

#[test]
fn a_session_is_answered_and_logged() {
    for (by_login, registered) in [(true, false), (false, true)] {
        let reply = auth_cookie_result_to_response(
            s("alice"),
            Ok(session("alice", "abc", 10)),
            &s("ip"),
            by_login,
            11,
        );
        let resp = reply.response.ok().unwrap();
        assert_eq!((resp.username.as_str(), resp.cookie.as_str()), ("alice", "abc"));
        assert_eq!(resp.exp_time, 10 + 7_776_000);
        assert_eq!(reply.log.reason, "");
        assert_eq!(reply.log.time, 11);
        assert_eq!(matches!(reply.log.event, Event::Registration { success: true }), registered);
        assert_eq!(matches!(reply.log.event, Event::Login { success: true }), by_login);
    }
}

#[test]
fn a_session_that_could_not_be_made_is_an_internal_error() {
    let reply = |err, by_login| {
        auth_cookie_result_to_response(s("alice"), Err(err), &s("ip"), by_login, 11)
    };
    let missing = reply(GenAuthCookieErr::UserDoesntExist, true);
    assert!(matches!(missing.log.event, Event::Login { success: false }));
    assert_eq!(missing.log.reason, "UserDoesntExist");
    let denial = missing.response.err().unwrap();
    assert_eq!((denial.status, denial.denial.reason.as_str()), (500, "Internal Server Error"));
    let missing = reply(GenAuthCookieErr::UserDoesntExist, false);
    assert!(matches!(missing.log.event, Event::Registration { success: false }));
    let db = reply(GenAuthCookieErr::DbErr(s("full")), true);
    assert!(matches!(db.log.event, Event::ServerError));
    assert_eq!(db.log.reason, "DbErr(full)");
    let bincode = reply(GenAuthCookieErr::BincodeErr(s("eof")), false);
    assert_eq!(bincode.log.reason, "BincodeErr(eof)");
    assert!(bincode.response.is_err());
}
