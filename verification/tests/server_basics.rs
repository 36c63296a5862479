use coinstribute::bytes::{copy_range, digest_at, find_zero, number_at, same_digest};
use coinstribute::db::Key;
use coinstribute::denial::{handle_rejection, DenialFault, RejectionCause, RequestDenial};
use coinstribute::logging::{Event, Log, LogBuffer, LogService, LogType, Priority};
use coinstribute::text::decimal_text;
use coinstribute::wallet::json::{JsonValue, Member};

#[test]
fn numbers_in_decimal() {
    for n in [0, 7, 10, 99, 100, 1024, u64::MAX] {
        assert_eq!(decimal_text(n), n.to_string());
    }
}

#[test]
fn pieces_of_byte_strings() {
    let bytes: Vec<u8> = (1..50).collect();
    assert_eq!(digest_at(&bytes, 3).to_vec(), bytes[3..35].to_vec());
    assert_eq!(number_at(&[9, 1, 0, 0, 0, 0, 0, 0, 1], 1), 0x0100_0000_0000_0001);
    assert_eq!(find_zero(&[1, 0, 2, 0], 0), 1);
    assert_eq!(find_zero(&[1, 0, 2, 0], 2), 3);
    assert_eq!(find_zero(&[1, 2], 1), 2);
    assert_eq!(copy_range(&[1, 2, 3], 1, 3), vec![2, 3]);
    let mut other = [5; 32];
    assert!(same_digest(&[5; 32], &other));
    other[31] = 4;
    assert!(!same_digest(&[5; 32], &other));
}

#[test]
fn denials_name_whose_fault_it_is() {
    let denial =
        RequestDenial::new(DenialFault::Server, "reason".to_string(), "more".to_string());
    assert_eq!(denial.fault, "Server");
    let response = denial.into_response(503);
    assert_eq!(response.status, 503);
    assert_eq!(response.denial.reason, "reason");
    assert_eq!(response.denial.additional_info, "more");
    assert_eq!(DenialFault::User.to_text(), "User");
}

#[test]
fn rejections_have_a_code_and_a_message() {
    let told = |cause| {
        let told = handle_rejection(cause);
        (told.code, told.message)
    };
    assert_eq!(told(RejectionCause::NotFound), (404, "NOT_FOUND".to_string()));
    assert_eq!(
        told(RejectionCause::UnreadableBody(Some("no comma".to_string()))),
        (400, "no comma".to_string())
    );
    assert_eq!(told(RejectionCause::UnreadableBody(None)), (400, "BAD_REQUEST".to_string()));
    assert_eq!(
        told(RejectionCause::MethodNotAllowed),
        (405, "METHOD_NOT_ALLOWED".to_string())
    );
    assert_eq!(told(RejectionCause::Unhandled), (500, "UNHANDLED_REJECTION".to_string()));
}

#[test]
fn log_entries_keep_what_they_are_given() {
    let log = Log::new(
        None,
        "::1".to_string(),
        Event::BalanceChange { from: 1, to: 2 },
        LogType::Money,
        "why".to_string(),
        Priority::Medium,
        12,
    );
    assert_eq!((log.username, log.ip.as_str(), log.time), (None, "::1", 12));
    assert!(matches!(log.event, Event::BalanceChange { from: 1, to: 2 }));
    assert_eq!((log.log_type, log.priority), (LogType::Money, Priority::Medium));
    assert_eq!(log.reason, "why");
}

#[test]
fn the_log_is_written_when_the_buffer_is_full() {
    let mut buffer = LogBuffer::new();
    assert!(!buffer.add_line("first"));
    assert!(!buffer.add_line("second"));
    assert_eq!(buffer.take(), "first\nsecond\n");
    assert_eq!(buffer.take(), "");
    assert!(!buffer.add_line(&"x".repeat(64_999)));
    assert!(buffer.add_line(""));
    assert_eq!(buffer.take().len(), 65_001);
    // Bytes are counted, not characters.
    assert!(buffer.add_line(&"é".repeat(32_500)));
}

#[test]
fn the_log_is_written_after_a_while() {
    let mut service = LogService::new(100);
    assert_eq!(service.wait(100), 90);
    assert_eq!(service.step(Some("first"), 150), None);
    assert_eq!(service.wait(150), 40);
    assert_eq!(service.step(None, 189), None);
    assert_eq!(service.wait(190), 0);
    assert_eq!(service.step(Some("second"), 190), Some("first\nsecond\n".to_string()));
    assert_eq!(service.wait(191), 89);
    assert_eq!(service.step(None, 500), Some(String::new()));
    // Too much is written at once.
    assert_eq!(service.step(Some(&"x".repeat(64_999)), 501), None);
    assert_eq!(service.step(Some(""), 502).unwrap().len(), 65_001);
    assert_eq!((service.last_write, service.wait(400)), (502, 90));
    // All lines are written, in their order and once.
    let mut service = LogService::new(0);
    let mut file = String::new();
    let mut expected = String::new();
    for i in 0..1_000u64 {
        let line = i.to_string().repeat(1 + 97 * (i as usize % 7));
        expected.push_str(&line);
        expected.push('\n');
        if let Some(text) = service.step(Some(&line), i * i % 600) {
            file.push_str(&text);
        }
    }
    assert!(file.len() > 65_000);
    file.push_str(&service.buffer.take());
    assert_eq!(file, expected);
}

#[test]
fn keys_of_the_database() {
    let name = "né".to_string();
    assert_eq!(name.to_bytes(), vec![3, 0, 0, 0, 0, 0, 0, 0, b'n', 0xC3, 0xA9]);
    assert_eq!(String::from_bytes(&name.to_bytes()), Some(name.clone()));
    assert_eq!(name.to_bytes(), bincode::serialize(&name).unwrap());
    let mut longer = name.to_bytes();
    longer.push(1);
    assert_eq!(String::from_bytes(&longer), Some(name));
    assert_eq!(String::from_bytes(&[1, 0, 0, 0, 0, 0, 0, 0, 0xFF]), None);
    assert_eq!(String::from_bytes(&[2, 0, 0, 0, 0, 0, 0, 0, b'a']), None);
    assert_eq!(String::from_bytes(&[0, 0]), None);
    assert_eq!(258u64.to_bytes(), vec![2, 1, 0, 0, 0, 0, 0, 0]);
    assert_eq!(u64::from_bytes(&[2, 1, 0, 0, 0, 0, 0, 0, 9]), Some(258));
    assert_eq!(u64::from_bytes(&[2, 1]), None);
    let digest = [8u8; 32];
    assert_eq!(digest.to_bytes(), digest.to_vec());
    assert_eq!(<[u8; 32]>::from_bytes(&[8; 40]), Some(digest));
    assert_eq!(<[u8; 32]>::from_bytes(&[8; 31]), None);
}

#[test]
fn json_values_are_read_by_kind() {
    let value = JsonValue::Object(vec![
        Member { name: "n".to_string(), value: JsonValue::Signed(4) },
        Member { name: "n".to_string(), value: JsonValue::Signed(5) },
    ]);
    assert_eq!(value.get("n").unwrap().as_u64(), Some(4));
    assert!(value.contains_key("n"));
    assert!(!value.contains_key("m"));
    assert!(!JsonValue::Null.contains_key("n"));
    assert_eq!(JsonValue::Signed(-4).as_u64(), None);
    assert_eq!(JsonValue::Unsigned(u64::MAX).as_u64(), Some(u64::MAX));
    assert_eq!(JsonValue::OtherNumber.as_u64(), None);
    assert_eq!(JsonValue::Bool(true).as_bool(), Some(true));
    assert_eq!(JsonValue::Null.as_bool(), None);
    assert_eq!(JsonValue::Text("t".to_string()).as_str().unwrap(), "t");
    assert!(JsonValue::Null.as_str().is_none());
    assert_eq!(JsonValue::Array(vec![JsonValue::Null]).as_array().unwrap().len(), 1);
    assert!(JsonValue::Null.as_array().is_none());
}
