use coinstribute::auth::{auth_cookie_from, AuthCookie};
use coinstribute::software::download::{
    download_software, file_header, read_request, DownloadEnd, DownloadRequest, DownloadStep,
    WantedSoftware,
};
use coinstribute::software::files::FileTable;
use coinstribute::software::upload::{
    file_is_whole, finish_upload, read_claim, upload_software, FinishFault, Upload, UploadEnd,
    UploadStep,
};
use coinstribute::software::{ArchType, CompressionType, Item, ItemPrice};

const ZSTD: [u8; 6] = [0x28, 0xB5, 0x2F, 0xFD, 1, 2];

fn session(cookie: &str) -> Option<AuthCookie> {
    Some(auth_cookie_from(&"alice".to_string(), cookie.to_string(), 0))
}

fn claim(num_chunks: u64, files: &[([u8; 32], &[u8])]) -> Vec<u8> {
    let mut msg = num_chunks.to_le_bytes().to_vec();
    msg.extend_from_slice(b"alice\0cookie\0");
    msg.extend_from_slice(&[6; 32]);
    for (hash, name) in files {
        msg.extend_from_slice(hash);
        msg.extend_from_slice(name);
        msg.push(0);
    }
    msg
}

fn announce(len: u64, file: [u8; 32]) -> Vec<u8> {
    let mut msg = len.to_le_bytes().to_vec();
    msg.extend_from_slice(&file);
    msg
}

fn begin_with(num_chunks: u64, files: &[([u8; 32], &[u8])], kind: CompressionType) -> Upload {
    let claim = read_claim(&claim(num_chunks, files)).ok().unwrap();
    Upload::begin(claim, &session("cookie"), Some(kind)).ok().unwrap()
}

fn begin(num_chunks: u64) -> Upload {
    begin_with(num_chunks, &[([1; 32], b"game")], CompressionType::Zstd)
}

fn item(compressed_size: u64) -> Item {
    Item {
        id: 4,
        title: "t".to_string(),
        creator: "alice".to_string(),
        description: String::new(),
        arch_type: ArchType::Web,
        compressed_size,
        price: ItemPrice::NoPrice,
        compression_type: CompressionType::Brotli,
        files: FileTable::new(),
        upload_id: Some([6; 32]),
        creation_time: None,
    }
}

#[test]
fn a_claim_is_read_as_it_was_made() {
    let read = read_claim(&claim(7, &[([1; 32], b"game"), ([2; 32], b"data"), ([1; 32], b"new")]))
        .ok()
        .unwrap();
    assert_eq!(read.num_chunks, 7);
    assert_eq!((read.username.as_str(), read.auth_cookie.as_str()), ("alice", "cookie"));
    let upload = read.upload.unwrap();
    assert_eq!(upload.upload_id, [6; 32]);
    assert_eq!(upload.files.files().len(), 2);
    assert_eq!(upload.files.get(&[1; 32]).unwrap(), "new");
    assert_eq!(upload.files.get(&[2; 32]).unwrap(), "data");
}

#[test]
fn the_last_file_may_be_cut_short() {
    let mut msg = claim(1, &[]);
    msg.extend_from_slice(&[9, 9, 9]);
    let upload = read_claim(&msg).ok().unwrap().upload.unwrap();
    let mut padded = [0u8; 32];
    padded[..3].copy_from_slice(&[9, 9, 9]);
    assert_eq!(upload.files.get(&padded).unwrap(), "");
    let mut msg = claim(1, &[]);
    msg.extend_from_slice(&[3; 32]);
    msg.extend_from_slice(b"open end");
    let upload = read_claim(&msg).ok().unwrap().upload.unwrap();
    assert_eq!(upload.files.get(&[3; 32]).unwrap(), "open end");
}

#[test]
fn names_that_are_no_utf8_are_read_as_well_as_can_be() {
    let upload = read_claim(&claim(1, &[([4; 32], b"a\xFFb")])).ok().unwrap().upload.unwrap();
    assert_eq!(upload.files.get(&[4; 32]).unwrap(), "a\u{FFFD}b");
}

#[test]
fn claims_that_cannot_be_read() {
    let fault = |msg: &[u8]| read_claim(msg).err().unwrap();
    assert_eq!(fault(b"short"), UploadEnd::Broken);
    assert_eq!(fault(b"12345678no end"), UploadEnd::Broken);
    assert_eq!(fault(b"12345678\xFF\xFE\0cookie\0"), UploadEnd::InvalidUsername);
    assert_eq!(fault(b"12345678alice\0no end"), UploadEnd::Broken);
    assert_eq!(fault(b"12345678alice\0\xFF\0"), UploadEnd::InvalidCookieText);
    assert!(read_claim(b"12345678alice\0cookie\0no id").ok().unwrap().upload.is_none());
}

#[test]
fn uploads_that_do_not_begin() {
    let begin = |msg: &[u8], cookie: &str, known| {
        Upload::begin(read_claim(msg).ok().unwrap(), &session(cookie), known).err()
    };
    let good = claim(1280, &[]);
    let zstd = Some(CompressionType::Zstd);
    assert_eq!(begin(&good, "cookie", zstd), None);
    assert_eq!(begin(&good, "other", zstd), Some(UploadEnd::InvalidCookie));
    assert_eq!(begin(&good, "cookie", None), Some(UploadEnd::UnknownUploadId));
    assert_eq!(begin(&claim(1281, &[]), "cookie", zstd), Some(UploadEnd::Broken));
    assert_eq!(begin(b"12345678alice\0cookie\0no id", "cookie", zstd), Some(UploadEnd::Broken));
}

#[test]
fn chunks_are_stored_in_the_order_in_which_they_come() {
    let mut upload = begin(3);
    for data in [&ZSTD[..], b"more", b""] {
        let step = upload_software(&mut upload, &announce(data.len() as u64, [1; 32]));
        assert!(matches!(step, UploadStep::Wait));
        match upload_software(&mut upload, data) {
            UploadStep::Store { file, data: stored } => {
                assert_eq!(file, [1; 32]);
                assert_eq!(stored, data);
            },
            _ => panic!("not stored"),
        }
    }
    assert_eq!(upload.num_chunks, 3);
    assert!(matches!(upload_software(&mut upload, b"anything"), UploadStep::Finish));
    assert!(matches!(upload_software(&mut upload, b""), UploadStep::Finish));
}

#[test]
fn an_upload_without_chunks_ends_at_once() {
    assert!(matches!(upload_software(&mut begin(0), b""), UploadStep::Finish));
}

#[test]
fn the_first_chunk_of_each_zstandard_file_must_begin_as_one() {
    let mut upload = begin(2);
    upload_software(&mut upload, &announce(4, [1; 32]));
    match upload_software(&mut upload, b"text") {
        UploadStep::Reject { file, data } => {
            assert_eq!((file, data), ([1; 32], b"text".to_vec()));
        },
        _ => panic!("not rejected"),
    }
    let mut upload = begin(2);
    upload_software(&mut upload, &announce(6, [1; 32]));
    assert!(matches!(upload_software(&mut upload, &ZSTD), UploadStep::Store { .. }));
    upload_software(&mut upload, &announce(4, [2; 32]));
    assert!(matches!(upload_software(&mut upload, b"text"), UploadStep::Reject { .. }));
}

#[test]
fn brotli_files_may_begin_with_anything() {
    let mut upload = begin_with(1, &[([1; 32], b"game")], CompressionType::Brotli);
    upload_software(&mut upload, &announce(4, [1; 32]));
    assert!(matches!(upload_software(&mut upload, b"text"), UploadStep::Store { .. }));
    assert!(matches!(upload_software(&mut upload, b""), UploadStep::Finish));
}

#[test]
fn messages_that_break_an_upload() {
    let mut upload = begin(2);
    assert!(matches!(upload_software(&mut upload, &[0; 39]), UploadStep::Break));
    // A chunk must come in one piece; only empty messages may come before it.
    upload_software(&mut upload, &announce(6, [1; 32]));
    assert!(matches!(upload_software(&mut upload, b""), UploadStep::Wait));
    assert!(matches!(upload_software(&mut upload, &ZSTD[..4]), UploadStep::Wait));
    assert!(matches!(upload_software(&mut upload, &ZSTD[4..]), UploadStep::Break));
    // No chunk may be announced as longer than a chunk may be.
    let mut upload = begin(2);
    let step = upload_software(&mut upload, &announce(8193, [1; 32]));
    assert!(matches!(step, UploadStep::Break));
    let step = upload_software(&mut upload, &announce(8192, [1; 32]));
    assert!(matches!(step, UploadStep::Wait));
    let mut largest = vec![0; 8192];
    largest[..4].copy_from_slice(&ZSTD[..4]);
    assert!(matches!(upload_software(&mut upload, &largest), UploadStep::Store { .. }));
    assert_eq!(upload.bytes_stored, 8192);
    // Nor may a message be longer than the buffer.
    upload_software(&mut upload, &announce(8, [1; 32]));
    assert!(matches!(upload_software(&mut upload, &vec![0; 65_536]), UploadStep::Break));
}

#[test]
fn whole_files_have_their_digest() {
    let hash = *blake3::hash(b"contents").as_bytes();
    assert!(file_is_whole(&hash, b"contents"));
    assert!(!file_is_whole(&hash, b"content"));
}

/// An upload of one file in two chunks, and the file's digest.
fn two_chunks() -> (Upload, [u8; 32]) {
    let hash = *blake3::hash(b"contents").as_bytes();
    let mut upload = begin_with(2, &[(hash, b"game")], CompressionType::Brotli);
    for data in [&b"cont"[..], b"ents"] {
        upload_software(&mut upload, &announce(4, hash));
        assert!(matches!(upload_software(&mut upload, data), UploadStep::Store { .. }));
    }
    (upload, hash)
}

#[test]
fn complete_uploads_are_published() {
    let (upload, hash) = two_chunks();
    let published = finish_upload(item(8), upload, &vec![b"contents".to_vec()], 99).ok().unwrap();
    assert_eq!((published.id, published.compressed_size), (4, 8));
    assert_eq!(published.creation_time, Some(99));
    assert_eq!(published.files.get(&hash).unwrap(), "game");
    assert_eq!(published.upload_id, Some([6; 32]));
}

#[test]
fn corrupt_files_are_not_published() {
    let (upload, _) = two_chunks();
    let fault = finish_upload(item(8), upload, &vec![b"contentz".to_vec()], 99).err();
    assert_eq!(fault, Some(FinishFault::Corrupt(0)));
    let good = *blake3::hash(b"good").as_bytes();
    let upload = begin_with(0, &[(good, b"a"), ([7; 32], b"b")], CompressionType::Brotli);
    let contents = vec![b"good".to_vec(), b"bad".to_vec()];
    assert_eq!(finish_upload(item(0), upload, &contents, 99).err(), Some(FinishFault::Corrupt(1)));
}

#[test]
fn uploads_of_another_size_are_not_published() {
    for size in [0, 7, 9, u64::MAX] {
        let (upload, _) = two_chunks();
        let fault = finish_upload(item(size), upload, &vec![b"contents".to_vec()], 99).err();
        assert_eq!(fault, Some(FinishFault::WrongSize));
    }
    // The bytes that were sent count, and not those of the files alone.
    let hash = *blake3::hash(b"contents").as_bytes();
    let upload = begin_with(0, &[(hash, b"game")], CompressionType::Brotli);
    let fault = finish_upload(item(8), upload, &vec![b"contents".to_vec()], 99).err();
    assert_eq!(fault, Some(FinishFault::WrongSize));
}

#[test]
fn incomplete_uploads_are_not_published() {
    let fault = finish_upload(item(0), begin(1), &vec![Vec::new()], 99).err();
    assert_eq!(fault, Some(FinishFault::Incomplete));
}

fn wanted(msg: &[u8]) -> WantedSoftware {
    match read_request(msg) {
        DownloadRequest::Wanted(wanted) => wanted,
        _ => panic!("not wanted"),
    }
}

fn request(id: u64) -> Vec<u8> {
    let mut msg = b"alice\0".to_vec();
    msg.extend_from_slice(&[b'c'; 50]);
    msg.push(b'?');
    msg.extend_from_slice(&id.to_le_bytes());
    msg
}

#[test]
fn a_request_is_read_as_it_was_made() {
    let wanted = wanted(&request(513));
    assert_eq!(wanted.username, "alice");
    assert_eq!(wanted.auth_cookie, "c".repeat(50));
    assert_eq!(wanted.software_id, Some(513));
}

#[test]
fn requests_that_cannot_be_read() {
    assert!(matches!(read_request(b""), DownloadRequest::Close));
    assert!(matches!(read_request(b"no end"), DownloadRequest::Broken));
    assert!(matches!(read_request(b"\xFF\0"), DownloadRequest::Broken));
    assert!(matches!(read_request(&request(1)[..55]), DownloadRequest::Broken));
    let mut msg = request(1);
    msg[10] = 0xFF;
    assert!(matches!(read_request(&msg), DownloadRequest::Broken));
    assert_eq!(wanted(&request(1)[..64]).software_id, None);
}

#[test]
fn files_are_sent_to_users_with_a_session() {
    let cookie = "c".repeat(50);
    let step = |msg: &[u8], cookie: &str, known: Option<Item>| {
        match download_software(&read_request(msg), &session(cookie), known) {
            DownloadStep::Send(files) => Ok(files.files().len()),
            DownloadStep::End(end) => Err(end),
        }
    };
    let mut software = item(0);
    software.files = begin(0).software_info.files;
    assert_eq!(step(&request(8), &cookie, Some(software)), Ok(1));
    assert_eq!(step(&request(8), &cookie, None), Err(DownloadEnd::NotFound));
    assert_eq!(step(&request(8), "x", Some(item(0))), Err(DownloadEnd::InvalidCookie));
    assert_eq!(step(&request(8)[..64], &cookie, Some(item(0))), Err(DownloadEnd::Broken));
    assert_eq!(step(b"", &cookie, Some(item(0))), Err(DownloadEnd::Closed));
    assert_eq!(step(b"no end", &cookie, Some(item(0))), Err(DownloadEnd::Broken));
    let all = read_request(&request(8));
    let step = download_software(&all, &None, Some(item(0)));
    assert!(matches!(step, DownloadStep::End(DownloadEnd::InvalidCookie)));
}

#[test]
fn files_are_announced() {
    let header = file_header(&[3; 32], &"dir/ä".to_string(), 258);
    let mut expected = vec![3; 32];
    expected.extend_from_slice("dir/ä".as_bytes());
    expected.extend_from_slice(&[0, 2, 1, 0, 0, 0, 0, 0, 0]);
    assert_eq!(header, expected);
}
