use coinstribute::auth::{auth_cookie_from, AuthCookie};
use coinstribute::software::files::{cached_path, download_path, game_path, FileTable};
use coinstribute::software::search::{search_software, SearchAlg, SearchSoftwareReq};
use coinstribute::software::{
    captcha_key, first_free_id, new_software, new_software_with, ArchType, CaptchaKey,
    CompressionType, CreateSoftwareReq, CurrencyAmount, GeneratedCaptcha, Item, ItemPrice,
};

fn s(text: &str) -> String {
    text.to_string()
}

fn session() -> Option<AuthCookie> {
    Some(auth_cookie_from(&s("alice"), s("abc"), 0))
}

fn captcha() -> Option<GeneratedCaptcha> {
    Some(GeneratedCaptcha { answer: s("1x2y") })
}

fn request() -> CreateSoftwareReq {
    CreateSoftwareReq {
        username: s("alice"),
        auth_cookie: s("abc"),
        arch_type: ArchType::X86_64,
        title: s("Tetris"),
        description: s("blocks"),
        compressed_size: 10_000_000,
        price: ItemPrice::FixedAmount(CurrencyAmount::Monero(5)),
        compression_type: CompressionType::Zstd,
        captcha_hash: "0aF1".repeat(16),
        captcha_answer: s("1x2y"),
    }
}

#[test]
fn captchas_are_found_by_their_digest() {
    match captcha_key(&request()) {
        CaptchaKey::Key(key) => {
            assert_eq!(&key[..4], &[0x0a, 0xf1, 0x0a, 0xf1]);
        },
        _ => panic!("no key"),
    }
    let mut req = request();
    req.captcha_hash = s("no hex");
    assert!(matches!(captcha_key(&req), CaptchaKey::NotHex));
    req.captcha_hash = s("abc");
    assert!(matches!(captcha_key(&req), CaptchaKey::NotHex));
    req.captcha_hash = s("abcd");
    assert!(matches!(captcha_key(&req), CaptchaKey::WrongLength));
}

#[test]
fn software_can_be_uploaded() {
    let mut id = 3;
    let random = [7u8; 32];
    let new =
        new_software_with(request(), &captcha(), true, &session(), &mut id, random).ok().unwrap();
    assert_eq!(id, 4);
    let mut bytes = random.to_vec();
    bytes.extend_from_slice(b"Tetrisalice");
    let hash = blake3::hash(&bytes);
    assert_eq!(new.upload_id, *hash.as_bytes());
    assert_eq!(new.resp.upload_id, hash.to_hex().to_string());
    let item = new.item;
    assert_eq!(item.id, 3);
    assert_eq!((item.title.as_str(), item.creator.as_str()), ("Tetris", "alice"));
    assert_eq!(item.description, "blocks");
    assert!(item.arch_type == ArchType::X86_64);
    assert!(item.compression_type == CompressionType::Zstd);
    assert_eq!(item.compressed_size, 10_000_000);
    assert!(matches!(item.price, ItemPrice::FixedAmount(CurrencyAmount::Monero(5))));
    assert!(item.files.files().is_empty());
    assert_eq!(item.upload_id, Some(*hash.as_bytes()));
    assert_eq!(item.creation_time, None);
}

#[test]
fn upload_ids_are_drawn_by_chance() {
    let mut id = u64::MAX;
    let a = new_software(request(), &captcha(), true, &session(), &mut id).ok().unwrap();
    assert_eq!((a.item.id, id), (u64::MAX, 0));
    let b = new_software(request(), &captcha(), true, &session(), &mut id).ok().unwrap();
    assert_eq!((b.item.id, id), (0, 1));
    assert_ne!(a.upload_id, b.upload_id);
}

#[test]
fn uploads_are_refused() {
    let mut id = 3;
    let mut refuse = |req, captcha: Option<GeneratedCaptcha>, stored: Option<AuthCookie>| {
        let denial = new_software(req, &captcha, true, &stored, &mut id).err().unwrap();
        assert_eq!(id, 3);
        (denial.status, denial.denial.reason, denial.denial.additional_info)
    };
    let bad_captcha = (401, s("Incorrect captcha"), s(""));
    let mut wrong = request();
    wrong.captcha_answer = s("1x2z");
    assert_eq!(refuse(wrong, captcha(), session()), bad_captcha);
    assert_eq!(refuse(request(), None, session()), bad_captcha);
    let mut not_hex = request();
    not_hex.captcha_hash = s("zz");
    assert_eq!(refuse(not_hex, captcha(), session()), bad_captcha);
    assert_eq!(
        refuse(request(), captcha(), None),
        (401, s("Invalid username or cookie"), s(""))
    );
    let mut large = request();
    large.compressed_size = 10_000_001;
    assert_eq!(
        refuse(large, captcha(), session()),
        (400, s("File is too large"), s("Please keep your compressed game files under 10 MB"))
    );
}

#[test]
fn both_limits_of_a_price_are_in_one_currency() {
    let fiat = || CurrencyAmount::Fiat(rust_decimal::Decimal::new(499, 2));
    let mut id = 3;
    let mut denied = |min, max| {
        let mut req = request();
        req.price = ItemPrice::PayWhatYouWant { min, max };
        new_software(req, &captcha(), true, &session(), &mut id)
            .err()
            .map(|d| (d.status, d.denial.reason, d.denial.additional_info))
    };
    let mixed = Some((
        400,
        s("Invalid price"),
        s("The minimum and the maximum must be in the same currency"),
    ));
    assert_eq!(denied(CurrencyAmount::Monero(1), fiat()), mixed);
    assert_eq!(denied(fiat(), CurrencyAmount::Monero(1)), mixed);
    assert_eq!(denied(CurrencyAmount::Monero(1), CurrencyAmount::Monero(9)), None);
    assert_eq!(denied(fiat(), fiat()), None);
    assert_eq!(id, 5);
}

#[test]
fn the_next_number_is_free() {
    assert_eq!(first_free_id(&vec![]), 0);
    assert_eq!(first_free_id(&vec![0]), 1);
    assert_eq!(first_free_id(&vec![4, 9, 2]), 10);
}

#[test]
fn files_are_kept_by_their_digest() {
    let mut files = FileTable::new();
    files.insert([1; 32], s("a"));
    files.insert([2; 32], s("b"));
    files.insert([1; 32], s("c"));
    assert_eq!(files.files().len(), 2);
    assert_eq!(files.get(&[1; 32]).unwrap(), "c");
    assert_eq!(files.get(&[2; 32]).unwrap(), "b");
    assert!(files.get(&[3; 32]).is_none());
}

#[test]
fn files_have_places() {
    let hash = [0xA5; 32];
    let hex = "a5".repeat(32);
    assert_eq!(cached_path(hash), format!(".cached_files/{}", hex));
    assert_eq!(game_path(hash), format!(".game_files/{}", hex));
    assert_eq!(download_path(&hash), format!("./.game_files/{}", hex));
    assert_ne!(game_path([0; 32]), game_path(hash));
}

fn item(id: u64, title: &str, creation_time: Option<u64>) -> Item {
    Item {
        id,
        title: s(title),
        creator: s("alice"),
        description: s(""),
        arch_type: ArchType::Web,
        compressed_size: 1,
        price: ItemPrice::NoPrice,
        compression_type: CompressionType::Brotli,
        files: FileTable::new(),
        upload_id: None,
        creation_time,
    }
}

fn items() -> Vec<Item> {
    vec![
        item(3, "Blue Sky", Some(30)),
        item(1, "sky high", Some(10)),
        item(9, "SKYLINE", None),
        item(5, "Skyfall", Some(50)),
        item(2, "Tetris", Some(20)),
        item(4, "asky", Some(40)),
    ]
}

fn search(term: &str, sort_by: SearchAlg, num_results: u16) -> Option<Vec<u64>> {
    let req = SearchSoftwareReq { term: s(term), sort_by, start_index: 2, num_results };
    search_software(&req, &items())
        .map(|res| res.ok().unwrap().into_iter().map(|r| r.item_id).collect())
}

#[test]
fn software_is_found_by_its_title() {
    assert_eq!(search("sky", SearchAlg::Newest, 100), Some(vec![3, 1, 5, 4]));
    assert_eq!(search("tet", SearchAlg::Trending, 100), Some(vec![2]));
    // The term is taken as it is, the title in lower case.
    assert_eq!(search("Sky", SearchAlg::Newest, 100), Some(vec![]));
    let req = SearchSoftwareReq {
        term: s("tet"),
        sort_by: SearchAlg::Newest,
        start_index: 0,
        num_results: 1,
    };
    let results = search_software(&req, &items()).unwrap().ok().unwrap();
    assert_eq!((results[0].title.as_str(), results[0].creation_time), ("Tetris", 20));
}

#[test]
fn the_best_results_are_chosen() {
    assert_eq!(search("sky", SearchAlg::Newest, 2), Some(vec![4, 5]));
    assert_eq!(search("sky", SearchAlg::Oldest, 2), Some(vec![3, 1]));
    assert_eq!(search("sky", SearchAlg::Newest, 1), Some(vec![5]));
    assert_eq!(search("sky", SearchAlg::Oldest, 1), Some(vec![1]));
    assert_eq!(search("", SearchAlg::Newest, 3), Some(vec![3, 4, 5]));
}

#[test]
fn choices_that_are_not_supported() {
    assert_eq!(search("sky", SearchAlg::HighestRated, 4), Some(vec![3, 1, 5, 4]));
    assert_eq!(search("sky", SearchAlg::HighestRated, 3), None);
    assert_eq!(search("sky", SearchAlg::Newest, 0), None);
    assert_eq!(search("nothing", SearchAlg::Newest, 0), Some(vec![]));
}

#[test]
fn too_many_results_are_refused() {
    let req = SearchSoftwareReq {
        term: s(""),
        sort_by: SearchAlg::Newest,
        start_index: 0,
        num_results: 101,
    };
    let denial = search_software(&req, &items()).unwrap().err().unwrap();
    assert_eq!(denial.status, 400);
    assert_eq!(denial.denial.reason, "Too many results requested");
    assert_eq!(denial.denial.additional_info, "Try requesting 100 results or less");
}
