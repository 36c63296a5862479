//! Software: how it is described, uploaded, found and downloaded.
use vstd::prelude::*;

pub mod download;
pub mod files;
pub mod search;
pub mod upload;

use vstd::utf8::*;

use crate::auth;
use crate::auth::{is_authorized, AuthCookie};
use crate::bytes::digest_at;
use crate::denial::{deny, deny_unauthorized, DenialFault, DenialResponse};
use crate::outside;
use crate::outside::chance::random_bytes;
use crate::outside::digest::blake3_hash;
use crate::outside::hex::{decode_hex, digest_hex};
use files::FileTable;

verus! {

/// What a piece of software runs on.
#[derive(Clone, Copy, PartialEq, Eq, Structural)]
pub enum ArchType {
    /// A web browser.
    Web,
    X86_64,
}

/// How the files of a piece of software are compressed. Browsers get Brotli.
#[derive(Clone, Copy, PartialEq, Eq, Structural)]
pub enum CompressionType {
    Zstd,
    Brotli,
}

/// An amount in some currency.
pub enum CurrencyAmount {
    /// An amount in Monero.
    Monero(u64),
    /// An amount in a fiat currency.
    Fiat(rust_decimal::Decimal),
}

/// What a piece of software costs.
pub enum ItemPrice {
    /// The buyer decides; both limits are in one currency.
    PayWhatYouWant { min: CurrencyAmount, max: CurrencyAmount },
    FixedAmount(CurrencyAmount),
    NoPrice,
}

/// A piece of software.
pub struct Item {
    pub id: u64,
    pub title: String,
    pub creator: String,
    pub description: String,
    pub arch_type: ArchType,
    pub compressed_size: u64,
    pub price: ItemPrice,
    pub compression_type: CompressionType,
    pub files: FileTable,
    pub upload_id: Option<[u8; 32]>,
    /// When its upload was complete, if it is.
    pub creation_time: Option<u64>,
}

/// What a user says of software that they want to upload.
pub struct CreateSoftwareReq {
    pub username: String,
    pub auth_cookie: String,
    pub arch_type: ArchType,
    pub title: String,
    pub description: String,
    pub compressed_size: u64,
    pub price: ItemPrice,
    pub compression_type: CompressionType,
    pub captcha_hash: String,
    pub captcha_answer: String,
}

/// What the user needs to upload it.
pub struct NewSoftwareResp {
    pub upload_id: String,
}

/// A captcha that was shown to a user.
pub struct GeneratedCaptcha {
    pub answer: String,
}

/// The largest size of compressed software.
pub const MAX_COMPRESSED_SIZE: u64 = 10_000_000;

/// The key of a captcha in the database.
pub enum CaptchaKey {
    Key([u8; 32]),
    /// The text is no hexadecimal: there is no such captcha.
    NotHex,
    /// The text is hexadecimal, but not for 32 bytes.
    WrongLength,
}

/// Whether the digest of the captcha is hexadecimal.
pub open spec fn captcha_is_hex(req: CreateSoftwareReq) -> bool {
    outside::hex::is_hex(encode_utf8(req.captcha_hash@))
}

/// The digest of the captcha, where it is hexadecimal.
pub open spec fn captcha_digest(req: CreateSoftwareReq) -> Seq<u8> {
    outside::hex::hex_bytes(encode_utf8(req.captcha_hash@))
}

/// Finds the key of the captcha that a user says they have solved.
pub fn captcha_key(req: &CreateSoftwareReq) -> (res: CaptchaKey)
    ensures
        res is NotHex <==> !captcha_is_hex(*req),
        res is WrongLength <==> captcha_is_hex(*req) && captcha_digest(*req).len() != 32,
        res matches CaptchaKey::Key(key) ==> key@ == captcha_digest(*req),
{
    match decode_hex(req.captcha_hash.as_str().as_bytes()) {
        Ok(digest) => if digest.len() == 32 {
            let key: [u8; 32] = digest_at(digest.as_slice(), 0);
            assert(key@ =~= digest@);
            CaptchaKey::Key(key)
        } else {
            CaptchaKey::WrongLength
        },
        Err(_) => CaptchaKey::NotHex,
    }
}

/// Whether the user has solved the captcha that is stored under the digest
/// they gave.
pub open spec fn captcha_solved(
    req: CreateSoftwareReq,
    captcha: Option<GeneratedCaptcha>,
) -> bool {
    &&& captcha_is_hex(req)
    &&& captcha matches Some(captcha)
    &&& captcha.answer@ == req.captcha_answer@
}

/// The id of an upload: the digest of random bytes, the title and the name.
pub open spec fn upload_id_of(
    random_bytes: Seq<u8>,
    title: Seq<char>,
    username: Seq<char>,
) -> Seq<u8> {
    outside::digest::blake3_digest(random_bytes + encode_utf8(title) + encode_utf8(username))
}

/// Software that can be uploaded now: the item is to be stored under its
/// number, and the number under the id of the upload.
pub struct NewSoftware {
    pub item: Item,
    pub upload_id: [u8; 32],
    pub resp: NewSoftwareResp,
}

/// Whether two amounts are in one currency.
pub open spec fn one_currency(a: CurrencyAmount, b: CurrencyAmount) -> bool {
    a is Monero <==> b is Monero
}

/// Whether a price is in one currency.
pub open spec fn price_allowed(price: ItemPrice) -> bool {
    price matches ItemPrice::PayWhatYouWant { min, max } ==> one_currency(min, max)
}

/// Decides whether a price is in one currency.
fn is_price_allowed(price: &ItemPrice) -> (res: bool)
    ensures
        res == price_allowed(*price),
{
    match price {
        ItemPrice::PayWhatYouWant { min, max } => match (min, max) {
            (CurrencyAmount::Monero(_), CurrencyAmount::Monero(_)) => true,
            (CurrencyAmount::Fiat(_), CurrencyAmount::Fiat(_)) => true,
            _ => false,
        },
        _ => true,
    }
}

/// Why a user may not upload software, if they may not.
pub open spec fn is_refusal(
    denial: DenialResponse,
    req: CreateSoftwareReq,
    captcha: Option<GeneratedCaptcha>,
    authorized: bool,
) -> bool {
    if !captcha_solved(req, captcha) {
        denial.says(401, DenialFault::User, "Incorrect captcha"@, ""@)
    } else if !authorized {
        denial.says_unauthorized()
    } else if req.compressed_size > MAX_COMPRESSED_SIZE {
        denial.says(
            400,
            DenialFault::User,
            "File is too large"@,
            "Please keep your compressed game files under 10 MB"@,
        )
    } else {
        denial.says(
            400,
            DenialFault::User,
            "Invalid price"@,
            "The minimum and the maximum must be in the same currency"@,
        )
    }
}

/// Whether a user may upload software.
pub open spec fn may_upload(
    req: CreateSoftwareReq,
    captcha: Option<GeneratedCaptcha>,
    authorized: bool,
) -> bool {
    &&& captcha_solved(req, captcha)
    &&& authorized
    &&& req.compressed_size <= MAX_COMPRESSED_SIZE
    &&& price_allowed(req.price)
}

/// Whether `new` is the software that was asked for, not uploaded yet, with
/// the number `id`.
pub open spec fn is_new_software(new: NewSoftware, req: CreateSoftwareReq, id: u64) -> bool {
    &&& new.item.id == id
    &&& new.item.title@ == req.title@
    &&& new.item.creator@ == req.username@
    &&& new.item.description@ == req.description@
    &&& new.item.arch_type == req.arch_type
    &&& new.item.compression_type == req.compression_type
    &&& new.item.compressed_size == req.compressed_size
    &&& new.item.price == req.price
    &&& new.item.files@ == Map::<Seq<u8>, Seq<char>>::empty()
    &&& new.item.upload_id == Some(new.upload_id)
    &&& new.item.creation_time is None
    &&& new.resp.upload_id@ == outside::hex::lower_hex(new.upload_id@)
}

/// Answers a request to upload software, with the given random bytes for the
/// id of the upload. A number is used up only where the request is granted.
pub fn new_software_with(
    req: CreateSoftwareReq,
    captcha: &Option<GeneratedCaptcha>,
    user_exists: bool,
    stored: &Option<AuthCookie>,
    current_soft_id: &mut u64,
    random_bytes: [u8; 32],
) -> (res: Result<NewSoftware, DenialResponse>)
    requires
        captcha_is_hex(req) ==> captcha_digest(req).len() == 32,
    ensures
        ({
            let authorized = auth::authorized(user_exists, req.auth_cookie@, *stored);
            &&& res is Ok <==> may_upload(req, *captcha, authorized)
            &&& res matches Ok(new) ==> {
                &&& is_new_software(new, req, *old(current_soft_id))
                &&& new.upload_id@ == upload_id_of(random_bytes@, req.title@, req.username@)
            }
            &&& res matches Err(denial) ==> is_refusal(denial, req, *captcha, authorized)
            &&& *final(current_soft_id) == (if !(res is Ok) {
                *old(current_soft_id) as int
            } else if *old(current_soft_id) == u64::MAX {
                0
            } else {
                *old(current_soft_id) + 1
            })
        }),
{
    let is_hex: bool = decode_hex(req.captcha_hash.as_str().as_bytes()).is_ok();
    let solved: bool = match captcha {
        Some(captcha) => is_hex && captcha.answer == req.captcha_answer,
        None => false,
    };
    if !solved {
        return Err(deny(401, DenialFault::User, "Incorrect captcha", ""));
    }
    if !is_authorized(user_exists, &req.auth_cookie, stored) {
        return Err(deny_unauthorized());
    }
    if req.compressed_size > MAX_COMPRESSED_SIZE {
        return Err(
            deny(
                400,
                DenialFault::User,
                "File is too large",
                "Please keep your compressed game files under 10 MB",
            ),
        );
    }
    if !is_price_allowed(&req.price) {
        return Err(
            deny(
                400,
                DenialFault::User,
                "Invalid price",
                "The minimum and the maximum must be in the same currency",
            ),
        );
    }
    let id: u64 = *current_soft_id;
    *current_soft_id = id.wrapping_add(1);
    let mut bytes_to_hash: Vec<u8> = Vec::new();
    bytes_to_hash.extend_from_slice(random_bytes.as_slice());
    bytes_to_hash.extend_from_slice(req.title.as_str().as_bytes());
    bytes_to_hash.extend_from_slice(req.username.as_str().as_bytes());
    assert(bytes_to_hash@ =~= random_bytes@ + encode_utf8(req.title@) + encode_utf8(
        req.username@,
    ));
    let upload_id: [u8; 32] = blake3_hash(bytes_to_hash.as_slice());
    Ok(
        NewSoftware {
            item: Item {
                id,
                title: req.title,
                creator: req.username,
                description: req.description,
                arch_type: req.arch_type,
                compressed_size: req.compressed_size,
                price: req.price,
                compression_type: req.compression_type,
                files: FileTable::new(),
                upload_id: Some(upload_id),
                creation_time: None,
            },
            upload_id,
            resp: NewSoftwareResp { upload_id: digest_hex(upload_id) },
        },
    )
}

/// Answers a request to upload software. `captcha` is what is stored under the
/// key that `captcha_key` finds.
pub fn new_software(
    req: CreateSoftwareReq,
    captcha: &Option<GeneratedCaptcha>,
    user_exists: bool,
    stored: &Option<AuthCookie>,
    current_soft_id: &mut u64,
) -> (res: Result<NewSoftware, DenialResponse>)
    requires
        captcha_is_hex(req) ==> captcha_digest(req).len() == 32,
    ensures
        ({
            let authorized = auth::authorized(user_exists, req.auth_cookie@, *stored);
            &&& res is Ok <==> may_upload(req, *captcha, authorized)
            &&& res matches Ok(new) ==> is_new_software(new, req, *old(current_soft_id))
            &&& res matches Ok(new) ==> exists|random_bytes: [u8; 32]|
                new.upload_id@ == #[trigger] upload_id_of(
                    random_bytes@,
                    req.title@,
                    req.username@,
                )
            &&& res matches Err(denial) ==> is_refusal(denial, req, *captcha, authorized)
            &&& *final(current_soft_id) == (if !(res is Ok) {
                *old(current_soft_id) as int
            } else if *old(current_soft_id) == u64::MAX {
                0
            } else {
                *old(current_soft_id) + 1
            })
        }),
{
    new_software_with(req, captcha, user_exists, stored, current_soft_id, random_bytes())
}

/// The number that follows the greatest of the given ones; 0 where there is
/// none.
pub open spec fn next_id(ids: Seq<u64>) -> int
    decreases ids.len(),
{
    if ids.len() == 0 {
        0
    } else if ids.last() + 1 > next_id(ids.drop_last()) {
        ids.last() + 1
    } else {
        next_id(ids.drop_last())
    }
}

/// Finds the number for the next piece of software, where the given numbers
/// are used.
pub fn first_free_id(ids: &Vec<u64>) -> (res: u64)
    requires
        forall|i: int| 0 <= i < ids@.len() ==> #[trigger] ids@[i] < u64::MAX,
    ensures
        res == next_id(ids@),
{
    let mut res: u64 = 0;
    let mut i: usize = 0;
    while i < ids.len()
        invariant
            i <= ids@.len(),
            res == next_id(ids@.take(i as int)),
            forall|j: int| 0 <= j < ids@.len() ==> #[trigger] ids@[j] < u64::MAX,
        decreases ids@.len() - i,
    {
        assert(ids@.take(i + 1).drop_last() =~= ids@.take(i as int));
        assert(ids@[i as int] < u64::MAX);
        if ids[i] + 1 > res {
            res = ids[i] + 1;
        }
        i += 1;
    }
    assert(ids@.take(ids@.len() as int) =~= ids@);
    res
}

/// The next number is used by no piece of software.
pub proof fn next_id_is_free(ids: Seq<u64>)
    ensures
        forall|i: int| 0 <= i < ids.len() ==> (#[trigger] ids[i]) < next_id(ids),
        next_id(ids) == 0 <==> ids.len() == 0,
    decreases ids.len(),
{
    if ids.len() > 0 {
        next_id_is_free(ids.drop_last());
        assert forall|i: int| 0 <= i < ids.len() implies (#[trigger] ids[i]) < next_id(ids) by {
            if i < ids.len() - 1 {
                assert(ids[i] == ids.drop_last()[i]);
            }
        }
    }
}

/// Both limits of a price that the buyer decides on must be in Monero, or both
/// in a fiat currency, whatever the amounts are; any other price is allowed.
pub proof fn limits_are_in_one_currency(
    a: CurrencyAmount,
    b: CurrencyAmount,
    min: u64,
    max: u64,
    least: rust_decimal::Decimal,
    most: rust_decimal::Decimal,
)
    ensures
        price_allowed(ItemPrice::NoPrice),
        price_allowed(ItemPrice::FixedAmount(a)),
        price_allowed(
            ItemPrice::PayWhatYouWant {
                min: CurrencyAmount::Monero(min),
                max: CurrencyAmount::Monero(max),
            },
        ),
        price_allowed(
            ItemPrice::PayWhatYouWant {
                min: CurrencyAmount::Fiat(least),
                max: CurrencyAmount::Fiat(most),
            },
        ),
        a is Monero && b is Fiat ==> !price_allowed(ItemPrice::PayWhatYouWant { min: a, max: b })
            && !price_allowed(ItemPrice::PayWhatYouWant { min: b, max: a }),
{
}

/// A captcha is solved by the answer that is stored under the digest, where the
/// digest is hexadecimal, and by no other; what is uploaded does not matter.
pub proof fn captchas_are_solved_by_their_answer(
    req: CreateSoftwareReq,
    captcha: GeneratedCaptcha,
)
    ensures
        !captcha_solved(req, None),
        captcha_solved(req, Some(captcha)) <==> outside::hex::is_hex(
            encode_utf8(req.captcha_hash@),
        ) && req.captcha_answer@ == captcha.answer@,
        captcha_is_hex(req) <==> outside::hex::is_hex(encode_utf8(req.captcha_hash@)),
        captcha_digest(req) == outside::hex::hex_bytes(encode_utf8(req.captcha_hash@)),
{
}

/// Software may be uploaded by a user with a session who has solved a captcha,
/// if it has at most ten million bytes and its price is allowed. Nothing else
/// that is said of it matters.
pub proof fn uploads_that_are_granted(
    req: CreateSoftwareReq,
    other: CreateSoftwareReq,
    captcha: Option<GeneratedCaptcha>,
    authorized: bool,
)
    ensures
        may_upload(req, captcha, authorized) <==> {
            &&& captcha_solved(req, captcha)
            &&& authorized
            &&& req.compressed_size <= 10_000_000
            &&& price_allowed(req.price)
        },
        other.captcha_hash@ == req.captcha_hash@ && other.captcha_answer@ == req.captcha_answer@
            && other.compressed_size == req.compressed_size && other.price == req.price ==> (
        may_upload(other, captcha, authorized) <==> may_upload(req, captcha, authorized)),
{
}

/// A refusal names the first thing that is wrong: the captcha, then the
/// session, then the size, then the price.
pub proof fn refusals_name_the_first_fault(
    denial: DenialResponse,
    req: CreateSoftwareReq,
    captcha: Option<GeneratedCaptcha>,
    authorized: bool,
)
    requires
        !may_upload(req, captcha, authorized),
        is_refusal(denial, req, captcha, authorized),
    ensures
        denial.denial.fault@ == "User"@,
        !captcha_solved(req, captcha) ==> denial.status == 401 && denial.denial.reason@
            == "Incorrect captcha"@ && denial.denial.additional_info@ == ""@,
        captcha_solved(req, captcha) && !authorized ==> denial.status == 401
            && denial.denial.reason@ == "Invalid username or cookie"@
            && denial.denial.additional_info@ == ""@,
        captcha_solved(req, captcha) && authorized && req.compressed_size > 10_000_000
            ==> denial.status == 400 && denial.denial.reason@ == "File is too large"@
            && denial.denial.additional_info@
            == "Please keep your compressed game files under 10 MB"@,
        captcha_solved(req, captcha) && authorized && req.compressed_size <= 10_000_000
            ==> denial.status == 400 && denial.denial.reason@ == "Invalid price"@
            && denial.denial.additional_info@
            == "The minimum and the maximum must be in the same currency"@
            && !price_allowed(req.price),
{
}

/// New software is just what was asked for: it has no files yet, it counts as
/// not uploaded, and the user is told the id of its upload in hexadecimal.
pub proof fn new_software_is_as_asked_for(new: NewSoftware, req: CreateSoftwareReq, id: u64)
    requires
        is_new_software(new, req, id),
    ensures
        new.item.id == id,
        new.item.title@ == req.title@ && new.item.description@ == req.description@,
        new.item.creator@ == req.username@,
        new.item.arch_type == req.arch_type && new.item.compression_type == req.compression_type,
        new.item.compressed_size == req.compressed_size && new.item.price == req.price,
        new.item.files@.dom() == Set::<Seq<u8>>::empty(),
        new.item.creation_time is None,
        new.item.upload_id matches Some(upload_id) && upload_id@ == new.upload_id@,
        new.resp.upload_id@ == outside::hex::lower_hex(new.upload_id@),
{
}

/// The id of an upload is the digest of the random bytes, the title and the
/// user's name, in this order.
pub proof fn upload_ids_are_digests(
    random_bytes: Seq<u8>,
    title: Seq<char>,
    username: Seq<char>,
    hashed: Seq<u8>,
)
    requires
        hashed.len() == random_bytes.len() + encode_utf8(title).len() + encode_utf8(
            username,
        ).len(),
        random_bytes.is_prefix_of(hashed),
        encode_utf8(title).is_prefix_of(hashed.skip(random_bytes.len() as int)),
        encode_utf8(username) == hashed.skip(
            random_bytes.len() as int + encode_utf8(title).len() as int,
        ),
    ensures
        upload_id_of(random_bytes, title, username) == outside::digest::blake3_digest(hashed),
{
    let a = random_bytes.len() as int;
    let b = a + encode_utf8(title).len() as int;
    let rest = hashed.skip(a);
    assert forall|i: int| 0 <= i < hashed.len() implies hashed[i] == (random_bytes + encode_utf8(
        title,
    ) + encode_utf8(username))[i] by {
        if i < a {
            assert(hashed[i] == hashed.take(a)[i]);
        } else if i < b {
            assert(hashed[i] == rest[i - a]);
            assert(rest[i - a] == rest.take(b - a)[i - a]);
        } else {
            assert(hashed[i] == hashed.skip(b)[i - b]);
        }
    }
    assert(hashed =~= random_bytes + encode_utf8(title) + encode_utf8(username));
}

/// The next number is just one more than the greatest that is used.
pub proof fn next_id_follows_the_greatest(ids: Seq<u64>)
    ensures
        ids.len() == 0 ==> next_id(ids) == 0,
        ids.len() > 0 ==> exists|i: int| 0 <= i < ids.len() && (#[trigger] ids[i]) + 1 == next_id(
            ids,
        ),
        forall|i: int| 0 <= i < ids.len() ==> (#[trigger] ids[i]) + 1 <= next_id(ids),
    decreases ids.len(),
{
    next_id_is_free(ids);
    if ids.len() > 0 {
        let shorter = ids.drop_last();
        next_id_follows_the_greatest(shorter);
        if ids.last() + 1 > next_id(shorter) {
            assert(ids[ids.len() - 1] + 1 == next_id(ids));
        } else {
            let k = choose|k: int|
                0 <= k < shorter.len() && (#[trigger] shorter[k]) + 1 == next_id(shorter);
            assert(ids[k] + 1 == next_id(ids));
        }
    }
}

} // verus!
