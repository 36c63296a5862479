//! Downloading software. A client asks for a piece of software; each of its
//! files is sent behind a message that tells its digest, its name and its
//! size.
use vstd::bytes::*;
use vstd::prelude::*;
use vstd::utf8::*;

use crate::auth;
use crate::auth::{verify_auth_cookie, AuthCookie};
use crate::bytes;
use crate::bytes::{copy_range, find_zero, number_at};
use crate::outside::unicode::from_utf8;
use crate::software::files::FileTable;
use crate::software::upload::without_zero;
use crate::software::Item;

verus! {

/// Bytes of the cookie in a request.
pub const COOKIE_BYTES: usize = 50;

/// Bytes of a file that are sent at once.
pub const FILE_BUFFER_LEN: usize = 8192;

/// What a client wants to download. The number is `None` where the message is
/// too short for one.
pub struct WantedSoftware {
    pub username: String,
    pub auth_cookie: String,
    pub software_id: Option<u64>,
}

/// What a message of the client means.
pub enum DownloadRequest {
    /// Close the connection.
    Close,
    /// The message is not what the protocol asks for: drop the connection.
    Broken,
    Wanted(WantedSoftware),
}

/// Where the name ends in a request.
pub open spec fn name_end(msg: Seq<u8>) -> int {
    bytes::zero_from(msg, 0)
}

/// Whether a request can be read: the name, with a zero byte behind it, and
/// fifty bytes of the cookie, both UTF-8.
pub open spec fn request_readable(msg: Seq<u8>) -> bool {
    &&& name_end(msg) < msg.len()
    &&& valid_utf8(msg.subrange(0, name_end(msg)))
    &&& name_end(msg) + 51 <= msg.len()
    &&& valid_utf8(msg.subrange(name_end(msg) + 1, name_end(msg) + 51))
}

/// Whether `wanted` is what the message asks for. The number follows the
/// cookie in eight little-endian bytes, with one byte between them.
pub open spec fn asks_for(msg: Seq<u8>, wanted: WantedSoftware) -> bool {
    &&& wanted.username@ == decode_utf8(msg.subrange(0, name_end(msg)))
    &&& wanted.auth_cookie@ == decode_utf8(
        msg.subrange(name_end(msg) + 1, name_end(msg) + 51),
    )
    &&& wanted.software_id == if name_end(msg) + 60 <= msg.len() {
        Some(spec_u64_from_le_bytes(msg.subrange(name_end(msg) + 52, name_end(msg) + 60)))
    } else {
        None
    }
}

/// Reads a message of a client.
pub fn read_request(msg: &[u8]) -> (res: DownloadRequest)
    ensures
        res is Close <==> msg@.len() == 0,
        res is Broken <==> msg@.len() > 0 && !request_readable(msg@),
        res matches DownloadRequest::Wanted(wanted) ==> asks_for(msg@, wanted),
{
    let len: usize = msg.len();
    if len == 0 {
        return DownloadRequest::Close;
    }
    let end: usize = find_zero(msg, 0);
    if end == len {
        return DownloadRequest::Broken;
    }
    let username = match from_utf8(copy_range(msg, 0, end)) {
        Some(username) => username,
        None => return DownloadRequest::Broken,
    };
    if len - end < COOKIE_BYTES + 1 {
        return DownloadRequest::Broken;
    }
    let auth_cookie = match from_utf8(copy_range(msg, end + 1, end + 1 + COOKIE_BYTES)) {
        Some(auth_cookie) => auth_cookie,
        None => return DownloadRequest::Broken,
    };
    let software_id: Option<u64> = if len - end >= COOKIE_BYTES + 10 {
        Some(number_at(msg, end + COOKIE_BYTES + 2))
    } else {
        None
    };
    DownloadRequest::Wanted(WantedSoftware { username, auth_cookie, software_id })
}

/// Why a session ends.
#[derive(Clone, Copy, Debug, PartialEq, Eq, Structural)]
pub enum DownloadEnd {
    /// The client asked for it.
    Closed,
    /// The cookie is not that of the user.
    InvalidCookie,
    /// There is no such software.
    NotFound,
    /// The message is not what the protocol asks for.
    Broken,
}

/// What is to be done with a message of the client.
pub enum DownloadStep {
    /// Send these files and wait for the next message.
    Send(FileTable),
    /// Send nothing and end the session.
    End(DownloadEnd),
}

/// What is to be done with a message. The software is sent to a user with a
/// session, where there is such software; anything else ends the session.
pub open spec fn step_for(
    request: DownloadRequest,
    stored: Option<AuthCookie>,
    item: Option<Item>,
) -> DownloadStep {
    match request {
        DownloadRequest::Close => DownloadStep::End(DownloadEnd::Closed),
        DownloadRequest::Broken => DownloadStep::End(DownloadEnd::Broken),
        DownloadRequest::Wanted(wanted) => if !auth::cookie_valid(wanted.auth_cookie@, stored) {
            DownloadStep::End(DownloadEnd::InvalidCookie)
        } else if wanted.software_id is None {
            DownloadStep::End(DownloadEnd::Broken)
        } else {
            match item {
                Some(item) => DownloadStep::Send(item.files),
                None => DownloadStep::End(DownloadEnd::NotFound),
            }
        },
    }
}

/// Decides what is to be done with a message. `stored` is the session of the
/// user who asks and `item` the software that they want, where there are such.
pub fn download_software(
    request: &DownloadRequest,
    stored: &Option<AuthCookie>,
    item: Option<Item>,
) -> (res: DownloadStep)
    ensures
        res == step_for(*request, *stored, item),
{
    let wanted = match request {
        DownloadRequest::Close => return DownloadStep::End(DownloadEnd::Closed),
        DownloadRequest::Broken => return DownloadStep::End(DownloadEnd::Broken),
        DownloadRequest::Wanted(wanted) => wanted,
    };
    if !verify_auth_cookie(&wanted.auth_cookie, stored) {
        return DownloadStep::End(DownloadEnd::InvalidCookie);
    }
    if wanted.software_id.is_none() {
        return DownloadStep::End(DownloadEnd::Broken);
    }
    match item {
        Some(item) => DownloadStep::Send(item.files),
        None => DownloadStep::End(DownloadEnd::NotFound),
    }
}

/// A message of a session, with what is known when it comes.
pub struct Asked {
    pub request: DownloadRequest,
    pub stored: Option<AuthCookie>,
    pub item: Option<Item>,
}

/// What is sent in answer to the messages of a session, one entry for each
/// message that is answered: those before the first that ends it.
pub open spec fn session_answers(asked: Seq<Asked>) -> Seq<FileTable>
    decreases asked.len(),
{
    if asked.len() == 0 {
        seq![]
    } else {
        match step_for(asked[0].request, asked[0].stored, asked[0].item) {
            DownloadStep::Send(files) => seq![files] + session_answers(asked.drop_first()),
            DownloadStep::End(_) => seq![],
        }
    }
}

/// Whether a message asks for software that there is, with the cookie of the
/// user's session.
pub open spec fn is_granted(asked: Asked) -> bool {
    &&& asked.request matches DownloadRequest::Wanted(wanted)
    &&& auth::cookie_valid(wanted.auth_cookie@, asked.stored)
    &&& wanted.software_id is Some
    &&& asked.item is Some
}

/// Whether all messages of a session are granted.
pub open spec fn all_granted(asked: Seq<Asked>) -> bool {
    forall|i: int| 0 <= i < asked.len() ==> is_granted(#[trigger] asked[i])
}

/// Messages are answered with the files of the software that they ask for,
/// until the first that is not granted: it gets no answer, and neither does any
/// message after it.
pub proof fn session_ends(granted: Seq<Asked>, other: Asked, rest: Seq<Asked>)
    requires
        all_granted(granted),
        !is_granted(other),
    ensures
        session_answers(granted.push(other) + rest) == granted.map_values(
            |asked: Asked| asked.item->0.files,
        ),
    decreases granted.len(),
{
    let asked = granted.push(other) + rest;
    let answers = granted.map_values(|asked: Asked| asked.item->0.files);
    assert(asked[0] == if granted.len() > 0 {
        granted[0]
    } else {
        other
    });
    if granted.len() == 0 {
        assert(answers =~= seq![]);
    } else {
        let shorter = granted.drop_first();
        assert forall|i: int| 0 <= i < shorter.len() implies is_granted(#[trigger] shorter[i]) by {
            assert(shorter[i] == granted[i + 1]);
        }
        session_ends(shorter, other, rest);
        assert(is_granted(granted[0]));
        assert(asked.drop_first() =~= shorter.push(other) + rest);
        assert(answers =~= seq![granted[0].item->0.files] + shorter.map_values(
            |asked: Asked| asked.item->0.files,
        ));
    }
}

/// The message that is sent before a file: its digest, its name, a zero byte
/// and its size in eight little-endian bytes.
pub open spec fn header_of(file_hash: Seq<u8>, file_name: Seq<char>, file_size: u64) -> Seq<u8> {
    file_hash + encode_utf8(file_name) + seq![0u8] + spec_u64_to_le_bytes(file_size)
}

/// Writes the message that is sent before a file.
pub fn file_header(file_hash: &[u8; 32], file_name: &String, file_size: u64) -> (msg: Vec<u8>)
    ensures
        msg@ == header_of(file_hash@, file_name@, file_size),
{
    let mut msg: Vec<u8> = Vec::new();
    msg.extend_from_slice(file_hash.as_slice());
    msg.extend_from_slice(file_name.as_str().as_bytes());
    msg.push(0);
    let size: Vec<u8> = u64_to_le_bytes(file_size);
    msg.extend_from_slice(size.as_slice());
    assert(msg@ =~= header_of(file_hash@, file_name@, file_size));
    msg
}

/// A client finds in the message before a file its digest, its name and its
/// size: the digest in the first 32 bytes, the name up to the next zero byte,
/// and the size behind it.
pub proof fn header_is_read_back(file_hash: Seq<u8>, file_name: Seq<char>, file_size: u64)
    requires
        file_hash.len() == 32,
        without_zero(file_name),
    ensures
        ({
            let msg = header_of(file_hash, file_name, file_size);
            let end = bytes::zero_from(msg, 32);
            &&& msg.subrange(0, 32) == file_hash
            &&& 32 <= end && end + 9 == msg.len()
            &&& valid_utf8(msg.subrange(32, end))
            &&& decode_utf8(msg.subrange(32, end)) == file_name
            &&& spec_u64_from_le_bytes(msg.subrange(end + 1, end + 9)) == file_size
        }),
{
    let msg = header_of(file_hash, file_name, file_size);
    let name = encode_utf8(file_name);
    let end = 32 + name.len() as int;
    lemma_auto_spec_u64_to_from_le_bytes();
    assert(msg.len() == end + 9);
    assert forall|i: int| 32 <= i < end implies #[trigger] msg[i] != 0 by {
        assert(msg[i] == name[i - 32]);
    }
    assert(msg[end] == 0);
    bytes::lemma_zero_at(msg, 32, end);
    assert(msg.subrange(0, 32) =~= file_hash);
    assert(msg.subrange(32, end) =~= name);
    assert(msg.subrange(end + 1, end + 9) =~= spec_u64_to_le_bytes(file_size));
    encode_utf8_valid_utf8(file_name);
    encode_utf8_decode_utf8(file_name);
}

/// The message by which a client asks for software. Nothing is read from the
/// byte between the cookie and the number.
pub open spec fn request_message(
    username: Seq<char>,
    auth_cookie: Seq<char>,
    between: u8,
    software_id: u64,
) -> Seq<u8> {
    encode_utf8(username) + seq![0u8] + encode_utf8(auth_cookie) + seq![between]
        + spec_u64_to_le_bytes(software_id)
}

/// What a client asks for is read as it was asked.
pub proof fn request_is_read_back(
    username: Seq<char>,
    auth_cookie: Seq<char>,
    between: u8,
    software_id: u64,
    wanted: WantedSoftware,
)
    requires
        without_zero(username),
        encode_utf8(auth_cookie).len() == COOKIE_BYTES,
    ensures
        request_readable(request_message(username, auth_cookie, between, software_id)),
        asks_for(request_message(username, auth_cookie, between, software_id), wanted) <==> {
            &&& wanted.username@ == username
            &&& wanted.auth_cookie@ == auth_cookie
            &&& wanted.software_id == Some(software_id)
        },
{
    let msg = request_message(username, auth_cookie, between, software_id);
    let name = encode_utf8(username);
    let end = name.len() as int;
    lemma_auto_spec_u64_to_from_le_bytes();
    assert(msg.len() == end + 60);
    assert forall|i: int| 0 <= i < end implies #[trigger] msg[i] != 0 by {
        assert(msg[i] == name[i]);
    }
    assert(msg[end] == 0);
    bytes::lemma_zero_at(msg, 0, end);
    assert(msg.subrange(0, end) =~= name);
    assert(msg.subrange(end + 1, end + 51) =~= encode_utf8(auth_cookie));
    assert(msg.subrange(end + 52, end + 60) =~= spec_u64_to_le_bytes(software_id));
    encode_utf8_valid_utf8(username);
    encode_utf8_decode_utf8(username);
    encode_utf8_valid_utf8(auth_cookie);
    encode_utf8_decode_utf8(auth_cookie);
}

/// Why a session ends: the client asked for it, the message breaks the
/// protocol, the cookie is not the one that is stored, or there is no such
/// software. Whoever has a session gets the files of software that there is.
pub proof fn why_sessions_end(
    wanted: WantedSoftware,
    stored: Option<AuthCookie>,
    item: Option<Item>,
)
    ensures
        step_for(DownloadRequest::Close, stored, item) == DownloadStep::End(DownloadEnd::Closed),
        step_for(DownloadRequest::Broken, stored, item) == DownloadStep::End(DownloadEnd::Broken),
        stored is None || stored->0.cookie@ != wanted.auth_cookie@ ==> step_for(
            DownloadRequest::Wanted(wanted),
            stored,
            item,
        ) == DownloadStep::End(DownloadEnd::InvalidCookie),
        stored is Some && stored->0.cookie@ == wanted.auth_cookie@ ==> {
            &&& wanted.software_id is None ==> step_for(
                DownloadRequest::Wanted(wanted),
                stored,
                item,
            ) == DownloadStep::End(DownloadEnd::Broken)
            &&& wanted.software_id is Some && item is None ==> step_for(
                DownloadRequest::Wanted(wanted),
                stored,
                item,
            ) == DownloadStep::End(DownloadEnd::NotFound)
            &&& wanted.software_id is Some && item is Some ==> step_for(
                DownloadRequest::Wanted(wanted),
                stored,
                item,
            ) == DownloadStep::Send(item->0.files)
        },
{
}

/// What a request must hold: a name with a zero byte behind it and fifty bytes
/// of a cookie, both UTF-8. A number is read only where the message reaches to
/// its end; what follows is never read.
pub proof fn requests_that_are_read(
    name: Seq<u8>,
    cookie: Seq<u8>,
    rest: Seq<u8>,
    wanted: WantedSoftware,
)
    requires
        forall|i: int| 0 <= i < name.len() ==> #[trigger] name[i] != 0,
    ensures
        !request_readable(name),
        cookie.len() < 50 ==> !request_readable(name + seq![0u8] + cookie),
        cookie.len() == 50 ==> {
            let msg = name + seq![0u8] + cookie + rest;
            &&& request_readable(msg) <==> valid_utf8(name) && valid_utf8(cookie)
            &&& asks_for(msg, wanted) ==> wanted.username@ == decode_utf8(name)
                && wanted.auth_cookie@ == decode_utf8(cookie)
            &&& asks_for(msg, wanted) ==> wanted.software_id == if rest.len() >= 9 {
                Some(spec_u64_from_le_bytes(rest.subrange(1, 9)))
            } else {
                None
            }
        },
{
    let end = name.len() as int;
    bytes::lemma_zero_at(name, 0, end);
    let short = name + seq![0u8] + cookie;
    assert forall|i: int| 0 <= i < end implies #[trigger] short[i] != 0 by {
        assert(short[i] == name[i]);
    }
    assert(short[end] == 0);
    bytes::lemma_zero_at(short, 0, end);
    let msg = name + seq![0u8] + cookie + rest;
    assert forall|i: int| 0 <= i < end implies #[trigger] msg[i] != 0 by {
        assert(msg[i] == name[i]);
    }
    assert(msg[end] == 0);
    bytes::lemma_zero_at(msg, 0, end);
    if cookie.len() == 50 {
        assert(msg.subrange(0, end) =~= name);
        assert(msg.subrange(end + 1, end + 51) =~= cookie);
        if rest.len() >= 9 {
            assert(msg.subrange(end + 52, end + 60) =~= rest.subrange(1, 9));
        }
    }
}

/// Files are sent in pieces of 8192 bytes, and a cookie has fifty.
pub proof fn sizes_of_a_download()
    ensures
        FILE_BUFFER_LEN == 8192,
        COOKIE_BYTES == 50,
{
}

} // verus!
