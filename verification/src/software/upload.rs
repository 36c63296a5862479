//! Uploading software. A client first claims an upload, then sends the chunks
//! of its files, each behind a message that announces it.
use vstd::bytes::*;
use vstd::prelude::*;
use vstd::slice::{slice_subrange, slice_to_vec};
use vstd::utf8::*;

use crate::auth;
use crate::auth::{verify_auth_cookie, AuthCookie};
use crate::bytes;
use crate::bytes::{copy_range, digest_at, find_zero, number_at, same_digest};
use crate::outside;
use crate::outside::digest::blake3_hash;
use crate::outside::filetype::is_file_type;
use crate::outside::unicode::{from_utf8, from_utf8_lossy};
use crate::software::files::{distinct_hashes, FileTable, StoredFile};
use crate::software::{CompressionType, Item};

verus! {

/// The smaller of two numbers.
pub open spec fn min(a: int, b: int) -> int {
    if a <= b {
        a
    } else {
        b
    }
}

/// Up to 32 bytes, filled up with zeros.
pub open spec fn padded(bytes: Seq<u8>) -> Seq<u8> {
    Seq::new(
        32,
        |i: int|
            if i < bytes.len() {
                bytes[i]
            } else {
                0u8
            },
    )
}

/// Where the name of the first file ends: at its zero byte, or at the end.
pub open spec fn name_end(bytes: Seq<u8>) -> int {
    bytes::zero_from(bytes, min(32, bytes.len() as int))
}

/// The digest of the first file: the first 32 bytes, filled up with zeros
/// where there are fewer.
pub open spec fn first_hash(bytes: Seq<u8>) -> Seq<u8> {
    padded(bytes.take(min(32, bytes.len() as int)))
}

/// The text of a name: UTF-8 as it is, anything else as well as it can be read.
pub open spec fn name_text(name: Seq<u8>) -> Seq<char> {
    if valid_utf8(name) {
        decode_utf8(name)
    } else {
        outside::unicode::utf8_lossy(name)
    }
}

/// The name of the first file: what stands between the digest and the next
/// zero byte.
pub open spec fn first_name(bytes: Seq<u8>) -> Seq<char> {
    name_text(bytes.subrange(min(32, bytes.len() as int), name_end(bytes)))
}

/// What is left behind the first file.
pub open spec fn behind_first(bytes: Seq<u8>) -> Seq<u8> {
    if name_end(bytes) < bytes.len() {
        bytes.skip(name_end(bytes) + 1)
    } else {
        seq![]
    }
}

/// The files that a list announces, added to those in `known`. Where a digest
/// comes twice, the later name counts.
pub open spec fn files_listed(bytes: Seq<u8>, known: Map<Seq<u8>, Seq<char>>) -> Map<
    Seq<u8>,
    Seq<char>,
>
    decreases bytes.len(),
{
    if bytes.len() == 0 {
        known
    } else {
        proof {
            bytes::first_zero_is_first(bytes, min(32, bytes.len() as int));
        }
        files_listed(behind_first(bytes), known.insert(first_hash(bytes), first_name(bytes)))
    }
}

/// Reads the list of files that begins at `from`.
fn read_files(bytes: &[u8], from: usize) -> (res: FileTable)
    requires
        from <= bytes@.len(),
    ensures
        res@ == files_listed(bytes@.skip(from as int), Map::empty()),
{
    let mut files = FileTable::new();
    let mut at: usize = from;
    let len: usize = bytes.len();
    let ghost wanted = files_listed(bytes@.skip(from as int), Map::empty());
    while at < len
        invariant
            at <= len,
            len == bytes@.len(),
            files_listed(bytes@.skip(at as int), files@) == wanted,
        decreases len - at,
    {
        let ghost rest = bytes@.skip(at as int);
        let name_start: usize = if len - at < 32 {
            len
        } else {
            at + 32
        };
        let mut hash: [u8; 32] = [0u8; 32];
        let mut i: usize = 0;
        while i < name_start - at
            invariant
                at + i <= name_start <= len,
                name_start - at <= 32,
                len == bytes@.len(),
                forall|j: int| 0 <= j < i ==> hash@[j] == bytes@[at + j],
                forall|j: int| i <= j < 32 ==> hash@[j] == 0,
            decreases name_start - at - i,
        {
            hash[i] = bytes[at + i];
            i += 1;
        }
        let end: usize = find_zero(bytes, name_start);
        let name: String = from_utf8_lossy(slice_subrange(bytes, name_start, end));
        proof {
            assert(hash@ =~= first_hash(rest));
            bytes::first_zero_is_first(bytes@, name_start as int);
            assert forall|i: int| name_start - at <= i < end - at implies #[trigger] rest[i] != 0 by {
                assert(bytes@[at + i] != 0);
            }
            bytes::lemma_zero_at(rest, name_start - at, end - at);
            assert(rest.subrange(name_start - at, end - at) =~= bytes@.subrange(
                name_start as int,
                end as int,
            ));
            assert(first_name(rest) == name@);
            if end < len {
                assert(behind_first(rest) =~= bytes@.skip(end + 1));
            } else {
                assert(behind_first(rest) =~= bytes@.skip(len as int));
            }
        }
        files.insert(hash, name);
        at = if end < len {
            end + 1
        } else {
            len
        };
    }
    assert(bytes@.skip(len as int) =~= seq![]);
    files
}

/// What a client claims when it begins an upload. What stands behind the
/// cookie is `None` where the message is too short for an upload id.
pub struct UploadClaim {
    pub num_chunks: u64,
    pub username: String,
    pub auth_cookie: String,
    pub upload: Option<ClaimedUpload>,
}

/// The upload that a client claims, and its files.
pub struct ClaimedUpload {
    pub upload_id: [u8; 32],
    pub files: FileTable,
}

/// Why a connection ends.
#[derive(Clone, Copy, Debug, PartialEq, Eq, Structural)]
pub enum UploadEnd {
    /// The name is no UTF-8.
    InvalidUsername,
    /// The cookie is no UTF-8.
    InvalidCookieText,
    /// The cookie is not that of the user.
    InvalidCookie,
    /// There is no such upload.
    UnknownUploadId,
    /// The message is not what the protocol asks for.
    Broken,
}

/// Where the name ends in the message that claims an upload.
pub open spec fn username_end(msg: Seq<u8>) -> int {
    bytes::zero_from(msg, 8)
}

/// Where the cookie ends in the message that claims an upload.
pub open spec fn cookie_end(msg: Seq<u8>) -> int {
    bytes::zero_from(msg, username_end(msg) + 1)
}

/// Why a claim cannot be read, if it cannot.
pub open spec fn claim_fault(msg: Seq<u8>) -> Option<UploadEnd> {
    if msg.len() < 8 || username_end(msg) == msg.len() {
        Some(UploadEnd::Broken)
    } else if !valid_utf8(msg.subrange(8, username_end(msg))) {
        Some(UploadEnd::InvalidUsername)
    } else if cookie_end(msg) == msg.len() {
        Some(UploadEnd::Broken)
    } else if !valid_utf8(msg.subrange(username_end(msg) + 1, cookie_end(msg))) {
        Some(UploadEnd::InvalidCookieText)
    } else {
        None
    }
}

/// Whether `claim` is what the message claims.
pub open spec fn claims(msg: Seq<u8>, claim: UploadClaim) -> bool {
    &&& claim.num_chunks == spec_u64_from_le_bytes(msg.subrange(0, 8))
    &&& claim.username@ == decode_utf8(msg.subrange(8, username_end(msg)))
    &&& claim.auth_cookie@ == decode_utf8(msg.subrange(username_end(msg) + 1, cookie_end(msg)))
    &&& if cookie_end(msg) + 33 <= msg.len() {
        &&& claim.upload matches Some(upload)
        &&& upload.upload_id@ == msg.subrange(cookie_end(msg) + 1, cookie_end(msg) + 33)
        &&& upload.files@ == files_listed(msg.skip(cookie_end(msg) + 33), Map::empty())
    } else {
        claim.upload is None
    }
}

/// Reads the message that claims an upload: the number of chunks in eight
/// little-endian bytes, the name and the cookie, each with a zero byte behind
/// it, the upload id in 32 bytes, and the files.
pub fn read_claim(msg: &[u8]) -> (res: Result<UploadClaim, UploadEnd>)
    ensures
        res is Ok <==> claim_fault(msg@) is None,
        res matches Ok(claim) ==> claims(msg@, claim),
        res matches Err(end) ==> claim_fault(msg@) == Some(end),
{
    let len: usize = msg.len();
    if len < 8 {
        return Err(UploadEnd::Broken);
    }
    let num_chunks: u64 = number_at(msg, 0);
    let username_end: usize = find_zero(msg, 8);
    if username_end == len {
        return Err(UploadEnd::Broken);
    }
    let username = match from_utf8(copy_range(msg, 8, username_end)) {
        Some(username) => username,
        None => return Err(UploadEnd::InvalidUsername),
    };
    let cookie_end: usize = find_zero(msg, username_end + 1);
    if cookie_end == len {
        return Err(UploadEnd::Broken);
    }
    let auth_cookie = match from_utf8(copy_range(msg, username_end + 1, cookie_end)) {
        Some(auth_cookie) => auth_cookie,
        None => return Err(UploadEnd::InvalidCookieText),
    };
    let upload = if len - cookie_end >= 33 {
        Some(
            ClaimedUpload {
                upload_id: digest_at(msg, cookie_end + 1),
                files: read_files(msg, cookie_end + 33),
            },
        )
    } else {
        None
    };
    Ok(UploadClaim { num_chunks, username, auth_cookie, upload })
}

/// Bytes that fit the buffer that a chunk is gathered in.
pub const CHUNK_BUFFER_LEN: usize = 65535;

/// The most bytes that a chunk may have.
pub const MAX_CHUNK_LEN: u64 = 8192;

/// The most chunks that an upload may have.
pub const MAX_NUM_CHUNKS: u64 = 1280;

/// The most bytes that an upload may have: as many as its chunks.
pub const MAX_UPLOAD_LEN: u64 = 10_485_760;

/// An upload that was claimed.
pub struct SoftwareInfo {
    pub username: String,
    pub auth_cookie: String,
    pub upload_id: [u8; 32],
    pub num_chunks: u64,
    pub files: FileTable,
}

/// A chunk that was announced.
pub struct ChunkInfo {
    pub len: u64,
    pub file: [u8; 32],
}

/// An upload on its way.
pub struct Upload {
    pub software_info: SoftwareInfo,
    /// How the files of the software are compressed.
    pub compression_type: CompressionType,
    /// Chunks that have come.
    pub num_chunks: u64,
    /// Bytes of the chunks that have come.
    pub bytes_stored: u64,
    /// Bytes of the announced chunk that have come.
    pub amt_written_to_buffer: usize,
    pub chunk_info: Option<ChunkInfo>,
    /// The files of which a chunk has come.
    pub file_hashes_seen: Vec<[u8; 32]>,
}

/// How far an upload has come.
#[verifier::ext_equal]
pub struct Progress {
    /// How the files of the software are compressed.
    pub compression: CompressionType,
    /// Chunks that the client has claimed to send.
    pub total: u64,
    /// Chunks that have come.
    pub chunks: u64,
    /// Bytes of the chunks that have come.
    pub bytes: nat,
    /// Bytes of the announced chunk that have come.
    pub written: nat,
    /// The announced chunk: its length and its file.
    pub chunk: Option<(u64, Seq<u8>)>,
    /// The files of which a chunk has come.
    pub seen: Seq<Seq<u8>>,
}

impl View for Upload {
    type V = Progress;

    open spec fn view(&self) -> Progress {
        Progress {
            compression: self.compression_type,
            total: self.software_info.num_chunks,
            chunks: self.num_chunks,
            bytes: self.bytes_stored as nat,
            written: self.amt_written_to_buffer as nat,
            chunk: match self.chunk_info {
                Some(info) => Some((info.len, info.file@)),
                None => None,
            },
            seen: self.file_hashes_seen@.map_values(|hash: [u8; 32]| hash@),
        }
    }
}

impl Progress {
    /// What holds at every moment of an upload: no more chunks have come than
    /// were claimed, no more were claimed than an upload may have, no chunk is
    /// longer than a chunk may be, and bytes wait only for a chunk that was
    /// announced.
    pub open spec fn sound(self) -> bool {
        &&& self.chunks <= self.total <= MAX_NUM_CHUNKS
        &&& self.bytes <= MAX_CHUNK_LEN * self.chunks
        &&& self.chunk matches Some(chunk) ==> chunk.0 <= MAX_CHUNK_LEN
        &&& self.chunk is None ==> self.written == 0
    }

    /// How far an upload has come that has just begun.
    pub open spec fn start(total: u64, compression: CompressionType) -> Progress {
        Progress {
            compression,
            total,
            chunks: 0,
            bytes: 0,
            written: 0,
            chunk: None,
            seen: seq![],
        }
    }
}

/// What is to be done after a message.
pub enum UploadStep {
    /// Wait for the next message.
    Wait,
    /// Append the data to the file and wait for the next message.
    Store { file: [u8; 32], data: Vec<u8> },
    /// Append the data to the file, remove the file, for it should begin as a
    /// Zstandard file does and does not, and drop the connection.
    Reject { file: [u8; 32], data: Vec<u8> },
    /// All chunks have come: check the files, publish the software and close
    /// the connection.
    Finish,
    /// The message is not what the protocol asks for: drop the connection.
    Break,
}

/// The same, with bytes as sequences.
pub enum Action {
    Wait,
    Store { file: Seq<u8>, data: Seq<u8> },
    Reject { file: Seq<u8>, data: Seq<u8> },
    Finish,
    Break,
}

impl View for UploadStep {
    type V = Action;

    open spec fn view(&self) -> Action {
        match self {
            UploadStep::Wait => Action::Wait,
            UploadStep::Store { file, data } => Action::Store { file: file@, data: data@ },
            UploadStep::Reject { file, data } => Action::Reject { file: file@, data: data@ },
            UploadStep::Finish => Action::Finish,
            UploadStep::Break => Action::Break,
        }
    }
}

/// The chunk that a message announces: its length in eight little-endian bytes
/// and the digest of its file.
pub open spec fn announced(msg: Seq<u8>) -> (u64, Seq<u8>) {
    (spec_u64_from_le_bytes(msg.subrange(0, 8)), msg.subrange(8, 40))
}

/// Whether a file that is compressed in this way may begin with the data. A
/// Zstandard file begins with its magic number; a Brotli file has none.
pub open spec fn may_begin(data: Seq<u8>, compression: CompressionType) -> bool {
    compression is Zstd ==> outside::filetype::zstd_magic(data)
}

/// What is to be done after a message. Once all chunks have come, any message
/// ends the upload. No chunk may be announced as longer than a chunk may be.
/// Its data must come in one message, which may be preceded by empty ones; the
/// first chunk of each file must begin as the compression asks for.
pub open spec fn action_after(progress: Progress, msg: Seq<u8>) -> Action {
    if progress.chunks == progress.total {
        Action::Finish
    } else {
        match progress.chunk {
            None => if msg.len() < 40 || announced(msg).0 > MAX_CHUNK_LEN {
                Action::Break
            } else {
                Action::Wait
            },
            Some(chunk) => if progress.written != 0 || msg.len() > CHUNK_BUFFER_LEN {
                Action::Break
            } else if msg.len() != chunk.0 {
                Action::Wait
            } else if progress.seen.contains(chunk.1) || may_begin(msg, progress.compression) {
                Action::Store { file: chunk.1, data: msg }
            } else {
                Action::Reject { file: chunk.1, data: msg }
            },
        }
    }
}

/// How far an upload has come after a message.
pub open spec fn progress_after(progress: Progress, msg: Seq<u8>) -> Progress {
    match action_after(progress, msg) {
        Action::Wait => match progress.chunk {
            None => Progress { chunk: Some(announced(msg)), ..progress },
            Some(_) => Progress { written: msg.len(), ..progress },
        },
        Action::Store { file, data } => Progress {
            chunks: (progress.chunks + 1) as u64,
            bytes: progress.bytes + data.len(),
            written: 0,
            chunk: None,
            seen: if progress.seen.contains(file) {
                progress.seen
            } else {
                progress.seen.push(file)
            },
            ..progress
        },
        _ => progress,
    }
}

/// Whether a digest is in a list.
fn is_listed(list: &Vec<[u8; 32]>, hash: &[u8; 32]) -> (res: bool)
    ensures
        res == list@.map_values(|hash: [u8; 32]| hash@).contains(hash@),
{
    let ghost views = list@.map_values(|hash: [u8; 32]| hash@);
    let mut i: usize = 0;
    while i < list.len()
        invariant
            i <= list@.len(),
            views == list@.map_values(|hash: [u8; 32]| hash@),
            forall|j: int| 0 <= j < i ==> #[trigger] views[j] != hash@,
        decreases list@.len() - i,
    {
        assert(views[i as int] == list@[i as int]@);
        if same_digest(&list[i], hash) {
            return true;
        }
        i += 1;
    }
    false
}

impl Upload {
    /// Begins an upload, unless the cookie is not the user's, the message was
    /// too short for an upload id, there is no such upload or it has too many
    /// chunks. `compression_type` is that of the software that is stored under
    /// the upload id, if there is any.
    pub fn begin(
        claim: UploadClaim,
        stored: &Option<AuthCookie>,
        compression_type: Option<CompressionType>,
    ) -> (res: Result<Upload, UploadEnd>)
        ensures
            ({
                if !auth::cookie_valid(claim.auth_cookie@, *stored) {
                    res == Result::<Upload, UploadEnd>::Err(UploadEnd::InvalidCookie)
                } else if claim.upload is None {
                    res == Result::<Upload, UploadEnd>::Err(UploadEnd::Broken)
                } else if compression_type is None {
                    res == Result::<Upload, UploadEnd>::Err(UploadEnd::UnknownUploadId)
                } else if claim.num_chunks > MAX_NUM_CHUNKS {
                    res == Result::<Upload, UploadEnd>::Err(UploadEnd::Broken)
                } else {
                    &&& res matches Ok(upload)
                    &&& upload.software_info == (SoftwareInfo {
                        username: claim.username,
                        auth_cookie: claim.auth_cookie,
                        upload_id: claim.upload->0.upload_id,
                        num_chunks: claim.num_chunks,
                        files: claim.upload->0.files,
                    })
                    &&& upload@ == Progress::start(claim.num_chunks, compression_type->0)
                    &&& upload@.sound()
                }
            }),
            res is Ok <==> may_claim(claim, *stored, compression_type),
    {
        if !verify_auth_cookie(&claim.auth_cookie, stored) {
            return Err(UploadEnd::InvalidCookie);
        }
        let upload = match claim.upload {
            Some(upload) => upload,
            None => return Err(UploadEnd::Broken),
        };
        let compression_type = match compression_type {
            Some(compression_type) => compression_type,
            None => return Err(UploadEnd::UnknownUploadId),
        };
        if claim.num_chunks > MAX_NUM_CHUNKS {
            return Err(UploadEnd::Broken);
        }
        let upload = Upload {
            software_info: SoftwareInfo {
                username: claim.username,
                auth_cookie: claim.auth_cookie,
                upload_id: upload.upload_id,
                num_chunks: claim.num_chunks,
                files: upload.files,
            },
            compression_type,
            num_chunks: 0,
            bytes_stored: 0,
            amt_written_to_buffer: 0,
            chunk_info: None,
            file_hashes_seen: Vec::new(),
        };
        assert(upload@ =~= Progress::start(claim.num_chunks, compression_type));
        Ok(upload)
    }
}

/// Takes a message and says what is to be done.
pub fn upload_software(upload: &mut Upload, msg: &[u8]) -> (step: UploadStep)
    requires
        old(upload)@.sound(),
    ensures
        step@ == action_after(old(upload)@, msg@),
        final(upload)@ == progress_after(old(upload)@, msg@),
        final(upload)@.sound(),
        final(upload).software_info == old(upload).software_info,
{
    if upload.num_chunks == upload.software_info.num_chunks {
        return UploadStep::Finish;
    }
    let len: usize = msg.len();
    match &upload.chunk_info {
        None => {
            if len < 40 || number_at(msg, 0) > MAX_CHUNK_LEN {
                return UploadStep::Break;
            }
            upload.chunk_info = Some(
                ChunkInfo { len: number_at(msg, 0), file: digest_at(msg, 8) },
            );
            UploadStep::Wait
        },
        Some(chunk) => {
            if upload.amt_written_to_buffer != 0 || len > CHUNK_BUFFER_LEN {
                return UploadStep::Break;
            }
            if len as u64 != chunk.len {
                upload.amt_written_to_buffer = len;
                return UploadStep::Wait;
            }
            let file: [u8; 32] = chunk.file;
            let seen: bool = is_listed(&upload.file_hashes_seen, &file);
            let data: Vec<u8> = slice_to_vec(msg);
            let zstd: bool = match upload.compression_type {
                CompressionType::Zstd => true,
                CompressionType::Brotli => false,
            };
            if !seen && zstd && !is_file_type(data.as_slice(), "zst") {
                return UploadStep::Reject { file, data };
            }
            if !seen {
                upload.file_hashes_seen.push(file);
                assert(upload@.seen =~= old(upload)@.seen.push(file@));
            }
            upload.amt_written_to_buffer = 0;
            upload.chunk_info = None;
            upload.num_chunks += 1;
            upload.bytes_stored += len as u64;
            UploadStep::Store { file, data }
        },
    }
}

/// Whether a file is whole: its contents have the digest that was claimed.
pub fn file_is_whole(hash: &[u8; 32], contents: &[u8]) -> (res: bool)
    ensures
        res == (outside::digest::blake3_digest(contents@) == hash@),
{
    same_digest(&blake3_hash(contents), hash)
}

/// Whether the contents of every listed file have the digest that was claimed.
pub open spec fn all_whole(files: Seq<StoredFile>, contents: Seq<Vec<u8>>) -> bool {
    forall|i: int| 0 <= i < files.len() ==> #[trigger] is_whole(files, contents, i)
}

/// Whether the contents of the file at `i` have the digest that was claimed.
pub open spec fn is_whole(files: Seq<StoredFile>, contents: Seq<Vec<u8>>, i: int) -> bool {
    outside::digest::blake3_digest(contents[i]@) == files[i].hash@
}

/// The bytes of some contents together.
pub open spec fn contents_len(contents: Seq<Vec<u8>>) -> nat
    decreases contents.len(),
{
    if contents.len() == 0 {
        0
    } else {
        contents_len(contents.drop_last()) + contents.last()@.len()
    }
}

/// Whether the upload of an item has exactly the size that was stated for it:
/// so many bytes were sent, and so many are in its files.
pub open spec fn size_as_stated(item: Item, progress: Progress, contents: Seq<Vec<u8>>) -> bool {
    &&& progress.bytes == item.compressed_size
    &&& contents_len(contents) == item.compressed_size
}

/// Why the software of an upload is not published.
#[derive(Clone, Copy, Debug, PartialEq, Eq, Structural)]
pub enum FinishFault {
    /// Not all chunks have come yet.
    Incomplete,
    /// The contents of this file have another digest: remove the file and drop
    /// the connection.
    Corrupt(usize),
    /// The upload has another size than was stated: remove its files and drop
    /// the connection.
    WrongSize,
}

/// Finds the first file whose contents have another digest.
fn find_corrupt(files: &Vec<StoredFile>, contents: &Vec<Vec<u8>>) -> (res: Option<usize>)
    requires
        contents@.len() == files@.len(),
    ensures
        res is None <==> all_whole(files@, contents@),
        res matches Some(k) ==> k < files@.len() && !is_whole(files@, contents@, k as int)
            && forall|i: int| 0 <= i < k ==> #[trigger] is_whole(files@, contents@, i),
{
    let mut i: usize = 0;
    while i < files.len()
        invariant
            i <= files@.len(),
            contents@.len() == files@.len(),
            forall|j: int| 0 <= j < i ==> #[trigger] is_whole(files@, contents@, j),
        decreases files@.len() - i,
    {
        if !file_is_whole(&files[i].hash, contents[i].as_slice()) {
            assert(!is_whole(files@, contents@, i as int));
            return Some(i);
        }
        i += 1;
    }
    None
}

/// The first contents are no longer than all of them.
proof fn lemma_contents_grow(contents: Seq<Vec<u8>>, n: int)
    requires
        0 <= n <= contents.len(),
    ensures
        contents_len(contents.take(n)) <= contents_len(contents),
    decreases contents.len() - n,
{
    if n == contents.len() {
        assert(contents.take(n) =~= contents);
    } else {
        lemma_contents_grow(contents, n + 1);
        assert(contents.take(n + 1).drop_last() =~= contents.take(n));
    }
}

/// Decides whether some contents have the given length together.
fn has_len(contents: &Vec<Vec<u8>>, len: u64) -> (res: bool)
    ensures
        res == (contents_len(contents@) == len),
{
    let mut left: u64 = len;
    let mut i: usize = 0;
    while i < contents.len()
        invariant
            i <= contents@.len(),
            left == len - contents_len(contents@.take(i as int)),
        decreases contents@.len() - i,
    {
        proof {
            lemma_contents_grow(contents@, i + 1);
            assert(contents@.take(i + 1).drop_last() =~= contents@.take(i as int));
        }
        let next: u64 = contents[i].len() as u64;
        if next > left {
            return false;
        }
        left -= next;
        i += 1;
    }
    assert(contents@.take(contents@.len() as int) =~= contents@);
    left == 0
}

/// Whether the software of an upload is published: all chunks have come, every
/// file is whole, and the upload has exactly the size that was stated.
/// `contents` are what the files hold, in the order in which they are listed.
pub open spec fn publishable(item: Item, upload: Upload, contents: Seq<Vec<u8>>) -> bool {
    &&& upload@.chunks == upload@.total
    &&& all_whole(upload.software_info.files.list(), contents)
    &&& size_as_stated(item, upload@, contents)
}

/// Finishes an upload: the software as it is to be stored at the time `now`,
/// or why it is not published. `contents` are what the files hold, in the
/// order in which they are listed.
pub fn finish_upload(
    item: Item,
    upload: Upload,
    contents: &Vec<Vec<u8>>,
    now: u64,
) -> (res: Result<Item, FinishFault>)
    requires
        contents@.len() == upload.software_info.files.list().len(),
    ensures
        res is Ok <==> publishable(item, upload, contents@),
        res matches Ok(new) ==> new == (Item {
            files: upload.software_info.files,
            creation_time: Some(now),
            ..item
        }),
        res matches Ok(new) ==> is_published(new, item, upload, now),
        res matches Err(fault) ==> match fault {
            FinishFault::Incomplete => upload@.chunks != upload@.total,
            FinishFault::Corrupt(k) => {
                &&& upload@.chunks == upload@.total
                &&& k < contents@.len()
                &&& !is_whole(upload.software_info.files.list(), contents@, k as int)
                &&& forall|i: int|
                    0 <= i < k ==> #[trigger] is_whole(
                        upload.software_info.files.list(),
                        contents@,
                        i,
                    )
            },
            FinishFault::WrongSize => {
                &&& upload@.chunks == upload@.total
                &&& all_whole(upload.software_info.files.list(), contents@)
                &&& !size_as_stated(item, upload@, contents@)
            },
        },
{
    if upload.num_chunks != upload.software_info.num_chunks {
        return Err(FinishFault::Incomplete);
    }
    if let Some(k) = find_corrupt(upload.software_info.files.files(), contents) {
        return Err(FinishFault::Corrupt(k));
    }
    if upload.bytes_stored != item.compressed_size || !has_len(contents, item.compressed_size) {
        return Err(FinishFault::WrongSize);
    }
    Ok(Item { files: upload.software_info.files, creation_time: Some(now), ..item })
}

/// A chunk: the digest of its file and its data.
pub type Chunk = (Seq<u8>, Seq<u8>);

/// How far an upload has come after some messages.
pub open spec fn progress_after_all(progress: Progress, msgs: Seq<Seq<u8>>) -> Progress
    decreases msgs.len(),
{
    if msgs.len() == 0 {
        progress
    } else {
        progress_after(progress_after_all(progress, msgs.drop_last()), msgs.last())
    }
}

/// The chunks that were stored in the course of some messages.
pub open spec fn stored_chunks(progress: Progress, msgs: Seq<Seq<u8>>) -> Seq<Chunk>
    decreases msgs.len(),
{
    if msgs.len() == 0 {
        seq![]
    } else {
        let before = stored_chunks(progress, msgs.drop_last());
        match action_after(progress_after_all(progress, msgs.drop_last()), msgs.last()) {
            Action::Store { file, data } => before.push((file, data)),
            _ => before,
        }
    }
}

/// Whether the chunk at `k` may be stored: it is no longer than a chunk may be,
/// and if it is the first of its file it begins as the compression asks for.
pub open spec fn chunk_allowed(
    chunks: Seq<Chunk>,
    compression: CompressionType,
    k: int,
) -> bool {
    &&& chunks[k].1.len() <= MAX_CHUNK_LEN
    &&& may_begin(chunks[k].1, compression) || exists|j: int|
        0 <= j < k && (#[trigger] chunks[j]).0 == chunks[k].0
}

/// Whether each of some chunks may be stored.
pub open spec fn chunks_allowed(chunks: Seq<Chunk>, compression: CompressionType) -> bool {
    forall|k: int|
        0 <= k < chunks.len() ==> #[trigger] chunk_allowed(chunks, compression, k)
}

/// The bytes of some chunks together.
pub open spec fn chunk_bytes(chunks: Seq<Chunk>) -> nat
    decreases chunks.len(),
{
    if chunks.len() == 0 {
        0
    } else {
        chunk_bytes(chunks.drop_last()) + chunks.last().1.len()
    }
}

/// Whether a chunk of the file is among some chunks.
pub open spec fn has_chunk_of(chunks: Seq<Chunk>, file: Seq<u8>) -> bool {
    exists|j: int| 0 <= j < chunks.len() && (#[trigger] chunks[j]).0 == file
}

proof fn lemma_chunk_of_after_push(chunks: Seq<Chunk>, chunk: Chunk, file: Seq<u8>)
    ensures
        has_chunk_of(chunks.push(chunk), file) <==> has_chunk_of(chunks, file) || chunk.0 == file,
{
    let all = chunks.push(chunk);
    if has_chunk_of(chunks, file) {
        let j = choose|j: int| 0 <= j < chunks.len() && (#[trigger] chunks[j]).0 == file;
        assert(all[j].0 == file);
    }
    if chunk.0 == file {
        assert(all[chunks.len() as int].0 == file);
    }
    if has_chunk_of(all, file) {
        let j = choose|j: int| 0 <= j < all.len() && (#[trigger] all[j]).0 == file;
        if j < chunks.len() {
            assert(chunks[j].0 == file);
        }
    }
}

/// One more chunk leaves the others allowed, and is allowed itself if it is
/// short enough and begins as it should or is not the first of its file.
proof fn lemma_allowed_after_push(
    chunks: Seq<Chunk>,
    chunk: Chunk,
    compression: CompressionType,
)
    requires
        chunks_allowed(chunks, compression),
        chunk.1.len() <= MAX_CHUNK_LEN,
        may_begin(chunk.1, compression) || has_chunk_of(chunks, chunk.0),
    ensures
        chunks_allowed(chunks.push(chunk), compression),
{
    let all = chunks.push(chunk);
    assert forall|k: int| 0 <= k < all.len() implies #[trigger] chunk_allowed(
        all,
        compression,
        k,
    ) by {
        if k < chunks.len() {
            assert(chunk_allowed(chunks, compression, k));
            if !may_begin(chunks[k].1, compression) {
                let j = choose|j: int| 0 <= j < k && (#[trigger] chunks[j]).0 == chunks[k].0;
                assert(all[j].0 == all[k].0);
            }
        } else if !may_begin(chunk.1, compression) {
            let j = choose|j: int| 0 <= j < chunks.len() && (#[trigger] chunks[j]).0 == chunk.0;
            assert(all[j].0 == all[k].0);
        }
    }
}

/// The beginning of allowed chunks is allowed.
proof fn lemma_allowed_before(chunks: Seq<Chunk>, compression: CompressionType)
    requires
        chunks_allowed(chunks, compression),
        chunks.len() > 0,
    ensures
        chunks_allowed(chunks.drop_last(), compression),
        chunks.last().1.len() <= MAX_CHUNK_LEN,
        may_begin(chunks.last().1, compression) || has_chunk_of(
            chunks.drop_last(),
            chunks.last().0,
        ),
{
    let sent = chunks.drop_last();
    assert forall|k: int| 0 <= k < sent.len() implies #[trigger] chunk_allowed(
        sent,
        compression,
        k,
    ) by {
        assert(chunk_allowed(chunks, compression, k));
        if !may_begin(sent[k].1, compression) {
            let j = choose|j: int| 0 <= j < k && (#[trigger] chunks[j]).0 == chunks[k].0;
            assert(sent[j].0 == sent[k].0);
        }
    }
    let last = chunks.len() - 1;
    assert(chunk_allowed(chunks, compression, last));
    if !may_begin(chunks.last().1, compression) {
        let j = choose|j: int| 0 <= j < last && (#[trigger] chunks[j]).0 == chunks[last].0;
        assert(sent[j].0 == chunks.last().0);
    }
}

/// Whatever a client sends, an upload never has more chunks than were claimed;
/// it counts the chunks that were stored and their bytes, each of the chunks
/// may be stored, and it remembers whose they were.
pub proof fn upload_counts_chunks(total: u64, compression: CompressionType, msgs: Seq<Seq<u8>>)
    requires
        total <= MAX_NUM_CHUNKS,
    ensures
        ({
            let start = Progress::start(total, compression);
            let after = progress_after_all(start, msgs);
            let chunks = stored_chunks(start, msgs);
            &&& after.sound()
            &&& after.total == total
            &&& after.compression == compression
            &&& after.chunks == chunks.len()
            &&& after.bytes == chunk_bytes(chunks)
            &&& chunks_allowed(chunks, compression)
            &&& forall|file: Seq<u8>| #[trigger]
                after.seen.contains(file) <==> has_chunk_of(chunks, file)
        }),
    decreases msgs.len(),
{
    let start = Progress::start(total, compression);
    if msgs.len() > 0 {
        upload_counts_chunks(total, compression, msgs.drop_last());
        let before = progress_after_all(start, msgs.drop_last());
        let old_chunks = stored_chunks(start, msgs.drop_last());
        let after = progress_after_all(start, msgs);
        let chunks = stored_chunks(start, msgs);
        if let Action::Store { file, data } = action_after(before, msgs.last()) {
            assert(chunks == old_chunks.push((file, data)));
            assert(chunks.drop_last() =~= old_chunks);
            assert(before.seen.contains(file) <==> has_chunk_of(old_chunks, file));
            lemma_allowed_after_push(old_chunks, (file, data), compression);
            assert forall|other: Seq<u8>| #[trigger]
                after.seen.contains(other) <==> has_chunk_of(chunks, other) by {
                lemma_seen_after_push(before.seen, file, other);
                lemma_chunk_of_after_push(old_chunks, (file, data), other);
                assert(before.seen.contains(other) <==> has_chunk_of(old_chunks, other));
            }
        }
    }
}

/// Whatever a client sends, no more than ten megabytes are stored.
pub proof fn upload_is_bounded(total: u64, compression: CompressionType, msgs: Seq<Seq<u8>>)
    requires
        total <= MAX_NUM_CHUNKS,
    ensures
        chunk_bytes(stored_chunks(Progress::start(total, compression), msgs)) <= MAX_UPLOAD_LEN,
{
    upload_counts_chunks(total, compression, msgs);
}

proof fn lemma_seen_after_push(seen: Seq<Seq<u8>>, file: Seq<u8>, other: Seq<u8>)
    ensures
        seen.push(file).contains(other) <==> seen.contains(other) || other == file,
{
    if seen.contains(other) {
        let k = choose|k: int| 0 <= k < seen.len() && seen[k] == other;
        assert(seen.push(file)[k] == other);
    }
    if other == file {
        assert(seen.push(file)[seen.len() as int] == other);
    }
}

/// An upload ends as complete exactly where all chunks that were claimed have
/// been stored, and then whatever the next message says.
pub proof fn upload_finishes_when_complete(
    total: u64,
    compression: CompressionType,
    msgs: Seq<Seq<u8>>,
    msg: Seq<u8>,
)
    requires
        total <= MAX_NUM_CHUNKS,
    ensures
        action_after(progress_after_all(Progress::start(total, compression), msgs), msg) is Finish
            <==> stored_chunks(Progress::start(total, compression), msgs).len() == total,
{
    upload_counts_chunks(total, compression, msgs);
}

/// The message that announces a chunk.
pub open spec fn announcement(chunk: Chunk) -> Seq<u8> {
    spec_u64_to_le_bytes(chunk.1.len() as u64) + chunk.0
}

/// The messages by which a client sends some chunks.
pub open spec fn chunk_messages(chunks: Seq<Chunk>) -> Seq<Seq<u8>>
    decreases chunks.len(),
{
    if chunks.len() == 0 {
        seq![]
    } else {
        chunk_messages(chunks.drop_last()).push(announcement(chunks.last())).push(chunks.last().1)
    }
}

/// Whether a client may send these chunks: each may be stored, and names its
/// file by a digest.
pub open spec fn chunks_sendable(chunks: Seq<Chunk>, compression: CompressionType) -> bool {
    &&& chunks_allowed(chunks, compression)
    &&& forall|k: int| 0 <= k < chunks.len() ==> (#[trigger] chunks[k]).0.len() == 32
}

/// What a client sends chunk by chunk, with an announcement before each, is
/// stored as it was sent and in that order.
pub proof fn upload_stores_what_is_sent(
    total: u64,
    compression: CompressionType,
    chunks: Seq<Chunk>,
)
    requires
        chunks.len() <= total <= MAX_NUM_CHUNKS,
        chunks_sendable(chunks, compression),
    ensures
        stored_chunks(Progress::start(total, compression), chunk_messages(chunks)) == chunks,
        progress_after_all(Progress::start(total, compression), chunk_messages(chunks)).chunk
            is None,
    decreases chunks.len(),
{
    let start = Progress::start(total, compression);
    let msgs = chunk_messages(chunks);
    if chunks.len() == 0 {
        assert(chunks =~= seq![]);
    } else {
        let sent = chunks.drop_last();
        let chunk = chunks.last();
        lemma_allowed_before(chunks, compression);
        assert(chunks_sendable(sent, compression)) by {
            assert forall|k: int| 0 <= k < sent.len() implies (#[trigger] sent[k]).0.len() == 32 by {
                assert(sent[k] == chunks[k]);
            }
        }
        upload_stores_what_is_sent(total, compression, sent);
        upload_counts_chunks(total, compression, chunk_messages(sent));
        let before = progress_after_all(start, chunk_messages(sent));
        let announced_msgs = chunk_messages(sent).push(announcement(chunk));
        assert(announced_msgs.drop_last() =~= chunk_messages(sent));
        assert(msgs.drop_last() =~= announced_msgs);
        let between = progress_after_all(start, announced_msgs);
        assert(chunks[chunks.len() - 1].0.len() == 32);
        lemma_auto_spec_u64_to_from_le_bytes();
        assert(announcement(chunk).subrange(0, 8) =~= spec_u64_to_le_bytes(
            chunk.1.len() as u64,
        ));
        assert(announcement(chunk).subrange(8, 40) =~= chunk.0);
        assert(between == (Progress { chunk: Some((chunk.1.len() as u64, chunk.0)), ..before }));
        assert(stored_chunks(start, announced_msgs) == sent);
        assert(before.seen.contains(chunk.0) <==> has_chunk_of(sent, chunk.0));
        assert(action_after(between, chunk.1) == (Action::Store { file: chunk.0, data: chunk.1 }));
        assert(stored_chunks(start, msgs) =~= chunks);
    }
}

/// What a file holds after some chunks were appended to their files.
pub open spec fn file_contents(chunks: Seq<Chunk>, file: Seq<u8>) -> Seq<u8>
    decreases chunks.len(),
{
    if chunks.len() == 0 {
        seq![]
    } else if chunks.last().0 == file {
        file_contents(chunks.drop_last(), file) + chunks.last().1
    } else {
        file_contents(chunks.drop_last(), file)
    }
}

/// A file that a client has sent whole is whole when it has come: its chunks
/// together have the digest that was claimed.
pub proof fn sent_files_are_whole(
    total: u64,
    compression: CompressionType,
    chunks: Seq<Chunk>,
    file: Seq<u8>,
)
    requires
        chunks.len() <= total <= MAX_NUM_CHUNKS,
        chunks_sendable(chunks, compression),
        outside::digest::blake3_digest(file_contents(chunks, file)) == file,
    ensures
        outside::digest::blake3_digest(
            file_contents(
                stored_chunks(Progress::start(total, compression), chunk_messages(chunks)),
                file,
            ),
        ) == file,
{
    upload_stores_what_is_sent(total, compression, chunks);
}

/// The bytes that some chunks put into the listed files together.
spec fn listed_bytes(files: Seq<StoredFile>, chunks: Seq<Chunk>) -> nat
    decreases files.len(),
{
    if files.len() == 0 {
        0
    } else {
        listed_bytes(files.drop_last(), chunks) + file_contents(chunks, files.last().hash@).len()
    }
}

/// Whether a file is listed.
pub open spec fn is_listed_file(files: Seq<StoredFile>, file: Seq<u8>) -> bool {
    exists|i: int| 0 <= i < files.len() && (#[trigger] files[i]).hash@ == file
}

/// One more chunk adds its bytes where its file is listed, and only there.
proof fn lemma_listed_bytes_step(files: Seq<StoredFile>, chunks: Seq<Chunk>)
    requires
        distinct_hashes(files),
        chunks.len() > 0,
    ensures
        listed_bytes(files, chunks) == listed_bytes(files, chunks.drop_last()) + if is_listed_file(
            files,
            chunks.last().0,
        ) {
            chunks.last().1.len()
        } else {
            0
        },
    decreases files.len(),
{
    if files.len() > 0 {
        let fewer = files.drop_last();
        let file = chunks.last().0;
        assert forall|i: int, j: int| 0 <= i < j < fewer.len() implies (#[trigger] fewer[i]).hash@
            != (#[trigger] fewer[j]).hash@ by {
            assert(files[i].hash@ != files[j].hash@);
        }
        lemma_listed_bytes_step(fewer, chunks);
        let last = files.len() - 1;
        if is_listed_file(fewer, file) {
            let i = choose|i: int| 0 <= i < fewer.len() && (#[trigger] fewer[i]).hash@ == file;
            assert(files[i].hash@ == file);
            assert(files[i].hash@ != files[last].hash@);
        } else if files.last().hash@ == file {
            assert(files[last].hash@ == file);
        } else if is_listed_file(files, file) {
            let i = choose|i: int| 0 <= i < files.len() && (#[trigger] files[i]).hash@ == file;
            assert(fewer[i].hash@ == file);
        }
    }
}

/// Where every chunk is of a listed file, the files hold all that was sent.
proof fn lemma_listed_bytes(files: Seq<StoredFile>, chunks: Seq<Chunk>)
    requires
        distinct_hashes(files),
        forall|k: int|
            0 <= k < chunks.len() ==> is_listed_file(files, (#[trigger] chunks[k]).0),
    ensures
        listed_bytes(files, chunks) == chunk_bytes(chunks),
    decreases chunks.len(),
{
    if chunks.len() == 0 {
        lemma_nothing_listed(files, chunks);
    } else {
        let sent = chunks.drop_last();
        assert forall|k: int| 0 <= k < sent.len() implies is_listed_file(
            files,
            (#[trigger] sent[k]).0,
        ) by {
            assert(sent[k] == chunks[k]);
        }
        lemma_listed_bytes(files, sent);
        assert(chunks[chunks.len() - 1] == chunks.last());
        lemma_listed_bytes_step(files, chunks);
    }
}

proof fn lemma_nothing_listed(files: Seq<StoredFile>, chunks: Seq<Chunk>)
    requires
        chunks.len() == 0,
    ensures
        listed_bytes(files, chunks) == 0,
    decreases files.len(),
{
    if files.len() > 0 {
        lemma_nothing_listed(files.drop_last(), chunks);
    }
}

/// Whether the contents are what some chunks have put into the listed files.
pub open spec fn holds_chunks(
    files: Seq<StoredFile>,
    contents: Seq<Vec<u8>>,
    chunks: Seq<Chunk>,
) -> bool {
    &&& contents.len() == files.len()
    &&& forall|i: int|
        0 <= i < files.len() ==> (#[trigger] contents[i])@ == file_contents(chunks, files[i].hash@)
}

proof fn lemma_contents_len(files: Seq<StoredFile>, contents: Seq<Vec<u8>>, chunks: Seq<Chunk>)
    requires
        holds_chunks(files, contents, chunks),
    ensures
        contents_len(contents) == listed_bytes(files, chunks),
    decreases files.len(),
{
    if files.len() > 0 {
        let fewer = contents.drop_last();
        assert forall|i: int| 0 <= i < fewer.len() implies (#[trigger] fewer[i])@ == file_contents(
            chunks,
            files.drop_last()[i].hash@,
        ) by {
            assert(contents[i]@ == file_contents(chunks, files[i].hash@));
        }
        lemma_contents_len(files.drop_last(), fewer, chunks);
        assert(contents[files.len() - 1]@ == file_contents(chunks, files[files.len() - 1].hash@));
    }
}

/// Software is published where a client has sent what it claimed: all chunks,
/// all of listed files, every file whole, and as many bytes as were stated.
pub proof fn whole_uploads_are_published(
    item: Item,
    upload: Upload,
    compression: CompressionType,
    chunks: Seq<Chunk>,
    contents: Seq<Vec<u8>>,
)
    requires
        chunks.len() <= MAX_NUM_CHUNKS,
        chunks_sendable(chunks, compression),
        upload@ == progress_after_all(
            Progress::start(chunks.len() as u64, compression),
            chunk_messages(chunks),
        ),
        distinct_hashes(upload.software_info.files.list()),
        forall|k: int|
            0 <= k < chunks.len() ==> is_listed_file(
                upload.software_info.files.list(),
                (#[trigger] chunks[k]).0,
            ),
        holds_chunks(upload.software_info.files.list(), contents, chunks),
        all_whole(upload.software_info.files.list(), contents),
        chunk_bytes(chunks) == item.compressed_size,
    ensures
        publishable(item, upload, contents),
{
    let total = chunks.len() as u64;
    upload_stores_what_is_sent(total, compression, chunks);
    upload_counts_chunks(total, compression, chunk_messages(chunks));
    lemma_contents_len(upload.software_info.files.list(), contents, chunks);
    lemma_listed_bytes(upload.software_info.files.list(), chunks);
}

/// Whatever a client sends, software is not published where a file is not
/// whole, where a claimed chunk is missing or where the chunks that were
/// stored have another size than was stated.
pub proof fn other_uploads_are_refused(
    item: Item,
    upload: Upload,
    total: u64,
    compression: CompressionType,
    msgs: Seq<Seq<u8>>,
    contents: Seq<Vec<u8>>,
)
    requires
        total <= MAX_NUM_CHUNKS,
        upload@ == progress_after_all(Progress::start(total, compression), msgs),
    ensures
        publishable(item, upload, contents) ==> {
            let chunks = stored_chunks(Progress::start(total, compression), msgs);
            &&& all_whole(upload.software_info.files.list(), contents)
            &&& chunks.len() == total
            &&& chunk_bytes(chunks) == item.compressed_size
        },
{
    upload_counts_chunks(total, compression, msgs);
}

/// The bytes by which a client lists some files.
pub open spec fn file_list(files: Seq<(Seq<u8>, Seq<char>)>) -> Seq<u8>
    decreases files.len(),
{
    if files.len() == 0 {
        seq![]
    } else {
        files[0].0 + encode_utf8(files[0].1) + seq![0u8] + file_list(files.drop_first())
    }
}

/// The names of listed files by their digests, added to those in `known`.
pub open spec fn listed_names(
    files: Seq<(Seq<u8>, Seq<char>)>,
    known: Map<Seq<u8>, Seq<char>>,
) -> Map<Seq<u8>, Seq<char>>
    decreases files.len(),
{
    if files.len() == 0 {
        known
    } else {
        listed_names(files.drop_first(), known.insert(files[0].0, files[0].1))
    }
}

/// Whether the UTF-8 of a text has no zero byte, which would end it early.
pub open spec fn without_zero(text: Seq<char>) -> bool {
    forall|i: int| 0 <= i < encode_utf8(text).len() ==> #[trigger] encode_utf8(text)[i] != 0
}

/// The files that a client lists are read as they were listed.
pub proof fn file_list_is_read_back(
    files: Seq<(Seq<u8>, Seq<char>)>,
    known: Map<Seq<u8>, Seq<char>>,
)
    requires
        forall|i: int|
            0 <= i < files.len() ==> (#[trigger] files[i]).0.len() == 32 && without_zero(
                files[i].1,
            ),
    ensures
        files_listed(file_list(files), known) == listed_names(files, known),
    decreases files.len(),
{
    if files.len() > 0 {
        let bytes = file_list(files);
        let name = encode_utf8(files[0].1);
        let rest = file_list(files.drop_first());
        let end = 32 + name.len() as int;
        assert(files[0].0.len() == 32);
        assert(bytes.len() == end + 1 + rest.len());
        assert(bytes[end] == 0);
        assert forall|i: int| 32 <= i < end implies #[trigger] bytes[i] != 0 by {
            assert(bytes[i] == name[i - 32]);
            assert(without_zero(files[0].1));
        }
        bytes::lemma_zero_at(bytes, 32, end);
        assert(name_end(bytes) == end);
        assert(first_hash(bytes) =~= files[0].0);
        assert(bytes.subrange(32, end) =~= name);
        encode_utf8_valid_utf8(files[0].1);
        encode_utf8_decode_utf8(files[0].1);
        assert(first_name(bytes) == files[0].1);
        assert(behind_first(bytes) =~= rest);
        let others = files.drop_first();
        assert forall|i: int| 0 <= i < others.len() implies (#[trigger] others[i]).0.len() == 32
            && without_zero(others[i].1) by {
            assert(others[i] == files[i + 1]);
        }
        file_list_is_read_back(others, known.insert(files[0].0, files[0].1));
    }
}

/// The message by which a client claims an upload.
pub open spec fn claim_message(
    num_chunks: u64,
    username: Seq<char>,
    auth_cookie: Seq<char>,
    upload_id: Seq<u8>,
    files: Seq<(Seq<u8>, Seq<char>)>,
) -> Seq<u8> {
    spec_u64_to_le_bytes(num_chunks) + encode_utf8(username) + seq![0u8] + encode_utf8(auth_cookie)
        + seq![0u8] + upload_id + file_list(files)
}

/// The claim that a client makes is read as it was made.
pub proof fn claim_is_read_back(
    num_chunks: u64,
    username: Seq<char>,
    auth_cookie: Seq<char>,
    upload_id: Seq<u8>,
    files: Seq<(Seq<u8>, Seq<char>)>,
    claim: UploadClaim,
)
    requires
        without_zero(username),
        without_zero(auth_cookie),
        upload_id.len() == 32,
        forall|i: int|
            0 <= i < files.len() ==> (#[trigger] files[i]).0.len() == 32 && without_zero(
                files[i].1,
            ),
    ensures
        claim_fault(claim_message(num_chunks, username, auth_cookie, upload_id, files)) is None,
        claims(claim_message(num_chunks, username, auth_cookie, upload_id, files), claim) <==> {
            &&& claim.num_chunks == num_chunks
            &&& claim.username@ == username
            &&& claim.auth_cookie@ == auth_cookie
            &&& claim.upload matches Some(upload)
            &&& upload.upload_id@ == upload_id
            &&& upload.files@ == listed_names(files, Map::empty())
        },
{
    let msg = claim_message(num_chunks, username, auth_cookie, upload_id, files);
    let name = encode_utf8(username);
    let cookie = encode_utf8(auth_cookie);
    let u = 8 + name.len() as int;
    let c = u + 1 + cookie.len();
    lemma_auto_spec_u64_to_from_le_bytes();
    assert(msg.subrange(0, 8) =~= spec_u64_to_le_bytes(num_chunks));
    assert forall|i: int| 8 <= i < u implies #[trigger] msg[i] != 0 by {
        assert(msg[i] == name[i - 8]);
    }
    assert(msg[u] == 0);
    bytes::lemma_zero_at(msg, 8, u);
    assert forall|i: int| u + 1 <= i < c implies #[trigger] msg[i] != 0 by {
        assert(msg[i] == cookie[i - u - 1]);
    }
    assert(msg[c] == 0);
    bytes::lemma_zero_at(msg, u + 1, c);
    assert(msg.subrange(8, u) =~= name);
    assert(msg.subrange(u + 1, c) =~= cookie);
    assert(msg.subrange(c + 1, c + 33) =~= upload_id);
    assert(msg.skip(c + 33) =~= file_list(files));
    encode_utf8_valid_utf8(username);
    encode_utf8_decode_utf8(username);
    encode_utf8_valid_utf8(auth_cookie);
    encode_utf8_decode_utf8(auth_cookie);
    file_list_is_read_back(files, Map::empty());
}

/// What the limits of an upload are: chunks of at most 8192 bytes, and as many
/// of them as make ten megabytes.
pub proof fn upload_limits()
    ensures
        MAX_CHUNK_LEN == 8192,
        MAX_NUM_CHUNKS == 1280,
        MAX_UPLOAD_LEN == 10 * 1024 * 1024,
        MAX_CHUNK_LEN * MAX_NUM_CHUNKS == MAX_UPLOAD_LEN,
        CHUNK_BUFFER_LEN == 65535,
{
}

/// The first chunk of a Zstandard file needs the magic number and nothing else,
/// whatever follows it. The first chunk of a Brotli file needs nothing at all.
pub proof fn only_the_magic_number_decides(data: Seq<u8>)
    ensures
        may_begin(data, CompressionType::Zstd) <==> data.len() >= 4 && data.take(4) == seq![
            0x28u8,
            0xB5u8,
            0x2Fu8,
            0xFDu8,
        ],
        may_begin(data, CompressionType::Brotli),
{
    let magic = seq![0x28u8, 0xB5u8, 0x2Fu8, 0xFDu8];
    if data.len() >= 4 {
        if may_begin(data, CompressionType::Zstd) {
            assert(data.take(4) =~= magic);
        }
        if data.take(4) == magic {
            assert(data.take(4)[0] == data[0] && magic[0] == 0x28u8);
            assert(data.take(4)[1] == data[1] && magic[1] == 0xB5u8);
            assert(data.take(4)[2] == data[2] && magic[2] == 0x2Fu8);
            assert(data.take(4)[3] == data[3] && magic[3] == 0xFDu8);
        }
    }
}

/// The data of an announced chunk is stored where its file is known already.
/// The first chunk of a file is stored where the software is compressed with
/// Brotli, and with Zstandard exactly where its first four bytes are 28 B5 2F
/// FD, whatever follows them; else it is rejected.
pub proof fn announced_data_is_stored(progress: Progress, file: Seq<u8>, data: Seq<u8>)
    requires
        progress.chunks < progress.total,
        progress.chunk == Some((data.len() as u64, file)),
        progress.written == 0,
        data.len() <= 8192,
    ensures
        progress.seen.contains(file) || progress.compression is Brotli ==> action_after(
            progress,
            data,
        ) == (Action::Store { file, data }),
        !progress.seen.contains(file) && progress.compression is Zstd ==> action_after(
            progress,
            data,
        ) == if data.len() >= 4 && data.take(4) == seq![0x28u8, 0xB5u8, 0x2Fu8, 0xFDu8] {
            Action::Store { file, data }
        } else {
            Action::Reject { file, data }
        },
{
    only_the_magic_number_decides(data);
}

/// What a stored chunk changes: it is counted with its bytes, its file is known
/// from then on, no other file becomes known, and the next chunk can be
/// announced.
pub proof fn stored_data_is_counted(progress: Progress, msg: Seq<u8>, other: Seq<u8>)
    requires
        progress.sound(),
    ensures
        action_after(progress, msg) matches Action::Store { file, data } ==> {
            let after = progress_after(progress, msg);
            &&& data == msg
            &&& progress.chunk == Some((data.len() as u64, file))
            &&& after.chunks == progress.chunks + 1
            &&& after.bytes == progress.bytes + msg.len()
            &&& after.chunk is None
            &&& after.written == 0
            &&& after.total == progress.total
            &&& after.compression == progress.compression
            &&& after.seen.contains(other) <==> progress.seen.contains(other) || other == file
        },
        action_after(progress, msg) is Reject || action_after(progress, msg) is Break
            || action_after(progress, msg) is Finish ==> progress_after(progress, msg) == progress,
{
    if let Action::Store { file, data } = action_after(progress, msg) {
        lemma_seen_after_push(progress.seen, file, other);
    }
}

/// While chunks are missing and none is announced, a message announces one by
/// its length, in eight little-endian bytes, and the 32 bytes of the digest of
/// its file; what follows is not read. A shorter message, and the announcement
/// of more than 8192 bytes, break the protocol.
pub proof fn chunks_are_announced(progress: Progress, len: u64, file: Seq<u8>, rest: Seq<u8>)
    requires
        progress.chunks < progress.total,
        progress.chunk is None,
        progress.written == 0,
        file.len() == 32,
    ensures
        ({
            let msg = spec_u64_to_le_bytes(len) + file + rest;
            &&& len <= 8192 ==> action_after(progress, msg) is Wait && progress_after(progress, msg)
                == (Progress { chunk: Some((len, file)), ..progress })
            &&& len > 8192 ==> action_after(progress, msg) is Break
            &&& forall|short: Seq<u8>|
                short.len() < 40 ==> #[trigger] action_after(progress, short) is Break
        }),
{
    let msg = spec_u64_to_le_bytes(len) + file + rest;
    lemma_auto_spec_u64_to_from_le_bytes();
    assert(msg.subrange(0, 8) =~= spec_u64_to_le_bytes(len));
    assert(msg.subrange(8, 40) =~= file);
}

/// Data that is not of the announced length is waited for once: it may still be
/// preceded by empty messages, and anything after a message that was too short
/// breaks the protocol.
pub proof fn data_must_come_at_once(progress: Progress, len: u64, file: Seq<u8>, msg: Seq<u8>)
    requires
        progress.chunks < progress.total,
        progress.chunk == Some((len, file)),
    ensures
        progress.written != 0 ==> action_after(progress, msg) is Break,
        progress.written == 0 && msg.len() > 65535 ==> action_after(progress, msg) is Break,
        progress.written == 0 && msg.len() <= 65535 && msg.len() != len ==> action_after(
            progress,
            msg,
        ) is Wait && progress_after(progress, msg) == (Progress { written: msg.len(), ..progress }),
{
}

/// Once all chunks have come, any message ends the upload.
pub proof fn complete_uploads_end(progress: Progress, msg: Seq<u8>)
    ensures
        action_after(progress, msg) is Finish <==> progress.chunks == progress.total,
{
}

/// Chunks of at most 8192 bytes are stored as they were sent and in that order,
/// if they are no more than were claimed. Of Zstandard files the first four
/// bytes must be the magic number; nothing else is asked of what they hold.
pub proof fn all_chunks_are_stored(total: u64, compression: CompressionType, chunks: Seq<Chunk>)
    requires
        chunks.len() <= total <= 1280,
        forall|k: int| 0 <= k < chunks.len() ==> (#[trigger] chunks[k]).0.len() == 32,
        forall|k: int| 0 <= k < chunks.len() ==> (#[trigger] chunks[k]).1.len() <= 8192,
        forall|k: int|
            0 <= k < chunks.len() ==> compression is Brotli || ((#[trigger] chunks[k]).1.len() >= 4
                && chunks[k].1.take(4) == seq![0x28u8, 0xB5u8, 0x2Fu8, 0xFDu8]) || (exists|j: int|
                0 <= j < k && (#[trigger] chunks[j]).0 == chunks[k].0),
    ensures
        stored_chunks(Progress::start(total, compression), chunk_messages(chunks)) == chunks,
{
    assert forall|k: int| 0 <= k < chunks.len() implies #[trigger] chunk_allowed(
        chunks,
        compression,
        k,
    ) by {
        assert(chunks[k].1.len() <= 8192);
        only_the_magic_number_decides(chunks[k].1);
    }
    upload_stores_what_is_sent(total, compression, chunks);
}

/// The bytes of two runs of chunks, and of two runs of contents, add up; a
/// single one counts with all of its bytes.
pub proof fn bytes_add_up(
    a: Seq<Chunk>,
    b: Seq<Chunk>,
    chunk: Chunk,
    c: Seq<Vec<u8>>,
    d: Seq<Vec<u8>>,
    content: Vec<u8>,
)
    ensures
        chunk_bytes(a + b) == chunk_bytes(a) + chunk_bytes(b),
        chunk_bytes(seq![chunk]) == chunk.1.len(),
        contents_len(c + d) == contents_len(c) + contents_len(d),
        contents_len(seq![content]) == content@.len(),
    decreases b.len() + d.len(),
{
    reveal_with_fuel(chunk_bytes, 2);
    reveal_with_fuel(contents_len, 2);
    if b.len() > 0 {
        bytes_add_up(a, b.drop_last(), chunk, c, d, content);
        assert((a + b).drop_last() =~= a + b.drop_last());
    } else if d.len() > 0 {
        bytes_add_up(a, b, chunk, c, d.drop_last(), content);
    }
    if d.len() > 0 {
        if b.len() > 0 {
            bytes_add_up(a, b, chunk, c, d.drop_last(), content);
        }
        assert((c + d).drop_last() =~= c + d.drop_last());
    } else {
        assert(c + d =~= c);
    }
    if b.len() == 0 {
        assert(a + b =~= a);
    }
}

/// A file holds the data of its chunks, one behind the other, and nothing of
/// other files.
pub proof fn files_hold_their_chunks(a: Seq<Chunk>, b: Seq<Chunk>, chunk: Chunk, file: Seq<u8>)
    ensures
        file_contents(a + b, file) == file_contents(a, file) + file_contents(b, file),
        file_contents(seq![chunk], file) == if chunk.0 == file {
            chunk.1
        } else {
            seq![]
        },
    decreases b.len(),
{
    reveal_with_fuel(file_contents, 2);
    assert(Seq::<u8>::empty() + chunk.1 =~= chunk.1);
    if b.len() == 0 {
        assert(a + b =~= a);
        assert(file_contents(a, file) + file_contents(b, file) =~= file_contents(a, file));
    } else {
        files_hold_their_chunks(a, b.drop_last(), chunk, file);
        assert((a + b).drop_last() =~= a + b.drop_last());
        assert(file_contents(a + b, file) =~= file_contents(a, file) + file_contents(b, file));
    }
}

/// Software is published exactly where all claimed chunks have come, what each
/// listed file holds has the digest that it is listed under, and both the bytes
/// that were sent and the bytes that the files hold are as many as were stated.
pub proof fn publishing_is_decided_by(item: Item, upload: Upload, contents: Seq<Vec<u8>>)
    ensures
        publishable(item, upload, contents) <==> {
            let files = upload.software_info.files.list();
            &&& upload.num_chunks == upload.software_info.num_chunks
            &&& forall|i: int|
                0 <= i < files.len() ==> outside::digest::blake3_digest(contents[i]@) == (
                #[trigger] files[i]).hash@
            &&& upload.bytes_stored == item.compressed_size
            &&& contents_len(contents) == item.compressed_size
        },
{
    let files = upload.software_info.files.list();
    if publishable(item, upload, contents) {
        assert forall|i: int| 0 <= i < files.len() implies outside::digest::blake3_digest(
            contents[i]@,
        ) == (#[trigger] files[i]).hash@ by {
            assert(is_whole(files, contents, i));
        }
    }
    if forall|i: int|
        0 <= i < files.len() ==> outside::digest::blake3_digest(contents[i]@) == (
        #[trigger] files[i]).hash@ {
        assert forall|i: int| 0 <= i < files.len() implies #[trigger] is_whole(
            files,
            contents,
            i,
        ) by {
            assert(outside::digest::blake3_digest(contents[i]@) == files[i].hash@);
        }
    }
}

/// A list that ends within a digest names one more file, without a name, whose
/// digest is filled up with zeros; one that ends within a name names a file by
/// as much of it as there is.
pub proof fn lists_may_end_early(bytes: Seq<u8>, known: Map<Seq<u8>, Seq<char>>)
    requires
        bytes.len() > 0,
        forall|i: int| 32 <= i < bytes.len() ==> #[trigger] bytes[i] != 0,
    ensures
        bytes.len() <= 32 ==> files_listed(bytes, known) == known.insert(
            bytes + Seq::new((32 - bytes.len()) as nat, |i: int| 0u8),
            name_text(seq![]),
        ),
        bytes.len() > 32 ==> files_listed(bytes, known) == known.insert(
            bytes.take(32),
            name_text(bytes.skip(32)),
        ),
{
    reveal_with_fuel(files_listed, 2);
    let start = min(32, bytes.len() as int);
    bytes::lemma_zero_at(bytes, start, bytes.len() as int);
    assert(behind_first(bytes) =~= seq![]);
    assert(bytes.subrange(start, bytes.len() as int) =~= bytes.skip(start));
    if bytes.len() <= 32 {
        assert(first_hash(bytes) =~= bytes + Seq::new((32 - bytes.len()) as nat, |i: int| 0u8));
        assert(bytes.skip(start) =~= seq![]);
    } else {
        assert(first_hash(bytes) =~= bytes.take(32));
    }
}

/// A name that is UTF-8 is read as it was written, and nothing is refused
/// because of its name.
pub proof fn names_are_read_as_written(name: Seq<char>, bytes: Seq<u8>)
    ensures
        name_text(encode_utf8(name)) == name,
        !valid_utf8(bytes) ==> name_text(bytes) == outside::unicode::utf8_lossy(bytes),
{
    encode_utf8_valid_utf8(name);
    encode_utf8_decode_utf8(name);
}

/// Why a claim is not read: where it ends before the number of chunks, the name
/// or the cookie does, it breaks the protocol; where the name or the cookie is
/// no UTF-8, that is said. What follows the cookie is never a reason.
pub proof fn claims_that_are_not_read(
    num_chunks: Seq<u8>,
    name: Seq<u8>,
    cookie: Seq<u8>,
    rest: Seq<u8>,
)
    requires
        num_chunks.len() == 8,
        forall|i: int| 0 <= i < name.len() ==> #[trigger] name[i] != 0,
        forall|i: int| 0 <= i < cookie.len() ==> #[trigger] cookie[i] != 0,
    ensures
        forall|short: Seq<u8>|
            short.len() < 8 ==> #[trigger] claim_fault(short) == Some(UploadEnd::Broken),
        claim_fault(num_chunks + name) == Some(UploadEnd::Broken),
        claim_fault(num_chunks + name + seq![0u8] + cookie) == Some(
            if valid_utf8(name) {
                UploadEnd::Broken
            } else {
                UploadEnd::InvalidUsername
            },
        ),
        claim_fault(num_chunks + name + seq![0u8] + cookie + seq![0u8] + rest) == if !valid_utf8(
            name,
        ) {
            Some(UploadEnd::InvalidUsername)
        } else if !valid_utf8(cookie) {
            Some(UploadEnd::InvalidCookieText)
        } else {
            None
        },
{
    let u = 8 + name.len() as int;
    let c = u + 1 + cookie.len();
    let only_name = num_chunks + name;
    let only_cookie = num_chunks + name + seq![0u8] + cookie;
    let all = num_chunks + name + seq![0u8] + cookie + seq![0u8] + rest;
    assert forall|i: int| 8 <= i < u implies #[trigger] only_name[i] != 0 by {
        assert(only_name[i] == name[i - 8]);
    }
    bytes::lemma_zero_at(only_name, 8, u);
    assert forall|i: int| 8 <= i < u implies #[trigger] only_cookie[i] != 0 by {
        assert(only_cookie[i] == name[i - 8]);
    }
    assert(only_cookie[u] == 0);
    bytes::lemma_zero_at(only_cookie, 8, u);
    assert forall|i: int| u + 1 <= i < c implies #[trigger] only_cookie[i] != 0 by {
        assert(only_cookie[i] == cookie[i - u - 1]);
    }
    bytes::lemma_zero_at(only_cookie, u + 1, c);
    assert(only_cookie.subrange(8, u) =~= name);
    assert forall|i: int| 8 <= i < u implies #[trigger] all[i] != 0 by {
        assert(all[i] == name[i - 8]);
    }
    assert(all[u] == 0);
    bytes::lemma_zero_at(all, 8, u);
    assert forall|i: int| u + 1 <= i < c implies #[trigger] all[i] != 0 by {
        assert(all[i] == cookie[i - u - 1]);
    }
    assert(all[c] == 0);
    bytes::lemma_zero_at(all, u + 1, c);
    assert(all.subrange(8, u) =~= name);
    assert(all.subrange(u + 1, c) =~= cookie);
}

/// A list is read file by file: the 32 bytes of the digest, the name up to the
/// next zero byte, whatever bytes it is of, and then the rest of the list.
pub proof fn lists_are_read_file_by_file(
    hash: Seq<u8>,
    name: Seq<u8>,
    rest: Seq<u8>,
    known: Map<Seq<u8>, Seq<char>>,
)
    requires
        hash.len() == 32,
        forall|i: int| 0 <= i < name.len() ==> #[trigger] name[i] != 0,
    ensures
        files_listed(seq![], known) == known,
        files_listed(hash + name + seq![0u8] + rest, known) == files_listed(
            rest,
            known.insert(hash, name_text(name)),
        ),
{
    let bytes = hash + name + seq![0u8] + rest;
    let end = 32 + name.len() as int;
    assert forall|i: int| 32 <= i < end implies #[trigger] bytes[i] != 0 by {
        assert(bytes[i] == name[i - 32]);
    }
    assert(bytes[end] == 0);
    bytes::lemma_zero_at(bytes, 32, end);
    assert(first_hash(bytes) =~= hash);
    assert(bytes.subrange(32, end) =~= name);
    assert(behind_first(bytes) =~= rest);
}

/// What a claim says: the number of chunks, the name and the cookie, and, where
/// at least 32 bytes follow, the id of the upload and its files.
pub proof fn claims_say_what_they_say(
    num_chunks: u64,
    name: Seq<u8>,
    cookie: Seq<u8>,
    rest: Seq<u8>,
    claim: UploadClaim,
)
    requires
        forall|i: int| 0 <= i < name.len() ==> #[trigger] name[i] != 0,
        forall|i: int| 0 <= i < cookie.len() ==> #[trigger] cookie[i] != 0,
    ensures
        claims(
            spec_u64_to_le_bytes(num_chunks) + name + seq![0u8] + cookie + seq![0u8] + rest,
            claim,
        ) <==> {
            &&& claim.num_chunks == num_chunks
            &&& claim.username@ == decode_utf8(name)
            &&& claim.auth_cookie@ == decode_utf8(cookie)
            &&& claim.upload is Some <==> rest.len() >= 32
            &&& claim.upload matches Some(upload) ==> upload.upload_id@ == rest.take(32)
                && upload.files@ == files_listed(rest.skip(32), Map::empty())
        },
{
    let u = 8 + name.len() as int;
    let c = u + 1 + cookie.len();
    let msg = spec_u64_to_le_bytes(num_chunks) + name + seq![0u8] + cookie + seq![0u8] + rest;
    lemma_auto_spec_u64_to_from_le_bytes();
    assert(msg.subrange(0, 8) =~= spec_u64_to_le_bytes(num_chunks));
    assert forall|i: int| 8 <= i < u implies #[trigger] msg[i] != 0 by {
        assert(msg[i] == name[i - 8]);
    }
    assert(msg[u] == 0);
    bytes::lemma_zero_at(msg, 8, u);
    assert forall|i: int| u + 1 <= i < c implies #[trigger] msg[i] != 0 by {
        assert(msg[i] == cookie[i - u - 1]);
    }
    assert(msg[c] == 0);
    bytes::lemma_zero_at(msg, u + 1, c);
    assert(msg.subrange(8, u) =~= name);
    assert(msg.subrange(u + 1, c) =~= cookie);
    assert(msg.len() == c + 1 + rest.len());
    if rest.len() >= 32 {
        assert(msg.subrange(c + 1, c + 33) =~= rest.take(32));
        assert(msg.skip(c + 33) =~= rest.skip(32));
    }
}

/// How far an upload has come, and what is to be done next, is told as it is.
pub proof fn progress_is_told_as_it_is(upload: Upload, file: [u8; 32], data: Vec<u8>, i: int)
    ensures
        upload@.compression == upload.compression_type,
        upload@.total == upload.software_info.num_chunks,
        upload@.chunks == upload.num_chunks,
        upload@.bytes == upload.bytes_stored,
        upload@.written == upload.amt_written_to_buffer,
        upload@.chunk is Some <==> upload.chunk_info is Some,
        upload.chunk_info matches Some(info) ==> upload@.chunk == Some((info.len, info.file@)),
        upload@.seen.len() == upload.file_hashes_seen@.len(),
        0 <= i < upload.file_hashes_seen@.len() ==> upload@.seen[i]
            == upload.file_hashes_seen@[i]@,
        UploadStep::Wait@ is Wait,
        UploadStep::Finish@ is Finish,
        UploadStep::Break@ is Break,
        (UploadStep::Store { file, data })@ == (Action::Store { file: file@, data: data@ }),
        (UploadStep::Reject { file, data })@ == (Action::Reject { file: file@, data: data@ }),
{
}

/// An upload that has just begun has no chunks, no bytes and no files yet, and
/// waits for the first announcement.
pub proof fn uploads_begin_empty(total: u64, compression: CompressionType)
    ensures
        ({
            let start = Progress::start(total, compression);
            &&& start.total == total
            &&& start.compression == compression
            &&& start.chunks == 0
            &&& start.bytes == 0
            &&& start.written == 0
            &&& start.chunk is None
            &&& start.seen.len() == 0
            &&& total <= 1280 ==> start.sound()
        }),
{
}

/// Whether an upload may begin.
pub open spec fn may_claim(
    claim: UploadClaim,
    stored: Option<AuthCookie>,
    compression_type: Option<CompressionType>,
) -> bool {
    &&& auth::cookie_valid(claim.auth_cookie@, stored)
    &&& claim.upload is Some
    &&& compression_type is Some
    &&& claim.num_chunks <= MAX_NUM_CHUNKS
}

/// An upload may begin where the cookie is the one that is stored, the claim
/// names an upload that there is, and it has at most 1280 chunks. Neither the
/// files nor the way of compression matters.
pub proof fn uploads_that_may_begin(
    claim: UploadClaim,
    stored: AuthCookie,
    compression: CompressionType,
)
    ensures
        may_claim(claim, Some(stored), Some(compression)) <==> {
            &&& claim.auth_cookie@ == stored.cookie@
            &&& claim.upload is Some
            &&& claim.num_chunks <= 1280
        },
        !may_claim(claim, None, Some(compression)),
        !may_claim(claim, Some(stored), None),
{
}

/// Whether software is as it was, with the files of the upload and the time.
pub open spec fn is_published(new: Item, item: Item, upload: Upload, now: u64) -> bool {
    new == (Item { files: upload.software_info.files, creation_time: Some(now), ..item })
}

/// Publishing software gives it the files of the upload and the time, and
/// changes nothing else about it.
pub proof fn publishing_changes_nothing_else(new: Item, item: Item, upload: Upload, now: u64)
    requires
        is_published(new, item, upload, now),
    ensures
        new.files == upload.software_info.files,
        new.creation_time == Some(now),
        new.id == item.id && new.title == item.title && new.description == item.description,
        new.creator == item.creator && new.price == item.price,
        new.arch_type == item.arch_type && new.compression_type == item.compression_type,
        new.compressed_size == item.compressed_size && new.upload_id == item.upload_id,
{
}

} // verus!
