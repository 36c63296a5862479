//! The files of a piece of software.
use vstd::prelude::*;

use crate::bytes::same_digest;
use crate::outside;
use crate::outside::hex::{digest_hex, encode_hex};

verus! {

/// A file: the digest of what is in it, and what it is called.
pub struct StoredFile {
    pub hash: [u8; 32],
    pub name: String,
}

/// The names of files by their digests. Where a digest comes twice, the later
/// name counts.
pub open spec fn names_by_hash(files: Seq<StoredFile>) -> Map<Seq<u8>, Seq<char>>
    decreases files.len(),
{
    if files.len() == 0 {
        Map::empty()
    } else {
        names_by_hash(files.drop_last()).insert(files.last().hash@, files.last().name@)
    }
}

/// Whether no digest comes twice.
pub open spec fn distinct_hashes(files: Seq<StoredFile>) -> bool {
    forall|i: int, j: int|
        0 <= i < j < files.len() ==> (#[trigger] files[i]).hash@ != (#[trigger] files[j]).hash@
}

/// Files by their digests.
pub struct FileTable {
    files: Vec<StoredFile>,
}

impl View for FileTable {
    type V = Map<Seq<u8>, Seq<char>>;

    closed spec fn view(&self) -> Map<Seq<u8>, Seq<char>> {
        names_by_hash(self.files@)
    }
}

/// The digests of a table are those of its files.
proof fn lemma_table_keys(files: Seq<StoredFile>)
    ensures
        forall|i: int|
            0 <= i < files.len() ==> #[trigger] names_by_hash(files).contains_key(files[i].hash@),
        forall|hash: Seq<u8>| #[trigger]
            names_by_hash(files).contains_key(hash) ==> exists|i: int|
                0 <= i < files.len() && (#[trigger] files[i]).hash@ == hash,
    decreases files.len(),
{
    if files.len() > 0 {
        let shorter = files.drop_last();
        lemma_table_keys(shorter);
        assert forall|i: int| 0 <= i < files.len() implies #[trigger] names_by_hash(
            files,
        ).contains_key(files[i].hash@) by {
            if i < shorter.len() {
                assert(names_by_hash(shorter).contains_key(shorter[i].hash@));
            }
        }
        assert forall|hash: Seq<u8>| #[trigger]
            names_by_hash(files).contains_key(hash) implies exists|i: int|
            0 <= i < files.len() && (#[trigger] files[i]).hash@ == hash by {
            if hash == files.last().hash@ {
                assert(files[files.len() - 1].hash@ == hash);
            } else {
                assert(names_by_hash(shorter).contains_key(hash));
                let k = choose|k: int| 0 <= k < shorter.len() && (#[trigger] shorter[k]).hash@ == hash;
                assert(files[k].hash@ == hash);
            }
        }
    }
}

/// Where no digest comes twice, each file has the name that the table has.
proof fn lemma_table_names(files: Seq<StoredFile>)
    requires
        distinct_hashes(files),
    ensures
        forall|i: int|
            0 <= i < files.len() ==> names_by_hash(files)[(#[trigger] files[i]).hash@]
                == files[i].name@,
    decreases files.len(),
{
    if files.len() > 0 {
        let shorter = files.drop_last();
        assert forall|i: int, j: int| 0 <= i < j < shorter.len() implies (#[trigger] shorter[i]).hash@
            != (#[trigger] shorter[j]).hash@ by {
            assert(files[i].hash@ != files[j].hash@);
        }
        lemma_table_names(shorter);
        assert forall|i: int| 0 <= i < files.len() implies names_by_hash(files)[(
        #[trigger] files[i]).hash@] == files[i].name@ by {
            if i < shorter.len() {
                assert(shorter[i] == files[i]);
                assert(files[i].hash@ != files[files.len() - 1].hash@);
            }
        }
    }
}

/// Renaming a file in place is the same as adding it with the new name.
proof fn lemma_rename(files: Seq<StoredFile>, at: int, name: String)
    requires
        0 <= at < files.len(),
        distinct_hashes(files),
    ensures
        distinct_hashes(files.update(at, StoredFile { hash: files[at].hash, name })),
        names_by_hash(files.update(at, StoredFile { hash: files[at].hash, name })) == names_by_hash(
            files,
        ).insert(files[at].hash@, name@),
    decreases files.len(),
{
    let hash = files[at].hash@;
    let renamed = files.update(at, StoredFile { hash: files[at].hash, name });
    assert forall|i: int, j: int| 0 <= i < j < renamed.len() implies (#[trigger] renamed[i]).hash@
        != (#[trigger] renamed[j]).hash@ by {
        assert(files[i].hash@ != files[j].hash@);
    }
    let shorter = files.drop_last();
    if at == files.len() - 1 {
        assert(renamed.drop_last() =~= shorter);
        assert(names_by_hash(renamed) =~= names_by_hash(files).insert(hash, name@));
    } else {
        assert forall|i: int, j: int| 0 <= i < j < shorter.len() implies (#[trigger] shorter[i]).hash@
            != (#[trigger] shorter[j]).hash@ by {
            assert(files[i].hash@ != files[j].hash@);
        }
        lemma_rename(shorter, at, name);
        assert(renamed.drop_last() =~= shorter.update(at, StoredFile { hash: files[at].hash, name }));
        assert(files[at].hash@ != files[files.len() - 1].hash@);
        assert(names_by_hash(renamed) =~= names_by_hash(files).insert(hash, name@));
    }
}

impl FileTable {
    #[verifier::type_invariant]
    spec fn well_formed(self) -> bool {
        distinct_hashes(self.files@)
    }

    /// A table without files.
    pub fn new() -> (res: Self)
        ensures
            res@ == Map::<Seq<u8>, Seq<char>>::empty(),
    {
        FileTable { files: Vec::new() }
    }

    /// Adds a file. One with the same digest is replaced.
    pub fn insert(&mut self, hash: [u8; 32], name: String)
        ensures
            final(self)@ == old(self)@.insert(hash@, name@),
    {
        proof {
            use_type_invariant(&*self);
        }
        let mut files: Vec<StoredFile> = Vec::new();
        std::mem::swap(&mut files, &mut self.files);
        let ghost before = files@;
        let mut i: usize = 0;
        while i < files.len()
            invariant
                i <= files@.len(),
                files@ == before,
                distinct_hashes(before),
                old(self)@ == names_by_hash(before),
                self.files@.len() == 0,
                forall|j: int| 0 <= j < i ==> (#[trigger] files@[j]).hash@ != hash@,
            decreases files@.len() - i,
        {
            if same_digest(&files[i].hash, &hash) {
                proof {
                    lemma_rename(before, i as int, name);
                    assert(hash =~= before[i as int].hash);
                }
                files.set(i, StoredFile { hash, name });
                assert(files@ =~= before.update(
                    i as int,
                    StoredFile { hash: before[i as int].hash, name },
                ));
                self.files = files;
                return ;
            }
            i += 1;
        }
        files.push(StoredFile { hash, name });
        assert(files@.drop_last() =~= before);
        self.files = files;
    }

    /// The files of the table in the order in which they are listed.
    pub closed spec fn list(&self) -> Seq<StoredFile> {
        self.files@
    }

    /// The files of the table, each digest once.
    pub fn files(&self) -> (res: &Vec<StoredFile>)
        ensures
            res@ == self.list(),
            self@ == names_by_hash(res@),
            distinct_hashes(res@),
    {
        proof {
            use_type_invariant(self);
        }
        &self.files
    }

    /// The name of the file with the given digest.
    pub fn get(&self, hash: &[u8; 32]) -> (res: Option<&String>)
        ensures
            res is Some <==> self@.contains_key(hash@),
            res matches Some(name) ==> self@[hash@] == name@,
    {
        proof {
            use_type_invariant(self);
            lemma_table_keys(self.files@);
            lemma_table_names(self.files@);
        }
        let mut i: usize = 0;
        while i < self.files.len()
            invariant
                i <= self.files@.len(),
                self@ == names_by_hash(self.files@),
                forall|j: int| 0 <= j < i ==> (#[trigger] self.files@[j]).hash@ != hash@,
                forall|j: int|
                    0 <= j < self.files@.len() ==> #[trigger] names_by_hash(
                        self.files@,
                    ).contains_key(self.files@[j].hash@),
                forall|j: int|
                    0 <= j < self.files@.len() ==> names_by_hash(self.files@)[(
                    #[trigger] self.files@[j]).hash@] == self.files@[j].name@,
            decreases self.files@.len() - i,
        {
            if same_digest(&self.files[i].hash, hash) {
                assert(names_by_hash(self.files@).contains_key(self.files@[i as int].hash@));
                return Some(&self.files[i].name);
            }
            i += 1;
        }
        None
    }
}

/// Where a file waits until its upload is complete.
pub open spec fn cached_path_of(hash: Seq<u8>) -> Seq<char> {
    ".cached_files/"@ + outside::hex::lower_hex(hash)
}

/// Where a file of a complete upload is kept.
pub open spec fn game_path_of(hash: Seq<u8>) -> Seq<char> {
    ".game_files/"@ + outside::hex::lower_hex(hash)
}

/// Names the place where a file waits until its upload is complete.
pub fn cached_path(hash: [u8; 32]) -> (res: String)
    ensures
        res@ == cached_path_of(hash@),
{
    let mut res: String = ".cached_files/".to_owned();
    res.append(digest_hex(hash).as_str());
    res
}

/// Names the place where a file of a complete upload is kept.
pub fn game_path(hash: [u8; 32]) -> (res: String)
    ensures
        res@ == game_path_of(hash@),
{
    let mut res: String = ".game_files/".to_owned();
    res.append(digest_hex(hash).as_str());
    res
}

/// Names the place that a file is read from when it is downloaded.
pub fn download_path(hash: &[u8; 32]) -> (res: String)
    ensures
        res@ == "./"@ + game_path_of(hash@),
{
    proof {
        reveal_strlit("./.game_files/");
        reveal_strlit("./");
        reveal_strlit(".game_files/");
    }
    let mut res: String = "./.game_files/".to_owned();
    res.append(encode_hex(hash.as_slice()).as_str());
    assert(res@ =~= "./"@ + game_path_of(hash@));
    res
}

/// Different digits are written differently.
proof fn lemma_digit_differs(x: int, y: int)
    requires
        0 <= x < 16,
        0 <= y < 16,
        outside::hex::hex_digit(x) == outside::hex::hex_digit(y),
    ensures
        x == y,
{
}

/// Different bytes are written differently.
proof fn lemma_hex_differs(a: Seq<u8>, b: Seq<u8>)
    requires
        outside::hex::lower_hex(a) == outside::hex::lower_hex(b),
    ensures
        a == b,
{
    let hex_a = outside::hex::lower_hex(a);
    let hex_b = outside::hex::lower_hex(b);
    assert(hex_a.len() == 2 * a.len());
    assert(hex_b.len() == 2 * b.len());
    assert forall|i: int| 0 <= i < a.len() implies a[i] == b[i] by {
        assert((2 * i) / 2 == i && (2 * i + 1) / 2 == i);
        assert(hex_a[2 * i] == outside::hex::hex_digit(a[i] as int / 16));
        assert(hex_b[2 * i] == outside::hex::hex_digit(b[i] as int / 16));
        assert(hex_a[2 * i + 1] == outside::hex::hex_digit(a[i] as int % 16));
        assert(hex_b[2 * i + 1] == outside::hex::hex_digit(b[i] as int % 16));
        lemma_digit_differs(a[i] as int / 16, b[i] as int / 16);
        lemma_digit_differs(a[i] as int % 16, b[i] as int % 16);
    }
    assert(a =~= b);
}

/// Files with different digests wait and are kept at different places.
pub proof fn paths_differ(a: Seq<u8>, b: Seq<u8>)
    ensures
        cached_path_of(a) == cached_path_of(b) <==> a == b,
        game_path_of(a) == game_path_of(b) <==> a == b,
{
    let hex_a = outside::hex::lower_hex(a);
    let hex_b = outside::hex::lower_hex(b);
    if cached_path_of(a) == cached_path_of(b) {
        let n = ".cached_files/"@.len() as int;
        assert(cached_path_of(a).skip(n) =~= hex_a);
        assert(cached_path_of(b).skip(n) =~= hex_b);
    }
    if game_path_of(a) == game_path_of(b) {
        let n = ".game_files/"@.len() as int;
        assert(game_path_of(a).skip(n) =~= hex_a);
        assert(game_path_of(b).skip(n) =~= hex_b);
    }
    if hex_a == hex_b {
        lemma_hex_differs(a, b);
    }
}

/// A table names every file that is listed, and no other, by the digest of what
/// is in it; where no digest comes twice, by the name that it is listed with.
pub proof fn tables_name_their_files(files: Seq<StoredFile>, i: int, hash: Seq<u8>)
    ensures
        names_by_hash(files).contains_key(hash) <==> exists|k: int|
            0 <= k < files.len() && (#[trigger] files[k]).hash@ == hash,
        distinct_hashes(files) && 0 <= i < files.len() ==> names_by_hash(files)[files[i].hash@]
            == files[i].name@,
{
    lemma_table_keys(files);
    if exists|k: int| 0 <= k < files.len() && (#[trigger] files[k]).hash@ == hash {
        let k = choose|k: int| 0 <= k < files.len() && (#[trigger] files[k]).hash@ == hash;
        assert(names_by_hash(files).contains_key(files[k].hash@));
    }
    if distinct_hashes(files) {
        lemma_table_names(files);
    }
}

/// A file that is added later gives its name to its digest, and leaves the
/// names of all other digests as they are.
pub proof fn later_names_count(files: Seq<StoredFile>, file: StoredFile, hash: Seq<u8>)
    ensures
        names_by_hash(files.push(file)).contains_key(file.hash@),
        names_by_hash(files.push(file))[file.hash@] == file.name@,
        hash != file.hash@ ==> (names_by_hash(files.push(file)).contains_key(hash)
            <==> names_by_hash(files).contains_key(hash)) && names_by_hash(files.push(file))[hash]
            == names_by_hash(files)[hash],
{
    assert(files.push(file).drop_last() =~= files);
}

/// Where files are kept: below their directory, under the lower-case
/// hexadecimal form of their digest.
pub proof fn files_are_kept_by_digest(hash: Seq<u8>)
    ensures
        cached_path_of(hash) == ".cached_files/"@ + outside::hex::lower_hex(hash),
        game_path_of(hash) == ".game_files/"@ + outside::hex::lower_hex(hash),
        cached_path_of(hash) != game_path_of(hash),
{
    reveal_strlit(".cached_files/");
    reveal_strlit(".game_files/");
    assert(cached_path_of(hash)[1] == 'c');
    assert(game_path_of(hash)[1] == 'g');
}

} // verus!
