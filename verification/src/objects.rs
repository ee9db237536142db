//! The content-addressed object store.
//!
//! Every version of a file and every captured log is stored once, under the
//! BLAKE3 hash of its bytes. A write goes to a temporary file that is then
//! renamed, and content that is already there is not written again.

use vstd::prelude::*;

use crate::error::ErrorView;
use crate::error::RewindError;
use crate::paths;
use crate::text;
use crate::text_map::TextMap;
use crate::write_job;
use crate::write_job::Step;
use crate::write_job::WriteJob;

verus! {

// ---------------------------------------------------------------------------
// Hashing
// ---------------------------------------------------------------------------

/// The BLAKE3 hash of `data` in hexadecimal.
pub uninterp spec fn blake3_hex(data: Seq<u8>) -> Seq<char>;

/// A digit of lower-case hexadecimal.
pub open spec fn is_hex_digit(c: char) -> bool {
    ('0' <= c && c <= '9') || ('a' <= c && c <= 'f')
}

/// The form of a hash: 64 digits of lower-case hexadecimal.
pub open spec fn is_hash(h: Seq<char>) -> bool {
    h.len() == 64 && forall|i: int| 0 <= i < 64 ==> is_hex_digit(#[trigger] h[i])
}

/// The BLAKE3 hash of `data`: `blake3::hash`, written out by `to_hex`, which
/// puts two lower-case hexadecimal digits for each of its 32 bytes.
#[verifier::external_body]
pub fn hash_bytes(data: &[u8]) -> (r: String)
    ensures
        r@ == blake3_hex(data@),
        is_hash(r@),
{
    blake3::hash(data).to_hex().to_string()
}

/// The incremental hasher of BLAKE3.
#[verifier::external_type_specification]
#[verifier::external_body]
pub struct ExHasher(blake3::Hasher);

/// The bytes a hasher has been fed, in order.
pub uninterp spec fn fed(h: blake3::Hasher) -> Seq<u8>;

/// `blake3::Hasher::new` gives a hasher that has been fed nothing.
#[verifier::external_body]
fn hasher_new() -> (h: blake3::Hasher)
    ensures
        fed(h) == Seq::<u8>::empty(),
{
    blake3::Hasher::new()
}

/// `blake3::Hasher::update` feeds the hasher more bytes.
#[verifier::external_body]
fn hasher_update(h: &mut blake3::Hasher, data: &[u8])
    ensures
        fed(*final(h)) == fed(*old(h)) + data@,
{
    h.update(data);
}

/// `blake3::Hasher::finalize` gives the hash of all bytes fed, the same as
/// `blake3::hash` of them at once.
#[verifier::external_body]
fn hasher_finalize(h: &blake3::Hasher) -> (r: String)
    ensures
        r@ == blake3_hex(fed(*h)),
        is_hash(r@),
{
    h.finalize().to_hex().to_string()
}

/// The hash and the length of content that comes in chunks.
pub struct HashStream {
    hasher: blake3::Hasher,
    total: u64,
}

impl HashStream {
    /// The bytes that came so far.
    pub closed spec fn bytes(self) -> Seq<u8> {
        fed(self.hasher)
    }

    #[verifier::type_invariant]
    spec fn inv(self) -> bool {
        self.total == fed(self.hasher).len()
    }

    /// A stream to which nothing has come.
    pub fn new() -> (r: HashStream)
        ensures
            r.bytes() == Seq::<u8>::empty(),
    {
        HashStream { hasher: hasher_new(), total: 0 }
    }

    /// The stream once `chunk` has come too.
    pub fn absorb(self, chunk: &[u8]) -> (r: HashStream)
        requires
            self.bytes().len() + chunk@.len() <= u64::MAX,
        ensures
            r.bytes() == self.bytes() + chunk@,
    {
        proof {
            use_type_invariant(&self);
        }
        let mut hasher = self.hasher;
        let total: u64 = self.total;
        hasher_update(&mut hasher, chunk);
        HashStream { hasher, total: total + chunk.len() as u64 }
    }

    /// The hash and the length of everything that came: those of the same
    /// bytes in one piece.
    pub fn finish(&self) -> (r: (String, u64))
        ensures
            r.0@ == blake3_hex(self.bytes()),
            is_hash(r.0@),
            r.1 == self.bytes().len(),
    {
        proof {
            use_type_invariant(self);
        }
        (hasher_finalize(&self.hasher), self.total)
    }
}

// ---------------------------------------------------------------------------
// The store
// ---------------------------------------------------------------------------

/// How many bytes of a file are read at a time for hashing.
pub const READ_CHUNK: usize = 65536;

/// The directory in which the objects lie.
#[derive(Debug, PartialEq, Eq)]
pub struct ObjectStore {
    root: String,
}

/// How reading the file of an object went.
#[derive(Debug, PartialEq, Eq)]
pub enum ReadOutcome {
    Bytes(Vec<u8>),
    NotFound,
    Failed(String),
}

impl ObjectStore {
    /// The directory of the store.
    pub closed spec fn dir(self) -> Seq<char> {
        self.root@
    }

    /// The store in the directory `root`.
    pub fn new(root: &str) -> (r: ObjectStore)
        ensures
            r.dir() == root@,
    {
        ObjectStore { root: root.to_string() }
    }

    /// The directory of the store.
    pub fn root(&self) -> (r: &str)
        ensures
            r@ == self.dir(),
    {
        self.root.as_str()
    }

    /// Where the object `hash` lies.
    pub fn path_for(&self, hash: &str) -> (r: String)
        requires
            paths::can_shard(hash@),
        ensures
            r@ == paths::object_location(self.dir(), hash@),
    {
        paths::sharded(self.root.as_str(), hash)
    }

    /// Begins to store `data`: its hash, and the job that puts it in place
    /// unless it is there already. `unique` sets the temporary file apart from
    /// those of other writers.
    pub fn write_bytes(&self, data: &[u8], unique: &str) -> (r: (String, WriteJob))
        ensures
            r.0@ == blake3_hex(data@),
            is_hash(r.0@),
            r.1.target@ == paths::object_location(self.dir(), r.0@),
            r.1.dir@ == paths::joined(self.dir(), r.0@.take(2)),
            r.1.temp@ == temp_location(self.dir(), r.0@, unique@),
            r.1.keep_existing,
            r.1.step == Step::Probe,
    {
        let hash = hash_bytes(data);
        proof {
            paths::lemma_hash_shards(self.dir(), hash@);
            assert(hash@.subrange(0, 2) =~= hash@.take(2));
        }
        let target = self.path_for(hash.as_str());
        let dir = paths::join(self.root.as_str(), hash.as_str().substring_char(0, 2));
        let mut name = ".tmp-".to_string();
        name.append(unique);
        let job = WriteJob::new(target, dir, name.as_str(), true);
        (hash, job)
    }

    /// What reading an object gives, from how reading its file went: its
    /// bytes, or that there is no such object, or the failure.
    pub fn read(&self, hash: &str, outcome: ReadOutcome) -> (r: Result<Vec<u8>, RewindError>)
        ensures
            match outcome {
                ReadOutcome::Bytes(b) => r == Ok::<Vec<u8>, RewindError>(b),
                ReadOutcome::NotFound => r matches Err(e) && e@ == ErrorView::ObjectMissing(hash@),
                ReadOutcome::Failed(m) => r matches Err(e) && e@ == ErrorView::Io(m@),
            },
    {
        match outcome {
            ReadOutcome::Bytes(b) => Ok(b),
            ReadOutcome::NotFound => Err(RewindError::ObjectMissing(hash.to_string())),
            ReadOutcome::Failed(m) => Err(RewindError::Io(m)),
        }
    }
}

/// The temporary file of a write to the object `hash`.
pub open spec fn temp_location(root: Seq<char>, hash: Seq<char>, unique: Seq<char>) -> Seq<char> {
    paths::joined(paths::joined(root, hash.take(2)), ".tmp-"@ + unique)
}

/// What sets the temporary file of a writer apart: the process, the time in
/// nanoseconds and a counter, the last two in hexadecimal.
pub fn unique_suffix(pid: u32, nanos: u128, counter: u64) -> (r: String)
    ensures
        r@ == text::dec(pid as nat) + "-"@ + text::hex(nanos as nat) + text::hex(counter as nat),
{
    let mut r = text::show_dec(pid as u128);
    r.append("-");
    text::push_hex(&mut r, nanos);
    text::push_hex(&mut r, counter as u128);
    r
}

// ---------------------------------------------------------------------------
// The store on disk
// ---------------------------------------------------------------------------

/// Every object on the disk lies under the hash of its bytes.
pub open spec fn content_addressed(root: Seq<char>, disk: write_job::Disk) -> bool {
    forall|h: Seq<char>|
        is_hash(h) && disk.contains_key(#[trigger] paths::object_location(root, h)) ==> blake3_hex(
            disk[paths::object_location(root, h)],
        ) == h
}

proof fn lemma_location_tail(root: Seq<char>, h: Seq<char>)
    requires
        is_hash(h),
    ensures
        text::base_name(paths::object_location(root, h)) == h.skip(2),
        forall|i: int| 0 <= i < 62 ==> is_hex_digit(#[trigger] h.skip(2)[i]),
{
    paths::lemma_hash_shards(root, h);
    let dir = paths::joined(root, h.take(2));
    let at = paths::object_location(root, h);
    assert forall|i: int| 0 <= i < 62 implies is_hex_digit(#[trigger] h.skip(2)[i]) by {
        assert(h.skip(2)[i] == h[i + 2]);
        assert(is_hex_digit(h[i + 2]));
    }
    assert(is_hex_digit(h.skip(2)[0]));
    assert(is_hex_digit(h[0]) && is_hex_digit(h[1]));
    assert(h.take(2)[0] == h[0] && h.take(2)[1] == h[1]);
    assert(dir.last() == h[1]);
    assert(at =~= dir + seq!['/'] + h.skip(2));
    let k = dir.len() + 1;
    assert forall|j: int| k <= j < at.len() implies at[j] != '/' by {
        assert(at[j] == h.skip(2)[j - k]);
        assert(is_hex_digit(h.skip(2)[j - k]));
    }
    text::lemma_base_name(at, k as int);
    assert(at.skip(k as int) =~= h.skip(2));
}

/// The temporary file of a write is no object.
pub proof fn lemma_temp_is_no_object(
    root: Seq<char>,
    hash: Seq<char>,
    unique: Seq<char>,
    h: Seq<char>,
)
    requires
        is_hash(hash),
        is_hash(h),
        !unique.contains('/'),
    ensures
        temp_location(root, hash, unique) != paths::object_location(root, h),
{
    reveal_strlit(".tmp-");
    let dir = paths::joined(root, hash.take(2));
    let name = ".tmp-"@ + unique;
    let at = temp_location(root, hash, unique);
    assert(is_hex_digit(hash[0]) && is_hex_digit(hash[1]));
    assert(hash.take(2)[0] == hash[0] && hash.take(2)[1] == hash[1]);
    assert(dir.last() == hash[1]);
    assert(name[0] == '.');
    assert(at =~= dir + seq!['/'] + name);
    let k = dir.len() + 1;
    assert forall|j: int| k <= j < at.len() implies at[j] != '/' by {
        assert(at[j] == name[j - k]);
        if j - k >= 5 {
            assert(name[j - k] == unique[j - k - 5]);
        }
    }
    text::lemma_base_name(at, k as int);
    assert(at.skip(k as int) =~= name);
    lemma_location_tail(root, h);
    assert(is_hex_digit(h.skip(2)[0]));
}

/// The objects at different hashes lie in different files.
pub proof fn lemma_locations_differ(root: Seq<char>, a: Seq<char>, b: Seq<char>)
    requires
        is_hash(a),
        is_hash(b),
        paths::object_location(root, a) == paths::object_location(root, b),
    ensures
        a == b,
{
    lemma_location_tail(root, a);
    lemma_location_tail(root, b);
    paths::lemma_hash_shards(root, a);
    paths::lemma_hash_shards(root, b);
    let la = paths::object_location(root, a);
    let da = paths::joined(root, a.take(2));
    let db = paths::joined(root, b.take(2));
    assert(is_hex_digit(a[0]) && is_hex_digit(a[1]));
    assert(is_hex_digit(b[0]) && is_hex_digit(b[1]));
    assert(a.take(2)[0] == a[0] && a.take(2)[1] == a[1]);
    assert(b.take(2)[0] == b[0] && b.take(2)[1] == b[1]);
    assert(is_hex_digit(a.skip(2)[0]) && is_hex_digit(b.skip(2)[0]));
    assert(la =~= da + seq!['/'] + a.skip(2));
    assert(la =~= db + seq!['/'] + b.skip(2));
    assert(da.len() == db.len());
    assert(da =~= la.take(da.len() as int));
    assert(db =~= la.take(db.len() as int));
    assert(da.last() == a[1]);
    assert(db.last() == b[1]);
    assert(da[da.len() - 2] == a[0]);
    assert(db[db.len() - 2] == b[0]);
    assert forall|i: int| 0 <= i < 64 implies a[i] == b[i] by {
        if i >= 2 {
            assert(a.skip(2)[i - 2] == a[i]);
            assert(b.skip(2)[i - 2] == b[i]);
        }
    }
    assert(a =~= b);
}

/// Storing keeps the store content-addressed: whatever comes of a step of a
/// write, every object still lies under the hash of its bytes.
pub proof fn lemma_store_stays_addressed(
    root: Seq<char>,
    data: Seq<u8>,
    unique: Seq<char>,
    step: write_job::StepView,
    disk: write_job::Disk,
    outcome: write_job::OutcomeView,
    after: write_job::Disk,
)
    requires
        is_hash(blake3_hex(data)),
        !unique.contains('/'),
        content_addressed(root, disk),
        write_job::on_course(
            step,
            paths::object_location(root, blake3_hex(data)),
            temp_location(root, blake3_hex(data), unique),
            data,
            disk,
        ),
        write_job::does(
            step,
            paths::object_location(root, blake3_hex(data)),
            temp_location(root, blake3_hex(data), unique),
            data,
            disk,
            outcome,
            after,
        ),
    ensures
        content_addressed(root, after),
{
    let hash = blake3_hex(data);
    let target = paths::object_location(root, hash);
    let temp = temp_location(root, hash, unique);
    lemma_temp_is_no_object(root, hash, unique, hash);
    assert forall|h: Seq<char>|
        is_hash(h) && after.contains_key(#[trigger] paths::object_location(root, h)) implies blake3_hex(
        after[paths::object_location(root, h)],
    ) == h by {
        let at = paths::object_location(root, h);
        lemma_temp_is_no_object(root, hash, unique, h);
        write_job::lemma_all_or_nothing(step, target, temp, data, disk, outcome, after, at);
        if at == target {
            lemma_locations_differ(root, h, hash);
        }
    }
}

/// What a read gives back of a write: once the write of `data` has ended well,
/// the object is there, its bytes have the hash of `data`, and they are `data`
/// if there was no such object before. If there was, the disk is as it was:
/// content is never stored twice. All other objects are as they were.
pub proof fn lemma_write_reads_back(
    root: Seq<char>,
    data: Seq<u8>,
    unique: Seq<char>,
    steps: Seq<write_job::StepView>,
    outcomes: Seq<write_job::OutcomeView>,
    disks: Seq<write_job::Disk>,
    h: Seq<char>,
)
    requires
        is_hash(blake3_hex(data)),
        is_hash(h),
        !unique.contains('/'),
        write_job::is_run(
            steps,
            outcomes,
            disks,
            true,
            paths::object_location(root, blake3_hex(data)),
            temp_location(root, blake3_hex(data), unique),
            data,
        ),
        content_addressed(root, disks[0]),
        steps.last() is Done,
    ensures
        content_addressed(root, disks.last()),
        disks.last().contains_key(paths::object_location(root, blake3_hex(data))),
        blake3_hex(disks.last()[paths::object_location(root, blake3_hex(data))]) == blake3_hex(data),
        if disks[0].contains_key(paths::object_location(root, blake3_hex(data))) {
            disks.last() == disks[0]
        } else {
            disks.last()[paths::object_location(root, blake3_hex(data))] == data
        },
        h != blake3_hex(data) ==> {
            let at = paths::object_location(root, h);
            &&& disks.last().contains_key(at) == disks[0].contains_key(at)
            &&& disks[0].contains_key(at) ==> disks.last()[at] == disks[0][at]
        },
{
    let hash = blake3_hex(data);
    let target = paths::object_location(root, hash);
    let temp = temp_location(root, hash, unique);
    lemma_temp_is_no_object(root, hash, unique, hash);
    write_job::lemma_run(steps, outcomes, disks, true, target, temp, data);
    assert forall|g: Seq<char>| is_hash(g) && g != hash implies ({
        let at = #[trigger] paths::object_location(root, g);
        &&& disks.last().contains_key(at) == disks[0].contains_key(at)
        &&& disks[0].contains_key(at) ==> disks.last()[at] == disks[0][at]
    }) by {
        let at = paths::object_location(root, g);
        lemma_temp_is_no_object(root, hash, unique, g);
        if at == target {
            lemma_locations_differ(root, g, hash);
        }
        assert(disks.last().contains_key(at) == disks[0].contains_key(at));
    }
    assert(is_hash(h) && h != hash ==> {
        let at = paths::object_location(root, h);
        disks.last().contains_key(at) == disks[0].contains_key(at)
    });
}

// ---------------------------------------------------------------------------
// Objects at hand
// ---------------------------------------------------------------------------

/// Objects that have been read, by hash. An object that could not be read is
/// not among them.
pub type Loaded = TextMap<Vec<u8>>;

/// The bytes of an object at hand.
pub open spec fn loaded_bytes(objects: Map<Seq<char>, Vec<u8>>, hash: Seq<char>) -> Option<Seq<u8>> {
    if objects.contains_key(hash) {
        Some(objects[hash]@)
    } else {
        None
    }
}

} // verus!
