//! Decisions of the shard downloader: cache completeness, retry backoff, progress
//! reporting and completion checks, and SHA-256 digests of shard bytes.

use sha2::Digest;
use vstd::prelude::*;

use crate::decimal::{decimal_digits, push_decimal};
use crate::text::{chars_of, string_from_chars};

verus! {

/// Lichess monthly shards are ~27–30 GiB compressed; smaller files are incomplete.
pub const MIN_COMPLETE_SHARD_BYTES: u64 = 5_000_000_000;

/// Attempts made before a download gives up.
pub const MAX_DOWNLOAD_ATTEMPTS: u32 = 5;

/// Progress is reported at least every this many bytes.
pub const PROGRESS_STEP_BYTES: u64 = 67108864;

/// The SHA-256 digest of a byte string.
pub uninterp spec fn spec_sha256(data: Seq<u8>) -> Seq<u8>;

/// Calls `sha2::Sha256::digest`. Claimed: the digest is a function of the bytes
/// alone and is 32 bytes long; its value is left unstated.
#[verifier::external_body]
fn sha256_of(data: &[u8]) -> (d: Vec<u8>)
    ensures
        d@ == spec_sha256(data@),
        d@.len() == 32,
{
    sha2::Sha256::digest(data).to_vec()
}

/// A SHA-256 hasher fed piece by piece: a `sha2::Sha256` held opaquely, whose
/// contents `sha256_fed` names as the bytes fed so far.
#[verifier::external_body]
pub struct Sha256Hasher {
    inner: sha2::Sha256,
}

/// The bytes fed so far to a hasher.
pub uninterp spec fn sha256_fed(h: Sha256Hasher) -> Seq<u8>;

/// A fresh hasher, from `sha2::Sha256::new`; nothing has been fed to it.
#[verifier::external_body]
fn sha256_new() -> (h: Sha256Hasher)
    ensures
        sha256_fed(h) == Seq::<u8>::empty(),
{
    Sha256Hasher { inner: sha2::Sha256::new() }
}

/// Feeds `chunk` to the hasher with `Digest::update`: the bytes fed grow by the chunk.
#[verifier::external_body]
fn sha256_update(h: &mut Sha256Hasher, chunk: &[u8])
    ensures
        sha256_fed(*final(h)) == sha256_fed(*old(h)) + chunk@,
{
    h.inner.update(chunk)
}

/// The digest of everything fed, from `Digest::finalize`: the same digest that
/// `Sha256::digest` gives for those bytes at once (which `digest` computes by exactly
/// this feed and finalize), 32 bytes long.
#[verifier::external_body]
fn sha256_finalize(h: Sha256Hasher) -> (d: Vec<u8>)
    ensures
        d@ == spec_sha256(sha256_fed(h)),
        d@.len() == 32,
{
    h.inner.finalize().to_vec()
}

/// Size and SHA-256 digest of file contents, as stored for a downloaded shard.
pub fn hash_bytes(bytes: &[u8]) -> (r: (i64, Vec<u8>))
    ensures
        r.0 == bytes@.len() as i64,
        r.1@ == spec_sha256(bytes@),
        r.1@.len() == 32,
{
    (bytes.len() as i64, sha256_of(bytes))
}

/// Whether a cached file's size is acceptable: equal to the known size when one is
/// recorded (compared as `u64`), otherwise at least the minimum shard size.
pub open spec fn spec_cache_size_ok(size: u64, known_byte_size: Option<i64>) -> bool {
    match known_byte_size {
        Some(expected) => size == expected as u64,
        None => size >= MIN_COMPLETE_SHARD_BYTES,
    }
}

/// Checks a cached file's size against the recorded size or the minimum shard size.
pub fn cache_size_ok(size: u64, known_byte_size: Option<i64>) -> (b: bool)
    ensures
        b == spec_cache_size_ok(size, known_byte_size),
{
    match known_byte_size {
        Some(expected) => size == expected as u64,
        None => size >= MIN_COMPLETE_SHARD_BYTES,
    }
}

/// Whether a cached shard looks complete: the file exists (`size`), its size passes,
/// and, when a digest is recorded, the file's digest (`actual_sha256`, absent when it
/// could not be computed) equals it.
pub open spec fn spec_cache_complete(
    size: Option<u64>,
    known_byte_size: Option<i64>,
    known_sha256: Option<Seq<u8>>,
    actual_sha256: Option<Seq<u8>>,
) -> bool {
    match size {
        None => false,
        Some(s) => spec_cache_size_ok(s, known_byte_size) && match known_sha256 {
            Some(expected) => actual_sha256 == Some(expected),
            None => true,
        },
    }
}

/// Decides whether a cached shard is complete from its metadata and digests.
pub fn cache_complete_decision(
    size: Option<u64>,
    known_byte_size: Option<i64>,
    known_sha256: Option<&[u8]>,
    actual_sha256: Option<&[u8]>,
) -> (b: bool)
    ensures
        b == spec_cache_complete(
            size,
            known_byte_size,
            match known_sha256 {
                Some(k) => Some(k@),
                None => None,
            },
            match actual_sha256 {
                Some(a) => Some(a@),
                None => None,
            },
        ),
{
    match size {
        None => false,
        Some(s) => {
            if !cache_size_ok(s, known_byte_size) {
                return false;
            }
            match known_sha256 {
                Some(expected) => match actual_sha256 {
                    Some(actual) => bytes_equal(actual, expected),
                    None => false,
                },
                None => true,
            }
        },
    }
}

fn bytes_equal(a: &[u8], b: &[u8]) -> (r: bool)
    ensures
        r == (a@ == b@),
{
    if a.len() != b.len() {
        return false;
    }
    let mut i: usize = 0;
    while i < a.len()
        invariant
            i <= a@.len(),
            a@.len() == b@.len(),
            forall|j: int| 0 <= j < i ==> a@[j] == b@[j],
        decreases a@.len() - i,
    {
        if a[i] != b[i] {
            return false;
        }
        i = i + 1;
    }
    assert(a@ =~= b@);
    true
}

/// Backoff after failed attempt `attempt` (1-based): 2^attempt seconds, or none after
/// the last attempt.
pub open spec fn spec_retry_delay_secs(attempt: u32) -> Option<u64> {
    if attempt < MAX_DOWNLOAD_ATTEMPTS {
        Some(crate::progress::two_pow(attempt as nat) as u64)
    } else {
        None
    }
}

/// The wait before retrying after failed attempt `attempt`, if another attempt follows.
pub fn retry_delay_secs(attempt: u32) -> (r: Option<u64>)
    ensures
        r == spec_retry_delay_secs(attempt),
{
    if attempt < MAX_DOWNLOAD_ATTEMPTS {
        let mut p: u64 = 1;
        let mut k: u32 = 0;
        while k < attempt
            invariant
                k <= attempt < 5,
                p == crate::progress::two_pow(k as nat),
                p <= 16,
            decreases attempt - k,
        {
            proof {
                reveal_with_fuel(crate::progress::two_pow, 5);
            }
            p = p * 2;
            k = k + 1;
            assert(p == crate::progress::two_pow(k as nat));
        }
        Some(p)
    } else {
        None
    }
}

/// Byte counts of a download in progress: bytes received, bytes at the last progress
/// report, and the announced size.
pub struct DownloadTracker {
    downloaded: u64,
    last_progress: u64,
    total: Option<u64>,
}

/// The tracker as (downloaded, last reported, total).
pub type TrackerView = (u64, u64, Option<u64>);

impl View for DownloadTracker {
    type V = TrackerView;

    closed spec fn view(&self) -> TrackerView {
        (self.downloaded, self.last_progress, self.total)
    }
}

/// Whether progress is reported after a chunk: 64 MiB more since the last report, or
/// the announced size reached.
pub open spec fn spec_should_report(downloaded: u64, last: u64, total: Option<u64>) -> bool {
    downloaded - last >= PROGRESS_STEP_BYTES || (total matches Some(t) && downloaded >= t)
}

/// The message for a finished download that does not look whole, if any.
pub open spec fn spec_download_problem(url: Seq<char>, downloaded: u64, total: Option<u64>) -> Option<
    Seq<char>,
> {
    match total {
        Some(expected) => if downloaded != expected {
            Some(
                "download incomplete for "@ + url + ": got "@ + decimal_digits(downloaded as nat)
                    + " bytes, expected "@ + decimal_digits(expected as nat),
            )
        } else {
            None
        },
        None => if downloaded < MIN_COMPLETE_SHARD_BYTES {
            Some(
                "download suspiciously small for "@ + url + ": "@ + decimal_digits(
                    downloaded as nat,
                ) + " bytes"@,
            )
        } else {
            None
        },
    }
}

impl DownloadTracker {
    /// Reported bytes never run ahead of received bytes.
    #[verifier::type_invariant]
    spec fn report_behind(self) -> bool {
        self.last_progress <= self.downloaded
    }

    /// A tracker for a download of `total` bytes (when announced).
    pub fn new(total: Option<u64>) -> (t: Self)
        ensures
            t@ == (0u64, 0u64, total),
    {
        DownloadTracker { downloaded: 0, last_progress: 0, total }
    }

    /// Bytes received so far.
    pub fn downloaded(&self) -> (n: u64)
        ensures
            n == self@.0,
    {
        self.downloaded
    }

    /// Counts a received chunk; with `reporting` set, tells whether to report progress
    /// now and remembers the report.
    pub fn on_chunk(&mut self, len: usize, reporting: bool) -> (report: bool)
        requires
            old(self)@.0 + len <= u64::MAX,
        ensures
            ({
                let d = (old(self)@.0 + len) as u64;
                let r = reporting && spec_should_report(d, old(self)@.1, old(self)@.2);
                &&& report == r
                &&& final(self)@ == (d, if r { d } else { old(self)@.1 }, old(self)@.2)
            }),
    {
        proof {
            use_type_invariant(&*self);
        }
        self.downloaded = self.downloaded + len as u64;
        if reporting {
            let reached = match self.total {
                Some(t) => self.downloaded >= t,
                None => false,
            };
            if self.downloaded - self.last_progress >= PROGRESS_STEP_BYTES || reached {
                self.last_progress = self.downloaded;
                return true;
            }
        }
        false
    }

    /// Checks a finished download against its announced size, or the minimum shard size
    /// when none was announced.
    pub fn check_complete(&self, url: &str) -> (r: Result<(), String>)
        ensures
            r is Ok <==> spec_download_problem(url@, self@.0, self@.2) is None,
            r matches Err(m) ==> spec_download_problem(url@, self@.0, self@.2) == Some(m@),
    {
        let mut msg: Vec<char> = Vec::new();
        match self.total {
            Some(expected) => {
                if self.downloaded != expected {
                    let mut a = chars_of("download incomplete for ");
                    msg.append(&mut a);
                    let mut u = chars_of(url);
                    msg.append(&mut u);
                    let mut b = chars_of(": got ");
                    msg.append(&mut b);
                    push_decimal(&mut msg, self.downloaded);
                    let mut c = chars_of(" bytes, expected ");
                    msg.append(&mut c);
                    push_decimal(&mut msg, expected);
                    return Err(string_from_chars(msg.as_slice()));
                }
                Ok(())
            },
            None => {
                if self.downloaded < MIN_COMPLETE_SHARD_BYTES {
                    let mut a = chars_of("download suspiciously small for ");
                    msg.append(&mut a);
                    let mut u = chars_of(url);
                    msg.append(&mut u);
                    let mut b = chars_of(": ");
                    msg.append(&mut b);
                    push_decimal(&mut msg, self.downloaded);
                    let mut c = chars_of(" bytes");
                    msg.append(&mut c);
                    return Err(string_from_chars(msg.as_slice()));
                }
                Ok(())
            },
        }
    }
}

/// A download being written: its byte counts, the bytes received so far, and the
/// SHA-256 digest of those bytes as they arrive.
pub struct DownloadSink {
    tracker: DownloadTracker,
    hasher: Sha256Hasher,
    received: Ghost<Seq<u8>>,
}

impl DownloadSink {
    /// The bytes received so far.
    pub closed spec fn bytes(&self) -> Seq<u8> {
        self.received@
    }

    /// The byte counts, as the tracker holds them.
    pub closed spec fn counts(&self) -> TrackerView {
        self.tracker@
    }

    /// The hasher has been fed exactly the bytes received, and the tracker counted them.
    pub closed spec fn wf(&self) -> bool {
        &&& sha256_fed(self.hasher) == self.received@
        &&& self.tracker@.0 == self.received@.len()
    }

    /// A sink for a download of `total` bytes (when announced); nothing received yet.
    pub fn new(total: Option<u64>) -> (s: Self)
        ensures
            s.wf(),
            s.bytes() == Seq::<u8>::empty(),
            s.counts() == (0u64, 0u64, total),
    {
        DownloadSink {
            tracker: DownloadTracker::new(total),
            hasher: sha256_new(),
            received: Ghost(Seq::empty()),
        }
    }

    /// Bytes received so far.
    pub fn downloaded(&self) -> (n: u64)
        requires
            self.wf(),
        ensures
            n == self.bytes().len(),
    {
        self.tracker.downloaded()
    }

    /// Takes a received chunk: counts it, feeds it to the digest, and (with `reporting`
    /// set) tells whether to report progress now, as `DownloadTracker::on_chunk` does.
    pub fn on_chunk(&mut self, chunk: &[u8], reporting: bool) -> (report: bool)
        requires
            old(self).wf(),
            old(self).bytes().len() + chunk@.len() <= u64::MAX,
        ensures
            final(self).wf(),
            final(self).bytes() == old(self).bytes() + chunk@,
            ({
                let d = (old(self).counts().0 + chunk@.len()) as u64;
                let r = reporting && spec_should_report(d, old(self).counts().1, old(self).counts().2);
                &&& report == r
                &&& final(self).counts() == (d, if r { d } else { old(self).counts().1 }, old(self).counts().2)
            }),
    {
        let report = self.tracker.on_chunk(chunk.len(), reporting);
        sha256_update(&mut self.hasher, chunk);
        proof {
            self.received = Ghost(self.received@ + chunk@);
        }
        report
    }

    /// Ends the download: checks its size as `DownloadTracker::check_complete` does and,
    /// when it is whole, gives its size and the SHA-256 digest of the bytes received.
    pub fn finish(self, url: &str) -> (r: Result<(i64, Vec<u8>), String>)
        requires
            self.wf(),
        ensures
            r is Ok <==> spec_download_problem(url@, self.counts().0, self.counts().2) is None,
            r matches Err(m) ==> spec_download_problem(url@, self.counts().0, self.counts().2)
                == Some(m@),
            r matches Ok((n, d)) ==> n == self.bytes().len() as i64 && d@ == spec_sha256(
                self.bytes(),
            ) && d@.len() == 32,
    {
        match self.tracker.check_complete(url) {
            Err(m) => Err(m),
            Ok(()) => {
                let n = self.tracker.downloaded() as i64;
                Ok((n, sha256_finalize(self.hasher)))
            },
        }
    }
}

/// File name of the partial download beside `name` (or beside "shard" when the
/// destination has no usable file name).
pub open spec fn spec_part_file_name(name: Option<Seq<char>>) -> Seq<char> {
    match name {
        Some(n) => n + ".part"@,
        None => "shard"@ + ".part"@,
    }
}

/// Name of the partial-download file for a destination file name.
pub fn part_file_name(name: Option<&str>) -> (r: String)
    ensures
        r@ == spec_part_file_name(
            match name {
                Some(n) => Some(n@),
                None => None,
            },
        ),
{
    let mut out = match name {
        Some(n) => chars_of(n),
        None => chars_of("shard"),
    };
    let mut suffix = chars_of(".part");
    out.append(&mut suffix);
    string_from_chars(out.as_slice())
}

} // verus!

verus! {

#[verifier::external_type_specification]
#[verifier::external_body]
pub struct ExPath(std::path::Path);

#[verifier::external_type_specification]
#[verifier::external_body]
pub struct ExPathBuf(std::path::PathBuf);

/// The path `Path::join` builds from a directory and a file name.
pub uninterp spec fn path_join(dir: &std::path::Path, name: Seq<char>) -> std::path::PathBuf;

/// A path's file name as text, as `Path::file_name` followed by `OsStr::to_str` gives
/// it: none when the path has no file name or it is not valid UTF-8.
pub uninterp spec fn path_file_name(p: &std::path::Path) -> Option<Seq<char>>;

/// The path `Path::with_file_name` builds from a path and a new file name.
pub uninterp spec fn path_with_file_name(p: &std::path::Path, name: Seq<char>) -> std::path::PathBuf;

/// The cache file for `filename` inside `cache_dir`.
///
/// Calls `Path::join`; the path built is claimed to be the one named `path_join`.
#[verifier::external_body]
pub fn cached_path(cache_dir: &std::path::Path, filename: &str) -> (r: std::path::PathBuf)
    ensures
        r == path_join(cache_dir, filename@),
{
    cache_dir.join(filename)
}

/// The file name of `dest` as text, if it has one that is valid UTF-8.
///
/// Calls `Path::file_name` and converts it with `OsStr::to_str`; the text is claimed
/// to be the one named `path_file_name`.
#[verifier::external_body]
fn file_name_text(dest: &std::path::Path) -> (r: Option<&str>)
    ensures
        match r {
            Some(t) => path_file_name(dest) == Some(t@),
            None => path_file_name(dest) is None,
        },
{
    dest.file_name().and_then(|n| n.to_str())
}

/// `dest` with its file name replaced by `name`.
///
/// Calls `Path::with_file_name`; the path built is claimed to be the one named
/// `path_with_file_name`.
#[verifier::external_body]
fn with_file_name(dest: &std::path::Path, name: &str) -> (r: std::path::PathBuf)
    ensures
        r == path_with_file_name(dest, name@),
{
    dest.with_file_name(name)
}

/// The partial-download path beside `dest`: its file name (or "shard") plus ".part".
pub fn part_path(dest: &std::path::Path) -> (r: std::path::PathBuf)
    ensures
        r == path_with_file_name(dest, spec_part_file_name(path_file_name(dest))),
{
    let name = file_name_text(dest);
    let part = part_file_name(name);
    with_file_name(dest, part.as_str())
}

} // verus!
