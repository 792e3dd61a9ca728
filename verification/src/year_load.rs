//! Loading a year of monthly shards: which filesets to load, in what order, what to
//! prefetch, how progress is reported and how the outcome is judged.
//!
//! The downloads and database work are the caller's; this module holds the decisions
//! between them.

use vstd::prelude::*;

use crate::catalog::year_prefix;
use crate::decimal::{decimal_digits, push_decimal, push_signed_decimal, signed_decimal};
use crate::text::{chars_of, matches_at, push_str_chars, starts_with, str_equal, string_from_chars};

verus! {

/// A row of the fileset table: one downloadable monthly shard and its load state.
#[derive(Debug, Clone)]
pub struct FilesetRow {
    /// Primary key.
    pub id: i64,
    /// Owning source id.
    pub source_id: i32,
    /// Remote download URL.
    pub remote_url: String,
    /// Archive filename.
    pub filename: String,
    /// Period label, such as `2024-03`.
    pub period_label: String,
    /// Compressed byte size when known.
    pub byte_size: Option<i64>,
    /// SHA-256 of the downloaded file, when known.
    pub sha256: Option<Vec<u8>>,
    /// Lifecycle status.
    pub status: String,
    /// Games successfully loaded.
    pub games_loaded: i64,
    /// Parse errors during ingest.
    pub games_errors: i64,
    /// Positions loaded.
    pub positions_loaded: i64,
    /// Plies loaded.
    pub plies_loaded: i64,
    /// Last error message if failed.
    pub error_message: Option<String>,
}

/// Whether a fileset has been loaded completely.
pub open spec fn is_complete(f: FilesetRow) -> bool {
    f.status@ == "complete"@
}

/// Whether a fileset belongs to the year: its period label starts with `YEAR-`.
pub open spec fn in_year(f: FilesetRow, year: i32) -> bool {
    starts_with(f.period_label@, year_prefix(year as int))
}

/// The filesets of a year in their order, without the complete ones when asked to
/// skip those.
pub open spec fn year_targets(rows: Seq<FilesetRow>, year: i32, skip_complete: bool) -> Seq<FilesetRow>
    decreases rows.len(),
{
    if rows.len() == 0 {
        Seq::empty()
    } else {
        let rest = year_targets(rows.drop_last(), year, skip_complete);
        let f = rows.last();
        if in_year(f, year) && !(skip_complete && is_complete(f)) {
            rest.push(f)
        } else {
            rest
        }
    }
}

fn is_complete_status(status: &str) -> (b: bool)
    ensures
        b == (status@ == "complete"@),
{
    str_equal(status, "complete")
}

/// Selects the filesets of a year, keeping their order; with `skip_complete`, the
/// complete ones are left out.
pub fn select_year_filesets(rows: Vec<FilesetRow>, year: i32, skip_complete: bool) -> (r: Vec<FilesetRow>)
    ensures
        r@ == year_targets(rows@, year, skip_complete),
{
    let ghost all = rows@;
    let mut prefix: Vec<char> = Vec::new();
    push_signed_decimal(&mut prefix, year as i64);
    prefix.push('-');
    assert(prefix@ =~= year_prefix(year as int));
    let mut out: Vec<FilesetRow> = Vec::new();
    for f in it: rows.into_iter()
        invariant
            it.seq() == all,
            prefix@ == year_prefix(year as int),
            out@ == year_targets(all.take(it.index() as int), year, skip_complete),
    {
        let ghost k = it.index();
        proof {
            assert(all.take(k + 1).drop_last() == all.take(k as int));
            assert(all.take(k + 1).last() == all[k as int]);
        }
        let label = chars_of(f.period_label.as_str());
        assert(label@.skip(0) == label@);
        let keep = matches_at(label.as_slice(), 0, prefix.as_slice())
            && !(skip_complete && is_complete_status(f.status.as_str()));
        if keep {
            out.push(f);
        }
    }
    assert(all.take(all.len() as int) == all);
    out
}

/// Positions of the filesets that are not complete, in order, among the first `n`.
pub open spec fn pending_upto(t: Seq<FilesetRow>, n: int) -> Seq<int>
    decreases n,
{
    if n <= 0 {
        Seq::empty()
    } else {
        let rest = pending_upto(t, n - 1);
        if is_complete(t[n - 1]) {
            rest
        } else {
            rest.push(n - 1)
        }
    }
}

/// Positions of the filesets that are not complete, in order.
pub open spec fn pending_of(t: Seq<FilesetRow>) -> Seq<int> {
    pending_upto(t, t.len() as int)
}

/// The first position, among the first `n`, of a fileset with the given id.
pub open spec fn first_with_id_upto(t: Seq<FilesetRow>, id: i64, n: int) -> Option<int>
    decreases n,
{
    if n <= 0 {
        None
    } else {
        match first_with_id_upto(t, id, n - 1) {
            Some(k) => Some(k),
            None => if t[n - 1].id == id {
                Some(n - 1)
            } else {
                None
            },
        }
    }
}

/// The first position of a fileset with the given id.
pub open spec fn first_with_id(t: Seq<FilesetRow>, id: i64) -> Option<int> {
    first_with_id_upto(t, id, t.len() as int)
}

/// The shard number shown for the pending shard at position `p` of the pending
/// list: one more than the first position of a fileset with its id (or than `p`,
/// where there is none), as a `u32`.
pub open spec fn shard_number(t: Seq<FilesetRow>, p: int) -> u32 {
    let id = t[pending_of(t)[p]].id;
    let k = match first_with_id(t, id) {
        Some(k) => k,
        None => p,
    };
    (k + 1) as u32
}

/// Sum of `games_loaded` over the first `n` complete filesets' rows, each taken as a
/// `u64` the way `as` converts it.
pub open spec fn complete_games_upto(t: Seq<FilesetRow>, n: int) -> nat
    decreases n,
{
    if n <= 0 {
        0
    } else {
        complete_games_upto(t, n - 1) + if is_complete(t[n - 1]) {
            (t[n - 1].games_loaded as u64) as nat
        } else {
            0
        }
    }
}

/// Sum of `games_loaded` (as `u64`) over the complete filesets.
pub open spec fn complete_games(t: Seq<FilesetRow>) -> nat {
    complete_games_upto(t, t.len() as int)
}

proof fn lemma_pending_bounds(t: Seq<FilesetRow>, n: int)
    requires
        0 <= n <= t.len(),
    ensures
        pending_upto(t, n).len() <= n,
        forall|j: int| 0 <= j < pending_upto(t, n).len() ==> 0 <= #[trigger] pending_upto(t, n)[j] < n,
        forall|j: int, k: int| 0 <= j < k < pending_upto(t, n).len() ==> pending_upto(t, n)[j]
            < pending_upto(t, n)[k],
    decreases n,
{
    if n > 0 {
        lemma_pending_bounds(t, n - 1);
    }
}

/// The next shard to load and what to prefetch meanwhile.
#[derive(Debug, Clone, Copy)]
pub struct ShardStep {
    /// Position of the fileset among the job's targets.
    pub target: usize,
    /// Shard number to show as the current shard.
    pub shard_number: u32,
    /// Position of the next pending fileset, whose download may start meanwhile.
    pub prefetch_next: Option<usize>,
}

/// The next step of a load over targets `t` after `done` finished shards: the
/// position of the fileset, its shard number, and the position of the one after it.
pub open spec fn spec_next_step(t: Seq<FilesetRow>, done: int) -> Option<(int, u32, Option<int>)> {
    let p = pending_of(t);
    if done < p.len() {
        Some((p[done], shard_number(t, done), if done + 1 < p.len() {
            Some(p[done + 1])
        } else {
            None
        }))
    } else {
        None
    }
}

/// A shard step as plain values.
pub open spec fn step_view(s: Option<ShardStep>) -> Option<(int, u32, Option<int>)> {
    match s {
        Some(st) => Some((st.target as int, st.shard_number, match st.prefetch_next {
            Some(q) => Some(q as int),
            None => None,
        })),
        None => None,
    }
}

/// Progress of a year load: the target filesets, which of them are pending, how
/// many pending shards are finished and how many games they loaded.
pub struct YearLoadJob {
    targets: Vec<FilesetRow>,
    pending: Vec<usize>,
    done: usize,
    games: u64,
}

impl YearLoadJob {
    #[verifier::type_invariant]
    spec fn well_formed(self) -> bool {
        &&& self.pending@.len() == pending_of(self.targets@).len()
        &&& forall|j: int|
            0 <= j < self.pending@.len() ==> #[trigger] self.pending@[j] as int == pending_of(
                self.targets@,
            )[j]
        &&& self.done <= self.pending@.len()
    }

    /// The target filesets, in load order.
    pub closed spec fn targets(&self) -> Seq<FilesetRow> {
        self.targets@
    }

    /// How many pending shards are finished.
    pub closed spec fn done(&self) -> nat {
        self.done as nat
    }

    /// Games loaded by the finished shards.
    pub closed spec fn games(&self) -> nat {
        self.games as nat
    }

    /// Starts a load over the given target filesets.
    pub fn new(targets: Vec<FilesetRow>) -> (j: Self)
        ensures
            j.targets() == targets@,
            j.done() == 0,
            j.games() == 0,
    {
        let mut pending: Vec<usize> = Vec::new();
        let mut i: usize = 0;
        while i < targets.len()
            invariant
                i <= targets@.len(),
                pending@.len() == pending_upto(targets@, i as int).len(),
                forall|j: int|
                    0 <= j < pending@.len() ==> #[trigger] pending@[j] as int == pending_upto(
                        targets@,
                        i as int,
                    )[j],
            decreases targets@.len() - i,
        {
            if !is_complete_status(targets[i].status.as_str()) {
                pending.push(i);
            }
            i = i + 1;
        }
        YearLoadJob { targets, pending, done: 0, games: 0 }
    }

    /// Number of target shards, as a `u32`.
    pub fn total_shards(&self) -> (n: u32)
        ensures
            n == self.targets().len() as u32,
    {
        self.targets.len() as u32
    }

    /// The target fileset at a position.
    pub fn target(&self, i: usize) -> (f: &FilesetRow)
        requires
            i < self.targets().len(),
        ensures
            *f == self.targets()[i as int],
    {
        &self.targets[i]
    }

    /// Number of pending shards (targets that are not complete).
    pub fn pending_count(&self) -> (n: usize)
        ensures
            n == pending_of(self.targets()).len(),
    {
        proof {
            use_type_invariant(self);
        }
        self.pending.len()
    }

    /// Games loaded so far by the finished shards.
    pub fn games_loaded(&self) -> (n: u64)
        ensures
            n == self.games(),
    {
        self.games
    }

    fn first_position_with_id(&self, id: i64) -> (r: Option<usize>)
        ensures
            match r {
                Some(k) => first_with_id(self.targets(), id) == Some(k as int),
                None => first_with_id(self.targets(), id) is None,
            },
    {
        let mut k: usize = 0;
        while k < self.targets.len()
            invariant
                k <= self.targets@.len(),
                first_with_id_upto(self.targets@, id, k as int) is None,
            decreases self.targets@.len() - k,
        {
            if self.targets[k].id == id {
                proof {
                    lemma_first_with_id_found(self.targets@, id, k as int);
                }
                return Some(k);
            }
            k = k + 1;
        }
        None
    }

    /// The next shard to load, or none when every pending shard is finished.
    pub fn next_shard(&self) -> (r: Option<ShardStep>)
        ensures
            step_view(r) == spec_next_step(self.targets(), self.done() as int),
    {
        proof {
            use_type_invariant(self);
            lemma_pending_bounds(self.targets@, self.targets@.len() as int);
        }
        if self.done >= self.pending.len() {
            return None;
        }
        let target = self.pending[self.done];
        let id = self.targets[target].id;
        let index = match self.first_position_with_id(id) {
            Some(k) => k,
            None => self.done,
        };
        let prefetch_next = if self.done + 1 < self.pending.len() {
            Some(self.pending[self.done + 1])
        } else {
            None
        };
        proof {
            lemma_first_with_id_bounds(self.targets@, id, self.targets@.len() as int);
        }
        let tn = self.targets.len();
        assert(index < tn);
        let number: u32 = #[verifier::truncate] ((index + 1) as u32);
        Some(ShardStep { target, shard_number: number, prefetch_next })
    }

    /// Records that the current shard finished after loading `games_loaded` games.
    pub fn shard_finished(&mut self, games_loaded: u64)
        requires
            old(self).done() < pending_of(old(self).targets()).len(),
            old(self).games() + games_loaded <= u64::MAX,
        ensures
            final(self).targets() == old(self).targets(),
            final(self).done() == old(self).done() + 1,
            final(self).games() == old(self).games() + games_loaded,
    {
        proof {
            use_type_invariant(&*self);
        }
        let n = self.pending.len();
        assert(self.done < n);
        self.done = self.done + 1;
        self.games = self.games + games_loaded;
    }

    /// The job's total once every pending shard is finished: the games they loaded
    /// plus those of the targets that were already complete. None where that sum
    /// does not fit a `u64`.
    pub fn final_total(&self) -> (r: Option<u64>)
        requires
            self.done() == pending_of(self.targets()).len(),
        ensures
            r == (if self.games() + complete_games(self.targets()) <= u64::MAX {
                Some((self.games() + complete_games(self.targets())) as u64)
            } else {
                None
            }),
    {
        let mut total: u64 = self.games;
        let mut i: usize = 0;
        while i < self.targets.len()
            invariant
                i <= self.targets@.len(),
                total == self.games() + complete_games_upto(self.targets@, i as int),
            decreases self.targets@.len() - i,
        {
            if is_complete_status(self.targets[i].status.as_str()) {
                let add = self.targets[i].games_loaded as u64;
                match total.checked_add(add) {
                    Some(t) => total = t,
                    None => {
                        proof {
                            lemma_complete_games_grow(self.targets@, i as int + 1, self.targets@.len() as int);
                        }
                        return None;
                    },
                }
            }
            i = i + 1;
        }
        Some(total)
    }
}

proof fn lemma_first_with_id_found(t: Seq<FilesetRow>, id: i64, k: int)
    requires
        0 <= k < t.len(),
        first_with_id_upto(t, id, k) is None,
        t[k].id == id,
    ensures
        first_with_id(t, id) == Some(k),
{
    lemma_first_with_id_stays(t, id, k + 1, t.len() as int);
}

proof fn lemma_first_with_id_stays(t: Seq<FilesetRow>, id: i64, a: int, b: int)
    requires
        0 <= a <= b <= t.len(),
        first_with_id_upto(t, id, a) is Some,
    ensures
        first_with_id_upto(t, id, b) == first_with_id_upto(t, id, a),
    decreases b - a,
{
    if a < b {
        lemma_first_with_id_stays(t, id, a, b - 1);
    }
}

proof fn lemma_first_with_id_bounds(t: Seq<FilesetRow>, id: i64, n: int)
    requires
        0 <= n <= t.len(),
    ensures
        first_with_id_upto(t, id, n) matches Some(k) ==> 0 <= k < n && t[k].id == id,
    decreases n,
{
    if n > 0 {
        lemma_first_with_id_bounds(t, id, n - 1);
    }
}

proof fn lemma_complete_games_grow(t: Seq<FilesetRow>, a: int, b: int)
    requires
        0 <= a <= b <= t.len(),
    ensures
        complete_games_upto(t, a) <= complete_games_upto(t, b),
    decreases b - a,
{
    if a < b {
        lemma_complete_games_grow(t, a, b - 1);
    }
}

/// Number of monthly shards a year job is started with.
pub const YEAR_JOB_SHARDS: usize = 12;

/// The message a year job starts with.
pub open spec fn spec_year_job_start_message() -> Seq<char> {
    "starting fileset load"@
}

/// The message a year job starts with.
pub fn year_job_start_message() -> (r: String)
    ensures
        r@ == spec_year_job_start_message(),
{
    crate::text::owned("starting fileset load")
}

/// Progress message while a shard downloads.
pub open spec fn spec_downloading_message(label: Seq<char>) -> Seq<char> {
    "downloading shard "@ + label
}

/// Progress message while a shard downloads.
pub fn downloading_message(label: &str) -> (r: String)
    ensures
        r@ == spec_downloading_message(label@),
{
    let mut out: Vec<char> = Vec::new();
    push_str_chars(&mut out, "downloading shard ");
    push_str_chars(&mut out, label);
    string_from_chars(out.as_slice())
}

/// Progress message when a shard's ingest starts.
pub open spec fn spec_ingest_started_message(label: Seq<char>) -> Seq<char> {
    "ingesting shard "@ + label + " (parsing PGN and loading positions\u{2026})"@
}

/// Progress message when a shard's ingest starts.
pub fn ingest_started_message(label: &str) -> (r: String)
    ensures
        r@ == spec_ingest_started_message(label@),
{
    let mut out: Vec<char> = Vec::new();
    push_str_chars(&mut out, "ingesting shard ");
    push_str_chars(&mut out, label);
    push_str_chars(&mut out, " (parsing PGN and loading positions\u{2026})");
    string_from_chars(out.as_slice())
}

/// Progress message while a shard's games are loaded.
pub open spec fn spec_ingest_progress_message(label: Seq<char>, shard_games: nat) -> Seq<char> {
    "ingesting shard "@ + label + " ("@ + decimal_digits(shard_games) + " games in shard so far\u{2026})"@
}

/// Progress message while a shard's games are loaded.
pub fn ingest_progress_message(label: &str, shard_games: usize) -> (r: String)
    ensures
        r@ == spec_ingest_progress_message(label@, shard_games as nat),
{
    let mut out: Vec<char> = Vec::new();
    push_str_chars(&mut out, "ingesting shard ");
    push_str_chars(&mut out, label);
    push_str_chars(&mut out, " (");
    push_decimal(&mut out, shard_games as u64);
    push_str_chars(&mut out, " games in shard so far\u{2026})");
    string_from_chars(out.as_slice())
}

/// Message after a shard finished, with the job's running total.
pub open spec fn spec_shard_finished_message(label: Seq<char>, total: nat) -> Seq<char> {
    "finished shard "@ + label + " \u{b7} "@ + decimal_digits(total) + " games total"@
}

/// Message after a shard finished, with the job's running total.
pub fn shard_finished_message(label: &str, total_games: u64) -> (r: String)
    ensures
        r@ == spec_shard_finished_message(label@, total_games as nat),
{
    let mut out: Vec<char> = Vec::new();
    push_str_chars(&mut out, "finished shard ");
    push_str_chars(&mut out, label);
    push_str_chars(&mut out, " \u{b7} ");
    push_decimal(&mut out, total_games);
    push_str_chars(&mut out, " games total");
    string_from_chars(out.as_slice())
}

/// Message a finished year job completes with.
pub open spec fn spec_year_complete_message(total: nat) -> Seq<char> {
    "loaded "@ + decimal_digits(total) + " games across 12 shards"@
}

/// Message a finished year job completes with.
pub fn year_complete_message(total_games: u64) -> (r: String)
    ensures
        r@ == spec_year_complete_message(total_games as nat),
{
    let mut out: Vec<char> = Vec::new();
    push_str_chars(&mut out, "loaded ");
    push_decimal(&mut out, total_games);
    push_str_chars(&mut out, " games across 12 shards");
    string_from_chars(out.as_slice())
}

/// The games shown while a shard loads: the job's total before the shard plus the
/// shard's games so far.
pub fn games_during_shard(base_games: u64, shard_games: usize) -> (n: u64)
    requires
        base_games + shard_games <= u64::MAX,
    ensures
        n == base_games + shard_games,
{
    base_games + shard_games as u64
}

/// The error of a year load that found no filesets.
pub open spec fn spec_no_filesets_message(source: Seq<char>, year: i32) -> Seq<char> {
    "no filesets found for source "@ + source + " year "@ + signed_decimal(year as int)
        + "; run sync-catalog first"@
}

/// The error of a year load that found no filesets.
pub fn no_filesets_message(source: &str, year: i32) -> (r: String)
    ensures
        r@ == spec_no_filesets_message(source@, year),
{
    let mut out: Vec<char> = Vec::new();
    push_str_chars(&mut out, "no filesets found for source ");
    push_str_chars(&mut out, source);
    push_str_chars(&mut out, " year ");
    push_signed_decimal(&mut out, year as i64);
    push_str_chars(&mut out, "; run sync-catalog first");
    string_from_chars(out.as_slice())
}

/// How many shards load at once: the requested number, at least one.
pub fn shard_concurrency(requested: usize) -> (n: usize)
    ensures
        n == (if requested == 0 { 1 } else { requested }),
{
    if requested == 0 {
        1
    } else {
        requested
    }
}

/// While the fileset at position `i` of `count` loads in order, the position of the one
/// whose archive is fetched ahead: the next one, when there is a next one (and the
/// caller fetches it only when the cache does not hold it whole).
pub fn prefetch_after(i: usize, count: usize) -> (r: Option<usize>)
    ensures
        r == (if i + 1 < count {
            Some((i + 1) as usize)
        } else {
            None::<usize>
        }),
{
    if i < count && count - i > 1 {
        Some(i + 1)
    } else {
        None
    }
}

/// Shards of a year load that loaded and that failed, counted as they finish.
pub struct LoadTally {
    /// Shards that loaded.
    pub loaded: usize,
    /// Shards that failed.
    pub failures: usize,
}

impl LoadTally {
    /// Nothing finished yet.
    pub fn new() -> (t: Self)
        ensures
            t.loaded == 0,
            t.failures == 0,
    {
        LoadTally { loaded: 0, failures: 0 }
    }

    /// Counts a finished shard as loaded or failed.
    pub fn shard_done(&mut self, ok: bool)
        requires
            old(self).loaded + old(self).failures < usize::MAX,
        ensures
            final(self).loaded == old(self).loaded + if ok { 1int } else { 0int },
            final(self).failures == old(self).failures + if ok { 0int } else { 1int },
    {
        if ok {
            self.loaded = self.loaded + 1;
        } else {
            self.failures = self.failures + 1;
        }
    }

    /// The load's error, when no shard loaded and some failed.
    pub fn outcome(&self, parallel: bool) -> (r: Option<String>)
        ensures
            crate::search::opt_string_view(r) == spec_year_load_failure(
                self.loaded as nat,
                self.failures as nat,
                parallel,
            ),
    {
        year_load_failure(self.loaded, self.failures, parallel)
    }
}

/// The error of a year load in which every shard failed.
pub open spec fn spec_year_load_failure(loaded: nat, failures: nat, parallel: bool) -> Option<Seq<char>> {
    if loaded == 0 && failures > 0 {
        Some("all "@ + decimal_digits(failures) + (if parallel {
            " parallel shard loads failed"@
        } else {
            " shard loads failed"@
        }))
    } else {
        None
    }
}

/// Judges a year load from how many shards loaded and how many failed: it fails,
/// with this message, only when none loaded and at least one failed.
pub fn year_load_failure(loaded: usize, failures: usize, parallel: bool) -> (r: Option<String>)
    ensures
        crate::search::opt_string_view(r) == spec_year_load_failure(loaded as nat, failures as nat, parallel),
{
    if loaded == 0 && failures > 0 {
        let mut out: Vec<char> = Vec::new();
        push_str_chars(&mut out, "all ");
        push_decimal(&mut out, failures as u64);
        if parallel {
            push_str_chars(&mut out, " parallel shard loads failed");
        } else {
            push_str_chars(&mut out, " shard loads failed");
        }
        Some(string_from_chars(out.as_slice()))
    } else {
        None
    }
}

/// How a shard's archive is obtained before its ingest.
#[derive(Debug, Clone, Copy, PartialEq, Eq, Structural)]
pub enum CacheAction {
    /// The cached file is complete and its size and digest are on record.
    UseCached,
    /// The cached file is complete; its size and digest are computed from it.
    HashCached,
    /// An incomplete cached file is removed and the archive fetched again (from a
    /// prefetch under way, if any).
    ReplaceIncomplete,
    /// No cached file: the prefetch under way is awaited, and its failure recorded.
    AwaitPrefetch,
    /// No cached file and no prefetch: the archive is downloaded.
    Download,
}

/// The way a shard's archive is obtained.
pub open spec fn spec_cache_action(
    known_size_and_digest: bool,
    cache_complete: bool,
    cached_exists: bool,
    has_prefetch: bool,
) -> CacheAction {
    if cache_complete {
        if known_size_and_digest {
            CacheAction::UseCached
        } else {
            CacheAction::HashCached
        }
    } else if cached_exists {
        CacheAction::ReplaceIncomplete
    } else if has_prefetch {
        CacheAction::AwaitPrefetch
    } else {
        CacheAction::Download
    }
}

/// Decides how a fileset's archive is obtained: from a complete cached file, by
/// replacing an incomplete one, from a prefetch under way, or by downloading.
pub fn cache_action(row: &FilesetRow, cache_complete: bool, cached_exists: bool, has_prefetch: bool) -> (a: CacheAction)
    ensures
        a == spec_cache_action(
            row.byte_size is Some && row.sha256 is Some,
            cache_complete,
            cached_exists,
            has_prefetch,
        ),
{
    if cache_complete {
        if row.byte_size.is_some() && row.sha256.is_some() {
            CacheAction::UseCached
        } else {
            CacheAction::HashCached
        }
    } else if cached_exists {
        CacheAction::ReplaceIncomplete
    } else if has_prefetch {
        CacheAction::AwaitPrefetch
    } else {
        CacheAction::Download
    }
}

/// Law: the pending shards of a load are exactly the targets that are not complete,
/// each once, in target order.
pub proof fn lemma_pending_exactly_incomplete(t: Seq<FilesetRow>)
    ensures
        forall|j: int|
            0 <= j < pending_of(t).len() ==> 0 <= #[trigger] pending_of(t)[j] < t.len()
                && !is_complete(t[pending_of(t)[j]]),
        forall|j: int, k: int|
            0 <= j < k < pending_of(t).len() ==> pending_of(t)[j] < pending_of(t)[k],
        forall|i: int|
            0 <= i < t.len() && !is_complete(#[trigger] t[i]) ==> exists|j: int|
                0 <= j < pending_of(t).len() && pending_of(t)[j] == i,
{
    lemma_pending_upto_exact(t, t.len() as int);
    let p = pending_of(t);
    assert forall|i: int| 0 <= i < t.len() && !is_complete(#[trigger] t[i]) implies exists|j: int|
        0 <= j < p.len() && p[j] == i by {
        assert(0 <= i < t.len() && !is_complete(t[i]));
    }
}

proof fn lemma_pending_upto_exact(t: Seq<FilesetRow>, n: int)
    requires
        0 <= n <= t.len(),
    ensures
        forall|j: int|
            0 <= j < pending_upto(t, n).len() ==> 0 <= #[trigger] pending_upto(t, n)[j] < n
                && !is_complete(t[pending_upto(t, n)[j]]),
        forall|j: int, k: int|
            0 <= j < k < pending_upto(t, n).len() ==> pending_upto(t, n)[j] < pending_upto(t, n)[k],
        forall|i: int|
            0 <= i < n && !is_complete(#[trigger] t[i]) ==> exists|j: int|
                0 <= j < pending_upto(t, n).len() && pending_upto(t, n)[j] == i,
    decreases n,
{
    if n > 0 {
        lemma_pending_upto_exact(t, n - 1);
        let before = pending_upto(t, n - 1);
        let after = pending_upto(t, n);
        assert forall|i: int| 0 <= i < n && !is_complete(#[trigger] t[i]) implies exists|j: int|
            0 <= j < after.len() && after[j] == i by {
            if i < n - 1 {
                let j = choose|j: int| 0 <= j < before.len() && before[j] == i;
                assert(after[j] == before[j]);
            } else {
                assert(after[before.len() as int] == i);
            }
        }
    }
}

/// Law: when the targets' ids are distinct, the shard number shown for a pending
/// shard is its position among the targets, counting from one.
pub proof fn lemma_shard_number_is_position(t: Seq<FilesetRow>, p: int)
    requires
        0 <= p < pending_of(t).len(),
        forall|a: int, b: int| 0 <= a < b < t.len() ==> t[a].id != t[b].id,
        t.len() < u32::MAX,
    ensures
        shard_number(t, p) == pending_of(t)[p] + 1,
{
    lemma_pending_exactly_incomplete(t);
    let k = pending_of(t)[p];
    lemma_first_with_id_absent(t, t[k].id, k);
    lemma_first_with_id_found(t, t[k].id, k);
}

proof fn lemma_first_with_id_absent(t: Seq<FilesetRow>, id: i64, n: int)
    requires
        0 <= n <= t.len(),
        forall|a: int| 0 <= a < n ==> t[a].id != id,
    ensures
        first_with_id_upto(t, id, n) is None,
    decreases n,
{
    if n > 0 {
        lemma_first_with_id_absent(t, id, n - 1);
    }
}

/// Law: the filesets selected for a year are, in order, exactly the rows whose
/// period is in that year, without the complete ones when those are skipped.
pub proof fn lemma_year_targets_exact(rows: Seq<FilesetRow>, year: i32, skip_complete: bool)
    ensures
        forall|j: int|
            0 <= j < year_targets(rows, year, skip_complete).len() ==> in_year(
                #[trigger] year_targets(rows, year, skip_complete)[j],
                year,
            ) && !(skip_complete && is_complete(year_targets(rows, year, skip_complete)[j])),
        year_targets(rows, year, skip_complete).len() <= rows.len(),
        forall|i: int|
            0 <= i < rows.len() && in_year(#[trigger] rows[i], year) && !(skip_complete
                && is_complete(rows[i])) ==> year_targets(rows, year, skip_complete).contains(rows[i]),
    decreases rows.len(),
{
    if rows.len() > 0 {
        let rest = rows.drop_last();
        lemma_year_targets_exact(rest, year, skip_complete);
        let before = year_targets(rest, year, skip_complete);
        let after = year_targets(rows, year, skip_complete);
        assert forall|i: int|
            0 <= i < rows.len() && in_year(#[trigger] rows[i], year) && !(skip_complete
                && is_complete(rows[i])) implies after.contains(rows[i]) by {
            if i < rows.len() - 1 {
                assert(rest[i] == rows[i]);
                let j = choose|j: int| 0 <= j < before.len() && before[j] == rest[i];
                assert(after[j] == before[j]);
            } else {
                assert(after[before.len() as int] == rows[i]);
            }
        }
    }
}

} // verus!
