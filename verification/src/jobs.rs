//! Ingest job status: reconstruction from fileset rows and single-job tracking.

use vstd::prelude::*;

use crate::decimal::{decimal_digits, push_decimal, push_signed_decimal, signed_decimal};
use crate::text::{chars_equal, chars_of, matches_at, push_chars, push_str_chars, starts_with, string_from_chars};
use crate::catalog::year_prefix;

verus! {

/// Status of an ingest job as reported to clients.
#[derive(Debug)]
pub struct JobStatus {
    /// Job id.
    pub id: u64,
    /// running | complete | failed.
    pub status: String,
    /// Human-readable progress message.
    pub message: String,
    /// Current shard index (1-based).
    pub current_shard: u32,
    /// Total shards in job.
    pub total_shards: u32,
    /// Games loaded so far in current job.
    pub games_loaded: u64,
}

/// A job status as (id, status, message, current shard, total shards, games loaded).
pub type JobView = (u64, Seq<char>, Seq<char>, u32, u32, u64);

impl View for JobStatus {
    type V = JobView;

    open spec fn view(&self) -> JobView {
        (
            self.id,
            self.status@,
            self.message@,
            self.current_shard,
            self.total_shards,
            self.games_loaded,
        )
    }
}

impl JobStatus {
    /// A field-by-field copy.
    pub fn duplicate(&self) -> (r: JobStatus)
        ensures
            r@ == self@,
    {
        JobStatus {
            id: self.id,
            status: self.status.clone(),
            message: self.message.clone(),
            current_shard: self.current_shard,
            total_shards: self.total_shards,
            games_loaded: self.games_loaded,
        }
    }
}

/// One fileset (monthly shard) row: period label, status and games loaded.
pub struct FilesetProgressRow {
    pub period_label: String,
    pub status: String,
    pub games_loaded: i64,
}

/// A fileset row as (period label, status, games loaded).
pub type RowView = (Seq<char>, Seq<char>, i64);

/// The views of a list of fileset rows.
pub open spec fn rows_view(v: Seq<FilesetProgressRow>) -> Seq<RowView> {
    Seq::new(v.len(), |i: int| (v[i].period_label@, v[i].status@, v[i].games_loaded))
}

/// Rows of one year, in order.
pub open spec fn year_rows(rows: Seq<RowView>, year: i32) -> Seq<RowView>
    decreases rows.len(),
{
    if rows.len() == 0 {
        Seq::empty()
    } else {
        let rest = year_rows(rows.drop_last(), year);
        if starts_with(rows.last().0, year_prefix(year as int)) {
            rest.push(rows.last())
        } else {
            rest
        }
    }
}

/// Sum of games loaded over rows.
pub open spec fn games_sum(rows: Seq<RowView>) -> int
    decreases rows.len(),
{
    if rows.len() == 0 {
        0
    } else {
        games_sum(rows.drop_last()) + rows.last().2
    }
}

/// Number of rows with the given status.
pub open spec fn status_count(rows: Seq<RowView>, status: Seq<char>) -> nat
    decreases rows.len(),
{
    if rows.len() == 0 {
        0
    } else {
        status_count(rows.drop_last(), status) + if rows.last().1 == status {
            1nat
        } else {
            0nat
        }
    }
}

/// Whether a shard is in progress.
pub open spec fn is_active_status(s: Seq<char>) -> bool {
    s == "downloading"@ || s == "ingesting"@
}

/// First row in progress.
pub open spec fn first_active(rows: Seq<RowView>) -> Option<RowView>
    decreases rows.len(),
{
    if rows.len() == 0 {
        None
    } else {
        match first_active(rows.drop_last()) {
            Some(r) => Some(r),
            None => if is_active_status(rows.last().1) {
                Some(rows.last())
            } else {
                None
            },
        }
    }
}

/// First failed row.
pub open spec fn first_failed(rows: Seq<RowView>) -> Option<RowView>
    decreases rows.len(),
{
    if rows.len() == 0 {
        None
    } else {
        match first_failed(rows.drop_last()) {
            Some(r) => Some(r),
            None => if rows.last().1 == "failed"@ {
                Some(rows.last())
            } else {
                None
            },
        }
    }
}

/// Running sums of games over every prefix of the year's rows stay within `i64`.
pub open spec fn year_sums_fit(rows: Seq<RowView>, year: i32) -> bool {
    forall|k: int|
        0 <= k <= year_rows(rows, year).len() ==> i64::MIN <= #[trigger] games_sum(
            year_rows(rows, year).take(k),
        ) <= i64::MAX
}

/// The job status that the filesets of one year describe: absent when the year has
/// no filesets; complete when every fileset is; failed at the first failed fileset;
/// otherwise running at the shard after the completed ones.
pub open spec fn spec_job_from_rows(rows: Seq<RowView>, year: i32) -> Option<JobView> {
    let shards = year_rows(rows, year);
    let total = shards.len();
    let games = games_sum(shards);
    let complete = status_count(shards, "complete"@);
    if total == 0 {
        None
    } else if complete == total {
        Some(
            (
                0u64,
                "complete"@,
                "loaded "@ + signed_decimal(games) + " games across "@ + decimal_digits(total)
                    + " shards"@,
                total as u32,
                total as u32,
                games as i64 as u64,
            ),
        )
    } else if first_failed(shards) is Some {
        let f = first_failed(shards)->0;
        Some(
            (
                0u64,
                "failed"@,
                "shard "@ + f.0 + " failed after "@ + signed_decimal(f.2 as int) + " games"@,
                (complete + 1) as u32,
                total as u32,
                games as i64 as u64,
            ),
        )
    } else {
        let message = match first_active(shards) {
            Some(a) => a.1 + " shard "@ + a.0 + " ("@ + signed_decimal(a.2 as int)
                + " games in shard)"@,
            None => decimal_digits(complete) + "/"@ + decimal_digits(total)
                + " shards complete \u{b7} resuming\u{2026}"@,
        };
        Some((0u64, "running"@, message, (complete + 1) as u32, total as u32, games as i64 as u64))
    }
}

fn status_string(s: &str) -> (r: String)
    ensures
        r@ == s@,
{
    crate::text::owned(s)
}

/// Rebuilds the status of a year's load job from its fileset rows (rows ordered by
/// period label).
pub fn job_from_fileset_rows(rows: &[FilesetProgressRow], year: i32) -> (r: Option<JobStatus>)
    requires
        year_sums_fit(rows_view(rows@), year),
    ensures
        (match r {
            Some(j) => Some(j@),
            None => None,
        }) == spec_job_from_rows(rows_view(rows@), year),
{
    let ghost all = rows_view(rows@);
    let mut prefix: Vec<char> = Vec::new();
    push_signed_decimal(&mut prefix, year as i64);
    prefix.push('-');
    assert(prefix@ =~= year_prefix(year as int));
    let complete_text = chars_of("complete");
    let failed_text = chars_of("failed");
    let downloading_text = chars_of("downloading");
    let ingesting_text = chars_of("ingesting");
    let mut total: usize = 0;
    let mut complete: usize = 0;
    let mut games: i64 = 0;
    let mut active: Option<usize> = None;
    let mut failed: Option<usize> = None;
    let mut i: usize = 0;
    while i < rows.len()
        invariant
            i <= rows@.len(),
            all == rows_view(rows@),
            year_sums_fit(all, year),
            prefix@ == year_prefix(year as int),
            complete_text@ == "complete"@,
            failed_text@ == "failed"@,
            downloading_text@ == "downloading"@,
            ingesting_text@ == "ingesting"@,
            total == year_rows(all.take(i as int), year).len(),
            total <= i,
            complete == status_count(year_rows(all.take(i as int), year), "complete"@),
            complete <= total,
            games == games_sum(year_rows(all.take(i as int), year)),
            active matches Some(k) ==> k < i && first_active(year_rows(all.take(i as int), year))
                == Some(all[k as int]),
            active is None ==> first_active(year_rows(all.take(i as int), year)) is None,
            failed matches Some(k) ==> k < i && first_failed(year_rows(all.take(i as int), year))
                == Some(all[k as int]),
            failed is None ==> first_failed(year_rows(all.take(i as int), year)) is None,
        decreases rows@.len() - i,
    {
        let label = chars_of(rows[i].period_label.as_str());
        assert(label@.skip(0) == label@);
        proof {
            assert(all.take(i + 1).drop_last() == all.take(i as int));
            assert(all.take(i + 1).last() == all[i as int]);
        }
        if matches_at(label.as_slice(), 0, prefix.as_slice()) {
            let ghost before = year_rows(all.take(i as int), year);
            let ghost after = year_rows(all.take(i + 1), year);
            assert(after == before.push(all[i as int]));
            assert(after.drop_last() == before);
            proof {
                // The running sum with this row is a prefix sum of the year's rows.
                crate::jobs::lemma_year_rows_prefix(all, year, i as int);
                assert(year_rows(all, year).take(after.len() as int) == after);
                assert(i64::MIN <= games_sum(year_rows(all, year).take(after.len() as int))
                    <= i64::MAX);
            }
            let st = chars_of(rows[i].status.as_str());
            games = games + rows[i].games_loaded;
            total = total + 1;
            if chars_equal(st.as_slice(), complete_text.as_slice()) {
                complete = complete + 1;
            }
            if active.is_none() && (chars_equal(st.as_slice(), downloading_text.as_slice())
                || chars_equal(st.as_slice(), ingesting_text.as_slice())) {
                active = Some(i);
            }
            if failed.is_none() && chars_equal(st.as_slice(), failed_text.as_slice()) {
                failed = Some(i);
            }
        }
        i = i + 1;
    }
    assert(all.take(rows@.len() as int) == all);
    if total == 0 {
        return None;
    }
    let mut msg: Vec<char> = Vec::new();
    if complete == total {
        push_str_chars(&mut msg, "loaded ");
        push_signed_decimal(&mut msg, games);
        push_str_chars(&mut msg, " games across ");
        push_decimal(&mut msg, total as u64);
        push_str_chars(&mut msg, " shards");
        return Some(
            JobStatus {
                id: 0,
                status: status_string("complete"),
                message: string_from_chars(msg.as_slice()),
                current_shard: total as u32,
                total_shards: total as u32,
                games_loaded: games as u64,
            },
        );
    }
    if let Some(k) = failed {
        push_str_chars(&mut msg, "shard ");
        let l = chars_of(rows[k].period_label.as_str());
        push_chars(&mut msg, &l);
        push_str_chars(&mut msg, " failed after ");
        push_signed_decimal(&mut msg, rows[k].games_loaded);
        push_str_chars(&mut msg, " games");
        return Some(
            JobStatus {
                id: 0,
                status: status_string("failed"),
                message: string_from_chars(msg.as_slice()),
                current_shard: (complete + 1) as u32,
                total_shards: total as u32,
                games_loaded: games as u64,
            },
        );
    }
    match active {
        Some(k) => {
            let s = chars_of(rows[k].status.as_str());
            push_chars(&mut msg, &s);
            push_str_chars(&mut msg, " shard ");
            let l = chars_of(rows[k].period_label.as_str());
            push_chars(&mut msg, &l);
            push_str_chars(&mut msg, " (");
            push_signed_decimal(&mut msg, rows[k].games_loaded);
            push_str_chars(&mut msg, " games in shard)");
        },
        None => {
            push_decimal(&mut msg, complete as u64);
            push_str_chars(&mut msg, "/");
            push_decimal(&mut msg, total as u64);
            push_str_chars(&mut msg, " shards complete \u{b7} resuming\u{2026}");
        },
    }
    Some(
        JobStatus {
            id: 0,
            status: status_string("running"),
            message: string_from_chars(msg.as_slice()),
            current_shard: (complete + 1) as u32,
            total_shards: total as u32,
            games_loaded: games as u64,
        },
    )
}

/// The year's rows of a prefix of the table are a prefix of the year's rows.
pub proof fn lemma_year_rows_prefix(rows: Seq<RowView>, year: i32, i: int)
    requires
        0 <= i < rows.len(),
    ensures
        year_rows(rows.take(i + 1), year).len() <= year_rows(rows, year).len(),
        year_rows(rows, year).take(year_rows(rows.take(i + 1), year).len() as int) == year_rows(
            rows.take(i + 1),
            year,
        ),
    decreases rows.len() - i,
{
    if i + 1 == rows.len() {
        assert(rows.take(i + 1) == rows);
    } else {
        lemma_year_rows_prefix(rows.drop_last(), year, i);
        assert(rows.drop_last().take(i + 1) == rows.take(i + 1));
        let a = year_rows(rows.take(i + 1), year);
        let b = year_rows(rows.drop_last(), year);
        assert(b.take(a.len() as int) == a);
        let c = year_rows(rows, year);
        if starts_with(rows.last().0, year_prefix(year as int)) {
            assert(c == b.push(rows.last()));
            assert(c.take(a.len() as int) == b.take(a.len() as int));
        } else {
            assert(c == b);
        }
    }
}

} // verus!

verus! {

/// The single tracked job (one active job at a time).
pub struct JobBoard {
    current: Option<JobStatus>,
}

/// The tracked job, if any.
pub open spec fn opt_job_view(j: Option<JobStatus>) -> Option<JobView> {
    match j {
        Some(s) => Some(s@),
        None => None,
    }
}

impl View for JobBoard {
    type V = Option<JobView>;

    closed spec fn view(&self) -> Option<JobView> {
        opt_job_view(self.current)
    }
}

/// The tracked job if it is running.
pub open spec fn spec_active(v: Option<JobView>) -> Option<JobView> {
    match v {
        Some(j) => if j.1 == "running"@ {
            Some(j)
        } else {
            None
        },
        None => None,
    }
}

/// Whether the tracked job is running.
pub open spec fn spec_running(v: Option<JobView>) -> bool {
    v matches Some(j) && j.1 == "running"@
}

/// Law: the board has a running job exactly when it reports an active job.
pub proof fn lemma_running_iff_active(v: Option<JobView>)
    ensures
        spec_running(v) <==> spec_active(v) is Some,
        spec_active(v) matches Some(j) ==> v == Some(j) && j.1 == "running"@,
{
}

/// The status a job gets when it starts.
pub open spec fn started_job(id: u64, total_shards: usize, message: Seq<char>) -> JobView {
    (id, "running"@, message, 0u32, total_shards as u32, 0u64)
}

impl JobBoard {
    /// A board with no job.
    pub fn new() -> (b: Self)
        ensures
            b@ is None,
    {
        JobBoard { current: None }
    }

    /// Starts tracking a new job under `id`, replacing any prior job state.
    pub fn start(&mut self, id: u64, total_shards: usize, message: String) -> (r: u64)
        ensures
            r == id,
            final(self)@ == Some(started_job(id, total_shards, message@)),
    {
        self.current = Some(
            JobStatus {
                id,
                status: status_string("running"),
                message,
                current_shard: 0,
                total_shards: total_shards as u32,
                games_loaded: 0,
            },
        );
        id
    }

    /// A copy of the tracked job, whatever its status.
    pub fn current(&self) -> (r: Option<JobStatus>)
        ensures
            opt_job_view(r) == self@,
    {
        match &self.current {
            Some(j) => Some(j.duplicate()),
            None => None,
        }
    }

    /// Replaces the tracked job's state, if a job is tracked (progress updates).
    pub fn replace_current(&mut self, job: JobStatus)
        ensures
            old(self)@ is None ==> final(self)@ is None,
            old(self)@ is Some ==> final(self)@ == Some(job@),
    {
        if self.current.is_some() {
            self.current = Some(job);
        }
    }

    fn finish(&mut self, status: &str, message: String)
        ensures
            old(self)@ is None ==> final(self)@ is None,
            old(self)@ matches Some(j) ==> final(self)@ == Some(
                (j.0, status@, message@, j.3, j.4, j.5),
            ),
    {
        match &self.current {
            Some(j) => {
                let next = JobStatus {
                    id: j.id,
                    status: status_string(status),
                    message,
                    current_shard: j.current_shard,
                    total_shards: j.total_shards,
                    games_loaded: j.games_loaded,
                };
                self.current = Some(next);
            },
            None => {},
        }
    }

    /// Marks the tracked job complete with a final message.
    pub fn complete(&mut self, message: String)
        ensures
            old(self)@ is None ==> final(self)@ is None,
            old(self)@ matches Some(j) ==> final(self)@ == Some(
                (j.0, "complete"@, message@, j.3, j.4, j.5),
            ),
    {
        self.finish("complete", message)
    }

    /// Marks the tracked job failed with a message.
    pub fn fail(&mut self, message: String)
        ensures
            old(self)@ is None ==> final(self)@ is None,
            old(self)@ matches Some(j) ==> final(self)@ == Some(
                (j.0, "failed"@, message@, j.3, j.4, j.5),
            ),
    {
        self.finish("failed", message)
    }

    /// The tracked job, if it is running.
    pub fn active(&self) -> (r: Option<JobStatus>)
        ensures
            opt_job_view(r) == spec_active(self@),
    {
        match &self.current {
            Some(j) => {
                let st = chars_of(j.status.as_str());
                let running = chars_of("running");
                if chars_equal(st.as_slice(), running.as_slice()) {
                    Some(j.duplicate())
                } else {
                    None
                }
            },
            None => None,
        }
    }

    /// The tracked job, if it has the given id.
    pub fn get(&self, job_id: u64) -> (r: Option<JobStatus>)
        ensures
            opt_job_view(r) == (match self@ {
                Some(j) => if j.0 == job_id {
                    Some(j)
                } else {
                    None
                },
                None => None,
            }),
    {
        match &self.current {
            Some(j) => if j.id == job_id {
                Some(j.duplicate())
            } else {
                None
            },
            None => None,
        }
    }

    /// Whether a job is currently running.
    pub fn is_running(&self) -> (b: bool)
        ensures
            b == spec_running(self@),
    {
        match &self.current {
            Some(j) => {
                let st = chars_of(j.status.as_str());
                let running = chars_of("running");
                chars_equal(st.as_slice(), running.as_slice())
            },
            None => false,
        }
    }
}

/// Law: a started job is running and can be fetched by its id until it is
/// completed or failed, after which it no longer runs.
pub proof fn lemma_job_lifecycle(id: u64, total_shards: usize, message: Seq<char>, done: Seq<char>)
    ensures
        started_job(id, total_shards, message).1 == "running"@,
        started_job(id, total_shards, message).0 == id,
        ({
            let j = started_job(id, total_shards, message);
            (j.0, "complete"@, done, j.3, j.4, j.5).1 != "running"@
                && (j.0, "failed"@, done, j.3, j.4, j.5).1 != "running"@
        }),
{
    reveal_strlit("running");
    reveal_strlit("complete");
    reveal_strlit("failed");
    assert("running"@[0] != "complete"@[0]);
    assert("running"@[0] != "failed"@[0]);
}

/// Whether a job status is final: complete or failed.
pub open spec fn spec_is_terminal(status: Seq<char>) -> bool {
    status == "complete"@ || status == "failed"@
}

/// Whether a job status is final: complete or failed. A job watch stops after
/// delivering such a status.
pub fn is_terminal_status(status: &str) -> (b: bool)
    ensures
        b == spec_is_terminal(status@),
{
    crate::text::str_equal(status, "complete") || crate::text::str_equal(status, "failed")
}

/// The year a job lookup uses when none is given.
pub const DEFAULT_JOB_YEAR: i32 = 2024;

impl JobBoard {
    /// The id of the running job, which a new year-load request is answered with
    /// instead of starting another job; none when a new job may start.
    pub fn running_job_id(&self) -> (r: Option<u64>)
        ensures
            r == (match self@ {
                Some(j) => if j.1 == "running"@ {
                    Some(j.0)
                } else {
                    None
                },
                None => None,
            }),
    {
        if self.is_running() {
            match self.active() {
                Some(job) => Some(job.id),
                None => None,
            }
        } else {
            None
        }
    }
}

/// Where a job watch starts.
#[derive(Debug)]
pub enum WatchStart {
    /// The tracked job with this id.
    ById(u64),
    /// The job reconstructed from a source's filesets for a year.
    Reconstruct(String, i32),
    /// The running job.
    Active,
}

/// Decides where a job watch starts: a given job id first, else a named source's
/// year (2024 unless given), else the running job.
pub fn watch_start(job_id: u64, source_name: Option<String>, year: Option<i32>) -> (w: WatchStart)
    ensures
        job_id > 0 ==> w == WatchStart::ById(job_id),
        job_id == 0 && source_name is Some ==> (w matches WatchStart::Reconstruct(n, y) && Some(n)
            == source_name && y == (match year {
            Some(y) => y,
            None => DEFAULT_JOB_YEAR,
        })),
        job_id == 0 && source_name is None ==> w is Active,
{
    if job_id > 0 {
        WatchStart::ById(job_id)
    } else {
        match source_name {
            Some(name) => WatchStart::Reconstruct(
                name,
                match year {
                    Some(y) => y,
                    None => DEFAULT_JOB_YEAR,
                },
            ),
            None => WatchStart::Active,
        }
    }
}

/// Which source's year an active-job lookup reconstructs when no job runs: a
/// non-empty source name and the given year (2024 unless given); none without a name.
pub fn reconstruct_target(source_name: Option<String>, year: Option<i32>) -> (r: Option<(String, i32)>)
    ensures
        match source_name {
            Some(n) => if n@.len() > 0 {
                (r matches Some((m, y)) && m@ == n@ && y == (match year {
                    Some(y) => y,
                    None => DEFAULT_JOB_YEAR,
                }))
            } else {
                r is None
            },
            None => r is None,
        },
{
    match source_name {
        Some(name) => {
            if chars_of(name.as_str()).len() == 0 {
                None
            } else {
                let y = match year {
                    Some(y) => y,
                    None => DEFAULT_JOB_YEAR,
                };
                Some((name, y))
            }
        },
        None => None,
    }
}

/// The refusal of a year load while a job runs.
pub fn job_already_running_message() -> (r: String)
    ensures
        r@ == "an ingest job is already running"@,
{
    crate::text::owned("an ingest job is already running")
}

} // verus!

verus! {

/// Whether a fileset row belongs to the given year: its period label starts with the
/// year and a dash.
pub open spec fn in_year(r: RowView, year: i32) -> bool {
    starts_with(r.0, year_prefix(year as int))
}

/// Games loaded over every row of the year, whatever its status.
pub open spec fn year_games_loaded(rows: Seq<RowView>, year: i32) -> int
    decreases rows.len(),
{
    if rows.len() == 0 {
        0
    } else {
        year_games_loaded(rows.drop_last(), year) + if in_year(rows.last(), year) {
            rows.last().2 as int
        } else {
            0int
        }
    }
}

/// Number of rows of the year.
pub open spec fn year_shard_count(rows: Seq<RowView>, year: i32) -> nat
    decreases rows.len(),
{
    if rows.len() == 0 {
        0
    } else {
        year_shard_count(rows.drop_last(), year) + if in_year(rows.last(), year) {
            1nat
        } else {
            0nat
        }
    }
}

proof fn lemma_year_totals(rows: Seq<RowView>, year: i32)
    ensures
        games_sum(year_rows(rows, year)) == year_games_loaded(rows, year),
        year_rows(rows, year).len() == year_shard_count(rows, year),
        forall|i: int|
            0 <= i < year_rows(rows, year).len() ==> in_year(#[trigger] year_rows(rows, year)[i], year)
                && rows.contains(year_rows(rows, year)[i]),
        forall|i: int|
            0 <= i < rows.len() && in_year(#[trigger] rows[i], year) ==> year_rows(rows, year).contains(
                rows[i],
            ),
    decreases rows.len(),
{
    if rows.len() > 0 {
        let w = rows.drop_last();
        lemma_year_totals(w, year);
        let yr = year_rows(rows, year);
        let yw = year_rows(w, year);
        if in_year(rows.last(), year) {
            assert(yr.drop_last() == yw);
            assert(yr.last() == rows.last());
        } else {
            assert(yr == yw);
        }
        assert forall|i: int| 0 <= i < yr.len() implies in_year(#[trigger] yr[i], year) && rows.contains(yr[i]) by {
            if i < yw.len() {
                assert(yr[i] == yw[i]);
                let k = choose|k: int| 0 <= k < w.len() && w[k] == yw[i];
                assert(rows[k] == w[k]);
            } else {
                assert(rows[rows.len() - 1] == rows.last());
            }
        }
        assert forall|i: int| 0 <= i < rows.len() && in_year(#[trigger] rows[i], year) implies yr.contains(rows[i]) by {
            if i < w.len() {
                assert(rows[i] == w[i]);
                let k = choose|k: int| 0 <= k < yw.len() && yw[k] == w[i];
                assert(yr[k] == yw[k]);
            } else {
                assert(yr[yr.len() - 1] == rows.last());
            }
        }
    }
}

proof fn lemma_all_complete(s: Seq<RowView>)
    ensures
        status_count(s, "complete"@) <= s.len(),
        status_count(s, "complete"@) == s.len() <==> forall|i: int| 0 <= i < s.len() ==> (#[trigger] s[i]).1 == "complete"@,
    decreases s.len(),
{
    if s.len() > 0 {
        let w = s.drop_last();
        lemma_all_complete(w);
        if forall|i: int| 0 <= i < s.len() ==> (#[trigger] s[i]).1 == "complete"@ {
            assert forall|i: int| 0 <= i < w.len() implies (#[trigger] w[i]).1 == "complete"@ by {
                assert(w[i] == s[i]);
            }
            assert(s[s.len() - 1] == s.last());
        } else if status_count(s, "complete"@) == s.len() {
            assert(status_count(w, "complete"@) == w.len());
            assert(s.last().1 == "complete"@);
            assert forall|i: int| 0 <= i < s.len() implies (#[trigger] s[i]).1 == "complete"@ by {
                if i < w.len() {
                    assert(w[i] == s[i]);
                }
            }
        }
    }
}

proof fn lemma_first_failed_exists(s: Seq<RowView>)
    ensures
        first_failed(s) is Some <==> exists|i: int| 0 <= i < s.len() && (#[trigger] s[i]).1 == "failed"@,
        first_failed(s) matches Some(f) ==> s.contains(f) && f.1 == "failed"@,
    decreases s.len(),
{
    if s.len() > 0 {
        let w = s.drop_last();
        lemma_first_failed_exists(w);
        if exists|i: int| 0 <= i < w.len() && (#[trigger] w[i]).1 == "failed"@ {
            let i = choose|i: int| 0 <= i < w.len() && (#[trigger] w[i]).1 == "failed"@;
            assert(s[i] == w[i]);
        }
        if exists|i: int| 0 <= i < s.len() && (#[trigger] s[i]).1 == "failed"@ {
            let i = choose|i: int| 0 <= i < s.len() && (#[trigger] s[i]).1 == "failed"@;
            if i < w.len() {
                assert(w[i] == s[i]);
            }
        }
        if let Some(f) = first_failed(w) {
            let k = choose|k: int| 0 <= k < w.len() && w[k] == f;
            assert(s[k] == w[k]);
        }
        assert(s[s.len() - 1] == s.last());
    }
}

/// Law: a job rebuilt from fileset rows describes exactly the year's filesets. There
/// is a job only when the year has filesets; its shard total is their number and its
/// games loaded the sum of their games, whatever its status. It is complete exactly
/// when every fileset of the year is; otherwise failed exactly when one of them
/// failed, else running; and unless complete, its current shard is the one after the
/// completed ones.
pub proof fn lemma_job_describes_year(rows: Seq<RowView>, year: i32)
    ensures
        ({
            let shards = year_rows(rows, year);
            let all_complete = forall|i: int|
                0 <= i < shards.len() ==> (#[trigger] shards[i]).1 == "complete"@;
            let any_failed = exists|i: int| 0 <= i < shards.len() && (#[trigger] shards[i]).1 == "failed"@;
            match spec_job_from_rows(rows, year) {
                None => year_shard_count(rows, year) == 0,
                Some(j) => {
                    &&& year_shard_count(rows, year) > 0
                    &&& j.4 as int == year_shard_count(rows, year) as u32 as int
                    &&& j.5 == year_games_loaded(rows, year) as i64 as u64
                    &&& (j.1 == "complete"@ <==> all_complete)
                    &&& (j.1 == "failed"@ <==> !all_complete && any_failed)
                    &&& (j.1 == "running"@ <==> !all_complete && !any_failed)
                    &&& !all_complete ==> j.3 as int == (status_count(shards, "complete"@) + 1) as u32 as int
                },
            }
        }),
        forall|i: int|
            0 <= i < year_rows(rows, year).len() ==> in_year(#[trigger] year_rows(rows, year)[i], year)
                && rows.contains(year_rows(rows, year)[i]),
        forall|i: int|
            0 <= i < rows.len() && in_year(#[trigger] rows[i], year) ==> year_rows(rows, year).contains(
                rows[i],
            ),
{
    lemma_year_totals(rows, year);
    let shards = year_rows(rows, year);
    lemma_all_complete(shards);
    lemma_first_failed_exists(shards);
    reveal_strlit("complete");
    reveal_strlit("failed");
    reveal_strlit("running");
    assert("complete"@.len() == 8 && "failed"@.len() == 6 && "running"@.len() == 7);
}

} // verus!
