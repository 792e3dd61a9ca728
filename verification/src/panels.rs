//! State of the studio front end's panels between requests: result lists that
//! load page by page, stale-response guards, replay stepping, and the labels the
//! panels show.

use vstd::prelude::*;

use crate::api_types::{FilesetView, GameListItem, PositionHit, SourceDetail, SourceListItem, EXPLORER_PAGE_SIZE};
use crate::decimal::{decimal_digits, parse_i64, push_decimal, spec_parse_i64};
use crate::format::{format_num, spec_format_num};
use crate::jobs::JobStatus;
use crate::search::opt_string_view;
use crate::text::{chars_of, contains_chars, contains_seq, owned, push_str_chars, str_equal, string_from_chars};

verus! {

/// Most games the search list keeps; older ones are dropped as pages append.
pub const GAMES_LIST_CAP: usize = 200;

/// The game list after a page arrives: a new search replaces it; a further page
/// appends and keeps the newest 200.
pub open spec fn spec_games_after_page(old: Seq<GameListItem>, page: Seq<GameListItem>, reset: bool) -> Seq<
    GameListItem,
> {
    if reset {
        page
    } else {
        let all = old + page;
        if all.len() > GAMES_LIST_CAP {
            all.skip(all.len() - GAMES_LIST_CAP)
        } else {
            all
        }
    }
}

/// The game search list and its paging state.
pub struct GameListState {
    /// Games listed.
    pub games: Vec<GameListItem>,
    /// Total matches, or -1 when not counted.
    pub total: i64,
    /// Offset of the next page.
    pub offset: i64,
    /// Cursor of the next page.
    pub cursor: Option<String>,
    /// Whether more games may follow.
    pub has_more: bool,
    /// Whether a search was made.
    pub searched: bool,
    /// Whether a request is under way.
    pub loading: bool,
    /// The last request's error.
    pub error: Option<String>,
}

impl GameListState {
    /// No search made yet.
    pub fn new() -> (s: Self)
        ensures
            s.games@.len() == 0,
            s.total == 0,
            s.offset == 0,
            s.cursor is None,
            !s.has_more,
            !s.searched,
            !s.loading,
            s.error is None,
    {
        GameListState {
            games: Vec::new(),
            total: 0,
            offset: 0,
            cursor: None,
            has_more: false,
            searched: false,
            loading: false,
            error: None,
        }
    }

    /// Starts a search request (a new search when `reset`, else the next page) and
    /// gives the offset and cursor to request.
    pub fn begin_search(&mut self, reset: bool) -> (r: (i64, Option<String>))
        ensures
            r.0 == (if reset { 0 } else { old(self).offset }),
            opt_string_view(r.1) == (if reset { None } else { opt_string_view(old(self).cursor) }),
            final(self).searched,
            final(self).loading,
            final(self).error is None,
            final(self).offset == (if reset { 0 } else { old(self).offset }),
            opt_string_view(final(self).cursor) == (if reset { None } else { opt_string_view(old(self).cursor) }),
            final(self).games@ == old(self).games@,
            final(self).total == old(self).total,
            final(self).has_more == old(self).has_more,
    {
        self.searched = true;
        self.error = None;
        let next_offset = if reset { 0 } else { self.offset };
        let cursor = if reset {
            None
        } else {
            match &self.cursor {
                Some(c) => Some(c.clone()),
                None => None,
            }
        };
        if reset {
            self.offset = 0;
            self.cursor = None;
        }
        self.loading = true;
        (next_offset, cursor)
    }

    /// Takes in a page of results.
    pub fn page_loaded(
        &mut self,
        reset: bool,
        games: Vec<GameListItem>,
        total: i64,
        offset: i64,
        limit: i64,
        has_more: bool,
        next_cursor: Option<String>,
    )
        requires
            i64::MIN <= offset + limit <= i64::MAX,
        ensures
            final(self).games@ == spec_games_after_page(old(self).games@, games@, reset),
            final(self).total == total,
            final(self).has_more == has_more,
            final(self).cursor == next_cursor,
            final(self).offset == offset + limit,
            !final(self).loading,
            final(self).searched == old(self).searched,
            final(self).error == old(self).error,
    {
        if reset {
            self.games = games;
        } else {
            let mut page = games;
            self.games.append(&mut page);
            let n = self.games.len();
            if n > GAMES_LIST_CAP {
                let kept = self.games.split_off(n - GAMES_LIST_CAP);
                self.games = kept;
            }
        }
        self.total = total;
        self.has_more = has_more;
        self.cursor = next_cursor;
        self.offset = offset + limit;
        self.loading = false;
    }

    /// Takes in a failed request: a failed new search empties the list.
    pub fn page_failed(&mut self, reset: bool, error: String)
        ensures
            final(self).error == Some(error),
            !final(self).loading,
            reset ==> final(self).games@.len() == 0 && final(self).total == 0 && !final(self).has_more,
            !reset ==> final(self).games@ == old(self).games@ && final(self).total == old(self).total
                && final(self).has_more == old(self).has_more,
            final(self).offset == old(self).offset,
            final(self).cursor == old(self).cursor,
            final(self).searched == old(self).searched,
    {
        self.error = Some(error);
        if reset {
            self.games = Vec::new();
            self.total = 0;
            self.has_more = false;
        }
        self.loading = false;
    }

    /// Whether "load more" may request the next page.
    pub fn can_load_more(&self) -> (b: bool)
        ensures
            b == (self.has_more && !self.loading),
    {
        self.has_more && !self.loading
    }

    /// The result count shown above the list: the total, or the listed count with a
    /// "+" when the total was not counted.
    pub fn results_label(&self) -> (s: String)
        ensures
            s@ == spec_results_label(self.total, self.games@.len()),
    {
        let mut out: Vec<char> = Vec::new();
        if self.total < 0 {
            let n = self.games.len();
            let shown: i64 = if (n as u64) <= (i64::MAX as u64) { n as i64 } else { i64::MAX };
            let num = format_num(shown);
            push_str_chars(&mut out, num.as_str());
            push_str_chars(&mut out, "+ results");
        } else {
            let num = format_num(self.total);
            push_str_chars(&mut out, num.as_str());
            push_str_chars(&mut out, " results");
        }
        string_from_chars(out.as_slice())
    }

    /// The note shown when the list is empty.
    pub fn empty_message(&self) -> (s: String)
        ensures
            s@ == (if self.searched {
                "No games found \u{2014} try a different name"@
            } else {
                "Search for a player to browse games"@
            }),
    {
        if self.searched {
            owned("No games found \u{2014} try a different name")
        } else {
            owned("Search for a player to browse games")
        }
    }
}

/// The result count label for a total (negative when not counted) and the number of
/// games listed.
pub open spec fn spec_results_label(total: i64, listed: nat) -> Seq<char> {
    if total < 0 {
        spec_format_num(if listed <= i64::MAX { listed as int } else { i64::MAX as int }) + "+ results"@
    } else {
        spec_format_num(total as int) + " results"@
    }
}

/// Law: once the search list holds at most 200 games, it keeps holding at most 200
/// whatever further pages append, and those it keeps are the newest, in order.
pub proof fn lemma_games_list_capped(old: Seq<GameListItem>, page: Seq<GameListItem>)
    requires
        old.len() <= GAMES_LIST_CAP,
    ensures
        spec_games_after_page(old, page, false).len() <= GAMES_LIST_CAP,
        forall|i: int|
            0 <= i < spec_games_after_page(old, page, false).len() ==> #[trigger] spec_games_after_page(
                old,
                page,
                false,
            )[i] == (old + page)[(old + page).len() - spec_games_after_page(old, page, false).len()
                + i],
{
}

/// The explorer's list of games reaching the position and its paging state.
pub struct PositionListState {
    /// Games listed.
    pub hits: Vec<PositionHit>,
    /// Games reaching the position.
    pub total: i64,
    /// Offset of the page to show.
    pub offset: i64,
    /// Whether more games may follow.
    pub has_more: bool,
    /// Whether a request is under way.
    pub loading: bool,
    /// The last request's error.
    pub error: Option<String>,
}

impl PositionListState {
    /// Nothing listed.
    pub fn new() -> (s: Self)
        ensures
            s.hits@.len() == 0,
            s.total == 0,
            s.offset == 0,
            !s.has_more,
            !s.loading,
            s.error is None,
    {
        PositionListState { hits: Vec::new(), total: 0, offset: 0, has_more: false, loading: false, error: None }
    }

    /// A new position: listing restarts at the first page.
    pub fn position_changed(&mut self)
        ensures
            final(self).offset == 0,
            final(self).hits@ == old(self).hits@,
            final(self).total == old(self).total,
            final(self).has_more == old(self).has_more,
            final(self).loading == old(self).loading,
            final(self).error == old(self).error,
    {
        self.offset = 0;
    }

    /// Starts the request of the current page and gives its offset.
    pub fn begin_fetch(&mut self) -> (o: i64)
        ensures
            o == old(self).offset,
            final(self).offset == old(self).offset,
            final(self).loading,
            final(self).error is None,
            final(self).hits@ == old(self).hits@,
            final(self).total == old(self).total,
            final(self).has_more == old(self).has_more,
    {
        self.loading = true;
        self.error = None;
        self.offset
    }

    /// Takes in the page fetched at `offset`: the first page replaces the list,
    /// others append.
    pub fn page_loaded(&mut self, offset: i64, hits: Vec<PositionHit>, total: i64, has_more: bool)
        ensures
            final(self).hits@ == (if offset == 0 { hits@ } else { old(self).hits@ + hits@ }),
            final(self).total == total,
            final(self).has_more == has_more,
            !final(self).loading,
            final(self).offset == old(self).offset,
            final(self).error == old(self).error,
    {
        if offset == 0 {
            self.hits = hits;
        } else {
            let mut more = hits;
            self.hits.append(&mut more);
        }
        self.total = total;
        self.has_more = has_more;
        self.loading = false;
    }

    /// Takes in a failed request at `offset`: a failed first page empties the list.
    pub fn page_failed(&mut self, offset: i64, error: String)
        ensures
            final(self).error == Some(error),
            !final(self).loading,
            offset == 0 ==> final(self).hits@.len() == 0 && final(self).total == 0
                && !final(self).has_more,
            offset != 0 ==> final(self).hits@ == old(self).hits@ && final(self).total
                == old(self).total && final(self).has_more == old(self).has_more,
            final(self).offset == old(self).offset,
    {
        self.error = Some(error);
        if offset == 0 {
            self.hits = Vec::new();
            self.total = 0;
            self.has_more = false;
        }
        self.loading = false;
    }

    /// No position hash: nothing to list.
    pub fn clear(&mut self)
        ensures
            final(self).hits@.len() == 0,
            final(self).total == 0,
            !final(self).has_more,
            final(self).offset == old(self).offset,
            final(self).loading == old(self).loading,
            final(self).error == old(self).error,
    {
        self.hits = Vec::new();
        self.total = 0;
        self.has_more = false;
    }

    /// "Load more": moves to the next page when more games may follow and no
    /// request is under way; says whether it did.
    pub fn load_more(&mut self) -> (moved: bool)
        requires
            old(self).offset + EXPLORER_PAGE_SIZE <= i64::MAX,
        ensures
            moved == (old(self).has_more && !old(self).loading),
            final(self).offset == (if moved { old(self).offset + EXPLORER_PAGE_SIZE } else { old(self).offset as int }),
            final(self).hits@ == old(self).hits@,
            final(self).total == old(self).total,
            final(self).has_more == old(self).has_more,
            final(self).loading == old(self).loading,
    {
        if self.has_more && !self.loading {
            self.offset = self.offset + EXPLORER_PAGE_SIZE;
            true
        } else {
            false
        }
    }

    /// The count shown above the list: "N games".
    pub fn games_label(&self) -> (s: String)
        requires
            self.total != i64::MIN,
        ensures
            s@ == spec_format_num(self.total as int) + " games"@,
    {
        let mut out: Vec<char> = Vec::new();
        let num = format_num(self.total);
        push_str_chars(&mut out, num.as_str());
        push_str_chars(&mut out, " games");
        string_from_chars(out.as_slice())
    }
}

/// A counter that tells a response to the latest request from stale ones.
pub struct Generation {
    current: u32,
}

impl Generation {
    /// The current generation.
    pub closed spec fn value(&self) -> u32 {
        self.current
    }

    /// Starts at generation 0.
    pub fn new() -> (g: Self)
        ensures
            g.value() == 0,
    {
        Generation { current: 0 }
    }

    /// Moves to the next generation (a new request) and gives it.
    pub fn advance(&mut self) -> (g: u32)
        requires
            old(self).value() < u32::MAX,
        ensures
            g == old(self).value() + 1,
            final(self).value() == g,
    {
        self.current = self.current + 1;
        self.current
    }

    /// The current generation.
    pub fn get(&self) -> (g: u32)
        ensures
            g == self.value(),
    {
        self.current
    }

    /// Whether a response of generation `g` is still wanted.
    pub fn is_current(&self, g: u32) -> (b: bool)
        ensures
            b == (g == self.value()),
    {
        self.current == g
    }
}

/// Law: after a new request, a response to any earlier request is stale.
pub proof fn lemma_generation_retires_old(before: u32, after: u32, response: u32)
    requires
        after == before + 1,
        response <= before,
    ensures
        response != after,
{
}

/// A key of the replay board.
#[derive(Debug, Clone, Copy, PartialEq, Eq, Structural)]
pub enum ReplayKey {
    /// One ply back.
    Back,
    /// One ply forward.
    Forward,
    /// Flip the board.
    Flip,
}

/// Reads a key press of the replay board: the left and right arrows step back and
/// forward, "f" or "F" flips; other keys do nothing.
pub fn replay_key(key: &str) -> (r: Option<ReplayKey>)
    ensures
        r == (if key@ == "ArrowLeft"@ {
            Some(ReplayKey::Back)
        } else if key@ == "ArrowRight"@ {
            Some(ReplayKey::Forward)
        } else if key@ == "f"@ || key@ == "F"@ {
            Some(ReplayKey::Flip)
        } else {
            None
        }),
{
    if str_equal(key, "ArrowLeft") {
        Some(ReplayKey::Back)
    } else if str_equal(key, "ArrowRight") {
        Some(ReplayKey::Forward)
    } else if str_equal(key, "f") || str_equal(key, "F") {
        Some(ReplayKey::Flip)
    } else {
        None
    }
}

/// Where a step back goes.
#[derive(Debug, Clone, Copy, PartialEq, Eq, Structural)]
pub enum BackStep {
    /// Back from an explored line to the game's position at this ply.
    ReturnToLine(usize),
    /// To this ply of the game.
    ToPly(usize),
    /// To the game's start position.
    ToStart,
}

/// A step back: from an explored line, back to the game at the current ply;
/// else one ply back, or the start position from ply 0.
pub fn step_back(exploratory: bool, ply: usize) -> (r: BackStep)
    ensures
        r == (if exploratory {
            BackStep::ReturnToLine(ply)
        } else if ply > 0 {
            BackStep::ToPly((ply - 1) as usize)
        } else {
            BackStep::ToStart
        }),
{
    if exploratory {
        BackStep::ReturnToLine(ply)
    } else if ply > 0 {
        BackStep::ToPly(ply - 1)
    } else {
        BackStep::ToStart
    }
}

/// A step forward: none while exploring a line or at the last ply, else the next ply.
pub fn step_forward(exploratory: bool, ply: usize, plies: usize) -> (r: Option<usize>)
    ensures
        r == (if !exploratory && ply < plies { Some((ply + 1) as usize) } else { None }),
{
    if !exploratory && ply < plies {
        Some(ply + 1)
    } else {
        None
    }
}

/// Law: stepping forward then back returns to the same ply of the game.
pub proof fn lemma_forward_then_back(ply: usize, plies: usize)
    requires
        ply < plies,
    ensures
        step_forward_target(false, ply, plies) matches Some(next) && step_back_target(false, next)
            == BackStep::ToPly(ply),
{
}

/// A step forward, as a spec.
pub open spec fn step_forward_target(exploratory: bool, ply: usize, plies: usize) -> Option<usize> {
    if !exploratory && ply < plies {
        Some((ply + 1) as usize)
    } else {
        None
    }
}

/// A step back, as a spec.
pub open spec fn step_back_target(exploratory: bool, ply: usize) -> BackStep {
    if exploratory {
        BackStep::ReturnToLine(ply)
    } else if ply > 0 {
        BackStep::ToPly((ply - 1) as usize)
    } else {
        BackStep::ToStart
    }
}

/// What the job card shows besides its numbers.
#[derive(Debug)]
pub struct JobCardFlags {
    /// CSS class of the status pill.
    pub pill_class: String,
    /// Whether the job runs.
    pub is_running: bool,
    /// Whether to say that ingest is about to start: the job runs, no games are
    /// loaded yet and the download message shows a finished 30 GiB download.
    pub show_ingest_hint: bool,
}

/// The job card's class and flags.
pub fn job_card_flags(job: &JobStatus) -> (f: JobCardFlags)
    ensures
        f.pill_class@ == "status-pill "@ + job.status@,
        f.is_running == (job.status@ == "running"@),
        f.show_ingest_hint == (job.status@ == "running"@ && job.games_loaded == 0 && contains_seq(
            job.message@,
            "/ 30."@,
        ) && contains_seq(job.message@, "GiB)"@)),
{
    let mut pill: Vec<char> = Vec::new();
    push_str_chars(&mut pill, "status-pill ");
    push_str_chars(&mut pill, job.status.as_str());
    let is_running = str_equal(job.status.as_str(), "running");
    let msg = chars_of(job.message.as_str());
    let a = chars_of("/ 30.");
    let b = chars_of("GiB)");
    let download_done = contains_chars(msg.as_slice(), a.as_slice()) && contains_chars(
        msg.as_slice(),
        b.as_slice(),
    );
    JobCardFlags {
        pill_class: string_from_chars(pill.as_slice()),
        is_running,
        show_ingest_hint: is_running && job.games_loaded == 0 && download_done,
    }
}

/// Number of complete filesets among the first `n`.
pub open spec fn complete_count(f: Seq<FilesetView>, n: int) -> nat
    decreases n,
{
    if n <= 0 {
        0
    } else {
        complete_count(f, n - 1) + if f[n - 1].status@ == "complete"@ {
            1nat
        } else {
            0nat
        }
    }
}

/// Counts the complete filesets.
pub fn completed_shards(filesets: &[FilesetView]) -> (n: usize)
    ensures
        n == complete_count(filesets@, filesets@.len() as int),
{
    let mut n: usize = 0;
    let mut i: usize = 0;
    while i < filesets.len()
        invariant
            i <= filesets@.len(),
            n == complete_count(filesets@, i as int),
            n <= i,
        decreases filesets@.len() - i,
    {
        if str_equal(filesets[i].status.as_str(), "complete") {
            n = n + 1;
        }
        i = i + 1;
    }
    n
}

/// The dashboard's shard summary: "C of N shards complete".
pub fn shards_complete_label(filesets: &[FilesetView]) -> (s: String)
    ensures
        s@ == decimal_digits(complete_count(filesets@, filesets@.len() as int)) + " of "@
            + decimal_digits(filesets@.len() as nat) + " shards complete"@,
{
    let c = completed_shards(filesets);
    let mut out: Vec<char> = Vec::new();
    push_decimal(&mut out, c as u64);
    push_str_chars(&mut out, " of ");
    push_decimal(&mut out, filesets.len() as u64);
    push_str_chars(&mut out, " shards complete");
    string_from_chars(out.as_slice())
}

/// The CSS class of a shard tile.
pub fn shard_status_class(status: &str) -> (s: String)
    ensures
        s@ == "shard status-"@ + status@,
{
    let mut out: Vec<char> = Vec::new();
    push_str_chars(&mut out, "shard status-");
    push_str_chars(&mut out, status);
    string_from_chars(out.as_slice())
}

/// Reads the year typed in the load form the way `str::parse::<i32>` does: none
/// unless it is a decimal integer within `i32`.
pub fn parse_year(text: &str) -> (r: Option<i32>)
    ensures
        r == (match spec_parse_i64(text@) {
            Some(v) => if i32::MIN <= v <= i32::MAX {
                Some(v as i32)
            } else {
                None
            },
            None => None,
        }),
{
    let cs = chars_of(text);
    match parse_i64(cs.as_slice()) {
        Some(v) => if i32::MIN as i64 <= v && v <= i32::MAX as i64 {
            Some(v as i32)
        } else {
            None
        },
        None => None,
    }
}

/// Whether a source tile shows its statistics: it is selected and the loaded
/// details are this source's.
pub fn show_source_stats(active: bool, detail: Option<&SourceDetail>, id: i32) -> (b: bool)
    ensures
        b == (active && match detail {
            Some(d) => d.id == id,
            None => false,
        }),
{
    active && match detail {
        Some(d) => d.id == id,
        None => false,
    }
}

/// The source selected once the source list arrives: the one already selected,
/// or else the first listed, or none.
pub open spec fn spec_selection_after_load(selected: Option<i32>, sources: Seq<SourceListItem>) -> Option<i32> {
    match selected {
        Some(id) => Some(id),
        None => if sources.len() > 0 {
            Some(sources[0].id)
        } else {
            None
        },
    }
}

/// The source selected once the source list arrives.
pub fn selection_after_load(selected: Option<i32>, sources: &[SourceListItem]) -> (r: Option<i32>)
    ensures
        r == spec_selection_after_load(selected, sources@),
{
    match selected {
        Some(id) => Some(id),
        None => if sources.len() > 0 {
            Some(sources[0].id)
        } else {
            None
        },
    }
}

/// What the dashboard does with the active job it finds on start.
#[derive(Debug, Clone, Copy, PartialEq, Eq, Structural)]
pub enum ActiveJobAction {
    /// Show the job and follow its progress; `reconstructed` marks a job that was
    /// rebuilt from fileset rows (id 0) rather than held by the worker.
    Watch { job_id: u64, reconstructed: bool },
    /// Show the job as it stands.
    Show,
    /// There is no job.
    Nothing,
}

/// What the dashboard does with the active job it finds on start: a running job
/// is shown and followed, another is only shown.
pub fn active_job_action(job: Option<&JobStatus>) -> (a: ActiveJobAction)
    ensures
        match job {
            None => a == ActiveJobAction::Nothing,
            Some(j) => if j.status@ == "running"@ {
                a == (ActiveJobAction::Watch { job_id: j.id, reconstructed: j.id == 0 })
            } else {
                a == ActiveJobAction::Show
            },
        },
{
    match job {
        None => ActiveJobAction::Nothing,
        Some(j) => if str_equal(j.status.as_str(), "running") {
            ActiveJobAction::Watch { job_id: j.id, reconstructed: j.id == 0 }
        } else {
            ActiveJobAction::Show
        },
    }
}

/// Status line after a catalog sync.
pub open spec fn spec_sync_status_message(outcome: Result<usize, Seq<char>>) -> Seq<char> {
    match outcome {
        Ok(n) => "Synced "@ + decimal_digits(n as nat) + " filesets from Lichess catalog"@,
        Err(e) => "Sync failed: "@ + e,
    }
}

/// Status line after a catalog sync: how many filesets were synced, or why it failed.
pub fn sync_status_message(outcome: &Result<usize, String>) -> (r: String)
    ensures
        r@ == spec_sync_status_message(match outcome {
            Ok(n) => Ok(*n),
            Err(e) => Err(e@),
        }),
{
    let mut out: Vec<char> = Vec::new();
    match outcome {
        Ok(n) => {
            push_str_chars(&mut out, "Synced ");
            push_decimal(&mut out, *n as u64);
            push_str_chars(&mut out, " filesets from Lichess catalog");
        },
        Err(e) => {
            push_str_chars(&mut out, "Sync failed: ");
            push_str_chars(&mut out, e.as_str());
        },
    }
    string_from_chars(out.as_slice())
}

/// Status line after asking for a year load.
pub open spec fn spec_load_status_message(outcome: Result<u64, Seq<char>>) -> Seq<char> {
    match outcome {
        Ok(id) => "Ingest job "@ + decimal_digits(id as nat) + " started"@,
        Err(e) => "Load failed: "@ + e,
    }
}

/// Status line after asking for a year load: the started job's id, or why it failed.
pub fn load_status_message(outcome: &Result<u64, String>) -> (r: String)
    ensures
        r@ == spec_load_status_message(match outcome {
            Ok(id) => Ok(*id),
            Err(e) => Err(e@),
        }),
{
    let mut out: Vec<char> = Vec::new();
    match outcome {
        Ok(id) => {
            push_str_chars(&mut out, "Ingest job ");
            push_decimal(&mut out, *id);
            push_str_chars(&mut out, " started");
        },
        Err(e) => {
            push_str_chars(&mut out, "Load failed: ");
            push_str_chars(&mut out, e.as_str());
        },
    }
    string_from_chars(out.as_slice())
}

/// Status line when the fileset list could not be fetched.
pub fn filesets_error_message(error: &str) -> (r: String)
    ensures
        r@ == "filesets error: "@ + error@,
{
    let mut out: Vec<char> = Vec::new();
    push_str_chars(&mut out, "filesets error: ");
    push_str_chars(&mut out, error);
    string_from_chars(out.as_slice())
}

/// Status line when the active job could not be fetched.
pub fn active_job_error_message(error: &str) -> (r: String)
    ensures
        r@ == "active job error: "@ + error@,
{
    let mut out: Vec<char> = Vec::new();
    push_str_chars(&mut out, "active job error: ");
    push_str_chars(&mut out, error);
    string_from_chars(out.as_slice())
}

} // verus!
