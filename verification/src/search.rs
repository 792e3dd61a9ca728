//! Query planning and page assembly for game search and position lookups.
//!
//! The database work (counting, fetching rows) is done by the caller; this module
//! decides which query shape to run with which parameters, and how the rows that
//! came back turn into a page with a continuation cursor.

use vstd::prelude::*;

use crate::api_types::{GameListItem, PositionHit};
use crate::cursor::{decode_cursor, encode_cursor, spec_decode_cursor, spec_encode_cursor};
use crate::text::{chars_of, string_from_chars};

verus! {

/// Largest page a search returns.
pub const MAX_PAGE_LIMIT: i64 = 100;

/// Page size of the quick position lookup.
pub const LOOKUP_LIMIT: i64 = 50;

/// A requested page size, clamped to `1..=100`.
pub open spec fn spec_clamp_limit(limit: i64) -> i64 {
    if limit < 1 {
        1
    } else if limit > MAX_PAGE_LIMIT {
        MAX_PAGE_LIMIT
    } else {
        limit
    }
}

/// Clamps a requested page size to `1..=100`.
pub fn clamp_limit(limit: i64) -> (r: i64)
    ensures
        r == spec_clamp_limit(limit),
        1 <= r <= MAX_PAGE_LIMIT,
{
    if limit < 1 {
        1
    } else if limit > MAX_PAGE_LIMIT {
        MAX_PAGE_LIMIT
    } else {
        limit
    }
}

/// The ILIKE pattern for a player filter: `%name%`, or none for an absent or empty name.
pub open spec fn spec_player_pattern(player: Option<Seq<char>>) -> Option<Seq<char>> {
    match player {
        Some(p) => if p.len() == 0 {
            None
        } else {
            Some(seq!['%'] + p + seq!['%'])
        },
        None => None,
    }
}

/// Builds the ILIKE pattern `%name%` for a non-empty player name.
pub fn player_pattern(player: Option<&str>) -> (r: Option<String>)
    ensures
        opt_string_view(r) == spec_player_pattern(opt_str_view(player)),
{
    match player {
        None => None,
        Some(p) => {
            let cs = chars_of(p);
            if cs.len() == 0 {
                None
            } else {
                let mut out: Vec<char> = Vec::new();
                out.push('%');
                let mut i: usize = 0;
                while i < cs.len()
                    invariant
                        i <= cs.len(),
                        out@ == seq!['%'] + cs@.take(i as int),
                    decreases cs.len() - i,
                {
                    out.push(cs[i]);
                    i = i + 1;
                    assert(cs@.take(i as int) == cs@.take(i - 1 as int).push(cs@[i - 1]));
                }
                out.push('%');
                assert(cs@.take(cs.len() as int) == cs@);
                Some(string_from_chars(out.as_slice()))
            }
        },
    }
}

/// The view of an optional borrowed string.
pub open spec fn opt_str_view(s: Option<&str>) -> Option<Seq<char>> {
    match s {
        Some(t) => Some(t@),
        None => None,
    }
}

/// The view of an optional owned string.
pub open spec fn opt_string_view(s: Option<String>) -> Option<Seq<char>> {
    match s {
        Some(t) => Some(t@),
        None => None,
    }
}

/// Which games a search looks at.
#[derive(Debug, Clone)]
pub enum GameFilter {
    /// Games of one source where either player matches the pattern.
    SourceAndPlayer { source_id: i32, pattern: String },
    /// Games of any source where either player matches the pattern.
    Player { pattern: String },
    /// All games of one source.
    Source { source_id: i32 },
    /// All games.
    All,
}

/// The filter a search with these parameters uses.
pub open spec fn filter_is(f: GameFilter, source_id: Option<i32>, pattern: Option<Seq<char>>) -> bool {
    match (source_id, pattern) {
        (Some(s), Some(p)) => f matches GameFilter::SourceAndPlayer { source_id: fs, pattern: fp }
            && fs == s && fp@ == p,
        (None, Some(p)) => f matches GameFilter::Player { pattern: fp } && fp@ == p,
        (Some(s), None) => f matches GameFilter::Source { source_id: fs } && fs == s,
        (None, None) => f is All,
    }
}

/// How the rows of a page are selected, in the order newest date first, then highest id.
#[derive(Debug, Clone)]
pub enum RowsQuery {
    /// The first page.
    KeysetFirst,
    /// The rows that come after the key (date, id) in that order.
    KeysetAfter { cursor_date: Option<String>, cursor_id: i64 },
    /// The rows after skipping `offset` rows.
    Offset { offset: i64 },
}

/// The row selection as plain values.
pub enum RowsChoice {
    First,
    After(Option<Seq<char>>, i64),
    Skip(i64),
}

/// The plain-value view of a row selection.
pub open spec fn rows_choice(q: RowsQuery) -> RowsChoice {
    match q {
        RowsQuery::KeysetFirst => RowsChoice::First,
        RowsQuery::KeysetAfter { cursor_date, cursor_id } => RowsChoice::After(
            opt_string_view(cursor_date),
            cursor_id,
        ),
        RowsQuery::Offset { offset } => RowsChoice::Skip(offset),
    }
}

/// The row selection of a game search: a cursor that decodes continues after its key,
/// any other cursor restarts at the first page; without a cursor, offset 0 is the
/// first page and any other offset skips rows.
pub open spec fn spec_game_rows(offset: i64, cursor: Option<Seq<char>>) -> RowsChoice {
    match cursor {
        Some(c) => match spec_decode_cursor(c) {
            Some((date, id)) => RowsChoice::After(date, id),
            None => RowsChoice::First,
        },
        None => if offset == 0 {
            RowsChoice::First
        } else {
            RowsChoice::Skip(offset)
        },
    }
}

/// What a game search runs.
#[derive(Debug, Clone)]
pub struct GameSearchPlan {
    /// Which games are searched.
    pub filter: GameFilter,
    /// Whether the matching games are counted.
    pub count_total: bool,
    /// How the page's rows are selected.
    pub rows: RowsQuery,
    /// Page size.
    pub limit: i64,
}

/// Plans a game search from its request parameters.
pub fn plan_game_search(
    player: Option<&str>,
    source_id: Option<i32>,
    offset: i64,
    limit: i64,
    include_total: bool,
    cursor: Option<&str>,
) -> (p: GameSearchPlan)
    ensures
        filter_is(p.filter, source_id, spec_player_pattern(opt_str_view(player))),
        p.count_total == include_total,
        rows_choice(p.rows) == spec_game_rows(offset, opt_str_view(cursor)),
        p.limit == spec_clamp_limit(limit),
{
    let limit = clamp_limit(limit);
    let pattern = player_pattern(player);
    let filter = match (source_id, pattern) {
        (Some(s), Some(p)) => GameFilter::SourceAndPlayer { source_id: s, pattern: p },
        (None, Some(p)) => GameFilter::Player { pattern: p },
        (Some(s), None) => GameFilter::Source { source_id: s },
        (None, None) => GameFilter::All,
    };
    let rows = match cursor {
        Some(c) => match decode_cursor(c) {
            Some((date, id)) => RowsQuery::KeysetAfter { cursor_date: date, cursor_id: id },
            None => RowsQuery::KeysetFirst,
        },
        None => if offset == 0 {
            RowsQuery::KeysetFirst
        } else {
            RowsQuery::Offset { offset }
        },
    };
    GameSearchPlan { filter, count_total: include_total, rows, limit }
}

/// Paging details of a result page.
#[derive(Debug, Clone)]
pub struct PageMeta {
    /// Total matches, or -1 for a game search that did not count.
    pub total: i64,
    /// The requested offset.
    pub offset: i64,
    /// The page size used.
    pub limit: i64,
    /// Whether the page is full, so more rows may follow.
    pub has_more: bool,
    /// The cursor that continues after the last row, if there is one.
    pub next_cursor: Option<String>,
}

/// The cursor naming a game row's key.
pub open spec fn game_row_cursor(g: GameListItem) -> Seq<char> {
    spec_encode_cursor(opt_string_view(g.game_date), g.id)
}

/// Assembles the paging details of a game search page from the rows it fetched.
/// `counted` is the count of matching games where the plan asked for one.
pub fn games_page_meta(plan: &GameSearchPlan, offset: i64, counted: Option<i64>, rows: &[GameListItem]) -> (m: PageMeta)
    ensures
        m.total == match counted {
            Some(n) => n as int,
            None => -1int,
        },
        m.offset == offset,
        m.limit == plan.limit,
        m.has_more == (rows@.len() == plan.limit),
        opt_string_view(m.next_cursor) == if rows@.len() == 0 {
            None
        } else {
            Some(game_row_cursor(rows@.last()))
        },
{
    let total = match counted {
        Some(n) => n,
        None => -1,
    };
    let n = rows.len();
    let next_cursor = if n == 0 {
        None
    } else {
        let last = &rows[n - 1];
        let date: Option<&str> = match &last.game_date {
            Some(d) => Some(d.as_str()),
            None => None,
        };
        Some(encode_cursor(date, last.id))
    };
    let has_more = plan.limit >= 0 && n as u64 == plan.limit as u64;
    PageMeta { total, offset, limit: plan.limit, has_more, next_cursor }
}

/// Law: a page's cursor continues exactly after its last row. Planning the next
/// request with that cursor selects the rows after the last row's key, whatever
/// the offset: its date (none when it had no date or an empty one) and its id.
pub proof fn lemma_next_page_continues(offset: i64, last: GameListItem)
    ensures
        spec_game_rows(offset, Some(game_row_cursor(last))) == RowsChoice::After(
            match last.game_date {
                Some(d) => if d@.len() == 0 {
                    None
                } else {
                    Some(d@)
                },
                None => None,
            },
            last.id,
        ),
{
    crate::cursor::lemma_cursor_round_trip(opt_string_view(last.game_date), last.id);
}

/// How the rows of a position page are selected: after a key, or by offset.
#[derive(Debug, Clone)]
pub enum PositionRowsQuery {
    /// The rows that come after the key (date, id).
    After { cursor_date: Option<String>, cursor_id: i64 },
    /// The rows after skipping `offset` rows.
    Offset { offset: i64 },
}

/// The row selection of a position lookup: with a cursor, the rows after its key
/// (a cursor that does not decode stands for no date and the largest id); without
/// one, by offset.
pub open spec fn spec_position_rows(offset: i64, cursor: Option<Seq<char>>) -> RowsChoice {
    match cursor {
        Some(c) => match spec_decode_cursor(c) {
            Some((date, id)) => RowsChoice::After(date, id),
            None => RowsChoice::After(None, i64::MAX),
        },
        None => RowsChoice::Skip(offset),
    }
}

/// The plain-value view of a position row selection.
pub open spec fn position_rows_choice(q: PositionRowsQuery) -> RowsChoice {
    match q {
        PositionRowsQuery::After { cursor_date, cursor_id } => RowsChoice::After(
            opt_string_view(cursor_date),
            cursor_id,
        ),
        PositionRowsQuery::Offset { offset } => RowsChoice::Skip(offset),
    }
}

/// What a lookup of the games reaching a position runs.
#[derive(Debug, Clone)]
pub struct PositionSearchPlan {
    /// Restrict to one source, if given.
    pub source_id: Option<i32>,
    /// How the page's rows are selected.
    pub rows: PositionRowsQuery,
    /// Page size.
    pub limit: i64,
}

/// Plans a lookup of the games reaching a position.
pub fn plan_position_search(source_id: Option<i32>, offset: i64, limit: i64, cursor: Option<&str>) -> (p: PositionSearchPlan)
    ensures
        p.source_id == source_id,
        position_rows_choice(p.rows) == spec_position_rows(offset, opt_str_view(cursor)),
        p.limit == spec_clamp_limit(limit),
{
    let limit = clamp_limit(limit);
    let rows = match cursor {
        Some(c) => match decode_cursor(c) {
            Some((date, id)) => PositionRowsQuery::After { cursor_date: date, cursor_id: id },
            None => PositionRowsQuery::After { cursor_date: None, cursor_id: i64::MAX },
        },
        None => PositionRowsQuery::Offset { offset },
    };
    PositionSearchPlan { source_id, rows, limit }
}

/// The quick position lookup: the first 50 games of any source.
pub fn lookup_position_plan() -> (p: PositionSearchPlan)
    ensures
        p.source_id is None,
        position_rows_choice(p.rows) == RowsChoice::Skip(0),
        p.limit == LOOKUP_LIMIT,
{
    plan_position_search(None, 0, LOOKUP_LIMIT, None)
}

/// The cursor after a position hit: the date of the hit's game and its id.
pub open spec fn position_hit_cursor(h: PositionHit, game_date: Option<Seq<char>>) -> Seq<char> {
    spec_encode_cursor(game_date, h.game_id)
}

/// Assembles the paging details of a position page. `counted` is the number of
/// games reaching the position where one was found; none counts as 0. `last_date` is
/// the date of the last hit's game, which the page query reads with the hits.
pub fn position_page_meta(
    plan: &PositionSearchPlan,
    offset: i64,
    counted: Option<i64>,
    hits: &[PositionHit],
    last_date: Option<&str>,
) -> (m: PageMeta)
    ensures
        m.total == match counted {
            Some(n) => n as int,
            None => 0int,
        },
        m.offset == offset,
        m.limit == plan.limit,
        m.has_more == (hits@.len() == plan.limit),
        opt_string_view(m.next_cursor) == if hits@.len() == 0 {
            None
        } else {
            Some(position_hit_cursor(hits@.last(), opt_str_view(last_date)))
        },
{
    let total = match counted {
        Some(n) => n,
        None => 0,
    };
    let n = hits.len();
    let next_cursor = if n == 0 {
        None
    } else {
        Some(encode_cursor(last_date, hits[n - 1].game_id))
    };
    let has_more = plan.limit >= 0 && n as u64 == plan.limit as u64;
    PageMeta { total, offset, limit: plan.limit, has_more, next_cursor }
}

/// Law: a position page's cursor continues exactly after its last hit. Planning the
/// next lookup with that cursor selects the rows after the last hit's key, whatever
/// the offset: its game's date (none when it had none or an empty one) and its id.
pub proof fn lemma_next_position_page_continues(offset: i64, last: PositionHit, last_date: Option<Seq<char>>)
    ensures
        spec_position_rows(offset, Some(position_hit_cursor(last, last_date))) == RowsChoice::After(
            match last_date {
                Some(d) => if d.len() == 0 {
                    None
                } else {
                    Some(d)
                },
                None => None,
            },
            last.game_id,
        ),
{
    crate::cursor::lemma_cursor_round_trip(last_date, last.game_id);
}

/// How a request names a source.
#[derive(Debug)]
pub enum SourceRef {
    /// By id.
    Id(i32),
    /// By name, to be looked up.
    Name(String),
}

/// The error of a fileset listing that names no source.
pub open spec fn spec_missing_source_message() -> Seq<char> {
    "source_id or source_name is required"@
}

/// Reads how a fileset listing names its source: an id wins over a name, and one
/// of them is required.
pub fn resolve_source_ref(source_id: Option<i32>, source_name: Option<String>) -> (r: Result<SourceRef, String>)
    ensures
        source_id matches Some(id) ==> r matches Ok(SourceRef::Id(x)) && x == id,
        source_id is None && source_name is Some ==> (r matches Ok(SourceRef::Name(n)) && Some(n)
            == source_name),
        source_id is None && source_name is None ==> (r matches Err(e) && e@
            == spec_missing_source_message()),
{
    match (source_id, source_name) {
        (Some(id), _) => Ok(SourceRef::Id(id)),
        (None, Some(name)) => Ok(SourceRef::Name(name)),
        (None, None) => Err(crate::text::owned("source_id or source_name is required")),
    }
}

} // verus!
