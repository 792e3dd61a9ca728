//! Display helpers for the studio front end: labels, board geometry, messages.

use vstd::prelude::*;

use crate::decimal::{push_decimal, decimal_digits};
use crate::api_types::{PlyView, SourceListItem};
use crate::uci::parse_uci;
use vstd::string::StringSliceAdditionalSpecFns;
use vstd::utf8::{decode_utf8, encode_utf8, is_char_boundary};
use crate::text::{
    char_is_whitespace, chars_of, is_whitespace, lemma_split_on_nonempty, owned, pieces_view,
    split_chars, split_on, str_equal, string_from_chars, string_of_range, sub_chars, trim,
    trim_bounds,
};

verus! {

/// Display label of a fileset status.
pub open spec fn spec_shard_status_label(status: Seq<char>) -> Seq<char> {
    if status == "complete"@ {
        "Done"@
    } else if status == "downloading"@ {
        "Downloading"@
    } else if status == "ingesting"@ {
        "Ingesting"@
    } else if status == "failed"@ {
        "Failed"@
    } else {
        "Pending"@
    }
}

/// Display label of a fileset status ("complete" shows as "Done"; unknown as "Pending").
pub fn shard_status_label(status: &str) -> (r: &'static str)
    ensures
        r@ == spec_shard_status_label(status@),
{
    if str_equal(status, "complete") {
        "Done"
    } else if str_equal(status, "downloading") {
        "Downloading"
    } else if str_equal(status, "ingesting") {
        "Ingesting"
    } else if str_equal(status, "failed") {
        "Failed"
    } else {
        "Pending"
    }
}

/// Display label of a move classification (empty when unknown).
pub open spec fn spec_move_class_label(class: Seq<char>) -> Seq<char> {
    if class == "best"@ {
        "Best"@
    } else if class == "good"@ {
        "Good"@
    } else if class == "inaccuracy"@ {
        "Inaccuracy"@
    } else if class == "mistake"@ {
        "Mistake"@
    } else if class == "blunder"@ {
        "Blunder"@
    } else {
        ""@
    }
}

/// Display label of a move classification.
pub fn move_class_label(class: &str) -> (r: &'static str)
    ensures
        r@ == spec_move_class_label(class@),
{
    if str_equal(class, "best") {
        "Best"
    } else if str_equal(class, "good") {
        "Good"
    } else if str_equal(class, "inaccuracy") {
        "Inaccuracy"
    } else if str_equal(class, "mistake") {
        "Mistake"
    } else if str_equal(class, "blunder") {
        "Blunder"
    } else {
        ""
    }
}

/// CSS class of a move classification (empty when unknown).
pub open spec fn spec_move_class_css(class: Seq<char>) -> Seq<char> {
    if class == "best"@ {
        "move-best"@
    } else if class == "good"@ {
        "move-good"@
    } else if class == "inaccuracy"@ {
        "move-inaccuracy"@
    } else if class == "mistake"@ {
        "move-mistake"@
    } else if class == "blunder"@ {
        "move-blunder"@
    } else {
        ""@
    }
}

/// CSS class of a move classification.
pub fn move_class_css(class: &str) -> (r: &'static str)
    ensures
        r@ == spec_move_class_css(class@),
{
    if str_equal(class, "best") {
        "move-best"
    } else if str_equal(class, "good") {
        "move-good"
    } else if str_equal(class, "inaccuracy") {
        "move-inaccuracy"
    } else if str_equal(class, "mistake") {
        "move-mistake"
    } else if str_equal(class, "blunder") {
        "move-blunder"
    } else {
        ""
    }
}

/// Error applying moves during replay.
#[derive(Debug, Clone, PartialEq, Eq)]
pub enum ReplayError {
    InvalidFen(String),
    InvalidMove { ply: usize, uci: String },
}

/// The user-facing message for a replay error.
pub open spec fn spec_replay_error_message(err: ReplayError) -> Seq<char> {
    match err {
        ReplayError::InvalidFen(f) => "Invalid start FEN: "@ + f@,
        ReplayError::InvalidMove { ply, uci } => "Invalid move at ply "@ + decimal_digits(
            ply as nat,
        ) + ": "@ + uci@,
    }
}

/// Formats a replay error for display.
pub fn replay_error_message(err: &ReplayError) -> (r: String)
    ensures
        r@ == spec_replay_error_message(*err),
{
    let mut out: Vec<char> = Vec::new();
    match err {
        ReplayError::InvalidFen(f) => {
            let mut a = chars_of("Invalid start FEN: ");
            out.append(&mut a);
            let mut b = chars_of(f.as_str());
            out.append(&mut b);
        },
        ReplayError::InvalidMove { ply, uci } => {
            let mut a = chars_of("Invalid move at ply ");
            out.append(&mut a);
            push_decimal(&mut out, *ply as u64);
            let mut b = chars_of(": ");
            out.append(&mut b);
            let mut c = chars_of(uci.as_str());
            out.append(&mut c);
        },
    }
    string_from_chars(out.as_slice())
}

/// Which side of the board is drawn at the bottom.
#[derive(Clone, Copy, PartialEq, Eq, Default)]
pub enum BoardOrientation {
    #[default]
    WhiteBottom,
    BlackBottom,
}

impl BoardOrientation {
    /// The other orientation.
    pub fn flip(self) -> (r: Self)
        ensures
            r == (match self {
                BoardOrientation::WhiteBottom => BoardOrientation::BlackBottom,
                BoardOrientation::BlackBottom => BoardOrientation::WhiteBottom,
            }),
    {
        match self {
            Self::WhiteBottom => Self::BlackBottom,
            Self::BlackBottom => Self::WhiteBottom,
        }
    }

    /// Whether white is drawn at the bottom.
    pub fn white_bottom(self) -> (b: bool)
        ensures
            b == (self == BoardOrientation::WhiteBottom),
    {
        match self {
            Self::WhiteBottom => true,
            Self::BlackBottom => false,
        }
    }
}

/// Law: flipping twice restores the orientation.
pub proof fn lemma_flip_involutive(o: BoardOrientation)
    ensures
        (match (match o {
            BoardOrientation::WhiteBottom => BoardOrientation::BlackBottom,
            BoardOrientation::BlackBottom => BoardOrientation::WhiteBottom,
        }) {
            BoardOrientation::WhiteBottom => BoardOrientation::BlackBottom,
            BoardOrientation::BlackBottom => BoardOrientation::WhiteBottom,
        }) == o,
{
}

/// Screen (row, column) of square `idx`: with white at the bottom rank 8 is row 0;
/// with black at the bottom the files run right to left. The rank is `idx / 8`
/// reduced to a byte (a `u8` cast).
pub open spec fn spec_idx_to_visual(idx: int, white_bottom: bool) -> (int, int) {
    let rank = (idx / 8) % 256;
    let file = idx % 8;
    if white_bottom {
        (7 - rank, file)
    } else {
        (rank, 7 - file)
    }
}

/// Maps a square index to its (row, column) on screen.
pub fn idx_to_visual(idx: usize, white_bottom: bool) -> (r: (u8, u8))
    requires
        white_bottom ==> (idx / 8) % 256 <= 7,
    ensures
        (r.0 as int, r.1 as int) == spec_idx_to_visual(idx as int, white_bottom),
{
    let rank: u8 = ((idx / 8) % 256) as u8;
    let file: u8 = (idx % 8) as u8;
    if white_bottom {
        (7 - rank, file)
    } else {
        (rank, 7 - file)
    }
}

/// The source name used to query filesets: the name of the first listed source with
/// the selected id, or the name typed in the load form.
pub open spec fn spec_filesets_query_name(
    selected: Option<i32>,
    sources: Seq<SourceListItem>,
    load_form_name: Seq<char>,
) -> Seq<char> {
    match selected {
        Some(id) => if exists|i: int| 0 <= i < sources.len() && sources[i].id == id {
            sources[choose|i: int|
                0 <= i < sources.len() && sources[i].id == id && forall|j: int|
                    0 <= j < i ==> sources[j].id != id].name@
        } else {
            load_form_name
        },
        None => load_form_name,
    }
}

/// Chooses the source name for fileset queries.
pub fn filesets_query_name(selected: Option<i32>, sources: &[SourceListItem], load_form_name: &str) -> (r:
    String)
    ensures
        r@ == spec_filesets_query_name(selected, sources@, load_form_name@),
{
    if let Some(id) = selected {
        let mut i: usize = 0;
        while i < sources.len()
            invariant
                i <= sources@.len(),
                selected == Some(id),
                forall|j: int| 0 <= j < i ==> sources@[j].id != id,
            decreases sources@.len() - i,
        {
            if sources[i].id == id {
                proof {
                    let k = choose|k: int|
                        0 <= k < sources@.len() && sources@[k].id == id && forall|j: int|
                            0 <= j < k ==> sources@[j].id != id;
                    assert(0 <= i < sources@.len() && sources@[i as int].id == id);
                    if k < i {
                    } else if k > i {
                        assert(sources@[i as int].id != id);
                    }
                }
                return sources[i].name.clone();
            }
            i = i + 1;
        }
    }
    owned(load_form_name)
}

/// Position of the first `c` in `s`, if any.
#[verifier::opaque]
pub open spec fn first_pos(s: Seq<char>, c: char) -> Option<int> {
    if exists|i: int| 0 <= i < s.len() && s[i] == c {
        Some(choose|i: int| 0 <= i < s.len() && s[i] == c && forall|j: int| 0 <= j < i ==> s[j] != c)
    } else {
        None
    }
}

fn first_index(s: &[char], c: char) -> (r: Option<usize>)
    ensures
        match r {
            Some(i) => first_pos(s@, c) == Some(i as int) && i < s@.len() && s@[i as int] == c,
            None => first_pos(s@, c) is None,
        },
{
    reveal(first_pos);
    let mut i: usize = 0;
    while i < s.len()
        invariant
            i <= s@.len(),
            forall|j: int| 0 <= j < i ==> s@[j] != c,
        decreases s@.len() - i,
    {
        if s[i] == c {
            proof {
                reveal(first_pos);
                let k = choose|k: int| 0 <= k < s@.len() && s@[k] == c && forall|j: int| 0 <= j < k ==> s@[j] != c;
                assert(0 <= i < s@.len() && s@[i as int] == c);
                if k > i {
                    assert(s@[i as int] != c);
                }
            }
            return Some(i);
        }
        i = i + 1;
    }
    None
}

/// Whether `j` ends the run of non-whitespace characters that `t` starts with.
pub open spec fn is_word_end(t: Seq<char>, j: int) -> bool {
    &&& 0 <= j <= t.len()
    &&& j == t.len() || is_whitespace(t[j])
    &&& forall|q: int| 0 <= q < j ==> !is_whitespace(t[q])
}

/// Length of the run of non-whitespace characters that `t` starts with.
pub open spec fn word_len(t: Seq<char>) -> int {
    choose|j: int| is_word_end(t, j)
}

/// The first whitespace-separated word of `s`, if it has one.
pub open spec fn first_word(s: Seq<char>) -> Option<Seq<char>> {
    let t = trim(s);
    if t.len() == 0 {
        None
    } else {
        Some(t.take(word_len(t)))
    }
}

fn first_word_of(s: &[char]) -> (r: Option<String>)
    ensures
        crate::search::opt_string_view(r) == first_word(s@),
{
    let (a, b) = trim_bounds(s, 0, s.len());
    assert(s@.subrange(0, s@.len() as int) == s@);
    let ghost t = trim(s@);
    if a == b {
        return None;
    }
    let mut k: usize = a;
    while k < b && !char_is_whitespace(s[k])
        invariant
            a <= k <= b,
            b <= s@.len(),
            t == s@.subrange(a as int, b as int),
            forall|q: int| a <= q < k ==> !is_whitespace(s@[q]),
        decreases b - k,
    {
        k = k + 1;
    }
    proof {
        let w = (k - a) as int;
        assert forall|q: int| 0 <= q < w implies !is_whitespace(t[q]) by {
            assert(t[q] == s@[a + q]);
        }
        if w < t.len() {
            assert(t[w] == s@[k as int]);
        }
        assert(is_word_end(t, w));
        let j = word_len(t);
        assert(is_word_end(t, j));
        if j < w {
            assert(is_whitespace(t[j]));
            assert(!is_whitespace(t[j]));
        }
        if w < j {
            assert(is_whitespace(t[w]));
            assert(!is_whitespace(t[w]));
        }
        assert(t.take(w) =~= s@.subrange(a as int, k as int));
    }
    Some(string_of_range(s, a, k))
}

/// The first word before and the first word after the first '/' of `inner`.
#[verifier::opaque]
pub open spec fn spec_inner_tokens(inner: Seq<char>) -> Option<(Seq<char>, Seq<char>)> {
    let pieces = split_on(inner, '/');
    match first_word(pieces[0]) {
        None => None,
        Some(w1) => if pieces.len() < 2 {
            None
        } else {
            match first_word(pieces[1]) {
                None => None,
                Some(w2) => Some((w1, w2)),
            }
        },
    }
}

/// The two numbers' texts in a download progress message, such as "1.0" and "30.0"
/// in "downloading shard 2024-01 (1.0 / 30.0 GiB)": the first word before and the
/// first word after the first '/' between the first '(' and the first ')'.
pub open spec fn spec_progress_tokens(msg: Seq<char>) -> Option<(Seq<char>, Seq<char>)> {
    match (first_pos(msg, '('), first_pos(msg, ')')) {
        (Some(o), Some(c)) => if c < o + 1 {
            None
        } else {
            spec_inner_tokens(msg.subrange(o + 1, c))
        },
        _ => None,
    }
}

fn inner_tokens(inner: &[char]) -> (r: Option<(String, String)>)
    ensures
        match r {
            Some((a, b)) => spec_inner_tokens(inner@) == Some((a@, b@)),
            None => spec_inner_tokens(inner@) is None,
        },
{
    reveal(spec_inner_tokens);
    let pieces = split_chars(inner, '/');
    proof {
        lemma_split_on_nonempty(inner@, '/');
    }
    assert(pieces_view(pieces@)[0] == pieces@[0]@);
    let w1 = match first_word_of(pieces[0].as_slice()) {
        Some(w) => w,
        None => return None,
    };
    if pieces.len() < 2 {
        return None;
    }
    assert(pieces_view(pieces@)[1] == pieces@[1]@);
    let w2 = match first_word_of(pieces[1].as_slice()) {
        Some(w) => w,
        None => return None,
    };
    Some((w1, w2))
}

/// Picks the current and total amounts' texts out of a download progress message.
pub fn download_progress_tokens(msg: &str) -> (r: Option<(String, String)>)
    ensures
        match r {
            Some((a, b)) => spec_progress_tokens(msg@) == Some((a@, b@)),
            None => spec_progress_tokens(msg@) is None,
        },
{
    let cs = chars_of(msg);
    let open = match first_index(cs.as_slice(), '(') {
        Some(i) => i,
        None => return None,
    };
    let close = match first_index(cs.as_slice(), ')') {
        Some(i) => i,
        None => return None,
    };
    if close < open + 1 {
        return None;
    }
    let inner = sub_chars(cs.as_slice(), open + 1, close);
    inner_tokens(inner.as_slice())
}

/// The source name and year a job watch asks the server to reconstruct from, sent
/// only for a reconstructed job or when no job id is known.
pub fn watch_stream_params(job_id: u64, reconstructed: bool, source: String, year: i32) -> (r: (
    Option<String>,
    Option<i32>,
))
    ensures
        (reconstructed || job_id == 0) ==> r.0 == Some(source) && r.1 == Some(year),
        !(reconstructed || job_id == 0) ==> r.0 is None && r.1 is None,
{
    if reconstructed || job_id == 0 {
        (Some(source), Some(year))
    } else {
        (None, None)
    }
}

/// Every fifth job update also refreshes the source list and details.
pub fn refresh_sources_due(tick: u32) -> (b: bool)
    ensures
        b == (tick % 5 == 0),
{
    tick % 5 == 0
}

/// The moves a replay to ply `ply_idx` applies, each with its ply number (from 1)
/// and UCI text, in order: the first `ply_idx` plies of the game.
pub open spec fn spec_replay_moves(plies: Seq<PlyView>, ply_idx: int) -> Seq<(int, Seq<char>)> {
    let n = if ply_idx < plies.len() { ply_idx } else { plies.len() as int };
    Seq::new(n as nat, |i: int| (i + 1, plies[i].uci@))
}

/// Whether every ply up to `ply_idx` has UCI text that can be cut at bytes 2 and 4.
pub open spec fn replay_slicing_ok(plies: Seq<PlyView>, ply_idx: int) -> bool {
    forall|i: int|
        0 <= i < plies.len() && i < ply_idx ==> {
            let b = encode_utf8((#[trigger] plies[i]).uci@);
            b.len() >= 4 ==> is_char_boundary(b, 2) && is_char_boundary(b, 4)
        }
}

/// The squares highlighted after replaying the first `n` plies: those of the last
/// ply among them whose UCI text parses.
pub open spec fn spec_replay_last(plies: Seq<PlyView>, n: int) -> Option<(Seq<char>, Seq<char>)>
    decreases n,
{
    if n <= 0 {
        None
    } else {
        let b = encode_utf8(plies[n - 1].uci@);
        if b.len() >= 4 {
            Some((decode_utf8(b.subrange(0, 2)), decode_utf8(b.subrange(2, 4))))
        } else {
            spec_replay_last(plies, n - 1)
        }
    }
}

/// What replaying a game to a ply does: the moves to apply, in order, and the
/// squares to highlight once they all apply.
pub struct ReplayPlan {
    /// Ply number (from 1) and UCI text of each move to apply.
    pub moves: Vec<(usize, String)>,
    /// Origin and destination of the last move that parses.
    pub last_move: Option<(String, String)>,
}

/// Plans the replay of a game's first `ply_idx` plies.
pub fn replay_plan(plies: &[PlyView], ply_idx: usize) -> (r: ReplayPlan)
    requires
        replay_slicing_ok(plies@, ply_idx as int),
    ensures
        r.moves@.len() == spec_replay_moves(plies@, ply_idx as int).len(),
        forall|i: int|
            0 <= i < r.moves@.len() ==> (#[trigger] r.moves@[i]).0 as int == spec_replay_moves(
                plies@,
                ply_idx as int,
            )[i].0 && r.moves@[i].1@ == spec_replay_moves(plies@, ply_idx as int)[i].1,
        match r.last_move {
            Some((a, b)) => spec_replay_last(
                plies@,
                spec_replay_moves(plies@, ply_idx as int).len() as int,
            ) == Some((a@, b@)),
            None => spec_replay_last(plies@, spec_replay_moves(plies@, ply_idx as int).len() as int)
                is None,
        },
{
    let n: usize = if ply_idx < plies.len() { ply_idx } else { plies.len() };
    let mut moves: Vec<(usize, String)> = Vec::new();
    let mut last: Option<(String, String)> = None;
    let mut i: usize = 0;
    while i < n
        invariant
            i <= n,
            n <= plies@.len(),
            n == (if ply_idx < plies@.len() { ply_idx as int } else { plies@.len() as int }),
            replay_slicing_ok(plies@, ply_idx as int),
            moves@.len() == i,
            forall|j: int|
                0 <= j < i ==> (#[trigger] moves@[j]).0 == j + 1 && moves@[j].1@ == plies@[j].uci@,
            match last {
                Some((a, b)) => spec_replay_last(plies@, i as int) == Some((a@, b@)),
                None => spec_replay_last(plies@, i as int) is None,
            },
        decreases n - i,
    {
        let uci = plies[i].uci.as_str();
        assert(uci.spec_bytes() == encode_utf8(plies@[i as int].uci@));
        match parse_uci(uci) {
            Some(m) => {
                last = Some((m.from, m.to));
            },
            None => {},
        }
        moves.push((i + 1, plies[i].uci.clone()));
        i = i + 1;
    }
    ReplayPlan { moves, last_move: last }
}

} // verus!

verus! {

/// Characters that may stand in an amount's text: digits and the decimal point.
spec fn amount_char(c: char) -> bool {
    ('0' <= c && c <= '9') || c == '.'
}

proof fn lemma_gib_text_chars(bytes: nat)
    ensures
        crate::progress::gib_text(bytes).len() >= 1,
        forall|i: int|
            0 <= i < crate::progress::gib_text(bytes).len() ==> amount_char(
                #[trigger] crate::progress::gib_text(bytes)[i],
            ),
        '0' <= crate::progress::gib_text(bytes)[0] <= '9',
{
    let t = crate::progress::gib_tenths(bytes);
    let d = decimal_digits(t / 10);
    crate::decimal::lemma_decimal_digits_all_digits(t / 10);
    let g = crate::progress::gib_text(bytes);
    assert forall|i: int| 0 <= i < g.len() implies amount_char(#[trigger] g[i]) by {
        if i < d.len() {
            assert(g[i] == d[i]);
            assert(crate::decimal::is_digit(d[i]));
        }
    }
    assert(g[0] == d[0]);
    assert(crate::decimal::is_digit(d[0]));
}

proof fn lemma_first_pos_at(s: Seq<char>, c: char, i: int)
    requires
        0 <= i < s.len(),
        s[i] == c,
        forall|j: int| 0 <= j < i ==> s[j] != c,
    ensures
        first_pos(s, c) == Some(i),
{
    reveal(first_pos);
    let k = choose|k: int| 0 <= k < s.len() && s[k] == c && forall|j: int| 0 <= j < k ==> s[j] != c;
    assert(0 <= i < s.len() && s[i] == c);
    if k < i {
        assert(s[k] != c);
    } else if k > i {
        assert(s[i] != c);
    }
}

proof fn lemma_split_without_sep(y: Seq<char>, sep: char, x: Seq<Seq<char>>)
    requires
        forall|i: int| 0 <= i < y.len() ==> y[i] != sep,
    ensures
        split_on(y, sep) == seq![y],
    decreases y.len(),
{
    if y.len() == 0 {
        assert(y =~= Seq::<char>::empty());
    } else {
        lemma_split_without_sep(y.drop_last(), sep, x);
        assert(y.drop_last().push(y.last()) =~= y);
        assert(seq![y.drop_last()].update(0, y.drop_last().push(y.last())) =~= seq![y]);
    }
}

proof fn lemma_split_append(u: Seq<char>, v: Seq<char>, sep: char)
    requires
        forall|i: int| 0 <= i < v.len() ==> v[i] != sep,
    ensures
        split_on(u + v, sep) == split_on(u, sep).update(
            split_on(u, sep).len() - 1,
            split_on(u, sep).last() + v,
        ),
    decreases v.len(),
{
    lemma_split_on_nonempty(u, sep);
    if v.len() == 0 {
        assert(u + v =~= u);
        assert(split_on(u, sep).last() + v =~= split_on(u, sep).last());
        assert(split_on(u, sep).update(split_on(u, sep).len() - 1, split_on(u, sep).last())
            =~= split_on(u, sep));
    } else {
        let w = v.drop_last();
        lemma_split_append(u, w, sep);
        assert((u + v).drop_last() =~= u + w);
        assert((u + v).last() == v.last());
        let p = split_on(u + w, sep);
        assert(p.len() == split_on(u, sep).len());
        assert((split_on(u, sep).last() + w).push(v.last()) =~= split_on(u, sep).last() + v);
        assert(p.update(p.len() - 1, p.last().push(v.last())) =~= split_on(u, sep).update(
            split_on(u, sep).len() - 1,
            split_on(u, sep).last() + v,
        ));
    }
}

proof fn lemma_word_is_whole(a: Seq<char>, rest: Seq<char>)
    requires
        a.len() >= 1,
        forall|i: int| 0 <= i < a.len() ==> !is_whitespace(#[trigger] a[i]),
        rest.len() == 0 || is_whitespace(rest[0]),
    ensures
        word_len(a + rest) == a.len(),
{
    let t = a + rest;
    assert(is_word_end(t, a.len() as int)) by {
        assert forall|q: int| 0 <= q < a.len() implies !is_whitespace(t[q]) by {
            assert(t[q] == a[q]);
        }
        if rest.len() > 0 {
            assert(t[a.len() as int] == rest[0]);
        }
    }
    let j = word_len(t);
    assert(is_word_end(t, j));
    if j < a.len() {
        assert(t[j] == a[j]);
    } else if j > a.len() {
        assert(is_whitespace(rest[0]));
        assert(t[a.len() as int] == rest[0]);
    }
}

/// Law: the two amounts picked out of a download progress message with a known total
/// are the downloaded and the total amounts it shows, when the shard label holds no
/// parenthesis.
pub proof fn lemma_progress_tokens_of_message(label: Seq<char>, downloaded: nat, total: nat)
    requires
        forall|i: int| 0 <= i < label.len() ==> #[trigger] label[i] != '(' && label[i] != ')',
    ensures
        spec_progress_tokens(crate::progress::spec_download_progress(label, downloaded, Some(total)))
            == Some((crate::progress::gib_text(downloaded), crate::progress::gib_text(total))),
{
    let a = crate::progress::gib_text(downloaded);
    let b = crate::progress::gib_text(total);
    lemma_gib_text_chars(downloaded);
    lemma_gib_text_chars(total);
    reveal_strlit("downloading shard ");
    reveal_strlit(" (");
    reveal_strlit(" / ");
    reveal_strlit(" GiB)");
    reveal_strlit(" GiB");
    assert(" GiB)"@ =~= " GiB"@ + seq![')']);
    let pre = "downloading shard "@ + label + " ("@;
    let inner = a + " / "@ + b + " GiB"@;
    let msg = crate::progress::spec_download_progress(label, downloaded, Some(total));
    assert(msg =~= pre + inner + seq![')']);
    let o = pre.len() - 1;
    let c = msg.len() - 1;
    assert forall|j: int| 0 <= j < o implies msg[j] != '(' by {
        assert(msg[j] == pre[j]);
        if 18 <= j < 18 + label.len() {
            assert(pre[j] == label[j - 18]);
        }
    }
    lemma_first_pos_at(msg, '(', o);
    assert forall|j: int| 0 <= j < c implies msg[j] != ')' by {
        if 18 <= j < 18 + label.len() {
            assert(msg[j] == label[j - 18]);
        } else if pre.len() <= j < pre.len() + a.len() {
            assert(msg[j] == a[j - pre.len()]);
        } else if pre.len() + a.len() + 3 <= j < pre.len() + a.len() + 3 + b.len() {
            assert(msg[j] == b[j - pre.len() - a.len() - 3]);
        }
    }
    lemma_first_pos_at(msg, ')', c);
    assert(msg.subrange(o + 1, c) =~= inner);
    // Split the inner text at its only '/'.
    let u = a + seq![' '];
    let v = seq![' '] + b + " GiB"@;
    assert(inner =~= (u + seq!['/']) + v);
    assert forall|i: int| 0 <= i < u.len() implies u[i] != '/' by {
        if i < a.len() {
            assert(u[i] == a[i]);
        }
    }
    assert forall|i: int| 0 <= i < v.len() implies v[i] != '/' by {
        if 1 <= i < 1 + b.len() {
            assert(v[i] == b[i - 1]);
        }
    }
    lemma_split_without_sep(u, '/', seq![]);
    assert((u + seq!['/']).drop_last() =~= u);
    assert(split_on(u + seq!['/'], '/') == seq![u].push(Seq::<char>::empty()));
    lemma_split_append(u + seq!['/'], v, '/');
    let pieces = split_on(inner, '/');
    assert(pieces =~= seq![u, v]);
    // The word before the slash.
    assert forall|i: int| 0 <= i < a.len() implies !is_whitespace(#[trigger] a[i]) by {
        assert(amount_char(a[i]));
    }
    assert(!is_whitespace(u[0]));
    assert(crate::text::trim_start(u) == u);
    assert(u.drop_last() =~= a);
    assert(is_whitespace(u.last()));
    assert(!is_whitespace(a.last()));
    assert(crate::text::trim_end(a) == a);
    assert(crate::text::trim_end(u) == a);
    assert(trim(u) == a);
    lemma_word_is_whole(a, Seq::empty());
    assert(a + Seq::<char>::empty() =~= a);
    assert(a.take(a.len() as int) =~= a);
    assert(first_word(u) == Some(a));
    // The word after the slash.
    let tv = b + " GiB"@;
    assert(v.drop_first() =~= tv);
    assert(is_whitespace(v[0]));
    assert forall|i: int| 0 <= i < b.len() implies !is_whitespace(#[trigger] b[i]) by {
        assert(amount_char(b[i]));
    }
    assert(tv[0] == b[0]);
    assert(crate::text::trim_start(tv) == tv);
    assert(crate::text::trim_start(v) == tv);
    assert(tv.last() == 'B');
    assert(crate::text::trim_end(tv) == tv);
    assert(trim(v) == tv);
    lemma_word_is_whole(b, " GiB"@);
    assert(tv.take(b.len() as int) =~= b);
    assert(first_word(v) == Some(b));
    reveal(spec_inner_tokens);
}

} // verus!
