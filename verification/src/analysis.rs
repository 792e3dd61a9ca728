//! Options and bookkeeping of game analysis runs.

use vstd::prelude::*;

verus! {

/// Search depth of an analysis unless asked otherwise.
pub const DEFAULT_ANALYSIS_DEPTH: u32 = 12;

/// Analysis workers when the machine's parallelism is unknown.
pub const FALLBACK_ANALYSIS_WORKERS: usize = 2;

/// Options for analyzing games.
#[derive(Debug)]
pub struct AnalyzeOptions {
    /// Search depth (plies).
    pub depth: u32,
    /// Path to a corpus book export.
    pub corpus_book: Option<String>,
    /// Syzygy tablebase directory.
    pub syzygy_path: Option<String>,
    /// Parallel analysis workers.
    pub workers: usize,
}

impl AnalyzeOptions {
    /// The default options from the environment's settings and the machine's
    /// parallelism as read by the caller: depth 12, one worker per available CPU
    /// (two when unknown).
    pub fn from_environment(corpus_book: Option<String>, syzygy_path: Option<String>, available: Option<usize>) -> (o: AnalyzeOptions)
        ensures
            o.depth == DEFAULT_ANALYSIS_DEPTH,
            o.corpus_book == corpus_book,
            o.syzygy_path == syzygy_path,
            o.workers == match available {
                Some(n) => n,
                None => FALLBACK_ANALYSIS_WORKERS,
            },
    {
        AnalyzeOptions {
            depth: DEFAULT_ANALYSIS_DEPTH,
            corpus_book,
            syzygy_path,
            workers: match available {
                Some(n) => n,
                None => FALLBACK_ANALYSIS_WORKERS,
            },
        }
    }

    /// These options with another search depth.
    pub fn with_depth(self, depth: u32) -> (o: AnalyzeOptions)
        ensures
            o.depth == depth,
            o.corpus_book == self.corpus_book,
            o.syzygy_path == self.syzygy_path,
            o.workers == self.workers,
    {
        AnalyzeOptions { depth, ..self }
    }
}

/// The depth of a requested analysis: the requested one, or 12 for zero.
pub fn requested_depth(depth: u32) -> (d: u32)
    ensures
        d == (if depth == 0 { DEFAULT_ANALYSIS_DEPTH } else { depth }),
{
    if depth == 0 {
        DEFAULT_ANALYSIS_DEPTH
    } else {
        depth
    }
}

/// The games of a batch analysis that succeeded, with their results, in order.
pub open spec fn succeeded<S>(outcomes: Seq<Result<(i64, S), i64>>) -> Seq<(i64, S)>
    decreases outcomes.len(),
{
    if outcomes.len() == 0 {
        Seq::empty()
    } else {
        let rest = succeeded(outcomes.drop_last());
        match outcomes.last() {
            Ok(p) => rest.push(p),
            Err(_) => rest,
        }
    }
}

/// The ids of the games of a batch analysis that failed, in order.
pub open spec fn failed_ids<S>(outcomes: Seq<Result<(i64, S), i64>>) -> Seq<i64>
    decreases outcomes.len(),
{
    if outcomes.len() == 0 {
        Seq::empty()
    } else {
        let rest = failed_ids(outcomes.drop_last());
        match outcomes.last() {
            Ok(_) => rest,
            Err(id) => rest.push(id),
        }
    }
}

/// Splits the outcomes of a batch analysis into the games to store, with their
/// results, and the ids of the games to mark failed, each in order.
pub fn partition_outcomes<S>(outcomes: Vec<Result<(i64, S), i64>>) -> (r: (Vec<(i64, S)>, Vec<i64>))
    ensures
        r.0@ == succeeded(outcomes@),
        r.1@ == failed_ids(outcomes@),
{
    let ghost all = outcomes@;
    let mut ok: Vec<(i64, S)> = Vec::new();
    let mut failed: Vec<i64> = Vec::new();
    for outcome in it: outcomes.into_iter()
        invariant
            it.seq() == all,
            ok@ == succeeded(all.take(it.index() as int)),
            failed@ == failed_ids(all.take(it.index() as int)),
    {
        let ghost k = it.index();
        proof {
            assert(all.take(k + 1).drop_last() == all.take(k as int));
            assert(all.take(k + 1).last() == all[k as int]);
        }
        match outcome {
            Ok(p) => ok.push(p),
            Err(id) => failed.push(id),
        }
    }
    assert(all.take(all.len() as int) == all);
    (ok, failed)
}

/// Law: every outcome of a batch analysis lands on exactly one side: the stored
/// games and the failed ids together count every outcome.
pub proof fn lemma_partition_counts<S>(outcomes: Seq<Result<(i64, S), i64>>)
    ensures
        succeeded(outcomes).len() + failed_ids(outcomes).len() == outcomes.len(),
    decreases outcomes.len(),
{
    if outcomes.len() > 0 {
        lemma_partition_counts(outcomes.drop_last());
    }
}

/// A tablebase verdict for the side to move.
#[derive(Debug, Clone, Copy, PartialEq, Eq, Structural)]
pub enum Wdl {
    Win,
    CursedWin,
    Draw,
    BlessedLoss,
    Loss,
}

/// The centipawn score given to a tablebase verdict.
pub open spec fn spec_wdl_centipawns(w: Wdl) -> int {
    match w {
        Wdl::Win => 500,
        Wdl::CursedWin => 50,
        Wdl::Draw => 0,
        Wdl::BlessedLoss => -50,
        Wdl::Loss => -500,
    }
}

/// The centipawn score given to a tablebase verdict.
pub fn wdl_centipawns(w: Wdl) -> (cp: i32)
    ensures
        cp == spec_wdl_centipawns(w),
{
    match w {
        Wdl::Win => 500,
        Wdl::CursedWin => 50,
        Wdl::Draw => 0,
        Wdl::BlessedLoss => -50,
        Wdl::Loss => -500,
    }
}

/// Law: tablebase scores are symmetric: a win and a loss, or a cursed win and a
/// blessed loss, score opposite, and a draw scores zero.
pub proof fn lemma_wdl_symmetric()
    ensures
        spec_wdl_centipawns(Wdl::Win) == -spec_wdl_centipawns(Wdl::Loss),
        spec_wdl_centipawns(Wdl::CursedWin) == -spec_wdl_centipawns(Wdl::BlessedLoss),
        spec_wdl_centipawns(Wdl::Draw) == 0,
{
}

/// The position of the most played move: the largest count, the last one among
/// equal counts (as `Iterator::max_by_key` picks); none for no moves.
pub open spec fn is_most_played(counts: Seq<u64>, k: int) -> bool {
    &&& 0 <= k < counts.len()
    &&& forall|i: int| 0 <= i < counts.len() ==> counts[i] <= counts[k]
    &&& forall|i: int| k < i < counts.len() ==> counts[i] < counts[k]
}

/// Finds the most played move among corpus move counts: the largest count, the last
/// one among equal counts.
pub fn most_played(counts: &[u64]) -> (r: Option<usize>)
    ensures
        match r {
            Some(k) => is_most_played(counts@, k as int),
            None => counts@.len() == 0,
        },
{
    if counts.len() == 0 {
        return None;
    }
    let mut best: usize = 0;
    let mut i: usize = 1;
    while i < counts.len()
        invariant
            1 <= i <= counts@.len(),
            best < i,
            forall|j: int| 0 <= j < i ==> counts@[j] <= counts@[best as int],
            forall|j: int| best < j < i ==> counts@[j] < counts@[best as int],
        decreases counts@.len() - i,
    {
        if counts[i] >= counts[best] {
            best = i;
        }
        i = i + 1;
    }
    Some(best)
}

/// An engine score: centipawns, or mate in a number of moves (negative when the side
/// to move is mated).
#[derive(Debug, Clone, Copy, PartialEq, Eq, Structural)]
pub enum EvalScore {
    Cp(i32),
    Mate(i32),
}

/// Largest centipawn magnitude stored for a position.
pub const MAX_STORED_CP: i32 = 30000;

/// The magnitude of an integer.
pub open spec fn abs_int(x: int) -> int {
    if x < 0 {
        -x
    } else {
        x
    }
}

/// The stored form of a score: centipawns clamped to ±30000; a mate stores ±30000
/// and the mate distance, capped at 30000.
pub open spec fn spec_stored_score(s: EvalScore) -> (i16, Option<i16>) {
    match s {
        EvalScore::Cp(cp) => (if cp < -MAX_STORED_CP {
            -30000i16
        } else if cp > MAX_STORED_CP {
            30000i16
        } else {
            cp as i16
        }, None),
        EvalScore::Mate(m) => (if m > 0 {
            30000i16
        } else {
            -30000i16
        }, Some(if abs_int(m as int) < MAX_STORED_CP {
            abs_int(m as int) as i16
        } else {
            30000i16
        })),
    }
}

/// Converts an engine score to its stored form.
pub fn stored_score(s: EvalScore) -> (r: (i16, Option<i16>))
    requires
        s matches EvalScore::Mate(m) ==> m != i32::MIN,
    ensures
        r == spec_stored_score(s),
{
    match s {
        EvalScore::Cp(cp) => {
            let c: i16 = if cp < -MAX_STORED_CP {
                -30000
            } else if cp > MAX_STORED_CP {
                30000
            } else {
                cp as i16
            };
            (c, None)
        },
        EvalScore::Mate(m) => {
            let c: i16 = if m > 0 {
                30000
            } else {
                -30000
            };
            let a: i32 = if m < 0 {
                -m
            } else {
                m
            };
            let d: i16 = if a < MAX_STORED_CP {
                a as i16
            } else {
                30000
            };
            (c, Some(d))
        },
    }
}

/// Where an evaluation came from.
#[derive(Debug, Clone, Copy, PartialEq, Eq, Structural)]
pub enum EvalSource {
    Corpus,
    Syzygy,
    Native,
    Stockfish,
}

/// The stored label of an evaluation's source; engine results count as native.
pub fn eval_source_label(s: EvalSource) -> (r: String)
    ensures
        r@ == match s {
            EvalSource::Corpus => "corpus"@,
            EvalSource::Syzygy => "syzygy"@,
            EvalSource::Native => "native"@,
            EvalSource::Stockfish => "native"@,
        },
{
    match s {
        EvalSource::Corpus => crate::text::owned("corpus"),
        EvalSource::Syzygy => crate::text::owned("syzygy"),
        EvalSource::Native | EvalSource::Stockfish => crate::text::owned("native"),
    }
}

/// The search depth of a position evaluation request: the requested one, or 10
/// for zero.
pub fn eval_depth(depth: u32) -> (d: u32)
    ensures
        d == (if depth == 0 { 10 } else { depth }),
{
    if depth == 0 {
        10
    } else {
        depth
    }
}

} // verus!
