//! Import options and the batching of a streamed shard import: raw game chunks are
//! gathered into parse batches, parsed games into database batches.

use vstd::prelude::*;

use crate::batch::{lemma_batch_layout, spec_batches};

verus! {

/// Options controlling ingest behavior.
#[derive(Debug)]
pub struct ImportOptions {
    /// Parallel parse workers.
    pub workers: usize,
    /// Games per COPY batch.
    pub batch_games: usize,
    /// Concurrent shard loads (separate database connections per shard).
    pub shard_concurrency: usize,
    /// Store full PGN text on each game row.
    pub store_pgn: bool,
    /// Stop on first parse error.
    pub fail_fast: bool,
    /// Cast chess types during INSERT instead of a backfill after the load.
    pub eager_types: bool,
    /// Optional shard SHA-256 stamped on each game row.
    pub shard_sha256: Option<Vec<u8>>,
}

/// Games per COPY batch unless asked otherwise.
pub const DEFAULT_BATCH_GAMES: usize = 5000;

/// Parse workers when the machine's parallelism is unknown.
pub const FALLBACK_WORKERS: usize = 4;

impl ImportOptions {
    /// The default options, with one parse worker per available CPU as detected by
    /// the caller (four when unknown).
    pub fn with_parallelism(available: Option<usize>) -> (o: ImportOptions)
        ensures
            o.workers == match available {
                Some(n) => n,
                None => FALLBACK_WORKERS,
            },
            o.batch_games == DEFAULT_BATCH_GAMES,
            o.shard_concurrency == 1,
            !o.store_pgn,
            !o.fail_fast,
            !o.eager_types,
            o.shard_sha256 is None,
    {
        let workers = match available {
            Some(n) => n,
            None => FALLBACK_WORKERS,
        };
        ImportOptions {
            workers,
            batch_games: DEFAULT_BATCH_GAMES,
            shard_concurrency: 1,
            store_pgn: false,
            fail_fast: false,
            eager_types: false,
            shard_sha256: None,
        }
    }

    /// Options of a single-fileset load request: its workers and batch size, no PGN
    /// text, no fail-fast, types backfilled later, no shard digest.
    pub fn for_request(workers: usize, batch_games: usize, available: Option<usize>) -> (o: ImportOptions)
        ensures
            o.workers == workers,
            o.batch_games == batch_games,
            o.shard_concurrency == 1,
            !o.store_pgn,
            !o.fail_fast,
            !o.eager_types,
            o.shard_sha256 is None,
    {
        let base = ImportOptions::with_parallelism(available);
        ImportOptions {
            workers,
            batch_games,
            shard_concurrency: base.shard_concurrency,
            store_pgn: false,
            fail_fast: false,
            eager_types: false,
            shard_sha256: None,
        }
    }

    /// These options with another shard digest.
    pub fn with_shard_sha256(&self, sha256: Option<Vec<u8>>) -> (o: ImportOptions)
        ensures
            o.workers == self.workers,
            o.batch_games == self.batch_games,
            o.shard_concurrency == self.shard_concurrency,
            o.store_pgn == self.store_pgn,
            o.fail_fast == self.fail_fast,
            o.eager_types == self.eager_types,
            o.shard_sha256 == sha256,
    {
        ImportOptions {
            workers: self.workers,
            batch_games: self.batch_games,
            shard_concurrency: self.shard_concurrency,
            store_pgn: self.store_pgn,
            fail_fast: self.fail_fast,
            eager_types: self.eager_types,
            shard_sha256: sha256,
        }
    }

    /// The options a downloaded shard is ingested with: these, with chess types cast
    /// during INSERT and the shard's digest stamped on its games.
    pub fn for_shard(&self, sha256: Vec<u8>) -> (o: ImportOptions)
        ensures
            o.workers == self.workers,
            o.batch_games == self.batch_games,
            o.shard_concurrency == self.shard_concurrency,
            o.store_pgn == self.store_pgn,
            o.fail_fast == self.fail_fast,
            o.eager_types,
            o.shard_sha256 == Some(sha256),
    {
        let mut o = self.with_shard_sha256(Some(sha256));
        o.eager_types = true;
        o
    }
}

/// Number of raw game chunks parsed together: 64 per worker (saturating), at least 128.
pub open spec fn spec_parse_batch_size(workers: usize) -> nat {
    let per = if workers * 64 > usize::MAX {
        usize::MAX as nat
    } else {
        (workers * 64) as nat
    };
    if per < 128 {
        128
    } else {
        per
    }
}

/// Number of raw game chunks parsed together: 64 per worker (saturating), at least 128.
pub fn parse_batch_size(workers: usize) -> (n: usize)
    ensures
        n == spec_parse_batch_size(workers),
{
    let per: usize = if workers > usize::MAX / 64 {
        usize::MAX
    } else {
        workers * 64
    };
    if per < 128 {
        128
    } else {
        per
    }
}

/// Gathers items into batches of a fixed size, handing out full batches as they
/// fill and, at the end, what is left. It remembers (as ghost state) every item it
/// received and every batch it handed out.
pub struct Batcher<T> {
    size: usize,
    pending: Vec<T>,
    finished: bool,
    received: Ghost<Seq<T>>,
    emitted: Ghost<Seq<Seq<T>>>,
}

impl<T> Batcher<T> {
    /// The batch size.
    pub closed spec fn size(&self) -> nat {
        self.size as nat
    }

    /// Items received and not yet handed out.
    pub closed spec fn pending(&self) -> Seq<T> {
        self.pending@
    }

    /// Every item received, in order.
    pub closed spec fn received(&self) -> Seq<T> {
        self.received@
    }

    /// Every batch handed out, in order.
    pub closed spec fn emitted(&self) -> Seq<Seq<T>> {
        self.emitted@
    }

    /// Whether a short final batch was handed out, after which nothing more is taken.
    pub closed spec fn is_finished(&self) -> bool {
        self.finished
    }

    /// The batches handed out are the received items, cut every `size` items; the
    /// pending items are the rest. After a short final batch nothing is pending.
    pub closed spec fn wf(&self) -> bool {
        let bs = self.size as int;
        let nb = self.emitted@.len();
        let all = self.received@;
        &&& bs > 0
        &&& if !self.finished {
            &&& all.len() == nb * bs + self.pending@.len()
            &&& self.pending@ == all.subrange(nb * bs, all.len() as int)
            &&& forall|k: int|
                0 <= k < nb ==> #[trigger] self.emitted@[k] == all.subrange(k * bs, (k + 1) * bs)
        } else {
            &&& self.pending@.len() == 0
            &&& nb >= 1
            &&& (nb - 1) * bs < all.len() < nb * bs
            &&& self.emitted@[nb - 1] == all.subrange((nb - 1) * bs, all.len() as int)
            &&& forall|k: int|
                0 <= k < nb - 1 ==> #[trigger] self.emitted@[k] == all.subrange(k * bs, (k + 1) * bs)
        }
    }

    /// An empty batcher for batches of `size` items.
    pub fn new(size: usize) -> (b: Self)
        requires
            size > 0,
        ensures
            b.wf(),
            b.size() == size,
            b.pending() == Seq::<T>::empty(),
            b.received() == Seq::<T>::empty(),
            b.emitted() == Seq::<Seq<T>>::empty(),
            !b.is_finished(),
    {
        let b = Batcher {
            size,
            pending: Vec::new(),
            finished: false,
            received: Ghost(Seq::empty()),
            emitted: Ghost(Seq::empty()),
        };
        assert(b.received@ == Seq::<T>::empty());
        assert(b.pending@ =~= b.received@.subrange(0, 0));
        b
    }

    /// Number of pending items.
    pub fn pending_len(&self) -> (n: usize)
        ensures
            n == self.pending().len(),
    {
        self.pending.len()
    }

    /// Receives one item.
    pub fn push(&mut self, item: T)
        requires
            old(self).wf(),
            !old(self).is_finished(),
        ensures
            final(self).wf(),
            final(self).size() == old(self).size(),
            final(self).received() == old(self).received().push(item),
            final(self).pending() == old(self).pending().push(item),
            final(self).emitted() == old(self).emitted(),
            !final(self).is_finished(),
    {
        let ghost all = self.received@.push(item);
        let ghost nb = self.emitted@.len();
        let ghost bs = self.size as int;
        self.pending.push(item);
        self.received = Ghost(all);
        assert(self.pending@ =~= all.subrange(nb * bs, all.len() as int));
        assert forall|k: int| 0 <= k < nb implies #[trigger] self.emitted@[k] == all.subrange(
            k * bs,
            (k + 1) * bs,
        ) by {
            assert(0 <= k * bs && k * bs <= (k + 1) * bs && (k + 1) * bs <= nb * bs) by (nonlinear_arith)
                requires
                    0 <= k < nb,
                    bs > 0,
            ;
            assert(all.subrange(k * bs, (k + 1) * bs) =~= old(self).received@.subrange(
                k * bs,
                (k + 1) * bs,
            ));
        }
    }

    /// Receives several items, in order.
    pub fn push_all(&mut self, items: Vec<T>)
        requires
            old(self).wf(),
            !old(self).is_finished(),
        ensures
            final(self).wf(),
            final(self).size() == old(self).size(),
            final(self).received() == old(self).received() + items@,
            final(self).pending() == old(self).pending() + items@,
            final(self).emitted() == old(self).emitted(),
            !final(self).is_finished(),
    {
        let ghost r0 = self.received@;
        let ghost p0 = self.pending@;
        let ghost all = items@;
        for item in it: items.into_iter()
            invariant
                it.seq() == all,
                self.wf(),
                !self.is_finished(),
                self.size() == old(self).size(),
                self.emitted() == old(self).emitted(),
                self.received() == r0 + all.take(it.index() as int),
                self.pending() == p0 + all.take(it.index() as int),
        {
            let ghost k = it.index();
            self.push(item);
            assert(all.take(k + 1) == all.take(k as int).push(all[k as int]));
        }
        assert(all.take(all.len() as int) == all);
    }

    /// Hands out the first `size` pending items when that many are pending.
    pub fn take_full(&mut self) -> (r: Option<Vec<T>>)
        requires
            old(self).wf(),
        ensures
            final(self).wf(),
            final(self).size() == old(self).size(),
            final(self).received() == old(self).received(),
            final(self).is_finished() == old(self).is_finished(),
            old(self).pending().len() >= old(self).size() ==> (r matches Some(v) && v@ == old(
                self,
            ).pending().take(old(self).size() as int) && final(self).pending() == old(
                self,
            ).pending().skip(old(self).size() as int) && final(self).emitted() == old(
                self,
            ).emitted().push(v@)),
            old(self).pending().len() < old(self).size() ==> r is None && final(self).pending()
                == old(self).pending() && final(self).emitted() == old(self).emitted(),
    {
        if self.pending.len() < self.size {
            return None;
        }
        let ghost all = self.received@;
        let ghost nb = self.emitted@.len();
        let ghost bs = self.size as int;
        let ghost p0 = self.pending@;
        let mut batch = self.pending.split_off(self.size);
        std::mem::swap(&mut batch, &mut self.pending);
        self.emitted = Ghost(self.emitted@.push(batch@));
        proof {
            assert(nb * bs + bs == (nb + 1) * bs) by (nonlinear_arith);
            assert(batch@ =~= all.subrange(nb * bs, (nb + 1) * bs));
            assert(self.pending@ =~= all.subrange((nb + 1) * bs, all.len() as int));
            assert(batch@ =~= p0.take(bs));
            assert(self.pending@ =~= p0.skip(bs));
            assert forall|k: int| 0 <= k < nb + 1 implies #[trigger] self.emitted@[k] == all.subrange(
                k * bs,
                (k + 1) * bs,
            ) by {
                if k < nb {
                    assert(self.emitted@[k] == old(self).emitted@[k]);
                }
            }
        }
        Some(batch)
    }

    /// Hands out up to `size` pending items, when any are pending; a batch shorter
    /// than `size` is the last one.
    pub fn take_final(&mut self) -> (r: Option<Vec<T>>)
        requires
            old(self).wf(),
        ensures
            final(self).wf(),
            final(self).size() == old(self).size(),
            final(self).received() == old(self).received(),
            old(self).pending().len() == 0 ==> r is None && final(self).pending() == old(
                self,
            ).pending() && final(self).emitted() == old(self).emitted() && final(self).is_finished()
                == old(self).is_finished(),
            old(self).pending().len() > 0 ==> ({
                let k = if old(self).pending().len() < old(self).size() {
                    old(self).pending().len() as int
                } else {
                    old(self).size() as int
                };
                &&& r matches Some(v) && v@ == old(self).pending().take(k) && final(self).emitted()
                    == old(self).emitted().push(v@)
                &&& final(self).pending() == old(self).pending().skip(k)
                &&& final(self).is_finished() == (k < old(self).size())
            }),
    {
        let n = self.pending.len();
        if n == 0 {
            return None;
        }
        if n >= self.size {
            return self.take_full();
        }
        let ghost all = self.received@;
        let ghost nb = self.emitted@.len();
        let ghost bs = self.size as int;
        let ghost p0 = self.pending@;
        let mut batch: Vec<T> = Vec::new();
        std::mem::swap(&mut batch, &mut self.pending);
        self.emitted = Ghost(self.emitted@.push(batch@));
        self.finished = true;
        proof {
            assert(nb * bs + bs == (nb + 1) * bs) by (nonlinear_arith);
            assert(batch@ == p0.take(n as int));
            assert(self.pending@ =~= p0.skip(n as int));
            assert(self.emitted@[nb as int] == all.subrange(nb * bs, all.len() as int));
            assert forall|k: int| 0 <= k < nb implies #[trigger] self.emitted@[k] == all.subrange(
                k * bs,
                (k + 1) * bs,
            ) by {
                assert(self.emitted@[k] == old(self).emitted@[k]);
            }
        }
        Some(batch)
    }
}

/// Law: once nothing is pending, the batches a batcher handed out are exactly the
/// batching of everything it received: consecutive runs of `size` items, the last
/// one possibly shorter, none lost and none reordered.
pub proof fn lemma_emitted_is_batching<T>(b: Batcher<T>)
    requires
        b.wf(),
        b.pending().len() == 0,
    ensures
        b.emitted() == spec_batches(b.received(), b.size()),
{
    let all = b.received();
    let bs = b.size();
    let nb = b.emitted().len();
    let want = spec_batches(all, bs);
    if !b.is_finished() {
        lemma_batch_layout(all, bs, nb, 0);
        assert(want.len() == nb);
        assert forall|k: int| 0 <= k < nb implies #[trigger] want[k] == b.emitted()[k] by {}
    } else {
        let c = (all.len() - (nb - 1) * bs) as nat;
        assert(c < bs) by (nonlinear_arith)
            requires
                all.len() < nb * bs,
                c == all.len() - (nb - 1) * bs,
        ;
        assert((nb - 1) as nat * bs + c == all.len());
        lemma_batch_layout(all, bs, (nb - 1) as nat, c);
        assert(want.len() == nb);
        assert forall|k: int| 0 <= k < nb implies #[trigger] want[k] == b.emitted()[k] by {
            if k < nb - 1 {
            } else {
                assert(k == nb - 1);
            }
        }
    }
    assert(b.emitted() =~= want);
}

/// The batching of a streamed shard import: raw game chunks gathered into parse
/// batches, parsed games into database batches.
pub struct ShardBatcher<C, G> {
    chunks: Batcher<C>,
    games: Batcher<G>,
}

impl<C, G> ShardBatcher<C, G> {
    /// The batcher of raw chunks.
    pub closed spec fn chunk_batcher(&self) -> Batcher<C> {
        self.chunks
    }

    /// The batcher of parsed games.
    pub closed spec fn game_batcher(&self) -> Batcher<G> {
        self.games
    }

    /// Both batchers are well formed, and fewer than a parse batch of chunks waits
    /// while chunks are still taken.
    pub closed spec fn wf(&self) -> bool {
        &&& self.chunks.wf()
        &&& self.games.wf()
        &&& !self.chunks.is_finished() ==> self.chunks.pending().len() < self.chunks.size()
    }

    /// Starts the batching for the given options.
    pub fn new(options: &ImportOptions) -> (b: Self)
        requires
            options.batch_games > 0,
        ensures
            b.wf(),
            b.chunk_batcher().size() == spec_parse_batch_size(options.workers),
            b.game_batcher().size() == options.batch_games,
            b.chunk_batcher().received() == Seq::<C>::empty(),
            b.chunk_batcher().emitted() == Seq::<Seq<C>>::empty(),
            b.game_batcher().received() == Seq::<G>::empty(),
            b.game_batcher().emitted() == Seq::<Seq<G>>::empty(),
            !b.chunk_batcher().is_finished(),
            !b.game_batcher().is_finished(),
    {
        let pbs = parse_batch_size(options.workers);
        ShardBatcher { chunks: Batcher::new(pbs), games: Batcher::new(options.batch_games) }
    }

    /// Receives the next raw chunk; once a parse batch is full it is handed out to
    /// be parsed.
    pub fn push_chunk(&mut self, chunk: C) -> (r: Option<Vec<C>>)
        requires
            old(self).wf(),
            !old(self).chunk_batcher().is_finished(),
        ensures
            final(self).wf(),
            final(self).game_batcher() == old(self).game_batcher(),
            final(self).chunk_batcher().size() == old(self).chunk_batcher().size(),
            final(self).chunk_batcher().received() == old(self).chunk_batcher().received().push(chunk),
            !final(self).chunk_batcher().is_finished(),
            old(self).chunk_batcher().pending().len() + 1 == old(self).chunk_batcher().size() ==> (r matches Some(v)
                && v@ == old(self).chunk_batcher().pending().push(chunk) && final(self).chunk_batcher().emitted()
                == old(self).chunk_batcher().emitted().push(v@) && final(self).chunk_batcher().pending().len() == 0),
            old(self).chunk_batcher().pending().len() + 1 < old(self).chunk_batcher().size() ==> (r is None
                && final(self).chunk_batcher().pending() == old(self).chunk_batcher().pending().push(chunk)
                && final(self).chunk_batcher().emitted() == old(self).chunk_batcher().emitted()),
    {
        self.chunks.push(chunk);
        let r = self.chunks.take_full();
        proof {
            let p = old(self).chunks.pending().push(chunk);
            assert(p.take(p.len() as int) == p);
        }
        r
    }

    /// Hands out the chunks left at the end of the stream, if any.
    pub fn finish_chunks(&mut self) -> (r: Option<Vec<C>>)
        requires
            old(self).wf(),
        ensures
            final(self).wf(),
            final(self).game_batcher() == old(self).game_batcher(),
            final(self).chunk_batcher().received() == old(self).chunk_batcher().received(),
            final(self).chunk_batcher().pending().len() == 0,
            old(self).chunk_batcher().pending().len() == 0 ==> r is None
                && final(self).chunk_batcher().emitted() == old(self).chunk_batcher().emitted(),
            old(self).chunk_batcher().pending().len() > 0 ==> (r matches Some(v) && v@ == old(
                self,
            ).chunk_batcher().pending() && final(self).chunk_batcher().emitted() == old(
                self,
            ).chunk_batcher().emitted().push(v@)),
    {
        let r = self.chunks.take_final();
        proof {
            let p = old(self).chunks.pending();
            assert(p.take(p.len() as int) == p);
            assert(p.skip(p.len() as int).len() == 0);
        }
        r
    }

    /// Receives parsed games, in order.
    pub fn push_games(&mut self, games: Vec<G>)
        requires
            old(self).wf(),
            !old(self).game_batcher().is_finished(),
        ensures
            final(self).wf(),
            final(self).chunk_batcher() == old(self).chunk_batcher(),
            final(self).game_batcher().size() == old(self).game_batcher().size(),
            final(self).game_batcher().received() == old(self).game_batcher().received() + games@,
            final(self).game_batcher().pending() == old(self).game_batcher().pending() + games@,
            final(self).game_batcher().emitted() == old(self).game_batcher().emitted(),
            !final(self).game_batcher().is_finished(),
    {
        self.games.push_all(games);
    }

    /// Hands out a full database batch while one is pending.
    pub fn next_full_batch(&mut self) -> (r: Option<Vec<G>>)
        requires
            old(self).wf(),
        ensures
            final(self).wf(),
            final(self).chunk_batcher() == old(self).chunk_batcher(),
            final(self).game_batcher().size() == old(self).game_batcher().size(),
            final(self).game_batcher().received() == old(self).game_batcher().received(),
            final(self).game_batcher().is_finished() == old(self).game_batcher().is_finished(),
            old(self).game_batcher().pending().len() >= old(self).game_batcher().size() ==> (r matches Some(v)
                && v@ == old(self).game_batcher().pending().take(old(self).game_batcher().size() as int)
                && final(self).game_batcher().pending() == old(self).game_batcher().pending().skip(
                old(self).game_batcher().size() as int,
            ) && final(self).game_batcher().emitted() == old(self).game_batcher().emitted().push(v@)),
            old(self).game_batcher().pending().len() < old(self).game_batcher().size() ==> (r is None
                && final(self).game_batcher().pending() == old(self).game_batcher().pending()
                && final(self).game_batcher().emitted() == old(self).game_batcher().emitted()),
    {
        self.games.take_full()
    }

    /// Hands out the next database batch at the end of the shard: up to a full
    /// batch while games are pending.
    pub fn next_final_batch(&mut self) -> (r: Option<Vec<G>>)
        requires
            old(self).wf(),
        ensures
            final(self).wf(),
            final(self).chunk_batcher() == old(self).chunk_batcher(),
            final(self).game_batcher().size() == old(self).game_batcher().size(),
            final(self).game_batcher().received() == old(self).game_batcher().received(),
            final(self).game_batcher().pending().len() < old(self).game_batcher().pending().len()
                || old(self).game_batcher().pending().len() == 0,
            old(self).game_batcher().pending().len() == 0 ==> r is None,
            old(self).game_batcher().pending().len() > 0 ==> (r matches Some(v) && v@.len() > 0
                && v@.len() <= old(self).game_batcher().size() && old(self).game_batcher().pending()
                == v@ + final(self).game_batcher().pending() && final(self).game_batcher().emitted()
                == old(self).game_batcher().emitted().push(v@)),
    {
        let r = self.games.take_final();
        proof {
            let p = old(self).games.pending();
            if p.len() > 0 {
                let k = if p.len() < old(self).games.size() {
                    p.len() as int
                } else {
                    old(self).games.size() as int
                };
                assert(p == p.take(k) + p.skip(k));
            }
        }
        r
    }
}

} // verus!

verus! {

/// Running totals of a shard import: what parsing produced and what was written.
pub struct ImportTally {
    /// Games that parsed.
    pub parsed_ok: u64,
    /// Games that failed to parse.
    pub parse_errors: u64,
    /// Positions of the parsed games.
    pub parsed_positions: u64,
    /// Plies of the parsed games.
    pub parsed_plies: u64,
    /// Games written.
    pub games_loaded: u64,
    /// Positions written.
    pub positions_loaded: u64,
    /// Plies written.
    pub plies_loaded: u64,
}

impl ImportTally {
    /// Nothing parsed or written yet.
    pub fn new() -> (t: Self)
        ensures
            t.parsed_ok == 0 && t.parse_errors == 0 && t.parsed_positions == 0 && t.parsed_plies == 0,
            t.games_loaded == 0 && t.positions_loaded == 0 && t.plies_loaded == 0,
    {
        ImportTally {
            parsed_ok: 0,
            parse_errors: 0,
            parsed_positions: 0,
            parsed_plies: 0,
            games_loaded: 0,
            positions_loaded: 0,
            plies_loaded: 0,
        }
    }

    /// Adds a parse batch's counts. When a total would pass `u64::MAX` nothing is added
    /// and `false` comes back.
    pub fn parsed(&mut self, ok: u64, errors: u64, positions: u64, plies: u64) -> (fits: bool)
        ensures
            fits == (old(self).parsed_ok + ok <= u64::MAX && old(self).parse_errors + errors
                <= u64::MAX && old(self).parsed_positions + positions <= u64::MAX
                && old(self).parsed_plies + plies <= u64::MAX),
            fits ==> final(self).parsed_ok == old(self).parsed_ok + ok && final(self).parse_errors
                == old(self).parse_errors + errors && final(self).parsed_positions
                == old(self).parsed_positions + positions && final(self).parsed_plies
                == old(self).parsed_plies + plies,
            !fits ==> *final(self) == *old(self),
            final(self).games_loaded == old(self).games_loaded,
            final(self).positions_loaded == old(self).positions_loaded,
            final(self).plies_loaded == old(self).plies_loaded,
    {
        if ok <= u64::MAX - self.parsed_ok && errors <= u64::MAX - self.parse_errors && positions
            <= u64::MAX - self.parsed_positions && plies <= u64::MAX - self.parsed_plies {
            self.parsed_ok = self.parsed_ok + ok;
            self.parse_errors = self.parse_errors + errors;
            self.parsed_positions = self.parsed_positions + positions;
            self.parsed_plies = self.parsed_plies + plies;
            true
        } else {
            false
        }
    }

    /// Adds a written batch's counts and gives the games written so far, the value the
    /// progress callback reports. When a total would pass `u64::MAX` nothing is added
    /// and `None` comes back.
    pub fn written(&mut self, games: u64, positions: u64, plies: u64) -> (progress: Option<u64>)
        ensures
            progress is Some == (old(self).games_loaded + games <= u64::MAX
                && old(self).positions_loaded + positions <= u64::MAX && old(self).plies_loaded
                + plies <= u64::MAX),
            progress is Some ==> final(self).games_loaded == old(self).games_loaded + games
                && final(self).positions_loaded == old(self).positions_loaded + positions
                && final(self).plies_loaded == old(self).plies_loaded + plies
                && progress == Some(final(self).games_loaded),
            progress is None ==> *final(self) == *old(self),
            final(self).parsed_ok == old(self).parsed_ok,
            final(self).parse_errors == old(self).parse_errors,
            final(self).parsed_positions == old(self).parsed_positions,
            final(self).parsed_plies == old(self).parsed_plies,
    {
        if games <= u64::MAX - self.games_loaded && positions <= u64::MAX - self.positions_loaded
            && plies <= u64::MAX - self.plies_loaded {
            self.games_loaded = self.games_loaded + games;
            self.positions_loaded = self.positions_loaded + positions;
            self.plies_loaded = self.plies_loaded + plies;
            Some(self.games_loaded)
        } else {
            None
        }
    }
}

} // verus!

verus! {

/// Counts of a parse batch: games that parsed, games that failed, and the positions
/// and plies of the parsed games.
pub struct ParseCounts {
    /// Games that parsed.
    pub games_ok: u64,
    /// Games that failed to parse.
    pub games_err: u64,
    /// Positions of the parsed games (wrapping past `u64::MAX`).
    pub positions: u64,
    /// Plies of the parsed games (wrapping past `u64::MAX`).
    pub plies: u64,
}

/// The games that parsed, in order, among parse outcomes (each parsed game with its
/// position and ply counts).
pub open spec fn parsed_games<G, E>(o: Seq<Result<(G, u64, u64), E>>) -> Seq<G>
    decreases o.len(),
{
    if o.len() == 0 {
        Seq::empty()
    } else {
        let rest = parsed_games(o.drop_last());
        match o.last() {
            Ok((g, _, _)) => rest.push(g),
            Err(_) => rest,
        }
    }
}

/// (games parsed, games failed, positions, plies) of parse outcomes, as exact sums.
pub open spec fn parse_sums<G, E>(o: Seq<Result<(G, u64, u64), E>>) -> (nat, nat, nat, nat)
    decreases o.len(),
{
    if o.len() == 0 {
        (0, 0, 0, 0)
    } else {
        let (a, b, c, d) = parse_sums(o.drop_last());
        match o.last() {
            Ok((_, p, q)) => (a + 1, b, c + p as nat, d + q as nat),
            Err(_) => (a, b + 1, c, d),
        }
    }
}

proof fn lemma_parse_counts_bound<G, E>(o: Seq<Result<(G, u64, u64), E>>)
    ensures
        parse_sums(o).0 + parse_sums(o).1 == o.len(),
    decreases o.len(),
{
    if o.len() > 0 {
        lemma_parse_counts_bound(o.drop_last());
    }
}

/// Counts a parse batch's outcomes and keeps the games that parsed, in order. The
/// position and ply totals wrap past `u64::MAX`, as atomic counters do.
pub fn tally_parse_outcomes<G, E>(outcomes: Vec<Result<(G, u64, u64), E>>) -> (r: (Vec<G>, ParseCounts))
    ensures
        r.0@ == parsed_games(outcomes@),
        r.1.games_ok == parse_sums(outcomes@).0,
        r.1.games_err == parse_sums(outcomes@).1,
        r.1.games_ok + r.1.games_err == outcomes@.len(),
        r.1.positions == parse_sums(outcomes@).2 % 0x1_0000_0000_0000_0000,
        r.1.plies == parse_sums(outcomes@).3 % 0x1_0000_0000_0000_0000,
{
    let ghost all = outcomes@;
    let n = outcomes.len();
    let mut games: Vec<G> = Vec::new();
    let mut ok: u64 = 0;
    let mut err: u64 = 0;
    let mut positions: u64 = 0;
    let mut plies: u64 = 0;
    proof {
        lemma_parse_counts_bound(all);
    }
    for o in it: outcomes.into_iter()
        invariant
            it.seq() == all,
            n == all.len(),
            games@ == parsed_games(all.take(it.index() as int)),
            ok == parse_sums(all.take(it.index() as int)).0,
            err == parse_sums(all.take(it.index() as int)).1,
            ok + err == it.index(),
            positions == parse_sums(all.take(it.index() as int)).2 % 0x1_0000_0000_0000_0000,
            plies == parse_sums(all.take(it.index() as int)).3 % 0x1_0000_0000_0000_0000,
    {
        let ghost k = it.index();
        let ghost s0 = parse_sums(all.take(k as int));
        proof {
            assert(all.take(k + 1).drop_last() == all.take(k as int));
            assert(all.take(k + 1).last() == all[k as int]);
            lemma_parse_counts_bound(all.take(k + 1));
            assert(k < n);
        }
        match o {
            Ok((g, p, q)) => {
                games.push(g);
                ok = ok + 1;
                proof {
                    vstd::arithmetic::div_mod::lemma_add_mod_noop(s0.2 as int, p as int, 0x1_0000_0000_0000_0000);
                    vstd::arithmetic::div_mod::lemma_small_mod(p as nat, 0x1_0000_0000_0000_0000);
                    vstd::arithmetic::div_mod::lemma_add_mod_noop(s0.3 as int, q as int, 0x1_0000_0000_0000_0000);
                    vstd::arithmetic::div_mod::lemma_small_mod(q as nat, 0x1_0000_0000_0000_0000);
                    let w = positions as int + p as int;
                    if w > u64::MAX {
                        vstd::arithmetic::div_mod::lemma_mod_sub_multiples_vanish(w - 0x1_0000_0000_0000_0000, 0x1_0000_0000_0000_0000);
                    }
                }
                positions = positions.wrapping_add(p);
                plies = plies.wrapping_add(q);
                proof {
                    vstd::arithmetic::div_mod::lemma_small_mod(positions as nat, 0x1_0000_0000_0000_0000);
                    vstd::arithmetic::div_mod::lemma_small_mod(plies as nat, 0x1_0000_0000_0000_0000);
                }
            },
            Err(_) => {
                err = err + 1;
            },
        }
    }
    proof {
        assert(all.take(n as int) == all);
    }
    (games, ParseCounts { games_ok: ok, games_err: err, positions, plies })
}

} // verus!
