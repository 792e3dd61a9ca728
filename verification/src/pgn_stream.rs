//! Incremental extraction of PGN game chunks from a text stream.

use vstd::prelude::*;

use crate::text::{
    chars_of, starts_with, string_from_chars, sub_chars, skip_whitespace_backward,
    skip_whitespace_forward, trim, trim_end, trim_start, matches_at, utf8_len, byte_len, ends_with,
    is_whitespace,
};
use vstd::utf8::{decode_utf8, valid_utf8};

verus! {

/// The separator that precedes a new game: a blank line followed by a tag.
pub open spec fn game_separator() -> Seq<char> {
    seq!['\n', '\n', '[']
}

/// Index of the first occurrence of the game separator in `s`, if any.
pub open spec fn first_separator(s: Seq<char>) -> Option<int> {
    if exists|i: int|
        0 <= i <= s.len() && #[trigger] starts_with(s.skip(i), game_separator()) && forall|j: int|
            0 <= j < i ==> !#[trigger] starts_with(s.skip(j), game_separator()) {
        Some(
            choose|i: int|
                0 <= i <= s.len() && #[trigger] starts_with(s.skip(i), game_separator()) && forall|
                    j: int,
                |
                    0 <= j < i ==> !#[trigger] starts_with(s.skip(j), game_separator()),
        )
    } else {
        None
    }
}

fn find_separator(s: &[char]) -> (r: Option<usize>)
    ensures
        r matches Some(i) ==> i <= s@.len() && starts_with(s@.skip(i as int), game_separator())
            && forall|j: int| 0 <= j < i ==> !#[trigger] starts_with(s@.skip(j), game_separator()),
        r is None ==> forall|j: int|
            0 <= j <= s@.len() ==> !#[trigger] starts_with(s@.skip(j), game_separator()),
{
    let mut sep: Vec<char> = Vec::new();
    sep.push('\n');
    sep.push('\n');
    sep.push('[');
    assert(sep@ =~= game_separator());
    let mut i: usize = 0;
    while i < s.len()
        invariant
            i <= s@.len(),
            sep@ == game_separator(),
            forall|j: int| 0 <= j < i ==> !#[trigger] starts_with(s@.skip(j), game_separator()),
        decreases s@.len() - i,
    {
        if matches_at(s, i, sep.as_slice()) {
            return Some(i);
        }
        i = i + 1;
    }
    assert(!starts_with(s@.skip(i as int), game_separator()));
    None
}

proof fn lemma_first_separator(s: Seq<char>, i: int)
    requires
        0 <= i <= s.len(),
        starts_with(s.skip(i), game_separator()),
        forall|j: int| 0 <= j < i ==> !#[trigger] starts_with(s.skip(j), game_separator()),
    ensures
        first_separator(s) == Some(i),
{
    let k = choose|k: int|
        0 <= k <= s.len() && #[trigger] starts_with(s.skip(k), game_separator()) && forall|j: int|
            0 <= j < k ==> !#[trigger] starts_with(s.skip(j), game_separator());
    if k < i {
    } else if k > i {
        assert(!starts_with(s.skip(i), game_separator()));
    }
}

/// Byte offset just past the blank line that starts the next game (the offset of its
/// '['), if the text holds a "\n\n[" separator.
pub open spec fn spec_next_game_start(text: Seq<char>) -> Option<int> {
    match first_separator(text) {
        Some(i) => Some(utf8_len(text.take(i)) as int + 2),
        None => None,
    }
}

/// Byte offset of the '[' that starts the next game after a blank line.
pub fn find_next_game_start(text: &str) -> (r: Option<usize>)
    ensures
        r matches Some(n) ==> spec_next_game_start(text@) == Some(n as int),
        r is None ==> spec_next_game_start(text@) is None,
{
    let cs = chars_of(text);
    match find_separator(cs.as_slice()) {
        Some(i) => {
            proof {
                lemma_first_separator(text@, i as int);
            }
            let prefix = string_from_chars(sub_chars(cs.as_slice(), 0, i).as_slice());
            let n = crate::text::byte_len(&prefix);
            assert(prefix@ == text@.take(i as int));
            // The prefix and the separator are both part of the text, whose byte
            // length fits in memory.
            proof {
                lemma_utf8_len_prefix_bound(text@, i as int + 2);
                assert(text@.take(i + 2) == text@.take(i as int) + seq!['\n', '\n']);
                lemma_utf8_len_append_ascii(text@.take(i as int), '\n');
                lemma_utf8_len_append_ascii(text@.take(i as int).push('\n'), '\n');
                assert(text@.take(i as int).push('\n').push('\n') == text@.take(i + 2));
            }
            let total = text.as_bytes().len();
            assert(n + 2 <= total);
            Some(n + 2)
        },
        None => {
            proof {
                if first_separator(text@) is Some {
                    let k = first_separator(text@)->0;
                    assert(starts_with(text@.skip(k), game_separator()));
                }
            }
            None
        },
    }
}

proof fn lemma_utf8_len_append_ascii(s: Seq<char>, c: char)
    requires
        (c as int) < 128,
    ensures
        utf8_len(s.push(c)) == utf8_len(s) + 1,
{
    assert(vstd::utf8::is_ascii_chars(seq![c]));
    vstd::utf8::is_ascii_chars_encode_utf8(seq![c]);
    assert(s.push(c) == s + seq![c]);
    lemma_encode_utf8_append(s, seq![c]);
}

proof fn lemma_encode_utf8_append(a: Seq<char>, b: Seq<char>)
    ensures
        vstd::utf8::encode_utf8(a + b) == vstd::utf8::encode_utf8(a) + vstd::utf8::encode_utf8(b),
    decreases a.len(),
{
    if a.len() > 0 {
        lemma_encode_utf8_append(a.drop_first(), b);
        assert((a + b).drop_first() == a.drop_first() + b);
    } else {
        assert(a + b == b);
    }
}

proof fn lemma_utf8_len_prefix_bound(s: Seq<char>, k: int)
    requires
        0 <= k <= s.len(),
    ensures
        utf8_len(s.take(k)) <= utf8_len(s),
{
    lemma_encode_utf8_append(s.take(k), s.skip(k));
    assert(s.take(k) + s.skip(k) == s);
}

} // verus!

verus! {

#[verifier::external_type_specification]
#[verifier::external_body]
pub struct ExAnyhowError(anyhow::Error);

/// What taking one complete game from a buffer yields: the game text (trailing
/// whitespace removed) up to the blank line before the next game's tags, and the
/// buffer that remains. A whitespace-only buffer is emptied; a buffer with no
/// separator is kept whole.
pub open spec fn spec_take_game(b: Seq<char>) -> (Option<Seq<char>>, Seq<char>) {
    if trim(b).len() == 0 {
        (None, Seq::empty())
    } else {
        match first_separator(b) {
            Some(i) => (Some(trim_end(b.take(i + 2))), b.skip(i + 2)),
            None => (None, b),
        }
    }
}

fn take_game_chars(cs: &Vec<char>) -> (r: (Option<Vec<char>>, Vec<char>))
    ensures
        (match r.0 {
            Some(g) => Some(g@),
            None => None,
        }, r.1@) == spec_take_game(cs@),
{
    let n = cs.len();
    let (a, b) = crate::text::trim_bounds(cs.as_slice(), 0, n);
    assert(cs@.subrange(0, n as int) == cs@);
    if a == b {
        assert(trim(cs@).len() == 0);
        return (None, Vec::new());
    }
    match find_separator(cs.as_slice()) {
        Some(i) => {
            proof {
                lemma_first_separator(cs@, i as int);
            }
            let cut = i + 2;
            let e = skip_whitespace_backward(cs.as_slice(), 0, cut);
            assert(cs@.subrange(0, cut as int) == cs@.take(cut as int));
            let game = sub_chars(cs.as_slice(), 0, e);
            let rest = sub_chars(cs.as_slice(), cut, n);
            assert(rest@ == cs@.skip(cut as int));
            (Some(game), rest)
        },
        None => {
            proof {
                if first_separator(cs@) is Some {
                    let k = first_separator(cs@)->0;
                    assert(starts_with(cs@.skip(k), game_separator()));
                }
            }
            let all = sub_chars(cs.as_slice(), 0, n);
            (None, all)
        },
    }
}

/// Takes one complete game chunk off the front of `buffer`, if the buffer already
/// holds the start of the following game; never fails.
pub fn take_complete_game(buffer: &mut String) -> (r: Result<Option<String>, anyhow::Error>)
    ensures
        r matches Ok(g) && (match g {
            Some(s) => Some(s@),
            None => None,
        }, final(buffer)@) == spec_take_game(old(buffer)@),
{
    let cs = chars_of(buffer.as_str());
    let (game, rest) = take_game_chars(&cs);
    *buffer = string_from_chars(rest.as_slice());
    match game {
        Some(g) => Ok(Some(string_from_chars(g.as_slice()))),
        None => Ok(None),
    }
}

/// What the stream reader asks for next.
pub enum PgnPoll {
    /// A game chunk and the stream offset recorded for it.
    Game(String, i64),
    /// The stream is exhausted and no text is left.
    Done,
    /// More input is needed: read one more line and hand it to `push_line`.
    NeedLine,
}

/// Decision state of the incremental PGN reader: the buffered text, whether the input
/// has ended, the bytes read so far, and the offset recorded for the next game.
pub struct PgnGameReader {
    buffer: String,
    eof: bool,
    stream_offset: i64,
    next_game_offset: i64,
    read: Ghost<Seq<char>>,
    pieces: Ghost<Seq<Seq<char>>>,
}

/// View of the reader state: (buffer, eof, stream offset, next game offset).
pub type PgnStateView = (Seq<char>, bool, i64, i64);

impl View for PgnGameReader {
    type V = PgnStateView;

    closed spec fn view(&self) -> PgnStateView {
        (self.buffer@, self.eof, self.stream_offset, self.next_game_offset)
    }
}

/// Offset at which the text left in the buffer starts: the bytes read so far less
/// the bytes still buffered.
pub open spec fn buffer_start(rest: Seq<char>, stream: i64) -> i64 {
    (stream - utf8_len(rest)) as i64
}

/// The outcome of one poll: (game handed out with the offset where its text starts,
/// or Done / NeedLine as `None` with a flag telling them apart) and the state after
/// it. The next game's offset is where the text left in the buffer starts.
pub open spec fn spec_next_game(s: PgnStateView) -> (Option<(Seq<char>, i64)>, bool, PgnStateView) {
    let (b, eof, stream, next) = s;
    let (game, rest) = spec_take_game(b);
    match game {
        Some(g) => (Some((g, next)), false, (rest, eof, stream, buffer_start(rest, stream))),
        None => if eof {
            if trim(rest).len() == 0 {
                (None, true, (rest, eof, stream, buffer_start(rest, stream)))
            } else {
                (Some((rest, next)), false, (Seq::empty(), eof, stream, stream))
            }
        } else {
            (None, false, (rest, eof, stream, buffer_start(rest, stream)))
        },
    }
}

/// The text a take leaves in the buffer is never longer, in bytes, than the buffer.
proof fn lemma_take_rest_len(b: Seq<char>)
    ensures
        utf8_len(spec_take_game(b).1) <= utf8_len(b),
{
    if trim(b).len() != 0 {
        if let Some(i) = first_separator(b) {
            let k = i + 2;
            lemma_first_separator(b, i);
            lemma_encode_utf8_append(b.take(k), b.skip(k));
            assert(b.take(k) + b.skip(k) == b);
        }
    }
}

/// The pieces of text, one after another.
pub open spec fn flatten(ps: Seq<Seq<char>>) -> Seq<char>
    decreases ps.len(),
{
    if ps.len() == 0 {
        Seq::empty()
    } else {
        flatten(ps.drop_last()) + ps.last()
    }
}

/// The piece of buffered text one poll consumes, if any: a whitespace-only buffer
/// (dropped), the text up to the next game's '[' (a game), or at the end of the input
/// all that is left (the last game).
pub open spec fn spec_consumed(s: PgnStateView) -> Option<Seq<char>> {
    let (b, eof, _, _) = s;
    if trim(b).len() == 0 {
        if b.len() > 0 {
            Some(b)
        } else {
            None
        }
    } else {
        match first_separator(b) {
            Some(i) => Some(b.take(i + 2)),
            None => if eof {
                Some(b)
            } else {
                None
            },
        }
    }
}

/// Law: each poll consumes text only from the front of the buffer, in order: the
/// piece it consumes followed by the buffer after the poll is the buffer before it.
/// A game handed out is its piece, with trailing whitespace trimmed when the next
/// game follows; a piece consumed without a game is whitespace only; and when no
/// piece is consumed, the buffer is kept whole and no game is handed out.
pub proof fn lemma_poll_consumes_front(s: PgnStateView)
    ensures
        match spec_consumed(s) {
            Some(p) => {
                &&& p + spec_next_game(s).2.0 == s.0
                &&& spec_next_game(s).0 matches Some((g, _)) ==> g == trim_end(p) || g == p
                &&& spec_next_game(s).0 is None ==> trim(p).len() == 0
            },
            None => spec_next_game(s).2.0 == s.0 && spec_next_game(s).0 is None,
        },
{
    let b = s.0;
    if trim(b).len() == 0 {
        assert(b + Seq::<char>::empty() == b);
        if b.len() == 0 {
            assert(b =~= Seq::<char>::empty());
        }
    } else {
        match first_separator(b) {
            Some(i) => {
                lemma_first_separator(b, i);
                assert(b.take(i + 2) + b.skip(i + 2) == b);
            },
            None => {
                assert(b + Seq::<char>::empty() == b);
            },
        }
    }
}

impl PgnGameReader {
    /// The next game's offset is where the buffered text starts: it and the buffered
    /// bytes add up to the bytes read.
    #[verifier::type_invariant]
    spec fn offsets_ordered(self) -> bool {
        &&& 0 <= self.next_game_offset
        &&& self.next_game_offset + utf8_len(self.buffer@) == self.stream_offset
        &&& self.read@ == flatten(self.pieces@) + self.buffer@
    }

    /// All text handed to the reader so far, in order.
    pub closed spec fn text_read(&self) -> Seq<char> {
        self.read@
    }

    /// The pieces of text the reader has consumed so far, in order: each game's piece
    /// and each whitespace-only stretch it dropped.
    pub closed spec fn pieces(&self) -> Seq<Seq<char>> {
        self.pieces@
    }

    /// Nothing is lost or reordered: the text read is the consumed pieces followed by
    /// the buffered text.
    pub open spec fn keeps_text(&self) -> bool {
        self.text_read() == flatten(self.pieces()) + self@.0
    }

    /// A reader state at the start of a stream.
    pub fn new() -> (s: Self)
        ensures
            s@ == (Seq::<char>::empty(), false, 0i64, 0i64),
            s.text_read() == Seq::<char>::empty(),
            s.pieces() == Seq::<Seq<char>>::empty(),
            s.keeps_text(),
    {
        let r = PgnGameReader {
            buffer: String::new(),
            eof: false,
            stream_offset: 0,
            next_game_offset: 0,
            read: Ghost(Seq::empty()),
            pieces: Ghost(Seq::empty()),
        };
        assert(flatten(Seq::<Seq<char>>::empty()) + Seq::<char>::empty() =~= Seq::<char>::empty());
        r
    }

    /// Current byte offset recorded for the next game in the stream.
    pub fn next_offset(&self) -> (o: i64)
        ensures
            o == self@.3,
    {
        self.next_game_offset
    }

    /// Bytes of the stream read so far.
    pub fn bytes_read(&self) -> (n: i64)
        ensures
            n == self@.2,
    {
        self.stream_offset
    }

    /// One step of reading the next game: hands out a complete game, reports the end,
    /// or asks for another line.
    pub fn next_game(&mut self) -> (r: PgnPoll)
        ensures
            ({
                let (game, done, after) = spec_next_game(old(self)@);
                &&& final(self)@ == after
                &&& match r {
                    PgnPoll::Game(g, o) => game == Some((g@, o)) && o == old(self)@.2 - utf8_len(
                        old(self)@.0,
                    ),
                    PgnPoll::Done => game is None && done,
                    PgnPoll::NeedLine => game is None && !done,
                }
            }),
            final(self).text_read() == old(self).text_read(),
            final(self).pieces() == match spec_consumed(old(self)@) {
                Some(p) => old(self).pieces().push(p),
                None => old(self).pieces(),
            },
            final(self).keeps_text(),
    {
        proof {
            use_type_invariant(&*self);
        }
        let ghost s0 = self@;
        let ghost read0 = self.read@;
        let ghost pieces1 = match spec_consumed(s0) {
            Some(p) => self.pieces@.push(p),
            None => self.pieces@,
        };
        proof {
            lemma_poll_consumes_front(s0);
            if let Some(p) = spec_consumed(s0) {
                assert(pieces1 == self.pieces@.push(p));
                assert(pieces1.drop_last() =~= self.pieces@);
                assert(pieces1.last() == p);
                assert(flatten(pieces1) == flatten(self.pieces@) + p);
                assert(read0 == flatten(pieces1) + spec_next_game(s0).2.0);
            }
        }
        let cs0 = chars_of(self.buffer.as_str());
        let (taken, remaining) = take_game_chars(&cs0);
        proof {
            lemma_take_rest_len(self.buffer@);
        }
        let rest = string_from_chars(remaining.as_slice());
        let rest_len = byte_len(&rest);
        let rest_start = self.stream_offset - rest_len as i64;
        match taken {
            Some(game) => {
                let offset = self.next_game_offset;
                *self = PgnGameReader {
                    buffer: rest,
                    eof: self.eof,
                    stream_offset: self.stream_offset,
                    next_game_offset: rest_start,
                    read: Ghost(read0),
                    pieces: Ghost(pieces1),
                };
                return PgnPoll::Game(string_from_chars(game.as_slice()), offset);
            },
            None => {},
        }
        if self.eof {
            let cs = chars_of(rest.as_str());
            let (a, b) = crate::text::trim_bounds(cs.as_slice(), 0, cs.len());
            assert(cs@.subrange(0, cs@.len() as int) == cs@);
            if a == b {
                *self = PgnGameReader {
                    buffer: rest,
                    eof: true,
                    stream_offset: self.stream_offset,
                    next_game_offset: rest_start,
                    read: Ghost(read0),
                    pieces: Ghost(pieces1),
                };
                return PgnPoll::Done;
            }
            let offset = self.next_game_offset;
            *self = PgnGameReader {
                buffer: String::new(),
                eof: true,
                stream_offset: self.stream_offset,
                next_game_offset: self.stream_offset,
                read: Ghost(read0),
                pieces: Ghost(pieces1),
            };
            return PgnPoll::Game(rest, offset);
        }
        *self = PgnGameReader {
            buffer: rest,
            eof: false,
            stream_offset: self.stream_offset,
            next_game_offset: rest_start,
            read: Ghost(read0),
            pieces: Ghost(pieces1),
        };
        PgnPoll::NeedLine
    }

    /// Hands the reader one line read from the input; an empty line means the input
    /// has ended.
    pub fn push_line(&mut self, line: &str)
        requires
            old(self)@.2 + utf8_len(line@) <= i64::MAX,
        ensures
            line@.len() == 0 ==> final(self)@ == (old(self)@.0, true, old(self)@.2, old(self)@.3),
            line@.len() > 0 ==> final(self)@ == (
                old(self)@.0 + line@,
                old(self)@.1,
                (old(self)@.2 + utf8_len(line@)) as i64,
                old(self)@.3,
            ),
            final(self)@ == spec_push(old(self)@, line@),
            final(self).text_read() == old(self).text_read() + line@,
            final(self).pieces() == old(self).pieces(),
            final(self).keeps_text(),
    {
        proof {
            use_type_invariant(&*self);
            lemma_encode_utf8_append(self.buffer@, line@);
        }
        let owned_line = crate::text::owned(line);
        let read = byte_len(&owned_line);
        if read == 0 {
            proof {
                if line@.len() > 0 {
                    vstd::utf8::encode_utf8_decode_utf8(line@);
                    assert(vstd::utf8::encode_utf8(line@) =~= Seq::<u8>::empty());
                    assert(vstd::utf8::decode_utf8(Seq::<u8>::empty()) =~= Seq::<char>::empty());
                }
            }
            assert(line@ =~= Seq::<char>::empty());
            assert(self.read@ + line@ =~= self.read@);
            self.eof = true;
        } else {
            let mut cs = chars_of(self.buffer.as_str());
            let mut more = chars_of(line);
            cs.append(&mut more);
            assert(flatten(self.pieces@) + (self.buffer@ + line@) =~= self.read@ + line@);
            *self = PgnGameReader {
                buffer: string_from_chars(cs.as_slice()),
                eof: self.eof,
                stream_offset: self.stream_offset + read as i64,
                next_game_offset: self.next_game_offset,
                read: Ghost(self.read@ + line@),
                pieces: Ghost(self.pieces@),
            };
        }
    }
}

/// Law: a game handed out from a buffered separator is the buffer's text before the next
/// game's '[' with trailing whitespace removed, and the buffer keeps exactly the rest,
/// starting at that '[': no text is lost or reordered.
pub proof fn lemma_take_game_splits_buffer(b: Seq<char>)
    requires
        spec_take_game(b).0 is Some,
    ensures
        first_separator(b) is Some,
        ({
            let k = first_separator(b)->0 + 2;
            &&& 0 < k < b.len()
            &&& b == b.take(k) + spec_take_game(b).1
            &&& spec_take_game(b).0 == Some(trim_end(b.take(k)))
            &&& spec_take_game(b).1[0] == '['
        }),
{
    let i = first_separator(b)->0;
    let k = i + 2;
    assert(starts_with(b.skip(i), game_separator()));
    assert(b.skip(i)[2] == '[');
    assert(b.take(k) + b.skip(k) =~= b);
}

/// Law: once the reader reports the end, nothing is left buffered (so, by
/// `keeps_text`, all text read has been consumed), and it keeps reporting the end:
/// polling again hands out nothing and leaves the state as it is.
pub proof fn lemma_done_is_final(s: PgnStateView)
    requires
        spec_next_game(s).1,
    ensures
        spec_next_game(s).0 is None,
        spec_next_game(s).2.0 == Seq::<char>::empty(),
        spec_next_game(spec_next_game(s).2) == (None::<(Seq<char>, i64)>, true, spec_next_game(s).2),
{
    let (b, eof, stream, next) = s;
    let rest = spec_take_game(b).1;
    if trim(b).len() != 0 {
        if first_separator(b) is None {
            assert(rest == b);
        }
    }
    assert(rest =~= Seq::<char>::empty());
    assert(trim_start(Seq::<char>::empty()) =~= Seq::<char>::empty());
    assert(trim(Seq::<char>::empty()) =~= Seq::<char>::empty());
}

} // verus!

verus! {

/// What zstd decompression of a whole byte string gives: the decompressed bytes, or
/// none when the input is not a valid zstd stream.
pub uninterp spec fn spec_zstd_decode(data: Seq<u8>) -> Option<Seq<u8>>;

/// Decompresses a whole zstd byte string with `zstd::decode_all`; its error becomes
/// `None`. Claimed: the outcome is the one named `spec_zstd_decode`.
#[verifier::external_body]
fn zstd_decode_all(data: &[u8]) -> (r: Option<Vec<u8>>)
    ensures
        match r {
            Some(d) => spec_zstd_decode(data@) == Some(d@),
            None => spec_zstd_decode(data@) is None,
        },
{
    match zstd::decode_all(data) {
        Ok(d) => Some(d),
        Err(_) => None,
    }
}

/// Reads bytes as UTF-8 text with `String::from_utf8`: the decoded text when the bytes
/// are valid UTF-8, else none (its error becomes `None`).
#[verifier::external_body]
fn utf8_text(bytes: Vec<u8>) -> (r: Option<String>)
    ensures
        r is Some <==> valid_utf8(bytes@),
        r matches Some(s) ==> s@ == decode_utf8(bytes@),
{
    match String::from_utf8(bytes) {
        Ok(s) => Some(s),
        Err(_) => None,
    }
}

/// Whether a file name has the extension "zst" (ends with ".zst", the dot not first).
pub open spec fn is_zstd_name(name: Seq<char>) -> bool {
    name.len() > 4 && ends_with(name, ".zst"@)
}

/// Whether a file name has the extension "zst", so its contents are zstd-compressed.
pub fn has_zstd_extension(name: &str) -> (b: bool)
    ensures
        b == is_zstd_name(name@),
{
    let cs = chars_of(name);
    let n = cs.len();
    if n <= 4 {
        return false;
    }
    let b = cs[n - 4] == '.' && cs[n - 3] == 'z' && cs[n - 2] == 's' && cs[n - 1] == 't';
    proof {
        reveal_strlit(".zst");
        let tail = name@.skip(name@.len() - 4);
        if b {
            assert(tail =~= ".zst"@);
        } else if tail == ".zst"@ {
            assert(tail[0] == '.' && tail[1] == 'z' && tail[2] == 's' && tail[3] == 't');
        }
    }
    b
}

/// The PGN text held in a file's contents: the contents themselves, or their zstd
/// decompression when compressed, read as UTF-8; none when decompression fails or the
/// bytes are not UTF-8.
pub open spec fn spec_pgn_text(data: Seq<u8>, compressed: bool) -> Option<Seq<char>> {
    let bytes = if compressed {
        spec_zstd_decode(data)
    } else {
        Some(data)
    };
    match bytes {
        Some(b) => if valid_utf8(b) {
            Some(decode_utf8(b))
        } else {
            None
        },
        None => None,
    }
}

/// Reads plain or zstd-compressed PGN contents into text for parsing.
pub fn pgn_text_from_bytes(data: &[u8], compressed: bool) -> (r: Option<String>)
    ensures
        match r {
            Some(s) => spec_pgn_text(data@, compressed) == Some(s@),
            None => spec_pgn_text(data@, compressed) is None,
        },
{
    let bytes = if compressed {
        match zstd_decode_all(data) {
            Some(d) => d,
            None => return None,
        }
    } else {
        crate::text::copy_range(data, 0, data.len())
    };
    proof {
        assert(data@.subrange(0, data@.len() as int) == data@);
    }
    utf8_text(bytes)
}

} // verus!

verus! {

/// Whether every character of `s` is whitespace.
pub open spec fn all_whitespace(s: Seq<char>) -> bool {
    forall|i: int| 0 <= i < s.len() ==> is_whitespace(#[trigger] s[i])
}

proof fn lemma_trim_end_empty(y: Seq<char>)
    ensures
        trim_end(y).len() == 0 <==> all_whitespace(y),
    decreases y.len(),
{
    if y.len() > 0 {
        lemma_trim_end_empty(y.drop_last());
        if is_whitespace(y.last()) {
            if all_whitespace(y.drop_last()) {
                assert forall|i: int| 0 <= i < y.len() implies is_whitespace(#[trigger] y[i]) by {
                    if i < y.len() - 1 {
                        assert(y[i] == y.drop_last()[i]);
                    }
                }
            } else {
                let k = choose|k: int| 0 <= k < y.drop_last().len() && !is_whitespace(#[trigger] y.drop_last()[k]);
                assert(y[k] == y.drop_last()[k]);
            }
        } else {
            assert(!is_whitespace(y[y.len() - 1]));
        }
    }
}

proof fn lemma_trim_start_empty(x: Seq<char>)
    ensures
        trim_end(trim_start(x)).len() == 0 <==> all_whitespace(x),
    decreases x.len(),
{
    if x.len() > 0 && is_whitespace(x[0]) {
        lemma_trim_start_empty(x.drop_first());
        if all_whitespace(x.drop_first()) {
            assert forall|i: int| 0 <= i < x.len() implies is_whitespace(#[trigger] x[i]) by {
                if i > 0 {
                    assert(x[i] == x.drop_first()[i - 1]);
                }
            }
        } else {
            let k = choose|k: int| 0 <= k < x.drop_first().len() && !is_whitespace(#[trigger] x.drop_first()[k]);
            assert(x[k + 1] == x.drop_first()[k]);
        }
    } else {
        lemma_trim_end_empty(x);
        if x.len() > 0 {
            assert(!is_whitespace(x[0]));
        }
    }
}

/// Text is blank exactly when it is all whitespace.
proof fn lemma_trim_empty_iff(x: Seq<char>)
    ensures
        trim(x).len() == 0 <==> all_whitespace(x),
{
    lemma_trim_start_empty(x);
}

proof fn lemma_not_blank_append(b: Seq<char>, t: Seq<char>)
    requires
        trim(b).len() != 0,
    ensures
        trim(b + t).len() != 0,
{
    lemma_trim_empty_iff(b);
    lemma_trim_empty_iff(b + t);
    let k = choose|k: int| 0 <= k < b.len() && !is_whitespace(#[trigger] b[k]);
    assert((b + t)[k] == b[k]);
}

/// Where the first separator of a text stands, when it has one.
pub proof fn lemma_separator_facts(s: Seq<char>)
    ensures
        first_separator(s) matches Some(i) ==> 0 <= i && i + 3 <= s.len() && starts_with(
            s.skip(i),
            game_separator(),
        ) && forall|j: int| 0 <= j < i ==> !#[trigger] starts_with(s.skip(j), game_separator()),
{
    if first_separator(s) is Some {
        let i = first_separator(s)->0;
        assert(starts_with(s.skip(i), game_separator()));
    }
}

/// The first separator of a text stays the first when more text follows.
proof fn lemma_separator_prefix(b: Seq<char>, t: Seq<char>)
    requires
        first_separator(b) is Some,
    ensures
        first_separator(b + t) == first_separator(b),
{
    lemma_separator_facts(b);
    let i = first_separator(b)->0;
    let x = b + t;
    assert(x.skip(i).take(3) == b.skip(i).take(3));
    assert forall|j: int| 0 <= j < i implies !#[trigger] starts_with(x.skip(j), game_separator()) by {
        assert(!starts_with(b.skip(j), game_separator()));
        assert(x.skip(j).take(3) == b.skip(j).take(3));
    }
    lemma_first_separator(x, i);
}

/// Lines, one after another.
pub open spec fn concat_lines(lines: Seq<Seq<char>>) -> Seq<char>
    decreases lines.len(),
{
    if lines.len() == 0 {
        Seq::empty()
    } else {
        lines[0] + concat_lines(lines.drop_first())
    }
}

/// The lines after the leading blank ones.
pub open spec fn after_blank_lines(lines: Seq<Seq<char>>) -> Seq<Seq<char>>
    decreases lines.len(),
{
    if lines.len() > 0 && trim(lines[0]).len() == 0 {
        after_blank_lines(lines.drop_first())
    } else {
        lines
    }
}

/// The games of a text: cut just after each "\n\n" followed by '[', trailing whitespace
/// trimmed from every game but the last; a blank text has none.
pub open spec fn split_games(r: Seq<char>) -> Seq<Seq<char>>
    decreases r.len(),
{
    if trim(r).len() == 0 {
        Seq::empty()
    } else {
        match first_separator(r) {
            Some(i) => {
                proof {
                    lemma_separator_facts(r);
                }
                seq![trim_end(r.take(i + 2))] + split_games(r.skip(i + 2))
            },
            None => seq![r],
        }
    }
}

/// The games a reader hands out, polled until it reports the end, from buffer `b`
/// (input ended when `eof`), given one further line whenever it asks for one; an empty
/// line, or none left, ends the input.
pub open spec fn run_games(b: Seq<char>, eof: bool, lines: Seq<Seq<char>>) -> Seq<Seq<char>>
    decreases lines.len(), (if eof { 0int } else { 1int }), b.len(),
{
    let (game, rest) = spec_take_game(b);
    match game {
        Some(g) => {
            proof {
                lemma_take_rest_shorter(b);
            }
            seq![g] + run_games(rest, eof, lines)
        },
        None => if eof {
            if trim(rest).len() == 0 {
                Seq::empty()
            } else {
                seq![rest]
            }
        } else if lines.len() == 0 {
            run_games(rest, true, lines)
        } else if lines[0].len() == 0 {
            run_games(rest, true, lines.drop_first())
        } else {
            run_games(rest + lines[0], false, lines.drop_first())
        },
    }
}

/// Handing out a game shortens the buffer.
pub proof fn lemma_take_rest_shorter(b: Seq<char>)
    ensures
        spec_take_game(b).0 is Some ==> spec_take_game(b).1.len() < b.len(),
{
    if trim(b).len() != 0 {
        lemma_separator_facts(b);
    }
}

/// The state after handing the reader a line, as `push_line` leaves it.
pub open spec fn spec_push(s: PgnStateView, line: Seq<char>) -> PgnStateView {
    if line.len() == 0 {
        (s.0, true, s.2, s.3)
    } else {
        (s.0 + line, s.1, (s.2 + utf8_len(line)) as i64, s.3)
    }
}

/// `run_games` is what polling does: each poll hands out a game and goes on, reports
/// the end, or takes the next line (an empty one when none is left).
pub proof fn lemma_run_games_is_polling(s: PgnStateView, lines: Seq<Seq<char>>)
    ensures
        run_games(s.0, s.1, lines) == ({
            let (game, done, after) = spec_next_game(s);
            match game {
                Some((g, _)) => seq![g] + run_games(after.0, after.1, lines),
                None => if done {
                    Seq::<Seq<char>>::empty()
                } else if lines.len() == 0 {
                    let next = spec_push(after, Seq::empty());
                    run_games(next.0, next.1, lines)
                } else {
                    let next = spec_push(after, lines[0]);
                    run_games(next.0, next.1, lines.drop_first())
                }
            }
        }),
{
    let (g0, rest) = spec_take_game(s.0);
    if g0 is None && s.1 && trim(rest).len() != 0 {
        assert(spec_take_game(Seq::<char>::empty()).1 =~= Seq::<char>::empty());
        assert(trim_start(Seq::<char>::empty()) =~= Seq::<char>::empty());
        assert(run_games(Seq::<char>::empty(), true, lines) =~= Seq::<Seq<char>>::empty());
        assert(seq![rest] + Seq::<Seq<char>>::empty() =~= seq![rest]);
    }
}

proof fn lemma_run_at_end(b: Seq<char>, lines: Seq<Seq<char>>)
    ensures
        run_games(b, true, lines) == split_games(b),
    decreases b.len(),
{
    let (game, rest) = spec_take_game(b);
    if trim(b).len() != 0 {
        lemma_separator_facts(b);
        if let Some(i) = first_separator(b) {
            lemma_run_at_end(rest, lines);
        } else {
            assert(rest == b);
        }
    } else {
        assert(trim_start(Seq::<char>::empty()) =~= Seq::<char>::empty());
    }
}

proof fn lemma_run_after_start(b: Seq<char>, lines: Seq<Seq<char>>)
    requires
        trim(b).len() != 0,
        forall|k: int| 0 <= k < lines.len() ==> #[trigger] lines[k].len() > 0,
    ensures
        run_games(b, false, lines) == split_games(b + concat_lines(lines)),
    decreases lines.len(), b.len(),
{
    let x = b + concat_lines(lines);
    lemma_not_blank_append(b, concat_lines(lines));
    lemma_separator_facts(b);
    match first_separator(b) {
        Some(i) => {
            lemma_separator_prefix(b, concat_lines(lines));
            let rest = b.skip(i + 2);
            assert(rest[0] == '[');
            lemma_trim_empty_iff(rest);
            assert(!is_whitespace(rest[0]));
            lemma_run_after_start(rest, lines);
            assert(x.take(i + 2) == b.take(i + 2));
            assert(x.skip(i + 2) == rest + concat_lines(lines));
        },
        None => {
            assert(spec_take_game(b).1 == b);
            if lines.len() == 0 {
                lemma_run_at_end(b, lines);
                assert(concat_lines(lines) =~= Seq::<char>::empty());
                assert(x =~= b);
            } else {
                let l = lines[0];
                let more = lines.drop_first();
                assert(l.len() > 0);
                assert forall|k: int| 0 <= k < more.len() implies #[trigger] more[k].len() > 0 by {
                    assert(more[k] == lines[k + 1]);
                }
                lemma_not_blank_append(b, l);
                lemma_run_after_start(b + l, more);
                assert((b + l) + concat_lines(more) =~= x);
            }
        },
    }
}

/// Law: fed a whole input line by line, the reader hands out exactly the games of the
/// input: the leading blank lines are dropped and the rest is cut just after each
/// "\n\n" that is followed by '[', trailing whitespace trimmed from every game but the
/// last. A blank input gives no game. (Lines are as a line reader returns them, none
/// empty; after the last one the reader is told the input has ended.)
pub proof fn lemma_reader_run_splits_text(lines: Seq<Seq<char>>)
    requires
        forall|k: int| 0 <= k < lines.len() ==> #[trigger] lines[k].len() > 0,
    ensures
        run_games(Seq::empty(), false, lines) == split_games(concat_lines(after_blank_lines(lines))),
    decreases lines.len(),
{
    let e = Seq::<char>::empty();
    assert(trim_start(e) =~= e);
    assert(trim(e).len() == 0);
    assert(spec_take_game(e) == (None::<Seq<char>>, e));
    if lines.len() == 0 {
        lemma_run_at_end(e, lines);
        assert(run_games(e, false, lines) == run_games(e, true, lines));
        assert(after_blank_lines(lines) == lines);
        assert(concat_lines(lines) =~= e);
    } else {
        let l = lines[0];
        let more = lines.drop_first();
        assert forall|k: int| 0 <= k < more.len() implies #[trigger] more[k].len() > 0 by {
            assert(more[k] == lines[k + 1]);
        }
        assert(l.len() > 0);
        assert(e + l =~= l);
        assert(run_games(e, false, lines) == run_games(l, false, more));
        if trim(l).len() == 0 {
            lemma_reader_run_splits_text(more);
            assert(after_blank_lines(lines) == after_blank_lines(more));
            // After a blank line the buffer empties, as it was before the line.
            assert(spec_take_game(l) == (None::<Seq<char>>, e));
            if more.len() == 0 {
                lemma_run_at_end(e, more);
                assert(run_games(l, false, more) == run_games(e, true, more));
                assert(run_games(e, false, more) == run_games(e, true, more));
            } else {
                assert(more[0].len() > 0);
                assert(e + more[0] =~= more[0]);
                assert(run_games(l, false, more) == run_games(e + more[0], false, more.drop_first()));
                assert(run_games(e, false, more) == run_games(e + more[0], false, more.drop_first()));
            }
        } else {
            assert(after_blank_lines(lines) == lines);
            lemma_run_after_start(l, more);
            assert(concat_lines(lines) == l + concat_lines(more));
        }
    }
}

} // verus!
