//! grpc-web message framing: length-prefixed frames and trailer status lines.

use vstd::prelude::*;
use vstd::utf8::{decode_utf8, valid_utf8};

use crate::text::{
    chars_equal, chars_of, contains_chars, contains_seq, copy_range, matches_at, owned,
    pieces_view, split_chars, split_on, starts_with, string_from_chars, sub_chars, trim,
    trim_bounds,
};

verus! {

/// Big-endian value of four bytes.
pub open spec fn be32(b0: u8, b1: u8, b2: u8, b3: u8) -> int {
    b0 as int * 16777216 + b1 as int * 65536 + b2 as int * 256 + b3 as int
}

/// The five-byte header of a frame: flags, then the payload length as a big-endian
/// 32-bit number.
pub open spec fn frame_header(flags: u8, n: int) -> Seq<u8> {
    seq![
        flags,
        ((n / 16777216) % 256) as u8,
        ((n / 65536) % 256) as u8,
        ((n / 256) % 256) as u8,
        (n % 256) as u8,
    ]
}

/// A whole frame: header then payload.
pub open spec fn spec_frame(flags: u8, msg: Seq<u8>) -> Seq<u8> {
    frame_header(flags, msg.len() as int) + msg
}

/// The frames read from a response body: each frame is a flags byte, a big-endian
/// length and that many payload bytes; fewer than five bytes left end the body,
/// and a length running past the end makes the body invalid.
pub open spec fn spec_decode_frames(d: Seq<u8>) -> Option<Seq<(u8, Seq<u8>)>>
    decreases d.len(),
{
    if d.len() < 5 {
        Some(Seq::empty())
    } else {
        let n = be32(d[1], d[2], d[3], d[4]);
        if 5 + n > d.len() {
            None
        } else {
            match spec_decode_frames(d.skip(5 + n)) {
                Some(rest) => Some(seq![(d[0], d.subrange(5, 5 + n))] + rest),
                None => None,
            }
        }
    }
}

/// The error text for a body whose last frame is cut short.
pub open spec fn truncated_frame_error() -> Seq<char> {
    "truncated grpc-web frame"@
}

/// Frames as (flags, payload) views.
pub open spec fn frames_view(v: Seq<(u8, Vec<u8>)>) -> Seq<(u8, Seq<u8>)> {
    Seq::new(v.len(), |i: int| (v[i].0, v[i].1@))
}

/// Wraps a protobuf message in a grpc-web data frame (flags 0, 32-bit big-endian length).
/// A length of 2^32 bytes or more is written modulo 2^32, as the `u32` cast does.
pub fn encode_frame(msg: &[u8]) -> (buf: Vec<u8>)
    ensures
        buf@ == frame_header(0, msg@.len() as int % 4294967296) + msg@,
{
    let n: u64 = (msg.len() as u64) % 4294967296;
    let mut buf: Vec<u8> = Vec::new();
    buf.push(0u8);
    buf.push(((n / 16777216) % 256) as u8);
    buf.push(((n / 65536) % 256) as u8);
    buf.push(((n / 256) % 256) as u8);
    buf.push((n % 256) as u8);
    let ghost head = buf@;
    assert(head == frame_header(0, msg@.len() as int % 4294967296));
    let mut i: usize = 0;
    while i < msg.len()
        invariant
            i <= msg@.len(),
            buf@ == head + msg@.take(i as int),
        decreases msg@.len() - i,
    {
        buf.push(msg[i]);
        i = i + 1;
        assert(buf@ =~= head + msg@.take(i as int));
    }
    assert(msg@.take(msg@.len() as int) == msg@);
    buf
}

/// Splits a grpc-web response body into (flags, payload) frames.
pub fn decode_frames(data: &[u8]) -> (r: Result<Vec<(u8, Vec<u8>)>, String>)
    ensures
        r is Ok <==> spec_decode_frames(data@) is Some,
        r matches Ok(v) ==> spec_decode_frames(data@) == Some(frames_view(v@)),
        r matches Err(e) ==> e@ == truncated_frame_error(),
{
    let mut frames: Vec<(u8, Vec<u8>)> = Vec::new();
    let mut pos: usize = 0;
    let total = data.len();
    assert(data@.skip(0) == data@);
    while total - pos >= 5
        invariant
            pos <= total == data@.len(),
            spec_decode_frames(data@) is Some <==> spec_decode_frames(data@.skip(pos as int)) is Some,
            spec_decode_frames(data@.skip(pos as int)) matches Some(rest) ==> spec_decode_frames(
                data@,
            ) == Some(frames_view(frames@) + rest),
        decreases total - pos,
    {
        let ghost d = data@.skip(pos as int);
        let flags = data[pos];
        let len: usize = (data[pos + 1] as usize) * 16777216 + (data[pos + 2] as usize) * 65536
            + (data[pos + 3] as usize) * 256 + (data[pos + 4] as usize);
        assert(d[0] == flags && d[1] == data@[pos + 1] && d[2] == data@[pos + 2] && d[3]
            == data@[pos + 3] && d[4] == data@[pos + 4]);
        assert(len == be32(d[1], d[2], d[3], d[4]));
        let start = pos + 5;
        if len > total - start {
            return Err(string_from_chars(chars_of("truncated grpc-web frame").as_slice()));
        }
        let payload = copy_range(data, start, start + len);
        assert(payload@ == d.subrange(5, 5 + len));
        assert(d.skip(5 + len) == data@.skip(start + len));
        let ghost before = frames_view(frames@);
        frames.push((flags, payload));
        assert(frames_view(frames@) == before.push((flags, payload@)));
        pos = start + len;
        proof {
            if let Some(rest) = spec_decode_frames(data@.skip(pos as int)) {
                assert(seq![(flags, payload@)] + rest == seq![(flags, payload@)] + rest);
                assert(before + (seq![(flags, payload@)] + rest) == before.push((flags, payload@))
                    + rest);
            }
        }
    }
    assert(spec_decode_frames(data@.skip(pos as int)) == Some(Seq::<(u8, Seq<u8>)>::empty()));
    assert(frames_view(frames@) + Seq::<(u8, Seq<u8>)>::empty() == frames_view(frames@));
    Ok(frames)
}

proof fn lemma_frame_header_value(flags: u8, n: int)
    requires
        0 <= n < 4294967296,
    ensures
        be32(frame_header(flags, n)[1], frame_header(flags, n)[2], frame_header(flags, n)[3], frame_header(flags, n)[4]) == n,
{
    let h = frame_header(flags, n);
    assert(h[1] as int == (n / 16777216) % 256);
    assert(h[2] as int == (n / 65536) % 256);
    assert(h[3] as int == (n / 256) % 256);
    assert(h[4] as int == n % 256);
    assert(((n / 16777216) % 256) * 16777216 + ((n / 65536) % 256) * 65536 + ((n / 256) % 256)
        * 256 + n % 256 == n) by (nonlinear_arith)
        requires
            0 <= n < 4294967296,
    ;
}

/// Law: a frame followed by any body decodes to that frame followed by the body's
/// frames (payloads under 4 GiB).
pub proof fn lemma_decode_frame_prefix(flags: u8, msg: Seq<u8>, rest: Seq<u8>)
    requires
        msg.len() < 4294967296,
    ensures
        spec_decode_frames(spec_frame(flags, msg) + rest) == (match spec_decode_frames(rest) {
            Some(fs) => Some(seq![(flags, msg)] + fs),
            None => None,
        }),
{
    let d = spec_frame(flags, msg) + rest;
    let n = msg.len() as int;
    lemma_frame_header_value(flags, n);
    let h = frame_header(flags, n);
    assert(d[1] == h[1] && d[2] == h[2] && d[3] == h[3] && d[4] == h[4] && d[0] == flags);
    assert(d.skip(5 + n) == rest);
    assert(d.subrange(5, 5 + n) == msg);
}

/// Law: decoding an encoded message gives back exactly that one data frame.
pub proof fn lemma_encode_decode_round_trip(msg: Seq<u8>)
    requires
        msg.len() < 4294967296,
    ensures
        spec_decode_frames(frame_header(0, msg.len() as int % 4294967296) + msg) == Some(
            seq![(0u8, msg)],
        ),
{
    assert(msg.len() as int % 4294967296 == msg.len());
    lemma_decode_frame_prefix(0, msg, Seq::empty());
    assert(spec_frame(0, msg) + Seq::<u8>::empty() == spec_frame(0, msg));
    assert(seq![(0u8, msg)] + Seq::<(u8, Seq<u8>)>::empty() == seq![(0u8, msg)]);
}

/// The data frames of `msgs`, one after another, as a body holds them.
pub open spec fn frames_body(msgs: Seq<Seq<u8>>) -> Seq<u8>
    decreases msgs.len(),
{
    if msgs.len() == 0 {
        Seq::empty()
    } else {
        spec_frame(0, msgs[0]) + frames_body(msgs.drop_first())
    }
}

/// Each message as a data frame's (flags, payload).
pub open spec fn data_frames(msgs: Seq<Seq<u8>>) -> Seq<(u8, Seq<u8>)> {
    Seq::new(msgs.len(), |i: int| (0u8, msgs[i]))
}

/// Law: a body of data frames, followed by fewer than five stray bytes, decodes to
/// exactly those frames, in order (payloads under 4 GiB).
pub proof fn lemma_decode_frames_body(msgs: Seq<Seq<u8>>, tail: Seq<u8>)
    requires
        forall|i: int| 0 <= i < msgs.len() ==> #[trigger] msgs[i].len() < 4294967296,
        tail.len() < 5,
    ensures
        spec_decode_frames(frames_body(msgs) + tail) == Some(data_frames(msgs)),
    decreases msgs.len(),
{
    if msgs.len() == 0 {
        assert(frames_body(msgs) + tail == tail);
        assert(data_frames(msgs) =~= Seq::<(u8, Seq<u8>)>::empty());
    } else {
        let rest = msgs.drop_first();
        assert forall|i: int| 0 <= i < rest.len() implies #[trigger] rest[i].len() < 4294967296 by {
            assert(rest[i] == msgs[i + 1]);
        }
        lemma_decode_frames_body(rest, tail);
        assert(msgs[0].len() < 4294967296);
        lemma_decode_frame_prefix(0, msgs[0], frames_body(rest) + tail);
        assert(frames_body(msgs) + tail == spec_frame(0, msgs[0]) + (frames_body(rest) + tail));
        assert(seq![(0u8, msgs[0])] + data_frames(rest) =~= data_frames(msgs));
    }
}

proof fn lemma_frames_body_len(msgs: Seq<Seq<u8>>)
    ensures
        msgs.len() > 0 ==> frames_body(msgs).len() >= 5,
    decreases msgs.len(),
{
    if msgs.len() > 0 {
        lemma_frames_body_len(msgs.drop_first());
    }
}

/// Law: cutting the last byte off a body of data frames whose last payload is not
/// empty makes it invalid: its last frame runs past the end.
pub proof fn lemma_decode_frames_cut(msgs: Seq<Seq<u8>>)
    requires
        forall|i: int| 0 <= i < msgs.len() ==> #[trigger] msgs[i].len() < 4294967296,
        msgs.len() > 0,
        msgs.last().len() > 0,
    ensures
        spec_decode_frames(frames_body(msgs).drop_last()) is None,
    decreases msgs.len(),
{
    let m = msgs[0];
    let rest = msgs.drop_first();
    assert(m.len() < 4294967296);
    if rest.len() == 0 {
        let d = frames_body(msgs).drop_last();
        let n = m.len() as int;
        lemma_frame_header_value(0, n);
        assert(frames_body(rest) == Seq::<u8>::empty());
        assert(frames_body(msgs) =~= spec_frame(0, m));
        assert(d.len() == 5 + n - 1);
        let h = frame_header(0, n);
        assert(d[1] == h[1] && d[2] == h[2] && d[3] == h[3] && d[4] == h[4]);
    } else {
        assert forall|i: int| 0 <= i < rest.len() implies #[trigger] rest[i].len() < 4294967296 by {
            assert(rest[i] == msgs[i + 1]);
        }
        assert(rest.last() == msgs.last());
        lemma_decode_frames_cut(rest);
        lemma_frames_body_len(rest);
        assert(frames_body(msgs).drop_last() =~= spec_frame(0, m) + frames_body(rest).drop_last());
        lemma_decode_frame_prefix(0, m, frames_body(rest).drop_last());
    }
}

/// What `String::from_utf8_lossy` makes of a byte string.
pub uninterp spec fn lossy_utf8(bytes: Seq<u8>) -> Seq<char>;

/// Calls `String::from_utf8_lossy`. Claimed: the result is a function of the bytes,
/// and for valid UTF-8 it is exactly the decoded text; invalid sequences become
/// replacement characters, which is left unstated.
#[verifier::external_body]
fn utf8_lossy(bytes: &[u8]) -> (s: String)
    ensures
        s@ == lossy_utf8(bytes@),
        valid_utf8(bytes@) ==> s@ == decode_utf8(bytes@),
{
    String::from_utf8_lossy(bytes).into_owned()
}

/// The error reported by trailer lines, scanning lines in order: a `grpc-message:`
/// line gives its trimmed text; a `grpc-status:` line with a code other than "0"
/// gives "gRPC status CODE" unless the trailer mentions `grpc-message:` anywhere.
pub open spec fn trailer_scan(lines: Seq<Seq<char>>, has_message: bool) -> Option<Seq<char>>
    decreases lines.len(),
{
    if lines.len() == 0 {
        None
    } else {
        let line = trim(lines[0]);
        if starts_with(line, "grpc-message:"@) {
            Some(trim(line.skip("grpc-message:"@.len() as int)))
        } else if starts_with(line, "grpc-status:"@) && trim(line.skip("grpc-status:"@.len() as int))
            != "0"@ && !has_message {
            Some("gRPC status "@ + trim(line.skip("grpc-status:"@.len() as int)))
        } else {
            trailer_scan(lines.drop_first(), has_message)
        }
    }
}

/// The error status carried by trailer text, split into lines at '\r'.
pub open spec fn spec_trailer_status_text(text: Seq<char>) -> Option<Seq<char>> {
    trailer_scan(split_on(text, '\r'), contains_seq(text, "grpc-message:"@))
}

/// Reads the error status, if any, from trailer text.
pub fn trailer_status_from_text(text: &str) -> (r: Option<String>)
    ensures
        r is Some <==> spec_trailer_status_text(text@) is Some,
        r matches Some(s) ==> spec_trailer_status_text(text@) == Some(s@),
{
    let cs = chars_of(text);
    let msg_key = chars_of("grpc-message:");
    let status_key = chars_of("grpc-status:");
    let zero = chars_of("0");
    let has_message = contains_chars(cs.as_slice(), msg_key.as_slice());
    let lines = split_chars(cs.as_slice(), '\r');
    let ghost ls = split_on(text@, '\r');
    assert(pieces_view(lines@) == ls);
    let mut i: usize = 0;
    assert(ls.skip(0) == ls);
    while i < lines.len()
        invariant
            i <= lines@.len(),
            pieces_view(lines@) == ls,
            msg_key@ == "grpc-message:"@,
            status_key@ == "grpc-status:"@,
            zero@ == "0"@,
            has_message == contains_seq(text@, "grpc-message:"@),
            spec_trailer_status_text(text@) == trailer_scan(ls.skip(i as int), has_message),
        decreases lines@.len() - i,
    {
        let raw = &lines[i];
        assert(ls.skip(i as int)[0] == raw@);
        assert(ls.skip(i as int).drop_first() == ls.skip(i + 1));
        let (a, b) = trim_bounds(raw.as_slice(), 0, raw.len());
        assert(raw@.subrange(0, raw@.len() as int) == raw@);
        let line = sub_chars(raw.as_slice(), a, b);
        assert(line@.skip(0) == line@);
        if matches_at(line.as_slice(), 0, msg_key.as_slice()) {
            let k = msg_key.len();
            let (c, d) = trim_bounds(line.as_slice(), k, line.len());
            assert(line@.subrange(k as int, line@.len() as int) == line@.skip(k as int));
            return Some(string_from_chars(sub_chars(line.as_slice(), c, d).as_slice()));
        }
        if matches_at(line.as_slice(), 0, status_key.as_slice()) {
            let k = status_key.len();
            let (c, d) = trim_bounds(line.as_slice(), k, line.len());
            assert(line@.subrange(k as int, line@.len() as int) == line@.skip(k as int));
            let code = sub_chars(line.as_slice(), c, d);
            if !chars_equal(code.as_slice(), zero.as_slice()) && !has_message {
                let mut out = chars_of("gRPC status ");
                let mut tail = code;
                out.append(&mut tail);
                return Some(string_from_chars(out.as_slice()));
            }
        }
        i = i + 1;
    }
    None
}

/// The error status carried by a trailer frame payload.
pub open spec fn spec_trailer_status(trailer: Seq<u8>) -> Option<Seq<char>> {
    spec_trailer_status_text(lossy_utf8(trailer))
}

/// Reads the error status, if any, from a grpc-web trailer frame.
pub fn parse_trailer_status(trailer: &[u8]) -> (r: Option<String>)
    ensures
        r is Some <==> spec_trailer_status(trailer@) is Some,
        r matches Some(s) ==> spec_trailer_status(trailer@) == Some(s@),
{
    let text = utf8_lossy(trailer);
    trailer_status_from_text(text.as_str())
}

/// Outcome of a unary call read from its frames: the last data frame's payload, or
/// the first trailer error met before it ends, or an empty-response error.
pub open spec fn unary_scan(frames: Seq<(u8, Seq<u8>)>, last: Option<Seq<u8>>) -> Result<
    Seq<u8>,
    Seq<char>,
>
    decreases frames.len(),
{
    if frames.len() == 0 {
        match last {
            Some(p) => Ok(p),
            None => Err("empty grpc-web response"@),
        }
    } else if frames[0].0 >= 128 {
        match spec_trailer_status(frames[0].1) {
            Some(e) => Err(e),
            None => unary_scan(frames.drop_first(), last),
        }
    } else {
        unary_scan(frames.drop_first(), Some(frames[0].1))
    }
}

/// The message payload of a unary grpc-web response body, or the error it reports.
pub open spec fn spec_unary_payload(data: Seq<u8>) -> Result<Seq<u8>, Seq<char>> {
    match spec_decode_frames(data) {
        None => Err(truncated_frame_error()),
        Some(fs) => unary_scan(fs, None),
    }
}

/// Picks the message payload out of a unary grpc-web response body (frames with the
/// high flag bit are trailers).
pub fn unary_payload(data: &[u8]) -> (r: Result<Vec<u8>, String>)
    ensures
        r matches Ok(p) ==> spec_unary_payload(data@) == Ok::<Seq<u8>, Seq<char>>(p@),
        r matches Err(e) ==> spec_unary_payload(data@) == Err::<Seq<u8>, Seq<char>>(e@),
{
    let frames = match decode_frames(data) {
        Ok(f) => f,
        Err(e) => return Err(e),
    };
    let ghost fs = frames_view(frames@);
    let mut message: Option<Vec<u8>> = None;
    let mut i: usize = 0;
    assert(fs.skip(0) == fs);
    while i < frames.len()
        invariant
            i <= frames@.len(),
            fs == frames_view(frames@),
            spec_unary_payload(data@) == unary_scan(
                fs.skip(i as int),
                match message {
                    Some(m) => Some(m@),
                    None => None,
                },
            ),
        decreases frames@.len() - i,
    {
        let flags = frames[i].0;
        assert(fs.skip(i as int)[0] == fs[i as int]);
        assert(fs.skip(i as int).drop_first() == fs.skip(i + 1));
        if flags >= 128 {
            match parse_trailer_status(frames[i].1.as_slice()) {
                Some(err) => {
                    return Err(err);
                },
                None => {},
            }
        } else {
            message = Some(copy_range(frames[i].1.as_slice(), 0, frames[i].1.len()));
            assert(frames[i as int].1@.subrange(0, frames[i as int].1@.len() as int)
                == frames[i as int].1@);
        }
        i = i + 1;
    }
    match message {
        Some(m) => Ok(m),
        None => Err(string_from_chars(chars_of("empty grpc-web response").as_slice())),
    }
}

/// The studio API base URL unless one was configured at build time.
pub open spec fn default_api_base() -> Seq<char> {
    "http://127.0.0.1:8080"@
}

/// The studio API base URL: the configured one, else the local default.
pub fn api_base(configured: Option<&str>) -> (r: String)
    ensures
        r@ == match configured {
            Some(c) => c@,
            None => default_api_base(),
        },
{
    match configured {
        Some(c) => crate::text::owned(c),
        None => crate::text::owned("http://127.0.0.1:8080"),
    }
}

/// The request path of a studio service method.
pub open spec fn spec_rpc_path(method: Seq<char>) -> Seq<char> {
    "/gambit.v1.StudioService/"@ + method
}

/// The request path of a studio service method.
pub fn rpc_path(method: &str) -> (r: String)
    ensures
        r@ == spec_rpc_path(method@),
{
    let mut out: Vec<char> = Vec::new();
    crate::text::push_str_chars(&mut out, "/gambit.v1.StudioService/");
    crate::text::push_str_chars(&mut out, method);
    string_from_chars(out.as_slice())
}

/// The URL of a request: the API base followed by the path.
pub fn request_url(base: &str, path: &str) -> (r: String)
    ensures
        r@ == base@ + path@,
{
    let mut out: Vec<char> = Vec::new();
    crate::text::push_str_chars(&mut out, base);
    crate::text::push_str_chars(&mut out, path);
    string_from_chars(out.as_slice())
}

/// The error for an HTTP response that is not a success.
pub open spec fn spec_http_error(status: u16) -> Seq<char> {
    "HTTP "@ + crate::decimal::decimal_digits(status as nat)
}

/// The error for an HTTP response that is not a success.
pub fn http_error(status: u16) -> (r: String)
    ensures
        r@ == spec_http_error(status),
{
    let mut out: Vec<char> = Vec::new();
    crate::text::push_str_chars(&mut out, "HTTP ");
    crate::decimal::push_decimal(&mut out, status as u64);
    string_from_chars(out.as_slice())
}

/// What a streaming response's frames deliver, in order: each data frame's payload,
/// up to and including the first trailer that reports an error.
pub open spec fn stream_scan(frames: Seq<(u8, Seq<u8>)>) -> Seq<Result<Seq<u8>, Seq<char>>>
    decreases frames.len(),
{
    if frames.len() == 0 {
        Seq::empty()
    } else if frames[0].0 >= 128 {
        match spec_trailer_status(frames[0].1) {
            Some(e) => seq![Err(e)],
            None => stream_scan(frames.drop_first()),
        }
    } else {
        seq![Ok(frames[0].1)] + stream_scan(frames.drop_first())
    }
}

/// What a streaming grpc-web response body delivers: its messages in order, ending
/// with the error that stops the stream, if one does.
pub open spec fn spec_stream_items(data: Seq<u8>) -> Seq<Result<Seq<u8>, Seq<char>>> {
    match spec_decode_frames(data) {
        None => seq![Err(truncated_frame_error())],
        Some(fs) => stream_scan(fs),
    }
}

/// Items as plain values.
pub open spec fn items_view(v: Seq<Result<Vec<u8>, String>>) -> Seq<Result<Seq<u8>, Seq<char>>> {
    Seq::new(
        v.len(),
        |i: int|
            match v[i] {
                Ok(p) => Ok(p@),
                Err(e) => Err(e@),
            },
    )
}

/// Reads a streaming grpc-web response body: the message payloads in order, and
/// the error that ends the stream early (a truncated frame, or a trailer that
/// reports an error) as the last item.
pub fn stream_items(data: &[u8]) -> (r: Vec<Result<Vec<u8>, String>>)
    ensures
        items_view(r@) == spec_stream_items(data@),
{
    let frames = match decode_frames(data) {
        Ok(f) => f,
        Err(e) => {
            let mut out: Vec<Result<Vec<u8>, String>> = Vec::new();
            out.push(Err(e));
            assert(items_view(out@) =~= seq![Err::<Seq<u8>, Seq<char>>(truncated_frame_error())]);
            return out;
        },
    };
    let ghost fs = frames_view(frames@);
    let mut out: Vec<Result<Vec<u8>, String>> = Vec::new();
    let mut i: usize = 0;
    assert(fs.skip(0) == fs);
    while i < frames.len()
        invariant
            i <= frames@.len(),
            fs == frames_view(frames@),
            spec_stream_items(data@) == items_view(out@) + stream_scan(fs.skip(i as int)),
        decreases frames@.len() - i,
    {
        let flags = frames[i].0;
        let ghost rest = fs.skip(i as int);
        assert(rest[0] == fs[i as int]);
        assert(rest.drop_first() == fs.skip(i + 1));
        if flags >= 128 {
            match parse_trailer_status(frames[i].1.as_slice()) {
                Some(err) => {
                    let ghost before = items_view(out@);
                    out.push(Err(err));
                    assert(items_view(out@) =~= before + stream_scan(rest));
                    return out;
                },
                None => {},
            }
        } else {
            let ghost before = items_view(out@);
            let payload = copy_range(frames[i].1.as_slice(), 0, frames[i].1.len());
            assert(frames[i as int].1@.subrange(0, frames[i as int].1@.len() as int)
                == frames[i as int].1@);
            out.push(Ok(payload));
            assert(items_view(out@) =~= before + seq![Ok::<Seq<u8>, Seq<char>>(fs[i as int].1)]);
            assert(before + stream_scan(rest) =~= items_view(out@) + stream_scan(fs.skip(i + 1)));
        }
        i = i + 1;
    }
    assert(fs.skip(frames@.len() as int) =~= Seq::<(u8, Seq<u8>)>::empty());
    assert(items_view(out@) + Seq::<Result<Seq<u8>, Seq<char>>>::empty() =~= items_view(out@));
    out
}

} // verus!
