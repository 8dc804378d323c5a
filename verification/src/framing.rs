//! The LSP wire format: a JSON body framed as `Content-Length: <n>\r\n\r\n`
//! followed by exactly that many body bytes.
//!
//! Encoding builds the frame outright. Decoding is incremental: the reader
//! feeds header bytes one at a time and asks [`header_status`] when the
//! header is finished or over the size bound, then [`parse_content_length`]
//! for the announced body length.

use vstd::prelude::*;

use crate::strutil::chars_of;
use crate::strutil::contains_at;
use crate::strutil::copy_range;
use crate::strutil::dec_rep;
use crate::strutil::extend_chars;
use crate::strutil::find_first;
use crate::strutil::first_occurrence;
use crate::strutil::is_digit;
use crate::strutil::is_space;
use crate::strutil::lower_chars;
use crate::strutil::lower_seq;
use crate::strutil::parse_u64_chars;
use crate::strutil::parse_u64_spec;
use crate::strutil::push_dec_u64;
use crate::strutil::trim_chars;
use crate::strutil::trim_end_spec;
use crate::strutil::trim_spec;
use crate::strutil::trim_start_spec;

verus! {

/// Largest accepted size, in bytes, of a message header.
pub const MAX_HEADER_BYTES: usize = 16384;

/// Characters taken as bytes, one for one.
pub open spec fn ascii_bytes(s: Seq<char>) -> Seq<u8> {
    s.map_values(|c: char| c as u8)
}

/// The header text announcing a body of `len` bytes.
pub open spec fn frame_header(len: nat) -> Seq<char> {
    "Content-Length: "@ + dec_rep(len) + "\r\n\r\n"@
}

/// A framed message: the header, then the body bytes.
pub open spec fn frame_spec(body: Seq<u8>) -> Seq<u8> {
    ascii_bytes(frame_header(body.len())) + body
}

/// Frame a message body for the wire.
pub fn encode_frame(body: &Vec<u8>) -> (frame: Vec<u8>)
    ensures
        frame@ == frame_spec(body@),
{
    let mut header: Vec<char> = chars_of("Content-Length: ");
    push_dec_u64(body.len() as u64, &mut header);
    let tail = chars_of("\r\n\r\n");
    extend_chars(&mut header, &tail);
    proof {
        assert(header@ =~= frame_header(body@.len()));
    }
    let mut frame: Vec<u8> = Vec::new();
    let mut i: usize = 0;
    while i < header.len()
        invariant
            i <= header@.len(),
            frame@ == ascii_bytes(header@.subrange(0, i as int)),
        decreases header@.len() - i,
    {
        frame.push(header[i] as u8);
        i = i + 1;
        proof {
            assert(frame@ =~= ascii_bytes(header@.subrange(0, i as int)));
        }
    }
    proof {
        assert(header@.subrange(0, header@.len() as int) =~= header@);
    }
    let mut j: usize = 0;
    while j < body.len()
        invariant
            j <= body@.len(),
            frame@ == ascii_bytes(frame_header(body@.len())) + body@.subrange(0, j as int),
        decreases body@.len() - j,
    {
        frame.push(body[j]);
        j = j + 1;
        proof {
            assert(frame@ =~= ascii_bytes(frame_header(body@.len())) + body@.subrange(
                0,
                j as int,
            ));
        }
    }
    proof {
        assert(body@.subrange(0, body@.len() as int) =~= body@);
        assert(frame@ =~= frame_spec(body@));
    }
    frame
}

/// The four bytes that end a header.
pub open spec fn crlf_crlf() -> Seq<u8> {
    seq![13u8, 10u8, 13u8, 10u8]
}

/// The header bytes read so far end in an empty line.
pub open spec fn header_complete(h: Seq<u8>) -> bool {
    h.len() >= 4 && h.subrange(h.len() - 4, h.len() as int) == crlf_crlf()
}

/// Where the incremental header read stands after each byte.
pub enum HeaderProgress {
    /// The header is not finished; read another byte.
    NeedMore,
    /// The terminating empty line arrived; the header is finished.
    Done,
    /// The header exceeded the size bound: a fatal framing error.
    TooLong,
}

/// Judge the header bytes read so far: oversized headers are fatal, a header
/// ending in an empty line is finished, anything else needs more bytes.
pub fn header_status(h: &Vec<u8>) -> (r: HeaderProgress)
    ensures
        r is TooLong <==> h@.len() > MAX_HEADER_BYTES,
        r is Done <==> h@.len() <= MAX_HEADER_BYTES && header_complete(h@),
        r is NeedMore <==> h@.len() <= MAX_HEADER_BYTES && !header_complete(h@),
{
    if h.len() > MAX_HEADER_BYTES {
        return HeaderProgress::TooLong;
    }
    if h.len() >= 4 {
        let n = h.len();
        if h[n - 4] == 13 && h[n - 3] == 10 && h[n - 2] == 13 && h[n - 1] == 10 {
            proof {
                assert(h@.subrange(h@.len() - 4, h@.len() as int) =~= crlf_crlf());
            }
            return HeaderProgress::Done;
        }
        proof {
            if header_complete(h@) {
                let t = h@.subrange(h@.len() - 4, h@.len() as int);
                assert(t[0] == h@[h@.len() - 4]);
                assert(t[1] == h@[h@.len() - 3]);
                assert(t[2] == h@[h@.len() - 2]);
                assert(t[3] == h@[h@.len() - 1]);
            }
        }
        return HeaderProgress::NeedMore;
    }
    HeaderProgress::NeedMore
}

/// The line separator.
pub open spec fn crlf() -> Seq<char> {
    seq!['\r', '\n']
}

/// The header key/value separator.
pub open spec fn colon() -> Seq<char> {
    seq![':']
}

/// A header line names the content length: its key — before the first `:`,
/// trimmed — is `content-length`, compared without regard to ASCII case.
pub open spec fn line_names_length(line: Seq<char>) -> bool {
    match first_occurrence(line, colon()) {
        Option::Some(p) => lower_seq(trim_spec(line.subrange(0, p as int)))
            == "content-length"@,
        Option::None => false,
    }
}

/// The length a header line announces: its value — after the first `:`,
/// trimmed — read as a decimal number.
pub open spec fn line_length_value(line: Seq<char>) -> Option<u64> {
    match first_occurrence(line, colon()) {
        Option::Some(p) => parse_u64_spec(trim_spec(line.skip(p + 1 as int))),
        Option::None => Option::None,
    }
}

/// The content length the header text announces: the value of the first line
/// whose key is `content-length`; nothing when no line names it or its value
/// does not read as a number.
pub open spec fn content_length_spec(s: Seq<char>) -> Option<u64>
    decreases s.len(),
    via content_length_spec_decreases
{
    match first_occurrence(s, crlf()) {
        Option::Some(k) => {
            let line = s.subrange(0, k as int);
            if line_names_length(line) {
                line_length_value(line)
            } else {
                content_length_spec(s.skip(k + 2 as int))
            }
        },
        Option::None => {
            if line_names_length(s) {
                line_length_value(s)
            } else {
                Option::None
            }
        },
    }
}

#[via_fn]
proof fn content_length_spec_decreases(s: Seq<char>) {
    crate::strutil::lemma_first_occurrence_from(s, crlf(), 0);
}

/// Decoding recovers what encoding announced: the header an encoded frame
/// carries parses back to exactly the body's length.
pub proof fn lemma_frame_round_trip(n: u64)
    ensures
        content_length_spec(frame_header(n as nat)) == Option::Some(n),
{
    reveal_strlit("Content-Length: ");
    reveal_strlit("\r\n\r\n");
    reveal_strlit("content-length");
    let p = "Content-Length: "@;
    let d = dec_rep(n as nat);
    let t = "\r\n\r\n"@;
    let h = frame_header(n as nat);
    crate::strutil::lemma_dec_rep_digits(n as nat);
    assert(p.len() == 16);
    assert(t.len() == 4);
    assert(h.len() == 20 + d.len());
    let dl = d.len() as int;
    assert forall|j: int| 0 <= j < 16 implies h[j] == p[j] by {}
    assert forall|j: int| 16 <= j < 16 + dl implies h[j] == d[j - 16] by {}
    assert forall|j: int| 16 + dl <= j < 20 + dl implies h[j] == t[j - 16 - dl] by {}
    assert forall|j: int| 0 <= j < 16 + dl implies h[j] != '\r' by {
        if j < 16 {
            assert(p[j] != '\r');
        } else {
            assert(is_digit(d[j - 16]));
            assert('0' <= d[j - 16] && d[j - 16] <= '9');
        }
    }
    // the terminator's first CRLF is the earliest one
    let k = (16 + d.len()) as nat;
    assert(contains_at(h, crlf(), k as int)) by {
        assert(h[k as int] == t[0]);
        assert(h[k + 1 as int] == t[1]);
        assert(h.subrange(k as int, k + 2 as int) =~= crlf());
    }
    assert forall|j: int| 0 <= j < k implies !contains_at(h, crlf(), j) by {
        if contains_at(h, crlf(), j) {
            assert(h.subrange(j, j + 2)[0] == h[j]);
            assert(h[j] == '\r');
        }
    }
    crate::strutil::lemma_first_occurrence_is(h, crlf(), k);
    let line = h.subrange(0, k as int);
    assert(line =~= p + d);
    // the line's first colon sits after `Content-Length`
    assert forall|j: int| 0 <= j < 14 implies line[j] != ':' by {
        assert(line[j] == p[j]);
    }
    assert(contains_at(line, colon(), 14)) by {
        assert(line[14] == p[14]);
        assert(line.subrange(14, 15) =~= colon());
    }
    assert forall|j: int| 0 <= j < 14 implies !contains_at(line, colon(), j) by {
        if contains_at(line, colon(), j) {
            assert(line.subrange(j, j + 1)[0] == line[j]);
            assert(line[j] == ':');
        }
    }
    crate::strutil::lemma_first_occurrence_is(line, colon(), 14nat);
    // the key reads `content-length` once trimmed and lowered
    let key = line.subrange(0, 14);
    assert(trim_spec(key) == key) by {
        assert(key[0] == 'C');
        assert(!is_space(key[0]));
        assert(key.last() == 'h');
        assert(!is_space(key.last()));
    }
    assert(lower_seq(trim_spec(key)) == "content-length"@) by {
        assert forall|j: int| 0 <= j < 14 implies lower_seq(key)[j] == "content-length"@[j] by {
            assert(lower_seq(key)[j] == crate::strutil::lower_char(key[j]));
            assert(key[j] == p[j]);
        }
        assert(lower_seq(key) =~= "content-length"@);
    }
    assert(line_names_length(line));
    // the value reads back as the number
    let value = line.skip(15);
    assert(value =~= seq![' '] + d);
    assert(trim_spec(value) == d) by {
        assert(value[0] == ' ');
        assert(is_space(value[0]));
        assert(value.drop_first() =~= d);
        assert(trim_start_spec(value) == trim_start_spec(d));
        assert(d[0] != ' ' && d[0] != '\t' && d[0] != '\n' && d[0] != '\r' && d[0] != '\u{b}'
            && d[0] != '\u{c}') by {
            assert(is_digit(d[0]));
        }
        assert(!is_space(d[0]));
        assert(trim_start_spec(d) == d);
        assert(!is_space(d.last())) by {
            assert(is_digit(d.last()));
        }
        assert(trim_end_spec(d) == d);
    }
    assert(d[0] != '+') by {
        assert(is_digit(d[0]));
    }
    assert(parse_u64_spec(d) == Option::Some(n));
    assert(line_length_value(line) == Option::Some(n));
    assert(content_length_spec(h) == Option::Some(n));
}

fn crlf_chars() -> (v: Vec<char>)
    ensures
        v@ == crlf(),
{
    let mut v: Vec<char> = Vec::new();
    v.push('\r');
    v.push('\n');
    proof {
        assert(v@ =~= crlf());
    }
    v
}

fn colon_chars() -> (v: Vec<char>)
    ensures
        v@ == colon(),
{
    let mut v: Vec<char> = Vec::new();
    v.push(':');
    proof {
        assert(v@ =~= colon());
    }
    v
}

/// Does this line name the content length, and what does it announce?
fn examine_line(line: &Vec<char>) -> (r: (bool, Option<u64>))
    ensures
        r.0 == line_names_length(line@),
        r.0 ==> r.1 == line_length_value(line@),
{
    let col = colon_chars();
    match find_first(line, &col) {
        Option::Some(p) => {
            let key = copy_range(line, 0, p);
            let trimmed = trim_chars(&key);
            let lowered = lower_chars(&trimmed);
            let expect = chars_of("content-length");
            if crate::strutil::chars_eq(&lowered, &expect) {
                let n = line.len();
                proof {
                    assert(p + 1 <= n);
                }
                let value = copy_range(line, p + 1, n);
                proof {
                    assert(line@.skip(p + 1) =~= line@.subrange(p + 1, line@.len() as int));
                }
                let vt = trim_chars(&value);
                (true, parse_u64_chars(&vt))
            } else {
                (false, Option::None)
            }
        },
        Option::None => (false, Option::None),
    }
}

/// Read the announced content length out of the header text.
pub fn parse_content_length(header: &str) -> (r: Option<u64>)
    ensures
        r == content_length_spec(header@),
{
    let v = chars_of(header);
    content_length_chars(&v)
}

fn content_length_chars(v: &Vec<char>) -> (r: Option<u64>)
    ensures
        r == content_length_spec(v@),
    decreases v@.len(),
{
    let sep = crlf_chars();
    match find_first(v, &sep) {
        Option::Some(k) => {
            let line = copy_range(v, 0, k);
            let (names, value) = examine_line(&line);
            if names {
                value
            } else {
                let n = v.len();
                proof {
                    assert(k + 2 <= n);
                    assert(v@.skip(k + 2 as int) =~= v@.subrange(k + 2, v@.len() as int));
                }
                let rest = copy_range(v, k + 2, n);
                content_length_chars(&rest)
            }
        },
        Option::None => {
            let (names, value) = examine_line(v);
            if names {
                value
            } else {
                Option::None
            }
        },
    }
}

} // verus!
