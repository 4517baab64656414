//! RESP frames: the validating scan (`Frame::check`), the parser
//! (`Frame::parse`) and the helpers they share.

use vstd::prelude::*;
use vstd::slice::slice_subrange;
use vstd::slice::slice_to_vec;
use vstd::string::*;
use vstd::utf8::*;
use crate::text::{decimal_chars, parse_decimal_prefix, string_from_utf8, atoi_u64};


verus! {

/// A RESP value.
#[derive(Debug, PartialEq, Eq)]
pub enum Frame {
    Simple(String),
    Error(String),
    Integer(u64),
    Bulk(Vec<u8>),
    Null,
    Array(Vec<Frame>),
}

/// The mathematical value of a [`Frame`].
pub enum SpecFrame {
    Simple(Seq<char>),
    Error(Seq<char>),
    Integer(u64),
    Bulk(Seq<u8>),
    Null,
    Array(Seq<SpecFrame>),
}

/// The model of a frame.
pub open spec fn frame_view(f: Frame) -> SpecFrame
    decreases f,
{
    match f {
        Frame::Simple(s) => SpecFrame::Simple(s@),
        Frame::Error(s) => SpecFrame::Error(s@),
        Frame::Integer(n) => SpecFrame::Integer(n),
        Frame::Bulk(b) => SpecFrame::Bulk(b@),
        Frame::Null => SpecFrame::Null,
        Frame::Array(v) => SpecFrame::Array(frames_view(v@)),
    }
}

/// The models of a sequence of frames, element by element.
pub open spec fn frames_view(s: Seq<Frame>) -> Seq<SpecFrame>
    decreases s,
{
    if s.len() == 0 {
        Seq::empty()
    } else {
        frames_view(s.drop_last()).push(frame_view(s.last()))
    }
}

impl View for Frame {
    type V = SpecFrame;

    open spec fn view(&self) -> SpecFrame {
        frame_view(*self)
    }
}


/// Why a scan or a parse stopped, as the contracts speak of it.
pub enum Failure {
    /// The buffer ended before the frame did.
    Incomplete,
    /// The byte where a frame starts is not one of `+ - : $ *`.
    InvalidTypeByte(u8),
    /// A length or integer line does not start with a decimal number.
    InvalidDecimal,
    /// A length does not fit in `usize`.
    IntegerTooLarge,
    /// A simple string or error line is not UTF-8.
    InvalidUtf8,
    /// The parser met a type byte that it does not handle.
    Unsupported,
}

/// The error type of frame scanning and parsing.
#[derive(Debug, PartialEq, Eq)]
pub enum Error {
    /// The buffer does not yet hold a whole frame.
    Incomplete,
    /// Anything else, with its message.
    Other(String),
}

/// The message that goes with a failure.
pub open spec fn failure_message(f: Failure) -> Seq<char> {
    match f {
        Failure::Incomplete => "stream ended early"@,
        Failure::InvalidTypeByte(b) => "protocol error; invalid frame type byte : "@ + decimal_chars(
            b as nat,
        ),
        Failure::InvalidDecimal => "Protocol error; Invalid frame format"@,
        Failure::IntegerTooLarge => "Error parsing integer"@,
        Failure::InvalidUtf8 => "Error converting from byte array to String"@,
        Failure::Unsupported => "unsupported frame type"@,
    }
}

/// Whether `e` is the error that reports failure `f`.
pub open spec fn error_is(e: Error, f: Failure) -> bool {
    match f {
        Failure::Incomplete => e is Incomplete,
        _ => e matches Error::Other(m) && m@ == failure_message(f),
    }
}

impl Error {
    /// The human-readable description of the error.
    pub fn message(&self) -> (res: String)
        ensures
            self is Incomplete ==> res@ == "stream ended early"@,
            self matches Error::Other(m) ==> res@ == m@,
    {
        match self {
            Error::Incomplete => String::from_str("stream ended early"),
            Error::Other(m) => m.clone(),
        }
    }
}

fn failure_error(f: Failure) -> (e: Error)
    requires
        !(f is Unsupported),
    ensures
        error_is(e, f),
{
    match f {
        Failure::Incomplete => Error::Incomplete,
        Failure::InvalidTypeByte(b) => {
            let mut m = String::from_str("protocol error; invalid frame type byte : ");
            let d = crate::text::u64_to_decimal(b as u64);
            m.append(d.as_str());
            Error::Other(m)
        },
        Failure::InvalidDecimal => Error::Other(
            String::from_str("Protocol error; Invalid frame format"),
        ),
        Failure::IntegerTooLarge => Error::Other(String::from_str("Error parsing integer")),
        Failure::InvalidUtf8 => Error::Other(
            String::from_str("Error converting from byte array to String"),
        ),
        Failure::Unsupported => {
            // ruled out by the precondition
            proof {
                assert(false);
            }
            Error::Incomplete
        },
    }
}

/// A read position over a byte buffer.
#[derive(Debug)]
pub struct Cursor<'a> {
    pub buf: &'a [u8],
    pub pos: usize,
}

impl<'a> Cursor<'a> {
    /// A cursor at the start of `buf`.
    pub fn new(buf: &'a [u8]) -> (c: Self)
        ensures
            c.buf@ == buf@,
            c.pos == 0,
    {
        Cursor { buf, pos: 0 }
    }

    /// The current position.
    pub fn position(&self) -> (p: usize)
        ensures
            p == self.pos,
    {
        self.pos
    }

    /// Moves to `pos`.
    pub fn set_position(&mut self, pos: usize)
        ensures
            final(self).buf@ == old(self).buf@,
            final(self).pos == pos,
    {
        self.pos = pos;
    }

    /// The number of bytes after the position.
    pub open spec fn rem(&self) -> nat {
        if self.pos < self.buf@.len() { (self.buf@.len() - self.pos) as nat } else { 0 }
    }

    /// The number of bytes after the position.
    pub fn remaining(&self) -> (n: usize)
        ensures
            n == if self.pos < self.buf@.len() { self.buf@.len() - self.pos } else { 0 },
    {
        if self.pos < self.buf.len() {
            self.buf.len() - self.pos
        } else {
            0
        }
    }
}

/// The first `i >= start` at which `s` holds `\r\n`.
pub open spec fn find_crlf(s: Seq<u8>, start: int) -> Option<int>
    decreases s.len() - start,
{
    if start < 0 || start + 1 >= s.len() {
        None
    } else if s[start] == 13u8 && s[start + 1] == 10u8 {
        Some(start)
    } else {
        find_crlf(s, start + 1)
    }
}

/// The decimal number on the line that starts at `p`, and where the next
/// line starts.
pub open spec fn decimal_line(s: Seq<u8>, p: int) -> Result<(u64, int), Failure> {
    match find_crlf(s, p) {
        None => Err(Failure::Incomplete),
        Some(i) => match atoi_u64(s.subrange(p, i)) {
            Some(v) => Ok((v, i + 2)),
            None => Err(Failure::InvalidDecimal),
        },
    }
}

/// Where a whole frame that starts at `pos` ends, as `Frame::check` scans it.
pub open spec fn spec_check(s: Seq<u8>, pos: int) -> Result<int, Failure> {
    spec_scan(s, pos, true)
}

/// The scan behind [`spec_check`].  With `lenient` set, a bulk header whose
/// length starts with `-` (the null bulk string) is skipped as four bytes,
/// as `Frame::check` does; without it such a header is refused, which
/// singles out the frames that hold no null bulk header.
pub open spec fn spec_scan(s: Seq<u8>, pos: int, lenient: bool) -> Result<int, Failure>
    decreases s.len() - pos, 0int,
{
    if pos < 0 || pos >= s.len() {
        Err(Failure::Incomplete)
    } else {
        let b = s[pos];
        let p = pos + 1;
        if b == 43u8 || b == 45u8 {
            match find_crlf(s, p) {
                Some(i) => Ok(i + 2),
                None => Err(Failure::Incomplete),
            }
        } else if b == 58u8 {
            match decimal_line(s, p) {
                Ok((_, q)) => Ok(q),
                Err(f) => Err(f),
            }
        } else if b == 36u8 {
            if p >= s.len() {
                Err(Failure::Incomplete)
            } else if s[p] == 45u8 {
                if !lenient {
                    Err(Failure::InvalidDecimal)
                } else if s.len() - p >= 4 {
                    Ok(p + 4)
                } else {
                    Err(Failure::Incomplete)
                }
            } else {
                match decimal_line(s, p) {
                    Ok((v, q)) => if v > usize::MAX {
                        Err(Failure::IntegerTooLarge)
                    } else if s.len() - q >= v + 2 {
                        Ok(q + v + 2)
                    } else {
                        Err(Failure::Incomplete)
                    },
                    Err(f) => Err(f),
                }
            }
        } else if b == 42u8 {
            match decimal_line(s, p) {
                Ok((n, q)) => if pos < q <= s.len() {
                    spec_scan_items(s, q, n as nat, lenient)
                } else {
                    Err(Failure::Incomplete)
                },
                Err(f) => Err(f),
            }
        } else {
            Err(Failure::InvalidTypeByte(b))
        }
    }
}

/// Where `n` whole frames, one after the other from `p`, end.
pub open spec fn spec_scan_items(s: Seq<u8>, p: int, n: nat, lenient: bool) -> Result<
    int,
    Failure,
>
    decreases s.len() - p, 1int, n,
{
    if n == 0 {
        Ok(p)
    } else {
        match spec_scan(s, p, lenient) {
            Ok(q) => if p < q <= s.len() {
                spec_scan_items(s, q, (n - 1) as nat, lenient)
            } else {
                Err(Failure::Incomplete)
            },
            Err(f) => Err(f),
        }
    }
}

proof fn lemma_find_crlf_bounds(s: Seq<u8>, start: int)
    ensures
        find_crlf(s, start) matches Some(i) ==> start <= i && i + 1 < s.len() && s[i] == 13u8
            && s[i + 1] == 10u8,
    decreases s.len() - start,
{
    if !(start < 0 || start + 1 >= s.len()) && !(s[start] == 13u8 && s[start + 1] == 10u8) {
        lemma_find_crlf_bounds(s, start + 1);
    }
}

proof fn lemma_decimal_line_bounds(s: Seq<u8>, p: int)
    ensures
        decimal_line(s, p) matches Ok((_, q)) ==> p + 2 <= q <= s.len(),
{
    lemma_find_crlf_bounds(s, p);
}

proof fn lemma_scan_items_bounds(s: Seq<u8>, p: int, n: nat, lenient: bool)
    requires
        p <= s.len(),
    ensures
        spec_scan_items(s, p, n, lenient) matches Ok(e) ==> p <= e <= s.len(),
    decreases n,
{
    if n > 0 {
        if let Ok(q) = spec_scan(s, p, lenient) {
            if p < q <= s.len() {
                lemma_scan_items_bounds(s, q, (n - 1) as nat, lenient);
            }
        }
    }
}

/// A successful scan consumes at least one byte and stays inside the buffer.
pub proof fn lemma_scan_bounds(s: Seq<u8>, pos: int, lenient: bool)
    ensures
        spec_scan(s, pos, lenient) matches Ok(e) ==> pos < e <= s.len(),
{
    if 0 <= pos < s.len() {
        lemma_find_crlf_bounds(s, pos + 1);
        lemma_decimal_line_bounds(s, pos + 1);
        if s[pos] == 42u8 {
            if let Ok((n, q)) = decimal_line(s, pos + 1) {
                lemma_scan_items_bounds(s, q, n as nat, lenient);
            }
        }
    }
}

fn get_u8(src: &mut Cursor) -> (res: Result<u8, Error>)
    ensures
        final(src).buf@ == old(src).buf@,
        old(src).pos < old(src).buf@.len() ==> res == Ok::<u8, Error>(old(src).buf@[old(src).pos as int])
            && final(src).pos == old(src).pos + 1,
        old(src).pos >= old(src).buf@.len() ==> res matches Err(Error::Incomplete),
{
    if src.pos >= src.buf.len() {
        return Err(Error::Incomplete);
    }
    let b = src.buf[src.pos];
    src.pos = src.pos + 1;
    Ok(b)
}

fn peek_u8(src: &Cursor) -> (res: Result<u8, Error>)
    ensures
        src.pos < src.buf@.len() ==> res == Ok::<u8, Error>(src.buf@[src.pos as int]),
        src.pos >= src.buf@.len() ==> res matches Err(Error::Incomplete),
{
    if src.pos >= src.buf.len() {
        return Err(Error::Incomplete);
    }
    Ok(src.buf[src.pos])
}

fn skip(src: &mut Cursor, n: usize) -> (res: Result<(), Error>)
    ensures
        final(src).buf@ == old(src).buf@,
        n <= old(src).rem() ==> res is Ok && final(src).pos == old(src).pos + n,
        n > old(src).rem() ==> res matches Err(Error::Incomplete),
{
    let total = src.buf.len();
    if src.remaining() < n {
        return Err(Error::Incomplete);
    }
    src.pos = src.pos + n;
    Ok(())
}

fn get_line<'a>(src: &mut Cursor<'a>) -> (res: Result<&'a [u8], Error>)
    requires
        old(src).buf@.len() > 0,
    ensures
        final(src).buf@ == old(src).buf@,
        find_crlf(old(src).buf@, old(src).pos as int) matches Some(i) ==> res matches Ok(line)
            && line@ == old(src).buf@.subrange(old(src).pos as int, i) && final(src).pos == i + 2,
        find_crlf(old(src).buf@, old(src).pos as int) is None ==> res matches Err(Error::Incomplete),
{
    let buf: &'a [u8] = src.buf;
    let start = src.pos;
    let end = buf.len() - 1;
    let mut i = start;
    while i < end
        invariant
            start <= i,
            end == buf@.len() - 1,
            buf@ == old(src).buf@,
            src.buf@ == buf@,
            start == old(src).pos,
            find_crlf(buf@, start as int) == find_crlf(buf@, i as int),
        decreases end - i,
    {
        if buf[i] == 13u8 && buf[i + 1] == 10u8 {
            src.pos = i + 2;
            return Ok(slice_subrange(buf, start, i));
        }
        i = i + 1;
    }
    Err(Error::Incomplete)
}

fn get_decimal(src: &mut Cursor) -> (res: Result<u64, Error>)
    requires
        old(src).buf@.len() > 0,
    ensures
        final(src).buf@ == old(src).buf@,
        decimal_line(old(src).buf@, old(src).pos as int) matches Ok((v, q)) ==> res == Ok::<
            u64,
            Error,
        >(v) && final(src).pos == q,
        decimal_line(old(src).buf@, old(src).pos as int) matches Err(f) ==> res matches Err(e)
            && error_is(e, f),
{
    let line = match get_line(src) {
        Ok(line) => line,
        Err(e) => return Err(e),
    };
    match parse_decimal_prefix(line) {
        Some(v) => Ok(v),
        None => Err(failure_error(Failure::InvalidDecimal)),
    }
}

impl Frame {
    /// Scans one whole frame from the cursor's position without building it,
    /// and leaves the cursor just after it.
    pub fn check(src: &mut Cursor) -> (res: Result<(), Error>)
        ensures
            final(src).buf@ == old(src).buf@,
            spec_check(old(src).buf@, old(src).pos as int) matches Ok(e) ==> res is Ok
                && final(src).pos == e,
            spec_check(old(src).buf@, old(src).pos as int) matches Err(f) ==> res matches Err(err)
                && error_is(err, f),
        decreases old(src).buf@.len() - old(src).pos,
    {
        let ghost s = src.buf@;
        let ghost pos0 = src.pos as int;
        proof {
            lemma_find_crlf_bounds(s, pos0 + 1);
            lemma_decimal_line_bounds(s, pos0 + 1);
        }
        let b = match get_u8(src) {
            Ok(b) => b,
            Err(e) => return Err(e),
        };
        if b == 43u8 || b == 45u8 {
            match get_line(src) {
                Ok(_) => Ok(()),
                Err(e) => Err(e),
            }
        } else if b == 58u8 {
            match get_decimal(src) {
                Ok(_) => Ok(()),
                Err(e) => Err(e),
            }
        } else if b == 36u8 {
            let next = match peek_u8(src) {
                Ok(c) => c,
                Err(e) => return Err(e),
            };
            if next == 45u8 {
                skip(src, 4)
            } else {
                let v = match get_decimal(src) {
                    Ok(v) => v,
                    Err(e) => return Err(e),
                };
                if v > usize::MAX as u64 {
                    return Err(failure_error(Failure::IntegerTooLarge));
                }
                let len = v as usize;
                let total = src.buf.len();
                if len > usize::MAX - 2 {
                    return Err(Error::Incomplete);
                }
                skip(src, len + 2)
            }
        } else if b == 42u8 {
            let n = match get_decimal(src) {
                Ok(n) => n,
                Err(e) => return Err(e),
            };
            let ghost q0 = src.pos as int;
            let mut k: u64 = 0;
            while k < n
                invariant
                    src.buf@ == s,
                    s == old(src).buf@,
                    pos0 == old(src).pos,
                    0 <= pos0 < q0 <= src.pos <= s.len(),
                    k <= n,
                    spec_check(s, pos0) == spec_scan_items(s, src.pos as int, (n - k) as nat, true),
                decreases n - k,
            {
                let ghost p = src.pos as int;
                proof {
                    lemma_scan_bounds(s, p, true);
                }
                match Frame::check(src) {
                    Ok(()) => {},
                    Err(e) => return Err(e),
                }
                k = k + 1;
            }
            Ok(())
        } else {
            Err(failure_error(Failure::InvalidTypeByte(b)))
        }
    }
}

/// The frame that starts at `pos` and where it ends, as `Frame::parse`
/// reads it.
pub open spec fn spec_parse(s: Seq<u8>, pos: int) -> Result<(SpecFrame, int), Failure>
    decreases s.len() - pos, 0int,
{
    if pos < 0 || pos >= s.len() {
        Err(Failure::Incomplete)
    } else {
        let b = s[pos];
        let p = pos + 1;
        if b == 43u8 || b == 45u8 {
            match find_crlf(s, p) {
                Some(i) => if valid_utf8(s.subrange(p, i)) {
                    Ok((SpecFrame::Simple(decode_utf8(s.subrange(p, i))), i + 2))
                } else {
                    Err(Failure::InvalidUtf8)
                },
                None => Err(Failure::Incomplete),
            }
        } else if b == 58u8 {
            match decimal_line(s, p) {
                Ok((v, q)) => Ok((SpecFrame::Integer(v), q)),
                Err(f) => Err(f),
            }
        } else if b == 36u8 {
            match decimal_line(s, p) {
                Ok((v, q)) => if v > usize::MAX {
                    Err(Failure::IntegerTooLarge)
                } else if s.len() - q >= v + 2 {
                    Ok((SpecFrame::Bulk(s.subrange(q, q + v)), q + v + 2))
                } else {
                    Err(Failure::Incomplete)
                },
                Err(f) => Err(f),
            }
        } else if b == 42u8 {
            match decimal_line(s, p) {
                Ok((n, q)) => if n > usize::MAX {
                    Err(Failure::IntegerTooLarge)
                } else if pos < q <= s.len() {
                    match spec_parse_items(s, q, n as nat) {
                        Ok((items, e)) => Ok((SpecFrame::Array(items), e)),
                        Err(f) => Err(f),
                    }
                } else {
                    Err(Failure::Incomplete)
                },
                Err(f) => Err(f),
            }
        } else {
            Err(Failure::Unsupported)
        }
    }
}

/// The `n` frames that follow one another from `p`, and where the last ends.
pub open spec fn spec_parse_items(s: Seq<u8>, p: int, n: nat) -> Result<
    (Seq<SpecFrame>, int),
    Failure,
>
    decreases s.len() - p, 1int, n,
{
    if n == 0 {
        Ok((Seq::empty(), p))
    } else {
        match spec_parse(s, p) {
            Ok((f, q)) => if p < q <= s.len() {
                match spec_parse_items(s, q, (n - 1) as nat) {
                    Ok((fs, e)) => Ok((seq![f] + fs, e)),
                    Err(x) => Err(x),
                }
            } else {
                Err(Failure::Incomplete)
            },
            Err(x) => Err(x),
        }
    }
}

proof fn lemma_parse_items_bounds(s: Seq<u8>, p: int, n: nat)
    requires
        p <= s.len(),
    ensures
        spec_parse_items(s, p, n) matches Ok((_, e)) ==> p <= e <= s.len(),
    decreases n,
{
    if n > 0 {
        if let Ok((_, q)) = spec_parse(s, p) {
            if p < q <= s.len() {
                lemma_parse_items_bounds(s, q, (n - 1) as nat);
            }
        }
    }
}

/// A successful parse consumes at least one byte and stays inside the buffer.
pub proof fn lemma_parse_bounds(s: Seq<u8>, pos: int)
    ensures
        spec_parse(s, pos) matches Ok((_, e)) ==> pos < e <= s.len(),
{
    if 0 <= pos < s.len() {
        lemma_find_crlf_bounds(s, pos + 1);
        lemma_decimal_line_bounds(s, pos + 1);
        if s[pos] == 42u8 {
            if let Ok((n, q)) = decimal_line(s, pos + 1) {
                lemma_parse_items_bounds(s, q, n as nat);
            }
        }
    }
}

proof fn lemma_frames_view_push(s: Seq<Frame>, f: Frame)
    ensures
        frames_view(s.push(f)) == frames_view(s).push(frame_view(f)),
{
    assert(s.push(f).drop_last() =~= s);
}

impl Frame {
    /// Reads one whole frame from the cursor's position and leaves the
    /// cursor just after it.  A frame whose type byte the parser does not
    /// know is outside its domain: scan with [`Frame::check`] first.
    pub fn parse(src: &mut Cursor) -> (res: Result<Frame, Error>)
        requires
            !(spec_parse(old(src).buf@, old(src).pos as int) matches Err(Failure::Unsupported)),
        ensures
            final(src).buf@ == old(src).buf@,
            spec_parse(old(src).buf@, old(src).pos as int) matches Ok((f, e)) ==> res matches Ok(
                fr,
            ) && fr@ == f && final(src).pos == e,
            spec_parse(old(src).buf@, old(src).pos as int) matches Err(fl) ==> res matches Err(err)
                && error_is(err, fl),
        decreases old(src).buf@.len() - old(src).pos,
    {
        let ghost s = src.buf@;
        let ghost pos0 = src.pos as int;
        proof {
            lemma_find_crlf_bounds(s, pos0 + 1);
            lemma_decimal_line_bounds(s, pos0 + 1);
        }
        let b = match get_u8(src) {
            Ok(b) => b,
            Err(e) => return Err(e),
        };
        if b == 43u8 || b == 45u8 {
            let line = match get_line(src) {
                Ok(line) => line,
                Err(e) => return Err(e),
            };
            match string_from_utf8(slice_to_vec(line)) {
                Some(text) => Ok(Frame::Simple(text)),
                None => Err(failure_error(Failure::InvalidUtf8)),
            }
        } else if b == 58u8 {
            match get_decimal(src) {
                Ok(v) => Ok(Frame::Integer(v)),
                Err(e) => Err(e),
            }
        } else if b == 36u8 {
            let v = match get_decimal(src) {
                Ok(v) => v,
                Err(e) => return Err(e),
            };
            if v > usize::MAX as u64 {
                return Err(failure_error(Failure::IntegerTooLarge));
            }
            let len = v as usize;
            let buf = src.buf;
            let total = buf.len();
            let start = src.pos;
            if src.remaining() < 2 || src.remaining() - 2 < len {
                return Err(Error::Incomplete);
            }
            let data = slice_to_vec(slice_subrange(buf, start, start + len));
            match skip(src, len + 2) {
                Ok(()) => {},
                Err(e) => return Err(e),
            }
            Ok(Frame::Bulk(data))
        } else if b == 42u8 {
            let n = match get_decimal(src) {
                Ok(n) => n,
                Err(e) => return Err(e),
            };
            if n > usize::MAX as u64 {
                return Err(failure_error(Failure::IntegerTooLarge));
            }
            let ghost q0 = src.pos as int;
            let mut out: Vec<Frame> = Vec::new();
            let mut k: u64 = 0;
            while k < n
                invariant
                    src.buf@ == s,
                    s == old(src).buf@,
                    pos0 == old(src).pos,
                    0 <= pos0 < q0 <= src.pos <= s.len(),
                    k <= n,
                    !(spec_parse(s, pos0) matches Err(Failure::Unsupported)),
                    spec_parse(s, pos0) == match spec_parse_items(s, src.pos as int, (n - k) as nat) {
                        Ok((rest, e)) => Ok((SpecFrame::Array(frames_view(out@) + rest), e)),
                        Err(x) => Err(x),
                    },
                decreases n - k,
            {
                let ghost p = src.pos as int;
                proof {
                    lemma_parse_bounds(s, p);
                }
                let f = match Frame::parse(src) {
                    Ok(f) => f,
                    Err(e) => return Err(e),
                };
                proof {
                    lemma_frames_view_push(out@, f);
                    if let Ok((_, q)) = spec_parse(s, p) {
                        if let Ok((rest, e)) = spec_parse_items(s, q, (n - k - 1) as nat) {
                            assert(frames_view(out@) + (seq![f@] + rest) =~= frames_view(out@).push(
                                f@,
                            ) + rest);
                        }
                    }
                }
                out.push(f);
                k = k + 1;
            }
            proof {
                assert(frames_view(out@) + Seq::<SpecFrame>::empty() =~= frames_view(out@));
            }
            Ok(Frame::Array(out))
        } else {
            // The precondition rules out an unknown type byte.
            proof {
                assert(false);
            }
            Err(Error::Incomplete)
        }
    }
}

/// Law: on a frame that holds no null bulk header (`$-…`) and lies whole in
/// the buffer, `Frame::check` ends where the frame ends, and `Frame::parse`
/// reads that same frame up to that same place, failing only on a line that
/// is not UTF-8 or on a length beyond `usize`: never as incomplete and never
/// on an unknown type byte.
pub proof fn lemma_check_then_parse(s: Seq<u8>, pos: int)
    requires
        spec_scan(s, pos, false) is Ok,
    ensures
        spec_check(s, pos) == spec_scan(s, pos, false),
        match spec_parse(s, pos) {
            Ok((_, e)) => spec_scan(s, pos, false) == Ok::<int, Failure>(e),
            Err(f) => f is InvalidUtf8 || f is IntegerTooLarge,
        },
    decreases s.len() - pos, 0int,
{
    let p = pos + 1;
    lemma_find_crlf_bounds(s, p);
    lemma_decimal_line_bounds(s, p);
    if s[pos] == 42u8 {
        if let Ok((n, q)) = decimal_line(s, p) {
            if n <= usize::MAX {
                lemma_check_then_parse_items(s, q, n as nat);
            } else {
                lemma_check_then_parse_items_scan(s, q, n as nat);
            }
        }
    }
}

proof fn lemma_check_then_parse_items_scan(s: Seq<u8>, p: int, n: nat)
    requires
        spec_scan_items(s, p, n, false) is Ok,
    ensures
        spec_scan_items(s, p, n, true) == spec_scan_items(s, p, n, false),
    decreases s.len() - p, 1int, n,
{
    if n > 0 {
        lemma_check_then_parse(s, p);
        if let Ok(q) = spec_scan(s, p, false) {
            if p < q <= s.len() {
                lemma_check_then_parse_items_scan(s, q, (n - 1) as nat);
            }
        }
    }
}

proof fn lemma_check_then_parse_items(s: Seq<u8>, p: int, n: nat)
    requires
        spec_scan_items(s, p, n, false) is Ok,
    ensures
        spec_scan_items(s, p, n, true) == spec_scan_items(s, p, n, false),
        match spec_parse_items(s, p, n) {
            Ok((_, e)) => spec_scan_items(s, p, n, false) == Ok::<int, Failure>(e),
            Err(f) => f is InvalidUtf8 || f is IntegerTooLarge,
        },
    decreases s.len() - p, 1int, n,
{
    if n > 0 {
        lemma_check_then_parse(s, p);
        if let Ok(q) = spec_scan(s, p, false) {
            if p < q <= s.len() {
                lemma_check_then_parse_items(s, q, (n - 1) as nat);
            }
        }
    }
}

proof fn lemma_find_crlf_extend(s: Seq<u8>, t: Seq<u8>, start: int)
    ensures
        find_crlf(s, start) is Some ==> find_crlf(s + t, start) == find_crlf(s, start),
    decreases s.len() - start,
{
    if !(start < 0 || start + 1 >= s.len()) && !(s[start] == 13u8 && s[start + 1] == 10u8) {
        lemma_find_crlf_extend(s, t, start + 1);
    }
}

proof fn lemma_decimal_line_extend(s: Seq<u8>, t: Seq<u8>, p: int)
    ensures
        find_crlf(s, p) is Some ==> decimal_line(s + t, p) == decimal_line(s, p),
{
    lemma_find_crlf_extend(s, t, p);
    lemma_find_crlf_bounds(s, p);
    if let Some(i) = find_crlf(s, p) {
        assert((s + t).subrange(p, i) =~= s.subrange(p, i));
    }
}

/// Law: a frame that lies whole in the buffer is scanned the same way
/// whatever bytes arrive after it.
pub proof fn lemma_scan_extend(s: Seq<u8>, t: Seq<u8>, pos: int, lenient: bool)
    ensures
        spec_scan(s, pos, lenient) is Ok ==> spec_scan(s + t, pos, lenient) == spec_scan(
            s,
            pos,
            lenient,
        ),
    decreases s.len() - pos, 0int,
{
    if spec_scan(s, pos, lenient) is Ok {
        let p = pos + 1;
        lemma_find_crlf_extend(s, t, p);
        lemma_decimal_line_extend(s, t, p);
        lemma_find_crlf_bounds(s, p);
        lemma_decimal_line_bounds(s, p);
        if s[pos] == 42u8 {
            if let Ok((n, q)) = decimal_line(s, p) {
                lemma_scan_items_extend(s, t, q, n as nat, lenient);
            }
        }
    }
}

proof fn lemma_scan_items_extend(s: Seq<u8>, t: Seq<u8>, p: int, n: nat, lenient: bool)
    ensures
        spec_scan_items(s, p, n, lenient) is Ok ==> spec_scan_items(s + t, p, n, lenient)
            == spec_scan_items(s, p, n, lenient),
    decreases s.len() - p, 1int, n,
{
    if n > 0 && spec_scan_items(s, p, n, lenient) is Ok {
        lemma_scan_extend(s, t, p, lenient);
        if let Ok(q) = spec_scan(s, p, lenient) {
            if p < q <= s.len() {
                lemma_scan_items_extend(s, t, q, (n - 1) as nat, lenient);
            }
        }
    }
}

/// Law: a frame that lies whole in the buffer is parsed to the same value,
/// ending at the same place, whatever bytes arrive after it.
pub proof fn lemma_parse_extend(s: Seq<u8>, t: Seq<u8>, pos: int)
    ensures
        spec_parse(s, pos) is Ok ==> spec_parse(s + t, pos) == spec_parse(s, pos),
    decreases s.len() - pos, 0int,
{
    if spec_parse(s, pos) is Ok {
        let p = pos + 1;
        lemma_find_crlf_extend(s, t, p);
        lemma_decimal_line_extend(s, t, p);
        lemma_find_crlf_bounds(s, p);
        lemma_decimal_line_bounds(s, p);
        if let Some(i) = find_crlf(s, p) {
            assert((s + t).subrange(p, i) =~= s.subrange(p, i));
        }
        if s[pos] == 36u8 {
            if let Ok((v, q)) = decimal_line(s, p) {
                if s.len() - q >= v + 2 {
                    assert((s + t).subrange(q, q + v) =~= s.subrange(q, q + v));
                }
            }
        }
        if s[pos] == 42u8 {
            if let Ok((n, q)) = decimal_line(s, p) {
                lemma_parse_items_extend(s, t, q, n as nat);
            }
        }
    }
}

proof fn lemma_parse_items_extend(s: Seq<u8>, t: Seq<u8>, p: int, n: nat)
    ensures
        spec_parse_items(s, p, n) is Ok ==> spec_parse_items(s + t, p, n) == spec_parse_items(
            s,
            p,
            n,
        ),
    decreases s.len() - p, 1int, n,
{
    if n > 0 && spec_parse_items(s, p, n) is Ok {
        lemma_parse_extend(s, t, p);
        if let Ok((_, q)) = spec_parse(s, p) {
            if p < q <= s.len() {
                lemma_parse_items_extend(s, t, q, (n - 1) as nat);
            }
        }
    }
}

/// Follows the parse walk without building the frame: `Ok` where the parse
/// succeeds (the cursor then where it would end), `Err(true)` where it would
/// meet a type byte that it does not handle, `Err(false)` on any other
/// failure.
fn parse_walk(src: &mut Cursor) -> (res: Result<(), bool>)
    ensures
        final(src).buf@ == old(src).buf@,
        spec_parse(old(src).buf@, old(src).pos as int) matches Ok((_, e)) ==> res is Ok
            && final(src).pos == e,
        spec_parse(old(src).buf@, old(src).pos as int) matches Err(f) ==> res == Err::<(), bool>(
            f is Unsupported,
        ),
    decreases old(src).buf@.len() - old(src).pos,
{
    let ghost s = src.buf@;
    let ghost pos0 = src.pos as int;
    proof {
        lemma_find_crlf_bounds(s, pos0 + 1);
        lemma_decimal_line_bounds(s, pos0 + 1);
    }
    let b = match get_u8(src) {
        Ok(b) => b,
        Err(_) => return Err(false),
    };
    if b == 43u8 || b == 45u8 {
        let line = match get_line(src) {
            Ok(line) => line,
            Err(_) => return Err(false),
        };
        match string_from_utf8(slice_to_vec(line)) {
            Some(_) => Ok(()),
            None => Err(false),
        }
    } else if b == 58u8 {
        match get_decimal(src) {
            Ok(_) => Ok(()),
            Err(_) => Err(false),
        }
    } else if b == 36u8 {
        let v = match get_decimal(src) {
            Ok(v) => v,
            Err(_) => return Err(false),
        };
        if v > usize::MAX as u64 {
            return Err(false);
        }
        let len = v as usize;
        let total = src.buf.len();
        if src.remaining() < 2 || src.remaining() - 2 < len {
            return Err(false);
        }
        match skip(src, len + 2) {
            Ok(()) => Ok(()),
            Err(_) => Err(false),
        }
    } else if b == 42u8 {
        let n = match get_decimal(src) {
            Ok(n) => n,
            Err(_) => return Err(false),
        };
        if n > usize::MAX as u64 {
            return Err(false);
        }
        let mut k: u64 = 0;
        while k < n
            invariant
                src.buf@ == s,
                s == old(src).buf@,
                pos0 == old(src).pos,
                0 <= pos0 < src.pos <= s.len(),
                k <= n,
                match spec_parse(s, pos0) {
                    Ok((_, e)) => spec_parse_items(s, src.pos as int, (n - k) as nat) matches Ok(
                        (_, e2),
                    ) && e2 == e,
                    Err(f) => spec_parse_items(s, src.pos as int, (n - k) as nat) == Err::<
                        (Seq<SpecFrame>, int),
                        Failure,
                    >(f),
                },
            decreases n - k,
        {
            let ghost p = src.pos as int;
            proof {
                lemma_parse_bounds(s, p);
            }
            match parse_walk(src) {
                Ok(()) => {},
                Err(u) => return Err(u),
            }
            k = k + 1;
        }
        Ok(())
    } else {
        Err(true)
    }
}

impl Frame {
    /// Whether [`Frame::parse`] can run from the cursor's position: its walk
    /// meets no type byte that it does not handle.
    pub fn parse_is_supported(src: &Cursor) -> (res: bool)
        ensures
            res == !(spec_parse(src.buf@, src.pos as int) matches Err(Failure::Unsupported)),
    {
        let mut c = Cursor { buf: src.buf, pos: src.pos };
        match parse_walk(&mut c) {
            Ok(()) => true,
            Err(u) => !u,
        }
    }
}

/// A lower-case hexadecimal digit.
pub open spec fn hex_digit(d: int) -> char {
    if d < 10 { ((d + 48) as u8) as char } else { ((d + 87) as u8) as char }
}

/// How `bytes::Bytes` writes one byte in its `Debug` form.
pub open spec fn debug_escape(b: u8) -> Seq<char> {
    if b == 10u8 {
        seq!['\\', 'n']
    } else if b == 13u8 {
        seq!['\\', 'r']
    } else if b == 9u8 {
        seq!['\\', 't']
    } else if b == 92u8 || b == 34u8 {
        seq!['\\', b as char]
    } else if b == 0u8 {
        seq!['\\', '0']
    } else if 32u8 <= b < 127u8 {
        seq![b as char]
    } else {
        seq!['\\', 'x', hex_digit((b / 16) as int), hex_digit((b % 16) as int)]
    }
}

/// The escaped bytes, one after the other.
pub open spec fn debug_escapes(d: Seq<u8>) -> Seq<char>
    decreases d.len(),
{
    if d.len() == 0 {
        Seq::empty()
    } else {
        debug_escapes(d.drop_last()) + debug_escape(d.last())
    }
}

/// The `Debug` form of a `bytes::Bytes`: `b"…"` around the escaped bytes.
pub open spec fn bytes_debug_chars(d: Seq<u8>) -> Seq<char> {
    seq!['b', '"'] + debug_escapes(d) + seq!['"']
}

/// Formats bytes with the `Debug` impl of `bytes::Bytes`.  Trusted claim:
/// the text is `bytes_debug_chars(data@)`, as that impl writes it byte by
/// byte.
#[verifier::external_body]
fn bytes_debug(data: &[u8]) -> (res: String)
    ensures
        res@ == bytes_debug_chars(data@),
{
    format!("{:?}", bytes::Bytes::copy_from_slice(data))
}

/// The text form of a frame: strings as they are, errors after `error: `,
/// integers in decimal, bulk data as text when it is UTF-8 and in its
/// escaped `b"…"` form otherwise, `(nil)` for null, and array elements
/// separated by single spaces.
pub open spec fn display_chars(f: SpecFrame) -> Seq<char>
    decreases f,
{
    match f {
        SpecFrame::Simple(r) => r,
        SpecFrame::Error(m) => "error: "@ + m,
        SpecFrame::Integer(n) => decimal_chars(n as nat),
        SpecFrame::Bulk(b) => if valid_utf8(b) {
            decode_utf8(b)
        } else {
            bytes_debug_chars(b)
        },
        SpecFrame::Null => "(nil)"@,
        SpecFrame::Array(parts) => display_join(parts),
    }
}

/// The text forms of `parts`, separated by single spaces.
pub open spec fn display_join(parts: Seq<SpecFrame>) -> Seq<char>
    decreases parts,
{
    if parts.len() == 0 {
        Seq::empty()
    } else if parts.len() == 1 {
        display_chars(parts[0])
    } else {
        display_join(parts.drop_last()) + seq![' '] + display_chars(parts.last())
    }
}

pub proof fn lemma_frames_view_len(s: Seq<Frame>)
    ensures
        frames_view(s).len() == s.len(),
        forall|i: int| 0 <= i < s.len() ==> #[trigger] frames_view(s)[i] == frame_view(s[i]),
    decreases s.len(),
{
    if s.len() > 0 {
        lemma_frames_view_len(s.drop_last());
    }
}

impl Frame {
    /// An empty array frame.
    pub fn array() -> (res: Frame)
        ensures
            res@ == SpecFrame::Array(Seq::empty()),
    {
        Frame::Array(Vec::new())
    }

    /// Appends a bulk string to an array frame.
    pub fn push_bulk(&mut self, bytes: Vec<u8>)
        requires
            *old(self) is Array,
        ensures
            old(self)@ matches SpecFrame::Array(items) && final(self)@ == SpecFrame::Array(
                items.push(SpecFrame::Bulk(bytes@)),
            ),
    {
        match self {
            Frame::Array(vec) => {
                proof {
                    lemma_frames_view_push(vec@, Frame::Bulk(bytes));
                }
                vec.push(Frame::Bulk(bytes));
            },
            _ => {},
        }
    }

    /// Appends an integer to an array frame.
    pub fn push_int(&mut self, value: u64)
        requires
            *old(self) is Array,
        ensures
            old(self)@ matches SpecFrame::Array(items) && final(self)@ == SpecFrame::Array(
                items.push(SpecFrame::Integer(value)),
            ),
    {
        match self {
            Frame::Array(vec) => {
                proof {
                    lemma_frames_view_push(vec@, Frame::Integer(value));
                }
                vec.push(Frame::Integer(value));
            },
            _ => {},
        }
    }

    /// The text form of the frame (see [`display_chars`]).
    pub fn to_string(&self) -> (res: String)
        ensures
            res@ == display_chars(self@),
        decreases self,
    {
        match self {
            Frame::Simple(r) => r.clone(),
            Frame::Error(m) => {
                let mut out = String::from_str("error: ");
                out.append(m.as_str());
                out
            },
            Frame::Integer(n) => crate::text::u64_to_decimal(*n),
            Frame::Bulk(b) => match string_from_utf8(b.clone()) {
                Some(text) => text,
                None => bytes_debug(b.as_slice()),
            },
            Frame::Null => String::from_str("(nil)"),
            Frame::Array(parts) => {
                let mut out = String::new();
                let mut i: usize = 0;
                proof {
                    lemma_frames_view_len(parts@);
                }
                while i < parts.len()
                    invariant
                        *self == Frame::Array(*parts),
                        i <= parts@.len(),
                        frames_view(parts@).len() == parts@.len(),
                        forall|j: int|
                            0 <= j < parts@.len() ==> #[trigger] frames_view(parts@)[j]
                                == frame_view(parts@[j]),
                        out@ == display_join(frames_view(parts@).take(i as int)),
                    decreases parts@.len() - i,
                {
                    let ghost prefix = frames_view(parts@).take(i as int);
                    let ghost next = frames_view(parts@).take(i + 1);
                    assert(next.drop_last() =~= prefix);
                    if i > 0 {
                        crate::text::push_char(&mut out, ' ');
                    } else {
                        assert(next.len() == 1);
                    }
                    proof {
                        vstd::std_specs::vec::axiom_vec_index_decreases(*parts, i as int);
                        assert(*self == Frame::Array(*parts));
                        assert(decreases_to!(*self => (*self)->Array_0));
                        assert(decreases_to!(*self => parts[i as int]));
                    }
                    let piece = parts[i].to_string();
                    out.append(piece.as_str());
                    i = i + 1;
                }
                assert(frames_view(parts@).take(parts@.len() as int) =~= frames_view(parts@));
                out
            },
        }
    }

    /// The error that reports an unexpected frame.
    pub fn to_error(&self) -> (res: Error)
        ensures
            res matches Error::Other(m) && m@ == "unexpected frame : "@ + display_chars(self@),
    {
        let mut m = String::from_str("unexpected frame : ");
        let shown = self.to_string();
        m.append(shown.as_str());
        Error::Other(m)
    }
}

/// The decimal digits of `n` as ASCII bytes.
pub open spec fn decimal_bytes(n: nat) -> Seq<u8>
    decreases n,
{
    if n < 10 {
        seq![(n + 48) as u8]
    } else {
        decimal_bytes(n / 10).push(((n % 10) + 48) as u8)
    }
}

/// The line terminator.
pub open spec fn crlf() -> Seq<u8> {
    seq![13u8, 10u8]
}

/// The wire form of a frame.
pub open spec fn spec_encode(f: SpecFrame) -> Seq<u8>
    decreases f,
{
    match f {
        SpecFrame::Simple(s) => seq![43u8] + encode_utf8(s) + crlf(),
        SpecFrame::Error(s) => seq![45u8] + encode_utf8(s) + crlf(),
        SpecFrame::Integer(n) => seq![58u8] + decimal_bytes(n as nat) + crlf(),
        SpecFrame::Bulk(d) => seq![36u8] + decimal_bytes(d.len()) + crlf() + d + crlf(),
        SpecFrame::Null => seq![36u8, 45u8, 49u8, 13u8, 10u8],
        SpecFrame::Array(items) => seq![42u8] + decimal_bytes(items.len()) + crlf() + spec_encode_all(
            items,
        ),
    }
}

/// The wire forms of `items`, one after the other.
pub open spec fn spec_encode_all(items: Seq<SpecFrame>) -> Seq<u8>
    decreases items,
{
    if items.len() == 0 {
        Seq::empty()
    } else {
        spec_encode_all(items.drop_last()) + spec_encode(items.last())
    }
}

fn push_decimal_bytes(out: &mut Vec<u8>, n: u64)
    ensures
        final(out)@ == old(out)@ + decimal_bytes(n as nat),
    decreases n,
{
    if n < 10 {
        out.push(n as u8 + 48);
    } else {
        push_decimal_bytes(out, n / 10);
        out.push((n % 10) as u8 + 48);
    }
}

fn push_crlf(out: &mut Vec<u8>)
    ensures
        final(out)@ == old(out)@ + crlf(),
{
    out.push(13u8);
    out.push(10u8);
}

impl Frame {
    fn encode_into(&self, out: &mut Vec<u8>)
        ensures
            final(out)@ == old(out)@ + spec_encode(self@),
        decreases self,
    {
        match self {
            Frame::Simple(s) => {
                out.push(43u8);
                let mut b = slice_to_vec(s.as_str().as_bytes());
                out.append(&mut b);
                push_crlf(out);
            },
            Frame::Error(s) => {
                out.push(45u8);
                let mut b = slice_to_vec(s.as_str().as_bytes());
                out.append(&mut b);
                push_crlf(out);
            },
            Frame::Integer(n) => {
                out.push(58u8);
                push_decimal_bytes(out, *n);
                push_crlf(out);
            },
            Frame::Bulk(d) => {
                out.push(36u8);
                push_decimal_bytes(out, d.len() as u64);
                push_crlf(out);
                let mut b = d.clone();
                out.append(&mut b);
                push_crlf(out);
            },
            Frame::Null => {
                out.push(36u8);
                out.push(45u8);
                out.push(49u8);
                push_crlf(out);
            },
            Frame::Array(items) => {
                out.push(42u8);
                proof {
                    lemma_frames_view_len(items@);
                }
                push_decimal_bytes(out, items.len() as u64);
                push_crlf(out);
                let ghost start = out@;
                let mut i: usize = 0;
                while i < items.len()
                    invariant
                        *self == Frame::Array(*items),
                        i <= items@.len(),
                        frames_view(items@).len() == items@.len(),
                        forall|j: int|
                            0 <= j < items@.len() ==> #[trigger] frames_view(items@)[j]
                                == frame_view(items@[j]),
                        out@ == start + spec_encode_all(frames_view(items@).take(i as int)),
                    decreases items@.len() - i,
                {
                    proof {
                        let next = frames_view(items@).take(i + 1);
                        assert(next.drop_last() =~= frames_view(items@).take(i as int));
                        vstd::std_specs::vec::axiom_vec_index_decreases(*items, i as int);
                        assert(decreases_to!(*self => (*self)->Array_0));
                        assert(decreases_to!(*self => items[i as int]));
                    }
                    items[i].encode_into(out);
                    i = i + 1;
                }
                assert(frames_view(items@).take(items@.len() as int) =~= frames_view(items@));
            },
        }
    }

    /// The wire form of the frame.
    pub fn encode(&self) -> (res: Vec<u8>)
        ensures
            res@ == spec_encode(self@),
    {
        let mut out: Vec<u8> = Vec::new();
        self.encode_into(&mut out);
        assert(out@ =~= spec_encode(self@));
        out
    }
}

/// Whether no `\r\n` pair occurs inside `b`.
pub open spec fn no_crlf(b: Seq<u8>) -> bool {
    forall|i: int| 0 <= i < b.len() - 1 ==> !(#[trigger] b[i] == 13u8 && b[i + 1] == 10u8)
}

/// The frames whose wire form reads back as the same frame: simple strings
/// without `\r\n` inside, integers, bulk strings, and arrays of such frames
/// (error frames read back as simple strings, and the null frame does not
/// read back at all).
pub open spec fn wire_safe(f: SpecFrame) -> bool
    decreases f,
{
    match f {
        SpecFrame::Simple(s) => no_crlf(encode_utf8(s)),
        SpecFrame::Error(_) => false,
        SpecFrame::Integer(_) => true,
        SpecFrame::Bulk(d) => d.len() <= usize::MAX,
        SpecFrame::Null => false,
        SpecFrame::Array(items) => items.len() <= usize::MAX && wire_safe_all(items),
    }
}

/// Whether every frame of `items` is [`wire_safe`].
pub open spec fn wire_safe_all(items: Seq<SpecFrame>) -> bool
    decreases items,
{
    if items.len() == 0 {
        true
    } else {
        wire_safe(items[0]) && wire_safe_all(items.drop_first())
    }
}

proof fn lemma_find_crlf_at(s: Seq<u8>, p: int, k: int)
    requires
        0 <= p,
        0 <= k,
        p + k + 1 < s.len(),
        s[p + k] == 13u8,
        s[p + k + 1] == 10u8,
        forall|i: int| p <= i < p + k ==> !(#[trigger] s[i] == 13u8 && s[i + 1] == 10u8),
    ensures
        find_crlf(s, p) == Some(p + k),
    decreases k,
{
    if k > 0 {
        lemma_find_crlf_at(s, p + 1, k - 1);
    }
}

proof fn lemma_line_at(s: Seq<u8>, p: int, e: Seq<u8>)
    requires
        0 <= p,
        p + e.len() + 2 <= s.len(),
        s.subrange(p, p + e.len()) == e,
        s[p + e.len()] == 13u8,
        s[p + e.len() + 1] == 10u8,
        no_crlf(e),
    ensures
        find_crlf(s, p) == Some(p + e.len()),
{
    let k = e.len() as int;
    assert forall|i: int| p <= i < p + k implies !(#[trigger] s[i] == 13u8 && s[i + 1] == 10u8) by {
        assert(s[i] == s.subrange(p, p + k)[i - p]);
        if i + 1 < p + k {
            assert(s[i + 1] == s.subrange(p, p + k)[i + 1 - p]);
            assert(!(e[i - p] == 13u8 && e[i - p + 1] == 10u8));
        }
    }
    lemma_find_crlf_at(s, p, k);
}

proof fn lemma_decimal_bytes(n: nat)
    ensures
        decimal_bytes(n).len() >= 1,
        forall|i: int|
            0 <= i < decimal_bytes(n).len() ==> crate::text::is_digit_byte(
                #[trigger] decimal_bytes(n)[i],
            ),
        crate::text::digits_value(decimal_bytes(n)) == n,
    decreases n,
{
    if n >= 10 {
        lemma_decimal_bytes(n / 10);
        assert(decimal_bytes(n).drop_last() =~= decimal_bytes(n / 10));
        assert(decimal_bytes(n).last() == ((n % 10) + 48) as u8);
        assert((((n % 10) + 48) as u8) as int == (n % 10) + 48);
        assert((n / 10) * 10 + n % 10 == n);
        let d = decimal_bytes(n);
        assert(crate::text::digits_value(d) == crate::text::digits_value(d.drop_last()) * 10 + (
        d.last() - 48));
        assert(crate::text::digits_value(d.drop_last()) == n / 10);
    } else {
        assert(decimal_bytes(n).drop_last() =~= Seq::<u8>::empty());
        assert(((n + 48) as u8) as int == n + 48);
        let d = decimal_bytes(n);
        assert(crate::text::digits_value(d.drop_last()) == 0);
        assert(crate::text::digits_value(d) == crate::text::digits_value(d.drop_last()) * 10 + (
        d.last() - 48));
    }
}

proof fn lemma_digit_prefix_all(s: Seq<u8>)
    requires
        forall|i: int| 0 <= i < s.len() ==> crate::text::is_digit_byte(#[trigger] s[i]),
    ensures
        crate::text::digit_prefix_len(s) == s.len(),
    decreases s.len(),
{
    if s.len() > 0 {
        assert(forall|i: int|
            0 <= i < s.drop_first().len() ==> #[trigger] s.drop_first()[i] == s[i + 1]);
        lemma_digit_prefix_all(s.drop_first());
    }
}

proof fn lemma_atoi_decimal(n: u64)
    ensures
        atoi_u64(decimal_bytes(n as nat)) == Some(n),
        no_crlf(decimal_bytes(n as nat)),
{
    let d = decimal_bytes(n as nat);
    lemma_decimal_bytes(n as nat);
    lemma_digit_prefix_all(d);
    assert(crate::text::is_digit_byte(d[0]));
    assert(d.take(d.len() as int) =~= d);
    assert forall|i: int| 0 <= i < d.len() - 1 implies !(#[trigger] d[i] == 13u8 && d[i + 1]
        == 10u8) by {
        assert(crate::text::is_digit_byte(d[i]));
    }
}

proof fn lemma_decimal_line_at(s: Seq<u8>, p: int, n: u64)
    requires
        0 <= p,
        p + decimal_bytes(n as nat).len() + 2 <= s.len(),
        s.subrange(p, p + decimal_bytes(n as nat).len()) == decimal_bytes(n as nat),
        s[p + decimal_bytes(n as nat).len()] == 13u8,
        s[p + decimal_bytes(n as nat).len() + 1] == 10u8,
    ensures
        decimal_line(s, p) == Ok::<(u64, int), Failure>((n, p + decimal_bytes(n as nat).len() + 2)),
{
    lemma_atoi_decimal(n);
    lemma_line_at(s, p, decimal_bytes(n as nat));
}

proof fn lemma_encode_all_front(items: Seq<SpecFrame>)
    requires
        items.len() > 0,
    ensures
        spec_encode_all(items) == spec_encode(items[0]) + spec_encode_all(items.drop_first()),
    decreases items.len(),
{
    if items.len() == 1 {
        assert(items.drop_first() =~= Seq::<SpecFrame>::empty());
        assert(items.drop_last() =~= Seq::<SpecFrame>::empty());
        assert(spec_encode_all(items) =~= spec_encode(items[0]));
    } else {
        lemma_encode_all_front(items.drop_last());
        assert(items.drop_first().drop_last() =~= items.drop_last().drop_first());
        assert(items.drop_first().last() == items.last());
        assert(spec_encode_all(items) =~= spec_encode(items[0]) + spec_encode_all(
            items.drop_first(),
        ));
    }
}

proof fn lemma_encode_nonempty(f: SpecFrame)
    ensures
        spec_encode(f).len() >= 1,
{
}

proof fn lemma_parse_encoded(a: Seq<u8>, f: SpecFrame, t: Seq<u8>)
    requires
        wire_safe(f),
    ensures
        spec_parse(a + spec_encode(f) + t, a.len() as int) == Ok::<(SpecFrame, int), Failure>(
            (f, (a.len() + spec_encode(f).len()) as int),
        ),
    decreases f,
{
    let enc = spec_encode(f);
    let s = a + enc + t;
    let pos = a.len() as int;
    let p = pos + 1;
    assert(s[pos] == enc[0]);
    match f {
        SpecFrame::Simple(str) => {
            let e = encode_utf8(str);
            assert(s.subrange(p, p + e.len()) =~= e);
            assert(s[p + e.len()] == 13u8);
            assert(s[p + e.len() + 1] == 10u8);
            lemma_line_at(s, p, e);
            vstd::utf8::encode_utf8_valid_utf8(str);
            vstd::utf8::encode_utf8_decode_utf8(str);
        },
        SpecFrame::Integer(n) => {
            let e = decimal_bytes(n as nat);
            assert(s.subrange(p, p + e.len()) =~= e);
            assert(s[p + e.len()] == 13u8);
            assert(s[p + e.len() + 1] == 10u8);
            lemma_decimal_line_at(s, p, n);
        },
        SpecFrame::Bulk(d) => {
            let n = d.len() as u64;
            let e = decimal_bytes(n as nat);
            assert(s.subrange(p, p + e.len()) =~= e);
            assert(s[p + e.len()] == 13u8);
            assert(s[p + e.len() + 1] == 10u8);
            lemma_decimal_line_at(s, p, n);
            let q = p + e.len() + 2;
            assert(s.subrange(q, q + d.len()) =~= d);
        },
        SpecFrame::Array(items) => {
            let n = items.len() as u64;
            let e = decimal_bytes(n as nat);
            assert(s.subrange(p, p + e.len()) =~= e);
            assert(s[p + e.len()] == 13u8);
            assert(s[p + e.len() + 1] == 10u8);
            lemma_decimal_line_at(s, p, n);
            let q = p + e.len() + 2;
            let head = a + seq![42u8] + e + crlf();
            assert(s =~= head + spec_encode_all(items) + t);
            lemma_parse_items_encoded(head, items, t);
            assert(spec_parse_items(s, q, n as nat) == Ok::<(Seq<SpecFrame>, int), Failure>(
                (items, q + spec_encode_all(items).len()),
            ));
        },
        _ => {},
    }
}

proof fn lemma_parse_items_encoded(a: Seq<u8>, items: Seq<SpecFrame>, t: Seq<u8>)
    requires
        wire_safe_all(items),
    ensures
        spec_parse_items(a + spec_encode_all(items) + t, a.len() as int, items.len())
            == Ok::<(Seq<SpecFrame>, int), Failure>(
            (items, (a.len() + spec_encode_all(items).len()) as int),
        ),
    decreases items,
{
    let s = a + spec_encode_all(items) + t;
    if items.len() == 0 {
        assert(items =~= Seq::<SpecFrame>::empty());
    } else {
        let rest = items.drop_first();
        let e0 = spec_encode(items[0]);
        lemma_encode_all_front(items);
        lemma_encode_nonempty(items[0]);
        assert(s =~= a + e0 + (spec_encode_all(rest) + t));
        lemma_parse_encoded(a, items[0], spec_encode_all(rest) + t);
        assert(s =~= (a + e0) + spec_encode_all(rest) + t);
        lemma_parse_items_encoded(a + e0, rest, t);
        assert(seq![items[0]] + rest =~= items);
    }
}

/// Law: a frame whose wire form reads back (see [`wire_safe`]) is parsed
/// from its encoding to itself, covering the whole encoding.
pub proof fn lemma_encode_then_parse(f: SpecFrame)
    requires
        wire_safe(f),
    ensures
        spec_parse(spec_encode(f), 0) == Ok::<(SpecFrame, int), Failure>(
            (f, spec_encode(f).len() as int),
        ),
{
    lemma_parse_encoded(Seq::empty(), f, Seq::empty());
    assert(Seq::<u8>::empty() + spec_encode(f) + Seq::<u8>::empty() =~= spec_encode(f));
}

proof fn lemma_find_crlf_take(w: Seq<u8>, p: int, k: int)
    requires
        0 <= p,
        0 <= k <= w.len(),
        find_crlf(w, p) is Some,
    ensures
        find_crlf(w, p) matches Some(i) && (i + 1 < k ==> find_crlf(w.take(k), p) == Some(i)) && (k
            <= i + 1 ==> find_crlf(w.take(k), p) is None),
    decreases w.len() - p,
{
    let s = w.take(k);
    if !(w[p] == 13u8 && w[p + 1] == 10u8) {
        if p + 1 < k {
            assert(s[p] == w[p] && s[p + 1] == w[p + 1]);
        }
        lemma_find_crlf_take(w, p + 1, k);
    } else if p + 1 < k {
        assert(s[p] == w[p] && s[p + 1] == w[p + 1]);
    }
}

proof fn lemma_decimal_line_take(w: Seq<u8>, p: int, k: int)
    requires
        0 <= p,
        0 <= k <= w.len(),
        decimal_line(w, p) is Ok,
    ensures
        decimal_line(w, p) matches Ok((_, q)) && (q <= k ==> decimal_line(w.take(k), p)
            == decimal_line(w, p)) && (k < q ==> decimal_line(w.take(k), p) == Err::<
            (u64, int),
            Failure,
        >(Failure::Incomplete)),
{
    lemma_find_crlf_take(w, p, k);
    lemma_find_crlf_bounds(w, p);
    if let Some(i) = find_crlf(w, p) {
        if i + 1 < k {
            assert(w.take(k).subrange(p, i) =~= w.subrange(p, i));
        }
    }
}

/// Law: cutting the buffer at `k` leaves the scan of a frame that starts
/// at `pos` as it was when the frame ends by `k`, and makes it report an
/// incomplete frame when the frame ends after `k`.
pub proof fn lemma_scan_take(w: Seq<u8>, pos: int, k: int, lenient: bool)
    requires
        0 <= pos <= k <= w.len(),
        spec_scan(w, pos, lenient) is Ok,
    ensures
        spec_scan(w, pos, lenient) matches Ok(e) && spec_scan(w.take(k), pos, lenient) == if e
            <= k {
            Ok::<int, Failure>(e)
        } else {
            Err::<int, Failure>(Failure::Incomplete)
        },
    decreases w.len() - pos, 0int,
{
    let s = w.take(k);
    lemma_scan_bounds(w, pos, lenient);
    if pos < k {
        let p = pos + 1;
        assert(s[pos] == w[pos]);
        if p < k {
            assert(s[p] == w[p]);
        }
        let b = w[pos];
        if b == 43u8 || b == 45u8 {
            lemma_find_crlf_take(w, p, k);
        } else if b == 58u8 {
            lemma_decimal_line_take(w, p, k);
        } else if b == 36u8 {
            if w[p] != 45u8 {
                lemma_decimal_line_take(w, p, k);
                lemma_decimal_line_bounds(w, p);
            }
        } else if b == 42u8 {
            lemma_decimal_line_take(w, p, k);
            lemma_decimal_line_bounds(w, p);
            if let Ok((n, q)) = decimal_line(w, p) {
                lemma_scan_items_bounds(w, q, n as nat, lenient);
                if q <= k {
                    lemma_scan_items_take(w, q, n as nat, k, lenient);
                }
            }
        }
    }
}

proof fn lemma_scan_items_take(w: Seq<u8>, p: int, n: nat, k: int, lenient: bool)
    requires
        0 <= p <= k <= w.len(),
        spec_scan_items(w, p, n, lenient) is Ok,
    ensures
        spec_scan_items(w, p, n, lenient) matches Ok(e) && spec_scan_items(w.take(k), p, n, lenient)
            == if e <= k {
            Ok::<int, Failure>(e)
        } else {
            Err::<int, Failure>(Failure::Incomplete)
        },
    decreases w.len() - p, 1int, n,
{
    if n > 0 {
        lemma_scan_take(w, p, k, lenient);
        if let Ok(q1) = spec_scan(w, p, lenient) {
            lemma_scan_bounds(w, p, lenient);
            lemma_scan_items_bounds(w, q1, (n - 1) as nat, lenient);
            if q1 <= k {
                lemma_scan_items_take(w, q1, (n - 1) as nat, k, lenient);
            }
        }
    }
}

/// Law: a buffer that holds only the beginning of a frame that
/// `Frame::check` accepts in full is reported as incomplete, so that the
/// reader waits for more bytes.
pub proof fn lemma_check_prefix_incomplete(w: Seq<u8>, k: int)
    requires
        spec_check(w, 0) is Ok,
        0 <= k,
        spec_check(w, 0) matches Ok(e) && k < e,
    ensures
        spec_check(w.take(k), 0) == Err::<int, Failure>(Failure::Incomplete),
{
    lemma_scan_bounds(w, 0, true);
    lemma_scan_take(w, 0, k, true);
}

/// Whether no bulk string in `f` is empty.
pub open spec fn no_empty_bulk(f: SpecFrame) -> bool
    decreases f,
{
    match f {
        SpecFrame::Bulk(d) => d.len() > 0,
        SpecFrame::Array(items) => no_empty_bulk_all(items),
        _ => true,
    }
}

/// Whether no frame of `items` holds an empty bulk string.
pub open spec fn no_empty_bulk_all(items: Seq<SpecFrame>) -> bool
    decreases items,
{
    if items.len() == 0 {
        true
    } else {
        no_empty_bulk(items[0]) && no_empty_bulk_all(items.drop_first())
    }
}

/// Law: every frame that `Frame::parse` reads — simple strings, error lines
/// (`-…`), integers, bulk strings and arrays of them — is accepted by
/// `Frame::check`, which ends at the same place.  The one exception is a
/// bulk header whose length starts with `-`: the scan skips it as a null
/// bulk string while the parse reads it as an empty one, so frames holding
/// an empty bulk string are left out.
pub proof fn lemma_parse_then_check(s: Seq<u8>, pos: int)
    ensures
        match spec_parse(s, pos) {
            Ok((f, e)) => no_empty_bulk(f) ==> spec_check(s, pos) == Ok::<int, Failure>(e),
            Err(_) => true,
        },
    decreases s.len() - pos, 0int,
{
    if let Ok((f, e)) = spec_parse(s, pos) {
        if no_empty_bulk(f) {
            let p = pos + 1;
            lemma_find_crlf_bounds(s, p);
            lemma_decimal_line_bounds(s, p);
            let b = s[pos];
            if b == 36u8 {
                if s[p] == 45u8 {
                    if let Some(i) = find_crlf(s, p) {
                        let line = s.subrange(p, i);
                        if line.len() > 0 {
                            assert(line[0] == 45u8);
                        }
                    }
                }
            } else if b == 42u8 {
                if let Ok((n, q)) = decimal_line(s, p) {
                    lemma_parse_then_check_items(s, q, n as nat);
                }
            }
        }
    }
}

proof fn lemma_parse_then_check_items(s: Seq<u8>, p: int, n: nat)
    ensures
        match spec_parse_items(s, p, n) {
            Ok((fs, e)) => no_empty_bulk_all(fs) ==> spec_scan_items(s, p, n, true) == Ok::<
                int,
                Failure,
            >(e),
            Err(_) => true,
        },
    decreases s.len() - p, 1int, n,
{
    if n > 0 {
        if let Ok((fs, e)) = spec_parse_items(s, p, n) {
            if no_empty_bulk_all(fs) {
                if let Ok((f, q)) = spec_parse(s, p) {
                    if p < q <= s.len() {
                        if let Ok((rest, e2)) = spec_parse_items(s, q, (n - 1) as nat) {
                            assert(fs == seq![f] + rest);
                            assert(fs[0] == f);
                            assert(fs.drop_first() =~= rest);
                            lemma_parse_then_check(s, p);
                            lemma_parse_then_check_items(s, q, (n - 1) as nat);
                        }
                    }
                }
            }
        }
    }
}

} // verus!
