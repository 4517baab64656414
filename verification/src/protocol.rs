//! Requests of the line-based protocol and the bulk-array responses.

use vstd::prelude::*;
use vstd::string::*;
use crate::text::{decimal_chars, push_char, u64_to_decimal, strings_view};

verus! {

/// Declares std's `SystemTime`, so that a request can carry the time it was
/// read; the value is opaque here.
#[verifier::external_type_specification]
#[verifier::external_body]
pub struct ExSystemTime(std::time::SystemTime);

/// A request of the line-based protocol.
#[derive(Debug)]
pub enum Protocol {
    Echo(String),
    PING,
    /// `SET key value [PX ms]`: the timeout (`-1` without one) and the time
    /// the request was read when it has one.  (`Set` is a word of Verus's
    /// prelude, hence the name.)
    SetValue(String, String, i32, Option<std::time::SystemTime>),
    GET(String),
    CONFIG(String),
    /// Saves the stored pairs to disk.
    SAVE,
    INVALID,
    /// Returns all the keys that match the pattern.
    KEYS(String),
    INFO(String),
}

/// The mathematical value of a [`Protocol`]; of a timestamp it keeps only
/// whether there is one.
pub enum SpecProtocol {
    Echo(Seq<char>),
    Ping,
    SetValue(Seq<char>, Seq<char>, i32, bool),
    Get(Seq<char>),
    Config(Seq<char>),
    Save,
    Invalid,
    Keys(Seq<char>),
    Info(Seq<char>),
}

impl View for Protocol {
    type V = SpecProtocol;

    open spec fn view(&self) -> SpecProtocol {
        match self {
            Protocol::Echo(s) => SpecProtocol::Echo(s@),
            Protocol::PING => SpecProtocol::Ping,
            Protocol::SetValue(k, v, px, t) => SpecProtocol::SetValue(k@, v@, *px, t is Some),
            Protocol::GET(k) => SpecProtocol::Get(k@),
            Protocol::CONFIG(k) => SpecProtocol::Config(k@),
            Protocol::SAVE => SpecProtocol::Save,
            Protocol::INVALID => SpecProtocol::Invalid,
            Protocol::KEYS(p) => SpecProtocol::Keys(p@),
            Protocol::INFO(s) => SpecProtocol::Info(s@),
        }
    }
}

/// A response: a list of lines.
#[derive(Debug)]
pub struct Response {
    items: Vec<String>,
}

impl View for Response {
    type V = Seq<Seq<char>>;

    closed spec fn view(&self) -> Seq<Seq<char>> {
        strings_view(self.items@)
    }
}

/// The lines, each followed by `\r\n`.
pub open spec fn response_lines(items: Seq<Seq<char>>) -> Seq<char>
    decreases items.len(),
{
    if items.len() == 0 {
        Seq::empty()
    } else {
        response_lines(items.drop_last()) + items.last() + seq!['\r', '\n']
    }
}

/// The text of a response: `$-1\r\n` when it has no line, otherwise `$`,
/// the number of lines in decimal and `\r\n`, then the lines.
pub open spec fn response_text(items: Seq<Seq<char>>) -> Seq<char> {
    if items.len() == 0 {
        seq!['$', '-', '1', '\r', '\n']
    } else {
        seq!['$'] + decimal_chars(items.len()) + seq!['\r', '\n'] + response_lines(items)
    }
}

impl Response {
    /// A response without lines.
    pub fn new() -> (res: Response)
        ensures
            res@ == Seq::<Seq<char>>::empty(),
    {
        let res = Response { items: Vec::new() };
        assert(res@ =~= Seq::<Seq<char>>::empty());
        res
    }

    /// Adds a line at the end.
    pub fn add_item(&mut self, val: String)
        ensures
            final(self)@ == old(self)@.push(val@),
    {
        let ghost before = self.items@;
        self.items.push(val);
        assert(strings_view(self.items@) =~= strings_view(before).push(val@));
    }

    /// The text of the response (see [`response_text`]).
    pub fn construct_response(&self) -> (res: String)
        ensures
            res@ == response_text(self@),
    {
        let mut out = String::new();
        if self.items.len() == 0 {
            push_char(&mut out, '$');
            push_char(&mut out, '-');
            push_char(&mut out, '1');
            push_char(&mut out, '\r');
            push_char(&mut out, '\n');
            assert(out@ =~= seq!['$', '-', '1', '\r', '\n']);
            return out;
        }
        push_char(&mut out, '$');
        let count = u64_to_decimal(self.items.len() as u64);
        out.append(count.as_str());
        push_char(&mut out, '\r');
        push_char(&mut out, '\n');
        let ghost head = out@;
        assert(head =~= seq!['$'] + decimal_chars(self@.len()) + seq!['\r', '\n']);
        let mut i: usize = 0;
        while i < self.items.len()
            invariant
                i <= self.items@.len(),
                out@ == head + response_lines(strings_view(self.items@).take(i as int)),
            decreases self.items@.len() - i,
        {
            let ghost next = strings_view(self.items@).take(i + 1);
            assert(next.drop_last() =~= strings_view(self.items@).take(i as int));
            out.append(self.items[i].as_str());
            push_char(&mut out, '\r');
            push_char(&mut out, '\n');
            assert(out@ =~= head + response_lines(next));
            i = i + 1;
        }
        assert(strings_view(self.items@).take(self.items@.len() as int) =~= strings_view(
            self.items@,
        ));
        out
    }
}

proof fn lemma_decimal_first_not_minus(n: nat)
    ensures
        decimal_chars(n).len() >= 1,
        decimal_chars(n)[0] != '-',
    decreases n,
{
    if n >= 10 {
        lemma_decimal_first_not_minus(n / 10);
    } else {
        assert(((n + 48) as u8) as char != '-');
    }
}

/// Law: the null reply `$-1\r\n` is given exactly for a response without
/// lines; a response with lines, one or many, never looks like it.
pub proof fn lemma_response_null_iff_empty(items: Seq<Seq<char>>)
    ensures
        (response_text(items) == seq!['$', '-', '1', '\r', '\n']) <==> items.len() == 0,
{
    if items.len() > 0 {
        lemma_decimal_first_not_minus(items.len());
        assert(response_text(items)[1] == decimal_chars(items.len())[0]);
    }
}

/// Law: the lines of a response are written one after another, each
/// followed by `\r\n`: the lines of `a` then `b` are those of `a` followed
/// by those of `b`, and a single line `x` is written as `x\r\n`.
pub proof fn lemma_response_lines_concat(a: Seq<Seq<char>>, b: Seq<Seq<char>>)
    ensures
        response_lines(a + b) == response_lines(a) + response_lines(b),
    decreases b.len(),
{
    if b.len() == 0 {
        assert(a + b =~= a);
        assert(response_lines(a) + response_lines(b) =~= response_lines(a));
    } else {
        lemma_response_lines_concat(a, b.drop_last());
        assert((a + b).drop_last() =~= a + b.drop_last());
        assert((a + b).last() == b.last());
        assert(response_lines(a + b) =~= response_lines(a) + response_lines(b));
    }
}

/// Law: a single line `x` is written as `x\r\n`.
pub proof fn lemma_response_line_single(x: Seq<char>)
    ensures
        response_lines(seq![x]) == x + seq!['\r', '\n'],
{
    assert(seq![x].drop_last() =~= Seq::<Seq<char>>::empty());
    assert(seq![x].last() == x);
    assert(response_lines(Seq::<Seq<char>>::empty()) =~= Seq::<char>::empty());
    assert(Seq::<char>::empty() + x =~= x);
    assert(response_lines(seq![x]) =~= x + seq!['\r', '\n']);
}

/// Law: a response with lines starts with `$`, the number of lines in
/// decimal and `\r\n`, and goes on with its lines.
pub proof fn lemma_response_header(items: Seq<Seq<char>>)
    requires
        items.len() > 0,
    ensures
        ({
            let header = seq!['$'] + decimal_chars(items.len()) + seq!['\r', '\n'];
            &&& response_text(items).take(header.len() as int) == header
            &&& response_text(items).skip(header.len() as int) == response_lines(items)
        }),
{
    let header = seq!['$'] + decimal_chars(items.len()) + seq!['\r', '\n'];
    assert(response_text(items).take(header.len() as int) =~= header);
    assert(response_text(items).skip(header.len() as int) =~= response_lines(items));
}

} // verus!
