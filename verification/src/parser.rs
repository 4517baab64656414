//! The line-based request parser.

use vstd::prelude::*;
use vstd::string::*;
use crate::protocol::{Protocol, SpecProtocol};
use crate::text::{
    ascii_upper, parse_i32, parse_i32_chars, push_char, strings_view, to_ascii_uppercase,
    to_uppercase, uppercase_chars,
};

verus! {

/// A line without the one `\r` that may end it.
pub open spec fn strip_cr(p: Seq<char>) -> Seq<char> {
    if p.len() > 0 && p.last() == '\r' { p.drop_last() } else { p }
}

/// `acc` with the line `cur` added, unless the line (without its `\r`) is
/// empty or starts with `$` or `*`.
pub open spec fn keep_line(acc: Seq<Seq<char>>, cur: Seq<char>) -> Seq<Seq<char>> {
    let q = strip_cr(cur);
    if q.len() == 0 || q[0] == '$' || q[0] == '*' { acc } else { acc.push(q) }
}

/// The kept lines of `s` from index `i` on, given the line `cur` being read
/// and the lines `acc` already kept.
pub open spec fn lines_from(s: Seq<char>, i: int, cur: Seq<char>, acc: Seq<Seq<char>>) -> Seq<
    Seq<char>,
>
    decreases s.len() - i,
{
    if i >= s.len() {
        keep_line(acc, cur)
    } else if s[i] == '\n' {
        lines_from(s, i + 1, Seq::empty(), keep_line(acc, cur))
    } else {
        lines_from(s, i + 1, cur.push(s[i]), acc)
    }
}

/// The words of a request: its lines (split at `\n`, without a trailing
/// `\r`), leaving out empty lines and the `$` and `*` header lines.
pub open spec fn command_parts(s: Seq<char>) -> Seq<Seq<char>> {
    lines_from(s, 0, Seq::empty(), Seq::empty())
}

/// The request that the words `p` make, or `None` where a word that the
/// request needs is missing.  The command word and the `PX` option match in
/// any case (`SAVE` in any ASCII case).
pub open spec fn spec_command(p: Seq<Seq<char>>) -> Option<SpecProtocol> {
    if p.len() == 0 {
        None
    } else {
        let u = uppercase_chars(p[0]);
        if u == "PING"@ {
            Some(SpecProtocol::Ping)
        } else if u == "ECHO"@ {
            if p.len() > 1 { Some(SpecProtocol::Echo(p[1])) } else { None }
        } else if u == "SET"@ {
            if p.len() > 3 {
                if uppercase_chars(p[3]) == "PX"@ {
                    if p.len() > 4 {
                        match parse_i32_chars(p[4]) {
                            Some(ms) => Some(SpecProtocol::SetValue(p[1], p[2], ms, true)),
                            None => Some(SpecProtocol::Invalid),
                        }
                    } else {
                        None
                    }
                } else {
                    Some(SpecProtocol::Invalid)
                }
            } else if p.len() == 3 {
                Some(SpecProtocol::SetValue(p[1], p[2], -1i32, false))
            } else {
                None
            }
        } else if u == "GET"@ {
            if p.len() > 1 { Some(SpecProtocol::Get(p[1])) } else { None }
        } else if u == "CONFIG"@ {
            if p.len() > 2 { Some(SpecProtocol::Config(p[2])) } else { None }
        } else if u == "KEYS"@ {
            if p.len() > 1 { Some(SpecProtocol::Keys(p[1])) } else { None }
        } else if ascii_upper(p[0]) == "SAVE"@ {
            Some(SpecProtocol::Save)
        } else {
            Some(SpecProtocol::Invalid)
        }
    }
}

/// The current time (std `SystemTime::now`); nothing is claimed of it.
#[verifier::external_body]
fn system_time_now() -> std::time::SystemTime {
    std::time::SystemTime::now()
}

/// A request read as text.
pub struct Parser {
    value: String,
}

impl View for Parser {
    type V = Seq<char>;

    closed spec fn view(&self) -> Seq<char> {
        self.value@
    }
}

fn keep_line_exec(acc: &mut Vec<String>, cur: String)
    ensures
        strings_view(final(acc)@) == keep_line(strings_view(old(acc)@), cur@),
{
    let n = cur.as_str().unicode_len();
    let line = if n > 0 && cur.as_str().get_char(n - 1) == '\r' {
        cur.as_str().substring_char(0, n - 1).to_owned()
    } else {
        cur
    };
    assert(line@ == crate::parser::strip_cr(cur@));
    let m = line.as_str().unicode_len();
    if m == 0 {
        return ;
    }
    let first = line.as_str().get_char(0);
    if first == '$' || first == '*' {
        return ;
    }
    let ghost before = acc@;
    acc.push(line);
    assert(strings_view(acc@) =~= strings_view(before).push(line@));
}

fn command_at(p: &Vec<String>, now: std::time::SystemTime) -> (res: Option<Protocol>)
    ensures
        match spec_command(strings_view(p@)) {
            Some(c) => res matches Some(r) && r@ == c && (r matches Protocol::SetValue(
                _,
                _,
                _,
                Some(t),
            ) ==> t == now),
            None => res is None,
        },
{
    let ghost sv = strings_view(p@);
    if p.len() == 0 {
        return None;
    }
    assert(forall|i: int| 0 <= i < p@.len() ==> sv[i] == #[trigger] p@[i]@);
    let u = to_uppercase(p[0].as_str());
    if u == String::from_str("PING") {
        Some(Protocol::PING)
    } else if u == String::from_str("ECHO") {
        if p.len() > 1 {
            Some(Protocol::Echo(p[1].clone()))
        } else {
            None
        }
    } else if u == String::from_str("SET") {
        if p.len() > 3 {
            if to_uppercase(p[3].as_str()) == String::from_str("PX") {
                if p.len() > 4 {
                    match parse_i32(p[4].as_str()) {
                        Some(ms) => Some(
                            Protocol::SetValue(p[1].clone(), p[2].clone(), ms, Some(now)),
                        ),
                        None => Some(Protocol::INVALID),
                    }
                } else {
                    None
                }
            } else {
                Some(Protocol::INVALID)
            }
        } else if p.len() == 3 {
            Some(Protocol::SetValue(p[1].clone(), p[2].clone(), -1, None))
        } else {
            None
        }
    } else if u == String::from_str("GET") {
        if p.len() > 1 {
            Some(Protocol::GET(p[1].clone()))
        } else {
            None
        }
    } else if u == String::from_str("CONFIG") {
        if p.len() > 2 {
            Some(Protocol::CONFIG(p[2].clone()))
        } else {
            None
        }
    } else if u == String::from_str("KEYS") {
        if p.len() > 1 {
            Some(Protocol::KEYS(p[1].clone()))
        } else {
            None
        }
    } else if to_ascii_uppercase(p[0].as_str()) == String::from_str("SAVE") {
        Some(Protocol::SAVE)
    } else {
        Some(Protocol::INVALID)
    }
}

impl Parser {
    /// A parser of the request text `buf`.
    pub fn new(buf: String) -> (res: Parser)
        ensures
            res@ == buf@,
    {
        Parser { value: buf }
    }

    /// The words of the request (see [`command_parts`]).
    pub fn parse_command(&self) -> (res: Vec<String>)
        ensures
            strings_view(res@) == command_parts(self@),
    {
        let s = self.value.as_str();
        let n = s.unicode_len();
        let mut acc: Vec<String> = Vec::new();
        let mut cur = String::new();
        let mut i: usize = 0;
        assert(strings_view(acc@) =~= Seq::<Seq<char>>::empty());
        while i < n
            invariant
                n == s@.len(),
                s@ == self@,
                i <= n,
                lines_from(s@, i as int, cur@, strings_view(acc@)) == command_parts(self@),
            decreases n - i,
        {
            let c = s.get_char(i);
            if c == '\n' {
                let line = cur;
                cur = String::new();
                keep_line_exec(&mut acc, line);
            } else {
                push_char(&mut cur, c);
            }
            i = i + 1;
        }
        keep_line_exec(&mut acc, cur);
        acc
    }

    /// The request (see [`spec_command`]), read at the current time when it
    /// is a `SET` with a timeout.  A request that lacks a word it needs is
    /// outside the domain: [`Parser::try_get_command`] tests for it.
    pub fn get_command(&self) -> (res: Protocol)
        requires
            spec_command(command_parts(self@)) is Some,
        ensures
            Some(res@) == spec_command(command_parts(self@)),
    {
        let parsed_command = self.parse_command();
        let now = system_time_now();
        match command_at(&parsed_command, now) {
            Some(p) => p,
            None => Protocol::INVALID,
        }
    }

    /// The request, or `None` where it lacks a word it needs.
    pub fn try_get_command(&self) -> (res: Option<Protocol>)
        ensures
            match spec_command(command_parts(self@)) {
                Some(c) => res matches Some(r) && r@ == c,
                None => res is None,
            },
    {
        let parsed_command = self.parse_command();
        let now = system_time_now();
        match command_at(&parsed_command, now) {
            Some(_) => Some(self.get_command()),
            None => None,
        }
    }
}

/// Law: the request depends on its command word only through the word's
/// upper-case forms (Unicode, and ASCII for `SAVE`), and on the other words
/// as they are: command words match in any case.
pub proof fn lemma_command_word_any_case(p: Seq<Seq<char>>, q: Seq<Seq<char>>)
    requires
        p.len() > 0,
        q.len() > 0,
        uppercase_chars(p[0]) == uppercase_chars(q[0]),
        ascii_upper(p[0]) == ascii_upper(q[0]),
        p.drop_first() == q.drop_first(),
    ensures
        spec_command(p) == spec_command(q),
{
    assert(p.drop_first().len() == q.drop_first().len());
    assert(p.len() == q.len());
    assert forall|i: int| 1 <= i < p.len() implies p[i] == q[i] by {
        assert(p[i] == p.drop_first()[i - 1]);
        assert(q[i] == q.drop_first()[i - 1]);
    }
}

/// Law: a command word whose upper-case form names a command gives that
/// command when its words are there: `PING`; `ECHO msg`; `SET key value`
/// (no timeout); `GET key`; `CONFIG sub key`; `KEYS pattern`.
pub proof fn lemma_command_dispatch(p: Seq<Seq<char>>)
    requires
        p.len() > 0,
    ensures
        uppercase_chars(p[0]) == "PING"@ ==> spec_command(p) == Some(SpecProtocol::Ping),
        uppercase_chars(p[0]) == "ECHO"@ && p.len() > 1 ==> spec_command(p) == Some(
            SpecProtocol::Echo(p[1]),
        ),
        uppercase_chars(p[0]) == "SET"@ && p.len() == 3 ==> spec_command(p) == Some(
            SpecProtocol::SetValue(p[1], p[2], -1i32, false),
        ),
        uppercase_chars(p[0]) == "GET"@ && p.len() > 1 ==> spec_command(p) == Some(
            SpecProtocol::Get(p[1]),
        ),
        uppercase_chars(p[0]) == "CONFIG"@ && p.len() > 2 ==> spec_command(p) == Some(
            SpecProtocol::Config(p[2]),
        ),
        uppercase_chars(p[0]) == "KEYS"@ && p.len() > 1 ==> spec_command(p) == Some(
            SpecProtocol::Keys(p[1]),
        ),
{
    reveal_strlit("PING");
    reveal_strlit("ECHO");
    reveal_strlit("SET");
    reveal_strlit("GET");
    reveal_strlit("CONFIG");
    reveal_strlit("KEYS");
    assert("PING"@.len() == 4 && "PING"@[0] == 'P');
    assert("ECHO"@.len() == 4 && "ECHO"@[0] == 'E');
    assert("SET"@.len() == 3 && "SET"@[0] == 'S');
    assert("GET"@.len() == 3 && "GET"@[0] == 'G');
    assert("CONFIG"@.len() == 6);
    assert("KEYS"@.len() == 4 && "KEYS"@[0] == 'K');
    assert("ECHO"@ != "PING"@);
    assert("GET"@ != "SET"@);
    assert("KEYS"@ != "PING"@);
    assert("KEYS"@ != "ECHO"@);
}

} // verus!
