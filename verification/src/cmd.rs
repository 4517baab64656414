//! Commands: decoding a request frame into one of the commands the engine
//! runs.

use vstd::prelude::*;
use vstd::string::*;
use vstd::utf8::*;
use crate::frame::{Frame, SpecFrame, frames_view, lemma_frames_view_len};
use crate::text::{lowercase_chars, to_lowercase, string_from_utf8};

verus! {

/// Why a request frame is not a command.
#[derive(Debug, Clone, Copy, PartialEq, Eq, Structural)]
pub enum ParseError {
    /// The command needs more arguments than the frame holds.
    EndOfStream,
    /// The request is not an array frame.
    NotAnArray,
    /// An argument is neither a simple nor a bulk string.
    UnexpectedFrame,
    /// A bulk string argument that must be text is not UTF-8.
    InvalidString,
    /// The command got more arguments than it takes.
    TrailingData,
}

/// The mathematical value of a [`Command`].
pub enum SpecCommand {
    Get(Seq<char>),
    SetValue(Seq<char>, Seq<u8>),
    Ping(Option<Seq<u8>>),
    Unknown(Seq<char>),
}

/// An argument read as text: simple strings as they are, bulk strings when
/// they are UTF-8.
pub open spec fn frame_string(f: SpecFrame) -> Result<Seq<char>, ParseError> {
    match f {
        SpecFrame::Simple(s) => Ok(s),
        SpecFrame::Bulk(d) => if valid_utf8(d) {
            Ok(decode_utf8(d))
        } else {
            Err(ParseError::InvalidString)
        },
        _ => Err(ParseError::UnexpectedFrame),
    }
}

/// An argument read as bytes: simple strings in UTF-8, bulk strings as they
/// are.
pub open spec fn frame_bytes(f: SpecFrame) -> Result<Seq<u8>, ParseError> {
    match f {
        SpecFrame::Simple(s) => Ok(encode_utf8(s)),
        SpecFrame::Bulk(d) => Ok(d),
        _ => Err(ParseError::UnexpectedFrame),
    }
}

/// `GET key`.
pub open spec fn spec_get_args(parts: Seq<SpecFrame>) -> Result<SpecCommand, ParseError> {
    if parts.len() < 2 {
        Err(ParseError::EndOfStream)
    } else {
        match frame_string(parts[1]) {
            Ok(k) => if parts.len() > 2 {
                Err(ParseError::TrailingData)
            } else {
                Ok(SpecCommand::Get(k))
            },
            Err(e) => Err(e),
        }
    }
}

/// `SET key value`.
pub open spec fn spec_set_args(parts: Seq<SpecFrame>) -> Result<SpecCommand, ParseError> {
    if parts.len() < 2 {
        Err(ParseError::EndOfStream)
    } else {
        match frame_string(parts[1]) {
            Ok(k) => if parts.len() < 3 {
                Err(ParseError::EndOfStream)
            } else {
                match frame_bytes(parts[2]) {
                    Ok(v) => if parts.len() > 3 {
                        Err(ParseError::TrailingData)
                    } else {
                        Ok(SpecCommand::SetValue(k, v))
                    },
                    Err(e) => Err(e),
                }
            },
            Err(e) => Err(e),
        }
    }
}

/// `PING [message]`.
pub open spec fn spec_ping_args(parts: Seq<SpecFrame>) -> Result<SpecCommand, ParseError> {
    if parts.len() < 2 {
        Ok(SpecCommand::Ping(None))
    } else {
        match frame_bytes(parts[1]) {
            Ok(m) => if parts.len() > 2 {
                Err(ParseError::TrailingData)
            } else {
                Ok(SpecCommand::Ping(Some(m)))
            },
            Err(e) => Err(e),
        }
    }
}

/// The command that a request frame holds: an array whose first element
/// names the command (case-insensitively) and whose other elements are its
/// arguments.  A name other than `get`, `set` and `ping` gives an unknown
/// command, whatever its arguments.
pub open spec fn spec_from_frame(f: SpecFrame) -> Result<SpecCommand, ParseError> {
    match f {
        SpecFrame::Array(parts) => if parts.len() == 0 {
            Err(ParseError::EndOfStream)
        } else {
            match frame_string(parts[0]) {
                Err(e) => Err(e),
                Ok(name) => {
                    let cmd = lowercase_chars(name);
                    if cmd == "get"@ {
                        spec_get_args(parts)
                    } else if cmd == "set"@ {
                        spec_set_args(parts)
                    } else if cmd == "ping"@ {
                        spec_ping_args(parts)
                    } else {
                        Ok(SpecCommand::Unknown(cmd))
                    }
                },
            }
        },
        _ => Err(ParseError::NotAnArray),
    }
}

/// A cursor over the elements of a request array.
#[derive(Debug)]
pub struct Parse {
    parts: Vec<Frame>,
    pos: usize,
}

impl Parse {
    /// The elements of the array.
    pub closed spec fn items(&self) -> Seq<SpecFrame> {
        frames_view(self.parts@)
    }

    /// How many elements have been read.
    pub closed spec fn index(&self) -> int {
        self.pos as int
    }

    /// A cursor at the first element of an array frame.
    pub fn new(frame: Frame) -> (res: Result<Parse, ParseError>)
        ensures
            match frame@ {
                SpecFrame::Array(items) => res matches Ok(p) && p.items() == items && p.index()
                    == 0,
                _ => res == Err::<Parse, ParseError>(ParseError::NotAnArray),
            },
    {
        match frame {
            Frame::Array(parts) => Ok(Parse { parts, pos: 0 }),
            _ => Err(ParseError::NotAnArray),
        }
    }

    /// Reads the next element as text.
    pub fn next_string(&mut self) -> (res: Result<String, ParseError>)
        ensures
            final(self).items() == old(self).items(),
            old(self).index() >= old(self).items().len() ==> res == Err::<String, ParseError>(
                ParseError::EndOfStream,
            ) && final(self).index() == old(self).index(),
            old(self).index() < old(self).items().len() ==> final(self).index() == old(
                self,
            ).index() + 1 && match frame_string(old(self).items()[old(self).index()]) {
                Ok(s) => res matches Ok(r) && r@ == s,
                Err(e) => res == Err::<String, ParseError>(e),
            },
    {
        proof {
            lemma_frames_view_len(self.parts@);
        }
        if self.pos >= self.parts.len() {
            return Err(ParseError::EndOfStream);
        }
        let i = self.pos;
        self.pos = self.pos + 1;
        match &self.parts[i] {
            Frame::Simple(s) => Ok(s.clone()),
            Frame::Bulk(d) => match string_from_utf8(d.clone()) {
                Some(s) => Ok(s),
                None => Err(ParseError::InvalidString),
            },
            _ => Err(ParseError::UnexpectedFrame),
        }
    }

    /// Reads the next element as bytes.
    pub fn next_bytes(&mut self) -> (res: Result<Vec<u8>, ParseError>)
        ensures
            final(self).items() == old(self).items(),
            old(self).index() >= old(self).items().len() ==> res == Err::<Vec<u8>, ParseError>(
                ParseError::EndOfStream,
            ) && final(self).index() == old(self).index(),
            old(self).index() < old(self).items().len() ==> final(self).index() == old(
                self,
            ).index() + 1 && match frame_bytes(old(self).items()[old(self).index()]) {
                Ok(b) => res matches Ok(r) && r@ == b,
                Err(e) => res == Err::<Vec<u8>, ParseError>(e),
            },
    {
        proof {
            lemma_frames_view_len(self.parts@);
        }
        if self.pos >= self.parts.len() {
            return Err(ParseError::EndOfStream);
        }
        let i = self.pos;
        self.pos = self.pos + 1;
        match &self.parts[i] {
            Frame::Simple(s) => Ok(vstd::slice::slice_to_vec(s.as_str().as_bytes())),
            Frame::Bulk(d) => Ok(d.clone()),
            _ => Err(ParseError::UnexpectedFrame),
        }
    }

    /// Succeeds when every element has been read.
    pub fn finish(&mut self) -> (res: Result<(), ParseError>)
        ensures
            *final(self) == *old(self),
            res is Ok <==> old(self).index() >= old(self).items().len(),
            res is Err ==> res == Err::<(), ParseError>(ParseError::TrailingData),
    {
        proof {
            lemma_frames_view_len(self.parts@);
        }
        if self.pos < self.parts.len() {
            Err(ParseError::TrailingData)
        } else {
            Ok(())
        }
    }
}

/// `GET key`: looks a key up.
#[derive(Debug)]
pub struct Get {
    key: String,
}

impl View for Get {
    type V = Seq<char>;

    closed spec fn view(&self) -> Seq<char> {
        self.key@
    }
}

impl Get {
    /// A `GET` of `key`.
    pub fn new(key: String) -> (res: Get)
        ensures
            res@ == key@,
    {
        Get { key }
    }

    /// The key looked up.
    pub fn key(&self) -> (res: &String)
        ensures
            res@ == self@,
    {
        &self.key
    }

    /// Reads the arguments of a `GET` after its name.
    pub fn parse_frames(parse: &mut Parse) -> (res: Result<Get, ParseError>)
        ensures
            final(parse).items() == old(parse).items(),
            old(parse).index() >= old(parse).items().len() ==> res == Err::<Get, ParseError>(
                ParseError::EndOfStream,
            ) && final(parse).index() == old(parse).index(),
            old(parse).index() < old(parse).items().len() ==> final(parse).index() == old(
                parse,
            ).index() + 1 && match frame_string(old(parse).items()[old(parse).index()]) {
                Ok(k) => res matches Ok(g) && g@ == k,
                Err(e) => res == Err::<Get, ParseError>(e),
            },
    {
        match parse.next_string() {
            Ok(key) => Ok(Get { key }),
            Err(e) => Err(e),
        }
    }
}

/// `SET key value`: stores a value under a key (named `SetValue`, since
/// `Set` is a word of Verus's prelude).
#[derive(Debug)]
pub struct SetValue {
    key: String,
    value: Vec<u8>,
}

impl View for SetValue {
    type V = (Seq<char>, Seq<u8>);

    closed spec fn view(&self) -> (Seq<char>, Seq<u8>) {
        (self.key@, self.value@)
    }
}

impl SetValue {
    /// A `SET` of `value` under `key`.
    pub fn new(key: String, value: Vec<u8>) -> (res: SetValue)
        ensures
            res@ == (key@, value@),
    {
        SetValue { key, value }
    }

    /// The key written.
    pub fn key(&self) -> (res: &String)
        ensures
            res@ == self@.0,
    {
        &self.key
    }

    /// The value written.
    pub fn value(&self) -> (res: &Vec<u8>)
        ensures
            res@ == self@.1,
    {
        &self.value
    }

    /// Reads the arguments of a `SET` after its name.
    pub fn parse_frames(parse: &mut Parse) -> (res: Result<SetValue, ParseError>)
        ensures
            final(parse).items() == old(parse).items(),
            ({
                let items = old(parse).items();
                let i = old(parse).index();
                if i >= items.len() {
                    res == Err::<SetValue, ParseError>(ParseError::EndOfStream)
                } else {
                    match frame_string(items[i]) {
                        Err(e) => res == Err::<SetValue, ParseError>(e),
                        Ok(k) => if i + 1 >= items.len() {
                            res == Err::<SetValue, ParseError>(ParseError::EndOfStream)
                        } else {
                            match frame_bytes(items[i + 1]) {
                                Err(e) => res == Err::<SetValue, ParseError>(e),
                                Ok(v) => res matches Ok(s) && s@ == (k, v) && final(parse).index()
                                    == i + 2,
                            }
                        },
                    }
                }
            }),
    {
        let key = match parse.next_string() {
            Ok(k) => k,
            Err(e) => return Err(e),
        };
        let value = match parse.next_bytes() {
            Ok(v) => v,
            Err(e) => return Err(e),
        };
        Ok(SetValue { key, value })
    }
}

/// `PING [message]`: answers with the message, or `PONG` without one.
#[derive(Debug)]
pub struct Ping {
    pub msg: Option<Vec<u8>>,
}

impl Ping {
    /// A `PING` with an optional message.
    pub fn new(msg: Option<Vec<u8>>) -> (res: Ping)
        ensures
            res.msg == msg,
    {
        Ping { msg }
    }

    /// Reads the optional argument of a `PING` after its name.
    pub fn parse_frames(parse: &mut Parse) -> (res: Result<Ping, ParseError>)
        ensures
            final(parse).items() == old(parse).items(),
            ({
                let items = old(parse).items();
                let i = old(parse).index();
                if i >= items.len() {
                    res matches Ok(p) && p.msg is None && final(parse).index() == i
                } else {
                    final(parse).index() == i + 1 && match frame_bytes(items[i]) {
                        Err(e) => res == Err::<Ping, ParseError>(e),
                        Ok(m) => res matches Ok(p) && p.msg matches Some(v) && v@ == m,
                    }
                }
            }),
    {
        match parse.next_bytes() {
            Ok(msg) => Ok(Ping { msg: Some(msg) }),
            Err(ParseError::EndOfStream) => Ok(Ping { msg: None }),
            Err(e) => Err(e),
        }
    }
}

/// A command the engine does not know; it is answered without effect.
#[derive(Debug)]
pub struct Unknown {
    command_name: String,
}

impl View for Unknown {
    type V = Seq<char>;

    closed spec fn view(&self) -> Seq<char> {
        self.command_name@
    }
}

impl Unknown {
    /// An unknown command of the given name.
    pub fn new(command_name: String) -> (res: Unknown)
        ensures
            res@ == command_name@,
    {
        Unknown { command_name }
    }

    /// The command's name.
    pub fn get_name(&self) -> (res: &str)
        ensures
            res@ == self@,
    {
        self.command_name.as_str()
    }
}

/// A command decoded from a request.
#[derive(Debug)]
pub enum Command {
    Get(Get),
    SetValue(SetValue),
    Ping(Ping),
    Unknown(Unknown),
}

impl View for Command {
    type V = SpecCommand;

    open spec fn view(&self) -> SpecCommand {
        match self {
            Command::Get(g) => SpecCommand::Get(g@),
            Command::SetValue(s) => SpecCommand::SetValue(s@.0, s@.1),
            Command::Ping(p) => SpecCommand::Ping(
                match p.msg {
                    Some(m) => Some(m@),
                    None => None,
                },
            ),
            Command::Unknown(u) => SpecCommand::Unknown(u@),
        }
    }
}

impl Command {
    /// Decodes a request frame (see [`spec_from_frame`]).
    pub fn from_frame(frame: Frame) -> (res: Result<Command, ParseError>)
        ensures
            match spec_from_frame(frame@) {
                Ok(c) => res matches Ok(cmd) && cmd@ == c,
                Err(e) => res == Err::<Command, ParseError>(e),
            },
    {
        let ghost fv = frame@;
        let mut parse = match Parse::new(frame) {
            Ok(p) => p,
            Err(e) => return Err(e),
        };
        let name = match parse.next_string() {
            Ok(n) => n,
            Err(e) => return Err(e),
        };
        let command_name = to_lowercase(name.as_str());
        let command = if command_name == String::from_str("get") {
            match Get::parse_frames(&mut parse) {
                Ok(g) => Command::Get(g),
                Err(e) => return Err(e),
            }
        } else if command_name == String::from_str("set") {
            match SetValue::parse_frames(&mut parse) {
                Ok(s) => Command::SetValue(s),
                Err(e) => return Err(e),
            }
        } else if command_name == String::from_str("ping") {
            match Ping::parse_frames(&mut parse) {
                Ok(p) => Command::Ping(p),
                Err(e) => return Err(e),
            }
        } else {
            return Ok(Command::Unknown(Unknown::new(command_name)));
        };
        match parse.finish() {
            Ok(()) => {},
            Err(e) => return Err(e),
        }
        Ok(command)
    }

    /// The command's name.
    pub fn get_name(&self) -> (res: &str)
        ensures
            res@ == match self@ {
                SpecCommand::Get(_) => "get"@,
                SpecCommand::SetValue(_, _) => "set"@,
                SpecCommand::Ping(_) => "ping"@,
                SpecCommand::Unknown(n) => n,
            },
    {
        match self {
            Command::Get(_) => "get",
            Command::SetValue(_) => "set",
            Command::Ping(_) => "ping",
            Command::Unknown(cmd) => cmd.get_name(),
        }
    }
}

/// Law: values are binary-safe.  A `SET` whose name and key are text stores
/// exactly the bytes of its value, whatever they are (UTF-8 or not), and a
/// `PING` with a bulk message answers exactly its bytes.
pub proof fn lemma_values_binary_safe(name: Seq<u8>, key: Seq<u8>, d: Seq<u8>)
    requires
        valid_utf8(name),
    ensures
        lowercase_chars(decode_utf8(name)) == "set"@ && valid_utf8(key) ==> spec_from_frame(
            SpecFrame::Array(seq![SpecFrame::Bulk(name), SpecFrame::Bulk(key), SpecFrame::Bulk(d)]),
        ) == Ok::<SpecCommand, ParseError>(SpecCommand::SetValue(decode_utf8(key), d)),
        lowercase_chars(decode_utf8(name)) == "ping"@ ==> spec_from_frame(
            SpecFrame::Array(seq![SpecFrame::Bulk(name), SpecFrame::Bulk(d)]),
        ) == Ok::<SpecCommand, ParseError>(SpecCommand::Ping(Some(d))),
{
    reveal_strlit("get");
    reveal_strlit("set");
    reveal_strlit("ping");
    assert("get"@.len() == 3 && "get"@[0] == 'g');
    assert("set"@.len() == 3 && "set"@[0] == 's');
    assert("ping"@.len() == 4);
    assert("set"@ != "get"@);
}

} // verus!
