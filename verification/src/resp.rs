//! The client side of the RESP protocol: command lines are split into
//! words, turned into commands, then into RESP frames and their bytes.

use vstd::prelude::*;
use bytes::{Bytes, BytesMut};
use vstd::string::StringSliceAdditionalSpecFns;
use crate::buffers::{bytes_as_slice, bytes_from_vec, bytes_mut_from_slice, bytes_mut_view, bytes_view};

verus! {

/// Errors of command handling.
#[derive(Debug, Clone, Copy, PartialEq, Eq, Structural)]
pub enum RespError {
    /// Invalid number of arguments provided for command.
    InvalidArgLength,
    /// Invalid frame provided for command.
    InvalidFrame,
    /// Invalid length provided for command.
    InvalidLength,
    /// Unexpected end of frame.
    UnexpectedEof,
    /// Unknown command provided.
    UnknownCommand,
    /// Invalid flags provided for command.
    InvalidFlags,
    /// Unexpected command provided for command.
    UnexpectedCommand,
}

/// A client command; keys and values are the UTF-8 bytes the user typed.
#[derive(Debug, Clone, PartialEq, Eq)]
pub enum Command {
    GET(Vec<u8>),
    SET(Vec<u8>, Vec<u8>),
    DEL(Vec<u8>),
    PING,
}

/// A RESP frame.
#[derive(Debug)]
pub enum RespFrames {
    SimpleString(Bytes),
    Integer(i64),
    /// Length of bulk string followed by Bytes of that length.
    BulkString(usize, Bytes),
    Array(Vec<Bytes>),
    Error,
    Null,
}

/// The RESP data types, by the byte that introduces them.
#[derive(Debug, Clone, Copy, PartialEq, Eq, Structural)]
pub enum RespDataType {
    SimpleString,
    Integer,
    BulkString,
    Array,
    Error,
}

/// Parsing of RESP replies (no operation yet).
pub trait Decode {}

/// Maps the first byte of a RESP frame to the data type it introduces:
/// `+` simple string, `:` integer, `$` bulk string, `*` array, `-` error;
/// `None` for any other byte. No data type has a handler yet: this function
/// only decides which one a frame would go to, and the caller handles it.
pub fn match_datatype_to_cmd(cmd_type: u8) -> (r: Option<RespDataType>)
    ensures
        r == (if cmd_type == 43 {
            Some(RespDataType::SimpleString)
        } else if cmd_type == 58 {
            Some(RespDataType::Integer)
        } else if cmd_type == 36 {
            Some(RespDataType::BulkString)
        } else if cmd_type == 42 {
            Some(RespDataType::Array)
        } else if cmd_type == 45 {
            Some(RespDataType::Error)
        } else {
            None
        }),
{
    if cmd_type == 43 {
        Some(RespDataType::SimpleString)
    } else if cmd_type == 58 {
        Some(RespDataType::Integer)
    } else if cmd_type == 36 {
        Some(RespDataType::BulkString)
    } else if cmd_type == 42 {
        Some(RespDataType::Array)
    } else if cmd_type == 45 {
        Some(RespDataType::Error)
    } else {
        None
    }
}

// ---------------------------------------------------------------------------
// Splitting a command line into words
// ---------------------------------------------------------------------------

/// The length of the UTF-8 encoded Unicode white-space character (as
/// `char::is_whitespace` defines it) that starts at byte `i` of `s`, or 0.
pub open spec fn ws_len(s: Seq<u8>, i: int) -> int {
    if 0 <= i < s.len() {
        let b = s[i];
        if b == 0x20 || (0x09 <= b && b <= 0x0D) {
            1
        } else if b == 0xC2 && i + 1 < s.len() && (s[i + 1] == 0x85 || s[i + 1] == 0xA0) {
            2
        } else if i + 2 < s.len() && ((b == 0xE1 && s[i + 1] == 0x9A && s[i + 2] == 0x80) || (b
            == 0xE2 && s[i + 1] == 0x80 && ((0x80 <= s[i + 2] && s[i + 2] <= 0x8A) || s[i + 2]
            == 0xA8 || s[i + 2] == 0xA9 || s[i + 2] == 0xAF)) || (b == 0xE2 && s[i + 1] == 0x81
            && s[i + 2] == 0x9F) || (b == 0xE3 && s[i + 1] == 0x80 && s[i + 2] == 0x80)) {
            3
        } else {
            0
        }
    } else {
        0
    }
}

/// The words of `s[i..]`, the first of them continuing `word`: maximal runs
/// of bytes between white space.
pub open spec fn words_from(s: Seq<u8>, i: int, word: Seq<u8>) -> Seq<Seq<u8>>
    decreases s.len() - i,
{
    if i < 0 || i >= s.len() {
        if word.len() > 0 {
            seq![word]
        } else {
            Seq::empty()
        }
    } else if ws_len(s, i) > 0 {
        (if word.len() > 0 {
            seq![word]
        } else {
            Seq::empty()
        }) + words_from(s, i + ws_len(s, i), Seq::empty())
    } else {
        words_from(s, i + 1, word.push(s[i]))
    }
}

/// The words of `s`, as `str::split_whitespace` yields them.
pub open spec fn words(s: Seq<u8>) -> Seq<Seq<u8>> {
    words_from(s, 0, Seq::empty())
}

fn whitespace_len(s: &[u8], i: usize) -> (r: usize)
    requires
        i < s@.len(),
    ensures
        r == ws_len(s@, i as int),
{
    let n = s.len();
    let b = s[i];
    if b == 0x20 || (0x09 <= b && b <= 0x0D) {
        1
    } else if b == 0xC2 && n - i > 1 && (s[i + 1] == 0x85 || s[i + 1] == 0xA0) {
        2
    } else if n - i > 2 {
        let b1 = s[i + 1];
        let b2 = s[i + 2];
        if (b == 0xE1 && b1 == 0x9A && b2 == 0x80) || (b == 0xE2 && b1 == 0x80 && ((0x80 <= b2
            && b2 <= 0x8A) || b2 == 0xA8 || b2 == 0xA9 || b2 == 0xAF)) || (b == 0xE2 && b1 == 0x81
            && b2 == 0x9F) || (b == 0xE3 && b1 == 0x80 && b2 == 0x80) {
            3
        } else {
            0
        }
    } else {
        0
    }
}

/// Splits `s` into its words.
pub fn split_words(s: &[u8]) -> (r: Vec<Vec<u8>>)
    ensures
        r@.map_values(|w: Vec<u8>| w@) == words(s@),
{
    let n = s.len();
    let mut out: Vec<Vec<u8>> = Vec::new();
    let mut word: Vec<u8> = Vec::new();
    let mut i: usize = 0;
    while i < n
        invariant
            n == s@.len(),
            i <= n,
            out@.map_values(|w: Vec<u8>| w@) + words_from(s@, i as int, word@) == words(s@),
        decreases n - i,
    {
        let ghost before = out@.map_values(|w: Vec<u8>| w@);
        let ghost rest = words_from(s@, i as int, word@);
        let w = whitespace_len(s, i);
        if w > 0 {
            let ghost tail = words_from(s@, i + w, Seq::<u8>::empty());
            if word.len() > 0 {
                out.push(word);
                proof {
                    assert(out@.map_values(|w: Vec<u8>| w@) =~= before.push(rest[0]));
                    assert(rest =~= seq![rest[0]] + tail);
                    assert(before + rest =~= before.push(rest[0]) + tail);
                }
            } else {
                proof {
                    assert(rest =~= tail);
                }
            }
            word = Vec::new();
            i = i + w;
            proof {
                assert(word@ =~= Seq::<u8>::empty());
            }
        } else {
            word.push(s[i]);
            i = i + 1;
        }
    }
    if word.len() > 0 {
        let ghost before = out@.map_values(|w: Vec<u8>| w@);
        let ghost last = word@;
        out.push(word);
        proof {
            assert(out@.map_values(|w: Vec<u8>| w@) =~= before + seq![last]);
        }
    } else {
        proof {
            assert(out@.map_values(|w: Vec<u8>| w@) =~= out@.map_values(|w: Vec<u8>| w@) + Seq::<
                Seq<u8>,
            >::empty());
        }
    }
    out
}

// ---------------------------------------------------------------------------
// From words to commands
// ---------------------------------------------------------------------------

/// The commands a client line can name.
#[derive(Debug, Clone, Copy, PartialEq, Eq, Structural)]
pub enum CommandName {
    GetCmd,
    SetCmd,
    DelCmd,
    PingCmd,
}

/// What a client line asks for.
#[derive(Debug, Clone, PartialEq, Eq)]
pub enum ClientInput {
    /// The line holds no word.
    Empty,
    /// The command lacks its key (or value).
    MissingArgs(CommandName),
    /// The first word names no command.
    Unknown(Vec<u8>),
    /// A complete command; words after its arguments are ignored.
    Ready(Command),
}

/// The command that a word names: `GET`, `SET`, `DEL`, `PING`, each in upper
/// or lower case.
pub open spec fn command_word(w: Seq<u8>) -> Option<CommandName> {
    if w == seq![71u8, 69, 84] || w == seq![103u8, 101, 116] {
        Some(CommandName::GetCmd)
    } else if w == seq![83u8, 69, 84] || w == seq![115u8, 101, 116] {
        Some(CommandName::SetCmd)
    } else if w == seq![68u8, 69, 76] || w == seq![100u8, 101, 108] {
        Some(CommandName::DelCmd)
    } else if w == seq![80u8, 73, 78, 71] || w == seq![112u8, 105, 110, 103] {
        Some(CommandName::PingCmd)
    } else {
        None
    }
}

/// Number of words a complete command takes, its name included.
pub open spec fn min_words(n: CommandName) -> int {
    match n {
        CommandName::GetCmd => 2,
        CommandName::SetCmd => 3,
        CommandName::DelCmd => 2,
        CommandName::PingCmd => 1,
    }
}

/// `c` is the command that the words `ws` spell out.
pub open spec fn spells(ws: Seq<Seq<u8>>, c: Command) -> bool {
    &&& ws.len() > 0
    &&& match c {
        Command::GET(k) => command_word(ws[0]) == Some(CommandName::GetCmd) && ws.len() >= 2 && k@
            == ws[1],
        Command::SET(k, v) => command_word(ws[0]) == Some(CommandName::SetCmd) && ws.len() >= 3 && k@
            == ws[1] && v@ == ws[2],
        Command::DEL(k) => command_word(ws[0]) == Some(CommandName::DelCmd) && ws.len() >= 2 && k@
            == ws[1],
        Command::PING => command_word(ws[0]) == Some(CommandName::PingCmd),
    }
}

/// The words of `ws` name a command but lack its arguments.
pub open spec fn lacks_args(ws: Seq<Seq<u8>>) -> bool {
    &&& ws.len() > 0
    &&& command_word(ws[0]) is Some
    &&& ws.len() < min_words(command_word(ws[0])->0)
}

fn word_is(w: &Vec<u8>, a: u8, b: u8, c: u8) -> (r: bool)
    ensures
        r == (w@ == seq![a, b, c]),
{
    let r = w.len() == 3 && w[0] == a && w[1] == b && w[2] == c;
    proof {
        if r {
            assert(w@ =~= seq![a, b, c]);
        }
    }
    r
}

fn word_is4(w: &Vec<u8>, a: u8, b: u8, c: u8, d: u8) -> (r: bool)
    ensures
        r == (w@ == seq![a, b, c, d]),
{
    let r = w.len() == 4 && w[0] == a && w[1] == b && w[2] == c && w[3] == d;
    proof {
        if r {
            assert(w@ =~= seq![a, b, c, d]);
        }
    }
    r
}

fn name_of(w: &Vec<u8>) -> (r: Option<CommandName>)
    ensures
        r == command_word(w@),
{
    if word_is(w, 71, 69, 84) || word_is(w, 103, 101, 116) {
        Some(CommandName::GetCmd)
    } else if word_is(w, 83, 69, 84) || word_is(w, 115, 101, 116) {
        Some(CommandName::SetCmd)
    } else if word_is(w, 68, 69, 76) || word_is(w, 100, 101, 108) {
        Some(CommandName::DelCmd)
    } else if word_is4(w, 80, 73, 78, 71) || word_is4(w, 112, 105, 110, 103) {
        Some(CommandName::PingCmd)
    } else {
        None
    }
}

/// Decides what a client line asks for, from its words.
pub fn classify_input(cli_cmd: &str) -> (r: ClientInput)
    ensures
        ({
            let ws = words(cli_cmd.spec_bytes());
            match r {
                ClientInput::Empty => ws.len() == 0,
                ClientInput::MissingArgs(n) => lacks_args(ws) && command_word(ws[0]) == Some(n),
                ClientInput::Unknown(w) => ws.len() > 0 && command_word(ws[0]) is None && w@
                    == ws[0],
                ClientInput::Ready(c) => spells(ws, c),
            }
        }),
{
    let words = split_words(cli_cmd.as_bytes());
    let ghost ws = words@.map_values(|w: Vec<u8>| w@);
    if words.len() == 0 {
        return ClientInput::Empty;
    }
    proof {
        assert(ws[0] == words@[0]@);
    }
    match name_of(&words[0]) {
        None => ClientInput::Unknown(words[0].clone()),
        Some(CommandName::GetCmd) => {
            if words.len() < 2 {
                ClientInput::MissingArgs(CommandName::GetCmd)
            } else {
                proof {
                    assert(ws[1] == words@[1]@);
                }
                ClientInput::Ready(Command::GET(words[1].clone()))
            }
        },
        Some(CommandName::SetCmd) => {
            if words.len() < 3 {
                ClientInput::MissingArgs(CommandName::SetCmd)
            } else {
                proof {
                    assert(ws[1] == words@[1]@);
                    assert(ws[2] == words@[2]@);
                }
                ClientInput::Ready(Command::SET(words[1].clone(), words[2].clone()))
            }
        },
        Some(CommandName::DelCmd) => {
            if words.len() < 2 {
                ClientInput::MissingArgs(CommandName::DelCmd)
            } else {
                proof {
                    assert(ws[1] == words@[1]@);
                }
                ClientInput::Ready(Command::DEL(words[1].clone()))
            }
        },
        Some(CommandName::PingCmd) => ClientInput::Ready(Command::PING),
    }
}

/// `r` is what a client line with bytes `line` converts to:
/// `InvalidArgLength` for an empty line or a command without its arguments,
/// `UnknownCommand` when the first word names no command, else the command.
pub open spec fn converts_to(line: Seq<u8>, r: Result<Command, RespError>) -> bool {
    let ws = words(line);
    &&& r == Err::<Command, RespError>(RespError::InvalidArgLength) <==> (ws.len() == 0
        || lacks_args(ws))
    &&& r == Err::<Command, RespError>(RespError::UnknownCommand) <==> (ws.len() > 0
        && command_word(ws[0]) is None)
    &&& r is Err ==> r == Err::<Command, RespError>(RespError::InvalidArgLength) || r
        == Err::<Command, RespError>(RespError::UnknownCommand)
    &&& r matches Ok(c) ==> spells(ws, c)
}

/// Turns a client line into a command: `InvalidArgLength` for an empty line
/// or a command without its arguments, `UnknownCommand` when the first word
/// names no command.
pub fn convert_string_to_cmd(cli_cmd: &str) -> (r: Result<Command, RespError>)
    ensures
        converts_to(cli_cmd.spec_bytes(), r),
{
    match classify_input(cli_cmd) {
        ClientInput::Empty => Err(RespError::InvalidArgLength),
        ClientInput::MissingArgs(_) => Err(RespError::InvalidArgLength),
        ClientInput::Unknown(_) => Err(RespError::UnknownCommand),
        ClientInput::Ready(c) => Ok(c),
    }
}

// ---------------------------------------------------------------------------
// From commands to frames and bytes
// ---------------------------------------------------------------------------

/// The length and contents of a bulk-string frame; `None` for other frames.
pub open spec fn bulk_parts(f: RespFrames) -> Option<(usize, Seq<u8>)> {
    match f {
        RespFrames::BulkString(n, b) => Some((n, bytes_view(b))),
        _ => None,
    }
}

/// The frames of a command: its arguments as bulk strings, preceded by the
/// command's lower-case name for `GET` and `SET`; `PING` is its name alone
/// and `DEL` its key alone.
pub open spec fn command_frames(c: Command) -> Seq<Option<(usize, Seq<u8>)>> {
    match c {
        Command::GET(k) => seq![Some((3usize, seq![103u8, 101, 116])), Some((k.len(), k@))],
        Command::SET(k, v) => seq![
            Some((3usize, seq![115u8, 101, 116])),
            Some((k.len(), k@)),
            Some((v.len(), v@)),
        ],
        Command::DEL(k) => seq![Some((k.len(), k@))],
        Command::PING => seq![Some((4usize, seq![112u8, 105, 110, 103]))],
    }
}

fn bulk_frame(data: Vec<u8>) -> (r: RespFrames)
    ensures
        bulk_parts(r) == Some((data.len(), data@)),
{
    let n = data.len();
    RespFrames::BulkString(n, bytes_from_vec(data))
}

/// The RESP frames that carry a command.
pub fn convert_cmd_to_resp_frames(cmd: Command) -> (r: Vec<RespFrames>)
    ensures
        r@.map_values(|f: RespFrames| bulk_parts(f)) == command_frames(cmd),
{
    let ghost c = cmd;
    let mut frames: Vec<RespFrames> = Vec::new();
    match cmd {
        Command::GET(key) => {
            frames.push(bulk_frame(vec![103u8, 101, 116]));
            frames.push(bulk_frame(key));
        },
        Command::SET(key, value) => {
            frames.push(bulk_frame(vec![115u8, 101, 116]));
            frames.push(bulk_frame(key));
            frames.push(bulk_frame(value));
        },
        Command::DEL(key) => {
            frames.push(bulk_frame(key));
        },
        Command::PING => {
            frames.push(bulk_frame(vec![112u8, 105, 110, 103]));
        },
    }
    proof {
        assert(frames@.map_values(|f: RespFrames| bulk_parts(f)) =~= command_frames(c));
    }
    frames
}

/// The decimal digits of `n`, most significant first, in ASCII.
pub open spec fn decimal(n: nat) -> Seq<u8>
    decreases n,
{
    if n < 10 {
        seq![(48 + n) as u8]
    } else {
        decimal(n / 10).push((48 + n % 10) as u8)
    }
}

/// The number that the ASCII decimal digits `s` spell.
pub open spec fn digits_value(s: Seq<u8>) -> int
    decreases s.len(),
{
    if s.len() == 0 {
        0
    } else {
        digits_value(s.drop_last()) * 10 + (s.last() - 48)
    }
}

/// The length field of a bulk string is the shortest decimal rendering of
/// the length: ASCII digits, without a leading zero, that spell it.
pub proof fn lemma_decimal_spells_value(n: nat)
    ensures
        digits_value(decimal(n)) == n,
        decimal(n).len() >= 1,
        decimal(n).len() == 1 <==> n < 10,
        decimal(n).len() > 1 ==> decimal(n)[0] != 48,
        forall|i: int| 0 <= i < decimal(n).len() ==> 48 <= #[trigger] decimal(n)[i] <= 57,
    decreases n,
{
    if n >= 10 {
        lemma_decimal_spells_value(n / 10);
        let d = decimal(n);
        assert(d.drop_last() =~= decimal(n / 10));
        assert(d.last() == (48 + n % 10) as u8);
        assert((48 + n % 10) as u8 == 48 + n % 10);
        vstd::arithmetic::div_mod::lemma_fundamental_div_mod(n as int, 10);
        assert(digits_value(d) == digits_value(decimal(n / 10)) * 10 + (d.last() - 48));
        assert forall|i: int| 0 <= i < d.len() implies 48 <= #[trigger] d[i] <= 57 by {
            if i < d.len() - 1 {
                assert(d[i] == decimal(n / 10)[i]);
            }
        }
        assert(d[0] == decimal(n / 10)[0]);
        if n / 10 < 10 {
            assert(decimal(n / 10) == seq![(48 + n / 10) as u8]);
        }
        assert(d.len() > 1);
        assert(d[0] != 48);
        assert(digits_value(d) == n);
    } else {
        let d = decimal(n);
        assert(d == seq![(48 + n) as u8]);
        assert(d.drop_last() =~= Seq::<u8>::empty());
        assert(digits_value(Seq::<u8>::empty()) == 0);
        assert(digits_value(d) == digits_value(d.drop_last()) * 10 + (d.last() - 48));
    }
}

/// The RESP encoding of a bulk string: `$`, the length in decimal, CRLF,
/// the bytes, CRLF.
pub open spec fn bulk_encoding(len: usize, data: Seq<u8>) -> Seq<u8> {
    seq![36u8] + decimal(len as nat) + seq![13u8, 10] + data + seq![13u8, 10]
}

/// The encodings of the bulk-string frames of `fs`, one after the other.
pub open spec fn frames_encoding(fs: Seq<RespFrames>) -> Seq<u8>
    decreases fs.len(),
{
    if fs.len() == 0 {
        Seq::empty()
    } else {
        frames_encoding(fs.drop_last()) + match bulk_parts(fs.last()) {
            Some((n, d)) => bulk_encoding(n, d),
            None => Seq::empty(),
        }
    }
}

fn push_decimal(out: &mut Vec<u8>, n: usize)
    ensures
        final(out)@ == old(out)@ + decimal(n as nat),
    decreases n,
{
    if n >= 10 {
        push_decimal(out, n / 10);
    }
    out.push(48 + (n % 10) as u8);
    proof {
        if n < 10 {
            assert(out@ =~= old(out)@ + decimal(n as nat));
        } else {
            assert(out@ =~= old(out)@ + decimal(n as nat));
        }
    }
}

fn push_bytes(out: &mut Vec<u8>, s: &[u8])
    ensures
        final(out)@ == old(out)@ + s@,
{
    let mut i: usize = 0;
    while i < s.len()
        invariant
            i <= s@.len(),
            out@ == old(out)@ + s@.subrange(0, i as int),
        decreases s@.len() - i,
    {
        out.push(s[i]);
        i = i + 1;
        proof {
            assert(out@ =~= old(out)@ + s@.subrange(0, i as int));
        }
    }
    proof {
        assert(s@.subrange(0, s@.len() as int) =~= s@);
    }
}

/// Encodes the frames, all bulk strings, as RESP bytes. Other frames have
/// no encoding yet.
pub fn convert_resp_frames_to_bytes(resp: &[RespFrames]) -> (r: BytesMut)
    requires
        forall|i: int| 0 <= i < resp@.len() ==> bulk_parts(#[trigger] resp@[i]) is Some,
    ensures
        bytes_mut_view(r) == frames_encoding(resp@),
{
    let mut out: Vec<u8> = Vec::new();
    let mut i: usize = 0;
    while i < resp.len()
        invariant
            i <= resp@.len(),
            out@ == frames_encoding(resp@.subrange(0, i as int)),
            forall|j: int| 0 <= j < resp@.len() ==> bulk_parts(#[trigger] resp@[j]) is Some,
        decreases resp@.len() - i,
    {
        let ghost before = out@;
        match &resp[i] {
            RespFrames::BulkString(len, buf) => {
                out.push(36u8);
                push_decimal(&mut out, *len);
                out.push(13u8);
                out.push(10u8);
                push_bytes(&mut out, bytes_as_slice(buf));
                out.push(13u8);
                out.push(10u8);
                proof {
                    let p = resp@.subrange(0, i + 1);
                    assert(p.drop_last() =~= resp@.subrange(0, i as int));
                    assert(p.last() == resp@[i as int]);
                    assert(out@ =~= before + bulk_encoding(*len, bytes_view(*buf)));
                }
            },
            _ => {
                proof {
                    assert(bulk_parts(resp@[i as int]) is Some);
                }
            },
        }
        i = i + 1;
    }
    proof {
        assert(resp@.subrange(0, resp@.len() as int) =~= resp@);
    }
    bytes_mut_from_slice(out.as_slice())
}

/// Builds the frames of a `GET` command; `UnexpectedCommand` for any other
/// command.
pub fn handle_get_client(cmd: Command) -> (r: Result<Vec<RespFrames>, RespError>)
    ensures
        r is Ok <==> cmd is GET,
        r is Err ==> r == Err::<Vec<RespFrames>, RespError>(RespError::UnexpectedCommand),
        r matches Ok(fs) ==> fs@.map_values(|f: RespFrames| bulk_parts(f)) == command_frames(cmd),
{
    match cmd {
        Command::GET(_) => Ok(convert_cmd_to_resp_frames(cmd)),
        _ => Err(RespError::UnexpectedCommand),
    }
}

/// The arguments of a command travel unchanged: each key and value has a
/// bulk-string frame that holds exactly its bytes and gives its length, as
/// the last frames, after the command's lower-case name for `GET` and `SET`
/// (`PING` is its name alone); and the RESP bytes of those frames end with the last
/// argument's bytes followed by CRLF.
pub proof fn lemma_command_frames_carry_arguments(c: Command, fs: Seq<RespFrames>)
    requires
        fs.map_values(|f: RespFrames| bulk_parts(f)) == command_frames(c),
    ensures
        match c {
            Command::GET(k) => fs.len() == 2 && bulk_parts(fs[1]) == Some((k.len(), k@))
                && bulk_parts(fs[0]) == Some((3usize, seq![103u8, 101, 116])),
            Command::SET(k, v) => fs.len() == 3 && bulk_parts(fs[1]) == Some((k.len(), k@))
                && bulk_parts(fs[2]) == Some((v.len(), v@)) && bulk_parts(fs[0]) == Some(
                (3usize, seq![115u8, 101, 116]),
            ),
            Command::DEL(k) => fs.len() == 1 && bulk_parts(fs[0]) == Some((k.len(), k@)),
            Command::PING => fs.len() == 1 && bulk_parts(fs[0]) == Some(
                (4usize, seq![112u8, 105, 110, 103]),
            ),
        },
        match c {
            Command::GET(k) => frames_encoding(fs).len() >= k@.len() + 2 && frames_encoding(
                fs,
            ).subrange(frames_encoding(fs).len() - k@.len() - 2, frames_encoding(fs).len() as int)
                == k@ + seq![13u8, 10],
            Command::SET(_, v) => frames_encoding(fs).len() >= v@.len() + 2 && frames_encoding(
                fs,
            ).subrange(frames_encoding(fs).len() - v@.len() - 2, frames_encoding(fs).len() as int)
                == v@ + seq![13u8, 10],
            Command::DEL(k) => frames_encoding(fs).len() >= k@.len() + 2 && frames_encoding(
                fs,
            ).subrange(frames_encoding(fs).len() - k@.len() - 2, frames_encoding(fs).len() as int)
                == k@ + seq![13u8, 10],
            Command::PING => true,
        },
{
    let m = fs.map_values(|f: RespFrames| bulk_parts(f));
    assert(fs.len() == m.len());
    assert forall|i: int| 0 <= i < fs.len() implies bulk_parts(fs[i]) == #[trigger] m[i] by {}
    if fs.len() > 0 {
        let last = fs.last();
        assert(bulk_parts(last) == m[fs.len() - 1]);
        match bulk_parts(last) {
            Some((n, d)) => {
                let e = frames_encoding(fs);
                let pre = frames_encoding(fs.drop_last());
                let b = bulk_encoding(n, d);
                assert(e == pre + b);
                let tail = d + seq![13u8, 10];
                let head = seq![36u8] + decimal(n as nat) + seq![13u8, 10];
                assert(b =~= head + tail);
                assert(e.subrange(e.len() - tail.len(), e.len() as int) =~= tail);
            },
            None => {},
        }
    }
}

/// A byte sequence `w` has a Unicode white-space character (as
/// `char::is_whitespace` accepts it) encoded in UTF-8 starting at index `j`.
pub open spec fn white_space_at(w: Seq<u8>, j: int) -> bool {
    ||| 0 <= j < w.len() && (w[j] == 0x20 || w[j] == 0x09 || w[j] == 0x0A || w[j] == 0x0B
        || w[j] == 0x0C || w[j] == 0x0D)
    ||| 0 <= j && j + 1 < w.len() && w[j] == 0xC2 && (w[j + 1] == 0x85 || w[j + 1] == 0xA0)
    ||| 0 <= j && j + 2 < w.len() && w[j] == 0xE1 && w[j + 1] == 0x9A && w[j + 2] == 0x80
    ||| 0 <= j && j + 2 < w.len() && w[j] == 0xE2 && w[j + 1] == 0x80 && (w[j + 2] <= 0x8A
        && w[j + 2] >= 0x80 || w[j + 2] == 0xA8 || w[j + 2] == 0xA9 || w[j + 2] == 0xAF)
    ||| 0 <= j && j + 2 < w.len() && w[j] == 0xE2 && w[j + 1] == 0x81 && w[j + 2] == 0x9F
    ||| 0 <= j && j + 2 < w.len() && w[j] == 0xE3 && w[j + 1] == 0x80 && w[j + 2] == 0x80
}

/// `w` is a word: non-empty and free of white space.
pub open spec fn is_word(w: Seq<u8>) -> bool {
    w.len() > 0 && forall|j: int| 0 <= j < w.len() ==> !white_space_at(w, j)
}

proof fn lemma_piece_is_word(s: Seq<u8>, start: int, end: int)
    requires
        0 <= start < end <= s.len(),
        forall|k: int| start <= k < end ==> ws_len(s, k) == 0,
    ensures
        is_word(s.subrange(start, end)),
{
    let w = s.subrange(start, end);
    assert forall|j: int| 0 <= j < w.len() implies !white_space_at(w, j) by {
        assert(ws_len(s, start + j) == 0);
        assert(w[j] == s[start + j]);
        if j + 1 < w.len() {
            assert(w[j + 1] == s[start + j + 1]);
        }
        if j + 2 < w.len() {
            assert(w[j + 2] == s[start + j + 2]);
        }
    }
}

proof fn lemma_words_from_are_words(s: Seq<u8>, start: int, i: int)
    requires
        0 <= start <= i <= s.len(),
        forall|k: int| start <= k < i ==> ws_len(s, k) == 0,
    ensures
        forall|t: int|
            0 <= t < words_from(s, i, s.subrange(start, i)).len() ==> is_word(
                #[trigger] words_from(s, i, s.subrange(start, i))[t],
            ),
    decreases s.len() - i,
{
    let word = s.subrange(start, i);
    let r = words_from(s, i, word);
    if start < i {
        lemma_piece_is_word(s, start, i);
    }
    if i >= s.len() {
        if word.len() > 0 {
            assert(r == seq![word]);
            assert forall|t: int| 0 <= t < r.len() implies is_word(#[trigger] r[t]) by {
                assert(r[t] == word);
            }
        } else {
            assert(r.len() == 0);
        }
    } else if ws_len(s, i) > 0 {
        let j = i + ws_len(s, i);
        lemma_words_from_are_words(s, j, j);
        assert(s.subrange(j, j) =~= Seq::<u8>::empty());
        let rest = words_from(s, j, Seq::empty());
        let head: Seq<Seq<u8>> = if word.len() > 0 {
            seq![word]
        } else {
            Seq::empty()
        };
        assert(r == head + rest);
        assert forall|t: int| 0 <= t < r.len() implies is_word(#[trigger] r[t]) by {
            if t < head.len() {
                assert(r[t] == word);
            } else {
                assert(r[t] == rest[t - head.len()]);
            }
        }
        assert(forall|t: int| 0 <= t < r.len() ==> is_word(#[trigger] r[t]));
    } else {
        assert(word.push(s[i]) =~= s.subrange(start, i + 1));
        assert(r == words_from(s, i + 1, word.push(s[i])));
        lemma_words_from_are_words(s, start, i + 1);
        assert(forall|t: int| 0 <= t < r.len() ==> is_word(#[trigger] r[t]));
    }
}

/// The words of a line are those of `str::split_whitespace`: each is
/// non-empty and holds no white-space character, a carriage return or a
/// no-break space no more than a blank.
pub proof fn lemma_words_hold_no_white_space(s: Seq<u8>)
    ensures
        forall|t: int| 0 <= t < words(s).len() ==> is_word(#[trigger] words(s)[t]),
{
    assert(s.subrange(0, 0) =~= Seq::<u8>::empty());
    lemma_words_from_are_words(s, 0, 0);
}

proof fn lemma_words_from_run(s: Seq<u8>, i: int)
    requires
        0 <= i <= s.len(),
        s.len() > 0,
        forall|j: int| 0 <= j < s.len() ==> !white_space_at(s, j),
    ensures
        words_from(s, i, s.subrange(0, i)) == seq![s],
    decreases s.len() - i,
{
    if i < s.len() {
        assert(ws_len(s, i) == 0) by {
            assert(!white_space_at(s, i));
        }
        assert(s.subrange(0, i).push(s[i]) =~= s.subrange(0, i + 1));
        lemma_words_from_run(s, i + 1);
    } else {
        assert(s.subrange(0, i) =~= s);
    }
}

/// A non-empty line without white space is a single word: the whole line.
pub proof fn lemma_line_without_white_space_is_one_word(s: Seq<u8>)
    requires
        s.len() > 0,
        forall|j: int| 0 <= j < s.len() ==> !white_space_at(s, j),
    ensures
        words(s) == seq![s],
{
    assert(s.subrange(0, 0) =~= Seq::<u8>::empty());
    lemma_words_from_run(s, 0);
}

/// `w` with every ASCII lower-case letter made upper-case.
pub open spec fn ascii_upper(w: Seq<u8>) -> Seq<u8> {
    w.map_values(|b: u8| if 97 <= b && b <= 122 { (b - 32) as u8 } else { b })
}

/// Every byte of `w` is an ASCII lower-case letter.
pub open spec fn all_lower(w: Seq<u8>) -> bool {
    forall|j: int| 0 <= j < w.len() ==> 97 <= #[trigger] w[j] <= 122
}

/// Every byte of `w` is an ASCII upper-case letter.
pub open spec fn all_upper(w: Seq<u8>) -> bool {
    forall|j: int| 0 <= j < w.len() ==> 65 <= #[trigger] w[j] <= 90
}

/// Command names are read in upper or in lower case alike: `GET`, `SET`,
/// `DEL` and `PING` name their commands, a lower-case word names what its
/// upper-case spelling names, and a word that mixes the cases, or holds
/// anything but letters, names nothing.
pub proof fn lemma_command_word_case(w: Seq<u8>)
    ensures
        command_word(seq![71u8, 69, 84]) == Some(CommandName::GetCmd),
        command_word(seq![83u8, 69, 84]) == Some(CommandName::SetCmd),
        command_word(seq![68u8, 69, 76]) == Some(CommandName::DelCmd),
        command_word(seq![80u8, 73, 78, 71]) == Some(CommandName::PingCmd),
        all_lower(w) ==> command_word(w) == command_word(ascii_upper(w)),
        command_word(w) is Some ==> all_lower(w) || all_upper(w),
{
    let u = ascii_upper(w);
    if all_lower(w) {
        assert(u.len() == w.len());
        assert forall|j: int| 0 <= j < w.len() implies #[trigger] u[j] == w[j] - 32 by {}
        if w.len() == 3 {
            assert(w =~= seq![w[0], w[1], w[2]]);
            assert(u =~= seq![(w[0] - 32) as u8, (w[1] - 32) as u8, (w[2] - 32) as u8]);
        } else if w.len() == 4 {
            assert(w =~= seq![w[0], w[1], w[2], w[3]]);
            assert(u =~= seq![
                (w[0] - 32) as u8,
                (w[1] - 32) as u8,
                (w[2] - 32) as u8,
                (w[3] - 32) as u8,
            ]);
        } else {
            assert(w.len() != seq![71u8, 69, 84].len());
            assert(w.len() != seq![80u8, 73, 78, 71].len());
            assert(u.len() != seq![71u8, 69, 84].len());
            assert(u.len() != seq![80u8, 73, 78, 71].len());
        }
    }
    if command_word(w) is Some {
        if w.len() == 3 {
            assert(w =~= seq![w[0], w[1], w[2]]);
        } else if w.len() == 4 {
            assert(w =~= seq![w[0], w[1], w[2], w[3]]);
        } else {
            assert(w.len() != seq![71u8, 69, 84].len());
            assert(w.len() != seq![80u8, 73, 78, 71].len());
        }
    }
}

/// The client-side encoding of commands, for types that send them. Every
/// method comes with its implementation.
pub trait Encode {
    /// Turns a client line into a command; see [`convert_string_to_cmd`].
    fn convert_string_to_cmd(cli_cmd: &str) -> (r: Result<Command, RespError>)
        ensures
            converts_to(cli_cmd.spec_bytes(), r),
    {
        convert_string_to_cmd(cli_cmd)
    }

    /// The RESP frames that carry a command; see
    /// [`convert_cmd_to_resp_frames`].
    fn convert_cmd_to_resp_frames(cmd: Command) -> (r: Vec<RespFrames>)
        ensures
            r@.map_values(|f: RespFrames| bulk_parts(f)) == command_frames(cmd),
    {
        convert_cmd_to_resp_frames(cmd)
    }

    /// Encodes bulk-string frames as RESP bytes; see
    /// [`convert_resp_frames_to_bytes`].
    fn convert_resp_frames_to_bytes(resp: &[RespFrames]) -> (r: BytesMut)
        requires
            forall|i: int| 0 <= i < resp@.len() ==> bulk_parts(#[trigger] resp@[i]) is Some,
        ensures
            bytes_mut_view(r) == frames_encoding(resp@),
    {
        convert_resp_frames_to_bytes(resp)
    }

    /// Builds the frames of a `GET` command; see [`handle_get_client`].
    fn handle_get_client(cmd: Command) -> (r: Result<Vec<RespFrames>, RespError>)
        ensures
            r is Ok <==> cmd is GET,
            r is Err ==> r == Err::<Vec<RespFrames>, RespError>(RespError::UnexpectedCommand),
            r matches Ok(fs) ==> fs@.map_values(|f: RespFrames| bulk_parts(f)) == command_frames(
                cmd,
            ),
    {
        handle_get_client(cmd)
    }

    /// Handles a `SET` command: nothing to do on the client side yet.
    fn handle_set_client(cmd: Command) {
    }

    /// Handles a `DEL` command: nothing to do on the client side yet.
    fn handle_del_client(cmd: Command) {
    }

    /// Handles a `PING` command: nothing to do on the client side yet.
    fn handle_ping_client() {
    }
}

/// A RESP client that uses the encoding as it comes.
pub struct RespClient;

impl Encode for RespClient {

}

} // verus!
