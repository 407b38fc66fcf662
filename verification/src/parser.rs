//! Effect server v1 message format parser.
//!
//! A message is a version byte (always `1`) followed by frames until the
//! buffer is exhausted.  A frame is a tag byte: tag `0` starts a nickname
//! frame (bytes up to a terminating NUL, decoded as lossy UTF-8), tag `1`
//! starts a five-byte light frame (id, light type, red, green, blue).
//! Running out of bytes right before a tag is the normal end of a message;
//! running out mid-frame is an error.

use vstd::prelude::*;

verus! {

/// Spec-level lossy UTF-8 decoding, the meaning of [`String::from_utf8_lossy`].
/// On sequences that are valid UTF-8 it agrees with [`vstd::utf8::decode_utf8`];
/// invalid sequences are replaced, byte runs mapping to replacement characters.
pub uninterp spec fn lossy_utf8(bytes: Seq<u8>) -> Seq<char>;

/// Relies on `String::from_utf8_lossy`: a pure function of the input bytes,
/// equal to UTF-8 decoding whenever the input is valid UTF-8.
#[verifier::external_body]
pub(crate) fn lossy_string(bytes: &Vec<u8>) -> (r: String)
    ensures
        r@ == lossy_utf8(bytes@),
        vstd::utf8::valid_utf8(bytes@) ==> r@ == vstd::utf8::decode_utf8(bytes@),
{
    String::from_utf8_lossy(bytes).to_string()
}

/// Abstract commands recognized by the command mapper.
pub enum Command {
    /// Set nick for the next commands.
    Nick { nick: String },
    /// Set an RGB light's state.
    RgbLight { id: u8, light_type: u8, red: u8, green: u8, blue: u8 },
}

/// Spec-level counterpart of [`Command`]: the nick is already decoded to
/// characters.
#[verifier::ext_equal]
pub enum SpecCommand {
    Nick { nick: Seq<char> },
    RgbLight { id: u8, light_type: u8, red: u8, green: u8, blue: u8 },
}

impl View for Command {
    type V = SpecCommand;

    open spec fn view(&self) -> SpecCommand {
        match self {
            Command::Nick { nick } => SpecCommand::Nick { nick: nick@ },
            Command::RgbLight { id, light_type, red, green, blue } => SpecCommand::RgbLight {
                id: *id,
                light_type: *light_type,
                red: *red,
                green: *green,
                blue: *blue,
            },
        }
    }
}

pub type ParserResult<T> = Result<T, ParserError>;

#[derive(Debug, Clone, Copy, PartialEq, Eq, Structural)]
pub enum ParserError {
    InvalidProtocolVersion(u8),
    UnsupportedLightType(u8),
    UnknownCommand(u8),
    /// The buffer ended in the middle of a frame (or before the version byte).
    Truncated,
}

/// Index of the first NUL byte at or after `i`, if any.
pub open spec fn find_nul(bytes: Seq<u8>, i: int) -> Option<int>
    recommends
        0 <= i <= bytes.len(),
    decreases bytes.len() - i when 0 <= i <= bytes.len()
{
    if i >= bytes.len() {
        None
    } else if bytes[i] == 0 {
        Some(i)
    } else {
        find_nul(bytes, i + 1)
    }
}

/// The first NUL at or after `i` lies between `i` and the end of the buffer,
/// and nothing before it is NUL.
pub proof fn lemma_find_nul(bytes: Seq<u8>, i: int)
    requires
        0 <= i <= bytes.len(),
    ensures
        match find_nul(bytes, i) {
            Some(k) => i <= k < bytes.len() && bytes[k] == 0 && (forall|j: int|
                i <= j < k ==> bytes[j] != 0),
            None => forall|j: int| i <= j < bytes.len() ==> bytes[j] != 0,
        },
    decreases bytes.len() - i,
{
    if i < bytes.len() && bytes[i] != 0 {
        lemma_find_nul(bytes, i + 1);
    }
}

/// Decode the frames of `bytes` starting at position `i` (just past the
/// version byte).  Returns the commands decoded before the first error, and
/// the error, if any.  The buffer running out immediately before a tag byte
/// is the normal end of a message, not an error.
pub open spec fn decode_cmds(bytes: Seq<u8>, i: int) -> (Seq<SpecCommand>, Option<ParserError>)
    recommends
        0 <= i <= bytes.len(),
    decreases bytes.len() - i when 0 <= i <= bytes.len() via decode_cmds_decreases
{
    if i >= bytes.len() {
        (Seq::empty(), None)
    } else if bytes[i] == 0 {
        match find_nul(bytes, i + 1) {
            None => (Seq::empty(), Some(ParserError::Truncated)),
            Some(k) => {
                let cmd = SpecCommand::Nick { nick: lossy_utf8(bytes.subrange(i + 1, k)) };
                let (rest, err) = decode_cmds(bytes, k + 1);
                (seq![cmd] + rest, err)
            },
        }
    } else if bytes[i] == 1 {
        if i + 3 > bytes.len() {
            (Seq::empty(), Some(ParserError::Truncated))
        } else if bytes[i + 2] != 0 {
            (Seq::empty(), Some(ParserError::UnsupportedLightType(bytes[i + 2])))
        } else if i + 6 > bytes.len() {
            (Seq::empty(), Some(ParserError::Truncated))
        } else {
            let cmd = SpecCommand::RgbLight {
                id: bytes[i + 1],
                light_type: bytes[i + 2],
                red: bytes[i + 3],
                green: bytes[i + 4],
                blue: bytes[i + 5],
            };
            let (rest, err) = decode_cmds(bytes, i + 6);
            (seq![cmd] + rest, err)
        }
    } else {
        (Seq::empty(), Some(ParserError::UnknownCommand(bytes[i])))
    }
}

#[via_fn]
proof fn decode_cmds_decreases(bytes: Seq<u8>, i: int) {
    if i < bytes.len() && bytes[i] == 0 {
        lemma_find_nul(bytes, i + 1);
    }
}

/// Decode a whole message: version byte, then frames.  Any version other
/// than `1` rejects the message outright.
pub open spec fn spec_parse(bytes: Seq<u8>) -> (Seq<SpecCommand>, Option<ParserError>) {
    if bytes.len() == 0 {
        (Seq::empty(), Some(ParserError::Truncated))
    } else if bytes[0] != 1 {
        (Seq::empty(), Some(ParserError::InvalidProtocolVersion(bytes[0])))
    } else {
        decode_cmds(bytes, 1)
    }
}

/// Command buffer and message parser.
pub struct CommandParser {
    /// Commands parsed so far.
    pub cmds: Vec<Command>,
}

impl View for CommandParser {
    type V = Seq<SpecCommand>;

    open spec fn view(&self) -> Seq<SpecCommand> {
        self.cmds@.map_values(|c: Command| c@)
    }
}

impl CommandParser {
    pub fn new() -> (r: CommandParser)
        ensures
            r@ =~= Seq::<SpecCommand>::empty(),
    {
        CommandParser { cmds: vec![] }
    }

    /// Parse one whole message out of `buf`, replacing the command buffer.
    /// On an error the commands decoded before it remain in `cmds`, but the
    /// whole message must be treated as failed.
    pub fn read_from(&mut self, buf: &[u8]) -> (r: ParserResult<()>)
        ensures
            ({
                let (cs, err) = spec_parse(buf@);
                &&& final(self)@ =~= cs
                &&& match err {
                    None => r == ParserResult::<()>::Ok(()),
                    Some(e) => r == ParserResult::<()>::Err(e),
                }
            }),
    {
        self.cmds.clear();
        let mut pos: usize = 0;
        if let Err(e) = self.read_header(buf, &mut pos) {
            return Err(e);
        }
        loop
            invariant
                1 <= pos <= buf@.len(),
                buf@.len() >= 1 && buf@[0] == 1,
                decode_cmds(buf@, 1).0 =~= self@ + decode_cmds(buf@, pos as int).0,
                decode_cmds(buf@, 1).1 == decode_cmds(buf@, pos as int).1,
            decreases buf@.len() - pos,
        {
            let ghost pre = self@;
            let ghost prepos = pos as int;
            match self.read_cmd(buf, &mut pos) {
                Ok(true) => {
                    proof {
                        let (cs1, e1) = decode_cmds(buf@, prepos);
                        let (cs2, e2) = decode_cmds(buf@, pos as int);
                        assert(self@ =~= pre.push(self@.last()));
                        assert(pre + cs1 =~= self@ + cs2);
                    }
                },
                Ok(false) => {
                    return Ok(());
                },
                Err(e) => {
                    return Err(e);
                },
            }
        }
    }

    /// Check the version byte.  The only accepted protocol version is `1`.
    fn read_header(&mut self, buf: &[u8], pos: &mut usize) -> (r: ParserResult<()>)
        requires
            *old(pos) == 0,
        ensures
            *final(self) == *old(self),
            match r {
                Ok(_) => buf@.len() >= 1 && buf@[0] == 1 && *final(pos) == 1,
                Err(e) => (buf@.len() == 0 && e == ParserError::Truncated) || (buf@.len() >= 1
                    && buf@[0] != 1 && e == ParserError::InvalidProtocolVersion(buf@[0])),
            },
    {
        if buf.len() == 0 {
            return Err(ParserError::Truncated);
        }
        let v = buf[0];
        if v == 1 {
            *pos = 1;
            Ok(())
        } else {
            Err(ParserError::InvalidProtocolVersion(v))
        }
    }

    /// Read the next command, if there is any data left.
    /// Returns `Ok(false)` on end-of-data.
    fn read_cmd(&mut self, buf: &[u8], pos: &mut usize) -> (r: ParserResult<bool>)
        requires
            *old(pos) <= buf@.len(),
        ensures
            ({
                let i = *old(pos) as int;
                let (cs, err) = decode_cmds(buf@, i);
                match r {
                    Ok(more) => if more {
                        &&& i < *final(pos) <= buf@.len()
                        &&& final(self)@.len() == old(self)@.len() + 1
                        &&& final(self)@.take(old(self)@.len() as int) =~= old(self)@
                        &&& ({
                            let (rest, err2) = decode_cmds(buf@, *final(pos) as int);
                            cs =~= seq![final(self)@.last()] + rest && err == err2
                        })
                    } else {
                        &&& i == buf@.len()
                        &&& *final(self) == *old(self)
                        &&& *final(pos) == *old(pos)
                    },
                    Err(e) => {
                        &&& *final(self) == *old(self)
                        &&& cs =~= Seq::<SpecCommand>::empty()
                        &&& err == Some(e)
                    },
                }
            }),
    {
        let i = *pos;
        if i >= buf.len() {
            // Running out of data right before a command tag is ok.
            return Ok(false);
        }
        let tag = buf[i];
        *pos = i + 1;
        if tag == 0 {
            let res = self.read_cmd_nick(buf, pos);
            proof {
                lemma_find_nul(buf@, i + 1);
                match find_nul(buf@, i + 1) {
                    Some(k) => {
                        let (rest, err2) = decode_cmds(buf@, k + 1);
                        assert(decode_cmds(buf@, i as int).0 =~= seq![
                            SpecCommand::Nick { nick: lossy_utf8(buf@.subrange(i + 1, k)) },
                        ] + rest);
                        assert(decode_cmds(buf@, i as int).1 == err2);
                    },
                    None => {
                        assert(decode_cmds(buf@, i as int).0 =~= Seq::<SpecCommand>::empty());
                        assert(decode_cmds(buf@, i as int).1 == Some(ParserError::Truncated));
                    },
                }
            }
            match res {
                Ok(_) => Ok(true),
                Err(e) => Err(e),
            }
        } else if tag == 1 {
            let res = self.read_cmd_light(buf, pos);
            proof {
                let p = i + 1 as int;
                let n = buf@.len() as int;
                if n >= p + 2 && buf@[p + 1] == 0 && n >= p + 5 {
                    let (rest, err2) = decode_cmds(buf@, p + 5);
                    assert(decode_cmds(buf@, i as int).0 =~= seq![
                        SpecCommand::RgbLight {
                            id: buf@[p],
                            light_type: buf@[p + 1],
                            red: buf@[p + 2],
                            green: buf@[p + 3],
                            blue: buf@[p + 4],
                        },
                    ] + rest);
                    assert(decode_cmds(buf@, i as int).1 == err2);
                } else {
                    assert(decode_cmds(buf@, i as int).0 =~= Seq::<SpecCommand>::empty());
                }
            }
            match res {
                Ok(_) => Ok(true),
                Err(e) => Err(e),
            }
        } else {
            return Err(ParserError::UnknownCommand(tag));
        }
    }

    /// Read a nickname command: bytes up to a NUL terminator, decoded as
    /// lossy UTF-8.
    fn read_cmd_nick(&mut self, buf: &[u8], pos: &mut usize) -> (r: ParserResult<()>)
        requires
            *old(pos) <= buf@.len(),
        ensures
            ({
                let s = *old(pos) as int;
                match find_nul(buf@, s) {
                    Some(k) => r == ParserResult::<()>::Ok(()) && *final(pos) == k + 1
                        && final(self)@ =~= old(self)@.push(
                        SpecCommand::Nick { nick: lossy_utf8(buf@.subrange(s, k)) },
                    ),
                    None => r == ParserResult::<()>::Err(ParserError::Truncated)
                        && *final(self) == *old(self),
                }
            }),
    {
        let start = *pos;
        let mut tmp: Vec<u8> = Vec::new();
        let mut j = start;
        // Read bytes until we hit a zero.
        loop
            invariant
                start == *old(pos),
                start <= j <= buf@.len(),
                tmp@ =~= buf@.subrange(start as int, j as int),
                find_nul(buf@, start as int) == find_nul(buf@, j as int),
                *pos == start,
                *self == *old(self),
            decreases buf@.len() - j,
        {
            if j >= buf.len() {
                proof {
                    assert(find_nul(buf@, j as int) is None);
                }
                return Err(ParserError::Truncated);
            }
            let byte = buf[j];
            if byte == 0 {
                proof {
                    assert(find_nul(buf@, j as int) == Some(j as int));
                }
                let nick = lossy_string(&tmp);
                let ghost pre = self@;
                self.cmds.push(Command::Nick { nick });
                *pos = j + 1;
                proof {
                    assert(self@ =~= pre.push(
                        SpecCommand::Nick { nick: lossy_utf8(buf@.subrange(start as int, j as int)) },
                    ));
                }
                return Ok(());
            }
            tmp.push(byte);
            proof {
                assert(find_nul(buf@, j as int) == find_nul(buf@, j + 1));
                assert(tmp@ =~= buf@.subrange(start as int, j + 1 as int));
            }
            j = j + 1;
        }
    }

    /// Read a basic light command from the buffer.  A light type other than
    /// `0` (set RGB color) rejects the whole message.
    fn read_cmd_light(&mut self, buf: &[u8], pos: &mut usize) -> (r: ParserResult<()>)
        requires
            *old(pos) <= buf@.len(),
        ensures
            ({
                let p = *old(pos) as int;
                let n = buf@.len() as int;
                if n < p + 2 {
                    r == ParserResult::<()>::Err(ParserError::Truncated)
                        && *final(self) == *old(self)
                } else if buf@[p + 1] != 0 {
                    r == ParserResult::<()>::Err(
                        ParserError::UnsupportedLightType(buf@[p + 1]),
                    ) && *final(self) == *old(self)
                } else if n < p + 5 {
                    r == ParserResult::<()>::Err(ParserError::Truncated)
                        && *final(self) == *old(self)
                } else {
                    r == ParserResult::<()>::Ok(()) && *final(pos) == p + 5
                        && final(self)@ =~= old(self)@.push(
                        SpecCommand::RgbLight {
                            id: buf@[p],
                            light_type: buf@[p + 1],
                            red: buf@[p + 2],
                            green: buf@[p + 3],
                            blue: buf@[p + 4],
                        },
                    )
                }
            }),
    {
        let p = *pos;
        if buf.len() - p < 2 {
            return Err(ParserError::Truncated);
        }
        let id = buf[p];
        let light_type = buf[p + 1];
        if light_type != 0 {
            return Err(ParserError::UnsupportedLightType(light_type));
        }
        if buf.len() - p < 5 {
            return Err(ParserError::Truncated);
        }
        let ghost pre = self@;
        self.cmds.push(
            Command::RgbLight {
                id,
                light_type,
                red: buf[p + 2],
                green: buf[p + 3],
                blue: buf[p + 4],
            },
        );
        *pos = p + 5;
        proof {
            assert(self@ =~= pre.push(
                SpecCommand::RgbLight {
                    id: buf@[p as int],
                    light_type: buf@[p + 1],
                    red: buf@[p + 2],
                    green: buf@[p + 3],
                    blue: buf@[p + 4],
                },
            ));
        }
        Ok(())
    }
}

} // verus!
