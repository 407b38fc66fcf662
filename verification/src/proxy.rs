//! Relay device: buffers light commands and re-encodes them, on flush, as a
//! single outbound message toward an upstream effect server.  Transmitting
//! the datagram is I/O and happens outside the library; the buffer is
//! cleared on every flush whether or not that transmission succeeds.

use vstd::prelude::*;

use crate::client::{encode_message, no_nul, spec_encode, LightParam};
use crate::host::LightCommand;

verus! {

/// The sender tag the relay embeds in every forwarded message.
pub open spec fn relay_nick() -> Seq<u8> {
    seq![0x65u8, 0x73u8, 0x72u8, 0x73u8, 0x20u8, 0x70u8, 0x72u8, 0x6fu8, 0x78u8, 0x79u8]
}

/// The wire bytes of [`relay_nick`]: "esrs proxy".
fn relay_nick_bytes() -> (r: Vec<u8>)
    ensures
        r@ =~= relay_nick(),
{
    let mut v: Vec<u8> = Vec::new();
    v.push(0x65);
    v.push(0x73);
    v.push(0x72);
    v.push(0x73);
    v.push(0x20);
    v.push(0x70);
    v.push(0x72);
    v.push(0x6f);
    v.push(0x78);
    v.push(0x79);
    v
}

/// Whether a command's light id fits the one-byte id of the wire format.
pub open spec fn cmd_id_fits(cmd: LightCommand) -> bool {
    match cmd {
        LightCommand::Rgb { id, .. } => id <= 255,
        LightCommand::Uv { id, .. } => id <= 255,
    }
}

/// The tuple a command is buffered as: RGB verbatim; UV as a gray value of
/// its intensity on all three channels.
pub open spec fn spec_relay_param(cmd: LightCommand) -> (u8, u8, u8, u8) {
    match cmd {
        LightCommand::Rgb { id, red, green, blue, .. } => (id as u8, red, green, blue),
        LightCommand::Uv { id, intensity, .. } => (id as u8, intensity, intensity, intensity),
    }
}

/// The UDP proxy host passes commands to another effect server.
pub struct UdpProxy {
    /// Tuples buffered since the last flush.
    pub cmds: Vec<LightParam>,
}

impl UdpProxy {
    pub fn new() -> (r: UdpProxy)
        ensures
            r.cmds@ =~= Seq::<LightParam>::empty(),
    {
        UdpProxy { cmds: vec![] }
    }

    /// Buffer one command for the next flush.
    pub fn take_command(&mut self, cmd: &LightCommand)
        requires
            cmd_id_fits(*cmd),
        ensures
            final(self).cmds@ =~= old(self).cmds@.push(
                LightParam(
                    spec_relay_param(*cmd).0,
                    spec_relay_param(*cmd).1,
                    spec_relay_param(*cmd).2,
                    spec_relay_param(*cmd).3,
                ),
            ),
    {
        match cmd {
            LightCommand::Rgb { id, red, green, blue, .. } => {
                self.cmds.push(LightParam::new(*id as u8, *red, *green, *blue));
            },
            LightCommand::Uv { id, intensity, .. } => {
                self.cmds.push(LightParam::new(*id as u8, *intensity, *intensity, *intensity));
            },
        }
    }

    /// Re-encode the buffered tuples as one outbound message and clear the
    /// buffer.  The buffer is empty afterwards no matter what becomes of the
    /// returned datagram.
    pub fn flush(&mut self) -> (r: Vec<u8>)
        ensures
            final(self).cmds@ =~= Seq::<LightParam>::empty(),
            r@ =~= spec_encode(
                relay_nick(),
                old(self).cmds@.map_values(|l: LightParam| l@),
            ),
    {
        let nick = relay_nick_bytes();
        let data = encode_message(nick.as_slice(), self.cmds.as_slice());
        self.cmds.clear();
        data
    }
}

/// The relay's fixed nick is wire-safe: it contains no NUL byte, so an
/// encoded relay message always decodes back to the commands it carries.
pub proof fn lemma_relay_nick_wire_safe()
    ensures
        no_nul(relay_nick()),
{
}

/// Law: the relay re-embeds the inbound protocol — its flushed datagram is
/// itself a well-formed message, and an upstream router decodes it without
/// error to exactly the tuples the relay had buffered.
pub proof fn lemma_relay_flush_decodes(cmds: Seq<(u8, u8, u8, u8)>)
    ensures
        ({
            let (cs, err) = crate::parser::spec_parse(spec_encode(relay_nick(), cmds));
            &&& err is None
            &&& crate::client::rgb_tuples(cs) =~= cmds
        }),
{
    lemma_relay_nick_wire_safe();
    crate::client::lemma_encode_extract(relay_nick(), cmds);
}

} // verus!
