//! Enttec DMX bus device support: a fixed 512-slot byte buffer that is
//! framed and handed to a serial sink on every flush.  Opening and writing
//! the serial port itself is I/O and happens outside the library; a device
//! without a sink runs dry and flushes to nothing.

use vstd::prelude::*;

use crate::host::LightCommand;

verus! {

/// Number of addressable slots on the DMX bus.
pub const DMX_CHANNELS: usize = 512;

/// The Enttec host accumulates light commands into a DMX payload buffer.
pub struct Enttec {
    /// Buffer for raw DMX message data.
    pub payload: Vec<u8>,
    /// Whether a serial sink is configured; without one, flushing is a no-op.
    pub has_sink: bool,
}

/// Whether a command's address range lies inside a bus buffer of `cap`
/// slots: an RGB write takes five contiguous slots, a UV write two.
pub open spec fn cmd_fits(cmd: LightCommand, cap: int) -> bool {
    match cmd {
        LightCommand::Rgb { address, .. } => address + 5 <= cap,
        LightCommand::Uv { address, .. } => address + 2 <= cap,
    }
}

/// The payload buffer after accepting a command: an RGB command writes red,
/// green, blue and the two fixed trailer bytes; a UV command writes the
/// intensity and the always-zero strobe mode.
pub open spec fn spec_take(payload: Seq<u8>, cmd: LightCommand) -> Seq<u8> {
    match cmd {
        LightCommand::Rgb { address, red, green, blue, .. } => payload.update(
            address as int,
            red,
        ).update(address + 1, green).update(address + 2, blue).update(address + 3, 255u8).update(
            address + 4,
            0u8,
        ),
        LightCommand::Uv { address, intensity, .. } => payload.update(
            address as int,
            intensity,
        ).update(address + 1, 0u8),
    }
}

/// A flushed buffer wrapped in the fixed Enttec framing header and trailer.
pub open spec fn dmx_frame(payload: Seq<u8>) -> Seq<u8> {
    seq![0x7eu8, 6u8, 0u8, 2u8] + payload + seq![0xe7u8]
}

impl Enttec {
    /// The buffer always spans the whole addressable bus.
    pub open spec fn wf(&self) -> bool {
        self.payload@.len() == DMX_CHANNELS
    }

    /// Construct a new Enttec-type lighting host with an all-zero buffer.
    pub fn new(has_sink: bool) -> (r: Enttec)
        ensures
            r.wf(),
            r.payload@ =~= Seq::new(DMX_CHANNELS as nat, |i: int| 0u8),
            r.has_sink == has_sink,
    {
        Enttec { payload: vec![0u8; DMX_CHANNELS], has_sink }
    }

    /// Write a single light's control data into the buffer.
    pub fn take_command(&mut self, cmd: &LightCommand)
        requires
            old(self).wf(),
            cmd_fits(*cmd, DMX_CHANNELS as int),
        ensures
            final(self).wf(),
            final(self).has_sink == old(self).has_sink,
            final(self).payload@ =~= spec_take(old(self).payload@, *cmd),
    {
        match cmd {
            LightCommand::Rgb { address, red, green, blue, .. } => {
                let a = *address;
                self.payload[a] = *red;
                self.payload[a + 1] = *green;
                self.payload[a + 2] = *blue;
                self.payload[a + 3] = 255;
                self.payload[a + 4] = 0;
            },
            LightCommand::Uv { address, intensity, .. } => {
                let a = *address;
                self.payload[a] = *intensity;
                self.payload[a + 1] = 0;
            },
        }
    }

    /// Produce the framed buffer to be written to the serial sink, or
    /// nothing when the device runs dry.  The buffer itself is kept: it
    /// holds the last-known state of every slot.
    pub fn flush(&mut self) -> (r: Option<Vec<u8>>)
        requires
            old(self).wf(),
        ensures
            *final(self) == *old(self),
            match r {
                Some(data) => old(self).has_sink && data@ =~= dmx_frame(old(self).payload@),
                None => !old(self).has_sink,
            },
    {
        if self.has_sink {
            let mut out: Vec<u8> = Vec::with_capacity(DMX_CHANNELS + 5);
            out.push(0x7e);
            out.push(6);
            out.push(0);
            out.push(2);
            out.extend_from_slice(self.payload.as_slice());
            out.push(0xe7);
            Some(out)
        } else {
            None
        }
    }
}

/// Law: two lights on the same bus with non-overlapping address ranges never
/// disturb each other — accepting the second command leaves every byte the
/// first command wrote untouched.
pub proof fn lemma_bus_no_crosstalk(payload: Seq<u8>, first: LightCommand, second: LightCommand)
    requires
        cmd_fits(first, payload.len() as int),
        cmd_fits(second, payload.len() as int),
        cmd_range_disjoint(first, second),
    ensures
        ({
            let after_first = spec_take(payload, first);
            let after_both = spec_take(after_first, second);
            forall|j: int|
                cmd_start(first) <= j < cmd_end(first) ==> after_both[j] == after_first[j]
        }),
{
}

/// First slot a command writes.
pub open spec fn cmd_start(cmd: LightCommand) -> int {
    match cmd {
        LightCommand::Rgb { address, .. } => address as int,
        LightCommand::Uv { address, .. } => address as int,
    }
}

/// One past the last slot a command writes.
pub open spec fn cmd_end(cmd: LightCommand) -> int {
    match cmd {
        LightCommand::Rgb { address, .. } => address + 5,
        LightCommand::Uv { address, .. } => address + 2,
    }
}

/// Whether two commands write disjoint slot ranges.
pub open spec fn cmd_range_disjoint(a: LightCommand, b: LightCommand) -> bool {
    cmd_end(a) <= cmd_start(b) || cmd_end(b) <= cmd_start(a)
}

} // verus!
