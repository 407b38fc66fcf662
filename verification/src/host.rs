//! Host devices receive commands and produce physical effects.

use vstd::prelude::*;

use crate::enttec::{cmd_fits, dmx_frame, spec_take, Enttec, DMX_CHANNELS};
use crate::proxy::{cmd_id_fits, relay_nick, spec_relay_param, UdpProxy};
use crate::client::spec_encode;

verus! {

/// A single light's update, addressed for a particular host device.
pub enum LightCommand {
    Rgb { id: usize, address: usize, red: u8, green: u8, blue: u8 },
    Uv { id: usize, address: usize, intensity: u8 },
}

/// Light hosts accept RGB or other commands and pass them to an
/// Enttec-like device.  Flushing yields the bytes to hand to the host's
/// sink — a framed bus write or an outbound datagram — or nothing when the
/// host has no sink to feed.
pub trait EffectHost {
    /// Well-formedness of the host's internal buffer.
    spec fn wf(&self) -> bool;

    /// Whether the host can accept this command (its address and id lie in
    /// range for this device).
    spec fn accepts(&self, cmd: LightCommand) -> bool;

    /// Accept a single light command.
    fn take_command(&mut self, cmd: &LightCommand)
        requires
            old(self).wf(),
            old(self).accepts(*cmd),
        ensures
            final(self).wf(),
    ;

    /// Turn the current buffer into the bytes for the device's sink.
    fn flush(&mut self) -> (r: Option<Vec<u8>>)
        requires
            old(self).wf(),
        ensures
            final(self).wf(),
    ;
}

impl EffectHost for Enttec {
    open spec fn wf(&self) -> bool {
        Enttec::wf(self)
    }

    open spec fn accepts(&self, cmd: LightCommand) -> bool {
        cmd_fits(cmd, DMX_CHANNELS as int)
    }

    fn take_command(&mut self, cmd: &LightCommand) {
        Enttec::take_command(self, cmd)
    }

    fn flush(&mut self) -> (r: Option<Vec<u8>>) {
        Enttec::flush(self)
    }
}

impl EffectHost for UdpProxy {
    open spec fn wf(&self) -> bool {
        true
    }

    open spec fn accepts(&self, cmd: LightCommand) -> bool {
        cmd_id_fits(cmd)
    }

    fn take_command(&mut self, cmd: &LightCommand) {
        UdpProxy::take_command(self, cmd)
    }

    fn flush(&mut self) -> (r: Option<Vec<u8>>) {
        Some(UdpProxy::flush(self))
    }
}

/// One configured host device.  The mapper holds these in a table built once
/// at startup and addresses them by index.
pub enum HostDevice {
    Enttec(Enttec),
    Proxy(UdpProxy),
}

/// The abstract state of a host device: a bus buffer, or a relay's pending
/// tuples.
#[verifier::ext_equal]
pub enum HostView {
    Bus { payload: Seq<u8>, has_sink: bool },
    Relay { cmds: Seq<(u8, u8, u8, u8)> },
}

impl View for HostDevice {
    type V = HostView;

    open spec fn view(&self) -> HostView {
        match self {
            HostDevice::Enttec(e) => HostView::Bus { payload: e.payload@, has_sink: e.has_sink },
            HostDevice::Proxy(p) => HostView::Relay {
                cmds: p.cmds@.map_values(|l: crate::client::LightParam| l@),
            },
        }
    }
}

/// Whether a host in this state can accept the command.
pub open spec fn host_accepts(h: HostView, cmd: LightCommand) -> bool {
    match h {
        HostView::Bus { .. } => cmd_fits(cmd, DMX_CHANNELS as int),
        HostView::Relay { .. } => cmd_id_fits(cmd),
    }
}

/// The host state after accepting a command.
pub open spec fn host_take(h: HostView, cmd: LightCommand) -> HostView {
    match h {
        HostView::Bus { payload, has_sink } => HostView::Bus {
            payload: spec_take(payload, cmd),
            has_sink,
        },
        HostView::Relay { cmds } => HostView::Relay { cmds: cmds.push(spec_relay_param(cmd)) },
    }
}

/// The bytes a flush hands to the host's sink: a framed bus write for a bus
/// with a sink, an encoded relay message for a relay, nothing for a dry bus.
pub open spec fn host_flush_output(h: HostView) -> Option<Seq<u8>> {
    match h {
        HostView::Bus { payload, has_sink } => if has_sink {
            Some(dmx_frame(payload))
        } else {
            None
        },
        HostView::Relay { cmds } => Some(spec_encode(relay_nick(), cmds)),
    }
}

/// The host state after a flush: a bus keeps its buffer, a relay forgets its
/// tuples.
pub open spec fn host_after_flush(h: HostView) -> HostView {
    match h {
        HostView::Bus { .. } => h,
        HostView::Relay { .. } => HostView::Relay { cmds: Seq::empty() },
    }
}

impl HostDevice {
    pub open spec fn wf(&self) -> bool {
        match self {
            HostDevice::Enttec(e) => e.wf(),
            HostDevice::Proxy(_) => true,
        }
    }

    /// Accept a single light command into this device's buffer.
    pub fn take_command(&mut self, cmd: &LightCommand)
        requires
            old(self).wf(),
            host_accepts(old(self)@, *cmd),
        ensures
            final(self).wf(),
            final(self)@ =~= host_take(old(self)@, *cmd),
    {
        match self {
            HostDevice::Enttec(e) => e.take_command(cmd),
            HostDevice::Proxy(p) => {
                p.take_command(cmd);
                proof {
                    assert(p.cmds@.map_values(|l: crate::client::LightParam| l@)
                        =~= old(self)@->cmds.push(spec_relay_param(*cmd)));
                }
            },
        }
    }

    /// Flush this device, yielding the bytes for its sink, if any.
    pub fn flush(&mut self) -> (r: Option<Vec<u8>>)
        requires
            old(self).wf(),
        ensures
            final(self).wf(),
            final(self)@ =~= host_after_flush(old(self)@),
            match (r, host_flush_output(old(self)@)) {
                (Some(data), Some(bytes)) => data@ =~= bytes,
                (None, None) => true,
                _ => false,
            },
    {
        match self {
            HostDevice::Enttec(e) => e.flush(),
            HostDevice::Proxy(p) => Some(p.flush()),
        }
    }
}

} // verus!
