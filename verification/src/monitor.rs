//! Status snapshot types and the last-value broadcast slot they are
//! published through.  Serving the monitoring page and its WebSocket feed is
//! I/O and happens outside the library; observers receive the snapshots
//! through the watch channel created here.

use vstd::prelude::*;

verus! {

/// The view of an optional string: the characters, if any.
pub open spec fn opt_view(o: Option<String>) -> Option<Seq<char>> {
    match o {
        Some(s) => Some(s@),
        None => None,
    }
}

/// A full, ordered, point-in-time snapshot of every logical light.
#[derive(Clone)]
pub struct StatusMessage {
    pub lights: Vec<LightStatus>,
}

/// One light's last-known state, as shown to monitoring observers.
#[derive(Clone)]
pub struct LightStatus {
    pub id: u8,
    pub r: u8,
    pub g: u8,
    pub b: u8,
    /// Most recent sender tag seen before this light's last command.
    pub tag: Option<String>,
    /// Address of the sender of this light's last command.
    pub ip: Option<String>,
}

/// Spec-level counterpart of [`LightStatus`].
#[verifier::ext_equal]
pub struct LightStatusView {
    pub id: u8,
    pub r: u8,
    pub g: u8,
    pub b: u8,
    pub tag: Option<Seq<char>>,
    pub ip: Option<Seq<char>>,
}

impl View for LightStatus {
    type V = LightStatusView;

    open spec fn view(&self) -> LightStatusView {
        LightStatusView {
            id: self.id,
            r: self.r,
            g: self.g,
            b: self.b,
            tag: opt_view(self.tag),
            ip: opt_view(self.ip),
        }
    }
}

impl View for StatusMessage {
    type V = Seq<LightStatusView>;

    open spec fn view(&self) -> Seq<LightStatusView> {
        self.lights@.map_values(|l: LightStatus| l@)
    }
}

#[verifier::external_type_specification]
#[verifier::external_body]
#[verifier::reject_recursive_types(T)]
pub struct ExWatchSender<T>(tokio::sync::watch::Sender<T>);

#[verifier::external_type_specification]
#[verifier::external_body]
#[verifier::reject_recursive_types(T)]
pub struct ExWatchReceiver<T>(tokio::sync::watch::Receiver<T>);

/// Relies on `tokio::sync::watch::channel`: creates a single-slot,
/// overwrite-on-publish channel holding `init`; the receiver immediately
/// observes the current value without waiting.
#[verifier::external_body]
pub(crate) fn status_channel(init: StatusMessage) -> (r: (
    tokio::sync::watch::Sender<StatusMessage>,
    tokio::sync::watch::Receiver<StatusMessage>,
)) {
    tokio::sync::watch::channel(init)
}

/// Relies on `tokio::sync::watch::Sender::send`: overwrites the slot with
/// `msg` and wakes all waiting observers.  Returns whether any receiver was
/// still attached; publishing is best-effort, so callers may ignore it.
#[verifier::external_body]
pub(crate) fn publish_status(
    sender: &tokio::sync::watch::Sender<StatusMessage>,
    msg: StatusMessage,
) -> (delivered: bool) {
    sender.send(msg).is_ok()
}

} // verus!
