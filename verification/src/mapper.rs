//! The Mapper maps logical addresses to host device commands.  It owns the
//! light registry and the host device table, decodes inbound messages,
//! mutates light state, dispatches to the devices, flushes them, and builds
//! the status snapshot published to observers.

use vstd::prelude::*;
use vstd::string::StringExecFns;

use crate::config::{host_index_of, find_host_index, Host, Light, Root};
use crate::enttec::{Enttec, DMX_CHANNELS};
use crate::host::{
    host_accepts, host_after_flush, host_flush_output, host_take, HostDevice, HostView,
    LightCommand,
};
use crate::monitor::{
    opt_view, publish_status, status_channel, LightStatus, LightStatusView, StatusMessage,
};
use crate::parser::{lossy_utf8, spec_parse, Command, CommandParser, ParserError, SpecCommand};
use crate::proxy::UdpProxy;

verus! {

/// One logical light: its identity, its place on a host device, and its
/// last-known state.
pub struct Effect {
    /// Logical address, the registry key.
    pub id: u8,
    /// Name to use for this effect.
    pub name: String,
    /// Index of the host this effect is connected to.
    pub host_index: usize,
    /// Number that means something to the host (a DMX offset, say).
    pub address: usize,
    /// Last address that set this.
    pub last_ip: Option<String>,
    /// Last tag that set this.
    pub last_tag: Option<String>,
    /// Detailed description of the effect.
    pub kind: EffectKind,
}

pub enum EffectKind {
    Rgb(LightRgb),
    Uv(LightUv),
}

/// A single RGB light's state in the mapper.
pub struct LightRgb {
    /// Last known red intensity.
    pub red: u8,
    /// Last known green intensity.
    pub green: u8,
    /// Last known blue intensity.
    pub blue: u8,
}

/// A single UV light's state in the mapper.
pub struct LightUv {
    /// Last known intensity.
    pub intensity: u8,
}

/// Spec-level counterpart of [`Effect`].
#[verifier::ext_equal]
pub struct EffectView {
    pub id: u8,
    pub name: Seq<char>,
    pub host_index: usize,
    pub address: usize,
    pub last_ip: Option<Seq<char>>,
    pub last_tag: Option<Seq<char>>,
    pub kind: EffectKindView,
}

#[verifier::ext_equal]
pub enum EffectKindView {
    Rgb { red: u8, green: u8, blue: u8 },
    Uv { intensity: u8 },
}

impl View for EffectKind {
    type V = EffectKindView;

    open spec fn view(&self) -> EffectKindView {
        match self {
            EffectKind::Rgb(l) => EffectKindView::Rgb { red: l.red, green: l.green, blue: l.blue },
            EffectKind::Uv(l) => EffectKindView::Uv { intensity: l.intensity },
        }
    }
}

impl View for Effect {
    type V = EffectView;

    open spec fn view(&self) -> EffectView {
        EffectView {
            id: self.id,
            name: self.name@,
            host_index: self.host_index,
            address: self.address,
            last_ip: opt_view(self.last_ip),
            last_tag: opt_view(self.last_tag),
            kind: self.kind@,
        }
    }
}

/// Result type for various Mapper actions.
pub type MapperResult<T> = Result<T, MapperError>;

/// Various runtime errors for the Mapper.
#[derive(Debug)]
pub enum MapperError {
    /// Unknown command tag (caught by the parser).
    UnknownTag(u8),
    /// Unknown logical address.
    UnknownAddr(u8),
    /// The parser couldn't understand the message.
    ParserError(ParserError),
    /// A light refers to a host name that is not declared.
    UnknownHost(String),
    /// A light's address lies outside its host's addressable range.
    InvalidAddress(u8),
}

impl vstd::std_specs::convert::FromSpecImpl<ParserError> for MapperError {
    open spec fn obeys_from_spec() -> bool {
        true
    }

    open spec fn from_spec(t: ParserError) -> MapperError {
        MapperError::ParserError(t)
    }
}

/// Parser errors can become Mapper errors.
impl From<ParserError> for MapperError {
    fn from(err: ParserError) -> (r: MapperError)
        ensures
            r == MapperError::ParserError(err),
    {
        MapperError::ParserError(err)
    }
}

/// The UV derivation: a fixed luma-like weighting of the RGB channels,
/// `(2*red + 7*green + 1*blue) / 10`, in integer arithmetic.  The weights
/// sum to ten, so the result always fits a byte.
pub open spec fn uv_intensity(red: u8, green: u8, blue: u8) -> u8 {
    ((red * 2 + green * 7 + blue) / 10) as u8
}

/// Index of the first effect with logical address `id` at or after `j`.
pub open spec fn find_effect_from(effects: Seq<EffectView>, id: u8, j: int) -> Option<int>
    recommends
        0 <= j <= effects.len(),
    decreases effects.len() - j when 0 <= j <= effects.len()
{
    if j >= effects.len() {
        None
    } else if effects[j].id == id {
        Some(j)
    } else {
        find_effect_from(effects, id, j + 1)
    }
}

/// Index of the effect with logical address `id`, if any.
pub open spec fn find_effect(effects: Seq<EffectView>, id: u8) -> Option<int> {
    find_effect_from(effects, id, 0)
}

/// Registry order: strictly ascending logical addresses, hence unique.
pub open spec fn effects_sorted(effects: Seq<EffectView>) -> bool {
    forall|i: int, j: int| 0 <= i < j < effects.len() ==> effects[i].id < effects[j].id
}

/// Whether a light's address range lies inside its host device: five slots
/// for an RGB light on a bus, two for a UV light; a relay has no addresses.
pub open spec fn effect_fits(e: EffectView, h: HostView) -> bool {
    match h {
        HostView::Bus { .. } => match e.kind {
            EffectKindView::Rgb { .. } => e.address + 5 <= DMX_CHANNELS,
            EffectKindView::Uv { .. } => e.address + 2 <= DMX_CHANNELS,
        },
        HostView::Relay { .. } => true,
    }
}

/// The device command an effect emits for an inbound color update.
pub open spec fn spec_effect_cmd(e: EffectView, red: u8, green: u8, blue: u8) -> LightCommand {
    match e.kind {
        EffectKindView::Rgb { .. } => LightCommand::Rgb {
            id: e.id as usize,
            address: e.address,
            red,
            green,
            blue,
        },
        EffectKindView::Uv { .. } => LightCommand::Uv {
            id: e.id as usize,
            address: e.address,
            intensity: uv_intensity(red, green, blue),
        },
    }
}

/// The effect's state after accepting an inbound color update.
pub open spec fn spec_effect_updated(
    e: EffectView,
    red: u8,
    green: u8,
    blue: u8,
    tag: Option<Seq<char>>,
    ip: Option<Seq<char>>,
) -> EffectView {
    EffectView {
        id: e.id,
        name: e.name,
        host_index: e.host_index,
        address: e.address,
        last_ip: ip,
        last_tag: tag,
        kind: match e.kind {
            EffectKindView::Rgb { .. } => EffectKindView::Rgb { red, green, blue },
            EffectKindView::Uv { .. } => EffectKindView::Uv {
                intensity: uv_intensity(red, green, blue),
            },
        },
    }
}

/// The routing state one message folds over: the light registry, the host
/// device table, and the sender tag current within the message.
#[verifier::ext_equal]
pub struct RouteState {
    pub effects: Seq<EffectView>,
    pub hosts: Seq<HostView>,
    pub tag: Option<Seq<char>>,
}

/// Route one decoded command: a nick replaces the current tag; a light
/// command updates the addressed light and hands a device command to the
/// light's host.  A light command for an unknown id changes nothing.
pub open spec fn apply_cmd(st: RouteState, cmd: SpecCommand, ip: Option<Seq<char>>) -> RouteState {
    match cmd {
        SpecCommand::Nick { nick } => RouteState {
            effects: st.effects,
            hosts: st.hosts,
            tag: Some(nick),
        },
        SpecCommand::RgbLight { id, light_type, red, green, blue } => {
            match find_effect(st.effects, id) {
                None => st,
                Some(j) => {
                    let e = st.effects[j];
                    RouteState {
                        effects: st.effects.update(
                            j,
                            spec_effect_updated(e, red, green, blue, st.tag, ip),
                        ),
                        hosts: st.hosts.update(
                            e.host_index as int,
                            host_take(
                                st.hosts[e.host_index as int],
                                spec_effect_cmd(e, red, green, blue),
                            ),
                        ),
                        tag: st.tag,
                    }
                },
            }
        },
    }
}

/// Route a whole message's commands in order.
pub open spec fn apply_cmds(
    st: RouteState,
    cmds: Seq<SpecCommand>,
    ip: Option<Seq<char>>,
) -> RouteState
    decreases cmds.len(),
{
    if cmds.len() == 0 {
        st
    } else {
        apply_cmds(apply_cmd(st, cmds[0], ip), cmds.drop_first(), ip)
    }
}

/// Folding one more command is one more routing step.
pub proof fn lemma_apply_cmds_step(
    st: RouteState,
    cmds: Seq<SpecCommand>,
    ip: Option<Seq<char>>,
    k: int,
)
    requires
        0 <= k < cmds.len(),
    ensures
        apply_cmds(st, cmds.take(k + 1), ip) =~~= apply_cmd(
            apply_cmds(st, cmds.take(k), ip),
            cmds[k],
            ip,
        ),
    decreases k,
{
    if k == 0 {
        assert(cmds.take(1).drop_first() =~= Seq::<SpecCommand>::empty());
        assert(cmds.take(1)[0] == cmds[0]);
        assert(cmds.take(0) =~= Seq::<SpecCommand>::empty());
        assert(apply_cmds(st, cmds.take(1), ip) == apply_cmds(
            apply_cmd(st, cmds[0], ip),
            Seq::<SpecCommand>::empty(),
            ip,
        ));
        assert(apply_cmds(st, cmds.take(0), ip) == st);
    } else {
        let st1 = apply_cmd(st, cmds[0], ip);
        let rest = cmds.drop_first();
        assert(cmds.take(k + 1)[0] == cmds[0]);
        assert(cmds.take(k + 1).drop_first() =~= rest.take(k));
        assert(cmds.take(k).drop_first() =~= rest.take(k - 1));
        assert(cmds.take(k)[0] == cmds[0]);
        assert(apply_cmds(st, cmds.take(k + 1), ip) == apply_cmds(st1, rest.take(k), ip));
        assert(apply_cmds(st, cmds.take(k), ip) == apply_cmds(st1, rest.take(k - 1), ip));
        lemma_apply_cmds_step(st1, rest, ip, k - 1);
        assert(rest[k - 1] == cmds[k]);
        assert(apply_cmds(st1, rest.take(k), ip) =~~= apply_cmd(
            apply_cmds(st1, rest.take(k - 1), ip),
            cmds[k],
            ip,
        ));
    }
}

/// Mappers read commands and issue them to host devices.
pub struct Mapper {
    /// Configured lights, kept sorted by ascending logical address.
    pub effects: Vec<Effect>,
    /// Configured light effect hosts.
    pub effect_hosts: Vec<HostDevice>,
    /// Command parser/buffer.
    pub parser: CommandParser,
    /// Message bus for watching the status.
    pub sender: tokio::sync::watch::Sender<StatusMessage>,
}

impl Mapper {
    /// The abstract light registry.
    pub open spec fn effects_view(&self) -> Seq<EffectView> {
        self.effects@.map_values(|e: Effect| e@)
    }

    /// The abstract host device table.
    pub open spec fn hosts_view(&self) -> Seq<HostView> {
        self.effect_hosts@.map_values(|h: HostDevice| h@)
    }

    /// The mapper's invariant: the registry is sorted by unique ids, every
    /// effect points at a host in the table, its addresses lie inside that
    /// host, and every host buffer is well-formed.
    pub open spec fn wf(&self) -> bool {
        &&& effects_sorted(self.effects_view())
        &&& forall|i: int|
            0 <= i < self.effects_view().len() ==> {
                let e = #[trigger] self.effects_view()[i];
                &&& (e.host_index as int) < self.hosts_view().len()
                &&& effect_fits(e, self.hosts_view()[e.host_index as int])
            }
        &&& forall|h: int|
            0 <= h < self.effect_hosts@.len() ==> (#[trigger] self.effect_hosts@[h]).wf()
    }
}

/// Clone an optional string, preserving its view.
fn clone_opt(o: &Option<String>) -> (r: Option<String>)
    ensures
        opt_view(r) == opt_view(*o),
{
    match o {
        Some(s) => Some(s.clone()),
        None => None,
    }
}

/// Look up a light by logical address in the registry.
fn find_effect_index(effects: &Vec<Effect>, id: u8) -> (r: Option<usize>)
    ensures
        ({
            let ev = effects@.map_values(|e: Effect| e@);
            match r {
                Some(j) => find_effect(ev, id) == Some(j as int) && j < effects@.len(),
                None => find_effect(ev, id) is None,
            }
        }),
{
    let ghost ev = effects@.map_values(|e: Effect| e@);
    let mut j: usize = 0;
    while j < effects.len()
        invariant
            ev =~= effects@.map_values(|e: Effect| e@),
            j <= effects@.len(),
            find_effect(ev, id) == find_effect_from(ev, id, j as int),
        decreases effects@.len() - j,
    {
        if effects[j].id == id {
            proof {
                assert(ev[j as int] == effects@[j as int]@);
            }
            return Some(j);
        }
        proof {
            assert(ev[j as int] == effects@[j as int]@);
            assert(find_effect_from(ev, id, j as int) == find_effect_from(ev, id, j + 1));
        }
        j = j + 1;
    }
    None
}

/// Insert a light into the registry, keeping it sorted by id; a light with
/// an id already present replaces the old one.
fn insert_effect(effects: &mut Vec<Effect>, eff: Effect)
    requires
        effects_sorted(old(effects)@.map_values(|e: Effect| e@)),
    ensures
        ({
            let pre = old(effects)@.map_values(|e: Effect| e@);
            let post = final(effects)@.map_values(|e: Effect| e@);
            &&& effects_sorted(post)
            &&& post.len() <= pre.len() + 1
            &&& exists|j: int| 0 <= j < post.len() && post[j] == eff@
            &&& forall|j: int|
                0 <= j < post.len() ==> (#[trigger] post[j]) == eff@ || pre.contains(post[j])
            &&& forall|m: int|
                0 <= m < pre.len() ==> exists|j: int|
                    0 <= j < post.len() && post[j].id == (#[trigger] pre[m]).id
        }),
{
    let ghost pre = old(effects)@.map_values(|e: Effect| e@);
    let mut p: usize = 0;
    while p < effects.len() && effects[p].id < eff.id
        invariant
            pre =~= effects@.map_values(|e: Effect| e@),
            *effects == *old(effects),
            effects_sorted(pre),
            p <= effects@.len(),
            forall|m: int| 0 <= m < p ==> (#[trigger] pre[m]).id < eff.id,
        decreases effects@.len() - p,
    {
        proof {
            assert(pre[p as int] == effects@[p as int]@);
        }
        p = p + 1;
    }
    proof {
        assert(p < effects@.len() ==> pre[p as int] == effects@[p as int]@);
    }
    if p < effects.len() && effects[p].id == eff.id {
        effects[p] = eff;
        proof {
            let post = effects@.map_values(|e: Effect| e@);
            assert(post =~= pre.update(p as int, eff@));
            assert(post[p as int] == eff@);
            assert forall|m: int| 0 <= m < pre.len() implies exists|j: int|
                0 <= j < post.len() && post[j].id == (#[trigger] pre[m]).id by {
                if m == p {
                    assert(post[m].id == pre[m].id);
                } else {
                    assert(post[m] == pre[m]);
                }
            }
        }
    } else {
        effects.insert(p, eff);
        proof {
            let post = effects@.map_values(|e: Effect| e@);
            assert(post =~= pre.take(p as int) + seq![eff@] + pre.skip(p as int));
            assert forall|i: int, j: int| 0 <= i < j < post.len() implies post[i].id
                < post[j].id by {
                assert(forall|m: int|
                    p <= m < pre.len() ==> eff.id < (#[trigger] pre[m]).id);
                assert(forall|m: int| 0 <= m < p ==> (#[trigger] post[m]) == pre[m]);
                assert(post[p as int] == eff@);
                assert(forall|m: int|
                    p < m < post.len() ==> (#[trigger] post[m]) == pre[m - 1]);
            }
            assert(post[p as int] == eff@);
            assert forall|m: int| 0 <= m < pre.len() implies exists|j: int|
                0 <= j < post.len() && post[j].id == (#[trigger] pre[m]).id by {
                if m < p {
                    assert(post[m] == pre[m]);
                } else {
                    assert(post[m + 1] == pre[m]);
                }
            }
            assert forall|j: int| 0 <= j < post.len() implies (#[trigger] post[j]) == eff@
                || pre.contains(post[j]) by {
                if j < p {
                    assert(post[j] == pre[j]);
                } else if j > p {
                    assert(post[j] == pre[j - 1]);
                }
            }
        }
    }
}

/// The status a single light reports: its id, its last-known color (a UV
/// light reports its intensity on all three channels), and the tag and
/// origin of the last command that set it.
pub open spec fn spec_light_status(e: EffectView) -> LightStatusView {
    LightStatusView {
        id: e.id,
        r: match e.kind {
            EffectKindView::Rgb { red, .. } => red,
            EffectKindView::Uv { intensity } => intensity,
        },
        g: match e.kind {
            EffectKindView::Rgb { green, .. } => green,
            EffectKindView::Uv { intensity } => intensity,
        },
        b: match e.kind {
            EffectKindView::Rgb { blue, .. } => blue,
            EffectKindView::Uv { intensity } => intensity,
        },
        tag: e.last_tag,
        ip: e.last_ip,
    }
}

/// The snapshot of a whole registry, in registry (ascending id) order.
pub open spec fn spec_status(effects: Seq<EffectView>) -> Seq<LightStatusView> {
    effects.map_values(|e: EffectView| spec_light_status(e))
}

impl Mapper {
    /// Turn the current effect status into a status message, one entry per
    /// registered light, in ascending id order.
    fn status_of(effects: &Vec<Effect>) -> (r: StatusMessage)
        ensures
            r@ =~= spec_status(effects@.map_values(|e: Effect| e@)),
    {
        let mut lights: Vec<LightStatus> = Vec::with_capacity(effects.len());
        let mut i: usize = 0;
        while i < effects.len()
            invariant
                i <= effects@.len(),
                lights@.len() == i,
                forall|m: int|
                    0 <= m < i ==> (#[trigger] lights@[m])@ =~= spec_light_status(
                        effects@[m]@,
                    ),
            decreases effects@.len() - i,
        {
            let e = &effects[i];
            let (r, g, b) = match &e.kind {
                EffectKind::Rgb(l) => (l.red, l.green, l.blue),
                EffectKind::Uv(l) => (l.intensity, l.intensity, l.intensity),
            };
            let tag = clone_opt(&e.last_tag);
            let ip = clone_opt(&e.last_ip);
            lights.push(LightStatus { id: e.id, r, g, b, tag, ip });
            i = i + 1;
        }
        let msg = StatusMessage { lights };
        proof {
            assert(msg@ =~= spec_status(effects@.map_values(|e: Effect| e@)));
        }
        msg
    }

    /// Try to set up a mapper and its host devices from a configuration.
    ///
    /// The host table is built in declaration order, each host getting a
    /// stable index; the registry is built from the light mapping, each
    /// light's host name resolved to its index.  A light naming an
    /// undeclared host, or whose address range does not fit its bus device,
    /// is a fatal construction error — addresses are validated here, against
    /// the topology, so that no later message can write past a bus buffer.
    /// The returned receiver observes the status broadcast, primed with the
    /// all-zero snapshot.
    #[verifier::rlimit(50)]
    pub fn from_config(config: &Root) -> (r: MapperResult<
        (Mapper, tokio::sync::watch::Receiver<StatusMessage>),
    >)
        ensures
            ({
                let lights = config.mapping.lights@;
                let hosts = config.hosts@;
                match r {
                    Ok(p) => {
                        let m = p.0;
                        &&& first_bad_light(lights, hosts) is None
                        &&& m.wf()
                        &&& m.hosts_view() =~= spec_initial_hosts(hosts)
                        &&& forall|j: int|
                            0 <= j < m.effects_view().len() ==> effect_from_config(
                                *config,
                                #[trigger] m.effects_view()[j],
                            )
                        &&& forall|i: int|
                            0 <= i < lights.len() ==> find_effect(
                                m.effects_view(),
                                (#[trigger] lights[i]).0,
                            ) is Some
                        &&& m.effects_view().len() <= lights.len()
                        &&& m.parser@ =~= Seq::<SpecCommand>::empty()
                    },
                    Err(e) => match first_bad_light(lights, hosts) {
                        None => false,
                        Some(i) => match light_check(lights[i].1, hosts) {
                            Some(LightIssue::UnresolvedHost) => e matches MapperError::UnknownHost(
                                s,
                            ) && s@ == lights[i].1.spec_host(),
                            Some(LightIssue::AddressOutOfRange) => e
                                == MapperError::InvalidAddress(lights[i].0),
                            None => false,
                        },
                    },
                }
            }),
    {
        let ghost chosts = config.hosts@;
        let ghost clights = config.mapping.lights@;

        // Read host device information, in declaration order.
        let mut effect_hosts: Vec<HostDevice> = Vec::new();
        let mut hi: usize = 0;
        while hi < config.hosts.len()
            invariant
                chosts == config.hosts@,
                hi <= chosts.len(),
                effect_hosts@.len() == hi,
                forall|h: int|
                    0 <= h < hi ==> (#[trigger] effect_hosts@[h])@ =~= initial_host_view(
                        chosts[h].1,
                    ),
                forall|h: int| 0 <= h < hi ==> (#[trigger] effect_hosts@[h]).wf(),
            decreases chosts.len() - hi,
        {
            let host_device: HostDevice = match &config.hosts[hi].1 {
                Host::Enttec { path } => HostDevice::Enttec(Enttec::new(path.is_some())),
                Host::Proxy { .. } => HostDevice::Proxy(UdpProxy::new()),
            };
            effect_hosts.push(host_device);
            hi = hi + 1;
        }
        proof {
            assert(effect_hosts@.map_values(|h: HostDevice| h@) =~~= spec_initial_hosts(chosts));
        }

        // Set up lights and their host device mapping.
        let mut effects: Vec<Effect> = Vec::new();
        let mut li: usize = 0;
        while li < config.mapping.lights.len()
            invariant
                chosts == config.hosts@,
                clights == config.mapping.lights@,
                li <= clights.len(),
                effect_hosts@.map_values(|h: HostDevice| h@) =~~= spec_initial_hosts(chosts),
                forall|h: int|
                    0 <= h < effect_hosts@.len() ==> (#[trigger] effect_hosts@[h]).wf(),
                effects_sorted(effects@.map_values(|e: Effect| e@)),
                effects@.len() <= li,
                ({
                    let ev = effects@.map_values(|e: Effect| e@);
                    &&& forall|j: int|
                        0 <= j < ev.len() ==> exists|i: int|
                            0 <= i < li && effect_from_light(
                                clights[i].0,
                                clights[i].1,
                                chosts,
                                #[trigger] ev[j],
                            )
                    &&& forall|i: int|
                        0 <= i < li ==> exists|j: int|
                            0 <= j < ev.len() && (#[trigger] ev[j]).id == (#[trigger] clights[i]).0
                    &&& forall|j: int|
                        0 <= j < ev.len() ==> effect_placed(
                            #[trigger] ev[j],
                            spec_initial_hosts(chosts),
                        )
                }),
                first_bad_light(clights, chosts) == first_bad_light_from(
                    clights,
                    chosts,
                    li as int,
                ),
            decreases clights.len() - li,
        {
            let pair = &config.mapping.lights[li];
            let id = pair.0;
            let light = &pair.1;
            let (host_name, address, name_opt, is_rgb): (&String, u16, &Option<String>, bool) =
                match light {
                Light::Rgb { host, address, name } => (host, *address, name, true),
                Light::Uv { host, address, name } => (host, *address, name, false),
            };
            proof {
                assert(light.spec_host() == host_name@);
                assert(light.spec_address() == address);
            }
            let hidx = match find_host_index(&config.hosts, host_name) {
                Some(h) => h,
                None => {
                    proof {
                        assert(light_check(clights[li as int].1, chosts) == Some(
                            LightIssue::UnresolvedHost,
                        ));
                        assert(first_bad_light_from(clights, chosts, li as int) == Some(
                            li as int,
                        ));
                    }
                    return Err(MapperError::UnknownHost(host_name.clone()));
                },
            };
            let addr_ok = match &config.hosts[hidx].1 {
                Host::Enttec { .. } => {
                    if is_rgb {
                        address as usize + 5 <= DMX_CHANNELS
                    } else {
                        address as usize + 2 <= DMX_CHANNELS
                    }
                },
                Host::Proxy { .. } => true,
            };
            if !addr_ok {
                proof {
                    assert(light_check(clights[li as int].1, chosts) == Some(
                        LightIssue::AddressOutOfRange,
                    ));
                    assert(first_bad_light_from(clights, chosts, li as int) == Some(li as int));
                }
                return Err(MapperError::InvalidAddress(id));
            }
            proof {
                assert(light_check(clights[li as int].1, chosts) is None);
                assert(first_bad_light_from(clights, chosts, li as int)
                    == first_bad_light_from(clights, chosts, li + 1));
            }
            let name = match name_opt {
                Some(n) => n.clone(),
                None => default_name(host_name, id),
            };
            let eff = Effect {
                id,
                name,
                host_index: hidx,
                address: address as usize,
                last_ip: None,
                last_tag: None,
                kind: if is_rgb {
                    EffectKind::Rgb(LightRgb { red: 0, green: 0, blue: 0 })
                } else {
                    EffectKind::Uv(LightUv { intensity: 0 })
                },
            };
            proof {
                assert(effect_from_light(id, clights[li as int].1, chosts, eff@));
                assert(spec_initial_hosts(chosts)[hidx as int] == initial_host_view(
                    chosts[hidx as int].1,
                ));
                assert(effect_placed(eff@, spec_initial_hosts(chosts)));
            }
            let ghost pre_v = effects@.map_values(|e: Effect| e@);
            insert_effect(&mut effects, eff);
            proof {
                let post_v = effects@.map_values(|e: Effect| e@);
                assert forall|j: int| 0 <= j < post_v.len() implies exists|i: int|
                    0 <= i < li + 1 && effect_from_light(
                        clights[i].0,
                        clights[i].1,
                        chosts,
                        #[trigger] post_v[j],
                    ) by {
                    if post_v[j] == eff@ {
                        assert(effect_from_light(
                            clights[li as int].0,
                            clights[li as int].1,
                            chosts,
                            post_v[j],
                        ));
                    } else {
                        assert(pre_v.contains(post_v[j]));
                        let m = choose|m: int| 0 <= m < pre_v.len() && pre_v[m] == post_v[j];
                        assert(exists|i: int|
                            0 <= i < li && effect_from_light(
                                clights[i].0,
                                clights[i].1,
                                chosts,
                                pre_v[m],
                            ));
                    }
                }
                assert forall|i: int| 0 <= i < li + 1 implies exists|j: int|
                    0 <= j < post_v.len() && (#[trigger] post_v[j]).id == (
                    #[trigger] clights[i]).0 by {
                    if i == li {
                        let j = choose|j: int| 0 <= j < post_v.len() && post_v[j] == eff@;
                        assert(post_v[j].id == clights[i as int].0);
                    } else {
                        let jold = choose|j: int|
                            0 <= j < pre_v.len() && (#[trigger] pre_v[j]).id == clights[i].0;
                        assert(exists|j: int|
                            0 <= j < post_v.len() && post_v[j].id == pre_v[jold].id);
                    }
                }
                assert forall|j: int| 0 <= j < post_v.len() implies effect_placed(
                    #[trigger] post_v[j],
                    spec_initial_hosts(chosts),
                ) by {
                    if post_v[j] != eff@ {
                        assert(pre_v.contains(post_v[j]));
                        let m = choose|m: int| 0 <= m < pre_v.len() && pre_v[m] == post_v[j];
                        assert(effect_placed(pre_v[m], spec_initial_hosts(chosts)));
                    }
                }
            }
            li = li + 1;
        }

        let status = Mapper::status_of(&effects);
        let (sender, receiver) = status_channel(status);
        let mapper = Mapper { effects, effect_hosts, parser: CommandParser::new(), sender };
        proof {
            assert forall|i: int| 0 <= i < clights.len() implies find_effect(
                mapper.effects_view(),
                (#[trigger] clights[i]).0,
            ) is Some by {
                lemma_find_effect(mapper.effects_view(), clights[i].0, 0);
            }
            assert(mapper.wf());
        }
        Ok((mapper, receiver))
    }

    /// The current status snapshot: one entry per light; with a well-formed
    /// mapper it is sorted by ascending id and covers the whole registry.
    pub fn get_status_message(&self) -> (r: StatusMessage)
        ensures
            r@ =~= spec_status(self.effects_view()),
            r@.len() == self.effects@.len(),
            self.wf() ==> forall|i: int, j: int|
                0 <= i < j < r@.len() ==> r@[i].id < r@[j].id,
    {
        Self::status_of(&self.effects)
    }
}

/// If an effect with the id exists, the registry lookup finds the first one.
pub proof fn lemma_find_effect(effects: Seq<EffectView>, id: u8, j: int)
    requires
        0 <= j <= effects.len(),
    ensures
        match find_effect_from(effects, id, j) {
            Some(k) => j <= k < effects.len() && effects[k].id == id && (forall|m: int|
                j <= m < k ==> effects[m].id != id),
            None => forall|m: int| j <= m < effects.len() ==> effects[m].id != id,
        },
    decreases effects.len() - j,
{
    if j < effects.len() && effects[j].id != id {
        lemma_find_effect(effects, id, j + 1);
    }
}

/// What, if anything, is wrong with one light's place in the topology.
pub enum LightIssue {
    /// The light names a host that is not declared.
    UnresolvedHost,
    /// The light's address range does not fit its bus device.
    AddressOutOfRange,
}

/// The abstract state of a freshly constructed host device: an all-zero bus
/// buffer (with a sink exactly when a device path is configured), or an
/// empty relay.
pub open spec fn initial_host_view(h: Host) -> HostView {
    match h {
        Host::Enttec { path } => HostView::Bus {
            payload: Seq::new(DMX_CHANNELS as nat, |i: int| 0u8),
            has_sink: path is Some,
        },
        Host::Proxy { .. } => HostView::Relay { cmds: Seq::empty() },
    }
}

/// The host device table a topology builds, in declaration order.
pub open spec fn spec_initial_hosts(hosts: Seq<(String, Host)>) -> Seq<HostView> {
    hosts.map_values(|p: (String, Host)| initial_host_view(p.1))
}

/// Check one light against the declared hosts.
pub open spec fn light_check(light: Light, hosts: Seq<(String, Host)>) -> Option<LightIssue> {
    match host_index_of(hosts, light.spec_host()) {
        None => Some(LightIssue::UnresolvedHost),
        Some(hi) => match hosts[hi].1 {
            Host::Enttec { .. } => match light {
                Light::Rgb { address, .. } => if address + 5 <= DMX_CHANNELS {
                    None
                } else {
                    Some(LightIssue::AddressOutOfRange)
                },
                Light::Uv { address, .. } => if address + 2 <= DMX_CHANNELS {
                    None
                } else {
                    Some(LightIssue::AddressOutOfRange)
                },
            },
            Host::Proxy { .. } => None,
        },
    }
}

/// Index of the first ill-mapped light at or after `j`, if any.
pub open spec fn first_bad_light_from(
    lights: Seq<(u8, Light)>,
    hosts: Seq<(String, Host)>,
    j: int,
) -> Option<int>
    recommends
        0 <= j <= lights.len(),
    decreases lights.len() - j when 0 <= j <= lights.len()
{
    if j >= lights.len() {
        None
    } else if light_check(lights[j].1, hosts) is Some {
        Some(j)
    } else {
        first_bad_light_from(lights, hosts, j + 1)
    }
}

/// Index of the first ill-mapped light of the topology, if any.
/// Construction succeeds exactly when there is none.
pub open spec fn first_bad_light(lights: Seq<(u8, Light)>, hosts: Seq<(String, Host)>) -> Option<
    int,
> {
    first_bad_light_from(lights, hosts, 0)
}

/// A topology below its first ill-mapped light has none up to there.
proof fn lemma_no_bad_light_below(
    lights: Seq<(u8, Light)>,
    hosts: Seq<(String, Host)>,
    j: int,
    i: int,
)
    requires
        0 <= j <= i < lights.len(),
        first_bad_light_from(lights, hosts, j) is None,
    ensures
        light_check(lights[i].1, hosts) is None,
    decreases i - j,
{
    if j < i {
        lemma_no_bad_light_below(lights, hosts, j + 1, i);
    }
}

/// Law: a topology that constructs successfully also passes the
/// configuration sanity check — every light's host resolves.
pub proof fn lemma_topology_ok_implies_config_ok(root: Root)
    requires
        first_bad_light(root.mapping.lights@, root.hosts@) is None,
    ensures
        crate::config::spec_config_ok(root),
{
    assert forall|i: int| 0 <= i < root.mapping.lights@.len() implies host_index_of(
        root.hosts@,
        (#[trigger] root.mapping.lights@[i]).1.spec_host(),
    ) is Some by {
        lemma_no_bad_light_below(root.mapping.lights@, root.hosts@, 0, i);
    }
}

/// The configured display name of a light, if one is given.
pub open spec fn light_name(l: Light) -> Option<Seq<char>> {
    match l {
        Light::Rgb { name, .. } => opt_view(name),
        Light::Uv { name, .. } => opt_view(name),
    }
}

/// How a freshly built registry entry reflects one configured light: same
/// id, the host resolved to its declared index, the declared address, zero
/// initial color, no sender tag or origin yet, and the configured display
/// name when one is given.
pub open spec fn effect_from_light(
    id: u8,
    l: Light,
    hosts: Seq<(String, Host)>,
    e: EffectView,
) -> bool {
    &&& e.id == id
    &&& host_index_of(hosts, l.spec_host()) == Some(e.host_index as int)
    &&& e.address as int == l.spec_address() as int
    &&& e.last_ip is None
    &&& e.last_tag is None
    &&& (match l {
        Light::Rgb { .. } => e.kind == (EffectKindView::Rgb { red: 0, green: 0, blue: 0 }),
        Light::Uv { .. } => e.kind == (EffectKindView::Uv { intensity: 0 }),
    })
    &&& (light_name(l) matches Some(n) ==> e.name == n)
}

/// Whether a registry entry reflects one of the topology's lights.
pub open spec fn effect_from_config(root: Root, e: EffectView) -> bool {
    exists|i: int|
        0 <= i < root.mapping.lights@.len() && effect_from_light(
            (#[trigger] root.mapping.lights@[i]).0,
            root.mapping.lights@[i].1,
            root.hosts@,
            e,
        )
}

/// Whether an effect points at a host of the table and fits inside it.
pub open spec fn effect_placed(e: EffectView, hosts: Seq<HostView>) -> bool {
    &&& (e.host_index as int) < hosts.len()
    &&& effect_fits(e, hosts[e.host_index as int])
}

/// The decimal digits of a byte, as ASCII.
pub open spec fn spec_decimal(id: u8) -> Seq<u8> {
    if id >= 100 {
        seq![(0x30 + id / 100) as u8, (0x30 + (id / 10) % 10) as u8, (0x30 + id % 10) as u8]
    } else if id >= 10 {
        seq![(0x30 + id / 10) as u8, (0x30 + id % 10) as u8]
    } else {
        seq![(0x30 + id) as u8]
    }
}

fn decimal_bytes(id: u8) -> (r: Vec<u8>)
    ensures
        r@ =~= spec_decimal(id),
{
    let mut v: Vec<u8> = Vec::new();
    if id >= 100 {
        v.push(0x30 + id / 100);
        v.push(0x30 + (id / 10) % 10);
        v.push(0x30 + id % 10);
    } else if id >= 10 {
        v.push(0x30 + id / 10);
        v.push(0x30 + id % 10);
    } else {
        v.push(0x30 + id);
    }
    v
}

/// The default display name of a light without a configured one: its host's
/// name, a dash, and its id in decimal.
fn default_name(host: &String, id: u8) -> (r: String)
    ensures
        r@ == host@ + "-"@ + lossy_utf8(spec_decimal(id)),
{
    let digits = crate::parser::lossy_string(&decimal_bytes(id));
    host.clone().concat("-").concat(digits.as_str())
}

/// Whether the bytes handed to one host's sink match the expected flush
/// output.
pub open spec fn out_matches(o: Option<Vec<u8>>, s: Option<Seq<u8>>) -> bool {
    match (o, s) {
        (Some(data), Some(bytes)) => data@ == bytes,
        (None, None) => true,
        _ => false,
    }
}

impl Mapper {
    /// Read a message from a buffer and issue some commands.
    ///
    /// On a decode error the message is rejected whole: no light state
    /// moves and no device is flushed.  Otherwise the commands are routed
    /// in order — a nick sets the sender tag for the rest of the message, a
    /// light command updates the addressed light and its host device, and
    /// one addressed to an unknown id is skipped without failing the
    /// message.  Every host is then flushed exactly once, and the returned
    /// vector holds, per host index, the bytes for that host's sink.
    /// Finally the new status snapshot is published to observers,
    /// best-effort.
    #[verifier::loop_isolation(false)]
    #[verifier::rlimit(50)]
    pub fn take_msg(&mut self, buf: &[u8], ip: Option<String>) -> (r: MapperResult<
        Vec<Option<Vec<u8>>>,
    >)
        requires
            old(self).wf(),
        ensures
            final(self).wf(),
            final(self).sender == old(self).sender,
            ({
                let (cs, err) = spec_parse(buf@);
                match err {
                    Some(e) => {
                        &&& r == MapperResult::<Vec<Option<Vec<u8>>>>::Err(
                            MapperError::ParserError(e),
                        )
                        &&& final(self).effects@ == old(self).effects@
                        &&& final(self).effect_hosts@ == old(self).effect_hosts@
                        &&& final(self).parser@ =~= cs
                    },
                    None => {
                        let st0 = RouteState {
                            effects: old(self).effects_view(),
                            hosts: old(self).hosts_view(),
                            tag: None,
                        };
                        let st1 = apply_cmds(st0, cs, opt_view(ip));
                        &&& final(self).effects_view() =~= st1.effects
                        &&& final(self).hosts_view() =~= st1.hosts.map_values(
                            |h: HostView| host_after_flush(h),
                        )
                        &&& final(self).parser@ =~= cs
                        &&& (r matches Ok(outs) && outs@.len() == st1.hosts.len() && (forall|
                            m: int,
                        |
                            0 <= m < st1.hosts.len() ==> out_matches(
                                #[trigger] outs@[m],
                                host_flush_output(st1.hosts[m]),
                            )))
                    },
                }
            }),
    {
        let ghost st0 = RouteState {
            effects: self.effects_view(),
            hosts: self.hosts_view(),
            tag: None,
        };
        match self.parser.read_from(buf) {
            Ok(_) => {},
            Err(e) => {
                return Err(MapperError::from(e));
            },
        }
        let ghost cs = spec_parse(buf@).0;
        let ghost ipv = opt_view(ip);

        let mut last_nick: Option<String> = None;
        let mut k: usize = 0;
        while k < self.parser.cmds.len()
            invariant
                k <= self.parser.cmds@.len(),
                self.parser@ =~= cs,
                ({
                    let stk = apply_cmds(st0, cs.take(k as int), ipv);
                    &&& self.effects_view() =~= stk.effects
                    &&& self.hosts_view() =~= stk.hosts
                    &&& opt_view(last_nick) == stk.tag
                }),
                self.wf(),
                self.sender == old(self).sender,
            decreases self.parser.cmds@.len() - k,
        {
            let ghost stk = apply_cmds(st0, cs.take(k as int), ipv);
            proof {
                lemma_apply_cmds_step(st0, cs, ipv, k as int);
                assert(cs[k as int] == self.parser@[k as int]);
            }
            match &self.parser.cmds[k] {
                Command::Nick { nick } => {
                    last_nick = Some(nick.clone());
                },
                Command::RgbLight { id, red, green, blue, .. } => {
                    let idu = *id;
                    let cr = *red;
                    let cg = *green;
                    let cb = *blue;
                    match find_effect_index(&self.effects, idu) {
                        None => {
                            proof {
                                assert(find_effect(stk.effects, idu) is None);
                            }
                        },
                        Some(j) => {
                            let ghost pre_ev = self.effects_view();
                            let ghost pre_hv = self.hosts_view();
                            proof {
                                lemma_find_effect(pre_ev, idu, 0);
                                assert(pre_ev[j as int].id == idu);
                            }
                            let e = &mut self.effects[j];
                            e.last_ip = clone_opt(&ip);
                            e.last_tag = clone_opt(&last_nick);
                            let hi = e.host_index;
                            let address = e.address;
                            let cmd2: LightCommand = match &mut e.kind {
                                EffectKind::Rgb(light) => {
                                    light.red = cr;
                                    light.green = cg;
                                    light.blue = cb;
                                    LightCommand::Rgb {
                                        id: idu as usize,
                                        address,
                                        red: cr,
                                        green: cg,
                                        blue: cb,
                                    }
                                },
                                EffectKind::Uv(light) => {
                                    let luma: u16 = (cr as u16) * 2 + (cg as u16) * 7 + (
                                    cb as u16);
                                    light.intensity = (luma / 10) as u8;
                                    LightCommand::Uv {
                                        id: idu as usize,
                                        address,
                                        intensity: light.intensity,
                                    }
                                },
                            };
                            proof {
                                assert(e@ =~= spec_effect_updated(
                                    pre_ev[j as int],
                                    cr,
                                    cg,
                                    cb,
                                    stk.tag,
                                    ipv,
                                ));
                                assert(cmd2 == spec_effect_cmd(pre_ev[j as int], cr, cg, cb));
                            }
                            let host = &mut self.effect_hosts[hi];
                            proof {
                                assert(pre_hv[hi as int] == host@);
                                assert(effect_fits(pre_ev[j as int], pre_hv[hi as int]));
                                assert(host_accepts(host@, cmd2));
                            }
                            host.take_command(&cmd2);
                            proof {
                                let upd = spec_effect_updated(
                                    pre_ev[j as int],
                                    cr,
                                    cg,
                                    cb,
                                    stk.tag,
                                    ipv,
                                );
                                let stk1 = apply_cmds(st0, cs.take(k + 1), ipv);
                                assert(self.effects_view() =~= pre_ev.update(j as int, upd));
                                assert(self.hosts_view() =~= pre_hv.update(
                                    hi as int,
                                    host_take(pre_hv[hi as int], cmd2),
                                ));
                                assert(stk1.effects =~= self.effects_view());
                                assert(stk1.hosts =~= self.hosts_view());
                                // The invariant survives: ids, placement and
                                // host shapes are untouched by the update.
                                assert forall|a: int, b: int|
                                    0 <= a < b < self.effects_view().len() implies (
                                self.effects_view()[a]).id < (self.effects_view()[b]).id by {
                                    assert(self.effects_view()[a].id == pre_ev[a].id);
                                    assert(self.effects_view()[b].id == pre_ev[b].id);
                                }
                                assert forall|m: int|
                                    0 <= m < self.effects_view().len() implies {
                                    let ef = #[trigger] self.effects_view()[m];
                                    &&& (ef.host_index as int) < self.hosts_view().len()
                                    &&& effect_fits(ef, self.hosts_view()[ef.host_index as int])
                                } by {
                                    let ef = self.effects_view()[m];
                                    let efp = pre_ev[m];
                                    assert(ef.host_index == efp.host_index && ef.address
                                        == efp.address);
                                    assert(self.hosts_view()[efp.host_index as int] is Bus
                                        <==> pre_hv[efp.host_index as int] is Bus);
                                }
                            }
                        },
                    }
                },
            }
            k = k + 1;
        }
        proof {
            assert(cs.take(cs.len() as int) =~= cs);
        }

        // Flush every host device exactly once; one host's missing sink or
        // failing write never skips another.
        let ghost st1 = apply_cmds(st0, cs, ipv);
        let mut outs: Vec<Option<Vec<u8>>> = Vec::new();
        let mut h: usize = 0;
        while h < self.effect_hosts.len()
            invariant
                h <= self.effect_hosts@.len(),
                outs@.len() == h,
                self.effect_hosts@.len() == st1.hosts.len(),
                forall|m: int|
                    h <= m < st1.hosts.len() ==> (#[trigger] self.hosts_view()[m])
                        =~= st1.hosts[m],
                forall|m: int|
                    0 <= m < h ==> (#[trigger] self.hosts_view()[m]) =~= host_after_flush(
                        st1.hosts[m],
                    ),
                forall|m: int|
                    0 <= m < h ==> out_matches(
                        #[trigger] outs@[m],
                        host_flush_output(st1.hosts[m]),
                    ),
                forall|m: int|
                    0 <= m < self.effect_hosts@.len() ==> (
                    #[trigger] self.effect_hosts@[m]).wf(),
                self.effects_view() =~= st1.effects,
                self.parser@ =~= cs,
                self.sender == old(self).sender,
            decreases self.effect_hosts@.len() - h,
        {
            let ghost pre_hv = self.hosts_view();
            let host = &mut self.effect_hosts[h];
            let out = host.flush();
            outs.push(out);
            proof {
                assert(self.hosts_view() =~= pre_hv.update(h as int, host_after_flush(
                    pre_hv[h as int],
                )));
            }
            h = h + 1;
        }
        proof {
            assert(self.hosts_view() =~= st1.hosts.map_values(
                |hv: HostView| host_after_flush(hv),
            ));
            assert forall|m: int|
                0 <= m < self.effects_view().len() implies {
                let ef = #[trigger] self.effects_view()[m];
                &&& (ef.host_index as int) < self.hosts_view().len()
                &&& effect_fits(ef, self.hosts_view()[ef.host_index as int])
            } by {
                let ef = self.effects_view()[m];
                assert(self.hosts_view()[ef.host_index as int] is Bus <==> st1.hosts[
                    ef.host_index as int] is Bus);
            }
        }

        // Update the status bus; publishing is best-effort.
        let status = self.get_status_message();
        let _ = publish_status(&self.sender, status);

        Ok(outs)
    }
}

/// Law: routing a message never adds or removes lights or devices — the
/// registry keeps its size and its id order, and the host table its size,
/// so every snapshot published afterwards covers the full registry in the
/// same ascending id order.
pub proof fn lemma_apply_cmds_preserves_registry(
    st: RouteState,
    cmds: Seq<SpecCommand>,
    ip: Option<Seq<char>>,
)
    requires
        forall|i: int|
            0 <= i < st.effects.len() ==> ((#[trigger] st.effects[i]).host_index as int)
                < st.hosts.len(),
    ensures
        apply_cmds(st, cmds, ip).effects.len() == st.effects.len(),
        apply_cmds(st, cmds, ip).hosts.len() == st.hosts.len(),
        forall|i: int|
            0 <= i < st.effects.len() ==> (#[trigger] apply_cmds(st, cmds, ip).effects[i]).id
                == st.effects[i].id,
    decreases cmds.len(),
{
    if cmds.len() > 0 {
        let st1 = apply_cmd(st, cmds[0], ip);
        match cmds[0] {
            SpecCommand::Nick { .. } => {
                assert(st1.effects == st.effects);
                assert(st1.hosts == st.hosts);
            },
            SpecCommand::RgbLight { id, .. } => {
                match find_effect(st.effects, id) {
                    None => {
                        assert(st1.effects == st.effects);
                        assert(st1.hosts == st.hosts);
                    },
                    Some(j) => {
                        lemma_find_effect(st.effects, id, 0);
                        assert((st.effects[j].host_index as int) < st.hosts.len());
                        assert(st1.effects.len() == st.effects.len());
                        assert(st1.hosts.len() == st.hosts.len());
                        assert forall|i: int| 0 <= i < st.effects.len() implies (
                        #[trigger] st1.effects[i]).id == st.effects[i].id by {
                            if i != j {
                                assert(st1.effects[i] == st.effects[i]);
                            }
                        }
                    },
                }
            },
        }
        assert forall|i: int| 0 <= i < st1.effects.len() implies ((
        #[trigger] st1.effects[i]).host_index as int) < st1.hosts.len() by {
            assert(st1.effects[i].host_index == st.effects[i].host_index);
        }
        lemma_apply_cmds_preserves_registry(st1, cmds.drop_first(), ip);
    }
}

/// Law: a light command for an id not present in the registry changes
/// nothing — no light's state moves and no device receives a command.
pub proof fn lemma_unknown_id_no_effect(
    st: RouteState,
    id: u8,
    light_type: u8,
    red: u8,
    green: u8,
    blue: u8,
    ip: Option<Seq<char>>,
)
    requires
        find_effect(st.effects, id) is None,
    ensures
        apply_cmd(st, SpecCommand::RgbLight { id, light_type, red, green, blue }, ip) == st,
{
}

} // verus!
