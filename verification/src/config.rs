//! Validated configuration topology: server addresses, host devices, and the
//! mapping from logical light ids to hosts.  Reading configuration files and
//! deserializing them is left to callers; the library receives plain values.

use vstd::prelude::*;

verus! {

/// Configuration root level.
pub struct Root {
    /// Server configuration.
    pub server: Server,
    /// Effect devices, in declaration order; the position of a host in this
    /// list becomes its stable driver index.
    pub hosts: Vec<(String, Host)>,
    /// Logical device mapping.
    pub mapping: Mapping,
}

/// API server configuration.
pub struct Server {
    /// UDP host address to accept packets on.
    pub udp_addr: String,
    /// Host address to serve the Web page and API on.
    pub web_addr: String,
    /// Host address to accept WebSocket connections on.
    pub websocket_addr: String,
}

/// Maps logical addresses to physical devices.
pub struct Mapping {
    /// Pairs of logical address and light info.
    pub lights: Vec<(u8, Light)>,
}

/// Individual light source that can be controlled over DMX or a similar bus.
pub enum Light {
    Rgb {
        /// Host device to use.
        host: String,
        /// DMX address to use.
        address: u16,
        /// Human-readable name.
        name: Option<String>,
    },
    Uv {
        /// Host device to use.
        host: String,
        /// DMX address to use.
        address: u16,
        /// Human-readable name.
        name: Option<String>,
    },
}

/// Host device configuration.
pub enum Host {
    Enttec {
        /// Path to a serial device; `None` runs the device dry.
        path: Option<String>,
    },
    Proxy {
        /// Target UDP address.
        addr: String,
    },
}

impl Light {
    /// The name of the host this light is mapped to.
    pub open spec fn spec_host(&self) -> Seq<char> {
        match self {
            Light::Rgb { host, .. } => host@,
            Light::Uv { host, .. } => host@,
        }
    }

    /// The driver-specific address of this light.
    pub open spec fn spec_address(&self) -> u16 {
        match self {
            Light::Rgb { address, .. } => *address,
            Light::Uv { address, .. } => *address,
        }
    }
}

/// Index of the first host named `name` at or after position `j`.
pub open spec fn host_index_from(hosts: Seq<(String, Host)>, name: Seq<char>, j: int) -> Option<
    int,
>
    recommends
        0 <= j <= hosts.len(),
    decreases hosts.len() - j when 0 <= j <= hosts.len()
{
    if j >= hosts.len() {
        None
    } else if hosts[j].0@ == name {
        Some(j)
    } else {
        host_index_from(hosts, name, j + 1)
    }
}

/// Index of the first host named `name`, if any.
pub open spec fn host_index_of(hosts: Seq<(String, Host)>, name: Seq<char>) -> Option<int> {
    host_index_from(hosts, name, 0)
}

/// A configuration is consistent when every light's declared host resolves to
/// a declared host device.
pub open spec fn spec_config_ok(root: Root) -> bool {
    forall|i: int|
        0 <= i < root.mapping.lights@.len() ==> host_index_of(
            root.hosts@,
            #[trigger] root.mapping.lights@[i].1.spec_host(),
        ) is Some
}

/// Look up a host device by name, returning its stable driver index.
pub fn find_host_index(hosts: &Vec<(String, Host)>, name: &String) -> (r: Option<usize>)
    ensures
        match r {
            Some(j) => host_index_of(hosts@, name@) == Some(j as int) && j < hosts@.len(),
            None => host_index_of(hosts@, name@) is None,
        },
{
    let mut j: usize = 0;
    while j < hosts.len()
        invariant
            j <= hosts@.len(),
            host_index_of(hosts@, name@) == host_index_from(hosts@, name@, j as int),
        decreases hosts@.len() - j,
    {
        if hosts[j].0.eq(name) {
            return Some(j);
        }
        proof {
            assert(host_index_from(hosts@, name@, j as int) == host_index_from(
                hosts@,
                name@,
                j + 1,
            ));
        }
        j = j + 1;
    }
    None
}

/// Do a quick sanity check for the config: every light must refer to a
/// declared host.
pub fn check_config(root: &Root) -> (ok: bool)
    ensures
        ok == spec_config_ok(*root),
{
    let lights = &root.mapping.lights;
    let mut i: usize = 0;
    while i < lights.len()
        invariant
            lights@ == root.mapping.lights@,
            i <= lights@.len(),
            forall|m: int|
                0 <= m < i ==> host_index_of(
                    root.hosts@,
                    #[trigger] lights@[m].1.spec_host(),
                ) is Some,
        decreases lights@.len() - i,
    {
        match &lights[i].1 {
            Light::Rgb { host, .. } => {
                if find_host_index(&root.hosts, host).is_none() {
                    proof {
                        assert(root.mapping.lights@[i as int].1.spec_host() == host@);
                        assert(host_index_of(
                            root.hosts@,
                            root.mapping.lights@[i as int].1.spec_host(),
                        ) is None);
                        assert(!spec_config_ok(*root));
                    }
                    return false;
                }
            },
            Light::Uv { host, .. } => {
                if find_host_index(&root.hosts, host).is_none() {
                    proof {
                        assert(root.mapping.lights@[i as int].1.spec_host() == host@);
                        assert(host_index_of(
                            root.hosts@,
                            root.mapping.lights@[i as int].1.spec_host(),
                        ) is None);
                        assert(!spec_config_ok(*root));
                    }
                    return false;
                }
            },
        }
        i = i + 1;
    }
    true
}

} // verus!
