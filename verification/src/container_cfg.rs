//! Pieces of the Apple container configuration derived from a request:
//! the init process's user and the filesystem entries of mounts.

use vstd::prelude::*;
use vstd::string::*;
use crate::error::Error;
use crate::json::string_views;
use crate::mounts::{AccessMode, Mount, MountType};
use crate::ports::{ContainerPort, PortMapping, port_number, protocol_text};
use crate::image_config::{ImageConfig, effective_argv, opt_views, no_command_text};
use crate::xpc::{normalize_image_reference, normalized_reference, normalize_platform};
use crate::json::pair_views;
use crate::text::{
    before_first, decimal, find_first, index_of_first, lemma_find_first, octal_text, parse_u32,
    prefix_until, push_decimal, push_octal, split_around, u32_from_str,
};

verus! {

broadcast use vstd::string::group_string_axioms;

/// The user an init process runs as.
#[derive(Debug, Clone)]
pub enum ProcessUser {
    /// Numeric user and group ids.
    Id { uid: u32, gid: u32 },
    /// A user string resolved inside the container (`name`, `name:group`).
    Raw { user_string: String },
}

/// The user of a request's `user` string: none or empty is root; a leading
/// number is a uid, with an optional `:gid` (which must then be a number
/// too); anything else is resolved by name inside the container.
pub open spec fn parsed_user_ok(user: Option<Seq<char>>, r: ProcessUser) -> bool {
    match user {
        None => r == ProcessUser::Id { uid: 0, gid: 0 },
        Some(u) => if u.len() == 0 {
            r == ProcessUser::Id { uid: 0, gid: 0 }
        } else {
            let b = vstd::utf8::encode_utf8(u);
            match find_first(b, 58) {
                None => match u32_from_str(u) {
                    Some(uid) => r == ProcessUser::Id { uid, gid: 0 },
                    None => r matches ProcessUser::Raw { user_string } && user_string@ == u,
                },
                Some(i) => match u32_from_str(vstd::utf8::decode_utf8(b.take(i))) {
                    Some(uid) => r matches ProcessUser::Id { uid: x, gid } && x == uid && Some(gid)
                        == u32_from_str(vstd::utf8::decode_utf8(b.subrange(i + 1, b.len() as int))),
                    None => r matches ProcessUser::Raw { user_string } && user_string@ == u,
                },
            }
        },
    }
}

/// The text of an optional string slice.
pub open spec fn opt_str_view(s: Option<&str>) -> Option<Seq<char>> {
    match s {
        Some(s) => Some(s@),
        None => None,
    }
}

/// Is the user string a number followed by `:` and a group that is no
/// number?
pub open spec fn bad_gid(user: Option<Seq<char>>) -> bool {
    match user {
        None => false,
        Some(u) => {
            let b = vstd::utf8::encode_utf8(u);
            u.len() > 0 && match find_first(b, 58) {
                None => false,
                Some(i) => u32_from_str(vstd::utf8::decode_utf8(b.take(i))) is Some
                    && u32_from_str(vstd::utf8::decode_utf8(b.subrange(i + 1, b.len() as int)))
                    is None,
            }
        },
    }
}

/// Parses a request's `user` string.
pub fn parse_user(user: Option<&str>) -> (r: Result<ProcessUser, Error>)
    ensures
        bad_gid(opt_str_view(user)) ==> (r matches Err(Error::Other(m)) && m@
            == "invalid gid in user string: "@ + opt_str_view(user)->0),
        !bad_gid(opt_str_view(user)) ==> (r matches Ok(p) && parsed_user_ok(opt_str_view(user), p)),
{
    let u = match user {
        None => {
            return Ok(ProcessUser::Id { uid: 0, gid: 0 });
        },
        Some(u) => u,
    };
    if u.is_empty() {
        return Ok(ProcessUser::Id { uid: 0, gid: 0 });
    }
    let bytes = u.as_bytes();
    proof {
        lemma_find_first(bytes@, 58);
    }
    match index_of_first(bytes, 58) {
        None => match parse_u32(u) {
            Some(uid) => Ok(ProcessUser::Id { uid, gid: 0 }),
            None => Ok(ProcessUser::Raw { user_string: String::from_str(u) }),
        },
        Some(i) => {
            let (uid_str, gid_str) = split_around(u, i);
            proof {
                vstd::utf8::encode_utf8_decode_utf8(uid_str@);
                vstd::utf8::encode_utf8_decode_utf8(gid_str@);
                assert(bytes@.take(i as int) =~= bytes@.subrange(0, i as int));
            }
            match parse_u32(uid_str) {
                Some(uid) => match parse_u32(gid_str) {
                    Some(gid) => Ok(ProcessUser::Id { uid, gid }),
                    None => {
                        let mut msg = String::from_str("invalid gid in user string: ");
                        msg.append(u);
                        Err(Error::other(msg))
                    },
                },
                None => Ok(ProcessUser::Raw { user_string: String::from_str(u) }),
            }
        },
    }
}

/// A filesystem entry of the container configuration.
#[derive(Debug)]
pub struct MountCfg {
    pub source: String,
    pub destination: String,
    /// `virtiofs`, `volume` or `tmpfs`.
    pub fs_type: String,
    pub volume_name: Option<String>,
    /// `ro` or `rw`, then for a tmpfs `size=<bytes>` and `mode=<octal>`.
    pub options: Vec<String>,
}

/// A path that may be missing, as text (missing is empty).
pub open spec fn or_empty(s: Option<String>) -> Seq<char> {
    match s {
        Some(s) => s@,
        None => Seq::empty(),
    }
}

/// The options of a mount's filesystem entry.
pub open spec fn mount_options(m: Mount) -> Seq<Seq<char>> {
    let access = if m.access_mode == AccessMode::ReadOnly {
        "ro"@
    } else {
        "rw"@
    };
    if m.mount_type == MountType::Tmpfs && m.tmpfs_options is Some {
        let o = m.tmpfs_options->0;
        seq![access] + (match o.size_bytes {
            Some(n) => seq!["size="@ + decimal(n as nat)],
            None => Seq::empty(),
        }) + (match o.mode {
            Some(n) => seq!["mode="@ + octal_text(n as nat)],
            None => Seq::empty(),
        })
    } else {
        seq![access]
    }
}

fn copy_or_empty(s: &Option<String>) -> (r: String)
    ensures
        r@ == or_empty(*s),
{
    match s {
        Some(s) => String::from_str(s.as_str()),
        None => String::new(),
    }
}

/// `r` is the filesystem entry of `m`.
pub open spec fn mount_cfg_of(m: Mount, r: MountCfg) -> bool {
    &&& r.destination@ == or_empty(m.target)
    &&& string_views(r.options@) == mount_options(m)
    &&& match m.mount_type {
        MountType::Bind => r.source@ == or_empty(m.source) && r.fs_type@ == "virtiofs"@
            && r.volume_name is None,
        MountType::Volume => r.source@ == or_empty(m.source) && r.fs_type@ == "volume"@ && match m.source {
            Some(s) => r.volume_name matches Some(v) && v@ == s@,
            None => r.volume_name is None,
        },
        MountType::Tmpfs => r.source@ == "tmpfs"@ && r.fs_type@ == "tmpfs"@ && r.volume_name is None,
    }
}

/// The filesystem entry of a mount: a bind is shared through virtiofs, a
/// volume by its name, a tmpfs created fresh.
pub fn mount_cfg(m: &Mount) -> (r: MountCfg)
    ensures
        mount_cfg_of(*m, r),
{
    let (source, fs_type, volume_name) = match m.mount_type {
        MountType::Bind => (copy_or_empty(&m.source), String::from_str("virtiofs"), None),
        MountType::Volume => (
            copy_or_empty(&m.source),
            String::from_str("volume"),
            match &m.source {
                Some(s) => Some(String::from_str(s.as_str())),
                None => None,
            },
        ),
        MountType::Tmpfs => (String::from_str("tmpfs"), String::from_str("tmpfs"), None),
    };
    let destination = copy_or_empty(&m.target);
    let mut options: Vec<String> = Vec::new();
    let readonly = match m.access_mode {
        AccessMode::ReadOnly => true,
        AccessMode::ReadWrite => false,
    };
    if readonly {
        options.push(String::from_str("ro"));
    } else {
        options.push(String::from_str("rw"));
    }
    let ghost first = string_views(options@);
    let mut extra: Vec<String> = Vec::new();
    if m.mount_type == MountType::Tmpfs {
        match m.tmpfs_options {
            Some(o) => {
                match o.size_bytes {
                    Some(n) => {
                        let mut opt = String::from_str("size=");
                        push_decimal(&mut opt, n as u128);
                        extra.push(opt);
                    },
                    None => {},
                }
                let ghost with_size = string_views(extra@);
                match o.mode {
                    Some(n) => {
                        let mut opt = String::from_str("mode=");
                        push_octal(&mut opt, n);
                        let ghost prev = extra@;
                        extra.push(opt);
                        proof {
                            assert(string_views(extra@) =~= string_views(prev).push(opt@));
                        }
                    },
                    None => {},
                }
                proof {
                    assert(with_size =~= match o.size_bytes {
                        Some(n) => seq!["size="@ + decimal(n as nat)],
                        None => Seq::<Seq<char>>::empty(),
                    });
                    assert(string_views(extra@) =~= with_size + match o.mode {
                        Some(n) => seq!["mode="@ + octal_text(n as nat)],
                        None => Seq::<Seq<char>>::empty(),
                    });
                }
            },
            None => {},
        }
    }
    let ghost extra_views = string_views(extra@);
    let mut k: usize = 0;
    while k < extra.len()
        invariant
            k <= extra@.len(),
            extra_views == string_views(extra@),
            string_views(options@) == first + extra_views.take(k as int),
        decreases extra@.len() - k,
    {
        let ghost prev = options@;
        options.push(String::from_str(extra[k].as_str()));
        proof {
            assert(string_views(options@) =~= string_views(prev).push(extra_views[k as int]));
            assert(extra_views.take(k + 1) =~= extra_views.take(k as int).push(extra_views[k as int]));
        }
        k += 1;
    }
    proof {
        assert(extra_views.take(k as int) =~= extra_views);
        assert(string_views(options@) =~= mount_options(*m));
    }
    MountCfg { source, destination, fs_type, volume_name, options }
}

/// What a container creation needs from a request.
#[derive(Debug)]
pub struct CfgRequest {
    /// The image reference (`name:tag`).
    pub descriptor: String,
    pub entrypoint: Option<String>,
    pub cmd: Vec<String>,
    pub env: Vec<(String, String)>,
    pub working_dir: Option<String>,
    pub mounts: Vec<Mount>,
    pub ports: Option<Vec<PortMapping>>,
    pub expose_ports: Vec<ContainerPort>,
    pub platform: Option<String>,
    pub privileged: bool,
    pub cap_add: Option<Vec<String>>,
    pub cap_drop: Option<Vec<String>>,
    pub network: Option<String>,
    pub hostname: Option<String>,
    pub container_name: Option<String>,
    pub init: bool,
    pub shm_size: Option<u64>,
    pub user: Option<String>,
    pub ssh: bool,
    pub readonly_rootfs: bool,
    pub labels: Vec<(String, String)>,
    pub open_stdin: Option<bool>,
}

/// A published port of the container configuration.
#[derive(Debug)]
pub struct PortCfg {
    pub host_address: String,
    pub host_port: u16,
    pub container_port: u16,
    pub proto: String,
}

/// The container configuration sent to create a container (all but its
/// creation time).
#[derive(Debug)]
pub struct ContainerCfg {
    pub id: String,
    pub hostname: String,
    pub image_ref: String,
    pub image_descriptor: String,
    pub mounts: Vec<MountCfg>,
    pub ports: Vec<PortCfg>,
    pub init_exe: String,
    pub init_args: Vec<String>,
    pub init_env: Vec<String>,
    pub working_directory: String,
    pub use_init: bool,
    pub cap_add: Vec<String>,
    pub cap_drop: Vec<String>,
    pub shm_size: Option<u64>,
    pub user: ProcessUser,
    pub network: String,
    pub architecture: String,
    pub rosetta: bool,
    pub ssh: bool,
    pub read_only: bool,
    pub labels: Vec<(String, String)>,
    pub cpus: i32,
    pub terminal: bool,
}

/// Port number and protocol of a port.
pub open spec fn port_id(p: ContainerPort) -> (u16, Seq<char>) {
    (port_number(p), protocol_text(p))
}

/// The published ports a request maps explicitly.
pub open spec fn mapped_ids(ports: Option<Vec<PortMapping>>) -> Seq<(u16, Seq<char>)> {
    match ports {
        Some(ps) => ps@.map_values(|m: PortMapping| port_id(m.container_port)),
        None => Seq::empty(),
    }
}

/// The exposed ports that need a host port of their own: those not mapped
/// already (nor exposed earlier), in order.
pub open spec fn ports_needing_host(mapped: Seq<(u16, Seq<char>)>, exposed: Seq<ContainerPort>) -> Seq<
    ContainerPort,
>
    decreases exposed.len(),
{
    if exposed.len() == 0 {
        Seq::empty()
    } else {
        let earlier = ports_needing_host(mapped, exposed.drop_last());
        let id = port_id(exposed.last());
        if mapped.contains(id) || earlier.map_values(|p: ContainerPort| port_id(p)).contains(id) {
            earlier
        } else {
            earlier.push(exposed.last())
        }
    }
}

/// Is any of the ports, mapped or exposed, an SCTP port?
pub open spec fn has_sctp(req: CfgRequest) -> bool {
    (exists|i: int| 0 <= i < req.expose_ports@.len() && #[trigger] req.expose_ports@[i] is Sctp)
        || (req.ports matches Some(ps) && exists|i: int|
        0 <= i < ps@.len() && (#[trigger] ps@[i]).container_port is Sctp)
}

/// Refuses a request that publishes or exposes an SCTP port, which the
/// Apple container service cannot publish.
fn reject_sctp_ports(req: &CfgRequest) -> (r: Result<(), Error>)
    ensures
        !has_sctp(*req) ==> r is Ok,
        has_sctp(*req) ==> (r matches Err(Error::Other(m)) && m@
            == "SCTP port publishing is not supported on Apple container"@),
{
    if has_sctp_exec(req) {
        return Err(Error::other(String::from_str("SCTP port publishing is not supported on Apple container")));
    }
    Ok(())
}

fn has_sctp_exec(req: &CfgRequest) -> (r: bool)
    ensures
        r == has_sctp(*req),
{
    let mut i: usize = 0;
    while i < req.expose_ports.len()
        invariant
            i <= req.expose_ports@.len(),
            forall|j: int| 0 <= j < i ==> !(#[trigger] req.expose_ports@[j] is Sctp),
        decreases req.expose_ports@.len() - i,
    {
        if let ContainerPort::Sctp(_) = req.expose_ports[i] {
            return true;
        }
        i += 1;
    }
    match &req.ports {
        Some(ps) => {
            let mut k: usize = 0;
            while k < ps.len()
                invariant
                    k <= ps@.len(),
                    req.ports == Some::<Vec<PortMapping>>(*ps),
                    forall|j: int| 0 <= j < req.expose_ports@.len() ==> !(
                    #[trigger] req.expose_ports@[j] is Sctp),
                    forall|j: int| 0 <= j < k ==> !((#[trigger] ps@[j]).container_port is Sctp),
                decreases ps@.len() - k,
            {
                if let ContainerPort::Sctp(_) = ps[k].container_port {
                    assert(ps@[k as int].container_port is Sctp);
                    return true;
                }
                k += 1;
            }
            false
        },
        None => false,
    }
}

fn id_known(ids: &Vec<(u16, String)>, port: ContainerPort) -> (r: bool)
    ensures
        r == ids@.map_values(|e: (u16, String)| (e.0, e.1@)).contains(port_id(port)),
{
    let ghost v = ids@.map_values(|e: (u16, String)| (e.0, e.1@));
    let n = port.as_u16();
    let proto = port.as_str();
    let mut i: usize = 0;
    while i < ids.len()
        invariant
            i <= ids@.len(),
            v == ids@.map_values(|e: (u16, String)| (e.0, e.1@)),
            n == port_number(port),
            proto@ == protocol_text(port),
            forall|j: int| 0 <= j < i ==> v[j] != port_id(port),
        decreases ids@.len() - i,
    {
        if ids[i].0 == n && crate::text::str_eq(ids[i].1.as_str(), proto) {
            assert(v[i as int] == port_id(port));
            return true;
        }
        i += 1;
    }
    false
}

/// The exposed ports of `req` that need a host port allocated for them.
pub fn ports_to_allocate(req: &CfgRequest) -> (r: Vec<ContainerPort>)
    ensures
        r@ == ports_needing_host(mapped_ids(req.ports), req.expose_ports@),
{
    let mut ids: Vec<(u16, String)> = Vec::new();
    match &req.ports {
        Some(ps) => {
            let mut k: usize = 0;
            while k < ps.len()
                invariant
                    k <= ps@.len(),
                    ids@.map_values(|e: (u16, String)| (e.0, e.1@)) == ps@.take(k as int).map_values(
                        |m: PortMapping| port_id(m.container_port),
                    ),
                decreases ps@.len() - k,
            {
                let cp = ps[k].container_port;
                let ghost prev = ids@;
                ids.push((cp.as_u16(), String::from_str(cp.as_str())));
                proof {
                    assert(ids@.map_values(|e: (u16, String)| (e.0, e.1@)) =~= prev.map_values(
                        |e: (u16, String)| (e.0, e.1@),
                    ).push(port_id(cp)));
                    assert(ps@.take(k + 1).map_values(|m: PortMapping| port_id(m.container_port))
                        =~= ps@.take(k as int).map_values(|m: PortMapping| port_id(m.container_port)).push(
                        port_id(cp),
                    ));
                }
                k += 1;
            }
            proof {
                assert(ps@.take(k as int) =~= ps@);
            }
        },
        None => {
            assert(ids@.map_values(|e: (u16, String)| (e.0, e.1@)) =~= Seq::<(u16, Seq<char>)>::empty());
        },
    }
    let ghost mapped = mapped_ids(req.ports);
    let mut out: Vec<ContainerPort> = Vec::new();
    let mut i: usize = 0;
    while i < req.expose_ports.len()
        invariant
            i <= req.expose_ports@.len(),
            mapped == mapped_ids(req.ports),
            out@ == ports_needing_host(mapped, req.expose_ports@.take(i as int)),
            ids@.map_values(|e: (u16, String)| (e.0, e.1@)) == mapped + out@.map_values(
                |p: ContainerPort| port_id(p),
            ),
        decreases req.expose_ports@.len() - i,
    {
        let e = req.expose_ports[i];
        proof {
            assert(req.expose_ports@.take(i + 1).drop_last() =~= req.expose_ports@.take(i as int));
            let all = mapped + out@.map_values(|p: ContainerPort| port_id(p));
            assert(all.contains(port_id(e)) == (mapped.contains(port_id(e)) || out@.map_values(
                |p: ContainerPort| port_id(p),
            ).contains(port_id(e)))) by {
                if all.contains(port_id(e)) {
                    let j = choose|j: int| 0 <= j < all.len() && all[j] == port_id(e);
                    if j >= mapped.len() {
                        assert(out@.map_values(|p: ContainerPort| port_id(p))[j - mapped.len()] == port_id(e));
                    }
                }
                let ov = out@.map_values(|p: ContainerPort| port_id(p));
                if mapped.contains(port_id(e)) {
                    let j = choose|j: int| 0 <= j < mapped.len() && #[trigger] mapped[j] == port_id(e);
                    assert(all[j] == port_id(e));
                }
                if ov.contains(port_id(e)) {
                    let j = choose|j: int| 0 <= j < ov.len() && #[trigger] ov[j] == port_id(e);
                    assert(all[mapped.len() + j] == port_id(e));
                }
            }
        }
        if !id_known(&ids, e) {
            let ghost prev_ids = ids@;
            let ghost prev_out = out@;
            ids.push((e.as_u16(), String::from_str(e.as_str())));
            out.push(e);
            proof {
                assert(ids@.map_values(|e: (u16, String)| (e.0, e.1@)) =~= prev_ids.map_values(
                    |e: (u16, String)| (e.0, e.1@),
                ).push(port_id(e)));
                assert(out@.map_values(|p: ContainerPort| port_id(p)) =~= prev_out.map_values(
                    |p: ContainerPort| port_id(p),
                ).push(port_id(e)));
            }
        }
        i += 1;
    }
    proof {
        assert(req.expose_ports@.take(i as int) =~= req.expose_ports@);
    }
    out
}

/// A published port of the configuration as plain values.
pub open spec fn port_cfg_view(p: PortCfg) -> (Seq<char>, u16, u16, Seq<char>) {
    (p.host_address@, p.host_port, p.container_port, p.proto@)
}

/// The published ports: the request's mappings, then each port that needs
/// a host port with the one allocated for it, all on every host address.
pub open spec fn cfg_ports(ports: Option<Vec<PortMapping>>, needing: Seq<ContainerPort>, allocated: Seq<u16>) -> Seq<
    (Seq<char>, u16, u16, Seq<char>),
> {
    (match ports {
        Some(ps) => ps@.map_values(
            |m: PortMapping|
                ("0.0.0.0"@, m.host_port, port_number(m.container_port), protocol_text(m.container_port)),
        ),
        None => Seq::empty(),
    }) + Seq::new(
        needing.len(),
        |i: int| ("0.0.0.0"@, allocated[i], port_number(needing[i]), protocol_text(needing[i])),
    )
}

/// `KEY=VALUE` of each variable.
pub open spec fn env_lines(env: Seq<(String, String)>) -> Seq<Seq<char>> {
    env.map_values(|e: (String, String)| e.0@ + seq!['='] + e.1@)
}

/// The architecture and Rosetta use for a requested platform.
pub open spec fn platform_choice(p: Option<String>) -> (Seq<char>, bool) {
    let v = match p {
        Some(s) => Some(s@),
        None => None,
    };
    if v == Some("linux/amd64"@) || v == Some("amd64"@) {
        ("amd64"@, true)
    } else {
        ("arm64"@, false)
    }
}

fn push_port_cfg(ports: &mut Vec<PortCfg>, host_port: u16, port: ContainerPort)
    ensures
        final(ports)@.map_values(|p: PortCfg| port_cfg_view(p)) == old(ports)@.map_values(
            |p: PortCfg| port_cfg_view(p),
        ).push(("0.0.0.0"@, host_port, port_number(port), protocol_text(port))),
{
    let ghost prev = ports@;
    ports.push(
        PortCfg {
            host_address: String::from_str("0.0.0.0"),
            host_port,
            container_port: port.as_u16(),
            proto: String::from_str(port.as_str()),
        },
    );
    proof {
        assert(ports@.map_values(|p: PortCfg| port_cfg_view(p)) =~= prev.map_values(
            |p: PortCfg| port_cfg_view(p),
        ).push(("0.0.0.0"@, host_port, port_number(port), protocol_text(port))));
    }
}

fn copy_list(v: &Option<Vec<String>>) -> (r: Vec<String>)
    ensures
        string_views(r@) == match v {
            Some(v) => string_views(v@),
            None => Seq::<Seq<char>>::empty(),
        },
{
    let mut out: Vec<String> = Vec::new();
    match v {
        Some(v) => {
            let mut i: usize = 0;
            while i < v.len()
                invariant
                    i <= v@.len(),
                    string_views(out@) == string_views(v@.take(i as int)),
                decreases v@.len() - i,
            {
                let ghost prev = out@;
                out.push(String::from_str(v[i].as_str()));
                proof {
                    assert(string_views(out@) =~= string_views(prev).push(v@[i as int]@));
                    assert(string_views(v@.take(i + 1)) =~= string_views(v@.take(i as int)).push(
                        v@[i as int]@,
                    ));
                }
                i += 1;
            }
            proof {
                assert(v@.take(i as int) =~= v@);
            }
        },
        None => {
            assert(string_views(out@) =~= Seq::<Seq<char>>::empty());
        },
    }
    out
}

fn copy_or(v: &Option<String>, default: &str) -> (r: String)
    ensures
        r@ == match v {
            Some(s) => s@,
            None => default@,
        },
{
    match v {
        Some(s) => String::from_str(s.as_str()),
        None => String::from_str(default),
    }
}

/// The container configuration for a request, given the image's own
/// command and the host ports allocated for `ports_to_allocate(req)`, in
/// that order. Fails when there is nothing to run, when a port is SCTP, or
/// when the user string has a bad group.
pub fn build_config(
    req: &CfgRequest,
    id: &str,
    desc_raw: &str,
    image_config: &ImageConfig,
    allocated: &[u16],
) -> (r: Result<ContainerCfg, Error>)
    requires
        allocated@.len() == ports_needing_host(mapped_ids(req.ports), req.expose_ports@).len(),
    ensures
        ({
            let argv = effective_argv(
                opt_views(image_config.entrypoint),
                opt_views(image_config.cmd),
                match req.entrypoint {
                    Some(e) => Some(e@),
                    None => None,
                },
                string_views(req.cmd@),
            );
            let user = match req.user {
                Some(u) => Some(u@),
                None => None,
            };
            if argv is None {
                r matches Err(Error::Other(m)) && m@ == no_command_text()
            } else if has_sctp(*req) {
                r matches Err(Error::Other(m)) && m@
                    == "SCTP port publishing is not supported on Apple container"@
            } else if bad_gid(user) {
                r matches Err(Error::Other(m)) && m@ == "invalid gid in user string: "@ + user->0
            } else {
                r matches Ok(cfg) && {
                    &&& cfg.id@ == id@
                    &&& cfg.hostname@ == match req.hostname {
                        Some(h) => h@,
                        None => match req.container_name {
                            Some(n) => n@,
                            None => id@,
                        },
                    }
                    &&& cfg.image_ref@ == normalized_reference(req.descriptor@)
                    &&& cfg.image_descriptor@ == desc_raw@
                    &&& cfg.mounts@.len() == req.mounts@.len()
                    &&& forall|i: int| 0 <= i < req.mounts@.len() ==> mount_cfg_of(
                        #[trigger] req.mounts@[i],
                        cfg.mounts@[i],
                    )
                    &&& cfg.ports@.map_values(|p: PortCfg| port_cfg_view(p)) == cfg_ports(
                        req.ports,
                        ports_needing_host(mapped_ids(req.ports), req.expose_ports@),
                        allocated@,
                    )
                    &&& cfg.init_exe@ == argv->0[0]
                    &&& string_views(cfg.init_args@) == argv->0.drop_first()
                    &&& string_views(cfg.init_env@) == env_lines(req.env@)
                    &&& cfg.working_directory@ == match req.working_dir {
                        Some(w) => w@,
                        None => "/"@,
                    }
                    &&& cfg.use_init == req.init
                    &&& string_views(cfg.cap_add@) == if req.privileged {
                        seq!["ALL"@]
                    } else {
                        match req.cap_add {
                            Some(v) => string_views(v@),
                            None => Seq::<Seq<char>>::empty(),
                        }
                    }
                    &&& string_views(cfg.cap_drop@) == match req.cap_drop {
                        Some(v) => string_views(v@),
                        None => Seq::<Seq<char>>::empty(),
                    }
                    &&& cfg.shm_size == req.shm_size
                    &&& parsed_user_ok(user, cfg.user)
                    &&& cfg.network@ == match req.network {
                        Some(n) => n@,
                        None => "default"@,
                    }
                    &&& (cfg.architecture@, cfg.rosetta) == platform_choice(req.platform)
                    &&& cfg.ssh == req.ssh
                    &&& cfg.read_only == req.readonly_rootfs
                    &&& pair_views(cfg.labels@) == pair_views(req.labels@)
                    &&& cfg.cpus == 4
                    &&& cfg.terminal == (req.open_stdin == Some(true))
                }
            }
        }),
{
    let mut cmd_refs: Vec<&str> = Vec::new();
    let mut c: usize = 0;
    while c < req.cmd.len()
        invariant
            c <= req.cmd@.len(),
            cmd_refs@.map_values(|s: &str| s@) == string_views(req.cmd@.take(c as int)),
        decreases req.cmd@.len() - c,
    {
        let ghost prev = cmd_refs@;
        cmd_refs.push(req.cmd[c].as_str());
        proof {
            assert(cmd_refs@.map_values(|s: &str| s@) =~= prev.map_values(|s: &str| s@).push(
                req.cmd@[c as int]@,
            ));
            assert(string_views(req.cmd@.take(c + 1)) =~= string_views(req.cmd@.take(c as int)).push(
                req.cmd@[c as int]@,
            ));
        }
        c += 1;
    }
    proof {
        assert(req.cmd@.take(c as int) =~= req.cmd@);
    }
    let entrypoint: Option<&str> = match &req.entrypoint {
        Some(e) => Some(e.as_str()),
        None => None,
    };
    let (init_exe, init_args) = match image_config.effective_command(entrypoint, cmd_refs.as_slice()) {
        Ok(v) => v,
        Err(e) => {
            return Err(e);
        },
    };
    let mut init_env: Vec<String> = Vec::new();
    let mut k: usize = 0;
    while k < req.env.len()
        invariant
            k <= req.env@.len(),
            string_views(init_env@) == env_lines(req.env@.take(k as int)),
        decreases req.env@.len() - k,
    {
        let (key, value) = &req.env[k];
        let mut line = String::from_str(key.as_str());
        crate::text::push_char(&mut line, '=');
        line.append(value.as_str());
        assert(line@ =~= key@ + seq!['='] + value@);
        let ghost prev = init_env@;
        init_env.push(line);
        proof {
            assert(string_views(init_env@) =~= string_views(prev).push(line@));
            assert(env_lines(req.env@.take(k + 1)) =~= env_lines(req.env@.take(k as int)).push(
                key@ + seq!['='] + value@,
            ));
        }
        k += 1;
    }
    proof {
        assert(req.env@.take(k as int) =~= req.env@);
    }
    let image_ref = normalize_image_reference(req.descriptor.as_str());
    let working_directory = copy_or(&req.working_dir, "/");
    let mut mounts: Vec<MountCfg> = Vec::new();
    let mut m: usize = 0;
    while m < req.mounts.len()
        invariant
            m <= req.mounts@.len(),
            mounts@.len() == m,
            forall|i: int| 0 <= i < m ==> mount_cfg_of(#[trigger] req.mounts@[i], mounts@[i]),
        decreases req.mounts@.len() - m,
    {
        mounts.push(mount_cfg(&req.mounts[m]));
        m += 1;
    }
    reject_sctp_ports(req)?;
    let mut ports: Vec<PortCfg> = Vec::new();
    match &req.ports {
        Some(ps) => {
            let mut j: usize = 0;
            while j < ps.len()
                invariant
                    j <= ps@.len(),
                    ports@.map_values(|p: PortCfg| port_cfg_view(p)) == ps@.take(j as int).map_values(
                        |m: PortMapping|
                            ("0.0.0.0"@, m.host_port, port_number(m.container_port), protocol_text(
                                m.container_port,
                            )),
                    ),
                decreases ps@.len() - j,
            {
                push_port_cfg(&mut ports, ps[j].host_port, ps[j].container_port);
                proof {
                    assert(ps@.take(j + 1).map_values(
                        |m: PortMapping|
                            ("0.0.0.0"@, m.host_port, port_number(m.container_port), protocol_text(
                                m.container_port,
                            )),
                    ) =~= ps@.take(j as int).map_values(
                        |m: PortMapping|
                            ("0.0.0.0"@, m.host_port, port_number(m.container_port), protocol_text(
                                m.container_port,
                            )),
                    ).push(
                        (
                            "0.0.0.0"@,
                            ps@[j as int].host_port,
                            port_number(ps@[j as int].container_port),
                            protocol_text(ps@[j as int].container_port),
                        ),
                    ));
                }
                j += 1;
            }
            proof {
                assert(ps@.take(j as int) =~= ps@);
            }
        },
        None => {
            assert(ports@.map_values(|p: PortCfg| port_cfg_view(p)) =~= Seq::<
                (Seq<char>, u16, u16, Seq<char>),
            >::empty());
        },
    }
    let needing = ports_to_allocate(req);
    let ghost base = ports@.map_values(|p: PortCfg| port_cfg_view(p));
    let mut a: usize = 0;
    while a < needing.len()
        invariant
            a <= needing@.len(),
            needing@.len() == allocated@.len(),
            ports@.map_values(|p: PortCfg| port_cfg_view(p)) == base + Seq::new(
                a as nat,
                |i: int|
                    ("0.0.0.0"@, allocated@[i], port_number(needing@[i]), protocol_text(needing@[i])),
            ),
        decreases needing@.len() - a,
    {
        push_port_cfg(&mut ports, allocated[a], needing[a]);
        proof {
            assert(ports@.map_values(|p: PortCfg| port_cfg_view(p)) =~= base + Seq::new(
                (a + 1) as nat,
                |i: int|
                    ("0.0.0.0"@, allocated@[i], port_number(needing@[i]), protocol_text(needing@[i])),
            ));
        }
        a += 1;
    }
    let platform: Option<&str> = match &req.platform {
        Some(p) => Some(p.as_str()),
        None => None,
    };
    let (architecture, rosetta, _resolve) = normalize_platform(platform);
    let cap_add = if req.privileged {
        let mut v: Vec<String> = Vec::new();
        v.push(String::from_str("ALL"));
        assert(string_views(v@) =~= seq!["ALL"@]);
        v
    } else {
        copy_list(&req.cap_add)
    };
    let cap_drop = copy_list(&req.cap_drop);
    let network = copy_or(&req.network, "default");
    let hostname = match &req.hostname {
        Some(h) => String::from_str(h.as_str()),
        None => copy_or(&req.container_name, id),
    };
    let user_str: Option<&str> = match &req.user {
        Some(u) => Some(u.as_str()),
        None => None,
    };
    let user = match parse_user(user_str) {
        Ok(u) => u,
        Err(e) => {
            return Err(e);
        },
    };
    let mut labels: Vec<(String, String)> = Vec::new();
    let mut l: usize = 0;
    while l < req.labels.len()
        invariant
            l <= req.labels@.len(),
            pair_views(labels@) == pair_views(req.labels@.take(l as int)),
        decreases req.labels@.len() - l,
    {
        let (lk, lv) = &req.labels[l];
        let ghost prev = labels@;
        labels.push((String::from_str(lk.as_str()), String::from_str(lv.as_str())));
        proof {
            assert(pair_views(labels@) =~= pair_views(prev).push((lk@, lv@)));
            assert(pair_views(req.labels@.take(l + 1)) =~= pair_views(req.labels@.take(l as int)).push(
                (lk@, lv@),
            ));
        }
        l += 1;
    }
    proof {
        assert(req.labels@.take(l as int) =~= req.labels@);
    }
    let terminal = match req.open_stdin {
        Some(b) => b,
        None => false,
    };
    Ok(ContainerCfg {
        id: String::from_str(id),
        hostname,
        image_ref,
        image_descriptor: String::from_str(desc_raw),
        mounts,
        ports,
        init_exe,
        init_args,
        init_env,
        working_directory,
        use_init: req.init,
        cap_add,
        cap_drop,
        shm_size: req.shm_size,
        user,
        network,
        architecture: String::from_str(architecture),
        rosetta,
        ssh: req.ssh,
        read_only: req.readonly_rootfs,
        labels,
        cpus: 4,
        terminal,
    })
}

} // verus!
