//! The JSON payload of an Apple container creation (`containerCreate`):
//! the container configuration as the service reads it, written compactly
//! in member order, strings escaped by nojson.

use vstd::prelude::*;
use vstd::string::*;
use crate::container_cfg::{ContainerCfg, MountCfg, PortCfg, ProcessUser, or_empty};
use crate::docker_api::bool_text;
use crate::json::{comma_joined, json_array_text, json_object_text, json_strings, lemma_comma_joined_push, pair_views, string_views};
use crate::text::{decimal, json_string, push_char, push_decimal, push_signed_decimal, signed_decimal};
use crate::xpc::nojson_string;

verus! {

broadcast use vstd::string::group_string_axioms;

/// A JSON array of already written values.
pub open spec fn json_list(items: Seq<Seq<char>>) -> Seq<char> {
    seq!['['] + comma_joined(items) + seq![']']
}

/// The `type` object of a filesystem entry: `virtiofs`, a named `volume`,
/// or (for anything else) `tmpfs`.
pub open spec fn fs_type_json(m: MountCfg) -> Seq<char> {
    if m.fs_type@ == "virtiofs"@ {
        "{\"virtiofs\":{}}"@
    } else if m.fs_type@ == "volume"@ {
        "{\"volume\":{\"name\":"@ + json_string(or_empty(m.volume_name))
            + ",\"format\":\"raw\",\"cache\":\"auto\",\"sync\":\"fsync\"}}"@
    } else {
        "{\"tmpfs\":{}}"@
    }
}

/// A filesystem entry.
pub open spec fn mount_json(m: MountCfg) -> Seq<char> {
    "{\"type\":"@ + fs_type_json(m) + ",\"source\":"@ + json_string(m.source@)
        + ",\"destination\":"@ + json_string(m.destination@) + ",\"options\":"@
        + json_array_text(string_views(m.options@)) + "}"@
}

/// A published port.
pub open spec fn port_json(p: PortCfg) -> Seq<char> {
    "{\"hostAddress\":"@ + json_string(p.host_address@) + ",\"hostPort\":"@ + decimal(
        p.host_port as nat,
    ) + ",\"containerPort\":"@ + decimal(p.container_port as nat) + ",\"proto\":"@
        + json_string(p.proto@) + ",\"count\":1}"@
}

/// The user of the init process: numeric ids, or a name to resolve.
pub open spec fn user_json(u: ProcessUser) -> Seq<char> {
    match u {
        ProcessUser::Id { uid, gid } => "{\"id\":{\"uid\":"@ + decimal(uid as nat) + ",\"gid\":"@
            + decimal(gid as nat) + "}}"@,
        ProcessUser::Raw { user_string } => "{\"raw\":{\"userString\":"@ + json_string(
            user_string@,
        ) + "}}"@,
    }
}

/// An optional number: the number, or `null`.
pub open spec fn optional_number(n: Option<u64>) -> Seq<char> {
    match n {
        Some(v) => decimal(v as nat),
        None => "null"@,
    }
}

/// The `image` object: the reference and the descriptor's own JSON text.
pub open spec fn image_json(c: ContainerCfg) -> Seq<char> {
    "{\"reference\":"@ + json_string(c.image_ref@) + ",\"descriptor\":"@ + c.image_descriptor@
        + "}"@
}

/// The one network, with the container's hostname and an MTU of 1280.
pub open spec fn networks_json(c: ContainerCfg) -> Seq<char> {
    "[{\"network\":"@ + json_string(c.network@) + ",\"options\":{\"hostname\":"@ + json_string(
        c.hostname@,
    ) + ",\"mtu\":1280}}]"@
}

/// The `initProcess` object.
pub open spec fn init_process_json(c: ContainerCfg) -> Seq<char> {
    "{\"executable\":"@ + json_string(c.init_exe@) + ",\"arguments\":"@ + json_array_text(
        string_views(c.init_args@),
    ) + ",\"environment\":"@ + json_array_text(string_views(c.init_env@))
        + ",\"workingDirectory\":"@ + json_string(c.working_directory@) + ",\"terminal\":"@
        + bool_text(c.terminal) + ",\"user\":"@ + user_json(c.user)
        + ",\"supplementalGroups\":[],\"rlimits\":[]}"@
}

/// The `platform` object: Linux on the container's architecture.
pub open spec fn platform_json(c: ContainerCfg) -> Seq<char> {
    "{\"os\":\"linux\",\"architecture\":"@ + json_string(c.architecture@) + ",\"variant\":null}"@
}

/// The `resources` object: the CPUs, and 1 GiB of memory.
pub open spec fn resources_json(c: ContainerCfg) -> Seq<char> {
    "{\"cpus\":"@ + signed_decimal(c.cpus as int)
        + ",\"memoryInBytes\":1073741824,\"storage\":null,\"cpuOverhead\":1}"@
}

/// The members up to and including `rosetta`.
pub open spec fn cfg_json_head(c: ContainerCfg) -> Seq<char> {
    "{\"id\":"@ + json_string(c.id@) + ",\"image\":"@ + image_json(c) + ",\"mounts\":"@
        + json_list(c.mounts@.map_values(|m: MountCfg| mount_json(m))) + ",\"publishedPorts\":"@
        + json_list(c.ports@.map_values(|p: PortCfg| port_json(p)))
        + ",\"publishedSockets\":[],\"labels\":"@ + json_object_text(pair_views(c.labels@))
        + ",\"sysctls\":{},\"networks\":"@ + networks_json(c)
        + ",\"dns\":{\"nameservers\":[],\"options\":[],\"searchDomains\":[]},\"rosetta\":"@
        + bool_text(c.rosetta)
}

/// The members from `initProcess` on, without the creation date.
pub open spec fn cfg_json_tail(c: ContainerCfg) -> Seq<char> {
    ",\"initProcess\":"@ + init_process_json(c) + ",\"platform\":"@ + platform_json(c)
        + ",\"resources\":"@ + resources_json(c)
        + ",\"runtimeHandler\":\"container-runtime-linux\",\"virtualization\":false,\"ssh\":"@
        + bool_text(c.ssh) + ",\"readOnly\":"@ + bool_text(c.read_only) + ",\"useInit\":"@
        + bool_text(c.use_init) + ",\"capAdd\":"@ + json_array_text(string_views(c.cap_add@))
        + ",\"capDrop\":"@ + json_array_text(string_views(c.cap_drop@)) + ",\"shmSize\":"@
        + optional_number(c.shm_size) + ",\"stopSignal\":null"@
}

/// The whole payload, with `creation_date` the JSON text of the creation
/// time.
pub open spec fn container_cfg_json_text(c: ContainerCfg, creation_date: Seq<char>) -> Seq<char> {
    cfg_json_head(c) + cfg_json_tail(c) + ",\"creationDate\":"@ + creation_date + "}"@
}

fn push_json_str(out: &mut String, s: &str)
    ensures
        final(out)@ == old(out)@ + json_string(s@),
{
    let t = nojson_string(s);
    out.append(t.as_str());
}

fn push_bool(out: &mut String, b: bool)
    ensures
        final(out)@ == old(out)@ + bool_text(b),
{
    if b {
        out.append("true");
    } else {
        out.append("false");
    }
}

/// Appends `part` to a comma-joined list of `count` earlier parts.
fn push_item(out: &mut String, count: usize, part: &str)
    ensures
        final(out)@ == if count == 0 {
            old(out)@ + part@
        } else {
            old(out)@ + seq![','] + part@
        },
{
    if count > 0 {
        push_char(out, ',');
    }
    out.append(part);
}

fn push_string_array(out: &mut String, items: &[String])
    ensures
        final(out)@ == old(out)@ + json_array_text(string_views(items@)),
{
    let ghost start = out@;
    push_char(out, '[');
    let mut i: usize = 0;
    while i < items.len()
        invariant
            i <= items@.len(),
            out@ == start + seq!['['] + comma_joined(
                json_strings(string_views(items@.take(i as int))),
            ),
        decreases items@.len() - i,
    {
        let item = nojson_string(items[i].as_str());
        let ghost before = json_strings(string_views(items@.take(i as int)));
        push_item(out, i, item.as_str());
        proof {
            assert(json_strings(string_views(items@.take(i + 1))) =~= before.push(
                json_string(items@[i as int]@),
            ));
            lemma_comma_joined_push(before, json_string(items@[i as int]@));
        }
        i += 1;
    }
    push_char(out, ']');
    proof {
        assert(items@.take(i as int) =~= items@);
    }
}

fn push_labels(out: &mut String, entries: &[(String, String)])
    ensures
        final(out)@ == old(out)@ + json_object_text(pair_views(entries@)),
{
    let ghost start = out@;
    push_char(out, '{');
    let mut i: usize = 0;
    while i < entries.len()
        invariant
            i <= entries@.len(),
            out@ == start + seq!['{'] + comma_joined(
                crate::json::json_members(pair_views(entries@.take(i as int))),
            ),
        decreases entries@.len() - i,
    {
        let (k, v) = &entries[i];
        let mut member = nojson_string(k.as_str());
        push_char(&mut member, ':');
        let value = nojson_string(v.as_str());
        member.append(value.as_str());
        let ghost before = crate::json::json_members(pair_views(entries@.take(i as int)));
        let ghost m = json_string(k@) + seq![':'] + json_string(v@);
        push_item(out, i, member.as_str());
        proof {
            assert(member@ =~= m);
            assert(crate::json::json_members(pair_views(entries@.take(i + 1))) =~= before.push(m));
            lemma_comma_joined_push(before, m);
        }
        i += 1;
    }
    push_char(out, '}');
    proof {
        assert(entries@.take(i as int) =~= entries@);
    }
}

fn mount_text(m: &MountCfg) -> (r: String)
    ensures
        r@ == mount_json(*m),
{
    let mut out = String::from_str("{\"type\":");
    let ghost t0 = out@;
    if crate::text::str_eq(m.fs_type.as_str(), "virtiofs") {
        out.append("{\"virtiofs\":{}}");
    } else if crate::text::str_eq(m.fs_type.as_str(), "volume") {
        out.append("{\"volume\":{\"name\":");
        match &m.volume_name {
            Some(n) => push_json_str(&mut out, n.as_str()),
            None => {
                proof {
                    reveal_strlit("");
                    assert(""@ =~= Seq::<char>::empty());
                }
                push_json_str(&mut out, "");
            },
        }
        out.append(",\"format\":\"raw\",\"cache\":\"auto\",\"sync\":\"fsync\"}}");
    } else {
        out.append("{\"tmpfs\":{}}");
    }
    let ghost t1 = out@;
    proof {
        assert(t1 =~= t0 + fs_type_json(*m));
    }
    out.append(",\"source\":");
    push_json_str(&mut out, m.source.as_str());
    out.append(",\"destination\":");
    push_json_str(&mut out, m.destination.as_str());
    out.append(",\"options\":");
    push_string_array(&mut out, m.options.as_slice());
    out.append("}");
    proof {
        assert(out@ =~= mount_json(*m));
    }
    out
}

fn port_text_json(p: &PortCfg) -> (r: String)
    ensures
        r@ == port_json(*p),
{
    let mut out = String::from_str("{\"hostAddress\":");
    push_json_str(&mut out, p.host_address.as_str());
    out.append(",\"hostPort\":");
    push_decimal(&mut out, p.host_port as u128);
    out.append(",\"containerPort\":");
    push_decimal(&mut out, p.container_port as u128);
    out.append(",\"proto\":");
    push_json_str(&mut out, p.proto.as_str());
    out.append(",\"count\":1}");
    proof {
        assert(out@ =~= port_json(*p));
    }
    out
}

fn push_user(out: &mut String, u: &ProcessUser)
    ensures
        final(out)@ == old(out)@ + user_json(*u),
{
    match u {
        ProcessUser::Id { uid, gid } => {
            out.append("{\"id\":{\"uid\":");
            push_decimal(out, *uid as u128);
            out.append(",\"gid\":");
            push_decimal(out, *gid as u128);
            out.append("}}");
        },
        ProcessUser::Raw { user_string } => {
            out.append("{\"raw\":{\"userString\":");
            push_json_str(out, user_string.as_str());
            out.append("}}");
        },
    }
    proof {
        assert(final(out)@ =~= old(out)@ + user_json(*u));
    }
}

fn push_mounts(out: &mut String, mounts: &[MountCfg])
    ensures
        final(out)@ == old(out)@ + json_list(mounts@.map_values(|m: MountCfg| mount_json(m))),
{
    let ghost start = out@;
    push_char(out, '[');
    let mut i: usize = 0;
    while i < mounts.len()
        invariant
            i <= mounts@.len(),
            out@ == start + seq!['['] + comma_joined(
                mounts@.take(i as int).map_values(|m: MountCfg| mount_json(m)),
            ),
        decreases mounts@.len() - i,
    {
        let item = mount_text(&mounts[i]);
        let ghost before = mounts@.take(i as int).map_values(|m: MountCfg| mount_json(m));
        push_item(out, i, item.as_str());
        proof {
            assert(mounts@.take(i + 1).map_values(|m: MountCfg| mount_json(m)) =~= before.push(
                mount_json(mounts@[i as int]),
            ));
            lemma_comma_joined_push(before, mount_json(mounts@[i as int]));
        }
        i += 1;
    }
    push_char(out, ']');
    proof {
        assert(mounts@.take(i as int) =~= mounts@);
    }
}

fn push_ports(out: &mut String, ports: &[PortCfg])
    ensures
        final(out)@ == old(out)@ + json_list(ports@.map_values(|p: PortCfg| port_json(p))),
{
    let ghost start = out@;
    push_char(out, '[');
    let mut i: usize = 0;
    while i < ports.len()
        invariant
            i <= ports@.len(),
            out@ == start + seq!['['] + comma_joined(
                ports@.take(i as int).map_values(|p: PortCfg| port_json(p)),
            ),
        decreases ports@.len() - i,
    {
        let item = port_text_json(&ports[i]);
        let ghost before = ports@.take(i as int).map_values(|p: PortCfg| port_json(p));
        push_item(out, i, item.as_str());
        proof {
            assert(ports@.take(i + 1).map_values(|p: PortCfg| port_json(p)) =~= before.push(
                port_json(ports@[i as int]),
            ));
            lemma_comma_joined_push(before, port_json(ports@[i as int]));
        }
        i += 1;
    }
    push_char(out, ']');
    proof {
        assert(ports@.take(i as int) =~= ports@);
    }
}

fn cfg_head_text(c: &ContainerCfg) -> (r: String)
    ensures
        r@ == cfg_json_head(*c),
{
    let mut out = String::from_str("{\"id\":");
    push_json_str(&mut out, c.id.as_str());
    out.append(",\"image\":");
    let ghost a = out@;
    out.append("{\"reference\":");
    push_json_str(&mut out, c.image_ref.as_str());
    out.append(",\"descriptor\":");
    out.append(c.image_descriptor.as_str());
    out.append("}");
    proof {
        assert(out@ =~= a + image_json(*c));
    }
    out.append(",\"mounts\":");
    push_mounts(&mut out, c.mounts.as_slice());
    out.append(",\"publishedPorts\":");
    push_ports(&mut out, c.ports.as_slice());
    out.append(",\"publishedSockets\":[],\"labels\":");
    push_labels(&mut out, c.labels.as_slice());
    out.append(",\"sysctls\":{},\"networks\":");
    let ghost b = out@;
    out.append("[{\"network\":");
    push_json_str(&mut out, c.network.as_str());
    out.append(",\"options\":{\"hostname\":");
    push_json_str(&mut out, c.hostname.as_str());
    out.append(",\"mtu\":1280}}]");
    proof {
        assert(out@ =~= b + networks_json(*c));
    }
    out.append(",\"dns\":{\"nameservers\":[],\"options\":[],\"searchDomains\":[]},\"rosetta\":");
    push_bool(&mut out, c.rosetta);
    proof {
        assert(out@ =~= cfg_json_head(*c));
    }
    out
}

fn cfg_tail_text(c: &ContainerCfg) -> (r: String)
    ensures
        r@ == cfg_json_tail(*c),
{
    let mut out = String::from_str(",\"initProcess\":");
    let ghost a = out@;
    out.append("{\"executable\":");
    push_json_str(&mut out, c.init_exe.as_str());
    out.append(",\"arguments\":");
    push_string_array(&mut out, c.init_args.as_slice());
    out.append(",\"environment\":");
    push_string_array(&mut out, c.init_env.as_slice());
    out.append(",\"workingDirectory\":");
    push_json_str(&mut out, c.working_directory.as_str());
    out.append(",\"terminal\":");
    push_bool(&mut out, c.terminal);
    out.append(",\"user\":");
    push_user(&mut out, &c.user);
    out.append(",\"supplementalGroups\":[],\"rlimits\":[]}");
    proof {
        assert(out@ =~= a + init_process_json(*c));
    }
    out.append(",\"platform\":");
    let ghost b = out@;
    out.append("{\"os\":\"linux\",\"architecture\":");
    push_json_str(&mut out, c.architecture.as_str());
    out.append(",\"variant\":null}");
    proof {
        assert(out@ =~= b + platform_json(*c));
    }
    out.append(",\"resources\":");
    let ghost d = out@;
    out.append("{\"cpus\":");
    push_signed_decimal(&mut out, c.cpus as i64);
    out.append(",\"memoryInBytes\":1073741824,\"storage\":null,\"cpuOverhead\":1}");
    proof {
        assert(out@ =~= d + resources_json(*c));
    }
    out.append(",\"runtimeHandler\":\"container-runtime-linux\",\"virtualization\":false,\"ssh\":");
    push_bool(&mut out, c.ssh);
    out.append(",\"readOnly\":");
    push_bool(&mut out, c.read_only);
    out.append(",\"useInit\":");
    push_bool(&mut out, c.use_init);
    out.append(",\"capAdd\":");
    push_string_array(&mut out, c.cap_add.as_slice());
    out.append(",\"capDrop\":");
    push_string_array(&mut out, c.cap_drop.as_slice());
    out.append(",\"shmSize\":");
    let ghost e = out@;
    match c.shm_size {
        Some(n) => push_decimal(&mut out, n as u128),
        None => out.append("null"),
    }
    proof {
        assert(out@ =~= e + optional_number(c.shm_size));
    }
    out.append(",\"stopSignal\":null");
    proof {
        assert(out@ =~= cfg_json_tail(*c));
    }
    out
}

/// The `containerCreate` payload of `cfg`, created at `creation_date`
/// (the JSON text of that time, which the caller renders).
pub fn container_cfg_json(cfg: &ContainerCfg, creation_date: &str) -> (r: String)
    ensures
        r@ == container_cfg_json_text(*cfg, creation_date@),
{
    let mut out = cfg_head_text(cfg);
    let tail = cfg_tail_text(cfg);
    out.append(tail.as_str());
    out.append(",\"creationDate\":");
    out.append(creation_date);
    out.append("}");
    proof {
        assert(out@ =~= container_cfg_json_text(*cfg, creation_date@));
    }
    out
}

} // verus!
