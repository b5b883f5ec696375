//! What a container inspection answers: the Docker Engine's
//! `GET /containers/{id}/json` and the Apple container service's
//! `containerList` entries.

use vstd::prelude::*;
use vstd::string::*;
use vstd::utf8::{valid_utf8, decode_utf8};
use crate::error::{ClientError, Error};
use crate::ports::{ContainerPort, Ports, port_lookup};
use crate::docker_api::{parse_ports, inspect_port_adds, last_host_for};
use crate::text::{decimal, push_decimal, utf8_str_or_error, utf8_error_text, str_eq, before_first, prefix_before};
use crate::json::{
    json_check, json_syntax, json_member_raw, json_member_text, json_as_bool, json_bool_of,
    json_items, json_items_of, json_as_string, json_string_of, json_string_member, json_string_at,
    json_entries, json_entries_of, json_required_member, json_string_path, json_string_lookup, json_required_text_of, path_views,
    string_views, text_views,
};

verus! {

broadcast use vstd::string::group_string_axioms;

/// A container's `State.Health.Status`, where it names one.
#[derive(Debug, Clone, Copy, PartialEq, Eq, Structural)]
pub enum HealthStatus {
    Starting,
    Healthy,
    Unhealthy,
}

/// The health status a `State.Health.Status` text names: `none`, the empty
/// text and any unknown text name none.
pub open spec fn health_status_named(s: Seq<char>) -> Option<HealthStatus> {
    if s == "starting"@ {
        Some(HealthStatus::Starting)
    } else if s == "healthy"@ {
        Some(HealthStatus::Healthy)
    } else if s == "unhealthy"@ {
        Some(HealthStatus::Unhealthy)
    } else {
        None
    }
}

/// Reads a `State.Health.Status` text.
pub fn health_status_of(s: &str) -> (r: Option<HealthStatus>)
    ensures
        r == health_status_named(s@),
{
    if str_eq(s, "starting") {
        Some(HealthStatus::Starting)
    } else if str_eq(s, "healthy") {
        Some(HealthStatus::Healthy)
    } else if str_eq(s, "unhealthy") {
        Some(HealthStatus::Unhealthy)
    } else {
        None
    }
}

/// Whether a container runs, and the ports it publishes.
#[derive(Debug)]
pub struct ContainerSnapshot {
    pub running: bool,
    pub ports: Ports,
}

/// Whether a container runs, and its health status.
#[derive(Debug, Clone, Copy)]
pub struct HealthProbe {
    pub running: bool,
    pub health: Option<HealthStatus>,
}

/// The text of an inspection response that can be read: refused for a
/// missing container (404) or another failure status (400 and above), an
/// absent body, a body that is not UTF-8, or one that is not JSON.
pub fn inspect_response_text(id: &str, status: u16, body: Option<&[u8]>) -> (r: Result<String, Error>)
    ensures
        status == 404 ==> (r matches Err(Error::Client(ClientError::ContainerNotFound(i))) && i@
            == id@),
        status >= 400 && status != 404 ==> (r matches Err(Error::Client(ClientError::Other(m)))
            && m@ == "failed to inspect container: "@ + decimal(status as nat)),
        status < 400 ==> match body {
            None => r matches Err(Error::Client(ClientError::Other(m))) && m@
                == "empty inspect body"@,
            Some(b) => if !valid_utf8(b@) {
                r matches Err(Error::Client(ClientError::Json(m))) && m@ == utf8_error_text(b@)
            } else {
                match json_syntax(decode_utf8(b@)) {
                    Err(e) => r matches Err(Error::Client(ClientError::Json(m))) && m@ == e,
                    Ok(()) => r matches Ok(t) && t@ == decode_utf8(b@),
                }
            },
        },
{
    if status == 404 {
        return Err(Error::Client(ClientError::ContainerNotFound(String::from_str(id))));
    }
    if status >= 400 {
        let mut m = String::from_str("failed to inspect container: ");
        push_decimal(&mut m, status as u128);
        return Err(Error::Client(ClientError::Other(m)));
    }
    let b = match body {
        Some(b) => b,
        None => {
            return Err(Error::Client(ClientError::Other(String::from_str("empty inspect body"))));
        },
    };
    let text = match utf8_str_or_error(b) {
        Ok(t) => t,
        Err(e) => {
            return Err(Error::Client(ClientError::Json(e)));
        },
    };
    proof {
        vstd::utf8::encode_utf8_decode_utf8(text@);
    }
    match json_check(text) {
        Ok(()) => Ok(String::from_str(text)),
        Err(e) => Err(Error::Client(ClientError::Json(e))),
    }
}

/// `Running` of a `State` object: true only where it is the boolean `true`.
pub open spec fn running_flag(state: Seq<char>) -> bool {
    match json_member_text(state, seq!["Running"@]) {
        Ok(Some(v)) => json_bool_of(v) == Some(true),
        _ => false,
    }
}

/// Reads `Running` of a `State` object.
fn read_running(state: &str) -> (r: bool)
    ensures
        r == running_flag(state@),
{
    let path: [&str; 1] = ["Running"];
    proof {
        assert(path_views(path@) =~= seq!["Running"@]);
    }
    match json_member_raw(state, path.as_slice()) {
        Ok(Some(v)) => match json_as_bool(v.as_str()) {
            Some(b) => b,
            None => false,
        },
        _ => false,
    }
}

/// Reads the `State` object, which must be there.
fn read_state(text: &str) -> (r: Result<String, Error>)
    ensures
        match json_required_text_of(text@, seq!["State"@]) {
            Err(e) => r matches Err(Error::Client(ClientError::Json(m))) && m@ == e,
            Ok(state) => r matches Ok(s) && s@ == state,
        },
{
    let path: [&str; 1] = ["State"];
    proof {
        assert(path_views(path@) =~= seq!["State"@]);
    }
    match json_required_member(text, path.as_slice()) {
        Ok(s) => Ok(s),
        Err(e) => Err(Error::Client(ClientError::Json(e))),
    }
}

/// The snapshot an inspection gives: `State` must be there; the container
/// runs where `State.Running` is `true`; the ports are those of
/// `NetworkSettings.Ports`, as `parse_ports` reads them.
pub fn container_snapshot_from_inspect(text: &str) -> (r: Result<ContainerSnapshot, Error>)
    ensures
        match json_required_text_of(text@, seq!["State"@]) {
            Err(e) => r matches Err(Error::Client(ClientError::Json(m))) && m@ == e,
            Ok(state) => r matches Ok(s) && s.running == running_flag(state) && s.ports.wf()
                && s.ports.ipv6@.len() == 0 && (forall|q: ContainerPort| #[trigger] port_lookup(
                s.ports.ipv4@,
                q,
            ) == last_host_for(inspect_port_adds(text@), q)),
        },
{
    let state = read_state(text)?;
    let running = read_running(state.as_str());
    let ports = parse_ports(text);
    Ok(ContainerSnapshot { running, ports })
}

/// The health status at `Health.Status` of a `State` object.
pub open spec fn health_of_state(state: Seq<char>) -> Option<HealthStatus> {
    match json_string_at(state, seq!["Health"@, "Status"@]) {
        Some(s) => health_status_named(s),
        None => None,
    }
}

/// The health probe an inspection gives: `State` must be there; `running`
/// as in `container_snapshot_from_inspect`, and the health status that
/// `State.Health.Status` names, if any.
pub fn container_health_from_inspect(text: &str) -> (r: Result<HealthProbe, Error>)
    ensures
        match json_required_text_of(text@, seq!["State"@]) {
            Err(e) => r matches Err(Error::Client(ClientError::Json(m))) && m@ == e,
            Ok(state) => r matches Ok(p) && p.running == running_flag(state) && p.health
                == health_of_state(state),
        },
{
    let state = read_state(text)?;
    let running = read_running(state.as_str());
    let path: [&str; 2] = ["Health", "Status"];
    proof {
        assert(path_views(path@) =~= seq!["Health"@, "Status"@]);
    }
    let health = match json_string_member(state.as_str(), path.as_slice()) {
        Some(s) => health_status_of(s.as_str()),
        None => None,
    };
    Ok(HealthProbe { running, health })
}

/// The strings among raw JSON values, in order; the others are left out.
pub open spec fn string_items(items: Seq<Seq<char>>) -> Seq<Seq<char>>
    decreases items.len(),
{
    if items.len() == 0 {
        Seq::empty()
    } else {
        let before = string_items(items.drop_last());
        match json_string_of(items.last()) {
            Ok(s) => before.push(s),
            Err(_) => before,
        }
    }
}

/// The strings of the array `Config.Env`, where it is one.
pub open spec fn env_of_inspect(text: Seq<char>) -> Seq<Seq<char>> {
    match json_member_text(text, seq!["Config"@, "Env"@]) {
        Ok(Some(a)) => match json_items_of(a) {
            Ok(items) => string_items(items),
            Err(_) => Seq::empty(),
        },
        _ => Seq::empty(),
    }
}

/// The environment an inspection reports (`KEY=VALUE` strings of
/// `Config.Env`): empty where there is no such array; elements that are not
/// strings are skipped.
pub fn container_env_from_inspect(text: &str) -> (r: Vec<String>)
    ensures
        string_views(r@) == env_of_inspect(text@),
{
    let mut out: Vec<String> = Vec::new();
    let path: [&str; 2] = ["Config", "Env"];
    proof {
        assert(path_views(path@) =~= seq!["Config"@, "Env"@]);
        assert(string_views(out@) =~= Seq::<Seq<char>>::empty());
    }
    let arr = match json_member_raw(text, path.as_slice()) {
        Ok(Some(a)) => a,
        _ => {
            return out;
        },
    };
    let items = match json_items(arr.as_str()) {
        Ok(items) => items,
        Err(_) => {
            return out;
        },
    };
    let ghost views = text_views(items@);
    let mut i: usize = 0;
    while i < items.len()
        invariant
            i <= items@.len(),
            views == text_views(items@),
            env_of_inspect(text@) == string_items(views),
            string_items(views.take(i as int)) == string_views(out@),
        decreases items@.len() - i,
    {
        proof {
            assert(views.take(i + 1).drop_last() =~= views.take(i as int));
            assert(views.take(i + 1).last() == items@[i as int]@);
        }
        let ghost prev = out@;
        match json_as_string(items[i].as_str()) {
            Ok(s) => {
                out.push(s);
                proof {
                    assert(string_views(out@) =~= string_views(prev).push(out@.last()@));
                }
            },
            Err(_) => {},
        }
        i = i + 1;
    }
    proof {
        assert(views.take(items@.len() as int) =~= views);
    }
    out
}

/// The `IPAddress` of the first network of `NetworkSettings.Networks`, where
/// it is a non-empty string.
pub open spec fn first_network_ip(text: Seq<char>) -> Option<Seq<char>> {
    match json_member_text(text, seq!["NetworkSettings"@, "Networks"@]) {
        Ok(Some(n)) => match json_entries_of(n) {
            Ok(entries) => if entries.len() > 0 {
                match json_string_at(entries[0].1, seq!["IPAddress"@]) {
                    Some(ip) => if ip.len() > 0 {
                        Some(ip)
                    } else {
                        None
                    },
                    None => None,
                }
            } else {
                None
            },
            Err(_) => None,
        },
        _ => None,
    }
}

/// The bridge address an inspection reports, as text: the `IPAddress` of
/// the first network of `NetworkSettings.Networks` (the networks come in
/// key order), refused where there is none or it is empty (host network
/// mode and the like).
pub fn bridge_ip_text_from_inspect(text: &str) -> (r: Result<String, Error>)
    ensures
        match first_network_ip(text@) {
            Some(ip) => r matches Ok(s) && s@ == ip,
            None => r matches Err(Error::Client(ClientError::Other(m))) && m@
                == "no network IP address found for container"@,
        },
{
    let path: [&str; 2] = ["NetworkSettings", "Networks"];
    let ip_path: [&str; 1] = ["IPAddress"];
    proof {
        assert(path_views(path@) =~= seq!["NetworkSettings"@, "Networks"@]);
        assert(path_views(ip_path@) =~= seq!["IPAddress"@]);
    }
    let found: Option<String> = match json_member_raw(text, path.as_slice()) {
        Ok(Some(n)) => match json_entries(n.as_str()) {
            Ok(entries) => if entries.len() > 0 {
                match json_string_member(entries[0].1.as_str(), ip_path.as_slice()) {
                    Some(ip) => if ip.unicode_len() > 0 {
                        Some(ip)
                    } else {
                        None
                    },
                    None => None,
                }
            } else {
                None
            },
            Err(_) => None,
        },
        _ => None,
    };
    match found {
        Some(ip) => Ok(ip),
        None => Err(
            Error::Client(
                ClientError::Other(String::from_str("no network IP address found for container")),
            ),
        ),
    }
}

/// The first entry of a `containerList` answer (a JSON array), as raw
/// text; a list that is empty means no container has the id `id`.
pub fn first_container_entry(text: &str, id: &str) -> (r: Result<String, Error>)
    ensures
        match json_items_of(text@) {
            Err(e) => r matches Err(Error::Client(ClientError::Json(m))) && m@ == e,
            Ok(items) => if items.len() == 0 {
                r matches Err(Error::Client(ClientError::ContainerNotFound(i))) && i@ == id@
            } else {
                r matches Ok(t) && t@ == items[0]
            },
        },
{
    let items = match json_items(text) {
        Ok(items) => items,
        Err(e) => {
            return Err(Error::Client(ClientError::Json(e)));
        },
    };
    if items.len() == 0 {
        return Err(Error::Client(ClientError::ContainerNotFound(String::from_str(id))));
    }
    proof {
        assert(text_views(items@)[0] == items@[0]@);
    }
    Ok(items[0].clone())
}

/// Whether a `containerList` entry's `status` is `running` (a missing or
/// unreadable status counts as `unknown`).
pub open spec fn entry_running(item: Seq<char>) -> bool {
    json_string_at(item, seq!["status"@]) == Some("running"@)
}

/// Reads whether a `containerList` entry runs.
pub fn entry_is_running(item: &str) -> (r: bool)
    ensures
        r == entry_running(item@),
{
    let path: [&str; 1] = ["status"];
    proof {
        assert(path_views(path@) =~= seq!["status"@]);
    }
    match json_string_member(item, path.as_slice()) {
        Some(s) => str_eq(s.as_str(), "running"),
        None => false,
    }
}

/// The address `member` (`ipv4Address`, `ipv4Gateway`) of the first of a
/// `containerList` entry's `networks`, without a CIDR suffix (`/yy`):
/// refused where the entry has no network, and with the reader's error
/// where the member is not a string there. The error's position counts
/// from the start of that network's own text.
pub fn entry_network_address(item: &str, member: &str) -> (r: Result<String, Error>)
    ensures
        match json_member_text(item@, seq!["networks"@]) {
            Ok(Some(a)) => match json_items_of(a) {
                Ok(networks) => if networks.len() > 0 {
                    match json_string_lookup(networks[0], seq![member@]) {
                        Ok(s) => r matches Ok(t) && t@ == before_first(s, '/'),
                        Err(e) => r matches Err(Error::Client(ClientError::Json(m))) && m@ == e,
                    }
                } else {
                    r matches Err(Error::Client(ClientError::Other(m))) && m@
                        == "no network attachments"@
                },
                Err(_) => r matches Err(Error::Client(ClientError::Other(m))) && m@
                    == "no network attachments"@,
            },
            _ => r matches Err(Error::Client(ClientError::Other(m))) && m@
                == "no network attachments"@,
        },
{
    let path: [&str; 1] = ["networks"];
    let addr_path: [&str; 1] = [member];
    proof {
        assert(path_views(path@) =~= seq!["networks"@]);
        assert(path_views(addr_path@) =~= seq![member@]);
    }
    let first: Option<String> = match json_member_raw(item, path.as_slice()) {
        Ok(Some(a)) => match json_items(a.as_str()) {
            Ok(networks) => if networks.len() > 0 {
                proof {
                    assert(text_views(networks@)[0] == networks@[0]@);
                }
                Some(networks[0].clone())
            } else {
                None
            },
            Err(_) => None,
        },
        _ => None,
    };
    let network = match first {
        Some(n) => n,
        None => {
            return Err(Error::Client(ClientError::Other(String::from_str("no network attachments"))));
        },
    };
    match json_string_path(network.as_str(), addr_path.as_slice()) {
        Ok(s) => Ok(prefix_before(s.as_str(), '/')),
        Err(e) => Err(Error::Client(ClientError::Json(e))),
    }
}

/// The host port that `port` of container `id` is published on, in the
/// IPv6 table where `ipv6` is set and else in the IPv4 one; a port that is
/// not published there is refused as not exposed.
pub fn published_host_port(ports: &Ports, id: &str, port: ContainerPort, ipv6: bool) -> (r: Result<u16, Error>)
    ensures
        match port_lookup(if ipv6 { ports.ipv6@ } else { ports.ipv4@ }, port) {
            Some(h) => r == Ok::<u16, Error>(h),
            None => r matches Err(Error::PortNotExposed { id: i, port: p }) && i@ == id@ && p
                == port,
        },
{
    let found = if ipv6 {
        ports.map_to_host_port_ipv6(port)
    } else {
        ports.map_to_host_port_ipv4(port)
    };
    match found {
        Some(h) => Ok(h),
        None => Err(Error::PortNotExposed { id: String::from_str(id), port }),
    }
}

} // verus!
