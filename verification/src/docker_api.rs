//! Request bodies, paths and response handling for the Docker Engine API.

use vstd::prelude::*;
use vstd::string::*;
use crate::ports::{ContainerPort, PortMapping, port_text};
use crate::mounts::{Mount, MountType, AccessMode, MountTmpfsOptions};
use crate::healthcheck::{Healthcheck, inherits_image, docker_json_text};
use crate::error::{Error, ClientError};
use crate::json::{json_object, json_object_text, pair_views, json_string_at, json_string_member, path_views};
use crate::ports::{port_key, parse_container_port};
use crate::text::{utf8_str, starts_with, parsed_u16, parse_u16, contains_char, utf8_str_or_error, utf8_error_text, newline_segments, strip_trailing_cr, trim_text, trim_str, trim_trailing_cr, split_newlines};
use crate::json::{json_syntax, json_check, json_kind_of, json_kind, JsonKind, json_bool_of, json_as_bool, json_i64_of, json_as_i64};
use crate::ports::{Ports, port_lookup};
use crate::json::{json_member_text, json_member_raw, json_entries_of, json_entries, json_items_of, json_items, text_views};
use vstd::utf8::{valid_utf8, decode_utf8, encode_utf8};
use crate::json::{string_views, json_array_text, push_json_array, comma_joined, lemma_comma_joined_push, escape_json};
use crate::text::push_char;
use crate::text::{decimal, push_decimal, json_string, u64_to_decimal, lex_lt, str_lt, str_eq, lemma_lex_trichotomy, lemma_lex_transitive};
use crate::text::{hex_upper, find_first, find_last, index_of_first, index_of_last, split_around, prefix_until, lemma_find_first, lemma_find_last};

verus! {

broadcast use vstd::string::group_string_axioms;

/// Upper bound on what is accumulated from or for a Docker Engine API call
/// (responses, exec output, archives): 64 MiB.
pub const DOCKER_RESPONSE_BODY_LIMIT: usize = 67108864;

/// Bytes left as they are by percent-encoding (RFC 3986 unreserved).
pub open spec fn is_unreserved(b: u8) -> bool {
    (65 <= b <= 90) || (97 <= b <= 122) || (48 <= b <= 57) || b == 45 || b == 95 || b == 46
        || b == 126
}

/// The percent-encoding of one byte: itself if unreserved, else `%XX`
/// with upper-case hex digits.
pub open spec fn percent_byte(b: u8) -> Seq<char> {
    if is_unreserved(b) {
        seq![b as char]
    } else {
        seq!['%', hex_upper(b as nat / 16), hex_upper(b as nat % 16)]
    }
}

/// The percent-encoding of a byte string.
pub open spec fn percent_encoded(bytes: Seq<u8>) -> Seq<char>
    decreases bytes.len(),
{
    if bytes.len() == 0 {
        Seq::empty()
    } else {
        percent_encoded(bytes.drop_last()) + percent_byte(bytes.last())
    }
}

fn hex_digit_upper(d: u8) -> (r: char)
    requires
        d < 16,
    ensures
        r == hex_upper(d as nat),
{
    if d < 10 {
        (48u8 + d) as char
    } else {
        (55u8 + d) as char
    }
}

/// Percent-encodes the UTF-8 bytes of `s`: every byte but the unreserved
/// ones (`A-Z a-z 0-9 - _ . ~`) becomes `%XX`.
pub fn percent_encode(s: &str) -> (r: String)
    ensures
        r@ == percent_encoded(s.spec_bytes()),
{
    let bytes = s.as_bytes();
    let mut out = String::new();
    let mut i: usize = 0;
    while i < bytes.len()
        invariant
            i <= bytes@.len(),
            out@ == percent_encoded(bytes@.take(i as int)),
        decreases bytes@.len() - i,
    {
        let b: u8 = bytes[i];
        if (65 <= b && b <= 90) || (97 <= b && b <= 122) || (48 <= b && b <= 57) || b == 45 || b
            == 95 || b == 46 || b == 126 {
            push_char(&mut out, b as char);
        } else {
            push_char(&mut out, '%');
            push_char(&mut out, hex_digit_upper(b / 16));
            push_char(&mut out, hex_digit_upper(b % 16));
        }
        proof {
            assert(bytes@.take(i + 1).drop_last() =~= bytes@.take(i as int));
            assert(out@ =~= percent_encoded(bytes@.take(i + 1)));
        }
        i += 1;
    }
    proof {
        assert(bytes@.take(i as int) =~= bytes@);
    }
    out
}

/// Percent-encoding of a path segment (such as an image reference holding
/// slashes).
pub fn percent_encode_path_segment(s: &str) -> (r: String)
    ensures
        r@ == percent_encoded(s.spec_bytes()),
{
    percent_encode(s)
}

/// Percent-encoding of a query value (a space becomes `%20`).
pub fn percent_encode_component(s: &str) -> (r: String)
    ensures
        r@ == percent_encoded(s.spec_bytes()),
{
    percent_encode(s)
}

/// The bytes of `"latest"`.
pub open spec fn latest_bytes() -> Seq<u8> {
    seq![108u8, 97u8, 116u8, 101u8, 115u8, 116u8]
}

/// `descriptor` split into image name and tag, where the tag follows the
/// first `:` after the last `/` (so a registry port is never a tag); a
/// missing or empty tag is `latest`.
pub open spec fn name_and_tag(b: Seq<u8>) -> (Seq<u8>, Seq<u8>) {
    let start = match find_last(b, 47) {
        Some(i) => i + 1,
        None => 0,
    };
    let nt = b.subrange(start, b.len() as int);
    match find_first(nt, 58) {
        None => (b, latest_bytes()),
        Some(j) => {
            let tag = nt.subrange(j + 1, nt.len() as int);
            (b.subrange(0, start + j), if tag.len() == 0 {
                latest_bytes()
            } else {
                tag
            })
        },
    }
}

/// `descriptor` split into the `fromImage` and `tag` of an image pull: a
/// digest after `@` wins over a tag.
pub open spec fn pull_reference(b: Seq<u8>) -> (Seq<u8>, Seq<u8>) {
    match find_first(b, 64) {
        Some(k) => {
            let digest = b.subrange(k + 1, b.len() as int);
            (name_and_tag(b.subrange(0, k)).0, if digest.len() == 0 {
                latest_bytes()
            } else {
                digest
            })
        },
        None => name_and_tag(b),
    }
}

fn latest() -> (r: &'static str)
    ensures
        r.spec_bytes() == latest_bytes(),
{
    let r = "latest";
    proof {
        reveal_strlit("latest");
        assert(is_ascii(r));
        is_ascii_spec_bytes(r);
        assert(r.spec_bytes() =~= latest_bytes());
    }
    r
}

/// Splits an image reference into name and tag.
pub fn split_name_and_tag(descriptor: &str) -> (r: (&str, &str))
    ensures
        (r.0.spec_bytes(), r.1.spec_bytes()) == name_and_tag(descriptor.spec_bytes()),
{
    let bytes = descriptor.as_bytes();
    proof {
        lemma_find_last(bytes@, 47);
    }
    let start: usize = match index_of_last(bytes, 47) {
        Some(i) => i + 1,
        None => 0,
    };
    let name_tag = &bytes[start..bytes.len()];
    match index_of_first(name_tag, 58) {
        None => (descriptor, latest()),
        Some(j) => {
            proof {
                lemma_find_first(name_tag@, 58);
            }
            let (name, tag) = split_around(descriptor, start + j);
            proof {
                assert(tag.spec_bytes() =~= name_tag@.subrange(j + 1, name_tag@.len() as int));
            }
            if tag.len() == 0 {
                (name, latest())
            } else {
                (name, tag)
            }
        },
    }
}

/// Splits an image reference into the `fromImage` and `tag` of a pull.
pub fn split_pull_reference(descriptor: &str) -> (r: (&str, &str))
    ensures
        (r.0.spec_bytes(), r.1.spec_bytes()) == pull_reference(descriptor.spec_bytes()),
{
    let bytes = descriptor.as_bytes();
    proof {
        lemma_find_first(bytes@, 64);
    }
    match index_of_first(bytes, 64) {
        Some(k) => {
            assert(bytes@[k as int] == 64);
            let (left, digest) = split_around(descriptor, k);
            let tag = if digest.len() == 0 {
                latest()
            } else {
                digest
            };
            let (from_image, _) = split_name_and_tag(left);
            proof {
                let b = descriptor.spec_bytes();
                assert(left.spec_bytes() == b.subrange(0, k as int));
                assert(find_first(b, 64) == Some(k as int));
                assert(from_image.spec_bytes() == pull_reference(b).0);
                assert(tag.spec_bytes() == pull_reference(b).1);
            }
            (from_image, tag)
        },
        None => split_name_and_tag(descriptor),
    }
}

/// A pull never asks for an empty tag, and its image is the start of the
/// reference it came from, cut before any tag or digest; a reference with
/// neither a digest nor a tag after its last `/` is pulled whole (so a
/// registry port stays part of the image).
pub proof fn lemma_pull_reference_parts(b: Seq<u8>)
    ensures
        pull_reference(b).1.len() > 0,
        pull_reference(b).0.len() <= b.len(),
        pull_reference(b).0 == b.take(pull_reference(b).0.len() as int),
        (find_first(b, 64) is None && find_first(
            b.subrange(
                match find_last(b, 47) {
                    Some(i) => i + 1,
                    None => 0,
                },
                b.len() as int,
            ),
            58,
        ) is None) ==> pull_reference(b) == (b, latest_bytes()),
{
    lemma_find_first(b, 64);
    lemma_find_last(b, 47);
    let c = match find_first(b, 64) {
        Some(k) => b.subrange(0, k),
        None => b,
    };
    lemma_find_last(c, 47);
    let start = match find_last(c, 47) {
        Some(i) => i + 1,
        None => 0,
    };
    lemma_find_first(c.subrange(start, c.len() as int), 58);
    assert(latest_bytes().len() == 6);
    assert(b.take(b.len() as int) =~= b);
    let n = name_and_tag(c).0;
    assert(n == c.take(n.len() as int));
    assert(c.take(n.len() as int) =~= b.take(n.len() as int));
}

/// `"<port>/<protocol>"` of each mapping's container port.
pub open spec fn exposed_port_keys(ports: Seq<PortMapping>) -> Seq<Seq<char>> {
    ports.map_values(|p: PortMapping| port_text(p.container_port))
}

/// The `ExposedPorts` keys of the mappings, in order.
pub fn build_exposed_ports(ports: &[PortMapping]) -> (r: Vec<String>)
    ensures
        string_views(r@) == exposed_port_keys(ports@),
{
    let mut out: Vec<String> = Vec::new();
    let mut i: usize = 0;
    while i < ports.len()
        invariant
            i <= ports@.len(),
            string_views(out@) == exposed_port_keys(ports@.take(i as int)),
        decreases ports@.len() - i,
    {
        let key = ports[i].container_port.to_string();
        let ghost prev = out@;
        out.push(key);
        proof {
            assert(string_views(out@) =~= string_views(prev).push(key@));
            assert(exposed_port_keys(ports@.take(i + 1)) =~= exposed_port_keys(
                ports@.take(i as int),
            ).push(port_text(ports@[i as int].container_port)));
        }
        i += 1;
    }
    proof {
        assert(ports@.take(i as int) =~= ports@);
    }
    out
}

/// Exit-code retries of an exec: the first attempt is immediate, and after
/// each failed one the client sleeps the next of these many milliseconds.
pub const EXEC_EXIT_CODE_BACKOFF_MILLIS: [u64; 5] = [10, 50, 200, 500, 1000];

/// The exit code of the first observed state that is no longer running
/// (`None` if none is, or that state has no code).
pub open spec fn first_finished_exit_code(states: Seq<(bool, Option<i64>)>) -> Option<i64>
    decreases states.len(),
{
    if states.len() == 0 {
        None
    } else if !states[0].0 {
        states[0].1
    } else {
        first_finished_exit_code(states.drop_first())
    }
}

/// Picks an exec's exit code from its inspected states, in the order they
/// were observed.
pub fn resolve_exec_exit_code(states: &[(bool, Option<i64>)]) -> (r: Option<i64>)
    ensures
        r == first_finished_exit_code(states@),
{
    let mut i: usize = 0;
    assert(states@.skip(0) =~= states@);
    while i < states.len()
        invariant
            i <= states@.len(),
            first_finished_exit_code(states@) == first_finished_exit_code(states@.skip(i as int)),
        decreases states@.len() - i,
    {
        let (running, code) = states[i];
        if !running {
            return code;
        }
        proof {
            assert(states@.skip(i as int).drop_first() =~= states@.skip(i + 1));
        }
        i += 1;
    }
    proof {
        assert(states@.skip(i as int) =~= Seq::<(bool, Option<i64>)>::empty());
    }
    None
}

/// `true` or `false`.
pub open spec fn bool_text(b: bool) -> Seq<char> {
    if b {
        "true"@
    } else {
        "false"@
    }
}

fn push_bool(out: &mut String, b: bool)
    ensures
        final(out)@ == old(out)@ + bool_text(b),
{
    if b {
        out.append("true");
    } else {
        out.append("false");
    }
}

/// The body of an exec creation request.
pub struct ExecConfig {
    pub cmd: Vec<String>,
    pub attach_stdout: bool,
    pub attach_stderr: bool,
    /// `KEY=VALUE` entries; none leaves the container's environment.
    pub env: Vec<String>,
}

impl ExecConfig {
    /// The JSON text of this request.
    pub open spec fn json_text(&self) -> Seq<char> {
        "{\"AttachStdout\":"@ + bool_text(self.attach_stdout) + ",\"AttachStderr\":"@ + bool_text(
            self.attach_stderr,
        ) + (if self.cmd@.len() > 0 {
            ",\"Cmd\":"@ + json_array_text(string_views(self.cmd@))
        } else {
            Seq::empty()
        }) + (if self.env@.len() > 0 {
            ",\"Env\":"@ + json_array_text(string_views(self.env@))
        } else {
            Seq::empty()
        }) + "}"@
    }

    /// The JSON text of this request.
    pub fn to_json_string(&self) -> (r: Result<String, crate::error::Error>)
        ensures
            r matches Ok(s) && s@ == self.json_text(),
    {
        let mut json = String::from_str("{\"AttachStdout\":");
        push_bool(&mut json, self.attach_stdout);
        json.append(",\"AttachStderr\":");
        push_bool(&mut json, self.attach_stderr);
        let ghost a = json@;
        if self.cmd.len() > 0 {
            json.append(",\"Cmd\":");
            push_json_array(&mut json, self.cmd.as_slice());
        }
        let ghost b = json@;
        if self.env.len() > 0 {
            json.append(",\"Env\":");
            push_json_array(&mut json, self.env.as_slice());
        }
        let ghost c = json@;
        json.append("}");
        proof {
            assert(b =~= a + (if self.cmd@.len() > 0 {
                ",\"Cmd\":"@ + json_array_text(string_views(self.cmd@))
            } else {
                Seq::<char>::empty()
            }));
            assert(c =~= b + (if self.env@.len() > 0 {
                ",\"Env\":"@ + json_array_text(string_views(self.env@))
            } else {
                Seq::<char>::empty()
            }));
            assert(json@ =~= self.json_text());
        }
        Ok(json)
    }
}

/// The body of an exec start request.
pub struct ExecStartConfig {
    pub detach: bool,
    pub tty: bool,
}

impl ExecStartConfig {
    /// The JSON text of this request.
    pub open spec fn json_text(&self) -> Seq<char> {
        "{\"Detach\":"@ + bool_text(self.detach) + ",\"Tty\":"@ + bool_text(self.tty) + "}"@
    }

    /// The JSON text of this request.
    pub fn to_json_string(&self) -> (r: Result<String, crate::error::Error>)
        ensures
            r matches Ok(s) && s@ == self.json_text(),
    {
        let mut json = String::from_str("{\"Detach\":");
        push_bool(&mut json, self.detach);
        json.append(",\"Tty\":");
        push_bool(&mut json, self.tty);
        json.append("}");
        Ok(json)
    }
}

/// The host port of the last mapping of `ports` whose container port has
/// the text `key`: each later mapping of a key replaces the earlier one.
pub open spec fn last_host_port(ports: Seq<PortMapping>, key: Seq<char>) -> Option<u16>
    decreases ports.len(),
{
    if ports.len() == 0 {
        None
    } else if port_text(ports.last().container_port) == key {
        Some(ports.last().host_port)
    } else {
        last_host_port(ports.drop_last(), key)
    }
}

/// Keys in strictly increasing order.
pub open spec fn keys_increasing(keys: Seq<Seq<char>>) -> bool {
    forall|i: int, j: int| 0 <= i < j < keys.len() ==> lex_lt(keys[i], keys[j])
}

/// The published ports of `ports` as (key, host port) entries: one per
/// container port, in key order, each with the last host port given for it.
pub open spec fn port_table(ports: Seq<PortMapping>, entries: Seq<(Seq<char>, u16)>) -> bool {
    &&& keys_increasing(entries.map_values(|e: (Seq<char>, u16)| e.0))
    &&& forall|i: int|
        0 <= i < entries.len() ==> last_host_port(ports, #[trigger] entries[i].0) == Some(
            entries[i].1,
        )
    &&& forall|j: int|
        0 <= j < ports.len() ==> exists|i: int|
            0 <= i < entries.len() && #[trigger] entries[i].0 == port_text(
                #[trigger] ports[j].container_port,
            )
}

/// A host address and port that a container port is published on.
pub struct PortBinding {
    pub host_ip: String,
    pub host_port: String,
}

/// The views of (key, host port) entries.
pub open spec fn table_views(v: Seq<(String, u16)>) -> Seq<(Seq<char>, u16)> {
    v.map_values(|e: (String, u16)| (e.0@, e.1))
}

proof fn lemma_last_host_port_push(ports: Seq<PortMapping>, p: PortMapping, key: Seq<char>)
    ensures
        last_host_port(ports.push(p), key) == if port_text(p.container_port) == key {
            Some(p.host_port)
        } else {
            last_host_port(ports, key)
        },
{
    assert(ports.push(p).drop_last() =~= ports);
}

/// The table of published ports: for each container port, the host port
/// of its last mapping, in key order.
pub fn port_binding_table(ports: &[PortMapping]) -> (r: Vec<(String, u16)>)
    ensures
        port_table(ports@, table_views(r@)),
{
    let mut table: Vec<(String, u16)> = Vec::new();
    let mut n: usize = 0;
    while n < ports.len()
        invariant
            n <= ports@.len(),
            port_table(ports@.take(n as int), table_views(table@)),
        decreases ports@.len() - n,
    {
        let pm = ports[n];
        let key = pm.container_port.to_string();
        let ghost k = key@;
        let ghost old_t = table_views(table@);
        let mut p: usize = 0;
        while p < table.len() && str_lt(table[p].0.as_str(), key.as_str())
            invariant
                p <= table@.len(),
                table_views(table@) == old_t,
                key@ == k,
                forall|i: int| 0 <= i < p ==> lex_lt(#[trigger] old_t[i].0, k),
            decreases table@.len() - p,
        {
            p += 1;
        }
        let ghost prefix = ports@.take(n as int);
        let ghost next = ports@.take(n + 1);
        proof {
            assert(next =~= prefix.push(pm));
        }
        if p < table.len() && str_eq(table[p].0.as_str(), key.as_str()) {
            table.set(p, (key, pm.host_port));
            proof {
                let t = table_views(table@);
                assert(t =~= old_t.update(p as int, (k, pm.host_port)));
                assert(t.map_values(|e: (Seq<char>, u16)| e.0) =~= old_t.map_values(
                    |e: (Seq<char>, u16)| e.0,
                ));
                assert forall|i: int| 0 <= i < t.len() implies last_host_port(
                    next,
                    #[trigger] t[i].0,
                ) == Some(t[i].1) by {
                    lemma_last_host_port_push(prefix, pm, t[i].0);
                    if i != p {
                        lemma_lex_trichotomy(old_t[i].0, k);
                        let ks = old_t.map_values(|e: (Seq<char>, u16)| e.0);
                        if i < p {
                            assert(lex_lt(ks[i], ks[p as int]));
                        } else {
                            assert(lex_lt(ks[p as int], ks[i]));
                            lemma_lex_trichotomy(ks[p as int], ks[i]);
                        }
                    }
                }
                assert forall|j: int| 0 <= j < next.len() implies exists|i: int|
                    0 <= i < t.len() && #[trigger] t[i].0 == port_text(
                        #[trigger] next[j].container_port,
                    ) by {
                    if j < n {
                        assert(next[j] == prefix[j]);
                        let i = choose|i: int|
                            0 <= i < old_t.len() && #[trigger] old_t[i].0 == port_text(
                                prefix[j].container_port,
                            );
                        assert(t[i].0 == old_t[i].0);
                    } else {
                        assert(t[p as int].0 == k);
                    }
                }
            }
        } else {
            table.insert(p, (key, pm.host_port));
            proof {
                let t = table_views(table@);
                assert(t =~= old_t.insert(p as int, (k, pm.host_port)));
                let ks = old_t.map_values(|e: (Seq<char>, u16)| e.0);
                if p < old_t.len() {
                    lemma_lex_trichotomy(ks[p as int], k);
                    assert(lex_lt(k, ks[p as int]));
                }
                let tk = t.map_values(|e: (Seq<char>, u16)| e.0);
                assert(keys_increasing(ks));
                assert(t.len() == ks.len() + 1);
                assert forall|x: int| 0 <= x < t.len() implies #[trigger] tk[x] == if x < p {
                    ks[x]
                } else if x == p {
                    k
                } else {
                    ks[x - 1]
                } by {}
                assert forall|i: int, j: int| 0 <= i < j < t.len() implies lex_lt(
                    #[trigger] tk[i],
                    #[trigger] tk[j],
                ) by {
                    if j < p {
                        assert(lex_lt(ks[i], ks[j]));
                    } else if i < p && j == p {
                        assert(lex_lt(old_t[i].0, k));
                    } else if i < p && j > p {
                        assert(lex_lt(ks[i], ks[j - 1]));
                    } else if i == p {
                        if j - 1 > p {
                            assert(lex_lt(ks[p as int], ks[j - 1]));
                            lemma_lex_transitive(k, ks[p as int], ks[j - 1]);
                        }
                    } else {
                        assert(lex_lt(ks[i - 1], ks[j - 1]));
                    }
                }
                assert forall|i: int| 0 <= i < t.len() implies last_host_port(
                    next,
                    #[trigger] t[i].0,
                ) == Some(t[i].1) by {
                    lemma_last_host_port_push(prefix, pm, t[i].0);
                    if i < p {
                        lemma_lex_trichotomy(old_t[i].0, k);
                    } else if i > p {
                        lemma_lex_trichotomy(ks[i - 1], k);
                        if p < old_t.len() {
                            if i - 1 > p {
                                assert(lex_lt(ks[p as int], ks[i - 1]));
                                lemma_lex_transitive(k, ks[p as int], ks[i - 1]);
                            }
                        }
                    }
                }
                assert forall|j: int| 0 <= j < next.len() implies exists|i: int|
                    0 <= i < t.len() && #[trigger] t[i].0 == port_text(
                        #[trigger] next[j].container_port,
                    ) by {
                    if j < n {
                        assert(next[j] == prefix[j]);
                        let i = choose|i: int|
                            0 <= i < old_t.len() && #[trigger] old_t[i].0 == port_text(
                                prefix[j].container_port,
                            );
                        if i < p {
                            assert(t[i].0 == old_t[i].0);
                        } else {
                            assert(t[i + 1].0 == old_t[i].0);
                        }
                    } else {
                        assert(t[p as int].0 == k);
                    }
                }
            }
        }
        n += 1;
    }
    proof {
        assert(ports@.take(n as int) =~= ports@);
    }
    table
}

/// A port binding as text: host address and host port.
pub open spec fn binding_view(b: PortBinding) -> (Seq<char>, Seq<char>) {
    (b.host_ip@, b.host_port@)
}

/// The views of the `PortBindings` entries: key and bindings.
pub open spec fn bindings_views(v: Seq<(String, Vec<PortBinding>)>) -> Seq<
    (Seq<char>, Seq<(Seq<char>, Seq<char>)>),
> {
    v.map_values(
        |e: (String, Vec<PortBinding>)| (e.0@, e.1@.map_values(|b: PortBinding| binding_view(b))),
    )
}

/// Each table entry bound on all host addresses.
pub open spec fn bindings_for(t: Seq<(Seq<char>, u16)>) -> Seq<
    (Seq<char>, Seq<(Seq<char>, Seq<char>)>),
> {
    t.map_values(
        |e: (Seq<char>, u16)| (e.0, seq![("0.0.0.0"@, decimal(e.1 as nat))]),
    )
}

/// The `PortBindings` of a create request: for each container port, in key
/// order, the host port of its last mapping on all host addresses.
pub fn build_port_bindings(ports: &[PortMapping]) -> (r: Vec<(String, Vec<PortBinding>)>)
    ensures
        exists|t: Seq<(Seq<char>, u16)>| port_table(ports@, t) && bindings_views(r@) == bindings_for(t),
{
    let table = port_binding_table(ports);
    let mut out: Vec<(String, Vec<PortBinding>)> = Vec::new();
    let mut i: usize = 0;
    while i < table.len()
        invariant
            i <= table@.len(),
            bindings_views(out@) == bindings_for(table_views(table@).take(i as int)),
        decreases table@.len() - i,
    {
        let (key, host) = &table[i];
        let mut bindings: Vec<PortBinding> = Vec::new();
        bindings.push(
            PortBinding { host_ip: String::from_str("0.0.0.0"), host_port: u64_to_decimal(*host as u64) },
        );
        let ghost prev = out@;
        out.push((String::from_str(key.as_str()), bindings));
        proof {
            assert(bindings@.map_values(|b: PortBinding| binding_view(b)) =~= seq![
                ("0.0.0.0"@, decimal(*host as nat)),
            ]);
            assert(bindings_views(out@) =~= bindings_views(prev).push(
                (key@, seq![("0.0.0.0"@, decimal(*host as nat))]),
            ));
            assert(table_views(table@).take(i + 1) =~= table_views(table@).take(i as int).push(
                (key@, *host),
            ));
            assert(bindings_for(table_views(table@).take(i + 1)) =~= bindings_for(
                table_views(table@).take(i as int),
            ).push((key@, seq![("0.0.0.0"@, decimal(*host as nat))])));
        }
        i += 1;
    }
    proof {
        assert(table_views(table@).take(i as int) =~= table_views(table@));
    }
    out
}

/// `{"HostIp":…,"HostPort":…}`.
pub open spec fn binding_json(b: (Seq<char>, Seq<char>)) -> Seq<char> {
    "{\"HostIp\":"@ + json_string(b.0) + ",\"HostPort\":"@ + json_string(b.1) + "}"@
}

/// One `PortBindings` member: the key and its array of bindings.
pub open spec fn binding_member_json(e: (Seq<char>, Seq<(Seq<char>, Seq<char>)>)) -> Seq<char> {
    json_string(e.0) + ":["@ + comma_joined(e.1.map_values(|b: (Seq<char>, Seq<char>)| binding_json(b)))
        + "]"@
}

/// The `PortBindings` object.
pub open spec fn port_bindings_json(v: Seq<(Seq<char>, Seq<(Seq<char>, Seq<char>)>)>) -> Seq<char> {
    "{"@ + comma_joined(
        v.map_values(|e: (Seq<char>, Seq<(Seq<char>, Seq<char>)>)| binding_member_json(e)),
    ) + "}"@
}

fn push_binding_member(out: &mut String, key: &str, bindings: &[PortBinding])
    ensures
        final(out)@ == old(out)@ + binding_member_json(
            (key@, bindings@.map_values(|b: PortBinding| binding_view(b))),
        ),
{
    let ghost start = out@;
    let k = escape_json(key);
    out.append(k.as_str());
    out.append(":[");
    let ghost mid = out@;
    let mut j: usize = 0;
    while j < bindings.len()
        invariant
            j <= bindings@.len(),
            out@ == mid + comma_joined(
                bindings@.take(j as int).map_values(|b: PortBinding| binding_json(binding_view(b))),
            ),
        decreases bindings@.len() - j,
    {
        let b = &bindings[j];
        let mut obj = String::from_str("{\"HostIp\":");
        let ip = escape_json(b.host_ip.as_str());
        obj.append(ip.as_str());
        obj.append(",\"HostPort\":");
        let port = escape_json(b.host_port.as_str());
        obj.append(port.as_str());
        obj.append("}");
        let ghost before = bindings@.take(j as int).map_values(
            |b: PortBinding| binding_json(binding_view(b)),
        );
        if j > 0 {
            push_char(out, ',');
        }
        out.append(obj.as_str());
        proof {
            assert(obj@ =~= binding_json(binding_view(*b)));
            assert(bindings@.take(j + 1).map_values(|b: PortBinding| binding_json(binding_view(b)))
                =~= before.push(binding_json(binding_view(*b))));
            lemma_comma_joined_push(before, binding_json(binding_view(*b)));
            assert(out@ =~= mid + comma_joined(
                bindings@.take(j + 1).map_values(|b: PortBinding| binding_json(binding_view(b))),
            ));
        }
        j += 1;
    }
    out.append("]");
    proof {
        assert(bindings@.take(j as int) =~= bindings@);
        let bv = bindings@.map_values(|b: PortBinding| binding_view(b));
        assert(bindings@.map_values(|b: PortBinding| binding_json(binding_view(b))) =~= bv.map_values(
            |b: (Seq<char>, Seq<char>)| binding_json(b),
        ));
        assert(out@ =~= start + binding_member_json((key@, bv)));
    }
}

/// The JSON object of `PortBindings`, members in the given order.
pub fn json_port_bindings(map: &[(String, Vec<PortBinding>)]) -> (r: String)
    ensures
        r@ == port_bindings_json(bindings_views(map@)),
{
    let mut json = String::from_str("{");
    let ghost start = json@;
    let mut i: usize = 0;
    while i < map.len()
        invariant
            i <= map@.len(),
            start == "{"@,
            json@ == start + comma_joined(
                bindings_views(map@.take(i as int)).map_values(
                    |e: (Seq<char>, Seq<(Seq<char>, Seq<char>)>)| binding_member_json(e),
                ),
            ),
        decreases map@.len() - i,
    {
        let (k, bindings) = &map[i];
        let ghost before = bindings_views(map@.take(i as int)).map_values(
            |e: (Seq<char>, Seq<(Seq<char>, Seq<char>)>)| binding_member_json(e),
        );
        let ghost m = binding_member_json(
            (k@, bindings@.map_values(|b: PortBinding| binding_view(b))),
        );
        let ghost pre = json@;
        if i > 0 {
            push_char(&mut json, ',');
        }
        let ghost sep = json@;
        push_binding_member(&mut json, k.as_str(), bindings.as_slice());
        proof {
            assert(bindings_views(map@.take(i + 1)).map_values(
                |e: (Seq<char>, Seq<(Seq<char>, Seq<char>)>)| binding_member_json(e),
            ) =~= before.push(m));
            lemma_comma_joined_push(before, m);
            assert(json@ =~= start + comma_joined(
                bindings_views(map@.take(i + 1)).map_values(
                    |e: (Seq<char>, Seq<(Seq<char>, Seq<char>)>)| binding_member_json(e),
                ),
            ));
        }
        i += 1;
    }
    json.append("}");
    proof {
        assert(map@.take(i as int) =~= map@);
        assert(json@ =~= port_bindings_json(bindings_views(map@)));
    }
    json
}

/// The container settings a create request is made from.
pub struct ContainerConfig {
    pub image: String,
    pub entrypoint: Option<Vec<String>>,
    pub cmd: Vec<String>,
    pub env: Vec<String>,
    pub ports: Vec<PortMapping>,
    pub mounts: Vec<Mount>,
    pub name: Option<String>,
    /// Labels in key order.
    pub labels: Vec<(String, String)>,
    pub privileged: bool,
    pub working_dir: Option<String>,
    pub user: Option<String>,
    pub init: bool,
    pub health_check: Option<Healthcheck>,
    pub cap_add: Vec<String>,
    pub cap_drop: Vec<String>,
    pub shm_size: Option<u64>,
    pub readonly_rootfs: bool,
    pub hostname: Option<String>,
    pub open_stdin: Option<bool>,
    pub network: Option<String>,
    pub platform: Option<String>,
    pub extra_hosts: Vec<String>,
}

/// The message of a mount that lacks a path it needs.
pub open spec fn mount_error(m: Mount) -> Option<Seq<char>> {
    match m.mount_type {
        MountType::Bind => if m.source is None {
            Some("bind mount source is required"@)
        } else if m.target is None {
            Some("bind mount target is required"@)
        } else {
            None
        },
        MountType::Volume => if m.source is None {
            Some("volume mount source is required"@)
        } else if m.target is None {
            Some("volume mount target is required"@)
        } else {
            None
        },
        MountType::Tmpfs => if m.target is None {
            Some("tmpfs mount target is required"@)
        } else {
            None
        },
    }
}

/// The error of the first mount that lacks a path, if any.
pub open spec fn first_mount_error(ms: Seq<Mount>) -> Option<Seq<char>>
    decreases ms.len(),
{
    if ms.len() == 0 {
        None
    } else {
        match first_mount_error(ms.drop_last()) {
            Some(e) => Some(e),
            None => mount_error(ms.last()),
        }
    }
}

/// `source:target:mode` of a bind mount.
pub open spec fn bind_text(m: Mount) -> Seq<char> {
    m.source->0@ + seq![':'] + m.target->0@ + seq![':'] + m.access_mode.text()
}

/// The options object of a tmpfs mount, or nothing.
pub open spec fn tmpfs_options_json(o: Option<MountTmpfsOptions>) -> Seq<char> {
    match o {
        None => Seq::empty(),
        Some(o) => {
            let size = match o.size_bytes {
                Some(n) => "\"SizeBytes\":"@ + decimal(n as nat),
                None => Seq::empty(),
            };
            let mode = match o.mode {
                Some(n) => (if size.len() > 0 {
                    seq![',']
                } else {
                    Seq::empty()
                }) + "\"Mode\":"@ + decimal(n as nat),
                None => Seq::empty(),
            };
            if size.len() + mode.len() > 0 {
                ",\"TmpfsOptions\":{"@ + size + mode + "}"@
            } else {
                Seq::empty()
            }
        },
    }
}

/// The `Mounts` entry of a volume or tmpfs mount.
pub open spec fn mount_json(m: Mount) -> Seq<char> {
    match m.mount_type {
        MountType::Volume => "{\"Type\":\"volume\",\"Source\":"@ + json_string(m.source->0@)
            + ",\"Target\":"@ + json_string(m.target->0@) + ",\"ReadOnly\":"@ + bool_text(
            m.access_mode == AccessMode::ReadOnly,
        ) + "}"@,
        _ => "{\"Type\":\"tmpfs\",\"Target\":"@ + json_string(m.target->0@) + ",\"ReadOnly\":"@
            + bool_text(m.access_mode == AccessMode::ReadOnly) + tmpfs_options_json(m.tmpfs_options)
            + "}"@,
    }
}

/// The `Binds` of the bind mounts, in order.
pub open spec fn binds_of(ms: Seq<Mount>) -> Seq<Seq<char>>
    decreases ms.len(),
{
    if ms.len() == 0 {
        Seq::empty()
    } else if ms.last().mount_type == MountType::Bind {
        binds_of(ms.drop_last()).push(bind_text(ms.last()))
    } else {
        binds_of(ms.drop_last())
    }
}

/// The `Mounts` entries of the volume and tmpfs mounts, in order.
pub open spec fn mount_entries_of(ms: Seq<Mount>) -> Seq<Seq<char>>
    decreases ms.len(),
{
    if ms.len() == 0 {
        Seq::empty()
    } else if ms.last().mount_type != MountType::Bind {
        mount_entries_of(ms.drop_last()).push(mount_json(ms.last()))
    } else {
        mount_entries_of(ms.drop_last())
    }
}

fn push_tmpfs_options(out: &mut String, o: Option<MountTmpfsOptions>)
    ensures
        final(out)@ == old(out)@ + tmpfs_options_json(o),
{
    match o {
        None => {
            assert(final(out)@ =~= old(out)@ + tmpfs_options_json(o));
        },
        Some(opts) => {
            let mut inner = String::new();
            match opts.size_bytes {
                Some(n) => {
                    inner.append("\"SizeBytes\":");
                    push_decimal(&mut inner, n as u128);
                },
                None => {},
            }
            let ghost size = inner@;
            match opts.mode {
                Some(n) => {
                    if !inner.as_str().is_empty() {
                        push_char(&mut inner, ',');
                    }
                    inner.append("\"Mode\":");
                    push_decimal(&mut inner, n as u128);
                },
                None => {},
            }
            let ghost mode = inner@.subrange(size.len() as int, inner@.len() as int);
            if !inner.as_str().is_empty() {
                out.append(",\"TmpfsOptions\":{");
                out.append(inner.as_str());
                out.append("}");
            }
            proof {
                assert(inner@ =~= size + mode);
                assert(final(out)@ =~= old(out)@ + tmpfs_options_json(o));
            }
        },
    }
}

fn mount_entry(m: &Mount) -> (r: String)
    requires
        m.mount_type != MountType::Bind,
        mount_error(*m) is None,
    ensures
        r@ == mount_json(*m),
{
    let read_only = match m.access_mode {
        AccessMode::ReadOnly => true,
        AccessMode::ReadWrite => false,
    };
    let mut entry = String::new();
    match m.mount_type {
        MountType::Volume => {
            entry.append("{\"Type\":\"volume\",\"Source\":");
            let src = escape_json(m.source.as_ref().unwrap().as_str());
            entry.append(src.as_str());
            entry.append(",\"Target\":");
            let tgt = escape_json(m.target.as_ref().unwrap().as_str());
            entry.append(tgt.as_str());
            entry.append(",\"ReadOnly\":");
            push_bool(&mut entry, read_only);
            entry.append("}");
        },
        _ => {
            entry.append("{\"Type\":\"tmpfs\",\"Target\":");
            let tgt = escape_json(m.target.as_ref().unwrap().as_str());
            entry.append(tgt.as_str());
            entry.append(",\"ReadOnly\":");
            push_bool(&mut entry, read_only);
            push_tmpfs_options(&mut entry, m.tmpfs_options);
            entry.append("}");
        },
    }
    proof {
        assert(entry@ =~= mount_json(*m));
    }
    entry
}

fn bind_entry(m: &Mount) -> (r: String)
    requires
        m.mount_type == MountType::Bind,
        mount_error(*m) is None,
    ensures
        r@ == bind_text(*m),
{
    let mut s = String::from_str(m.source.as_ref().unwrap().as_str());
    push_char(&mut s, ':');
    s.append(m.target.as_ref().unwrap().as_str());
    push_char(&mut s, ':');
    s.append(m.access_mode.as_str());
    s
}

fn mount_error_message(m: &Mount) -> (r: Option<String>)
    ensures
        match mount_error(*m) {
            Some(e) => r matches Some(s) && s@ == e,
            None => r is None,
        },
{
    match m.mount_type {
        MountType::Bind => if m.source.is_none() {
            Some(String::from_str("bind mount source is required"))
        } else if m.target.is_none() {
            Some(String::from_str("bind mount target is required"))
        } else {
            None
        },
        MountType::Volume => if m.source.is_none() {
            Some(String::from_str("volume mount source is required"))
        } else if m.target.is_none() {
            Some(String::from_str("volume mount target is required"))
        } else {
            None
        },
        MountType::Tmpfs => if m.target.is_none() {
            Some(String::from_str("tmpfs mount target is required"))
        } else {
            None
        },
    }
}

/// Splits mounts into `Binds` and `Mounts` entries, or names the first
/// mount that lacks a path.
pub fn mount_specs(mounts: &[Mount]) -> (r: Result<(Vec<String>, Vec<String>), String>)
    ensures
        match first_mount_error(mounts@) {
            Some(e) => r matches Err(s) && s@ == e,
            None => r matches Ok((binds, entries)) && string_views(binds@) == binds_of(mounts@)
                && string_views(entries@) == mount_entries_of(mounts@),
        },
{
    let mut binds: Vec<String> = Vec::new();
    let mut entries: Vec<String> = Vec::new();
    let mut i: usize = 0;
    while i < mounts.len()
        invariant
            i <= mounts@.len(),
            first_mount_error(mounts@.take(i as int)) is None,
            string_views(binds@) == binds_of(mounts@.take(i as int)),
            string_views(entries@) == mount_entries_of(mounts@.take(i as int)),
        decreases mounts@.len() - i,
    {
        let m = &mounts[i];
        proof {
            assert(mounts@.take(i + 1).drop_last() =~= mounts@.take(i as int));
        }
        match mount_error_message(m) {
            Some(msg) => {
                proof {
                    lemma_first_mount_error_prefix(mounts@, i as int + 1);
                }
                return Err(msg);
            },
            None => {},
        }
        if m.mount_type == MountType::Bind {
            let b = bind_entry(m);
            let ghost prev = binds@;
            binds.push(b);
            proof {
                assert(string_views(binds@) =~= string_views(prev).push(b@));
            }
        } else {
            let e = mount_entry(m);
            let ghost prev = entries@;
            entries.push(e);
            proof {
                assert(string_views(entries@) =~= string_views(prev).push(e@));
            }
        }
        i += 1;
    }
    proof {
        assert(mounts@.take(i as int) =~= mounts@);
    }
    Ok((binds, entries))
}

/// The first error of a prefix is the first error of the whole.
proof fn lemma_first_mount_error_prefix(ms: Seq<Mount>, n: int)
    requires
        0 <= n <= ms.len(),
        first_mount_error(ms.take(n)) is Some,
    ensures
        first_mount_error(ms) == first_mount_error(ms.take(n)),
    decreases ms.len() - n,
{
    if n < ms.len() {
        assert(ms.take(n + 1).drop_last() =~= ms.take(n));
        lemma_first_mount_error_prefix(ms, n + 1);
    } else {
        assert(ms.take(n) =~= ms);
    }
}

/// `,"<key>":<array>` when `items` is not empty.
pub open spec fn array_member(key: Seq<char>, items: Seq<Seq<char>>) -> Seq<char> {
    if items.len() > 0 {
        seq![','] + key + seq![':'] + json_array_text(items)
    } else {
        Seq::empty()
    }
}

fn push_array_member(out: &mut String, key: &str, items: &[String])
    ensures
        final(out)@ == old(out)@ + array_member(key@, string_views(items@)),
{
    if items.len() > 0 {
        push_char(out, ',');
        out.append(key);
        push_char(out, ':');
        push_json_array(out, items);
        assert(final(out)@ =~= old(out)@ + array_member(key@, string_views(items@)));
    } else {
        assert(final(out)@ =~= old(out)@ + array_member(key@, string_views(items@)));
    }
}

/// `,"<key>":<string>` when the value is set.
pub open spec fn string_member(key: Seq<char>, v: Option<String>) -> Seq<char> {
    match v {
        Some(s) => seq![','] + key + seq![':'] + json_string(s@),
        None => Seq::empty(),
    }
}

fn push_string_member(out: &mut String, key: &str, v: &Option<String>)
    ensures
        final(out)@ == old(out)@ + string_member(key@, *v),
{
    match v {
        Some(s) => {
            push_char(out, ',');
            out.append(key);
            push_char(out, ':');
            let j = escape_json(s.as_str());
            out.append(j.as_str());
            assert(final(out)@ =~= old(out)@ + string_member(key@, *v));
        },
        None => {
            assert(final(out)@ =~= old(out)@ + string_member(key@, *v));
        },
    }
}

/// The `HostConfig` part of a create request.
pub struct HostConfig {
    pub port_bindings: Vec<(String, Vec<PortBinding>)>,
    pub binds: Vec<String>,
    pub privileged: bool,
    pub init: bool,
    pub cap_add: Vec<String>,
    pub cap_drop: Vec<String>,
    pub shm_size: Option<u64>,
    pub readonly_rootfs: bool,
    pub extra_hosts: Vec<String>,
    /// `Mounts` entries (volume and tmpfs), as JSON objects.
    pub mounts: Vec<String>,
}

impl HostConfig {
    /// The JSON text of the `HostConfig` object.
    pub open spec fn json_text(&self) -> Seq<char> {
        "{\"Privileged\":"@ + bool_text(self.privileged) + ",\"Init\":"@ + bool_text(self.init)
            + ",\"ReadonlyRootfs\":"@ + bool_text(self.readonly_rootfs) + array_member(
            "\"Binds\""@,
            string_views(self.binds@),
        ) + (if self.port_bindings@.len() > 0 {
            ",\"PortBindings\":"@ + port_bindings_json(bindings_views(self.port_bindings@))
        } else {
            Seq::empty()
        }) + array_member("\"CapAdd\""@, string_views(self.cap_add@)) + array_member(
            "\"CapDrop\""@,
            string_views(self.cap_drop@),
        ) + (match self.shm_size {
            Some(n) => ",\"ShmSize\":"@ + decimal(n as nat),
            None => Seq::empty(),
        }) + array_member("\"ExtraHosts\""@, string_views(self.extra_hosts@)) + (
        if self.mounts@.len() > 0 {
            ",\"Mounts\":["@ + comma_joined(string_views(self.mounts@)) + "]"@
        } else {
            Seq::empty()
        }) + "}"@
    }

    /// The JSON text of the `HostConfig` object.
    pub fn to_json_string(&self) -> (r: Result<String, Error>)
        ensures
            r matches Ok(s) && s@ == self.json_text(),
    {
        let mut json = String::from_str("{\"Privileged\":");
        push_bool(&mut json, self.privileged);
        json.append(",\"Init\":");
        push_bool(&mut json, self.init);
        json.append(",\"ReadonlyRootfs\":");
        push_bool(&mut json, self.readonly_rootfs);
        push_array_member(&mut json, "\"Binds\"", self.binds.as_slice());
        let ghost a = json@;
        if self.port_bindings.len() > 0 {
            json.append(",\"PortBindings\":");
            let pb = json_port_bindings(self.port_bindings.as_slice());
            json.append(pb.as_str());
        }
        let ghost b = json@;
        push_array_member(&mut json, "\"CapAdd\"", self.cap_add.as_slice());
        push_array_member(&mut json, "\"CapDrop\"", self.cap_drop.as_slice());
        let ghost c = json@;
        match self.shm_size {
            Some(n) => {
                json.append(",\"ShmSize\":");
                push_decimal(&mut json, n as u128);
            },
            None => {},
        }
        let ghost d = json@;
        push_array_member(&mut json, "\"ExtraHosts\"", self.extra_hosts.as_slice());
        let ghost e = json@;
        if self.mounts.len() > 0 {
            json.append(",\"Mounts\":[");
            let mut i: usize = 0;
            while i < self.mounts.len()
                invariant
                    i <= self.mounts@.len(),
                    json@ == e + ",\"Mounts\":["@ + comma_joined(
                        string_views(self.mounts@.take(i as int)),
                    ),
                decreases self.mounts@.len() - i,
            {
                let ghost before = string_views(self.mounts@.take(i as int));
                if i > 0 {
                    push_char(&mut json, ',');
                }
                json.append(self.mounts[i].as_str());
                proof {
                    assert(string_views(self.mounts@.take(i + 1)) =~= before.push(
                        self.mounts@[i as int]@,
                    ));
                    lemma_comma_joined_push(before, self.mounts@[i as int]@);
                    assert(json@ =~= e + ",\"Mounts\":["@ + comma_joined(
                        string_views(self.mounts@.take(i + 1)),
                    ));
                }
                i += 1;
            }
            json.append("]");
            proof {
                assert(self.mounts@.take(i as int) =~= self.mounts@);
            }
        }
        let ghost f = json@;
        json.append("}");
        proof {
            assert(b =~= a + (if self.port_bindings@.len() > 0 {
                ",\"PortBindings\":"@ + port_bindings_json(bindings_views(self.port_bindings@))
            } else {
                Seq::<char>::empty()
            }));
            assert(d =~= c + (match self.shm_size {
                Some(n) => ",\"ShmSize\":"@ + decimal(n as nat),
                None => Seq::<char>::empty(),
            }));
            assert(f =~= e + (if self.mounts@.len() > 0 {
                ",\"Mounts\":["@ + comma_joined(string_views(self.mounts@)) + "]"@
            } else {
                Seq::<char>::empty()
            }));
            assert(json@ =~= self.json_text());
        }
        Ok(json)
    }
}

/// The body of a container creation request.
pub struct CreateContainerBody {
    pub image: String,
    pub entrypoint: Option<Vec<String>>,
    pub cmd: Vec<String>,
    pub env: Vec<String>,
    pub labels: Vec<(String, String)>,
    pub working_dir: Option<String>,
    pub user: Option<String>,
    pub host_config: HostConfig,
    pub exposed_ports: Vec<String>,
    pub healthcheck: Option<Healthcheck>,
    pub hostname: Option<String>,
    pub open_stdin: Option<bool>,
    pub network: Option<String>,
}

/// The `ExposedPorts` object: each key mapped to `{}`.
pub open spec fn exposed_ports_json(keys: Seq<Seq<char>>) -> Seq<char> {
    seq!['{'] + comma_joined(keys.map_values(|k: Seq<char>| json_string(k) + ":{}"@)) + seq!['}']
}

/// `,"ExposedPorts":{…}` when there are exposed ports.
pub open spec fn exposed_member(keys: Seq<Seq<char>>) -> Seq<char> {
    if keys.len() > 0 {
        ",\"ExposedPorts\":"@ + exposed_ports_json(keys)
    } else {
        Seq::empty()
    }
}

fn push_exposed_member(out: &mut String, keys: &[String])
    ensures
        final(out)@ == old(out)@ + exposed_member(string_views(keys@)),
{
    if keys.len() == 0 {
        assert(final(out)@ =~= old(out)@ + exposed_member(string_views(keys@)));
        return;
    }
    out.append(",\"ExposedPorts\":");
    let ghost q = out@;
    push_char(out, '{');
    let mut i: usize = 0;
    while i < keys.len()
        invariant
            i <= keys@.len(),
            out@ == q + seq!['{'] + comma_joined(
                string_views(keys@.take(i as int)).map_values(
                    |k: Seq<char>| json_string(k) + ":{}"@,
                ),
            ),
        decreases keys@.len() - i,
    {
        let ghost before = string_views(keys@.take(i as int)).map_values(
            |k: Seq<char>| json_string(k) + ":{}"@,
        );
        if i > 0 {
            push_char(out, ',');
        }
        let key = escape_json(keys[i].as_str());
        out.append(key.as_str());
        out.append(":{}");
        proof {
            let m = json_string(keys@[i as int]@) + ":{}"@;
            assert(string_views(keys@.take(i + 1)).map_values(
                |k: Seq<char>| json_string(k) + ":{}"@,
            ) =~= before.push(m));
            lemma_comma_joined_push(before, m);
            assert(out@ =~= q + seq!['{'] + comma_joined(
                string_views(keys@.take(i + 1)).map_values(|k: Seq<char>| json_string(k) + ":{}"@),
            ));
        }
        i += 1;
    }
    push_char(out, '}');
    proof {
        assert(keys@.take(i as int) =~= keys@);
        assert(final(out)@ =~= old(out)@ + exposed_member(string_views(keys@)));
    }
}

/// `,"Healthcheck":{…}` when a healthcheck is set and sets anything.
pub open spec fn healthcheck_member(h: Option<Healthcheck>) -> Seq<char> {
    match h {
        Some(h) => if inherits_image(h) {
            Seq::empty()
        } else {
            ",\"Healthcheck\":"@ + docker_json_text(h)
        },
        None => Seq::empty(),
    }
}

fn push_healthcheck_member(out: &mut String, h: &Option<Healthcheck>)
    ensures
        final(out)@ == old(out)@ + healthcheck_member(*h),
{
    match h {
        Some(hc) => match hc.to_docker_json() {
            Some(hc_json) => {
                out.append(",\"Healthcheck\":");
                out.append(hc_json.as_str());
            },
            None => {},
        },
        None => {},
    }
    assert(final(out)@ =~= old(out)@ + healthcheck_member(*h));
}

/// `,"NetworkingConfig":…` attaching the container to a network, if set.
pub open spec fn network_member(n: Option<String>) -> Seq<char> {
    match n {
        Some(n) => ",\"NetworkingConfig\":{\"EndpointsConfig\":{"@ + json_string(n@) + ":{}"@
            + "}}"@,
        None => Seq::empty(),
    }
}

fn push_network_member(out: &mut String, n: &Option<String>)
    ensures
        final(out)@ == old(out)@ + network_member(*n),
{
    match n {
        Some(network) => {
            out.append(",\"NetworkingConfig\":{\"EndpointsConfig\":{");
            let j = escape_json(network.as_str());
            out.append(j.as_str());
            out.append(":{}");
            out.append("}}");
        },
        None => {},
    }
    assert(final(out)@ =~= old(out)@ + network_member(*n));
}

impl CreateContainerBody {
    /// The request for `config`: its ports become exposed ports and
    /// bindings, its bind mounts `Binds` and its other mounts `Mounts`
    /// entries. Fails on the first mount that lacks a path.
    pub fn from_config(config: ContainerConfig) -> (r: Result<CreateContainerBody, Error>)
        ensures
            match first_mount_error(config.mounts@) {
                Some(e) => r matches Err(Error::Client(ClientError::Configuration(m))) && m@ == e,
                None => r matches Ok(body) && {
                    &&& body.image == config.image
                    &&& body.entrypoint == config.entrypoint
                    &&& body.cmd == config.cmd
                    &&& body.env == config.env
                    &&& body.labels == config.labels
                    &&& body.working_dir == config.working_dir
                    &&& body.user == config.user
                    &&& body.healthcheck == config.health_check
                    &&& body.hostname == config.hostname
                    &&& body.open_stdin == config.open_stdin
                    &&& body.network == config.network
                    &&& string_views(body.exposed_ports@) == exposed_port_keys(config.ports@)
                    &&& exists|t: Seq<(Seq<char>, u16)>|
                        port_table(config.ports@, t) && bindings_views(
                            body.host_config.port_bindings@,
                        ) == bindings_for(t)
                    &&& string_views(body.host_config.binds@) == binds_of(config.mounts@)
                    &&& string_views(body.host_config.mounts@) == mount_entries_of(config.mounts@)
                    &&& body.host_config.privileged == config.privileged
                    &&& body.host_config.init == config.init
                    &&& body.host_config.cap_add == config.cap_add
                    &&& body.host_config.cap_drop == config.cap_drop
                    &&& body.host_config.shm_size == config.shm_size
                    &&& body.host_config.readonly_rootfs == config.readonly_rootfs
                    &&& body.host_config.extra_hosts == config.extra_hosts
                },
            },
    {
        let port_bindings = build_port_bindings(config.ports.as_slice());
        let exposed_ports = build_exposed_ports(config.ports.as_slice());
        let (binds, mounts) = match mount_specs(config.mounts.as_slice()) {
            Ok(parts) => parts,
            Err(msg) => {
                return Err(Error::Client(ClientError::Configuration(msg)));
            },
        };
        Ok(CreateContainerBody {
            image: config.image,
            entrypoint: config.entrypoint,
            cmd: config.cmd,
            env: config.env,
            labels: config.labels,
            working_dir: config.working_dir,
            user: config.user,
            host_config: HostConfig {
                port_bindings,
                binds,
                privileged: config.privileged,
                init: config.init,
                cap_add: config.cap_add,
                cap_drop: config.cap_drop,
                shm_size: config.shm_size,
                readonly_rootfs: config.readonly_rootfs,
                extra_hosts: config.extra_hosts,
                mounts,
            },
            exposed_ports,
            healthcheck: config.health_check,
            hostname: config.hostname,
            open_stdin: config.open_stdin,
            network: config.network,
        })
    }

    /// The JSON text of the request.
    pub open spec fn json_text(&self) -> Seq<char> {
        "{\"Image\":"@ + json_string(self.image@) + (match self.entrypoint {
            Some(ep) => array_member("\"Entrypoint\""@, string_views(ep@)),
            None => Seq::empty(),
        }) + array_member("\"Cmd\""@, string_views(self.cmd@)) + array_member(
            "\"Env\""@,
            string_views(self.env@),
        ) + (if self.labels@.len() > 0 {
            ",\"Labels\":"@ + json_object_text(pair_views(self.labels@))
        } else {
            Seq::empty()
        }) + string_member("\"WorkingDir\""@, self.working_dir) + string_member(
            "\"User\""@,
            self.user,
        ) + exposed_member(string_views(self.exposed_ports@)) + healthcheck_member(self.healthcheck)
            + string_member("\"Hostname\""@, self.hostname) + (if self.open_stdin == Some(true) {
            ",\"OpenStdin\":true"@
        } else {
            Seq::empty()
        }) + network_member(self.network) + ",\"HostConfig\":"@ + self.host_config.json_text()
            + "}"@
    }

    /// The JSON text of the request.
    pub fn to_json_string(&self) -> (r: Result<String, Error>)
        ensures
            r matches Ok(s) && s@ == self.json_text(),
    {
        let mut json = String::from_str("{\"Image\":");
        let image = escape_json(self.image.as_str());
        json.append(image.as_str());
        let ghost p0 = json@;
        match &self.entrypoint {
            Some(ep) => push_array_member(&mut json, "\"Entrypoint\"", ep.as_slice()),
            None => {},
        }
        let ghost p1 = json@;
        push_array_member(&mut json, "\"Cmd\"", self.cmd.as_slice());
        push_array_member(&mut json, "\"Env\"", self.env.as_slice());
        let ghost p2 = json@;
        if self.labels.len() > 0 {
            json.append(",\"Labels\":");
            let labels = json_object(self.labels.as_slice());
            json.append(labels.as_str());
        }
        let ghost p3 = json@;
        push_string_member(&mut json, "\"WorkingDir\"", &self.working_dir);
        push_string_member(&mut json, "\"User\"", &self.user);
        push_exposed_member(&mut json, self.exposed_ports.as_slice());
        push_healthcheck_member(&mut json, &self.healthcheck);
        push_string_member(&mut json, "\"Hostname\"", &self.hostname);
        let ghost p7 = json@;
        if self.open_stdin == Some(true) {
            json.append(",\"OpenStdin\":true");
        }
        let ghost p8 = json@;
        push_network_member(&mut json, &self.network);
        json.append(",\"HostConfig\":");
        let host = match self.host_config.to_json_string() {
            Ok(h) => h,
            Err(e) => {
                return Err(e);
            },
        };
        json.append(host.as_str());
        json.append("}");
        proof {
            assert(p1 =~= p0 + (match self.entrypoint {
                Some(ep) => array_member("\"Entrypoint\""@, string_views(ep@)),
                None => Seq::<char>::empty(),
            }));
            assert(p3 =~= p2 + (if self.labels@.len() > 0 {
                ",\"Labels\":"@ + json_object_text(pair_views(self.labels@))
            } else {
                Seq::<char>::empty()
            }));
            assert(p8 =~= p7 + (if self.open_stdin == Some(true) {
                ",\"OpenStdin\":true"@
            } else {
                Seq::<char>::empty()
            }));
            assert(json@ =~= self.json_text());
        }
        Ok(json)
    }
}

/// The `message` of a daemon error body `{"message": "..."}`, if the body
/// is UTF-8 JSON with such a string member.
pub open spec fn daemon_message(body: Seq<u8>) -> Option<Seq<char>> {
    if valid_utf8(body) {
        json_string_at(decode_utf8(body), seq!["message"@])
    } else {
        None
    }
}

/// Reads the `message` of a daemon error body.
pub fn parse_daemon_error_message(body: &[u8]) -> (r: Option<String>)
    ensures
        match daemon_message(body@) {
            Some(m) => r matches Some(s) && s@ == m,
            None => r is None,
        },
{
    let text = match utf8_str(body) {
        Some(t) => t,
        None => {
            return None;
        },
    };
    proof {
        vstd::utf8::encode_utf8_decode_utf8(text@);
    }
    let path: [&str; 1] = ["message"];
    proof {
        assert(path_views(path@) =~= seq!["message"@]);
    }
    json_string_member(text, path.as_slice())
}

/// Does the daemon's message say that the path, not the container, is
/// missing?
pub open spec fn names_missing_path(message: Option<Seq<char>>) -> bool {
    match message {
        Some(m) => {
            let p = "Could not find the file "@;
            p.len() <= m.len() && m.take(p.len() as int) == p
        },
        None => false,
    }
}

/// The error for a 404 of the archive endpoint, given the daemon's message:
/// a message that begins with `Could not find the file ` means the path is
/// missing; anything else (or no message) that the container is.
pub fn classify_daemon_message(id: &str, path: &str, message: Option<&str>) -> (r: ClientError)
    ensures
        names_missing_path(
            match message {
                Some(m) => Some(m@),
                None => None,
            },
        ) ==> (r matches ClientError::ContainerPathNotFound(p) && p@ == path@),
        !names_missing_path(
            match message {
                Some(m) => Some(m@),
                None => None,
            },
        ) ==> (r matches ClientError::ContainerNotFound(i) && i@ == id@),
{
    match message {
        Some(m) => {
            if starts_with(m, "Could not find the file ") {
                ClientError::ContainerPathNotFound(String::from_str(path))
            } else {
                ClientError::ContainerNotFound(String::from_str(id))
            }
        },
        None => ClientError::ContainerNotFound(String::from_str(id)),
    }
}

/// Classifies a 404 of `GET /containers/{id}/archive`: a missing path
/// inside the container, or (the safe default) a missing container.
pub fn classify_archive_404(id: &str, path: &str, body: &[u8]) -> (r: ClientError)
    ensures
        names_missing_path(daemon_message(body@)) ==> (r matches ClientError::ContainerPathNotFound(
            p,
        ) && p@ == path@),
        !names_missing_path(daemon_message(body@)) ==> (r matches ClientError::ContainerNotFound(i)
            && i@ == id@),
{
    let message = parse_daemon_error_message(body);
    match &message {
        Some(m) => classify_daemon_message(id, path, Some(m.as_str())),
        None => classify_daemon_message(id, path, None),
    }
}

/// The client for the Docker Engine API on its Unix socket.
#[derive(Debug, Clone)]
pub struct DockerClient {
    pub socket_path: String,
}

/// Where the Docker Engine listens by default.
pub const DEFAULT_DOCKER_SOCKET: &'static str = "/var/run/docker.sock";

impl DockerClient {
    /// A client for the default socket; always succeeds (nothing is
    /// contacted yet).
    pub fn detect() -> (r: Result<DockerClient, Error>)
        ensures
            r matches Ok(c) && c.socket_path@ == DEFAULT_DOCKER_SOCKET@,
    {
        Ok(DockerClient { socket_path: String::from_str(DEFAULT_DOCKER_SOCKET) })
    }
}

/// Wraps a failure of the HTTP layer, given by its message, as a client
/// error.
pub fn http11_err(message: String) -> (r: Error)
    ensures
        r == Error::Client(ClientError::Other(message)),
{
    Error::Client(ClientError::Other(message))
}

/// The host port a binding object names in `HostPort`, if it is a number.
pub open spec fn binding_host(b: Seq<char>) -> Option<u16> {
    match json_string_at(b, seq!["HostPort"@]) {
        Some(s) => parsed_u16(s),
        None => None,
    }
}

/// The host ports of a list of binding objects, in order.
pub open spec fn items_hosts(items: Seq<Seq<char>>) -> Seq<u16>
    decreases items.len(),
{
    if items.len() == 0 {
        Seq::empty()
    } else {
        items_hosts(items.drop_last()) + match binding_host(items.last()) {
            Some(h) => seq![h],
            None => Seq::empty(),
        }
    }
}

/// What one `Ports` member publishes, in order.
pub open spec fn entry_adds(e: (Seq<char>, Seq<char>)) -> Seq<(ContainerPort, u16)> {
    match port_key(e.0) {
        None => Seq::empty(),
        Some(p) => match json_items_of(e.1) {
            Ok(items) => items_hosts(items).map_values(|h: u16| (p, h)),
            Err(_) => Seq::empty(),
        },
    }
}

/// What all `Ports` members publish, in order.
pub open spec fn entries_adds(es: Seq<(Seq<char>, Seq<char>)>) -> Seq<(ContainerPort, u16)>
    decreases es.len(),
{
    if es.len() == 0 {
        Seq::empty()
    } else {
        entries_adds(es.drop_last()) + entry_adds(es.last())
    }
}

/// The last host port published for `q`.
pub open spec fn last_host_for(adds: Seq<(ContainerPort, u16)>, q: ContainerPort) -> Option<u16>
    decreases adds.len(),
{
    if adds.len() == 0 {
        None
    } else if adds.last().0 == q {
        Some(adds.last().1)
    } else {
        last_host_for(adds.drop_last(), q)
    }
}

/// The publications in a container inspection: `NetworkSettings.Ports`,
/// or none where it is missing or not an object.
pub open spec fn inspect_port_adds(text: Seq<char>) -> Seq<(ContainerPort, u16)> {
    match json_member_text(text, seq!["NetworkSettings"@]) {
        Ok(Some(ns)) => match json_member_text(ns, seq!["Ports"@]) {
            Ok(Some(pj)) => match json_entries_of(pj) {
                Ok(es) => entries_adds(es),
                Err(_) => Seq::empty(),
            },
            _ => Seq::empty(),
        },
        _ => Seq::empty(),
    }
}

proof fn lemma_last_host_push(adds: Seq<(ContainerPort, u16)>, a: (ContainerPort, u16), q: ContainerPort)
    ensures
        last_host_for(adds.push(a), q) == if a.0 == q {
            Some(a.1)
        } else {
            last_host_for(adds, q)
        },
{
    assert(adds.push(a).drop_last() =~= adds);
}

/// Publishes each binding host of `value` for `port` into `ports`.
fn add_bindings(ports: &mut Ports, port: ContainerPort, value: &str, Ghost(adds): Ghost<Seq<(ContainerPort, u16)>>)
    requires
        old(ports).wf(),
        forall|q: ContainerPort| #[trigger] port_lookup(old(ports).ipv4@, q) == last_host_for(adds, q),
    ensures
        final(ports).wf(),
        final(ports).ipv6 == old(ports).ipv6,
        forall|q: ContainerPort| #[trigger] port_lookup(final(ports).ipv4@, q) == last_host_for(
            adds + match json_items_of(value@) {
                Ok(items) => items_hosts(items).map_values(|h: u16| (port, h)),
                Err(_) => Seq::empty(),
            },
            q,
        ),
{
    let items = match json_items(value) {
        Ok(items) => items,
        Err(_) => {
            assert(adds + Seq::<(ContainerPort, u16)>::empty() =~= adds);
            return;
        },
    };
    let ghost views = text_views(items@);
    let mut k: usize = 0;
    let path: [&str; 1] = ["HostPort"];
    proof {
        assert(path_views(path@) =~= seq!["HostPort"@]);
        assert(adds + items_hosts(views.take(0)).map_values(|h: u16| (port, h)) =~= adds);
    }
    while k < items.len()
        invariant
            k <= items@.len(),
            views == text_views(items@),
            path_views(path@) == seq!["HostPort"@],
            ports.wf(),
            ports.ipv6 == old(ports).ipv6,
            forall|q: ContainerPort| #[trigger] port_lookup(ports.ipv4@, q) == last_host_for(
                adds + items_hosts(views.take(k as int)).map_values(|h: u16| (port, h)),
                q,
            ),
        decreases items@.len() - k,
    {
        let ghost prev = adds + items_hosts(views.take(k as int)).map_values(|h: u16| (port, h));
        proof {
            assert(views.take(k + 1).drop_last() =~= views.take(k as int));
            assert(views.take(k + 1).last() == items@[k as int]@);
        }
        let host = match json_string_member(items[k].as_str(), path.as_slice()) {
            Some(s) => parse_u16(s.as_str()),
            None => None,
        };
        match host {
            Some(h) => {
                ports.add_mapping(port, h);
                proof {
                    assert(adds + items_hosts(views.take(k + 1)).map_values(|h: u16| (port, h)) =~= prev.push(
                        (port, h),
                    ));
                    assert forall|q: ContainerPort| #[trigger] port_lookup(ports.ipv4@, q) == last_host_for(
                        prev.push((port, h)),
                        q,
                    ) by {
                        lemma_last_host_push(prev, (port, h), q);
                    }
                }
            },
            None => {
                proof {
                    assert(adds + items_hosts(views.take(k + 1)).map_values(|h: u16| (port, h)) =~= prev);
                }
            },
        }
        k += 1;
    }
    proof {
        assert(views.take(k as int) =~= views);
    }
}

/// The published ports of a container inspection (`GET
/// /containers/{id}/json`): every IPv4 publication, later ones winning.
pub fn parse_ports(text: &str) -> (r: Ports)
    ensures
        r.wf(),
        r.ipv6@.len() == 0,
        forall|q: ContainerPort| #[trigger] port_lookup(r.ipv4@, q) == last_host_for(
            inspect_port_adds(text@),
            q,
        ),
{
    let mut ports = Ports::new();
    let ns_path: [&str; 1] = ["NetworkSettings"];
    let ports_path: [&str; 1] = ["Ports"];
    proof {
        assert(path_views(ns_path@) =~= seq!["NetworkSettings"@]);
        assert(path_views(ports_path@) =~= seq!["Ports"@]);
    }
    let ns = match json_member_raw(text, ns_path.as_slice()) {
        Ok(Some(ns)) => ns,
        _ => {
            return ports;
        },
    };
    let pj = match json_member_raw(ns.as_str(), ports_path.as_slice()) {
        Ok(Some(pj)) => pj,
        _ => {
            return ports;
        },
    };
    let entries = match json_entries(pj.as_str()) {
        Ok(e) => e,
        Err(_) => {
            return ports;
        },
    };
    let ghost es = pair_views(entries@);
    let mut i: usize = 0;
    while i < entries.len()
        invariant
            i <= entries@.len(),
            es == pair_views(entries@),
            ports.wf(),
            ports.ipv6@.len() == 0,
            forall|q: ContainerPort| #[trigger] port_lookup(ports.ipv4@, q) == last_host_for(
                entries_adds(es.take(i as int)),
                q,
            ),
        decreases entries@.len() - i,
    {
        let (key, value) = &entries[i];
        proof {
            assert(es.take(i + 1).drop_last() =~= es.take(i as int));
            assert(es.take(i + 1).last() == (key@, value@));
        }
        match parse_container_port(key.as_str()) {
            Some(port) => {
                add_bindings(&mut ports, port, value.as_str(), Ghost(entries_adds(es.take(i as int))));
            },
            None => {
                proof {
                    assert(entries_adds(es.take(i + 1)) =~= entries_adds(es.take(i as int)));
                }
            },
        }
        i += 1;
    }
    proof {
        assert(es.take(i as int) =~= es);
    }
    ports
}

/// `(running, exit code)` of an exec inspection: `Running` read as a
/// boolean (missing or not one counts as finished) and `ExitCode` as an
/// integer, if present.
pub open spec fn exec_state_of(text: Seq<char>) -> (bool, Option<i64>) {
    let running = match json_member_text(text, seq!["Running"@]) {
        Ok(Some(v)) => match json_bool_of(v) {
            Some(b) => b,
            None => false,
        },
        _ => false,
    };
    let code = match json_member_text(text, seq!["ExitCode"@]) {
        Ok(Some(v)) => json_i64_of(v),
        _ => None,
    };
    (running, code)
}

/// Reads the state of an exec from its inspection body (`GET
/// /exec/{id}/json`). A body that is not UTF-8 JSON is a JSON error.
pub fn parse_exec_inspect_state(body: &[u8]) -> (r: Result<(bool, Option<i64>), Error>)
    ensures
        !valid_utf8(body@) ==> (r matches Err(Error::Client(ClientError::Json(m))) && m@
            == utf8_error_text(body@)),
        valid_utf8(body@) ==> match json_syntax(decode_utf8(body@)) {
            Err(e) => r matches Err(Error::Client(ClientError::Json(m))) && m@ == e,
            Ok(()) => r == Ok::<(bool, Option<i64>), Error>(exec_state_of(decode_utf8(body@))),
        },
{
    let text = match utf8_str_or_error(body) {
        Ok(t) => t,
        Err(m) => {
            return Err(Error::Client(ClientError::Json(m)));
        },
    };
    proof {
        vstd::utf8::encode_utf8_decode_utf8(text@);
    }
    match json_check(text) {
        Ok(()) => {},
        Err(m) => {
            return Err(Error::Client(ClientError::Json(m)));
        },
    }
    let running_path: [&str; 1] = ["Running"];
    let code_path: [&str; 1] = ["ExitCode"];
    proof {
        assert(path_views(running_path@) =~= seq!["Running"@]);
        assert(path_views(code_path@) =~= seq!["ExitCode"@]);
    }
    let running = match json_member_raw(text, running_path.as_slice()) {
        Ok(Some(v)) => match json_as_bool(v.as_str()) {
            Some(b) => b,
            None => false,
        },
        _ => false,
    };
    let code = match json_member_raw(text, code_path.as_slice()) {
        Ok(Some(v)) => json_as_i64(v.as_str()),
        _ => None,
    };
    Ok((running, code))
}

/// What one line of an image pull's progress stream says: nothing (a blank
/// or progress line), or a failure as `(is a JSON error, message)`.
pub open spec fn pull_line_failure(line: Seq<char>) -> Option<(bool, Seq<char>)> {
    if line.len() == 0 {
        None
    } else {
        match json_syntax(line) {
            Err(e) => Some((true, e)),
            Ok(()) => if json_kind_of(line) != Ok::<JsonKind, Seq<char>>(JsonKind::Object) {
                Some((true, "expected object in pull stream, got "@ + line))
            } else {
                let error = json_string_at(line, seq!["error"@]);
                let detail = json_string_at(line, seq!["errorDetail"@, "message"@]);
                if error is Some && error->0.len() > 0 {
                    Some((false, error->0))
                } else if detail is Some && detail->0.len() > 0 {
                    Some((false, detail->0))
                } else {
                    None
                }
            },
        }
    }
}

/// The first failure among the lines (each trimmed).
pub open spec fn first_pull_failure(segments: Seq<Seq<u8>>) -> Option<(bool, Seq<char>)>
    decreases segments.len(),
{
    if segments.len() == 0 {
        None
    } else {
        match pull_line_failure(trim_text(decode_utf8(strip_trailing_cr(segments[0])))) {
            Some(f) => Some(f),
            None => first_pull_failure(segments.drop_first()),
        }
    }
}

fn pull_line_check(line: &str) -> (r: Result<(), ClientError>)
    ensures
        match pull_line_failure(line@) {
            None => r is Ok,
            Some((true, m)) => r matches Err(ClientError::Json(x)) && x@ == m,
            Some((false, m)) => r matches Err(ClientError::Other(x)) && x@ == m,
        },
{
    if line.is_empty() {
        return Ok(());
    }
    match json_check(line) {
        Ok(()) => {},
        Err(m) => {
            return Err(ClientError::Json(m));
        },
    }
    match json_kind(line) {
        Ok(JsonKind::Object) => {},
        _ => {
            let mut m = String::from_str("expected object in pull stream, got ");
            m.append(line);
            return Err(ClientError::Json(m));
        },
    }
    let error_path: [&str; 1] = ["error"];
    let detail_path: [&str; 2] = ["errorDetail", "message"];
    proof {
        assert(path_views(error_path@) =~= seq!["error"@]);
        assert(path_views(detail_path@) =~= seq!["errorDetail"@, "message"@]);
    }
    match json_string_member(line, error_path.as_slice()) {
        Some(e) => if !e.as_str().is_empty() {
            return Err(ClientError::Other(e));
        },
        None => {},
    }
    match json_string_member(line, detail_path.as_slice()) {
        Some(d) => if !d.as_str().is_empty() {
            return Err(ClientError::Other(d));
        },
        None => {},
    }
    Ok(())
}

/// Looks through the JSON lines of an image pull (`POST /images/create`)
/// for a non-empty `error` (or else `errorDetail.message`): the first one
/// fails the pull. A line that is not a JSON object, or a body that is not
/// UTF-8, is a JSON error.
pub fn check_pull_stream_errors(body: &[u8]) -> (r: Result<(), ClientError>)
    ensures
        !valid_utf8(body@) ==> (r matches Err(ClientError::Json(m)) && m@ == utf8_error_text(
            body@,
        )),
        valid_utf8(body@) ==> match first_pull_failure(newline_segments(body@)) {
            None => r is Ok,
            Some((true, m)) => r matches Err(ClientError::Json(x)) && x@ == m,
            Some((false, m)) => r matches Err(ClientError::Other(x)) && x@ == m,
        },
{
    let text = match utf8_str_or_error(body) {
        Ok(t) => t,
        Err(m) => {
            return Err(ClientError::Json(m));
        },
    };
    let lines = split_newlines(text);
    let ghost segs = newline_segments(body@);
    proof {
        vstd::utf8::encode_utf8_valid_utf8(text@);
    }
    let mut i: usize = 0;
    assert(lines@.map_values(|x: &str| x.spec_bytes()).skip(0) =~= segs);
    while i < lines.len()
        invariant
            i <= lines@.len(),
            lines@.map_values(|x: &str| x.spec_bytes()) == segs,
            valid_utf8(body@),
            segs == newline_segments(body@),
            first_pull_failure(segs) == first_pull_failure(segs.skip(i as int)),
        decreases lines@.len() - i,
    {
        let raw = lines[i];
        let stripped = trim_trailing_cr(raw);
        let line = trim_str(stripped);
        proof {
            assert(segs.skip(i as int).drop_first() =~= segs.skip(i + 1));
            assert(segs.skip(i as int)[0] == raw.spec_bytes());
            vstd::utf8::encode_utf8_decode_utf8(stripped@);
        }
        match pull_line_check(line) {
            Ok(()) => {},
            Err(e) => {
                return Err(e);
            },
        }
        i += 1;
    }
    proof {
        assert(segs.skip(i as int) =~= Seq::<Seq<u8>>::empty());
    }
    Ok(())
}

/// The bytes `shiguredo_http11` encodes for an HTTP/1.1 request with this
/// method, target, headers (in order) and body, or its error's text.
pub uninterp spec fn http11_request_encoding(
    method: Seq<char>,
    path: Seq<char>,
    headers: Seq<(Seq<char>, Seq<char>)>,
    body: Option<Seq<u8>>,
) -> Result<Seq<u8>, Seq<char>>;

/// Builds a `shiguredo_http11::Request` (`Method::new`, `Request::new`, one
/// `HeaderName::new` and `header` per pair, `body`) and `encode`s it.
#[verifier::external_body]
fn http11_encode_request(method: &str, path: &str, headers: &[(String, String)], body: Option<&[u8]>) -> (r:
    Result<Vec<u8>, String>)
    ensures
        match http11_request_encoding(
            method@,
            path@,
            pair_views(headers@),
            match body {
                Some(b) => Some(b@),
                None => None,
            },
        ) {
            Ok(b) => r matches Ok(v) && v@ == b,
            Err(e) => r matches Err(m) && m@ == e,
        },
{
    let m = shiguredo_http11::Method::new(method).map_err(|e| e.to_string())?;
    let mut request = shiguredo_http11::Request::new(m, path).map_err(|e| e.to_string())?;
    for (name, value) in headers {
        let name = shiguredo_http11::HeaderName::new(name.as_str()).map_err(|e| e.to_string())?;
        request = request.header(name, value.as_str()).map_err(|e| e.to_string())?;
    }
    if let Some(b) = body {
        request = request.body(b.to_vec());
    }
    request.encode().map_err(|e| e.to_string())
}

/// The headers of a Docker Engine API request: `Host` and `Connection:
/// close`, the extra ones, then the body's type and length.
pub open spec fn docker_request_headers(
    extra: Seq<(Seq<char>, Seq<char>)>,
    body: Option<(Seq<u8>, Seq<char>)>,
) -> Seq<(Seq<char>, Seq<char>)> {
    seq![("Host"@, "localhost"@), ("Connection"@, "close"@)] + extra + match body {
        Some((b, ct)) => seq![("Content-Type"@, ct), ("Content-Length"@, decimal(b.len()))],
        None => Seq::empty(),
    }
}

fn push_header(headers: &mut Vec<(String, String)>, name: &str, value: String)
    ensures
        pair_views(final(headers)@) == pair_views(old(headers)@).push((name@, value@)),
{
    let ghost prev = headers@;
    headers.push((String::from_str(name), value));
    proof {
        assert(pair_views(headers@) =~= pair_views(prev).push((name@, value@)));
    }
}

/// Encodes a Docker Engine API request with extra headers.
pub fn encode_docker_api_request_with_headers(
    method: &str,
    path: &str,
    body: Option<(&[u8], &str)>,
    extra_headers: &[(&str, String)],
) -> (r: Result<Vec<u8>, Error>)
    ensures
        match http11_request_encoding(
            method@,
            path@,
            docker_request_headers(
                extra_headers@.map_values(|h: (&str, String)| (h.0@, h.1@)),
                match body {
                    Some((b, ct)) => Some((b@, ct@)),
                    None => None,
                },
            ),
            match body {
                Some((b, _)) => Some(b@),
                None => None,
            },
        ) {
            Ok(bytes) => r matches Ok(v) && v@ == bytes,
            Err(e) => r matches Err(Error::Client(ClientError::Other(m))) && m@ == e,
        },
{
    let mut headers: Vec<(String, String)> = Vec::new();
    push_header(&mut headers, "Host", String::from_str("localhost"));
    push_header(&mut headers, "Connection", String::from_str("close"));
    let ghost base = pair_views(headers@);
    let mut i: usize = 0;
    while i < extra_headers.len()
        invariant
            i <= extra_headers@.len(),
            pair_views(headers@) == base + extra_headers@.take(i as int).map_values(
                |h: (&str, String)| (h.0@, h.1@),
            ),
        decreases extra_headers@.len() - i,
    {
        let (name, value) = &extra_headers[i];
        push_header(&mut headers, name, String::from_str(value.as_str()));
        proof {
            assert(extra_headers@.take(i + 1).map_values(|h: (&str, String)| (h.0@, h.1@))
                =~= extra_headers@.take(i as int).map_values(|h: (&str, String)| (h.0@, h.1@)).push(
                (name@, value@),
            ));
        }
        i += 1;
    }
    proof {
        assert(extra_headers@.take(i as int) =~= extra_headers@);
    }
    let body_bytes: Option<&[u8]> = match body {
        Some((b, content_type)) => {
            push_header(&mut headers, "Content-Type", String::from_str(content_type));
            push_header(&mut headers, "Content-Length", u64_to_decimal(b.len() as u64));
            Some(b)
        },
        None => None,
    };
    proof {
        assert(pair_views(headers@) =~= docker_request_headers(
            extra_headers@.map_values(|h: (&str, String)| (h.0@, h.1@)),
            match body {
                Some((b, ct)) => Some((b@, ct@)),
                None => None,
            },
        ));
    }
    match http11_encode_request(method, path, headers.as_slice(), body_bytes) {
        Ok(v) => Ok(v),
        Err(e) => Err(http11_err(e)),
    }
}

/// Encodes a Docker Engine API request.
pub fn encode_docker_api_request(method: &str, path: &str, body: Option<(&[u8], &str)>) -> (r: Result<
    Vec<u8>,
    Error,
>)
    ensures
        match http11_request_encoding(
            method@,
            path@,
            docker_request_headers(
                Seq::empty(),
                match body {
                    Some((b, ct)) => Some((b@, ct@)),
                    None => None,
                },
            ),
            match body {
                Some((b, _)) => Some(b@),
                None => None,
            },
        ) {
            Ok(bytes) => r matches Ok(v) && v@ == bytes,
            Err(e) => r matches Err(Error::Client(ClientError::Other(m))) && m@ == e,
        },
{
    let extra: [(&str, String); 0] = [];
    proof {
        assert(extra@.map_values(|h: (&str, String)| (h.0@, h.1@)) =~= Seq::<(Seq<char>, Seq<char>)>::empty());
    }
    encode_docker_api_request_with_headers(method, path, body, extra.as_slice())
}

} // verus!
