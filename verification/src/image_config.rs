//! The command a container's init process runs, merged from the request
//! and the image's configuration, and the platform strings images are
//! selected by.

use vstd::prelude::*;
use vstd::string::*;
use crate::error::{ClientError, Error};
use crate::json::{
    json_check, json_syntax, json_string_lookup, json_string_path, json_string_at, json_string_member,
    json_required_items_of, json_required_items, json_member_text, json_member_raw, json_items_of,
    json_items, json_string_of, json_as_string, path_views, text_views,
};
use crate::text::{utf8_str_or_error, utf8_error_text, str_eq};
use vstd::utf8::valid_utf8;
use crate::json::string_views;
use crate::text::{find_first, index_of_first, lemma_find_first, split_around};
use vstd::utf8::decode_utf8;

verus! {

broadcast use vstd::string::group_string_axioms;

/// `CMD` and `ENTRYPOINT` from an image's configuration.
#[derive(Debug, Clone)]
pub struct ImageConfig {
    pub entrypoint: Option<Vec<String>>,
    pub cmd: Option<Vec<String>>,
}

impl Default for ImageConfig {
    fn default() -> (r: ImageConfig)
        ensures
            r.entrypoint is None,
            r.cmd is None,
    {
        ImageConfig { entrypoint: None, cmd: None }
    }
}

/// The views of an optional list of strings.
pub open spec fn opt_views(v: Option<Vec<String>>) -> Option<Seq<Seq<char>>> {
    match v {
        Some(v) => Some(string_views(v@)),
        None => None,
    }
}

/// The full command line, Docker's way: the entrypoint (the request's if
/// it gives a non-empty one, else the image's) followed by the command
/// (the request's if non-empty, else the image's); without an entrypoint
/// the command alone. `None` when nothing is left to run.
pub open spec fn effective_argv(
    image_entrypoint: Option<Seq<Seq<char>>>,
    image_cmd: Option<Seq<Seq<char>>>,
    entrypoint_override: Option<Seq<char>>,
    cmd_override: Seq<Seq<char>>,
) -> Option<Seq<Seq<char>>> {
    let ep = match entrypoint_override {
        Some(e) => if e.len() > 0 {
            Some(seq![e])
        } else {
            image_entrypoint
        },
        None => image_entrypoint,
    };
    let cmd = if cmd_override.len() > 0 {
        Some(cmd_override)
    } else {
        image_cmd
    };
    if ep is Some && ep->0.len() > 0 && cmd is Some && cmd->0.len() > 0 {
        Some(ep->0 + cmd->0)
    } else if ep is Some && ep->0.len() > 0 {
        Some(ep->0)
    } else if cmd is Some && cmd->0.len() > 0 {
        Some(cmd->0)
    } else {
        None
    }
}

fn copy_strings(v: &[String]) -> (r: Vec<String>)
    ensures
        string_views(r@) == string_views(v@),
{
    let mut out: Vec<String> = Vec::new();
    let mut i: usize = 0;
    while i < v.len()
        invariant
            i <= v@.len(),
            string_views(out@) == string_views(v@.take(i as int)),
        decreases v@.len() - i,
    {
        let ghost prev = out@;
        out.push(String::from_str(v[i].as_str()));
        proof {
            assert(string_views(out@) =~= string_views(prev).push(v@[i as int]@));
            assert(string_views(v@.take(i + 1)) =~= string_views(v@.take(i as int)).push(
                v@[i as int]@,
            ));
        }
        i += 1;
    }
    assert(v@.take(i as int) =~= v@);
    out
}

fn append_strings(out: &mut Vec<String>, v: &[String])
    ensures
        string_views(final(out)@) == string_views(old(out)@) + string_views(v@),
{
    let ghost start = string_views(out@);
    let mut i: usize = 0;
    while i < v.len()
        invariant
            i <= v@.len(),
            string_views(out@) == start + string_views(v@.take(i as int)),
        decreases v@.len() - i,
    {
        let ghost prev = out@;
        out.push(String::from_str(v[i].as_str()));
        proof {
            assert(string_views(out@) =~= string_views(prev).push(v@[i as int]@));
            assert(string_views(v@.take(i + 1)) =~= string_views(v@.take(i as int)).push(
                v@[i as int]@,
            ));
        }
        i += 1;
    }
    assert(v@.take(i as int) =~= v@);
}

impl ImageConfig {
    /// The executable and arguments of the init process, from the
    /// request's entrypoint and command and the image's. Fails when there
    /// is nothing to run.
    pub fn effective_command(&self, entrypoint_override: Option<&str>, cmd_override: &[&str]) -> (r:
        Result<(String, Vec<String>), Error>)
        ensures
            match effective_argv(
                opt_views(self.entrypoint),
                opt_views(self.cmd),
                match entrypoint_override {
                    Some(e) => Some(e@),
                    None => None,
                },
                cmd_override@.map_values(|s: &str| s@),
            ) {
                Some(argv) => r matches Ok((exe, args)) && exe@ == argv[0] && string_views(args@)
                    == argv.drop_first(),
                None => r matches Err(Error::Other(m)) && m@ == no_command_text(),
            },
    {
        let mut user_cmd: Vec<String> = Vec::new();
        let mut i: usize = 0;
        while i < cmd_override.len()
            invariant
                i <= cmd_override@.len(),
                string_views(user_cmd@) == cmd_override@.take(i as int).map_values(|s: &str| s@),
            decreases cmd_override@.len() - i,
        {
            let ghost prev = user_cmd@;
            user_cmd.push(String::from_str(cmd_override[i]));
            proof {
                assert(string_views(user_cmd@) =~= string_views(prev).push(cmd_override@[i as int]@));
                assert(cmd_override@.take(i + 1).map_values(|s: &str| s@) =~= cmd_override@.take(
                    i as int,
                ).map_values(|s: &str| s@).push(cmd_override@[i as int]@));
            }
            i += 1;
        }
        proof {
            assert(cmd_override@.take(i as int) =~= cmd_override@);
        }
        let entrypoint: Option<Vec<String>> = match entrypoint_override {
            Some(ep) => if !ep.is_empty() {
                let mut v: Vec<String> = Vec::new();
                v.push(String::from_str(ep));
                proof {
                    assert(string_views(v@) =~= seq![ep@]);
                }
                Some(v)
            } else {
                match &self.entrypoint {
                    Some(v) => Some(copy_strings(v.as_slice())),
                    None => None,
                }
            },
            None => match &self.entrypoint {
                Some(v) => Some(copy_strings(v.as_slice())),
                None => None,
            },
        };
        let cmd: Option<Vec<String>> = if user_cmd.len() > 0 {
            Some(user_cmd)
        } else {
            match &self.cmd {
                Some(v) => Some(copy_strings(v.as_slice())),
                None => None,
            }
        };
        let mut argv: Vec<String> = match (entrypoint, cmd) {
            (Some(ep), Some(c)) => if ep.len() > 0 && c.len() > 0 {
                let mut args = ep;
                append_strings(&mut args, c.as_slice());
                assert(string_views(args@).len() == args@.len());
                args
            } else if ep.len() > 0 {
                ep
            } else if c.len() > 0 {
                c
            } else {
                return Err(Error::other(no_command_message()));
            },
            (Some(ep), None) => if ep.len() > 0 {
                ep
            } else {
                return Err(Error::other(no_command_message()));
            },
            (None, Some(c)) => if c.len() > 0 {
                c
            } else {
                return Err(Error::other(no_command_message()));
            },
            (None, None) => {
                return Err(Error::other(no_command_message()));
            },
        };
        let ghost all = string_views(argv@);
        let exe = argv.remove(0);
        proof {
            assert(string_views(argv@) =~= all.drop_first());
        }
        Ok((exe, argv))
    }
}

/// The message of an init process with nothing to run.
pub open spec fn no_command_text() -> Seq<char> {
    "no command specified: Apple container XPC does not resolve the image's default CMD/ENTRYPOINT and none was provided, use with_cmd() or an Image that provides cmd()"@
}

fn no_command_message() -> (r: String)
    ensures
        r@ == no_command_text(),
{
    String::from_str(
        "no command specified: Apple container XPC does not resolve the image's default CMD/ENTRYPOINT and none was provided, use with_cmd() or an Image that provides cmd()",
    )
}

/// A platform string split into OS and architecture, without
/// normalisation: `os/arch[/variant]` gives `(os, arch)`, a single
/// component is an architecture under `linux`, and no platform gives
/// `("linux", "")`.
pub open spec fn os_and_raw_arch(platform: Option<Seq<u8>>) -> (Seq<u8>, Seq<u8>) {
    match platform {
        None => (linux_bytes(), Seq::empty()),
        Some(p) => match find_first(p, 47) {
            None => (linux_bytes(), p),
            Some(i) => {
                let rest = p.subrange(i + 1, p.len() as int);
                (p.take(i), match find_first(rest, 47) {
                    None => rest,
                    Some(j) => rest.take(j),
                })
            },
        },
    }
}

/// The bytes of `"linux"`.
pub open spec fn linux_bytes() -> Seq<u8> {
    seq![108u8, 105u8, 110u8, 117u8, 120u8]
}

fn linux() -> (r: &'static str)
    ensures
        r.spec_bytes() == linux_bytes(),
{
    let r = "linux";
    proof {
        reveal_strlit("linux");
        assert(is_ascii(r));
        is_ascii_spec_bytes(r);
        assert(r.spec_bytes() =~= linux_bytes());
    }
    r
}

/// Splits a platform string into OS and (raw) architecture.
pub fn platform_os_and_raw_arch(platform: Option<&str>) -> (r: (&str, &str))
    ensures
        (r.0.spec_bytes(), r.1.spec_bytes()) == os_and_raw_arch(
            match platform {
                Some(p) => Some(p.spec_bytes()),
                None => None,
            },
        ),
{
    match platform {
        None => {
            let empty = "";
            proof {
                reveal_strlit("");
                assert(empty.spec_bytes() =~= Seq::<u8>::empty());
            }
            (linux(), empty)
        },
        Some(p) => {
            let bytes = p.as_bytes();
            proof {
                lemma_find_first(bytes@, 47);
            }
            match index_of_first(bytes, 47) {
                None => (linux(), p),
                Some(i) => {
                    let (first, rest) = split_around(p, i);
                    let rest_bytes = rest.as_bytes();
                    proof {
                        lemma_find_first(rest_bytes@, 47);
                        assert(p.spec_bytes().take(i as int) =~= p.spec_bytes().subrange(
                            0,
                            i as int,
                        ));
                    }
                    match index_of_first(rest_bytes, 47) {
                        None => (first, rest),
                        Some(j) => {
                            let (arch, _variant) = split_around(rest, j);
                            proof {
                                assert(rest.spec_bytes().take(j as int) =~= rest.spec_bytes().subrange(
                                    0,
                                    j as int,
                                ));
                            }
                            (first, arch)
                        },
                    }
                },
            }
        },
    }
}

/// The OCI architecture for a raw one: `arm64`/`aarch64` are `arm64`,
/// `amd64`/`x86_64` are `amd64`, and anything else (or none) is the host's.
pub open spec fn normalized_arch(raw: Seq<char>, host: Seq<char>) -> Seq<char> {
    if raw == "arm64"@ || raw == "aarch64"@ {
        "arm64"@
    } else if raw == "amd64"@ || raw == "x86_64"@ {
        "amd64"@
    } else {
        host
    }
}

/// The OS an image is selected for.
pub open spec fn target_os_of(platform: Option<Seq<u8>>) -> Seq<char> {
    decode_utf8(os_and_raw_arch(platform).0)
}

/// The OCI architecture an image is selected for on a `host` machine.
pub open spec fn target_arch_of(platform: Option<Seq<u8>>, host: Seq<char>) -> Seq<char> {
    normalized_arch(decode_utf8(os_and_raw_arch(platform).1), host)
}

/// The bytes of an optional platform string.
pub open spec fn platform_bytes(platform: Option<&str>) -> Option<Seq<u8>> {
    match platform {
        Some(p) => Some(p.spec_bytes()),
        None => None,
    }
}

/// The OS and OCI architecture an image is selected for; `host_arch` is
/// the architecture of the machine this runs on.
pub fn target_os_and_architecture<'a>(platform: Option<&'a str>, host_arch: &'static str) -> (r: (
    &'a str,
    &'static str,
))
    ensures
        r.0.spec_bytes() == os_and_raw_arch(platform_bytes(platform)).0,
        r.0@ == target_os_of(platform_bytes(platform)),
        r.1@ == target_arch_of(platform_bytes(platform), host_arch@),
{
    let (os, raw_arch) = platform_os_and_raw_arch(platform);
    proof {
        vstd::utf8::encode_utf8_decode_utf8(os@);
        vstd::utf8::encode_utf8_decode_utf8(raw_arch@);
    }
    let arch: &'static str = if crate::text::str_eq(raw_arch, "arm64") || crate::text::str_eq(
        raw_arch,
        "aarch64",
    ) {
        "arm64"
    } else if crate::text::str_eq(raw_arch, "amd64") || crate::text::str_eq(raw_arch, "x86_64") {
        "amd64"
    } else {
        host_arch
    };
    (os, arch)
}

/// A content descriptor: media type and digest.
#[derive(Debug)]
pub struct Descriptor {
    pub media_type: String,
    pub digest: String,
}

/// `prefix` followed by a reader's error.
pub open spec fn prefixed(prefix: Seq<char>, e: Seq<char>) -> Seq<char> {
    prefix + e
}

fn json_error(prefix: &str, e: String) -> (r: Error)
    ensures
        r matches Error::Client(ClientError::Json(m)) && m@ == prefix@ + e@,
{
    let mut m = String::from_str(prefix);
    m.append(e.as_str());
    Error::Client(ClientError::Json(m))
}

/// The media type and digest a descriptor holds, or the message of the
/// JSON error that reading them meets.
pub open spec fn descriptor_read(desc_raw: Seq<char>) -> Result<(Seq<char>, Seq<char>), Seq<char>> {
    match json_syntax(desc_raw) {
        Err(e) => Err("invalid descriptor JSON: "@ + e),
        Ok(()) => match json_string_lookup(desc_raw, seq!["mediaType"@]) {
            Err(e) => Err("descriptor mediaType: "@ + e),
            Ok(mt) => match json_string_lookup(desc_raw, seq!["digest"@]) {
                Err(e) => Err("descriptor digest: "@ + e),
                Ok(d) => Ok((mt, d)),
            },
        },
    }
}

/// Reads the media type and digest of a descriptor.
pub fn parse_descriptor(desc_raw: &str) -> (r: Result<Descriptor, Error>)
    ensures
        match descriptor_read(desc_raw@) {
            Err(m) => r matches Err(Error::Client(ClientError::Json(x))) && x@ == m,
            Ok((mt, d)) => r matches Ok(desc) && desc.media_type@ == mt && desc.digest@ == d,
        },
{
    match json_check(desc_raw) {
        Ok(()) => {},
        Err(e) => {
            return Err(json_error("invalid descriptor JSON: ", e));
        },
    }
    let mt_path: [&str; 1] = ["mediaType"];
    let digest_path: [&str; 1] = ["digest"];
    proof {
        assert(path_views(mt_path@) =~= seq!["mediaType"@]);
        assert(path_views(digest_path@) =~= seq!["digest"@]);
    }
    let media_type = match json_string_path(desc_raw, mt_path.as_slice()) {
        Ok(v) => v,
        Err(e) => {
            return Err(json_error("descriptor mediaType: ", e));
        },
    };
    let digest = match json_string_path(desc_raw, digest_path.as_slice()) {
        Ok(v) => v,
        Err(e) => {
            return Err(json_error("descriptor digest: ", e));
        },
    };
    Ok(Descriptor { media_type, digest })
}

/// `platform.os` of a manifest entry.
pub open spec fn manifest_os(item: Seq<char>) -> Option<Seq<char>> {
    json_string_at(item, seq!["platform"@, "os"@])
}

/// `platform.architecture` of a manifest entry.
pub open spec fn manifest_arch(item: Seq<char>) -> Option<Seq<char>> {
    json_string_at(item, seq!["platform"@, "architecture"@])
}

/// A provenance attestation (`architecture` is `unknown`); a missing
/// architecture is no attestation.
pub open spec fn is_attestation(item: Seq<char>) -> bool {
    manifest_arch(item) == Some("unknown"@)
}

/// Does the entry's platform have both this OS and this architecture?
pub open spec fn has_os_arch(item: Seq<char>, os: Seq<char>, arch: Seq<char>) -> bool {
    manifest_os(item) is Some && manifest_arch(item) is Some && manifest_os(item)->0 == os
        && manifest_arch(item)->0 == arch
}

/// Index of the first item that satisfies `pred`.
pub open spec fn first_where(items: Seq<Seq<char>>, pred: spec_fn(Seq<char>) -> bool) -> Option<int>
    decreases items.len(),
{
    if items.len() == 0 {
        None
    } else if pred(items[0]) {
        Some(0)
    } else {
        match first_where(items.drop_first(), pred) {
            Some(i) => Some(i + 1),
            None => None,
        }
    }
}

/// The search of a manifest: by OS and architecture (modes 0 and 1), by
/// OS among non-attestations (mode 2), or any non-attestation (mode 3).
pub open spec fn manifest_pred(mode: u8, os: Seq<char>, arch: Seq<char>) -> spec_fn(Seq<char>) -> bool {
    if mode == 0 || mode == 1 {
        |it: Seq<char>| has_os_arch(it, os, arch)
    } else if mode == 2 {
        |it: Seq<char>| manifest_os(it) == Some(os) && !is_attestation(it)
    } else {
        |it: Seq<char>| !is_attestation(it)
    }
}

/// Which manifest of an index to take: the first with the target OS and
/// architecture; for an explicit platform nothing else (`Err(Some(p))`);
/// otherwise the first of the OS on arm64, then on amd64, then the first of
/// the OS that is no attestation, and last the first that is no
/// attestation at all (`Err(None)` when there is none).
pub open spec fn manifest_choice(
    items: Seq<Seq<char>>,
    os: Seq<char>,
    arch: Seq<char>,
    explicit: Option<Seq<char>>,
) -> Result<int, Option<Seq<char>>> {
    match first_where(items, manifest_pred(0, os, arch)) {
        Some(i) => Ok(i),
        None => match explicit {
            Some(p) => Err(Some(p)),
            None => match first_where(items, manifest_pred(1, os, "arm64"@)) {
                Some(i) => Ok(i),
                None => match first_where(items, manifest_pred(1, os, "amd64"@)) {
                    Some(i) => Ok(i),
                    None => match first_where(items, manifest_pred(2, os, arch)) {
                        Some(i) => Ok(i),
                        None => match first_where(items, manifest_pred(3, os, arch)) {
                            Some(i) => Ok(i),
                            None => Err(None),
                        },
                    },
                },
            },
        },
    }
}

proof fn lemma_first_where(items: Seq<Seq<char>>, pred: spec_fn(Seq<char>) -> bool)
    ensures
        match first_where(items, pred) {
            Some(i) => 0 <= i < items.len() && pred(items[i]) && forall|j: int|
                0 <= j < i ==> !pred(#[trigger] items[j]),
            None => forall|j: int| 0 <= j < items.len() ==> !pred(#[trigger] items[j]),
        },
    decreases items.len(),
{
    if items.len() > 0 && !pred(items[0]) {
        lemma_first_where(items.drop_first(), pred);
        assert forall|j: int| 1 <= j < items.len() implies items[j] == items.drop_first()[j - 1] by {}
    }
}

fn manifest_string(item: &str, key: &str) -> (r: Option<String>)
    ensures
        match json_string_at(item@, seq!["platform"@, key@]) {
            Some(v) => r matches Some(s) && s@ == v,
            None => r is None,
        },
{
    let path: [&str; 2] = ["platform", key];
    proof {
        assert(path_views(path@) =~= seq!["platform"@, key@]);
    }
    json_string_member(item, path.as_slice())
}

/// `platform.os` of a manifest entry, where it is a string.
fn manifest_platform_os(item: &str) -> (r: Option<String>)
    ensures
        match json_string_at(item@, seq!["platform"@, "os"@]) {
            Some(v) => r matches Some(s) && s@ == v,
            None => r is None,
        },
{
    manifest_string(item, "os")
}

/// `platform.architecture` of a manifest entry, where it is a string.
fn manifest_platform_architecture(item: &str) -> (r: Option<String>)
    ensures
        match json_string_at(item@, seq!["platform"@, "architecture"@]) {
            Some(v) => r matches Some(s) && s@ == v,
            None => r is None,
        },
{
    manifest_string(item, "architecture")
}

/// Both `platform.os` and `platform.architecture` of a manifest entry,
/// where both are strings.
fn manifest_platform_os_arch(item: &str) -> (r: Option<(String, String)>)
    ensures
        match (
            json_string_at(item@, seq!["platform"@, "os"@]),
            json_string_at(item@, seq!["platform"@, "architecture"@]),
        ) {
            (Some(o), Some(a)) => r matches Some((x, y)) && x@ == o && y@ == a,
            _ => r is None,
        },
{
    match (manifest_platform_os(item), manifest_platform_architecture(item)) {
        (Some(o), Some(a)) => Some((o, a)),
        _ => None,
    }
}

fn has_os_arch_exec(item: &str, os: &str, arch: &str) -> (r: bool)
    ensures
        r == has_os_arch(item@, os@, arch@),
{
    match manifest_platform_os_arch(item) {
        Some((o, a)) => crate::text::str_eq(o.as_str(), os) && crate::text::str_eq(
            a.as_str(),
            arch,
        ),
        _ => false,
    }
}

fn is_attestation_exec(item: &str) -> (r: bool)
    ensures
        r == is_attestation(item@),
{
    match manifest_platform_architecture(item) {
        Some(a) => crate::text::str_eq(a.as_str(), "unknown"),
        None => false,
    }
}

fn os_is_exec(item: &str, os: &str) -> (r: bool)
    ensures
        r == (manifest_os(item@) == Some(os@)),
{
    match manifest_platform_os(item) {
        Some(o) => crate::text::str_eq(o.as_str(), os),
        None => false,
    }
}

/// The digest of a manifest entry, or a JSON error.
fn manifest_digest(item: &str) -> (r: Result<String, Error>)
    ensures
        match json_string_lookup(item@, seq!["digest"@]) {
            Ok(d) => r matches Ok(s) && s@ == d,
            Err(e) => r matches Err(Error::Client(ClientError::Json(m))) && m@ == "manifest digest: "@
                + e,
        },
{
    let path: [&str; 1] = ["digest"];
    proof {
        assert(path_views(path@) =~= seq!["digest"@]);
    }
    match json_string_path(item, path.as_slice()) {
        Ok(d) => Ok(d),
        Err(e) => Err(json_error("manifest digest: ", e)),
    }
}

/// The index of the first item satisfying the search `mode`: 0 the target
/// OS and architecture, 1 the OS on `alt_arch`, 2 the OS without an
/// attestation, 3 any non-attestation.
fn find_manifest(items: &Vec<String>, mode: u8, os: &str, arch: &str) -> (r: Option<usize>)
    requires
        mode <= 3,
    ensures
        match first_where(text_views(items@), manifest_pred(mode, os@, arch@)) {
            Some(i) => r matches Some(k) && k as int == i,
            None => r is None,
        },
        r matches Some(k) ==> k < items@.len(),
{
    let ghost views = text_views(items@);
    let ghost pred = manifest_pred(mode, os@, arch@);
    proof {
        lemma_first_where(views, pred);
    }
    let mut i: usize = 0;
    while i < items.len()
        invariant
            i <= items@.len(),
            views == text_views(items@),
            mode <= 3,
            pred == manifest_pred(mode, os@, arch@),
            forall|j: int| 0 <= j < i ==> !pred(#[trigger] views[j]),
        decreases items@.len() - i,
    {
        let item = items[i].as_str();
        let hit = if mode == 0 || mode == 1 {
            has_os_arch_exec(item, os, arch)
        } else if mode == 2 {
            os_is_exec(item, os) && !is_attestation_exec(item)
        } else {
            !is_attestation_exec(item)
        };
        assert(views[i as int] == item@);
        if hit {
            proof {
                lemma_first_where(views, pred);
                match first_where(views, pred) {
                    Some(k) => {
                        if k < i {
                        } else if k > i {
                        }
                    },
                    None => {},
                }
            }
            return Some(i);
        }
        i += 1;
    }
    proof {
        lemma_first_where(views, pred);
    }
    None
}

/// What picking a manifest of the index `index_bytes` for `platform` gives.
pub open spec fn manifest_selection(index_bytes: Seq<u8>, platform: Option<&str>, host_arch: &str, r: Result<String, Error>) -> bool {
    &&& !valid_utf8(index_bytes) ==> (r matches Err(Error::Client(ClientError::Json(m))) && m@
        == "index is not UTF-8: "@ + utf8_error_text(index_bytes))
    &&& valid_utf8(index_bytes) ==> ({
        let text = decode_utf8(index_bytes);
        match json_syntax(text) {
            Err(e) => r matches Err(Error::Client(ClientError::Json(m))) && m@
                == "invalid index JSON: "@ + e,
            Ok(()) => match json_required_items_of(text, seq!["manifests"@]) {
                Err(e) => r matches Err(Error::Client(ClientError::Json(m))) && m@
                    == "index manifests: "@ + e,
                Ok(items) => match manifest_choice(
                    items,
                    target_os_of(platform_bytes(platform)),
                    target_arch_of(platform_bytes(platform), host_arch@),
                    match platform {
                        Some(p) => Some(p@),
                        None => None,
                    },
                ) {
                    Ok(i) => match json_string_lookup(items[i], seq!["digest"@]) {
                        Ok(d) => r matches Ok(s) && s@ == d,
                        Err(e) => r matches Err(Error::Client(ClientError::Json(m))) && m@
                            == "manifest digest: "@ + e,
                    },
                    Err(Some(p)) => r matches Err(Error::Client(ClientError::Other(m))) && m@
                        == "no matching manifest for "@ + p,
                    Err(None) => r matches Err(Error::Client(ClientError::Json(m))) && m@
                        == "index has no valid manifests"@,
                },
            },
        }
    })
}

/// Picks the manifest of an image index for a platform (see
/// `manifest_choice`) and returns its digest. `host_arch` is the
/// architecture of the machine this runs on.
pub fn select_manifest_digest(index_bytes: &[u8], platform: Option<&str>, host_arch: &'static str) -> (r:
    Result<String, Error>)
    ensures
        manifest_selection(index_bytes@, platform, host_arch, r),
{
    let text = match utf8_str_or_error(index_bytes) {
        Ok(t) => t,
        Err(e) => {
            return Err(json_error("index is not UTF-8: ", e));
        },
    };
    proof {
        vstd::utf8::encode_utf8_decode_utf8(text@);
    }
    match json_check(text) {
        Ok(()) => {},
        Err(e) => {
            return Err(json_error("invalid index JSON: ", e));
        },
    }
    let path: [&str; 1] = ["manifests"];
    proof {
        assert(path_views(path@) =~= seq!["manifests"@]);
    }
    let manifests = match json_required_items(text, path.as_slice()) {
        Ok(m) => m,
        Err(e) => {
            return Err(json_error("index manifests: ", e));
        },
    };
    let (target_os, target_arch) = target_os_and_architecture(platform, host_arch);
    match find_manifest(&manifests, 0, target_os, target_arch) {
        Some(i) => {
            return manifest_digest(manifests[i].as_str());
        },
        None => {},
    }
    match platform {
        Some(p) => {
            let mut m = String::from_str("no matching manifest for ");
            m.append(p);
            return Err(Error::Client(ClientError::Other(m)));
        },
        None => {},
    }
    match find_manifest(&manifests, 1, target_os, "arm64") {
        Some(i) => {
            return manifest_digest(manifests[i].as_str());
        },
        None => {},
    }
    match find_manifest(&manifests, 1, target_os, "amd64") {
        Some(i) => {
            return manifest_digest(manifests[i].as_str());
        },
        None => {},
    }
    match find_manifest(&manifests, 2, target_os, target_arch) {
        Some(i) => {
            return manifest_digest(manifests[i].as_str());
        },
        None => {},
    }
    match find_manifest(&manifests, 3, target_os, target_arch) {
        Some(i) => manifest_digest(manifests[i].as_str()),
        None => Err(Error::Client(ClientError::Json(String::from_str("index has no valid manifests")))),
    }
}

/// What reading the config digest of the manifest `manifest_bytes` gives.
pub open spec fn config_digest_outcome(manifest_bytes: Seq<u8>, r: Result<String, Error>) -> bool {
    &&& !valid_utf8(manifest_bytes) ==> (r matches Err(Error::Client(ClientError::Json(m))) && m@
        == "manifest is not UTF-8: "@ + utf8_error_text(manifest_bytes))
    &&& valid_utf8(manifest_bytes) ==> match json_syntax(decode_utf8(manifest_bytes)) {
        Err(e) => r matches Err(Error::Client(ClientError::Json(m))) && m@
            == "invalid manifest JSON: "@ + e,
        Ok(()) => match json_string_lookup(
            decode_utf8(manifest_bytes),
            seq!["config"@, "digest"@],
        ) {
            Ok(d) => r matches Ok(s) && s@ == d,
            Err(e) => r matches Err(Error::Client(ClientError::Json(m))) && m@
                == "manifest config.digest: "@ + e,
        }
    }
}

/// The config digest of an image manifest (`config.digest`).
pub fn config_digest_from_manifest(manifest_bytes: &[u8]) -> (r: Result<String, Error>)
    ensures
        config_digest_outcome(manifest_bytes@, r),
{
    let text = match utf8_str_or_error(manifest_bytes) {
        Ok(t) => t,
        Err(e) => {
            return Err(json_error("manifest is not UTF-8: ", e));
        },
    };
    proof {
        vstd::utf8::encode_utf8_decode_utf8(text@);
    }
    match json_check(text) {
        Ok(()) => {},
        Err(e) => {
            return Err(json_error("invalid manifest JSON: ", e));
        },
    }
    let path: [&str; 2] = ["config", "digest"];
    proof {
        assert(path_views(path@) =~= seq!["config"@, "digest"@]);
    }
    match json_string_path(text, path.as_slice()) {
        Ok(d) => Ok(d),
        Err(e) => Err(json_error("manifest config.digest: ", e)),
    }
}

/// The strings of an array, when every element is one.
pub open spec fn all_strings(items: Seq<Seq<char>>) -> Option<Seq<Seq<char>>>
    decreases items.len(),
{
    if items.len() == 0 {
        Some(Seq::empty())
    } else {
        match all_strings(items.drop_last()) {
            None => None,
            Some(v) => match json_string_of(items.last()) {
                Ok(s) => Some(v.push(s)),
                Err(_) => None,
            },
        }
    }
}

/// The array of strings under `key` of an object, if it is one.
pub open spec fn string_array_of(value: Seq<char>, key: Seq<char>) -> Option<Seq<Seq<char>>> {
    match json_member_text(value, seq![key]) {
        Ok(Some(a)) => match json_items_of(a) {
            Ok(items) => all_strings(items),
            Err(_) => None,
        },
        _ => None,
    }
}

/// The array of strings under `key` of the object `value`, if it is one.
pub fn string_array(value: &str, key: &str) -> (r: Option<Vec<String>>)
    ensures
        match string_array_of(value@, key@) {
            Some(v) => r matches Some(x) && string_views(x@) == v,
            None => r is None,
        },
{
    let path: [&str; 1] = [key];
    proof {
        assert(path_views(path@) =~= seq![key@]);
    }
    let arr = match json_member_raw(value, path.as_slice()) {
        Ok(Some(a)) => a,
        _ => {
            return None;
        },
    };
    let items = match json_items(arr.as_str()) {
        Ok(items) => items,
        Err(_) => {
            return None;
        },
    };
    let ghost views = text_views(items@);
    let mut out: Vec<String> = Vec::new();
    let mut i: usize = 0;
    proof {
        assert(views.take(0) =~= Seq::<Seq<char>>::empty());
        assert(string_views(out@) =~= Seq::<Seq<char>>::empty());
    }
    while i < items.len()
        invariant
            i <= items@.len(),
            views == text_views(items@),
            string_array_of(value@, key@) == all_strings(views),
            all_strings(views.take(i as int)) == Some(string_views(out@)),
        decreases items@.len() - i,
    {
        proof {
            assert(views.take(i + 1).drop_last() =~= views.take(i as int));
            assert(views.take(i + 1).last() == items@[i as int]@);
        }
        match json_as_string(items[i].as_str()) {
            Ok(s) => {
                let ghost prev = out@;
                out.push(s);
                proof {
                    assert(string_views(out@) =~= string_views(prev).push(s@));
                }
            },
            Err(_) => {
                proof {
                    lemma_all_strings_prefix(views, i as int + 1);
                    assert(views.take(items@.len() as int) =~= views);
                }
                return None;
            },
        }
        i += 1;
    }
    proof {
        assert(views.take(i as int) =~= views);
    }
    Some(out)
}

proof fn lemma_all_strings_prefix(items: Seq<Seq<char>>, n: int)
    requires
        0 <= n <= items.len(),
        all_strings(items.take(n)) is None,
    ensures
        all_strings(items) is None,
    decreases items.len() - n,
{
    if n < items.len() {
        assert(items.take(n + 1).drop_last() =~= items.take(n));
        lemma_all_strings_prefix(items, n + 1);
    } else {
        assert(items.take(n) =~= items);
    }
}

/// What reading the image configuration `config_bytes` gives.
pub open spec fn image_config_outcome(config_bytes: Seq<u8>, r: Result<ImageConfig, Error>) -> bool {
    &&& !valid_utf8(config_bytes) ==> (r matches Err(Error::Client(ClientError::Json(m))) && m@
        == "image config is not UTF-8: "@ + utf8_error_text(config_bytes))
    &&& valid_utf8(config_bytes) ==> match json_syntax(decode_utf8(config_bytes)) {
        Err(e) => r matches Err(Error::Client(ClientError::Json(m))) && m@
            == "invalid image config JSON: "@ + e,
        Ok(()) => r matches Ok(cfg) && match json_member_text(
            decode_utf8(config_bytes),
            seq!["config"@],
        ) {
            Ok(Some(c)) => opt_views(cfg.entrypoint) == string_array_of(c, "Entrypoint"@)
                && opt_views(cfg.cmd) == string_array_of(c, "Cmd"@),
            _ => cfg.entrypoint is None && cfg.cmd is None,
        }
    }
}

/// `Entrypoint` and `Cmd` of an image configuration's `config` object.
pub fn parse_image_config(config_bytes: &[u8]) -> (r: Result<ImageConfig, Error>)
    ensures
        image_config_outcome(config_bytes@, r),
{
    let text = match utf8_str_or_error(config_bytes) {
        Ok(t) => t,
        Err(e) => {
            return Err(json_error("image config is not UTF-8: ", e));
        },
    };
    proof {
        vstd::utf8::encode_utf8_decode_utf8(text@);
    }
    match json_check(text) {
        Ok(()) => {},
        Err(e) => {
            return Err(json_error("invalid image config JSON: ", e));
        },
    }
    let path: [&str; 1] = ["config"];
    proof {
        assert(path_views(path@) =~= seq!["config"@]);
    }
    match json_member_raw(text, path.as_slice()) {
        Ok(Some(c)) => Ok(ImageConfig {
            entrypoint: string_array(c.as_str(), "Entrypoint"),
            cmd: string_array(c.as_str(), "Cmd"),
        }),
        _ => Ok(ImageConfig { entrypoint: None, cmd: None }),
    }
}

/// The content that the resolution of an image configuration waits for.
#[derive(Debug, Clone, Copy, PartialEq, Eq, Structural)]
pub enum ConfigFetch {
    /// An image index, to pick a manifest from.
    Index,
    /// An image manifest, to read the config digest from.
    Manifest,
    /// The image configuration itself.
    Config,
}

/// The content a descriptor of media type `mt` points to, where it is one
/// this library reads.
pub open spec fn fetch_for_media_type(mt: Seq<char>) -> Option<ConfigFetch> {
    if mt == "application/vnd.oci.image.index.v1+json"@ || mt
        == "application/vnd.docker.distribution.manifest.list.v2+json"@ {
        Some(ConfigFetch::Index)
    } else if mt == "application/vnd.oci.image.manifest.v1+json"@ || mt
        == "application/vnd.docker.distribution.manifest.v2+json"@ {
        Some(ConfigFetch::Manifest)
    } else if mt == "application/vnd.oci.image.config.v1+json"@ {
        Some(ConfigFetch::Config)
    } else {
        None
    }
}

/// The first content to fetch to resolve the image configuration of the
/// descriptor `desc_raw`: what it points to, and its digest.
pub fn first_config_fetch(desc_raw: &str) -> (r: Result<(ConfigFetch, String), Error>)
    ensures
        match descriptor_read(desc_raw@) {
            Err(m) => r matches Err(Error::Client(ClientError::Json(x))) && x@ == m,
            Ok((mt, d)) => match fetch_for_media_type(mt) {
                Some(k) => r matches Ok((k2, s)) && k2 == k && s@ == d,
                None => r matches Err(Error::Client(ClientError::Other(m))) && m@
                    == "unsupported image descriptor mediaType: "@ + mt,
            },
        },
{
    let desc = parse_descriptor(desc_raw)?;
    let mt = desc.media_type.as_str();
    let kind = if str_eq(mt, "application/vnd.oci.image.index.v1+json") || str_eq(
        mt,
        "application/vnd.docker.distribution.manifest.list.v2+json",
    ) {
        ConfigFetch::Index
    } else if str_eq(mt, "application/vnd.oci.image.manifest.v1+json") || str_eq(
        mt,
        "application/vnd.docker.distribution.manifest.v2+json",
    ) {
        ConfigFetch::Manifest
    } else if str_eq(mt, "application/vnd.oci.image.config.v1+json") {
        ConfigFetch::Config
    } else {
        let mut m = String::from_str("unsupported image descriptor mediaType: ");
        m.append(mt);
        return Err(Error::Client(ClientError::Other(m)));
    };
    Ok((kind, desc.digest))
}

/// What follows the arrival of the content that was waited for.
#[derive(Debug)]
pub enum ConfigStep {
    /// Fetch the content of this digest, which is of this kind.
    Fetch(ConfigFetch, String),
    /// The image configuration.
    Done(ImageConfig),
}

/// The next step once `content`, of kind `stage`, has come: from an index,
/// the manifest that `select_manifest_digest` picks; from a manifest, its
/// config; from the configuration, what `parse_image_config` reads.
pub fn next_config_step(
    stage: ConfigFetch,
    content: &[u8],
    platform: Option<&str>,
    host_arch: &'static str,
) -> (r: Result<ConfigStep, Error>)
    ensures
        match stage {
            ConfigFetch::Index => (r matches Ok(ConfigStep::Fetch(k, d)) && k
                == ConfigFetch::Manifest && manifest_selection(
                content@,
                platform,
                host_arch,
                Ok::<String, Error>(d),
            )) || (r matches Err(e) && manifest_selection(
                content@,
                platform,
                host_arch,
                Err::<String, Error>(e),
            )),
            ConfigFetch::Manifest => (r matches Ok(ConfigStep::Fetch(k, d)) && k
                == ConfigFetch::Config && config_digest_outcome(content@, Ok::<String, Error>(d)))
                || (r matches Err(e) && config_digest_outcome(content@, Err::<String, Error>(e))),
            ConfigFetch::Config => (r matches Ok(ConfigStep::Done(c)) && image_config_outcome(
                content@,
                Ok::<ImageConfig, Error>(c),
            )) || (r matches Err(e) && image_config_outcome(
                content@,
                Err::<ImageConfig, Error>(e),
            )),
        },
{
    match stage {
        ConfigFetch::Index => match select_manifest_digest(content, platform, host_arch) {
            Ok(d) => Ok(ConfigStep::Fetch(ConfigFetch::Manifest, d)),
            Err(e) => Err(e),
        },
        ConfigFetch::Manifest => match config_digest_from_manifest(content) {
            Ok(d) => Ok(ConfigStep::Fetch(ConfigFetch::Config, d)),
            Err(e) => Err(e),
        },
        ConfigFetch::Config => match parse_image_config(content) {
            Ok(c) => Ok(ConfigStep::Done(c)),
            Err(e) => Err(e),
        },
    }
}

} // verus!
