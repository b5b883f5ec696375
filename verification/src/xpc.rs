//! Decisions of the Apple container (XPC) client that need no connection:
//! image references, volume names, timeouts, error classes and the
//! container configuration pieces derived from a request.

use vstd::prelude::*;
use vstd::string::*;
use std::time::Duration;
use crate::duration::{duration_from_secs, duration_secs, duration_subsec_nanos};
use crate::error::{ClientError, Error};
use crate::mounts::{AccessMode, Mount, MountType};
use crate::text::{before_first, contains_char, decimal, prefix_before, push_decimal, str_eq, str_lt, lex_lt, lemma_lex_trichotomy, lemma_lex_transitive};
use vstd::utf8::encode_utf8;
use crate::wait::{contains_bytes, occurs_in};
use crate::json::{
    json_check, json_syntax, json_string_lookup, json_string_path, json_string_at, json_string_member,
    json_member_text, json_member_raw, json_items_of, json_items, path_views, text_views,
};
use crate::text::{utf8_str_or_error, utf8_error_text, str_debug, str_debug_text, json_string};
use crate::json::{json_u16_of, json_as_u16, json_string_of, json_as_string, string_views};
use crate::ports::{ContainerPort, Ports, port_lookup};
use crate::docker_api::last_host_for;
use vstd::utf8::{valid_utf8, decode_utf8};

verus! {

broadcast use vstd::string::group_string_axioms;

/// Default timeout of an XPC request, in seconds.
pub const XPC_DEFAULT_TIMEOUT_SECS: u64 = 60;

/// Timeout of the longest XPC requests (24 hours), in seconds.
pub const XPC_LONG_TIMEOUT_SECS: u64 = 86400;

/// The send timeout of a stop request, in seconds: the grace period plus
/// 30 seconds (saturating), at least the default and at most the long
/// timeout.
pub open spec fn grace_timeout_secs(grace_seconds: u64) -> nat {
    let extended = if grace_seconds as nat + 30 > u64::MAX as nat {
        u64::MAX as nat
    } else {
        grace_seconds as nat + 30
    };
    let capped = if extended < XPC_LONG_TIMEOUT_SECS as nat {
        extended
    } else {
        XPC_LONG_TIMEOUT_SECS as nat
    };
    if capped < XPC_DEFAULT_TIMEOUT_SECS as nat {
        XPC_DEFAULT_TIMEOUT_SECS as nat
    } else {
        capped
    }
}

/// The send timeout of a stop request with the given grace period.
pub fn xpc_timeout_for_grace(grace_seconds: u64) -> (r: Duration)
    ensures
        duration_secs(r) == grace_timeout_secs(grace_seconds),
        duration_subsec_nanos(r) == 0,
{
    let extended: u64 = grace_seconds.saturating_add(30);
    let capped: u64 = if extended < XPC_LONG_TIMEOUT_SECS {
        extended
    } else {
        XPC_LONG_TIMEOUT_SECS
    };
    let secs: u64 = if capped < XPC_DEFAULT_TIMEOUT_SECS {
        XPC_DEFAULT_TIMEOUT_SECS
    } else {
        capped
    };
    duration_from_secs(secs)
}

/// Does the first path component of a reference name a registry host?
pub open spec fn names_registry(first: Seq<char>) -> bool {
    first.contains('.') || first.contains(':') || first == "localhost"@
}

/// An image reference made fully qualified, as Docker normalises it: no
/// slash means an official image under `docker.io/library/`; a first
/// component that is not a registry host means `docker.io/`.
pub open spec fn normalized_reference(image: Seq<char>) -> Seq<char> {
    if !image.contains('/') {
        "docker.io/library/"@ + image
    } else if names_registry(before_first(image, '/')) {
        image
    } else {
        "docker.io/"@ + image
    }
}

/// The fully qualified form of `image`.
pub fn normalize_image_reference(image: &str) -> (r: String)
    ensures
        r@ == normalized_reference(image@),
{
    if !contains_char(image, '/') {
        let mut out = String::from_str("docker.io/library/");
        out.append(image);
        return out;
    }
    let first = prefix_before(image, '/');
    if contains_char(first.as_str(), '.') || contains_char(first.as_str(), ':') || str_eq(
        first.as_str(),
        "localhost",
    ) {
        String::from_str(image)
    } else {
        let mut out = String::from_str("docker.io/");
        out.append(image);
        out
    }
}

proof fn lemma_before_first_prefix(s: Seq<char>, t: Seq<char>, sep: char)
    requires
        s.contains(sep),
    ensures
        before_first(s + t, sep) == before_first(s, sep),
    decreases s.len(),
{
    if s[0] != sep {
        assert((s + t).drop_first() =~= s.drop_first() + t);
        assert(s.drop_first().contains(sep)) by {
            let k = choose|k: int| 0 <= k < s.len() && s[k] == sep;
            assert(s.drop_first()[k - 1] == sep);
        }
        lemma_before_first_prefix(s.drop_first(), t, sep);
    }
}

proof fn lemma_before_first_no_sep(s: Seq<char>, sep: char)
    requires
        !s.contains(sep),
    ensures
        before_first(s, sep) == s,
    decreases s.len(),
{
    if s.len() > 0 {
        assert(!s.drop_first().contains(sep)) by {
            if s.drop_first().contains(sep) {
                let k = choose|k: int| 0 <= k < s.drop_first().len() && s.drop_first()[k] == sep;
                assert(s[k + 1] == sep);
            }
        }
        lemma_before_first_no_sep(s.drop_first(), sep);
        assert(seq![s[0]] + s.drop_first() =~= s);
    }
}

proof fn lemma_before_first_at(s: Seq<char>, sep: char, i: int)
    requires
        0 <= i < s.len(),
        s[i] == sep,
        forall|j: int| 0 <= j < i ==> s[j] != sep,
    ensures
        before_first(s, sep) == s.take(i),
    decreases i,
{
    if i > 0 {
        lemma_before_first_at(s.drop_first(), sep, i - 1);
        assert(seq![s[0]] + s.drop_first().take(i - 1) =~= s.take(i));
    } else {
        assert(s.take(0) =~= Seq::<char>::empty());
    }
}

/// A reference whose first component (before its first `/`) names a
/// registry host (it holds a `:` port separator or a `.`, or is
/// `localhost`) is already fully qualified and is kept as it is.
pub proof fn lemma_registry_host_kept(image: Seq<char>, i: int)
    requires
        0 <= i < image.len(),
        image[i] == '/',
        forall|j: int| 0 <= j < i ==> image[j] != '/',
        (exists|j: int| 0 <= j < i && (image[j] == ':' || image[j] == '.')) || image.take(i)
            == "localhost"@,
    ensures
        normalized_reference(image) == image,
{
    lemma_before_first_at(image, '/', i);
    assert(image.contains('/'));
    if exists|j: int| 0 <= j < i && (image[j] == ':' || image[j] == '.') {
        let j = choose|j: int| 0 <= j < i && (image[j] == ':' || image[j] == '.');
        assert(image.take(i)[j] == image[j]);
    }
}

/// A reference without a `/` names an official image: it is put under
/// `docker.io/library/`.
pub proof fn lemma_bare_name_is_official(image: Seq<char>)
    requires
        forall|j: int| 0 <= j < image.len() ==> image[j] != '/',
    ensures
        normalized_reference(image) == "docker.io/library/"@ + image,
{
}

/// A reference whose first component is a plain name (no `:`, no `.`, not
/// `localhost`) names a repository on Docker Hub: it is put under
/// `docker.io/`, and nothing else changes.
pub proof fn lemma_hub_repository_prefixed(image: Seq<char>, i: int)
    requires
        0 <= i < image.len(),
        image[i] == '/',
        forall|j: int| 0 <= j < i ==> image[j] != '/' && image[j] != ':' && image[j] != '.',
        image.take(i) != "localhost"@,
    ensures
        normalized_reference(image) == "docker.io/"@ + image,
{
    lemma_before_first_at(image, '/', i);
    assert(image.contains('/'));
    assert(!image.take(i).contains(':')) by {
        if image.take(i).contains(':') {
            let k = choose|k: int| 0 <= k < i && image.take(i)[k] == ':';
            assert(image[k] == ':');
        }
    }
    assert(!image.take(i).contains('.')) by {
        if image.take(i).contains('.') {
            let k = choose|k: int| 0 <= k < i && image.take(i)[k] == '.';
            assert(image[k] == '.');
        }
    }
}

/// Normalising only ever adds a prefix: the reference given is the end of
/// its normalised form.
pub proof fn lemma_normalized_ends_with_reference(image: Seq<char>)
    ensures
        ({
            let n = normalized_reference(image);
            &&& image.len() <= n.len()
            &&& n.skip(n.len() - image.len()) == image
        }),
{
    let n = normalized_reference(image);
    assert(n.skip(n.len() - image.len()) =~= image);
}

/// Normalising twice gives what normalising once does.
pub proof fn lemma_normalize_image_reference_idempotent(image: Seq<char>)
    ensures
        normalized_reference(normalized_reference(image)) == normalized_reference(image),
{
    let n = normalized_reference(image);
    let lib = "docker.io/library/"@;
    let hub = "docker.io/"@;
    reveal_strlit("docker.io/library/");
    reveal_strlit("docker.io/");
    reveal_strlit("localhost");
    let d = "docker.io"@;
    reveal_strlit("docker.io");
    assert(hub =~= d + seq!['/']);
    assert(lib =~= d + seq!['/'] + "library/"@) by {
        reveal_strlit("library/");
    }
    assert(before_first(d, '/') == d) by {
        lemma_before_first_no_sep(d, '/');
    }
    assert(d.contains('.')) by {
        assert(d[6] == '.');
    }
    assert(before_first(d + seq!['/'], '/') == d) by {
        lemma_before_first_no_sep(d, '/');
        assert((d + seq!['/']).contains('/')) by {
            assert((d + seq!['/'])[9] == '/');
        }
        lemma_before_first_split(d, '/');
    }
    if !image.contains('/') {
        assert(n =~= (d + seq!['/']) + ("library/"@ + image));
        assert(n.contains('/')) by {
            assert(n[9] == '/');
        }
        lemma_before_first_prefix(d + seq!['/'], "library/"@ + image, '/');
    } else if names_registry(before_first(image, '/')) {
    } else {
        assert(n =~= (d + seq!['/']) + image);
        assert(n.contains('/')) by {
            assert(n[9] == '/');
        }
        lemma_before_first_prefix(d + seq!['/'], image, '/');
    }
}

proof fn lemma_before_first_split(s: Seq<char>, sep: char)
    requires
        !s.contains(sep),
    ensures
        before_first(s + seq![sep], sep) == s,
    decreases s.len(),
{
    if s.len() == 0 {
        assert(s + seq![sep] =~= seq![sep]);
        assert(s =~= Seq::<char>::empty());
    } else {
        assert((s + seq![sep]).drop_first() =~= s.drop_first() + seq![sep]);
        assert(!s.drop_first().contains(sep)) by {
            if s.drop_first().contains(sep) {
                let k = choose|k: int| 0 <= k < s.drop_first().len() && s.drop_first()[k] == sep;
                assert(s[k + 1] == sep);
            }
        }
        lemma_before_first_split(s.drop_first(), sep);
        assert(seq![s[0]] + s.drop_first() =~= s);
    }
}

/// ASCII letters and digits.
pub open spec fn is_ascii_alnum(c: char) -> bool {
    ('0' <= c && c <= '9') || ('a' <= c && c <= 'z') || ('A' <= c && c <= 'Z')
}

/// Apple container's volume name rule: `^[A-Za-z0-9][A-Za-z0-9_.-]*$`,
/// at most 255 bytes.
pub open spec fn valid_volume_name(name: &str) -> bool {
    let s = name@;
    &&& s.len() > 0
    &&& name.spec_bytes().len() <= 255
    &&& is_ascii_alnum(s[0])
    &&& forall|i: int|
        1 <= i < s.len() ==> is_ascii_alnum(#[trigger] s[i]) || s[i] == '_' || s[i] == '.'
            || s[i] == '-'
}

fn alnum(c: char) -> (r: bool)
    ensures
        r == is_ascii_alnum(c),
{
    ('0' <= c && c <= '9') || ('a' <= c && c <= 'z') || ('A' <= c && c <= 'Z')
}

/// Whether `name` is a valid volume name.
pub fn is_valid_volume_name(name: &str) -> (r: bool)
    ensures
        r == valid_volume_name(name),
{
    if name.is_empty() || name.as_bytes().len() > 255 {
        return false;
    }
    let cs = crate::text::chars_of(name);
    if !alnum(cs[0]) {
        return false;
    }
    let mut i: usize = 1;
    while i < cs.len()
        invariant
            cs@ == name@,
            1 <= i <= cs@.len(),
            name.spec_bytes().len() <= 255,
            is_ascii_alnum(name@[0]),
            forall|k: int|
                1 <= k < i ==> is_ascii_alnum(#[trigger] name@[k]) || name@[k] == '_' || name@[k]
                    == '.' || name@[k] == '-',
        decreases cs@.len() - i,
    {
        let c = cs[i];
        if !(alnum(c) || c == '_' || c == '.' || c == '-') {
            return false;
        }
        i += 1;
    }
    true
}

/// Does the error say that a container does not exist?
pub open spec fn not_found_error(e: &Error) -> bool {
    match e {
        Error::Client(ClientError::ContainerNotFound(_)) => true,
        Error::Client(ClientError::Xpc(m)) => {
            let p = "XPC error notFound"@;
            p.len() <= m@.len() && m@.take(p.len() as int) == p
        },
        _ => false,
    }
}

/// Whether the error says that a container does not exist.
pub fn is_not_found_error(e: &Error) -> (r: bool)
    ensures
        r == not_found_error(e),
{
    match e {
        Error::Client(ClientError::ContainerNotFound(_)) => true,
        Error::Client(ClientError::Xpc(msg)) => crate::text::starts_with(
            msg.as_str(),
            "XPC error notFound",
        ),
        _ => false,
    }
}

/// Does the error say that a volume of that name already exists?
pub open spec fn volume_exists_error(e: &Error) -> bool {
    match e {
        Error::Client(ClientError::Xpc(m)) => occurs_in(
            encode_utf8(m@),
            "already exists".spec_bytes(),
        ),
        _ => false,
    }
}

/// Whether the error says that a volume of that name already exists.
pub fn is_volume_already_exists_error(e: &Error) -> (r: bool)
    ensures
        r == volume_exists_error(e),
{
    match e {
        Error::Client(ClientError::Xpc(msg)) => contains_bytes(
            msg.as_str().as_bytes(),
            "already exists".as_bytes(),
        ),
        _ => false,
    }
}

/// Which output streams were not received, for an error message; at
/// least one of them is missing.
pub fn describe_missing(has_stdout: bool, has_stderr: bool) -> (r: &'static str)
    requires
        !(has_stdout && has_stderr),
    ensures
        r@ == if !has_stdout && !has_stderr {
            "stdout/stderr"@
        } else if !has_stdout {
            "stdout"@
        } else {
            "stderr"@
        },
{
    if !has_stdout && !has_stderr {
        "stdout/stderr"
    } else if !has_stdout {
        "stdout"
    } else {
        "stderr"
    }
}

/// `nojson::Json(s)` rendered: the JSON string literal of `s`, between
/// quotes, `"` and `\\` and the control characters escaped (the short forms
/// `\\b \\f \\n \\r \\t`, else `\\u00xx` in lower-case hex), every other
/// character as it is.
#[verifier::external_body]
pub(crate) fn nojson_string(s: &str) -> (r: String)
    ensures
        r@ == json_string(s@),
{
    nojson::Json(s).to_string()
}

/// The OCI platform object of a Linux image with `architecture`, as bytes.
pub fn oci_platform_json(architecture: &str) -> (r: Vec<u8>)
    ensures
        r@ == encode_utf8(
            "{\"os\":\"linux\",\"architecture\":"@ + json_string(architecture@) + "}"@,
        ),
{
    let mut json = String::from_str("{\"os\":\"linux\",\"architecture\":");
    let arch = nojson_string(architecture);
    json.append(arch.as_str());
    json.append("}");
    json.as_str().as_bytes_vec()
}

/// The platform a request may ask for, normalised: `(architecture, use
/// Rosetta, platform to resolve the image for)`. Only `amd64` and `arm64`
/// (bare or under `linux/`) are honoured; anything else runs as arm64 with
/// no platform to resolve.
pub fn normalize_platform(platform: Option<&str>) -> (r: (&'static str, bool, Option<&'static str>))
    ensures
        ({
            let p = match platform {
                Some(p) => Some(p@),
                None => None,
            };
            if p == Some("linux/amd64"@) || p == Some("amd64"@) {
                r.0@ == "amd64"@ && r.1 && (r.2 matches Some(x) && x@ == "linux/amd64"@)
            } else if p == Some("linux/arm64"@) || p == Some("arm64"@) {
                r.0@ == "arm64"@ && !r.1 && (r.2 matches Some(x) && x@ == "linux/arm64"@)
            } else {
                r.0@ == "arm64"@ && !r.1 && r.2 is None
            }
        }),
{
    match platform {
        Some(p) => {
            if str_eq(p, "linux/amd64") || str_eq(p, "amd64") {
                ("amd64", true, Some("linux/amd64"))
            } else if str_eq(p, "linux/arm64") || str_eq(p, "arm64") {
                ("arm64", false, Some("linux/arm64"))
            } else {
                ("arm64", false, None)
            }
        },
        None => ("arm64", false, None),
    }
}

#[verifier::external_type_specification]
#[verifier::external_body]
pub struct ExPath(std::path::Path);

/// The bytes of a path as it is held (`OsStr::as_encoded_bytes` of the
/// path); on Unix, the bytes the system uses for it.
pub uninterp spec fn path_bytes(path: &std::path::Path) -> Seq<u8>;

/// How a path is shown (`Path::display`); where the path is not valid
/// Unicode, the way it is shown depends on the platform.
pub uninterp spec fn path_display_text(path: &std::path::Path) -> Seq<char>;

/// `Path::to_str`: the path as text when it is valid Unicode, that is
/// when its bytes are valid UTF-8, and then the text those bytes encode.
#[verifier::external_body]
fn path_to_str(path: &std::path::Path) -> (r: Option<&str>)
    ensures
        r is Some <==> valid_utf8(path_bytes(path)),
        r matches Some(s) ==> s@ == decode_utf8(path_bytes(path)),
{
    path.to_str()
}

/// `Path::display` rendered as text.
#[verifier::external_body]
fn path_display(path: &std::path::Path) -> (r: String)
    ensures
        r@ == path_display_text(path),
{
    format!("{}", path.display())
}

/// A host path as the UTF-8 text XPC messages carry; a path that is not
/// valid Unicode is refused rather than silently altered.
pub fn host_path_for_xpc(path: &std::path::Path) -> (r: Result<&str, Error>)
    ensures
        valid_utf8(path_bytes(path)) ==> (r matches Ok(s) && s@ == decode_utf8(path_bytes(path))),
        !valid_utf8(path_bytes(path)) ==> (r matches Err(Error::Client(ClientError::Other(m)))
            && m@ == "host path is not valid UTF-8: "@ + path_display_text(path)),
{
    match path_to_str(path) {
        Some(s) => Ok(s),
        None => {
            let mut msg = String::from_str("host path is not valid UTF-8: ");
            let shown = path_display(path);
            msg.append(shown.as_str());
            Err(Error::Client(ClientError::Other(msg)))
        },
    }
}

/// Where a named volume lives and how it is formatted.
#[derive(Debug)]
pub struct VolumeResolution {
    pub source: String,
    pub format: String,
}

fn json_client_error(prefix: &str, e: String) -> (r: ClientError)
    ensures
        r matches ClientError::Json(m) && m@ == prefix@ + e@,
{
    let mut m = String::from_str(prefix);
    m.append(e.as_str());
    ClientError::Json(m)
}

/// What reading the volume configuration `data` gives.
pub open spec fn volume_configuration_outcome(data: Seq<u8>, r: Result<VolumeResolution, Error>) -> bool {
    &&& !valid_utf8(data) ==> (r matches Err(Error::Client(ClientError::Json(m))) && m@
        == "volume configuration is not UTF-8: "@ + utf8_error_text(data))
    &&& valid_utf8(data) ==> ({
        let text = decode_utf8(data);
        match json_syntax(text) {
            Err(e) => r matches Err(Error::Client(ClientError::Json(m))) && m@ == e,
            Ok(()) => match json_string_lookup(text, seq!["source"@]) {
                Err(e) => r matches Err(Error::Client(ClientError::Json(m))) && m@
                    == "volume configuration missing or invalid source: "@ + e,
                Ok(src) => match json_string_lookup(text, seq!["format"@]) {
                    Err(e) => r matches Err(Error::Client(ClientError::Json(m))) && m@
                        == "volume configuration missing or invalid format: "@ + e,
                    Ok(f) => r matches Ok(v) && v.source@ == src && v.format@ == f,
                },
            },
        }
    })
}

/// Reads `source` and `format` of a volume configuration; both are
/// required strings.
pub fn parse_volume_configuration(data: &[u8]) -> (r: Result<VolumeResolution, Error>)
    ensures
        volume_configuration_outcome(data@, r),
{
    let text = match utf8_str_or_error(data) {
        Ok(t) => t,
        Err(e) => {
            return Err(Error::Client(json_client_error("volume configuration is not UTF-8: ", e)));
        },
    };
    proof {
        vstd::utf8::encode_utf8_decode_utf8(text@);
    }
    match json_check(text) {
        Ok(()) => {},
        Err(e) => {
            return Err(Error::Client(ClientError::Json(e)));
        },
    }
    let source_path: [&str; 1] = ["source"];
    let format_path: [&str; 1] = ["format"];
    proof {
        assert(path_views(source_path@) =~= seq!["source"@]);
        assert(path_views(format_path@) =~= seq!["format"@]);
    }
    let source = match json_string_path(text, source_path.as_slice()) {
        Ok(v) => v,
        Err(e) => {
            return Err(
                Error::Client(json_client_error("volume configuration missing or invalid source: ", e)),
            );
        },
    };
    let format = match json_string_path(text, format_path.as_slice()) {
        Ok(v) => v,
        Err(e) => {
            return Err(
                Error::Client(json_client_error("volume configuration missing or invalid format: ", e)),
            );
        },
    };
    Ok(VolumeResolution { source, format })
}

/// Does an image list entry's `reference` name `image` (as given or
/// normalised)?
pub open spec fn reference_matches(item: Seq<char>, image: Seq<char>) -> bool {
    let r = json_string_at(item, seq!["reference"@]);
    r == Some(image) || r == Some(normalized_reference(image))
}

/// Index of the first entry whose reference matches.
pub open spec fn first_reference_match(items: Seq<Seq<char>>, image: Seq<char>) -> Option<int>
    decreases items.len(),
{
    if items.len() == 0 {
        None
    } else if reference_matches(items[0], image) {
        Some(0)
    } else {
        match first_reference_match(items.drop_first(), image) {
            Some(i) => Some(i + 1),
            None => None,
        }
    }
}

proof fn lemma_first_reference_match(items: Seq<Seq<char>>, image: Seq<char>)
    ensures
        match first_reference_match(items, image) {
            Some(i) => 0 <= i < items.len() && reference_matches(items[i], image) && forall|j: int|
                0 <= j < i ==> !reference_matches(#[trigger] items[j], image),
            None => forall|j: int| 0 <= j < items.len() ==> !reference_matches(#[trigger] items[j], image),
        },
    decreases items.len(),
{
    if items.len() > 0 && !reference_matches(items[0], image) {
        lemma_first_reference_match(items.drop_first(), image);
        assert forall|j: int| 1 <= j < items.len() implies items[j] == items.drop_first()[j - 1] by {}
    }
}

/// Finds the descriptor (as JSON text) of `image` in an image list: the
/// first entry whose reference matches decides.
pub fn match_image_descriptor(data: &[u8], image: &str) -> (r: Result<String, ClientError>)
    ensures
        data@.len() == 0 ==> (r matches Err(ClientError::ImageNotFound(i)) && i@ == image@),
        data@.len() > 0 && !valid_utf8(data@) ==> (r matches Err(ClientError::Json(m)) && m@
            == "imageDescriptions is not UTF-8: "@ + utf8_error_text(data@)),
        data@.len() > 0 && valid_utf8(data@) ==> ({
            let text = decode_utf8(data@);
            match json_syntax(text) {
                Err(e) => r matches Err(ClientError::Json(m)) && m@ == e,
                Ok(()) => match json_items_of(text) {
                    Err(e) => r matches Err(ClientError::Json(m)) && m@ == e,
                    Ok(items) => match first_reference_match(items, image@) {
                        None => r matches Err(ClientError::ImageNotFound(i)) && i@ == image@,
                        Some(k) => match json_member_text(items[k], seq!["descriptor"@]) {
                            Ok(Some(d)) => r matches Ok(s) && s@ == d,
                            _ => r matches Err(ClientError::Other(m)) && m@ == "image "@ + image@
                                + ": matched reference but descriptor is missing"@,
                        },
                    },
                },
            }
        }),
{
    if data.len() == 0 {
        return Err(ClientError::ImageNotFound(String::from_str(image)));
    }
    let text = match utf8_str_or_error(data) {
        Ok(t) => t,
        Err(e) => {
            return Err(json_client_error("imageDescriptions is not UTF-8: ", e));
        },
    };
    proof {
        vstd::utf8::encode_utf8_decode_utf8(text@);
    }
    match json_check(text) {
        Ok(()) => {},
        Err(e) => {
            return Err(ClientError::Json(e));
        },
    }
    let items = match json_items(text) {
        Ok(items) => items,
        Err(e) => {
            return Err(ClientError::Json(e));
        },
    };
    let docker_ref = normalize_image_reference(image);
    let ref_path: [&str; 1] = ["reference"];
    let desc_path: [&str; 1] = ["descriptor"];
    proof {
        assert(path_views(ref_path@) =~= seq!["reference"@]);
        assert(path_views(desc_path@) =~= seq!["descriptor"@]);
        lemma_first_reference_match(text_views(items@), image@);
    }
    let ghost views = text_views(items@);
    let mut i: usize = 0;
    while i < items.len()
        invariant
            i <= items@.len(),
            views == text_views(items@),
            docker_ref@ == normalized_reference(image@),
            path_views(ref_path@) == seq!["reference"@],
            path_views(desc_path@) == seq!["descriptor"@],
            data@.len() > 0,
            valid_utf8(data@),
            json_syntax(decode_utf8(data@)) is Ok,
            json_items_of(decode_utf8(data@)) == Ok::<Seq<Seq<char>>, Seq<char>>(views),
            forall|j: int| 0 <= j < i ==> !reference_matches(#[trigger] views[j], image@),
        decreases items@.len() - i,
    {
        let item = items[i].as_str();
        let matched = match json_string_member(item, ref_path.as_slice()) {
            Some(r) => crate::text::str_eq(r.as_str(), image) || crate::text::str_eq(
                r.as_str(),
                docker_ref.as_str(),
            ),
            None => false,
        };
        assert(views[i as int] == item@);
        if matched {
            proof {
                lemma_first_reference_match(views, image@);
                match first_reference_match(views, image@) {
                    Some(k) => {
                        if k < i {
                        } else if k > i {
                        }
                    },
                    None => {},
                }
            }
            return match json_member_raw(item, desc_path.as_slice()) {
                Ok(Some(d)) => Ok(d),
                _ => {
                    let mut m = String::from_str("image ");
                    m.append(image);
                    m.append(": matched reference but descriptor is missing");
                    Err(ClientError::Other(m))
                },
            };
        }
        i += 1;
    }
    proof {
        lemma_first_reference_match(views, image@);
    }
    Err(ClientError::ImageNotFound(String::from_str(image)))
}

/// Checks a `containerList` reply and hands back its JSON text: empty
/// data means the container does not exist.
pub fn parse_container_list(data: &[u8], id: &str) -> (r: Result<String, ClientError>)
    ensures
        data@.len() == 0 ==> (r matches Err(ClientError::ContainerNotFound(i)) && i@ == id@),
        data@.len() > 0 && !valid_utf8(data@) ==> (r matches Err(ClientError::Json(m)) && m@
            == "containerList response is not UTF-8: "@ + utf8_error_text(data@)),
        data@.len() > 0 && valid_utf8(data@) ==> match json_syntax(decode_utf8(data@)) {
            Err(e) => r matches Err(ClientError::Json(m)) && m@ == e,
            Ok(()) => r matches Ok(t) && t@ == decode_utf8(data@),
        },
{
    if data.len() == 0 {
        return Err(ClientError::ContainerNotFound(String::from_str(id)));
    }
    let text = match utf8_str_or_error(data) {
        Ok(t) => t,
        Err(e) => {
            return Err(json_client_error("containerList response is not UTF-8: ", e));
        },
    };
    proof {
        vstd::utf8::encode_utf8_decode_utf8(text@);
    }
    match json_check(text) {
        Ok(()) => Ok(String::from_str(text)),
        Err(e) => Err(ClientError::Json(e)),
    }
}

/// A port a container publishes, as the container list reports it.
#[derive(Debug)]
pub struct PublishedPort {
    pub container_port: ContainerPort,
    pub host_port: u16,
    pub host_address: String,
}

/// A number member of a published port entry (0 when missing or no
/// `u16`).
pub open spec fn u16_member(item: Seq<char>, key: Seq<char>) -> u16 {
    match json_member_text(item, seq![key]) {
        Ok(Some(v)) => match json_u16_of(v) {
            Some(n) => n,
            None => 0,
        },
        _ => 0,
    }
}

/// A string member of a published port entry, or `default`.
pub open spec fn string_member_or(item: Seq<char>, key: Seq<char>, default: Seq<char>) -> Seq<char> {
    match json_member_text(item, seq![key]) {
        Ok(Some(v)) => match json_string_of(v) {
            Ok(s) => s,
            Err(_) => default,
        },
        _ => default,
    }
}

/// A published port entry read: `udp` and `sctp` by name, anything else
/// TCP; an entry with port 0 on either side is left out.
pub open spec fn published_entry(item: Seq<char>) -> Option<(ContainerPort, u16, Seq<char>)> {
    let cp = u16_member(item, "containerPort"@);
    let hp = u16_member(item, "hostPort"@);
    let proto = string_member_or(item, "proto"@, "tcp"@);
    let addr = string_member_or(item, "hostAddress"@, Seq::empty());
    let port = if proto == "udp"@ {
        ContainerPort::Udp(cp)
    } else if proto == "sctp"@ {
        ContainerPort::Sctp(cp)
    } else {
        ContainerPort::Tcp(cp)
    };
    if hp == 0 || cp == 0 {
        None
    } else {
        Some((port, hp, addr))
    }
}

/// The published ports of some entries, in order.
pub open spec fn published_entries(items: Seq<Seq<char>>) -> Seq<(ContainerPort, u16, Seq<char>)>
    decreases items.len(),
{
    if items.len() == 0 {
        Seq::empty()
    } else {
        published_entries(items.drop_last()) + match published_entry(items.last()) {
            Some(e) => seq![e],
            None => Seq::empty(),
        }
    }
}

/// The published ports of a container list entry
/// (`configuration.publishedPorts`).
pub open spec fn published_of(item: Seq<char>) -> Seq<(ContainerPort, u16, Seq<char>)> {
    match json_member_text(item, seq!["configuration"@]) {
        Ok(Some(c)) => match json_member_text(c, seq!["publishedPorts"@]) {
            Ok(Some(pp)) => match json_items_of(pp) {
                Ok(items) => published_entries(items),
                Err(_) => Seq::empty(),
            },
            _ => Seq::empty(),
        },
        _ => Seq::empty(),
    }
}

/// The view of a published port.
pub open spec fn published_view(p: PublishedPort) -> (ContainerPort, u16, Seq<char>) {
    (p.container_port, p.host_port, p.host_address@)
}

fn u16_member_exec(item: &str, key: &str) -> (r: u16)
    ensures
        r == u16_member(item@, key@),
{
    let path: [&str; 1] = [key];
    proof {
        assert(path_views(path@) =~= seq![key@]);
    }
    match json_member_raw(item, path.as_slice()) {
        Ok(Some(v)) => match json_as_u16(v.as_str()) {
            Some(n) => n,
            None => 0,
        },
        _ => 0,
    }
}

fn string_member_or_exec(item: &str, key: &str, default: &str) -> (r: String)
    ensures
        r@ == string_member_or(item@, key@, default@),
{
    let path: [&str; 1] = [key];
    proof {
        assert(path_views(path@) =~= seq![key@]);
    }
    match json_member_raw(item, path.as_slice()) {
        Ok(Some(v)) => match json_as_string(v.as_str()) {
            Ok(s) => s,
            Err(_) => String::from_str(default),
        },
        _ => String::from_str(default),
    }
}

fn published_entry_exec(item: &str) -> (r: Option<PublishedPort>)
    ensures
        match published_entry(item@) {
            Some(e) => r matches Some(p) && published_view(p) == e,
            None => r is None,
        },
{
    let cp = u16_member_exec(item, "containerPort");
    let hp = u16_member_exec(item, "hostPort");
    let proto = string_member_or_exec(item, "proto", "tcp");
    let addr = string_member_or_exec(item, "hostAddress", "");
    proof {
        reveal_strlit("");
        assert(""@ =~= Seq::<char>::empty());
    }
    let port = if str_eq(proto.as_str(), "udp") {
        ContainerPort::Udp(cp)
    } else if str_eq(proto.as_str(), "sctp") {
        ContainerPort::Sctp(cp)
    } else {
        ContainerPort::Tcp(cp)
    };
    if hp == 0 || cp == 0 {
        None
    } else {
        Some(PublishedPort { container_port: port, host_port: hp, host_address: addr })
    }
}

/// The ports a container list entry publishes, those with a zero port
/// left out.
pub fn published_ports(item: &str) -> (r: Vec<PublishedPort>)
    ensures
        r@.map_values(|p: PublishedPort| published_view(p)) == published_of(item@),
{
    let mut out: Vec<PublishedPort> = Vec::new();
    let config_path: [&str; 1] = ["configuration"];
    let pp_path: [&str; 1] = ["publishedPorts"];
    proof {
        assert(path_views(config_path@) =~= seq!["configuration"@]);
        assert(path_views(pp_path@) =~= seq!["publishedPorts"@]);
        assert(out@.map_values(|p: PublishedPort| published_view(p)) =~= Seq::<(ContainerPort, u16, Seq<char>)>::empty());
    }
    let config = match json_member_raw(item, config_path.as_slice()) {
        Ok(Some(c)) => c,
        _ => {
            return out;
        },
    };
    let pp = match json_member_raw(config.as_str(), pp_path.as_slice()) {
        Ok(Some(p)) => p,
        _ => {
            return out;
        },
    };
    let items = match json_items(pp.as_str()) {
        Ok(items) => items,
        Err(_) => {
            return out;
        },
    };
    let ghost views = text_views(items@);
    let mut i: usize = 0;
    while i < items.len()
        invariant
            i <= items@.len(),
            views == text_views(items@),
            out@.map_values(|p: PublishedPort| published_view(p)) == published_entries(
                views.take(i as int),
            ),
        decreases items@.len() - i,
    {
        proof {
            assert(views.take(i + 1).drop_last() =~= views.take(i as int));
            assert(views.take(i + 1).last() == items@[i as int]@);
        }
        let ghost prev = out@;
        match published_entry_exec(items[i].as_str()) {
            Some(p) => {
                let ghost pv = published_view(p);
                out.push(p);
                proof {
                    assert(out@.map_values(|p: PublishedPort| published_view(p)) =~= prev.map_values(
                        |p: PublishedPort| published_view(p),
                    ).push(pv));
                }
            },
            None => {},
        }
        proof {
            assert(out@.map_values(|p: PublishedPort| published_view(p)) =~= published_entries(
                views.take(i + 1),
            ));
        }
        i += 1;
    }
    proof {
        assert(views.take(i as int) =~= views);
    }
    out
}

/// The (port, host port) pairs of the entries in one address family.
pub open spec fn family_adds(
    entries: Seq<(ContainerPort, u16, Seq<char>)>,
    ipv6: Seq<bool>,
    want_ipv6: bool,
) -> Seq<(ContainerPort, u16)>
    decreases entries.len(),
{
    if entries.len() == 0 || ipv6.len() == 0 {
        Seq::empty()
    } else {
        family_adds(entries.drop_last(), ipv6.drop_last(), want_ipv6) + if ipv6.last() == want_ipv6 {
            seq![(entries.last().0, entries.last().1)]
        } else {
            Seq::empty()
        }
    }
}

/// Files each published port under IPv6 where `ipv6` says its host address
/// is one, else under IPv4; a later entry for a port wins.
pub fn ports_from_published(entries: &[PublishedPort], ipv6: &[bool]) -> (r: Ports)
    requires
        entries@.len() == ipv6@.len(),
    ensures
        r.wf(),
        forall|q: ContainerPort| #[trigger] port_lookup(r.ipv4@, q) == last_host_for(
            family_adds(entries@.map_values(|p: PublishedPort| published_view(p)), ipv6@, false),
            q,
        ),
        forall|q: ContainerPort| #[trigger] port_lookup(r.ipv6@, q) == last_host_for(
            family_adds(entries@.map_values(|p: PublishedPort| published_view(p)), ipv6@, true),
            q,
        ),
{
    let mut ports = Ports::new();
    let ghost ev = entries@.map_values(|p: PublishedPort| published_view(p));
    let mut i: usize = 0;
    while i < entries.len()
        invariant
            i <= entries@.len(),
            entries@.len() == ipv6@.len(),
            ev == entries@.map_values(|p: PublishedPort| published_view(p)),
            ports.wf(),
            forall|q: ContainerPort| #[trigger] port_lookup(ports.ipv4@, q) == last_host_for(
                family_adds(ev.take(i as int), ipv6@.take(i as int), false),
                q,
            ),
            forall|q: ContainerPort| #[trigger] port_lookup(ports.ipv6@, q) == last_host_for(
                family_adds(ev.take(i as int), ipv6@.take(i as int), true),
                q,
            ),
        decreases entries@.len() - i,
    {
        let p = &entries[i];
        let ghost a4 = family_adds(ev.take(i as int), ipv6@.take(i as int), false);
        let ghost a6 = family_adds(ev.take(i as int), ipv6@.take(i as int), true);
        proof {
            assert(ev.take(i + 1).drop_last() =~= ev.take(i as int));
            assert(ipv6@.take(i + 1).drop_last() =~= ipv6@.take(i as int));
            assert(ev.take(i + 1).last() == published_view(*p));
            assert(ipv6@.take(i + 1).last() == ipv6@[i as int]);
        }
        if ipv6[i] {
            ports.add_ipv6_mapping(p.container_port, p.host_port);
            proof {
                assert(family_adds(ev.take(i + 1), ipv6@.take(i + 1), true) =~= a6.push(
                    (p.container_port, p.host_port),
                ));
                assert(family_adds(ev.take(i + 1), ipv6@.take(i + 1), false) =~= a4);
                assert forall|q: ContainerPort| #[trigger] port_lookup(ports.ipv6@, q) == last_host_for(
                    a6.push((p.container_port, p.host_port)),
                    q,
                ) by {
                    assert(a6.push((p.container_port, p.host_port)).drop_last() =~= a6);
                }
            }
        } else {
            ports.add_mapping(p.container_port, p.host_port);
            proof {
                assert(family_adds(ev.take(i + 1), ipv6@.take(i + 1), false) =~= a4.push(
                    (p.container_port, p.host_port),
                ));
                assert(family_adds(ev.take(i + 1), ipv6@.take(i + 1), true) =~= a6);
                assert forall|q: ContainerPort| #[trigger] port_lookup(ports.ipv4@, q) == last_host_for(
                    a4.push((p.container_port, p.host_port)),
                    q,
                ) by {
                    assert(a4.push((p.container_port, p.host_port)).drop_last() =~= a4);
                }
            }
        }
        i += 1;
    }
    proof {
        assert(ev.take(i as int) =~= ev);
        assert(ipv6@.take(i as int) =~= ipv6@);
    }
    ports
}

/// Whether `m` mounts the volume `name`.
pub open spec fn mounts_volume(m: Mount, name: Seq<char>) -> bool {
    m.mount_type == MountType::Volume && (m.source matches Some(s) && s@ == name)
}

/// Whether `name` is the source of a volume mount among `mounts`.
pub open spec fn names_volume(mounts: Seq<Mount>, name: Seq<char>) -> bool {
    exists|i: int| 0 <= i < mounts.len() && #[trigger] mounts_volume(mounts[i], name)
}

/// Whether `v` is in strictly increasing order (so without repeats).
pub open spec fn strictly_sorted(v: Seq<Seq<char>>) -> bool {
    forall|i: int, j: int| 0 <= i < j < v.len() ==> lex_lt(#[trigger] v[i], #[trigger] v[j])
}

/// Adds `name` to the sorted list `out`, where it is not there yet.
fn insert_sorted(out: &mut Vec<String>, name: &str)
    requires
        strictly_sorted(string_views(old(out)@)),
    ensures
        strictly_sorted(string_views(final(out)@)),
        forall|x: Seq<char>| #[trigger] string_views(final(out)@).contains(x) <==> (string_views(
            old(out)@,
        ).contains(x) || x == name@),
{
    let ghost v = string_views(out@);
    let mut p: usize = 0;
    while p < out.len() && str_lt(out[p].as_str(), name)
        invariant
            p <= out@.len(),
            string_views(out@) == v,
            forall|i: int| 0 <= i < p ==> lex_lt(#[trigger] v[i], name@),
        decreases out@.len() - p,
    {
        p += 1;
    }
    if p < out.len() && str_eq(out[p].as_str(), name) {
        proof {
            assert(v[p as int] == name@);
            assert(v.contains(name@));
        }
        return;
    }
    proof {
        if p < v.len() {
            lemma_lex_trichotomy(v[p as int], name@);
            assert(lex_lt(name@, v[p as int]));
        }
    }
    out.insert(p, String::from_str(name));
    proof {
        let w = string_views(out@);
        assert(w =~= v.insert(p as int, name@));
        assert forall|i: int, j: int| 0 <= i < j < w.len() implies lex_lt(
            #[trigger] w[i],
            #[trigger] w[j],
        ) by {
            if j < p {
                assert(w[i] == v[i] && w[j] == v[j]);
            } else if j == p {
                assert(w[j] == name@ && w[i] == v[i]);
            } else if i == p {
                assert(w[i] == name@ && w[j] == v[j - 1]);
                if j - 1 > p {
                    lemma_lex_transitive(name@, v[p as int], v[j - 1]);
                }
            } else if i < p {
                assert(w[i] == v[i] && w[j] == v[j - 1]);
            } else {
                assert(w[i] == v[i - 1] && w[j] == v[j - 1]);
            }
        }
        assert forall|x: Seq<char>| #[trigger] w.contains(x) <==> (v.contains(x) || x == name@) by {
            if w.contains(x) {
                let k = choose|k: int| 0 <= k < w.len() && w[k] == x;
                if k < p {
                    assert(v[k] == x);
                } else if k > p {
                    assert(v[k - 1] == x);
                }
            }
            if v.contains(x) {
                let k = choose|k: int| 0 <= k < v.len() && v[k] == x;
                if k < p {
                    assert(w[k] == x);
                } else {
                    assert(w[k + 1] == x);
                }
            }
            if x == name@ {
                assert(w[p as int] == x);
            }
        }
    }
}

/// The names of the volumes that `mounts` mount, each once, in order: the
/// volumes that a container creation resolves one by one.
pub fn volume_names(mounts: &[Mount]) -> (r: Vec<String>)
    ensures
        strictly_sorted(string_views(r@)),
        forall|x: Seq<char>| #[trigger] string_views(r@).contains(x) <==> names_volume(mounts@, x),
{
    let mut out: Vec<String> = Vec::new();
    let mut k: usize = 0;
    proof {
        assert(string_views(out@) =~= Seq::<Seq<char>>::empty());
    }
    while k < mounts.len()
        invariant
            k <= mounts@.len(),
            strictly_sorted(string_views(out@)),
            forall|x: Seq<char>| #[trigger] string_views(out@).contains(x) <==> names_volume(
                mounts@.take(k as int),
                x,
            ),
        decreases mounts@.len() - k,
    {
        let ghost before = mounts@.take(k as int);
        let ghost after = mounts@.take(k + 1);
        proof {
            assert(after =~= before.push(mounts@[k as int]));
        }
        let ghost prev = string_views(out@);
        match (&mounts[k].mount_type, &mounts[k].source) {
            (MountType::Volume, Some(name)) => {
                insert_sorted(&mut out, name.as_str());
                proof {
                    assert forall|x: Seq<char>| #[trigger] string_views(out@).contains(x)
                        <==> names_volume(after, x) by {
                        if names_volume(after, x) {
                            let i = choose|i: int|
                                0 <= i < after.len() && #[trigger] mounts_volume(after[i], x);
                            if i < k {
                                assert(before[i] == after[i]);
                                assert(names_volume(before, x));
                            } else {
                                assert(after[i] == mounts@[k as int]);
                                assert(x == name@);
                            }
                        }
                        if prev.contains(x) {
                            assert(names_volume(before, x));
                            let i = choose|i: int|
                                0 <= i < before.len() && #[trigger] mounts_volume(before[i], x);
                            assert(after[i] == before[i]);
                        }
                        if x == name@ {
                            assert(after[k as int] == mounts@[k as int]);
                            assert(mounts_volume(after[k as int], x));
                        }
                    }
                }
            },
            _ => {
                proof {
                    assert forall|x: Seq<char>| #[trigger] string_views(out@).contains(x)
                        <==> names_volume(after, x) by {
                        if names_volume(after, x) {
                            let i = choose|i: int|
                                0 <= i < after.len() && #[trigger] mounts_volume(after[i], x);
                            if i < k {
                                assert(before[i] == after[i]);
                            }
                        }
                        if prev.contains(x) {
                            let i = choose|i: int|
                                0 <= i < before.len() && #[trigger] mounts_volume(before[i], x);
                            assert(after[i] == before[i]);
                        }
                    }
                }
            },
        }
        k += 1;
    }
    proof {
        assert(mounts@.take(mounts@.len() as int) =~= mounts@);
    }
    out
}

/// The error of a volume that could not be resolved: which one, and why.
pub fn volume_resolution_error(name: &str, cause: &Error) -> (r: Error)
    ensures
        r matches Error::Other(m) && {
            let p = "failed to resolve volume '"@ + name@ + "': "@;
            &&& p.len() <= m@.len()
            &&& m@.take(p.len() as int) == p
            &&& cause.message_fits(m@.skip(p.len() as int))
        },
{
    let mut m = String::from_str("failed to resolve volume '");
    m.append(name);
    m.append("': ");
    let ghost p = m@;
    let t = cause.to_string();
    m.append(t.as_str());
    proof {
        assert(m@.take(p.len() as int) =~= p);
        assert(m@.skip(p.len() as int) =~= t@);
    }
    Error::Other(m)
}

/// The signal and grace period (seconds) of a stop request: `Some(0)`
/// kills at once; a negative timeout waits as long as can be said
/// (`i32::MAX` seconds), since the service takes no negative one; no
/// timeout means 30 seconds.
pub open spec fn xpc_stop_plan(timeout_seconds: Option<i32>) -> (Seq<char>, u64) {
    match timeout_seconds {
        Some(t) => if t == 0 {
            ("SIGKILL"@, 0)
        } else if t < 0 {
            ("SIGTERM"@, 2147483647)
        } else {
            ("SIGTERM"@, t as u64)
        },
        None => ("SIGTERM"@, 30),
    }
}

/// The signal and grace period of a stop request (see `xpc_stop_plan`).
pub fn xpc_stop_signal_and_grace(timeout_seconds: Option<i32>) -> (r: (&'static str, u64))
    ensures
        (r.0@, r.1) == xpc_stop_plan(timeout_seconds),
{
    match timeout_seconds {
        Some(t) => if t == 0 {
            ("SIGKILL", 0)
        } else if t < 0 {
            ("SIGTERM", 2147483647)
        } else {
            ("SIGTERM", t as u64)
        },
        None => ("SIGTERM", 30),
    }
}

/// The outcome of a stop or removal: one that failed because the container
/// is already gone counts as done.
pub fn tolerate_missing(outcome: Result<(), Error>) -> (r: Result<(), Error>)
    ensures
        match outcome {
            Ok(()) => r is Ok,
            Err(e) => if not_found_error(&e) {
                r is Ok
            } else {
                r == Err::<(), Error>(e)
            },
        },
{
    match outcome {
        Ok(()) => Ok(()),
        Err(e) => if is_not_found_error(&e) {
            Ok(())
        } else {
            Err(e)
        },
    }
}

/// The two log descriptors (stdout, stderr) of a `containerLogs` reply:
/// there must be at least two, and neither may be negative (a failed
/// duplication).
pub fn check_log_fds(fds: &[i32]) -> (r: Result<(i32, i32), Error>)
    ensures
        fds@.len() < 2 ==> (r matches Err(Error::Client(ClientError::Other(m))) && m@
            == "containerLogs did not return enough fds"@),
        fds@.len() >= 2 && (fds@[0] < 0 || fds@[1] < 0) ==> (r matches Err(
            Error::Client(ClientError::Other(m)),
        ) && m@ == "containerLogs returned an invalid fd"@),
        fds@.len() >= 2 && fds@[0] >= 0 && fds@[1] >= 0 ==> r == Ok::<(i32, i32), Error>(
            (fds@[0], fds@[1]),
        ),
{
    if fds.len() < 2 {
        return Err(Error::Client(ClientError::Other(String::from_str("containerLogs did not return enough fds"))));
    }
    if fds[0] < 0 || fds[1] < 0 {
        return Err(Error::Client(ClientError::Other(String::from_str("containerLogs returned an invalid fd"))));
    }
    Ok((fds[0], fds[1]))
}

/// The executable and arguments of an exec: the first word and the rest;
/// an exec needs at least one.
pub fn exec_executable_and_arguments(cmd: &[String]) -> (r: Result<(String, Vec<String>), Error>)
    ensures
        cmd@.len() == 0 ==> (r matches Err(Error::Client(ClientError::Other(m))) && m@
            == "exec requires at least one argument"@),
        cmd@.len() > 0 ==> (r matches Ok((exe, args)) && exe@ == cmd@[0]@ && string_views(args@)
            == string_views(cmd@.drop_first())),
{
    if cmd.len() == 0 {
        return Err(Error::Client(ClientError::Other(String::from_str("exec requires at least one argument"))));
    }
    let exe = cmd[0].clone();
    let mut args: Vec<String> = Vec::new();
    let mut i: usize = 1;
    proof {
        assert(string_views(args@) =~= string_views(cmd@.subrange(1, 1)));
    }
    while i < cmd.len()
        invariant
            1 <= i <= cmd@.len(),
            string_views(args@) == string_views(cmd@.subrange(1, i as int)),
        decreases cmd@.len() - i,
    {
        let a = cmd[i].clone();
        let ghost prev = args@;
        args.push(a);
        proof {
            assert(cmd@.subrange(1, i + 1) =~= cmd@.subrange(1, i as int).push(cmd@[i as int]));
            assert(string_views(args@) =~= string_views(prev).push(a@));
            assert(string_views(cmd@.subrange(1, i + 1)) =~= string_views(cmd@.subrange(1, i as int)).push(cmd@[i as int]@));
        }
        i += 1;
    }
    proof {
        assert(cmd@.subrange(1, cmd@.len() as int) =~= cmd@.drop_first());
    }
    Ok((exe, args))
}

/// Refuses a volume name that the Apple container service would refuse
/// (see `valid_volume_name`), saying which rule it breaks.
pub fn check_volume_name(name: &str) -> (r: Result<(), Error>)
    ensures
        valid_volume_name(name) ==> r is Ok,
        !valid_volume_name(name) ==> (r matches Err(Error::Client(ClientError::Other(m))) && m@
            == "invalid volume name "@ + str_debug_text(name@)
            + ": must match ^[A-Za-z0-9][A-Za-z0-9_.-]*$ and be at most 255 characters"@),
{
    if is_valid_volume_name(name) {
        return Ok(());
    }
    let mut m = String::from_str("invalid volume name ");
    let shown = str_debug(name);
    m.append(shown.as_str());
    m.append(": must match ^[A-Za-z0-9][A-Za-z0-9_.-]*$ and be at most 255 characters");
    Err(Error::Client(ClientError::Other(m)))
}

/// The volume that a `volumeCreate` or `volumeInspect` reply describes:
/// its `volume` data must be there, and read as `parse_volume_configuration`
/// reads it.
pub fn volume_from_reply(name: &str, data: Option<&[u8]>) -> (r: Result<VolumeResolution, Error>)
    ensures
        match data {
            None => r matches Err(Error::Client(ClientError::Other(m))) && m@ == "volume '"@
                + name@ + "' resolution did not return volume"@,
            Some(d) => volume_configuration_outcome(d@, r),
        },
{
    match data {
        Some(d) => parse_volume_configuration(d),
        None => {
            let mut m = String::from_str("volume '");
            m.append(name);
            m.append("' resolution did not return volume");
            Err(Error::Client(ClientError::Other(m)))
        },
    }
}

} // verus!
