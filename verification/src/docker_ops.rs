//! The decisions around each Docker Engine API call: the request path it
//! sends and what the response status and body mean.

use vstd::prelude::*;
use vstd::string::*;
use vstd::utf8::{valid_utf8, decode_utf8};
use crate::error::{ClientError, Error};
use crate::docker_api::{classify_archive_404, daemon_message, names_missing_path, percent_encoded, percent_encode_component, percent_encode_path_segment, pull_reference, split_pull_reference};
use crate::exec::{created_id_outcome, parse_created_id};
use crate::text::{decimal, push_decimal, utf8_str_or_error, utf8_error_text};
use crate::json::{json_check, json_syntax, json_i64_lookup, json_i64_path, path_views};

verus! {

broadcast use vstd::string::group_string_axioms;

/// The grace period in seconds that a stop request asks for: the given one
/// where it is not negative, else 30.
pub open spec fn stop_grace(timeout_seconds: Option<i32>) -> int {
    match timeout_seconds {
        Some(t) => if t >= 0 {
            t as int
        } else {
            30
        },
        None => 30,
    }
}

/// `/containers/{id}/stop?t={grace}`.
pub fn stop_path(id: &str, timeout_seconds: Option<i32>) -> (r: String)
    ensures
        r@ == "/containers/"@ + percent_encoded(id.spec_bytes()) + "/stop?t="@ + decimal(
            stop_grace(timeout_seconds) as nat,
        ),
{
    let t: i32 = match timeout_seconds {
        Some(t) => if t >= 0 {
            t
        } else {
            30
        },
        None => 30,
    };
    let mut path = String::from_str("/containers/");
    let encoded = percent_encode_path_segment(id);
    path.append(encoded.as_str());
    path.append("/stop?t=");
    push_decimal(&mut path, t as u128);
    path
}

/// The text of a boolean in a query.
pub open spec fn bool_text(b: bool) -> Seq<char> {
    if b {
        "true"@
    } else {
        "false"@
    }
}

/// `/containers/{id}?force={force}`.
pub fn remove_path(id: &str, force: bool) -> (r: String)
    ensures
        r@ == "/containers/"@ + percent_encoded(id.spec_bytes()) + "?force="@ + bool_text(force),
{
    let mut path = String::from_str("/containers/");
    let encoded = percent_encode_path_segment(id);
    path.append(encoded.as_str());
    path.append("?force=");
    if force {
        path.append("true");
    } else {
        path.append("false");
    }
    path
}

/// The query of a creation request: `name` and `platform`, each where
/// given, joined by `&` after a `?`; nothing where neither is.
pub open spec fn create_query(name: Option<Seq<u8>>, platform: Option<Seq<u8>>) -> Seq<char> {
    match (name, platform) {
        (None, None) => Seq::empty(),
        (Some(n), None) => "?name="@ + percent_encoded(n),
        (None, Some(p)) => "?platform="@ + percent_encoded(p),
        (Some(n), Some(p)) => "?name="@ + percent_encoded(n) + "&platform="@ + percent_encoded(p),
    }
}

/// The bytes of an optional text.
pub open spec fn opt_bytes(s: Option<&str>) -> Option<Seq<u8>> {
    match s {
        Some(t) => Some(t.spec_bytes()),
        None => None,
    }
}

/// `/containers/create`, with the container's name and platform in the
/// query where given.
pub fn create_container_path(name: Option<&str>, platform: Option<&str>) -> (r: String)
    ensures
        r@ == "/containers/create"@ + create_query(opt_bytes(name), opt_bytes(platform)),
{
    let mut path = String::from_str("/containers/create");
    match name {
        Some(n) => {
            path.append("?name=");
            let e = percent_encode_component(n);
            path.append(e.as_str());
        },
        None => {},
    }
    match platform {
        Some(p) => {
            if name.is_some() {
                path.append("&platform=");
            } else {
                path.append("?platform=");
            }
            let e = percent_encode_component(p);
            path.append(e.as_str());
        },
        None => {},
    }
    path
}

/// `/images/create?fromImage={image}&tag={tag}`, with `&platform=..` where
/// a platform is given; image and tag as `split_pull_reference` parts the
/// descriptor.
pub fn pull_image_path(descriptor: &str, platform: Option<&str>) -> (r: String)
    ensures
        r@ == "/images/create?fromImage="@ + percent_encoded(pull_reference(descriptor.spec_bytes()).0)
            + "&tag="@ + percent_encoded(pull_reference(descriptor.spec_bytes()).1) + match platform {
            Some(p) => "&platform="@ + percent_encoded(p.spec_bytes()),
            None => Seq::empty(),
        },
{
    let (image, tag) = split_pull_reference(descriptor);
    let mut path = String::from_str("/images/create?fromImage=");
    let e = percent_encode_component(image);
    path.append(e.as_str());
    path.append("&tag=");
    let t = percent_encode_component(tag);
    path.append(t.as_str());
    match platform {
        Some(p) => {
            path.append("&platform=");
            let q = percent_encode_component(p);
            path.append(q.as_str());
        },
        None => {},
    }
    path
}

/// `"<lead><status>"` as a client error.
fn status_error(lead: &str, status: u16) -> (r: Error)
    ensures
        r matches Error::Client(ClientError::Other(m)) && m@ == lead@ + decimal(status as nat),
{
    let mut m = String::from_str(lead);
    push_decimal(&mut m, status as u128);
    Error::Client(ClientError::Other(m))
}

/// Whether a stop or removal answered with `status` is done: also where
/// the container is already gone (404).
pub open spec fn gone_is_done(status: u16) -> bool {
    status < 400 || status == 404
}

/// Whether a pause or unpause answered with `status` is done: also where
/// nothing changed (304) or the container is gone (404).
pub open spec fn unchanged_is_done(status: u16) -> bool {
    status < 400 || status == 304 || status == 404
}

/// The outcome of a stop request.
pub fn check_stop_status(status: u16) -> (r: Result<(), Error>)
    ensures
        gone_is_done(status) ==> r is Ok,
        !gone_is_done(status) ==> (r matches Err(Error::Client(ClientError::Other(m))) && m@
            == "failed to stop container: "@ + decimal(status as nat)),
{
    if status == 404 || status < 400 {
        Ok(())
    } else {
        Err(status_error("failed to stop container: ", status))
    }
}

/// The outcome of a removal request.
pub fn check_remove_status(status: u16) -> (r: Result<(), Error>)
    ensures
        gone_is_done(status) ==> r is Ok,
        !gone_is_done(status) ==> (r matches Err(Error::Client(ClientError::Other(m))) && m@
            == "failed to remove container: "@ + decimal(status as nat)),
{
    if status == 404 || status < 400 {
        Ok(())
    } else {
        Err(status_error("failed to remove container: ", status))
    }
}

/// The outcome of a pause request.
pub fn check_pause_status(status: u16) -> (r: Result<(), Error>)
    ensures
        unchanged_is_done(status) ==> r is Ok,
        !unchanged_is_done(status) ==> (r matches Err(Error::Client(ClientError::Other(m))) && m@
            == "failed to pause container: "@ + decimal(status as nat)),
{
    if status == 304 || status == 404 || status < 400 {
        Ok(())
    } else {
        Err(status_error("failed to pause container: ", status))
    }
}

/// The outcome of an unpause request.
pub fn check_unpause_status(status: u16) -> (r: Result<(), Error>)
    ensures
        unchanged_is_done(status) ==> r is Ok,
        !unchanged_is_done(status) ==> (r matches Err(Error::Client(ClientError::Other(m))) && m@
            == "failed to unpause container: "@ + decimal(status as nat)),
{
    if status == 304 || status == 404 || status < 400 {
        Ok(())
    } else {
        Err(status_error("failed to unpause container: ", status))
    }
}

/// What a first look-up of an image leads to.
#[derive(Debug, Clone, Copy, PartialEq, Eq, Structural)]
pub enum ImageLookup {
    /// The image is there.
    Present,
    /// The image is missing: pull it, then look it up again.
    Pull,
}

/// The step after a first look-up of image `descriptor` answered `status`:
/// 200 means present, 404 means pull, and anything else fails.
pub fn image_lookup_step(descriptor: &str, status: u16) -> (r: Result<ImageLookup, Error>)
    ensures
        status == 200 ==> r == Ok::<ImageLookup, Error>(ImageLookup::Present),
        status == 404 ==> r == Ok::<ImageLookup, Error>(ImageLookup::Pull),
        status != 200 && status != 404 ==> (r matches Err(Error::Client(ClientError::Other(m)))
            && m@ == "failed to resolve image "@ + descriptor@ + ": "@ + decimal(status as nat)),
{
    if status == 200 {
        Ok(ImageLookup::Present)
    } else if status == 404 {
        Ok(ImageLookup::Pull)
    } else {
        let mut m = String::from_str("failed to resolve image ");
        m.append(descriptor);
        m.append(": ");
        push_decimal(&mut m, status as u128);
        Err(Error::Client(ClientError::Other(m)))
    }
}

/// The outcome of the look-up of image `descriptor` after a pull: the
/// descriptor where it answered 200, else the image is not found.
pub fn image_lookup_after_pull(descriptor: &str, status: u16) -> (r: Result<String, Error>)
    ensures
        status == 200 ==> (r matches Ok(s) && s@ == descriptor@),
        status != 200 ==> (r matches Err(Error::Client(ClientError::ImageNotFound(d))) && d@
            == descriptor@),
{
    if status == 200 {
        Ok(String::from_str(descriptor))
    } else {
        Err(Error::Client(ClientError::ImageNotFound(String::from_str(descriptor))))
    }
}

/// The outcome of a pull of image `descriptor` answered with `status`.
pub fn check_pull_status(descriptor: &str, status: u16) -> (r: Result<(), Error>)
    ensures
        status < 400 ==> r is Ok,
        status >= 400 ==> (r matches Err(Error::Client(ClientError::Other(m))) && m@
            == "failed to pull image "@ + descriptor@ + ": "@ + decimal(status as nat)),
{
    if status >= 400 {
        let mut m = String::from_str("failed to pull image ");
        m.append(descriptor);
        m.append(": ");
        push_decimal(&mut m, status as u128);
        Err(Error::Client(ClientError::Other(m)))
    } else {
        Ok(())
    }
}

/// The error of a pull of image `descriptor` whose progress stream could
/// not be received: a client error that tells which image and why.
pub fn pull_receive_error(descriptor: &str, cause: &Error) -> (r: Error)
    ensures
        r matches Error::Client(ClientError::Other(m)) && {
            let p = "failed to receive pull progress for image "@ + descriptor@ + ": "@;
            &&& p.len() <= m@.len()
            &&& m@.take(p.len() as int) == p
            &&& cause.message_fits(m@.skip(p.len() as int))
        },
{
    let mut m = String::from_str("failed to receive pull progress for image ");
    m.append(descriptor);
    m.append(": ");
    let ghost p = m@;
    let t = cause.to_string();
    m.append(t.as_str());
    proof {
        assert(m@.take(p.len() as int) =~= p);
        assert(m@.skip(p.len() as int) =~= t@);
    }
    Error::Client(ClientError::Other(m))
}

/// The id a container creation response gives (its `Id`).
pub fn parse_container_id(body: Option<&[u8]>) -> (r: Result<String, Error>)
    ensures
        created_id_outcome(
            match body {
                Some(b) => Some(b@),
                None => None,
            },
            "empty response body"@,
            r,
        ),
{
    parse_created_id(body, "empty response body")
}

/// The exit code a wait response gives (its `StatusCode`), or the error.
pub fn parse_wait_status_code(body: Option<&[u8]>) -> (r: Result<i64, Error>)
    ensures
        match body {
            None => r matches Err(Error::Client(ClientError::Other(m))) && m@
                == "empty wait response body"@,
            Some(b) => if !valid_utf8(b@) {
                r matches Err(Error::Client(ClientError::Json(m))) && m@ == utf8_error_text(b@)
            } else {
                match json_syntax(decode_utf8(b@)) {
                    Err(e) => r matches Err(Error::Client(ClientError::Json(m))) && m@ == e,
                    Ok(()) => match json_i64_lookup(decode_utf8(b@), seq!["StatusCode"@]) {
                        Err(e) => r matches Err(Error::Client(ClientError::Json(m))) && m@ == e,
                        Ok(code) => r == Ok::<i64, Error>(code),
                    },
                }
            },
        },
{
    let b = match body {
        Some(b) => b,
        None => {
            return Err(Error::Client(ClientError::Other(String::from_str("empty wait response body"))));
        },
    };
    let text = match utf8_str_or_error(b) {
        Ok(t) => t,
        Err(e) => {
            return Err(Error::Client(ClientError::Json(e)));
        },
    };
    proof {
        vstd::utf8::encode_utf8_decode_utf8(text@);
    }
    match json_check(text) {
        Ok(()) => {},
        Err(e) => {
            return Err(Error::Client(ClientError::Json(e)));
        },
    }
    let path: [&str; 1] = ["StatusCode"];
    proof {
        assert(path_views(path@) =~= seq!["StatusCode"@]);
    }
    match json_i64_path(text, path.as_slice()) {
        Ok(code) => Ok(code),
        Err(e) => Err(Error::Client(ClientError::Json(e))),
    }
}

/// `/containers/{id}/archive?path={path}`, with `&copyUIDGID=true` for an
/// upload (which keeps the archive's owners).
pub fn archive_path(id: &str, path: &str, upload: bool) -> (r: String)
    ensures
        r@ == "/containers/"@ + percent_encoded(id.spec_bytes()) + "/archive?path="@
            + percent_encoded(path.spec_bytes()) + if upload {
            "&copyUIDGID=true"@
        } else {
            Seq::empty()
        },
{
    let mut out = String::from_str("/containers/");
    let e = percent_encode_path_segment(id);
    out.append(e.as_str());
    out.append("/archive?path=");
    let p = percent_encode_component(path);
    out.append(p.as_str());
    if upload {
        out.append("&copyUIDGID=true");
    }
    out
}

/// The outcome of an upload into container `id`: 404 means the container
/// is missing.
pub fn check_copy_to_status(id: &str, status: u16) -> (r: Result<(), Error>)
    ensures
        status < 400 ==> r is Ok,
        status == 404 ==> (r matches Err(Error::Client(ClientError::ContainerNotFound(i))) && i@
            == id@),
        status >= 400 && status != 404 ==> (r matches Err(Error::Client(ClientError::Other(m)))
            && m@ == "failed to copy to container: "@ + decimal(status as nat)),
{
    if status == 404 {
        Err(Error::Client(ClientError::ContainerNotFound(String::from_str(id))))
    } else if status >= 400 {
        Err(status_error("failed to copy to container: ", status))
    } else {
        Ok(())
    }
}

/// The outcome of a download of `path` out of container `id`: a 404 is
/// told apart by the daemon's message (`classify_archive_404`).
pub fn check_copy_from_status(id: &str, path: &str, status: u16, body: &[u8]) -> (r: Result<(), Error>)
    ensures
        status < 400 ==> r is Ok,
        status == 404 ==> (names_missing_path(daemon_message(body@)) ==> (r matches Err(
            Error::Client(ClientError::ContainerPathNotFound(p)),
        ) && p@ == path@)),
        status == 404 ==> (!names_missing_path(daemon_message(body@)) ==> (r matches Err(
            Error::Client(ClientError::ContainerNotFound(i)),
        ) && i@ == id@)),
        status >= 400 && status != 404 ==> (r matches Err(Error::Client(ClientError::Other(m)))
            && m@ == "failed to copy from container: "@ + decimal(status as nat)),
{
    if status == 404 {
        Err(Error::Client(classify_archive_404(id, path, body)))
    } else if status >= 400 {
        Err(status_error("failed to copy from container: ", status))
    } else {
        Ok(())
    }
}

/// `/containers/{id}/logs?stdout=1&stderr=1&follow={follow}&tail=all`.
pub fn logs_path(id: &str, follow: bool) -> (r: String)
    ensures
        r@ == "/containers/"@ + percent_encoded(id.spec_bytes()) + "/logs?stdout=1&stderr=1&follow="@
            + bool_text(follow) + "&tail=all"@,
{
    let mut out = String::from_str("/containers/");
    let e = percent_encode_path_segment(id);
    out.append(e.as_str());
    out.append("/logs?stdout=1&stderr=1&follow=");
    if follow {
        out.append("true");
    } else {
        out.append("false");
    }
    out.append("&tail=all");
    out
}

} // verus!
