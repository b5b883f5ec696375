//! Registry credentials from a Docker `config.json`: which `auths` entry an
//! image uses, and the `X-Registry-Auth` header value built from it.

use vstd::prelude::*;
use vstd::string::*;
use vstd::utf8::{valid_utf8, decode_utf8, encode_utf8};
use crate::json::{escape_json_value, json_string_at, json_string_member, path_views};
use crate::text::{
    json_escape_chars, before_first, prefix_before, contains_char, str_eq, find_first,
    index_of_first, lemma_find_first, split_around, utf8_str, utf8_text,
};

verus! {

broadcast use vstd::string::group_string_axioms;

/// The `auths` key of Docker Hub, as `docker login` writes it.
pub const DOCKER_HUB_AUTH_KEY: &'static str = "https://index.docker.io/v1/";

/// The `auths` key for an image reference: the registry host when the
/// first path component names one (it holds `.` or `:`, or is
/// `localhost`), with `docker.io` and `index.docker.io` meaning Docker Hub;
/// Docker Hub otherwise.
pub open spec fn auths_key_text(d: Seq<char>) -> Seq<char> {
    let first = before_first(d, '/');
    if d.contains('/') && (first.contains('.') || first.contains(':') || first == "localhost"@) {
        if first == "docker.io"@ || first == "index.docker.io"@ {
            DOCKER_HUB_AUTH_KEY@
        } else {
            first
        }
    } else {
        DOCKER_HUB_AUTH_KEY@
    }
}

/// The `auths` key for `descriptor`.
pub fn auths_key(descriptor: &str) -> (r: String)
    ensures
        r@ == auths_key_text(descriptor@),
{
    let first = prefix_before(descriptor, '/');
    if contains_char(descriptor, '/') && (contains_char(first.as_str(), '.') || contains_char(
        first.as_str(),
        ':',
    ) || str_eq(first.as_str(), "localhost")) {
        if str_eq(first.as_str(), "docker.io") || str_eq(first.as_str(), "index.docker.io") {
            String::from_str(DOCKER_HUB_AUTH_KEY)
        } else {
            first
        }
    } else {
        String::from_str(DOCKER_HUB_AUTH_KEY)
    }
}

/// The Base64 digit of a six-bit value: `A`-`Z`, `a`-`z`, `0`-`9`, `+`,
/// `/` (the standard alphabet).
pub open spec fn base64_digit(v: nat) -> char {
    if v < 26 {
        (65 + v) as char
    } else if v < 52 {
        (97 + (v - 26)) as char
    } else if v < 62 {
        (48 + (v - 52)) as char
    } else if v == 62 {
        '+'
    } else {
        '/'
    }
}

/// The standard, padded Base64 encoding of `bytes`
/// (`base64ct::Base64::encode_string`): each group of three bytes gives
/// four digits; a last group of one or two bytes gives two or three digits
/// and `=` padding to four.
pub open spec fn base64_encoding(bytes: Seq<u8>) -> Seq<char>
    decreases bytes.len(),
{
    if bytes.len() == 0 {
        Seq::empty()
    } else if bytes.len() == 1 {
        let b0 = bytes[0] as nat;
        seq![base64_digit(b0 / 4), base64_digit((b0 % 4) * 16), '=', '=']
    } else if bytes.len() == 2 {
        let b0 = bytes[0] as nat;
        let b1 = bytes[1] as nat;
        seq![
            base64_digit(b0 / 4),
            base64_digit((b0 % 4) * 16 + b1 / 16),
            base64_digit((b1 % 16) * 4),
            '=',
        ]
    } else {
        let b0 = bytes[0] as nat;
        let b1 = bytes[1] as nat;
        let b2 = bytes[2] as nat;
        seq![
            base64_digit(b0 / 4),
            base64_digit((b0 % 4) * 16 + b1 / 16),
            base64_digit((b1 % 16) * 4 + b2 / 64),
            base64_digit(b2 % 64),
        ] + base64_encoding(bytes.skip(3))
    }
}

/// The bytes of a standard, padded Base64 text, if it is one
/// (`base64ct::Base64::decode_vec`).
pub uninterp spec fn base64_decoding(text: Seq<char>) -> Option<Seq<u8>>;

/// `base64ct::Base64::encode_string`, which panics beyond `usize::MAX / 4`
/// input bytes.
#[verifier::external_body]
fn base64_encode(bytes: &[u8]) -> (r: String)
    requires
        bytes@.len() <= usize::MAX / 4,
    ensures
        r@ == base64_encoding(bytes@),
{
    <base64ct::Base64 as base64ct::Encoding>::encode_string(bytes)
}

/// `base64ct::Base64::decode_vec`: the decoded bytes, or `None` where the
/// text is not valid padded Base64.
#[verifier::external_body]
fn base64_decode(text: &str) -> (r: Option<Vec<u8>>)
    ensures
        match base64_decoding(text@) {
            Some(b) => r matches Some(v) && v@ == b,
            None => r is None,
        },
{
    <base64ct::Base64 as base64ct::Encoding>::decode_vec(text).ok()
}

/// The header JSON for an identity token.
pub open spec fn token_header(token: Seq<char>) -> Seq<char> {
    "{\"identitytoken\":\""@ + json_escape_chars(token) + "\"}"@
}

/// The header JSON for a user name, password and server address.
pub open spec fn credentials_header(user: Seq<char>, password: Seq<char>, server: Seq<char>) -> Seq<
    char,
> {
    "{\"username\":\""@ + json_escape_chars(user) + "\",\"password\":\""@ + json_escape_chars(
        password,
    ) + "\",\"serveraddress\":\""@ + json_escape_chars(server) + "\"}"@
}

/// The header value for the JSON text `h`: its Base64 (none beyond what
/// the encoder takes).
pub open spec fn encoded_header(h: Seq<char>) -> Option<Seq<char>> {
    if encode_utf8(h).len() <= usize::MAX / 4 {
        Some(base64_encoding(encode_utf8(h)))
    } else {
        None
    }
}

/// The credentials header from the decoded `auth` field `user:password`.
pub open spec fn auth_field_header(decoded: Seq<u8>, server: Seq<char>) -> Option<Seq<char>> {
    if !valid_utf8(decoded) {
        None
    } else {
        match find_first(decoded, 58) {
            None => None,
            Some(i) => encoded_header(
                credentials_header(
                    decode_utf8(decoded.take(i)),
                    decode_utf8(decoded.subrange(i + 1, decoded.len() as int)),
                    server,
                ),
            ),
        }
    }
}

/// The `X-Registry-Auth` value for the `auths` entry `key` of the config
/// text: a non-empty `identitytoken` wins; otherwise the Base64 `auth`
/// field `user:password`.
pub open spec fn auth_entry(config: Seq<char>, key: Seq<char>) -> Option<Seq<char>> {
    let token = json_string_at(config, seq!["auths"@, key, "identitytoken"@]);
    if token is Some && token->0.len() > 0 {
        encoded_header(token_header(token->0))
    } else {
        match json_string_at(config, seq!["auths"@, key, "auth"@]) {
            None => None,
            Some(a) => if a.len() == 0 {
                None
            } else {
                match base64_decoding(a) {
                    None => None,
                    Some(d) => auth_field_header(d, key),
                }
            },
        }
    }
}

fn encode_header(h: &String) -> (r: Option<String>)
    ensures
        match encoded_header(h@) {
            Some(e) => r matches Some(s) && s@ == e,
            None => r is None,
        },
{
    let bytes = h.as_str().as_bytes();
    if bytes.len() > usize::MAX / 4 {
        return None;
    }
    Some(base64_encode(bytes))
}

/// The header for the decoded `auth` field of the entry for `key`.
pub fn header_from_auth_field(decoded: Vec<u8>, key: &str) -> (r: Option<String>)
    ensures
        match auth_field_header(decoded@, key@) {
            Some(e) => r matches Some(s) && s@ == e,
            None => r is None,
        },
{
    let ghost d = decoded@;
    let text = match utf8_text(decoded) {
        Some(t) => t,
        None => {
            return None;
        },
    };
    let bytes = text.as_str().as_bytes();
    proof {
        lemma_find_first(d, 58);
    }
    let i = match index_of_first(bytes, 58) {
        Some(i) => i,
        None => {
            return None;
        },
    };
    let (user, password) = split_around(text.as_str(), i);
    proof {
        vstd::utf8::encode_utf8_decode_utf8(user@);
        vstd::utf8::encode_utf8_decode_utf8(password@);
        assert(d.take(i as int) =~= d.subrange(0, i as int));
    }
    let mut header = String::from_str("{\"username\":\"");
    let u = escape_json_value(user);
    header.append(u.as_str());
    header.append("\",\"password\":\"");
    let p = escape_json_value(password);
    header.append(p.as_str());
    header.append("\",\"serveraddress\":\"");
    let k = escape_json_value(key);
    header.append(k.as_str());
    header.append("\"}");
    encode_header(&header)
}

/// The `X-Registry-Auth` value for the `auths` entry `key` of
/// `config_json`, or `None` when there is no usable entry.
pub fn extract_auth_entry(config_json: &str, key: &str) -> (r: Option<String>)
    ensures
        match auth_entry(config_json@, key@) {
            Some(e) => r matches Some(s) && s@ == e,
            None => r is None,
        },
{
    let token_path: [&str; 3] = ["auths", key, "identitytoken"];
    proof {
        assert(path_views(token_path@) =~= seq!["auths"@, key@, "identitytoken"@]);
    }
    match json_string_member(config_json, token_path.as_slice()) {
        Some(token) => {
            if !token.as_str().is_empty() {
                let mut header = String::from_str("{\"identitytoken\":\"");
                let t = escape_json_value(token.as_str());
                header.append(t.as_str());
                header.append("\"}");
                return encode_header(&header);
            }
        },
        None => {},
    }
    let auth_path: [&str; 3] = ["auths", key, "auth"];
    proof {
        assert(path_views(auth_path@) =~= seq!["auths"@, key@, "auth"@]);
    }
    let auth = match json_string_member(config_json, auth_path.as_slice()) {
        Some(a) => a,
        None => {
            return None;
        },
    };
    if auth.as_str().is_empty() {
        return None;
    }
    let decoded = match base64_decode(auth.as_str()) {
        Some(d) => d,
        None => {
            return None;
        },
    };
    header_from_auth_field(decoded, key)
}

/// The `X-Registry-Auth` value for `descriptor` from the loaded
/// `config.json` text, if there is one and it has a usable entry.
pub fn x_registry_auth(config_json: Option<&str>, descriptor: &str) -> (r: Option<String>)
    ensures
        match config_json {
            None => r is None,
            Some(c) => match auth_entry(c@, auths_key_text(descriptor@)) {
                Some(e) => r matches Some(s) && s@ == e,
                None => r is None,
            },
        },
{
    let config = match config_json {
        Some(c) => c,
        None => {
            return None;
        },
    };
    let key = auths_key(descriptor);
    extract_auth_entry(config, key.as_str())
}

} // verus!
