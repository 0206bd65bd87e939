//! Watches: what a workspace asks to be watched, and the rules a watch must
//! meet before it is stored or fetched.
use vstd::prelude::*;
use vstd::utf8::encode_utf8;
use crate::text::{chars_of, is_whitespace, push_decimal, push_str, string_of, trim, trim_ws, decimal, same_chars};
use crate::net::{IpAddress, addresses_are_public, all_public};

verus! {

/// A watch as a workspace submits it.
#[derive(Clone, Debug)]
pub struct NewWatch {
    pub vendor: String,
    pub url: String,
    pub keywords: String,
    pub owner: String,
    pub version: String,
    pub command: String,
}

/// An error answer: an HTTP status and the message shown to the user.
#[derive(Debug)]
pub struct ApiError {
    pub status: u16,
    pub message: String,
}

pub open spec fn api_error_view(e: ApiError) -> (u16, Seq<char>) {
    (e.status, e.message@)
}

/// Byte length of a string in UTF-8 (`str::len`).
pub open spec fn byte_len(s: Seq<char>) -> nat {
    encode_utf8(s).len()
}

pub open spec fn missing_fields_message() -> Seq<char> {
    "Provide a vendor, public URL, keywords, owner, and check command."@
}

pub open spec fn too_long_message(name: Seq<char>, limit: nat) -> Seq<char> {
    "The "@ + name + " is too long. Keep it to "@ + decimal(limit) + " characters or fewer."@
}

/// The field rules: vendor, keywords, owner and check command must not be
/// blank; then each field must keep within its byte limit, checked in the
/// order vendor, URL, keywords, owner, version, command.
pub open spec fn field_check(w: NewWatch) -> Result<(), (u16, Seq<char>)> {
    if trim_ws(w.vendor@).len() == 0 || trim_ws(w.keywords@).len() == 0 || trim_ws(w.owner@).len()
        == 0 || trim_ws(w.command@).len() == 0 {
        Err((400u16, missing_fields_message()))
    } else if byte_len(w.vendor@) > 120 {
        Err((400u16, too_long_message("vendor"@, 120)))
    } else if byte_len(w.url@) > 2048 {
        Err((400u16, too_long_message("public URL"@, 2048)))
    } else if byte_len(w.keywords@) > 500 {
        Err((400u16, too_long_message("keywords"@, 500)))
    } else if byte_len(w.owner@) > 160 {
        Err((400u16, too_long_message("owner"@, 160)))
    } else if byte_len(w.version@) > 120 {
        Err((400u16, too_long_message("version"@, 120)))
    } else if byte_len(w.command@) > 500 {
        Err((400u16, too_long_message("check command"@, 500)))
    } else {
        Ok(())
    }
}

/// A watch whose vendor, keywords, owner or check command is blank (empty
/// once trimmed) is refused with 400 and the missing-fields message,
/// whatever its other fields hold.
pub proof fn law_blank_fields_refused(w: NewWatch)
    ensures
        trim_ws(w.vendor@).len() == 0 || trim_ws(w.keywords@).len() == 0 || trim_ws(w.owner@).len() == 0
            || trim_ws(w.command@).len() == 0 ==> field_check(w) == Err::<(), (u16, Seq<char>)>(
            (400u16, "Provide a vendor, public URL, keywords, owner, and check command."@),
        ),
{
}

/// A watch with its required fields present passes the field rules exactly
/// when every field keeps within its limit in UTF-8 bytes: vendor 120, URL
/// 2048, keywords 500, owner 160, version 120, check command 500. A longer
/// field is refused with 400 and a message naming the first such field, in
/// that order, and its limit.
pub proof fn law_field_limits(w: NewWatch)
    requires
        trim_ws(w.vendor@).len() > 0,
        trim_ws(w.keywords@).len() > 0,
        trim_ws(w.owner@).len() > 0,
        trim_ws(w.command@).len() > 0,
    ensures
        field_check(w) is Ok <==> (encode_utf8(w.vendor@).len() <= 120 && encode_utf8(w.url@).len() <= 2048
            && encode_utf8(w.keywords@).len() <= 500 && encode_utf8(w.owner@).len() <= 160 && encode_utf8(
            w.version@,
        ).len() <= 120 && encode_utf8(w.command@).len() <= 500),
        encode_utf8(w.vendor@).len() > 120 ==> field_check(w) == Err::<(), (u16, Seq<char>)>(
            (400u16, "The vendor is too long. Keep it to 120 characters or fewer."@),
        ),
        encode_utf8(w.vendor@).len() <= 120 && encode_utf8(w.url@).len() > 2048 ==> field_check(w) == Err::<
            (),
            (u16, Seq<char>),
        >((400u16, "The public URL is too long. Keep it to 2048 characters or fewer."@)),
        encode_utf8(w.vendor@).len() <= 120 && encode_utf8(w.url@).len() <= 2048 && encode_utf8(w.keywords@).len()
            > 500 ==> field_check(w) == Err::<(), (u16, Seq<char>)>(
            (400u16, "The keywords is too long. Keep it to 500 characters or fewer."@),
        ),
        encode_utf8(w.vendor@).len() <= 120 && encode_utf8(w.url@).len() <= 2048 && encode_utf8(w.keywords@).len()
            <= 500 && encode_utf8(w.owner@).len() > 160 ==> field_check(w) == Err::<(), (u16, Seq<char>)>(
            (400u16, "The owner is too long. Keep it to 160 characters or fewer."@),
        ),
        encode_utf8(w.vendor@).len() <= 120 && encode_utf8(w.url@).len() <= 2048 && encode_utf8(w.keywords@).len()
            <= 500 && encode_utf8(w.owner@).len() <= 160 && encode_utf8(w.version@).len() > 120 ==> field_check(w)
            == Err::<(), (u16, Seq<char>)>((400u16, "The version is too long. Keep it to 120 characters or fewer."@)),
        encode_utf8(w.vendor@).len() <= 120 && encode_utf8(w.url@).len() <= 2048 && encode_utf8(w.keywords@).len()
            <= 500 && encode_utf8(w.owner@).len() <= 160 && encode_utf8(w.version@).len() <= 120 && encode_utf8(
            w.command@,
        ).len() > 500 ==> field_check(w) == Err::<(), (u16, Seq<char>)>(
            (400u16, "The check command is too long. Keep it to 500 characters or fewer."@),
        ),
{
    reveal_with_fuel(decimal, 5);
    reveal_strlit("The ");
    reveal_strlit(" is too long. Keep it to ");
    reveal_strlit(" characters or fewer.");
    reveal_strlit("vendor");
    reveal_strlit("public URL");
    reveal_strlit("keywords");
    reveal_strlit("owner");
    reveal_strlit("version");
    reveal_strlit("check command");
    reveal_strlit("The vendor is too long. Keep it to 120 characters or fewer.");
    reveal_strlit("The public URL is too long. Keep it to 2048 characters or fewer.");
    reveal_strlit("The keywords is too long. Keep it to 500 characters or fewer.");
    reveal_strlit("The owner is too long. Keep it to 160 characters or fewer.");
    reveal_strlit("The version is too long. Keep it to 120 characters or fewer.");
    reveal_strlit("The check command is too long. Keep it to 500 characters or fewer.");
    assert(decimal(120) =~= seq!['1', '2', '0']);
    assert(decimal(2048) =~= seq!['2', '0', '4', '8']);
    assert(decimal(500) =~= seq!['5', '0', '0']);
    assert(decimal(160) =~= seq!['1', '6', '0']);
    assert(too_long_message("vendor"@, 120) =~= "The vendor is too long. Keep it to 120 characters or fewer."@);
    assert(too_long_message("public URL"@, 2048) =~= "The public URL is too long. Keep it to 2048 characters or fewer."@);
    assert(too_long_message("keywords"@, 500) =~= "The keywords is too long. Keep it to 500 characters or fewer."@);
    assert(too_long_message("owner"@, 160) =~= "The owner is too long. Keep it to 160 characters or fewer."@);
    assert(too_long_message("version"@, 120) =~= "The version is too long. Keep it to 120 characters or fewer."@);
    assert(too_long_message("check command"@, 500) =~= "The check command is too long. Keep it to 500 characters or fewer."@);
}

fn blank(s: &String) -> (r: bool)
    ensures
        r == (trim_ws(s@).len() == 0),
{
    trim(&chars_of(s.as_str())).len() == 0
}

fn too_long(name: &str, limit: u64) -> (r: ApiError)
    ensures
        r.status == 400,
        r.message@ == too_long_message(name@, limit as nat),
{
    let mut m: Vec<char> = Vec::new();
    push_str(&mut m, "The ");
    push_str(&mut m, name);
    push_str(&mut m, " is too long. Keep it to ");
    push_decimal(&mut m, limit);
    push_str(&mut m, " characters or fewer.");
    ApiError { status: 400, message: string_of(&m) }
}

pub open spec fn unit_result_view(r: Result<(), ApiError>) -> Result<(), (u16, Seq<char>)> {
    match r {
        Ok(()) => Ok(()),
        Err(e) => Err(api_error_view(e)),
    }
}

/// Checks a watch's fields (the part of `validate_watch` before its address
/// is examined).
pub fn validate_watch_fields(watch: &NewWatch) -> (r: Result<(), ApiError>)
    ensures
        unit_result_view(r) == field_check(*watch),
{
    if blank(&watch.vendor) || blank(&watch.keywords) || blank(&watch.owner) || blank(&watch.command) {
        return Err(ApiError { status: 400, message: String::from_str("Provide a vendor, public URL, keywords, owner, and check command.") });
    }
    if watch.vendor.as_str().as_bytes().len() > 120 {
        return Err(too_long("vendor", 120));
    }
    if watch.url.as_str().as_bytes().len() > 2048 {
        return Err(too_long("public URL", 2048));
    }
    if watch.keywords.as_str().as_bytes().len() > 500 {
        return Err(too_long("keywords", 500));
    }
    if watch.owner.as_str().as_bytes().len() > 160 {
        return Err(too_long("owner", 160));
    }
    if watch.version.as_str().as_bytes().len() > 120 {
        return Err(too_long("version", 120));
    }
    if watch.command.as_str().as_bytes().len() > 500 {
        return Err(too_long("check command", 500));
    }
    Ok(())
}

/// A hosted import holds one to three watches.
pub fn validate_watch_import_count(count: usize) -> (r: Result<(), ApiError>)
    ensures
        unit_result_view(r) == if count == 0 || count > 3 {
            Err((400u16, "Import one to three watches into the hosted workspace."@))
        } else {
            Ok(())
        },
{
    if count == 0 || count > 3 {
        return Err(ApiError { status: 400, message: String::from_str("Import one to three watches into the hosted workspace.") });
    }
    Ok(())
}

/// The parts of a URL that the address rules look at.
#[derive(Debug)]
pub struct UrlParts {
    pub scheme: String,
    pub username: String,
    pub password: Option<String>,
    pub host: Option<String>,
    pub port: Option<u16>,
}

pub ghost struct UrlView {
    pub scheme: Seq<char>,
    pub username: Seq<char>,
    pub password: Option<Seq<char>>,
    pub host: Option<Seq<char>>,
    pub port: Option<u16>,
}

pub open spec fn url_parts_view(p: UrlParts) -> UrlView {
    UrlView {
        scheme: p.scheme@,
        username: p.username@,
        password: crate::notices::opt_str_view(p.password),
        host: crate::notices::opt_str_view(p.host),
        port: p.port,
    }
}

/// What `url::Url::parse` makes of `value`: `None` when it is not a URL.
pub uninterp spec fn url_components(value: Seq<char>) -> Option<UrlView>;

/// Trusted: `url::Url::parse(value)` and, on success, its `scheme()`,
/// `username()`, `password()`, `host_str()` and `port_or_known_default()`,
/// copied out. The contract names the result.
#[verifier::external_body]
fn parse_url_parts(value: &str) -> (r: Option<UrlParts>)
    ensures
        match r {
            Some(p) => url_components(value@) == Some(url_parts_view(p)),
            None => url_components(value@) is None,
        },
{
    url::Url::parse(value).ok().map(|u| UrlParts {
        scheme: u.scheme().to_owned(),
        username: u.username().to_owned(),
        password: u.password().map(str::to_owned),
        host: u.host_str().map(str::to_owned),
        port: u.port_or_known_default(),
    })
}

/// Where a feed lives: the host to resolve and the port to connect to.
#[derive(Debug)]
pub struct UrlTarget {
    pub host: String,
    pub port: u16,
}

/// The address rules on a parsed URL (`None` when it did not parse):
/// `http` or `https`, without user name or password, with a host and a
/// port.
pub open spec fn target_from_components(parts: Option<UrlView>) -> Result<(Seq<char>, u16), Seq<char>> {
    match parts {
        None => Err("Enter a complete public http or https URL."@),
        Some(u) => if !(u.scheme == "http"@ || u.scheme == "https"@) || u.username.len() > 0
            || u.password is Some {
            Err("Enter a complete public http or https URL without credentials."@)
        } else {
            match u.host {
                None => Err("The feed URL has no host."@),
                Some(h) => match u.port {
                    None => Err("The feed URL has no usable port."@),
                    Some(p) => Ok((h, p)),
                },
            }
        },
    }
}

/// The address rules, before the host is resolved, on the URL text.
pub open spec fn url_target_check(value: Seq<char>) -> Result<(Seq<char>, u16), Seq<char>> {
    target_from_components(url_components(value))
}

pub open spec fn target_view(r: Result<UrlTarget, String>) -> Result<(Seq<char>, u16), Seq<char>> {
    match r {
        Ok(t) => Ok((t.host@, t.port)),
        Err(e) => Err(e@),
    }
}

fn is_lit(s: &String, lit: &str) -> (r: bool)
    ensures
        r == (s@ == lit@),
{
    same_chars(&chars_of(s.as_str()), &chars_of(lit))
}

/// The address rules applied to a parsed URL.
pub fn url_target_of(parts: Option<UrlParts>) -> (r: Result<UrlTarget, String>)
    ensures
        target_view(r) == target_from_components(
            match parts {
                Some(p) => Some(url_parts_view(p)),
                None => None,
            },
        ),
{
    let u = match parts {
        None => return Err(String::from_str("Enter a complete public http or https URL.")),
        Some(u) => u,
    };
    if !(is_lit(&u.scheme, "http") || is_lit(&u.scheme, "https")) || !u.username.as_str().is_empty()
        || u.password.is_some() {
        return Err(String::from_str("Enter a complete public http or https URL without credentials."));
    }
    match u.host {
        None => Err(String::from_str("The feed URL has no host.")),
        Some(h) => match u.port {
            None => Err(String::from_str("The feed URL has no usable port.")),
            Some(p) => Ok(UrlTarget { host: h, port: p }),
        },
    }
}

/// The first half of `resolve_public_url`: the checks made before the host
/// is looked up.
pub fn public_url_target(value: &str) -> (r: Result<UrlTarget, String>)
    ensures
        target_view(r) == url_target_check(value@),
{
    url_target_of(parse_url_parts(value))
}

/// The second half of `resolve_public_url`: what the host resolved to
/// (`None` when the lookup failed) must be public addresses.
pub open spec fn resolution_check(addresses: Option<Seq<IpAddress>>) -> Result<(), Seq<char>> {
    match addresses {
        None => Err("The feed host could not be resolved."@),
        Some(a) => if all_public(a) {
            Ok(())
        } else {
            Err("Use a public internet address; private, loopback, and link-local networks are blocked."@)
        },
    }
}

pub open spec fn string_unit_view(r: Result<(), String>) -> Result<(), Seq<char>> {
    match r {
        Ok(()) => Ok(()),
        Err(e) => Err(e@),
    }
}

pub fn check_resolved(addresses: &Option<Vec<IpAddress>>) -> (r: Result<(), String>)
    ensures
        string_unit_view(r) == resolution_check(
            match addresses {
                Some(a) => Some(a@),
                None => None,
            },
        ),
{
    match addresses {
        None => Err(String::from_str("The feed host could not be resolved.")),
        Some(a) => if addresses_are_public(a) {
            Ok(())
        } else {
            Err(String::from_str("Use a public internet address; private, loopback, and link-local networks are blocked."))
        },
    }
}

/// `validate_watch` before the lookup: the field rules, then the address
/// rules, each failure answered with 400.
pub fn validate_watch_target(watch: &NewWatch) -> (r: Result<UrlTarget, ApiError>)
    ensures
        match r {
            Ok(t) => field_check(*watch) is Ok && url_target_check(watch.url@) == Ok::<(Seq<char>, u16), Seq<char>>((t.host@, t.port)),
            Err(e) => match field_check(*watch) {
                Err(fe) => api_error_view(e) == fe,
                Ok(()) => url_target_check(watch.url@) matches Err(m) && api_error_view(e) == (400u16, m),
            },
        },
{
    validate_watch_fields(watch)?;
    match public_url_target(watch.url.as_str()) {
        Ok(t) => Ok(t),
        Err(m) => Err(ApiError { status: 400, message: m }),
    }
}

/// `validate_watch` after the lookup.
pub fn validate_watch_resolution(addresses: &Option<Vec<IpAddress>>) -> (r: Result<(), ApiError>)
    ensures
        match r {
            Ok(()) => resolution_check(match addresses { Some(a) => Some(a@), None => None }) is Ok,
            Err(e) => resolution_check(match addresses { Some(a) => Some(a@), None => None }) matches Err(m) && api_error_view(e) == (400u16, m),
        },
{
    match check_resolved(addresses) {
        Ok(()) => Ok(()),
        Err(m) => Err(ApiError { status: 400, message: m }),
    }
}

/// Whether a watch's URL is a web address (scheme `http` or `https`); the
/// CLI reads anything else as a local file beside its watch file.
pub fn is_web_address(url: &str) -> (r: bool)
    ensures
        r == (url_components(url@) matches Some(u) && (u.scheme == "http"@ || u.scheme == "https"@)),
{
    match parse_url_parts(url) {
        None => false,
        Some(u) => is_lit(&u.scheme, "http") || is_lit(&u.scheme, "https"),
    }
}

/// The bearer token of an `Authorization` value: after `Bearer `, at least
/// 32 bytes long.
pub open spec fn bearer_check(header: Option<Seq<char>>) -> Option<Seq<char>> {
    match header {
        Some(h) => if h.len() >= 7 && h.take(7) == "Bearer "@ && byte_len(h.skip(7)) >= 32 {
            Some(h.skip(7))
        } else {
            None
        },
        None => None,
    }
}

pub fn bearer_token(header: Option<&str>) -> (r: Result<String, ApiError>)
    ensures
        match r {
            Ok(t) => bearer_check(match header { Some(h) => Some(h@), None => None }) == Some(t@),
            Err(e) => bearer_check(match header { Some(h) => Some(h@), None => None }) is None
                && api_error_view(e) == (401u16, "Create or restore this browser workspace before using the API."@),
        },
{
    let refused = ApiError { status: 401, message: String::from_str("Create or restore this browser workspace before using the API.") };
    let h = match header {
        None => return Err(refused),
        Some(h) => chars_of(h),
    };
    let prefix = chars_of("Bearer ");
    proof {
        reveal_strlit("Bearer ");
    }
    if !crate::text::starts_with(&h, &prefix) {
        return Err(refused);
    }
    let mut token: Vec<char> = Vec::new();
    let n = h.len();
    let mut i: usize = 7;
    while i < n
        invariant
            n == h.len(),
            7 <= i <= n,
            token@ == h@.subrange(7, i as int),
        decreases n - i,
    {
        token.push(h[i]);
        i += 1;
        assert(token@ =~= h@.subrange(7, i as int));
    }
    assert(token@ =~= h@.skip(7));
    let t = string_of(&token);
    if t.as_str().as_bytes().len() < 32 {
        return Err(refused);
    }
    Ok(t)
}


/// The hosted workspace holds at most three watches: an insert that the
/// quota condition stopped affects no row.
pub fn watch_limit_check(rows_affected: u64) -> (r: Result<(), ApiError>)
    ensures
        unit_result_view(r) == if rows_affected != 1 {
            Err((409u16, "This workspace already has three watches. Edit an existing watch before adding another."@))
        } else {
            Ok(())
        },
{
    if rows_affected != 1 {
        return Err(ApiError { status: 409, message: String::from_str("This workspace already has three watches. Edit an existing watch before adding another.") });
    }
    Ok(())
}

/// An update or delete of a watch must touch exactly one row of the
/// workspace.
pub fn watch_found_check(rows_affected: u64) -> (r: Result<(), ApiError>)
    ensures
        unit_result_view(r) == if rows_affected != 1 {
            Err((404u16, "That watch does not exist in this workspace."@))
        } else {
            Ok(())
        },
{
    if rows_affected != 1 {
        return Err(ApiError { status: 404, message: String::from_str("That watch does not exist in this workspace.") });
    }
    Ok(())
}

/// An acknowledgement must touch exactly one action of the workspace.
pub fn action_found_check(rows_affected: u64) -> (r: Result<(), ApiError>)
    ensures
        unit_result_view(r) == if rows_affected != 1 {
            Err((404u16, "That action does not exist in this workspace."@))
        } else {
            Ok(())
        },
{
    if rows_affected != 1 {
        return Err(ApiError { status: 404, message: String::from_str("That action does not exist in this workspace.") });
    }
    Ok(())
}

/// A well-formed token that no workspace holds.
pub fn inactive_workspace() -> (r: ApiError)
    ensures
        api_error_view(r) == (401u16, "This workspace token is not active on the server."@),
{
    ApiError { status: 401, message: String::from_str("This workspace token is not active on the server.") }
}

/// Any storage failure.
pub fn internal_error() -> (r: ApiError)
    ensures
        api_error_view(r) == (500u16, "The server could not complete that request. Try again."@),
{
    ApiError { status: 500, message: String::from_str("The server could not complete that request. Try again.") }
}


/// A parsed URL is accepted exactly when its scheme is `http` or `https`,
/// it has no user name and no password, and it has a host and a port; the
/// target is then that host and port. Text that does not parse as a URL is
/// refused as incomplete.
pub proof fn law_url_target(parts: Option<UrlView>)
    ensures
        parts is None ==> target_from_components(parts) == Err::<(Seq<char>, u16), Seq<char>>(
            "Enter a complete public http or https URL."@,
        ),
        parts matches Some(u) ==> (target_from_components(parts) is Ok <==> ((u.scheme == "http"@ || u.scheme
            == "https"@) && u.username.len() == 0 && u.password is None && u.host is Some && u.port is Some)),
        parts matches Some(u) ==> (target_from_components(parts) matches Ok(t) ==> t == (u.host->0, u.port->0)),
        parts matches Some(u) ==> (!(u.scheme == "http"@ || u.scheme == "https"@) || u.username.len() > 0
            || u.password is Some ==> target_from_components(parts) == Err::<(Seq<char>, u16), Seq<char>>(
            "Enter a complete public http or https URL without credentials."@,
        )),
{
}

/// A bearer token is what follows `Bearer ` in the `Authorization` value,
/// and it is accepted exactly when it is at least 32 bytes long in UTF-8;
/// no value, or one without that prefix, gives no token.
pub proof fn law_bearer(header: Option<Seq<char>>, token: Seq<char>)
    ensures
        header is None ==> bearer_check(header) is None,
        bearer_check(header) matches Some(t) ==> header == Some("Bearer "@ + t) && encode_utf8(t).len() >= 32,
        header == Some("Bearer "@ + token) && encode_utf8(token).len() >= 32 ==> bearer_check(header) == Some(token),
{
    reveal_strlit("Bearer ");
    if let Some(h) = header {
        if h.len() >= 7 && h.take(7) == "Bearer "@ {
            assert(h =~= "Bearer "@ + h.skip(7));
        }
        if h == "Bearer "@ + token {
            assert(h.take(7) =~= "Bearer "@);
            assert(h.skip(7) =~= token);
        }
    }
}
} // verus!
