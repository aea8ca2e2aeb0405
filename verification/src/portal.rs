//! Which IAM Identity Center portals, regions and device-verification links the
//! application accepts: real commercial AWS regions and tenant access portals,
//! with no arbitrary endpoint, credentials, query strings or local addresses.
use vstd::prelude::*;
use crate::error::{AppError, invalid, is_invalid, NETWORK};
use crate::text::{
    chars_eq, chars_of, contains_char, ends_with, has_prefix, has_suffix, parse_unsigned,
    parse_unsigned_chars, push_all, push_str_chars, slice_chars, split_chars, split_on,
    starts_with, string_from_chars, trim, trim_chars, char_views, lemma_split_first_piece,
};

verus! {

broadcast use vstd::string::group_string_axioms;

/// Refusal of a region that is not a supported commercial AWS region.
pub const REGION_MESSAGE: &'static str = "Enter a supported AWS commercial region, such as ap-southeast-1.";

/// Refusal of a portal URL that does not parse.
pub const PORTAL_URL_MESSAGE: &'static str = "Enter your HTTPS AWS access portal URL.";

/// Refusal of a URL that is not a tenant access portal.
pub const PORTAL_MESSAGE: &'static str = "Use the AWS access portal URL https://your-company.awsapps.com/start, without query parameters.";

/// The parts of a parsed URL that the checks read.
pub struct UrlParts {
    pub scheme: String,
    pub host: Option<String>,
    pub port: Option<u16>,
    pub username: String,
    pub password: Option<String>,
    pub query: Option<String>,
    pub fragment: Option<String>,
    pub path: String,
}

/// The mathematical value of `UrlParts`.
pub struct UrlPartsView {
    pub scheme: Seq<char>,
    pub host: Option<Seq<char>>,
    pub port: Option<u16>,
    pub username: Seq<char>,
    pub password: Option<Seq<char>>,
    pub query: Option<Seq<char>>,
    pub fragment: Option<Seq<char>>,
    pub path: Seq<char>,
}

/// The view of an optional string.
pub open spec fn opt_chars(o: Option<String>) -> Option<Seq<char>> {
    match o {
        Some(s) => Some(s@),
        None => None,
    }
}

impl View for UrlParts {
    type V = UrlPartsView;

    open spec fn view(&self) -> UrlPartsView {
        UrlPartsView {
            scheme: self.scheme@,
            host: opt_chars(self.host),
            port: self.port,
            username: self.username@,
            password: opt_chars(self.password),
            query: opt_chars(self.query),
            fragment: opt_chars(self.fragment),
            path: self.path@,
        }
    }
}

/// The view of an optional parsed URL.
pub open spec fn opt_parts(o: Option<UrlParts>) -> Option<UrlPartsView> {
    match o {
        Some(p) => Some(p@),
        None => None,
    }
}

/// What `url::Url::parse` gives for `s`: the URL's parts, or `None` when it
/// does not parse.
pub uninterp spec fn url_parse_result(s: Seq<char>) -> Option<UrlPartsView>;

/// `url::Url::parse`, keeping the scheme, host, port, user name, password,
/// query, fragment and path of the result. The result is named `url_parse_result`.
#[verifier::external_body]
pub fn parse_url(s: &str) -> (r: Option<UrlParts>)
    ensures
        opt_parts(r) == url_parse_result(s@),
{
    match url::Url::parse(s) {
        Ok(u) => Some(UrlParts {
            scheme: u.scheme().to_owned(),
            host: u.host_str().map(|h| h.to_owned()),
            port: u.port(),
            username: u.username().to_owned(),
            password: u.password().map(|p| p.to_owned()),
            query: u.query().map(|q| q.to_owned()),
            fragment: u.fragment().map(|f| f.to_owned()),
            path: u.path().to_owned(),
        }),
        Err(_) => None,
    }
}

/// The commercial AWS partitions' region prefixes.
pub open spec fn commercial_area(p: Seq<char>) -> bool {
    p == "af"@ || p == "ap"@ || p == "ca"@ || p == "eu"@ || p == "il"@ || p == "me"@ || p == "mx"@
        || p == "sa"@ || p == "us"@
}

/// The characters a region name may hold.
pub open spec fn region_char(c: char) -> bool {
    ('a' <= c && c <= 'z') || ('0' <= c && c <= '9') || c == '-'
}

/// A supported commercial region: at least three dash-separated parts, at most
/// 32 characters of lower-case letters, digits and dashes (for such names the
/// byte length and the character count agree), a commercial area first, a
/// number up to 255 last, and not GovCloud.
pub open spec fn region_valid(r: Seq<char>) -> bool {
    let parts = split_on(r, '-');
    &&& parts.len() >= 3
    &&& r.len() <= 32
    &&& commercial_area(parts[0])
    &&& forall|i: int| 0 <= i < r.len() ==> region_char(#[trigger] r[i])
    &&& parse_unsigned(parts.last(), 255) is Some
    &&& !has_prefix(r, "us-gov-"@)
}

/// Law: no accepted region is a GovCloud or China region.
pub proof fn lemma_commercial_regions_only(r: Seq<char>)
    requires
        region_valid(r),
    ensures
        !has_prefix(r, "us-gov-"@),
        !has_prefix(r, "cn-"@),
        split_on(r, '-')[0] != "cn"@,
{
    reveal_strlit("cn-");
    reveal_strlit("cn");
    reveal_strlit("af");
    reveal_strlit("ap");
    reveal_strlit("ca");
    reveal_strlit("eu");
    reveal_strlit("il");
    reveal_strlit("me");
    reveal_strlit("mx");
    reveal_strlit("sa");
    reveal_strlit("us");
    let p = split_on(r, '-')[0];
    if p == "cn"@ {
        assert(p[0] == 'c' && p[1] == 'n');
        assert(commercial_area(p));
        assert(false);
    }
    if has_prefix(r, "cn-"@) {
        assert(r.take(3) == "cn-"@);
        assert(r[0] == 'c' && r[1] == 'n' && r[2] == '-') by {
            assert(r.take(3)[0] == r[0] && r.take(3)[1] == r[1] && r.take(3)[2] == r[2]);
        }
        lemma_split_first_piece(r, '-', 2);
        assert(split_on(r, '-')[0] =~= "cn"@);
    }
}

/// Law: every commercial region name is accepted: one whose first
/// dash-separated part is `af`, `ap`, `ca`, `eu`, `il`, `me`, `mx`, `sa` or
/// `us`, with at least three parts, at most 32 lower-case letters, digits and
/// dashes, a last part that is a number up to 255, and that is not GovCloud.
pub proof fn lemma_commercial_regions_accepted(r: Seq<char>)
    requires
        split_on(r, '-').len() >= 3,
        r.len() <= 32,
        forall|i: int| 0 <= i < r.len() ==> ('a' <= #[trigger] r[i] && r[i] <= 'z') || ('0' <= r[i] && r[i] <= '9') || r[i] == '-',
        parse_unsigned(split_on(r, '-').last(), 255) is Some,
        !has_prefix(r, "us-gov-"@),
        ({
            let first = split_on(r, '-')[0];
            first == "af"@ || first == "ap"@ || first == "ca"@ || first == "eu"@ || first == "il"@
                || first == "me"@ || first == "mx"@ || first == "sa"@ || first == "us"@
        }),
    ensures
        region_valid(r),
{
}

/// Law: no GovCloud (`us-gov-`) or China (`cn-`) region is accepted, so
/// `validate_portal` refuses them whatever the portal URL.
pub proof fn lemma_no_govcloud_or_china(r: Seq<char>)
    requires
        has_prefix(r, "us-gov-"@) || has_prefix(r, "cn-"@),
    ensures
        !region_valid(r),
{
    if region_valid(r) {
        lemma_commercial_regions_only(r);
    }
}

/// A tenant access-portal host: `<tenant>.awsapps.com` with a tenant that is one DNS label.
pub open spec fn portal_host(host: Seq<char>) -> bool {
    let tenant = host.take(host.len() - ".awsapps.com"@.len());
    has_suffix(host, ".awsapps.com"@) && tenant.len() > 0 && !tenant.contains('.')
}

/// Whether a parsed URL is an access portal: HTTPS to a tenant portal host on the
/// default port, with no user name, password, query or fragment, at `/start`.
pub open spec fn portal_parts_ok(p: UrlPartsView) -> bool {
    &&& p.scheme == "https"@
    &&& p.host matches Some(h) && portal_host(h)
    &&& p.port is None
    &&& p.username.len() == 0
    &&& p.password is None
    &&& p.query is None
    &&& p.fragment is None
    &&& (p.path == "/start"@ || p.path == "/start/"@)
}

/// The canonical portal URL for a portal host.
pub open spec fn portal_url(host: Seq<char>) -> Seq<char> {
    "https://"@ + host + "/start"@
}

/// The device-verification host of a region.
pub open spec fn device_host(region: Seq<char>) -> Seq<char> {
    "device.sso."@ + region + ".amazonaws.com"@
}

/// Whether a parsed URL is the regional AWS device-verification service: HTTPS
/// to the region's device host on the default port, without user name or password.
pub open spec fn verification_parts_ok(p: UrlPartsView, region: Seq<char>) -> bool {
    &&& p.scheme == "https"@
    &&& p.host == Some(device_host(region))
    &&& p.port is None
    &&& p.username.len() == 0
    &&& p.password is None
}

fn is_commercial_area(p: &Vec<char>) -> (r: bool)
    ensures
        r == commercial_area(p@),
{
    chars_eq(p, &chars_of("af")) || chars_eq(p, &chars_of("ap")) || chars_eq(p, &chars_of("ca"))
        || chars_eq(p, &chars_of("eu")) || chars_eq(p, &chars_of("il")) || chars_eq(
        p,
        &chars_of("me"),
    ) || chars_eq(p, &chars_of("mx")) || chars_eq(p, &chars_of("sa")) || chars_eq(
        p,
        &chars_of("us"),
    )
}

fn all_region_chars(v: &Vec<char>) -> (r: bool)
    ensures
        r == (forall|i: int| 0 <= i < v@.len() ==> region_char(#[trigger] v@[i])),
{
    let mut i: usize = 0;
    while i < v.len()
        invariant
            i <= v.len(),
            forall|j: int| 0 <= j < i ==> region_char(#[trigger] v@[j]),
        decreases v.len() - i,
    {
        let c = v[i];
        if !(('a' <= c && c <= 'z') || ('0' <= c && c <= '9') || c == '-') {
            assert(!region_char(v@[i as int]));
            return false;
        }
        i = i + 1;
    }
    true
}

/// Whether `region` is a supported commercial AWS region.
pub fn is_valid_region(region: &str) -> (r: bool)
    ensures
        r == region_valid(region@),
{
    let chars = chars_of(region);
    let parts = split_chars(&chars, '-');
    assert(char_views(parts@).len() == parts@.len());
    if parts.len() < 3 || chars.len() > 32 {
        return false;
    }
    assert(parts@[0]@ == split_on(region@, '-')[0]);
    assert(parts@[parts.len() - 1]@ == split_on(region@, '-').last());
    is_commercial_area(&parts[0]) && all_region_chars(&chars) && parse_unsigned_chars(
        &parts[parts.len() - 1],
        255,
    ).is_some() && !starts_with(&chars, &chars_of("us-gov-"))
}

fn is_portal_host(host: &Vec<char>) -> (r: bool)
    ensures
        r == portal_host(host@),
{
    let suffix = chars_of(".awsapps.com");
    if !ends_with(host, &suffix) {
        return false;
    }
    let tenant = slice_chars(host, 0, host.len() - suffix.len());
    assert(tenant@ == host@.take(host@.len() - ".awsapps.com"@.len()));
    tenant.len() > 0 && !contains_char(&tenant, '.')
}

/// The canonical portal URL `https://<host>/start` when `parts` is an access
/// portal; the portal refusal otherwise.
pub fn check_portal_url(parts: &UrlParts) -> (r: Result<String, AppError>)
    ensures
        portal_parts_ok(parts@) ==> (r matches Ok(s) && s@ == portal_url(parts@.host->0)),
        !portal_parts_ok(parts@) ==> (r matches Err(e) && is_invalid(e, PORTAL_MESSAGE@)),
{
    let host = match &parts.host {
        Some(h) => chars_of(h.as_str()),
        None => {
            return Err(invalid(PORTAL_MESSAGE));
        },
    };
    let path = chars_of(parts.path.as_str());
    let ok = chars_eq(&chars_of(parts.scheme.as_str()), &chars_of("https")) && is_portal_host(&host)
        && parts.port.is_none() && parts.username.as_str().is_empty() && parts.password.is_none()
        && parts.query.is_none() && parts.fragment.is_none() && (chars_eq(
        &path,
        &chars_of("/start"),
    ) || chars_eq(&path, &chars_of("/start/")));
    if !ok {
        return Err(invalid(PORTAL_MESSAGE));
    }
    let mut out = chars_of("https://");
    push_all(&mut out, &host);
    push_str_chars(&mut out, "/start");
    Ok(string_from_chars(&out))
}

/// Checks a portal URL and region for sign-in, giving the canonical portal URL.
/// The region is checked first; the URL is trimmed of surrounding whitespace
/// before it is parsed.
pub fn validate_portal(start_url: &str, region: &str) -> (r: Result<String, AppError>)
    ensures
        !region_valid(region@) ==> (r matches Err(e) && is_invalid(e, REGION_MESSAGE@)),
        region_valid(region@) ==> match url_parse_result(trim(start_url@)) {
            None => r matches Err(e) && is_invalid(e, PORTAL_URL_MESSAGE@),
            Some(p) => if portal_parts_ok(p) {
                r matches Ok(s) && s@ == portal_url(p.host->0)
            } else {
                r matches Err(e) && is_invalid(e, PORTAL_MESSAGE@)
            },
        },
{
    if !is_valid_region(region) {
        return Err(invalid(REGION_MESSAGE));
    }
    let trimmed = string_from_chars(&trim_chars(&chars_of(start_url)));
    match parse_url(trimmed.as_str()) {
        Some(parts) => check_portal_url(&parts),
        None => Err(invalid(PORTAL_URL_MESSAGE)),
    }
}

/// Accepts a parsed device-verification link only for the region's AWS device service.
pub fn check_verification_url(parts: &UrlParts, region: &str) -> (r: Result<(), AppError>)
    ensures
        verification_parts_ok(parts@, region@) ==> r is Ok,
        !verification_parts_ok(parts@, region@) ==> (r matches Err(e) && is_invalid(e, NETWORK@)),
{
    let mut expected = chars_of("device.sso.");
    push_str_chars(&mut expected, region);
    push_str_chars(&mut expected, ".amazonaws.com");
    let host_ok = match &parts.host {
        Some(h) => chars_eq(&chars_of(h.as_str()), &expected),
        None => false,
    };
    if chars_eq(&chars_of(parts.scheme.as_str()), &chars_of("https")) && host_ok
        && parts.port.is_none() && parts.username.as_str().is_empty() && parts.password.is_none() {
        Ok(())
    } else {
        Err(invalid(NETWORK))
    }
}

/// Accepts a device-verification link only when it is the region's AWS device service.
pub fn validate_verification_url(value: &str, region: &str) -> (r: Result<(), AppError>)
    ensures
        match url_parse_result(value@) {
            None => r matches Err(e) && is_invalid(e, NETWORK@),
            Some(p) => if verification_parts_ok(p, region@) {
                r is Ok
            } else {
                r matches Err(e) && is_invalid(e, NETWORK@)
            },
        },
{
    match parse_url(value) {
        Some(parts) => check_verification_url(&parts, region),
        None => Err(invalid(NETWORK)),
    }
}

} // verus!
