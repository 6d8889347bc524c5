//! The proxy's routing decisions: extracting the bearer token from the
//! request path, rewriting the upstream path, checking the subdomain
//! policy, and mapping a route lookup to an HTTP outcome.

use vstd::prelude::*;
use vstd::string::StringExecFns;
use vstd::string::StrSliceExecFns;

use crate::protocol::RouteInfo;
use crate::types::{is_static_token, BearerToken, IpAddress, Subdomain};

verus! {

/// The scheme a request arrived over.
#[derive(Debug, Clone, Copy, PartialEq, Eq, Structural)]
pub enum Protocol {
    Http,
    Https,
}

impl Protocol {
    /// The scheme's name, as sent in `X-Forwarded-Proto`.
    pub fn as_str(&self) -> (r: &'static str)
        ensures
            *self == Protocol::Http ==> r@ == "http"@,
            *self == Protocol::Https ==> r@ == "https"@,
    {
        match self {
            Protocol::Http => "http",
            Protocol::Https => "https",
        }
    }
}

/// Information about the incoming request that is forwarded to the backend
/// in `X-Forwarded-*` headers.
#[derive(Debug, Clone, Copy, PartialEq, Eq, Structural)]
pub struct ForwardableRequestInfo {
    /// The client's address; forwarded as `X-Forwarded-For`.
    pub ip: IpAddress,
    /// The scheme of the incoming request; forwarded as
    /// `X-Forwarded-Proto`.
    pub protocol: Protocol,
}

/// Which ports the proxy listens on.
#[derive(Debug, Copy, Clone, PartialEq, Eq, Structural)]
pub struct ServerPortConfig {
    pub http_port: u16,
    pub https_port: Option<u16>,
}

/// The end of the path segment that starts at `i`: the first `/` at or
/// after `i`, or the end of the path.
pub open spec fn segment_end(path: Seq<char>, i: int) -> int
    decreases path.len() - i,
{
    if i < 0 || i >= path.len() {
        path.len() as int
    } else if path[i] == '/' {
        i
    } else {
        segment_end(path, i + 1)
    }
}

/// The bearer-token segment of a request path: the text between the
/// leading `/` and the next `/` (or the end); none when the path does not
/// start with `/` or the segment is empty.
pub open spec fn first_segment_of(path: Seq<char>) -> Option<Seq<char>> {
    if path.len() < 1 || path[0] != '/' {
        None
    } else if segment_end(path, 1) == 1 {
        None
    } else {
        Some(path.subrange(1, segment_end(path, 1)))
    }
}

/// Extract the bearer-token segment of a request path.
pub fn parse_token_segment(path: &str) -> (r: Option<String>)
    ensures
        match r {
            Some(seg) => first_segment_of(path@) == Some(seg@),
            None => first_segment_of(path@) is None,
        },
{
    let len = path.unicode_len();
    if len < 1 || path.get_char(0) != '/' {
        return None;
    }
    let mut i: usize = 1;
    proof {
        lemma_segment_end_ge(path@, 1);
    }
    while i < len && path.get_char(i) != '/'
        invariant
            1 <= i <= len,
            len == path@.len(),
            forall|j: int| 1 <= j < i ==> path@[j] != '/',
            segment_end(path@, 1) >= i,
        decreases len - i,
    {
        proof {
            lemma_segment_end_step(path@, 1, i + 1);
        }
        i = i + 1;
    }
    proof {
        if i < len {
            lemma_segment_end_at(path@, 1, i as int);
        } else {
            lemma_segment_end_at(path@, 1, len as int);
        }
    }
    if i == 1 {
        return None;
    }
    Some(path.substring_char(1, i).to_owned())
}

/// The segment end never lies before the scan start.
proof fn lemma_segment_end_ge(path: Seq<char>, i: int)
    requires
        1 <= i <= path.len(),
    ensures
        segment_end(path, i) >= i,
    decreases path.len() - i,
{
    if i < path.len() && path[i] != '/' {
        lemma_segment_end_ge(path, i + 1);
    }
}

/// Past a prefix of non-separator characters, the segment end is at least
/// the scan position.
proof fn lemma_segment_end_step(path: Seq<char>, start: int, upto: int)
    requires
        1 <= start <= upto <= path.len(),
        forall|j: int| start <= j < upto ==> path[j] != '/',
    ensures
        segment_end(path, start) >= upto,
    decreases upto - start,
{
    if start < upto {
        lemma_segment_end_step(path, start + 1, upto);
    } else {
        lemma_segment_end_ge(path, start);
    }
}

/// A scan that stopped at `stop` (a separator or the end) pins the segment
/// end exactly.
proof fn lemma_segment_end_at(path: Seq<char>, start: int, stop: int)
    requires
        1 <= start <= stop <= path.len(),
        forall|j: int| start <= j < stop ==> path[j] != '/',
        stop == path.len() || path[stop] == '/',
    ensures
        segment_end(path, start) == stop,
    decreases stop - start,
{
    if start < stop {
        lemma_segment_end_at(path, start + 1, stop);
    }
}

/// The path the backend sees: a static token passes the original path
/// through, any other token's leading `/token` prefix is stripped (a bare
/// `/token` becomes `/`).
pub open spec fn upstream_path_of(token: Seq<char>, path: Seq<char>) -> Seq<char> {
    if is_static_token(token) {
        path
    } else if path.len() == token.len() + 1 {
        "/"@
    } else {
        path.skip(token.len() as int + 1)
    }
}

/// Rewrite the request path for the upstream backend.
pub fn rewrite_upstream_path(token: &BearerToken, path: &str) -> (r: String)
    requires
        path@.len() >= token@.len() + 1,
        path@[0] == '/',
        path@.subrange(1, token@.len() as int + 1) == token@,
    ensures
        r@ == upstream_path_of(token@, path@),
{
    if token.is_static() {
        return path.to_owned();
    }
    let token_len = token.token.as_str().unicode_len();
    let path_len = path.unicode_len();
    if path_len == token_len + 1 {
        let mut s = String::new();
        s.append("/");
        return s;
    }
    path.substring_char(token_len + 1, path_len).to_owned()
}

/// Law: for a non-static token `T` and a path `/T/p`, the upstream path is
/// `/p`; for a static token the upstream path is the original path.
pub proof fn lemma_token_strip_round_trip(token: Seq<char>, rest: Seq<char>)
    ensures
        !is_static_token(token) ==> upstream_path_of(token, "/"@ + token + "/"@ + rest) == "/"@
            + rest,
        is_static_token(token) ==> upstream_path_of(token, "/"@ + token + "/"@ + rest) == "/"@
            + token + "/"@ + rest,
{
    let path = "/"@ + token + "/"@ + rest;
    reveal_strlit("/");
    if !is_static_token(token) {
        assert(path.len() == token.len() + 2 + rest.len());
        assert(path.skip(token.len() as int + 1) =~= "/"@ + rest);
        if rest.len() == 0 {
            assert(path.len() == token.len() + 2);
            assert(("/"@ + rest) =~= "/"@);
        }
    }
}

/// What the proxy knows about a token when a request arrives.
#[derive(Debug)]
pub enum RouteLookup {
    /// The controller answered that the token does not resolve.
    Unknown,
    /// The backend exists but has no address yet.
    Pending,
    /// The backend is ready at this route.
    Found(RouteInfo),
}

/// The outcome of routing one request.
#[derive(Debug)]
pub enum RouteDecision {
    /// 301 to the configured root redirect.
    RedirectToRoot,
    /// 400: no token segment and no redirect configured.
    BadRequest,
    /// 410: the token does not resolve.
    Gone,
    /// 503: the backend exists but is not ready yet.
    ServiceUnavailable,
    /// 403: the backend requires a subdomain the host lacks.
    Forbidden,
    /// Forward to the backend at this route.
    Forward(RouteInfo),
}

/// Whether the request host carries the label a backend requires: the
/// host starts with `label.`.
pub open spec fn host_has_label(host: Seq<char>, sub: Option<Subdomain>) -> bool {
    match sub {
        None => true,
        Some(s) => host.len() > s@.len() + 1 && host.subrange(0, s@.len() as int) == s@ && host[
            s@.len() as int
        ] == '.',
    }
}

/// Check the subdomain policy for a host.
pub fn check_host_label(host: &str, sub: &Option<Subdomain>) -> (r: bool)
    ensures
        r == host_has_label(host@, *sub),
{
    match sub {
        None => true,
        Some(s) => {
            let host_len = host.unicode_len();
            let lab_len = s.label.as_str().unicode_len();
            if host_len == 0 || host_len - 1 <= lab_len {
                return false;
            }
            let prefix = host.substring_char(0, lab_len);
            let dot = host.get_char(lab_len);
            let eq = prefix.to_owned() == s.label;
            eq && dot == '.'
        },
    }
}

/// What the router answers for a request, given the parsed token segment,
/// the route lookup for it, the host, and the configured root redirect:
/// no token routes to the redirect (301) or fails (400); an unknown token
/// is gone (410); a pending backend is unavailable (503); a missing
/// required subdomain is forbidden (403); otherwise the request is
/// forwarded to the route.
pub open spec fn spec_route_decision(
    segment: Option<Seq<char>>,
    lookup_unknown: bool,
    lookup_pending: bool,
    info: Option<RouteInfo>,
    host: Seq<char>,
    root_redirect: bool,
    d: RouteDecision,
) -> bool {
    match segment {
        None => if root_redirect {
            d is RedirectToRoot
        } else {
            d is BadRequest
        },
        Some(_) => if lookup_unknown {
            d is Gone
        } else if lookup_pending {
            d is ServiceUnavailable
        } else {
            match info {
                Some(route) => if !host_has_label(host, route.subdomain) {
                    d is Forbidden
                } else {
                    d matches RouteDecision::Forward(f) && f == route
                },
                None => true,
            }
        },
    }
}

/// Route one request.
pub fn route_request(
    segment: Option<String>,
    lookup: RouteLookup,
    host: &str,
    root_redirect: bool,
) -> (d: RouteDecision)
    ensures
        spec_route_decision(
            match segment {
                Some(s) => Some(s@),
                None => None,
            },
            lookup is Unknown,
            lookup is Pending,
            match lookup {
                RouteLookup::Found(route) => Some(route),
                _ => None,
            },
            host@,
            root_redirect,
            d,
        ),
{
    match segment {
        None => if root_redirect {
            RouteDecision::RedirectToRoot
        } else {
            RouteDecision::BadRequest
        },
        Some(_) => match lookup {
            RouteLookup::Unknown => RouteDecision::Gone,
            RouteLookup::Pending => RouteDecision::ServiceUnavailable,
            RouteLookup::Found(route) => {
                if !check_host_label(host, &route.subdomain) {
                    RouteDecision::Forbidden
                } else {
                    RouteDecision::Forward(route)
                }
            },
        },
    }
}

/// The decimal digits of `n`, most significant first.
pub open spec fn dec_digits(n: int) -> Seq<char>
    decreases n,
{
    if n <= 0 {
        Seq::<char>::empty()
    } else {
        dec_digits(n / 10).push(dec_digit(n % 10))
    }
}

/// The decimal text of `n` (zero is `0`).
pub open spec fn spec_dec(n: int) -> Seq<char> {
    if n == 0 {
        seq!['0']
    } else {
        dec_digits(n)
    }
}

/// One decimal digit as a character.
pub open spec fn dec_digit(d: int) -> char {
    if d == 0 {
        '0'
    } else if d == 1 {
        '1'
    } else if d == 2 {
        '2'
    } else if d == 3 {
        '3'
    } else if d == 4 {
        '4'
    } else if d == 5 {
        '5'
    } else if d == 6 {
        '6'
    } else if d == 7 {
        '7'
    } else if d == 8 {
        '8'
    } else {
        '9'
    }
}

/// Format a number in decimal.
pub fn format_u32(n: u32) -> (r: String)
    ensures
        r@ == spec_dec(n as int),
{
    if n == 0 {
        let s = digit_str(0).to_owned();
        proof {
            assert(s@ =~= seq!['0']);
        }
        return s;
    }
    let mut digits: Vec<char> = Vec::new();
    let mut m: u32 = n;
    while m > 0
        invariant
            dec_digits(n as int) =~= dec_digits(m as int) + digits@.reverse(),
            forall|j: int|
                0 <= j < digits@.len() ==> exists|d: int|
                    0 <= d < 10 && #[trigger] digits@[j] == dec_digit(d),
        decreases m,
    {
        let ghost old_m = m as int;
        let ghost old_digits = digits@;
        let d = m % 10;
        let c: char = digit_char(d as u8);
        digits.push(c);
        m = m / 10;
        proof {
            assert(c == dec_digit(old_m % 10));
            assert(digits@ =~= old_digits.push(c));
            assert(digits@.reverse() =~= seq![c] + old_digits.reverse());
            assert(dec_digits(old_m) == dec_digits(old_m / 10).push(dec_digit(old_m % 10)));
            assert(dec_digits(m as int) + digits@.reverse() =~= dec_digits(old_m)
                + old_digits.reverse());
        }
    }
    let mut s = String::new();
    let mut i: usize = digits.len();
    while i > 0
        invariant
            i <= digits@.len(),
            s@ =~= digits@.subrange(i as int, digits@.len() as int).reverse(),
            forall|j: int|
                0 <= j < digits@.len() ==> exists|d: int|
                    0 <= d < 10 && #[trigger] digits@[j] == dec_digit(d),
        decreases i,
    {
        let ghost old_s = s@;
        i = i - 1;
        let c = digits[i];
        let piece = char_str(c);
        s.append(piece);
        proof {
            assert(s@ =~= old_s.push(c));
            assert(digits@.subrange(i as int, digits@.len() as int).reverse() =~= digits@.subrange(
                i as int + 1,
                digits@.len() as int,
            ).reverse().push(digits@[i as int]));
        }
    }
    proof {
        assert(digits@.subrange(0, digits@.len() as int) =~= digits@);
        assert(dec_digits(n as int) =~= digits@.reverse());
        assert(s@ =~= digits@.reverse());
    }
    s
}

/// One decimal digit as an executable character.
fn digit_char(d: u8) -> (c: char)
    requires
        d < 10,
    ensures
        c == dec_digit(d as int),
{
    match d {
        0 => '0',
        1 => '1',
        2 => '2',
        3 => '3',
        4 => '4',
        5 => '5',
        6 => '6',
        7 => '7',
        8 => '8',
        _ => '9',
    }
}

/// One decimal digit as a string.
fn digit_str(d: u8) -> (r: &'static str)
    requires
        d < 10,
    ensures
        r@ =~= seq![dec_digit(d as int)],
{
    proof {
        reveal_strlit("0");
        reveal_strlit("1");
        reveal_strlit("2");
        reveal_strlit("3");
        reveal_strlit("4");
        reveal_strlit("5");
        reveal_strlit("6");
        reveal_strlit("7");
        reveal_strlit("8");
        reveal_strlit("9");
    }
    match d {
        0 => "0",
        1 => "1",
        2 => "2",
        3 => "3",
        4 => "4",
        5 => "5",
        6 => "6",
        7 => "7",
        8 => "8",
        _ => "9",
    }
}

/// A digit character as a string.
fn char_str(c: char) -> (r: &'static str)
    requires
        exists|d: int| 0 <= d < 10 && c == dec_digit(d),
    ensures
        r@ =~= seq![c],
{
    let d: u8 = match c {
        '0' => 0,
        '1' => 1,
        '2' => 2,
        '3' => 3,
        '4' => 4,
        '5' => 5,
        '6' => 6,
        '7' => 7,
        '8' => 8,
        _ => 9,
    };
    proof {
        let w = choose|w: int| 0 <= w < 10 && c == dec_digit(w);
        assert(d as int == w);
    }
    digit_str(d)
}

/// The text of an address for the `X-Forwarded-For` header: dotted
/// decimal for an IPv4 address.
pub open spec fn spec_ipv4_text(a: u8, b: u8, c: u8, d: u8) -> Seq<char> {
    spec_dec(a as int) + "."@ + spec_dec(b as int) + "."@ + spec_dec(c as int) + "."@ + spec_dec(
        d as int,
    )
}

/// Format an IPv4 address in dotted decimal.
pub fn format_ipv4(a: u8, b: u8, c: u8, d: u8) -> (r: String)
    ensures
        r@ == spec_ipv4_text(a, b, c, d),
{
    let mut s = format_u32(a as u32);
    s.append(".");
    s.append(format_u32(b as u32).as_str());
    s.append(".");
    s.append(format_u32(c as u32).as_str());
    s.append(".");
    s.append(format_u32(d as u32).as_str());
    s
}

} // verus!
