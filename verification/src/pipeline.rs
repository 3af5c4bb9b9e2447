//! The request pipeline: route matching over the running gateway state,
//! upstream URL construction and header rewriting, the gateway identity
//! headers, and the not-found page.  The decision whether to contact the
//! upstream is taken here: a response status set by the pre-phase chain
//! short-circuits the exchange.

use std::sync::Arc;
use vstd::prelude::*;

use crate::models::{AppliedPlugin, Service};
use crate::patterns::is_prefix;
use crate::plugins::{header_get_model, headers_wf, lower_seq, RequestContext};
use crate::value::clone_string;

verus! {

/// The decimal digit character for `d`.
pub open spec fn digit_char(d: int) -> char {
    (((d + 48) as u8) as char)
}

/// The decimal representation of `n`, most significant digit first.
pub open spec fn dec_digits(n: int) -> Seq<char>
    decreases n,
{
    if n < 10 {
        seq![digit_char(if n < 0 {
            0
        } else {
            n
        })]
    } else {
        dec_digits(n / 10).push(digit_char(n % 10))
    }
}

fn digit_str(d: u64) -> (r: &'static str)
    requires
        d < 10,
    ensures
        r@ == seq![digit_char(d as int)],
{
    proof {
        reveal_strlit("0");
        reveal_strlit("1");
        reveal_strlit("2");
        reveal_strlit("3");
        reveal_strlit("4");
        reveal_strlit("5");
        reveal_strlit("6");
        reveal_strlit("7");
        reveal_strlit("8");
        reveal_strlit("9");
    }
    if d == 0 {
        "0"
    } else if d == 1 {
        "1"
    } else if d == 2 {
        "2"
    } else if d == 3 {
        "3"
    } else if d == 4 {
        "4"
    } else if d == 5 {
        "5"
    } else if d == 6 {
        "6"
    } else if d == 7 {
        "7"
    } else if d == 8 {
        "8"
    } else {
        "9"
    }
}

/// The decimal text of a number, as the latency headers carry it.
pub fn dec_string(n: u64) -> (r: String)
    ensures
        r@ == dec_digits(n as int),
    decreases n,
{
    if n < 10 {
        String::from_str(digit_str(n))
    } else {
        let head = dec_string(n / 10);
        let r = head.concat(digit_str(n % 10));
        proof {
            assert(r@ =~= dec_digits(n as int));
        }
        r
    }
}


/// A leap year of the proleptic Gregorian calendar.
pub open spec fn is_leap_year(y: int) -> bool {
    (y % 4 == 0 && y % 100 != 0) || y % 400 == 0
}

/// The number of days in a year.
pub open spec fn year_length(y: int) -> int {
    if is_leap_year(y) {
        366
    } else {
        365
    }
}

/// The civil year `days` whole days after the start of year `y`.
pub open spec fn civil_year(days: int, y: int) -> int
    decreases days,
{
    if days < year_length(y) {
        y
    } else {
        civil_year(days - year_length(y), y + 1)
    }
}

/// The civil year of an epoch timestamp, as the not-found page shows it.
pub fn year_of_epoch_secs(secs: u64) -> (r: u64)
    ensures
        r == civil_year((secs / 86400) as int, 1970),
{
    let days_total = secs / 86400;
    let mut year: u64 = 1970;
    let mut remaining = days_total;
    loop
        invariant
            days_total == secs / 86400,
            1970 <= year,
            year - 1970 + remaining <= days_total,
            days_total <= u64::MAX / 86400,
            civil_year(days_total as int, 1970) == civil_year(remaining as int, year as int),
        decreases remaining,
    {
        let leap = (year % 4 == 0 && year % 100 != 0) || year % 400 == 0;
        let len: u64 = if leap {
            366
        } else {
            365
        };
        proof {
            assert(leap == is_leap_year(year as int));
            assert(year_length(year as int) == len);
        }
        if remaining < len {
            proof {
                assert(civil_year(remaining as int, year as int) == year as int);
            }
            return year;
        }
        proof {
            assert(civil_year(remaining as int, year as int) == civil_year(
                remaining - len,
                year + 1,
            ));
        }
        remaining = remaining - len;
        year = year + 1;
    }
}

/// The running serving state the request handler consults: the compiled
/// service router and the global applied plugins, replaced together and
/// atomically on every snapshot.
#[derive(Debug)]
pub struct RunningState {
    pub router: crate::router::ServiceRouter,
    pub global_plugins: Vec<Arc<AppliedPlugin>>,
}

/// The index where `://` begins in a URL, or the length when absent.
pub open spec fn scheme_sep_from(u: Seq<char>, i: int) -> int
    decreases u.len() - i,
{
    if i < 0 || i + 3 > u.len() {
        u.len() as int
    } else if u[i] == ':' && u[i + 1] == '/' && u[i + 2] == '/' {
        i
    } else {
        scheme_sep_from(u, i + 1)
    }
}

/// A URL carries a scheme separator.
pub open spec fn url_has_scheme(u: Seq<char>) -> bool {
    scheme_sep_from(u, 0) < u.len()
}

/// The first index at or after `i` holding one of two stop characters, or
/// the length.
pub open spec fn stop_from(u: Seq<char>, i: int, a: char, b: char) -> int
    decreases u.len() - i,
{
    if i < 0 || i >= u.len() {
        u.len() as int
    } else if u[i] == a || u[i] == b {
        i
    } else {
        stop_from(u, i + 1, a, b)
    }
}

/// The scheme-and-authority prefix of a URL: everything before the first
/// slash after `://`.
pub open spec fn base_of(u: Seq<char>) -> Seq<char> {
    u.take(stop_from(u, scheme_sep_from(u, 0) + 3, '/', '/'))
}

/// The host of a URL: between `://` and the next colon or slash.
pub open spec fn host_of(u: Seq<char>) -> Seq<char> {
    u.subrange(
        scheme_sep_from(u, 0) + 3,
        stop_from(u, scheme_sep_from(u, 0) + 3, ':', '/'),
    )
}

/// The URL of the upstream exchange: the upstream base with the original
/// request's path and query.
pub open spec fn upstream_url(base_url: Seq<char>, path: Seq<char>, query: Option<String>) -> Seq<
    char,
> {
    base_of(base_url) + path + (match query {
        Some(q) => seq!['?'] + q@,
        None => Seq::empty(),
    })
}

proof fn lemma_scheme_sep_bounds(u: Seq<char>, i: int)
    requires
        0 <= i <= u.len(),
    ensures
        i <= scheme_sep_from(u, i) <= u.len(),
        scheme_sep_from(u, i) + 3 <= u.len() || scheme_sep_from(u, i) == u.len(),
    decreases u.len() - i,
{
    if !(i + 3 > u.len()) && !(u[i] == ':' && u[i + 1] == '/' && u[i + 2] == '/') {
        lemma_scheme_sep_bounds(u, i + 1);
    }
}

proof fn lemma_stop_bounds(u: Seq<char>, i: int, a: char, b: char)
    requires
        0 <= i <= u.len(),
    ensures
        i <= stop_from(u, i, a, b) <= u.len(),
    decreases u.len() - i,
{
    if i < u.len() && !(u[i] == a || u[i] == b) {
        lemma_stop_bounds(u, i + 1, a, b);
    }
}

fn find_scheme_sep(u: &str) -> (r: usize)
    ensures
        r == scheme_sep_from(u@, 0),
{
    let ghost whole = u@;
    let len = u.unicode_len();
    let mut i: usize = 0;
    if len < 3 {
        proof {
            lemma_scheme_sep_stuck(whole, 0);
        }
        return len;
    }
    while len - i >= 3
        invariant
            whole == u@,
            len == u@.len(),
            0 <= i <= len,
            scheme_sep_from(whole, 0) == scheme_sep_from(whole, i as int),
        decreases len - i,
    {
        if u.get_char(i) == ':' && u.get_char(i + 1) == '/' && u.get_char(i + 2) == '/' {
            return i;
        }
        i = i + 1;
    }
    proof {
        lemma_scheme_sep_stuck(whole, i as int);
    }
    len
}

proof fn lemma_scheme_sep_stuck(u: Seq<char>, i: int)
    requires
        0 <= i,
        i + 3 > u.len(),
    ensures
        scheme_sep_from(u, i) == u.len(),
{
}

fn find_stop(u: &str, start: usize, a: char, b: char) -> (r: usize)
    requires
        start <= u@.len(),
    ensures
        r == stop_from(u@, start as int, a, b),
{
    let ghost whole = u@;
    let len = u.unicode_len();
    let mut i: usize = start;
    while i < len
        invariant
            whole == u@,
            len == u@.len(),
            start <= i <= len,
            stop_from(whole, start as int, a, b) == stop_from(whole, i as int, a, b),
        decreases len - i,
    {
        let c = u.get_char(i);
        if c == a || c == b {
            return i;
        }
        i = i + 1;
    }
    len
}

/// The scheme-and-authority prefix of an upstream URL.
pub fn url_base(u: &str) -> (r: String)
    ensures
        r@ == base_of(u@),
{
    let sep = find_scheme_sep(u);
    let len = u.unicode_len();
    proof {
        lemma_scheme_sep_bounds(u@, 0);
    }
    let auth_end = if len >= 3 && sep <= len - 3 {
        find_stop(u, sep + 3, '/', '/')
    } else {
        proof {
            lemma_stop_stuck(u@, sep + 3);
        }
        len
    };
    proof {
        lemma_stop_bounds(u@, if len >= 3 && sep <= len - 3 {
            (sep + 3) as int
        } else {
            len as int
        }, '/', '/');
        if !(len >= 3 && sep <= len - 3) {
            lemma_stop_stuck(u@, sep + 3);
        }
    }
    u.substring_char(0, auth_end).to_owned()
}

proof fn lemma_stop_stuck(u: Seq<char>, i: int)
    requires
        i >= u.len(),
    ensures
        forall|a: char, b: char| #[trigger] stop_from(u, i, a, b) == u.len(),
{
}

/// The host of an upstream URL.
pub fn url_host(u: &str) -> (r: String)
    requires
        url_has_scheme(u@),
    ensures
        r@ == host_of(u@),
{
    let sep = find_scheme_sep(u);
    let len = u.unicode_len();
    proof {
        lemma_scheme_sep_bounds(u@, 0);
        assert(sep + 3 <= len);
    }
    let hs = sep + 3;
    let he = find_stop(u, hs, ':', '/');
    proof {
        lemma_stop_bounds(u@, hs as int, ':', '/');
    }
    u.substring_char(hs, he).to_owned()
}

/// Where a request goes after the pre-phase chain: straight to the response
/// when a plugin set a status, to the not-found page when no route matches,
/// and otherwise to the upstream named by the first matching service.
#[derive(Debug)]
pub enum UpstreamPlan {
    ShortCircuit,
    NotFound,
    Forward { url: String, host: String },
}

/// The service's route table resolves the remaining path.
pub open spec fn route_found(entries: Seq<Arc<crate::models::Route>>, rem: Seq<char>) -> bool {
    exists|j: int|
        0 <= j < entries.len() && (*(#[trigger] entries[j])).config.path@ == rem
}

/// What serving a request from service `svc` with remaining path `rem`
/// answers: the upstream exchange — the service's base URL with the original
/// request path and query — when the service's route table resolves the
/// remainder, and the not-found page otherwise.
pub open spec fn serve_outcome(
    svc: Service,
    rem: Seq<char>,
    path: Seq<char>,
    query: Option<String>,
    r: UpstreamPlan,
) -> bool {
    if route_found(svc.router.entries@, rem) {
        r matches UpstreamPlan::Forward { url, host } && url@ == upstream_url(
            svc.url@,
            path,
            query,
        ) && host@ == host_of(svc.url@)
    } else {
        r is NotFound
    }
}

/// Decide the upstream exchange, per the routing tables: a response status
/// set by the pre-phase chain short-circuits — the upstream is contacted
/// only through a `Forward` plan, and a short-circuited request never
/// produces one.  Otherwise the service with the longest matching
/// context-path key (or the first fallback service) serves the request, and
/// its own route table must resolve the remaining path, else the request
/// ends in the not-found page.
pub fn plan_upstream(router: &crate::router::ServiceRouter, ctx: &RequestContext) -> (r:
    UpstreamPlan)
    requires
        forall|i: int|
            0 <= i < router.model().len() ==> url_has_scheme(
                (#[trigger] router.model()[i]).1.url@,
            ),
        forall|i: int|
            0 <= i < router.defaults_model().len() ==> url_has_scheme(
                (#[trigger] router.defaults_model()[i]).url@,
            ),
    ensures
        (ctx.status is Some) <==> (r is ShortCircuit),
        (ctx.status is None && (exists|i: int|
            0 <= i < router.model().len() && crate::router::matches_at(
                router.model(),
                ctx.path@,
                i,
            ))) ==> (exists|i: int|
            crate::router::is_best_match(router.model(), ctx.path@, i) && serve_outcome(
                (#[trigger] router.model()[i]).1,
                crate::paths::match_remainder(router.model()[i].0, ctx.path@),
                ctx.path@,
                ctx.query,
                r,
            )),
        (ctx.status is None && !(exists|i: int|
            0 <= i < router.model().len() && crate::router::matches_at(
                router.model(),
                ctx.path@,
                i,
            )) && router.defaults_model().len() > 0) ==> serve_outcome(
            router.defaults_model()[0],
            Seq::<char>::empty(),
            ctx.path@,
            ctx.query,
            r,
        ),
        (ctx.status is None && !(exists|i: int|
            0 <= i < router.model().len() && crate::router::matches_at(
                router.model(),
                ctx.path@,
                i,
            )) && router.defaults_model().len() == 0) ==> (r is NotFound),
    {
    match &ctx.status {
        Some(_) => UpstreamPlan::ShortCircuit,
        None => {
            match router.find_service(ctx.path.as_str()) {
                None => UpstreamPlan::NotFound,
                Some((svc, rem)) => {
                    match svc.router.find_route(rem.as_str()) {
                        None => UpstreamPlan::NotFound,
                        Some(_route) => {
                            let base = url_base(svc.url.as_str());
                            let with_path = base.concat(ctx.path.as_str());
                            let url = match &ctx.query {
                                Some(q) => {
                                    let u2 = with_path.concat("?");
                                    proof {
                                        reveal_strlit("?");
                                    }
                                    u2.concat(q.as_str())
                                },
                                None => with_path,
                            };
                            let host = url_host(svc.url.as_str());
                            proof {
                                assert(url@ =~= upstream_url((*svc).url@, ctx.path@, ctx.query));
                            }
                            UpstreamPlan::Forward { url, host }
                        },
                    }
                },
            }
        },
    }
}

/// Rewrite the request headers for the upstream exchange: the original
/// `host`, when present, moves to `x-forwarded-host` — none is synthesized
/// for a request without one — `host` becomes the upstream host, `via` the
/// gateway name, and `referer` the original URI.
pub fn rewrite_upstream_headers(ctx: &mut RequestContext, upstream_host: &str)
    requires
        old(ctx).wf(),
    ensures
        final(ctx).wf(),
        crate::plugins::headers_contain(old(ctx).headers@, "host"@) ==> header_get_model(
            final(ctx).headers@,
            "x-forwarded-host"@,
        ) == header_get_model(old(ctx).headers@, "host"@),
        !crate::plugins::headers_contain(old(ctx).headers@, "host"@) ==> header_get_model(
            final(ctx).headers@,
            "x-forwarded-host"@,
        ) == header_get_model(old(ctx).headers@, "x-forwarded-host"@),
        header_get_model(final(ctx).headers@, "host"@) == Some(upstream_host@),
        header_get_model(final(ctx).headers@, "via"@) == Some("bullg"@),
        header_get_model(final(ctx).headers@, "referer"@) == Some(old(ctx).uri@),
        forall|k2: Seq<char>|
            lower_seq(k2) != lower_seq("host"@) && lower_seq(k2) != lower_seq(
                "x-forwarded-host"@,
            ) && lower_seq(k2) != lower_seq("via"@) && lower_seq(k2) != lower_seq("referer"@)
                ==> header_get_model(final(ctx).headers@, k2) == header_get_model(
                old(ctx).headers@,
                k2,
            ),
        *final(ctx) == (RequestContext { headers: final(ctx).headers, ..*old(ctx) }),
{
    proof {
        reveal_strlit("host");
        reveal_strlit("x-forwarded-host");
        reveal_strlit("via");
        reveal_strlit("referer");
        assert(lower_seq("host"@).len() == 4);
        assert(lower_seq("x-forwarded-host"@).len() == 16);
        assert(lower_seq("via"@).len() == 3);
        assert(lower_seq("referer"@).len() == 7);
    }
    match ctx.header_get("host") {
        Some(orig_host) => {
            ctx.header_put("x-forwarded-host", orig_host);
        },
        None => {
        },
    }
    ctx.header_put("host", upstream_host.to_owned());
    ctx.header_put("via", String::from_str("bullg"));
    let uri = clone_string(&ctx.uri);
    ctx.header_put("referer", uri);
}


/// The gateway identity headers hold on a finished response: `Via`,
/// `Server`, `X-Powered-By`, `X-Server`, `X-Gateway`, the two latency
/// headers, and `X-Request-Id` carrying exactly the context's request id —
/// the same identifier the logs carry.  `Content-Type` defaults to
/// `text/html` when the response names none and no `Accept` header steered
/// it.
pub fn apply_identity_headers(
    ctx: &mut RequestContext,
    request_id: &str,
    latency_us: u64,
    latency_ms: u64,
)
    requires
        old(ctx).wf(),
    ensures
        final(ctx).wf(),
        header_get_model(final(ctx).headers@, "via"@) == Some("bullg"@),
        header_get_model(final(ctx).headers@, "server"@) == Some("bullg/0.1.0"@),
        header_get_model(final(ctx).headers@, "x-powered-by"@) == Some("bullg-0.1.0/VIKSHRO"@),
        header_get_model(final(ctx).headers@, "x-server"@) == Some("bullg/0.1.0"@),
        header_get_model(final(ctx).headers@, "x-gateway"@) == Some("bullg Gateway/0.1.0"@),
        header_get_model(final(ctx).headers@, "x-latency-us"@) == Some(
            dec_digits(latency_us as int),
        ),
        header_get_model(final(ctx).headers@, "x-latency"@) == Some(dec_digits(latency_ms as int)),
        header_get_model(final(ctx).headers@, "x-request-id"@) == Some(request_id@),
        (header_get_model(old(ctx).headers@, "content-type"@) is None && header_get_model(
            old(ctx).headers@,
            "accept"@,
        ) is None) ==> header_get_model(final(ctx).headers@, "content-type"@) == Some(
            "text/html"@,
        ),
        (header_get_model(old(ctx).headers@, "content-type"@) is Some) ==> header_get_model(
            final(ctx).headers@,
            "content-type"@,
        ) == header_get_model(old(ctx).headers@, "content-type"@),
        forall|k2: Seq<char>|
            identity_header_free(k2) ==> header_get_model(final(ctx).headers@, k2)
                == header_get_model(old(ctx).headers@, k2),
        *final(ctx) == (RequestContext { headers: final(ctx).headers, ..*old(ctx) }),
{
    proof {
        reveal_strlit("Via");
        reveal_strlit("via");
        reveal_strlit("Server");
        reveal_strlit("server");
        reveal_strlit("X-Powered-By");
        reveal_strlit("x-powered-by");
        reveal_strlit("X-Server");
        reveal_strlit("x-server");
        reveal_strlit("X-Gateway");
        reveal_strlit("x-gateway");
        reveal_strlit("X-Latency-Us");
        reveal_strlit("x-latency-us");
        reveal_strlit("X-Latency");
        reveal_strlit("x-latency");
        reveal_strlit("X-Request-Id");
        reveal_strlit("x-request-id");
        reveal_strlit("Content-Type");
        reveal_strlit("content-type");
        reveal_strlit("accept");
        reveal_strlit("Accept");
        lemma_identity_keys_distinct();
    }
    ctx.header_put("Via", String::from_str("bullg"));
    let ct = ctx.header_get("Content-Type");
    if ct.is_none() {
        let accept = ctx.header_get("Accept");
        if accept.is_none() {
            ctx.header_put("Content-Type", String::from_str("text/html"));
        }
    }
    ctx.header_put("Server", String::from_str("bullg/0.1.0"));
    ctx.header_put("X-Powered-By", String::from_str("bullg-0.1.0/VIKSHRO"));
    ctx.header_put("X-Server", String::from_str("bullg/0.1.0"));
    ctx.header_put("X-Gateway", String::from_str("bullg Gateway/0.1.0"));
    ctx.header_put("X-Latency-Us", dec_string(latency_us));
    ctx.header_put("X-Latency", dec_string(latency_ms));
    ctx.header_put("X-Request-Id", request_id.to_owned());
    proof {
        crate::plugins::lemma_header_model_case(ctx.headers@, "via"@, "Via"@);
        crate::plugins::lemma_header_model_case(ctx.headers@, "server"@, "Server"@);
        crate::plugins::lemma_header_model_case(ctx.headers@, "x-powered-by"@, "X-Powered-By"@);
        crate::plugins::lemma_header_model_case(ctx.headers@, "x-server"@, "X-Server"@);
        crate::plugins::lemma_header_model_case(ctx.headers@, "x-gateway"@, "X-Gateway"@);
        crate::plugins::lemma_header_model_case(ctx.headers@, "x-latency-us"@, "X-Latency-Us"@);
        crate::plugins::lemma_header_model_case(ctx.headers@, "x-latency"@, "X-Latency"@);
        crate::plugins::lemma_header_model_case(ctx.headers@, "x-request-id"@, "X-Request-Id"@);
        crate::plugins::lemma_header_model_case(ctx.headers@, "content-type"@, "Content-Type"@);
        crate::plugins::lemma_header_model_case(
            old(ctx).headers@,
            "content-type"@,
            "Content-Type"@,
        );
        crate::plugins::lemma_header_model_case(old(ctx).headers@, "accept"@, "Accept"@);
    }
}

/// `k` reads as none of the identity, content-negotiation or latency header
/// names.
pub open spec fn identity_header_free(k: Seq<char>) -> bool {
    &&& lower_seq(k) != lower_seq("Via"@)
    &&& lower_seq(k) != lower_seq("Server"@)
    &&& lower_seq(k) != lower_seq("X-Powered-By"@)
    &&& lower_seq(k) != lower_seq("X-Server"@)
    &&& lower_seq(k) != lower_seq("X-Gateway"@)
    &&& lower_seq(k) != lower_seq("X-Latency-Us"@)
    &&& lower_seq(k) != lower_seq("X-Latency"@)
    &&& lower_seq(k) != lower_seq("X-Request-Id"@)
    &&& lower_seq(k) != lower_seq("Content-Type"@)
}

proof fn lemma_identity_keys_distinct()
    ensures
        lower_seq("Via"@) == "via"@,
        lower_seq("Server"@) == "server"@,
        lower_seq("X-Powered-By"@) == "x-powered-by"@,
        lower_seq("X-Server"@) == "x-server"@,
        lower_seq("X-Gateway"@) == "x-gateway"@,
        lower_seq("X-Latency-Us"@) == "x-latency-us"@,
        lower_seq("X-Latency"@) == "x-latency"@,
        lower_seq("X-Request-Id"@) == "x-request-id"@,
        lower_seq("Content-Type"@) == "content-type"@,
        lower_seq("Accept"@) == "accept"@,
        lower_seq("via"@) == "via"@,
        lower_seq("server"@) == "server"@,
        lower_seq("x-powered-by"@) == "x-powered-by"@,
        lower_seq("x-server"@) == "x-server"@,
        lower_seq("x-gateway"@) == "x-gateway"@,
        lower_seq("x-latency-us"@) == "x-latency-us"@,
        lower_seq("x-latency"@) == "x-latency"@,
        lower_seq("x-request-id"@) == "x-request-id"@,
        lower_seq("content-type"@) == "content-type"@,
        lower_seq("accept"@) == "accept"@,
        "x-powered-by"@ != "x-latency-us"@,
        "x-powered-by"@ != "x-request-id"@,
        "x-latency-us"@ != "x-request-id"@,
        "x-gateway"@ != "x-latency"@,
        "content-type"@ != "x-powered-by"@,
        "content-type"@ != "x-latency-us"@,
        "content-type"@ != "x-request-id"@,
{
    reveal_strlit("Via");
    reveal_strlit("via");
    reveal_strlit("Server");
    reveal_strlit("server");
    reveal_strlit("X-Powered-By");
    reveal_strlit("x-powered-by");
    reveal_strlit("X-Server");
    reveal_strlit("x-server");
    reveal_strlit("X-Gateway");
    reveal_strlit("x-gateway");
    reveal_strlit("X-Latency-Us");
    reveal_strlit("x-latency-us");
    reveal_strlit("X-Latency");
    reveal_strlit("x-latency");
    reveal_strlit("X-Request-Id");
    reveal_strlit("x-request-id");
    reveal_strlit("Content-Type");
    reveal_strlit("content-type");
    reveal_strlit("Accept");
    reveal_strlit("accept");
    assert(lower_seq("Via"@) =~= "via"@);
    assert(lower_seq("Server"@) =~= "server"@);
    assert(lower_seq("X-Powered-By"@) =~= "x-powered-by"@);
    assert(lower_seq("X-Server"@) =~= "x-server"@);
    assert(lower_seq("X-Gateway"@) =~= "x-gateway"@);
    assert(lower_seq("X-Latency-Us"@) =~= "x-latency-us"@);
    assert(lower_seq("X-Latency"@) =~= "x-latency"@);
    assert(lower_seq("X-Request-Id"@) =~= "x-request-id"@);
    assert(lower_seq("Content-Type"@) =~= "content-type"@);
    assert(lower_seq("Accept"@) =~= "accept"@);
    assert(lower_seq("via"@) =~= "via"@);
    assert(lower_seq("server"@) =~= "server"@);
    assert(lower_seq("x-powered-by"@) =~= "x-powered-by"@);
    assert(lower_seq("x-server"@) =~= "x-server"@);
    assert(lower_seq("x-gateway"@) =~= "x-gateway"@);
    assert(lower_seq("x-latency-us"@) =~= "x-latency-us"@);
    assert(lower_seq("x-latency"@) =~= "x-latency"@);
    assert(lower_seq("x-request-id"@) =~= "x-request-id"@);
    assert(lower_seq("content-type"@) =~= "content-type"@);
    assert(lower_seq("accept"@) =~= "accept"@);
    assert("x-powered-by"@[2] != "x-latency-us"@[2]);
    assert("x-powered-by"@[2] != "x-request-id"@[2]);
    assert("x-latency-us"@[2] != "x-request-id"@[2]);
    assert("x-gateway"@[2] != "x-latency"@[2]);
    assert("content-type"@[0] != "x-powered-by"@[0]);
    assert("content-type"@[0] != "x-latency-us"@[0]);
    assert("content-type"@[0] != "x-request-id"@[0]);
}

/// The not-found page: a fixed HTML layout embedding the request id, the
/// gateway's name and version, and the current year.
pub fn not_found_html(request_id: &str, year: u64) -> (r: String)
    ensures
        r@ == "<html><head><title>bullg: Route Not Found</title></head><body><h1>Not Found</h1><h2>Route not found</h2><p><b>Request id:</b> "@
            + request_id@
            + "</p><br/><hr/> <center><p>bullg Gateway 0.1.0 &copy; "@ + dec_digits(year as int)
            + "</p></center></body></html>"@,
{
    let a = String::from_str(
        "<html><head><title>bullg: Route Not Found</title></head><body><h1>Not Found</h1><h2>Route not found</h2><p><b>Request id:</b> ",
    );
    let b = a.concat(request_id);
    let c = b.concat("</p><br/><hr/> <center><p>bullg Gateway 0.1.0 &copy; ");
    let y = dec_string(year);
    let d = c.concat(y.as_str());
    let r = d.concat("</p></center></body></html>");
    r
}

} // verus!
