//! The data plane's route table: per-request route selection and
//! round-robin upstream choice.
//!
//! A route is a candidate for a request when its path prefix, method list
//! and host requirement all accept the request; among candidates the best
//! is chosen by, in order: longer path prefix, host-specific over
//! host-agnostic, method-specific over method-agnostic, and finally the
//! lexicographically smaller route id.

use vstd::prelude::*;
use vstd::string::StrSliceExecFns;
use vstd::string::StringExecFns;
use vstd::string::StringSliceAdditionalSpecFns;

use crate::policy::PolicyBinding;
use crate::strutil::{
    ascii_lower, find_first, lemma_find_first, lemma_lex_strict, lemma_lex_transitive,
    lex_lt, lower_seq, str_find_char, str_lt, str_starts_with, trim_ascii, trim_spec,
};

verus! {

/// An upstream a route can forward to.
#[derive(Debug)]
pub struct Upstream {
    pub url: String,
}

/// A runtime route: matcher fields, upstreams, and policy bindings.
#[derive(Debug)]
pub struct Route {
    pub id: String,
    pub path_prefix: Option<String>,
    pub methods: Vec<String>,
    pub host: Option<String>,
    pub upstreams: Vec<Upstream>,
    pub policies: Vec<PolicyBinding>,
}

/// The route table of one runtime snapshot.
#[derive(Debug)]
pub struct RouteSnapshot {
    pub routes: Vec<Route>,
}

impl RouteSnapshot {
    /// A table with no routes.
    pub fn empty() -> (r: Self)
        ensures
            r.routes@.len() == 0,
    {
        RouteSnapshot { routes: Vec::new() }
    }
}

impl RouteSnapshot {
    /// A single catch-all route to a local upstream, for standalone runs.
    pub fn from_static() -> (r: Self)
        ensures
            r.routes@.len() == 1,
            r.routes@[0].id@ == "default"@,
            r.routes@[0].path_prefix matches Some(p) && p@ == "/"@,
            r.routes@[0].methods.deep_view() == seq!["GET"@],
            r.routes@[0].host is None,
            r.routes@[0].upstreams@.len() == 1,
            r.routes@[0].upstreams@[0].url@ == "http://127.0.0.1:9000"@,
            r.routes@[0].policies@.len() == 0,
    {
        let mut methods: Vec<String> = Vec::new();
        methods.push("GET".to_owned());
        proof {
            assert(methods.deep_view() =~= seq!["GET"@]);
        }
        let mut upstreams: Vec<Upstream> = Vec::new();
        upstreams.push(Upstream { url: "http://127.0.0.1:9000".to_owned() });
        let route = Route {
            id: "default".to_owned(),
            path_prefix: Some("/".to_owned()),
            methods,
            host: None,
            upstreams,
            policies: Vec::new(),
        };
        let mut routes: Vec<Route> = Vec::new();
        routes.push(route);
        RouteSnapshot { routes }
    }
}

impl Route {
    /// A route from its parts.
    pub fn new(
        id: String,
        path_prefix: Option<String>,
        methods: Vec<String>,
        host: Option<String>,
        upstreams: Vec<Upstream>,
        policies: Vec<PolicyBinding>,
    ) -> (r: Self)
        ensures
            r.id == id,
            r.path_prefix == path_prefix,
            r.methods == methods,
            r.host == host,
            r.upstreams == upstreams,
            r.policies == policies,
    {
        Route { id, path_prefix, methods, host, upstreams, policies }
    }
}

/// A host value in canonical form: trimmed, ASCII-lowered, a bracketed
/// IPv6 literal kept whole, and otherwise everything from the first colon
/// on (a port) dropped.
pub open spec fn normalize_host_spec(h: Seq<char>) -> Seq<char> {
    let t = lower_seq(trim_spec(h));
    if t.len() > 0 && t[0] == '[' && find_first(t, ']') is Some {
        t.take(find_first(t, ']')->Some_0 + 1)
    } else {
        match find_first(t, ':') {
            Some(i) => t.take(i),
            None => t,
        }
    }
}

/// The canonical form of a host value.
pub fn normalize_host(value: &str) -> (r: String)
    ensures
        r@ == normalize_host_spec(value@),
{
    let trimmed = trim_ascii(value);
    let lowered = ascii_lower(trimmed);
    let n = lowered.as_str().unicode_len();
    proof {
        lemma_find_first(lowered@, ']');
        lemma_find_first(lowered@, ':');
    }
    if n > 0 && lowered.as_str().get_char(0) == '[' {
        if let Some(e) = str_find_char(lowered.as_str(), ']') {
            proof {
                lemma_find_first(lowered@, ']');
            }
            let r = lowered.as_str().substring_char(0, e + 1).to_owned();
            proof {
                assert(r@ =~= normalize_host_spec(value@));
            }
            return r;
        }
    }
    match str_find_char(lowered.as_str(), ':') {
        Some(i) => {
            proof {
                lemma_find_first(lowered@, ':');
            }
            let r = lowered.as_str().substring_char(0, i).to_owned();
            proof {
                assert(r@ =~= normalize_host_spec(value@));
            }
            r
        },
        None => {
            proof {
                assert(lowered@ =~= normalize_host_spec(value@));
            }
            lowered
        },
    }
}

/// The request host as a character sequence, when present.
pub open spec fn host_view(host: Option<&str>) -> Option<Seq<char>> {
    match host {
        Some(h) => Some(h@),
        None => None,
    }
}

/// Whether a route accepts a request.
pub open spec fn route_matches(
    r: Route,
    path: Seq<char>,
    method: Seq<char>,
    host: Option<Seq<char>>,
) -> bool {
    &&& match r.path_prefix {
        Some(p) => p@.is_prefix_of(path),
        None => true,
    }
    &&& (r.methods@.len() > 0 ==> exists|i: int|
        0 <= i < r.methods@.len() && lower_seq(#[trigger] r.methods@[i]@)
            == lower_seq(method))
    &&& match r.host {
        Some(rh) => match host {
            Some(h) => normalize_host_spec(h) == normalize_host_spec(rh@),
            None => false,
        },
        None => true,
    }
}

/// The length of the route's path prefix in bytes of its UTF-8 form,
/// zero when absent.
pub open spec fn prefix_len(r: Route) -> int {
    match r.path_prefix {
        Some(p) => (vstd::utf8::encode_utf8(p@).len() as usize) as int,
        None => 0,
    }
}

/// Whether the route requires a host.
pub open spec fn host_specific(r: Route) -> bool {
    r.host is Some
}

/// Whether the route restricts methods.
pub open spec fn method_specific(r: Route) -> bool {
    r.methods@.len() > 0
}

/// The strict preference order among candidates: longer prefix first —
/// measured in bytes — then host-specific, then method-specific, then the
/// smaller id.
pub open spec fn better(a: Route, b: Route) -> bool {
    if prefix_len(a) != prefix_len(b) {
        prefix_len(a) > prefix_len(b)
    } else if host_specific(a) != host_specific(b) {
        host_specific(a)
    } else if method_specific(a) != method_specific(b) {
        method_specific(a)
    } else {
        lex_lt(a.id@, b.id@)
    }
}

/// The preference order is asymmetric, and no route beats itself.
pub proof fn lemma_better_asym(a: Route, b: Route)
    ensures
        !(better(a, b) && better(b, a)),
        !better(a, a),
{
    lemma_lex_strict(a.id@, b.id@);
    lemma_lex_strict(a.id@, a.id@);
}

/// The preference order is transitive.
pub proof fn lemma_better_trans(a: Route, b: Route, c: Route)
    requires
        better(a, b),
        better(b, c),
    ensures
        better(a, c),
{
    if lex_lt(a.id@, b.id@) && lex_lt(b.id@, c.id@) {
        lemma_lex_transitive(a.id@, b.id@, c.id@);
    }
}

/// Whether any listed method equals `method` up to ASCII case.
fn method_allowed(methods: &Vec<String>, method: &str) -> (r: bool)
    ensures
        r == exists|i: int| 0 <= i < methods@.len()
            && lower_seq(#[trigger] methods@[i]@) == lower_seq(method@),
{
    let target = ascii_lower(method);
    let mut i: usize = 0;
    while i < methods.len()
        invariant
            i <= methods@.len(),
            target@ == lower_seq(method@),
            forall|j: int| 0 <= j < i ==> lower_seq(#[trigger] methods@[j]@)
                != lower_seq(method@),
        decreases methods.len() - i,
    {
        let candidate = ascii_lower(methods[i].as_str());
        if candidate == target {
            return true;
        }
        i = i + 1;
    }
    false
}

/// Whether the route accepts the request.
pub fn matches_route(route: &Route, path: &str, method: &str, host: Option<&str>) -> (r: bool)
    ensures
        r == route_matches(*route, path@, method@, host_view(host)),
{
    match &route.path_prefix {
        Some(p) => {
            if !str_starts_with(path, p.as_str()) {
                return false;
            }
        },
        None => {},
    }

    if route.methods.len() > 0 && !method_allowed(&route.methods, method) {
        return false;
    }

    match &route.host {
        Some(rh) => {
            match host {
                Some(h) => {
                    let request_host = normalize_host(h);
                    let route_host = normalize_host(rh.as_str());
                    request_host == route_host
                },
                None => false,
            }
        },
        None => true,
    }
}

/// Whether `a` is preferred over `b`.
fn is_better(a: &Route, b: &Route) -> (r: bool)
    ensures
        r == better(*a, *b),
{
    let a_len = match &a.path_prefix {
        Some(p) => {
            let ps = p.as_str();
            let l = ps.len();
            proof {
                assert(ps.spec_bytes() == vstd::utf8::encode_utf8(p@));
                assert(l as int == (vstd::utf8::encode_utf8(p@).len() as usize)
                    as int);
            }
            l
        },
        None => 0,
    };
    proof {
        assert(a_len as int == prefix_len(*a));
    }
    let b_len = match &b.path_prefix {
        Some(p) => {
            let ps = p.as_str();
            let l = ps.len();
            proof {
                assert(ps.spec_bytes() == vstd::utf8::encode_utf8(p@));
                assert(l as int == (vstd::utf8::encode_utf8(p@).len() as usize)
                    as int);
            }
            l
        },
        None => 0,
    };
    proof {
        assert(b_len as int == prefix_len(*b));
    }
    if a_len != b_len {
        return a_len > b_len;
    }
    let a_host = a.host.is_some();
    let b_host = b.host.is_some();
    if a_host != b_host {
        return a_host;
    }
    let a_meth = a.methods.len() > 0;
    let b_meth = b.methods.len() > 0;
    if a_meth != b_meth {
        return a_meth;
    }
    str_lt(a.id.as_str(), b.id.as_str())
}

/// The best route for a request, if any accepts it.
///
/// The result is a candidate that no other candidate beats, so the
/// tie-break order is as documented on `better`; for a fixed snapshot,
/// path, method and host the choice is a function of those values alone.
pub fn match_route<'a>(
    snapshot: &'a RouteSnapshot,
    path: &str,
    method: &str,
    host: Option<&str>,
) -> (r: Option<&'a Route>)
    ensures
        r is None <==> (forall|i: int| 0 <= i < snapshot.routes@.len()
            ==> !route_matches(#[trigger] snapshot.routes@[i], path@, method@,
                host_view(host))),
        r matches Some(route) ==> route_matches(*route, path@, method@, host_view(host))
            && (exists|i: int| 0 <= i < snapshot.routes@.len()
                && snapshot.routes@[i] == *route)
            && (forall|j: int| 0 <= j < snapshot.routes@.len()
                && route_matches(#[trigger] snapshot.routes@[j], path@, method@,
                    host_view(host))
                ==> !better(snapshot.routes@[j], *route)),
{
    let routes = &snapshot.routes;
    let mut best: Option<&Route> = None;
    let mut i: usize = 0;
    while i < routes.len()
        invariant
            i <= routes@.len(),
            match best {
                None => forall|j: int| 0 <= j < i
                    ==> !route_matches(#[trigger] routes@[j], path@, method@,
                        host_view(host)),
                Some(b) => route_matches(*b, path@, method@, host_view(host))
                    && (exists|k: int| 0 <= k < i && routes@[k] == *b)
                    && (forall|j: int| 0 <= j < i
                        && route_matches(#[trigger] routes@[j], path@, method@,
                            host_view(host))
                        ==> !better(routes@[j], *b)),
            },
        decreases routes.len() - i,
    {
        let candidate = &routes[i];
        if matches_route(candidate, path, method, host) {
            match best {
                None => {
                    proof {
                        lemma_better_asym(routes@[i as int], routes@[i as int]);
                    }
                    best = Some(candidate);
                },
                Some(current) => {
                    if is_better(candidate, current) {
                        proof {
                            lemma_better_asym(routes@[i as int], routes@[i as int]);
                            assert forall|j: int| 0 <= j < i + 1
                                && route_matches(#[trigger] routes@[j], path@, method@,
                                    host_view(host))
                                implies !better(routes@[j], routes@[i as int]) by {
                                if j < i {
                                    if better(routes@[j], routes@[i as int]) {
                                        lemma_better_trans(routes@[j],
                                            routes@[i as int], *current);
                                    }
                                }
                            }
                        }
                        best = Some(candidate);
                    }
                },
            }
        }
        i = i + 1;
    }
    best
}

/// How many of the counter values in `[c, c + n)` select upstream `i` of
/// `k`, selection being counter modulo `k` as `select_upstream` computes
/// it.
pub open spec fn rr_hits(c: int, n: nat, k: int, i: int) -> int
    decreases n,
{
    if n == 0 {
        0
    } else {
        rr_hits(c, (n - 1) as nat, k, i) + if (c + n - 1) % k == i {
            1int
        } else {
            0int
        }
    }
}

/// Within one window of at most `k` consecutive counters, an upstream is
/// selected once or not at all, by whether its offset falls inside the
/// window.
proof fn lemma_rr_hits_window(c: int, n: nat, k: int, i: int)
    requires
        0 < k,
        0 <= i < k,
        n <= k,
    ensures
        rr_hits(c, n, k, i) == if (i - c) % k < n {
            1int
        } else {
            0int
        },
    decreases n,
{
    vstd::arithmetic::div_mod::lemma_mod_bound(i - c, k);
    let d = (i - c) % k;
    if n == 0 {
    } else {
        lemma_rr_hits_window(c, (n - 1) as nat, k, i);
        let last = c + n - 1;
        if last % k == i {
            vstd::arithmetic::div_mod::lemma_sub_mod_noop(last, c, k);
            vstd::arithmetic::div_mod::lemma_sub_mod_noop_right(last % k, c, k);
            assert((last % k - c % k) % k == (last - c) % k);
            assert((last % k - c % k) % k == (last % k - c) % k) by {
                vstd::arithmetic::div_mod::lemma_sub_mod_noop_right(last % k, c, k);
            }
            assert((i - c) % k == (n - 1) % k);
            vstd::arithmetic::div_mod::lemma_small_mod((n - 1) as nat, k as nat);
            assert(d == n - 1);
        } else {
            if d == n - 1 {
                let q = (i - c) / k;
                vstd::arithmetic::div_mod::lemma_fundamental_div_mod(i - c, k);
                assert(i - c == q * k + d);
                assert(last == i - q * k);
                vstd::arithmetic::div_mod::lemma_mod_multiples_vanish(-q, i, k);
                assert((k * -q + i) % k == i % k);
                assert(k * -q + i == last) by (nonlinear_arith)
                    requires
                        last == i - q * k,
                ;
                vstd::arithmetic::div_mod::lemma_small_mod(i as nat, k as nat);
                assert(last % k == i);
            }
        }
    }
}

/// Counting splits over consecutive ranges.
proof fn lemma_rr_hits_add(c: int, a: nat, b: nat, k: int, i: int)
    ensures
        rr_hits(c, a + b, k, i) == rr_hits(c, a, k, i) + rr_hits(c + a, b, k, i),
    decreases b,
{
    if b > 0 {
        lemma_rr_hits_add(c, a, (b - 1) as nat, k, i);
    }
}

/// Round-robin fairness: over any `n` consecutive counter values, each of
/// the `k` upstreams is selected either `n / k` or `n / k + 1` times; when
/// `k` divides `n`, exactly `n / k` times.
pub proof fn lemma_round_robin_fair(c: int, n: nat, k: int, i: int)
    requires
        0 < k,
        0 <= i < k,
    ensures
        rr_hits(c, n, k, i) == n as int / k || rr_hits(c, n, k, i) == n as int / k + 1,
        n as int % k == 0 ==> rr_hits(c, n, k, i) == n as int / k,
    decreases n,
{
    if n < k {
        lemma_rr_hits_window(c, n, k, i);
        vstd::arithmetic::div_mod::lemma_basic_div_specific_divisor(k);
        assert(n as int / k == 0);
        vstd::arithmetic::div_mod::lemma_small_mod(n, k as nat);
    } else {
        let m = (n - k) as nat;
        lemma_rr_hits_add(c, m, k as nat, k, i);
        lemma_rr_hits_window(c + m, k as nat, k, i);
        vstd::arithmetic::div_mod::lemma_mod_bound(i - (c + m), k);
        assert(rr_hits(c + m, k as nat, k, i) == 1);
        lemma_round_robin_fair(c, m, k, i);
        vstd::arithmetic::div_mod::lemma_fundamental_div_mod(n as int, k);
        vstd::arithmetic::div_mod::lemma_mod_bound(n as int, k);
        let q = n as int / k;
        let r = n as int % k;
        assert(n as int == q * k + r);
        assert(m as int == (q - 1) * k + r) by (nonlinear_arith)
            requires
                n as int == q * k + r,
                m as int == n as int - k,
        ;
        vstd::arithmetic::div_mod::lemma_fundamental_div_mod_converse(m as int, k,
            q - 1, r);
        assert(m as int / k == q - 1);
        assert(m as int % k == r);
    }
}

/// The round-robin choice for a route: the upstream at the counter's
/// position, wrapping around; nothing when the route has no upstreams.
pub fn select_upstream(route: &Route, rr_counter: usize) -> (r: Option<&Upstream>)
    ensures
        r is None <==> route.upstreams@.len() == 0,
        route.upstreams@.len() > 0 ==> (r matches Some(u)
            && *u == route.upstreams@[rr_counter as int % route.upstreams@.len() as int]),
{
    if route.upstreams.len() == 0 {
        return None;
    }
    let idx = rr_counter % route.upstreams.len();
    Some(&route.upstreams[idx])
}

} // verus!
