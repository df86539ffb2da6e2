//! Applying a composed policy decision to the outgoing request, and
//! planning the upstream connection.
//!
//! A policy failure anywhere in the stage refuses the request — it is
//! never forwarded without the policy's effect.

use vstd::prelude::*;
use vstd::string::StrSliceExecFns;
use vstd::string::StringExecFns;

use crate::engine::{
    any_body_patch, any_direct_response, cat_request_headers, cat_response_headers,
    compose_decisions, last_hint, last_rewrite,
};
use crate::artifact::{parse_url, url_parses, url_parts_of};
use crate::policy::{HeaderMutation, PolicyDecision, PolicyRuntimeError, RequestRewrite};
use crate::router::Route;
use crate::strutil::{
    ascii_lower, dec_rep, has_substr, lower_seq, str_contains, str_eq, usize_to_string,
};

verus! {

/// Why a request was refused instead of forwarded.
#[derive(Debug, PartialEq, Eq, Structural)]
pub enum ProxyFault {
    PolicyFailed,
    UnsupportedAction,
    UpstreamHintMismatch,
    NoUpstream,
    InvalidUpstreamUrl,
    InvalidUpstreamHost,
    InvalidUpstreamPort,
    InvalidMethod,
}

/// The outgoing request as the proxy shapes it: method, path, and header
/// lines in order.
#[derive(Debug)]
pub struct OutgoingRequest {
    pub method: String,
    pub path: String,
    pub headers: Vec<(String, String)>,
}

/// The header lines with the named header removed, case-insensitively.
pub open spec fn remove_header(
    headers: Seq<(Seq<char>, Seq<char>)>,
    name: Seq<char>,
) -> Seq<(Seq<char>, Seq<char>)>
    decreases headers.len(),
{
    if headers.len() == 0 {
        Seq::empty()
    } else {
        let rest = remove_header(headers.drop_first(), name);
        if lower_seq(headers[0].0) == lower_seq(name) {
            rest
        } else {
            seq![headers[0]] + rest
        }
    }
}

/// One header mutation applied: an overwrite removes the header and adds
/// the new line at the end; an append only adds the line.
pub open spec fn apply_mutation(
    headers: Seq<(Seq<char>, Seq<char>)>,
    m: HeaderMutation,
) -> Seq<(Seq<char>, Seq<char>)> {
    if m.overwrite {
        remove_header(headers, m.name@).push((m.name@, m.value@))
    } else {
        headers.push((m.name@, m.value@))
    }
}

/// The mutations applied in order.
pub open spec fn apply_mutations(
    headers: Seq<(Seq<char>, Seq<char>)>,
    ms: Seq<HeaderMutation>,
) -> Seq<(Seq<char>, Seq<char>)>
    decreases ms.len(),
{
    if ms.len() == 0 {
        headers
    } else {
        apply_mutations(apply_mutation(headers, ms[0]), ms.drop_first())
    }
}

/// Removal keeps exactly the other headers.
proof fn lemma_remove_header_snoc(
    headers: Seq<(Seq<char>, Seq<char>)>,
    x: (Seq<char>, Seq<char>),
    name: Seq<char>,
)
    ensures
        remove_header(headers.push(x), name) == remove_header(headers, name)
            + (if lower_seq(x.0) == lower_seq(name) {
                Seq::<(Seq<char>, Seq<char>)>::empty()
            } else {
                seq![x]
            }),
    decreases headers.len(),
{
    let p = headers.push(x);
    if headers.len() == 0 {
        assert(p[0] == x);
        assert(p.drop_first() =~= Seq::<(Seq<char>, Seq<char>)>::empty());
        assert(remove_header(Seq::<(Seq<char>, Seq<char>)>::empty(), name)
            =~= Seq::<(Seq<char>, Seq<char>)>::empty());
        if lower_seq(x.0) == lower_seq(name) {
            assert(remove_header(p, name) =~= remove_header(headers, name));
        } else {
            assert(remove_header(p, name) =~= remove_header(headers, name) + seq![x]);
        }
    } else {
        lemma_remove_header_snoc(headers.drop_first(), x, name);
        assert(p[0] == headers[0]);
        assert(p.drop_first() =~= headers.drop_first().push(x));
        if lower_seq(headers[0].0) != lower_seq(name)
            && lower_seq(x.0) != lower_seq(name) {
            assert(seq![headers[0]] + (remove_header(headers.drop_first(), name)
                + seq![x]) =~= (seq![headers[0]] + remove_header(headers.drop_first(),
                name)) + seq![x]);
        }
    }
}

/// The named header removed, executable.
fn remove_header_exec(headers: &mut Vec<(String, String)>, name: &String)
    ensures
        final(headers).deep_view() == remove_header(old(headers).deep_view(), name@),
{
    let target = ascii_lower(name.as_str());
    let mut out: Vec<(String, String)> = Vec::new();
    proof {
        assert(old(headers).deep_view().take(0)
            =~= Seq::<(Seq<char>, Seq<char>)>::empty());
        assert(remove_header(Seq::<(Seq<char>, Seq<char>)>::empty(), name@)
            =~= Seq::<(Seq<char>, Seq<char>)>::empty());
        assert(out.deep_view() =~= Seq::<(Seq<char>, Seq<char>)>::empty());
    }
    let mut i: usize = 0;
    while i < headers.len()
        invariant
            i <= headers@.len(),
            target@ == lower_seq(name@),
            headers.deep_view().len() == headers@.len(),
            forall|t: int| 0 <= t < headers@.len() ==> #[trigger] headers.deep_view()[t]
                == (headers@[t].0@, headers@[t].1@),
            out.deep_view() == remove_header(headers.deep_view().take(i as int), name@),
        decreases headers@.len() - i,
    {
        let lowered = ascii_lower(headers[i].0.as_str());
        let keep = !(lowered == target);
        if keep {
            let entry = (headers[i].0.clone(), headers[i].1.clone());
            out.push(entry);
        }
        proof {
            let view = headers.deep_view();
            lemma_remove_header_snoc(view.take(i as int), view[i as int], name@);
            assert(view.take(i as int + 1) =~= view.take(i as int).push(
                view[i as int]));
            assert(out.deep_view() =~= remove_header(view.take(i as int + 1), name@));
        }
        i = i + 1;
    }
    proof {
        assert(headers.deep_view().take(headers@.len() as int)
            =~= headers.deep_view());
    }
    *headers = out;
}

/// The mutations applied to the header lines, in order.
pub fn apply_header_mutations(headers: &mut Vec<(String, String)>, muts: &Vec<
    HeaderMutation>)
    ensures
        final(headers).deep_view() == apply_mutations(old(headers).deep_view(), muts@),
{
    let ghost original = old(headers).deep_view();
    proof {
        assert(muts@.skip(0) =~= muts@);
    }
    let mut i: usize = 0;
    while i < muts.len()
        invariant
            i <= muts@.len(),
            apply_mutations(original, muts@) == apply_mutations(headers.deep_view(),
                muts@.skip(i as int)),
        decreases muts@.len() - i,
    {
        let m = &muts[i];
        let ghost before = headers.deep_view();
        if m.overwrite {
            remove_header_exec(headers, &m.name);
            let entry = (m.name.clone(), m.value.clone());
            headers.push(entry);
        } else {
            let entry = (m.name.clone(), m.value.clone());
            headers.push(entry);
        }
        proof {
            assert(headers.deep_view() =~= apply_mutation(before, muts@[i as int]));
            let rest = muts@.skip(i as int);
            assert(rest[0] == muts@[i as int]);
            assert(rest.drop_first() =~= muts@.skip(i as int + 1));
        }
        i = i + 1;
    }
    proof {
        assert(muts@.skip(muts@.len() as int) =~= Seq::<HeaderMutation>::empty());
    }
}

/// Whether every character may stand in an HTTP method token.
pub open spec fn is_tchar(c: char) -> bool {
    ('a' <= c && c <= 'z') || ('A' <= c && c <= 'Z') || ('0' <= c && c <= '9')
        || c == '!' || c == '#' || c == '$' || c == '%' || c == '&' || c == '\''
        || c == '*' || c == '+' || c == '-' || c == '.' || c == '^' || c == '_'
        || c == '`' || c == '|' || c == '~'
}

/// Whether the string is a non-empty HTTP method token.
pub open spec fn is_method_token(s: Seq<char>) -> bool {
    s.len() > 0 && forall|i: int| 0 <= i < s.len() ==> is_tchar(#[trigger] s[i])
}

/// Whether the string may be used as an HTTP method.
pub fn is_valid_method(m: &str) -> (r: bool)
    ensures
        r == is_method_token(m@),
{
    let n = m.unicode_len();
    if n == 0 {
        return false;
    }
    let mut i: usize = 0;
    while i < n
        invariant
            i <= n,
            n == m@.len(),
            forall|j: int| 0 <= j < i ==> is_tchar(#[trigger] m@[j]),
        decreases n - i,
    {
        let c = m.get_char(i);
        let ok = ('a' <= c && c <= 'z') || ('A' <= c && c <= 'Z')
            || ('0' <= c && c <= '9') || c == '!' || c == '#' || c == '$' || c == '%'
            || c == '&' || c == '\'' || c == '*' || c == '+' || c == '-' || c == '.'
            || c == '^' || c == '_' || c == '`' || c == '|' || c == '~';
        if !ok {
            return false;
        }
        i = i + 1;
    }
    true
}

/// The rewrite applied to the outgoing request: the method replaced when
/// requested and valid, the path replaced when requested; headers are
/// untouched. An invalid method refuses the request with the request
/// unchanged.
pub fn apply_rewrite(request: &mut OutgoingRequest, rewrite: &RequestRewrite) -> (r:
    Result<(), ProxyFault>)
    ensures
        r is Ok <==> (match rewrite.method {
            Some(m) => is_method_token(m@),
            None => true,
        }),
        r is Err ==> *final(request) == *old(request) && r == Err::<(), ProxyFault>(
            ProxyFault::InvalidMethod),
        r is Ok ==> final(request).method@ == (match rewrite.method {
            Some(m) => m@,
            None => old(request).method@,
        }) && final(request).path@ == (match rewrite.path {
            Some(p) => p@,
            None => old(request).path@,
        }) && final(request).headers == old(request).headers,
{
    match &rewrite.method {
        Some(m) => {
            if !is_valid_method(m.as_str()) {
                return Err(ProxyFault::InvalidMethod);
            }
            request.method = m.clone();
        },
        None => {},
    }
    match &rewrite.path {
        Some(p) => {
            request.path = p.clone();
        },
        None => {},
    }
    Ok(())
}

/// A pre-upstream decision may set request headers, a rewrite, and an
/// upstream hint; anything else — a direct response, a body patch, or
/// response headers — is not honored at this stage and refuses the
/// request.
pub fn validate_supported_pre_upstream_actions(decision: &PolicyDecision) -> (r: Result<
    (), PolicyRuntimeError>)
    ensures
        r is Ok <==> (decision.direct_response is None
            && decision.request_body_patch is None
            && decision.response_headers@.len() == 0),
        decision.direct_response is Some ==> (r matches Err(e)
            && e matches PolicyRuntimeError::UnsupportedDecisionAction { reason }
            && reason@ == "direct response is not supported in pre_upstream yet"@),
        (decision.direct_response is None && decision.request_body_patch is Some)
            ==> (r matches Err(e)
            && e matches PolicyRuntimeError::UnsupportedDecisionAction { reason }
            && reason@ == "request body mutation is not supported yet"@),
        (decision.direct_response is None && decision.request_body_patch is None
            && decision.response_headers@.len() > 0) ==> (r matches Err(e)
            && e matches PolicyRuntimeError::UnsupportedDecisionAction { reason }
            && reason@ == "response header mutations are not supported in pre_upstream"@),
{
    if decision.direct_response.is_some() {
        return Err(PolicyRuntimeError::UnsupportedDecisionAction {
            reason: "direct response is not supported in pre_upstream yet".to_owned(),
        });
    }
    if decision.request_body_patch.is_some() {
        return Err(PolicyRuntimeError::UnsupportedDecisionAction {
            reason: "request body mutation is not supported yet".to_owned(),
        });
    }
    if decision.response_headers.len() > 0 {
        return Err(PolicyRuntimeError::UnsupportedDecisionAction {
            reason: "response header mutations are not supported in pre_upstream"
                .to_owned(),
        });
    }
    Ok(())
}

/// The connection plan for one upstream: the address dialled, whether TLS
/// is used, and the TLS server name.
#[derive(Debug)]
pub struct PeerPlan {
    pub addr: String,
    pub tls: bool,
    pub sni: String,
}

/// The URL text as dialled: schemeless `host:port` values default to
/// `http`.
pub open spec fn effective_url(u: Seq<char>) -> Seq<char> {
    if has_substr(u, "://"@) {
        u
    } else {
        "http://"@ + u
    }
}

/// How a peer plan corresponds to an upstream URL.
pub open spec fn peer_of(u: Seq<char>, p: PeerPlan) -> bool {
    &&& url_parses(effective_url(u))
    &&& {
        let (scheme, host, port) = url_parts_of(effective_url(u));
        &&& host matches Some(h) && port matches Some(pt)
            && p.addr@ == h + ":"@ + dec_rep(pt as nat)
            && p.tls == (scheme == "https"@) && p.sni@ == h
    }
}

/// The connection plan for an upstream URL: `https` means TLS with the
/// URL host as server name, and the address is the host with the URL's
/// port, defaulted by scheme.
pub fn build_peer(upstream_url: &str) -> (r: Result<PeerPlan, ProxyFault>)
    ensures
        r matches Ok(p) ==> peer_of(upstream_url@, p),
        !url_parses(effective_url(upstream_url@)) ==> r == Err::<PeerPlan, ProxyFault>(
            ProxyFault::InvalidUpstreamUrl),
        url_parses(effective_url(upstream_url@)) ==> {
            let (scheme, host, port) = url_parts_of(effective_url(upstream_url@));
            &&& host is None ==> r == Err::<PeerPlan, ProxyFault>(
                ProxyFault::InvalidUpstreamHost)
            &&& (host is Some && port is None) ==> r == Err::<PeerPlan, ProxyFault>(
                ProxyFault::InvalidUpstreamPort)
            &&& (host is Some && port is Some) ==> r is Ok
        },
{
    let effective: String = if str_contains(upstream_url, "://") {
        upstream_url.to_owned()
    } else {
        let mut s = "http://".to_owned();
        s.append(upstream_url);
        s
    };
    let parts = match parse_url(effective.as_str()) {
        Some(p) => p,
        None => {
            return Err(ProxyFault::InvalidUpstreamUrl);
        },
    };
    let tls = str_eq(parts.scheme.as_str(), "https");
    let host = match parts.host {
        Some(h) => h,
        None => {
            return Err(ProxyFault::InvalidUpstreamHost);
        },
    };
    let port = match parts.port {
        Some(p) => p,
        None => {
            return Err(ProxyFault::InvalidUpstreamPort);
        },
    };
    let mut addr = host.clone();
    addr.append(":");
    let port_text = usize_to_string(port as usize);
    addr.append(port_text.as_str());
    Ok(PeerPlan { addr, tls, sni: host })
}

/// The decisions of the outcomes, all of which succeeded.
pub open spec fn ok_decisions(
    outcomes: Seq<Result<PolicyDecision, PolicyRuntimeError>>,
) -> Seq<PolicyDecision>
    decreases outcomes.len(),
{
    if outcomes.len() == 0 {
        Seq::empty()
    } else {
        let rest = ok_decisions(outcomes.drop_first());
        match outcomes[0] {
            Ok(d) => seq![d] + rest,
            Err(_) => rest,
        }
    }
}

/// One more outcome extends the collected decisions by its decision, or
/// not at all.
proof fn lemma_ok_decisions_snoc(
    outcomes: Seq<Result<PolicyDecision, PolicyRuntimeError>>,
    x: Result<PolicyDecision, PolicyRuntimeError>,
)
    ensures
        ok_decisions(outcomes.push(x)) == ok_decisions(outcomes) + (match x {
            Ok(d) => seq![d],
            Err(_) => Seq::<PolicyDecision>::empty(),
        }),
    decreases outcomes.len(),
{
    let p = outcomes.push(x);
    if outcomes.len() == 0 {
        assert(p[0] == x);
        assert(p.drop_first()
            =~= Seq::<Result<PolicyDecision, PolicyRuntimeError>>::empty());
        assert(ok_decisions(
            Seq::<Result<PolicyDecision, PolicyRuntimeError>>::empty())
            =~= Seq::<PolicyDecision>::empty());
        match x {
            Ok(d) => {
                assert(ok_decisions(p) =~= ok_decisions(outcomes) + seq![d]);
            },
            Err(_) => {
                assert(ok_decisions(p) =~= ok_decisions(outcomes));
            },
        }
    } else {
        lemma_ok_decisions_snoc(outcomes.drop_first(), x);
        assert(p[0] == outcomes[0]);
        assert(p.drop_first() =~= outcomes.drop_first().push(x));
        match outcomes[0] {
            Ok(d0) => {
                match x {
                    Ok(d) => {
                        assert(seq![d0] + (ok_decisions(outcomes.drop_first())
                            + seq![d]) =~= (seq![d0] + ok_decisions(
                            outcomes.drop_first())) + seq![d]);
                    },
                    Err(_) => {
                        assert(ok_decisions(p) =~= ok_decisions(outcomes));
                    },
                }
            },
            Err(_) => {},
        }
    }
}

/// Whether every outcome of the stage succeeded.
pub open spec fn all_outcomes_ok(
    outcomes: Seq<Result<PolicyDecision, PolicyRuntimeError>>,
) -> bool {
    forall|i: int| 0 <= i < outcomes.len() ==> (#[trigger] outcomes[i]) is Ok
}

/// Whether the composed decisions carry an action the pre-upstream stage
/// does not honor: a direct response, a body patch, or response headers.
pub open spec fn unsupported_actions(ds: Seq<PolicyDecision>) -> bool {
    any_direct_response(ds) || any_body_patch(ds) || cat_response_headers(ds).len() > 0
}

/// The upstream URL the stage selects, if one exists: the hinted URL when
/// some upstream carries it, the round-robin choice otherwise.
pub open spec fn chosen_upstream_url(
    route: Route,
    ds: Seq<PolicyDecision>,
    rr: int,
) -> Option<Seq<char>> {
    match last_hint(ds) {
        Some(h) => if exists|k: int| 0 <= k < route.upstreams@.len()
            && (#[trigger] route.upstreams@[k]).url@ == h@ {
            Some(h@)
        } else {
            None
        },
        None => if route.upstreams@.len() > 0 {
            Some(route.upstreams@[rr % route.upstreams@.len() as int].url@)
        } else {
            None
        },
    }
}

/// The stage's outcome for a request on a route: if any policy failed the
/// request is refused, never forwarded; otherwise the decisions compose,
/// unsupported actions refuse the request, and the upstream is the hinted
/// one or the round-robin choice, with its connection plan — each failure
/// with its reason, and success owed whenever none applies.
pub fn plan_request(
    route: &Route,
    outcomes: Vec<Result<PolicyDecision, PolicyRuntimeError>>,
    rr_counter: usize,
) -> (r: Result<(PolicyDecision, PeerPlan), ProxyFault>)
    ensures
        (exists|i: int| 0 <= i < outcomes@.len() && (#[trigger] outcomes@[i]) is Err)
            ==> r == Err::<(PolicyDecision, PeerPlan), ProxyFault>(
            ProxyFault::PolicyFailed),
        r is Ok ==> all_outcomes_ok(outcomes@),
        r matches Ok((d, _)) ==> {
            let ds = ok_decisions(outcomes@);
            &&& d.request_headers@ == cat_request_headers(ds)
            &&& d.request_rewrite == last_rewrite(ds)
            &&& d.upstream_hint == last_hint(ds)
            &&& d.direct_response is None
            &&& d.request_body_patch is None
            &&& d.response_headers@.len() == 0
        },
        r matches Ok((d, p)) ==> (match d.upstream_hint {
            Some(h) => exists|k: int| 0 <= k < route.upstreams@.len()
                && (#[trigger] route.upstreams@[k]).url@ == h@ && peer_of(
                route.upstreams@[k].url@, p),
            None => route.upstreams@.len() > 0 && peer_of(
                route.upstreams@[rr_counter as int % route.upstreams@.len() as int].url@,
                p),
        }),
        all_outcomes_ok(outcomes@) ==> {
            let ds = ok_decisions(outcomes@);
            &&& unsupported_actions(ds) ==> r == Err::<(PolicyDecision, PeerPlan),
                ProxyFault>(ProxyFault::UnsupportedAction)
            &&& !unsupported_actions(ds) ==> match chosen_upstream_url(*route, ds,
                rr_counter as int) {
                None => (match last_hint(ds) {
                    Some(_) => r == Err::<(PolicyDecision, PeerPlan), ProxyFault>(
                        ProxyFault::UpstreamHintMismatch),
                    None => r == Err::<(PolicyDecision, PeerPlan), ProxyFault>(
                        ProxyFault::NoUpstream),
                }),
                Some(u) => {
                    &&& !url_parses(effective_url(u)) ==> r == Err::<(PolicyDecision,
                        PeerPlan), ProxyFault>(ProxyFault::InvalidUpstreamUrl)
                    &&& url_parses(effective_url(u)) ==> {
                        let (scheme, host, port) = url_parts_of(effective_url(u));
                        &&& host is None ==> r == Err::<(PolicyDecision, PeerPlan),
                            ProxyFault>(ProxyFault::InvalidUpstreamHost)
                        &&& (host is Some && port is None) ==> r == Err::<(
                            PolicyDecision, PeerPlan), ProxyFault>(
                            ProxyFault::InvalidUpstreamPort)
                        &&& (host is Some && port is Some) ==> (r matches Ok((_, p))
                            && peer_of(u, p))
                    }
                },
            }
        },
{
    let ghost all = outcomes@;
    let n = outcomes.len();
    let mut rest = outcomes;
    let mut decisions: Vec<PolicyDecision> = Vec::new();
    proof {
        assert(all.skip(0) =~= all);
        assert(ok_decisions(all.take(0))
            =~= Seq::<PolicyDecision>::empty());
        assert(decisions@ =~= Seq::<PolicyDecision>::empty());
    }
    let mut i: usize = 0;
    while rest.len() > 0
        invariant
            i <= n,
            n == all.len(),
            all == outcomes@,
            rest@ =~= all.skip(i as int),
            decisions@ == ok_decisions(all.take(i as int)),
            forall|t: int| 0 <= t < i ==> (#[trigger] all[t]) is Ok,
        decreases rest@.len(),
    {
        proof {
            assert(all.skip(i as int).len() == all.len() - i);
        }
        let outcome = rest.remove(0);
        proof {
            assert(outcome == all[i as int]);
            assert(rest@ =~= all.skip(i as int + 1));
            lemma_ok_decisions_snoc(all.take(i as int), all[i as int]);
            assert(all.take(i as int + 1) =~= all.take(i as int).push(all[i as int]));
        }
        match outcome {
            Ok(d) => {
                decisions.push(d);
            },
            Err(_) => {
                proof {
                    assert(!(all[i as int] is Ok));
                    assert(!all_outcomes_ok(all));
                    assert(!all_outcomes_ok(outcomes@));
                }
                return Err(ProxyFault::PolicyFailed);
            },
        }
        i = i + 1;
    }
    proof {
        assert(all.take(all.len() as int) =~= all);
    }

    let combined = compose_decisions(decisions);
    match validate_supported_pre_upstream_actions(&combined) {
        Ok(()) => {},
        Err(_) => {
            return Err(ProxyFault::UnsupportedAction);
        },
    }

    let chosen_url: &String = match &combined.upstream_hint {
        Some(hint) => {
            let mut k: usize = 0;
            let mut found: Option<usize> = None;
            while k < route.upstreams.len()
                invariant_except_break
                    found is None,
                invariant
                    k <= route.upstreams@.len(),
                    forall|t: int| 0 <= t < k
                        ==> (#[trigger] route.upstreams@[t]).url@ != hint@,
                ensures
                    match found {
                        Some(f) => f < route.upstreams@.len()
                            && route.upstreams@[f as int].url@ == hint@,
                        None => forall|t: int| 0 <= t < route.upstreams@.len()
                            ==> (#[trigger] route.upstreams@[t]).url@ != hint@,
                    },
                decreases route.upstreams@.len() - k,
            {
                if route.upstreams[k].url == *hint {
                    found = Some(k);
                    break;
                }
                k = k + 1;
            }
            match found {
                Some(f) => &route.upstreams[f].url,
                None => {
                    return Err(ProxyFault::UpstreamHintMismatch);
                },
            }
        },
        None => {
            if route.upstreams.len() == 0 {
                return Err(ProxyFault::NoUpstream);
            }
            let idx = rr_counter % route.upstreams.len();
            &route.upstreams[idx].url
        },
    };

    let peer = match build_peer(chosen_url.as_str()) {
        Ok(p) => p,
        Err(f) => {
            return Err(f);
        },
    };
    Ok((combined, peer))
}

} // verus!
