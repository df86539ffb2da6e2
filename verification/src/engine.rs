//! The policy registry: which policies are loaded, which bindings may
//! run, and how the decisions of one stage compose.

use vstd::prelude::*;

use crate::policy::{
    HeaderMutation, PolicyBinding, PolicyDecision, PolicyKey, PolicyRuntimeError,
    PolicyStage, RequestRewrite,
};

verus! {

/// The loaded policies of one runtime snapshot, by identity. The
/// executable modules themselves live with the host that runs them; the
/// registry answers which identities may be invoked.
#[derive(Debug)]
pub struct PolicyRegistry {
    pub keys: Vec<PolicyKey>,
}

/// Whether a policy identity is loaded.
pub open spec fn loaded(r: PolicyRegistry, id: Seq<char>, version: Seq<char>) -> bool {
    exists|k: int| 0 <= k < r.keys@.len() && r.keys@[k].id@ == id
        && r.keys@[k].version@ == version
}

impl PolicyRegistry {
    /// A registry with nothing loaded.
    pub fn empty() -> (r: Self)
        ensures
            r.keys@.len() == 0,
    {
        PolicyRegistry { keys: Vec::new() }
    }

    /// A registry over the given identities.
    pub fn from_keys(keys: Vec<PolicyKey>) -> (r: Self)
        ensures
            r.keys == keys,
    {
        PolicyRegistry { keys }
    }

    /// Whether the identity is loaded.
    pub fn contains_key(&self, key: &PolicyKey) -> (r: bool)
        ensures
            r == loaded(*self, key.id@, key.version@),
    {
        let mut k: usize = 0;
        while k < self.keys.len()
            invariant
                k <= self.keys@.len(),
                forall|t: int| #![trigger self.keys@[t]] 0 <= t < k
                    ==> !(self.keys@[t].id@ == key.id@
                    && self.keys@[t].version@ == key.version@),
            decreases self.keys@.len() - k,
        {
            if self.keys[k] == *key {
                return true;
            }
            k = k + 1;
        }
        proof {
            if loaded(*self, key.id@, key.version@) {
                let w = choose|w: int| 0 <= w < self.keys@.len()
                    && self.keys@[w].id@ == key.id@
                    && self.keys@[w].version@ == key.version@;
            }
        }
        false
    }

    /// Whether a binding may be invoked at the pre-upstream stage: its
    /// policy must be loaded, and its declared stage must be that stage.
    pub fn check_binding(&self, binding: &PolicyBinding) -> (r: Result<
        (), PolicyRuntimeError>)
        ensures
            r is Ok <==> (loaded(*self, binding.key.id@, binding.key.version@)
                && binding.stage == PolicyStage::PreUpstream),
            !loaded(*self, binding.key.id@, binding.key.version@)
                ==> (r matches Err(e)
                && e matches PolicyRuntimeError::UnknownPolicy { id, version }
                && id@ == binding.key.id@ && version@ == binding.key.version@),
            (loaded(*self, binding.key.id@, binding.key.version@)
                && binding.stage != PolicyStage::PreUpstream)
                ==> (r matches Err(e)
                && e matches PolicyRuntimeError::UnsupportedStage { stage, id, version }
                && stage@ == crate::policy::stage_name(binding.stage)
                && id@ == binding.key.id@ && version@ == binding.key.version@),
    {
        if !self.contains_key(&binding.key) {
            return Err(PolicyRuntimeError::UnknownPolicy {
                id: binding.key.id.clone(),
                version: binding.key.version.clone(),
            });
        }
        match binding.stage {
            PolicyStage::PreUpstream => Ok(()),
            _ => Err(PolicyRuntimeError::UnsupportedStage {
                stage: binding.stage.as_str().to_owned(),
                id: binding.key.id.clone(),
                version: binding.key.version.clone(),
            }),
        }
    }
}

/// The request-header mutations of a run of decisions, in order.
pub open spec fn cat_request_headers(ds: Seq<PolicyDecision>) -> Seq<HeaderMutation>
    decreases ds.len(),
{
    if ds.len() == 0 {
        Seq::empty()
    } else {
        ds[0].request_headers@ + cat_request_headers(ds.drop_first())
    }
}

/// The response-header mutations of a run of decisions, in order.
pub open spec fn cat_response_headers(ds: Seq<PolicyDecision>) -> Seq<HeaderMutation>
    decreases ds.len(),
{
    if ds.len() == 0 {
        Seq::empty()
    } else {
        ds[0].response_headers@ + cat_response_headers(ds.drop_first())
    }
}

/// The last rewrite any decision chose, if any: a later decision wins.
pub open spec fn last_rewrite(ds: Seq<PolicyDecision>) -> Option<RequestRewrite>
    decreases ds.len(),
{
    if ds.len() == 0 {
        None
    } else if ds.last().request_rewrite is Some {
        ds.last().request_rewrite
    } else {
        last_rewrite(ds.drop_last())
    }
}

/// The last upstream hint any decision chose, if any.
pub open spec fn last_hint(ds: Seq<PolicyDecision>) -> Option<String>
    decreases ds.len(),
{
    if ds.len() == 0 {
        None
    } else if ds.last().upstream_hint is Some {
        ds.last().upstream_hint
    } else {
        last_hint(ds.drop_last())
    }
}

/// Whether any decision carried a direct response.
pub open spec fn any_direct_response(ds: Seq<PolicyDecision>) -> bool {
    exists|i: int| 0 <= i < ds.len() && (#[trigger] ds[i]).direct_response is Some
}

/// Whether any decision carried a body patch.
pub open spec fn any_body_patch(ds: Seq<PolicyDecision>) -> bool {
    exists|i: int| 0 <= i < ds.len() && (#[trigger] ds[i]).request_body_patch is Some
}

/// Concatenation splits over one more decision.
proof fn lemma_cat_snoc(ds: Seq<PolicyDecision>, d: PolicyDecision)
    ensures
        cat_request_headers(ds.push(d)) == cat_request_headers(ds) + d.request_headers@,
        cat_response_headers(ds.push(d)) == cat_response_headers(ds)
            + d.response_headers@,
    decreases ds.len(),
{
    let p = ds.push(d);
    if ds.len() == 0 {
        assert(p[0] == d);
        assert(p.drop_first() =~= Seq::<PolicyDecision>::empty());
        assert(cat_request_headers(Seq::<PolicyDecision>::empty())
            =~= Seq::<HeaderMutation>::empty());
        assert(cat_response_headers(Seq::<PolicyDecision>::empty())
            =~= Seq::<HeaderMutation>::empty());
        assert(cat_request_headers(p) =~= cat_request_headers(ds)
            + d.request_headers@);
        assert(cat_response_headers(p) =~= cat_response_headers(ds)
            + d.response_headers@);
    } else {
        lemma_cat_snoc(ds.drop_first(), d);
        assert(p[0] == ds[0]);
        assert(p.drop_first() =~= ds.drop_first().push(d));
        assert(ds[0].request_headers@ + (cat_request_headers(ds.drop_first())
            + d.request_headers@) =~= (ds[0].request_headers@ + cat_request_headers(
            ds.drop_first())) + d.request_headers@);
        assert(ds[0].response_headers@ + (cat_response_headers(ds.drop_first())
            + d.response_headers@) =~= (ds[0].response_headers@ + cat_response_headers(
            ds.drop_first())) + d.response_headers@);
    }
}

/// The composition of a run of decisions: header lists concatenate in
/// order, and the scalar actions are last-write-wins.
pub fn compose_decisions(decisions: Vec<PolicyDecision>) -> (r: PolicyDecision)
    ensures
        r.request_headers@ == cat_request_headers(decisions@),
        r.response_headers@ == cat_response_headers(decisions@),
        r.request_rewrite == last_rewrite(decisions@),
        r.upstream_hint == last_hint(decisions@),
        r.direct_response is Some <==> any_direct_response(decisions@),
        r.request_body_patch is Some <==> any_body_patch(decisions@),
{
    let ghost original = decisions@;
    let n = decisions.len();
    let mut rest = decisions;
    let mut combined = PolicyDecision::default();
    let ghost done = Seq::<PolicyDecision>::empty();
    proof {
        assert(cat_request_headers(done) =~= Seq::<HeaderMutation>::empty());
        assert(cat_response_headers(done) =~= Seq::<HeaderMutation>::empty());
    }
    let mut i: usize = 0;
    while rest.len() > 0
        invariant
            i <= n,
            n == original.len(),
            rest@ =~= original.skip(i as int),
            combined.request_headers@ == cat_request_headers(original.take(i as int)),
            combined.response_headers@ == cat_response_headers(original.take(i as int)),
            combined.request_rewrite == last_rewrite(original.take(i as int)),
            combined.upstream_hint == last_hint(original.take(i as int)),
            combined.direct_response is Some <==> any_direct_response(original.take(
                i as int)),
            combined.request_body_patch is Some <==> any_body_patch(original.take(
                i as int)),
        decreases rest@.len(),
    {
        proof {
            assert(original.skip(i as int).len() == original.len() - i);
        }
        let d = rest.remove(0);
        proof {
            assert(d == original[i as int]);
            assert(rest@ =~= original.skip(i as int + 1));
        }
        let ghost had_direct = combined.direct_response is Some;
        let ghost had_patch = combined.request_body_patch is Some;
        combined.merge_from(d);
        proof {
            let prefix = original.take(i as int);
            let next = original.take(i as int + 1);
            assert(next =~= prefix.push(original[i as int]));
            lemma_cat_snoc(prefix, original[i as int]);
            assert(next.last() == original[i as int]);
            assert(next.drop_last() =~= prefix);
            assert(forall|t: int| 0 <= t < next.len() ==> next[t]
                == if t < i as int { prefix[t] } else { original[i as int] });
            if combined.direct_response is Some {
                if original[i as int].direct_response is Some {
                    assert(any_direct_response(next));
                } else {
                    assert(had_direct);
                    let w = choose|w: int| 0 <= w < prefix.len()
                        && (#[trigger] prefix[w]).direct_response is Some;
                    assert(next[w].direct_response is Some);
                    assert(any_direct_response(next));
                }
            } else {
                if any_direct_response(next) {
                    let w = choose|w: int| 0 <= w < next.len()
                        && (#[trigger] next[w]).direct_response is Some;
                    if w < i as int {
                        assert(prefix[w].direct_response is Some);
                        assert(any_direct_response(prefix));
                    }
                }
            }
            if combined.request_body_patch is Some {
                if original[i as int].request_body_patch is Some {
                    assert(any_body_patch(next));
                } else {
                    assert(had_patch);
                    let w = choose|w: int| 0 <= w < prefix.len()
                        && (#[trigger] prefix[w]).request_body_patch is Some;
                    assert(next[w].request_body_patch is Some);
                    assert(any_body_patch(next));
                }
            } else {
                if any_body_patch(next) {
                    let w = choose|w: int| 0 <= w < next.len()
                        && (#[trigger] next[w]).request_body_patch is Some;
                    if w < i as int {
                        assert(prefix[w].request_body_patch is Some);
                        assert(any_body_patch(prefix));
                    }
                }
            }
        }
        i = i + 1;
    }
    proof {
        assert(original.take(original.len() as int) =~= original);
        assert(original.skip(i as int).len() == 0);
    }
    combined
}

} // verus!
