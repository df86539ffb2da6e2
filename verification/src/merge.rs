//! Deep merge of a policy's default configuration with route-level
//! parameters.
//!
//! At every node where both sides are objects the entries are merged
//! key-wise; anywhere else the parameter value replaces the default, so
//! arrays and scalars are overwritten, never concatenated. Keys present
//! only in the default are retained, keys present only in the parameters
//! are appended.

use vstd::prelude::*;
use vstd::string::StringExecFns;

use crate::errors::ValidationError;
use crate::json::{
    has_key, index_of_key, jsize, jsize_entries, jview_entries, keys_unique,
    lemma_index_of_key, lemma_jsize_entries_index, lemma_jsize_pos, lemma_jview_entries,
    lemma_keys_unique_drop_first, lemma_lookup_has_key, lemma_lookup_push,
    lemma_lookup_update, lookup, wf, Json, JsonV,
};

verus! {

/// The merge of `p` over `d`: key-wise where both are objects, `p`
/// otherwise.
pub open spec fn merge_value(d: JsonV, p: JsonV) -> JsonV
    decreases jsize(p), 0int,
{
    match (d, p) {
        (JsonV::Obj(de), JsonV::Obj(pe)) => JsonV::Obj(merge_entries(de, pe)),
        (_, _) => p,
    }
}

/// The overlay entries folded over the default entries, one at a time in
/// order.
pub open spec fn merge_entries(
    de: Seq<(Seq<char>, JsonV)>,
    pe: Seq<(Seq<char>, JsonV)>,
) -> Seq<(Seq<char>, JsonV)>
    decreases jsize_entries(pe), 2int,
    via merge_entries_dec
{
    if pe.len() == 0 {
        de
    } else {
        merge_entries(merge_one(de, pe[0].0, pe[0].1), pe.drop_first())
    }
}

/// One overlay entry applied to `de`: merged into an existing binding of
/// the same key, appended otherwise.
pub open spec fn merge_one(
    de: Seq<(Seq<char>, JsonV)>,
    key: Seq<char>,
    pv: JsonV,
) -> Seq<(Seq<char>, JsonV)>
    decreases jsize(pv), 1int,
{
    match index_of_key(de, key) {
        Some(i) => de.update(i, (de[i].0, merge_value(de[i].1, pv))),
        None => de.push((key, pv)),
    }
}

#[via_fn]
proof fn merge_entries_dec(de: Seq<(Seq<char>, JsonV)>, pe: Seq<(Seq<char>, JsonV)>) {
    if pe.len() > 0 {
        lemma_jsize_pos(pe[0].1);
        lemma_jsize_entries_index(pe, 0);
    }
}

/// Where the two sides are not both objects, the overlay replaces the
/// default outright: arrays, scalars, and mixed nodes are overwritten,
/// never combined.
pub proof fn lemma_merge_replaces(d: JsonV, p: JsonV)
    requires
        !(d is Obj && p is Obj),
    ensures
        merge_value(d, p) == p,
{
}

/// Merging an empty overlay object leaves an object unchanged.
pub proof fn lemma_merge_empty_overlay(d: JsonV)
    requires
        d is Obj,
    ensures
        merge_value(d, JsonV::Obj(Seq::empty())) == d,
{
    assert(d == JsonV::Obj(d->Obj_0));
}

/// One overlay entry changes exactly its own key: an existing binding is
/// merged, a fresh key is appended; and key uniqueness is preserved.
pub proof fn lemma_merge_one_lookup(
    de: Seq<(Seq<char>, JsonV)>,
    k0: Seq<char>,
    pv: JsonV,
    key: Seq<char>,
)
    requires
        keys_unique(de),
    ensures
        lookup(merge_one(de, k0, pv), key) == (if key == k0 {
            Some(match lookup(de, k0) {
                Some(dv) => merge_value(dv, pv),
                None => pv,
            })
        } else {
            lookup(de, key)
        }),
        keys_unique(merge_one(de, k0, pv)),
{
    lemma_index_of_key(de, k0);
    match index_of_key(de, k0) {
        Some(i) => {
            lemma_lookup_update(de, i, merge_value(de[i].1, pv), key);
            let upd = de.update(i, (de[i].0, merge_value(de[i].1, pv)));
            assert forall|a: int, b: int| 0 <= a < b < upd.len() implies
                upd[a].0 != upd[b].0 by {
                assert(upd[a].0 == de[a].0);
                assert(upd[b].0 == de[b].0);
            }
        },
        None => {
            lemma_lookup_push(de, k0, pv, key);
            lemma_lookup_has_key(de, k0);
            let pushed = de.push((k0, pv));
            assert forall|a: int, b: int| 0 <= a < b < pushed.len() implies
                pushed[a].0 != pushed[b].0 by {
                if b < de.len() {
                    assert(pushed[a].0 == de[a].0);
                    assert(pushed[b].0 == de[b].0);
                } else {
                    assert(pushed[b].0 == k0);
                    assert(pushed[a].0 == de[a].0);
                    assert(!has_key(de, k0));
                }
            }
        },
    }
}

/// The deep-merge law, key by key: where a key is bound on both sides the
/// merged object binds it to the merge of the two values, a key bound only
/// in the default is retained, a key bound only in the overlay is added,
/// and key uniqueness is preserved.
pub proof fn lemma_merge_entries_lookup(
    de: Seq<(Seq<char>, JsonV)>,
    pe: Seq<(Seq<char>, JsonV)>,
    key: Seq<char>,
)
    requires
        keys_unique(de),
        keys_unique(pe),
    ensures
        lookup(merge_entries(de, pe), key) == (match (lookup(de, key), lookup(pe, key)) {
            (Some(dv), Some(pv)) => Some(merge_value(dv, pv)),
            (Some(dv), None) => Some(dv),
            (None, Some(pv)) => Some(pv),
            (None, None) => None::<JsonV>,
        }),
        keys_unique(merge_entries(de, pe)),
        has_key(merge_entries(de, pe), key) <==> has_key(de, key) || has_key(pe, key),
    decreases pe.len(),
{
    if pe.len() == 0 {
        lemma_lookup_has_key(de, key);
    } else {
        let k0 = pe[0].0;
        let v0 = pe[0].1;
        let de1 = merge_one(de, k0, v0);
        lemma_merge_one_lookup(de, k0, v0, key);
        lemma_keys_unique_drop_first(pe);
        lemma_merge_entries_lookup(de1, pe.drop_first(), key);
        if key == k0 {
            assert forall|t: int| 0 <= t < pe.drop_first().len() implies
                pe.drop_first()[t].0 != key by {
                assert(pe.drop_first()[t] == pe[t + 1]);
            }
            lemma_lookup_has_key(pe.drop_first(), key);
        }
        lemma_lookup_has_key(merge_entries(de, pe), key);
        lemma_lookup_has_key(de, key);
        lemma_lookup_has_key(pe, key);
    }
}

/// The deep-merge law at the value level, for well-formed objects: the
/// merge is an object whose keys are those of either side, each bound to
/// the merge of the two values where both sides bind it, and to the one
/// binding otherwise; key uniqueness is preserved.
pub proof fn lemma_merge_value_lookup(d: JsonV, p: JsonV, key: Seq<char>)
    requires
        wf(d),
        wf(p),
        d is Obj,
        p is Obj,
    ensures
        merge_value(d, p) matches JsonV::Obj(me) && lookup(me, key) == (match (lookup(
            d->Obj_0, key), lookup(p->Obj_0, key)) {
            (Some(dv), Some(pv)) => Some(merge_value(dv, pv)),
            (Some(dv), None) => Some(dv),
            (None, Some(pv)) => Some(pv),
            (None, None) => None::<JsonV>,
        }) && keys_unique(me)
            && (has_key(me, key) <==> has_key(d->Obj_0, key) || has_key(p->Obj_0, key)),
{
    lemma_merge_entries_lookup(d->Obj_0, p->Obj_0, key);
    assert(d == JsonV::Obj(d->Obj_0));
    assert(p == JsonV::Obj(p->Obj_0));
}

/// One overlay entry, executable. Mirrors `merge_one`.
fn merge_one_exec(acc: &mut Vec<(String, Json)>, key: &String, pv: &Json)
    ensures
        jview_entries(final(acc)@) == merge_one(jview_entries(old(acc)@), key@, pv@),
    decreases jsize(pv@), 1int,
{
    proof {
        lemma_jview_entries(acc@);
    }
    let found = crate::json::find_key(acc, key);
    match found {
        Some(i) => {
            proof {
                lemma_index_of_key(jview_entries(acc@), key@);
            }
            let kept_key = acc[i].0.clone();
            let merged = merge_values(&acc[i].1, pv);
            acc[i] = (kept_key, merged);
            proof {
                lemma_jview_entries(acc@);
                lemma_jview_entries(old(acc)@);
                assert(jview_entries(acc@) =~= merge_one(
                    jview_entries(old(acc)@), key@, pv@));
            }
        },
        None => {
            let kept_key = key.clone();
            let value = pv.deep_clone();
            acc.push((kept_key, value));
            proof {
                lemma_jview_entries(acc@);
                lemma_jview_entries(old(acc)@);
                assert(jview_entries(acc@) =~= merge_one(
                    jview_entries(old(acc)@), key@, pv@));
            }
        },
    }
}

/// The merge of `p` over `d`, executable. Mirrors `merge_value`.
pub fn merge_values(d: &Json, p: &Json) -> (r: Json)
    ensures
        r@ == merge_value(d@, p@),
    decreases jsize(p@), 0int,
{
    match (d, p) {
        (Json::Obj(de), Json::Obj(pe)) => {
            let acc = d.deep_clone();
            let ghost de0 = jview_entries(de@);
            let ghost pe0 = jview_entries(pe@);
            let mut acc_entries = match acc {
                Json::Obj(entries) => entries,
                _ => {
                    proof {
                        assert(false);
                    }
                    Vec::new()
                },
            };
            proof {
                lemma_jview_entries(pe@);
                assert(jview_entries(acc_entries@) == de0);
                assert(pe0.skip(0) =~= pe0);
            }
            let mut j: usize = 0;
            while j < pe.len()
                invariant
                    j <= pe.len(),
                    pe0 == jview_entries(pe@),
                    pe0.len() == pe@.len(),
                    forall|t: int| 0 <= t < pe@.len() ==> #[trigger] pe0[t]
                        == (pe@[t].0@, crate::json::jview(pe@[t].1)),
                    merge_entries(de0, pe0) == merge_entries(
                        jview_entries(acc_entries@), pe0.skip(j as int)),
                    d@ == JsonV::Obj(de0),
                    p@ == JsonV::Obj(pe0),
                decreases pe.len() - j,
            {
                proof {
                    lemma_jview_entries(pe@);
                    lemma_jsize_entries_index(pe0, j as int);
                    assert(jsize(pe@[j as int].1@) <= jsize_entries(pe0));
                }
                let ghost before = jview_entries(acc_entries@);
                merge_one_exec(&mut acc_entries, &pe[j].0, &pe[j].1);
                proof {
                    let rest = pe0.skip(j as int);
                    assert(rest[0] == pe0[j as int]);
                    assert(rest.drop_first() =~= pe0.skip(j as int + 1));
                    assert(merge_entries(before, rest) == merge_entries(
                        merge_one(before, pe0[j as int].0, pe0[j as int].1),
                        pe0.skip(j as int + 1)));
                }
                j = j + 1;
            }
            proof {
                assert(pe0.skip(pe0.len() as int) =~= Seq::<(Seq<char>, JsonV)>::empty());
            }
            Json::Obj(acc_entries)
        },
        (_, _) => p.deep_clone(),
    }
}

/// The effective configuration of a binding: route parameters deep-merged
/// over the policy's default configuration.
///
/// Succeeds exactly when the default is a JSON object and the parameters,
/// if present, are one too; the result is then the merge (the default
/// itself when no parameters are given). The failure carries a single
/// detail naming the side that was not an object.
pub fn deep_merge_default_with_params(
    default_config: &Json,
    params: Option<&Json>,
    context: &str,
) -> (r: Result<Json, ValidationError>)
    ensures
        r is Ok <==> default_config@ is Obj && (match params {
            Some(p) => p@ is Obj,
            None => true,
        }),
        r matches Ok(m) ==> m@ == (match params {
            Some(p) => merge_value(default_config@, p@),
            None => default_config@,
        }),
        !(default_config@ is Obj) ==> (r matches Err(e)
            && e.details@.len() == 1
            && e.details@[0]@ == context@ + ".default_config must be a JSON object"@),
        (default_config@ is Obj && (params matches Some(p) && !(p@ is Obj)))
            ==> (r matches Err(e)
            && e.details@.len() == 1
            && e.details@[0]@ == context@ + ".params must be a JSON object"@),
{
    if !default_config.is_object() {
        let mut msg = context.to_owned();
        msg.append(".default_config must be a JSON object");
        return Err(ValidationError::new(msg));
    }

    match params {
        None => Ok(default_config.deep_clone()),
        Some(p) => {
            if !p.is_object() {
                let mut msg = context.to_owned();
                msg.append(".params must be a JSON object");
                return Err(ValidationError::new(msg));
            }
            Ok(merge_values(default_config, p))
        },
    }
}

} // verus!
