//! The bundled header-adding policy: its decision is computed from the
//! effective configuration alone — the request is not consulted.
//!
//! The configuration is an object carrying header operations under
//! `request_headers` and `headers`, either at the top level or wrapped in
//! a `policy_decision` object; the operations, request headers first,
//! become the decision's request-header mutations, and an empty list is
//! rejected.

use vstd::prelude::*;
use vstd::string::StringExecFns;

use crate::json::{lookup, jview_entries, lemma_index_of_key, lemma_jview_entries,
    lemma_jview_seq, Json, JsonV};
use crate::policy::HeaderMutation;

verus! {

/// The header operation an object describes: `name` and `value` strings
/// and an `overwrite` flag, all required.
pub open spec fn op_of(v: JsonV) -> Option<(Seq<char>, Seq<char>, bool)> {
    match v {
        JsonV::Obj(entries) => match (lookup(entries, "name"@), lookup(entries,
            "value"@), lookup(entries, "overwrite"@)) {
            (Some(JsonV::Str(n)), Some(JsonV::Str(val)), Some(JsonV::Bool(o))) => Some(
                (n, val, o)),
            _ => None,
        },
        _ => None,
    }
}

/// The operations of an array, if every element is one.
pub open spec fn ops_of_items(items: Seq<JsonV>) -> Option<Seq<(Seq<char>, Seq<char>,
    bool)>>
    decreases items.len(),
{
    if items.len() == 0 {
        Some(Seq::empty())
    } else {
        match (op_of(items[0]), ops_of_items(items.drop_first())) {
            (Some(op), Some(rest)) => Some(seq![op] + rest),
            _ => None,
        }
    }
}

/// The operations bound to `key`: an absent key is an empty list, an
/// array parses element-wise, anything else fails.
pub open spec fn key_ops(
    entries: Seq<(Seq<char>, JsonV)>,
    key: Seq<char>,
) -> Option<Seq<(Seq<char>, Seq<char>, bool)>> {
    match lookup(entries, key) {
        None => Some(Seq::empty()),
        Some(JsonV::Arr(items)) => ops_of_items(items),
        Some(_) => None,
    }
}

/// The operations of one configuration object: those under
/// `request_headers`, then those under `headers`.
pub open spec fn section_ops(entries: Seq<(Seq<char>, JsonV)>) -> Option<Seq<(Seq<char>,
    Seq<char>, bool)>> {
    match (key_ops(entries, "request_headers"@), key_ops(entries, "headers"@)) {
        (Some(a), Some(b)) => Some(a + b),
        _ => None,
    }
}

/// The operations the whole effective configuration describes: from the
/// `policy_decision` object when one is present, from the top level
/// otherwise; a non-object configuration or a malformed section fails.
pub open spec fn add_header_ops(cfg: JsonV) -> Option<Seq<(Seq<char>, Seq<char>,
    bool)>> {
    match cfg {
        JsonV::Obj(entries) => match lookup(entries, "policy_decision"@) {
            Some(JsonV::Obj(inner)) => section_ops(inner),
            Some(JsonV::Null) => section_ops(entries),
            Some(_) => None,
            None => section_ops(entries),
        },
        _ => None,
    }
}

/// One more element extends the parsed operations by its own, or fails
/// the whole list.
proof fn lemma_ops_of_items_snoc(items: Seq<JsonV>, x: JsonV)
    ensures
        ops_of_items(items.push(x)) == (match (ops_of_items(items), op_of(x)) {
            (Some(a), Some(op)) => Some(a.push(op)),
            _ => None::<Seq<(Seq<char>, Seq<char>, bool)>>,
        }),
    decreases items.len(),
{
    let p = items.push(x);
    if items.len() == 0 {
        assert(p[0] == x);
        assert(p.drop_first() =~= Seq::<JsonV>::empty());
        assert(ops_of_items(Seq::<JsonV>::empty())
            == Some(Seq::<(Seq<char>, Seq<char>, bool)>::empty()));
        match op_of(x) {
            Some(op) => {
                assert(seq![op] + Seq::<(Seq<char>, Seq<char>, bool)>::empty()
                    =~= Seq::<(Seq<char>, Seq<char>, bool)>::empty().push(op));
            },
            None => {},
        }
    } else {
        lemma_ops_of_items_snoc(items.drop_first(), x);
        assert(p[0] == items[0]);
        assert(p.drop_first() =~= items.drop_first().push(x));
        match (op_of(items[0]), ops_of_items(items.drop_first()), op_of(x)) {
            (Some(op0), Some(rest), Some(op)) => {
                assert(seq![op0] + rest.push(op) =~= (seq![op0] + rest).push(op));
            },
            _ => {},
        }
    }
}

/// The value bound to `key` of an object's entries, if any.
fn lookup_value<'a>(entries: &'a Vec<(String, Json)>, key: &String) -> (r: Option<
    &'a Json>)
    ensures
        match r {
            Some(v) => lookup(jview_entries(entries@), key@) == Some(v@),
            None => lookup(jview_entries(entries@), key@) is None,
        },
{
    proof {
        lemma_jview_entries(entries@);
        lemma_index_of_key(jview_entries(entries@), key@);
    }
    match crate::json::find_key(entries, key) {
        Some(i) => {
            proof {
                lemma_index_of_key(jview_entries(entries@), key@);
            }
            Some(&entries[i].1)
        },
        None => None,
    }
}

/// The header operation of one configuration element, if it is one.
fn op_from_json(v: &Json) -> (r: Option<HeaderMutation>)
    ensures
        match r {
            Some(m) => op_of(v@) == Some((m.name@, m.value@, m.overwrite)),
            None => op_of(v@) is None,
        },
{
    match v {
        Json::Obj(entries) => {
            let name = lookup_value(entries, &"name".to_owned());
            let value = lookup_value(entries, &"value".to_owned());
            let overwrite = lookup_value(entries, &"overwrite".to_owned());
            match (name, value, overwrite) {
                (Some(Json::Str(n)), Some(Json::Str(val)), Some(Json::Bool(o))) => Some(
                    HeaderMutation { name: n.clone(), value: val.clone(), overwrite: *o }),
                _ => None,
            }
        },
        _ => None,
    }
}

/// The operations of one configuration array, if every element is one.
fn ops_from_items(items: &Vec<Json>) -> (r: Option<Vec<HeaderMutation>>)
    ensures
        match r {
            Some(ms) => ops_of_items(crate::json::jview_seq(items@)) matches Some(ops)
                && ms@.len() == ops.len()
                && (forall|i: int| 0 <= i < ops.len()
                    ==> ((#[trigger] ms@[i]).name@, ms@[i].value@, ms@[i].overwrite)
                    == ops[i]),
            None => ops_of_items(crate::json::jview_seq(items@)) is None,
        },
{
    let ghost view = crate::json::jview_seq(items@);
    proof {
        lemma_jview_seq(items@);
        assert(view.take(0) =~= Seq::<JsonV>::empty());
    }
    let mut out: Vec<HeaderMutation> = Vec::new();
    let mut i: usize = 0;
    while i < items.len()
        invariant
            i <= items@.len(),
            view == crate::json::jview_seq(items@),
            view.len() == items@.len(),
            forall|t: int| 0 <= t < items@.len() ==> #[trigger] view[t]
                == crate::json::jview(items@[t]),
            ops_of_items(view.take(i as int)) matches Some(ops) && out@.len()
                == ops.len() && (forall|t: int| 0 <= t < ops.len()
                ==> ((#[trigger] out@[t]).name@, out@[t].value@, out@[t].overwrite)
                == ops[t]),
        decreases items@.len() - i,
    {
        let parsed = op_from_json(&items[i]);
        proof {
            lemma_ops_of_items_snoc(view.take(i as int), view[i as int]);
            assert(view.take(i as int + 1) =~= view.take(i as int).push(
                view[i as int]));
        }
        match parsed {
            Some(m) => {
                out.push(m);
            },
            None => {
                proof {
                    lemma_ops_failure_extends(view, i as int + 1);
                }
                return None;
            },
        }
        i = i + 1;
    }
    proof {
        assert(view.take(view.len() as int) =~= view);
    }
    Some(out)
}

/// Once a prefix fails to parse, the whole list fails.
proof fn lemma_ops_failure_extends(items: Seq<JsonV>, i: int)
    requires
        0 <= i <= items.len(),
        ops_of_items(items.take(i)) is None,
    ensures
        ops_of_items(items) is None,
    decreases items.len() - i,
{
    if i < items.len() {
        lemma_ops_of_items_snoc(items.take(i), items[i]);
        assert(items.take(i + 1) =~= items.take(i).push(items[i]));
        lemma_ops_failure_extends(items, i + 1);
    } else {
        assert(items.take(i) =~= items);
    }
}

/// The operations bound to `key` of a section, executable.
fn key_ops_exec(entries: &Vec<(String, Json)>, key: &String) -> (r: Option<Vec<
    HeaderMutation>>)
    ensures
        match r {
            Some(ms) => key_ops(jview_entries(entries@), key@) matches Some(ops)
                && ms@.len() == ops.len()
                && (forall|i: int| 0 <= i < ops.len()
                    ==> ((#[trigger] ms@[i]).name@, ms@[i].value@, ms@[i].overwrite)
                    == ops[i]),
            None => key_ops(jview_entries(entries@), key@) is None,
        },
{
    match lookup_value(entries, key) {
        None => Some(Vec::new()),
        Some(v) => match v {
            Json::Arr(items) => ops_from_items(items),
            _ => None,
        },
    }
}

/// The decision of one section: request headers first, then headers.
fn section_ops_exec(entries: &Vec<(String, Json)>) -> (r: Option<Vec<HeaderMutation>>)
    ensures
        match r {
            Some(ms) => section_ops(jview_entries(entries@)) matches Some(ops)
                && ms@.len() == ops.len()
                && (forall|i: int| 0 <= i < ops.len()
                    ==> ((#[trigger] ms@[i]).name@, ms@[i].value@, ms@[i].overwrite)
                    == ops[i]),
            None => section_ops(jview_entries(entries@)) is None,
        },
{
    let request_headers = key_ops_exec(entries, &"request_headers".to_owned());
    let mut first = match request_headers {
        Some(ms) => ms,
        None => {
            return None;
        },
    };
    let headers = key_ops_exec(entries, &"headers".to_owned());
    let mut second = match headers {
        Some(ms) => ms,
        None => {
            return None;
        },
    };
    first.append(&mut second);
    Some(first)
}

/// What the policy decides for an effective configuration: the configured
/// request-header mutations, in order. A configuration that does not
/// parse, or that yields no operations, is rejected with a message.
pub fn evaluate_pre_upstream(effective_config: &Json) -> (r: Result<Vec<HeaderMutation>,
    String>)
    ensures
        r is Ok <==> (add_header_ops(effective_config@) matches Some(ops)
            && ops.len() > 0),
        r matches Ok(ms) ==> add_header_ops(effective_config@) matches Some(ops)
            && ms@.len() == ops.len()
            && (forall|i: int| 0 <= i < ops.len()
                ==> ((#[trigger] ms@[i]).name@, ms@[i].value@, ms@[i].overwrite)
                == ops[i]),
        (add_header_ops(effective_config@) matches Some(ops) && ops.len() == 0)
            ==> (r matches Err(e) && e@ == "headers must not be empty"@),
        add_header_ops(effective_config@) is None ==> (r matches Err(e)
            && e@ == "invalid effective config"@),
{
    let section = match effective_config {
        Json::Obj(entries) => {
            match lookup_value(entries, &"policy_decision".to_owned()) {
                Some(inner) => match inner {
                    Json::Obj(inner_entries) => section_ops_exec(inner_entries),
                    Json::Null => section_ops_exec(entries),
                    _ => None,
                },
                None => section_ops_exec(entries),
            }
        },
        _ => None,
    };
    match section {
        Some(ms) => {
            if ms.len() == 0 {
                Err("headers must not be empty".to_owned())
            } else {
                Ok(ms)
            }
        },
        None => Err("invalid effective config".to_owned()),
    }
}

} // verus!
