//! Validation of policy and route declarations: stage names, schema
//! compilation, and effective-configuration checking. Failures accumulate
//! every problem found instead of stopping at the first.

use vstd::prelude::*;
use vstd::string::StrSliceExecFns;
use vstd::string::StringExecFns;

use crate::errors::ValidationError;
use crate::json_text::{json_text, to_json_text};
use crate::merge::{deep_merge_default_with_params, merge_value};
use crate::model::{PolicySpec, RoutePolicy, RouteSpec};
use crate::strutil::{dec_rep, str_eq, trim_ascii, trim_spec, usize_to_string};

verus! {

/// What the JSON Schema engine accepts as a schema document; depends on
/// the schema text alone.
pub uninterp spec fn schema_compiles(schema: Seq<char>) -> bool;

/// Whether an instance document satisfies a schema; depends on the two
/// texts alone.
pub uninterp spec fn schema_admits(schema: Seq<char>, instance: Seq<char>) -> bool;

#[verifier::external_type_specification]
#[verifier::external_body]
pub struct ExJSONSchema(jsonschema::JSONSchema);

/// A compiled schema paired with the text it was compiled from.
pub struct CompiledSchema {
    schema: jsonschema::JSONSchema,
    pub text: String,
}

/// Relies on jsonschema::JSONSchema::compile, with serde_json::from_str
/// reading the text: compilation succeeds for exactly the texts that parse
/// and compile as a schema, a function of the text alone; the failure
/// carries the engine's message.
#[verifier::external_body]
fn compile_schema_text(text: &str) -> (r: Result<CompiledSchema, String>)
    ensures
        r is Ok <==> schema_compiles(text@),
        r matches Ok(c) ==> c.text@ == text@,
{
    let value: serde_json::Value = match serde_json::from_str(text) {
        Ok(v) => v,
        Err(e) => return Err(e.to_string()),
    };
    match jsonschema::JSONSchema::compile(&value) {
        Ok(schema) => Ok(CompiledSchema { schema, text: text.to_string() }),
        Err(e) => Err(e.to_string()),
    }
}

/// One schema violation: the instance path pointer, the engine's message,
/// and whether it is the additional-items kind.
#[derive(Debug)]
pub struct SchemaViolation {
    pub pointer: String,
    pub message: String,
    pub additional_items: bool,
}

/// Relies on jsonschema::JSONSchema::validate, with serde_json::from_str
/// reading the instance: no violations are reported exactly when the
/// instance satisfies the schema this value was compiled from, a function
/// of the two texts alone.
#[verifier::external_body]
fn validate_instance_text(schema: &CompiledSchema, instance: &str) -> (r: Vec<
    SchemaViolation>)
    ensures
        (r@.len() == 0) == schema_admits(schema.text@, instance@),
{
    let value: serde_json::Value = match serde_json::from_str(instance) {
        Ok(v) => v,
        Err(e) => return vec![SchemaViolation {
            pointer: String::new(), message: e.to_string(), additional_items: false }],
    };
    let out = match schema.schema.validate(&value) {
        Ok(()) => Vec::new(),
        Err(errors) => errors.map(|e| SchemaViolation {
            pointer: e.instance_path.to_string(),
            message: e.to_string(),
            additional_items: matches!(e.kind,
                jsonschema::error::ValidationErrorKind::AdditionalItems { .. }),
        }).collect(),
    };
    out
}

/// Whether the stage name is one of the recognized lifecycle stages.
pub open spec fn stage_allowed(s: Seq<char>) -> bool {
    s == "pre_route"@ || s == "pre_upstream"@ || s == "post_response"@
}

/// The detail lines for the unrecognized stages, in declaration order.
pub open spec fn unsupported_stage_msgs(ctx: Seq<char>, ss: Seq<Seq<char>>) -> Seq<
    Seq<char>>
    decreases ss.len(),
{
    if ss.len() == 0 {
        Seq::empty()
    } else {
        let rest = unsupported_stage_msgs(ctx, ss.drop_first());
        if stage_allowed(ss[0]) {
            rest
        } else {
            seq![ctx + ".supported_stages contains unsupported stage "@ + ss[0]] + rest
        }
    }
}

/// One more stage extends the detail lines by its own line, or not at all.
proof fn lemma_stage_msgs_snoc(ctx: Seq<char>, ss: Seq<Seq<char>>, s: Seq<char>)
    ensures
        unsupported_stage_msgs(ctx, ss.push(s)) == unsupported_stage_msgs(ctx, ss)
            + (if stage_allowed(s) {
                Seq::<Seq<char>>::empty()
            } else {
                seq![ctx + ".supported_stages contains unsupported stage "@ + s]
            }),
    decreases ss.len(),
{
    let p = ss.push(s);
    if ss.len() == 0 {
        assert(p[0] == s);
        assert(p.drop_first() =~= Seq::<Seq<char>>::empty());
        assert(unsupported_stage_msgs(ctx, Seq::<Seq<char>>::empty())
            =~= Seq::<Seq<char>>::empty());
        if stage_allowed(s) {
            assert(unsupported_stage_msgs(ctx, p)
                =~= unsupported_stage_msgs(ctx, ss));
        } else {
            assert(unsupported_stage_msgs(ctx, p) =~= unsupported_stage_msgs(ctx, ss)
                + seq![ctx + ".supported_stages contains unsupported stage "@ + s]);
        }
    } else {
        lemma_stage_msgs_snoc(ctx, ss.drop_first(), s);
        assert(p[0] == ss[0]);
        assert(p.drop_first() =~= ss.drop_first().push(s));
        if !stage_allowed(ss[0]) {
            let line = seq![ctx + ".supported_stages contains unsupported stage "@
                + ss[0]];
            if stage_allowed(s) {
                assert(unsupported_stage_msgs(ctx, p) =~= unsupported_stage_msgs(
                    ctx, ss));
            } else {
                let new_line = seq![ctx
                    + ".supported_stages contains unsupported stage "@ + s];
                assert(line + (unsupported_stage_msgs(ctx, ss.drop_first()) + new_line)
                    =~= (line + unsupported_stage_msgs(ctx, ss.drop_first()))
                    + new_line);
            }
        }
    }
}

/// Every declared stage must be recognized, and at least one must be
/// declared. The failure lists the empty declaration, or one line per
/// unrecognized stage.
pub fn validate_supported_stages(stages: &Vec<String>, context: &str) -> (r: Result<
    (), ValidationError>)
    ensures
        r is Ok <==> (stages@.len() > 0 && forall|i: int| 0 <= i < stages@.len()
            ==> stage_allowed(#[trigger] stages.deep_view()[i])),
        stages@.len() == 0 ==> (r matches Err(e) && e.details.deep_view()
            == seq![context@ + ".supported_stages must not be empty"@]),
        stages@.len() > 0 ==> (r matches Err(e) ==> e.details.deep_view()
            == unsupported_stage_msgs(context@, stages.deep_view())),
        r matches Err(e) ==> e.details@.len() > 0,
{
    if stages.len() == 0 {
        let mut msg = context.to_owned();
        msg.append(".supported_stages must not be empty");
        let err = ValidationError::new(msg);
        proof {
            assert(err.details.deep_view() =~= seq![context@
                + ".supported_stages must not be empty"@]);
        }
        return Err(err);
    }

    let mut details: Vec<String> = Vec::new();
    let mut i: usize = 0;
    while i < stages.len()
        invariant
            i <= stages@.len(),
            stages@.len() > 0,
            details.deep_view() == unsupported_stage_msgs(context@,
                stages.deep_view().take(i as int)),
            (details@.len() == 0) <==> (forall|j: int| 0 <= j < i
                ==> stage_allowed(#[trigger] stages.deep_view()[j])),
        decreases stages@.len() - i,
    {
        let stage = &stages[i];
        let ok = str_eq(stage.as_str(), "pre_route")
            || str_eq(stage.as_str(), "pre_upstream")
            || str_eq(stage.as_str(), "post_response");
        proof {
            assert(stages.deep_view()[i as int] == stages@[i as int]@);
        }
        if !ok {
            let mut msg = context.to_owned();
            msg.append(".supported_stages contains unsupported stage ");
            msg.append(stage.as_str());
            details.push(msg);
        }
        proof {
            lemma_stage_msgs_snoc(context@, stages.deep_view().take(i as int),
                stages.deep_view()[i as int]);
            assert(stages.deep_view().take(i as int + 1) =~= stages.deep_view().take(
                i as int).push(stages.deep_view()[i as int]));
            assert(details.deep_view() =~= unsupported_stage_msgs(context@,
                stages.deep_view().take(i as int + 1)));
        }
        i = i + 1;
    }
    proof {
        assert(stages.deep_view().take(stages@.len() as int) =~= stages.deep_view());
    }
    if details.len() == 0 {
        Ok(())
    } else {
        Err(ValidationError::with_details(details))
    }
}

/// The conditions under which a policy declaration is accepted: a
/// non-empty digest, an object default configuration, recognized and
/// non-empty stages, a schema that compiles, and a default configuration
/// the schema admits.
pub open spec fn policy_spec_ok(p: PolicySpec) -> bool {
    &&& trim_spec(p.sha256@).len() > 0
    &&& p.default_config@ is Obj
    &&& p.supported_stages@.len() > 0
    &&& (forall|i: int| 0 <= i < p.supported_stages@.len()
        ==> stage_allowed(#[trigger] p.supported_stages.deep_view()[i]))
    &&& schema_compiles(json_text(p.config_schema@))
    &&& schema_admits(json_text(p.config_schema@), json_text(p.default_config@))
}

/// When every stage is recognized, no stage detail line is produced.
proof fn lemma_stage_msgs_all_allowed(ctx: Seq<char>, ss: Seq<Seq<char>>)
    requires
        forall|i: int| 0 <= i < ss.len() ==> stage_allowed(#[trigger] ss[i]),
    ensures
        unsupported_stage_msgs(ctx, ss) == Seq::<Seq<char>>::empty(),
    decreases ss.len(),
{
    if ss.len() > 0 {
        let rest = ss.drop_first();
        assert forall|i: int| 0 <= i < rest.len() implies stage_allowed(
            #[trigger] rest[i]) by {
            assert(rest[i] == ss[i + 1]);
        }
        lemma_stage_msgs_all_allowed(ctx, rest);
    }
}

/// The first-level detail lines of a policy declaration, in check order:
/// the digest, the default configuration, then the declared stages.
pub open spec fn policy_first_level_msgs(p: PolicySpec) -> Seq<Seq<char>> {
    (if trim_spec(p.sha256@).len() == 0 {
        seq!["policy.sha256 must not be empty"@]
    } else {
        Seq::<Seq<char>>::empty()
    }) + (if !(p.default_config@ is Obj) {
        seq!["policy.default_config must be a JSON object"@]
    } else {
        Seq::<Seq<char>>::empty()
    }) + (if p.supported_stages@.len() == 0 {
        seq!["policy"@ + ".supported_stages must not be empty"@]
    } else {
        unsupported_stage_msgs("policy"@, p.supported_stages.deep_view())
    })
}

/// The detail lines for a list of schema violations, one line each, in
/// the engine's order, each placed under the given context.
fn schema_violation_details(context: &str, violations: &Vec<SchemaViolation>) -> (r:
    Vec<String>)
    ensures
        r@.len() == violations@.len(),
        forall|k: int| 0 <= k < r@.len() ==> context@.is_prefix_of(
            (#[trigger] r@[k])@),
{
    let mut out: Vec<String> = Vec::new();
    let mut i: usize = 0;
    while i < violations.len()
        invariant
            i <= violations@.len(),
            out@.len() == i,
            forall|k: int| 0 <= k < out@.len() ==> context@.is_prefix_of(
                (#[trigger] out@[k])@),
        decreases violations@.len() - i,
    {
        let v = &violations[i];
        let mut location = context.to_owned();
        if v.pointer.as_str().unicode_len() > 0 {
            location.append(v.pointer.as_str());
        }
        if v.additional_items {
            location.append(": additional items are not allowed");
        } else {
            location.append(": ");
            location.append(v.message.as_str());
        }
        proof {
            assert(location@.subrange(0, context@.len() as int) =~= context@);
        }
        out.push(location);
        i = i + 1;
    }
    out
}

/// A policy declaration is accepted exactly under `policy_spec_ok`. Every
/// failed first-level check contributes its own detail line, reported
/// together; schema compilation and the default configuration's fit are
/// examined only once the first-level checks all pass, and their failures
/// are reported under their own contexts.
pub fn validate_policy_spec(policy: &PolicySpec) -> (r: Result<(), ValidationError>)
    ensures
        r is Ok <==> policy_spec_ok(*policy),
        r matches Err(e) ==> e.details@.len() > 0,
        policy_first_level_msgs(*policy).len() > 0 ==> (r matches Err(e)
            && e.details.deep_view() == policy_first_level_msgs(*policy)),
        (policy_first_level_msgs(*policy).len() == 0 && !schema_compiles(json_text(
            policy.config_schema@))) ==> (r matches Err(e) && e.details@.len() == 1
            && "policy.config_schema is invalid: "@.is_prefix_of(e.details@[0]@)),
        (policy_first_level_msgs(*policy).len() == 0 && schema_compiles(json_text(
            policy.config_schema@))) ==> (r matches Err(e) ==> forall|k: int|
            0 <= k < e.details@.len() ==> "policy.default_config"@.is_prefix_of(
            (#[trigger] e.details@[k])@)),
{
    let ghost first_level = policy_first_level_msgs(*policy);
    let mut details: Vec<String> = Vec::new();

    let trimmed = trim_ascii(policy.sha256.as_str());
    if trimmed.unicode_len() == 0 {
        details.push("policy.sha256 must not be empty".to_owned());
    }
    let ghost sha_part = details.deep_view();

    if !policy.default_config.is_object() {
        details.push("policy.default_config must be a JSON object".to_owned());
    }
    let ghost cfg_part = details.deep_view();

    let stages_ok = match validate_supported_stages(&policy.supported_stages, "policy") {
        Ok(()) => true,
        Err(e) => {
            let mut extra = e.details;
            let ghost extra_view = extra.deep_view();
            details.append(&mut extra);
            proof {
                assert(details.deep_view() =~= cfg_part + extra_view);
            }
            false
        },
    };
    proof {
        if stages_ok {
            lemma_stage_msgs_all_allowed("policy"@,
                policy.supported_stages.deep_view());
            assert(details.deep_view() =~= cfg_part
                + Seq::<Seq<char>>::empty());
        }
        assert(details.deep_view() =~= first_level);
    }

    if details.len() > 0 {
        return Err(ValidationError::with_details(details));
    }
    proof {
        assert(stages_ok);
        assert(first_level.len() == 0);
    }

    let schema_text = to_json_text(&policy.config_schema);
    let compiled = match compile_schema_text(schema_text.as_str()) {
        Ok(c) => c,
        Err(msg) => {
            let mut line = "policy.config_schema is invalid: ".to_owned();
            line.append(msg.as_str());
            proof {
                assert(line@.subrange(0, "policy.config_schema is invalid: "@.len()
                    as int) =~= "policy.config_schema is invalid: "@);
            }
            return Err(ValidationError::new(line));
        },
    };

    let config_text = to_json_text(&policy.default_config);
    let violations = validate_instance_text(&compiled, config_text.as_str());
    if violations.len() == 0 {
        Ok(())
    } else {
        let lines = schema_violation_details("policy.default_config", &violations);
        Err(ValidationError::with_details(lines))
    }
}

/// The first declared policy with the given identity, if any.
pub open spec fn find_policy(
    policies: Seq<PolicySpec>,
    id: Seq<char>,
    version: Seq<char>,
) -> Option<PolicySpec>
    decreases policies.len(),
{
    if policies.len() == 0 {
        None
    } else if policies[0].id@ == id && policies[0].version@ == version {
        Some(policies[0])
    } else {
        find_policy(policies.drop_first(), id, version)
    }
}

/// `find_policy` returns the first declaration with the identity, or
/// nothing when none has it.
pub proof fn lemma_find_policy(policies: Seq<PolicySpec>, id: Seq<char>, version: Seq<char>)
    ensures
        find_policy(policies, id, version) matches Some(p) ==> exists|i: int|
            0 <= i < policies.len() && policies[i] == p && policies[i].id@ == id
            && policies[i].version@ == version,
        find_policy(policies, id, version) is None ==> forall|i: int|
            #![trigger policies[i]]
            0 <= i < policies.len() ==> !(policies[i].id@ == id
            && policies[i].version@ == version),
    decreases policies.len(),
{
    if policies.len() == 0 {
    } else if policies[0].id@ == id && policies[0].version@ == version {
    } else {
        let rest = policies.drop_first();
        lemma_find_policy(rest, id, version);
        match find_policy(rest, id, version) {
            Some(p) => {
                let i = choose|i: int| 0 <= i < rest.len() && rest[i] == p
                    && rest[i].id@ == id && rest[i].version@ == version;
                assert(policies[i + 1] == rest[i]);
            },
            None => {
                assert forall|i: int| 0 <= i < policies.len() implies
                    !(#[trigger] policies[i].id@ == id && policies[i].version@
                    == version) by {
                    if i > 0 {
                        assert(rest[i - 1] == policies[i]);
                        assert(!(rest[i - 1].id@ == id && rest[i - 1].version@
                            == version));
                    }
                }
            },
        }
    }
}

/// The first declared policy with the binding's identity.
pub(crate) fn find_policy_exec<'a>(
    policies: &'a Vec<PolicySpec>,
    id: &String,
    version: &String,
) -> (r: Option<&'a PolicySpec>)
    ensures
        match r {
            Some(p) => find_policy(policies@, id@, version@) == Some(*p),
            None => find_policy(policies@, id@, version@) is None,
        },
{
    proof {
        lemma_find_policy(policies@, id@, version@);
    }
    let mut i: usize = 0;
    while i < policies.len()
        invariant
            i <= policies@.len(),
            forall|j: int| #![trigger policies@[j]] 0 <= j < i
                ==> !(policies@[j].id@ == id@ && policies@[j].version@ == version@),
        decreases policies@.len() - i,
    {
        if policies[i].id == *id && policies[i].version == *version {
            proof {
                lemma_find_policy(policies@, id@, version@);
                assert(find_policy(policies@, id@, version@) is Some) by {
                    if find_policy(policies@, id@, version@) is None {
                        assert(!(policies@[i as int].id@ == id@
                            && policies@[i as int].version@ == version@));
                    }
                }
                let p = find_policy(policies@, id@, version@)->Some_0;
                let w = choose|w: int| 0 <= w < policies@.len() && policies@[w] == p
                    && policies@[w].id@ == id@ && policies@[w].version@ == version@;
                lemma_find_policy_first(policies@, id@, version@, i as int);
            }
            return Some(&policies[i]);
        }
        i = i + 1;
    }
    proof {
        lemma_find_policy(policies@, id@, version@);
        if find_policy(policies@, id@, version@) is Some {
            let p = find_policy(policies@, id@, version@)->Some_0;
            let w = choose|w: int| 0 <= w < policies@.len() && policies@[w] == p
                && policies@[w].id@ == id@ && policies@[w].version@ == version@;
        }
    }
    None
}

/// When the entries before `i` all miss and entry `i` hits, the find
/// returns entry `i`.
proof fn lemma_find_policy_first(
    policies: Seq<PolicySpec>,
    id: Seq<char>,
    version: Seq<char>,
    i: int,
)
    requires
        0 <= i < policies.len(),
        policies[i].id@ == id && policies[i].version@ == version,
        forall|j: int| #![trigger policies[j]] 0 <= j < i
            ==> !(policies[j].id@ == id && policies[j].version@ == version),
    ensures
        find_policy(policies, id, version) == Some(policies[i]),
    decreases policies.len(),
{
    if i == 0 {
    } else {
        let rest = policies.drop_first();
        assert forall|j: int| 0 <= j < i - 1 implies !(#[trigger] rest[j].id@ == id
            && rest[j].version@ == version) by {
            assert(rest[j] == policies[j + 1]);
        }
        assert(rest[i - 1] == policies[i]);
        lemma_find_policy_first(rest, id, version, i - 1);
    }
}

/// The effective configuration the binding would run with.
pub open spec fn effective_of(ps: PolicySpec, b: RoutePolicy) -> crate::json::JsonV {
    match b.params {
        Some(p) => merge_value(ps.default_config@, p@),
        None => ps.default_config@,
    }
}

/// Whether one stage name appears among the declared stages.
pub open spec fn stage_in(stages: Seq<Seq<char>>, s: Seq<char>) -> bool {
    exists|i: int| 0 <= i < stages.len() && stages[i] == s
}

/// The conditions under which one binding of a route is accepted: object
/// parameters if any, a declared policy with that identity, a stage the
/// policy supports, a schema that compiles, an object default
/// configuration, and an effective configuration the schema admits.
pub open spec fn binding_ok(b: RoutePolicy, policies: Seq<PolicySpec>) -> bool {
    &&& (b.params matches Some(p) ==> p@ is Obj)
    &&& match find_policy(policies, b.id@, b.version@) {
        Some(ps) => {
            &&& stage_in(ps.supported_stages.deep_view(), b.stage@)
            &&& schema_compiles(json_text(ps.config_schema@))
            &&& ps.default_config@ is Obj
            &&& schema_admits(json_text(ps.config_schema@), json_text(effective_of(
                ps, b)))
        },
        None => false,
    }
}

/// Whether the binding's stage appears among the declared stages.
fn stage_in_exec(stages: &Vec<String>, stage: &String) -> (r: bool)
    ensures
        r == stage_in(stages.deep_view(), stage@),
{
    let mut i: usize = 0;
    while i < stages.len()
        invariant
            i <= stages@.len(),
            forall|j: int| 0 <= j < i ==> stages.deep_view()[j] != stage@,
        decreases stages@.len() - i,
    {
        if stages[i] == *stage {
            proof {
                assert(stages.deep_view()[i as int] == stage@);
            }
            return true;
        }
        i = i + 1;
    }
    proof {
        if stage_in(stages.deep_view(), stage@) {
            let w = choose|w: int| 0 <= w < stages.deep_view().len()
                && stages.deep_view()[w] == stage@;
        }
    }
    false
}

/// The context naming one binding in a detail line.
pub open spec fn binding_ctx(i: int) -> Seq<char> {
    "route.policies["@ + dec_rep(i as nat) + "]"@
}

/// Whether the binding's parameters are present and not an object.
pub open spec fn binding_params_bad(b: RoutePolicy) -> bool {
    b.params matches Some(p) && !(p@ is Obj)
}

/// Whether the binding names no declared policy, its parameters aside.
pub open spec fn binding_not_found(b: RoutePolicy, policies: Seq<PolicySpec>) -> bool {
    !binding_params_bad(b) && find_policy(policies, b.id@, b.version@) is None
}

/// Whether the named policy does not support the binding's stage.
pub open spec fn binding_stage_bad(b: RoutePolicy, policies: Seq<PolicySpec>) -> bool {
    &&& !binding_params_bad(b)
    &&& (find_policy(policies, b.id@, b.version@) matches Some(ps)
        && !stage_in(ps.supported_stages.deep_view(), b.stage@))
}

/// Whether the named policy's default configuration is not an object,
/// every earlier check passing.
pub open spec fn binding_default_bad(b: RoutePolicy, policies: Seq<PolicySpec>) -> bool {
    &&& !binding_params_bad(b)
    &&& (find_policy(policies, b.id@, b.version@) matches Some(ps)
        && stage_in(ps.supported_stages.deep_view(), b.stage@)
        && schema_compiles(json_text(ps.config_schema@))
        && !(ps.default_config@ is Obj))
}

/// The detail line for parameters that are not an object.
pub open spec fn params_bad_msg(i: int) -> Seq<char> {
    binding_ctx(i) + ".params must be a JSON object"@
}

/// The detail line for a reference to an undeclared policy.
pub open spec fn not_found_msg(i: int, b: RoutePolicy) -> Seq<char> {
    binding_ctx(i) + ": policy "@ + b.id@ + "@"@ + b.version@ + " not found"@
}

/// The detail line for a stage the policy does not support.
pub open spec fn stage_bad_msg(i: int, b: RoutePolicy) -> Seq<char> {
    binding_ctx(i) + ": stage "@ + b.stage@ + " not allowed for "@ + b.id@ + "@"@
        + b.version@
}

/// The detail line for a default configuration that is not an object.
pub open spec fn default_bad_msg(i: int) -> Seq<char> {
    binding_ctx(i) + ".default_config must be a JSON object"@
}

/// A prefix of a prefix is a prefix.
proof fn lemma_prefix_trans(a: Seq<char>, b: Seq<char>, c: Seq<char>)
    requires
        a.is_prefix_of(b),
        b.is_prefix_of(c),
    ensures
        a.is_prefix_of(c),
{
    assert forall|t: int| 0 <= t < a.len() implies a[t] == c[t] by {
        assert(a[t] == b.subrange(0, a.len() as int)[t]);
        assert(b[t] == c.subrange(0, b.len() as int)[t]);
    }
    assert(a =~= c.subrange(0, a.len() as int));
}

/// Extending the detail lines preserves every earlier binding's reported
/// lines.
proof fn lemma_details_extend(
    before: Seq<String>,
    after: Seq<String>,
    bs: Seq<RoutePolicy>,
    pols: Seq<PolicySpec>,
    i: int,
)
    requires
        before.len() <= after.len(),
        forall|k: int| 0 <= k < before.len() ==> #[trigger] after[k] == before[k],
        forall|t: int| 0 <= t < i && !binding_ok(#[trigger] bs[t], pols)
            ==> exists|k: int| 0 <= k < before.len()
            && binding_ctx(t).is_prefix_of((#[trigger] before[k])@),
        forall|t: int| 0 <= t < i && binding_params_bad(#[trigger] bs[t])
            ==> exists|k: int| 0 <= k < before.len()
            && (#[trigger] before[k])@ == params_bad_msg(t),
        forall|t: int| 0 <= t < i && binding_not_found(#[trigger] bs[t], pols)
            ==> exists|k: int| 0 <= k < before.len()
            && (#[trigger] before[k])@ == not_found_msg(t, bs[t]),
        forall|t: int| 0 <= t < i && binding_stage_bad(#[trigger] bs[t], pols)
            ==> exists|k: int| 0 <= k < before.len()
            && (#[trigger] before[k])@ == stage_bad_msg(t, bs[t]),
        forall|t: int| 0 <= t < i && binding_default_bad(#[trigger] bs[t], pols)
            ==> exists|k: int| 0 <= k < before.len()
            && (#[trigger] before[k])@ == default_bad_msg(t),
    ensures
        forall|t: int| 0 <= t < i && !binding_ok(#[trigger] bs[t], pols)
            ==> exists|k: int| 0 <= k < after.len()
            && binding_ctx(t).is_prefix_of((#[trigger] after[k])@),
        forall|t: int| 0 <= t < i && binding_params_bad(#[trigger] bs[t])
            ==> exists|k: int| 0 <= k < after.len()
            && (#[trigger] after[k])@ == params_bad_msg(t),
        forall|t: int| 0 <= t < i && binding_not_found(#[trigger] bs[t], pols)
            ==> exists|k: int| 0 <= k < after.len()
            && (#[trigger] after[k])@ == not_found_msg(t, bs[t]),
        forall|t: int| 0 <= t < i && binding_stage_bad(#[trigger] bs[t], pols)
            ==> exists|k: int| 0 <= k < after.len()
            && (#[trigger] after[k])@ == stage_bad_msg(t, bs[t]),
        forall|t: int| 0 <= t < i && binding_default_bad(#[trigger] bs[t], pols)
            ==> exists|k: int| 0 <= k < after.len()
            && (#[trigger] after[k])@ == default_bad_msg(t),
{
    assert forall|t: int| 0 <= t < i && !binding_ok(#[trigger] bs[t], pols) implies
        exists|k: int| 0 <= k < after.len()
        && binding_ctx(t).is_prefix_of((#[trigger] after[k])@) by {
        let k0 = choose|k0: int| 0 <= k0 < before.len()
            && binding_ctx(t).is_prefix_of((#[trigger] before[k0])@);
        assert(after[k0] == before[k0]);
    }
    assert forall|t: int| 0 <= t < i && binding_params_bad(#[trigger] bs[t]) implies
        exists|k: int| 0 <= k < after.len()
        && (#[trigger] after[k])@ == params_bad_msg(t) by {
        let k0 = choose|k0: int| 0 <= k0 < before.len()
            && (#[trigger] before[k0])@ == params_bad_msg(t);
        assert(after[k0] == before[k0]);
    }
    assert forall|t: int| 0 <= t < i && binding_not_found(#[trigger] bs[t], pols)
        implies exists|k: int| 0 <= k < after.len()
        && (#[trigger] after[k])@ == not_found_msg(t, bs[t]) by {
        let k0 = choose|k0: int| 0 <= k0 < before.len()
            && (#[trigger] before[k0])@ == not_found_msg(t, bs[t]);
        assert(after[k0] == before[k0]);
    }
    assert forall|t: int| 0 <= t < i && binding_stage_bad(#[trigger] bs[t], pols)
        implies exists|k: int| 0 <= k < after.len()
        && (#[trigger] after[k])@ == stage_bad_msg(t, bs[t]) by {
        let k0 = choose|k0: int| 0 <= k0 < before.len()
            && (#[trigger] before[k0])@ == stage_bad_msg(t, bs[t]);
        assert(after[k0] == before[k0]);
    }
    assert forall|t: int| 0 <= t < i && binding_default_bad(#[trigger] bs[t], pols)
        implies exists|k: int| 0 <= k < after.len()
        && (#[trigger] after[k])@ == default_bad_msg(t) by {
        let k0 = choose|k0: int| 0 <= k0 < before.len()
            && (#[trigger] before[k0])@ == default_bad_msg(t);
        assert(after[k0] == before[k0]);
    }
}

/// A route's bindings are accepted exactly when each one is. Every
/// failing binding contributes at least one detail line under its
/// `route.policies[i]` context — the structural failures with their exact
/// lines — and every line names some binding's context.
#[verifier::rlimit(30)]
pub fn validate_route_policies(route: &RouteSpec, policies: &Vec<PolicySpec>) -> (r:
    Result<(), ValidationError>)
    ensures
        r is Ok <==> (forall|i: int| 0 <= i < route.policies@.len()
            ==> binding_ok(#[trigger] route.policies@[i], policies@)),
        r matches Err(e) ==> e.details@.len() > 0,
        r matches Err(e) ==> forall|k: int| 0 <= k < e.details@.len()
            ==> "route.policies["@.is_prefix_of((#[trigger] e.details@[k])@),
        r is Err ==> (forall|i: int| 0 <= i < route.policies@.len()
            && !binding_ok(#[trigger] route.policies@[i], policies@)
            ==> exists|k: int| 0 <= k < r->Err_0.details@.len()
            && binding_ctx(i).is_prefix_of((#[trigger] r->Err_0.details@[k])@)),
        r is Err ==> (forall|i: int| 0 <= i < route.policies@.len()
            && binding_params_bad(#[trigger] route.policies@[i])
            ==> exists|k: int| 0 <= k < r->Err_0.details@.len()
            && (#[trigger] r->Err_0.details@[k])@ == params_bad_msg(i)),
        r is Err ==> (forall|i: int| 0 <= i < route.policies@.len()
            && binding_not_found(#[trigger] route.policies@[i], policies@)
            ==> exists|k: int| 0 <= k < r->Err_0.details@.len()
            && (#[trigger] r->Err_0.details@[k])@ == not_found_msg(i,
            route.policies@[i])),
        r is Err ==> (forall|i: int| 0 <= i < route.policies@.len()
            && binding_stage_bad(#[trigger] route.policies@[i], policies@)
            ==> exists|k: int| 0 <= k < r->Err_0.details@.len()
            && (#[trigger] r->Err_0.details@[k])@ == stage_bad_msg(i,
            route.policies@[i])),
        r is Err ==> (forall|i: int| 0 <= i < route.policies@.len()
            && binding_default_bad(#[trigger] route.policies@[i], policies@)
            ==> exists|k: int| 0 <= k < r->Err_0.details@.len()
            && (#[trigger] r->Err_0.details@[k])@ == default_bad_msg(i)),
{
    let mut details: Vec<String> = Vec::new();
    let mut i: usize = 0;
    while i < route.policies.len()
        invariant
            i <= route.policies@.len(),
            (details@.len() == 0) <==> (forall|j: int| 0 <= j < i
                ==> binding_ok(#[trigger] route.policies@[j], policies@)),
            forall|k: int| 0 <= k < details@.len()
                ==> "route.policies["@.is_prefix_of((#[trigger] details@[k])@),
            forall|t: int| 0 <= t < i
                && !binding_ok(#[trigger] route.policies@[t], policies@)
                ==> exists|k: int| 0 <= k < details@.len()
                && binding_ctx(t).is_prefix_of((#[trigger] details@[k])@),
            forall|t: int| 0 <= t < i
                && binding_params_bad(#[trigger] route.policies@[t])
                ==> exists|k: int| 0 <= k < details@.len()
                && (#[trigger] details@[k])@ == params_bad_msg(t),
            forall|t: int| 0 <= t < i
                && binding_not_found(#[trigger] route.policies@[t], policies@)
                ==> exists|k: int| 0 <= k < details@.len()
                && (#[trigger] details@[k])@ == not_found_msg(t, route.policies@[t]),
            forall|t: int| 0 <= t < i
                && binding_stage_bad(#[trigger] route.policies@[t], policies@)
                ==> exists|k: int| 0 <= k < details@.len()
                && (#[trigger] details@[k])@ == stage_bad_msg(t, route.policies@[t]),
            forall|t: int| 0 <= t < i
                && binding_default_bad(#[trigger] route.policies@[t], policies@)
                ==> exists|k: int| 0 <= k < details@.len()
                && (#[trigger] details@[k])@ == default_bad_msg(t),
        decreases route.policies@.len() - i,
    {
        let binding = &route.policies[i];
        let mut context = "route.policies[".to_owned();
        let index_text = usize_to_string(i);
        context.append(index_text.as_str());
        context.append("]");
        proof {
            assert(context@ =~= binding_ctx(i as int));
            assert("route.policies["@.is_prefix_of(binding_ctx(i as int))) by {
                assert(binding_ctx(i as int).subrange(0,
                    "route.policies["@.len() as int) =~= "route.policies["@);
            }
        }

        let params_bad = match &binding.params {
            Some(p) => !p.is_object(),
            None => false,
        };
        if params_bad {
            let mut line = context;
            line.append(".params must be a JSON object");
            let ghost before = details@;
            proof {
                assert(line@ =~= params_bad_msg(i as int));
                assert(binding_ctx(i as int).is_prefix_of(line@)) by {
                    assert(line@.subrange(0, binding_ctx(i as int).len() as int)
                        =~= binding_ctx(i as int));
                }
                lemma_prefix_trans("route.policies["@, binding_ctx(i as int), line@);
            }
            details.push(line);
            proof {
                assert(forall|k: int| 0 <= k < before.len()
                    ==> #[trigger] details@[k] == before[k]);
                lemma_details_extend(before, details@, route.policies@,
                    policies@, i as int);
                assert(details@[details@.len() - 1]@ == params_bad_msg(i as int));
            }
            i = i + 1;
            continue;
        }

        let found = find_policy_exec(policies, &binding.id, &binding.version);
        let ps = match found {
            Some(ps) => ps,
            None => {
                let mut line = context;
                line.append(": policy ");
                line.append(binding.id.as_str());
                line.append("@");
                line.append(binding.version.as_str());
                line.append(" not found");
                let ghost before = details@;
                proof {
                    assert(line@ =~= not_found_msg(i as int,
                        route.policies@[i as int]));
                    assert(binding_ctx(i as int).is_prefix_of(line@)) by {
                        assert(line@.subrange(0, binding_ctx(i as int).len() as int)
                            =~= binding_ctx(i as int));
                    }
                    lemma_prefix_trans("route.policies["@, binding_ctx(i as int),
                        line@);
                }
                details.push(line);
                proof {
                    assert(forall|k: int| 0 <= k < before.len()
                        ==> #[trigger] details@[k] == before[k]);
                    lemma_details_extend(before, details@, route.policies@,
                        policies@, i as int);
                    assert(details@[details@.len() - 1]@ == not_found_msg(i as int,
                        route.policies@[i as int]));
                }
                i = i + 1;
                continue;
            },
        };

        if !stage_in_exec(&ps.supported_stages, &binding.stage) {
            let mut line = context;
            line.append(": stage ");
            line.append(binding.stage.as_str());
            line.append(" not allowed for ");
            line.append(binding.id.as_str());
            line.append("@");
            line.append(binding.version.as_str());
            let ghost before = details@;
            proof {
                assert(line@ =~= stage_bad_msg(i as int, route.policies@[i as int]));
                assert(binding_ctx(i as int).is_prefix_of(line@)) by {
                    assert(line@.subrange(0, binding_ctx(i as int).len() as int)
                        =~= binding_ctx(i as int));
                }
                lemma_prefix_trans("route.policies["@, binding_ctx(i as int), line@);
            }
            details.push(line);
            proof {
                assert(forall|k: int| 0 <= k < before.len()
                    ==> #[trigger] details@[k] == before[k]);
                lemma_details_extend(before, details@, route.policies@,
                    policies@, i as int);
                assert(details@[details@.len() - 1]@ == stage_bad_msg(i as int,
                    route.policies@[i as int]));
            }
            i = i + 1;
            continue;
        }

        let schema_text = to_json_text(&ps.config_schema);
        let compiled = match compile_schema_text(schema_text.as_str()) {
            Ok(c) => c,
            Err(msg) => {
                let mut line = context;
                line.append(".config_schema is invalid: ");
                line.append(msg.as_str());
                let ghost before = details@;
                proof {
                    assert(binding_ctx(i as int).is_prefix_of(line@)) by {
                        assert(line@.subrange(0, binding_ctx(i as int).len() as int)
                            =~= binding_ctx(i as int));
                    }
                    lemma_prefix_trans("route.policies["@, binding_ctx(i as int),
                        line@);
                }
                details.push(line);
                proof {
                    assert(forall|k: int| 0 <= k < before.len()
                        ==> #[trigger] details@[k] == before[k]);
                    lemma_details_extend(before, details@, route.policies@,
                        policies@, i as int);
                    assert(binding_ctx(i as int).is_prefix_of(
                        details@[details@.len() - 1]@));
                }
                i = i + 1;
                continue;
            },
        };

        let merged = match deep_merge_default_with_params(&ps.default_config,
            binding.params.as_ref(), context.as_str()) {
            Ok(m) => m,
            Err(e) => {
                let mut extra = e.details;
                let ghost line_view = extra.deep_view();
                let ghost before = details@;
                proof {
                    assert(extra@[0]@ =~= default_bad_msg(i as int));
                    assert(binding_ctx(i as int).is_prefix_of(extra@[0]@)) by {
                        assert(extra@[0]@.subrange(0,
                            binding_ctx(i as int).len() as int)
                            =~= binding_ctx(i as int));
                    }
                    lemma_prefix_trans("route.policies["@, binding_ctx(i as int),
                        extra@[0]@);
                }
                details.append(&mut extra);
                proof {
                    assert(forall|k: int| 0 <= k < before.len()
                        ==> #[trigger] details@[k] == before[k]);
                    lemma_details_extend(before, details@, route.policies@,
                        policies@, i as int);
                    assert(details@[details@.len() - 1]@ == default_bad_msg(i as int));
                }
                i = i + 1;
                continue;
            },
        };

        let merged_text = to_json_text(&merged);
        let violations = validate_instance_text(&compiled, merged_text.as_str());
        if violations.len() > 0 {
            let mut params_context = context;
            params_context.append(".params");
            proof {
                assert(binding_ctx(i as int).is_prefix_of(params_context@)) by {
                    assert(params_context@.subrange(0,
                        binding_ctx(i as int).len() as int)
                        =~= binding_ctx(i as int));
                }
            }
            let mut lines = schema_violation_details(params_context.as_str(),
                &violations);
            let ghost before = details@;
            let ghost lines_view = lines@;
            details.append(&mut lines);
            proof {
                assert(forall|k: int| 0 <= k < before.len()
                    ==> #[trigger] details@[k] == before[k]);
                lemma_details_extend(before, details@, route.policies@,
                    policies@, i as int);
                assert forall|k: int| before.len() <= k < details@.len() implies
                    binding_ctx(i as int).is_prefix_of((#[trigger] details@[k])@)
                    && "route.policies["@.is_prefix_of(details@[k]@) by {
                    assert(details@[k] == lines_view[k - before.len()]);
                    assert(params_context@.is_prefix_of(details@[k]@));
                    lemma_prefix_trans(binding_ctx(i as int), params_context@,
                        details@[k]@);
                    lemma_prefix_trans("route.policies["@, binding_ctx(i as int),
                        details@[k]@);
                }
                assert(binding_ctx(i as int).is_prefix_of(
                    details@[details@.len() - 1]@));
            }
        }
        i = i + 1;
    }
    if details.len() == 0 {
        Ok(())
    } else {
        let ghost dv = details@;
        let err = ValidationError::with_details(details);
        let res: Result<(), ValidationError> = Err(err);
        proof {
            assert(res->Err_0.details@ == dv);
            assert forall|k: int| 0 <= k < res->Err_0.details@.len() implies
                "route.policies["@.is_prefix_of(
                (#[trigger] res->Err_0.details@[k])@) by {
                assert(res->Err_0.details@[k] == dv[k]);
            }
            assert forall|t: int| 0 <= t < route.policies@.len()
                && !binding_ok(#[trigger] route.policies@[t], policies@)
                implies exists|k: int| 0 <= k < res->Err_0.details@.len()
                && binding_ctx(t).is_prefix_of(
                (#[trigger] res->Err_0.details@[k])@) by {
                let k0 = choose|k0: int| 0 <= k0 < dv.len()
                    && binding_ctx(t).is_prefix_of((#[trigger] dv[k0])@);
                assert(res->Err_0.details@[k0] == dv[k0]);
            }
            assert forall|t: int| 0 <= t < route.policies@.len()
                && binding_params_bad(#[trigger] route.policies@[t])
                implies exists|k: int| 0 <= k < res->Err_0.details@.len()
                && (#[trigger] res->Err_0.details@[k])@ == params_bad_msg(t) by {
                let k0 = choose|k0: int| 0 <= k0 < dv.len()
                    && (#[trigger] dv[k0])@ == params_bad_msg(t);
                assert(res->Err_0.details@[k0] == dv[k0]);
            }
            assert forall|t: int| 0 <= t < route.policies@.len()
                && binding_not_found(#[trigger] route.policies@[t], policies@)
                implies exists|k: int| 0 <= k < res->Err_0.details@.len()
                && (#[trigger] res->Err_0.details@[k])@ == not_found_msg(t,
                route.policies@[t]) by {
                let k0 = choose|k0: int| 0 <= k0 < dv.len()
                    && (#[trigger] dv[k0])@ == not_found_msg(t, route.policies@[t]);
                assert(res->Err_0.details@[k0] == dv[k0]);
            }
            assert forall|t: int| 0 <= t < route.policies@.len()
                && binding_stage_bad(#[trigger] route.policies@[t], policies@)
                implies exists|k: int| 0 <= k < res->Err_0.details@.len()
                && (#[trigger] res->Err_0.details@[k])@ == stage_bad_msg(t,
                route.policies@[t]) by {
                let k0 = choose|k0: int| 0 <= k0 < dv.len()
                    && (#[trigger] dv[k0])@ == stage_bad_msg(t, route.policies@[t]);
                assert(res->Err_0.details@[k0] == dv[k0]);
            }
            assert forall|t: int| 0 <= t < route.policies@.len()
                && binding_default_bad(#[trigger] route.policies@[t], policies@)
                implies exists|k: int| 0 <= k < res->Err_0.details@.len()
                && (#[trigger] res->Err_0.details@[k])@ == default_bad_msg(t) by {
                let k0 = choose|k0: int| 0 <= k0 < dv.len()
                    && (#[trigger] dv[k0])@ == default_bad_msg(t);
                assert(res->Err_0.details@[k0] == dv[k0]);
            }
        }
        res
    }
}

} // verus!
