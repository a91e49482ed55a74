//! Request planning: the target URL, the authorization header and the
//! serialized body of each POST the client issues. The network exchange
//! itself happens outside this crate; its observed status and body come
//! back through `dispatch_outcome`.

use vstd::prelude::*;

use crate::config::FlowConfig;
use crate::errors::DispatchError;
use crate::json::{json_text_of, to_json_string, JsonModel, JsonValue};
use crate::payload::{
    build_payload, ctx_view, merged_override_model, payload_model, upload_model, upload_view,
    UploadFile,
};
use crate::resolve::{amber_name, env_lookup, has_amber_prefix, resolve_leaf, resolve_model,
    resolve_token, CredentialError, Env, ResolutionPolicy};

verus! {

pub open spec fn dec_digit(d: nat) -> char {
    if d == 0 {
        '0'
    } else if d == 1 {
        '1'
    } else if d == 2 {
        '2'
    } else if d == 3 {
        '3'
    } else if d == 4 {
        '4'
    } else if d == 5 {
        '5'
    } else if d == 6 {
        '6'
    } else if d == 7 {
        '7'
    } else if d == 8 {
        '8'
    } else {
        '9'
    }
}

/// The decimal text of a number, most significant digit first.
pub open spec fn dec_of(n: nat) -> Seq<char>
    decreases n,
{
    if n < 10 {
        seq![dec_digit(n)]
    } else {
        dec_of(n / 10).push(dec_digit(n % 10))
    }
}

fn digit_char(d: u16) -> (r: char)
    requires
        d < 10,
    ensures
        r == dec_digit(d as nat),
{
    match d {
        0 => '0',
        1 => '1',
        2 => '2',
        3 => '3',
        4 => '4',
        5 => '5',
        6 => '6',
        7 => '7',
        8 => '8',
        _ => '9',
    }
}

/// Writes a port number in decimal.
pub fn u16_string(n: u16) -> (r: String)
    ensures
        r@ == dec_of(n as nat),
    decreases n,
{
    if n < 10 {
        let mut out = String::new();
        out.push(digit_char(n));
        proof {
            assert(out@ =~= seq![dec_digit(n as nat)]);
        }
        out
    } else {
        let mut out = u16_string(n / 10);
        out.push(digit_char(n % 10));
        out
    }
}

/// The URL of one request, assembled from the flow's address fields.
pub open spec fn url_of(
    protocol: Seq<char>,
    hostname: Seq<char>,
    port: u16,
    path: Seq<char>,
    chat_id: Seq<char>,
) -> Seq<char> {
    protocol + "://"@ + hostname + ":"@ + dec_of(port as nat) + path + chat_id
}

pub fn build_url(protocol: &str, hostname: &str, port: u16, path: &str, chat_id: &str) -> (r:
    String)
    ensures
        r@ == url_of(protocol@, hostname@, port, path@, chat_id@),
{
    let mut out = protocol.to_owned();
    out.append("://");
    out.append(hostname);
    out.append(":");
    let p = u16_string(port);
    out.append(p.as_str());
    out.append(path);
    out.append(chat_id);
    proof {
        assert(out@ =~= url_of(protocol@, hostname@, port, path@, chat_id@));
    }
    out
}

/// The path used for upsert requests: the flow's upsert path, or empty
/// when the flow declares none.
pub open spec fn upsert_path_of(flow: crate::config::FlowModel) -> Seq<char> {
    match flow.upsert_path {
        Some(p) => p,
        None => Seq::<char>::empty(),
    }
}

/// The value of the authorization header for a resolved token.
pub open spec fn bearer_of(token: Seq<char>) -> Seq<char> {
    "Bearer "@ + token
}

pub fn bearer_header(token: &str) -> (r: String)
    ensures
        r@ == bearer_of(token@),
{
    let mut out = "Bearer ".to_owned();
    out.append(token);
    out
}

/// A planner refuses only under the strict policy, and only because
/// the flow's credential reference names an unset variable.
pub open spec fn strict_refusal(
    token: Seq<char>,
    env: Seq<(Seq<char>, Seq<char>)>,
    policy: ResolutionPolicy,
    e: CredentialError,
) -> bool {
    &&& policy == ResolutionPolicy::Strict
    &&& has_amber_prefix(token)
    &&& env_lookup(env, amber_name(token)) is None
    &&& e == CredentialError::UnresolvedReference
}

/// Everything one POST needs: where, with what credential, and what.
#[derive(Debug)]
pub struct RequestPlan {
    pub url: String,
    pub auth_header: String,
    pub body: String,
}

/// The model of a conversational exchange for a flow: the request URL,
/// the resolved bearer header, and the serialized body whose override
/// tree has been resolved against the environment.
pub open spec fn conversational_plan_model(
    flow: crate::config::FlowModel,
    env: Seq<(Seq<char>, Seq<char>)>,
    q: Seq<char>,
    c: Option<Seq<char>>,
    up: Option<(Seq<char>, Seq<u8>)>,
    plan: RequestPlan,
) -> bool {
    &&& plan.url@ == url_of(flow.protocol, flow.hostname, flow.port, flow.request_path, flow.chat_id)
    &&& plan.auth_header@ == bearer_of(resolve_leaf(flow.bearer_token, env))
    &&& plan.body@ == json_text_of(
        payload_model(q, c, resolve_model(flow.override_config, env), up),
    )
}

/// Plans one conversational POST: resolves the flow's credential and
/// override placeholders, builds the body and the URL. Fails only under
/// the strict policy, when the credential reference is unset.
pub fn plan_conversational(
    flow: &FlowConfig,
    env: &Env,
    question: &str,
    context: Option<&String>,
    upload: Option<&UploadFile>,
    policy: ResolutionPolicy,
) -> (r: Result<RequestPlan, CredentialError>)
    ensures
        match r {
            Ok(plan) => conversational_plan_model(
                flow@,
                env@,
                question@,
                ctx_view(context),
                upload_view(upload),
                plan,
            ),
            Err(e) => strict_refusal(flow@.bearer_token, env@, policy, e),
        },
{
    let token = match resolve_token(&flow.bearer_token, env, policy) {
        Ok(t) => t,
        Err(e) => {
            return Err(e);
        },
    };
    let resolved = crate::resolve::resolve_placeholders(flow.override_config.clone(), env);
    let payload = build_payload(question, context, resolved, upload);
    let body = to_json_string(&payload);
    let url = build_url(
        flow.protocol.as_str(),
        flow.hostname.as_str(),
        flow.port,
        flow.request_path.as_str(),
        flow.chat_id.as_str(),
    );
    let auth_header = bearer_header(token.as_str());
    Ok(RequestPlan { url, auth_header, body })
}

/// The body of an upsert without uploads: the merged override tree
/// under the fixed key.
pub open spec fn upsert_config_body_model(
    flow: crate::config::FlowModel,
    env: Seq<(Seq<char>, Seq<char>)>,
    inline: JsonModel,
) -> JsonModel {
    JsonModel::Obj(
        seq![
            (
                "overrideConfig"@,
                merged_override_model(resolve_model(flow.override_config, env), inline),
            ),
        ],
    )
}

/// Plans the single POST of an upsert without uploads: the flow's
/// override tree is resolved, the inline object is shallow-merged into
/// it, and the result is sent under `overrideConfig` to the upsert URL.
pub fn plan_upsert_config(
    flow: &FlowConfig,
    env: &Env,
    inline: JsonValue,
    policy: ResolutionPolicy,
) -> (r: Result<RequestPlan, CredentialError>)
    ensures
        match r {
            Ok(plan) => {
                &&& plan.url@ == url_of(
                    flow@.protocol,
                    flow@.hostname,
                    flow@.port,
                    upsert_path_of(flow@),
                    flow@.chat_id,
                )
                &&& plan.auth_header@ == bearer_of(resolve_leaf(flow@.bearer_token, env@))
                &&& plan.body@ == json_text_of(upsert_config_body_model(flow@, env@, inline@))
            },
            Err(e) => strict_refusal(flow@.bearer_token, env@, policy, e),
        },
{
    proof {
        reveal_strlit("");
        assert(""@ =~= Seq::<char>::empty());
    }
    let ghost inline_m = inline@;
    let token = match resolve_token(&flow.bearer_token, env, policy) {
        Ok(t) => t,
        Err(e) => {
            return Err(e);
        },
    };
    let resolved = crate::resolve::resolve_placeholders(flow.override_config.clone(), env);
    let merged = crate::payload::merge_override(resolved, inline);
    let mut fields: Vec<(String, JsonValue)> = Vec::new();
    fields.push(("overrideConfig".to_owned(), merged));
    proof {
        crate::json::lemma_obj_models_index(fields@);
        assert(crate::json::obj_models(fields@) =~= seq![
            (
                "overrideConfig"@,
                merged_override_model(resolve_model(flow@.override_config, env@), inline_m),
            ),
        ]);
    }
    let body_value = JsonValue::Obj(fields);
    let body = to_json_string(&body_value);
    let url = match &flow.upsert_path {
        Some(p) => build_url(
            flow.protocol.as_str(),
            flow.hostname.as_str(),
            flow.port,
            p.as_str(),
            flow.chat_id.as_str(),
        ),
        None => build_url(
            flow.protocol.as_str(),
            flow.hostname.as_str(),
            flow.port,
            "",
            flow.chat_id.as_str(),
        ),
    };
    let auth_header = bearer_header(token.as_str());
    Ok(RequestPlan { url, auth_header, body })
}

/// The body of one upload POST of an upsert with uploads: a
/// single-element upload list and nothing else (no override tree is
/// merged on this path).
pub open spec fn upsert_upload_body_model(up: (Seq<char>, Seq<u8>)) -> JsonModel {
    JsonModel::Obj(seq![("uploads"@, JsonModel::Arr(seq![upload_model(up.0, up.1)]))])
}

/// Plans the POSTs of an upsert with uploads, one per file, in the
/// order given; a later exchange is independent of an earlier one's
/// outcome, so the caller decides whether a failure aborts the rest.
#[verifier::loop_isolation(false)]
pub fn plan_upsert_uploads(
    flow: &FlowConfig,
    env: &Env,
    files: &Vec<UploadFile>,
    policy: ResolutionPolicy,
) -> (r: Result<Vec<RequestPlan>, CredentialError>)
    ensures
        match r {
            Ok(plans) => {
                &&& plans@.len() == files@.len()
                &&& forall|i: int|
                    0 <= i < plans@.len() ==> {
                        &&& (#[trigger] plans@[i]).url@ == url_of(
                            flow@.protocol,
                            flow@.hostname,
                            flow@.port,
                            upsert_path_of(flow@),
                            flow@.chat_id,
                        )
                        &&& plans@[i].auth_header@ == bearer_of(
                            resolve_leaf(flow@.bearer_token, env@),
                        )
                        &&& plans@[i].body@ == json_text_of(upsert_upload_body_model(files@[i]@))
                    }
            },
            Err(e) => strict_refusal(flow@.bearer_token, env@, policy, e),
        },
{
    let token = match resolve_token(&flow.bearer_token, env, policy) {
        Ok(t) => t,
        Err(e) => {
            return Err(e);
        },
    };
    proof {
        reveal_strlit("");
        assert(""@ =~= Seq::<char>::empty());
    }
    let mut plans: Vec<RequestPlan> = Vec::new();
    let mut i: usize = 0;
    while i < files.len()
        invariant
            i <= files@.len(),
            plans@.len() == i,
            forall|j: int|
                0 <= j < i ==> {
                    &&& (#[trigger] plans@[j]).url@ == url_of(
                        flow@.protocol,
                        flow@.hostname,
                        flow@.port,
                        upsert_path_of(flow@),
                        flow@.chat_id,
                    )
                    &&& plans@[j].auth_header@ == bearer_of(resolve_leaf(flow@.bearer_token, env@))
                    &&& plans@[j].body@ == json_text_of(upsert_upload_body_model(files@[j]@))
                },
            token@ == resolve_leaf(flow@.bearer_token, env@),
        decreases files@.len() - i,
    {
        let elem = crate::payload::build_upload(files[i].path.as_str(), files[i].data.clone());
        let mut uploads: Vec<JsonValue> = Vec::new();
        uploads.push(elem);
        proof {
            crate::json::lemma_arr_models_index(uploads@);
            assert(crate::json::arr_models(uploads@) =~= seq![
                upload_model(files@[i as int].path@, files@[i as int].data@),
            ]);
        }
        let mut fields: Vec<(String, JsonValue)> = Vec::new();
        fields.push(("uploads".to_owned(), JsonValue::Arr(uploads)));
        proof {
            crate::json::lemma_obj_models_index(fields@);
            assert(crate::json::obj_models(fields@) =~= seq![
                (
                    "uploads"@,
                    JsonModel::Arr(
                        seq![upload_model(files@[i as int].path@, files@[i as int].data@)],
                    ),
                ),
            ]);
        }
        let body_value = JsonValue::Obj(fields);
        let body = to_json_string(&body_value);
        let url = match &flow.upsert_path {
            Some(p) => build_url(
                flow.protocol.as_str(),
                flow.hostname.as_str(),
                flow.port,
                p.as_str(),
                flow.chat_id.as_str(),
            ),
            None => build_url(
                flow.protocol.as_str(),
                flow.hostname.as_str(),
                flow.port,
                "",
                flow.chat_id.as_str(),
            ),
        };
        let auth_header = bearer_header(token.as_str());
        plans.push(RequestPlan { url, auth_header, body });
        i += 1;
    }
    Ok(plans)
}

/// Classifies one completed exchange: a 2xx status hands the body back,
/// anything else is an HTTP error carrying the status and the body.
pub fn dispatch_outcome(status: u16, body: String) -> (r: Result<String, DispatchError>)
    ensures
        200 <= status < 300 ==> (r matches Ok(b) && b@ == body@),
        !(200 <= status < 300) ==> (r matches Err(e) && e == DispatchError::HttpError(
            status,
            body,
        )),
{
    if 200 <= status && status < 300 {
        Ok(body)
    } else {
        Err(DispatchError::HttpError(status, body))
    }
}

} // verus!
