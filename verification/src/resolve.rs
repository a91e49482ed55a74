//! Placeholder and credential resolution.
//!
//! A string leaf that starts with the reference prefix `AMBER_` names an
//! environment variable (the remainder of the string). Resolution
//! replaces such a leaf with the variable's value and leaves it
//! unchanged when the variable is unset (fail-open). The same
//! convention resolves a flow's bearer token.
//!
//! The environment is taken as a plain value: the caller snapshots the
//! process environment and hands it in, so every function here is a
//! pure, verified computation.

use vstd::prelude::*;

use crate::json::{arr_models, json_model_of, obj_models, JsonModel, JsonValue};
use crate::json::{lemma_arr_models_index, lemma_obj_models_index};
use crate::text::{str_chars, string_of_range};

verus! {

/// A snapshot of environment variables: name/value pairs, looked up by
/// first match.
pub struct Env {
    pairs: Vec<(String, String)>,
}

impl View for Env {
    type V = Seq<(Seq<char>, Seq<char>)>;

    closed spec fn view(&self) -> Seq<(Seq<char>, Seq<char>)> {
        Seq::new(self.pairs@.len(), |i: int| (self.pairs@[i].0@, self.pairs@[i].1@))
    }
}

pub open spec fn env_lookup(env: Seq<(Seq<char>, Seq<char>)>, name: Seq<char>) -> Option<Seq<char>>
    decreases env.len(),
{
    if env.len() == 0 {
        None
    } else if env[0].0 == name {
        Some(env[0].1)
    } else {
        env_lookup(env.drop_first(), name)
    }
}

impl Env {
    pub fn new() -> (e: Env)
        ensures
            e@ == Seq::<(Seq<char>, Seq<char>)>::empty(),
    {
        let e = Env { pairs: Vec::new() };
        proof {
            assert(e@ =~= Seq::<(Seq<char>, Seq<char>)>::empty());
        }
        e
    }

    /// Appends one variable to the snapshot.
    pub fn push_var(&mut self, name: String, value: String)
        ensures
            final(self)@ == old(self)@.push((name@, value@)),
    {
        let ghost before = self@;
        self.pairs.push((name, value));
        proof {
            assert(self@ =~= before.push((self.pairs@.last().0@, self.pairs@.last().1@)));
        }
    }

    /// Finds the value of the first pair whose name matches.
    #[verifier::loop_isolation(false)]
    pub fn lookup(&self, name: &str) -> (r: Option<String>)
        ensures
            match r {
                Some(v) => env_lookup(self@, name@) == Some(v@),
                None => env_lookup(self@, name@) is None,
            },
    {
        let mut i: usize = 0;
        proof {
            assert(self@.subrange(0, self@.len() as int) =~= self@);
        }
        while i < self.pairs.len()
            invariant
                i <= self.pairs@.len(),
                env_lookup(self@, name@) == env_lookup(
                    self@.subrange(i as int, self@.len() as int),
                    name@,
                ),
            decreases self.pairs@.len() - i,
        {
            proof {
                let rest = self@.subrange(i as int, self@.len() as int);
                assert(rest[0] == self@[i as int]);
                assert(rest.drop_first() =~= self@.subrange(i as int + 1, self@.len() as int));
            }
            if crate::text::str_eq(self.pairs[i].0.as_str(), name) {
                let v = self.pairs[i].1.clone();
                return Some(v);
            }
            i += 1;
        }
        proof {
            assert(self@.subrange(self@.len() as int, self@.len() as int) =~= Seq::<(
                Seq<char>,
                Seq<char>,
            )>::empty());
        }
        None
    }
}

/// Holds when a string starts with the encrypted-reference prefix.
pub open spec fn has_amber_prefix(s: Seq<char>) -> bool {
    s.len() >= 6 && s.subrange(0, 6) == "AMBER_"@
}

/// The environment-variable name carried by a prefixed reference.
pub open spec fn amber_name(s: Seq<char>) -> Seq<char> {
    s.subrange(6, s.len() as int)
}

/// One leaf after resolution: a prefixed leaf becomes the variable's
/// value when the variable is set and is kept verbatim otherwise; any
/// other leaf is kept verbatim.
pub open spec fn resolve_leaf(s: Seq<char>, env: Seq<(Seq<char>, Seq<char>)>) -> Seq<char> {
    if has_amber_prefix(s) {
        match env_lookup(env, amber_name(s)) {
            Some(v) => v,
            None => s,
        }
    } else {
        s
    }
}

pub open spec fn resolve_model(m: JsonModel, env: Seq<(Seq<char>, Seq<char>)>) -> JsonModel
    decreases m,
{
    match m {
        JsonModel::Str(s) => JsonModel::Str(resolve_leaf(s, env)),
        JsonModel::Arr(items) => JsonModel::Arr(resolve_arr(items, env)),
        JsonModel::Obj(fields) => JsonModel::Obj(resolve_obj(fields, env)),
        leaf => leaf,
    }
}

pub open spec fn resolve_arr(items: Seq<JsonModel>, env: Seq<(Seq<char>, Seq<char>)>) -> Seq<
    JsonModel,
>
    decreases items,
    via resolve_arr_dec
{
    if items.len() == 0 {
        Seq::<JsonModel>::empty()
    } else {
        seq![resolve_model(items[0], env)] + resolve_arr(items.drop_first(), env)
    }
}

#[via_fn]
proof fn resolve_arr_dec(items: Seq<JsonModel>, env: Seq<(Seq<char>, Seq<char>)>) {
    if items.len() > 0 {
        assert(decreases_to!(items => items[0]));
        assert(items.drop_first() == items.subrange(1, items.len() as int));
        assert(decreases_to!(items => items.subrange(1, items.len() as int)));
        assert(decreases_to!(items => items.drop_first()));
    }
}

pub open spec fn resolve_obj(
    fields: Seq<(Seq<char>, JsonModel)>,
    env: Seq<(Seq<char>, Seq<char>)>,
) -> Seq<(Seq<char>, JsonModel)>
    decreases fields,
    via resolve_obj_dec
{
    if fields.len() == 0 {
        Seq::<(Seq<char>, JsonModel)>::empty()
    } else {
        seq![(fields[0].0, resolve_model(fields[0].1, env))] + resolve_obj(
            fields.drop_first(),
            env,
        )
    }
}

#[via_fn]
proof fn resolve_obj_dec(fields: Seq<(Seq<char>, JsonModel)>, env: Seq<(Seq<char>, Seq<char>)>) {
    if fields.len() > 0 {
        assert(decreases_to!(fields => fields[0]));
        assert(decreases_to!(fields => fields[0].1));
        assert(fields.drop_first() == fields.subrange(1, fields.len() as int));
        assert(decreases_to!(fields => fields.subrange(1, fields.len() as int)));
        assert(decreases_to!(fields => fields.drop_first()));
    }
}

pub proof fn lemma_resolve_arr_index(items: Seq<JsonModel>, env: Seq<(Seq<char>, Seq<char>)>)
    ensures
        resolve_arr(items, env).len() == items.len(),
        forall|i: int|
            0 <= i < items.len() ==> resolve_arr(items, env)[i] == resolve_model(items[i], env),
    decreases items.len(),
{
    if items.len() > 0 {
        lemma_resolve_arr_index(items.drop_first(), env);
    }
}

pub proof fn lemma_resolve_obj_index(
    fields: Seq<(Seq<char>, JsonModel)>,
    env: Seq<(Seq<char>, Seq<char>)>,
)
    ensures
        resolve_obj(fields, env).len() == fields.len(),
        forall|i: int|
            0 <= i < fields.len() ==> resolve_obj(fields, env)[i] == (
                fields[i].0,
                resolve_model(fields[i].1, env),
            ),
    decreases fields.len(),
{
    if fields.len() > 0 {
        lemma_resolve_obj_index(fields.drop_first(), env);
    }
}

/// Decides whether a string carries the reference prefix.
pub fn is_amber_ref(s: &str) -> (r: bool)
    ensures
        r == has_amber_prefix(s@),
{
    let cs = str_chars(s);
    if cs.len() < 6 {
        return false;
    }
    let r = cs[0] == 'A' && cs[1] == 'M' && cs[2] == 'B' && cs[3] == 'E' && cs[4] == 'R' && cs[5]
        == '_';
    proof {
        reveal_strlit("AMBER_");
        let sub = s@.subrange(0, 6);
        assert(sub[0] == s@[0] && sub[1] == s@[1] && sub[2] == s@[2] && sub[3] == s@[3] && sub[4]
            == s@[4] && sub[5] == s@[5]);
        if r {
            assert(sub =~= "AMBER_"@);
        }
    }
    r
}

/// Resolves one string leaf against the environment.
pub fn resolve_leaf_value(s: String, env: &Env) -> (r: String)
    ensures
        r@ == resolve_leaf(s@, env@),
{
    if is_amber_ref(s.as_str()) {
        let cs = str_chars(s.as_str());
        let name = string_of_range(&cs, 6, cs.len());
        match env.lookup(name.as_str()) {
            Some(v) => v,
            None => s,
        }
    } else {
        s
    }
}

/// Rewrites every string leaf of a tree, at arbitrary depth, replacing
/// set environment references and keeping everything else; returns the
/// derived copy.
#[verifier::loop_isolation(false)]
pub fn resolve_placeholders(v: JsonValue, env: &Env) -> (r: JsonValue)
    ensures
        r@ == resolve_model(v@, env@),
    decreases v,
{
    let ghost vg = v;
    match v {
        JsonValue::Null => JsonValue::Null,
        JsonValue::Bool(b) => JsonValue::Bool(b),
        JsonValue::Num(s) => JsonValue::Num(s),
        JsonValue::Str(s) => JsonValue::Str(resolve_leaf_value(s, env)),
        JsonValue::Arr(items) => {
            let ghost vec0 = items;
            let ghost orig = items@;
            let mut items = items;
            let mut out: Vec<JsonValue> = Vec::new();
            while items.len() > 0
                invariant
                    out@.len() + items@.len() == orig.len(),
                    items@ == orig.subrange(out@.len() as int, orig.len() as int),
                    forall|j: int|
                        0 <= j < out@.len() ==> #[trigger] json_model_of(out@[j]) == resolve_model(
                            json_model_of(orig[j]),
                            env@,
                        ),
                decreases items@.len(),
            {
                let ghost k = out@.len() as int;
                let x = items.remove(0);
                proof {
                    assert(x == orig[k]);
                    assert(vg == JsonValue::Arr(vec0));
                    assert(decreases_to!(vg => vec0));
                    assert(decreases_to!(vec0 => vec0@[k]));
                    assert(decreases_to!(vg => vec0@[k]));
                    assert(items@ =~= orig.subrange(k + 1, orig.len() as int));
                }
                let y = resolve_placeholders(x, env);
                out.push(y);
            }
            proof {
                lemma_arr_models_index(out@);
                lemma_arr_models_index(orig);
                lemma_resolve_arr_index(arr_models(orig), env@);
                assert(arr_models(out@) =~= resolve_arr(arr_models(orig), env@));
            }
            JsonValue::Arr(out)
        },
        JsonValue::Obj(fields) => {
            let ghost vec0 = fields;
            let ghost orig = fields@;
            let mut fields = fields;
            let mut out: Vec<(String, JsonValue)> = Vec::new();
            while fields.len() > 0
                invariant
                    out@.len() + fields@.len() == orig.len(),
                    fields@ == orig.subrange(out@.len() as int, orig.len() as int),
                    forall|j: int|
                        0 <= j < out@.len() ==> #[trigger] out@[j].0@ == orig[j].0@
                            && #[trigger] json_model_of(out@[j].1) == resolve_model(
                            json_model_of(orig[j].1),
                            env@,
                        ),
                decreases fields@.len(),
            {
                let ghost k = out@.len() as int;
                let x = fields.remove(0);
                proof {
                    assert(x == orig[k]);
                    assert(vg == JsonValue::Obj(vec0));
                    assert(decreases_to!(vg => vec0));
                    assert(decreases_to!(vec0 => vec0@[k]));
                    assert(decreases_to!(vec0@[k] => vec0@[k].1));
                    assert(decreases_to!(vg => vec0@[k].1));
                    assert(fields@ =~= orig.subrange(k + 1, orig.len() as int));
                }
                let y = resolve_placeholders(x.1, env);
                out.push((x.0, y));
            }
            proof {
                lemma_obj_models_index(out@);
                lemma_obj_models_index(orig);
                lemma_resolve_obj_index(obj_models(orig), env@);
                assert(obj_models(out@) =~= resolve_obj(obj_models(orig), env@));
            }
            JsonValue::Obj(out)
        },
    }
}

/// Holds when no environment value itself carries the reference prefix;
/// resolution is then idempotent.
pub open spec fn env_values_literal(env: Seq<(Seq<char>, Seq<char>)>) -> bool {
    forall|i: int| 0 <= i < env.len() ==> !has_amber_prefix(#[trigger] env[i].1)
}

proof fn lemma_env_lookup_literal(env: Seq<(Seq<char>, Seq<char>)>, name: Seq<char>)
    requires
        env_values_literal(env),
    ensures
        env_lookup(env, name) matches Some(v) ==> !has_amber_prefix(v),
    decreases env.len(),
{
    if env.len() > 0 {
        assert(forall|i: int|
            0 <= i < env.drop_first().len() ==> env.drop_first()[i] == env[i + 1]);
        lemma_env_lookup_literal(env.drop_first(), name);
    }
}

/// Law: resolving one leaf twice gives what resolving it once gives,
/// provided no environment value itself carries the reference prefix.
pub proof fn lemma_resolve_leaf_idempotent(s: Seq<char>, env: Seq<(Seq<char>, Seq<char>)>)
    requires
        env_values_literal(env),
    ensures
        resolve_leaf(resolve_leaf(s, env), env) == resolve_leaf(s, env),
{
    if has_amber_prefix(s) {
        lemma_env_lookup_literal(env, amber_name(s));
    }
}

/// Law: resolving a whole tree twice gives what resolving it once
/// gives, provided no environment value itself carries the reference
/// prefix.
pub proof fn lemma_resolve_idempotent(m: JsonModel, env: Seq<(Seq<char>, Seq<char>)>)
    requires
        env_values_literal(env),
    ensures
        resolve_model(resolve_model(m, env), env) == resolve_model(m, env),
    decreases m,
{
    match m {
        JsonModel::Str(s) => {
            lemma_resolve_leaf_idempotent(s, env);
        },
        JsonModel::Arr(items) => {
            lemma_resolve_arr_index(items, env);
            lemma_resolve_arr_index(resolve_arr(items, env), env);
            assert forall|i: int| 0 <= i < items.len() implies resolve_model(
                resolve_model(items[i], env),
                env,
            ) == resolve_model(items[i], env) by {
                assert(decreases_to!(m => items));
                assert(decreases_to!(items => items[i]));
                assert(decreases_to!(m => items[i]));
                lemma_resolve_idempotent(items[i], env);
            }
            assert(resolve_arr(resolve_arr(items, env), env) =~= resolve_arr(items, env));
        },
        JsonModel::Obj(fields) => {
            lemma_resolve_obj_index(fields, env);
            lemma_resolve_obj_index(resolve_obj(fields, env), env);
            assert forall|i: int| 0 <= i < fields.len() implies resolve_model(
                resolve_model(fields[i].1, env),
                env,
            ) == resolve_model(fields[i].1, env) by {
                assert(decreases_to!(m => fields));
                assert(decreases_to!(fields => fields[i]));
                assert(decreases_to!(fields[i] => fields[i].1));
                assert(decreases_to!(m => fields[i].1));
                lemma_resolve_idempotent(fields[i].1, env);
            }
            assert(resolve_obj(resolve_obj(fields, env), env) =~= resolve_obj(fields, env));
        },
        _ => {},
    }
}

/// How a failed credential reference is handled.
#[derive(Clone, Copy, PartialEq, Eq, Structural)]
pub enum ResolutionPolicy {
    /// Keep the original field value as the token (the inherited,
    /// risk-bearing default).
    FallbackToLiteral,
    /// Refuse the flow instead of sending a placeholder as a secret.
    Strict,
}

#[derive(Clone, Copy, PartialEq, Eq, Structural, Debug)]
pub enum CredentialError {
    UnresolvedReference,
}

/// Law: a token without the reference prefix resolves to itself.
pub proof fn lemma_literal_token_unchanged(token: Seq<char>, env: Seq<(Seq<char>, Seq<char>)>)
    requires
        !has_amber_prefix(token),
    ensures
        resolve_leaf(token, env) == token,
{
}

/// Law: a prefixed token whose variable is unset falls back to the
/// original field value rather than failing.
pub proof fn lemma_unset_reference_falls_back(token: Seq<char>, env: Seq<(Seq<char>, Seq<char>)>)
    requires
        has_amber_prefix(token),
        env_lookup(env, amber_name(token)) is None,
    ensures
        resolve_leaf(token, env) == token,
{
}

/// Resolves a flow's bearer token. Under `FallbackToLiteral` the result
/// is always the resolved leaf; under `Strict` an unset reference is an
/// error. The returned `String` is owned by the caller and dropped with
/// it, so no secret material outlives the invocation.
pub fn resolve_token(token: &String, env: &Env, policy: ResolutionPolicy) -> (r: Result<
    String,
    CredentialError,
>)
    ensures
        policy == ResolutionPolicy::FallbackToLiteral ==> (r matches Ok(t) && t@ == resolve_leaf(
            token@,
            env@,
        )),
        !has_amber_prefix(token@) ==> (r matches Ok(t) && t@ == token@),
        has_amber_prefix(token@) && env_lookup(env@, amber_name(token@)) is Some ==> (r matches Ok(
            t,
        ) && Some(t@) == env_lookup(env@, amber_name(token@))),
        policy == ResolutionPolicy::Strict && has_amber_prefix(token@) && env_lookup(
            env@,
            amber_name(token@),
        ) is None ==> r == Err::<String, CredentialError>(CredentialError::UnresolvedReference),
{
    if is_amber_ref(token.as_str()) {
        let cs = str_chars(token.as_str());
        let name = string_of_range(&cs, 6, cs.len());
        match env.lookup(name.as_str()) {
            Some(v) => Ok(v),
            None => match policy {
                ResolutionPolicy::FallbackToLiteral => Ok(token.clone()),
                ResolutionPolicy::Strict => Err(CredentialError::UnresolvedReference),
            },
        }
    } else {
        Ok(token.clone())
    }
}

} // verus!
