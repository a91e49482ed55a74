//! The configuration and payload tree: a JSON-like value of string keys
//! and scalar, array, or object nodes, together with its mathematical
//! model and a verified serializer.
//!
//! Numbers are carried as their decimal lexeme, so the tree holds no
//! floating-point value; the serializer emits the lexeme unchanged.

use vstd::prelude::*;

verus! {

/// Mathematical model of a tree node.
pub ghost enum JsonModel {
    Null,
    Bool(bool),
    Num(Seq<char>),
    Str(Seq<char>),
    Arr(Seq<JsonModel>),
    Obj(Seq<(Seq<char>, JsonModel)>),
}

/// A JSON-like tree value.
#[derive(Debug)]
pub enum JsonValue {
    Null,
    Bool(bool),
    Num(String),
    Str(String),
    Arr(Vec<JsonValue>),
    Obj(Vec<(String, JsonValue)>),
}

pub open spec fn json_model_of(v: JsonValue) -> JsonModel
    decreases v,
    via json_model_of_dec
{
    match v {
        JsonValue::Null => JsonModel::Null,
        JsonValue::Bool(b) => JsonModel::Bool(b),
        JsonValue::Num(s) => JsonModel::Num(s@),
        JsonValue::Str(s) => JsonModel::Str(s@),
        JsonValue::Arr(items) => JsonModel::Arr(arr_models(items@)),
        JsonValue::Obj(fields) => JsonModel::Obj(obj_models(fields@)),
    }
}

#[via_fn]
proof fn json_model_of_dec(v: JsonValue) {
    match v {
        JsonValue::Arr(items) => {
            assert(decreases_to!(items => items@));
            assert(decreases_to!(v => items@));
        },
        JsonValue::Obj(fields) => {
            assert(decreases_to!(fields => fields@));
            assert(decreases_to!(v => fields@));
        },
        _ => {},
    }
}

pub open spec fn arr_models(items: Seq<JsonValue>) -> Seq<JsonModel>
    decreases items,
    via arr_models_dec
{
    if items.len() == 0 {
        Seq::<JsonModel>::empty()
    } else {
        seq![json_model_of(items[0])] + arr_models(items.drop_first())
    }
}

#[via_fn]
proof fn arr_models_dec(items: Seq<JsonValue>) {
    if items.len() > 0 {
        assert(decreases_to!(items => items[0]));
        assert(items.drop_first() == items.subrange(1, items.len() as int));
        assert(decreases_to!(items => items.subrange(1, items.len() as int)));
        assert(decreases_to!(items => items.drop_first()));
    }
}

pub open spec fn obj_models(fields: Seq<(String, JsonValue)>) -> Seq<(Seq<char>, JsonModel)>
    decreases fields,
    via obj_models_dec
{
    if fields.len() == 0 {
        Seq::<(Seq<char>, JsonModel)>::empty()
    } else {
        seq![(fields[0].0@, json_model_of(fields[0].1))] + obj_models(fields.drop_first())
    }
}

#[via_fn]
proof fn obj_models_dec(fields: Seq<(String, JsonValue)>) {
    if fields.len() > 0 {
        assert(decreases_to!(fields => fields[0]));
        assert(decreases_to!(fields => fields[0].1));
        assert(fields.drop_first() == fields.subrange(1, fields.len() as int));
        assert(decreases_to!(fields => fields.subrange(1, fields.len() as int)));
        assert(decreases_to!(fields => fields.drop_first()));
    }
}

pub proof fn lemma_arr_models_index(items: Seq<JsonValue>)
    ensures
        arr_models(items).len() == items.len(),
        forall|i: int| 0 <= i < items.len() ==> arr_models(items)[i] == json_model_of(items[i]),
    decreases items.len(),
{
    if items.len() > 0 {
        lemma_arr_models_index(items.drop_first());
    }
}

pub proof fn lemma_obj_models_index(fields: Seq<(String, JsonValue)>)
    ensures
        obj_models(fields).len() == fields.len(),
        forall|i: int|
            0 <= i < fields.len() ==> obj_models(fields)[i] == (
                fields[i].0@,
                json_model_of(fields[i].1),
            ),
    decreases fields.len(),
{
    if fields.len() > 0 {
        lemma_obj_models_index(fields.drop_first());
    }
}

impl View for JsonValue {
    type V = JsonModel;

    open spec fn view(&self) -> JsonModel {
        json_model_of(*self)
    }
}

impl Clone for JsonValue {
    #[verifier::loop_isolation(false)]
    fn clone(&self) -> (r: Self)
        ensures
            r@ == self@,
        decreases self,
    {
        match self {
            JsonValue::Null => JsonValue::Null,
            JsonValue::Bool(b) => JsonValue::Bool(*b),
            JsonValue::Num(s) => JsonValue::Num(s.clone()),
            JsonValue::Str(s) => JsonValue::Str(s.clone()),
            JsonValue::Arr(items) => {
                let mut out: Vec<JsonValue> = Vec::new();
                let mut i: usize = 0;
                while i < items.len()
                    invariant
                        i <= items@.len(),
                        out@.len() == i,
                        forall|j: int|
                            0 <= j < i ==> #[trigger] json_model_of(out@[j]) == json_model_of(
                                items@[j],
                            ),
                    decreases items@.len() - i,
                {
                    proof {
                        assert(*self == JsonValue::Arr(*items));
                        assert(decreases_to!(*self => *items));
                        assert(decreases_to!(*items => items@[i as int]));
                        assert(decreases_to!(*self => items@[i as int]));
                    }
                    let y = items[i].clone();
                    out.push(y);
                    i += 1;
                }
                proof {
                    lemma_arr_models_index(out@);
                    lemma_arr_models_index(items@);
                    assert(arr_models(out@) =~= arr_models(items@));
                }
                JsonValue::Arr(out)
            },
            JsonValue::Obj(fields) => {
                let mut out: Vec<(String, JsonValue)> = Vec::new();
                let mut i: usize = 0;
                while i < fields.len()
                    invariant
                        i <= fields@.len(),
                        out@.len() == i,
                        forall|j: int|
                            0 <= j < i ==> #[trigger] out@[j].0@ == fields@[j].0@
                                && #[trigger] json_model_of(out@[j].1) == json_model_of(
                                fields@[j].1,
                            ),
                    decreases fields@.len() - i,
                {
                    proof {
                        assert(*self == JsonValue::Obj(*fields));
                        assert(decreases_to!(*self => *fields));
                        assert(decreases_to!(*fields => fields@[i as int]));
                        assert(decreases_to!(fields@[i as int] => fields@[i as int].1));
                        assert(decreases_to!(*self => fields@[i as int].1));
                    }
                    let k = fields[i].0.clone();
                    let v = fields[i].1.clone();
                    out.push((k, v));
                    i += 1;
                }
                proof {
                    lemma_obj_models_index(out@);
                    lemma_obj_models_index(fields@);
                    assert(obj_models(out@) =~= obj_models(fields@));
                }
                JsonValue::Obj(out)
            },
        }
    }
}

/// The serialized form of one character inside a string literal:
/// quote, backslash, newline, carriage return and tab are escaped.
pub open spec fn escaped_char(c: char) -> Seq<char> {
    if c == '"' {
        seq!['\\', '"']
    } else if c == '\\' {
        seq!['\\', '\\']
    } else if c == '\n' {
        seq!['\\', 'n']
    } else if c == '\r' {
        seq!['\\', 'r']
    } else if c == '\t' {
        seq!['\\', 't']
    } else {
        seq![c]
    }
}

pub open spec fn escaped_str(s: Seq<char>) -> Seq<char>
    decreases s.len(),
{
    if s.len() == 0 {
        Seq::<char>::empty()
    } else {
        escaped_char(s[0]) + escaped_str(s.drop_first())
    }
}

pub open spec fn quoted(s: Seq<char>) -> Seq<char> {
    seq!['"'] + escaped_str(s) + seq!['"']
}

/// The serialized text of a tree: JSON with the five escapes above and
/// no added whitespace.
pub open spec fn json_text_of(m: JsonModel) -> Seq<char>
    decreases m,
{
    match m {
        JsonModel::Null => "null"@,
        JsonModel::Bool(b) => if b {
            "true"@
        } else {
            "false"@
        },
        JsonModel::Num(s) => s,
        JsonModel::Str(s) => quoted(s),
        JsonModel::Arr(items) => seq!['['] + json_list_text(items) + seq![']'],
        JsonModel::Obj(fields) => seq!['{'] + json_obj_text(fields) + seq!['}'],
    }
}

pub open spec fn json_list_text(items: Seq<JsonModel>) -> Seq<char>
    decreases items,
    via json_list_text_dec
{
    if items.len() == 0 {
        Seq::<char>::empty()
    } else if items.len() == 1 {
        json_text_of(items[0])
    } else {
        json_text_of(items[0]) + seq![','] + json_list_text(items.drop_first())
    }
}

#[via_fn]
proof fn json_list_text_dec(items: Seq<JsonModel>) {
    if items.len() > 0 {
        assert(decreases_to!(items => items[0]));
        assert(items.drop_first() == items.subrange(1, items.len() as int));
        assert(decreases_to!(items => items.subrange(1, items.len() as int)));
        assert(decreases_to!(items => items.drop_first()));
    }
}

pub open spec fn json_obj_text(fields: Seq<(Seq<char>, JsonModel)>) -> Seq<char>
    decreases fields,
    via json_obj_text_dec
{
    if fields.len() == 0 {
        Seq::<char>::empty()
    } else if fields.len() == 1 {
        quoted(fields[0].0) + seq![':'] + json_text_of(fields[0].1)
    } else {
        quoted(fields[0].0) + seq![':'] + json_text_of(fields[0].1) + seq![','] + json_obj_text(
            fields.drop_first(),
        )
    }
}

#[via_fn]
proof fn json_obj_text_dec(fields: Seq<(Seq<char>, JsonModel)>) {
    if fields.len() > 0 {
        assert(decreases_to!(fields => fields[0]));
        assert(decreases_to!(fields => fields[0].1));
        assert(fields.drop_first() == fields.subrange(1, fields.len() as int));
        assert(decreases_to!(fields => fields.subrange(1, fields.len() as int)));
        assert(decreases_to!(fields => fields.drop_first()));
    }
}

pub proof fn lemma_escaped_snoc(s: Seq<char>, c: char)
    ensures
        escaped_str(s.push(c)) == escaped_str(s) + escaped_char(c),
    decreases s.len(),
{
    if s.len() == 0 {
        assert(s.push(c).drop_first() =~= Seq::<char>::empty());
        assert(s.push(c)[0] == c);
        assert(escaped_str(s.push(c)) == escaped_char(c) + escaped_str(Seq::<char>::empty()));
        assert(escaped_str(s.push(c)) =~= escaped_str(s) + escaped_char(c));
    } else {
        lemma_escaped_snoc(s.drop_first(), c);
        assert(s.push(c).drop_first() =~= s.drop_first().push(c));
        assert(s.push(c)[0] == s[0]);
        assert(escaped_str(s.push(c)) == escaped_char(s[0]) + (escaped_str(s.drop_first())
            + escaped_char(c)));
        assert(escaped_char(s[0]) + (escaped_str(s.drop_first()) + escaped_char(c)) =~= (
        escaped_char(s[0]) + escaped_str(s.drop_first())) + escaped_char(c));
        assert(escaped_str(s.push(c)) =~= escaped_str(s) + escaped_char(c));
    }
}

pub proof fn lemma_list_text_snoc(s: Seq<JsonModel>, m: JsonModel)
    ensures
        s.len() == 0 ==> json_list_text(s.push(m)) == json_text_of(m),
        s.len() > 0 ==> json_list_text(s.push(m)) == json_list_text(s) + seq![','] + json_text_of(
            m,
        ),
    decreases s.len(),
{
    if s.len() == 0 {
        assert(s.push(m)[0] == m);
    } else {
        lemma_list_text_snoc(s.drop_first(), m);
        assert(s.push(m).drop_first() =~= s.drop_first().push(m));
        assert(s.push(m)[0] == s[0]);
        if s.len() == 1 {
            assert(json_list_text(s.push(m)) =~= json_list_text(s) + seq![','] + json_text_of(m));
        } else {
            assert(json_list_text(s.push(m)) =~= json_list_text(s) + seq![','] + json_text_of(m));
        }
    }
}

pub proof fn lemma_obj_text_snoc(s: Seq<(Seq<char>, JsonModel)>, k: Seq<char>, m: JsonModel)
    ensures
        s.len() == 0 ==> json_obj_text(s.push((k, m))) == quoted(k) + seq![':'] + json_text_of(m),
        s.len() > 0 ==> json_obj_text(s.push((k, m))) == json_obj_text(s) + seq![','] + quoted(k)
            + seq![':'] + json_text_of(m),
    decreases s.len(),
{
    if s.len() == 0 {
        assert(s.push((k, m))[0] == (k, m));
        assert(json_obj_text(s.push((k, m))) =~= quoted(k) + seq![':'] + json_text_of(m));
    } else {
        lemma_obj_text_snoc(s.drop_first(), k, m);
        assert(s.push((k, m)).drop_first() =~= s.drop_first().push((k, m)));
        assert(s.push((k, m))[0] == s[0]);
        assert(json_obj_text(s.push((k, m))) =~= json_obj_text(s) + seq![','] + quoted(k)
            + seq![':'] + json_text_of(m));
    }
}

/// Appends the escaped form of `s` to `out`.
#[verifier::loop_isolation(false)]
pub fn write_escaped(out: &mut String, s: &str)
    ensures
        final(out)@ == old(out)@ + escaped_str(s@),
{
    let cs = crate::text::str_chars(s);
    let mut i: usize = 0;
    while i < cs.len()
        invariant
            i <= cs@.len(),
            out@ == old(out)@ + escaped_str(s@.take(i as int)),
        decreases cs@.len() - i,
    {
        let c = cs[i];
        if c == '"' {
            out.push('\\');
            out.push('"');
        } else if c == '\\' {
            out.push('\\');
            out.push('\\');
        } else if c == '\n' {
            out.push('\\');
            out.push('n');
        } else if c == '\r' {
            out.push('\\');
            out.push('r');
        } else if c == '\t' {
            out.push('\\');
            out.push('t');
        } else {
            out.push(c);
        }
        proof {
            lemma_escaped_snoc(s@.take(i as int), s@[i as int]);
            assert(s@.take(i as int + 1) =~= s@.take(i as int).push(s@[i as int]));
            assert(out@ =~= old(out)@ + escaped_str(s@.take(i as int + 1)));
        }
        i += 1;
    }
    proof {
        assert(s@.take(s@.len() as int) =~= s@);
    }
}

/// Appends the quoted, escaped form of `s` to `out`.
pub fn write_quoted(out: &mut String, s: &str)
    ensures
        final(out)@ == old(out)@ + quoted(s@),
{
    out.push('"');
    write_escaped(out, s);
    out.push('"');
    proof {
        assert(final(out)@ =~= old(out)@ + quoted(s@));
    }
}

/// Serializes a tree to its JSON text.
#[verifier::loop_isolation(false)]
pub fn to_json_string(v: &JsonValue) -> (r: String)
    ensures
        r@ == json_text_of(v@),
    decreases v,
{
    match v {
        JsonValue::Null => "null".to_owned(),
        JsonValue::Bool(b) => {
            if *b {
                "true".to_owned()
            } else {
                "false".to_owned()
            }
        },
        JsonValue::Num(s) => s.clone(),
        JsonValue::Str(s) => {
            let mut out = String::new();
            write_quoted(&mut out, s.as_str());
            proof {
                assert(out@ =~= quoted(s@));
            }
            out
        },
        JsonValue::Arr(items) => {
            let ghost models = arr_models(items@);
            let mut out = String::new();
            out.push('[');
            let mut i: usize = 0;
            while i < items.len()
                invariant
                    i <= items@.len(),
                    out@ == seq!['['] + json_list_text(models.take(i as int)),
                decreases items@.len() - i,
            {
                if i > 0 {
                    out.push(',');
                }
                proof {
                    assert(*v == JsonValue::Arr(*items));
                    assert(decreases_to!(*v => *items));
                    assert(decreases_to!(*items => items@[i as int]));
                    assert(decreases_to!(*v => items@[i as int]));
                }
                let sub = to_json_string(&items[i]);
                out.append(sub.as_str());
                proof {
                    lemma_arr_models_index(items@);
                    lemma_list_text_snoc(models.take(i as int), models[i as int]);
                    assert(models.take(i as int + 1) =~= models.take(i as int).push(
                        models[i as int],
                    ));
                    assert(out@ =~= seq!['['] + json_list_text(models.take(i as int + 1)));
                }
                i += 1;
            }
            out.push(']');
            proof {
                lemma_arr_models_index(items@);
                assert(models.take(items@.len() as int) =~= models);
                assert(out@ =~= seq!['['] + json_list_text(models) + seq![']']);
            }
            out
        },
        JsonValue::Obj(fields) => {
            let ghost models = obj_models(fields@);
            let mut out = String::new();
            out.push('{');
            let mut i: usize = 0;
            while i < fields.len()
                invariant
                    i <= fields@.len(),
                    out@ == seq!['{'] + json_obj_text(models.take(i as int)),
                decreases fields@.len() - i,
            {
                if i > 0 {
                    out.push(',');
                }
                write_quoted(&mut out, fields[i].0.as_str());
                out.push(':');
                proof {
                    assert(*v == JsonValue::Obj(*fields));
                    assert(decreases_to!(*v => *fields));
                    assert(decreases_to!(*fields => fields@[i as int]));
                    assert(decreases_to!(fields@[i as int] => fields@[i as int].1));
                    assert(decreases_to!(*v => fields@[i as int].1));
                }
                let sub = to_json_string(&fields[i].1);
                out.append(sub.as_str());
                proof {
                    lemma_obj_models_index(fields@);
                    lemma_obj_text_snoc(
                        models.take(i as int),
                        models[i as int].0,
                        models[i as int].1,
                    );
                    assert(models.take(i as int).push(models[i as int]) =~= models.take(
                        i as int + 1,
                    ));
                    assert(models[i as int] == (models[i as int].0, models[i as int].1));
                    assert(out@ =~= seq!['{'] + json_obj_text(models.take(i as int + 1)));
                }
                i += 1;
            }
            out.push('}');
            proof {
                lemma_obj_models_index(fields@);
                assert(models.take(fields@.len() as int) =~= models);
                assert(out@ =~= seq!['{'] + json_obj_text(models) + seq!['}']);
            }
            out
        },
    }
}

} // verus!
