//! Request-body construction: question/context merging, the upload
//! element, the override-config merge and the inline-upsert policy.

use vstd::prelude::*;

use base64::Engine as _;

use crate::errors::ParseError;
use crate::json::{lemma_obj_models_index, obj_models, JsonModel, JsonValue};
use crate::text::{str_chars, string_of_range};

verus! {

/// What a file upload names: the encoded form of exactly these bytes,
/// as base64's standard padded alphabet produces it.
pub uninterp spec fn base64_of(bytes: Seq<u8>) -> Seq<char>;

/// Relies on base64's standard engine (padded alphabet): the encoding
/// is a function of the input bytes alone.
#[verifier::external_body]
fn base64_encode(bytes: &Vec<u8>) -> (r: String)
    ensures
        r@ == base64_of(bytes@),
{
    base64::engine::general_purpose::STANDARD.encode(bytes)
}

/// The question text sent to a backend: the request verbatim when no
/// context is given, otherwise the request and the context in that
/// order, framed by newlines.
pub open spec fn merged_question(q: Seq<char>, c: Option<Seq<char>>) -> Seq<char> {
    match c {
        None => q,
        Some(ctx) => seq!['\n'] + q + seq!['\n'] + ctx + seq!['\n'],
    }
}

pub open spec fn ctx_view(c: Option<&String>) -> Option<Seq<char>> {
    match c {
        Some(s) => Some(s@),
        None => None,
    }
}

/// Merges the request string with the optional context.
pub fn build_question(question: &str, context: Option<&String>) -> (r: String)
    ensures
        r@ == merged_question(question@, ctx_view(context)),
{
    match context {
        None => question.to_owned(),
        Some(ctx) => {
            let mut out = String::new();
            out.push('\n');
            out.append(question);
            out.push('\n');
            out.append(ctx.as_str());
            out.push('\n');
            proof {
                assert(out@ =~= seq!['\n'] + question@ + seq!['\n'] + ctx@ + seq!['\n']);
            }
            out
        },
    }
}

/// The file-name part of a path: everything after the last `/`, or the
/// whole path when it has none.
pub open spec fn basename_of(s: Seq<char>) -> Seq<char>
    decreases s.len(),
{
    if s.len() == 0 {
        Seq::<char>::empty()
    } else if s.last() == '/' {
        Seq::<char>::empty()
    } else {
        basename_of(s.drop_last()).push(s.last())
    }
}

proof fn lemma_basename_no_slash(s: Seq<char>)
    requires
        forall|j: int| 0 <= j < s.len() ==> s[j] != '/',
    ensures
        basename_of(s) == s,
    decreases s.len(),
{
    if s.len() > 0 {
        lemma_basename_no_slash(s.drop_last());
        assert(basename_of(s) =~= s);
    } else {
        assert(basename_of(s) =~= s);
    }
}

proof fn lemma_basename_after_slash(s: Seq<char>, k: int)
    requires
        0 <= k < s.len(),
        s[k] == '/',
        forall|j: int| k < j < s.len() ==> s[j] != '/',
    ensures
        basename_of(s) == s.subrange(k + 1, s.len() as int),
    decreases s.len(),
{
    if k == s.len() - 1 {
        assert(basename_of(s) =~= s.subrange(k + 1, s.len() as int));
    } else {
        lemma_basename_after_slash(s.drop_last(), k);
        assert(s.drop_last().subrange(k + 1, s.len() - 1).push(s.last()) =~= s.subrange(
            k + 1,
            s.len() as int,
        ));
    }
}

/// Extracts the file name from a path.
#[verifier::loop_isolation(false)]
pub fn basename(path: &str) -> (r: String)
    ensures
        r@ == basename_of(path@),
{
    let cs = str_chars(path);
    let mut i: usize = cs.len();
    while i > 0
        invariant
            i <= cs@.len(),
            forall|j: int| i <= j < cs@.len() ==> cs@[j] != '/',
        decreases i,
    {
        if cs[i - 1] == '/' {
            proof {
                lemma_basename_after_slash(path@, i - 1);
            }
            return string_of_range(&cs, i, cs.len());
        }
        i -= 1;
    }
    proof {
        lemma_basename_no_slash(path@);
        assert(cs@.subrange(0, cs@.len() as int) =~= path@);
    }
    string_of_range(&cs, 0, cs.len())
}

/// One file to upload: its path and its full contents.
#[derive(Debug)]
pub struct UploadFile {
    pub path: String,
    pub data: Vec<u8>,
}

impl View for UploadFile {
    type V = (Seq<char>, Seq<u8>);

    open spec fn view(&self) -> (Seq<char>, Seq<u8>) {
        (self.path@, self.data@)
    }
}

/// The upload element of a request body. Every upload is labeled with
/// the PNG MIME type, whatever the file holds: an inherited limitation
/// of the wire format, kept deliberately.
pub open spec fn upload_model(path: Seq<char>, data: Seq<u8>) -> JsonModel {
    JsonModel::Obj(
        seq![
            ("data"@, JsonModel::Str("data:image/png;base64,"@ + base64_of(data))),
            ("type"@, JsonModel::Str("file"@)),
            ("name"@, JsonModel::Str(basename_of(path))),
            ("mime"@, JsonModel::Str("image/png"@)),
        ],
    )
}

/// Builds the upload element for one file.
pub fn build_upload(path: &str, data: Vec<u8>) -> (r: JsonValue)
    ensures
        r@ == upload_model(path@, data@),
{
    let b64 = base64_encode(&data);
    let mut uri = "data:image/png;base64,".to_owned();
    uri.append(b64.as_str());
    let mut fields: Vec<(String, JsonValue)> = Vec::new();
    fields.push(("data".to_owned(), JsonValue::Str(uri)));
    fields.push(("type".to_owned(), JsonValue::Str("file".to_owned())));
    fields.push(("name".to_owned(), JsonValue::Str(basename(path))));
    fields.push(("mime".to_owned(), JsonValue::Str("image/png".to_owned())));
    proof {
        lemma_obj_models_index(fields@);
        assert(obj_models(fields@) =~= seq![
            ("data"@, JsonModel::Str("data:image/png;base64,"@ + base64_of(data@))),
            ("type"@, JsonModel::Str("file"@)),
            ("name"@, JsonModel::Str(basename_of(path@))),
            ("mime"@, JsonModel::Str("image/png"@)),
        ]);
    }
    JsonValue::Obj(fields)
}

/// The whole conversational request body.
pub open spec fn payload_model(
    q: Seq<char>,
    c: Option<Seq<char>>,
    oc: JsonModel,
    up: Option<(Seq<char>, Seq<u8>)>,
) -> JsonModel {
    match up {
        None => JsonModel::Obj(
            seq![
                ("question"@, JsonModel::Str(merged_question(q, c))),
                ("overrideConfig"@, oc),
            ],
        ),
        Some((p, d)) => JsonModel::Obj(
            seq![
                ("question"@, JsonModel::Str(merged_question(q, c))),
                ("overrideConfig"@, oc),
                ("uploads"@, JsonModel::Arr(seq![upload_model(p, d)])),
            ],
        ),
    }
}

pub open spec fn upload_view(up: Option<&UploadFile>) -> Option<(Seq<char>, Seq<u8>)> {
    match up {
        Some(u) => Some(u@),
        None => None,
    }
}

/// Builds the conversational request body: the merged question, the
/// caller's (already resolved) override tree under `overrideConfig`,
/// and, when a file is given, a single-element upload list.
pub fn build_payload(
    question: &str,
    context: Option<&String>,
    override_config: JsonValue,
    upload: Option<&UploadFile>,
) -> (r: JsonValue)
    ensures
        r@ == payload_model(question@, ctx_view(context), override_config@, upload_view(upload)),
{
    let ghost ocm = override_config@;
    let q = build_question(question, context);
    let mut fields: Vec<(String, JsonValue)> = Vec::new();
    fields.push(("question".to_owned(), JsonValue::Str(q)));
    fields.push(("overrideConfig".to_owned(), override_config));
    match upload {
        None => {
            proof {
                lemma_obj_models_index(fields@);
                assert(obj_models(fields@) =~= seq![
                    ("question"@, JsonModel::Str(merged_question(question@, ctx_view(context)))),
                    ("overrideConfig"@, ocm),
                ]);
            }
            JsonValue::Obj(fields)
        },
        Some(u) => {
            let elem = build_upload(u.path.as_str(), u.data.clone());
            let mut uploads: Vec<JsonValue> = Vec::new();
            uploads.push(elem);
            proof {
                crate::json::lemma_arr_models_index(uploads@);
                assert(crate::json::arr_models(uploads@) =~= seq![upload_model(u.path@, u.data@)]);
            }
            fields.push(("uploads".to_owned(), JsonValue::Arr(uploads)));
            proof {
                lemma_obj_models_index(fields@);
                assert(obj_models(fields@) =~= seq![
                    ("question"@, JsonModel::Str(merged_question(question@, ctx_view(context)))),
                    ("overrideConfig"@, ocm),
                    ("uploads"@, JsonModel::Arr(seq![upload_model(u.path@, u.data@)])),
                ]);
            }
            JsonValue::Obj(fields)
        },
    }
}

/// Replaces the first field of the given key, or appends the pair when
/// the key is absent.
pub open spec fn upsert_field(
    fields: Seq<(Seq<char>, JsonModel)>,
    k: Seq<char>,
    v: JsonModel,
) -> Seq<(Seq<char>, JsonModel)>
    decreases fields.len(),
{
    if fields.len() == 0 {
        seq![(k, v)]
    } else if fields[0].0 == k {
        seq![(k, v)] + fields.drop_first()
    } else {
        seq![fields[0]] + upsert_field(fields.drop_first(), k, v)
    }
}

/// The shallow merge: every key of `inline` overwrites or extends
/// `base`, at the top level only.
pub open spec fn merge_fields(
    base: Seq<(Seq<char>, JsonModel)>,
    inline: Seq<(Seq<char>, JsonModel)>,
) -> Seq<(Seq<char>, JsonModel)>
    decreases inline.len(),
{
    if inline.len() == 0 {
        base
    } else {
        merge_fields(upsert_field(base, inline[0].0, inline[0].1), inline.drop_first())
    }
}

/// The override tree after an inline upsert: a shallow merge when both
/// trees are objects, the base tree unchanged otherwise.
pub open spec fn merged_override_model(base: JsonModel, inline: JsonModel) -> JsonModel {
    match (base, inline) {
        (JsonModel::Obj(bf), JsonModel::Obj(inf)) => JsonModel::Obj(merge_fields(bf, inf)),
        _ => base,
    }
}

/// Replaces the first field named `k` or appends `(k, v)`.
#[verifier::loop_isolation(false)]
fn upsert_exec(fields: &mut Vec<(String, JsonValue)>, k: String, v: JsonValue)
    ensures
        obj_models(final(fields)@) == upsert_field(obj_models(old(fields)@), k@, v@),
{
    let ghost orig = obj_models(old(fields)@);
    let mut i: usize = 0;
    proof {
        lemma_obj_models_index(fields@);
        assert(orig.skip(0) =~= orig);
        assert(orig.take(0) + upsert_field(orig, k@, v@) =~= upsert_field(orig, k@, v@));
    }
    while i < fields.len()
        invariant
            i <= fields@.len(),
            fields@ == old(fields)@,
            upsert_field(orig, k@, v@) == orig.take(i as int) + upsert_field(
                orig.skip(i as int),
                k@,
                v@,
            ),
        decreases fields@.len() - i,
    {
        proof {
            let rest = orig.skip(i as int);
            assert(rest[0] == orig[i as int]);
            assert(rest.drop_first() =~= orig.skip(i as int + 1));
        }
        if crate::text::str_eq(fields[i].0.as_str(), k.as_str()) {
            let ghost pre = fields@;
            fields.set(i, (k, v));
            proof {
                lemma_obj_models_index(pre);
                lemma_obj_models_index(fields@);
                assert(orig.skip(i as int)[0].0 == k@);
                assert(upsert_field(orig.skip(i as int), k@, v@) =~= seq![(k@, v@)] + orig.skip(
                    i as int + 1,
                ));
                assert(obj_models(fields@) =~= orig.take(i as int) + (seq![(k@, v@)] + orig.skip(
                    i as int + 1,
                )));
            }
            return ;
        }
        proof {
            assert(orig.take(i as int).push(orig[i as int]) =~= orig.take(i as int + 1));
            assert(orig.take(i as int) + upsert_field(orig.skip(i as int), k@, v@) =~= orig.take(
                i as int + 1,
            ) + upsert_field(orig.skip(i as int + 1), k@, v@));
        }
        i += 1;
    }
    let ghost pre = fields@;
    fields.push((k, v));
    proof {
        lemma_obj_models_index(pre);
        lemma_obj_models_index(fields@);
        assert(orig.skip(orig.len() as int) =~= Seq::<(Seq<char>, JsonModel)>::empty());
        assert(upsert_field(orig.skip(orig.len() as int), k@, v@) =~= seq![(k@, v@)]);
        assert(orig.take(orig.len() as int) =~= orig);
        assert(obj_models(fields@) =~= orig + seq![(k@, v@)]);
        assert(orig + seq![(k@, v@)] =~= orig.take(orig.len() as int) + upsert_field(
            orig.skip(orig.len() as int),
            k@,
            v@,
        ));
    }
}

/// Shallow-merges `inline` into `base` when both are objects: inline
/// keys overwrite existing top-level keys, new keys are appended in
/// order. Any other combination leaves `base` unchanged.
#[verifier::loop_isolation(false)]
pub fn merge_override(base: JsonValue, inline: JsonValue) -> (r: JsonValue)
    ensures
        r@ == merged_override_model(base@, inline@),
{
    match (base, inline) {
        (JsonValue::Obj(bf), JsonValue::Obj(inf)) => {
            let ghost base_m = obj_models(bf@);
            let ghost inline_m = obj_models(inf@);
            let mut acc = bf;
            let ghost orig_inf = inf@;
            let mut inf = inf;
            proof {
                lemma_obj_models_index(orig_inf);
                assert(inline_m.skip(0) =~= inline_m);
            }
            while inf.len() > 0
                invariant
                    obj_models(inf@) == inline_m.skip(inline_m.len() - inf@.len()),
                    inf@.len() <= orig_inf.len(),
                    orig_inf.len() == inline_m.len(),
                    merge_fields(base_m, inline_m) == merge_fields(
                        obj_models(acc@),
                        inline_m.skip(inline_m.len() - inf@.len()),
                    ),
                decreases inf@.len(),
            {
                let ghost k = inline_m.len() - inf@.len();
                let ghost pre_inf = inf@;
                let x = inf.remove(0);
                proof {
                    lemma_obj_models_index(pre_inf);
                    lemma_obj_models_index(inf@);
                    assert(inf@ =~= pre_inf.subrange(1, pre_inf.len() as int));
                    assert(forall|j: int| 0 <= j < inf@.len() ==> inf@[j] == pre_inf[j + 1]);
                    assert(forall|j: int|
                        0 <= j < inf@.len() ==> obj_models(inf@)[j] == obj_models(pre_inf)[j + 1]);
                    assert(obj_models(inf@) =~= inline_m.skip(k + 1));
                    let rest = inline_m.skip(k);
                    assert(rest[0] == inline_m[k]);
                    assert(rest[0] == (x.0@, crate::json::json_model_of(x.1)));
                    assert(rest.drop_first() =~= inline_m.skip(k + 1));
                }
                upsert_exec(&mut acc, x.0, x.1);
            }
            proof {
                assert(inline_m.skip(inline_m.len() as int) =~= Seq::<(
                    Seq<char>,
                    JsonModel,
                )>::empty());
            }
            JsonValue::Obj(acc)
        },
        (b, _) => b,
    }
}

/// The declared policy for malformed inline upsert JSON: the caller
/// parses the inline text and hands in `None` when it was malformed;
/// this function then either substitutes an empty object (the inherited
/// silent-data-loss behaviour) or refuses the request.
#[derive(Clone, Copy, PartialEq, Eq, Structural)]
pub enum InlinePolicy {
    SubstituteEmpty,
    Abort,
}

pub fn inline_upsert_config(parsed: Option<JsonValue>, policy: InlinePolicy) -> (r: Result<
    JsonValue,
    ParseError,
>)
    ensures
        parsed matches Some(v) ==> (r matches Ok(c) && c@ == v@),
        parsed is None && policy == InlinePolicy::SubstituteEmpty ==> (r matches Ok(c) && c@
            == JsonModel::Obj(Seq::<(Seq<char>, JsonModel)>::empty())),
        parsed is None && policy == InlinePolicy::Abort ==> r == Err::<JsonValue, ParseError>(
            ParseError::InvalidInlineJson,
        ),
{
    match parsed {
        Some(v) => Ok(v),
        None => match policy {
            InlinePolicy::SubstituteEmpty => {
                let empty: Vec<(String, JsonValue)> = Vec::new();
                proof {
                    assert(obj_models(empty@) =~= Seq::<(Seq<char>, JsonModel)>::empty());
                }
                Ok(JsonValue::Obj(empty))
            },
            InlinePolicy::Abort => Err(ParseError::InvalidInlineJson),
        },
    }
}

/// Replaces the value of the first field named `k` when the key is
/// present; an absent key leaves the object unchanged.
pub open spec fn set_if_present(
    fields: Seq<(Seq<char>, JsonModel)>,
    k: Seq<char>,
    v: JsonModel,
) -> Seq<(Seq<char>, JsonModel)>
    decreases fields.len(),
{
    if fields.len() == 0 {
        fields
    } else if fields[0].0 == k {
        seq![(k, v)] + fields.drop_first()
    } else {
        seq![fields[0]] + set_if_present(fields.drop_first(), k, v)
    }
}

#[verifier::loop_isolation(false)]
fn set_if_present_exec(fields: &mut Vec<(String, JsonValue)>, k: &str, v: &String)
    ensures
        obj_models(final(fields)@) == set_if_present(
            obj_models(old(fields)@),
            k@,
            JsonModel::Str(v@),
        ),
{
    let ghost orig = obj_models(old(fields)@);
    let ghost vm = JsonModel::Str(v@);
    let mut i: usize = 0;
    proof {
        lemma_obj_models_index(fields@);
        assert(orig.skip(0) =~= orig);
        assert(orig.take(0) + set_if_present(orig, k@, vm) =~= set_if_present(orig, k@, vm));
    }
    while i < fields.len()
        invariant
            i <= fields@.len(),
            fields@ == old(fields)@,
            set_if_present(orig, k@, vm) == orig.take(i as int) + set_if_present(
                orig.skip(i as int),
                k@,
                vm,
            ),
        decreases fields@.len() - i,
    {
        proof {
            let rest = orig.skip(i as int);
            assert(rest[0] == orig[i as int]);
            assert(rest.drop_first() =~= orig.skip(i as int + 1));
        }
        if crate::text::str_eq(fields[i].0.as_str(), k) {
            let ghost pre = fields@;
            fields.set(i, (k.to_owned(), JsonValue::Str(v.clone())));
            proof {
                lemma_obj_models_index(pre);
                lemma_obj_models_index(fields@);
                assert(set_if_present(orig.skip(i as int), k@, vm) =~= seq![(k@, vm)] + orig.skip(
                    i as int + 1,
                ));
                assert(obj_models(fields@) =~= orig.take(i as int) + (seq![(k@, vm)] + orig.skip(
                    i as int + 1,
                )));
            }
            return ;
        }
        proof {
            assert(orig.take(i as int).push(orig[i as int]) =~= orig.take(i as int + 1));
            assert(orig.take(i as int) + set_if_present(orig.skip(i as int), k@, vm) =~= orig.take(
                i as int + 1,
            ) + set_if_present(orig.skip(i as int + 1), k@, vm));
        }
        i += 1;
    }
    proof {
        assert(orig.skip(orig.len() as int) =~= Seq::<(Seq<char>, JsonModel)>::empty());
        assert(orig.take(orig.len() as int) =~= orig);
        assert(orig.take(orig.len() as int) + set_if_present(orig.skip(orig.len() as int), k@, vm)
            =~= orig);
    }
}

/// The override tree after a system-prompt override: where the tree is
/// an object, the values of its `systemMessage` and `systemMessagePrompt`
/// keys are replaced when present; keys are never added.
pub open spec fn override_system_model(m: JsonModel, v: Seq<char>) -> JsonModel {
    match m {
        JsonModel::Obj(fs) => JsonModel::Obj(
            set_if_present(
                set_if_present(fs, "systemMessage"@, JsonModel::Str(v)),
                "systemMessagePrompt"@,
                JsonModel::Str(v),
            ),
        ),
        other => other,
    }
}

/// Applies a system-prompt override to a flow's override tree.
pub fn apply_system_override(oc: JsonValue, value: &String) -> (r: JsonValue)
    ensures
        r@ == override_system_model(oc@, value@),
{
    match oc {
        JsonValue::Obj(fields) => {
            let mut fields = fields;
            set_if_present_exec(&mut fields, "systemMessage", value);
            set_if_present_exec(&mut fields, "systemMessagePrompt", value);
            JsonValue::Obj(fields)
        },
        other => other,
    }
}

/// The request context from its two sources: the caller-supplied text
/// and the contents of the additional-context file, framed by newlines
/// when both are present.
pub open spec fn combined_context(cli: Option<Seq<char>>, file: Option<Seq<char>>) -> Option<
    Seq<char>,
> {
    match (cli, file) {
        (Some(c), Some(f)) => Some(seq!['\n'] + c + seq!['\n'] + f + seq!['\n']),
        (None, Some(f)) => Some(f),
        (Some(c), None) => Some(c),
        (None, None) => None,
    }
}

pub open spec fn opt_string_view(v: Option<String>) -> Option<Seq<char>> {
    match v {
        Some(s) => Some(s@),
        None => None,
    }
}

/// Combines the two context sources into the final request context.
pub fn combine_context(cli: Option<String>, file: Option<String>) -> (r: Option<String>)
    ensures
        opt_string_view(r) == combined_context(opt_string_view(cli), opt_string_view(file)),
{
    match (cli, file) {
        (Some(c), Some(f)) => {
            let mut out = String::new();
            out.push('\n');
            out.append(c.as_str());
            out.push('\n');
            out.append(f.as_str());
            out.push('\n');
            proof {
                assert(out@ =~= seq!['\n'] + c@ + seq!['\n'] + f@ + seq!['\n']);
            }
            Some(out)
        },
        (None, Some(f)) => Some(f),
        (Some(c), None) => Some(c),
        (None, None) => None,
    }
}

} // verus!
