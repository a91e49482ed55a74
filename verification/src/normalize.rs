//! Response normalization: parsing the engine-specific response tree
//! into one record, extracting fenced code blocks, and choosing what to
//! print on which stream.

use vstd::prelude::*;

use crate::config::Engine;
use crate::errors::ParseError;
use crate::json::{
    json_text_of, lemma_obj_models_index, obj_models, to_json_string, JsonModel, JsonValue,
};
use crate::text::{str_chars, string_of_range};

verus! {

/// The first field of the given key, if any.
pub open spec fn obj_lookup(fields: Seq<(Seq<char>, JsonModel)>, k: Seq<char>) -> Option<JsonModel>
    decreases fields.len(),
{
    if fields.len() == 0 {
        None
    } else if fields[0].0 == k {
        Some(fields[0].1)
    } else {
        obj_lookup(fields.drop_first(), k)
    }
}

/// The first field of the given key when it is a string; a missing
/// field and a field of another shape are both nothing.
pub open spec fn str_field(fields: Seq<(Seq<char>, JsonModel)>, k: Seq<char>) -> Option<Seq<char>> {
    match obj_lookup(fields, k) {
        Some(JsonModel::Str(s)) => Some(s),
        _ => None,
    }
}

/// Finds the first field of the given key.
#[verifier::loop_isolation(false)]
pub fn obj_get<'a>(fields: &'a Vec<(String, JsonValue)>, key: &str) -> (r: Option<&'a JsonValue>)
    ensures
        match r {
            Some(v) => obj_lookup(obj_models(fields@), key@) == Some(v@),
            None => obj_lookup(obj_models(fields@), key@) is None,
        },
{
    let ghost models = obj_models(fields@);
    let mut i: usize = 0;
    proof {
        lemma_obj_models_index(fields@);
        assert(models.skip(0) =~= models);
    }
    while i < fields.len()
        invariant
            i <= fields@.len(),
            obj_lookup(models, key@) == obj_lookup(models.skip(i as int), key@),
        decreases fields@.len() - i,
    {
        proof {
            let rest = models.skip(i as int);
            assert(rest[0] == models[i as int]);
            assert(rest.drop_first() =~= models.skip(i as int + 1));
        }
        if crate::text::str_eq(fields[i].0.as_str(), key) {
            return Some(&fields[i].1);
        }
        i += 1;
    }
    proof {
        assert(models.skip(models.len() as int) =~= Seq::<(Seq<char>, JsonModel)>::empty());
    }
    None
}

/// Finds the first string field of the given key, as an owned copy.
pub fn get_str_field(fields: &Vec<(String, JsonValue)>, key: &str) -> (r: Option<String>)
    ensures
        match r {
            Some(s) => str_field(obj_models(fields@), key@) == Some(s@),
            None => str_field(obj_models(fields@), key@) is None,
        },
{
    match obj_get(fields, key) {
        Some(JsonValue::Str(s)) => Some(s.clone()),
        _ => None,
    }
}

/// A word character of a fence's info tag.
pub open spec fn is_word_char(c: char) -> bool {
    ('a' <= c && c <= 'z') || ('A' <= c && c <= 'Z') || ('0' <= c && c <= '9') || c == '_'
}

/// ASCII whitespace, as trimming removes it.
pub open spec fn is_space_char(c: char) -> bool {
    c == ' ' || c == '\t' || c == '\n' || c == '\r'
}

/// The first index at or after `j` whose character is not a word
/// character (or the end of the text).
pub open spec fn word_run_end(s: Seq<char>, j: int) -> int
    decreases s.len() - j
        when 0 <= j <= s.len()
{
    if j < s.len() && is_word_char(s[j]) {
        word_run_end(s, j + 1)
    } else {
        j
    }
}

proof fn lemma_word_run_end_bounds(s: Seq<char>, j: int)
    requires
        0 <= j <= s.len(),
    ensures
        j <= word_run_end(s, j) <= s.len(),
    decreases s.len() - j,
{
    if j < s.len() && is_word_char(s[j]) {
        lemma_word_run_end_bounds(s, j + 1);
    }
}

/// A fence opens at `p`: three backticks, an optional word-character
/// info tag, then a newline.
pub open spec fn fence_open_at(s: Seq<char>, p: int) -> bool {
    &&& 0 <= p
    &&& p + 3 <= s.len()
    &&& s[p] == '`' && s[p + 1] == '`' && s[p + 2] == '`'
    &&& word_run_end(s, p + 3) < s.len()
    &&& s[word_run_end(s, p + 3)] == '\n'
}

/// A fence closes at `q`: a newline followed by three backticks.
pub open spec fn close_at(s: Seq<char>, q: int) -> bool {
    &&& 0 <= q
    &&& q + 4 <= s.len()
    &&& s[q] == '\n' && s[q + 1] == '`' && s[q + 2] == '`' && s[q + 3] == '`'
}

/// The least opening fence at or after `i`.
pub open spec fn first_open(s: Seq<char>, i: int) -> Option<int>
    decreases s.len() - i
        when 0 <= i <= s.len()
{
    if i >= s.len() {
        None
    } else if fence_open_at(s, i) {
        Some(i)
    } else {
        first_open(s, i + 1)
    }
}

proof fn lemma_first_open_props(s: Seq<char>, i: int)
    requires
        0 <= i <= s.len(),
    ensures
        first_open(s, i) matches Some(p) ==> i <= p < s.len() && fence_open_at(s, p),
    decreases s.len() - i,
{
    if i < s.len() && !fence_open_at(s, i) {
        lemma_first_open_props(s, i + 1);
    }
}

/// The least closing fence at or after `q`.
pub open spec fn first_close(s: Seq<char>, q: int) -> Option<int>
    decreases s.len() - q
        when 0 <= q <= s.len()
{
    if q >= s.len() {
        None
    } else if close_at(s, q) {
        Some(q)
    } else {
        first_close(s, q + 1)
    }
}

proof fn lemma_first_close_props(s: Seq<char>, q: int)
    requires
        0 <= q <= s.len(),
    ensures
        first_close(s, q) matches Some(c) ==> q <= c && close_at(s, c),
    decreases s.len() - q,
{
    if q < s.len() && !close_at(s, q) {
        lemma_first_close_props(s, q + 1);
    }
}

/// A text with its leading and trailing whitespace removed.
pub open spec fn trimmed(s: Seq<char>) -> Seq<char>
    decreases s.len(),
{
    if s.len() == 0 {
        s
    } else if is_space_char(s[0]) {
        trimmed(s.drop_first())
    } else if is_space_char(s.last()) {
        trimmed(s.drop_last())
    } else {
        s
    }
}

/// The fenced code blocks of the text from position `i` on, in source
/// order, each trimmed: an opening fence is sought first, then the
/// nearest closing fence after it; the text between them is one block,
/// and the search resumes after the closing fence.
pub open spec fn blocks_from(s: Seq<char>, i: int) -> Seq<Seq<char>>
    decreases s.len() - i
        when 0 <= i <= s.len()
    via blocks_from_dec
{
    match first_open(s, i) {
        None => Seq::<Seq<char>>::empty(),
        Some(p) => {
            let cstart = word_run_end(s, p + 3) + 1;
            match first_close(s, cstart) {
                None => Seq::<Seq<char>>::empty(),
                Some(q) => seq![trimmed(s.subrange(cstart, q))] + blocks_from(s, q + 4),
            }
        },
    }
}

#[via_fn]
proof fn blocks_from_dec(s: Seq<char>, i: int) {
    lemma_first_open_props(s, i);
    match first_open(s, i) {
        Some(p) => {
            lemma_word_run_end_bounds(s, p + 3);
            let cstart = word_run_end(s, p + 3) + 1;
            lemma_first_close_props(s, cstart);
        },
        None => {},
    }
}

/// All fenced code blocks of a text.
pub open spec fn blocks_of(s: Seq<char>) -> Seq<Seq<char>> {
    blocks_from(s, 0)
}

pub open spec fn string_views(v: Seq<String>) -> Seq<Seq<char>> {
    Seq::new(v.len(), |i: int| v[i]@)
}

fn word_char(c: char) -> (r: bool)
    ensures
        r == is_word_char(c),
{
    ('a' <= c && c <= 'z') || ('A' <= c && c <= 'Z') || ('0' <= c && c <= '9') || c == '_'
}

fn space_char(c: char) -> (r: bool)
    ensures
        r == is_space_char(c),
{
    c == ' ' || c == '\t' || c == '\n' || c == '\r'
}

#[verifier::loop_isolation(false)]
fn word_end(cs: &Vec<char>, j: usize) -> (r: usize)
    requires
        j <= cs@.len(),
    ensures
        r == word_run_end(cs@, j as int),
        j <= r <= cs@.len(),
{
    let mut k = j;
    loop
        invariant
            j <= k <= cs@.len(),
            word_run_end(cs@, j as int) == word_run_end(cs@, k as int),
        decreases cs@.len() - k,
    {
        if k < cs.len() {
            if word_char(cs[k]) {
                k += 1;
            } else {
                return k;
            }
        } else {
            return k;
        }
    }
}

fn open_at(cs: &Vec<char>, p: usize) -> (r: bool)
    requires
        p <= cs@.len(),
    ensures
        r == fence_open_at(cs@, p as int),
{
    if cs.len() < 3 || p > cs.len() - 3 {
        return false;
    }
    if !(cs[p] == '`' && cs[p + 1] == '`' && cs[p + 2] == '`') {
        return false;
    }
    let e = word_end(cs, p + 3);
    e < cs.len() && cs[e] == '\n'
}

fn close_at_exec(cs: &Vec<char>, q: usize) -> (r: bool)
    requires
        q <= cs@.len(),
    ensures
        r == close_at(cs@, q as int),
{
    if cs.len() < 4 || q > cs.len() - 4 {
        return false;
    }
    cs[q] == '\n' && cs[q + 1] == '`' && cs[q + 2] == '`' && cs[q + 3] == '`'
}

#[verifier::loop_isolation(false)]
fn find_open(cs: &Vec<char>, i: usize) -> (r: Option<usize>)
    requires
        i <= cs@.len(),
    ensures
        match r {
            Some(p) => first_open(cs@, i as int) == Some(p as int) && i <= p < cs@.len(),
            None => first_open(cs@, i as int) is None,
        },
{
    let mut k = i;
    loop
        invariant
            i <= k <= cs@.len(),
            first_open(cs@, i as int) == first_open(cs@, k as int),
        decreases cs@.len() - k,
    {
        if k >= cs.len() {
            return None;
        }
        if open_at(cs, k) {
            return Some(k);
        }
        k += 1;
    }
}

#[verifier::loop_isolation(false)]
fn find_close(cs: &Vec<char>, q: usize) -> (r: Option<usize>)
    requires
        q <= cs@.len(),
    ensures
        match r {
            Some(c) => first_close(cs@, q as int) == Some(c as int) && q <= c && c + 4 <= cs@.len(),
            None => first_close(cs@, q as int) is None,
        },
{
    let mut k = q;
    loop
        invariant
            q <= k <= cs@.len(),
            first_close(cs@, q as int) == first_close(cs@, k as int),
        decreases cs@.len() - k,
    {
        if k >= cs.len() {
            return None;
        }
        if close_at_exec(cs, k) {
            return Some(k);
        }
        k += 1;
    }
}

/// Narrows `[a, b)` to the trimmed span of its text.
fn trim_span(cs: &Vec<char>, a: usize, b: usize) -> (r: (usize, usize))
    requires
        a <= b <= cs@.len(),
    ensures
        a <= r.0 <= r.1 <= b,
        cs@.subrange(r.0 as int, r.1 as int) == trimmed(cs@.subrange(a as int, b as int)),
    decreases b - a,
{
    if a == b {
        proof {
            assert(cs@.subrange(a as int, a as int) =~= trimmed(
                cs@.subrange(a as int, b as int),
            ));
        }
        (a, a)
    } else if space_char(cs[a]) {
        proof {
            assert(cs@.subrange(a as int, b as int).drop_first() =~= cs@.subrange(
                a as int + 1,
                b as int,
            ));
        }
        trim_span(cs, a + 1, b)
    } else if space_char(cs[b - 1]) {
        proof {
            assert(cs@.subrange(a as int, b as int).drop_last() =~= cs@.subrange(
                a as int,
                b as int - 1,
            ));
        }
        trim_span(cs, a, b - 1)
    } else {
        (a, b)
    }
}

/// Extracts every fenced code block, trimmed, in source order.
#[verifier::loop_isolation(false)]
pub fn extract_code_blocks(text: &str) -> (r: Vec<String>)
    ensures
        string_views(r@) == blocks_of(text@),
{
    let cs = str_chars(text);
    let mut out: Vec<String> = Vec::new();
    let mut i: usize = 0;
    proof {
        assert(string_views(out@) + blocks_from(text@, 0) =~= blocks_of(text@));
    }
    loop
        invariant
            i <= cs@.len(),
            blocks_of(text@) == string_views(out@) + blocks_from(text@, i as int),
        decreases cs@.len() - i,
    {
        match find_open(&cs, i) {
            None => {
                proof {
                    assert(blocks_of(text@) =~= string_views(out@));
                }
                return out;
            },
            Some(p) => {
                proof {
                    lemma_first_open_props(text@, i as int);
                    lemma_word_run_end_bounds(text@, p as int + 3);
                }
                let e = word_end(&cs, p + 3);
                let cstart = e + 1;
                match find_close(&cs, cstart) {
                    None => {
                        proof {
                            assert(blocks_from(text@, i as int) =~= Seq::<Seq<char>>::empty());
                            assert(blocks_of(text@) =~= string_views(out@));
                        }
                        return out;
                    },
                    Some(q) => {
                        let (a, b) = trim_span(&cs, cstart, q);
                        let block = string_of_range(&cs, a, b);
                        let ghost prev = out@;
                        out.push(block);
                        proof {
                            assert(string_views(out@) =~= string_views(prev).push(
                                trimmed(text@.subrange(cstart as int, q as int)),
                            ));
                            assert(blocks_from(text@, i as int) == seq![
                                trimmed(text@.subrange(cstart as int, q as int)),
                            ] + blocks_from(text@, q as int + 4));
                            assert(string_views(prev) + blocks_from(text@, i as int)
                                =~= string_views(out@) + blocks_from(text@, q as int + 4));
                        }
                        i = q + 4;
                    },
                }
            },
        }
    }
}

/// Mathematical model of a normalized response record.
pub ghost struct NormalizedModel {
    pub response_text: Seq<char>,
    pub question: Seq<char>,
    pub chat_id: Seq<char>,
    pub session_id: Seq<char>,
    pub memory_type: Option<Seq<char>>,
    pub code_blocks: Option<Seq<Seq<char>>>,
}

/// One normalized response, whatever the engine's schema was.
#[derive(Debug)]
pub struct NormalizedResponse {
    pub response_text: String,
    pub question: String,
    pub chat_id: String,
    pub session_id: String,
    pub memory_type: Option<String>,
    pub code_blocks: Option<Vec<String>>,
}

impl View for NormalizedResponse {
    type V = NormalizedModel;

    open spec fn view(&self) -> NormalizedModel {
        NormalizedModel {
            response_text: self.response_text@,
            question: self.question@,
            chat_id: self.chat_id@,
            session_id: self.session_id@,
            memory_type: match self.memory_type {
                Some(m) => Some(m@),
                None => None,
            },
            code_blocks: match self.code_blocks {
                Some(bs) => Some(string_views(bs@)),
                None => None,
            },
        }
    }
}

/// The record a flowise (or webhook) response yields: the top-level
/// object must carry string fields `text`, `question`, `chatId`,
/// `chatMessageId` and `sessionId`; `memoryType` is optional.
pub open spec fn normalize_flowise(m: JsonModel) -> Option<NormalizedModel> {
    match m {
        JsonModel::Obj(fs) => {
            if str_field(fs, "text"@) is Some && str_field(fs, "question"@) is Some && str_field(
                fs,
                "chatId"@,
            ) is Some && str_field(fs, "chatMessageId"@) is Some && str_field(
                fs,
                "sessionId"@,
            ) is Some {
                Some(
                    NormalizedModel {
                        response_text: str_field(fs, "text"@).unwrap(),
                        question: str_field(fs, "question"@).unwrap(),
                        chat_id: str_field(fs, "chatId"@).unwrap(),
                        session_id: str_field(fs, "sessionId"@).unwrap(),
                        memory_type: str_field(fs, "memoryType"@),
                        code_blocks: None,
                    },
                )
            } else {
                None
            }
        },
        _ => None,
    }
}

/// The record a langflow response yields: the text sits on a `text`
/// string field inside a top-level `result` object, beside a top-level
/// `session_id` string; the schema carries no question or chat id, so
/// those fields are empty.
pub open spec fn normalize_langflow(m: JsonModel) -> Option<NormalizedModel> {
    match m {
        JsonModel::Obj(fs) => match obj_lookup(fs, "result"@) {
            Some(JsonModel::Obj(rf)) => {
                if str_field(rf, "text"@) is Some && str_field(fs, "session_id"@) is Some {
                    Some(
                        NormalizedModel {
                            response_text: str_field(rf, "text"@).unwrap(),
                            question: Seq::<char>::empty(),
                            chat_id: Seq::<char>::empty(),
                            session_id: str_field(fs, "session_id"@).unwrap(),
                            memory_type: None,
                            code_blocks: None,
                        },
                    )
                } else {
                    None
                }
            },
            _ => None,
        },
        _ => None,
    }
}

pub open spec fn engine_normalize(e: Engine, m: JsonModel) -> Option<NormalizedModel> {
    match e {
        Engine::Flowise => normalize_flowise(m),
        Engine::Webhook => normalize_flowise(m),
        Engine::Langflow => normalize_langflow(m),
    }
}

/// The output modes, mutually exclusive; the caller picks exactly one.
#[derive(Clone, Copy, PartialEq, Eq, Structural, Debug)]
pub enum OutputMode {
    Full,
    ParseCode,
    Markdown,
    Default,
}

/// The record of a response tree under a mode: the engine's schema is
/// read, and the code blocks are populated exactly in parse-code mode.
pub open spec fn normalize_spec(e: Engine, m: JsonModel, mode: OutputMode) -> Option<
    NormalizedModel,
> {
    match engine_normalize(e, m) {
        None => None,
        Some(n) => Some(
            NormalizedModel {
                response_text: n.response_text,
                question: n.question,
                chat_id: n.chat_id,
                session_id: n.session_id,
                memory_type: n.memory_type,
                code_blocks: if mode == OutputMode::ParseCode {
                    Some(blocks_of(n.response_text))
                } else {
                    None
                },
            },
        ),
    }
}

/// Normalizes one response tree for the given engine, or refuses it as
/// a schema mismatch; in parse-code mode the record carries the fenced
/// code blocks of the response text.
pub fn normalize(engine: Engine, v: &JsonValue, mode: OutputMode) -> (r: Result<
    NormalizedResponse,
    ParseError,
>)
    ensures
        match r {
            Ok(n) => normalize_spec(engine, v@, mode) == Some(n@),
            Err(e) => normalize_spec(engine, v@, mode) is None && e == ParseError::SchemaMismatch,
        },
{
    let base: Option<NormalizedResponse> = match engine {
        Engine::Flowise | Engine::Webhook => match v {
            JsonValue::Obj(fs) => {
                let text = get_str_field(fs, "text");
                let question = get_str_field(fs, "question");
                let chat_id = get_str_field(fs, "chatId");
                let chat_message_id = get_str_field(fs, "chatMessageId");
                let session_id = get_str_field(fs, "sessionId");
                match (text, question, chat_id, chat_message_id, session_id) {
                    (Some(t), Some(q), Some(c), Some(_), Some(s)) => Some(
                        NormalizedResponse {
                            response_text: t,
                            question: q,
                            chat_id: c,
                            session_id: s,
                            memory_type: get_str_field(fs, "memoryType"),
                            code_blocks: None,
                        },
                    ),
                    _ => None,
                }
            },
            _ => None,
        },
        Engine::Langflow => match v {
            JsonValue::Obj(fs) => match obj_get(fs, "result") {
                Some(JsonValue::Obj(rf)) => {
                    let text = get_str_field(rf, "text");
                    let session_id = get_str_field(fs, "session_id");
                    match (text, session_id) {
                        (Some(t), Some(s)) => Some(
                            NormalizedResponse {
                                response_text: t,
                                question: String::new(),
                                chat_id: String::new(),
                                session_id: s,
                                memory_type: None,
                                code_blocks: None,
                            },
                        ),
                        _ => None,
                    }
                },
                _ => None,
            },
            _ => None,
        },
    };
    match base {
        None => Err(ParseError::SchemaMismatch),
        Some(mut n) => {
            if mode == OutputMode::ParseCode {
                let blocks = extract_code_blocks(n.response_text.as_str());
                n.code_blocks = Some(blocks);
            }
            Ok(n)
        },
    }
}

/// Which stream a rendering goes to.
#[derive(Clone, Copy, PartialEq, Eq, Structural, Debug)]
pub enum OutStream {
    Stdout,
    Stderr,
}

/// What one invocation prints: a single text on a single stream.
#[derive(Debug)]
pub struct Rendered {
    pub stream: OutStream,
    pub text: String,
}

/// The serialized record of full-output mode.
pub open spec fn record_json_model(n: NormalizedModel) -> JsonModel {
    JsonModel::Obj(
        seq![
            ("text"@, JsonModel::Str(n.response_text)),
            ("question"@, JsonModel::Str(n.question)),
            ("chatId"@, JsonModel::Str(n.chat_id)),
            ("sessionId"@, JsonModel::Str(n.session_id)),
            (
                "memoryType"@,
                match n.memory_type {
                    Some(m) => JsonModel::Str(m),
                    None => JsonModel::Null,
                },
            ),
        ],
    )
}

/// Code blocks joined as lines: each block followed by one newline.
pub open spec fn lines_text(bs: Seq<Seq<char>>) -> Seq<char>
    decreases bs.len(),
{
    if bs.len() == 0 {
        Seq::<char>::empty()
    } else {
        bs[0] + seq!['\n'] + lines_text(bs.drop_first())
    }
}

proof fn lemma_lines_snoc(bs: Seq<Seq<char>>, b: Seq<char>)
    ensures
        lines_text(bs.push(b)) == lines_text(bs) + b + seq!['\n'],
    decreases bs.len(),
{
    if bs.len() == 0 {
        assert(bs.push(b)[0] == b);
        assert(bs.push(b).drop_first() =~= Seq::<Seq<char>>::empty());
        assert(bs.push(b).len() == 1);
        assert(lines_text(bs.push(b)) == b + seq!['\n'] + lines_text(
            Seq::<Seq<char>>::empty(),
        ));
        assert(lines_text(Seq::<Seq<char>>::empty()) == Seq::<char>::empty());
        assert(b + seq!['\n'] + Seq::<char>::empty() =~= lines_text(bs) + b + seq!['\n']);
        assert(lines_text(bs.push(b)) =~= lines_text(bs) + b + seq!['\n']);
    } else {
        lemma_lines_snoc(bs.drop_first(), b);
        assert(bs.push(b)[0] == bs[0]);
        assert(bs.push(b).drop_first() =~= bs.drop_first().push(b));
        assert(lines_text(bs.push(b)) == bs[0] + seq!['\n'] + (lines_text(bs.drop_first()) + b
            + seq!['\n']));
        assert(bs[0] + seq!['\n'] + (lines_text(bs.drop_first()) + b + seq!['\n']) =~= (bs[0]
            + seq!['\n'] + lines_text(bs.drop_first())) + b + seq!['\n']);
        assert(lines_text(bs.push(b)) =~= lines_text(bs) + b + seq!['\n']);
    }
}

/// The text an invocation prints for a record under a mode.
pub open spec fn rendered_text(n: NormalizedModel, mode: OutputMode) -> Seq<char> {
    match mode {
        OutputMode::Full => json_text_of(record_json_model(n)),
        OutputMode::ParseCode => match n.code_blocks {
            Some(bs) => lines_text(bs),
            None => Seq::<char>::empty(),
        },
        OutputMode::Markdown => n.response_text,
        OutputMode::Default => n.response_text,
    }
}

/// The stream an invocation prints to: markdown goes to the error
/// stream, everything else to the output stream.
pub open spec fn rendered_stream(mode: OutputMode) -> OutStream {
    match mode {
        OutputMode::Markdown => OutStream::Stderr,
        _ => OutStream::Stdout,
    }
}

/// Renders a record under a mode: the full record as JSON, the code
/// blocks one per line, or the raw response text.
#[verifier::loop_isolation(false)]
pub fn render(n: &NormalizedResponse, mode: OutputMode) -> (r: Rendered)
    ensures
        r.stream == rendered_stream(mode),
        r.text@ == rendered_text(n@, mode),
{
    match mode {
        OutputMode::Full => {
            let mut fields: Vec<(String, JsonValue)> = Vec::new();
            fields.push(("text".to_owned(), JsonValue::Str(n.response_text.clone())));
            fields.push(("question".to_owned(), JsonValue::Str(n.question.clone())));
            fields.push(("chatId".to_owned(), JsonValue::Str(n.chat_id.clone())));
            fields.push(("sessionId".to_owned(), JsonValue::Str(n.session_id.clone())));
            match &n.memory_type {
                Some(m) => fields.push(("memoryType".to_owned(), JsonValue::Str(m.clone()))),
                None => fields.push(("memoryType".to_owned(), JsonValue::Null)),
            }
            proof {
                lemma_obj_models_index(fields@);
                assert(obj_models(fields@) =~= record_json_model(n@)->Obj_0);
            }
            let value = JsonValue::Obj(fields);
            let text = to_json_string(&value);
            Rendered { stream: OutStream::Stdout, text }
        },
        OutputMode::ParseCode => {
            let mut text = String::new();
            match &n.code_blocks {
                None => {},
                Some(bs) => {
                    let ghost views = string_views(bs@);
                    let mut i: usize = 0;
                    proof {
                        assert(views.take(0) =~= Seq::<Seq<char>>::empty());
                    }
                    while i < bs.len()
                        invariant
                            i <= bs@.len(),
                            text@ == lines_text(views.take(i as int)),
                        decreases bs@.len() - i,
                    {
                        text.append(bs[i].as_str());
                        text.push('\n');
                        proof {
                            lemma_lines_snoc(views.take(i as int), views[i as int]);
                            assert(views.take(i as int).push(views[i as int]) =~= views.take(
                                i as int + 1,
                            ));
                        }
                        i += 1;
                    }
                    proof {
                        assert(views.take(bs@.len() as int) =~= views);
                    }
                },
            }
            Rendered { stream: OutStream::Stdout, text }
        },
        OutputMode::Markdown => Rendered { stream: OutStream::Stderr, text: n.response_text.clone() },
        OutputMode::Default => Rendered { stream: OutStream::Stdout, text: n.response_text.clone() },
    }
}

} // verus!
