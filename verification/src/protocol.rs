//! What a client and the daemon say to each other: a request is one line of JSON, and the
//! response is one line of text.

use vstd::prelude::*;
use crate::text::copy_strings;
use crate::text::opt_text;
use crate::text::owned;
use crate::text::texts;

verus! {

/// What a JSON value holds. A number that is no integer of 64 bits stands as it is written.
pub enum Json {
    Null,
    Bool(bool),
    Int(int),
    Number(Seq<char>),
    Text(Seq<char>),
    List(Seq<Json>),
    Object(Map<Seq<char>, Json>),
}

/// A JSON value of the crate `serde_json`.
#[verifier::external_type_specification]
#[verifier::external_body]
pub struct ExValue(serde_json::Value);

/// The members of a JSON object of the crate `serde_json`.
#[verifier::external_type_specification]
#[verifier::external_body]
#[verifier::reject_recursive_types(K)]
#[verifier::reject_recursive_types(V)]
pub struct ExMembers<K, V>(serde_json::Map<K, V>);

/// The error of the crate `serde_json`.
#[verifier::external_type_specification]
#[verifier::external_body]
pub struct ExJsonError(serde_json::Error);

/// What a JSON value holds.
pub uninterp spec fn json_of(v: serde_json::Value) -> Json;

/// What the members of a JSON object are.
pub uninterp spec fn members_of(m: serde_json::Map<String, serde_json::Value>) -> Map<
    Seq<char>,
    Json,
>;

/// What `serde_json::from_str` reads from a text; `None` where it reports an error.
pub uninterp spec fn parsed(text: Seq<char>) -> Option<Json>;

/// Calls `serde_json::from_str` for a value. The contract says that the outcome is
/// determined by the text; the grammar of JSON is not restated.
#[verifier::external_body]
fn parse_value(text: &str) -> (r: Result<serde_json::Value, serde_json::Error>)
    ensures
        match r {
            Ok(v) => parsed(text@) == Some(json_of(v)),
            Err(_) => parsed(text@) is None,
        },
{
    serde_json::from_str::<serde_json::Value>(text)
}

/// The member of an object under a key; null for an object without it and for every other
/// value.
pub open spec fn member_of(j: Json, key: Seq<char>) -> Json {
    match j {
        Json::Object(m) => if m.contains_key(key) {
            m[key]
        } else {
            Json::Null
        },
        _ => Json::Null,
    }
}

/// Indexes a value with `serde_json::Value`'s `Index<&str>`: the member under the key, or
/// null where there is none.
#[verifier::external_body]
fn member<'a>(v: &'a serde_json::Value, key: &str) -> (r: &'a serde_json::Value)
    ensures
        json_of(*r) == member_of(json_of(*v), key@),
{
    &v[key]
}

/// `serde_json::Value::as_array`: the items of an array, and `None` for every other value.
pub assume_specification[ serde_json::Value::as_array ](v: &serde_json::Value) -> (r: Option<
    &Vec<serde_json::Value>,
>)
    ensures
        match r {
            Some(items) => json_of(*v) matches Json::List(l) && l.len() == items@.len() && forall|
                i: int,
            |
                0 <= i < l.len() ==> l[i] == json_of(#[trigger] items@[i]),
            None => !(json_of(*v) is List),
        },
;

/// `serde_json::Value::as_str`: the text of a string, and `None` for every other value.
pub assume_specification[ serde_json::Value::as_str ](v: &serde_json::Value) -> (r: Option<&str>)
    ensures
        match r {
            Some(s) => json_of(*v) == Json::Text(s@),
            None => !(json_of(*v) is Text),
        },
;

/// Converts a string with `serde_json::Value`'s `From<String>`.
#[verifier::external_body]
pub(crate) fn text_value(s: String) -> (r: serde_json::Value)
    ensures
        json_of(r) == Json::Text(s@),
{
    serde_json::Value::from(s)
}

/// The JSON texts of a list of texts.
pub open spec fn json_texts(v: Seq<Seq<char>>) -> Seq<Json> {
    v.map_values(|t: Seq<char>| Json::Text(t))
}

/// Converts strings with `serde_json::Value`'s `From<Vec<String>>`: an array of the strings
/// in their order.
#[verifier::external_body]
fn list_value(v: Vec<String>) -> (r: serde_json::Value)
    ensures
        json_of(r) == Json::List(json_texts(texts(v@))),
{
    serde_json::Value::from(v)
}

/// No members.
pub open spec fn empty_members() -> Map<Seq<char>, Json> {
    Map::empty()
}

/// `serde_json::Map::new`: an object without members.
#[verifier::external_body]
pub(crate) fn no_members() -> (r: serde_json::Map<String, serde_json::Value>)
    ensures
        members_of(r) == empty_members(),
{
    serde_json::Map::new()
}

/// `serde_json::Map::insert`: sets the member under a key.
#[verifier::external_body]
pub(crate) fn set_member(m: &mut serde_json::Map<String, serde_json::Value>, key: String, v: serde_json::Value)
    ensures
        members_of(*final(m)) == members_of(*old(m)).insert(key@, json_of(v)),
{
    m.insert(key, v);
}

/// Converts members with `serde_json::Value`'s `From<Map>`.
#[verifier::external_body]
pub(crate) fn object_value(m: serde_json::Map<String, serde_json::Value>) -> (r: serde_json::Value)
    ensures
        json_of(r) == Json::Object(members_of(m)),
{
    serde_json::Value::from(m)
}

/// The JSON integers of a list of bytes.
pub open spec fn json_bytes(v: Seq<u8>) -> Seq<Json> {
    v.map_values(|n: u8| Json::Int(n as int))
}

/// Converts a truth value with `serde_json::Value`'s `From<bool>`.
#[verifier::external_body]
pub(crate) fn bool_value(b: bool) -> (r: serde_json::Value)
    ensures
        json_of(r) == Json::Bool(b),
{
    serde_json::Value::from(b)
}

/// Converts an integer with `serde_json::Value`'s `From<i32>`.
#[verifier::external_body]
pub(crate) fn int_value(n: i32) -> (r: serde_json::Value)
    ensures
        json_of(r) == Json::Int(n as int),
{
    serde_json::Value::from(n)
}

/// Converts bytes with `serde_json::Value`'s `From<Vec<u8>>`: an array of the integers in
/// their order.
#[verifier::external_body]
pub(crate) fn bytes_value(v: Vec<u8>) -> (r: serde_json::Value)
    ensures
        json_of(r) == Json::List(json_bytes(v@)),
{
    serde_json::Value::from(v)
}

/// Copies a value with `serde_json::Value`'s `Clone`.
#[verifier::external_body]
pub(crate) fn copy_value(v: &serde_json::Value) -> (r: serde_json::Value)
    ensures
        json_of(r) == json_of(*v),
{
    v.clone()
}

/// A value that holds no others.
pub open spec fn is_plain(j: Json) -> bool {
    !(j is List) && !(j is Object)
}

/// A plain value or a list of plain values.
pub open spec fn is_leaf(j: Json) -> bool {
    match j {
        Json::List(l) => forall|i: int| 0 <= i < l.len() ==> is_plain(#[trigger] l[i]),
        _ => is_plain(j),
    }
}

/// All members are leaves.
pub open spec fn all_leaves(m: Map<Seq<char>, Json>) -> bool {
    forall|k: Seq<char>| #[trigger] m.contains_key(k) ==> is_leaf(m[k])
}

/// An object whose members are leaves.
pub open spec fn is_flat(j: Json) -> bool {
    match j {
        Json::Object(m) => all_leaves(m),
        _ => false,
    }
}

/// An object whose members are leaves and objects with leaves.
pub open spec fn is_shallow(j: Json) -> bool {
    match j {
        Json::Object(m) => forall|k: Seq<char>|
            m.contains_key(k) ==> is_leaf(#[trigger] m[k]) || is_flat(m[k]),
        _ => false,
    }
}

/// Two values that hold no others, and are the same but perhaps for the digits of a number
/// that is no integer.
pub open spec fn plain_alike(a: Json, b: Json) -> bool {
    is_plain(a) && is_plain(b) && (a == b || (a is Number && b is Number))
}

/// Two lists of plain values with the same values but perhaps for such digits.
pub open spec fn lists_alike(a: Seq<Json>, b: Seq<Json>) -> bool {
    a.len() == b.len() && forall|i: int| 0 <= i < a.len() ==> plain_alike(#[trigger] a[i], b[i])
}

/// Two leaves that are the same but perhaps for such digits.
pub open spec fn leaves_alike(a: Json, b: Json) -> bool {
    match (a, b) {
        (Json::List(x), Json::List(y)) => lists_alike(x, y),
        _ => plain_alike(a, b),
    }
}

/// Members that are leaves, under the same keys, and the same but perhaps for such digits.
pub open spec fn flat_alike(a: Map<Seq<char>, Json>, b: Map<Seq<char>, Json>) -> bool {
    &&& a.dom() == b.dom()
    &&& forall|k: Seq<char>| #[trigger] a.contains_key(k) ==> leaves_alike(a[k], b[k])
}

/// Two members that are the same but perhaps for such digits.
pub open spec fn members_alike(a: Json, b: Json) -> bool {
    match (a, b) {
        (Json::Object(x), Json::Object(y)) => flat_alike(x, y),
        _ => leaves_alike(a, b),
    }
}

/// Shallow members, under the same keys, and the same but perhaps for such digits.
pub open spec fn all_alike(a: Map<Seq<char>, Json>, b: Map<Seq<char>, Json>) -> bool {
    &&& a.dom() == b.dom()
    &&& forall|k: Seq<char>| #[trigger] a.contains_key(k) ==> members_alike(a[k], b[k])
}

/// Two shallow values that are the same but perhaps for the digits of numbers that are no
/// integers.
pub open spec fn alike(a: Json, b: Json) -> bool {
    match (a, b) {
        (Json::Object(x), Json::Object(y)) => all_alike(x, y),
        _ => false,
    }
}

/// Whether a value is read from a text, but perhaps for such digits.
pub open spec fn reads_as(text: Seq<char>, j: Json) -> bool {
    match parsed(text) {
        Some(got) => alike(got, j),
        None => false,
    }
}

/// A leaf in which every number is an integer.
pub open spec fn exact_leaf(j: Json) -> bool {
    match j {
        Json::List(l) => forall|i: int| 0 <= i < l.len() ==> !((#[trigger] l[i]) is Number),
        _ => !(j is Number),
    }
}

/// Leaves in which every number is an integer.
pub open spec fn exact_leaves(m: Map<Seq<char>, Json>) -> bool {
    forall|k: Seq<char>| #[trigger] m.contains_key(k) ==> exact_leaf(m[k])
}

/// A member in which every number is an integer.
pub open spec fn exact_member(j: Json) -> bool {
    match j {
        Json::Object(m) => exact_leaves(m),
        _ => exact_leaf(j),
    }
}

/// Members in which every number is an integer.
pub open spec fn exact_members(m: Map<Seq<char>, Json>) -> bool {
    forall|k: Seq<char>| #[trigger] m.contains_key(k) ==> exact_member(m[k])
}

proof fn lemma_exact_leaf(a: Json, b: Json)
    requires
        leaves_alike(a, b),
        exact_leaf(b),
    ensures
        a == b,
{
    if let (Json::List(x), Json::List(y)) = (a, b) {
        assert forall|i: int| 0 <= i < x.len() implies x[i] == y[i] by {
            assert(plain_alike(x[i], y[i]));
            assert(!(y[i] is Number));
        }
        assert(x =~= y);
    }
}

proof fn lemma_exact_leaves(a: Map<Seq<char>, Json>, b: Map<Seq<char>, Json>)
    requires
        flat_alike(a, b),
        exact_leaves(b),
    ensures
        a == b,
{
    assert forall|k: Seq<char>| a.contains_key(k) implies a[k] == b[k] by {
        assert(b.contains_key(k));
        lemma_exact_leaf(a[k], b[k]);
    }
    assert(a =~= b);
}

/// A value in which every number is an integer is read as it is.
pub proof fn lemma_exact_members(a: Json, b: Map<Seq<char>, Json>)
    requires
        alike(a, Json::Object(b)),
        exact_members(b),
    ensures
        a == Json::Object(b),
{
    let x = a->Object_0;
    assert(all_alike(x, b));
    assert forall|k: Seq<char>| x.contains_key(k) implies x[k] == b[k] by {
        assert(b.contains_key(k));
        assert(members_alike(x[k], b[k]));
        assert(exact_member(b[k]));
        if let (Json::Object(p), Json::Object(q)) = (x[k], b[k]) {
            lemma_exact_leaves(p, q);
        } else {
            lemma_exact_leaf(x[k], b[k]);
        }
    }
    assert(x =~= b);
}

/// The text that `serde_json::Value`'s `Display` writes for a value that holds this.
pub uninterp spec fn written(j: Json) -> Seq<char>;

/// Writes a value with `serde_json::Value`'s `Display`. The text is determined by what the value
/// holds; how each kind of value is written is not restated. The notation is compact and
/// escapes control characters, so that it is one line. `serde_json::from_str` reads the value
/// back, also where a line feed follows. This is claimed for shallow values, since the parser
/// refuses values that are nested too deeply. A number that is no integer is written with a
/// point or an exponent, and is read as such a number again; but the parser may get its last
/// digits wrong, so that they are left unsaid.
#[verifier::external_body]
pub(crate) fn write_value(v: &serde_json::Value) -> (r: String)
    ensures
        r@ == written(json_of(*v)),
        !r@.contains('\n'),
        is_shallow(json_of(*v)) ==> reads_as(r@, json_of(*v)),
        is_shallow(json_of(*v)) ==> reads_as(r@.push('\n'), json_of(*v)),
{
    v.to_string()
}

// ---------------------------------------------------------------------------------------
// Requests
// ---------------------------------------------------------------------------------------

/// What a client asks for.
#[derive(Debug)]
pub struct Request {
    /// The arguments of the client, the name of the program among them.
    pub args: Vec<String>,
    /// What the client read from its standard input before it asked.
    pub initial_stdin: String,
}

/// The contents of a request.
pub struct RequestModel {
    pub args: Seq<Seq<char>>,
    pub initial_stdin: Seq<char>,
}

impl View for Request {
    type V = RequestModel;

    open spec fn view(&self) -> RequestModel {
        RequestModel { args: texts(self.args@), initial_stdin: self.initial_stdin@ }
    }
}

/// The texts among the values of a list.
pub open spec fn texts_among(l: Seq<Json>) -> Seq<Seq<char>>
    decreases l.len(),
{
    if l.len() == 0 {
        Seq::<Seq<char>>::empty()
    } else {
        match l.last() {
            Json::Text(t) => texts_among(l.drop_last()).push(t),
            _ => texts_among(l.drop_last()),
        }
    }
}

/// The request that a JSON value describes. Arguments that are no texts are dropped; where
/// a member is missing or of another kind it counts as empty.
pub open spec fn request_of(j: Json) -> RequestModel {
    RequestModel {
        args: match member_of(j, "args"@) {
            Json::List(l) => texts_among(l),
            _ => Seq::<Seq<char>>::empty(),
        },
        initial_stdin: match member_of(j, "initial_stdin"@) {
            Json::Text(t) => t,
            _ => Seq::<char>::empty(),
        },
    }
}

/// The request on a line; `None` where the line is no JSON.
pub open spec fn request_on(line: Seq<char>) -> Option<RequestModel> {
    match parsed(line) {
        Some(j) => Some(request_of(j)),
        None => None,
    }
}

/// The request that a JSON value describes.
pub fn request_from(payload: &serde_json::Value) -> (r: Request)
    ensures
        r@ == request_of(json_of(*payload)),
{
    let mut args: Vec<String> = Vec::new();
    let list = member(payload, "args");
    match list.as_array() {
        Some(items) => {
            let ghost l = json_of(*list)->List_0;
            let mut i: usize = 0;
            proof {
                assert(l.take(0) =~= Seq::<Json>::empty());
            }
            while i < items.len()
                invariant
                    i <= items@.len(),
                    l.len() == items@.len(),
                    forall|k: int| 0 <= k < l.len() ==> l[k] == json_of(#[trigger] items@[k]),
                    texts(args@) =~= texts_among(l.take(i as int)),
                decreases items@.len() - i,
            {
                let ghost before = texts(args@);
                proof {
                    assert(l.take(i + 1).drop_last() =~= l.take(i as int));
                    assert(l.take(i + 1).last() == json_of(items@[i as int]));
                }
                if let Some(s) = items[i].as_str() {
                    let arg = owned(s);
                    args.push(arg);
                    proof {
                        assert(texts(args@) =~= before.push(arg@));
                    }
                }
                i += 1;
            }
            proof {
                assert(l.take(i as int) =~= l);
            }
        },
        None => {
            proof {
                assert(texts(args@) =~= Seq::<Seq<char>>::empty());
            }
        },
    }
    let initial_stdin: String = match member(payload, "initial_stdin").as_str() {
        Some(s) => owned(s),
        None => String::new(),
    };
    Request { args, initial_stdin }
}

/// Reads a request from a line.
pub fn decode_request(line: &str) -> (r: Option<Request>)
    ensures
        match r {
            Some(q) => request_on(line@) == Some(q@),
            None => request_on(line@) is None,
        },
{
    match parse_value(line) {
        Ok(v) => Some(request_from(&v)),
        Err(_) => None,
    }
}

proof fn lemma_texts_among(v: Seq<Seq<char>>)
    ensures
        texts_among(json_texts(v)) == v,
    decreases v.len(),
{
    if v.len() > 0 {
        lemma_texts_among(v.drop_last());
        assert(json_texts(v).drop_last() =~= json_texts(v.drop_last()));
        assert(v =~= v.drop_last().push(v.last()));
    } else {
        assert(texts_among(json_texts(v)) =~= v);
    }
}

/// The JSON object that stands for a request: its two members, and nothing else.
pub open spec fn request_json(r: RequestModel) -> Json {
    Json::Object(
        empty_members().insert("args"@, Json::List(json_texts(r.args))).insert(
            "initial_stdin"@,
            Json::Text(r.initial_stdin),
        ),
    )
}

/// Writes a request as JSON on a line, with the line feed that ends it. The daemon reads from
/// the line what the client wrote.
pub fn encode_request(args: &Vec<String>, initial_stdin: &str) -> (r: String)
    ensures
        r@ == written(
            request_json(RequestModel { args: texts(args@), initial_stdin: initial_stdin@ }),
        ).push('\n'),
        parsed(r@) == Some(
            request_json(RequestModel { args: texts(args@), initial_stdin: initial_stdin@ }),
        ),
        request_on(r@) == Some(
            (RequestModel { args: texts(args@), initial_stdin: initial_stdin@ }),
        ),
        r@.len() > 0,
        r@.last() == '\n',
        !r@.drop_last().contains('\n'),
{
    let mut members = no_members();
    set_member(&mut members, owned("args"), list_value(copy_strings(args)));
    set_member(&mut members, owned("initial_stdin"), text_value(owned(initial_stdin)));
    let ghost m = members_of(members);
    let payload = object_value(members);
    let mut line = write_value(&payload);
    proof {
        reveal_strlit("args");
        reveal_strlit("initial_stdin");
        assert("args"@.len() != "initial_stdin"@.len());
        let list = Json::List(json_texts(texts(args@)));
        let text = Json::Text(initial_stdin@);
        assert(m["args"@] == list);
        assert(m["initial_stdin"@] == text);
        assert(is_leaf(list));
        assert(is_leaf(text));
        assert forall|k: Seq<char>| m.contains_key(k) implies is_leaf(#[trigger] m[k]) by {
            assert(k == "args"@ || k == "initial_stdin"@);
        }
        assert(is_shallow(json_of(payload)));
        lemma_texts_among(texts(args@));
    }
    let ghost text = line@;
    line.push('\n');
    proof {
        assert(line@.drop_last() =~= text);
        assert forall|k: Seq<char>| #[trigger] m.contains_key(k) implies exact_member(m[k]) by {
            assert(k == "args"@ || k == "initial_stdin"@);
        }
        lemma_exact_members(parsed(line@)->0, m);
    }
    line
}

// ---------------------------------------------------------------------------------------
// Responses
// ---------------------------------------------------------------------------------------

/// The line that answers a request: what was selected, or nothing, and a line feed.
pub open spec fn answer_of(selected: Option<Seq<char>>) -> Seq<char> {
    (match selected {
        Some(s) => s,
        None => Seq::<char>::empty(),
    }).push('\n')
}

/// The line that answers a request.
pub fn response_line(selected: &Option<String>) -> (r: String)
    ensures
        r@ == answer_of(opt_text(*selected)),
{
    let mut out: String = match selected {
        Some(s) => s.clone(),
        None => String::new(),
    };
    out.push('\n');
    out
}

/// The arguments and the input of a request stand under `args` and `initial_stdin`, whatever
/// other members there are. A member that is missing or of another kind counts as empty.
pub proof fn law_request_members(
    m: Map<Seq<char>, Json>,
    args: Seq<Seq<char>>,
    input: Seq<char>,
)
    ensures
        m.contains_key("args"@) && m["args"@] == Json::List(json_texts(args)) ==> request_of(
            Json::Object(m),
        ).args == args,
        m.contains_key("initial_stdin"@) && m["initial_stdin"@] == Json::Text(input) ==> request_of(
            Json::Object(m),
        ).initial_stdin == input,
        !m.contains_key("args"@) || !(m["args"@] is List) ==> request_of(Json::Object(m)).args.len()
            == 0,
        !m.contains_key("initial_stdin"@) || !(m["initial_stdin"@] is Text) ==> request_of(
            Json::Object(m),
        ).initial_stdin.len() == 0,
{
    lemma_texts_among(args);
}

/// Arguments that are no texts are dropped, and those that are texts stay in their order.
pub proof fn law_only_texts_are_arguments(
    m: Map<Seq<char>, Json>,
    l: Seq<Json>,
    x: Json,
)
    requires
        m.contains_key("args"@),
        m["args"@] == Json::List(l),
    ensures
        ({
            let longer = request_of(Json::Object(m.insert("args"@, Json::List(l.push(x))))).args;
            let args = request_of(Json::Object(m)).args;
            &&& x matches Json::Text(t) ==> longer == args.push(t)
            &&& !(x is Text) ==> longer == args
        }),
{
    assert(l.push(x).drop_last() =~= l);
}

/// The answer to a request is what was selected, or nothing, on a line of its own.
pub proof fn law_answer_is_a_line(selected: Seq<char>)
    ensures
        answer_of(Some(selected)) == selected + "\n"@,
        answer_of(None) == "\n"@,
{
    reveal_strlit("\n");
    assert(selected.push('\n') =~= selected + "\n"@);
    assert(Seq::<char>::empty().push('\n') =~= "\n"@);
}

/// The object for a request has its arguments and its input as members, and no other.
pub proof fn law_request_object(r: RequestModel)
    ensures
        request_json(r) matches Json::Object(m) && {
            &&& m.dom() =~= set!["args"@, "initial_stdin"@]
            &&& m["args"@] == Json::List(json_texts(r.args))
            &&& m["initial_stdin"@] == Json::Text(r.initial_stdin)
        },
        request_of(request_json(r)) == r,
{
    reveal_strlit("args");
    reveal_strlit("initial_stdin");
    assert("args"@.len() == 4 && "initial_stdin"@.len() == 13);
    lemma_texts_among(r.args);
}

/// A line is a request exactly where it is JSON, and the request is the one that the JSON value
/// describes.
pub proof fn law_json_lines_are_requests(line: Seq<char>)
    ensures
        parsed(line) is None <==> request_on(line) is None,
        parsed(line) matches Some(j) ==> request_on(line) == Some(request_of(j)),
{
}

} // verus!
