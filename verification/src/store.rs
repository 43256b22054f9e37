//! The saved-request store: the JSON shape of the two collections kept on
//! disk, a serializer and parser for each, and the index-based operations.
//!
//! Saving writes the canonical text of the collection; loading parses it
//! back. The parser's contract guarantees that a saved collection loads back
//! exactly, element for element.

use vstd::prelude::*;
use crate::json::{JVal, JsonValue, jv_of, jv_of_elems, jv_of_members, enc, wf, represents, lemma_jv_of_elems_index, lemma_jv_of_members_index, parse_json_text, to_json_string, clone_json};
use crate::structs::{Method, BodyType, ExtractVariable, ExVarV, GlobalVariable, GlobalV, HttpRequest, ReqV, reqs_view, globals_view};

verus! {

broadcast use vstd::std_specs::vec::group_vec_axioms;

/// The store file held text that is not a valid collection.
#[derive(Debug, PartialEq, Eq, Structural)]
pub struct ParseError;

/// A 1-based index fell outside the collection.
#[derive(Debug, PartialEq, Eq, Structural)]
pub struct IndexOutOfRange;

/// The saved name of an HTTP method.
pub open spec fn method_name(m: Method) -> Seq<char> {
    match m {
        Method::Get => seq!['G', 'E', 'T'],
        Method::Post => seq!['P', 'O', 'S', 'T'],
        Method::Put => seq!['P', 'U', 'T'],
        Method::Delete => seq!['D', 'E', 'L', 'E', 'T', 'E'],
    }
}

/// The saved name of a body type.
pub open spec fn body_type_name(bt: BodyType) -> Seq<char> {
    match bt {
        BodyType::Form => seq!['f', 'o', 'r', 'm'],
        BodyType::Json => seq!['j', 's', 'o', 'n'],
        BodyType::Text => seq!['t', 'e', 'x', 't'],
    }
}

/// The JSON shape of one extraction rule.
pub open spec fn jval_of_exvar(ev: ExVarV) -> JVal {
    JVal::Obj(
        seq![
            (seq!['k', 'e', 'y', '_', 'p', 'a', 't', 'h'], JVal::Str(ev.key_path)),
            (
                seq!['v', 'a', 'r', 'i', 'a', 'b', 'l', 'e', '_', 'n', 'a', 'm', 'e'],
                JVal::Str(ev.variable_name),
            ),
        ],
    )
}

/// The JSON shape of one saved request: an object with its six fields in
/// order, absent options saved as `null`.
pub open spec fn jval_of_req(rv: ReqV) -> JVal {
    JVal::Obj(
        seq![
            (seq!['m', 'e', 't', 'h', 'o', 'd'], JVal::Str(method_name(rv.method))),
            (seq!['u', 'r', 'l'], JVal::Str(rv.url)),
            (
                seq!['h', 'e', 'a', 'd', 'e', 'r', 's'],
                JVal::Arr(Seq::new(rv.headers.len(), |i: int| JVal::Str(rv.headers[i]))),
            ),
            (
                seq!['b', 'o', 'd', 'y', '_', 't', 'y', 'p', 'e'],
                match rv.body_type {
                    Option::Some(bt) => JVal::Str(body_type_name(bt)),
                    Option::None => JVal::Null,
                },
            ),
            (
                seq!['b', 'o', 'd', 'y'],
                match rv.body {
                    Option::Some(b) => b,
                    Option::None => JVal::Null,
                },
            ),
            (
                seq![
                    'e', 'x', 't', 'r', 'a', 'c', 't', '_', 'v', 'a', 'r', 'i', 'a', 'b', 'l',
                    'e', 's',
                ],
                match rv.extract_variables {
                    Option::Some(evs) => JVal::Arr(
                        Seq::new(evs.len(), |i: int| jval_of_exvar(evs[i])),
                    ),
                    Option::None => JVal::Null,
                },
            ),
        ],
    )
}

/// The JSON shape of the whole request collection.
pub open spec fn jval_of_reqs(rs: Seq<ReqV>) -> JVal {
    JVal::Arr(Seq::new(rs.len(), |i: int| jval_of_req(rs[i])))
}

/// The JSON shape of one global variable.
pub open spec fn jval_of_global(g: GlobalV) -> JVal {
    JVal::Obj(
        seq![
            (seq!['k', 'e', 'y'], JVal::Str(g.key)),
            (seq!['v', 'a', 'l', 'u', 'e'], JVal::Str(g.value)),
        ],
    )
}

/// The JSON shape of the whole global-variable collection.
pub open spec fn jval_of_globals(gs: Seq<GlobalV>) -> JVal {
    JVal::Arr(Seq::new(gs.len(), |i: int| jval_of_global(gs[i])))
}

/// A request the store can save and load back unchanged: its body, if
/// present, is well formed and is not the JSON `null` (an absent body is
/// saved as `null`, so a present `null` body could not be told apart).
pub open spec fn req_valid(rv: ReqV) -> bool {
    rv.body matches Option::Some(b) ==> wf(b) && !(b is Null)
}

/// The JSON shape of a valid request is well formed.
pub proof fn lemma_wf_jval_of_req(rv: ReqV)
    requires
        req_valid(rv),
    ensures
        wf(jval_of_req(rv)),
{
    let fs = jval_of_req(rv)->Obj_0;
    assert forall|i: int| 0 <= i < fs.len() implies wf(#[trigger] fs[i].1) by {
        if i == 2 {
            let hs = fs[2].1->Arr_0;
            assert(forall|k: int| 0 <= k < hs.len() ==> wf(#[trigger] hs[k]));
        }
        if i == 5 && rv.extract_variables is Some {
            let evs = fs[5].1->Arr_0;
            assert forall|k: int| 0 <= k < evs.len() implies wf(#[trigger] evs[k]) by {
                let ms = evs[k]->Obj_0;
                assert(forall|m: int| 0 <= m < ms.len() ==> wf(#[trigger] ms[m].1));
            }
        }
    }
}

/// The JSON shape of a valid request collection is well formed.
pub proof fn lemma_wf_jval_of_reqs(rs: Seq<ReqV>)
    requires
        forall|k: int| 0 <= k < rs.len() ==> req_valid(#[trigger] rs[k]),
    ensures
        wf(jval_of_reqs(rs)),
{
    let es = jval_of_reqs(rs)->Arr_0;
    assert forall|i: int| 0 <= i < es.len() implies wf(#[trigger] es[i]) by {
        lemma_wf_jval_of_req(rs[i]);
    }
}

/// The JSON shape of a global-variable collection is well formed.
pub proof fn lemma_wf_jval_of_globals(gs: Seq<GlobalV>)
    ensures
        wf(jval_of_globals(gs)),
{
    let es = jval_of_globals(gs)->Arr_0;
    assert forall|i: int| 0 <= i < es.len() implies wf(#[trigger] es[i]) by {
        let ms = es[i]->Obj_0;
        assert(forall|m: int| 0 <= m < ms.len() ==> wf(#[trigger] ms[m].1));
    }
}

fn method_to_string(m: Method) -> (r: String)
    ensures
        r@ == method_name(m),
{
    match m {
        Method::Get => {
            let r = String::from_str("GET");
            proof {
                reveal_strlit("GET");
                assert(r@ =~= method_name(m));
            }
            r
        },
        Method::Post => {
            let r = String::from_str("POST");
            proof {
                reveal_strlit("POST");
                assert(r@ =~= method_name(m));
            }
            r
        },
        Method::Put => {
            let r = String::from_str("PUT");
            proof {
                reveal_strlit("PUT");
                assert(r@ =~= method_name(m));
            }
            r
        },
        Method::Delete => {
            let r = String::from_str("DELETE");
            proof {
                reveal_strlit("DELETE");
                assert(r@ =~= method_name(m));
            }
            r
        },
    }
}

fn body_type_to_string(bt: BodyType) -> (r: String)
    ensures
        r@ == body_type_name(bt),
{
    match bt {
        BodyType::Form => {
            let r = String::from_str("form");
            proof {
                reveal_strlit("form");
                assert(r@ =~= body_type_name(bt));
            }
            r
        },
        BodyType::Json => {
            let r = String::from_str("json");
            proof {
                reveal_strlit("json");
                assert(r@ =~= body_type_name(bt));
            }
            r
        },
        BodyType::Text => {
            let r = String::from_str("text");
            proof {
                reveal_strlit("text");
                assert(r@ =~= body_type_name(bt));
            }
            r
        },
    }
}

/// The JSON value saved for one extraction rule.
fn encode_exvar(ev: &ExtractVariable) -> (v: JsonValue)
    ensures
        v@ == jval_of_exvar(ev@),
{
    let mut ms: Vec<(String, JsonValue)> = Vec::new();
    let k1 = String::from_str("key_path");
    let k2 = String::from_str("variable_name");
    proof {
        reveal_strlit("key_path");
        reveal_strlit("variable_name");
    }
    ms.push((k1, JsonValue::Str(ev.key_path.clone())));
    ms.push((k2, JsonValue::Str(ev.variable_name.clone())));
    let v = JsonValue::Obj(ms);
    proof {
        lemma_jv_of_members_index(v->Obj_0@);
        assert(v@->Obj_0 =~~= jval_of_exvar(ev@)->Obj_0);
        assert(v@ =~~= jval_of_exvar(ev@));
    }
    v
}

/// The JSON value saved for one request.
#[verifier::loop_isolation(false)]
fn encode_request(r: &HttpRequest) -> (v: JsonValue)
    ensures
        v@ == jval_of_req(r@),
{
    let mut ms: Vec<(String, JsonValue)> = Vec::new();
    proof {
        reveal_strlit("method");
        reveal_strlit("url");
        reveal_strlit("headers");
        reveal_strlit("body_type");
        reveal_strlit("body");
        reveal_strlit("extract_variables");
    }
    ms.push((String::from_str("method"), JsonValue::Str(method_to_string(r.method))));
    ms.push((String::from_str("url"), JsonValue::Str(r.url.clone())));
    let mut hs: Vec<JsonValue> = Vec::new();
    let mut i: usize = 0;
    while i < r.headers.len()
        invariant
            i <= r.headers@.len(),
            hs@.len() == i,
            forall|k: int| 0 <= k < i ==> jv_of(#[trigger] hs@[k]) == JVal::Str(r.headers@[k]@),
        decreases r.headers@.len() - i,
    {
        hs.push(JsonValue::Str(r.headers[i].clone()));
        i = i + 1;
    }
    proof {
        lemma_jv_of_elems_index(hs@);
        assert(jv_of_elems(hs@) =~= jval_of_req(r@)->Obj_0[2].1->Arr_0);
    }
    ms.push((String::from_str("headers"), JsonValue::Arr(hs)));
    let btv = match &r.body_type {
        Option::Some(bt) => JsonValue::Str(body_type_to_string(*bt)),
        Option::None => JsonValue::Null,
    };
    ms.push((String::from_str("body_type"), btv));
    let bv = match &r.body {
        Option::Some(b) => clone_json(b),
        Option::None => JsonValue::Null,
    };
    ms.push((String::from_str("body"), bv));
    let evv = match &r.extract_variables {
        Option::Some(evs) => {
            let mut out: Vec<JsonValue> = Vec::new();
            let mut k: usize = 0;
            while k < evs.len()
                invariant
                    k <= evs@.len(),
                    out@.len() == k,
                    forall|m: int|
                        0 <= m < k ==> jv_of(#[trigger] out@[m]) == jval_of_exvar(evs@[m]@),
                decreases evs@.len() - k,
            {
                out.push(encode_exvar(&evs[k]));
                k = k + 1;
            }
            proof {
                lemma_jv_of_elems_index(out@);
                assert(jv_of_elems(out@) =~= jval_of_req(r@)->Obj_0[5].1->Arr_0);
            }
            JsonValue::Arr(out)
        },
        Option::None => JsonValue::Null,
    };
    ms.push((String::from_str("extract_variables"), evv));
    let v = JsonValue::Obj(ms);
    proof {
        lemma_jv_of_members_index(v->Obj_0@);
        assert(v@->Obj_0 =~~= jval_of_req(r@)->Obj_0);
        assert(v@ =~~= jval_of_req(r@));
    }
    v
}

/// The JSON value saved for the whole request collection.
#[verifier::loop_isolation(false)]
fn encode_requests(rs: &Vec<HttpRequest>) -> (v: JsonValue)
    ensures
        v@ == jval_of_reqs(reqs_view(rs@)),
{
    let mut es: Vec<JsonValue> = Vec::new();
    let mut i: usize = 0;
    while i < rs.len()
        invariant
            i <= rs@.len(),
            es@.len() == i,
            forall|k: int| 0 <= k < i ==> jv_of(#[trigger] es@[k]) == jval_of_req(rs@[k]@),
        decreases rs@.len() - i,
    {
        es.push(encode_request(&rs[i]));
        i = i + 1;
    }
    let v = JsonValue::Arr(es);
    proof {
        lemma_jv_of_elems_index(es@);
        assert(v@->Arr_0 =~= jval_of_reqs(reqs_view(rs@))->Arr_0);
        assert(v@ =~= jval_of_reqs(reqs_view(rs@)));
    }
    v
}

/// The JSON value saved for one global variable.
fn encode_global(g: &GlobalVariable) -> (v: JsonValue)
    ensures
        v@ == jval_of_global(g@),
{
    let mut ms: Vec<(String, JsonValue)> = Vec::new();
    proof {
        reveal_strlit("key");
        reveal_strlit("value");
    }
    ms.push((String::from_str("key"), JsonValue::Str(g.key.clone())));
    ms.push((String::from_str("value"), JsonValue::Str(g.value.clone())));
    let v = JsonValue::Obj(ms);
    proof {
        lemma_jv_of_members_index(v->Obj_0@);
        assert(v@->Obj_0 =~~= jval_of_global(g@)->Obj_0);
        assert(v@ =~~= jval_of_global(g@));
    }
    v
}

/// The JSON value saved for the whole global-variable collection.
#[verifier::loop_isolation(false)]
fn encode_globals(gs: &Vec<GlobalVariable>) -> (v: JsonValue)
    ensures
        v@ == jval_of_globals(globals_view(gs@)),
{
    let mut es: Vec<JsonValue> = Vec::new();
    let mut i: usize = 0;
    while i < gs.len()
        invariant
            i <= gs@.len(),
            es@.len() == i,
            forall|k: int| 0 <= k < i ==> jv_of(#[trigger] es@[k]) == jval_of_global(gs@[k]@),
        decreases gs@.len() - i,
    {
        es.push(encode_global(&gs[i]));
        i = i + 1;
    }
    let v = JsonValue::Arr(es);
    proof {
        lemma_jv_of_elems_index(es@);
        assert(v@->Arr_0 =~= jval_of_globals(globals_view(gs@))->Arr_0);
        assert(v@ =~= jval_of_globals(globals_view(gs@)));
    }
    v
}

/// The string inside a JSON string value.
fn expect_string(v: &JsonValue) -> (r: Result<String, ParseError>)
    ensures
        r matches Ok(s) ==> v@ == JVal::Str(s@),
        forall|t: Seq<char>| v@ == JVal::Str(t) ==> (r matches Ok(s) && s@ == t),
{
    match v {
        JsonValue::Str(s) => Ok(s.clone()),
        _ => Err(ParseError),
    }
}

/// The method a saved name stands for.
fn decode_method(s: &String) -> (r: Result<Method, ParseError>)
    ensures
        r matches Ok(m2) ==> s@ == method_name(m2),
        forall|m: Method| s@ == method_name(m) ==> (r matches Ok(m2) && m2 == m),
{
    proof {
        reveal_strlit("GET");
        reveal_strlit("POST");
        reveal_strlit("PUT");
        reveal_strlit("DELETE");
        assert("GET"@ =~= method_name(Method::Get));
        assert("POST"@ =~= method_name(Method::Post));
        assert("PUT"@ =~= method_name(Method::Put));
        assert("DELETE"@ =~= method_name(Method::Delete));
    }
    if crate::text::str_eq(s.as_str(), "GET") {
        Ok(Method::Get)
    } else if crate::text::str_eq(s.as_str(), "POST") {
        Ok(Method::Post)
    } else if crate::text::str_eq(s.as_str(), "PUT") {
        Ok(Method::Put)
    } else if crate::text::str_eq(s.as_str(), "DELETE") {
        Ok(Method::Delete)
    } else {
        Err(ParseError)
    }
}

/// The body type a saved name stands for.
fn decode_body_type(s: &String) -> (r: Result<BodyType, ParseError>)
    ensures
        r matches Ok(b2) ==> s@ == body_type_name(b2),
        forall|bt: BodyType| s@ == body_type_name(bt) ==> (r matches Ok(b2) && b2 == bt),
{
    proof {
        reveal_strlit("form");
        reveal_strlit("json");
        reveal_strlit("text");
        assert("form"@ =~= body_type_name(BodyType::Form));
        assert("json"@ =~= body_type_name(BodyType::Json));
        assert("text"@ =~= body_type_name(BodyType::Text));
    }
    if crate::text::str_eq(s.as_str(), "form") {
        Ok(BodyType::Form)
    } else if crate::text::str_eq(s.as_str(), "json") {
        Ok(BodyType::Json)
    } else if crate::text::str_eq(s.as_str(), "text") {
        Ok(BodyType::Text)
    } else {
        Err(ParseError)
    }
}

/// How the members of a saved extraction rule decompose.
proof fn exvar_members_shape(ms: Seq<(String, JsonValue)>, ev: ExVarV)
    requires
        jv_of_members(ms) == jval_of_exvar(ev)->Obj_0,
    ensures
        ms.len() == 2,
        ms[0].0@ == seq!['k', 'e', 'y', '_', 'p', 'a', 't', 'h'],
        jv_of(ms[0].1) == JVal::Str(ev.key_path),
        ms[1].0@ == seq!['v', 'a', 'r', 'i', 'a', 'b', 'l', 'e', '_', 'n', 'a', 'm', 'e'],
        jv_of(ms[1].1) == JVal::Str(ev.variable_name),
{
    lemma_jv_of_members_index(ms);
}

/// One saved extraction rule, read back.
fn decode_exvar(v: &JsonValue) -> (r: Result<ExtractVariable, ParseError>)
    ensures
        r matches Ok(e2) ==> v@ == jval_of_exvar(e2@),
        forall|ev: ExVarV| v@ == jval_of_exvar(ev) ==> (r matches Ok(e2) && e2@ == ev),
{
    proof {
        reveal_strlit("key_path");
        reveal_strlit("variable_name");
    }
    let ms = match v {
        JsonValue::Obj(ms) => ms,
        _ => {
            return Err(ParseError);
        },
    };
    proof {
        lemma_jv_of_members_index(ms@);
    }
    if ms.len() != 2 {
        proof {
            assert forall|ev: ExVarV| v@ == jval_of_exvar(ev) implies false by {
                exvar_members_shape(ms@, ev);
            }
        }
        return Err(ParseError);
    }
    if !crate::text::str_eq(ms[0].0.as_str(), "key_path") || !crate::text::str_eq(
        ms[1].0.as_str(),
        "variable_name",
    ) {
        proof {
            assert forall|ev: ExVarV| v@ == jval_of_exvar(ev) implies false by {
                exvar_members_shape(ms@, ev);
                assert(ms@[0].0@ =~= "key_path"@);
                assert(ms@[1].0@ =~= "variable_name"@);
            }
        }
        return Err(ParseError);
    }
    let kp = match expect_string(&ms[0].1) {
        Ok(s) => s,
        Err(_) => {
            proof {
                assert forall|ev: ExVarV| v@ == jval_of_exvar(ev) implies false by {
                    exvar_members_shape(ms@, ev);
                }
            }
            return Err(ParseError);
        },
    };
    let vn = match expect_string(&ms[1].1) {
        Ok(s) => s,
        Err(_) => {
            proof {
                assert forall|ev: ExVarV| v@ == jval_of_exvar(ev) implies false by {
                    exvar_members_shape(ms@, ev);
                }
            }
            return Err(ParseError);
        },
    };
    let e = ExtractVariable { key_path: kp, variable_name: vn };
    proof {
        lemma_jv_of_members_index(ms@);
        assert(ms@[0].0@ =~= "key_path"@);
        assert(ms@[1].0@ =~= "variable_name"@);
        assert(v@->Obj_0 =~~= jval_of_exvar(e@)->Obj_0);
        assert forall|ev: ExVarV| v@ == jval_of_exvar(ev) implies e@ == ev by {
            exvar_members_shape(ms@, ev);
            assert(e@ =~= ev);
        }
    }
    Ok(e)
}

/// How the members of a saved request decompose.
proof fn req_members_shape(ms: Seq<(String, JsonValue)>, rv: ReqV)
    requires
        jv_of_members(ms) == jval_of_req(rv)->Obj_0,
    ensures
        ms.len() == 6,
        ms[0].0@ == seq!['m', 'e', 't', 'h', 'o', 'd'],
        jv_of(ms[0].1) == JVal::Str(method_name(rv.method)),
        ms[1].0@ == seq!['u', 'r', 'l'],
        jv_of(ms[1].1) == JVal::Str(rv.url),
        ms[2].0@ == seq!['h', 'e', 'a', 'd', 'e', 'r', 's'],
        jv_of(ms[2].1) == JVal::Arr(Seq::new(rv.headers.len(), |i: int| JVal::Str(rv.headers[i]))),
        ms[3].0@ == seq!['b', 'o', 'd', 'y', '_', 't', 'y', 'p', 'e'],
        jv_of(ms[3].1) == (match rv.body_type {
            Option::Some(bt) => JVal::Str(body_type_name(bt)),
            Option::None => JVal::Null,
        }),
        ms[4].0@ == seq!['b', 'o', 'd', 'y'],
        jv_of(ms[4].1) == (match rv.body {
            Option::Some(b) => b,
            Option::None => JVal::Null,
        }),
        ms[5].0@ == seq![
            'e', 'x', 't', 'r', 'a', 'c', 't', '_', 'v', 'a', 'r', 'i', 'a', 'b', 'l', 'e', 's',
        ],
        jv_of(ms[5].1) == (match rv.extract_variables {
            Option::Some(evs) => JVal::Arr(Seq::new(evs.len(), |i: int| jval_of_exvar(evs[i]))),
            Option::None => JVal::Null,
        }),
{
    lemma_jv_of_members_index(ms);
}

/// Equal saved shapes come from equal extraction rules.
proof fn jval_of_exvar_injective(a: ExVarV, b: ExVarV)
    requires
        jval_of_exvar(a) == jval_of_exvar(b),
    ensures
        a == b,
{
    let x = jval_of_exvar(a)->Obj_0;
    let y = jval_of_exvar(b)->Obj_0;
    assert(x[0] == y[0] && x[1] == y[1]);
    assert(a =~= b);
}

/// One saved request, read back. Reading back the saved shape of any valid
/// request yields that request.
#[verifier::loop_isolation(false)]
#[verifier::rlimit(80)]
fn decode_request(v: &JsonValue) -> (r: Result<HttpRequest, ParseError>)
    ensures
        r matches Ok(req) ==> v@ == jval_of_req(req@),
        forall|rv: ReqV|
            req_valid(rv) && v@ == jval_of_req(rv) ==> (r matches Ok(req) && req@ == rv),
        wf(v@) ==> (r matches Ok(req) ==> req_valid(req@)),
{
    proof {
        reveal_strlit("method");
        reveal_strlit("url");
        reveal_strlit("headers");
        reveal_strlit("body_type");
        reveal_strlit("body");
        reveal_strlit("extract_variables");
    }
    let ms = match v {
        JsonValue::Obj(ms) => ms,
        _ => {
            return Err(ParseError);
        },
    };
    proof {
        lemma_jv_of_members_index(ms@);
    }
    if ms.len() != 6 {
        proof {
            assert forall|rv: ReqV| req_valid(rv) && v@ == jval_of_req(rv) implies false by {
                req_members_shape(ms@, rv);
            }
        }
        return Err(ParseError);
    }
    if !crate::text::str_eq(ms[0].0.as_str(), "method") || !crate::text::str_eq(
        ms[1].0.as_str(),
        "url",
    ) || !crate::text::str_eq(ms[2].0.as_str(), "headers") || !crate::text::str_eq(
        ms[3].0.as_str(),
        "body_type",
    ) || !crate::text::str_eq(ms[4].0.as_str(), "body") || !crate::text::str_eq(
        ms[5].0.as_str(),
        "extract_variables",
    ) {
        proof {
            assert forall|rv: ReqV| req_valid(rv) && v@ == jval_of_req(rv) implies false by {
                req_members_shape(ms@, rv);
                assert(ms@[0].0@ =~= "method"@);
                assert(ms@[1].0@ =~= "url"@);
                assert(ms@[2].0@ =~= "headers"@);
                assert(ms@[3].0@ =~= "body_type"@);
                assert(ms@[4].0@ =~= "body"@);
                assert(ms@[5].0@ =~= "extract_variables"@);
            }
        }
        return Err(ParseError);
    }
    let mstr = match expect_string(&ms[0].1) {
        Ok(s) => s,
        Err(_) => {
            proof {
                assert forall|rv: ReqV| req_valid(rv) && v@ == jval_of_req(rv) implies false by {
                    req_members_shape(ms@, rv);
                }
            }
            return Err(ParseError);
        },
    };
    let method = match decode_method(&mstr) {
        Ok(m) => m,
        Err(_) => {
            proof {
                assert forall|rv: ReqV| req_valid(rv) && v@ == jval_of_req(rv) implies false by {
                    req_members_shape(ms@, rv);
                }
            }
            return Err(ParseError);
        },
    };
    let url = match expect_string(&ms[1].1) {
        Ok(s) => s,
        Err(_) => {
            proof {
                assert forall|rv: ReqV| req_valid(rv) && v@ == jval_of_req(rv) implies false by {
                    req_members_shape(ms@, rv);
                }
            }
            return Err(ParseError);
        },
    };
    let hv = match &ms[2].1 {
        JsonValue::Arr(hv) => hv,
        _ => {
            proof {
                assert forall|rv: ReqV| req_valid(rv) && v@ == jval_of_req(rv) implies false by {
                    req_members_shape(ms@, rv);
                }
            }
            return Err(ParseError);
        },
    };
    proof {
        lemma_jv_of_elems_index(hv@);
    }
    let mut headers: Vec<String> = Vec::new();
    let mut i: usize = 0;
    while i < hv.len()
        invariant
            i <= hv@.len(),
            headers@.len() == i,
            forall|k: int| 0 <= k < i ==> jv_of(hv@[k]) == JVal::Str(#[trigger] headers@[k]@),
        decreases hv@.len() - i,
    {
        let h = match expect_string(&hv[i]) {
            Ok(s) => s,
            Err(_) => {
                proof {
                    assert forall|rv: ReqV|
                        req_valid(rv) && v@ == jval_of_req(rv) implies false by {
                        req_members_shape(ms@, rv);
                        assert(jv_of_elems(hv@)[i as int] == JVal::Str(
                            rv.headers[i as int],
                        ));
                    }
                }
                return Err(ParseError);
            },
        };
        headers.push(h);
        i = i + 1;
    }
    let btv = match &ms[3].1 {
        JsonValue::Null => {
            proof {
                assert(jv_of(ms@[3].1) == JVal::Null);
            }
            Option::None
        },
        JsonValue::Str(s) => {
            match decode_body_type(s) {
                Ok(bt) => {
                    proof {
                        assert(jv_of(ms@[3].1) == JVal::Str(body_type_name(bt)));
                    }
                    Option::Some(bt)
                },
                Err(_) => {
                    proof {
                        assert forall|rv: ReqV|
                            req_valid(rv) && v@ == jval_of_req(rv) implies false by {
                            req_members_shape(ms@, rv);
                        }
                    }
                    return Err(ParseError);
                },
            }
        },
        _ => {
            proof {
                assert forall|rv: ReqV| req_valid(rv) && v@ == jval_of_req(rv) implies false by {
                    req_members_shape(ms@, rv);
                }
            }
            return Err(ParseError);
        },
    };
    let body = match &ms[4].1 {
        JsonValue::Null => {
            proof {
                assert(jv_of(ms@[4].1) == JVal::Null);
            }
            Option::None
        },
        other => {
            let c = clone_json(other);
            proof {
                assert(jv_of(c) == jv_of(ms@[4].1));
                assert(!(jv_of(ms@[4].1) is Null));
            }
            Option::Some(c)
        },
    };
    let evs = match &ms[5].1 {
        JsonValue::Null => {
            proof {
                assert(jv_of(ms@[5].1) == JVal::Null);
            }
            Option::None
        },
        JsonValue::Arr(evv) => {
            proof {
                lemma_jv_of_elems_index(evv@);
            }
            let mut out: Vec<ExtractVariable> = Vec::new();
            let mut k: usize = 0;
            while k < evv.len()
                invariant
                    k <= evv@.len(),
                    out@.len() == k,
                    ms@[5].1 matches JsonValue::Arr(e2) && e2 == *evv,
                    forall|m: int| 0 <= m < k ==> jv_of(evv@[m]) == jval_of_exvar(out@[m]@),
                decreases evv@.len() - k,
            {
                let e = match decode_exvar(&evv[k]) {
                    Ok(e) => e,
                    Err(_) => {
                        proof {
                            assert forall|rv: ReqV|
                                req_valid(rv) && v@ == jval_of_req(rv) implies false by {
                                req_members_shape(ms@, rv);
                                let evs0 = rv.extract_variables->0;
                                assert(jv_of_elems(evv@)[k as int] == jval_of_exvar(
                                    evs0[k as int],
                                ));
                            }
                        }
                        return Err(ParseError);
                    },
                };
                out.push(e);
                k = k + 1;
            }
            proof {
                assert(jv_of_elems(evv@) =~= Seq::new(
                    out@.len() as nat,
                    |m: int| jval_of_exvar(out@[m]@),
                ));
                assert(jv_of(ms@[5].1) == JVal::Arr(jv_of_elems(evv@)));
            }
            Option::Some(out)
        },
        _ => {
            proof {
                assert forall|rv: ReqV| req_valid(rv) && v@ == jval_of_req(rv) implies false by {
                    req_members_shape(ms@, rv);
                }
            }
            return Err(ParseError);
        },
    };
    let req = HttpRequest { method, url, headers, body_type: btv, body, extract_variables: evs };
    proof {
        assert(v@ == jval_of_req(req@)) by {
            lemma_jv_of_members_index(ms@);
            assert(ms@[0].0@ =~= seq!['m', 'e', 't', 'h', 'o', 'd']);
            assert(ms@[1].0@ =~= seq!['u', 'r', 'l']);
            assert(ms@[2].0@ =~= seq!['h', 'e', 'a', 'd', 'e', 'r', 's']);
            assert(ms@[3].0@ =~= seq!['b', 'o', 'd', 'y', '_', 't', 'y', 'p', 'e']);
            assert(ms@[4].0@ =~= seq!['b', 'o', 'd', 'y']);
            assert(ms@[5].0@ =~= seq![
                'e', 'x', 't', 'r', 'a', 'c', 't', '_', 'v', 'a', 'r', 'i', 'a', 'b', 'l', 'e',
                's',
            ]);
            assert(jv_of(ms@[0].1) == JVal::Str(method_name(req@.method)));
            assert(jv_of(ms@[1].1) == JVal::Str(req@.url));
            assert(jv_of_elems(hv@) =~= Seq::new(
                req@.headers.len(),
                |k: int| JVal::Str(req@.headers[k]),
            ));
            assert(jv_of(ms@[2].1) == JVal::Arr(jv_of_elems(hv@)));
            assert(jv_of(ms@[3].1) == (match req@.body_type {
                Option::Some(bt) => JVal::Str(body_type_name(bt)),
                Option::None => JVal::Null,
            }));
            assert(jv_of(ms@[4].1) == (match req@.body {
                Option::Some(b) => b,
                Option::None => JVal::Null,
            }));
            assert(jv_of(ms@[5].1) == (match req@.extract_variables {
                Option::Some(evs2) => JVal::Arr(
                    Seq::new(evs2.len(), |i: int| jval_of_exvar(evs2[i])),
                ),
                Option::None => JVal::Null,
            })) by {
                if req.extract_variables is Some {
                    let evs2 = req@.extract_variables->0;
                    assert(Seq::new(evs2.len(), |i: int| jval_of_exvar(evs2[i])) =~= Seq::new(
                        req.extract_variables->0@.len() as nat,
                        |m: int| jval_of_exvar(req.extract_variables->0@[m]@),
                    ));
                }
            }
            assert(jv_of_members(ms@) =~~= jval_of_req(req@)->Obj_0);
            assert(v@ =~~= jval_of_req(req@));
        }
        assert(wf(v@) && req.body is Some ==> req_valid(req@)) by {
            if wf(v@) && req.body is Some {
                crate::json::lemma_wf_obj(jv_of_members(ms@));
                assert(wf(jv_of_members(ms@)[4].1));
            }
        }
        assert forall|rv: ReqV| req_valid(rv) && v@ == jval_of_req(rv) implies req@ == rv by {
            req_members_shape(ms@, rv);
            assert(jv_of_elems(hv@) == jval_of_req(rv)->Obj_0[2].1->Arr_0);
            assert forall|k: int| 0 <= k < rv.headers.len() implies req@.headers[k]
                == rv.headers[k] by {
                assert(jv_of(hv@[k]) == JVal::Str(headers@[k]@));
                assert(jv_of_elems(hv@)[k] == JVal::Str(rv.headers[k]));
            }
            assert(req@.headers =~= rv.headers);
            if rv.extract_variables is Some {
                let evs0 = rv.extract_variables->0;
                let outv = req@.extract_variables->0;
                assert forall|m: int| 0 <= m < evs0.len() implies outv[m] == evs0[m] by {
                    assert(jv_of_elems(ms@[5].1->Arr_0@)[m] == jval_of_exvar(evs0[m]));
                    jval_of_exvar_injective(outv[m], evs0[m]);
                }
                assert(req@.extract_variables->0 =~= rv.extract_variables->0);
            }
            if rv.body is Some {
                assert(req@.body->0 == rv.body->0);
            }
            assert(req@ =~= rv);
        }
    }
    Ok(req)
}

/// The whole request collection, read back from its JSON value.
#[verifier::loop_isolation(false)]
fn decode_requests(v: &JsonValue) -> (r: Result<Vec<HttpRequest>, ParseError>)
    ensures
        r matches Ok(out) ==> v@ == jval_of_reqs(reqs_view(out@)),
        forall|rs: Seq<ReqV>|
            (forall|k: int| 0 <= k < rs.len() ==> req_valid(#[trigger] rs[k])) && v@
                == jval_of_reqs(rs) ==> (r matches Ok(out) && reqs_view(out@) == rs),
        wf(v@) ==> (r matches Ok(out) ==> forall|k: int|
            0 <= k < out@.len() ==> req_valid(#[trigger] out@[k]@)),
{
    let es = match v {
        JsonValue::Arr(es) => es,
        _ => {
            return Err(ParseError);
        },
    };
    proof {
        lemma_jv_of_elems_index(es@);
        if wf(v@) {
            crate::json::lemma_wf_arr(jv_of_elems(es@));
        }
    }
    let mut out: Vec<HttpRequest> = Vec::new();
    let mut i: usize = 0;
    while i < es.len()
        invariant
            i <= es@.len(),
            out@.len() == i,
            forall|m: int, rv: ReqV|
                #![trigger jv_of(es@[m]), jval_of_req(rv)]
                0 <= m < i && req_valid(rv) && jv_of(es@[m]) == jval_of_req(rv) ==> out@[m]@ == rv,
            forall|m: int| 0 <= m < i ==> jv_of(es@[m]) == jval_of_req(#[trigger] out@[m]@),
            wf(v@) ==> forall|m: int| 0 <= m < i ==> req_valid(#[trigger] out@[m]@),
        decreases es@.len() - i,
    {
        let req = match decode_request(&es[i]) {
            Ok(req) => req,
            Err(_) => {
                proof {
                    assert forall|rs: Seq<ReqV>|
                        (forall|k: int| 0 <= k < rs.len() ==> req_valid(#[trigger] rs[k])) && v@
                            == jval_of_reqs(rs) implies false by {
                        assert(jv_of_elems(es@)[i as int] == jval_of_req(rs[i as int]));
                    }
                }
                return Err(ParseError);
            },
        };
        proof {
            if wf(v@) {
                assert(wf(jv_of_elems(es@)[i as int]));
                assert(wf(jv_of(es@[i as int])));
            }
        }
        out.push(req);
        i = i + 1;
    }
    proof {
        assert forall|rs: Seq<ReqV>|
            (forall|k: int| 0 <= k < rs.len() ==> req_valid(#[trigger] rs[k])) && v@
                == jval_of_reqs(rs) implies reqs_view(out@) == rs by {
            assert forall|m: int| 0 <= m < rs.len() implies out@[m]@ == rs[m] by {
                assert(jv_of_elems(es@)[m] == jval_of_req(rs[m]));
            }
            assert(reqs_view(out@) =~= rs);
        }
        assert(jv_of_elems(es@) =~= Seq::new(
            reqs_view(out@).len(),
            |m: int| jval_of_req(reqs_view(out@)[m]),
        ));
        assert(v@ =~~= jval_of_reqs(reqs_view(out@)));
    }
    Ok(out)
}

/// Loads the request collection from the text of the requests file.
///
/// The first `ensures` clause carries the store's round-trip guarantee: the
/// saved text of any sequence of valid requests loads back as exactly that
/// sequence, order preserved. The second ties every successful load to the
/// file's text: the text reads as the loaded collection under the JSON
/// grammar, so text that is no request collection at all cannot load.
pub fn parse_saved_requests(text: &str) -> (r: Result<Vec<HttpRequest>, ParseError>)
    ensures
        forall|rs: Seq<ReqV>|
            (forall|k: int| 0 <= k < rs.len() ==> req_valid(#[trigger] rs[k])) && text@ == enc(
                #[trigger] jval_of_reqs(rs),
            ) ==> (r matches Ok(out) && reqs_view(out@) == rs),
        r matches Ok(out) ==> represents(text@, jval_of_reqs(reqs_view(out@))) && (forall|k: int|
            0 <= k < out@.len() ==> req_valid(#[trigger] out@[k]@)),
{
    match parse_json_text(text) {
        Option::None => {
            proof {
                assert forall|rs: Seq<ReqV>|
                    (forall|k: int| 0 <= k < rs.len() ==> req_valid(#[trigger] rs[k])) && text@
                        == enc(jval_of_reqs(rs)) implies false by {
                    lemma_wf_jval_of_reqs(rs);
                }
            }
            Err(ParseError)
        },
        Option::Some(v) => {
            let r = decode_requests(&v);
            proof {
                assert forall|rs: Seq<ReqV>|
                    (forall|k: int| 0 <= k < rs.len() ==> req_valid(#[trigger] rs[k])) && text@
                        == enc(jval_of_reqs(rs)) implies (r matches Ok(out) && reqs_view(out@)
                    == rs) by {
                    lemma_wf_jval_of_reqs(rs);
                    assert(v@ == jval_of_reqs(rs));
                }
            }
            r
        },
    }
}

/// One saved global variable, read back.
fn decode_global(v: &JsonValue) -> (r: Result<GlobalVariable, ParseError>)
    ensures
        r matches Ok(g2) ==> v@ == jval_of_global(g2@),
        forall|g: GlobalV| v@ == jval_of_global(g) ==> (r matches Ok(g2) && g2@ == g),
{
    proof {
        reveal_strlit("key");
        reveal_strlit("value");
    }
    let ms = match v {
        JsonValue::Obj(ms) => ms,
        _ => {
            return Err(ParseError);
        },
    };
    proof {
        lemma_jv_of_members_index(ms@);
    }
    if ms.len() != 2 {
        proof {
            assert forall|g: GlobalV| v@ == jval_of_global(g) implies false by {
                lemma_jv_of_members_index(ms@);
            }
        }
        return Err(ParseError);
    }
    if !crate::text::str_eq(ms[0].0.as_str(), "key") || !crate::text::str_eq(
        ms[1].0.as_str(),
        "value",
    ) {
        proof {
            assert forall|g: GlobalV| v@ == jval_of_global(g) implies false by {
                assert(ms@[0].0@ =~= "key"@);
                assert(ms@[1].0@ =~= "value"@);
            }
        }
        return Err(ParseError);
    }
    let k = match expect_string(&ms[0].1) {
        Ok(s) => s,
        Err(_) => {
            return Err(ParseError);
        },
    };
    let val = match expect_string(&ms[1].1) {
        Ok(s) => s,
        Err(_) => {
            return Err(ParseError);
        },
    };
    let g = GlobalVariable { key: k, value: val };
    proof {
        assert(ms@[0].0@ =~= "key"@);
        assert(ms@[1].0@ =~= "value"@);
        assert(v@->Obj_0 =~~= jval_of_global(g@)->Obj_0);
        assert forall|gv: GlobalV| v@ == jval_of_global(gv) implies g@ == gv by {
            lemma_jv_of_members_index(ms@);
            assert(g@ =~= gv);
        }
    }
    Ok(g)
}

/// The whole global-variable collection, read back from its JSON value.
#[verifier::loop_isolation(false)]
fn decode_globals(v: &JsonValue) -> (r: Result<Vec<GlobalVariable>, ParseError>)
    ensures
        r matches Ok(out) ==> v@ == jval_of_globals(globals_view(out@)),
        forall|gs: Seq<GlobalV>|
            v@ == jval_of_globals(gs) ==> (r matches Ok(out) && globals_view(out@) == gs),
{
    let es = match v {
        JsonValue::Arr(es) => es,
        _ => {
            return Err(ParseError);
        },
    };
    proof {
        lemma_jv_of_elems_index(es@);
    }
    let mut out: Vec<GlobalVariable> = Vec::new();
    let mut i: usize = 0;
    while i < es.len()
        invariant
            i <= es@.len(),
            out@.len() == i,
            forall|m: int, g: GlobalV|
                #![trigger jv_of(es@[m]), jval_of_global(g)]
                0 <= m < i && jv_of(es@[m]) == jval_of_global(g) ==> out@[m]@ == g,
            forall|m: int| 0 <= m < i ==> jv_of(es@[m]) == jval_of_global(#[trigger] out@[m]@),
        decreases es@.len() - i,
    {
        let g = match decode_global(&es[i]) {
            Ok(g) => g,
            Err(_) => {
                proof {
                    assert forall|gs: Seq<GlobalV>| v@ == jval_of_globals(gs) implies false by {
                        assert(jv_of_elems(es@)[i as int] == jval_of_global(gs[i as int]));
                    }
                }
                return Err(ParseError);
            },
        };
        out.push(g);
        i = i + 1;
    }
    proof {
        assert forall|gs: Seq<GlobalV>|
            v@ == jval_of_globals(gs) implies globals_view(out@) == gs by {
            assert forall|m: int| 0 <= m < gs.len() implies out@[m]@ == gs[m] by {
                assert(jv_of_elems(es@)[m] == jval_of_global(gs[m]));
            }
            assert(globals_view(out@) =~= gs);
        }
        assert(jv_of_elems(es@) =~= Seq::new(
            globals_view(out@).len(),
            |m: int| jval_of_global(globals_view(out@)[m]),
        ));
        assert(v@ =~~= jval_of_globals(globals_view(out@)));
    }
    Ok(out)
}

/// Loads the global-variable collection from the text of its file, with the
/// same round-trip guarantee as the request store.
pub fn parse_global_variables(text: &str) -> (r: Result<Vec<GlobalVariable>, ParseError>)
    ensures
        forall|gs: Seq<GlobalV>|
            text@ == enc(#[trigger] jval_of_globals(gs)) ==> (r matches Ok(out) && globals_view(
                out@,
            ) == gs),
        r matches Ok(out) ==> represents(text@, jval_of_globals(globals_view(out@))),
{
    match parse_json_text(text) {
        Option::None => {
            proof {
                assert forall|gs: Seq<GlobalV>|
                    text@ == enc(jval_of_globals(gs)) implies false by {
                    lemma_wf_jval_of_globals(gs);
                }
            }
            Err(ParseError)
        },
        Option::Some(v) => {
            let r = decode_globals(&v);
            proof {
                assert forall|gs: Seq<GlobalV>|
                    text@ == enc(jval_of_globals(gs)) implies (r matches Ok(out) && globals_view(
                    out@,
                ) == gs) by {
                    lemma_wf_jval_of_globals(gs);
                    assert(v@ == jval_of_globals(gs));
                }
            }
            r
        },
    }
}

/// The saved request standing at a 1-based index; the caller checks the
/// index first.
pub fn get_request_from_saved_requests(saved_requests: &Vec<HttpRequest>, index: usize) -> (r:
    &HttpRequest)
    requires
        1 <= index <= saved_requests@.len(),
    ensures
        *r == saved_requests@[index - 1],
{
    &saved_requests[index - 1]
}

/// Removes the request at a 1-based index. An index of 0 or one past the
/// end is rejected and the collection stands unchanged.
pub fn delete_request_by_index(requests: &mut Vec<HttpRequest>, index: usize) -> (r: Result<
    (),
    IndexOutOfRange,
>)
    ensures
        1 <= index <= old(requests)@.len() ==> r is Ok && final(requests)@ == old(
            requests,
        )@.remove(index - 1),
        !(1 <= index <= old(requests)@.len()) ==> r is Err && final(requests)@ == old(requests)@,
{
    if 1 <= index && index <= requests.len() {
        requests.remove(index - 1);
        Ok(())
    } else {
        Err(IndexOutOfRange)
    }
}

/// Replaces the request at a 1-based index with an edited one. An index of
/// 0 or one past the end is rejected and the collection stands unchanged.
pub fn set_request_by_index(
    requests: &mut Vec<HttpRequest>,
    index: usize,
    req: HttpRequest,
) -> (r: Result<(), IndexOutOfRange>)
    ensures
        1 <= index <= old(requests)@.len() ==> r is Ok && final(requests)@ == old(
            requests,
        )@.update(index - 1, req),
        !(1 <= index <= old(requests)@.len()) ==> r is Err && final(requests)@ == old(requests)@,
{
    if 1 <= index && index <= requests.len() {
        requests.set(index - 1, req);
        Ok(())
    } else {
        Err(IndexOutOfRange)
    }
}

/// Removes the global variable at a 1-based index, with the same bounds
/// checks as request deletion.
pub fn delete_global_variable(globals: &mut Vec<GlobalVariable>, index: usize) -> (r: Result<
    (),
    IndexOutOfRange,
>)
    ensures
        1 <= index <= old(globals)@.len() ==> r is Ok && final(globals)@ == old(globals)@.remove(
            index - 1,
        ),
        !(1 <= index <= old(globals)@.len()) ==> r is Err && final(globals)@ == old(globals)@,
{
    if 1 <= index && index <= globals.len() {
        globals.remove(index - 1);
        Ok(())
    } else {
        Err(IndexOutOfRange)
    }
}

/// The table after setting `k` to `v`: the first entry whose key is `k` is
/// overwritten in place; with no such entry, a new one is appended.
pub open spec fn spec_upsert(gs: Seq<GlobalV>, k: Seq<char>, v: Seq<char>) -> Seq<GlobalV>
    decreases gs.len(),
{
    if gs.len() == 0 {
        seq![GlobalV { key: k, value: v }]
    } else if gs[0].key == k {
        seq![GlobalV { key: k, value: v }] + gs.drop_first()
    } else {
        seq![gs[0]] + spec_upsert(gs.drop_first(), k, v)
    }
}

/// The value stored under a key, by first match.
pub open spec fn spec_lookup(gs: Seq<GlobalV>, k: Seq<char>) -> Option<Seq<char>>
    decreases gs.len(),
{
    if gs.len() == 0 {
        Option::None
    } else if gs[0].key == k {
        Option::Some(gs[0].value)
    } else {
        spec_lookup(gs.drop_first(), k)
    }
}

/// Key uniqueness of the table update: setting a key that is already present
/// overwrites its value and leaves the length unchanged; setting a fresh key
/// appends one entry. Either way the key then holds the new value.
pub proof fn lemma_upsert_key_unique(gs: Seq<GlobalV>, k: Seq<char>, v: Seq<char>)
    ensures
        (exists|j: int| 0 <= j < gs.len() && #[trigger] gs[j].key == k) ==> spec_upsert(
            gs,
            k,
            v,
        ).len() == gs.len(),
        !(exists|j: int| 0 <= j < gs.len() && #[trigger] gs[j].key == k) ==> spec_upsert(
            gs,
            k,
            v,
        ).len() == gs.len() + 1,
        spec_lookup(spec_upsert(gs, k, v), k) == Option::Some(v),
    decreases gs.len(),
{
    if gs.len() == 0 {
        assert(spec_upsert(gs, k, v)[0].key == k);
    } else if gs[0].key == k {
        assert(spec_upsert(gs, k, v)[0].key == k);
    } else {
        lemma_upsert_key_unique(gs.drop_first(), k, v);
        assert(spec_upsert(gs, k, v)[0] == gs[0]);
        assert(spec_upsert(gs, k, v).drop_first() =~= spec_upsert(gs.drop_first(), k, v));
        if exists|j: int| 0 <= j < gs.len() && #[trigger] gs[j].key == k {
            let j = choose|j: int| 0 <= j < gs.len() && #[trigger] gs[j].key == k;
            assert(gs.drop_first()[j - 1].key == k);
        }
        if exists|j: int| 0 <= j < gs.drop_first().len() && #[trigger] gs.drop_first()[j].key
            == k {
            let j = choose|j: int|
                0 <= j < gs.drop_first().len() && #[trigger] gs.drop_first()[j].key == k;
            assert(gs[j + 1].key == k);
        }
    }
}

/// Sets `key` to `value` in the table, overwriting the first entry with that
/// key in place, or appending a new entry when the key is fresh.
#[verifier::loop_isolation(false)]
pub fn save_to_global_variables(globals: &mut Vec<GlobalVariable>, key: String, value: String)
    ensures
        globals_view(final(globals)@) == spec_upsert(globals_view(old(globals)@), key@, value@),
{
    let ghost gs = globals_view(old(globals)@);
    let mut i: usize = 0;
    while i < globals.len()
        invariant
            i <= globals@.len(),
            *globals == *old(globals),
            forall|m: int| 0 <= m < i ==> gs[m].key != key@,
        decreases globals@.len() - i,
    {
        if globals[i].key == key {
            let ghost idx = i as int;
            globals.set(i, GlobalVariable { key, value });
            proof {
                lemma_upsert_update(gs, key@, value@, idx);
                assert(globals_view(globals@) =~= gs.update(
                    idx,
                    GlobalV { key: key@, value: value@ },
                ));
            }
            return ;
        }
        i = i + 1;
    }
    globals.push(GlobalVariable { key, value });
    proof {
        lemma_upsert_absent(gs, key@, value@);
        assert(globals_view(globals@) =~= gs.push(GlobalV { key: key@, value: value@ }));
    }
}

/// With the first match at `i`, the update overwrites exactly that entry.
proof fn lemma_upsert_update(gs: Seq<GlobalV>, k: Seq<char>, v: Seq<char>, i: int)
    requires
        0 <= i < gs.len(),
        gs[i].key == k,
        forall|m: int| 0 <= m < i ==> gs[m].key != k,
    ensures
        spec_upsert(gs, k, v) == gs.update(i, GlobalV { key: k, value: v }),
    decreases gs.len(),
{
    if i == 0 {
        assert(spec_upsert(gs, k, v) =~= gs.update(0, GlobalV { key: k, value: v }));
    } else {
        assert(forall|m: int| 0 <= m < i - 1 ==> gs.drop_first()[m].key == gs[m + 1].key);
        lemma_upsert_update(gs.drop_first(), k, v, i - 1);
        assert(spec_upsert(gs, k, v) =~= gs.update(i, GlobalV { key: k, value: v }));
    }
}

/// With no match anywhere, the update appends.
proof fn lemma_upsert_absent(gs: Seq<GlobalV>, k: Seq<char>, v: Seq<char>)
    requires
        forall|m: int| 0 <= m < gs.len() ==> gs[m].key != k,
    ensures
        spec_upsert(gs, k, v) == gs.push(GlobalV { key: k, value: v }),
    decreases gs.len(),
{
    if gs.len() == 0 {
        assert(spec_upsert(gs, k, v) =~= gs.push(GlobalV { key: k, value: v }));
    } else {
        assert(forall|m: int| 0 <= m < gs.drop_first().len() ==> gs.drop_first()[m].key == gs[m
            + 1].key);
        lemma_upsert_absent(gs.drop_first(), k, v);
        assert(spec_upsert(gs, k, v) =~= gs.push(GlobalV { key: k, value: v }));
    }
}

/// The text written for one request alone, as the edit flow shows it.
pub fn serialize_saved_request(r: &HttpRequest) -> (t: String)
    ensures
        t@ == enc(jval_of_req(r@)),
{
    let v = encode_request(r);
    to_json_string(&v)
}

/// One request read back from its text, as the edit flow reads the edited
/// file; the saved text of any valid request reads back as that request.
pub fn parse_saved_request(text: &str) -> (r: Result<HttpRequest, ParseError>)
    ensures
        forall|rv: ReqV|
            req_valid(rv) && text@ == enc(#[trigger] jval_of_req(rv)) ==> (r matches Ok(req)
                && req@ == rv),
        r matches Ok(req) ==> req_valid(req@) && represents(text@, jval_of_req(req@)),
{
    match parse_json_text(text) {
        Option::None => {
            proof {
                assert forall|rv: ReqV|
                    req_valid(rv) && text@ == enc(jval_of_req(rv)) implies false by {
                    lemma_wf_jval_of_req(rv);
                }
            }
            Err(ParseError)
        },
        Option::Some(v) => {
            let r = decode_request(&v);
            proof {
                assert forall|rv: ReqV|
                    req_valid(rv) && text@ == enc(jval_of_req(rv)) implies (r matches Ok(req)
                    && req@ == rv) by {
                    lemma_wf_jval_of_req(rv);
                    assert(v@ == jval_of_req(rv));
                }
            }
            r
        },
    }
}

/// The text written to the requests file: the canonical JSON of the
/// collection.
pub fn serialize_saved_requests(rs: &Vec<HttpRequest>) -> (r: String)
    ensures
        r@ == enc(jval_of_reqs(reqs_view(rs@))),
{
    let v = encode_requests(rs);
    to_json_string(&v)
}

/// The text written to the global-variables file.
pub fn serialize_global_variables(gs: &Vec<GlobalVariable>) -> (r: String)
    ensures
        r@ == enc(jval_of_globals(globals_view(gs@))),
{
    let v = encode_globals(gs);
    to_json_string(&v)
}

} // verus!
