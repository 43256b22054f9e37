//! Building the outgoing request: variable substitution in the URL and
//! headers, scheme normalization, header splitting, and the choice of body
//! payload per method and body type. The transport itself is outside the
//! library; it receives the prepared request as plain values.

use vstd::prelude::*;
use crate::json::{JVal, JsonValue, jv_of, jv_of_members, is_ws, spec_stringify, stringify_json, lemma_jv_of_members_index};
use crate::structs::{Method, BodyType, HttpRequest, GlobalVariable, GlobalV, globals_view};
use crate::resolve::{spec_resolve, resolve_string};
use crate::text::{spec_find, find_sub, chars_of, copy_range, string_from_chars};
use crate::utils::{spec_with_https, get_url_with_https};

verus! {

broadcast use vstd::std_specs::vec::group_vec_axioms;

/// A header line held no `:` separator, or a body did not fit its declared
/// body type.
#[derive(Debug, PartialEq, Eq, Structural)]
pub enum PrepareError {
    HeaderFormat,
    BodyFormat,
}

/// The payload an outgoing request carries.
pub enum PreparedBody {
    Empty,
    Form(Vec<(String, String)>),
    Json(JsonValue),
    Text(String),
}

/// The model of a payload.
#[verifier::ext_equal]
pub enum PreparedBodyV {
    Empty,
    Form(Seq<(Seq<char>, Seq<char>)>),
    Json(JVal),
    Text(Seq<char>),
}

impl View for PreparedBody {
    type V = PreparedBodyV;

    open spec fn view(&self) -> PreparedBodyV {
        match self {
            PreparedBody::Empty => PreparedBodyV::Empty,
            PreparedBody::Form(entries) => PreparedBodyV::Form(
                Seq::new(entries@.len(), |i: int| (entries@[i].0@, entries@[i].1@)),
            ),
            PreparedBody::Json(v) => PreparedBodyV::Json(jv_of(*v)),
            PreparedBody::Text(t) => PreparedBodyV::Text(t@),
        }
    }
}

/// An outgoing request, fully resolved: plain values for the transport.
pub struct PreparedRequest {
    pub method: Method,
    pub url: String,
    pub headers: Vec<(String, String)>,
    pub body: PreparedBody,
}

/// The model of an outgoing request.
#[verifier::ext_equal]
pub struct PreparedV {
    pub method: Method,
    pub url: Seq<char>,
    pub headers: Seq<(Seq<char>, Seq<char>)>,
    pub body: PreparedBodyV,
}

impl View for PreparedRequest {
    type V = PreparedV;

    open spec fn view(&self) -> PreparedV {
        PreparedV {
            method: self.method,
            url: self.url@,
            headers: Seq::new(self.headers@.len(), |i: int| (self.headers@[i].0@, self.headers@[i].1@)),
            body: self.body@,
        }
    }
}

/// The string without leading whitespace.
pub open spec fn ltrim(s: Seq<char>) -> Seq<char>
    decreases s.len(),
{
    if s.len() > 0 && is_ws(s[0]) {
        ltrim(s.drop_first())
    } else {
        s
    }
}

/// The string without trailing whitespace.
pub open spec fn rtrim(s: Seq<char>) -> Seq<char>
    decreases s.len(),
{
    if s.len() > 0 && is_ws(s.last()) {
        rtrim(s.drop_last())
    } else {
        s
    }
}

/// The string without surrounding whitespace.
pub open spec fn spec_trim(s: Seq<char>) -> Seq<char> {
    rtrim(ltrim(s))
}

/// The string without one pair of surrounding quote characters.
pub open spec fn strip_quotes(s: Seq<char>) -> Seq<char> {
    if s.len() >= 2 && s[0] == '"' && s.last() == '"' {
        s.subrange(1, s.len() - 1)
    } else {
        s
    }
}

/// How a header line splits: the name before the first `:`, and the value
/// after it, trimmed and with surrounding quotes stripped. A line without a
/// `:` does not split.
pub open spec fn spec_parse_header(s: Seq<char>) -> Option<(Seq<char>, Seq<char>)> {
    match spec_find(s, seq![':'], 0) {
        Option::Some(i) => Option::Some(
            (s.subrange(0, i), strip_quotes(spec_trim(s.skip(i + 1)))),
        ),
        Option::None => Option::None,
    }
}

/// Splits one header line on its first `:`.
#[verifier::loop_isolation(false)]
pub fn parse_header(h: &str) -> (r: Result<(String, String), PrepareError>)
    ensures
        match r {
            Ok(nv) => spec_parse_header(h@) == Option::Some((nv.0@, nv.1@)),
            Err(e) => e == PrepareError::HeaderFormat && spec_parse_header(h@) is None,
        },
{
    let cs = chars_of(h);
    let mut pat: Vec<char> = Vec::new();
    pat.push(':');
    proof {
        assert(pat@ =~= seq![':']);
    }
    let i = match find_sub(&cs, &pat, 0) {
        Option::Some(i) => i,
        Option::None => {
            return Err(PrepareError::HeaderFormat);
        },
    };
    let name = copy_range(&cs, 0, i);
    let n = cs.len();
    proof {
        assert(i + 1 <= n);
    }
    let ghost tail = cs@.skip(i + 1);
    let mut a: usize = i + 1;
    let mut b: usize = n;
    while a < b && (cs[a] == ' ' || cs[a] == '\n' || cs[a] == '\r' || cs[a] == '\t')
        invariant
            i + 1 <= a <= b <= cs@.len(),
            b == cs@.len(),
            ltrim(tail) == ltrim(cs@.subrange(a as int, b as int)),
        decreases b - a,
    {
        proof {
            assert(cs@.subrange(a as int, b as int).drop_first() =~= cs@.subrange(
                a as int + 1,
                b as int,
            ));
        }
        a = a + 1;
    }
    proof {
        assert(!(cs@.subrange(a as int, b as int).len() > 0 && is_ws(
            cs@.subrange(a as int, b as int)[0],
        )));
        assert(ltrim(tail) == cs@.subrange(a as int, b as int));
    }
    while b > a && (cs[b - 1] == ' ' || cs[b - 1] == '\n' || cs[b - 1] == '\r' || cs[b - 1] == '\t')
        invariant
            i + 1 <= a <= b <= cs@.len(),
            rtrim(ltrim(tail)) == rtrim(cs@.subrange(a as int, b as int)),
        decreases b - a,
    {
        proof {
            assert(cs@.subrange(a as int, b as int).drop_last() =~= cs@.subrange(
                a as int,
                b as int - 1,
            ));
        }
        b = b - 1;
    }
    proof {
        assert(!(cs@.subrange(a as int, b as int).len() > 0 && is_ws(
            cs@.subrange(a as int, b as int).last(),
        )));
        assert(spec_trim(tail) == cs@.subrange(a as int, b as int));
    }
    let ghost trimmed = cs@.subrange(a as int, b as int);
    let value = if b - a >= 2 && cs[a] == '"' && cs[b - 1] == '"' {
        proof {
            assert(trimmed[0] == '"' && trimmed.last() == '"');
            assert(trimmed.subrange(1, trimmed.len() - 1) =~= cs@.subrange(
                a as int + 1,
                b as int - 1,
            ));
        }
        copy_range(&cs, a + 1, b - 1)
    } else {
        proof {
            assert(!(trimmed.len() >= 2 && trimmed[0] == '"' && trimmed.last() == '"'));
        }
        copy_range(&cs, a, b)
    };
    let r = (string_from_chars(&name), string_from_chars(&value));
    Ok(r)
}

/// The form entries sent for a JSON object body: each top-level key with
/// its value's string form.
pub open spec fn spec_form_entries(b: JVal) -> Seq<(Seq<char>, Seq<char>)> {
    Seq::new(b->Obj_0.len(), |i: int| (b->Obj_0[i].0, spec_stringify(b->Obj_0[i].1)))
}

/// The payload owed for a request, by its method and body type.
pub open spec fn spec_prepared_body(rv: crate::structs::ReqV) -> PreparedBodyV {
    match rv.method {
        Method::Get => PreparedBodyV::Empty,
        Method::Delete => PreparedBodyV::Empty,
        Method::Put => PreparedBodyV::Json(
            match rv.body {
                Option::Some(b) => b,
                Option::None => JVal::Null,
            },
        ),
        Method::Post => match rv.body_type {
            Option::None => PreparedBodyV::Empty,
            Option::Some(BodyType::Form) => PreparedBodyV::Form(spec_form_entries(rv.body->0)),
            Option::Some(BodyType::Json) => PreparedBodyV::Json(
                match rv.body {
                    Option::Some(b) => b,
                    Option::None => JVal::Null,
                },
            ),
            Option::Some(BodyType::Text) => PreparedBodyV::Text(spec_stringify(rv.body->0)),
        },
    }
}

/// Whether the stored request can be prepared at all: every resolved header
/// splits on a `:`, a form body is a JSON object, and a text body is
/// present.
pub open spec fn spec_preparable(rv: crate::structs::ReqV, gs: Seq<GlobalV>) -> bool {
    &&& forall|k: int|
        0 <= k < rv.headers.len() ==> spec_parse_header(
            #[trigger] spec_resolve(rv.headers[k], gs),
        ) is Some
    &&& (rv.method == Method::Post && rv.body_type == Option::Some(BodyType::Form)
        ==> (rv.body matches Option::Some(b) && b is Obj))
    &&& (rv.method == Method::Post && rv.body_type == Option::Some(BodyType::Text) ==> rv.body
        is Some)
}

/// Resolves and prepares a stored request for dispatch: substitutes the
/// global variables into the URL and every header, normalizes the URL's
/// scheme, splits each header into name and value, and selects the payload
/// the method and body type call for. Fails exactly when the request is not
/// preparable under the table.
#[verifier::loop_isolation(false)]
pub fn prepare_request(req: &HttpRequest, globals: &Vec<GlobalVariable>) -> (r: Result<
    PreparedRequest,
    PrepareError,
>)
    ensures
        r is Ok <==> spec_preparable(req@, globals_view(globals@)),
        r matches Ok(p) ==> {
            let gs = globals_view(globals@);
            &&& p@.method == req@.method
            &&& p@.url == spec_with_https(spec_resolve(req@.url, gs))
            &&& p@.headers.len() == req@.headers.len()
            &&& forall|k: int|
                0 <= k < req@.headers.len() ==> spec_parse_header(
                    #[trigger] spec_resolve(req@.headers[k], gs),
                ) == Option::Some(p@.headers[k])
            &&& p@.body == spec_prepared_body(req@)
        },
{
    let ghost gs = globals_view(globals@);
    let resolved = resolve_string(req.url.as_str(), globals);
    let url = get_url_with_https(resolved.as_str());
    let mut headers: Vec<(String, String)> = Vec::new();
    let mut i: usize = 0;
    while i < req.headers.len()
        invariant
            i <= req.headers@.len(),
            headers@.len() == i,
            forall|k: int|
                0 <= k < i ==> spec_parse_header(#[trigger] spec_resolve(req@.headers[k], gs))
                    == Option::Some((headers@[k].0@, headers@[k].1@)),
        decreases req.headers@.len() - i,
    {
        let line = resolve_string(req.headers[i].as_str(), globals);
        match parse_header(line.as_str()) {
            Ok(nv) => {
                headers.push(nv);
            },
            Err(_) => {
                proof {
                    assert(spec_parse_header(spec_resolve(req@.headers[i as int], gs)) is None);
                }
                return Err(PrepareError::HeaderFormat);
            },
        }
        i = i + 1;
    }
    let body = match req.method {
        Method::Get => PreparedBody::Empty,
        Method::Delete => PreparedBody::Empty,
        Method::Put => {
            match &req.body {
                Option::Some(b) => PreparedBody::Json(crate::json::clone_json(b)),
                Option::None => PreparedBody::Json(JsonValue::Null),
            }
        },
        Method::Post => {
            match &req.body_type {
                Option::None => PreparedBody::Empty,
                Option::Some(BodyType::Form) => {
                    let b = match &req.body {
                        Option::Some(b) => b,
                        Option::None => {
                            return Err(PrepareError::BodyFormat);
                        },
                    };
                    let fs = match b {
                        JsonValue::Obj(fs) => fs,
                        _ => {
                            return Err(PrepareError::BodyFormat);
                        },
                    };
                    proof {
                        lemma_jv_of_members_index(fs@);
                    }
                    let mut entries: Vec<(String, String)> = Vec::new();
                    let mut k: usize = 0;
                    while k < fs.len()
                        invariant
                            k <= fs@.len(),
                            entries@.len() == k,
                            req.body matches Option::Some(b2) && b2 == *b,
                            *b == JsonValue::Obj(*fs),
                            forall|m: int|
                                0 <= m < k ==> (#[trigger] entries@[m].0@, entries@[m].1@) == (
                                jv_of_members(fs@)[m].0,
                                spec_stringify(jv_of_members(fs@)[m].1),
                                ),
                        decreases fs@.len() - k,
                    {
                        let key = fs[k].0.clone();
                        let sval = stringify_json(&fs[k].1);
                        entries.push((key, sval));
                        k = k + 1;
                    }
                    let pb = PreparedBody::Form(entries);
                    proof {
                        assert(pb@ =~= PreparedBodyV::Form(spec_form_entries(req@.body->0)));
                    }
                    pb
                },
                Option::Some(BodyType::Json) => {
                    match &req.body {
                        Option::Some(b) => PreparedBody::Json(crate::json::clone_json(b)),
                        Option::None => PreparedBody::Json(JsonValue::Null),
                    }
                },
                Option::Some(BodyType::Text) => {
                    match &req.body {
                        Option::Some(b) => PreparedBody::Text(stringify_json(b)),
                        Option::None => {
                            return Err(PrepareError::BodyFormat);
                        },
                    }
                },
            }
        },
    };
    let p = PreparedRequest { method: req.method, url, headers, body };
    proof {
        assert(p@.headers.len() == req@.headers.len());
        assert(p@.body == spec_prepared_body(req@));
    }
    Ok(p)
}

} // verus!
