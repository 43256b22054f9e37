//! The data model: saved requests, global variables, responses, and the
//! command-line argument record.

use vstd::prelude::*;
use crate::json::{JVal, JsonValue, jv_of, json_eq, clone_json, wf};

verus! {

/// An HTTP method a saved request can carry.
#[derive(Clone, Copy, PartialEq, Eq, Structural, Debug)]
pub enum Method {
    Get,
    Post,
    Put,
    Delete,
}

/// How the body of a POST request is sent.
#[derive(Clone, Copy, PartialEq, Eq, Structural, Debug)]
pub enum BodyType {
    Form,
    Json,
    Text,
}

/// A rule saving a top-level field of a JSON response into the
/// global-variable table.
pub struct ExtractVariable {
    pub key_path: String,
    pub variable_name: String,
}

/// The model of an extraction rule.
#[verifier::ext_equal]
pub struct ExVarV {
    pub key_path: Seq<char>,
    pub variable_name: Seq<char>,
}

impl View for ExtractVariable {
    type V = ExVarV;

    open spec fn view(&self) -> ExVarV {
        ExVarV { key_path: self.key_path@, variable_name: self.variable_name@ }
    }
}

/// A named value substitutable into URLs and headers as `{{name}}`.
pub struct GlobalVariable {
    pub key: String,
    pub value: String,
}

/// The model of a global variable.
#[verifier::ext_equal]
pub struct GlobalV {
    pub key: Seq<char>,
    pub value: Seq<char>,
}

impl View for GlobalVariable {
    type V = GlobalV;

    open spec fn view(&self) -> GlobalV {
        GlobalV { key: self.key@, value: self.value@ }
    }
}

/// A saved request definition.
pub struct HttpRequest {
    pub method: Method,
    pub url: String,
    pub headers: Vec<String>,
    pub body_type: Option<BodyType>,
    pub body: Option<JsonValue>,
    pub extract_variables: Option<Vec<ExtractVariable>>,
}

/// The model of a saved request.
#[verifier::ext_equal]
pub struct ReqV {
    pub method: Method,
    pub url: Seq<char>,
    pub headers: Seq<Seq<char>>,
    pub body_type: Option<BodyType>,
    pub body: Option<JVal>,
    pub extract_variables: Option<Seq<ExVarV>>,
}

impl View for HttpRequest {
    type V = ReqV;

    open spec fn view(&self) -> ReqV {
        ReqV {
            method: self.method,
            url: self.url@,
            headers: Seq::new(self.headers@.len(), |i: int| self.headers@[i]@),
            body_type: self.body_type,
            body: match self.body {
                Option::Some(b) => Option::Some(jv_of(b)),
                Option::None => Option::None,
            },
            extract_variables: match self.extract_variables {
                Option::Some(evs) => Option::Some(Seq::new(evs@.len(), |i: int| evs@[i]@)),
                Option::None => Option::None,
            },
        }
    }
}

/// Well-formedness of a saved request: its body, if any, is a well-formed
/// JSON value.
pub open spec fn req_wf(rv: ReqV) -> bool {
    rv.body matches Option::Some(b) ==> wf(b)
}

/// The models of a sequence of saved requests.
pub open spec fn reqs_view(rs: Seq<HttpRequest>) -> Seq<ReqV> {
    Seq::new(rs.len(), |i: int| rs[i]@)
}

/// The models of a sequence of global variables.
pub open spec fn globals_view(gs: Seq<GlobalVariable>) -> Seq<GlobalV> {
    Seq::new(gs.len(), |i: int| gs[i]@)
}

/// The result of one dispatched request, as printed to the user.
pub struct HttpResponse {
    pub method: Method,
    pub url: String,
    pub status_code: u16,
    pub json_data: Option<JsonValue>,
    pub text_data: Option<String>,
}

/// The model of a response record.
#[verifier::ext_equal]
pub struct RespV {
    pub method: Method,
    pub url: Seq<char>,
    pub status_code: u16,
    pub json_data: Option<JVal>,
    pub text_data: Option<Seq<char>>,
}

impl View for HttpResponse {
    type V = RespV;

    open spec fn view(&self) -> RespV {
        RespV {
            method: self.method,
            url: self.url@,
            status_code: self.status_code,
            json_data: match self.json_data {
                Option::Some(b) => Option::Some(jv_of(b)),
                Option::None => Option::None,
            },
            text_data: match self.text_data {
                Option::Some(t) => Option::Some(t@),
                Option::None => Option::None,
            },
        }
    }
}

/// The three free-form tokens the command line may carry.
pub struct Cli {
    pub first_arg: Option<String>,
    pub second_arg: Option<String>,
    pub third_arg: Option<String>,
}

/// A deep copy of an extraction rule.
pub fn clone_extract_variable(ev: &ExtractVariable) -> (r: ExtractVariable)
    ensures
        r@ == ev@,
{
    ExtractVariable { key_path: ev.key_path.clone(), variable_name: ev.variable_name.clone() }
}

/// A deep copy of a global variable.
pub fn clone_global_variable(g: &GlobalVariable) -> (r: GlobalVariable)
    ensures
        r@ == g@,
{
    GlobalVariable { key: g.key.clone(), value: g.value.clone() }
}

/// A deep copy of a saved request.
#[verifier::loop_isolation(false)]
pub fn clone_request(r: &HttpRequest) -> (c: HttpRequest)
    ensures
        c@ == r@,
{
    let method = r.method;
    let url = r.url.clone();
    let mut headers: Vec<String> = Vec::new();
    let mut i: usize = 0;
    while i < r.headers.len()
        invariant
            i <= r.headers@.len(),
            headers@.len() == i,
            forall|k: int| 0 <= k < i ==> headers@[k]@ == r.headers@[k]@,
        decreases r.headers@.len() - i,
    {
        headers.push(r.headers[i].clone());
        i = i + 1;
    }
    let body_type = r.body_type;
    let body = match &r.body {
        Option::Some(b) => Option::Some(clone_json(b)),
        Option::None => Option::None,
    };
    let extract_variables = match &r.extract_variables {
        Option::Some(evs) => {
            let mut out: Vec<ExtractVariable> = Vec::new();
            let mut k: usize = 0;
            while k < evs.len()
                invariant
                    k <= evs@.len(),
                    out@.len() == k,
                    forall|m: int| 0 <= m < k ==> out@[m]@ == evs@[m]@,
                decreases evs@.len() - k,
            {
                out.push(clone_extract_variable(&evs[k]));
                k = k + 1;
            }
            Option::Some(out)
        },
        Option::None => Option::None,
    };
    let c = HttpRequest { method, url, headers, body_type, body, extract_variables };
    proof {
        assert(c@.headers =~= r@.headers);
        assert(c@.extract_variables matches Option::Some(evs) ==> r@.extract_variables
            matches Option::Some(evs2) && evs =~= evs2);
        assert(c@ =~= r@);
    }
    c
}

/// Structural equality of two saved requests.
#[verifier::loop_isolation(false)]
pub fn request_eq(a: &HttpRequest, b: &HttpRequest) -> (r: bool)
    ensures
        r == (a@ == b@),
{
    if !(a.method == b.method) {
        return false;
    }
    if !(a.url == b.url) {
        return false;
    }
    if a.headers.len() != b.headers.len() {
        proof {
            assert(a@.headers.len() != b@.headers.len());
        }
        return false;
    }
    let mut i: usize = 0;
    while i < a.headers.len()
        invariant
            i <= a.headers@.len(),
            a.headers@.len() == b.headers@.len(),
            forall|k: int| 0 <= k < i ==> a.headers@[k]@ == b.headers@[k]@,
        decreases a.headers@.len() - i,
    {
        if !(a.headers[i] == b.headers[i]) {
            proof {
                assert(a@.headers[i as int] != b@.headers[i as int]);
            }
            return false;
        }
        i = i + 1;
    }
    proof {
        assert(a@.headers =~= b@.headers);
    }
    match (&a.body_type, &b.body_type) {
        (Option::Some(x), Option::Some(y)) => {
            if !(*x == *y) {
                return false;
            }
        },
        (Option::None, Option::None) => {},
        _ => {
            return false;
        },
    }
    match (&a.body, &b.body) {
        (Option::Some(x), Option::Some(y)) => {
            if !json_eq(x, y) {
                return false;
            }
        },
        (Option::None, Option::None) => {},
        _ => {
            return false;
        },
    }
    match (&a.extract_variables, &b.extract_variables) {
        (Option::Some(xs), Option::Some(ys)) => {
            if xs.len() != ys.len() {
                proof {
                    assert(a@.extract_variables->0.len() != b@.extract_variables->0.len());
                }
                return false;
            }
            let mut k: usize = 0;
            while k < xs.len()
                invariant
                    k <= xs@.len(),
                    xs@.len() == ys@.len(),
                    a.extract_variables matches Option::Some(xs2) && xs2 == *xs,
                    b.extract_variables matches Option::Some(ys2) && ys2 == *ys,
                    forall|m: int| 0 <= m < k ==> xs@[m]@ == ys@[m]@,
                decreases xs@.len() - k,
            {
                if !(xs[k].key_path == ys[k].key_path) || !(xs[k].variable_name
                    == ys[k].variable_name) {
                    proof {
                        assert(a@.extract_variables->0[k as int] != b@.extract_variables->0[
                            k as int]);
                    }
                    return false;
                }
                k = k + 1;
            }
            proof {
                assert(a@.extract_variables->0 =~= b@.extract_variables->0);
            }
        },
        (Option::None, Option::None) => {},
        _ => {
            return false;
        },
    }
    proof {
        assert(a@ =~= b@);
    }
    true
}

} // verus!
