//! The response handler: classifies a response by its content type, parses
//! JSON bodies, extracts declared variables into the global-variable table,
//! and builds the uniform response record.

use vstd::prelude::*;
use crate::json::{JVal, JsonValue, enc, represents, spec_get, spec_stringify, stringify_json, parse_json_text, wf};
use crate::structs::{HttpRequest, HttpResponse, ExtractVariable, ExVarV, GlobalVariable, GlobalV, globals_view};
use crate::store::{spec_upsert, save_to_global_variables, ParseError};
use crate::text::str_eq;
use crate::utils::{spec_content_type, get_content_type_from_header};

verus! {

broadcast use vstd::std_specs::vec::group_vec_axioms;

/// The views of a vector of strings.
pub open spec fn strings_view(ss: Seq<String>) -> Seq<Seq<char>> {
    Seq::new(ss.len(), |i: int| ss[i]@)
}

/// The media type that makes a body a JSON document.
pub open spec fn app_json() -> Seq<char> {
    seq!['a', 'p', 'p', 'l', 'i', 'c', 'a', 't', 'i', 'o', 'n', '/', 'j', 's', 'o', 'n']
}

/// The global-variable table after applying every extraction rule in order:
/// a rule whose key is found saves the stringified value under the rule's
/// variable name; a missing key changes nothing.
pub open spec fn spec_extract_globals(gs: Seq<GlobalV>, evs: Seq<ExVarV>, obj: JVal) -> Seq<
    GlobalV,
>
    decreases evs.len(),
{
    if evs.len() == 0 {
        gs
    } else {
        spec_extract_globals(
            match spec_get(obj, evs[0].key_path) {
                Option::Some(v) => spec_upsert(gs, evs[0].variable_name, spec_stringify(v)),
                Option::None => gs,
            },
            evs.drop_first(),
            obj,
        )
    }
}

/// The key paths of the rules whose key is absent from the response, in
/// rule order.
pub open spec fn spec_missing_keys(evs: Seq<ExVarV>, obj: JVal) -> Seq<Seq<char>>
    decreases evs.len(),
{
    if evs.len() == 0 {
        Seq::empty()
    } else {
        (if spec_get(obj, evs[0].key_path) is None {
            seq![evs[0].key_path]
        } else {
            Seq::<Seq<char>>::empty()
        }) + spec_missing_keys(evs.drop_first(), obj)
    }
}

/// Applies every extraction rule to the table and reports the keys that
/// were not found.
#[verifier::loop_isolation(false)]
fn extract_variables_into(
    globals: &mut Vec<GlobalVariable>,
    evs: &Vec<ExtractVariable>,
    json: &JsonValue,
) -> (missing: Vec<String>)
    ensures
        globals_view(final(globals)@) == spec_extract_globals(
            globals_view(old(globals)@),
            Seq::new(evs@.len(), |i: int| evs@[i]@),
            json@,
        ),
        strings_view(missing@) == spec_missing_keys(
            Seq::new(evs@.len(), |i: int| evs@[i]@),
            json@,
        ),
{
    let ghost evsv = Seq::new(evs@.len(), |i: int| evs@[i]@);
    let ghost gs0 = globals_view(globals@);
    let ghost obj = json@;
    let mut missing: Vec<String> = Vec::new();
    proof {
        assert(evsv.skip(0) =~= evsv);
    }
    let mut i: usize = 0;
    while i < evs.len()
        invariant
            i <= evs@.len(),
            evsv == Seq::new(evs@.len(), |k: int| evs@[k]@),
            obj == json@,
            spec_extract_globals(gs0, evsv, obj) == spec_extract_globals(
                globals_view(globals@),
                evsv.skip(i as int),
                obj,
            ),
            spec_missing_keys(evsv, obj) == strings_view(missing@) + spec_missing_keys(
                evsv.skip(i as int),
                obj,
            ),
        decreases evs@.len() - i,
    {
        proof {
            assert(evsv.skip(i as int)[0] == evsv[i as int]);
            assert(evsv.skip(i as int).drop_first() =~= evsv.skip(i as int + 1));
        }
        let ghost before = strings_view(missing@);
        match crate::utils::get_json_value(json, evs[i].key_path.as_str()) {
            Option::Some(v) => {
                let sval = stringify_json(v);
                save_to_global_variables(globals, evs[i].variable_name.clone(), sval);
                proof {
                    assert(strings_view(missing@) + spec_missing_keys(evsv.skip(i as int), obj)
                        =~= strings_view(missing@) + (Seq::<Seq<char>>::empty()
                        + spec_missing_keys(evsv.skip(i as int + 1), obj)));
                }
            },
            Option::None => {
                missing.push(evs[i].key_path.clone());
                proof {
                    assert(strings_view(missing@) =~= before.push(evsv[i as int].key_path));
                    assert(before + (seq![evsv[i as int].key_path] + spec_missing_keys(
                        evsv.skip(i as int + 1),
                        obj,
                    )) =~= strings_view(missing@) + spec_missing_keys(evsv.skip(i as int + 1), obj));
                }
            },
        }
        i = i + 1;
    }
    proof {
        assert(evsv.skip(evsv.len() as int) =~= Seq::<ExVarV>::empty());
        assert(strings_view(missing@) + Seq::<Seq<char>>::empty() =~= strings_view(missing@));
    }
    missing
}

/// Whether a `content-type` header value, its parameters dropped, names a
/// JSON document.
pub open spec fn header_is_json(content_type: Option<Seq<char>>) -> bool {
    match content_type {
        Option::Some(ct) => spec_content_type(ct) == app_json(),
        Option::None => false,
    }
}

/// Handles one received response.
///
/// For a JSON response the body is parsed — a malformed body fails the
/// handling — and the request's extraction rules are applied to the
/// global-variable table; the keys not found are reported back, extraction
/// going on past them. A `204` response without a JSON content type is
/// reported bare. Anything else is kept as opaque text. The table is only
/// touched by extraction.
#[verifier::rlimit(30)]
pub fn handle_response(
    req: &HttpRequest,
    status_code: u16,
    content_type: Option<&String>,
    body_text: &str,
    globals: &mut Vec<GlobalVariable>,
) -> (r: Result<(HttpResponse, Vec<String>), ParseError>)
    ensures
        ({
            let ctj = header_is_json(
                match content_type {
                    Option::Some(ct) => Option::Some(ct@),
                    Option::None => Option::None,
                },
            );
            &&& (!ctj ==> r is Ok && globals_view(final(globals)@) == globals_view(old(globals)@))
            &&& (r is Err ==> ctj && globals_view(final(globals)@) == globals_view(old(globals)@))
            &&& (r matches Ok((resp, missing)) ==> {
                &&& resp.method == req.method
                &&& resp@.url == req@.url
                &&& resp.status_code == status_code
                &&& (ctj ==> {
                    &&& resp@.json_data matches Option::Some(j) && wf(j) && represents(
                        body_text@,
                        j,
                    ) && (
                    match req@.extract_variables {
                        Option::Some(evs) => globals_view(final(globals)@) == spec_extract_globals(
                            globals_view(old(globals)@),
                            evs,
                            j,
                        ) && strings_view(missing@) == spec_missing_keys(evs, j),
                        Option::None => globals_view(final(globals)@) == globals_view(
                            old(globals)@,
                        ) && missing@.len() == 0,
                    })
                    &&& resp@.text_data is None
                })
                &&& (!ctj && status_code == 204 ==> resp@.json_data is None && resp@.text_data
                    is None && missing@.len() == 0)
                &&& (!ctj && status_code != 204 ==> resp@.json_data is None && resp@.text_data
                    == Option::Some(body_text@) && missing@.len() == 0)
            })
            &&& (forall|jv: JVal|
                wf(jv) && body_text@ == enc(jv) && ctj ==> (r matches Ok((resp, missing))
                    && resp@.json_data == Option::Some(jv)))
        }),
{
    let is_json = match content_type {
        Option::Some(ct) => {
            let media = get_content_type_from_header(ct.as_str());
            let r = str_eq(media.as_str(), "application/json");
            proof {
                reveal_strlit("application/json");
                assert("application/json"@ =~= app_json());
            }
            r
        },
        Option::None => false,
    };
    if is_json {
        match parse_json_text(body_text) {
            Option::None => Err(ParseError),
            Option::Some(json) => {
                let missing = match &req.extract_variables {
                    Option::Some(evs) => extract_variables_into(globals, evs, &json),
                    Option::None => Vec::new(),
                };
                let resp = HttpResponse {
                    method: req.method,
                    url: req.url.clone(),
                    status_code,
                    json_data: Option::Some(json),
                    text_data: Option::None,
                };
                Ok((resp, missing))
            },
        }
    } else if status_code == 204 {
        let resp = HttpResponse {
            method: req.method,
            url: req.url.clone(),
            status_code,
            json_data: Option::None,
            text_data: Option::None,
        };
        Ok((resp, Vec::new()))
    } else {
        let resp = HttpResponse {
            method: req.method,
            url: req.url.clone(),
            status_code,
            json_data: Option::None,
            text_data: Option::Some(body_text.to_owned()),
        };
        Ok((resp, Vec::new()))
    }
}

} // verus!
