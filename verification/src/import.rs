//! The OpenAPI importer: the base URL of a specification location, the
//! mapping from a document's paths and operations to saved requests, and the
//! merge that adds only structurally new requests to the store.

use vstd::prelude::*;
use crate::structs::{Method, HttpRequest, ReqV, reqs_view, clone_request, request_eq};
use crate::openapi_structs::{OpenAPI, Operation, OperationV, PathItemV, ParamV};
use crate::text::{spec_replace, replace_all, chars_of, push_all, string_from_chars, copy_range};

verus! {

broadcast use vstd::std_specs::vec::group_vec_axioms;

/// The brace-wrapped form of a path parameter's name.
pub open spec fn brace(name: Seq<char>) -> Seq<char> {
    seq!['{'] + name + seq!['}']
}

/// What a parameter's placeholder is replaced with: `1` for a required
/// parameter, `0` otherwise.
pub open spec fn spec_param_value(p: ParamV) -> Seq<char> {
    if p.required == Option::<bool>::Some(true) {
        seq!['1']
    } else {
        seq!['0']
    }
}

/// The URL after substituting every declared parameter, in declaration
/// order.
pub open spec fn spec_apply_params(url: Seq<char>, params: Seq<ParamV>) -> Seq<char>
    decreases params.len(),
{
    if params.len() == 0 {
        url
    } else {
        spec_apply_params(
            spec_replace(url, brace(params[0].name), spec_param_value(params[0])),
            params.drop_first(),
        )
    }
}

/// The request synthesized for one operation under one path.
pub open spec fn spec_synth(base: Seq<char>, path: Seq<char>, op: OperationV, m: Method) -> ReqV {
    ReqV {
        method: m,
        url: spec_apply_params(
            base + path,
            match op.parameters {
                Option::Some(ps) => ps,
                Option::None => Seq::empty(),
            },
        ),
        headers: Seq::empty(),
        body_type: Option::None,
        body: Option::None,
        extract_variables: Option::None,
    }
}

/// The requests synthesized for one path, in the order the operations are
/// visited: get, post, put, delete.
pub open spec fn spec_reqs_of_item(base: Seq<char>, path: Seq<char>, item: PathItemV) -> Seq<
    ReqV,
> {
    (match item.get {
        Option::Some(op) => seq![spec_synth(base, path, op, Method::Get)],
        Option::None => Seq::empty(),
    }) + (match item.post {
        Option::Some(op) => seq![spec_synth(base, path, op, Method::Post)],
        Option::None => Seq::empty(),
    }) + (match item.put {
        Option::Some(op) => seq![spec_synth(base, path, op, Method::Put)],
        Option::None => Seq::empty(),
    }) + (match item.delete {
        Option::Some(op) => seq![spec_synth(base, path, op, Method::Delete)],
        Option::None => Seq::empty(),
    })
}

/// The requests synthesized for a whole document, path by path.
pub open spec fn spec_map_open_api(base: Seq<char>, paths: Seq<(Seq<char>, PathItemV)>) -> Seq<
    ReqV,
>
    decreases paths.len(),
{
    if paths.len() == 0 {
        Seq::empty()
    } else {
        spec_reqs_of_item(base, paths[0].0, paths[0].1) + spec_map_open_api(
            base,
            paths.drop_first(),
        )
    }
}

proof fn lemma_spec_map_push(base: Seq<char>, paths: Seq<(Seq<char>, PathItemV)>, x: (
    Seq<char>,
    PathItemV,
))
    ensures
        spec_map_open_api(base, paths.push(x)) == spec_map_open_api(base, paths)
            + spec_reqs_of_item(base, x.0, x.1),
    decreases paths.len(),
{
    if paths.len() == 0 {
        assert(paths.push(x)[0] == x);
        assert(paths.push(x).drop_first() =~= Seq::<(Seq<char>, PathItemV)>::empty());
        assert(spec_map_open_api(base, Seq::<(Seq<char>, PathItemV)>::empty())
            =~= Seq::<ReqV>::empty());
        assert(spec_map_open_api(base, paths.push(x)) == spec_reqs_of_item(base, x.0, x.1)
            + Seq::<ReqV>::empty());
        assert(spec_map_open_api(base, paths.push(x)) =~= spec_map_open_api(base, paths)
            + spec_reqs_of_item(base, x.0, x.1));
    } else {
        assert(paths.push(x)[0] == paths[0]);
        assert(paths.push(x).drop_first() =~= paths.drop_first().push(x));
        lemma_spec_map_push(base, paths.drop_first(), x);
        assert(spec_map_open_api(base, paths.push(x)) =~= spec_map_open_api(base, paths)
            + spec_reqs_of_item(base, x.0, x.1));
    }
}

/// The pieces of `s` between occurrences of `c`.
pub open spec fn spec_split(s: Seq<char>, c: char) -> Seq<Seq<char>>
    decreases s.len(),
    via spec_split_dec
{
    match crate::text::spec_find(s, seq![c], 0) {
        Option::None => seq![s],
        Option::Some(i) => seq![s.subrange(0, i)] + spec_split(s.skip(i + 1), c),
    }
}

#[via_fn]
proof fn spec_split_dec(s: Seq<char>, c: char) {
    crate::text::lemma_spec_find(s, seq![c], 0);
}

/// The pieces joined back with `c` between them.
pub open spec fn spec_join(parts: Seq<Seq<char>>, c: char) -> Seq<char>
    decreases parts.len(),
{
    if parts.len() == 0 {
        Seq::empty()
    } else if parts.len() == 1 {
        parts[0]
    } else {
        spec_join(parts.drop_last(), c) + seq![c] + parts.last()
    }
}

/// The base URL of a specification location: its first three `/`-delimited
/// pieces joined again, or the whole location when it has fewer.
pub open spec fn spec_base_url(s: Seq<char>) -> Seq<char> {
    let parts = spec_split(s, '/');
    if parts.len() <= 3 {
        spec_join(parts, '/')
    } else {
        spec_join(parts.take(3), '/')
    }
}

/// The views of a vector of character vectors.
pub open spec fn pieces_view(vs: Seq<Vec<char>>) -> Seq<Seq<char>> {
    Seq::new(vs.len(), |i: int| vs[i]@)
}

/// The pieces of `s` between occurrences of `c`, in order.
fn split_chars(s: &Vec<char>, c: char) -> (r: Vec<Vec<char>>)
    ensures
        pieces_view(r@) == spec_split(s@, c),
    decreases s@.len(),
{
    let mut pat: Vec<char> = Vec::new();
    pat.push(c);
    proof {
        assert(pat@ =~= seq![c]);
    }
    match crate::text::find_sub(s, &pat, 0) {
        Option::None => {
            let mut whole: Vec<char> = Vec::new();
            push_all(&mut whole, s);
            proof {
                assert(whole@ =~= s@);
            }
            let mut out: Vec<Vec<char>> = Vec::new();
            out.push(whole);
            proof {
                assert(pieces_view(out@) =~= spec_split(s@, c));
            }
            out
        },
        Option::Some(i) => {
            let head = copy_range(s, 0, i);
            let n = s.len();
            let tail = copy_range(s, i + 1, n);
            proof {
                assert(tail@ =~= s@.skip(i + 1));
            }
            let mut out = split_chars(&tail, c);
            let ghost rest = pieces_view(out@);
            out.insert(0, head);
            proof {
                assert(pieces_view(out@) =~= seq![s@.subrange(0, i as int)] + rest);
            }
            out
        },
    }
}

/// The base URL a specification location implies: the scheme, host, and
/// first path piece of the location, exactly its first three `/`-delimited
/// pieces joined again.
#[verifier::loop_isolation(false)]
pub fn get_base_url(spec_url: &str) -> (r: String)
    ensures
        r@ == spec_base_url(spec_url@),
{
    let cs = chars_of(spec_url);
    let parts = split_chars(&cs, '/');
    let count = if parts.len() > 3 {
        3
    } else {
        parts.len()
    };
    let ghost kept = if pieces_view(parts@).len() <= 3 {
        pieces_view(parts@)
    } else {
        pieces_view(parts@).take(3)
    };
    proof {
        assert(kept.len() == count);
        assert(forall|k: int| 0 <= k < count ==> kept[k] == pieces_view(parts@)[k]);
        assert(spec_split(cs@, '/').len() > 0);
    }
    let mut out: Vec<char> = Vec::new();
    let mut i: usize = 0;
    while i < count
        invariant
            i <= count,
            count <= parts@.len(),
            kept.len() == count,
            forall|k: int| 0 <= k < count ==> kept[k] == pieces_view(parts@)[k],
            out@ == spec_join(kept.take(i as int), '/'),
        decreases count - i,
    {
        if i > 0 {
            out.push('/');
        }
        push_all(&mut out, &parts[i]);
        proof {
            assert(kept.take(i as int + 1).drop_last() =~= kept.take(i as int));
            assert(kept.take(i as int + 1).last() == kept[i as int]);
            assert(out@ =~= spec_join(kept.take(i as int + 1), '/'));
        }
        i = i + 1;
    }
    proof {
        assert(kept.take(count as int) =~= kept);
    }
    string_from_chars(&out)
}

/// The request built for one operation: the base URL joined with the path,
/// each `{name}` placeholder replaced by `1` if that parameter is required
/// and by `0` otherwise; no headers, no body, no extraction rules.
#[verifier::loop_isolation(false)]
fn synth_request(base: &Vec<char>, path: &String, op: &Operation, m: Method) -> (r: HttpRequest)
    ensures
        r@ == spec_synth(base@, path@, op@, m),
{
    let mut url: Vec<char> = Vec::new();
    push_all(&mut url, base);
    let path_chars = chars_of(path.as_str());
    push_all(&mut url, &path_chars);
    proof {
        assert(url@ =~= base@ + path@);
    }
    match &op.parameters {
        Option::None => {},
        Option::Some(ps) => {
            let ghost psv = op@.parameters->0;
            proof {
                assert(psv.skip(0) =~= psv);
            }
            let mut i: usize = 0;
            while i < ps.len()
                invariant
                    i <= ps@.len(),
                    psv == op@.parameters->0,
                    psv.len() == ps@.len(),
                    forall|k: int| 0 <= k < ps@.len() ==> psv[k] == #[trigger] ps@[k]@,
                    spec_apply_params(base@ + path@, psv) == spec_apply_params(
                        url@,
                        psv.skip(i as int),
                    ),
                decreases ps@.len() - i,
            {
                let mut pat: Vec<char> = Vec::new();
                pat.push('{');
                let name_chars = chars_of(ps[i].name.as_str());
                push_all(&mut pat, &name_chars);
                pat.push('}');
                proof {
                    assert(pat@ =~= brace(psv[i as int].name));
                }
                let mut rep: Vec<char> = Vec::new();
                let required = match &ps[i].required {
                    Option::Some(b) => *b,
                    Option::None => false,
                };
                if required {
                    rep.push('1');
                } else {
                    rep.push('0');
                }
                proof {
                    assert(rep@ =~= spec_param_value(psv[i as int]));
                }
                let next = replace_all(&url, &pat, &rep);
                proof {
                    assert(psv.skip(i as int)[0] == psv[i as int]);
                    assert(psv.skip(i as int).drop_first() =~= psv.skip(i as int + 1));
                }
                url = next;
                i = i + 1;
            }
            proof {
                assert(psv.skip(ps@.len() as int) =~= Seq::<ParamV>::empty());
            }
        },
    }
    let r = HttpRequest {
        method: m,
        url: string_from_chars(&url),
        headers: Vec::new(),
        body_type: Option::None,
        body: Option::None,
        extract_variables: Option::None,
    };
    proof {
        assert(r@ =~= spec_synth(base@, path@, op@, m));
    }
    r
}

/// The saved requests synthesized from a document: one request per present
/// operation of every path, paths in document order, operations in the
/// order get, post, put, delete.
#[verifier::loop_isolation(false)]
pub fn map_open_api_spec_to_http_requests(base_url: &str, open_api: &OpenAPI) -> (r: Vec<
    HttpRequest,
>)
    ensures
        reqs_view(r@) == spec_map_open_api(base_url@, open_api@.paths),
{
    let base = chars_of(base_url);
    let mut out: Vec<HttpRequest> = Vec::new();
    let ghost pathsv = open_api@.paths;
    let mut i: usize = 0;
    while i < open_api.paths.len()
        invariant
            i <= open_api.paths@.len(),
            pathsv == open_api@.paths,
            base@ == base_url@,
            reqs_view(out@) == spec_map_open_api(base_url@, pathsv.take(i as int)),
        decreases open_api.paths@.len() - i,
    {
        let ghost out0 = reqs_view(out@);
        let path = &open_api.paths[i].0;
        let item = &open_api.paths[i].1;
        let ghost itemv = pathsv[i as int].1;
        match &item.get {
            Option::Some(op) => {
                let req = synth_request(&base, path, op, Method::Get);
                out.push(req);
            },
            Option::None => {},
        }
        match &item.post {
            Option::Some(op) => {
                let req = synth_request(&base, path, op, Method::Post);
                out.push(req);
            },
            Option::None => {},
        }
        match &item.put {
            Option::Some(op) => {
                let req = synth_request(&base, path, op, Method::Put);
                out.push(req);
            },
            Option::None => {},
        }
        match &item.delete {
            Option::Some(op) => {
                let req = synth_request(&base, path, op, Method::Delete);
                out.push(req);
            },
            Option::None => {},
        }
        proof {
            assert(reqs_view(out@) =~= out0 + spec_reqs_of_item(
                base_url@,
                pathsv[i as int].0,
                itemv,
            ));
            assert(pathsv.take(i as int).push(pathsv[i as int]) =~= pathsv.take(i as int + 1));
            lemma_spec_map_push(base_url@, pathsv.take(i as int), pathsv[i as int]);
        }
        i = i + 1;
    }
    proof {
        assert(pathsv.take(pathsv.len() as int) =~= pathsv);
    }
    out
}

/// Whether the collection holds a structurally identical request.
#[verifier::loop_isolation(false)]
fn contains_request(rs: &Vec<HttpRequest>, x: &HttpRequest) -> (r: bool)
    ensures
        r == reqs_view(rs@).contains(x@),
{
    let mut i: usize = 0;
    while i < rs.len()
        invariant
            i <= rs@.len(),
            forall|k: int| 0 <= k < i ==> reqs_view(rs@)[k] != x@,
        decreases rs@.len() - i,
    {
        if request_eq(&rs[i], x) {
            proof {
                assert(reqs_view(rs@)[i as int] == x@);
            }
            return true;
        }
        i = i + 1;
    }
    proof {
        if reqs_view(rs@).contains(x@) {
            let k = choose|k: int| 0 <= k < reqs_view(rs@).len() && reqs_view(rs@)[k] == x@;
            assert(false);
        }
    }
    false
}

/// An imported request as it is appended to the store: the same request
/// with its extraction rules dropped.
pub open spec fn norm(rv: ReqV) -> ReqV {
    ReqV { extract_variables: Option::None, ..rv }
}

/// The store after an import: each imported request is appended, without
/// extraction rules, unless a structurally identical request is already
/// present in the collection grown so far.
pub open spec fn spec_merge(acc: Seq<ReqV>, imp: Seq<ReqV>) -> Seq<ReqV>
    decreases imp.len(),
{
    if imp.len() == 0 {
        acc
    } else {
        spec_merge(
            if acc.contains(imp[0]) {
                acc
            } else {
                acc.push(norm(imp[0]))
            },
            imp.drop_first(),
        )
    }
}

/// The merged collection: the saved requests followed by the structurally
/// new imported ones.
#[verifier::loop_isolation(false)]
pub fn merge_requests(saved_requests: &Vec<HttpRequest>, imported_requests: &Vec<HttpRequest>) -> (r:
    Vec<HttpRequest>)
    ensures
        reqs_view(r@) == spec_merge(reqs_view(saved_requests@), reqs_view(imported_requests@)),
{
    let mut merged: Vec<HttpRequest> = Vec::new();
    let mut i: usize = 0;
    while i < saved_requests.len()
        invariant
            i <= saved_requests@.len(),
            merged@.len() == i,
            forall|k: int| 0 <= k < i ==> #[trigger] merged@[k]@ == saved_requests@[k]@,
        decreases saved_requests@.len() - i,
    {
        merged.push(clone_request(&saved_requests[i]));
        i = i + 1;
    }
    proof {
        assert(reqs_view(merged@) =~= reqs_view(saved_requests@));
    }
    let ghost impv = reqs_view(imported_requests@);
    proof {
        assert(impv.skip(0) =~= impv);
    }
    let mut j: usize = 0;
    while j < imported_requests.len()
        invariant
            j <= imported_requests@.len(),
            impv == reqs_view(imported_requests@),
            spec_merge(reqs_view(saved_requests@), impv) == spec_merge(
                reqs_view(merged@),
                impv.skip(j as int),
            ),
        decreases imported_requests@.len() - j,
    {
        let ghost before = reqs_view(merged@);
        let imp = &imported_requests[j];
        proof {
            assert(impv.skip(j as int)[0] == impv[j as int]);
            assert(impv.skip(j as int).drop_first() =~= impv.skip(j as int + 1));
        }
        if !contains_request(&merged, imp) {
            let mut c = clone_request(imp);
            c.extract_variables = Option::None;
            proof {
                assert(c@ =~= norm(impv[j as int]));
            }
            merged.push(c);
            proof {
                assert(reqs_view(merged@) =~= before.push(norm(impv[j as int])));
            }
        }
        j = j + 1;
    }
    proof {
        assert(impv.skip(imported_requests@.len() as int) =~= Seq::<ReqV>::empty());
    }
    merged
}

/// The merged collection keeps the saved requests in place, as a prefix.
proof fn lemma_merge_prefix(acc: Seq<ReqV>, imp: Seq<ReqV>)
    ensures
        acc.len() <= spec_merge(acc, imp).len(),
        forall|k: int| 0 <= k < acc.len() ==> #[trigger] spec_merge(acc, imp)[k] == acc[k],
    decreases imp.len(),
{
    if imp.len() > 0 {
        if acc.contains(imp[0]) {
            lemma_merge_prefix(acc, imp.drop_first());
        } else {
            lemma_merge_prefix(acc.push(norm(imp[0])), imp.drop_first());
        }
    }
}

/// After a merge, every imported request without extraction rules stands in
/// the collection.
proof fn lemma_merge_contains(acc: Seq<ReqV>, imp: Seq<ReqV>)
    requires
        forall|k: int| 0 <= k < imp.len() ==> #[trigger] imp[k].extract_variables is None,
    ensures
        forall|k: int| 0 <= k < imp.len() ==> spec_merge(acc, imp).contains(#[trigger] imp[k]),
    decreases imp.len(),
{
    if imp.len() > 0 {
        assert(norm(imp[0]) =~= imp[0]);
        let acc1 = if acc.contains(imp[0]) {
            acc
        } else {
            acc.push(imp[0])
        };
        assert(acc1.contains(imp[0])) by {
            if !acc.contains(imp[0]) {
                assert(acc1[acc.len() as int] == imp[0]);
            }
        }
        assert(forall|k: int|
            0 <= k < imp.drop_first().len() ==> #[trigger] imp.drop_first()[k] == imp[k + 1]);
        lemma_merge_contains(acc1, imp.drop_first());
        lemma_merge_prefix(acc1, imp.drop_first());
        assert forall|k: int|
            0 <= k < imp.len() implies spec_merge(acc, imp).contains(#[trigger] imp[k]) by {
            if k == 0 {
                let m = choose|m: int| 0 <= m < acc1.len() && acc1[m] == imp[0];
                assert(spec_merge(acc1, imp.drop_first())[m] == imp[0]);
                assert(spec_merge(acc, imp) == spec_merge(acc1, imp.drop_first()));
            } else {
                assert(imp.drop_first()[k - 1] == imp[k]);
            }
        }
    }
}

/// Merging a set the collection already wholly contains changes nothing.
proof fn lemma_merge_saturated(acc: Seq<ReqV>, imp: Seq<ReqV>)
    requires
        forall|k: int| 0 <= k < imp.len() ==> acc.contains(#[trigger] imp[k]),
    ensures
        spec_merge(acc, imp) == acc,
    decreases imp.len(),
{
    if imp.len() > 0 {
        assert(acc.contains(imp[0]));
        assert(forall|k: int|
            0 <= k < imp.drop_first().len() ==> #[trigger] imp.drop_first()[k] == imp[k + 1]);
        lemma_merge_saturated(acc, imp.drop_first());
    }
}

/// Merge deduplication: importing the same synthesized requests a second
/// time leaves the merged collection exactly as it stood after the first
/// import, so in particular its length is unchanged. The premise holds of
/// everything the importer synthesizes: no imported request carries
/// extraction rules.
pub proof fn lemma_merge_idempotent(saved: Seq<ReqV>, imported: Seq<ReqV>)
    requires
        forall|k: int| 0 <= k < imported.len() ==> #[trigger] imported[k].extract_variables
            is None,
    ensures
        spec_merge(spec_merge(saved, imported), imported) == spec_merge(saved, imported),
{
    lemma_merge_contains(saved, imported);
    lemma_merge_saturated(spec_merge(saved, imported), imported);
}

/// Everything the importer synthesizes carries no extraction rules.
pub proof fn lemma_mapped_no_extract_variables(base: Seq<char>, paths: Seq<(Seq<char>, PathItemV)>)
    ensures
        forall|k: int|
            0 <= k < spec_map_open_api(base, paths).len() ==> #[trigger] spec_map_open_api(
                base,
                paths,
            )[k].extract_variables is None,
    decreases paths.len(),
{
    if paths.len() > 0 {
        lemma_mapped_no_extract_variables(base, paths.drop_first());
    }
}

} // verus!
