//! Small helpers of the command-line tool: URL scheme normalization,
//! numeric argument checks, content-type splitting, JSON key lookup, and the
//! listing strings printed for saved requests.

use vstd::prelude::*;
use vstd::string::StrSliceExecFns;
use crate::json::{JVal, JsonValue, jv_of, jv_of_members, spec_get, spec_get_member, lemma_jv_of_members_index};
use crate::structs::ExtractVariable;
use crate::structs::ExVarV;
use crate::text::{chars_of, push_all, string_from_chars, find_sub, copy_range, spec_find, str_eq};

verus! {

broadcast use vstd::std_specs::vec::group_vec_axioms;

/// Relies on `dirs::home_dir`: the platform's notion of the user's home
/// directory, converted to a string when it is valid Unicode. The result
/// depends on the environment, so nothing more is promised of it.
#[verifier::external_body]
fn home_dir_string() -> (r: Option<String>) {
    dirs::home_dir().and_then(|p| p.to_str().map(|s| s.to_string()))
}

/// The user's home directory, or the empty string when the platform names
/// none.
pub fn get_home_path() -> (r: String) {
    match home_dir_string() {
        Option::Some(s) => s,
        Option::None => String::new(),
    }
}

/// The location of the saved-requests file under a given home directory.
pub fn requests_file_path_in(home: &str) -> (r: String)
    ensures
        r@ == home@ + "/.xhtp/requests.json"@,
{
    let mut p = home.to_owned();
    p.append("/.xhtp/requests.json");
    p
}

/// The location of the global-variables file under a given home directory.
pub fn global_variables_file_path_in(home: &str) -> (r: String)
    ensures
        r@ == home@ + "/.xhtp/global_variables.json"@,
{
    let mut p = home.to_owned();
    p.append("/.xhtp/global_variables.json");
    p
}

/// The location of the saved-requests file: `.xhtp/requests.json` under the
/// user's home directory.
pub fn get_http_requests_file_path() -> (r: String)
    ensures
        exists|h: Seq<char>| r@ == h + "/.xhtp/requests.json"@,
{
    let home = get_home_path();
    let r = requests_file_path_in(home.as_str());
    proof {
        assert(r@ == home@ + "/.xhtp/requests.json"@);
    }
    r
}

/// The location of the global-variables file: `.xhtp/global_variables.json`
/// under the user's home directory.
pub fn get_global_variables_file_path() -> (r: String)
    ensures
        exists|h: Seq<char>| r@ == h + "/.xhtp/global_variables.json"@,
{
    let home = get_home_path();
    let r = global_variables_file_path_in(home.as_str());
    proof {
        assert(r@ == home@ + "/.xhtp/global_variables.json"@);
    }
    r
}

/// Whether the string begins with the four characters of `http`.
pub open spec fn starts_with_http(s: Seq<char>) -> bool {
    s.len() >= 4 && s.subrange(0, 4) == seq!['h', 't', 't', 'p']
}

/// The scheme-normalized form of a URL: unchanged when it already starts
/// with `http`, prefixed with `https://` otherwise.
pub open spec fn spec_with_https(s: Seq<char>) -> Seq<char> {
    if starts_with_http(s) {
        s
    } else {
        seq!['h', 't', 't', 'p', 's', ':', '/', '/'] + s
    }
}

/// The URL to dispatch to: `url` itself if it already names an `http`
/// scheme, else `https://` put in front of it.
pub fn get_url_with_https(url: &str) -> (r: String)
    ensures
        r@ == spec_with_https(url@),
{
    let n = url.unicode_len();
    if n >= 4 && url.get_char(0) == 'h' && url.get_char(1) == 't' && url.get_char(2) == 't'
        && url.get_char(3) == 'p' {
        proof {
            assert(url@.subrange(0, 4) =~= seq!['h', 't', 't', 'p']);
        }
        url.to_owned()
    } else {
        proof {
            if starts_with_http(url@) {
                assert(url@.subrange(0, 4)[0] == url@[0]);
                assert(url@.subrange(0, 4)[1] == url@[1]);
                assert(url@.subrange(0, 4)[2] == url@[2]);
                assert(url@.subrange(0, 4)[3] == url@[3]);
            }
        }
        let mut r = String::from_str("https://");
        r.append(url);
        proof {
            reveal_strlit("https://");
            assert(r@ =~= spec_with_https(url@));
        }
        r
    }
}

/// A decimal digit.
pub open spec fn is_digit(c: char) -> bool {
    '0' <= c && c <= '9'
}

/// The number a digit string denotes.
pub open spec fn digits_val(s: Seq<char>) -> nat
    decreases s.len(),
{
    if s.len() == 0 {
        0
    } else {
        (digits_val(s.drop_last()) * 10 + (s.last() as int - '0' as int)) as nat
    }
}

/// The digits of a numeric token, the optional leading sign stripped.
pub open spec fn sign_body(s: Seq<char>) -> Seq<char> {
    if s.len() > 0 && (s[0] == '+' || s[0] == '-') {
        s.drop_first()
    } else {
        s
    }
}

/// Whether the token is a decimal integer that fits a 32-bit signed number:
/// an optional sign followed by at least one digit, its value within range.
pub open spec fn spec_is_i32_literal(s: Seq<char>) -> bool {
    &&& sign_body(s).len() > 0
    &&& forall|i: int| 0 <= i < sign_body(s).len() ==> is_digit(#[trigger] sign_body(s)[i])
    &&& digits_val(sign_body(s)) <= (if s.len() > 0 && s[0] == '-' {
        0x8000_0000int
    } else {
        0x7fff_ffffint
    })
}

/// Whether the token is a decimal integer that fits `usize`: an optional
/// `+` followed by at least one digit, its value within range.
pub open spec fn spec_is_usize_literal(s: Seq<char>) -> bool {
    &&& s.len() > 0
    &&& s[0] != '-'
    &&& sign_body(s).len() > 0
    &&& forall|i: int| 0 <= i < sign_body(s).len() ==> is_digit(#[trigger] sign_body(s)[i])
    &&& digits_val(sign_body(s)) <= usize::MAX
}

/// A longer digit string never denotes a smaller number.
proof fn lemma_digits_val_take_le(s: Seq<char>, i: int)
    requires
        0 <= i <= s.len(),
        forall|k: int| 0 <= k < s.len() ==> is_digit(#[trigger] s[k]),
    ensures
        digits_val(s.take(i)) <= digits_val(s),
    decreases s.len() - i,
{
    if i < s.len() {
        lemma_digits_val_take_le(s, i + 1);
        assert(s.take(i + 1).drop_last() =~= s.take(i));
        assert(s.take(i + 1).last() == s[i]);
        assert(is_digit(s[i]));
        assert(digits_val(s.take(i + 1)) == digits_val(s.take(i)) * 10 + (s[i] as int
            - '0' as int));
    } else {
        assert(s.take(i) =~= s);
    }
}

/// Scans the digits of `s` from position `from`, computing their value
/// saturated at 2^32, and telling whether every remaining character is a
/// digit.
#[verifier::loop_isolation(false)]
fn scan_digits(s: &Vec<char>, from: usize) -> (r: (bool, u64))
    requires
        from <= s@.len(),
    ensures
        r.0 == (s@.len() - from > 0 && forall|i: int|
            from <= i < s@.len() ==> is_digit(#[trigger] s@[i])),
        r.0 ==> {
            let v = digits_val(s@.skip(from as int));
            &&& v < 0x1_0000_0000 ==> r.1 == v
            &&& v >= 0x1_0000_0000 ==> r.1 == 0x1_0000_0000u64
        },
{
    let mut i = from;
    let mut acc: u64 = 0;
    while i < s.len()
        invariant
            from <= i <= s@.len(),
            forall|k: int| from <= k < i ==> is_digit(#[trigger] s@[k]),
            digits_val(s@.skip(from as int).take(i - from)) < 0x1_0000_0000 ==> acc == digits_val(
                s@.skip(from as int).take(i - from),
            ),
            digits_val(s@.skip(from as int).take(i - from)) >= 0x1_0000_0000 ==> acc
                == 0x1_0000_0000u64,
            acc <= 0x1_0000_0000u64,
        decreases s@.len() - i,
    {
        let c = s[i];
        if !('0' <= c && c <= '9') {
            return (false, 0);
        }
        let d: u64 = (c as u32 as u64) - ('0' as u32 as u64);
        proof {
            let pfx = s@.skip(from as int).take(i - from);
            assert(pfx.push(s@[i as int]) =~= s@.skip(from as int).take(i - from + 1));
            assert(pfx.push(s@[i as int]).drop_last() =~= pfx);
            assert(pfx.push(s@[i as int]).last() == s@[i as int]);
            assert(is_digit(s@[i as int]));
            assert(digits_val(pfx.push(s@[i as int])) == digits_val(pfx) * 10 + d);
        }
        if acc >= 0x1_0000_0000 || acc * 10 + d >= 0x1_0000_0000 {
            acc = 0x1_0000_0000;
        } else {
            acc = acc * 10 + d;
        }
        i = i + 1;
    }
    proof {
        assert(s@.skip(from as int).take(s@.len() - from) =~= s@.skip(from as int));
    }
    if i == from {
        (false, 0)
    } else {
        (true, acc)
    }
}

/// Whether the token parses as a 32-bit signed decimal integer.
pub fn arg_is_number(option: &str) -> (r: bool)
    ensures
        r == spec_is_i32_literal(option@),
{
    let cs = chars_of(option);
    if cs.len() == 0 {
        return false;
    }
    let c0 = cs[0];
    let neg = c0 == '-';
    let from: usize = if c0 == '+' || c0 == '-' {
        1
    } else {
        0
    };
    proof {
        if from == 1 {
            assert(sign_body(option@) =~= option@.skip(1));
        } else {
            assert(sign_body(option@) =~= option@.skip(0));
        }
    }
    let bound: u64 = if neg {
        0x8000_0000
    } else {
        0x7fff_ffff
    };
    let (all_digits, val) = scan_digits(&cs, from);
    let ok = all_digits && val <= bound;
    proof {
        let body = sign_body(option@);
        assert(body =~= cs@.skip(from as int));
        assert forall|i: int| 0 <= i < body.len() implies (is_digit(#[trigger] body[i])
            <==> is_digit(cs@[i + from])) by {
            assert(body[i] == cs@[i + from]);
        }
        if all_digits {
            assert(forall|i: int| 0 <= i < body.len() ==> is_digit(#[trigger] body[i]));
        } else {
            if body.len() > 0 && (forall|i: int|
                0 <= i < body.len() ==> is_digit(#[trigger] body[i])) {
                assert forall|k: int| from <= k < cs@.len() implies is_digit(
                    #[trigger] cs@[k],
                ) by {
                    assert(body[k - from] == cs@[k]);
                }
                assert(false);
            }
        }
    }
    ok
}

/// The number a numeric token denotes. The token must be a decimal integer
/// within the range of `usize`.
#[verifier::loop_isolation(false)]
pub fn convert_option_to_number(option: &str) -> (r: usize)
    requires
        spec_is_usize_literal(option@),
    ensures
        r == digits_val(sign_body(option@)),
{
    let cs = chars_of(option);
    let c0 = cs[0];
    let from: usize = if c0 == '+' {
        1
    } else {
        0
    };
    let ghost body = cs@.skip(from as int);
    proof {
        assert(sign_body(option@) =~= body);
    }
    let mut i = from;
    let mut acc: u64 = 0;
    while i < cs.len()
        invariant
            from <= i <= cs@.len(),
            body == cs@.skip(from as int),
            acc == digits_val(body.take(i - from)),
        decreases cs@.len() - i,
    {
        let c = cs[i];
        proof {
            assert(body[i - from] == cs@[i as int]);
            assert(is_digit(cs@[i as int]));
            let pfx = body.take(i - from);
            assert(pfx.push(cs@[i as int]) =~= body.take(i - from + 1));
            assert(pfx.push(cs@[i as int]).drop_last() =~= pfx);
            assert(pfx.push(cs@[i as int]).last() == cs@[i as int]);
            lemma_digits_val_take_le(body, i - from + 1);
            assert(digits_val(body.take(i - from + 1)) <= digits_val(body));
            assert(digits_val(body) <= usize::MAX);
            assert(digits_val(body.take(i - from + 1)) == digits_val(body.take(i - from)) * 10 + (
            cs@[i as int] as int - '0' as int));
        }
        let d: u64 = (c as u32 as u64) - ('0' as u32 as u64);
        proof {
            assert(d == cs@[i as int] as int - '0' as int);
            assert(acc * 10 + d <= usize::MAX);
        }
        acc = acc * 10 + d;
        i = i + 1;
    }
    proof {
        assert(body.take(cs@.len() - from) =~= body);
        assert(acc <= usize::MAX);
    }
    acc as usize
}

/// Whether a numeric token is nonnegative: a 32-bit decimal integer without
/// a leading minus.
pub open spec fn spec_is_index_literal(s: Seq<char>) -> bool {
    spec_is_i32_literal(s) && s[0] != '-'
}

/// A nonnegative 32-bit decimal token always fits `usize`.
pub proof fn lemma_index_literal_is_usize(s: Seq<char>)
    requires
        spec_is_index_literal(s),
    ensures
        spec_is_usize_literal(s),
{
}

/// The number a nonnegative numeric token denotes, or nothing when the
/// token is not one.
pub fn parse_small_index(option: &str) -> (r: Option<usize>)
    ensures
        match r {
            Option::Some(n) => spec_is_index_literal(option@) && n == digits_val(
                sign_body(option@),
            ),
            Option::None => !spec_is_index_literal(option@),
        },
{
    if !arg_is_number(option) {
        return Option::None;
    }
    let cs = chars_of(option);
    if cs[0] == '-' {
        return Option::None;
    }
    proof {
        lemma_index_literal_is_usize(option@);
    }
    Option::Some(convert_option_to_number(option))
}

/// The media type named by a `content-type` header value: everything before
/// the first `;`, or the whole value when it has no parameters.
pub open spec fn spec_content_type(s: Seq<char>) -> Seq<char> {
    match spec_find(s, seq![';'], 0) {
        Option::Some(i) => s.subrange(0, i),
        Option::None => s,
    }
}

/// The media type of a `content-type` header value, its parameters after
/// `;` dropped.
pub fn get_content_type_from_header(value: &str) -> (r: String)
    ensures
        r@ == spec_content_type(value@),
{
    let cs = chars_of(value);
    let mut pat: Vec<char> = Vec::new();
    pat.push(';');
    proof {
        assert(pat@ =~= seq![';']);
    }
    match find_sub(&cs, &pat, 0) {
        Option::Some(i) => {
            let cut = copy_range(&cs, 0, i);
            string_from_chars(&cut)
        },
        Option::None => value.to_owned(),
    }
}

/// Looking under a key starts at the first member not yet ruled out.
proof fn lemma_spec_get_member_skip(fs: Seq<(Seq<char>, JVal)>, k: Seq<char>, i: int)
    requires
        0 <= i <= fs.len(),
        forall|m: int| 0 <= m < i ==> #[trigger] fs[m].0 != k,
    ensures
        spec_get_member(fs, k) == spec_get_member(fs.skip(i), k),
    decreases i,
{
    if i > 0 {
        lemma_spec_get_member_skip(fs, k, i - 1);
        let t = fs.skip(i - 1);
        assert(t[0] == fs[i - 1]);
        assert(t.drop_first() =~= fs.skip(i));
    } else {
        assert(fs.skip(0) =~= fs);
    }
}

/// The value stored under a top-level key of a JSON object, by first match;
/// nothing for a missing key or for a value that is not an object.
#[verifier::loop_isolation(false)]
pub fn get_json_value<'a>(json: &'a JsonValue, key: &str) -> (r: Option<&'a JsonValue>)
    ensures
        match r {
            Option::Some(v) => spec_get(json@, key@) == Option::Some(v@),
            Option::None => spec_get(json@, key@) is None,
        },
{
    let ms = match json {
        JsonValue::Obj(ms) => ms,
        _ => {
            return Option::None;
        },
    };
    proof {
        lemma_jv_of_members_index(ms@);
    }
    let ghost msv = jv_of_members(ms@);
    let mut i: usize = 0;
    while i < ms.len()
        invariant
            i <= ms@.len(),
            msv == jv_of_members(ms@),
            forall|m: int| 0 <= m < i ==> #[trigger] msv[m].0 != key@,
        decreases ms@.len() - i,
    {
        if str_eq(ms[i].0.as_str(), key) {
            proof {
                lemma_spec_get_member_skip(msv, key@, i as int);
                assert(msv.skip(i as int)[0] == msv[i as int]);
            }
            return Option::Some(&ms[i].1);
        }
        i = i + 1;
    }
    proof {
        lemma_spec_get_member_skip(msv, key@, ms@.len() as int);
        assert(msv.skip(msv.len() as int).len() == 0);
    }
    Option::None
}

/// The escape that paints text green on an ANSI terminal.
pub open spec fn ansi_green() -> Seq<char> {
    seq!['\u{1b}', '[', '3', '2', 'm']
}

/// The escape that paints text yellow.
pub open spec fn ansi_yellow() -> Seq<char> {
    seq!['\u{1b}', '[', '3', '3', 'm']
}

/// The escape that paints text blue.
pub open spec fn ansi_blue() -> Seq<char> {
    seq!['\u{1b}', '[', '3', '4', 'm']
}

/// The escape that paints text red.
pub open spec fn ansi_red() -> Seq<char> {
    seq!['\u{1b}', '[', '3', '1', 'm']
}

/// The escape that restores the terminal's default color.
pub open spec fn ansi_reset() -> Seq<char> {
    seq!['\u{1b}', '[', '0', 'm']
}

/// The colored form of a method name: green for GET, yellow for POST, blue
/// for PUT, red for DELETE, anything else unchanged.
pub open spec fn spec_colored_method(m: Seq<char>) -> Seq<char> {
    if m == seq!['G', 'E', 'T'] {
        ansi_green() + m + ansi_reset()
    } else if m == seq!['P', 'O', 'S', 'T'] {
        ansi_yellow() + m + ansi_reset()
    } else if m == seq!['P', 'U', 'T'] {
        ansi_blue() + m + ansi_reset()
    } else if m == seq!['D', 'E', 'L', 'E', 'T', 'E'] {
        ansi_red() + m + ansi_reset()
    } else {
        m
    }
}

/// The method name wrapped in the ANSI color the listing uses for it.
pub fn get_ansi_colored_request_method(method: &str) -> (r: String)
    ensures
        r@ == spec_colored_method(method@),
{
    proof {
        reveal_strlit("GET");
        reveal_strlit("POST");
        reveal_strlit("PUT");
        reveal_strlit("DELETE");
        assert("GET"@ =~= seq!['G', 'E', 'T']);
        assert("POST"@ =~= seq!['P', 'O', 'S', 'T']);
        assert("PUT"@ =~= seq!['P', 'U', 'T']);
        assert("DELETE"@ =~= seq!['D', 'E', 'L', 'E', 'T', 'E']);
    }
    if str_eq(method, "GET") {
        let mut r = String::from_str("\u{1b}[32m");
        r.append(method);
        r.append("\u{1b}[0m");
        proof {
            reveal_strlit("\u{1b}[32m");
            reveal_strlit("\u{1b}[0m");
            assert(r@ =~= spec_colored_method(method@));
        }
        r
    } else if str_eq(method, "POST") {
        let mut r = String::from_str("\u{1b}[33m");
        r.append(method);
        r.append("\u{1b}[0m");
        proof {
            reveal_strlit("\u{1b}[33m");
            reveal_strlit("\u{1b}[0m");
            assert(r@ =~= spec_colored_method(method@));
        }
        r
    } else if str_eq(method, "PUT") {
        let mut r = String::from_str("\u{1b}[34m");
        r.append(method);
        r.append("\u{1b}[0m");
        proof {
            reveal_strlit("\u{1b}[34m");
            reveal_strlit("\u{1b}[0m");
            assert(r@ =~= spec_colored_method(method@));
        }
        r
    } else if str_eq(method, "DELETE") {
        let mut r = String::from_str("\u{1b}[31m");
        r.append(method);
        r.append("\u{1b}[0m");
        proof {
            reveal_strlit("\u{1b}[31m");
            reveal_strlit("\u{1b}[0m");
            assert(r@ =~= spec_colored_method(method@));
        }
        r
    } else {
        method.to_owned()
    }
}

/// One entry of the extraction listing: `key -> {{name}}`.
pub open spec fn spec_ev_entry(ev: ExVarV) -> Seq<char> {
    ev.key_path + seq![' ', '-', '>', ' ', '{', '{'] + ev.variable_name + seq!['}', '}']
}

/// The listing of extraction rules, comma separated.
pub open spec fn spec_ev_join(evs: Seq<ExVarV>) -> Seq<char>
    decreases evs.len(),
{
    if evs.len() == 0 {
        Seq::empty()
    } else if evs.len() == 1 {
        spec_ev_entry(evs[0])
    } else {
        spec_ev_join(evs.drop_last()) + seq![',', ' '] + spec_ev_entry(evs.last())
    }
}

/// The listing printed for a request's extraction rules: empty when there
/// are none, else the `key -> {{name}}` entries joined by commas.
#[verifier::loop_isolation(false)]
pub fn get_extract_variables_list(extract_variables: &Option<Vec<ExtractVariable>>) -> (r: String)
    ensures
        r@ == (match extract_variables {
            Option::Some(evs) => spec_ev_join(Seq::new(evs@.len(), |i: int| evs@[i]@)),
            Option::None => Seq::<char>::empty(),
        }),
{
    let evs = match extract_variables {
        Option::Some(evs) => evs,
        Option::None => {
            let r = String::new();
            return r;
        },
    };
    let ghost evsv = Seq::new(evs@.len(), |i: int| evs@[i]@);
    let mut out: Vec<char> = Vec::new();
    let mut i: usize = 0;
    while i < evs.len()
        invariant
            i <= evs@.len(),
            evsv == Seq::new(evs@.len(), |k: int| evs@[k]@),
            out@ == spec_ev_join(evsv.take(i as int)),
        decreases evs@.len() - i,
    {
        if i > 0 {
            out.push(',');
            out.push(' ');
        }
        let kp = chars_of(evs[i].key_path.as_str());
        push_all(&mut out, &kp);
        out.push(' ');
        out.push('-');
        out.push('>');
        out.push(' ');
        out.push('{');
        out.push('{');
        let vn = chars_of(evs[i].variable_name.as_str());
        push_all(&mut out, &vn);
        out.push('}');
        out.push('}');
        proof {
            assert(evsv.take(i as int + 1).drop_last() =~= evsv.take(i as int));
            assert(evsv.take(i as int + 1).last() == evsv[i as int]);
            assert(out@ =~= spec_ev_join(evsv.take(i as int + 1)));
        }
        i = i + 1;
    }
    proof {
        assert(evsv.take(evsv.len() as int) =~= evsv);
    }
    string_from_chars(&out)
}

} // verus!
