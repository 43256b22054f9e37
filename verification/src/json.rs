//! A small JSON model with a canonical encoder and a parser, used for the
//! on-disk request store, for response bodies, and for OpenAPI documents.
//!
//! Numbers are kept as their raw lexemes (a sequence of characters), so a
//! document round-trips without any floating-point arithmetic.

use vstd::prelude::*;

verus! {

broadcast use vstd::std_specs::vec::group_vec_axioms;

/// The mathematical model of a JSON value.
#[verifier::ext_equal]
pub enum JVal {
    Null,
    Bool(bool),
    /// A number, kept as its raw lexeme.
    Num(Seq<char>),
    Str(Seq<char>),
    Arr(Seq<JVal>),
    Obj(Seq<(Seq<char>, JVal)>),
}

/// An in-memory JSON value.
pub enum JsonValue {
    Null,
    Bool(bool),
    /// A number, kept as its raw lexeme.
    Num(Vec<char>),
    Str(String),
    Arr(Vec<JsonValue>),
    Obj(Vec<(String, JsonValue)>),
}

/// The model of an in-memory JSON value.
pub open spec fn jv_of(v: JsonValue) -> JVal
    decreases v,
    via jv_of_dec
{
    match v {
        JsonValue::Null => JVal::Null,
        JsonValue::Bool(b) => JVal::Bool(b),
        JsonValue::Num(l) => JVal::Num(l@),
        JsonValue::Str(s) => JVal::Str(s@),
        JsonValue::Arr(es) => JVal::Arr(jv_of_elems(es@)),
        JsonValue::Obj(fs) => JVal::Obj(jv_of_members(fs@)),
    }
}

/// The models of a sequence of JSON values.
pub open spec fn jv_of_elems(es: Seq<JsonValue>) -> Seq<JVal>
    decreases es,
{
    if es.len() == 0 {
        Seq::empty()
    } else {
        seq![jv_of(es[0])] + jv_of_elems(es.drop_first())
    }
}

/// The models of a sequence of object members.
pub open spec fn jv_of_members(fs: Seq<(String, JsonValue)>) -> Seq<(Seq<char>, JVal)>
    decreases fs,
    via jv_of_members_dec
{
    if fs.len() == 0 {
        Seq::empty()
    } else {
        seq![(fs[0].0@, jv_of(fs[0].1))] + jv_of_members(fs.drop_first())
    }
}

#[via_fn]
proof fn jv_of_dec(v: JsonValue) {
    match v {
        JsonValue::Arr(es) => {
            assert(decreases_to!(v => es));
            assert(decreases_to!(es => es@));
        },
        JsonValue::Obj(fs) => {
            assert(decreases_to!(v => fs));
            assert(decreases_to!(fs => fs@));
        },
        _ => {},
    }
}

#[via_fn]
proof fn jv_of_members_dec(fs: Seq<(String, JsonValue)>) {
    if fs.len() > 0 {
        assert(decreases_to!(fs => fs[0]));
        assert(decreases_to!(fs[0] => fs[0].1));
    }
}

impl View for JsonValue {
    type V = JVal;

    open spec fn view(&self) -> JVal {
        jv_of(*self)
    }
}

/// A control character, which JSON requires to be escaped inside a string.
pub open spec fn is_ctl(c: char) -> bool {
    (c as int) < 0x20
}

/// A character the encoder writes with a two-character escape.
pub open spec fn is_named_escape(c: char) -> bool {
    c == '"' || c == '\\' || c == '\n' || c == '\r' || c == '\t'
}

/// The hexadecimal digit for a value below sixteen.
pub open spec fn hex_digit(n: int) -> char {
    if n == 0 {
        '0'
    } else if n == 1 {
        '1'
    } else if n == 2 {
        '2'
    } else if n == 3 {
        '3'
    } else if n == 4 {
        '4'
    } else if n == 5 {
        '5'
    } else if n == 6 {
        '6'
    } else if n == 7 {
        '7'
    } else if n == 8 {
        '8'
    } else if n == 9 {
        '9'
    } else if n == 10 {
        'a'
    } else if n == 11 {
        'b'
    } else if n == 12 {
        'c'
    } else if n == 13 {
        'd'
    } else if n == 14 {
        'e'
    } else {
        'f'
    }
}

/// A hexadecimal digit, in either case.
pub open spec fn is_hex(c: char) -> bool {
    ('0' <= c && c <= '9') || ('a' <= c && c <= 'f') || ('A' <= c && c <= 'F')
}

/// The value of a hexadecimal digit.
pub open spec fn hexv(c: char) -> int {
    if '0' <= c && c <= '9' {
        c as int - '0' as int
    } else if 'a' <= c && c <= 'f' {
        c as int - 'a' as int + 10
    } else {
        c as int - 'A' as int + 10
    }
}

/// The value of four hexadecimal digits.
pub open spec fn hexv4(a: char, b: char, c: char, d: char) -> int {
    ((hexv(a) * 16 + hexv(b)) * 16 + hexv(c)) * 16 + hexv(d)
}

/// The escape sequence the encoder writes for one character inside a
/// string: a two-character escape for the quote, the backslash, and the
/// three common control characters; a `\u00XX` escape for every other
/// control character; the character itself otherwise.
pub open spec fn esc_char(c: char) -> Seq<char> {
    if c == '"' {
        seq!['\\', '"']
    } else if c == '\\' {
        seq!['\\', '\\']
    } else if c == '\n' {
        seq!['\\', 'n']
    } else if c == '\r' {
        seq!['\\', 'r']
    } else if c == '\t' {
        seq!['\\', 't']
    } else if is_ctl(c) {
        seq!['\\', 'u', '0', '0', hex_digit(c as int / 16), hex_digit(c as int % 16)]
    } else {
        seq![c]
    }
}

/// The escaped form of a whole string body.
pub open spec fn esc(s: Seq<char>) -> Seq<char>
    decreases s.len(),
{
    if s.len() == 0 {
        Seq::empty()
    } else {
        esc_char(s[0]) + esc(s.drop_first())
    }
}

/// The canonical encoding of a string value, quotes included.
pub open spec fn enc_str(s: Seq<char>) -> Seq<char> {
    seq!['"'] + esc(s) + seq!['"']
}

/// The canonical (whitespace-free) encoding of a JSON value.
pub open spec fn enc(v: JVal) -> Seq<char>
    decreases v,
{
    match v {
        JVal::Null => seq!['n', 'u', 'l', 'l'],
        JVal::Bool(b) => if b {
            seq!['t', 'r', 'u', 'e']
        } else {
            seq!['f', 'a', 'l', 's', 'e']
        },
        JVal::Num(l) => l,
        JVal::Str(s) => enc_str(s),
        JVal::Arr(es) => seq!['['] + enc_elems(es) + seq![']'],
        JVal::Obj(fs) => seq!['{'] + enc_members(fs) + seq!['}'],
    }
}

/// The comma-separated encodings of array elements.
pub open spec fn enc_elems(es: Seq<JVal>) -> Seq<char>
    decreases es,
{
    if es.len() == 0 {
        Seq::empty()
    } else if es.len() == 1 {
        enc(es[0])
    } else {
        enc(es[0]) + seq![','] + enc_elems(es.drop_first())
    }
}

/// The comma-separated encodings of object members.
pub open spec fn enc_members(fs: Seq<(Seq<char>, JVal)>) -> Seq<char>
    decreases fs,
{
    if fs.len() == 0 {
        Seq::empty()
    } else if fs.len() == 1 {
        enc_str(fs[0].0) + seq![':'] + enc(fs[0].1)
    } else {
        enc_str(fs[0].0) + seq![':'] + enc(fs[0].1) + seq![','] + enc_members(fs.drop_first())
    }
}

/// Characters that may occur in a number lexeme.
pub open spec fn num_char(c: char) -> bool {
    ('0' <= c && c <= '9') || c == '-' || c == '+' || c == '.' || c == 'e' || c == 'E'
}

/// A well-formed number lexeme: nonempty, made of number characters, and
/// starting the way a JSON number may start.
pub open spec fn wf_num(l: Seq<char>) -> bool {
    &&& l.len() > 0
    &&& forall|i: int| 0 <= i < l.len() ==> num_char(#[trigger] l[i])
    &&& (('0' <= l[0] && l[0] <= '9') || l[0] == '-')
}

/// Well-formedness of a JSON value: every number lexeme in it is well formed.
pub open spec fn wf(v: JVal) -> bool
    decreases v,
{
    match v {
        JVal::Null => true,
        JVal::Bool(_) => true,
        JVal::Num(l) => wf_num(l),
        JVal::Str(_) => true,
        JVal::Arr(es) => forall|i: int| 0 <= i < es.len() ==> wf(#[trigger] es[i]),
        JVal::Obj(fs) => forall|i: int| 0 <= i < fs.len() ==> wf(#[trigger] fs[i].1),
    }
}

/// Well-formedness of an array value, seen on its elements.
pub proof fn lemma_wf_arr(es: Seq<JVal>)
    requires
        wf(JVal::Arr(es)),
    ensures
        forall|k: int| 0 <= k < es.len() ==> wf(#[trigger] es[k]),
{
    let v = JVal::Arr(es);
    assert(wf(v));
    assert(v->Arr_0 == es);
}

/// Well-formedness of an object value, seen on its member values.
pub proof fn lemma_wf_obj(fs: Seq<(Seq<char>, JVal)>)
    requires
        wf(JVal::Obj(fs)),
    ensures
        forall|k: int| 0 <= k < fs.len() ==> wf(#[trigger] fs[k].1),
{
    let v = JVal::Obj(fs);
    assert(wf(v));
    assert(v->Obj_0 == fs);
}

pub proof fn lemma_jv_of_elems_push(es: Seq<JsonValue>, x: JsonValue)
    ensures
        jv_of_elems(es.push(x)) == jv_of_elems(es).push(jv_of(x)),
    decreases es.len(),
{
    if es.len() == 0 {
        assert(es.push(x)[0] == x);
        assert(es.push(x).drop_first() =~= Seq::<JsonValue>::empty());
        assert(jv_of_elems(es.push(x)) == seq![jv_of(x)] + jv_of_elems(Seq::<JsonValue>::empty()));
        assert(seq![jv_of(x)] + Seq::<JVal>::empty() =~= jv_of_elems(es).push(jv_of(x)));
    } else {
        assert(es.push(x)[0] == es[0]);
        assert(es.push(x).drop_first() =~= es.drop_first().push(x));
        lemma_jv_of_elems_push(es.drop_first(), x);
        assert(jv_of_elems(es.push(x)) == seq![jv_of(es[0])] + jv_of_elems(
            es.drop_first(),
        ).push(jv_of(x)));
        assert(seq![jv_of(es[0])] + jv_of_elems(es.drop_first()).push(jv_of(x)) =~= (
        seq![jv_of(es[0])] + jv_of_elems(es.drop_first())).push(jv_of(x)));
    }
}

pub proof fn lemma_jv_of_members_push(fs: Seq<(String, JsonValue)>, x: (String, JsonValue))
    ensures
        jv_of_members(fs.push(x)) == jv_of_members(fs).push((x.0@, jv_of(x.1))),
    decreases fs.len(),
{
    if fs.len() == 0 {
        assert(fs.push(x)[0] == x);
        assert(fs.push(x).drop_first() =~= Seq::<(String, JsonValue)>::empty());
        assert(jv_of_members(fs.push(x)) == seq![(x.0@, jv_of(x.1))] + jv_of_members(
            Seq::<(String, JsonValue)>::empty(),
        ));
        assert(seq![(x.0@, jv_of(x.1))] + Seq::<(Seq<char>, JVal)>::empty() =~= jv_of_members(
            fs,
        ).push((x.0@, jv_of(x.1))));
    } else {
        assert(fs.push(x)[0] == fs[0]);
        assert(fs.push(x).drop_first() =~= fs.drop_first().push(x));
        lemma_jv_of_members_push(fs.drop_first(), x);
        assert(jv_of_members(fs.push(x)) == seq![(fs[0].0@, jv_of(fs[0].1))] + jv_of_members(
            fs.drop_first(),
        ).push((x.0@, jv_of(x.1))));
        assert(seq![(fs[0].0@, jv_of(fs[0].1))] + jv_of_members(fs.drop_first()).push(
            (x.0@, jv_of(x.1)),
        ) =~= (seq![(fs[0].0@, jv_of(fs[0].1))] + jv_of_members(fs.drop_first())).push(
            (x.0@, jv_of(x.1)),
        ));
    }
}

pub proof fn lemma_esc_push(s: Seq<char>, c: char)
    ensures
        esc(s.push(c)) == esc(s) + esc_char(c),
    decreases s.len(),
{
    if s.len() == 0 {
        assert(s.push(c)[0] == c);
        assert(s.push(c).drop_first() =~= Seq::<char>::empty());
        assert(esc(s.push(c)) == esc_char(c) + esc(Seq::<char>::empty()));
        assert(esc_char(c) + Seq::<char>::empty() =~= esc(s) + esc_char(c));
    } else {
        assert(s.push(c)[0] == s[0]);
        assert(s.push(c).drop_first() =~= s.drop_first().push(c));
        lemma_esc_push(s.drop_first(), c);
        assert(esc(s.push(c)) == esc_char(s[0]) + (esc(s.drop_first()) + esc_char(c)));
        assert(esc_char(s[0]) + (esc(s.drop_first()) + esc_char(c)) =~= (esc_char(s[0]) + esc(
            s.drop_first(),
        )) + esc_char(c));
    }
}

pub proof fn lemma_enc_elems_push(s: Seq<JVal>, x: JVal)
    ensures
        enc_elems(s.push(x)) == if s.len() == 0 {
            enc(x)
        } else {
            enc_elems(s) + seq![','] + enc(x)
        },
    decreases s.len(),
{
    if s.len() == 0 {
        assert(s.push(x)[0] == x);
        assert(enc_elems(s.push(x)) == enc(s.push(x)[0]));
    } else if s.len() == 1 {
        assert(s.push(x)[0] == s[0]);
        assert(s.push(x).drop_first() =~= seq![x]);
        assert(enc_elems(seq![x]) == enc(x));
        assert(enc_elems(s.push(x)) =~= enc_elems(s) + seq![','] + enc(x));
    } else {
        assert(s.push(x)[0] == s[0]);
        assert(s.push(x).drop_first() =~= s.drop_first().push(x));
        lemma_enc_elems_push(s.drop_first(), x);
        assert(enc_elems(s.push(x)) == enc(s[0]) + seq![','] + (enc_elems(s.drop_first())
            + seq![','] + enc(x)));
        assert(enc(s[0]) + seq![','] + (enc_elems(s.drop_first()) + seq![','] + enc(x)) =~= (enc(
            s[0],
        ) + seq![','] + enc_elems(s.drop_first())) + seq![','] + enc(x));
    }
}

pub proof fn lemma_enc_members_push(s: Seq<(Seq<char>, JVal)>, x: (Seq<char>, JVal))
    ensures
        enc_members(s.push(x)) == if s.len() == 0 {
            enc_str(x.0) + seq![':'] + enc(x.1)
        } else {
            enc_members(s) + seq![','] + enc_str(x.0) + seq![':'] + enc(x.1)
        },
    decreases s.len(),
{
    if s.len() == 0 {
        assert(s.push(x)[0] == x);
        assert(enc_members(s.push(x)) == enc_str(s.push(x)[0].0) + seq![':'] + enc(s.push(x)[0].1));
    } else if s.len() == 1 {
        assert(s.push(x)[0] == s[0]);
        assert(s.push(x).drop_first() =~= seq![x]);
        assert(enc_members(seq![x]) == enc_str(x.0) + seq![':'] + enc(x.1));
        assert(enc_members(s.push(x)) =~= enc_members(s) + seq![','] + enc_str(x.0) + seq![':']
            + enc(x.1));
    } else {
        assert(s.push(x)[0] == s[0]);
        assert(s.push(x).drop_first() =~= s.drop_first().push(x));
        lemma_enc_members_push(s.drop_first(), x);
        assert(enc_members(s.push(x)) == enc_str(s[0].0) + seq![':'] + enc(s[0].1) + seq![','] + (
        enc_members(s.drop_first()) + seq![','] + enc_str(x.0) + seq![':'] + enc(x.1)));
        assert(enc_str(s[0].0) + seq![':'] + enc(s[0].1) + seq![','] + (enc_members(s.drop_first())
            + seq![','] + enc_str(x.0) + seq![':'] + enc(x.1)) =~= (enc_str(s[0].0) + seq![':']
            + enc(s[0].1) + seq![','] + enc_members(s.drop_first())) + seq![','] + enc_str(x.0)
            + seq![':'] + enc(x.1));
    }
}

/// The hexadecimal digit character for a value below sixteen.
fn hex_digit_char(n: u32) -> (r: char)
    requires
        n < 16,
    ensures
        r == hex_digit(n as int),
{
    if n == 0 {
        '0'
    } else if n == 1 {
        '1'
    } else if n == 2 {
        '2'
    } else if n == 3 {
        '3'
    } else if n == 4 {
        '4'
    } else if n == 5 {
        '5'
    } else if n == 6 {
        '6'
    } else if n == 7 {
        '7'
    } else if n == 8 {
        '8'
    } else if n == 9 {
        '9'
    } else if n == 10 {
        'a'
    } else if n == 11 {
        'b'
    } else if n == 12 {
        'c'
    } else if n == 13 {
        'd'
    } else if n == 14 {
        'e'
    } else {
        'f'
    }
}

/// Appends the escaped, quoted form of `s` to `out`.
#[verifier::loop_isolation(false)]
pub fn write_string(s: &str, out: &mut Vec<char>)
    ensures
        final(out)@ == old(out)@ + enc_str(s@),
{
    let cs = crate::text::chars_of(s);
    out.push('"');
    let mut i: usize = 0;
    while i < cs.len()
        invariant
            i <= s@.len(),
            out@ == old(out)@ + seq!['"'] + esc(s@.subrange(0, i as int)),
        decreases s@.len() - i,
    {
        let c = cs[i];
        if c == '"' {
            out.push('\\');
            out.push('"');
        } else if c == '\\' {
            out.push('\\');
            out.push('\\');
        } else if c == '\n' {
            out.push('\\');
            out.push('n');
        } else if c == '\r' {
            out.push('\\');
            out.push('r');
        } else if c == '\t' {
            out.push('\\');
            out.push('t');
        } else if (c as u32) < 0x20 {
            let code = c as u32;
            out.push('\\');
            out.push('u');
            out.push('0');
            out.push('0');
            out.push(hex_digit_char(code / 16));
            out.push(hex_digit_char(code % 16));
            proof {
                assert(s@[i as int] == c);
                lemma_char_u32(c);
                assert(is_ctl(s@[i as int]));
                assert((code / 16) as int == s@[i as int] as int / 16);
                assert((code % 16) as int == s@[i as int] as int % 16);
                assert((code / 16) as int == s@[i as int] as int / 16);
                assert((code % 16) as int == s@[i as int] as int % 16);
                assert(esc_char(s@[i as int]) =~= seq!['\\', 'u', '0', '0', hex_digit(
                    s@[i as int] as int / 16,
                ), hex_digit(s@[i as int] as int % 16)]);
                assert(out@ =~= old(out)@ + seq!['"'] + esc(s@.subrange(0, i as int))
                    + esc_char(s@[i as int]));
            }
        } else {
            proof {
                lemma_char_u32(c);
                assert(!is_ctl(s@[i as int]));
            }
            out.push(c);
        }
        proof {
            lemma_esc_push(s@.subrange(0, i as int), s@[i as int]);
            assert(s@.subrange(0, i as int).push(s@[i as int]) =~= s@.subrange(0, i as int + 1));
            assert(out@ =~= old(out)@ + seq!['"'] + esc(s@.subrange(0, i as int + 1)));
        }
        i = i + 1;
    }
    out.push('"');
    proof {
        assert(s@.subrange(0, s@.len() as int) =~= s@);
        assert(out@ =~= old(out)@ + enc_str(s@));
    }
}

/// Appends the canonical encoding of `v` to `out`.
#[verifier::loop_isolation(false)]
#[verifier::rlimit(50)]
pub fn write_value(v: &JsonValue, out: &mut Vec<char>)
    ensures
        final(out)@ == old(out)@ + enc(v@),
    decreases v,
{
    match v {
        JsonValue::Null => {
            out.push('n');
            out.push('u');
            out.push('l');
            out.push('l');
            proof {
                assert(out@ =~= old(out)@ + enc(v@));
            }
        },
        JsonValue::Bool(b) => {
            if *b {
                out.push('t');
                out.push('r');
                out.push('u');
                out.push('e');
            } else {
                out.push('f');
                out.push('a');
                out.push('l');
                out.push('s');
                out.push('e');
            }
            proof {
                assert(out@ =~= old(out)@ + enc(v@));
            }
        },
        JsonValue::Num(l) => {
            crate::text::push_all(out, l);
        },
        JsonValue::Str(s) => {
            write_string(s.as_str(), out);
        },
        JsonValue::Arr(es) => {
            out.push('[');
            let mut k: usize = 0;
            while k < es.len()
                invariant
                    k <= es@.len(),
                    out@ == old(out)@ + seq!['['] + enc_elems(
                        jv_of_elems(es@.subrange(0, k as int)),
                    ),
                decreases es@.len() - k,
            {
                if k > 0 {
                    out.push(',');
                }
                proof {
                    assert(decreases_to!(*v => *es));
                    assert(decreases_to!(*es => es@));
                    assert(decreases_to!(es@ => es@[k as int]));
                }
                write_value(&es[k], out);
                proof {
                    assert(es@.subrange(0, k as int).push(es@[k as int]) =~= es@.subrange(
                        0,
                        k as int + 1,
                    ));
                    lemma_jv_of_elems_push(es@.subrange(0, k as int), es@[k as int]);
                    lemma_enc_elems_push(
                        jv_of_elems(es@.subrange(0, k as int)),
                        jv_of(es@[k as int]),
                    );
                    assert(out@ =~= old(out)@ + seq!['['] + enc_elems(
                        jv_of_elems(es@.subrange(0, k as int + 1)),
                    ));
                }
                k = k + 1;
            }
            out.push(']');
            proof {
                assert(es@.subrange(0, es@.len() as int) =~= es@);
                assert(out@ =~= old(out)@ + enc(v@));
            }
        },
        JsonValue::Obj(fs) => {
            out.push('{');
            let mut k: usize = 0;
            while k < fs.len()
                invariant
                    k <= fs@.len(),
                    out@ == old(out)@ + seq!['{'] + enc_members(
                        jv_of_members(fs@.subrange(0, k as int)),
                    ),
                decreases fs@.len() - k,
            {
                if k > 0 {
                    out.push(',');
                }
                write_string(fs[k].0.as_str(), out);
                out.push(':');
                proof {
                    assert(decreases_to!(*v => *fs));
                    assert(decreases_to!(*fs => fs@));
                    assert(decreases_to!(fs@ => fs@[k as int]));
                    assert(decreases_to!(fs@[k as int] => fs@[k as int].1));
                }
                write_value(&fs[k].1, out);
                proof {
                    assert(fs@.subrange(0, k as int).push(fs@[k as int]) =~= fs@.subrange(
                        0,
                        k as int + 1,
                    ));
                    lemma_jv_of_members_push(fs@.subrange(0, k as int), fs@[k as int]);
                    lemma_enc_members_push(
                        jv_of_members(fs@.subrange(0, k as int)),
                        (fs@[k as int].0@, jv_of(fs@[k as int].1)),
                    );
                    assert(out@ =~= old(out)@ + seq!['{'] + enc_members(
                        jv_of_members(fs@.subrange(0, k as int + 1)),
                    ));
                }
                k = k + 1;
            }
            out.push('}');
            proof {
                assert(fs@.subrange(0, fs@.len() as int) =~= fs@);
                assert(out@ =~= old(out)@ + enc(v@));
            }
        },
    }
}

/// Whitespace the parser skips between tokens.
pub open spec fn is_ws(c: char) -> bool {
    c == ' ' || c == '\n' || c == '\r' || c == '\t'
}

/// Nothing at `j` could extend a number lexeme ending just before `j`.
pub open spec fn delimited(s: Seq<char>, j: int) -> bool {
    j == s.len() || !num_char(s[j])
}

/// The position of the first non-whitespace character at or after `i`.
#[verifier::loop_isolation(false)]
fn skip_ws(s: &Vec<char>, i: usize) -> (r: usize)
    requires
        i <= s@.len(),
    ensures
        i <= r <= s@.len(),
        forall|k: int| i <= k < r ==> is_ws(s@[k]),
        r < s@.len() ==> !is_ws(s@[r as int]),
{
    let mut j = i;
    while j < s.len() && (s[j] == ' ' || s[j] == '\n' || s[j] == '\r' || s[j] == '\t')
        invariant
            i <= j <= s@.len(),
            forall|k: int| i <= k < j ==> is_ws(s@[k]),
        decreases s@.len() - j,
    {
        j = j + 1;
    }
    j
}

/// The end of the maximal run of number characters starting at `i`.
#[verifier::loop_isolation(false)]
fn scan_num(s: &Vec<char>, i: usize) -> (r: usize)
    requires
        i <= s@.len(),
    ensures
        i <= r <= s@.len(),
        forall|k: int| i <= k < r ==> num_char(s@[k]),
        delimited(s@, r as int),
{
    let mut j = i;
    while j < s.len() && (('0' <= s[j] && s[j] <= '9') || s[j] == '-' || s[j] == '+' || s[j] == '.'
        || s[j] == 'e' || s[j] == 'E')
        invariant
            i <= j <= s@.len(),
            forall|k: int| i <= k < j ==> num_char(s@[k]),
        decreases s@.len() - j,
    {
        j = j + 1;
    }
    j
}

/// `txt` reads as the string `t` under JSON's string syntax: a plain
/// character stands for itself; the escapes `\"`, `\\`, `\/`, `\b`, `\f`,
/// `\n`, `\r`, `\t` and `\uXXXX` (with a surrogate pair for a character
/// beyond the basic plane) stand for the escaped character; an unescaped
/// quote or control character cannot occur.
pub open spec fn str_body_rep(txt: Seq<char>, t: Seq<char>) -> bool
    decreases txt.len(),
{
    if txt.len() == 0 {
        t.len() == 0
    } else if txt[0] == '"' || is_ctl(txt[0]) {
        false
    } else if txt[0] == '\\' {
        txt.len() >= 2 && {
            let d = txt[1];
            if is_escape_code(d) {
                t.len() > 0 && t[0] == escape_decode(d) && str_body_rep(
                    txt.skip(2),
                    t.drop_first(),
                )
            } else if d == 'u' {
                txt.len() >= 6 && is_hex(txt[2]) && is_hex(txt[3]) && is_hex(txt[4]) && is_hex(
                    txt[5],
                ) && {
                    let n = hexv4(txt[2], txt[3], txt[4], txt[5]);
                    if 0xD800 <= n < 0xDC00 {
                        txt.len() >= 12 && txt[6] == '\\' && txt[7] == 'u' && is_hex(txt[8])
                            && is_hex(txt[9]) && is_hex(txt[10]) && is_hex(txt[11]) && {
                            let lo = hexv4(txt[8], txt[9], txt[10], txt[11]);
                            &&& 0xDC00 <= lo < 0xE000
                            &&& t.len() > 0
                            &&& t[0] as int == 0x10000 + (n - 0xD800) * 0x400 + (lo - 0xDC00)
                            &&& str_body_rep(txt.skip(12), t.drop_first())
                        }
                    } else if 0xDC00 <= n < 0xE000 {
                        false
                    } else {
                        t.len() > 0 && t[0] as int == n && str_body_rep(
                            txt.skip(6),
                            t.drop_first(),
                        )
                    }
                }
            } else {
                false
            }
        }
    } else {
        t.len() > 0 && t[0] == txt[0] && str_body_rep(txt.drop_first(), t.drop_first())
    }
}

/// A character's code point is nonnegative and is what its `u32` cast
/// shows.
proof fn lemma_char_u32(c: char)
    ensures
        0 <= c as int,
        c as int == (c as u32) as int,
{
}

/// Two characters with the same code point are the same character.
proof fn lemma_char_code(a: char, b: char)
    requires
        a as u32 == b as u32,
    ensures
        a == b,
{
}

/// The hexadecimal digit of a value below sixteen reads back as that value.
proof fn lemma_hex_digit_value(n: int)
    requires
        0 <= n < 16,
    ensures
        is_hex(hex_digit(n)),
        hexv(hex_digit(n)) == n,
{
}

/// Relies on `char::from_u32`: the character with the given code point, or
/// nothing when the code is a surrogate or lies beyond the last code point.
#[verifier::external_body]
fn char_from_code(n: u32) -> (r: Option<char>)
    ensures
        r matches Some(c) ==> c as u32 == n,
        (n < 0xD800 || (0xE000 <= n && n <= 0x10FFFF)) ==> r is Some,
{
    char::from_u32(n)
}

/// The value of a hexadecimal digit character, in either case.
fn hex_val(c: char) -> (r: Option<u32>)
    ensures
        match r {
            Some(v) => is_hex(c) && v == hexv(c) && v < 16,
            None => !is_hex(c),
        },
{
    if '0' <= c && c <= '9' {
        Some(c as u32 - '0' as u32)
    } else if 'a' <= c && c <= 'f' {
        Some(c as u32 - 'a' as u32 + 10)
    } else if 'A' <= c && c <= 'F' {
        Some(c as u32 - 'A' as u32 + 10)
    } else {
        None
    }
}

/// Parses the rest of a string literal: the characters after the opening
/// quote, up to and including the closing quote.
///
/// The first `ensures` clause ties what was consumed to the result under
/// the string grammar; the second is the parser half of the round-trip
/// guarantee: wherever the escaped form of some string stands at `i`,
/// parsing yields exactly that string.
#[verifier::rlimit(100)]
fn parse_strbody(s: &Vec<char>, i: usize) -> (r: Option<(Vec<char>, usize)>)
    requires
        i <= s@.len(),
    ensures
        r matches Some((cs, j)) ==> i < j <= s@.len() && s@[j - 1] == '"' && str_body_rep(
            s@.subrange(i as int, j - 1),
            cs@,
        ),
        forall|t: Seq<char>|
            #[trigger] crate::text::text_at(s@, i as int, esc(t) + seq!['"']) ==> (r matches Some(
                (cs, j),
            ) && cs@ == t && j == i + esc(t).len() + 1),
    decreases s@.len() - i,
{
    if i >= s.len() {
        proof {
            assert forall|t: Seq<char>| crate::text::text_at(
                s@,
                i as int,
                esc(t) + seq!['"'],
            ) implies false by {
                assert(i + esc(t).len() + 1 <= s@.len());
            }
        }
        return None;
    }
    let c = s[i];
    if c == '"' {
        proof {
            assert(s@.subrange(i as int, i as int) =~= Seq::<char>::empty());
            assert(str_body_rep(Seq::<char>::empty(), Seq::<char>::empty()));
            assert forall|t: Seq<char>| #[trigger] crate::text::text_at(
                s@,
                i as int,
                esc(t) + seq!['"'],
            ) implies t =~= Seq::<char>::empty() by {
                if t.len() > 0 {
                    lemma_esc_head(t);
                    crate::text::lemma_text_at_first(s@, i as int, esc(t) + seq!['"']);
                    assert((esc(t) + seq!['"'])[0] == esc_char(t[0])[0]);
                    assert(false);
                }
            }
        }
        return Some((Vec::new(), i + 1));
    }
    if c == '\\' {
        if s.len() - i < 2 {
            proof {
                assert forall|t: Seq<char>| crate::text::text_at(
                    s@,
                    i as int,
                    esc(t) + seq!['"'],
                ) implies false by {
                    strbody_backslash_shape(s@, i as int, t);
                }
            }
            return None;
        }
        let d = s[i + 1];
        if d == 'u' {
            if s.len() - i < 6 {
                proof {
                    assert forall|t: Seq<char>| crate::text::text_at(
                        s@,
                        i as int,
                        esc(t) + seq!['"'],
                    ) implies false by {
                        strbody_backslash_shape(s@, i as int, t);
                    }
                }
                return None;
            }
            let v2 = hex_val(s[i + 2]);
            let v3 = hex_val(s[i + 3]);
            let v4 = hex_val(s[i + 4]);
            let v5 = hex_val(s[i + 5]);
            if v2.is_none() || v3.is_none() || v4.is_none() || v5.is_none() {
                proof {
                    assert forall|t: Seq<char>| crate::text::text_at(
                        s@,
                        i as int,
                        esc(t) + seq!['"'],
                    ) implies false by {
                        strbody_backslash_shape(s@, i as int, t);
                        if !is_named_escape(t[0]) {
                            lemma_char_u32(t[0]);
                            lemma_hex_digit_value(t[0] as int / 16);
                            lemma_hex_digit_value(t[0] as int % 16);
                        }
                    }
                }
                return None;
            }
            let n: u32 = ((v2.unwrap() * 16 + v3.unwrap()) * 16 + v4.unwrap()) * 16 + v5.unwrap();
            proof {
                assert(n as int == hexv4(
                    s@[i as int + 2],
                    s@[i as int + 3],
                    s@[i as int + 4],
                    s@[i as int + 5],
                ));
            }
            // Under the canonical premise the digits are 00XX for a control
            // character, so the code is below 0x20 and never a surrogate.
            if 0xD800 <= n && n < 0xDC00 {
                if s.len() - i < 12 || !(s[i + 6] == '\\' && s[i + 7] == 'u') {
                    proof {
                        strbody_u_vacuity(s@, i as int, n as int);
                    }
                    return None;
                }
                let w2 = hex_val(s[i + 8]);
                let w3 = hex_val(s[i + 9]);
                let w4 = hex_val(s[i + 10]);
                let w5 = hex_val(s[i + 11]);
                if w2.is_none() || w3.is_none() || w4.is_none() || w5.is_none() {
                    proof {
                        strbody_u_vacuity(s@, i as int, n as int);
                    }
                    return None;
                }
                let lo: u32 = ((w2.unwrap() * 16 + w3.unwrap()) * 16 + w4.unwrap()) * 16
                    + w5.unwrap();
                proof {
                    assert(lo as int == hexv4(
                        s@[i as int + 8],
                        s@[i as int + 9],
                        s@[i as int + 10],
                        s@[i as int + 11],
                    ));
                }
                if !(0xDC00 <= lo && lo < 0xE000) {
                    proof {
                        strbody_u_vacuity(s@, i as int, n as int);
                    }
                    return None;
                }
                let code: u32 = 0x10000 + (n - 0xD800) * 0x400 + (lo - 0xDC00);
                let ch = match char_from_code(code) {
                    Some(ch) => ch,
                    None => {
                        proof {
                            assert(false);
                        }
                        return None;
                    },
                };
                match parse_strbody(s, i + 12) {
                    None => {
                        proof {
                            strbody_u_vacuity_all(s@, i as int, n as int);
                        }
                        None
                    },
                    Some((mut cs, j)) => {
                        let ghost cs0 = cs@;
                        cs.insert(0, ch);
                        proof {
                            assert(cs@ =~= seq![ch] + cs0);
                            let body = s@.subrange(i as int, j - 1);
                            assert(body.len() >= 12);
                            assert(body =~= s@.subrange(i as int, i as int + 12) + s@.subrange(
                                i as int + 12,
                                j - 1,
                            ));
                            assert forall|k: int| 0 <= k < 12 implies body[k] == s@[i + k] by {}
                            assert(body.skip(12) =~= s@.subrange(i as int + 12, j - 1));
                            assert(cs@.drop_first() =~= cs0);
                            assert(code as int == 0x10000 + (n as int - 0xD800) * 0x400 + (
                            lo as int - 0xDC00));
                            lemma_char_u32(ch);
                            assert(ch as int == 0x10000 + (n as int - 0xD800) * 0x400 + (
                            lo as int - 0xDC00));
                            assert(str_body_rep(body, cs@));
                            strbody_u_vacuity_all(s@, i as int, n as int);
                        }
                        Some((cs, j))
                    },
                }
            } else if 0xDC00 <= n && n < 0xE000 {
                proof {
                    strbody_u_vacuity(s@, i as int, n as int);
                }
                None
            } else {
                let ch = match char_from_code(n) {
                    Some(ch) => ch,
                    None => {
                        proof {
                            assert(false);
                        }
                        return None;
                    },
                };
                match parse_strbody(s, i + 6) {
                    None => {
                        proof {
                            assert forall|t: Seq<char>| crate::text::text_at(
                                s@,
                                i as int,
                                esc(t) + seq!['"'],
                            ) implies false by {
                                strbody_backslash_shape(s@, i as int, t);
                                if !is_named_escape(t[0]) {
                                    assert(crate::text::text_at(
                                        s@,
                                        i as int + 6,
                                        esc(t.drop_first()) + seq!['"'],
                                    ));
                                }
                            }
                        }
                        None
                    },
                    Some((mut cs, j)) => {
                        let ghost cs0 = cs@;
                        cs.insert(0, ch);
                        proof {
                            assert(cs@ =~= seq![ch] + cs0);
                            let body = s@.subrange(i as int, j - 1);
                            assert(body.len() >= 6);
                            assert forall|k: int| 0 <= k < 6 implies body[k] == s@[i + k] by {}
                            assert(body.skip(6) =~= s@.subrange(i as int + 6, j - 1));
                            assert(cs@.drop_first() =~= cs0);
                            lemma_char_u32(ch);
                            assert(ch as int == n as int);
                            assert(str_body_rep(body, cs@));
                            assert forall|t: Seq<char>| #[trigger] crate::text::text_at(
                                s@,
                                i as int,
                                esc(t) + seq!['"'],
                            ) implies cs@ == t && j == i + esc(t).len() + 1 by {
                                strbody_backslash_shape(s@, i as int, t);
                                assert(!is_named_escape(t[0]));
                                assert(is_ctl(t[0]));
                                lemma_char_u32(t[0]);
                                lemma_hex_digit_value(t[0] as int / 16);
                                lemma_hex_digit_value(t[0] as int % 16);
                                assert(n as int == t[0] as int);
                                lemma_char_code(ch, t[0]);
                                assert(crate::text::text_at(
                                    s@,
                                    i as int + 6,
                                    esc(t.drop_first()) + seq!['"'],
                                ));
                                assert(cs0 == t.drop_first());
                                assert(cs@ =~= t);
                                lemma_esc_head(t);
                                assert(esc(t).len() == 6 + esc(t.drop_first()).len());
                            }
                        }
                        Some((cs, j))
                    },
                }
            }
        } else {
            let dec: char = if d == 'n' {
                '\n'
            } else if d == 'r' {
                '\r'
            } else if d == 't' {
                '\t'
            } else if d == 'b' {
                '\u{8}'
            } else if d == 'f' {
                '\u{c}'
            } else if d == '/' {
                '/'
            } else if d == '\\' {
                '\\'
            } else if d == '"' {
                '"'
            } else {
                proof {
                    assert forall|t: Seq<char>| crate::text::text_at(
                        s@,
                        i as int,
                        esc(t) + seq!['"'],
                    ) implies false by {
                        strbody_backslash_shape(s@, i as int, t);
                    }
                }
                return None;
            };
            match parse_strbody(s, i + 2) {
                None => {
                    proof {
                        assert forall|t: Seq<char>| crate::text::text_at(
                            s@,
                            i as int,
                            esc(t) + seq!['"'],
                        ) implies false by {
                            strbody_backslash_shape(s@, i as int, t);
                            if is_named_escape(t[0]) {
                                assert(crate::text::text_at(
                                    s@,
                                    i as int + 2,
                                    esc(t.drop_first()) + seq!['"'],
                                ));
                            }
                        }
                    }
                    None
                },
                Some((mut cs, j)) => {
                    let ghost cs0 = cs@;
                    cs.insert(0, dec);
                    proof {
                        assert(cs@ =~= seq![dec] + cs0);
                        let body = s@.subrange(i as int, j - 1);
                        assert(body.len() >= 2);
                        assert(body[0] == '\\' && body[1] == d);
                        assert(body.skip(2) =~= s@.subrange(i as int + 2, j - 1));
                        assert(is_escape_code(d));
                        assert(escape_decode(d) == dec);
                        assert(cs@.drop_first() =~= cs0);
                        assert(str_body_rep(body, cs@));
                        assert forall|t: Seq<char>| #[trigger] crate::text::text_at(
                            s@,
                            i as int,
                            esc(t) + seq!['"'],
                        ) implies cs@ == t && j == i + esc(t).len() + 1 by {
                            strbody_backslash_shape(s@, i as int, t);
                            assert(is_named_escape(t[0]));
                            assert(crate::text::text_at(
                                s@,
                                i as int + 2,
                                esc(t.drop_first()) + seq!['"'],
                            ));
                            assert(t[0] == dec);
                            assert(cs0 == t.drop_first());
                            assert(cs@ =~= t);
                            lemma_esc_head(t);
                            assert(esc(t).len() == 2 + esc(t.drop_first()).len());
                        }
                    }
                    Some((cs, j))
                },
            }
        }
    } else if (c as u32) < 0x20 {
        proof {
            lemma_char_u32(c);
            assert(is_ctl(c));
            assert forall|t: Seq<char>| crate::text::text_at(
                s@,
                i as int,
                esc(t) + seq!['"'],
            ) implies false by {
                crate::text::lemma_text_at_first(s@, i as int, esc(t) + seq!['"']);
                if t.len() > 0 {
                    lemma_esc_head(t);
                }
            }
        }
        None
    } else {
        proof {
            lemma_char_u32(c);
            assert(!is_ctl(c));
        }
        match parse_strbody(s, i + 1) {
            None => {
                proof {
                    assert forall|t: Seq<char>| crate::text::text_at(
                        s@,
                        i as int,
                        esc(t) + seq!['"'],
                    ) implies false by {
                        strbody_plain_shape(s@, i as int, t);
                        assert(crate::text::text_at(
                            s@,
                            i as int + 1,
                            esc(t.drop_first()) + seq!['"'],
                        ));
                    }
                }
                None
            },
            Some((mut cs, j)) => {
                let ghost cs0 = cs@;
                cs.insert(0, c);
                proof {
                    assert(cs@ =~= seq![c] + cs0);
                    let body = s@.subrange(i as int, j - 1);
                    assert(body.len() >= 1);
                    assert(body[0] == c);
                    assert(body.drop_first() =~= s@.subrange(i as int + 1, j - 1));
                    assert(cs@.drop_first() =~= cs0);
                    assert(str_body_rep(body, cs@));
                    assert forall|t: Seq<char>| #[trigger] crate::text::text_at(
                        s@,
                        i as int,
                        esc(t) + seq!['"'],
                    ) implies cs@ == t && j == i + esc(t).len() + 1 by {
                        strbody_plain_shape(s@, i as int, t);
                        assert(crate::text::text_at(
                            s@,
                            i as int + 1,
                            esc(t.drop_first()) + seq!['"'],
                        ));
                        assert(t[0] == c);
                        assert(cs0 == t.drop_first());
                        assert(cs@ =~= t);
                        lemma_esc_head(t);
                        assert(esc(t).len() == 1 + esc(t.drop_first()).len());
                    }
                }
                Some((cs, j))
            },
        }
    }
}

/// Where an escaped string stands at `i` and `\u` follows the backslash,
/// the four digits read as a control character's code, far below the
/// surrogate range.
proof fn strbody_u_vacuity(s: Seq<char>, i: int, n: int)
    requires
        0 <= i < s.len(),
        s[i] == '\\',
        i + 1 < s.len() && s[i + 1] == 'u',
        i + 6 <= s.len() ==> n == hexv4(s[i + 2], s[i + 3], s[i + 4], s[i + 5]),
        0xD800 <= n,
    ensures
        forall|t: Seq<char>| !crate::text::text_at(s, i, #[trigger] esc(t) + seq!['"']),
{
    assert forall|t: Seq<char>| !crate::text::text_at(s, i, #[trigger] esc(t) + seq!['"']) by {
        if crate::text::text_at(s, i, esc(t) + seq!['"']) {
            crate::text::lemma_text_at_first(s, i, esc(t) + seq!['"']);
            if t.len() == 0 {
                assert((esc(t) + seq!['"'])[0] == '"');
                assert(false);
            }
            lemma_esc_head(t);
            if esc_char(t[0])[0] == '\\' {
                strbody_backslash_shape(s, i, t);
                if !is_named_escape(t[0]) {
                    lemma_char_u32(t[0]);
                    lemma_hex_digit_value(t[0] as int / 16);
                    lemma_hex_digit_value(t[0] as int % 16);
                    assert(n < 0x100);
                }
                assert(false);
            } else {
                assert(s[i] == t[0]);
                assert(s[i] != '\\');
                assert(false);
            }
        }
    }
}

/// The same, stated as the vacuity of the round-trip premise.
proof fn strbody_u_vacuity_all(s: Seq<char>, i: int, n: int)
    requires
        0 <= i < s.len(),
        s[i] == '\\',
        i + 1 < s.len() && s[i + 1] == 'u',
        i + 6 <= s.len() ==> n == hexv4(s[i + 2], s[i + 3], s[i + 4], s[i + 5]),
        0xD800 <= n,
    ensures
        forall|t: Seq<char>| !#[trigger] crate::text::text_at(s, i, esc(t) + seq!['"']),
{
    strbody_u_vacuity(s, i, n);
}

/// The head chunk of a nonempty escaped string.
proof fn lemma_esc_head(t: Seq<char>)
    requires
        t.len() > 0,
    ensures
        esc(t) == esc_char(t[0]) + esc(t.drop_first()),
        esc(t).len() > 0,
        esc(t)[0] == esc_char(t[0])[0],
        esc_char(t[0])[0] != '"',
        (esc_char(t[0])[0] == '\\') == (is_named_escape(t[0]) || is_ctl(t[0])),
{
}

/// The escaped form of a cons.
proof fn lemma_esc_cons(c: char, t: Seq<char>)
    ensures
        esc(seq![c] + t) == esc_char(c) + esc(t),
{
    let u = seq![c] + t;
    assert(u[0] == c);
    assert(u.drop_first() =~= t);
    assert(esc(u) == esc_char(c) + esc(t));
}

/// Where the text at `i` is an escaped string followed by a quote and `s[i]`
/// is a backslash, the string starts with the escape written at `i`: a
/// two-character escape for a named character, a `\u00XX` escape for any
/// other control character.
proof fn strbody_backslash_shape(s: Seq<char>, i: int, t: Seq<char>)
    requires
        crate::text::text_at(s, i, esc(t) + seq!['"']),
        0 <= i < s.len(),
        s[i] == '\\',
    ensures
        t.len() > 0,
        i + 2 <= s.len(),
        is_named_escape(t[0]) || is_ctl(t[0]),
        (s[i + 1] == 'n' || s[i + 1] == 'r' || s[i + 1] == 't' || s[i + 1] == '\\' || s[i + 1]
            == '"' || s[i + 1] == 'u'),
        is_named_escape(t[0]) ==> esc_char(t[0]) == seq!['\\', escape_code(t[0])] && s[i + 1]
            == escape_code(t[0]) && s[i + 1] != 'u' && t[0] == escape_decode(s[i + 1])
            && crate::text::text_at(s, i + 2, esc(t.drop_first()) + seq!['"']),
        !is_named_escape(t[0]) ==> is_ctl(t[0]) && i + 6 <= s.len() && s[i + 1] == 'u' && s[i + 2]
            == '0' && s[i + 3] == '0' && s[i + 4] == hex_digit(t[0] as int / 16) && s[i + 5]
            == hex_digit(t[0] as int % 16) && crate::text::text_at(
            s,
            i + 6,
            esc(t.drop_first()) + seq!['"'],
        ),
{
    crate::text::lemma_text_at_first(s, i, esc(t) + seq!['"']);
    if t.len() == 0 {
        assert((esc(t) + seq!['"'])[0] == '"');
        assert(false);
    }
    lemma_esc_head(t);
    assert((esc(t) + seq!['"'])[0] == esc_char(t[0])[0]);
    assert(esc_char(t[0])[0] == '\\');
    if is_named_escape(t[0]) {
        assert(esc_char(t[0]) =~= seq!['\\', escape_code(t[0])]);
        assert(esc(t) + seq!['"'] =~= seq!['\\', escape_code(t[0])] + (esc(t.drop_first())
            + seq!['"']));
        crate::text::lemma_text_at_concat(
            s,
            i,
            seq!['\\', escape_code(t[0])],
            esc(t.drop_first()) + seq!['"'],
        );
        assert(s.subrange(i, i + 2)[1] == s[i + 1]);
        assert(s[i + 1] == escape_code(t[0]));
    } else {
        assert(is_ctl(t[0]));
        let chunk = seq!['\\', 'u', '0', '0', hex_digit(t[0] as int / 16), hex_digit(
            t[0] as int % 16,
        )];
        assert(esc_char(t[0]) =~= chunk);
        assert(esc(t) + seq!['"'] =~= chunk + (esc(t.drop_first()) + seq!['"']));
        crate::text::lemma_text_at_concat(s, i, chunk, esc(t.drop_first()) + seq!['"']);
        assert(s.subrange(i, i + 6)[1] == s[i + 1]);
        assert(s.subrange(i, i + 6)[2] == s[i + 2]);
        assert(s.subrange(i, i + 6)[3] == s[i + 3]);
        assert(s.subrange(i, i + 6)[4] == s[i + 4]);
        assert(s.subrange(i, i + 6)[5] == s[i + 5]);
    }
}

/// Where the text at `i` is an escaped string followed by a quote and `s[i]`
/// is an ordinary character, the string starts with that character.
proof fn strbody_plain_shape(s: Seq<char>, i: int, t: Seq<char>)
    requires
        crate::text::text_at(s, i, esc(t) + seq!['"']),
        0 <= i < s.len(),
        s[i] != '"',
        s[i] != '\\',
        !is_ctl(s[i]),
    ensures
        t.len() > 0,
        t[0] == s[i],
        esc_char(t[0]) == seq![s[i]],
        crate::text::text_at(s, i + 1, esc(t.drop_first()) + seq!['"']),
{
    crate::text::lemma_text_at_first(s, i, esc(t) + seq!['"']);
    if t.len() == 0 {
        assert((esc(t) + seq!['"'])[0] == '"');
        assert(false);
    }
    lemma_esc_head(t);
    assert((esc(t) + seq!['"'])[0] == esc_char(t[0])[0]);
    if is_named_escape(t[0]) || is_ctl(t[0]) {
        assert(esc_char(t[0])[0] == '\\');
        assert(false);
    }
    assert(esc_char(t[0]) =~= seq![t[0]]);
    assert(esc(t) + seq!['"'] =~= seq![t[0]] + (esc(t.drop_first()) + seq!['"']));
    crate::text::lemma_text_at_concat(s, i, seq![t[0]], esc(t.drop_first()) + seq!['"']);
    crate::text::lemma_text_at_char(s, i, t[0]);
}

/// The character written after the backslash for a two-character escape.
pub open spec fn escape_code(c: char) -> char {
    if c == '"' {
        '"'
    } else if c == '\\' {
        '\\'
    } else if c == '\n' {
        'n'
    } else if c == '\r' {
        'r'
    } else {
        't'
    }
}

/// A character that may follow a backslash in a two-character escape.
pub open spec fn is_escape_code(d: char) -> bool {
    d == '"' || d == '\\' || d == '/' || d == 'b' || d == 'f' || d == 'n' || d == 'r' || d == 't'
}

/// The character an escape code stands for.
pub open spec fn escape_decode(d: char) -> char {
    if d == '"' {
        '"'
    } else if d == '\\' {
        '\\'
    } else if d == '/' {
        '/'
    } else if d == 'b' {
        '\u{8}'
    } else if d == 'f' {
        '\u{c}'
    } else if d == 'n' {
        '\n'
    } else if d == 'r' {
        '\r'
    } else {
        '\t'
    }
}

/// Every character of `s` is whitespace.
pub open spec fn all_ws(s: Seq<char>) -> bool {
    forall|k: int| 0 <= k < s.len() ==> is_ws(#[trigger] s[k])
}

/// `txt` is one rendering of the value `v` under the parser's grammar:
/// whitespace may precede the value.
pub open spec fn rep_val(txt: Seq<char>, v: JVal) -> bool
    decreases v, 1int,
{
    exists|a: Seq<char>, b: Seq<char>| #![trigger a + b] txt == a + b && all_ws(a) && rep_core(
        b,
        v,
    )
}

/// The rendering of the value itself: literal words for `null` and the
/// booleans, the lexeme of a number, the string grammar between quotes, and
/// a bracketed list for an array or an object.
pub open spec fn rep_core(txt: Seq<char>, v: JVal) -> bool
    decreases v, 0int,
{
    match v {
        JVal::Null => txt == seq!['n', 'u', 'l', 'l'],
        JVal::Bool(b) => txt == (if b {
            seq!['t', 'r', 'u', 'e']
        } else {
            seq!['f', 'a', 'l', 's', 'e']
        }),
        JVal::Num(l) => wf_num(l) && txt == l,
        JVal::Str(t) => exists|body: Seq<char>|
            #![trigger seq!['"'] + body + seq!['"']]
            txt == seq!['"'] + body + seq!['"'] && str_body_rep(body, t),
        JVal::Arr(es) => txt.len() > 0 && txt[0] == '[' && rep_elems(txt.drop_first(), es),
        JVal::Obj(fs) => txt.len() > 0 && txt[0] == '{' && rep_members(txt.drop_first(), fs),
    }
}

/// The rendering of an array's elements up to and including the closing
/// bracket: each element with whitespace around it, separated by commas; a
/// trailing comma before the bracket is tolerated.
pub open spec fn rep_elems(txt: Seq<char>, es: Seq<JVal>) -> bool
    decreases es, 2int,
{
    if es.len() == 0 {
        txt.len() > 0 && txt.last() == ']' && all_ws(txt.drop_last())
    } else {
        exists|b: Seq<char>, c: Seq<char>, rest: Seq<char>|
            #![trigger b + c + rest]
            {
                &&& txt == b + c + rest
                &&& rep_val(b, es[0])
                &&& all_ws(c)
                &&& rest.len() > 0
                &&& ((es.len() == 1 && rest == seq![']']) || (rest[0] == ',' && rep_elems(
                    rest.drop_first(),
                    es.drop_first(),
                )))
            }
    }
}

/// The rendering of an object's members up to and including the closing
/// brace: each key as a quoted string, a colon, the value, separated by
/// commas, with whitespace between the tokens.
pub open spec fn rep_members(txt: Seq<char>, fs: Seq<(Seq<char>, JVal)>) -> bool
    decreases fs, 2int,
{
    if fs.len() == 0 {
        txt.len() > 0 && txt.last() == '}' && all_ws(txt.drop_last())
    } else {
        exists|a: Seq<char>, kb: Seq<char>, c: Seq<char>, vb: Seq<char>, d: Seq<char>, rest: Seq<
            char,
        >|
            #![trigger a + (seq!['"'] + kb + seq!['"']) + c + seq![':'] + vb + d + rest]
            {
                &&& txt == a + (seq!['"'] + kb + seq!['"']) + c + seq![':'] + vb + d + rest
                &&& all_ws(a)
                &&& str_body_rep(kb, fs[0].0)
                &&& all_ws(c)
                &&& rep_val(vb, fs[0].1)
                &&& all_ws(d)
                &&& rest.len() > 0
                &&& ((fs.len() == 1 && rest == seq!['}']) || (rest[0] == ',' && rep_members(
                    rest.drop_first(),
                    fs.drop_first(),
                )))
            }
    }
}

/// `txt` reads as the value `v`: one rendering of `v`, with whitespace
/// allowed around it.
pub open spec fn represents(txt: Seq<char>, v: JVal) -> bool {
    exists|b: Seq<char>, c: Seq<char>| #![trigger b + c] txt == b + c && rep_val(b, v) && all_ws(
        c,
    )
}

/// A stretch of whitespace characters is whitespace as a sequence.
proof fn lemma_ws_subrange(s: Seq<char>, a: int, b: int)
    requires
        0 <= a <= b <= s.len(),
        forall|k: int| a <= k < b ==> is_ws(s[k]),
    ensures
        all_ws(s.subrange(a, b)),
{
    assert forall|k: int| 0 <= k < b - a implies is_ws(#[trigger] s.subrange(a, b)[k]) by {
        assert(s.subrange(a, b)[k] == s[a + k]);
    }
}

/// A whitespace stretch followed by a core rendering is a rendering.
proof fn rep_val_from_parts(s: Seq<char>, i: int, m: int, j: int, v: JVal)
    requires
        0 <= i <= m <= j <= s.len(),
        forall|k: int| i <= k < m ==> is_ws(s[k]),
        rep_core(s.subrange(m, j), v),
    ensures
        rep_val(s.subrange(i, j), v),
{
    lemma_ws_subrange(s, i, m);
    assert(s.subrange(m, j).len() >= 0);
    assert(s.subrange(i, j) =~= s.subrange(i, m) + s.subrange(m, j));
    assert(rep_val(s.subrange(i, j), v));
}

/// An element rendering, whitespace, and a comma or the closing bracket,
/// followed by the rest of the list, render the whole list.
proof fn rep_elems_cons(s: Seq<char>, i: int, j: int, j1: int, j2: int, v0: JVal, es: Seq<JVal>)
    requires
        0 <= i <= j <= j1 < j2 <= s.len(),
        rep_val(s.subrange(i, j), v0),
        forall|k: int| j <= k < j1 ==> is_ws(s[k]),
        es.len() > 0,
        es[0] == v0,
        (s[j1] == ',' && rep_elems(s.subrange(j1 + 1, j2), es.drop_first())) || (es.len() == 1
            && s[j1] == ']' && j2 == j1 + 1),
    ensures
        rep_elems(s.subrange(i, j2), es),
{
    lemma_ws_subrange(s, j, j1);
    let b = s.subrange(i, j);
    let c = s.subrange(j, j1);
    let rest = s.subrange(j1, j2);
    assert(b.len() >= 0);
    assert(rest.len() == j2 - j1);
    assert(rest[0] == s[j1]);
    assert(s.subrange(i, j2) =~= b + c + rest);
    if s[j1] == ',' && rep_elems(s.subrange(j1 + 1, j2), es.drop_first()) {
        assert(rest.drop_first() =~= s.subrange(j1 + 1, j2));
        assert(rep_elems(s.subrange(i, j2), es));
    } else {
        assert(rest =~= seq![']']);
        assert(rep_elems(s.subrange(i, j2), es));
    }
}

/// A quoted key, a colon, a value rendering, and a comma or the closing
/// brace, followed by the rest of the members, render the whole member
/// list.
#[verifier::rlimit(100)]
proof fn rep_members_cons(
    s: Seq<char>,
    i: int,
    i1: int,
    kj: int,
    j1: int,
    j2: int,
    j3: int,
    j4: int,
    fs: Seq<(Seq<char>, JVal)>,
)
    requires
        0 <= i <= i1 < s.len(),
        i1 + 2 <= kj <= j1 < s.len(),
        j1 + 1 <= j2 <= j3 < j4 <= s.len(),
        forall|k: int| i <= k < i1 ==> is_ws(s[k]),
        s[i1] == '"',
        s[kj - 1] == '"',
        fs.len() > 0,
        str_body_rep(s.subrange(i1 + 1, kj - 1), fs[0].0),
        forall|k: int| kj <= k < j1 ==> is_ws(s[k]),
        s[j1] == ':',
        rep_val(s.subrange(j1 + 1, j2), fs[0].1),
        forall|k: int| j2 <= k < j3 ==> is_ws(s[k]),
        (s[j3] == ',' && rep_members(s.subrange(j3 + 1, j4), fs.drop_first())) || (fs.len() == 1
            && s[j3] == '}' && j4 == j3 + 1),
    ensures
        rep_members(s.subrange(i, j4), fs),
{
    lemma_ws_subrange(s, i, i1);
    lemma_ws_subrange(s, kj, j1);
    lemma_ws_subrange(s, j2, j3);
    let a = s.subrange(i, i1);
    let kb = s.subrange(i1 + 1, kj - 1);
    let c = s.subrange(kj, j1);
    let vb = s.subrange(j1 + 1, j2);
    let d = s.subrange(j2, j3);
    let rest = s.subrange(j3, j4);
    assert(kb.len() >= 0);
    assert(vb.len() >= 0);
    assert(rest.len() == j4 - j3);
    assert(rest[0] == s[j3]);
    assert(s.subrange(i, j4) =~= a + (seq!['"'] + kb + seq!['"']) + c + seq![':'] + vb + d
        + rest);
    if s[j3] == ',' && rep_members(s.subrange(j3 + 1, j4), fs.drop_first()) {
        assert(rest.drop_first() =~= s.subrange(j3 + 1, j4));
        assert(rep_members(s.subrange(i, j4), fs));
    } else {
        assert(rest =~= seq!['}']);
        assert(rep_members(s.subrange(i, j4), fs));
    }
}

/// Every well-formed encoding starts with a character that identifies its
/// variant; no encoding starts with whitespace or a closing delimiter.
proof fn value_head(s: Seq<char>, i: int, jv: JVal)
    requires
        wf(jv),
        crate::text::text_at(s, i, enc(jv)),
    ensures
        0 <= i < s.len(),
        enc(jv).len() > 0,
        s[i] == enc(jv)[0],
        !is_ws(s[i]),
        s[i] != ']' && s[i] != '}' && s[i] != ',' && s[i] != ':',
        s[i] == 'n' ==> jv == JVal::Null && enc(jv) == seq!['n', 'u', 'l', 'l'],
        s[i] == 't' ==> jv == JVal::Bool(true) && enc(jv) == seq!['t', 'r', 'u', 'e'],
        s[i] == 'f' ==> jv == JVal::Bool(false) && enc(jv) == seq!['f', 'a', 'l', 's', 'e'],
        s[i] == '"' ==> jv is Str,
        s[i] == '[' ==> jv is Arr,
        s[i] == '{' ==> jv is Obj,
        (('0' <= s[i] && s[i] <= '9') || s[i] == '-') ==> jv is Num,
{
    match jv {
        JVal::Null => {},
        JVal::Bool(b) => {},
        JVal::Num(l) => {
            assert(enc(jv)[0] == l[0]);
        },
        JVal::Str(t) => {
            assert(enc(jv)[0] == '"');
        },
        JVal::Arr(es) => {
            assert(enc(jv)[0] == '[');
        },
        JVal::Obj(fs) => {
            assert(enc(jv)[0] == '{');
        },
    }
    crate::text::lemma_text_at_first(s, i, enc(jv));
}

/// How the text of a nonempty element list, closed by `]`, decomposes: the
/// first element's encoding, then a comma and the remaining list, or the
/// closing bracket.
proof fn elems_shape(s: Seq<char>, i: int, es: Seq<JVal>)
    requires
        crate::text::text_at(s, i, enc_elems(es) + seq![']']),
        es.len() > 0,
        forall|k: int| 0 <= k < es.len() ==> wf(#[trigger] es[k]),
    ensures
        crate::text::text_at(s, i, enc(es[0])),
        i + enc(es[0]).len() < s.len(),
        delimited(s, i + enc(es[0]).len()),
        es.len() == 1 ==> s[i + enc(es[0]).len()] == ']' && enc_elems(es).len() == enc(
            es[0],
        ).len(),
        es.len() > 1 ==> s[i + enc(es[0]).len()] == ',' && crate::text::text_at(
            s,
            i + enc(es[0]).len() + 1,
            enc_elems(es.drop_first()) + seq![']'],
        ) && enc_elems(es).len() == enc(es[0]).len() + 1 + enc_elems(es.drop_first()).len(),
{
    if es.len() == 1 {
        assert(enc_elems(es) + seq![']'] =~= enc(es[0]) + seq![']']);
        crate::text::lemma_text_at_concat(s, i, enc(es[0]), seq![']']);
        crate::text::lemma_text_at_char(s, i + enc(es[0]).len(), ']');
    } else {
        assert(enc_elems(es) + seq![']'] =~= enc(es[0]) + (seq![','] + (enc_elems(es.drop_first())
            + seq![']'])));
        crate::text::lemma_text_at_concat(
            s,
            i,
            enc(es[0]),
            seq![','] + (enc_elems(es.drop_first()) + seq![']']),
        );
        crate::text::lemma_text_at_concat(
            s,
            i + enc(es[0]).len(),
            seq![','],
            enc_elems(es.drop_first()) + seq![']'],
        );
        crate::text::lemma_text_at_char(s, i + enc(es[0]).len(), ',');
    }
}

/// How the text of a nonempty member list, closed by `}`, decomposes: the
/// first key as a string literal, a colon, the first value, then a comma and
/// the remaining list, or the closing brace.
proof fn members_shape(s: Seq<char>, i: int, fs: Seq<(Seq<char>, JVal)>)
    requires
        crate::text::text_at(s, i, enc_members(fs) + seq!['}']),
        fs.len() > 0,
        forall|k: int| 0 <= k < fs.len() ==> wf(#[trigger] fs[k].1),
    ensures
        0 <= i < s.len(),
        s[i] == '"',
        crate::text::text_at(s, i + 1, esc(fs[0].0) + seq!['"']),
        i + enc_str(fs[0].0).len() < s.len(),
        s[i + enc_str(fs[0].0).len()] == ':',
        crate::text::text_at(s, i + enc_str(fs[0].0).len() + 1, enc(fs[0].1)),
        i + enc_str(fs[0].0).len() + 1 + enc(fs[0].1).len() < s.len(),
        delimited(s, i + enc_str(fs[0].0).len() + 1 + enc(fs[0].1).len()),
        fs.len() == 1 ==> s[i + enc_str(fs[0].0).len() + 1 + enc(fs[0].1).len()] == '}'
            && enc_members(fs).len() == enc_str(fs[0].0).len() + 1 + enc(fs[0].1).len(),
        fs.len() > 1 ==> s[i + enc_str(fs[0].0).len() + 1 + enc(fs[0].1).len()] == ','
            && crate::text::text_at(
            s,
            i + enc_str(fs[0].0).len() + 1 + enc(fs[0].1).len() + 1,
            enc_members(fs.drop_first()) + seq!['}'],
        ) && enc_members(fs).len() == enc_str(fs[0].0).len() + 1 + enc(fs[0].1).len() + 1
            + enc_members(fs.drop_first()).len(),
{
    let k0 = enc_str(fs[0].0);
    let v0 = enc(fs[0].1);
    if fs.len() == 1 {
        assert(enc_members(fs) + seq!['}'] =~= k0 + (seq![':'] + (v0 + seq!['}'])));
        crate::text::lemma_text_at_concat(s, i, k0, seq![':'] + (v0 + seq!['}']));
        crate::text::lemma_text_at_concat(s, i + k0.len(), seq![':'], v0 + seq!['}']);
        crate::text::lemma_text_at_char(s, i + k0.len(), ':');
        crate::text::lemma_text_at_concat(s, i + k0.len() + 1, v0, seq!['}']);
        crate::text::lemma_text_at_char(s, i + k0.len() + 1 + v0.len(), '}');
    } else {
        assert(enc_members(fs) + seq!['}'] =~= k0 + (seq![':'] + (v0 + (seq![','] + (enc_members(
            fs.drop_first(),
        ) + seq!['}'])))));
        crate::text::lemma_text_at_concat(
            s,
            i,
            k0,
            seq![':'] + (v0 + (seq![','] + (enc_members(fs.drop_first()) + seq!['}']))),
        );
        crate::text::lemma_text_at_concat(
            s,
            i + k0.len(),
            seq![':'],
            v0 + (seq![','] + (enc_members(fs.drop_first()) + seq!['}'])),
        );
        crate::text::lemma_text_at_char(s, i + k0.len(), ':');
        crate::text::lemma_text_at_concat(
            s,
            i + k0.len() + 1,
            v0,
            seq![','] + (enc_members(fs.drop_first()) + seq!['}']),
        );
        crate::text::lemma_text_at_concat(
            s,
            i + k0.len() + 1 + v0.len(),
            seq![','],
            enc_members(fs.drop_first()) + seq!['}'],
        );
        crate::text::lemma_text_at_char(s, i + k0.len() + 1 + v0.len(), ',');
    }
    assert(s[i] == '"') by {
        assert(k0[0] == '"');
        crate::text::lemma_text_at_first(s, i, k0);
    }
    assert(crate::text::text_at(s, i + 1, esc(fs[0].0) + seq!['"'])) by {
        assert(k0 =~= seq!['"'] + (esc(fs[0].0) + seq!['"']));
        crate::text::lemma_text_at_concat(s, i, seq!['"'], esc(fs[0].0) + seq!['"']);
    }
}

/// Parses one JSON value starting at `i`, allowing whitespace before and
/// between tokens.
///
/// The first `ensures` clause ties what was consumed to the result under
/// the grammar. The second is the parser half of the round-trip guarantee:
/// wherever the canonical encoding of a well-formed value stands at `i`,
/// not run into by a longer number lexeme, parsing yields exactly that
/// value and consumes exactly its encoding.
#[verifier::rlimit(100)]
pub fn parse_value(s: &Vec<char>, i: usize) -> (r: Option<(JsonValue, usize)>)
    requires
        i <= s@.len(),
    ensures
        r matches Some((v, j)) ==> i < j <= s@.len() && wf(v@) && rep_val(
            s@.subrange(i as int, j as int),
            v@,
        ),
        forall|jv: JVal|
            wf(jv) && #[trigger] crate::text::text_at(s@, i as int, enc(jv)) && delimited(
                s@,
                i + enc(jv).len(),
            ) ==> (r matches Some((v, j)) && v@ == jv && j == i + enc(jv).len()),
    decreases s@.len() - i, 0int,
{
    let i1 = skip_ws(s, i);
    if i1 >= s.len() {
        proof {
            assert forall|jv: JVal|
                wf(jv) && #[trigger] crate::text::text_at(s@, i as int, enc(jv)) implies false by {
                value_head(s@, i as int, jv);
            }
        }
        return None;
    }
    let c = s[i1];
    if c == 'n' {
        if s.len() - i1 > 3 && s[i1 + 1] == 'u' && s[i1 + 2] == 'l' && s[i1 + 3] == 'l' {
            proof {
                assert forall|jv: JVal|
                    wf(jv) && #[trigger] crate::text::text_at(s@, i as int, enc(jv)) implies jv
                    == JVal::Null && i + enc(jv).len() == i1 + 4 by {
                    value_head(s@, i as int, jv);
                    assert(i1 == i);
                }
                assert(s@.subrange(i1 as int, i1 as int + 4) =~= seq!['n', 'u', 'l', 'l']);
                assert(rep_core(s@.subrange(i1 as int, i1 as int + 4), JVal::Null));
                rep_val_from_parts(s@, i as int, i1 as int, i1 as int + 4, JVal::Null);
            }
            Some((JsonValue::Null, i1 + 4))
        } else {
            proof {
                assert forall|jv: JVal|
                    wf(jv) && #[trigger] crate::text::text_at(s@, i as int, enc(jv)) implies false by {
                    value_head(s@, i as int, jv);
                    assert(i1 == i);
                    assert(s@.subrange(i as int, i as int + 4) =~= enc(jv));
                    assert(s@[i as int + 1] == 'u' && s@[i as int + 2] == 'l' && s@[i as int + 3]
                        == 'l');
                }
            }
            None
        }
    } else if c == 't' {
        if s.len() - i1 > 3 && s[i1 + 1] == 'r' && s[i1 + 2] == 'u' && s[i1 + 3] == 'e' {
            proof {
                assert forall|jv: JVal|
                    wf(jv) && #[trigger] crate::text::text_at(s@, i as int, enc(jv)) implies jv
                    == JVal::Bool(true) && i + enc(jv).len() == i1 + 4 by {
                    value_head(s@, i as int, jv);
                    assert(i1 == i);
                }
                assert(s@.subrange(i1 as int, i1 as int + 4) =~= seq!['t', 'r', 'u', 'e']);
                assert(rep_core(s@.subrange(i1 as int, i1 as int + 4), JVal::Bool(true)));
                rep_val_from_parts(s@, i as int, i1 as int, i1 as int + 4, JVal::Bool(true));
            }
            Some((JsonValue::Bool(true), i1 + 4))
        } else {
            proof {
                assert forall|jv: JVal|
                    wf(jv) && #[trigger] crate::text::text_at(s@, i as int, enc(jv)) implies false by {
                    value_head(s@, i as int, jv);
                    assert(i1 == i);
                    assert(s@.subrange(i as int, i as int + 4) =~= enc(jv));
                    assert(s@[i as int + 1] == 'r' && s@[i as int + 2] == 'u' && s@[i as int + 3]
                        == 'e');
                }
            }
            None
        }
    } else if c == 'f' {
        if s.len() - i1 > 4 && s[i1 + 1] == 'a' && s[i1 + 2] == 'l' && s[i1 + 3] == 's' && s[i1 + 4]
            == 'e' {
            proof {
                assert forall|jv: JVal|
                    wf(jv) && #[trigger] crate::text::text_at(s@, i as int, enc(jv)) implies jv
                    == JVal::Bool(false) && i + enc(jv).len() == i1 + 5 by {
                    value_head(s@, i as int, jv);
                    assert(i1 == i);
                }
                assert(s@.subrange(i1 as int, i1 as int + 5) =~= seq!['f', 'a', 'l', 's', 'e']);
                assert(rep_core(s@.subrange(i1 as int, i1 as int + 5), JVal::Bool(false)));
                rep_val_from_parts(s@, i as int, i1 as int, i1 as int + 5, JVal::Bool(false));
            }
            Some((JsonValue::Bool(false), i1 + 5))
        } else {
            proof {
                assert forall|jv: JVal|
                    wf(jv) && #[trigger] crate::text::text_at(s@, i as int, enc(jv)) implies false by {
                    value_head(s@, i as int, jv);
                    assert(i1 == i);
                    assert(s@.subrange(i as int, i as int + 5) =~= enc(jv));
                    assert(s@[i as int + 1] == 'a' && s@[i as int + 2] == 'l' && s@[i as int + 3]
                        == 's' && s@[i as int + 4] == 'e');
                }
            }
            None
        }
    } else if c == '"' {
        match parse_strbody(s, i1 + 1) {
            None => {
                proof {
                    assert forall|jv: JVal|
                        wf(jv) && #[trigger] crate::text::text_at(
                            s@,
                            i as int,
                            enc(jv),
                        ) implies false by {
                        value_head(s@, i as int, jv);
                        assert(i1 == i);
                        let t = jv->Str_0;
                        assert(enc(jv) =~= seq!['"'] + (esc(t) + seq!['"']));
                        crate::text::lemma_text_at_concat(
                            s@,
                            i as int,
                            seq!['"'],
                            esc(t) + seq!['"'],
                        );
                    }
                }
                None
            },
            Some((cs, j)) => {
                let v = JsonValue::Str(crate::text::string_from_chars(&cs));
                proof {
                    assert forall|jv: JVal|
                        wf(jv) && #[trigger] crate::text::text_at(s@, i as int, enc(jv)) implies v@
                        == jv && j == i + enc(jv).len() by {
                        value_head(s@, i as int, jv);
                        assert(i1 == i);
                        let t = jv->Str_0;
                        assert(enc(jv) =~= seq!['"'] + (esc(t) + seq!['"']));
                        crate::text::lemma_text_at_concat(
                            s@,
                            i as int,
                            seq!['"'],
                            esc(t) + seq!['"'],
                        );
                        assert(cs@ == t);
                        assert(enc(jv).len() == esc(t).len() + 2);
                    }
                    let body = s@.subrange(i1 as int + 1, j - 1);
                    assert(body.len() >= 0);
                    assert(str_body_rep(body, cs@));
                    assert(s@.subrange(i1 as int, j as int) =~= seq!['"'] + body + seq!['"']);
                    assert(rep_core(s@.subrange(i1 as int, j as int), v@));
                    rep_val_from_parts(s@, i as int, i1 as int, j as int, v@);
                }
                Some((v, j))
            },
        }
    } else if c == '[' {
        proof {
            assert(decreases_to!(s@.len() - i, 0int => s@.len() - (i1 + 1), 1int));
        }
        match parse_elems(s, i1 + 1) {
            None => {
                proof {
                    assert forall|jv: JVal|
                        wf(jv) && #[trigger] crate::text::text_at(
                            s@,
                            i as int,
                            enc(jv),
                        ) implies false by {
                        value_head(s@, i as int, jv);
                        assert(i1 == i);
                        let es = jv->Arr_0;
                        assert(enc(jv) =~= seq!['['] + (enc_elems(es) + seq![']']));
                        crate::text::lemma_text_at_concat(
                            s@,
                            i as int,
                            seq!['['],
                            enc_elems(es) + seq![']'],
                        );
                    }
                }
                None
            },
            Some((vs, j)) => {
                let v = JsonValue::Arr(vs);
                proof {
                    assert forall|jv: JVal|
                        wf(jv) && #[trigger] crate::text::text_at(s@, i as int, enc(jv)) implies v@
                        == jv && j == i + enc(jv).len() by {
                        value_head(s@, i as int, jv);
                        assert(i1 == i);
                        let es = jv->Arr_0;
                        assert(enc(jv) =~= seq!['['] + (enc_elems(es) + seq![']']));
                        crate::text::lemma_text_at_concat(
                            s@,
                            i as int,
                            seq!['['],
                            enc_elems(es) + seq![']'],
                        );
                        assert(wf(jv) ==> forall|k: int|
                            0 <= k < es.len() ==> wf(#[trigger] es[k]));
                        assert(jv_of_elems(vs@) == es);
                        assert(v@ == JVal::Arr(jv_of_elems(vs@)));
                    }
                    let core = s@.subrange(i1 as int, j as int);
                    assert(core[0] == '[');
                    assert(core.drop_first() =~= s@.subrange(i1 as int + 1, j as int));
                    assert(rep_elems(s@.subrange(i1 as int + 1, j as int), jv_of_elems(vs@)));
                    assert(rep_core(core, v@));
                    rep_val_from_parts(s@, i as int, i1 as int, j as int, v@);
                }
                Some((v, j))
            },
        }
    } else if c == '{' {
        proof {
            assert(decreases_to!(s@.len() - i, 0int => s@.len() - (i1 + 1), 1int));
        }
        match parse_members(s, i1 + 1) {
            None => {
                proof {
                    assert forall|jv: JVal|
                        wf(jv) && #[trigger] crate::text::text_at(
                            s@,
                            i as int,
                            enc(jv),
                        ) implies false by {
                        value_head(s@, i as int, jv);
                        assert(i1 == i);
                        let fs = jv->Obj_0;
                        assert(enc(jv) =~= seq!['{'] + (enc_members(fs) + seq!['}']));
                        crate::text::lemma_text_at_concat(
                            s@,
                            i as int,
                            seq!['{'],
                            enc_members(fs) + seq!['}'],
                        );
                    }
                }
                None
            },
            Some((ms, j)) => {
                let v = JsonValue::Obj(ms);
                proof {
                    assert forall|jv: JVal|
                        wf(jv) && #[trigger] crate::text::text_at(s@, i as int, enc(jv)) implies v@
                        == jv && j == i + enc(jv).len() by {
                        value_head(s@, i as int, jv);
                        assert(i1 == i);
                        let fs = jv->Obj_0;
                        assert(enc(jv) =~= seq!['{'] + (enc_members(fs) + seq!['}']));
                        crate::text::lemma_text_at_concat(
                            s@,
                            i as int,
                            seq!['{'],
                            enc_members(fs) + seq!['}'],
                        );
                        assert(jv_of_members(ms@) == fs);
                        assert(v@ == JVal::Obj(jv_of_members(ms@)));
                    }
                    let core = s@.subrange(i1 as int, j as int);
                    assert(core[0] == '{');
                    assert(core.drop_first() =~= s@.subrange(i1 as int + 1, j as int));
                    assert(rep_members(s@.subrange(i1 as int + 1, j as int), jv_of_members(ms@)));
                    assert(rep_core(core, v@));
                    rep_val_from_parts(s@, i as int, i1 as int, j as int, v@);
                }
                Some((v, j))
            },
        }
    } else if ('0' <= c && c <= '9') || c == '-' {
        let j = scan_num(s, i1);
        assert(j > i1) by {
            assert(num_char(s@[i1 as int]));
        }
        let lex = crate::text::copy_range(s, i1, j);
        let v = JsonValue::Num(lex);
        proof {
            assert(wf_num(lex@)) by {
                assert(lex@[0] == s@[i1 as int]);
            }
            assert forall|jv: JVal|
                wf(jv) && #[trigger] crate::text::text_at(s@, i as int, enc(jv)) && delimited(
                    s@,
                    i + enc(jv).len(),
                ) implies v@ == jv && j == i + enc(jv).len() by {
                value_head(s@, i as int, jv);
                assert(i1 == i);
                let l = jv->Num_0;
                let e = i + l.len();
                assert(forall|k: int|
                    i <= k < e ==> s@[k] == l[k - i] && num_char(#[trigger] s@[k])) by {
                    assert(forall|k: int|
                        i <= k < e ==> #[trigger] s@[k] == s@.subrange(i as int, e)[k - i]);
                }
                if j < e {
                    assert(num_char(s@[j as int]));
                    assert(false);
                }
                if j > e {
                    assert(num_char(s@[e]));
                    assert(false);
                }
                assert(lex@ =~= l);
            }
            assert(wf_num(lex@));
            assert(s@.subrange(i1 as int, j as int) == lex@);
            assert(rep_core(s@.subrange(i1 as int, j as int), v@));
            rep_val_from_parts(s@, i as int, i1 as int, j as int, v@);
        }
        Some((v, j))
    } else {
        proof {
            assert forall|jv: JVal|
                wf(jv) && #[trigger] crate::text::text_at(s@, i as int, enc(jv)) implies false by {
                value_head(s@, i as int, jv);
                assert(i1 == i);
            }
        }
        None
    }
}

/// Parses the elements of an array and its closing bracket, the opening
/// bracket already consumed.
#[verifier::rlimit(100)]
pub fn parse_elems(s: &Vec<char>, i: usize) -> (r: Option<(Vec<JsonValue>, usize)>)
    requires
        i <= s@.len(),
    ensures
        r matches Some((vs, j)) ==> i < j <= s@.len() && wf(JVal::Arr(jv_of_elems(vs@)))
            && rep_elems(s@.subrange(i as int, j as int), jv_of_elems(vs@)),
        forall|es: Seq<JVal>|
            (forall|k: int| 0 <= k < es.len() ==> wf(#[trigger] es[k]))
                && #[trigger] crate::text::text_at(s@, i as int, enc_elems(es) + seq![']']) ==> (
            r matches Some((vs, j)) && jv_of_elems(vs@) == es && j == i + enc_elems(es).len() + 1),
    decreases s@.len() - i, 1int,
{
    let i1 = skip_ws(s, i);
    if i1 < s.len() && s[i1] == ']' {
        proof {
            assert forall|es: Seq<JVal>|
                (forall|k: int| 0 <= k < es.len() ==> wf(#[trigger] es[k]))
                    && #[trigger] crate::text::text_at(
                    s@,
                    i as int,
                    enc_elems(es) + seq![']'],
                ) implies es.len() == 0 && i1 == i && jv_of_elems(Seq::<JsonValue>::empty()) == es
                && enc_elems(es).len() == 0 by {
                if es.len() > 0 {
                    elems_shape(s@, i as int, es);
                    value_head(s@, i as int, es[0]);
                    assert(i1 == i);
                    assert(false);
                } else {
                    crate::text::lemma_text_at_char(s@, i as int, ']');
                    assert(i1 == i);
                }
            }
            assert(jv_of_elems(Seq::<JsonValue>::empty()) =~= Seq::<JVal>::empty());
            let txt = s@.subrange(i as int, i1 as int + 1);
            assert(txt.last() == ']');
            assert(txt.drop_last() =~= s@.subrange(i as int, i1 as int));
            lemma_ws_subrange(s@, i as int, i1 as int);
            assert(rep_elems(txt, Seq::<JVal>::empty()));
        }
        return Some((Vec::new(), i1 + 1));
    }
    match parse_value(s, i) {
        None => {
            proof {
                assert forall|es: Seq<JVal>|
                    (forall|k: int| 0 <= k < es.len() ==> wf(#[trigger] es[k]))
                        && #[trigger] crate::text::text_at(
                        s@,
                        i as int,
                        enc_elems(es) + seq![']'],
                    ) implies false by {
                    if es.len() == 0 {
                        crate::text::lemma_text_at_char(s@, i as int, ']');
                        assert(i1 == i);
                    } else {
                        elems_shape(s@, i as int, es);
                    }
                }
            }
            None
        },
        Some((v, j)) => {
            let j1 = skip_ws(s, j);
            proof {
                assert forall|es: Seq<JVal>|
                    (forall|k: int| 0 <= k < es.len() ==> wf(#[trigger] es[k]))
                        && #[trigger] crate::text::text_at(
                        s@,
                        i as int,
                        enc_elems(es) + seq![']'],
                    ) implies es.len() > 0 && v@ == es[0] && j == i + enc(es[0]).len() && j1 == j
                    && (es.len() == 1 ==> s@[j as int] == ']') && (es.len() > 1 ==> s@[j as int]
                    == ',' && crate::text::text_at(
                    s@,
                    j as int + 1,
                    enc_elems(es.drop_first()) + seq![']'],
                )) by {
                    if es.len() == 0 {
                        crate::text::lemma_text_at_char(s@, i as int, ']');
                        assert(i1 == i);
                        assert(false);
                    } else {
                        elems_shape(s@, i as int, es);
                        assert(v@ == es[0] && j == i + enc(es[0]).len());
                        assert(!is_ws(s@[j as int]));
                        assert(j1 == j);
                    }
                }
            }
            if j1 < s.len() && s[j1] == ',' {
                match parse_elems(s, j1 + 1) {
                    None => {
                        proof {
                            assert forall|es: Seq<JVal>|
                                (forall|k: int| 0 <= k < es.len() ==> wf(#[trigger] es[k]))
                                    && #[trigger] crate::text::text_at(
                                    s@,
                                    i as int,
                                    enc_elems(es) + seq![']'],
                                ) implies false by {
                                elems_shape(s@, i as int, es);
                            }
                        }
                        None
                    },
                    Some((mut vs, j2)) => {
                        let ghost vs0 = vs@;
                        proof {
                            assert(wf(JVal::Arr(jv_of_elems(vs0))));
                        }
                        vs.insert(0, v);
                        proof {
                            assert(vs@ =~= seq![v] + vs0);
                            assert(jv_of_elems(seq![v] + vs0) == seq![jv_of(v)] + jv_of_elems(
                                vs0,
                            )) by {
                                let u = seq![v] + vs0;
                                assert(u[0] == v);
                                assert(u.drop_first() =~= vs0);
                            }
                            assert(wf(JVal::Arr(jv_of_elems(vs@)))) by {
                                lemma_wf_arr(jv_of_elems(vs0));
                                assert(forall|k: int|
                                    0 <= k < jv_of_elems(vs@).len() ==> wf(
                                        #[trigger] jv_of_elems(vs@)[k],
                                    ));
                            }
                            assert forall|es: Seq<JVal>|
                                (forall|k: int| 0 <= k < es.len() ==> wf(#[trigger] es[k]))
                                    && #[trigger] crate::text::text_at(
                                    s@,
                                    i as int,
                                    enc_elems(es) + seq![']'],
                                ) implies jv_of_elems(vs@) == es && j2 == i + enc_elems(es).len()
                                + 1 by {
                                elems_shape(s@, i as int, es);
                                assert(es.len() > 1);
                                assert(forall|k: int|
                                    0 <= k < es.drop_first().len() ==> wf(
                                        #[trigger] es.drop_first()[k],
                                    ));
                                assert(jv_of_elems(vs0) == es.drop_first());
                                assert(jv_of_elems(vs@) =~= es);
                            }
                            assert(rep_val(s@.subrange(i as int, j as int), v@));
                            assert(jv_of_elems(vs@)[0] == v@);
                            assert(jv_of_elems(vs@).drop_first() =~= jv_of_elems(vs0));
                            assert(rep_elems(s@.subrange(j1 as int + 1, j2 as int), jv_of_elems(
                                vs0,
                            )));
                            rep_elems_cons(
                                s@,
                                i as int,
                                j as int,
                                j1 as int,
                                j2 as int,
                                v@,
                                jv_of_elems(vs@),
                            );
                        }
                        Some((vs, j2))
                    },
                }
            } else if j1 < s.len() && s[j1] == ']' {
                let mut vs: Vec<JsonValue> = Vec::new();
                vs.push(v);
                proof {
                    assert(vs@ =~= seq![v]);
                    assert(jv_of_elems(Seq::<JsonValue>::empty()) =~= Seq::<JVal>::empty());
                    assert(jv_of_elems(vs@) == seq![jv_of(v)]) by {
                        assert(vs@[0] == v);
                        assert(vs@.drop_first() =~= Seq::<JsonValue>::empty());
                        assert(jv_of_elems(vs@) == seq![jv_of(v)] + jv_of_elems(vs@.drop_first()));
                        assert(seq![jv_of(v)] + Seq::<JVal>::empty() =~= seq![jv_of(v)]);
                    }
                    assert(wf(JVal::Arr(jv_of_elems(vs@))));
                    assert forall|es: Seq<JVal>|
                        (forall|k: int| 0 <= k < es.len() ==> wf(#[trigger] es[k]))
                            && #[trigger] crate::text::text_at(
                            s@,
                            i as int,
                            enc_elems(es) + seq![']'],
                        ) implies jv_of_elems(vs@) == es && j1 + 1 == i + enc_elems(es).len()
                        + 1 by {
                        elems_shape(s@, i as int, es);
                        assert(es.len() == 1);
                        assert(jv_of_elems(vs@) =~= es);
                    }
                    assert(rep_val(s@.subrange(i as int, j as int), v@));
                    assert(jv_of_elems(vs@)[0] == v@);
                    rep_elems_cons(
                        s@,
                        i as int,
                        j as int,
                        j1 as int,
                        j1 as int + 1,
                        v@,
                        jv_of_elems(vs@),
                    );
                }
                Some((vs, j1 + 1))
            } else {
                proof {
                    assert forall|es: Seq<JVal>|
                        (forall|k: int| 0 <= k < es.len() ==> wf(#[trigger] es[k]))
                            && #[trigger] crate::text::text_at(
                            s@,
                            i as int,
                            enc_elems(es) + seq![']'],
                        ) implies false by {
                        elems_shape(s@, i as int, es);
                    }
                }
                None
            }
        },
    }
}

/// Parses the members of an object and its closing brace, the opening brace
/// already consumed.
#[verifier::rlimit(100)]
pub fn parse_members(s: &Vec<char>, i: usize) -> (r: Option<(Vec<(String, JsonValue)>, usize)>)
    requires
        i <= s@.len(),
    ensures
        r matches Some((ms, j)) ==> i < j <= s@.len() && wf(JVal::Obj(jv_of_members(ms@)))
            && rep_members(s@.subrange(i as int, j as int), jv_of_members(ms@)),
        forall|fs: Seq<(Seq<char>, JVal)>|
            (forall|k: int| 0 <= k < fs.len() ==> wf(#[trigger] fs[k].1))
                && #[trigger] crate::text::text_at(s@, i as int, enc_members(fs) + seq!['}']) ==> (
            r matches Some((ms, j)) && jv_of_members(ms@) == fs && j == i + enc_members(fs).len()
                + 1),
    decreases s@.len() - i, 1int,
{
    let i1 = skip_ws(s, i);
    if i1 < s.len() && s[i1] == '}' {
        proof {
            assert forall|fs: Seq<(Seq<char>, JVal)>|
                (forall|k: int| 0 <= k < fs.len() ==> wf(#[trigger] fs[k].1))
                    && #[trigger] crate::text::text_at(
                    s@,
                    i as int,
                    enc_members(fs) + seq!['}'],
                ) implies fs.len() == 0 && i1 == i && jv_of_members(
                Seq::<(String, JsonValue)>::empty(),
            ) == fs && enc_members(fs).len() == 0 by {
                if fs.len() > 0 {
                    members_shape(s@, i as int, fs);
                    assert(!is_ws(s@[i as int]));
                    assert(i1 == i);
                    assert(false);
                } else {
                    crate::text::lemma_text_at_char(s@, i as int, '}');
                    assert(i1 == i);
                }
            }
            assert(jv_of_members(Seq::<(String, JsonValue)>::empty())
                =~= Seq::<(Seq<char>, JVal)>::empty());
            let txt = s@.subrange(i as int, i1 as int + 1);
            assert(txt.last() == '}');
            assert(txt.drop_last() =~= s@.subrange(i as int, i1 as int));
            lemma_ws_subrange(s@, i as int, i1 as int);
            assert(rep_members(txt, Seq::<(Seq<char>, JVal)>::empty()));
        }
        return Some((Vec::new(), i1 + 1));
    }
    if i1 >= s.len() || !(s[i1] == '"') {
        proof {
            assert forall|fs: Seq<(Seq<char>, JVal)>|
                (forall|k: int| 0 <= k < fs.len() ==> wf(#[trigger] fs[k].1))
                    && #[trigger] crate::text::text_at(
                    s@,
                    i as int,
                    enc_members(fs) + seq!['}'],
                ) implies false by {
                if fs.len() == 0 {
                    crate::text::lemma_text_at_char(s@, i as int, '}');
                    assert(i1 == i);
                } else {
                    members_shape(s@, i as int, fs);
                    assert(!is_ws(s@[i as int]));
                    assert(i1 == i);
                }
            }
        }
        return None;
    }
    match parse_strbody(s, i1 + 1) {
        None => {
            proof {
                assert forall|fs: Seq<(Seq<char>, JVal)>|
                    (forall|k: int| 0 <= k < fs.len() ==> wf(#[trigger] fs[k].1))
                        && #[trigger] crate::text::text_at(
                        s@,
                        i as int,
                        enc_members(fs) + seq!['}'],
                    ) implies false by {
                    if fs.len() == 0 {
                        crate::text::lemma_text_at_char(s@, i as int, '}');
                        assert(i1 == i);
                    } else {
                        members_shape(s@, i as int, fs);
                        assert(i1 == i);
                    }
                }
            }
            None
        },
        Some((key_cs, kj)) => {
            let j1 = skip_ws(s, kj);
            proof {
                assert forall|fs: Seq<(Seq<char>, JVal)>|
                    (forall|k: int| 0 <= k < fs.len() ==> wf(#[trigger] fs[k].1))
                        && #[trigger] crate::text::text_at(
                        s@,
                        i as int,
                        enc_members(fs) + seq!['}'],
                    ) implies fs.len() > 0 && i1 == i && key_cs@ == fs[0].0 && kj == i + enc_str(
                    fs[0].0,
                ).len() && j1 == kj && s@[kj as int] == ':' by {
                    if fs.len() == 0 {
                        crate::text::lemma_text_at_char(s@, i as int, '}');
                        assert(i1 == i);
                        assert(false);
                    } else {
                        members_shape(s@, i as int, fs);
                        assert(i1 == i);
                        assert(key_cs@ == fs[0].0 && kj == i + 1 + esc(fs[0].0).len() + 1);
                        assert(enc_str(fs[0].0).len() == esc(fs[0].0).len() + 2);
                        assert(!is_ws(s@[kj as int]));
                        assert(j1 == kj);
                    }
                }
            }
            if j1 >= s.len() || !(s[j1] == ':') {
                proof {
                    assert forall|fs: Seq<(Seq<char>, JVal)>|
                        (forall|k: int| 0 <= k < fs.len() ==> wf(#[trigger] fs[k].1))
                            && #[trigger] crate::text::text_at(
                            s@,
                            i as int,
                            enc_members(fs) + seq!['}'],
                        ) implies false by {}
                }
                return None;
            }
            match parse_value(s, j1 + 1) {
                None => {
                    proof {
                        assert forall|fs: Seq<(Seq<char>, JVal)>|
                            (forall|k: int| 0 <= k < fs.len() ==> wf(#[trigger] fs[k].1))
                                && #[trigger] crate::text::text_at(
                                s@,
                                i as int,
                                enc_members(fs) + seq!['}'],
                            ) implies false by {
                            members_shape(s@, i as int, fs);
                        }
                    }
                    None
                },
                Some((v, j2)) => {
                    let key = crate::text::string_from_chars(&key_cs);
                    let j3 = skip_ws(s, j2);
                    proof {
                        assert forall|fs: Seq<(Seq<char>, JVal)>|
                            (forall|k: int| 0 <= k < fs.len() ==> wf(#[trigger] fs[k].1))
                                && #[trigger] crate::text::text_at(
                                s@,
                                i as int,
                                enc_members(fs) + seq!['}'],
                            ) implies fs.len() > 0 && v@ == fs[0].1 && j2 == kj + 1 + enc(
                            fs[0].1,
                        ).len() && j3 == j2 && (fs.len() == 1 ==> s@[j2 as int] == '}') && (fs.len()
                            > 1 ==> s@[j2 as int] == ',' && crate::text::text_at(
                            s@,
                            j2 as int + 1,
                            enc_members(fs.drop_first()) + seq!['}'],
                        )) by {
                            members_shape(s@, i as int, fs);
                            assert(v@ == fs[0].1 && j2 == kj + 1 + enc(fs[0].1).len());
                            assert(!is_ws(s@[j2 as int]));
                            assert(j3 == j2);
                        }
                    }
                    if j3 < s.len() && s[j3] == ',' {
                        match parse_members(s, j3 + 1) {
                            None => {
                                proof {
                                    assert forall|fs: Seq<(Seq<char>, JVal)>|
                                        (forall|k: int| 0 <= k < fs.len() ==> wf(
                                            #[trigger] fs[k].1,
                                        )) && #[trigger] crate::text::text_at(
                                            s@,
                                            i as int,
                                            enc_members(fs) + seq!['}'],
                                        ) implies false by {
                                        members_shape(s@, i as int, fs);
                                        assert(forall|k: int|
                                            0 <= k < fs.drop_first().len() ==> wf(
                                                #[trigger] fs.drop_first()[k].1,
                                            ));
                                    }
                                }
                                None
                            },
                            Some((mut ms, j4)) => {
                                let ghost ms0 = ms@;
                                proof {
                                    assert(wf(JVal::Obj(jv_of_members(ms0))));
                                }
                                ms.insert(0, (key, v));
                                proof {
                                    assert(ms@ =~= seq![(key, v)] + ms0);
                                    assert(jv_of_members(seq![(key, v)] + ms0) == seq![
                                        (key@, jv_of(v)),
                                    ] + jv_of_members(ms0)) by {
                                        let u = seq![(key, v)] + ms0;
                                        assert(u[0] == (key, v));
                                        assert(u.drop_first() =~= ms0);
                                    }
                                    assert(wf(JVal::Obj(jv_of_members(ms@)))) by {
                                        lemma_wf_obj(jv_of_members(ms0));
                                        assert(forall|k: int|
                                            0 <= k < jv_of_members(ms@).len() ==> wf(
                                                #[trigger] jv_of_members(ms@)[k].1,
                                            ));
                                    }
                                    assert forall|fs: Seq<(Seq<char>, JVal)>|
                                        (forall|k: int| 0 <= k < fs.len() ==> wf(
                                            #[trigger] fs[k].1,
                                        )) && #[trigger] crate::text::text_at(
                                            s@,
                                            i as int,
                                            enc_members(fs) + seq!['}'],
                                        ) implies jv_of_members(ms@) == fs && j4 == i + enc_members(
                                        fs,
                                    ).len() + 1 by {
                                        members_shape(s@, i as int, fs);
                                        assert(fs.len() > 1);
                                        assert(forall|k: int|
                                            0 <= k < fs.drop_first().len() ==> wf(
                                                #[trigger] fs.drop_first()[k].1,
                                            ));
                                        assert(jv_of_members(ms0) == fs.drop_first());
                                        assert(jv_of_members(ms@) =~= fs);
                                    }
                                    assert(str_body_rep(
                                        s@.subrange(i1 as int + 1, kj - 1),
                                        jv_of_members(ms@)[0].0,
                                    ));
                                    assert(rep_val(
                                        s@.subrange(j1 as int + 1, j2 as int),
                                        jv_of_members(ms@)[0].1,
                                    ));
                                    assert(jv_of_members(ms@).drop_first() =~= jv_of_members(ms0));
                                    assert(rep_members(
                                        s@.subrange(j3 as int + 1, j4 as int),
                                        jv_of_members(ms0),
                                    ));
                                    rep_members_cons(
                                        s@,
                                        i as int,
                                        i1 as int,
                                        kj as int,
                                        j1 as int,
                                        j2 as int,
                                        j3 as int,
                                        j4 as int,
                                        jv_of_members(ms@),
                                    );
                                }
                                Some((ms, j4))
                            },
                        }
                    } else if j3 < s.len() && s[j3] == '}' {
                        let mut ms: Vec<(String, JsonValue)> = Vec::new();
                        ms.push((key, v));
                        proof {
                            assert(ms@ =~= seq![(key, v)]);
                            assert(jv_of_members(Seq::<(String, JsonValue)>::empty())
                                =~= Seq::<(Seq<char>, JVal)>::empty());
                            assert(jv_of_members(ms@) == seq![(key@, jv_of(v))]) by {
                                assert(ms@[0] == (key, v));
                                assert(ms@.drop_first() =~= Seq::<(String, JsonValue)>::empty());
                                assert(jv_of_members(ms@) == seq![(key@, jv_of(v))] + jv_of_members(
                                    ms@.drop_first(),
                                ));
                                assert(seq![(key@, jv_of(v))] + Seq::<(Seq<char>, JVal)>::empty()
                                    =~= seq![(key@, jv_of(v))]);
                            }
                            assert(wf(JVal::Obj(jv_of_members(ms@))));
                            assert forall|fs: Seq<(Seq<char>, JVal)>|
                                (forall|k: int| 0 <= k < fs.len() ==> wf(#[trigger] fs[k].1))
                                    && #[trigger] crate::text::text_at(
                                    s@,
                                    i as int,
                                    enc_members(fs) + seq!['}'],
                                ) implies jv_of_members(ms@) == fs && j3 + 1 == i + enc_members(
                                fs,
                            ).len() + 1 by {
                                members_shape(s@, i as int, fs);
                                assert(fs.len() == 1);
                                assert(jv_of_members(ms@) =~= fs);
                            }
                            assert(str_body_rep(
                                s@.subrange(i1 as int + 1, kj - 1),
                                jv_of_members(ms@)[0].0,
                            ));
                            assert(rep_val(
                                s@.subrange(j1 as int + 1, j2 as int),
                                jv_of_members(ms@)[0].1,
                            ));
                            rep_members_cons(
                                s@,
                                i as int,
                                i1 as int,
                                kj as int,
                                j1 as int,
                                j2 as int,
                                j3 as int,
                                j3 as int + 1,
                                jv_of_members(ms@),
                            );
                        }
                        Some((ms, j3 + 1))
                    } else {
                        proof {
                            assert forall|fs: Seq<(Seq<char>, JVal)>|
                                (forall|k: int| 0 <= k < fs.len() ==> wf(#[trigger] fs[k].1))
                                    && #[trigger] crate::text::text_at(
                                    s@,
                                    i as int,
                                    enc_members(fs) + seq!['}'],
                                ) implies false by {
                                members_shape(s@, i as int, fs);
                            }
                        }
                        None
                    }
                },
            }
        },
    }
}

/// Parses a whole JSON text: one value, possibly surrounded by whitespace.
///
/// The first `ensures` clause ties the result to the input: a parsed value
/// is well formed and is what the text reads as under the grammar — so
/// text that reads as no value at all cannot parse. The second is the
/// round trip: the canonical text of any well-formed value parses back to
/// exactly that value.
pub fn parse_json_text(s: &str) -> (r: Option<JsonValue>)
    ensures
        r matches Some(v) ==> wf(v@) && represents(s@, v@),
        forall|jv: JVal|
            wf(jv) && s@ == enc(jv) ==> (r matches Some(v) && v@ == jv),
{
    let cs = crate::text::chars_of(s);
    match parse_value(&cs, 0) {
        None => {
            proof {
                assert forall|jv: JVal| wf(jv) && s@ == enc(jv) implies false by {
                    assert(cs@.subrange(0, enc(jv).len() as int) =~= enc(jv));
                    assert(crate::text::text_at(cs@, 0, enc(jv)));
                }
            }
            None
        },
        Some((v, j)) => {
            let j1 = skip_ws(&cs, j);
            if j1 == cs.len() {
                proof {
                    assert forall|jv: JVal| wf(jv) && s@ == enc(jv) implies v@ == jv by {
                        assert(cs@.subrange(0, enc(jv).len() as int) =~= enc(jv));
                        assert(crate::text::text_at(cs@, 0, enc(jv)));
                    }
                    assert(rep_val(cs@.subrange(0, j as int), v@));
                    lemma_ws_subrange(cs@, j as int, cs@.len() as int);
                    assert(cs@ =~= cs@.subrange(0, j as int) + cs@.subrange(
                        j as int,
                        cs@.len() as int,
                    ));
                    assert(represents(cs@, v@));
                }
                Some(v)
            } else {
                proof {
                    assert forall|jv: JVal| wf(jv) && s@ == enc(jv) implies false by {
                        assert(cs@.subrange(0, enc(jv).len() as int) =~= enc(jv));
                        assert(crate::text::text_at(cs@, 0, enc(jv)));
                        assert(j == cs@.len());
                    }
                }
                None
            }
        },
    }
}

/// The models of a value sequence, element by element.
pub proof fn lemma_jv_of_elems_index(es: Seq<JsonValue>)
    ensures
        jv_of_elems(es).len() == es.len(),
        forall|k: int| 0 <= k < es.len() ==> jv_of_elems(es)[k] == jv_of(es[k]),
    decreases es.len(),
{
    if es.len() > 0 {
        lemma_jv_of_elems_index(es.drop_first());
        assert forall|k: int| 0 <= k < es.len() implies jv_of_elems(es)[k] == jv_of(es[k]) by {
            if k > 0 {
                assert(jv_of_elems(es)[k] == jv_of_elems(es.drop_first())[k - 1]);
                assert(es.drop_first()[k - 1] == es[k]);
            }
        }
    }
}

/// The models of a member sequence, member by member.
pub proof fn lemma_jv_of_members_index(fs: Seq<(String, JsonValue)>)
    ensures
        jv_of_members(fs).len() == fs.len(),
        forall|k: int|
            0 <= k < fs.len() ==> #[trigger] jv_of_members(fs)[k] == (fs[k].0@, jv_of(fs[k].1)),
    decreases fs.len(),
{
    if fs.len() > 0 {
        lemma_jv_of_members_index(fs.drop_first());
        assert forall|k: int|
            0 <= k < fs.len() implies #[trigger] jv_of_members(fs)[k] == (
            fs[k].0@,
            jv_of(fs[k].1),
        ) by {
            if k > 0 {
                assert(jv_of_members(fs)[k] == jv_of_members(fs.drop_first())[k - 1]);
                assert(fs.drop_first()[k - 1] == fs[k]);
            }
        }
    }
}

/// A small tag telling the variants apart.
pub open spec fn spec_tag(v: JVal) -> int {
    match v {
        JVal::Null => 0,
        JVal::Bool(_) => 1,
        JVal::Num(_) => 2,
        JVal::Str(_) => 3,
        JVal::Arr(_) => 4,
        JVal::Obj(_) => 5,
    }
}

fn tag(v: &JsonValue) -> (r: u8)
    ensures
        r as int == spec_tag(v@),
{
    match v {
        JsonValue::Null => 0,
        JsonValue::Bool(_) => 1,
        JsonValue::Num(_) => 2,
        JsonValue::Str(_) => 3,
        JsonValue::Arr(_) => 4,
        JsonValue::Obj(_) => 5,
    }
}

/// Structural equality of two JSON values.
#[verifier::loop_isolation(false)]
pub fn json_eq(a: &JsonValue, b: &JsonValue) -> (r: bool)
    ensures
        r == (a@ == b@),
    decreases a,
{
    if tag(a) != tag(b) {
        return false;
    }
    match (a, b) {
        (JsonValue::Null, JsonValue::Null) => {
            return true;
        },
        (JsonValue::Bool(x), JsonValue::Bool(y)) => {
            return x == y;
        },
        (JsonValue::Num(x), JsonValue::Num(y)) => {
            return crate::text::chars_eq(x, y);
        },
        (JsonValue::Str(x), JsonValue::Str(y)) => {
            return *x == *y;
        },
        (JsonValue::Arr(xs), JsonValue::Arr(ys)) => {
            proof {
                lemma_jv_of_elems_index(xs@);
                lemma_jv_of_elems_index(ys@);
            }
            if xs.len() != ys.len() {
                return false;
            }
            let mut k: usize = 0;
            while k < xs.len()
                invariant
                    k <= xs@.len(),
                    xs@.len() == ys@.len(),
                    forall|m: int| 0 <= m < k ==> jv_of(xs@[m]) == jv_of(ys@[m]),
                decreases xs@.len() - k,
            {
                proof {
                    assert(decreases_to!(*a => *xs));
                    assert(decreases_to!(*xs => xs@));
                    assert(decreases_to!(xs@ => xs@[k as int]));
                }
                if !json_eq(&xs[k], &ys[k]) {
                    proof {
                        assert(jv_of_elems(xs@)[k as int] == jv_of(xs@[k as int]));
                        assert(jv_of_elems(ys@)[k as int] == jv_of(ys@[k as int]));
                    }
                    return false;
                }
                k = k + 1;
            }
            proof {
                assert(jv_of_elems(xs@) =~= jv_of_elems(ys@));
            }
            true
        },
        (JsonValue::Obj(xs), JsonValue::Obj(ys)) => {
            proof {
                lemma_jv_of_members_index(xs@);
                lemma_jv_of_members_index(ys@);
            }
            if xs.len() != ys.len() {
                return false;
            }
            let mut k: usize = 0;
            while k < xs.len()
                invariant
                    k <= xs@.len(),
                    xs@.len() == ys@.len(),
                    forall|m: int|
                        0 <= m < k ==> xs@[m].0@ == ys@[m].0@ && jv_of(xs@[m].1) == jv_of(
                            ys@[m].1,
                        ),
                decreases xs@.len() - k,
            {
                if !(xs[k].0 == ys[k].0) {
                    proof {
                        assert(jv_of_members(xs@)[k as int].0 != jv_of_members(ys@)[k as int].0);
                    }
                    return false;
                }
                proof {
                    assert(decreases_to!(*a => *xs));
                    assert(decreases_to!(*xs => xs@));
                    assert(decreases_to!(xs@ => xs@[k as int]));
                    assert(decreases_to!(xs@[k as int] => xs@[k as int].1));
                }
                if !json_eq(&xs[k].1, &ys[k].1) {
                    proof {
                        assert(jv_of_members(xs@)[k as int].1 != jv_of_members(ys@)[k as int].1);
                    }
                    return false;
                }
                k = k + 1;
            }
            proof {
                assert(jv_of_members(xs@) =~= jv_of_members(ys@));
            }
            true
        },
        _ => {
            // Unreachable: equal tags mean the two values are of the same
            // variant, and every same-variant pair has its own arm above.
            proof {
                assert(false);
            }
            false
        },
    }
}

/// A deep copy of a JSON value.
#[verifier::loop_isolation(false)]
pub fn clone_json(v: &JsonValue) -> (r: JsonValue)
    ensures
        r@ == v@,
    decreases v,
{
    match v {
        JsonValue::Null => JsonValue::Null,
        JsonValue::Bool(b) => JsonValue::Bool(*b),
        JsonValue::Num(l) => {
            let mut out: Vec<char> = Vec::new();
            crate::text::push_all(&mut out, l);
            proof {
                assert(out@ =~= l@);
            }
            JsonValue::Num(out)
        },
        JsonValue::Str(s) => JsonValue::Str(s.clone()),
        JsonValue::Arr(es) => {
            let mut out: Vec<JsonValue> = Vec::new();
            let mut k: usize = 0;
            while k < es.len()
                invariant
                    k <= es@.len(),
                    out@.len() == k,
                    forall|m: int| 0 <= m < k ==> jv_of(out@[m]) == jv_of(es@[m]),
                decreases es@.len() - k,
            {
                proof {
                    assert(decreases_to!(*v => *es));
                    assert(decreases_to!(*es => es@));
                    assert(decreases_to!(es@ => es@[k as int]));
                }
                let c = clone_json(&es[k]);
                out.push(c);
                k = k + 1;
            }
            proof {
                lemma_jv_of_elems_index(out@);
                lemma_jv_of_elems_index(es@);
                assert(jv_of_elems(out@) =~= jv_of_elems(es@));
            }
            JsonValue::Arr(out)
        },
        JsonValue::Obj(fs) => {
            let mut out: Vec<(String, JsonValue)> = Vec::new();
            let mut k: usize = 0;
            while k < fs.len()
                invariant
                    k <= fs@.len(),
                    out@.len() == k,
                    forall|m: int|
                        0 <= m < k ==> out@[m].0@ == fs@[m].0@ && jv_of(out@[m].1) == jv_of(
                            fs@[m].1,
                        ),
                decreases fs@.len() - k,
            {
                proof {
                    assert(decreases_to!(*v => *fs));
                    assert(decreases_to!(*fs => fs@));
                    assert(decreases_to!(fs@ => fs@[k as int]));
                    assert(decreases_to!(fs@[k as int] => fs@[k as int].1));
                }
                let c = clone_json(&fs[k].1);
                let key = fs[k].0.clone();
                out.push((key, c));
                k = k + 1;
            }
            proof {
                lemma_jv_of_members_index(out@);
                lemma_jv_of_members_index(fs@);
                assert(jv_of_members(out@) =~= jv_of_members(fs@));
            }
            JsonValue::Obj(out)
        },
    }
}

/// The user-facing string form of a JSON value: the bare characters for a
/// string, and the canonical JSON text for anything else.
pub open spec fn spec_stringify(v: JVal) -> Seq<char> {
    match v {
        JVal::Str(t) => t,
        _ => enc(v),
    }
}

/// The string form of a JSON value, as saved by variable extraction.
pub fn stringify_json(v: &JsonValue) -> (r: String)
    ensures
        r@ == spec_stringify(v@),
{
    match v {
        JsonValue::Str(s) => s.clone(),
        _ => to_json_string(v),
    }
}

/// The value stored under a top-level key of an object, if any.
pub open spec fn spec_get(v: JVal, key: Seq<char>) -> Option<JVal> {
    match v {
        JVal::Obj(fs) => spec_get_member(fs, key),
        _ => None,
    }
}

/// The first member with the given key, if any.
pub open spec fn spec_get_member(fs: Seq<(Seq<char>, JVal)>, key: Seq<char>) -> Option<JVal>
    decreases fs.len(),
{
    if fs.len() == 0 {
        None
    } else if fs[0].0 == key {
        Some(fs[0].1)
    } else {
        spec_get_member(fs.drop_first(), key)
    }
}

/// The canonical JSON text of a value.
pub fn to_json_string(v: &JsonValue) -> (r: String)
    ensures
        r@ == enc(v@),
{
    let mut out: Vec<char> = Vec::new();
    write_value(v, &mut out);
    crate::text::string_from_chars(&out)
}

} // verus!
