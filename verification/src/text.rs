//! Character-sequence utilities: conversions between `String` and `Vec<char>`,
//! and searching / replacing over character vectors.

use vstd::prelude::*;
use vstd::string::StrSliceExecFns;

verus! {

broadcast use vstd::std_specs::vec::group_vec_axioms;

/// The characters of `s`, in order.
pub fn chars_of(s: &str) -> (r: Vec<char>)
    ensures
        r@ == s@,
{
    let n = s.unicode_len();
    let mut out: Vec<char> = Vec::new();
    let mut i: usize = 0;
    while i < n
        invariant
            n == s@.len(),
            i <= n,
            out@ == s@.subrange(0, i as int),
        decreases n - i,
    {
        let c = s.get_char(i);
        out.push(c);
        i = i + 1;
        assert(out@ =~= s@.subrange(0, i as int));
    }
    assert(out@ =~= s@);
    out
}

/// `t` occurs in `s` starting at position `i`.
pub open spec fn text_at(s: Seq<char>, i: int, t: Seq<char>) -> bool {
    &&& 0 <= i
    &&& i + t.len() <= s.len()
    &&& s.subrange(i, i + t.len()) == t
}

/// An occurrence of a concatenation is an occurrence of each part in turn.
pub proof fn lemma_text_at_concat(s: Seq<char>, i: int, a: Seq<char>, b: Seq<char>)
    ensures
        text_at(s, i, a + b) <==> (text_at(s, i, a) && text_at(s, i + a.len(), b)),
{
    if text_at(s, i, a + b) {
        assert(s.subrange(i, i + a.len()) =~= (a + b).subrange(0, a.len() as int));
        assert((a + b).subrange(0, a.len() as int) =~= a);
        assert(s.subrange(i + a.len(), i + a.len() + b.len()) =~= (a + b).subrange(
            a.len() as int,
            (a + b).len() as int,
        ));
        assert((a + b).subrange(a.len() as int, (a + b).len() as int) =~= b);
    }
    if text_at(s, i, a) && text_at(s, i + a.len(), b) {
        assert(s.subrange(i, i + (a + b).len()) =~= a + b);
    }
}

/// An occurrence of a one-character text is that character standing at `i`.
pub proof fn lemma_text_at_char(s: Seq<char>, i: int, c: char)
    ensures
        text_at(s, i, seq![c]) <==> (0 <= i < s.len() && s[i] == c),
{
    if 0 <= i < s.len() && s[i] == c {
        assert(s.subrange(i, i + 1) =~= seq![c]);
    } else if text_at(s, i, seq![c]) {
        assert(s.subrange(i, i + 1)[0] == s[i]);
    }
}

/// The first character of an occurrence stands at its position.
pub proof fn lemma_text_at_first(s: Seq<char>, i: int, t: Seq<char>)
    requires
        text_at(s, i, t),
        t.len() > 0,
    ensures
        0 <= i < s.len(),
        s[i] == t[0],
{
    assert(s.subrange(i, i + t.len())[0] == s[i]);
}

/// The characters of `s` from `a` (inclusive) to `b` (exclusive).
#[verifier::loop_isolation(false)]
pub fn copy_range(s: &Vec<char>, a: usize, b: usize) -> (r: Vec<char>)
    requires
        a <= b <= s@.len(),
    ensures
        r@ == s@.subrange(a as int, b as int),
{
    let mut out: Vec<char> = Vec::new();
    let mut i: usize = a;
    while i < b
        invariant
            a <= i <= b,
            out@ == s@.subrange(a as int, i as int),
        decreases b - i,
    {
        out.push(s[i]);
        proof {
            assert(out@ =~= s@.subrange(a as int, i as int + 1));
        }
        i = i + 1;
    }
    out
}

/// The first position at or after `from` where `pat` occurs in `s`.
pub open spec fn spec_find(s: Seq<char>, pat: Seq<char>, from: int) -> Option<int>
    decreases s.len() - from,
    when 0 <= from && pat.len() > 0
{
    if from + pat.len() > s.len() {
        Option::None
    } else if text_at(s, from, pat) {
        Option::Some(from)
    } else {
        spec_find(s, pat, from + 1)
    }
}

/// What `spec_find` returns: the first occurrence, or none at all.
pub proof fn lemma_spec_find(s: Seq<char>, pat: Seq<char>, from: int)
    requires
        0 <= from,
        pat.len() > 0,
    ensures
        spec_find(s, pat, from) matches Option::Some(i) ==> from <= i && i + pat.len() <= s.len()
            && text_at(s, i, pat) && (forall|j: int| from <= j < i ==> !text_at(s, j, pat)),
        spec_find(s, pat, from) is None ==> forall|j: int| from <= j ==> !text_at(s, j, pat),
    decreases s.len() - from,
{
    if from + pat.len() > s.len() {
        assert forall|j: int| from <= j implies !text_at(s, j, pat) by {}
    } else if text_at(s, from, pat) {
    } else {
        lemma_spec_find(s, pat, from + 1);
    }
}

/// `s` with every occurrence of `pat` replaced by `rep`, scanning left to
/// right, the replacement itself never rescanned.
pub open spec fn spec_replace(s: Seq<char>, pat: Seq<char>, rep: Seq<char>) -> Seq<char>
    decreases s.len(),
    when pat.len() > 0
    via spec_replace_dec
{
    match spec_find(s, pat, 0) {
        Option::None => s,
        Option::Some(i) => s.subrange(0, i) + rep + spec_replace(s.skip(i + pat.len()), pat, rep),
    }
}

#[via_fn]
proof fn spec_replace_dec(s: Seq<char>, pat: Seq<char>, rep: Seq<char>) {
    if pat.len() > 0 {
        lemma_spec_find(s, pat, 0);
    }
}

/// The position of the first occurrence of `pat` in `s` at or after `from`.
#[verifier::loop_isolation(false)]
pub fn find_sub(s: &Vec<char>, pat: &Vec<char>, from: usize) -> (r: Option<usize>)
    requires
        from <= s@.len(),
        pat@.len() > 0,
    ensures
        match r {
            Option::Some(i) => from <= i && i + pat@.len() <= s@.len() && spec_find(
                s@,
                pat@,
                from as int,
            ) == Option::Some(i as int),
            Option::None => spec_find(s@, pat@, from as int) is None,
        },
{
    let mut i = from;
    while pat.len() <= s.len() - i
        invariant
            from <= i <= s@.len(),
            spec_find(s@, pat@, from as int) == spec_find(s@, pat@, i as int),
        decreases s@.len() - i,
    {
        let mut j: usize = 0;
        let mut matched = true;
        while j < pat.len()
            invariant
                0 <= j <= pat@.len(),
                i + pat@.len() <= s@.len(),
                matched ==> forall|k: int| 0 <= k < j ==> s@[i + k] == pat@[k],
                !matched ==> !text_at(s@, i as int, pat@),
            decreases pat@.len() - j,
        {
            if s[i + j] != pat[j] {
                proof {
                    if text_at(s@, i as int, pat@) {
                        assert(s@.subrange(i as int, i + pat@.len())[j as int] == s@[i + j]);
                    }
                }
                matched = false;
                j = pat.len();
            } else {
                j = j + 1;
            }
        }
        if matched {
            proof {
                assert(s@.subrange(i as int, i + pat@.len()) =~= pat@);
                assert(spec_find(s@, pat@, i as int) == Option::Some(i as int));
            }
            return Some(i);
        }
        proof {
            assert(spec_find(s@, pat@, i as int) == spec_find(s@, pat@, i as int + 1));
        }
        i = i + 1;
    }
    proof {
        assert(i + pat@.len() > s@.len());
        assert(spec_find(s@, pat@, i as int) is None);
    }
    None
}

/// `s` with every occurrence of `pat` replaced by `rep`.
pub fn replace_all(s: &Vec<char>, pat: &Vec<char>, rep: &Vec<char>) -> (r: Vec<char>)
    requires
        pat@.len() > 0,
    ensures
        r@ == spec_replace(s@, pat@, rep@),
    decreases s@.len(),
{
    match find_sub(s, pat, 0) {
        Option::None => {
            let mut out: Vec<char> = Vec::new();
            push_all(&mut out, s);
            proof {
                assert(out@ =~= s@);
            }
            out
        },
        Option::Some(i) => {
            let n = s.len();
            let mut out = copy_range(s, 0, i);
            push_all(&mut out, rep);
            let tail = copy_range(s, i + pat.len(), n);
            proof {
                assert(tail@ =~= s@.skip(i + pat@.len()));
            }
            let rest = replace_all(&tail, pat, rep);
            push_all(&mut out, &rest);
            proof {
                assert(out@ =~= spec_replace(s@, pat@, rep@));
            }
            out
        },
    }
}

/// Appends every character of `src` to `out`, in order.
#[verifier::loop_isolation(false)]
pub fn push_all(out: &mut Vec<char>, src: &Vec<char>)
    ensures
        final(out)@ == old(out)@ + src@,
{
    let mut i: usize = 0;
    while i < src.len()
        invariant
            i <= src@.len(),
            out@ == old(out)@ + src@.subrange(0, i as int),
        decreases src@.len() - i,
    {
        out.push(src[i]);
        proof {
            assert(out@ =~= old(out)@ + src@.subrange(0, i as int + 1));
        }
        i = i + 1;
    }
    proof {
        assert(out@ =~= old(out)@ + src@);
    }
}

/// Whether two character vectors hold the same characters.
#[verifier::loop_isolation(false)]
pub fn chars_eq(a: &Vec<char>, b: &Vec<char>) -> (r: bool)
    ensures
        r == (a@ == b@),
{
    if a.len() != b.len() {
        return false;
    }
    let mut i: usize = 0;
    while i < a.len()
        invariant
            i <= a@.len(),
            a@.len() == b@.len(),
            forall|k: int| 0 <= k < i ==> a@[k] == b@[k],
        decreases a@.len() - i,
    {
        if a[i] != b[i] {
            return false;
        }
        i = i + 1;
    }
    proof {
        assert(a@ =~= b@);
    }
    true
}

/// Whether `a` equals the string slice `b`.
pub fn str_eq(a: &str, b: &str) -> (r: bool)
    ensures
        r == (a@ == b@),
{
    let ca = chars_of(a);
    let cb = chars_of(b);
    chars_eq(&ca, &cb)
}

/// Relies on `String: FromIterator<char>`: collecting an iterator of
/// characters yields the string made of exactly those characters in order.
#[verifier::external_body]
pub(crate) fn string_from_chars(v: &Vec<char>) -> (r: String)
    ensures
        r@ == v@,
{
    v.iter().collect()
}

} // verus!
