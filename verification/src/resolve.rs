//! Variable substitution: every `{{key}}` placeholder in a URL or header is
//! replaced by the matching global variable's value, one variable after the
//! other in table order.

use vstd::prelude::*;
use crate::structs::{GlobalVariable, GlobalV, globals_view};
use crate::text::{spec_replace, spec_find, text_at, replace_all, chars_of, push_all, string_from_chars, lemma_spec_find};

verus! {

/// The placeholder text standing for a key.
pub open spec fn placeholder(key: Seq<char>) -> Seq<char> {
    seq!['{', '{'] + key + seq!['}', '}']
}

/// `s` after substituting every variable of the table, in table order.
pub open spec fn spec_resolve(s: Seq<char>, gs: Seq<GlobalV>) -> Seq<char>
    decreases gs.len(),
{
    if gs.len() == 0 {
        s
    } else {
        spec_resolve(spec_replace(s, placeholder(gs[0].key), gs[0].value), gs.drop_first())
    }
}

/// The substituted form of `s` under the given global-variable table.
#[verifier::loop_isolation(false)]
pub fn resolve_string(s: &str, globals: &Vec<GlobalVariable>) -> (r: String)
    ensures
        r@ == spec_resolve(s@, globals_view(globals@)),
{
    let mut cur: Vec<char> = chars_of(s);
    let ghost gs = globals_view(globals@);
    proof {
        assert(gs.skip(0) =~= gs);
    }
    let mut i: usize = 0;
    while i < globals.len()
        invariant
            i <= globals@.len(),
            gs == globals_view(globals@),
            spec_resolve(s@, gs) == spec_resolve(cur@, gs.skip(i as int)),
        decreases globals@.len() - i,
    {
        let mut pat: Vec<char> = Vec::new();
        pat.push('{');
        pat.push('{');
        let key_chars = chars_of(globals[i].key.as_str());
        push_all(&mut pat, &key_chars);
        pat.push('}');
        pat.push('}');
        proof {
            assert(pat@ =~= placeholder(globals@[i as int]@.key));
        }
        let rep = chars_of(globals[i].value.as_str());
        let next = replace_all(&cur, &pat, &rep);
        proof {
            assert(gs.skip(i as int)[0] == gs[i as int]);
            assert(gs.skip(i as int).drop_first() =~= gs.skip(i as int + 1));
            assert(spec_resolve(cur@, gs.skip(i as int)) == spec_resolve(
                next@,
                gs.skip(i as int + 1),
            ));
        }
        cur = next;
        i = i + 1;
    }
    proof {
        assert(gs.skip(globals@.len() as int) =~= Seq::<GlobalV>::empty());
    }
    string_from_chars(&cur)
}

/// A string holding no `{{...}}` placeholder: nowhere does a `{{` stand
/// with a `}}` somewhere after it.
pub open spec fn no_placeholder(s: Seq<char>) -> bool {
    forall|i: int, j: int|
        #![trigger s[i], s[j]]
        !(text_at(s, i, seq!['{', '{']) && i + 2 <= j && text_at(s, j, seq!['}', '}']))
}

/// Substitution changes nothing in a string that holds no `{{...}}`
/// placeholder, whatever the global-variable table holds.
pub proof fn lemma_resolve_no_placeholder(s: Seq<char>, gs: Seq<GlobalV>)
    requires
        no_placeholder(s),
    ensures
        spec_resolve(s, gs) == s,
    decreases gs.len(),
{
    if gs.len() > 0 {
        let pat = placeholder(gs[0].key);
        assert(spec_find(s, pat, 0) is None) by {
            lemma_spec_find(s, pat, 0);
            if spec_find(s, pat, 0) is Some {
                let i = spec_find(s, pat, 0)->0;
                assert(text_at(s, i, pat));
                assert(pat =~= seq!['{', '{'] + (gs[0].key + seq!['}', '}']));
                crate::text::lemma_text_at_concat(
                    s,
                    i,
                    seq!['{', '{'],
                    gs[0].key + seq!['}', '}'],
                );
                assert(text_at(s, i, seq!['{', '{']));
                assert(gs[0].key + seq!['}', '}'] =~= gs[0].key + seq!['}', '}']);
                crate::text::lemma_text_at_concat(
                    s,
                    i + 2,
                    gs[0].key,
                    seq!['}', '}'],
                );
                assert(text_at(s, i + 2 + gs[0].key.len(), seq!['}', '}']));
                crate::text::lemma_text_at_first(s, i, seq!['{', '{']);
                crate::text::lemma_text_at_first(s, i + 2 + gs[0].key.len(), seq!['}', '}']);
                assert(false);
            }
        }
        assert(spec_replace(s, pat, gs[0].value) == s);
        lemma_resolve_no_placeholder(s, gs.drop_first());
    }
}

} // verus!
