//! Host-name normalization: a candidate name is queried with exactly one
//! trailing dot, however many the input carried.

use vstd::prelude::*;
use vstd::string::*;

verus! {

/// The characters of `s` with every trailing `'.'` removed.
pub open spec fn strip_trailing_dots(s: Seq<char>) -> Seq<char>
    decreases s.len(),
{
    if s.len() > 0 && s.last() == '.' {
        strip_trailing_dots(s.drop_last())
    } else {
        s
    }
}

/// A host name as it is handed to a resolver: trailing dots stripped,
/// then exactly one appended.
pub open spec fn normalized(s: Seq<char>) -> Seq<char> {
    strip_trailing_dots(s).push('.')
}

proof fn lemma_strip_no_trailing_dot(s: Seq<char>)
    ensures
        strip_trailing_dots(s).len() == 0 || strip_trailing_dots(s).last() != '.',
    decreases s.len(),
{
    if s.len() > 0 && s.last() == '.' {
        lemma_strip_no_trailing_dot(s.drop_last());
    }
}

proof fn lemma_strip_push_dot(s: Seq<char>)
    ensures
        strip_trailing_dots(s.push('.')) == strip_trailing_dots(s),
{
    assert(s.push('.').last() == '.');
    assert(s.push('.').drop_last() =~= s);
}

/// Normalizing is idempotent: a second pass over an already normalized
/// name changes nothing.
pub proof fn lemma_normalize_idempotent(s: Seq<char>)
    ensures
        normalized(normalized(s)) == normalized(s),
{
    lemma_strip_push_dot(strip_trailing_dots(s));
    lemma_strip_no_trailing_dot(s);
}

/// Strips every trailing dot from `host` and appends exactly one.
pub fn normalize_host(host: &str) -> (r: String)
    ensures
        r@ == normalized(host@),
{
    let n = host.unicode_len();
    let mut k = n;
    proof {
        assert(host@.subrange(0, n as int) =~= host@);
    }
    while k > 0 && host.get_char(k - 1) == '.'
        invariant
            k <= n,
            n == host@.len(),
            strip_trailing_dots(host@) == strip_trailing_dots(host@.subrange(0, k as int)),
        decreases k,
    {
        proof {
            let pre = host@.subrange(0, k as int);
            assert(pre.last() == host@[k - 1]);
            assert(pre.drop_last() =~= host@.subrange(0, k - 1));
        }
        k -= 1;
    }
    proof {
        let pre = host@.subrange(0, k as int);
        if k == 0 {
            assert(pre =~= Seq::<char>::empty());
        } else {
            assert(pre.last() == host@[k - 1]);
        }
        assert(strip_trailing_dots(host@) == pre);
    }
    let trimmed = host.substring_char(0, k);
    let r = String::from_str(trimmed).concat(".");
    proof {
        reveal_strlit(".");
        assert(r@ =~= normalized(host@));
    }
    r
}

/// `word` and `domain` joined as `word.domain`, the brute-force candidate form.
pub fn join_host(word: &str, domain: &str) -> (r: String)
    ensures
        r@ == word@ + seq!['.'] + domain@,
{
    let mut r = String::from_str(word);
    r.append(".");
    r.append(domain);
    proof {
        reveal_strlit(".");
        assert(r@ =~= word@ + seq!['.'] + domain@);
    }
    r
}

} // verus!
