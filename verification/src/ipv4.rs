//! Validation of dotted-quad IPv4 strings, as the wildcard detector applies
//! it defensively to the addresses a lookup returns: four decimal octets
//! 0..=255 without leading zeros, separated by single dots.

use vstd::prelude::*;
use vstd::string::*;

verus! {

/// `c` is a decimal digit.
pub open spec fn is_digit_char(c: char) -> bool {
    48 <= c as u32 <= 57
}

/// The numeric value of a digit character.
pub open spec fn digit_val(c: char) -> int {
    c as u32 - 48
}

/// The decimal value of a digit string.
pub open spec fn octet_val(s: Seq<char>) -> int
    decreases s.len(),
{
    if s.len() == 0 {
        0
    } else {
        octet_val(s.drop_last()) * 10 + digit_val(s.last())
    }
}

/// `s` is a valid decimal octet: one to three digits, no leading zero,
/// value at most 255.
pub open spec fn octet_ok(s: Seq<char>) -> bool {
    &&& 1 <= s.len() <= 3
    &&& (forall|i: int| 0 <= i < s.len() ==> is_digit_char(#[trigger] s[i]))
    &&& octet_val(s) <= 255
    &&& (s.len() > 1 ==> s[0] != '0')
}

/// `s` is a dotted-quad IPv4 address: four valid octets separated by dots.
pub open spec fn is_dotted_quad(s: Seq<char>) -> bool {
    exists|a: int, b: int, c: int|
        {
            &&& 0 <= a < b < c < s.len()
            &&& #[trigger] s[a] == '.'
            &&& #[trigger] s[b] == '.'
            &&& #[trigger] s[c] == '.'
            &&& octet_ok(s.subrange(0, a))
            &&& octet_ok(s.subrange(a + 1, b))
            &&& octet_ok(s.subrange(b + 1, c))
            &&& octet_ok(s.subrange(c + 1, s.len() as int))
        }
}

/// Whether the characters of `s` between `from` and `to` form a valid octet.
fn check_octet(s: &str, from: usize, to: usize) -> (r: bool)
    requires
        from <= to <= s@.len(),
    ensures
        r == octet_ok(s@.subrange(from as int, to as int)),
{
    let ghost seg = s@.subrange(from as int, to as int);
    let len = to - from;
    if len < 1 || len > 3 {
        return false;
    }
    if len > 1 && s.get_char(from) == '0' {
        assert(seg[0] == '0');
        return false;
    }
    let mut val: u32 = 0;
    let mut i = from;
    proof {
        assert(s@.subrange(from as int, from as int) =~= Seq::<char>::empty());
    }
    while i < to
        invariant
            from <= i <= to <= s@.len(),
            to - from <= 3,
            seg == s@.subrange(from as int, to as int),
            val == octet_val(s@.subrange(from as int, i as int)),
            val < 1000,
            forall|j: int| from <= j < i ==> is_digit_char(#[trigger] s@[j]),
        decreases to - i,
    {
        let c = s.get_char(i);
        let u = c as u32;
        if u < 48 || u > 57 {
            assert(seg[i - from] == s@[i as int]);
            assert(!is_digit_char(seg[i - from]));
            return false;
        }
        proof {
            let pre = s@.subrange(from as int, i as int);
            let next = s@.subrange(from as int, i + 1);
            assert(next.drop_last() =~= pre);
            assert(next.last() == s@[i as int]);
            assert(octet_val(pre) < 100) by {
                lemma_octet_val_bound(s@, from as int, i as int);
            }
        }
        val = val * 10 + (u - 48);
        i += 1;
    }
    assert(seg =~= s@.subrange(from as int, to as int));
    assert(forall|j: int| 0 <= j < seg.len() ==> is_digit_char(#[trigger] seg[j]));
    val <= 255
}

/// The positions of every `'.'` in `s`, in increasing order.
fn find_dots(s: &str) -> (r: Vec<usize>)
    ensures
        forall|k1: int, k2: int| 0 <= k1 < k2 < r@.len() ==> r@[k1] < r@[k2],
        forall|k: int|
            0 <= k < r@.len() ==> r@[k] < s@.len() && s@[#[trigger] r@[k] as int] == '.',
        forall|j: int| 0 <= j < s@.len() && (#[trigger] s@[j]) == '.' ==> r@.contains(j as usize),
{
    let n = s.unicode_len();
    let mut r: Vec<usize> = Vec::new();
    let mut i: usize = 0;
    while i < n
        invariant
            i <= n,
            n == s@.len(),
            forall|k1: int, k2: int| 0 <= k1 < k2 < r@.len() ==> r@[k1] < r@[k2],
            forall|k: int| 0 <= k < r@.len() ==> r@[k] < i && s@[#[trigger] r@[k] as int] == '.',
            forall|j: int|
                0 <= j < i && (#[trigger] s@[j]) == '.' ==> r@.contains(j as usize),
        decreases n - i,
    {
        let ghost pre = r@;
        if s.get_char(i) == '.' {
            r.push(i);
        }
        proof {
            assert forall|j: int|
                0 <= j < i + 1 && (#[trigger] s@[j]) == '.' implies r@.contains(j as usize) by {
                if j < i {
                    let k = choose|k: int| 0 <= k < pre.len() && pre[k] == j as usize;
                    assert(r@[k] == j as usize);
                } else {
                    assert(r@.last() == j as usize);
                }
            }
        }
        i += 1;
    }
    r
}

/// Inside a dotted quad witnessed by dots at `a`, `b` and `c`, every other
/// position holds a digit, so those are the only dots.
proof fn lemma_quad_dots_exact(s: Seq<char>, a: int, b: int, c: int)
    requires
        0 <= a < b < c < s.len(),
        s[a] == '.',
        s[b] == '.',
        s[c] == '.',
        octet_ok(s.subrange(0, a)),
        octet_ok(s.subrange(a + 1, b)),
        octet_ok(s.subrange(b + 1, c)),
        octet_ok(s.subrange(c + 1, s.len() as int)),
    ensures
        forall|j: int| 0 <= j < s.len() && (#[trigger] s[j]) == '.' ==> j == a || j == b || j == c,
{
    assert forall|j: int|
        0 <= j < s.len() && (#[trigger] s[j]) == '.' implies j == a || j == b || j == c by {
        if j != a && j != b && j != c {
            if j < a {
                assert(s.subrange(0, a)[j] == s[j]);
            } else if j < b {
                assert(s.subrange(a + 1, b)[j - (a + 1)] == s[j]);
            } else if j < c {
                assert(s.subrange(b + 1, c)[j - (b + 1)] == s[j]);
            } else {
                assert(s.subrange(c + 1, s.len() as int)[j - (c + 1)] == s[j]);
            }
            assert(is_digit_char(s[j]));
        }
    }
}

/// Whether `s` is a valid dotted-quad IPv4 address.
pub fn is_valid_ipv4(s: &str) -> (r: bool)
    ensures
        r == is_dotted_quad(s@),
{
    let n = s.unicode_len();
    let dots = find_dots(s);
    if dots.len() != 3 {
        proof {
            if is_dotted_quad(s@) {
                let (a, b, c) = choose|a: int, b: int, c: int|
                    {
                        &&& 0 <= a < b < c < s@.len()
                        &&& #[trigger] s@[a] == '.'
                        &&& #[trigger] s@[b] == '.'
                        &&& #[trigger] s@[c] == '.'
                        &&& octet_ok(s@.subrange(0, a))
                        &&& octet_ok(s@.subrange(a + 1, b))
                        &&& octet_ok(s@.subrange(b + 1, c))
                        &&& octet_ok(s@.subrange(c + 1, s@.len() as int))
                    };
                lemma_quad_dots_exact(s@, a, b, c);
                assert(dots@.contains(a as usize));
                assert(dots@.contains(b as usize));
                assert(dots@.contains(c as usize));
                let ka = choose|k: int| 0 <= k < dots@.len() && dots@[k] == a as usize;
                let kb = choose|k: int| 0 <= k < dots@.len() && dots@[k] == b as usize;
                let kc = choose|k: int| 0 <= k < dots@.len() && dots@[k] == c as usize;
                assert(ka != kb && kb != kc && ka != kc);
                assert(dots@.len() >= 3);
                assert(dots@.len() > 3);
                assert(dots@[0] == a || dots@[0] == b || dots@[0] == c);
                assert(dots@[1] == a || dots@[1] == b || dots@[1] == c);
                assert(dots@[2] == a || dots@[2] == b || dots@[2] == c);
                assert(dots@[3] == a || dots@[3] == b || dots@[3] == c);
                assert(false);
            }
        }
        return false;
    }
    let a = dots[0];
    let b = dots[1];
    let c = dots[2];
    assert(a < b && b < c && c < n);
    let ok = check_octet(s, 0, a) && check_octet(s, a + 1, b) && check_octet(s, b + 1, c)
        && check_octet(s, c + 1, n);
    proof {
        if ok {
            assert(is_dotted_quad(s@)) by {
                assert(s@[a as int] == '.' && s@[b as int] == '.' && s@[c as int] == '.');
            }
        } else {
            if is_dotted_quad(s@) {
                let (x, y, z) = choose|x: int, y: int, z: int|
                    {
                        &&& 0 <= x < y < z < s@.len()
                        &&& #[trigger] s@[x] == '.'
                        &&& #[trigger] s@[y] == '.'
                        &&& #[trigger] s@[z] == '.'
                        &&& octet_ok(s@.subrange(0, x))
                        &&& octet_ok(s@.subrange(x + 1, y))
                        &&& octet_ok(s@.subrange(y + 1, z))
                        &&& octet_ok(s@.subrange(z + 1, s@.len() as int))
                    };
                lemma_quad_dots_exact(s@, x, y, z);
                assert(dots@[0] == x || dots@[0] == y || dots@[0] == z);
                assert(dots@[1] == x || dots@[1] == y || dots@[1] == z);
                assert(dots@[2] == x || dots@[2] == y || dots@[2] == z);
                assert(x == a && y == b && z == c);
                assert(false);
            }
        }
    }
    ok
}

/// A digit string of length `n` has value below ten to the `n`.
proof fn lemma_octet_val_bound(s: Seq<char>, from: int, to: int)
    requires
        0 <= from <= to <= s.len(),
        to - from <= 2,
        forall|j: int| from <= j < to ==> is_digit_char(#[trigger] s[j]),
    ensures
        octet_val(s.subrange(from, to)) < if to - from == 0 {
            1int
        } else if to - from == 1 {
            10int
        } else {
            100int
        },
    decreases to - from,
{
    let seg = s.subrange(from, to);
    if to == from {
        assert(seg =~= Seq::<char>::empty());
    } else {
        assert(seg.drop_last() =~= s.subrange(from, to - 1));
        assert(seg.last() == s[to - 1]);
        lemma_octet_val_bound(s, from, to - 1);
        assert(digit_val(s[to - 1]) <= 9);
    }
}

} // verus!
