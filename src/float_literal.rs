//! The grammar of decimal floating-point literals that std's `f64::from_str` accepts:
//! an optional sign, then `inf`, `infinity` or `nan` in any case, or digits with an
//! optional fraction and an optional exponent.
use vstd::prelude::*;
use vstd::string::*;

verus! {

pub open spec fn is_digit(c: char) -> bool {
    '0' <= c && c <= '9'
}

/// `c` is the lower-case ASCII letter `w`, in either case.
pub open spec fn same_letter(c: char, w: char) -> bool {
    c == w || (c as u32) + 32 == (w as u32)
}

/// The number of digits in a row in `s` from position `i`.
pub open spec fn digit_run(s: Seq<char>, i: int) -> int
    decreases s.len() - i,
{
    if 0 <= i < s.len() && is_digit(s[i]) {
        1 + digit_run(s, i + 1)
    } else {
        0
    }
}

/// 1 where `s` holds a sign at position `i`, else 0.
pub open spec fn sign_len(s: Seq<char>, i: int) -> int {
    if 0 <= i < s.len() && (s[i] == '+' || s[i] == '-') {
        1
    } else {
        0
    }
}

/// The rest of `s` from position `i` is the lower-case word `w`, in any case.
pub open spec fn rest_is_word(s: Seq<char>, i: int, w: Seq<char>) -> bool {
    &&& 0 <= i
    &&& s.len() == i + w.len()
    &&& forall|k: int| 0 <= k < w.len() ==> same_letter(#[trigger] s[i + k], w[k])
}

/// The rest of `s` from position `i` is empty or an exponent.
pub open spec fn exponent_tail(s: Seq<char>, i: int) -> bool {
    i == s.len() || (0 <= i < s.len() && (s[i] == 'e' || s[i] == 'E') && {
        let j = i + 1 + sign_len(s, i + 1);
        digit_run(s, j) > 0 && j + digit_run(s, j) == s.len()
    })
}

/// The rest of `s` from position `i` is a decimal number with an optional exponent.
pub open spec fn number_tail(s: Seq<char>, i: int) -> bool {
    let q = i + digit_run(s, i);
    if 0 <= q < s.len() && s[q] == '.' {
        digit_run(s, i) + digit_run(s, q + 1) > 0 && exponent_tail(s, q + 1 + digit_run(s, q + 1))
    } else {
        digit_run(s, i) > 0 && exponent_tail(s, q)
    }
}

pub open spec fn is_float_literal(s: Seq<char>) -> bool {
    let p = sign_len(s, 0);
    ||| rest_is_word(s, p, seq!['i', 'n', 'f'])
    ||| rest_is_word(s, p, seq!['i', 'n', 'f', 'i', 'n', 'i', 't', 'y'])
    ||| rest_is_word(s, p, seq!['n', 'a', 'n'])
    ||| number_tail(s, p)
}

fn char_is_digit(c: char) -> (r: bool)
    ensures
        r == is_digit(c),
{
    '0' <= c && c <= '9'
}

fn count_digits(s: &str, n: usize, i: usize) -> (r: usize)
    requires
        n == s@.len(),
        i <= n,
    ensures
        r == i + digit_run(s@, i as int),
        i <= r <= n,
{
    let mut j: usize = i;
    while j < n && char_is_digit(s.get_char(j))
        invariant
            i <= j <= n,
            n == s@.len(),
            digit_run(s@, i as int) == (j - i) + digit_run(s@, j as int),
        decreases n - j,
    {
        j = j + 1;
    }
    j
}

fn sign_at(s: &str, n: usize, i: usize) -> (r: usize)
    requires
        n == s@.len(),
        i <= n,
    ensures
        r == sign_len(s@, i as int),
{
    if i < n {
        let c = s.get_char(i);
        if c == '+' || c == '-' {
            return 1;
        }
    }
    0
}

fn word_at(s: &str, n: usize, i: usize, w: &Vec<char>) -> (r: bool)
    requires
        n == s@.len(),
        i <= n,
        forall|k: int| 0 <= k < w@.len() ==> 'a' <= #[trigger] w@[k] && w@[k] <= 'z',
    ensures
        r == rest_is_word(s@, i as int, w@),
{
    if n - i != w.len() {
        return false;
    }
    let mut k: usize = 0;
    while k < w.len()
        invariant
            n == s@.len(),
            i + w@.len() == n,
            k <= w@.len(),
            forall|m: int| 0 <= m < k ==> same_letter(#[trigger] s@[i + m], w@[m]),
        decreases w.len() - k,
    {
        let c = s.get_char(i + k);
        let l = w[k];
        if !(c == l || (c as u32) + 32 == (l as u32)) {
            proof {
                assert(!same_letter(s@[i + k], w@[k as int]));
            }
            return false;
        }
        k = k + 1;
    }
    true
}

fn exponent_at(s: &str, n: usize, i: usize) -> (r: bool)
    requires
        n == s@.len(),
        i <= n,
    ensures
        r == exponent_tail(s@, i as int),
{
    if i == n {
        return true;
    }
    let c = s.get_char(i);
    if !(c == 'e' || c == 'E') {
        return false;
    }
    let j = i + 1 + sign_at(s, n, i + 1);
    if j > n {
        return false;
    }
    let e = count_digits(s, n, j);
    e > j && e == n
}

/// Whether `s` is a floating-point literal in the grammar of std's `f64::from_str`.
pub fn float_literal(s: &str) -> (r: bool)
    ensures
        r == is_float_literal(s@),
{
    let n = s.unicode_len();
    let p = sign_at(s, n, 0);
    let inf = vec!['i', 'n', 'f'];
    let infinity = vec!['i', 'n', 'f', 'i', 'n', 'i', 't', 'y'];
    let nan = vec!['n', 'a', 'n'];
    proof {
        assert(inf@ =~= seq!['i', 'n', 'f']);
        assert(infinity@ =~= seq!['i', 'n', 'f', 'i', 'n', 'i', 't', 'y']);
        assert(nan@ =~= seq!['n', 'a', 'n']);
    }
    if word_at(s, n, p, &inf) || word_at(s, n, p, &infinity) || word_at(s, n, p, &nan) {
        return true;
    }
    let q = count_digits(s, n, p);
    let mut dot = false;
    if q < n {
        dot = s.get_char(q) == '.';
    }
    if dot {
        let f = count_digits(s, n, q + 1);
        (q > p || f > q + 1) && exponent_at(s, n, f)
    } else {
        q > p && exponent_at(s, n, q)
    }
}

} // verus!
