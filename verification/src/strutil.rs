use vstd::prelude::*;

verus! {

/// A decimal digit, `'0'` through `'9'`.
pub open spec fn is_digit(c: char) -> bool {
    48 <= c as u32 <= 57
}

/// The numeric value of a decimal digit character.
pub open spec fn digit_val(c: char) -> nat {
    (c as u32 - 48) as nat
}

/// The value of a string of decimal digits, read most significant first.
pub open spec fn digits_value(s: Seq<char>) -> nat
    decreases s.len(),
{
    if s.len() == 0 {
        0
    } else {
        digits_value(s.drop_last()) * 10 + digit_val(s.last())
    }
}

/// The first position at or after `i` that does not hold a digit.
pub open spec fn digit_run_end(s: Seq<char>, i: int) -> int
    decreases s.len() - i when 0 <= i <= s.len()
{
    if i < s.len() && is_digit(s[i]) {
        digit_run_end(s, i + 1)
    } else {
        i
    }
}

/// `p` occurs in `s` starting at position `i`.
pub open spec fn lit_at(s: Seq<char>, i: int, p: Seq<char>) -> bool {
    0 <= i && i + p.len() <= s.len() && s.subrange(i, i + p.len()) == p
}

/// A whitespace character, as Rust's `char::is_whitespace` counts them
/// (the Unicode `White_Space` set).
pub open spec fn is_space(c: char) -> bool {
    ||| c as u32 == 0x20
    ||| 0x9 <= c as u32 <= 0xD
    ||| c as u32 == 0x85
    ||| c as u32 == 0xA0
    ||| c as u32 == 0x1680
    ||| 0x2000 <= c as u32 <= 0x200A
    ||| c as u32 == 0x2028
    ||| c as u32 == 0x2029
    ||| c as u32 == 0x202F
    ||| c as u32 == 0x205F
    ||| c as u32 == 0x3000
}

/// The first position whose character is not whitespace, at or after `i`.
pub open spec fn skip_space_fwd(s: Seq<char>, i: int) -> int
    decreases s.len() - i when 0 <= i <= s.len()
{
    if i < s.len() && is_space(s[i]) {
        skip_space_fwd(s, i + 1)
    } else {
        i
    }
}

/// The end of the last non-whitespace character strictly before `j`, or 0.
pub open spec fn skip_space_bwd(s: Seq<char>, j: int) -> int
    decreases j when 0 <= j <= s.len()
{
    if j > 0 && is_space(s[j - 1]) {
        skip_space_bwd(s, j - 1)
    } else {
        j
    }
}

/// `s` with leading and trailing whitespace removed.
pub open spec fn trimmed(s: Seq<char>) -> Seq<char> {
    let a = skip_space_fwd(s, 0);
    let b = skip_space_bwd(s, s.len() as int);
    if a < b {
        s.subrange(a, b)
    } else {
        Seq::empty()
    }
}

pub fn is_digit_char(c: char) -> (b: bool)
    ensures
        b == is_digit(c),
{
    '0' <= c && c <= '9'
}

pub fn is_space_char(c: char) -> (b: bool)
    ensures
        b == is_space(c),
{
    c == ' ' || ('\u{9}' <= c && c <= '\u{D}') || c == '\u{85}' || c == '\u{A0}'
        || c == '\u{1680}' || ('\u{2000}' <= c && c <= '\u{200A}') || c == '\u{2028}'
        || c == '\u{2029}' || c == '\u{202F}' || c == '\u{205F}' || c == '\u{3000}'
}

/// Character-by-character equality of two string slices.
pub fn str_eq_str(a: &str, b: &str) -> (r: bool)
    ensures
        r == (a@ == b@),
{
    let an = a.unicode_len();
    let bn = b.unicode_len();
    if an != bn {
        proof {
            assert(a@ != b@) by {
                assert(a@.len() != b@.len());
            }
        }
        return false;
    }
    let mut i: usize = 0;
    while i < an
        invariant
            an == a@.len(),
            an == b@.len(),
            i <= an,
            forall|k: int| 0 <= k < i ==> a@[k] == b@[k],
        decreases an - i,
    {
        if a.get_char(i) != b.get_char(i) {
            return false;
        }
        i += 1;
    }
    proof {
        assert(a@ =~= b@);
    }
    true
}

/// `p` occurs in `s` at position `i`, tested character by character.
pub fn lit_at_exec(s: &str, i: usize, p: &str) -> (r: bool)
    ensures
        r == lit_at(s@, i as int, p@),
{
    let n = s.unicode_len();
    let pn = p.unicode_len();
    if pn > n || i > n - pn {
        return false;
    }
    let mut k: usize = 0;
    while k < pn
        invariant
            n == s@.len(),
            pn == p@.len(),
            i + pn <= n,
            k <= pn,
            forall|m: int| 0 <= m < k ==> s@[i + m] == p@[m],
        decreases pn - k,
    {
        if s.get_char(i + k) != p.get_char(k) {
            proof {
                assert(s@.subrange(i as int, i + p@.len())[k as int] != p@[k as int]);
            }
            return false;
        }
        k += 1;
    }
    proof {
        assert(s@.subrange(i as int, i + p@.len()) =~= p@);
    }
    true
}

/// The first non-digit position at or after `start`.
pub fn digit_run_end_exec(s: &str, start: usize) -> (e: usize)
    requires
        start <= s@.len(),
    ensures
        e == digit_run_end(s@, start as int),
        start <= e <= s@.len(),
    decreases s@.len() - start,
{
    let n = s.unicode_len();
    if start < n && is_digit_char(s.get_char(start)) {
        digit_run_end_exec(s, start + 1)
    } else {
        start
    }
}

/// Every position of the run up to its end holds a digit.
pub proof fn lemma_digit_run_all_digits(s: Seq<char>, i: int, k: int)
    requires
        0 <= i <= s.len(),
        i <= k < digit_run_end(s, i),
    ensures
        is_digit(s[k]),
    decreases k - i,
{
    if k > i {
        lemma_digit_run_all_digits(s, i + 1, k);
    }
}

/// The digit run from `i` ends exactly at `e` when everything before `e` is
/// a digit and `e` is the end of the string or a non-digit.
pub proof fn lemma_digit_run_end_at(s: Seq<char>, i: int, e: int)
    requires
        0 <= i <= e <= s.len(),
        forall|k: int| i <= k < e ==> is_digit(s[k]),
        e == s.len() || !is_digit(s[e]),
    ensures
        digit_run_end(s, i) == e,
    decreases e - i,
{
    if i < e {
        lemma_digit_run_end_at(s, i + 1, e);
    }
}

/// A digit string's value only grows as more digits are appended.
pub proof fn lemma_digits_value_take_le(s: Seq<char>, k: int)
    requires
        0 <= k <= s.len(),
    ensures
        digits_value(s.take(k)) <= digits_value(s),
    decreases s.len() - k,
{
    if k < s.len() {
        lemma_digits_value_take_le(s, k + 1);
        assert(s.take(k + 1).drop_last() =~= s.take(k));
        assert(digits_value(s.take(k)) <= digits_value(s.take(k + 1)));
    } else {
        assert(s.take(k) =~= s);
    }
}

/// Parses the digit run `s[start..end]` as a `u64`; `None` means the value
/// does not fit.
pub fn parse_digit_run(s: &str, start: usize, end: usize) -> (r: Option<u64>)
    requires
        start <= end <= s@.len(),
        forall|k: int| start <= k < end ==> is_digit(s@[k]),
    ensures
        match r {
            Some(v) => v as nat == digits_value(s@.subrange(start as int, end as int)),
            None => digits_value(s@.subrange(start as int, end as int)) > u64::MAX,
        },
{
    let ghost run = s@.subrange(start as int, end as int);
    let mut v: u64 = 0;
    let mut m: usize = start;
    while m < end
        invariant
            start <= m <= end <= s@.len(),
            run == s@.subrange(start as int, end as int),
            forall|k: int| start <= k < end ==> is_digit(s@[k]),
            v as nat == digits_value(run.take(m - start)),
        decreases end - m,
    {
        let c = s.get_char(m);
        let d: u64 = (c as u32 - 48) as u64;
        proof {
            assert(is_digit(s@[m as int]));
            assert(d == digit_val(run[m - start]));
        }
        if v > 0x1999_9999_9999_9999u64 || (v == 0x1999_9999_9999_9999u64 && d > 5) {
            proof {
                assert(run.take(m - start + 1).drop_last() =~= run.take(m - start));
                assert(run.take(m - start + 1).last() == run[m - start]);
                assert(digits_value(run.take(m - start + 1)) > u64::MAX);
                lemma_digits_value_take_le(run, m - start + 1);
            }
            return None;
        }
        proof {
            assert(run.take(m - start + 1).drop_last() =~= run.take(m - start));
            assert(run.take(m - start + 1).last() == run[m - start]);
        }
        v = v * 10 + d;
        m += 1;
    }
    proof {
        assert(run.take(end - start) =~= run);
    }
    Some(v)
}

/// Removes leading and trailing whitespace.
pub fn trim_exec(s: &str) -> (r: String)
    ensures
        r@ == trimmed(s@),
{
    let n = s.unicode_len();
    let mut a: usize = 0;
    while a < n && is_space_char(s.get_char(a))
        invariant
            n == s@.len(),
            a <= n,
            skip_space_fwd(s@, 0) == skip_space_fwd(s@, a as int),
        decreases n - a,
    {
        a += 1;
    }
    let mut b: usize = n;
    while b > 0 && is_space_char(s.get_char(b - 1))
        invariant
            n == s@.len(),
            b <= n,
            skip_space_bwd(s@, n as int) == skip_space_bwd(s@, b as int),
        decreases b,
    {
        b -= 1;
    }
    if a < b {
        let t = s.substring_char(a, b);
        String::from_str(t)
    } else {
        String::new()
    }
}

} // verus!
