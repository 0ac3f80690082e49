use vstd::prelude::*;

use crate::error::ScrapeError;
use crate::strutil::{
    digit_run_end, digit_run_end_exec, digits_value, is_digit, is_digit_char,
    lemma_digit_run_all_digits, lit_at, lit_at_exec, parse_digit_run,
};

verus! {

// An identifier is carried in a URL as `cluster=<digits>` or
// `cites=<digits>`; a citation count is the first digit run of a text that
// follows at least one non-digit character, whatever script the label before
// it is written in.

/// The length of the key token matched at position `i` (`cluster=` or
/// `cites=`).
pub open spec fn id_key_len(s: Seq<char>, i: int) -> int {
    if lit_at(s, i, "cluster="@) {
        8
    } else {
        6
    }
}

/// One of the two key tokens occurs at `i`, immediately followed by a digit.
pub open spec fn id_match_at(s: Seq<char>, i: int) -> bool {
    &&& (lit_at(s, i, "cluster="@) || lit_at(s, i, "cites="@))
    &&& i + id_key_len(s, i) < s.len()
    &&& is_digit(s[i + id_key_len(s, i)])
}

/// The position of the first identifier match at or after `i`, or `s.len()`
/// when there is none.
pub open spec fn first_id_match_from(s: Seq<char>, i: int) -> int
    decreases s.len() - i when 0 <= i <= s.len()
{
    if i >= s.len() {
        i
    } else if id_match_at(s, i) {
        i
    } else {
        first_id_match_from(s, i + 1)
    }
}

/// The value of the digit run of the identifier match at `i`.
pub open spec fn id_value_at(s: Seq<char>, i: int) -> nat {
    digits_value(s.subrange(i + id_key_len(s, i), digit_run_end(s, i + id_key_len(s, i))))
}

/// What identifier parsing returns on `s`: the digit run of the leftmost key
/// match, as a `u64`; `NoMatch` when no key token is followed by a digit, and
/// `NumericConversion` when the matched run does not fit.
pub open spec fn parse_id_spec(s: Seq<char>) -> Result<u64, ScrapeError> {
    let i = first_id_match_from(s, 0);
    if id_match_at(s, i) {
        if id_value_at(s, i) <= u64::MAX {
            Ok(id_value_at(s, i) as u64)
        } else {
            Err(ScrapeError::NumericConversion)
        }
    } else {
        Err(ScrapeError::NoMatch)
    }
}

/// A citation-count match begins at `k`: a digit whose immediate predecessor
/// is not a digit (so at least one non-digit character precedes the run).
pub open spec fn count_match_at(s: Seq<char>, k: int) -> bool {
    &&& 1 <= k < s.len()
    &&& !is_digit(s[k - 1])
    &&& is_digit(s[k])
}

/// The position of the first citation-count match at or after `k`, or
/// `s.len()` when there is none.
pub open spec fn first_count_match_from(s: Seq<char>, k: int) -> int
    decreases s.len() - k when 1 <= k <= s.len()
{
    if k >= s.len() {
        k
    } else if count_match_at(s, k) {
        k
    } else {
        first_count_match_from(s, k + 1)
    }
}

/// The value of the digit run beginning at `k`.
pub open spec fn count_value_at(s: Seq<char>, k: int) -> nat {
    digits_value(s.subrange(k, digit_run_end(s, k)))
}

/// What citation-count parsing returns on `s`: the leftmost digit run
/// preceded by a non-digit, as a `u32`; `NoMatch` when there is no such run,
/// and `NumericConversion` when it does not fit.
pub open spec fn parse_count_spec(s: Seq<char>) -> Result<u32, ScrapeError> {
    if s.len() == 0 {
        Err(ScrapeError::NoMatch)
    } else {
        let k = first_count_match_from(s, 1);
        if count_match_at(s, k) {
            if count_value_at(s, k) <= u32::MAX {
                Ok(count_value_at(s, k) as u32)
            } else {
                Err(ScrapeError::NumericConversion)
            }
        } else {
            Err(ScrapeError::NoMatch)
        }
    }
}

/// `first_id_match_from` finds the least match position, and a match when
/// there is any.
pub proof fn lemma_first_id_match_from(s: Seq<char>, i: int)
    requires
        0 <= i <= s.len(),
    ensures
        i <= first_id_match_from(s, i) <= s.len(),
        forall|j: int| i <= j < first_id_match_from(s, i) ==> !id_match_at(s, j),
        first_id_match_from(s, i) < s.len() ==> id_match_at(s, first_id_match_from(s, i)),
        first_id_match_from(s, i) == s.len() ==> forall|j: int| i <= j ==> !id_match_at(s, j),
    decreases s.len() - i,
{
    if i < s.len() && !id_match_at(s, i) {
        lemma_first_id_match_from(s, i + 1);
    }
}

/// `first_count_match_from` finds the least match position, and a match when
/// there is any.
pub proof fn lemma_first_count_match_from(s: Seq<char>, k: int)
    requires
        1 <= k <= s.len(),
    ensures
        k <= first_count_match_from(s, k) <= s.len(),
        forall|j: int| k <= j < first_count_match_from(s, k) ==> !count_match_at(s, j),
        first_count_match_from(s, k) < s.len() ==> count_match_at(s, first_count_match_from(s, k)),
        first_count_match_from(s, k) == s.len() ==> forall|j: int| k <= j ==> !count_match_at(s, j),
    decreases s.len() - k,
{
    if k < s.len() && !count_match_at(s, k) {
        lemma_first_count_match_from(s, k + 1);
    }
}

/// The law of identifier parsing, match side: a URL-like string whose first
/// `cluster=<digits>` or `cites=<digits>` occurrence is at `i` parses to
/// exactly the value of that occurrence's digit run, whatever surrounds it,
/// whenever that value fits a `u64`.
pub proof fn lemma_id_match_parses(s: Seq<char>, i: int)
    requires
        id_match_at(s, i),
        forall|j: int| 0 <= j < i ==> !id_match_at(s, j),
        id_value_at(s, i) <= u64::MAX,
    ensures
        parse_id_spec(s) == Ok::<u64, ScrapeError>(id_value_at(s, i) as u64),
{
    lemma_first_id_match_from(s, 0);
    assert(first_id_match_from(s, 0) == i);
}

/// The law of identifier parsing, failure side: a string in which neither
/// key token is followed by a digit (a near-miss token, a non-digit value)
/// fails with `NoMatch`.
pub proof fn lemma_id_no_match(s: Seq<char>)
    requires
        forall|j: int| !id_match_at(s, j),
    ensures
        parse_id_spec(s) == Err::<u64, ScrapeError>(ScrapeError::NoMatch),
{
    lemma_first_id_match_from(s, 0);
}

/// The law of citation-count parsing, match side: on any non-digit prefix
/// followed by digits, the digits are the count, whatever script the prefix
/// is written in, whenever the value fits a `u32`.
pub proof fn lemma_count_of_labeled_text(pre: Seq<char>, digits: Seq<char>)
    requires
        pre.len() > 0,
        forall|k: int| 0 <= k < pre.len() ==> !is_digit(pre[k]),
        digits.len() > 0,
        forall|k: int| 0 <= k < digits.len() ==> is_digit(digits[k]),
        digits_value(digits) <= u32::MAX,
    ensures
        parse_count_spec(pre + digits) == Ok::<u32, ScrapeError>(digits_value(digits) as u32),
{
    let s = pre + digits;
    let k0 = pre.len() as int;
    assert(!is_digit(s[k0 - 1]));
    assert(is_digit(s[k0]));
    assert(count_match_at(s, k0));
    lemma_first_count_match_from(s, 1);
    assert forall|j: int| 1 <= j < k0 implies !count_match_at(s, j) by {
        assert(s[j] == pre[j]);
    }
    assert(first_count_match_from(s, 1) == k0);
    assert forall|k: int| k0 <= k < s.len() implies is_digit(s[k]) by {
        assert(s[k] == digits[k - k0]);
    }
    crate::strutil::lemma_digit_run_end_at(s, k0, s.len() as int);
    assert(s.subrange(k0, s.len() as int) =~= digits);
}

/// The law of citation-count parsing, failure side: a text with no digit
/// run after a non-digit fails with `NoMatch`.
pub proof fn lemma_count_no_match(s: Seq<char>)
    requires
        forall|j: int| !count_match_at(s, j),
    ensures
        parse_count_spec(s) == Err::<u32, ScrapeError>(ScrapeError::NoMatch),
{
    if s.len() > 0 {
        lemma_first_count_match_from(s, 1);
    }
}

/// Whether one of the key tokens occurs at `i` with a digit after it.
fn id_match_at_exec(s: &str, i: usize, n: usize) -> (r: bool)
    requires
        n == s@.len(),
        i <= n,
    ensures
        r == id_match_at(s@, i as int),
{
    proof {
        reveal_strlit("cluster=");
        reveal_strlit("cites=");
    }
    let key_len: usize = if lit_at_exec(s, i, "cluster=") {
        8
    } else if lit_at_exec(s, i, "cites=") {
        6
    } else {
        return false;
    };
    i + key_len < n && is_digit_char(s.get_char(i + key_len))
}

/// Parses a stable paper identifier out of a URL-like string: the digits of
/// the first `cluster=<digits>` or `cites=<digits>` occurrence.
pub fn parse_id_from_url(url: &str) -> (r: Result<u64, ScrapeError>)
    ensures
        r == parse_id_spec(url@),
{
    let ghost s = url@;
    let n = url.unicode_len();
    let mut i: usize = 0;
    while i < n
        invariant
            n == s.len(),
            s == url@,
            i <= n,
            first_id_match_from(s, 0) == first_id_match_from(s, i as int),
        decreases n - i,
    {
        if id_match_at_exec(url, i, n) {
            proof {
                reveal_strlit("cluster=");
                reveal_strlit("cites=");
            }
            let key_len: usize = if lit_at_exec(url, i, "cluster=") {
                8
            } else {
                6
            };
            let dstart = i + key_len;
            let dend = digit_run_end_exec(url, dstart);
            proof {
                assert(key_len == id_key_len(s, i as int));
                assert(first_id_match_from(s, i as int) == i);
                assert forall|k: int| dstart <= k < dend implies is_digit(s[k]) by {
                    lemma_digit_run_all_digits(s, dstart as int, k);
                }
            }
            match parse_digit_run(url, dstart, dend) {
                Some(v) => {
                    return Ok(v);
                },
                None => {
                    return Err(ScrapeError::NumericConversion);
                },
            }
        }
        i += 1;
    }
    proof {
        reveal_strlit("cluster=");
        reveal_strlit("cites=");
        assert(first_id_match_from(s, n as int) == n);
        assert(!id_match_at(s, n as int));
    }
    Err(ScrapeError::NoMatch)
}

/// Parses a citation count out of free text: the first digit run that
/// follows at least one non-digit character, whatever the label before it
/// says.
pub fn parse_citation_count(text: &str) -> (r: Result<u32, ScrapeError>)
    ensures
        r == parse_count_spec(text@),
{
    let ghost s = text@;
    let n = text.unicode_len();
    if n == 0 {
        return Err(ScrapeError::NoMatch);
    }
    let mut k: usize = 1;
    while k < n
        invariant
            n == s.len(),
            s == text@,
            1 <= k <= n,
            first_count_match_from(s, 1) == first_count_match_from(s, k as int),
        decreases n - k,
    {
        if !is_digit_char(text.get_char(k - 1)) && is_digit_char(text.get_char(k)) {
            proof {
                assert(count_match_at(s, k as int));
                assert(first_count_match_from(s, k as int) == k);
            }
            let dend = digit_run_end_exec(text, k);
            proof {
                assert forall|m: int| k <= m < dend implies is_digit(s[m]) by {
                    lemma_digit_run_all_digits(s, k as int, m);
                }
            }
            match parse_digit_run(text, k, dend) {
                Some(v) => {
                    if v > 0xFFFF_FFFFu64 {
                        return Err(ScrapeError::NumericConversion);
                    }
                    return Ok(v as u32);
                },
                None => {
                    return Err(ScrapeError::NumericConversion);
                },
            }
        }
        k += 1;
    }
    proof {
        assert(first_count_match_from(s, n as int) == n);
        assert(!count_match_at(s, n as int));
    }
    Err(ScrapeError::NoMatch)
}

} // verus!
