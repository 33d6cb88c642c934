//! The email grammar and its verified matcher.
//!
//! A value is a valid email when it splits as `local @ domain . tld`: a
//! non-empty local part of letters, digits and `._%+-`; an `@`; a non-empty
//! domain part of letters, digits and `.-`; a final dot; and a top-level
//! domain of at least two letters. `matches_email` decides the grammar
//! exactly.

use vstd::prelude::*;

use crate::text::{chars_of, is_digit_char};

verus! {

/// An ASCII letter.
pub open spec fn is_ascii_alpha(c: char) -> bool {
    (65 <= c as u32 && c as u32 <= 90) || (97 <= c as u32 && c as u32 <= 122)
}

/// A character allowed in the local part, before the `@`.
pub open spec fn is_local_char(c: char) -> bool {
    is_ascii_alpha(c) || is_digit_char(c) || c == '.' || c == '_' || c == '%' || c == '+'
        || c == '-'
}

/// A character allowed in the domain part, between the `@` and the last dot.
pub open spec fn is_domain_char(c: char) -> bool {
    is_ascii_alpha(c) || is_digit_char(c) || c == '.' || c == '-'
}

/// The string splits as a valid email at `@`-position `i` and final-dot
/// position `j`.
pub open spec fn email_split_at(s: Seq<char>, i: int, j: int) -> bool {
    &&& 1 <= i
    &&& i + 2 <= j
    &&& j + 3 <= s.len()
    &&& s[i] == '@'
    &&& s[j] == '.'
    &&& forall|k: int| 0 <= k < i ==> is_local_char(s[k])
    &&& forall|k: int| i < k < j ==> is_domain_char(s[k])
    &&& forall|k: int| j < k < s.len() ==> is_ascii_alpha(s[k])
}

/// The string is a valid email under the library's email grammar.
pub open spec fn is_valid_email(s: Seq<char>) -> bool {
    exists|i: int, j: int| email_split_at(s, i, j)
}

fn alpha_char(c: char) -> (r: bool)
    ensures
        r == is_ascii_alpha(c),
{
    let u = c as u32;
    (65 <= u && u <= 90) || (97 <= u && u <= 122)
}

fn digit_char_exec(c: char) -> (r: bool)
    ensures
        r == is_digit_char(c),
{
    let u = c as u32;
    48 <= u && u <= 57
}

fn local_char(c: char) -> (r: bool)
    ensures
        r == is_local_char(c),
{
    alpha_char(c) || digit_char_exec(c) || c == '.' || c == '_' || c == '%' || c == '+'
        || c == '-'
}

fn domain_char(c: char) -> (r: bool)
    ensures
        r == is_domain_char(c),
{
    alpha_char(c) || digit_char_exec(c) || c == '.' || c == '-'
}

/// In any split, the `@` position is the first `@` of the string.
proof fn lemma_at_forced(s: Seq<char>, at: int, i: int, j: int)
    requires
        email_split_at(s, i, j),
        0 <= at < s.len(),
        s[at] == '@',
        forall|k: int| 0 <= k < at ==> s[k] != '@',
    ensures
        i == at,
{
    if i < at {
        assert(s[i] == '@');
        assert(false);
    }
    if i > at {
        assert(is_local_char(s[at]));
        assert(false);
    }
}

/// In any split with the `@` at `at`, the dot position is the last dot of
/// the string.
proof fn lemma_dot_forced(s: Seq<char>, at: int, jd: int, i: int, j: int)
    requires
        email_split_at(s, i, j),
        i == at,
        at < jd < s.len(),
        s[jd] == '.',
        forall|k: int| jd < k < s.len() ==> s[k] != '.',
    ensures
        j == jd,
{
    if j < jd {
        assert(is_ascii_alpha(s[jd]));
        assert(false);
    }
    if j > jd {
        assert(s[j] == '.');
        assert(false);
    }
}

/// Decide the email grammar.
pub fn matches_email(s: &str) -> (r: bool)
    ensures
        r == is_valid_email(s@),
{
    let v = chars_of(s);
    let n = v.len();

    // Phase 1: find the first `@`; everything before it must be local.
    let mut i: usize = 0;
    while i < n
        invariant_except_break
            i <= n,
            n == s@.len(),
            v@ == s@,
            forall|k: int| 0 <= k < i ==> is_local_char(s@[k]) && s@[k] != '@',
        ensures
            i <= n,
            n == s@.len(),
            v@ == s@,
            forall|k: int| 0 <= k < i ==> is_local_char(s@[k]) && s@[k] != '@',
            i < n ==> s@[i as int] == '@',
        decreases n - i,
    {
        let c = v[i];
        if c == '@' {
            break;
        }
        if !local_char(c) {
            proof {
                assert forall|ii: int, jj: int| !email_split_at(s@, ii, jj) by {
                    if email_split_at(s@, ii, jj) {
                        if ii < i {
                            assert(s@[ii] == '@');
                            assert(false);
                        } else if ii == i {
                            assert(s@[i as int] != '@');
                            assert(false);
                        } else {
                            assert(is_local_char(s@[i as int]));
                            assert(false);
                        }
                    }
                }
            }
            return false;
        }
        i += 1;
    }
    if i == n {
        proof {
            assert forall|ii: int, jj: int| !email_split_at(s@, ii, jj) by {
                if email_split_at(s@, ii, jj) {
                    assert(s@[ii] == '@');
                    assert(false);
                }
            }
        }
        return false;
    }
    let at = i;
    if at == 0 {
        proof {
            assert forall|ii: int, jj: int| !email_split_at(s@, ii, jj) by {
                if email_split_at(s@, ii, jj) {
                    lemma_at_forced(s@, 0, ii, jj);
                    assert(1 <= ii);
                    assert(false);
                }
            }
        }
        return false;
    }

    // Phase 2: everything after the `@` must be a domain character (letters
    // also serve the top-level domain); remember the last dot.
    let mut j: usize = at + 1;
    let mut last_dot: usize = 0;
    let mut have_dot = false;
    while j < n
        invariant
            at < j <= n,
            n == s@.len(),
            v@ == s@,
            at < n,
            s@[at as int] == '@',
            1 <= at,
            forall|k: int| 0 <= k < at ==> is_local_char(s@[k]) && s@[k] != '@',
            forall|k: int| at < k < j ==> is_domain_char(s@[k]),
            have_dot ==> at < last_dot < j && s@[last_dot as int] == '.',
            have_dot ==> forall|k: int| last_dot < k < j ==> s@[k] != '.',
            !have_dot ==> forall|k: int| at < k < j ==> s@[k] != '.',
        decreases n - j,
    {
        let c = v[j];
        if !domain_char(c) {
            proof {
                assert forall|ii: int, jj: int| !email_split_at(s@, ii, jj) by {
                    if email_split_at(s@, ii, jj) {
                        lemma_at_forced(s@, at as int, ii, jj);
                        if (j as int) < jj {
                            assert(is_domain_char(s@[j as int]));
                            assert(false);
                        } else if j as int == jj {
                            assert(s@[j as int] == '.');
                            assert(false);
                        } else {
                            assert(is_ascii_alpha(s@[j as int]));
                            assert(false);
                        }
                    }
                }
            }
            return false;
        }
        if c == '.' {
            last_dot = j;
            have_dot = true;
        }
        j += 1;
    }
    if !have_dot {
        proof {
            assert forall|ii: int, jj: int| !email_split_at(s@, ii, jj) by {
                if email_split_at(s@, ii, jj) {
                    lemma_at_forced(s@, at as int, ii, jj);
                    assert(at < jj < n);
                    assert(s@[jj] == '.');
                    assert(false);
                }
            }
        }
        return false;
    }
    let jd = last_dot;

    // Phase 3: the forced dot must leave a non-empty domain and a top-level
    // domain of at least two letters.
    if jd - at < 2 || n - jd < 3 {
        proof {
            assert forall|ii: int, jj: int| !email_split_at(s@, ii, jj) by {
                if email_split_at(s@, ii, jj) {
                    lemma_at_forced(s@, at as int, ii, jj);
                    lemma_dot_forced(s@, at as int, jd as int, ii, jj);
                    assert(false);
                }
            }
        }
        return false;
    }
    let mut k: usize = jd + 1;
    while k < n
        invariant
            jd < k <= n,
            n == s@.len(),
            v@ == s@,
            at < jd,
            s@[at as int] == '@',
            s@[jd as int] == '.',
            1 <= at,
            at + 2 <= jd,
            jd + 3 <= n,
            forall|k2: int| 0 <= k2 < at ==> is_local_char(s@[k2]) && s@[k2] != '@',
            forall|k2: int| at < k2 < n ==> is_domain_char(s@[k2]),
            forall|k2: int| jd < k2 < n ==> s@[k2] != '.',
            forall|k2: int| jd < k2 < k ==> is_ascii_alpha(s@[k2]),
        decreases n - k,
    {
        let c = v[k];
        if !alpha_char(c) {
            proof {
                assert forall|ii: int, jj: int| !email_split_at(s@, ii, jj) by {
                    if email_split_at(s@, ii, jj) {
                        lemma_at_forced(s@, at as int, ii, jj);
                        lemma_dot_forced(s@, at as int, jd as int, ii, jj);
                        assert(is_ascii_alpha(s@[k as int]));
                        assert(false);
                    }
                }
            }
            return false;
        }
        k += 1;
    }
    proof {
        assert(email_split_at(s@, at as int, jd as int));
    }
    true
}

// ---------------------------------------------------------------------------
// Shape of valid emails
// ---------------------------------------------------------------------------

/// The number of occurrences of a character in a string.
pub open spec fn count_char(s: Seq<char>, c: char) -> nat
    decreases s.len(),
{
    if s.len() == 0 {
        0
    } else {
        count_char(s.drop_last(), c) + (if s.last() == c {
            1nat
        } else {
            0nat
        })
    }
}

proof fn lemma_count_char_zero(s: Seq<char>, c: char)
    requires
        forall|k: int| 0 <= k < s.len() ==> s[k] != c,
    ensures
        count_char(s, c) == 0,
    decreases s.len(),
{
    if s.len() > 0 {
        lemma_count_char_zero(s.drop_last(), c);
    }
}

proof fn lemma_count_char_one(s: Seq<char>, c: char, i: int)
    requires
        0 <= i < s.len(),
        s[i] == c,
        forall|k: int| 0 <= k < s.len() && k != i ==> s[k] != c,
    ensures
        count_char(s, c) == 1,
    decreases s.len(),
{
    if i == s.len() - 1 {
        lemma_count_char_zero(s.drop_last(), c);
    } else {
        lemma_count_char_one(s.drop_last(), c, i);
    }
}

/// Every valid email contains exactly one `@`, and ends with a dot followed
/// by a top-level domain of at least two letters.
pub proof fn lemma_email_shape(s: Seq<char>)
    requires
        is_valid_email(s),
    ensures
        count_char(s, '@') == 1,
        exists|j: int|
            {
                &&& 0 <= j
                &&& j + 3 <= s.len()
                &&& s[j] == '.'
                &&& forall|k: int| j < k < s.len() ==> is_ascii_alpha(s[k])
            },
{
    let (i, j) = choose|i: int, j: int| email_split_at(s, i, j);
    assert(email_split_at(s, i, j));
    assert forall|k: int| 0 <= k < s.len() && k != i implies s[k] != '@' by {
        if k < i {
            assert(is_local_char(s[k]));
        } else if k < j {
            assert(is_domain_char(s[k]));
        } else if k == j {
            assert(s[k] == '.');
        } else {
            assert(is_ascii_alpha(s[k]));
        }
    }
    lemma_count_char_one(s, '@', i);
    assert((0 <= j && j + 3 <= s.len() && s[j] == '.' && forall|k: int|
        j < k < s.len() ==> is_ascii_alpha(s[k])));
}

} // verus!
