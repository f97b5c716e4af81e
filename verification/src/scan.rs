//! Scanning a single log line for the bracket pattern: a literal `[`,
//! one or more decimal digits, then a literal `]`.  The leftmost such
//! group in the line is the one that counts, and its digits are read as
//! an unsigned 64-bit number; a run of digits too large for `u64` makes
//! the whole line count as a non-match.
use vstd::prelude::*;

verus! {

/// A decimal digit, `'0'` through `'9'`.
pub open spec fn is_digit(c: char) -> bool {
    '0' <= c && c <= '9'
}

/// Numeric value of a decimal digit.
pub open spec fn digit_val(c: char) -> nat {
    (c as nat - '0' as nat) as nat
}

/// Value of a run of decimal digits, most significant first.
pub open spec fn digits_value(ds: Seq<char>) -> nat
    decreases ds.len(),
{
    if ds.len() == 0 {
        0
    } else {
        digits_value(ds.drop_last()) * 10 + digit_val(ds.last())
    }
}

/// The bracket pattern holds at `i` with closing bracket at `j`: `s[i]`
/// is `'['`, `s[j]` is `']'`, and between them stand only digits, at
/// least one.
pub open spec fn is_match_at(s: Seq<char>, i: int, j: int) -> bool {
    &&& 0 <= i
    &&& i + 1 < j < s.len()
    &&& s[i] == '['
    &&& s[j] == ']'
    &&& forall|k: int| i < k < j ==> is_digit(#[trigger] s[k])
}

/// Some closing bracket completes a match that starts at `i`.
pub open spec fn has_match_at(s: Seq<char>, i: int) -> bool {
    exists|j: int| is_match_at(s, i, j)
}

/// The closing bracket of the match that starts at `i` (unique when it
/// exists: it sits at the first non-digit after `i`).
pub open spec fn match_close(s: Seq<char>, i: int) -> int {
    choose|j: int| is_match_at(s, i, j)
}

/// Start of the leftmost match at or after position `i`, if any.
pub open spec fn first_match_from(s: Seq<char>, i: int) -> Option<int>
    decreases s.len() - i,
{
    if i < 0 || i >= s.len() {
        None
    } else if has_match_at(s, i) {
        Some(i)
    } else {
        first_match_from(s, i + 1)
    }
}

/// The number enclosed by the leftmost bracket match of the line, if
/// the line has a match at all.
pub open spec fn line_value(s: Seq<char>) -> Option<nat> {
    match first_match_from(s, 0) {
        None => None,
        Some(i) => Some(digits_value(s.subrange(i + 1, match_close(s, i)))),
    }
}

/// What scanning one line yields: the number of the leftmost bracket
/// match, provided it fits in `u64`; an oversized number turns the line
/// into a non-match.
pub open spec fn line_epoch(s: Seq<char>) -> Option<u64> {
    match line_value(s) {
        None => None,
        Some(v) => if v <= u64::MAX {
            Some(v as u64)
        } else {
            None
        },
    }
}

fn is_digit_exec(c: char) -> (r: bool)
    ensures
        r == is_digit(c),
{
    let x = c as u32;
    48 <= x && x <= 57
}

fn digit_val_exec(c: char) -> (r: u64)
    requires
        is_digit(c),
    ensures
        r == digit_val(c),
        r <= 9,
{
    (c as u32 - 48) as u64
}

/// Appending one digit multiplies the run's value by ten and adds it.
proof fn lemma_digits_snoc(s: Seq<char>, a: int, j: int)
    requires
        0 <= a <= j < s.len(),
    ensures
        digits_value(s.subrange(a, j + 1)) == digits_value(s.subrange(a, j)) * 10 + digit_val(
            s[j],
        ),
{
    let t = s.subrange(a, j + 1);
    assert(t.drop_last() =~= s.subrange(a, j));
    assert(t.last() == s[j]);
}

/// The closing bracket of a match is unique.
proof fn lemma_match_close(s: Seq<char>, i: int, j: int)
    requires
        is_match_at(s, i, j),
    ensures
        has_match_at(s, i),
        match_close(s, i) == j,
{
    assert(has_match_at(s, i));
    let jc = match_close(s, i);
    assert(is_match_at(s, i, jc));
    if jc < j {
        assert(is_digit(s[jc]));
        assert(false);
    } else if jc > j {
        assert(is_digit(s[j]));
        assert(false);
    }
}

/// When the digit run that follows `[` at `i` ends without a closing
/// bracket right after it, no match starts at `i`.
proof fn lemma_no_match_at(s: Seq<char>, i: int, j: int)
    requires
        0 <= i < s.len(),
        s[i] == '[',
        i < j <= s.len(),
        forall|k: int| i < k < j ==> is_digit(#[trigger] s[k]),
        j == s.len() || !is_digit(s[j]),
        !(i + 1 < j < s.len() && s[j] == ']'),
    ensures
        !has_match_at(s, i),
{
    if has_match_at(s, i) {
        let j2 = choose|j2: int| is_match_at(s, i, j2);
        if j2 < j {
            assert(is_digit(s[j2]));
            assert(false);
        } else if j2 > j {
            assert(is_digit(s[j]));
            assert(false);
        }
    }
}

/// Scan one line for the leftmost bracketed digit run, reading it as a
/// `u64`.  Mirrors `line_epoch` exactly: a line whose leftmost match
/// holds a number above `u64::MAX` yields `None`, whatever follows it.
pub fn scan_line(s: &str) -> (r: Option<u64>)
    ensures
        r == line_epoch(s@),
{
    let n = s.unicode_len();
    let mut i: usize = 0;
    while i < n
        invariant
            n == s@.len(),
            i <= n,
            first_match_from(s@, 0) == first_match_from(s@, i as int),
        decreases n - i,
    {
        if s.get_char(i) == '[' {
            let ghost gi = i as int;
            let mut j: usize = i + 1;
            let mut val: u64 = 0;
            let mut overflow: bool = false;
            while j < n && is_digit_exec(s.get_char(j))
                invariant
                    n == s@.len(),
                    i < j <= n,
                    i < n,
                    gi == i as int,
                    forall|k: int| gi < k < j ==> is_digit(#[trigger] s@[k]),
                    !overflow ==> val == digits_value(s@.subrange(gi + 1, j as int)),
                    overflow ==> digits_value(s@.subrange(gi + 1, j as int)) > u64::MAX,
                decreases n - j,
            {
                let d = digit_val_exec(s.get_char(j));
                proof {
                    lemma_digits_snoc(s@, gi + 1, j as int);
                }
                if overflow || val > (u64::MAX - d) / 10 {
                    proof {
                        if !overflow {
                            assert(val * 10 + d > u64::MAX) by (nonlinear_arith)
                                requires
                                    val > (u64::MAX - d) / 10,
                                    d <= 9,
                            ;
                        }
                    }
                    overflow = true;
                } else {
                    proof {
                        assert(val * 10 + d <= u64::MAX) by (nonlinear_arith)
                            requires
                                val <= (u64::MAX - d) / 10,
                                d <= 9,
                        ;
                    }
                    val = val * 10 + d;
                }
                j += 1;
            }
            // Here the digit run is s[i+1 .. j]; either it reached the
            // end of the line or a non-digit stands at j.
            if j > i + 1 && j < n && s.get_char(j) == ']' {
                proof {
                    lemma_match_close(s@, gi, j as int);
                    assert(first_match_from(s@, gi) == Some(gi));
                }
                if overflow {
                    return None;
                } else {
                    return Some(val);
                }
            } else {
                proof {
                    lemma_no_match_at(s@, gi, j as int);
                }
            }
        }
        proof {
            assert(!has_match_at(s@, i as int));
        }
        i += 1;
    }
    None
}

} // verus!

