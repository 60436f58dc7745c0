//! Scanners for caller-supplied identifier strings.
//!
//! An episode request arrives as a "SxE" string such as "2x05": the first
//! digit run immediately followed by an 'x' and another digit run names the
//! season and the episode. A found subtitle's filename extension is the part
//! after its last dot.

use vstd::prelude::*;
use crate::digits::{is_digit, digits_val, run_end, all_digits};
use crate::digits::{scan_run_end, parse_digits};

verus! {

/// Every character of the digit run starting at `i` is a digit.
pub proof fn lemma_run_digits(s: Seq<char>, i: int)
    requires
        0 <= i <= s.len(),
    ensures
        i <= run_end(s, i) <= s.len(),
        forall|p: int| i <= p < run_end(s, i) ==> is_digit(s[p]),
    decreases s.len() - i,
{
    if i < s.len() && is_digit(s[i]) {
        lemma_run_digits(s, i + 1);
    }
}

/// A season-times-episode pattern starts at `i`: a digit run, then 'x', then
/// another digit.
pub open spec fn sxe_at(s: Seq<char>, i: int) -> bool {
    0 <= i < s.len() && is_digit(s[i]) && {
        let j = run_end(s, i);
        j + 1 < s.len() && s[j] == 'x' && is_digit(s[j + 1])
    }
}

/// The first position at or after `i` where the pattern starts.
pub open spec fn first_sxe_from(s: Seq<char>, i: int) -> Option<int>
    decreases s.len() - i,
{
    if i < 0 || i >= s.len() {
        None
    } else if sxe_at(s, i) {
        Some(i)
    } else {
        first_sxe_from(s, i + 1)
    }
}

/// The season and episode named by the first "SxE" occurrence in `s`: the
/// values of the two digit runs, or nothing when no occurrence exists or a
/// value does not fit in 32 bits.
pub open spec fn spec_extract_season_episode(s: Seq<char>) -> Option<(u32, u32)> {
    match first_sxe_from(s, 0) {
        None => None,
        Some(i) => {
            let j = run_end(s, i);
            let k = run_end(s, j + 1);
            let sv = digits_val(s.subrange(i, j));
            let ev = digits_val(s.subrange(j + 1, k));
            if sv <= u32::MAX && ev <= u32::MAX {
                Some((sv as u32, ev as u32))
            } else {
                None
            }
        },
    }
}

/// Scan `input` for the first "SxE" occurrence and parse both numbers.
pub fn extract_season_episode(input: &str) -> (r: Option<(u32, u32)>)
    ensures
        r == spec_extract_season_episode(input@),
{
    let n = input.unicode_len();
    let mut i: usize = 0;
    while i < n
        invariant
            n == input@.len(),
            i <= n,
            first_sxe_from(input@, 0) == first_sxe_from(input@, i as int),
        decreases n - i,
    {
        let c = input.get_char(i);
        if '0' <= c && c <= '9' {
            let j = scan_run_end(input, i);
            if n - j > 1 {
                let xc = input.get_char(j);
                let dc = input.get_char(j + 1);
                if xc == 'x' && '0' <= dc && dc <= '9' {
                    proof {
                        assert(sxe_at(input@, i as int));
                        lemma_run_digits(input@, i as int);
                        assert(all_digits(input@.subrange(i as int, j as int)));
                        lemma_run_digits(input@, j + 1);
                    }
                    let k = scan_run_end(input, j + 1);
                    proof {
                        assert(all_digits(input@.subrange(j + 1, k as int)));
                    }
                    let sv = parse_digits(input, i, j);
                    let ev = parse_digits(input, j + 1, k);
                    match (sv, ev) {
                        (Some(a), Some(b)) => {
                            return Some((a, b));
                        },
                        _ => {
                            return None;
                        },
                    }
                } else {
                    proof {
                        assert(!sxe_at(input@, i as int));
                    }
                }
            } else {
                proof {
                    assert(!sxe_at(input@, i as int));
                }
            }
        } else {
            proof {
                assert(!sxe_at(input@, i as int));
            }
        }
        i += 1;
    }
    None
}

/// The greatest position below `i` holding a dot, or -1.
pub open spec fn last_dot_before(s: Seq<char>, i: int) -> int
    decreases i,
{
    if i <= 0 {
        -1
    } else if s[i - 1] == '.' {
        i - 1
    } else {
        last_dot_before(s, i - 1)
    }
}

/// The part of a filename after its last dot; the whole name when it has none.
pub open spec fn spec_file_extension(s: Seq<char>) -> Seq<char> {
    s.subrange(last_dot_before(s, s.len() as int) + 1, s.len() as int)
}

/// Extract the filename extension.
pub fn file_extension(name: &str) -> (r: String)
    ensures
        r@ == spec_file_extension(name@),
{
    let n = name.unicode_len();
    let mut i: usize = n;
    while i > 0
        invariant
            n == name@.len(),
            i <= n,
            last_dot_before(name@, n as int) == last_dot_before(name@, i as int),
        decreases i,
    {
        let c = name.get_char(i - 1);
        if c == '.' {
            return name.substring_char(i, n).to_owned();
        }
        i -= 1;
    }
    name.substring_char(0, n).to_owned()
}

} // verus!
