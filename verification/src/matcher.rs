//! The title matcher: scoring listing titles against a canonical title.
//!
//! For the wanted season, the canonical title is decorated into the
//! conventional variants (bare, "Title N", "Title Season N", "Title SN", an
//! ordinal form, and Roman-numeral forms up to X). Every (variant, candidate)
//! pair is scored in thousandths: a normalised edit-distance similarity,
//! plus a fixed bonus of 200 when the candidate's season indicator token
//! appears in the variant, minus 500 when it does not or the candidate has
//! none, minus 300 when some whitespace token of the candidate is missing
//! from the variant, clamped to [0, 1000]. The pair with the strictly
//! greatest score seen first wins: generation order is the deliberate,
//! reproducible tie-break. The weights are policy, fixed on purpose.

use vstd::prelude::*;
use crate::digits::{all_digits, dec_digits};
use crate::digits::dec_string;
use crate::strings::{spec_contains, spec_tokens, string_views};
use crate::strings::{contains_str, split_tokens, has_token, str_eq};

verus! {

/// Edit distance between the first `i` characters of `a` and the first `j`
/// of `b`: insertions, deletions and substitutions each cost one.
pub open spec fn lev_prefix(a: Seq<char>, b: Seq<char>, i: int, j: int) -> int
    decreases i + j,
{
    if i <= 0 {
        if j <= 0 {
            0
        } else {
            j
        }
    } else if j <= 0 {
        i
    } else {
        let del = lev_prefix(a, b, i - 1, j) + 1;
        let ins = lev_prefix(a, b, i, j - 1) + 1;
        let sub = lev_prefix(a, b, i - 1, j - 1) + if a[i - 1] == b[j - 1] {
            0int
        } else {
            1int
        };
        if del <= ins && del <= sub {
            del
        } else if ins <= sub {
            ins
        } else {
            sub
        }
    }
}

/// The Levenshtein distance between `a` and `b`.
pub open spec fn spec_levenshtein(a: Seq<char>, b: Seq<char>) -> int {
    lev_prefix(a, b, a.len() as int, b.len() as int)
}

/// The distance is non-negative and at most the longer prefix length.
proof fn lemma_lev_bounds(a: Seq<char>, b: Seq<char>, i: int, j: int)
    requires
        0 <= i,
        0 <= j,
    ensures
        0 <= lev_prefix(a, b, i, j),
        lev_prefix(a, b, i, j) <= if i >= j {
            i
        } else {
            j
        },
    decreases i + j,
{
    if i > 0 && j > 0 {
        lemma_lev_bounds(a, b, i - 1, j);
        lemma_lev_bounds(a, b, i, j - 1);
        lemma_lev_bounds(a, b, i - 1, j - 1);
    }
}

/// Compute the Levenshtein distance by the usual single-row dynamic program.
pub fn levenshtein(a: &str, b: &str) -> (r: usize)
    ensures
        r == spec_levenshtein(a@, b@),
{
    let va = crate::strings::str_chars(a);
    let vb = crate::strings::str_chars(b);
    let n = va.len();
    let m = vb.len();
    let mut row: Vec<usize> = Vec::new();
    let mut j0: usize = 0;
    while j0 < m
        invariant
            m == vb@.len(),
            j0 <= m,
            row@.len() == j0,
            forall|k: int| 0 <= k < j0 ==> row@[k] == lev_prefix(a@, b@, 0, k),
        decreases m - j0,
    {
        row.push(j0);
        j0 += 1;
    }
    row.push(m);
    let mut ii: usize = 0;
    while ii < n
        invariant
            n == va@.len(),
            m == vb@.len(),
            va@ == a@,
            vb@ == b@,
            ii <= n,
            row@.len() == m + 1,
            forall|k: int| 0 <= k <= m ==> row@[k] == lev_prefix(a@, b@, ii as int, k),
        decreases n - ii,
    {
        let i = ii + 1;
        let mut prev: usize = row[0];
        row.set(0, i);
        let mut jj: usize = 0;
        while jj < m
            invariant
                n == va@.len(),
                m == vb@.len(),
                va@ == a@,
                vb@ == b@,
                ii < n,
                i == ii + 1,
                jj <= m,
                row@.len() == m + 1,
                prev == lev_prefix(a@, b@, ii as int, jj as int),
                forall|k: int| 0 <= k <= jj ==> row@[k] == lev_prefix(a@, b@, i as int, k),
                forall|k: int| jj < k <= m ==> row@[k] == lev_prefix(a@, b@, ii as int, k),
            decreases m - jj,
        {
            let j = jj + 1;
            let x = row[j];
            let y = row[j - 1];
            let cost: usize = if va[i - 1] == vb[j - 1] {
                0
            } else {
                1
            };
            proof {
                lemma_lev_bounds(a@, b@, ii as int, jj as int);
                lemma_lev_bounds(a@, b@, ii as int, j as int);
                lemma_lev_bounds(a@, b@, i as int, jj as int);
            }
            let mut d: usize = prev + cost;
            if x < d {
                d = x + 1;
            }
            if y < d {
                d = y + 1;
            }
            proof {
                assert(d == lev_prefix(a@, b@, i as int, j as int));
            }
            prev = x;
            row.set(j, d);
            jj += 1;
        }
        ii += 1;
    }
    row[m]
}

/// Similarity in thousandths: 1000 minus the distance's share of the longer
/// length; two empty strings are a perfect match.
pub open spec fn spec_similarity(a: Seq<char>, b: Seq<char>) -> int {
    if a.len() == 0 && b.len() == 0 {
        1000
    } else {
        let longer: int = if a.len() >= b.len() {
            a.len() as int
        } else {
            b.len() as int
        };
        1000 - (1000 * spec_levenshtein(a, b)) / longer
    }
}

/// Compute the similarity of two strings, in thousandths.
pub fn similarity(a: &str, b: &str) -> (r: u32)
    ensures
        r == spec_similarity(a@, b@),
        r <= 1000,
{
    let la = a.unicode_len();
    let lb = b.unicode_len();
    if la == 0 && lb == 0 {
        return 1000;
    }
    let longer: usize = if la >= lb {
        la
    } else {
        lb
    };
    let d = levenshtein(a, b);
    proof {
        lemma_lev_bounds(a@, b@, a@.len() as int, b@.len() as int);
        assert(d <= longer);
        assert(1000 * d <= 1000 * longer) by (nonlinear_arith)
            requires
                d <= longer,
                0 <= d,
        ;
        vstd::arithmetic::div_mod::lemma_div_is_ordered(
            1000 * d as int,
            1000 * longer as int,
            longer as int,
        );
        vstd::arithmetic::div_mod::lemma_div_multiples_vanish(1000, longer as int);
        vstd::arithmetic::div_mod::lemma_div_pos_is_pos(1000 * d as int, longer as int);
    }
    let scaled: u128 = (1000u128 * (d as u128)) / (longer as u128);
    proof {
        assert(scaled == (1000 * d as int) / (longer as int));
        assert(scaled <= 1000);
    }
    1000 - (scaled as u32)
}

/// The Roman numerals recognised as season indicators, I through X.
pub open spec fn spec_roman(n: int) -> Seq<char> {
    if n == 1 {
        seq!['I']
    } else if n == 2 {
        seq!['I', 'I']
    } else if n == 3 {
        seq!['I', 'I', 'I']
    } else if n == 4 {
        seq!['I', 'V']
    } else if n == 5 {
        seq!['V']
    } else if n == 6 {
        seq!['V', 'I']
    } else if n == 7 {
        seq!['V', 'I', 'I']
    } else if n == 8 {
        seq!['V', 'I', 'I', 'I']
    } else if n == 9 {
        seq!['I', 'X']
    } else if n == 10 {
        seq!['X']
    } else {
        Seq::empty()
    }
}

/// The value a Roman-numeral token names, or 0 when it is none of I..X.
pub open spec fn spec_roman_value(t: Seq<char>) -> int {
    if t == spec_roman(1) {
        1
    } else if t == spec_roman(2) {
        2
    } else if t == spec_roman(3) {
        3
    } else if t == spec_roman(4) {
        4
    } else if t == spec_roman(5) {
        5
    } else if t == spec_roman(6) {
        6
    } else if t == spec_roman(7) {
        7
    } else if t == spec_roman(8) {
        8
    } else if t == spec_roman(9) {
        9
    } else if t == spec_roman(10) {
        10
    } else {
        0
    }
}

/// Render a season number as a Roman numeral.
pub fn roman_numeral(n: u32) -> (r: String)
    requires
        1 <= n <= 10,
    ensures
        r@ == spec_roman(n as int),
{
    proof {
        reveal_strlit("I");
        reveal_strlit("II");
        reveal_strlit("III");
        reveal_strlit("IV");
        reveal_strlit("V");
        reveal_strlit("VI");
        reveal_strlit("VII");
        reveal_strlit("VIII");
        reveal_strlit("IX");
        reveal_strlit("X");
    }
    let s: &str = if n == 1 {
        "I"
    } else if n == 2 {
        "II"
    } else if n == 3 {
        "III"
    } else if n == 4 {
        "IV"
    } else if n == 5 {
        "V"
    } else if n == 6 {
        "VI"
    } else if n == 7 {
        "VII"
    } else if n == 8 {
        "VIII"
    } else if n == 9 {
        "IX"
    } else {
        "X"
    };
    proof {
        assert(s@ =~= spec_roman(n as int));
    }
    s.to_owned()
}

/// Recognise a Roman-numeral token, I through X.
fn roman_value(t: &str) -> (r: u32)
    ensures
        r == spec_roman_value(t@),
{
    proof {
        reveal_strlit("I");
        reveal_strlit("II");
        reveal_strlit("III");
        reveal_strlit("IV");
        reveal_strlit("V");
        reveal_strlit("VI");
        reveal_strlit("VII");
        reveal_strlit("VIII");
        reveal_strlit("IX");
        reveal_strlit("X");
        assert("I"@ =~= spec_roman(1));
        assert("II"@ =~= spec_roman(2));
        assert("III"@ =~= spec_roman(3));
        assert("IV"@ =~= spec_roman(4));
        assert("V"@ =~= spec_roman(5));
        assert("VI"@ =~= spec_roman(6));
        assert("VII"@ =~= spec_roman(7));
        assert("VIII"@ =~= spec_roman(8));
        assert("IX"@ =~= spec_roman(9));
        assert("X"@ =~= spec_roman(10));
    }
    if str_eq(t, "I") {
        1
    } else if str_eq(t, "II") {
        2
    } else if str_eq(t, "III") {
        3
    } else if str_eq(t, "IV") {
        4
    } else if str_eq(t, "V") {
        5
    } else if str_eq(t, "VI") {
        6
    } else if str_eq(t, "VII") {
        7
    } else if str_eq(t, "VIII") {
        8
    } else if str_eq(t, "IX") {
        9
    } else if str_eq(t, "X") {
        10
    } else {
        0
    }
}

/// The ordinal suffix of a number: st, nd, rd, th, with the teens on th.
pub open spec fn spec_ordinal_suffix(n: int) -> Seq<char> {
    if n % 100 == 11 || n % 100 == 12 || n % 100 == 13 {
        seq!['t', 'h']
    } else if n % 10 == 1 {
        seq!['s', 't']
    } else if n % 10 == 2 {
        seq!['n', 'd']
    } else if n % 10 == 3 {
        seq!['r', 'd']
    } else {
        seq!['t', 'h']
    }
}

/// A number rendered as an English ordinal: 1st, 2nd, 3rd, 4th, ...
pub open spec fn spec_ordinal(n: int) -> Seq<char> {
    dec_digits(n) + spec_ordinal_suffix(n)
}

/// Render a season number as an ordinal.
pub fn ordinal(n: u32) -> (r: String)
    ensures
        r@ == spec_ordinal(n as int),
{
    proof {
        reveal_strlit("th");
        reveal_strlit("st");
        reveal_strlit("nd");
        reveal_strlit("rd");
        assert("th"@ =~= seq!['t', 'h']);
        assert("st"@ =~= seq!['s', 't']);
        assert("nd"@ =~= seq!['n', 'd']);
        assert("rd"@ =~= seq!['r', 'd']);
    }
    let mut s = dec_string(n);
    let hundred = n % 100;
    let unit = n % 10;
    if hundred == 11 || hundred == 12 || hundred == 13 {
        s.append("th");
    } else if unit == 1 {
        s.append("st");
    } else if unit == 2 {
        s.append("nd");
    } else if unit == 3 {
        s.append("rd");
    } else {
        s.append("th");
    }
    s
}

/// A candidate's season indicator token: a bare number or a Roman numeral.
pub open spec fn is_indicator(t: Seq<char>) -> bool {
    (t.len() > 0 && all_digits(t)) || spec_roman_value(t) > 0
}

/// The last indicator among the tokens, the one closest to the title's end.
pub open spec fn last_indicator(ts: Seq<Seq<char>>) -> Option<Seq<char>>
    decreases ts.len(),
{
    if ts.len() == 0 {
        None
    } else if is_indicator(ts.last()) {
        Some(ts.last())
    } else {
        last_indicator(ts.drop_last())
    }
}

/// The season indicator of a candidate title.
pub open spec fn spec_indicator(candidate: Seq<char>) -> Option<Seq<char>> {
    last_indicator(spec_tokens(candidate))
}

/// Whether one token is an indicator, executable form.
fn is_indicator_exec(t: &String) -> (r: bool)
    ensures
        r == is_indicator(t@),
{
    let chars = crate::strings::str_chars(t.as_str());
    let n = chars.len();
    let mut digits = n > 0;
    let mut i: usize = 0;
    while i < n
        invariant
            n == t@.len(),
            chars@ == t@,
            i <= n,
            digits == (n > 0 && forall|k: int|
                0 <= k < i ==> crate::digits::is_digit(#[trigger] t@[k])),
        decreases n - i,
    {
        let c = chars[i];
        if !('0' <= c && c <= '9') {
            digits = false;
        }
        i += 1;
    }
    if digits {
        proof {
            assert(all_digits(t@));
        }
        return true;
    }
    roman_value(t.as_str()) > 0
}

/// Find the season indicator of a candidate title.
pub fn find_indicator(candidate: &str) -> (r: Option<String>)
    ensures
        match r {
            Some(t) => spec_indicator(candidate@) == Some(t@),
            None => (spec_indicator(candidate@) is None),
        },
{
    let tokens = split_tokens(candidate);
    let mut i: usize = tokens.len();
    proof {
        assert(string_views(tokens@).subrange(0, i as int) =~= string_views(tokens@));
    }
    while i > 0
        invariant
            i <= tokens@.len(),
            string_views(tokens@) == spec_tokens(candidate@),
            last_indicator(spec_tokens(candidate@)) == last_indicator(
                string_views(tokens@).subrange(0, i as int),
            ),
        decreases i,
    {
        let ghost pre = string_views(tokens@).subrange(0, i as int);
        proof {
            assert(pre.last() == tokens@[i - 1]@);
            assert(pre.drop_last() =~= string_views(tokens@).subrange(0, i - 1));
        }
        if is_indicator_exec(&tokens[i - 1]) {
            return Some(tokens[i - 1].clone());
        }
        i -= 1;
    }
    proof {
        assert(string_views(tokens@).subrange(0, 0) =~= Seq::<Seq<char>>::empty());
    }
    None
}

/// The indicator-presence test: the variant contains the token in one of the
/// conventional season forms. Every listed form embeds the bare token, so
/// containment of the token itself decides the disjunction.
pub open spec fn indicator_present(variant: Seq<char>, t: Seq<char>) -> bool {
    spec_contains(variant, t)
}

/// The coverage test: every whitespace token of the candidate appears among
/// the variant's tokens.
pub open spec fn tokens_covered(variant: Seq<char>, candidate: Seq<char>) -> bool {
    forall|i: int|
        0 <= i < spec_tokens(candidate).len() ==> spec_tokens(variant).contains(
            #[trigger] spec_tokens(candidate)[i],
        )
}

/// Check token coverage.
fn tokens_covered_exec(variant: &str, candidate: &str) -> (r: bool)
    ensures
        r == tokens_covered(variant@, candidate@),
{
    let vtoks = split_tokens(variant);
    let ctoks = split_tokens(candidate);
    let n = ctoks.len();
    let mut i: usize = 0;
    while i < n
        invariant
            n == ctoks@.len(),
            i <= n,
            string_views(vtoks@) == spec_tokens(variant@),
            string_views(ctoks@) == spec_tokens(candidate@),
            forall|k: int|
                0 <= k < i ==> spec_tokens(variant@).contains(
                    #[trigger] spec_tokens(candidate@)[k],
                ),
        decreases n - i,
    {
        if !has_token(&vtoks, &ctoks[i]) {
            proof {
                assert(spec_tokens(candidate@)[i as int] == ctoks@[i as int]@);
                if spec_tokens(variant@).contains(ctoks@[i as int]@) {
                    let w = choose|w: int|
                        0 <= w < spec_tokens(variant@).len() && spec_tokens(variant@)[w]
                            == ctoks@[i as int]@;
                    assert(vtoks@[w]@ == ctoks@[i as int]@);
                }
            }
            return false;
        }
        proof {
            let w = choose|w: int| 0 <= w < vtoks@.len() && vtoks@[w]@ == ctoks@[i as int]@;
            assert(spec_tokens(variant@)[w] == ctoks@[i as int]@);
            assert(spec_tokens(variant@).contains(spec_tokens(candidate@)[i as int]));
        }
        i += 1;
    }
    true
}

/// The season-indicator adjustment: +200 when the candidate names a season
/// the variant carries, -500 when the indicator is missing on either side.
pub open spec fn season_adjust(variant: Seq<char>, candidate: Seq<char>) -> int {
    match spec_indicator(candidate) {
        Some(t) => if indicator_present(variant, t) {
            200
        } else {
            -500
        },
        None => -500,
    }
}

/// The coverage adjustment: -300 when the candidate has a token the variant
/// lacks.
pub open spec fn coverage_adjust(variant: Seq<char>, candidate: Seq<char>) -> int {
    if tokens_covered(variant, candidate) {
        0
    } else {
        -300
    }
}

/// Clamp to the score range.
pub open spec fn clamp_score(x: int) -> int {
    if x < 0 {
        0
    } else if x > 1000 {
        1000
    } else {
        x
    }
}

/// The score of one (variant, candidate) pair, in thousandths.
pub open spec fn spec_score(variant: Seq<char>, candidate: Seq<char>) -> int {
    clamp_score(
        spec_similarity(variant, candidate) + season_adjust(variant, candidate) + coverage_adjust(
            variant,
            candidate,
        ),
    )
}

/// Score one (variant, candidate) pair.
pub fn match_score(variant: &str, candidate: &str) -> (r: u32)
    ensures
        r == spec_score(variant@, candidate@),
        r <= 1000,
{
    let sim = similarity(variant, candidate);
    let season: i32 = match find_indicator(candidate) {
        Some(t) => {
            if contains_str(variant, t.as_str()) {
                200
            } else {
                -500
            }
        },
        None => -500,
    };
    let coverage: i32 = if tokens_covered_exec(variant, candidate) {
        0
    } else {
        -300
    };
    let total: i64 = sim as i64 + season as i64 + coverage as i64;
    if total < 0 {
        0
    } else if total > 1000 {
        1000
    } else {
        total as u32
    }
}

/// The decorated forms tried for a canonical title and season: the bare
/// title only for season 1 (first seasons are conventionally unmarked), and
/// otherwise number, "Season N", "SN" and ordinal forms, with Roman-numeral
/// forms for seasons up to X.
pub open spec fn spec_variants(title: Seq<char>, season: u32) -> Seq<Seq<char>> {
    if season <= 1 {
        seq![title]
    } else {
        let base = seq![
            title + " "@ + dec_digits(season as int),
            title + " Season "@ + dec_digits(season as int),
            title + " S"@ + dec_digits(season as int),
            title + " "@ + spec_ordinal(season as int) + " Season"@,
        ];
        if season <= 10 {
            base + seq![
                title + " "@ + spec_roman(season as int),
                title + " Season "@ + spec_roman(season as int),
            ]
        } else {
            base
        }
    }
}

/// Generate the variant strings for a canonical title and season.
pub fn generate_variants(title: &str, season: u32) -> (r: Vec<String>)
    ensures
        string_views(r@) == spec_variants(title@, season),
{
    let mut out: Vec<String> = Vec::new();
    if season <= 1 {
        out.push(title.to_owned());
        proof {
            assert(string_views(out@) =~= spec_variants(title@, season));
        }
        return out;
    }
    let num = dec_string(season);
    let mut v1 = title.to_owned();
    v1.append(" ");
    v1.append(num.as_str());
    out.push(v1);
    let mut v2 = title.to_owned();
    v2.append(" Season ");
    v2.append(num.as_str());
    out.push(v2);
    let mut v3 = title.to_owned();
    v3.append(" S");
    v3.append(num.as_str());
    out.push(v3);
    let ord = ordinal(season);
    let mut v4 = title.to_owned();
    v4.append(" ");
    v4.append(ord.as_str());
    v4.append(" Season");
    out.push(v4);
    if season <= 10 {
        let rom = roman_numeral(season);
        let mut v5 = title.to_owned();
        v5.append(" ");
        v5.append(rom.as_str());
        out.push(v5);
        let mut v6 = title.to_owned();
        v6.append(" Season ");
        v6.append(rom.as_str());
        out.push(v6);
        proof {
            assert(string_views(out@) =~= spec_variants(title@, season));
        }
    } else {
        proof {
            assert(string_views(out@) =~= spec_variants(title@, season));
        }
    }
    out
}

/// The best score a candidate reaches over the first `j` variants.
pub open spec fn cand_best_upto(variants: Seq<Seq<char>>, c: Seq<char>, j: int) -> int
    decreases j,
{
    if j <= 0 {
        0
    } else {
        let prev = cand_best_upto(variants, c, j - 1);
        let s = spec_score(variants[j - 1], c);
        if s > prev {
            s
        } else {
            prev
        }
    }
}

/// The best score a candidate reaches over all variants.
pub open spec fn cand_best(variants: Seq<Seq<char>>, c: Seq<char>) -> int {
    cand_best_upto(variants, c, variants.len() as int)
}

/// Fold the winner over the candidates from `i` on: a candidate replaces the
/// best seen only with a strictly greater score, so the first of equals wins.
pub open spec fn best_from(
    variants: Seq<Seq<char>>,
    candidates: Seq<Seq<char>>,
    i: int,
    best_title: Seq<char>,
    best_score: int,
) -> (Seq<char>, int)
    decreases candidates.len() - i,
{
    if i < 0 || i >= candidates.len() {
        (best_title, best_score)
    } else {
        let s = cand_best(variants, candidates[i]);
        if s > best_score {
            best_from(variants, candidates, i + 1, candidates[i], s)
        } else {
            best_from(variants, candidates, i + 1, best_title, best_score)
        }
    }
}

/// The winning candidate and its score: every (variant, candidate) pair is
/// scored, and the strictly greatest score seen first wins, starting from an
/// empty title at score 0.
pub open spec fn spec_best_match(title: Seq<char>, season: u32, candidates: Seq<Seq<char>>) -> (
    Seq<char>,
    int,
) {
    best_from(spec_variants(title, season), candidates, 0, Seq::empty(), 0)
}

/// Pick the candidate that best matches the canonical title for the wanted
/// season, with its score in thousandths. An empty candidate list, like one
/// where no pair scores above 0, yields an empty title and score 0.
pub fn best_match(title: &str, season: u32, candidates: &Vec<String>) -> (r: (String, u32))
    ensures
        r.0@ == spec_best_match(title@, season, string_views(candidates@)).0,
        r.1 == spec_best_match(title@, season, string_views(candidates@)).1,
{
    let variants = generate_variants(title, season);
    let vn = variants.len();
    let cn = candidates.len();
    let ghost vs = string_views(variants@);
    let ghost cs = string_views(candidates@);
    let mut best_title = String::new();
    let mut best_score: u32 = 0;
    let mut i: usize = 0;
    while i < cn
        invariant
            vn == vs.len(),
            cn == cs.len(),
            vs == string_views(variants@),
            cs == string_views(candidates@),
            i <= cn,
            best_from(vs, cs, i as int, best_title@, best_score as int) == best_from(
                vs,
                cs,
                0,
                Seq::<char>::empty(),
                0,
            ),
        decreases cn - i,
    {
        let c = &candidates[i];
        let mut cb: u32 = 0;
        let mut j: usize = 0;
        while j < vn
            invariant
                vn == vs.len(),
                vs == string_views(variants@),
                i < cn,
                cn == cs.len(),
                cs == string_views(candidates@),
                c@ == cs[i as int],
                j <= vn,
                cb == cand_best_upto(vs, c@, j as int),
            decreases vn - j,
        {
            let s = match_score(variants[j].as_str(), c.as_str());
            proof {
                assert(vs[j as int] == variants@[j as int]@);
            }
            if s > cb {
                cb = s;
            }
            j += 1;
        }
        proof {
            assert(cb == cand_best(vs, cs[i as int]));
        }
        if cb > best_score {
            best_title = c.clone();
            best_score = cb;
        }
        i += 1;
    }
    (best_title, best_score)
}

/// The matcher is deterministic: any two results of `best_match` on the
/// same canonical title, season and candidate list — each pinned by its
/// contract to `spec_best_match` — carry the same winning candidate and the
/// same score. No tie-break depends on anything but the inputs.
pub proof fn lemma_best_match_deterministic(
    title: Seq<char>,
    season: u32,
    candidates: Seq<Seq<char>>,
    first_run: (Seq<char>, int),
    second_run: (Seq<char>, int),
)
    requires
        first_run == spec_best_match(title, season, candidates),
        second_run == spec_best_match(title, season, candidates),
    ensures
        first_run == second_run,
{
}

/// One search result scraped from the content host: a display title and the
/// link of its page.
#[derive(Debug, Clone)]
pub struct ListingTitle {
    pub display_title: String,
    pub page_link: String,
}

/// A listing reduced to its mathematical content: display title and link.
pub open spec fn listing_pairs(pages: Seq<ListingTitle>) -> Seq<(Seq<char>, Seq<char>)> {
    pages.map_values(|p: ListingTitle| (p.display_title@, p.page_link@))
}

/// The first pair whose title is `t`, scanning from `i`.
pub open spec fn first_title_from(pairs: Seq<(Seq<char>, Seq<char>)>, t: Seq<char>, i: int) -> Option<int>
    decreases pairs.len() - i,
{
    if i < 0 || i >= pairs.len() {
        None
    } else if pairs[i].0 == t {
        Some(i)
    } else {
        first_title_from(pairs, t, i + 1)
    }
}

/// The chosen listing `r` is what the matcher picks from `pairs` for this
/// title and season: the first listing carrying the winning candidate title,
/// or nothing when no listing carries it (in particular when the list is
/// empty or nothing scored above 0).
pub open spec fn selection_describes(
    title: Seq<char>,
    season: u32,
    pairs: Seq<(Seq<char>, Seq<char>)>,
    r: Option<ListingTitle>,
) -> bool {
    let w = spec_best_match(title, season, pairs.map_values(|pr: (Seq<char>, Seq<char>)| pr.0)).0;
    match r {
        Some(l) => l.display_title@ == w && (first_title_from(pairs, w, 0) matches Some(k)
            && l.page_link@ == pairs[k].1),
        None => first_title_from(pairs, w, 0) is None,
    }
}

/// Run the matcher over the scraped listings and hand back the first listing
/// carrying the winning title.
pub fn select_listing(title: &str, season: u32, pages: &Vec<ListingTitle>) -> (r: Option<
    ListingTitle,
>)
    ensures
        selection_describes(title@, season, listing_pairs(pages@), r),
{
    let ghost pairs = listing_pairs(pages@);
    let n = pages.len();
    let mut titles: Vec<String> = Vec::new();
    let mut i: usize = 0;
    while i < n
        invariant
            n == pages@.len(),
            i <= n,
            titles@.len() == i,
            forall|k: int| 0 <= k < i ==> titles@[k]@ == pages@[k].display_title@,
        decreases n - i,
    {
        titles.push(pages[i].display_title.clone());
        i += 1;
    }
    proof {
        assert(string_views(titles@) =~= pairs.map_values(|pr: (Seq<char>, Seq<char>)| pr.0));
    }
    let winner = best_match(title, season, &titles);
    let mut k: usize = 0;
    while k < n
        invariant
            n == pages@.len(),
            pairs == listing_pairs(pages@),
            k <= n,
            winner.0@ == spec_best_match(
                title@,
                season,
                pairs.map_values(|pr: (Seq<char>, Seq<char>)| pr.0),
            ).0,
            first_title_from(pairs, winner.0@, 0) == first_title_from(
                pairs,
                winner.0@,
                k as int,
            ),
        decreases n - k,
    {
        proof {
            assert(pairs[k as int] == (pages@[k as int].display_title@, pages@[
                k as int].page_link@));
        }
        if str_eq(pages[k].display_title.as_str(), winner.0.as_str()) {
            return Some(
                ListingTitle {
                    display_title: pages[k].display_title.clone(),
                    page_link: pages[k].page_link.clone(),
                },
            );
        }
        k += 1;
    }
    None
}

} // verus!
