//! The mesh-description grammar: a line-oriented text format with
//! whitespace-separated tokens, where a line starting `v`, `vt` or `vn`
//! carries three decimal coordinates, a line starting `f` carries exactly
//! three `index/index/index` corners (1-based), and every other line is
//! ignored.
//!
//! The grammar and the value of every token are given as spec functions
//! over byte sequences; the executable parser is proved to return exactly
//! what the spec says, including the exact error on malformed input.

use vstd::prelude::*;
use crate::fixed::{MAX_COORD, SCALE};

verus! {

/// Largest 1-based index a face corner may carry.
pub const MAX_INDEX: i64 = 2_000_000_000;

/// How a mesh description can be rejected.
#[derive(Clone, Copy, Debug, PartialEq, Eq, Structural)]
pub enum ParseError {
    /// A coordinate token is not a plain decimal number in range.
    MalformedNumber,
    /// A face line does not carry exactly three well-formed
    /// `index/index/index` corners.
    MalformedFace,
    /// A face refers to a vertex, texture or normal entry that the file
    /// does not define.
    FaceIndexOutOfRange,
}

/// Blank separator characters within a line.
pub open spec fn is_ws(c: u8) -> bool {
    c == 32 || c == 9 || c == 13
}

/// ASCII decimal digit.
pub open spec fn is_digit(c: u8) -> bool {
    48 <= c <= 57
}

/// Every character of `s` is a digit.
pub open spec fn all_digits(s: Seq<u8>) -> bool {
    forall|i: int| 0 <= i < s.len() ==> is_digit(#[trigger] s[i])
}

/// Value of a digit string read in base ten (0 for the empty string).
pub open spec fn digits_val(s: Seq<u8>) -> int
    decreases s.len(),
{
    if s.len() == 0 {
        0
    } else {
        digits_val(s.drop_last()) * 10 + (s.last() - 48)
    }
}

/// Ten to the `n`.
pub open spec fn pow10(n: nat) -> int
    decreases n,
{
    if n == 0 {
        1
    } else {
        10 * pow10((n - 1) as nat)
    }
}

/// First position at or after `i` holding byte `c`, or the length of `s`.
pub open spec fn find_byte(s: Seq<u8>, c: u8, i: int) -> int
    decreases s.len() - i,
{
    if i < 0 || i >= s.len() {
        s.len() as int
    } else if s[i] == c {
        i
    } else {
        find_byte(s, c, i + 1)
    }
}

/// First non-blank position at or after `i`, or the length of `s`.
pub open spec fn skip_ws(s: Seq<u8>, i: int) -> int
    decreases s.len() - i,
{
    if i < 0 || i >= s.len() {
        s.len() as int
    } else if is_ws(s[i]) {
        skip_ws(s, i + 1)
    } else {
        i
    }
}

/// First blank position at or after `i`, or the length of `s`: the end of
/// the token starting at `i`.
pub open spec fn token_end(s: Seq<u8>, i: int) -> int
    decreases s.len() - i,
{
    if i < 0 || i >= s.len() {
        s.len() as int
    } else if is_ws(s[i]) {
        i
    } else {
        token_end(s, i + 1)
    }
}

/// Value of the fractional digit string `f`, truncated to six decimal
/// places and scaled to fixed-point units.
pub open spec fn frac6_val(f: Seq<u8>) -> int {
    if f.len() >= 6 {
        digits_val(f.subrange(0, 6))
    } else {
        digits_val(f) * pow10((6 - f.len()) as nat)
    }
}

/// Value of one decimal coordinate token in fixed-point units: an
/// optional sign, an integer part and an optional fractional part after
/// one dot, at least one digit in all, and a magnitude of at most
/// `MAX_COORD`.  Anything else has no value.
pub open spec fn spec_parse_decimal(s: Seq<u8>) -> Option<i64> {
    let sign: int = if s.len() > 0 && s[0] == 45 {
        -1
    } else {
        1
    };
    let body: Seq<u8> = if s.len() > 0 && (s[0] == 45 || s[0] == 43) {
        s.subrange(1, s.len() as int)
    } else {
        s
    };
    let dp = find_byte(body, 46, 0);
    let ipart = body.subrange(0, dp);
    let fpart = if dp == body.len() {
        Seq::<u8>::empty()
    } else {
        body.subrange(dp + 1, body.len() as int)
    };
    if !all_digits(ipart) || !all_digits(fpart) || ipart.len() + fpart.len() == 0 {
        None
    } else {
        let val = digits_val(ipart) * (SCALE as int) + frac6_val(fpart);
        if val > MAX_COORD {
            None
        } else {
            Some((sign * val) as i64)
        }
    }
}

/// Value of one face corner token `a/b/c`: three 1-based decimal indices
/// separated by single slashes, each between 1 and `MAX_INDEX`, already
/// converted to 0-based.  Anything else has no value.
pub open spec fn spec_parse_corner(s: Seq<u8>) -> Option<(usize, usize, usize)> {
    let p1 = find_byte(s, 47, 0);
    let p2 = find_byte(s, 47, p1 + 1);
    let g1 = s.subrange(0, p1);
    let g2 = if p1 == s.len() {
        Seq::<u8>::empty()
    } else {
        s.subrange(p1 + 1, p2)
    };
    let g3 = if p2 >= s.len() {
        Seq::<u8>::empty()
    } else {
        s.subrange(p2 + 1, s.len() as int)
    };
    if p1 == s.len() || p2 == s.len() || g1.len() == 0 || g2.len() == 0 || g3.len() == 0
        || !all_digits(g1) || !all_digits(g2) || !all_digits(g3) {
        None
    } else {
        let v1 = digits_val(g1);
        let v2 = digits_val(g2);
        let v3 = digits_val(g3);
        if v1 < 1 || v1 > MAX_INDEX || v2 < 1 || v2 > MAX_INDEX || v3 < 1 || v3 > MAX_INDEX {
            None
        } else {
            Some((((v1 - 1) as usize), ((v2 - 1) as usize), ((v3 - 1) as usize)))
        }
    }
}

/// A digit string has a nonnegative value.
pub proof fn lemma_digits_val_nonneg(s: Seq<u8>)
    requires
        all_digits(s),
    ensures
        digits_val(s) >= 0,
    decreases s.len(),
{
    if s.len() > 0 {
        assert(all_digits(s.drop_last())) by {
            assert(forall|i: int| 0 <= i < s.len() - 1 ==> s.drop_last()[i] == #[trigger] s[i]);
        }
        lemma_digits_val_nonneg(s.drop_last());
        assert(is_digit(s.last()));
    }
}

/// A string of digits is worth less than ten to its length.
pub proof fn lemma_digits_val_upper(s: Seq<u8>)
    requires
        all_digits(s),
    ensures
        0 <= digits_val(s) < pow10(s.len()),
    decreases s.len(),
{
    if s.len() == 0 {
    } else {
        let p = s.drop_last();
        assert(all_digits(p)) by {
            assert(forall|i: int| 0 <= i < s.len() - 1 ==> p[i] == #[trigger] s[i]);
        }
        lemma_digits_val_upper(p);
        assert(is_digit(s.last()));
        assert(digits_val(p) * 10 + (s.last() - 48) < pow10(p.len()) * 10) by (nonlinear_arith)
            requires
                digits_val(p) < pow10(p.len()),
                s.last() - 48 < 10,
        ;
        assert(pow10(s.len()) == 10 * pow10(p.len()));
        assert(digits_val(p) * 10 >= 0) by (nonlinear_arith)
            requires
                digits_val(p) >= 0,
        ;
    }
}

/// Ten to the `n` is positive.
pub proof fn lemma_pow10_pos(n: nat)
    ensures
        pow10(n) >= 1,
    decreases n,
{
    if n > 0 {
        lemma_pow10_pos((n - 1) as nat);
    }
}

/// Ten to the `n` grows with `n`.
pub proof fn lemma_pow10_mono(a: nat, b: nat)
    requires
        a <= b,
    ensures
        pow10(a) <= pow10(b),
    decreases b,
{
    if a < b {
        lemma_pow10_mono(a, (b - 1) as nat);
        lemma_pow10_pos((b - 1) as nat);
    }
}

/// Powers of ten multiply by adding exponents.
pub proof fn lemma_pow10_add(a: nat, b: nat)
    ensures
        pow10(a) * pow10(b) == pow10(a + b),
    decreases b,
{
    if b == 0 {
        assert(pow10(a) * 1 == pow10(a)) by (nonlinear_arith);
    } else {
        lemma_pow10_add(a, (b - 1) as nat);
        assert(pow10(b) == 10 * pow10((b - 1) as nat));
        assert(pow10(a + b) == 10 * pow10((a + b - 1) as nat));
        assert(pow10(a) * (10 * pow10((b - 1) as nat)) == 10 * (pow10(a) * pow10((b - 1) as nat)))
            by (nonlinear_arith);
    }
}

/// Searching from a later start inside a suffix finds the same position,
/// shifted.
pub proof fn lemma_find_byte_shift(s: Seq<u8>, c: u8, start: int, i: int)
    requires
        0 <= start <= i <= s.len(),
    ensures
        find_byte(s, c, i) - start == find_byte(s.subrange(start, s.len() as int), c, i - start),
    decreases s.len() - i,
{
    let t = s.subrange(start, s.len() as int);
    if i >= s.len() {
        assert(find_byte(t, c, i - start) == t.len());
    } else if s[i] == c {
        assert(t[i - start] == c);
    } else {
        assert(t[i - start] != c);
        lemma_find_byte_shift(s, c, start, i + 1);
    }
}

/// A search never lands before its start nor past the end.
pub proof fn lemma_find_byte_ge(s: Seq<u8>, c: u8, i: int)
    requires
        0 <= i <= s.len(),
    ensures
        i <= find_byte(s, c, i) <= s.len(),
    decreases s.len() - i,
{
    if i < s.len() && s[i] != c {
        lemma_find_byte_ge(s, c, i + 1);
    }
}

/// A non-digit inside a prefix refutes the whole string being digits.
pub proof fn lemma_all_digits_prefix(s: Seq<u8>, k: int)
    requires
        0 <= k <= s.len(),
        !all_digits(s.subrange(0, k)),
    ensures
        !all_digits(s),
{
    let p = s.subrange(0, k);
    let i = choose|i: int| 0 <= i < p.len() && !is_digit(#[trigger] p[i]);
    assert(0 <= i < p.len() && !is_digit(p[i]));
    assert(s[i] == p[i]);
}

/// A non-digit inside a suffix refutes the whole string being digits.
pub proof fn lemma_all_digits_suffix(s: Seq<u8>, k: int)
    requires
        0 <= k <= s.len(),
        !all_digits(s.subrange(k, s.len() as int)),
    ensures
        !all_digits(s),
{
    let p = s.subrange(k, s.len() as int);
    let i = choose|i: int| 0 <= i < p.len() && !is_digit(#[trigger] p[i]);
    assert(0 <= i < p.len() && !is_digit(p[i]));
    assert(s[k + i] == p[i]);
}

/// Scans for the first occurrence of byte `c` at or after `from`.
pub fn find_byte_from(s: &[u8], c: u8, from: usize) -> (r: usize)
    requires
        from <= s@.len(),
    ensures
        r == find_byte(s@, c, from as int),
        from <= r <= s@.len(),
        r < s@.len() ==> s@[r as int] == c,
{
    let n: usize = s.len();
    let mut j: usize = from;
    while j < n
        invariant
            from <= j <= n,
            n == s@.len(),
            find_byte(s@, c, from as int) == find_byte(s@, c, j as int),
        decreases n - j,
    {
        if s[j] == c {
            return j;
        }
        j = j + 1;
    }
    j
}

/// First non-blank position at or after `from`.
pub fn skip_ws_from(s: &[u8], from: usize) -> (r: usize)
    requires
        from <= s@.len(),
    ensures
        r == skip_ws(s@, from as int),
        from <= r <= s@.len(),
        r < s@.len() ==> !is_ws(s@[r as int]),
{
    let n: usize = s.len();
    let mut j: usize = from;
    while j < n
        invariant
            from <= j <= n,
            n == s@.len(),
            skip_ws(s@, from as int) == skip_ws(s@, j as int),
        decreases n - j,
    {
        if !(s[j] == 32 || s[j] == 9 || s[j] == 13) {
            return j;
        }
        j = j + 1;
    }
    j
}

/// End of the token starting at `from`.
pub fn token_end_from(s: &[u8], from: usize) -> (r: usize)
    requires
        from <= s@.len(),
    ensures
        r == token_end(s@, from as int),
        from <= r <= s@.len(),
{
    let n: usize = s.len();
    let mut j: usize = from;
    while j < n
        invariant
            from <= j <= n,
            n == s@.len(),
            token_end(s@, from as int) == token_end(s@, j as int),
        decreases n - j,
    {
        if s[j] == 32 || s[j] == 9 || s[j] == 13 {
            return j;
        }
        j = j + 1;
    }
    j
}

/// Reads the digit string `s[start..end]` left to right, capping the
/// result at `cap + 1`; reports `None` at the first non-digit.
fn digits_val_capped(s: &[u8], start: usize, end: usize, cap: i64) -> (r: Option<i64>)
    requires
        start <= end <= s@.len(),
        1 <= cap <= MAX_INDEX,
    ensures
        match r {
            Some(v) => {
                &&& all_digits(s@.subrange(start as int, end as int))
                &&& if digits_val(s@.subrange(start as int, end as int)) <= cap {
                    v == digits_val(s@.subrange(start as int, end as int))
                } else {
                    v == cap + 1
                }
                &&& 0 <= v <= cap + 1
            },
            None => !all_digits(s@.subrange(start as int, end as int)),
        },
{
    let ghost whole: Seq<u8> = s@.subrange(start as int, end as int);
    let mut val: i64 = 0;
    let mut j: usize = start;
    while j < end
        invariant
            start <= j <= end <= s@.len(),
            1 <= cap <= MAX_INDEX,
            whole == s@.subrange(start as int, end as int),
            all_digits(s@.subrange(start as int, j as int)),
            0 <= val <= cap + 1,
            if digits_val(s@.subrange(start as int, j as int)) <= cap {
                val == digits_val(s@.subrange(start as int, j as int))
            } else {
                val == cap + 1
            },
        decreases end - j,
    {
        let c: u8 = s[j];
        let ghost pref: Seq<u8> = s@.subrange(start as int, j as int);
        let ghost pref1: Seq<u8> = s@.subrange(start as int, j + 1);
        if !(48 <= c && c <= 57) {
            proof {
                assert(whole[j - start] == c);
                assert(!is_digit(whole[j - start]));
            }
            return None;
        }
        proof {
            assert(pref1.drop_last() =~= pref);
            assert(pref1.last() == c);
            assert(all_digits(pref1)) by {
                assert(forall|i: int| 0 <= i < pref.len() ==> pref1[i] == #[trigger] pref[i]);
                assert(pref1[pref1.len() - 1] == c);
            }
            lemma_digits_val_nonneg(pref);
            assert(digits_val(pref1) == digits_val(pref) * 10 + (c - 48));
        }
        let d: i64 = (c - 48) as i64;
        if val > cap {
            proof {
                assert(digits_val(pref) > cap);
                assert(digits_val(pref) * 10 >= digits_val(pref)) by (nonlinear_arith)
                    requires
                        digits_val(pref) >= 0,
                ;
                assert(digits_val(pref1) > cap);
            }
        } else {
            val = val * 10 + d;
            if val > cap {
                val = cap + 1;
                proof {
                    assert(digits_val(pref1) > cap);
                }
            }
        }
        j = j + 1;
    }
    proof {
        assert(s@.subrange(start as int, j as int) =~= whole);
    }
    Some(val)
}

/// Parses one decimal coordinate token into fixed-point units, exactly as
/// the grammar values it.
#[verifier::rlimit(80)]
pub fn parse_decimal(tok: &[u8]) -> (r: Option<i64>)
    ensures
        r == spec_parse_decimal(tok@),
        match r {
            Some(v) => -MAX_COORD <= v <= MAX_COORD,
            None => true,
        },
{
    let n: usize = tok.len();
    let mut start: usize = 0;
    let mut neg: bool = false;
    if n > 0 && (tok[0] == 45 || tok[0] == 43) {
        neg = tok[0] == 45;
        start = 1;
    }
    let ghost body: Seq<u8> = if tok@.len() > 0 && (tok@[0] == 45 || tok@[0] == 43) {
        tok@.subrange(1, tok@.len() as int)
    } else {
        tok@
    };
    proof {
        assert(body =~= tok@.subrange(start as int, n as int));
    }
    let dp: usize = find_byte_from(tok, 46, start);
    let ghost dpb: int = dp - start;
    let ghost ipart: Seq<u8> = body.subrange(0, dpb);
    let ghost fpart: Seq<u8> = if dpb == body.len() {
        Seq::<u8>::empty()
    } else {
        body.subrange(dpb + 1, body.len() as int)
    };
    proof {
        lemma_find_byte_shift(tok@, 46, start as int, start as int);
        assert(dpb == find_byte(body, 46, 0));
        assert(ipart =~= tok@.subrange(start as int, dp as int));
        if dpb < body.len() {
            assert(fpart =~= tok@.subrange(dp + 1, n as int));
        }
    }
    let iv: i64 = match digits_val_capped(tok, start, dp, 1000) {
        None => {
            proof {
                assert(!all_digits(ipart));
            }
            return None;
        },
        Some(v) => v,
    };
    let mut fval: i64 = 0;
    if dp < n {
        let fstart: usize = dp + 1;
        let flen: usize = n - fstart;
        let fend: usize = if flen > 6 {
            fstart + 6
        } else {
            n
        };
        let ghost fhead: Seq<u8> = fpart.subrange(0, (fend - fstart) as int);
        proof {
            assert(fhead =~= tok@.subrange(fstart as int, fend as int));
        }
        let f6: i64 = match digits_val_capped(tok, fstart, fend, 1_000_000) {
            None => {
                proof {
                    lemma_all_digits_prefix(fpart, (fend - fstart) as int);
                }
                return None;
            },
            Some(v) => v,
        };
        if fend < n {
            match digits_val_capped(tok, fend, n, 1000) {
                None => {
                    proof {
                        assert(tok@.subrange(fend as int, n as int) =~= fpart.subrange(
                            6, fpart.len() as int));
                        lemma_all_digits_suffix(fpart, 6);
                    }
                    return None;
                },
                Some(_) => {
                    proof {
                        assert(tok@.subrange(fend as int, n as int) =~= fpart.subrange(
                            6, fpart.len() as int));
                        assert forall|i: int| 0 <= i < fpart.len() implies is_digit(
                            #[trigger] fpart[i]) by {
                            if i < 6 {
                                assert(fpart[i] == fhead[i]);
                            } else {
                                assert(fpart[i] == fpart.subrange(6, fpart.len() as int)[i - 6]);
                            }
                        }
                        assert(all_digits(fpart));
                    }
                },
            }
        } else {
            proof {
                assert(fhead =~= fpart);
            }
        }
        proof {
            lemma_digits_val_upper(fhead);
            lemma_pow10_mono(fhead.len(), 6);
            assert(pow10(6) == 1_000_000) by {
                assert(pow10(0) == 1);
                assert(pow10(1) == 10);
                assert(pow10(2) == 100);
                assert(pow10(3) == 1000);
                assert(pow10(4) == 10000);
                assert(pow10(5) == 100000);
                assert(pow10(6) == 1000000);
            }
            assert(digits_val(fhead) < 1_000_000);
            assert(f6 == digits_val(fhead));
        }
        fval = f6;
        let pad: usize = if flen > 6 {
            0
        } else {
            6 - flen
        };
        let ghost fhlen: nat = fhead.len();
        proof {
            assert(f6 * pow10(0) == f6) by (nonlinear_arith)
                requires
                    pow10(0) == 1,
            ;
        }
        let mut p: usize = 0;
        while p < pad
            invariant
                p <= pad <= 6,
                0 <= f6,
                f6 < pow10(fhlen),
                pad == 0 || pad + fhlen == 6,
                fval == f6 * pow10(p as nat),
                0 <= fval < 1_000_000,
            decreases pad - p,
        {
            proof {
                lemma_pow10_pos(p as nat);
                assert(pow10((p + 1) as nat) == 10 * pow10(p as nat));
                assert(f6 * pow10((p + 1) as nat) == (f6 * pow10(p as nat)) * 10) by (nonlinear_arith)
                    requires
                        pow10((p + 1) as nat) == 10 * pow10(p as nat),
                ;
                lemma_pow10_pos((p + 1) as nat);
                assert(f6 * pow10((p + 1) as nat) < pow10(fhlen) * pow10((p + 1) as nat))
                    by (nonlinear_arith)
                    requires
                        0 <= f6 < pow10(fhlen),
                        pow10((p + 1) as nat) >= 1,
                ;
                lemma_pow10_add(fhlen, (p + 1) as nat);
                lemma_pow10_mono((fhlen + p + 1) as nat, 6);
                assert(pow10(6) == 1_000_000) by {
                    assert(pow10(0) == 1);
                    assert(pow10(1) == 10);
                    assert(pow10(2) == 100);
                    assert(pow10(3) == 1000);
                    assert(pow10(4) == 10000);
                    assert(pow10(5) == 100000);
                    assert(pow10(6) == 1000000);
                }
            }
            fval = fval * 10;
            p = p + 1;
        }
        proof {
            if flen > 6 {
                assert(fpart.len() >= 6);
                assert(frac6_val(fpart) == digits_val(fpart.subrange(0, 6)));
                assert(fhead =~= fpart.subrange(0, 6));
                assert(fval == f6 * pow10(0));
                assert(f6 * 1 == f6) by (nonlinear_arith);
            } else {
                assert(fpart.len() < 6 || fpart.len() == 6);
                if fpart.len() == 6 {
                    assert(fhead =~= fpart.subrange(0, 6));
                    assert(pad == 0);
                    assert(f6 * 1 == f6) by (nonlinear_arith);
                } else {
                    assert(frac6_val(fpart) == digits_val(fpart) * pow10((6 - fpart.len()) as nat));
                    assert(fhead =~= fpart);
                    assert(pad == 6 - fpart.len());
                }
            }
            assert(fval == frac6_val(fpart));
        }
    } else {
        proof {
            assert(fpart.len() == 0);
            assert(frac6_val(fpart) == 0 * pow10(6));
            assert(0 * pow10(6) == 0) by (nonlinear_arith);
        }
    }
    proof {
        lemma_digits_val_nonneg(ipart);
        if fpart.len() > 0 {
            lemma_digits_val_nonneg(fpart);
        }
    }
    if start == dp && (dp == n || dp + 1 == n) {
        proof {
            assert(ipart.len() == 0);
            assert(fpart.len() == 0);
            assert(spec_parse_decimal(tok@) is None);
        }
        return None;
    }
    let ghost sval: int = digits_val(ipart) * (SCALE as int) + frac6_val(fpart);
    proof {
        assert(fval >= 0);
        if fpart.len() >= 6 {
            assert(all_digits(fpart.subrange(0, 6))) by {
                assert(forall|i: int| 0 <= i < 6 ==> fpart.subrange(0, 6)[i] == #[trigger] fpart[i]);
            }
            lemma_digits_val_nonneg(fpart.subrange(0, 6));
        }
        if fpart.len() < 6 && fpart.len() > 0 {
            lemma_pow10_pos((6 - fpart.len()) as nat);
        }
        assert(frac6_val(fpart) >= 0) by {
            if fpart.len() < 6 {
                lemma_digits_val_nonneg(fpart);
                lemma_pow10_pos((6 - fpart.len()) as nat);
                assert(digits_val(fpart) * pow10((6 - fpart.len()) as nat) >= 0) by (nonlinear_arith)
                    requires
                        digits_val(fpart) >= 0,
                        pow10((6 - fpart.len()) as nat) >= 1,
                ;
            }
        }
    }
    if iv > 1000 {
        proof {
            assert(digits_val(ipart) > 1000);
            assert(digits_val(ipart) * (SCALE as int) > 1000 * (SCALE as int)) by (nonlinear_arith)
                requires
                    digits_val(ipart) > 1000,
                    SCALE as int > 0,
            ;
            assert(sval > MAX_COORD);
        }
        return None;
    }
    proof {
        assert(iv == digits_val(ipart));
    }
    let total: i64 = iv * 1_000_000 + fval;
    proof {
        assert(total == sval);
    }
    if total > MAX_COORD {
        return None;
    }
    proof {
        assert(spec_parse_decimal(tok@) == Some((if tok@.len() > 0 && tok@[0] == 45 {
            (-1) * sval
        } else {
            1 * sval
        }) as i64));
        assert((-1) * sval == -sval) by (nonlinear_arith);
        assert(1 * sval == sval) by (nonlinear_arith);
    }
    if neg {
        Some(-total)
    } else {
        Some(total)
    }
}

/// Parses one face corner token `a/b/c` into 0-based indices, exactly as
/// the grammar values it.
pub fn parse_corner(tok: &[u8]) -> (r: Option<(usize, usize, usize)>)
    ensures
        r == spec_parse_corner(tok@),
{
    let n: usize = tok.len();
    let p1: usize = find_byte_from(tok, 47, 0);
    if p1 == n {
        return None;
    }
    let p2: usize = find_byte_from(tok, 47, p1 + 1);
    proof {
        assert(find_byte(tok@, 47, p1 + 1) == find_byte(tok@, 47, (p1 + 1) as int));
    }
    if p2 == n {
        return None;
    }
    let ghost g1: Seq<u8> = tok@.subrange(0, p1 as int);
    let ghost g2: Seq<u8> = tok@.subrange(p1 + 1, p2 as int);
    let ghost g3: Seq<u8> = tok@.subrange(p2 + 1, n as int);
    if p1 == 0 || p2 == p1 + 1 || p2 + 1 == n {
        proof {
            assert(g1.len() == 0 || g2.len() == 0 || g3.len() == 0);
        }
        return None;
    }
    let v1: i64 = match digits_val_capped(tok, 0, p1, MAX_INDEX) {
        None => {
            return None;
        },
        Some(v) => v,
    };
    let v2: i64 = match digits_val_capped(tok, p1 + 1, p2, MAX_INDEX) {
        None => {
            return None;
        },
        Some(v) => v,
    };
    let v3: i64 = match digits_val_capped(tok, p2 + 1, n, MAX_INDEX) {
        None => {
            return None;
        },
        Some(v) => v,
    };
    proof {
        if digits_val(g1) > MAX_INDEX {
            assert(v1 == MAX_INDEX + 1);
        }
        if digits_val(g2) > MAX_INDEX {
            assert(v2 == MAX_INDEX + 1);
        }
        if digits_val(g3) > MAX_INDEX {
            assert(v3 == MAX_INDEX + 1);
        }
    }
    if v1 < 1 || v1 > MAX_INDEX || v2 < 1 || v2 > MAX_INDEX || v3 < 1 || v3 > MAX_INDEX {
        return None;
    }
    Some((((v1 - 1) as usize), ((v2 - 1) as usize), ((v3 - 1) as usize)))
}

} // verus!
