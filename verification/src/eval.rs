//! The evaluation annotation scanner: a hand-written scanner over the fixed
//! `[%eval <number>]` / `[%eval #<sign><digits>]` grammar found in move
//! commentary.  Mate markers map to the saturating extremes; a numeric
//! literal is handed on as its exact digit strings.

use vstd::prelude::*;

verus! {

/// A raw evaluation score as parsed from a comment.  A mate marker stands
/// for the corresponding infinity; a numeric literal keeps its sign and its
/// exact integer and fraction digit strings.
#[derive(PartialEq, Eq, Debug)]
pub enum RawEval {
    /// `#` with no minus sign: forced mate for white, positive infinity.
    MateWhite,
    /// `#-`: forced mate for black, negative infinity.
    MateBlack,
    /// A decimal literal: its sign and its raw ASCII digit strings before
    /// and after the decimal point.
    Numeric { negative: bool, int_digits: Vec<u8>, frac_digits: Vec<u8> },
}

/// Whether `b` is an ASCII decimal digit.
pub open spec fn is_digit(b: u8) -> bool {
    48 <= b <= 57
}

/// The index of the first non-digit at or after `from`.
pub open spec fn digits_end(t: Seq<u8>, from: int) -> int
    decreases t.len() - from,
{
    if from < 0 || from >= t.len() || !is_digit(t[from]) {
        from
    } else {
        digits_end(t, from + 1)
    }
}

/// The literal `[%eval ` that opens an evaluation annotation.
pub open spec fn eval_tag() -> Seq<u8> {
    seq![91u8, 37u8, 101u8, 118u8, 97u8, 108u8, 32u8]
}

/// Whether `s` starts with `p`.
pub open spec fn starts_with(s: Seq<u8>, p: Seq<u8>) -> bool {
    s.len() >= p.len() && s.subrange(0, p.len() as int) == p
}

/// What a numeric evaluation literal at the start of `t` parses to: its
/// sign and its digit strings; `None` when no digit follows the sign, or
/// when an exponent marker follows the literal — the scanner reads plain
/// decimals only and refuses an exponent rather than misread it.  Any other
/// character ends the literal and is ignored.
pub open spec fn number_parse(t: Seq<u8>) -> Option<(bool, Seq<u8>, Seq<u8>)> {
    if t.len() == 0 {
        None
    } else {
        let sign_len: int = if t[0] == 45 || t[0] == 43 {
            1int
        } else {
            0int
        };
        let d1 = digits_end(t, sign_len);
        if d1 == sign_len {
            None
        } else {
            let f1 = if d1 < t.len() && t[d1] == 46 {
                digits_end(t, d1 + 1)
            } else {
                d1
            };
            if f1 < t.len() && (t[f1] == 101 || t[f1] == 69) {
                None
            } else {
                let frac = if d1 < t.len() && t[d1] == 46 {
                    t.subrange(d1 + 1, f1)
                } else {
                    Seq::<u8>::empty()
                };
                Some((t[0] == 45, t.subrange(sign_len, d1), frac))
            }
        }
    }
}

/// What an evaluation annotation at the start of `s` parses to: `None` when
/// `s` does not open with the `[%eval ` tag or the number is malformed;
/// otherwise a mate flag with its sign, or a numeric literal's sign and
/// digit strings.
pub open spec fn eval_parse(s: Seq<u8>) -> Option<(bool, bool, Seq<u8>, Seq<u8>)> {
    if !starts_with(s, eval_tag()) {
        None
    } else {
        let t = s.skip(7);
        if t.len() == 0 {
            None
        } else if t[0] == 35 {
            Some((true, t.len() >= 2 && t[1] == 45, Seq::empty(), Seq::empty()))
        } else {
            match number_parse(t) {
                Some((neg, ints, fracs)) => Some((false, neg, ints, fracs)),
                None => None,
            }
        }
    }
}

/// Whether the result `r` is exactly what the grammar says `s` parses to.
pub open spec fn eval_result_matches(s: Seq<u8>, r: Option<RawEval>) -> bool {
    match eval_parse(s) {
        None => r is None,
        Some((mate, neg, ints, fracs)) => match r {
            Some(RawEval::MateWhite) => mate && !neg,
            Some(RawEval::MateBlack) => mate && neg,
            Some(
                RawEval::Numeric { negative, int_digits, frac_digits },
            ) => !mate && negative == neg && int_digits@ == ints && frac_digits@ == fracs,
            None => false,
        },
    }
}

/// Find the end of the digit run starting at `from`.
fn scan_digits(t: &[u8], from: usize) -> (r: usize)
    requires
        from <= t@.len(),
    ensures
        r == digits_end(t@, from as int),
        from <= r <= t@.len(),
{
    let mut i: usize = from;
    while i < t.len() && 48 <= t[i] && t[i] <= 57
        invariant
            from <= i <= t@.len(),
            digits_end(t@, from as int) == digits_end(t@, i as int),
        decreases t@.len() - i,
    {
        i = i + 1;
    }
    i
}

/// Copy `t[from..to]` out.
fn copy_range(t: &[u8], from: usize, to: usize) -> (r: Vec<u8>)
    requires
        from <= to <= t@.len(),
    ensures
        r@ == t@.subrange(from as int, to as int),
{
    let mut r: Vec<u8> = Vec::new();
    let mut i: usize = from;
    while i < to
        invariant
            from <= i <= to <= t@.len(),
            r@ =~= t@.subrange(from as int, i as int),
        decreases to - i,
    {
        r.push(t[i]);
        i = i + 1;
        proof {
            assert(r@ =~= t@.subrange(from as int, i as int));
        }
    }
    proof {
        assert(r@ =~= t@.subrange(from as int, to as int));
    }
    r
}

/// Parse the mate form of an annotation body: a `#`, an optional minus for
/// a mate by black, and then digits that do not matter.
pub fn parse_checkmate(t: &[u8]) -> (r: Option<RawEval>)
    ensures
        match r {
            Some(RawEval::MateBlack) => t@.len() >= 2 && t@[0] == 35 && t@[1] == 45,
            Some(RawEval::MateWhite) => t@.len() >= 1 && t@[0] == 35 && !(t@.len() >= 2 && t@[1]
                == 45),
            Some(RawEval::Numeric { .. }) => false,
            None => !(t@.len() >= 1 && t@[0] == 35),
        },
{
    if t.len() == 0 || t[0] != 35 {
        return None;
    }
    if t.len() >= 2 && t[1] == 45 {
        Some(RawEval::MateBlack)
    } else {
        Some(RawEval::MateWhite)
    }
}

/// Parse one evaluation annotation.  `input` starts at the opening bracket;
/// the result is exactly what the grammar gives, and `None` exactly when
/// the text does not open with `[%eval ` or carries a malformed number.
pub fn parse_eval_comment(input: &[u8]) -> (r: Option<RawEval>)
    ensures
        eval_result_matches(input@, r),
{
    if input.len() < 7 {
        proof {
            assert(!starts_with(input@, eval_tag()));
        }
        return None;
    }
    if !(input[0] == 91 && input[1] == 37 && input[2] == 101 && input[3] == 118 && input[4] == 97
        && input[5] == 108 && input[6] == 32) {
        proof {
            if starts_with(input@, eval_tag()) {
                assert(input@.subrange(0, 7)[0] == input@[0]);
                assert(input@.subrange(0, 7)[1] == input@[1]);
                assert(input@.subrange(0, 7)[2] == input@[2]);
                assert(input@.subrange(0, 7)[3] == input@[3]);
                assert(input@.subrange(0, 7)[4] == input@[4]);
                assert(input@.subrange(0, 7)[5] == input@[5]);
                assert(input@.subrange(0, 7)[6] == input@[6]);
            }
        }
        return None;
    }
    proof {
        assert(input@.subrange(0, 7) =~= eval_tag());
    }
    let ghost t = input@.skip(7);
    if input.len() == 7 {
        return None;
    }
    if input[7] == 35 {
        let r = if input.len() >= 9 && input[8] == 45 {
            Some(RawEval::MateBlack)
        } else {
            Some(RawEval::MateWhite)
        };
        proof {
            assert(t[0] == 35);
            if input@.len() >= 9 {
                assert(t[1] == input@[8]);
            }
        }
        return r;
    }
    // A numeric literal: optional sign, digits, optional point and digits.
    let sign_len: usize = if input[7] == 45 || input[7] == 43 {
        1
    } else {
        0
    };
    proof {
        assert(t[0] == input@[7]);
        assert forall|k: int| 0 <= k < t.len() implies t[k] == input@[k + 7] by {}
    }
    let d0: usize = 7 + sign_len;
    let d1 = scan_digits(input, d0);
    if d1 == d0 {
        proof {
            lemma_digits_end_shift(input@, d0 as int);
        }
        return None;
    }
    let has_frac = d1 < input.len() && input[d1] == 46;
    let f1: usize = if has_frac {
        scan_digits(input, d1 + 1)
    } else {
        d1
    };
    proof {
        lemma_digits_end_shift(input@, d0 as int);
        if has_frac {
            lemma_digits_end_shift(input@, d1 + 1);
        }
    }
    if f1 < input.len() && (input[f1] == 101 || input[f1] == 69) {
        proof {
            assert(t[f1 - 7] == input@[f1 as int]);
        }
        return None;
    }
    let ints = copy_range(input, d0, d1);
    let fracs: Vec<u8> = if has_frac {
        copy_range(input, d1 + 1, f1)
    } else {
        Vec::new()
    };
    let r = Some(
        RawEval::Numeric { negative: input[7] == 45, int_digits: ints, frac_digits: fracs },
    );
    proof {
        if f1 < input@.len() {
            assert(t[f1 - 7] == input@[f1 as int]);
        }
        if has_frac {
            assert(input@.subrange(d1 + 1, f1 as int) =~= t.subrange(d1 - 7 + 1, f1 - 7));
        }
        assert(input@.subrange(d0 as int, d1 as int) =~= t.subrange(d0 - 7, d1 - 7));
    }
    r
}

/// Digit runs do not care where the slice begins: the run found in the
/// whole input is the run found in its tail, shifted.
proof fn lemma_digits_end_shift(s: Seq<u8>, from: int)
    requires
        7 <= from <= s.len(),
    ensures
        digits_end(s, from) - 7 == digits_end(s.skip(7), from - 7),
    decreases s.len() - from,
{
    let t = s.skip(7);
    if from < s.len() && is_digit(s[from]) {
        assert(t[from - 7] == s[from]);
        lemma_digits_end_shift(s, from + 1);
    } else {
        if from < s.len() {
            assert(t[from - 7] == s[from]);
        }
    }
}

/// Whether byte `i` is the first opening bracket of the comment.
pub open spec fn first_bracket_at(c: Seq<u8>, i: int) -> bool {
    &&& 0 <= i < c.len()
    &&& c[i] == 91
    &&& forall|j: int| 0 <= j < i ==> c[j] != 91
}

/// A comment has at most one first bracket.
pub proof fn lemma_first_bracket_unique(c: Seq<u8>, i: int, j: int)
    requires
        first_bracket_at(c, i),
        first_bracket_at(c, j),
    ensures
        i == j,
{
    if i < j {
        assert(c[i] == 91);
    } else if j < i {
        assert(c[j] == 91);
    }
}

/// Find the first opening bracket of a comment: `Some(i)` exactly when
/// byte `i` is the first `[`, `None` when the comment has none.
pub fn find_first_bracket(c: &[u8]) -> (r: Option<usize>)
    ensures
        match r {
            Some(i) => first_bracket_at(c@, i as int),
            None => forall|j: int| 0 <= j < c@.len() ==> c@[j] != 91,
        },
{
    let mut i: usize = 0;
    while i < c.len()
        invariant
            i <= c@.len(),
            forall|j: int| 0 <= j < i ==> c@[j] != 91,
        decreases c@.len() - i,
    {
        if c[i] == 91 {
            return Some(i);
        }
        i = i + 1;
    }
    None
}

} // verus!
