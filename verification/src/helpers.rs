//! Parsing the textual vertex name `"<offset>-<cardinality>"` into the id
//! pair, exactly: the parse succeeds on precisely the strings of the shape
//! digits, one dash, digits, with both numbers fitting `usize`.

use vstd::prelude::*;
use vstd::string::StringSliceAdditionalSpecFns;
use crate::error::FFIError;

verus! {

/// An ASCII decimal digit, as a utf8 byte.
pub open spec fn is_digit_byte(b: u8) -> bool {
    48 <= b <= 57
}

/// Every byte is a decimal digit.
pub open spec fn all_digit_bytes(s: Seq<u8>) -> bool {
    forall|i: int| 0 <= i < s.len() ==> is_digit_byte(#[trigger] s[i])
}

/// The number a sequence of decimal digits denotes.
pub open spec fn digits_value(s: Seq<u8>) -> int
    decreases s.len(),
{
    if s.len() == 0 {
        0
    } else {
        digits_value(s.drop_last()) * 10 + (s.last() - 48)
    }
}

/// The bytes have the shape `digits '-' digits` with the dash at `dash` and
/// both digit runs non-empty.
pub open spec fn name_shape_at(s: Seq<u8>, dash: int) -> bool {
    &&& 1 <= dash < s.len() - 1
    &&& s[dash] == 45
    &&& all_digit_bytes(s.subrange(0, dash))
    &&& all_digit_bytes(s.subrange(dash + 1, s.len() as int))
}

/// A well-shaped name whose two numbers fit `usize`.
pub open spec fn parses_to(s: Seq<u8>, offset: int, cardinality: int) -> bool {
    exists|dash: int|
        #[trigger] name_shape_at(s, dash) && offset == digits_value(s.subrange(0, dash))
            && cardinality == digits_value(s.subrange(dash + 1, s.len() as int)) && offset
            <= usize::MAX && cardinality <= usize::MAX
}

/// A digit run denotes a non-negative number.
proof fn lemma_digits_value_nonneg(s: Seq<u8>)
    requires
        all_digit_bytes(s),
    ensures
        digits_value(s) >= 0,
    decreases s.len(),
{
    if s.len() > 0 {
        assert(forall|i: int| 0 <= i < s.len() - 1 ==> s.drop_last()[i] == (#[trigger] s[i]));
        lemma_digits_value_nonneg(s.drop_last());
    }
}

/// Extending a digit run never shrinks its value.
proof fn lemma_digits_value_prefix_le(s: Seq<u8>, i: int)
    requires
        all_digit_bytes(s),
        0 <= i <= s.len(),
    ensures
        digits_value(s.subrange(0, i)) <= digits_value(s),
    decreases s.len() - i,
{
    assert(forall|j: int| 0 <= j < i ==> s.subrange(0, i)[j] == (#[trigger] s[j]));
    lemma_digits_value_nonneg(s.subrange(0, i));
    if i < s.len() {
        let pre = s.subrange(0, i);
        let cur = s.subrange(0, i + 1);
        assert(cur.drop_last() =~= pre);
        assert(cur.last() == s[i]);
        assert(digits_value(cur) == digits_value(pre) * 10 + (s[i] - 48));
        assert(digits_value(pre) * 10 >= digits_value(pre)) by (nonlinear_arith)
            requires
                digits_value(pre) >= 0,
        ;
        lemma_digits_value_prefix_le(s, i + 1);
    } else {
        assert(s.subrange(0, i) =~= s);
    }
}

/// Scan one digit run of `s` from `from` to `to`, accumulating its value;
/// `None` when the value exceeds `usize`.
fn scan_digits(bs: &[u8], from: usize, to: usize) -> (r: Option<usize>)
    requires
        from <= to <= bs@.len(),
        all_digit_bytes(bs@.subrange(from as int, to as int)),
    ensures
        ({
            let run = bs@.subrange(from as int, to as int);
            match r {
                Some(v) => v == digits_value(run),
                None => digits_value(run) > usize::MAX,
            }
        }),
{
    let ghost run = bs@.subrange(from as int, to as int);
    let mut v: usize = 0;
    let mut i: usize = from;
    proof {
        assert(run.subrange(0, 0) =~= Seq::<u8>::empty());
    }
    while i < to
        invariant
            from <= i <= to <= bs@.len(),
            run == bs@.subrange(from as int, to as int),
            all_digit_bytes(run),
            v == digits_value(run.subrange(0, i - from)),
        decreases to - i,
    {
        let b = bs[i];
        proof {
            assert(run[i - from] == b);
            let pre = run.subrange(0, i - from);
            let cur = run.subrange(0, i + 1 - from);
            assert(cur.drop_last() =~= pre);
            assert(cur.last() == b);
        }
        let d = (b - 48) as usize;
        let scaled = match v.checked_mul(10) {
            Some(s) => s,
            None => {
                proof {
                    lemma_digits_value_nonneg(run.subrange(0, i - from));
                    assert(digits_value(run.subrange(0, i + 1 - from)) > usize::MAX);
                    lemma_digits_value_prefix_le(run, i + 1 - from);
                }
                return None;
            },
        };
        let next = match scaled.checked_add(d) {
            Some(s) => s,
            None => {
                proof {
                    assert(digits_value(run.subrange(0, i + 1 - from)) > usize::MAX);
                    lemma_digits_value_prefix_le(run, i + 1 - from);
                }
                return None;
            },
        };
        v = next;
        i = i + 1;
    }
    proof {
        assert(run.subrange(0, to - from) =~= run);
    }
    Some(v)
}

/// Parse a vertex name of the shape `"<offset>-<cardinality>"`.  Succeeds
/// exactly on byte strings of the shape digits, one dash, digits, with both
/// numbers within `usize` range; every other input is an invalid string.
pub fn parse_cluster_name(name: &str) -> (r: Result<(usize, usize), FFIError>)
    ensures
        match r {
            Ok(p) => parses_to(name.spec_bytes(), p.0 as int, p.1 as int),
            Err(e) => {
                &&& e == FFIError::InvalidStringPassed
                &&& forall|a: int, b: int| !parses_to(name.spec_bytes(), a, b)
            },
        },
{
    let bs = name.as_bytes();
    let n = bs.len();
    let ghost s = name.spec_bytes();

    // The dash: the shape admits exactly one candidate position, the first
    // one, since a dash is not a digit.
    let mut dash: usize = 0;
    let mut found = false;
    while dash < n && !found
        invariant
            dash <= n,
            n == s.len(),
            bs@ == s,
            found ==> dash < n && s[dash as int] == 45,
            forall|j: int| 0 <= j < dash ==> s[j] != 45,
        decreases n - dash, (if found { 0int } else { 1int }),
    {
        if bs[dash] == 45 {
            found = true;
        } else {
            dash = dash + 1;
        }
    }
    proof {
        if !found {
            assert forall|a: int, b: int| !parses_to(s, a, b) by {
                if parses_to(s, a, b) {
                    let w = choose|w: int| #[trigger] name_shape_at(s, w) && a == digits_value(
                        s.subrange(0, w),
                    ) && b == digits_value(s.subrange(w + 1, s.len() as int)) && a <= usize::MAX
                        && b <= usize::MAX;
                    assert(s[w] == 45);
                }
            }
        }
    }
    if !found {
        return Err(FFIError::InvalidStringPassed);
    }
    proof {
        // Any shape dash equals the first dash found.
        assert forall|w: int| #[trigger]
            name_shape_at(s, w) implies w == dash as int by {
            if w < dash as int {
                assert(s[w] != 45);
            }
            if w > dash as int {
                assert(s.subrange(0, w)[dash as int] == s[dash as int]);
                assert(is_digit_byte(s.subrange(0, w)[dash as int]));
            }
        }
    }

    if dash == 0 || dash + 1 >= n {
        proof {
            assert forall|a: int, b: int| !parses_to(s, a, b) by {
                if parses_to(s, a, b) {
                    let w = choose|w: int| #[trigger] name_shape_at(s, w) && a == digits_value(
                        s.subrange(0, w),
                    ) && b == digits_value(s.subrange(w + 1, s.len() as int)) && a <= usize::MAX
                        && b <= usize::MAX;
                }
            }
        }
        return Err(FFIError::InvalidStringPassed);
    }

    // Both runs must be digits throughout.
    let mut i: usize = 0;
    while i < dash
        invariant
            i <= dash < n,
            n == s.len(),
            bs@ == s,
            s == name.spec_bytes(),
            forall|w: int| #[trigger] name_shape_at(s, w) ==> w == dash as int,
            forall|j: int| 0 <= j < i ==> is_digit_byte(#[trigger] s[j]),
        decreases dash - i,
    {
        if bs[i] < 48 || bs[i] > 57 {
            proof {
                assert forall|a: int, b: int| !parses_to(s, a, b) by {
                    if parses_to(s, a, b) {
                        let w = choose|w: int| #[trigger] name_shape_at(s, w) && a == digits_value(
                            s.subrange(0, w),
                        ) && b == digits_value(s.subrange(w + 1, s.len() as int)) && a
                            <= usize::MAX && b <= usize::MAX;
                        assert(w == dash as int);
                        assert(s.subrange(0, w)[i as int] == s[i as int]);
                        assert(is_digit_byte(s[i as int]));
                    }
                }
            }
            return Err(FFIError::InvalidStringPassed);
        }
        i = i + 1;
    }
    let mut j: usize = dash + 1;
    while j < n
        invariant
            dash + 1 <= j <= n,
            n == s.len(),
            bs@ == s,
            s == name.spec_bytes(),
            forall|w: int| #[trigger] name_shape_at(s, w) ==> w == dash as int,
            forall|w: int| dash + 1 <= w < j ==> is_digit_byte(#[trigger] s[w]),
        decreases n - j,
    {
        if bs[j] < 48 || bs[j] > 57 {
            proof {
                assert forall|a: int, b: int| !parses_to(s, a, b) by {
                    if parses_to(s, a, b) {
                        let w = choose|w: int| #[trigger] name_shape_at(s, w) && a == digits_value(
                            s.subrange(0, w),
                        ) && b == digits_value(s.subrange(w + 1, s.len() as int)) && a
                            <= usize::MAX && b <= usize::MAX;
                        assert(w == dash as int);
                        assert(s.subrange(w + 1, s.len() as int)[j - dash - 1] == s[j as int]);
                        assert(is_digit_byte(s[j as int]));
                    }
                }
            }
            return Err(FFIError::InvalidStringPassed);
        }
        j = j + 1;
    }
    proof {
        assert(all_digit_bytes(s.subrange(0, dash as int))) by {
            assert(forall|w: int|
                0 <= w < dash ==> s.subrange(0, dash as int)[w] == (#[trigger] s[w]));
        }
        assert(all_digit_bytes(s.subrange(dash + 1, s.len() as int))) by {
            assert(forall|w: int|
                0 <= w < s.len() - dash - 1 ==> s.subrange(dash + 1, s.len() as int)[w] == (
                #[trigger] s[w + dash + 1]));
        }
        assert(name_shape_at(s, dash as int));
    }

    let offset = match scan_digits(bs, 0, dash) {
        Some(v) => v,
        None => {
            proof {
                assert forall|a: int, b: int| !parses_to(s, a, b) by {
                    if parses_to(s, a, b) {
                        let w = choose|w: int| #[trigger] name_shape_at(s, w) && a == digits_value(
                            s.subrange(0, w),
                        ) && b == digits_value(s.subrange(w + 1, s.len() as int)) && a
                            <= usize::MAX && b <= usize::MAX;
                        assert(w == dash as int);
                    }
                }
            }
            return Err(FFIError::InvalidStringPassed);
        },
    };
    let cardinality = match scan_digits(bs, dash + 1, n) {
        Some(v) => v,
        None => {
            proof {
                assert forall|a: int, b: int| !parses_to(s, a, b) by {
                    if parses_to(s, a, b) {
                        let w = choose|w: int| #[trigger] name_shape_at(s, w) && a == digits_value(
                            s.subrange(0, w),
                        ) && b == digits_value(s.subrange(w + 1, s.len() as int)) && a
                            <= usize::MAX && b <= usize::MAX;
                        assert(w == dash as int);
                    }
                }
            }
            return Err(FFIError::InvalidStringPassed);
        },
    };
    Ok((offset, cardinality))
}

} // verus!
