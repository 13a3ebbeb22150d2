use vstd::prelude::*;

verus! {

/// Integer division rounding toward zero, as Rust's `/` on signed integers.
pub open spec fn div_toward_zero(a: int, b: int) -> int {
    if a >= 0 {
        if b > 0 { a / b } else { -(a / (-b)) }
    } else {
        if b > 0 { -((-a) / b) } else { (-a) / (-b) }
    }
}

/// The right channel's share of the total volume, in percent, rounded
/// toward zero; `0` when both channels are silent.
pub open spec fn balance_of(left: int, right: int) -> int {
    if left == 0 && right == 0 {
        0
    } else {
        div_toward_zero(right * 100, left + right)
    }
}

/// Dividing by a negative number negates the quotient of the division by
/// its absolute value, for a non-negative dividend.
proof fn lemma_div_negated_divisor(a: int, b: int)
    requires
        a >= 0,
        b < 0,
    ensures
        a / b == -(a / (-b)),
{
    assert(a / b == -(a / (-b))) by (nonlinear_arith)
        requires
            a >= 0,
            b < 0,
    ;
}

/// The inputs on which the balance can be computed: the sum and the scaled
/// right channel fit in an `i64`, the sum is not zero unless both are, and the
/// percentage fits in a `u8`.
pub open spec fn balance_defined(left: i64, right: i64) -> bool {
    left == 0 && right == 0 || {
        &&& i64::MIN <= left + right <= i64::MAX
        &&& i64::MIN <= right * 100 <= i64::MAX
        &&& left + right != 0
        &&& 0 <= balance_of(left as int, right as int) <= 255
    }
}

/// Whether the balance can be computed for these volumes.
pub fn can_compute_balance(left: i64, right: i64) -> (r: bool)
    ensures
        r == balance_defined(left, right),
{
    if left == 0 && right == 0 {
        return true;
    }
    let sum: i128 = left as i128 + right as i128;
    let num: i128 = right as i128 * 100;
    if sum < i64::MIN as i128 || sum > i64::MAX as i128 || num < i64::MIN as i128 || num > i64::MAX as i128
        || sum == 0 {
        return false;
    }
    let q: i64 = (num as i64) / (sum as i64);
    proof {
        let n = num as i64;
        let d = sum as i64;
        if d < 0 {
            if n >= 0 {
                lemma_div_negated_divisor(n as int, d as int);
            } else {
                lemma_div_negated_divisor(-(n as int), d as int);
            }
        }
    }
    0 <= q && q <= 255
}

/// The balance shown on the balance slider.
pub fn balance_percent(left: i64, right: i64) -> (r: u8)
    requires
        balance_defined(left, right),
    ensures
        r as int == balance_of(left as int, right as int),
{
    if left == 0 && right == 0 {
        return 0;
    }
    let num: i64 = right * 100;
    let den: i64 = left + right;
    let q: i64 = num / den;
    proof {
        if den < 0 {
            if num >= 0 {
                lemma_div_negated_divisor(num as int, den as int);
            } else {
                lemma_div_negated_divisor(-(num as int), den as int);
            }
        }
    }
    q as u8
}

/// The inputs on which a balance can be applied: the total volume and the
/// total scaled by the requested percentage fit in an `i64`.
pub open spec fn split_defined(left: i64, right: i64, balance: u8) -> bool {
    &&& i64::MIN <= left + right <= i64::MAX
    &&& i64::MIN <= (left + right) * balance <= i64::MAX
}

/// Whether a balance can be applied to these volumes.
pub fn can_split(left: i64, right: i64, balance: u8) -> (r: bool)
    ensures
        r == split_defined(left, right, balance),
{
    let sum: i128 = left as i128 + right as i128;
    if sum < i64::MIN as i128 || sum > i64::MAX as i128 {
        return false;
    }
    assert(-0x1_0000_0000_0000_0000_0000 <= sum * balance <= 0x1_0000_0000_0000_0000_0000) by (nonlinear_arith)
        requires
            i64::MIN <= sum <= i64::MAX,
            0 <= balance <= 255,
    ;
    let scaled: i128 = sum * balance as i128;
    scaled >= i64::MIN as i128 && scaled <= i64::MAX as i128
}

/// The right channel after moving the balance to `balance` percent: that
/// share of the total, rounded toward zero.
pub open spec fn split_right(left: int, right: int, balance: int) -> int {
    div_toward_zero((left + right) * balance, 100)
}

/// Redistributes the total volume of both channels so that the right
/// channel gets `balance` percent of it and the left channel the rest.
/// Returns the new `(left, right)` volumes.
pub fn balance_split(left: i64, right: i64, balance: u8) -> (r: (i64, i64))
    requires
        split_defined(left, right, balance),
    ensures
        r.1 == split_right(left as int, right as int, balance as int),
        r.0 == (left + right) - r.1,
        r.0 + r.1 == left + right,
{
    let total: i64 = left + right;
    let scaled: i64 = total * (balance as i64);
    let new_right: i64 = scaled / 100;
    proof {
        if scaled < 0 {
            assert(0 <= (-(scaled as int)) / 100 <= -(scaled as int)) by (nonlinear_arith)
                requires
                    scaled < 0,
            ;
        } else {
            assert(0 <= (scaled as int) / 100 <= scaled as int) by (nonlinear_arith)
                requires
                    scaled >= 0,
            ;
        }
        lemma_split_bounds(total as int, balance as int);
    }
    let new_left: i64 = total - new_right;
    (new_left, new_right)
}

/// The right share of a split is no further from zero than 2.55 times the
/// total, so the left share `total - right` stays within the range of the
/// scaled total.
proof fn lemma_split_bounds(total: int, balance: int)
    requires
        0 <= balance <= 255,
        i64::MIN <= total * balance <= i64::MAX,
        i64::MIN <= total <= i64::MAX,
    ensures
        i64::MIN <= total - div_toward_zero(total * balance, 100) <= i64::MAX,
{
    let s = total * balance;
    if total >= 0 {
        assert(s >= 0) by (nonlinear_arith)
            requires
                total >= 0,
                balance >= 0,
                s == total * balance,
        ;
        assert(0 <= s / 100 <= s) by (nonlinear_arith)
            requires
                s >= 0,
        ;
    } else {
        assert(s <= 0) by (nonlinear_arith)
            requires
                total < 0,
                balance >= 0,
                s == total * balance,
        ;
        assert(0 <= (-s) / 100 <= -s) by (nonlinear_arith)
            requires
                s <= 0,
        ;
    }
}

/// With a positive total and a percentage of at most one hundred, both
/// channels stay non-negative, and the balance read back afterwards never
/// exceeds the requested one; it is the requested one exactly when the total
/// scaled by it is a multiple of one hundred.
pub proof fn lemma_split_reads_back(left: i64, right: i64, balance: u8)
    requires
        split_defined(left, right, balance),
        left + right > 0,
        balance <= 100,
    ensures
        0 <= split_right(left as int, right as int, balance as int) <= left + right,
        balance_of(
            left + right - split_right(left as int, right as int, balance as int),
            split_right(left as int, right as int, balance as int),
        ) <= balance,
        ((left + right) * balance) % 100 == 0 ==> balance_of(
            left + right - split_right(left as int, right as int, balance as int),
            split_right(left as int, right as int, balance as int),
        ) == balance,
{
    let t = left + right;
    let b = balance as int;
    let r = split_right(left as int, right as int, b);
    assert(r == (t * b) / 100);
    assert(0 <= r <= t && 100 * r <= t * b) by (nonlinear_arith)
        requires
            t > 0,
            0 <= b <= 100,
            r == (t * b) / 100,
    ;
    let l = t - r;
    if l == 0 && r == 0 {
    } else {
        assert(l + r == t);
        assert((r * 100) / t <= b) by (nonlinear_arith)
            requires
                t > 0,
                r >= 0,
                100 * r <= t * b,
        ;
        if (t * b) % 100 == 0 {
            assert((r * 100) / t == b) by (nonlinear_arith)
                requires
                    t > 0,
                    r == (t * b) / 100,
                    (t * b) % 100 == 0,
            ;
        }
    }
}

} // verus!
