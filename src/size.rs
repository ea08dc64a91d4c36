//! Human-readable sizes: formatting byte counts and reading size arguments.
use vstd::prelude::*;
use vstd::string::StrSliceExecFns;

verus! {

/// Unsigned integers whose value fits a `u64`.
pub trait Int: Sized + Copy {
    spec fn spec_value(&self) -> u64;

    /// The integer with value `val`.
    fn val(val: usize) -> (r: Self)
        requires
            val <= u32::MAX,
        ensures
            r.spec_value() == val,
    ;

    fn to_u64(&self) -> (r: u64)
        ensures
            r == self.spec_value(),
    ;
}

impl Int for usize {
    open spec fn spec_value(&self) -> u64 {
        *self as u64
    }

    fn val(val: usize) -> (r: Self) {
        val
    }

    fn to_u64(&self) -> (r: u64) {
        *self as u64
    }
}

impl Int for u32 {
    open spec fn spec_value(&self) -> u64 {
        *self as u64
    }

    fn val(val: usize) -> (r: Self) {
        val as u32
    }

    fn to_u64(&self) -> (r: u64) {
        *self as u64
    }
}

impl Int for u64 {
    open spec fn spec_value(&self) -> u64 {
        *self
    }

    fn val(val: usize) -> (r: Self) {
        val as u64
    }

    fn to_u64(&self) -> (r: u64) {
        *self
    }
}

/// The decimal digits of `n`, as ASCII.
pub open spec fn decimal(n: nat) -> Seq<u8>
    decreases n,
{
    if n < 10 {
        seq![(48 + n) as u8]
    } else {
        decimal(n / 10) + seq![(48 + n % 10) as u8]
    }
}

/// The text `size_str` gives for a byte count, as ASCII.
pub open spec fn size_text(n: u64) -> Seq<u8> {
    let bytes_close = seq![32u8, 98u8, 121u8, 116u8, 101u8, 115u8, 41u8];
    if n > 1048576 {
        decimal((n / 1048576) as nat) + seq![32u8, 77u8, 105u8, 66u8, 32u8, 40u8] + decimal(n as nat)
            + bytes_close
    } else if n > 1024 {
        decimal((n / 1024) as nat) + seq![32u8, 75u8, 105u8, 66u8, 32u8, 40u8] + decimal(n as nat)
            + bytes_close
    } else {
        decimal(n as nat) + seq![32u8, 98u8, 121u8, 116u8, 101u8, 115u8]
    }
}

fn push_decimal(out: &mut Vec<u8>, n: u64)
    ensures
        final(out)@ == old(out)@ + decimal(n as nat),
    decreases n,
{
    if n >= 10 {
        push_decimal(out, n / 10);
    }
    out.push((48 + n % 10) as u8);
    assert(final(out)@ =~= old(out)@ + decimal(n as nat));
}

proof fn lemma_decimal_ascii(n: nat)
    ensures
        forall|i: int| 0 <= i < decimal(n).len() ==> #[trigger] decimal(n)[i] < 128,
    decreases n,
{
    if n >= 10 {
        lemma_decimal_ascii(n / 10);
        let p = decimal(n / 10);
        assert forall|i: int| 0 <= i < decimal(n).len() implies #[trigger] decimal(n)[i] < 128 by {
            if i < p.len() {
                assert(decimal(n)[i] == p[i]);
            }
        }
    }
}

fn push_all(out: &mut Vec<u8>, b: &[u8])
    ensures
        final(out)@ == old(out)@ + b@,
{
    crate::bytes_util::append_bytes(out, b);
}

/// `n MiB (m bytes)` above one MiB, `n KiB (m bytes)` above one KiB, else
/// `m bytes`.
pub fn size_str<T: Int>(size: T) -> (r: String)
    ensures
        r@ == crate::store::ascii_chars(size_text(size.spec_value())),
{
    let n = size.to_u64();
    let mut out: Vec<u8> = Vec::new();
    let ghost mid: Seq<u8>;
    if n > 1048576 {
        push_decimal(&mut out, n / 1048576);
        let unit: Vec<u8> = vec![32u8, 77u8, 105u8, 66u8, 32u8, 40u8];
        push_all(&mut out, unit.as_slice());
        push_decimal(&mut out, n);
        let close: Vec<u8> = vec![32u8, 98u8, 121u8, 116u8, 101u8, 115u8, 41u8];
        push_all(&mut out, close.as_slice());
    } else if n > 1024 {
        push_decimal(&mut out, n / 1024);
        let unit: Vec<u8> = vec![32u8, 75u8, 105u8, 66u8, 32u8, 40u8];
        push_all(&mut out, unit.as_slice());
        push_decimal(&mut out, n);
        let close: Vec<u8> = vec![32u8, 98u8, 121u8, 116u8, 101u8, 115u8, 41u8];
        push_all(&mut out, close.as_slice());
    } else {
        push_decimal(&mut out, n);
        let unit: Vec<u8> = vec![32u8, 98u8, 121u8, 116u8, 101u8, 115u8];
        push_all(&mut out, unit.as_slice());
    }
    assert(out@ =~= size_text(n));
    proof {
        lemma_decimal_ascii(n as nat);
        lemma_decimal_ascii((n / 1024) as nat);
        lemma_decimal_ascii((n / 1048576) as nat);
        assert forall|i: int| 0 <= i < out@.len() implies out@[i] < 128 by {
            let d = decimal(n as nat);
            if n > 1048576 {
                let a = decimal((n / 1048576) as nat);
                if i < a.len() {
                    assert(out@[i] == a[i]);
                } else if a.len() + 6 <= i < a.len() + 6 + d.len() {
                    assert(out@[i] == d[i - a.len() - 6]);
                }
            } else if n > 1024 {
                let a = decimal((n / 1024) as nat);
                if i < a.len() {
                    assert(out@[i] == a[i]);
                } else if a.len() + 6 <= i < a.len() + 6 + d.len() {
                    assert(out@[i] == d[i - a.len() - 6]);
                }
            } else {
                if i < d.len() {
                    assert(out@[i] == d[i]);
                }
            }
        }
    }
    match crate::store::ascii_to_string(out) {
        Some(s) => s,
        None => String::new(),
    }
}

pub open spec fn is_digit(c: char) -> bool {
    '0' <= c && c <= '9'
}

/// The decimal digits of `s`, in order.
pub open spec fn digit_chars(s: Seq<char>) -> Seq<char>
    decreases s.len(),
{
    if s.len() == 0 {
        s
    } else if is_digit(s.last()) {
        digit_chars(s.drop_last()).push(s.last())
    } else {
        digit_chars(s.drop_last())
    }
}

/// The characters of `s` that are not decimal digits, in order.
pub open spec fn unit_chars(s: Seq<char>) -> Seq<char>
    decreases s.len(),
{
    if s.len() == 0 {
        s
    } else if is_digit(s.last()) {
        unit_chars(s.drop_last())
    } else {
        unit_chars(s.drop_last()).push(s.last())
    }
}

/// The number that a sequence of decimal digits spells.
pub open spec fn digits_value(d: Seq<char>) -> nat
    decreases d.len(),
{
    if d.len() == 0 {
        0
    } else {
        digits_value(d.drop_last()) * 10 + ((d.last() as nat) - 48) as nat
    }
}

/// The multiplier of a size unit: none, `B`, `KiB`, `MiB` or `GiB`.
pub open spec fn unit_factor(u: Seq<char>) -> Option<nat> {
    if u.len() == 0 || u == seq!['B'] {
        Some(1)
    } else if u == seq!['K', 'i', 'B'] {
        Some(1024)
    } else if u == seq!['M', 'i', 'B'] {
        Some(1048576)
    } else if u == seq!['G', 'i', 'B'] {
        Some(1073741824)
    } else {
        None
    }
}

/// What `parse_size` reads from `s`.
pub open spec fn parse_size_spec(s: Seq<char>) -> Option<usize> {
    let d = digit_chars(s);
    if d.len() == 0 {
        None
    } else {
        match unit_factor(unit_chars(s)) {
            None => None,
            Some(f) => if digits_value(d) * f <= usize::MAX {
                Some((digits_value(d) * f) as usize)
            } else {
                None
            },
        }
    }
}

fn unit_multiplier(u: &Vec<char>) -> (r: Option<u64>)
    ensures
        match unit_factor(u@) {
            Some(f) => r == Some(f as u64),
            None => r is None,
        },
{
    if u.len() == 0 || (u.len() == 1 && u[0] == 'B') {
        assert(u@.len() == 0 || u@ =~= seq!['B']);
        Some(1)
    } else if u.len() == 3 && u[1] == 'i' && u[2] == 'B' && (u[0] == 'K' || u[0] == 'M' || u[0] == 'G') {
        if u[0] == 'K' {
            assert(u@ =~= seq!['K', 'i', 'B']);
            Some(1024)
        } else if u[0] == 'M' {
            assert(u@ =~= seq!['M', 'i', 'B']);
            Some(1048576)
        } else {
            assert(u@ =~= seq!['G', 'i', 'B']);
            Some(1073741824)
        }
    } else {
        assert(u@ != seq!['B'] && u@ != seq!['K', 'i', 'B'] && u@ != seq!['M', 'i', 'B'] && u@ != seq![
            'G',
            'i',
            'B',
        ]) by {
            if u@.len() == 1 {
                assert(seq!['B'][0] == 'B');
            }
            if u@.len() == 3 {
                assert(seq!['K', 'i', 'B'][1] == 'i');
                assert(seq!['K', 'i', 'B'][2] == 'B');
                assert(seq!['K', 'i', 'B'][0] == 'K');
                assert(seq!['M', 'i', 'B'][0] == 'M');
                assert(seq!['G', 'i', 'B'][0] == 'G');
            }
        }
        None
    }
}

/// Reads a size such as `512`, `512B`, `4KiB`, `2MiB` or `1GiB`: the digits
/// give the number and the other characters the unit. `None` when there are
/// no digits, the unit is unknown, or the size does not fit a `usize`.
pub fn parse_size(size_str: &str) -> (r: Option<usize>)
    ensures
        r == parse_size_spec(size_str@),
{
    let n = size_str.unicode_len();
    let mut unit: Vec<char> = Vec::new();
    let mut value: u64 = 0;
    let mut too_big = false;
    let mut ndigits: usize = 0;
    let mut i: usize = 0;
    while i < n
        invariant
            n == size_str@.len(),
            0 <= i <= n,
            unit@ == unit_chars(size_str@.subrange(0, i as int)),
            ndigits == digit_chars(size_str@.subrange(0, i as int)).len(),
            too_big ==> digits_value(digit_chars(size_str@.subrange(0, i as int))) > usize::MAX,
            !too_big ==> value == digits_value(digit_chars(size_str@.subrange(0, i as int))),
            !too_big ==> value <= usize::MAX,
            ndigits <= i,
        decreases n - i,
    {
        let c = size_str.get_char(i);
        let ghost prev = size_str@.subrange(0, i as int);
        let ghost next = size_str@.subrange(0, i + 1);
        assert(next.drop_last() =~= prev);
        assert(next.last() == c);
        if '0' <= c && c <= '9' {
            let d = (c as u32 - 48) as u64;
            proof {
                let pv = digits_value(digit_chars(prev));
                assert(digits_value(digit_chars(next)) == pv * 10 + d) by {
                    assert(digit_chars(next).drop_last() =~= digit_chars(prev));
                }
                if too_big {
                    assert(pv * 10 + d > usize::MAX) by (nonlinear_arith)
                        requires
                            pv > usize::MAX,
                            d >= 0,
                    ;
                }
            }
            if !too_big {
                if value > (usize::MAX as u64 - d) / 10 {
                    proof {
                        let m = usize::MAX as u64;
                        assert(value * 10 + d > m) by (nonlinear_arith)
                            requires
                                value > (m - d) / 10,
                                d <= 9,
                                m >= 9,
                        ;
                    }
                    too_big = true;
                } else {
                    proof {
                        let m = usize::MAX as u64;
                        assert(value * 10 + d <= m) by (nonlinear_arith)
                            requires
                                value <= (m - d) / 10,
                                d <= 9,
                                m >= 9,
                        ;
                    }
                    value = value * 10 + d;
                }
            }
            ndigits = ndigits + 1;
        } else {
            unit.push(c);
        }
        i = i + 1;
    }
    assert(size_str@.subrange(0, n as int) =~= size_str@);
    if ndigits == 0 || too_big {
        proof {
            let dv = digits_value(digit_chars(size_str@));
            if too_big {
                if let Some(f) = unit_factor(unit_chars(size_str@)) {
                    assert(f >= 1);
                    assert(dv * f > usize::MAX) by (nonlinear_arith)
                        requires
                            dv > usize::MAX,
                            f >= 1,
                    ;
                }
            }
        }
        return None;
    }
    match unit_multiplier(&unit) {
        None => None,
        Some(f) => {
            if value > usize::MAX as u64 / f {
                proof {
                    let m = usize::MAX as u64;
                    assert(value * f > m) by (nonlinear_arith)
                        requires
                            value > m / f,
                            f >= 1,
                    ;
                }
                None
            } else {
                proof {
                    let m = usize::MAX as u64;
                    assert(value * f <= m) by (nonlinear_arith)
                        requires
                            value <= m / f,
                            f >= 1,
                    ;
                }
                Some((value * f) as usize)
            }
        },
    }
}

} // verus!
