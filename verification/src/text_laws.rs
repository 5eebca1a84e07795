//! How numbers are written and read, digit by digit, and how texts are ordered.

use vstd::prelude::*;

use crate::text::{
    decimal, digits_value, is_digit, is_digits, parse_integer, parse_natural, parsed_i32,
    parsed_u64, parsed_usize, signed_decimal, text_before,
};

verus! {

/// A number below ten is written as its digit; any other as what is written for
/// its tenth, and its last digit.
pub proof fn law_decimal_is_written_digit_by_digit(n: nat)
    ensures
        n < 10 ==> decimal(n).len() == 1 && decimal(n)[0] as int == 48 + n,
        n >= 10 ==> {
            &&& decimal(n).len() == decimal(n / 10).len() + 1
            &&& decimal(n).drop_last() == decimal(n / 10)
            &&& decimal(n).last() as int == 48 + n % 10
        },
{
    assert(n >= 10 ==> decimal(n).drop_last() =~= decimal(n / 10));
}

/// A negative number is written as a minus sign and its absolute value.
pub proof fn law_sign_comes_first(n: nat)
    ensures
        signed_decimal(n as int) == decimal(n),
        n > 0 ==> signed_decimal(-(n as int)) == seq!['-'] + decimal(n),
{
}

/// A character is one of the digits from 0 to 9.
pub open spec fn is_decimal_digit(c: char) -> bool {
    '0' <= c <= '9'
}

/// A digit reads as its value, where that is not too large.
pub proof fn law_digit_reads_as_its_value(c: char, max: nat)
    requires
        is_decimal_digit(c),
    ensures
        parse_natural(seq![c], max) == if c as int - 48 <= max {
            Some((c as int - 48) as nat)
        } else {
            None
        },
{
    assert(seq![c].drop_last() =~= Seq::empty());
    assert(is_digits(seq![c]));
    reveal_with_fuel(digits_value, 2);
}

/// One digit more makes the number ten times as large, and adds its value.
pub proof fn law_numbers_read_digit_by_digit(s: Seq<char>, c: char, max: nat)
    requires
        s.len() > 0,
        forall|i: int| 0 <= i < s.len() ==> is_decimal_digit(#[trigger] s[i]),
        is_decimal_digit(c),
    ensures
        parse_natural(s.push(c), max) == match parse_natural(s, max) {
            Some(n) => if n * 10 + (c as int - 48) <= max {
                Some((n * 10 + (c as int - 48)) as nat)
            } else {
                None
            },
            None => None,
        },
{
    let longer = s.push(c);
    assert(is_digits(s)) by {
        assert forall|i: int| 0 <= i < s.len() implies is_digit(#[trigger] s[i]) by {
            assert(is_decimal_digit(s[i]));
        }
    }
    assert(is_digits(longer)) by {
        assert forall|i: int| 0 <= i < longer.len() implies is_digit(#[trigger] longer[i]) by {
            if i < s.len() {
                assert(is_digit(s[i]));
            }
        }
    }
    assert(is_decimal_digit(s[0]));
    assert(longer[0] == s[0]);
    assert(longer.drop_last() =~= s);
    assert(digits_value(longer) == digits_value(s) * 10 + (c as int - 48));
}

/// A plus sign before a number changes nothing.
pub proof fn law_plus_sign_is_skipped(s: Seq<char>, max: nat)
    requires
        s.len() > 0 ==> s[0] != '+',
    ensures
        parse_natural(seq!['+'] + s, max) == parse_natural(s, max),
{
    assert((seq!['+'] + s).skip(1) =~= s);
}

/// Nothing but digits, after an optional plus sign, reads as a number: there is
/// at least one digit.
pub proof fn law_only_digits_read_as_a_number(s: Seq<char>, max: nat)
    ensures
        s.len() == 0 ==> parse_natural(s, max) is None,
        s == seq!['+'] ==> parse_natural(s, max) is None,
        s.len() > 0 && !is_decimal_digit(s[0]) && s[0] != '+' ==> parse_natural(s, max) is None,
        (exists|i: int| 0 < i < s.len() && !is_decimal_digit(#[trigger] s[i])) ==> parse_natural(
            s,
            max,
        ) is None,
{
    let body = if s.len() > 0 && s[0] == '+' {
        s.skip(1)
    } else {
        s
    };
    if s.len() > 0 && !is_decimal_digit(s[0]) && s[0] != '+' {
        assert(!is_digit(body[0]));
    }
    if exists|i: int| 0 < i < s.len() && !is_decimal_digit(#[trigger] s[i]) {
        let i = choose|i: int| 0 < i < s.len() && !is_decimal_digit(#[trigger] s[i]);
        if s[0] == '+' {
            assert(body[i - 1] == s[i]);
            assert(!is_digit(body[i - 1]));
        } else {
            assert(!is_digit(body[i]));
        }
    }
}

/// A minus sign before digits reads as the negative of their number; without
/// one a signed number reads as one without a sign does.
pub proof fn law_minus_sign_negates(s: Seq<char>, min: int, max: int)
    requires
        min <= 0 <= max,
    ensures
        (s.len() == 0 || s[0] != '-') ==> parse_integer(s, min, max) == match parse_natural(
            s,
            max as nat,
        ) {
            Some(n) => Some(n as int),
            None => None,
        },
        (s.len() == 0 || s[0] != '+') ==> parse_integer(seq!['-'] + s, min, max)
            == match parse_natural(s, (-min) as nat) {
            Some(n) => Some(-(n as int)),
            None => None,
        },
        s.len() > 0 && s[0] == '+' ==> parse_integer(seq!['-'] + s, min, max) is None,
{
    assert((seq!['-'] + s).skip(1) =~= s);
    if s.len() > 0 && s[0] == '+' {
        assert(!is_digit(s[0]));
    }
}

/// The numbers of each type are those up to its largest, and for a signed type
/// down to its smallest.
pub proof fn law_types_bound_what_is_read(s: Seq<char>)
    ensures
        parsed_u64(s) == match parse_natural(s, 0xffff_ffff_ffff_ffff) {
            Some(n) => Some(n as u64),
            None => None,
        },
        parsed_usize(s) == match parse_natural(s, usize::MAX as nat) {
            Some(n) => Some(n as usize),
            None => None,
        },
        parsed_i32(s) == match parse_integer(s, -0x8000_0000, 0x7fff_ffff) {
            Some(n) => Some(n as i32),
            None => None,
        },
{
}

/// One text comes before another exactly where it is a proper prefix of it, or
/// has the smaller character at the first place where they differ.
pub proof fn law_first_difference_decides(a: Seq<char>, b: Seq<char>)
    ensures
        text_before(a, b) <==> exists|k: int| #[trigger] decides(a, b, k),
    decreases a.len(),
{
    if b.len() == 0 {
        assert forall|k: int| !#[trigger] decides(a, b, k) by {}
    } else if a.len() == 0 {
        assert(decides(a, b, 0));
    } else if a[0] != b[0] {
        if (a[0] as int) < (b[0] as int) {
            assert(decides(a, b, 0));
        } else {
            assert forall|k: int| !#[trigger] decides(a, b, k) by {
                if decides(a, b, k) && k > 0 {
                    assert(a[0] == b[0]);
                }
            }
        }
    } else {
        let x = a.drop_first();
        let y = b.drop_first();
        law_first_difference_decides(x, y);
        if text_before(a, b) {
            let k = choose|k: int| #[trigger] decides(x, y, k);
            assert forall|m: int| 0 <= m < k + 1 implies #[trigger] a[m] == b[m] by {
                if m > 0 {
                    assert(x[m - 1] == y[m - 1]);
                }
            }
            assert(decides(a, b, k + 1));
        }
        if exists|k: int| #[trigger] decides(a, b, k) {
            let k = choose|k: int| #[trigger] decides(a, b, k);
            assert(k > 0);
            assert forall|m: int| 0 <= m < k - 1 implies #[trigger] x[m] == y[m] by {
                assert(a[m + 1] == b[m + 1]);
            }
            assert(decides(x, y, k - 1));
        }
    }
}

/// Two texts agree up to position `k`, and there the first ends or has the
/// smaller character.
pub open spec fn decides(a: Seq<char>, b: Seq<char>, k: int) -> bool {
    &&& 0 <= k < b.len()
    &&& k <= a.len()
    &&& forall|m: int| 0 <= m < k ==> #[trigger] a[m] == b[m]
    &&& k == a.len() || (a[k] as int) < (b[k] as int)
}

} // verus!
