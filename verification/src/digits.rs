//! Decimal rendering of unit counts: a verified `u64` to `String`
//! conversion, together with the spec-level picture of a number's digits.

use vstd::prelude::*;

verus! {

/// The character for a single decimal digit (`0` through `9`; larger
/// arguments are clamped to `'9'` so the function is total).
pub open spec fn digit_char(d: nat) -> char {
    if d == 0 {
        '0'
    } else if d == 1 {
        '1'
    } else if d == 2 {
        '2'
    } else if d == 3 {
        '3'
    } else if d == 4 {
        '4'
    } else if d == 5 {
        '5'
    } else if d == 6 {
        '6'
    } else if d == 7 {
        '7'
    } else if d == 8 {
        '8'
    } else {
        '9'
    }
}

/// Whether `c` is one of the ten decimal digit characters.
pub open spec fn is_digit_char(c: char) -> bool {
    c == '0' || c == '1' || c == '2' || c == '3' || c == '4' || c == '5' || c == '6' || c == '7'
        || c == '8' || c == '9'
}

/// The decimal digits of `n`, most significant first; empty for zero.
pub open spec fn spec_digits_pos(n: nat) -> Seq<char>
    decreases n,
{
    if n == 0 {
        Seq::empty()
    } else {
        spec_digits_pos(n / 10) + seq![digit_char(n % 10)]
    }
}

/// The decimal representation of `n`: no sign, no leading zeros, and the
/// single character `'0'` for zero.
pub open spec fn spec_digits(n: nat) -> Seq<char> {
    if n == 0 {
        seq!['0']
    } else {
        spec_digits_pos(n)
    }
}

/// The digits of a positive number form a non-empty string of digit
/// characters whose first character is a digit.
pub proof fn lemma_digits_pos_shape(n: nat)
    ensures
        n > 0 ==> spec_digits_pos(n).len() >= 1,
        forall|i: int|
            0 <= i < spec_digits_pos(n).len() ==> is_digit_char(#[trigger] spec_digits_pos(n)[i]),
    decreases n,
{
    if n > 0 {
        lemma_digits_pos_shape(n / 10);
        let pre = spec_digits_pos(n / 10);
        assert forall|i: int|
            0 <= i < spec_digits_pos(n).len() implies is_digit_char(
            #[trigger] spec_digits_pos(n)[i],
        ) by {
            if i < pre.len() {
                assert(spec_digits_pos(n)[i] == pre[i]);
            } else {
                assert(spec_digits_pos(n)[i] == digit_char(n % 10));
            }
        }
    }
}

/// The decimal representation is never empty and holds digit characters only.
pub proof fn lemma_digits_shape(n: nat)
    ensures
        spec_digits(n).len() >= 1,
        forall|i: int| 0 <= i < spec_digits(n).len() ==> is_digit_char(#[trigger] spec_digits(n)[i]),
        is_digit_char(spec_digits(n)[0]),
{
    lemma_digits_pos_shape(n);
}

/// The string for one digit.
fn digit_str(d: u64) -> (r: &'static str)
    requires
        d < 10,
    ensures
        r@ == seq![digit_char(d as nat)],
{
    proof {
        reveal_strlit("0");
        reveal_strlit("1");
        reveal_strlit("2");
        reveal_strlit("3");
        reveal_strlit("4");
        reveal_strlit("5");
        reveal_strlit("6");
        reveal_strlit("7");
        reveal_strlit("8");
        reveal_strlit("9");
    }
    let r = match d {
        0 => "0",
        1 => "1",
        2 => "2",
        3 => "3",
        4 => "4",
        5 => "5",
        6 => "6",
        7 => "7",
        8 => "8",
        _ => "9",
    };
    proof {
        assert(r@ =~= seq![digit_char(d as nat)]);
    }
    r
}

/// The digit characters of `ds`, read back to front.
pub open spec fn digit_chars_rev(ds: Seq<u64>) -> Seq<char> {
    Seq::new(ds.len(), |i: int| digit_char(ds[ds.len() - 1 - i] as nat))
}

/// Render `n` in decimal, exactly as `spec_digits` describes it.
pub fn u64_to_string(n: u64) -> (r: String)
    ensures
        r@ == spec_digits(n as nat),
{
    if n == 0 {
        let mut r = String::new();
        r.append("0");
        proof {
            reveal_strlit("0");
            assert(r@ =~= spec_digits(0));
        }
        return r;
    }
    let mut ds: Vec<u64> = Vec::new();
    let mut cur = n;
    proof {
        assert(digit_chars_rev(ds@) =~= Seq::<char>::empty());
        assert(spec_digits_pos(cur as nat) + digit_chars_rev(ds@) =~= spec_digits_pos(n as nat));
    }
    while cur > 0
        invariant
            forall|i: int| 0 <= i < ds@.len() ==> (#[trigger] ds@[i]) < 10,
            spec_digits_pos(cur as nat) + digit_chars_rev(ds@) == spec_digits_pos(n as nat),
        decreases cur,
    {
        let d = cur % 10;
        let ghost pre = ds@;
        ds.push(d);
        cur = cur / 10;
        proof {
            assert(digit_chars_rev(pre.push(d)) =~= seq![digit_char(d as nat)] + digit_chars_rev(
                pre,
            ));
            assert(spec_digits_pos(cur as nat) + digit_chars_rev(ds@) =~= spec_digits_pos(
                n as nat,
            ));
        }
    }
    let mut r = String::new();
    let mut i: usize = ds.len();
    proof {
        assert(digit_chars_rev(ds@) =~= spec_digits_pos(n as nat));
        assert(r@ =~= digit_chars_rev(ds@).take((ds@.len() - i) as int));
    }
    while i > 0
        invariant
            i <= ds@.len(),
            forall|k: int| 0 <= k < ds@.len() ==> (#[trigger] ds@[k]) < 10,
            digit_chars_rev(ds@) == spec_digits_pos(n as nat),
            r@ == digit_chars_rev(ds@).take((ds@.len() - i) as int),
        decreases i,
    {
        let d = ds[i - 1];
        r.append(digit_str(d));
        i = i - 1;
        proof {
            assert(r@ =~= digit_chars_rev(ds@).take((ds@.len() - i) as int));
        }
    }
    proof {
        assert(digit_chars_rev(ds@).take(ds@.len() as int) =~= digit_chars_rev(ds@));
    }
    r
}

} // verus!
