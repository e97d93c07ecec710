use vstd::prelude::*;

verus! {

/// The character of a decimal digit.
pub open spec fn digit_char(d: nat) -> char {
    if d == 0 {
        '0'
    } else if d == 1 {
        '1'
    } else if d == 2 {
        '2'
    } else if d == 3 {
        '3'
    } else if d == 4 {
        '4'
    } else if d == 5 {
        '5'
    } else if d == 6 {
        '6'
    } else if d == 7 {
        '7'
    } else if d == 8 {
        '8'
    } else {
        '9'
    }
}

/// The decimal digits of `n`, without leading zeros ("0" for zero).
pub open spec fn digits(n: nat) -> Seq<char>
    decreases n,
{
    if n < 10 {
        seq![digit_char(n)]
    } else {
        digits(n / 10) + seq![digit_char(n % 10)]
    }
}

/// An integer written in decimal, with a minus sign when it is negative.
pub open spec fn decimal(x: int) -> Seq<char> {
    if x < 0 {
        seq!['-'] + digits((-x) as nat)
    } else {
        digits(x as nat)
    }
}

/// The name of the file of region (`rx`, `ry`): `r_{rx}_{ry}.json`.
pub open spec fn region_file_name(rx: int, ry: int) -> Seq<char> {
    "r_"@ + decimal(rx) + "_"@ + decimal(ry) + ".json"@
}

fn append_digit(out: &mut String, d: u64)
    requires
        d < 10,
    ensures
        final(out)@ == old(out)@ + seq![digit_char(d as nat)],
{
    let s = if d == 0 {
        "0"
    } else if d == 1 {
        "1"
    } else if d == 2 {
        "2"
    } else if d == 3 {
        "3"
    } else if d == 4 {
        "4"
    } else if d == 5 {
        "5"
    } else if d == 6 {
        "6"
    } else if d == 7 {
        "7"
    } else if d == 8 {
        "8"
    } else {
        "9"
    };
    proof {
        reveal_strlit("0");
        reveal_strlit("1");
        reveal_strlit("2");
        reveal_strlit("3");
        reveal_strlit("4");
        reveal_strlit("5");
        reveal_strlit("6");
        reveal_strlit("7");
        reveal_strlit("8");
        reveal_strlit("9");
    }
    out.append(s);
    assert(s@ =~= seq![digit_char(d as nat)]);
}

fn append_digits(out: &mut String, n: u64)
    ensures
        final(out)@ == old(out)@ + digits(n as nat),
    decreases n,
{
    if n >= 10 {
        append_digits(out, n / 10);
    }
    append_digit(out, n % 10);
    assert(old(out)@ + digits(n as nat) =~= if n >= 10 {
        old(out)@ + digits((n / 10) as nat) + seq![digit_char((n % 10) as nat)]
    } else {
        old(out)@ + seq![digit_char((n % 10) as nat)]
    });
}

/// Appends `x` written in decimal.
pub fn append_decimal(out: &mut String, x: i32)
    ensures
        final(out)@ == old(out)@ + decimal(x as int),
{
    if x < 0 {
        out.append("-");
        proof {
            reveal_strlit("-");
        }
        let a: i64 = -(x as i64);
        append_digits(out, a as u64);
        assert(old(out)@ + decimal(x as int) =~= old(out)@ + seq!['-'] + digits(a as nat));
    } else {
        append_digits(out, x as u64);
    }
}

/// The name of the file of region (`rx`, `ry`).
pub fn filename_from_pos(rx: i32, ry: i32) -> (r: String)
    ensures
        r@ == region_file_name(rx as int, ry as int),
{
    let mut out = String::new();
    out.append("r_");
    append_decimal(&mut out, rx);
    out.append("_");
    append_decimal(&mut out, ry);
    out.append(".json");
    assert(out@ =~= region_file_name(rx as int, ry as int));
    out
}

} // verus!
verus! {

/// A character of a decimal number.
pub open spec fn is_number_char(c: char) -> bool {
    c == '-' || c == '0' || c == '1' || c == '2' || c == '3' || c == '4' || c == '5' || c == '6'
        || c == '7' || c == '8' || c == '9'
}

pub proof fn lemma_digits(n: nat)
    ensures
        digits(n).len() >= 1,
        n >= 10 ==> digits(n).len() >= 2,
        forall|i: int| 0 <= i < digits(n).len() ==> is_number_char(#[trigger] digits(n)[i]) && digits(n)[i] != '-',
    decreases n,
{
    if n >= 10 {
        lemma_digits(n / 10);
        let a = digits(n / 10);
        assert forall|i: int| 0 <= i < digits(n).len() implies is_number_char(#[trigger] digits(n)[i]) && digits(n)[i] != '-' by {
            if i < a.len() {
                assert(digits(n)[i] == a[i]);
            }
        }
    }
}

pub proof fn lemma_digits_injective(n: nat, m: nat)
    requires
        digits(n) == digits(m),
    ensures
        n == m,
    decreases n,
{
    lemma_digits(n);
    lemma_digits(m);
    let dn = digits(n);
    if n < 10 && m < 10 {
        assert(dn[0] == digits(m)[0]);
    } else if n >= 10 && m >= 10 {
        let a = digits(n / 10);
        let b = digits(m / 10);
        assert(dn.last() == digit_char(n % 10));
        assert(digits(m).last() == digit_char(m % 10));
        assert(n % 10 == m % 10);
        assert(a =~= dn.drop_last());
        assert(b =~= digits(m).drop_last());
        lemma_digits_injective(n / 10, m / 10);
    }
}

pub proof fn lemma_decimal(x: int)
    ensures
        decimal(x).len() >= 1,
        forall|i: int| 0 <= i < decimal(x).len() ==> is_number_char(#[trigger] decimal(x)[i]),
{
    if x < 0 {
        lemma_digits((-x) as nat);
        let d = digits((-x) as nat);
        assert forall|i: int| 0 <= i < decimal(x).len() implies is_number_char(#[trigger] decimal(x)[i]) by {
            if i > 0 {
                assert(decimal(x)[i] == d[i - 1]);
            }
        }
    } else {
        lemma_digits(x as nat);
    }
}

pub proof fn lemma_decimal_injective(x: int, y: int)
    requires
        decimal(x) == decimal(y),
    ensures
        x == y,
{
    lemma_digits((-x) as nat);
    lemma_digits((-y) as nat);
    lemma_digits(x as nat);
    lemma_digits(y as nat);
    if x < 0 && y < 0 {
        assert(digits((-x) as nat) =~= decimal(x).subrange(1, decimal(x).len() as int));
        assert(digits((-y) as nat) =~= decimal(y).subrange(1, decimal(y).len() as int));
        lemma_digits_injective((-x) as nat, (-y) as nat);
    } else if x >= 0 && y >= 0 {
        lemma_digits_injective(x as nat, y as nat);
    } else if x < 0 {
        assert(decimal(x)[0] == '-');
        assert(decimal(y)[0] == digits(y as nat)[0]);
    } else {
        assert(decimal(y)[0] == '-');
        assert(decimal(x)[0] == digits(x as nat)[0]);
    }
}

/// Each region has a file of its own: two regions' file names differ.
pub proof fn law_region_file_names_distinct(rx: int, ry: int, qx: int, qy: int)
    requires
        region_file_name(rx, ry) == region_file_name(qx, qy),
    ensures
        rx == qx && ry == qy,
{
    reveal_strlit("r_");
    reveal_strlit("_");
    reveal_strlit(".json");
    lemma_decimal(rx);
    lemma_decimal(qx);
    lemma_decimal(ry);
    lemma_decimal(qy);
    let a = decimal(rx);
    let b = decimal(ry);
    let a2 = decimal(qx);
    let b2 = decimal(qy);
    let s = region_file_name(rx, ry);
    let s2 = region_file_name(qx, qy);
    assert(s =~= seq!['r', '_'] + a + seq!['_'] + b + seq!['.', 'j', 's', 'o', 'n']);
    assert(s2 =~= seq!['r', '_'] + a2 + seq!['_'] + b2 + seq!['.', 'j', 's', 'o', 'n']);
    let la = a.len() as int;
    let la2 = a2.len() as int;
    let lb = b.len() as int;
    let lb2 = b2.len() as int;
    if la < la2 {
        assert(s[2 + la] == '_');
        assert(s2[2 + la] == a2[la]);
        assert(is_number_char(a2[la]));
    } else if la2 < la {
        assert(s2[2 + la2] == '_');
        assert(s[2 + la2] == a[la2]);
        assert(is_number_char(a[la2]));
    }
    assert(la == la2);
    assert(a =~= s.subrange(2, 2 + la));
    assert(a2 =~= s2.subrange(2, 2 + la2));
    lemma_decimal_injective(rx, qx);
    assert(lb == lb2);
    assert(b =~= s.subrange(3 + la, 3 + la + lb));
    assert(b2 =~= s2.subrange(3 + la, 3 + la + lb2));
    lemma_decimal_injective(ry, qy);
}

} // verus!
verus! {

/// The number that a string of decimal digits stands for.
pub open spec fn digits_value(s: Seq<char>) -> int
    decreases s.len(),
{
    if s.len() == 0 {
        0
    } else {
        digits_value(s.drop_last()) * 10 + (s.last() as int - '0' as int)
    }
}

/// Each decimal digit is written with the character whose code is that of `0` plus
/// the digit.
pub proof fn law_digit_char_is_decimal(d: nat)
    requires
        d < 10,
    ensures
        digit_char(d) as int == '0' as int + d,
{
}

/// Reading the digits of `n` back as a decimal number gives `n`, and every character
/// written is a decimal digit.
pub proof fn law_digits_read_back(n: nat)
    ensures
        digits_value(digits(n)) == n,
        forall|k: int|
            0 <= k < digits(n).len() ==> '0' <= #[trigger] digits(n)[k] && digits(n)[k] <= '9',
    decreases n,
{
    law_digit_char_is_decimal(n % 10);
    if n >= 10 {
        law_digits_read_back(n / 10);
        let d = digits(n);
        assert(d.drop_last() =~= digits(n / 10));
        assert(d.last() == digit_char(n % 10));
        assert(digits_value(d) == digits_value(digits(n / 10)) * 10 + (digit_char(n % 10) as int - '0' as int));
        assert((n / 10) * 10 + n % 10 == n);
        assert forall|k: int| 0 <= k < d.len() implies '0' <= #[trigger] d[k] && d[k] <= '9' by {
            if k < d.len() - 1 {
                assert(d[k] == digits(n / 10)[k]);
            }
        }
    } else {
        let d = digits(n);
        assert(d.drop_last() =~= Seq::<char>::empty());
        assert(digits_value(d) == digits_value(d.drop_last()) * 10 + (digit_char(n) as int - '0' as int));
    }
}

/// A coordinate is written in decimal: reading back what follows the minus sign (there
/// is one exactly for a negative coordinate) gives its absolute value.
pub proof fn law_decimal_reads_back(x: int)
    ensures
        x >= 0 ==> digits_value(decimal(x)) == x,
        x < 0 ==> decimal(x)[0] == '-' && digits_value(decimal(x).subrange(1, decimal(x).len() as int))
            == -x,
        x >= 0 ==> decimal(x)[0] != '-',
{
    if x >= 0 {
        law_digits_read_back(x as nat);
        assert(digits(x as nat).len() > 0);
    } else {
        law_digits_read_back((-x) as nat);
        assert(decimal(x).subrange(1, decimal(x).len() as int) =~= digits((-x) as nat));
    }
}

} // verus!
