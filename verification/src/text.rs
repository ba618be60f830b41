//! Building operator-visible text out of literals and decimal numbers.
use vstd::prelude::*;

verus! {

/// The decimal digit for `d`.
pub open spec fn digit(d: nat) -> char {
    if d == 0 {
        '0'
    } else if d == 1 {
        '1'
    } else if d == 2 {
        '2'
    } else if d == 3 {
        '3'
    } else if d == 4 {
        '4'
    } else if d == 5 {
        '5'
    } else if d == 6 {
        '6'
    } else if d == 7 {
        '7'
    } else if d == 8 {
        '8'
    } else {
        '9'
    }
}

/// `n` in base ten, without leading zeros.
pub open spec fn decimal(n: nat) -> Seq<char>
    decreases n,
{
    if n < 10 {
        seq![digit(n)]
    } else {
        decimal(n / 10).push(digit(n % 10))
    }
}

fn digit_text(d: u64) -> (text: &'static str)
    requires
        d < 10,
    ensures
        text@ == seq![digit(d as nat)],
{
    proof {
        reveal_strlit("0");
        reveal_strlit("1");
        reveal_strlit("2");
        reveal_strlit("3");
        reveal_strlit("4");
        reveal_strlit("5");
        reveal_strlit("6");
        reveal_strlit("7");
        reveal_strlit("8");
        reveal_strlit("9");
    }
    match d {
        0 => "0",
        1 => "1",
        2 => "2",
        3 => "3",
        4 => "4",
        5 => "5",
        6 => "6",
        7 => "7",
        8 => "8",
        _ => "9",
    }
}

/// Appends `n` in base ten to `out`.
pub fn push_decimal(out: &mut String, n: u64)
    ensures
        final(out)@ == old(out)@ + decimal(n as nat),
    decreases n,
{
    if n >= 10 {
        push_decimal(out, n / 10);
    }
    out.append(digit_text(n % 10));
}

/// `items` in base ten, separated by a comma and a space.
pub open spec fn decimal_list(items: Seq<u32>) -> Seq<char>
    decreases items.len(),
{
    if items.len() == 0 {
        Seq::empty()
    } else if items.len() == 1 {
        decimal(items[0] as nat)
    } else {
        decimal_list(items.drop_last()) + ", "@ + decimal(items.last() as nat)
    }
}

/// Appends `items` to `out` as a bracketed list.
pub fn push_decimal_list(out: &mut String, items: &Vec<u32>)
    ensures
        final(out)@ == old(out)@ + "["@ + decimal_list(items@) + "]"@,
{
    out.append("[");
    let ghost open: Seq<char> = out@;
    let mut i: usize = 0;
    while i < items.len()
        invariant
            i <= items.len(),
            out@ == open + decimal_list(items@.take(i as int)),
        decreases items.len() - i,
    {
        if i > 0 {
            out.append(", ");
        }
        push_decimal(out, items[i] as u64);
        proof {
            let longer = items@.take(i + 1);
            assert(longer.drop_last() == items@.take(i as int));
        }
        i = i + 1;
    }
    assert(items@.take(i as int) == items@);
    out.append("]");
}

/// The number that `digits` say in base ten.
pub open spec fn number_of(digits: Seq<char>) -> int
    decreases digits.len(),
{
    if digits.len() == 0 {
        0
    } else {
        10 * number_of(digits.drop_last()) + (digits.last() as int - '0' as int)
    }
}

/// A number is written in decimal digits that say it, with no leading zero.
pub proof fn law_decimal_says_the_number(n: nat)
    ensures
        number_of(decimal(n)) == n,
        decimal(n).len() > 0,
        n > 0 ==> decimal(n)[0] != '0',
        n == 0 ==> decimal(n) == seq!['0'],
        forall|i: int| 0 <= i < decimal(n).len() ==> '0' <= #[trigger] decimal(n)[i] <= '9',
    decreases n,
{
    let digits = decimal(n);
    if n >= 10 {
        law_decimal_says_the_number(n / 10);
        assert(digits.drop_last() =~= decimal(n / 10));
        assert forall|i: int| 0 <= i < digits.len() implies '0' <= #[trigger] digits[i] <= '9' by {
            if i < digits.len() - 1 {
                assert(decimal(n / 10)[i] == digits[i]);
            }
        }
        assert(digits[0] == decimal(n / 10)[0]);
    } else {
        assert(digits.drop_last() =~= Seq::<char>::empty());
        reveal_with_fuel(number_of, 2);
    }
}

/// A list is written item by item, with a comma and a space between two.
pub proof fn law_lists_are_separated_by_commas(items: Seq<u32>, item: u32)
    ensures
        decimal_list(Seq::empty()) == Seq::<char>::empty(),
        decimal_list(seq![item]) == decimal(item as nat),
        items.len() > 0 ==> decimal_list(items.push(item)) == decimal_list(items) + ", "@ + decimal(
            item as nat,
        ),
{
    assert(items.push(item).drop_last() =~= items);
}

} // verus!
