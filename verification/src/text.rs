//! Numbers as decimal text.

use vstd::prelude::*;
use vstd::string::StringExecFns;

verus! {

/// A decimal digit as text.
pub open spec fn digit(d: nat) -> Seq<char> {
    seq![(48 + d) as u8 as char]
}

/// The number in decimal notation, without leading zeros.
pub open spec fn decimal(n: nat) -> Seq<char>
    decreases n,
{
    if n < 10 {
        digit(n)
    } else {
        decimal(n / 10) + digit(n % 10)
    }
}

/// The digits as text, the last one first.
pub open spec fn backwards(digits: Seq<u32>) -> Seq<char>
    decreases digits.len(),
{
    if digits.len() == 0 {
        Seq::empty()
    } else {
        digit(digits.last() as nat) + backwards(digits.drop_last())
    }
}

/// The text of a digit.
pub fn digit_str(d: u32) -> (text: &'static str)
    requires
        d < 10,
    ensures
        text@ == digit(d as nat),
{
    proof {
        reveal_strlit("0");
        reveal_strlit("1");
        reveal_strlit("2");
        reveal_strlit("3");
        reveal_strlit("4");
        reveal_strlit("5");
        reveal_strlit("6");
        reveal_strlit("7");
        reveal_strlit("8");
        reveal_strlit("9");
    }
    let text = match d {
        0 => "0",
        1 => "1",
        2 => "2",
        3 => "3",
        4 => "4",
        5 => "5",
        6 => "6",
        7 => "7",
        8 => "8",
        _ => "9",
    };
    assert(text@ =~= digit(d as nat));
    text
}

/// The number in decimal notation.
pub fn decimal_of(n: u64) -> (text: String)
    ensures
        text@ == decimal(n as nat),
{
    let mut digits: Vec<u32> = Vec::new();
    let mut rest: u64 = n;
    while rest >= 10
        invariant
            forall|k: int| 0 <= k < digits@.len() ==> digits@[k] < 10,
            decimal(n as nat) == decimal(rest as nat) + backwards(digits@),
        decreases rest,
    {
        let d: u32 = (rest % 10) as u32;
        let ghost before = digits@;
        digits.push(d);
        assert(digits@.drop_last() =~= before);
        assert(decimal(rest as nat) + backwards(before) =~= decimal((rest / 10) as nat)
            + backwards(digits@));
        rest = rest / 10;
    }
    let mut text = String::from_str(digit_str(rest as u32));
    let mut k: usize = digits.len();
    assert(digits@.subrange(0, k as int) =~= digits@);
    assert(text@ == decimal(rest as nat));
    while k > 0
        invariant
            k <= digits@.len(),
            forall|j: int| 0 <= j < digits@.len() ==> digits@[j] < 10,
            text@ + backwards(digits@.subrange(0, k as int)) == decimal(n as nat),
        decreases k,
    {
        let ghost head = digits@.subrange(0, k as int);
        k -= 1;
        let ghost shorter = digits@.subrange(0, k as int);
        let ghost before = text@;
        text.append(digit_str(digits[k]));
        assert(head.drop_last() =~= shorter);
        assert(head.last() == digits@[k as int]);
        assert(text@ + backwards(shorter) =~= before + backwards(head));
    }
    assert(digits@.subrange(0, 0) =~= Seq::<u32>::empty());
    assert(text@ + Seq::<char>::empty() =~= text@);
    text
}

} // verus!
