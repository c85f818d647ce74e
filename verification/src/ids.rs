//! Object identifiers.
//!
//! The scene numbers its objects from one and names the n-th `obj_` followed
//! by n in decimal. Distinct numbers give distinct names, so a scene that only
//! counts upwards never hands out a name twice.

use vstd::prelude::*;
use vstd::string::StringExecFns;

verus! {

/// The character for one decimal digit.
pub open spec fn digit_char(d: nat) -> char {
    if d == 0 {
        '0'
    } else if d == 1 {
        '1'
    } else if d == 2 {
        '2'
    } else if d == 3 {
        '3'
    } else if d == 4 {
        '4'
    } else if d == 5 {
        '5'
    } else if d == 6 {
        '6'
    } else if d == 7 {
        '7'
    } else if d == 8 {
        '8'
    } else {
        '9'
    }
}

/// `n` in decimal, most significant digit first, without leading zeros.
pub open spec fn decimal(n: nat) -> Seq<char>
    decreases n,
{
    if n < 10 {
        seq![digit_char(n)]
    } else {
        decimal(n / 10).push(digit_char(n % 10))
    }
}

/// The identifier of the `n`-th object.
pub open spec fn id_text(n: nat) -> Seq<char> {
    "obj_"@ + decimal(n)
}

fn digit_str(d: u64) -> (r: &'static str)
    requires
        d < 10,
    ensures
        r@ == seq![digit_char(d as nat)],
{
    proof {
        reveal_strlit("0");
        reveal_strlit("1");
        reveal_strlit("2");
        reveal_strlit("3");
        reveal_strlit("4");
        reveal_strlit("5");
        reveal_strlit("6");
        reveal_strlit("7");
        reveal_strlit("8");
        reveal_strlit("9");
    }
    let r = if d == 0 {
        "0"
    } else if d == 1 {
        "1"
    } else if d == 2 {
        "2"
    } else if d == 3 {
        "3"
    } else if d == 4 {
        "4"
    } else if d == 5 {
        "5"
    } else if d == 6 {
        "6"
    } else if d == 7 {
        "7"
    } else if d == 8 {
        "8"
    } else {
        "9"
    };
    assert(r@ =~= seq![digit_char(d as nat)]);
    r
}

/// Writes `n` in decimal.
pub fn decimal_text(n: u64) -> (text: String)
    ensures
        text@ == decimal(n as nat),
{
    let mut text = String::from_str(digit_str(n % 10));
    let mut rest: u64 = n / 10;
    while rest > 0
        invariant
            rest > 0 ==> decimal(n as nat) == decimal(rest as nat) + text@,
            rest == 0 ==> decimal(n as nat) == text@,
        decreases rest,
    {
        let digit: u64 = rest % 10;
        let ghost before = text@;
        text = String::from_str(digit_str(digit)).concat(text.as_str());
        proof {
            let d = seq![digit_char(digit as nat)];
            assert(text@ == d + before);
            if rest < 10 {
                assert(decimal(rest as nat) == d);
            } else {
                assert(decimal(rest as nat) == decimal((rest / 10) as nat).push(
                    digit_char(digit as nat),
                ));
                assert(decimal((rest / 10) as nat).push(digit_char(digit as nat)) + before
                    =~= decimal((rest / 10) as nat) + (d + before));
            }
        }
        rest = rest / 10;
    }
    text
}

/// The identifier of the `n`-th object.
pub fn make_id(n: u64) -> (id: String)
    ensures
        id@ == id_text(n as nat),
{
    String::from_str("obj_").concat(decimal_text(n).as_str())
}

/// A decimal numeral is never empty.
pub proof fn lemma_decimal_nonempty(n: nat)
    ensures
        decimal(n).len() >= 1,
        n >= 10 ==> decimal(n).len() >= 2,
    decreases n,
{
    if n >= 10 {
        lemma_decimal_nonempty(n / 10);
    }
}

/// Different numbers have different decimal numerals.
pub proof fn lemma_decimal_injective(a: nat, b: nat)
    requires
        decimal(a) == decimal(b),
    ensures
        a == b,
    decreases a,
{
    lemma_decimal_nonempty(a);
    lemma_decimal_nonempty(b);
    if a < 10 && b < 10 {
        assert(seq![digit_char(a)][0] == digit_char(a));
        assert(seq![digit_char(b)][0] == digit_char(b));
    } else if a >= 10 && b >= 10 {
        let x = decimal(a / 10);
        let y = decimal(b / 10);
        assert(decimal(a) == x.push(digit_char(a % 10)));
        assert(decimal(b) == y.push(digit_char(b % 10)));
        assert(x.push(digit_char(a % 10)).last() == digit_char(a % 10));
        assert(y.push(digit_char(b % 10)).last() == digit_char(b % 10));
        assert(a % 10 == b % 10);
        assert(x =~= decimal(a).drop_last());
        assert(y =~= decimal(b).drop_last());
        lemma_decimal_injective(a / 10, b / 10);
    } else if a < 10 {
        assert(decimal(a).len() == 1);
    } else {
        assert(decimal(b).len() == 1);
    }
}

/// Different numbers have different identifiers: the scene's counter only
/// grows, so no identifier is generated twice.
pub proof fn lemma_id_text_injective(a: nat, b: nat)
    requires
        id_text(a) == id_text(b),
    ensures
        a == b,
{
    let p = "obj_"@;
    assert(decimal(a) =~= id_text(a).subrange(p.len() as int, id_text(a).len() as int));
    assert(decimal(b) =~= id_text(b).subrange(p.len() as int, id_text(b).len() as int));
    lemma_decimal_injective(a, b);
}

} // verus!
