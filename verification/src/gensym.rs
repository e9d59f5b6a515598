//! The names of generated symbols.

use crate::terms::Symbol;
use vstd::prelude::*;
use vstd::string::StringExecFns;

verus! {

/// The character of one decimal digit.
pub open spec fn digit_char(digit: nat) -> char {
    if digit == 0 {
        '0'
    } else if digit == 1 {
        '1'
    } else if digit == 2 {
        '2'
    } else if digit == 3 {
        '3'
    } else if digit == 4 {
        '4'
    } else if digit == 5 {
        '5'
    } else if digit == 6 {
        '6'
    } else if digit == 7 {
        '7'
    } else if digit == 8 {
        '8'
    } else {
        '9'
    }
}

/// A number in decimal digits, without leading zeros.
pub open spec fn decimal(n: nat) -> Seq<char>
    decreases n,
{
    if n < 10 {
        seq![digit_char(n)]
    } else {
        decimal(n / 10).push(digit_char(n % 10))
    }
}

/// The name of the symbol generated for `prefix` with the number `n`. For
/// the prefix `_` it is `_` and the number. For any other prefix that begins
/// with `_` it is the prefix, `_` and the number. For a prefix that does not
/// begin with `_` it is `_`, the prefix, `_` and the number.
pub open spec fn gensym_name(prefix: Seq<char>, n: nat) -> Seq<char> {
    if prefix == seq!['_'] {
        seq!['_'] + decimal(n)
    } else if prefix.len() > 0 && prefix[0] == '_' {
        prefix + seq!['_'] + decimal(n)
    } else {
        seq!['_'] + prefix + seq!['_'] + decimal(n)
    }
}

/// One decimal digit as a string.
fn digit_str(digit: u64) -> (text: &'static str)
    requires
        digit < 10,
    ensures
        text@ == seq![digit_char(digit as nat)],
{
    proof {
        reveal_strlit("0");
        reveal_strlit("1");
        reveal_strlit("2");
        reveal_strlit("3");
        reveal_strlit("4");
        reveal_strlit("5");
        reveal_strlit("6");
        reveal_strlit("7");
        reveal_strlit("8");
        reveal_strlit("9");
    }
    let text = if digit == 0 {
        "0"
    } else if digit == 1 {
        "1"
    } else if digit == 2 {
        "2"
    } else if digit == 3 {
        "3"
    } else if digit == 4 {
        "4"
    } else if digit == 5 {
        "5"
    } else if digit == 6 {
        "6"
    } else if digit == 7 {
        "7"
    } else if digit == 8 {
        "8"
    } else {
        "9"
    };
    text
}

/// Appends `n` in decimal digits to `text`.
pub fn push_decimal(text: &mut String, n: u64)
    ensures
        final(text)@ == old(text)@ + decimal(n as nat),
    decreases n,
{
    if n >= 10 {
        push_decimal(text, n / 10);
    }
    text.append(digit_str(n % 10));
}

/// The symbol generated for `prefix` with the number `n`.
pub fn generated_symbol(prefix: &str, n: u64) -> (symbol: Symbol)
    ensures
        symbol@ == gensym_name(prefix@, n as nat),
{
    proof {
        reveal_strlit("_");
    }
    let underscored = !prefix.is_empty() && prefix.get_char(0) == '_';
    let mut text = String::new();
    if underscored {
        if prefix.unicode_len() > 1 {
            text.append(prefix);
        }
    } else {
        text.append("_");
        text.append(prefix);
    }
    text.append("_");
    push_decimal(&mut text, n);
    proof {
        if underscored && prefix@.len() == 1 {
            assert(prefix@ =~= seq!['_']);
        }
    }
    Symbol(text)
}

/// The number that a decimal digit stands for.
pub open spec fn digit_value(digit: char) -> nat {
    if digit == '0' {
        0
    } else if digit == '1' {
        1
    } else if digit == '2' {
        2
    } else if digit == '3' {
        3
    } else if digit == '4' {
        4
    } else if digit == '5' {
        5
    } else if digit == '6' {
        6
    } else if digit == '7' {
        7
    } else if digit == '8' {
        8
    } else {
        9
    }
}

/// The number that a string of decimal digits stands for.
pub open spec fn decimal_value(digits: Seq<char>) -> nat
    decreases digits.len(),
{
    if digits.len() == 0 {
        0
    } else {
        decimal_value(digits.drop_last()) * 10 + digit_value(digits.last())
    }
}

/// The digits of a number are at least one, none of them is an underscore,
/// and they stand for the number.
pub proof fn lemma_decimal_reads_back(n: nat)
    ensures
        decimal(n).len() >= 1,
        forall|i: int| 0 <= i < decimal(n).len() ==> decimal(n)[i] != '_',
        decimal_value(decimal(n)) == n,
    decreases n,
{
    let digits = decimal(n);
    if n >= 10 {
        lemma_decimal_reads_back(n / 10);
        assert(digits.drop_last() =~= decimal(n / 10));
    } else {
        assert(decimal_value(digits) == decimal_value(digits.drop_last()) * 10 + digit_value(
            digits.last(),
        ));
    }
}

/// What stands before the last underscore of a generated name.
pub open spec fn gensym_head(prefix: Seq<char>) -> Seq<char> {
    if prefix == seq!['_'] {
        Seq::empty()
    } else if prefix.len() > 0 && prefix[0] == '_' {
        prefix
    } else {
        seq!['_'] + prefix
    }
}

/// A generated name ends in an underscore and the digits of its number.
pub proof fn lemma_gensym_name_ends_in_number(prefix: Seq<char>, n: nat)
    ensures
        gensym_name(prefix, n) == gensym_head(prefix) + seq!['_'] + decimal(n),
{
}

/// An underscore in front of a prefix is absorbed: the name is the one of the
/// prefix without it, unless nothing or another underscore follows.
pub proof fn lemma_leading_underscore_is_absorbed(prefix: Seq<char>, n: nat)
    requires
        prefix.len() > 0,
        prefix[0] != '_',
    ensures
        gensym_name(seq!['_'] + prefix, n) == gensym_name(prefix, n),
{
}

/// Names generated with different numbers differ, whatever their prefixes.
pub proof fn lemma_gensym_names_differ(prefix: Seq<char>, m: nat, other_prefix: Seq<char>, n: nat)
    requires
        m != n,
    ensures
        gensym_name(prefix, m) != gensym_name(other_prefix, n),
{
    let a = gensym_name(prefix, m);
    let b = gensym_name(other_prefix, n);
    lemma_gensym_name_ends_in_number(prefix, m);
    lemma_gensym_name_ends_in_number(other_prefix, n);
    lemma_decimal_reads_back(m);
    lemma_decimal_reads_back(n);
    let head_a = gensym_head(prefix);
    let head_b = gensym_head(other_prefix);
    let digits_a = decimal(m);
    let digits_b = decimal(n);
    assert(a.len() == head_a.len() + 1 + digits_a.len());
    assert(b.len() == head_b.len() + 1 + digits_b.len());
    if a == b {
        if digits_a.len() == digits_b.len() {
            assert(head_a.len() == head_b.len());
            assert forall|i: int| 0 <= i < digits_a.len() implies digits_a[i] == digits_b[i] by {
                assert(a[head_a.len() + 1 + i] == digits_a[i]);
                assert(b[head_b.len() + 1 + i] == digits_b[i]);
            }
            assert(digits_a =~= digits_b);
        } else if digits_a.len() < digits_b.len() {
            let at = head_a.len() as int;
            assert(a[at] == '_');
            assert(b[at] == digits_b[at - head_b.len() - 1]);
        } else {
            let at = head_b.len() as int;
            assert(b[at] == '_');
            assert(a[at] == digits_a[at - head_a.len() - 1]);
        }
    }
}

} // verus!
