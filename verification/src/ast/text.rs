//! Text that the printer writes: indentation, numbers and names.

use vstd::prelude::*;
use vstd::string::*;

use super::{BinOp, Type};

verus! {

/// The indentation of a line at nesting depth `depth`: two spaces for
/// each level.
pub open spec fn indent(depth: nat) -> Seq<char>
    decreases depth,
{
    if depth == 0 {
        Seq::empty()
    } else {
        indent((depth - 1) as nat) + "  "@
    }
}

/// The character that writes a decimal digit.
pub open spec fn digit_char(digit: nat) -> char {
    if digit == 0 {
        '0'
    } else if digit == 1 {
        '1'
    } else if digit == 2 {
        '2'
    } else if digit == 3 {
        '3'
    } else if digit == 4 {
        '4'
    } else if digit == 5 {
        '5'
    } else if digit == 6 {
        '6'
    } else if digit == 7 {
        '7'
    } else if digit == 8 {
        '8'
    } else {
        '9'
    }
}

/// A natural number in decimal, without leading zeros.
pub open spec fn digits(number: nat) -> Seq<char>
    decreases number,
{
    if number < 10 {
        seq![digit_char(number)]
    } else {
        digits(number / 10).push(digit_char(number % 10))
    }
}

/// An integer in decimal, with a minus sign before a negative one.
pub open spec fn decimal(number: int) -> Seq<char> {
    if number < 0 {
        seq!['-'] + digits((-number) as nat)
    } else {
        digits(number as nat)
    }
}

/// The name of an operator.
pub open spec fn operator_label(op: BinOp) -> Seq<char> {
    match op {
        BinOp::Add => "Add"@,
        BinOp::Sub => "Sub"@,
        BinOp::Mul => "Mul"@,
        BinOp::Divide => "Divide"@,
    }
}

/// The name of a type.
pub open spec fn type_label(ty: Type) -> Seq<char> {
    match ty {
        Type::Unit => "Unit"@,
        Type::Int => "Int"@,
        Type::Boolean => "Boolean"@,
    }
}

/// The name of an operator.
pub fn operator_text(op: BinOp) -> (text: &'static str)
    ensures
        text@ == operator_label(op),
{
    match op {
        BinOp::Add => "Add",
        BinOp::Sub => "Sub",
        BinOp::Mul => "Mul",
        BinOp::Divide => "Divide",
    }
}

/// The name of a type.
pub fn type_text(ty: Type) -> (text: &'static str)
    ensures
        text@ == type_label(ty),
{
    match ty {
        Type::Unit => "Unit",
        Type::Int => "Int",
        Type::Boolean => "Boolean",
    }
}

/// A string that holds the indentation of depth `depth`.
pub fn indentation(depth: usize) -> (text: String)
    ensures
        text@ == indent(depth as nat),
{
    let mut text = String::new();
    let mut level: usize = 0;
    while level < depth
        invariant
            level <= depth,
            text@ == indent(level as nat),
        decreases depth - level,
    {
        text.append("  ");
        level += 1;
    }
    text
}

fn digit_text(digit: u32) -> (text: &'static str)
    requires
        digit < 10,
    ensures
        text@ == seq![digit_char(digit as nat)],
{
    proof {
        reveal_strlit("0");
        reveal_strlit("1");
        reveal_strlit("2");
        reveal_strlit("3");
        reveal_strlit("4");
        reveal_strlit("5");
        reveal_strlit("6");
        reveal_strlit("7");
        reveal_strlit("8");
        reveal_strlit("9");
    }
    let text = if digit == 0 {
        "0"
    } else if digit == 1 {
        "1"
    } else if digit == 2 {
        "2"
    } else if digit == 3 {
        "3"
    } else if digit == 4 {
        "4"
    } else if digit == 5 {
        "5"
    } else if digit == 6 {
        "6"
    } else if digit == 7 {
        "7"
    } else if digit == 8 {
        "8"
    } else {
        "9"
    };
    assert(text@ =~= seq![digit_char(digit as nat)]);
    text
}

fn append_digits(text: &mut String, number: u32)
    ensures
        final(text)@ == old(text)@ + digits(number as nat),
    decreases number,
{
    if number >= 10 {
        append_digits(text, number / 10);
    }
    text.append(digit_text(number % 10));
    proof {
        if number >= 10 {
            assert(old(text)@ + digits((number / 10) as nat) + seq![
                digit_char((number % 10) as nat),
            ] =~= old(text)@ + digits(number as nat));
        }
    }
}

/// Appends an integer in decimal.
pub fn append_decimal(text: &mut String, number: i32)
    ensures
        final(text)@ == old(text)@ + decimal(number as int),
{
    if number < 0 {
        proof {
            reveal_strlit("-");
        }
        text.append("-");
        let magnitude: u32 = (-(number as i64)) as u32;
        append_digits(text, magnitude);
        assert(old(text)@ + "-"@ + digits(magnitude as nat) =~= old(text)@ + decimal(
            number as int,
        ));
    } else {
        append_digits(text, number as u32);
    }
}

} // verus!
