//! The text of a trace line.
//!
//! A line names the file, the first and the last source line of the block,
//! and the block's identifier: `main.c {12, 15}: br_3`. Where the last line
//! is not known an underscore stands in its place: `main.c {12, _}: br_3`.

use vstd::prelude::*;
use vstd::string::*;

verus! {

/// The character of a decimal digit.
pub open spec fn digit(d: int) -> char {
    if d == 0 {
        '0'
    } else if d == 1 {
        '1'
    } else if d == 2 {
        '2'
    } else if d == 3 {
        '3'
    } else if d == 4 {
        '4'
    } else if d == 5 {
        '5'
    } else if d == 6 {
        '6'
    } else if d == 7 {
        '7'
    } else if d == 8 {
        '8'
    } else {
        '9'
    }
}

/// A number in decimal, without leading zeros.
pub open spec fn decimal(n: nat) -> Seq<char>
    decreases n,
{
    if n < 10 {
        seq![digit(n as int)]
    } else {
        decimal(n / 10).push(digit((n % 10) as int))
    }
}

/// The last source line of a block in a trace line: the number, or an
/// underscore where it is not known.
pub open spec fn end_text(end: Option<u32>) -> Seq<char> {
    match end {
        Some(line) => decimal(line as nat),
        None => seq!['_'],
    }
}

/// The trace line of the block `id`, which starts at line `start` of `file`.
pub open spec fn message_text(file: Seq<char>, start: u32, end: Option<u32>, id: u64) -> Seq<
    char,
> {
    file + seq![' ', '{'] + decimal(start as nat) + seq![',', ' '] + end_text(end) + seq![
        '}',
        ':',
        ' ',
        'b',
        'r',
        '_',
    ] + decimal(id as nat)
}

fn digit_str(d: u64) -> (text: &'static str)
    requires
        d < 10,
    ensures
        text@ == seq![digit(d as int)],
{
    proof {
        reveal_strlit("0");
        reveal_strlit("1");
        reveal_strlit("2");
        reveal_strlit("3");
        reveal_strlit("4");
        reveal_strlit("5");
        reveal_strlit("6");
        reveal_strlit("7");
        reveal_strlit("8");
        reveal_strlit("9");
    }
    let text = if d == 0 {
        "0"
    } else if d == 1 {
        "1"
    } else if d == 2 {
        "2"
    } else if d == 3 {
        "3"
    } else if d == 4 {
        "4"
    } else if d == 5 {
        "5"
    } else if d == 6 {
        "6"
    } else if d == 7 {
        "7"
    } else if d == 8 {
        "8"
    } else {
        "9"
    };
    assert(text@ =~= seq![digit(d as int)]);
    text
}

/// Appends `n` in decimal to `text`.
pub fn push_decimal(text: &mut String, n: u64)
    ensures
        final(text)@ == old(text)@ + decimal(n as nat),
    decreases n,
{
    if n >= 10 {
        push_decimal(text, n / 10);
    }
    text.append(digit_str(n % 10));
    assert(text@ =~= old(text)@ + decimal(n as nat));
}

/// Builds the trace line of a block.
pub fn format_message(file: &str, start: u32, end: Option<u32>, id: u64) -> (message: String)
    ensures
        message@ == message_text(file@, start, end, id),
{
    proof {
        reveal_strlit(" {");
        reveal_strlit(", ");
        reveal_strlit("_");
        reveal_strlit("}: br_");
    }
    let mut message = String::from_str(file);
    message.append(" {");
    push_decimal(&mut message, start as u64);
    message.append(", ");
    match end {
        Some(line) => push_decimal(&mut message, line as u64),
        None => message.append("_"),
    }
    message.append("}: br_");
    push_decimal(&mut message, id);
    assert(message@ =~= message_text(file@, start, end, id));
    message
}

} // verus!
