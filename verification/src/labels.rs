//! Label text for grid cells and structure fields: a verified decimal
//! formatter and the label composition the renderer shows in each cell.

use vstd::prelude::*;
use vstd::string::StringExecFns;

verus! {

/// The decimal digit character for `d`.
pub open spec fn spec_digit_char(d: int) -> char {
    if d == 0 {
        '0'
    } else if d == 1 {
        '1'
    } else if d == 2 {
        '2'
    } else if d == 3 {
        '3'
    } else if d == 4 {
        '4'
    } else if d == 5 {
        '5'
    } else if d == 6 {
        '6'
    } else if d == 7 {
        '7'
    } else if d == 8 {
        '8'
    } else {
        '9'
    }
}

/// The decimal digit string of `n`: no sign, no leading zeros, and "0" for 0.
pub open spec fn spec_decimal(n: nat) -> Seq<char>
    decreases n,
{
    if n < 10 {
        seq![spec_digit_char(n as int)]
    } else {
        spec_decimal(n / 10).push(spec_digit_char((n % 10) as int))
    }
}

/// The decimal string of `n`, with a leading '-' when `n` is negative.
pub open spec fn spec_decimal_signed(n: int) -> Seq<char> {
    if n < 0 {
        seq!['-'] + spec_decimal((-n) as nat)
    } else {
        spec_decimal(n as nat)
    }
}

/// One decimal digit as text.
fn digit_str(d: u64) -> (r: &'static str)
    requires
        d < 10,
    ensures
        r@ =~= seq![spec_digit_char(d as int)],
{
    proof {
        reveal_strlit("0");
        reveal_strlit("1");
        reveal_strlit("2");
        reveal_strlit("3");
        reveal_strlit("4");
        reveal_strlit("5");
        reveal_strlit("6");
        reveal_strlit("7");
        reveal_strlit("8");
        reveal_strlit("9");
    }
    if d == 0 {
        "0"
    } else if d == 1 {
        "1"
    } else if d == 2 {
        "2"
    } else if d == 3 {
        "3"
    } else if d == 4 {
        "4"
    } else if d == 5 {
        "5"
    } else if d == 6 {
        "6"
    } else if d == 7 {
        "7"
    } else if d == 8 {
        "8"
    } else {
        "9"
    }
}

/// The decimal text of `n`.
pub fn u64_to_string(n: u64) -> (r: String)
    ensures
        r@ == spec_decimal(n as nat),
    decreases n,
{
    if n < 10 {
        digit_str(n).to_owned()
    } else {
        let mut s = u64_to_string(n / 10);
        let d = digit_str(n % 10);
        s.append(d);
        proof {
            assert(s@ =~= spec_decimal(n as nat));
        }
        s
    }
}

/// The decimal text of `n`, signed.
pub fn i64_to_string(n: i64) -> (r: String)
    requires
        n as int > i64::MIN as int,
    ensures
        r@ == spec_decimal_signed(n as int),
{
    if n < 0 {
        proof {
            reveal_strlit("-");
        }
        let mut s = "-".to_owned();
        let d = u64_to_string((-n) as u64);
        s.append(d.as_str());
        proof {
            assert(s@ =~= spec_decimal_signed(n as int));
        }
        s
    } else {
        u64_to_string(n as u64)
    }
}

/// The label a grid cell carries: the level's display name, a space, and the
/// cell index.
pub fn cell_label(level_name: &str, index: i64) -> (r: String)
    requires
        index as int > i64::MIN as int,
    ensures
        r@ == level_name@ + seq![' '] + spec_decimal_signed(index as int),
{
    proof {
        reveal_strlit(" ");
    }
    let mut s = level_name.to_owned();
    s.append(" ");
    let d = i64_to_string(index);
    s.append(d.as_str());
    proof {
        assert(s@ =~= level_name@ + seq![' '] + spec_decimal_signed(index as int));
    }
    s
}

/// Positional display name of field `i`: field 0 is "a", field 1 "b", and so
/// on through "z".
pub fn field_name(i: usize) -> (r: &'static str)
    requires
        i < 26,
    ensures
        r@.len() == 1,
        r@[0] as u32 == 'a' as u32 + i as u32,
{
    proof {
        reveal_strlit("a");
        reveal_strlit("b");
        reveal_strlit("c");
        reveal_strlit("d");
        reveal_strlit("e");
        reveal_strlit("f");
        reveal_strlit("g");
        reveal_strlit("h");
        reveal_strlit("i");
        reveal_strlit("j");
        reveal_strlit("k");
        reveal_strlit("l");
        reveal_strlit("m");
        reveal_strlit("n");
        reveal_strlit("o");
        reveal_strlit("p");
        reveal_strlit("q");
        reveal_strlit("r");
        reveal_strlit("s");
        reveal_strlit("t");
        reveal_strlit("u");
        reveal_strlit("v");
        reveal_strlit("w");
        reveal_strlit("x");
        reveal_strlit("y");
        reveal_strlit("z");
    }
    match i {
        0 => "a",
        1 => "b",
        2 => "c",
        3 => "d",
        4 => "e",
        5 => "f",
        6 => "g",
        7 => "h",
        8 => "i",
        9 => "j",
        10 => "k",
        11 => "l",
        12 => "m",
        13 => "n",
        14 => "o",
        15 => "p",
        16 => "q",
        17 => "r",
        18 => "s",
        19 => "t",
        20 => "u",
        21 => "v",
        22 => "w",
        23 => "x",
        24 => "y",
        _ => "z",
    }
}

/// The structure-view line describing a padding span: the number of filler
/// bytes, as the host prints it.
pub fn padding_decl_line(len: usize) -> (r: String)
    ensures
        r@ == "_ : [u8;"@ + spec_decimal(len as nat)
            + "], // necessary padding for alignment"@,
{
    let mut s = "_ : [u8;".to_owned();
    let d = u64_to_string(len as u64);
    s.append(d.as_str());
    s.append("], // necessary padding for alignment");
    proof {
        assert(s@ =~= "_ : [u8;"@ + spec_decimal(len as nat)
            + "], // necessary padding for alignment"@);
    }
    s
}

} // verus!
