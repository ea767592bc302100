//! Names given to new files and folders: `file{n}.txt` and `folder {n}`.
use vstd::prelude::*;
use vstd::string::StringExecFns;

verus! {

/// The character of a decimal digit.
pub open spec fn digit_char(d: nat) -> char {
    if d == 0 {
        '0'
    } else if d == 1 {
        '1'
    } else if d == 2 {
        '2'
    } else if d == 3 {
        '3'
    } else if d == 4 {
        '4'
    } else if d == 5 {
        '5'
    } else if d == 6 {
        '6'
    } else if d == 7 {
        '7'
    } else if d == 8 {
        '8'
    } else {
        '9'
    }
}

/// `n` written in decimal, without leading zeros.
pub open spec fn decimal(n: nat) -> Seq<char>
    decreases n,
{
    if n < 10 {
        seq![digit_char(n)]
    } else {
        decimal(n / 10).push(digit_char(n % 10))
    }
}

/// The name of the `n`-th file made in a folder: `file{n}.txt`.
pub open spec fn file_name(n: nat) -> Seq<char> {
    seq!['f', 'i', 'l', 'e'] + decimal(n) + seq!['.', 't', 'x', 't']
}

/// The name of the `n`-th folder made in a folder: `folder {n}`.
pub open spec fn folder_name(n: nat) -> Seq<char> {
    seq!['f', 'o', 'l', 'd', 'e', 'r', ' '] + decimal(n)
}

fn digit_str(d: u128) -> (r: &'static str)
    requires
        d < 10,
    ensures
        r@ == seq![digit_char(d as nat)],
{
    proof {
        reveal_strlit("0");
        reveal_strlit("1");
        reveal_strlit("2");
        reveal_strlit("3");
        reveal_strlit("4");
        reveal_strlit("5");
        reveal_strlit("6");
        reveal_strlit("7");
        reveal_strlit("8");
        reveal_strlit("9");
    }
    if d == 0 {
        "0"
    } else if d == 1 {
        "1"
    } else if d == 2 {
        "2"
    } else if d == 3 {
        "3"
    } else if d == 4 {
        "4"
    } else if d == 5 {
        "5"
    } else if d == 6 {
        "6"
    } else if d == 7 {
        "7"
    } else if d == 8 {
        "8"
    } else {
        "9"
    }
}

/// `n` written in decimal.
pub fn decimal_string(n: u128) -> (r: String)
    ensures
        r@ == decimal(n as nat),
    decreases n,
{
    let mut s = if n < 10 {
        String::new()
    } else {
        decimal_string(n / 10)
    };
    s.append(digit_str(n % 10));
    s
}

/// The name for a new file in a folder that holds `count` files.
pub fn next_file_name(count: usize) -> (r: String)
    ensures
        r@ == file_name(count as nat + 1),
{
    let mut s = String::from_str("file");
    let number = decimal_string(count as u128 + 1);
    s.append(number.as_str());
    s.append(".txt");
    proof {
        reveal_strlit("file");
        reveal_strlit(".txt");
    }
    s
}

/// The name for a new folder in a folder that holds `count` subfolders.
pub fn next_folder_name(count: usize) -> (r: String)
    ensures
        r@ == folder_name(count as nat + 1),
{
    let mut s = String::from_str("folder ");
    let number = decimal_string(count as u128 + 1);
    s.append(number.as_str());
    proof {
        reveal_strlit("folder ");
    }
    s
}

} // verus!
