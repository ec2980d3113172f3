//! Human-readable rendering of decode errors (the text the command line prints).

use vstd::prelude::*;
use crate::model::ShimcacheError;

verus! {

/// The lowercase hexadecimal digit of `d` (`d < 16`).
pub open spec fn hex_char(d: nat) -> char {
    if d < 10 {
        ((d + 48) as u8) as char
    } else {
        ((d - 10 + 97) as u8) as char
    }
}

/// The decimal representation of `n`, without leading zeros.
pub open spec fn decimal(n: nat) -> Seq<char>
    decreases n,
{
    if n < 10 {
        seq![hex_char(n)]
    } else {
        decimal(n / 10) + seq![hex_char(n % 10)]
    }
}

/// The last `width` hexadecimal digits of `n`, zero-padded.
pub open spec fn hex_digits(n: nat, width: nat) -> Seq<char>
    decreases width,
{
    if width == 0 {
        Seq::empty()
    } else {
        hex_digits(n / 16, (width - 1) as nat) + seq![hex_char(n % 16)]
    }
}

/// The message of an error: the blob length in decimal, or the signature as eight lowercase
/// hexadecimal digits.
pub open spec fn error_message(e: ShimcacheError) -> Seq<char> {
    match e {
        ShimcacheError::TooShort { len } => "AppCompatCache blob too short: "@ + decimal(len as nat)
            + " bytes"@,
        ShimcacheError::UnknownSignature { signature } => "unknown AppCompatCache signature 0x"@
            + hex_digits(signature as nat, 8),
    }
}

fn digit_str(d: u32) -> (s: &'static str)
    requires
        d < 16,
    ensures
        s@ == seq![hex_char(d as nat)],
{
    proof {
        reveal_strlit("0");
        reveal_strlit("1");
        reveal_strlit("2");
        reveal_strlit("3");
        reveal_strlit("4");
        reveal_strlit("5");
        reveal_strlit("6");
        reveal_strlit("7");
        reveal_strlit("8");
        reveal_strlit("9");
        reveal_strlit("a");
        reveal_strlit("b");
        reveal_strlit("c");
        reveal_strlit("d");
        reveal_strlit("e");
        reveal_strlit("f");
    }
    let s = match d {
        0 => "0",
        1 => "1",
        2 => "2",
        3 => "3",
        4 => "4",
        5 => "5",
        6 => "6",
        7 => "7",
        8 => "8",
        9 => "9",
        10 => "a",
        11 => "b",
        12 => "c",
        13 => "d",
        14 => "e",
        _ => "f",
    };
    assert(s@ =~= seq![hex_char(d as nat)]);
    s
}

pub(crate) fn append_decimal(s: &mut String, n: usize)
    ensures
        final(s)@ == old(s)@ + decimal(n as nat),
    decreases n,
{
    if n >= 10 {
        append_decimal(s, n / 10);
    }
    s.append(digit_str((n % 10) as u32));
    assert(final(s)@ =~= old(s)@ + decimal(n as nat)) by {
        if n >= 10 {
            assert(old(s)@ + decimal((n / 10) as nat) + seq![hex_char((n % 10) as nat)]
                =~= old(s)@ + decimal(n as nat));
        }
    }
}

fn append_hex(s: &mut String, n: u32, width: u32)
    ensures
        final(s)@ == old(s)@ + hex_digits(n as nat, width as nat),
    decreases width,
{
    if width > 0 {
        append_hex(s, n / 16, width - 1);
        s.append(digit_str(n % 16));
        assert(final(s)@ =~= old(s)@ + hex_digits(n as nat, width as nat));
    } else {
        assert(final(s)@ =~= old(s)@ + hex_digits(n as nat, width as nat));
    }
}

impl ShimcacheError {
    /// The error's message, naming the offending value so an examiner can identify the blob.
    pub fn to_string(&self) -> (r: String)
        ensures
            r@ == error_message(*self),
    {
        match self {
            ShimcacheError::TooShort { len } => {
                let mut s = String::from_str("AppCompatCache blob too short: ");
                append_decimal(&mut s, *len);
                s.append(" bytes");
                s
            },
            ShimcacheError::UnknownSignature { signature } => {
                let mut s = String::from_str("unknown AppCompatCache signature 0x");
                append_hex(&mut s, *signature, 8);
                s
            },
        }
    }
}

} // verus!
