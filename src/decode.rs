//! Displaying the raw result of a call according to the output mode.
use vstd::prelude::*;
use vstd::utf8::{decode_utf8, valid_utf8};
use crate::text::string_of;

verus! {

/// The raw result of a call, as read back from the return slot.
pub enum RawResult {
    /// The return type was void: nothing was written.
    Nothing,
    /// A signed 64-bit integer.
    Int(i64),
    /// A signed 8-bit character code.
    Char(i8),
    /// A C string: `None` for a null pointer, else the bytes before its NUL.
    Text(Option<Vec<u8>>),
}

/// The bytes of a returned string are not valid UTF-8.
#[derive(Clone, Copy, Debug, PartialEq, Eq, Structural)]
pub struct DecodeError;

pub open spec fn digit_char(d: nat) -> char {
    if d == 0 {
        '0'
    } else if d == 1 {
        '1'
    } else if d == 2 {
        '2'
    } else if d == 3 {
        '3'
    } else if d == 4 {
        '4'
    } else if d == 5 {
        '5'
    } else if d == 6 {
        '6'
    } else if d == 7 {
        '7'
    } else if d == 8 {
        '8'
    } else {
        '9'
    }
}

/// The decimal digits of `n`, most significant first, without leading zeros.
pub open spec fn nat_digits(n: nat) -> Seq<char>
    decreases n,
{
    if n < 10 {
        seq![digit_char(n)]
    } else {
        nat_digits(n / 10).push(digit_char(n % 10))
    }
}

/// The decimal text of an integer, with a leading `-` when negative.
pub open spec fn decimal(v: int) -> Seq<char> {
    if v < 0 {
        seq!['-'] + nat_digits((-v) as nat)
    } else {
        nat_digits(v as nat)
    }
}

fn digit_of_value(d: u64) -> (r: char)
    requires
        d < 10,
    ensures
        r == digit_char(d as nat),
{
    if d == 0 {
        '0'
    } else if d == 1 {
        '1'
    } else if d == 2 {
        '2'
    } else if d == 3 {
        '3'
    } else if d == 4 {
        '4'
    } else if d == 5 {
        '5'
    } else if d == 6 {
        '6'
    } else if d == 7 {
        '7'
    } else if d == 8 {
        '8'
    } else {
        '9'
    }
}

fn push_digits(n: u64, out: &mut Vec<char>)
    ensures
        final(out)@ == old(out)@ + nat_digits(n as nat),
    decreases n,
{
    if n >= 10 {
        push_digits(n / 10, out);
    }
    out.push(digit_of_value(n % 10));
    proof {
        if n >= 10 {
            assert(old(out)@ + nat_digits(n as nat) =~= (old(out)@ + nat_digits((n / 10) as nat)).push(
                digit_char((n % 10) as nat),
            ));
        } else {
            assert(old(out)@ + nat_digits(n as nat) =~= old(out)@.push(digit_char(n as nat)));
        }
    }
}

/// The decimal text of a signed 64-bit integer.
pub fn format_int(v: i64) -> (r: String)
    ensures
        r@ == decimal(v as int),
{
    let mut out: Vec<char> = Vec::new();
    if v < 0 {
        out.push('-');
        let m: u64 = if v == i64::MIN {
            0x8000_0000_0000_0000
        } else {
            (-v) as u64
        };
        push_digits(m, &mut out);
        assert(out@ =~= seq!['-'] + nat_digits((-(v as int)) as nat));
    } else {
        push_digits(v as u64, &mut out);
        assert(out@ =~= nat_digits(v as nat));
    }
    string_of(out.as_slice())
}

/// Relies on `String::from_utf8`: succeeds exactly on valid UTF-8, and then
/// holds the decoded characters.
#[verifier::external_body]
fn utf8_string(b: Vec<u8>) -> (r: Option<String>)
    ensures
        r is Some <==> valid_utf8(b@),
        r matches Some(s) ==> s@ == decode_utf8(b@),
{
    String::from_utf8(b).ok()
}

/// What a null string pointer displays as.
pub open spec fn null_text() -> Seq<char> {
    seq!['(', 'N', 'u', 'l', 'l', 'S', 't', 'r', 'i', 'n', 'g', ')']
}

/// The display of a call's raw result: `()` for nothing, decimal for
/// integers and characters, the text of a string or `(NullString)`.
pub fn format_result(raw: RawResult) -> (r: Result<String, DecodeError>)
    ensures
        raw is Nothing ==> (r matches Ok(s) && s@ == seq!['(', ')']),
        raw matches RawResult::Int(v) ==> (r matches Ok(s) && s@ == decimal(v as int)),
        raw matches RawResult::Char(c) ==> (r matches Ok(s) && s@ == decimal(c as int)),
        raw matches RawResult::Text(None) ==> (r matches Ok(s) && s@ == null_text()),
        raw matches RawResult::Text(Some(b)) ==> (r is Ok <==> valid_utf8(b@)) && (r matches Ok(
            s,
        ) ==> s@ == decode_utf8(b@)),
{
    match raw {
        RawResult::Nothing => {
            let v = vec!['(', ')'];
            Ok(string_of(v.as_slice()))
        },
        RawResult::Int(v) => Ok(format_int(v)),
        RawResult::Char(c) => Ok(format_int(c as i64)),
        RawResult::Text(None) => {
            let v = vec!['(', 'N', 'u', 'l', 'l', 'S', 't', 'r', 'i', 'n', 'g', ')'];
            let r = string_of(v.as_slice());
            assert(r@ =~= null_text());
            Ok(r)
        },
        RawResult::Text(Some(b)) => match utf8_string(b) {
            Some(s) => Ok(s),
            None => Err(DecodeError),
        },
    }
}

} // verus!
