use vstd::prelude::*;
use vstd::string::*;
use ethers::types::U256;
use crate::shrink::be_nat;
use crate::text::{str_equals, str_starts_with};

verus! {

/// Why a numeric base could not be settled.
#[derive(Debug, Clone, PartialEq, Eq)]
pub enum BaseError {
    /// The named input base is neither decimal nor hexadecimal.
    UnknownInputBase(String),
    /// The input reads as a decimal number, so it could be either base.
    AmbiguousInputBase,
    /// The named output base is neither decimal nor hexadecimal.
    UnknownOutputBase(String),
    /// The numeric output base is neither 10 nor 16.
    UnknownOutputRadix(u32),
}

/// The sentence that describes an error.
pub open spec fn message_of(e: BaseError) -> Seq<char> {
    match e {
        BaseError::UnknownInputBase(b) => "Unknown input base: "@ + b@,
        BaseError::AmbiguousInputBase => "Could not autodetect input base: input could be decimal or hexadecimal. Please prepend with 0x if the input is hexadecimal, or specify a --base-in parameter."@,
        BaseError::UnknownOutputBase(_) => "Provided base is not a valid."@,
        BaseError::UnknownOutputRadix(n) => "Unknown output base: "@ + dec_string(n as nat),
    }
}

impl BaseError {
    /// A sentence that describes the error.
    pub fn message(&self) -> (r: String)
        ensures
            r@ == message_of(*self),
    {
        match self {
            BaseError::UnknownInputBase(b) => String::from_str("Unknown input base: ").concat(b.as_str()),
            BaseError::AmbiguousInputBase => String::from_str("Could not autodetect input base: input could be decimal or hexadecimal. Please prepend with 0x if the input is hexadecimal, or specify a --base-in parameter."),
            BaseError::UnknownOutputBase(_) => String::from_str("Provided base is not a valid."),
            BaseError::UnknownOutputRadix(n) => String::from_str("Unknown output base: ").concat(u32_decimal(*n).as_str()),
        }
    }
}

/// The base that a base name stands for: 10 for "10" or "dec", 16 for "16" or "hex".
pub open spec fn base_of_name(s: Seq<char>) -> Option<u32> {
    if s == "10"@ || s == "dec"@ {
        Some(10)
    } else if s == "16"@ || s == "hex"@ {
        Some(16)
    } else {
        None
    }
}

/// Reads a base name.
pub fn base_from_name(s: &str) -> (r: Option<u32>)
    ensures
        r == base_of_name(s@),
{
    if str_equals(s, "10") || str_equals(s, "dec") {
        Some(10)
    } else if str_equals(s, "16") || str_equals(s, "hex") {
        Some(16)
    } else {
        None
    }
}

/// The output base named by `base_out`.
pub fn det_base_out(base_out: &str) -> (r: Result<u32, BaseError>)
    ensures
        base_of_name(base_out@) is Some ==> r == Ok::<u32, BaseError>(base_of_name(base_out@)->0),
        base_of_name(base_out@) is None ==> r is Err && r->Err_0 is UnknownOutputBase
            && r->Err_0->UnknownOutputBase_0@ == base_out@,
{
    match base_from_name(base_out) {
        Some(b) => Ok(b),
        None => Err(BaseError::UnknownOutputBase(String::from_str(base_out))),
    }
}

/// Whether `c` is a decimal digit.
pub open spec fn is_dec_digit(c: char) -> bool {
    '0' <= c <= '9'
}

/// The number that a string of decimal digits spells.
pub open spec fn dec_value(s: Seq<char>) -> nat
    decreases s.len(),
{
    if s.len() == 0 {
        0
    } else {
        dec_value(s.drop_last()) * 10 + (s.last() as nat - '0' as nat) as nat
    }
}

/// Whether `s` reads as a 256-bit unsigned decimal number (the empty string reads as zero).
pub open spec fn dec_u256(s: Seq<char>) -> bool {
    (forall|i: int| 0 <= i < s.len() ==> is_dec_digit(#[trigger] s[i])) && dec_value(s) < pow2_256()
}

/// Two to the power 256.
pub open spec fn pow2_256() -> nat {
    vstd::arithmetic::power2::pow2(256)
}

/// Whether `c` is a hexadecimal digit, in either case.
pub open spec fn is_hex_digit(c: char) -> bool {
    ('0' <= c <= '9') || ('a' <= c <= 'f') || ('A' <= c <= 'F')
}

/// Whether `s` reads as a 256-bit unsigned hexadecimal number: after an
/// optional "0x", at most 64 hexadecimal digits (none reads as zero).
pub open spec fn hex_u256(s: Seq<char>) -> bool {
    let t = if s.len() >= 2 && s.subrange(0, 2) == "0x"@ { s.subrange(2, s.len() as int) } else { s };
    t.len() <= 64 && forall|i: int| 0 <= i < t.len() ==> is_hex_digit(#[trigger] t[i])
}

/// Relies on `U256::from_str_radix` of ethers' re-export of the uint crate:
/// radix 10 takes a string of decimal digits whose number fits 256 bits,
/// radix 16 at most 64 hexadecimal digits after an optional "0x".
#[verifier::external_body]
fn u256_parses(value: &str, radix: u32) -> (r: bool)
    requires
        radix == 10 || radix == 16,
    ensures
        radix == 10 ==> r == dec_u256(value@),
        radix == 16 ==> r == hex_u256(value@),
{
    U256::from_str_radix(value, radix).is_ok()
}

/// The decimal digit of a number below ten.
pub open spec fn digit_char(d: nat) -> char {
    (d + '0' as nat) as char
}

/// The lower-case hexadecimal digit of a number below sixteen.
pub open spec fn hex_char(d: nat) -> char {
    if d < 10 { (d + '0' as nat) as char } else { (d - 10 + 'a' as nat) as char }
}

/// The decimal digits of `n`, without leading zeros.
pub open spec fn dec_string(n: nat) -> Seq<char>
    decreases n,
{
    if n < 10 {
        seq![digit_char(n)]
    } else {
        dec_string(n / 10).push(digit_char(n % 10))
    }
}

/// The lower-case hexadecimal digits of `n`, without leading zeros.
pub open spec fn hex_string(n: nat) -> Seq<char>
    decreases n,
{
    if n < 16 {
        seq![hex_char(n)]
    } else {
        hex_string(n / 16).push(hex_char(n % 16))
    }
}

/// Relies on the `Display` of ethers' `U256`: the decimal digits of the
/// number, without leading zeros.
#[verifier::external_body]
fn u256_decimal(b: &[u8; 32]) -> (r: String)
    ensures
        r@ == dec_string(be_nat(b@)),
{
    U256::from_big_endian(b).to_string()
}

/// Relies on the `LowerHex` of ethers' `U256`: lower-case hexadecimal digits
/// without leading zeros, after "0x".
#[verifier::external_body]
fn u256_hex(b: &[u8; 32]) -> (r: String)
    ensures
        r@ == "0x"@ + hex_string(be_nat(b@)),
{
    format!("0x{:x}", U256::from_big_endian(b))
}

/// Whether the base of `value` can be settled: a base is named, or `value`
/// has a "0x" prefix or reads as a decimal or hexadecimal number.
pub open spec fn base_detectable(value: Seq<char>, base_in: Option<Seq<char>>) -> bool {
    base_in is Some || (value.len() >= 2 && value.subrange(0, 2) == "0x"@) || dec_u256(value) || hex_u256(value)
}

/// The input base of `value`: the named base if one is given; otherwise 16
/// for a "0x" prefix; otherwise an error where `value` reads as a decimal
/// number, and 16 where it reads only as a hexadecimal one.
pub open spec fn base_in_of(value: Seq<char>, base_in: Option<Seq<char>>) -> Result<u32, ()> {
    match base_in {
        Some(b) => match base_of_name(b) {
            Some(n) => Ok(n),
            None => Err(()),
        },
        None => if value.len() >= 2 && value.subrange(0, 2) == "0x"@ {
            Ok(16)
        } else if dec_u256(value) {
            Err(())
        } else {
            Ok(16)
        },
    }
}

/// Settles the base of an input number whose base can be settled.
pub fn det_base_in(value: &str, base_in: Option<String>) -> (r: Result<u32, BaseError>)
    requires
        base_detectable(value@, match base_in { Some(b) => Some(b@), None => None }),
    ensures
        ({
            let name = match base_in { Some(b) => Some(b@), None => None };
            &&& base_in_of(value@, name) is Ok ==> r == Ok::<u32, BaseError>(base_in_of(value@, name)->Ok_0)
            &&& base_in_of(value@, name) is Err ==> r is Err && (match base_in {
                Some(b) => r->Err_0 is UnknownInputBase && r->Err_0->UnknownInputBase_0@ == b@,
                None => r->Err_0 is AmbiguousInputBase,
            })
        }),
{
    match base_in {
        Some(b) => match base_from_name(b.as_str()) {
            Some(n) => Ok(n),
            None => Err(BaseError::UnknownInputBase(b)),
        },
        None => {
            proof {
                reveal_strlit("0x");
            }
            if str_starts_with(value, "0x") {
                Ok(16)
            } else if u256_parses(value, 10) {
                Err(BaseError::AmbiguousInputBase)
            } else {
                Ok(16)
            }
        },
    }
}

/// Writes a 256-bit number, given as 32 big-endian bytes, in base 10 or 16.
pub fn format_uint(val: &[u8; 32], base_out: u32) -> (r: Result<String, BaseError>)
    ensures
        base_out == 10 ==> r is Ok && r->Ok_0@ == dec_string(be_nat(val@)),
        base_out == 16 ==> r is Ok && r->Ok_0@ == "0x"@ + hex_string(be_nat(val@)),
        base_out != 10 && base_out != 16 ==> r == Err::<String, BaseError>(BaseError::UnknownOutputRadix(base_out)),
{
    if base_out == 10 {
        Ok(u256_decimal(val))
    } else if base_out == 16 {
        Ok(u256_hex(val))
    } else {
        Err(BaseError::UnknownOutputRadix(base_out))
    }
}

fn digit_string(d: u32) -> (r: String)
    requires
        d < 10,
    ensures
        r@ == seq![digit_char(d as nat)],
{
    let r = match d {
        0 => String::from_str("0"),
        1 => String::from_str("1"),
        2 => String::from_str("2"),
        3 => String::from_str("3"),
        4 => String::from_str("4"),
        5 => String::from_str("5"),
        6 => String::from_str("6"),
        7 => String::from_str("7"),
        8 => String::from_str("8"),
        _ => String::from_str("9"),
    };
    proof {
        reveal_strlit("0");
        reveal_strlit("1");
        reveal_strlit("2");
        reveal_strlit("3");
        reveal_strlit("4");
        reveal_strlit("5");
        reveal_strlit("6");
        reveal_strlit("7");
        reveal_strlit("8");
        reveal_strlit("9");
        assert(r@ =~= seq![digit_char(d as nat)]);
    }
    r
}

/// The decimal digits of a number, without leading zeros.
pub fn u32_decimal(n: u32) -> (r: String)
    ensures
        r@ == dec_string(n as nat),
    decreases n,
{
    if n < 10 {
        digit_string(n)
    } else {
        let head = u32_decimal(n / 10);
        let r = head.concat(digit_string(n % 10).as_str());
        assert(r@ =~= dec_string(n as nat));
        r
    }
}

} // verus!
