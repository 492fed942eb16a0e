//! Decimal text of numbers, for identifiers and messages.
use vstd::prelude::*;
use vstd::string::StringExecFns;

verus! {

/// The decimal digits of `value`, as `ToString` on `u64` writes them.
pub uninterp spec fn decimal_text(value: u64) -> Seq<char>;

/// The decimal digits of `value`, as `ToString` on `u128` writes them.
pub uninterp spec fn wide_decimal_text(value: u128) -> Seq<char>;

/// `value.to_string()` of std on a `u64`: the decimal digits of the number.
/// The contract claims only that the text depends on the value alone.
#[verifier::external_body]
pub(crate) fn decimal(value: u64) -> (text: String)
    ensures
        text@ == decimal_text(value),
{
    value.to_string()
}

/// `value.to_string()` of std on a `u128`: the decimal digits of the
/// number. The contract claims only that the text depends on the value
/// alone.
#[verifier::external_body]
pub(crate) fn wide_decimal(value: u128) -> (text: String)
    ensures
        text@ == wide_decimal_text(value),
{
    value.to_string()
}

/// The text of a signed number: its digits, after a minus sign when it is
/// negative.
pub open spec fn signed_decimal_text(value: int) -> Seq<char> {
    if value < 0 {
        "-"@ + decimal_text((-value) as u64)
    } else {
        decimal_text(value as u64)
    }
}

/// Writes a signed number as `ToString` on `i64` does.
pub(crate) fn signed_decimal(value: i64) -> (text: String)
    ensures
        text@ == signed_decimal_text(value as int),
{
    if value < 0 {
        let magnitude: u64 = if value == i64::MIN {
            9223372036854775808u64
        } else {
            (-value) as u64
        };
        let mut text = String::from_str("-");
        let digits = decimal(magnitude);
        text.append(digits.as_str());
        text
    } else {
        decimal(value as u64)
    }
}

} // verus!
