//! How amounts are shown to a person.
use vstd::prelude::*;

verus! {

/// The text that `grin_core::core::amount_to_hr_string` gives for an amount and
/// a choice about trailing zeros.
pub uninterp spec fn amount_text(amount: u64, truncate: bool) -> Seq<char>;

/// Calls `grin_core::core::amount_to_hr_string`, which writes an amount of base
/// units as a decimal number of coins.
///
/// The contract names the text and says that it depends on the two arguments
/// alone. Which digits it holds is left unsaid: they come from a division of
/// floating-point numbers, and how many there are from a logarithm of one, which is
/// taken of a constant when the first amount is shown.
#[verifier::external_body]
pub(crate) fn amount_to_hr_string(amount: u64, truncate: bool) -> (text: String)
    ensures
        text@ == amount_text(amount, truncate),
{
    grin_core::core::amount_to_hr_string(amount, truncate)
}

} // verus!
