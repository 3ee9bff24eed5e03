use vstd::prelude::*;
use vstd::string::StringExecFns;
use crate::decimal::{append_natural, decimal_nat};

verus! {

/// The line that signs a drawing: the name of the bot, then which of all the
/// seeds the drawing was made from. Seeds are counted from one, so the seed
/// `n` is printed as `n + 1`, out of two to the power of 64.
pub open spec fn signature(seed: u64) -> Seq<char> {
    "bridget-bot "@ + decimal_nat((seed + 1) as nat) + "/"@ + decimal_nat(
        0x1_0000_0000_0000_0000,
    )
}

/// The line that signs a drawing made from `seed`.
pub fn signature_text(seed: u64) -> (text: String)
    ensures
        text@ == signature(seed),
{
    let printed_max: u128 = u64::MAX as u128 + 1;
    let printed_seed: u128 = seed as u128 + 1;

    let mut text = String::from_str("bridget-bot ");
    append_natural(&mut text, printed_seed);
    text.append("/");
    append_natural(&mut text, printed_max);
    text
}

} // verus!
