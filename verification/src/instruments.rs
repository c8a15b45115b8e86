//! Vanilla option instruments and their exercise policies.
//!
//! An instrument is a call or a put with a strike and an expiry, either
//! American or European. Its payoff at expiry is the intrinsic value —
//! what exercising at the given underlying price pays — and its per-node
//! valuation rule combines a computed continuation value with that
//! intrinsic value: a European option passes the continuation value
//! through unchanged, an American option takes the greater of the two,
//! since it may be exercised early. Strike, expiry and every price are
//! single-precision bit patterns; the subtraction and maximum the payoff
//! needs come from the caller as kernels.

use vstd::prelude::*;

use crate::float_bits::F32_ZERO_BITS;
use crate::kernel::binary_kernel_total;

verus! {

/// Whether the option pays when the price rises above the strike (a call)
/// or falls below it (a put).
#[derive(Clone, Copy, Debug, PartialEq, Eq, Structural)]
pub enum OptionType {
    Put,
    Call,
}

/// Whether `pay` is an intrinsic value the kernels admit: the strike less
/// the price for a put, the price less the strike for a call, floored at
/// zero by the maximum kernel.
pub open spec fn intrinsic_rel<FS: Fn(u32, u32) -> u32, FM: Fn(u32, u32) -> u32>(
    option_type: OptionType,
    strike: u32,
    subtract: FS,
    maximum: FM,
    price: u32,
    pay: u32,
) -> bool {
    match option_type {
        OptionType::Put => exists|diff: u32|
            #[trigger] call_ensures(subtract, (strike, price), diff) && call_ensures(
                maximum,
                (diff, F32_ZERO_BITS),
                pay,
            ),
        OptionType::Call => exists|diff: u32|
            #[trigger] call_ensures(subtract, (price, strike), diff) && call_ensures(
                maximum,
                (diff, F32_ZERO_BITS),
                pay,
            ),
    }
}

/// Whether `r` is a value the American per-node rule admits: the greater,
/// by the maximum kernel, of an admissible intrinsic value at `price` and
/// the continuation value.
pub open spec fn american_value_rel<FS: Fn(u32, u32) -> u32, FM: Fn(u32, u32) -> u32>(
    option_type: OptionType,
    strike: u32,
    subtract: FS,
    maximum: FM,
    continuation: u32,
    price: u32,
    r: u32,
) -> bool {
    exists|pay: u32|
        #[trigger] intrinsic_rel(option_type, strike, subtract, maximum, price, pay)
            && call_ensures(maximum, (pay, continuation), r)
}

/// An option that may be exercised at any node: its value at a node is
/// the greater of exercising there and holding on.
pub struct AmericanOption {
    pub option_type: OptionType,
    pub strike: u32,
    pub expiry: u32,
}

impl AmericanOption {
    pub fn new(option_type: OptionType, strike: u32, expiry: u32) -> (r: AmericanOption)
        ensures
            r.option_type == option_type,
            r.strike == strike,
            r.expiry == expiry,
    {
        AmericanOption { option_type, strike, expiry }
    }

    pub fn expiry(&self) -> (r: u32)
        ensures
            r == self.expiry,
    {
        self.expiry
    }

    pub fn strike(&self) -> (r: u32)
        ensures
            r == self.strike,
    {
        self.strike
    }

    pub fn option_type(&self) -> (r: OptionType)
        ensures
            r == self.option_type,
    {
        self.option_type
    }

    /// What exercising at `price` pays: strike less price for a put,
    /// price less strike for a call, floored at zero.
    pub fn intrinsic_value<FS: Fn(u32, u32) -> u32 + Copy, FM: Fn(u32, u32) -> u32 + Copy>(
        &self,
        price: u32,
        subtract: FS,
        maximum: FM,
    ) -> (r: u32)
        requires
            binary_kernel_total(subtract),
            binary_kernel_total(maximum),
        ensures
            intrinsic_rel(self.option_type, self.strike, subtract, maximum, price, r),
    {
        match self.option_type {
            OptionType::Put => {
                let diff = subtract(self.strike, price);
                maximum(diff, F32_ZERO_BITS)
            },
            OptionType::Call => {
                let diff = subtract(price, self.strike);
                maximum(diff, F32_ZERO_BITS)
            },
        }
    }

    /// The per-node valuation rule: the greater of the intrinsic value at
    /// `price` and the continuation value.
    pub fn value<FS: Fn(u32, u32) -> u32 + Copy, FM: Fn(u32, u32) -> u32 + Copy>(
        &self,
        value: u32,
        price: u32,
        subtract: FS,
        maximum: FM,
    ) -> (r: u32)
        requires
            binary_kernel_total(subtract),
            binary_kernel_total(maximum),
        ensures
            american_value_rel(
                self.option_type,
                self.strike,
                subtract,
                maximum,
                value,
                price,
                r,
            ),
    {
        let payoff = self.intrinsic_value(price, subtract, maximum);
        maximum(payoff, value)
    }
}

/// An option that may be exercised only at expiry: its value at a node is
/// the continuation value, unchanged.
pub struct EuropeanOption {
    pub option_type: OptionType,
    pub strike: u32,
    pub expiry: u32,
}

impl EuropeanOption {
    pub fn new(option_type: OptionType, strike: u32, expiry: u32) -> (r: EuropeanOption)
        ensures
            r.option_type == option_type,
            r.strike == strike,
            r.expiry == expiry,
    {
        EuropeanOption { option_type, strike, expiry }
    }

    pub fn expiry(&self) -> (r: u32)
        ensures
            r == self.expiry,
    {
        self.expiry
    }

    pub fn strike(&self) -> (r: u32)
        ensures
            r == self.strike,
    {
        self.strike
    }

    pub fn option_type(&self) -> (r: OptionType)
        ensures
            r == self.option_type,
    {
        self.option_type
    }

    /// What exercising at expiry pays: strike less price for a put, price
    /// less strike for a call, floored at zero.
    pub fn intrinsic_value<FS: Fn(u32, u32) -> u32 + Copy, FM: Fn(u32, u32) -> u32 + Copy>(
        &self,
        price: u32,
        subtract: FS,
        maximum: FM,
    ) -> (r: u32)
        requires
            binary_kernel_total(subtract),
            binary_kernel_total(maximum),
        ensures
            intrinsic_rel(self.option_type, self.strike, subtract, maximum, price, r),
    {
        match self.option_type {
            OptionType::Put => {
                let diff = subtract(self.strike, price);
                maximum(diff, F32_ZERO_BITS)
            },
            OptionType::Call => {
                let diff = subtract(price, self.strike);
                maximum(diff, F32_ZERO_BITS)
            },
        }
    }

    /// The per-node valuation rule: the continuation value, unchanged.
    pub fn value(&self, value: u32, _price: u32) -> (r: u32)
        ensures
            r == value,
    {
        value
    }
}

} // verus!
