use binomial_tree::instruments::{AmericanOption, EuropeanOption, OptionType};

fn subtract(a: u32, b: u32) -> u32 {
    (f32::from_bits(a) - f32::from_bits(b)).to_bits()
}

fn maximum(a: u32, b: u32) -> u32 {
    f32::from_bits(a).max(f32::from_bits(b)).to_bits()
}

fn bits(x: f32) -> u32 {
    x.to_bits()
}

#[test]
fn test_american() {
    let option = AmericanOption { option_type: OptionType::Put, strike: bits(50.0), expiry: bits(0.5) };

    assert_eq!(option.intrinsic_value(bits(30.0), subtract, maximum), bits(20.0));
    assert_eq!(option.intrinsic_value(bits(60.0), subtract, maximum), bits(0.0));
    assert_eq!(option.value(bits(10.0), bits(30.0), subtract, maximum), bits(20.0));
    assert_eq!(option.value(bits(30.0), bits(40.0), subtract, maximum), bits(30.0));
    assert_eq!(option.value(bits(40.0), bits(30.0), subtract, maximum), bits(40.0));
    // Exercising at 10 pays 40, which beats holding on at 20.
    assert_eq!(option.value(bits(20.0), bits(10.0), subtract, maximum), bits(40.0));
}

#[test]
fn test_european() {
    let option = EuropeanOption { option_type: OptionType::Put, strike: bits(50.0), expiry: bits(0.5) };

    assert_eq!(option.intrinsic_value(bits(30.0), subtract, maximum), bits(20.0));
    assert_eq!(option.intrinsic_value(bits(60.0), subtract, maximum), bits(0.0));
    assert_eq!(option.value(bits(10.0), bits(30.0)), bits(10.0));
    assert_eq!(option.value(bits(30.0), bits(40.0)), bits(30.0));
    assert_eq!(option.value(bits(40.0), bits(30.0)), bits(40.0));
    assert_eq!(option.value(bits(20.0), bits(10.0)), bits(20.0));
}

#[test]
fn test_option_getters() {
    let american = AmericanOption::new(OptionType::Call, bits(95.0), bits(0.5));
    assert_eq!(american.strike(), bits(95.0));
    assert_eq!(american.expiry(), bits(0.5));
    assert!(matches!(american.option_type(), OptionType::Call));
    let european = EuropeanOption::new(OptionType::Put, bits(52.0), bits(2.0));
    assert_eq!(european.strike(), bits(52.0));
    assert_eq!(european.expiry(), bits(2.0));
    assert!(matches!(european.option_type(), OptionType::Put));
}

#[test]
fn test_intrinsic_call_side() {
    let option = AmericanOption::new(OptionType::Call, bits(95.0), bits(0.5));
    assert_eq!(option.intrinsic_value(bits(100.0), subtract, maximum), bits(5.0));
    assert_eq!(option.intrinsic_value(bits(90.0), subtract, maximum), bits(0.0));
}
