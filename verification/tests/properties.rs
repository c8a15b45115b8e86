use binomial_tree::model::{
    CoxRossRubenstein, EvaluatedBinomialTreeModelImpl, Spot, VolatilityParameters,
};
use binomial_tree::static_binomial_tree_map::StaticBinomialTreeMap;

fn multiply(a: u32, b: u32) -> u32 {
    (f32::from_bits(a) * f32::from_bits(b)).to_bits()
}

fn subtract(a: u32, b: u32) -> u32 {
    (f32::from_bits(a) - f32::from_bits(b)).to_bits()
}

fn divide(a: u32, b: u32) -> u32 {
    (f32::from_bits(a) / f32::from_bits(b)).to_bits()
}

#[allow(clippy::too_many_arguments)]
fn eval_static(
    steps: usize,
    spot: f32,
    expiry: f32,
    vol: f32,
    rate: f32,
    div: f32,
    american: bool,
    call: bool,
    strike: f32,
) -> EvaluatedBinomialTreeModelImpl<StaticBinomialTreeMap> {
    let stack = StaticBinomialTreeMap::with_capacity(steps);
    let time_step = expiry / steps as f32;
    let u = (vol * time_step.sqrt()).exp();
    let d = 1.0 / u;
    let a = ((rate - div) * time_step).exp();
    let discount = (-rate * time_step).exp();
    let p = (a - d) / (u - d);
    let params = VolatilityParameters::new(a.to_bits(), u.to_bits(), d.to_bits());
    let model = CoxRossRubenstein::new(
        stack,
        Spot(spot.to_bits()),
        params,
        discount.to_bits(),
        time_step.to_bits(),
    );
    let mut prices: Vec<Vec<u32>> = Vec::new();
    for i in 0..=steps {
        let mut level: Vec<u32> = Vec::new();
        for j in 0..=i {
            level.push((spot * u.powi(j as i32) * d.powi((i - j) as i32)).to_bits());
        }
        prices.push(level);
    }
    let combine = move |uv: u32, dv: u32| {
        ((f32::from_bits(uv) * p + f32::from_bits(dv) * (1.0 - p)) * discount).to_bits()
    };
    let node_value = move |cont: u32, price: u32| {
        if american {
            let pr = f32::from_bits(price);
            let intr = if call { (pr - strike).max(0.0) } else { (strike - pr).max(0.0) };
            intr.max(f32::from_bits(cont)).to_bits()
        } else {
            cont
        }
    };
    let payoff = move |price: u32| {
        let pr = f32::from_bits(price);
        (if call { (pr - strike).max(0.0) } else { (strike - pr).max(0.0) }).to_bits()
    };
    model.eval(&prices, combine, node_value, payoff)
}

#[test]
fn test_american_not_below_european() {
    // An early-exercise option can never be worth less than its European
    // twin on identical parameters.
    let scenarios: Vec<(usize, f32, f32, f32, f32, f32, bool, f32)> = vec![
        (2, 50.0, 2.0, 0.3, 0.05, 0.0, false, 52.0),
        (3, 31.0, 0.75, 0.3, 0.05, 0.05, false, 30.0),
        (2, 100.0, 0.5, 0.3, 0.05, 0.0, true, 95.0),
        (3, 400.0, 0.75, 0.35, 0.06, 0.06, true, 420.0),
        (25, 100.0, 1.0, 0.2, 0.03, 0.01, false, 110.0),
    ];
    for (steps, spot, expiry, vol, rate, div, call, strike) in scenarios {
        let american =
            f32::from_bits(eval_static(steps, spot, expiry, vol, rate, div, true, call, strike).value().0);
        let european =
            f32::from_bits(eval_static(steps, spot, expiry, vol, rate, div, false, call, strike).value().0);
        assert!(
            american >= european,
            "american {} fell below european {} on spot {} strike {}",
            american,
            european,
            spot,
            strike
        );
    }
}

#[test]
fn test_zero_steps_value_is_intrinsic() {
    // Over zero steps there is no optionality: the value is the payoff at
    // the spot, for either exercise style.
    let american = eval_static(0, 50.0, 2.0, 0.3, 0.05, 0.0, true, false, 52.0);
    assert_eq!(f32::from_bits(american.value().0), 2.0);
    let european = eval_static(0, 100.0, 0.5, 0.3, 0.05, 0.0, false, true, 95.0);
    assert_eq!(f32::from_bits(european.value().0), 5.0);
    let worthless = eval_static(0, 100.0, 0.5, 0.3, 0.05, 0.0, false, false, 95.0);
    assert_eq!(f32::from_bits(worthless.value().0), 0.0);
}

#[test]
fn test_read_idempotent() {
    // Reading an evaluated lattice mutates nothing: every repeated read
    // returns the identical bits.
    let ev = eval_static(3, 31.0, 0.75, 0.3, 0.05, 0.05, true, false, 30.0);
    assert_eq!(ev.value(), ev.value());
    let first = ev.greeks(multiply, subtract, divide);
    let second = ev.greeks(multiply, subtract, divide);
    assert_eq!(first, second);
    assert_eq!(ev.value(), first.value);
}

#[test]
fn test_degenerate_volatility_greeks_are_zero() {
    // With no volatility the up and down prices coincide, and the guarded
    // finite differences return zero instead of dividing by it.
    let ev = eval_static(2, 50.0, 2.0, 0.0, 0.05, 0.0, true, false, 52.0);
    let delta = ev.delta(multiply, subtract, divide);
    assert_eq!(f32::from_bits(delta.0), 0.0);
    let gamma = ev.gamma(multiply, subtract, divide);
    assert_eq!(f32::from_bits(gamma.0), 0.0);
}

#[test]
fn test_risk_neutral_probability() {
    let a = 1.0125784f32;
    let u = 1.1618342f32;
    let d = 1.0 / u;
    let params = VolatilityParameters::new(a.to_bits(), u.to_bits(), d.to_bits());
    let p = params.p(subtract, divide);
    assert_eq!(f32::from_bits(p), (a - d) / (u - d));
}

#[test]
fn test_converges_toward_analytical_value() {
    // The European call of the known scenario must land within 0.05 of
    // the Black-Scholes value 12.327911 once the lattice is fine enough.
    let ev = eval_static(100, 100.0, 0.5, 0.3, 0.05, 0.0, false, true, 95.0);
    let value = f32::from_bits(ev.value().0);
    assert!((value - 12.327911f32).abs() < 0.05, "lattice value {} strayed", value);
}
