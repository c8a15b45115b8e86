use binomial_tree::binomial_tree_map::BinomialTreeStack;
use binomial_tree::dynamic::DynamicBinomialTreeMap;
use binomial_tree::model::{
    CoxRossRubenstein, Delta, EvaluatedBinomialTreeModelImpl, Gamma, Spot, Theta, Value,
    VolatilityParameters,
};
use binomial_tree::static_binomial_tree_map::StaticBinomialTreeMap;

fn multiply(a: u32, b: u32) -> u32 {
    (f32::from_bits(a) * f32::from_bits(b)).to_bits()
}

fn subtract(a: u32, b: u32) -> u32 {
    (f32::from_bits(a) - f32::from_bits(b)).to_bits()
}

fn divide(a: u32, b: u32) -> u32 {
    (f32::from_bits(a) / f32::from_bits(b)).to_bits()
}

#[allow(clippy::too_many_arguments)]
fn eval_with_stack<S: BinomialTreeStack>(
    stack: S,
    steps: usize,
    spot: f32,
    expiry: f32,
    vol: f32,
    rate: f32,
    div: f32,
    american: bool,
    call: bool,
    strike: f32,
) -> EvaluatedBinomialTreeModelImpl<S> {
    let time_step = expiry / steps as f32;
    let u = (vol * time_step.sqrt()).exp();
    let d = 1.0 / u;
    let a = ((rate - div) * time_step).exp();
    let discount = (-rate * time_step).exp();
    let p = (a - d) / (u - d);
    let params = VolatilityParameters::new(a.to_bits(), u.to_bits(), d.to_bits());
    let model = CoxRossRubenstein::new(
        stack,
        Spot(spot.to_bits()),
        params,
        discount.to_bits(),
        time_step.to_bits(),
    );
    let mut prices: Vec<Vec<u32>> = Vec::new();
    for i in 0..=steps {
        let mut level: Vec<u32> = Vec::new();
        for j in 0..=i {
            level.push((spot * u.powi(j as i32) * d.powi((i - j) as i32)).to_bits());
        }
        prices.push(level);
    }
    let combine = move |uv: u32, dv: u32| {
        ((f32::from_bits(uv) * p + f32::from_bits(dv) * (1.0 - p)) * discount).to_bits()
    };
    let node_value = move |cont: u32, price: u32| {
        if american {
            let pr = f32::from_bits(price);
            let intr = if call { (pr - strike).max(0.0) } else { (strike - pr).max(0.0) };
            intr.max(f32::from_bits(cont)).to_bits()
        } else {
            cont
        }
    };
    let payoff = move |price: u32| {
        let pr = f32::from_bits(price);
        (if call { (pr - strike).max(0.0) } else { (strike - pr).max(0.0) }).to_bits()
    };
    model.eval(&prices, combine, node_value, payoff)
}

#[allow(clippy::too_many_arguments)]
fn eval_static(
    steps: usize,
    spot: f32,
    expiry: f32,
    vol: f32,
    rate: f32,
    div: f32,
    american: bool,
    call: bool,
    strike: f32,
) -> EvaluatedBinomialTreeModelImpl<StaticBinomialTreeMap> {
    let stack = StaticBinomialTreeMap::with_capacity(steps);
    eval_with_stack(stack, steps, spot, expiry, vol, rate, div, american, call, strike)
}

#[test]
fn test_binomial_tree_european_call() {
    let ev = eval_static(2, 100.0, 0.5, 0.3, 0.05, 0.0, false, true, 95.0);
    assert_eq!(ev.value(), Value(12.3578f32.to_bits()));
    assert_eq!(ev.delta(multiply, subtract, divide), Delta(0.6599607f32.to_bits()));
}

#[test]
fn test_binomial_tree_european_call2() {
    let ev = eval_static(2, 810.0, 0.5, 0.2, 0.05, 0.02, false, true, 800.0);
    assert_eq!(ev.value(), Value(53.394733f32.to_bits()));
    assert_eq!(ev.delta(multiply, subtract, divide), Delta(0.5891357f32.to_bits()));
}

#[test]
fn test_binomial_tree_european_call3() {
    let ev = eval_static(3, 0.61, 0.25, 0.12, 0.05, 0.07, false, true, 0.6);
    assert_eq!(ev.value(), Value(0.018597357f32.to_bits()));
    assert_eq!(ev.delta(multiply, subtract, divide), Delta(0.6000447f32.to_bits()));
}

#[test]
fn test_binomial_tree_european_put1() {
    let ev = eval_static(2, 50.0, 2.0, 0.3, 0.05, 0.0, false, false, 52.0);
    assert_eq!(ev.value(), Value(6.2457113f32.to_bits()));
    assert_eq!(ev.delta(multiply, subtract, divide), Delta((-0.37732533f32).to_bits()));
}

#[test]
fn test_binomial_tree_american_put1() {
    let ev = eval_static(2, 50.0, 2.0, 0.3, 0.05, 0.0, true, false, 52.0);
    let greeks = ev.greeks(multiply, subtract, divide);
    assert_eq!(greeks.value, Value(7.428405f32.to_bits()));
    assert_eq!(greeks.delta, Delta((-0.4606061f32).to_bits()));
    assert_eq!(greeks.theta, Theta((-2.7142024f32).to_bits()));
    // Gamma per its finite-difference definition: the deltas at the two
    // depth-one nodes over the difference of their prices.
    assert_eq!(greeks.gamma, Gamma(0.03124078f32.to_bits()));
}

#[test]
fn test_binomial_tree_american_put2() {
    let ev = eval_static(3, 31.0, 0.75, 0.3, 0.05, 0.05, true, false, 30.0);
    assert_eq!(ev.value(), Value(2.8356347f32.to_bits()));
    assert_eq!(ev.delta(multiply, subtract, divide), Delta((-0.38601997f32).to_bits()));
}

#[test]
fn test_binomial_tree_american_put3() {
    let ev = eval_static(3, 60.0, 3.0 / 12.0, 0.45, 0.1, 0.00, true, false, 60.0);
    assert_eq!(ev.value(), Value(5.1627836f32.to_bits()));
    assert_eq!(ev.delta(multiply, subtract, divide), Delta((-0.43557432f32).to_bits()));
}

#[test]
fn test_binomial_tree_american_fut_call1() {
    // Notice r = q for futures.
    let ev = eval_static(3, 400.0, 9.0 / 12.0, 0.35, 0.06, 0.06, true, true, 420.0);
    assert_eq!(ev.value(), Value(42.06769f32.to_bits()));
    assert_eq!(ev.delta(multiply, subtract, divide), Delta(0.48716724f32.to_bits()));
}

#[test]
fn test_binomial_tree_american_put2_100steps() {
    let ev = eval_static(100, 31.0, 0.75, 0.3, 0.05, 0.05, true, false, 30.0);
    assert_eq!(ev.value(), Value(2.6043036f32.to_bits()));
    assert_eq!(ev.delta(multiply, subtract, divide), Delta((-0.38875455f32).to_bits()));
}

#[test]
fn test_value() {
    let val = eval_static(100, 100.0, 0.5, 0.3, 0.05, 0.0, true, true, 95.0).value();
    assert_eq!(val.0, 12.333031f32.to_bits());

    let val = eval_static(100, 100.0, 0.5, 0.3, 0.05, 0.0, false, false, 105.0).value();
    assert_eq!(val.0, 9.805331f32.to_bits());

    let greeks = eval_static(100, 100.0, 0.5, 0.3, 0.05, 0.0, true, true, 95.0).greeks(
        multiply, subtract, divide,
    );
    assert_eq!(greeks.delta.0, 0.6791013f32.to_bits());

    let greeks = eval_static(100, 100.0, 0.5, 0.3, 0.05, 0.0, false, false, 105.0).greeks(
        multiply, subtract, divide,
    );
    assert_eq!(greeks.delta.0, (-0.50278103f32).to_bits());
}

// Mark S. Joshi, "The Convergence of Binomial Trees For Pricing the American Put"
fn relative_error(tree_price: f32, true_price: f32, intrinsic_value: f32) -> f32 {
    (tree_price - true_price) / (0.5 + true_price - intrinsic_value)
}

fn eval_and_calculate_relative_error(steps: usize) -> f32 {
    let true_value = 12.329666;

    let val = {
        if steps > 128 {
            let stack = DynamicBinomialTreeMap::new(steps);
            let ev = eval_with_stack(stack, steps, 100.0, 0.5, 0.3, 0.05, 0.0, true, true, 95.0);
            f32::from_bits(ev.value().0)
        } else {
            let ev = eval_static(steps, 100.0, 0.5, 0.3, 0.05, 0.0, true, true, 95.0);
            f32::from_bits(ev.value().0)
        }
    };

    let intrinsic = (100.0f32 - 95.0).max(0.0);

    relative_error(val, true_value, intrinsic)
}

#[test]
fn test_backings_agree_bit_for_bit() {
    // The statically and the dynamically sized backings run the same
    // induction over the same kernels and must return identical bits.
    let scenarios: Vec<(usize, f32, f32, f32, f32, f32, bool, bool, f32)> = vec![
        (2, 100.0, 0.5, 0.3, 0.05, 0.0, false, true, 95.0),
        (3, 31.0, 0.75, 0.3, 0.05, 0.05, true, false, 30.0),
        (50, 100.0, 0.5, 0.3, 0.05, 0.0, true, true, 95.0),
    ];
    for (steps, spot, expiry, vol, rate, div, american, call, strike) in scenarios {
        let st = eval_static(steps, spot, expiry, vol, rate, div, american, call, strike);
        let dy = eval_with_stack(
            DynamicBinomialTreeMap::new(steps),
            steps,
            spot,
            expiry,
            vol,
            rate,
            div,
            american,
            call,
            strike,
        );
        assert_eq!(st.value(), dy.value());
        assert_eq!(
            st.greeks(multiply, subtract, divide),
            dy.greeks(multiply, subtract, divide)
        );
    }
}

#[test]
fn test_binomial_tree_american_call_convergence() {
    assert_eq!(eval_and_calculate_relative_error(11), -0.005980755);
    assert_eq!(eval_and_calculate_relative_error(51), 0.0036523752);
    assert_eq!(eval_and_calculate_relative_error(71), 0.0031288671);
    assert_eq!(eval_and_calculate_relative_error(101), 0.0013165652);
    assert_eq!(eval_and_calculate_relative_error(113), 0.0005097442);
    assert_eq!(eval_and_calculate_relative_error(127), -0.0003817296);
    assert_eq!(eval_and_calculate_relative_error(1001), 0.00057088915);
}
