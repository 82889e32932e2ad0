use vulgate::adder::Adder;
use vulgate::constant::Constant;
use vulgate::multiplier::Multiplier;
use vulgate::propagate::{AlreadyConnected, Connector, Contradiction, Network};

const USER: usize = 0;
const OTHER: usize = 1;

fn cell(net: &mut Network) -> usize {
    net.add_connector(Connector::new())
}

#[test]
fn adder_infers_sum_from_addends() {
    let mut net = Network::new();
    let a1 = cell(&mut net);
    let a2 = cell(&mut net);
    let sum = cell(&mut net);
    Adder::new(&mut net, a1, a2, sum);
    assert!(net.set_value(a1, 1, USER).is_ok());
    assert!(net.set_value(a2, 2, USER).is_ok());
    assert_eq!(net.connector(sum).get_value(), Some(3));
}

#[test]
fn adder_result_independent_of_input_order() {
    let mut one = Network::new();
    let a1 = cell(&mut one);
    let a2 = cell(&mut one);
    let sum = cell(&mut one);
    Adder::new(&mut one, a1, a2, sum);
    assert!(one.set_value(a1, 8, USER).is_ok());
    assert!(one.set_value(a2, -3, USER).is_ok());

    let mut two = Network::new();
    let b1 = cell(&mut two);
    let b2 = cell(&mut two);
    let bsum = cell(&mut two);
    Adder::new(&mut two, b1, b2, bsum);
    assert!(two.set_value(b2, -3, USER).is_ok());
    assert!(two.set_value(b1, 8, USER).is_ok());

    assert_eq!(one.connector(sum).get_value(), Some(5));
    assert_eq!(two.connector(bsum).get_value(), Some(5));
}

#[test]
fn adder_infers_missing_addend() {
    let mut net = Network::new();
    let mx = cell(&mut net);
    let b = cell(&mut net);
    let y = cell(&mut net);
    Adder::new(&mut net, mx, b, y);
    assert!(net.set_value(y, 10, USER).is_ok());
    assert!(net.set_value(b, 4, USER).is_ok());
    assert_eq!(net.connector(mx).get_value(), Some(6));
}

#[test]
fn adder_makes_no_inference_on_overflow() {
    let mut net = Network::new();
    let a1 = cell(&mut net);
    let a2 = cell(&mut net);
    let sum = cell(&mut net);
    Adder::new(&mut net, a1, a2, sum);
    assert!(net.set_value(a1, i64::MAX, USER).is_ok());
    assert!(net.set_value(a2, 1, USER).is_ok());
    assert!(!net.connector(sum).has_value());
}

#[test]
fn multiplier_zero_factor_forces_product() {
    let mut net = Network::new();
    let m1 = cell(&mut net);
    let m2 = cell(&mut net);
    let product = cell(&mut net);
    Multiplier::new(&mut net, m1, m2, product);
    assert!(net.set_value(m1, 0, USER).is_ok());
    assert!(!net.connector(m2).has_value());
    assert_eq!(net.connector(product).get_value(), Some(0));
}

#[test]
fn multiplier_zero_factor_against_nonzero_product_is_contradiction() {
    let mut net = Network::new();
    let m1 = cell(&mut net);
    let m2 = cell(&mut net);
    let product = cell(&mut net);
    Multiplier::new(&mut net, m1, m2, product);
    assert!(net.set_value(product, 5, USER).is_ok());
    let r = net.set_value(m2, 0, USER);
    assert_eq!(r, Err(Contradiction { current: 5, proposed: 0 }));
    // The factor itself was still recorded; only the product write conflicted.
    assert_eq!(net.connector(m2).get_value(), Some(0));
    assert_eq!(net.connector(product).get_value(), Some(5));
}

#[test]
fn multiplier_infers_product_and_factor() {
    let mut net = Network::new();
    let m1 = cell(&mut net);
    let m2 = cell(&mut net);
    let product = cell(&mut net);
    Multiplier::new(&mut net, m1, m2, product);
    assert!(net.set_value(m1, 6, USER).is_ok());
    assert!(net.set_value(m2, 7, USER).is_ok());
    assert_eq!(net.connector(product).get_value(), Some(42));
}

#[test]
fn multiplier_division_truncates_like_the_value_type() {
    let mut net = Network::new();
    let m1 = cell(&mut net);
    let m2 = cell(&mut net);
    let product = cell(&mut net);
    Multiplier::new(&mut net, m1, m2, product);
    assert!(net.set_value(product, -7, USER).is_ok());
    assert!(net.set_value(m1, 2, USER).is_ok());
    assert_eq!(net.connector(m2).get_value(), Some(-7 / 2));
    assert_eq!(net.connector(m2).get_value(), Some(-3));
}

#[test]
fn setting_same_value_twice_is_idempotent() {
    let mut net = Network::new();
    let c = cell(&mut net);
    assert!(net.set_value(c, 11, USER).is_ok());
    assert!(net.set_value(c, 11, OTHER).is_ok());
    assert_eq!(net.connector(c).get_value(), Some(11));
}

#[test]
fn setting_different_value_is_contradiction_and_keeps_state() {
    let mut net = Network::new();
    let c = cell(&mut net);
    assert!(net.set_value(c, 5, USER).is_ok());
    let r = net.set_value(c, 7, USER);
    assert_eq!(r, Err(Contradiction { current: 5, proposed: 7 }));
    assert_eq!(net.connector(c).get_value(), Some(5));
}

#[test]
fn forgetting_with_wrong_informer_is_noop() {
    let mut net = Network::new();
    let c = cell(&mut net);
    assert!(net.set_value(c, 9, USER).is_ok());
    net.forget_value(c, OTHER);
    assert_eq!(net.connector(c).get_value(), Some(9));
    net.forget_value(c, USER);
    assert!(!net.connector(c).has_value());
}

#[test]
fn connecting_same_constraint_twice_fails_without_duplicate() {
    let mut c = Connector::new();
    assert_eq!(c.connect(3), Ok(()));
    assert_eq!(c.connect(3), Err(AlreadyConnected));
    assert_eq!(c.constraints.len(), 1);
    assert_eq!(c.connect(4), Ok(()));
    assert_eq!(c.constraints.len(), 2);
}

#[test]
fn constant_asserts_its_value_at_construction() {
    let mut net = Network::new();
    let w = cell(&mut net);
    let id = Constant::new(&mut net, 9, w);
    assert!(id.is_ok());
    assert_eq!(net.connector(w).get_value(), Some(9));
}

#[test]
fn constant_against_conflicting_value_is_contradiction() {
    let mut net = Network::new();
    let c = cell(&mut net);
    assert!(net.set_value(c, 5, USER).is_ok());
    let r = Constant::new(&mut net, 7, c);
    assert_eq!(r, Err(Contradiction { current: 5, proposed: 7 }));
    assert_eq!(net.connector(c).get_value(), Some(5));
}

/// Builds the Celsius/Fahrenheit network: `c*w = u`, `v*x = u`, `v+y = f`,
/// with constants `w = 9`, `x = 5`, `y = 32`. Returns the network and the
/// indices of `(c, f, u, v, w, x, y)`.
fn celsius_network() -> (Network, [usize; 7]) {
    let mut net = Network::new();
    let c = cell(&mut net);
    let f = cell(&mut net);
    let u = cell(&mut net);
    let v = cell(&mut net);
    let w = cell(&mut net);
    let x = cell(&mut net);
    let y = cell(&mut net);
    Multiplier::new(&mut net, c, w, u);
    Multiplier::new(&mut net, v, x, u);
    Adder::new(&mut net, v, y, f);
    Constant::new(&mut net, 9, w).unwrap();
    Constant::new(&mut net, 5, x).unwrap();
    Constant::new(&mut net, 32, y).unwrap();
    (net, [c, f, u, v, w, x, y])
}

#[test]
fn celsius_network_infers_fahrenheit() {
    let (mut net, [c, f, u, v, _, _, _]) = celsius_network();
    assert!(net.set_value(c, 25, USER).is_ok());
    assert_eq!(net.connector(u).get_value(), Some(225));
    assert_eq!(net.connector(v).get_value(), Some(45));
    assert_eq!(net.connector(f).get_value(), Some(77));
}

#[test]
fn forgetting_the_input_retracts_only_what_was_inferred_from_it() {
    let (mut net, [c, f, u, v, w, x, y]) = celsius_network();
    assert!(net.set_value(c, 25, USER).is_ok());
    net.forget_value(c, USER);
    assert!(!net.connector(c).has_value());
    assert!(!net.connector(u).has_value());
    assert!(!net.connector(v).has_value());
    assert!(!net.connector(f).has_value());
    assert_eq!(net.connector(w).get_value(), Some(9));
    assert_eq!(net.connector(x).get_value(), Some(5));
    assert_eq!(net.connector(y).get_value(), Some(32));
}

#[test]
fn network_settles_again_after_retraction() {
    let (mut net, [c, f, _, _, _, _, _]) = celsius_network();
    assert!(net.set_value(c, 25, USER).is_ok());
    net.forget_value(c, USER);
    assert!(net.set_value(c, 30, USER).is_ok());
    assert_eq!(net.connector(f).get_value(), Some(86));
}
