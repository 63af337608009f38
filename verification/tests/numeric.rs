use desktop_postflop::numeric::{
    decode, equity_to_reward, is_empty, normalized_weights, total, weighted_average, Stored,
};

fn plus(a: f64, b: f64) -> f64 {
    a + b
}

fn times(a: f64, b: f64) -> f64 {
    a * b
}

fn over(a: f64, b: f64) -> f64 {
    a / b
}

fn positive(a: f64) -> bool {
    a > 0.0
}

fn zero(a: f64) -> bool {
    a == 0.0
}

#[test]
fn total_adds_in_order() {
    assert_eq!(total(&vec![], 0.0, &plus), 0.0);
    assert_eq!(total(&vec![0.5, 0.25, 2.0], 0.0, &plus), 2.75);
    // left to right: (((0 + 1e16) + 1) + 1) differs from 1e16 + (1 + 1)
    assert_eq!(total(&vec![1e16, 1.0, 1.0], 0.0, &plus), 1e16);
    assert_eq!(total(&vec![1, 2, 3, 4], 0, &|a: i64, b: i64| a + b), 10);
}

#[test]
fn emptiness_means_every_weight_is_zero() {
    assert!(is_empty(&vec![], &zero));
    assert!(is_empty(&vec![0.0, 0.0], &zero));
    assert!(!is_empty(&vec![0.0, 1e-9], &zero));
    assert!(!is_empty(&vec![0.3, 0.0], &zero));
}

#[test]
fn weighted_average_divides_by_the_weights() {
    let average = weighted_average(&vec![1.0, 3.0], &vec![1.0, 3.0], 0.0, &times, &plus, &over);
    assert_eq!(average, 2.5);
    let average = weighted_average(&vec![0.5, 9.0], &vec![2.0, 0.0], 0.0, &times, &plus, &over);
    assert_eq!(average, 0.5);
    // the longer list is cut at the end of the shorter one
    let average =
        weighted_average(&vec![1.0, 3.0, 100.0], &vec![1.0, 1.0], 0.0, &times, &plus, &over);
    assert_eq!(average, 2.0);
    let average =
        weighted_average(&vec![1.0, 3.0], &vec![1.0, 1.0, 50.0], 0.0, &times, &plus, &over);
    assert_eq!(average, 2.0);
    // no weight at all: zero by zero
    assert!(weighted_average(&vec![1.0], &vec![0.0], 0.0, &times, &plus, &over).is_nan());
    assert!(weighted_average(&vec![], &vec![], 0.0, &times, &plus, &over).is_nan());
}

// Cards are 4 * rank + suit. Board: 2c 3c 4c = 0, 4, 8.
fn board() -> Vec<u8> {
    vec![0, 4, 8]
}

#[test]
fn uniform_ranges_without_collisions_keep_their_weights() {
    let weights_oop = vec![0.5, 0.5];
    let weights_ip = vec![0.5, 0.5];
    let hands_oop = vec![(48, 49), (50, 51)];
    let hands_ip = vec![(40, 41), (42, 43)];
    let (oop, ip) = normalized_weights(
        &weights_oop, &weights_ip, &hands_oop, &hands_ip, &board(), 0.0, &positive, &times, &plus,
    );
    assert_eq!(oop, weights_oop);
    assert_eq!(ip, weights_ip);
}

#[test]
fn colliding_hands_do_not_count_together() {
    let weights_oop = vec![1.0, 2.0, 4.0];
    let weights_ip = vec![8.0, 16.0];
    // oop hand 1 shares the card 41 with ip hand 0; oop hand 2 holds a card
    // of the board.
    let hands_oop = vec![(48, 49), (41, 50), (8, 51)];
    let hands_ip = vec![(40, 41), (42, 43)];
    let (oop, ip) = normalized_weights(
        &weights_oop, &weights_ip, &hands_oop, &hands_ip, &board(), 0.0, &positive, &times, &plus,
    );
    assert_eq!(oop, vec![1.0 * 8.0 + 1.0 * 16.0, 2.0 * 16.0, 0.0]);
    assert_eq!(ip, vec![1.0 * 8.0, 1.0 * 16.0 + 2.0 * 16.0]);
}

#[test]
fn hands_without_weight_do_not_count() {
    let weights_oop = vec![0.0, 3.0];
    let weights_ip = vec![5.0, -1.0, 7.0];
    let hands_oop = vec![(48, 49), (50, 51)];
    let hands_ip = vec![(40, 41), (42, 43), (44, 45)];
    let (oop, ip) = normalized_weights(
        &weights_oop, &weights_ip, &hands_oop, &hands_ip, &board(), 0.0, &positive, &times, &plus,
    );
    assert_eq!(oop, vec![0.0, 36.0]);
    assert_eq!(ip, vec![15.0, 0.0, 21.0]);
}

#[test]
fn normalized_weights_add_up_to_the_same() {
    // whole numbers, so that every sum is exact
    let weights_oop = vec![1.0, 2.0, 3.0, 0.0, 5.0];
    let weights_ip = vec![7.0, 11.0, 13.0, 17.0];
    let hands_oop = vec![(48, 49), (41, 50), (8, 51), (20, 21), (42, 44)];
    let hands_ip = vec![(40, 41), (42, 43), (44, 45), (48, 4)];
    let (oop, ip) = normalized_weights(
        &weights_oop, &weights_ip, &hands_oop, &hands_ip, &board(), 0.0, &positive, &times, &plus,
    );
    let mass_oop = total(&oop, 0.0, &plus);
    let mass_ip = total(&ip, 0.0, &plus);
    assert_eq!(mass_oop, mass_ip);
    // pairs that count: (0,0) (0,1) (0,2) (1,1) (1,2) (4,0)
    assert_eq!(mass_oop, 7.0 + 11.0 + 13.0 + 22.0 + 26.0 + 35.0);
}

#[test]
fn empty_ranges_normalize_to_nothing() {
    let none: Vec<f64> = vec![];
    let (oop, ip) = normalized_weights(
        &none, &vec![1.0], &vec![], &vec![(1, 2)], &board(), 0.0, &positive, &times, &plus,
    );
    assert!(oop.is_empty());
    assert_eq!(ip, vec![0.0]);
}

#[test]
fn compressed_tables_are_decoded() {
    let number = |raw: i32| raw as f64;
    let dense = Stored::Dense(vec![0.25, 0.75]);
    assert_eq!(decode(&dense, 65535, &number, &times, &over), vec![0.25, 0.75]);
    let packed = Stored::Compressed { raw: vec![0, 65535, 13107], scale: 0.5 };
    assert_eq!(decode(&packed, 65535, &number, &times, &over), vec![0.0, 0.5, 0.1]);
    let signed = Stored::Compressed { raw: vec![-32767, 32767, 0], scale: 10.0 };
    assert_eq!(decode(&signed, 32767, &number, &times, &over), vec![-10.0, 10.0, 0.0]);
}

#[test]
fn equity_to_reward_divides_by_the_share_of_the_pot() {
    let negligible = |equity: f64| equity < 5e-7;
    let eqr = equity_to_reward(
        &vec![30.0, 10.0, 5.0, 0.0, -2.0],
        &vec![0.5, 0.25, 4e-7, 0.0, 0.0],
        40.0,
        0.0,
        &negligible,
        &times,
        &over,
    );
    assert_eq!(eqr[0], 1.5);
    assert_eq!(eqr[1], 1.0);
    assert_eq!(eqr[2], f64::INFINITY);
    assert!(eqr[3].is_nan());
    assert_eq!(eqr[4], f64::NEG_INFINITY);
    assert_eq!(eqr.len(), 5);
    let short = equity_to_reward(&vec![1.0, 2.0], &vec![1.0], 1.0, 0.0, &negligible, &times, &over);
    assert_eq!(short, vec![1.0]);
}

#[test]
fn sums_that_round_may_differ() {
    // With sums that round on the way, the two players' normalized weights
    // need not add up to the same: the last digit depends on the order.
    let plus = |a: f32, b: f32| a + b;
    let times = |a: f32, b: f32| a * b;
    let positive = |a: f32| a > 0.0;
    let hands_oop = vec![(48, 49), (50, 51), (46, 47)];
    let hands_ip = vec![(40, 41), (42, 43), (44, 45)];
    let (oop, ip) = normalized_weights(
        &vec![0.1, 0.1, 0.1],
        &vec![0.1, 0.3, 0.3],
        &hands_oop,
        &hands_ip,
        &board(),
        0.0,
        &positive,
        &times,
        &plus,
    );
    let mass_oop = total(&oop, 0.0, &plus);
    let mass_ip = total(&ip, 0.0, &plus);
    assert_ne!(mass_oop, mass_ip);
    assert!((mass_oop - mass_ip).abs() < 1e-6);
}
