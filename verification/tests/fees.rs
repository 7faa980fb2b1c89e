//! Fee schedule computations.

use orderbook_rs::orderbook::fees::{FeeOverflow, FeeSchedule};

#[test]
fn test_fee_schedule_creation() {
    let schedule = FeeSchedule::new(-2, 5);
    assert_eq!(schedule.maker_fee_bps, -2);
    assert_eq!(schedule.taker_fee_bps, 5);
}

#[test]
fn test_zero_fee() {
    let schedule = FeeSchedule::zero_fee();
    assert!(schedule.is_zero_fee());
    assert_eq!(schedule.maker_fee_bps, 0);
    assert_eq!(schedule.taker_fee_bps, 0);
}

#[test]
fn test_taker_only() {
    let schedule = FeeSchedule::taker_only(10);
    assert_eq!(schedule.maker_fee_bps, 0);
    assert_eq!(schedule.taker_fee_bps, 10);
}

#[test]
fn test_maker_rebate() {
    let schedule = FeeSchedule::with_maker_rebate(3, 7);
    assert_eq!(schedule.maker_fee_bps, -3);
    assert_eq!(schedule.taker_fee_bps, 7);
    assert!(schedule.has_maker_rebate());
}

#[test]
fn test_calculate_taker_fee() {
    let schedule = FeeSchedule::new(-2, 5);
    let notional = 100_000_000; // $1,000 in cents

    // 5 bps of $1,000 = $0.50 = 50 cents
    let fee = schedule.calculate_fee(notional, false);
    assert_eq!(fee, 50_000); // 50,000 cents = $500 (assuming cents as base unit)
}

#[test]
fn test_calculate_maker_rebate() {
    let schedule = FeeSchedule::new(-2, 5);
    let notional = 100_000_000; // $1,000 in cents

    // -2 bps of $1,000 = -$0.20 = -20 cents
    let rebate = schedule.calculate_fee(notional, true);
    assert_eq!(rebate, -20_000); // -20,000 cents = -$200
}

#[test]
fn test_calculate_fee_notional_above_i128_max_keeps_sign_and_magnitude() {
    // A notional above i128::MAX previously cast to a negative i128, so a
    // taker fee came out negative (wrong sign) and a maker rebate positive.
    // Compute the magnitude in the u128 domain so the sign stays correct.
    let notional = u128::MAX; // far above i128::MAX
    let taker = FeeSchedule::new(0, 5);
    let taker_fee = taker.calculate_fee(notional, false);
    assert!(
        taker_fee > 0,
        "taker fee must stay positive, got {taker_fee}"
    );
    // Magnitude is u128::MAX * 5 / 10_000 (saturating mul caps at u128::MAX,
    // which still fits i128 after the divide).
    let expected = i128::try_from(u128::MAX.saturating_mul(5) / 10_000).unwrap_or(i128::MAX);
    assert_eq!(taker_fee, expected);

    let maker = FeeSchedule::new(-2, 5);
    let rebate = maker.calculate_fee(notional, true);
    assert!(rebate < 0, "maker rebate must stay negative, got {rebate}");
}

#[test]
fn test_calculate_fee_unchanged_for_realistic_inputs() {
    // The u128-domain computation must match the old behaviour for normal
    // notionals (both taker fee and maker rebate, including truncation).
    let schedule = FeeSchedule::new(-2, 5);
    assert_eq!(schedule.calculate_fee(100_000_000, false), 50_000);
    assert_eq!(schedule.calculate_fee(100_000_000, true), -20_000);
    // Non-multiple-of-10_000 notional: floor(15_003 * 5 / 10_000) = 7.
    assert_eq!(schedule.calculate_fee(15_003, false), 7);
    // Maker rebate truncates toward zero just like the old i128 path.
    assert_eq!(schedule.calculate_fee(15_003, true), -3);
}

#[test]
fn test_zero_fee_calculation() {
    let schedule = FeeSchedule::zero_fee();
    let notional = 100_000_000;

    assert_eq!(schedule.calculate_fee(notional, true), 0);
    assert_eq!(schedule.calculate_fee(notional, false), 0);
}

#[test]
fn test_large_notional() {
    let schedule = FeeSchedule::new(1, 1);
    let notional = u128::MAX / 10_000 - 1; // Safe large value

    let fee = schedule.calculate_fee(notional, false);
    assert!(fee > 0);
    assert!(fee < i128::MAX);
}

#[test]
fn test_edge_cases() {
    let schedule = FeeSchedule::new(-10_000, 10_000); // Maximum reasonable fees
    let notional = 10_000; // Small notional

    let maker_fee = schedule.calculate_fee(notional, true);
    let taker_fee = schedule.calculate_fee(notional, false);

    assert_eq!(maker_fee, -10_000); // -100% of notional
    assert_eq!(taker_fee, 10_000); // 100% of notional
}

#[test]
fn test_try_calculate_fee_realistic_inputs_matches_calculate_fee() {
    // The fallible variant is exact on realistic inputs and agrees with
    // the infallible path, including truncation-toward-zero rounding.
    let schedule = FeeSchedule::new(-2, 5);
    for notional in [0u128, 1, 15_003, 100_000_000, u128::MAX / 5] {
        for is_maker in [true, false] {
            let exact = schedule.try_calculate_fee(notional, is_maker);
            assert_eq!(exact, Ok(schedule.calculate_fee(notional, is_maker)));
        }
    }
    assert_eq!(schedule.try_calculate_fee(15_003, false), Ok(7));
    assert_eq!(schedule.try_calculate_fee(15_003, true), Ok(-3));
}

#[test]
fn test_try_calculate_fee_overflow_returns_error_with_fields() {
    let schedule = FeeSchedule::new(-2, 5);

    let taker_err = schedule.try_calculate_fee(u128::MAX, false);
    assert_eq!(
        taker_err,
        Err(FeeOverflow {
            notional: u128::MAX,
            bps: 5,
            max_guaranteed_exact_notional: u128::MAX / 5,
        })
    );

    // The maker leg reports the signed rate (-2), not its magnitude.
    let maker_err = schedule.try_calculate_fee(u128::MAX, true);
    assert_eq!(
        maker_err,
        Err(FeeOverflow {
            notional: u128::MAX,
            bps: -2,
            max_guaranteed_exact_notional: u128::MAX / 2,
        })
    );
}

#[test]
fn test_try_calculate_fee_ok_at_bound_err_above_bound() {
    let schedule = FeeSchedule::new(-2, 5);
    let taker_bound = FeeSchedule::max_guaranteed_exact_notional_for_bps(5);
    let maker_bound = FeeSchedule::max_guaranteed_exact_notional_for_bps(-2);

    // Exactly at the bound the fee is still exact and agrees with the
    // saturating path (which does not saturate there).
    let at_bound = schedule.try_calculate_fee(taker_bound, false);
    assert_eq!(at_bound, Ok(schedule.calculate_fee(taker_bound, false)));
    assert!(schedule.try_calculate_fee(taker_bound + 1, false).is_err());

    let at_maker_bound = schedule.try_calculate_fee(maker_bound, true);
    assert_eq!(
        at_maker_bound,
        Ok(schedule.calculate_fee(maker_bound, true))
    );
    assert!(schedule.try_calculate_fee(maker_bound + 1, true).is_err());
}

#[test]
fn test_try_calculate_fee_zero_bps_never_overflows() {
    let schedule = FeeSchedule::zero_fee();
    assert_eq!(schedule.try_calculate_fee(u128::MAX, false), Ok(0));
    assert_eq!(schedule.try_calculate_fee(u128::MAX, true), Ok(0));
}

#[test]
fn test_max_guaranteed_exact_notional_for_bps_values() {
    assert_eq!(
        FeeSchedule::max_guaranteed_exact_notional_for_bps(0),
        u128::MAX
    );
    assert_eq!(
        FeeSchedule::max_guaranteed_exact_notional_for_bps(1),
        u128::MAX
    );
    assert_eq!(
        FeeSchedule::max_guaranteed_exact_notional_for_bps(5),
        u128::MAX / 5
    );
    assert_eq!(
        FeeSchedule::max_guaranteed_exact_notional_for_bps(-2),
        u128::MAX / 2
    );
    assert_eq!(
        FeeSchedule::max_guaranteed_exact_notional_for_bps(i32::MIN),
        u128::MAX / 2_147_483_648
    );
}

#[test]
fn test_max_guaranteed_exact_notional_takes_min_of_both_legs() {
    assert_eq!(
        FeeSchedule::new(-2, 5).max_guaranteed_exact_notional(),
        u128::MAX / 5
    );
    assert_eq!(
        FeeSchedule::new(-7, 5).max_guaranteed_exact_notional(),
        u128::MAX / 7
    );
    assert_eq!(
        FeeSchedule::zero_fee().max_guaranteed_exact_notional(),
        u128::MAX
    );
}

#[test]
fn test_calculate_fee_saturates_to_documented_clamp() {
    // Above the guaranteed-exact bound, calculate_fee clamps to the
    // documented magnitude u128::MAX / 10_000, signed per bps.
    let schedule = FeeSchedule::new(-2, 5);
    let clamp = i128::try_from(u128::MAX / 10_000).unwrap_or(i128::MAX);
    assert_eq!(schedule.calculate_fee(u128::MAX, false), clamp);
    assert_eq!(schedule.calculate_fee(u128::MAX, true), -clamp);
}

#[test]
fn test_try_calculate_fee_rejects_conservatively_even_where_clamp_coincides() {
    // The bound is multiplication-safety, not a tight exactness frontier:
    // at notional 2^127 with 2 bps the product 2^128 overflows u128, so
    // try_calculate_fee rejects — yet the legacy clamp happens to equal
    // the true fee there, because floor((2^128 - 1) / 10_000) ==
    // floor(2^128 / 10_000) (2^128 mod 10_000 = 1456 >= 1). This pins the
    // documented "guaranteed exact is sufficient, not necessary" contract.
    let schedule = FeeSchedule::new(0, 2);
    let notional = 1u128 << 127;
    assert!(notional > FeeSchedule::max_guaranteed_exact_notional_for_bps(2));
    assert!(schedule.try_calculate_fee(notional, false).is_err());

    // Exact fee via a split that avoids the overflow: with
    // notional = q*10_000 + r, floor(notional*2/10_000) = q*2 +
    // floor(r*2/10_000).
    let q = notional / 10_000;
    let r = notional % 10_000;
    let exact = i128::try_from(q * 2 + (r * 2) / 10_000).unwrap_or(i128::MAX);
    // The clamp coincides with the exact value at this isolated point.
    assert_eq!(schedule.calculate_fee(notional, false), exact);
}

#[test]
fn test_fee_overflow_display_contains_values() {
    let schedule = FeeSchedule::new(0, 5);
    let Err(err) = schedule.try_calculate_fee(u128::MAX, false) else {
        panic!("expected overflow error");
    };
    let msg = err.to_text();
    assert!(msg.contains("fee overflow"), "message was: {msg}");
    assert!(msg.contains(&u128::MAX.to_string()), "message was: {msg}");
    assert!(msg.contains('5'), "message was: {msg}");
    assert!(
        msg.contains(&(u128::MAX / 5).to_string()),
        "message was: {msg}"
    );
}

#[test]
fn test_default() {
    let schedule = FeeSchedule::default();
    assert!(schedule.is_zero_fee());
}

