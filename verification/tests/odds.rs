use genetic_algorithm::odds::{acceptance_odds, Odds};

fn odds(fitness: f32, peak: f32) -> Odds {
    acceptance_odds(fitness.to_bits(), peak.to_bits())
}

#[test]
fn odds_of_the_peak_are_one() {
    for peak in [4.0f32, 1.0, 0.1, 1.0e-40, 1.0e-45, f32::MAX, 1234.5678] {
        let weighed = odds(peak, peak);
        assert_eq!(weighed.numerator, weighed.denominator, "{}", peak);
        assert!(weighed.denominator > 0);
    }
}

#[test]
fn odds_of_zero_are_zero() {
    assert_eq!(odds(0.0, 4.0).numerator, 0);
    assert_eq!(odds(-0.0, 4.0).numerator, 0);
    assert_eq!(odds(0.0, 1.0e-45).numerator, 0);
}

#[test]
fn odds_of_halves_and_quarters() {
    assert_eq!(
        odds(2.0, 4.0),
        Odds {
            numerator: 0x4000_0000,
            denominator: 0x8000_0000
        }
    );
    assert_eq!(
        odds(1.0, 4.0),
        Odds {
            numerator: 0x2000_0000,
            denominator: 0x8000_0000
        }
    );
    assert_eq!(
        odds(3.0, 4.0),
        Odds {
            numerator: 0x6000_0000,
            denominator: 0x8000_0000
        }
    );
    assert_eq!(
        odds(4.0, 4.0),
        Odds {
            numerator: 0x8000_0000,
            denominator: 0x8000_0000
        }
    );
}

#[test]
fn denominator_is_the_scaled_significand_of_the_peak() {
    assert_eq!(odds(1.0, 3.0).denominator, 0xc000_0000);
    assert_eq!(odds(1.0, 3.0).numerator, 0x4000_0000);
    assert_eq!(odds(1.0, f32::MAX).denominator, 0xffff_ff00);
    // A subnormal peak has no hidden bit.
    assert_eq!(odds(f32::from_bits(1), f32::from_bits(3)), Odds {
        numerator: 256,
        denominator: 768
    });
}

#[test]
fn odds_far_below_the_peak_round_down() {
    // Ten binades below the peak: the two lowest bits of the scaled
    // significand are shifted out.
    assert_eq!(odds(1.0, 1024.0).numerator, 0x0020_0000);
    assert_eq!(odds(f32::from_bits(0x3f80_0001), 1024.0).numerator, 0x0020_0000);
    assert_eq!(odds(f32::from_bits(0x3f80_0003), 1024.0).numerator, 0x0020_0000);
    assert_eq!(odds(f32::from_bits(0x3f80_0004), 1024.0).numerator, 0x0020_0001);
    // Thirty-one binades: one bit is left.
    assert_eq!(odds(1.0, 2147483648.0).numerator, 1);
    // Thirty-two binades and more: nothing is left.
    assert_eq!(odds(1.0, 4294967296.0).numerator, 0);
    assert_eq!(odds(1.0, f32::MAX).numerator, 0);
    assert_eq!(odds(1.0e-45, f32::MAX).numerator, 0);
}

#[test]
fn odds_near_the_peak_are_the_quotient() {
    let peaks: [f32; 5] = [4.0, 3.0, 1234.5678, 0.7, 1.0e-38];
    let shares: [f32; 6] = [1.0, 0.999, 0.75, 0.3, 0.01, 0.004];
    for peak in peaks {
        for share in shares {
            let fitness = peak * share;
            let weighed = odds(fitness, peak);
            // Both sides are exact in double precision: the products of a
            // 32-bit integer and a 24-bit significand.
            assert_eq!(
                f64::from(weighed.numerator) * f64::from(peak),
                f64::from(weighed.denominator) * f64::from(fitness),
                "{} {}",
                fitness,
                peak
            );
        }
    }
}

#[test]
fn odds_never_exceed_the_quotient_and_miss_it_by_less_than_one_step() {
    let peaks: [f32; 4] = [4.0, 1234.5678, 1.0e30, f32::MAX];
    let candidates: [f32; 8] = [0.0, 1.0e-45, 1.0e-20, 1.0e-3, 0.3, 1.0, 3.999, 4.0];
    for peak in peaks {
        for fitness in candidates {
            let weighed = odds(fitness, peak);
            let quotient = f64::from(fitness) / f64::from(peak);
            let ratio = f64::from(weighed.numerator) / f64::from(weighed.denominator);
            let next = (f64::from(weighed.numerator) + 1.0) / f64::from(weighed.denominator);
            assert!(weighed.numerator <= weighed.denominator);
            assert!(ratio <= quotient, "{} {}", fitness, peak);
            assert!(quotient < next, "{} {}", fitness, peak);
        }
    }
}
