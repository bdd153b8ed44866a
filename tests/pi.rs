use chudnovsky::assemble::{can_assemble, zero_pad};
use chudnovsky::bf::BigFloat;
use chudnovsky::integer::Integer;
use chudnovsky::pi::{chudnovsky, pi_digits};
use chudnovsky::plan::PrecisionPlan;
use chudnovsky::reduce::{lane_bounds, lane_results, reduce, series_triple};
use chudnovsky::series::Triple;
use chudnovsky::splitter::{lane_triple, levels_of};

fn triple_text(t: &Triple) -> (String, String, String) {
    (t.p.to_decimal(), t.q.to_decimal(), t.g.to_decimal())
}

fn fraction_tail(s: &str, n: usize) -> &str {
    &s[s.len() - n..]
}

#[test]
fn hundred_digits_reference() {
    let pi = pi_digits(100, 1);
    assert_eq!(pi.len(), 102);
    assert!(pi.starts_with("3.14159265358979323846"));
    assert_eq!(fraction_tail(&pi, 10), "3421170679");
}

#[test]
fn ten_thousand_digits_reference() {
    let pi = pi_digits(10_000, 4);
    assert_eq!(pi.len(), 10_002);
    assert_eq!(fraction_tail(&pi, 10), "5256375678");
}

#[test]
fn shape_is_three_point_then_digits() {
    for d in [1u64, 2, 5, 14, 15, 29, 60, 137] {
        let pi = pi_digits(d, 1);
        assert!(pi.starts_with("3."));
        assert_eq!(pi.len() as u64, d + 2);
        assert!(pi[2..].chars().all(|c| c.is_ascii_digit()));
    }
}

#[test]
fn zero_digits_gives_integer_part_and_point() {
    assert_eq!(pi_digits(0, 1), "3.");
    assert_eq!(pi_digits(0, 8), "3.");
}

#[test]
fn one_digit() {
    assert_eq!(pi_digits(1, 1), "3.1");
}

#[test]
fn same_inputs_same_output() {
    assert_eq!(pi_digits(500, 3), pi_digits(500, 3));
    assert_eq!(chudnovsky(60), chudnovsky(60));
}

#[test]
fn output_does_not_depend_on_thread_count() {
    let one = pi_digits(1000, 1);
    for t in [0u64, 2, 3, 4, 7, 16, 71, 72, 1000] {
        assert_eq!(pi_digits(1000, t), one);
    }
}

#[test]
fn default_sixty_digits() {
    assert_eq!(
        chudnovsky(60),
        "3.141592653589793238462643383279502884197169399375105820974944"
    );
}

#[test]
fn shorter_output_is_a_prefix_up_to_the_guard_margin() {
    let short = pi_digits(200, 1);
    let long = pi_digits(300, 2);
    assert_eq!(&short[..192], &long[..192]);
}

#[test]
fn leaf_closed_form() {
    let t = Triple::leaf(1);
    assert_eq!(
        triple_text(&t),
        ("10939058860032000".to_string(), "-2793657715".to_string(), "5".to_string())
    );
    let t = Triple::leaf(2);
    // g = 7 * 3 * 11, q = g * (A + 2B), p = 8 * C^3 / 24
    assert_eq!(
        triple_text(&t),
        ("87512470880256000".to_string(), "254994357387".to_string(), "231".to_string())
    );
}

#[test]
fn merge_is_associative_on_lanes() {
    let l1 = lane_triple(0, 3);
    let l2 = lane_triple(3, 4);
    let l3 = lane_triple(4, 9);
    let a = l1.merge(&l2.merge(&l3));
    let b = l1.merge(&l2).merge(&l3);
    assert_eq!(triple_text(&a), triple_text(&b));
    assert_eq!(triple_text(&a), triple_text(&lane_triple(0, 9)));
}

#[test]
fn merge_is_not_commutative() {
    let l1 = lane_triple(0, 2);
    let l2 = lane_triple(2, 4);
    assert_ne!(triple_text(&l1.merge(&l2)), triple_text(&l2.merge(&l1)));
}

#[test]
fn identity_is_neutral() {
    let t = lane_triple(2, 6);
    assert_eq!(triple_text(&t.merge(&Triple::identity())), triple_text(&t));
    assert_eq!(triple_text(&Triple::identity().merge(&t)), triple_text(&t));
}

#[test]
fn splitting_matches_term_by_term_merging() {
    let mut acc = Triple::identity();
    for k in 1..=13u64 {
        acc = acc.merge(&Triple::leaf(k));
    }
    assert_eq!(triple_text(&lane_triple(0, 13)), triple_text(&acc));
}

#[test]
fn lanes_reduce_to_the_whole_range() {
    let whole = triple_text(&lane_triple(0, 20));
    for lanes in 1..=20u64 {
        let bounds = lane_bounds(20, lanes);
        let results = lane_results(&bounds);
        let r = reduce(&results, 0, results.len());
        assert_eq!(triple_text(&r), whole);
        assert_eq!(triple_text(&series_triple(20, lanes)), whole);
    }
}

#[test]
fn lane_bounds_partition() {
    assert_eq!(lane_bounds(10, 3), vec![0, 3, 6, 10]);
    assert_eq!(lane_bounds(8, 8), vec![0, 1, 2, 3, 4, 5, 6, 7, 8]);
    assert_eq!(lane_bounds(7, 1), vec![0, 7]);
}

#[test]
fn levels_are_ceil_log2_plus_one() {
    assert_eq!(levels_of(0), 1);
    assert_eq!(levels_of(1), 1);
    assert_eq!(levels_of(2), 2);
    assert_eq!(levels_of(3), 3);
    assert_eq!(levels_of(4), 3);
    assert_eq!(levels_of(5), 4);
    assert_eq!(levels_of(1024), 11);
    assert_eq!(levels_of(1025), 12);
}

#[test]
fn plan_for_hundred_digits() {
    let p = PrecisionPlan::new(100, 4);
    assert_eq!(p.iters_needed, 8);
    assert_eq!(p.depth, 4);
    assert_eq!(p.target_bit_precision, 348);
    assert_eq!(p.workers, 4);
    assert_eq!(PrecisionPlan::new(100, 50).workers, 8);
    assert_eq!(PrecisionPlan::new(100, 0).workers, 1);
}

#[test]
fn plan_for_zero_digits() {
    let p = PrecisionPlan::new(0, 4);
    assert_eq!(p.iters_needed, 0);
    assert_eq!(p.depth, 1);
    assert_eq!(p.target_bit_precision, 16);
    assert_eq!(p.workers, 0);
}

#[test]
fn plan_at_a_term_boundary() {
    assert_eq!(PrecisionPlan::new(14, 1).iters_needed, 1);
    assert_eq!(PrecisionPlan::new(15, 1).iters_needed, 2);
    assert_eq!(PrecisionPlan::new(1_000_000, 1).iters_needed, 70514);
}

#[test]
fn integer_arithmetic() {
    let a = Integer::from_u64(u64::MAX);
    let b = Integer::from_u64(3).negate();
    assert_eq!(a.mul(&a).to_decimal(), "340282366920938463426481119284349108225");
    assert_eq!(a.mul(&b).to_decimal(), "-55340232221128654845");
    assert_eq!(b.add(&Integer::from_u64(2)).to_decimal(), "-1");
    assert_eq!(b.add(&Integer::from_u64(3)).to_decimal(), "0");
    assert_eq!(b.add(&Integer::from_u64(10)).to_decimal(), "7");
    assert_eq!(a.add(&a).to_decimal(), "36893488147419103230");
}

#[test]
fn big_float_zero_and_set_ui() {
    let mut f = BigFloat::new();
    assert_eq!(f.sign(), 0);
    assert_eq!(f.exponent(), isize::MIN);
    assert!(f.limbs().is_empty());
    f.set_ui(1000);
    assert_eq!(f.exponent(), 10);
    assert_eq!(f.limbs(), &vec![1000u64 << 54]);
    f.set_ui(1);
    assert_eq!(f.exponent(), 1);
    assert_eq!(f.limbs(), &vec![1u64 << 63]);
    f.set_ui(usize::MAX);
    assert_eq!(f.exponent(), 64);
    assert_eq!(f.limbs(), &vec![u64::MAX]);
    f.set_ui(0);
    assert_eq!(f.exponent(), isize::MIN);
    assert!(f.limbs().is_empty());
}

#[test]
fn big_float_text() {
    let mut f = BigFloat::new();
    assert_eq!(f.to_text(), "0\n");
    f.set_ui(1000);
    assert_eq!(f.to_text(), "0x0.18014398509481984000p10\n");
    f.set_ui(1);
    assert_eq!(f.to_text(), "0x0.9223372036854775808p1\n");
    f.set_ui(0);
    assert_eq!(f.to_text(), "0\n");
}

#[test]
fn set_ui_twice_is_set_ui_once() {
    let mut f = BigFloat::new();
    f.set_ui(77);
    let mut g = BigFloat::new();
    g.set_ui(5);
    g.set_ui(77);
    assert_eq!(f.exponent(), g.exponent());
    assert_eq!(f.limbs(), g.limbs());
    assert_eq!(f.limbs(), &vec![77u64 << 57]);
    assert_eq!(f.exponent(), 7);
}

#[test]
fn zero_padding() {
    assert_eq!(zero_pad("42".to_string(), 5), "00042");
    assert_eq!(zero_pad("12345".to_string(), 3), "12345");
    assert_eq!(zero_pad(String::new(), 2), "00");
}

#[test]
fn series_prefixes_can_be_assembled() {
    for n in [0u64, 1, 2, 7, 30] {
        assert!(can_assemble(&series_triple(n, 3)));
    }
    assert!(can_assemble(&Triple::leaf(1)));
    // Q + A P = -(A + 1) + A = -1
    let negative_denominator = Triple {
        p: Integer::from_u64(1),
        q: Integer::from_u64(13591410).negate(),
        g: Integer::from_u64(1),
    };
    assert!(!can_assemble(&negative_denominator));
    let zero_p = Triple {
        p: Integer::from_u64(0),
        q: Integer::from_u64(5),
        g: Integer::from_u64(1),
    };
    assert!(!can_assemble(&zero_p));
}

#[test]
fn single_lane_reduces_to_itself() {
    let lanes = vec![lane_triple(0, 5)];
    assert_eq!(triple_text(&reduce(&lanes, 0, 1)), triple_text(&lanes[0]));
}
