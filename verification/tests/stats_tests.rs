use watermill::argmin::RollingArgMin;
use watermill::argmin::ArgMin;
use watermill::count::Count;
use watermill::covariance::Covariance;
use watermill::ewvariance::EWVariance;
use watermill::fewmean::FEWMean;
use watermill::kurtosis::Kurtosis;
use watermill::moments::CentralMoments;
use watermill::ewmean::EWMean;
use watermill::iqr::{RollingIQR, IQR};
use watermill::mean::Mean;
use watermill::minimum::{Min, RollingMin};
use watermill::maximum::{AbsMax, Max, RollingMax};
use watermill::ptp::{PeakToPeak, RollingPeakToPeak};
use watermill::quantile::{Quantile, RollingQuantile};
use watermill::rat::Rat;
use watermill::rolling::Rolling;
use watermill::sorted_window::SortedWindow;
use watermill::stats::{Bivariate, Error, Revertable, Univariate};
use watermill::sum::Sum;
use watermill::variance::Variance;

fn q(n: i64, d: i64) -> Rat {
    Rat::new(n, d).unwrap()
}

fn whole(n: i64) -> Rat {
    Rat::new(n, 1).unwrap()
}

#[test]
fn rolling_argmin_edge_case() {
    let mut rolling_argmin = RollingArgMin::new(3);
    let vec_test = vec![whole(1), whole(2), whole(3), whole(4), whole(1), whole(2), whole(3), q(3, 2)];
    let vec_rolling_argmin = vec![0i64, 1, 2, 0, 0, 1, 2, 0];
    for (test_value, truth) in vec_test.iter().zip(vec_rolling_argmin.iter()) {
        rolling_argmin.update(test_value);
        assert!(rolling_argmin.get().eq_val(&whole(*truth)));
    }
}

#[test]
fn rolling_iqr_edge_case() {
    let mut rolling_iqr = RollingIQR::new(&q(99, 100), &whole(1), 1).unwrap();
    for i in 0..=1000 {
        rolling_iqr.update(&whole(i));
        rolling_iqr.get();
    }
    assert!(rolling_iqr.get().eq_val(&whole(0)));
}

#[test]
fn min_default() {
    let mut min: Min = Default::default();
    min.update(&whole(1));
    assert!(min.get().eq_val(&whole(1)));
}

#[test]
fn it_works() {
    let data = vec![whole(9), whole(7), whole(3), whole(2), whole(6), whole(1), whole(8), whole(5), whole(4)];
    let running_var: Variance = Default::default();
    let mut rolling_var: Rolling<Variance> = Rolling::new(running_var, 2).unwrap();
    for x in data.iter() {
        rolling_var.update(x);
    }
    assert!(rolling_var.get().eq_val(&q(1, 2)));
}

#[test]
fn p2_median_of_nine() {
    let data = vec![whole(9), whole(7), whole(3), whole(2), whole(6), whole(1), whole(8), whole(5), whole(4)];
    let mut running_median = Quantile::new(&q(1, 2)).unwrap();
    for x in data.iter() {
        running_median.update(x);
    }
    assert!(running_median.get().eq_val(&whole(5)));
}

#[test]
fn mean_matches_arithmetic_mean_and_reverts_to_zero() {
    let mut mean = Mean::new();
    for i in 0..10 {
        mean.update(&whole(i));
    }
    assert!(mean.get().eq_val(&q(9, 2)));
    // revert in an order different from arrival
    for i in (0..10).rev() {
        mean.revert(&whole(i)).unwrap();
    }
    assert!(mean.get().eq_val(&whole(0)));
    let mut count = Count::new();
    count.update(&whole(7));
    count.revert(&whole(7)).unwrap();
    assert!(count.get().eq_val(&whole(0)));
    assert!(matches!(count.revert(&whole(7)), Err(Error::RevertUnderflow)));
}

#[test]
fn variance_matches_two_pass_formula() {
    let data = vec![whole(3), whole(5), whole(4), whole(7), whole(10), whole(12)];
    let mut running_variance: Variance = Default::default();
    for x in data.iter() {
        running_variance.update(x);
    }
    // two-pass: sum 41, sum of squares 343, n 6, ddof 1:
    // (343 - 41^2/6) / 5 = 377/30
    assert!(running_variance.get().eq_val(&q(377, 30)));
    for x in data.iter().rev() {
        running_variance.revert(x).unwrap();
    }
    assert!(running_variance.get().eq_val(&whole(0)));
}

#[test]
fn sum_and_revert() {
    let mut running_sum = Sum::new();
    for i in 1..10 {
        running_sum.update(&whole(i));
    }
    assert!(running_sum.get().eq_val(&whole(45)));
    for i in (1..10).rev() {
        running_sum.revert(&whole(i)).unwrap();
    }
    assert!(running_sum.get().eq_val(&whole(0)));
}

#[test]
fn sorted_window_keeps_sorted_permutation() {
    let mut w = SortedWindow::new(4);
    for x in [whole(3), whole(1), whole(4), whole(1), whole(5), whole(9), whole(2), whole(6)] {
        w.push_back(x);
    }
    // window now holds the last four arrivals: 5, 9, 2, 6
    assert_eq!(w.len(), 4);
    assert!(w.front().eq_val(&whole(2)));
    assert!(w.back().eq_val(&whole(9)));
    let mut prev = w.at_rank(0);
    for i in 1..4 {
        let cur = w.at_rank(i);
        assert!(prev.le(&cur));
        prev = cur;
    }
}

#[test]
fn constructor_boundaries() {
    assert!(matches!(Quantile::new(&q(-1, 10)), Err(Error::InvalidParameter)));
    assert!(matches!(Quantile::new(&q(11, 10)), Err(Error::InvalidParameter)));
    assert!(Quantile::new(&q(1, 2)).is_ok());
    assert!(matches!(IQR::new(&q(3, 4), &q(1, 4)), Err(Error::InvalidParameter)));
    assert!(matches!(IQR::new(&q(1, 2), &q(1, 2)), Err(Error::InvalidParameter)));
    assert!(IQR::new(&q(1, 4), &q(3, 4)).is_ok());
    assert!(matches!(Rolling::new(Sum::new(), 0), Err(Error::InvalidParameter)));
    assert!(matches!(
        RollingQuantile::new(&q(1, 2), 0),
        Err(Error::InvalidParameter)
    ));
    assert!(matches!(
        RollingIQR::new(&q(1, 4), &q(3, 4), 0),
        Err(Error::InvalidParameter)
    ));
}

#[test]
fn rolling_quantile_median_of_window() {
    let mut rq = RollingQuantile::new(&q(1, 2), 101).unwrap();
    for i in 0..=100 {
        rq.update(&whole(i));
    }
    assert!(rq.get().eq_val(&whole(50)));
}

#[test]
fn rolling_min_max_ptp() {
    let mut rmin = RollingMin::new(3);
    let mut rmax = RollingMax::new(3);
    let mut rptp = RollingPeakToPeak::new(3);
    for i in 1..10 {
        rmin.update(&whole(i));
        rmax.update(&whole(i));
        rptp.update(&whole(i));
    }
    assert!(rmin.get().eq_val(&whole(7)));
    assert!(rmax.get().eq_val(&whole(9)));
    assert!(rptp.get().eq_val(&whole(2)));
}

#[test]
fn global_extremes() {
    let mut mx = Max::new();
    let mut ab = AbsMax::new();
    let mut pp = PeakToPeak::new();
    for i in -17..10 {
        mx.update(&whole(i));
        ab.update(&whole(i));
        pp.update(&whole(i));
    }
    assert!(mx.get().eq_val(&whole(9)));
    assert!(ab.get().eq_val(&whole(17)));
    assert!(pp.get().eq_val(&whole(26)));
}

#[test]
fn rat_arithmetic_is_exact() {
    let a = q(1, 3);
    let b = q(1, 6);
    assert!(a.add(&b).eq_val(&q(1, 2)));
    assert!(a.sub(&b).eq_val(&q(1, 6)));
    assert!(a.mul(&b).eq_val(&q(1, 18)));
    assert!(a.div(&b).eq_val(&whole(2)));
    assert!(q(2, 4).eq_val(&q(1, 2)));
    assert!(q(1, 3).lt(&q(1, 2)));
    assert!(Rat::new(1, 0).is_none());
}

#[test]
fn ewmean_blends_exactly() {
    let mut ew = EWMean::new(&q(1, 2));
    for x in [whole(1), whole(3), whole(5), whole(4), whole(6), whole(8), whole(7), whole(9), whole(11)] {
        ew.update(&x);
    }
    // exact value of the blend with alpha = 1/2 over this stream
    assert!(ew.get().eq_val(&q(2414, 256)));
}

#[test]
fn iqr_default_builds_quartiles() {
    let mut running_iqr: IQR = Default::default();
    for i in 1..=5 {
        running_iqr.update(&whole(i));
    }
    // five seeds, not yet active: both inner estimators hold the seeds
    let mut mx: Max = Default::default();
    let mut ab: AbsMax = Default::default();
    mx.update(&whole(-2));
    ab.update(&whole(-2));
    assert!(mx.get().eq_val(&whole(-2)));
    assert!(ab.get().eq_val(&whole(2)));
}

#[test]
fn covariance_matches_cross_deviation_sum() {
    let mut running_cov = Covariance::default();
    let xv = vec![q(-21, 10), whole(-1), q(43, 10)];
    let yv = vec![whole(3), q(11, 10), q(12, 100)];
    for (xi, yi) in xv.iter().zip(yv.iter()) {
        running_cov.update(xi, yi);
    }
    assert!(running_cov.get().eq_val(&q(-2143, 500)));
}

#[test]
fn kurtosis_biased_and_corrected() {
    let mut biased = Kurtosis::new(true);
    let mut corrected: Kurtosis = Default::default();
    for x in [whole(1), whole(2), whole(3), whole(4)] {
        biased.update(&x);
        corrected.update(&x);
    }
    assert!(biased.get().eq_val(&q(-34, 25)));
    assert!(corrected.get().eq_val(&q(-6, 5)));
}

#[test]
fn central_moments_track_power_sums() {
    let mut m = CentralMoments::new();
    for x in [whole(1), whole(2), whole(3), whole(4)] {
        m.update(&x);
    }
    // mean 5/2, second and fourth deviation sums of 1..4
    assert!(m.sum_delta.eq_val(&q(5, 2)));
    assert!(m.m2.eq_val(&whole(5)));
    assert!(m.m4.eq_val(&q(41, 4)));
}

#[test]
fn ewvariance_blends_squares() {
    let mut ev = EWVariance::new(&q(1, 2));
    for x in [1i64, 3, 5, 4, 6, 8, 7, 9, 11] {
        ev.update(&whole(x));
    }
    assert!(ev.get().eq_val(&q(58415, 16384)));
}

#[test]
fn fewmean_fades_exactly() {
    let mut fm = FEWMean::new(&q(1, 100));
    for x in [whole(1), whole(3), whole(5)] {
        fm.update(&x);
    }
    assert!(fm.get().eq_val(&q(89501, 29701)));
}

#[test]
fn argmin_counts_updates_since_the_minimum() {
    let mut am = ArgMin::new();
    for i in 0..=100 {
        am.update(&whole(i));
        am.get();
    }
    // the minimum arrived first; one hundred updates have passed since
    assert!(am.get().eq_val(&whole(100)));
    let mut am2 = ArgMin::default();
    for x in [whole(5), whole(3), whole(4)] {
        am2.update(&x);
    }
    assert!(am2.get().eq_val(&whole(1)));
}

#[test]
fn quantile_default_estimates_before_activation() {
    let mut running: Quantile = Default::default();
    for x in [whole(9), whole(7), whole(3)] {
        running.update(&x);
    }
    // three seeds: the sorted-index fallback picks the middle one
    assert!(running.get().eq_val(&whole(7)));
    for x in [whole(2), whole(6), whole(1), whole(8), whole(5), whole(4)] {
        running.update(&x);
    }
    assert!(running.get().eq_val(&whole(5)));
}

#[test]
fn rolling_quantile_partial_window() {
    let mut rq = RollingQuantile::new(&q(1, 2), 5).unwrap();
    rq.update(&whole(10));
    rq.update(&whole(20));
    rq.update(&whole(30));
    assert!(rq.get().eq_val(&whole(20)));
}

#[test]
fn rolling_iqr_partial_window() {
    let mut ri = RollingIQR::new(&q(1, 4), &q(3, 4), 5).unwrap();
    ri.update(&whole(10));
    ri.update(&whole(20));
    ri.update(&whole(30));
    assert!(ri.get().eq_val(&whole(10)));
}

#[test]
fn guarded_updates_report_overflow() {
    let big = Rat::new(i64::MAX - 1, 1).unwrap();
    let mut s = Sum::new();
    assert!(s.try_update(&big));
    // a second huge value cannot be represented in the running sum
    assert!(!s.try_update(&big));
    assert!(s.get().eq_val(&big));
    let mut m = Mean::new();
    assert!(m.try_update(&whole(4)));
    assert!(m.try_update(&whole(6)));
    assert!(m.get().eq_val(&whole(5)));
}
