use mortar::BallisticPoint;
use mortar::BallisticTable;
use mortar::pchip_eval;
use mortar::pchip_slopes;
use mortar::pchip::PchipError;
use mortar::pchip::resample;

fn table(points: Vec<(i64, i64)>) -> BallisticTable {
    BallisticTable {
        points: points
            .into_iter()
            .map(|(range_m, elev_mil)| BallisticPoint { range_m, elev_mil })
            .collect(),
    }
}

#[test]
fn slopes_of_two_points_are_the_secant() {
    let x = vec![0, 1_000_000];
    let y = vec![0, 1_000_000];
    let d = pchip_slopes(&x, &y).expect("slopes");
    assert_eq!(d, vec![1_000, 1_000]);
}

#[test]
fn slopes_reject_bad_input() {
    assert_eq!(pchip_slopes(&vec![0], &vec![0]), Err(PchipError::InsufficientData));
    assert_eq!(
        pchip_slopes(&vec![0, 5_000, 5_000], &vec![0, 1, 2]),
        Err(PchipError::NonMonotonic)
    );
    assert_eq!(
        pchip_slopes(&vec![0, 5_000, 4_000], &vec![0, 1, 2]),
        Err(PchipError::NonMonotonic)
    );
}

#[test]
fn slopes_flatten_at_local_extrema() {
    // The middle node sits at a local maximum: its slope must be zero.
    let x = vec![0, 1_000_000, 2_000_000];
    let y = vec![0, 500_000, 400_000];
    let d = pchip_slopes(&x, &y).expect("slopes");
    assert_eq!(d.len(), 3);
    assert_eq!(d[1], 0);
}

#[test]
fn eval_hits_stored_samples_exactly() {
    let x = vec![0, 1_000_000, 3_000_000];
    let y = vec![10_000, 500_000, 700_000];
    let d = pchip_slopes(&x, &y).expect("slopes");
    assert_eq!(pchip_eval(&x, &y, &d, 0), Ok(10_000));
    assert_eq!(pchip_eval(&x, &y, &d, 1_000_000), Ok(500_000));
    assert_eq!(pchip_eval(&x, &y, &d, 3_000_000), Ok(700_000));
}

#[test]
fn eval_reproduces_linear_data() {
    let x = vec![0, 1_000_000, 2_000_000];
    let y = vec![0, 1_000_000, 2_000_000];
    let d = pchip_slopes(&x, &y).expect("slopes");
    assert_eq!(d, vec![1_000, 1_000, 1_000]);
    assert_eq!(pchip_eval(&x, &y, &d, 500_000), Ok(500_000));
    assert_eq!(pchip_eval(&x, &y, &d, 1_250_000), Ok(1_250_000));
}

#[test]
fn eval_rejects_queries_outside_the_span() {
    let x = vec![0, 1_000_000];
    let y = vec![0, 1_000_000];
    let d = pchip_slopes(&x, &y).expect("slopes");
    assert_eq!(pchip_eval(&x, &y, &d, -1), Err(PchipError::OutOfDomain));
    assert_eq!(pchip_eval(&x, &y, &d, 1_000_001), Err(PchipError::OutOfDomain));
}

#[test]
fn resample_emits_the_whole_meter_grid() {
    let t = table(vec![(0, 0), (2_000, 2_000)]);
    let out = resample(&t, 1).expect("resample");
    assert_eq!(out.len(), 3);
    assert_eq!(out[0].range_m, 0);
    assert_eq!(out[0].elev_mil, 0);
    assert_eq!(out[1].range_m, 1_000);
    assert_eq!(out[1].elev_mil, 1_000);
    assert_eq!(out[2].range_m, 2_000);
    assert_eq!(out[2].elev_mil, 2_000);
}

#[test]
fn resample_honors_the_step() {
    let t = table(vec![(500, 0), (5_500, 10_000)]);
    let out = resample(&t, 2).expect("resample");
    // The grid runs from the first whole meter at or above half a meter to
    // the last at or below five and a half, two meters apart.
    assert_eq!(out.len(), 3);
    assert_eq!(out[0].range_m, 1_000);
    assert_eq!(out[1].range_m, 3_000);
    assert_eq!(out[2].range_m, 5_000);
}

#[test]
fn resample_with_a_step_beyond_the_span_emits_one_point() {
    let t = table(vec![(0, 100), (2_000, 300)]);
    let out = resample(&t, 50).expect("resample");
    assert_eq!(out.len(), 1);
    assert_eq!(out[0].range_m, 0);
    assert_eq!(out[0].elev_mil, 100);
}

#[test]
fn resample_needs_two_samples() {
    let t = table(vec![(1_000, 500)]);
    assert_eq!(resample(&t, 1), Err(PchipError::InsufficientData));
}

#[test]
fn resample_of_monotone_data_does_not_overshoot() {
    // Uneven gaps and uneven rises: the resampled curve must stay inside
    // the sampled elevation span.
    let t = table(vec![
        (0, 0),
        (1_000, 100),
        (2_000, 200_000),
        (7_000, 210_000),
        (50_000, 900_000),
    ]);
    let out = resample(&t, 1).expect("resample");
    assert_eq!(out.len(), 51);
    let mut prev = 0;
    for p in out.iter() {
        assert!(0 <= p.elev_mil && p.elev_mil <= 900_000);
        assert!(prev <= p.elev_mil);
        prev = p.elev_mil;
    }
}
