use gauss_classes::model::{AxisStats, Class, FittedParams, ModelError, Point};
use gauss_classes::parse::{parse_observations, RawObservation};
use gauss_classes::registry::{ClassData, Observation};
use statrs::distribution::{ContinuousCDF, Normal};
use statrs::statistics::Statistics;

fn lines_of(text: &str) -> Vec<Vec<char>> {
    text.lines().map(|l| l.chars().collect()).collect()
}

fn to_observations(raw: Vec<RawObservation>) -> Vec<Observation> {
    raw.into_iter()
        .map(|r| {
            let x: f64 = r.x_text.iter().collect::<String>().parse().unwrap();
            let y: f64 = r.y_text.iter().collect::<String>().parse().unwrap();
            Observation {
                id: r.id,
                point: Point {
                    x: x.to_bits(),
                    y: y.to_bits(),
                },
            }
        })
        .collect()
}

fn axis_stats(vals: Vec<f64>) -> AxisStats {
    let mean: f64 = vals.clone().mean();
    let std_dev: f64 = vals.std_dev();
    AxisStats {
        mean: mean.to_bits(),
        std_dev: std_dev.to_bits(),
    }
}

fn fit(data: &mut ClassData) -> Result<(), ModelError> {
    let mut all: Vec<FittedParams> = Vec::new();
    for c in data.classes().iter() {
        let xs: Vec<f64> = c.points().iter().map(|p| f64::from_bits(p.x)).collect();
        let ys: Vec<f64> = c.points().iter().map(|p| f64::from_bits(p.y)).collect();
        all.push(FittedParams {
            x: axis_stats(xs),
            y: axis_stats(ys),
        });
    }
    data.generate_distributions(&all)
}

fn build(text: &str) -> Result<ClassData, ModelError> {
    let raw = parse_observations(&lines_of(text))?;
    let obs = to_observations(raw);
    let mut data = ClassData::from_observations(&obs);
    fit(&mut data)?;
    Ok(data)
}

fn score(class: &Class, initial: f64, x: f64, y: f64) -> Option<f64> {
    let p = class.fitted_params()?;
    let nx = Normal::new(f64::from_bits(p.x.mean), f64::from_bits(p.x.std_dev)).unwrap();
    let ny = Normal::new(f64::from_bits(p.y.mean), f64::from_bits(p.y.std_dev)).unwrap();
    Some(initial.ln() + nx.cdf(x).ln() + ny.cdf(y).ln())
}

fn x_mean_of(data: &ClassData, id: i32) -> f64 {
    let c = data.lookup(id).unwrap();
    f64::from_bits(c.fitted_params().unwrap().x.mean)
}

#[test]
fn round_trip_means() {
    let data = build("0 1.0 1.0\n0 3.0 3.0\n1 -5.0 -5.0\n1 -2.0 -2.0\n").unwrap();
    assert!((x_mean_of(&data, 0) - 2.0).abs() < 1e-9);
    assert!((x_mean_of(&data, 1) - -3.5).abs() < 1e-9);
}

#[test]
fn fitted_mean_is_arithmetic_mean() {
    let data = build("4 1.5 -2.0\n4 2.5 4.0\n4 5.0 7.0\n").unwrap();
    let c = data.lookup(4).unwrap();
    let p = c.fitted_params().unwrap();
    let mx = (1.5 + 2.5 + 5.0) / 3.0;
    let my = (-2.0 + 4.0 + 7.0) / 3.0;
    assert!((f64::from_bits(p.x.mean) - mx).abs() < 1e-9);
    assert!((f64::from_bits(p.y.mean) - my).abs() < 1e-9);
}

#[test]
fn fitted_std_dev_is_sample_std_dev() {
    let data = build("4 1.5 -2.0\n4 2.5 4.0\n4 5.0 7.0\n").unwrap();
    let c = data.lookup(4).unwrap();
    let p = c.fitted_params().unwrap();
    let xs = [1.5f64, 2.5, 5.0];
    let mx: f64 = xs.iter().sum::<f64>() / 3.0;
    let sx = (xs.iter().map(|v| (v - mx) * (v - mx)).sum::<f64>() / 2.0).sqrt();
    let ys = [-2.0f64, 4.0, 7.0];
    let my: f64 = ys.iter().sum::<f64>() / 3.0;
    let sy = (ys.iter().map(|v| (v - my) * (v - my)).sum::<f64>() / 2.0).sqrt();
    assert!((f64::from_bits(p.x.std_dev) - sx).abs() < 1e-9);
    assert!((f64::from_bits(p.y.std_dev) - sy).abs() < 1e-9);
}

#[test]
fn single_point_class_fails_fitting() {
    assert_eq!(build("7 1.0 2.0\n").unwrap_err(), ModelError::Distribution);
}

#[test]
fn single_point_class_fails_directly() {
    let mut c = Class::new(
        7,
        vec![Point {
            x: 1.0f64.to_bits(),
            y: 2.0f64.to_bits(),
        }],
    );
    let params = FittedParams {
        x: AxisStats {
            mean: 1.0f64.to_bits(),
            std_dev: 1.0f64.to_bits(),
        },
        y: AxisStats {
            mean: 2.0f64.to_bits(),
            std_dev: 1.0f64.to_bits(),
        },
    };
    assert_eq!(c.generate_distribution(params), Err(ModelError::Distribution));
    assert!(c.fitted_params().is_none());
}

#[test]
fn degenerate_points_fail_fitting() {
    // identical points give a zero standard deviation
    assert_eq!(
        build("0 1.0 1.0\n0 1.0 1.0\n").unwrap_err(),
        ModelError::Distribution
    );
}

#[test]
fn nan_coordinate_fails_fitting() {
    // `nan` is a valid literal, but the fitted mean is NaN
    assert_eq!(
        build("0 nan 1.0\n0 2.0 2.0\n").unwrap_err(),
        ModelError::Distribution
    );
}

#[test]
fn score_is_monotonic_in_initial() {
    let data = build("0 1.0 1.0\n0 3.0 3.0\n1 -5.0 -5.0\n1 -2.0 -2.0\n").unwrap();
    let c = data.lookup(0).unwrap();
    let lo = score(c, 0.3, 6.98645, -2.936).unwrap();
    let mid = score(c, 0.5, 6.98645, -2.936).unwrap();
    let hi = score(c, 0.9, 6.98645, -2.936).unwrap();
    assert!(lo < mid);
    assert!(mid < hi);
}

#[test]
fn score_terms_commute() {
    let data = build("0 1.0 1.0\n0 3.0 3.0\n").unwrap();
    let c = data.lookup(0).unwrap();
    let p = c.fitted_params().unwrap();
    let nx = Normal::new(f64::from_bits(p.x.mean), f64::from_bits(p.x.std_dev)).unwrap();
    let ny = Normal::new(f64::from_bits(p.y.mean), f64::from_bits(p.y.std_dev)).unwrap();
    let initial = 0.5f64;
    let (x, y) = (0.25f64, 1.75f64);
    let a = initial.ln();
    let b = nx.cdf(x).ln();
    let d = ny.cdf(y).ln();
    let reference = score(c, initial, x, y).unwrap();
    assert!((a + b + d - reference).abs() < 1e-12);
    assert!((b + a + d - reference).abs() < 1e-12);
    assert!((d + b + a - reference).abs() < 1e-12);
    assert!((a + d + b - reference).abs() < 1e-12);
}

#[test]
fn score_known_value() {
    // mean 0 on both axes; cdf(0) is one half on each, so the score is
    // three times ln(0.5)
    let data = build("3 -1.0 -1.0\n3 1.0 1.0\n").unwrap();
    let c = data.lookup(3).unwrap();
    let s = score(c, 0.5, 0.0, 0.0).unwrap();
    assert!((s - 3.0 * 0.5f64.ln()).abs() < 1e-9);
}

#[test]
fn distinct_ids_make_distinct_classes() {
    let raw = parse_observations(&lines_of(
        "0 1.0 1.0\n1 2.0 2.0\n0 3.0 3.0\n2 4.0 4.0\n0 5.0 5.0\n1 6.0 6.0\n",
    ))
    .unwrap();
    let obs = to_observations(raw);
    let data = ClassData::from_observations(&obs);
    assert_eq!(data.len(), 3);
}

#[test]
fn short_line_truncates_rest() {
    // "5 7.2" has two tokens: it and everything after it are ignored
    let raw = parse_observations(&lines_of(
        "0 1.0 1.0\n0 2.0 2.0\n5 7.2\n1 3.0 3.0\n1 4.0 4.0\n",
    ))
    .unwrap();
    assert_eq!(raw.len(), 2);
    let data = build("0 1.0 1.0\n0 2.0 2.0\n5 7.2\n1 3.0 3.0\n1 4.0 4.0\n").unwrap();
    assert_eq!(data.len(), 1);
    assert!(matches!(data.lookup(1), Err(ModelError::NotFound)));
}

#[test]
fn blank_line_truncates_rest() {
    let raw = parse_observations(&lines_of("   \n0 1.0 1.0\n")).unwrap();
    assert_eq!(raw.len(), 0);
}

#[test]
fn lookup_unknown_id_is_not_found() {
    let data = build("0 1.0 1.0\n0 3.0 3.0\n").unwrap();
    assert!(matches!(data.lookup(99), Err(ModelError::NotFound)));
}

#[test]
fn unfit_model_gives_absent_score() {
    let c = Class::new(
        0,
        vec![Point {
            x: 1.0f64.to_bits(),
            y: 1.0f64.to_bits(),
        }],
    );
    assert!(c.fitted_params().is_none());
    assert!(score(&c, 0.5, 0.0, 0.0).is_none());
}

#[test]
fn empty_input_gives_empty_registry() {
    let data = build("").unwrap();
    assert_eq!(data.len(), 0);
    assert!(matches!(data.lookup(0), Err(ModelError::NotFound)));
}

#[test]
fn bad_id_is_parse_error() {
    assert_eq!(build("abc 1.0 2.0\n").unwrap_err(), ModelError::Parse);
}

#[test]
fn bad_coordinate_is_parse_error() {
    assert_eq!(build("0 xyz 2.0\n").unwrap_err(), ModelError::Parse);
    assert_eq!(build("0 1.0 .\n").unwrap_err(), ModelError::Parse);
    assert_eq!(build("0 1.0 1e\n").unwrap_err(), ModelError::Parse);
    assert_eq!(build("0 1.0 1.0.0\n").unwrap_err(), ModelError::Parse);
}

#[test]
fn id_range_matches_i32() {
    let raw = parse_observations(&lines_of("2147483647 1.0 1.0\n")).unwrap();
    assert_eq!(raw[0].id, 2147483647);
    let raw = parse_observations(&lines_of("-2147483648 1.0 1.0\n")).unwrap();
    assert_eq!(raw[0].id, -2147483648);
    assert_eq!(
        parse_observations(&lines_of("2147483648 1.0 1.0\n")).unwrap_err(),
        ModelError::Parse
    );
    assert_eq!(
        parse_observations(&lines_of("+7 1.0 1.0\n")).unwrap()[0].id,
        7
    );
}

#[test]
fn float_literal_forms_parse() {
    // each form below must round-trip through `f64::from_str` unchanged
    let raw = parse_observations(&lines_of(
        "1 .5 5.\n1 2e3 2.5E-10\n1 +inf -INFINITY\n1 NaN 1.25e+2\n",
    ))
    .unwrap();
    assert_eq!(raw.len(), 4);
    let obs = to_observations(raw);
    assert_eq!(f64::from_bits(obs[0].point.x), 0.5);
    assert_eq!(f64::from_bits(obs[0].point.y), 5.0);
    assert_eq!(f64::from_bits(obs[1].point.x), 2000.0);
    assert_eq!(f64::from_bits(obs[1].point.y), 2.5e-10);
    assert_eq!(f64::from_bits(obs[2].point.x), f64::INFINITY);
    assert_eq!(f64::from_bits(obs[2].point.y), f64::NEG_INFINITY);
    assert!(f64::from_bits(obs[3].point.x).is_nan());
    assert_eq!(f64::from_bits(obs[3].point.y), 125.0);
}

#[test]
fn tokens_beyond_third_are_ignored() {
    let data = build("0 1.0 1.0 extra tokens here\n0 3.0 3.0\n").unwrap();
    assert!((x_mean_of(&data, 0) - 2.0).abs() < 1e-9);
}

#[test]
fn class_keeps_its_points() {
    let pts = vec![
        Point {
            x: 1.0f64.to_bits(),
            y: 2.0f64.to_bits(),
        },
        Point {
            x: 3.0f64.to_bits(),
            y: 4.0f64.to_bits(),
        },
    ];
    let c = Class::new(9, pts.clone());
    assert_eq!(c.id(), 9);
    assert_eq!(c.points().len(), 2);
    assert_eq!(c.points()[0], pts[0]);
    assert_eq!(c.points()[1], pts[1]);
}

#[test]
fn refitting_replaces_parameters() {
    let data = build("0 1.0 1.0\n0 3.0 3.0\n").unwrap();
    let before = data.lookup(0).unwrap().fitted_params().unwrap();
    let mut data = data;
    fit(&mut data).unwrap();
    let after = data.lookup(0).unwrap().fitted_params().unwrap();
    assert_eq!(before, after);
}

#[test]
fn infinite_std_dev_fails_fitting() {
    // overflowing variance gives an infinite standard deviation, which is
    // not a valid distribution parameter
    let mut c = Class::new(
        0,
        vec![
            Point {
                x: 1.0f64.to_bits(),
                y: 1.0f64.to_bits(),
            },
            Point {
                x: 2.0f64.to_bits(),
                y: 2.0f64.to_bits(),
            },
        ],
    );
    let params = FittedParams {
        x: AxisStats {
            mean: 1.5f64.to_bits(),
            std_dev: f64::INFINITY.to_bits(),
        },
        y: AxisStats {
            mean: 1.5f64.to_bits(),
            std_dev: 0.5f64.to_bits(),
        },
    };
    assert_eq!(c.generate_distribution(params), Err(ModelError::Distribution));
}

#[test]
fn infinite_mean_fails_fitting() {
    // a fitted mean must be finite; an infinite mean beside a valid
    // standard deviation is rejected
    let mut c = Class::new(
        0,
        vec![
            Point {
                x: 1.0f64.to_bits(),
                y: 1.0f64.to_bits(),
            },
            Point {
                x: 2.0f64.to_bits(),
                y: 2.0f64.to_bits(),
            },
        ],
    );
    let params = FittedParams {
        x: AxisStats {
            mean: f64::INFINITY.to_bits(),
            std_dev: 0.5f64.to_bits(),
        },
        y: AxisStats {
            mean: 1.5f64.to_bits(),
            std_dev: 0.5f64.to_bits(),
        },
    };
    assert_eq!(c.generate_distribution(params), Err(ModelError::Distribution));
    assert!(c.fitted_params().is_none());

    let params = FittedParams {
        x: AxisStats {
            mean: 1.5f64.to_bits(),
            std_dev: 0.5f64.to_bits(),
        },
        y: AxisStats {
            mean: f64::NEG_INFINITY.to_bits(),
            std_dev: 0.5f64.to_bits(),
        },
    };
    assert_eq!(c.generate_distribution(params), Err(ModelError::Distribution));
    assert!(c.fitted_params().is_none());
}
