use s3plot::data::{DataEntry, EntryKind, LogStream, Version};
use s3plot::eval::{eval, Expr};
use s3plot::num::Num;

fn num(v: f64) -> Num {
    Num::from_text(format!("{}", v).as_bytes()).expect("valid float text")
}

fn to_f64(n: &Num) -> f64 {
    String::from_utf8(n.as_bytes().clone())
        .expect("utf8")
        .parse()
        .expect("float")
}

fn stream(time: Vec<u32>, channels: Vec<(&str, Vec<f64>)>) -> LogStream {
    LogStream {
        version: Version::V1,
        start: None,
        time,
        entries: channels
            .into_iter()
            .map(|(name, vals)| DataEntry {
                name: name.to_string(),
                kind: EntryKind::F64(vals.into_iter().map(num).collect()),
            })
            .collect(),
    }
}

#[test]
fn time_round_trip() {
    let streams = vec![stream(vec![0, 20, 40, 60, 80], vec![("P_fl", vec![1.0; 5])])];
    let expr = Expr::new("time".to_string(), "time".to_string());
    let points = eval(&expr, &streams).expect("compiles");
    assert_eq!(points.len(), 5);
    for (i, &t) in [0u32, 20, 40, 60, 80].iter().enumerate() {
        let expected = t as f64 / 1000.0;
        assert_eq!(to_f64(&points[i].x), expected);
        assert_eq!(to_f64(&points[i].y), expected);
    }
}

#[test]
fn independent_axis_failure() {
    let streams = vec![stream(vec![0, 20], vec![("t", vec![1.0, 2.0])])];
    let expr = Expr::new("t".to_string(), "t +".to_string());
    let err = eval(&expr, &streams).err().expect("y must fail");
    assert!(err.x.is_none());
    assert!(err.y.is_some());
}

#[test]
fn interpolation_correctness() {
    // Stream B has exactly two samples at t=0ms (value 0) and t=1000ms
    // (value 10); the primary stream asks at 0, 500 and 2000 ms.
    let a = stream(vec![0, 500, 2000], vec![("a", vec![0.0, 0.0, 0.0])]);
    let b = stream(vec![0, 1000], vec![("b", vec![0.0, 10.0])]);
    let streams = vec![a, b];
    let expr = Expr::new("time".to_string(), "b".to_string());
    let points = eval(&expr, &streams).expect("compiles");
    assert_eq!(points.len(), 3);
    assert_eq!(to_f64(&points[0].y), 0.0);
    assert_eq!(to_f64(&points[1].y), 5.0);
    assert_eq!(to_f64(&points[2].y), 10.0);
}

#[test]
fn sample_skip_invariant() {
    let streams = vec![stream(
        vec![0, 20, 40, 60, 80],
        vec![("P_fl", vec![4.0, -1.0, 9.0, -16.0, 25.0])],
    )];
    let expr = Expr::new("time".to_string(), "sqrt(P_fl)".to_string());
    let points = eval(&expr, &streams).expect("compiles");
    assert!(points.len() <= 5);
    assert_eq!(points.len(), 3);
    // Surviving points keep their relative (time-ascending) order.
    let xs: Vec<f64> = points.iter().map(|p| to_f64(&p.x)).collect();
    assert_eq!(xs, vec![0.0, 0.04, 0.08]);
    let ys: Vec<f64> = points.iter().map(|p| to_f64(&p.y)).collect();
    assert_eq!(ys, vec![2.0, 3.0, 5.0]);
}

#[test]
fn idempotence() {
    let streams = vec![stream(
        vec![0, 20, 40, 60, 80],
        vec![("P_fl", vec![0.25, 10.5, -20.0, 1.0e-3, 7.0])],
    )];
    let expr = Expr::new(
        "time".to_string(),
        "sin(P_fl / PI) * sqrt(abs(P_fl))".to_string(),
    );
    let first = eval(&expr, &streams).expect("compiles");
    let second = eval(&expr, &streams).expect("compiles");
    assert_eq!(first.len(), second.len());
    for (p, q) in first.iter().zip(second.iter()) {
        // Bit-identical: the canonical texts agree byte for byte.
        assert_eq!(p.x.as_bytes(), q.x.as_bytes());
        assert_eq!(p.y.as_bytes(), q.y.as_bytes());
    }
}

#[test]
fn end_to_end_scenario() {
    let streams = vec![stream(
        vec![0, 20, 40, 60, 80],
        vec![("P_fl", vec![0.0, 10.0, 20.0, -10.0, 0.0])],
    )];

    let expr = Expr::new("time".to_string(), "P_fl".to_string());
    let points = eval(&expr, &streams).expect("compiles");
    let got: Vec<(f64, f64)> = points.iter().map(|p| (to_f64(&p.x), to_f64(&p.y))).collect();
    assert_eq!(
        got,
        vec![(0.0, 0.0), (0.02, 10.0), (0.04, 20.0), (0.06, -10.0), (0.08, 0.0)]
    );

    let expr = Expr::new("time".to_string(), "sqrt(P_fl)".to_string());
    let points = eval(&expr, &streams).expect("compiles");
    let got: Vec<(f64, f64)> = points.iter().map(|p| (to_f64(&p.x), to_f64(&p.y))).collect();
    assert_eq!(got.len(), 4);
    assert_eq!(got[0], (0.0, 0.0));
    assert_eq!(got[1], (0.02, 10f64.sqrt()));
    assert_eq!(got[2], (0.04, 20f64.sqrt()));
    assert_eq!(got[3], (0.08, 0.0));
    // Ascending time order.
    assert!(got.windows(2).all(|w| w[0].0 < w[1].0));
}

#[test]
fn division_by_zero_skips_sample() {
    let streams = vec![stream(
        vec![0, 20, 40],
        vec![("v", vec![2.0, 0.0, 4.0])],
    )];
    let expr = Expr::new("time".to_string(), "1 / v".to_string());
    let points = eval(&expr, &streams).expect("compiles");
    let got: Vec<(f64, f64)> = points.iter().map(|p| (to_f64(&p.x), to_f64(&p.y))).collect();
    assert_eq!(got, vec![(0.0, 0.5), (0.04, 0.25)]);
}

#[test]
fn empty_stream_lookup_is_nan_and_skipped_by_sqrt() {
    // An empty secondary stream resolves to NaN; NaN is not negative, so
    // sqrt propagates it and the point still appears, carrying NaN.
    let a = stream(vec![0, 20], vec![("a", vec![1.0, 2.0])]);
    let b = stream(vec![], vec![("b", vec![])]);
    let streams = vec![a, b];
    let expr = Expr::new("time".to_string(), "b".to_string());
    let points = eval(&expr, &streams).expect("compiles");
    assert_eq!(points.len(), 2);
    assert!(to_f64(&points[0].y).is_nan());
}

#[test]
fn operator_precedence_and_functions() {
    let streams = vec![stream(vec![0], vec![("v", vec![5.0])])];
    let cases: Vec<(&str, f64)> = vec![
        ("2 + 3 * 4", 14.0),
        ("(2 + 3) * 4", 20.0),
        ("2 ^ 3 ^ 2", 512.0),
        ("-2 ^ 2", -4.0),
        ("10 / 4", 2.5),
        ("min(3, 7)", 3.0),
        ("max(3, 7)", 7.0),
        ("abs(0 - 9)", 9.0),
        ("cos(0)", 1.0),
        ("sin(0)", 0.0),
        ("sqrt(49)", 7.0),
        ("PI", std::f64::consts::PI),
        ("E", std::f64::consts::E),
        ("TAU", std::f64::consts::TAU),
        ("2.5e2", 250.0),
        ("v * 2", 10.0),
    ];
    for (src, expected) in cases {
        let expr = Expr::new("time".to_string(), src.to_string());
        let points = eval(&expr, &streams).unwrap_or_else(|_| panic!("{src} must compile"));
        assert_eq!(points.len(), 1, "{src}");
        assert_eq!(to_f64(&points[0].y), expected, "{src}");
    }
}

#[test]
fn integer_overflow_skips_sample() {
    let streams = vec![stream(vec![0, 20], vec![("v", vec![1.0, 2.0])])];
    // The literal is i64::MAX, the largest value that stays an integer.
    let expr = Expr::new(
        "time".to_string(),
        "9223372036854775807 + 9223372036854775807 * v".to_string(),
    );
    let points = eval(&expr, &streams).expect("compiles");
    // v is a float channel, so the product is float arithmetic and never
    // overflows; both samples survive.
    assert_eq!(points.len(), 2);

    let expr = Expr::new("time".to_string(), "2 * 9223372036854775807".to_string());
    let points = eval(&expr, &streams).expect("compiles");
    // Pure integer arithmetic overflows on every sample: all are skipped.
    assert_eq!(points.len(), 0);
}

#[test]
fn widening_of_every_channel_type() {
    let mk = |kind: EntryKind| LogStream {
        version: Version::V2,
        start: Some(0),
        time: vec![0],
        entries: vec![DataEntry { name: "c".to_string(), kind }],
    };
    let cases: Vec<(EntryKind, f64)> = vec![
        (EntryKind::Bool(vec![true]), 1.0),
        (EntryKind::U8(vec![200]), 200.0),
        (EntryKind::U16(vec![60_000]), 60_000.0),
        (EntryKind::U32(vec![4_000_000_000]), 4_000_000_000.0),
        (EntryKind::U64(vec![u64::MAX]), u64::MAX as f64),
        (EntryKind::I8(vec![-100]), -100.0),
        (EntryKind::I16(vec![-30_000]), -30_000.0),
        (EntryKind::I32(vec![-2_000_000_000]), -2_000_000_000.0),
        (EntryKind::I64(vec![i64::MIN]), i64::MIN as f64),
        (EntryKind::F32(vec![num(0.25f32 as f64)]), 0.25),
        (EntryKind::F64(vec![num(-1.5)]), -1.5),
    ];
    for (kind, expected) in cases {
        let streams = vec![mk(kind)];
        let expr = Expr::new("time".to_string(), "c".to_string());
        let points = eval(&expr, &streams).expect("compiles");
        assert_eq!(points.len(), 1);
        assert_eq!(to_f64(&points[0].y), expected);
    }
}

#[test]
fn first_matching_name_wins() {
    // Two streams that both declare `v`: the first stream's channel is the
    // one the identifier binds to.
    let a = stream(vec![0], vec![("v", vec![1.0])]);
    let b = stream(vec![0], vec![("v", vec![2.0])]);
    let streams = vec![a, b];
    let expr = Expr::new("time".to_string(), "v".to_string());
    let points = eval(&expr, &streams).expect("compiles");
    assert_eq!(to_f64(&points[0].y), 1.0);
}

#[test]
fn channel_named_time_shadows_nothing() {
    // `time` is declared last, so a channel of that name wins, as the
    // declaration order dictates.
    let streams = vec![stream(vec![0, 20], vec![("time", vec![7.0, 8.0])])];
    let expr = Expr::new("1".to_string(), "time".to_string());
    let points = eval(&expr, &streams).expect("compiles");
    assert_eq!(to_f64(&points[0].y), 7.0);
}

#[test]
fn unknown_channel_axis_is_blamed_alone() {
    let streams = vec![stream(vec![0, 20], vec![("t", vec![1.0, 2.0])])];
    let expr = Expr::new("t".to_string(), "oops".to_string());
    let err = eval(&expr, &streams).err().expect("y must fail");
    assert!(err.x.is_none());
    let e = err.y.expect("unknown identifier");
    assert_eq!(e.message(), "unknown variable");
}
