use s3plot::eval::Expr;
use s3plot::num::Num;
use s3plot::plot::{CustomPlot, NamedPlot};

#[test]
fn expression_pair_construction() {
    let e = Expr::new("time".to_string(), "sin(time / PI) * 10.0".to_string());
    assert_eq!(e.x, "time");
    assert_eq!(e.y, "sin(time / PI) * 10.0");
    let d = Expr::default();
    assert_eq!(d.x, "");
    assert_eq!(d.y, "");
}

#[test]
fn named_and_custom_plots() {
    let p = NamedPlot::new("1.".to_string(), Expr::new("time".to_string(), "t".to_string()));
    assert_eq!(p.name, "1.");
    assert_eq!(p.expr.y, "t");
    let c = CustomPlot::named("2.".to_string());
    assert_eq!(c.name, "2.");
    assert_eq!(c.expr.x, "");
    assert_eq!(c.expr.y, "");
}

#[test]
fn float_carrier_is_canonical() {
    // Construction normalizes the text: the carrier never hands its input
    // back unchanged unless it is already canonical.
    let n = Num::from_text(b"10.0").expect("valid");
    assert_eq!(n.as_bytes(), &b"10".to_vec());
    let n = Num::from_text(b"2.50e2").expect("valid");
    assert_eq!(n.as_bytes(), &b"250".to_vec());
    assert!(Num::from_text(b"nonsense").is_none());
    let nan = Num::nan();
    assert_eq!(nan.as_bytes(), &b"NaN".to_vec());
    // Arithmetic goes through the host's doubles.
    let a = Num::from_text(b"0.1").unwrap();
    let b = Num::from_text(b"0.2").unwrap();
    let sum: f64 = String::from_utf8(a.add(&b).as_bytes().clone()).unwrap().parse().unwrap();
    assert_eq!(sum, 0.1f64 + 0.2f64);
}
