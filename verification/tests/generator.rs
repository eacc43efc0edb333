use traffic_core::conditions::generator::{
    generate_range, to_ddr_string, to_ddr_string_with_options, GenerateOptions,
};
use traffic_core::conditions::{BinaryOp, Expr, Range, RangeOp};

#[test]
fn test_generate_range() {
    let range = Range::new(1, 3, RangeOp::Or);
    assert_eq!(
        generate_range(&range, &GenerateOptions::default()),
        "ddr(D1) or ddr(D2) or ddr(D3)"
    );
}

#[test]
fn test_generate_range_and() {
    let range = Range::new(4, 6, RangeOp::And);
    assert_eq!(
        generate_range(&range, &GenerateOptions::default()),
        "ddr(D4) and ddr(D5) and ddr(D6)"
    );
}

#[test]
fn test_generate_binary() {
    let left = Expr::Range(Range::new(1, 3, RangeOp::Or));
    let right = Expr::Range(Range::new(4, 6, RangeOp::Or));
    let expr = Expr::Binary {
        op: BinaryOp::And,
        left: Box::new(left),
        right: Box::new(right),
    };

    assert_eq!(
        to_ddr_string(&expr),
        "(ddr(D1) or ddr(D2) or ddr(D3)) and (ddr(D4) or ddr(D5) or ddr(D6))"
    );
}

#[test]
fn test_with_symbols() {
    let range = Range::new(1, 3, RangeOp::Or);
    let options = GenerateOptions {
        use_symbols: true,
        ..Default::default()
    };

    assert_eq!(
        generate_range(&range, &options),
        "ddr(D1) | ddr(D2) | ddr(D3)"
    );
}

#[test]
fn test_custom_prefix() {
    let range = Range::new(1, 3, RangeOp::Or);
    let options = GenerateOptions {
        prefix: "CH".to_string(),
        suffix: "".to_string(),
        ..Default::default()
    };

    assert_eq!(generate_range(&range, &options), "CH1 or CH2 or CH3");
}

#[test]
fn test_binary_with_symbols() {
    let left = Expr::Range(Range::new(1, 3, RangeOp::Or));
    let right = Expr::Range(Range::new(4, 6, RangeOp::Or));
    let expr = Expr::Binary {
        op: BinaryOp::And,
        left: Box::new(left),
        right: Box::new(right),
    };

    let options = GenerateOptions {
        use_symbols: true,
        ..Default::default()
    };

    assert_eq!(
        to_ddr_string_with_options(&expr, &options),
        "(ddr(D1) | ddr(D2) | ddr(D3)) & (ddr(D4) | ddr(D5) | ddr(D6))"
    );
}
