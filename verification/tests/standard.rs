use calculator::entities::literal::Literal;
use calculator::{
    AngleRepresentation, CalculationError, CalculationMode, CalculationResult, Calculator,
    CalculatorState,
};

/// Double-precision floating point as a numeric representation.
#[derive(Debug, Clone, Copy, PartialEq)]
struct Standard(f64);

impl Literal for Standard {
    fn parse(repr: &str) -> Option<Self> {
        repr.parse::<f64>().ok().map(Standard)
    }

    fn abs(&self) -> Option<Self> {
        Some(Standard(self.0.abs()))
    }

    fn sqrt(&self) -> Option<Self> {
        Some(Standard(self.0.sqrt()))
    }

    fn sin(&self) -> Option<Self> {
        Some(Standard(self.0.sin()))
    }

    fn cos(&self) -> Option<Self> {
        Some(Standard(self.0.cos()))
    }

    fn tg(&self) -> Option<Self> {
        Some(Standard(self.0.tan()))
    }

    fn ctg(&self) -> Option<Self> {
        Some(Standard(self.0.tan().powi(-1)))
    }

    fn add(&self, rhs: &Self) -> Option<Self> {
        Some(Standard(self.0 + rhs.0))
    }

    fn sub(&self, rhs: &Self) -> Option<Self> {
        Some(Standard(self.0 - rhs.0))
    }

    fn mul(&self, rhs: &Self) -> Option<Self> {
        Some(Standard(self.0 * rhs.0))
    }

    fn div(&self, rhs: &Self) -> Option<Self> {
        Some(Standard(self.0 / rhs.0))
    }

    fn pow(&self, rhs: &Self) -> Option<Self> {
        Some(Standard(self.0.powf(rhs.0)))
    }

    fn to_radians(&self) -> Option<Self> {
        Some(Standard(self.0.to_radians()))
    }
}

fn evaluate_standard(calculator: &Calculator<Standard>, text: &str) -> f64 {
    calculator.evaluate_standard(text).unwrap().0
}

#[test]
pub fn evaluate_simple_binary() {
    let calculator = Calculator::<Standard>::default();

    assert_eq!(evaluate_standard(&calculator, "add(2, 2)"), 2_f64 * 2_f64);
    assert_eq!(evaluate_standard(&calculator, "sub(4.5, 2)"), 4.5_f64 - 2_f64);
    assert_eq!(evaluate_standard(&calculator, "mul(100, 12)"), 100_f64 * 12_f64)
}

#[test]
pub fn evaluate_simple_unary() {
    let calculator = Calculator::<Standard>::default();

    assert_eq!(evaluate_standard(&calculator, "sin(3.14)"), 3.14_f64.sin());
    assert_eq!(evaluate_standard(&calculator, "abs(-5)"), (-5_f64).abs());
    assert_eq!(evaluate_standard(&calculator, "sqrt(1000)"), 1000_f64.sqrt());
}

#[test]
pub fn test_angle_transform() {
    let calculator = Calculator::<Standard>::new(CalculatorState::new(AngleRepresentation::Degree));

    assert_eq!(evaluate_standard(&calculator, "sin(180)").round(), 0_f64,);

    assert_eq!(evaluate_standard(&calculator, "cos(180)").round(), -1_f64,);

    assert_eq!(evaluate_standard(&calculator, "tg(45)").round(), 1_f64,);
}

#[test]
fn nesting_in_standard_precision() {
    let calculator = Calculator::<Standard>::default();
    assert_eq!(
        evaluate_standard(&calculator, "pow(5, pow(8, 3)))"),
        5_f64.powf(8_f64.powf(3_f64))
    );
    assert_eq!(evaluate_standard(&calculator, "pow(2, pow(2, 3))"), 256_f64);
}

#[test]
fn division_by_zero_in_standard_precision() {
    let calculator = Calculator::<Standard>::default();
    assert_eq!(evaluate_standard(&calculator, "div(1, 0)"), f64::INFINITY);
    assert_eq!(evaluate_standard(&calculator, "div(-1, 0)"), f64::NEG_INFINITY);
    assert!(evaluate_standard(&calculator, "div(0, 0)").is_nan());
    assert!(evaluate_standard(&calculator, "sqrt(-1)").is_nan());
}

#[test]
fn radians_are_not_converted() {
    let calculator = Calculator::<Standard>::default();
    assert_eq!(evaluate_standard(&calculator, "sin(0)"), 0_f64);
    assert_eq!(evaluate_standard(&calculator, "sin(180)"), 180_f64.sin());
    assert_eq!(evaluate_standard(&calculator, "cos(180)"), 180_f64.cos());
    assert_eq!(evaluate_standard(&calculator, "tg(45)"), 45_f64.tan());
    assert_eq!(evaluate_standard(&calculator, "ctg(45)"), 45_f64.tan().powi(-1));
}

#[test]
fn degrees_are_converted_once() {
    let calculator = Calculator::<Standard>::new(CalculatorState::new(AngleRepresentation::Degree));
    assert_eq!(evaluate_standard(&calculator, "sin(90)"), 90_f64.to_radians().sin());
    assert_eq!(
        evaluate_standard(&calculator, "sin(add(60, 30))"),
        90_f64.to_radians().sin()
    );
    assert_eq!(
        evaluate_standard(&calculator, "sin(sin(90))"),
        90_f64.to_radians().sin().to_radians().sin()
    );
}

#[test]
fn abs_is_the_same_under_both_units() {
    let radians = Calculator::<Standard>::default();
    let degrees = Calculator::<Standard>::new(CalculatorState::new(AngleRepresentation::Degree));
    assert_eq!(evaluate_standard(&radians, "abs(-5)"), 5_f64);
    assert_eq!(evaluate_standard(&degrees, "abs(-5)"), 5_f64);
    assert_eq!(evaluate_standard(&radians, "sqrt(1000)"), evaluate_standard(&degrees, "sqrt(1000)"));
}

#[test]
fn the_two_representations_differ() {
    let calculator = Calculator::<Standard>::default();
    assert!(matches!(
        calculator.evaluate_string("add(0.1, 0.2)", CalculationMode::StandardPrecision),
        Ok(CalculationResult::StandardPrecision(Standard(sum))) if sum == 0.1_f64 + 0.2_f64
    ));
    let sum = calculator.evaluate_high("add(0.1, 0.2)").unwrap();
    assert_eq!((sum.mantissa(), sum.scale()), (3, 1));
    assert_eq!(
        calculator.evaluate_high("div(1, 0)"),
        Err(CalculationError::Domain)
    );
}

#[test]
fn malformed_input_in_standard_precision() {
    let calculator = Calculator::<Standard>::default();
    assert_eq!(
        calculator.evaluate_standard("add(1").err(),
        Some(CalculationError::Syntax)
    );
}
