use matheval::binary_operator::BinaryOperator;
use matheval::expression_tree::{Evaluate, ExpressionTree};
use matheval::parser::{parse_expression, Number};

#[derive(Clone, Copy, PartialEq, Debug)]
struct Num(f64);

impl Evaluate<Num> for BinaryOperator {
    fn evaluate(&self, left: Num, right: Num) -> Num {
        match self {
            BinaryOperator::Add => Num(left.0 + right.0),
            BinaryOperator::Sub => Num(left.0 - right.0),
            BinaryOperator::Div => Num(left.0 / right.0),
            BinaryOperator::Mul => Num(left.0 * right.0),
            BinaryOperator::Pow => Num(left.0.powf(right.0)),
            BinaryOperator::Mod => Num(left.0 % right.0),
            BinaryOperator::Or => Num((left.0 as i128 | right.0 as i128) as f64),
            BinaryOperator::And => Num((left.0 as i128 & right.0 as i128) as f64),
            BinaryOperator::Xor => Num((left.0 as i128 ^ right.0 as i128) as f64),
        }
    }
}

fn leaf_value(n: &Number) -> f64 {
    std::str::from_utf8(&n.literal).unwrap().parse::<f64>().unwrap()
}

fn to_num_tree(t: ExpressionTree<Number, BinaryOperator>) -> ExpressionTree<Num, BinaryOperator> {
    match t {
        ExpressionTree::Value(n) => ExpressionTree::Value(Num(leaf_value(&n))),
        ExpressionTree::Expression { operator, left, right } => {
            ExpressionTree::new_expression(to_num_tree(*left), operator, to_num_tree(*right))
        }
        ExpressionTree::Enclosed(inner) => ExpressionTree::new_enclosed(to_num_tree(*inner)),
    }
}

fn eval_str(s: &str) -> f64 {
    let tree = parse_expression(s.as_bytes()).unwrap();
    to_num_tree(tree).evaluate().0
}

#[test]
fn addition() {
    assert_eq!(eval_str("2+3"), 5.0);
}

#[test]
fn multiplication_binds_tighter_than_addition() {
    assert_eq!(eval_str("2+3*4"), 14.0);
}

#[test]
fn parenthesized_group_is_atomic() {
    assert_eq!(eval_str("(2+3)*4"), 20.0);
}

#[test]
fn power() {
    assert_eq!(eval_str("2**3"), 8.0);
}

#[test]
fn equal_priority_associates_left_to_right() {
    assert_eq!(eval_str("10-3-2"), 5.0);
}

#[test]
fn bitwise_and() {
    assert_eq!(eval_str("6&3"), 2.0);
}

#[test]
fn bitwise_or() {
    assert_eq!(eval_str("6|3"), 7.0);
}

#[test]
fn bitwise_xor() {
    assert_eq!(eval_str("6^3"), 5.0);
}

#[test]
fn division_yields_fractions() {
    assert_eq!(eval_str("7/2"), 3.5);
}

#[test]
fn remainder() {
    assert_eq!(eval_str("7%3"), 1.0);
}

#[test]
fn power_associates_left_to_right() {
    assert_eq!(eval_str("2**3**2"), 64.0);
}

#[test]
fn unary_minus_starts_a_literal() {
    assert_eq!(eval_str("-3+2"), -1.0);
}

#[test]
fn minus_after_operator_is_a_sign() {
    assert_eq!(eval_str("3 - -2"), 5.0);
}

#[test]
fn whitespace_is_skipped() {
    assert_eq!(eval_str(" 2 \t+ 3 "), 5.0);
}

#[test]
fn nested_parentheses() {
    assert_eq!(eval_str("((2+3)*2)"), 10.0);
}

#[test]
fn decimal_literals() {
    assert_eq!(eval_str("1.5+2.25"), 3.75);
}

#[test]
fn trailing_and_leading_point_literals() {
    assert_eq!(eval_str("5.+1"), 6.0);
    assert_eq!(eval_str("-.5*2"), -1.0);
}

#[test]
fn single_number() {
    assert_eq!(eval_str("42"), 42.0);
}

#[test]
fn division_by_zero_is_infinite() {
    assert!(eval_str("1/0").is_infinite());
}

#[test]
fn reparsing_evaluates_to_the_same_value() {
    let a = eval_str("2+3*4-(5|1)**2");
    let b = eval_str("2+3*4-(5|1)**2");
    assert_eq!(a, b);
}

#[test]
fn enclosed_single_value() {
    assert_eq!(eval_str("(5)"), 5.0);
}

#[test]
fn tree_shape_nests_the_tighter_operator() {
    let tree = parse_expression(b"2+3*4").unwrap();
    match tree {
        ExpressionTree::Expression { operator: BinaryOperator::Add, left, right } => {
            match *left {
                ExpressionTree::Value(n) => assert_eq!(n.literal, b"2"),
                _ => panic!("left operand should be the literal 2"),
            }
            match *right {
                ExpressionTree::Expression {
                    operator: BinaryOperator::Mul,
                    left: mul_left,
                    right: mul_right,
                } => {
                    match *mul_left {
                        ExpressionTree::Value(n) => assert_eq!(n.literal, b"3"),
                        _ => panic!("inner left operand should be the literal 3"),
                    }
                    match *mul_right {
                        ExpressionTree::Value(n) => assert_eq!(n.literal, b"4"),
                        _ => panic!("inner right operand should be the literal 4"),
                    }
                }
                _ => panic!("the multiplication should nest under the addition"),
            }
        }
        _ => panic!("the addition should be at the root"),
    }
}
