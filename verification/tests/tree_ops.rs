use matheval::ast::ASTNode;
use matheval::binary_operator::BinaryOperator;
use matheval::expression_tree::{Evaluate, ExpressionTree, Priority};
use matheval::operator::Operator;

#[derive(Clone, Copy, PartialEq, Debug)]
struct Num(f64);

impl Evaluate<Num> for BinaryOperator {
    fn evaluate(&self, left: Num, right: Num) -> Num {
        match self {
            BinaryOperator::Add => Num(left.0 + right.0),
            BinaryOperator::Sub => Num(left.0 - right.0),
            BinaryOperator::Div => Num(left.0 / right.0),
            BinaryOperator::Mul => Num(left.0 * right.0),
            BinaryOperator::Pow => Num(left.0.powf(right.0)),
            BinaryOperator::Mod => Num(left.0 % right.0),
            BinaryOperator::Or => Num((left.0 as i128 | right.0 as i128) as f64),
            BinaryOperator::And => Num((left.0 as i128 & right.0 as i128) as f64),
            BinaryOperator::Xor => Num((left.0 as i128 ^ right.0 as i128) as f64),
        }
    }
}

#[test]
fn priorities_follow_the_canonical_table() {
    assert_eq!(BinaryOperator::Add.priority(), 0);
    assert_eq!(BinaryOperator::Sub.priority(), 0);
    assert_eq!(BinaryOperator::Div.priority(), 1);
    assert_eq!(BinaryOperator::Mul.priority(), 1);
    assert_eq!(BinaryOperator::Mod.priority(), 1);
    assert_eq!(BinaryOperator::Pow.priority(), 2);
    assert_eq!(BinaryOperator::Or.priority(), 2);
    assert_eq!(BinaryOperator::And.priority(), 2);
    assert_eq!(BinaryOperator::Xor.priority(), 2);
}

#[test]
fn parse_next_reads_single_byte_operators() {
    let bytes = b"+-*/%^|&";
    let mut idx = 0usize;
    assert!(matches!(BinaryOperator::parse_next(bytes, &mut idx), Some(BinaryOperator::Add)));
    assert!(matches!(BinaryOperator::parse_next(bytes, &mut idx), Some(BinaryOperator::Sub)));
    assert!(matches!(BinaryOperator::parse_next(bytes, &mut idx), Some(BinaryOperator::Mul)));
    assert!(matches!(BinaryOperator::parse_next(bytes, &mut idx), Some(BinaryOperator::Div)));
    assert!(matches!(BinaryOperator::parse_next(bytes, &mut idx), Some(BinaryOperator::Mod)));
    assert!(matches!(BinaryOperator::parse_next(bytes, &mut idx), Some(BinaryOperator::Xor)));
    assert!(matches!(BinaryOperator::parse_next(bytes, &mut idx), Some(BinaryOperator::Or)));
    assert!(matches!(BinaryOperator::parse_next(bytes, &mut idx), Some(BinaryOperator::And)));
    assert_eq!(idx, 8);
    assert!(BinaryOperator::parse_next(bytes, &mut idx).is_none());
}

#[test]
fn parse_next_reads_double_star_as_power() {
    let bytes = b"**1";
    let mut idx = 0usize;
    assert!(matches!(BinaryOperator::parse_next(bytes, &mut idx), Some(BinaryOperator::Pow)));
    assert_eq!(idx, 2);
}

#[test]
fn parse_next_rejects_an_unknown_byte_without_moving() {
    let bytes = b"@";
    let mut idx = 0usize;
    assert!(BinaryOperator::parse_next(bytes, &mut idx).is_none());
    assert_eq!(idx, 0);
}

#[test]
fn append_descends_for_a_tighter_operator() {
    // 2 + 3, then * 4: the multiplication nests under the addition
    let tree = ExpressionTree::new_expression(
        ExpressionTree::Value(Num(2.0)),
        BinaryOperator::Add,
        ExpressionTree::Value(Num(3.0)),
    );
    let tree = tree.append(BinaryOperator::Mul, ExpressionTree::Value(Num(4.0)));
    assert_eq!(tree.evaluate(), Num(14.0));
}

#[test]
fn append_roots_an_equal_priority_operator() {
    // 10 - 3, then - 2: the new subtraction becomes the root
    let tree = ExpressionTree::new_expression(
        ExpressionTree::Value(Num(10.0)),
        BinaryOperator::Sub,
        ExpressionTree::Value(Num(3.0)),
    );
    let tree = tree.append(BinaryOperator::Sub, ExpressionTree::Value(Num(2.0)));
    assert_eq!(tree.evaluate(), Num(5.0));
}

#[test]
fn append_treats_an_enclosed_group_as_atomic() {
    // (2 + 3), then * 4: the group is never torn apart
    let group = ExpressionTree::new_enclosed(ExpressionTree::new_expression(
        ExpressionTree::Value(Num(2.0)),
        BinaryOperator::Add,
        ExpressionTree::Value(Num(3.0)),
    ));
    let tree = group.append(BinaryOperator::Mul, ExpressionTree::Value(Num(4.0)));
    assert_eq!(tree.evaluate(), Num(20.0));
}

#[test]
fn operator_carries_priority_and_rule() {
    let add = Operator::new(0, |a: i64, b: i64| a + b);
    assert_eq!(add.priority(), 0);
    assert_eq!(add.evaluate(2, 3), 5);
}

#[test]
fn ast_node_appends_by_priority() {
    // 2 + 3 * 4 through the descriptor-based tree
    let add: Operator<i64, fn(i64, i64) -> i64> = Operator::new(0, |a, b| a + b);
    let mul: Operator<i64, fn(i64, i64) -> i64> = Operator::new(1, |a, b| a * b);
    let tree = ASTNode::Value(2i64);
    let tree = tree.append(add, ASTNode::Value(3i64));
    let tree = tree.append(mul, ASTNode::Value(4i64));
    assert_eq!(tree.evaluate(), 14);
}

#[test]
fn ast_node_roots_equal_priority() {
    let sub_first: Operator<i64, fn(i64, i64) -> i64> = Operator::new(0, |a, b| a - b);
    let sub_second: Operator<i64, fn(i64, i64) -> i64> = Operator::new(0, |a, b| a - b);
    let tree = ASTNode::Value(10i64);
    let tree = tree.append(sub_first, ASTNode::Value(3i64));
    let tree = tree.append(sub_second, ASTNode::Value(2i64));
    assert_eq!(tree.evaluate(), 5);
}

#[test]
fn ast_new_expression_evaluates_its_operator() {
    let mul: Operator<i64, fn(i64, i64) -> i64> = Operator::new(1, |a, b| a * b);
    let tree = ASTNode::new_expression(ASTNode::Value(6i64), mul, ASTNode::Value(7i64));
    assert_eq!(tree.evaluate(), 42);
}
