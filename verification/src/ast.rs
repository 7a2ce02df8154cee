use vstd::prelude::*;

use crate::operator::Operator;

verus! {

/// An expression tree over leaf type `T`, with each binary node carrying an
/// `Operator` descriptor: a priority and an evaluation rule passed in as a
/// function value.
#[derive(Debug)]
pub enum ASTNode<T, F> {
    Value(T),
    Expression {
        operator: Operator<T, F>,
        left: Box<ASTNode<T, F>>,
        right: Box<ASTNode<T, F>>,
    },
}

impl<T, F: Fn(T, T) -> T> ASTNode<T, F> {
    pub fn new_expression(
        left: ASTNode<T, F>,
        operator: Operator<T, F>,
        right: ASTNode<T, F>,
    ) -> (r: Self)
        ensures
            r == (ASTNode::Expression {
                operator,
                left: Box::new(left),
                right: Box::new(right),
            }),
    {
        ASTNode::Expression {
            operator,
            left: Box::new(left),
            right: Box::new(right),
        }
    }

    /// The insertion algorithm: an operator that binds strictly tighter
    /// than the root descends along the rightmost spine; otherwise the
    /// whole prior tree becomes the left child of the new operator.
    pub open spec fn spec_append(self, operator: Operator<T, F>, right: Self) -> Self
        decreases self,
    {
        match self {
            ASTNode::Expression { operator: self_operator, left, right: self_right } => {
                if operator.spec_priority() > self_operator.spec_priority() {
                    ASTNode::Expression {
                        operator: self_operator,
                        left,
                        right: Box::new(self_right.spec_append(operator, right)),
                    }
                } else {
                    ASTNode::Expression {
                        operator,
                        left: Box::new(self),
                        right: Box::new(right),
                    }
                }
            },
            _ => ASTNode::Expression {
                operator,
                left: Box::new(self),
                right: Box::new(right),
            },
        }
    }

    /// Incorporates one new (operator, operand) pair, preserving the
    /// precedence-respecting grouping of everything inserted so far.
    pub fn append(self, operator: Operator<T, F>, right: Self) -> (r: Self)
        ensures
            r == self.spec_append(operator, right),
        decreases self,
    {
        match self {
            ASTNode::Expression { operator: self_operator, left, right: self_right } => {
                if operator.priority() > self_operator.priority() {
                    let new_right = (*self_right).append(operator, right);
                    ASTNode::Expression {
                        operator: self_operator,
                        left,
                        right: Box::new(new_right),
                    }
                } else {
                    let prior = ASTNode::Expression {
                        operator: self_operator,
                        left,
                        right: self_right,
                    };
                    ASTNode::Expression {
                        operator,
                        left: Box::new(prior),
                        right: Box::new(right),
                    }
                }
            },
            atom => ASTNode::Expression {
                operator,
                left: Box::new(atom),
                right: Box::new(right),
            },
        }
    }

    /// Every operator in the tree accepts every pair of operands, so a
    /// post-order reduction can never fail to call one.
    pub open spec fn all_ops_callable(self) -> bool
        decreases self,
    {
        match self {
            ASTNode::Value(_) => true,
            ASTNode::Expression { operator, left, right } => {
                &&& forall|a: T, b: T| #[trigger] call_requires(operator.spec_func(), (a, b))
                &&& left.all_ops_callable()
                &&& right.all_ops_callable()
            },
        }
    }

    /// `result` is a post-order evaluation of the tree: a leaf evaluates to
    /// its value, and a binary node to a value its operator's rule may
    /// return for evaluations of its two children.
    pub open spec fn evaluates_to(self, result: T) -> bool
        decreases self,
    {
        match self {
            ASTNode::Value(v) => result == v,
            ASTNode::Expression { operator, left, right } => exists|a: T, b: T|
                left.evaluates_to(a) && right.evaluates_to(b) && #[trigger] call_ensures(
                    operator.spec_func(),
                    (a, b),
                    result,
                ),
        }
    }

    /// Every operator in the tree is a deterministic rule: for one pair of
    /// operands it admits only one result.
    pub open spec fn all_ops_deterministic(self) -> bool
        decreases self,
    {
        match self {
            ASTNode::Value(_) => true,
            ASTNode::Expression { operator, left, right } => {
                &&& (forall|a: T, b: T, r1: T, r2: T|
                    #[trigger] call_ensures(operator.spec_func(), (a, b), r1) && #[trigger]
                    call_ensures(operator.spec_func(), (a, b), r2) ==> r1 == r2)
                &&& left.all_ops_deterministic()
                &&& right.all_ops_deterministic()
            },
        }
    }

    /// Under deterministic operator rules a tree evaluates to exactly one
    /// value: any two post-order reductions of the same tree agree.
    pub proof fn lemma_evaluation_deterministic(self, r1: T, r2: T)
        requires
            self.all_ops_deterministic(),
            self.evaluates_to(r1),
            self.evaluates_to(r2),
        ensures
            r1 == r2,
        decreases self,
    {
        match self {
            ASTNode::Value(_) => {},
            ASTNode::Expression { operator, left, right } => {
                let (a1, b1) = choose|a: T, b: T|
                    left.evaluates_to(a) && right.evaluates_to(b) && #[trigger] call_ensures(
                        operator.spec_func(),
                        (a, b),
                        r1,
                    );
                let (a2, b2) = choose|a: T, b: T|
                    left.evaluates_to(a) && right.evaluates_to(b) && #[trigger] call_ensures(
                        operator.spec_func(),
                        (a, b),
                        r2,
                    );
                (*left).lemma_evaluation_deterministic(a1, a2);
                (*right).lemma_evaluation_deterministic(b1, b2);
            },
        }
    }

    /// Reduces the tree to a single value in post order.
    pub fn evaluate(self) -> (r: T)
        requires
            self.all_ops_callable(),
        ensures
            self.evaluates_to(r),
        decreases self,
    {
        let ghost this = self;
        match self {
            ASTNode::Value(value) => value,
            ASTNode::Expression { operator, left, right } => {
                let a = (*left).evaluate();
                let b = (*right).evaluate();
                let ghost func = operator.spec_func();
                let r = operator.evaluate(a, b);
                proof {
                    assert(call_ensures(func, (a, b), r));
                    assert(this.evaluates_to(r));
                }
                r
            },
        }
    }
}

} // verus!
