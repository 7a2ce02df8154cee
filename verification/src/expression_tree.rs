use vstd::prelude::*;

verus! {

/// An operator's binding strength: a higher priority binds tighter during
/// tree insertion.
pub trait Priority {
    spec fn spec_priority(&self) -> usize;

    fn priority(&self) -> (p: usize)
        ensures
            p == self.spec_priority(),
    ;
}

/// A binary evaluation rule over operand type `T`, supplied by the
/// implementor. The numeric semantics (for example IEEE-754 floating point)
/// live entirely with the implementation and are not specified here.
pub trait Evaluate<T> {
    fn evaluate(&self, left: T, right: T) -> T;
}

/// An expression tree: a leaf value, a binary expression, or a parenthesized
/// group. An `Enclosed` node marks a fully parsed sub-expression as atomic,
/// so that operators appearing outside the parentheses never restructure its
/// interior.
#[derive(Debug)]
pub enum ExpressionTree<T, Op> {
    Value(T),
    Expression {
        operator: Op,
        left: Box<ExpressionTree<T, Op>>,
        right: Box<ExpressionTree<T, Op>>,
    },
    Enclosed(Box<ExpressionTree<T, Op>>),
}

impl<T, Op> ExpressionTree<T, Op> {
    pub fn new_expression(
        left: ExpressionTree<T, Op>,
        operator: Op,
        right: ExpressionTree<T, Op>,
    ) -> (r: Self)
        ensures
            r == (ExpressionTree::Expression {
                operator,
                left: Box::new(left),
                right: Box::new(right),
            }),
    {
        ExpressionTree::Expression {
            operator,
            left: Box::new(left),
            right: Box::new(right),
        }
    }

    pub fn new_enclosed(tree: ExpressionTree<T, Op>) -> (r: Self)
        ensures
            r == (ExpressionTree::Enclosed(Box::new(tree))),
    {
        ExpressionTree::Enclosed(Box::new(tree))
    }
}

impl<T, Op: Priority> ExpressionTree<T, Op> {
    /// The insertion algorithm, stated functionally: a new operator that
    /// binds strictly tighter than the root descends along the rightmost
    /// spine; otherwise the whole prior tree becomes the left child of the
    /// new operator, which gives operators of equal priority a
    /// left-to-right grouping. A leaf or an enclosed group is atomic.
    pub open spec fn spec_append(self, operator: Op, right: Self) -> Self
        decreases self,
    {
        match self {
            ExpressionTree::Expression { operator: self_operator, left, right: self_right } => {
                if operator.spec_priority() > self_operator.spec_priority() {
                    ExpressionTree::Expression {
                        operator: self_operator,
                        left,
                        right: Box::new(self_right.spec_append(operator, right)),
                    }
                } else {
                    ExpressionTree::Expression {
                        operator,
                        left: Box::new(self),
                        right: Box::new(right),
                    }
                }
            },
            _ => ExpressionTree::Expression {
                operator,
                left: Box::new(self),
                right: Box::new(right),
            },
        }
    }

    /// Incorporates one new (operator, operand) pair into the tree,
    /// preserving the precedence-respecting grouping of everything parsed
    /// so far.
    pub fn append(self, operator: Op, right: Self) -> (r: Self)
        ensures
            r == self.spec_append(operator, right),
        decreases self,
    {
        match self {
            ExpressionTree::Expression { operator: self_operator, left, right: self_right } => {
                if operator.priority() > self_operator.priority() {
                    let new_right = (*self_right).append(operator, right);
                    ExpressionTree::Expression {
                        operator: self_operator,
                        left,
                        right: Box::new(new_right),
                    }
                } else {
                    let prior = ExpressionTree::Expression {
                        operator: self_operator,
                        left,
                        right: self_right,
                    };
                    ExpressionTree::Expression {
                        operator,
                        left: Box::new(prior),
                        right: Box::new(right),
                    }
                }
            },
            atom => ExpressionTree::Expression {
                operator,
                left: Box::new(atom),
                right: Box::new(right),
            },
        }
    }
}

/// One token of a tree's in-order reading: an atomic operand (a leaf or an
/// enclosed group, taken whole) or an operator.
pub enum InfixToken<T, Op> {
    Atom(ExpressionTree<T, Op>),
    Operation(Op),
}

impl<T, Op: Priority> ExpressionTree<T, Op> {
    /// The in-order reading of the tree: its operands and operators in the
    /// order in which they were inserted. A leaf or an enclosed group is a
    /// single atom.
    pub open spec fn infix_tokens(self) -> Seq<InfixToken<T, Op>>
        decreases self,
    {
        match self {
            ExpressionTree::Expression { operator, left, right } => left.infix_tokens() + seq![
                InfixToken::Operation(operator),
            ] + right.infix_tokens(),
            _ => seq![InfixToken::Atom(self)],
        }
    }

    /// Insertion never reorders, loses or rewrites what was already parsed:
    /// the restructured tree reads as the old tree, then the new operator,
    /// then the new operand.
    pub proof fn lemma_append_preserves_order(self, operator: Op, right: Self)
        ensures
            self.spec_append(operator, right).infix_tokens() == self.infix_tokens() + seq![
                InfixToken::Operation(operator),
            ] + right.infix_tokens(),
        decreases self,
    {
        match self {
            ExpressionTree::Expression { operator: self_operator, left, right: self_right } => {
                if operator.spec_priority() > self_operator.spec_priority() {
                    (*self_right).lemma_append_preserves_order(operator, right);
                    assert(self.spec_append(operator, right).infix_tokens() =~= self.infix_tokens()
                        + seq![InfixToken::Operation(operator)] + right.infix_tokens());
                } else {
                    assert(self.spec_append(operator, right).infix_tokens() =~= self.infix_tokens()
                        + seq![InfixToken::Operation(operator)] + right.infix_tokens());
                }
            },
            _ => {
                assert(self.spec_append(operator, right).infix_tokens() =~= self.infix_tokens()
                    + seq![InfixToken::Operation(operator)] + right.infix_tokens());
            },
        }
    }

    /// Binding strengths strictly increase down the rightmost spine, the
    /// spine along which insertion descends: every operator there binds
    /// tighter than the operators above it, so it is evaluated first.
    pub open spec fn right_spine_ordered(self) -> bool
        decreases self,
    {
        match self {
            ExpressionTree::Expression { operator, left, right } => {
                &&& (match *right {
                    ExpressionTree::Expression { operator: r_operator, .. } => {
                        operator.spec_priority() < r_operator.spec_priority()
                    },
                    _ => true,
                })
                &&& right.right_spine_ordered()
            },
            _ => true,
        }
    }

    /// Inserting an atomic operand keeps the right spine ordered, so the
    /// tree reflects a precedence-respecting grouping after every single
    /// insertion; and the new root carries either the new operator or the
    /// operator that was at the root before.
    pub proof fn lemma_append_keeps_spine_ordered(self, operator: Op, right: Self)
        requires
            self.right_spine_ordered(),
            right matches ExpressionTree::Value(_) || right matches ExpressionTree::Enclosed(_),
        ensures
            self.spec_append(operator, right).right_spine_ordered(),
            (match self.spec_append(operator, right) {
                ExpressionTree::Expression { operator: new_root, .. } => {
                    new_root == operator || (match self {
                        ExpressionTree::Expression { operator: old_root, .. } => new_root
                            == old_root,
                        _ => false,
                    })
                },
                _ => false,
            }),
        decreases self,
    {
        match self {
            ExpressionTree::Expression { operator: self_operator, left, right: self_right } => {
                if operator.spec_priority() > self_operator.spec_priority() {
                    (*self_right).lemma_append_keeps_spine_ordered(operator, right);
                    let new_right = (*self_right).spec_append(operator, right);
                    assert(self.spec_append(operator, right) == (ExpressionTree::Expression {
                        operator: self_operator,
                        left,
                        right: Box::new(new_right),
                    }));
                    match new_right {
                        ExpressionTree::Expression { operator: new_right_root, .. } => {
                            assert(self_operator.spec_priority() < new_right_root.spec_priority());
                        },
                        _ => {},
                    }
                    let new_tree = ExpressionTree::Expression {
                        operator: self_operator,
                        left,
                        right: Box::new(new_right),
                    };
                    assert(new_right.right_spine_ordered());
                    assert(*new_tree->Expression_right == new_right);
                    assert(new_tree.right_spine_ordered());
                } else {
                    let new_tree = ExpressionTree::Expression {
                        operator,
                        left: Box::new(self),
                        right: Box::new(right),
                    };
                    assert(right.right_spine_ordered());
                    assert(new_tree.right_spine_ordered());
                }
            },
            _ => {
                let new_tree = ExpressionTree::Expression {
                    operator,
                    left: Box::new(self),
                    right: Box::new(right),
                };
                assert(right.right_spine_ordered());
                assert(new_tree.right_spine_ordered());
            },
        }
    }
}

impl<T, Op: Evaluate<T>> ExpressionTree<T, Op> {
    /// Post-order reduction of the tree to a single value: a leaf returns
    /// its value, a binary node applies the operator's rule to its reduced
    /// children, and an enclosed group returns its inner value unchanged.
    /// The operand arithmetic itself is supplied by the `Evaluate`
    /// implementation and is not specified here; what is verified is that
    /// the reduction is total and that a leaf returns exactly its value.
    pub fn evaluate(self) -> (r: T)
        ensures
            self matches ExpressionTree::Value(v) ==> r == v,
        decreases self,
    {
        match self {
            ExpressionTree::Value(value) => value,
            ExpressionTree::Expression { operator, left, right } => {
                let l = (*left).evaluate();
                let r = (*right).evaluate();
                operator.evaluate(l, r)
            },
            ExpressionTree::Enclosed(tree) => (*tree).evaluate(),
        }
    }
}

} // verus!
