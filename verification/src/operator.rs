use vstd::prelude::*;

use core::marker::PhantomData;

verus! {

/// An operator descriptor: a binding strength paired with a binary
/// evaluation rule over operand type `T`. Immutable once constructed.
#[derive(Debug)]
pub struct Operator<T, F> {
    priority: usize,
    evaluation_func: F,
    operand: PhantomData<T>,
}

impl<T, F: Fn(T, T) -> T> Operator<T, F> {
    pub closed spec fn spec_priority(self) -> usize {
        self.priority
    }

    pub closed spec fn spec_func(self) -> F {
        self.evaluation_func
    }

    pub fn new(priority: usize, evaluation_func: F) -> (r: Self)
        ensures
            r.spec_priority() == priority,
            r.spec_func() == evaluation_func,
    {
        Self { priority, evaluation_func, operand: PhantomData }
    }

    pub fn priority(&self) -> (p: usize)
        ensures
            p == self.spec_priority(),
    {
        self.priority
    }

    /// Applies the evaluation rule to the two operands. The result is
    /// whatever the rule may return for them.
    pub fn evaluate(self, a: T, b: T) -> (r: T)
        requires
            call_requires(self.spec_func(), (a, b)),
        ensures
            call_ensures(self.spec_func(), (a, b), r),
    {
        (self.evaluation_func)(a, b)
    }
}

} // verus!
