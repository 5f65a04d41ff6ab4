use vstd::prelude::*;
use crate::field::{fadd, fmul, Scalar};

verus! {

/// A variable of a constraint system. Public variables come first in the
/// full assignment, after the constant one, and private ones after them.
#[derive(Clone, Copy, Debug, PartialEq, Eq, Structural)]
pub enum Variable {
    One,
    Public(usize),
    Private(usize),
}

#[derive(Clone, Copy, Debug, PartialEq, Eq, Structural)]
pub enum VarKind {
    Public,
    Private,
}

#[derive(Clone, Copy, Debug, PartialEq, Eq, Structural)]
pub enum SynthesisError {
    /// A variable that an evaluation needs has no value.
    AssignmentMissing,
    /// A constraint names a variable that was never allocated.
    UnallocatedVariable,
}

/// A sum of coefficient-variable terms.
#[derive(Clone, Debug)]
pub struct LinearCombination {
    pub terms: Vec<(Scalar, Variable)>,
}

/// The constraint `a * b = c`.
#[derive(Clone, Debug)]
pub struct Constraint {
    pub a: LinearCombination,
    pub b: LinearCombination,
    pub c: LinearCombination,
}

/// A rank-1 constraint system. In structural mode it holds the shape only
/// and every value is absent; in assigned mode every variable has a value.
#[derive(Clone, Debug)]
pub struct ConstraintSystem {
    pub assigned: bool,
    pub public_values: Vec<Option<Scalar>>,
    pub private_values: Vec<Option<Scalar>>,
    pub constraints: Vec<Constraint>,
}

pub open spec fn opt_view(o: Option<Scalar>) -> Option<int> {
    match o {
        Some(s) => Some(s@),
        None => None,
    }
}

impl ConstraintSystem {
    pub open spec fn allocated(&self, v: Variable) -> bool {
        match v {
            Variable::One => true,
            Variable::Public(i) => i < self.public_values.len(),
            Variable::Private(i) => i < self.private_values.len(),
        }
    }

    /// The value of a variable, where it has one.
    pub open spec fn value_of(&self, v: Variable) -> Option<int> {
        match v {
            Variable::One => Some(1),
            Variable::Public(i) => if i < self.public_values.len() {
                opt_view(self.public_values@[i as int])
            } else {
                None
            },
            Variable::Private(i) => if i < self.private_values.len() {
                opt_view(self.private_values@[i as int])
            } else {
                None
            },
        }
    }

    /// The value of a list of terms, where every variable in it has one.
    pub open spec fn eval_terms(&self, terms: Seq<(Scalar, Variable)>) -> Option<int>
        decreases terms.len(),
    {
        if terms.len() == 0 {
            Some(0)
        } else {
            match (self.eval_terms(terms.drop_last()), self.value_of(terms.last().1)) {
                (Some(acc), Some(x)) => Some(fadd(acc, fmul(terms.last().0@, x))),
                _ => None,
            }
        }
    }

    pub open spec fn eval_lc(&self, lc: LinearCombination) -> Option<int> {
        self.eval_terms(lc.terms@)
    }

    /// Every variable that constraint `k` names has a value.
    pub open spec fn constraint_assigned(&self, k: int) -> bool {
        &&& self.eval_lc(self.constraints@[k].a) is Some
        &&& self.eval_lc(self.constraints@[k].b) is Some
        &&& self.eval_lc(self.constraints@[k].c) is Some
    }

    /// Constraint `k` holds: `(A.w) * (B.w) = C.w`.
    pub open spec fn constraint_holds(&self, k: int) -> bool {
        self.constraint_assigned(k) && fmul(
            self.eval_lc(self.constraints@[k].a).unwrap(),
            self.eval_lc(self.constraints@[k].b).unwrap(),
        ) == self.eval_lc(self.constraints@[k].c).unwrap()
    }

    pub open spec fn fully_assigned(&self) -> bool {
        forall|k: int| 0 <= k < self.constraints.len() ==> #[trigger] self.constraint_assigned(k)
    }

    pub open spec fn satisfied(&self) -> bool {
        forall|k: int| 0 <= k < self.constraints.len() ==> #[trigger] self.constraint_holds(k)
    }

    pub open spec fn lc_allocated(&self, lc: LinearCombination) -> bool {
        forall|t: int| 0 <= t < lc.terms.len() ==> self.allocated(#[trigger] lc.terms@[t].1)
    }

    pub proof fn lemma_satisfied_assigned(&self)
        ensures
            self.satisfied() ==> self.fully_assigned(),
    {
        if self.satisfied() {
            assert forall|k: int| 0 <= k < self.constraints.len() implies #[trigger] self.constraint_assigned(k) by {
                assert(self.constraint_holds(k));
            }
        }
    }

    pub fn new_structural() -> (r: ConstraintSystem)
        ensures
            !r.assigned,
            r.public_values.len() == 0,
            r.private_values.len() == 0,
            r.constraints.len() == 0,
    {
        ConstraintSystem {
            assigned: false,
            public_values: Vec::new(),
            private_values: Vec::new(),
            constraints: Vec::new(),
        }
    }

    pub fn new_assigned() -> (r: ConstraintSystem)
        ensures
            r.assigned,
            r.public_values.len() == 0,
            r.private_values.len() == 0,
            r.constraints.len() == 0,
    {
        ConstraintSystem {
            assigned: true,
            public_values: Vec::new(),
            private_values: Vec::new(),
            constraints: Vec::new(),
        }
    }

    pub fn num_public(&self) -> (r: usize)
        ensures
            r == self.public_values.len(),
    {
        self.public_values.len()
    }

    pub fn num_private(&self) -> (r: usize)
        ensures
            r == self.private_values.len(),
    {
        self.private_values.len()
    }

    /// Appends a variable of the given kind. A structural system drops the
    /// value; an assigned one needs it.
    pub fn allocate(&mut self, kind: VarKind, value: Option<Scalar>) -> (r: Result<
        Variable,
        SynthesisError,
    >)
        ensures
            old(self).assigned && value is None ==> r == Err::<Variable, SynthesisError>(
                SynthesisError::AssignmentMissing,
            ) && *final(self) == *old(self),
            !(old(self).assigned && value is None) ==> {
                let stored = if old(self).assigned { value } else { None };
                &&& final(self).assigned == old(self).assigned
                &&& final(self).constraints@ == old(self).constraints@
                &&& kind == VarKind::Public ==> {
                    &&& r == Ok::<Variable, SynthesisError>(
                        Variable::Public(old(self).public_values.len()),
                    )
                    &&& final(self).public_values@ == old(self).public_values@.push(stored)
                    &&& final(self).private_values@ == old(self).private_values@
                }
                &&& kind == VarKind::Private ==> {
                    &&& r == Ok::<Variable, SynthesisError>(
                        Variable::Private(old(self).private_values.len()),
                    )
                    &&& final(self).private_values@ == old(self).private_values@.push(stored)
                    &&& final(self).public_values@ == old(self).public_values@
                }
            },
    {
        if self.assigned && value.is_none() {
            return Err(SynthesisError::AssignmentMissing);
        }
        let stored = if self.assigned {
            value
        } else {
            None
        };
        match kind {
            VarKind::Public => {
                let i = self.public_values.len();
                self.public_values.push(stored);
                Ok(Variable::Public(i))
            },
            VarKind::Private => {
                let i = self.private_values.len();
                self.private_values.push(stored);
                Ok(Variable::Private(i))
            },
        }
    }

    fn check_allocated(&self, lc: &LinearCombination) -> (r: bool)
        ensures
            r == self.lc_allocated(*lc),
    {
        let mut t: usize = 0;
        while t < lc.terms.len()
            invariant
                0 <= t <= lc.terms.len(),
                forall|u: int| 0 <= u < t ==> self.allocated(#[trigger] lc.terms@[u].1),
            decreases lc.terms.len() - t,
        {
            let ok = match lc.terms[t].1 {
                Variable::One => true,
                Variable::Public(i) => i < self.public_values.len(),
                Variable::Private(i) => i < self.private_values.len(),
            };
            if !ok {
                return false;
            }
            t = t + 1;
        }
        true
    }

    /// Appends the constraint `a * b = c`, which may name allocated
    /// variables only.
    pub fn enforce(
        &mut self,
        a: LinearCombination,
        b: LinearCombination,
        c: LinearCombination,
    ) -> (r: Result<(), SynthesisError>)
        ensures
            (old(self).lc_allocated(a) && old(self).lc_allocated(b) && old(self).lc_allocated(c))
                ==> r is Ok && final(self).constraints@ == old(self).constraints@.push(
                (Constraint { a, b, c }),
            ),
            !(old(self).lc_allocated(a) && old(self).lc_allocated(b) && old(self).lc_allocated(c))
                ==> r == Err::<(), SynthesisError>(SynthesisError::UnallocatedVariable)
                && final(self).constraints@ == old(self).constraints@,
            final(self).assigned == old(self).assigned,
            final(self).public_values@ == old(self).public_values@,
            final(self).private_values@ == old(self).private_values@,
    {
        if !self.check_allocated(&a) || !self.check_allocated(&b) || !self.check_allocated(&c) {
            return Err(SynthesisError::UnallocatedVariable);
        }
        self.constraints.push(Constraint { a, b, c });
        Ok(())
    }

    fn value(&self, v: Variable) -> (r: Option<Scalar>)
        ensures
            opt_view(r) == self.value_of(v),
    {
        match v {
            Variable::One => Some(Scalar::one()),
            Variable::Public(i) => if i < self.public_values.len() {
                self.public_values[i]
            } else {
                None
            },
            Variable::Private(i) => if i < self.private_values.len() {
                self.private_values[i]
            } else {
                None
            },
        }
    }

    /// The value of a linear combination, where every variable in it has one.
    pub fn evaluate(&self, lc: &LinearCombination) -> (r: Option<Scalar>)
        ensures
            opt_view(r) == self.eval_lc(*lc),
    {
        let mut acc = Scalar::zero();
        let mut t: usize = 0;
        while t < lc.terms.len()
            invariant
                0 <= t <= lc.terms.len(),
                self.eval_terms(lc.terms@.take(t as int)) == Some(acc@),
            decreases lc.terms.len() - t,
        {
            assert(lc.terms@.take(t + 1).drop_last() =~= lc.terms@.take(t as int));
            let (coeff, var) = lc.terms[t];
            match self.value(var) {
                Some(x) => {
                    acc = acc.add(&coeff.mul(&x));
                },
                None => {
                    proof {
                        self.lemma_missing_prefix(lc.terms@, t as int + 1);
                    }
                    return None;
                },
            }
            t = t + 1;
        }
        assert(lc.terms@.take(lc.terms.len() as int) =~= lc.terms@);
        Some(acc)
    }

    /// A term without a value leaves every longer prefix without one.
    proof fn lemma_missing_prefix(&self, terms: Seq<(Scalar, Variable)>, n: int)
        requires
            1 <= n <= terms.len(),
            self.value_of(terms[n - 1].1) is None,
        ensures
            self.eval_terms(terms) is None,
        decreases terms.len(),
    {
        if n < terms.len() {
            self.lemma_missing_prefix(terms.drop_last(), n);
        } else {
            assert(terms.last() == terms[n - 1]);
        }
    }

    /// Evaluates every constraint: `AssignmentMissing` where some named
    /// variable has no value, otherwise whether all of them hold.
    pub fn is_satisfied(&self) -> (r: Result<bool, SynthesisError>)
        ensures
            r is Err <==> !self.fully_assigned(),
            r is Err ==> r == Err::<bool, SynthesisError>(SynthesisError::AssignmentMissing),
            r matches Ok(b) ==> b == self.satisfied(),
    {
        let mut all_hold = true;
        let mut k: usize = 0;
        while k < self.constraints.len()
            invariant
                0 <= k <= self.constraints.len(),
                forall|j: int| 0 <= j < k ==> #[trigger] self.constraint_assigned(j),
                all_hold == forall|j: int| 0 <= j < k ==> #[trigger] self.constraint_holds(j),
            decreases self.constraints.len() - k,
        {
            let con = &self.constraints[k];
            let a = self.evaluate(&con.a);
            let b = self.evaluate(&con.b);
            let c = self.evaluate(&con.c);
            match (a, b, c) {
                (Some(a), Some(b), Some(c)) => {
                    let holds = a.mul(&b).equals(&c);
                    assert(self.constraint_holds(k as int) == holds);
                    if !holds {
                        all_hold = false;
                    }
                },
                _ => {
                    assert(!self.constraint_assigned(k as int));
                    return Err(SynthesisError::AssignmentMissing);
                },
            }
            assert(self.constraint_assigned(k as int));
            k = k + 1;
        }
        Ok(all_hold)
    }
}

} // verus!
