use vstd::prelude::*;
use vstd::std_specs::iter::IteratorSpec;
use std::collections::VecDeque;
use crate::ir_gen::variable::Variable;
use crate::text::str_eq;

verus! {

/// The variables of one lexical scope, the one declared last first.
pub struct Scope<'a> {
    vars: VecDeque<Variable<'a>>,
}

/// Index of the first variable from index `from` on that is called `name`.
pub open spec fn position_from(vars: Seq<Variable>, name: Seq<char>, from: int) -> Option<int>
    decreases vars.len() - from,
{
    if from < 0 || from >= vars.len() {
        None
    } else if vars[from].name@ == name {
        Some(from)
    } else {
        position_from(vars, name, from + 1)
    }
}

/// Index of the first variable that is called `name`: a later declaration
/// shadows an earlier one of the same name.
pub open spec fn position(vars: Seq<Variable>, name: Seq<char>) -> Option<int> {
    position_from(vars, name, 0)
}

/// `position_from` finds an index in range that holds the name, and
/// nothing before it from `from` on holds it.
pub proof fn lemma_position(vars: Seq<Variable>, name: Seq<char>, from: int)
    requires
        0 <= from,
    ensures
        position_from(vars, name, from) matches Some(i) ==> {
            &&& from <= i < vars.len()
            &&& vars[i].name@ == name
            &&& forall|j: int| from <= j < i ==> (#[trigger] vars[j]).name@ != name
        },
        position_from(vars, name, from) is None ==> forall|j: int|
            from <= j < vars.len() ==> (#[trigger] vars[j]).name@ != name,
    decreases vars.len() - from,
{
    if from < vars.len() && vars[from].name@ != name {
        lemma_position(vars, name, from + 1);
    }
}

/// `VecDeque::get_mut` hands out the element at `index`, through which the
/// caller may replace it; past the end it hands out nothing and the deque
/// stays as it is.
#[verifier::external_body]
fn deque_get_mut<'b, T>(deque: &'b mut VecDeque<T>, index: usize) -> (r: Option<&'b mut T>)
    ensures
        index >= old(deque)@.len() ==> r is None && final(deque)@ == old(deque)@,
        index < old(deque)@.len() ==> r is Some && *r->0 == old(deque)@[index as int]
            && final(deque)@ == old(deque)@.update(index as int, *final(r->0)),
{
    deque.get_mut(index)
}

impl<'a> View for Scope<'a> {
    type V = Seq<Variable<'a>>;

    closed spec fn view(&self) -> Seq<Variable<'a>> {
        self.vars@
    }
}

impl<'a> Scope<'a> {
    pub fn new() -> (r: Self)
        ensures
            r@ == Seq::<Variable<'a>>::empty(),
    {
        Self { vars: VecDeque::new() }
    }

    /// The variable that `name` refers to in this scope, if it declares one.
    pub fn lookup(&self, name: &str) -> (r: Option<&Variable<'a>>)
        ensures
            match position(self@, name@) {
                Some(i) => r == Some(&self@[i]),
                None => r is None,
            },
    {
        let mut i: usize = 0;
        while i < self.vars.len()
            invariant
                i <= self.vars.len(),
                position(self.vars@, name@) == position_from(self.vars@, name@, i as int),
            decreases self.vars.len() - i,
        {
            if str_eq(self.vars[i].name, name) {
                return Some(&self.vars[i]);
            }
            i += 1;
        }
        None
    }

    /// As `lookup`, but the variable may be changed through the result.
    pub fn lookup_mut(&mut self, name: &str) -> (r: Option<&mut Variable<'a>>)
        ensures
            match position(old(self)@, name@) {
                Some(i) => r is Some && *r->0 == old(self)@[i]
                    && final(self)@ == old(self)@.update(i, *final(r->0)),
                None => r is None && final(self)@ == old(self)@,
            },
    {
        let mut i: usize = 0;
        while i < self.vars.len()
            invariant
                i <= self.vars.len(),
                self.vars@ == old(self).vars@,
                position(self.vars@, name@) == position_from(self.vars@, name@, i as int),
            decreases self.vars.len() - i,
        {
            if str_eq(self.vars[i].name, name) {
                return deque_get_mut(&mut self.vars, i);
            }
            i += 1;
        }
        None
    }

    /// Declares `var`; it shadows the variables of its name declared before.
    pub fn add(&mut self, var: Variable<'a>)
        ensures
            final(self)@ == seq![var] + old(self)@,
    {
        self.vars.push_front(var);
    }

    /// An iterator over the variables, the one declared last first.
    pub fn iter(&self) -> (it: std::collections::vec_deque::Iter<'_, Variable<'a>>)
        ensures
            it.remaining() == self@.as_ref(),
            it.decrease() is Some,
            it.initial_value_relation(&it),
    {
        broadcast use vstd::std_specs::vecdeque::axiom_spec_iter;

        self.vars.iter()
    }

    /// Number of variables declared in the scope.
    pub fn len(&self) -> (n: usize)
        ensures
            n == self@.len(),
    {
        self.vars.len()
    }

    /// The variable at index `i`, counted from the one declared last.
    pub fn get(&self, i: usize) -> (r: &Variable<'a>)
        requires
            i < self@.len(),
        ensures
            *r == self@[i as int],
    {
        &self.vars[i]
    }
}

} // verus!
