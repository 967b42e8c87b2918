//! Operations that are carried out for one name after the other, until one fails.

use vstd::prelude::*;
use crate::text::views;

verus! {

/// Names that wait for an operation, in order. The operation itself is carried
/// out by the caller: [`Batch::current`] says for which name, and
/// [`Batch::record`] takes what came of it.
#[derive(Debug)]
pub struct Batch {
    names: Vec<String>,
    next: usize,
    failure: Option<String>,
}

/// The model of a [`Batch`].
#[verifier::ext_equal]
pub struct BatchView {
    /// All the names.
    pub names: Seq<Seq<char>>,
    /// For how many of them, from the first on, the operation succeeded.
    pub done: nat,
    /// What the operation failed with, once it did.
    pub failure: Option<Seq<char>>,
}

impl BatchView {
    /// The name that the operation is due for.
    pub open spec fn current(self) -> Option<Seq<char>> {
        if self.failure is None && self.done < self.names.len() {
            Some(self.names[self.done as int])
        } else {
            None
        }
    }

    /// The batch after the operation came out for the current name.
    pub open spec fn recorded(self, outcome: Result<(), Seq<char>>) -> BatchView {
        if self.current() is None {
            self
        } else {
            match outcome {
                Ok(()) => BatchView { done: self.done + 1, ..self },
                Err(e) => BatchView { failure: Some(e), ..self },
            }
        }
    }

    /// The batch after a number of outcomes.
    pub open spec fn recorded_all(self, outcomes: Seq<Result<(), Seq<char>>>) -> BatchView
        decreases outcomes.len(),
    {
        if outcomes.len() == 0 {
            self
        } else {
            self.recorded_all(outcomes.drop_last()).recorded(outcomes.last())
        }
    }

    /// What the batch gives: the failure, or the names that are done.
    pub open spec fn result(self) -> Result<Seq<Seq<char>>, Seq<char>> {
        match self.failure {
            Some(e) => Err(e),
            None => Ok(self.names.take(self.done as int)),
        }
    }
}

/// The batch of these names before any of them is done.
pub open spec fn fresh_batch(names: Seq<Seq<char>>) -> BatchView {
    BatchView { names, done: 0, failure: None }
}

/// The view of an outcome.
pub open spec fn outcome_view(o: Result<(), String>) -> Result<(), Seq<char>> {
    match o {
        Ok(()) => Ok(()),
        Err(e) => Err(e@),
    }
}

impl View for Batch {
    type V = BatchView;

    closed spec fn view(&self) -> BatchView {
        BatchView {
            names: views(self.names@),
            done: self.next as nat,
            failure: match self.failure {
                Some(e) => Some(e@),
                None => None,
            },
        }
    }
}

impl Batch {
    #[verifier::type_invariant]
    spec fn well_formed(self) -> bool {
        self.next <= self.names@.len()
    }

    /// A batch of these names, none of them done.
    pub fn new(names: Vec<String>) -> (r: Self)
        ensures
            r@ == fresh_batch(views(names@)),
            r@.names.len() == names@.len(),
            forall|i: int| 0 <= i < names@.len() ==> #[trigger] r@.names[i] == names@[i]@,
            r@.done == 0,
            r@.failure is None,
    {
        Batch { names, next: 0, failure: None }
    }

    /// All the names.
    pub fn names(&self) -> (r: &Vec<String>)
        ensures
            views(r@) == self@.names,
            r@.len() == self@.names.len(),
            forall|i: int| 0 <= i < r@.len() ==> #[trigger] r@[i]@ == self@.names[i],
    {
        assert forall|i: int| 0 <= i < self.names@.len() implies #[trigger] self.names@[i]@
            == self@.names[i] by {
            assert(views(self.names@)[i] == self.names@[i]@);
        }
        &self.names
    }

    /// The name that the operation is due for: the first that is not done, if
    /// nothing has failed.
    pub fn current(&self) -> (r: Option<&str>)
        ensures
            match r {
                Some(name) => self@.current() == Some(name@),
                None => self@.current() is None,
            },
            match r {
                Some(name) => {
                    &&& self@.failure is None
                    &&& self@.done < self@.names.len()
                    &&& name@ == self@.names[self@.done as int]
                },
                None => self@.failure is Some || self@.done >= self@.names.len(),
            },
    {
        match &self.failure {
            Some(_) => None,
            None => {
                if self.next < self.names.len() {
                    Some(self.names[self.next].as_str())
                } else {
                    None
                }
            },
        }
    }

    /// Takes what came of the operation for the current name. Where no name is
    /// due nothing changes.
    pub fn record(&mut self, outcome: Result<(), String>)
        ensures
            final(self)@ == old(self)@.recorded(outcome_view(outcome)),
            final(self)@.names == old(self)@.names,
            if old(self)@.failure is None && old(self)@.done < old(self)@.names.len() {
                match outcome {
                    Ok(()) => {
                        &&& final(self)@.done == old(self)@.done + 1
                        &&& final(self)@.failure is None
                    },
                    Err(e) => {
                        &&& final(self)@.done == old(self)@.done
                        &&& final(self)@.failure == Some(e@)
                    },
                }
            } else {
                final(self)@ == old(self)@
            },
    {
        proof {
            use_type_invariant(&*self);
        }
        let ghost before = self@;
        if self.failure.is_none() && self.next < self.names.len() {
            match outcome {
                Ok(()) => {
                    self.next = self.next + 1;
                },
                Err(e) => {
                    self.failure = Some(e);
                },
            }
        }
        assert(self@ =~= before.recorded(outcome_view(outcome)));
    }

    /// What the batch gives: the failure, or the names that are done.
    pub fn finish(self) -> (r: Result<Vec<String>, String>)
        ensures
            match r {
                Ok(names) => self@.result() == Ok::<Seq<Seq<char>>, Seq<char>>(views(names@)),
                Err(e) => self@.result() == Err::<Seq<Seq<char>>, Seq<char>>(e@),
            },
            match self@.failure {
                Some(e) => r is Err && r->Err_0@ == e,
                None => {
                    &&& r is Ok
                    &&& r->Ok_0@.len() == self@.done
                    &&& forall|i: int|
                        0 <= i < self@.done ==> #[trigger] r->Ok_0@[i]@ == self@.names[i]
                },
            },
    {
        proof {
            use_type_invariant(&self);
        }
        match self.failure {
            Some(e) => Err(e),
            None => {
                let mut names = self.names;
                let ghost all = names@;
                names.truncate(self.next);
                assert(views(names@) =~= views(all).take(self.next as int));
                assert forall|i: int| 0 <= i < names@.len() implies #[trigger] names@[i]@
                    == views(all)[i] by {
                    assert(views(names@)[i] == names@[i]@);
                }
                Ok(names)
            },
        }
    }
}

/// Where the operation succeeds for every name, every name has had its turn, in
/// order, and the batch gives all of them.
pub proof fn law_all_succeed(names: Seq<Seq<char>>, outcomes: Seq<Result<(), Seq<char>>>)
    requires
        outcomes.len() <= names.len(),
        forall|i: int| 0 <= i < outcomes.len() ==> (#[trigger] outcomes[i]) is Ok,
    ensures
        fresh_batch(names).recorded_all(outcomes).done == outcomes.len(),
        fresh_batch(names).recorded_all(outcomes).failure is None,
        fresh_batch(names).recorded_all(outcomes).names == names,
        outcomes.len() < names.len() ==> fresh_batch(names).recorded_all(outcomes).current()
            == Some(names[outcomes.len() as int]),
        outcomes.len() == names.len() ==> {
            &&& fresh_batch(names).recorded_all(outcomes).current() is None
            &&& fresh_batch(names).recorded_all(outcomes).result() == Ok::<
                Seq<Seq<char>>,
                Seq<char>,
            >(names)
        },
    decreases outcomes.len(),
{
    if outcomes.len() > 0 {
        let front = outcomes.drop_last();
        assert forall|i: int| 0 <= i < front.len() implies (#[trigger] front[i]) is Ok by {
            assert(front[i] == outcomes[i]);
        }
        law_all_succeed(names, front);
        assert(outcomes[outcomes.len() - 1] == outcomes.last());
    }
    assert(names.take(names.len() as int) =~= names);
}

/// The first failure ends the batch: no name is due after it, later outcomes do
/// not count, and the batch gives that failure.
pub proof fn law_first_failure_ends(
    names: Seq<Seq<char>>,
    successes: Seq<Result<(), Seq<char>>>,
    failure: Seq<char>,
    later: Seq<Result<(), Seq<char>>>,
)
    requires
        successes.len() < names.len(),
        forall|i: int| 0 <= i < successes.len() ==> (#[trigger] successes[i]) is Ok,
    ensures
        ({
            let end = fresh_batch(names).recorded_all(
                successes.push(Err::<(), Seq<char>>(failure)) + later,
            );
            &&& end.current() is None
            &&& end.done == successes.len()
            &&& end.result() == Err::<Seq<Seq<char>>, Seq<char>>(failure)
        }),
    decreases later.len(),
{
    let failed = successes.push(Err::<(), Seq<char>>(failure));
    if later.len() == 0 {
        law_all_succeed(names, successes);
        assert(failed + later =~= failed);
        assert(failed.drop_last() =~= successes);
    } else {
        law_first_failure_ends(names, successes, failure, later.drop_last());
        assert((failed + later).drop_last() =~= failed + later.drop_last());
    }
}

/// An outcome is told apart by what came of it, with the text of its error.
pub proof fn law_outcomes_keep_their_errors(error: String)
    ensures
        outcome_view(Ok(())) == Ok::<(), Seq<char>>(()),
        outcome_view(Err(error)) == Err::<(), Seq<char>>(error@),
{
}

/// A batch that is left after some successes gives the names that are done: the first
/// ones, in order.
pub proof fn law_done_names_are_given(names: Seq<Seq<char>>, outcomes: Seq<Result<(), Seq<char>>>)
    requires
        outcomes.len() <= names.len(),
        forall|i: int| 0 <= i < outcomes.len() ==> (#[trigger] outcomes[i]) is Ok,
    ensures
        match fresh_batch(names).recorded_all(outcomes).result() {
            Ok(done) => {
                &&& done.len() == outcomes.len()
                &&& forall|i: int| 0 <= i < done.len() ==> #[trigger] done[i] == names[i]
            },
            Err(_) => false,
        },
{
    law_all_succeed(names, outcomes);
}

}
