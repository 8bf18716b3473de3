//! A guard over a borrowed vector: what is pushed through the guard leaves the
//! vector again when the guard goes out of scope.

use vstd::prelude::*;

verus! {

/// What a guard that owns the last `owned` entries of `contents` leaves behind.
pub open spec fn released<T>(contents: Seq<T>, owned: nat) -> Seq<T> {
    if owned <= contents.len() {
        contents.take(contents.len() - owned)
    } else {
        Seq::empty()
    }
}

/// A borrowed vector together with the number of entries at its tail that
/// were pushed through this guard.
pub struct StackVec<'a, T> {
    vec: &'a mut Vec<T>,
    pushed: usize,
}

impl<'a, T> View for StackVec<'a, T> {
    type V = Seq<T>;

    /// The whole shared vector, as the guard sees it now.
    closed spec fn view(&self) -> Seq<T> {
        self.vec@
    }
}

impl<'a, T> StackVec<'a, T> {
    /// How many trailing entries this guard will remove when it is dropped.
    pub closed spec fn owned(&self) -> nat {
        self.pushed as nat
    }

    /// Starts a scope on `vec` that owns nothing yet.
    pub fn new(vec: &'a mut Vec<T>) -> (guard: Self)
        ensures
            guard@ == old(vec)@,
            guard.owned() == 0,
    {
        Self { vec, pushed: 0 }
    }

    /// Appends `value` to the shared vector and takes ownership of the entry.
    pub fn push(&mut self, value: T)
        requires
            old(self).owned() < usize::MAX,
        ensures
            final(self)@ == old(self)@.push(value),
            final(self).owned() == old(self).owned() + 1,
    {
        self.pushed += 1;
        self.vec.push(value);
    }

    /// Lends out the shared vector, for reading or for a nested scope.
    /// Whatever the borrower leaves in it is what the guard sees afterwards.
    pub fn inner(&mut self) -> (shared: &mut Vec<T>)
        ensures
            shared@ == old(self)@,
            final(self)@ == final(shared)@,
            final(self).owned() == old(self).owned(),
    {
        self.vec
    }
}

impl<'a, T> Drop for StackVec<'a, T> {
    /// Removes the entries that this guard owns, newest first.
    fn drop(&mut self)
        ensures
            final(self)@ == released(old(self)@, old(self).owned()),
            final(self).owned() == 0,
        opens_invariants none
        no_unwind
    {
        release(self.vec, self.pushed);
        self.pushed = 0;
    }
}

/// Removes the last `owned` entries of `vec`, newest first, or all of them
/// where it holds fewer.
pub(crate) fn release<T>(vec: &mut Vec<T>, owned: usize)
    ensures
        final(vec)@ == released(old(vec)@, owned as nat),
    opens_invariants none
    no_unwind
{
    let ghost before = vec@;
    let mut left: usize = owned;
    assert(vec@ =~= released(before, 0));
    while left > 0
        invariant
            left <= owned,
            vec@ == released(before, (owned - left) as nat),
        decreases left,
    {
        pop_back(vec);
        proof {
            lemma_release_stepwise(before, (owned - left) as nat);
        }
        left -= 1;
    }
}

/// `Vec::pop`, with its result dropped: the last entry leaves the vector, and
/// an empty vector stays empty. Trusted beyond what vstd says of `pop`: the
/// call neither panics nor opens an invariant, which a destructor needs.
#[verifier::external_body]
fn pop_back<T>(vec: &mut Vec<T>)
    ensures
        final(vec)@ == released(old(vec)@, 1),
    opens_invariants none
    no_unwind
{
    vec.pop();
}

/// A scope that pushed `pushed` onto `base` leaves `base` behind.
pub proof fn law_release_restores<T>(base: Seq<T>, pushed: Seq<T>)
    ensures
        released(base + pushed, pushed.len()) == base,
{
    assert((base + pushed).take(base.len() as int) =~= base);
}

/// Nested scopes: the inner scope removes only its own entries, so the outer
/// scope sees its own again, and after both the vector is as it was.
pub proof fn law_release_nested<T>(base: Seq<T>, outer: Seq<T>, nested: Seq<T>)
    ensures
        released(base + outer + nested, nested.len()) == base + outer,
        released(released(base + outer + nested, nested.len()), outer.len()) == base,
{
    law_release_restores(base + outer, nested);
    law_release_restores(base, outer);
}

/// Releasing an entry at a time is releasing them all at once.
pub proof fn lemma_release_stepwise<T>(contents: Seq<T>, owned: nat)
    ensures
        released(released(contents, owned), 1) == released(contents, owned + 1),
{
    assert(released(released(contents, owned), 1) =~= released(contents, owned + 1));
}

} // verus!
