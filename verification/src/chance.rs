//! Identifiers drawn by chance.

use vstd::prelude::*;

verus! {

/// Where identifiers are drawn from, and what was drawn.
pub struct IdSource {
    drawn: Ghost<Seq<u128>>,
}

impl IdSource {
    /// What was drawn, in the order in which it was drawn.
    pub closed spec fn drawn(&self) -> Seq<u128> {
        self.drawn@
    }

    /// A source that nothing was drawn from yet.
    pub fn new() -> (source: IdSource)
        ensures
            source.drawn() == Seq::<u128>::empty(),
    {
        IdSource { drawn: Ghost(Seq::empty()) }
    }

    /// Draws a random identifier (`uuid::Uuid::new_v4`).
    ///
    /// Which one depends on chance. What is claimed of it is that it bears the version and the
    /// variant of a random identifier, and that it is the one more in the history.
    #[verifier::external_body]
    pub(crate) fn draw(&mut self) -> (id: u128)
        ensures
            id / 0x1000_0000_0000_0000_0000u128 % 16 == 4,
            id / 0x4000_0000_0000_0000u128 % 4 == 2,
            final(self).drawn() == old(self).drawn().push(id),
    {
        uuid::Uuid::new_v4().as_u128()
    }
}

} // verus!
