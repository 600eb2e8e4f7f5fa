use vstd::prelude::*;

verus! {

/// One step applied to a sponge state, as far as its outcome is concerned.
pub enum Op {
    /// Data mixed into the state, transmitted or not.
    Absorb(Seq<u8>),
    /// Plaintext mixed into the state while it is encrypted or decrypted.
    Mask(Seq<u8>),
    /// Pending absorption finalised.
    Commit,
    /// `n` bytes squeezed out as a tag.
    Squeeze(usize),
}

/// A sponge-based pseudo-random permutation. The application implements it with the
/// permutation it selects (a Keccak-family sponge, for instance); the message code is generic
/// over it.
///
/// The state of a sponge is modelled by the operations applied to it since its initial state:
/// two sponges agree exactly when their histories agree. What is encrypted or squeezed under a
/// state is named by `masked` and `squeezed`; an implementation proves that decryption under a
/// state inverts encryption under it, and that tags have the length asked for.
pub trait Spongos: Sized {
    /// The operations applied since the initial state.
    spec fn history(&self) -> Seq<Op>;

    /// Ciphertext of `x` under the state reached by history `h`.
    spec fn masked(h: Seq<Op>, x: Seq<u8>) -> Seq<u8>;

    /// Plaintext recovered from `y` under the state reached by history `h`.
    spec fn unmasked(h: Seq<Op>, y: Seq<u8>) -> Seq<u8>;

    /// Tag of `n` bytes squeezed from the state reached by history `h`.
    spec fn squeezed(h: Seq<Op>, n: usize) -> Seq<u8>;

    /// Decryption under a state inverts encryption under the same state, and both keep lengths.
    proof fn lemma_unmask_masked(h: Seq<Op>, x: Seq<u8>)
        ensures
            Self::unmasked(h, Self::masked(h, x)) == x,
            Self::masked(h, x).len() == x.len(),
    ;

    /// A tag has the length asked for.
    proof fn lemma_squeezed_len(h: Seq<Op>, n: usize)
        ensures
            Self::squeezed(h, n).len() == n,
    ;

    fn fresh() -> (r: Self)
        ensures
            r.history() == Seq::<Op>::empty(),
    ;

    /// A copy of the state; work on the copy leaves `self` as it is.
    fn fork(&self) -> (r: Self)
        ensures
            r.history() == self.history(),
    ;

    fn absorb(&mut self, x: &[u8])
        ensures
            final(self).history() == old(self).history().push(Op::Absorb(x@)),
    ;

    fn commit(&mut self)
        ensures
            final(self).history() == old(self).history().push(Op::Commit),
    ;

    /// Squeezes a tag of `n` bytes.
    fn squeeze(&mut self, n: usize) -> (r: Vec<u8>)
        ensures
            r@ == Self::squeezed(old(self).history(), n),
            r@.len() == n,
            final(self).history() == old(self).history().push(Op::Squeeze(n)),
    ;

    /// Encrypts `x` under the current state, then mixes `x` in.
    fn encrypt(&mut self, x: &[u8]) -> (r: Vec<u8>)
        ensures
            r@ == Self::masked(old(self).history(), x@),
            final(self).history() == old(self).history().push(Op::Mask(x@)),
    ;

    /// Decrypts `y` under the current state, then mixes the plaintext in.
    fn decrypt(&mut self, y: &[u8]) -> (r: Vec<u8>)
        ensures
            r@ == Self::unmasked(old(self).history(), y@),
            final(self).history() == old(self).history().push(Op::Mask(r@)),
    ;
}

} // verus!
