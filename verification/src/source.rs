//! Where the random bits come from.
//!
//! Two traits stand here. [`RawSource`] is for ordinary code: a generator
//! that hands out words and promises nothing. [`BitSource`] is what the
//! samplers draw from: a source that keeps account of every word it has
//! handed out, so that a sampler can say which word it used and that it
//! drew no other. [`Recorded`] makes the second out of the first.

use vstd::prelude::*;

verus! {

/// One word handed out by a source, with the width it was asked for.
pub enum Draw {
    /// A word of 32 bits.
    Narrow(u32),
    /// A word of 64 bits.
    Wide(u64),
}

/// A supplier of uniformly distributed machine words that keeps account of
/// what it has handed out: each call adds the word it returns to the end of
/// `drawn`, and nothing else changes that record. Of the words themselves
/// nothing is asked: the samplers are proved for every word that could come
/// back.
pub trait BitSource {
    /// Every word handed out so far, oldest first.
    spec fn drawn(&self) -> Seq<Draw>;

    /// The next 32 random bits.
    fn next_u32(&mut self) -> (word: u32)
        ensures
            final(self).drawn() == old(self).drawn().push(Draw::Narrow(word)),
    ;

    /// The next 64 random bits.
    fn next_u64(&mut self) -> (word: u64)
        ensures
            final(self).drawn() == old(self).drawn().push(Draw::Wide(word)),
    ;
}

/// A generator of machine words, with no promise attached.
pub trait RawSource {
    /// The next 32 random bits.
    fn next_u32(&mut self) -> u32;

    /// The next 64 random bits.
    fn next_u64(&mut self) -> u64;
}

/// A generator together with the record of the words it has handed out
/// through this wrapper.
pub struct Recorded<G: RawSource> {
    generator: G,
    record: Ghost<Seq<Draw>>,
}

impl<G: RawSource> Recorded<G> {
    /// The generator inside.
    pub closed spec fn generator(&self) -> G {
        self.generator
    }

    /// Wraps a generator. Nothing has been drawn through the wrapper yet.
    pub fn new(generator: G) -> (source: Self)
        ensures
            source.generator() == generator,
            source.drawn() == Seq::<Draw>::empty(),
    {
        Recorded { generator, record: Ghost(Seq::empty()) }
    }

    /// A look at the generator inside.
    pub fn get_ref(&self) -> (generator: &G)
        ensures
            *generator == self.generator(),
    {
        &self.generator
    }

    /// Gives the generator back.
    pub fn into_inner(self) -> (generator: G)
        ensures
            generator == self.generator(),
    {
        self.generator
    }
}

impl<G: RawSource> BitSource for Recorded<G> {
    closed spec fn drawn(&self) -> Seq<Draw> {
        self.record@
    }

    /// Asks the generator for 32 bits and notes what came back.
    fn next_u32(&mut self) -> (word: u32) {
        let word = self.generator.next_u32();
        self.record = Ghost(self.record@.push(Draw::Narrow(word)));
        word
    }

    /// Asks the generator for 64 bits and notes what came back.
    fn next_u64(&mut self) -> (word: u64) {
        let word = self.generator.next_u64();
        self.record = Ghost(self.record@.push(Draw::Wide(word)));
        word
    }
}

} // verus!
