//! Byte sinks: where rendered output goes.

use crate::text::push_bytes;
use vstd::prelude::*;

verus! {

/// A target for output that takes bytes in order and keeps them.
pub trait ByteSink: Sized {
    /// Every byte that the sink holds, in the order in which they were
    /// written.
    spec fn written(&self) -> Seq<u8>;

    /// Whether `self` is the sink `before` after exactly `bytes` were written
    /// to it, with nothing else about it changed.
    spec fn wrote(&self, before: &Self, bytes: Seq<u8>) -> bool;

    /// Appends `buf` to the sink.
    fn write_all(&mut self, buf: &[u8])
        ensures
            final(self).wrote(old(self), buf@),
    ;

    /// What was written stands at the end of what the sink holds.
    proof fn lemma_wrote(&self, before: &Self, bytes: Seq<u8>)
        requires
            self.wrote(before, bytes),
        ensures
            self.written() == before.written() + bytes,
    ;

    /// A sink left alone is a sink to which nothing was written.
    proof fn lemma_wrote_nothing(&self)
        ensures
            self.wrote(self, Seq::empty()),
    ;

    /// Two writes in a row are one write of both byte strings.
    proof fn lemma_wrote_more(&self, middle: &Self, before: &Self, first: Seq<u8>, second: Seq<u8>)
        requires
            middle.wrote(before, first),
            self.wrote(middle, second),
        ensures
            self.wrote(before, first + second),
    ;
}

impl ByteSink for Vec<u8> {
    open spec fn written(&self) -> Seq<u8> {
        self@
    }

    open spec fn wrote(&self, before: &Self, bytes: Seq<u8>) -> bool {
        self@ == before@ + bytes
    }

    fn write_all(&mut self, buf: &[u8]) {
        push_bytes(self, buf);
    }

    proof fn lemma_wrote(&self, before: &Self, bytes: Seq<u8>) {
    }

    proof fn lemma_wrote_nothing(&self) {
        assert(self@ =~= self@ + Seq::<u8>::empty());
    }

    proof fn lemma_wrote_more(&self, middle: &Self, before: &Self, first: Seq<u8>, second: Seq<u8>) {
        assert(self@ =~= before@ + (first + second));
    }
}

/// A sink that hands every write on to a function, which takes the bytes
/// wherever they are to go. The sink holds no byte itself: what it is said
/// to hold is what it has handed on.
pub struct Forward<F: Fn(&[u8])> {
    f: F,
    log: Ghost<Seq<u8>>,
}

impl<F: Fn(&[u8])> Forward<F> {
    /// The function may be called on every byte string.
    #[verifier::type_invariant]
    spec fn total(self) -> bool {
        forall|buf: &[u8]| call_requires(self.f, (buf,))
    }

    /// The function that takes the bytes.
    pub closed spec fn function(&self) -> F {
        self.f
    }

    /// Every byte handed on, in order.
    pub closed spec fn log(&self) -> Seq<u8> {
        self.log@
    }

    /// A sink that hands what is written to it on to `f`.
    pub fn new(f: F) -> (sink: Self)
        requires
            forall|buf: &[u8]| call_requires(f, (buf,)),
        ensures
            sink.function() == f,
            sink.log() == Seq::<u8>::empty(),
    {
        Forward { f, log: Ghost(Seq::empty()) }
    }
}

impl<F: Fn(&[u8])> ByteSink for Forward<F> {
    open spec fn written(&self) -> Seq<u8> {
        self.log()
    }

    open spec fn wrote(&self, before: &Self, bytes: Seq<u8>) -> bool {
        &&& self.log() == before.log() + bytes
        &&& self.function() == before.function()
    }

    /// Hands `buf` on.
    fn write_all(&mut self, buf: &[u8]) {
        proof {
            use_type_invariant(&*self);
        }
        (self.f)(buf);
        self.log = Ghost(self.log@ + buf@);
    }

    proof fn lemma_wrote(&self, before: &Self, bytes: Seq<u8>) {
    }

    proof fn lemma_wrote_nothing(&self) {
        assert(self.log() =~= self.log() + Seq::<u8>::empty());
    }

    proof fn lemma_wrote_more(&self, middle: &Self, before: &Self, first: Seq<u8>, second: Seq<u8>) {
        assert(self.log() =~= before.log() + (first + second));
    }
}

} // verus!
