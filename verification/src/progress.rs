//! Transfer progress. The core reports numbers; how they are drawn, and whether
//! they are drawn at all, belongs to the front end.

use vstd::prelude::*;

verus! {

/// One thing a transfer reports.
#[verifier::ext_equal]
pub enum ProgressEvent {
    Advance { done: u64, total: u64 },
    Waiting(Seq<char>),
    Finish(u64),
}

/// Called from inside the transfer loop after each chunk lands.
///
/// `State` is what a watcher remembers of the transfer, and `on` how one report
/// changes it.
///
/// The model has a default nothing is known of, so that an implementation
/// written in plain Rust can leave it out.
pub trait Progress: Sized {
    type State;

    open spec fn state(&self) -> Self::State {
        arbitrary()
    }

    open spec fn on(state: Self::State, event: ProgressEvent) -> Self::State {
        arbitrary()
    }

    fn advance(&mut self, done: u64, total: u64)
        ensures
            final(self).state() == Self::on(
                old(self).state(),
                ProgressEvent::Advance { done, total },
            ),
    ;

    /// A phase that takes time but moves no bytes, such as waiting for the
    /// medium to accept what the page cache already took.
    fn waiting(&mut self, what: &str)
        ensures
            final(self).state() == Self::on(old(self).state(), ProgressEvent::Waiting(what@)),
    ;

    fn finish(&mut self, done: u64)
        ensures
            final(self).state() == Self::on(old(self).state(), ProgressEvent::Finish(done)),
    ;
}

/// Progress nobody is watching.
pub struct Silent;

impl Progress for Silent {
    type State = ();

    open spec fn state(&self) -> () {
        ()
    }

    open spec fn on(state: (), event: ProgressEvent) -> () {
        ()
    }

    fn advance(&mut self, _done: u64, _total: u64) {
    }

    fn waiting(&mut self, _what: &str) {
    }

    fn finish(&mut self, _done: u64) {
    }
}

} // verus!
