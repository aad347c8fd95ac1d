//! The file side of a transfer: where the bytes of an image come from and where
//! the bytes of a dump go.

use vstd::prelude::*;
use vstd::slice::*;

use crate::error;
use crate::error::{IoError, IoErrorView};

verus! {

/// A file the bytes of an image are read from, in order.
///
/// `State` holds whatever the next answer depends on; `read_step` gives the
/// answer, what the buffer holds after it, and the state that follows.
///
/// The model has a default nothing is known of, so that an implementation
/// written in plain Rust can leave it out.
pub trait Source: Sized {
    type State;

    open spec fn state(&self) -> Self::State {
        arbitrary()
    }

    open spec fn read_step(state: Self::State, buf: Seq<u8>) -> (
        Result<(), IoErrorView>,
        Seq<u8>,
        Self::State,
    ) {
        arbitrary()
    }

    /// Fills `buf` or fails.
    fn read_exact(&mut self, buf: &mut [u8]) -> (result: Result<(), IoError>)
        ensures
            final(buf)@.len() == old(buf)@.len(),
            (error::reply(result), final(buf)@, final(self).state()) == Self::read_step(
                old(self).state(),
                old(buf)@,
            ),
    ;
}

/// A file the bytes of a dump are written to, in order.
///
/// `State` holds whatever the next answer depends on; the steps give the answer
/// and the state that follows.
///
/// The model has a default nothing is known of, so that an implementation
/// written in plain Rust can leave it out.
pub trait Sink: Sized {
    type State;

    open spec fn state(&self) -> Self::State {
        arbitrary()
    }

    open spec fn write_step(state: Self::State, bytes: Seq<u8>) -> (
        Result<(), IoErrorView>,
        Self::State,
    ) {
        arbitrary()
    }

    open spec fn flush_step(state: Self::State) -> (Result<(), IoErrorView>, Self::State) {
        arbitrary()
    }

    /// Writes all of `bytes` or fails.
    fn write_all(&mut self, bytes: &[u8]) -> (result: Result<(), IoError>)
        ensures
            (error::reply(result), final(self).state()) == Self::write_step(
                old(self).state(),
                bytes@,
            ),
    ;

    fn flush(&mut self) -> (result: Result<(), IoError>)
        ensures
            (error::reply(result), final(self).state()) == Self::flush_step(old(self).state()),
    ;
}

/// What a source in memory answers when it holds fewer bytes than were asked.
pub open spec fn ended_early() -> IoErrorView {
    IoErrorView { text: "failed to fill whole buffer"@, os_error: None }
}

/// Bytes in memory, read from the front.
impl<'a> Source for &'a [u8] {
    type State = Seq<u8>;

    open spec fn state(&self) -> Seq<u8> {
        self@
    }

    open spec fn read_step(state: Seq<u8>, buf: Seq<u8>) -> (
        Result<(), IoErrorView>,
        Seq<u8>,
        Seq<u8>,
    ) {
        if buf.len() <= state.len() {
            (
                Ok(()),
                state.subrange(0, buf.len() as int),
                state.subrange(buf.len() as int, state.len() as int),
            )
        } else {
            (Err(ended_early()), buf, Seq::empty())
        }
    }

    fn read_exact(&mut self, buf: &mut [u8]) -> (result: Result<(), IoError>) {
        let bytes: &'a [u8] = *self;
        if buf.len() > bytes.len() {
            *self = slice_subrange(bytes, bytes.len(), bytes.len());
            return Err(IoError::new("failed to fill whole buffer", None));
        }
        let n: usize = buf.len();
        copy_into(buf, 0, slice_subrange(bytes, 0, n));
        *self = slice_subrange(bytes, n, bytes.len());
        Ok(())
    }
}

/// Bytes in memory, added at the end.
impl Sink for Vec<u8> {
    type State = Seq<u8>;

    open spec fn state(&self) -> Seq<u8> {
        self@
    }

    open spec fn write_step(state: Seq<u8>, bytes: Seq<u8>) -> (
        Result<(), IoErrorView>,
        Seq<u8>,
    ) {
        (Ok(()), state + bytes)
    }

    open spec fn flush_step(state: Seq<u8>) -> (Result<(), IoErrorView>, Seq<u8>) {
        (Ok(()), state)
    }

    fn write_all(&mut self, bytes: &[u8]) -> (result: Result<(), IoError>) {
        self.extend_from_slice(bytes);
        assert(self@ =~= old(self)@ + bytes@);
        Ok(())
    }

    fn flush(&mut self) -> (result: Result<(), IoError>) {
        Ok(())
    }
}

/// `bytes` laid over `base`, starting at `at`.
pub open spec fn overlaid(base: Seq<u8>, at: int, bytes: Seq<u8>) -> Seq<u8> {
    base.subrange(0, at) + bytes + base.subrange(at + bytes.len(), base.len() as int)
}

/// Copies `bytes` over `buf`, starting at `at`.
pub fn copy_into(buf: &mut [u8], at: usize, bytes: &[u8])
    requires
        at + bytes@.len() <= old(buf)@.len(),
    ensures
        final(buf)@ == overlaid(old(buf)@, at as int, bytes@),
        final(buf)@.len() == old(buf)@.len(),
{
    let size: usize = buf.len();
    let mut i: usize = 0;
    while i < bytes.len()
        invariant
            i <= bytes@.len(),
            at + bytes@.len() <= old(buf)@.len() == size,
            buf@.len() == old(buf)@.len(),
            forall|j: int|
                0 <= j < buf@.len() ==> #[trigger] buf@[j] == if at <= j < at + i {
                    bytes@[j - at]
                } else {
                    old(buf)@[j]
                },
        decreases bytes@.len() - i,
    {
        buf[at + i] = bytes[i];
        i += 1;
    }
    assert(buf@ =~= overlaid(old(buf)@, at as int, bytes@));
}

} // verus!
