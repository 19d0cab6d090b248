//! A two-consumer hand-off queue.
//!
//! Two consumers ask for values in lock step: whichever consumer gets ahead
//! becomes the leader and queues fresh values; the other consumer pops them
//! in order. Each value is handed to each consumer exactly once.

use vstd::prelude::*;

verus! {

/// The two consumers of a [`Tee`].
#[derive(Clone, Copy, PartialEq, Eq, Structural, Debug)]
pub enum TeeConsumer {
    A,
    B,
}

/// The queue of values produced by the current leader and not yet taken by
/// the other consumer.
pub struct Tee<T> {
    pub queue: Vec<T>,
    pub leader: TeeConsumer,
}

/// The follower's claim on a value the leader has not provided yet; the
/// caller must create the value and hand it back with
/// [`TeeEmptyError::provide_next`].
#[derive(Clone, Copy, PartialEq, Eq, Structural, Debug)]
pub struct TeeEmptyError {
    pub consumer: TeeConsumer,
}

impl<T: Copy> Tee<T> {
    pub fn new() -> (r: Tee<T>)
        ensures
            r.queue@.len() == 0,
            r.leader == TeeConsumer::A,
    {
        Tee { queue: Vec::new(), leader: TeeConsumer::A }
    }

    /// The next value for `consumer`: the front of the queue when the other
    /// consumer leads and has queued one, or a claim to be filled via
    /// [`TeeEmptyError::provide_next`], which makes `consumer` the leader.
    pub fn next(&mut self, consumer: TeeConsumer) -> (r: Result<T, TeeEmptyError>)
        ensures
            match r {
                Ok(v) => {
                    &&& old(self).leader != consumer
                    &&& old(self).queue@.len() > 0
                    &&& v == old(self).queue@[0]
                    &&& final(self).queue@ == old(self).queue@.drop_first()
                    &&& final(self).leader == old(self).leader
                },
                Err(e) => {
                    &&& old(self).leader == consumer || old(self).queue@.len() == 0
                    &&& e.consumer == consumer
                    &&& *final(self) == *old(self)
                },
            },
    {
        if self.leader != consumer && self.queue.len() > 0 {
            let v = self.queue.remove(0);
            Ok(v)
        } else {
            Err(TeeEmptyError { consumer })
        }
    }

    /// Whether no value is waiting for the follower.
    pub fn is_empty(&self) -> (r: bool)
        ensures
            r == (self.queue@.len() == 0),
    {
        self.queue.len() == 0
    }
}

impl TeeEmptyError {
    /// Fills a claim made through [`Tee::next`]: the claiming consumer
    /// becomes the leader and the value is queued for the other consumer.
    pub fn provide_next<T: Copy>(self, tee: &mut Tee<T>, value: T)
        ensures
            final(tee).leader == self.consumer,
            final(tee).queue@ == old(tee).queue@.push(value),
    {
        tee.leader = self.consumer;
        tee.queue.push(value);
    }
}

} // verus!
