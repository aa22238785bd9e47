use vstd::prelude::*;

use crate::error::MqttError;

verus! {

/// A first-in first-out queue of pending writes. The embedding program
/// shares it behind its own synchronisation; the queue itself never fails,
/// so every operation answers `Ok`.
#[derive(Debug)]
pub struct FifoQueue<T> {
    pub data: Vec<T>,
}

impl<T> FifoQueue<T> {
    /// An empty queue.
    pub fn new() -> (r: Self)
        ensures
            r.data@.len() == 0,
    {
        FifoQueue { data: Vec::new() }
    }

    /// Put a value at the back of the queue.
    pub fn push(&mut self, value: T) -> (r: Result<(), MqttError>)
        ensures
            r is Ok,
            final(self).data@ == old(self).data@.push(value),
    {
        self.data.push(value);
        Ok(())
    }

    /// Take the value at the front of the queue, or nothing when it is
    /// empty.
    pub fn pop(&mut self) -> (r: Result<Option<T>, MqttError>)
        ensures
            r is Ok,
            old(self).data@.len() == 0 ==> r == Ok::<Option<T>, MqttError>(None)
                && final(self).data@ == old(self).data@,
            old(self).data@.len() > 0 ==> ((r matches Ok(Some(v)) && v == old(self).data@[0])
                && final(self).data@ == old(self).data@.drop_first()),
    {
        if self.data.len() == 0 {
            Ok(None)
        } else {
            let v = self.data.remove(0);
            proof {
                assert(self.data@ =~= old(self).data@.drop_first());
            }
            Ok(Some(v))
        }
    }

    /// How many values wait in the queue.
    pub fn len(&self) -> (r: Result<usize, MqttError>)
        ensures
            r == Ok::<usize, MqttError>(self.data@.len() as usize),
    {
        Ok(self.data.len())
    }

    /// Whether the queue is empty.
    pub fn is_empty(&self) -> (r: Result<bool, MqttError>)
        ensures
            r == Ok::<bool, MqttError>(self.data@.len() == 0),
    {
        Ok(self.data.len() == 0)
    }
}

} // verus!
