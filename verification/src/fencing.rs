//! Write admission by an external fence.
use vstd::prelude::*;

use crate::ids::TopicPartition;

verus! {

/// Product-neutral write-admission hook.
///
/// The runtime installs no fence of its own. Embedded deployments can provide
/// one to reject stale writer epochs before the engine reserves or mutates
/// durable state.
pub trait WriteFence {
    fn check_write(&self, topic_partition: TopicPartition, writer_epoch: u64) -> Result<
        (),
        WriteFenceError,
    >;
}

/// Why a fence rejected a write.
#[derive(Debug, Clone, PartialEq, Eq)]
pub struct WriteFenceError {
    message: String,
}

impl View for WriteFenceError {
    type V = Seq<char>;

    closed spec fn view(&self) -> Seq<char> {
        self.message@
    }
}

impl WriteFenceError {
    #[must_use]
    pub fn new(message: String) -> (error: Self)
        ensures
            error@ == message@,
    {
        WriteFenceError { message }
    }

    /// The fence's explanation.
    pub fn message(&self) -> (text: String)
        ensures
            text@ == self@,
    {
        self.message.clone()
    }
}

} // verus!
