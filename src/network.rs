//! The network manager's warm-up buffer: pubsub messages sent before the
//! node has confirmed its own dialable identity are held back, and replayed
//! in order once the identity is confirmed.

use vstd::prelude::*;

verus! {

/// A pubsub message waiting to be published
pub struct BufferedPubsubMessage {
    /// The topic to publish on
    pub topic: String,
    /// The serialized message
    pub message: Vec<u8>,
}

/// Holds pubsub messages until the warm-up period ends
pub struct PubsubWarmup {
    warmup_finished: bool,
    warmup_buffer: Vec<BufferedPubsubMessage>,
}

impl PubsubWarmup {
    /// Whether the warm-up period has ended
    pub closed spec fn finished(&self) -> bool {
        self.warmup_finished
    }

    /// The messages held back, oldest first
    pub closed spec fn buffered(&self) -> Seq<BufferedPubsubMessage> {
        self.warmup_buffer@
    }

    /// A buffer at the start of the warm-up period
    pub fn new() -> (r: PubsubWarmup)
        ensures
            !r.finished(),
            r.buffered().len() == 0,
    {
        PubsubWarmup { warmup_finished: false, warmup_buffer: Vec::new() }
    }

    /// A message to publish: held back during the warm-up period, handed
    /// back for publishing after it
    pub fn forward_outbound_pubsub(&mut self, msg: BufferedPubsubMessage) -> (r: Vec<BufferedPubsubMessage>)
        ensures
            final(self).finished() == old(self).finished(),
            !old(self).finished() ==> r@.len() == 0 && final(self).buffered() == old(self).buffered().push(msg),
            old(self).finished() ==> r@ == seq![msg] && final(self).buffered() == old(self).buffered(),
    {
        if self.warmup_finished {
            vec![msg]
        } else {
            self.warmup_buffer.push(msg);
            Vec::new()
        }
    }

    /// The local identity is confirmed: the warm-up period ends and the
    /// held-back messages are handed back, oldest first
    pub fn finish_warmup(&mut self) -> (r: Vec<BufferedPubsubMessage>)
        ensures
            final(self).finished(),
            final(self).buffered().len() == 0,
            r@ == old(self).buffered(),
    {
        let mut out: Vec<BufferedPubsubMessage> = Vec::new();
        std::mem::swap(&mut out, &mut self.warmup_buffer);
        self.warmup_finished = true;
        out
    }
}

} // verus!
