use vstd::prelude::*;

verus! {

/// The number of bytes after which a schema sample stops growing.
pub const MAX_SCHEMA_SAMPLE: usize = 1048576;

/// The last index of a newline in `b`, or `-1` when there is none.
pub open spec fn is_last_newline(b: Seq<u8>, k: int) -> bool {
    &&& -1 <= k < b.len()
    &&& k >= 0 ==> b[k] == 10
    &&& forall|i: int| k < i < b.len() ==> b[i] != 10
}

/// A sample cut after its last newline, so that it ends on a whole record;
/// a sample without a newline is kept whole.
pub open spec fn whole_records(b: Seq<u8>) -> Seq<u8> {
    if exists|k: int| 0 <= k < b.len() && b[k] == 10 {
        b.take((choose|k: int| is_last_newline(b, k)) + 1)
    } else {
        b
    }
}

/// The start of a file, gathered chunk by chunk, from which a schema is
/// inferred.
pub struct Sample {
    pub bytes: Vec<u8>,
}

impl Sample {
    /// An empty sample.
    pub fn new() -> (r: Sample)
        ensures
            r.bytes@ == Seq::<u8>::empty(),
    {
        Sample { bytes: Vec::new() }
    }

    /// Adds the next chunk of the file, and says whether the sample is large
    /// enough that no further chunk is read.
    pub fn push_chunk(&mut self, chunk: &[u8]) -> (full: bool)
        requires
            old(self).bytes@.len() + chunk@.len() <= usize::MAX,
        ensures
            final(self).bytes@ == old(self).bytes@ + chunk@,
            full == (final(self).bytes@.len() >= MAX_SCHEMA_SAMPLE),
    {
        let ghost before = self.bytes@;
        self.bytes.extend_from_slice(chunk);
        assert(self.bytes@ =~= before + chunk@);
        self.bytes.len() >= MAX_SCHEMA_SAMPLE
    }

    /// The sample cut after its last newline.
    pub fn finish(self) -> (r: Vec<u8>)
        ensures
            r@ == whole_records(self.bytes@),
    {
        let mut bytes = self.bytes;
        let ghost b = bytes@;
        let mut i: usize = bytes.len();
        while i > 0 && bytes[i - 1] != 10
            invariant
                bytes@ == b,
                i <= b.len(),
                forall|j: int| i <= j < b.len() ==> b[j] != 10,
            decreases i,
        {
            i = i - 1;
        }
        if i > 0 {
            proof {
                let k = choose|k: int| is_last_newline(b, k);
                assert(is_last_newline(b, i - 1));
                if k < i - 1 {
                    assert(b[i - 1] == 10);
                } else if k > i - 1 {
                    assert(b[k] == 10);
                }
                assert(exists|k: int| 0 <= k < b.len() && b[k] == 10) by {
                    assert(b[i - 1] == 10);
                }
            }
            bytes.truncate(i);
            assert(bytes@ =~= b.take(i as int));
        }
        bytes
    }
}

/// Where a streaming decode of an input, chunk by chunk, stands.
#[derive(Debug, Clone, Copy, PartialEq, Eq, Structural)]
pub enum DecodePhase {
    /// Waiting for the next chunk of the input.
    Reading,
    /// Feeding a chunk of `len` bytes to the decoder, `offset` of them
    /// consumed.
    Feeding { offset: usize, len: usize },
    /// Flushing a full decoder in the middle of a chunk.
    Flushing { offset: usize, len: usize },
    /// The input has ended and the decoder is told so.
    Ending,
    /// Flushing the decoder's last records.
    FinalFlush,
    /// Nothing is left to do.
    Done,
}

/// What the last action brought.
#[derive(Debug, Clone, Copy, PartialEq, Eq, Structural)]
pub enum DecodeEvent {
    /// A chunk of `len` bytes was read.
    Chunk { len: usize },
    /// The input has no more chunks.
    InputEnd,
    /// The decoder consumed `n` bytes.
    Consumed { n: usize },
    /// The decoder was flushed; `batch` says whether it gave a batch, which
    /// has been passed on.
    Flushed { batch: bool },
}

/// What to do next.
#[derive(Debug, Clone, Copy, PartialEq, Eq, Structural)]
pub enum DecodeAction {
    /// Read the next chunk.
    ReadChunk,
    /// Give the decoder the current chunk from `offset` on.
    Decode { offset: usize },
    /// Flush the decoder and pass on the batch it gives, if any.
    Flush,
    /// Tell the decoder that the input has ended.
    DecodeEnd,
    /// Stop.
    Stop,
}

/// A phase in the middle of a chunk has bytes of the chunk left.
pub open spec fn phase_wf(phase: DecodePhase) -> bool {
    match phase {
        DecodePhase::Feeding { offset, len } => offset < len,
        DecodePhase::Flushing { offset, len } => offset < len,
        _ => true,
    }
}

/// The events that can follow the action that `phase` asked for: a chunk or
/// the end after a read, a consumption of no more than the bytes offered
/// after a decode, a flush result after a flush.
pub open spec fn decode_accepts(phase: DecodePhase, event: DecodeEvent) -> bool {
    match phase {
        DecodePhase::Reading => event is Chunk || event is InputEnd,
        DecodePhase::Feeding { offset, len } => event matches DecodeEvent::Consumed { n } && n <= len - offset,
        DecodePhase::Flushing { .. } => event is Flushed,
        DecodePhase::Ending => event is Consumed,
        DecodePhase::FinalFlush => event is Flushed,
        DecodePhase::Done => false,
    }
}

/// The next phase and action: an empty chunk is skipped and a chunk is fed
/// from its start; each consumption moves the offset on, and at the end of
/// the chunk the next one is read; a decoder that consumes nothing is full
/// and is flushed, after which feeding resumes where it stopped, or, when
/// the flush gave no batch, the rest of the chunk is dropped and the next
/// chunk read; at the end of the input the decoder is told so, flushed once
/// more, and the decode stops.
pub open spec fn decode_step(phase: DecodePhase, event: DecodeEvent) -> (DecodePhase, DecodeAction) {
    match (phase, event) {
        (DecodePhase::Reading, DecodeEvent::Chunk { len }) => if len == 0 {
            (DecodePhase::Reading, DecodeAction::ReadChunk)
        } else {
            (DecodePhase::Feeding { offset: 0, len }, DecodeAction::Decode { offset: 0 })
        },
        (DecodePhase::Reading, _) => (DecodePhase::Ending, DecodeAction::DecodeEnd),
        (DecodePhase::Feeding { offset, len }, DecodeEvent::Consumed { n }) => if n == 0 {
            (DecodePhase::Flushing { offset, len }, DecodeAction::Flush)
        } else if offset + n < len {
            (
                DecodePhase::Feeding { offset: (offset + n) as usize, len },
                DecodeAction::Decode { offset: (offset + n) as usize },
            )
        } else {
            (DecodePhase::Reading, DecodeAction::ReadChunk)
        },
        (DecodePhase::Flushing { offset, len }, DecodeEvent::Flushed { batch }) => if batch {
            (DecodePhase::Feeding { offset, len }, DecodeAction::Decode { offset })
        } else {
            (DecodePhase::Reading, DecodeAction::ReadChunk)
        },
        (DecodePhase::Ending, _) => (DecodePhase::FinalFlush, DecodeAction::Flush),
        (DecodePhase::FinalFlush, _) => (DecodePhase::Done, DecodeAction::Stop),
        _ => (DecodePhase::Done, DecodeAction::Stop),
    }
}

/// A decode action offers the chunk from where feeding stands.
pub open spec fn feeds_where_it_stands(phase: DecodePhase, action: DecodeAction) -> bool {
    match action {
        DecodeAction::Decode { offset } => phase matches DecodePhase::Feeding { offset: o, .. } && o == offset,
        _ => true,
    }
}

/// The decoder consumed the whole rest of the chunk that it was fed.
pub open spec fn chunk_fully_fed(phase: DecodePhase, event: DecodeEvent) -> bool {
    match (phase, event) {
        (DecodePhase::Feeding { offset, len }, DecodeEvent::Consumed { n }) => offset + n == len,
        _ => false,
    }
}

/// Decides what a streaming decode does next after `event`.
pub fn decode_next(phase: DecodePhase, event: DecodeEvent) -> (r: (DecodePhase, DecodeAction))
    requires
        phase_wf(phase),
        decode_accepts(phase, event),
    ensures
        r == decode_step(phase, event),
        phase_wf(r.0),
        feeds_where_it_stands(r.0, r.1),
        (phase is Feeding && r.0 is Reading) ==> chunk_fully_fed(phase, event),
{
    match (phase, event) {
        (DecodePhase::Reading, DecodeEvent::Chunk { len }) => if len == 0 {
            (DecodePhase::Reading, DecodeAction::ReadChunk)
        } else {
            (DecodePhase::Feeding { offset: 0, len }, DecodeAction::Decode { offset: 0 })
        },
        (DecodePhase::Reading, _) => (DecodePhase::Ending, DecodeAction::DecodeEnd),
        (DecodePhase::Feeding { offset, len }, DecodeEvent::Consumed { n }) => if n == 0 {
            (DecodePhase::Flushing { offset, len }, DecodeAction::Flush)
        } else if n < len - offset {
            (DecodePhase::Feeding { offset: offset + n, len }, DecodeAction::Decode { offset: offset + n })
        } else {
            (DecodePhase::Reading, DecodeAction::ReadChunk)
        },
        (DecodePhase::Flushing { offset, len }, DecodeEvent::Flushed { batch }) => if batch {
            (DecodePhase::Feeding { offset, len }, DecodeAction::Decode { offset })
        } else {
            (DecodePhase::Reading, DecodeAction::ReadChunk)
        },
        (DecodePhase::Ending, _) => (DecodePhase::FinalFlush, DecodeAction::Flush),
        (DecodePhase::FinalFlush, _) => (DecodePhase::Done, DecodeAction::Stop),
        _ => (DecodePhase::Done, DecodeAction::Stop),
    }
}

} // verus!
