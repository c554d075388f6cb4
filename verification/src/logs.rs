//! The end of the log, kept in memory for the settings page.

use std::collections::VecDeque;
use vstd::prelude::*;
use vstd::utf8::{decode_utf8, valid_utf8};

verus! {

/// How much of the log is kept.
pub const MAX_LOG_BYTES: usize = 100_000;

/// The last `count` bytes, or all where there are fewer.
pub open spec fn last_bytes(bytes: Seq<u8>, count: nat) -> Seq<u8> {
    if bytes.len() <= count {
        bytes
    } else {
        bytes.skip(bytes.len() - count)
    }
}

/// The text of bytes in which what is no UTF-8 is replaced.
pub uninterp spec fn utf8_lossy(bytes: Seq<u8>) -> Seq<char>;

/// `std::string::String::from_utf8_lossy` decodes the bytes. Valid UTF-8 comes out as the text
/// it encodes; in the rest, which is not stated further, replacement characters stand for what
/// is invalid.
#[verifier::external_body]
fn decode_lossy(bytes: &[u8]) -> (text: String)
    ensures
        text@ == utf8_lossy(bytes@),
        valid_utf8(bytes@) ==> text@ == decode_utf8(bytes@),
{
    String::from_utf8_lossy(bytes).into_owned()
}

/// The end of the log.
pub struct LogBuffer {
    pub bytes: VecDeque<u8>,
}

impl LogBuffer {
    pub open spec fn wf(self) -> bool {
        self.bytes@.len() <= MAX_LOG_BYTES
    }

    pub fn new() -> (log: LogBuffer)
        ensures
            log.wf(),
            log.bytes@ == Seq::<u8>::empty(),
    {
        LogBuffer { bytes: VecDeque::new() }
    }

    /// Appends to the log, of which the oldest bytes are dropped. All of `bytes` is taken.
    pub fn write(&mut self, bytes: &[u8]) -> (count: usize)
        ensures
            count == bytes@.len(),
            final(self).wf(),
            final(self).bytes@ == last_bytes(old(self).bytes@ + bytes@, MAX_LOG_BYTES as nat),
    {
        let mut i: usize = 0;
        assert(self.bytes@ =~= old(self).bytes@ + bytes@.take(0));
        while i < bytes.len()
            invariant
                i <= bytes@.len(),
                self.bytes@ == old(self).bytes@ + bytes@.take(i as int),
            decreases bytes@.len() - i,
        {
            self.bytes.push_back(bytes[i]);
            i += 1;
            assert(self.bytes@ =~= old(self).bytes@ + bytes@.take(i as int));
        }
        assert(bytes@.take(i as int) =~= bytes@);
        let ghost all = self.bytes@;
        while self.bytes.len() > MAX_LOG_BYTES
            invariant
                self.bytes@.len() <= all.len(),
                self.bytes@ == all.skip(all.len() - self.bytes@.len()),
                self.bytes@.len() == all.len() || self.bytes@.len() >= MAX_LOG_BYTES,
            decreases self.bytes@.len(),
        {
            let _ = self.bytes.pop_front();
            assert(self.bytes@ =~= all.skip(all.len() - self.bytes@.len()));
        }
        assert(self.bytes@ =~= last_bytes(all, MAX_LOG_BYTES as nat));
        bytes.len()
    }

    /// The log as text.
    pub fn text(&self) -> (text: String)
        ensures
            text@ == utf8_lossy(self.bytes@),
            valid_utf8(self.bytes@) ==> text@ == decode_utf8(self.bytes@),
    {
        let mut bytes: Vec<u8> = Vec::new();
        let mut i: usize = 0;
        while i < self.bytes.len()
            invariant
                i <= self.bytes@.len(),
                bytes@ == self.bytes@.take(i as int),
            decreases self.bytes@.len() - i,
        {
            bytes.push(self.bytes[i]);
            i += 1;
            assert(bytes@ =~= self.bytes@.take(i as int));
        }
        assert(self.bytes@.take(i as int) =~= self.bytes@);
        decode_lossy(bytes.as_slice())
    }
}

/// All that was written, one write after the other.
pub open spec fn written(writes: Seq<Seq<u8>>) -> Seq<u8>
    decreases writes.len(),
{
    if writes.len() == 0 {
        Seq::empty()
    } else {
        written(writes.drop_last()) + writes.last()
    }
}

/// What a new log holds after a series of writes, each of which keeps the end of what was there
/// and what it adds.
pub open spec fn log_after(writes: Seq<Seq<u8>>) -> Seq<u8>
    decreases writes.len(),
{
    if writes.len() == 0 {
        Seq::empty()
    } else {
        last_bytes(log_after(writes.drop_last()) + writes.last(), MAX_LOG_BYTES as nat)
    }
}

/// However the output was divided into writes, the log holds the end of all of it.
pub proof fn law_log_is_the_end_of_the_output(writes: Seq<Seq<u8>>)
    ensures
        log_after(writes) == last_bytes(written(writes), MAX_LOG_BYTES as nat),
    decreases writes.len(),
{
    if writes.len() > 0 {
        law_log_is_the_end_of_the_output(writes.drop_last());
        let before = written(writes.drop_last());
        let kept = last_bytes(before, MAX_LOG_BYTES as nat);
        assert(last_bytes(kept + writes.last(), MAX_LOG_BYTES as nat) =~= last_bytes(
            before + writes.last(),
            MAX_LOG_BYTES as nat,
        ));
    }
}

/// The log keeps the end of what was written, and no more than a hundred thousand bytes of it.
pub proof fn law_the_oldest_bytes_go(bytes: Seq<u8>, more: Seq<u8>)
    requires
        bytes.len() <= 100_000,
    ensures
        ({
            let kept = last_bytes(bytes + more, MAX_LOG_BYTES as nat);
            &&& kept.len() == if bytes.len() + more.len() <= 100_000 {
                bytes.len() + more.len()
            } else {
                100_000
            }
            &&& exists|dropped: Seq<u8>| bytes + more == #[trigger] (dropped + kept)
        }),
{
    let all = bytes + more;
    let kept = last_bytes(all, MAX_LOG_BYTES as nat);
    assert(all =~= all.take(all.len() - kept.len()) + kept);
}

} // verus!
