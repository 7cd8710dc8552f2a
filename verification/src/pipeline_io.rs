use vstd::prelude::*;

verus! {

/// A writer that takes at most two bytes per write, counts its flushes and
/// fails a flush on request.
pub struct ShortWriter {
    pub bytes: Vec<u8>,
    pub flushes: usize,
    pub fail_flush: bool,
}

impl ShortWriter {
    /// Accepts the first two bytes of `bytes`, or all of them when there are
    /// fewer, and returns how many it took.
    pub fn write(&mut self, bytes: &[u8]) -> (count: usize)
        ensures
            count == if bytes@.len() < 2 { bytes@.len() } else { 2 },
            final(self).bytes@ == old(self).bytes@ + bytes@.take(count as int),
            final(self).flushes == old(self).flushes,
            final(self).fail_flush == old(self).fail_flush,
    {
        let count: usize = if bytes.len() < 2 { bytes.len() } else { 2 };
        let mut i: usize = 0;
        let ghost before = self.bytes@;
        while i < count
            invariant
                i <= count <= bytes@.len(),
                self.bytes@ == before + bytes@.take(i as int),
                self.flushes == old(self).flushes,
                self.fail_flush == old(self).fail_flush,
            decreases count - i,
        {
            self.bytes.push(bytes[i]);
            i = i + 1;
            assert(self.bytes@ =~= before + bytes@.take(i as int));
        }
        count
    }

    /// Counts a flush; it fails exactly when `fail_flush` is set.
    pub fn flush(&mut self) -> (failed: bool)
        requires
            old(self).flushes < usize::MAX,
        ensures
            final(self).flushes == old(self).flushes + 1,
            failed == old(self).fail_flush,
            final(self).bytes@ == old(self).bytes@,
            final(self).fail_flush == old(self).fail_flush,
    {
        self.flushes = self.flushes + 1;
        self.fail_flush
    }
}

/// Why a read failed.
#[derive(Debug, Clone, Copy, PartialEq, Eq)]
pub enum ReadFault {
    /// The connection was reset by the peer.
    ConnectionReset,
}

/// A reader that delivers `prefix` from `position` on and then reports a
/// reset connection instead of the end of the input.
pub struct FailingReader {
    pub prefix: Vec<u8>,
    pub position: usize,
}

impl FailingReader {
    /// Reads into a buffer of `capacity` bytes. An empty buffer reads
    /// nothing. At the end of the prefix the read fails. Otherwise it
    /// delivers as many bytes from the current position as fit, and moves
    /// past them; a position beyond the prefix delivers nothing.
    pub fn read(&mut self, capacity: usize) -> (result: Result<Vec<u8>, ReadFault>)
        ensures
            final(self).prefix@ == old(self).prefix@,
            ({
                let len = old(self).prefix@.len();
                let pos = old(self).position;
                if capacity == 0 || pos > len {
                    result matches Ok(bytes) && bytes@.len() == 0 && final(self).position == pos
                } else if pos == len {
                    result == Err::<Vec<u8>, ReadFault>(ReadFault::ConnectionReset)
                        && final(self).position == pos
                } else {
                    let count = if capacity < len - pos { capacity as int } else { len - pos };
                    result matches Ok(bytes) && bytes@ == old(self).prefix@.subrange(pos as int, pos + count)
                        && final(self).position == pos + count
                }
            }),
    {
        let len = self.prefix.len();
        if capacity == 0 || self.position > len {
            return Ok(Vec::new());
        }
        if self.position == len {
            return Err(ReadFault::ConnectionReset);
        }
        let start = self.position;
        let count: usize = if capacity < len - start { capacity } else { len - start };
        let mut bytes: Vec<u8> = Vec::new();
        let mut i: usize = 0;
        while i < count
            invariant
                i <= count,
                start + count <= len == self.prefix@.len(),
                bytes@ == self.prefix@.subrange(start as int, start + i),
            decreases count - i,
        {
            bytes.push(self.prefix[start + i]);
            i = i + 1;
            assert(bytes@ =~= self.prefix@.subrange(start as int, start + i));
        }
        self.position = start + count;
        Ok(bytes)
    }
}

} // verus!
