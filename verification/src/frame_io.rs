use vstd::prelude::*;

verus! {

/// A writer whose first write is interrupted and which then takes at most
/// two bytes per write; it records whether it was flushed.
pub struct ShortWriter {
    pub output: Vec<u8>,
    pub interrupted: bool,
    pub flushed: bool,
}

impl ShortWriter {
    /// The first call takes nothing and reports the interruption (`None`);
    /// every later call takes the first two bytes, or all when there are
    /// fewer, and returns how many it took.
    pub fn write(&mut self, bytes: &[u8]) -> (count: Option<usize>)
        ensures
            final(self).interrupted,
            final(self).flushed == old(self).flushed,
            !old(self).interrupted ==> count is None && final(self).output@ == old(self).output@,
            old(self).interrupted ==> (count matches Some(n) && n == (if bytes@.len() < 2 {
                bytes@.len() as int
            } else {
                2int
            }) && final(self).output@ == old(self).output@ + bytes@.take(n as int)),
    {
        if !self.interrupted {
            self.interrupted = true;
            return None;
        }
        let count: usize = if bytes.len() < 2 { bytes.len() } else { 2 };
        let mut i: usize = 0;
        let ghost before = self.output@;
        while i < count
            invariant
                i <= count <= bytes@.len(),
                self.output@ == before + bytes@.take(i as int),
                self.interrupted,
                self.flushed == old(self).flushed,
            decreases count - i,
        {
            self.output.push(bytes[i]);
            i = i + 1;
            assert(self.output@ =~= before + bytes@.take(i as int));
        }
        Some(count)
    }

    /// Records a flush; it always succeeds.
    pub fn flush(&mut self)
        ensures
            final(self).flushed,
            final(self).output@ == old(self).output@,
            final(self).interrupted == old(self).interrupted,
    {
        self.flushed = true;
    }
}

} // verus!
