//! The byte cursor of a disk container that is addressed by position (a fixed
//! VHD): seeking, and advancing after a read or a write.
use vstd::prelude::*;

verus! {

/// A seek target, as `std::io::SeekFrom` has it.
#[derive(Debug, Clone, Copy, PartialEq, Eq, Structural)]
pub enum SeekTarget {
    Start(u64),
    End(i64),
    Current(i64),
}

/// Why a seek or a move was refused.
#[derive(Debug, Clone, Copy, PartialEq, Eq, Structural)]
pub enum SeekError {
    /// The position would be before the start.
    BeforeStart,
    /// The position would not fit in a `u64`.
    Overflow,
}

/// Outcome of a positional read or write on the container.
#[derive(Debug, Clone, Copy, PartialEq, Eq, Structural)]
pub enum Transfer {
    /// This many bytes were moved.
    Moved(usize),
    /// The position is at or past the end of the data.
    EndOfData,
}

/// The position that a seek asks for, over the integers.
pub open spec fn seek_spec(pos: u64, capacity: u64, target: SeekTarget) -> int {
    match target {
        SeekTarget::Start(n) => n as int,
        SeekTarget::End(n) => capacity as int + n as int,
        SeekTarget::Current(n) => pos as int + n as int,
    }
}

/// A cursor over a container of positional reads and writes.
#[derive(Debug)]
pub struct VhdCursor {
    pos: u64,
}

impl VhdCursor {
    pub closed spec fn position(&self) -> u64 {
        self.pos
    }

    /// A cursor at the start.
    pub fn new() -> (r: VhdCursor)
        ensures
            r.position() == 0,
    {
        VhdCursor { pos: 0 }
    }

    /// The current position.
    pub fn pos(&self) -> (r: u64)
        ensures
            r == self.position(),
    {
        self.pos
    }

    /// Moves the cursor. A position before the start is refused and leaves the
    /// cursor where it was; so is one beyond what a `u64` holds.
    pub fn seek(&mut self, target: SeekTarget, capacity: u64) -> (r: Result<u64, SeekError>)
        ensures
            match r {
                Ok(p) => p == seek_spec(old(self).position(), capacity, target) && final(self).position() == p,
                Err(e) => final(self).position() == old(self).position() && if seek_spec(
                    old(self).position(),
                    capacity,
                    target,
                ) < 0 {
                    e == SeekError::BeforeStart
                } else {
                    e == SeekError::Overflow && seek_spec(old(self).position(), capacity, target) > u64::MAX
                },
            },
            r is Ok <==> 0 <= seek_spec(old(self).position(), capacity, target) <= u64::MAX,
    {
        let (base, delta): (u64, i64) = match target {
            SeekTarget::Start(n) => {
                self.pos = n;
                return Ok(n);
            },
            SeekTarget::End(n) => (capacity, n),
            SeekTarget::Current(n) => (self.pos, n),
        };
        if delta >= 0 {
            let d = delta as u64;
            if d > u64::MAX - base {
                return Err(SeekError::Overflow);
            }
            self.pos = base + d;
        } else {
            let back: u64 = if delta == i64::MIN {
                0x8000_0000_0000_0000
            } else {
                (-delta) as u64
            };
            if back > base {
                return Err(SeekError::BeforeStart);
            }
            self.pos = base - back;
        }
        Ok(self.pos)
    }

    /// Accounts for a positional read or write at the cursor: the cursor moves
    /// past the bytes moved; at the end of the data nothing moves and the count is
    /// zero.
    pub fn after_transfer(&mut self, t: Transfer) -> (r: Result<usize, SeekError>)
        ensures
            match t {
                Transfer::Moved(n) => if old(self).position() + n <= u64::MAX {
                    r == Ok::<usize, SeekError>(n) && final(self).position() == old(self).position() + n
                } else {
                    r == Err::<usize, SeekError>(SeekError::Overflow) && final(self).position() == old(self).position()
                },
                Transfer::EndOfData => r == Ok::<usize, SeekError>(0) && final(self).position() == old(self).position(),
            },
    {
        match t {
            Transfer::Moved(n) => {
                if n as u64 > u64::MAX - self.pos {
                    return Err(SeekError::Overflow);
                }
                self.pos = self.pos + n as u64;
                Ok(n)
            },
            Transfer::EndOfData => Ok(0),
        }
    }
}

} // verus!
