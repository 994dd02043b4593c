//! A model of a span of the process's address space, as 8-byte words.
//!
//! The self-relocation logic reads and patches raw memory. Here that memory
//! is an explicit value: a contiguous run of machine words starting at a
//! byte address. Every access goes through a bounds- and alignment-checked
//! read or write, so the traversal logic above it can be verified against
//! exact contracts.

use vstd::prelude::*;

verus! {

/// Modular (wrapping) addition of two machine words, as address arithmetic
/// behaves on the hardware.
pub open spec fn wadd(a: u64, b: u64) -> u64 {
    vstd::wrapping::u64_specs::wrapping_add(a, b)
}

/// Modular (wrapping) subtraction of two machine words.
pub open spec fn wsub(a: u64, b: u64) -> u64 {
    vstd::wrapping::u64_specs::wrapping_sub(a, b)
}

/// An address `a` names a word of a span iff it lies at or after the span's
/// start, is 8-byte aligned relative to it, and falls before its end.
pub open spec fn addr_ok(start: u64, words: Seq<u64>, a: u64) -> bool {
    &&& start <= a
    &&& (a - start) % 8 == 0
    &&& (a - start) / 8 < words.len()
}

/// The word index that a byte address names within a span.
pub open spec fn addr_idx(start: u64, a: u64) -> int {
    (a - start) / 8
}

/// The word a span holds at a byte address, or `None` when the address does
/// not name a word of the span.
pub open spec fn read_spec(start: u64, words: Seq<u64>, a: u64) -> Option<u64> {
    if addr_ok(start, words, a) {
        Some(words[addr_idx(start, a)])
    } else {
        None
    }
}

/// A contiguous span of the process image, held as 8-byte words.
///
/// `start` is the byte address of the first word; the word at index `i`
/// stands for the 8 bytes at address `start + 8 * i`.
pub struct Memory {
    start: u64,
    words: Vec<u64>,
}

impl Memory {
    /// The byte address of the first word.
    pub closed spec fn start_addr(self) -> u64 {
        self.start
    }

    /// The words of the span, in address order.
    pub closed spec fn contents(self) -> Seq<u64> {
        self.words@
    }

    /// The span lies entirely within the address space: its one-past-the-end
    /// byte address does not exceed 2^64.
    pub open spec fn wf(self) -> bool {
        self.start_addr() + 8 * self.contents().len() <= 0x1_0000_0000_0000_0000
    }

    /// Build a span of `words.len()` words whose first word sits at byte
    /// address `start`.
    pub fn new(start: u64, words: Vec<u64>) -> (m: Memory)
        requires
            start + 8 * words@.len() <= 0x1_0000_0000_0000_0000,
        ensures
            m.wf(),
            m.start_addr() == start,
            m.contents() == words@,
    {
        Memory { start, words }
    }

    /// The byte address of the first word.
    pub fn start(&self) -> (r: u64)
        ensures
            r == self.start_addr(),
    {
        self.start
    }

    /// How many words the span holds.
    pub fn word_count(&self) -> (r: usize)
        ensures
            r == self.contents().len(),
    {
        self.words.len()
    }

    /// Read the word at index `i`.
    pub fn word(&self, i: usize) -> (r: u64)
        requires
            i < self.contents().len(),
        ensures
            r == self.contents()[i as int],
    {
        self.words[i]
    }

    /// Read the word at byte address `a`; `None` when `a` does not name a
    /// word of the span.
    pub fn read(&self, a: u64) -> (r: Option<u64>)
        requires
            self.wf(),
        ensures
            r == read_spec(self.start_addr(), self.contents(), a),
    {
        if a < self.start {
            return None;
        }
        let off: u64 = a - self.start;
        if off % 8 != 0 {
            return None;
        }
        let idx: u64 = off / 8;
        if idx >= self.words.len() as u64 {
            return None;
        }
        Some(self.words[idx as usize])
    }

    /// Overwrite the word at byte address `a` with `v`; reports whether `a`
    /// named a word of the span (nothing changes when it did not).
    pub fn write(&mut self, a: u64, v: u64) -> (ok: bool)
        requires
            old(self).wf(),
        ensures
            final(self).wf(),
            final(self).start_addr() == old(self).start_addr(),
            ok == addr_ok(old(self).start_addr(), old(self).contents(), a),
            final(self).contents() == (if ok {
                old(self).contents().update(addr_idx(old(self).start_addr(), a), v)
            } else {
                old(self).contents()
            }),
    {
        if a < self.start {
            return false;
        }
        let off: u64 = a - self.start;
        if off % 8 != 0 {
            return false;
        }
        let idx: u64 = off / 8;
        if idx >= self.words.len() as u64 {
            return false;
        }
        self.words[idx as usize] = v;
        true
    }
}

} // verus!
