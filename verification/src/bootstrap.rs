//! The relocation bootstrap: from the initial stack image to a computed load
//! bias and a fully patched span.
//!
//! The initial stack holds, in order: the argument count, the argument
//! pointers, a null terminator, the environment pointers, a null terminator,
//! and the auxiliary vector of (key, value) word pairs ending at a zero key.
//! The bootstrap skips to the auxiliary vector, reads from it the address,
//! entry size and count of the executable's own program header table, walks
//! that table for the dynamic-information segment, computes the load bias as
//! the dynamic table's runtime address minus that segment's recorded virtual
//! address, and runs the relocation engine. A `Some` result is the computed
//! bias and stands for the hand-off to the continuation; `None` is the trap
//! that the mechanism answers every malformed input with.

use crate::engine::{dyn_reloc, dyn_reloc_spec};
use crate::memory::{addr_idx, addr_ok, wadd, wsub, Memory};
use vstd::prelude::*;

verus! {

/// Auxiliary-vector key of the program header table's address.
pub const AT_PHDR: u64 = 3;

/// Auxiliary-vector key of the size in bytes of one program header.
pub const AT_PHENT: u64 = 4;

/// Auxiliary-vector key of the number of program headers.
pub const AT_PHNUM: u64 = 5;

/// Program-header type marking the dynamic-information segment.
pub const PT_DYNAMIC: u64 = 2;

/// The three auxiliary-vector values the bootstrap scans for. A value of
/// zero counts as not found.
pub struct PhInfo {
    /// Runtime address of the program header table.
    pub ph: u64,
    /// Size in bytes of one program header entry.
    pub phent: u64,
    /// Number of program header entries.
    pub phnum: u64,
}

/// The scan state before any auxiliary-vector key has been seen.
pub open spec fn no_ph_info() -> PhInfo {
    PhInfo { ph: 0, phent: 0, phnum: 0 }
}

/// The scan may stop early once all three values have been seen (non-zero).
pub open spec fn ph_info_complete(acc: PhInfo) -> bool {
    acc.ph != 0 && acc.phent != 0 && acc.phnum != 0
}

/// The word index of the first zero word at or after index `i`; `None` when
/// the span ends first.
pub open spec fn find_zero_from(words: Seq<u64>, i: int) -> Option<int>
    decreases words.len() - i,
{
    if i < 0 || i >= words.len() {
        None
    } else if words[i] == 0 {
        Some(i)
    } else {
        find_zero_from(words, i + 1)
    }
}

/// The word index of the auxiliary vector on a stack image whose first word
/// sits at byte address `sp`: one past the zero that terminates the
/// environment array, which is scanned for starting right after the argument
/// array. `None` when the walk leaves the span.
pub open spec fn auxv_index_spec(start: u64, words: Seq<u64>, sp: u64) -> Option<int> {
    if !(start <= sp && (sp - start) % 8 == 0) {
        None
    } else {
        let i0 = addr_idx(start, sp);
        if i0 >= words.len() {
            None
        } else {
            let argc = words[i0];
            match find_zero_from(words, i0 + 2 + argc) {
                None => None,
                Some(z) => Some(z + 1),
            }
        }
    }
}

/// How one auxiliary-vector pair updates the scan state: a recognised key
/// records its value, any other key is ignored.
pub open spec fn auxv_step(acc: PhInfo, key: u64, val: u64) -> PhInfo {
    if key == AT_PHDR {
        PhInfo { ph: val, ..acc }
    } else if key == AT_PHENT {
        PhInfo { phent: val, ..acc }
    } else if key == AT_PHNUM {
        PhInfo { phnum: val, ..acc }
    } else {
        acc
    }
}

/// Scan auxiliary-vector pairs at word indices `i, i+2, ...` until a zero
/// key, or early once all three values have been seen; the value word of an
/// ignored key is never read. `None` when the vector runs off the span
/// before either happens.
pub open spec fn scan_auxv_from(words: Seq<u64>, i: int, acc: PhInfo) -> Option<PhInfo>
    decreases words.len() + 2 - i,
{
    if i < 0 || i >= words.len() {
        None
    } else if words[i] == 0 {
        Some(acc)
    } else {
        let key = words[i];
        if key == AT_PHDR || key == AT_PHENT || key == AT_PHNUM {
            if i + 2 > words.len() {
                None
            } else {
                let acc2 = auxv_step(acc, key, words[i + 1]);
                if ph_info_complete(acc2) {
                    Some(acc2)
                } else {
                    scan_auxv_from(words, i + 2, acc2)
                }
            }
        } else {
            if ph_info_complete(acc) {
                Some(acc)
            } else {
                scan_auxv_from(words, i + 2, acc)
            }
        }
    }
}

/// Walk `n` program headers, the first at byte address `ph` and each
/// `phent` bytes after the one before: the recorded virtual address (the
/// word 16 bytes in) of the first header whose type word's low 32 bits mark
/// the dynamic-information segment. `None` when the table is exhausted or
/// the walk leaves the span: the unrecoverable condition.
pub open spec fn find_dynamic_vaddr_from(
    start: u64,
    words: Seq<u64>,
    ph: u64,
    phent: u64,
    n: int,
) -> Option<u64>
    decreases n,
{
    if n <= 0 {
        None
    } else if !addr_ok(start, words, ph) {
        None
    } else if words[addr_idx(start, ph)] & 0xffff_ffff == PT_DYNAMIC {
        if !addr_ok(start, words, wadd(ph, 16)) {
            None
        } else {
            Some(words[addr_idx(start, wadd(ph, 16))])
        }
    } else {
        find_dynamic_vaddr_from(start, words, wadd(ph, phent), phent, n - 1)
    }
}

/// The whole bootstrap: locate the auxiliary vector on the stack at `sp`,
/// read the program-header triple from it, find the dynamic-information
/// segment's virtual address, compute the load bias as `dynv` minus that
/// address, and run the engine. The first component is `Some` bias exactly
/// when every step succeeded; the second is the span's words afterwards.
pub open spec fn rcrt_spec(start: u64, words: Seq<u64>, dynv: u64, sp: u64) -> (
    Option<u64>,
    Seq<u64>,
) {
    match auxv_index_spec(start, words, sp) {
        None => (None, words),
        Some(ai) => match scan_auxv_from(words, ai, no_ph_info()) {
            None => (None, words),
            Some(info) => match find_dynamic_vaddr_from(
                start,
                words,
                info.ph,
                info.phent,
                info.phnum as int,
            ) {
                None => (None, words),
                Some(vaddr) => {
                    let base = wsub(dynv, vaddr);
                    let r = dyn_reloc_spec(start, words, dynv, base);
                    if r.0 {
                        (Some(base), r.1)
                    } else {
                        (None, r.1)
                    }
                },
            },
        },
    }
}

/// Locate the auxiliary vector on the stack image whose first word (the
/// argument count) sits at byte address `sp`: skip the argument array, scan
/// for the zero terminating the environment array, and return the word index
/// one past it.
#[verifier::loop_isolation(false)]
pub fn find_auxv_index(mem: &Memory, sp: u64) -> (r: Option<u64>)
    requires
        mem.wf(),
    ensures
        match r {
            Some(i) => auxv_index_spec(mem.start_addr(), mem.contents(), sp) == Some(i as int),
            None => auxv_index_spec(mem.start_addr(), mem.contents(), sp) is None,
        },
{
    let start: u64 = mem.start();
    if sp < start {
        return None;
    }
    let off: u64 = sp - start;
    if off % 8 != 0 {
        return None;
    }
    let i0: u64 = off / 8;
    let len: usize = mem.word_count();
    if i0 >= len as u64 {
        return None;
    }
    proof {
        assert(8 * mem.contents().len() <= 0x1_0000_0000_0000_0000);
    }
    let argc: u64 = mem.word(i0 as usize);
    if argc >= len as u64 {
        return None;
    }
    let mut j: u64 = i0 + 2 + argc;
    if j >= len as u64 {
        return None;
    }
    loop
        invariant
            j <= len,
            find_zero_from(mem.contents(), i0 + 2 + argc) == find_zero_from(
                mem.contents(),
                j as int,
            ),
        decreases mem.contents().len() - j,
    {
        if j >= len as u64 {
            return None;
        }
        let w = mem.word(j as usize);
        if w == 0 {
            return Some(j + 1);
        }
        j = j + 1;
    }
}

/// Scan the auxiliary vector at word index `start_idx` for the program
/// header table's address, entry size and count, stopping at a zero key or
/// early once all three have been seen.
#[verifier::loop_isolation(false)]
pub fn scan_auxv(mem: &Memory, start_idx: u64) -> (r: Option<PhInfo>)
    requires
        mem.wf(),
    ensures
        r == scan_auxv_from(mem.contents(), start_idx as int, no_ph_info()),
{
    let len: usize = mem.word_count();
    if start_idx >= len as u64 {
        return None;
    }
    proof {
        assert(8 * mem.contents().len() <= 0x1_0000_0000_0000_0000);
    }
    let mut i: u64 = start_idx;
    let mut acc = PhInfo { ph: 0, phent: 0, phnum: 0 };
    loop
        invariant
            i <= len as int + 1,
            scan_auxv_from(mem.contents(), start_idx as int, no_ph_info()) == scan_auxv_from(
                mem.contents(),
                i as int,
                acc,
            ),
        decreases mem.contents().len() + 2 - i,
    {
        if i >= len as u64 {
            return None;
        }
        let key = mem.word(i as usize);
        if key == 0 {
            return Some(acc);
        }
        if key == AT_PHDR || key == AT_PHENT || key == AT_PHNUM {
            if i + 1 >= len as u64 {
                return None;
            }
            let val = mem.word((i + 1) as usize);
            acc = if key == AT_PHDR {
                PhInfo { ph: val, ..acc }
            } else if key == AT_PHENT {
                PhInfo { phent: val, ..acc }
            } else {
                PhInfo { phnum: val, ..acc }
            };
            if acc.ph != 0 && acc.phent != 0 && acc.phnum != 0 {
                return Some(acc);
            }
        } else {
            if acc.ph != 0 && acc.phent != 0 && acc.phnum != 0 {
                return Some(acc);
            }
        }
        i = i + 2;
    }
}

/// Walk `phnum` program headers starting at byte address `ph`, each `phent`
/// bytes apart, for the first one typed as the dynamic-information segment;
/// its recorded virtual address is the result.
#[verifier::loop_isolation(false)]
pub fn find_dynamic_vaddr(mem: &Memory, ph: u64, phent: u64, phnum: u64) -> (r: Option<u64>)
    requires
        mem.wf(),
    ensures
        r == find_dynamic_vaddr_from(mem.start_addr(), mem.contents(), ph, phent, phnum as int),
{
    let mut p: u64 = ph;
    let mut n: u64 = phnum;
    while n > 0
        invariant
            n <= phnum,
            find_dynamic_vaddr_from(
                mem.start_addr(),
                mem.contents(),
                ph,
                phent,
                phnum as int,
            ) == find_dynamic_vaddr_from(mem.start_addr(), mem.contents(), p, phent, n as int),
        decreases n,
    {
        let tyw = match mem.read(p) {
            Some(v) => v,
            None => {
                return None;
            },
        };
        if tyw & 0xffff_ffff == PT_DYNAMIC {
            let va = match mem.read(p.wrapping_add(16)) {
                Some(v) => v,
                None => {
                    return None;
                },
            };
            return Some(va);
        }
        p = p.wrapping_add(phent);
        n = n - 1;
    }
    None
}

/// The relocation bootstrap. Given a span of the process image, the runtime
/// byte address `dynv` of the dynamic table and the byte address `sp` of the
/// initial stack image inside it, compute the load bias from the auxiliary
/// vector and the program headers, patch every load-bias-relative slot, and
/// return the bias. `Some` stands for the hand-off to the continuation with
/// a fully patched span; `None` is the trap on malformed input, and the span
/// is then left as the trap found it.
pub fn rcrt(mem: &mut Memory, dynv: u64, sp: u64) -> (r: Option<u64>)
    requires
        old(mem).wf(),
    ensures
        final(mem).wf(),
        final(mem).start_addr() == old(mem).start_addr(),
        ({
            let rr = rcrt_spec(old(mem).start_addr(), old(mem).contents(), dynv, sp);
            r == rr.0 && final(mem).contents() == rr.1
        }),
{
    let ai = match find_auxv_index(mem, sp) {
        Some(i) => i,
        None => {
            return None;
        },
    };
    let info = match scan_auxv(mem, ai) {
        Some(x) => x,
        None => {
            return None;
        },
    };
    let vaddr = match find_dynamic_vaddr(mem, info.ph, info.phent, info.phnum) {
        Some(v) => v,
        None => {
            return None;
        },
    };
    let base = dynv.wrapping_sub(vaddr);
    if dyn_reloc(mem, dynv, base) {
        Some(base)
    } else {
        None
    }
}

} // verus!
