//! The relocation engine: scan the dynamic table for the two relocation
//! tables and patch every load-bias-relative slot.
//!
//! The engine is given the byte address of the dynamic table inside a
//! [`Memory`] span and the load bias. It records the last-seen address and
//! size of the implicit-addend table and of the explicit-addend table, then
//! walks each table found: an entry whose masked type is the load-bias-
//! relative kind has its target cell incremented by the bias (implicit form)
//! or overwritten with bias + addend (explicit form). An access that falls
//! outside the span is a trap: the engine stops and reports failure, leaving
//! memory in the state reached so far.

use crate::memory::{addr_idx, addr_ok, wadd, Memory};
use vstd::prelude::*;

verus! {

/// Dynamic-table tag naming the explicit-addend relocation table.
pub const DT_RELA: u64 = 7;

/// Dynamic-table tag naming the explicit-addend table's size in bytes.
pub const DT_RELASZ: u64 = 8;

/// Dynamic-table tag naming the implicit-addend relocation table.
pub const DT_REL: u64 = 17;

/// Dynamic-table tag naming the implicit-addend table's size in bytes.
pub const DT_RELSZ: u64 = 18;

/// The load-bias-relative relocation type.
pub const R_RELATIVE: u64 = 8;

/// Mask applied to the info word before comparing against [`R_RELATIVE`]:
/// the low 32 bits with their top bit cleared.
pub const R_TYPE_MASK: u64 = 0x7fffffff;

/// Size in bytes of one implicit-addend relocation entry (offset, info).
pub const REL_ENTRY_SIZE: u64 = 16;

/// Size in bytes of one explicit-addend relocation entry
/// (offset, info, addend).
pub const RELA_ENTRY_SIZE: u64 = 24;

/// What a scan of the dynamic table yields: the last-seen address of each
/// relocation table (`None` when its tag never occurred) and the last-seen
/// entry count derived from each size tag.
pub struct RelocTables {
    /// Link-time address of the implicit-addend table.
    pub rel: Option<u64>,
    /// Number of implicit-addend entries.
    pub rel_count: u64,
    /// Link-time address of the explicit-addend table.
    pub rela: Option<u64>,
    /// Number of explicit-addend entries.
    pub rela_count: u64,
}

/// The scan result before any tag has been seen.
pub open spec fn no_tables() -> RelocTables {
    RelocTables { rel: None, rel_count: 0, rela: None, rela_count: 0 }
}

/// An info word marks a load-bias-relative entry iff its masked type field
/// equals [`R_RELATIVE`].
pub open spec fn is_relative(info: u64) -> bool {
    info & R_TYPE_MASK == R_RELATIVE
}

/// How one dynamic-table entry updates the scan state: a recognised tag
/// overwrites the value recorded for it (last seen wins), a size tag records
/// the entry count its byte size yields, any other tag is ignored.
pub open spec fn dyn_step(acc: RelocTables, tag: u64, val: u64) -> RelocTables {
    if tag == DT_REL {
        RelocTables { rel: Some(val), ..acc }
    } else if tag == DT_RELSZ {
        RelocTables { rel_count: val / REL_ENTRY_SIZE, ..acc }
    } else if tag == DT_RELA {
        RelocTables { rela: Some(val), ..acc }
    } else if tag == DT_RELASZ {
        RelocTables { rela_count: val / RELA_ENTRY_SIZE, ..acc }
    } else {
        acc
    }
}

/// Scan dynamic-table entries at word indices `i, i+2, ...` until a zero
/// tag; `None` when the table runs off the span before terminating.
pub open spec fn scan_dynamic_from(words: Seq<u64>, i: int, acc: RelocTables) -> Option<RelocTables>
    decreases words.len() - i,
{
    if i < 0 || i >= words.len() {
        None
    } else if words[i] == 0 {
        Some(acc)
    } else if i + 2 > words.len() {
        None
    } else {
        scan_dynamic_from(words, i + 2, dyn_step(acc, words[i], words[i + 1]))
    }
}

/// Scan the dynamic table at byte address `dynv`; `None` when `dynv` does
/// not name a word of the span or the table runs off the span.
pub open spec fn scan_dynamic_spec(start: u64, words: Seq<u64>, dynv: u64) -> Option<RelocTables> {
    if start <= dynv && (dynv - start) % 8 == 0 {
        scan_dynamic_from(words, addr_idx(start, dynv), no_tables())
    } else {
        None
    }
}

/// Apply `n` implicit-addend entries, the first at byte address `ea`: an
/// entry of the load-bias-relative type has the cell at `base + offset`
/// incremented by `base`. The flag is false when an entry or a target fell
/// outside the span; the sequence is then the memory at the point of the
/// trap.
pub open spec fn apply_rel_from(start: u64, words: Seq<u64>, base: u64, ea: u64, n: int) -> (bool, Seq<u64>)
    decreases n,
{
    if n <= 0 {
        (true, words)
    } else if !addr_ok(start, words, ea) || !addr_ok(start, words, wadd(ea, 8)) {
        (false, words)
    } else {
        let off = words[addr_idx(start, ea)];
        let info = words[addr_idx(start, wadd(ea, 8))];
        if is_relative(info) {
            let tgt = wadd(base, off);
            if !addr_ok(start, words, tgt) {
                (false, words)
            } else {
                let patched = words.update(
                    addr_idx(start, tgt),
                    wadd(words[addr_idx(start, tgt)], base),
                );
                apply_rel_from(start, patched, base, wadd(ea, REL_ENTRY_SIZE), n - 1)
            }
        } else {
            apply_rel_from(start, words, base, wadd(ea, REL_ENTRY_SIZE), n - 1)
        }
    }
}

/// Apply `n` explicit-addend entries, the first at byte address `ea`: an
/// entry of the load-bias-relative type has the cell at `base + offset`
/// overwritten with `base + addend`, whatever it held. The flag is as in
/// [`apply_rel_from`].
pub open spec fn apply_rela_from(start: u64, words: Seq<u64>, base: u64, ea: u64, n: int) -> (bool, Seq<u64>)
    decreases n,
{
    if n <= 0 {
        (true, words)
    } else if !addr_ok(start, words, ea) || !addr_ok(start, words, wadd(ea, 8)) {
        (false, words)
    } else {
        let off = words[addr_idx(start, ea)];
        let info = words[addr_idx(start, wadd(ea, 8))];
        if is_relative(info) {
            if !addr_ok(start, words, wadd(ea, 16)) {
                (false, words)
            } else {
                let addend = words[addr_idx(start, wadd(ea, 16))];
                let tgt = wadd(base, off);
                if !addr_ok(start, words, tgt) {
                    (false, words)
                } else {
                    let patched = words.update(addr_idx(start, tgt), wadd(base, addend));
                    apply_rela_from(start, patched, base, wadd(ea, RELA_ENTRY_SIZE), n - 1)
                }
            }
        } else {
            apply_rela_from(start, words, base, wadd(ea, RELA_ENTRY_SIZE), n - 1)
        }
    }
}

/// Apply both relocation tables a scan found: first every implicit-addend
/// entry, then, when that completed, every explicit-addend entry. Each table
/// lives at `base` plus its recorded link-time address.
pub open spec fn apply_tables_spec(start: u64, words: Seq<u64>, base: u64, t: RelocTables) -> (bool, Seq<u64>) {
    let after_rel = match t.rel {
        Some(a) => apply_rel_from(start, words, base, wadd(base, a), t.rel_count as int),
        None => (true, words),
    };
    if !after_rel.0 {
        after_rel
    } else {
        match t.rela {
            Some(a) => apply_rela_from(start, after_rel.1, base, wadd(base, a), t.rela_count as int),
            None => after_rel,
        }
    }
}

/// The whole engine: scan the dynamic table at `dynv`, then apply the tables
/// it names. The flag is false when the scan or an application trapped.
pub open spec fn dyn_reloc_spec(start: u64, words: Seq<u64>, dynv: u64, base: u64) -> (bool, Seq<u64>) {
    match scan_dynamic_spec(start, words, dynv) {
        None => (false, words),
        Some(t) => apply_tables_spec(start, words, base, t),
    }
}

/// Scan the dynamic table at byte address `dynv` for the relocation-table
/// tags, last seen winning; `None` when the table is not wholly inside the
/// span.
#[verifier::loop_isolation(false)]
pub fn scan_dynamic(mem: &Memory, dynv: u64) -> (r: Option<RelocTables>)
    requires
        mem.wf(),
    ensures
        r == scan_dynamic_spec(mem.start_addr(), mem.contents(), dynv),
{
    let start: u64 = mem.start();
    if dynv < start {
        return None;
    }
    let off: u64 = dynv - start;
    if off % 8 != 0 {
        return None;
    }
    let idx0: u64 = off / 8;
    let len: usize = mem.word_count();
    let ghost words = mem.contents();
    if idx0 >= len as u64 {
        return None;
    }
    let mut i: u64 = idx0;
    let mut acc = RelocTables { rel: None, rel_count: 0, rela: None, rela_count: 0 };
    loop
        invariant
            mem.wf(),
            words == mem.contents(),
            start == mem.start_addr(),
            len == words.len(),
            idx0 == addr_idx(start, dynv),
            i <= len as int + 1,
            scan_dynamic_from(words, idx0 as int, no_tables()) == scan_dynamic_from(
                words,
                i as int,
                acc,
            ),
        decreases words.len() + 2 - i,
    {
        proof {
            assert(8 * words.len() <= 0x1_0000_0000_0000_0000);
        }
        if i >= len as u64 {
            return None;
        }
        let tag = mem.word(i as usize);
        if tag == 0 {
            return Some(acc);
        }
        if i + 1 >= len as u64 {
            return None;
        }
        let val = mem.word((i + 1) as usize);
        let ghost acc0 = acc;
        acc = if tag == DT_REL {
            RelocTables { rel: Some(val), ..acc }
        } else if tag == DT_RELSZ {
            RelocTables { rel_count: val / REL_ENTRY_SIZE, ..acc }
        } else if tag == DT_RELA {
            RelocTables { rela: Some(val), ..acc }
        } else if tag == DT_RELASZ {
            RelocTables { rela_count: val / RELA_ENTRY_SIZE, ..acc }
        } else {
            acc
        };
        proof {
            assert(acc == dyn_step(acc0, tag, val));
            assert(scan_dynamic_from(words, i as int, acc0) == scan_dynamic_from(
                words,
                i as int + 2,
                acc,
            ));
        }
        i = i + 2;
    }
}

/// Apply `count` implicit-addend relocation entries, the first at byte
/// address `table`: each entry of the load-bias-relative type has the word
/// at `base + offset` incremented by `base`. Returns false, leaving memory
/// as the trap found it, when an entry or a target falls outside the span.
#[verifier::loop_isolation(false)]
pub fn apply_rel_table(mem: &mut Memory, base: u64, table: u64, count: u64) -> (ok: bool)
    requires
        old(mem).wf(),
    ensures
        final(mem).wf(),
        final(mem).start_addr() == old(mem).start_addr(),
        ({
            let r = apply_rel_from(
                old(mem).start_addr(),
                old(mem).contents(),
                base,
                table,
                count as int,
            );
            ok == r.0 && final(mem).contents() == r.1
        }),
{
    let ghost start = mem.start_addr();
    let ghost words0 = mem.contents();
    let mut ea: u64 = table;
    let mut k: u64 = 0;
    while k < count
        invariant
            mem.wf(),
            mem.start_addr() == start,
            k <= count,
            apply_rel_from(start, words0, base, table, count as int) == apply_rel_from(
                start,
                mem.contents(),
                base,
                ea,
                count - k,
            ),
        decreases count - k,
    {
        let ghost w_cur = mem.contents();
        let ghost ea0 = ea;
        let ghost n = count - k;
        let off = match mem.read(ea) {
            Some(v) => v,
            None => {
                return false;
            },
        };
        let info = match mem.read(ea.wrapping_add(8)) {
            Some(v) => v,
            None => {
                return false;
            },
        };
        if info & R_TYPE_MASK == R_RELATIVE {
            let tgt = base.wrapping_add(off);
            let cur = match mem.read(tgt) {
                Some(v) => v,
                None => {
                    return false;
                },
            };
            let _patched = mem.write(tgt, cur.wrapping_add(base));
        }
        proof {
            assert(apply_rel_from(start, w_cur, base, ea0, n as int) == apply_rel_from(
                start,
                mem.contents(),
                base,
                wadd(ea0, REL_ENTRY_SIZE),
                n - 1,
            ));
        }
        ea = ea.wrapping_add(16);
        k = k + 1;
    }
    true
}

/// Apply `count` explicit-addend relocation entries, the first at byte
/// address `table`: each entry of the load-bias-relative type has the word
/// at `base + offset` overwritten with `base + addend`, whatever it held.
/// Returns false, leaving memory as the trap found it, when an entry or a
/// target falls outside the span.
#[verifier::loop_isolation(false)]
pub fn apply_rela_table(mem: &mut Memory, base: u64, table: u64, count: u64) -> (ok: bool)
    requires
        old(mem).wf(),
    ensures
        final(mem).wf(),
        final(mem).start_addr() == old(mem).start_addr(),
        ({
            let r = apply_rela_from(
                old(mem).start_addr(),
                old(mem).contents(),
                base,
                table,
                count as int,
            );
            ok == r.0 && final(mem).contents() == r.1
        }),
{
    let ghost start = mem.start_addr();
    let ghost words0 = mem.contents();
    let mut ea: u64 = table;
    let mut k: u64 = 0;
    while k < count
        invariant
            mem.wf(),
            mem.start_addr() == start,
            k <= count,
            apply_rela_from(start, words0, base, table, count as int) == apply_rela_from(
                start,
                mem.contents(),
                base,
                ea,
                count - k,
            ),
        decreases count - k,
    {
        let ghost w_cur = mem.contents();
        let ghost ea0 = ea;
        let ghost n = count - k;
        let off = match mem.read(ea) {
            Some(v) => v,
            None => {
                return false;
            },
        };
        let info = match mem.read(ea.wrapping_add(8)) {
            Some(v) => v,
            None => {
                return false;
            },
        };
        if info & R_TYPE_MASK == R_RELATIVE {
            let addend = match mem.read(ea.wrapping_add(16)) {
                Some(v) => v,
                None => {
                    return false;
                },
            };
            let tgt = base.wrapping_add(off);
            match mem.read(tgt) {
                Some(_) => {},
                None => {
                    return false;
                },
            };
            let _patched = mem.write(tgt, base.wrapping_add(addend));
        }
        proof {
            assert(apply_rela_from(start, w_cur, base, ea0, n as int) == apply_rela_from(
                start,
                mem.contents(),
                base,
                wadd(ea0, RELA_ENTRY_SIZE),
                n - 1,
            ));
        }
        ea = ea.wrapping_add(24);
        k = k + 1;
    }
    true
}

/// The relocation engine: scan the dynamic table at byte address `dynv`,
/// then patch every load-bias-relative slot of the implicit-addend table
/// and of the explicit-addend table it names. Returns false when the scan
/// or an application fell outside the span (the trap of the original
/// mechanism); memory is then left as the trap found it.
pub fn dyn_reloc(mem: &mut Memory, dynv: u64, base: u64) -> (ok: bool)
    requires
        old(mem).wf(),
    ensures
        final(mem).wf(),
        final(mem).start_addr() == old(mem).start_addr(),
        ({
            let r = dyn_reloc_spec(old(mem).start_addr(), old(mem).contents(), dynv, base);
            ok == r.0 && final(mem).contents() == r.1
        }),
{
    let tables = match scan_dynamic(mem, dynv) {
        Some(t) => t,
        None => {
            return false;
        },
    };
    match tables.rel {
        Some(a) => {
            if !apply_rel_table(mem, base, base.wrapping_add(a), tables.rel_count) {
                return false;
            }
        },
        None => {},
    }
    match tables.rela {
        Some(a) => {
            if !apply_rela_table(mem, base, base.wrapping_add(a), tables.rela_count) {
                return false;
            }
        },
        None => {},
    }
    true
}

} // verus!
