//! The guarantees of the relocation engine, stated and proved once for all
//! well-formed relocation tables.
//!
//! A table is addressed here by the word index `ti` of its first entry
//! inside the span, so each statement can name the entries and their target
//! cells directly: entry `k` of the implicit-addend table occupies word
//! indices `ti + 2k` (offset) and `ti + 2k + 1` (info); entry `k` of the
//! explicit-addend table occupies `ti + 3k` (offset), `ti + 3k + 1` (info)
//! and `ti + 3k + 2` (addend).

use crate::engine::{
    apply_rel_from, apply_rela_from, apply_tables_spec, dyn_reloc_spec, is_relative, no_tables,
    scan_dynamic_spec, RELA_ENTRY_SIZE, REL_ENTRY_SIZE,
};
use crate::memory::{addr_idx, addr_ok, wadd};
use vstd::prelude::*;

verus! {

/// The offset field of implicit-addend entry `k` of the table at word index
/// `ti`.
pub open spec fn rel_off(words: Seq<u64>, ti: int, k: int) -> u64 {
    words[ti + 2 * k]
}

/// The info field of implicit-addend entry `k` of the table at word index
/// `ti`.
pub open spec fn rel_info(words: Seq<u64>, ti: int, k: int) -> u64 {
    words[ti + 2 * k + 1]
}

/// The word index of the cell that implicit-addend entry `k` patches.
pub open spec fn rel_tgt(start: u64, words: Seq<u64>, ti: int, base: u64, k: int) -> int {
    addr_idx(start, wadd(base, rel_off(words, ti, k)))
}

/// The implicit-addend table at byte address `table` occupies word indices
/// `ti .. ti + 2 * count` of a span that lies within the address space.
pub open spec fn rel_table_in_span(
    start: u64,
    words: Seq<u64>,
    table: u64,
    ti: int,
    count: int,
) -> bool {
    &&& table == start + 8 * ti
    &&& 0 <= ti
    &&& ti + 2 * count <= words.len()
    &&& start + 8 * words.len() <= 0x1_0000_0000_0000_0000
}

/// Every load-bias-relative entry of the implicit-addend table aims at a
/// cell of the span that lies outside the table itself.
pub open spec fn rel_targets_ok(
    start: u64,
    words: Seq<u64>,
    ti: int,
    base: u64,
    count: int,
) -> bool {
    forall|k: int|
        0 <= k < count && is_relative(#[trigger] rel_info(words, ti, k)) ==> {
            &&& addr_ok(start, words, wadd(base, rel_off(words, ti, k)))
            &&& !(ti <= rel_tgt(start, words, ti, base, k) < ti + 2 * count)
        }
}

/// No two load-bias-relative entries of the implicit-addend table aim at the
/// same cell.
pub open spec fn rel_targets_distinct(
    start: u64,
    words: Seq<u64>,
    ti: int,
    base: u64,
    count: int,
) -> bool {
    forall|k1: int, k2: int|
        #![trigger rel_tgt(start, words, ti, base, k1), rel_tgt(start, words, ti, base, k2)]
        0 <= k1 < k2 < count && is_relative(rel_info(words, ti, k1)) && is_relative(
            rel_info(words, ti, k2),
        ) ==> rel_tgt(start, words, ti, base, k1) != rel_tgt(start, words, ti, base, k2)
}

/// Cell `j` is aimed at by no load-bias-relative entry of the
/// implicit-addend table.
pub open spec fn rel_nontarget(
    start: u64,
    words: Seq<u64>,
    ti: int,
    base: u64,
    count: int,
    j: int,
) -> bool {
    forall|k: int|
        0 <= k < count && is_relative(#[trigger] rel_info(words, ti, k)) ==> j != rel_tgt(
            start,
            words,
            ti,
            base,
            k,
        )
}

/// Applying the implicit-addend table patches exactly the cells its
/// load-bias-relative entries aim at, incrementing each by the load bias,
/// and leaves every other cell of the span untouched; entries of any other
/// type change nothing. Completion is owed: no trap occurs.
pub proof fn lemma_rel_patch(
    start: u64,
    words: Seq<u64>,
    base: u64,
    table: u64,
    ti: int,
    count: int,
)
    requires
        0 <= count,
        rel_table_in_span(start, words, table, ti, count),
        rel_targets_ok(start, words, ti, base, count),
        rel_targets_distinct(start, words, ti, base, count),
    ensures
        ({
            let r = apply_rel_from(start, words, base, table, count);
            &&& r.0
            &&& r.1.len() == words.len()
            &&& forall|k: int|
                0 <= k < count && is_relative(#[trigger] rel_info(words, ti, k)) ==> r.1[rel_tgt(
                    start,
                    words,
                    ti,
                    base,
                    k,
                )] == wadd(words[rel_tgt(start, words, ti, base, k)], base)
            &&& forall|j: int|
                0 <= j < words.len() && #[trigger] rel_nontarget(start, words, ti, base, count, j)
                    ==> r.1[j] == words[j]
        }),
    decreases count,
{
    if count <= 0 {
        return ;
    }
    // Entry 0 sits at word indices ti and ti + 1.
    assert(table + 8 == start + 8 * (ti + 1)) by {
        assert(table == start + 8 * ti);
    };
    assert(addr_ok(start, words, table) && addr_idx(start, table) == ti) by {
        assert((table - start) == 8 * ti);
        assert((8 * ti) % 8 == 0 && (8 * ti) / 8 == ti);
    };
    let e1 = (start + 8 * (ti + 1)) as u64;
    assert(wadd(table, 8) == e1);
    assert(addr_ok(start, words, e1) && addr_idx(start, e1) == ti + 1) by {
        assert((e1 - start) == 8 * (ti + 1));
        assert((8 * (ti + 1)) % 8 == 0 && (8 * (ti + 1)) / 8 == ti + 1);
    };
    let off0 = rel_off(words, ti, 0);
    let info0 = rel_info(words, ti, 0);
    assert(words[addr_idx(start, table)] == off0);
    assert(words[addr_idx(start, wadd(table, 8))] == info0);

    // The state after entry 0, as the one step of the spec produces it.
    let w1 = if is_relative(info0) {
        let ts = rel_tgt(start, words, ti, base, 0);
        words.update(ts, wadd(words[ts], base))
    } else {
        words
    };
    if is_relative(info0) {
        assert(addr_ok(start, words, wadd(base, off0)) && !(ti <= rel_tgt(
            start,
            words,
            ti,
            base,
            0,
        ) < ti + 2 * count));
    }
    assert(w1.len() == words.len());
    let r = apply_rel_from(start, words, base, table, count);
    assert(r == apply_rel_from(start, w1, base, wadd(table, REL_ENTRY_SIZE), count - 1));

    // The remaining table holds entries 1 .. count, untouched by entry 0.
    assert forall|k: int| 0 <= k < count - 1 implies {
        &&& #[trigger] rel_off(w1, ti + 2, k) == rel_off(words, ti, k + 1)
        &&& rel_info(w1, ti + 2, k) == rel_info(words, ti, k + 1)
    } by {
        assert(ti <= ti + 2 + 2 * k < ti + 2 * count);
        assert(ti <= ti + 2 + 2 * k + 1 < ti + 2 * count);
    };

    if count == 1 {
        // One entry: the spec bottoms out on whatever address follows it.
        assert(r == (true, w1));
        assert forall|j: int|
            0 <= j < words.len() && #[trigger] rel_nontarget(start, words, ti, base, count, j)
        implies r.1[j] == words[j] by {
            if is_relative(info0) {
                assert(j != rel_tgt(start, words, ti, base, 0));
            }
        };
    } else {
        let table2 = wadd(table, REL_ENTRY_SIZE);
        assert(table + 16 == start + 8 * (ti + 2)) by {
            assert(table == start + 8 * ti);
        };
        assert(ti + 2 + 2 * (count - 1) <= words.len());
        assert(table + 16 < start + 8 * words.len()) by {
            assert(ti + 2 < ti + 2 * count);
        };
        assert(table2 == start + 8 * (ti + 2));
        assert(rel_table_in_span(start, w1, table2, ti + 2, count - 1));
        assert forall|k: int|
            0 <= k < count - 1 && is_relative(#[trigger] rel_info(w1, ti + 2, k)) implies {
            &&& addr_ok(start, w1, wadd(base, rel_off(w1, ti + 2, k)))
            &&& !(ti + 2 <= rel_tgt(start, w1, ti + 2, base, k) < ti + 2 + 2 * (count - 1))
            &&& rel_tgt(start, w1, ti + 2, base, k) == rel_tgt(start, words, ti, base, k + 1)
        } by {
            assert(rel_info(w1, ti + 2, k) == rel_info(words, ti, k + 1));
            assert(rel_off(w1, ti + 2, k) == rel_off(words, ti, k + 1));
            assert(is_relative(rel_info(words, ti, k + 1)));
        };
        assert(rel_targets_ok(start, w1, ti + 2, base, count - 1));
        assert forall|k1: int, k2: int|
            #![trigger rel_tgt(start, w1, ti + 2, base, k1), rel_tgt(start, w1, ti + 2, base, k2)]
            0 <= k1 < k2 < count - 1 && is_relative(rel_info(w1, ti + 2, k1)) && is_relative(
                rel_info(w1, ti + 2, k2),
            ) implies rel_tgt(start, w1, ti + 2, base, k1) != rel_tgt(
            start,
            w1,
            ti + 2,
            base,
            k2,
        ) by {
            assert(rel_info(w1, ti + 2, k1) == rel_info(words, ti, k1 + 1));
            assert(rel_info(w1, ti + 2, k2) == rel_info(words, ti, k2 + 1));
            assert(rel_tgt(start, words, ti, base, k1 + 1) != rel_tgt(
                start,
                words,
                ti,
                base,
                k2 + 1,
            ));
        };
        assert(rel_targets_distinct(start, w1, ti + 2, base, count - 1));
        lemma_rel_patch(start, w1, base, table2, ti + 2, count - 1);

        // Patched cells: entry 0 directly, entries 1 .. count by induction.
        assert forall|k: int|
            0 <= k < count && is_relative(#[trigger] rel_info(words, ti, k)) implies r.1[rel_tgt(
            start,
            words,
            ti,
            base,
            k,
        )] == wadd(words[rel_tgt(start, words, ti, base, k)], base) by {
            let ts = rel_tgt(start, words, ti, base, k);
            if k == 0 {
                // The inductive frame keeps entry 0's cell as w1 set it.
                assert(rel_nontarget(start, w1, ti + 2, base, count - 1, ts)) by {
                    assert forall|k2: int|
                        0 <= k2 < count - 1 && is_relative(#[trigger] rel_info(w1, ti + 2, k2))
                    implies ts != rel_tgt(start, w1, ti + 2, base, k2) by {
                        assert(rel_tgt(start, w1, ti + 2, base, k2) == rel_tgt(
                            start,
                            words,
                            ti,
                            base,
                            k2 + 1,
                        ));
                        assert(is_relative(rel_info(words, ti, k2 + 1)));
                    };
                };
                assert(0 <= ts < w1.len());
                assert(r.1[ts] == w1[ts]);
            } else {
                assert(is_relative(rel_info(w1, ti + 2, k - 1)));
                assert(r.1[rel_tgt(start, w1, ti + 2, base, k - 1)] == wadd(
                    w1[rel_tgt(start, w1, ti + 2, base, k - 1)],
                    base,
                ));
                assert(rel_tgt(start, w1, ti + 2, base, k - 1) == ts);
                if is_relative(info0) {
                    assert(ts != rel_tgt(start, words, ti, base, 0));
                }
                assert(w1[ts] == words[ts]);
            }
        };

        // Untouched cells: not aimed at by entry 0 nor by any later entry.
        assert forall|j: int|
            0 <= j < words.len() && #[trigger] rel_nontarget(start, words, ti, base, count, j)
        implies r.1[j] == words[j] by {
            assert(rel_nontarget(start, w1, ti + 2, base, count - 1, j)) by {
                assert forall|k2: int|
                    0 <= k2 < count - 1 && is_relative(#[trigger] rel_info(w1, ti + 2, k2))
                implies j != rel_tgt(start, w1, ti + 2, base, k2) by {
                    assert(rel_tgt(start, w1, ti + 2, base, k2) == rel_tgt(
                        start,
                        words,
                        ti,
                        base,
                        k2 + 1,
                    ));
                    assert(is_relative(rel_info(words, ti, k2 + 1)));
                };
            };
            assert(r.1[j] == w1[j]);
            if is_relative(info0) {
                assert(j != rel_tgt(start, words, ti, base, 0));
            }
        };
    }
}

/// The offset field of explicit-addend entry `k` of the table at word index
/// `ti`.
pub open spec fn rela_off(words: Seq<u64>, ti: int, k: int) -> u64 {
    words[ti + 3 * k]
}

/// The info field of explicit-addend entry `k` of the table at word index
/// `ti`.
pub open spec fn rela_info(words: Seq<u64>, ti: int, k: int) -> u64 {
    words[ti + 3 * k + 1]
}

/// The addend field of explicit-addend entry `k` of the table at word index
/// `ti`.
pub open spec fn rela_addend(words: Seq<u64>, ti: int, k: int) -> u64 {
    words[ti + 3 * k + 2]
}

/// The word index of the cell that explicit-addend entry `k` patches.
pub open spec fn rela_tgt(start: u64, words: Seq<u64>, ti: int, base: u64, k: int) -> int {
    addr_idx(start, wadd(base, rela_off(words, ti, k)))
}

/// The explicit-addend table at byte address `table` occupies word indices
/// `ti .. ti + 3 * count` of a span that lies within the address space.
pub open spec fn rela_table_in_span(
    start: u64,
    words: Seq<u64>,
    table: u64,
    ti: int,
    count: int,
) -> bool {
    &&& table == start + 8 * ti
    &&& 0 <= ti
    &&& ti + 3 * count <= words.len()
    &&& start + 8 * words.len() <= 0x1_0000_0000_0000_0000
}

/// Every load-bias-relative entry of the explicit-addend table aims at a
/// cell of the span that lies outside the table itself.
pub open spec fn rela_targets_ok(
    start: u64,
    words: Seq<u64>,
    ti: int,
    base: u64,
    count: int,
) -> bool {
    forall|k: int|
        0 <= k < count && is_relative(#[trigger] rela_info(words, ti, k)) ==> {
            &&& addr_ok(start, words, wadd(base, rela_off(words, ti, k)))
            &&& !(ti <= rela_tgt(start, words, ti, base, k) < ti + 3 * count)
        }
}

/// No two load-bias-relative entries of the explicit-addend table aim at the
/// same cell.
pub open spec fn rela_targets_distinct(
    start: u64,
    words: Seq<u64>,
    ti: int,
    base: u64,
    count: int,
) -> bool {
    forall|k1: int, k2: int|
        #![trigger rela_tgt(start, words, ti, base, k1), rela_tgt(start, words, ti, base, k2)]
        0 <= k1 < k2 < count && is_relative(rela_info(words, ti, k1)) && is_relative(
            rela_info(words, ti, k2),
        ) ==> rela_tgt(start, words, ti, base, k1) != rela_tgt(start, words, ti, base, k2)
}

/// Cell `j` is aimed at by no load-bias-relative entry of the
/// explicit-addend table.
pub open spec fn rela_nontarget(
    start: u64,
    words: Seq<u64>,
    ti: int,
    base: u64,
    count: int,
    j: int,
) -> bool {
    forall|k: int|
        0 <= k < count && is_relative(#[trigger] rela_info(words, ti, k)) ==> j != rela_tgt(
            start,
            words,
            ti,
            base,
            k,
        )
}

/// Applying the explicit-addend table overwrites exactly the cells its
/// load-bias-relative entries aim at, each with the load bias plus the
/// entry's addend — whatever the cell held before — and leaves every other
/// cell of the span untouched; entries of any other type change nothing.
/// Completion is owed: no trap occurs.
pub proof fn lemma_rela_patch(
    start: u64,
    words: Seq<u64>,
    base: u64,
    table: u64,
    ti: int,
    count: int,
)
    requires
        0 <= count,
        rela_table_in_span(start, words, table, ti, count),
        rela_targets_ok(start, words, ti, base, count),
        rela_targets_distinct(start, words, ti, base, count),
    ensures
        ({
            let r = apply_rela_from(start, words, base, table, count);
            &&& r.0
            &&& r.1.len() == words.len()
            &&& forall|k: int|
                0 <= k < count && is_relative(#[trigger] rela_info(words, ti, k)) ==> r.1[rela_tgt(
                    start,
                    words,
                    ti,
                    base,
                    k,
                )] == wadd(base, rela_addend(words, ti, k))
            &&& forall|j: int|
                0 <= j < words.len() && #[trigger] rela_nontarget(start, words, ti, base, count, j)
                    ==> r.1[j] == words[j]
        }),
    decreases count,
{
    if count <= 0 {
        return ;
    }
    // Entry 0 sits at word indices ti, ti + 1 and ti + 2.
    assert(addr_ok(start, words, table) && addr_idx(start, table) == ti) by {
        assert((table - start) == 8 * ti);
        assert((8 * ti) % 8 == 0 && (8 * ti) / 8 == ti);
    };
    let e1 = (start + 8 * (ti + 1)) as u64;
    let e2 = (start + 8 * (ti + 2)) as u64;
    assert(wadd(table, 8) == e1 && wadd(table, 16) == e2) by {
        assert(table == start + 8 * ti);
        assert(ti + 2 < ti + 3 * count + 1);
    };
    assert(addr_ok(start, words, e1) && addr_idx(start, e1) == ti + 1) by {
        assert((e1 - start) == 8 * (ti + 1));
        assert((8 * (ti + 1)) % 8 == 0 && (8 * (ti + 1)) / 8 == ti + 1);
    };
    assert(addr_ok(start, words, e2) && addr_idx(start, e2) == ti + 2) by {
        assert((e2 - start) == 8 * (ti + 2));
        assert((8 * (ti + 2)) % 8 == 0 && (8 * (ti + 2)) / 8 == ti + 2);
    };
    let off0 = rela_off(words, ti, 0);
    let info0 = rela_info(words, ti, 0);
    let addend0 = rela_addend(words, ti, 0);
    assert(words[addr_idx(start, table)] == off0);
    assert(words[addr_idx(start, wadd(table, 8))] == info0);
    assert(words[addr_idx(start, wadd(table, 16))] == addend0);

    // The state after entry 0, as the one step of the spec produces it.
    let w1 = if is_relative(info0) {
        let ts = rela_tgt(start, words, ti, base, 0);
        words.update(ts, wadd(base, addend0))
    } else {
        words
    };
    if is_relative(info0) {
        assert(addr_ok(start, words, wadd(base, off0)) && !(ti <= rela_tgt(
            start,
            words,
            ti,
            base,
            0,
        ) < ti + 3 * count));
    }
    assert(w1.len() == words.len());
    let r = apply_rela_from(start, words, base, table, count);
    assert(r == apply_rela_from(start, w1, base, wadd(table, RELA_ENTRY_SIZE), count - 1));

    // The remaining table holds entries 1 .. count, untouched by entry 0.
    assert forall|k: int| 0 <= k < count - 1 implies {
        &&& #[trigger] rela_off(w1, ti + 3, k) == rela_off(words, ti, k + 1)
        &&& rela_info(w1, ti + 3, k) == rela_info(words, ti, k + 1)
        &&& rela_addend(w1, ti + 3, k) == rela_addend(words, ti, k + 1)
    } by {
        assert(ti <= ti + 3 + 3 * k < ti + 3 * count);
        assert(ti <= ti + 3 + 3 * k + 1 < ti + 3 * count);
        assert(ti <= ti + 3 + 3 * k + 2 < ti + 3 * count);
    };

    if count == 1 {
        // One entry: the spec bottoms out on whatever address follows it.
        assert(r == (true, w1));
        assert forall|j: int|
            0 <= j < words.len() && #[trigger] rela_nontarget(start, words, ti, base, count, j)
        implies r.1[j] == words[j] by {
            if is_relative(info0) {
                assert(j != rela_tgt(start, words, ti, base, 0));
            }
        };
    } else {
        let table2 = wadd(table, RELA_ENTRY_SIZE);
        assert(table + 24 == start + 8 * (ti + 3)) by {
            assert(table == start + 8 * ti);
        };
        assert(ti + 3 + 3 * (count - 1) <= words.len());
        assert(table + 24 < start + 8 * words.len()) by {
            assert(ti + 3 < ti + 3 * count);
        };
        assert(table2 == start + 8 * (ti + 3));
        assert(rela_table_in_span(start, w1, table2, ti + 3, count - 1));
        assert forall|k: int|
            0 <= k < count - 1 && is_relative(#[trigger] rela_info(w1, ti + 3, k)) implies {
            &&& addr_ok(start, w1, wadd(base, rela_off(w1, ti + 3, k)))
            &&& !(ti + 3 <= rela_tgt(start, w1, ti + 3, base, k) < ti + 3 + 3 * (count - 1))
            &&& rela_tgt(start, w1, ti + 3, base, k) == rela_tgt(start, words, ti, base, k + 1)
        } by {
            assert(rela_info(w1, ti + 3, k) == rela_info(words, ti, k + 1));
            assert(rela_off(w1, ti + 3, k) == rela_off(words, ti, k + 1));
            assert(is_relative(rela_info(words, ti, k + 1)));
        };
        assert(rela_targets_ok(start, w1, ti + 3, base, count - 1));
        assert forall|k1: int, k2: int|
            #![trigger rela_tgt(start, w1, ti + 3, base, k1), rela_tgt(start, w1, ti + 3, base, k2)]
            0 <= k1 < k2 < count - 1 && is_relative(rela_info(w1, ti + 3, k1)) && is_relative(
                rela_info(w1, ti + 3, k2),
            ) implies rela_tgt(start, w1, ti + 3, base, k1) != rela_tgt(
            start,
            w1,
            ti + 3,
            base,
            k2,
        ) by {
            assert(rela_info(w1, ti + 3, k1) == rela_info(words, ti, k1 + 1));
            assert(rela_info(w1, ti + 3, k2) == rela_info(words, ti, k2 + 1));
            assert(rela_tgt(start, words, ti, base, k1 + 1) != rela_tgt(
                start,
                words,
                ti,
                base,
                k2 + 1,
            ));
        };
        assert(rela_targets_distinct(start, w1, ti + 3, base, count - 1));
        lemma_rela_patch(start, w1, base, table2, ti + 3, count - 1);

        // Patched cells: entry 0 directly, entries 1 .. count by induction.
        assert forall|k: int|
            0 <= k < count && is_relative(#[trigger] rela_info(words, ti, k)) implies r.1[rela_tgt(
            start,
            words,
            ti,
            base,
            k,
        )] == wadd(base, rela_addend(words, ti, k)) by {
            let ts = rela_tgt(start, words, ti, base, k);
            if k == 0 {
                // The inductive frame keeps entry 0's cell as w1 set it.
                assert(rela_nontarget(start, w1, ti + 3, base, count - 1, ts)) by {
                    assert forall|k2: int|
                        0 <= k2 < count - 1 && is_relative(#[trigger] rela_info(w1, ti + 3, k2))
                    implies ts != rela_tgt(start, w1, ti + 3, base, k2) by {
                        assert(rela_tgt(start, w1, ti + 3, base, k2) == rela_tgt(
                            start,
                            words,
                            ti,
                            base,
                            k2 + 1,
                        ));
                        assert(is_relative(rela_info(words, ti, k2 + 1)));
                    };
                };
                assert(0 <= ts < w1.len());
                assert(r.1[ts] == w1[ts]);
            } else {
                assert(is_relative(rela_info(w1, ti + 3, k - 1)));
                assert(r.1[rela_tgt(start, w1, ti + 3, base, k - 1)] == wadd(
                    base,
                    rela_addend(w1, ti + 3, k - 1),
                ));
                assert(rela_tgt(start, w1, ti + 3, base, k - 1) == ts);
                assert(rela_addend(w1, ti + 3, k - 1) == rela_addend(words, ti, k));
            }
        };

        // Untouched cells: not aimed at by entry 0 nor by any later entry.
        assert forall|j: int|
            0 <= j < words.len() && #[trigger] rela_nontarget(start, words, ti, base, count, j)
        implies r.1[j] == words[j] by {
            assert(rela_nontarget(start, w1, ti + 3, base, count - 1, j)) by {
                assert forall|k2: int|
                    0 <= k2 < count - 1 && is_relative(#[trigger] rela_info(w1, ti + 3, k2))
                implies j != rela_tgt(start, w1, ti + 3, base, k2) by {
                    assert(rela_tgt(start, w1, ti + 3, base, k2) == rela_tgt(
                        start,
                        words,
                        ti,
                        base,
                        k2 + 1,
                    ));
                    assert(is_relative(rela_info(words, ti, k2 + 1)));
                };
            };
            assert(r.1[j] == w1[j]);
            if is_relative(info0) {
                assert(j != rela_tgt(start, words, ti, base, 0));
            }
        };
    }
}

/// An implicit-addend table none of whose entries is of the load-bias-
/// relative type changes nothing: the span comes back word for word, with no
/// trap.
pub proof fn lemma_rel_foreign_only_unchanged(
    start: u64,
    words: Seq<u64>,
    base: u64,
    table: u64,
    ti: int,
    count: int,
)
    requires
        0 <= count,
        rel_table_in_span(start, words, table, ti, count),
        forall|k: int| 0 <= k < count ==> !is_relative(#[trigger] rel_info(words, ti, k)),
    ensures
        apply_rel_from(start, words, base, table, count) == (true, words),
{
    assert(rel_targets_ok(start, words, ti, base, count));
    assert(rel_targets_distinct(start, words, ti, base, count));
    lemma_rel_patch(start, words, base, table, ti, count);
    let r = apply_rel_from(start, words, base, table, count);
    assert forall|j: int| 0 <= j < words.len() implies r.1[j] == words[j] by {
        assert(rel_nontarget(start, words, ti, base, count, j));
    };
    assert(r.1 =~= words);
    assert(r == (true, words));
}

/// An explicit-addend table none of whose entries is of the load-bias-
/// relative type changes nothing: the span comes back word for word, with no
/// trap.
pub proof fn lemma_rela_foreign_only_unchanged(
    start: u64,
    words: Seq<u64>,
    base: u64,
    table: u64,
    ti: int,
    count: int,
)
    requires
        0 <= count,
        rela_table_in_span(start, words, table, ti, count),
        forall|k: int| 0 <= k < count ==> !is_relative(#[trigger] rela_info(words, ti, k)),
    ensures
        apply_rela_from(start, words, base, table, count) == (true, words),
{
    assert(rela_targets_ok(start, words, ti, base, count));
    assert(rela_targets_distinct(start, words, ti, base, count));
    lemma_rela_patch(start, words, base, table, ti, count);
    let r = apply_rela_from(start, words, base, table, count);
    assert forall|j: int| 0 <= j < words.len() implies r.1[j] == words[j] by {
        assert(rela_nontarget(start, words, ti, base, count, j));
    };
    assert(r.1 =~= words);
    assert(r == (true, words));
}

/// The whole engine on a dynamic table that names only an implicit-addend
/// relocation table: it completes, increments exactly the cells the table's
/// load-bias-relative entries aim at by the bias, and touches nothing else.
pub proof fn lemma_engine_implicit_only(
    start: u64,
    words: Seq<u64>,
    dynv: u64,
    base: u64,
    t: crate::engine::RelocTables,
    a: u64,
    ti: int,
)
    requires
        scan_dynamic_spec(start, words, dynv) == Some(t),
        t.rel == Some(a),
        t.rela is None,
        rel_table_in_span(start, words, wadd(base, a), ti, t.rel_count as int),
        rel_targets_ok(start, words, ti, base, t.rel_count as int),
        rel_targets_distinct(start, words, ti, base, t.rel_count as int),
    ensures
        ({
            let r = dyn_reloc_spec(start, words, dynv, base);
            &&& r.0
            &&& r.1.len() == words.len()
            &&& forall|k: int|
                0 <= k < t.rel_count && is_relative(#[trigger] rel_info(words, ti, k))
                    ==> r.1[rel_tgt(start, words, ti, base, k)] == wadd(
                    words[rel_tgt(start, words, ti, base, k)],
                    base,
                )
            &&& forall|j: int|
                0 <= j < words.len() && #[trigger] rel_nontarget(
                    start,
                    words,
                    ti,
                    base,
                    t.rel_count as int,
                    j,
                ) ==> r.1[j] == words[j]
        }),
{
    lemma_rel_patch(start, words, base, wadd(base, a), ti, t.rel_count as int);
}

/// The whole engine on a dynamic table that names only an explicit-addend
/// relocation table: it completes, overwrites exactly the cells the table's
/// load-bias-relative entries aim at with bias + addend, and touches nothing
/// else.
pub proof fn lemma_engine_explicit_only(
    start: u64,
    words: Seq<u64>,
    dynv: u64,
    base: u64,
    t: crate::engine::RelocTables,
    a: u64,
    ti: int,
)
    requires
        scan_dynamic_spec(start, words, dynv) == Some(t),
        t.rel is None,
        t.rela == Some(a),
        rela_table_in_span(start, words, wadd(base, a), ti, t.rela_count as int),
        rela_targets_ok(start, words, ti, base, t.rela_count as int),
        rela_targets_distinct(start, words, ti, base, t.rela_count as int),
    ensures
        ({
            let r = dyn_reloc_spec(start, words, dynv, base);
            &&& r.0
            &&& r.1.len() == words.len()
            &&& forall|k: int|
                0 <= k < t.rela_count && is_relative(#[trigger] rela_info(words, ti, k))
                    ==> r.1[rela_tgt(start, words, ti, base, k)] == wadd(
                    base,
                    rela_addend(words, ti, k),
                )
            &&& forall|j: int|
                0 <= j < words.len() && #[trigger] rela_nontarget(
                    start,
                    words,
                    ti,
                    base,
                    t.rela_count as int,
                    j,
                ) ==> r.1[j] == words[j]
        }),
{
    lemma_rela_patch(start, words, base, wadd(base, a), ti, t.rela_count as int);
}

/// A dynamic table that opens with its terminator names no relocation
/// table: the engine completes with zero writes.
pub proof fn lemma_empty_dynamic_table(start: u64, words: Seq<u64>, dynv: u64, base: u64)
    requires
        addr_ok(start, words, dynv),
        words[addr_idx(start, dynv)] == 0,
    ensures
        dyn_reloc_spec(start, words, dynv, base) == (true, words),
{
    assert(scan_dynamic_spec(start, words, dynv) == Some(no_tables()));
    assert(apply_tables_spec(start, words, base, no_tables()) == (true, words));
}

/// Adding a non-zero word to another always changes it, even modulo 2^64.
pub proof fn lemma_wadd_nonzero(x: u64, b: u64)
    requires
        b != 0,
    ensures
        wadd(x, b) != x,
{
}

/// Applying an implicit-addend table is not idempotent: a second application
/// moves a patched cell again, by the bias, so it no longer holds what the
/// single, correct application left there. Stated for a table with a
/// load-bias-relative first entry and a non-zero bias.
pub proof fn lemma_reapply_differs(
    start: u64,
    words: Seq<u64>,
    base: u64,
    table: u64,
    ti: int,
    count: int,
)
    requires
        0 < count,
        base != 0,
        rel_table_in_span(start, words, table, ti, count),
        rel_targets_ok(start, words, ti, base, count),
        rel_targets_distinct(start, words, ti, base, count),
        is_relative(rel_info(words, ti, 0)),
    ensures
        ({
            let once = apply_rel_from(start, words, base, table, count);
            let twice = apply_rel_from(start, once.1, base, table, count);
            &&& once.0
            &&& twice.0
            &&& twice.1[rel_tgt(start, words, ti, base, 0)] != once.1[rel_tgt(
                start,
                words,
                ti,
                base,
                0,
            )]
            &&& twice.1 != once.1
        }),
{
    lemma_rel_patch(start, words, base, table, ti, count);
    let w1 = apply_rel_from(start, words, base, table, count).1;

    // The table's own words are never targets, so the entries read the same
    // the second time around.
    assert forall|j: int| ti <= j < ti + 2 * count implies w1[j] == words[j] by {
        assert(rel_nontarget(start, words, ti, base, count, j)) by {
            assert forall|k: int|
                0 <= k < count && is_relative(#[trigger] rel_info(words, ti, k)) implies j
                != rel_tgt(start, words, ti, base, k) by {
                assert(!(ti <= rel_tgt(start, words, ti, base, k) < ti + 2 * count));
            };
        };
        assert(0 <= j < words.len());
    };
    assert forall|k: int| 0 <= k < count implies {
        &&& #[trigger] rel_off(w1, ti, k) == rel_off(words, ti, k)
        &&& rel_info(w1, ti, k) == rel_info(words, ti, k)
    } by {
        assert(ti <= ti + 2 * k < ti + 2 * count);
        assert(ti <= ti + 2 * k + 1 < ti + 2 * count);
    };
    assert(rel_table_in_span(start, w1, table, ti, count));
    assert forall|k: int|
        0 <= k < count && is_relative(#[trigger] rel_info(w1, ti, k)) implies {
        &&& addr_ok(start, w1, wadd(base, rel_off(w1, ti, k)))
        &&& !(ti <= rel_tgt(start, w1, ti, base, k) < ti + 2 * count)
        &&& rel_tgt(start, w1, ti, base, k) == rel_tgt(start, words, ti, base, k)
    } by {
        assert(rel_info(w1, ti, k) == rel_info(words, ti, k));
        assert(rel_off(w1, ti, k) == rel_off(words, ti, k));
        assert(is_relative(rel_info(words, ti, k)));
    };
    assert(rel_targets_ok(start, w1, ti, base, count));
    assert forall|k1: int, k2: int|
        #![trigger rel_tgt(start, w1, ti, base, k1), rel_tgt(start, w1, ti, base, k2)]
        0 <= k1 < k2 < count && is_relative(rel_info(w1, ti, k1)) && is_relative(
            rel_info(w1, ti, k2),
        ) implies rel_tgt(start, w1, ti, base, k1) != rel_tgt(start, w1, ti, base, k2) by {
        assert(rel_info(w1, ti, k1) == rel_info(words, ti, k1));
        assert(rel_info(w1, ti, k2) == rel_info(words, ti, k2));
        assert(rel_tgt(start, words, ti, base, k1) != rel_tgt(start, words, ti, base, k2));
    };
    assert(rel_targets_distinct(start, w1, ti, base, count));
    lemma_rel_patch(start, w1, base, table, ti, count);

    let ts = rel_tgt(start, words, ti, base, 0);
    assert(w1[ts] == wadd(words[ts], base));
    assert(is_relative(rel_info(w1, ti, 0)));
    let w2 = apply_rel_from(start, w1, base, table, count).1;
    assert(w2[rel_tgt(start, w1, ti, base, 0)] == wadd(w1[rel_tgt(start, w1, ti, base, 0)], base));
    assert(rel_tgt(start, w1, ti, base, 0) == ts);
    lemma_wadd_nonzero(w1[ts], base);
    assert(w2[ts] != w1[ts]);
    assert(w2 != w1);
}

} // verus!

