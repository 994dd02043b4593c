use rcrt1::engine::dyn_reloc;
use rcrt1::memory::Memory;

fn span(start: u64, words: Vec<u64>) -> Memory {
    Memory::new(start, words)
}

#[test]
fn implicit_entries_add_bias() {
    // Dynamic table at 0x1000: implicit table at link address 0x40, 32 bytes
    // (two entries). With bias 0x1000 the entries live at 0x1040.
    let mut w = vec![0u64; 40];
    w[0] = 17; // implicit-table address tag
    w[1] = 0x40;
    w[2] = 18; // implicit-table size tag
    w[3] = 32;
    w[4] = 0;
    w[8] = 0x100; // entry 0: offset
    w[9] = 8; // entry 0: load-bias-relative
    w[10] = 0x108; // entry 1: offset
    w[11] = 8;
    w[32] = 0x2000; // cell at 0x1100
    w[33] = 0x5000; // cell at 0x1108
    let mut m = span(0x1000, w);
    assert!(dyn_reloc(&mut m, 0x1000, 0x1000));
    assert_eq!(m.read(0x1100), Some(0x3000));
    assert_eq!(m.read(0x1108), Some(0x6000));
    // untouched neighbours
    assert_eq!(m.read(0x10F8), Some(0));
    assert_eq!(m.read(0x1110), Some(0));
    assert_eq!(m.read(0x1040), Some(0x100));
}

#[test]
fn explicit_entry_overwrites_prior_contents() {
    // Explicit-addend table: the target cell's old value must not matter.
    let mut w = vec![0u64; 40];
    w[0] = 7; // explicit-table address tag
    w[1] = 0x40;
    w[2] = 8; // explicit-table size tag
    w[3] = 48; // two 24-byte entries
    w[4] = 0;
    w[8] = 0x100; // entry 0: offset
    w[9] = 8;
    w[10] = 0x20; // entry 0: addend
    w[11] = 0x108; // entry 1: offset
    w[12] = 8;
    w[13] = (-8i64) as u64; // entry 1: negative addend
    w[32] = 0xdeadbeef; // junk that must be overwritten
    w[33] = 0x1234;
    let mut m = span(0x1000, w);
    assert!(dyn_reloc(&mut m, 0x1000, 0x1000));
    assert_eq!(m.read(0x1100), Some(0x1020));
    assert_eq!(m.read(0x1108), Some(0x1000u64.wrapping_add((-8i64) as u64)));
}

#[test]
fn foreign_types_left_unmodified() {
    // Mixed implicit table: only the masked type 8 is patched. The mask keeps
    // the low 32 bits except their sign bit, so 0x8000_0008 and a value with
    // bit 32 set both count as load-bias-relative, while 9 and 0 do not.
    let mut w = vec![0u64; 48];
    w[0] = 17;
    w[1] = 0x40;
    w[2] = 18;
    w[3] = 64; // four entries
    w[4] = 0;
    w[8] = 0x100;
    w[9] = 9; // foreign type: skipped
    w[10] = 0x108;
    w[11] = 0x8000_0008; // sign bit masked off: patched
    w[12] = 0x110;
    w[13] = 0x1_0000_0008; // high half ignored: patched
    w[14] = 0x118;
    w[15] = 0; // foreign type: skipped
    w[32] = 0x11;
    w[33] = 0x22;
    w[34] = 0x33;
    w[35] = 0x44;
    let mut m = span(0x1000, w);
    assert!(dyn_reloc(&mut m, 0x1000, 0x1000));
    assert_eq!(m.read(0x1100), Some(0x11));
    assert_eq!(m.read(0x1108), Some(0x1022));
    assert_eq!(m.read(0x1110), Some(0x1033));
    assert_eq!(m.read(0x1118), Some(0x44));
}

#[test]
fn empty_dynamic_table_writes_nothing() {
    let mut w = vec![0u64; 16];
    w[5] = 0xabcd; // bystander cell
    let before = w.clone();
    let mut m = span(0x1000, w);
    assert!(dyn_reloc(&mut m, 0x1000, 0x1000));
    for (i, expected) in before.iter().enumerate() {
        assert_eq!(m.read(0x1000 + 8 * i as u64), Some(*expected));
    }
}

#[test]
fn reapplying_the_engine_is_not_idempotent() {
    let mut w = vec![0u64; 40];
    w[0] = 17;
    w[1] = 0x40;
    w[2] = 18;
    w[3] = 16;
    w[8] = 0x100;
    w[9] = 8;
    w[32] = 0x2000;
    let mut m = span(0x1000, w);
    assert!(dyn_reloc(&mut m, 0x1000, 0x1000));
    let once = m.read(0x1100).unwrap();
    assert_eq!(once, 0x3000);
    assert!(dyn_reloc(&mut m, 0x1000, 0x1000));
    let twice = m.read(0x1100).unwrap();
    assert_ne!(twice, once);
    assert_eq!(twice, 0x4000);
}

#[test]
fn duplicate_tags_last_seen_wins() {
    let mut w = vec![0u64; 40];
    w[0] = 17;
    w[1] = 0x200; // overridden below
    w[2] = 18;
    w[3] = 16;
    w[4] = 17;
    w[5] = 0x40; // last seen: used
    w[6] = 0;
    w[8] = 0x100;
    w[9] = 8;
    w[32] = 0x2000;
    let mut m = span(0x1000, w);
    assert!(dyn_reloc(&mut m, 0x1000, 0x1000));
    assert_eq!(m.read(0x1100), Some(0x3000));
}

#[test]
fn size_division_truncates() {
    // A recorded size of 31 bytes yields one 16-byte entry, not two.
    let mut w = vec![0u64; 40];
    w[0] = 17;
    w[1] = 0x40;
    w[2] = 18;
    w[3] = 31;
    w[8] = 0x100;
    w[9] = 8;
    w[10] = 0x108; // would be entry 1: must not be applied
    w[11] = 8;
    w[32] = 0x2000;
    w[33] = 0x5000;
    let mut m = span(0x1000, w);
    assert!(dyn_reloc(&mut m, 0x1000, 0x1000));
    assert_eq!(m.read(0x1100), Some(0x3000));
    assert_eq!(m.read(0x1108), Some(0x5000));
}

#[test]
fn unknown_tags_are_ignored() {
    let mut w = vec![0u64; 40];
    w[0] = 100;
    w[1] = 0xffff;
    w[2] = 17;
    w[3] = 0x40;
    w[4] = 12;
    w[5] = 0x9999;
    w[6] = 18;
    w[7] = 16;
    w[10] = 0; // terminator (entry 5)
    w[8] = 0x100;
    w[9] = 8;
    w[32] = 0x2000;
    let mut m = span(0x1000, w);
    assert!(dyn_reloc(&mut m, 0x1000, 0x1000));
    assert_eq!(m.read(0x1100), Some(0x3000));
}

#[test]
fn trap_when_relocation_table_outside_span() {
    let mut w = vec![0u64; 16];
    w[0] = 17;
    w[1] = 0x4000; // table at 0x5000: outside
    w[2] = 18;
    w[3] = 16;
    w[4] = 0;
    let mut m = span(0x1000, w);
    assert!(!dyn_reloc(&mut m, 0x1000, 0x1000));
}

#[test]
fn trap_when_target_outside_span() {
    let mut w = vec![0u64; 16];
    w[0] = 17;
    w[1] = 0x40;
    w[2] = 18;
    w[3] = 16;
    w[4] = 0;
    w[8] = 0x4000; // target at 0x5000: outside
    w[9] = 8;
    let mut m = span(0x1000, w);
    assert!(!dyn_reloc(&mut m, 0x1000, 0x1000));
}

#[test]
fn trap_when_dynamic_table_never_terminates() {
    let w = vec![1u64; 16]; // non-zero tags to the end of the span
    let mut m = span(0x1000, w);
    assert!(!dyn_reloc(&mut m, 0x1000, 0));
}

#[test]
fn trap_when_dynamic_pointer_misaligned_or_outside() {
    let w = vec![0u64; 16];
    let mut m = span(0x1000, w);
    assert!(!dyn_reloc(&mut m, 0x1004, 0));
    let w2 = vec![0u64; 16];
    let mut m2 = span(0x1000, w2);
    assert!(!dyn_reloc(&mut m2, 0x800, 0));
}

#[test]
fn memory_reads_and_writes_are_bounds_checked() {
    let mut m = Memory::new(0x1000, vec![1, 2, 3]);
    assert_eq!(m.start(), 0x1000);
    assert_eq!(m.word_count(), 3);
    assert_eq!(m.read(0x1000), Some(1));
    assert_eq!(m.read(0x1010), Some(3));
    assert_eq!(m.read(0x1018), None);
    assert_eq!(m.read(0x0ff8), None);
    assert_eq!(m.read(0x1001), None);
    assert!(m.write(0x1008, 9));
    assert_eq!(m.read(0x1008), Some(9));
    assert!(!m.write(0x1018, 9));
    assert!(!m.write(0x1002, 9));
}
