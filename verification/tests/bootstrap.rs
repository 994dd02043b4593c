use rcrt1::bootstrap::rcrt;
use rcrt1::memory::Memory;

// A synthetic process image in one span at 0x1000, laid out as the loader
// would: a dynamic table at 0x1000 (so the link-time virtual address of the
// dynamic segment is 0 and the load bias comes out as 0x1000), an implicit
// relocation table at 0x1040, a program header at 0x1080, and the initial
// stack at 0x10C0.
fn image(p_type: u64, relsz: u64) -> Memory {
    let mut w = vec![0u64; 40];
    // dynamic table: implicit table at link address 0x40, `relsz` bytes
    w[0] = 17;
    w[1] = 0x40;
    w[2] = 0x2000; // unknown tag, ignored; also the relocation target cell
    w[3] = 0;
    w[4] = 18;
    w[5] = relsz;
    w[6] = 0;
    // implicit relocation table: one entry aimed at link address 0x10
    w[8] = 0x10;
    w[9] = 8;
    // program header: type word, then p_offset, then p_vaddr = 0
    w[16] = p_type;
    w[17] = 0;
    w[18] = 0;
    // stack: argc = 1, one argument pointer, null, empty environment, auxv
    w[24] = 1;
    w[25] = 0x77;
    w[26] = 0;
    w[27] = 0;
    w[28] = 3; // program header table address
    w[29] = 0x1080;
    w[30] = 4; // program header entry size
    w[31] = 56;
    w[32] = 5; // program header count
    w[33] = 1;
    w[34] = 0;
    w[35] = 0;
    Memory::new(0x1000, w)
}

#[test]
fn end_to_end_relocation() {
    // Bias must come out as 0x1000 and the cell at link address 0x10 —
    // runtime address 0x1010, holding 0x2000 — must become 0x3000.
    let mut m = image(2, 16);
    assert_eq!(rcrt(&mut m, 0x1000, 0x10C0), Some(0x1000));
    assert_eq!(m.read(0x1010), Some(0x3000));
}

#[test]
fn end_to_end_without_relocations_still_reaches_continuation() {
    // A zero-size table means zero entries; the hand-off must still happen.
    let mut m = image(2, 0);
    assert_eq!(rcrt(&mut m, 0x1000, 0x10C0), Some(0x1000));
    assert_eq!(m.read(0x1010), Some(0x2000));
}

#[test]
fn end_to_end_without_dynamic_header_traps() {
    // No program header of the dynamic-segment type: trap, nothing patched.
    let mut m = image(1, 16);
    assert_eq!(rcrt(&mut m, 0x1000, 0x10C0), None);
    assert_eq!(m.read(0x1010), Some(0x2000));
}

#[test]
fn auxiliary_vector_scan_stops_once_complete() {
    // Junk follows the three keys, with no terminator before the span ends;
    // the early exit must keep the scan from ever reading it.
    let mut m = {
        let mut w = vec![0u64; 40];
        w[0] = 17;
        w[1] = 0x40;
        w[2] = 0x2000;
        w[4] = 18;
        w[5] = 16;
        w[8] = 0x10;
        w[9] = 8;
        w[16] = 2;
        w[18] = 0;
        w[24] = 1;
        w[25] = 0x77;
        w[28] = 3;
        w[29] = 0x1080;
        w[30] = 4;
        w[31] = 56;
        w[32] = 5;
        w[33] = 1;
        for i in 34..40 {
            w[i] = 0xbad; // never read
        }
        Memory::new(0x1000, w)
    };
    assert_eq!(rcrt(&mut m, 0x1000, 0x10C0), Some(0x1000));
    assert_eq!(m.read(0x1010), Some(0x3000));
}

#[test]
fn argument_and_environment_arrays_are_skipped() {
    // argc = 2, two argument pointers, null, two environment pointers, null.
    let mut w = vec![0u64; 48];
    w[0] = 17;
    w[1] = 0x40;
    w[2] = 0x2000;
    w[4] = 18;
    w[5] = 16;
    w[8] = 0x10;
    w[9] = 8;
    w[16] = 2;
    w[18] = 0;
    w[24] = 2; // argc
    w[25] = 0xa1;
    w[26] = 0xa2;
    w[27] = 0;
    w[28] = 0xe1;
    w[29] = 0xe2;
    w[30] = 0;
    w[31] = 3;
    w[32] = 0x1080;
    w[33] = 4;
    w[34] = 56;
    w[35] = 5;
    w[36] = 1;
    w[37] = 0;
    let mut m = Memory::new(0x1000, w);
    assert_eq!(rcrt(&mut m, 0x1000, 0x10C0), Some(0x1000));
    assert_eq!(m.read(0x1010), Some(0x3000));
}

#[test]
fn missing_auxiliary_keys_trap() {
    // The auxiliary vector terminates before all three keys are seen: the
    // header walk then has nothing to walk and the bootstrap traps.
    let mut m = {
        let mut w = vec![0u64; 40];
        w[24] = 1;
        w[25] = 0x77;
        w[28] = 3;
        w[29] = 0x1080;
        w[30] = 0; // terminator: entry size and count never seen
        Memory::new(0x1000, w)
    };
    assert_eq!(rcrt(&mut m, 0x1000, 0x10C0), None);
}

#[test]
fn stack_pointer_outside_or_misaligned_traps() {
    let mut m = image(2, 16);
    assert_eq!(rcrt(&mut m, 0x1000, 0x2000), None);
    let mut m2 = image(2, 16);
    assert_eq!(rcrt(&mut m2, 0x1000, 0x10C4), None);
}

#[test]
fn bias_is_runtime_minus_virtual_address() {
    // A non-zero recorded virtual address shifts the bias down.
    let mut m = {
        let mut w = vec![0u64; 40];
        w[0] = 17;
        w[1] = 0x140; // link address of the table: bias 0xF00 puts it at 0x1040
        w[2] = 18;
        w[3] = 16;
        w[4] = 0;
        w[8] = 0x210; // target link address: runtime 0xF00 + 0x210 = 0x1110
        w[9] = 8;
        w[16] = 2;
        w[18] = 0x100; // p_vaddr: bias = 0x1000 - 0x100 = 0xF00
        w[24] = 1;
        w[25] = 0x77;
        w[28] = 3;
        w[29] = 0x1080;
        w[30] = 4;
        w[31] = 56;
        w[32] = 5;
        w[33] = 1;
        w[34] = 0x9000; // cell at 0x1110: patched to 0x9F00
        Memory::new(0x1000, w)
    };
    assert_eq!(rcrt(&mut m, 0x1000, 0x10C0), Some(0xF00));
    assert_eq!(m.read(0x1110), Some(0x9F00));
}
