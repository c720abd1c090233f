use bytevm::assembler::compile;
use bytevm::sem::Fault;
use bytevm::vm::{RunStatus, Vm, VmResponse};

const ENTRY: usize = 0x100;
const STEPS: u64 = 100_000;

fn run_source(src: &str) -> (Vm, RunStatus) {
    let code = compile(src).expect("source must assemble");
    let mut vm = Vm::new(0x1000);
    vm.load_rom(&code, ENTRY);
    let status = vm.run(STEPS);
    (vm, status)
}

#[test]
fn fresh_vm_state() {
    let vm = Vm::new(0x400);
    assert_eq!(vm.memory_size(), 0x400);
    for i in 0..15 {
        assert_eq!(vm.register(i), 0);
    }
    assert_eq!(vm.register(15), 0x100);
    for a in 0..0x400 {
        assert_eq!(vm.memory_byte(a), 0);
    }
    assert!(vm.output().is_empty());
}

#[test]
fn print_program_prints_42_and_halts() {
    let (vm, status) = run_source("LD32 r0 #0000002A\nPRINT r0\nBRK");
    assert_eq!(status, RunStatus::Halted);
    assert_eq!(vm.output(), &vec![42u32]);
    assert_eq!(vm.register(0), 42);
}

#[test]
fn div_by_zero_faults_before_brk() {
    let (vm, status) = run_source("LD8 r1 5\nLD8 r2 0\nDIV r1 r2\nBRK");
    assert_eq!(status, RunStatus::Faulted(Fault::DivisionByZero));
    // The destination register keeps its value.
    assert_eq!(vm.register(1), 5);
    assert_eq!(vm.register(2), 0);
}

#[test]
fn fetch_at_exact_memory_boundary_faults() {
    // The instruction pointer starts at 0x100; with exactly 0x100 bytes of
    // memory the very first fetch is one past the end.
    let mut vm = Vm::new(0x100);
    let status = vm.run(STEPS);
    assert_eq!(status, RunStatus::Faulted(Fault::InstructionPointerOutOfBounds));
}

#[test]
fn running_off_the_end_of_memory_faults() {
    // No BRK: the machine runs over the zeroed memory... which is BRK's
    // opcode, so use a program that jumps to the last byte instead.
    let mut vm = Vm::new(0x200);
    let code = compile("JMP 511\nBRK").unwrap();
    vm.load_rom(&code, ENTRY);
    // Byte 511 is 0 = BRK: fetching it halts; one past would fault.
    assert_eq!(vm.run(STEPS), RunStatus::Halted);
    let mut vm2 = Vm::new(0x200);
    let code2 = compile("JMP 512\nBRK").unwrap();
    vm2.load_rom(&code2, ENTRY);
    assert_eq!(
        vm2.run(STEPS),
        RunStatus::Faulted(Fault::InstructionPointerOutOfBounds)
    );
}

#[test]
fn unknown_opcode_faults_with_the_byte() {
    let mut vm = Vm::new(0x200);
    vm.load_rom(&[0xFF], ENTRY);
    assert_eq!(vm.run(STEPS), RunStatus::Faulted(Fault::UnknownOpcode(0xFF)));
}

#[test]
fn brk_halts_immediately_and_later_bytes_never_run() {
    let (vm, status) = run_source("LD8 r0 9\nBRK\nPRINT r0\nPRINT r0");
    assert_eq!(status, RunStatus::Halted);
    assert!(vm.output().is_empty());
    assert_eq!(vm.register(0), 9);
}

#[test]
fn cpy_copies_a_register() {
    let (vm, status) = run_source("LD8 r1 7\nCPY r0 r1\nBRK");
    assert_eq!(status, RunStatus::Halted);
    assert_eq!(vm.register(0), 7);
    assert_eq!(vm.register(1), 7);
}

#[test]
fn ld8_ld16_ld32_zero_extend() {
    let (vm, _) = run_source("LD8 r0 200\nLD16 r1 #1234\nLD32 r2 #DEADBEEF\nBRK");
    assert_eq!(vm.register(0), 200);
    assert_eq!(vm.register(1), 0x1234);
    assert_eq!(vm.register(2), 0xDEADBEEF);
}

#[test]
fn add_wraps() {
    let (vm, _) = run_source("LD32 r0 #FFFFFFFF\nLD8 r1 2\nADD r0 r1\nBRK");
    assert_eq!(vm.register(0), 1);
    let (vm2, _) = run_source("LD8 r0 200\nLD8 r1 100\nADD r0 r1\nBRK");
    assert_eq!(vm2.register(0), 300);
}

#[test]
fn sub_wraps() {
    let (vm, _) = run_source("LD8 r0 1\nLD8 r1 2\nSUB r0 r1\nBRK");
    assert_eq!(vm.register(0), 0xFFFFFFFF);
}

#[test]
fn mul_wraps() {
    let (vm, _) = run_source("LD32 r0 #80000000\nLD8 r1 2\nMUL r0 r1\nBRK");
    assert_eq!(vm.register(0), 0);
    let (vm2, _) = run_source("LD8 r0 7\nLD8 r1 6\nMUL r0 r1\nBRK");
    assert_eq!(vm2.register(0), 42);
}

#[test]
fn div_is_integer_division() {
    let (vm, _) = run_source("LD8 r0 7\nLD8 r1 2\nDIV r0 r1\nBRK");
    assert_eq!(vm.register(0), 3);
}

#[test]
fn shifts_use_amount_modulo_32() {
    let (vm, _) = run_source("LD8 r0 1\nLD8 r1 33\nSHL r0 r1\nBRK");
    assert_eq!(vm.register(0), 2);
    let (vm2, _) = run_source("LD8 r0 4\nLD8 r1 1\nSHR r0 r1\nBRK");
    assert_eq!(vm2.register(0), 2);
}

#[test]
fn comparisons_give_0_or_1_with_strict_semantics() {
    // (mnemonic, a, b, expected)
    let cases = [
        ("EQ", 5u32, 5u32, 1u32),
        ("EQ", 5, 6, 0),
        ("NEQ", 5, 6, 1),
        ("NEQ", 5, 5, 0),
        ("LT", 5, 6, 1),
        ("LT", 5, 5, 0),
        ("LT", 6, 5, 0),
        ("LEQ", 5, 5, 1),
        ("LEQ", 6, 5, 0),
        ("GT", 6, 5, 1),
        ("GT", 5, 5, 0),
        ("GEQ", 5, 5, 1),
        ("GEQ", 5, 6, 0),
    ];
    for (m, a, b, want) in cases {
        let src = format!("LD32 r0 {}\nLD32 r1 {}\n{} r0 r1\nBRK", a, b, m);
        let (vm, status) = run_source(&src);
        assert_eq!(status, RunStatus::Halted, "{}", src);
        assert_eq!(vm.register(0), want, "{}", src);
    }
}

#[test]
fn comparison_is_unsigned() {
    let (vm, _) = run_source("LD32 r0 #FFFFFFFF\nLD8 r1 1\nGT r0 r1\nBRK");
    assert_eq!(vm.register(0), 1);
}

#[test]
fn not_is_logical() {
    let (vm, _) = run_source("NOT r0\nBRK");
    assert_eq!(vm.register(0), 1);
    let (vm2, _) = run_source("LD8 r0 5\nNOT r0\nBRK");
    assert_eq!(vm2.register(0), 0);
}

#[test]
fn memory_write_and_read_round_trip() {
    let (vm, status) = run_source("LD8 r0 16\nLD8 r1 77\nWR8 r0 r1\nRD8 r2 r0\nBRK");
    assert_eq!(status, RunStatus::Halted);
    assert_eq!(vm.register(2), 77);
    assert_eq!(vm.memory_byte(16), 77);
}

#[test]
fn memory_16_bit_is_big_endian() {
    let (vm, status) = run_source("LD8 r0 32\nLD16 r1 #1234\nWR16 r0 r1\nRD16 r2 r0\nBRK");
    assert_eq!(status, RunStatus::Halted);
    assert_eq!(vm.register(2), 0x1234);
    assert_eq!(vm.memory_byte(32), 0x12);
    assert_eq!(vm.memory_byte(33), 0x34);
}

#[test]
fn memory_32_bit_is_big_endian() {
    let (vm, status) = run_source("LD8 r0 32\nLD32 r1 #DEADBEEF\nWR32 r0 r1\nRD32 r2 r0\nBRK");
    assert_eq!(status, RunStatus::Halted);
    assert_eq!(vm.register(2), 0xDEADBEEF);
    assert_eq!(vm.memory_byte(32), 0xDE);
    assert_eq!(vm.memory_byte(33), 0xAD);
    assert_eq!(vm.memory_byte(34), 0xBE);
    assert_eq!(vm.memory_byte(35), 0xEF);
}

#[test]
fn memory_access_out_of_bounds_faults() {
    // The machine owns 0x1000 bytes; address 0x1000 is one past the end.
    let (_, status) = run_source("LD32 r0 #1000\nRD8 r1 r0\nBRK");
    assert_eq!(status, RunStatus::Faulted(Fault::MemoryAccessOutOfBounds));
    let (_, st2) = run_source("LD32 r0 #1000\nWR8 r0 r1\nBRK");
    assert_eq!(st2, RunStatus::Faulted(Fault::MemoryAccessOutOfBounds));
    // A wide access that starts in bounds but ends past them faults too.
    let (_, st3) = run_source("LD32 r0 #FFF\nRD32 r1 r0\nBRK");
    assert_eq!(st3, RunStatus::Faulted(Fault::MemoryAccessOutOfBounds));
}

#[test]
fn jmp_skips_code() {
    // LD8 at 256..258, JMP at 259..263, PRINT at 264..265, BRK at 266.
    let (vm, status) = run_source("LD8 r0 1\nJMP 266\nPRINT r0\nBRK");
    assert_eq!(status, RunStatus::Halted);
    assert!(vm.output().is_empty());
}

#[test]
fn jmpif_follows_the_condition_register() {
    // LD8 at 256..258, JMPIF at 259..264, PRINT at 265..266, BRK at 267.
    let (vm, status) = run_source("LD8 r0 1\nJMPIF r0 267\nPRINT r0\nBRK");
    assert_eq!(status, RunStatus::Halted);
    assert!(vm.output().is_empty());
    let (vm2, st2) = run_source("LD8 r0 0\nJMPIF r0 267\nPRINT r0\nBRK");
    assert_eq!(st2, RunStatus::Halted);
    assert_eq!(vm2.output(), &vec![0u32]);
}

#[test]
fn run_budget_reports_still_running() {
    // A tight loop back to the entry never halts; the budget runs out.
    let (_, status) = run_source("JMP 256");
    assert_eq!(status, RunStatus::Running);
}

#[test]
fn load_rom_truncates_at_the_end_of_memory() {
    let mut vm = Vm::new(0x104);
    vm.load_rom(&[1, 2, 3, 4, 5, 6, 7, 8], 0x100);
    assert_eq!(vm.memory_byte(0x100), 1);
    assert_eq!(vm.memory_byte(0x103), 4);
    // Nothing lands when the base is past the end, and nothing panics.
    let mut vm2 = Vm::new(0x10);
    vm2.load_rom(&[9, 9], 0x20);
    for a in 0..0x10 {
        assert_eq!(vm2.memory_byte(a), 0);
    }
}

#[test]
fn single_steps_report_end_and_faults() {
    let mut vm = Vm::new(0x200);
    vm.load_rom(&[0], 0x100);
    assert_eq!(vm.process_instruction(), Ok(VmResponse::End));
    let mut vm2 = Vm::new(0x100);
    assert_eq!(
        vm2.process_instruction(),
        Err(Fault::InstructionPointerOutOfBounds)
    );
}

#[test]
fn get_next_byte_advances_the_pointer() {
    let mut vm = Vm::new(0x200);
    vm.load_rom(&[10, 20], 0x100);
    assert_eq!(vm.get_next_byte(), Ok(10));
    assert_eq!(vm.get_next_byte(), Ok(20));
    assert_eq!(vm.register(15), 0x102);
}
