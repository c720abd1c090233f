use bytevm::assembler::{compile, AssemblyError, Parser};
use bytevm::utf8::Utf8CharIterator;

#[test]
fn compile_brk_alone() {
    assert_eq!(compile("BRK").unwrap(), vec![0u8]);
}

#[test]
fn compile_empty_source() {
    assert_eq!(compile("").unwrap(), Vec::<u8>::new());
    assert_eq!(compile(" \t\n ").unwrap(), Vec::<u8>::new());
}

#[test]
fn compile_print_program_bytes() {
    // LD32, r0, four immediate bytes, PRINT, r0, BRK.
    let code = compile("LD32 r0 #0000002A\nPRINT r0\nBRK").unwrap();
    assert_eq!(code, vec![4u8, 0, 0, 0, 0, 0x2A, 26, 0, 0]);
}

#[test]
fn registers_r0_to_r7_accepted() {
    for i in 0..8u8 {
        let src = format!("CPY r{} r{}", i, 7 - i);
        let code = compile(&src).unwrap();
        assert_eq!(code, vec![1u8, (i << 5) | ((7 - i) << 2)]);
    }
}

#[test]
fn register_r8_rejected() {
    assert_eq!(compile("PRINT r8"), Err(AssemblyError::NotARegister));
}

#[test]
fn register_bare_r_rejected() {
    assert_eq!(compile("PRINT r"), Err(AssemblyError::NotARegister));
}

#[test]
fn register_rx_rejected() {
    assert_eq!(compile("PRINT rX"), Err(AssemblyError::NotARegister));
}

#[test]
fn register_non_register_word_rejected() {
    assert_eq!(compile("PRINT 5"), Err(AssemblyError::NotARegister));
    assert_eq!(compile("CPY r1"), Err(AssemblyError::NotARegister));
    assert_eq!(compile("PRINT r00"), Err(AssemblyError::NotARegister));
}

#[test]
fn immediate_hex_lowercase() {
    assert_eq!(compile("LD32 r0 #ff").unwrap(), vec![4u8, 0, 0, 0, 0, 255]);
}

#[test]
fn immediate_decimal() {
    assert_eq!(compile("LD32 r0 255").unwrap(), vec![4u8, 0, 0, 0, 0, 255]);
}

#[test]
fn immediate_hex_uppercase() {
    assert_eq!(compile("LD32 r0 #FF").unwrap(), vec![4u8, 0, 0, 0, 0, 255]);
}

#[test]
fn immediate_non_numeric_rejected() {
    assert_eq!(compile("LD8 r0 zz"), Err(AssemblyError::NotANumber));
    assert_eq!(compile("LD32 r0 #"), Err(AssemblyError::NotANumber));
    assert_eq!(compile("LD32 r0"), Err(AssemblyError::NotANumber));
}

#[test]
fn immediate_out_of_range_rejected() {
    assert_eq!(compile("LD32 r0 4294967296"), Err(AssemblyError::NotANumber));
    assert_eq!(compile("LD32 r0 #100000000"), Err(AssemblyError::NotANumber));
    assert_eq!(compile("LD32 r0 4294967295").unwrap(), vec![4u8, 0, 255, 255, 255, 255]);
}

#[test]
fn unclosed_comment_faults() {
    assert_eq!(compile("/* comment"), Err(AssemblyError::UnclosedComment));
}

#[test]
fn comment_is_skipped() {
    assert_eq!(compile("/* any words at all */ BRK").unwrap(), vec![0u8]);
    assert_eq!(compile("BRK /* trailing */").unwrap(), vec![0u8]);
}

#[test]
fn invalid_mnemonic_is_reported_with_the_word() {
    assert_eq!(
        compile("bogus"),
        Err(AssemblyError::InvalidMnemonic(String::from("bogus")))
    );
    // Mnemonics are case-sensitive.
    assert_eq!(
        compile("brk"),
        Err(AssemblyError::InvalidMnemonic(String::from("brk")))
    );
}

#[test]
fn non_ascii_word_is_reported() {
    assert_eq!(
        compile("h\u{00e9}llo"),
        Err(AssemblyError::InvalidMnemonic(String::from("h\u{00e9}llo")))
    );
}

#[test]
fn ld8_takes_low_byte() {
    // 300 = 0x12C; the 1-byte form keeps the low byte 0x2C = 44.
    assert_eq!(compile("LD8 r1 300").unwrap(), vec![2u8, 1, 44]);
}

#[test]
fn ld16_is_big_endian() {
    assert_eq!(compile("LD16 r2 #1234").unwrap(), vec![3u8, 2, 0x12, 0x34]);
}

#[test]
fn jmp_and_jmpif_encode_4_byte_addresses() {
    assert_eq!(compile("JMP 256").unwrap(), vec![24u8, 0, 0, 1, 0]);
    assert_eq!(compile("JMPIF r3 256").unwrap(), vec![25u8, 3, 0, 0, 1, 0]);
}

#[test]
fn two_register_opcodes_assemble() {
    // Opcode bytes in table order for each two-register mnemonic.
    let cases = [
        ("RD8", 5u8),
        ("RD16", 6),
        ("RD32", 7),
        ("WR8", 8),
        ("WR16", 9),
        ("WR32", 10),
        ("ADD", 11),
        ("SUB", 12),
        ("MUL", 13),
        ("DIV", 14),
        ("SHL", 15),
        ("SHR", 16),
        ("EQ", 17),
        ("NEQ", 18),
        ("LT", 19),
        ("LEQ", 20),
        ("GT", 21),
        ("GEQ", 22),
    ];
    for (m, op) in cases {
        let code = compile(&format!("{} r1 r2", m)).unwrap();
        assert_eq!(code, vec![op, (1 << 5) | (2 << 2)]);
    }
    assert_eq!(compile("NOT r4").unwrap(), vec![23u8, 4]);
}

#[test]
fn parser_reads_words_and_operands() {
    let mut p = Parser::new("ADD  r3\t#1f\nlast");
    assert_eq!(p.read_word(), Some("ADD"));
    assert_eq!(p.read_reg(), Some(3));
    assert_eq!(p.read_u32(), Some(0x1f));
    assert_eq!(p.read_word(), Some("last"));
    assert_eq!(p.read_word(), None);
}

#[test]
fn parser_rejects_bad_operands_but_consumes_them() {
    let mut p = Parser::new("r9 17");
    assert_eq!(p.read_reg(), None);
    assert_eq!(p.read_u32(), Some(17));
}

#[test]
fn utf8_iterator_walks_characters() {
    let mut it = Utf8CharIterator::new("a\u{221a}b");
    assert_eq!(it.next(), Some((0, 'a')));
    assert_eq!(it.next(), Some((1, '\u{221a}')));
    assert_eq!(it.next(), Some((2, 'b')));
    assert_eq!(it.next(), None);
}
