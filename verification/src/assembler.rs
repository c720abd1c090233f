//! The assembler: a pull-based word parser over the source text and the
//! single-pass compiler from mnemonic words to a flat byte buffer.
//!
//! `spec_compile` is the mathematical assembler over a sequence of
//! characters; `compile` is proved to return exactly its result. A `/*`
//! word opens a comment that runs to the matching `*/` word; register
//! operands are `r0`..`r7`; immediates are decimal or `#`-prefixed
//! hexadecimal; compilation stops at the first offending word.

use vstd::prelude::*;
use vstd::string::StringExecFns;
use crate::isa::{Shape, mnemonic_spec, lookup_mnemonic, pack_regs, be16_bytes, be32_bytes};
use crate::text::{
    is_whitespace, skip_ws, word_end, next_word, str_eq, reg_of_word, u32_of_word, dec_u32,
    hex_u32, dec_value, hex_value, is_hex_digit, hex_digit_val, lemma_skip_ws_bounds,
    lemma_word_end_bounds, lemma_next_word_advances, lemma_dec_value_nonneg,
    lemma_hex_value_nonneg, lemma_dec_value_none, lemma_hex_value_none,
};

verus! {

/// An assembly error, over the mathematical view of the source.
pub enum AsmError {
    /// A word outside a comment matches no mnemonic; it is carried along.
    InvalidMnemonic(Seq<char>),
    /// A word where a register operand was expected is no `r0`..`r7`.
    NotARegister,
    /// A word where an immediate was expected is no number in range.
    NotANumber,
    /// A `/*` comment was still open when the source ended.
    UnclosedComment,
}

/// An assembly error as the compiler returns it.
#[derive(PartialEq, Eq, Debug)]
pub enum AssemblyError {
    InvalidMnemonic(String),
    NotARegister,
    NotANumber,
    UnclosedComment,
}

impl View for AssemblyError {
    type V = AsmError;

    open spec fn view(&self) -> AsmError {
        match self {
            AssemblyError::InvalidMnemonic(w) => AsmError::InvalidMnemonic(w@),
            AssemblyError::NotARegister => AsmError::NotARegister,
            AssemblyError::NotANumber => AsmError::NotANumber,
            AssemblyError::UnclosedComment => AsmError::UnclosedComment,
        }
    }
}

/// Position just past the `*/` word that closes a comment open at `i`;
/// `None` when the source ends first.
pub open spec fn comment_end(s: Seq<char>, i: int) -> Option<int>
    decreases s.len() - i when 0 <= i <= s.len() via comment_end_decreases
{
    match next_word(s, i) {
        None => None,
        Some((w, j)) => if w == "*/"@ {
            Some(j)
        } else {
            comment_end(s, j)
        },
    }
}

#[via_fn]
proof fn comment_end_decreases(s: Seq<char>, i: int) {
    lemma_next_word_advances(s, i);
}

pub proof fn lemma_comment_end_advances(s: Seq<char>, i: int)
    requires
        0 <= i <= s.len(),
    ensures
        match comment_end(s, i) {
            Some(k) => i < k <= s.len(),
            None => true,
        },
    decreases s.len() - i,
{
    lemma_next_word_advances(s, i);
    match next_word(s, i) {
        None => {},
        Some((w, j)) => {
            if w != "*/"@ {
                lemma_comment_end_advances(s, j);
            }
        },
    }
}

/// One register operand read from the word stream.
pub open spec fn asm_reg_operand(s: Seq<char>, i: int) -> Result<(u8, int), AsmError> {
    match next_word(s, i) {
        None => Err(AsmError::NotARegister),
        Some((w, j)) => match reg_of_word(w) {
            Some(r) => Ok((r, j)),
            None => Err(AsmError::NotARegister),
        },
    }
}

/// One immediate operand read from the word stream.
pub open spec fn asm_num_operand(s: Seq<char>, i: int) -> Result<(u32, int), AsmError> {
    match next_word(s, i) {
        None => Err(AsmError::NotANumber),
        Some((w, j)) => match u32_of_word(w) {
            Some(v) => Ok((v, j)),
            None => Err(AsmError::NotANumber),
        },
    }
}

/// The bytes one instruction assembles to: the opcode byte, then its
/// operands read from the word stream and encoded per the shape; and the
/// cursor past the consumed words.
pub open spec fn asm_operands(op: u8, shape: Shape, s: Seq<char>, i: int) -> Result<
    (Seq<u8>, int),
    AsmError,
> {
    match shape {
        Shape::Bare => Ok((seq![op], i)),
        Shape::OneReg => match asm_reg_operand(s, i) {
            Ok((r, j)) => Ok((seq![op, r], j)),
            Err(e) => Err(e),
        },
        Shape::TwoReg => match asm_reg_operand(s, i) {
            Ok((r1, j1)) => match asm_reg_operand(s, j1) {
                Ok((r2, j2)) => Ok((seq![op, pack_regs(r1, r2)], j2)),
                Err(e) => Err(e),
            },
            Err(e) => Err(e),
        },
        Shape::RegImm1 => match asm_reg_operand(s, i) {
            Ok((r, j1)) => match asm_num_operand(s, j1) {
                Ok((v, j2)) => Ok((seq![op, r, (v % 0x100) as u8], j2)),
                Err(e) => Err(e),
            },
            Err(e) => Err(e),
        },
        Shape::RegImm2 => match asm_reg_operand(s, i) {
            Ok((r, j1)) => match asm_num_operand(s, j1) {
                Ok((v, j2)) => Ok((seq![op, r] + be16_bytes(v), j2)),
                Err(e) => Err(e),
            },
            Err(e) => Err(e),
        },
        Shape::RegImm4 => match asm_reg_operand(s, i) {
            Ok((r, j1)) => match asm_num_operand(s, j1) {
                Ok((v, j2)) => Ok((seq![op, r] + be32_bytes(v), j2)),
                Err(e) => Err(e),
            },
            Err(e) => Err(e),
        },
        Shape::Imm4 => match asm_num_operand(s, i) {
            Ok((v, j)) => Ok((seq![op] + be32_bytes(v), j)),
            Err(e) => Err(e),
        },
    }
}

pub proof fn lemma_asm_operands_advances(op: u8, shape: Shape, s: Seq<char>, i: int)
    requires
        0 <= i <= s.len(),
    ensures
        match asm_operands(op, shape, s, i) {
            Ok((bytes, k)) => i <= k <= s.len(),
            Err(e) => true,
        },
{
    lemma_next_word_advances(s, i);
    match next_word(s, i) {
        None => {},
        Some((w, j)) => {
            lemma_next_word_advances(s, j);
        },
    }
}

/// The mathematical assembler, from the cursor `i` on: the remaining words
/// compiled to bytes, or the first error. Comments are skipped; every other
/// word must be a mnemonic followed by the operands its shape asks for.
pub open spec fn spec_compile_from(s: Seq<char>, i: int) -> Result<Seq<u8>, AsmError>
    decreases s.len() - i when 0 <= i <= s.len() via spec_compile_from_decreases
{
    match next_word(s, i) {
        None => Ok(Seq::empty()),
        Some((w, j)) => if w == "/*"@ {
            match comment_end(s, j) {
                None => Err(AsmError::UnclosedComment),
                Some(k) => spec_compile_from(s, k),
            }
        } else {
            match mnemonic_spec(w) {
                None => Err(AsmError::InvalidMnemonic(w)),
                Some((op, shape)) => match asm_operands(op, shape, s, j) {
                    Err(e) => Err(e),
                    Ok((bytes, k)) => match spec_compile_from(s, k) {
                        Ok(rest) => Ok(bytes + rest),
                        Err(e) => Err(e),
                    },
                },
            }
        },
    }
}

#[via_fn]
proof fn spec_compile_from_decreases(s: Seq<char>, i: int) {
    lemma_next_word_advances(s, i);
    match next_word(s, i) {
        None => {},
        Some((w, j)) => {
            lemma_comment_end_advances(s, j);
            match mnemonic_spec(w) {
                None => {},
                Some((op, shape)) => {
                    lemma_asm_operands_advances(op, shape, s, j);
                },
            }
        },
    }
}

/// What assembling a whole source text yields.
pub open spec fn spec_compile(s: Seq<char>) -> Result<Seq<u8>, AsmError> {
    spec_compile_from(s, 0)
}

/// The loop invariant of `compile`: what was emitted so far, `pre`,
/// prefixes whatever the rest of the source compiles to.
pub open spec fn compile_state(s: Seq<char>, i: int, pre: Seq<u8>) -> bool {
    &&& 0 <= i <= s.len()
    &&& (match spec_compile_from(s, i) {
        Ok(rest) => spec_compile(s) == Ok::<Seq<u8>, AsmError>(pre + rest),
        Err(e) => spec_compile(s) == Err::<Seq<u8>, AsmError>(e),
    })
}

/// A pull-based word parser: it hands out one whitespace-delimited word at
/// a time and keeps a cursor into the source.
pub struct Parser<'a> {
    src: &'a str,
    idx: usize,
}

impl<'a> Parser<'a> {
    /// The source as a sequence of characters.
    pub closed spec fn text(&self) -> Seq<char> {
        self.src@
    }

    /// The cursor: how many characters are already consumed.
    pub closed spec fn cursor(&self) -> int {
        self.idx as int
    }

    pub open spec fn wf(&self) -> bool {
        0 <= self.cursor() <= self.text().len()
    }

    pub fn new(src: &'a str) -> (p: Parser<'a>)
        ensures
            p.wf(),
            p.text() == src@,
            p.cursor() == 0,
    {
        Parser { src, idx: 0 }
    }

    fn skip_whitespace(&mut self)
        requires
            old(self).wf(),
        ensures
            final(self).wf(),
            final(self).text() == old(self).text(),
            final(self).cursor() == skip_ws(old(self).text(), old(self).cursor()),
    {
        let len = self.src.unicode_len();
        loop
            invariant
                self.wf(),
                self.text() == old(self).text(),
                len == self.text().len(),
                skip_ws(self.text(), old(self).cursor()) == skip_ws(self.text(), self.cursor()),
            decreases len - self.idx,
        {
            if self.idx == len {
                return ;
            }
            let c = self.src.get_char(self.idx);
            if is_whitespace(c) {
                proof {
                    assert(skip_ws(self.text(), self.cursor()) == skip_ws(
                        self.text(),
                        self.cursor() + 1,
                    ));
                }
                self.idx += 1;
            } else {
                proof {
                    assert(skip_ws(self.text(), self.cursor()) == self.cursor());
                }
                return ;
            }
        }
    }

    /// The next word, or `None` when only whitespace remains; the cursor
    /// moves past what was consumed.
    pub fn read_word(&mut self) -> (r: Option<&'a str>)
        requires
            old(self).wf(),
        ensures
            final(self).wf(),
            final(self).text() == old(self).text(),
            final(self).cursor() >= old(self).cursor(),
            match r {
                Some(w) => next_word(old(self).text(), old(self).cursor()) == Some(
                    (w@, final(self).cursor()),
                ) && final(self).cursor() > old(self).cursor(),
                None => next_word(old(self).text(), old(self).cursor()) is None,
            },
    {
        proof {
            lemma_skip_ws_bounds(old(self).text(), old(self).cursor());
        }
        self.skip_whitespace();
        let len = self.src.unicode_len();
        if self.idx == len {
            return None;
        }
        let start = self.idx;
        proof {
            lemma_word_end_bounds(self.text(), start as int);
        }
        loop
            invariant
                self.wf(),
                self.text() == old(self).text(),
                len == self.text().len(),
                start as int <= self.cursor(),
                word_end(self.text(), start as int) == word_end(self.text(), self.cursor()),
            ensures
                self.wf(),
                self.text() == old(self).text(),
                start as int <= self.cursor(),
                word_end(self.text(), start as int) == self.cursor(),
            decreases len - self.idx,
        {
            if self.idx == len {
                proof {
                    assert(word_end(self.text(), self.cursor()) == self.cursor());
                }
                break ;
            }
            let c = self.src.get_char(self.idx);
            if is_whitespace(c) {
                proof {
                    assert(word_end(self.text(), self.cursor()) == self.cursor());
                }
                break ;
            }
            proof {
                assert(word_end(self.text(), self.cursor()) == word_end(
                    self.text(),
                    self.cursor() + 1,
                ));
            }
            self.idx += 1;
        }
        let w = self.src.substring_char(start, self.idx);
        Some(w)
    }

    /// The next word as a register operand: `Some` with the index for
    /// `r0`..`r7`, `None` for any other word or at the end of the source.
    pub fn read_reg(&mut self) -> (r: Option<u8>)
        requires
            old(self).wf(),
        ensures
            final(self).wf(),
            final(self).text() == old(self).text(),
            final(self).cursor() >= old(self).cursor(),
            match r {
                Some(reg) => asm_reg_operand(old(self).text(), old(self).cursor()) == Ok::<
                    (u8, int),
                    AsmError,
                >((reg, final(self).cursor())) && reg < 8,
                None => asm_reg_operand(old(self).text(), old(self).cursor()) == Err::<
                    (u8, int),
                    AsmError,
                >(AsmError::NotARegister),
            },
    {
        match self.read_word() {
            None => None,
            Some(w) => {
                let n = w.unicode_len();
                if n == 2 && w.get_char(0) == 'r' {
                    let u = w.get_char(1) as u32;
                    if ('0' as u32) <= u && u <= ('7' as u32) {
                        Some((u - ('0' as u32)) as u8)
                    } else {
                        None
                    }
                } else {
                    None
                }
            },
        }
    }

    /// The next word as an immediate operand: decimal, or hexadecimal
    /// after `#`; `None` for any other word, a value out of the unsigned
    /// 32-bit range, or the end of the source.
    pub fn read_u32(&mut self) -> (r: Option<u32>)
        requires
            old(self).wf(),
        ensures
            final(self).wf(),
            final(self).text() == old(self).text(),
            final(self).cursor() >= old(self).cursor(),
            match r {
                Some(v) => asm_num_operand(old(self).text(), old(self).cursor()) == Ok::<
                    (u32, int),
                    AsmError,
                >((v, final(self).cursor())),
                None => asm_num_operand(old(self).text(), old(self).cursor()) == Err::<
                    (u32, int),
                    AsmError,
                >(AsmError::NotANumber),
            },
    {
        match self.read_word() {
            None => None,
            Some(w) => {
                let n = w.unicode_len();
                if n > 0 && w.get_char(0) == '#' {
                    let r = parse_hex_digits(w, 1);
                    proof {
                        assert(u32_of_word(w@) == hex_u32(w@.subrange(1, w@.len() as int)));
                    }
                    r
                } else {
                    let r = parse_dec_digits(w, 0);
                    proof {
                        assert(w@.subrange(0, w@.len() as int) =~= w@);
                    }
                    r
                }
            },
        }
    }
}

/// The decimal numeral in `w` from position `from` to the end, when it
/// fits 32 unsigned bits.
fn parse_dec_digits(w: &str, from: usize) -> (r: Option<u32>)
    requires
        from as int <= w@.len(),
    ensures
        r == dec_u32(w@.subrange(from as int, w@.len() as int)),
{
    let len = w.unicode_len();
    let ghost s = w@.subrange(from as int, w@.len() as int);
    if from == len {
        return None;
    }
    let mut i: usize = from;
    let mut acc: u64 = 0;
    loop
        invariant
            len == w@.len(),
            from < len,
            from <= i <= len,
            s == w@.subrange(from as int, len as int),
            acc <= 0x100000000u64,
            i == from ==> acc == 0,
            i > from ==> match dec_value(w@.subrange(from as int, i as int)) {
                Some(v) => (acc < 0x100000000u64 && v == acc as int) || (acc == 0x100000000u64 && v
                    > u32::MAX as int),
                None => false,
            },
        ensures
            i == len,
            match dec_value(s) {
                Some(v) => (acc < 0x100000000u64 && v == acc as int) || (acc == 0x100000000u64 && v
                    > u32::MAX as int),
                None => false,
            },
        decreases len - i,
    {
        if i == len {
            break ;
        }
        let c = w.get_char(i);
        let u = c as u32;
        if u < ('0' as u32) || u > ('9' as u32) {
            proof {
                assert(s[i - from] == w@[i as int]);
                lemma_dec_value_none(s, i - from);
            }
            return None;
        }
        let d = (u - ('0' as u32)) as u64;
        let t = acc * 10 + d;
        let sat: u64 = if t > 0xFFFFFFFFu64 {
            0x100000000u64
        } else {
            t
        };
        proof {
            let p = w@.subrange(from as int, i as int);
            let p1 = w@.subrange(from as int, i as int + 1);
            assert(p1.drop_last() =~= p);
            assert(p1.last() == w@[i as int]);
            if i > from {
                lemma_dec_value_nonneg(p);
            }
        }
        acc = sat;
        i += 1;
    }
    if acc <= 0xFFFFFFFFu64 {
        Some(acc as u32)
    } else {
        None
    }
}

/// The hexadecimal numeral in `w` from position `from` to the end, when it
/// fits 32 unsigned bits. Digits may be either case.
fn parse_hex_digits(w: &str, from: usize) -> (r: Option<u32>)
    requires
        from as int <= w@.len(),
    ensures
        r == hex_u32(w@.subrange(from as int, w@.len() as int)),
{
    let len = w.unicode_len();
    let ghost s = w@.subrange(from as int, w@.len() as int);
    if from == len {
        return None;
    }
    let mut i: usize = from;
    let mut acc: u64 = 0;
    loop
        invariant
            len == w@.len(),
            from < len,
            from <= i <= len,
            s == w@.subrange(from as int, len as int),
            acc <= 0x100000000u64,
            i == from ==> acc == 0,
            i > from ==> match hex_value(w@.subrange(from as int, i as int)) {
                Some(v) => (acc < 0x100000000u64 && v == acc as int) || (acc == 0x100000000u64 && v
                    > u32::MAX as int),
                None => false,
            },
        ensures
            i == len,
            match hex_value(s) {
                Some(v) => (acc < 0x100000000u64 && v == acc as int) || (acc == 0x100000000u64 && v
                    > u32::MAX as int),
                None => false,
            },
        decreases len - i,
    {
        if i == len {
            break ;
        }
        let c = w.get_char(i);
        let u = c as u32;
        let d: u64 = if ('0' as u32) <= u && u <= ('9' as u32) {
            (u - ('0' as u32)) as u64
        } else if ('a' as u32) <= u && u <= ('f' as u32) {
            (u - ('a' as u32)) as u64 + 10
        } else if ('A' as u32) <= u && u <= ('F' as u32) {
            (u - ('A' as u32)) as u64 + 10
        } else {
            proof {
                assert(s[i - from] == w@[i as int]);
                lemma_hex_value_none(s, i - from);
            }
            return None;
        };
        proof {
            assert(is_hex_digit(w@[i as int]) && d == hex_digit_val(w@[i as int]));
        }
        let t = acc * 16 + d;
        let sat: u64 = if t > 0xFFFFFFFFu64 {
            0x100000000u64
        } else {
            t
        };
        proof {
            let p = w@.subrange(from as int, i as int);
            let p1 = w@.subrange(from as int, i as int + 1);
            assert(p1.drop_last() =~= p);
            assert(p1.last() == w@[i as int]);
            if i > from {
                lemma_hex_value_nonneg(p);
            }
        }
        acc = sat;
        i += 1;
    }
    if acc <= 0xFFFFFFFFu64 {
        Some(acc as u32)
    } else {
        None
    }
}

/// Compiles assembly source to the machine's byte code: exactly what
/// `spec_compile` says, as a buffer ready for `load_rom`, or the first
/// error in the source.
#[verifier::rlimit(100)]
pub fn compile(src: &str) -> (r: Result<Vec<u8>, AssemblyError>)
    ensures
        match r {
            Ok(bytes) => spec_compile(src@) == Ok::<Seq<u8>, AsmError>(bytes@),
            Err(e) => spec_compile(src@) == Err::<Seq<u8>, AsmError>(e@),
        },
{
    let mut bytecode: Vec<u8> = Vec::new();
    let mut p = Parser::new(src);
    proof {
        match spec_compile_from(src@, 0) {
            Ok(rest) => {
                assert(bytecode@ + rest =~= rest);
            },
            Err(_) => {},
        }
    }
    loop
        invariant
            p.wf(),
            p.text() == src@,
            compile_state(src@, p.cursor(), bytecode@),
        decreases src@.len() - p.cursor(),
    {
        let ghost i0 = p.cursor();
        let ghost b0 = bytecode@;
        match p.read_word() {
            None => {
                proof {
                    assert(spec_compile_from(src@, i0) == Ok::<Seq<u8>, AsmError>(Seq::empty()));
                    assert(b0 + Seq::<u8>::empty() =~= b0);
                }
                return Ok(bytecode);
            },
            Some(w) => {
                if str_eq(w, "/*") {
                    let ghost j = p.cursor();
                    proof {
                        lemma_next_word_advances(src@, i0);
                        lemma_comment_end_advances(src@, j);
                        assert(spec_compile_from(src@, i0) == (match comment_end(src@, j) {
                            None => Err::<Seq<u8>, AsmError>(AsmError::UnclosedComment),
                            Some(k) => spec_compile_from(src@, k),
                        }));
                    }
                    loop
                        invariant_except_break
                            p.wf(),
                            p.text() == src@,
                            0 <= j <= src@.len(),
                            i0 < j,
                            compile_state(src@, i0, bytecode@),
                            bytecode@ == b0,
                            comment_end(src@, j) == comment_end(src@, p.cursor()),
                            spec_compile_from(src@, i0) == (match comment_end(src@, j) {
                                None => Err::<Seq<u8>, AsmError>(AsmError::UnclosedComment),
                                Some(k) => spec_compile_from(src@, k),
                            }),
                        ensures
                            p.wf(),
                            p.text() == src@,
                            bytecode@ == b0,
                            compile_state(src@, p.cursor(), bytecode@),
                            i0 < p.cursor(),
                        decreases src@.len() - p.cursor(),
                    {
                        let ghost c0 = p.cursor();
                        match p.read_word() {
                            None => {
                                proof {
                                    assert(comment_end(src@, c0) is None);
                                }
                                return Err(AssemblyError::UnclosedComment);
                            },
                            Some(w2) => {
                                if str_eq(w2, "*/") {
                                    proof {
                                        assert(comment_end(src@, c0) == Some(p.cursor()));
                                        lemma_comment_end_advances(src@, j);
                                    }
                                    break ;
                                } else {
                                    proof {
                                        lemma_next_word_advances(src@, c0);
                                        assert(comment_end(src@, c0) == comment_end(
                                            src@,
                                            p.cursor(),
                                        ));
                                    }
                                }
                            },
                        }
                    }
                } else {
                    match lookup_mnemonic(w) {
                        None => {
                            let e = AssemblyError::InvalidMnemonic(String::from_str(w));
                            proof {
                                assert(spec_compile_from(src@, i0) == Err::<Seq<u8>, AsmError>(
                                    AsmError::InvalidMnemonic(w@),
                                ));
                            }
                            return Err(e);
                        },
                        Some((op, shape)) => {
                            let ghost j = p.cursor();
                            bytecode.push(op);
                            match shape {
                                Shape::Bare => {
                                    proof {
                                        assert(bytecode@ =~= b0 + seq![op]);
                                    }
                                },
                                Shape::OneReg => {
                                    let r = match p.read_reg() {
                                        Some(r) => r,
                                        None => {
                                            return Err(AssemblyError::NotARegister);
                                        },
                                    };
                                    bytecode.push(r);
                                    proof {
                                        assert(bytecode@ =~= b0 + seq![op, r]);
                                    }
                                },
                                Shape::TwoReg => {
                                    let ra = match p.read_reg() {
                                        Some(r) => r,
                                        None => {
                                            return Err(AssemblyError::NotARegister);
                                        },
                                    };
                                    let rb = match p.read_reg() {
                                        Some(r) => r,
                                        None => {
                                            return Err(AssemblyError::NotARegister);
                                        },
                                    };
                                    bytecode.push((ra << 5) | (rb << 2));
                                    proof {
                                        assert(bytecode@ =~= b0 + seq![op, pack_regs(ra, rb)]);
                                    }
                                },
                                Shape::RegImm1 => {
                                    let r = match p.read_reg() {
                                        Some(r) => r,
                                        None => {
                                            return Err(AssemblyError::NotARegister);
                                        },
                                    };
                                    let v = match p.read_u32() {
                                        Some(v) => v,
                                        None => {
                                            return Err(AssemblyError::NotANumber);
                                        },
                                    };
                                    bytecode.push(r);
                                    bytecode.push((v % 0x100) as u8);
                                    proof {
                                        assert(bytecode@ =~= b0 + seq![op, r, (v % 0x100) as u8]);
                                    }
                                },
                                Shape::RegImm2 => {
                                    let r = match p.read_reg() {
                                        Some(r) => r,
                                        None => {
                                            return Err(AssemblyError::NotARegister);
                                        },
                                    };
                                    let v = match p.read_u32() {
                                        Some(v) => v,
                                        None => {
                                            return Err(AssemblyError::NotANumber);
                                        },
                                    };
                                    bytecode.push(r);
                                    bytecode.push(((v / 0x100) % 0x100) as u8);
                                    bytecode.push((v % 0x100) as u8);
                                    proof {
                                        assert(bytecode@ =~= b0 + seq![op, r] + be16_bytes(v));
                                        assert(b0 + seq![op, r] + be16_bytes(v) =~= b0 + (
                                        seq![op, r] + be16_bytes(v)));
                                    }
                                },
                                Shape::RegImm4 => {
                                    let r = match p.read_reg() {
                                        Some(r) => r,
                                        None => {
                                            return Err(AssemblyError::NotARegister);
                                        },
                                    };
                                    let v = match p.read_u32() {
                                        Some(v) => v,
                                        None => {
                                            return Err(AssemblyError::NotANumber);
                                        },
                                    };
                                    bytecode.push(r);
                                    bytecode.push(((v / 0x1000000) % 0x100) as u8);
                                    bytecode.push(((v / 0x10000) % 0x100) as u8);
                                    bytecode.push(((v / 0x100) % 0x100) as u8);
                                    bytecode.push((v % 0x100) as u8);
                                    proof {
                                        assert(bytecode@ =~= b0 + seq![op, r] + be32_bytes(v));
                                        assert(b0 + seq![op, r] + be32_bytes(v) =~= b0 + (
                                        seq![op, r] + be32_bytes(v)));
                                    }
                                },
                                Shape::Imm4 => {
                                    let v = match p.read_u32() {
                                        Some(v) => v,
                                        None => {
                                            return Err(AssemblyError::NotANumber);
                                        },
                                    };
                                    bytecode.push(((v / 0x1000000) % 0x100) as u8);
                                    bytecode.push(((v / 0x10000) % 0x100) as u8);
                                    bytecode.push(((v / 0x100) % 0x100) as u8);
                                    bytecode.push((v % 0x100) as u8);
                                    proof {
                                        assert(bytecode@ =~= b0 + seq![op] + be32_bytes(v));
                                        assert(b0 + seq![op] + be32_bytes(v) =~= b0 + (seq![op]
                                            + be32_bytes(v)));
                                    }
                                },
                            }
                            proof {
                                lemma_next_word_advances(src@, i0);
                                lemma_asm_operands_advances(op, shape, src@, j);
                                match asm_operands(op, shape, src@, j) {
                                    Ok((bytes, k)) => {
                                        assert(bytecode@ == b0 + bytes);
                                        assert(k == p.cursor());
                                        match spec_compile_from(src@, k) {
                                            Ok(rest) => {
                                                assert((b0 + bytes) + rest =~= b0 + (bytes
                                                    + rest));
                                            },
                                            Err(_) => {},
                                        }
                                    },
                                    Err(_) => {
                                        assert(false);
                                    },
                                }
                            }
                        },
                    }
                }
            },
        }
    }
}

} // verus!
