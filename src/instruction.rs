use vstd::prelude::*;
use crate::number::{parse_i16, parse_i16_spec, parse_u16, parse_u16_spec};
use crate::opcode::{class_base, lookup, lookup_spec, find_prefix_mnemonic, prefix_mnemonic, InstructionClass};
use crate::text::{
    find, find_char, find_spec, slice, split, split_spec, views, without, without_spec,
    starts_with_spec,
};

verus! {

/// Why an instruction could not be encoded.
#[derive(Clone, Debug, PartialEq, Eq)]
pub enum EncodeError {
    /// The mnemonic is not in the opcode table.
    UnknownOpcode { line: usize, opcode: Vec<char> },
    /// The operand count does not match the instruction's class.
    ArityError { line: usize, opcode: Vec<char> },
    /// An operand is neither a register nor a well-formed literal.
    InvalidOperand { line: usize, operand: Vec<char> },
}

pub enum EncodeErrorModel {
    UnknownOpcode { line: int, opcode: Seq<char> },
    ArityError { line: int, opcode: Seq<char> },
    InvalidOperand { line: int, operand: Seq<char> },
}

impl View for EncodeError {
    type V = EncodeErrorModel;

    open spec fn view(&self) -> EncodeErrorModel {
        match self {
            EncodeError::UnknownOpcode { line, opcode } => EncodeErrorModel::UnknownOpcode {
                line: *line as int,
                opcode: opcode@,
            },
            EncodeError::ArityError { line, opcode } => EncodeErrorModel::ArityError {
                line: *line as int,
                opcode: opcode@,
            },
            EncodeError::InvalidOperand { line, operand } => EncodeErrorModel::InvalidOperand {
                line: *line as int,
                operand: operand@,
            },
        }
    }
}

/// One assembly statement.
#[derive(Clone, Debug)]
pub struct Instruction {
    pub negative: bool,
    pub zero: bool,
    pub update: bool,
    /// The mnemonic, with its flag suffix removed.
    pub opcode: Vec<char>,
    /// The operands as written, spaces removed.
    pub args: Vec<Vec<char>>,
    /// 1-based line of the source text.
    pub line: usize,
    /// Position in the stream of emitted words.
    pub binary_line: usize,
}

pub struct InstructionModel {
    pub negative: bool,
    pub zero: bool,
    pub update: bool,
    pub opcode: Seq<char>,
    pub args: Seq<Seq<char>>,
    pub line: int,
    pub binary_line: int,
}

impl View for Instruction {
    type V = InstructionModel;

    open spec fn view(&self) -> InstructionModel {
        InstructionModel {
            negative: self.negative,
            zero: self.zero,
            update: self.update,
            opcode: self.opcode@,
            args: views(self.args@),
            line: self.line as int,
            binary_line: self.binary_line as int,
        }
    }
}

pub open spec fn contains_spec(s: Seq<char>, p: Seq<char>) -> bool {
    find_spec(s, p) is Some
}

/// The first word of the statement `text` (up to the first space).
pub open spec fn mnemonic_token(text: Seq<char>) -> Seq<char> {
    match find_spec(text, seq![' ']) {
        Some(i) => text.subrange(0, i),
        None => text,
    }
}

/// The operands of the statement `text`: what follows the first space, with
/// every space removed, split at commas.
pub open spec fn operands_of(text: Seq<char>) -> Seq<Seq<char>> {
    let rest = match find_spec(text, seq![' ']) {
        Some(i) => text.subrange(i + 1, text.len() as int),
        None => Seq::<char>::empty(),
    };
    split_spec(without_spec(rest, ' '), ',')
}

/// The statement `text` at 0-based line `index` read as an instruction: the
/// table mnemonic that begins its first word, the flags that the rest of that
/// word names, and the 1-based line `index + 1`.
pub open spec fn init_spec(index: int, binary_line: int, text: Seq<char>) -> InstructionModel {
    let line = index + 1;
    let tok = mnemonic_token(text);
    let args = operands_of(text);
    match prefix_mnemonic(tok) {
        Some(m) => {
            let suffix = tok.subrange(m.len() as int, tok.len() as int);
            InstructionModel {
                negative: contains_spec(suffix, seq!['n']) || contains_spec(suffix, seq!['l', 't']),
                zero: contains_spec(suffix, seq!['z']) || contains_spec(suffix, seq!['e', 'q']),
                update: contains_spec(suffix, seq!['s']),
                opcode: m,
                args,
                line,
                binary_line,
            }
        },
        None => InstructionModel {
            negative: false,
            zero: false,
            update: false,
            opcode: tok,
            args,
            line,
            binary_line,
        },
    }
}

/// Register code of an operand: `r0`..`r3` name registers 0..3, anything
/// else is the immediate/indirect code `0b111`.
pub open spec fn reg_code(s: Seq<char>) -> u16 {
    if s == seq!['r', '0'] {
        0
    } else if s == seq!['r', '1'] {
        1
    } else if s == seq!['r', '2'] {
        2
    } else if s == seq!['r', '3'] {
        3
    } else {
        7
    }
}

/// The literal of an operand written `#<i16>`.
pub open spec fn hash_literal(s: Seq<char>) -> Option<u16> {
    if s.len() > 0 && s[0] == '#' {
        match parse_i16_spec(s.drop_first()) {
            Some(v) => Some(v as u16),
            None => None,
        }
    } else {
        None
    }
}

/// The literal of an operand written `[<i16>]`.
pub open spec fn bracket_literal(s: Seq<char>) -> Option<u16> {
    if s.len() >= 2 && s[0] == '[' && s.last() == ']' {
        match parse_i16_spec(s.subrange(1, s.len() - 1)) {
            Some(v) => Some(v as u16),
            None => None,
        }
    } else {
        None
    }
}

/// Bits 2, 1, 0: negative, zero, update.
pub open spec fn flag_bits(negative: bool, zero: bool, update: bool) -> u16 {
    (if negative {
        4u16
    } else {
        0u16
    }) | (if zero {
        2u16
    } else {
        0u16
    }) | (if update {
        1u16
    } else {
        0u16
    })
}

/// The class base with the flag field in bits 14..12.
pub open spec fn head_word(c: InstructionClass, ins: InstructionModel) -> u16 {
    class_base(c) | (flag_bits(ins.negative, ins.zero, ins.update) << 12u16)
}

/// One word, followed by the literal of the last operand when its register
/// code is `0b111`.
pub open spec fn with_literal(
    ins: InstructionModel,
    w: u16,
    code: u16,
    operand: Seq<char>,
    lit: Option<u16>,
) -> Result<Seq<u16>, EncodeErrorModel> {
    if code != 7 {
        Ok(seq![w])
    } else {
        match lit {
            Some(v) => Ok(seq![w, v]),
            None => Err(EncodeErrorModel::InvalidOperand { line: ins.line, operand }),
        }
    }
}

/// The words that encode an instruction, or why it cannot be encoded.
pub open spec fn encode_spec(ins: InstructionModel) -> Result<Seq<u16>, EncodeErrorModel> {
    match lookup_spec(ins.opcode) {
        None => Err(EncodeErrorModel::UnknownOpcode { line: ins.line, opcode: ins.opcode }),
        Some((c, sub)) => {
            let w0 = head_word(c, ins);
            let arity_err = EncodeErrorModel::ArityError { line: ins.line, opcode: ins.opcode };
            match c {
                InstructionClass::Moves => {
                    if ins.args.len() != 2 {
                        Err(arity_err)
                    } else {
                        let a = reg_code(ins.args[0]);
                        let b = reg_code(ins.args[1]);
                        if a == 7 {
                            Err(EncodeErrorModel::InvalidOperand { line: ins.line, operand: ins.args[0] })
                        } else {
                            let w = w0 | (sub << 5u16) | (a << 3u16) | b;
                            with_literal(ins, w, b, ins.args[1], hash_literal(ins.args[1]))
                        }
                    }
                },
                InstructionClass::MathDoubles => {
                    if ins.args.len() != 2 {
                        Err(arity_err)
                    } else {
                        let a = reg_code(ins.args[0]);
                        let b = reg_code(ins.args[1]);
                        if a == 7 {
                            Err(EncodeErrorModel::InvalidOperand { line: ins.line, operand: ins.args[0] })
                        } else {
                            let w = w0 | (sub << 5u16) | (a << 3u16) | b;
                            with_literal(ins, w, b, ins.args[1], hash_literal(ins.args[1]))
                        }
                    }
                },
                InstructionClass::RamMoves => {
                    if ins.args.len() != 2 {
                        Err(arity_err)
                    } else {
                        let a = reg_code(ins.args[0]);
                        let b = reg_code(ins.args[1]);
                        if a == 7 {
                            Err(EncodeErrorModel::InvalidOperand { line: ins.line, operand: ins.args[0] })
                        } else {
                            let w = w0 | (sub << 5u16) | (a << 3u16) | b;
                            with_literal(ins, w, b, ins.args[1], bracket_literal(ins.args[1]))
                        }
                    }
                },
                InstructionClass::MathSingles => {
                    if ins.args.len() != 1 {
                        Err(arity_err)
                    } else {
                        let a = reg_code(ins.args[0]);
                        let w = w0 | (sub << 3u16) | a;
                        with_literal(ins, w, a, ins.args[0], hash_literal(ins.args[0]))
                    }
                },
                InstructionClass::Stack => {
                    if ins.args.len() != 1 {
                        Err(arity_err)
                    } else {
                        let a = reg_code(ins.args[0]);
                        let w = w0 | (sub << 4u16) | a;
                        with_literal(ins, w, a, ins.args[0], hash_literal(ins.args[0]))
                    }
                },
                InstructionClass::Jump => {
                    if ins.args.len() != 1 {
                        Err(arity_err)
                    } else {
                        match parse_u16_spec(ins.args[0]) {
                            Some(v) => Ok(seq![w0, v]),
                            None => Err(EncodeErrorModel::InvalidOperand { line: ins.line, operand: ins.args[0] }),
                        }
                    }
                },
            }
        },
    }
}

pub open spec fn encode_view(r: Result<Vec<u16>, EncodeError>) -> Result<Seq<u16>, EncodeErrorModel> {
    match r {
        Ok(v) => Ok(v@),
        Err(e) => Err(e@),
    }
}

fn char_at_is(s: &Vec<char>, i: usize, c: char) -> (r: bool)
    ensures
        r == (i < s@.len() && s@[i as int] == c),
{
    i < s.len() && s[i] == c
}

fn hash_literal_exec(s: &Vec<char>) -> (r: Option<u16>)
    ensures
        r == hash_literal(s@),
{
    if char_at_is(s, 0, '#') {
        let body = slice(s, 1, s.len());
        assert(body@ =~= s@.drop_first());
        match parse_i16(&body) {
            Some(v) => Some(v as u16),
            None => None,
        }
    } else {
        None
    }
}

fn bracket_literal_exec(s: &Vec<char>) -> (r: Option<u16>)
    ensures
        r == bracket_literal(s@),
{
    if s.len() >= 2 && s[0] == '[' && s[s.len() - 1] == ']' {
        let body = slice(s, 1, s.len() - 1);
        match parse_i16(&body) {
            Some(v) => Some(v as u16),
            None => None,
        }
    } else {
        None
    }
}

fn finish_with_literal(
    line: usize,
    w: u16,
    code: u16,
    operand: &Vec<char>,
    lit: Option<u16>,
) -> (r: Result<Vec<u16>, EncodeError>)
    ensures
        forall|ins: InstructionModel|
            ins.line == line ==> encode_view(r) == #[trigger] with_literal(ins, w, code, operand@, lit),
{
    if code != 7 {
        let v = vec![w];
        assert(v@ =~= seq![w]);
        Ok(v)
    } else {
        match lit {
            Some(x) => {
                let v = vec![w, x];
                assert(v@ =~= seq![w, x]);
                Ok(v)
            },
            None => Err(EncodeError::InvalidOperand { line, operand: operand.clone() }),
        }
    }
}

fn find_text(s: &Vec<char>, p: &Vec<char>) -> (r: bool)
    ensures
        r == contains_spec(s@, p@),
{
    find(s, p).is_some()
}

impl Instruction {
    /// Reads the statement `text` (a trimmed, comment-free line) as an
    /// instruction at 0-based source line `line_num` (recorded as the 1-based
    /// line `line_num + 1`) and output position `bin_line`.
    pub fn init(line_num: usize, bin_line: usize, text: &Vec<char>) -> (r: Instruction)
        requires
            line_num < usize::MAX,
        ensures
            r@ == init_spec(line_num as int, bin_line as int, text@),
    {
        let (tok, rest) = match find_char(text, ' ') {
            Some(i) => {
                assert(i < text.len());
                (slice(text, 0, i), slice(text, i + 1, text.len()))
            },
            None => (text.clone(), Vec::new()),
        };
        assert(tok@ == mnemonic_token(text@));
        let args = split(&without(&rest, ' '), ',');
        assert(views(args@) == operands_of(text@)) by {
            if find_spec(text@, seq![' ']) is None {
                assert(rest@ =~= Seq::<char>::empty());
            }
        }
        match find_prefix_mnemonic(&tok) {
            Some(m) => {
                assert(starts_with_spec(tok@, m@));
                let suffix = slice(&tok, m.len(), tok.len());
                let (pn, plt, pz, peq, ps) = (vec!['n'], vec!['l', 't'], vec!['z'], vec!['e', 'q'], vec!['s']);
                assert(pn@ =~= seq!['n'] && plt@ =~= seq!['l', 't'] && pz@ =~= seq!['z']);
                assert(peq@ =~= seq!['e', 'q'] && ps@ =~= seq!['s']);
                let n = find_text(&suffix, &pn) || find_text(&suffix, &plt);
                let z = find_text(&suffix, &pz) || find_text(&suffix, &peq);
                let u = find_text(&suffix, &ps);
                Instruction {
                    negative: n,
                    zero: z,
                    update: u,
                    opcode: m,
                    args,
                    line: line_num + 1,
                    binary_line: bin_line,
                }
            },
            None => Instruction {
                negative: false,
                zero: false,
                update: false,
                opcode: tok,
                args,
                line: line_num + 1,
                binary_line: bin_line,
            },
        }
    }

    /// The register code of an operand.
    pub fn reg_to_int(register: &Vec<char>) -> (r: u16)
        ensures
            r == reg_code(register@),
    {
        if register.len() == 2 && register[0] == 'r' {
            let d = register[1];
            assert(register@ =~= seq!['r', d]);
            if d == '0' {
                0
            } else if d == '1' {
                1
            } else if d == '2' {
                2
            } else if d == '3' {
                3
            } else {
                7
            }
        } else {
            assert(register@.len() != 2 || register@[0] != 'r');
            7
        }
    }

    /// The words that encode this instruction.
    pub fn repr(&self) -> (r: Result<Vec<u16>, EncodeError>)
        ensures
            encode_view(r) == encode_spec(self@),
    {
        let (c, sub) = match lookup(&self.opcode) {
            Some(x) => x,
            None => {
                return Err(EncodeError::UnknownOpcode { line: self.line, opcode: self.opcode.clone() });
            },
        };
        let flags: u16 = (if self.negative {
            4u16
        } else {
            0u16
        }) | (if self.zero {
            2u16
        } else {
            0u16
        }) | (if self.update {
            1u16
        } else {
            0u16
        });
        let w0: u16 = c.base() | (flags << 12u16);
        assert(w0 == head_word(c, self@));
        let arity: usize = match c {
            InstructionClass::Moves | InstructionClass::MathDoubles | InstructionClass::RamMoves => 2,
            _ => 1,
        };
        if self.args.len() != arity {
            return Err(EncodeError::ArityError { line: self.line, opcode: self.opcode.clone() });
        }
        assert(self@.args[0] == self.args@[0]@);
        match c {
            InstructionClass::Moves | InstructionClass::MathDoubles | InstructionClass::RamMoves => {
                assert(self@.args[1] == self.args@[1]@);
                let a = Instruction::reg_to_int(&self.args[0]);
                let b = Instruction::reg_to_int(&self.args[1]);
                if a == 7 {
                    return Err(EncodeError::InvalidOperand { line: self.line, operand: self.args[0].clone() });
                }
                let w = w0 | (sub << 5u16) | (a << 3u16) | b;
                let lit = if c == InstructionClass::RamMoves {
                    bracket_literal_exec(&self.args[1])
                } else {
                    hash_literal_exec(&self.args[1])
                };
                finish_with_literal(self.line, w, b, &self.args[1], lit)
            },
            InstructionClass::MathSingles | InstructionClass::Stack => {
                let a = Instruction::reg_to_int(&self.args[0]);
                let w = if c == InstructionClass::MathSingles {
                    w0 | (sub << 3u16) | a
                } else {
                    w0 | (sub << 4u16) | a
                };
                let lit = hash_literal_exec(&self.args[0]);
                finish_with_literal(self.line, w, a, &self.args[0], lit)
            },
            InstructionClass::Jump => {
                match parse_u16(&self.args[0]) {
                    Some(v) => {
                        let words = vec![w0, v];
                        assert(words@ =~= seq![w0, v]);
                        Ok(words)
                    },
                    None => Err(EncodeError::InvalidOperand { line: self.line, operand: self.args[0].clone() }),
                }
            },
        }
    }
}

} // verus!
