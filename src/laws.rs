use vstd::prelude::*;
use crate::instruction::{
    contains_spec, encode_spec, flag_bits, head_word, init_spec, mnemonic_token, reg_code,
    InstructionModel,
};
use crate::opcode::{is_first_prefix, prefix_mnemonic};
use crate::instruction::hash_literal;
use crate::parser::{
    expand_spec, label_line, lemma_param_unique, lemma_run_error_extends, macro_keyword,
    paren_list, find_macro_spec, run_spec, statement_spec, step_spec, word_line, AsmErrorModel,
    MacroModel, ParserModel, is_param_at, is_macro_at, store_insert,
};
use crate::parser::{expansion_output, lemma_expansion_error_extends, strip_spec};
use crate::text::{is_ws, trim_end_spec, trim_spec, trim_start_spec};
use crate::text::{ends_with_char, lemma_first_unique, find_spec, is_first_occurrence, occurs_at, starts_with_spec};
use crate::opcode::{
    class_arity, class_base, lemma_mnemonics_distinct, lookup_spec, opcode_table,
    InstructionClass,
};

verus! {

/// Where a class places its sub-opcode.
pub open spec fn sub_shift(c: InstructionClass) -> u16 {
    match c {
        InstructionClass::MathSingles => 3,
        InstructionClass::Stack => 4,
        InstructionClass::Jump => 0,
        _ => 5,
    }
}

/// The bits of a class's word that hold register codes.
pub open spec fn operand_mask(c: InstructionClass) -> u16 {
    match c {
        InstructionClass::MathSingles => 0x7,
        InstructionClass::Stack => 0xf,
        InstructionClass::Jump => 0,
        _ => 0x1f,
    }
}

/// The word of a register-only instruction of class `c` with sub-opcode `sub`
/// and no flags: the class base, the sub-opcode at the class's shift, and the
/// register codes of the operands below it.
pub open spec fn register_word(c: InstructionClass, sub: u16, args: Seq<Seq<char>>) -> u16 {
    match c {
        InstructionClass::MathSingles => class_base(c) | (sub << 3u16) | reg_code(args[0]),
        InstructionClass::Stack => class_base(c) | (sub << 4u16) | reg_code(args[0]),
        _ => class_base(c) | (sub << 5u16) | (reg_code(args[0]) << 3u16) | reg_code(args[1]),
    }
}

/// The flag field (bits 14..12) of a word.
pub open spec fn flag_field(w: u16) -> u16 {
    (w >> 12u16) & 7u16
}

proof fn lemma_lookup_row(i: int)
    requires
        0 <= i < opcode_table().len(),
    ensures
        lookup_spec(opcode_table()[i].0) == Some((opcode_table()[i].1, opcode_table()[i].2)),
{
    let m = opcode_table()[i].0;
    assert(crate::opcode::is_mnemonic_at(m, i));
    let k = choose|k: int| crate::opcode::is_mnemonic_at(m, k);
    lemma_mnemonics_distinct(k, i);
}

proof fn lemma_two_operand_word(head: u16, sub: u16, a: u16, b: u16)
    requires
        head & 0x701f == 0,
        sub < 8,
        a < 4,
        b < 4,
    ensures
        (head | (sub << 5u16) | (a << 3u16) | b) & 0x7000 == 0,
        (head | (sub << 5u16) | (a << 3u16) | b) & !0x1fu16 == head | (sub << 5u16),
{
    assert((head | (sub << 5u16) | (a << 3u16) | b) & 0x7000 == 0) by (bit_vector)
        requires
            head & 0x701f == 0,
            sub < 8,
            a < 4,
            b < 4,
    ;
    assert((head | (sub << 5u16) | (a << 3u16) | b) & !0x1fu16 == head | (sub << 5u16)) by (bit_vector)
        requires
            head & 0x701f == 0,
            sub < 8,
            a < 4,
            b < 4,
    ;
}

proof fn lemma_one_operand_word(head: u16, sub: u16, a: u16, shift: u16, mask: u16)
    requires
        (shift == 3 && mask == 7) || (shift == 4 && mask == 0xf),
        head & 0x700f == 0,
        sub < 8,
        a < 4,
    ensures
        (head | (sub << shift) | a) & 0x7000 == 0,
        (head | (sub << shift) | a) & !mask == head | (sub << shift),
{
    assert((head | (sub << shift) | a) & 0x7000 == 0) by (bit_vector)
        requires
            (shift == 3 && mask == 7) || (shift == 4 && mask == 0xf),
            head & 0x700f == 0,
            sub < 8,
            a < 4,
    ;
    assert((head | (sub << shift) | a) & !mask == head | (sub << shift)) by (bit_vector)
        requires
            (shift == 3 && mask == 7) || (shift == 4 && mask == 0xf),
            head & 0x700f == 0,
            sub < 8,
            a < 4,
    ;
}

/// Encoding an instruction of any non-jump mnemonic of the opcode table, with
/// no flags and as many register operands (`r0`..`r3`) as its class takes,
/// gives exactly one word: the class base, the sub-opcode at the class's
/// shift and the register codes below it. Its bits above the register field
/// are thus the class base with the sub-opcode, and its flag field is clear.
pub proof fn register_form_is_one_word(ins: InstructionModel, i: int)
    requires
        0 <= i < opcode_table().len(),
        ins.opcode == opcode_table()[i].0,
        opcode_table()[i].1 != InstructionClass::Jump,
        ins.args.len() == class_arity(opcode_table()[i].1),
        forall|j: int| 0 <= j < ins.args.len() ==> reg_code(#[trigger] ins.args[j]) < 4,
        !ins.negative,
        !ins.zero,
        !ins.update,
    ensures
        encode_spec(ins) is Ok,
        encode_spec(ins)->Ok_0.len() == 1,
        encode_spec(ins)->Ok_0[0] == register_word(opcode_table()[i].1, opcode_table()[i].2, ins.args),
        flag_field(encode_spec(ins)->Ok_0[0]) == 0,
        encode_spec(ins)->Ok_0[0] & !operand_mask(opcode_table()[i].1) == class_base(
            opcode_table()[i].1,
        ) | (opcode_table()[i].2 << sub_shift(opcode_table()[i].1)),
{
    lemma_lookup_row(i);
    let c = opcode_table()[i].1;
    let sub = opcode_table()[i].2;
    assert(sub < 8);
    let base = class_base(c);
    assert(flag_bits(false, false, false) == 0) by (bit_vector);
    let head = head_word(c, ins);
    assert(head == base | (0u16 << 12u16));
    assert(base | (0u16 << 12u16) == base) by (bit_vector);
    assert(base & 0x701f == 0) by {
        assert(0x0000u16 & 0x701f == 0) by (bit_vector);
        assert(0x0200u16 & 0x701f == 0) by (bit_vector);
        assert(0x0280u16 & 0x701f == 0) by (bit_vector);
        assert(0x01c0u16 & 0x701f == 0) by (bit_vector);
        assert(0x0300u16 & 0x701f == 0) by (bit_vector);
    }
    assert(base & 0x701f == 0 ==> base & 0x700f == 0) by (bit_vector);
    let a = reg_code(ins.args[0]);
    assert(a < 4);
    let ws = encode_spec(ins)->Ok_0;
    match c {
        InstructionClass::MathSingles => {
            lemma_one_operand_word(head, sub, a, 3, 7);
        },
        InstructionClass::Stack => {
            lemma_one_operand_word(head, sub, a, 4, 0xf);
        },
        _ => {
            let b = reg_code(ins.args[1]);
            assert(b < 4);
            lemma_two_operand_word(head, sub, a, b);
        },
    }
    let w = ws[0];
    assert(w & 0x7000 == 0 ==> (w >> 12u16) & 7u16 == 0) by (bit_vector);
}

proof fn lemma_row_facts(i: int)
    requires
        0 <= i < opcode_table().len(),
    ensures
        opcode_table()[i].2 < 8,
        class_base(opcode_table()[i].1) < 0x1000,
        class_base(opcode_table()[i].1) & 0x7000 == 0,
        opcode_table()[i].0.len() >= 1,
        forall|k: int| 0 <= k < opcode_table()[i].0.len() ==> #[trigger] opcode_table()[i].0[k] != ' ',
{
    assert(0x0000u16 & 0x7000 == 0) by (bit_vector);
    assert(0x0200u16 & 0x7000 == 0) by (bit_vector);
    assert(0x0280u16 & 0x7000 == 0) by (bit_vector);
    assert(0x01c0u16 & 0x7000 == 0) by (bit_vector);
    assert(0x0300u16 & 0x7000 == 0) by (bit_vector);
    assert(0x0800u16 & 0x7000 == 0) by (bit_vector);
}

proof fn lemma_flag_field(base: u16, f: u16, x: u16, y: u16, z: u16)
    requires
        base < 0x1000,
        f < 8,
        x < 0x1000,
        y < 0x1000,
        z < 0x1000,
    ensures
        ((((base | (f << 12u16)) | x) | y) | z) >> 12u16 & 7u16 == f,
        (((base | (f << 12u16)) | x) | y) >> 12u16 & 7u16 == f,
        (base | (f << 12u16)) >> 12u16 & 7u16 == f,
{
    assert(((((base | (f << 12u16)) | x) | y) | z) >> 12u16 & 7u16 == f) by (bit_vector)
        requires
            base < 0x1000,
            f < 8,
            x < 0x1000,
            y < 0x1000,
            z < 0x1000,
    ;
    assert((((base | (f << 12u16)) | x) | y) >> 12u16 & 7u16 == f) by (bit_vector)
        requires
            base < 0x1000,
            f < 8,
            x < 0x1000,
            y < 0x1000,
    ;
    assert((base | (f << 12u16)) >> 12u16 & 7u16 == f) by (bit_vector)
        requires
            base < 0x1000,
            f < 8,
    ;
}

/// The flag field of the first word of every successful encoding holds the
/// instruction's negative, zero and update flags, in bits 14, 13 and 12.
pub proof fn flags_in_first_word(ins: InstructionModel)
    requires
        encode_spec(ins) is Ok,
    ensures
        flag_field(encode_spec(ins)->Ok_0[0]) == flag_bits(ins.negative, ins.zero, ins.update),
{
    let i = choose|i: int| crate::opcode::is_mnemonic_at(ins.opcode, i);
    lemma_row_facts(i);
    let c = opcode_table()[i].1;
    let sub = opcode_table()[i].2;
    let f = flag_bits(ins.negative, ins.zero, ins.update);
    assert(f < 8) by {
        let (n, z, u) = (ins.negative, ins.zero, ins.update);
        assert(((if n { 4u16 } else { 0u16 }) | (if z { 2u16 } else { 0u16 }) | (if u { 1u16 } else { 0u16 })) < 8) by (bit_vector);
    }
    let base = class_base(c);
    let a = reg_code(ins.args[0]);
    assert(sub << 5u16 < 0x1000 && sub << 4u16 < 0x1000 && sub << 3u16 < 0x1000) by (bit_vector)
        requires
            sub < 8,
    ;
    assert(a < 8);
    assert(a << 3u16 < 0x1000) by (bit_vector)
        requires
            a < 8,
    ;
    match c {
        InstructionClass::MathSingles => {
            lemma_flag_field(base, f, sub << 3u16, a, 0);
        },
        InstructionClass::Stack => {
            lemma_flag_field(base, f, sub << 4u16, a, 0);
        },
        InstructionClass::Jump => {
            lemma_flag_field(base, f, 0, 0, 0);
        },
        _ => {
            let b = reg_code(ins.args[1]);
            lemma_flag_field(base, f, sub << 5u16, a << 3u16, b);
        },
    }
}

/// No mnemonic of the opcode table begins another one.
pub proof fn lemma_table_prefix_free(i: int, j: int)
    requires
        0 <= i < opcode_table().len(),
        0 <= j < opcode_table().len(),
        i != j,
    ensures
        !starts_with_spec(opcode_table()[j].0, opcode_table()[i].0),
{
    let (mi, mj) = (opcode_table()[i].0, opcode_table()[j].0);
    if starts_with_spec(mj, mi) {
        assert(mj[0] == mj.subrange(0, mi.len() as int)[0]);
        if mi.len() >= 2 {
            assert(mj[1] == mj.subrange(0, mi.len() as int)[1]);
        }
        assert(mi[0] == mj[0]);
        assert(mi.len() >= 2 ==> mi[1] == mj[1]);
    }
}

/// A statement whose first word is a table mnemonic followed by a suffix
/// without spaces (then, optionally, a space and operands) is read with that
/// mnemonic as its opcode, and with the flags that the suffix names: zero
/// exactly when it holds `z` or `eq`, negative exactly when it holds `n` or
/// `lt`, update exactly when it holds `s`. The operands play no part.
pub proof fn suffix_sets_flags(
    i: int,
    suffix: Seq<char>,
    operands: Seq<char>,
    line: int,
    binary_line: int,
)
    requires
        0 <= i < opcode_table().len(),
        forall|k: int| 0 <= k < suffix.len() ==> #[trigger] suffix[k] != ' ',
        operands.len() == 0 || operands[0] == ' ',
    ensures
        ({
            let ins = init_spec(line, binary_line, opcode_table()[i].0 + suffix + operands);
            &&& ins.opcode == opcode_table()[i].0
            &&& ins.zero == (contains_spec(suffix, seq!['z']) || contains_spec(suffix, seq!['e', 'q']))
            &&& ins.negative == (contains_spec(suffix, seq!['n']) || contains_spec(suffix, seq!['l', 't']))
            &&& ins.update == contains_spec(suffix, seq!['s'])
        }),
{
    let m = opcode_table()[i].0;
    let tok = m + suffix;
    let text = tok + operands;
    lemma_row_facts(i);
    assert forall|k: int| 0 <= k < tok.len() implies #[trigger] tok[k] != ' ' by {
        if k < m.len() {
            assert(tok[k] == m[k]);
        } else {
            assert(tok[k] == suffix[k - m.len()]);
        }
    }
    assert forall|k: int| 0 <= k < tok.len() implies !#[trigger] occurs_at(text, seq![' '], k) by {
        if occurs_at(text, seq![' '], k) {
            assert(text[k] == text.subrange(k, k + 1)[0]);
            assert(text[k] == tok[k]);
        }
    }
    if operands.len() == 0 {
        assert(text =~= tok);
        assert forall|k: int| !occurs_at(tok, seq![' '], k) by {
            if occurs_at(tok, seq![' '], k) {
                assert(0 <= k < tok.len());
            }
        }
        assert(find_spec(tok, seq![' ']) is None);
    } else {
        let n = tok.len() as int;
        assert(text.subrange(n, n + 1) =~= seq![' ']);
        assert(is_first_occurrence(text, seq![' '], n));
        let c = choose|c: int| is_first_occurrence(text, seq![' '], c);
        lemma_first_unique(text, seq![' '], c, n);
        assert(text.subrange(0, n) =~= tok);
    }
    assert(mnemonic_token(text) == tok);
    assert(tok.subrange(0, m.len() as int) =~= m);
    assert forall|j: int| 0 <= j < opcode_table().len() && j != i implies !starts_with_spec(
        tok,
        #[trigger] opcode_table()[j].0,
    ) by {
        let mj = opcode_table()[j].0;
        lemma_table_prefix_free(i, j);
        lemma_table_prefix_free(j, i);
        if starts_with_spec(tok, mj) {
            if mj.len() <= m.len() {
                assert(m.subrange(0, mj.len() as int) =~= tok.subrange(0, mj.len() as int));
                assert(starts_with_spec(m, mj));
            } else {
                assert(mj.subrange(0, m.len() as int) =~= tok.subrange(0, mj.len() as int).subrange(0, m.len() as int));
                assert(starts_with_spec(mj, m));
            }
        }
    }
    assert(is_first_prefix(tok, i));
    let c = choose|c: int| is_first_prefix(tok, c);
    assert(c == i);
    assert(prefix_mnemonic(tok) == Some(m));
    assert(tok.subrange(m.len() as int, tok.len() as int) =~= suffix);
}

/// A macro called with as many arguments as it has parameters expands to as
/// many instructions as its body holds. In each, an operand equal to a
/// parameter becomes the argument at that parameter's (first) position, every
/// other operand stays, and the mnemonic, flags and line numbers are kept.
pub proof fn expansion_substitutes(m: MacroModel, actuals: Seq<Seq<char>>)
    requires
        actuals.len() == m.params.len(),
    ensures
        expand_spec(m, actuals).len() == m.code.len(),
        forall|i: int|
            0 <= i < m.code.len() ==> {
                let e = #[trigger] expand_spec(m, actuals)[i];
                &&& e.opcode == m.code[i].opcode
                &&& e.negative == m.code[i].negative
                &&& e.zero == m.code[i].zero
                &&& e.update == m.code[i].update
                &&& e.line == m.code[i].line
                &&& e.binary_line == m.code[i].binary_line
                &&& e.args.len() == m.code[i].args.len()
            },
        forall|i: int, j: int, k: int|
            #![trigger expand_spec(m, actuals)[i].args[j], m.params[k]]
            0 <= i < m.code.len() && 0 <= j < m.code[i].args.len() && 0 <= k < m.params.len()
                && m.params[k] == m.code[i].args[j] && (forall|l: int|
                0 <= l < k ==> m.params[l] != m.code[i].args[j]) ==> expand_spec(m, actuals)[i].args[j]
                == actuals[k],
        forall|i: int, j: int|
            0 <= i < m.code.len() && 0 <= j < m.code[i].args.len() && (forall|l: int|
                0 <= l < m.params.len() ==> m.params[l] != m.code[i].args[j]) ==> #[trigger] expand_spec(
                m,
                actuals,
            )[i].args[j] == m.code[i].args[j],
{
    assert forall|i: int, j: int, k: int|
        #![trigger expand_spec(m, actuals)[i].args[j], m.params[k]]
        0 <= i < m.code.len() && 0 <= j < m.code[i].args.len() && 0 <= k < m.params.len()
            && m.params[k] == m.code[i].args[j] && (forall|l: int|
            0 <= l < k ==> m.params[l] != m.code[i].args[j]) implies expand_spec(m, actuals)[i].args[j]
        == actuals[k] by {
        let a = m.code[i].args[j];
        assert(is_param_at(m.params, a, k));
        let c = choose|c: int| is_param_at(m.params, a, c);
        lemma_param_unique(m.params, a, c, k);
    }
    assert forall|i: int, j: int|
        0 <= i < m.code.len() && 0 <= j < m.code[i].args.len() && (forall|l: int|
            0 <= l < m.params.len() ==> m.params[l] != m.code[i].args[j]) implies #[trigger] expand_spec(
        m,
        actuals,
    )[i].args[j] == m.code[i].args[j] by {
        let a = m.code[i].args[j];
        assert forall|c: int| !is_param_at(m.params, a, c) by {
            if 0 <= c < m.params.len() {
                assert(m.params[c] != a);
            }
        }
    }
}

/// A call whose argument count differs from the called macro's parameter
/// count fails with `MacroArityMismatch`, citing the macro's definition line.
pub proof fn arity_mismatch_fails(
    st: ParserModel,
    index: int,
    t: Seq<char>,
    a: int,
    actuals: Seq<Seq<char>>,
    k: int,
)
    requires
        t.len() > 0,
        t[0] == '@',
        !ends_with_char(t, ':'),
        !starts_with_spec(t, macro_keyword()),
        paren_list(t) == Some((a, actuals)),
        find_macro_spec(st.macros, t.subrange(1, a)) == Some(k),
        actuals.len() != st.macros[k].params.len(),
    ensures
        statement_spec(st, index, t) == Err::<(ParserModel, Seq<char>), AsmErrorModel>(
            AsmErrorModel::MacroArityMismatch {
                line: index + 1,
                name: t.subrange(1, a),
                definition_line: st.macros[k].line,
            },
        ),
{
    assert(t != seq!['}']) by {
        if t == seq!['}'] {
            assert(t[0] == '}');
        }
    }
}

/// Assembly stops at the first failing line: when the lines before the line
/// at 0-based index `k` assemble to state `s` and that line fails from `s`, the whole
/// text fails with that same error, and no output is produced.
pub proof fn failing_line_aborts(
    st: ParserModel,
    lines: Seq<Seq<char>>,
    k: int,
    s: ParserModel,
    out: Seq<char>,
)
    requires
        0 <= k < lines.len(),
        run_spec(st, lines.subrange(0, k)) == Ok::<(ParserModel, Seq<char>), AsmErrorModel>((s, out)),
        step_spec(s, k, lines[k]) is Err,
    ensures
        run_spec(st, lines) == Err::<(ParserModel, Seq<char>), AsmErrorModel>(
            step_spec(s, k, lines[k])->Err_0,
        ),
{
    assert(lines.subrange(0, k + 1).drop_last() =~= lines.subrange(0, k));
    lemma_run_error_extends(st, lines, k + 1);
}

/// `r0`..`r3` get the register codes 0..3; every other operand gets the
/// immediate/indirect code `0b111`.
pub proof fn register_aliases(s: Seq<char>)
    ensures
        s == seq!['r', '0'] ==> reg_code(s) == 0,
        s == seq!['r', '1'] ==> reg_code(s) == 1,
        s == seq!['r', '2'] ==> reg_code(s) == 2,
        s == seq!['r', '3'] ==> reg_code(s) == 3,
        s != seq!['r', '0'] && s != seq!['r', '1'] && s != seq!['r', '2'] && s != seq!['r', '3']
            ==> reg_code(s) == 7,
{
}

/// A two-operand `add`-family or `mov` instruction whose first operand is a
/// register and whose second operand is not a register encodes exactly when
/// that operand is `#` and a signed 16-bit literal, and then takes that
/// literal as its second word; otherwise it fails with `InvalidOperand`
/// naming the operand.
pub proof fn immediate_operand(ins: InstructionModel, i: int)
    requires
        0 <= i < opcode_table().len(),
        ins.opcode == opcode_table()[i].0,
        opcode_table()[i].1 == InstructionClass::MathDoubles || opcode_table()[i].1
            == InstructionClass::Moves,
        reg_code(ins.args[0]) != 7,
        ins.args.len() == 2,
        reg_code(ins.args[1]) == 7,
    ensures
        match hash_literal(ins.args[1]) {
            Some(v) => encode_spec(ins) is Ok && encode_spec(ins)->Ok_0.len() == 2
                && encode_spec(ins)->Ok_0[1] == v,
            None => encode_spec(ins) == Err::<Seq<u16>, crate::instruction::EncodeErrorModel>(
                crate::instruction::EncodeErrorModel::InvalidOperand {
                    line: ins.line,
                    operand: ins.args[1],
                },
            ),
        },
{
    lemma_lookup_row(i);
}

/// An instruction of a two-operand class (`mov`, `str`, `load`, the
/// `add` family) whose first operand is not a register `r0`..`r3` fails with
/// `InvalidOperand` naming that operand.
pub proof fn first_operand_must_be_register(ins: InstructionModel, i: int)
    requires
        0 <= i < opcode_table().len(),
        ins.opcode == opcode_table()[i].0,
        class_arity(opcode_table()[i].1) == 2,
        ins.args.len() == 2,
        reg_code(ins.args[0]) == 7,
    ensures
        encode_spec(ins) == Err::<Seq<u16>, crate::instruction::EncodeErrorModel>(
            crate::instruction::EncodeErrorModel::InvalidOperand {
                line: ins.line,
                operand: ins.args[0],
            },
        ),
{
    lemma_lookup_row(i);
}

/// A label statement `name:` followed by a plain instruction that encodes,
/// outside a macro definition: the label's marker carries the output position
/// that tags the instruction's output line, and only the instruction moves it on.
pub proof fn label_marks_next_instruction(
    st: ParserModel,
    name: Seq<char>,
    label_index: int,
    index: int,
    u: Seq<char>,
)
    requires
        st.current is None,
        forall|k: int| 0 <= k < name.len() ==> #[trigger] name[k] != ':',
        u.len() > 0,
        u[0] != '@',
        u[0] != '}',
        !ends_with_char(u, ':'),
        encode_spec(init_spec(index, st.next_line, u)) is Ok,
    ensures
        statement_spec(st, label_index, name.push(':')) == Ok::<
            (ParserModel, Seq<char>),
            AsmErrorModel,
        >((st, label_line(name, st.next_line))),
        statement_spec(st, index, u) == Ok::<(ParserModel, Seq<char>), AsmErrorModel>(
            (
                ParserModel { next_line: st.next_line + 1, ..st },
                word_line(st.next_line, encode_spec(init_spec(index, st.next_line, u))->Ok_0),
            ),
        ),
{
    let t = name.push(':');
    let n = name.len() as int;
    assert(t.subrange(n, n + 1) =~= seq![':']);
    assert(is_first_occurrence(t, seq![':'], n)) by {
        assert forall|j: int| 0 <= j < n implies !#[trigger] occurs_at(t, seq![':'], j) by {
            if occurs_at(t, seq![':'], j) {
                assert(t[j] == t.subrange(j, j + 1)[0]);
                assert(name[j] != ':');
            }
        }
    }
    let c = choose|c: int| is_first_occurrence(t, seq![':'], c);
    lemma_first_unique(t, seq![':'], c, n);
    assert(t.subrange(0, n) =~= name);
    assert(!starts_with_spec(u, macro_keyword())) by {
        if starts_with_spec(u, macro_keyword()) {
            assert(u[0] == u.subrange(0, 6)[0]);
        }
    }
    assert(u != seq!['}']) by {
        if u == seq!['}'] {
            assert(u[0] == '}');
        }
    }
}

/// A line without `;` and without white space at its ends, read outside a
/// comment, is left as it is by comment stripping.
pub proof fn lemma_plain_line(t: Seq<char>)
    requires
        forall|k: int| 0 <= k < t.len() ==> #[trigger] t[k] != ';',
        t.len() > 0 ==> !is_ws(t[0]) && !is_ws(t.last()),
    ensures
        strip_spec(false, t) == (false, Some(t)),
{
    assert forall|p: Seq<char>, i: int| p.len() > 0 && p.last() == ';' implies !occurs_at(t, p, i) by {
        if occurs_at(t, p, i) {
            let q = p.len() - 1;
            assert(t[i + q] == t.subrange(i, i + p.len())[q]);
        }
    }
    let semi = seq![';'];
    let end_mark = seq!['=', ';'];
    let start_mark = seq![';', '='];
    assert(semi.last() == ';' && end_mark.last() == ';');
    assert(find_spec(t, end_mark) is None);
    assert forall|i: int| !occurs_at(t, start_mark, i) by {
        if occurs_at(t, start_mark, i) {
            assert(t[i] == t.subrange(i, i + 2)[0]);
        }
    }
    assert(find_spec(t, start_mark) is None);
    assert(find_spec(t, semi) is None);
    assert(trim_start_spec(t) == t);
    assert(trim_end_spec(t) == t);
    assert(trim_spec(t) == t);
}

/// A source line `name:` followed by a line holding a plain instruction that
/// encodes, outside comments and macro definitions: the label's marker
/// carries the output position that tags the instruction's output line.
pub proof fn label_line_marks_next_line(
    st: ParserModel,
    name: Seq<char>,
    index: int,
    u: Seq<char>,
)
    requires
        !st.in_comment,
        st.current is None,
        name.len() > 0,
        !is_ws(name[0]),
        forall|k: int| 0 <= k < name.len() ==> #[trigger] name[k] != ':' && name[k] != ';',
        u.len() > 0,
        !is_ws(u[0]),
        !is_ws(u.last()),
        forall|k: int| 0 <= k < u.len() ==> #[trigger] u[k] != ';',
        u[0] != '@',
        u[0] != '}',
        !ends_with_char(u, ':'),
        encode_spec(init_spec(index + 1, st.next_line, u)) is Ok,
    ensures
        step_spec(st, index, name.push(':')) == Ok::<(ParserModel, Seq<char>), AsmErrorModel>(
            (st, label_line(name, st.next_line)),
        ),
        step_spec(st, index + 1, u) == Ok::<(ParserModel, Seq<char>), AsmErrorModel>(
            (
                ParserModel { next_line: st.next_line + 1, ..st },
                word_line(
                    st.next_line,
                    encode_spec(init_spec(index + 1, st.next_line, u))->Ok_0,
                ),
            ),
        ),
{
    let t = name.push(':');
    assert forall|k: int| 0 <= k < t.len() implies #[trigger] t[k] != ';' by {
        if k < name.len() {
            assert(t[k] == name[k]);
        }
    }
    assert(t[0] == name[0]);
    lemma_plain_line(t);
    lemma_plain_line(u);
    assert(ParserModel { in_comment: false, ..st } == st);
    label_marks_next_instruction(st, name, index, index + 1, u);
}

/// A sequence of instructions produces output exactly when each of them
/// encodes.
pub proof fn expansion_ok_iff_all_encode(body: Seq<InstructionModel>)
    ensures
        expansion_output(body) is Ok <==> forall|i: int|
            0 <= i < body.len() ==> #[trigger] encode_spec(body[i]) is Ok,
    decreases body.len(),
{
    if body.len() > 0 {
        let init = body.drop_last();
        expansion_ok_iff_all_encode(init);
        assert forall|i: int| 0 <= i < init.len() implies init[i] == body[i] by {}
        if forall|i: int| 0 <= i < body.len() ==> #[trigger] encode_spec(body[i]) is Ok {
            assert forall|i: int| 0 <= i < init.len() implies #[trigger] encode_spec(init[i]) is Ok by {
                assert(encode_spec(body[i]) is Ok);
            }
            assert(encode_spec(body[body.len() - 1]) is Ok);
        }
        if expansion_output(body) is Ok {
            assert forall|i: int| 0 <= i < body.len() implies #[trigger] encode_spec(body[i]) is Ok by {
                if i < init.len() {
                    assert(encode_spec(init[i]) is Ok);
                }
            }
        }
    }
}

/// The output of a sequence of instructions, when one fails to encode, is
/// the error of the first that fails.
pub proof fn expansion_fails_at_first_error(body: Seq<InstructionModel>, j: int)
    requires
        0 <= j < body.len(),
        forall|i: int| 0 <= i < j ==> #[trigger] encode_spec(body[i]) is Ok,
        encode_spec(body[j]) is Err,
    ensures
        expansion_output(body) == Err::<Seq<char>, crate::instruction::EncodeErrorModel>(
            encode_spec(body[j])->Err_0,
        ),
{
    let pre = body.subrange(0, j);
    expansion_ok_iff_all_encode(pre);
    assert forall|i: int| 0 <= i < pre.len() implies #[trigger] encode_spec(pre[i]) is Ok by {
        assert(pre[i] == body[i]);
    }
    assert(body.subrange(0, j + 1).drop_last() =~= pre);
    lemma_expansion_error_extends(body, j + 1);
}

/// A call statement `@name(args)` of a stored macro with as many arguments as
/// parameters leaves the state as it is and emits the output of the macro's
/// body with the arguments put in (one line per body instruction); when an
/// instruction of that body fails to encode, the call fails with `InMacro`,
/// naming the macro and the call's line.
pub proof fn macro_call_emits_expansion(
    st: ParserModel,
    index: int,
    t: Seq<char>,
    a: int,
    actuals: Seq<Seq<char>>,
    k: int,
)
    requires
        t.len() > 0,
        t[0] == '@',
        !ends_with_char(t, ':'),
        !starts_with_spec(t, macro_keyword()),
        paren_list(t) == Some((a, actuals)),
        find_macro_spec(st.macros, t.subrange(1, a)) == Some(k),
        actuals.len() == st.macros[k].params.len(),
    ensures
        statement_spec(st, index, t) == match expansion_output(
            expand_spec(st.macros[k], actuals),
        ) {
            Ok(out) => Ok::<(ParserModel, Seq<char>), AsmErrorModel>((st, out)),
            Err(e) => Err(AsmErrorModel::InMacro { line: index + 1, name: t.subrange(1, a), cause: e }),
        },
{
    assert(t != seq!['}']) by {
        if t == seq!['}'] {
            assert(t[0] == '}');
        }
    }
}

proof fn lemma_trim_blank(s: Seq<char>)
    requires
        forall|k: int| 0 <= k < s.len() ==> #[trigger] is_ws(s[k]),
    ensures
        trim_start_spec(s) == Seq::<char>::empty(),
    decreases s.len(),
{
    if s.len() > 0 {
        assert(is_ws(s[0]));
        let rest = s.drop_first();
        assert forall|k: int| 0 <= k < rest.len() implies #[trigger] is_ws(rest[k]) by {
            assert(rest[k] == s[k + 1]);
        }
        lemma_trim_blank(rest);
    } else {
        assert(s =~= Seq::<char>::empty());
    }
}

/// A blank line (white space only) outside a comment changes no state and
/// emits nothing; so blank lines between a label and the next instruction
/// leave the label's position and the instruction's position equal.
pub proof fn blank_line_changes_nothing(st: ParserModel, index: int, line: Seq<char>)
    requires
        !st.in_comment,
        forall|k: int| 0 <= k < line.len() ==> #[trigger] is_ws(line[k]),
    ensures
        step_spec(st, index, line) == Ok::<(ParserModel, Seq<char>), AsmErrorModel>(
            (st, Seq::empty()),
        ),
{
    assert forall|p: Seq<char>, i: int| p.len() > 0 && p.last() == ';' implies !occurs_at(line, p, i) by {
        if occurs_at(line, p, i) {
            let q = p.len() - 1;
            assert(line[i + q] == line.subrange(i, i + p.len())[q]);
            assert(is_ws(line[i + q]));
        }
    }
    let semi = seq![';'];
    let end_mark = seq!['=', ';'];
    let start_mark = seq![';', '='];
    assert(semi.last() == ';' && end_mark.last() == ';');
    assert(find_spec(line, end_mark) is None);
    assert forall|i: int| !occurs_at(line, start_mark, i) by {
        if occurs_at(line, start_mark, i) {
            assert(line[i] == line.subrange(i, i + 2)[0]);
            assert(is_ws(line[i]));
        }
    }
    assert(find_spec(line, start_mark) is None);
    assert(find_spec(line, semi) is None);
    lemma_trim_blank(line);
    assert(trim_end_spec(Seq::<char>::empty()) == Seq::<char>::empty());
    assert(trim_spec(line) == Seq::<char>::empty());
    let e = Seq::<char>::empty();
    assert(!ends_with_char(e, ':'));
    assert(!starts_with_spec(e, macro_keyword()));
    assert(e != seq!['}']) by {
        assert(seq!['}'].len() == 1);
    }
    assert(ParserModel { in_comment: false, ..st } == st);
}

/// No two stored macros share a name.
pub open spec fn names_unique(macros: Seq<MacroModel>) -> bool {
    forall|i: int, j: int|
        0 <= i < j < macros.len() ==> (#[trigger] macros[i]).name != (#[trigger] macros[j]).name
}

/// Defining a macro keeps the store's names unique, and a later lookup of
/// its name finds exactly that macro: a redefinition replaces the old one.
pub proof fn store_insert_replaces(macros: Seq<MacroModel>, m: MacroModel)
    requires
        names_unique(macros),
    ensures
        names_unique(store_insert(macros, m)),
        find_macro_spec(store_insert(macros, m), m.name) is Some,
        store_insert(macros, m)[find_macro_spec(store_insert(macros, m), m.name)->Some_0] == m,
        store_insert(macros, m).len() <= macros.len() + 1,
{
    let s2 = store_insert(macros, m);
    let pos: int = match find_macro_spec(macros, m.name) {
        Some(i) => i,
        None => macros.len() as int,
    };
    if find_macro_spec(macros, m.name) is None {
        assert forall|j: int| 0 <= j < macros.len() implies macros[j].name != m.name by {
            if macros[j].name == m.name {
                assert forall|l: int| 0 <= l < j implies (#[trigger] macros[l]).name != m.name by {
                    assert(macros[l].name != macros[j].name);
                }
                assert(is_macro_at(macros, m.name, j));
            }
        }
    } else {
        let i = choose|i: int| is_macro_at(macros, m.name, i);
        assert forall|j: int| 0 <= j < macros.len() && j != i implies macros[j].name != m.name by {
            if j < i {
                assert(macros[j].name != macros[i].name);
            } else {
                assert(macros[i].name != macros[j].name);
            }
        }
    }
    assert(s2[pos] == m);
    assert(is_macro_at(s2, m.name, pos));
    let c = choose|c: int| is_macro_at(s2, m.name, c);
    if c < pos {
        assert(s2[c].name != m.name);
    } else if c > pos {
        assert(s2[pos].name != m.name);
    }
}

} // verus!
