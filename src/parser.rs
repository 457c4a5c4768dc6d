use vstd::prelude::*;
use crate::instruction::{
    encode_spec, encode_view, init_spec, EncodeError, EncodeErrorModel, Instruction,
    InstructionModel,
};
use crate::number::{dec_spec, hex_word_spec, push_dec, push_hex_word};
use crate::text::{
    chars_of, ends_with_char, find, find_char, find_spec, lemma_split_nonempty, same_text, slice,
    split, split_spec, starts_with, starts_with_spec, string_of, trim, trim_each, trim_pieces,
    trim_spec, views,
};

verus! {

/// Why a source text could not be assembled.
#[derive(Clone, Debug, PartialEq, Eq)]
pub enum AsmError {
    /// A stray `}`, or a malformed macro header or call.
    StructuralError { line: usize },
    /// A call names a macro that was never defined.
    MacroNotFound { line: usize, name: Vec<char> },
    /// A call's argument count differs from the macro's parameter count.
    MacroArityMismatch { line: usize, name: Vec<char>, definition_line: usize },
    /// A plain instruction could not be encoded.
    Encoding(EncodeError),
    /// An instruction of a macro body could not be encoded at a call.
    InMacro { line: usize, name: Vec<char>, cause: EncodeError },
}

pub enum AsmErrorModel {
    StructuralError { line: int },
    MacroNotFound { line: int, name: Seq<char> },
    MacroArityMismatch { line: int, name: Seq<char>, definition_line: int },
    Encoding(EncodeErrorModel),
    InMacro { line: int, name: Seq<char>, cause: EncodeErrorModel },
}

impl View for AsmError {
    type V = AsmErrorModel;

    open spec fn view(&self) -> AsmErrorModel {
        match self {
            AsmError::StructuralError { line } => AsmErrorModel::StructuralError { line: *line as int },
            AsmError::MacroNotFound { line, name } => AsmErrorModel::MacroNotFound {
                line: *line as int,
                name: name@,
            },
            AsmError::MacroArityMismatch { line, name, definition_line } =>
                AsmErrorModel::MacroArityMismatch {
                line: *line as int,
                name: name@,
                definition_line: *definition_line as int,
            },
            AsmError::Encoding(e) => AsmErrorModel::Encoding(e@),
            AsmError::InMacro { line, name, cause } => AsmErrorModel::InMacro {
                line: *line as int,
                name: name@,
                cause: cause@,
            },
        }
    }
}

/// A named, parameterised template of instructions.
#[derive(Clone, Debug)]
pub struct Macro {
    pub name: Vec<char>,
    pub params: Vec<Vec<char>>,
    pub code: Vec<Instruction>,
    /// 1-based source line of the definition.
    pub line: usize,
}

pub struct MacroModel {
    pub name: Seq<char>,
    pub params: Seq<Seq<char>>,
    pub code: Seq<InstructionModel>,
    pub line: int,
}

pub open spec fn instrs_view(v: Seq<Instruction>) -> Seq<InstructionModel> {
    v.map_values(|i: Instruction| i@)
}

impl View for Macro {
    type V = MacroModel;

    open spec fn view(&self) -> MacroModel {
        MacroModel {
            name: self.name@,
            params: views(self.params@),
            code: instrs_view(self.code@),
            line: self.line as int,
        }
    }
}

pub open spec fn macros_view(v: Seq<Macro>) -> Seq<MacroModel> {
    v.map_values(|m: Macro| m@)
}

/// The scanner state of one assembler run.
pub struct AsmParser {
    is_comment: bool,
    current_macro: Option<Macro>,
    macro_list: Vec<Macro>,
    out_line: usize,
}

pub struct ParserModel {
    /// Inside a multi-line comment.
    pub in_comment: bool,
    /// The macro whose body is being captured.
    pub current: Option<MacroModel>,
    /// The macro store; a name is looked up at its first entry.
    pub macros: Seq<MacroModel>,
    /// Output position of the next plain instruction.
    pub next_line: int,
}

impl View for AsmParser {
    type V = ParserModel;

    closed spec fn view(&self) -> ParserModel {
        ParserModel {
            in_comment: self.is_comment,
            current: match self.current_macro {
                Some(m) => Some(m@),
                None => None,
            },
            macros: macros_view(self.macro_list@),
            next_line: self.out_line as int,
        }
    }
}

pub open spec fn is_macro_at(macros: Seq<MacroModel>, name: Seq<char>, i: int) -> bool {
    0 <= i < macros.len() && macros[i].name == name && forall|j: int|
        0 <= j < i ==> (#[trigger] macros[j]).name != name
}

/// Index of the first stored macro called `name`.
pub open spec fn find_macro_spec(macros: Seq<MacroModel>, name: Seq<char>) -> Option<int> {
    if exists|i: int| is_macro_at(macros, name, i) {
        Some(choose|i: int| is_macro_at(macros, name, i))
    } else {
        None
    }
}

/// The store after defining `m`: it replaces the macro of the same name, or
/// is added at the end.
pub open spec fn store_insert(macros: Seq<MacroModel>, m: MacroModel) -> Seq<MacroModel> {
    match find_macro_spec(macros, m.name) {
        Some(i) => macros.update(i, m),
        None => macros.push(m),
    }
}

pub open spec fn is_param_at(params: Seq<Seq<char>>, a: Seq<char>, k: int) -> bool {
    0 <= k < params.len() && params[k] == a && forall|j: int| 0 <= j < k ==> #[trigger] params[j] != a
}

/// An operand of a macro body at a call: a formal parameter becomes the
/// actual argument in its position; anything else stays.
pub open spec fn subst_arg(params: Seq<Seq<char>>, actuals: Seq<Seq<char>>, a: Seq<char>) -> Seq<char> {
    if exists|k: int| is_param_at(params, a, k) {
        actuals[choose|k: int| is_param_at(params, a, k)]
    } else {
        a
    }
}

pub open spec fn subst_instr(
    params: Seq<Seq<char>>,
    actuals: Seq<Seq<char>>,
    ins: InstructionModel,
) -> InstructionModel {
    InstructionModel { args: ins.args.map_values(|a: Seq<char>| subst_arg(params, actuals, a)), ..ins }
}

/// The body of `m` with the actual arguments put in for the parameters.
pub open spec fn expand_spec(m: MacroModel, actuals: Seq<Seq<char>>) -> Seq<InstructionModel> {
    m.code.map_values(|ins: InstructionModel| subst_instr(m.params, actuals, ins))
}

/// The words, each as a hexadecimal literal followed by a tab.
pub open spec fn hex_words(ws: Seq<u16>) -> Seq<char>
    decreases ws.len(),
{
    if ws.len() == 0 {
        Seq::<char>::empty()
    } else {
        hex_words(ws.drop_last()) + hex_word_spec(ws.last()) + seq!['\t']
    }
}

/// The output line of an encoded instruction: `<n>:<word>\t...\n`.
pub open spec fn word_line(n: int, ws: Seq<u16>) -> Seq<char> {
    dec_spec(n as nat) + seq![':'] + hex_words(ws) + seq!['\n']
}

/// The marker line of a label: `(<name>): <n>\n`.
pub open spec fn label_line(name: Seq<char>, n: int) -> Seq<char> {
    seq!['('] + name + seq![')', ':', ' '] + dec_spec(n as nat) + seq!['\n']
}

/// The output of a sequence of instructions, or the first encoding error.
pub open spec fn expansion_output(body: Seq<InstructionModel>) -> Result<Seq<char>, EncodeErrorModel>
    decreases body.len(),
{
    if body.len() == 0 {
        Ok(Seq::<char>::empty())
    } else {
        match expansion_output(body.drop_last()) {
            Err(e) => Err(e),
            Ok(out) => match encode_spec(body.last()) {
                Ok(ws) => Ok(out + word_line(body.last().binary_line, ws)),
                Err(e) => Err(e),
            },
        }
    }
}

/// Comment stripping: the new comment mode, and the trimmed text that is left
/// to read (none when the whole line lies inside a comment).
pub open spec fn strip_spec(in_comment: bool, line: Seq<char>) -> (bool, Option<Seq<char>>) {
    let (c1, after) = match find_spec(line, seq!['=', ';']) {
        Some(i) => (false, Some(line.subrange(i + 2, line.len() as int))),
        None => if in_comment {
            (true, None)
        } else {
            (false, Some(line))
        },
    };
    match after {
        None => (c1, None),
        Some(t) => {
            let (c2, t2) = match find_spec(t, seq![';', '=']) {
                Some(i) => (true, t.subrange(0, i)),
                None => (c1, t),
            };
            let t3 = match find_spec(t2, seq![';']) {
                Some(i) => t2.subrange(0, i),
                None => t2,
            };
            (c2, Some(trim_spec(t3)))
        },
    }
}

pub open spec fn macro_keyword() -> Seq<char> {
    seq!['@', 'm', 'a', 'c', 'r', 'o']
}

/// The parenthesised list of `t` split at commas and trimmed, with the
/// position of `(`, when `(` comes before `)`.
pub open spec fn paren_list(t: Seq<char>) -> Option<(int, Seq<Seq<char>>)> {
    match (find_spec(t, seq!['(']), find_spec(t, seq![')'])) {
        (Some(a), Some(b)) => if a + 1 <= b {
            Some((a, trim_each(split_spec(t.subrange(a + 1, b), ','))))
        } else {
            None
        },
        _ => None,
    }
}

/// A macro header `@macro <name>(<params>)` opens a capture.
pub open spec fn macro_def_spec(st: ParserModel, line_no: int, t: Seq<char>) -> Result<
    (ParserModel, Seq<char>),
    AsmErrorModel,
> {
    match paren_list(t) {
        Some((a, params)) => {
            let head = t.subrange(0, a);
            if starts_with_spec(head, macro_keyword().push(' ')) {
                let m = MacroModel {
                    name: trim_spec(head.subrange(7, a)),
                    params,
                    code: Seq::empty(),
                    line: line_no,
                };
                Ok((ParserModel { current: Some(m), ..st }, Seq::empty()))
            } else {
                Err(AsmErrorModel::StructuralError { line: line_no })
            }
        },
        None => Err(AsmErrorModel::StructuralError { line: line_no }),
    }
}

/// A call `@<name>(<args>)` emits the encoded, substituted macro body.
pub open spec fn macro_call_spec(st: ParserModel, line_no: int, t: Seq<char>) -> Result<
    (ParserModel, Seq<char>),
    AsmErrorModel,
> {
    match paren_list(t) {
        Some((a, actuals)) => {
            let name = t.subrange(1, a);
            match find_macro_spec(st.macros, name) {
                None => Err(AsmErrorModel::MacroNotFound { line: line_no, name }),
                Some(k) => {
                    let m = st.macros[k];
                    if actuals.len() != m.params.len() {
                        Err(
                            AsmErrorModel::MacroArityMismatch {
                                line: line_no,
                                name,
                                definition_line: m.line,
                            },
                        )
                    } else {
                        match expansion_output(expand_spec(m, actuals)) {
                            Ok(out) => Ok((st, out)),
                            Err(e) => Err(AsmErrorModel::InMacro { line: line_no, name, cause: e }),
                        }
                    }
                },
            }
        },
        None => Err(AsmErrorModel::StructuralError { line: line_no }),
    }
}

/// A plain instruction at 0-based line `index` is captured into the open
/// macro, or encoded. An instruction outside a macro definition moves the
/// output counter on (also when it fails to encode); a captured one records
/// the counter's value at capture time and leaves it.
pub open spec fn instruction_spec(st: ParserModel, index: int, t: Seq<char>) -> Result<
    (ParserModel, Seq<char>),
    AsmErrorModel,
> {
    let ins = init_spec(index, st.next_line, t);
    match st.current {
        Some(m) => Ok(
            (
                ParserModel { current: Some(MacroModel { code: m.code.push(ins), ..m }), ..st },
                Seq::empty(),
            ),
        ),
        None => match encode_spec(ins) {
            Ok(ws) => Ok(
                (ParserModel { next_line: st.next_line + 1, ..st }, word_line(st.next_line, ws)),
            ),
            Err(e) => Err(AsmErrorModel::Encoding(e)),
        },
    }
}

/// A plain instruction statement: not a label, macro header, `}`, blank or call.
pub open spec fn is_plain_statement(t: Seq<char>) -> bool {
    !ends_with_char(t, ':') && !starts_with_spec(t, macro_keyword()) && t != seq!['}'] && t.len()
        > 0 && t[0] != '@'
}

/// One comment-free, trimmed statement at 0-based line `index`; errors cite
/// the 1-based line.
pub open spec fn statement_spec(st: ParserModel, index: int, t: Seq<char>) -> Result<
    (ParserModel, Seq<char>),
    AsmErrorModel,
> {
    if ends_with_char(t, ':') {
        let name = match find_spec(t, seq![':']) {
            Some(i) => t.subrange(0, i),
            None => t,
        };
        Ok((st, label_line(name, st.next_line)))
    } else if starts_with_spec(t, macro_keyword()) {
        macro_def_spec(st, index + 1, t)
    } else if t == seq!['}'] {
        match st.current {
            Some(m) => Ok(
                (ParserModel { current: None, macros: store_insert(st.macros, m), ..st }, Seq::empty()),
            ),
            None => Err(AsmErrorModel::StructuralError { line: index + 1 }),
        }
    } else if t.len() == 0 {
        Ok((st, Seq::empty()))
    } else if t[0] == '@' {
        macro_call_spec(st, index + 1, t)
    } else {
        instruction_spec(st, index, t)
    }
}

/// One source line at 0-based line `index`: the next state and the text emitted.
pub open spec fn step_spec(st: ParserModel, index: int, line: Seq<char>) -> Result<
    (ParserModel, Seq<char>),
    AsmErrorModel,
> {
    let (c, t) = strip_spec(st.in_comment, line);
    let st1 = ParserModel { in_comment: c, ..st };
    match t {
        None => Ok((st1, Seq::empty())),
        Some(t) => statement_spec(st1, index, t),
    }
}

/// The state after a line whose statement fails: the comment mode, read
/// before the statement, has moved, and so has the output counter where the
/// statement is a plain instruction outside a macro definition (the counter
/// moves on before such an instruction is read); the macro store and the
/// open macro are as they were.
pub open spec fn failed_step_state(st: ParserModel, line: Seq<char>) -> ParserModel {
    let (c, t) = strip_spec(st.in_comment, line);
    let moved = match t {
        Some(t) => is_plain_statement(t) && st.current is None,
        None => false,
    };
    ParserModel {
        in_comment: c,
        next_line: if moved {
            st.next_line + 1
        } else {
            st.next_line
        },
        ..st
    }
}

/// The state left by a run that fails: the state before its first failing
/// line, with that line's comment mode.
pub open spec fn failed_run_state(st: ParserModel, lines: Seq<Seq<char>>) -> ParserModel
    decreases lines.len(),
{
    if lines.len() == 0 {
        st
    } else {
        match run_spec(st, lines.drop_last()) {
            Err(_) => failed_run_state(st, lines.drop_last()),
            Ok((st2, _)) => failed_step_state(st2, lines.last()),
        }
    }
}

/// The lines of a text: split at `\n`, without the empty piece after a final `\n`.
pub open spec fn lines_spec(s: Seq<char>) -> Seq<Seq<char>> {
    let parts = split_spec(s, '\n');
    if parts.last().len() == 0 {
        parts.drop_last()
    } else {
        parts
    }
}

/// The lines processed in order from `st`: the final state and the whole
/// output, or the first error.
pub open spec fn run_spec(st: ParserModel, lines: Seq<Seq<char>>) -> Result<
    (ParserModel, Seq<char>),
    AsmErrorModel,
>
    decreases lines.len(),
{
    if lines.len() == 0 {
        Ok((st, Seq::empty()))
    } else {
        match run_spec(st, lines.drop_last()) {
            Err(e) => Err(e),
            Ok((st2, out)) => match step_spec(st2, lines.len() - 1, lines.last()) {
                Ok((st3, more)) => Ok((st3, out + more)),
                Err(e) => Err(e),
            },
        }
    }
}

pub open spec fn initial_model() -> ParserModel {
    ParserModel { in_comment: false, current: None, macros: Seq::empty(), next_line: 0 }
}

proof fn lemma_split_len(s: Seq<char>, c: char)
    ensures
        split_spec(s, c).len() >= 1,
        split_spec(s, c).len() + split_spec(s, c).last().len() <= s.len() + 1,
    decreases s.len(),
{
    lemma_split_nonempty(s, c);
    if s.len() > 0 {
        lemma_split_len(s.drop_last(), c);
    }
}

proof fn lemma_lines_len(s: Seq<char>)
    ensures
        lines_spec(s).len() <= s.len(),
{
    lemma_split_len(s, '\n');
}

fn words_text(ws: &Vec<u16>, out: &mut Vec<char>)
    ensures
        final(out)@ == old(out)@ + hex_words(ws@),
{
    let mut i: usize = 0;
    while i < ws.len()
        invariant
            i <= ws@.len(),
            out@ == old(out)@ + hex_words(ws@.subrange(0, i as int)),
        decreases ws@.len() - i,
    {
        assert(ws@.subrange(0, i + 1).drop_last() =~= ws@.subrange(0, i as int));
        push_hex_word(out, ws[i]);
        out.push('\t');
        i += 1;
    }
    assert(ws@.subrange(0, ws@.len() as int) =~= ws@);
    assert(out@ =~= old(out)@ + hex_words(ws@));
}

/// Appends the output line of an encoded instruction.
fn push_word_line(out: &mut Vec<char>, n: usize, ws: &Vec<u16>)
    ensures
        final(out)@ == old(out)@ + word_line(n as int, ws@),
{
    push_dec(out, n);
    out.push(':');
    words_text(ws, out);
    out.push('\n');
    assert(final(out)@ =~= old(out)@ + word_line(n as int, ws@));
}

/// Index of the first parameter equal to `a`.
fn param_index(params: &Vec<Vec<char>>, a: &Vec<char>) -> (r: Option<usize>)
    ensures
        match r {
            Some(k) => k < params@.len() && is_param_at(views(params@), a@, k as int),
            None => forall|k: int| !is_param_at(views(params@), a@, k),
        },
{
    let mut k: usize = 0;
    while k < params.len()
        invariant
            k <= params@.len(),
            forall|j: int| 0 <= j < k ==> #[trigger] views(params@)[j] != a@,
        decreases params@.len() - k,
    {
        if same_text(&params[k], a) {
            return Some(k);
        }
        k += 1;
    }
    assert forall|j: int| !is_param_at(views(params@), a@, j) by {
        if 0 <= j < k {
            assert(views(params@)[j] != a@);
        }
    }
    None
}

pub proof fn lemma_param_unique(params: Seq<Seq<char>>, a: Seq<char>, i: int, j: int)
    requires
        is_param_at(params, a, i),
        is_param_at(params, a, j),
    ensures
        i == j,
{
    if i < j {
        assert(params[i] != a);
    } else if j < i {
        assert(params[j] != a);
    }
}

/// An instruction of a macro body with the actual arguments put in.
fn substitute(ins: &Instruction, params: &Vec<Vec<char>>, actuals: &Vec<Vec<char>>) -> (r: Instruction)
    requires
        params@.len() == actuals@.len(),
    ensures
        r@ == subst_instr(views(params@), views(actuals@), ins@),
{
    let mut args: Vec<Vec<char>> = Vec::new();
    let mut i: usize = 0;
    while i < ins.args.len()
        invariant
            params@.len() == actuals@.len(),
            i <= ins.args@.len(),
            args@.len() == i,
            forall|j: int|
                0 <= j < i ==> #[trigger] views(args@)[j] == subst_arg(
                    views(params@),
                    views(actuals@),
                    views(ins.args@)[j],
                ),
        decreases ins.args@.len() - i,
    {
        let a = &ins.args[i];
        assert(views(ins.args@)[i as int] == a@);
        let new_arg = match param_index(params, a) {
            Some(k) => {
                proof {
                    let c = choose|c: int| is_param_at(views(params@), a@, c);
                    lemma_param_unique(views(params@), a@, c, k as int);
                }
                assert(views(actuals@)[k as int] == actuals@[k as int]@);
                actuals[k].clone()
            },
            None => a.clone(),
        };
        let ghost nv = new_arg@;
        assert(nv == subst_arg(views(params@), views(actuals@), views(ins.args@)[i as int]));
        let ghost old_args = args@;
        args.push(new_arg);
        assert(views(args@) =~= views(old_args).push(nv));
        i += 1;
    }
    let r = Instruction {
        negative: ins.negative,
        zero: ins.zero,
        update: ins.update,
        opcode: ins.opcode.clone(),
        args,
        line: ins.line,
        binary_line: ins.binary_line,
    };
    assert(r@.args =~= subst_instr(views(params@), views(actuals@), ins@).args);
    r
}

/// The parenthesised list of `t`, and the position of `(`.
fn read_paren_list(t: &Vec<char>) -> (r: Option<(usize, Vec<Vec<char>>)>)
    ensures
        match r {
            Some((a, v)) => paren_list(t@) == Some((a as int, views(v@))) && a < t@.len() && t@[a as int] == '(',
            None => paren_list(t@) is None,
        },
{
    match (find_char(t, '('), find_char(t, ')')) {
        (Some(a), Some(b)) => {
            assert(a < t.len());
            if a + 1 <= b {
                let inner = slice(t, a + 1, b);
                let pieces = split(&inner, ',');
                let v = trim_pieces(&pieces);
                Some((a, v))
            } else {
                None
            }
        },
        _ => None,
    }
}

/// The output of the body of `m` called with `actuals`.
fn expand_and_encode(m: &Macro, actuals: &Vec<Vec<char>>) -> (r: Result<Vec<char>, EncodeError>)
    requires
        actuals@.len() == m.params@.len(),
    ensures
        match expansion_output(expand_spec(m@, views(actuals@))) {
            Ok(out) => r is Ok && r->Ok_0@ == out,
            Err(e) => r is Err && r->Err_0@ == e,
        },
{
    let ghost body = expand_spec(m@, views(actuals@));
    let mut out: Vec<char> = Vec::new();
    let mut i: usize = 0;
    while i < m.code.len()
        invariant
            body == expand_spec(m@, views(actuals@)),
            actuals@.len() == m.params@.len(),
            i <= m.code@.len(),
            expansion_output(body.subrange(0, i as int)) == Ok::<Seq<char>, EncodeErrorModel>(out@),
        decreases m.code@.len() - i,
    {
        assert(body.subrange(0, i + 1).drop_last() =~= body.subrange(0, i as int));
        let ins = substitute(&m.code[i], &m.params, actuals);
        assert(ins@ == body[i as int]);
        match ins.repr() {
            Ok(ws) => {
                push_word_line(&mut out, ins.binary_line, &ws);
            },
            Err(e) => {
                proof {
                    lemma_expansion_error_extends(body, i + 1);
                }
                return Err(e);
            },
        }
        i += 1;
    }
    assert(body.subrange(0, m.code@.len() as int) =~= body);
    Ok(out)
}

/// Once a prefix of a body fails to encode, the whole body fails the same way.
pub proof fn lemma_expansion_error_extends(body: Seq<InstructionModel>, k: int)
    requires
        0 < k <= body.len(),
        expansion_output(body.subrange(0, k)) is Err,
    ensures
        expansion_output(body) == expansion_output(body.subrange(0, k)),
    decreases body.len() - k,
{
    if k < body.len() {
        assert(body.subrange(0, k + 1).drop_last() =~= body.subrange(0, k));
        assert(expansion_output(body.subrange(0, k + 1)) == expansion_output(body.subrange(0, k)));
        lemma_expansion_error_extends(body, k + 1);
    } else {
        assert(body.subrange(0, k) =~= body);
    }
}

impl AsmParser {
    /// A parser with no comment open, no macro open, no macros, at output position 0.
    pub fn new() -> (r: AsmParser)
        ensures
            r@ == initial_model(),
    {
        let r = AsmParser { is_comment: false, current_macro: None, macro_list: Vec::new(), out_line: 0 };
        assert(r@.macros =~= Seq::<MacroModel>::empty());
        r
    }

    /// Index of the first stored macro called `name`.
    fn find_macro(&self, name: &Vec<char>) -> (r: Option<usize>)
        ensures
            match r {
                Some(k) => k < self.macro_list@.len() && find_macro_spec(self@.macros, name@) == Some(k as int),
                None => find_macro_spec(self@.macros, name@) is None,
            },
    {
        let mut k: usize = 0;
        while k < self.macro_list.len()
            invariant
                k <= self.macro_list@.len(),
                forall|j: int| 0 <= j < k ==> (#[trigger] self@.macros[j]).name != name@,
            decreases self.macro_list@.len() - k,
        {
            if same_text(&self.macro_list[k].name, name) {
                assert(is_macro_at(self@.macros, name@, k as int));
                proof {
                    let c = choose|c: int| is_macro_at(self@.macros, name@, c);
                    if c < k {
                        assert(self@.macros[c].name != name@);
                    } else if c > k {
                        assert(self@.macros[k as int].name != name@);
                    }
                }
                return Some(k);
            }
            k += 1;
        }
        assert forall|j: int| !is_macro_at(self@.macros, name@, j) by {
            if 0 <= j < k {
                assert(self@.macros[j].name != name@);
            }
        }
        None
    }

    /// Closes the open macro capture and stores the macro.
    fn store_macro(&mut self, m: Macro)
        ensures
            final(self)@ == (ParserModel {
                macros: store_insert(old(self)@.macros, m@),
                ..old(self)@
            }),
    {
        let ghost old_macros = self@.macros;
        match self.find_macro(&m.name) {
            Some(k) => {
                self.macro_list.set(k, m);
                assert(self@.macros =~= old_macros.update(k as int, m@));
            },
            None => {
                self.macro_list.push(m);
                assert(self@.macros =~= old_macros.push(m@));
            },
        }
    }

    /// Strips comments from a raw line and updates the comment mode.
    fn strip_comments(&mut self, line: &Vec<char>) -> (r: Option<Vec<char>>)
        ensures
            ({
                let (c, t) = strip_spec(old(self)@.in_comment, line@);
                &&& final(self)@ == (ParserModel { in_comment: c, ..old(self)@ })
                &&& match r {
                    Some(v) => t == Some(v@),
                    None => t is None,
                }
            }),
    {
        let end_marker = vec!['=', ';'];
        assert(end_marker@ =~= seq!['=', ';']);
        let after = match find(line, &end_marker) {
            Some(i) => {
                assert(i + 2 <= line.len());
                self.is_comment = false;
                slice(line, i + 2, line.len())
            },
            None => {
                if self.is_comment {
                    return None;
                }
                line.clone()
            },
        };
        let start_marker = vec![';', '='];
        assert(start_marker@ =~= seq![';', '=']);
        let before = match find(&after, &start_marker) {
            Some(i) => {
                self.is_comment = true;
                slice(&after, 0, i)
            },
            None => after,
        };
        let code = match find_char(&before, ';') {
            Some(i) => slice(&before, 0, i),
            None => before,
        };
        Some(trim(&code))
    }

    fn macro_definition(&mut self, line_no: usize, t: &Vec<char>) -> (r: Result<(), AsmError>)
        requires
            starts_with_spec(t@, macro_keyword()),
        ensures
            match macro_def_spec(old(self)@, line_no as int, t@) {
                Ok((st, out)) => r is Ok && final(self)@ == st && out.len() == 0,
                Err(e) => r is Err && r->Err_0@ == e && final(self)@ == old(self)@,
            },
    {
        let (a, params) = match read_paren_list(t) {
            Some(x) => x,
            None => {
                return Err(AsmError::StructuralError { line: line_no });
            },
        };
        let head = slice(t, 0, a);
        let keyword = vec!['@', 'm', 'a', 'c', 'r', 'o', ' '];
        assert(keyword@ =~= macro_keyword().push(' '));
        if !starts_with(&head, &keyword) {
            return Err(AsmError::StructuralError { line: line_no });
        }
        let name = trim(&slice(&head, 7, a));
        let m = Macro { name, params, code: Vec::new(), line: line_no };
        assert(m@.code =~= Seq::<InstructionModel>::empty());
        self.current_macro = Some(m);
        Ok(())
    }

    fn macro_call(&self, line_no: usize, t: &Vec<char>) -> (r: Result<Vec<char>, AsmError>)
        requires
            t@.len() > 0,
            t@[0] == '@',
        ensures
            match macro_call_spec(self@, line_no as int, t@) {
                Ok((st, out)) => r is Ok && r->Ok_0@ == out && st == self@,
                Err(e) => r is Err && r->Err_0@ == e,
            },
    {
        let (a, actuals) = match read_paren_list(t) {
            Some(x) => x,
            None => {
                return Err(AsmError::StructuralError { line: line_no });
            },
        };
        let name = slice(t, 1, a);
        let k = match self.find_macro(&name) {
            Some(k) => k,
            None => {
                return Err(AsmError::MacroNotFound { line: line_no, name });
            },
        };
        let m = &self.macro_list[k];
        assert(self@.macros[k as int] == m@);
        if actuals.len() != m.params.len() {
            return Err(AsmError::MacroArityMismatch { line: line_no, name, definition_line: m.line });
        }
        match expand_and_encode(m, &actuals) {
            Ok(out) => Ok(out),
            Err(e) => Err(AsmError::InMacro { line: line_no, name, cause: e }),
        }
    }

    /// Processes one source line; `line_num` is its 0-based index, and errors
    /// cite the 1-based line. Returns the text that the line emits (empty when
    /// it emits nothing).
    pub fn parse_line(&mut self, line_num: usize, line: &Vec<char>) -> (r: Result<Vec<char>, AsmError>)
        requires
            old(self)@.next_line < usize::MAX,
            line_num < usize::MAX,
        ensures
            match step_spec(old(self)@, line_num as int, line@) {
                Ok((st, out)) => r is Ok && r->Ok_0@ == out && final(self)@ == st,
                Err(e) => r is Err && r->Err_0@ == e
                    && final(self)@ == failed_step_state(old(self)@, line@),
            },
    {
        let line_no = line_num + 1;
        let t = match self.strip_comments(line) {
            Some(t) => t,
            None => {
                return Ok(Vec::new());
            },
        };
        if t.len() > 0 && t[t.len() - 1] == ':' {
            let end = match find_char(&t, ':') {
                Some(i) => i,
                None => t.len(),
            };
            let mut out: Vec<char> = Vec::new();
            out.push('(');
            let name = slice(&t, 0, end);
            let mut k: usize = 0;
            while k < name.len()
                invariant
                    k <= name@.len(),
                    out@ == seq!['('] + name@.subrange(0, k as int),
                decreases name@.len() - k,
            {
                out.push(name[k]);
                k += 1;
                assert(out@ =~= seq!['('] + name@.subrange(0, k as int));
            }
            out.push(')');
            out.push(':');
            out.push(' ');
            push_dec(&mut out, self.out_line);
            out.push('\n');
            assert(name@.subrange(0, name@.len() as int) =~= name@);
            assert(out@ =~= label_line(name@, self@.next_line));
            return Ok(out);
        }
        let keyword = vec!['@', 'm', 'a', 'c', 'r', 'o'];
        assert(keyword@ =~= macro_keyword());
        if starts_with(&t, &keyword) {
            return match self.macro_definition(line_no, &t) {
                Ok(()) => Ok(Vec::new()),
                Err(e) => Err(e),
            };
        }
        let closing = vec!['}'];
        assert(closing@ =~= seq!['}']);
        if same_text(&t, &closing) {
            return match self.current_macro.take() {
                Some(m) => {
                    self.store_macro(m);
                    Ok(Vec::new())
                },
                None => Err(AsmError::StructuralError { line: line_no }),
            };
        }
        if t.len() == 0 {
            return Ok(Vec::new());
        }
        if t[0] == '@' {
            return self.macro_call(line_no, &t);
        }
        let ins = Instruction::init(line_num, self.out_line, &t);
        match self.current_macro.take() {
            Some(mut m) => {
                let ghost before = m@;
                m.code.push(ins);
                assert(m@.code =~= before.code.push(ins@));
                self.current_macro = Some(m);
                Ok(Vec::new())
            },
            None => {
                let n = self.out_line;
                self.out_line = n + 1;
                match ins.repr() {
                    Ok(ws) => {
                        let mut out: Vec<char> = Vec::new();
                        push_word_line(&mut out, n, &ws);
                        assert(out@ =~= word_line(n as int, ws@));
                        Ok(out)
                    },
                    Err(e) => Err(AsmError::Encoding(e)),
                }
            },
        }
    }

    /// Assembles a whole source text: the output of every line in order, or
    /// the first error.
    pub fn parse(&mut self, content: &str) -> (r: Result<String, AsmError>)
        requires
            old(self)@.next_line + content@.len() <= usize::MAX,
        ensures
            match run_spec(old(self)@, lines_spec(content@)) {
                Ok((st, out)) => r is Ok && r->Ok_0@ == out && final(self)@ == st,
                Err(e) => r is Err && r->Err_0@ == e
                    && final(self)@ == failed_run_state(old(self)@, lines_spec(content@)),
            },
    {
        let chars = chars_of(content);
        let mut lines = split(&chars, '\n');
        proof {
            lemma_lines_len(chars@);
            lemma_split_nonempty(chars@, '\n');
        }
        if lines[lines.len() - 1].len() == 0 {
            lines.pop();
        }
        assert(views(lines@) =~= lines_spec(chars@));
        let ghost start = self@;
        let mut output: Vec<char> = Vec::new();
        let mut i: usize = 0;
        while i < lines.len()
            invariant
                views(lines@) == lines_spec(content@),
                start == old(self)@,
                lines@.len() <= content@.len(),
                start.next_line + content@.len() <= usize::MAX,
                i <= lines@.len(),
                self@.next_line <= start.next_line + i,
                run_spec(start, views(lines@).subrange(0, i as int)) == Ok::<
                    (ParserModel, Seq<char>),
                    AsmErrorModel,
                >((self@, output@)),
            decreases lines@.len() - i,
        {
            assert(views(lines@).subrange(0, i + 1).drop_last() =~= views(lines@).subrange(0, i as int));
            assert(views(lines@)[i as int] == lines@[i as int]@);
            let ghost before = self@;
            match self.parse_line(i, &lines[i]) {
                Ok(data) => {
                    let ghost prev = output@;
                    let mut k: usize = 0;
                    while k < data.len()
                        invariant
                            k <= data@.len(),
                            output@ == prev + data@.subrange(0, k as int),
                        decreases data@.len() - k,
                    {
                        output.push(data[k]);
                        k += 1;
                        assert(output@ =~= prev + data@.subrange(0, k as int));
                    }
                    assert(data@.subrange(0, data@.len() as int) =~= data@);
                    proof {
                        lemma_step_counter(before, i as int, lines@[i as int]@);
                    }
                },
                Err(e) => {
                    assert(run_spec(start, views(lines@).subrange(0, i + 1)) == Err::<
                        (ParserModel, Seq<char>),
                        AsmErrorModel,
                    >(e@));
                    proof {
                        lemma_run_error_extends(start, views(lines@), (i + 1) as int);
                    }
                    assert(run_spec(start, lines_spec(content@)) == Err::<
                        (ParserModel, Seq<char>),
                        AsmErrorModel,
                    >(e@));
                    return Err(e);
                },
            }
            i += 1;
        }
        assert(views(lines@).subrange(0, lines@.len() as int) =~= views(lines@));
        Ok(string_of(&output))
    }
}

/// A line moves the output counter forward by at most one.
proof fn lemma_step_counter(st: ParserModel, index: int, line: Seq<char>)
    ensures
        step_spec(st, index, line) matches Ok((st2, _)) ==> st.next_line <= st2.next_line <= st.next_line + 1,
{
}

/// Once a prefix of the lines fails, every longer prefix fails the same way.
pub proof fn lemma_run_error_extends(st: ParserModel, lines: Seq<Seq<char>>, k: int)
    requires
        0 < k <= lines.len(),
        run_spec(st, lines.subrange(0, k)) is Err,
    ensures
        run_spec(st, lines) == run_spec(st, lines.subrange(0, k)),
        failed_run_state(st, lines) == failed_run_state(st, lines.subrange(0, k)),
    decreases lines.len() - k,
{
    if k < lines.len() {
        assert(lines.subrange(0, k + 1).drop_last() =~= lines.subrange(0, k));
        assert(run_spec(st, lines.subrange(0, k + 1)) == run_spec(st, lines.subrange(0, k)));
        assert(failed_run_state(st, lines.subrange(0, k + 1)) == failed_run_state(st, lines.subrange(0, k)));
        lemma_run_error_extends(st, lines, k + 1);
    } else {
        assert(lines.subrange(0, k) =~= lines);
    }
}

/// Assembles a source text with a fresh parser.
pub fn assemble(content: &str) -> (r: Result<String, AsmError>)
    ensures
        match run_spec(initial_model(), lines_spec(content@)) {
            Ok((_, out)) => r is Ok && r->Ok_0@ == out,
            Err(e) => r is Err && r->Err_0@ == e,
        },
{
    // the character count is a `usize`, which bounds the output counter
    let _count = content.unicode_len();
    let mut p = AsmParser::new();
    p.parse(content)
}

} // verus!
