//! How a line of assembly is read.

use crate::decimal::decimal;
use crate::decimal::lemma_decimal_chars;
use crate::decimal::lemma_decimal_reads_back;
use crate::decimal::parse_word;
use crate::decimal::read_word;
use crate::instruction::Instruction;
use crate::text::before;
use crate::text::copy_range;
use crate::text::find_char;
use crate::text::has_token;
use crate::text::is_space;
use crate::text::lemma_find_is;
use crate::text::lemma_run_end_is;
use crate::text::next_token;
use crate::text::skip_run;
use crate::text::spells;
use crate::text::to_chars;
use crate::text::to_string;
use crate::text::token;
use crate::text::token_end;
use crate::text::trim_start;
use crate::Word;
use vstd::prelude::*;
use vstd::string::StringExecFns;

verus! {

/// Why a line of assembly was refused. Where there is a text, it is the
/// line without its leading white space; for a label that is used and
/// nowhere defined, it is the label.
#[derive(Debug, Clone, PartialEq, Eq)]
pub enum InstructionParseErr {
    /// The line holds no token.
    EmptyLine,
    /// The instruction needs an operand and the line ends after it.
    OperandNotFound(String),
    /// The operand of `push` or `dup` is no word.
    InvalidOperand(String),
    /// The line holds something else where its mnemonic should be.
    InvalidInstruction(String),
    /// A jump names a label that the source does not define.
    UndefinedLabel(String),
}

/// An `InstructionParseErr` with its texts as sequences of characters.
pub enum ParseErr {
    EmptyLine,
    OperandNotFound(Seq<char>),
    InvalidOperand(Seq<char>),
    InvalidInstruction(Seq<char>),
    UndefinedLabel(Seq<char>),
}

impl ParseErr {
    /// The error in words.
    pub open spec fn text(self) -> Seq<char> {
        match self {
            ParseErr::EmptyLine => "Could not translate empty line to instruction"@,
            ParseErr::OperandNotFound(l) => "Operand required but not found: "@ + l,
            ParseErr::InvalidOperand(l) => "Invalid operand (should be a Word): "@ + l,
            ParseErr::InvalidInstruction(l) => "Invalid instruction: "@ + l,
            ParseErr::UndefinedLabel(l) => "Undefined label: "@ + l,
        }
    }
}

impl InstructionParseErr {
    /// The error in words.
    pub fn message(&self) -> (text: String)
        ensures
            text@ == self@.text(),
    {
        match self {
            InstructionParseErr::EmptyLine => String::from_str(
                "Could not translate empty line to instruction",
            ),
            InstructionParseErr::OperandNotFound(l) => String::from_str(
                "Operand required but not found: ",
            ).concat(l.as_str()),
            InstructionParseErr::InvalidOperand(l) => String::from_str(
                "Invalid operand (should be a Word): ",
            ).concat(l.as_str()),
            InstructionParseErr::InvalidInstruction(l) => String::from_str(
                "Invalid instruction: ",
            ).concat(l.as_str()),
            InstructionParseErr::UndefinedLabel(l) => String::from_str("Undefined label: ").concat(
                l.as_str(),
            ),
        }
    }
}

impl View for InstructionParseErr {
    type V = ParseErr;

    open spec fn view(&self) -> ParseErr {
        match self {
            InstructionParseErr::EmptyLine => ParseErr::EmptyLine,
            InstructionParseErr::OperandNotFound(l) => ParseErr::OperandNotFound(l@),
            InstructionParseErr::InvalidOperand(l) => ParseErr::InvalidOperand(l@),
            InstructionParseErr::InvalidInstruction(l) => ParseErr::InvalidInstruction(l@),
            InstructionParseErr::UndefinedLabel(l) => ParseErr::UndefinedLabel(l@),
        }
    }
}

/// What a line of assembly holds: the label that it defines, if it defines
/// one, its instruction, and the label that the instruction jumps to, if it
/// names one. In that case, and in no other, the instruction is a jump
/// without an address.
#[derive(Debug, Clone, PartialEq, Eq)]
pub struct ParsedLine {
    pub label: Option<String>,
    pub inst: Instruction,
    pub target: Option<String>,
}

/// A `ParsedLine` with its labels as sequences of characters.
pub struct LineResult {
    pub label: Option<Seq<char>>,
    pub inst: Instruction,
    pub target: Option<Seq<char>>,
}

/// The characters of a string that may be absent.
pub open spec fn text_of(s: Option<String>) -> Option<Seq<char>> {
    match s {
        Some(s) => Some(s@),
        None => None,
    }
}

impl View for ParsedLine {
    type V = LineResult;

    open spec fn view(&self) -> LineResult {
        LineResult { label: text_of(self.label), inst: self.inst, target: text_of(self.target) }
    }
}

/// The result of parsing with its texts as sequences of characters.
pub open spec fn parsed_view(r: Result<ParsedLine, InstructionParseErr>) -> Result<
    LineResult,
    ParseErr,
> {
    match r {
        Ok(p) => Ok(p@),
        Err(e) => Err(e@),
    }
}

/// A line that holds `inst` and nothing else.
pub open spec fn plain(inst: Instruction) -> Result<LineResult, ParseErr> {
    Ok(LineResult { label: None, inst, target: None })
}

/// The token that follows position `from` in `code`, if one does.
pub open spec fn operand(code: Seq<char>, from: int) -> Option<Seq<char>> {
    if has_token(code, from) {
        Some(token(code, from))
    } else {
        None
    }
}

/// What the mnemonic `name` gives with the token that follows it, if one
/// does. `text` is the line, for the error. The operand of `push` and `dup`
/// must be a word. The operand of `jmp` and `jmpif` is an address if it is
/// a word, and else the label to jump to. Tokens after those that the
/// instruction needs are passed over.
pub open spec fn parse_tokens(name: Seq<char>, operand: Option<Seq<char>>, text: Seq<char>) -> Result<
    LineResult,
    ParseErr,
> {
    if name == "nop"@ {
        plain(Instruction::Nop)
    } else if name == "push"@ || name == "dup"@ {
        match operand {
            None => Err(ParseErr::OperandNotFound(text)),
            Some(t) => match parse_word(t) {
                None => Err(ParseErr::InvalidOperand(text)),
                Some(v) => plain(
                    if name == "push"@ {
                        Instruction::Push(v)
                    } else {
                        Instruction::Dup(v)
                    },
                ),
            },
        }
    } else if name == "plus"@ {
        plain(Instruction::Plus)
    } else if name == "minus"@ {
        plain(Instruction::Minus)
    } else if name == "div"@ {
        plain(Instruction::Div)
    } else if name == "mult"@ {
        plain(Instruction::Mult)
    } else if name == "jmp"@ || name == "jmpif"@ {
        match operand {
            None => Err(ParseErr::OperandNotFound(text)),
            Some(t) => Ok(
                LineResult {
                    label: None,
                    inst: if name == "jmp"@ {
                        Instruction::Jump(parse_word(t))
                    } else {
                        Instruction::JumpIf(parse_word(t))
                    },
                    target: if parse_word(t) is None {
                        Some(t)
                    } else {
                        None
                    },
                },
            ),
        }
    } else if name == "eq"@ {
        plain(Instruction::Eq)
    } else if name == "halt"@ {
        plain(Instruction::Halt)
    } else if name == "print_debug"@ {
        plain(Instruction::PrintDebug)
    } else {
        Err(ParseErr::InvalidInstruction(text))
    }
}

/// What a line of assembly holds. Leading white space does not count, nor
/// does what follows the first `#`. A first token that ends in `:` defines
/// the label before the colon, and an instruction must follow it. A line
/// without any token is refused as empty.
pub open spec fn parse_line(line: Seq<char>) -> Result<LineResult, ParseErr> {
    let text = trim_start(line);
    let code = before(text, '#');
    if !has_token(code, 0) {
        Err(ParseErr::EmptyLine)
    } else if token(code, 0).last() == ':' {
        let next = token_end(code, 0);
        if !has_token(code, next) {
            Err(ParseErr::InvalidInstruction(text))
        } else {
            match parse_tokens(token(code, next), operand(code, token_end(code, next)), text) {
                Ok(r) => Ok(LineResult { label: Some(token(code, 0).drop_last()), ..r }),
                Err(e) => Err(e),
            }
        }
    } else {
        parse_tokens(token(code, 0), operand(code, token_end(code, 0)), text)
    }
}

/// Parses the instruction whose mnemonic lies from `from` up to `to`.
fn read_tokens(code: &Vec<char>, from: usize, to: usize, text: &Vec<char>) -> (r: Result<
    ParsedLine,
    InstructionParseErr,
>)
    requires
        from <= to <= code@.len(),
    ensures
        parsed_view(r) == parse_tokens(
            code@.subrange(from as int, to as int),
            operand(code@, to as int),
            text@,
        ),
{
    let (start, end) = next_token(code, to);
    let found = start < end;
    assert(text@.subrange(0, text@.len() as int) =~= text@);
    if spells(code, from, to, "nop") {
        Ok(ParsedLine { label: None, inst: Instruction::Nop, target: None })
    } else if spells(code, from, to, "push") {
        if !found {
            return Err(InstructionParseErr::OperandNotFound(to_string(text, 0, text.len())));
        }
        match read_word(code, start, end) {
            Some(v) => Ok(ParsedLine { label: None, inst: Instruction::Push(v), target: None }),
            None => Err(InstructionParseErr::InvalidOperand(to_string(text, 0, text.len()))),
        }
    } else if spells(code, from, to, "dup") {
        if !found {
            return Err(InstructionParseErr::OperandNotFound(to_string(text, 0, text.len())));
        }
        match read_word(code, start, end) {
            Some(v) => Ok(ParsedLine { label: None, inst: Instruction::Dup(v), target: None }),
            None => Err(InstructionParseErr::InvalidOperand(to_string(text, 0, text.len()))),
        }
    } else if spells(code, from, to, "plus") {
        Ok(ParsedLine { label: None, inst: Instruction::Plus, target: None })
    } else if spells(code, from, to, "minus") {
        Ok(ParsedLine { label: None, inst: Instruction::Minus, target: None })
    } else if spells(code, from, to, "div") {
        Ok(ParsedLine { label: None, inst: Instruction::Div, target: None })
    } else if spells(code, from, to, "mult") {
        Ok(ParsedLine { label: None, inst: Instruction::Mult, target: None })
    } else if spells(code, from, to, "jmp") {
        if !found {
            return Err(InstructionParseErr::OperandNotFound(to_string(text, 0, text.len())));
        }
        let addr = read_word(code, start, end);
        let target = match addr {
            Some(_) => None,
            None => Some(to_string(code, start, end)),
        };
        Ok(ParsedLine { label: None, inst: Instruction::Jump(addr), target })
    } else if spells(code, from, to, "jmpif") {
        if !found {
            return Err(InstructionParseErr::OperandNotFound(to_string(text, 0, text.len())));
        }
        let addr = read_word(code, start, end);
        let target = match addr {
            Some(_) => None,
            None => Some(to_string(code, start, end)),
        };
        Ok(ParsedLine { label: None, inst: Instruction::JumpIf(addr), target })
    } else if spells(code, from, to, "eq") {
        Ok(ParsedLine { label: None, inst: Instruction::Eq, target: None })
    } else if spells(code, from, to, "halt") {
        Ok(ParsedLine { label: None, inst: Instruction::Halt, target: None })
    } else if spells(code, from, to, "print_debug") {
        Ok(ParsedLine { label: None, inst: Instruction::PrintDebug, target: None })
    } else {
        Err(InstructionParseErr::InvalidInstruction(to_string(text, 0, text.len())))
    }
}

/// Parses one line of assembly.
pub fn read_line(line: &Vec<char>) -> (r: Result<ParsedLine, InstructionParseErr>)
    ensures
        parsed_view(r) == parse_line(line@),
{
    let indent = skip_run(line, 0, true);
    let text = copy_range(line, indent, line.len());
    let stop = find_char(&text, '#', 0);
    let code = copy_range(&text, 0, stop);
    let (start, end) = next_token(&code, 0);
    if start == end {
        return Err(InstructionParseErr::EmptyLine);
    }
    if code[end - 1] == ':' {
        let (next_start, next_end) = next_token(&code, end);
        if next_start == next_end {
            assert(text@.subrange(0, text@.len() as int) =~= text@);
            return Err(InstructionParseErr::InvalidInstruction(to_string(&text, 0, text.len())));
        }
        let label = to_string(&code, start, end - 1);
        assert(label@ =~= token(code@, 0).drop_last());
        match read_tokens(&code, next_start, next_end, &text) {
            Ok(p) => Ok(ParsedLine { label: Some(label), inst: p.inst, target: p.target }),
            Err(e) => Err(e),
        }
    } else {
        read_tokens(&code, start, end, &text)
    }
}

impl Instruction {
    /// Parses one line of assembly, which holds one instruction and, before
    /// it, at most one label.
    pub fn parse_line(line: &str) -> (r: Result<ParsedLine, InstructionParseErr>)
        ensures
            parsed_view(r) == parse_line(line@),
    {
        let chars = to_chars(line);
        read_line(&chars)
    }
}

/// The mnemonics are words of small letters and `_`: none holds white
/// space or `#`, and none ends in `:`.
pub proof fn lemma_mnemonic_chars(inst: Instruction)
    ensures
        inst.mnemonic().len() >= 2,
        forall|i: int|
            0 <= i < inst.mnemonic().len() ==> !is_space(#[trigger] inst.mnemonic()[i])
                && inst.mnemonic()[i] != '#',
        inst.mnemonic().last() != ':',
{
    reveal_strlit("nop");
    reveal_strlit("push");
    reveal_strlit("dup");
    reveal_strlit("plus");
    reveal_strlit("minus");
    reveal_strlit("div");
    reveal_strlit("mult");
    reveal_strlit("jmp");
    reveal_strlit("jmpif");
    reveal_strlit("eq");
    reveal_strlit("halt");
    reveal_strlit("print_debug");
}

/// The length of a word and its first two letters: enough to tell the
/// mnemonics apart.
pub open spec fn signature(word: Seq<char>) -> (nat, char, char) {
    (word.len(), word[0], word[1])
}

/// The twelve mnemonics differ, so that each is read as the instruction
/// that it names: with the word `v` for its operand where `operand` stands
/// for `v`, and without regard to `operand` where it takes none.
pub proof fn lemma_mnemonic_reads(
    inst: Instruction,
    operand: Option<Seq<char>>,
    v: Word,
    text: Seq<char>,
)
    requires
        operand matches Some(t) ==> parse_word(t) == Some(v),
        inst.takes_operand() ==> operand is Some,
    ensures
        parse_tokens(inst.mnemonic(), operand, text) == plain(
            match inst {
                Instruction::Push(_) => Instruction::Push(v),
                Instruction::Dup(_) => Instruction::Dup(v),
                Instruction::Jump(_) => Instruction::Jump(Some(v)),
                Instruction::JumpIf(_) => Instruction::JumpIf(Some(v)),
                _ => inst,
            },
        ),
{
    reveal_strlit("nop");
    reveal_strlit("push");
    reveal_strlit("dup");
    reveal_strlit("plus");
    reveal_strlit("minus");
    reveal_strlit("div");
    reveal_strlit("mult");
    reveal_strlit("jmp");
    reveal_strlit("jmpif");
    reveal_strlit("eq");
    reveal_strlit("halt");
    reveal_strlit("print_debug");
    assert(signature("push"@) == (4nat, 'p', 'u'));
    assert(signature("dup"@) == (3nat, 'd', 'u'));
    assert(signature("plus"@) == (4nat, 'p', 'l'));
    assert(signature("minus"@) == (5nat, 'm', 'i'));
    assert(signature("div"@) == (3nat, 'd', 'i'));
    assert(signature("mult"@) == (4nat, 'm', 'u'));
    assert(signature("jmp"@) == (3nat, 'j', 'm'));
    assert(signature("jmpif"@) == (5nat, 'j', 'm'));
    assert(signature("eq"@) == (2nat, 'e', 'q'));
    assert(signature("halt"@) == (4nat, 'h', 'a'));
    assert(signature("print_debug"@) == (11nat, 'p', 'r'));
}

/// The tokens of an instruction in assembly: the text has no white space
/// before them and no comment; its first token is the mnemonic; the
/// operand in decimal follows as the second and last, where there is an
/// operand, and nothing follows where there is none.
pub proof fn lemma_asm_text_tokens(inst: Instruction)
    requires
        inst.resolved(),
    ensures
        trim_start(inst.asm_text()) == inst.asm_text(),
        before(inst.asm_text(), '#') == inst.asm_text(),
        has_token(inst.asm_text(), 0),
        token(inst.asm_text(), 0) == inst.mnemonic(),
        operand(inst.asm_text(), token_end(inst.asm_text(), 0)) == match inst {
            Instruction::Push(v) => Some(decimal(v as int)),
            Instruction::Dup(v) => Some(decimal(v as int)),
            Instruction::Jump(addr) => Some(decimal(addr.unwrap() as int)),
            Instruction::JumpIf(addr) => Some(decimal(addr.unwrap() as int)),
            _ => None,
        },
{
    let name = inst.mnemonic();
    let text = inst.asm_text();
    let n = name.len() as int;
    lemma_mnemonic_chars(inst);
    lemma_run_end_is(text, 0, true, 0);
    let value: Option<Word> = match inst {
        Instruction::Push(v) => Some(v),
        Instruction::Dup(v) => Some(v),
        Instruction::Jump(addr) => addr,
        Instruction::JumpIf(addr) => addr,
        _ => None,
    };
    match value {
        Some(v) => {
            let digits = decimal(v as int);
            lemma_decimal_chars(v as int);
            assert forall|i: int| 0 <= i < text.len() implies #[trigger] text[i] != '#' && (
            is_space(text[i]) <==> i == n) by {
                if i > n {
                    assert(text[i] == digits[i - n - 1]);
                }
            }
            lemma_find_is(text, '#', 0, text.len() as int);
            lemma_run_end_is(text, 0, false, n);
            lemma_run_end_is(text, n, true, n + 1);
            lemma_run_end_is(text, n + 1, false, text.len() as int);
        },
        None => {
            lemma_find_is(text, '#', 0, n);
            lemma_run_end_is(text, 0, false, n);
            lemma_run_end_is(text, n, true, n);
        },
    }
}

/// What `to_asm` writes, `parse_line` reads as the same instruction, on a
/// line without a label whose jump needs no label; and what is read from
/// that text is written as that text again.
pub proof fn lemma_asm_text_reads_back(inst: Instruction)
    requires
        inst.resolved(),
    ensures
        parse_line(inst.asm_text()) == plain(inst),
        parse_line(inst.asm_text())->Ok_0.inst.asm_text() == inst.asm_text(),
{
    lemma_asm_text_tokens(inst);
    lemma_mnemonic_chars(inst);
    match inst {
        Instruction::Push(v) => {
            lemma_decimal_reads_back(v);
            lemma_mnemonic_reads(inst, Some(decimal(v as int)), v, inst.asm_text());
        },
        Instruction::Dup(v) => {
            lemma_decimal_reads_back(v);
            lemma_mnemonic_reads(inst, Some(decimal(v as int)), v, inst.asm_text());
        },
        Instruction::Jump(Some(v)) => {
            lemma_decimal_reads_back(v);
            lemma_mnemonic_reads(inst, Some(decimal(v as int)), v, inst.asm_text());
        },
        Instruction::JumpIf(Some(v)) => {
            lemma_decimal_reads_back(v);
            lemma_mnemonic_reads(inst, Some(decimal(v as int)), v, inst.asm_text());
        },
        _ => {
            lemma_mnemonic_reads(inst, None, 0, inst.asm_text());
        },
    }
}

/// Where the tokens of a line's instruction start: after the label, if the
/// line defines one, and else at the start.
pub open spec fn instruction_start(code: Seq<char>) -> int {
    if has_token(code, 0) && token(code, 0).last() == ':' {
        token_end(code, 0)
    } else {
        0
    }
}

/// An instruction that was read from a line and is written again differs
/// from the line in white space, label, comment and the spelling of the
/// number at most: the mnemonic is the same token, and the operand, where
/// there is one, stands for the same word.
pub proof fn lemma_read_then_written(line: Seq<char>)
    requires
        parse_line(line) matches Ok(l) && l.inst.resolved(),
    ensures
        ({
            let inst = parse_line(line)->Ok_0.inst;
            let code = before(trim_start(line), '#');
            let from = instruction_start(code);
            let text = inst.asm_text();
            &&& token(text, 0) == token(code, from)
            &&& match operand(text, token_end(text, 0)) {
                Some(written) => operand(code, token_end(code, from)) matches Some(read)
                    && parse_word(written) == parse_word(read),
                None => !inst.takes_operand(),
            }
        }),
{
    let inst = parse_line(line)->Ok_0.inst;
    lemma_asm_text_tokens(inst);
    match inst {
        Instruction::Push(v) => lemma_decimal_reads_back(v),
        Instruction::Dup(v) => lemma_decimal_reads_back(v),
        Instruction::Jump(Some(v)) => lemma_decimal_reads_back(v),
        Instruction::JumpIf(Some(v)) => lemma_decimal_reads_back(v),
        _ => {},
    }
}

} // verus!
