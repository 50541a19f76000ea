//! The assembler: from the lines of a source text to a program in which
//! every jump has its address.

use crate::instruction::Instruction;
use crate::machine::BM;
use crate::parser::InstructionParseErr;
use crate::parser::LineResult;
use crate::parser::parse_line;
use crate::parser::ParsedLine;
use crate::parser::ParseErr;
use crate::parser::read_line;
use crate::text::copy_range;
use crate::text::find_char;
use crate::text::lemma_lines_len;
use crate::text::lines;
use crate::text::lines_from;
use crate::text::skip_run;
use crate::text::to_chars;
use crate::text::trim_start;
use crate::text::without_cr;
use crate::Word;
use vstd::hash_map::StringHashMap;
use vstd::prelude::*;

verus! {

/// A jump that names a label: the address of the jump, and the label whose
/// address it is to get.
#[derive(Debug, Clone, PartialEq, Eq)]
pub struct UnresolvedLabel {
    pub addr: Word,
    pub label: String,
}

/// An `UnresolvedLabel` with its label as a sequence of characters.
pub struct Deferred {
    pub addr: Word,
    pub label: Seq<char>,
}

impl View for UnresolvedLabel {
    type V = Deferred;

    open spec fn view(&self) -> Deferred {
        Deferred { addr: self.addr, label: self.label@ }
    }
}

/// What the assembler keeps beside the program: the address of each label
/// defined so far, and the jumps that wait for the address of a label, in
/// the order in which they came.
pub struct BasmCtx {
    label_table: StringHashMap<Word>,
    deferred_operand: Vec<UnresolvedLabel>,
}

/// The content of a `BasmCtx`.
pub struct Context {
    pub labels: Map<Seq<char>, Word>,
    pub deferred: Seq<Deferred>,
}

impl Context {
    /// No label, no waiting jump.
    pub open spec fn empty() -> Context {
        Context { labels: Map::empty(), deferred: Seq::empty() }
    }

    /// The context after a line that holds `line` and whose instruction
    /// gets the address `addr`: the line's label, if it defines one, now
    /// stands for `addr`, whatever it stood for before, and its jump, if it
    /// names a label, has joined the waiting ones.
    pub open spec fn noted(self, line: LineResult, addr: Word) -> Context {
        Context {
            labels: match line.label {
                Some(l) => self.labels.insert(l, addr),
                None => self.labels,
            },
            deferred: match line.target {
                Some(t) => self.deferred.push(Deferred { addr, label: t }),
                None => self.deferred,
            },
        }
    }
}

impl View for BasmCtx {
    type V = Context;

    closed spec fn view(&self) -> Context {
        Context {
            labels: self.label_table@,
            deferred: Seq::new(
                self.deferred_operand@.len(),
                |i: int| self.deferred_operand@[i]@,
            ),
        }
    }
}

impl Default for BasmCtx {
    fn default() -> (ctx: Self)
        ensures
            ctx@ == Context::empty(),
    {
        let ctx = BasmCtx { label_table: StringHashMap::new(), deferred_operand: Vec::new() };
        assert(ctx@.deferred =~= Seq::empty());
        ctx
    }
}

impl BasmCtx {
    /// Lets `label` stand for `addr`. An earlier address of the same label
    /// is forgotten.
    pub fn insert_label(&mut self, label: String, addr: Word)
        ensures
            final(self)@ == (Context {
                labels: old(self)@.labels.insert(label@, addr),
                ..old(self)@
            }),
    {
        self.label_table.insert(label, addr);
    }

    /// Notes that the jump at `addr` waits for the address of `label`.
    pub fn add_deffered_opperand(&mut self, addr: Word, label: String)
        ensures
            final(self)@ == (Context {
                deferred: old(self)@.deferred.push(Deferred { addr, label: label@ }),
                ..old(self)@
            }),
    {
        self.deferred_operand.push(UnresolvedLabel { addr, label });
        assert(self@.deferred =~= old(self)@.deferred.push(Deferred { addr, label: label@ }));
    }

    /// Tells whether `label` has an address.
    pub fn has_label(&self, label: &str) -> (b: bool)
        ensures
            b == self@.labels.contains_key(label@),
    {
        self.label_table.contains_key(label)
    }

    /// The address of `label`, which must have one.
    pub fn get_addr_for(&self, label: &str) -> (addr: Word)
        requires
            self@.labels.contains_key(label@),
        ensures
            addr == self@.labels[label@],
    {
        *self.label_table.get(label).unwrap()
    }

    /// The waiting jumps, in the order in which they came.
    pub fn deferred_operands(&self) -> (list: &Vec<UnresolvedLabel>)
        ensures
            list@.len() == self@.deferred.len(),
            forall|i: int| 0 <= i < list@.len() ==> (#[trigger] list@[i])@ == self@.deferred[i],
    {
        &self.deferred_operand
    }

    /// Notes what a line holds whose instruction gets the address `addr`.
    fn note(&mut self, label: Option<String>, target: Option<String>, addr: Word)
        ensures
            final(self)@ == old(self)@.noted(
                LineResult {
                    label: crate::parser::text_of(label),
                    inst: Instruction::Nop,
                    target: crate::parser::text_of(target),
                },
                addr,
            ),
    {
        match label {
            Some(l) => self.insert_label(l, addr),
            None => {},
        }
        match target {
            Some(t) => self.add_deffered_opperand(addr, t),
            None => {},
        }
    }
}

impl Instruction {
    /// Parses one line of assembly for a program that is being built in
    /// `bm`: the instruction of the line will get the address that is the
    /// program's present length. Returns the instruction and notes in `ctx`
    /// the label that the line defines and the label that a jump names. A
    /// line that is refused leaves `ctx` as it was.
    pub fn from_asm(line: &str, bm: &BM, ctx: &mut BasmCtx) -> (r: Result<
        Instruction,
        InstructionParseErr,
    >)
        requires
            bm.wf(),
        ensures
            match parse_line(line@) {
                Ok(l) => r == Ok::<Instruction, InstructionParseErr>(l.inst) && final(ctx)@ == old(
                    ctx,
                )@.noted(l, bm@.program.len() as Word),
                Err(e) => r is Err && r->Err_0@ == e && final(ctx)@ == old(ctx)@,
            },
    {
        let chars = to_chars(line);
        match read_line(&chars) {
            Ok(parsed) => {
                let ParsedLine { label, inst, target } = parsed;
                ctx.note(label, target, bm.program().len() as Word);
                Ok(inst)
            },
            Err(e) => Err(e),
        }
    }

    /// The jump with `addr` for its address; any other instruction as it
    /// is.
    pub open spec fn with_address(self, addr: Word) -> Instruction {
        match self {
            Instruction::Jump(_) => Instruction::Jump(Some(addr)),
            Instruction::JumpIf(_) => Instruction::JumpIf(Some(addr)),
            other => other,
        }
    }
}

/// A program under assembly: the instructions read so far, and what is
/// known of the labels.
pub struct Assembly {
    pub program: Seq<Instruction>,
    pub ctx: Context,
}

/// A line that assembly passes over: one that is blank, or whose first
/// character after leading white space is `#`.
pub open spec fn is_skipped(line: Seq<char>) -> bool {
    trim_start(line).len() == 0 || trim_start(line)[0] == '#'
}

/// The assembly after one more line. A line that is not passed over adds
/// its instruction at the end of the program, and the address that this
/// instruction gets is what the line's label stands for from now on.
pub open spec fn feed(a: Assembly, line: Seq<char>) -> Result<Assembly, ParseErr> {
    if is_skipped(line) {
        Ok(a)
    } else {
        match parse_line(line) {
            Err(e) => Err(e),
            Ok(l) => Ok(
                Assembly {
                    program: a.program.push(l.inst),
                    ctx: a.ctx.noted(l, a.program.len() as Word),
                },
            ),
        }
    }
}

/// The assembly after the lines `lines`, in their order. The first line
/// that is refused ends it.
pub open spec fn scan(a: Assembly, lines: Seq<Seq<char>>) -> Result<Assembly, ParseErr>
    decreases lines.len(),
{
    if lines.len() == 0 {
        Ok(a)
    } else {
        match feed(a, lines[0]) {
            Err(e) => Err(e),
            Ok(b) => scan(b, lines.drop_first()),
        }
    }
}

/// The program after each waiting jump, in the order of `deferred`, got
/// the address of its label. The first label without an address ends it.
pub open spec fn resolve(
    program: Seq<Instruction>,
    labels: Map<Seq<char>, Word>,
    deferred: Seq<Deferred>,
) -> Result<Seq<Instruction>, ParseErr>
    decreases deferred.len(),
{
    if deferred.len() == 0 {
        Ok(program)
    } else if !labels.contains_key(deferred[0].label) {
        Err(ParseErr::UndefinedLabel(deferred[0].label))
    } else {
        let at = deferred[0].addr as int;
        resolve(
            program.update(at, program[at].with_address(labels[deferred[0].label])),
            labels,
            deferred.drop_first(),
        )
    }
}

/// What a source text assembles to. Its lines are read in their order from
/// an empty program and an empty context, a `Halt` is added at the end
/// whatever the last instruction is, and then the waiting jumps get their
/// addresses. The context is the one that the reading left.
pub open spec fn assembly_of(source: Seq<char>) -> Result<Assembly, ParseErr> {
    match scan(Assembly { program: Seq::empty(), ctx: Context::empty() }, lines(source)) {
        Err(e) => Err(e),
        Ok(a) => match resolve(
            a.program.push(Instruction::Halt),
            a.ctx.labels,
            a.ctx.deferred,
        ) {
            Err(e) => Err(e),
            Ok(program) => Ok(Assembly { program, ctx: a.ctx }),
        },
    }
}

/// The waiting jumps are the jumps of the program that lack an address:
/// each entry of `deferred` gives the place of such a jump, the places
/// rise, and no such jump is left out.
pub open spec fn in_step(program: Seq<Instruction>, deferred: Seq<Deferred>) -> bool {
    &&& forall|k: int|
        0 <= k < deferred.len() ==> 0 <= (#[trigger] deferred[k]).addr < program.len()
            && !program[deferred[k].addr as int].resolved()
    &&& forall|j: int, k: int|
        0 <= j < k < deferred.len() ==> (#[trigger] deferred[j]).addr < (#[trigger] deferred[k]).addr
    &&& forall|i: int|
        0 <= i < program.len() && !(#[trigger] program[i]).resolved() ==> exists|k: int|
            0 <= k < deferred.len() && (#[trigger] deferred[k]).addr == i
}

/// A line names a label to jump to exactly if its instruction is a jump
/// without an address.
pub proof fn lemma_target_of_line(line: Seq<char>)
    ensures
        parse_line(line) matches Ok(l) ==> (l.target is Some <==> !l.inst.resolved()),
{
}

/// One more line keeps the waiting jumps in step with the program, and
/// makes the program longer by one instruction at most.
pub proof fn lemma_feed_keeps_step(a: Assembly, line: Seq<char>)
    requires
        in_step(a.program, a.ctx.deferred),
        a.program.len() <= Word::MAX,
    ensures
        feed(a, line) matches Ok(b) ==> in_step(b.program, b.ctx.deferred) && a.program.len()
            <= b.program.len() <= a.program.len() + 1,
{
    if let Ok(b) = feed(a, line) {
        if !is_skipped(line) {
            lemma_target_of_line(line);
            let at = a.program.len() as int;
            assert forall|i: int| 0 <= i < b.program.len() && !(#[trigger] b.program[i]).resolved()
                implies exists|k: int|
                0 <= k < b.ctx.deferred.len() && (#[trigger] b.ctx.deferred[k]).addr == i by {
                if i < at {
                    let k = choose|k: int|
                        0 <= k < a.ctx.deferred.len() && (#[trigger] a.ctx.deferred[k]).addr == i;
                    assert(b.ctx.deferred[k].addr == i);
                } else {
                    assert(b.ctx.deferred[b.ctx.deferred.len() - 1].addr == i);
                }
            }
        }
    }
}

/// Giving the first waiting jump its address leaves the others in step
/// with the program.
pub proof fn lemma_resolve_keeps_step(program: Seq<Instruction>, deferred: Seq<Deferred>, addr: Word)
    requires
        in_step(program, deferred),
        deferred.len() > 0,
    ensures
        in_step(
            program.update(
                deferred[0].addr as int,
                program[deferred[0].addr as int].with_address(addr),
            ),
            deferred.drop_first(),
        ),
{
    let at = deferred[0].addr as int;
    let patched = program.update(at, program[at].with_address(addr));
    let rest = deferred.drop_first();
    assert forall|i: int| 0 <= i < patched.len() && !(#[trigger] patched[i]).resolved()
        implies exists|k: int| 0 <= k < rest.len() && (#[trigger] rest[k]).addr == i by {
        let k = choose|k: int| 0 <= k < deferred.len() && (#[trigger] deferred[k]).addr == i;
        assert(rest[k - 1].addr == i);
    }
}

/// Reading lines keeps the waiting jumps in step with the program, and
/// makes the program longer by one instruction for each line at most.
pub proof fn lemma_scan_keeps_step(a: Assembly, lines: Seq<Seq<char>>)
    requires
        in_step(a.program, a.ctx.deferred),
        a.program.len() + lines.len() <= Word::MAX,
    ensures
        scan(a, lines) matches Ok(b) ==> in_step(b.program, b.ctx.deferred) && a.program.len()
            <= b.program.len() <= a.program.len() + lines.len(),
    decreases lines.len(),
{
    if lines.len() > 0 {
        lemma_feed_keeps_step(a, lines[0]);
        if let Ok(b) = feed(a, lines[0]) {
            lemma_scan_keeps_step(b, lines.drop_first());
        }
    }
}

/// Where every label that a waiting jump names has an address, the jumps
/// get them: each waiting jump becomes the same kind of jump to the address
/// of its label, every other instruction stays, and no jump is left
/// without an address. Else the first waiting jump whose label has none
/// gives the error.
pub proof fn lemma_resolve(
    program: Seq<Instruction>,
    labels: Map<Seq<char>, Word>,
    deferred: Seq<Deferred>,
)
    requires
        in_step(program, deferred),
    ensures
        match resolve(program, labels, deferred) {
            Ok(done) => {
                &&& done.len() == program.len()
                &&& forall|k: int|
                    0 <= k < deferred.len() ==> labels.contains_key((#[trigger] deferred[k]).label)
                        && done[deferred[k].addr as int] == program[deferred[k].addr as int].with_address(
                        labels[deferred[k].label],
                    )
                &&& forall|i: int|
                    0 <= i < program.len() ==> (#[trigger] done[i]).resolved() && (
                    program[i].resolved() ==> done[i] == program[i])
            },
            Err(e) => exists|k: int|
                0 <= k < deferred.len() && e == ParseErr::UndefinedLabel(
                    (#[trigger] deferred[k]).label,
                ) && !labels.contains_key(deferred[k].label) && forall|j: int|
                    0 <= j < k ==> labels.contains_key((#[trigger] deferred[j]).label),
        },
    decreases deferred.len(),
{
    if deferred.len() == 0 {
        assert forall|i: int| 0 <= i < program.len() implies (#[trigger] program[i]).resolved() by {
            if !program[i].resolved() {
                let k = choose|k: int| 0 <= k < deferred.len() && (#[trigger] deferred[k]).addr == i;
            }
        }
    } else if labels.contains_key(deferred[0].label) {
        let at = deferred[0].addr as int;
        let addr = labels[deferred[0].label];
        let patched = program.update(at, program[at].with_address(addr));
        let rest = deferred.drop_first();
        lemma_resolve_keeps_step(program, deferred, addr);
        lemma_resolve(patched, labels, rest);
        match resolve(patched, labels, rest) {
            Ok(done) => {
                assert forall|k: int| 0 <= k < deferred.len() implies labels.contains_key(
                    (#[trigger] deferred[k]).label,
                ) && done[deferred[k].addr as int] == program[deferred[k].addr as int].with_address(
                    labels[deferred[k].label],
                ) by {
                    if k > 0 {
                        assert(deferred[0].addr < deferred[k].addr);
                    } else {
                        assert(patched[at].resolved());
                    }
                }
            },
            Err(e) => {
                let k = choose|k: int|
                    0 <= k < rest.len() && e == ParseErr::UndefinedLabel((#[trigger] rest[k]).label)
                        && !labels.contains_key(rest[k].label) && forall|j: int|
                        0 <= j < k ==> labels.contains_key((#[trigger] rest[j]).label);
                assert(rest[k] == deferred[k + 1]);
                assert forall|j: int| 0 <= j < k + 1 implies labels.contains_key(
                    (#[trigger] deferred[j]).label,
                ) by {
                    if j > 0 {
                        assert(rest[j - 1] == deferred[j]);
                    }
                }
            },
        }
    }
}

/// An assembled program ends in `Halt`, has at most one instruction for
/// each line of its source beside that `Halt`, and holds no jump without
/// an address.
pub proof fn lemma_assembly(source: Seq<char>)
    requires
        source.len() < Word::MAX,
    ensures
        assembly_of(source) matches Ok(a) ==> {
            &&& 1 <= a.program.len() <= lines(source).len() + 1
            &&& a.program.last() == Instruction::Halt
            &&& forall|i: int| 0 <= i < a.program.len() ==> (#[trigger] a.program[i]).resolved()
        },
{
    let start = Assembly { program: Seq::empty(), ctx: Context::empty() };
    lemma_lines_len(source, 0);
    lemma_scan_keeps_step(start, lines(source));
    if let Ok(a) = scan(start, lines(source)) {
        let whole = a.program.push(Instruction::Halt);
        assert(in_step(whole, a.ctx.deferred));
        lemma_resolve(whole, a.ctx.labels, a.ctx.deferred);
    }
}

/// Tells whether assembly passes over `line`.
pub fn skips(line: &Vec<char>) -> (b: bool)
    ensures
        b == is_skipped(line@),
{
    let indent = skip_run(line, 0, true);
    indent == line.len() || line[indent] == '#'
}

/// Assembles `source`. On success the result is the program, and `ctx`
/// holds the labels with their addresses and the jumps that named one. On
/// failure `ctx` is as it was. The program is as long as the source makes
/// it: a capacity is for the one who loads it to keep. The source must be
/// short enough for every address to fit a word.
pub fn assemble(source: &str, ctx: &mut BasmCtx) -> (r: Result<
    Vec<Instruction>,
    InstructionParseErr,
>)
    requires
        source@.len() < Word::MAX,
    ensures
        match assembly_of(source@) {
            Ok(a) => r is Ok && r->Ok_0@ == a.program && final(ctx)@ == a.ctx,
            Err(e) => r is Err && r->Err_0@ == e && final(ctx)@ == old(ctx)@,
        },
        r matches Ok(program) ==> program@.len() <= Word::MAX && forall|i: int|
            0 <= i < program@.len() ==> (#[trigger] program@[i]).resolved(),
{
    let chars = to_chars(source);
    let mut program: Vec<Instruction> = Vec::new();
    let mut work = BasmCtx::default();
    let mut from: usize = 0;
    let ghost start = Assembly { program: Seq::empty(), ctx: Context::empty() };
    while from < chars.len()
        invariant
            start == (Assembly { program: Seq::empty(), ctx: Context::empty() }),
            chars@ == source@,
            source@.len() < Word::MAX,
            from <= chars@.len(),
            program@.len() <= from,
            in_step(program@, work@.deferred),
            scan(start, lines(source@)) == scan(
                Assembly { program: program@, ctx: work@ },
                lines_from(chars@, from as int),
            ),
            *ctx == *old(ctx),
        decreases chars@.len() - from,
    {
        let ghost now = Assembly { program: program@, ctx: work@ };
        let end = find_char(&chars, '\n', from);
        let cut = if end < chars.len() && end > from && chars[end - 1] == '\r' {
            end - 1
        } else {
            end
        };
        let next = if end < chars.len() {
            end + 1
        } else {
            end
        };
        let line = copy_range(&chars, from, cut);
        proof {
            let piece = chars@.subrange(from as int, end as int);
            assert(line@ =~= if end < chars@.len() {
                without_cr(piece)
            } else {
                piece
            });
            let rest = lines_from(chars@, next as int);
            assert((seq![line@] + rest).drop_first() =~= rest);
            lemma_feed_keeps_step(now, line@);
        }
        if !skips(&line) {
            match read_line(&line) {
                Err(e) => {
                    return Err(e);
                },
                Ok(parsed) => {
                    let ParsedLine { label, inst, target } = parsed;
                    work.note(label, target, program.len() as Word);
                    program.push(inst);
                },
            }
        }
        from = next;
    }
    let ghost scanned = Assembly { program: program@, ctx: work@ };
    program.push(Instruction::Halt);
    proof {
        assert(work@.deferred.skip(0) =~= work@.deferred);
        assert(in_step(program@, work@.deferred));
    }
    let mut k: usize = 0;
    while k < work.deferred_operand.len()
        invariant
            k <= work@.deferred.len(),
            work@.deferred.len() == work.deferred_operand@.len(),
            work@ == scanned.ctx,
            program@.len() == scanned.program.len() + 1,
            in_step(program@, work@.deferred.skip(k as int)),
            resolve(scanned.program.push(Instruction::Halt), work@.labels, work@.deferred)
                == resolve(program@, work@.labels, work@.deferred.skip(k as int)),
            start == (Assembly { program: Seq::empty(), ctx: Context::empty() }),
            scan(start, lines(source@)) == Ok::<Assembly, ParseErr>(scanned),
            *ctx == *old(ctx),
        decreases work.deferred_operand@.len() - k,
    {
        let ghost waiting = work@.deferred.skip(k as int);
        let entry = &work.deferred_operand[k];
        assert(waiting.drop_first() =~= work@.deferred.skip(k + 1));
        match work.label_table.get(entry.label.as_str()) {
            None => {
                return Err(InstructionParseErr::UndefinedLabel(entry.label.clone()));
            },
            Some(addr) => {
                let at = entry.addr as usize;
                let patched = match program[at] {
                    Instruction::Jump(_) => Instruction::Jump(Some(*addr)),
                    Instruction::JumpIf(_) => Instruction::JumpIf(Some(*addr)),
                    other => other,
                };
                proof {
                    lemma_resolve_keeps_step(program@, waiting, *addr);
                }
                program.set(at, patched);
            },
        }
        k += 1;
    }
    proof {
        assert forall|i: int| 0 <= i < program@.len() implies (#[trigger] program@[i]).resolved() by {
            if !program@[i].resolved() {
                let k = choose|k: int|
                    0 <= k < Seq::<Deferred>::empty().len() && (#[trigger] Seq::<
                        Deferred,
                    >::empty()[k]).addr == i;
            }
        }
    }
    *ctx = work;
    Ok(program)
}

} // verus!
