//! The assembler: from source text to a program, and from a program to a
//! memory image.
//!
//! A program is first read in full, so that a label may be used before the line
//! that defines it; only then are addresses resolved and cells written.

use vstd::hash_map::StringHashMap;
use vstd::prelude::*;
use vstd::string::StrSliceExecFns;

use crate::error::Error;
use crate::isa::{decode_spec, Operation, MEMORY_SIZE};
use crate::statement::{
    label_on, statement_on, Address, AddressView, InstructionView, Instructions, Statement,
    StatementView,
};
use crate::text::{chars_of, line_spans, lines, locates};

verus! {

/// A program as it stands after reading: the instructions in the order of
/// their lines, which is the order of their cells, and the cell that each label
/// names.
pub struct Program {
    pub labels: Map<Seq<char>, usize>,
    pub instructions: Seq<InstructionView>,
}

impl Program {
    /// The program without lines.
    pub open spec fn empty() -> Program {
        Program { labels: Map::empty(), instructions: Seq::empty() }
    }

    /// This program with one more line at its end. The label of that line, if it
    /// has one, names the cell of the line from now on, whatever it named before.
    pub open spec fn with(self, statement: StatementView) -> Program {
        Program {
            labels: match statement.label {
                Some(name) => self.labels.insert(name, self.instructions.len() as usize),
                None => self.labels,
            },
            instructions: self.instructions.push(statement.instruction),
        }
    }
}

/// The program that a sequence of lines makes, or the failure at the first
/// line that is no statement.
pub open spec fn program_of(lines: Seq<Seq<char>>) -> Result<Program, Error>
    decreases lines.len(),
{
    if lines.len() == 0 {
        Ok(Program::empty())
    } else {
        match program_of(lines.drop_last()) {
            Err(e) => Err(e),
            Ok(program) => match statement_on(lines.last()) {
                Some(statement) => Ok(program.with(statement)),
                None => Err(Error::Syntax { line: (lines.len() - 1) as usize }),
            },
        }
    }
}

/// The program that a source text makes.
pub open spec fn parse_spec(source: Seq<char>) -> Result<Program, Error> {
    program_of(lines(source))
}

/// The number that an address resolves to: the number itself, or the cell that
/// the label names. A label that names no cell resolves to nothing.
pub open spec fn resolve(address: AddressView, labels: Map<Seq<char>, usize>) -> Option<usize> {
    match address {
        AddressView::Exact(n) => Some(n as usize),
        AddressView::Label(name) => if labels.contains_key(name) {
            Some(labels[name])
        } else {
            None
        },
    }
}

/// The cell that the operand of the instruction on line `line` stands for.
///
/// Fails with [`Error::UndefinedLabel`] where the operand is a label that names
/// no cell, and with [`Error::AddressOutOfRange`] where it resolves to a
/// number that is not the number of a cell.
pub open spec fn locate_spec(address: AddressView, labels: Map<Seq<char>, usize>, line: usize) -> Result<
    u8,
    Error,
> {
    match resolve(address, labels) {
        None => Err(Error::UndefinedLabel { line }),
        Some(n) => if n < MEMORY_SIZE {
            Ok(n as u8)
        } else {
            Err(Error::AddressOutOfRange { line, address: n })
        },
    }
}

/// The memory cell for the instruction on line `line`.
///
/// An instruction that works on a cell becomes the machine instruction of its
/// name on the cell that its operand stands for, and fails where the operand
/// stands for none. `DAT` becomes its value, or zero if it has none.
pub open spec fn encode_spec(
    instruction: InstructionView,
    labels: Map<Seq<char>, usize>,
    line: usize,
) -> Result<i16, Error> {
    match instruction {
        InstructionView::Inp => Ok(Operation::Inp.encode_spec()),
        InstructionView::Out => Ok(Operation::Out.encode_spec()),
        InstructionView::Hlt => Ok(Operation::Hlt.encode_spec()),
        InstructionView::Dat(value) => Ok(
            match value {
                Some(v) => v,
                None => 0i16,
            },
        ),
        _ => match locate_spec(instruction.address()->0, labels, line) {
            Ok(cell) => Ok(Operation::addressing(instruction.mnemonic(), cell).encode_spec()),
            Err(e) => Err(e),
        },
    }
}

impl Program {
    /// What encoding the instruction on line `line` gives.
    pub open spec fn encoded(self, line: int) -> Result<i16, Error> {
        encode_spec(self.instructions[line], self.labels, line as usize)
    }

    /// The failure of the first among the first `n` instructions that cannot be
    /// encoded, if there is one.
    pub open spec fn first_failure(self, n: nat) -> Option<Error>
        decreases n,
    {
        if n == 0 {
            None
        } else {
            match self.first_failure((n - 1) as nat) {
                Some(e) => Some(e),
                None => match self.encoded(n - 1) {
                    Err(e) => Some(e),
                    Ok(_) => None,
                },
            }
        }
    }

    /// What cell `i` of the memory holds at the start: the instruction of line
    /// `i`, encoded, and zero beyond the last line.
    pub open spec fn cell(self, i: int) -> i16 {
        if 0 <= i < self.instructions.len() {
            match self.encoded(i) {
                Ok(cell) => cell,
                Err(_) => 0i16,
            }
        } else {
            0i16
        }
    }
}

/// The memory image of a program.
///
/// Fails with [`Error::ProgramTooLong`] where the program has more lines than
/// the memory has cells, and otherwise with the failure of the first instruction
/// that cannot be encoded.
pub open spec fn assemble_spec(program: Program) -> Result<Seq<i16>, Error> {
    if program.instructions.len() > MEMORY_SIZE {
        Err(Error::ProgramTooLong { lines: program.instructions.len() as usize })
    } else {
        match program.first_failure(program.instructions.len()) {
            Some(e) => Err(e),
            None => Ok(Seq::new(MEMORY_SIZE as nat, |i: int| program.cell(i))),
        }
    }
}

/// The models of a sequence of instructions.
pub open spec fn instruction_views(instructions: Seq<Instructions>) -> Seq<InstructionView> {
    instructions.map_values(|instruction: Instructions| instruction@)
}

/// A program that has been read and not yet assembled.
pub struct IR {
    labels: StringHashMap<usize>,
    instructions: Vec<Instructions>,
}

impl View for IR {
    type V = Program;

    closed spec fn view(&self) -> Program {
        Program { labels: self.labels@, instructions: instruction_views(self.instructions@) }
    }
}

impl Address {
    /// Resolves this address with a table of labels.
    pub fn into_exact(&self, labels: &StringHashMap<usize>) -> (r: Option<usize>)
        ensures
            r == resolve(self@, labels@),
    {
        match self {
            Address::Exact(n) => Some(*n as usize),
            Address::Label(name) => match labels.get(name.as_str()) {
                Some(cell) => Some(*cell),
                None => None,
            },
        }
    }

    /// Finds the cell that this address, the operand of the instruction on line
    /// `line`, stands for.
    pub fn locate(&self, labels: &StringHashMap<usize>, line: usize) -> (r: Result<u8, Error>)
        ensures
            r == locate_spec(self@, labels@, line),
    {
        match self.into_exact(labels) {
            None => Err(Error::UndefinedLabel { line }),
            Some(n) => if n < MEMORY_SIZE {
                Ok(n as u8)
            } else {
                Err(Error::AddressOutOfRange { line, address: n })
            },
        }
    }
}

impl Instructions {
    /// Encodes this instruction, which stands on line `line`, as a memory cell.
    pub fn encode(&self, labels: &StringHashMap<usize>, line: usize) -> (r: Result<i16, Error>)
        ensures
            r == encode_spec(self@, labels@, line),
    {
        let operation = match self {
            Instructions::Inp => Operation::Inp,
            Instructions::Out => Operation::Out,
            Instructions::Hlt => Operation::Hlt,
            Instructions::Dat(value) => {
                return Ok(
                    match value {
                        Some(v) => *v,
                        None => 0,
                    },
                );
            },
            Instructions::Add(address) => Operation::Add(address.locate(labels, line)?),
            Instructions::Sub(address) => Operation::Sub(address.locate(labels, line)?),
            Instructions::Sta(address) => Operation::Sta(address.locate(labels, line)?),
            Instructions::Lda(address) => Operation::Lda(address.locate(labels, line)?),
            Instructions::Bra(address) => Operation::Bra(address.locate(labels, line)?),
            Instructions::Brz(address) => Operation::Brz(address.locate(labels, line)?),
            Instructions::Brp(address) => Operation::Brp(address.locate(labels, line)?),
        };
        Ok(operation.encode())
    }
}

impl IR {
    /// Reads a source text, one statement to a line.
    ///
    /// Fails with [`Error::Syntax`] at the first line that is no statement.
    pub fn parse_lines(input: &str) -> (r: Result<IR, Error>)
        ensures
            match (r, parse_spec(input@)) {
                (Ok(ir), Ok(program)) => ir@ == program,
                (Err(e), Err(failure)) => e == failure,
                _ => false,
            },
    {
        let chars = chars_of(input);
        let spans = line_spans(&chars);
        let ghost all = lines(input@);
        let mut labels: StringHashMap<usize> = StringHashMap::new();
        let mut instructions: Vec<Instructions> = Vec::new();
        let mut i: usize = 0;
        assert(all.take(0) == Seq::<Seq<char>>::empty());
        assert(instruction_views(instructions@) == Seq::<InstructionView>::empty());
        while i < spans.len()
            invariant
                all == lines(input@),
                locates(spans@, input@, all),
                i <= spans.len(),
                instructions.len() == i,
                program_of(all.take(i as int)) == Ok::<Program, Error>(
                    Program { labels: labels@, instructions: instruction_views(instructions@) },
                ),
            decreases spans.len() - i,
        {
            let line = input.substring_char(spans[i].0, spans[i].1);
            assert(line@ == all[i as int]);
            assert(all.take(i + 1).drop_last() == all.take(i as int));
            assert(all.take(i + 1).last() == all[i as int]);
            match Statement::parse(line) {
                None => {
                    proof {
                        lemma_failure_stays(all, i + 1);
                    }
                    return Err(Error::Syntax { line: i });
                },
                Some(statement) => {
                    let ghost before = instruction_views(instructions@);
                    let Statement { label, instruction } = statement;
                    match label {
                        Some(name) => {
                            labels.insert(name, i);
                        },
                        None => {},
                    }
                    instructions.push(instruction);
                    assert(instruction_views(instructions@) == before.push(instruction@));
                },
            }
            i += 1;
        }
        assert(all.take(i as int) == all);
        Ok(IR { labels, instructions })
    }

    /// Assembles the program into a memory image of a hundred cells. The
    /// instruction of each line goes to the cell of that number; the cells after
    /// the last line hold zero, which halts the machine.
    ///
    /// Fails with [`Error::ProgramTooLong`] where the program has more than a
    /// hundred lines. Otherwise fails at the first instruction whose operand
    /// stands for no cell: with [`Error::UndefinedLabel`] where it is a label that
    /// no line defines, with [`Error::AddressOutOfRange`] where it is a number
    /// above 99.
    pub fn assemble(self) -> (r: Result<[i16; 100], Error>)
        ensures
            match (r, assemble_spec(self@)) {
                (Ok(image), Ok(cells)) => image@ == cells,
                (Err(e), Err(failure)) => e == failure,
                _ => false,
            },
    {
        let count = self.instructions.len();
        if count > MEMORY_SIZE {
            return Err(Error::ProgramTooLong { lines: count });
        }
        let ghost program = self@;
        let mut memory: [i16; 100] = [0; 100];
        let mut i: usize = 0;
        while i < count
            invariant
                program == self@,
                count == self.instructions.len(),
                count <= MEMORY_SIZE,
                i <= count,
                program.first_failure(i as nat) is None,
                forall|j: int| 0 <= j < i ==> memory@[j] == program.cell(j),
                forall|j: int| i <= j < MEMORY_SIZE ==> memory@[j] == 0,
            decreases count - i,
        {
            match self.instructions[i].encode(&self.labels, i) {
                Err(e) => {
                    proof {
                        lemma_first_failure_stays(program, (i + 1) as nat, count as nat);
                    }
                    return Err(e);
                },
                Ok(cell) => {
                    memory[i] = cell;
                },
            }
            i += 1;
        }
        assert(memory@ == Seq::new(MEMORY_SIZE as nat, |i: int| program.cell(i)));
        Ok(memory)
    }
}

/// A program has one instruction for each line, in the order of the lines:
/// the instruction of line `i` is the one that the words of line `i` make.
pub proof fn lemma_program_follows_lines(lines: Seq<Seq<char>>)
    requires
        program_of(lines) is Ok,
    ensures
        program_of(lines)->Ok_0.instructions.len() == lines.len(),
        forall|i: int|
            0 <= i < lines.len() ==> (#[trigger] statement_on(lines[i])) == Some(
                StatementView {
                    label: label_on(lines[i]),
                    instruction: program_of(lines)->Ok_0.instructions[i],
                },
            ),
    decreases lines.len(),
{
    if lines.len() > 0 {
        let front = lines.drop_last();
        lemma_program_follows_lines(front);
        assert forall|i: int| 0 <= i < lines.len() implies (#[trigger] statement_on(lines[i]))
            == Some(
            StatementView {
                label: label_on(lines[i]),
                instruction: program_of(lines)->Ok_0.instructions[i],
            },
        ) by {
            if i < front.len() {
                assert(front[i] == lines[i]);
            }
        }
    }
}

/// A label names the line that defines it, wherever the label is used: where
/// `line` is the last line with the label `name`, `name` stands for `line`.
pub proof fn lemma_label_names_its_line(lines: Seq<Seq<char>>, line: int, name: Seq<char>)
    requires
        program_of(lines) is Ok,
        0 <= line < lines.len(),
        label_on(lines[line]) == Some(name),
        forall|j: int| line < j < lines.len() ==> #[trigger] label_on(lines[j]) != Some(name),
    ensures
        resolve(AddressView::Label(name), program_of(lines)->Ok_0.labels) == Some(line as usize),
    decreases lines.len(),
{
    let front = lines.drop_last();
    lemma_program_follows_lines(front);
    if line < lines.len() - 1 {
        assert(front[line] == lines[line]);
        assert forall|j: int| line < j < front.len() implies #[trigger] label_on(front[j]) != Some(
            name,
        ) by {
            assert(front[j] == lines[j]);
        }
        lemma_label_names_its_line(front, line, name);
        assert(label_on(lines[lines.len() - 1]) != Some(name));
    }
}

/// Only a label that some line defines stands for a cell.
pub proof fn lemma_label_is_defined(lines: Seq<Seq<char>>, name: Seq<char>)
    requires
        program_of(lines) is Ok,
        program_of(lines)->Ok_0.labels.contains_key(name),
    ensures
        exists|line: int| 0 <= line < lines.len() && #[trigger] label_on(lines[line]) == Some(name),
    decreases lines.len(),
{
    if lines.len() > 0 {
        let front = lines.drop_last();
        let last = lines.len() - 1;
        if label_on(lines[last]) == Some(name) {
        } else {
            lemma_label_is_defined(front, name);
            let line = choose|line: int|
                0 <= line < front.len() && #[trigger] label_on(front[line]) == Some(name);
            assert(front[line] == lines[line]);
        }
    }
}

/// Reading fails at the first line that is no statement, and names that line.
pub proof fn lemma_first_bad_line(lines: Seq<Seq<char>>, line: int)
    requires
        0 <= line < lines.len(),
        statement_on(lines[line]) is None,
        forall|j: int| 0 <= j < line ==> (#[trigger] statement_on(lines[j])) is Some,
    ensures
        program_of(lines) == Err::<Program, Error>(Error::Syntax { line: line as usize }),
{
    lemma_good_lines(lines.take(line));
    assert(lines.take(line + 1).drop_last() == lines.take(line));
    lemma_failure_stays(lines, line + 1);
}

/// Every instruction of an assembled program can be read back from its cell:
/// the cell decodes to the machine instruction of the same name, on the cell
/// that the operand stands for. Only `DAT` is left out, whose cell is a value
/// and may look like any instruction.
pub proof fn lemma_assembled_cells_decode(program: Program, line: int)
    requires
        assemble_spec(program) is Ok,
        0 <= line < program.instructions.len(),
        !(program.instructions[line] is Dat),
    ensures
        ({
            let cell = assemble_spec(program)->Ok_0[line];
            &&& decode_spec(cell) matches Some(operation)
            &&& operation.mnemonic() == program.instructions[line].mnemonic()
            &&& operation.well_formed()
            &&& program.instructions[line].address() matches Some(address) ==> resolve(
                address,
                program.labels,
            ) == Some(operation.address()->0 as usize)
        }),
{
    lemma_no_failure(program, program.instructions.len(), line);
}

/// A program that uses a label which names no cell is not assembled. The
/// failure is [`Error::UndefinedLabel`] on the line of the use, unless the
/// program is too long or an earlier line fails first.
pub proof fn lemma_undefined_label_rejected(program: Program, line: int, name: Seq<char>)
    requires
        0 <= line < program.instructions.len(),
        program.instructions[line].address() == Some(AddressView::Label(name)),
        !program.labels.contains_key(name),
    ensures
        assemble_spec(program) is Err,
        program.instructions.len() <= MEMORY_SIZE && (forall|j: int|
            0 <= j < line ==> (#[trigger] program.encoded(j)) is Ok) ==> assemble_spec(program)
            == Err::<Seq<i16>, Error>(Error::UndefinedLabel { line: line as usize }),
{
    if program.instructions.len() <= MEMORY_SIZE {
        if program.first_failure(program.instructions.len()) is None {
            lemma_no_failure(program, program.instructions.len(), line);
        }
        if forall|j: int| 0 <= j < line ==> (#[trigger] program.encoded(j)) is Ok {
            lemma_first_failure(program, program.instructions.len(), line);
        }
    }
}

/// A program with an operand that resolves to a number above 99 is not
/// assembled. The failure is [`Error::AddressOutOfRange`] on the line of the
/// operand, unless the program is too long or an earlier line fails first.
pub proof fn lemma_address_out_of_range_rejected(program: Program, line: int, address: usize)
    requires
        0 <= line < program.instructions.len(),
        program.instructions[line].address() matches Some(operand) && resolve(
            operand,
            program.labels,
        ) == Some(address),
        address >= MEMORY_SIZE,
    ensures
        assemble_spec(program) is Err,
        program.instructions.len() <= MEMORY_SIZE && (forall|j: int|
            0 <= j < line ==> (#[trigger] program.encoded(j)) is Ok) ==> assemble_spec(program)
            == Err::<Seq<i16>, Error>(
            Error::AddressOutOfRange { line: line as usize, address },
        ),
{
    if program.instructions.len() <= MEMORY_SIZE {
        if program.first_failure(program.instructions.len()) is None {
            lemma_no_failure(program, program.instructions.len(), line);
        }
        if forall|j: int| 0 <= j < line ==> (#[trigger] program.encoded(j)) is Ok {
            lemma_first_failure(program, program.instructions.len(), line);
        }
    }
}

/// A failure among the first lines is the failure of the whole.
proof fn lemma_failure_stays(lines: Seq<Seq<char>>, k: int)
    requires
        0 <= k <= lines.len(),
        program_of(lines.take(k)) is Err,
    ensures
        program_of(lines) == program_of(lines.take(k)),
    decreases lines.len() - k,
{
    if k < lines.len() {
        assert(lines.drop_last().take(k) == lines.take(k));
        lemma_failure_stays(lines.drop_last(), k);
    } else {
        assert(lines.take(k) == lines);
    }
}

/// Lines that are all statements make a program.
proof fn lemma_good_lines(lines: Seq<Seq<char>>)
    requires
        forall|j: int| 0 <= j < lines.len() ==> (#[trigger] statement_on(lines[j])) is Some,
    ensures
        program_of(lines) is Ok,
    decreases lines.len(),
{
    if lines.len() > 0 {
        let front = lines.drop_last();
        assert forall|j: int| 0 <= j < front.len() implies (#[trigger] statement_on(front[j])) is Some by {
            assert(front[j] == lines[j]);
        }
        lemma_good_lines(front);
        assert(statement_on(lines[lines.len() - 1]) is Some);
    }
}

/// A failure among the first instructions is the failure of the whole.
proof fn lemma_first_failure_stays(program: Program, k: nat, n: nat)
    requires
        k <= n,
        program.first_failure(k) is Some,
    ensures
        program.first_failure(n) == program.first_failure(k),
    decreases n - k,
{
    if k < n {
        lemma_first_failure_stays(program, k, (n - 1) as nat);
    }
}

/// Assembly fails at the first instruction that cannot be encoded.
proof fn lemma_first_failure(program: Program, n: nat, line: int)
    requires
        0 <= line < n,
        program.encoded(line) is Err,
        forall|j: int| 0 <= j < line ==> (#[trigger] program.encoded(j)) is Ok,
    ensures
        program.first_failure(n) == Some(program.encoded(line)->Err_0),
    decreases n,
{
    lemma_all_encoded(program, line as nat);
    lemma_first_failure_stays(program, (line + 1) as nat, n);
}

/// Where each of the first instructions can be encoded, none of them fails.
proof fn lemma_all_encoded(program: Program, n: nat)
    requires
        forall|j: int| 0 <= j < n ==> (#[trigger] program.encoded(j)) is Ok,
    ensures
        program.first_failure(n) is None,
    decreases n,
{
    if n > 0 {
        lemma_all_encoded(program, (n - 1) as nat);
    }
}

/// Where no instruction fails, each one can be encoded.
proof fn lemma_no_failure(program: Program, n: nat, i: int)
    requires
        program.first_failure(n) is None,
        0 <= i < n,
    ensures
        program.encoded(i) is Ok,
    decreases n,
{
    if i < n - 1 {
        lemma_no_failure(program, (n - 1) as nat, i);
    }
}

} // verus!
