//! The statements of the source text: an instruction to a line, with or without
//! a label in front.

use vstd::prelude::*;
use vstd::string::StrSliceExecFns;

use crate::isa::Mnemonic;
use crate::text::{
    capital, chars_of, parse_i16, parse_u16, signed_literal, unsigned_literal, upper, word_spans,
    words,
};

verus! {

/// The operand of an instruction that works on a cell: the cell's number, or
/// the name of a label that stands for it.
#[derive(Debug)]
pub enum Address {
    Exact(u16),
    Label(String),
}

/// An instruction as written in the source.
#[derive(Debug)]
pub enum Instructions {
    Add(Address),
    Sub(Address),
    Sta(Address),
    Lda(Address),
    Bra(Address),
    Brz(Address),
    Brp(Address),
    Inp,
    Out,
    Hlt,
    /// A cell of data, zero where no value is given.
    Dat(Option<i16>),
}

/// A line of the source: an instruction, with or without a label in front.
#[derive(Debug)]
pub struct Statement {
    pub label: Option<String>,
    pub instruction: Instructions,
}

/// The model of an [`Address`] that contracts speak of.
pub enum AddressView {
    Exact(u16),
    Label(Seq<char>),
}

/// The model of an instruction of the source that contracts speak of.
pub enum InstructionView {
    Add(AddressView),
    Sub(AddressView),
    Sta(AddressView),
    Lda(AddressView),
    Bra(AddressView),
    Brz(AddressView),
    Brp(AddressView),
    Inp,
    Out,
    Hlt,
    Dat(Option<i16>),
}

/// The model of a [`Statement`] that contracts speak of.
pub struct StatementView {
    pub label: Option<Seq<char>>,
    pub instruction: InstructionView,
}

impl View for Address {
    type V = AddressView;

    open spec fn view(&self) -> AddressView {
        match self {
            Address::Exact(n) => AddressView::Exact(*n),
            Address::Label(name) => AddressView::Label(name@),
        }
    }
}

impl View for Instructions {
    type V = InstructionView;

    open spec fn view(&self) -> InstructionView {
        match self {
            Instructions::Add(a) => InstructionView::Add(a@),
            Instructions::Sub(a) => InstructionView::Sub(a@),
            Instructions::Sta(a) => InstructionView::Sta(a@),
            Instructions::Lda(a) => InstructionView::Lda(a@),
            Instructions::Bra(a) => InstructionView::Bra(a@),
            Instructions::Brz(a) => InstructionView::Brz(a@),
            Instructions::Brp(a) => InstructionView::Brp(a@),
            Instructions::Inp => InstructionView::Inp,
            Instructions::Out => InstructionView::Out,
            Instructions::Hlt => InstructionView::Hlt,
            Instructions::Dat(value) => InstructionView::Dat(*value),
        }
    }
}

impl View for Statement {
    type V = StatementView;

    open spec fn view(&self) -> StatementView {
        StatementView {
            label: match self.label {
                Some(name) => Some(name@),
                None => None,
            },
            instruction: self.instruction@,
        }
    }
}

impl InstructionView {
    /// The name of this instruction.
    pub open spec fn mnemonic(self) -> Mnemonic {
        match self {
            InstructionView::Add(_) => Mnemonic::Add,
            InstructionView::Sub(_) => Mnemonic::Sub,
            InstructionView::Sta(_) => Mnemonic::Sta,
            InstructionView::Lda(_) => Mnemonic::Lda,
            InstructionView::Bra(_) => Mnemonic::Bra,
            InstructionView::Brz(_) => Mnemonic::Brz,
            InstructionView::Brp(_) => Mnemonic::Brp,
            InstructionView::Inp => Mnemonic::Inp,
            InstructionView::Out => Mnemonic::Out,
            InstructionView::Hlt => Mnemonic::Hlt,
            InstructionView::Dat(_) => Mnemonic::Dat,
        }
    }

    /// The operand of this instruction, if it is one that works on a cell.
    pub open spec fn address(self) -> Option<AddressView> {
        match self {
            InstructionView::Add(a)
            | InstructionView::Sub(a)
            | InstructionView::Sta(a)
            | InstructionView::Lda(a)
            | InstructionView::Bra(a)
            | InstructionView::Brz(a)
            | InstructionView::Brp(a) => Some(a),
            _ => None,
        }
    }

    /// The instruction named `mnemonic` with the operand `address`.
    pub open spec fn addressing(mnemonic: Mnemonic, address: AddressView) -> InstructionView
        recommends
            mnemonic.takes_address(),
    {
        match mnemonic {
            Mnemonic::Add => InstructionView::Add(address),
            Mnemonic::Sub => InstructionView::Sub(address),
            Mnemonic::Sta => InstructionView::Sta(address),
            Mnemonic::Lda => InstructionView::Lda(address),
            Mnemonic::Bra => InstructionView::Bra(address),
            Mnemonic::Brz => InstructionView::Brz(address),
            _ => InstructionView::Brp(address),
        }
    }
}

/// Whether `word` is the three letters `a`, `b`, `c`, each in either case.
pub open spec fn spells(word: Seq<char>, a: char, b: char, c: char) -> bool {
    word.len() == 3 && upper(word[0]) == a && upper(word[1]) == b && upper(word[2]) == c
}

/// The instruction name that `word` is, if it is one.
pub open spec fn mnemonic_of(word: Seq<char>) -> Option<Mnemonic> {
    if spells(word, 'A', 'D', 'D') {
        Some(Mnemonic::Add)
    } else if spells(word, 'S', 'U', 'B') {
        Some(Mnemonic::Sub)
    } else if spells(word, 'S', 'T', 'A') {
        Some(Mnemonic::Sta)
    } else if spells(word, 'L', 'D', 'A') {
        Some(Mnemonic::Lda)
    } else if spells(word, 'B', 'R', 'A') {
        Some(Mnemonic::Bra)
    } else if spells(word, 'B', 'R', 'Z') {
        Some(Mnemonic::Brz)
    } else if spells(word, 'B', 'R', 'P') {
        Some(Mnemonic::Brp)
    } else if spells(word, 'I', 'N', 'P') {
        Some(Mnemonic::Inp)
    } else if spells(word, 'O', 'U', 'T') {
        Some(Mnemonic::Out)
    } else if spells(word, 'H', 'L', 'T') {
        Some(Mnemonic::Hlt)
    } else if spells(word, 'D', 'A', 'T') {
        Some(Mnemonic::Dat)
    } else {
        None
    }
}

/// The address that `word` denotes: a cell number where `word` is an unsigned
/// 16-bit literal, and a label of that name where it is not.
pub open spec fn address_of(word: Seq<char>) -> AddressView {
    match unsigned_literal(word) {
        Some(n) => AddressView::Exact(n),
        None => AddressView::Label(word),
    }
}

/// The instruction that a name and an operand make.
///
/// The seven instructions that work on a cell need an operand. `INP`, `OUT`
/// and `HLT` take none and pay no heed to one. `DAT` takes the operand as its
/// value where it is a signed 16-bit literal, and has no value otherwise.
pub open spec fn instruction_of(name: Seq<char>, operand: Option<Seq<char>>) -> Option<
    InstructionView,
> {
    match mnemonic_of(name) {
        None => None,
        Some(Mnemonic::Inp) => Some(InstructionView::Inp),
        Some(Mnemonic::Out) => Some(InstructionView::Out),
        Some(Mnemonic::Hlt) => Some(InstructionView::Hlt),
        Some(Mnemonic::Dat) => Some(
            InstructionView::Dat(
                match operand {
                    Some(word) => signed_literal(word),
                    None => None,
                },
            ),
        ),
        Some(mnemonic) => match operand {
            Some(word) => Some(InstructionView::addressing(mnemonic, address_of(word))),
            None => None,
        },
    }
}

/// The statement that the words of a line make.
///
/// Of three words the first is a label and the other two are an instruction
/// and its operand. Any other line is first read as an instruction, its
/// second word being the operand; if that fails, the first word is a label and
/// the second an instruction without operand. Words after the second are then
/// not looked at. A line without words is no statement.
pub open spec fn statement_of(words: Seq<Seq<char>>) -> Option<StatementView> {
    if words.len() == 3 {
        match instruction_of(words[1], Some(words[2])) {
            Some(instruction) => Some(StatementView { label: Some(words[0]), instruction }),
            None => None,
        }
    } else if words.len() == 0 {
        None
    } else {
        let operand = if words.len() >= 2 {
            Some(words[1])
        } else {
            None
        };
        match instruction_of(words[0], operand) {
            Some(instruction) => Some(StatementView { label: None, instruction }),
            None => if words.len() >= 2 {
                match instruction_of(words[1], None) {
                    Some(instruction) => Some(StatementView { label: Some(words[0]), instruction }),
                    None => None,
                }
            } else {
                None
            },
        }
    }
}

/// The statement that a line is, if it is one.
pub open spec fn statement_on(line: Seq<char>) -> Option<StatementView> {
    statement_of(words(line))
}

/// The label that a line defines, if it is a statement with a label.
pub open spec fn label_on(line: Seq<char>) -> Option<Seq<char>> {
    match statement_on(line) {
        Some(statement) => statement.label,
        None => None,
    }
}

/// The characters of an operand that may be absent.
pub open spec fn operand_view(operand: Option<&str>) -> Option<Seq<char>> {
    match operand {
        Some(word) => Some(word@),
        None => None,
    }
}

/// Recognises the name of an instruction, in capitals or not.
pub fn recognise(word: &str) -> (r: Option<Mnemonic>)
    ensures
        r == mnemonic_of(word@),
{
    let chars = chars_of(word);
    if chars.len() != 3 {
        return None;
    }
    let a = capital(chars[0]);
    let b = capital(chars[1]);
    let c = capital(chars[2]);
    if a == 'A' && b == 'D' && c == 'D' {
        Some(Mnemonic::Add)
    } else if a == 'S' && b == 'U' && c == 'B' {
        Some(Mnemonic::Sub)
    } else if a == 'S' && b == 'T' && c == 'A' {
        Some(Mnemonic::Sta)
    } else if a == 'L' && b == 'D' && c == 'A' {
        Some(Mnemonic::Lda)
    } else if a == 'B' && b == 'R' && c == 'A' {
        Some(Mnemonic::Bra)
    } else if a == 'B' && b == 'R' && c == 'Z' {
        Some(Mnemonic::Brz)
    } else if a == 'B' && b == 'R' && c == 'P' {
        Some(Mnemonic::Brp)
    } else if a == 'I' && b == 'N' && c == 'P' {
        Some(Mnemonic::Inp)
    } else if a == 'O' && b == 'U' && c == 'T' {
        Some(Mnemonic::Out)
    } else if a == 'H' && b == 'L' && c == 'T' {
        Some(Mnemonic::Hlt)
    } else if a == 'D' && b == 'A' && c == 'T' {
        Some(Mnemonic::Dat)
    } else {
        None
    }
}

impl Address {
    /// Reads an operand: a cell number if it is one, a label otherwise.
    pub fn from_str(s: &str) -> (address: Address)
        ensures
            address@ == address_of(s@),
    {
        match parse_u16(s) {
            Some(n) => Address::Exact(n),
            None => Address::Label(s.to_owned()),
        }
    }
}

impl Instructions {
    /// Makes an instruction of a name and an operand, if they are one.
    pub fn parse(name: &str, operand: Option<&str>) -> (r: Option<Instructions>)
        ensures
            match r {
                Some(instruction) => instruction_of(name@, operand_view(operand)) == Some(
                    instruction@,
                ),
                None => instruction_of(name@, operand_view(operand)) is None,
            },
    {
        let mnemonic = match recognise(name) {
            Some(mnemonic) => mnemonic,
            None => { return None; },
        };
        match mnemonic {
            Mnemonic::Inp => Some(Instructions::Inp),
            Mnemonic::Out => Some(Instructions::Out),
            Mnemonic::Hlt => Some(Instructions::Hlt),
            Mnemonic::Dat => match operand {
                Some(word) => Some(Instructions::Dat(parse_i16(word))),
                None => Some(Instructions::Dat(None)),
            },
            _ => match operand {
                None => None,
                Some(word) => {
                    let address = Address::from_str(word);
                    Some(
                        match mnemonic {
                            Mnemonic::Add => Instructions::Add(address),
                            Mnemonic::Sub => Instructions::Sub(address),
                            Mnemonic::Sta => Instructions::Sta(address),
                            Mnemonic::Lda => Instructions::Lda(address),
                            Mnemonic::Bra => Instructions::Bra(address),
                            Mnemonic::Brz => Instructions::Brz(address),
                            _ => Instructions::Brp(address),
                        },
                    )
                },
            },
        }
    }
}

impl Statement {
    /// Reads one line of the source.
    pub fn parse(line: &str) -> (r: Option<Statement>)
        ensures
            match r {
                Some(statement) => statement_on(line@) == Some(statement@),
                None => statement_on(line@) is None,
            },
    {
        let chars = chars_of(line);
        let spans = word_spans(&chars);
        let count = spans.len();
        if count == 0 {
            return None;
        }
        let first = line.substring_char(spans[0].0, spans[0].1);
        if count == 3 {
            let second = line.substring_char(spans[1].0, spans[1].1);
            let third = line.substring_char(spans[2].0, spans[2].1);
            match Instructions::parse(second, Some(third)) {
                Some(instruction) => Some(Statement { label: Some(first.to_owned()), instruction }),
                None => None,
            }
        } else {
            let second = if count >= 2 {
                Some(line.substring_char(spans[1].0, spans[1].1))
            } else {
                None
            };
            match Instructions::parse(first, second) {
                Some(instruction) => Some(Statement { label: None, instruction }),
                None => match second {
                    Some(word) => match Instructions::parse(word, None) {
                        Some(instruction) => Some(
                            Statement { label: Some(first.to_owned()), instruction },
                        ),
                        None => None,
                    },
                    None => None,
                },
            }
        }
    }
}

} // verus!
