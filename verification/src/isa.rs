//! The instruction set: what a memory cell means when it is fetched as an
//! instruction, and the cell that stands for an instruction.
//!
//! A cell holds an opcode in its hundreds and an operand in its last two
//! digits. The assembler writes cells with [`Operation::encode`] and the
//! machine reads them with [`decode`], so the two cannot drift apart.

use vstd::prelude::*;

verus! {

/// The number of cells of the memory.
pub const MEMORY_SIZE: usize = 100;

/// The names that instructions have in source text.
#[derive(Debug, Clone, Copy, PartialEq, Eq, Structural)]
pub enum Mnemonic {
    Add,
    Sub,
    Sta,
    Lda,
    Bra,
    Brz,
    Brp,
    Inp,
    Out,
    Hlt,
    Dat,
}

/// An instruction as the machine executes it. An operand is the address of a cell.
#[derive(Debug, Clone, Copy, PartialEq, Eq, Structural)]
pub enum Operation {
    /// Stop.
    Hlt,
    /// Add the cell to the accumulator.
    Add(u8),
    /// Subtract the cell from the accumulator.
    Sub(u8),
    /// Store the accumulator in the cell.
    Sta(u8),
    /// Load the accumulator from the cell.
    Lda(u8),
    /// Continue at the cell.
    Bra(u8),
    /// Continue at the cell if the accumulator is zero.
    Brz(u8),
    /// Continue at the cell if the accumulator is zero or more.
    Brp(u8),
    /// Read a value into the accumulator.
    Inp,
    /// Write the accumulator out.
    Out,
}

impl Mnemonic {
    /// Whether an instruction of this name has the address of a cell as its operand.
    pub open spec fn takes_address(self) -> bool {
        self is Add || self is Sub || self is Sta || self is Lda || self is Bra || self is Brz
            || self is Brp
    }
}

impl Operation {
    /// The name of this instruction.
    pub open spec fn mnemonic(self) -> Mnemonic {
        match self {
            Operation::Hlt => Mnemonic::Hlt,
            Operation::Add(_) => Mnemonic::Add,
            Operation::Sub(_) => Mnemonic::Sub,
            Operation::Sta(_) => Mnemonic::Sta,
            Operation::Lda(_) => Mnemonic::Lda,
            Operation::Bra(_) => Mnemonic::Bra,
            Operation::Brz(_) => Mnemonic::Brz,
            Operation::Brp(_) => Mnemonic::Brp,
            Operation::Inp => Mnemonic::Inp,
            Operation::Out => Mnemonic::Out,
        }
    }

    /// The address this instruction works on, if it has one.
    pub open spec fn address(self) -> Option<u8> {
        match self {
            Operation::Add(a)
            | Operation::Sub(a)
            | Operation::Sta(a)
            | Operation::Lda(a)
            | Operation::Bra(a)
            | Operation::Brz(a)
            | Operation::Brp(a) => Some(a),
            _ => None,
        }
    }

    /// Whether the address of this instruction, if it has one, is that of a cell.
    pub open spec fn well_formed(self) -> bool {
        self.address() matches Some(a) ==> a < MEMORY_SIZE
    }

    /// The instruction named `mnemonic` that works on `address`.
    pub open spec fn addressing(mnemonic: Mnemonic, address: u8) -> Operation
        recommends
            mnemonic.takes_address(),
    {
        match mnemonic {
            Mnemonic::Add => Operation::Add(address),
            Mnemonic::Sub => Operation::Sub(address),
            Mnemonic::Sta => Operation::Sta(address),
            Mnemonic::Lda => Operation::Lda(address),
            Mnemonic::Bra => Operation::Bra(address),
            Mnemonic::Brz => Operation::Brz(address),
            _ => Operation::Brp(address),
        }
    }

    /// The cell that stands for this instruction: a hundred times the opcode,
    /// plus the operand.
    pub open spec fn encode_spec(self) -> i16 {
        match self {
            Operation::Hlt => 0i16,
            Operation::Add(a) => (100 + a) as i16,
            Operation::Sub(a) => (200 + a) as i16,
            Operation::Sta(a) => (300 + a) as i16,
            Operation::Lda(a) => (500 + a) as i16,
            Operation::Bra(a) => (600 + a) as i16,
            Operation::Brz(a) => (700 + a) as i16,
            Operation::Brp(a) => (800 + a) as i16,
            Operation::Inp => 901i16,
            Operation::Out => 902i16,
        }
    }

    /// Encodes this instruction as a memory cell.
    #[verifier::when_used_as_spec(encode_spec)]
    pub fn encode(self) -> (cell: i16)
        ensures
            cell == self.encode_spec(),
    {
        match self {
            Operation::Hlt => 0,
            Operation::Add(a) => 100 + a as i16,
            Operation::Sub(a) => 200 + a as i16,
            Operation::Sta(a) => 300 + a as i16,
            Operation::Lda(a) => 500 + a as i16,
            Operation::Bra(a) => 600 + a as i16,
            Operation::Brz(a) => 700 + a as i16,
            Operation::Brp(a) => 800 + a as i16,
            Operation::Inp => 901,
            Operation::Out => 902,
        }
    }
}

/// The opcode of a cell: the cell divided by a hundred, rounded toward zero.
pub open spec fn opcode_of(cell: i16) -> int {
    if cell >= 0 {
        cell / 100
    } else {
        -((-cell) / 100)
    }
}

/// The operand of a cell: what is left of the cell when a hundred times its
/// opcode is taken away.
pub open spec fn operand_of(cell: i16) -> int {
    cell - 100 * opcode_of(cell)
}

/// The instruction that a cell stands for. Opcode 0 halts whatever the operand;
/// opcode 9 is input with operand 1 and output with operand 2. No instruction
/// has opcode 4, a negative opcode or one above 9, or opcode 9 with another
/// operand.
pub open spec fn decode_spec(cell: i16) -> Option<Operation> {
    let code = opcode_of(cell);
    let operand = operand_of(cell);
    if code == 0 {
        Some(Operation::Hlt)
    } else if code == 1 {
        Some(Operation::Add(operand as u8))
    } else if code == 2 {
        Some(Operation::Sub(operand as u8))
    } else if code == 3 {
        Some(Operation::Sta(operand as u8))
    } else if code == 5 {
        Some(Operation::Lda(operand as u8))
    } else if code == 6 {
        Some(Operation::Bra(operand as u8))
    } else if code == 7 {
        Some(Operation::Brz(operand as u8))
    } else if code == 8 {
        Some(Operation::Brp(operand as u8))
    } else if code == 9 && operand == 1 {
        Some(Operation::Inp)
    } else if code == 9 && operand == 2 {
        Some(Operation::Out)
    } else {
        None
    }
}

/// Decodes a memory cell. An instruction that comes out of it addresses a cell
/// of the memory.
#[verifier::when_used_as_spec(decode_spec)]
pub fn decode(cell: i16) -> (r: Option<Operation>)
    ensures
        r == decode_spec(cell),
        r matches Some(operation) ==> operation.well_formed(),
{
    let code = cell / 100;
    let operand = cell % 100;
    if code == 0 {
        Some(Operation::Hlt)
    } else if code < 0 || code > 9 || code == 4 {
        None
    } else if code == 9 {
        if operand == 1 {
            Some(Operation::Inp)
        } else if operand == 2 {
            Some(Operation::Out)
        } else {
            None
        }
    } else {
        let address = operand as u8;
        if code == 1 {
            Some(Operation::Add(address))
        } else if code == 2 {
            Some(Operation::Sub(address))
        } else if code == 3 {
            Some(Operation::Sta(address))
        } else if code == 5 {
            Some(Operation::Lda(address))
        } else if code == 6 {
            Some(Operation::Bra(address))
        } else if code == 7 {
            Some(Operation::Brz(address))
        } else {
            Some(Operation::Brp(address))
        }
    }
}

/// Decoding undoes encoding: the cell written for an instruction is read back
/// as that instruction.
pub proof fn lemma_decode_encode(operation: Operation)
    requires
        operation.well_formed(),
    ensures
        decode_spec(operation.encode_spec()) == Some(operation),
{
}

/// Encoding undoes decoding, except that every cell with opcode 0 halts: the
/// instruction read from a cell is written back as that cell, or as 0 for a halt.
pub proof fn lemma_encode_decode(cell: i16)
    requires
        decode_spec(cell) is Some,
    ensures
        decode_spec(cell) == Some(Operation::Hlt) ==> -100 < cell < 100,
        decode_spec(cell) != Some(Operation::Hlt) ==> decode_spec(cell)->0.encode_spec() == cell,
{
}

} // verus!
