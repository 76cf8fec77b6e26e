//! An assembler for a 16-bit fixed-architecture toy machine.
//!
//! The library translates assembly text (address instructions, compute
//! instructions, and label declarations) into the machine's 16-bit binary
//! instruction words, rendered as lines of sixteen `0`/`1` characters.
//! Translation is all-or-nothing: the first offending line aborts the run
//! with a structured error.

use vstd::prelude::*;

pub mod code;
pub mod decoder;
pub mod parser;
pub mod symbol_table;
pub mod text;

verus! {

/// A fatal translation failure. Every error identifies the zero-based
/// source line it arose on; translation never produces partial output.
#[derive(Debug, PartialEq)]
pub enum AsmError {
    /// A non-empty line matches none of the three instruction shapes.
    Syntax { lnum: usize, text: String },
    /// A computation, destination, or jump field matches no table entry.
    UnknownMnemonic { lnum: usize, text: String },
    /// A literal or resolved address does not fit in 15 bits.
    AddressOverflow { lnum: usize, address: usize },
    /// A label declaration rebinds a name that is already bound.
    DuplicateLabel { lnum: usize, name: String },
    /// An address instruction reached the encoder without a concrete address.
    UnresolvedSymbol { lnum: usize },
}

/// Mathematical model of an [`AsmError`]: the same variants over
/// sequences and unbounded integers.
pub enum ErrorModel {
    Syntax { lnum: int, text: Seq<char> },
    UnknownMnemonic { lnum: int, text: Seq<char> },
    AddressOverflow { lnum: int, address: int },
    DuplicateLabel { lnum: int, name: Seq<char> },
    UnresolvedSymbol { lnum: int },
}

impl View for AsmError {
    type V = ErrorModel;

    open spec fn view(&self) -> ErrorModel {
        match self {
            AsmError::Syntax { lnum, text } => ErrorModel::Syntax {
                lnum: *lnum as int,
                text: text@,
            },
            AsmError::UnknownMnemonic { lnum, text } => ErrorModel::UnknownMnemonic {
                lnum: *lnum as int,
                text: text@,
            },
            AsmError::AddressOverflow { lnum, address } => ErrorModel::AddressOverflow {
                lnum: *lnum as int,
                address: *address as int,
            },
            AsmError::DuplicateLabel { lnum, name } => ErrorModel::DuplicateLabel {
                lnum: *lnum as int,
                name: name@,
            },
            AsmError::UnresolvedSymbol { lnum } => ErrorModel::UnresolvedSymbol {
                lnum: *lnum as int,
            },
        }
    }
}

/// What translating a whole source text yields: parse every line,
/// resolve every symbol, encode every instruction — or the first error,
/// with no partial output.
pub open spec fn translate_spec(contents: Seq<char>) -> Result<Seq<char>, ErrorModel> {
    match parser::parse_spec(contents) {
        Ok(insts) => match symbol_table::resolve_spec(insts) {
            Ok(resolved) => decoder::decode_spec(resolved),
            Err(e) => Err(e),
        },
        Err(e) => Err(e),
    }
}

/// A finished translation: the assembly source it was made from and the
/// machine code it produced.
pub struct Assembler<'a> {
    /// The source text, as handed in.
    pub assembly: &'a str,
    /// The machine code: one 16-character binary word per instruction,
    /// newline-delimited, in source order.
    pub machine: String,
}

impl<'a> Assembler<'a> {
    /// Translates an assembly source into machine code, sequencing the
    /// three stages — parse all, resolve all, encode all — and aborting
    /// on the first error of any stage.
    pub fn translate(assembly: &'a str) -> (r: Result<Assembler<'a>, AsmError>)
        ensures
            match r {
                Ok(a) => a.assembly@ == assembly@ && translate_spec(assembly@) == Ok::<
                    Seq<char>,
                    ErrorModel,
                >(a.machine@),
                Err(e) => translate_spec(assembly@) == Err::<Seq<char>, ErrorModel>(e@),
            },
    {
        let parsed = match parser::parse(assembly) {
            Ok(p) => p,
            Err(e) => {
                return Err(e);
            },
        };
        let resolved = match symbol_table::resolve(parsed) {
            Ok(v) => v,
            Err(e) => {
                return Err(e);
            },
        };
        match decoder::decode(resolved) {
            Ok(machine) => Ok(Assembler { assembly, machine }),
            Err(e) => Err(e),
        }
    }
}

} // verus!

