//! What is wrong with a drill file, in words.
use crate::excellon_format::{ExcellonError, ExcellonParseFormat};
use crate::text;
use crate::text::push_number;
use vstd::prelude::*;

verus! {

impl ExcellonError<Seq<char>> {
    pub open spec fn message(self) -> Seq<char> {
        match self {
            ExcellonError::InvalidCicOption(s) => "Invalid CIC format: "@ + s,
            ExcellonError::InvalidCmd(s) => "Invalid command format: "@ + s,
            ExcellonError::InvalidToolDefinition(s) => "Invalid tool definition: "@ + s,
            ExcellonError::InvalidCoordinate(s) => "Invalid coordinate format: "@ + s,
            ExcellonError::InvalidUnitDefinition => "Invalid unit definition"@,
            ExcellonError::InvalidGeometricCode(c) => "Invalid geometric code: "@
                + text::dec_digits(c as nat),
            ExcellonError::InvalidMachineCode(c) => "Invalid machine code: "@ + text::dec_digits(
                c as nat,
            ),
            ExcellonError::InvalidToolNumber(n) => "Invalid tool number: "@ + text::dec_digits(
                n as nat,
            ),
            ExcellonError::MissingHeaderEnd => "Missing header-end marker (M95/%)"@,
            ExcellonError::MissingHeaderStart => "Missing header-start marker (M48)"@,
            ExcellonError::MissingEndOfProgram => "Missing end-of-program marker (M30)"@,
            ExcellonError::CoordinateBeforeUnit => "Coordinate used before unit declaration"@,
            ExcellonError::FloatParse(s) => "Failed to parse floating number: "@ + s,
            ExcellonError::IntParse(s) => "Failed to parse number: "@ + s,
            ExcellonError::InvalidVersion => "Failed to parse version number"@,
            ExcellonError::Custom(s) => s,
        }
    }
}

impl ExcellonError {
    /// Says in words what is wrong.
    pub fn text(&self) -> (r: String)
        ensures
            r@ == self@.message(),
    {
        let mut out = String::new();
        match self {
            ExcellonError::InvalidCicOption(s) => {
                out.append("Invalid CIC format: ");
                out.append(s.as_str());
            },
            ExcellonError::InvalidCmd(s) => {
                out.append("Invalid command format: ");
                out.append(s.as_str());
            },
            ExcellonError::InvalidToolDefinition(s) => {
                out.append("Invalid tool definition: ");
                out.append(s.as_str());
            },
            ExcellonError::InvalidCoordinate(s) => {
                out.append("Invalid coordinate format: ");
                out.append(s.as_str());
            },
            ExcellonError::InvalidUnitDefinition => {
                out.append("Invalid unit definition");
            },
            ExcellonError::InvalidGeometricCode(c) => {
                out.append("Invalid geometric code: ");
                push_number(&mut out, *c as u64);
            },
            ExcellonError::InvalidMachineCode(c) => {
                out.append("Invalid machine code: ");
                push_number(&mut out, *c as u64);
            },
            ExcellonError::InvalidToolNumber(n) => {
                out.append("Invalid tool number: ");
                push_number(&mut out, *n as u64);
            },
            ExcellonError::MissingHeaderEnd => {
                out.append("Missing header-end marker (M95/%)");
            },
            ExcellonError::MissingHeaderStart => {
                out.append("Missing header-start marker (M48)");
            },
            ExcellonError::MissingEndOfProgram => {
                out.append("Missing end-of-program marker (M30)");
            },
            ExcellonError::CoordinateBeforeUnit => {
                out.append("Coordinate used before unit declaration");
            },
            ExcellonError::FloatParse(s) => {
                out.append("Failed to parse floating number: ");
                out.append(s.as_str());
            },
            ExcellonError::IntParse(s) => {
                out.append("Failed to parse number: ");
                out.append(s.as_str());
            },
            ExcellonError::InvalidVersion => {
                out.append("Failed to parse version number");
            },
            ExcellonError::Custom(s) => {
                out.append(s.as_str());
            },
        }
        assert(out@ =~= self@.message());
        out
    }
}

impl ExcellonParseFormat<Seq<char>> {
    /// Where the error is, with the line that holds it.
    pub open spec fn message(self) -> Seq<char> {
        "Excellon parse error at line "@ + text::dec_digits(self.line as nat) + ": "@ + self.content
    }
}

impl ExcellonParseFormat {
    /// Says in words where the error is.
    pub fn text(&self) -> (r: String)
        ensures
            r@ == self@.message(),
    {
        let mut out = String::new();
        out.append("Excellon parse error at line ");
        push_number(&mut out, self.line as u64);
        out.append(": ");
        out.append(self.content.as_str());
        assert(out@ =~= self@.message());
        out
    }
}

} // verus!
