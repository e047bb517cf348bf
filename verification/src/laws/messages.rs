//! What the errors say.
use crate::error::{Error, ParseError};
use crate::excellon_format::{ExcellonError, ExcellonParseFormat};
use crate::scalar::Scalar;
use crate::text;
use crate::{Pos, Size};
use vstd::prelude::*;

verus! {

/// What the errors of files say: each names what it is about.
pub proof fn law_error_messages(name: Seq<char>, what: Seq<char>, e: ParseError<Seq<char>>)
    ensures
        Error::InvalidType(name).message() == "Cannot determine layer type for file: '"@ + name
            + "'"@,
        Error::<Seq<char>>::Io(what).message() == "IO error: "@ + what,
        Error::ParseError(e, name).message() == "Failed to parse '"@ + name + "': "@ + e.message(),
        ParseError::GerberParseError(what).message() == "Failed to parse Gerber layer: "@ + what,
        ParseError::ExcellonParseError(what).message() == "Failed to parse an Excellon layer: "@
            + what,
        ParseError::FormatMissing(what).message()
            == "Missing coordinate format specification in layer '"@ + what + "'"@,
        ParseError::<Seq<char>>::TypeNotFound.message()
            == "Cannot determine layer type from file attributes"@,
{
}

/// What the errors of drill files say.
pub proof fn law_drill_messages(s: Seq<char>, code: u8, tool: u32)
    ensures
        ExcellonError::InvalidCicOption(s).message() == "Invalid CIC format: "@ + s,
        ExcellonError::InvalidCmd(s).message() == "Invalid command format: "@ + s,
        ExcellonError::InvalidToolDefinition(s).message() == "Invalid tool definition: "@ + s,
        ExcellonError::InvalidCoordinate(s).message() == "Invalid coordinate format: "@ + s,
        ExcellonError::<Seq<char>>::InvalidUnitDefinition.message() == "Invalid unit definition"@,
        ExcellonError::<Seq<char>>::InvalidGeometricCode(code).message()
            == "Invalid geometric code: "@ + text::dec_digits(code as nat),
        ExcellonError::<Seq<char>>::InvalidMachineCode(code).message() == "Invalid machine code: "@
            + text::dec_digits(code as nat),
        ExcellonError::<Seq<char>>::InvalidToolNumber(tool).message() == "Invalid tool number: "@
            + text::dec_digits(tool as nat),
        ExcellonError::<Seq<char>>::MissingHeaderEnd.message()
            == "Missing header-end marker (M95/%)"@,
        ExcellonError::<Seq<char>>::MissingHeaderStart.message()
            == "Missing header-start marker (M48)"@,
        ExcellonError::<Seq<char>>::MissingEndOfProgram.message()
            == "Missing end-of-program marker (M30)"@,
        ExcellonError::<Seq<char>>::CoordinateBeforeUnit.message()
            == "Coordinate used before unit declaration"@,
        ExcellonError::FloatParse(s).message() == "Failed to parse floating number: "@ + s,
        ExcellonError::IntParse(s).message() == "Failed to parse number: "@ + s,
        ExcellonError::<Seq<char>>::InvalidVersion.message() == "Failed to parse version number"@,
        ExcellonError::Custom(s).message() == s,
{
}

/// What is said of a line that could not be read: where it stands and what it holds.
pub proof fn law_line_messages(e: ExcellonParseFormat<Seq<char>>)
    ensures
        e.message() == "Excellon parse error at line "@ + text::dec_digits(e.line as nat) + ": "@
            + e.content,
{
}

/// How positions and sizes are said: both numbers by name, with three decimal places.
pub proof fn law_places_said<N: Scalar>(x: N, y: N)
    ensures
        (Pos { x, y }).text_spec() == "x: "@ + x.text_spec(3) + ", y: "@ + y.text_spec(3),
        (Size { width: x, height: y }).text_spec() == "width: "@ + x.text_spec(3) + ", height: "@
            + y.text_spec(3),
{
}

} // verus!
