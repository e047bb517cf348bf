//! What can go wrong while a board is loaded.
use vstd::prelude::*;

verus! {

/// Why a layer could not be read. `S` is the type of texts.
#[derive(Debug, PartialEq)]
#[verifier::ext_equal]
pub enum ParseError<S = String> {
    GerberParseError(S),
    ExcellonParseError(S),
    FormatMissing(S),
    TypeNotFound,
}

/// Why a file gave no layer. `S` is the type of texts.
#[derive(Debug, PartialEq)]
#[verifier::ext_equal]
pub enum Error<S = String> {
    InvalidType(S),
    Io(S),
    ParseError(ParseError<S>, S),
}

impl View for ParseError {
    type V = ParseError<Seq<char>>;

    open spec fn view(&self) -> ParseError<Seq<char>> {
        match *self {
            ParseError::GerberParseError(s) => ParseError::GerberParseError(s@),
            ParseError::ExcellonParseError(s) => ParseError::ExcellonParseError(s@),
            ParseError::FormatMissing(s) => ParseError::FormatMissing(s@),
            ParseError::TypeNotFound => ParseError::TypeNotFound,
        }
    }
}

impl View for Error {
    type V = Error<Seq<char>>;

    open spec fn view(&self) -> Error<Seq<char>> {
        match *self {
            Error::InvalidType(s) => Error::InvalidType(s@),
            Error::Io(s) => Error::Io(s@),
            Error::ParseError(e, s) => Error::ParseError(e@, s@),
        }
    }
}

impl ParseError<Seq<char>> {
    pub open spec fn message(self) -> Seq<char> {
        match self {
            ParseError::GerberParseError(e) => "Failed to parse Gerber layer: "@ + e,
            ParseError::ExcellonParseError(e) => "Failed to parse an Excellon layer: "@ + e,
            ParseError::FormatMissing(layer) => "Missing coordinate format specification in layer '"@
                + layer + "'"@,
            ParseError::TypeNotFound => "Cannot determine layer type from file attributes"@,
        }
    }
}

impl ParseError {
    /// Says in words what is wrong.
    pub fn text(&self) -> (r: String)
        ensures
            r@ == self@.message(),
    {
        let mut out = String::new();
        match self {
            ParseError::GerberParseError(e) => {
                out.append("Failed to parse Gerber layer: ");
                out.append(e.as_str());
            },
            ParseError::ExcellonParseError(e) => {
                out.append("Failed to parse an Excellon layer: ");
                out.append(e.as_str());
            },
            ParseError::FormatMissing(layer) => {
                out.append("Missing coordinate format specification in layer '");
                out.append(layer.as_str());
                out.append("'");
            },
            ParseError::TypeNotFound => {
                out.append("Cannot determine layer type from file attributes");
            },
        }
        assert(out@ =~= self@.message());
        out
    }
}

impl Error<Seq<char>> {
    pub open spec fn message(self) -> Seq<char> {
        match self {
            Error::InvalidType(name) => "Cannot determine layer type for file: '"@ + name + "'"@,
            Error::Io(e) => "IO error: "@ + e,
            Error::ParseError(e, name) => "Failed to parse '"@ + name + "': "@ + e.message(),
        }
    }
}

impl Error {
    /// Says in words what is wrong, with the name of the file.
    pub fn text(&self) -> (r: String)
        ensures
            r@ == self@.message(),
    {
        let mut out = String::new();
        match self {
            Error::InvalidType(name) => {
                out.append("Cannot determine layer type for file: '");
                out.append(name.as_str());
                out.append("'");
            },
            Error::Io(e) => {
                out.append("IO error: ");
                out.append(e.as_str());
            },
            Error::ParseError(e, name) => {
                out.append("Failed to parse '");
                out.append(name.as_str());
                out.append("': ");
                out.append(e.text().as_str());
            },
        }
        assert(out@ =~= self@.message());
        out
    }
}

} // verus!
