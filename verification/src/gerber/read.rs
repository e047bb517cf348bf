//! From the bytes of a file to a layer.
use crate::error::ParseError;
use crate::gerber::load::{DocumentView, GerberDocument};
use crate::gerber::GerberLayerData;
use crate::layer_type::LayerType;
use crate::scalar::Scalar;
use vstd::prelude::*;

verus! {

/// A document as the `gerber_parser` crate has it.
#[verifier::external_type_specification]
#[verifier::external_body]
pub struct ExGerberDoc(gerber_parser::GerberDoc);

/// What `gerber_parser::parse` makes of the bytes of a file: a document, or the message with which
/// it gives up. Documents with the same entries count as one, in whatever order the table of their
/// apertures is walked.
pub uninterp spec fn parsed(bytes: Seq<u8>) -> Result<gerber_parser::GerberDoc, Seq<char>>;

/// Why the bytes of a file cannot be parsed, if they cannot.
pub open spec fn parse_failure(bytes: Seq<u8>) -> Option<Seq<char>> {
    match parsed(bytes) {
        Ok(_) => None,
        Err(e) => Some(e),
    }
}

/// `gerber_parser::parse`, on bytes in memory. Whether it gives up, with which message, and which
/// document it makes otherwise depends on the bytes alone. It never gives up on bytes that are
/// UTF-8, since the only fatal error is that of a line that cannot be read. Nothing is said of what
/// the document holds: a line that cannot be understood is an entry of it, too.
#[verifier::external_body]
fn parse_document(bytes: &[u8]) -> (r: Result<gerber_parser::GerberDoc, String>)
    requires
        crate::gerber::guard::parsable(bytes@),
    ensures
        match r {
            Ok(d) => parsed(bytes@) == Ok::<_, Seq<char>>(d),
            Err(e) => parsed(bytes@) == Err::<gerber_parser::GerberDoc, _>(e@),
        },
        vstd::utf8::valid_utf8(bytes@) ==> r is Ok,
{
    gerber_parser::parse(std::io::BufReader::new(bytes)).map_err(|(_, err)| err.to_string())
}

/// `read` takes over any document, and what it makes of one can be loaded.
pub open spec fn reads<N: Scalar, R: Fn(gerber_parser::GerberDoc) -> GerberDocument<N>>(
    read: R,
) -> bool {
    &&& forall|d: gerber_parser::GerberDoc| #[trigger] call_requires(read, (d,))
    &&& forall|d: gerber_parser::GerberDoc, doc: GerberDocument<N>| #[trigger]
        call_ensures(read, (d,), doc) ==> crate::gerber::load::loadable(doc@)
}

/// `v` is what `read` makes of the document of a file.
pub open spec fn read_as<N, R: Fn(gerber_parser::GerberDoc) -> GerberDocument<N>>(
    read: R,
    bytes: Seq<u8>,
    v: DocumentView<N>,
) -> bool {
    exists|doc: GerberDocument<N>| #[trigger]
        call_ensures(read, (parsed(bytes)->Ok_0,), doc) && doc@ == v
}

/// The document of a file, as `read` takes it over.
pub(crate) fn parse_with<N: Scalar, R: Fn(gerber_parser::GerberDoc) -> GerberDocument<N>>(
    bytes: &[u8],
    read: &R,
) -> (r: Option<GerberDocument<N>>)
    requires
        reads(*read),
        crate::gerber::guard::parsable(bytes@),
    ensures
        r is None <==> parse_failure(bytes@) is Some,
        r matches Some(doc) ==> read_as(*read, bytes@, doc@),
{
    match parse_document(bytes) {
        Err(_) => None,
        Ok(document) => {
            assert(parsed(bytes@)->Ok_0 == document);
            let doc = read(document);
            assert(read_as(*read, bytes@, doc@));
            Some(doc)
        },
    }
}

/// The type that the commands of a document give it.
pub open spec fn named_type<N>(doc: DocumentView<N>) -> LayerType {
    match crate::layer_type::first_function(crate::gerber::load::commands_of(doc.commands)) {
        Some(f) => LayerType::of_function(f),
        None => LayerType::UndefinedGerber,
    }
}

impl<N: Scalar> GerberDocument<N> {
    /// The layer type that a file attribute names, or `UndefinedGerber`.
    pub fn named_type(&self) -> (r: LayerType)
        ensures
            r == named_type(self@),
    {
        let (commands, _) = crate::gerber::load::split_elements(&self.commands);
        match LayerType::from_commands(&commands) {
            Some(ty) => ty,
            None => LayerType::UndefinedGerber,
        }
    }
}

impl<N: Scalar> GerberLayerData<N> {
    /// Parses GerberLayer from the bytes of a file with given type. `read` takes over the document
    /// that the bytes were parsed into.
    pub fn from_type<R: Fn(gerber_parser::GerberDoc) -> GerberDocument<N>>(
        ty: LayerType,
        bytes: &[u8],
        read: &R,
    ) -> (r: Result<Self, ParseError>)
        requires
            reads(*read),
            crate::gerber::guard::parsable(bytes@),
        ensures
            match parse_failure(bytes@) {
                Some(e) => crate::gerber::load::layer_view(r) == Err::<
                    crate::gerber::GerberView<N>,
                    _,
                >(ParseError::GerberParseError(e)),
                None => exists|doc: DocumentView<N>| #[trigger]
                    read_as(*read, bytes@, doc) && crate::gerber::load::layer_view(r)
                        == crate::gerber::load::loaded(ty, doc),
            },
            vstd::utf8::valid_utf8(bytes@) ==> parse_failure(bytes@) is None,
    {
        match parse_document(bytes) {
            Err(e) => Err(ParseError::GerberParseError(e)),
            Ok(document) => {
                assert(parsed(bytes@)->Ok_0 == document);
                let doc = read(document);
                assert(read_as(*read, bytes@, doc@));
                GerberLayerData::new(ty, doc)
            },
        }
    }

    /// Parses GerberLayer from the bytes of a file, type will load from FileAttribute. `read` takes
    /// over the document that the bytes were parsed into.
    pub fn from_commands<R: Fn(gerber_parser::GerberDoc) -> GerberDocument<N>>(
        bytes: &[u8],
        read: &R,
    ) -> (r: Result<Self, ParseError>)
        requires
            reads(*read),
            crate::gerber::guard::parsable(bytes@),
        ensures
            match parse_failure(bytes@) {
                Some(e) => crate::gerber::load::layer_view(r) == Err::<
                    crate::gerber::GerberView<N>,
                    _,
                >(ParseError::GerberParseError(e)),
                None => exists|doc: DocumentView<N>| #[trigger]
                    read_as(*read, bytes@, doc) && crate::gerber::load::layer_view(r)
                        == crate::gerber::load::loaded(named_type(doc), doc),
            },
            vstd::utf8::valid_utf8(bytes@) ==> parse_failure(bytes@) is None,
    {
        match parse_document(bytes) {
            Err(e) => Err(ParseError::GerberParseError(e)),
            Ok(document) => {
                assert(parsed(bytes@)->Ok_0 == document);
                let doc = read(document);
                assert(read_as(*read, bytes@, doc@));
                let layer_type = doc.named_type();
                GerberLayerData::new(layer_type, doc)
            },
        }
    }
}

} // verus!
