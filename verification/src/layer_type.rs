//! What a layer is for.
use crate::gerber_types::{
    Command, CommandView, CommentContent, ExtendedCode, ExtendedPosition, FileAttribute,
    FileFunction, FunctionCode, GCode, Position, Profile, StandardComment,
};
use crate::text;
use crate::text::{chars_of, is_text, parse_number, push_number, strip_prefix};
use vstd::prelude::*;

verus! {

/// Layer Type
///
/// All Layers except Drill are usually gerber layers
/// The drill layer is a excellon drill file
#[derive(Debug, Clone, Copy, PartialEq, Eq, Hash, Structural)]
pub enum LayerType {
    Top,
    Bottom,
    Inner(i32),
    PasteTop,
    PasteBottom,
    MaskTop,
    MaskBottom,
    SilkScreenTop,
    SilkScreenBottom,
    Drill,
    Dimensions,
    Milling,
    VCut,
    SidePlating,
    KeepOut,
    Info,
    UndefinedGerber,
}

/// What `str::to_uppercase` makes of a text.
pub uninterp spec fn uppercase(s: Seq<char>) -> Seq<char>;

pub open spec fn is_ascii(s: Seq<char>) -> bool {
    forall|i: int| 0 <= i < s.len() ==> (#[trigger] s[i] as int) < 128
}

/// A small ASCII letter as a capital; any other character as it is.
pub open spec fn ascii_upper(c: char) -> char {
    if 'a' <= c && c <= 'z' {
        (c as int - 32) as char
    } else {
        c
    }
}

/// `str::to_uppercase`. Its result depends on the text alone; of a text in ASCII it changes the
/// small letters into capitals and nothing else.
#[verifier::external_body]
fn to_uppercase(s: &str) -> (r: String)
    ensures
        r@ == uppercase(s@),
        is_ascii(s@) ==> r@ == s@.map_values(|c: char| ascii_upper(c)),
{
    s.to_uppercase()
}

/// A whole number with an optional sign, as an `i32`.
pub open spec fn integer(s: Seq<char>) -> Option<i32> {
    let signed = s.len() > 0 && (s[0] == '-' || s[0] == '+');
    let digits = if signed {
        s.skip(1)
    } else {
        s
    };
    let negative = signed && s[0] == '-';
    match text::number(
        digits,
        if negative {
            0x8000_0000
        } else {
            0x7fff_ffff
        },
    ) {
        Some(n) => Some(
            if negative {
                (-(n as int)) as i32
            } else {
                n as i32
            },
        ),
        None => None,
    }
}

fn parse_integer(s: &[char]) -> (r: Option<i32>)
    ensures
        r == integer(s@),
{
    let end: usize = s.len();
    let signed = end > 0 && (s[0] == '-' || s[0] == '+');
    let negative = signed && s[0] == '-';
    let start: usize = if signed {
        1
    } else {
        0
    };
    let digits = &s[start..end];
    proof {
        if signed {
            assert(digits@ =~= s@.skip(1));
        } else {
            assert(digits@ =~= s@);
        }
    }
    if negative {
        match parse_number(digits, 0x8000_0000) {
            Some(n) => Some((-(n as i64)) as i32),
            None => None,
        }
    } else {
        match parse_number(digits, 0x7fff_ffff) {
            Some(n) => Some(n as i32),
            None => None,
        }
    }
}

/// The layer type of a file extension, given in capitals. An error carries what is wrong, for the
/// extension as it was written.
pub open spec fn type_of_extension(upper: Seq<char>, value: Seq<char>) -> Result<
    LayerType,
    Seq<char>,
> {
    if upper == "GTL"@ {
        Ok(LayerType::Top)
    } else if upper == "GBL"@ {
        Ok(LayerType::Bottom)
    } else if upper == "GTP"@ {
        Ok(LayerType::PasteTop)
    } else if upper == "GBP"@ {
        Ok(LayerType::PasteBottom)
    } else if upper == "GTS"@ {
        Ok(LayerType::MaskTop)
    } else if upper == "GBS"@ {
        Ok(LayerType::MaskBottom)
    } else if upper == "GTO"@ {
        Ok(LayerType::SilkScreenTop)
    } else if upper == "GBO"@ {
        Ok(LayerType::SilkScreenBottom)
    } else if upper == "DRD"@ || upper == "DRL"@ {
        Ok(LayerType::Drill)
    } else if upper == "GM1"@ {
        Ok(LayerType::Dimensions)
    } else if upper == "GM2"@ {
        Ok(LayerType::Milling)
    } else if upper == "GVC"@ {
        Ok(LayerType::VCut)
    } else if upper == "GSP"@ {
        Ok(LayerType::SidePlating)
    } else if upper == "GKO"@ {
        Ok(LayerType::KeepOut)
    } else if upper == "GBR"@ {
        Ok(LayerType::UndefinedGerber)
    } else {
        match text::after_prefix(upper, "GL"@) {
            Some(number) => match integer(number) {
                Some(n) => Ok(LayerType::Inner(n)),
                None => Err("GL must be followed by numbers"@),
            },
            None => Err("Invalid layer type: "@ + value),
        }
    }
}

pub open spec fn type_view(r: Result<LayerType, String>) -> Result<LayerType, Seq<char>> {
    match r {
        Ok(t) => Ok(t),
        Err(e) => Err(e@),
    }
}

/// The function that a command gives the file, if it gives one.
pub open spec fn named_function<N>(c: CommandView<N>) -> Option<FileFunction<Seq<char>>> {
    match c {
        Command::ExtendedCode(ExtendedCode::FileAttribute(FileAttribute::FileFunction(f))) => Some(
            f,
        ),
        Command::FunctionCode(
            FunctionCode::GCode(
                GCode::Comment(
                    CommentContent::Standard(
                        StandardComment::FileAttribute(FileAttribute::FileFunction(f)),
                    ),
                ),
            ),
        ) => Some(f),
        _ => None,
    }
}

/// The first function that the commands give the file.
pub open spec fn first_function<N>(s: Seq<CommandView<N>>) -> Option<FileFunction<Seq<char>>>
    decreases s.len(),
{
    if s.len() == 0 {
        None
    } else {
        match named_function(s[0]) {
            Some(f) => Some(f),
            None => first_function(s.skip(1)),
        }
    }
}

impl LayerType {
    /// The layer type that a file function stands for.
    pub open spec fn of_function(f: FileFunction<Seq<char>>) -> LayerType {
        match f {
            FileFunction::Copper { pos: ExtendedPosition::Top, .. } => LayerType::Top,
            FileFunction::Copper { pos: ExtendedPosition::Bottom, .. } => LayerType::Bottom,
            FileFunction::Copper { layer, pos: ExtendedPosition::Inner, .. } => LayerType::Inner(
                layer,
            ),
            FileFunction::Paste(Position::Top) => LayerType::PasteTop,
            FileFunction::Paste(Position::Bottom) => LayerType::PasteBottom,
            FileFunction::SolderMask { pos: Position::Top, .. } => LayerType::MaskTop,
            FileFunction::SolderMask { pos: Position::Bottom, .. } => LayerType::MaskBottom,
            FileFunction::Legend { pos: Position::Top, .. } => LayerType::SilkScreenTop,
            FileFunction::Legend { pos: Position::Bottom, .. } => LayerType::SilkScreenBottom,
            FileFunction::DrillMap => LayerType::Drill,
            FileFunction::Profile(Some(Profile::Plated)) => LayerType::SidePlating,
            FileFunction::Profile(Some(Profile::NonPlated)) => LayerType::Milling,
            FileFunction::Profile(None) => LayerType::Dimensions,
            FileFunction::VCut(_) => LayerType::VCut,
            FileFunction::KeepOut(_) => LayerType::KeepOut,
            FileFunction::Other(_) => LayerType::Info,
            FileFunction::Unmapped(_) => LayerType::UndefinedGerber,
        }
    }

    /// Converts FileFunction to matching LayerType
    pub fn layer_type(file_function: &FileFunction) -> (r: LayerType)
        ensures
            r == LayerType::of_function(file_function@),
    {
        match file_function {
            FileFunction::Copper { layer: _, pos: ExtendedPosition::Top, copper_type: _ } =>
            LayerType::Top,
            FileFunction::Copper { layer: _, pos: ExtendedPosition::Bottom, copper_type: _ } =>
            LayerType::Bottom,
            FileFunction::Copper { layer, pos: ExtendedPosition::Inner, copper_type: _ } =>
            LayerType::Inner(*layer),
            FileFunction::Paste(Position::Top) => LayerType::PasteTop,
            FileFunction::Paste(Position::Bottom) => LayerType::PasteBottom,
            FileFunction::SolderMask { pos: Position::Top, index: _ } => LayerType::MaskTop,
            FileFunction::SolderMask { pos: Position::Bottom, index: _ } => LayerType::MaskBottom,
            FileFunction::Legend { pos: Position::Top, index: _ } => LayerType::SilkScreenTop,
            FileFunction::Legend { pos: Position::Bottom, index: _ } => LayerType::SilkScreenBottom,
            FileFunction::DrillMap => LayerType::Drill,
            FileFunction::Profile(Some(Profile::Plated)) => LayerType::SidePlating,
            FileFunction::Profile(Some(Profile::NonPlated)) => LayerType::Milling,
            FileFunction::Profile(None) => LayerType::Dimensions,
            FileFunction::VCut(_) => LayerType::VCut,
            FileFunction::KeepOut(_) => LayerType::KeepOut,
            FileFunction::Other(_) => LayerType::Info,
            FileFunction::Unmapped(_) => LayerType::UndefinedGerber,
        }
    }

    /// The file function that stands for the layer type.
    pub open spec fn function_spec(self) -> FileFunction<Seq<char>> {
        match self {
            LayerType::Top => FileFunction::Copper {
                layer: 1,
                pos: ExtendedPosition::Top,
                copper_type: None,
            },
            LayerType::Bottom => FileFunction::Copper {
                layer: 99,
                pos: ExtendedPosition::Bottom,
                copper_type: None,
            },
            LayerType::Inner(layer) => FileFunction::Copper {
                layer,
                pos: ExtendedPosition::Inner,
                copper_type: None,
            },
            LayerType::PasteTop => FileFunction::Paste(Position::Top),
            LayerType::PasteBottom => FileFunction::Paste(Position::Bottom),
            LayerType::MaskTop => FileFunction::SolderMask { pos: Position::Top, index: None },
            LayerType::MaskBottom => FileFunction::SolderMask { pos: Position::Bottom, index: None },
            LayerType::SilkScreenTop => FileFunction::Legend { pos: Position::Top, index: None },
            LayerType::SilkScreenBottom => FileFunction::Legend {
                pos: Position::Bottom,
                index: None,
            },
            LayerType::Drill => FileFunction::DrillMap,
            LayerType::Dimensions => FileFunction::Profile(None),
            LayerType::Milling => FileFunction::Profile(Some(Profile::NonPlated)),
            LayerType::VCut => FileFunction::VCut(None),
            LayerType::SidePlating => FileFunction::Profile(Some(Profile::Plated)),
            LayerType::KeepOut => FileFunction::KeepOut(Position::Top),
            LayerType::Info => FileFunction::Other("Text"@),
            LayerType::UndefinedGerber => FileFunction::Other("Undefined"@),
        }
    }

    /// Converts LayerType to matching FileFunction
    pub fn function(&self) -> (r: FileFunction)
        ensures
            r@ == self.function_spec(),
    {
        match self {
            LayerType::Top => FileFunction::Copper {
                layer: 1,
                pos: ExtendedPosition::Top,
                copper_type: None,
            },
            LayerType::Bottom => FileFunction::Copper {
                layer: 99,
                pos: ExtendedPosition::Bottom,
                copper_type: None,
            },
            LayerType::Inner(layer) => FileFunction::Copper {
                layer: *layer,
                pos: ExtendedPosition::Inner,
                copper_type: None,
            },
            LayerType::PasteTop => FileFunction::Paste(Position::Top),
            LayerType::PasteBottom => FileFunction::Paste(Position::Bottom),
            LayerType::MaskTop => FileFunction::SolderMask { pos: Position::Top, index: None },
            LayerType::MaskBottom => FileFunction::SolderMask { pos: Position::Bottom, index: None },
            LayerType::SilkScreenTop => FileFunction::Legend { pos: Position::Top, index: None },
            LayerType::SilkScreenBottom => FileFunction::Legend {
                pos: Position::Bottom,
                index: None,
            },
            LayerType::Drill => FileFunction::DrillMap,
            LayerType::Dimensions => FileFunction::Profile(None),
            LayerType::Milling => FileFunction::Profile(Some(Profile::NonPlated)),
            LayerType::VCut => FileFunction::VCut(None),
            LayerType::SidePlating => FileFunction::Profile(Some(Profile::Plated)),
            LayerType::KeepOut => FileFunction::KeepOut(Position::Top),
            LayerType::Info => FileFunction::Other("Text".to_string()),
            LayerType::UndefinedGerber => FileFunction::Other("Undefined".to_string()),
        }
    }

    /// Searches for a matching FileAttribute in a set of commands
    pub fn from_commands<N>(value: &[Command<N>]) -> (r: Option<LayerType>)
        ensures
            r == (match first_function(crate::gerber_types::views(value@)) {
                Some(f) => Some(LayerType::of_function(f)),
                None => None,
            }),
    {
        let ghost s = crate::gerber_types::views(value@);
        let mut i: usize = 0;
        assert(s.skip(0) =~= s);
        while i < value.len()
            invariant
                i <= value@.len(),
                s == crate::gerber_types::views(value@),
                first_function(s) == first_function(s.skip(i as int)),
            decreases value@.len() - i,
        {
            assert(s.skip(i as int)[0] == value@[i as int]@);
            assert(s.skip(i as int).skip(1) =~= s.skip(i + 1));
            match &value[i] {
                Command::ExtendedCode(
                    ExtendedCode::FileAttribute(FileAttribute::FileFunction(f)),
                ) => {
                    return Some(LayerType::layer_type(f));
                },
                Command::FunctionCode(
                    FunctionCode::GCode(
                        GCode::Comment(
                            CommentContent::Standard(
                                StandardComment::FileAttribute(FileAttribute::FileFunction(f)),
                            ),
                        ),
                    ),
                ) => {
                    return Some(LayerType::layer_type(f));
                },
                _ => {},
            }
            i = i + 1;
        }
        None
    }

    pub open spec fn file_ending_spec(self) -> Seq<char> {
        match self {
            LayerType::Info => "txt"@,
            LayerType::Drill => "drl"@,
            _ => "gbr"@,
        }
    }

    /// Returns the default extensional
    pub fn file_ending(&self) -> (r: &'static str)
        ensures
            r@ == self.file_ending_spec(),
    {
        match self {
            LayerType::Info => "txt",
            LayerType::Drill => "drl",
            _ => "gbr",
        }
    }

    /// The extension that the layer type is recognised by.
    pub open spec fn extension_spec(self) -> Seq<char> {
        match self {
            LayerType::Top => "gtl"@,
            LayerType::Bottom => "gbl"@,
            LayerType::Inner(n) => "gl"@ + signed_digits(n as int),
            LayerType::PasteTop => "gtp"@,
            LayerType::PasteBottom => "gbp"@,
            LayerType::MaskTop => "gts"@,
            LayerType::MaskBottom => "gbs"@,
            LayerType::SilkScreenTop => "gto"@,
            LayerType::SilkScreenBottom => "gbo"@,
            LayerType::Drill => "drl"@,
            LayerType::Dimensions => "gm1"@,
            LayerType::Milling => "gm2"@,
            LayerType::VCut => "gvc"@,
            LayerType::SidePlating => "gsp"@,
            LayerType::KeepOut => "gko"@,
            LayerType::Info => "txt"@,
            LayerType::UndefinedGerber => "gbr"@,
        }
    }

    /// Returns the file extension of the layer type, such as `gto` for `SilkScreenTop`.
    pub fn extension(&self) -> (r: String)
        ensures
            r@ == self.extension_spec(),
    {
        let name = match self {
            LayerType::Top => "gtl",
            LayerType::Bottom => "gbl",
            LayerType::Inner(n) => {
                let mut out = String::new();
                out.append("gl");
                push_signed(&mut out, *n);
                assert(out@ =~= self.extension_spec());
                return out;
            },
            LayerType::PasteTop => "gtp",
            LayerType::PasteBottom => "gbp",
            LayerType::MaskTop => "gts",
            LayerType::MaskBottom => "gbs",
            LayerType::SilkScreenTop => "gto",
            LayerType::SilkScreenBottom => "gbo",
            LayerType::Drill => "drl",
            LayerType::Dimensions => "gm1",
            LayerType::Milling => "gm2",
            LayerType::VCut => "gvc",
            LayerType::SidePlating => "gsp",
            LayerType::KeepOut => "gko",
            LayerType::Info => "txt",
            LayerType::UndefinedGerber => "gbr",
        };
        name.to_string()
    }

    /// The default file ending and a description.
    pub open spec fn text_spec(self) -> Seq<char> {
        self.file_ending_spec() + " "@ + match self {
            LayerType::Top => "Copper Top Layer"@,
            LayerType::Bottom => "Copper Bottom Layer"@,
            LayerType::Inner(num) => "Copper Inner Layer "@ + signed_digits(num as int),
            LayerType::PasteTop => "Paste Top Layer"@,
            LayerType::PasteBottom => "Paste Bottom Layer"@,
            LayerType::MaskTop => "Mask Top Layer"@,
            LayerType::MaskBottom => "Mask Bottom Layer"@,
            LayerType::SilkScreenTop => "Silk Screen Top Layer"@,
            LayerType::SilkScreenBottom => "Silk Screen Bottom Layer"@,
            LayerType::Drill => "Drill Layer"@,
            LayerType::Dimensions => "Dimension Layer"@,
            LayerType::Milling => "Milling Layer"@,
            LayerType::VCut => "V-Cut Layer"@,
            LayerType::SidePlating => "Side Plating Layer"@,
            LayerType::KeepOut => "Keep Out Layer"@,
            LayerType::Info => "Info"@,
            LayerType::UndefinedGerber => "Undefined"@,
        }
    }

    /// The layer type as text.
    pub fn text(&self) -> (r: String)
        ensures
            r@ == self.text_spec(),
    {
        let mut out = String::new();
        out.append(self.file_ending());
        out.append(" ");
        out.append(
            match self {
                LayerType::Top => "Copper Top Layer",
                LayerType::Bottom => "Copper Bottom Layer",
                LayerType::Inner(_) => "Copper Inner Layer ",
                LayerType::PasteTop => "Paste Top Layer",
                LayerType::PasteBottom => "Paste Bottom Layer",
                LayerType::MaskTop => "Mask Top Layer",
                LayerType::MaskBottom => "Mask Bottom Layer",
                LayerType::SilkScreenTop => "Silk Screen Top Layer",
                LayerType::SilkScreenBottom => "Silk Screen Bottom Layer",
                LayerType::Drill => "Drill Layer",
                LayerType::Dimensions => "Dimension Layer",
                LayerType::Milling => "Milling Layer",
                LayerType::VCut => "V-Cut Layer",
                LayerType::SidePlating => "Side Plating Layer",
                LayerType::KeepOut => "Keep Out Layer",
                LayerType::Info => "Info",
                LayerType::UndefinedGerber => "Undefined",
            },
        );
        if let LayerType::Inner(num) = self {
            push_signed(&mut out, *num);
        }
        assert(out@ =~= self.text_spec());
        out
    }

    /// The layer type of a file extension that is given in capitals, too.
    pub fn of_extension(upper: &str, value: &str) -> (r: Result<LayerType, String>)
        ensures
            type_view(r) == type_of_extension(upper@, value@),
    {
        let chars = chars_of(upper);
        if is_text(&chars, "GTL") {
            Ok(LayerType::Top)
        } else if is_text(&chars, "GBL") {
            Ok(LayerType::Bottom)
        } else if is_text(&chars, "GTP") {
            Ok(LayerType::PasteTop)
        } else if is_text(&chars, "GBP") {
            Ok(LayerType::PasteBottom)
        } else if is_text(&chars, "GTS") {
            Ok(LayerType::MaskTop)
        } else if is_text(&chars, "GBS") {
            Ok(LayerType::MaskBottom)
        } else if is_text(&chars, "GTO") {
            Ok(LayerType::SilkScreenTop)
        } else if is_text(&chars, "GBO") {
            Ok(LayerType::SilkScreenBottom)
        } else if is_text(&chars, "DRD") || is_text(&chars, "DRL") {
            Ok(LayerType::Drill)
        } else if is_text(&chars, "GM1") {
            Ok(LayerType::Dimensions)
        } else if is_text(&chars, "GM2") {
            Ok(LayerType::Milling)
        } else if is_text(&chars, "GVC") {
            Ok(LayerType::VCut)
        } else if is_text(&chars, "GSP") {
            Ok(LayerType::SidePlating)
        } else if is_text(&chars, "GKO") {
            Ok(LayerType::KeepOut)
        } else if is_text(&chars, "GBR") {
            Ok(LayerType::UndefinedGerber)
        } else if let Some(number) = strip_prefix(&chars, "GL") {
            match parse_integer(number) {
                Some(n) => Ok(LayerType::Inner(n)),
                None => Err("GL must be followed by numbers".to_string()),
            }
        } else {
            let mut out = String::new();
            out.append("Invalid layer type: ");
            out.append(value);
            assert(out@ =~= "Invalid layer type: "@ + value@);
            Err(out)
        }
    }
}

impl<'a> TryFrom<&'a str> for LayerType {
    type Error = String;

    fn try_from(value: &'a str) -> (r: Result<LayerType, String>)
        ensures
            type_view(r) == type_of_extension(uppercase(value@), value@),
            is_ascii(value@) ==> type_view(r) == type_of_extension(
                value@.map_values(|c: char| ascii_upper(c)),
                value@,
            ),
    {
        let upper = to_uppercase(value);
        LayerType::of_extension(upper.as_str(), value)
    }
}

impl<'a> vstd::std_specs::convert::TryFromSpecImpl<&'a str> for LayerType {
    open spec fn obeys_try_from_spec() -> bool {
        false
    }

    open spec fn try_from_spec(v: &'a str) -> Result<LayerType, String> {
        vstd::pervasive::arbitrary()
    }
}

/// The numeral of a number that may be negative.
pub open spec fn signed_digits(n: int) -> Seq<char> {
    if n < 0 {
        seq!['-'] + text::dec_digits((-n) as nat)
    } else {
        text::dec_digits(n as nat)
    }
}

fn push_signed(out: &mut String, n: i32)
    ensures
        final(out)@ == old(out)@ + signed_digits(n as int),
{
    if n < 0 {
        out.push('-');
        push_number(out, (-(n as i64)) as u64);
    } else {
        push_number(out, n as u64);
    }
    assert(out@ =~= old(out)@ + signed_digits(n as int));
}

/// The function of a layer type leads back to it. `UndefinedGerber` has no function of its own: the
/// one that it is written with is read as `Info`.
pub proof fn law_function_names_type(t: LayerType)
    ensures
        t != LayerType::UndefinedGerber ==> LayerType::of_function(t.function_spec()) == t,
        t == LayerType::UndefinedGerber ==> LayerType::of_function(t.function_spec())
            == LayerType::Info,
{
}

} // verus!
