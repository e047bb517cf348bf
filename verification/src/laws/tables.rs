//! The tables of layer types, entry by entry.
use crate::gerber_types::{
    Command, CommandView, CommentContent, CopperType, ExtendedCode, ExtendedPosition, FileAttribute,
    FileFunction, FunctionCode, GCode, Position, Profile, StandardComment,
};
use crate::layer_type;
use crate::layer_type::LayerType;
use crate::text;
use vstd::prelude::*;

verus! {

/// The extension, in capitals, names the layer type.
pub open spec fn names(upper: Seq<char>, t: LayerType) -> bool {
    forall|value: Seq<char>|
        #[trigger] layer_type::type_of_extension(upper, value) == Ok::<LayerType, Seq<char>>(t)
}

/// Which extension names which layer type.
pub proof fn law_extensions_read()
    ensures
        names("GTL"@, LayerType::Top),
        names("GBL"@, LayerType::Bottom),
        names("GTP"@, LayerType::PasteTop),
        names("GBP"@, LayerType::PasteBottom),
        names("GTS"@, LayerType::MaskTop),
        names("GBS"@, LayerType::MaskBottom),
        names("GTO"@, LayerType::SilkScreenTop),
        names("GBO"@, LayerType::SilkScreenBottom),
        names("DRL"@, LayerType::Drill),
        names("GM1"@, LayerType::Dimensions),
        names("GM2"@, LayerType::Milling),
        names("GVC"@, LayerType::VCut),
        names("GSP"@, LayerType::SidePlating),
        names("GKO"@, LayerType::KeepOut),
        names("GBR"@, LayerType::UndefinedGerber),
        names("DRD"@, LayerType::Drill),
{
    reveal_strlit("GTL");
    reveal_strlit("GBL");
    reveal_strlit("GTP");
    reveal_strlit("GBP");
    reveal_strlit("GTS");
    reveal_strlit("GBS");
    reveal_strlit("GTO");
    reveal_strlit("GBO");
    reveal_strlit("DRL");
    reveal_strlit("GM1");
    reveal_strlit("GM2");
    reveal_strlit("GVC");
    reveal_strlit("GSP");
    reveal_strlit("GKO");
    reveal_strlit("GBR");
    reveal_strlit("DRD");
    assert("GTL"@[0] == 'G' && "GTL"@[1] == 'T' && "GTL"@[2] == 'L');
    assert("GBL"@[0] == 'G' && "GBL"@[1] == 'B' && "GBL"@[2] == 'L');
    assert("GTP"@[0] == 'G' && "GTP"@[1] == 'T' && "GTP"@[2] == 'P');
    assert("GBP"@[0] == 'G' && "GBP"@[1] == 'B' && "GBP"@[2] == 'P');
    assert("GTS"@[0] == 'G' && "GTS"@[1] == 'T' && "GTS"@[2] == 'S');
    assert("GBS"@[0] == 'G' && "GBS"@[1] == 'B' && "GBS"@[2] == 'S');
    assert("GTO"@[0] == 'G' && "GTO"@[1] == 'T' && "GTO"@[2] == 'O');
    assert("GBO"@[0] == 'G' && "GBO"@[1] == 'B' && "GBO"@[2] == 'O');
    assert("DRL"@[0] == 'D' && "DRL"@[1] == 'R' && "DRL"@[2] == 'L');
    assert("GM1"@[0] == 'G' && "GM1"@[1] == 'M' && "GM1"@[2] == '1');
    assert("GM2"@[0] == 'G' && "GM2"@[1] == 'M' && "GM2"@[2] == '2');
    assert("GVC"@[0] == 'G' && "GVC"@[1] == 'V' && "GVC"@[2] == 'C');
    assert("GSP"@[0] == 'G' && "GSP"@[1] == 'S' && "GSP"@[2] == 'P');
    assert("GKO"@[0] == 'G' && "GKO"@[1] == 'K' && "GKO"@[2] == 'O');
    assert("GBR"@[0] == 'G' && "GBR"@[1] == 'B' && "GBR"@[2] == 'R');
    assert("DRD"@[0] == 'D' && "DRD"@[1] == 'R' && "DRD"@[2] == 'D');
}

/// The extension of each layer type, and its text: the ending of its files and what it is.
pub proof fn law_layer_texts(n: i32)
    ensures
        LayerType::Top.extension_spec() == "gtl"@,
        LayerType::Bottom.extension_spec() == "gbl"@,
        LayerType::PasteTop.extension_spec() == "gtp"@,
        LayerType::PasteBottom.extension_spec() == "gbp"@,
        LayerType::MaskTop.extension_spec() == "gts"@,
        LayerType::MaskBottom.extension_spec() == "gbs"@,
        LayerType::SilkScreenTop.extension_spec() == "gto"@,
        LayerType::SilkScreenBottom.extension_spec() == "gbo"@,
        LayerType::Drill.extension_spec() == "drl"@,
        LayerType::Dimensions.extension_spec() == "gm1"@,
        LayerType::Milling.extension_spec() == "gm2"@,
        LayerType::VCut.extension_spec() == "gvc"@,
        LayerType::SidePlating.extension_spec() == "gsp"@,
        LayerType::KeepOut.extension_spec() == "gko"@,
        LayerType::Info.extension_spec() == "txt"@,
        LayerType::UndefinedGerber.extension_spec() == "gbr"@,
        LayerType::Inner(n).extension_spec() == "gl"@ + numeral(n as int),
        LayerType::Top.text_spec() == "gbr Copper Top Layer"@,
        LayerType::Bottom.text_spec() == "gbr Copper Bottom Layer"@,
        LayerType::PasteTop.text_spec() == "gbr Paste Top Layer"@,
        LayerType::PasteBottom.text_spec() == "gbr Paste Bottom Layer"@,
        LayerType::MaskTop.text_spec() == "gbr Mask Top Layer"@,
        LayerType::MaskBottom.text_spec() == "gbr Mask Bottom Layer"@,
        LayerType::SilkScreenTop.text_spec() == "gbr Silk Screen Top Layer"@,
        LayerType::SilkScreenBottom.text_spec() == "gbr Silk Screen Bottom Layer"@,
        LayerType::Drill.text_spec() == "drl Drill Layer"@,
        LayerType::Dimensions.text_spec() == "gbr Dimension Layer"@,
        LayerType::Milling.text_spec() == "gbr Milling Layer"@,
        LayerType::VCut.text_spec() == "gbr V-Cut Layer"@,
        LayerType::SidePlating.text_spec() == "gbr Side Plating Layer"@,
        LayerType::KeepOut.text_spec() == "gbr Keep Out Layer"@,
        LayerType::Info.text_spec() == "txt Info"@,
        LayerType::UndefinedGerber.text_spec() == "gbr Undefined"@,
        LayerType::Inner(n).text_spec() == "gbr Copper Inner Layer "@ + numeral(n as int),
        LayerType::Top.file_ending_spec() == "gbr"@,
        LayerType::Bottom.file_ending_spec() == "gbr"@,
        LayerType::PasteTop.file_ending_spec() == "gbr"@,
        LayerType::PasteBottom.file_ending_spec() == "gbr"@,
        LayerType::MaskTop.file_ending_spec() == "gbr"@,
        LayerType::MaskBottom.file_ending_spec() == "gbr"@,
        LayerType::SilkScreenTop.file_ending_spec() == "gbr"@,
        LayerType::SilkScreenBottom.file_ending_spec() == "gbr"@,
        LayerType::Drill.file_ending_spec() == "drl"@,
        LayerType::Dimensions.file_ending_spec() == "gbr"@,
        LayerType::Milling.file_ending_spec() == "gbr"@,
        LayerType::VCut.file_ending_spec() == "gbr"@,
        LayerType::SidePlating.file_ending_spec() == "gbr"@,
        LayerType::KeepOut.file_ending_spec() == "gbr"@,
        LayerType::Info.file_ending_spec() == "txt"@,
        LayerType::UndefinedGerber.file_ending_spec() == "gbr"@,
        LayerType::Inner(n).file_ending_spec() == "gbr"@,
{
    reveal_strlit("drl");
    reveal_strlit("gbr");
    reveal_strlit("txt");
    reveal_strlit(" ");
    reveal_strlit("gbr Copper Top Layer");
    reveal_strlit("Copper Top Layer");
    reveal_strlit("gbr Copper Bottom Layer");
    reveal_strlit("Copper Bottom Layer");
    reveal_strlit("gbr Paste Top Layer");
    reveal_strlit("Paste Top Layer");
    reveal_strlit("gbr Paste Bottom Layer");
    reveal_strlit("Paste Bottom Layer");
    reveal_strlit("gbr Mask Top Layer");
    reveal_strlit("Mask Top Layer");
    reveal_strlit("gbr Mask Bottom Layer");
    reveal_strlit("Mask Bottom Layer");
    reveal_strlit("gbr Silk Screen Top Layer");
    reveal_strlit("Silk Screen Top Layer");
    reveal_strlit("gbr Silk Screen Bottom Layer");
    reveal_strlit("Silk Screen Bottom Layer");
    reveal_strlit("drl Drill Layer");
    reveal_strlit("Drill Layer");
    reveal_strlit("gbr Dimension Layer");
    reveal_strlit("Dimension Layer");
    reveal_strlit("gbr Milling Layer");
    reveal_strlit("Milling Layer");
    reveal_strlit("gbr V-Cut Layer");
    reveal_strlit("V-Cut Layer");
    reveal_strlit("gbr Side Plating Layer");
    reveal_strlit("Side Plating Layer");
    reveal_strlit("gbr Keep Out Layer");
    reveal_strlit("Keep Out Layer");
    reveal_strlit("txt Info");
    reveal_strlit("Info");
    reveal_strlit("gbr Undefined");
    reveal_strlit("Undefined");
    reveal_strlit("Copper Inner Layer ");
    reveal_strlit("gbr Copper Inner Layer ");
    assert(LayerType::Top.text_spec() =~= "gbr Copper Top Layer"@);
    assert(LayerType::Bottom.text_spec() =~= "gbr Copper Bottom Layer"@);
    assert(LayerType::PasteTop.text_spec() =~= "gbr Paste Top Layer"@);
    assert(LayerType::PasteBottom.text_spec() =~= "gbr Paste Bottom Layer"@);
    assert(LayerType::MaskTop.text_spec() =~= "gbr Mask Top Layer"@);
    assert(LayerType::MaskBottom.text_spec() =~= "gbr Mask Bottom Layer"@);
    assert(LayerType::SilkScreenTop.text_spec() =~= "gbr Silk Screen Top Layer"@);
    assert(LayerType::SilkScreenBottom.text_spec() =~= "gbr Silk Screen Bottom Layer"@);
    assert(LayerType::Drill.text_spec() =~= "drl Drill Layer"@);
    assert(LayerType::Dimensions.text_spec() =~= "gbr Dimension Layer"@);
    assert(LayerType::Milling.text_spec() =~= "gbr Milling Layer"@);
    assert(LayerType::VCut.text_spec() =~= "gbr V-Cut Layer"@);
    assert(LayerType::SidePlating.text_spec() =~= "gbr Side Plating Layer"@);
    assert(LayerType::KeepOut.text_spec() =~= "gbr Keep Out Layer"@);
    assert(LayerType::Info.text_spec() =~= "txt Info"@);
    assert(LayerType::UndefinedGerber.text_spec() =~= "gbr Undefined"@);
    assert(LayerType::Inner(n).text_spec() =~= "gbr Copper Inner Layer "@ + numeral(n as int));
}

/// A whole number in decimal digits, behind a minus sign where it is negative.
pub open spec fn numeral(n: int) -> Seq<char> {
    if n < 0 {
        seq!['-'] + text::dec_digits((-n) as nat)
    } else {
        text::dec_digits(n as nat)
    }
}

/// The function that each layer type is written with.
pub proof fn law_functions_written(n: i32)
    ensures
        LayerType::Top.function_spec() == (FileFunction::<Seq<char>>::Copper {
            layer: 1,
            pos: ExtendedPosition::Top,
            copper_type: None,
        }),
        LayerType::Bottom.function_spec() == (FileFunction::<Seq<char>>::Copper {
            layer: 99,
            pos: ExtendedPosition::Bottom,
            copper_type: None,
        }),
        LayerType::Inner(n).function_spec() == (FileFunction::<Seq<char>>::Copper {
            layer: n,
            pos: ExtendedPosition::Inner,
            copper_type: None,
        }),
        LayerType::PasteTop.function_spec() == FileFunction::<Seq<char>>::Paste(Position::Top),
        LayerType::PasteBottom.function_spec() == FileFunction::<Seq<char>>::Paste(
            Position::Bottom,
        ),
        LayerType::MaskTop.function_spec() == (FileFunction::<Seq<char>>::SolderMask {
            pos: Position::Top,
            index: None,
        }),
        LayerType::MaskBottom.function_spec() == (FileFunction::<Seq<char>>::SolderMask {
            pos: Position::Bottom,
            index: None,
        }),
        LayerType::SilkScreenTop.function_spec() == (FileFunction::<Seq<char>>::Legend {
            pos: Position::Top,
            index: None,
        }),
        LayerType::SilkScreenBottom.function_spec() == (FileFunction::<Seq<char>>::Legend {
            pos: Position::Bottom,
            index: None,
        }),
        LayerType::Drill.function_spec() == FileFunction::<Seq<char>>::DrillMap,
        LayerType::Dimensions.function_spec() == FileFunction::<Seq<char>>::Profile(None),
        LayerType::Milling.function_spec() == FileFunction::<Seq<char>>::Profile(
            Some(Profile::NonPlated),
        ),
        LayerType::VCut.function_spec() == FileFunction::<Seq<char>>::VCut(None),
        LayerType::SidePlating.function_spec() == FileFunction::<Seq<char>>::Profile(
            Some(Profile::Plated),
        ),
        LayerType::KeepOut.function_spec() == FileFunction::<Seq<char>>::KeepOut(Position::Top),
        LayerType::Info.function_spec() == FileFunction::<Seq<char>>::Other("Text"@),
        LayerType::UndefinedGerber.function_spec() == FileFunction::<Seq<char>>::Other(
            "Undefined"@,
        ),
{
}

/// The layer type that each function stands for: the side counts, not the number of the layer, the
/// kind of copper or the index.
pub proof fn law_functions_read(
    n: i32,
    kind: Option<CopperType>,
    index: Option<i32>,
    side: Position,
    cut: Option<Position>,
    name: Seq<char>,
)
    ensures
        LayerType::of_function(
            (FileFunction::Copper { layer: n, pos: ExtendedPosition::Top, copper_type: kind }),
        ) == LayerType::Top,
        LayerType::of_function(
            (FileFunction::Copper { layer: n, pos: ExtendedPosition::Bottom, copper_type: kind }),
        ) == LayerType::Bottom,
        LayerType::of_function(
            (FileFunction::Copper { layer: n, pos: ExtendedPosition::Inner, copper_type: kind }),
        ) == LayerType::Inner(n),
        LayerType::of_function(FileFunction::Paste(Position::Top)) == LayerType::PasteTop,
        LayerType::of_function(FileFunction::Paste(Position::Bottom)) == LayerType::PasteBottom,
        LayerType::of_function((FileFunction::SolderMask { pos: Position::Top, index }))
            == LayerType::MaskTop,
        LayerType::of_function((FileFunction::SolderMask { pos: Position::Bottom, index }))
            == LayerType::MaskBottom,
        LayerType::of_function((FileFunction::Legend { pos: Position::Top, index }))
            == LayerType::SilkScreenTop,
        LayerType::of_function((FileFunction::Legend { pos: Position::Bottom, index }))
            == LayerType::SilkScreenBottom,
        LayerType::of_function(FileFunction::DrillMap) == LayerType::Drill,
        LayerType::of_function(FileFunction::Profile(None)) == LayerType::Dimensions,
        LayerType::of_function(FileFunction::Profile(Some(Profile::NonPlated)))
            == LayerType::Milling,
        LayerType::of_function(FileFunction::Profile(Some(Profile::Plated)))
            == LayerType::SidePlating,
        LayerType::of_function(FileFunction::VCut(cut)) == LayerType::VCut,
        LayerType::of_function(FileFunction::KeepOut(side)) == LayerType::KeepOut,
        LayerType::of_function(FileFunction::Other(name)) == LayerType::Info,
        LayerType::of_function(FileFunction::Unmapped(name)) == LayerType::UndefinedGerber,
{
}

/// The command gives the file the function `f`, as an attribute or as a comment that stands for one.
pub open spec fn gives_function<N>(c: CommandView<N>, f: FileFunction<Seq<char>>) -> bool {
    ||| c matches Command::ExtendedCode(ExtendedCode::FileAttribute(FileAttribute::FileFunction(g)))
        && g == f
    ||| c matches Command::FunctionCode(
        FunctionCode::GCode(
            GCode::Comment(
                CommentContent::Standard(
                    StandardComment::FileAttribute(FileAttribute::FileFunction(g)),
                ),
            ),
        ),
    ) && g == f
}

/// The function of a file is the first that a command gives it.
pub proof fn law_first_function<N>(s: Seq<CommandView<N>>)
    ensures
        match layer_type::first_function(s) {
            Some(f) => exists|i: int|
                0 <= i < s.len() && #[trigger] gives_function(s[i], f) && forall|
                    j: int,
                    g: FileFunction<Seq<char>>,
                |
                    0 <= j < i ==> !#[trigger] gives_function(s[j], g),
            None => forall|j: int, g: FileFunction<Seq<char>>|
                0 <= j < s.len() ==> !#[trigger] gives_function(s[j], g),
        },
    decreases s.len(),
{
    if s.len() > 0 {
        match layer_type::named_function(s[0]) {
            Some(f) => {
                assert(gives_function(s[0], f));
            },
            None => {
                let t = s.skip(1);
                law_first_function(t);
                match layer_type::first_function(t) {
                    Some(f) => {
                        let i = choose|i: int|
                            0 <= i < t.len() && #[trigger] gives_function(t[i], f) && forall|
                                j: int,
                                g: FileFunction<Seq<char>>,
                            |
                                0 <= j < i ==> !#[trigger] gives_function(t[j], g);
                        assert(s[i + 1] == t[i]);
                        assert(gives_function(s[i + 1], f));
                        assert forall|j: int, g: FileFunction<Seq<char>>|
                            0 <= j < i + 1 implies !#[trigger] gives_function(s[j], g) by {
                            if j > 0 {
                                assert(s[j] == t[j - 1]);
                                assert(!gives_function(t[j - 1], g));
                            }
                        }
                    },
                    None => {
                        assert forall|j: int, g: FileFunction<Seq<char>>|
                            0 <= j < s.len() implies !#[trigger] gives_function(s[j], g) by {
                            if j > 0 {
                                assert(s[j] == t[j - 1]);
                                assert(!gives_function(t[j - 1], g));
                            }
                        }
                    },
                }
            },
        }
    }
}

/// The number of an inner layer: decimal digits, with or without a sign.
pub proof fn law_layer_numbers(d: Seq<char>)
    requires
        d.len() > 0,
        text::all_digits(d),
        text::dec_value(d) <= 0x7fff_ffff,
    ensures
        layer_type::integer(d) == Some(text::dec_value(d) as i32),
        layer_type::integer(seq!['+'] + d) == Some(text::dec_value(d) as i32),
        layer_type::integer(seq!['-'] + d) == Some((-(text::dec_value(d) as int)) as i32),
        layer_type::integer(Seq::empty()) is None,
{
    assert(text::is_digit(d[0]));
    assert((seq!['+'] + d).skip(1) =~= d);
    assert((seq!['-'] + d).skip(1) =~= d);
}

/// `GL` and a number names the inner layer with that number; `GL` and anything else is refused.
pub proof fn law_inner_layers(tail: Seq<char>, value: Seq<char>)
    ensures
        match layer_type::integer(tail) {
            Some(n) => names("GL"@ + tail, LayerType::Inner(n)),
            None => layer_type::type_of_extension("GL"@ + tail, value) is Err,
        },
{
    reveal_strlit("GL");
    reveal_strlit("GTL");
    reveal_strlit("GBL");
    reveal_strlit("GTP");
    reveal_strlit("GBP");
    reveal_strlit("GTS");
    reveal_strlit("GBS");
    reveal_strlit("GTO");
    reveal_strlit("GBO");
    reveal_strlit("DRD");
    reveal_strlit("DRL");
    reveal_strlit("GM1");
    reveal_strlit("GM2");
    reveal_strlit("GVC");
    reveal_strlit("GSP");
    reveal_strlit("GKO");
    reveal_strlit("GBR");
    let s = "GL"@ + tail;
    assert(s[0] == 'G' && s[1] == 'L');
    assert("GL"@.is_prefix_of(s));
    assert(s.skip(2) =~= tail);
    assert("GTL"@[1] == 'T' && "GBL"@[1] == 'B' && "GTP"@[1] == 'T' && "GBP"@[1] == 'B');
    assert("GTS"@[1] == 'T' && "GBS"@[1] == 'B' && "GTO"@[1] == 'T' && "GBO"@[1] == 'B');
    assert("DRD"@[1] == 'R' && "DRL"@[1] == 'R' && "GM1"@[1] == 'M' && "GM2"@[1] == 'M');
    assert("GVC"@[1] == 'V' && "GSP"@[1] == 'S' && "GKO"@[1] == 'K' && "GBR"@[1] == 'B');
}

} // verus!
