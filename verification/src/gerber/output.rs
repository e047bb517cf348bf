//! From a layer to the commands of a file.
use crate::gerber::optimize::Optimize;
use crate::gerber::{GerberLayerData, GerberView};
use crate::gerber_types::{
    Aperture, ApertureDefinition, ApertureMacroView, ApertureView, Command, CommandView,
    CommentContent, ExtendedCode, FileAttribute, FunctionCode, GCode, GerberDate, ImageName, MCode,
    Polarity, QuadrantMode, StandardComment,
};
use crate::scalar::Scalar;
use crate::table::Table;
use vstd::prelude::*;

verus! {

/// `chrono::Utc::now`, as a date with an offset: that of UTC, which is zero. Nothing is said of the
/// time, which no two calls share. On a machine whose clock stands before 1970 there is no such
/// date, and the call panics.
#[verifier::external_body]
fn now() -> (r: GerberDate)
    ensures
        r.offset_seconds == 0,
{
    let date = chrono::DateTime::<chrono::FixedOffset>::from(chrono::Utc::now());
    GerberDate {
        seconds: date.timestamp(),
        nanoseconds: date.timestamp_subsec_nanos(),
        offset_seconds: date.offset().local_minus_utc(),
    }
}

pub open spec fn attribute_comment<N>(a: FileAttribute<Seq<char>>) -> CommandView<N> {
    Command::FunctionCode(
        FunctionCode::GCode(
            GCode::Comment(CommentContent::Standard(StandardComment::FileAttribute(a))),
        ),
    )
}

/// The commands at the start of a file.
pub open spec fn preamble<N>(v: GerberView<N>, created: GerberDate) -> Seq<CommandView<N>> {
    seq![
        Command::FunctionCode(
            FunctionCode::GCode(GCode::Comment(CommentContent::String("ProAdm generated panel"@))),
        ),
        attribute_comment(FileAttribute::FileFunction(v.layer_type.function_spec())),
        attribute_comment(FileAttribute::CreationDate(created)),
        Command::FunctionCode(FunctionCode::GCode(GCode::QuadrantMode(QuadrantMode::Multi))),
        Command::ExtendedCode(ExtendedCode::Unit(v.unit)),
        Command::ExtendedCode(ExtendedCode::CoordinateFormat(v.coordinate_format)),
        Command::ExtendedCode(ExtendedCode::LoadPolarity(Polarity::Dark)),
        Command::ExtendedCode(
            ExtendedCode::ImageName(ImageName { name: v.layer_type.file_ending_spec() }),
        ),
    ]
}

pub open spec fn definition<N>(e: (i32, ApertureView<N>)) -> CommandView<N> {
    Command::ExtendedCode(
        ExtendedCode::ApertureDefinition(ApertureDefinition { code: e.0, aperture: e.1 }),
    )
}

/// The definitions of the apertures that are macros, or of those that are not.
pub open spec fn definitions<N>(
    apertures: Seq<(i32, ApertureView<N>)>,
    macros: bool,
) -> Seq<CommandView<N>>
    decreases apertures.len(),
{
    if apertures.len() == 0 {
        Seq::empty()
    } else {
        let rest = definitions(apertures.drop_last(), macros);
        if (apertures.last().1 is Macro) == macros {
            rest.push(definition(apertures.last()))
        } else {
            rest
        }
    }
}

pub open spec fn macro_definitions<N>(macros: Seq<ApertureMacroView<N>>) -> Seq<CommandView<N>> {
    macros.map_values(
        |m: ApertureMacroView<N>| -> CommandView<N> {
            Command::ExtendedCode(ExtendedCode::ApertureMacro(m))
        },
    )
}

/// The commands of a complete file: the preamble, the apertures, the macros and the apertures made
/// of them, the drawing without what repeats itself, and the end of the file.
pub open spec fn file_commands<N>(v: GerberView<N>, created: GerberDate) -> Seq<CommandView<N>> {
    preamble(v, created) + definitions(v.apertures, false) + macro_definitions(v.macros)
        + definitions(v.apertures, true) + crate::gerber::optimize::needed(v.commands) + seq![
        Command::FunctionCode(FunctionCode::MCode(MCode::EndOfFile)),
    ]
}

fn push_preamble<N: Scalar>(
    layer: &GerberLayerData<N>,
    created: GerberDate,
    out: &mut Vec<Command<N>>,
)
    requires
        old(out)@.len() == 0,
    ensures
        crate::gerber_types::views(final(out)@) == preamble(layer@, created),
{
    out.push(
        Command::FunctionCode(
            FunctionCode::GCode(
                GCode::Comment(CommentContent::String("ProAdm generated panel".to_string())),
            ),
        ),
    );
    out.push(
        Command::FunctionCode(
            FunctionCode::GCode(
                GCode::Comment(
                    CommentContent::Standard(
                        StandardComment::FileAttribute(
                            FileAttribute::FileFunction(layer.layer_type.function()),
                        ),
                    ),
                ),
            ),
        ),
    );
    out.push(
        Command::FunctionCode(
            FunctionCode::GCode(
                GCode::Comment(
                    CommentContent::Standard(
                        StandardComment::FileAttribute(FileAttribute::CreationDate(created)),
                    ),
                ),
            ),
        ),
    );
    out.push(
        Command::FunctionCode(FunctionCode::GCode(GCode::QuadrantMode(QuadrantMode::Multi))),
    );
    out.push(Command::ExtendedCode(ExtendedCode::Unit(layer.unit)));
    out.push(Command::ExtendedCode(ExtendedCode::CoordinateFormat(layer.coordinate_format)));
    out.push(Command::ExtendedCode(ExtendedCode::LoadPolarity(Polarity::Dark)));
    out.push(
        Command::ExtendedCode(
            ExtendedCode::ImageName(
                ImageName { name: layer.layer_type.file_ending().to_string() },
            ),
        ),
    );
    assert(crate::gerber_types::views(out@) =~= preamble(layer@, created));
}

fn push_definitions<N: Scalar>(
    apertures: &Table<i32, Aperture<N>>,
    macros: bool,
    out: &mut Vec<Command<N>>,
)
    ensures
        crate::gerber_types::views(final(out)@) == crate::gerber_types::views(old(out)@)
            + definitions(crate::gerber::aperture_views(apertures@), macros),
{
    let ghost s = crate::gerber::aperture_views(apertures@);
    let ghost start = crate::gerber_types::views(out@);
    let mut i: usize = 0;
    assert(start =~= start + definitions(s.take(0), macros));
    while i < apertures.len()
        invariant
            i <= apertures@.len(),
            s == crate::gerber::aperture_views(apertures@),
            crate::gerber_types::views(out@) == start + definitions(s.take(i as int), macros),
        decreases apertures@.len() - i,
    {
        let ghost before = out@;
        proof {
            assert(s.take(i + 1).drop_last() =~= s.take(i as int));
            assert(s.take(i + 1).last() == (apertures@[i as int].0, apertures@[i as int].1@));
        }
        let aperture = apertures.value_at(i);
        let is_macro = match aperture {
            Aperture::Macro(_, _) => true,
            _ => false,
        };
        if is_macro == macros {
            let copy = aperture.clone();
            out.push(
                Command::ExtendedCode(
                    ExtendedCode::ApertureDefinition(
                        ApertureDefinition { code: apertures.key_at(i), aperture: copy },
                    ),
                ),
            );
            assert(crate::gerber_types::views(out@) =~= crate::gerber_types::views(before).push(
                definition(s[i as int]),
            ));
        }
        assert(crate::gerber_types::views(out@) =~= start + definitions(s.take(i + 1), macros));
        i = i + 1;
    }
    assert(s.take(i as int) =~= s);
}

impl<N: Scalar> GerberLayerData<N> {
    /// The commands of a complete file that says when it was created.
    pub fn to_commands_at(&self, created: GerberDate) -> (r: Vec<Command<N>>)
        ensures
            crate::gerber_types::views(r@) == file_commands(self@, created),
    {
        let mut commands: Vec<Command<N>> = Vec::new();
        push_preamble(self, created, &mut commands);
        push_definitions(&self.apertures, false, &mut commands);
        let ghost start = crate::gerber_types::views(commands@);
        let ghost m = macro_definitions(self@.macros);
        let mut i: usize = 0;
        assert(start =~= start + m.take(0));
        while i < self.macros.len()
            invariant
                i <= self.macros@.len(),
                m == macro_definitions(self.macros@),
                crate::gerber_types::views(commands@) == start + m.take(i as int),
            decreases self.macros@.len() - i,
        {
            let ghost before = commands@;
            let copy = self.macros.item(i).clone();
            commands.push(Command::ExtendedCode(ExtendedCode::ApertureMacro(copy)));
            assert(crate::gerber_types::views(commands@) =~= crate::gerber_types::views(
                before,
            ).push(m[i as int]));
            assert(crate::gerber_types::views(commands@) =~= start + m.take(i + 1));
            i = i + 1;
        }
        assert(m.take(i as int) =~= m);
        push_definitions(&self.apertures, true, &mut commands);
        let drawing = Command::optimize(&self.commands);
        let ghost start = crate::gerber_types::views(commands@);
        let ghost d = crate::gerber::optimize::needed(self@.commands);
        let mut i: usize = 0;
        proof {
            assert(self.commands@.map_values(|c: Command<N>| c@) =~= self@.commands);
            assert(start =~= start + d.take(0));
        }
        while i < drawing.len()
            invariant
                i <= drawing@.len(),
                d == drawing@.map_values(|c: &Command<N>| c@),
                crate::gerber_types::views(commands@) == start + d.take(i as int),
            decreases drawing@.len() - i,
        {
            let ghost before = commands@;
            let copy = drawing[i].clone();
            commands.push(copy);
            assert(crate::gerber_types::views(commands@) =~= crate::gerber_types::views(
                before,
            ).push(d[i as int]));
            assert(crate::gerber_types::views(commands@) =~= start + d.take(i + 1));
            i = i + 1;
        }
        assert(d.take(i as int) =~= d);
        commands.push(Command::FunctionCode(FunctionCode::MCode(MCode::EndOfFile)));
        assert(crate::gerber_types::views(commands@) =~= file_commands(self@, created));
        commands
    }

    /// Assembles a complete, self-contained Gerber command stream.
    ///
    /// Prepends the standard header (file attributes, unit, coordinate format,
    /// aperture definitions, aperture macros) and appends `M02*` (end of file).
    /// The draw commands are passed through the [`Optimize`] filter before output.
    pub fn to_commands(&self) -> (r: Vec<Command<N>>)
        ensures
            exists|created: GerberDate|
                created.offset_seconds == 0 && crate::gerber_types::views(r@)
                    == #[trigger] file_commands(self@, created),
    {
        let created = now();
        self.to_commands_at(created)
    }

    /// Writes to given output. `encode` turns the commands of a file into its text, or says why it
    /// cannot; then nothing is written.
    pub fn write_to<E: Fn(&Vec<Command<N>>) -> Result<String, String>>(
        &self,
        out: &mut String,
        encode: &E,
    ) -> (r: Result<(), String>)
        requires
            encodes(*encode),
        ensures
            match r {
                Ok(()) => exists|text: Seq<char>| #[trigger]
                    encoded(self@, *encode, Ok(text)) && final(out)@ == old(out)@ + text,
                Err(e) => encoded(self@, *encode, Err(e@)) && final(out)@ == old(out)@,
            },
    {
        let commands = self.to_commands();
        let text = encode(&commands);
        assert(written_as(self@, commands, *encode, text));
        match text {
            Ok(text) => {
                assert(encoded(self@, *encode, Ok(text@)));
                out.append(text.as_str());
                Ok(())
            },
            Err(e) => {
                assert(encoded(self@, *encode, Err(e@)));
                Err(e)
            },
        }
    }
}

/// `encode` takes the commands of any file.
pub open spec fn encodes<N, E: Fn(&Vec<Command<N>>) -> Result<String, String>>(encode: E) -> bool {
    forall|c: &Vec<Command<N>>| #[trigger] call_requires(encode, (c,))
}

pub open spec fn text_view(r: Result<String, String>) -> Result<Seq<char>, Seq<char>> {
    match r {
        Ok(s) => Ok(s@),
        Err(e) => Err(e@),
    }
}

/// `text` is what `encode` makes of the commands of the layer.
pub open spec fn written_as<N, E: Fn(&Vec<Command<N>>) -> Result<String, String>>(
    v: GerberView<N>,
    commands: Vec<Command<N>>,
    encode: E,
    text: Result<String, String>,
) -> bool {
    &&& call_ensures(encode, (&commands,), text)
    &&& exists|created: GerberDate|
        created.offset_seconds == 0 && crate::gerber_types::views(commands@)
            == #[trigger] file_commands(v, created)
}

/// `text` is what `encode` makes of the commands of the layer, at some time.
pub open spec fn encoded<N, E: Fn(&Vec<Command<N>>) -> Result<String, String>>(
    v: GerberView<N>,
    encode: E,
    text: Result<Seq<char>, Seq<char>>,
) -> bool {
    exists|commands: Vec<Command<N>>, t: Result<String, String>| #[trigger]
        written_as(v, commands, encode, t) && text_view(t) == text
}

} // verus!
