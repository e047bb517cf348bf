//! What scaling keeps.
use crate::excellon_format;
use crate::excellon_format::{EntryView, ExcellonView};
use crate::fixed;
use crate::fixed::{Fixed, ONE};
use crate::gerber;
use crate::gerber::GerberView;
use crate::gerber_types::{
    Command, CommandView, CoordinateFormat, CoordinateNumber, DCode, FunctionCode, Operation,
};
use crate::scalar::Scalar;
use crate::LayerScale;
use vstd::prelude::*;

verus! {

/// One.
pub open spec fn unity() -> Fixed {
    Fixed { raw: ONE }
}

proof fn lemma_times_one(v: Fixed)
    ensures
        v.times_spec(unity()) == v,
{
    let a = fixed::abs(v.raw as int);
    assert(fixed::abs(v.raw * ONE) == a * ONE) by (nonlinear_arith)
        requires
            a == fixed::abs(v.raw as int),
            ONE > 0,
    ;
    assert((a * ONE) / (ONE as int) == a && (a * ONE) % (ONE as int) == 0) by (nonlinear_arith)
        requires
            a >= 0,
            ONE == 1_000_000_000,
    ;
}

proof fn lemma_entries_scaled_by_one(s: Seq<EntryView<Fixed>>)
    ensures
        ({
            let f = |c: excellon_format::CommandView<Fixed>|
                excellon_format::edit::stretched(c, unity(), unity());
            excellon_format::edit::on_commands(s, f) == s
        }),
{
    let f = |c: excellon_format::CommandView<Fixed>|
        excellon_format::edit::stretched(c, unity(), unity());
    let t = excellon_format::edit::on_commands(s, f);
    assert forall|v: Fixed| #[trigger] v.times_spec(unity()) == v by {
        lemma_times_one(v);
    }
    assert forall|i: int| 0 <= i < s.len() implies t[i] == s[i] by {}
    assert(t =~= s);
}

/// A drill layer that is scaled by one stays as it is.
pub proof fn law_drill_scaled_by_one(v: ExcellonView<Fixed>)
    ensures
        excellon_format::edit::stretched_layer(v, unity(), unity()) == v,
{
    lemma_entries_scaled_by_one(v.header);
    lemma_entries_scaled_by_one(v.commands);
}

/// The coordinates of the command are in the range of numbers and written in `format`.
pub open spec fn in_format(c: CommandView<Fixed>, format: CoordinateFormat) -> bool {
    c matches Command::FunctionCode(FunctionCode::DCode(DCode::Operation(op))) ==> {
        let (p, o) = match op {
            Operation::Move(p) => (p, None),
            Operation::Flash(p) => (p, None),
            Operation::Interpolate(p, o) => (p, o),
        };
        &&& p matches Some(p) ==> p.format == format && in_range(p.x) && in_range(p.y)
        &&& o matches Some(o) ==> o.format == format && in_range(o.x) && in_range(o.y)
    }
}

pub open spec fn in_range(v: Option<CoordinateNumber>) -> bool {
    v matches Some(v) ==> i64::MIN <= v.nano * 1000 <= i64::MAX
}

proof fn lemma_axis_scaled_by_one(v: Option<CoordinateNumber>)
    requires
        in_range(v),
    ensures
        gerber::edit::scaled_axis(v, unity()) == v,
{
    if let Some(c) = v {
        lemma_times_one(Fixed::from_nano_spec(c.nano));
    }
}

/// A layer that is scaled by one stays as it is, where its coordinates are written in its format.
pub proof fn law_scaled_by_one(v: GerberView<Fixed>)
    requires
        forall|i: int|
            0 <= i < v.commands.len() ==> in_format(#[trigger] v.commands[i], v.coordinate_format),
    ensures
        gerber::GerberLayerData::<Fixed>::scaled(v, unity(), unity()) == v,
{
    let s = v.commands;
    let t = gerber::edit::scaled_commands(s, v.coordinate_format, unity(), unity());
    assert forall|i: int| 0 <= i < s.len() implies t[i] == s[i] by {
        assert(in_format(s[i], v.coordinate_format));
        match s[i] {
            Command::FunctionCode(FunctionCode::DCode(DCode::Operation(op))) => {
                let (p, o) = match op {
                    Operation::Move(p) => (p, None),
                    Operation::Flash(p) => (p, None),
                    Operation::Interpolate(p, o) => (p, o),
                };
                if let Some(p) = p {
                    lemma_axis_scaled_by_one(p.x);
                    lemma_axis_scaled_by_one(p.y);
                }
                if let Some(o) = o {
                    lemma_axis_scaled_by_one(o.x);
                    lemma_axis_scaled_by_one(o.y);
                }
            },
            _ => {},
        }
    }
    assert(t =~= s);
}

} // verus!
