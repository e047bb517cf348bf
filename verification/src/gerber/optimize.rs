//! Commands that change nothing.
use crate::gerber_types::{
    Command, CommandView, DCode, ExtendedCode, FunctionCode, GCode, InterpolationMode, QuadrantMode,
};
use crate::scalar::Scalar;
use vstd::prelude::*;

verus! {

/// Deduplicates modal Gerber state commands.
///
/// In RS-274X several codes are *modal* — once set, they remain active until
/// explicitly changed. Emitting the same `SelectAperture`, `InterpolationMode`,
/// or `QuadrantMode` command twice in a row is legal but redundant.
/// `Optimize::optimize` strips the duplicates, shrinking the output file.
pub trait Optimize: View + Sized {
    /// `s` without the modal commands that repeat what is set already.
    spec fn optimized(s: Seq<Self::V>) -> Seq<Self::V>;

    /// Returns a filtered slice that omits consecutive repeated modal commands.
    fn optimize(values: &[Self]) -> (r: Vec<&Self>)
        ensures
            r@.map_values(|c: &Self| c@) == Self::optimized(values@.map_values(|c: Self| c@)),
    ;
}

/// What is set.
#[verifier::ext_equal]
pub ghost struct Context {
    pub quadrant_mode: Option<QuadrantMode>,
    pub aperture: Option<i32>,
    pub interpolation_mode: Option<InterpolationMode>,
}

impl Context {
    pub open spec fn start() -> Context {
        Context { quadrant_mode: None, aperture: None, interpolation_mode: None }
    }

    /// What is set behind a command. A grid leaves everything open.
    pub open spec fn after<N>(self, c: CommandView<N>) -> Context {
        match c {
            Command::ExtendedCode(ExtendedCode::StepAndRepeat(_)) => Context::start(),
            Command::FunctionCode(FunctionCode::DCode(DCode::SelectAperture(id))) => Context {
                aperture: Some(id),
                ..self
            },
            Command::FunctionCode(FunctionCode::GCode(GCode::InterpolationMode(m))) => Context {
                interpolation_mode: Some(m),
                ..self
            },
            Command::FunctionCode(FunctionCode::GCode(GCode::QuadrantMode(m))) => Context {
                quadrant_mode: Some(m),
                ..self
            },
            _ => self,
        }
    }

    /// The command sets what is set already.
    pub open spec fn has<N>(self, c: CommandView<N>) -> bool {
        match c {
            Command::FunctionCode(FunctionCode::DCode(DCode::SelectAperture(id))) => self.aperture
                == Some(id),
            Command::FunctionCode(FunctionCode::GCode(GCode::InterpolationMode(m))) =>
            self.interpolation_mode == Some(m),
            Command::FunctionCode(FunctionCode::GCode(GCode::QuadrantMode(m))) =>
            self.quadrant_mode == Some(m),
            _ => false,
        }
    }
}

/// What is set behind the commands.
pub open spec fn context<N>(s: Seq<CommandView<N>>) -> Context
    decreases s.len(),
{
    if s.len() == 0 {
        Context::start()
    } else {
        context(s.drop_last()).after(s.last())
    }
}

/// The commands that set something new, or set nothing.
pub open spec fn needed<N>(s: Seq<CommandView<N>>) -> Seq<CommandView<N>>
    decreases s.len(),
{
    if s.len() == 0 {
        Seq::empty()
    } else if context(s.drop_last()).has(s.last()) {
        needed(s.drop_last())
    } else {
        needed(s.drop_last()).push(s.last())
    }
}

struct OptimizationContext {
    quadrant_mode: Option<QuadrantMode>,
    aperture: Option<i32>,
    interpolation_mode: Option<InterpolationMode>,
}

impl OptimizationContext {
    spec fn context(self) -> Context {
        Context {
            quadrant_mode: self.quadrant_mode,
            aperture: self.aperture,
            interpolation_mode: self.interpolation_mode,
        }
    }

    fn new() -> (r: OptimizationContext)
        ensures
            r.context() == Context::start(),
    {
        OptimizationContext { quadrant_mode: None, aperture: None, interpolation_mode: None }
    }

    /// Takes a command over and returns whether it changed nothing.
    fn take<N>(&mut self, command: &Command<N>) -> (known: bool)
        ensures
            known == old(self).context().has(command@),
            final(self).context() == old(self).context().after(command@),
    {
        match command {
            Command::ExtendedCode(ExtendedCode::StepAndRepeat(_)) => {
                self.quadrant_mode = None;
                self.aperture = None;
                self.interpolation_mode = None;
            },
            Command::FunctionCode(FunctionCode::DCode(DCode::SelectAperture(current))) => {
                if let Some(id) = self.aperture {
                    if id == *current {
                        return true;
                    }
                }
                self.aperture = Some(*current);
            },
            Command::FunctionCode(FunctionCode::GCode(GCode::InterpolationMode(current))) => {
                if let Some(m) = self.interpolation_mode {
                    if m == *current {
                        return true;
                    }
                }
                self.interpolation_mode = Some(*current);
            },
            Command::FunctionCode(FunctionCode::GCode(GCode::QuadrantMode(current))) => {
                if let Some(m) = self.quadrant_mode {
                    if m == *current {
                        return true;
                    }
                }
                self.quadrant_mode = Some(*current);
            },
            _ => {},
        }
        false
    }
}

impl<N: Scalar> Optimize for Command<N> {
    open spec fn optimized(s: Seq<CommandView<N>>) -> Seq<CommandView<N>> {
        needed(s)
    }

    fn optimize(values: &[Self]) -> (r: Vec<&Self>) {
        let ghost s = values@.map_values(|c: Command<N>| c@);
        let mut result: Vec<&Command<N>> = Vec::new();
        let mut state = OptimizationContext::new();
        let mut i: usize = 0;
        assert(result@.map_values(|c: &Command<N>| c@) =~= needed(s.take(0)));
        while i < values.len()
            invariant
                i <= values@.len(),
                s == values@.map_values(|c: Command<N>| c@),
                state.context() == context(s.take(i as int)),
                result@.map_values(|c: &Command<N>| c@) == needed(s.take(i as int)),
            decreases values@.len() - i,
        {
            let ghost before = result@;
            proof {
                assert(s.take(i + 1).drop_last() =~= s.take(i as int));
                assert(s.take(i + 1).last() == values@[i as int]@);
            }
            if !state.take(&values[i]) {
                result.push(&values[i]);
                assert(result@.map_values(|c: &Command<N>| c@) =~= before.map_values(
                    |c: &Command<N>| c@,
                ).push(values@[i as int]@));
            }
            i = i + 1;
        }
        assert(s.take(i as int) =~= s);
        result
    }
}

/// Leaving out what changes nothing changes nothing: the same state is set behind the commands.
pub proof fn law_optimize_keeps_state<N>(s: Seq<CommandView<N>>)
    ensures
        context(needed(s)) == context(s),
    decreases s.len(),
{
    if s.len() > 0 {
        law_optimize_keeps_state(s.drop_last());
        let c = context(s.drop_last());
        if c.has(s.last()) {
            assert(c.after(s.last()) =~= c);
        } else {
            let n = needed(s.drop_last());
            assert(n.push(s.last()).drop_last() =~= n);
        }
    }
}

/// A list from which everything that changes nothing was left out stays as it is.
pub proof fn law_optimize_idempotent<N>(s: Seq<CommandView<N>>)
    ensures
        needed(needed(s)) == needed(s),
    decreases s.len(),
{
    if s.len() > 0 {
        law_optimize_idempotent(s.drop_last());
        law_optimize_keeps_state(s.drop_last());
        if !context(s.drop_last()).has(s.last()) {
            let n = needed(s.drop_last());
            assert(n.push(s.last()).drop_last() =~= n);
        }
    }
}

/// The commands that are no modal commands, each with what is set when it comes.
pub open spec fn effects<N>(s: Seq<CommandView<N>>) -> Seq<(CommandView<N>, Context)>
    decreases s.len(),
{
    if s.len() == 0 {
        Seq::empty()
    } else if is_modal(s.last()) {
        effects(s.drop_last())
    } else {
        effects(s.drop_last()).push((s.last(), context(s.drop_last())))
    }
}

pub open spec fn is_modal<N>(c: CommandView<N>) -> bool {
    match c {
        Command::FunctionCode(FunctionCode::DCode(DCode::SelectAperture(_))) => true,
        Command::FunctionCode(FunctionCode::GCode(GCode::InterpolationMode(_))) => true,
        Command::FunctionCode(FunctionCode::GCode(GCode::QuadrantMode(_))) => true,
        _ => false,
    }
}

/// Every command that is no modal command stays, in its place and with the aperture, the
/// interpolation mode and the quadrant mode that it had.
pub proof fn law_optimize_keeps_effects<N>(s: Seq<CommandView<N>>)
    ensures
        effects(needed(s)) == effects(s),
    decreases s.len(),
{
    if s.len() > 0 {
        law_optimize_keeps_effects(s.drop_last());
        law_optimize_keeps_state(s.drop_last());
        if !context(s.drop_last()).has(s.last()) {
            let n = needed(s.drop_last());
            assert(n.push(s.last()).drop_last() =~= n);
        }
    }
}

} // verus!
