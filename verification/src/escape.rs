//! Control of one pixel's escape-time iteration: which step comes next, when
//! the iteration ends, and the colour index it ends with. The arithmetic of a
//! step is the caller's; what it observed after each step is handed in.

use vstd::prelude::*;
use crate::color::Fraction;
use crate::palette::{escape_position, inside_position, ColorIndex, Palette};

verus! {

/// What one step of the iteration showed.
#[derive(Clone, Copy, Debug, PartialEq, Eq, Structural)]
pub enum Observation {
    /// The orbit is still within the escape radius.
    Bounded,
    /// The orbit left the escape radius, with this fractional correction.
    Escaped { nu: Fraction },
}

/// Where the iteration of one pixel stands.
#[derive(Clone, Copy, Debug, PartialEq, Eq, Structural)]
pub enum Progress {
    /// Step `step` is to be taken next.
    Running { step: u32 },
    /// The iteration is over, with this colour index.
    Finished { index: ColorIndex },
}

/// Where an iteration of at most `iterations` steps begins.
pub open spec fn begin_at(iterations: u32, size: int) -> Progress {
    if iterations == 0 {
        Progress::Finished { index: inside_position(0, size) }
    } else {
        Progress::Running { step: 0 }
    }
}

/// Where the iteration stands once step `step` has shown `seen`.
pub open spec fn advance_from(iterations: u32, size: int, step: u32, seen: Observation) -> Progress {
    match seen {
        Observation::Escaped { nu } => Progress::Finished {
            index: escape_position(step as int, nu, size),
        },
        Observation::Bounded => if step + 1 >= iterations {
            Progress::Finished { index: inside_position(iterations as int, size) }
        } else {
            Progress::Running { step: (step + 1) as u32 }
        },
    }
}

/// Where the iteration stands after the steps from `step` on have shown
/// `seen`, one observation for each step taken; observations after the end
/// are not looked at.
pub open spec fn run_from(iterations: u32, size: int, step: u32, seen: Seq<Observation>) -> Progress
    decreases seen.len(),
{
    if seen.len() == 0 {
        Progress::Running { step }
    } else {
        match advance_from(iterations, size, step, seen[0]) {
            Progress::Finished { index } => Progress::Finished { index },
            Progress::Running { step: next } => run_from(iterations, size, next, seen.drop_first()),
        }
    }
}

/// The state before the first step: over at once where no step is allowed,
/// with the index of a point that never escapes.
pub fn begin(palette: &Palette, iterations: u32) -> (p: Progress)
    ensures
        p == begin_at(iterations, palette@.len() as int),
{
    if iterations == 0 {
        Progress::Finished { index: palette.inside_index(0) }
    } else {
        Progress::Running { step: 0 }
    }
}

/// The state after step `step` has shown `seen`. An escape ends the
/// iteration with the smoothed index of that step; a bounded last step ends
/// it with the index of a point that never escapes; any other bounded step
/// leads to the next one.
pub fn advance(palette: &Palette, iterations: u32, step: u32, seen: Observation) -> (p: Progress)
    requires
        seen matches Observation::Escaped { nu } ==> nu.wf(),
    ensures
        p == advance_from(iterations, palette@.len() as int, step, seen),
        p matches Progress::Finished { index } ==> index.within(palette@.len()),
        p matches Progress::Running { step: next } ==> next == step + 1 && next < iterations,
{
    match seen {
        Observation::Escaped { nu } => Progress::Finished { index: palette.escape_index(step, nu) },
        Observation::Bounded => {
            if step >= iterations || step + 1 >= iterations {
                Progress::Finished { index: palette.inside_index(iterations) }
            } else {
                Progress::Running { step: step + 1 }
            }
        },
    }
}

/// An orbit that stays bounded through every remaining step ends, after the
/// last of them, with the iteration cap modulo the palette's size as its
/// index, exactly.
pub proof fn lemma_bounded_run_is_inside(iterations: u32, size: int, step: u32, seen: Seq<Observation>)
    requires
        step < iterations,
        seen.len() == iterations - step,
        forall|i: int| 0 <= i < seen.len() ==> seen[i] == Observation::Bounded,
    ensures
        run_from(iterations, size, step, seen) == (Progress::Finished {
            index: inside_position(iterations as int, size),
        }),
    decreases seen.len(),
{
    if step + 1 < iterations {
        let rest = seen.drop_first();
        assert forall|i: int| 0 <= i < rest.len() implies rest[i] == Observation::Bounded by {
            assert(rest[i] == seen[i + 1]);
        }
        lemma_bounded_run_is_inside(iterations, size, (step + 1) as u32, rest);
    }
}

/// An orbit that stays bounded for `k` steps and escapes at the next ends
/// there, with the smoothed index of that step.
pub proof fn lemma_run_ends_at_first_escape(
    iterations: u32,
    size: int,
    step: u32,
    seen: Seq<Observation>,
    k: int,
    nu: Fraction,
)
    requires
        0 <= k < seen.len(),
        step + k < iterations,
        forall|i: int| 0 <= i < k ==> seen[i] == Observation::Bounded,
        seen[k] == (Observation::Escaped { nu }),
    ensures
        run_from(iterations, size, step, seen) == (Progress::Finished {
            index: escape_position(step + k, nu, size),
        }),
    decreases k,
{
    if k > 0 {
        let rest = seen.drop_first();
        assert forall|i: int| 0 <= i < k - 1 implies rest[i] == Observation::Bounded by {
            assert(rest[i] == seen[i + 1]);
        }
        assert(rest[k - 1] == seen[k]);
        lemma_run_ends_at_first_escape(iterations, size, (step + 1) as u32, rest, k - 1, nu);
    }
}

} // verus!
