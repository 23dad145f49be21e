use vstd::prelude::*;
use rand::rngs::StdRng;
use rand::Rng;

verus! {

/// The generator of `rand` that all of the game's chance comes from. Nothing
/// is known of what is inside it.
#[verifier::external_type_specification]
#[verifier::external_body]
pub struct ExStdRng(StdRng);

/// The one source of chance, handed to every executor that needs it, so that
/// a game that starts from the same seed runs the same way.
pub struct RandomSeed(pub StdRng);

/// What the game announces to whoever keeps its state.
#[derive(Clone, Copy, Debug, PartialEq, Eq, Structural)]
pub enum GameEvent {
    StartGame,
    GameOver,
    IncreaseScore,
}

/// Draws a whole number between `low` and `high`, both included, with
/// `rand::Rng::gen_range` on the range `low..=high`.
///
/// `gen_range` panics on an empty range, so `low` may not be above `high`.
/// It adds to `low` a number that is less than the count of values in the
/// range, so the result is in the range. Which number comes is left open, as
/// is the state of the generator afterwards.
#[verifier::external_body]
pub(crate) fn gen_range_inclusive(rng: &mut StdRng, low: u64, high: u64) -> (drawn: u64)
    requires
        low <= high,
    ensures
        low <= drawn <= high,
{
    rng.gen_range(low..=high)
}

} // verus!
