//! The session state: the current tax rate. A session starts at one of the
//! tax brackets, picked at random.

use rand::rngs::ThreadRng;
use rand::Rng;
use vstd::prelude::*;
use crate::decimal::Decimal;
use crate::numeral::natural_text;

verus! {

/// The tax brackets, in percent: the rates at which a session may start.
pub const TAX_BRACKETS: [u64; 7] = [10, 12, 22, 24, 32, 35, 37];

/// The thread-local random number generator of `rand`.
#[verifier::external_type_specification]
#[verifier::external_body]
pub struct ExThreadRng(ThreadRng);

/// `rand::thread_rng` hands out the generator of the current thread. Nothing
/// is claimed of it.
pub assume_specification[ rand::thread_rng ]() -> (rng: ThreadRng)
;

/// `Rng::gen_range` on `0..len`: some index below `len`. The call panics on
/// an empty range, so `len` must not be zero.
#[verifier::external_body]
fn random_index(rng: &mut ThreadRng, len: usize) -> (index: usize)
    requires
        len > 0,
    ensures
        index < len,
{
    rng.gen_range(0..len)
}

/// The state of one session.
#[derive(Debug, PartialEq, Eq)]
pub struct GameState {
    tax_rate: Decimal,
}

/// The session state, as contracts see it: the canonical text of the rate.
pub struct GameStateView {
    pub tax_rate: Seq<char>,
}

impl View for GameState {
    type V = GameStateView;

    closed spec fn view(&self) -> GameStateView {
        GameStateView { tax_rate: self.tax_rate@ }
    }
}

/// Whether `text` is the text of one of the tax brackets.
pub open spec fn is_bracket(text: Seq<char>) -> bool {
    exists|i: int| 0 <= i < TAX_BRACKETS@.len() && text == natural_text(#[trigger] TAX_BRACKETS@[i] as nat)
}

impl GameState {
    /// A session whose tax rate is `tax_rate`.
    pub fn new(tax_rate: Decimal) -> (state: GameState)
        ensures
            state@.tax_rate == tax_rate@,
    {
        GameState { tax_rate }
    }

    /// A session that starts at the bracket at `index`.
    pub fn with_bracket(index: usize) -> (state: GameState)
        requires
            index < TAX_BRACKETS@.len(),
        ensures
            state@.tax_rate == natural_text(TAX_BRACKETS@[index as int] as nat),
    {
        GameState { tax_rate: Decimal::from_natural(TAX_BRACKETS[index]) }
    }

    /// The current tax rate.
    pub fn tax_rate(&self) -> (rate: &Decimal)
        ensures
            rate@ == self@.tax_rate,
    {
        &self.tax_rate
    }

    /// Makes `rate` the current tax rate.
    pub fn set_tax_rate(&mut self, rate: Decimal)
        ensures
            final(self)@.tax_rate == rate@,
        no_unwind
    {
        self.tax_rate = rate;
    }
}

impl Default for GameState {
    /// A session that starts at a bracket picked at random.
    fn default() -> (state: GameState)
        ensures
            is_bracket(state@.tax_rate),
    {
        let mut rng = rand::thread_rng();
        let index = random_index(&mut rng, TAX_BRACKETS.len());
        GameState::with_bracket(index)
    }
}

} // verus!
