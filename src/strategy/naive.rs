//! Naive strategies, mainly for testing purposes.
use vstd::prelude::*;

use crate::game::{Bowl, Position};
use crate::strategy::Strategy;
use rand::rngs::ThreadRng;
use rand::seq::SliceRandom;

verus! {

#[verifier::external_type_specification]
#[verifier::external_body]
pub struct ExThreadRng(ThreadRng);

/// Relies on rand's `SliceRandom::choose`: nothing for an empty slice, otherwise a copy of
/// one of its elements.
#[verifier::external_body]
fn choose_from(options: &Vec<Bowl>, rng: &mut ThreadRng) -> (r: Option<Bowl>)
    ensures
        options@.len() == 0 <==> r is None,
        r matches Some(b) ==> options@.contains(b),
{
    options.choose(rng).cloned()
}

/// Pick the first option.
pub struct First {}

impl First {
    /// Create a first strategy
    pub fn new() -> (r: First) {
        First {}
    }
}

impl Default for First {
    fn default() -> (r: First) {
        First::new()
    }
}

impl Strategy for First {
    fn play(&mut self, position: &Position) -> (r: Option<Bowl>)
        ensures
            position@.options().len() == 0 ==> r is None,
            position@.options().len() > 0 ==> r == Some(position@.options()[0] as usize),
    {
        proof {
            position@.lemma_options_below(position@.size as int);
        }
        let options = position.options();
        assert(options@.len() == position@.options().len());
        if options.len() > 0 {
            assert(options@[0] as int == position@.options()[0]);
            Some(options[0])
        } else {
            None
        }
    }
}

/// Pick a random option.
pub struct Random {
    rng: ThreadRng,
}

impl Random {
    /// Create a Random strategy
    pub fn new(rng: ThreadRng) -> (r: Random) {
        Random { rng }
    }
}

impl Strategy for Random {
    fn play(&mut self, position: &Position) -> (r: Option<Bowl>)
        ensures
            r is None <==> position@.options().len() == 0,
            r matches Some(b) ==> position@.options().contains(b as int),
    {
        proof {
            position@.lemma_options_below(position@.size as int);
        }
        let options = position.options();
        assert(options@.len() == position@.options().len());
        let r = choose_from(&options, &mut self.rng);
        proof {
            if let Some(b) = r {
                let i = choose|i: int| 0 <= i < options@.len() && options@[i] == b;
                assert(position@.options()[i] == b as int);
            }
        }
        r
    }
}

} // verus!
