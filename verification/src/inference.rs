//! The input that the inference of the first tree search is given: each
//! search state encoded as four channels of the 64 squares. The values are
//! the integers of the encoding; the model reads them as floats.
use crate::environment::{board_value, lemma_split_index, push_board_values};
use crate::state::State;
use vstd::prelude::*;

verus! {

/// Builds the input of a batch of states, a `[B, 4, 8, 8]` tensor laid out
/// flat: for each state in turn, its dark disks, its light disks, its player
/// to move (1 for dark, -1 for light) and the squares that player can put a
/// disk on (see [`board_value`]).
pub fn build_input_tensor(states: &[State]) -> (res: Vec<i8>)
    requires
        states@.len() * 256 <= usize::MAX,
    ensures
        res@.len() == states@.len() * 256,
        forall|j: int|
            0 <= j < res@.len() ==> #[trigger] res@[j] == board_value(
                states@[j / 256].board_of(),
                states@[j / 256].turn_of(),
                j % 256,
            ),
{
    let mut input_data: Vec<i8> = Vec::new();
    let mut b: usize = 0;
    while b < states.len()
        invariant
            b <= states@.len(),
            states@.len() * 256 <= usize::MAX,
            input_data@.len() == b * 256,
            forall|j: int|
                0 <= j < input_data@.len() ==> #[trigger] input_data@[j] == board_value(
                    states@[j / 256].board_of(),
                    states@[j / 256].turn_of(),
                    j % 256,
                ),
        decreases states@.len() - b,
    {
        let state = &states[b];
        let ghost before = input_data@;
        push_board_values(&mut input_data, state.board(), state.turn());
        proof {
            assert forall|j: int| 0 <= j < input_data@.len() implies #[trigger] input_data@[j]
                == board_value(states@[j / 256].board_of(), states@[j / 256].turn_of(), j % 256) by {
                if j >= before.len() {
                    let c = j - before.len();
                    lemma_split_index(b as int, c, 256);
                    assert(input_data@[before.len() + c] == board_value(
                        state.board_of(),
                        state.turn_of(),
                        c,
                    ));
                } else {
                    assert(input_data@[j] == before[j]);
                }
            }
        }
        b = b + 1;
    }
    input_data
}

} // verus!
