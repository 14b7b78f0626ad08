//! The perceptron with two inputs, three hidden units and one output.
use vstd::prelude::*;
use crate::field::NumericField;
use crate::matrix::{column, layer, unflatten, Matrix};

verus! {

/// The output of the network with parameters `params` on `input`.
///
/// The first nine parameters are the weights of the hidden layer, three rows
/// of two input weights and a bias weight; the last four are the weights of
/// the output unit, three hidden weights and a bias weight.
pub open spec fn network_output<N: NumericField>(params: Seq<N>, input: Seq<N>) -> N {
    let hidden = layer(unflatten(3, 3, params.subrange(0, 9)), column(input));
    let output = layer(unflatten(4, 1, params.subrange(9, 13)), hidden);
    output[0][0]
}

/// Evaluates the network. The result depends on `params` and `input` alone.
pub fn neuronal_network<N: NumericField>(params: &[N; 13], input: &[N; 2], _extra: &()) -> (r: [N; 1])
    ensures
        r@ == seq![network_output(params@, input@)],
{
    let first_layer_weights = Matrix::deserialize(3, 3, &params[0..9]);
    let second_layer_weights = Matrix::deserialize(4, 1, &params[9..13]);
    let input_column = Matrix::deserialize(1, 2, input.as_slice());
    assert(input_column@ =~~= column(input@));

    let mut hidden_layer_values = first_layer_weights * input_column.add_bias();
    hidden_layer_values.activate();

    let mut output = second_layer_weights * hidden_layer_values.add_bias();
    output.activate();

    let ghost cells = output@;
    let flat = output.serialize();
    proof {
        cells.lemma_flatten_one_element();
    }
    let r = [flat[0].duplicate()];
    assert(r@ =~= seq![network_output(params@, input@)]);
    r
}

} // verus!
