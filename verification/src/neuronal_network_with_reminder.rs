//! The perceptron of any depth in which every layer after the first also
//! receives the network's input.
use vstd::prelude::*;
use crate::field::NumericField;
use crate::matrix::{column, layer, lemma_flatten_index, unflatten, Matrix};

verus! {

/// The number of values that layer `i` reads: what the layer before it left,
/// the network's input again for every layer after the first, and the bias.
pub open spec fn layer_inputs(structure: Seq<usize>, i: int) -> int {
    if i == 0 {
        structure[0] + 1
    } else {
        structure[0] + structure[i] + 1
    }
}

/// The number of weights of layer `i`: one row of `layer_inputs` weights for
/// each of its units.
pub open spec fn layer_size(structure: Seq<usize>, i: int) -> int {
    layer_inputs(structure, i) * structure[i + 1]
}

/// The number of weights of the first `layers` layers.
pub open spec fn parameters_before(structure: Seq<usize>, layers: nat) -> int
    decreases layers,
{
    if layers == 0 {
        0
    } else {
        parameters_before(structure, (layers - 1) as nat) + layer_size(structure, layers - 1)
    }
}

/// The number of weights of the whole network.
pub open spec fn parameter_count(structure: Seq<usize>) -> int {
    parameters_before(structure, (structure.len() - 1) as nat)
}

/// A topology that can be evaluated: it names at least the input width, and
/// every layer after the input has a unit.
pub open spec fn well_shaped(structure: Seq<usize>) -> bool {
    &&& structure.len() >= 1
    &&& forall|i: int| 1 <= i < structure.len() ==> #[trigger] structure[i] >= 1
}

/// Whether the evaluator takes `parameters` weights and `inputs` values for
/// `structure`, and gives `outputs` values.
pub open spec fn is_accepted(structure: Seq<usize>, inputs: nat, outputs: nat, parameters: nat) -> bool {
    &&& well_shaped(structure)
    &&& structure[0] == inputs
    &&& structure.last() == outputs
    &&& parameter_count(structure) == parameters
}

/// The weights of layer `i`, one row per unit, cut out of `params` behind the
/// weights of the layers before it.
pub open spec fn layer_weights<N: NumericField>(params: Seq<N>, structure: Seq<usize>, i: int) -> Seq<Seq<N>> {
    let start = parameters_before(structure, i as nat);
    unflatten(
        layer_inputs(structure, i) as nat,
        structure[i + 1] as nat,
        params.subrange(start, start + layer_size(structure, i)),
    )
}

/// The column that stands after `layers` layers: what the last of them
/// computed, and below it the network's input again.
pub open spec fn propagated<N: NumericField>(
    params: Seq<N>,
    input: Seq<N>,
    structure: Seq<usize>,
    layers: nat,
) -> Seq<Seq<N>>
    decreases layers,
{
    if layers == 0 {
        column(input)
    } else {
        let before = propagated(params, input, structure, (layers - 1) as nat);
        layer(layer_weights(params, structure, layers - 1), before) + column(input)
    }
}

/// The values that the last layer computes.
pub open spec fn network_output<N: NumericField>(params: Seq<N>, input: Seq<N>, structure: Seq<usize>) -> Seq<N> {
    propagated(params, input, structure, (structure.len() - 1) as nat).flatten().subrange(
        0,
        structure.last() as int,
    )
}

/// The weights of the first `k` layers are among those of the first `n`.
pub proof fn lemma_parameters_before_monotonic(structure: Seq<usize>, k: nat, n: nat)
    requires
        k <= n,
    ensures
        0 <= parameters_before(structure, k) <= parameters_before(structure, n),
    decreases n,
{
    if n == 0 {
    } else if k == n {
        lemma_parameters_before_monotonic(structure, 0, (n - 1) as nat);
        lemma_layer_size_bounds(structure, n - 1);
    } else {
        lemma_parameters_before_monotonic(structure, k, (n - 1) as nat);
        lemma_layer_size_bounds(structure, n - 1);
    }
}

/// A layer has no fewer weights than it has inputs, if it has a unit at all.
pub proof fn lemma_layer_size_bounds(structure: Seq<usize>, i: int)
    ensures
        0 <= layer_size(structure, i),
        structure[i + 1] >= 1 ==> layer_inputs(structure, i) <= layer_size(structure, i),
{
    let a = layer_inputs(structure, i);
    let b = structure[i + 1] as int;
    assert(0 <= a * b) by (nonlinear_arith)
        requires
            0 <= a,
            0 <= b,
    ;
    if b >= 1 {
        assert(a <= a * b) by (nonlinear_arith)
            requires
                0 <= a,
                1 <= b,
        ;
    }
}

/// The column after `layers` layers has one cell per row; it is as high as
/// the input before the first layer, and as high as the layer's width and
/// the input together after it.
pub proof fn lemma_propagation_shape<N: NumericField>(
    params: Seq<N>,
    input: Seq<N>,
    structure: Seq<usize>,
    layers: nat,
)
    requires
        layers < structure.len(),
    ensures
        propagated(params, input, structure, layers).len() == if layers == 0 {
            input.len() as int
        } else {
            structure[layers as int] + input.len()
        },
        forall|y: int| 0 <= y < propagated(params, input, structure, layers).len()
            ==> (#[trigger] propagated(params, input, structure, layers)[y]).len() == 1,
    decreases layers,
{
    if layers > 0 {
        lemma_propagation_shape(params, input, structure, (layers - 1) as nat);
        let before = propagated(params, input, structure, (layers - 1) as nat);
        let fed = before.push(seq![N::one_spec()]);
        assert(fed[0].len() == 1);
    }
}

/// The matrix that layer `i` multiplies its weights with, for a layer after
/// the first, is as high as the layer before it is wide, plus the network's
/// input, plus the bias row.
pub proof fn lemma_layer_input_height<N: NumericField>(
    params: Seq<N>,
    input: Seq<N>,
    structure: Seq<usize>,
    i: nat,
)
    requires
        1 <= i < structure.len(),
        input.len() == structure[0],
    ensures
        propagated(params, input, structure, i).push(seq![N::one_spec()]).len() == structure[i as int]
            + structure[0] + 1,
{
    lemma_propagation_shape(params, input, structure, i);
}

/// Tells whether `neuronal_network` takes `parameters` weights and `inputs`
/// values for `structure` and gives `outputs` values.
pub fn accepts(structure: &Vec<usize>, inputs: usize, outputs: usize, parameters: usize) -> (ok: bool)
    ensures
        ok == is_accepted(structure@, inputs as nat, outputs as nat, parameters as nat),
{
    let layers = structure.len();
    if layers == 0 || structure[0] != inputs || structure[layers - 1] != outputs {
        return false;
    }
    let mut count: usize = 0;
    for i in 0..(layers - 1)
        invariant
            layers == structure@.len(),
            layers >= 1,
            count == parameters_before(structure@, i as nat),
            count <= parameters,
            forall|k: int| 1 <= k <= i ==> #[trigger] structure@[k] >= 1,
    {
        proof {
            lemma_layer_size_bounds(structure@, i as int);
            if structure@[i + 1] == 0 {
                assert(!well_shaped(structure@));
            } else {
                lemma_parameters_before_monotonic(structure@, (i + 1) as nat, (layers - 1) as nat);
            }
        }
        if structure[i + 1] == 0 {
            return false;
        }
        let width = if i == 0 {
            structure[0].checked_add(1)
        } else {
            match structure[0].checked_add(structure[i]) {
                Some(sum) => sum.checked_add(1),
                None => None,
            }
        };
        let size = match width {
            Some(width) => width.checked_mul(structure[i + 1]),
            None => None,
        };
        let total = match size {
            Some(size) => count.checked_add(size),
            None => None,
        };
        match total {
            Some(total) if total <= parameters => {
                count = total;
            },
            _ => {
                return false;
            },
        }
    }
    count == parameters
}

/// `TryFrom<Vec<T>>` for an array, from std: the conversion succeeds exactly
/// when the vector has as many items as the array, and then the array holds
/// the vector's items in their order. Otherwise the vector comes back.
#[verifier::external_body]
fn array_of<T, const O: usize>(values: Vec<T>) -> (r: Result<[T; O], Vec<T>>)
    ensures
        (match r {
            Ok(array) => values@.len() == O && array@ == values@,
            Err(rest) => values@.len() != O && rest == values,
        }),
{
    <[T; O]>::try_from(values)
}

/// Evaluates the network of topology `structure`. The result depends on
/// `params`, `input` and `structure` alone.
pub fn neuronal_network<const I: usize, const O: usize, const P: usize, N: NumericField>(
    params: &[N; P],
    input: &[N; I],
    structure: &Vec<usize>,
) -> (r: [N; O])
    requires
        is_accepted(structure@, I as nat, O as nat, P as nat),
    ensures
        r@ == network_output(params@, input@, structure@),
{
    let layers = structure.len() - 1;
    let mut propagation = Matrix::deserialize(1, structure[0], input.as_slice());
    assert(propagation@ =~~= column(input@));
    let mut parameter_cursor: usize = 0;

    for i in 0..layers
        invariant
            is_accepted(structure@, I as nat, O as nat, P as nat),
            layers == structure@.len() - 1,
            parameter_cursor == parameters_before(structure@, i as nat),
            propagation@ == propagated(params@, input@, structure@, i as nat),
    {
        proof {
            lemma_layer_size_bounds(structure@, i as int);
            lemma_parameters_before_monotonic(structure@, (i + 1) as nat, layers as nat);
            lemma_parameters_before_monotonic(structure@, i as nat, (i + 1) as nat);
            lemma_propagation_shape(params@, input@, structure@, i as nat);
        }
        let width = if i == 0 {
            structure[0] + 1
        } else {
            structure[0] + structure[i] + 1
        };
        let layer_size = width * structure[i + 1];
        let layer_weights = Matrix::deserialize(
            width,
            structure[i + 1],
            &params[parameter_cursor..(parameter_cursor + layer_size)],
        );
        parameter_cursor += layer_size;
        let fed = propagation.add_bias();
        assert(fed@[0].len() == 1);
        propagation = layer_weights * fed;
        propagation.activate();
        propagation = propagation.add_reminder(input);
    }

    let ghost last = propagation@;
    let vec_out = propagation.serialize();
    proof {
        lemma_propagation_shape(params@, input@, structure@, layers as nat);
        lemma_flatten_index(last, 1);
    }
    let mut head: Vec<N> = Vec::new();
    for i in 0..O
        invariant
            vec_out@.len() >= O,
            head@ == vec_out@.subrange(0, i as int),
    {
        head.push(vec_out[i].duplicate());
        assert(head@ =~= vec_out@.subrange(0, i + 1));
    }
    match array_of(head) {
        Ok(r) => r,
        Err(_) => vstd::pervasive::unreached(),
    }
}

} // verus!
