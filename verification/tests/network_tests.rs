use perceptron::field::NumericField;
use perceptron::neuronal_network::neuronal_network;
use perceptron::neuronal_network_with_reminder;

#[derive(Debug, Clone, Copy, PartialEq)]
struct Plain(f32);

impl NumericField for Plain {
    fn zero_spec() -> Self {
        Plain(0.)
    }

    fn one_spec() -> Self {
        Plain(1.)
    }

    fn add_spec(self, rhs: Self) -> Self {
        Plain(self.0 + rhs.0)
    }

    fn mul_spec(self, rhs: Self) -> Self {
        Plain(self.0 * rhs.0)
    }

    fn sigmoid_spec(self) -> Self {
        Plain(1. / (1. + (-self.0).exp()))
    }

    fn zero() -> Self {
        Self::zero_spec()
    }

    fn one() -> Self {
        Self::one_spec()
    }

    fn duplicate(&self) -> Self {
        *self
    }

    fn product(&self, rhs: &Self) -> Self {
        self.mul_spec(*rhs)
    }

    fn accumulate(&mut self, x: &Self) {
        *self = self.add_spec(*x);
    }

    fn sigmoid_on_mut(&mut self) {
        *self = self.sigmoid_spec();
    }
}

fn values<const L: usize>(flat: [f32; L]) -> [Plain; L] {
    flat.map(Plain)
}

fn logistic(x: f32) -> f32 {
    1. / (1. + (-x).exp())
}

/// Weights of the two-three-one network that computes exclusive or: the first
/// hidden unit is an or, the second an and, the third is idle.
const EXCLUSIVE_OR: [f32; 13] = [20., 20., -10., 20., 20., -30., 0., 0., 0., 20., -20., 0., -10.];

#[test]
fn fixed_network_of_zero_weights_gives_one_half() {
    let out = neuronal_network(&values([0.; 13]), &values([0.3, 0.9]), &());

    assert_eq!(out, [Plain(0.5)]);
}

#[test]
fn fixed_network_follows_its_formula() {
    let p = [0.5, -1.5, 0.25, 2., 1., -3., -0.75, 0.125, 1.5, 1.25, -2.5, 0.5, 0.375];
    let x = [0.25, 0.75];

    let hidden: Vec<f32> = (0..3)
        .map(|j| logistic(((0. + p[3 * j] * x[0]) + p[3 * j + 1] * x[1]) + p[3 * j + 2] * 1.))
        .collect();
    let expected = logistic((((0. + p[9] * hidden[0]) + p[10] * hidden[1]) + p[11] * hidden[2]) + p[12] * 1.);

    assert_eq!(neuronal_network(&values(p), &values(x), &()), [Plain(expected)]);
}

#[test]
fn fixed_network_reads_the_bias_weights() {
    let mut p = [0.; 13];
    p[12] = 2.;

    assert_eq!(neuronal_network(&values(p), &values([0., 0.]), &()), [Plain(logistic(2.))]);
}

#[test]
fn fixed_network_is_a_function_of_its_arguments() {
    let p = values(EXCLUSIVE_OR);
    let x = values([1., 0.]);

    let first = neuronal_network(&p, &x, &());
    let second = neuronal_network(&p, &x, &());

    assert_eq!(first, second);
}

#[test]
fn fixed_network_computes_exclusive_or() {
    let p = values(EXCLUSIVE_OR);

    for (input, target) in [([0., 0.], 0.), ([1., 0.], 1.), ([0., 1.], 1.), ([1., 1.], 0.)] {
        let out = neuronal_network(&p, &values(input), &())[0].0;
        assert!((out - target).abs() < 0.1, "{input:?} gave {out}");
    }
}

#[test]
fn accepts_asks_for_the_skip_weights() {
    let structure = vec![2, 3, 2, 1];

    // 3 * 3 for the first layer, (2 + 3 + 1) * 2 and (2 + 2 + 1) * 1 after it.
    assert!(neuronal_network_with_reminder::accepts(&structure, 2, 1, 26));
    // What a plain chain would take: 3 * 3, 4 * 2 and 3 * 1.
    assert!(!neuronal_network_with_reminder::accepts(&structure, 2, 1, 20));
}

#[test]
fn accepts_rejects_every_other_length() {
    let structure = vec![2, 3, 1];

    for parameters in 0..40 {
        assert_eq!(
            neuronal_network_with_reminder::accepts(&structure, 2, 1, parameters),
            parameters == 15
        );
    }
}

#[test]
fn accepts_compares_the_ends_of_the_topology() {
    let structure = vec![2, 3, 1];

    assert!(!neuronal_network_with_reminder::accepts(&structure, 3, 1, 15));
    assert!(!neuronal_network_with_reminder::accepts(&structure, 2, 2, 15));
}

#[test]
fn accepts_rejects_a_topology_without_layers_or_with_an_empty_layer() {
    assert!(!neuronal_network_with_reminder::accepts(&vec![], 0, 0, 0));
    assert!(!neuronal_network_with_reminder::accepts(&vec![2, 0, 1], 2, 1, 3));
    assert!(!neuronal_network_with_reminder::accepts(&vec![2, 3, 0], 2, 0, 9));
}

#[test]
fn accepts_takes_an_input_alone_and_an_empty_input() {
    assert!(neuronal_network_with_reminder::accepts(&vec![4], 4, 4, 0));
    assert!(neuronal_network_with_reminder::accepts(&vec![0, 2], 0, 2, 2));
}

#[test]
fn accepts_rejects_a_count_that_does_not_fit() {
    assert!(!neuronal_network_with_reminder::accepts(&vec![usize::MAX, 2], usize::MAX, 2, 0));
    assert!(!neuronal_network_with_reminder::accepts(&vec![2, usize::MAX, usize::MAX], 2, usize::MAX, 7));
}

#[test]
fn parametric_network_without_layers_gives_its_input() {
    let out: [Plain; 2] =
        neuronal_network_with_reminder::neuronal_network(&[], &values([0.25, 0.75]), &vec![2]);

    assert_eq!(out, values([0.25, 0.75]));
}

#[test]
fn parametric_network_follows_its_formula() {
    let p = [
        0.5, -1.5, 0.25, 2., 1., -3., -0.75, 0.125, 1.5, 1.25, -2.5, 0.5, 0.375, -0.625, 0.875,
    ];
    let x = [0.25, 0.75];

    let hidden: Vec<f32> = (0..3)
        .map(|j| logistic(((0. + p[3 * j] * x[0]) + p[3 * j + 1] * x[1]) + p[3 * j + 2] * 1.))
        .collect();
    let fed = [hidden[0], hidden[1], hidden[2], x[0], x[1], 1.];
    let mut sum = 0.;
    for k in 0..6 {
        sum += p[9 + k] * fed[k];
    }

    let out: [Plain; 1] =
        neuronal_network_with_reminder::neuronal_network(&values(p), &values(x), &vec![2, 3, 1]);

    assert_eq!(out, [Plain(logistic(sum))]);
}

#[test]
fn parametric_network_feeds_the_input_to_the_second_layer() {
    let mut p = [0.; 15];
    // The only weight that is not zero stands on the first input value as the
    // second layer sees it: behind the three hidden units.
    p[9 + 3] = 1.;

    for x in [0., 1., -2.] {
        let out: [Plain; 1] =
            neuronal_network_with_reminder::neuronal_network(&values(p), &values([x, 5.]), &vec![2, 3, 1]);
        assert_eq!(out, [Plain(logistic(x))]);
    }
}

#[test]
fn parametric_network_feeds_the_input_to_the_third_layer() {
    let mut p = [0.; 26];
    // Layer three reads two hidden values, the two input values and the bias.
    p[9 + 12 + 3] = 1.;

    let out: [Plain; 1] = neuronal_network_with_reminder::neuronal_network(
        &values(p),
        &values([7., -3.]),
        &vec![2, 3, 2, 1],
    );

    assert_eq!(out, [Plain(logistic(-3.))]);
}

#[test]
fn parametric_network_gives_every_output() {
    let mut p = [0.; 9];
    p[2] = 1.;
    p[5] = 2.;
    p[8] = 3.;

    let out: [Plain; 3] =
        neuronal_network_with_reminder::neuronal_network(&values(p), &values([0., 0.]), &vec![2, 3]);

    assert_eq!(out, values([logistic(1.), logistic(2.), logistic(3.)]));
}

#[test]
fn parametric_network_computes_exclusive_or() {
    let p = values([20., 20., -10., 20., 20., -30., 0., 0., 0., 20., -20., 0., 0., 0., -10.]);

    for (input, target) in [([0., 0.], 0.), ([1., 0.], 1.), ([0., 1.], 1.), ([1., 1.], 0.)] {
        let out: [Plain; 1] =
            neuronal_network_with_reminder::neuronal_network(&p, &values(input), &vec![2, 3, 1]);
        assert!((out[0].0 - target).abs() < 0.1, "{input:?} gave {}", out[0].0);
    }
}
