use spiking_lobe::{Amount, Lobe, LobeError, NeuralObject};

fn n(x: i32) -> Amount {
    Amount::from_num(x)
}

fn amounts(xs: &[i32]) -> Vec<Amount> {
    xs.iter().map(|x| n(*x)).collect()
}

fn single_link_lobe() -> Lobe {
    // thresholds [0], weights [0, 1, 0], strengths [1], falloff 0
    let params = amounts(&[0, 0, 1, 0, 1, 0]);
    Lobe::from_parameters((1, 1), &params).unwrap()
}

#[test]
fn single_link_scenario() {
    let mut lobe = single_link_lobe();
    lobe.apply_input(&[n(5)]);
    lobe.tick(n(1));
    assert_eq!(lobe.get_output(), &[n(5)][..]);
    assert_eq!(lobe.value_column_ref(0), &[n(0)][..]);
}

#[test]
fn amount_arithmetic_exact() {
    assert_eq!(n(2).times(n(3)), n(6));
    assert_eq!(n(-2).times(n(3)), n(-6));
    assert_eq!(n(7).plus(n(-3)), n(4));
    assert_eq!(n(7).minus(n(10)), n(-3));
    // one half times one half is one quarter
    let half = Amount::from_bits(1 << 31);
    assert_eq!(half.times(half).to_bits(), 1 << 30);
    // products round toward negative infinity
    let tiny = Amount::from_bits(-1);
    assert_eq!(tiny.times(half).to_bits(), -1);
    assert_eq!(Amount::from_bits(1).times(half).to_bits(), 0);
    // sums saturate
    assert_eq!(Amount::from_bits(i64::MAX).plus(n(1)).to_bits(), i64::MAX);
    assert_eq!(Amount::from_bits(i64::MIN).minus(n(1)).to_bits(), i64::MIN);
    assert_eq!(Amount::from_bits(i64::MAX).times(n(2)).to_bits(), i64::MAX);
    assert!(n(1).is_less(n(2)));
    assert!(!n(2).is_less(n(2)));
}

#[test]
fn new_lobe_is_inert() {
    let lobe = Lobe::new(3, 2, n(1));
    assert_eq!(lobe.get_dims(), (2, 3));
    assert_eq!(lobe.input_size(), 3);
    let params = lobe.all_parameters_owned();
    assert_eq!(params.len(), 3 * 2 * 5 + 1);
    assert!(params[..30].iter().all(|a| *a == n(0)));
    assert_eq!(params[30], n(1));
    assert_eq!(lobe.values_chunked().len(), 3);
    assert!(lobe.values_chunked().iter().all(|c| c.iter().all(|a| *a == n(0))));
}

#[test]
fn zero_weights_only_reset() {
    // breadth 2, width 1: thresholds [3, 10], weights 0, strengths [1, 1], falloff 0
    let params = amounts(&[3, 10, 0, 0, 0, 0, 0, 0, 1, 1, 0]);
    let mut lobe = Lobe::from_parameters((1, 2), &params).unwrap();
    lobe.apply_input(&[n(4), n(6)]);
    lobe.value_column_mut(1).copy_from_slice(&[n(7), n(8)]);
    lobe.tick(n(2));
    assert_eq!(lobe.value_column_ref(0), &[n(0), n(6)][..]);
    assert_eq!(lobe.get_output(), &[n(7), n(8)][..]);
}

#[test]
fn below_threshold_sends_nothing() {
    // thresholds [10], every weight and strength large
    let params = amounts(&[10, 5, 5, 5, 5, 0]);
    let mut lobe = Lobe::from_parameters((1, 1), &params).unwrap();
    lobe.apply_input(&[n(9)]);
    lobe.tick(n(1));
    assert_eq!(lobe.get_output(), &[n(0)][..]);
    assert_eq!(lobe.value_column_ref(0), &[n(9)][..]);
}

#[test]
fn fired_neuron_restarts_with_delivery() {
    // breadth 1, width 2: column 1 gets 2 * 1 * 1 * 1 from column 0 while it fires itself
    let params = amounts(&[0, 0, 0, 1, 0, 0, 1, 0, 1, 1, 0]);
    let mut lobe = Lobe::from_parameters((2, 1), &params).unwrap();
    lobe.value_column_mut(1).copy_from_slice(&[n(3)]);
    lobe.apply_input(&[n(2)]);
    lobe.tick(n(1));
    assert_eq!(lobe.value_column_ref(0), &[n(0)][..]);
    assert_eq!(lobe.value_column_ref(1), &[n(2)][..]);
    assert_eq!(lobe.get_output(), &[n(3)][..]);
}

#[test]
fn falloff_decays_every_column() {
    // threshold 100 keeps the input from firing; falloff one half, duration 1
    let mut params = amounts(&[100, 0, 0, 0, 1]);
    params.push(Amount::from_bits(1 << 31));
    let mut lobe = Lobe::from_parameters((1, 1), &params).unwrap();
    lobe.apply_input(&[n(8)]);
    lobe.value_column_mut(1).copy_from_slice(&[n(6)]);
    lobe.tick(n(1));
    assert_eq!(lobe.value_column_ref(0), &[n(4)][..]);
    assert_eq!(lobe.get_output(), &[n(3)][..]);
}

#[test]
fn zero_duration_only_resets() {
    let params = amounts(&[0, 0, 1, 0, 1, 1]);
    let mut lobe = Lobe::from_parameters((1, 1), &params).unwrap();
    lobe.apply_input(&[n(5)]);
    lobe.value_column_mut(1).copy_from_slice(&[n(2)]);
    lobe.tick(n(0));
    assert_eq!(lobe.value_column_ref(0), &[n(0)][..]);
    assert_eq!(lobe.get_output(), &[n(2)][..]);
}

#[test]
fn banded_links_reach_neighbours_only() {
    // breadth 4, width 1; neuron 1 fires with weights [1, 2, 3] toward 0, 1, 2
    let mut params = amounts(&[100, 0, 100, 100]);
    params.extend(amounts(&[0, 0, 0, 1, 2, 3, 0, 0, 0, 0, 0, 0]));
    params.extend(amounts(&[1, 1, 1, 1, 0]));
    let mut lobe = Lobe::from_parameters((1, 4), &params).unwrap();
    lobe.apply_input(&[n(0), n(1), n(0), n(0)]);
    lobe.tick(n(1));
    assert_eq!(lobe.get_output(), &[n(1), n(2), n(3), n(0)][..]);
}

#[test]
fn edge_neuron_links_are_clipped() {
    // breadth 2, width 1; neuron 0 links down (dropped), same and up
    let mut params = amounts(&[0, 100]);
    params.extend(amounts(&[7, 1, 2, 0, 0, 0]));
    params.extend(amounts(&[1, 1, 0]));
    let mut lobe = Lobe::from_parameters((1, 2), &params).unwrap();
    lobe.apply_input(&[n(1), n(0)]);
    lobe.tick(n(1));
    assert_eq!(lobe.get_output(), &[n(1), n(2)][..]);
}

#[test]
fn parameters_round_trip() {
    let params: Vec<Amount> = (0..21).map(|x| n(x - 10)).collect();
    let mut lobe = Lobe::from_parameters((2, 2), &params).unwrap();
    lobe.apply_input(&[n(3), n(4)]);
    lobe.tick(n(1));
    let again = Lobe::from_parameters(lobe.get_dims(), &lobe.all_parameters_owned()).unwrap();
    assert_eq!(again.all_parameters_owned(), params);
    assert_eq!(again.get_dims(), (2, 2));
    for column in again.values_chunked() {
        assert!(column.iter().all(|a| *a == n(0)));
    }
}

#[test]
fn from_parameters_rejects_wrong_length() {
    let params = amounts(&[0, 0, 0]);
    match Lobe::from_parameters((1, 1), &params) {
        Err(e) => assert_eq!(e, LobeError::ShapeMismatch { expected: 6, actual: 3 }),
        Ok(_) => panic!("a short buffer was accepted"),
    }
}

#[test]
fn from_parameters_rejects_oversized_dims() {
    let params = amounts(&[0]);
    match Lobe::from_parameters((usize::MAX, 2), &params) {
        Err(e) => assert_eq!(e, LobeError::TooLarge),
        Ok(_) => panic!("impossible dimensions were accepted"),
    }
}

#[test]
fn empty_lobe_round_trip() {
    let lobe = Lobe::from_parameters((0, 3), &[n(2)]).unwrap();
    assert_eq!(lobe.get_output(), &[n(0), n(0), n(0)][..]);
    assert_eq!(lobe.all_parameters_owned(), vec![n(2)]);
}

#[test]
fn column_views_follow_layout() {
    let params: Vec<Amount> = (0..21).map(n).collect();
    let lobe = Lobe::from_parameters((2, 2), &params).unwrap();
    assert_eq!(lobe.threshold_column_ref(1), &[n(2), n(3)][..]);
    assert_eq!(lobe.weight_column_ref(1), &amounts(&[10, 11, 12, 13, 14, 15])[..]);
    assert_eq!(lobe.strength_column_ref(0), &[n(16), n(17)][..]);
    let chunks = lobe.weight_column_chunks(0);
    assert_eq!(chunks.len(), 2);
    assert_eq!(chunks[1], &[n(7), n(8), n(9)][..]);
    assert_eq!(lobe.strengths_chunked()[1], &[n(18), n(19)][..]);
    assert_eq!(lobe.thresholds_chunked()[0], &[n(0), n(1)][..]);
}

#[test]
fn mutable_views_write_in_place() {
    let mut lobe = Lobe::new(2, 1, n(0));
    lobe.threshold_column_mut(0)[1] = n(4);
    lobe.weight_column_mut(0)[5] = n(6);
    lobe.strength_column_mut(0)[0] = n(2);
    {
        let mut slices = lobe.all_parameters_slices();
        assert_eq!(slices.len(), 4);
        slices[3][0] = n(9);
    }
    assert_eq!(
        lobe.all_parameters_owned(),
        amounts(&[0, 4, 0, 0, 0, 0, 0, 6, 2, 0, 9])
    );
}

#[test]
fn neural_object_interface() {
    let mut lobe = single_link_lobe();
    let unit: &mut dyn NeuralObject = &mut lobe;
    assert_eq!(unit.input_size(), 1);
    unit.apply_input(&[n(2)]);
    unit.apply_input(&[n(3)]);
    unit.reward(n(1));
    unit.tick(n(1));
    assert_eq!(unit.get_output(), &[n(5)][..]);
}

#[test]
fn value_columns_written_through_views() {
    let mut lobe = Lobe::new(2, 1, n(0));
    {
        let mut columns = lobe.values_chunked_mut();
        assert_eq!(columns.len(), 2);
        columns[0][1] = n(3);
        columns[1][0] = n(4);
    }
    assert_eq!(lobe.value_column_ref(0), &[n(0), n(3)][..]);
    assert_eq!(lobe.get_output(), &[n(4), n(0)][..]);
}

#[test]
fn reward_leaves_lobe_unchanged() {
    let mut lobe = single_link_lobe();
    lobe.apply_input(&[n(2)]);
    let before = lobe.all_parameters_owned();
    lobe.reward(n(7));
    assert_eq!(lobe.all_parameters_owned(), before);
    assert_eq!(lobe.value_column_ref(0), &[n(2)][..]);
    assert_eq!(lobe.get_output(), &[n(0)][..]);
}

#[test]
fn value_columns_of_empty_breadth() {
    let mut lobe = Lobe::new(0, 2, n(0));
    let columns = lobe.values_chunked_mut();
    assert_eq!(columns.len(), 3);
    assert!(columns.iter().all(|c| c.is_empty()));
}
