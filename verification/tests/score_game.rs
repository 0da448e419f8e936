use shivarthu::score_game::{calculate_new_mean, mean_integer, std_deviation_interger};

#[test]
fn check_standard_deviation() {
    let data_initial = vec![-10, 1, 1, 1, 5, 1, 1, 7];
    let data_integer = data_initial.into_iter().map(|x| x * 1000).collect::<Vec<i64>>();
    let data_mean_integer = mean_integer(&data_integer);
    assert_eq!(Some(875), data_mean_integer);

    let data_std_deviation_integer = std_deviation_interger(&data_integer);
    assert_eq!(Some(4648), data_std_deviation_integer);

    let new_mean_integer =
        calculate_new_mean(&data_integer, data_mean_integer, data_std_deviation_integer);
    assert_eq!(Some(1666), new_mean_integer)
}

#[test]
fn score_statistics_edge_cases() {
    assert_eq!(mean_integer(&vec![]), None);
    assert_eq!(std_deviation_interger(&vec![]), None);
    assert_eq!(calculate_new_mean(&vec![], None, None), None);
    // The mean rounds toward zero.
    assert_eq!(mean_integer(&vec![-7, 0]), Some(-3));
    assert_eq!(mean_integer(&vec![7, 0]), Some(3));
    // A perfect square variance gives its exact root.
    assert_eq!(std_deviation_interger(&vec![2, 4, 4, 4, 5, 5, 7, 9]), Some(2));
    assert_eq!(std_deviation_interger(&vec![5]), Some(0));
    // Nothing within the band: no mean.
    assert_eq!(calculate_new_mean(&vec![1, 100], Some(50), Some(1)), None);
}
