use synacor::coins::{solve_coin_puzzle, Coin};

#[test]
fn coin_puzzle_solution() {
    let order = solve_coin_puzzle();
    assert_eq!(order, vec![Coin::Blue, Coin::Red, Coin::Shiny, Coin::Concave, Coin::Corroded]);
    let v: Vec<u64> = order.iter().map(|c| c.value()).collect();
    assert_eq!(v[0] + v[1] * v[2] * v[2] + v[3] * v[3] * v[3] - v[4], 399);
}

#[test]
fn coin_values() {
    assert_eq!(Coin::Red.value(), 2);
    assert_eq!(Coin::Corroded.value(), 3);
    assert_eq!(Coin::Shiny.value(), 5);
    assert_eq!(Coin::Concave.value(), 7);
    assert_eq!(Coin::Blue.value(), 9);
    assert_eq!(Coin::from_value(7), Some(Coin::Concave));
    assert_eq!(Coin::from_value(4), None);
}
