//! The coin puzzle: order five coins so that
//! `a + b * c^2 + d^3 - e == 399` holds of their values.
use vstd::prelude::*;
use itertools::Itertools;
use vstd::multiset::Multiset;

verus! {

broadcast use vstd::seq_lib::group_to_multiset_ensures;

/// A coin; its value is the number of dots on it.
#[derive(Debug, Clone, Copy, PartialEq, Eq, Structural)]
pub enum Coin {
    Red,
    Corroded,
    Shiny,
    Concave,
    Blue,
}

impl Coin {
    pub open spec fn spec_value(self) -> u64 {
        match self {
            Coin::Red => 2,
            Coin::Corroded => 3,
            Coin::Shiny => 5,
            Coin::Concave => 7,
            Coin::Blue => 9,
        }
    }

    /// The coin's value.
    pub fn value(&self) -> (r: u64)
        ensures
            r == self.spec_value(),
    {
        match self {
            Coin::Red => 2,
            Coin::Corroded => 3,
            Coin::Shiny => 5,
            Coin::Concave => 7,
            Coin::Blue => 9,
        }
    }

    /// The coin with value `v`, if there is one.
    pub fn from_value(v: u64) -> (r: Option<Coin>)
        ensures
            r is Some ==> r->Some_0.spec_value() == v,
            r is None <==> !coin_values().contains(v),
    {
        assert(coin_values()[0] == 2 && coin_values()[1] == 3 && coin_values()[2] == 5
            && coin_values()[3] == 7 && coin_values()[4] == 9);
        if v == 2 {
            Some(Coin::Red)
        } else if v == 3 {
            Some(Coin::Corroded)
        } else if v == 5 {
            Some(Coin::Shiny)
        } else if v == 7 {
            Some(Coin::Concave)
        } else if v == 9 {
            Some(Coin::Blue)
        } else {
            None
        }
    }
}

/// The values of the five coins.
pub open spec fn coin_values() -> Seq<u64> {
    seq![2u64, 3u64, 5u64, 7u64, 9u64]
}

/// `p` holds the same items as `items`, each as often, in some order.
pub open spec fn is_arrangement(p: Seq<u64>, items: Seq<u64>) -> bool {
    p.to_multiset() == items.to_multiset()
}

/// The values `p`, in order, satisfy the puzzle's equation.
pub open spec fn solves(p: Seq<u64>) -> bool {
    p.len() == 5 && p[0] + p[1] * p[2] * p[2] + p[3] * p[3] * p[3] - p[4] == 399
}

/// The values of `coins`, in order.
pub open spec fn values_of(coins: Seq<Coin>) -> Seq<u64> {
    coins.map_values(|c: Coin| c.spec_value())
}

/// Relies on itertools' `permutations`: with `k` equal to the number of
/// items it yields every ordering of the items by position, so each result
/// holds the items in some order and every such ordering is among them.
#[verifier::external_body]
fn permutations_of(items: &Vec<u64>) -> (r: Vec<Vec<u64>>)
    ensures
        forall|i: int| 0 <= i < r@.len() ==> is_arrangement(#[trigger] r@[i]@, items@),
        forall|p: Seq<u64>|
            is_arrangement(p, items@) ==> exists|i: int| 0 <= i < r@.len() && #[trigger] r@[i]@ == p,
{
    items.iter().copied().permutations(items.len()).collect()
}

/// Whether the values `p` satisfy the equation.
fn check_order(p: &Vec<u64>) -> (r: bool)
    requires
        forall|i: int| 0 <= i < p@.len() ==> #[trigger] p@[i] <= 9,
    ensures
        r == solves(p@),
{
    if p.len() != 5 {
        return false;
    }
    let (a, b, c, d, e) = (p[0], p[1], p[2], p[3], p[4]);
    assert(b * c <= 81 && b * c * c <= 729 && d * d <= 81 && d * d * d <= 729) by (nonlinear_arith)
        requires
            b <= 9,
            c <= 9,
            d <= 9,
    ;
    a + b * c * c + d * d * d == 399 + e
}

/// Value combinations that satisfy the equation, with each value one of
/// the coins' values.
proof fn lemma_equation_cases(a: u64, b: u64, c: u64, d: u64, e: u64)
    requires
        coin_values().contains(a),
        coin_values().contains(b),
        coin_values().contains(c),
        coin_values().contains(d),
        coin_values().contains(e),
        a + b * c * c + d * d * d - e == 399,
    ensures
        (a, b, c, d, e) == (9u64, 2u64, 5u64, 7u64, 3u64) || (a, b, c, d, e) == (
            2u64,
            7u64,
            3u64,
            7u64,
            9u64,
        ),
{
    let vs = coin_values();
    assert(forall|x: u64| vs.contains(x) ==> x == 2 || x == 3 || x == 5 || x == 7 || x == 9) by {
        assert forall|x: u64| vs.contains(x) implies x == 2 || x == 3 || x == 5 || x == 7 || x
            == 9 by {
            let k = choose|k: int| 0 <= k < vs.len() && vs[k] == x;
        }
    }
    assert(a + b * c * c + d * d * d - e == 399 ==> (a, b, c, d, e) == (
        9u64,
        2u64,
        5u64,
        7u64,
        3u64,
    ) || (a, b, c, d, e) == (2u64, 7u64, 3u64, 7u64, 9u64)) by (nonlinear_arith)
        requires
            a == 2 || a == 3 || a == 5 || a == 7 || a == 9,
            b == 2 || b == 3 || b == 5 || b == 7 || b == 9,
            c == 2 || c == 3 || c == 5 || c == 7 || c == 9,
            d == 2 || d == 3 || d == 5 || d == 7 || d == 9,
            e == 2 || e == 3 || e == 5 || e == 7 || e == 9,
    ;
}

/// Only one order of the five coins satisfies the equation.
pub proof fn lemma_solution_is_unique(p: Seq<u64>)
    requires
        is_arrangement(p, coin_values()),
        solves(p),
    ensures
        p == seq![9u64, 2u64, 5u64, 7u64, 3u64],
{
    assert(p.len() == 5);
    assert forall|i: int| 0 <= i < 5 implies coin_values().contains(#[trigger] p[i]) by {
        assert(p.to_multiset().count(p[i]) > 0);
    }
    lemma_equation_cases(p[0], p[1], p[2], p[3], p[4]);
    if p[1] == 7 && p[3] == 7 {
        let rest = p.remove(1);
        assert(rest[2] == 7);
        assert(rest.to_multiset().count(7) > 0);
        assert(rest.to_multiset() =~= p.to_multiset().remove(7));
        let m = Multiset::<u64>::empty();
        let e = Seq::<u64>::empty();
        assert(coin_values() =~= e.push(2).push(3).push(5).push(7).push(9));
        assert(coin_values().to_multiset() =~= m.insert(2).insert(3).insert(5).insert(7).insert(9));
        assert(coin_values().to_multiset().count(7) == 1);
    }
    assert(p =~= seq![9u64, 2u64, 5u64, 7u64, 3u64]);
}

/// The order of the five coins whose values satisfy
/// `a + b * c^2 + d^3 - e == 399`: blue, red, shiny, concave, corroded.
pub fn solve_coin_puzzle() -> (r: Vec<Coin>)
    ensures
        is_arrangement(values_of(r@), coin_values()),
        solves(values_of(r@)),
        r@ == seq![Coin::Blue, Coin::Red, Coin::Shiny, Coin::Concave, Coin::Corroded],
{
    let items = vec![2u64, 3, 5, 7, 9];
    assert(items@ =~= coin_values());
    let perms = permutations_of(&items);
    let ghost answer = seq![9u64, 2u64, 5u64, 7u64, 3u64];
    proof {
        let e = Seq::<u64>::empty();
        assert(e.to_multiset() =~= Multiset::empty());
        assert(answer =~= e.push(9).push(2).push(5).push(7).push(3));
        assert(coin_values() =~= e.push(2).push(3).push(5).push(7).push(9));
        let m = Multiset::<u64>::empty();
        assert(answer.to_multiset() =~= m.insert(9).insert(2).insert(5).insert(7).insert(3));
        assert(coin_values().to_multiset() =~= m.insert(2).insert(3).insert(5).insert(7).insert(9));
        assert(answer.to_multiset() =~= coin_values().to_multiset());
        assert(solves(answer));
        assert(is_arrangement(answer, items@));
    }
    let mut i: usize = 0;
    while i < perms.len()
        invariant
            i <= perms@.len(),
            forall|j: int| 0 <= j < perms@.len() ==> is_arrangement(#[trigger] perms@[j]@, coin_values()),
            forall|j: int| 0 <= j < i ==> !solves(#[trigger] perms@[j]@),
            exists|j: int| 0 <= j < perms@.len() && #[trigger] perms@[j]@ == answer,
        decreases perms@.len() - i,
    {
        let p = &perms[i];
        proof {
            assert forall|k: int| 0 <= k < p@.len() implies #[trigger] p@[k] <= 9 by {
                assert(p@.to_multiset().count(p@[k]) > 0);
                assert(coin_values().contains(p@[k]));
            }
        }
        if check_order(p) {
            let mut coins: Vec<Coin> = Vec::new();
            let mut k: usize = 0;
            while k < p.len()
                invariant
                    k <= p@.len(),
                    p@ == perms@[i as int]@,
                    is_arrangement(p@, coin_values()),
                    values_of(coins@) =~= p@.subrange(0, k as int),
                decreases p@.len() - k,
            {
                assert(p@.to_multiset().count(p@[k as int]) > 0);
                let coin = Coin::from_value(p[k]).unwrap();
                let ghost before = coins@;
                coins.push(coin);
                assert(values_of(coins@) =~= values_of(before).push(p@[k as int]));
                k = k + 1;
                assert(values_of(coins@) =~= p@.subrange(0, k as int));
            }
            assert(p@.subrange(0, k as int) =~= p@);
            proof {
                lemma_solution_is_unique(values_of(coins@));
                assert(coins@.len() == 5);
                assert(values_of(coins@)[0] == 9 && values_of(coins@)[1] == 2
                    && values_of(coins@)[2] == 5 && values_of(coins@)[3] == 7
                    && values_of(coins@)[4] == 3);
                assert(coins@ =~= seq![
                    Coin::Blue,
                    Coin::Red,
                    Coin::Shiny,
                    Coin::Concave,
                    Coin::Corroded,
                ]);
            }
            return coins;
        }
        i = i + 1;
    }
    proof {
        let j = choose|j: int| 0 <= j < perms@.len() && #[trigger] perms@[j]@ == answer;
        assert(!solves(perms@[j]@));
    }
    Vec::new()
}

} // verus!
