//! Cost of routes over a distance matrix.

use vstd::prelude::*;

verus! {

/// Whether every leg of `route` has an entry in `distance_matrix`.
pub open spec fn legs_in_matrix(route: Seq<usize>, distance_matrix: Seq<Vec<i32>>) -> bool {
    forall|k: int|
        0 <= k < route.len() - 1 ==> (#[trigger] route[k]) < distance_matrix.len() && route[k + 1]
            < distance_matrix[route[k] as int]@.len()
}

/// The sum of the distances of the legs of `route`: from each node to the
/// one after it.
pub open spec fn route_cost(route: Seq<usize>, distance_matrix: Seq<Vec<i32>>) -> int
    decreases route.len(),
{
    if route.len() < 2 {
        0
    } else {
        route_cost(route.drop_last(), distance_matrix) + distance_matrix[route[route.len()
            - 2] as int]@[route[route.len() - 1] as int]
    }
}

/// The cost of `route` over `distance_matrix`.
pub fn compute_route_cost(route: &Vec<usize>, distance_matrix: &Vec<Vec<i32>>) -> (cost: i32)
    requires
        legs_in_matrix(route@, distance_matrix@),
        i32::MIN <= route_cost(route@, distance_matrix@) <= i32::MAX,
    ensures
        cost == route_cost(route@, distance_matrix@),
{
    if route.len() < 2 {
        return 0;
    }
    let mut cost: i128 = 0;
    let mut i: usize = 1;
    assert(route@.take(1).len() == 1);
    while i < route.len()
        invariant
            1 <= i <= route.len(),
            legs_in_matrix(route@, distance_matrix@),
            cost == route_cost(route@.take(i as int), distance_matrix@),
            -i * 0x8000_0000 <= cost <= i * 0x8000_0000,
        decreases route.len() - i,
    {
        let longer = Ghost(route@.take(i + 1));
        proof {
            assert(longer@.drop_last() =~= route@.take(i as int));
            assert(route@[i - 1] < distance_matrix@.len());
            assert(i * 0x8000_0000 + 0x8000_0000 == (i + 1) * 0x8000_0000) by (nonlinear_arith);
            assert(i * 0x8000_0000 <= 0xffff_ffff_ffff_ffff * 0x8000_0000) by (nonlinear_arith)
                requires
                    0 <= i <= 0xffff_ffff_ffff_ffff,
            ;
        }
        let leg: i32 = distance_matrix[route[i - 1]][route[i]];
        cost = cost + leg as i128;
        i = i + 1;
    }
    assert(route@.take(i as int) =~= route@);
    cost as i32
}

/// The sum of the costs of `routes`.
pub open spec fn total_cost(routes: Seq<Vec<usize>>, distance_matrix: Seq<Vec<i32>>) -> int
    decreases routes.len(),
{
    if routes.len() == 0 {
        0
    } else {
        total_cost(routes.drop_last(), distance_matrix) + route_cost(
            routes.last()@,
            distance_matrix,
        )
    }
}

/// Whether each of `routes` has its legs in `distance_matrix` and a cost
/// that the type holds.
pub open spec fn routes_in_matrix(routes: Seq<Vec<usize>>, distance_matrix: Seq<Vec<i32>>) -> bool {
    forall|r: int|
        0 <= r < routes.len() ==> legs_in_matrix((#[trigger] routes[r])@, distance_matrix)
            && i32::MIN <= route_cost(routes[r]@, distance_matrix) <= i32::MAX
}

/// The cost of all of `routes` over `distance_matrix`.
pub fn compute_total_cost(routes: &Vec<Vec<usize>>, distance_matrix: &Vec<Vec<i32>>) -> (cost: i32)
    requires
        routes_in_matrix(routes@, distance_matrix@),
        i32::MIN <= total_cost(routes@, distance_matrix@) <= i32::MAX,
    ensures
        cost == total_cost(routes@, distance_matrix@),
{
    let mut cost: i128 = 0;
    let mut r: usize = 0;
    assert(routes@.take(0).len() == 0);
    while r < routes.len()
        invariant
            r <= routes.len(),
            routes_in_matrix(routes@, distance_matrix@),
            cost == total_cost(routes@.take(r as int), distance_matrix@),
            -r * 0x8000_0000 <= cost <= r * 0x8000_0000,
        decreases routes.len() - r,
    {
        proof {
            assert(routes@.take(r + 1).drop_last() =~= routes@.take(r as int));
            assert(routes@.take(r + 1).last() == routes@[r as int]);
            assert(r * 0x8000_0000 + 0x8000_0000 == (r + 1) * 0x8000_0000) by (nonlinear_arith);
            assert(r * 0x8000_0000 <= 0xffff_ffff_ffff_ffff * 0x8000_0000) by (nonlinear_arith)
                requires
                    0 <= r <= 0xffff_ffff_ffff_ffff,
            ;
        }
        let one: i32 = compute_route_cost(&routes[r], distance_matrix);
        cost = cost + one as i128;
        r = r + 1;
    }
    assert(routes@.take(r as int) =~= routes@);
    cost as i32
}

} // verus!
