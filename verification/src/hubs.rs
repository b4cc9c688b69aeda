use vstd::prelude::*;

verus! {

/// How many cities become hub airports.
pub const HUB_COUNT: usize = 40;

/// Cities smaller than this get no spoke route.
pub const MIN_SPOKE_POPULATION: u32 = 50_000;

/// What the flight network reads of a city to rank it: its id, its scale
/// rank (smaller is more important) and its population.
#[derive(Debug, PartialEq, Eq, Structural, Clone, Copy)]
pub struct CityRank {
    pub id: u32,
    pub scale_rank: u8,
    pub population: u32,
}

/// City `i` ranks before city `j`: a smaller scale rank first, then a larger
/// population, and cities alike in both keep their order.
pub open spec fn ranks_before(cities: Seq<CityRank>, i: int, j: int) -> bool {
    ||| cities[i].scale_rank < cities[j].scale_rank
    ||| (cities[i].scale_rank == cities[j].scale_rank && cities[i].population
        > cities[j].population)
    ||| (cities[i].scale_rank == cities[j].scale_rank && cities[i].population
        == cities[j].population && i < j)
}

/// Ranking is a strict total order on distinct cities.
proof fn lemma_ranks_before_order(cities: Seq<CityRank>)
    ensures
        forall|i: int, j: int| i != j ==> ranks_before(cities, i, j) || ranks_before(cities, j, i),
        forall|i: int, j: int| ranks_before(cities, i, j) ==> !ranks_before(cities, j, i),
        forall|i: int, j: int, k: int|
            ranks_before(cities, i, j) && ranks_before(cities, j, k) ==> ranks_before(cities, i, k),
{
}

/// Whether city `i` ranks before city `j` (see `ranks_before`).
fn rank_before(cities: &Vec<CityRank>, i: usize, j: usize) -> (r: bool)
    requires
        i < cities@.len(),
        j < cities@.len(),
    ensures
        r == ranks_before(cities@, i as int, j as int),
{
    let (a, b) = (cities[i], cities[j]);
    a.scale_rank < b.scale_rank || (a.scale_rank == b.scale_rank && a.population > b.population)
        || (a.scale_rank == b.scale_rank && a.population == b.population && i < j)
}

/// `order` lists every city index exactly once, most important first.
pub open spec fn is_ranking(cities: Seq<CityRank>, order: Seq<usize>) -> bool {
    &&& order.len() == cities.len()
    &&& forall|k: int| 0 <= k < order.len() ==> #[trigger] order[k] < cities.len()
    &&& forall|a: int, b: int|
        0 <= a < b < order.len() ==> ranks_before(cities, #[trigger] order[a] as int, #[trigger] order[b] as int)
    &&& forall|i: int| 0 <= i < cities.len() ==> #[trigger] order.contains(i as usize)
}

/// Orders the cities by importance (see `ranks_before`): a stable sort by
/// scale rank ascending, then population descending.
pub fn rank_cities(cities: &Vec<CityRank>) -> (order: Vec<usize>)
    ensures
        is_ranking(cities@, order@),
{
    proof {
        lemma_ranks_before_order(cities@);
    }
    let n = cities.len();
    let mut order: Vec<usize> = Vec::new();
    let mut m: usize = 0;
    while m < n
        invariant
            n == cities@.len(),
            m <= n,
            order@.len() == m,
            forall|k: int| 0 <= k < order@.len() ==> #[trigger] order@[k] < m,
            forall|a: int, b: int|
                0 <= a < b < order@.len() ==> ranks_before(
                    cities@,
                    #[trigger] order@[a] as int,
                    #[trigger] order@[b] as int,
                ),
            forall|i: int| 0 <= i < m ==> #[trigger] order@.contains(i as usize),
            forall|i: int, j: int| i != j ==> ranks_before(cities@, i, j) || ranks_before(cities@, j, i),
            forall|i: int, j: int, k: int|
                ranks_before(cities@, i, j) && ranks_before(cities@, j, k) ==> ranks_before(
                    cities@,
                    i,
                    k,
                ),
        decreases n - m,
    {
        let mut p: usize = 0;
        while p < order.len() && rank_before(cities, order[p], m)
            invariant
                n == cities@.len(),
                m < n,
                p <= order@.len(),
                forall|k: int| 0 <= k < order@.len() ==> #[trigger] order@[k] < m,
                forall|k: int| 0 <= k < p ==> ranks_before(cities@, #[trigger] order@[k] as int, m as int),
            decreases order@.len() - p,
        {
            p = p + 1;
        }
        let ghost old_order = order@;
        order.insert(p, m);
        proof {
            assert(order@ == old_order.insert(p as int, m));
            assert forall|a: int, b: int| 0 <= a < b < order@.len() implies ranks_before(
                cities@,
                #[trigger] order@[a] as int,
                #[trigger] order@[b] as int,
            ) by {
                if a < p && b < p {
                    assert(order@[a] == old_order[a] && order@[b] == old_order[b]);
                } else if a < p && b == p {
                    assert(order@[a] == old_order[a]);
                } else if a < p && b > p {
                    assert(order@[a] == old_order[a] && order@[b] == old_order[b - 1]);
                    if a < b - 1 {
                        assert(ranks_before(cities@, old_order[a] as int, old_order[b - 1] as int));
                    }
                } else if a == p {
                    assert(order@[b] == old_order[b - 1]);
                    assert(old_order[p as int] < m);
                    assert(!ranks_before(cities@, old_order[p as int] as int, m as int));
                    assert(ranks_before(cities@, m as int, old_order[p as int] as int));
                    if b - 1 > p {
                        assert(ranks_before(cities@, old_order[p as int] as int, old_order[b - 1] as int));
                    }
                } else {
                    assert(order@[a] == old_order[a - 1] && order@[b] == old_order[b - 1]);
                }
            }
            assert forall|i: int| 0 <= i < m + 1 implies #[trigger] order@.contains(i as usize) by {
                if i == m {
                    assert(order@[p as int] == m);
                } else {
                    assert(old_order.contains(i as usize));
                    let k = choose|k: int| 0 <= k < old_order.len() && old_order[k] == i as usize;
                    if k < p {
                        assert(order@[k] == i as usize);
                    } else {
                        assert(order@[k + 1] == i as usize);
                    }
                }
            }
            assert forall|k: int| 0 <= k < order@.len() implies #[trigger] order@[k] < m + 1 by {
                if k < p {
                    assert(order@[k] == old_order[k]);
                } else if k > p {
                    assert(order@[k] == old_order[k - 1]);
                }
            }
        }
        m = m + 1;
    }
    order
}

/// The hubs: the first `HUB_COUNT` cities of the ranking (all of them if
/// there are fewer), most important first.
pub fn rank_hubs(cities: &Vec<CityRank>) -> (hubs: Vec<usize>)
    ensures
        hubs@.len() == if cities@.len() < HUB_COUNT { cities@.len() } else { HUB_COUNT as nat },
        exists|order: Seq<usize>| is_ranking(cities@, order) && hubs@ == order.take(hubs@.len() as int),
{
    let order = rank_cities(cities);
    let count = if order.len() < HUB_COUNT {
        order.len()
    } else {
        HUB_COUNT
    };
    let mut hubs: Vec<usize> = Vec::new();
    let mut k: usize = 0;
    while k < count
        invariant
            count <= order@.len(),
            k <= count,
            hubs@ == order@.take(k as int),
        decreases count - k,
    {
        hubs.push(order[k]);
        k = k + 1;
        assert(hubs@ =~= order@.take(k as int));
    }
    assert(is_ranking(cities@, order@));
    hubs
}

/// Every hub ranks before every city that is not a hub, and no city is a
/// hub twice.
pub proof fn lemma_hubs_outrank_the_rest(cities: Seq<CityRank>, order: Seq<usize>, count: int)
    requires
        is_ranking(cities, order),
        0 <= count <= order.len(),
        cities.len() <= usize::MAX,
    ensures
        forall|a: int, b: int|
            0 <= a < b < count ==> #[trigger] order.take(count)[a] != #[trigger] order.take(count)[b],
        forall|h: int, i: int|
            #![trigger ranks_before(cities, order[h] as int, i)]
            0 <= h < count && 0 <= i < cities.len() && !order.take(count).contains(i as usize)
                ==> ranks_before(cities, order[h] as int, i),
{
    assert forall|a: int, b: int| 0 <= a < b < count implies #[trigger] order.take(count)[a]
        != #[trigger] order.take(count)[b] by {
        assert(ranks_before(cities, order[a] as int, order[b] as int));
    }
    assert forall|h: int, i: int|
        #![trigger ranks_before(cities, order[h] as int, i)]
        0 <= h < count && 0 <= i < cities.len() && !order.take(count).contains(i as usize)
            implies ranks_before(cities, order[h] as int, i) by {
        assert(order.contains(i as usize));
        let k = choose|k: int| 0 <= k < order.len() && order[k] == i as usize;
        if k < count {
            assert(order.take(count)[k] == i as usize);
            assert(order.take(count).contains(i as usize));
        }
        assert(h < k);
        assert(ranks_before(cities, order[h] as int, order[k] as int));
        assert(order[k] as int == i);
    }
}

/// Whether a city gets a spoke route: it is not one of the hubs (compared
/// by id) and has at least `MIN_SPOKE_POPULATION` people.
pub open spec fn is_spoke(cities: Seq<CityRank>, hubs: Seq<usize>, i: int) -> bool {
    &&& !(exists|h: int| 0 <= h < hubs.len() && #[trigger] cities[hubs[h] as int].id == cities[i].id)
    &&& cities[i].population >= MIN_SPOKE_POPULATION
}

/// The cities, in their original order, that get a spoke route to their
/// nearest hub (see `is_spoke`).
pub fn spoke_cities(cities: &Vec<CityRank>, hubs: &Vec<usize>) -> (spokes: Vec<usize>)
    requires
        forall|h: int| 0 <= h < hubs@.len() ==> #[trigger] hubs@[h] < cities@.len(),
    ensures
        spokes@ == Seq::new(cities@.len(), |i: int| i as usize).filter(
            |i: usize| is_spoke(cities@, hubs@, i as int),
        ),
{
    let n = cities.len();
    let mut spokes: Vec<usize> = Vec::new();
    let mut i: usize = 0;
    let ghost all = Seq::new(cities@.len(), |i: int| i as usize);
    let ghost pred = |i: usize| is_spoke(cities@, hubs@, i as int);
    while i < n
        invariant
            n == cities@.len(),
            i <= n,
            all == Seq::new(cities@.len(), |i: int| i as usize),
            pred == (|i: usize| is_spoke(cities@, hubs@, i as int)),
            forall|h: int| 0 <= h < hubs@.len() ==> #[trigger] hubs@[h] < cities@.len(),
            spokes@ == all.take(i as int).filter(pred),
        decreases n - i,
    {
        let city = cities[i];
        let mut is_hub = false;
        let mut h: usize = 0;
        while h < hubs.len()
            invariant
                n == cities@.len(),
                i < n,
                city == cities@[i as int],
                h <= hubs@.len(),
                forall|g: int| 0 <= g < hubs@.len() ==> #[trigger] hubs@[g] < cities@.len(),
                is_hub == exists|g: int| 0 <= g < h && #[trigger] cities@[hubs@[g] as int].id == city.id,
            decreases hubs@.len() - h,
        {
            if cities[hubs[h]].id == city.id {
                is_hub = true;
            }
            h = h + 1;
        }
        proof {
            reveal_with_fuel(Seq::<_>::filter, 1);
            assert(all.take(i + 1).drop_last() =~= all.take(i as int));
        }
        if !is_hub && city.population >= MIN_SPOKE_POPULATION {
            spokes.push(i);
        }
        i = i + 1;
    }
    proof {
        assert(all.take(n as int) =~= all);
    }
    spokes
}

} // verus!
