use vstd::prelude::*;

use crate::hubs::{is_ranking, rank_cities, ranks_before, CityRank};

verus! {

/// City `i` seeds a light cluster before city `j`: it is more populous, or
/// as populous and listed first.
pub open spec fn seeds_before(populations: Seq<u32>, i: int, j: int) -> bool {
    populations[i] > populations[j] || (populations[i] == populations[j] && i < j)
}

/// The clusters as plain values.
pub open spec fn cluster_view(clusters: Seq<Vec<usize>>) -> Seq<Seq<usize>> {
    clusters.map_values(|c: Vec<usize>| c@)
}

/// City `j` is in one of the clusters.
pub open spec fn clustered(clusters: Seq<Seq<usize>>, j: int) -> bool {
    exists|c: int, k: int|
        0 <= c < clusters.len() && 0 <= k < clusters[c].len() && #[trigger] clusters[c][k] == j
}

/// `clusters` is the greedy clustering of the cities, where `near(s, j)`
/// says whether city `j` lies within the radius of seed `s`:
/// - every city is in exactly one cluster, and no cluster is empty;
/// - each cluster starts with its seed, and the seeds come in seeding order
///   (see `seeds_before`), each seed before the members it took;
/// - the members after the seed are in ascending order, each one near the
///   seed;
/// - a seed found no city of a later cluster near it.
pub open spec fn is_light_clustering<F: Fn(usize, usize) -> bool>(
    populations: Seq<u32>,
    near: F,
    clusters: Seq<Seq<usize>>,
) -> bool {
    let n = populations.len();
    &&& forall|c: int| 0 <= c < clusters.len() ==> #[trigger] clusters[c].len() > 0
    &&& forall|c: int, k: int|
        0 <= c < clusters.len() && 0 <= k < clusters[c].len() ==> #[trigger] clusters[c][k] < n
    &&& forall|j: int| 0 <= j < n ==> #[trigger] clustered(clusters, j)
    &&& forall|c1: int, k1: int, c2: int, k2: int|
        0 <= c1 < clusters.len() && 0 <= k1 < clusters[c1].len() && 0 <= c2 < clusters.len() && 0
            <= k2 < clusters[c2].len() && (c1 != c2 || k1 != k2) ==> #[trigger] clusters[c1][k1]
            != #[trigger] clusters[c2][k2]
    &&& forall|c1: int, c2: int|
        0 <= c1 < c2 < clusters.len() ==> seeds_before(
            populations,
            #[trigger] clusters[c1][0] as int,
            #[trigger] clusters[c2][0] as int,
        )
    &&& forall|c: int, k: int|
        0 <= c < clusters.len() && 0 < k < clusters[c].len() ==> seeds_before(
            populations,
            clusters[c][0] as int,
            #[trigger] clusters[c][k] as int,
        )
    &&& forall|c: int, k1: int, k2: int|
        0 <= c < clusters.len() && 0 < k1 < k2 < clusters[c].len() ==> #[trigger] clusters[c][k1]
            < #[trigger] clusters[c][k2]
    &&& forall|c: int, k: int|
        0 <= c < clusters.len() && 0 < k < clusters[c].len() ==> near.ensures(
            (clusters[c][0], #[trigger] clusters[c][k]),
            true,
        )
    &&& forall|c1: int, c2: int, k: int|
        0 <= c1 < c2 < clusters.len() && 0 <= k < clusters[c2].len() ==> near.ensures(
            (#[trigger] clusters[c1][0], #[trigger] clusters[c2][k]),
            false,
        )
}

/// The order in which cities get to seed a cluster: most populous first,
/// ties in listing order.
fn seeding_order(populations: &Vec<u32>) -> (order: Vec<usize>)
    ensures
        is_seeding_order(populations@, order@),
{
    // Ranking cities of one scale rank orders them by population alone.
    let mut ranks: Vec<CityRank> = Vec::new();
    let mut i: usize = 0;
    while i < populations.len()
        invariant
            i <= populations@.len(),
            ranks@.len() == i,
            forall|k: int|
                0 <= k < i ==> #[trigger] ranks@[k].scale_rank == 0 && ranks@[k].population
                    == populations@[k],
        decreases populations@.len() - i,
    {
        ranks.push(CityRank { id: 0, scale_rank: 0, population: populations[i] });
        i += 1;
    }
    let order = rank_cities(&ranks);
    assert forall|a: int, b: int| 0 <= a < b < order@.len() implies seeds_before(
        populations@,
        #[trigger] order@[a] as int,
        #[trigger] order@[b] as int,
    ) by {
        assert(ranks_before(ranks@, order@[a] as int, order@[b] as int));
        assert(ranks@[order@[a] as int].scale_rank == 0);
        assert(ranks@[order@[b] as int].scale_rank == 0);
    }
    order
}


/// What the greedy pass has settled after looking at the first `m` cities of
/// `order`: `owner[j]` is the cluster of city `j` (negative while it has
/// none), and cluster `c` was seeded by `order[seed_pos[c]]`.
spec fn settled_clusters<F: Fn(usize, usize) -> bool>(
    populations: Seq<u32>,
    near: F,
    order: Seq<usize>,
    m: int,
    owner: Seq<int>,
    seed_pos: Seq<int>,
    clusters: Seq<Seq<usize>>,
) -> bool {
    let n = populations.len();
    &&& owner.len() == n
    &&& seed_pos.len() == clusters.len()
    &&& forall|c: int, k: int|
        0 <= c < clusters.len() && 0 <= k < clusters[c].len() ==> #[trigger] clusters[c][k] < n
            && owner[clusters[c][k] as int] == c
    &&& forall|j: int|
        0 <= j < n && 0 <= #[trigger] owner[j] < clusters.len() ==> clusters[owner[j]].contains(
            j as usize,
        )
    &&& forall|c: int|
        0 <= c < clusters.len() ==> #[trigger] clusters[c].len() > 0 && 0 <= seed_pos[c] < m
            && seed_pos[c] < order.len() && clusters[c][0] == order[seed_pos[c]]
    &&& forall|c1: int, c2: int|
        0 <= c1 < c2 < clusters.len() ==> #[trigger] seed_pos[c1] < #[trigger] seed_pos[c2]
    &&& forall|c: int, k: int|
        0 <= c < clusters.len() && 0 < k < clusters[c].len() ==> seeds_before(
            populations,
            clusters[c][0] as int,
            #[trigger] clusters[c][k] as int,
        )
    &&& forall|c: int, k1: int, k2: int|
        0 <= c < clusters.len() && 0 < k1 < k2 < clusters[c].len() ==> #[trigger] clusters[c][k1]
            < #[trigger] clusters[c][k2]
    &&& forall|c: int, k: int|
        0 <= c < clusters.len() && 0 < k < clusters[c].len() ==> near.ensures(
            (clusters[c][0], #[trigger] clusters[c][k]),
            true,
        )
    &&& forall|c: int, j: int|
        #![trigger clusters[c][0], owner[j]]
        0 <= c < clusters.len() && 0 <= j < n && (owner[j] < 0 || owner[j] > c) ==> near.ensures(
            (clusters[c][0], j as usize),
            false,
        )
}

/// `order` lists every city once, in seeding order.
spec fn is_seeding_order(populations: Seq<u32>, order: Seq<usize>) -> bool {
    &&& order.len() == populations.len()
    &&& forall|k: int| 0 <= k < order.len() ==> #[trigger] order[k] < populations.len()
    &&& forall|a: int, b: int|
        0 <= a < b < order.len() ==> seeds_before(
            populations,
            #[trigger] order[a] as int,
            #[trigger] order[b] as int,
        )
    &&& forall|i: int| 0 <= i < populations.len() ==> #[trigger] order.contains(i as usize)
}

/// Closing the cluster that `members` forms around `order[m]` keeps the
/// settled state, one city further along the order.
proof fn lemma_close_cluster<F: Fn(usize, usize) -> bool>(
    populations: Seq<u32>,
    near: F,
    order: Seq<usize>,
    m: int,
    owner: Seq<int>,
    seed_pos: Seq<int>,
    clusters: Seq<Seq<usize>>,
    members: Seq<usize>,
)
    requires
        0 <= m < order.len(),
        settled_clusters(populations, near, order, m, owner, seed_pos, clusters),
        forall|x: int| 0 <= x < populations.len() ==> #[trigger] owner[x] <= clusters.len(),
        members.len() >= 1,
        members[0] == order[m],
        forall|k: int|
            0 <= k < members.len() ==> #[trigger] members[k] < populations.len() && owner[members[k] as int]
                == clusters.len(),
        forall|x: int|
            0 <= x < populations.len() && #[trigger] owner[x] == clusters.len() ==> members.contains(
                x as usize,
            ),
        forall|k: int|
            0 < k < members.len() ==> seeds_before(populations, order[m] as int, #[trigger] members[k] as int)
                && near.ensures((order[m], members[k]), true),
        forall|k1: int, k2: int| 0 < k1 < k2 < members.len() ==> #[trigger] members[k1] < #[trigger] members[k2],
        forall|x: int|
            0 <= x < populations.len() && #[trigger] owner[x] < 0 ==> near.ensures((order[m], x as usize), false),
    ensures
        settled_clusters(populations, near, order, m + 1, owner, seed_pos.push(m), clusters.push(members)),
{
    let cur = clusters.len() as int;
    let gc = clusters.push(members);
    let sp = seed_pos.push(m);
    let n = populations.len();
    assert forall|c: int, k: int| 0 <= c < gc.len() && 0 <= k < gc[c].len() implies #[trigger] gc[c][k] < n
        && owner[gc[c][k] as int] == c by {
        if c < cur {
            assert(gc[c] == clusters[c]);
        }
    }
    assert forall|j: int| 0 <= j < n && 0 <= #[trigger] owner[j] < gc.len() implies gc[owner[j]].contains(
        j as usize,
    ) by {
        if owner[j] < cur {
            assert(gc[owner[j]] == clusters[owner[j]]);
        }
    }
    assert forall|c: int| 0 <= c < gc.len() implies #[trigger] gc[c].len() > 0 && 0 <= sp[c] < m + 1
        && sp[c] < order.len() && gc[c][0] == order[sp[c]] by {
        if c < cur {
            assert(gc[c] == clusters[c]);
            assert(sp[c] == seed_pos[c]);
        }
    }
    assert forall|c1: int, c2: int| 0 <= c1 < c2 < gc.len() implies #[trigger] sp[c1] < #[trigger] sp[c2] by {
        assert(sp[c1] == seed_pos[c1]);
        if c2 < cur {
            assert(sp[c2] == seed_pos[c2]);
        } else {
            assert(clusters[c1].len() > 0);
        }
    }
    assert forall|c: int, k: int| 0 <= c < gc.len() && 0 < k < gc[c].len() implies seeds_before(
        populations,
        gc[c][0] as int,
        #[trigger] gc[c][k] as int,
    ) && near.ensures((gc[c][0], gc[c][k]), true) by {
        if c < cur {
            assert(gc[c] == clusters[c]);
        }
    }
    assert forall|c: int, k1: int, k2: int| 0 <= c < gc.len() && 0 < k1 < k2 < gc[c].len() implies #[trigger] gc[c][k1]
        < #[trigger] gc[c][k2] by {
        if c < cur {
            assert(gc[c] == clusters[c]);
        }
    }
    assert forall|c: int, j: int|
        #![trigger gc[c][0], owner[j]]
        0 <= c < gc.len() && 0 <= j < n && (owner[j] < 0 || owner[j] > c) implies near.ensures(
        (gc[c][0], j as usize),
        false,
    ) by {
        if c < cur {
            assert(gc[c] == clusters[c]);
            assert(clusters[c][0] == gc[c][0]);
        }
    }
}

/// The settled state after the whole order, with every city placed, is a
/// greedy clustering.
proof fn lemma_settled_clustering<F: Fn(usize, usize) -> bool>(
    populations: Seq<u32>,
    near: F,
    order: Seq<usize>,
    owner: Seq<int>,
    seed_pos: Seq<int>,
    clusters: Seq<Seq<usize>>,
)
    requires
        populations.len() <= usize::MAX,
        is_seeding_order(populations, order),
        settled_clusters(populations, near, order, order.len() as int, owner, seed_pos, clusters),
        forall|j: int| 0 <= j < populations.len() ==> 0 <= #[trigger] owner[j] < clusters.len(),
    ensures
        is_light_clustering(populations, near, clusters),
{
    let n = populations.len();
    assert forall|j: int| 0 <= j < n implies #[trigger] clustered(clusters, j) by {
        let c = owner[j];
        assert(clusters[c].contains(j as usize));
        let k = choose|k: int| 0 <= k < clusters[c].len() && clusters[c][k] == j as usize;
        assert(clusters[c][k] == j);
    }
    assert forall|c1: int, k1: int, c2: int, k2: int|
        0 <= c1 < clusters.len() && 0 <= k1 < clusters[c1].len() && 0 <= c2 < clusters.len() && 0
            <= k2 < clusters[c2].len() && (c1 != c2 || k1 != k2) implies #[trigger] clusters[c1][k1]
            != #[trigger] clusters[c2][k2] by {
        if clusters[c1][k1] == clusters[c2][k2] {
            assert(owner[clusters[c1][k1] as int] == c1);
            assert(owner[clusters[c2][k2] as int] == c2);
            if k1 > 0 && k2 > 0 {
                if k1 < k2 {
                    assert(clusters[c1][k1] < clusters[c1][k2]);
                } else {
                    assert(clusters[c1][k2] < clusters[c1][k1]);
                }
            } else if k1 == 0 {
                assert(seeds_before(populations, clusters[c1][0] as int, clusters[c1][k2] as int));
            } else {
                assert(seeds_before(populations, clusters[c1][0] as int, clusters[c1][k1] as int));
            }
        }
    }
    assert forall|c1: int, c2: int| 0 <= c1 < c2 < clusters.len() implies seeds_before(
        populations,
        #[trigger] clusters[c1][0] as int,
        #[trigger] clusters[c2][0] as int,
    ) by {
        assert(seed_pos[c1] < seed_pos[c2]);
        assert(clusters[c1].len() > 0 && clusters[c2].len() > 0);
        assert(order[seed_pos[c1]] == clusters[c1][0]);
        assert(order[seed_pos[c2]] == clusters[c2][0]);
    }
    assert forall|c1: int, c2: int, k: int|
        0 <= c1 < c2 < clusters.len() && 0 <= k < clusters[c2].len() implies near.ensures(
        (#[trigger] clusters[c1][0], #[trigger] clusters[c2][k]),
        false,
    ) by {
        let j = clusters[c2][k] as int;
        assert(owner[j] == c2);
    }
}

/// Groups the cities into light clusters, greedily: taking the cities in
/// seeding order (most populous first), each city that is in no cluster yet
/// seeds a new one, which takes, in ascending order, every city in no cluster
/// yet that `near(seed, city)` says lies within the radius of the seed.
pub fn cluster_cities<F: Fn(usize, usize) -> bool>(populations: &Vec<u32>, near: &F) -> (clusters: Vec<Vec<usize>>)
    requires
        forall|s: usize, j: usize|
            s < populations@.len() && j < populations@.len() ==> #[trigger] near.requires((s, j)),
    ensures
        is_light_clustering(populations@, *near, cluster_view(clusters@)),
{
    let n = populations.len();
    let order = seeding_order(populations);
    let mut assigned: Vec<bool> = Vec::new();
    while assigned.len() < n
        invariant
            assigned@.len() <= n,
            forall|j: int| 0 <= j < assigned@.len() ==> !#[trigger] assigned@[j],
        decreases n - assigned@.len(),
    {
        assigned.push(false);
    }
    let mut clusters: Vec<Vec<usize>> = Vec::new();
    let ghost mut owner: Seq<int> = Seq::new(n as nat, |j: int| -1int);
    let ghost mut seed_pos: Seq<int> = Seq::empty();
    let mut m: usize = 0;
    while m < n
        invariant
            n == populations@.len(),
            m <= n,
            is_seeding_order(populations@, order@),
            forall|s: usize, j: usize| s < n && j < n ==> #[trigger] near.requires((s, j)),
            assigned@.len() == n,
            settled_clusters(populations@, *near, order@, m as int, owner, seed_pos, cluster_view(clusters@)),
            forall|j: int| 0 <= j < n ==> (#[trigger] assigned@[j] <==> owner[j] >= 0),
            forall|j: int| 0 <= j < n ==> #[trigger] owner[j] < cluster_view(clusters@).len(),
            forall|p: int| 0 <= p < m ==> #[trigger] assigned@[order@[p] as int],
        decreases n - m,
    {
        let seed = order[m];
        let ghost gc = cluster_view(clusters@);
        let ghost cur = gc.len() as int;
        if !assigned[seed] {
            assigned.set(seed, true);
            proof {
                owner = owner.update(seed as int, cur);
            }
            let mut members: Vec<usize> = Vec::new();
            members.push(seed);
            proof {
                assert forall|x: int| 0 <= x < n && #[trigger] owner[x] == cur implies members@.contains(
                    x as usize,
                ) by {
                    assert(members@[0] == seed);
                }
            }
            let mut j: usize = 0;
            while j < n
                invariant
                    n == populations@.len(),
                    m < n,
                    j <= n,
                    is_seeding_order(populations@, order@),
                    forall|s: usize, x: usize| s < n && x < n ==> #[trigger] near.requires((s, x)),
                    seed == order@[m as int],
                    assigned@.len() == n,
                    gc == cluster_view(clusters@),
                    cur == gc.len(),
                    settled_clusters(populations@, *near, order@, m as int, owner, seed_pos, gc),
                    forall|x: int| 0 <= x < n ==> (#[trigger] assigned@[x] <==> owner[x] >= 0),
                    forall|x: int| 0 <= x < n ==> #[trigger] owner[x] <= cur,
                    forall|p: int| 0 <= p <= m ==> #[trigger] assigned@[order@[p] as int],
                    owner[seed as int] == cur,
                    members@.len() >= 1,
                    members@[0] == seed,
                    forall|k: int|
                        0 <= k < members@.len() ==> #[trigger] members@[k] < n && owner[members@[k] as int]
                            == cur,
                    forall|x: int| 0 <= x < n && #[trigger] owner[x] == cur ==> members@.contains(x as usize),
                    forall|k: int|
                        0 < k < members@.len() ==> #[trigger] members@[k] < j && seeds_before(
                            populations@,
                            seed as int,
                            members@[k] as int,
                        ) && near.ensures((seed, members@[k]), true),
                    forall|k1: int, k2: int|
                        0 < k1 < k2 < members@.len() ==> #[trigger] members@[k1] < #[trigger] members@[k2],
                    forall|x: int| j <= x < n && x != seed ==> #[trigger] owner[x] != cur,
                    forall|x: int| 0 <= x < j && #[trigger] owner[x] < 0 ==> near.ensures((seed, x as usize), false),
                decreases n - j,
            {
                if !assigned[j] && near(seed, j) {
                    proof {
                        // an unassigned city comes after the seed in seeding order
                        assert(order@.contains(j));
                        let p = choose|p: int| 0 <= p < order@.len() && order@[p] == j;
                        if p <= m {
                            assert(assigned@[order@[p] as int]);
                        }
                        assert(seeds_before(populations@, order@[m as int] as int, order@[p] as int));
                    }
                    assigned.set(j, true);
                    proof {
                        owner = owner.update(j as int, cur);
                    }
                    let ghost earlier = members@;
                    members.push(j);
                    proof {
                        assert forall|x: int| 0 <= x < n && #[trigger] owner[x] == cur implies members@.contains(
                            x as usize,
                        ) by {
                            if x == j {
                                assert(members@[earlier.len() as int] == j);
                            } else {
                                assert(earlier.contains(x as usize));
                                let k = choose|k: int| 0 <= k < earlier.len() && earlier[k] == x as usize;
                                assert(members@[k] == x as usize);
                            }
                        }
                    }
                }
                j += 1;
            }
            let ghost last = members@;
            proof {
                lemma_close_cluster(populations@, *near, order@, m as int, owner, seed_pos, gc, last);
            }
            clusters.push(members);
            proof {
                seed_pos = seed_pos.push(m as int);
                assert(cluster_view(clusters@) =~= gc.push(last));
            }
        }
        m += 1;
    }
    proof {
        assert forall|j: int| 0 <= j < n implies 0 <= #[trigger] owner[j] < cluster_view(clusters@).len() by {
            assert(order@.contains(j as usize));
            let p = choose|p: int| 0 <= p < order@.len() && order@[p] == j as usize;
            assert(assigned@[order@[p] as int]);
        }
        lemma_settled_clustering(populations@, *near, order@, owner, seed_pos, cluster_view(clusters@));
    }
    clusters
}


/// The total population of the cities `members`.
pub open spec fn population_sum(populations: Seq<u32>, members: Seq<usize>) -> int
    decreases members.len(),
{
    if members.len() == 0 {
        0
    } else {
        population_sum(populations, members.drop_last()) + populations[members.last() as int]
    }
}

/// A prefix of the members weighs no more than all of them.
proof fn lemma_population_sum_prefix(populations: Seq<u32>, members: Seq<usize>, i: int)
    requires
        0 <= i <= members.len(),
    ensures
        0 <= population_sum(populations, members.take(i)) <= population_sum(populations, members),
    decreases members.len(),
{
    if i == members.len() {
        assert(members.take(i) =~= members);
        if members.len() > 0 {
            lemma_population_sum_prefix(populations, members.drop_last(), i - 1);
            assert(members.drop_last().take(i - 1) =~= members.drop_last());
        }
    } else {
        lemma_population_sum_prefix(populations, members.drop_last(), i);
        assert(members.drop_last().take(i) =~= members.take(i));
    }
}

/// What a light cluster records of its cities: their total population,
/// capped at `u32::MAX`, and their number, capped at `u16::MAX`.
pub fn cluster_totals(populations: &Vec<u32>, members: &Vec<usize>) -> (r: (u32, u16))
    requires
        forall|k: int| 0 <= k < members@.len() ==> #[trigger] members@[k] < populations@.len(),
        population_sum(populations@, members@) <= u64::MAX,
    ensures
        r.0 == if population_sum(populations@, members@) > u32::MAX {
            u32::MAX as int
        } else {
            population_sum(populations@, members@)
        },
        r.1 == if members@.len() > u16::MAX {
            u16::MAX as int
        } else {
            members@.len() as int
        },
{
    let mut total: u64 = 0;
    let mut i: usize = 0;
    while i < members.len()
        invariant
            i <= members@.len(),
            forall|k: int| 0 <= k < members@.len() ==> #[trigger] members@[k] < populations@.len(),
            population_sum(populations@, members@) <= u64::MAX,
            total == population_sum(populations@, members@.take(i as int)),
        decreases members@.len() - i,
    {
        proof {
            assert(members@.take(i as int + 1).drop_last() =~= members@.take(i as int));
            lemma_population_sum_prefix(populations@, members@, i as int + 1);
        }
        total = total + populations[members[i]] as u64;
        i += 1;
    }
    assert(members@.take(i as int) =~= members@);
    let population: u32 = if total > u32::MAX as u64 {
        u32::MAX
    } else {
        total as u32
    };
    let count: u16 = if members.len() > u16::MAX as usize {
        u16::MAX
    } else {
        members.len() as u16
    };
    (population, count)
}

} // verus!
