//! The order of a run's tasks along their dependencies.
use vstd::prelude::*;
use crate::causes::spec_task_index;
use crate::map::{SortedMap, sorted_keys};
use crate::text::seq_lt;
use crate::model::TaskSummary;

verus! {

/// The last task of `tasks` whose id is `id`.
pub open spec fn task_of(tasks: Seq<TaskSummary>, id: Seq<char>) -> TaskSummary {
    tasks[spec_task_index(tasks)[id] as int]
}

/// Every dependency of `t` that is a task of the run is in `placed`, and no
/// such dependency is listed twice.
pub open spec fn deps_ready(t: TaskSummary, ids: Set<Seq<char>>, placed: Set<Seq<char>>) -> bool {
    let deps = t.dependencies.deep_view();
    &&& forall|j: int| 0 <= j < deps.len() && ids.contains(#[trigger] deps[j]) ==> placed.contains(deps[j])
    &&& forall|j: int, j2: int| 0 <= j < j2 < deps.len() && ids.contains(#[trigger] deps[j]) ==> deps[j] != #[trigger] deps[j2]
}

/// The first of `ids` not yet placed whose dependencies are all placed.
pub open spec fn first_ready(ids: Seq<Seq<char>>, tasks: Seq<TaskSummary>, placed: Seq<Seq<char>>) -> Option<Seq<char>>
    decreases ids.len(),
{
    if ids.len() == 0 {
        None
    } else if !placed.contains(ids[0]) && deps_ready(task_of(tasks, ids[0]), spec_task_index(tasks).dom(), placed.to_set()) {
        Some(ids[0])
    } else {
        first_ready(ids.drop_first(), tasks, placed)
    }
}

/// The ids not in `placed`, in order.
pub open spec fn unplaced(ids: Seq<Seq<char>>, placed: Seq<Seq<char>>) -> Seq<Seq<char>>
    decreases ids.len(),
{
    if ids.len() == 0 {
        Seq::empty()
    } else {
        (if placed.contains(ids[0]) { Seq::empty() } else { seq![ids[0]] }) + unplaced(ids.drop_first(), placed)
    }
}

/// Kahn's order: repeatedly place the smallest ready id; ids in cycles follow
/// in id order.
pub open spec fn kahn(ids: Seq<Seq<char>>, tasks: Seq<TaskSummary>, placed: Seq<Seq<char>>, fuel: nat) -> Seq<Seq<char>>
    decreases fuel,
{
    if fuel == 0 {
        placed + unplaced(ids, placed)
    } else {
        match first_ready(ids, tasks, placed) {
            Some(n) => kahn(ids, tasks, placed.push(n), (fuel - 1) as nat),
            None => placed + unplaced(ids, placed),
        }
    }
}

/// The task ids of the run in dependency order.
pub open spec fn spec_topological_order(tasks: Seq<TaskSummary>) -> Seq<Seq<char>> {
    let ids = sorted_keys(spec_task_index(tasks).dom());
    kahn(ids, tasks, Seq::empty(), ids.len())
}

proof fn lemma_unplaced_len(ids: Seq<Seq<char>>, placed: Seq<Seq<char>>, n: Seq<char>)
    requires
        ids.no_duplicates(),
        ids.contains(n),
        !placed.contains(n),
    ensures
        unplaced(ids, placed.push(n)).len() + 1 == unplaced(ids, placed).len(),
    decreases ids.len(),
{
    assert(placed.push(n)[placed.len() as int] == n);
    assert(placed.push(n).contains(n));
    if ids[0] == n {
        assert(!ids.drop_first().contains(n)) by {
            if ids.drop_first().contains(n) {
                let k = choose|k: int| 0 <= k < ids.drop_first().len() && ids.drop_first()[k] == n;
                assert(ids[k + 1] == n);
            }
        };
        lemma_unplaced_same(ids.drop_first(), placed, n);
    } else {
        assert(ids.drop_first().contains(n)) by {
            let k = choose|k: int| 0 <= k < ids.len() && ids[k] == n;
            assert(ids.drop_first()[k - 1] == n);
        };
        assert(placed.push(n).contains(ids[0]) == placed.contains(ids[0])) by {
            if placed.push(n).contains(ids[0]) {
                let k = choose|k: int| 0 <= k < placed.push(n).len() && placed.push(n)[k] == ids[0];
                assert(placed[k] == ids[0]);
            }
            if placed.contains(ids[0]) {
                let k = choose|k: int| 0 <= k < placed.len() && placed[k] == ids[0];
                assert(placed.push(n)[k] == ids[0]);
            }
        };
        lemma_unplaced_len(ids.drop_first(), placed, n);
    }
}

proof fn lemma_unplaced_same(ids: Seq<Seq<char>>, placed: Seq<Seq<char>>, n: Seq<char>)
    requires
        !ids.contains(n),
    ensures
        unplaced(ids, placed.push(n)) == unplaced(ids, placed),
    decreases ids.len(),
{
    if ids.len() > 0 {
        assert(placed.push(n).contains(ids[0]) == placed.contains(ids[0])) by {
            assert(ids.contains(ids[0]));
            if placed.push(n).contains(ids[0]) {
                let k = choose|k: int| 0 <= k < placed.push(n).len() && placed.push(n)[k] == ids[0];
                if k < placed.len() {
                    assert(placed[k] == ids[0]);
                }
            }
            if placed.contains(ids[0]) {
                let k = choose|k: int| 0 <= k < placed.len() && placed[k] == ids[0];
                assert(placed.push(n)[k] == ids[0]);
            }
        };
        assert(!ids.drop_first().contains(n)) by {
            if ids.drop_first().contains(n) {
                let k = choose|k: int| 0 <= k < ids.drop_first().len() && ids.drop_first()[k] == n;
                assert(ids[k + 1] == n);
            }
        };
        lemma_unplaced_same(ids.drop_first(), placed, n);
    }
}

proof fn lemma_unplaced_none(ids: Seq<Seq<char>>)
    ensures
        unplaced(ids, Seq::empty()) == ids,
    decreases ids.len(),
{
    if ids.len() > 0 {
        lemma_unplaced_none(ids.drop_first());
        assert(ids =~= seq![ids[0]] + ids.drop_first());
    }
}

proof fn lemma_first_ready_skip(ids: Seq<Seq<char>>, tasks: Seq<TaskSummary>, placed: Seq<Seq<char>>, i: int)
    requires
        0 <= i < ids.len(),
    ensures
        first_ready(ids.skip(i), tasks, placed) == (if !placed.contains(ids[i])
            && deps_ready(task_of(tasks, ids[i]), spec_task_index(tasks).dom(), placed.to_set()) {
            Some(ids[i])
        } else {
            first_ready(ids.skip(i + 1), tasks, placed)
        }),
{
    assert(ids.skip(i).drop_first() =~= ids.skip(i + 1));
    assert(ids.skip(i)[0] == ids[i]);
}

/// Whether the dependencies of `t` are ready, given which ids (by index into
/// the keys of `map`) are placed.
fn ready(t: &TaskSummary, map: &SortedMap<usize>, flags: &Vec<bool>, Ghost(placed): Ghost<Seq<Seq<char>>>) -> (r: bool)
    requires
        flags.len() == map.key_seq().len(),
        map.wf(),
        forall|k: int| 0 <= k < map.key_seq().len() ==> flags@[k] == placed.contains(#[trigger] map.key_seq()[k]),
    ensures
        r == deps_ready(*t, map@.dom(), placed.to_set()),
{
    let deps = &t.dependencies;
    let ghost dv = deps.deep_view();
    let mut j: usize = 0;
    while j < deps.len()
        invariant
            j <= deps.len(),
            dv == deps.deep_view(),
            dv == t.dependencies.deep_view(),
            flags.len() == map.key_seq().len(),
            map.wf(),
            forall|k: int| 0 <= k < map.key_seq().len() ==> flags@[k] == placed.contains(#[trigger] map.key_seq()[k]),
            forall|x: int| 0 <= x < j && map@.dom().contains(#[trigger] dv[x]) ==> placed.to_set().contains(dv[x]),
            forall|x: int, x2: int| 0 <= x < j && x < x2 < dv.len() && map@.dom().contains(#[trigger] dv[x]) ==> dv[x] != #[trigger] dv[x2],
        decreases deps.len() - j,
    {
        let found = map.find(deps[j].as_str());
        assert(dv[j as int] == deps@[j as int]@);
        match found {
            Some(idx) => {
                proof { map.lemma_index(idx as int); }
                assert(map@.dom().contains(dv[j as int]));
                if !flags[idx] {
                    assert(!placed.to_set().contains(dv[j as int]));
                    assert(!deps_ready(*t, map@.dom(), placed.to_set()));
                    return false;
                }
                let mut j2: usize = j + 1;
                while j2 < deps.len()
                    invariant
                        j < j2 <= deps.len(),
                        dv == deps.deep_view(),
                        dv == t.dependencies.deep_view(),
                        map@.dom().contains(dv[j as int]),
                        forall|x2: int| j < x2 < j2 ==> dv[j as int] != #[trigger] dv[x2],
                    decreases deps.len() - j2,
                {
                    assert(dv[j2 as int] == deps@[j2 as int]@);
                    if crate::text::str_eq(deps[j].as_str(), deps[j2].as_str()) {
                        assert(dv[j as int] == dv[j2 as int]);
                        assert(!deps_ready(*t, map@.dom(), placed.to_set()));
                        return false;
                    }
                    j2 = j2 + 1;
                }
            },
            None => {},
        }
        j = j + 1;
    }
    true
}

/// Index of the first id from `pick` on that is unplaced and ready.
#[verifier::spinoff_prover]
fn next_ready(
    tasks: &Vec<TaskSummary>,
    map: &SortedMap<usize>,
    flags: &Vec<bool>,
    Ghost(placed): Ghost<Seq<Seq<char>>>,
) -> (r: Option<usize>)
    requires
        map.wf(),
        map@ == spec_task_index(tasks@),
        flags.len() == map.key_seq().len(),
        forall|k: int| 0 <= k < map.key_seq().len() ==> flags@[k] == placed.contains(#[trigger] map.key_seq()[k]),
        forall|k: Seq<char>| #[trigger] spec_task_index(tasks@).dom().contains(k) ==> spec_task_index(tasks@)[k] < tasks@.len(),
    ensures
        first_ready(map.key_seq(), tasks@, placed) == (match r { Some(i) => Some(map.key_seq()[i as int]), None => None }),
        r matches Some(i) ==> i < map.key_seq().len() && !flags@[i as int],
{
    let ghost ids = map.key_seq();
    let n = map.len();
    let mut pick: usize = 0;
    assert(ids.skip(0) =~= ids);
    while pick < n
        invariant
            pick <= n,
            n == ids.len(),
            ids == map.key_seq(),
            map.wf(),
            map@ == spec_task_index(tasks@),
            flags.len() == n,
            forall|k: int| 0 <= k < n ==> flags@[k] == placed.contains(#[trigger] ids[k]),
            forall|k: Seq<char>| #[trigger] spec_task_index(tasks@).dom().contains(k) ==> spec_task_index(tasks@)[k] < tasks@.len(),
            first_ready(ids, tasks@, placed) == first_ready(ids.skip(pick as int), tasks@, placed),
        decreases n - pick,
    {
        proof { lemma_first_ready_skip(ids, tasks@, placed, pick as int); }
        if !flags[pick] {
            proof { map.lemma_index(pick as int); }
            let index = map.value_at(pick);
            assert(spec_task_index(tasks@).dom().contains(ids[pick as int]));
            assert(task_of(tasks@, ids[pick as int]) == tasks@[*index as int]);
            if ready(&tasks[*index], map, flags, Ghost(placed)) {
                return Some(pick);
            }
        }
        pick = pick + 1;
    }
    assert(ids.skip(n as int).len() == 0);
    None
}

proof fn lemma_unplaced_step(ids: Seq<Seq<char>>, placed: Seq<Seq<char>>, k: int)
    requires
        0 <= k < ids.len(),
    ensures
        unplaced(ids.skip(k), placed) == (if placed.contains(ids[k]) { Seq::empty() } else { seq![ids[k]] })
            + unplaced(ids.skip(k + 1), placed),
{
    assert(ids.skip(k).drop_first() =~= ids.skip(k + 1));
    assert(ids.skip(k)[0] == ids[k]);
}

/// The flags are exactly the placed ids, and `positions` gives the index in
/// `placed` of each of them.
pub open spec fn tracks(ids: Seq<Seq<char>>, flags: Seq<bool>, positions: Seq<usize>, placed: Seq<Seq<char>>) -> bool {
    &&& flags.len() == ids.len()
    &&& positions.len() == ids.len()
    &&& placed.no_duplicates()
    &&& forall|k: int| 0 <= k < ids.len() ==> flags[k] == placed.contains(#[trigger] ids[k])
    &&& forall|k: int| 0 <= k < ids.len() && flags[k] ==> #[trigger] positions[k] < placed.len()
    &&& forall|k: int| 0 <= k < ids.len() && flags[k] ==> placed[positions[k] as int] == #[trigger] ids[k]
}

/// Places the id at `pick` after the `count` ids placed so far.
#[verifier::spinoff_prover]
fn place(
    flags: &mut Vec<bool>,
    positions: &mut Vec<usize>,
    pick: usize,
    count: usize,
    Ghost(ids): Ghost<Seq<Seq<char>>>,
    Ghost(placed): Ghost<Seq<Seq<char>>>,
)
    requires
        tracks(ids, old(flags)@, old(positions)@, placed),
        ids.no_duplicates(),
        pick < ids.len(),
        !old(flags)@[pick as int],
        count == placed.len(),
    ensures
        tracks(ids, final(flags)@, final(positions)@, placed.push(ids[pick as int])),
{
    let ghost old_flags = flags@;
    let ghost old_positions = positions@;
    assert(old_flags == old(flags)@);
    assert(old_positions == old(positions)@);
    assert(tracks(ids, old_flags, old_positions, placed));
    flags.set(pick, true);
    positions.set(pick, count);
    assert(flags@ == old_flags.update(pick as int, true));
    assert(positions@ == old_positions.update(pick as int, count));
    proof {
        let np = placed.push(ids[pick as int]);
        let p = pick as int;
        assert(np[placed.len() as int] == ids[p]);
        assert(!placed.contains(ids[p]));
        assert forall|a: int, b: int| 0 <= a < np.len() && 0 <= b < np.len() && a != b implies np[a] != np[b] by {
            if b == placed.len() {
                assert(np[a] == placed[a]);
                assert(placed.contains(placed[a]));
            } else if a == placed.len() {
                assert(np[b] == placed[b]);
                assert(placed.contains(placed[b]));
            } else {
                assert(np[a] == placed[a] && np[b] == placed[b]);
            }
        };
        assert forall|k: int| 0 <= k < ids.len() implies flags@[k] == np.contains(#[trigger] ids[k]) by {
            if k == p {
                assert(np.contains(ids[k]));
            } else {
                assert(ids[k] != ids[p]);
                assert(flags@[k] == old_flags[k]);
                if np.contains(ids[k]) {
                    let x = choose|x: int| 0 <= x < np.len() && np[x] == ids[k];
                    assert(x != placed.len());
                    assert(placed[x] == ids[k]);
                }
                if placed.contains(ids[k]) {
                    let x = choose|x: int| 0 <= x < placed.len() && placed[x] == ids[k];
                    assert(np[x] == ids[k]);
                }
            }
        };
        assert forall|k: int| 0 <= k < ids.len() && flags@[k] implies positions@[k] < np.len()
            && np[positions@[k] as int] == #[trigger] ids[k] by {
            if k != p {
                assert(old_flags[k]);
                assert(positions@[k] == old_positions[k]);
                assert(old_positions[k] < placed.len() && placed[old_positions[k] as int] == ids[k]);
                assert(np[old_positions[k] as int] == placed[old_positions[k] as int]);
            }
        };
    }
}

/// For each task id, in the ascending order of the keys of `map`, its
/// position in the dependency order of the run.
#[verifier::spinoff_prover]
pub fn topological_order(tasks: &Vec<TaskSummary>, map: &SortedMap<usize>) -> (positions: Vec<usize>)
    requires
        map@ == spec_task_index(tasks@),
    ensures
        positions.len() == map.key_seq().len(),
        spec_topological_order(tasks@).len() == map.key_seq().len(),
        spec_topological_order(tasks@).no_duplicates(),
        forall|k: int| #![trigger positions@[k]] 0 <= k < positions.len() ==> positions@[k] < spec_topological_order(tasks@).len()
            && spec_topological_order(tasks@)[positions@[k] as int] == map.key_seq()[k],
{
    proof {
        use_type_invariant(map);
        map.lemma_key_order();
        map.lemma_shape();
        assert(tasks@.len() == tasks.len());
        crate::causes::lemma_task_index(tasks@);
    }
    let ghost ids = map.key_seq();
    let n = map.len();
    let mut flags: Vec<bool> = Vec::new();
    let mut positions: Vec<usize> = Vec::new();
    let mut i: usize = 0;
    while i < n
        invariant
            i <= n,
            flags.len() == i,
            positions.len() == i,
            forall|k: int| 0 <= k < i ==> !flags@[k],
        decreases n - i,
    {
        flags.push(false);
        positions.push(0);
        i = i + 1;
    }
    proof {
        assert forall|a: int, b: int| 0 <= a < ids.len() && 0 <= b < ids.len() && a != b implies ids[a] != ids[b] by {
            if a < b {
                crate::text::lemma_seq_lt_irreflexive(ids[a]);
            } else {
                crate::text::lemma_seq_lt_irreflexive(ids[b]);
            }
        };
        lemma_unplaced_none(ids);
    }
    let ghost mut placed: Seq<Seq<char>> = Seq::empty();
    let ghost total = spec_topological_order(tasks@);
    let mut count: usize = 0;
    loop
        invariant
            n == ids.len(),
            ids == map.key_seq(),
            ids == sorted_keys(map@.dom()),
            ids.no_duplicates(),
            map.wf(),
            map@ == spec_task_index(tasks@),
            forall|k: Seq<char>| #[trigger] spec_task_index(tasks@).dom().contains(k) ==> spec_task_index(tasks@)[k] < tasks@.len(),
            total == spec_topological_order(tasks@),
            tracks(ids, flags@, positions@, placed),
            count == placed.len(),
            placed.len() + unplaced(ids, placed).len() == n,
            kahn(ids, tasks@, placed, unplaced(ids, placed).len()) == total,
        ensures
            n == ids.len(),
            ids == map.key_seq(),
            ids.no_duplicates(),
            tracks(ids, flags@, positions@, placed),
            count == placed.len(),
            total == placed + unplaced(ids, placed),
            total.len() == n,
        decreases n - count,
    {
        let next = next_ready(tasks, map, &flags, Ghost(placed));
        let pick = match next {
            Some(pick) => pick,
            None => {
                proof {
                    let fuel = unplaced(ids, placed).len();
                    assert(kahn(ids, tasks@, placed, fuel) == placed + unplaced(ids, placed));
                }
                break;
            },
        };
        proof {
            assert(ids.contains(ids[pick as int]));
            assert(!placed.contains(ids[pick as int]));
            lemma_unplaced_len(ids, placed, ids[pick as int]);
            let fuel = unplaced(ids, placed).len();
            assert(fuel > 0);
            assert(kahn(ids, tasks@, placed, fuel) == kahn(ids, tasks@, placed.push(ids[pick as int]), (fuel - 1) as nat));
        }
        place(&mut flags, &mut positions, pick, count, Ghost(ids), Ghost(placed));
        proof {
            placed = placed.push(ids[pick as int]);
        }
        count = count + 1;
    }
    let mut k: usize = 0;
    assert(ids.skip(0) =~= ids);
    while k < n
        invariant
            n == ids.len(),
            ids == map.key_seq(),
            ids.no_duplicates(),
            tracks(ids, flags@, positions@, placed),
            count == placed.len(),
            k <= n,
            total == placed + unplaced(ids.skip(k as int), placed),
            total.len() == n,
            forall|x: int| 0 <= x < k ==> flags@[x],
        decreases n - k,
    {
        proof { lemma_unplaced_step(ids, placed, k as int); }
        if !flags[k] {
            proof {
                assert(!ids.skip(k + 1).contains(ids[k as int])) by {
                    if ids.skip(k + 1).contains(ids[k as int]) {
                        let j = choose|j: int| 0 <= j < ids.skip(k + 1).len() && #[trigger] ids.skip(k + 1)[j] == ids[k as int];
                        assert(ids[k + 1 + j] == ids[k as int]);
                    }
                };
                lemma_unplaced_same(ids.skip(k + 1), placed, ids[k as int]);
                assert(!placed.contains(ids[k as int]));
            }
            let ghost fl = flags@;
            let ghost before = placed;
            place(&mut flags, &mut positions, k, count, Ghost(ids), Ghost(placed));
            proof {
                assert(total =~= placed.push(ids[k as int]) + unplaced(ids.skip(k + 1), placed));
                placed = placed.push(ids[k as int]);
                assert forall|x: int| 0 <= x <= k implies flags@[x] by {
                    if x < k {
                        assert(fl[x]);
                        assert(before.contains(ids[x]));
                        let y = choose|y: int| 0 <= y < before.len() && before[y] == ids[x];
                        assert(placed[y] == ids[x]);
                        assert(placed.contains(ids[x]));
                    } else {
                        assert(placed[before.len() as int] == ids[x]);
                        assert(placed.contains(ids[x]));
                    }
                };
            }
            count = count + 1;
        } else {
            assert(placed.contains(ids[k as int]));
            assert(total =~= placed + unplaced(ids.skip(k + 1), placed));
        }
        k = k + 1;
    }
    proof {
        assert(ids.skip(n as int).len() == 0);
        assert(unplaced(ids.skip(n as int), placed) =~= Seq::<Seq<char>>::empty());
        assert(total =~= placed);
    }
    positions
}

} // verus!

verus! {

/// How many tasks Kahn's steps place before none is ready.
pub open spec fn kahn_count(ids: Seq<Seq<char>>, tasks: Seq<TaskSummary>, placed: Seq<Seq<char>>, fuel: nat) -> nat
    decreases fuel,
{
    if fuel == 0 {
        placed.len()
    } else {
        match first_ready(ids, tasks, placed) {
            Some(n) => kahn_count(ids, tasks, placed.push(n), (fuel - 1) as nat),
            None => placed.len(),
        }
    }
}

/// How many tasks of the run are placed because their dependencies were.
pub open spec fn placed_count(tasks: Seq<TaskSummary>) -> nat {
    let ids = sorted_keys(spec_task_index(tasks).dom());
    kahn_count(ids, tasks, Seq::empty(), ids.len())
}

proof fn lemma_first_ready_some(ids: Seq<Seq<char>>, tasks: Seq<TaskSummary>, placed: Seq<Seq<char>>)
    requires
        first_ready(ids, tasks, placed) is Some,
    ensures
        ids.contains(first_ready(ids, tasks, placed)->0),
        !placed.contains(first_ready(ids, tasks, placed)->0),
        deps_ready(task_of(tasks, first_ready(ids, tasks, placed)->0), spec_task_index(tasks).dom(), placed.to_set()),
    decreases ids.len(),
{
    if ids.len() > 0 {
        if !placed.contains(ids[0]) && deps_ready(task_of(tasks, ids[0]), spec_task_index(tasks).dom(), placed.to_set()) {
            assert(ids.contains(ids[0]));
        } else {
            let t = ids.drop_first();
            lemma_first_ready_some(t, tasks, placed);
            let n = first_ready(t, tasks, placed)->0;
            let k = choose|k: int| 0 <= k < t.len() && t[k] == n;
            assert(ids[k + 1] == n);
        }
    }
}

proof fn lemma_first_ready_none(ids: Seq<Seq<char>>, tasks: Seq<TaskSummary>, placed: Seq<Seq<char>>)
    requires
        first_ready(ids, tasks, placed) is None,
    ensures
        forall|k: int| 0 <= k < ids.len() && !placed.contains(#[trigger] ids[k])
            ==> !deps_ready(task_of(tasks, ids[k]), spec_task_index(tasks).dom(), placed.to_set()),
    decreases ids.len(),
{
    if ids.len() > 0 {
        let t = ids.drop_first();
        lemma_first_ready_none(t, tasks, placed);
        assert forall|k: int| 0 <= k < ids.len() && !placed.contains(#[trigger] ids[k])
            implies !deps_ready(task_of(tasks, ids[k]), spec_task_index(tasks).dom(), placed.to_set()) by {
            if k > 0 {
                assert(ids[k] == t[k - 1]);
            }
        };
    }
}

proof fn lemma_unplaced_members(ids: Seq<Seq<char>>, placed: Seq<Seq<char>>)
    ensures
        forall|x: Seq<char>| #[trigger] unplaced(ids, placed).contains(x) <==> ids.contains(x) && !placed.contains(x),
        ids.no_duplicates() ==> unplaced(ids, placed).no_duplicates(),
    decreases ids.len(),
{
    if ids.len() > 0 {
        let t = ids.drop_first();
        lemma_unplaced_members(t, placed);
        let head: Seq<Seq<char>> = if placed.contains(ids[0]) { Seq::empty() } else { seq![ids[0]] };
        let u = unplaced(ids, placed);
        assert(u == head + unplaced(t, placed));
        assert forall|x: Seq<char>| u.contains(x) <==> ids.contains(x) && !placed.contains(x) by {
            if u.contains(x) {
                let k = choose|k: int| 0 <= k < u.len() && u[k] == x;
                if k >= head.len() {
                    assert(unplaced(t, placed)[k - head.len()] == x);
                    assert(unplaced(t, placed).contains(x));
                    assert(t.contains(x));
                    let j = choose|j: int| 0 <= j < t.len() && t[j] == x;
                    assert(ids[j + 1] == x);
                } else {
                    assert(head.len() == 1);
                    assert(u[k] == head[k]);
                    assert(head[0] == ids[0]);
                    assert(ids[0] == x);
                    assert(ids.contains(ids[0]));
                }
            }
            if ids.contains(x) && !placed.contains(x) {
                let k = choose|k: int| 0 <= k < ids.len() && ids[k] == x;
                if k == 0 {
                    assert(u[0] == x);
                } else {
                    assert(t[k - 1] == x);
                    assert(unplaced(t, placed).contains(x));
                    let j = choose|j: int| 0 <= j < unplaced(t, placed).len() && unplaced(t, placed)[j] == x;
                    assert(u[j + head.len()] == x);
                }
            }
        };
        if ids.no_duplicates() {
            assert(t.no_duplicates()) by {
                assert forall|a: int, b: int| 0 <= a < t.len() && 0 <= b < t.len() && a != b implies t[a] != t[b] by {
                    assert(t[a] == ids[a + 1] && t[b] == ids[b + 1]);
                };
            };
            assert(!t.contains(ids[0])) by {
                if t.contains(ids[0]) {
                    let j = choose|j: int| 0 <= j < t.len() && t[j] == ids[0];
                    assert(ids[j + 1] == ids[0]);
                }
            };
            let r = unplaced(t, placed);
            assert forall|a: int, b: int| 0 <= a < u.len() && 0 <= b < u.len() && a != b implies u[a] != u[b] by {
                if head.len() == 1 && (a == 0 || b == 0) {
                    let o = if a == 0 { b } else { a };
                    assert(u[o] == r[o - 1]);
                    assert(r.contains(u[o]));
                } else {
                    assert(u[a] == r[a - head.len()] && u[b] == r[b - head.len()]);
                }
            };
        }
    }
}

#[verifier::spinoff_prover]
proof fn lemma_kahn_shape(ids: Seq<Seq<char>>, tasks: Seq<TaskSummary>, placed: Seq<Seq<char>>, fuel: nat)
    requires
        ids.no_duplicates(),
        placed.no_duplicates(),
        forall|x: Seq<char>| placed.contains(x) ==> ids.contains(x),
        fuel >= unplaced(ids, placed).len(),
    ensures
        ({
            let r = kahn(ids, tasks, placed, fuel);
            let m = kahn_count(ids, tasks, placed, fuel);
            &&& placed.len() <= m <= r.len()
            &&& r.take(placed.len() as int) == placed
            &&& r.no_duplicates()
            &&& forall|x: Seq<char>| r.contains(x) <==> ids.contains(x)
            &&& forall|i: int| placed.len() <= i < m ==> deps_ready(
                task_of(tasks, #[trigger] r[i]),
                spec_task_index(tasks).dom(),
                r.take(i).to_set(),
            )
            &&& first_ready(ids, tasks, r.take(m as int)) is None
            &&& r.skip(m as int) == unplaced(ids, r.take(m as int))
        }),
    decreases fuel,
{
    lemma_unplaced_members(ids, placed);
    let u = unplaced(ids, placed);
    let ready = first_ready(ids, tasks, placed);
    if fuel == 0 || ready is None {
        let r = placed + u;
        assert(r.take(placed.len() as int) =~= placed);
        assert(r.skip(placed.len() as int) =~= u);
        if fuel == 0 && ready is Some {
            lemma_first_ready_some(ids, tasks, placed);
            assert(u.contains(ready->0));
            assert(false);
        }
        assert forall|a: int, b: int| 0 <= a < r.len() && 0 <= b < r.len() && a != b implies r[a] != r[b] by {
            if a < placed.len() && b >= placed.len() {
                assert(u.contains(r[b]));
                assert(placed.contains(r[a]));
            } else if b < placed.len() && a >= placed.len() {
                assert(u.contains(r[a]));
                assert(placed.contains(r[b]));
            }
        };
        assert forall|x: Seq<char>| r.contains(x) <==> ids.contains(x) by {
            if r.contains(x) {
                let k = choose|k: int| 0 <= k < r.len() && r[k] == x;
                if k < placed.len() {
                    assert(placed.contains(x));
                } else {
                    assert(u.contains(x));
                }
            }
            if ids.contains(x) {
                if placed.contains(x) {
                    let k = choose|k: int| 0 <= k < placed.len() && placed[k] == x;
                    assert(r[k] == x);
                } else {
                    assert(u.contains(x));
                    let k = choose|k: int| 0 <= k < u.len() && u[k] == x;
                    assert(r[k + placed.len()] == x);
                }
            }
        };
    } else {
        let n = ready->0;
        lemma_first_ready_some(ids, tasks, placed);
        lemma_unplaced_len(ids, placed, n);
        let next = placed.push(n);
        assert(next[placed.len() as int] == n);
        assert forall|a: int, b: int| 0 <= a < next.len() && 0 <= b < next.len() && a != b implies next[a] != next[b] by {
            if a == placed.len() {
                assert(placed.contains(next[b]));
            } else if b == placed.len() {
                assert(placed.contains(next[a]));
            } else {
                assert(next[a] == placed[a] && next[b] == placed[b]);
            }
        };
        assert forall|x: Seq<char>| next.contains(x) implies ids.contains(x) by {
            let k = choose|k: int| 0 <= k < next.len() && next[k] == x;
            if k < placed.len() {
                assert(placed[k] == x);
                assert(placed.contains(x));
            }
        };
        lemma_kahn_shape(ids, tasks, next, (fuel - 1) as nat);
        let r = kahn(ids, tasks, placed, fuel);
        let m = kahn_count(ids, tasks, placed, fuel);
        assert(r == kahn(ids, tasks, next, (fuel - 1) as nat));
        assert(r.take(next.len() as int) == next);
        assert(r.take(placed.len() as int) =~= next.take(placed.len() as int));
        assert(next.take(placed.len() as int) =~= placed);
        assert(r[placed.len() as int] == n) by {
            assert(r.take(next.len() as int)[placed.len() as int] == n);
        };
        assert forall|i: int| placed.len() <= i < m implies deps_ready(
            task_of(tasks, #[trigger] r[i]),
            spec_task_index(tasks).dom(),
            r.take(i).to_set(),
        ) by {
            if i == placed.len() {
                assert(r.take(i) =~= placed);
            }
        };
    }
}

/// The dependency order of a run lists each of its tasks once. It starts
/// with the tasks placed because all their dependencies in the run were
/// placed before them, smallest id first at each step; the tasks that never
/// become ready (in a cycle, or with a dependency listed twice) follow in id
/// order. `map` is the run's task index, as `task_map` builds it.
pub proof fn law_topological_order(tasks: Seq<TaskSummary>, map: &SortedMap<usize>)
    requires
        map.wf(),
        map@ == spec_task_index(tasks),
    ensures
        ({
            let order = spec_topological_order(tasks);
            let m = placed_count(tasks);
            let ids = spec_task_index(tasks).dom();
            &&& order.no_duplicates()
            &&& forall|x: Seq<char>| order.contains(x) <==> ids.contains(x)
            &&& m <= order.len()
            &&& forall|i: int| 0 <= i < m ==> deps_ready(task_of(tasks, #[trigger] order[i]), ids, order.take(i).to_set())
            &&& forall|i: int| m <= i < order.len() ==> !deps_ready(task_of(tasks, #[trigger] order[i]), ids, order.take(m as int).to_set())
            &&& forall|i: int, j: int| m <= i < j < order.len() ==> seq_lt(#[trigger] order[i], #[trigger] order[j])
        }),
{
    map.lemma_key_order();
    map.lemma_shape();
    let ids = map.key_seq();
    assert(ids == sorted_keys(spec_task_index(tasks).dom()));
    assert(ids.no_duplicates()) by {
        assert forall|a: int, b: int| 0 <= a < ids.len() && 0 <= b < ids.len() && a != b implies ids[a] != ids[b] by {
            if a < b {
                crate::text::lemma_seq_lt_irreflexive(ids[a]);
            } else {
                crate::text::lemma_seq_lt_irreflexive(ids[b]);
            }
        };
    };
    lemma_unplaced_none(ids);
    lemma_kahn_shape(ids, tasks, Seq::empty(), ids.len());
    let order = spec_topological_order(tasks);
    let m = placed_count(tasks);
    assert(order.take(0) =~= Seq::<Seq<char>>::empty());
    assert forall|x: Seq<char>| order.contains(x) <==> spec_task_index(tasks).dom().contains(x) by {
        assert(ids.contains(x) == map.key_seq().contains(x));
        assert(map@.dom().contains(x) == map.key_seq().contains(x));
    };
    let placed = order.take(m as int);
    lemma_first_ready_none(ids, tasks, placed);
    lemma_unplaced_members(ids, placed);
    assert forall|i: int| m <= i < order.len() implies !deps_ready(task_of(tasks, #[trigger] order[i]), spec_task_index(tasks).dom(), placed.to_set()) by {
        let x = order[i];
        assert(order.skip(m as int)[i - m] == x);
        assert(unplaced(ids, placed).contains(x));
        let k = choose|k: int| 0 <= k < ids.len() && ids[k] == x;
        assert(!placed.contains(ids[k]));
    };
    assert forall|i: int, j: int| m <= i < j < order.len() implies seq_lt(#[trigger] order[i], #[trigger] order[j]) by {
        lemma_unplaced_sorted(ids, placed);
        assert(order[i] == order.skip(m as int)[i - m]);
        assert(order[j] == order.skip(m as int)[j - m]);
    };
}

proof fn lemma_unplaced_sorted(ids: Seq<Seq<char>>, placed: Seq<Seq<char>>)
    requires
        crate::map::strictly_sorted(ids),
    ensures
        crate::map::strictly_sorted(unplaced(ids, placed)),
    decreases ids.len(),
{
    if ids.len() > 0 {
        let t = ids.drop_first();
        assert(crate::map::strictly_sorted(t)) by {
            assert forall|a: int, b: int| 0 <= a < b < t.len() implies seq_lt(t[a], t[b]) by {
                assert(t[a] == ids[a + 1] && t[b] == ids[b + 1]);
            };
        };
        lemma_unplaced_sorted(t, placed);
        lemma_unplaced_members(t, placed);
        let r = unplaced(t, placed);
        let head: Seq<Seq<char>> = if placed.contains(ids[0]) { Seq::empty() } else { seq![ids[0]] };
        let u = head + r;
        assert(u == unplaced(ids, placed));
        assert forall|a: int, b: int| 0 <= a < b < u.len() implies seq_lt(u[a], u[b]) by {
            if head.len() == 1 && a == 0 {
                assert(u[b] == r[b - 1]);
                assert(r.contains(u[b]));
                assert(t.contains(u[b]));
                let k = choose|k: int| 0 <= k < t.len() && t[k] == u[b];
                assert(ids[k + 1] == u[b]);
            } else {
                assert(u[a] == r[a - head.len()] && u[b] == r[b - head.len()]);
            }
        };
    }
}

} // verus!
