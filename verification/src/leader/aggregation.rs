//! Object-store responses of several workers, folded into one.

use crate::ids::SequenceHash;
use crate::ordered::{
    distinct_up_to, firsts, pairs_map, pairs_map_holds_the_pairs, KeyMap, KeySet,
};
use vstd::prelude::*;

verus! {

/// Whether one worker answered every requested hash exactly once, and no other.
pub open spec fn answers_all<V>(
    requested: Seq<SequenceHash>,
    answers: Seq<(SequenceHash, V)>,
) -> bool {
    &&& distinct_up_to(firsts(answers), answers.len() as int)
    &&& firsts(answers).to_set() == requested.to_set()
}

/// Whether the responses can be used: there is a worker, no hash was requested twice, and every
/// worker answered every hash exactly once.
pub open spec fn usable<V>(
    requested: Seq<SequenceHash>,
    workers: Seq<Vec<(SequenceHash, V)>>,
) -> bool {
    &&& workers.len() > 0
    &&& distinct_up_to(requested, requested.len() as int)
    &&& forall|w: int| 0 <= w < workers.len() ==> answers_all(requested, (#[trigger] workers[w])@)
}

/// What a worker answered for a hash.
pub open spec fn answer_of<V>(
    workers: Seq<Vec<(SequenceHash, V)>>,
    worker: int,
    hash: SequenceHash,
) -> V {
    pairs_map(workers[worker]@)[hash]
}

/// Whether a map holds the answers of a worker that answered every hash.
spec fn folded<V>(
    requested: Seq<SequenceHash>,
    answers: Seq<(SequenceHash, V)>,
    map: Map<SequenceHash, V>,
) -> bool {
    &&& answers_all(requested, answers)
    &&& map == pairs_map(answers)
    &&& map.dom() == requested.to_set()
}

/// The answers of every worker by hash, where they can be used.
fn answers_by_hash<V>(
    requested: &[SequenceHash],
    workers: Vec<Vec<(SequenceHash, V)>>,
) -> (r: Option<Vec<KeyMap<SequenceHash, V>>>)
    ensures
        r is Some <==> usable(requested@, workers@),
        r is Some ==> r->Some_0@.len() == workers@.len() && forall|w: int|
            0 <= w < workers@.len() ==> (#[trigger] r->Some_0@[w])@ == pairs_map(workers@[w]@)
                && r->Some_0@[w]@.dom() == requested@.to_set(),
{
    let ghost all = workers@;
    if workers.len() == 0 {
        return None;
    }
    let (known, distinct) = KeySet::from_keys(requested);
    if !distinct {
        return None;
    }
    let wanted: usize = known.len();
    let mut maps: Vec<KeyMap<SequenceHash, V>> = Vec::new();
    for answers in iter: workers.into_iter()
        invariant
            iter.seq() == all,
            all == workers@,
            maps@.len() == iter.index(),
            known@ == requested@.to_set(),
            known@.finite(),
            wanted == known@.len(),
            distinct_up_to(requested@, requested@.len() as int),
            all.len() > 0,
            forall|w: int|
                0 <= w < maps@.len() ==> folded(requested@, all[w]@, (#[trigger] maps@[w])@),
    {
        let ghost at = iter.index() as int;
        let ghost given = answers@;
        assert(given == all[at]@);
        proof {
            pairs_map_holds_the_pairs(given);
        }
        let map = match KeyMap::from_entries(answers) {
            Ok(map) => map,
            Err(_) => {
                proof {
                    let keys = firsts(given);
                    let p = choose|p: int| #[trigger] crate::ordered::first_repeat(keys, p);
                    let i = choose|i: int| 0 <= i < p && #[trigger] keys[i] == keys[p];
                    assert(keys[i] == keys[p]);
                    assert(!answers_all(requested@, all[at]@));
                }
                return None;
            },
        };
        let complete = holds_all(&map, requested);
        if map.len() != wanted || !complete {
            proof {
                if answers_all(requested@, all[at]@) {
                    assert(map@.dom() == requested@.to_set());
                }
                assert(!answers_all(requested@, all[at]@));
            }
            return None;
        }
        proof {
            assert(known@.subset_of(map@.dom())) by {
                assert forall|h: SequenceHash| known@.contains(h) implies map@.dom().contains(
                    h,
                ) by {
                    assert(requested@.contains(h));
                }
            }
            vstd::set_lib::lemma_subset_equality(known@, map@.dom());
            assert(map@ == pairs_map(given));
            assert(answers_all(requested@, all[at]@));
        }
        assert(folded(requested@, all[at]@, map@));
        maps.push(map);
    }
    proof {
        assert forall|w: int| 0 <= w < all.len() implies answers_all(
            requested@,
            (#[trigger] all[w])@,
        ) by {
            assert(folded(requested@, all[w]@, maps@[w]@));
        }
    }
    Some(maps)
}

/// Whether a map has an entry for each of some hashes.
fn holds_all<V>(map: &KeyMap<SequenceHash, V>, hashes: &[SequenceHash]) -> (r: bool)
    ensures
        r == forall|h: SequenceHash| hashes@.contains(h) ==> #[trigger] map@.contains_key(h),
{
    let mut at: usize = 0;
    while at < hashes.len()
        invariant
            at <= hashes@.len(),
            forall|i: int| 0 <= i < at ==> map@.contains_key(#[trigger] hashes@[i]),
        decreases hashes@.len() - at,
    {
        if !map.contains_key(&hashes[at]) {
            assert(hashes@.contains(hashes@[at as int]));
            assert(!map@.contains_key(hashes@[at as int]));
            return false;
        }
        at = at + 1;
    }
    true
}

/// The size that all workers report for an object, and none where they differ.
pub open spec fn agreed(
    workers: Seq<Vec<(SequenceHash, Option<usize>)>>,
    hash: SequenceHash,
) -> Option<usize> {
    if forall|w: int|
        0 <= w < workers.len() ==> #[trigger] answer_of(workers, w, hash) == answer_of(
            workers,
            0,
            hash,
        ) {
        answer_of(workers, 0, hash)
    } else {
        None
    }
}

/// The presence of some objects: an object is there with a size only if every worker says so, and
/// none is if a worker's response is malformed.
pub fn aggregate_object_presence(
    requested: &[SequenceHash],
    worker_results: Vec<Vec<(SequenceHash, Option<usize>)>>,
) -> (r: Vec<(SequenceHash, Option<usize>)>)
    ensures
        firsts(r@) == requested@,
        forall|i: int|
            0 <= i < r@.len() ==> (#[trigger] r@[i]).1 == if usable(
                requested@,
                worker_results@,
            ) {
                agreed(worker_results@, requested@[i])
            } else {
                None
            },
{
    let ghost workers = worker_results@;
    let maps = answers_by_hash(requested, worker_results);
    let mut out: Vec<(SequenceHash, Option<usize>)> = Vec::new();
    let mut at: usize = 0;
    while at < requested.len()
        invariant
            at <= requested@.len(),
            workers == worker_results@,
            out@.len() == at,
            maps is Some <==> usable(requested@, workers),
            maps is Some ==> maps->Some_0@.len() == workers.len() && forall|w: int|
                0 <= w < workers.len() ==> (#[trigger] maps->Some_0@[w])@ == pairs_map(
                    workers[w]@,
                ) && maps->Some_0@[w]@.dom() == requested@.to_set(),
            forall|i: int|
                0 <= i < at ==> (#[trigger] out@[i]) == (
                    requested@[i],
                    if usable(requested@, workers) {
                        agreed(workers, requested@[i])
                    } else {
                        None
                    },
                ),
        decreases requested@.len() - at,
    {
        let hash = requested[at];
        assert(requested@.contains(hash));
        let size = match &maps {
            Some(maps) => presence_of(maps.as_slice(), &hash, Ghost(workers)),
            None => None,
        };
        out.push((hash, size));
        at = at + 1;
    }
    assert(firsts(out@) =~= requested@);
    out
}

fn presence_of(
    maps: &[KeyMap<SequenceHash, Option<usize>>],
    hash: &SequenceHash,
    Ghost(workers): Ghost<Seq<Vec<(SequenceHash, Option<usize>)>>>,
) -> (r: Option<usize>)
    requires
        maps@.len() > 0,
        maps@.len() == workers.len(),
        forall|w: int|
            0 <= w < workers.len() ==> (#[trigger] maps@[w])@ == pairs_map(workers[w]@)
                && maps@[w]@.contains_key(*hash),
    ensures
        r == agreed(workers, *hash),
{
    let first = *maps[0].get(hash).unwrap();
    assert(first == answer_of(workers, 0, *hash));
    let mut at: usize = 1;
    while at < maps.len()
        invariant
            1 <= at <= maps@.len(),
            maps@.len() == workers.len(),
            first == answer_of(workers, 0, *hash),
            forall|w: int|
                0 <= w < workers.len() ==> (#[trigger] maps@[w])@ == pairs_map(workers[w]@)
                    && maps@[w]@.contains_key(*hash),
            forall|w: int| 0 <= w < at ==> #[trigger] answer_of(workers, w, *hash) == first,
        decreases maps@.len() - at,
    {
        assert(maps@[at as int]@ == pairs_map(workers[at as int]@));
        let size = *maps[at].get(hash).unwrap();
        assert(size == answer_of(workers, at as int, *hash));
        if size != first {
            return None;
        }
        at = at + 1;
    }
    first
}

/// Whether every worker succeeded with an object.
pub open spec fn all_succeeded(workers: Seq<Vec<(SequenceHash, bool)>>, hash: SequenceHash) -> bool {
    forall|w: int| 0 <= w < workers.len() ==> #[trigger] answer_of(workers, w, hash)
}

/// A worker's results as hashes with success or failure.
pub open spec fn flagged(results: Seq<Result<SequenceHash, SequenceHash>>) -> Seq<
    (SequenceHash, bool),
> {
    Seq::new(
        results.len(),
        |i: int|
            match results[i] {
                Ok(hash) => (hash, true),
                Err(hash) => (hash, false),
            },
    )
}

/// Whether the result for a hash is a success: every worker answered every requested hash exactly
/// once, and all of them succeeded with this one.
pub open spec fn object_succeeded(
    requested: Seq<SequenceHash>,
    workers: Seq<Vec<Result<SequenceHash, SequenceHash>>>,
    hash: SequenceHash,
) -> bool {
    &&& workers.len() > 0
    &&& distinct_up_to(requested, requested.len() as int)
    &&& forall|w: int|
        0 <= w < workers.len() ==> answers_all(requested, flagged((#[trigger] workers[w])@))
            && pairs_map(flagged(workers[w]@))[hash]
}

fn flag_results(results: &[Result<SequenceHash, SequenceHash>]) -> (r: Vec<(SequenceHash, bool)>)
    ensures
        r@ == flagged(results@),
{
    let mut flags: Vec<(SequenceHash, bool)> = Vec::new();
    let mut at: usize = 0;
    while at < results.len()
        invariant
            at <= results@.len(),
            flags@ == flagged(results@).subrange(0, at as int),
        decreases results@.len() - at,
    {
        match &results[at] {
            Ok(hash) => flags.push((*hash, true)),
            Err(hash) => flags.push((*hash, false)),
        }
        at = at + 1;
        assert(flags@ =~= flagged(results@).subrange(0, at as int));
    }
    assert(flags@ =~= flagged(results@));
    flags
}

/// The results for some objects: an object succeeds only if every worker says so, and none does if
/// a worker's response is malformed.
pub fn aggregate_object_results(
    requested: &[SequenceHash],
    worker_results: Vec<Vec<Result<SequenceHash, SequenceHash>>>,
) -> (r: Vec<Result<SequenceHash, SequenceHash>>)
    ensures
        r@.len() == requested@.len(),
        forall|i: int|
            0 <= i < r@.len() ==> #[trigger] r@[i] == if object_succeeded(
                requested@,
                worker_results@,
                requested@[i],
            ) {
                Ok::<SequenceHash, SequenceHash>(requested@[i])
            } else {
                Err(requested@[i])
            },
{
    let mut flags: Vec<Vec<(SequenceHash, bool)>> = Vec::new();
    let mut worker: usize = 0;
    while worker < worker_results.len()
        invariant
            worker <= worker_results@.len(),
            flags@.len() == worker,
            forall|w: int|
                0 <= w < worker ==> (#[trigger] flags@[w])@ == flagged(worker_results@[w]@),
        decreases worker_results@.len() - worker,
    {
        flags.push(flag_results(worker_results[worker].as_slice()));
        worker = worker + 1;
    }
    let ghost workers = flags@;
    let maps = answers_by_hash(requested, flags);
    let mut out: Vec<Result<SequenceHash, SequenceHash>> = Vec::new();
    let mut at: usize = 0;
    while at < requested.len()
        invariant
            at <= requested@.len(),
            workers.len() == worker_results@.len(),
            forall|w: int|
                0 <= w < workers.len() ==> (#[trigger] workers[w])@ == flagged(
                    worker_results@[w]@,
                ),
            out@.len() == at,
            maps is Some <==> usable(requested@, workers),
            maps is Some ==> maps->Some_0@.len() == workers.len() && forall|w: int|
                0 <= w < workers.len() ==> (#[trigger] maps->Some_0@[w])@ == pairs_map(
                    workers[w]@,
                ) && maps->Some_0@[w]@.dom() == requested@.to_set(),
            forall|i: int|
                0 <= i < at ==> #[trigger] out@[i] == if object_succeeded(
                    requested@,
                    worker_results@,
                    requested@[i],
                ) {
                    Ok::<SequenceHash, SequenceHash>(requested@[i])
                } else {
                    Err(requested@[i])
                },
        decreases requested@.len() - at,
    {
        let hash = requested[at];
        assert(requested@.contains(hash));
        let succeeded = match &maps {
            Some(maps) => success_of(maps.as_slice(), &hash, Ghost(workers)),
            None => false,
        };
        proof {
            let whole = object_succeeded(requested@, worker_results@, hash);
            if whole {
                assert forall|w: int| 0 <= w < workers.len() implies answers_all(
                    requested@,
                    (#[trigger] workers[w])@,
                ) by {
                    assert(answers_all(requested@, flagged(worker_results@[w]@)));
                }
                assert(usable(requested@, workers));
                assert forall|w: int| 0 <= w < workers.len() implies #[trigger] answer_of(
                    workers,
                    w,
                    hash,
                ) by {
                    assert(workers[w]@ == flagged(worker_results@[w]@));
                    assert(pairs_map(flagged(worker_results@[w]@))[hash]);
                }
                assert(succeeded);
            }
            if succeeded {
                assert forall|w: int| 0 <= w < worker_results@.len() implies answers_all(
                    requested@,
                    flagged((#[trigger] worker_results@[w])@),
                ) && pairs_map(flagged(worker_results@[w]@))[hash] by {
                    assert(workers[w]@ == flagged(worker_results@[w]@));
                    assert(answers_all(requested@, workers[w]@));
                    assert(answer_of(workers, w, hash));
                }
                assert(whole);
            }
        }
        if succeeded {
            out.push(Ok(hash));
        } else {
            out.push(Err(hash));
        }
        at = at + 1;
    }
    out
}

fn success_of(
    maps: &[KeyMap<SequenceHash, bool>],
    hash: &SequenceHash,
    Ghost(workers): Ghost<Seq<Vec<(SequenceHash, bool)>>>,
) -> (r: bool)
    requires
        maps@.len() == workers.len(),
        forall|w: int|
            0 <= w < workers.len() ==> (#[trigger] maps@[w])@ == pairs_map(workers[w]@)
                && maps@[w]@.contains_key(*hash),
    ensures
        r == all_succeeded(workers, *hash),
{
    let mut at: usize = 0;
    while at < maps.len()
        invariant
            at <= maps@.len(),
            maps@.len() == workers.len(),
            forall|w: int|
                0 <= w < workers.len() ==> (#[trigger] maps@[w])@ == pairs_map(workers[w]@)
                    && maps@[w]@.contains_key(*hash),
            forall|w: int| 0 <= w < at ==> #[trigger] answer_of(workers, w, *hash),
        decreases maps@.len() - at,
    {
        assert(maps@[at as int]@ == pairs_map(workers[at as int]@));
        let succeeded = *maps[at].get(hash).unwrap();
        assert(succeeded == answer_of(workers, at as int, *hash));
        if !succeeded {
            return false;
        }
        at = at + 1;
    }
    true
}

/// An object is there with a size exactly if every worker answered with that size.
pub proof fn sizes_are_those_all_workers_report(
    requested: Seq<SequenceHash>,
    workers: Seq<Vec<(SequenceHash, Option<usize>)>>,
    hash: SequenceHash,
    size: usize,
)
    requires
        usable(requested, workers),
        requested.contains(hash),
    ensures
        agreed(workers, hash) == Some(size) <==> forall|w: int|
            0 <= w < workers.len() ==> (#[trigger] workers[w])@.contains((hash, Some(size))),
{
    assert forall|w: int| 0 <= w < workers.len() implies ((#[trigger] workers[w])@.contains(
        (hash, Some(size)),
    ) <==> answer_of(workers, w, hash) == Some(size)) by {
        answers_are_listed(requested, workers[w]@, hash, Some(size));
    }
    if forall|w: int|
        0 <= w < workers.len() ==> (#[trigger] workers[w])@.contains((hash, Some(size))) {
        assert(workers[0]@.contains((hash, Some(size))));
        assert forall|w: int| 0 <= w < workers.len() implies #[trigger] answer_of(workers, w, hash)
            == answer_of(workers, 0, hash) by {
            assert(workers[w]@.contains((hash, Some(size))));
        }
    }
    if agreed(workers, hash) == Some(size) {
        assert forall|w: int| 0 <= w < workers.len() implies (#[trigger] workers[w])@.contains(
            (hash, Some(size)),
        ) by {
            assert(answer_of(workers, w, hash) == answer_of(workers, 0, hash));
        }
    }
}

/// An object succeeds exactly if no hash was requested twice, there is a worker, every worker
/// answered every requested hash once and no other, and every worker succeeded with this one.
pub proof fn objects_succeed_where_all_workers_do(
    requested: Seq<SequenceHash>,
    workers: Seq<Vec<Result<SequenceHash, SequenceHash>>>,
    hash: SequenceHash,
)
    requires
        requested.contains(hash),
        workers.len() > 0,
        distinct_up_to(requested, requested.len() as int),
        forall|w: int|
            0 <= w < workers.len() ==> answers_all(requested, flagged((#[trigger] workers[w])@)),
    ensures
        object_succeeded(requested, workers, hash) <==> forall|w: int|
            0 <= w < workers.len() ==> (#[trigger] workers[w])@.contains(Ok(hash)),
        object_succeeded(requested, workers, hash) <==> forall|w: int|
            0 <= w < workers.len() ==> !(#[trigger] workers[w])@.contains(Err(hash)),
{
    assert forall|w: int| 0 <= w < workers.len() implies ((#[trigger] workers[w])@.contains(
        Ok(hash),
    ) <==> pairs_map(flagged(workers[w]@))[hash]) && (workers[w]@.contains(Err(hash))
        <==> !pairs_map(flagged(workers[w]@))[hash]) by {
        let results = workers[w]@;
        let flags = flagged(results);
        answers_are_listed(requested, flags, hash, true);
        answers_are_listed(requested, flags, hash, false);
        if results.contains(Ok(hash)) {
            let i = choose|i: int| 0 <= i < results.len() && results[i] == Ok::<
                SequenceHash,
                SequenceHash,
            >(hash);
            assert(flags[i] == (hash, true));
        }
        if results.contains(Err(hash)) {
            let i = choose|i: int| 0 <= i < results.len() && results[i] == Err::<
                SequenceHash,
                SequenceHash,
            >(hash);
            assert(flags[i] == (hash, false));
        }
        if flags.contains((hash, true)) {
            let i = choose|i: int| 0 <= i < flags.len() && flags[i] == (hash, true);
            assert(results[i] == Ok::<SequenceHash, SequenceHash>(hash));
        }
        if flags.contains((hash, false)) {
            let i = choose|i: int| 0 <= i < flags.len() && flags[i] == (hash, false);
            assert(results[i] == Err::<SequenceHash, SequenceHash>(hash));
        }
    }
}

proof fn answers_are_listed<V>(
    requested: Seq<SequenceHash>,
    answers: Seq<(SequenceHash, V)>,
    hash: SequenceHash,
    value: V,
)
    requires
        answers_all(requested, answers),
        requested.contains(hash),
    ensures
        answers.contains((hash, value)) <==> pairs_map(answers)[hash] == value,
{
    pairs_map_holds_the_pairs(answers);
    let hashes = firsts(answers);
    assert(requested.to_set().contains(hash));
    assert(hashes.to_set().contains(hash));
    assert(hashes.contains(hash));
    let at = choose|at: int| 0 <= at < hashes.len() && hashes[at] == hash;
    assert(pairs_map(answers)[answers[at].0] == answers[at].1);
    if answers.contains((hash, value)) {
        let i = choose|i: int| 0 <= i < answers.len() && answers[i] == (hash, value);
        assert(pairs_map(answers)[answers[i].0] == answers[i].1);
    }
    if pairs_map(answers)[hash] == value {
        assert(answers[at] == (hash, value));
    }
}

} // verus!
