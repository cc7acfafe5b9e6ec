//! One round of lookups in the tracker: every outcome is collected, one
//! failure fails the round, and what was found comes back once per identifier
//! in ascending order.

use vstd::prelude::*;

verus! {

/// A record of the tracker, known by its identifier.
pub trait Identified {
    /// The identifier of the record.
    spec fn spec_id(&self) -> i64;

    fn id(&self) -> (r: i64)
        ensures
            r == self.spec_id(),
    ;
}

/// A lookup that failed: the identifier asked for and what went wrong.
#[derive(Debug, PartialEq, Eq)]
pub struct FetchFailure {
    pub id: i64,
    pub cause: String,
}

/// The failures of one round, in the order of the lookups. Never empty.
#[derive(Debug, PartialEq, Eq)]
pub struct RoundError {
    pub failures: Vec<FetchFailure>,
}

/// The records that were found, in the order of the lookups.
pub open spec fn found<T>(outcomes: Seq<Result<T, FetchFailure>>) -> Seq<T>
    decreases outcomes.len(),
{
    if outcomes.len() == 0 {
        Seq::empty()
    } else {
        match outcomes.last() {
            Ok(record) => found(outcomes.drop_last()).push(record),
            Err(_) => found(outcomes.drop_last()),
        }
    }
}

/// The failures, in the order of the lookups.
pub open spec fn failed<T>(outcomes: Seq<Result<T, FetchFailure>>) -> Seq<FetchFailure>
    decreases outcomes.len(),
{
    if outcomes.len() == 0 {
        Seq::empty()
    } else {
        match outcomes.last() {
            Ok(_) => failed(outcomes.drop_last()),
            Err(failure) => failed(outcomes.drop_last()).push(failure),
        }
    }
}

/// Whether `records` rise strictly by identifier.
pub open spec fn ascending<T: Identified>(records: Seq<T>) -> bool {
    forall|a: int, b: int|
        0 <= a < b < records.len() ==> (#[trigger] records[a]).spec_id() < (
        #[trigger] records[b]).spec_id()
}

/// Whether `record` is the first of `source` with its identifier.
pub open spec fn first_with_id<T: Identified>(source: Seq<T>, record: T) -> bool {
    exists|j: int|
        0 <= j < source.len() && #[trigger] source[j] == record && forall|k: int|
            0 <= k < j ==> (#[trigger] source[k]).spec_id() != record.spec_id()
}

/// Whether one of `records` has the identifier `id`.
pub open spec fn holds_id<T: Identified>(records: Seq<T>, id: i64) -> bool {
    exists|k: int| 0 <= k < records.len() && (#[trigger] records[k]).spec_id() == id
}

/// Whether `records` are `source` once per identifier, ascending: the
/// identifiers rise strictly, each record is the first of `source` with its
/// identifier, and no identifier of `source` is missing.
pub open spec fn distinct_ascending<T: Identified>(records: Seq<T>, source: Seq<T>) -> bool {
    &&& ascending(records)
    &&& forall|k: int| 0 <= k < records.len() ==> first_with_id(source, #[trigger] records[k])
    &&& forall|j: int| 0 <= j < source.len() ==> holds_id(records, (#[trigger] source[j]).spec_id())
}

/// What a round hands back for `outcomes`.
pub open spec fn round_result<T: Identified>(
    outcomes: Seq<Result<T, FetchFailure>>,
    result: Result<Vec<T>, RoundError>,
) -> bool {
    match result {
        Ok(records) => failed(outcomes).len() == 0 && distinct_ascending(records@, found(outcomes)),
        Err(error) => error.failures@.len() > 0 && error.failures@ == failed(outcomes),
    }
}

/// A record whose identifier is already there changes nothing.
proof fn lemma_duplicate_skipped<T: Identified>(records: Seq<T>, source: Seq<T>, record: T, at: int)
    requires
        distinct_ascending(records, source),
        0 <= at < records.len(),
        records[at].spec_id() == record.spec_id(),
    ensures
        distinct_ascending(records, source.push(record)),
{
    let grown = source.push(record);
    assert forall|k: int| 0 <= k < records.len() implies first_with_id(
        grown,
        #[trigger] records[k],
    ) by {
        lemma_first_stays(source, record, records[k]);
    }
    assert forall|j: int| 0 <= j < grown.len() implies holds_id(
        records,
        (#[trigger] grown[j]).spec_id(),
    ) by {
        if j == source.len() {
            assert(records[at].spec_id() == grown[j].spec_id());
        } else {
            assert(grown[j] == source[j]);
            assert(holds_id(records, source[j].spec_id()));
        }
    }
}

/// Where the identifiers below `at` are smaller and those from `at` on are
/// larger, a record put in at `at` keeps the identifiers rising.
proof fn lemma_insert_ascending<T: Identified>(records: Seq<T>, record: T, at: int)
    requires
        ascending(records),
        0 <= at <= records.len(),
        forall|k: int| 0 <= k < at ==> (#[trigger] records[k]).spec_id() < record.spec_id(),
        forall|k: int|
            at <= k < records.len() ==> (#[trigger] records[k]).spec_id() > record.spec_id(),
    ensures
        ascending(records.insert(at, record)),
{
    let after = records.insert(at, record);
    assert forall|a: int, b: int| 0 <= a < b < after.len() implies (
    #[trigger] after[a]).spec_id() < (#[trigger] after[b]).spec_id() by {
        if a < at {
            assert(after[a] == records[a]);
        } else if a > at {
            assert(after[a] == records[a - 1]);
        }
        if b < at {
            assert(after[b] == records[b]);
        } else if b > at {
            assert(after[b] == records[b - 1]);
        }
    }
}

/// After a record with a new identifier is put in, each record is still the
/// first of the source with its identifier.
proof fn lemma_insert_first<T: Identified>(records: Seq<T>, source: Seq<T>, record: T, at: int)
    requires
        0 <= at <= records.len(),
        forall|k: int| 0 <= k < records.len() ==> first_with_id(source, #[trigger] records[k]),
        forall|j: int|
            0 <= j < source.len() ==> (#[trigger] source[j]).spec_id() != record.spec_id(),
    ensures
        forall|k: int|
            0 <= k < records.insert(at, record).len() ==> first_with_id(
                source.push(record),
                #[trigger] records.insert(at, record)[k],
            ),
{
    let after = records.insert(at, record);
    let grown = source.push(record);
    assert(after.len() == records.len() + 1);
    assert forall|k: int| 0 <= k < after.len() implies first_with_id(
        grown,
        #[trigger] after[k],
    ) by {
        if k == at {
            assert(after[k] == record);
            assert(grown[source.len() as int] == record);
            assert forall|m: int| 0 <= m < source.len() implies (#[trigger] grown[m]).spec_id()
                != record.spec_id() by {
                assert(grown[m] == source[m]);
            }
        } else if k < at {
            assert(after[k] == records[k]);
            lemma_first_stays(source, record, records[k]);
        } else {
            assert(after[k] == records[k - 1]);
            lemma_first_stays(source, record, records[k - 1]);
        }
    }
}

/// After a record is put in, every identifier of the grown source is there.
proof fn lemma_insert_covers<T: Identified>(records: Seq<T>, source: Seq<T>, record: T, at: int)
    requires
        0 <= at <= records.len(),
        forall|j: int|
            0 <= j < source.len() ==> holds_id(records, (#[trigger] source[j]).spec_id()),
    ensures
        forall|j: int|
            0 <= j < source.push(record).len() ==> holds_id(
                records.insert(at, record),
                (#[trigger] source.push(record)[j]).spec_id(),
            ),
{
    let after = records.insert(at, record);
    let grown = source.push(record);
    assert(after.len() == records.len() + 1);
    assert forall|j: int| 0 <= j < grown.len() implies holds_id(
        after,
        (#[trigger] grown[j]).spec_id(),
    ) by {
        if j == source.len() {
            assert(after[at] == record);
            assert(after[at].spec_id() == grown[j].spec_id());
        } else {
            assert(grown[j] == source[j]);
            assert(holds_id(records, source[j].spec_id()));
            let k = choose|k: int|
                0 <= k < records.len() && (#[trigger] records[k]).spec_id() == source[j].spec_id();
            if k < at {
                assert(after[k] == records[k]);
                assert(after[k].spec_id() == grown[j].spec_id());
            } else {
                assert(after[k + 1] == records[k]);
                assert(after[k + 1].spec_id() == grown[j].spec_id());
            }
        }
    }
}

/// A record with a new identifier, put in at its place, keeps the records
/// once per identifier and ascending.
proof fn lemma_insert_distinct<T: Identified>(records: Seq<T>, source: Seq<T>, record: T, at: int)
    requires
        distinct_ascending(records, source),
        0 <= at <= records.len(),
        forall|k: int| 0 <= k < at ==> (#[trigger] records[k]).spec_id() < record.spec_id(),
        forall|k: int|
            at <= k < records.len() ==> (#[trigger] records[k]).spec_id() > record.spec_id(),
    ensures
        distinct_ascending(records.insert(at, record), source.push(record)),
{
    lemma_insert_ascending(records, record, at);
    assert forall|j: int| 0 <= j < source.len() implies (#[trigger] source[j]).spec_id()
        != record.spec_id() by {
        assert(holds_id(records, source[j].spec_id()));
        let k = choose|k: int|
            0 <= k < records.len() && (#[trigger] records[k]).spec_id() == source[j].spec_id();
        assert(records[k].spec_id() != record.spec_id());
    }
    lemma_insert_first(records, source, record, at);
    lemma_insert_covers(records, source, record, at);
}

/// Puts `record` into `records` at its place by identifier, unless a record
/// with that identifier is there already.
fn insert_distinct<T: Identified>(records: &mut Vec<T>, record: T, Ghost(source): Ghost<Seq<T>>)
    requires
        distinct_ascending(old(records)@, source),
    ensures
        distinct_ascending(final(records)@, source.push(record)),
{
    let ghost before = records@;
    let key = record.id();
    let mut at: usize = 0;
    while at < records.len() && records[at].id() < key
        invariant
            records@ == before,
            at <= records@.len(),
            key == record.spec_id(),
            forall|k: int| 0 <= k < at ==> (#[trigger] records@[k]).spec_id() < key,
        decreases records@.len() - at,
    {
        at += 1;
    }
    if at < records.len() && records[at].id() == key {
        proof {
            lemma_duplicate_skipped(before, source, record, at as int);
        }
    } else {
        proof {
            assert forall|k: int| at <= k < before.len() implies (#[trigger] before[k]).spec_id()
                > key by {
                if k > at {
                    assert(before[at as int].spec_id() < before[k].spec_id());
                }
            }
            lemma_insert_distinct(before, source, record, at as int);
        }
        records.insert(at, record);
    }
}

/// The first record with some identifier stays the first when another record
/// is appended.
pub proof fn lemma_first_stays<T: Identified>(source: Seq<T>, appended: T, record: T)
    requires
        first_with_id(source, record),
    ensures
        first_with_id(source.push(appended), record),
{
    let grown = source.push(appended);
    let j = choose|j: int|
        0 <= j < source.len() && #[trigger] source[j] == record && forall|k: int|
            0 <= k < j ==> (#[trigger] source[k]).spec_id() != record.spec_id();
    assert(grown[j] == record);
    assert forall|k: int| 0 <= k < j implies (#[trigger] grown[k]).spec_id()
        != record.spec_id() by {
        assert(grown[k] == source[k]);
    }
}

/// A record of one sequence has its identifier in the other.
proof fn lemma_id_shared<T: Identified>(a: Seq<T>, b: Seq<T>, source: Seq<T>, k: int) -> (m: int)
    requires
        distinct_ascending(a, source),
        distinct_ascending(b, source),
        0 <= k < a.len(),
    ensures
        0 <= m < b.len(),
        b[m].spec_id() == a[k].spec_id(),
{
    assert(first_with_id(source, a[k]));
    let j = choose|j: int|
        0 <= j < source.len() && #[trigger] source[j] == a[k] && forall|i: int|
            0 <= i < j ==> (#[trigger] source[i]).spec_id() != a[k].spec_id();
    assert(holds_id(b, source[j].spec_id()));
    choose|m: int| 0 <= m < b.len() && (#[trigger] b[m]).spec_id() == source[j].spec_id()
}

/// Two sequences that hold the same source once per identifier, ascending,
/// agree on the identifier at each place.
proof fn lemma_ids_agree<T: Identified>(a: Seq<T>, b: Seq<T>, source: Seq<T>, k: int)
    requires
        distinct_ascending(a, source),
        distinct_ascending(b, source),
        0 <= k < a.len(),
        k < b.len(),
    ensures
        a[k].spec_id() == b[k].spec_id(),
    decreases k,
{
    if a[k].spec_id() < b[k].spec_id() {
        let m = lemma_id_shared(a, b, source, k);
        if m >= k {
            if m > k {
                assert(b[k].spec_id() < b[m].spec_id());
            }
        } else {
            lemma_ids_agree(a, b, source, m);
            assert(a[m].spec_id() < a[k].spec_id());
        }
    } else if b[k].spec_id() < a[k].spec_id() {
        let m = lemma_id_shared(b, a, source, k);
        if m >= k {
            if m > k {
                assert(a[k].spec_id() < a[m].spec_id());
            }
        } else {
            lemma_ids_agree(a, b, source, m);
            assert(b[m].spec_id() < b[k].spec_id());
        }
    }
}

/// The first of two such sequences is no longer than the second.
proof fn lemma_no_longer<T: Identified>(a: Seq<T>, b: Seq<T>, source: Seq<T>)
    requires
        distinct_ascending(a, source),
        distinct_ascending(b, source),
    ensures
        a.len() <= b.len(),
{
    if a.len() > b.len() {
        let k = b.len() as int;
        let m = lemma_id_shared(a, b, source, k);
        lemma_ids_agree(a, b, source, m);
        assert(a[m].spec_id() < a[k].spec_id());
    }
}

/// What a round hands back is determined by what was found: two sequences
/// that hold the same source once per identifier, ascending, are equal.
pub proof fn lemma_distinct_ascending_unique<T: Identified>(a: Seq<T>, b: Seq<T>, source: Seq<T>)
    requires
        distinct_ascending(a, source),
        distinct_ascending(b, source),
    ensures
        a == b,
{
    lemma_no_longer(a, b, source);
    lemma_no_longer(b, a, source);
    assert forall|k: int| 0 <= k < a.len() implies a[k] == b[k] by {
        lemma_ids_agree(a, b, source, k);
        assert(first_with_id(source, a[k]));
        assert(first_with_id(source, b[k]));
        let ja = choose|j: int|
            0 <= j < source.len() && #[trigger] source[j] == a[k] && forall|i: int|
                0 <= i < j ==> (#[trigger] source[i]).spec_id() != a[k].spec_id();
        let jb = choose|j: int|
            0 <= j < source.len() && #[trigger] source[j] == b[k] && forall|i: int|
                0 <= i < j ==> (#[trigger] source[i]).spec_id() != b[k].spec_id();
        if ja < jb {
            assert(source[ja].spec_id() != b[k].spec_id());
        } else if jb < ja {
            assert(source[jb].spec_id() != a[k].spec_id());
        }
    }
    assert(a =~= b);
}

/// Whether no two of `records` share an identifier.
pub open spec fn ids_distinct<T: Identified>(records: Seq<T>) -> bool {
    forall|a: int, b: int|
        0 <= a < b < records.len() ==> (#[trigger] records[a]).spec_id() != (
        #[trigger] records[b]).spec_id()
}

/// A round does not depend on the order in which the lookups come back: two
/// rounds that found the same records, each identifier once, hand back the
/// same sequence.
pub proof fn lemma_round_order_independent<T: Identified>(
    first: Seq<T>,
    first_source: Seq<T>,
    second: Seq<T>,
    second_source: Seq<T>,
)
    requires
        distinct_ascending(first, first_source),
        distinct_ascending(second, second_source),
        ids_distinct(first_source),
        forall|record: T| first_source.contains(record) <==> second_source.contains(record),
    ensures
        first == second,
{
    assert forall|k: int| 0 <= k < second.len() implies first_with_id(
        first_source,
        #[trigger] second[k],
    ) by {
        assert(first_with_id(second_source, second[k]));
        let in_second = choose|j: int|
            0 <= j < second_source.len() && #[trigger] second_source[j] == second[k] && forall|
                i: int,
            |
                0 <= i < j ==> (#[trigger] second_source[i]).spec_id() != second[k].spec_id();
        assert(second_source.contains(second[k]));
        assert(first_source.contains(second[k]));
        let j = choose|j: int| 0 <= j < first_source.len() && first_source[j] == second[k];
        assert forall|i: int| 0 <= i < j implies (#[trigger] first_source[i]).spec_id()
            != second[k].spec_id() by {
            assert(first_source[i].spec_id() != first_source[j].spec_id());
        }
    }
    assert forall|j: int| 0 <= j < first_source.len() implies holds_id(
        second,
        (#[trigger] first_source[j]).spec_id(),
    ) by {
        assert(first_source.contains(first_source[j]));
        assert(second_source.contains(first_source[j]));
        let i = choose|i: int| 0 <= i < second_source.len() && second_source[i] == first_source[j];
        assert(holds_id(second, second_source[i].spec_id()));
    }
    lemma_distinct_ascending_unique(first, second, first_source);
}

/// The failures of a round are the lookups that failed, no more and no fewer,
/// and what was found are the lookups that did not fail.
pub proof fn lemma_outcomes_are_split<T>(outcomes: Seq<Result<T, FetchFailure>>)
    ensures
        failed(outcomes).len() + found(outcomes).len() == outcomes.len(),
        forall|failure: FetchFailure|
            failed(outcomes).contains(failure) <==> outcomes.contains(
                Err::<T, FetchFailure>(failure),
            ),
        forall|record: T| found(outcomes).contains(record) <==> outcomes.contains(
            Ok::<T, FetchFailure>(record),
        ),
    decreases outcomes.len(),
{
    if outcomes.len() > 0 {
        let rest = outcomes.drop_last();
        let last = outcomes.last();
        lemma_outcomes_are_split(rest);
        assert forall|failure: FetchFailure|
            failed(outcomes).contains(failure) <==> outcomes.contains(
                Err::<T, FetchFailure>(failure),
            ) by {
            let wanted = Err::<T, FetchFailure>(failure);
            if failed(outcomes).contains(failure) {
                let m = choose|m: int|
                    0 <= m < failed(outcomes).len() && failed(outcomes)[m] == failure;
                if m < failed(rest).len() {
                    assert(failed(rest)[m] == failure);
                    assert(failed(rest).contains(failure));
                    assert(rest.contains(wanted));
                    let j = choose|j: int| 0 <= j < rest.len() && rest[j] == wanted;
                    assert(outcomes[j] == wanted);
                } else {
                    assert(outcomes[outcomes.len() - 1] == wanted);
                }
            }
            if outcomes.contains(wanted) {
                let j = choose|j: int| 0 <= j < outcomes.len() && outcomes[j] == wanted;
                if j < rest.len() {
                    assert(rest[j] == wanted);
                    assert(rest.contains(wanted));
                    assert(failed(rest).contains(failure));
                    let m = choose|m: int|
                        0 <= m < failed(rest).len() && failed(rest)[m] == failure;
                    assert(failed(outcomes)[m] == failure);
                } else {
                    assert(failed(outcomes)[failed(rest).len() as int] == failure);
                }
            }
        }
        assert forall|record: T| found(outcomes).contains(record) <==> outcomes.contains(
            Ok::<T, FetchFailure>(record),
        ) by {
            let wanted = Ok::<T, FetchFailure>(record);
            if found(outcomes).contains(record) {
                let m = choose|m: int|
                    0 <= m < found(outcomes).len() && found(outcomes)[m] == record;
                if m < found(rest).len() {
                    assert(found(rest)[m] == record);
                    assert(found(rest).contains(record));
                    assert(rest.contains(wanted));
                    let j = choose|j: int| 0 <= j < rest.len() && rest[j] == wanted;
                    assert(outcomes[j] == wanted);
                } else {
                    assert(outcomes[outcomes.len() - 1] == wanted);
                }
            }
            if outcomes.contains(wanted) {
                let j = choose|j: int| 0 <= j < outcomes.len() && outcomes[j] == wanted;
                if j < rest.len() {
                    assert(rest[j] == wanted);
                    assert(rest.contains(wanted));
                    assert(found(rest).contains(record));
                    let m = choose|m: int| 0 <= m < found(rest).len() && found(rest)[m] == record;
                    assert(found(outcomes)[m] == record);
                } else {
                    assert(found(outcomes)[found(rest).len() as int] == record);
                }
            }
        }
    }
}

/// Ends a round: with one failure or more, the round fails with all of them;
/// otherwise the records come back once per identifier, ascending.
pub fn collect_round<T: Identified>(outcomes: Vec<Result<T, FetchFailure>>) -> (r: Result<
    Vec<T>,
    RoundError,
>)
    ensures
        round_result(outcomes@, r),
        r is Err <==> exists|i: int| 0 <= i < outcomes@.len() && #[trigger] outcomes@[i] is Err,
{
    let ghost all = outcomes@;
    let mut records: Vec<T> = Vec::new();
    let mut failures: Vec<FetchFailure> = Vec::new();
    proof {
        assert(all.take(0) =~= Seq::<Result<T, FetchFailure>>::empty());
    }
    for outcome in it: outcomes
        invariant
            it.seq() == all,
            distinct_ascending(records@, found(all.take(it.index() as int))),
            failures@ == failed(all.take(it.index() as int)),
            failures@.len() > 0 <==> exists|i: int|
                0 <= i < it.index() && #[trigger] all[i] is Err,
    {
        let ghost j = it.index() as int;
        proof {
            assert(all.take(j + 1).drop_last() =~= all.take(j));
            assert(all.take(j + 1).last() == outcome);
        }
        match outcome {
            Ok(record) => {
                insert_distinct(&mut records, record, Ghost(found(all.take(j))));
            },
            Err(failure) => {
                failures.push(failure);
                assert(all[j] is Err);
            },
        }
    }
    proof {
        assert(all.take(all.len() as int) =~= all);
    }
    if failures.len() > 0 {
        Err(RoundError { failures })
    } else {
        Ok(records)
    }
}

} // verus!
