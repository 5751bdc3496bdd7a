//! Repeated lookups, aggregated per resolver.

use super::outcome::{aggregate_repeat, aggregates};
use crate::model::dns::{same_resolver, ResolverModel};
use crate::model::{DnsObservation, DnsRecordType, DnsRepeatResult, ResolverKind};
use crate::report::dns::resolvers_of;
use crate::text::first_seen;
use vstd::prelude::*;

verus! {

/// The observations of one resolver, in order.
pub open spec fn of_resolver(s: Seq<DnsObservation>, r: ResolverModel) -> Seq<DnsObservation>
    decreases s.len(),
{
    if s.len() == 0 {
        s
    } else if s.last().resolver.deep_view() == r {
        of_resolver(s.drop_last(), r).push(s.last())
    } else {
        of_resolver(s.drop_last(), r)
    }
}

/// Whether buckets hold the observations of each resolver, the resolvers in
/// the order in which they first occur.
spec fn bucketed(keys: Seq<ResolverKind>, buckets: Seq<Vec<DnsObservation>>, s: Seq<DnsObservation>) -> bool {
    &&& keys.len() == buckets.len()
    &&& keys.map_values(|k: ResolverKind| k.deep_view()) == first_seen(resolvers_of(s))
    &&& forall|i: int| 0 <= i < keys.len() ==> (#[trigger] buckets[i])@ == of_resolver(s, keys[i].deep_view())
}

/// The position of a resolver.
fn position(keys: &[ResolverKind], r: &ResolverKind) -> (p: Option<usize>)
    ensures
        p matches Some(i) ==> i < keys@.len() && keys@[i as int].deep_view() == r.deep_view(),
        p is None ==> forall|i: int| 0 <= i < keys@.len() ==> (#[trigger] keys@[i]).deep_view() != r.deep_view(),
{
    for i in 0..keys.len()
        invariant
            forall|j: int| 0 <= j < i ==> (#[trigger] keys@[j]).deep_view() != r.deep_view(),
    {
        if same_resolver(&keys[i], r) {
            return Some(i);
        }
    }
    None
}

/// First-seen elements are distinct.
proof fn lemma_first_seen_distinct<A>(s: Seq<A>)
    ensures
        first_seen(s).no_duplicates(),
    decreases s.len(),
{
    if s.len() > 0 {
        lemma_first_seen_distinct(s.drop_last());
        let front = first_seen(s.drop_last());
        if !front.contains(s.last()) {
            assert forall|i: int, j: int|
                0 <= i < front.len() + 1 && 0 <= j < front.len() + 1 && i != j implies front.push(s.last())[i]
                != front.push(s.last())[j] by {
                if i == front.len() {
                    assert(front.contains(front[j]));
                } else if j == front.len() {
                    assert(front.contains(front[i]));
                }
            }
        }
    }
}

/// A resolver that was never seen has no observations.
proof fn lemma_unseen(s: Seq<DnsObservation>, r: ResolverModel)
    requires
        !first_seen(resolvers_of(s)).contains(r),
    ensures
        of_resolver(s, r) == Seq::<DnsObservation>::empty(),
    decreases s.len(),
{
    if s.len() > 0 {
        let all = resolvers_of(s);
        assert(all.drop_last() =~= resolvers_of(s.drop_last()));
        assert(all.last() == s.last().resolver.deep_view());
        let front = first_seen(all.drop_last());
        if front.contains(r) {
            let k = choose|k: int| 0 <= k < front.len() && front[k] == r;
            if !front.contains(all.last()) {
                assert(front.push(all.last())[k] == r);
            }
        }
        if all.last() == r {
            assert(front.push(all.last())[front.len() as int] == r);
        }
        lemma_unseen(s.drop_last(), r);
    }
}

/// One more observation in its resolver's bucket.
proof fn lemma_bucketed_push(
    keys: Seq<ResolverKind>,
    buckets: Seq<Vec<DnsObservation>>,
    s: Seq<DnsObservation>,
    o: DnsObservation,
    i: int,
    bucket: Vec<DnsObservation>,
)
    requires
        bucketed(keys, buckets, s),
        0 <= i < keys.len(),
        keys[i].deep_view() == o.resolver.deep_view(),
        bucket@ == buckets[i]@.push(o),
    ensures
        bucketed(keys, buckets.update(i, bucket), s.push(o)),
{
    let t = s.push(o);
    assert(t.drop_last() =~= s);
    let all = resolvers_of(t);
    assert(all.drop_last() =~= resolvers_of(s));
    let seen = first_seen(resolvers_of(s));
    lemma_first_seen_distinct(resolvers_of(s));
    assert(seen[i] == keys[i].deep_view());
    assert(seen.contains(all.last()));
    assert forall|j: int| 0 <= j < keys.len() implies (#[trigger] buckets.update(i, bucket)[j])@ == of_resolver(
        t,
        keys[j].deep_view(),
    ) by {
        assert(seen[j] == keys[j].deep_view());
        assert(buckets[j]@ == of_resolver(s, keys[j].deep_view()));
    }
}

/// A first observation of a resolver opens a bucket.
proof fn lemma_bucketed_open(
    keys: Seq<ResolverKind>,
    buckets: Seq<Vec<DnsObservation>>,
    s: Seq<DnsObservation>,
    o: DnsObservation,
    key: ResolverKind,
    bucket: Vec<DnsObservation>,
)
    requires
        bucketed(keys, buckets, s),
        forall|i: int| 0 <= i < keys.len() ==> (#[trigger] keys[i]).deep_view() != o.resolver.deep_view(),
        key.deep_view() == o.resolver.deep_view(),
        bucket@ == seq![o],
    ensures
        bucketed(keys.push(key), buckets.push(bucket), s.push(o)),
{
    let t = s.push(o);
    assert(t.drop_last() =~= s);
    let all = resolvers_of(t);
    assert(all.drop_last() =~= resolvers_of(s));
    let seen = first_seen(resolvers_of(s));
    let models = keys.map_values(|k: ResolverKind| k.deep_view());
    assert(!seen.contains(all.last())) by {
        if seen.contains(all.last()) {
            let k = choose|k: int| 0 <= k < seen.len() && seen[k] == all.last();
            assert(models[k] == keys[k].deep_view());
        }
    }
    lemma_unseen(s, o.resolver.deep_view());
    assert(keys.push(key).map_values(|k: ResolverKind| k.deep_view()) =~= models.push(key.deep_view()));
    assert forall|j: int| 0 <= j < keys.len() + 1 implies (#[trigger] buckets.push(bucket)[j])@ == of_resolver(
        t,
        keys.push(key)[j].deep_view(),
    ) by {
        if j < keys.len() {
            assert(buckets[j]@ == of_resolver(s, keys[j].deep_view()));
            assert(keys[j].deep_view() != o.resolver.deep_view());
        } else {
            assert(of_resolver(t, o.resolver.deep_view()) =~= seq![o]);
        }
    }
}

/// Aggregate the observations of repeated lookups per resolver, in the order
/// in which the resolvers first answered.
pub fn repeat_results(observations: Vec<DnsObservation>, record_type: DnsRecordType, attempts: usize) -> (out: Vec<
    DnsRepeatResult,
>)
    ensures
        out@.len() == first_seen(resolvers_of(observations@)).len(),
        forall|i: int|
            0 <= i < out@.len() ==> aggregates(
                of_resolver(observations@, first_seen(resolvers_of(observations@))[i]),
                record_type,
                attempts,
                #[trigger] out@[i],
            ),
{
    let ghost all = observations@;
    let mut keys: Vec<ResolverKind> = Vec::new();
    let mut buckets: Vec<Vec<DnsObservation>> = Vec::new();
    let mut rest = observations;
    let ghost mut done: Seq<DnsObservation> = Seq::empty();
    assert(resolvers_of(done) =~= Seq::empty());
    assert(keys@.map_values(|k: ResolverKind| k.deep_view()) =~= Seq::empty());
    assert(all =~= done + rest@);
    while rest.len() > 0
        invariant
            all == done + rest@,
            bucketed(keys@, buckets@, done),
        decreases rest@.len(),
    {
        let o = rest.remove(0);
        let ghost obs = o;
        assert(done.push(obs) + rest@ =~= all);
        match position(keys.as_slice(), &o.resolver) {
            Some(i) => {
                let ghost before = buckets@;
                let mut bucket: Vec<DnsObservation> = Vec::new();
                std::mem::swap(&mut bucket, &mut buckets[i]);
                bucket.push(o);
                proof {
                    lemma_bucketed_push(keys@, before, done, obs, i as int, bucket);
                }
                std::mem::swap(&mut bucket, &mut buckets[i]);
                assert(buckets@ =~= before.update(i as int, buckets@[i as int]));
            },
            None => {
                let key = o.resolver.clone();
                let mut bucket: Vec<DnsObservation> = Vec::new();
                bucket.push(o);
                assert(bucket@ =~= seq![obs]);
                proof {
                    lemma_bucketed_open(keys@, buckets@, done, obs, key, bucket);
                }
                keys.push(key);
                buckets.push(bucket);
            },
        }
        proof {
            done = done.push(obs);
        }
    }
    assert(done =~= all);
    let mut out: Vec<DnsRepeatResult> = Vec::new();
    let ghost seen = first_seen(resolvers_of(all));
    assert(seen.len() == keys@.len());
    for i in 0..buckets.len()
        invariant
            bucketed(keys@, buckets@, all),
            seen == first_seen(resolvers_of(all)),
            out@.len() == i,
            forall|j: int|
                0 <= j < i ==> aggregates(of_resolver(all, seen[j]), record_type, attempts, #[trigger] out@[j]),
    {
        assert(seen[i as int] == keys@[i as int].deep_view());
        out.push(aggregate_repeat(buckets[i].as_slice(), record_type, attempts));
    }
    out
}

/// The lookups of a resolver are those that it answered or failed, in their
/// order.
pub proof fn lemma_bucket_is_of_its_resolver(s: Seq<DnsObservation>, r: ResolverModel)
    ensures
        of_resolver(s, r) == s.filter(|o: DnsObservation| o.resolver.deep_view() == r),
    decreases s.len(),
{
    reveal(Seq::filter);
    if s.len() > 0 {
        lemma_bucket_is_of_its_resolver(s.drop_last(), r);
    }
    assert(of_resolver(s, r) =~= s.filter(|o: DnsObservation| o.resolver.deep_view() == r));
}

} // verus!
