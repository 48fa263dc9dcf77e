//! What a query on the current state of a simulation returns, once the states
//! that it concerns have been enumerated.

use crate::error::SamplingError;
use crate::time_series::{TimeSeries, TimeSeriesData};
use crate::traits::{Identifier, Sample, SampleAggregate};
use vstd::prelude::*;
use vstd::std_specs::cmp::PartialEqSpec;

verus! {

/// How many of `entries` bear the identifier `id`.
pub open spec fn bearers<C, Id: Identifier>(entries: Seq<(&C, &Id)>, id: &Id) -> nat
    decreases entries.len(),
{
    if entries.len() == 0 {
        0
    } else {
        bearers(entries.drop_last(), id) + if entries.last().1.eq_spec(id) {
            1nat
        } else {
            0nat
        }
    }
}

/// The count of bearers does not shrink as entries are added.
proof fn lemma_bearers_grow<C, Id: Identifier>(entries: Seq<(&C, &Id)>, id: &Id, n: int)
    requires
        0 <= n <= entries.len(),
    ensures
        bearers(entries.take(n), id) <= bearers(entries, id),
    decreases entries.len() - n,
{
    if n < entries.len() {
        lemma_bearers_grow(entries.drop_last(), id, n);
        assert(entries.drop_last().take(n) =~= entries.take(n));
    } else {
        assert(entries.take(n) =~= entries);
    }
}

/// The state of the one entity among `entries` that bears `id`.
///
/// Equality of identifiers is that of the identifier type; what is said of the
/// result holds for a type whose `==` follows its specification.
pub fn find_identified<'a, C, Id: Identifier>(entries: &[(&'a C, &Id)], id: &Id) -> (r: Result<
    &'a C,
    SamplingError,
>)
    ensures
        Id::obeys_eq_spec() ==> match r {
            Ok(c) => bearers(entries@, id) == 1 && exists|i: int|
                0 <= i < entries@.len() && (#[trigger] entries@[i]).1.eq_spec(id) && entries@[i].0
                    == c,
            Err(e) => if bearers(entries@, id) == 0 {
                e == SamplingError::EntityIdentifierNotFound
            } else {
                bearers(entries@, id) > 1 && e == SamplingError::EntityIdentifierNotUnique
            },
        },
        match r {
            Ok(c) => exists|i: int| 0 <= i < entries@.len() && (#[trigger] entries@[i]).0 == c,
            Err(e) => e == SamplingError::EntityIdentifierNotFound || e
                == SamplingError::EntityIdentifierNotUnique,
        },
{
    let mut found: Option<&'a C> = None;
    let mut i: usize = 0;
    assert(entries@.take(0) =~= Seq::<(&C, &Id)>::empty());
    while i < entries.len()
        invariant
            i <= entries@.len(),
            match found {
                Some(c) => exists|k: int| 0 <= k < i && (#[trigger] entries@[k]).0 == c,
                None => true,
            },
            Id::obeys_eq_spec() ==> match found {
                Some(c) => bearers(entries@.take(i as int), id) == 1 && exists|k: int|
                    0 <= k < i && (#[trigger] entries@[k]).1.eq_spec(id) && entries@[k].0 == c,
                None => bearers(entries@.take(i as int), id) == 0,
            },
        decreases entries@.len() - i,
    {
        proof {
            assert(entries@.take(i + 1).drop_last() =~= entries@.take(i as int));
        }
        if *entries[i].1 == *id {
            if found.is_some() {
                proof {
                    lemma_bearers_grow(entries@, id, i + 1);
                }
                return Err(SamplingError::EntityIdentifierNotUnique);
            }
            found = Some(entries[i].0);
        }
        i += 1;
    }
    proof {
        assert(entries@.take(i as int) =~= entries@);
    }
    match found {
        Some(c) => Ok(c),
        None => Err(SamplingError::EntityIdentifierNotFound),
    }
}

/// The state of the only entity among `found`.
pub fn find_single<'a, C>(found: &[&'a C]) -> (r: Result<&'a C, SamplingError>)
    ensures
        r == (if found@.len() == 0 {
            Err(SamplingError::SingleNoEntities)
        } else if found@.len() == 1 {
            Ok(found@[0])
        } else {
            Err(SamplingError::SingleMultipleEntities)
        }),
{
    if found.len() == 0 {
        Err(SamplingError::SingleNoEntities)
    } else if found.len() == 1 {
        Ok(found[0])
    } else {
        Err(SamplingError::SingleMultipleEntities)
    }
}

/// Samples the entity that bears `id`: the projection of its state, or why there
/// is no such state to project.
pub fn sample<C: Sample<Out>, Id: Identifier, Out>(entries: &[(&C, &Id)], id: &Id) -> (r: Result<
    Out,
    SamplingError,
>)
    ensures
        Id::obeys_eq_spec() ==> match r {
            Ok(v) => bearers(entries@, id) == 1 && exists|i: int|
                0 <= i < entries@.len() && (#[trigger] entries@[i]).1.eq_spec(id) && call_ensures(
                    C::sample,
                    (entries@[i].0,),
                    v,
                ),
            Err(e) => if bearers(entries@, id) == 0 {
                e == SamplingError::EntityIdentifierNotFound
            } else {
                bearers(entries@, id) > 1 && e == SamplingError::EntityIdentifierNotUnique
            },
        },
        match r {
            Ok(v) => exists|i: int|
                0 <= i < entries@.len() && call_ensures(C::sample, ((#[trigger] entries@[i]).0,), v),
            Err(e) => e == SamplingError::EntityIdentifierNotFound || e
                == SamplingError::EntityIdentifierNotUnique,
        },
{
    match find_identified(entries, id) {
        Ok(component) => Ok(C::sample(component)),
        Err(e) => Err(e),
    }
}

/// Samples the only entity that has the component: the projection of its state,
/// or why there is no such state to project.
pub fn sample_single<C: Sample<Out>, Out>(found: &[&C]) -> (r: Result<Out, SamplingError>)
    ensures
        found@.len() == 1 ==> r is Ok && call_ensures(C::sample, (found@[0],), r.unwrap()),
        found@.len() == 0 ==> r == Err::<Out, SamplingError>(SamplingError::SingleNoEntities),
        found@.len() > 1 ==> r == Err::<Out, SamplingError>(
            SamplingError::SingleMultipleEntities,
        ),
{
    match find_single(found) {
        Ok(component) => Ok(C::sample(component)),
        Err(e) => Err(e),
    }
}

/// Samples a population: the projection of its states, or an error if there are none.
pub fn sample_aggregate<C: SampleAggregate<Out>, Out>(components: &[&C]) -> (r: Result<
    Out,
    SamplingError,
>)
    requires
        components@.len() > 0 ==> C::defined_on(components@.len()),
    ensures
        components@.len() > 0 ==> r is Ok && call_ensures(
            C::sample_aggregate,
            (components,),
            r.unwrap(),
        ),
        components@.len() == 0 ==> r == Err::<Out, SamplingError>(
            SamplingError::AggregateNoEntities,
        ),
{
    if components.len() == 0 {
        Err(SamplingError::AggregateNoEntities)
    } else {
        Ok(C::sample_aggregate(components))
    }
}

/// The time series of the entity that bears `id`, for reading.
pub fn get_time_series<'a, Id: Identifier, Out>(
    entries: &[(&'a TimeSeriesData<Out>, &Id)],
    id: &Id,
) -> (r: Result<TimeSeries<'a, Out>, SamplingError>)
    requires
        forall|i: int| 0 <= i < entries@.len() ==> (#[trigger] entries@[i]).0.wf(),
    ensures
        Id::obeys_eq_spec() ==> match r {
            Ok(series) => bearers(entries@, id) == 1 && exists|i: int|
                0 <= i < entries@.len() && (#[trigger] entries@[i]).1.eq_spec(id)
                    && series.entries() == entries@[i].0.values() && series.steps()
                    == entries@[i].0.times() && series.interval() == entries@[i].0.interval(),
            Err(e) => if bearers(entries@, id) == 0 {
                e == SamplingError::EntityIdentifierNotFound
            } else {
                bearers(entries@, id) > 1 && e == SamplingError::EntityIdentifierNotUnique
            },
        },
        r is Ok ==> r.unwrap().wf(),
{
    match find_identified(entries, id) {
        Ok(data) => {
            Ok(data.collect())
        },
        Err(e) => Err(e),
    }
}

/// The time series of a population, for reading, or an error if none was recorded.
pub fn get_aggregate_time_series<'a, Out>(recorded: Option<&'a TimeSeriesData<Out>>) -> (r: Result<
    TimeSeries<'a, Out>,
    SamplingError,
>)
    requires
        recorded is Some ==> recorded.unwrap().wf(),
    ensures
        match r {
            Ok(series) => recorded is Some && series.wf() && series.entries()
                == recorded.unwrap().values() && series.steps() == recorded.unwrap().times()
                && series.interval() == recorded.unwrap().interval(),
            Err(e) => recorded is None && e == SamplingError::TimeSeriesNotRecorded,
        },
{
    match recorded {
        Some(data) => Ok(data.collect()),
        None => Err(SamplingError::TimeSeriesNotRecorded),
    }
}

} // verus!
