use rayon::iter::ParallelIterator;
use rayon::slice::ParallelSlice;
use vstd::prelude::*;
use crate::date::Date;
use crate::models::{Event, OccurrenceDTO};
use crate::ordering::{is_ordered, sort_by_date_and_name, sort_occurrences, sorted_occurrences_are_ordered};
use crate::recurrence::{all_occurrences, evaluate_all};

verus! {

/// `s` cut into consecutive pieces of `size` elements; the last may be shorter.
pub open spec fn chunks_of(s: Seq<Event>, size: nat) -> Seq<Seq<Event>>
    decreases s.len(),
{
    if s.len() == 0 || size == 0 {
        Seq::empty()
    } else if s.len() <= size {
        seq![s]
    } else {
        seq![s.take(size as int)] + chunks_of(s.skip(size as int), size)
    }
}

/// The pieces of `ss` joined in order.
pub open spec fn concat_all(ss: Seq<Seq<OccurrenceDTO>>) -> Seq<OccurrenceDTO>
    decreases ss.len(),
{
    if ss.len() == 0 {
        Seq::empty()
    } else {
        ss[0] + concat_all(ss.drop_first())
    }
}

/// The result of an aggregation: every occurrence of every definition in the
/// window, sorted by date and then name.
pub open spec fn aggregated(evs: Seq<Event>, window_start: Date, window_end: Date) -> Seq<
    OccurrenceDTO,
> {
    sort_occurrences(all_occurrences(evs, window_start, window_end))
}

/// Relies on rayon's `current_num_threads`: the size of the current worker
/// pool, which depends on the machine and configuration.
#[verifier::external_body]
fn available_workers() -> (r: usize) {
    rayon::current_num_threads()
}

/// Relies on rayon's `par_chunks` (consecutive chunks of `chunk_size`
/// elements, the last possibly shorter) and on `collect` of an indexed
/// parallel iterator into a `Vec`, which keeps the chunks' order.  Each
/// chunk is evaluated by `evaluate_all` on a worker of the pool.
#[verifier::external_body]
fn evaluate_chunks_in_parallel(
    evs: &[Event],
    chunk_size: usize,
    window_start: Date,
    window_end: Date,
) -> (r: Vec<Vec<OccurrenceDTO>>)
    requires
        chunk_size > 0,
    ensures
        r@.len() == chunks_of(evs@, chunk_size as nat).len(),
        forall|k: int|
            0 <= k < r@.len() ==> #[trigger] r@[k]@ == all_occurrences(
                chunks_of(evs@, chunk_size as nat)[k],
                window_start,
                window_end,
            ),
{
    evs.par_chunks(chunk_size).map(|c| evaluate_all(c, window_start, window_end)).collect()
}

proof fn lemma_all_occurrences_append(a: Seq<Event>, b: Seq<Event>, ws: Date, we: Date)
    ensures
        all_occurrences(a + b, ws, we) == all_occurrences(a, ws, we) + all_occurrences(b, ws, we),
    decreases b.len(),
{
    if b.len() == 0 {
        assert(a + b =~= a);
        assert(all_occurrences(a, ws, we) + all_occurrences(b, ws, we) =~= all_occurrences(
            a,
            ws,
            we,
        ));
    } else {
        lemma_all_occurrences_append(a, b.drop_last(), ws, we);
        assert((a + b).drop_last() =~= a + b.drop_last());
        assert((a + b).last() == b.last());
        assert(all_occurrences(a + b, ws, we) =~= all_occurrences(a, ws, we) + all_occurrences(
            b,
            ws,
            we,
        ));
    }
}

proof fn lemma_chunks_rejoin(s: Seq<Event>, size: nat, ws: Date, we: Date)
    requires
        size > 0,
    ensures
        concat_all(
            Seq::new(
                chunks_of(s, size).len(),
                |k: int| all_occurrences(chunks_of(s, size)[k], ws, we),
            ),
        ) == all_occurrences(s, ws, we),
    decreases s.len(),
{
    let cs = chunks_of(s, size);
    let outs = Seq::new(cs.len(), |k: int| all_occurrences(cs[k], ws, we));
    if s.len() == 0 {
        assert(outs =~= Seq::<Seq<OccurrenceDTO>>::empty());
    } else if s.len() <= size {
        assert(outs.drop_first() =~= Seq::<Seq<OccurrenceDTO>>::empty());
        assert(concat_all(outs.drop_first()) == Seq::<OccurrenceDTO>::empty());
        assert(outs[0] == all_occurrences(s, ws, we));
        assert(concat_all(outs) =~= all_occurrences(s, ws, we));
    } else {
        let rest = s.skip(size as int);
        lemma_chunks_rejoin(rest, size, ws, we);
        let rcs = chunks_of(rest, size);
        assert(outs.drop_first() =~= Seq::new(
            rcs.len(),
            |k: int| all_occurrences(rcs[k], ws, we),
        ));
        lemma_all_occurrences_append(s.take(size as int), rest, ws, we);
        assert(s.take(size as int) + rest =~= s);
    }
}

/// Evaluating a candidate list chunk by chunk and joining the chunks' results
/// in order gives exactly what evaluating it in one pass gives, whatever the
/// chunk size.
pub proof fn chunked_evaluation_matches_sequential(
    evs: Seq<Event>,
    chunk_size: nat,
    window_start: Date,
    window_end: Date,
)
    requires
        chunk_size > 0,
    ensures
        concat_all(
            Seq::new(
                chunks_of(evs, chunk_size).len(),
                |k: int| all_occurrences(chunks_of(evs, chunk_size)[k], window_start, window_end),
            ),
        ) == all_occurrences(evs, window_start, window_end),
{
    lemma_chunks_rejoin(evs, chunk_size, window_start, window_end);
}

/// The pieces of `parts` joined in order.
fn join_parts(parts: Vec<Vec<OccurrenceDTO>>) -> (r: Vec<OccurrenceDTO>)
    ensures
        r@ == concat_all(Seq::new(parts@.len(), |k: int| parts@[k]@)),
{
    let ghost all = Seq::new(parts@.len(), |k: int| parts@[k]@);
    let mut parts = parts;
    let mut acc: Vec<OccurrenceDTO> = Vec::new();
    assert(all.skip(all.len() as int) =~= Seq::<Seq<OccurrenceDTO>>::empty());
    while parts.len() > 0
        invariant
            parts@.len() <= all.len(),
            forall|k: int| 0 <= k < parts@.len() ==> #[trigger] parts@[k]@ == all[k],
            acc@ == concat_all(all.skip(parts@.len() as int)),
        decreases parts@.len(),
    {
        let mut last = parts.pop().unwrap();
        let ghost n = parts@.len();
        proof {
            assert(all.skip(n as int).drop_first() =~= all.skip(n as int + 1));
            assert(all.skip(n as int)[0] == last@);
        }
        last.append(&mut acc);
        acc = last;
    }
    assert(all.skip(0) =~= all);
    acc
}

/// Every occurrence of every candidate in the window, sorted by date and then
/// by name.  Large candidate lists are evaluated on a pool of workers when
/// `parallel_enabled` is set and the list holds at least `parallel_threshold`
/// definitions; the result does not depend on that choice.
pub fn aggregate(
    candidates: &Vec<Event>,
    window_start: Date,
    window_end: Date,
    parallel_enabled: bool,
    parallel_threshold: usize,
) -> (r: Vec<OccurrenceDTO>)
    ensures
        r@ == aggregated(candidates@, window_start, window_end),
        is_ordered(r@),
        r@.to_multiset() == all_occurrences(candidates@, window_start, window_end).to_multiset(),
{
    proof {
        sorted_occurrences_are_ordered(all_occurrences(candidates@, window_start, window_end));
    }
    let occs = if parallel_enabled && candidates.len() >= parallel_threshold {
        let workers = worker_count(available_workers());
        let chunk_size = chunk_len(candidates.len(), workers);
        let parts = evaluate_chunks_in_parallel(
            candidates.as_slice(),
            chunk_size,
            window_start,
            window_end,
        );
        let ghost cs = chunks_of(candidates@, chunk_size as nat);
        let joined = join_parts(parts);
        proof {
            chunked_evaluation_matches_sequential(
                candidates@,
                chunk_size as nat,
                window_start,
                window_end,
            );
            assert(Seq::new(parts@.len(), |k: int| parts@[k]@) =~= Seq::new(
                cs.len(),
                |k: int| all_occurrences(cs[k], window_start, window_end),
            ));
        }
        joined
    } else {
        evaluate_all(candidates.as_slice(), window_start, window_end)
    };
    sort_by_date_and_name(occs)
}

/// The number of workers to use: the pool's size, and at least one.
pub fn worker_count(available: usize) -> (r: usize)
    ensures
        r == if available == 0 { 1 } else { available },
{
    if available == 0 { 1 } else { available }
}

/// The size of each chunk when `len` items are shared among `workers`
/// workers: the length divided by the worker count, rounded up, and at
/// least one.
pub fn chunk_len(len: usize, workers: usize) -> (r: usize)
    requires
        workers > 0,
    ensures
        r == if len == 0 { 1 } else { (len - 1) / (workers as int) + 1 },
        r >= 1,
{
    if len == 0 { 1 } else { (len - 1) / workers + 1 }
}

} // verus!
