//! Putting together what the daemon answers piece by piece.
use vstd::prelude::*;

use crate::wallet::daemon_rpc;
use crate::wallet::daemon_rpc::DaemonAnswer;

verus! {

/// What comes of several answers: their values in their order, or else the
/// first answer that is none.
pub open spec fn gathered<T>(answers: Seq<DaemonAnswer<T>>) -> DaemonAnswer<Seq<T>>
    decreases answers.len(),
{
    if answers.len() == 0 {
        Some(Ok(seq![]))
    } else {
        match gathered(answers.drop_last()) {
            Some(Ok(values)) => match answers.last() {
                Some(Ok(value)) => Some(Ok(values.push(value))),
                Some(Err(err)) => Some(Err(err)),
                None => None,
            },
            fault => fault,
        }
    }
}

/// Whether an answer is a value, and if not, why.
pub open spec fn outcome<T>(answer: DaemonAnswer<T>) -> DaemonAnswer<()> {
    match answer {
        Some(Ok(_)) => Some(Ok(())),
        Some(Err(err)) => Some(Err(err)),
        None => None,
    }
}

/// Adds one more answer to the values so far, or hands back why it is none.
pub fn gather<T>(values: &mut Vec<T>, answer: DaemonAnswer<T>) -> (res: DaemonAnswer<()>)
    ensures
        res == outcome(answer),
        final(values)@ == (match answer {
            Some(Ok(value)) => old(values)@.push(value),
            _ => old(values)@,
        }),
{
    match answer {
        Some(Ok(value)) => {
            values.push(value);
            Some(Ok(()))
        },
        Some(Err(err)) => Some(Err(err)),
        None => None,
    }
}

/// The answers that an answer to one request holds; one that holds no list
/// stands for itself.
pub open spec fn entries_of<T>(batch: DaemonAnswer<Vec<DaemonAnswer<T>>>) -> Seq<DaemonAnswer<T>> {
    match batch {
        Some(Ok(list)) => list@,
        Some(Err(err)) => seq![Some(Err(err))],
        None => seq![None],
    }
}

/// The answers that an answer to one request holds.
pub fn batch_entries<T>(batch: DaemonAnswer<Vec<DaemonAnswer<T>>>) -> (res: Vec<DaemonAnswer<T>>)
    ensures
        res@ == entries_of(batch),
{
    match batch {
        Some(Ok(list)) => list,
        Some(Err(err)) => vec![Some(Err(err))],
        None => vec![None],
    }
}

/// The values as answers.
pub open spec fn as_answers<T>(values: Seq<T>) -> Seq<DaemonAnswer<T>> {
    values.map_values(|value: T| Some(Ok(value)))
}

/// Where every answer is a value, all of them are gathered, in their order.
pub proof fn gathering_keeps_all<T>(values: Seq<T>)
    ensures
        gathered(as_answers(values)) == Some(Ok::<Seq<T>, daemon_rpc::DaemonRPCError>(values)),
    decreases values.len(),
{
    if values.len() > 0 {
        gathering_keeps_all(values.drop_last());
        assert(as_answers(values).drop_last() =~= as_answers(values.drop_last()));
        assert(values.drop_last().push(values.last()) =~= values);
    } else {
        assert(values =~= seq![]);
    }
}

/// The first answer that is no value decides, whatever comes after it.
pub proof fn gathering_stops<T>(
    values: Seq<T>,
    fault: DaemonAnswer<T>,
    rest: Seq<DaemonAnswer<T>>,
)
    requires
        !(fault matches Some(Ok(_))),
    ensures
        gathered(as_answers(values).push(fault) + rest) == match fault {
            Some(Err(err)) => Some(Err::<Seq<T>, daemon_rpc::DaemonRPCError>(err)),
            _ => None,
        },
    decreases rest.len(),
{
    let answers = as_answers(values).push(fault) + rest;
    if rest.len() > 0 {
        gathering_stops(values, fault, rest.drop_last());
        assert(answers.drop_last() =~= as_answers(values).push(fault) + rest.drop_last());
    } else {
        gathering_keeps_all(values);
        assert(answers.drop_last() =~= as_answers(values));
    }
}

/// Whether the requests for some hashes are each answered with what belongs to
/// its hashes, in their order.
pub open spec fn answered_with<T>(
    requests: Seq<Seq<[u8; 32]>>,
    batches: Seq<DaemonAnswer<Vec<DaemonAnswer<T>>>>,
    value_of: spec_fn([u8; 32]) -> T,
) -> bool {
    &&& batches.len() == requests.len()
    &&& forall|i: int|
        0 <= i < batches.len() ==> entries_of(#[trigger] batches[i]) == as_answers(
            requests[i].map_values(value_of),
        )
}

/// The answers of all requests.
pub open spec fn all_entries<T>(
    batches: Seq<DaemonAnswer<Vec<DaemonAnswer<T>>>>,
) -> Seq<DaemonAnswer<T>> {
    daemon_rpc::joined(
        batches.map_values(|batch: DaemonAnswer<Vec<DaemonAnswer<T>>>| entries_of(batch)),
    )
}

/// Where each request is answered with what belongs to its hashes, the whole is
/// what belongs to all hashes, in their order and once each, however the hashes
/// were spread over requests.
pub proof fn gathered_in_order<T>(
    hashes: Seq<[u8; 32]>,
    batches: Seq<DaemonAnswer<Vec<DaemonAnswer<T>>>>,
    value_of: spec_fn([u8; 32]) -> T,
)
    requires
        answered_with(daemon_rpc::batches(hashes), batches, value_of),
    ensures
        gathered(all_entries(batches)) == Some(
            Ok::<Seq<T>, daemon_rpc::DaemonRPCError>(hashes.map_values(value_of)),
        ),
{
    lemma_entries_follow(hashes, batches, value_of);
    gathering_keeps_all(hashes.map_values(value_of));
}

proof fn lemma_entries_follow<T>(
    hashes: Seq<[u8; 32]>,
    batches: Seq<DaemonAnswer<Vec<DaemonAnswer<T>>>>,
    value_of: spec_fn([u8; 32]) -> T,
)
    requires
        answered_with(daemon_rpc::batches(hashes), batches, value_of),
    ensures
        all_entries(batches) == as_answers(hashes.map_values(value_of)),
    decreases hashes.len(),
{
    let read = |batch: DaemonAnswer<Vec<DaemonAnswer<T>>>| entries_of(batch);
    let parts = batches.map_values(read);
    let requests = daemon_rpc::batches(hashes);
    if hashes.len() == 0 {
        assert(all_entries(batches) =~= as_answers(hashes.map_values(value_of)));
    } else {
        let rest = batches.drop_first();
        assert(parts.drop_first() =~= rest.map_values(read));
        assert(parts[0] == as_answers(requests[0].map_values(value_of)));
        let tail = if hashes.len() <= 100 {
            Seq::<[u8; 32]>::empty()
        } else {
            hashes.skip(100)
        };
        assert(requests.drop_first() =~= daemon_rpc::batches(tail));
        assert forall|i: int| 0 <= i < rest.len() implies entries_of(#[trigger] rest[i])
            == as_answers(daemon_rpc::batches(tail)[i].map_values(value_of)) by {
            assert(rest[i] == batches[i + 1]);
            assert(requests[i + 1] == requests.drop_first()[i]);
        }
        lemma_entries_follow(tail, rest, value_of);
        assert(hashes =~= requests[0] + tail);
        assert(all_entries(batches) =~= as_answers(hashes.map_values(value_of)));
    }
}

/// An answer to a request stands for the answers that it lists, and for itself
/// where it lists none; nothing is left out.
pub proof fn answers_stand_for_their_entries<T>(
    batch: DaemonAnswer<Vec<DaemonAnswer<T>>>,
    answer: DaemonAnswer<T>,
    values: Seq<T>,
    i: int,
)
    ensures
        batch matches Some(Ok(list)) ==> entries_of(batch) == list@,
        batch matches Some(Err(err)) ==> entries_of(batch).len() == 1 && entries_of(batch)[0]
            == Some(Err::<T, daemon_rpc::DaemonRPCError>(err)),
        batch is None ==> entries_of(batch).len() == 1 && entries_of(batch)[0] is None,
        outcome(answer) is None <==> answer is None,
        outcome(answer) matches Some(Ok(_)) <==> (answer matches Some(Ok(_))),
        answer matches Some(Err(err)) ==> outcome(answer) == Some(
            Err::<(), daemon_rpc::DaemonRPCError>(err),
        ),
        as_answers(values).len() == values.len(),
        0 <= i < values.len() ==> as_answers(values)[i] == Some(
            Ok::<T, daemon_rpc::DaemonRPCError>(values[i]),
        ),
{
}

/// Two runs of answers are gathered as the values of the first and then those
/// of the second, where all of them are values.
pub proof fn gathered_runs_add_up<T>(a: Seq<T>, b: Seq<T>)
    ensures
        gathered(as_answers(a) + as_answers(b)) == Some(
            Ok::<Seq<T>, daemon_rpc::DaemonRPCError>(a + b),
        ),
{
    gathering_keeps_all(a + b);
    assert(as_answers(a) + as_answers(b) =~= as_answers(a + b));
}

} // verus!
