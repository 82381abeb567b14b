//! What disconnecting a source does as a whole.

use crate::app_core::{
    leaving_stopped, not_connected_error, shows_disconnected, taken_out, AppCore, Leaving,
};
use crate::error::ToolboxResult;
use crate::event::{told_fields, StoreState};
use crate::ident::{uuid_to_text, Uuid};
use crate::model::{QueueDepths, SessionStatus, SourceSnapshot, SourceStatus};
use crate::session::{
    ends_connection, epoch_closed, gap_told, now_suspended, EpochEnd, GapRow, SessionManager,
};
use crate::tx::{cancelled_data, tx_stepped, TxAction, TxJob, TxState};
use std::sync::Arc;
use vstd::prelude::*;

verus! {

/// One look at the jobs of a connection.
pub struct TxLook<V> {
    pub before: TxState,
    pub now_ms: i64,
    pub now_ns: u64,
    pub store: StoreState<V>,
    pub action: TxAction,
    pub after: TxState,
    pub store_after: StoreState<V>,
}

/// The two have the same jobs: between looks no job is taken any more, though a job may
/// still be asked to be cancelled, and a write may end.
pub open spec fn same_jobs(before: TxState, after: TxState) -> bool {
    &&& after.current == before.current
    &&& after.released == before.released
    &&& after.queue == before.queue
    &&& after.stopping == before.stopping
    &&& after.source_epoch == before.source_epoch
}

/// A look was the `i`-th one.
pub open spec fn look_made<V>(start: TxState, looks: Seq<TxLook<V>>, i: int) -> bool {
    let look = looks[i];
    &&& same_jobs(
        if i == 0 {
            start
        } else {
            looks[i - 1].after
        },
        look.before,
    )
    &&& tx_stepped(
        look.before,
        look.now_ms,
        look.now_ns,
        look.store,
        look.action,
        look.after,
        look.store_after,
    )
}

/// Looks at the jobs of a connection, one after the other.
pub open spec fn looked_at<V>(start: TxState, looks: Seq<TxLook<V>>) -> bool {
    forall|i: int| 0 <= i < looks.len() ==> #[trigger] look_made(start, looks, i)
}

/// The jobs that wait, the one under consideration first.
pub open spec fn waiting_jobs(state: TxState) -> Seq<TxJob> {
    match state.current {
        Some(job) => seq![job] + state.queue.items,
        None => state.queue.items,
    }
}

/// A job may go out any moment: only the gap behind the one before it is waited for.
pub open spec fn about_to_send(state: TxState) -> bool {
    state.current is Some && state.released
}

/// What is left when `count` jobs were looked at.
pub open spec fn rest_of(jobs: Seq<TxJob>, count: int) -> Seq<TxJob> {
    if count < jobs.len() {
        jobs.skip(count)
    } else {
        Seq::empty()
    }
}

/// A look while sending is stopped deals with the first waiting job.
proof fn lemma_look<V>(look: TxLook<V>)
    requires
        look.before.stopping,
        tx_stepped(
            look.before,
            look.now_ms,
            look.now_ns,
            look.store,
            look.action,
            look.after,
            look.store_after,
        ),
    ensures
        look.after.stopping,
        look.after.source_epoch == look.before.source_epoch,
        !about_to_send(look.after),
        waiting_jobs(look.after) == rest_of(waiting_jobs(look.before), 1),
        if waiting_jobs(look.before).len() > 0 {
            ||| {
                &&& look.action is Again
                &&& told_fields(
                    look.store,
                    "tx.cancelled"@,
                    cancelled_data(waiting_jobs(look.before)[0], look.before.source_epoch),
                    look.store_after,
                )
            }
            ||| {
                &&& about_to_send(look.before)
                &&& look.action == TxAction::Write(waiting_jobs(look.before)[0])
            }
        } else {
            look.action is Finished && look.store_after == look.store
        },
{
    let jobs = waiting_jobs(look.before);
    if jobs.len() > 0 {
        assert(look.before.considering().current == Some(jobs[0]));
        assert(look.after.current is None);
        assert(look.after.queue.items =~= rest_of(jobs, 1));
    } else {
        assert(look.before.current is None);
        assert(look.after == look.before);
        assert(waiting_jobs(look.after) =~= rest_of(jobs, 1));
    }
}

proof fn lemma_looks<V>(start: TxState, looks: Seq<TxLook<V>>, i: int)
    requires
        start.stopping,
        looked_at(start, looks),
        0 <= i < looks.len(),
    ensures
        looks[i].before.stopping,
        looks[i].before.source_epoch == start.source_epoch,
        waiting_jobs(looks[i].before) == rest_of(waiting_jobs(start), i),
        about_to_send(looks[i].before) == (i == 0 && about_to_send(start)),
    decreases i,
{
    let jobs = waiting_jobs(start);
    assert(look_made(start, looks, i));
    if i == 0 {
        assert(jobs =~= rest_of(jobs, 0));
    } else {
        lemma_looks(start, looks, i - 1);
        assert(look_made(start, looks, i - 1));
        lemma_look(looks[i - 1]);
        assert(rest_of(rest_of(jobs, i - 1), 1) =~= rest_of(jobs, i));
    }
}

/// Once a connection is stopped, its waiting jobs are told of as cancelled in order and
/// are not written, and then its sending is over. Only a job that was about to go out
/// when the connection was stopped may still do so.
pub proof fn law_waiting_jobs_are_cancelled<V>(start: TxState, looks: Seq<TxLook<V>>, i: int)
    requires
        start.stopping,
        looked_at(start, looks),
        0 <= i < looks.len(),
    ensures
        if i < waiting_jobs(start).len() {
            ||| {
                &&& looks[i].action is Again
                &&& told_fields(
                    looks[i].store,
                    "tx.cancelled"@,
                    cancelled_data(waiting_jobs(start)[i], start.source_epoch),
                    looks[i].store_after,
                )
            }
            ||| {
                &&& i == 0
                &&& about_to_send(start)
                &&& looks[i].action == TxAction::Write(waiting_jobs(start)[0])
            }
        } else {
            looks[i].action is Finished && looks[i].store_after == looks[i].store
        },
{
    lemma_looks(start, looks, i);
    assert(look_made(start, looks, i));
    lemma_look(looks[i]);
}

/// Disconnecting a source takes it out of use and stops its connection, from which then
/// nothing more is taken. A recording of it is suspended for the reason that the user
/// disconnected it: its epoch ends for that reason and one event tells of the gap, and
/// nothing further is written until the recording goes on. The source is shown as
/// disconnected, with nothing waiting. Disconnecting it once more is refused, since it is
/// not connected.
pub proof fn law_disconnecting_as_a_whole<V: Copy>(
    before: AppCore<V>,
    source_id: Uuid,
    ticket: u64,
    leaving: Leaving,
    taken: AppCore<V>,
    stopped: AppCore<V>,
    session: SessionManager,
    store: StoreState<V>,
    end: EpochEnd,
    closed: SessionManager,
    row: Option<GapRow<V>>,
    suspended: SessionManager,
    store_suspended: StoreState<V>,
    once_more: ToolboxResult<Option<EpochEnd>>,
    unchanged: SessionManager,
    known: Option<Arc<SourceSnapshot>>,
    last: SourceSnapshot,
    later: AppCore<V>,
    later_ticket: u64,
    result: ToolboxResult<Leaving>,
    refused: AppCore<V>,
)
    requires
        taken_out(before, source_id, ticket, Ok(leaving), taken),
        leaving_stopped(taken, stopped),
        epoch_closed(session, Ok(Some(end)), closed),
        gap_told(end, source_id, leaving.source_epoch, "UserDisconnect"@, row),
        now_suspended(closed, store, "UserDisconnect"@, suspended, store_suspended),
        epoch_closed(suspended, once_more, unchanged),
        shows_disconnected(known, source_id, last),
        later.sources@ == stopped.sources@,
        taken_out(later, source_id, later_ticket, result, refused),
    ensures
        stopped.leaving matches Some(runtime) && {
            &&& runtime.stopped
            &&& runtime.tx@.stopping
            &&& runtime.tx@.queue.closed
            &&& runtime.base == before.sources@[source_id].base
            &&& waiting_jobs(runtime.tx@) == waiting_jobs(before.sources@[source_id].tx@)
        },
        suspended.current.status == SessionStatus::Suspended,
        suspended.current.message matches Some(message) && message@ == "UserDisconnect"@,
        session.recorder matches Some(recorder) && match recorder.current_epoch_id {
            Some(epoch_id) => row matches Some(row) && ends_connection(
                row,
                uuid_to_text(recorder.session_id.value),
                uuid_to_text(epoch_id.value),
                source_id,
                before.sources@[source_id].base.source_epoch,
                "UserDisconnect"@,
            ),
            None => row is None,
        },
        suspended.recorder matches Some(recorder) && recorder.current_epoch_id is None,
        once_more == Ok::<Option<EpochEnd>, crate::error::ToolboxError>(None),
        last.status == SourceStatus::Disconnected,
        last.queue_depths == QueueDepths::none_spec(),
        result matches Err(error) && error@ == not_connected_error(
            "device.disconnect"@,
            source_id,
        ),
{
    assert(stopped.sources@ == taken.sources@);
    assert(!later.sources@.dom().contains(source_id));
    assert(waiting_jobs(stopped.leaving->Some_0.tx@) =~= waiting_jobs(
        before.sources@[source_id].tx@,
    ));
}

} // verus!
