//! Marking recordings that were cut off.

use crate::text::{append_decimal, decimal};
use vstd::prelude::*;
use vstd::string::*;

verus! {

/// What a recording says of the state of a session.
#[derive(Debug)]
pub struct StoredSession {
    pub id: String,
    pub status: String,
    pub ended_utc_ns: Option<i64>,
}

/// What a recording says of the end of a connection.
#[derive(Debug)]
pub struct StoredEpoch {
    pub id: String,
    pub ended_utc_ns: Option<i64>,
    pub end_reason: Option<String>,
}

/// What a recording says after it was looked through.
#[derive(Debug)]
pub struct Recovery {
    pub sessions: Vec<StoredSession>,
    pub epochs: Vec<StoredEpoch>,
    /// Whether a session had been cut off.
    pub interrupted: bool,
}

/// Whether a session with this status was cut off: nobody writes to it any more, and it
/// was not closed.
pub open spec fn cut_off(status: Seq<char>) -> bool {
    status == "Recording"@ || status == "Suspended"@ || status == "Finalizing"@
}

fn is_cut_off(status: &String) -> (yes: bool)
    ensures
        yes == cut_off(status@),
{
    *status == "Recording".to_owned() || *status == "Suspended".to_owned() || *status
        == "Finalizing".to_owned()
}

/// Whether any of the sessions was cut off.
pub open spec fn any_cut_off(sessions: Seq<StoredSession>) -> bool {
    exists|i: int| 0 <= i < sessions.len() && cut_off(#[trigger] sessions[i].status@)
}

/// A time, or another one where it is not known.
pub open spec fn known_or(time: Option<i64>, now_ns: i64) -> Option<i64> {
    match time {
        Some(time) => Some(time),
        None => Some(now_ns),
    }
}

/// What is said of a session after its recording was looked through.
pub open spec fn session_recovered(before: StoredSession, now_ns: i64, after: StoredSession) -> bool {
    if cut_off(before.status@) {
        &&& after.id == before.id
        &&& after.status@ == "Interrupted"@
        &&& after.ended_utc_ns == known_or(before.ended_utc_ns, now_ns)
    } else {
        after == before
    }
}

/// What is said of a connection after the recording, in which a session was cut off,
/// was looked through.
pub open spec fn epoch_recovered(before: StoredEpoch, now_ns: i64, after: StoredEpoch) -> bool {
    if before.ended_utc_ns is None {
        &&& after.id == before.id
        &&& after.ended_utc_ns == Some(now_ns)
        &&& match before.end_reason {
            Some(reason) => after.end_reason == Some(reason),
            None => after.end_reason matches Some(reason) && reason@ == "Interrupted"@,
        }
    } else {
        after == before
    }
}

/// What is said of a recording after it was looked through: sessions that were cut off
/// are marked, and then connections that have no end are given one.
pub open spec fn recovered(
    sessions: Seq<StoredSession>,
    epochs: Seq<StoredEpoch>,
    now_ns: i64,
    recovery: Recovery,
) -> bool {
    &&& recovery.sessions@.len() == sessions.len()
    &&& recovery.epochs@.len() == epochs.len()
    &&& recovery.interrupted == any_cut_off(sessions)
    &&& forall|i: int|
        0 <= i < sessions.len() ==> session_recovered(
            #[trigger] sessions[i],
            now_ns,
            recovery.sessions@[i],
        )
    &&& forall|i: int|
        0 <= i < epochs.len() ==> if recovery.interrupted {
            epoch_recovered(#[trigger] epochs[i], now_ns, recovery.epochs@[i])
        } else {
            recovery.epochs@[i] == epochs[i]
        }
}

fn mark_session(session: &StoredSession, now_ns: i64) -> (marked: StoredSession)
    ensures
        session_recovered(*session, now_ns, marked),
{
    if is_cut_off(&session.status) {
        StoredSession {
            id: session.id.clone(),
            status: "Interrupted".to_owned(),
            ended_utc_ns: match session.ended_utc_ns {
                Some(time) => Some(time),
                None => Some(now_ns),
            },
        }
    } else {
        StoredSession {
            id: session.id.clone(),
            status: session.status.clone(),
            ended_utc_ns: session.ended_utc_ns,
        }
    }
}

fn copied_reason(reason: &Option<String>) -> (copy: Option<String>)
    ensures
        copy == *reason,
{
    match reason {
        Some(reason) => Some(reason.clone()),
        None => None,
    }
}

fn end_epoch(epoch: &StoredEpoch, now_ns: i64) -> (ended: StoredEpoch)
    ensures
        epoch_recovered(*epoch, now_ns, ended),
{
    if epoch.ended_utc_ns.is_none() {
        StoredEpoch {
            id: epoch.id.clone(),
            ended_utc_ns: Some(now_ns),
            end_reason: match &epoch.end_reason {
                Some(reason) => Some(reason.clone()),
                None => Some("Interrupted".to_owned()),
            },
        }
    } else {
        StoredEpoch {
            id: epoch.id.clone(),
            ended_utc_ns: epoch.ended_utc_ns,
            end_reason: copied_reason(&epoch.end_reason),
        }
    }
}

/// Looks a recording through for sessions that were cut off.
pub fn recover_interrupted_sessions(
    sessions: &Vec<StoredSession>,
    epochs: Vec<StoredEpoch>,
    now_ns: i64,
) -> (recovery: Recovery)
    ensures
        recovered(sessions@, epochs@, now_ns, recovery),
{
    let mut marked: Vec<StoredSession> = Vec::new();
    let mut interrupted = false;
    let mut i: usize = 0;
    while i < sessions.len()
        invariant
            i <= sessions@.len(),
            marked@.len() == i,
            interrupted == any_cut_off(sessions@.take(i as int)),
            forall|j: int|
                0 <= j < i ==> session_recovered(#[trigger] sessions@[j], now_ns, marked@[j]),
        decreases sessions@.len() - i,
    {
        let ghost head = sessions@.take(i as int);
        let ghost longer = sessions@.take(i + 1);
        let yes = is_cut_off(&sessions[i].status);
        proof {
            if any_cut_off(head) {
                let k = choose|k: int|
                    0 <= k < head.len() && cut_off(#[trigger] head[k].status@);
                assert(cut_off(longer[k].status@));
            }
            if yes {
                assert(cut_off(longer[i as int].status@));
            }
            if any_cut_off(longer) {
                let k = choose|k: int|
                    0 <= k < longer.len() && cut_off(#[trigger] longer[k].status@);
                if k < i {
                    assert(cut_off(head[k].status@));
                }
            }
        }
        interrupted = interrupted || yes;
        marked.push(mark_session(&sessions[i], now_ns));
        i += 1;
    }
    assert(sessions@.take(i as int) =~= sessions@);
    if !interrupted {
        return Recovery { sessions: marked, epochs, interrupted };
    }
    let mut ended: Vec<StoredEpoch> = Vec::new();
    let mut k: usize = 0;
    while k < epochs.len()
        invariant
            k <= epochs@.len(),
            ended@.len() == k,
            forall|j: int| 0 <= j < k ==> epoch_recovered(#[trigger] epochs@[j], now_ns, ended@[j]),
        decreases epochs@.len() - k,
    {
        ended.push(end_epoch(&epochs[k], now_ns));
        k += 1;
    }
    Recovery { sessions: marked, epochs: ended, interrupted }
}

proof fn lemma_interrupted_is_no_working_status()
    ensures
        !cut_off("Interrupted"@),
{
    reveal_strlit("Interrupted");
    reveal_strlit("Recording");
    reveal_strlit("Suspended");
    reveal_strlit("Finalizing");
    assert("Interrupted"@.len() == 11 && "Finalizing"@.len() == 10);
    assert("Recording"@.len() == 9 && "Suspended"@.len() == 9);
}

/// After a recording was looked through, no session of it is under way. If one had been
/// cut off, every connection has an end.
pub proof fn law_nothing_is_left_under_way(
    sessions: Seq<StoredSession>,
    epochs: Seq<StoredEpoch>,
    now_ns: i64,
    recovery: Recovery,
)
    requires
        recovered(sessions, epochs, now_ns, recovery),
    ensures
        !any_cut_off(recovery.sessions@),
        recovery.interrupted ==> forall|i: int|
            0 <= i < recovery.epochs@.len() ==> (#[trigger] recovery.epochs@[i]).ended_utc_ns is Some,
{
    lemma_interrupted_is_no_working_status();
    assert forall|i: int| 0 <= i < recovery.sessions@.len() implies !cut_off(
        #[trigger] recovery.sessions@[i].status@,
    ) by {
        assert(session_recovered(sessions[i], now_ns, recovery.sessions@[i]));
    }
    if recovery.interrupted {
        assert forall|i: int| 0 <= i < recovery.epochs@.len() implies (
        #[trigger] recovery.epochs@[i]).ended_utc_ns is Some by {
            assert(epoch_recovered(epochs[i], now_ns, recovery.epochs@[i]));
        }
    }
}

/// Looking a recording through a second time changes nothing.
pub proof fn law_recovery_is_done_once(
    sessions: Seq<StoredSession>,
    epochs: Seq<StoredEpoch>,
    first_ns: i64,
    first: Recovery,
    second_ns: i64,
    second: Recovery,
)
    requires
        recovered(sessions, epochs, first_ns, first),
        recovered(first.sessions@, first.epochs@, second_ns, second),
    ensures
        !second.interrupted,
        second.sessions@ == first.sessions@,
        second.epochs@ == first.epochs@,
{
    law_nothing_is_left_under_way(sessions, epochs, first_ns, first);
    assert forall|i: int| 0 <= i < first.sessions@.len() implies second.sessions@[i]
        == first.sessions@[i] by {
        assert(session_recovered(first.sessions@[i], second_ns, second.sessions@[i]));
        assert(!cut_off(first.sessions@[i].status@));
    }
    assert(second.sessions@ =~= first.sessions@);
    assert(second.epochs@ =~= first.epochs@);
}

/// The name of a recording that starts at a time, in milliseconds.
pub open spec fn recording_name(utc_ns: nat) -> Seq<char> {
    "session-"@ + decimal(utc_ns / 1_000_000) + ".etdb"@
}

/// The name of a recording that starts at a time.
pub fn default_recording_name(utc_ns: u64) -> (name: String)
    ensures
        name@ == recording_name(utc_ns as nat),
{
    let mut name = "session-".to_owned();
    append_decimal(&mut name, utc_ns / 1_000_000);
    name.append(".etdb");
    assert(name@ =~= recording_name(utc_ns as nat));
    name
}

/// Each session that was under way when its recording was cut off is marked as interrupted,
/// and has ended now unless it is known when; all others stay as they are. Where one was
/// marked, connections that have no end have ended now, and say that they were interrupted
/// unless they say otherwise; else connections stay as they are.
pub proof fn law_what_was_cut_off_is_marked(
    sessions: &Vec<StoredSession>,
    epochs: Vec<StoredEpoch>,
    now_ns: i64,
    recovery: Recovery,
    i: int,
)
    requires
        call_ensures(recover_interrupted_sessions, (sessions, epochs, now_ns), recovery),
    ensures
        recovery.sessions@.len() == sessions@.len(),
        recovery.epochs@.len() == epochs@.len(),
        0 <= i < sessions@.len() ==> {
            let before = sessions@[i];
            let after = recovery.sessions@[i];
            let under_way = before.status@ == "Recording"@ || before.status@ == "Suspended"@
                || before.status@ == "Finalizing"@;
            &&& after.id == before.id
            &&& under_way ==> recovery.interrupted && after.status@ == "Interrupted"@
            &&& under_way && before.ended_utc_ns is None ==> after.ended_utc_ns == Some(now_ns)
            &&& before.ended_utc_ns is Some ==> after.ended_utc_ns == before.ended_utc_ns
            &&& !under_way ==> after == before
        },
        0 <= i < epochs@.len() ==> {
            let before = epochs@[i];
            let after = recovery.epochs@[i];
            &&& after.id == before.id
            &&& !recovery.interrupted || before.ended_utc_ns is Some ==> after == before
            &&& recovery.interrupted && before.ended_utc_ns is None ==> {
                &&& after.ended_utc_ns == Some(now_ns)
                &&& before.end_reason is Some ==> after.end_reason == before.end_reason
                &&& before.end_reason is None ==> after.end_reason is Some
                    && after.end_reason->Some_0@ == "Interrupted"@
            }
        },
        (forall|k: int|
            0 <= k < sessions@.len() ==> (#[trigger] sessions@[k]).status@ != "Recording"@
                && sessions@[k].status@ != "Suspended"@ && sessions@[k].status@ != "Finalizing"@)
            ==> !recovery.interrupted,
{
    if 0 <= i < sessions@.len() {
        assert(session_recovered(sessions@[i], now_ns, recovery.sessions@[i]));
        if cut_off(sessions@[i].status@) {
            assert(any_cut_off(sessions@));
        }
    }
    if 0 <= i < epochs@.len() && recovery.interrupted {
        assert(epoch_recovered(epochs@[i], now_ns, recovery.epochs@[i]));
    }
}

/// A recording is named for the millisecond in which it starts.
pub proof fn law_a_recording_is_named_for_its_time(utc_ns: u64, name: String, millisecond: nat)
    requires
        call_ensures(default_recording_name, (utc_ns,), name),
        millisecond * 1_000_000 <= utc_ns < (millisecond + 1) * 1_000_000,
    ensures
        name@ == "session-"@ + decimal(millisecond) + ".etdb"@,
{
    assert(utc_ns as nat / 1_000_000 == millisecond);
}

} // verus!
