//! How the daemon serves one client after the other: there is one popup at a time, and a client
//! has its answer before the next one is served.

use vstd::prelude::*;
use crate::launcher::frame_step;
use crate::launcher::FrameStep;
use crate::protocol::answer_of;
use crate::protocol::law_answer_is_a_line;
use crate::protocol::response_line;
use crate::session::refusal_line;
use crate::session::refusal_of;
use crate::text::opt_text;

verus! {

/// What the daemon is busy with. Clients are told apart by numbers.
#[derive(Clone, Copy, Debug, PartialEq, Eq, Structural)]
pub enum Phase {
    /// It waits for a client.
    Waiting,
    /// It waits for what a client asks for.
    Reading { client: u64 },
    /// It shows the popup of a client.
    Showing { client: u64 },
}

/// What happens to the daemon.
#[derive(Debug)]
pub enum DaemonEvent {
    /// A client connects.
    Connected { client: u64 },
    /// The client asks for nothing that can be read.
    NoRequest,
    /// The client asks for a layout that cannot be read, and why.
    Refused { reason: String },
    /// The client asks for a popup.
    Requested,
    /// The events of a frame were handled. `exit` says whether the session is over, because
    /// something was chosen, the popup was closed or the client has hung up; `next` is another
    /// client that has connected meanwhile; `selected` is what was selected.
    Frame { exit: bool, next: Option<u64>, selected: Option<String> },
}

/// What happens to the daemon, in a specification.
pub enum EventModel {
    Connected { client: u64 },
    NoRequest,
    Refused { reason: Seq<char> },
    Requested,
    Frame { exit: bool, next: Option<u64>, selected: Option<Seq<char>> },
}

impl View for DaemonEvent {
    type V = EventModel;

    open spec fn view(&self) -> EventModel {
        match self {
            DaemonEvent::Connected { client } => EventModel::Connected { client: *client },
            DaemonEvent::NoRequest => EventModel::NoRequest,
            DaemonEvent::Refused { reason } => EventModel::Refused { reason: reason@ },
            DaemonEvent::Requested => EventModel::Requested,
            DaemonEvent::Frame { exit, next, selected } => EventModel::Frame {
                exit: *exit,
                next: *next,
                selected: opt_text(*selected),
            },
        }
    }
}

/// What the daemon does.
#[derive(Debug)]
pub enum DaemonAction {
    /// Waits for a client to connect.
    Await,
    /// Reads what a client asks for.
    Read { client: u64 },
    /// Hangs up on a client.
    Dismiss { client: u64 },
    /// Opens the popup of a client.
    Open { client: u64 },
    /// Draws a frame of the popup.
    Draw { client: u64 },
    /// Sends a line to a client.
    Send { client: u64, line: String },
    /// Closes the popup of a client.
    Close { client: u64 },
}

/// What the daemon does, in a specification.
pub enum ActionModel {
    Await,
    Read { client: u64 },
    Dismiss { client: u64 },
    Open { client: u64 },
    Draw { client: u64 },
    Send { client: u64, line: Seq<char> },
    Close { client: u64 },
}

impl View for DaemonAction {
    type V = ActionModel;

    open spec fn view(&self) -> ActionModel {
        match self {
            DaemonAction::Await => ActionModel::Await,
            DaemonAction::Read { client } => ActionModel::Read { client: *client },
            DaemonAction::Dismiss { client } => ActionModel::Dismiss { client: *client },
            DaemonAction::Open { client } => ActionModel::Open { client: *client },
            DaemonAction::Draw { client } => ActionModel::Draw { client: *client },
            DaemonAction::Send { client, line } => ActionModel::Send {
                client: *client,
                line: line@,
            },
            DaemonAction::Close { client } => ActionModel::Close { client: *client },
        }
    }
}

/// The models of a list of actions.
pub open spec fn action_models(v: Seq<DaemonAction>) -> Seq<ActionModel> {
    v.map_values(|a: DaemonAction| a@)
}

/// What the daemon does, and what it is busy with then, after an event. A client whose request
/// cannot be read gets no answer. A session ends when it is over and when another client has
/// connected: the client is answered, its popup is closed, and the other client, if there is
/// one, comes next. What cannot happen in a phase changes nothing.
pub open spec fn stepped(p: Phase, e: EventModel) -> (Phase, Seq<ActionModel>) {
    match (p, e) {
        (Phase::Waiting, EventModel::Connected { client }) => (
            Phase::Reading { client },
            seq![ActionModel::Read { client }],
        ),
        (Phase::Reading { client }, EventModel::NoRequest) => (
            Phase::Waiting,
            seq![ActionModel::Dismiss { client }, ActionModel::Await],
        ),
        (Phase::Reading { client }, EventModel::Refused { reason }) => (
            Phase::Waiting,
            seq![
                ActionModel::Send { client, line: refusal_of(reason) },
                ActionModel::Dismiss { client },
                ActionModel::Await,
            ],
        ),
        (Phase::Reading { client }, EventModel::Requested) => (
            Phase::Showing { client },
            seq![ActionModel::Open { client }],
        ),
        (Phase::Showing { client }, EventModel::Frame { exit, next, selected }) => if !exit
            && next is None {
            (p, seq![ActionModel::Draw { client }])
        } else {
            let ended = seq![
                ActionModel::Send { client, line: answer_of(selected) },
                ActionModel::Close { client },
                ActionModel::Dismiss { client },
            ];
            match next {
                Some(other) => (
                    Phase::Reading { client: other },
                    ended.push(ActionModel::Read { client: other }),
                ),
                None => (Phase::Waiting, ended.push(ActionModel::Await)),
            }
        },
        _ => (p, Seq::empty()),
    }
}

/// The daemon, as far as it decides.
#[derive(Debug)]
pub struct Daemon {
    pub phase: Phase,
}

impl Daemon {
    /// A daemon that waits for its first client.
    pub fn new() -> (r: Daemon)
        ensures
            r.phase == Phase::Waiting,
    {
        Daemon { phase: Phase::Waiting }
    }

    /// What the daemon does after an event, in the order in which it is to be done.
    pub fn step(&mut self, e: &DaemonEvent) -> (r: Vec<DaemonAction>)
        ensures
            (final(self).phase, action_models(r@)) == stepped(old(self).phase, e@),
    {
        let mut out: Vec<DaemonAction> = Vec::new();
        let ghost want = stepped(self.phase, e@).1;
        match (self.phase, e) {
            (Phase::Waiting, DaemonEvent::Connected { client }) => {
                self.phase = Phase::Reading { client: *client };
                out.push(DaemonAction::Read { client: *client });
            },
            (Phase::Reading { client }, DaemonEvent::NoRequest) => {
                self.phase = Phase::Waiting;
                out.push(DaemonAction::Dismiss { client });
                out.push(DaemonAction::Await);
            },
            (Phase::Reading { client }, DaemonEvent::Refused { reason }) => {
                self.phase = Phase::Waiting;
                out.push(DaemonAction::Send { client, line: refusal_line(reason.as_str()) });
                out.push(DaemonAction::Dismiss { client });
                out.push(DaemonAction::Await);
            },
            (Phase::Reading { client }, DaemonEvent::Requested) => {
                self.phase = Phase::Showing { client };
                out.push(DaemonAction::Open { client });
            },
            (Phase::Showing { client }, DaemonEvent::Frame { exit, next, selected }) => {
                match frame_step(*exit, next.is_some()) {
                    FrameStep::Draw => {
                        out.push(DaemonAction::Draw { client });
                    },
                    _ => {
                        out.push(DaemonAction::Send { client, line: response_line(selected) });
                        out.push(DaemonAction::Close { client });
                        out.push(DaemonAction::Dismiss { client });
                        match next {
                            Some(other) => {
                                self.phase = Phase::Reading { client: *other };
                                out.push(DaemonAction::Read { client: *other });
                            },
                            None => {
                                self.phase = Phase::Waiting;
                                out.push(DaemonAction::Await);
                            },
                        }
                    },
                }
            },
            _ => {},
        }
        proof {
            assert(action_models(out@) =~= want);
        }
        out
    }
}

// ---------------------------------------------------------------------------------------
// Laws
// ---------------------------------------------------------------------------------------

/// What the daemon is busy with after some events.
pub open spec fn phase_after(events: Seq<EventModel>) -> Phase
    decreases events.len(),
{
    if events.len() == 0 {
        Phase::Waiting
    } else {
        stepped(phase_after(events.drop_last()), events.last()).0
    }
}

/// All that the daemon has done after some events.
pub open spec fn done_after(events: Seq<EventModel>) -> Seq<ActionModel>
    decreases events.len(),
{
    if events.len() == 0 {
        Seq::empty()
    } else {
        done_after(events.drop_last()) + stepped(
            phase_after(events.drop_last()),
            events.last(),
        ).1
    }
}

/// Between the places `i` and `j` the client is sent a line, and then its popup is closed.
pub open spec fn settled(done: Seq<ActionModel>, i: int, j: int, client: u64) -> bool {
    exists|k: int, m: int|
        i < k < m < j && (#[trigger] done[k] matches ActionModel::Send { client: c, .. } && c
            == client) && #[trigger] done[m] == ActionModel::Close { client }
}

/// A popup that was opened is settled before place `j`, or it is the one that is shown.
spec fn settled_or_shown(done: Seq<ActionModel>, p: Phase) -> bool {
    forall|i: int, a: u64|
        0 <= i < done.len() && #[trigger] done[i] == (ActionModel::Open { client: a })
            ==> #[trigger] settled(done, i, done.len() as int, a) || p == (Phase::Showing {
            client: a,
        })
}

/// Whatever is opened or read comes after every popup before it has been settled.
spec fn in_turn(done: Seq<ActionModel>) -> bool {
    forall|i: int, j: int, a: u64|
        0 <= i < j < done.len() && #[trigger] done[i] == (ActionModel::Open { client: a }) && (
        #[trigger] done[j] is Open || done[j] is Read) ==> #[trigger] settled(done, i, j, a)
}

proof fn lemma_settled_grows(
    done: Seq<ActionModel>,
    more: Seq<ActionModel>,
    i: int,
    j: int,
    l: int,
    a: u64,
)
    requires
        0 <= i,
        settled(done, i, j, a),
        j <= done.len(),
        j <= l,
    ensures
        settled(done + more, i, l, a),
{
    let (k, m) = choose|k: int, m: int|
        i < k < m < j && (#[trigger] done[k] matches ActionModel::Send { client: c, .. } && c == a)
            && #[trigger] done[m] == ActionModel::Close { client: a };
    assert((done + more)[k] == done[k]);
    assert((done + more)[m] == done[m]);
}

proof fn lemma_turns(events: Seq<EventModel>)
    ensures
        settled_or_shown(done_after(events), phase_after(events)),
        in_turn(done_after(events)),
    decreases events.len(),
{
    if events.len() > 0 {
        let before = events.drop_last();
        lemma_turns(before);
        let p = phase_after(before);
        let done = done_after(before);
        let (q, more) = stepped(p, events.last());
        let all = done + more;
        let n = done.len() as int;
        assert forall|i: int, j: int, a: u64|
            0 <= i < j < all.len() && #[trigger] all[i] == (ActionModel::Open { client: a }) && (
            #[trigger] all[j] is Open || all[j] is Read) implies #[trigger] settled(
            all,
            i,
            j,
            a,
        ) by {
            if j < n {
                assert(done[i] == all[i]);
                assert(done[j] == all[j]);
                assert(settled(done, i, j, a));
                lemma_settled_grows(done, more, i, j, j, a);
            } else {
                assert(all[j] == more[j - n]);
                if i < n {
                    assert(done[i] == all[i]);
                    if settled(done, i, n, a) {
                        lemma_settled_grows(done, more, i, n, j, a);
                    } else {
                        assert(p == Phase::Showing { client: a });
                        assert(j == n + 3);
                        assert(all[n] == more[0]);
                        assert(all[n + 1] == more[1]);
                        assert(settled(all, i, j, a));
                    }
                } else {
                    assert(all[i] == more[i - n]);
                }
            }
        }
        assert forall|i: int, a: u64|
            0 <= i < all.len() && #[trigger] all[i] == (ActionModel::Open { client: a })
            implies #[trigger] settled(all, i, all.len() as int, a) || q == (Phase::Showing {
            client: a,
        }) by {
            if i < n {
                assert(done[i] == all[i]);
                if settled(done, i, n, a) {
                    lemma_settled_grows(done, more, i, n, all.len() as int, a);
                } else {
                    assert(p == Phase::Showing { client: a });
                    if q != p {
                        assert(all[n] == more[0]);
                        assert(all[n + 1] == more[1]);
                    }
                }
            } else {
                assert(all[i] == more[i - n]);
            }
        }
    }
}

/// There is one popup at a time, and the answer comes before the next request: between the
/// opening of a popup and the next time that the daemon opens one or reads a request, its
/// client is sent a line, and then the popup is closed.
pub proof fn law_one_popup_at_a_time(events: Seq<EventModel>, i: int, j: int, client: u64)
    requires
        0 <= i < j < done_after(events).len(),
        done_after(events)[i] == (ActionModel::Open { client }),
        done_after(events)[j] is Open || done_after(events)[j] is Read,
    ensures
        settled(done_after(events), i, j, client),
{
    lemma_turns(events);
    assert(in_turn(done_after(events)));
}

/// A session that is over, or that another client cuts short, ends at once: the client is sent
/// what was selected, or nothing, and a line feed; its popup is closed; and the other client is
/// served next.
pub proof fn law_session_ends_with_answer(
    client: u64,
    exit: bool,
    next: Option<u64>,
    selected: Option<Seq<char>>,
)
    requires
        exit || next is Some,
    ensures
        ({
            let (p, done) = stepped(
                Phase::Showing { client },
                EventModel::Frame { exit, next, selected },
            );
            &&& done[0] == (ActionModel::Send { client, line: answer_of(selected) })
            &&& done[1] == (ActionModel::Close { client })
            &&& match next {
                Some(other) => p == (Phase::Reading { client: other }) && done.last() == (
                ActionModel::Read { client: other }),
                None => p == Phase::Waiting && done.last() == ActionModel::Await,
            }
        }),
{
}

/// A client whose request cannot be read does not hold up the next one, and no popup is opened
/// for it.
pub proof fn law_bad_request_passes(client: u64, reason: Seq<char>)
    ensures
        stepped(Phase::Reading { client }, EventModel::NoRequest).0 == Phase::Waiting,
        stepped(Phase::Reading { client }, EventModel::Refused { reason }).0 == Phase::Waiting,
        !stepped(Phase::Reading { client }, EventModel::NoRequest).1.contains(
            ActionModel::Open { client },
        ),
        !stepped(Phase::Reading { client }, EventModel::Refused { reason }).1.contains(
            ActionModel::Open { client },
        ),
{
}

/// A client that connects is read; a request opens a popup for it, which is drawn frame by
/// frame until it is over or another client connects.
pub proof fn law_session_goes_on(client: u64, selected: Option<Seq<char>>)
    ensures
        stepped(Phase::Waiting, EventModel::Connected { client }) == (
            Phase::Reading { client },
            seq![ActionModel::Read { client }],
        ),
        stepped(Phase::Reading { client }, EventModel::Requested) == (
            Phase::Showing { client },
            seq![ActionModel::Open { client }],
        ),
        stepped(
            Phase::Showing { client },
            EventModel::Frame { exit: false, next: None, selected },
        ) == (Phase::Showing { client }, seq![ActionModel::Draw { client }]),
{
}

/// A session that is over, or that another client interrupts, ends with the answer on a line,
/// the end of its popup and the end of the connection; then the other client is read, or the
/// next one is awaited.
pub proof fn law_session_ends_in_order(client: u64, other: u64, exit: bool, item: Seq<char>)
    ensures
        stepped(
            Phase::Showing { client },
            EventModel::Frame { exit: true, next: None, selected: Some(item) },
        ) == (
            Phase::Waiting,
            seq![
                ActionModel::Send { client, line: item + "\n"@ },
                ActionModel::Close { client },
                ActionModel::Dismiss { client },
                ActionModel::Await,
            ],
        ),
        stepped(
            Phase::Showing { client },
            EventModel::Frame { exit, next: Some(other), selected: None },
        ) == (
            Phase::Reading { client: other },
            seq![
                ActionModel::Send { client, line: "\n"@ },
                ActionModel::Close { client },
                ActionModel::Dismiss { client },
                ActionModel::Read { client: other },
            ],
        ),
{
    law_answer_is_a_line(item);
    let ended = seq![
        ActionModel::Send { client, line: answer_of(Some(item)) },
        ActionModel::Close { client },
        ActionModel::Dismiss { client },
    ];
    assert(ended.push(ActionModel::Await) =~= seq![
        ActionModel::Send { client, line: item + "\n"@ },
        ActionModel::Close { client },
        ActionModel::Dismiss { client },
        ActionModel::Await,
    ]);
    let left = seq![
        ActionModel::Send { client, line: answer_of(None) },
        ActionModel::Close { client },
        ActionModel::Dismiss { client },
    ];
    assert(left.push(ActionModel::Read { client: other }) =~= seq![
        ActionModel::Send { client, line: "\n"@ },
        ActionModel::Close { client },
        ActionModel::Dismiss { client },
        ActionModel::Read { client: other },
    ]);
}

/// A client without a request that can be read is let go without an answer; one whose layout
/// cannot be read is told why first. Either way the next client is awaited.
pub proof fn law_bad_requests_answered(client: u64, reason: Seq<char>)
    ensures
        stepped(Phase::Reading { client }, EventModel::NoRequest) == (
            Phase::Waiting,
            seq![ActionModel::Dismiss { client }, ActionModel::Await],
        ),
        stepped(Phase::Reading { client }, EventModel::Refused { reason }) == (
            Phase::Waiting,
            seq![
                ActionModel::Send {
                    client,
                    line: "Failed to parse JSON layout: "@ + reason + "\n"@,
                },
                ActionModel::Dismiss { client },
                ActionModel::Await,
            ],
        ),
{
}

/// What cannot happen in a phase changes nothing.
pub proof fn law_other_events_pass(client: u64, e: EventModel)
    ensures
        !(e is Connected) ==> stepped(Phase::Waiting, e) == (
            Phase::Waiting,
            Seq::<ActionModel>::empty(),
        ),
        e is Connected || e is Frame ==> stepped(Phase::Reading { client }, e) == (
            Phase::Reading { client },
            Seq::<ActionModel>::empty(),
        ),
        !(e is Frame) ==> stepped(Phase::Showing { client }, e) == (
            Phase::Showing { client },
            Seq::<ActionModel>::empty(),
        ),
{
}

} // verus!
