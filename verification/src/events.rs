//! What the event loop decides: which workspaces a window manager's event
//! renames, what is submitted next, and when the loop ends.
//!
//! The loop is either idle, waiting for the next event, or dispatching the
//! commands of one focus change, one after the other. The decisions are
//! functions of what came in; receiving and submitting is the caller's part.
use crate::config::{Config, ConfigView};
use crate::nodes::{
    construct_rename_cmd, identifiers, pair_view, rename_of, unmapped_of, AppIds, WorkspaceNode,
};
use crate::text::views;
use vstd::prelude::*;

verus! {

/// What happened to a workspace.
#[derive(Clone, Copy, Debug, PartialEq, Eq, Structural)]
pub enum Change {
    /// The workspace was focused.
    Focus,
    /// Anything else: the workspace was created, emptied, moved, renamed, ...
    Other,
}

/// An event of the window manager.
pub enum Event {
    /// Something happened to a workspace. For a focus change `current` is the
    /// workspace that has the focus now and `old` the one that had it before.
    Workspace { change: Change, current: Option<WorkspaceNode>, old: Option<WorkspaceNode> },
    /// An event of a category that was not subscribed to.
    Unrequested,
}

/// What the event stream gave.
pub enum Received {
    /// The next event.
    Event(Event),
    /// The stream has ended.
    End,
    /// The stream has failed.
    Failure,
}

/// What the command channel gave for one submitted command.
pub enum Reply {
    /// The window manager answered: for each part of the command whether it
    /// succeeded.
    Outcomes(Vec<bool>),
    /// The channel has failed.
    Failure,
}

/// Why the loop cannot go on.
#[derive(Clone, Copy, Debug, PartialEq, Eq, Structural)]
pub enum Fatal {
    /// The event stream or the command channel failed.
    Transport,
    /// An event came that was not subscribed to.
    UnexpectedEvent,
}

/// What the loop does next, and the state it is in while it does so.
pub enum Next {
    /// Idle: wait for the next event.
    Await,
    /// Dispatching: submit `command`, which renames the workspace shown as
    /// `name`; `pending` are the commands that follow it.
    Submit { name: String, command: String, pending: Vec<(String, String)> },
    /// The event stream has ended: the loop ends with it.
    Stop,
    /// The loop ends with an error.
    Abort(Fatal),
}

/// `Next` as plain values.
pub enum Plan {
    Await,
    /// The commands still to submit, the one to submit now first.
    Submit(Seq<(Seq<char>, Seq<char>)>),
    Stop,
    Abort(Fatal),
}

/// Names and commands as plain texts.
pub open spec fn pairs(v: Seq<(String, String)>) -> Seq<(Seq<char>, Seq<char>)> {
    Seq::new(v.len(), |i: int| pair_view(v[i]))
}

impl View for Next {
    type V = Plan;

    open spec fn view(&self) -> Plan {
        match self {
            Next::Await => Plan::Await,
            Next::Submit { name, command, pending } => Plan::Submit(
                seq![(name@, command@)] + pairs(pending@),
            ),
            Next::Stop => Plan::Stop,
            Next::Abort(why) => Plan::Abort(*why),
        }
    }
}

/// The command for one side of a focus change: none where the side is
/// missing or is a workspace that cannot be renamed.
pub open spec fn side_commands(side: Option<WorkspaceNode>, cfg: ConfigView) -> Seq<
    (Seq<char>, Seq<char>),
> {
    match side {
        Some(ws) => match rename_of(ws, cfg) {
            Some(pair) => seq![pair],
            None => Seq::empty(),
        },
        None => Seq::empty(),
    }
}

/// The commands that an event calls for: for a focus change that of the
/// workspace focused now, then that of the workspace focused before; for
/// any other event none.
pub open spec fn event_commands(event: Event, cfg: ConfigView) -> Seq<(Seq<char>, Seq<char>)> {
    match event {
        Event::Workspace { change: Change::Focus, current, old } => side_commands(current, cfg)
            + side_commands(old, cfg),
        _ => Seq::empty(),
    }
}

/// The identifiers on one side of a focus change that the configuration has
/// no icon for: none where the side is missing or is a workspace that is not
/// renamed.
pub open spec fn side_unmapped(side: Option<WorkspaceNode>, cfg: ConfigView) -> Seq<Seq<char>> {
    match side {
        Some(ws) => if rename_of(ws, cfg) is Some {
            unmapped_of(identifiers(ws), cfg)
        } else {
            Seq::empty()
        },
        None => Seq::empty(),
    }
}

/// The identifiers to warn about when an event comes in: for a focus change
/// those of the workspace focused now, then those of the workspace focused
/// before; for any other event none.
pub open spec fn event_unmapped(event: Event, cfg: ConfigView) -> Seq<Seq<char>> {
    match event {
        Event::Workspace { change: Change::Focus, current, old } => side_unmapped(current, cfg)
            + side_unmapped(old, cfg),
        _ => Seq::empty(),
    }
}

/// With commands to submit the loop dispatches them in their order;
/// without, it waits for the next event.
pub open spec fn plan_for(commands: Seq<(Seq<char>, Seq<char>)>) -> Plan {
    if commands.len() == 0 {
        Plan::Await
    } else {
        Plan::Submit(commands)
    }
}

/// What the idle loop does with what the event stream gave.
pub open spec fn plan_on_received(received: Received, cfg: ConfigView) -> Plan {
    match received {
        Received::Event(Event::Unrequested) => Plan::Abort(Fatal::UnexpectedEvent),
        Received::Event(event) => plan_for(event_commands(event, cfg)),
        Received::End => Plan::Stop,
        Received::Failure => Plan::Abort(Fatal::Transport),
    }
}

/// What the dispatching loop does with the reply to the command it
/// submitted, `pending` being the commands that follow.
pub open spec fn plan_on_reply(pending: Seq<(Seq<char>, Seq<char>)>, reply: Reply) -> Plan {
    match reply {
        Reply::Outcomes(_) => plan_for(pending),
        Reply::Failure => Plan::Abort(Fatal::Transport),
    }
}

/// One event calls for at most two commands: one for each side of a focus
/// change that is there and can be renamed.
pub proof fn lemma_event_commands_count(event: Event, cfg: ConfigView)
    ensures
        event_commands(event, cfg).len() <= 2,
        event matches Event::Workspace { change: Change::Focus, current, old }
            ==> event_commands(event, cfg).len() == side_commands(current, cfg).len()
            + side_commands(old, cfg).len(),
        !(event matches Event::Workspace { change: Change::Focus, .. }) ==> event_commands(
            event,
            cfg,
        ).len() == 0,
{
}

/// The idle loop starts dispatching on a focus change and on nothing else;
/// any other change of a workspace leaves it idle.
pub proof fn lemma_only_focus_dispatches(received: Received, cfg: ConfigView)
    ensures
        plan_on_received(received, cfg) is Submit ==> received matches Received::Event(
            Event::Workspace { change: Change::Focus, .. },
        ),
        received matches Received::Event(Event::Workspace { change: Change::Other, .. })
            ==> plan_on_received(received, cfg) == Plan::Await,
{
}

/// Whether the commands of a focus change succeed or fail, the loop goes on
/// with the commands that follow and is idle again after the last one.
pub proof fn lemma_outcomes_do_not_matter(
    pending: Seq<(Seq<char>, Seq<char>)>,
    a: Vec<bool>,
    b: Vec<bool>,
)
    ensures
        plan_on_reply(pending, Reply::Outcomes(a)) == plan_on_reply(pending, Reply::Outcomes(b)),
        pending.len() == 0 ==> plan_on_reply(pending, Reply::Outcomes(a)) == Plan::Await,
{
}

/// Turns the commands to submit into the loop's next step.
fn next_for(commands: Vec<(String, String)>) -> (next: Next)
    ensures
        next@ == plan_for(pairs(commands@)),
{
    let mut pending = commands;
    if pending.len() == 0 {
        return Next::Await;
    }
    let ghost all = pairs(pending@);
    let (name, command) = pending.remove(0);
    assert(seq![(name@, command@)] + pairs(pending@) =~= all);
    Next::Submit { name, command, pending }
}

/// Appends the command for one side of a focus change, if there is one.
fn push_side(side: &Option<WorkspaceNode>, cfg: &Config, out: &mut Vec<(String, String)>)
    ensures
        pairs(final(out)@) == pairs(old(out)@) + side_commands(*side, cfg@),
{
    let ghost before = pairs(out@);
    match side {
        Some(ws) => match construct_rename_cmd(ws, cfg) {
            Some(pair) => {
                out.push(pair);
                assert(pairs(out@) =~= before + seq![pair_view(pair)]);
            },
            None => {
                assert(before + Seq::empty() =~= before);
            },
        },
        None => {
            assert(before + Seq::empty() =~= before);
        },
    }
}

/// Appends the identifiers of one side of a focus change that have no icon.
fn push_side_unmapped(side: &Option<WorkspaceNode>, cfg: &Config, out: &mut Vec<String>)
    ensures
        views(final(out)@) == views(old(out)@) + side_unmapped(*side, cfg@),
{
    let ghost before = views(out@);
    match side {
        Some(ws) => {
            if ws.name.is_some() && ws.num.is_some() {
                let mut found = AppIds::from(ws).unmapped(cfg);
                let ghost added = views(found@);
                out.append(&mut found);
                assert(views(out@) =~= before + added);
            } else {
                assert(before + Seq::empty() =~= before);
            }
        },
        None => {
            assert(before + Seq::empty() =~= before);
        },
    }
}

/// The identifiers to warn about when an event comes in: those on the
/// workspaces that the event renames for which the configuration has no
/// icon, so that they are shown with the default icon.
pub fn unmapped_for(event: &Event, cfg: &Config) -> (out: Vec<String>)
    ensures
        views(out@) == event_unmapped(*event, cfg@),
{
    let mut out: Vec<String> = Vec::new();
    match event {
        Event::Workspace { change, current, old } => {
            if *change == Change::Focus {
                assert(views(out@) =~= Seq::empty());
                push_side_unmapped(current, cfg, &mut out);
                push_side_unmapped(old, cfg, &mut out);
                assert(Seq::empty() + side_unmapped(*current, cfg@) + side_unmapped(*old, cfg@)
                    =~= side_unmapped(*current, cfg@) + side_unmapped(*old, cfg@));
            } else {
                assert(views(out@) =~= Seq::empty());
            }
        },
        Event::Unrequested => {
            assert(views(out@) =~= Seq::empty());
        },
    }
    out
}

/// The rename commands that an event calls for, each with the name of the
/// workspace it renames.
pub fn commands_for(event: &Event, cfg: &Config) -> (out: Vec<(String, String)>)
    ensures
        pairs(out@) == event_commands(*event, cfg@),
{
    let mut out: Vec<(String, String)> = Vec::new();
    match event {
        Event::Workspace { change, current, old } => {
            if *change == Change::Focus {
                assert(pairs(out@) =~= Seq::empty());
                push_side(current, cfg, &mut out);
                push_side(old, cfg, &mut out);
                assert(Seq::empty() + side_commands(*current, cfg@) + side_commands(*old, cfg@)
                    =~= side_commands(*current, cfg@) + side_commands(*old, cfg@));
            } else {
                assert(pairs(out@) =~= Seq::empty());
            }
        },
        Event::Unrequested => {
            assert(pairs(out@) =~= Seq::empty());
        },
    }
    out
}

/// The idle loop's next step, given what the event stream gave.
pub fn on_received(received: &Received, cfg: &Config) -> (next: Next)
    ensures
        next@ == plan_on_received(*received, cfg@),
{
    match received {
        Received::Event(event) => match event {
            Event::Unrequested => Next::Abort(Fatal::UnexpectedEvent),
            Event::Workspace { .. } => next_for(commands_for(event, cfg)),
        },
        Received::End => Next::Stop,
        Received::Failure => Next::Abort(Fatal::Transport),
    }
}

/// The dispatching loop's next step, given the reply to the command it
/// submitted and the commands that follow it.
pub fn on_reply(pending: Vec<(String, String)>, reply: &Reply) -> (next: Next)
    ensures
        next@ == plan_on_reply(pairs(pending@), *reply),
{
    match reply {
        Reply::Outcomes(_) => next_for(pending),
        Reply::Failure => Next::Abort(Fatal::Transport),
    }
}

/// The number of parts of a command that failed.
pub fn failures(outcomes: &Vec<bool>) -> (n: usize)
    ensures
        n == outcomes@.filter(|ok: bool| !ok).len(),
{
    let mut n: usize = 0;
    let mut i: usize = 0;
    assert(outcomes@.take(0) =~= Seq::empty());
    while i < outcomes.len()
        invariant
            i <= outcomes.len(),
            n <= i,
            n == outcomes@.take(i as int).filter(|ok: bool| !ok).len(),
        decreases outcomes.len() - i,
    {
        proof {
            let upto = outcomes@.take(i + 1);
            assert(upto.drop_last() == outcomes@.take(i as int));
            reveal(Seq::filter);
        }
        if !outcomes[i] {
            n += 1;
        }
        i += 1;
    }
    assert(outcomes@.take(outcomes.len() as int) == outcomes@);
    n
}

} // verus!
