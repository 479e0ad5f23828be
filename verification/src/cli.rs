//! Decisions of the command line.

use vstd::prelude::*;
use crate::text::{decimal, decimal_text, lower, lower_chars, same_text, text_of};
use crate::wrap::texts;

verus! {

/// Whether to run without a window.
pub fn runs_headless(nogui: bool, simulates: bool, gui: bool) -> (r: bool)
    ensures
        r == ((nogui || simulates) && !gui),
{
    (nogui || simulates) && !gui
}

/// Whether a simulation has this name.
pub open spec fn is_preset(name: Seq<char>) -> bool {
    name == "whatsapp"@ || name == "mail"@ || name == "calendar"@ || name == "system"@
}

/// The name of a simulation, in small letters; the words for it where there is none.
pub fn preset_name(preset: &str) -> (r: Result<String, String>)
    ensures
        match r {
            Ok(name) => is_preset(lower(preset@)) && name@ == lower(preset@),
            Err(text) => !is_preset(lower(preset@)) && text@ == "invalid --simulate preset '"@
                + lower(preset@) + "'; use whatsapp|mail|calendar|system"@,
        },
{
    let chars = lower_chars(preset);
    let name = text_of(chars.as_slice());
    if same_text(name.as_str(), "whatsapp") || same_text(name.as_str(), "mail") || same_text(
        name.as_str(),
        "calendar",
    ) || same_text(name.as_str(), "system") {
        Ok(name)
    } else {
        let mut text = "invalid --simulate preset '".to_string();
        text.append(name.as_str());
        text.append("'; use whatsapp|mail|calendar|system");
        Err(text)
    }
}

/// The robot to use where none was named: the first one that is in reach.
pub fn default_port(ports: &Vec<String>) -> (r: Result<String, &'static str>)
    ensures
        match r {
            Ok(port) => ports@.len() > 0 && port@ == ports@[0]@,
            Err(text) => ports@.len() == 0 && text@ == "no BLE devices found"@,
        },
{
    if ports.len() == 0 {
        Err("no BLE devices found")
    } else {
        Ok(ports[0].clone())
    }
}

/// The words before a simulation.
pub fn simulation_text(count: u32, preset: &str, from: &str) -> (r: String)
    ensures
        r@ == "Sending "@ + decimal(count as nat) + " simulated '"@ + preset@
            + "' notification(s) from '"@ + from@ + "'..."@,
{
    let mut s = "Sending ".to_string();
    s.append(decimal_text(count as u64).as_str());
    s.append(" simulated '");
    s.append(preset);
    s.append("' notification(s) from '");
    s.append(from);
    s.append("'...");
    s
}

/// The words after one of the simulated notifications.
pub fn progress_text(index: u32, count: u32) -> (r: String)
    requires
        index < count,
    ensures
        r@ == "Simulated notification "@ + decimal((index + 1) as nat) + "/"@ + decimal(
            count as nat,
        ) + " ACKed"@,
{
    let mut s = "Simulated notification ".to_string();
    s.append(decimal_text(index as u64 + 1).as_str());
    s.append("/");
    s.append(decimal_text(count as u64).as_str());
    s.append(" ACKed");
    s
}

/// What a run without a window does next.
#[derive(Clone, Debug, PartialEq, Eq)]
pub enum HeadlessStep {
    /// Look for the robots in reach.
    Search,
    /// Open the link to this robot.
    Open(String),
    Ping,
    /// Send the simulated notification at this place.
    Simulate(u32),
    /// Wait before the simulated notification at this place.
    Wait(u32),
    /// Forward the notifications of the desktop.
    Forward,
    Done,
    /// Nothing more. The words say why; without any, the error of the last step does.
    Failed(Option<String>),
}

/// What a run without a window does next, as seen by the contracts.
#[verifier::ext_equal]
pub enum HeadlessView {
    Search,
    Open(Seq<char>),
    Ping,
    Simulate(u32),
    Wait(u32),
    Forward,
    Done,
    Failed(Option<Seq<char>>),
}

impl View for HeadlessStep {
    type V = HeadlessView;

    open spec fn view(&self) -> HeadlessView {
        match *self {
            HeadlessStep::Search => HeadlessView::Search,
            HeadlessStep::Open(port) => HeadlessView::Open(port@),
            HeadlessStep::Ping => HeadlessView::Ping,
            HeadlessStep::Simulate(i) => HeadlessView::Simulate(i),
            HeadlessStep::Wait(i) => HeadlessView::Wait(i),
            HeadlessStep::Forward => HeadlessView::Forward,
            HeadlessStep::Done => HeadlessView::Done,
            HeadlessStep::Failed(text) => HeadlessView::Failed(
                match text {
                    Some(t) => Some(t@),
                    None => None,
                },
            ),
        }
    }
}

/// What came of a step.
pub enum HeadlessOutcome {
    Done,
    /// The robots in reach.
    Found(Vec<String>),
    Failed,
}

/// What came of a step, as seen by the contracts.
#[verifier::ext_equal]
pub enum HeadlessOutcomeView {
    Done,
    Found(Seq<Seq<char>>),
    Failed,
}

impl View for HeadlessOutcome {
    type V = HeadlessOutcomeView;

    open spec fn view(&self) -> HeadlessOutcomeView {
        match *self {
            HeadlessOutcome::Done => HeadlessOutcomeView::Done,
            HeadlessOutcome::Found(ports) => HeadlessOutcomeView::Found(texts(ports@)),
            HeadlessOutcome::Failed => HeadlessOutcomeView::Failed,
        }
    }
}

/// What a run without a window is for.
#[derive(Clone, Copy, Debug, PartialEq, Eq, Structural)]
pub enum HeadlessTask {
    /// Send so many simulated notifications.
    Simulate(u32),
    Forward,
    /// Forward notifications, on a system on which that cannot be done.
    Unsupported,
}

/// The first step of a run: a robot that was named is not looked for.
pub open spec fn headless_first(port: Option<Seq<char>>) -> HeadlessView {
    match port {
        Some(name) => HeadlessView::Open(name),
        None => HeadlessView::Search,
    }
}

/// The step of a run after another.
pub open spec fn headless_after(
    task: HeadlessTask,
    step: HeadlessView,
    outcome: HeadlessOutcomeView,
) -> HeadlessView {
    match step {
        HeadlessView::Done => step,
        HeadlessView::Failed(_) => step,
        HeadlessView::Search => match outcome {
            HeadlessOutcomeView::Failed => HeadlessView::Failed(
                Some("failed to enumerate BLE devices"@),
            ),
            HeadlessOutcomeView::Found(ports) => if ports.len() > 0 {
                HeadlessView::Open(ports[0])
            } else {
                HeadlessView::Failed(Some("no BLE devices found"@))
            },
            HeadlessOutcomeView::Done => HeadlessView::Failed(Some("no BLE devices found"@)),
        },
        _ => if outcome is Failed {
            HeadlessView::Failed(None)
        } else {
            match step {
                HeadlessView::Open(_) => HeadlessView::Ping,
                HeadlessView::Ping => match task {
                    HeadlessTask::Simulate(count) => if count == 0 {
                        HeadlessView::Done
                    } else {
                        HeadlessView::Simulate(0)
                    },
                    HeadlessTask::Forward => HeadlessView::Forward,
                    HeadlessTask::Unsupported => HeadlessView::Failed(
                        Some("notification forwarding is only supported on Linux and macOS"@),
                    ),
                },
                HeadlessView::Simulate(i) => match task {
                    HeadlessTask::Simulate(count) => if i + 1 < count {
                        HeadlessView::Wait((i + 1) as u32)
                    } else {
                        HeadlessView::Done
                    },
                    _ => HeadlessView::Done,
                },
                HeadlessView::Wait(i) => HeadlessView::Simulate(i),
                _ => HeadlessView::Done,
            }
        },
    }
}

/// The first step of a run.
pub fn first_headless_step(port: Option<String>) -> (r: HeadlessStep)
    ensures
        r@ == headless_first(
            match port {
                Some(name) => Some(name@),
                None => None,
            },
        ),
{
    match port {
        Some(name) => HeadlessStep::Open(name),
        None => HeadlessStep::Search,
    }
}

/// The step of a run after another.
pub fn next_headless_step(task: HeadlessTask, step: HeadlessStep, outcome: HeadlessOutcome) -> (r:
    HeadlessStep)
    ensures
        r@ == headless_after(task, step@, outcome@),
{
    match step {
        HeadlessStep::Done => HeadlessStep::Done,
        HeadlessStep::Failed(text) => HeadlessStep::Failed(text),
        HeadlessStep::Search => match outcome {
            HeadlessOutcome::Failed => HeadlessStep::Failed(
                Some("failed to enumerate BLE devices".to_string()),
            ),
            HeadlessOutcome::Found(ports) => match default_port(&ports) {
                Ok(port) => HeadlessStep::Open(port),
                Err(text) => HeadlessStep::Failed(Some(text.to_string())),
            },
            HeadlessOutcome::Done => HeadlessStep::Failed(
                Some("no BLE devices found".to_string()),
            ),
        },
        _ => {
            if let HeadlessOutcome::Failed = outcome {
                return HeadlessStep::Failed(None);
            }
            match step {
                HeadlessStep::Open(_) => HeadlessStep::Ping,
                HeadlessStep::Ping => match task {
                    HeadlessTask::Simulate(count) => if count == 0 {
                        HeadlessStep::Done
                    } else {
                        HeadlessStep::Simulate(0)
                    },
                    HeadlessTask::Forward => HeadlessStep::Forward,
                    HeadlessTask::Unsupported => HeadlessStep::Failed(
                        Some(
                            "notification forwarding is only supported on Linux and macOS".to_string(),
                        ),
                    ),
                },
                HeadlessStep::Simulate(i) => match task {
                    HeadlessTask::Simulate(count) => if i < count && i + 1 < count {
                        HeadlessStep::Wait(i + 1)
                    } else {
                        HeadlessStep::Done
                    },
                    _ => HeadlessStep::Done,
                },
                HeadlessStep::Wait(i) => HeadlessStep::Simulate(i),
                _ => HeadlessStep::Done,
            }
        },
    }
}

/// The steps that a run has gone through, one for each outcome, and the one that is next.
pub open spec fn headless_run(
    task: HeadlessTask,
    first: HeadlessView,
    outcomes: Seq<HeadlessOutcomeView>,
) -> (Seq<HeadlessView>, HeadlessView)
    decreases outcomes.len(),
{
    if outcomes.len() == 0 {
        (Seq::empty(), first)
    } else {
        let (before, step) = headless_run(task, first, outcomes.drop_last());
        (before.push(step), headless_after(task, step, outcomes.last()))
    }
}

/// The steps of a run that looks for no robot and sends `count` simulated notifications, in
/// order, with a wait between any two of them.
pub open spec fn simulation_steps(port: Seq<char>, count: nat) -> Seq<HeadlessView>
    decreases count,
{
    if count == 0 {
        seq![HeadlessView::Open(port), HeadlessView::Ping]
    } else if count == 1 {
        simulation_steps(port, 0).push(HeadlessView::Simulate(0))
    } else {
        simulation_steps(port, (count - 1) as nat).push(
            HeadlessView::Wait((count - 1) as u32),
        ).push(HeadlessView::Simulate((count - 1) as u32))
    }
}

/// How many steps send a simulated notification.
pub open spec fn notifications_in(steps: Seq<HeadlessView>) -> nat
    decreases steps.len(),
{
    if steps.len() == 0 {
        0
    } else {
        notifications_in(steps.drop_last()) + if steps.last() is Simulate {
            1nat
        } else {
            0nat
        }
    }
}

/// How many steps wait.
pub open spec fn waits_in(steps: Seq<HeadlessView>) -> nat
    decreases steps.len(),
{
    if steps.len() == 0 {
        0
    } else {
        waits_in(steps.drop_last()) + if steps.last() is Wait {
            1nat
        } else {
            0nat
        }
    }
}

/// Outcomes of which none is a failure.
pub open spec fn all_well(outcomes: Seq<HeadlessOutcomeView>) -> bool {
    forall|i: int| 0 <= i < outcomes.len() ==> (#[trigger] outcomes[i]) !is Failed
}

proof fn lemma_counts(port: Seq<char>, count: nat)
    ensures
        notifications_in(simulation_steps(port, count)) == count,
        waits_in(simulation_steps(port, count)) == if count == 0 {
            0
        } else {
            count - 1
        },
        simulation_steps(port, count).len() == if count == 0 {
            2
        } else {
            2 * count + 1
        },
    decreases count,
{
    reveal_with_fuel(notifications_in, 3);
    reveal_with_fuel(waits_in, 3);
    let steps = simulation_steps(port, count);
    if count == 0 {
        assert(steps.drop_last() =~= seq![HeadlessView::Open(port)]);
        assert(steps.drop_last().drop_last() =~= Seq::<HeadlessView>::empty());
    } else if count == 1 {
        lemma_counts(port, 0);
        assert(steps.drop_last() =~= simulation_steps(port, 0));
    } else {
        let before = simulation_steps(port, (count - 1) as nat);
        let waited = before.push(HeadlessView::Wait((count - 1) as u32));
        lemma_counts(port, (count - 1) as nat);
        assert(steps.drop_last() =~= waited);
        assert(waited.drop_last() =~= before);
    }
}

proof fn lemma_simulation(
    total: u32,
    port: Seq<char>,
    outcomes: Seq<HeadlessOutcomeView>,
    count: nat,
)
    requires
        count <= total,
        all_well(outcomes),
        outcomes.len() == simulation_steps(port, count).len(),
    ensures
        headless_run(HeadlessTask::Simulate(total), HeadlessView::Open(port), outcomes) == (
            simulation_steps(port, count),
            if count >= total {
                HeadlessView::Done
            } else if count == 0 {
                HeadlessView::Simulate(0)
            } else {
                HeadlessView::Wait(count as u32)
            },
        ),
    decreases count,
{
    reveal_with_fuel(headless_run, 3);
    let first = HeadlessView::Open(port);
    lemma_counts(port, count);
    let one = outcomes.drop_last();
    assert(outcomes.last() == outcomes[outcomes.len() - 1]);
    if count == 0 {
        assert(one.drop_last() =~= Seq::<HeadlessOutcomeView>::empty());
        assert(one.last() == outcomes[0]);
        assert(Seq::<HeadlessView>::empty().push(first).push(HeadlessView::Ping)
            =~= simulation_steps(port, 0));
    } else {
        lemma_counts(port, (count - 1) as nat);
        let rest = if count == 1 {
            one
        } else {
            one.drop_last()
        };
        assert forall|i: int| 0 <= i < rest.len() implies (#[trigger] rest[i]) !is Failed by {
            assert(rest[i] == outcomes[i]);
        }
        lemma_simulation(total, port, rest, (count - 1) as nat);
        if count > 1 {
            assert(one.last() == outcomes[outcomes.len() - 2]);
        }
    }
}

/// A run that is to simulate notifications for a robot that was named looks for none: it opens
/// the link, says hello, and sends as many notifications as it was asked to, with one wait less,
/// and then it is over.
pub proof fn simulation_sends_every_notification(
    port: Seq<char>,
    count: u32,
    outcomes: Seq<HeadlessOutcomeView>,
)
    requires
        all_well(outcomes),
        outcomes.len() == simulation_steps(port, count as nat).len(),
    ensures
        ({
            let (steps, next) = headless_run(
                HeadlessTask::Simulate(count),
                headless_first(Some(port)),
                outcomes,
            );
            &&& steps == simulation_steps(port, count as nat)
            &&& notifications_in(steps) == count
            &&& waits_in(steps) == if count == 0 {
                0
            } else {
                count - 1
            }
            &&& !steps.contains(HeadlessView::Search)
            &&& next == HeadlessView::Done
        }),
{
    lemma_simulation(count, port, outcomes, count as nat);
    lemma_counts(port, count as nat);
    lemma_no_search(port, count as nat);
}

proof fn lemma_no_search(port: Seq<char>, count: nat)
    ensures
        forall|i: int|
            0 <= i < simulation_steps(port, count).len() ==> (#[trigger] simulation_steps(
                port,
                count,
            )[i]) !is Search,
    decreases count,
{
    if count > 0 {
        lemma_no_search(port, (count - 1) as nat);
        let before = simulation_steps(port, (count - 1) as nat);
        assert forall|i: int| 0 <= i < simulation_steps(port, count).len() implies (
        #[trigger] simulation_steps(port, count)[i]) !is Search by {
            if i < before.len() {
                assert(simulation_steps(port, count)[i] == before[i]);
            }
        }
    }
}

/// Where no robot was named, the first one in reach is used, and the run goes on as if it had
/// been named.
pub proof fn first_robot_is_used(task: HeadlessTask, ports: Seq<Seq<char>>)
    requires
        ports.len() > 0,
    ensures
        headless_after(task, headless_first(None), HeadlessOutcomeView::Found(ports))
            == headless_first(Some(ports[0])),
{
}

/// A run ends with the first step that fails.
pub proof fn failure_ends_the_run(task: HeadlessTask, step: HeadlessView, later: HeadlessOutcomeView)
    ensures
        ({
            let after = headless_after(task, step, HeadlessOutcomeView::Failed);
            &&& after is Failed || after is Done
            &&& headless_after(task, after, later) == after
        }),
{
}

/// A run uses the robot that was named, else the first one in reach, and fails where there is none.
pub proof fn run_uses_the_named_or_first_robot(task: HeadlessTask, port: Seq<char>, found: Seq<Seq<char>>)
    ensures
        headless_first(Some(port)) == HeadlessView::Open(port),
        headless_first(None) == HeadlessView::Search,
        headless_after(task, HeadlessView::Search, HeadlessOutcomeView::Found(found))
            == if found.len() > 0 {
            HeadlessView::Open(found[0])
        } else {
            HeadlessView::Failed(Some("no BLE devices found"@))
        },
        headless_after(task, HeadlessView::Search, HeadlessOutcomeView::Failed)
            == HeadlessView::Failed(Some("failed to enumerate BLE devices"@)),
{
}

/// The robot is always tried with a ping before anything is sent to it, and then the run does what
/// it is for: it forwards, unless the system has no way to, or it sends the first notification, if
/// there is one to send.
pub proof fn run_does_what_it_is_for(task: HeadlessTask, port: Seq<char>, count: u32)
    ensures
        headless_after(task, HeadlessView::Open(port), HeadlessOutcomeView::Done)
            == HeadlessView::Ping,
        headless_after(HeadlessTask::Forward, HeadlessView::Ping, HeadlessOutcomeView::Done)
            == HeadlessView::Forward,
        headless_after(HeadlessTask::Unsupported, HeadlessView::Ping, HeadlessOutcomeView::Done)
            == HeadlessView::Failed(
            Some("notification forwarding is only supported on Linux and macOS"@),
        ),
        headless_after(HeadlessTask::Simulate(count), HeadlessView::Ping, HeadlessOutcomeView::Done)
            == if count == 0 {
            HeadlessView::Done
        } else {
            HeadlessView::Simulate(0)
        },
        headless_after(HeadlessTask::Forward, HeadlessView::Forward, HeadlessOutcomeView::Done)
            == HeadlessView::Done,
{
}

/// A step that fails ends the run with the step's own error, and nothing follows the end.
pub proof fn failed_step_ends_the_run(
    task: HeadlessTask,
    step: HeadlessView,
    outcome: HeadlessOutcomeView,
    why: Option<Seq<char>>,
)
    ensures
        step !is Search && step !is Done && step !is Failed ==> headless_after(
            task,
            step,
            HeadlessOutcomeView::Failed,
        ) == HeadlessView::Failed(None),
        headless_after(task, HeadlessView::Done, outcome) == HeadlessView::Done,
        headless_after(task, HeadlessView::Failed(why), outcome) == HeadlessView::Failed(why),
{
}

/// What can be simulated is what there is a notification for: the four kinds have icons of their
/// own names.
pub proof fn every_kind_can_be_simulated(name: Seq<char>, from: Seq<char>, text: Seq<char>)
    ensures
        is_preset("whatsapp"@) && is_preset("mail"@) && is_preset("calendar"@) && is_preset(
            "system"@,
        ),
        is_preset(name) ==> crate::behavior::preset_notification(name, from, text).5 == name,
        is_preset(crate::behavior::preset_notification(name, from, text).5),
{
}

} // verus!
