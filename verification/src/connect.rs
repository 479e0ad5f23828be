//! Connecting to a robot, and finding the robots in reach: what is to be done next, by what came
//! of it so far, until it is over or the first thing goes wrong.

use vstd::prelude::*;
use crate::link::{ble_device_id, find_characteristic, first_uuid, is_selected, label_id};
use crate::link::{peripheral_matches, seen_views, SeenDevice, SeenView};
use crate::uuids::{ble_rx_uuid, ble_tx_uuid, BLE_RX_CHAR_UUID_U128, BLE_TX_CHAR_UUID_U128};

verus! {

/// The stages of connecting, in order.
#[derive(Clone, Copy, Debug, PartialEq, Eq, Structural)]
pub enum ConnectStage {
    Manager,
    Adapters,
    Scan,
    Match,
    Pair,
    Open,
    Discover,
    Subscribe,
    Listen,
}

/// The stage after another. Only some systems pair before the link is opened.
pub open spec fn stage_after(stage: ConnectStage, pairs: bool) -> Option<ConnectStage> {
    match stage {
        ConnectStage::Manager => Some(ConnectStage::Adapters),
        ConnectStage::Adapters => Some(ConnectStage::Scan),
        ConnectStage::Scan => Some(ConnectStage::Match),
        ConnectStage::Match => Some(
            if pairs {
                ConnectStage::Pair
            } else {
                ConnectStage::Open
            },
        ),
        ConnectStage::Pair => Some(ConnectStage::Open),
        ConnectStage::Open => Some(ConnectStage::Discover),
        ConnectStage::Discover => Some(ConnectStage::Subscribe),
        ConnectStage::Subscribe => Some(ConnectStage::Listen),
        ConnectStage::Listen => None,
    }
}

/// The words for a stage that is under way.
pub open spec fn stage_status(stage: ConnectStage) -> Seq<char> {
    match stage {
        ConnectStage::Manager => "Creating BLE manager..."@,
        ConnectStage::Adapters => "Looking for BLE adapters..."@,
        ConnectStage::Scan => "Scanning for BLE devices..."@,
        ConnectStage::Match => "Matching selected BLE device..."@,
        ConnectStage::Pair => "Pairing via BlueZ..."@,
        ConnectStage::Open => "Opening BLE link..."@,
        ConnectStage::Discover => "Discovering BLE services..."@,
        ConnectStage::Subscribe => "Subscribing to notifications..."@,
        ConnectStage::Listen => "Waiting for robot responses..."@,
    }
}

/// The words for a stage that failed.
pub open spec fn stage_failure(stage: ConnectStage) -> Seq<char> {
    match stage {
        ConnectStage::Manager => "failed to create BLE manager"@,
        ConnectStage::Adapters => "failed to enumerate BLE adapters"@,
        ConnectStage::Scan => "failed to start BLE scan"@,
        ConnectStage::Match => "failed to list BLE peripherals"@,
        ConnectStage::Pair => "failed to pair/trust device via BlueZ"@,
        ConnectStage::Open => "failed to connect BLE peripheral"@,
        ConnectStage::Discover => "failed to discover BLE services"@,
        ConnectStage::Subscribe => "failed to subscribe BLE TX characteristic"@,
        ConnectStage::Listen => "failed to open BLE notification stream"@,
    }
}

/// How long a stage may take, in milliseconds, and the words for one that took longer.
pub open spec fn stage_limit(stage: ConnectStage) -> Option<(u64, Seq<char>)> {
    match stage {
        ConnectStage::Open => Some((10_000, "timed out connecting to BLE peripheral"@)),
        ConnectStage::Discover => Some((10_000, "timed out discovering BLE services"@)),
        ConnectStage::Subscribe => Some(
            (5_000, "timed out subscribing to BLE TX characteristic"@),
        ),
        ConnectStage::Listen => Some((5_000, "timed out opening BLE notification stream"@)),
        _ => None,
    }
}

/// How long to listen for devices before they are looked at, in milliseconds.
pub const CONNECT_SCAN_MS: u64 = 1500;

/// How long to listen for devices before they are listed, in milliseconds.
pub const DISCOVER_SCAN_MS: u64 = 1300;

impl ConnectStage {
    /// The stage after this one.
    pub fn after(self, pairs: bool) -> (r: Option<ConnectStage>)
        ensures
            r == stage_after(self, pairs),
    {
        match self {
            ConnectStage::Manager => Some(ConnectStage::Adapters),
            ConnectStage::Adapters => Some(ConnectStage::Scan),
            ConnectStage::Scan => Some(ConnectStage::Match),
            ConnectStage::Match => Some(
                if pairs {
                    ConnectStage::Pair
                } else {
                    ConnectStage::Open
                },
            ),
            ConnectStage::Pair => Some(ConnectStage::Open),
            ConnectStage::Open => Some(ConnectStage::Discover),
            ConnectStage::Discover => Some(ConnectStage::Subscribe),
            ConnectStage::Subscribe => Some(ConnectStage::Listen),
            ConnectStage::Listen => None,
        }
    }

    /// The words for this stage while it is under way.
    pub fn status(self) -> (r: &'static str)
        ensures
            r@ == stage_status(self),
    {
        match self {
            ConnectStage::Manager => "Creating BLE manager...",
            ConnectStage::Adapters => "Looking for BLE adapters...",
            ConnectStage::Scan => "Scanning for BLE devices...",
            ConnectStage::Match => "Matching selected BLE device...",
            ConnectStage::Pair => "Pairing via BlueZ...",
            ConnectStage::Open => "Opening BLE link...",
            ConnectStage::Discover => "Discovering BLE services...",
            ConnectStage::Subscribe => "Subscribing to notifications...",
            ConnectStage::Listen => "Waiting for robot responses...",
        }
    }

    /// The words for this stage where it failed.
    pub fn failure_text(self) -> (r: &'static str)
        ensures
            r@ == stage_failure(self),
    {
        match self {
            ConnectStage::Manager => "failed to create BLE manager",
            ConnectStage::Adapters => "failed to enumerate BLE adapters",
            ConnectStage::Scan => "failed to start BLE scan",
            ConnectStage::Match => "failed to list BLE peripherals",
            ConnectStage::Pair => "failed to pair/trust device via BlueZ",
            ConnectStage::Open => "failed to connect BLE peripheral",
            ConnectStage::Discover => "failed to discover BLE services",
            ConnectStage::Subscribe => "failed to subscribe BLE TX characteristic",
            ConnectStage::Listen => "failed to open BLE notification stream",
        }
    }

    /// How long this stage may take, in milliseconds, and the words for one that took longer.
    pub fn limit(self) -> (r: Option<(u64, &'static str)>)
        ensures
            match r {
                Some((ms, text)) => stage_limit(self) == Some((ms, text@)),
                None => stage_limit(self) is None,
            },
    {
        match self {
            ConnectStage::Open => Some((10_000, "timed out connecting to BLE peripheral")),
            ConnectStage::Discover => Some((10_000, "timed out discovering BLE services")),
            ConnectStage::Subscribe => Some(
                (5_000, "timed out subscribing to BLE TX characteristic"),
            ),
            ConnectStage::Listen => Some((5_000, "timed out opening BLE notification stream")),
            _ => None,
        }
    }
}

/// The words for a device that is not in reach.
pub open spec fn not_found(selected: Seq<char>) -> Seq<char> {
    "BLE device '"@ + selected + "' not found"@
}

/// The words for a device that is not in reach.
pub fn not_found_text(selected_id: &str) -> (r: String)
    ensures
        r@ == not_found(selected_id@),
{
    let mut s = "BLE device '".to_string();
    s.append(selected_id);
    s.append("' not found");
    s
}

/// What came of a stage of connecting, or of the look at a device.
pub enum StageOutcome {
    Done,
    /// So many adapters, or devices, are there.
    Found(usize),
    /// What a device makes known, if it makes anything known.
    Device(Option<SeenDevice>),
    /// The identifiers of the device's characteristics.
    Characteristics(Vec<u128>),
    Failed,
    TimedOut,
}

/// What came of a stage of connecting, as seen by the contracts.
#[verifier::ext_equal]
pub enum OutcomeView {
    Done,
    Found(usize),
    Device(Option<SeenView>),
    Characteristics(Seq<u128>),
    Failed,
    TimedOut,
}

impl View for StageOutcome {
    type V = OutcomeView;

    open spec fn view(&self) -> OutcomeView {
        match *self {
            StageOutcome::Done => OutcomeView::Done,
            StageOutcome::Found(n) => OutcomeView::Found(n),
            StageOutcome::Device(d) => OutcomeView::Device(
                match d {
                    Some(device) => Some(device@),
                    None => None,
                },
            ),
            StageOutcome::Characteristics(uuids) => OutcomeView::Characteristics(uuids@),
            StageOutcome::Failed => OutcomeView::Failed,
            StageOutcome::TimedOut => OutcomeView::TimedOut,
        }
    }
}

impl OutcomeView {
    /// How many adapters, or devices, are there.
    pub open spec fn count(self) -> usize {
        match self {
            OutcomeView::Found(n) => n,
            _ => 0,
        }
    }

    pub open spec fn characteristics(self) -> Seq<u128> {
        match self {
            OutcomeView::Characteristics(uuids) => uuids,
            _ => Seq::empty(),
        }
    }

    /// The device that was looked at is the one that was chosen.
    pub open spec fn is_chosen(self, selected: Seq<char>) -> bool {
        match self {
            OutcomeView::Device(Some(d)) => is_selected(
                d.id,
                match d.local_name {
                    Some(name) => name,
                    None => Seq::empty(),
                },
                d.has_service,
                selected,
            ),
            _ => false,
        }
    }
}

fn count_in(outcome: &StageOutcome) -> (r: usize)
    ensures
        r == outcome@.count(),
{
    match outcome {
        StageOutcome::Found(n) => *n,
        _ => 0,
    }
}

fn chosen_in(outcome: &StageOutcome, selected: &str) -> (r: bool)
    ensures
        r == outcome@.is_chosen(selected@),
{
    match outcome {
        StageOutcome::Device(Some(d)) => match &d.local_name {
            Some(name) => peripheral_matches(
                d.id.as_str(),
                name.as_str(),
                d.has_service,
                selected,
            ),
            None => {
                let none = String::new();
                assert(none@ =~= Seq::<char>::empty());
                peripheral_matches(d.id.as_str(), none.as_str(), d.has_service, selected)
            },
        },
        _ => false,
    }
}

/// What is to be done next on the way to a link.
#[derive(Clone, Debug, PartialEq, Eq)]
pub enum ConnectStep {
    Run(ConnectStage),
    /// Look at the device at this place among those in reach.
    Read(usize),
    Connected,
    /// Nothing more; the words say why.
    Failed(String),
}

/// What is to be done next on the way to a link, as seen by the contracts.
#[verifier::ext_equal]
pub enum ConnectStepView {
    Run(ConnectStage),
    Read(usize),
    Connected,
    Failed(Seq<char>),
}

impl View for ConnectStep {
    type V = ConnectStepView;

    open spec fn view(&self) -> ConnectStepView {
        match *self {
            ConnectStep::Run(stage) => ConnectStepView::Run(stage),
            ConnectStep::Read(i) => ConnectStepView::Read(i),
            ConnectStep::Connected => ConnectStepView::Connected,
            ConnectStep::Failed(text) => ConnectStepView::Failed(text@),
        }
    }
}

/// A connection that is being made.
pub struct Connecting {
    /// The identifier, or the name, of the device that was chosen.
    pub selected: String,
    /// Whether this system pairs before the link is opened.
    pub pairs: bool,
    pub step: ConnectStep,
    /// How many devices are in reach.
    pub devices: usize,
    /// Where the characteristic on which the robot listens stands among all.
    pub rx: usize,
    /// Where the characteristic on which the robot speaks stands among all.
    pub tx: usize,
}

/// A connection that is being made, as seen by the contracts.
#[verifier::ext_equal]
pub struct ConnectingView {
    pub selected: Seq<char>,
    pub pairs: bool,
    pub step: ConnectStepView,
    pub devices: usize,
    pub rx: usize,
    pub tx: usize,
}

impl View for Connecting {
    type V = ConnectingView;

    open spec fn view(&self) -> ConnectingView {
        ConnectingView {
            selected: self.selected@,
            pairs: self.pairs,
            step: self.step@,
            devices: self.devices,
            rx: self.rx,
            tx: self.tx,
        }
    }
}

/// The step into a stage. A connection that was called off goes no further.
pub open spec fn entered(stage: Option<ConnectStage>, cancelled: bool) -> ConnectStepView {
    match stage {
        None => ConnectStepView::Connected,
        Some(next) => if cancelled {
            ConnectStepView::Failed("BLE connection cancelled"@)
        } else {
            ConnectStepView::Run(next)
        },
    }
}

/// The words for a stage that took too long.
pub open spec fn stage_timeout(stage: ConnectStage) -> Seq<char> {
    match stage_limit(stage) {
        Some((_, text)) => text,
        None => stage_failure(stage),
    }
}

impl ConnectingView {
    /// A connection to the device with a label.
    pub open spec fn begun(label: Seq<char>, pairs: bool, cancelled: bool) -> ConnectingView {
        ConnectingView {
            selected: label_id(label),
            pairs,
            step: entered(Some(ConnectStage::Manager), cancelled),
            devices: 0,
            rx: 0,
            tx: 0,
        }
    }

    pub open spec fn at(self, step: ConnectStepView) -> ConnectingView {
        ConnectingView { step, ..self }
    }

    /// Nothing more is done.
    pub open spec fn is_over(self) -> bool {
        self.step is Connected || self.step is Failed
    }

    /// The connection after a stage.
    pub open spec fn after_stage(
        self,
        stage: ConnectStage,
        outcome: OutcomeView,
        cancelled: bool,
    ) -> ConnectingView {
        let next = entered(stage_after(stage, self.pairs), cancelled);
        if outcome is Failed {
            self.at(ConnectStepView::Failed(stage_failure(stage)))
        } else if outcome is TimedOut {
            self.at(ConnectStepView::Failed(stage_timeout(stage)))
        } else {
            match stage {
                ConnectStage::Adapters => if outcome.count() == 0 {
                    self.at(ConnectStepView::Failed("no BLE adapter available"@))
                } else {
                    self.at(next)
                },
                ConnectStage::Match => ConnectingView {
                    devices: outcome.count(),
                    step: if outcome.count() == 0 {
                        ConnectStepView::Failed(not_found(self.selected))
                    } else {
                        ConnectStepView::Read(0)
                    },
                    ..self
                },
                ConnectStage::Discover => {
                    let uuids = outcome.characteristics();
                    match first_uuid(uuids, BLE_RX_CHAR_UUID_U128, 0) {
                        None => self.at(
                            ConnectStepView::Failed("BLE RX characteristic not found"@),
                        ),
                        Some(rx) => match first_uuid(uuids, BLE_TX_CHAR_UUID_U128, 0) {
                            None => self.at(
                                ConnectStepView::Failed("BLE TX characteristic not found"@),
                            ),
                            Some(tx) => ConnectingView {
                                rx: rx as usize,
                                tx: tx as usize,
                                step: next,
                                ..self
                            },
                        },
                    }
                },
                _ => self.at(next),
            }
        }
    }

    /// The connection after the look at the device at `i`: the first one that was chosen is
    /// taken.
    pub open spec fn after_read(self, i: usize, outcome: OutcomeView, cancelled: bool) -> ConnectingView {
        self.at(
            if outcome is Failed || outcome is TimedOut {
                ConnectStepView::Failed("failed to read BLE peripheral properties"@)
            } else if outcome.is_chosen(self.selected) {
                entered(stage_after(ConnectStage::Match, self.pairs), cancelled)
            } else if i + 1 < self.devices {
                ConnectStepView::Read((i + 1) as usize)
            } else {
                ConnectStepView::Failed(not_found(self.selected))
            },
        )
    }

    /// The connection after its step, where `cancelled` says whether it was called off by then.
    pub open spec fn advanced(self, outcome: OutcomeView, cancelled: bool) -> ConnectingView {
        match self.step {
            ConnectStepView::Run(stage) => self.after_stage(stage, outcome, cancelled),
            ConnectStepView::Read(i) => self.after_read(i, outcome, cancelled),
            _ => self,
        }
    }
}

fn step_into(stage: Option<ConnectStage>, cancelled: bool) -> (r: ConnectStep)
    ensures
        r@ == entered(stage, cancelled),
{
    match stage {
        None => ConnectStep::Connected,
        Some(next) => if cancelled {
            ConnectStep::Failed("BLE connection cancelled".to_string())
        } else {
            ConnectStep::Run(next)
        },
    }
}

impl Connecting {
    /// Begins a connection to the device with a label.
    pub fn new(label: &str, pairs: bool, cancelled: bool) -> (r: Self)
        ensures
            r@ == ConnectingView::begun(label@, pairs, cancelled),
    {
        Connecting {
            selected: ble_device_id(label),
            pairs,
            step: step_into(Some(ConnectStage::Manager), cancelled),
            devices: 0,
            rx: 0,
            tx: 0,
        }
    }

    /// The words for what is under way, where it is a new stage.
    pub fn status(&self) -> (r: Option<&'static str>)
        ensures
            match self@.step {
                ConnectStepView::Run(stage) => r matches Some(text) && text@ == stage_status(stage),
                _ => r is None,
            },
    {
        match &self.step {
            ConnectStep::Run(stage) => Some(stage.status()),
            _ => None,
        }
    }

    /// Takes what came of the step that was to be done.
    pub fn advance(&mut self, outcome: StageOutcome, cancelled: bool)
        ensures
            final(self)@ == old(self)@.advanced(outcome@, cancelled),
    {
        match self.step {
            ConnectStep::Run(stage) => self.finish_stage(stage, outcome, cancelled),
            ConnectStep::Read(i) => self.finish_read(i, outcome, cancelled),
            _ => {},
        }
    }

    fn finish_stage(&mut self, stage: ConnectStage, outcome: StageOutcome, cancelled: bool)
        ensures
            final(self)@ == old(self)@.after_stage(stage, outcome@, cancelled),
    {
        match outcome {
            StageOutcome::Failed => {
                self.step = ConnectStep::Failed(stage.failure_text().to_string());
                return;
            },
            StageOutcome::TimedOut => {
                let text = match stage.limit() {
                    Some((_, text)) => text,
                    None => stage.failure_text(),
                };
                self.step = ConnectStep::Failed(text.to_string());
                return;
            },
            _ => {},
        }
        let next = step_into(stage.after(self.pairs), cancelled);
        match stage {
            ConnectStage::Adapters => {
                self.step = if count_in(&outcome) == 0 {
                    ConnectStep::Failed("no BLE adapter available".to_string())
                } else {
                    next
                };
            },
            ConnectStage::Match => {
                self.devices = count_in(&outcome);
                self.step = if self.devices == 0 {
                    ConnectStep::Failed(not_found_text(self.selected.as_str()))
                } else {
                    ConnectStep::Read(0)
                };
            },
            ConnectStage::Discover => {
                let uuids = match outcome {
                    StageOutcome::Characteristics(uuids) => uuids,
                    _ => Vec::new(),
                };
                assert(uuids@ =~= outcome@.characteristics());
                let rx = match ble_rx_uuid() {
                    Ok(wanted) => find_characteristic(uuids.as_slice(), wanted),
                    Err(_) => None,
                };
                let tx = match ble_tx_uuid() {
                    Ok(wanted) => find_characteristic(uuids.as_slice(), wanted),
                    Err(_) => None,
                };
                match (rx, tx) {
                    (None, _) => {
                        self.step = ConnectStep::Failed(
                            "BLE RX characteristic not found".to_string(),
                        );
                    },
                    (Some(_), None) => {
                        self.step = ConnectStep::Failed(
                            "BLE TX characteristic not found".to_string(),
                        );
                    },
                    (Some(rx), Some(tx)) => {
                        self.rx = rx;
                        self.tx = tx;
                        self.step = next;
                    },
                }
            },
            _ => {
                self.step = next;
            },
        }
    }

    fn finish_read(&mut self, i: usize, outcome: StageOutcome, cancelled: bool)
        ensures
            final(self)@ == old(self)@.after_read(i, outcome@, cancelled),
    {
        let failed = match outcome {
            StageOutcome::Failed => true,
            StageOutcome::TimedOut => true,
            _ => false,
        };
        self.step = if failed {
            ConnectStep::Failed("failed to read BLE peripheral properties".to_string())
        } else if chosen_in(&outcome, self.selected.as_str()) {
            step_into(ConnectStage::Match.after(self.pairs), cancelled)
        } else if self.devices > 0 && i < self.devices - 1 {
            ConnectStep::Read(i + 1)
        } else {
            ConnectStep::Failed(not_found_text(self.selected.as_str()))
        };
    }
}

/// All stages of connecting, in order.
pub open spec fn all_stages(pairs: bool) -> Seq<ConnectStage> {
    let first = seq![
        ConnectStage::Manager,
        ConnectStage::Adapters,
        ConnectStage::Scan,
        ConnectStage::Match,
    ];
    let last = seq![
        ConnectStage::Open,
        ConnectStage::Discover,
        ConnectStage::Subscribe,
        ConnectStage::Listen,
    ];
    if pairs {
        first.push(ConnectStage::Pair) + last
    } else {
        first + last
    }
}

/// Where a stage stands among all.
spec fn place(stage: ConnectStage, pairs: bool) -> int {
    let shift: int = if pairs {
        1
    } else {
        0
    };
    match stage {
        ConnectStage::Manager => 0,
        ConnectStage::Adapters => 1,
        ConnectStage::Scan => 2,
        ConnectStage::Match => 3,
        ConnectStage::Pair => 4,
        ConnectStage::Open => 4 + shift,
        ConnectStage::Discover => 5 + shift,
        ConnectStage::Subscribe => 6 + shift,
        ConnectStage::Listen => 7 + shift,
    }
}

proof fn lemma_place(stage: ConnectStage, pairs: bool)
    requires
        stage is Pair ==> pairs,
    ensures
        all_stages(pairs).len() == if pairs {
            9int
        } else {
            8int
        },
        0 <= place(stage, pairs) < all_stages(pairs).len(),
        all_stages(pairs)[place(stage, pairs)] == stage,
        match stage_after(stage, pairs) {
            Some(next) => {
                &&& place(next, pairs) == place(stage, pairs) + 1
                &&& next is Pair ==> pairs
            },
            None => place(stage, pairs) + 1 == all_stages(pairs).len(),
        },
{
}

/// A connection after steps, each with what came of it and whether it was called off by then.
pub open spec fn after_steps(c: ConnectingView, events: Seq<(OutcomeView, bool)>) -> ConnectingView
    decreases events.len(),
{
    if events.len() == 0 {
        c
    } else {
        let (outcome, cancelled) = events.last();
        after_steps(c, events.drop_last()).advanced(outcome, cancelled)
    }
}

/// The stages that were entered, in order.
pub open spec fn stages_entered(c: ConnectingView, events: Seq<(OutcomeView, bool)>) -> Seq<
    ConnectStage,
>
    decreases events.len(),
{
    let before = if events.len() == 0 {
        Seq::empty()
    } else {
        stages_entered(c, events.drop_last())
    };
    match after_steps(c, events).step {
        ConnectStepView::Run(stage) => before.push(stage),
        _ => before,
    }
}

/// How many stages were entered when a step is to be done.
spec fn stages_at(c: ConnectingView) -> int {
    match c.step {
        ConnectStepView::Run(stage) => place(stage, c.pairs) + 1,
        ConnectStepView::Read(_) => 4,
        ConnectStepView::Connected => all_stages(c.pairs).len() as int,
        ConnectStepView::Failed(_) => 0,
    }
}

proof fn lemma_stages(label: Seq<char>, pairs: bool, cancelled: bool, events: Seq<(OutcomeView, bool)>)
    ensures
        ({
            let c = after_steps(ConnectingView::begun(label, pairs, cancelled), events);
            let s = stages_entered(ConnectingView::begun(label, pairs, cancelled), events);
            &&& c.pairs == pairs
            &&& c.selected == label_id(label)
            &&& c.step matches ConnectStepView::Run(stage) ==> (stage is Pair ==> pairs)
            &&& c.step matches ConnectStepView::Read(i) ==> i < c.devices
            &&& s.len() <= all_stages(pairs).len()
            &&& s == all_stages(pairs).take(s.len() as int)
            &&& c.step !is Failed ==> s.len() == stages_at(c)
        }),
    decreases events.len(),
{
    let start = ConnectingView::begun(label, pairs, cancelled);
    let all = all_stages(pairs);
    let s = stages_entered(start, events);
    lemma_place(ConnectStage::Manager, pairs);
    if events.len() == 0 {
        if !cancelled {
            assert(s =~= all.take(1));
        } else {
            assert(s =~= all.take(0));
        }
    } else {
        let front = events.drop_last();
        lemma_stages(label, pairs, cancelled, front);
        let before = after_steps(start, front);
        let after = after_steps(start, events);
        let t = stages_entered(start, front);
        if let ConnectStepView::Run(stage) = before.step {
            lemma_place(stage, pairs);
        }
        lemma_place(ConnectStage::Match, pairs);
        if let ConnectStepView::Run(stage) = after.step {
            lemma_place(stage, pairs);
            assert(s =~= all.take(t.len() as int + 1));
        }
    }
}

/// The stages of connecting are entered in order and each once, pairing only where the system
/// wants it, whatever comes of them; a link is open only when all of them were.
pub proof fn stages_come_in_order(
    label: Seq<char>,
    pairs: bool,
    cancelled: bool,
    events: Seq<(OutcomeView, bool)>,
)
    ensures
        ({
            let start = ConnectingView::begun(label, pairs, cancelled);
            let s = stages_entered(start, events);
            &&& s.len() <= all_stages(pairs).len()
            &&& s == all_stages(pairs).take(s.len() as int)
            &&& after_steps(start, events).step is Connected ==> s == all_stages(pairs)
        }),
{
    lemma_stages(label, pairs, cancelled, events);
    assert(all_stages(pairs).take(all_stages(pairs).len() as int) =~= all_stages(pairs));
}

/// What is over stays as it is: nothing is done after the first failure.
pub proof fn nothing_follows_the_end(c: ConnectingView, events: Seq<(OutcomeView, bool)>)
    requires
        c.is_over(),
    ensures
        after_steps(c, events) == c,
        stages_entered(c, events) == Seq::<ConnectStage>::empty(),
    decreases events.len(),
{
    if events.len() > 0 {
        nothing_follows_the_end(c, events.drop_last());
    }
}

/// A connection that was called off enters no further stage.
pub proof fn cancelled_connection_goes_no_further(c: ConnectingView, outcome: OutcomeView)
    requires
        !c.is_over(),
    ensures
        ({
            let after = c.advanced(outcome, true);
            &&& after.step !is Run
            &&& after.step is Connected ==> c.step == ConnectStepView::Run(ConnectStage::Listen)
        }),
{
}

/// How many steps are left at most, where no more than `n` devices are in reach.
spec fn steps_left(c: ConnectingView, n: nat) -> int {
    let all = all_stages(c.pairs).len();
    match c.step {
        ConnectStepView::Run(stage) => all - place(stage, c.pairs) + if place(stage, c.pairs) <= 3 {
            n as int
        } else {
            0
        },
        ConnectStepView::Read(i) => all - 4 + (c.devices - i),
        _ => 0,
    }
}

proof fn lemma_steps_left(
    label: Seq<char>,
    pairs: bool,
    cancelled: bool,
    events: Seq<(OutcomeView, bool)>,
    n: nat,
)
    requires
        forall|i: int| 0 <= i < events.len() ==> (#[trigger] events[i]).0.count() <= n,
    ensures
        ({
            let c = after_steps(ConnectingView::begun(label, pairs, cancelled), events);
            &&& steps_left(c, n) <= if events.len() < all_stages(pairs).len() + n {
                all_stages(pairs).len() + n - events.len()
            } else {
                0
            }
            &&& c.devices <= n
        }),
    decreases events.len(),
{
    let start = ConnectingView::begun(label, pairs, cancelled);
    lemma_place(ConnectStage::Manager, pairs);
    if events.len() > 0 {
        let front = events.drop_last();
        assert forall|i: int| 0 <= i < front.len() implies (#[trigger] front[i]).0.count() <= n by {
            assert(front[i] == events[i]);
        }
        lemma_steps_left(label, pairs, cancelled, front, n);
        lemma_stages(label, pairs, cancelled, front);
        let before = after_steps(start, front);
        assert(events.last() == events[events.len() - 1]);
        if let ConnectStepView::Run(stage) = before.step {
            lemma_place(stage, pairs);
        }
        lemma_place(ConnectStage::Match, pairs);
    }
}

/// Connecting comes to an end: with no more than `n` devices in reach, after at most one step for
/// each stage and each device.
pub proof fn connecting_comes_to_an_end(
    label: Seq<char>,
    pairs: bool,
    cancelled: bool,
    events: Seq<(OutcomeView, bool)>,
    n: nat,
)
    requires
        forall|i: int| 0 <= i < events.len() ==> (#[trigger] events[i]).0.count() <= n,
        events.len() >= all_stages(pairs).len() + n,
    ensures
        after_steps(ConnectingView::begun(label, pairs, cancelled), events).is_over(),
{
    lemma_steps_left(label, pairs, cancelled, events, n);
    lemma_stages(label, pairs, cancelled, events);
    let c = after_steps(ConnectingView::begun(label, pairs, cancelled), events);
    if let ConnectStepView::Run(stage) = c.step {
        lemma_place(stage, pairs);
    }
    lemma_place(ConnectStage::Match, pairs);
}

/// What comes of looks at devices that can be read, while nobody calls the connection off.
pub open spec fn looks(devices: Seq<Option<SeenView>>) -> Seq<(OutcomeView, bool)> {
    devices.map_values(|d: Option<SeenView>| (OutcomeView::Device(d), false))
}

proof fn lemma_looks(c: ConnectingView, devices: Seq<Option<SeenView>>, k: int)
    requires
        c.step == ConnectStepView::Read(0),
        0 <= k < devices.len() == c.devices,
        forall|i: int|
            0 <= i < k ==> !OutcomeView::Device(#[trigger] devices[i]).is_chosen(c.selected),
    ensures
        after_steps(c, looks(devices.take(k))) == c.at(ConnectStepView::Read(k as usize)),
    decreases k,
{
    let events = looks(devices.take(k));
    if k > 0 {
        lemma_looks(c, devices, k - 1);
        assert(events.drop_last() =~= looks(devices.take(k - 1)));
        assert(events.last().0 == OutcomeView::Device(devices[k - 1]));
    }
}

/// The first device in reach that was chosen is the one that is connected to.
pub proof fn first_match_is_taken(c: ConnectingView, devices: Seq<Option<SeenView>>, k: int)
    requires
        c.step == ConnectStepView::Read(0),
        0 <= k < devices.len() == c.devices,
        OutcomeView::Device(devices[k]).is_chosen(c.selected),
        forall|i: int|
            0 <= i < k ==> !OutcomeView::Device(#[trigger] devices[i]).is_chosen(c.selected),
    ensures
        after_steps(c, looks(devices.take(k))).step == ConnectStepView::Read(k as usize),
        after_steps(c, looks(devices.take(k + 1))) == c.at(
            entered(stage_after(ConnectStage::Match, c.pairs), false),
        ),
{
    lemma_looks(c, devices, k);
    let events = looks(devices.take(k + 1));
    assert(events.drop_last() =~= looks(devices.take(k)));
    assert(events.last().0 == OutcomeView::Device(devices[k]));
}

/// Where no device in reach was chosen, that is what is said.
pub proof fn missing_device_is_reported(c: ConnectingView, devices: Seq<Option<SeenView>>)
    requires
        c.step == ConnectStepView::Read(0),
        0 < devices.len() == c.devices,
        forall|i: int|
            0 <= i < devices.len() ==> !OutcomeView::Device(#[trigger] devices[i]).is_chosen(
                c.selected,
            ),
    ensures
        after_steps(c, looks(devices)).step == ConnectStepView::Failed(not_found(c.selected)),
{
    let k = devices.len() - 1;
    lemma_looks(c, devices, k);
    assert(looks(devices).drop_last() =~= looks(devices.take(k)));
    assert(looks(devices).last().0 == OutcomeView::Device(devices[k]));
}

proof fn lemma_split(c: ConnectingView, a: Seq<(OutcomeView, bool)>, b: Seq<(OutcomeView, bool)>)
    ensures
        after_steps(c, a + b) == after_steps(after_steps(c, a), b),
    decreases b.len(),
{
    if b.len() == 0 {
        assert(a + b =~= a);
    } else {
        lemma_split(c, a, b.drop_last());
        assert((a + b).drop_last() =~= a + b.drop_last());
    }
}

/// One more step.
proof fn lemma_one_step(c: ConnectingView, events: Seq<(OutcomeView, bool)>, outcome: OutcomeView)
    ensures
        after_steps(c, events.push((outcome, false))) == after_steps(c, events).advanced(
            outcome,
            false,
        ),
{
    assert(events.push((outcome, false)).drop_last() =~= events);
}

/// What comes of the steps of a connection that goes well.
pub open spec fn good_steps(
    pairs: bool,
    adapters: usize,
    devices: Seq<Option<SeenView>>,
    k: int,
    uuids: Seq<u128>,
) -> Seq<(OutcomeView, bool)> {
    let until_match = Seq::<(OutcomeView, bool)>::empty().push((OutcomeView::Done, false)).push(
        (OutcomeView::Found(adapters), false),
    ).push((OutcomeView::Done, false)).push((OutcomeView::Found(devices.len() as usize), false));
    let matched = until_match + looks(devices.take(k + 1));
    let paired = if pairs {
        matched.push((OutcomeView::Done, false))
    } else {
        matched
    };
    paired.push((OutcomeView::Done, false)).push(
        (OutcomeView::Characteristics(uuids), false),
    ).push((OutcomeView::Done, false)).push((OutcomeView::Done, false))
}

/// Where every stage goes well, an adapter and the chosen device are there, and the device has
/// both characteristics, the link is open in the end, with these.
pub proof fn good_connection_opens(
    label: Seq<char>,
    pairs: bool,
    adapters: usize,
    devices: Seq<Option<SeenView>>,
    k: int,
    uuids: Seq<u128>,
    rx: int,
    tx: int,
)
    requires
        adapters > 0,
        0 <= k < devices.len() <= usize::MAX,
        OutcomeView::Device(devices[k]).is_chosen(label_id(label)),
        forall|i: int|
            0 <= i < k ==> !OutcomeView::Device(#[trigger] devices[i]).is_chosen(label_id(label)),
        first_uuid(uuids, BLE_RX_CHAR_UUID_U128, 0) == Some(rx),
        first_uuid(uuids, BLE_TX_CHAR_UUID_U128, 0) == Some(tx),
    ensures
        after_steps(
            ConnectingView::begun(label, pairs, false),
            good_steps(pairs, adapters, devices, k, uuids),
        ) == (ConnectingView {
            selected: label_id(label),
            pairs,
            step: ConnectStepView::Connected,
            devices: devices.len() as usize,
            rx: rx as usize,
            tx: tx as usize,
        }),
{
    let c = ConnectingView::begun(label, pairs, false);
    let done = OutcomeView::Done;
    let e0 = Seq::<(OutcomeView, bool)>::empty();
    lemma_one_step(c, e0, done);
    let e1 = e0.push((done, false));
    lemma_one_step(c, e1, OutcomeView::Found(adapters));
    let e2 = e1.push((OutcomeView::Found(adapters), false));
    lemma_one_step(c, e2, done);
    let e3 = e2.push((done, false));
    let found = OutcomeView::Found(devices.len() as usize);
    lemma_one_step(c, e3, found);
    let e4 = e3.push((found, false));
    let reading = after_steps(c, e4);
    assert(reading.step == ConnectStepView::Read(0));
    let seen = looks(devices.take(k + 1));
    first_match_is_taken(reading, devices, k);
    lemma_split(c, e4, seen);
    let matched = e4 + seen;
    let paired = if pairs {
        matched.push((done, false))
    } else {
        matched
    };
    if pairs {
        lemma_one_step(c, matched, done);
    }
    assert(after_steps(c, paired).step == ConnectStepView::Run(ConnectStage::Open));
    lemma_one_step(c, paired, done);
    let e5 = paired.push((done, false));
    lemma_one_step(c, e5, OutcomeView::Characteristics(uuids));
    let e6 = e5.push((OutcomeView::Characteristics(uuids), false));
    lemma_one_step(c, e6, done);
    let e7 = e6.push((done, false));
    lemma_one_step(c, e7, done);
}

/// What is to be done next to find the robots in reach.
#[derive(Clone, Debug, PartialEq, Eq)]
pub enum FindStep {
    Run(ConnectStage),
    /// Look at the device at this place among those in reach.
    Read(usize),
    /// All devices were looked at.
    Done,
    /// Nothing more; the words say why.
    Failed(String),
}

/// What is to be done next to find the robots in reach, as seen by the contracts.
#[verifier::ext_equal]
pub enum FindStepView {
    Run(ConnectStage),
    Read(usize),
    Done,
    Failed(Seq<char>),
}

impl View for FindStep {
    type V = FindStepView;

    open spec fn view(&self) -> FindStepView {
        match *self {
            FindStep::Run(stage) => FindStepView::Run(stage),
            FindStep::Read(i) => FindStepView::Read(i),
            FindStep::Done => FindStepView::Done,
            FindStep::Failed(text) => FindStepView::Failed(text@),
        }
    }
}

/// A look at what is in reach.
pub struct Finding {
    pub step: FindStep,
    /// How many devices are in reach.
    pub devices: usize,
    /// The devices that made something known.
    pub seen: Vec<SeenDevice>,
}

/// A look at what is in reach, as seen by the contracts.
#[verifier::ext_equal]
pub struct FindingView {
    pub step: FindStepView,
    pub devices: usize,
    pub seen: Seq<SeenView>,
}

impl View for Finding {
    type V = FindingView;

    open spec fn view(&self) -> FindingView {
        FindingView {
            step: self.step@,
            devices: self.devices,
            seen: seen_views(self.seen@),
        }
    }
}

/// The words for a stage of finding that failed.
pub open spec fn find_failure(stage: ConnectStage) -> Seq<char> {
    if stage is Match {
        "failed to fetch scanned peripherals"@
    } else {
        stage_failure(stage)
    }
}

impl FindingView {
    pub open spec fn begun() -> FindingView {
        FindingView {
            step: FindStepView::Run(ConnectStage::Manager),
            devices: 0,
            seen: Seq::empty(),
        }
    }

    /// The step to the device at `i`.
    pub open spec fn look(i: int, devices: usize) -> FindStepView {
        if i < devices {
            FindStepView::Read(i as usize)
        } else {
            FindStepView::Done
        }
    }

    /// The look after its step.
    pub open spec fn advanced(self, outcome: OutcomeView) -> FindingView {
        let bad = outcome is Failed || outcome is TimedOut;
        match self.step {
            FindStepView::Run(stage) => if bad {
                FindingView { step: FindStepView::Failed(find_failure(stage)), ..self }
            } else {
                match stage {
                    ConnectStage::Manager => FindingView {
                        step: FindStepView::Run(ConnectStage::Adapters),
                        ..self
                    },
                    ConnectStage::Adapters => FindingView {
                        step: if outcome.count() == 0 {
                            FindStepView::Failed("no BLE adapter available"@)
                        } else {
                            FindStepView::Run(ConnectStage::Scan)
                        },
                        ..self
                    },
                    ConnectStage::Scan => FindingView {
                        step: FindStepView::Run(ConnectStage::Match),
                        ..self
                    },
                    _ => FindingView {
                        step: FindingView::look(0, outcome.count()),
                        devices: outcome.count(),
                        ..self
                    },
                }
            },
            FindStepView::Read(i) => if bad {
                FindingView {
                    step: FindStepView::Failed("failed to read BLE peripheral properties"@),
                    ..self
                }
            } else {
                FindingView {
                    step: FindingView::look(i + 1, self.devices),
                    seen: match outcome {
                        OutcomeView::Device(Some(d)) => self.seen.push(d),
                        _ => self.seen,
                    },
                    ..self
                }
            },
            _ => self,
        }
    }
}

impl Finding {
    /// Begins a look at what is in reach.
    pub fn new() -> (r: Self)
        ensures
            r@ == FindingView::begun(),
    {
        let r = Finding {
            step: FindStep::Run(ConnectStage::Manager),
            devices: 0,
            seen: Vec::new(),
        };
        assert(r@.seen =~= Seq::<SeenView>::empty());
        r
    }

    /// Takes what came of the step that was to be done.
    pub fn advance(&mut self, outcome: StageOutcome)
        ensures
            final(self)@ == old(self)@.advanced(outcome@),
    {
        let bad = match outcome {
            StageOutcome::Failed => true,
            StageOutcome::TimedOut => true,
            _ => false,
        };
        match self.step {
            FindStep::Run(stage) => {
                if bad {
                    let text = match stage {
                        ConnectStage::Match => "failed to fetch scanned peripherals",
                        _ => stage.failure_text(),
                    };
                    self.step = FindStep::Failed(text.to_string());
                    return;
                }
                match stage {
                    ConnectStage::Manager => {
                        self.step = FindStep::Run(ConnectStage::Adapters);
                    },
                    ConnectStage::Adapters => {
                        self.step = if count_in(&outcome) == 0 {
                            FindStep::Failed("no BLE adapter available".to_string())
                        } else {
                            FindStep::Run(ConnectStage::Scan)
                        };
                    },
                    ConnectStage::Scan => {
                        self.step = FindStep::Run(ConnectStage::Match);
                    },
                    _ => {
                        self.devices = count_in(&outcome);
                        self.step = if self.devices > 0 {
                            FindStep::Read(0)
                        } else {
                            FindStep::Done
                        };
                    },
                }
            },
            FindStep::Read(i) => {
                if bad {
                    self.step = FindStep::Failed(
                        "failed to read BLE peripheral properties".to_string(),
                    );
                    return;
                }
                self.step = if self.devices > 0 && i < self.devices - 1 {
                    FindStep::Read(i + 1)
                } else {
                    FindStep::Done
                };
                if let StageOutcome::Device(Some(d)) = outcome {
                    let ghost before = seen_views(self.seen@);
                    let ghost v = d@;
                    self.seen.push(d);
                    assert(seen_views(self.seen@) =~= before.push(v));
                }
            },
            _ => {},
        }
    }
}

/// A look at what is in reach after steps.
pub open spec fn after_finding(f: FindingView, outcomes: Seq<OutcomeView>) -> FindingView
    decreases outcomes.len(),
{
    if outcomes.len() == 0 {
        f
    } else {
        after_finding(f, outcomes.drop_last()).advanced(outcomes.last())
    }
}

/// What comes of looks at devices that can be read.
pub open spec fn looked(devices: Seq<Option<SeenView>>) -> Seq<OutcomeView> {
    devices.map_values(|d: Option<SeenView>| OutcomeView::Device(d))
}

/// What devices made known, in order.
pub open spec fn made_known(devices: Seq<Option<SeenView>>) -> Seq<SeenView>
    decreases devices.len(),
{
    if devices.len() == 0 {
        Seq::empty()
    } else {
        match devices.last() {
            Some(d) => made_known(devices.drop_last()).push(d),
            None => made_known(devices.drop_last()),
        }
    }
}

/// Every device in reach is looked at, one after the other, and what they make known is kept.
pub proof fn every_device_is_looked_at(f: FindingView, devices: Seq<Option<SeenView>>, n: nat)
    requires
        f.step == FindStepView::Read(0),
        f.seen == Seq::<SeenView>::empty(),
        0 < f.devices == devices.len(),
        n <= devices.len(),
    ensures
        after_finding(
            f,
            looked(devices.take(n as int)),
        ) == (FindingView {
            step: FindingView::look(n as int, f.devices),
            seen: made_known(devices.take(n as int)),
            ..f
        }),
    decreases n,
{
    let part = devices.take(n as int);
    let outcomes = looked(part);
    if n == 0 {
        assert(part =~= Seq::<Option<SeenView>>::empty());
    } else {
        every_device_is_looked_at(f, devices, (n - 1) as nat);
        assert(part.drop_last() =~= devices.take(n - 1));
        assert(outcomes.drop_last() =~= looked(devices.take(n - 1)));
        assert(outcomes.last() == OutcomeView::Device(devices[n - 1]));
    }
}

/// Where a stage fails or takes too long the connection is over, and the words say which stage it
/// was; a stage without a time limit cannot be told apart by how it failed.
pub proof fn failed_stage_is_named(c: ConnectingView, stage: ConnectStage, cancelled: bool)
    requires
        c.step == ConnectStepView::Run(stage),
    ensures
        c.advanced(OutcomeView::Failed, cancelled) == (ConnectingView {
            step: ConnectStepView::Failed(
                match stage {
                    ConnectStage::Manager => "failed to create BLE manager"@,
                    ConnectStage::Adapters => "failed to enumerate BLE adapters"@,
                    ConnectStage::Scan => "failed to start BLE scan"@,
                    ConnectStage::Match => "failed to list BLE peripherals"@,
                    ConnectStage::Pair => "failed to pair/trust device via BlueZ"@,
                    ConnectStage::Open => "failed to connect BLE peripheral"@,
                    ConnectStage::Discover => "failed to discover BLE services"@,
                    ConnectStage::Subscribe => "failed to subscribe BLE TX characteristic"@,
                    ConnectStage::Listen => "failed to open BLE notification stream"@,
                },
            ),
            ..c
        }),
        ({
            let after = c.advanced(OutcomeView::TimedOut, cancelled);
            &&& after.is_over()
            &&& stage is Open ==> after.step == ConnectStepView::Failed(
                "timed out connecting to BLE peripheral"@,
            )
            &&& stage is Discover ==> after.step == ConnectStepView::Failed(
                "timed out discovering BLE services"@,
            )
            &&& stage is Subscribe ==> after.step == ConnectStepView::Failed(
                "timed out subscribing to BLE TX characteristic"@,
            )
            &&& stage is Listen ==> after.step == ConnectStepView::Failed(
                "timed out opening BLE notification stream"@,
            )
            &&& stage_limit(stage) is None ==> after == c.advanced(OutcomeView::Failed, cancelled)
        }),
{
}

/// Opening the link and discovering its services may take ten seconds, subscribing and listening
/// five, and the other stages have no limit.
pub proof fn stages_have_their_time(stage: ConnectStage)
    ensures
        stage_limit(stage) is Some <==> stage is Open || stage is Discover || stage is Subscribe
            || stage is Listen,
        stage_limit(stage) matches Some((ms, text)) ==> ms == if stage is Open || stage is Discover {
            10_000int
        } else {
            5_000
        },
{
}

/// A connection cannot be made without an adapter, without a device or without the characteristics
/// on which the robot listens and speaks, and the words say what is missing; with both of them it
/// goes on, and knows where they stand.
pub proof fn missing_parts_are_reported(
    c: ConnectingView,
    found: usize,
    uuids: Seq<u128>,
    cancelled: bool,
)
    requires
        uuids.len() <= usize::MAX,
    ensures
        c.step == ConnectStepView::Run(ConnectStage::Adapters) ==> c.advanced(
            OutcomeView::Found(found),
            cancelled,
        ).step == if found == 0 {
            ConnectStepView::Failed("no BLE adapter available"@)
        } else if cancelled {
            ConnectStepView::Failed("BLE connection cancelled"@)
        } else {
            ConnectStepView::Run(ConnectStage::Scan)
        },
        c.step == ConnectStepView::Run(ConnectStage::Match) ==> {
            let after = c.advanced(OutcomeView::Found(found), cancelled);
            &&& found == 0 ==> after.step == ConnectStepView::Failed(
                "BLE device '"@ + c.selected + "' not found"@,
            )
            &&& found > 0 ==> after.step == ConnectStepView::Read(0)
            &&& after.devices == found
        },
        c.step == ConnectStepView::Run(ConnectStage::Discover) ==> {
            let after = c.advanced(OutcomeView::Characteristics(uuids), cancelled);
            let rx = uuids.contains(BLE_RX_CHAR_UUID_U128);
            let tx = uuids.contains(BLE_TX_CHAR_UUID_U128);
            &&& !rx ==> after.step == ConnectStepView::Failed("BLE RX characteristic not found"@)
            &&& rx && !tx ==> after.step == ConnectStepView::Failed(
                "BLE TX characteristic not found"@,
            )
            &&& rx && tx ==> {
                &&& after.rx < uuids.len() && uuids[after.rx as int] == BLE_RX_CHAR_UUID_U128
                &&& after.tx < uuids.len() && uuids[after.tx as int] == BLE_TX_CHAR_UUID_U128
                &&& after.step == if cancelled {
                    ConnectStepView::Failed("BLE connection cancelled"@)
                } else {
                    ConnectStepView::Run(ConnectStage::Subscribe)
                }
            }
        },
{
    crate::link::characteristic_is_found(uuids, BLE_RX_CHAR_UUID_U128, 0);
    crate::link::characteristic_is_found(uuids, BLE_TX_CHAR_UUID_U128, 0);
}

/// The device that is taken is one that makes itself known: by the identifier that was chosen, by
/// its name, or as a robot. One that makes nothing known is passed over.
pub proof fn devices_make_themselves_known(d: SeenView, selected: Seq<char>)
    ensures
        OutcomeView::Device(Some(d)).is_chosen(d.id),
        !OutcomeView::Device(None).is_chosen(selected),
        OutcomeView::Device(Some(d)).is_chosen(selected) <==> is_selected(
            d.id,
            if d.local_name is Some {
                d.local_name->0
            } else {
                Seq::empty()
            },
            d.has_service,
            selected,
        ),
        d.local_name is None && !d.has_service && d.id != selected && selected.len() > 0
            ==> !OutcomeView::Device(Some(d)).is_chosen(selected),
{
    let none = Seq::<char>::empty();
    if selected.len() > 0 && crate::text::contains(
        crate::text::lower(none),
        crate::text::lower(selected),
    ) {
        let i = choose|i: int|
            crate::text::occurs_at(crate::text::lower(none), crate::text::lower(selected), i);
        assert(false);
    }
    let own = crate::text::lower("lander001"@);
    reveal_strlit("lander001");
    if crate::text::contains(crate::text::lower(none), own) {
        let i = choose|i: int| crate::text::occurs_at(crate::text::lower(none), own, i);
        assert(own.len() == 9);
        assert(false);
    }
}

/// A device that cannot be read ends the connection; one that is not chosen makes place for the
/// next; and behind the last one the words say which device is missing.
pub proof fn devices_are_looked_at_in_order(
    c: ConnectingView,
    i: usize,
    d: Option<SeenView>,
    cancelled: bool,
)
    requires
        c.step == ConnectStepView::Read(i),
        i < c.devices,
    ensures
        c.advanced(OutcomeView::Failed, cancelled).step == ConnectStepView::Failed(
            "failed to read BLE peripheral properties"@,
        ),
        ({
            let after = c.advanced(OutcomeView::Device(d), cancelled);
            let chosen = OutcomeView::Device(d).is_chosen(c.selected);
            &&& !chosen && i + 1 < c.devices ==> after.step == ConnectStepView::Read(
                (i + 1) as usize,
            )
            &&& !chosen && i + 1 == c.devices ==> after.step == ConnectStepView::Failed(
                "BLE device '"@ + c.selected + "' not found"@,
            )
            &&& chosen && cancelled ==> after.step == ConnectStepView::Failed(
                "BLE connection cancelled"@,
            )
            &&& chosen && !cancelled ==> after.step == ConnectStepView::Run(
                if c.pairs {
                    ConnectStage::Pair
                } else {
                    ConnectStage::Open
                },
            )
            &&& after.selected == c.selected
        }),
{
}

/// A search for robots goes through its stages in order and notes every device that makes itself
/// known, once and behind the others; where something fails it is over, and nothing that was noted
/// is lost.
pub proof fn search_notes_every_device(f: FindingView, i: usize, d: SeenView, found: usize)
    ensures
        f.step == FindStepView::Run(ConnectStage::Manager) ==> f.advanced(OutcomeView::Done).step
            == FindStepView::Run(ConnectStage::Adapters),
        f.step == FindStepView::Run(ConnectStage::Adapters) ==> f.advanced(
            OutcomeView::Found(found),
        ).step == if found == 0 {
            FindStepView::Failed("no BLE adapter available"@)
        } else {
            FindStepView::Run(ConnectStage::Scan)
        },
        f.step == FindStepView::Run(ConnectStage::Scan) ==> f.advanced(OutcomeView::Done).step
            == FindStepView::Run(ConnectStage::Match),
        f.step == FindStepView::Run(ConnectStage::Match) ==> {
            let after = f.advanced(OutcomeView::Found(found));
            &&& after.devices == found
            &&& after.step == if found == 0 {
                FindStepView::Done
            } else {
                FindStepView::Read(0)
            }
        },
        f.step == FindStepView::Read(i) && i < f.devices ==> {
            let after = f.advanced(OutcomeView::Device(Some(d)));
            let nothing = f.advanced(OutcomeView::Device(None));
            let failed = f.advanced(OutcomeView::Failed);
            &&& after.seen == f.seen.push(d)
            &&& nothing.seen == f.seen
            &&& after.step == nothing.step
            &&& after.step == if i + 1 == f.devices {
                FindStepView::Done
            } else {
                FindStepView::Read((i + 1) as usize)
            }
            &&& failed.seen == f.seen
            &&& failed.step == FindStepView::Failed("failed to read BLE peripheral properties"@)
        },
        f.step == FindStepView::Run(ConnectStage::Match) ==> f.advanced(OutcomeView::Failed).step
            == FindStepView::Failed("failed to fetch scanned peripherals"@),
        f.step == FindStepView::Run(ConnectStage::Manager) ==> f.advanced(OutcomeView::Failed).step
            == FindStepView::Failed("failed to create BLE manager"@),
        f.step == FindStepView::Run(ConnectStage::Adapters) ==> f.advanced(OutcomeView::Failed).step
            == FindStepView::Failed("failed to enumerate BLE adapters"@),
        f.step == FindStepView::Run(ConnectStage::Scan) ==> f.advanced(OutcomeView::Failed).step
            == FindStepView::Failed("failed to start BLE scan"@),
{
}

/// Each stage has words of its own while it is under way.
pub proof fn stages_are_put_into_words(stage: ConnectStage)
    ensures
        stage_status(stage) == match stage {
            ConnectStage::Manager => "Creating BLE manager..."@,
            ConnectStage::Adapters => "Looking for BLE adapters..."@,
            ConnectStage::Scan => "Scanning for BLE devices..."@,
            ConnectStage::Match => "Matching selected BLE device..."@,
            ConnectStage::Pair => "Pairing via BlueZ..."@,
            ConnectStage::Open => "Opening BLE link..."@,
            ConnectStage::Discover => "Discovering BLE services..."@,
            ConnectStage::Subscribe => "Subscribing to notifications..."@,
            ConnectStage::Listen => "Waiting for robot responses..."@,
        },
{
}

} // verus!
