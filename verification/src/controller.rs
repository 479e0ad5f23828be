//! The desktop's controller: at most one operation on the robot at a time, each begun only where
//! nothing stands in its way, and a log of what happened.

use vstd::prelude::*;
use crate::command::{request_label, CommandRequest, RequestView};
use crate::link::{ble_device_display_name, display_name};
use crate::text::{contains, decimal, decimal_text, has_text, lower, lower_chars};
use crate::wrap::texts;

verus! {

/// How many lines the log keeps.
pub const MAX_LOG_LINES: usize = 200;

/// An operation that took longer than this is mentioned in the log, in milliseconds.
pub const SLOW_MS: u64 = 750;

pub const BLE_SCAN_STATUS: &'static str = "Scanning for BLE devices...";

/// The time: milliseconds since the Unix epoch, and nanoseconds of a clock that does not go back.
#[derive(Clone, Copy, Debug, PartialEq, Eq)]
pub struct Clock {
    pub unix_ms: u64,
    pub nanos: u64,
}

/// A connection that is being made.
pub struct PendingConnection {
    pub port_name: String,
    pub started_at: u64,
    pub cancelled: bool,
    pub status: String,
}

/// A connection that is being closed.
pub struct PendingDisconnect {
    pub port_name: String,
    pub started_at: u64,
}

/// A command that is under way. It holds the connection.
pub struct PendingCommand {
    pub label: String,
    pub port_name: String,
    pub started_at: u64,
}

/// What the desktop knows of the robot.
pub struct SharedController {
    pub ports: Vec<String>,
    pub selected_port_idx: usize,
    /// The name of the robot that is connected and idle.
    pub conn: Option<String>,
    pub pending_connect: Option<PendingConnection>,
    pub pending_scan: Option<u64>,
    pub pending_disconnect: Option<PendingDisconnect>,
    pub pending_command: Option<PendingCommand>,
    pub next_msg_id: u32,
    pub logs: Vec<String>,
}

#[verifier::ext_equal]
pub struct ConnectionView {
    pub port_name: Seq<char>,
    pub started_at: u64,
    pub cancelled: bool,
    pub status: Seq<char>,
}

#[verifier::ext_equal]
pub struct DisconnectView {
    pub port_name: Seq<char>,
    pub started_at: u64,
}

#[verifier::ext_equal]
pub struct CommandView {
    pub label: Seq<char>,
    pub port_name: Seq<char>,
    pub started_at: u64,
}

/// What the desktop knows of the robot, as seen by the contracts.
#[verifier::ext_equal]
pub struct ControllerView {
    pub ports: Seq<Seq<char>>,
    pub selected_port_idx: usize,
    pub conn: Option<Seq<char>>,
    pub pending_connect: Option<ConnectionView>,
    pub pending_scan: Option<u64>,
    pub pending_disconnect: Option<DisconnectView>,
    pub pending_command: Option<CommandView>,
    pub next_msg_id: u32,
    pub logs: Seq<Seq<char>>,
}

impl View for PendingConnection {
    type V = ConnectionView;

    open spec fn view(&self) -> ConnectionView {
        ConnectionView {
            port_name: self.port_name@,
            started_at: self.started_at,
            cancelled: self.cancelled,
            status: self.status@,
        }
    }
}

impl View for PendingDisconnect {
    type V = DisconnectView;

    open spec fn view(&self) -> DisconnectView {
        DisconnectView { port_name: self.port_name@, started_at: self.started_at }
    }
}

impl View for PendingCommand {
    type V = CommandView;

    open spec fn view(&self) -> CommandView {
        CommandView {
            label: self.label@,
            port_name: self.port_name@,
            started_at: self.started_at,
        }
    }
}

impl View for SharedController {
    type V = ControllerView;

    open spec fn view(&self) -> ControllerView {
        ControllerView {
            ports: texts(self.ports@),
            selected_port_idx: self.selected_port_idx,
            conn: match self.conn {
                Some(c) => Some(c@),
                None => None,
            },
            pending_connect: match self.pending_connect {
                Some(p) => Some(p@),
                None => None,
            },
            pending_scan: self.pending_scan,
            pending_disconnect: match self.pending_disconnect {
                Some(p) => Some(p@),
                None => None,
            },
            pending_command: match self.pending_command {
                Some(p) => Some(p@),
                None => None,
            },
            next_msg_id: self.next_msg_id,
            logs: texts(self.logs@),
        }
    }
}

/// What a worker is to do.
#[derive(Clone, Debug, PartialEq, Eq)]
pub enum ControlAction {
    Nothing,
    /// Look for robots.
    Scan,
    /// Connect to the device with this label.
    Connect(String),
    /// Tell the worker that connects to stop.
    Cancel,
    /// Close the connection.
    Disconnect,
    /// Run the command, with this number for its first message.
    Run(u32),
}

/// What a worker is to do, as seen by the contracts.
#[verifier::ext_equal]
pub enum ActionView {
    Nothing,
    Scan,
    Connect(Seq<char>),
    Cancel,
    Disconnect,
    Run(u32),
}

impl View for ControlAction {
    type V = ActionView;

    open spec fn view(&self) -> ActionView {
        match *self {
            ControlAction::Nothing => ActionView::Nothing,
            ControlAction::Scan => ActionView::Scan,
            ControlAction::Connect(label) => ActionView::Connect(label@),
            ControlAction::Cancel => ActionView::Cancel,
            ControlAction::Disconnect => ActionView::Disconnect,
            ControlAction::Run(id) => ActionView::Run(id),
        }
    }
}

/// Why connecting failed: the last cause alone, and all of them.
pub struct ConnectFailure {
    pub brief: String,
    pub full: String,
}

/// How connecting ended.
pub enum ConnectResult {
    /// There is a connection. Where it was called off, it has been closed again, perhaps with an
    /// error.
    Connected { close_error: Option<String> },
    Failed(ConnectFailure),
    /// The worker is gone without a word.
    WorkerGone,
}

/// How connecting ended, as seen by the contracts.
#[verifier::ext_equal]
pub enum ConnectResultView {
    Connected { close_error: Option<Seq<char>> },
    Failed { brief: Seq<char>, full: Seq<char> },
    WorkerGone,
}

impl View for ConnectResult {
    type V = ConnectResultView;

    open spec fn view(&self) -> ConnectResultView {
        match *self {
            ConnectResult::Connected { close_error } => ConnectResultView::Connected {
                close_error: match close_error {
                    Some(e) => Some(e@),
                    None => None,
                },
            },
            ConnectResult::Failed(f) => ConnectResultView::Failed { brief: f.brief@, full: f.full@ },
            ConnectResult::WorkerGone => ConnectResultView::WorkerGone,
        }
    }
}

/// How a scan ended.
pub enum ScanResult {
    Found(Vec<String>),
    Failed(String),
    WorkerGone,
}

/// How a scan ended, as seen by the contracts.
#[verifier::ext_equal]
pub enum ScanResultView {
    Found(Seq<Seq<char>>),
    Failed(Seq<char>),
    WorkerGone,
}

impl View for ScanResult {
    type V = ScanResultView;

    open spec fn view(&self) -> ScanResultView {
        match *self {
            ScanResult::Found(ports) => ScanResultView::Found(texts(ports@)),
            ScanResult::Failed(e) => ScanResultView::Failed(e@),
            ScanResult::WorkerGone => ScanResultView::WorkerGone,
        }
    }
}

/// How closing a connection ended.
pub enum DisconnectResult {
    Closed,
    Failed(String),
    WorkerGone,
}

/// How closing a connection ended, as seen by the contracts.
#[verifier::ext_equal]
pub enum DisconnectResultView {
    Closed,
    Failed(Seq<char>),
    WorkerGone,
}

impl View for DisconnectResult {
    type V = DisconnectResultView;

    open spec fn view(&self) -> DisconnectResultView {
        match *self {
            DisconnectResult::Closed => DisconnectResultView::Closed,
            DisconnectResult::Failed(e) => DisconnectResultView::Failed(e@),
            DisconnectResult::WorkerGone => DisconnectResultView::WorkerGone,
        }
    }
}

/// How a command ended.
pub enum CommandResult {
    /// The robot did what was asked; the lines are for the log.
    Done { next_msg_id: u32, messages: Vec<String> },
    Failed { next_msg_id: u32, error: String, broken_pipe: bool },
    WorkerGone,
}

/// How a command ended, as seen by the contracts.
#[verifier::ext_equal]
pub enum CommandResultView {
    Done { next_msg_id: u32, messages: Seq<Seq<char>> },
    Failed { next_msg_id: u32, error: Seq<char>, broken_pipe: bool },
    WorkerGone,
}

impl View for CommandResult {
    type V = CommandResultView;

    open spec fn view(&self) -> CommandResultView {
        match *self {
            CommandResult::Done { next_msg_id, messages } => CommandResultView::Done {
                next_msg_id,
                messages: texts(messages@),
            },
            CommandResult::Failed { next_msg_id, error, broken_pipe } => CommandResultView::Failed {
                next_msg_id,
                error: error@,
                broken_pipe,
            },
            CommandResult::WorkerGone => CommandResultView::WorkerGone,
        }
    }
}

/// A line of the log.
pub open spec fn log_line(unix_ms: u64, text: Seq<char>) -> Seq<char> {
    "["@ + decimal(unix_ms as nat) + "] "@ + text
}

/// The last lines of a log, no more than it keeps.
pub open spec fn newest(lines: Seq<Seq<char>>) -> Seq<Seq<char>> {
    if lines.len() > MAX_LOG_LINES {
        lines.skip(lines.len() - MAX_LOG_LINES)
    } else {
        lines
    }
}

/// How many whole milliseconds lie between two times.
pub open spec fn millis_between(started_at: u64, now: u64) -> nat {
    if now >= started_at {
        ((now - started_at) / 1_000_000) as nat
    } else {
        0
    }
}

fn elapsed_ms(started_at: u64, now: u64) -> (r: u64)
    ensures
        r == millis_between(started_at, now),
{
    if now >= started_at {
        (now - started_at) / 1_000_000
    } else {
        0
    }
}

impl ControllerView {
    /// With one more line in the log.
    pub open spec fn logged(self, unix_ms: u64, text: Seq<char>) -> ControllerView {
        ControllerView { logs: newest(self.logs.push(log_line(unix_ms, text))), ..self }
    }

    /// With more lines in the log.
    pub open spec fn logged_all(self, unix_ms: u64, lines: Seq<Seq<char>>) -> ControllerView
        decreases lines.len(),
    {
        if lines.len() == 0 {
            self
        } else {
            self.logged_all(unix_ms, lines.drop_last()).logged(unix_ms, lines.last())
        }
    }

    /// With a line in the log where an operation took long.
    pub open spec fn noted_if_slow(self, clock: Clock, started_at: u64, what: Seq<char>) -> ControllerView {
        let ms = millis_between(started_at, clock.nanos);
        if ms > SLOW_MS {
            self.logged(clock.unix_ms, what + " done in "@ + decimal(ms) + " ms"@)
        } else {
            self
        }
    }

    /// The log is no longer than it may be, and a scan stands alone.
    pub open spec fn wf(self) -> bool {
        &&& self.logs.len() <= MAX_LOG_LINES
        &&& self.pending_scan is Some ==> {
            &&& self.pending_connect is None
            &&& self.pending_disconnect is None
            &&& self.pending_command is None
        }
    }

    /// Whether the robot is connected, idle or at work.
    pub open spec fn connected(self) -> bool {
        self.conn is Some || self.pending_command is Some
    }

    /// No more than one of these at a time: a robot that is connected and idle, one that is at
    /// work, one that is being connected, one that is being disconnected.
    pub open spec fn exclusive(self) -> bool {
        &&& self.pending_connect is Some ==> self.conn is None && self.pending_disconnect is None
            && self.pending_command is None
        &&& self.pending_disconnect is Some ==> self.conn is None && self.pending_command is None
        &&& self.pending_command is Some ==> self.conn is None
    }

    /// A command is asked for.
    pub open spec fn asked_to_run(self, label: Seq<char>, clock: Clock) -> (
        ControllerView,
        ActionView,
    ) {
        if self.pending_connect is Some {
            (self.logged(clock.unix_ms, "Connection in progress"@), ActionView::Nothing)
        } else if self.pending_scan is Some {
            (self.logged(clock.unix_ms, "Scan in progress"@), ActionView::Nothing)
        } else if self.pending_disconnect is Some {
            (self.logged(clock.unix_ms, "Disconnect in progress"@), ActionView::Nothing)
        } else if self.pending_command is Some {
            (
                self.logged(clock.unix_ms, "Another command is already in progress"@),
                ActionView::Nothing,
            )
        } else {
            match self.conn {
                None => (self.logged(clock.unix_ms, "Not connected"@), ActionView::Nothing),
                Some(port_name) => (
                    ControllerView {
                        conn: None,
                        pending_command: Some(
                            CommandView { label, port_name, started_at: clock.nanos },
                        ),
                        ..self
                    }.logged(clock.unix_ms, label),
                    ActionView::Run(self.next_msg_id),
                ),
            }
        }
    }

    /// A scan is asked for.
    pub open spec fn asked_to_scan(self, clock: Clock) -> (ControllerView, ActionView) {
        if self.pending_scan is Some {
            (self.logged(clock.unix_ms, "Scan already in progress"@), ActionView::Nothing)
        } else if self.pending_connect is Some {
            (self.logged(clock.unix_ms, "Connection in progress"@), ActionView::Nothing)
        } else if self.pending_disconnect is Some {
            (self.logged(clock.unix_ms, "Disconnect in progress"@), ActionView::Nothing)
        } else if self.pending_command is Some {
            (self.logged(clock.unix_ms, "Command in progress"@), ActionView::Nothing)
        } else {
            (
                ControllerView { pending_scan: Some(clock.nanos), ..self }.logged(
                    clock.unix_ms,
                    BLE_SCAN_STATUS@,
                ),
                ActionView::Scan,
            )
        }
    }

    /// A connection is asked for.
    pub open spec fn asked_to_connect(self, clock: Clock) -> (ControllerView, ActionView) {
        if self.conn is Some {
            (self.logged(clock.unix_ms, "Already connected"@), ActionView::Nothing)
        } else if self.pending_connect is Some {
            (self.logged(clock.unix_ms, "Connection already in progress"@), ActionView::Nothing)
        } else if self.pending_scan is Some {
            (self.logged(clock.unix_ms, "Scan in progress"@), ActionView::Nothing)
        } else if self.pending_disconnect is Some {
            (self.logged(clock.unix_ms, "Disconnect in progress"@), ActionView::Nothing)
        } else if self.selected_port_idx >= self.ports.len() {
            (self.logged(clock.unix_ms, "No BLE device selected"@), ActionView::Nothing)
        } else {
            let port_name = self.ports[self.selected_port_idx as int];
            (
                ControllerView {
                    pending_connect: Some(
                        ConnectionView {
                            port_name,
                            started_at: clock.nanos,
                            cancelled: false,
                            status: "Starting BLE scan..."@,
                        },
                    ),
                    ..self
                }.logged(clock.unix_ms, "Connecting to "@ + display_name(port_name)),
                ActionView::Connect(port_name),
            )
        }
    }

    /// A disconnection is asked for, or that connecting be called off.
    pub open spec fn asked_to_disconnect(self, clock: Clock) -> (ControllerView, ActionView) {
        match self.pending_connect {
            Some(pending) => (
                ControllerView {
                    pending_connect: Some(ConnectionView { cancelled: true, ..pending }),
                    ..self
                }.logged(
                    clock.unix_ms,
                    "Cancelling connection to "@ + display_name(pending.port_name),
                ),
                ActionView::Cancel,
            ),
            None => if self.pending_disconnect is Some {
                (self.logged(clock.unix_ms, "Disconnect already in progress"@), ActionView::Nothing)
            } else if self.pending_scan is Some {
                (self.logged(clock.unix_ms, "Scan in progress"@), ActionView::Nothing)
            } else {
                match self.conn {
                    Some(port_name) => (
                        ControllerView {
                            conn: None,
                            pending_disconnect: Some(
                                DisconnectView { port_name, started_at: clock.nanos },
                            ),
                            ..self
                        }.logged(clock.unix_ms, "Disconnecting from "@ + port_name),
                        ActionView::Disconnect,
                    ),
                    None => if self.pending_command is Some {
                        (
                            self.logged(
                                clock.unix_ms,
                                "Command in progress; wait for it to finish or time out"@,
                            ),
                            ActionView::Nothing,
                        )
                    } else {
                        (self.logged(clock.unix_ms, "Already disconnected"@), ActionView::Nothing)
                    },
                }
            },
        }
    }

    /// Connecting has ended.
    pub open spec fn connect_ended(self, result: ConnectResultView, clock: Clock) -> (
        ControllerView,
        ActionView,
    ) {
        match self.pending_connect {
            None => (self, ActionView::Nothing),
            Some(pending) => {
                let idle = ControllerView { pending_connect: None, ..self };
                let name = display_name(pending.port_name);
                let called_off = "Cancelled connection to "@ + name;
                let gone = "BLE connect worker exited unexpectedly"@;
                match result {
                    ConnectResultView::Connected { close_error } => if pending.cancelled {
                        (
                            (match close_error {
                                Some(e) => idle.logged(clock.unix_ms, "Error: "@ + e),
                                None => idle,
                            }).logged(clock.unix_ms, called_off),
                            ActionView::Nothing,
                        )
                    } else {
                        ControllerView { conn: Some(name), ..idle }.logged(
                            clock.unix_ms,
                            "Connected to "@ + name,
                        ).asked_to_run(request_label(RequestView::Ping), clock)
                    },
                    ConnectResultView::Failed { brief, full } => (
                        idle.connect_failed(pending.cancelled, called_off, brief, full, clock),
                        ActionView::Nothing,
                    ),
                    ConnectResultView::WorkerGone => (
                        idle.connect_failed(pending.cancelled, called_off, gone, gone, clock),
                        ActionView::Nothing,
                    ),
                }
            },
        }
    }

    /// The log after connecting failed.
    pub open spec fn connect_failed(
        self,
        cancelled: bool,
        called_off: Seq<char>,
        brief: Seq<char>,
        full: Seq<char>,
        clock: Clock,
    ) -> ControllerView {
        if cancelled {
            let c = self.logged(clock.unix_ms, called_off);
            if contains(lower(brief), "cancelled"@) {
                c
            } else {
                c.logged(clock.unix_ms, "Connect worker stopped: "@ + brief)
            }
        } else {
            self.logged(clock.unix_ms, "Failed to connect: "@ + full)
        }
    }

    /// A scan has ended.
    pub open spec fn scan_ended(self, result: ScanResultView, clock: Clock) -> ControllerView {
        match self.pending_scan {
            None => self,
            Some(started_at) => {
                let idle = ControllerView { pending_scan: None, ..self };
                match result {
                    ScanResultView::Found(ports) => ControllerView {
                        ports,
                        selected_port_idx: if self.selected_port_idx >= ports.len() {
                            0
                        } else {
                            self.selected_port_idx
                        },
                        ..idle
                    }.logged(
                        clock.unix_ms,
                        "Found "@ + decimal(ports.len()) + " BLE device(s)"@,
                    ).noted_if_slow(clock, started_at, "Scan"@),
                    ScanResultView::Failed(e) => idle.logged(
                        clock.unix_ms,
                        "Scan failed: "@ + e,
                    ).noted_if_slow(clock, started_at, "Scan"@),
                    ScanResultView::WorkerGone => idle.logged(
                        clock.unix_ms,
                        "Scan worker exited unexpectedly"@,
                    ),
                }
            },
        }
    }

    /// Closing a connection has ended.
    pub open spec fn disconnect_ended(self, result: DisconnectResultView, clock: Clock) -> ControllerView {
        match self.pending_disconnect {
            None => self,
            Some(pending) => {
                let idle = ControllerView { pending_disconnect: None, ..self };
                match result {
                    DisconnectResultView::Closed => idle.logged(
                        clock.unix_ms,
                        "Disconnected from "@ + pending.port_name,
                    ).noted_if_slow(clock, pending.started_at, "Disconnect"@),
                    DisconnectResultView::Failed(e) => idle.logged(
                        clock.unix_ms,
                        "Disconnect failed: "@ + e,
                    ).noted_if_slow(clock, pending.started_at, "Disconnect"@),
                    DisconnectResultView::WorkerGone => idle.logged(
                        clock.unix_ms,
                        "Disconnect worker for "@ + pending.port_name + " exited unexpectedly"@,
                    ),
                }
            },
        }
    }

    /// A command has ended. The connection is free again, unless it is lost.
    pub open spec fn command_ended(self, result: CommandResultView, clock: Clock) -> ControllerView {
        match self.pending_command {
            None => self,
            Some(pending) => {
                let idle = ControllerView { pending_command: None, ..self };
                match result {
                    CommandResultView::Done { next_msg_id, messages } => ControllerView {
                        next_msg_id,
                        conn: Some(pending.port_name),
                        ..idle
                    }.logged_all(clock.unix_ms, messages).noted_if_slow(
                        clock,
                        pending.started_at,
                        pending.label,
                    ),
                    CommandResultView::Failed { next_msg_id, error, broken_pipe } => {
                        let told = ControllerView { next_msg_id, ..idle }.logged(
                            clock.unix_ms,
                            "Error: "@ + error,
                        );
                        (if broken_pipe {
                            told.logged(
                                clock.unix_ms,
                                "Connection lost on "@ + pending.port_name,
                            )
                        } else {
                            ControllerView { conn: Some(pending.port_name), ..told }
                        }).noted_if_slow(clock, pending.started_at, pending.label)
                    },
                    CommandResultView::WorkerGone => idle.logged(
                        clock.unix_ms,
                        "Command worker for "@ + pending.port_name + " exited unexpectedly"@,
                    ),
                }
            },
        }
    }

    /// A notification of the desktop is to be forwarded; dropped where the robot is not idle.
    pub open spec fn asked_to_forward(self, label: Seq<char>, clock: Clock) -> (
        ControllerView,
        ActionView,
    ) {
        if self.conn is None || self.pending_command is Some || self.pending_connect is Some {
            (self, ActionView::Nothing)
        } else {
            self.asked_to_run(label, clock)
        }
    }
}

impl SharedController {
    /// A controller that knows of some robots and has done nothing.
    pub fn new(ports: Vec<String>) -> (r: Self)
        ensures
            r@.wf(),
            r@.exclusive(),
            r@ == (ControllerView {
                ports: texts(ports@),
                selected_port_idx: 0,
                conn: None,
                pending_connect: None,
                pending_scan: None,
                pending_disconnect: None,
                pending_command: None,
                next_msg_id: 1,
                logs: Seq::empty(),
            }),
    {
        let r = SharedController {
            ports,
            selected_port_idx: 0,
            conn: None,
            pending_connect: None,
            pending_scan: None,
            pending_disconnect: None,
            pending_command: None,
            next_msg_id: 1,
            logs: Vec::new(),
        };
        assert(r@.logs =~= Seq::<Seq<char>>::empty());
        r
    }

    /// Writes a line into the log; the oldest lines make room for it.
    pub fn log(&mut self, unix_ms: u64, text: &str)
        ensures
            final(self)@ == old(self)@.logged(unix_ms, text@),
    {
        let mut line = "[".to_string();
        line.append(decimal_text(unix_ms).as_str());
        line.append("] ");
        line.append(text);
        let ghost before = texts(self.logs@);
        let ghost full = before.push(line@);
        self.logs.push(line);
        assert(texts(self.logs@) =~= full);
        if self.logs.len() > MAX_LOG_LINES {
            let drop_count: usize = self.logs.len() - MAX_LOG_LINES;
            let kept = self.logs.split_off(drop_count);
            self.logs = kept;
            assert(texts(self.logs@) =~= full.skip(drop_count as int));
        }
    }

    fn log_two(&mut self, unix_ms: u64, front: &str, back: &str)
        ensures
            final(self)@ == old(self)@.logged(unix_ms, front@ + back@),
    {
        let mut text = front.to_string();
        text.append(back);
        self.log(unix_ms, text.as_str());
    }

    fn note_if_slow(&mut self, clock: Clock, started_at: u64, what: &str)
        ensures
            final(self)@ == old(self)@.noted_if_slow(clock, started_at, what@),
    {
        let ms: u64 = elapsed_ms(started_at, clock.nanos);
        if ms > SLOW_MS {
            let mut text = what.to_string();
            text.append(" done in ");
            text.append(decimal_text(ms).as_str());
            text.append(" ms");
            self.log(clock.unix_ms, text.as_str());
        }
    }

    /// The label of the device that is chosen.
    pub fn selected_port_name(&self) -> (r: Option<String>)
        ensures
            match r {
                Some(name) => self@.selected_port_idx < self@.ports.len() && name@
                    == self@.ports[self@.selected_port_idx as int],
                None => self@.selected_port_idx >= self@.ports.len(),
            },
    {
        if self.selected_port_idx < self.ports.len() {
            Some(self.ports[self.selected_port_idx].clone())
        } else {
            None
        }
    }

    /// Chooses a device.
    pub fn select_port(&mut self, idx: usize)
        ensures
            final(self)@ == (ControllerView { selected_port_idx: idx, ..old(self)@ }),
    {
        self.selected_port_idx = idx;
    }

    /// Whether the robot is connected, idle or at work.
    pub fn is_connected(&self) -> (r: bool)
        ensures
            r == self@.connected(),
    {
        self.conn.is_some() || self.pending_command.is_some()
    }

    pub fn is_connecting(&self) -> (r: bool)
        ensures
            r == (self@.pending_connect is Some),
    {
        self.pending_connect.is_some()
    }

    pub fn is_scanning(&self) -> (r: bool)
        ensures
            r == (self@.pending_scan is Some),
    {
        self.pending_scan.is_some()
    }

    pub fn is_disconnecting(&self) -> (r: bool)
        ensures
            r == (self@.pending_disconnect is Some),
    {
        self.pending_disconnect.is_some()
    }

    pub fn is_command_pending(&self) -> (r: bool)
        ensures
            r == (self@.pending_command is Some),
    {
        self.pending_command.is_some()
    }

    /// Whether the connection that is being made was called off.
    pub fn is_cancelled(&self) -> (r: bool)
        ensures
            r == (self@.pending_connect matches Some(p) && p.cancelled),
    {
        match &self.pending_connect {
            Some(p) => p.cancelled,
            None => false,
        }
    }

    /// The words for the command that is under way.
    pub fn pending_command_status(&self) -> (r: Option<String>)
        ensures
            match r {
                Some(s) => self@.pending_command matches Some(p) && s@ == p.label,
                None => self@.pending_command is None,
            },
    {
        match &self.pending_command {
            Some(p) => Some(p.label.clone()),
            None => None,
        }
    }

    /// The words for the scan that is under way.
    pub fn scan_status(&self) -> (r: Option<&'static str>)
        ensures
            match r {
                Some(s) => self@.pending_scan is Some && s@ == BLE_SCAN_STATUS@,
                None => self@.pending_scan is None,
            },
    {
        match self.pending_scan {
            Some(_) => Some(BLE_SCAN_STATUS),
            None => None,
        }
    }

    /// The words for the connection that is being closed.
    pub fn disconnect_status(&self) -> (r: Option<String>)
        ensures
            match r {
                Some(s) => self@.pending_disconnect matches Some(p) && s@ == "Disconnecting from "@
                    + display_name(p.port_name) + "..."@,
                None => self@.pending_disconnect is None,
            },
    {
        match &self.pending_disconnect {
            Some(p) => {
                let mut s = "Disconnecting from ".to_string();
                s.append(ble_device_display_name(p.port_name.as_str()).as_str());
                s.append("...");
                Some(s)
            },
            None => None,
        }
    }

    /// The name of the robot that is connected, idle or at work.
    pub fn connected_port_name(&self) -> (r: Option<String>)
        ensures
            match r {
                Some(s) => match self@.conn {
                    Some(name) => s@ == name,
                    None => self@.pending_command matches Some(p) && s@ == p.port_name,
                },
                None => !self@.connected(),
            },
    {
        match &self.conn {
            Some(name) => Some(name.clone()),
            None => match &self.pending_command {
                Some(p) => Some(p.port_name.clone()),
                None => None,
            },
        }
    }

    /// How far the connection that is being made has come.
    pub fn connect_status(&self) -> (r: Option<String>)
        ensures
            match r {
                Some(s) => self@.pending_connect matches Some(p) && s@ == p.status,
                None => self@.pending_connect is None,
            },
    {
        match &self.pending_connect {
            Some(p) => Some(p.status.clone()),
            None => None,
        }
    }

    /// The name of the robot that is being connected.
    pub fn connect_target_name(&self) -> (r: Option<String>)
        ensures
            match r {
                Some(s) => self@.pending_connect matches Some(p) && s@ == display_name(p.port_name),
                None => self@.pending_connect is None,
            },
    {
        match &self.pending_connect {
            Some(p) => Some(ble_device_display_name(p.port_name.as_str())),
            None => None,
        }
    }

    /// Takes note of how far the connection that is being made has come.
    pub fn connect_progress(&mut self, status: String)
        ensures
            final(self)@ == (ControllerView {
                pending_connect: match old(self)@.pending_connect {
                    Some(p) => Some(ConnectionView { status: status@, ..p }),
                    None => None,
                },
                ..old(self)@
            }),
    {
        if let Some(mut p) = self.pending_connect.take() {
            p.status = status;
            self.pending_connect = Some(p);
        }
    }

    /// Begins a command, if nothing stands in its way.
    pub fn start_command(&mut self, request: &CommandRequest, clock: Clock) -> (r: ControlAction)
        requires
            old(self)@.wf(),
        ensures
            final(self)@.wf(),
            (final(self)@, r@) == old(self)@.asked_to_run(request_label(request@), clock),
    {
        if self.pending_connect.is_some() {
            self.log(clock.unix_ms, "Connection in progress");
            return ControlAction::Nothing;
        }
        if self.pending_scan.is_some() {
            self.log(clock.unix_ms, "Scan in progress");
            return ControlAction::Nothing;
        }
        if self.pending_disconnect.is_some() {
            self.log(clock.unix_ms, "Disconnect in progress");
            return ControlAction::Nothing;
        }
        if self.pending_command.is_some() {
            self.log(clock.unix_ms, "Another command is already in progress");
            return ControlAction::Nothing;
        }
        let port_name = match self.conn.take() {
            Some(name) => name,
            None => {
                self.log(clock.unix_ms, "Not connected");
                return ControlAction::Nothing;
            },
        };
        let label = request.label();
        self.pending_command = Some(
            PendingCommand { label: label.clone(), port_name, started_at: clock.nanos },
        );
        let next_msg_id: u32 = self.next_msg_id;
        self.log(clock.unix_ms, label.as_str());
        ControlAction::Run(next_msg_id)
    }

    /// Begins a scan, if nothing stands in its way.
    pub fn scan_ports(&mut self, clock: Clock) -> (r: ControlAction)
        requires
            old(self)@.wf(),
        ensures
            final(self)@.wf(),
            (final(self)@, r@) == old(self)@.asked_to_scan(clock),
    {
        if self.pending_scan.is_some() {
            self.log(clock.unix_ms, "Scan already in progress");
            return ControlAction::Nothing;
        }
        if self.pending_connect.is_some() {
            self.log(clock.unix_ms, "Connection in progress");
            return ControlAction::Nothing;
        }
        if self.pending_disconnect.is_some() {
            self.log(clock.unix_ms, "Disconnect in progress");
            return ControlAction::Nothing;
        }
        if self.pending_command.is_some() {
            self.log(clock.unix_ms, "Command in progress");
            return ControlAction::Nothing;
        }
        self.pending_scan = Some(clock.nanos);
        self.log(clock.unix_ms, BLE_SCAN_STATUS);
        ControlAction::Scan
    }

    /// Begins to connect, if nothing stands in its way.
    pub fn connect(&mut self, clock: Clock) -> (r: ControlAction)
        requires
            old(self)@.wf(),
        ensures
            final(self)@.wf(),
            (final(self)@, r@) == old(self)@.asked_to_connect(clock),
    {
        if self.conn.is_some() {
            self.log(clock.unix_ms, "Already connected");
            return ControlAction::Nothing;
        }
        if self.pending_connect.is_some() {
            self.log(clock.unix_ms, "Connection already in progress");
            return ControlAction::Nothing;
        }
        if self.pending_scan.is_some() {
            self.log(clock.unix_ms, "Scan in progress");
            return ControlAction::Nothing;
        }
        if self.pending_disconnect.is_some() {
            self.log(clock.unix_ms, "Disconnect in progress");
            return ControlAction::Nothing;
        }
        let port_name = match self.selected_port_name() {
            Some(name) => name,
            None => {
                self.log(clock.unix_ms, "No BLE device selected");
                return ControlAction::Nothing;
            },
        };
        self.pending_connect = Some(
            PendingConnection {
                port_name: port_name.clone(),
                started_at: clock.nanos,
                cancelled: false,
                status: "Starting BLE scan...".to_string(),
            },
        );
        let name = ble_device_display_name(port_name.as_str());
        self.log_two(clock.unix_ms, "Connecting to ", name.as_str());
        ControlAction::Connect(port_name)
    }

    /// Begins to disconnect, or calls off the connection that is being made.
    pub fn disconnect(&mut self, clock: Clock) -> (r: ControlAction)
        requires
            old(self)@.wf(),
        ensures
            final(self)@.wf(),
            (final(self)@, r@) == old(self)@.asked_to_disconnect(clock),
    {
        if let Some(mut pending) = self.pending_connect.take() {
            let name = ble_device_display_name(pending.port_name.as_str());
            pending.cancelled = true;
            self.pending_connect = Some(pending);
            self.log_two(clock.unix_ms, "Cancelling connection to ", name.as_str());
            return ControlAction::Cancel;
        }
        if self.pending_disconnect.is_some() {
            self.log(clock.unix_ms, "Disconnect already in progress");
            return ControlAction::Nothing;
        }
        if self.pending_scan.is_some() {
            self.log(clock.unix_ms, "Scan in progress");
            return ControlAction::Nothing;
        }
        match self.conn.take() {
            Some(port_name) => {
                self.pending_disconnect = Some(
                    PendingDisconnect { port_name: port_name.clone(), started_at: clock.nanos },
                );
                self.log_two(clock.unix_ms, "Disconnecting from ", port_name.as_str());
                ControlAction::Disconnect
            },
            None => {
                if self.pending_command.is_some() {
                    self.log(
                        clock.unix_ms,
                        "Command in progress; wait for it to finish or time out",
                    );
                } else {
                    self.log(clock.unix_ms, "Already disconnected");
                }
                ControlAction::Nothing
            },
        }
    }

    fn log_connect_failure(
        &mut self,
        cancelled: bool,
        name: &str,
        brief: &str,
        full: &str,
        clock: Clock,
    )
        ensures
            final(self)@ == old(self)@.connect_failed(
                cancelled,
                "Cancelled connection to "@ + name@,
                brief@,
                full@,
                clock,
            ),
    {
        if cancelled {
            self.log_two(clock.unix_ms, "Cancelled connection to ", name);
            let lowered = lower_chars(brief);
            if !has_text(lowered.as_slice(), "cancelled") {
                self.log_two(clock.unix_ms, "Connect worker stopped: ", brief);
            }
        } else {
            self.log_two(clock.unix_ms, "Failed to connect: ", full);
        }
    }

    /// Takes note of how connecting ended. A robot that is connected is greeted with a ping.
    pub fn connect_finished(&mut self, result: ConnectResult, clock: Clock) -> (r: ControlAction)
        requires
            old(self)@.wf(),
        ensures
            final(self)@.wf(),
            (final(self)@, r@) == old(self)@.connect_ended(result@, clock),
    {
        let pending = match self.pending_connect.take() {
            Some(p) => p,
            None => {
                return ControlAction::Nothing;
            },
        };
        let name = ble_device_display_name(pending.port_name.as_str());
        match result {
            ConnectResult::Connected { close_error } => {
                if pending.cancelled {
                    if let Some(e) = close_error {
                        self.log_two(clock.unix_ms, "Error: ", e.as_str());
                    }
                    self.log_two(clock.unix_ms, "Cancelled connection to ", name.as_str());
                    ControlAction::Nothing
                } else {
                    self.conn = Some(name.clone());
                    self.log_two(clock.unix_ms, "Connected to ", name.as_str());
                    self.start_command(&CommandRequest::Ping, clock)
                }
            },
            ConnectResult::Failed(f) => {
                self.log_connect_failure(
                    pending.cancelled,
                    name.as_str(),
                    f.brief.as_str(),
                    f.full.as_str(),
                    clock,
                );
                ControlAction::Nothing
            },
            ConnectResult::WorkerGone => {
                self.log_connect_failure(
                    pending.cancelled,
                    name.as_str(),
                    "BLE connect worker exited unexpectedly",
                    "BLE connect worker exited unexpectedly",
                    clock,
                );
                ControlAction::Nothing
            },
        }
    }

    /// Takes note of how a scan ended.
    pub fn scan_finished(&mut self, result: ScanResult, clock: Clock)
        requires
            old(self)@.wf(),
        ensures
            final(self)@.wf(),
            final(self)@ == old(self)@.scan_ended(result@, clock),
    {
        let started_at: u64 = match self.pending_scan {
            Some(t) => t,
            None => {
                return;
            },
        };
        self.pending_scan = None;
        match result {
            ScanResult::Found(ports) => {
                let count: usize = ports.len();
                assert(texts(ports@).len() == count);
                self.ports = ports;
                if self.selected_port_idx >= count {
                    self.selected_port_idx = 0;
                }
                let mut text = "Found ".to_string();
                text.append(decimal_text(count as u64).as_str());
                text.append(" BLE device(s)");
                self.log(clock.unix_ms, text.as_str());
                self.note_if_slow(clock, started_at, "Scan");
            },
            ScanResult::Failed(e) => {
                self.log_two(clock.unix_ms, "Scan failed: ", e.as_str());
                self.note_if_slow(clock, started_at, "Scan");
            },
            ScanResult::WorkerGone => {
                self.log(clock.unix_ms, "Scan worker exited unexpectedly");
            },
        }
    }

    /// Takes note of how closing a connection ended.
    pub fn disconnect_finished(&mut self, result: DisconnectResult, clock: Clock)
        requires
            old(self)@.wf(),
        ensures
            final(self)@.wf(),
            final(self)@ == old(self)@.disconnect_ended(result@, clock),
    {
        let pending = match self.pending_disconnect.take() {
            Some(p) => p,
            None => {
                return;
            },
        };
        match result {
            DisconnectResult::Closed => {
                self.log_two(clock.unix_ms, "Disconnected from ", pending.port_name.as_str());
                self.note_if_slow(clock, pending.started_at, "Disconnect");
            },
            DisconnectResult::Failed(e) => {
                self.log_two(clock.unix_ms, "Disconnect failed: ", e.as_str());
                self.note_if_slow(clock, pending.started_at, "Disconnect");
            },
            DisconnectResult::WorkerGone => {
                let mut text = "Disconnect worker for ".to_string();
                text.append(pending.port_name.as_str());
                text.append(" exited unexpectedly");
                self.log(clock.unix_ms, text.as_str());
            },
        }
    }

    fn log_all(&mut self, unix_ms: u64, messages: &Vec<String>)
        ensures
            final(self)@ == old(self)@.logged_all(unix_ms, texts(messages@)),
    {
        let ghost all = texts(messages@);
        let mut i: usize = 0;
        assert(all.take(0) =~= Seq::<Seq<char>>::empty());
        while i < messages.len()
            invariant
                i <= messages@.len(),
                all == texts(messages@),
                self@ == old(self)@.logged_all(unix_ms, all.take(i as int)),
            decreases messages@.len() - i,
        {
            self.log(unix_ms, messages[i].as_str());
            i = i + 1;
            assert(all.take(i as int).drop_last() =~= all.take(i - 1));
            assert(all.take(i as int).last() == all[i - 1]);
        }
        assert(all.take(i as int) =~= all);
    }

    /// Takes note of how a command ended.
    pub fn command_finished(&mut self, result: CommandResult, clock: Clock)
        requires
            old(self)@.wf(),
        ensures
            final(self)@.wf(),
            final(self)@ == old(self)@.command_ended(result@, clock),
    {
        let pending = match self.pending_command.take() {
            Some(p) => p,
            None => {
                return;
            },
        };
        match result {
            CommandResult::Done { next_msg_id, messages } => {
                self.next_msg_id = next_msg_id;
                self.conn = Some(pending.port_name.clone());
                proof {
                    lemma_logged_all(self@, clock.unix_ms, texts(messages@));
                }
                self.log_all(clock.unix_ms, &messages);
                self.note_if_slow(clock, pending.started_at, pending.label.as_str());
            },
            CommandResult::Failed { next_msg_id, error, broken_pipe } => {
                self.next_msg_id = next_msg_id;
                self.log_two(clock.unix_ms, "Error: ", error.as_str());
                if broken_pipe {
                    self.log_two(
                        clock.unix_ms,
                        "Connection lost on ",
                        pending.port_name.as_str(),
                    );
                } else {
                    self.conn = Some(pending.port_name.clone());
                }
                self.note_if_slow(clock, pending.started_at, pending.label.as_str());
            },
            CommandResult::WorkerGone => {
                let mut text = "Command worker for ".to_string();
                text.append(pending.port_name.as_str());
                text.append(" exited unexpectedly");
                self.log(clock.unix_ms, text.as_str());
            },
        }
    }

    /// Forwards a notification of the desktop, if the robot is idle.
    pub fn forward_desktop_notification(&mut self, request: &CommandRequest, clock: Clock) -> (r:
        ControlAction)
        requires
            old(self)@.wf(),
        ensures
            final(self)@.wf(),
            (final(self)@, r@) == old(self)@.asked_to_forward(request_label(request@), clock),
    {
        if self.conn.is_none() || self.pending_command.is_some() || self.pending_connect.is_some() {
            return ControlAction::Nothing;
        }
        self.start_command(request, clock)
    }
}

proof fn lemma_logged_all(c: ControllerView, unix_ms: u64, lines: Seq<Seq<char>>)
    requires
        c.wf(),
    ensures
        c.logged_all(unix_ms, lines).wf(),
        c.logged_all(unix_ms, lines) == (ControllerView {
            logs: c.logged_all(unix_ms, lines).logs,
            ..c
        }),
    decreases lines.len(),
{
    if lines.len() > 0 {
        lemma_logged_all(c, unix_ms, lines.drop_last());
    }
}

/// A cause of an error: its words, and whether it is the operating system's error for a broken
/// pipe, another one of those, or neither.
pub struct Cause {
    pub text: String,
    pub io_broken_pipe: Option<bool>,
}

/// Whether a cause says that the connection broke.
pub open spec fn says_broken(cause: Cause) -> bool {
    match cause.io_broken_pipe {
        Some(broken) => broken,
        None => contains(lower(cause.text@), "broken pipe"@),
    }
}

/// Whether an error, with its causes, says that the connection broke.
pub fn is_broken_pipe_error(causes: &Vec<Cause>) -> (r: bool)
    ensures
        r == exists|i: int| 0 <= i < causes@.len() && says_broken(#[trigger] causes@[i]),
{
    let mut i: usize = 0;
    while i < causes.len()
        invariant
            i <= causes@.len(),
            forall|j: int| 0 <= j < i ==> !says_broken(#[trigger] causes@[j]),
        decreases causes@.len() - i,
    {
        let broken = match causes[i].io_broken_pipe {
            Some(b) => b,
            None => {
                let lowered = lower_chars(causes[i].text.as_str());
                has_text(lowered.as_slice(), "broken pipe")
            },
        };
        if broken {
            assert(says_broken(causes@[i as int]));
            return true;
        }
        i = i + 1;
    }
    false
}

/// Operations exclude each other: none that is asked for, and none that ends, makes two at a
/// time, as long as a connection is asked for only while the robot is not connected.
pub proof fn operations_exclude_each_other(
    c: ControllerView,
    label: Seq<char>,
    connect_result: ConnectResultView,
    disconnect_result: DisconnectResultView,
    command_result: CommandResultView,
    scan_result: ScanResultView,
    clock: Clock,
)
    requires
        c.wf(),
        c.exclusive(),
    ensures
        c.asked_to_run(label, clock).0.exclusive(),
        c.asked_to_scan(clock).0.exclusive(),
        !c.connected() ==> c.asked_to_connect(clock).0.exclusive(),
        c.asked_to_disconnect(clock).0.exclusive(),
        c.asked_to_forward(label, clock).0.exclusive(),
        c.connect_ended(connect_result, clock).0.exclusive(),
        c.scan_ended(scan_result, clock).exclusive(),
        c.disconnect_ended(disconnect_result, clock).exclusive(),
        c.command_ended(command_result, clock).exclusive(),
{
    if let Some(pending) = c.pending_command {
        if let CommandResultView::Done { next_msg_id, messages } = command_result {
            let idle = ControllerView {
                pending_command: None,
                next_msg_id,
                conn: Some(pending.port_name),
                ..c
            };
            lemma_logged_all(idle, clock.unix_ms, messages);
        }
    }
}

/// A command that ends gives the connection back: the robot is then idle under the name it had
/// before. Only where the connection or the worker was lost, it is not connected any more.
pub proof fn connection_comes_back(
    c: ControllerView,
    label: Seq<char>,
    next_msg_id: u32,
    messages: Seq<Seq<char>>,
    error: Seq<char>,
    broken_pipe: bool,
    clock: Clock,
    later: Clock,
)
    requires
        c.wf(),
        c.asked_to_run(label, clock).1 is Run,
    ensures
        ({
            let running = c.asked_to_run(label, clock).0;
            let done = running.command_ended(
                CommandResultView::Done { next_msg_id, messages },
                later,
            );
            let failed = running.command_ended(
                CommandResultView::Failed { next_msg_id, error, broken_pipe },
                later,
            );
            let lost = running.command_ended(CommandResultView::WorkerGone, later);
            &&& done.conn == c.conn
            &&& done.pending_command is None
            &&& done.next_msg_id == next_msg_id
            &&& failed.conn == if broken_pipe {
                None
            } else {
                c.conn
            }
            &&& failed.pending_command is None
            &&& failed.next_msg_id == next_msg_id
            &&& !lost.connected()
            &&& lost.next_msg_id == c.next_msg_id
        }),
{
    let started = c.asked_to_run(label, clock).0;
    if let Some(pending) = started.pending_command {
        let idle = ControllerView {
            pending_command: None,
            next_msg_id,
            conn: Some(pending.port_name),
            ..started
        };
        lemma_logged_all(idle, later.unix_ms, messages);
    }
}

/// Where an operation is refused, nothing changes but the log.
pub proof fn refusals_change_only_the_log(c: ControllerView, label: Seq<char>, clock: Clock)
    ensures
        c.asked_to_run(label, clock).1 is Nothing ==> c.asked_to_run(label, clock).0 == (
        ControllerView { logs: c.asked_to_run(label, clock).0.logs, ..c }),
        c.asked_to_scan(clock).1 is Nothing ==> c.asked_to_scan(clock).0 == (ControllerView {
            logs: c.asked_to_scan(clock).0.logs,
            ..c
        }),
        c.asked_to_connect(clock).1 is Nothing ==> c.asked_to_connect(clock).0 == (ControllerView {
            logs: c.asked_to_connect(clock).0.logs,
            ..c
        }),
        c.asked_to_disconnect(clock).1 is Nothing ==> c.asked_to_disconnect(clock).0 == (
        ControllerView { logs: c.asked_to_disconnect(clock).0.logs, ..c }),
{
}

/// The log keeps the newest two hundred lines: a new one comes last, with its time in front, and
/// pushes the oldest out only where there is no room.
pub proof fn log_keeps_the_newest(c: ControllerView, unix_ms: u64, text: Seq<char>)
    requires
        c.wf(),
    ensures
        ({
            let after = c.logged(unix_ms, text);
            let line = "["@ + decimal(unix_ms as nat) + "] "@ + text;
            &&& c.logs.len() < 200 ==> after.logs == c.logs.push(line)
            &&& c.logs.len() == 200 ==> after.logs == c.logs.skip(1).push(line)
            &&& c.logs.len() <= 200
            &&& after.logs.last() == line
            &&& after == (ControllerView { logs: after.logs, ..c })
        }),
{
    let line = log_line(unix_ms, text);
    let all = c.logs.push(line);
    if c.logs.len() == 200 {
        assert(all.skip(1) =~= c.logs.skip(1).push(line));
    }
}

/// Several lines come into the log one behind the other, in order: what is left are the newest two
/// hundred of the old and the new ones.
pub proof fn lines_are_logged_in_order(c: ControllerView, unix_ms: u64, lines: Seq<Seq<char>>)
    requires
        c.wf(),
    ensures
        ({
            let all = c.logs + lines.map_values(
                |text: Seq<char>| "["@ + decimal(unix_ms as nat) + "] "@ + text,
            );
            let logs = c.logged_all(unix_ms, lines).logs;
            &&& all.len() <= 200 ==> logs == all
            &&& all.len() > 200 ==> logs == all.skip(all.len() - 200)
        }),
    decreases lines.len(),
{
    let with_time = |text: Seq<char>| "["@ + decimal(unix_ms as nat) + "] "@ + text;
    let all = c.logs + lines.map_values(with_time);
    if lines.len() > 0 {
        let front = lines.drop_last();
        lines_are_logged_in_order(c, unix_ms, front);
        let before = c.logs + front.map_values(with_time);
        let line = log_line(unix_ms, lines.last());
        assert(all =~= before.push(line));
        if before.len() > 200 {
            let kept = before.skip(before.len() - 200);
            assert(kept.push(line).skip(1) =~= all.skip(all.len() - 200));
        } else {
            assert(newest(before.push(line)) =~= newest(all));
        }
    } else {
        assert(all =~= c.logs);
    }
}

/// A command is begun exactly where a robot is connected and nothing else is under way: on that
/// robot, from the time it was asked for, under the next number.
pub proof fn commands_run_when_nothing_else_does(c: ControllerView, label: Seq<char>, clock: Clock)
    ensures
        ({
            let (after, action) = c.asked_to_run(label, clock);
            let free = c.pending_connect is None && c.pending_scan is None && c.pending_disconnect is None
                && c.pending_command is None;
            &&& action is Run <==> free && c.conn is Some
            &&& action is Run || action is Nothing
            &&& action is Run ==> {
                &&& action == ActionView::Run(c.next_msg_id)
                &&& after.conn is None
                &&& after.pending_command matches Some(p)
                &&& p.label == label
                &&& Some(p.port_name) == c.conn
                &&& p.started_at == clock.nanos
            }
            &&& after.ports == c.ports && after.selected_port_idx == c.selected_port_idx
            &&& after.next_msg_id == c.next_msg_id
        }),
        ({
            let (after, action) = c.asked_to_forward(label, clock);
            &&& action is Run <==> c.asked_to_run(label, clock).1 is Run
            &&& action is Run ==> (after, action) == c.asked_to_run(label, clock)
            &&& c.conn is None || c.pending_command is Some || c.pending_connect is Some ==> after == c
        }),
{
}

/// A scan is begun exactly where nothing is under way, and what it found is what there is to choose
/// from then; a choice that is not among it any more is the first. One that failed changes nothing
/// of that.
pub proof fn scan_finds_the_robots(
    c: ControllerView,
    clock: Clock,
    found: Seq<Seq<char>>,
    error: Seq<char>,
    later: Clock,
)
    requires
        c.wf(),
    ensures
        ({
            let (scanning, action) = c.asked_to_scan(clock);
            &&& action == ActionView::Scan <==> c.pending_connect is None && c.pending_scan is None
                && c.pending_disconnect is None && c.pending_command is None
            &&& action == ActionView::Scan || action == ActionView::Nothing
            &&& action == ActionView::Scan ==> {
                let after = scanning.scan_ended(ScanResultView::Found(found), later);
                let failed = scanning.scan_ended(ScanResultView::Failed(error), later);
                let gone = scanning.scan_ended(ScanResultView::WorkerGone, later);
                &&& scanning.pending_scan == Some(clock.nanos)
                &&& after.ports == found
                &&& after.selected_port_idx == if c.selected_port_idx < found.len() {
                    c.selected_port_idx
                } else {
                    0
                }
                &&& failed.ports == c.ports && gone.ports == c.ports
                &&& failed.selected_port_idx == c.selected_port_idx
                &&& gone.selected_port_idx == c.selected_port_idx
                &&& after.pending_scan is None && failed.pending_scan is None && gone.pending_scan is None
                &&& after.conn == c.conn && failed.conn == c.conn && gone.conn == c.conn
            }
        }),
{
}

/// The device that is connected is the one that was chosen, and the robot then goes by its name: a
/// connection that is made is tried with a ping, and when that is over the robot is idle. One that
/// failed leaves no robot.
pub proof fn chosen_device_is_connected(
    c: ControllerView,
    clock: Clock,
    brief: Seq<char>,
    full: Seq<char>,
    next_msg_id: u32,
    messages: Seq<Seq<char>>,
    later: Clock,
)
    requires
        c.wf(),
        !c.connected(),
        c.pending_connect is None,
        c.pending_scan is None,
        c.pending_disconnect is None,
        c.selected_port_idx < c.ports.len(),
    ensures
        ({
            let chosen = c.ports[c.selected_port_idx as int];
            let (connecting, action) = c.asked_to_connect(clock);
            let (trying, ping) = connecting.connect_ended(
                ConnectResultView::Connected { close_error: None },
                later,
            );
            let connected = trying.command_ended(
                CommandResultView::Done { next_msg_id, messages },
                later,
            );
            let (failed, nothing) = connecting.connect_ended(
                ConnectResultView::Failed { brief, full },
                later,
            );
            let (gone, none) = connecting.connect_ended(ConnectResultView::WorkerGone, later);
            &&& action == ActionView::Connect(chosen)
            &&& connecting.pending_connect matches Some(p)
            &&& p.port_name == chosen && p.started_at == clock.nanos && !p.cancelled
            &&& ping == ActionView::Run(c.next_msg_id)
            &&& trying.pending_connect is None
            &&& trying.pending_command matches Some(command)
            &&& command.label == "Sending ping..."@
            &&& command.port_name == display_name(chosen)
            &&& connected.conn == Some(display_name(chosen))
            &&& connected.pending_command is None
            &&& nothing == ActionView::Nothing && none == ActionView::Nothing
            &&& !failed.connected() && failed.pending_connect is None
            &&& !gone.connected() && gone.pending_connect is None
            &&& failed.logs.last() == "["@ + decimal(later.unix_ms as nat) + "] "@ + (
            "Failed to connect: "@ + full)
            &&& gone.logs.last() == "["@ + decimal(later.unix_ms as nat) + "] "@ + (
            "Failed to connect: "@ + "BLE connect worker exited unexpectedly"@)
        }),
{
    let connecting = c.asked_to_connect(clock).0;
    let trying = connecting.connect_ended(
        ConnectResultView::Connected { close_error: None },
        later,
    ).0;
    if let Some(pending) = trying.pending_command {
        let idle = ControllerView {
            pending_command: None,
            next_msg_id,
            conn: Some(pending.port_name),
            ..trying
        };
        lemma_logged_all(idle, later.unix_ms, messages);
    }
}

/// A connection is not begun while there is one, while anything else is under way, or without a
/// choice.
pub proof fn connections_are_begun_only_when_free(c: ControllerView, clock: Clock)
    ensures
        c.asked_to_connect(clock).1 is Connect <==> {
            &&& c.conn is None
            &&& c.pending_connect is None
            &&& c.pending_scan is None
            &&& c.pending_disconnect is None
            &&& c.selected_port_idx < c.ports.len()
        },
        c.asked_to_connect(clock).1 is Connect || c.asked_to_connect(clock).1 is Nothing,
{
}

/// Connecting that was called off ends without a robot, however it ends, and nothing is begun then.
pub proof fn cancelled_connection_stays_off(
    c: ControllerView,
    result: ConnectResultView,
    clock: Clock,
    later: Clock,
)
    requires
        c.wf(),
        c.exclusive(),
        c.pending_connect is Some,
    ensures
        ({
            let (told, action) = c.asked_to_disconnect(clock);
            let (after, next) = told.connect_ended(result, later);
            &&& action == ActionView::Cancel
            &&& told.pending_connect matches Some(p)
            &&& p.cancelled
            &&& p.port_name == c.pending_connect->0.port_name
            &&& p.started_at == c.pending_connect->0.started_at
            &&& next == ActionView::Nothing
            &&& !after.connected()
            &&& after.pending_connect is None
            &&& after.ports == c.ports && after.selected_port_idx == c.selected_port_idx
        }),
{
}

/// A robot that is idle is disconnected when that is asked for, and then there is none, however
/// closing the connection ends.
pub proof fn disconnecting_leaves_no_robot(
    c: ControllerView,
    result: DisconnectResultView,
    clock: Clock,
    later: Clock,
)
    requires
        c.wf(),
        c.exclusive(),
        c.conn is Some,
        c.pending_scan is None,
    ensures
        ({
            let (told, action) = c.asked_to_disconnect(clock);
            let after = told.disconnect_ended(result, later);
            &&& action == ActionView::Disconnect
            &&& told.pending_disconnect matches Some(p)
            &&& Some(p.port_name) == c.conn
            &&& p.started_at == clock.nanos
            &&& told.conn is None
            &&& !after.connected()
            &&& after.pending_disconnect is None
        }),
{
}

/// What ends without having been begun changes nothing.
pub proof fn stray_ends_change_nothing(
    c: ControllerView,
    connect_result: ConnectResultView,
    scan_result: ScanResultView,
    disconnect_result: DisconnectResultView,
    command_result: CommandResultView,
    clock: Clock,
)
    ensures
        c.pending_connect is None ==> c.connect_ended(connect_result, clock) == (
            c,
            ActionView::Nothing,
        ),
        c.pending_scan is None ==> c.scan_ended(scan_result, clock) == c,
        c.pending_disconnect is None ==> c.disconnect_ended(disconnect_result, clock) == c,
        c.pending_command is None ==> c.command_ended(command_result, clock) == c,
{
}

/// An operation is called slow when it took more than three quarters of a second, in whole
/// milliseconds; then the log says so, and else it does not.
pub proof fn slow_operations_are_noted(c: ControllerView, clock: Clock, started_at: u64, what: Seq<char>)
    requires
        c.wf(),
    ensures
        ({
            let after = c.noted_if_slow(clock, started_at, what);
            let took = clock.nanos - started_at;
            &&& took < 751_000_000 ==> after == c
            &&& took >= 751_000_000 ==> after.logs.last() == "["@ + decimal(clock.unix_ms as nat)
                + "] "@ + (what + " done in "@ + decimal((took / 1_000_000) as nat) + " ms"@)
        }),
{
}

/// A refused command, scan, connection or disconnection is explained in the log, by what stands in
/// its way.
pub proof fn refusals_say_why(c: ControllerView, label: Seq<char>, clock: Clock)
    requires
        c.wf(),
    ensures
        ({
            let t = "["@ + decimal(clock.unix_ms as nat) + "] "@;
            let run = c.asked_to_run(label, clock).0.logs.last();
            let scan = c.asked_to_scan(clock).0.logs.last();
            let connect = c.asked_to_connect(clock).0.logs.last();
            let disconnect = c.asked_to_disconnect(clock).0.logs.last();
            &&& c.pending_connect matches Some(p) ==> {
                &&& run == t + "Connection in progress"@
                &&& c.pending_scan is None ==> scan == t + "Connection in progress"@
                &&& c.conn is None ==> connect == t + "Connection already in progress"@
                &&& disconnect == t + ("Cancelling connection to "@ + display_name(p.port_name))
            }
            &&& c.pending_scan is Some ==> {
                &&& run == t + "Scan in progress"@
                &&& scan == t + "Scan already in progress"@
                &&& c.conn is None ==> connect == t + "Scan in progress"@
                &&& disconnect == t + "Scan in progress"@
            }
            &&& c.pending_connect is None && c.pending_scan is None && c.pending_disconnect is Some ==> {
                &&& run == t + "Disconnect in progress"@
                &&& scan == t + "Disconnect in progress"@
                &&& c.conn is None ==> connect == t + "Disconnect in progress"@
                &&& disconnect == t + "Disconnect already in progress"@
            }
            &&& c.pending_connect is None && c.pending_scan is None && c.pending_disconnect is None
                && c.pending_command is Some ==> {
                &&& run == t + "Another command is already in progress"@
                &&& scan == t + "Command in progress"@
                &&& c.conn is None ==> disconnect == t
                    + "Command in progress; wait for it to finish or time out"@
            }
            &&& c.pending_connect is None && c.pending_scan is None && c.pending_disconnect is None
                && c.pending_command is None ==> {
                &&& c.conn is None ==> run == t + "Not connected"@
                &&& c.conn is Some ==> run == t + label
                &&& scan == t + "Scanning for BLE devices..."@
                &&& c.conn is None && c.selected_port_idx >= c.ports.len() ==> connect == t
                    + "No BLE device selected"@
                &&& c.conn is None && c.selected_port_idx < c.ports.len() ==> connect == t + (
                "Connecting to "@ + display_name(c.ports[c.selected_port_idx as int]))
                &&& c.conn is None ==> disconnect == t + "Already disconnected"@
                &&& c.conn matches Some(name) ==> disconnect == t + ("Disconnecting from "@ + name)
            }
            &&& c.conn is Some ==> connect == t + "Already connected"@
        }),
{
}

/// An error means that the connection broke where the operating system says so, or where it speaks
/// of a broken pipe in letters of any size and no system error stands behind it.
pub proof fn broken_pipes_are_recognised(cause: Cause)
    ensures
        cause.io_broken_pipe matches Some(broken) ==> says_broken(cause) == broken,
        cause.io_broken_pipe is None ==> (says_broken(cause) <==> contains(
            lower(cause.text@),
            "broken pipe"@,
        )),
{
}

/// How an operation ended is said in the log, right behind what it said before: what a scan found,
/// that a connection was closed, that a worker is gone, and every error word for word.
pub proof fn endings_are_told(
    c: ControllerView,
    found: Seq<Seq<char>>,
    error: Seq<char>,
    next_msg_id: u32,
    clock: Clock,
)
    requires
        c.wf(),
        c.logs.len() < 100,
    ensures
        ({
            let t = "["@ + decimal(clock.unix_ms as nat) + "] "@;
            let n = c.logs.len() as int;
            &&& c.pending_scan is Some ==> {
                &&& c.scan_ended(ScanResultView::Found(found), clock).logs[n] == t + ("Found "@
                    + decimal(found.len()) + " BLE device(s)"@)
                &&& c.scan_ended(ScanResultView::Failed(error), clock).logs[n] == t + (
                "Scan failed: "@ + error)
                &&& c.scan_ended(ScanResultView::WorkerGone, clock).logs[n] == t
                    + "Scan worker exited unexpectedly"@
            }
            &&& c.pending_disconnect matches Some(p) ==> {
                &&& c.disconnect_ended(DisconnectResultView::Closed, clock).logs[n] == t + (
                "Disconnected from "@ + p.port_name)
                &&& c.disconnect_ended(DisconnectResultView::Failed(error), clock).logs[n] == t + (
                "Disconnect failed: "@ + error)
                &&& c.disconnect_ended(DisconnectResultView::WorkerGone, clock).logs[n] == t + (
                "Disconnect worker for "@ + p.port_name + " exited unexpectedly"@)
            }
            &&& c.pending_command matches Some(p) ==> {
                let failed = c.command_ended(
                    CommandResultView::Failed { next_msg_id, error, broken_pipe: false },
                    clock,
                );
                let lost = c.command_ended(
                    CommandResultView::Failed { next_msg_id, error, broken_pipe: true },
                    clock,
                );
                &&& failed.logs[n] == t + ("Error: "@ + error)
                &&& lost.logs[n] == t + ("Error: "@ + error)
                &&& lost.logs[n + 1] == t + ("Connection lost on "@ + p.port_name)
                &&& c.command_ended(CommandResultView::WorkerGone, clock).logs[n] == t + (
                "Command worker for "@ + p.port_name + " exited unexpectedly"@)
            }
        }),
{
}

/// What became of a connection is said in the log: that it was made and with whom, that it was
/// called off, perhaps with the error of closing it again, and what else stopped the worker unless
/// that was the calling off.
pub proof fn connections_are_told(
    c: ControllerView,
    brief: Seq<char>,
    full: Seq<char>,
    error: Seq<char>,
    clock: Clock,
)
    requires
        c.wf(),
        c.logs.len() < 100,
        c.pending_connect is Some,
    ensures
        ({
            let t = "["@ + decimal(clock.unix_ms as nat) + "] "@;
            let n = c.logs.len() as int;
            let pending = c.pending_connect->0;
            let name = display_name(pending.port_name);
            let made = c.connect_ended(ConnectResultView::Connected { close_error: None }, clock).0;
            let closed = c.connect_ended(
                ConnectResultView::Connected { close_error: Some(error) },
                clock,
            ).0;
            let failed = c.connect_ended(ConnectResultView::Failed { brief, full }, clock).0;
            &&& !pending.cancelled ==> {
                &&& made.logs[n] == t + ("Connected to "@ + name)
                &&& failed.logs[n] == t + ("Failed to connect: "@ + full)
            }
            &&& pending.cancelled ==> {
                &&& made.logs[n] == t + ("Cancelled connection to "@ + name)
                &&& closed.logs[n] == t + ("Error: "@ + error)
                &&& closed.logs[n + 1] == t + ("Cancelled connection to "@ + name)
                &&& failed.logs[n] == t + ("Cancelled connection to "@ + name)
                &&& contains(lower(brief), "cancelled"@) ==> failed.logs.len() == n + 1
                &&& !contains(lower(brief), "cancelled"@) ==> failed.logs.len() == n + 2
                    && failed.logs[n + 1] == t + ("Connect worker stopped: "@ + brief)
            }
        }),
{
}

} // verus!
