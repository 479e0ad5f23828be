//! The robot's side of Bluetooth: which attributes it serves, who is connected, subscribed and
//! paired, and when it makes itself known. Every event of the radio is answered by the one thing
//! that the radio is to do next.

use vstd::prelude::*;
use crate::uuids::{BLE_RX_CHAR_UUID_U128, BLE_TX_CHAR_UUID_U128};

verus! {

pub const BLE_APP_ID: u16 = 0;

pub const BLE_MAX_CONNECTIONS: usize = 3;

/// The number of the descriptor by which a peer subscribes.
pub const CCCD_UUID: u16 = 0x2902;

/// A connected peer.
#[derive(Clone, Copy, Debug, PartialEq, Eq)]
pub struct BlePeerConnection {
    /// The peer's address, its six bytes as a number.
    pub peer: u64,
    pub conn_id: u16,
    pub subscribed: bool,
    pub paired: bool,
}

/// What the robot knows of its radio.
pub struct BleState {
    pub gatt_if: Option<u8>,
    pub service_handle: Option<u16>,
    pub rx_handle: Option<u16>,
    pub tx_handle: Option<u16>,
    pub tx_cccd_handle: Option<u16>,
    pub connections: Vec<BlePeerConnection>,
    pub paired_peers: Vec<u64>,
    pub pairing_mode: bool,
    pub pairing_code: Option<u32>,
    pub advertising_enabled: bool,
    pub advertising_starting: bool,
    pub adv_data_configured: bool,
    pub scan_rsp_configured: bool,
}

/// What the robot knows of its radio, as seen by the contracts.
#[verifier::ext_equal]
pub struct BleView {
    pub gatt_if: Option<u8>,
    pub service_handle: Option<u16>,
    pub rx_handle: Option<u16>,
    pub tx_handle: Option<u16>,
    pub tx_cccd_handle: Option<u16>,
    pub connections: Seq<BlePeerConnection>,
    pub paired_peers: Seq<u64>,
    pub pairing_mode: bool,
    pub pairing_code: Option<u32>,
    pub advertising_enabled: bool,
    pub advertising_starting: bool,
    pub adv_data_configured: bool,
    pub scan_rsp_configured: bool,
}

impl View for BleState {
    type V = BleView;

    open spec fn view(&self) -> BleView {
        BleView {
            gatt_if: self.gatt_if,
            service_handle: self.service_handle,
            rx_handle: self.rx_handle,
            tx_handle: self.tx_handle,
            tx_cccd_handle: self.tx_cccd_handle,
            connections: self.connections@,
            paired_peers: self.paired_peers@,
            pairing_mode: self.pairing_mode,
            pairing_code: self.pairing_code,
            advertising_enabled: self.advertising_enabled,
            advertising_starting: self.advertising_starting,
            adv_data_configured: self.adv_data_configured,
            scan_rsp_configured: self.scan_rsp_configured,
        }
    }
}

/// How an operation of the radio ended.
#[derive(Clone, Copy, Debug, PartialEq, Eq, Structural)]
pub enum BtStatus {
    Success,
    Pending,
    Failed,
}

/// What the radio reports about making itself known and about peers.
#[derive(Clone, Copy, Debug, PartialEq, Eq, Structural)]
pub enum GapEvent {
    AdvertisingConfigured(BtStatus),
    ScanResponseConfigured(BtStatus),
    RawAdvertisingConfigured(BtStatus),
    AdvertisingStarted(BtStatus),
    AdvertisingStopped(BtStatus),
    AuthenticationComplete { addr: u64, status: BtStatus },
    Other,
}

/// What is to be done after an event.
#[derive(Clone, Copy, Debug, PartialEq, Eq, Structural)]
pub enum GapOutcome {
    Nothing,
    StartAdvertising,
    /// The event reported a failure.
    BadStatus,
}

/// What the radio reports about attributes and connections.
pub enum GattsEvent {
    ServiceRegistered { ok: bool, gatt_if: u8, app_id: u16 },
    ServiceCreated { ok: bool, service_handle: u16 },
    CharacteristicAdded { ok: bool, attr_handle: u16, service_handle: u16, uuid: Option<u128> },
    DescriptorAdded { ok: bool, attr_handle: u16, service_handle: u16, short_uuid: Option<u16> },
    PeerConnected { conn_id: u16, addr: u64 },
    PeerDisconnected { addr: u64 },
    Write {
        conn_id: u16,
        handle: u16,
        offset: u16,
        need_rsp: bool,
        is_prep: bool,
        value: Vec<u8>,
    },
    Other,
}

/// The answer that a write wants.
#[derive(Clone, Copy, Debug, PartialEq, Eq, Structural)]
pub enum WriteResponse {
    NoResponse,
    /// Only that the write was taken.
    Plain,
    /// That the write was taken, with what was written.
    Echo,
}

/// What is to be done after an event.
#[derive(Clone, Debug, PartialEq, Eq)]
pub enum GattsOutcome {
    Nothing,
    /// The event reported a failure.
    BadStatus,
    /// Configure what is made known, then create the service.
    CreateService { gatt_if: u8 },
    /// Start the service, then add its two characteristics.
    StartService { service_handle: u16 },
    AddCccd { service_handle: u16 },
    RequestEncryption { addr: u64 },
    StartAdvertising,
    /// Hand `deliver` to the decoder, and answer.
    Written { deliver: Option<Vec<u8>>, response: WriteResponse },
}

/// What is to be done after an event, as seen by the contracts.
#[verifier::ext_equal]
pub enum GattsView {
    Nothing,
    BadStatus,
    CreateService { gatt_if: u8 },
    StartService { service_handle: u16 },
    AddCccd { service_handle: u16 },
    RequestEncryption { addr: u64 },
    StartAdvertising,
    Written { deliver: Option<Seq<u8>>, response: WriteResponse },
}

impl View for GattsOutcome {
    type V = GattsView;

    open spec fn view(&self) -> GattsView {
        match *self {
            GattsOutcome::Nothing => GattsView::Nothing,
            GattsOutcome::BadStatus => GattsView::BadStatus,
            GattsOutcome::CreateService { gatt_if } => GattsView::CreateService { gatt_if },
            GattsOutcome::StartService { service_handle } => GattsView::StartService {
                service_handle,
            },
            GattsOutcome::AddCccd { service_handle } => GattsView::AddCccd { service_handle },
            GattsOutcome::RequestEncryption { addr } => GattsView::RequestEncryption { addr },
            GattsOutcome::StartAdvertising => GattsView::StartAdvertising,
            GattsOutcome::Written { deliver, response } => GattsView::Written {
                deliver: match deliver {
                    Some(d) => Some(d@),
                    None => None,
                },
                response,
            },
        }
    }
}

/// Where the first connection of a peer stands, at `i` or behind.
pub open spec fn peer_at(conns: Seq<BlePeerConnection>, addr: u64, i: int) -> Option<int>
    decreases conns.len() - i,
{
    if i >= conns.len() {
        None
    } else if conns[i].peer == addr {
        Some(i)
    } else {
        peer_at(conns, addr, i + 1)
    }
}

/// Where the first connection with a number stands, at `i` or behind.
pub open spec fn conn_at(conns: Seq<BlePeerConnection>, conn_id: u16, i: int) -> Option<int>
    decreases conns.len() - i,
{
    if i >= conns.len() {
        None
    } else if conns[i].conn_id == conn_id {
        Some(i)
    } else {
        conn_at(conns, conn_id, i + 1)
    }
}

/// The numbers of the subscribed connections, in order.
pub open spec fn subscribed_ids(conns: Seq<BlePeerConnection>) -> Seq<u16>
    decreases conns.len(),
{
    if conns.len() == 0 {
        Seq::empty()
    } else if conns.last().subscribed {
        subscribed_ids(conns.drop_last()).push(conns.last().conn_id)
    } else {
        subscribed_ids(conns.drop_last())
    }
}

/// `conns` without the one at `i`; the last one takes its place.
pub open spec fn without(conns: Seq<BlePeerConnection>, i: int) -> Seq<BlePeerConnection> {
    conns.update(i, conns.last()).drop_last()
}

impl BleView {
    /// No more connections than there may be, a pairing code exactly while pairing is on, and no
    /// paired peer twice.
    pub open spec fn wf(self) -> bool {
        &&& self.connections.len() <= BLE_MAX_CONNECTIONS
        &&& self.pairing_mode <==> self.pairing_code is Some
        &&& self.paired_peers.no_duplicates()
    }

    /// Whether the robot can begin to make itself known.
    pub open spec fn can_advertise(self) -> bool {
        &&& self.connections.len() < BLE_MAX_CONNECTIONS
        &&& !self.advertising_enabled
        &&& !self.advertising_starting
        &&& self.adv_data_configured
        &&& self.scan_rsp_configured
    }

    /// The state once advertising was begun where it can be.
    pub open spec fn advertising(self) -> BleView {
        if self.can_advertise() {
            BleView { advertising_starting: true, ..self }
        } else {
            self
        }
    }

    /// The state once a peer proved who it is, or failed to.
    pub open spec fn authenticated(self, addr: u64, ok: bool) -> BleView {
        let connections = match peer_at(self.connections, addr, 0) {
            Some(i) => self.connections.update(
                i,
                BlePeerConnection { paired: ok, ..self.connections[i] },
            ),
            None => self.connections,
        };
        if ok {
            BleView {
                connections,
                paired_peers: if self.paired_peers.contains(addr) {
                    self.paired_peers
                } else {
                    self.paired_peers.push(addr)
                },
                pairing_mode: false,
                pairing_code: if self.pairing_mode {
                    None
                } else {
                    self.pairing_code
                },
                ..self
            }
        } else {
            BleView { connections, ..self }
        }
    }

    /// The state after an event about making itself known or about a peer, and what to do.
    pub open spec fn after_gap(self, event: GapEvent) -> (BleView, GapOutcome) {
        match event {
            GapEvent::AdvertisingConfigured(BtStatus::Success) => BleView {
                adv_data_configured: true,
                ..self
            }.then_advertise(),
            GapEvent::AdvertisingConfigured(_) => (self, GapOutcome::BadStatus),
            GapEvent::ScanResponseConfigured(BtStatus::Success) => BleView {
                scan_rsp_configured: true,
                ..self
            }.then_advertise(),
            GapEvent::ScanResponseConfigured(_) => (self, GapOutcome::BadStatus),
            GapEvent::RawAdvertisingConfigured(BtStatus::Success) => (self, GapOutcome::Nothing),
            GapEvent::RawAdvertisingConfigured(_) => (self, GapOutcome::BadStatus),
            GapEvent::AdvertisingStarted(BtStatus::Success) => (
                BleView { advertising_enabled: true, advertising_starting: false, ..self },
                GapOutcome::Nothing,
            ),
            GapEvent::AdvertisingStarted(BtStatus::Pending) => (
                BleView { advertising_enabled: false, advertising_starting: false, ..self },
                GapOutcome::Nothing,
            ),
            GapEvent::AdvertisingStarted(BtStatus::Failed) => (
                BleView { advertising_starting: false, ..self },
                GapOutcome::BadStatus,
            ),
            GapEvent::AdvertisingStopped(BtStatus::Failed) => (self, GapOutcome::BadStatus),
            GapEvent::AdvertisingStopped(_) => BleView {
                advertising_enabled: false,
                advertising_starting: false,
                ..self
            }.then_advertise(),
            GapEvent::AuthenticationComplete { addr, status } => (
                self.authenticated(addr, status == BtStatus::Success),
                GapOutcome::Nothing,
            ),
            GapEvent::Other => (self, GapOutcome::Nothing),
        }
    }

    /// Begins to advertise where it can be begun.
    pub open spec fn then_advertise(self) -> (BleView, GapOutcome) {
        (
            self.advertising(),
            if self.can_advertise() {
                GapOutcome::StartAdvertising
            } else {
                GapOutcome::Nothing
            },
        )
    }

    /// The state once an attribute of the service is known, and whether it wants a descriptor.
    pub open spec fn with_characteristic(
        self,
        service_handle: u16,
        attr_handle: u16,
        uuid: Option<u128>,
    ) -> (BleView, bool) {
        if self.service_handle != Some(service_handle) {
            (self, false)
        } else if uuid == Some(BLE_RX_CHAR_UUID_U128) {
            (BleView { rx_handle: Some(attr_handle), ..self }, false)
        } else if uuid == Some(BLE_TX_CHAR_UUID_U128) {
            (BleView { tx_handle: Some(attr_handle), ..self }, true)
        } else {
            (self, false)
        }
    }

    /// The state once a descriptor of the service is known.
    pub open spec fn with_descriptor(
        self,
        service_handle: u16,
        attr_handle: u16,
        uuid: Option<u16>,
    ) -> BleView {
        if self.service_handle == Some(service_handle) && uuid == Some(CCCD_UUID) {
            BleView { tx_cccd_handle: Some(attr_handle), ..self }
        } else {
            self
        }
    }

    /// The state with one more connection, if there is room for it.
    pub open spec fn connected(self, conn_id: u16, addr: u64) -> BleView {
        if self.connections.len() < BLE_MAX_CONNECTIONS {
            BleView {
                connections: self.connections.push(
                    BlePeerConnection {
                        peer: addr,
                        conn_id,
                        subscribed: false,
                        paired: self.paired_peers.contains(addr),
                    },
                ),
                ..self
            }
        } else {
            self
        }
    }

    /// The state without the first connection of a peer.
    pub open spec fn disconnected(self, addr: u64) -> BleView {
        match peer_at(self.connections, addr, 0) {
            Some(i) => BleView { connections: without(self.connections, i), ..self },
            None => self,
        }
    }

    /// The state once a connection subscribed, or ceased to.
    pub open spec fn with_subscription(self, conn_id: u16, subscribe: bool) -> BleView {
        match conn_at(self.connections, conn_id, 0) {
            Some(i) => BleView {
                connections: self.connections.update(
                    i,
                    BlePeerConnection { subscribed: subscribe, ..self.connections[i] },
                ),
                ..self
            },
            None => self,
        }
    }

    /// The state after a write, whether the write was for the robot, and the bytes for the
    /// decoder. The subscription goes before the inbox where both have one handle.
    pub open spec fn written(self, conn_id: u16, handle: u16, offset: u16, value: Seq<u8>) -> (
        BleView,
        bool,
        Option<Seq<u8>>,
    ) {
        if self.tx_cccd_handle == Some(handle) {
            if offset == 0 && value.len() == 2 {
                (
                    self.with_subscription(conn_id, value[0] == 1 && value[1] == 0),
                    true,
                    None,
                )
            } else {
                (self, true, None)
            }
        } else if self.rx_handle == Some(handle) {
            (self, true, Some(value))
        } else {
            (self, false, None)
        }
    }

    /// The state after an event about attributes or connections, and what to do.
    pub open spec fn after_gatts(self, event: GattsEvent) -> (BleView, GattsView) {
        match event {
            GattsEvent::ServiceRegistered { ok, gatt_if, app_id } => if !ok {
                (self, GattsView::BadStatus)
            } else if app_id == BLE_APP_ID {
                (
                    BleView {
                        gatt_if: Some(gatt_if),
                        adv_data_configured: false,
                        scan_rsp_configured: false,
                        advertising_starting: false,
                        ..self
                    },
                    GattsView::CreateService { gatt_if },
                )
            } else {
                (self, GattsView::Nothing)
            },
            GattsEvent::ServiceCreated { ok, service_handle } => if ok {
                (
                    BleView { service_handle: Some(service_handle), ..self },
                    GattsView::StartService { service_handle },
                )
            } else {
                (self, GattsView::BadStatus)
            },
            GattsEvent::CharacteristicAdded { ok, attr_handle, service_handle, uuid } => if ok {
                let (next, wants) = self.with_characteristic(service_handle, attr_handle, uuid);
                (
                    next,
                    if wants {
                        GattsView::AddCccd { service_handle }
                    } else {
                        GattsView::Nothing
                    },
                )
            } else {
                (self, GattsView::BadStatus)
            },
            GattsEvent::DescriptorAdded { ok, attr_handle, service_handle, short_uuid } => if ok {
                (self.with_descriptor(service_handle, attr_handle, short_uuid), GattsView::Nothing)
            } else {
                (self, GattsView::BadStatus)
            },
            GattsEvent::PeerConnected { conn_id, addr } => (
                BleView { advertising_enabled: false, ..self.connected(conn_id, addr) },
                GattsView::RequestEncryption { addr },
            ),
            GattsEvent::PeerDisconnected { addr } => {
                let left = BleView { advertising_enabled: false, ..self.disconnected(addr) };
                (
                    left.advertising(),
                    if left.can_advertise() {
                        GattsView::StartAdvertising
                    } else {
                        GattsView::Nothing
                    },
                )
            },
            GattsEvent::Write { conn_id, handle, offset, need_rsp, is_prep, value } => {
                let (next, handled, deliver) = self.written(conn_id, handle, offset, value@);
                (
                    next,
                    if handled {
                        GattsView::Written {
                            deliver,
                            response: response_for(need_rsp, is_prep),
                        }
                    } else {
                        GattsView::Nothing
                    },
                )
            },
            GattsEvent::Other => (self, GattsView::Nothing),
        }
    }
}

/// The answer that a write which was taken wants.
pub open spec fn response_for(need_rsp: bool, is_prep: bool) -> WriteResponse {
    if !need_rsp {
        WriteResponse::NoResponse
    } else if is_prep {
        WriteResponse::Echo
    } else {
        WriteResponse::Plain
    }
}

impl BleState {
    /// A radio that has just been switched on.
    pub fn new() -> (r: Self)
        ensures
            r@.wf(),
            r@ == (BleView {
                gatt_if: None,
                service_handle: None,
                rx_handle: None,
                tx_handle: None,
                tx_cccd_handle: None,
                connections: Seq::empty(),
                paired_peers: Seq::empty(),
                pairing_mode: false,
                pairing_code: None,
                advertising_enabled: false,
                advertising_starting: false,
                adv_data_configured: false,
                scan_rsp_configured: false,
            }),
    {
        BleState {
            gatt_if: None,
            service_handle: None,
            rx_handle: None,
            tx_handle: None,
            tx_cccd_handle: None,
            connections: Vec::new(),
            paired_peers: Vec::new(),
            pairing_mode: false,
            pairing_code: None,
            advertising_enabled: false,
            advertising_starting: false,
            adv_data_configured: false,
            scan_rsp_configured: false,
        }
    }

    fn find_peer(&self, addr: u64) -> (r: Option<usize>)
        ensures
            match r {
                Some(i) => peer_at(self.connections@, addr, 0) == Some(i as int) && i
                    < self.connections@.len(),
                None => peer_at(self.connections@, addr, 0) is None,
            },
    {
        let mut i: usize = 0;
        while i < self.connections.len()
            invariant
                i <= self.connections@.len(),
                peer_at(self.connections@, addr, 0) == peer_at(self.connections@, addr, i as int),
            decreases self.connections@.len() - i,
        {
            if self.connections[i].peer == addr {
                return Some(i);
            }
            i = i + 1;
        }
        None
    }

    fn find_conn(&self, conn_id: u16) -> (r: Option<usize>)
        ensures
            match r {
                Some(i) => conn_at(self.connections@, conn_id, 0) == Some(i as int) && i
                    < self.connections@.len(),
                None => conn_at(self.connections@, conn_id, 0) is None,
            },
    {
        let mut i: usize = 0;
        while i < self.connections.len()
            invariant
                i <= self.connections@.len(),
                conn_at(self.connections@, conn_id, 0) == conn_at(
                    self.connections@,
                    conn_id,
                    i as int,
                ),
            decreases self.connections@.len() - i,
        {
            if self.connections[i].conn_id == conn_id {
                return Some(i);
            }
            i = i + 1;
        }
        None
    }

    fn knows_peer(&self, addr: u64) -> (r: bool)
        ensures
            r == self.paired_peers@.contains(addr),
    {
        let mut i: usize = 0;
        while i < self.paired_peers.len()
            invariant
                i <= self.paired_peers@.len(),
                forall|j: int| 0 <= j < i ==> self.paired_peers@[j] != addr,
            decreases self.paired_peers@.len() - i,
        {
            if self.paired_peers[i] == addr {
                assert(self.paired_peers@[i as int] == addr);
                return true;
            }
            i = i + 1;
        }
        false
    }

    /// To whom bytes for everyone go: over which interface, from which attribute, and to which
    /// connections; nowhere while the attribute is not known.
    pub fn notify_targets(&self) -> (r: Option<(u8, u16, Vec<u16>)>)
        ensures
            match r {
                Some((gatt_if, tx_handle, targets)) => {
                    &&& self@.gatt_if == Some(gatt_if)
                    &&& self@.tx_handle == Some(tx_handle)
                    &&& targets@ == subscribed_ids(self@.connections)
                },
                None => self@.gatt_if is None || self@.tx_handle is None,
            },
    {
        let gatt_if: u8 = match self.gatt_if {
            Some(g) => g,
            None => {
                return None;
            },
        };
        let tx_handle: u16 = match self.tx_handle {
            Some(h) => h,
            None => {
                return None;
            },
        };
        let mut targets: Vec<u16> = Vec::new();
        let mut i: usize = 0;
        while i < self.connections.len()
            invariant
                i <= self.connections@.len(),
                targets@ == subscribed_ids(self.connections@.take(i as int)),
            decreases self.connections@.len() - i,
        {
            let conn = self.connections[i];
            if conn.subscribed {
                targets.push(conn.conn_id);
            }
            i = i + 1;
            assert(self.connections@.take(i as int).drop_last() =~= self.connections@.take(i - 1));
        }
        assert(self.connections@.take(i as int) =~= self.connections@);
        Some((gatt_if, tx_handle, targets))
    }

    /// Waits for a peer to pair with a code.
    pub fn enter_pairing_mode(&mut self, code: u32)
        requires
            old(self)@.wf(),
        ensures
            final(self)@.wf(),
            final(self)@ == (BleView {
                pairing_mode: true,
                pairing_code: Some(code),
                advertising_starting: false,
                ..old(self)@
            }),
    {
        self.pairing_mode = true;
        self.pairing_code = Some(code);
        self.advertising_starting = false;
    }

    /// Whether to begin to advertise now; if so, it counts as begun.
    pub fn maybe_start_advertising(&mut self) -> (r: bool)
        ensures
            r == old(self)@.can_advertise(),
            final(self)@ == old(self)@.advertising(),
    {
        let can_start = self.connections.len() < BLE_MAX_CONNECTIONS && !self.advertising_enabled
            && !self.advertising_starting && self.adv_data_configured && self.scan_rsp_configured;
        if can_start {
            self.advertising_starting = true;
        }
        can_start
    }

    /// Takes note that advertising could not be begun.
    pub fn advertising_failed(&mut self)
        ensures
            final(self)@ == (BleView { advertising_starting: false, ..old(self)@ }),
    {
        self.advertising_starting = false;
    }

    /// Whether a peer may pair.
    pub fn is_pairing_mode(&self) -> (r: bool)
        ensures
            r == self@.pairing_mode,
    {
        self.pairing_mode
    }

    /// The code with which a peer may pair.
    pub fn current_pairing_code(&self) -> (r: Option<u32>)
        ensures
            r == self@.pairing_code,
    {
        self.pairing_code
    }

    /// Takes note of a peer that proved who it is, or failed to. A success ends the pairing.
    pub fn mark_peer_authenticated(&mut self, addr: u64, authenticated: bool)
        requires
            old(self)@.wf(),
        ensures
            final(self)@.wf(),
            final(self)@ == old(self)@.authenticated(addr, authenticated),
    {
        if let Some(i) = self.find_peer(addr) {
            let mut conn = self.connections[i];
            conn.paired = authenticated;
            self.connections.set(i, conn);
        }
        if authenticated {
            if !self.knows_peer(addr) {
                self.paired_peers.push(addr);
            }
            if self.pairing_mode {
                self.pairing_mode = false;
                self.pairing_code = None;
            }
        }
    }

    /// Takes an event about making itself known or about a peer.
    pub fn on_gap_event(&mut self, event: GapEvent) -> (r: GapOutcome)
        requires
            old(self)@.wf(),
        ensures
            final(self)@.wf(),
            (final(self)@, r) == old(self)@.after_gap(event),
    {
        match event {
            GapEvent::AdvertisingConfigured(status) => match status {
                BtStatus::Success => {
                    self.adv_data_configured = true;
                    if self.maybe_start_advertising() {
                        GapOutcome::StartAdvertising
                    } else {
                        GapOutcome::Nothing
                    }
                },
                _ => GapOutcome::BadStatus,
            },
            GapEvent::ScanResponseConfigured(status) => match status {
                BtStatus::Success => {
                    self.scan_rsp_configured = true;
                    if self.maybe_start_advertising() {
                        GapOutcome::StartAdvertising
                    } else {
                        GapOutcome::Nothing
                    }
                },
                _ => GapOutcome::BadStatus,
            },
            GapEvent::RawAdvertisingConfigured(status) => match status {
                BtStatus::Success => GapOutcome::Nothing,
                _ => GapOutcome::BadStatus,
            },
            GapEvent::AdvertisingStarted(status) => match status {
                BtStatus::Success => {
                    self.advertising_enabled = true;
                    self.advertising_starting = false;
                    GapOutcome::Nothing
                },
                BtStatus::Pending => {
                    self.advertising_enabled = false;
                    self.advertising_starting = false;
                    GapOutcome::Nothing
                },
                BtStatus::Failed => {
                    self.advertising_starting = false;
                    GapOutcome::BadStatus
                },
            },
            GapEvent::AdvertisingStopped(status) => match status {
                BtStatus::Failed => GapOutcome::BadStatus,
                _ => {
                    self.advertising_enabled = false;
                    self.advertising_starting = false;
                    if self.maybe_start_advertising() {
                        GapOutcome::StartAdvertising
                    } else {
                        GapOutcome::Nothing
                    }
                },
            },
            GapEvent::AuthenticationComplete { addr, status } => {
                self.mark_peer_authenticated(addr, status == BtStatus::Success);
                GapOutcome::Nothing
            },
            GapEvent::Other => GapOutcome::Nothing,
        }
    }

    /// Takes note of an attribute of the service; says whether it wants a descriptor.
    pub fn register_characteristic(
        &mut self,
        service_handle: u16,
        attr_handle: u16,
        uuid: Option<u128>,
    ) -> (r: bool)
        ensures
            (final(self)@, r) == old(self)@.with_characteristic(
                service_handle,
                attr_handle,
                uuid,
            ),
    {
        let ours = match self.service_handle {
            Some(h) => h == service_handle,
            None => false,
        };
        if !ours {
            return false;
        }
        match uuid {
            Some(u) => {
                if u == BLE_RX_CHAR_UUID_U128 {
                    self.rx_handle = Some(attr_handle);
                    false
                } else if u == BLE_TX_CHAR_UUID_U128 {
                    self.tx_handle = Some(attr_handle);
                    true
                } else {
                    false
                }
            },
            None => false,
        }
    }

    /// Takes note of a descriptor of the service.
    pub fn register_cccd_descriptor(
        &mut self,
        service_handle: u16,
        attr_handle: u16,
        uuid: Option<u16>,
    )
        ensures
            final(self)@ == old(self)@.with_descriptor(service_handle, attr_handle, uuid),
    {
        let ours = match self.service_handle {
            Some(h) => h == service_handle,
            None => false,
        };
        let cccd = match uuid {
            Some(u) => u == CCCD_UUID,
            None => false,
        };
        if ours && cccd {
            self.tx_cccd_handle = Some(attr_handle);
        }
    }

    /// Takes note of a new connection, if there is room for it.
    pub fn create_conn(&mut self, conn_id: u16, addr: u64)
        requires
            old(self)@.wf(),
        ensures
            final(self)@.wf(),
            final(self)@ == old(self)@.connected(conn_id, addr),
    {
        let already_paired = self.knows_peer(addr);
        if self.connections.len() < BLE_MAX_CONNECTIONS {
            self.connections.push(
                BlePeerConnection { peer: addr, conn_id, subscribed: false, paired: already_paired },
            );
        }
    }

    /// Forgets the connection of a peer.
    pub fn delete_conn(&mut self, addr: u64)
        requires
            old(self)@.wf(),
        ensures
            final(self)@.wf(),
            final(self)@ == old(self)@.disconnected(addr),
    {
        if let Some(i) = self.find_peer(addr) {
            let _ = self.connections.swap_remove(i);
            assert(self.connections@ =~= without(old(self)@.connections, i as int));
        }
    }

    /// Takes a write: a subscription, bytes for the decoder, or nothing of ours. Says whether it
    /// was for the robot, and gives the bytes for the decoder.
    pub fn recv(&mut self, conn_id: u16, handle: u16, offset: u16, value: Vec<u8>) -> (r: (
        bool,
        Option<Vec<u8>>,
    ))
        requires
            old(self)@.wf(),
        ensures
            final(self)@.wf(),
            ({
                let (next, handled, deliver) = old(self)@.written(conn_id, handle, offset, value@);
                &&& final(self)@ == next
                &&& r.0 == handled
                &&& match r.1 {
                    Some(bytes) => deliver == Some(bytes@),
                    None => deliver is None,
                }
            }),
    {
        let for_cccd = match self.tx_cccd_handle {
            Some(h) => h == handle,
            None => false,
        };
        if for_cccd {
            if offset == 0 && value.len() == 2 {
                let subscribe = value[0] == 1 && value[1] == 0;
                if let Some(i) = self.find_conn(conn_id) {
                    let mut conn = self.connections[i];
                    conn.subscribed = subscribe;
                    self.connections.set(i, conn);
                }
            }
            return (true, None);
        }
        let for_rx = match self.rx_handle {
            Some(h) => h == handle,
            None => false,
        };
        if for_rx {
            return (true, Some(value));
        }
        (false, None)
    }

    /// Takes an event about attributes or connections.
    pub fn on_gatts_event(&mut self, event: GattsEvent) -> (r: GattsOutcome)
        requires
            old(self)@.wf(),
        ensures
            final(self)@.wf(),
            (final(self)@, r@) == old(self)@.after_gatts(event),
    {
        match event {
            GattsEvent::ServiceRegistered { ok, gatt_if, app_id } => {
                if !ok {
                    return GattsOutcome::BadStatus;
                }
                if app_id == BLE_APP_ID {
                    self.gatt_if = Some(gatt_if);
                    self.adv_data_configured = false;
                    self.scan_rsp_configured = false;
                    self.advertising_starting = false;
                    GattsOutcome::CreateService { gatt_if }
                } else {
                    GattsOutcome::Nothing
                }
            },
            GattsEvent::ServiceCreated { ok, service_handle } => {
                if !ok {
                    return GattsOutcome::BadStatus;
                }
                self.service_handle = Some(service_handle);
                GattsOutcome::StartService { service_handle }
            },
            GattsEvent::CharacteristicAdded { ok, attr_handle, service_handle, uuid } => {
                if !ok {
                    return GattsOutcome::BadStatus;
                }
                if self.register_characteristic(service_handle, attr_handle, uuid) {
                    GattsOutcome::AddCccd { service_handle }
                } else {
                    GattsOutcome::Nothing
                }
            },
            GattsEvent::DescriptorAdded { ok, attr_handle, service_handle, short_uuid } => {
                if !ok {
                    return GattsOutcome::BadStatus;
                }
                self.register_cccd_descriptor(service_handle, attr_handle, short_uuid);
                GattsOutcome::Nothing
            },
            GattsEvent::PeerConnected { conn_id, addr } => {
                self.create_conn(conn_id, addr);
                // The radio may stop advertising once a link is up.
                self.advertising_enabled = false;
                GattsOutcome::RequestEncryption { addr }
            },
            GattsEvent::PeerDisconnected { addr } => {
                self.delete_conn(addr);
                self.advertising_enabled = false;
                if self.maybe_start_advertising() {
                    GattsOutcome::StartAdvertising
                } else {
                    GattsOutcome::Nothing
                }
            },
            GattsEvent::Write { conn_id, handle, offset, need_rsp, is_prep, value } => {
                let (handled, deliver) = self.recv(conn_id, handle, offset, value);
                if handled {
                    let response = if !need_rsp {
                        WriteResponse::NoResponse
                    } else if is_prep {
                        WriteResponse::Echo
                    } else {
                        WriteResponse::Plain
                    };
                    GattsOutcome::Written { deliver, response }
                } else {
                    GattsOutcome::Nothing
                }
            },
            GattsEvent::Other => GattsOutcome::Nothing,
        }
    }
}

proof fn lemma_peer_at(conns: Seq<BlePeerConnection>, addr: u64, i: int)
    requires
        0 <= i,
    ensures
        match peer_at(conns, addr, i) {
            Some(k) => i <= k < conns.len() && conns[k].peer == addr,
            None => forall|j: int| i <= j < conns.len() ==> conns[j].peer != addr,
        },
    decreases conns.len() - i,
{
    if i < conns.len() && conns[i].peer != addr {
        lemma_peer_at(conns, addr, i + 1);
    }
}

/// A peer that left is as if it had not come: with one connection per peer, connecting and then
/// disconnecting leaves the connections as they were.
pub proof fn leaving_undoes_coming(s: BleView, conn_id: u16, addr: u64)
    requires
        s.connections.len() < BLE_MAX_CONNECTIONS,
        forall|i: int| 0 <= i < s.connections.len() ==> (#[trigger] s.connections[i]).peer != addr,
    ensures
        s.connected(conn_id, addr).disconnected(addr) == s,
{
    let c = s.connected(conn_id, addr);
    lemma_peer_at(c.connections, addr, 0);
    match peer_at(c.connections, addr, 0) {
        Some(k) => {
            if k < s.connections.len() {
                assert(c.connections[k] == s.connections[k]);
                assert(false);
            }
            assert(without(c.connections, k) =~= s.connections);
        },
        None => {
            assert(c.connections.last().peer == addr);
        },
    }
}

/// A peer that paired once is taken as paired when it comes back.
pub proof fn pairing_is_remembered(s: BleView, addr: u64, conn_id: u16)
    requires
        s.connections.len() < BLE_MAX_CONNECTIONS,
    ensures
        s.authenticated(addr, true).paired_peers.contains(addr),
        s.authenticated(addr, true).connected(conn_id, addr).connections.last().paired,
{
    let a = s.authenticated(addr, true);
    if !s.paired_peers.contains(addr) {
        assert(a.paired_peers.last() == addr);
    }
    lemma_peer_at(s.connections, addr, 0);
}

/// Advertising is begun only while there is room for one more connection, and not twice.
pub proof fn advertising_leaves_room(s: BleView, event: GapEvent)
    requires
        s.wf(),
    ensures
        s.after_gap(event).1 == GapOutcome::StartAdvertising ==> {
            &&& s.connections.len() < BLE_MAX_CONNECTIONS
            &&& s.after_gap(event).0.advertising_starting
            &&& !s.after_gap(event).0.can_advertise()
        },
{
}

/// Nor is it begun otherwise after an event about attributes or connections.
pub proof fn advertising_again_leaves_room(s: BleView, event: GattsEvent)
    requires
        s.wf(),
    ensures
        s.after_gatts(event).1 == GattsView::StartAdvertising ==> {
            &&& s.after_gatts(event).0.connections.len() < BLE_MAX_CONNECTIONS
            &&& s.after_gatts(event).0.advertising_starting
            &&& !s.after_gatts(event).0.can_advertise()
        },
{
}

/// A success ends the pairing, and a failure leaves it on.
pub proof fn pairing_ends_with_success(s: BleView, addr: u64, status: BtStatus)
    requires
        s.wf(),
    ensures
        ({
            let after = s.after_gap(GapEvent::AuthenticationComplete { addr, status }).0;
            if status == BtStatus::Success {
                !after.pairing_mode && after.pairing_code is None
            } else {
                after.pairing_mode == s.pairing_mode && after.pairing_code == s.pairing_code
            }
        }),
{
}

proof fn lemma_conn_at(conns: Seq<BlePeerConnection>, conn_id: u16, i: int)
    requires
        0 <= i,
    ensures
        match conn_at(conns, conn_id, i) {
            Some(k) => {
                &&& i <= k < conns.len()
                &&& conns[k].conn_id == conn_id
                &&& forall|j: int| i <= j < k ==> conns[j].conn_id != conn_id
            },
            None => forall|j: int| i <= j < conns.len() ==> conns[j].conn_id != conn_id,
        },
    decreases conns.len() - i,
{
    if i < conns.len() && conns[i].conn_id != conn_id {
        lemma_conn_at(conns, conn_id, i + 1);
    }
}

/// A peer that leaves makes the robot findable again: once both advertising parts are set up and
/// fewer than three peers are left, advertising is under way, and it is begun now unless that was
/// done before. The connections of all other peers stay as they are.
pub proof fn leaving_makes_findable_again(s: BleView, addr: u64)
    requires
        s.wf(),
    ensures
        ({
            let (after, outcome) = s.after_gatts(GattsEvent::PeerDisconnected { addr });
            &&& s.adv_data_configured && s.scan_rsp_configured && after.connections.len() < 3
                ==> after.advertising_starting
            &&& outcome == GattsView::StartAdvertising <==> {
                &&& s.adv_data_configured
                &&& s.scan_rsp_configured
                &&& !s.advertising_starting
                &&& after.connections.len() < 3
            }
            &&& outcome == GattsView::StartAdvertising || outcome == GattsView::Nothing
            &&& outcome == GattsView::Nothing ==> after.advertising_starting
                == s.advertising_starting
            &&& !after.advertising_enabled
            &&& after.connections.len() == s.connections.len() - if exists|i: int|
                0 <= i < s.connections.len() && (#[trigger] s.connections[i]).peer == addr {
                1int
            } else {
                0int
            }
            &&& forall|c: BlePeerConnection|
                c.peer != addr ==> (#[trigger] after.connections.contains(c)
                    <==> s.connections.contains(c))
            &&& after.paired_peers == s.paired_peers
            &&& after.pairing_mode == s.pairing_mode
            &&& after.pairing_code == s.pairing_code
            &&& after.rx_handle == s.rx_handle
            &&& after.tx_handle == s.tx_handle
            &&& after.tx_cccd_handle == s.tx_cccd_handle
        }),
{
    lemma_peer_at(s.connections, addr, 0);
    let (after, outcome) = s.after_gatts(GattsEvent::PeerDisconnected { addr });
    if let Some(k) = peer_at(s.connections, addr, 0) {
        assert(s.connections[k].peer == addr);
        let last = s.connections.len() - 1;
        assert forall|c: BlePeerConnection| c.peer != addr implies (
        #[trigger] after.connections.contains(c) <==> s.connections.contains(c)) by {
            if after.connections.contains(c) {
                let j = choose|j: int| 0 <= j < after.connections.len() && after.connections[j] == c;
                if j == k {
                    assert(s.connections[last] == c);
                } else {
                    assert(s.connections[j] == c);
                }
            }
            if s.connections.contains(c) {
                let j = choose|j: int| 0 <= j < s.connections.len() && s.connections[j] == c;
                if j == last {
                    assert(after.connections[k] == c);
                } else {
                    assert(after.connections[j] == c);
                }
            }
        }
    }
}

/// Nor does the robot rest otherwise: once an advertising part is set up, or advertising has
/// stopped, a robot that has both parts, room for a peer and is not advertising begins to.
pub proof fn robot_with_room_never_rests(s: BleView, status: BtStatus)
    requires
        s.wf(),
    ensures
        ({
            let (after, outcome) = s.after_gap(GapEvent::AdvertisingConfigured(BtStatus::Success));
            &&& after.adv_data_configured
            &&& after.scan_rsp_configured == s.scan_rsp_configured
            &&& s.scan_rsp_configured && s.connections.len() < 3 ==> after.advertising_enabled
                || after.advertising_starting
            &&& outcome == GapOutcome::StartAdvertising <==> after.advertising_starting
                && !s.advertising_starting
        }),
        ({
            let (after, outcome) = s.after_gap(GapEvent::ScanResponseConfigured(BtStatus::Success));
            &&& after.scan_rsp_configured
            &&& after.adv_data_configured == s.adv_data_configured
            &&& s.adv_data_configured && s.connections.len() < 3 ==> after.advertising_enabled
                || after.advertising_starting
            &&& outcome == GapOutcome::StartAdvertising <==> after.advertising_starting
                && !s.advertising_starting
        }),
        ({
            let (after, outcome) = s.after_gap(GapEvent::AdvertisingStopped(status));
            if status == BtStatus::Failed {
                after == s && outcome == GapOutcome::BadStatus
            } else {
                &&& !after.advertising_enabled
                &&& after.advertising_starting <==> s.adv_data_configured && s.scan_rsp_configured
                    && s.connections.len() < 3
                &&& outcome == GapOutcome::StartAdvertising <==> after.advertising_starting
            }
        }),
        ({
            let (after, outcome) = s.after_gap(GapEvent::AdvertisingStarted(status));
            &&& !after.advertising_starting
            &&& status == BtStatus::Success ==> after.advertising_enabled
            &&& status == BtStatus::Pending ==> !after.advertising_enabled
            &&& status == BtStatus::Failed ==> after.advertising_enabled == s.advertising_enabled
            &&& outcome == GapOutcome::BadStatus <==> status == BtStatus::Failed
        }),
        status != BtStatus::Success ==> {
            &&& s.after_gap(GapEvent::AdvertisingConfigured(status)) == (s, GapOutcome::BadStatus)
            &&& s.after_gap(GapEvent::ScanResponseConfigured(status)) == (s, GapOutcome::BadStatus)
        },
{
}

/// A peer that comes is taken in while there is room: under its own number and address, not
/// subscribed, and paired exactly where it paired before. It is asked to encrypt in any case, and
/// nobody else's connection changes.
pub proof fn peer_is_taken_in(s: BleView, conn_id: u16, addr: u64)
    requires
        s.wf(),
    ensures
        ({
            let (after, outcome) = s.after_gatts(GattsEvent::PeerConnected { conn_id, addr });
            let n = s.connections.len() as int;
            &&& outcome == GattsView::RequestEncryption { addr }
            &&& !after.advertising_enabled
            &&& after.advertising_starting == s.advertising_starting
            &&& after.paired_peers == s.paired_peers
            &&& after.connections.len() == if n < 3 {
                n + 1
            } else {
                n
            }
            &&& forall|i: int| 0 <= i < n ==> after.connections[i] == s.connections[i]
            &&& n < 3 ==> {
                &&& after.connections[n].peer == addr
                &&& after.connections[n].conn_id == conn_id
                &&& !after.connections[n].subscribed
                &&& after.connections[n].paired <==> s.paired_peers.contains(addr)
            }
        }),
{
}

/// What a peer writes into the robot's inbox comes out for the decoder as it was written, changes
/// nothing else, and is answered as the peer wants it.
pub proof fn written_bytes_come_out(
    s: BleView,
    conn_id: u16,
    handle: u16,
    offset: u16,
    need_rsp: bool,
    is_prep: bool,
    value: Vec<u8>,
)
    requires
        s.rx_handle == Some(handle),
        s.tx_cccd_handle != Some(handle),
    ensures
        ({
            let (after, outcome) = s.after_gatts(
                GattsEvent::Write { conn_id, handle, offset, need_rsp, is_prep, value },
            );
            &&& after == s
            &&& outcome matches GattsView::Written { deliver, response }
            &&& deliver == Some(value@)
            &&& response == WriteResponse::NoResponse <==> !need_rsp
            &&& response == WriteResponse::Echo <==> need_rsp && is_prep
            &&& response == WriteResponse::Plain <==> need_rsp && !is_prep
        }),
{
}

/// A write to anything that is not the robot's inbox or its subscription does nothing at all.
pub proof fn foreign_writes_do_nothing(
    s: BleView,
    conn_id: u16,
    handle: u16,
    offset: u16,
    need_rsp: bool,
    is_prep: bool,
    value: Vec<u8>,
)
    requires
        s.rx_handle != Some(handle),
        s.tx_cccd_handle != Some(handle),
    ensures
        s.after_gatts(GattsEvent::Write { conn_id, handle, offset, need_rsp, is_prep, value }) == (
            s,
            GattsView::Nothing,
        ),
{
}

/// The connections to which bytes for everyone go are those that are subscribed, each once and in
/// order.
pub proof fn subscribers_are_told(conns: Seq<BlePeerConnection>, id: u16)
    ensures
        subscribed_ids(conns).contains(id) <==> exists|i: int|
            0 <= i < conns.len() && (#[trigger] conns[i]).subscribed && conns[i].conn_id == id,
        subscribed_ids(conns).len() == conns.filter(|c: BlePeerConnection| c.subscribed).len(),
        subscribed_ids(conns) == conns.filter(|c: BlePeerConnection| c.subscribed).map_values(
            |c: BlePeerConnection| c.conn_id,
        ),
    decreases conns.len(),
{
    reveal(Seq::filter);
    let yes = |c: BlePeerConnection| c.subscribed;
    let num = |c: BlePeerConnection| c.conn_id;
    if conns.len() > 0 {
        let front = conns.drop_last();
        subscribers_are_told(front, id);
        let ids = subscribed_ids(conns);
        let before = subscribed_ids(front);
        if conns.last().subscribed {
            assert(conns.filter(yes) == front.filter(yes).push(conns.last()));
            assert(ids =~= conns.filter(yes).map_values(num));
        }
        if ids.contains(id) {
            let j = choose|j: int| 0 <= j < ids.len() && ids[j] == id;
            if j < before.len() {
                assert(before[j] == id);
                let i = choose|i: int|
                    0 <= i < front.len() && (#[trigger] front[i]).subscribed && front[i].conn_id
                        == id;
                assert(conns[i] == front[i]);
            } else {
                assert(conns[conns.len() - 1].subscribed);
            }
        }
        if exists|i: int|
            0 <= i < conns.len() && (#[trigger] conns[i]).subscribed && conns[i].conn_id == id {
            let i = choose|i: int|
                0 <= i < conns.len() && (#[trigger] conns[i]).subscribed && conns[i].conn_id == id;
            if i < front.len() {
                assert(front[i] == conns[i]);
                let j = choose|j: int| 0 <= j < before.len() && before[j] == id;
                assert(ids[j] == id);
            } else {
                assert(ids.last() == id);
            }
        }
    } else {
        assert(subscribed_ids(conns) =~= conns.filter(yes).map_values(num));
    }
}

/// A peer that writes the two bytes 1 and 0 to the subscription is subscribed from then on, and
/// any other two bytes end it; other peers stay as they are. A write of another length, or not to
/// the beginning, changes nothing.
pub proof fn subscription_is_the_peers_own(
    s: BleView,
    conn_id: u16,
    handle: u16,
    offset: u16,
    need_rsp: bool,
    is_prep: bool,
    value: Vec<u8>,
    i: int,
)
    requires
        s.tx_cccd_handle == Some(handle),
        0 <= i < s.connections.len(),
        forall|j: int| 0 <= j < i ==> (#[trigger] s.connections[j]).conn_id != conn_id,
    ensures
        ({
            let (after, outcome) = s.after_gatts(
                GattsEvent::Write { conn_id, handle, offset, need_rsp, is_prep, value },
            );
            let c = s.connections[i];
            &&& outcome matches GattsView::Written { deliver, response }
            &&& deliver is None
            &&& after.connections.len() == s.connections.len()
            &&& after.connections[i].peer == c.peer
            &&& after.connections[i].conn_id == c.conn_id
            &&& after.connections[i].paired == c.paired
            &&& after.connections[i].subscribed == if c.conn_id == conn_id && offset == 0
                && value@.len() == 2 {
                value@[0] == 1 && value@[1] == 0
            } else {
                c.subscribed
            }
            &&& after.connections[i].subscribed ==> subscribed_ids(after.connections).contains(
                c.conn_id,
            )
        }),
{
    lemma_conn_at(s.connections, conn_id, 0);
    let after = s.after_gatts(
        GattsEvent::Write { conn_id, handle, offset, need_rsp, is_prep, value },
    ).0;
    subscribers_are_told(after.connections, s.connections[i].conn_id);
    assert(after.connections[i] == after.connections[i]);
}

/// Setting up the service, step by step, leaves the robot with what it needs to be written to and
/// to speak: the interface, the service, its inbox, its outbox and the subscription to that.
pub proof fn service_is_set_up(
    s: BleView,
    gatt_if: u8,
    service_handle: u16,
    rx: u16,
    tx: u16,
    cccd: u16,
)
    ensures
        ({
            let (s1, o1) = s.after_gatts(
                GattsEvent::ServiceRegistered { ok: true, gatt_if, app_id: 0 },
            );
            let (s2, o2) = s1.after_gatts(GattsEvent::ServiceCreated { ok: true, service_handle });
            let (s3, o3) = s2.after_gatts(
                GattsEvent::CharacteristicAdded {
                    ok: true,
                    attr_handle: rx,
                    service_handle,
                    uuid: Some(BLE_RX_CHAR_UUID_U128),
                },
            );
            let (s4, o4) = s3.after_gatts(
                GattsEvent::CharacteristicAdded {
                    ok: true,
                    attr_handle: tx,
                    service_handle,
                    uuid: Some(BLE_TX_CHAR_UUID_U128),
                },
            );
            let (s5, o5) = s4.after_gatts(
                GattsEvent::DescriptorAdded {
                    ok: true,
                    attr_handle: cccd,
                    service_handle,
                    short_uuid: Some(0x2902u16),
                },
            );
            &&& o1 == GattsView::CreateService { gatt_if }
            &&& o2 == GattsView::StartService { service_handle }
            &&& o3 == GattsView::Nothing
            &&& o4 == GattsView::AddCccd { service_handle }
            &&& o5 == GattsView::Nothing
            &&& s5.gatt_if == Some(gatt_if)
            &&& s5.service_handle == Some(service_handle)
            &&& s5.rx_handle == Some(rx)
            &&& s5.tx_handle == Some(tx)
            &&& s5.tx_cccd_handle == Some(cccd)
            &&& s5.connections == s.connections
            &&& s5.paired_peers == s.paired_peers
            &&& !s5.adv_data_configured && !s5.scan_rsp_configured && !s5.advertising_starting
        }),
{
}

/// What belongs to another service, or is of another kind, is not taken for the robot's own; and
/// what failed leaves everything as it was and is reported.
pub proof fn foreign_attributes_are_left_alone(
    s: BleView,
    handle: u16,
    service_handle: u16,
    uuid: Option<u128>,
    short_uuid: Option<u16>,
    gatt_if: u8,
    app_id: u16,
    ok: bool,
)
    ensures
        ({
            let added = GattsEvent::CharacteristicAdded {
                ok,
                attr_handle: handle,
                service_handle,
                uuid,
            };
            let described = GattsEvent::DescriptorAdded {
                ok,
                attr_handle: handle,
                service_handle,
                short_uuid,
            };
            let registered = GattsEvent::ServiceRegistered { ok, gatt_if, app_id };
            let created = GattsEvent::ServiceCreated { ok, service_handle };
            if !ok {
                &&& s.after_gatts(added) == (s, GattsView::BadStatus)
                &&& s.after_gatts(described) == (s, GattsView::BadStatus)
                &&& s.after_gatts(registered) == (s, GattsView::BadStatus)
                &&& s.after_gatts(created) == (s, GattsView::BadStatus)
            } else {
                &&& s.service_handle != Some(service_handle) || (uuid != Some(BLE_RX_CHAR_UUID_U128)
                    && uuid != Some(BLE_TX_CHAR_UUID_U128)) ==> s.after_gatts(added) == (
                    s,
                    GattsView::Nothing,
                )
                &&& s.service_handle != Some(service_handle) || short_uuid != Some(0x2902u16)
                    ==> s.after_gatts(described) == (s, GattsView::Nothing)
                &&& app_id != 0 ==> s.after_gatts(registered) == (s, GattsView::Nothing)
            }
        }),
{
}

/// Proving who it is marks the peer's connection and no other, and is remembered only where it
/// succeeded; a peer that is known already is not remembered twice.
pub proof fn authentication_marks_one_peer(s: BleView, addr: u64, status: BtStatus, i: int)
    requires
        s.wf(),
        0 <= i < s.connections.len(),
        forall|j: int| 0 <= j < i ==> (#[trigger] s.connections[j]).peer != addr,
    ensures
        ({
            let (after, outcome) = s.after_gap(GapEvent::AuthenticationComplete { addr, status });
            let c = s.connections[i];
            &&& outcome == GapOutcome::Nothing
            &&& after.connections.len() == s.connections.len()
            &&& after.connections[i].peer == c.peer
            &&& after.connections[i].conn_id == c.conn_id
            &&& after.connections[i].subscribed == c.subscribed
            &&& after.connections[i].paired == if c.peer == addr {
                status == BtStatus::Success
            } else {
                c.paired
            }
            &&& forall|p: u64|
                #[trigger] after.paired_peers.contains(p) <==> s.paired_peers.contains(p) || (p == addr
                    && status == BtStatus::Success)
            &&& after.paired_peers.no_duplicates()
            &&& after.advertising_enabled == s.advertising_enabled
            &&& after.advertising_starting == s.advertising_starting
        }),
{
    lemma_peer_at(s.connections, addr, 0);
    lemma_first_peer(s.connections, addr, 0, i);
    let after = s.after_gap(GapEvent::AuthenticationComplete { addr, status }).0;
    assert forall|p: u64|
        #[trigger] after.paired_peers.contains(p) <==> s.paired_peers.contains(p) || (p == addr
            && status == BtStatus::Success) by {
        if status == BtStatus::Success && !s.paired_peers.contains(addr) {
            let n = s.paired_peers.len() as int;
            assert(after.paired_peers[n] == addr);
            if s.paired_peers.contains(p) {
                let k = choose|k: int| 0 <= k < n && s.paired_peers[k] == p;
                assert(after.paired_peers[k] == p);
            }
        }
    }
}

proof fn lemma_first_peer(conns: Seq<BlePeerConnection>, addr: u64, from: int, i: int)
    requires
        0 <= from <= i < conns.len(),
        forall|j: int| from <= j < i ==> (#[trigger] conns[j]).peer != addr,
    ensures
        match peer_at(conns, addr, from) {
            Some(k) => k >= i && (conns[i].peer == addr ==> k == i),
            None => conns[i].peer != addr,
        },
    decreases i - from,
{
    if from < i {
        lemma_first_peer(conns, addr, from + 1, i);
    } else if conns[i].peer != addr {
        lemma_peer_at(conns, addr, i + 1);
    }
}

} // verus!
