use lander::connect::{ConnectStage, ConnectStep, Connecting, FindStep, Finding, StageOutcome};
use lander::link::SeenDevice;
use lander::uuids::{ble_rx_uuid, ble_tx_uuid};

fn device(id: &str, name: Option<&str>) -> StageOutcome {
    StageOutcome::Device(Some(SeenDevice {
        id: id.to_string(),
        has_service: false,
        local_name: name.map(str::to_string),
    }))
}

fn characteristics() -> StageOutcome {
    StageOutcome::Characteristics(vec![1, ble_tx_uuid().unwrap(), 2, ble_rx_uuid().unwrap()])
}

/// What comes of a step where all goes well and the second device is the chosen one.
fn good(step: &ConnectStep) -> StageOutcome {
    match step {
        ConnectStep::Run(ConnectStage::Adapters) => StageOutcome::Found(1),
        ConnectStep::Run(ConnectStage::Match) => StageOutcome::Found(3),
        ConnectStep::Run(ConnectStage::Discover) => characteristics(),
        ConnectStep::Read(0) => StageOutcome::Device(None),
        ConnectStep::Read(_) => device("id1", None),
        _ => StageOutcome::Done,
    }
}

fn failed(text: &str) -> ConnectStep {
    ConnectStep::Failed(text.to_string())
}

#[test]
fn connecting_goes_through_its_stages() {
    for pairs in [false, true] {
        let mut c = Connecting::new("id1|lander001", pairs, false);
        let mut words = Vec::new();
        let mut reads = Vec::new();
        while c.step != ConnectStep::Connected {
            words.extend(c.status());
            if let ConnectStep::Read(i) = c.step {
                reads.push(i);
            }
            let outcome = good(&c.step);
            c.advance(outcome, false);
        }
        let mut expected = vec![
            "Creating BLE manager...",
            "Looking for BLE adapters...",
            "Scanning for BLE devices...",
            "Matching selected BLE device...",
            "Pairing via BlueZ...",
            "Opening BLE link...",
            "Discovering BLE services...",
            "Subscribing to notifications...",
            "Waiting for robot responses...",
        ];
        if !pairs {
            expected.remove(4);
        }
        assert_eq!(words, expected);
        assert_eq!(reads, vec![0, 1]);
        assert_eq!((c.rx, c.tx), (3, 1));
        // Nothing follows the end.
        c.advance(StageOutcome::Failed, true);
        assert_eq!(c.step, ConnectStep::Connected);
    }
}

/// The connection when it comes to a step, where all went well so far.
fn until(step: ConnectStep) -> Connecting {
    let mut c = Connecting::new("id1|lander001", true, false);
    while c.step != step {
        let outcome = good(&c.step);
        c.advance(outcome, false);
    }
    c
}

fn after(step: ConnectStep, outcome: StageOutcome) -> ConnectStep {
    let mut c = until(step);
    c.advance(outcome, false);
    c.step
}

#[test]
fn connecting_ends_with_the_first_failure() {
    let run = ConnectStep::Run;
    let texts = [
        (ConnectStage::Manager, "failed to create BLE manager"),
        (ConnectStage::Adapters, "failed to enumerate BLE adapters"),
        (ConnectStage::Scan, "failed to start BLE scan"),
        (ConnectStage::Match, "failed to list BLE peripherals"),
        (ConnectStage::Pair, "failed to pair/trust device via BlueZ"),
        (ConnectStage::Open, "failed to connect BLE peripheral"),
        (ConnectStage::Discover, "failed to discover BLE services"),
        (ConnectStage::Subscribe, "failed to subscribe BLE TX characteristic"),
        (ConnectStage::Listen, "failed to open BLE notification stream"),
    ];
    for (stage, text) in texts {
        assert_eq!(after(run(stage), StageOutcome::Failed), failed(text));
    }
    let texts = [
        (ConnectStage::Open, "timed out connecting to BLE peripheral", 10_000),
        (ConnectStage::Discover, "timed out discovering BLE services", 10_000),
        (ConnectStage::Subscribe, "timed out subscribing to BLE TX characteristic", 5_000),
        (ConnectStage::Listen, "timed out opening BLE notification stream", 5_000),
    ];
    for (stage, text, ms) in texts {
        assert_eq!(stage.limit(), Some((ms, text)));
        assert_eq!(after(run(stage), StageOutcome::TimedOut), failed(text));
    }
    assert_eq!(ConnectStage::Scan.limit(), None);
    assert_eq!(
        after(run(ConnectStage::Adapters), StageOutcome::Found(0)),
        failed("no BLE adapter available")
    );
    assert_eq!(
        after(run(ConnectStage::Match), StageOutcome::Found(0)),
        failed("BLE device 'id1' not found")
    );
    assert_eq!(
        after(ConnectStep::Read(1), StageOutcome::Failed),
        failed("failed to read BLE peripheral properties")
    );
    let rx = StageOutcome::Characteristics(vec![ble_rx_uuid().unwrap()]);
    assert_eq!(
        after(run(ConnectStage::Discover), rx),
        failed("BLE TX characteristic not found")
    );
    let tx = StageOutcome::Characteristics(vec![ble_tx_uuid().unwrap()]);
    assert_eq!(
        after(run(ConnectStage::Discover), tx),
        failed("BLE RX characteristic not found")
    );
}

#[test]
fn missing_device_is_reported() {
    let mut c = until(ConnectStep::Read(0));
    c.advance(device("id2", Some("other")), false);
    c.advance(device("id3", None), false);
    assert_eq!(c.step, ConnectStep::Read(2));
    c.advance(StageOutcome::Device(None), false);
    assert_eq!(c.step, failed("BLE device 'id1' not found"));
}

#[test]
fn cancelled_connection_enters_no_stage() {
    let cancelled = failed("BLE connection cancelled");
    assert_eq!(Connecting::new("x", true, true).step, cancelled);
    for stage in [ConnectStage::Manager, ConnectStage::Pair, ConnectStage::Subscribe] {
        let mut c = until(ConnectStep::Run(stage));
        c.advance(StageOutcome::Done, true);
        assert_eq!(c.step, cancelled);
    }
    // Between two devices nobody looks; a failure comes before.
    let mut c = until(ConnectStep::Read(0));
    c.advance(StageOutcome::Device(None), true);
    assert_eq!(c.step, ConnectStep::Read(1));
    let mut c = until(ConnectStep::Run(ConnectStage::Open));
    c.advance(StageOutcome::Failed, true);
    assert_eq!(c.step, failed("failed to connect BLE peripheral"));
    // The last stage is followed by none.
    let mut c = until(ConnectStep::Run(ConnectStage::Listen));
    c.advance(StageOutcome::Done, true);
    assert_eq!(c.step, ConnectStep::Connected);
}

#[test]
fn finding_looks_at_every_device() {
    let mut f = Finding::new();
    f.advance(StageOutcome::Done);
    assert_eq!(f.step, FindStep::Run(ConnectStage::Adapters));
    f.advance(StageOutcome::Found(2));
    f.advance(StageOutcome::Done);
    assert_eq!(f.step, FindStep::Run(ConnectStage::Match));
    f.advance(StageOutcome::Found(3));
    f.advance(device("a", None));
    f.advance(StageOutcome::Device(None));
    assert_eq!(f.step, FindStep::Read(2));
    f.advance(device("b", Some("n")));
    assert_eq!(f.step, FindStep::Done);
    let ids: Vec<String> = f.seen.iter().map(|d| d.id.clone()).collect();
    assert_eq!(ids, vec!["a", "b"]);
}

#[test]
fn finding_ends_with_the_first_failure() {
    let find_failed = |text: &str| FindStep::Failed(text.to_string());
    let mut f = Finding::new();
    f.advance(StageOutcome::Failed);
    assert_eq!(f.step, find_failed("failed to create BLE manager"));
    let mut f = Finding::new();
    f.advance(StageOutcome::Done);
    f.advance(StageOutcome::Found(0));
    assert_eq!(f.step, find_failed("no BLE adapter available"));
    let mut f = Finding::new();
    f.advance(StageOutcome::Done);
    f.advance(StageOutcome::Found(1));
    f.advance(StageOutcome::Done);
    f.advance(StageOutcome::Failed);
    assert_eq!(f.step, find_failed("failed to fetch scanned peripherals"));
    let mut f = Finding::new();
    f.advance(StageOutcome::Done);
    f.advance(StageOutcome::Found(1));
    f.advance(StageOutcome::Done);
    f.advance(StageOutcome::Found(0));
    assert_eq!(f.step, FindStep::Done);
    assert!(f.seen.is_empty());
}
