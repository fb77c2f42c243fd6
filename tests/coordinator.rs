use micro_broadcaster::api::{
    animation_handler, broadcast_plan, duration_secs, message_handler, record_outcome,
    register_worker, timer_add_handler, timer_start_handler, AnimationRequest, DeliveryOutcome,
    MessageRequest, TimerRequest,
};
use micro_broadcaster::command::{
    current_directive, MicroAnimation, MicroCommand, MicroMessage, MicroPing, MicroTimer,
};
use micro_broadcaster::registry::{Endpoint, IpAddress, MicroManager, MicroWorker, PersistentTable};
use micro_broadcaster::render::{Animation, FrameStep, Player, RenderAction, Receiver};
use micro_broadcaster::wire::Directive;

const PORT: u16 = 8092;
const ALICE: &str = "AA:BB:CC:DD:EE:01";
const W2: &str = "AA:BB:CC:DD:EE:02";
const W3: &str = "AA:BB:CC:DD:EE:03";

// Maps written out field by field, the way `phf_map!` expands. With a
// single entry and a displacement every key lands on that entry, so `get`
// answers as for a generated map.
static ALICE_ONLY: phf::Map<&'static str, &'static str> = phf::Map {
    key: 0,
    disps: &[(0, 0)],
    entries: &[(ALICE, "Alice")],
};

fn table() -> PersistentTable {
    PersistentTable::from_map(&ALICE_ONLY).unwrap()
}

fn manager() -> MicroManager {
    MicroManager::new(table())
}

fn ip(last: u8) -> IpAddress {
    IpAddress::V4([10, 0, 0, last])
}

fn at(last: u8) -> Endpoint {
    Endpoint { ip: ip(last), port: PORT }
}

fn message(id: &str, text: &str) -> MessageRequest {
    MessageRequest { id: id.to_string(), message: text.to_string() }
}

fn timer(id: &str, minutes: &str) -> TimerRequest {
    TimerRequest { id: id.to_string(), duration: minutes.to_string() }
}

fn animation(id: &str, name: &str) -> AnimationRequest {
    AnimationRequest { id: id.to_string(), animation: name.to_string() }
}

fn payload_for(m: &MicroManager, mac: &str, now_ms: u64) -> Option<String> {
    broadcast_plan(&m.snapshot())
        .into_iter()
        .find(|d| d.mac_address == mac)
        .map(|d| d.payload(now_ms))
}

#[test]
fn persistent_table_rejects_duplicate_macs() {
    assert!(PersistentTable::from_map(&REPEATED_MAC).is_none());
    let t = table();
    assert_eq!(t.lookup(ALICE), Some("Alice".to_string()));
    assert_eq!(t.lookup(W2), None);
    assert_eq!(MicroWorker::get_alias(&t, ALICE), Some("Alice".to_string()));
    assert_eq!(t.entries().len(), 1);
}

static EMPTY_MAP: phf::Map<&'static str, &'static str> = phf::Map::new();

// Holds an entry but no displacements, so `get` finds nothing in it.
static UNREADABLE: phf::Map<&'static str, &'static str> = phf::Map {
    key: 0,
    disps: &[],
    entries: &[(ALICE, "Alice")],
};

static REPEATED_MAC: phf::Map<&'static str, &'static str> = phf::Map {
    key: 0,
    disps: &[(0, 0)],
    entries: &[("EC:DA:3B:BF:46:9C", "Georgia"), ("EC:DA:3B:BF:46:9C", "Asher")],
};

#[test]
fn table_from_compile_time_map() {
    let empty = PersistentTable::from_map(&EMPTY_MAP).unwrap();
    assert!(empty.entries().is_empty());
    assert_eq!(empty.lookup(ALICE), None);
    let t = table();
    assert_eq!(t.entries(), vec![(ALICE.to_string(), "Alice".to_string())]);
    assert_eq!(t.lookup(ALICE), Some("Alice".to_string()));
    assert_eq!(t.lookup(W2), None);
    let m = MicroManager::new(t);
    assert_eq!(m.workers().len(), 1);
    assert_eq!(m.get_worker(ALICE).unwrap().name(), "Alice");
    assert!(PersistentTable::from_map(&REPEATED_MAC).is_none());
    assert!(PersistentTable::from_map(&UNREADABLE).is_none());
}

#[test]
fn startup_holds_persistent_workers_inactive() {
    let m = manager();
    assert_eq!(m.workers().len(), 1);
    let w = m.get_worker(ALICE).unwrap();
    assert_eq!(w.alias, Some("Alice".to_string()));
    assert!(w.persistent);
    assert!(!w.active);
    assert_eq!(w.ip_address, None);
    assert_eq!(w.current_cmd, None);
    assert_eq!(w.name(), "Alice");
    assert!(broadcast_plan(&m.snapshot()).is_empty());
}

#[test]
fn worker_without_directive_is_pinged() {
    let mut m = manager();
    m.add_worker(W2.to_string(), at(7));
    assert_eq!(payload_for(&m, W2, 0).unwrap(), "PING");
}

#[test]
fn new_record_for_table_mac_is_persistent() {
    let w = MicroWorker::new(&table(), ALICE.to_string(), Some(at(1)));
    assert!(w.persistent);
    assert_eq!(w.alias, Some("Alice".to_string()));
    assert_eq!(w.name(), "Alice");
    assert!(w.active);
}

#[test]
fn new_worker_record() {
    let w = MicroWorker::new(&table(), W2.to_string(), Some(at(7)));
    assert_eq!(w.mac_address, W2);
    assert_eq!(w.alias, None);
    assert!(w.active);
    assert!(!w.persistent);
    assert_eq!(w.name(), W2);
    assert_eq!(w.duplicate(), w);
}

#[test]
fn add_worker_appends_or_revives() {
    let mut m = manager();
    m.add_worker(W2.to_string(), at(7));
    assert_eq!(m.workers().len(), 2);
    assert_eq!(m.find(W2), Some(1));
    m.add_worker(W2.to_string(), at(8));
    assert_eq!(m.workers().len(), 2);
    assert_eq!(m.get_worker(W2).unwrap().ip_address, Some(at(8)));
    m.add_worker(ALICE.to_string(), at(1));
    let a = m.get_worker(ALICE).unwrap();
    assert!(a.active && a.persistent);
    assert_eq!(a.ip_address, Some(at(1)));
    assert_eq!(m.workers().len(), 2);
}

#[test]
fn remove_then_get() {
    let mut m = manager();
    m.add_worker(W2.to_string(), at(7));
    m.add_worker(ALICE.to_string(), at(1));
    m.remove_worker(W2);
    assert!(m.get_worker(W2).is_none());
    m.remove_worker(ALICE);
    let a = m.get_worker(ALICE).unwrap();
    assert!(!a.active);
    assert_eq!(a.ip_address, None);
    m.remove_worker("00:00:00:00:00:00");
    assert_eq!(m.workers().len(), 1);
}

#[test]
fn registration_messages_update_registry() {
    let mut m = manager();
    assert!(register_worker(&mut m, "REGISTER AA:BB:CC:DD:EE:02", ip(7), PORT));
    assert_eq!(m.get_worker(W2).unwrap().ip_address, Some(at(7)));
    assert!(!register_worker(&mut m, "HELLO AA:BB:CC:DD:EE:03", ip(9), PORT));
    assert!(!register_worker(&mut m, "REGISTER", ip(9), PORT));
    assert_eq!(m.workers().len(), 2);
}

#[test]
fn unknown_id_is_unavailable() {
    let mut m = manager();
    m.add_worker(W2.to_string(), at(7));
    assert_eq!(message_handler(&mut m, &message(W3, "x")).status, "Unavailable");
    assert_eq!(animation_handler(&mut m, &animation(W3, "Heart")).status, "Unavailable");
    assert_eq!(timer_start_handler(&mut m, &timer(W3, "1"), 0).status, "Unavailable");
    assert_eq!(timer_add_handler(&mut m, &timer(W3, "1"), 0).status, "Unavailable");
    assert!(m.workers().iter().all(|w| w.current_cmd.is_none()));
}

#[test]
fn bad_duration_is_unavailable() {
    let mut m = manager();
    m.add_worker(W2.to_string(), at(7));
    assert_eq!(timer_start_handler(&mut m, &timer(W2, "two"), 0).status, "Unavailable");
    assert_eq!(timer_start_handler(&mut m, &timer(W2, "-1"), 0).status, "Unavailable");
    assert_eq!(timer_add_handler(&mut m, &timer(W2, ""), 0).status, "Unavailable");
    assert_eq!(
        timer_start_handler(&mut m, &timer(W2, "307445734561825861"), 0).status,
        "Unavailable"
    );
    assert_eq!(m.get_worker(W2).unwrap().current_cmd, None);
    assert_eq!(duration_secs("2"), Some(120));
    assert_eq!(duration_secs("+2"), Some(120));
    assert_eq!(duration_secs("+"), None);
    assert_eq!(timer_start_handler(&mut m, &timer(W2, "+2"), 0).status, "Complete");
    assert_eq!(duration_secs("307445734561825860"), Some(18446744073709551600));
    assert_eq!(duration_secs("307445734561825861"), None);
    assert_eq!(duration_secs("x"), None);
}

#[test]
fn broadcast_reaches_every_worker() {
    let mut m = MicroManager::new(PersistentTable::from_map(&EMPTY_MAP).unwrap());
    assert_eq!(message_handler(&mut m, &message("Broadcast", "none")).status, "Complete");
    m.add_worker(W2.to_string(), at(7));
    m.add_worker(W3.to_string(), at(8));
    assert_eq!(message_handler(&mut m, &message("Broadcast", "all")).status, "Complete");
    for w in m.workers() {
        assert_eq!(
            w.current_cmd,
            Some(MicroCommand::Message(MicroMessage { message: "all".to_string() }))
        );
    }
}

#[test]
fn timer_add_without_timer_starts_one() {
    let mut m = manager();
    m.add_worker(W2.to_string(), at(7));
    m.set_current(W2, &MicroCommand::Message(MicroMessage { message: "m".to_string() }));
    assert_eq!(timer_add_handler(&mut m, &timer(W2, "1"), 5_000).status, "Complete");
    assert_eq!(
        m.get_worker(W2).unwrap().current_cmd,
        Some(MicroCommand::Timer(MicroTimer { start_ms: 5_000, duration_secs: 60 }))
    );
}

#[test]
fn timer_add_never_shortens() {
    let mut m = manager();
    m.add_worker(W2.to_string(), at(7));
    let mut last = 0;
    for (i, minutes) in ["0", "3", "0", "1"].iter().enumerate() {
        timer_add_handler(&mut m, &timer(W2, minutes), 1_000 * i as u64);
        match &m.get_worker(W2).unwrap().current_cmd {
            Some(MicroCommand::Timer(t)) => {
                assert_eq!(t.start_ms, 0);
                assert!(t.duration_secs >= last);
                last = t.duration_secs;
            }
            other => panic!("expected a timer, got {:?}", other),
        }
    }
    assert_eq!(last, 240);
    assert!(m.add_time(W2, u64::MAX, 0));
    match &m.get_worker(W2).unwrap().current_cmd {
        Some(MicroCommand::Timer(t)) => assert_eq!(t.duration_secs, u64::MAX),
        other => panic!("expected a timer, got {:?}", other),
    }
}

#[test]
fn outcomes_other_than_connect_failure_keep_worker() {
    let mut m = manager();
    m.add_worker(W2.to_string(), at(7));
    record_outcome(&mut m, W2, DeliveryOutcome::WriteFailed);
    record_outcome(&mut m, W2, DeliveryOutcome::Delivered);
    assert!(m.get_worker(W2).is_some());
}

#[test]
fn eviction_keeps_other_directives() {
    let mut m = manager();
    m.add_worker(W2.to_string(), at(7));
    m.add_worker(W3.to_string(), at(8));
    message_handler(&mut m, &message(W3, "stay"));
    record_outcome(&mut m, W2, DeliveryOutcome::ConnectFailed);
    assert!(m.get_worker(W2).is_none());
    assert_eq!(
        m.get_worker(W3).unwrap().current_cmd,
        Some(MicroCommand::Message(MicroMessage { message: "stay".to_string() }))
    );
    assert!(m.get_worker(W3).unwrap().active);
}

#[test]
fn commands_render_directives() {
    assert_eq!(MicroPing {}.directive(), Directive::Ping);
    let msg = MicroMessage { message: "hi".to_string() };
    assert_eq!(msg.directive(), Directive::Message("hi".to_string()));
    assert_eq!(msg.raw(), "hi");
    let anim = MicroAnimation { animation: "Heart".to_string() };
    assert_eq!(anim.directive(), Directive::Animate("Heart".to_string()));
    assert_eq!(anim.raw(), "Heart");
    let t = MicroTimer { start_ms: 10_000, duration_secs: 120 };
    assert_eq!(t.remaining_secs(10_000), 120);
    assert_eq!(t.remaining_secs(10_999), 119);
    assert_eq!(t.remaining_secs(40_000), 90);
    assert_eq!(t.remaining_secs(130_000), 0);
    assert_eq!(t.remaining_secs(500_000), 0);
    assert_eq!(t.remaining_secs(0), 120);
    assert_eq!(t.directive(40_000), Directive::Timer { remaining: 90, total: 120 });
    assert_eq!(t.raw(40_000), "90");
    assert_eq!(t.raw(130_000), "0");
    assert_eq!(t.raw(130_001), "00:00");
    let big = MicroTimer { start_ms: 0, duration_secs: u64::MAX };
    assert_eq!(big.remaining_secs(1_000), u64::MAX - 1);
    assert_eq!(current_directive(&None, 0), Directive::Ping);
    let cmd = Some(MicroCommand::Timer(t.clone()));
    assert_eq!(current_directive(&cmd, 40_000).serialize(), "TIMER 90/120");
    assert_eq!(MicroTimer::extract_remaining_time(&cmd, 40_000), "90");
    assert_eq!(MicroTimer::extract_remaining_time(&None, 40_000), "00:00");
    assert_eq!(MicroMessage::extract_last_message(&Some(MicroCommand::Message(msg.clone()))), "hi");
    assert_eq!(MicroMessage::extract_last_message(&cmd), "");
    assert_eq!(MicroAnimation::extract_animation(&Some(MicroCommand::Animation(anim.clone()))), "Heart");
    assert_eq!(MicroAnimation::extract_animation(&None), "");
    assert_eq!(MicroCommand::Animation(anim.clone()).duplicate(), MicroCommand::Animation(anim));
}

#[test]
fn cold_start_then_message() {
    let mut m = manager();
    assert!(register_worker(&mut m, "REGISTER AA:BB:CC:DD:EE:02", ip(7), PORT));
    let receipt = message_handler(&mut m, &message(W2, "hi"));
    assert_eq!(receipt.status, "Complete");
    let plan = broadcast_plan(&m.snapshot());
    assert_eq!(plan.len(), 1);
    assert_eq!(plan[0].mac_address, W2);
    assert_eq!(plan[0].address, at(7));
    assert_eq!(plan[0].payload(1_000), "MESSAGE hi");
    let mut rx = Receiver::new();
    assert_eq!(rx.receive(&plan[0].payload(1_000)), RenderAction::ShowMessage("hi".to_string()));
}

#[test]
fn broadcast_animation() {
    let mut m = manager();
    register_worker(&mut m, "REGISTER AA:BB:CC:DD:EE:02", ip(7), PORT);
    register_worker(&mut m, "REGISTER AA:BB:CC:DD:EE:03", ip(8), PORT);
    let receipt = animation_handler(&mut m, &animation("Broadcast", "Heart"));
    assert_eq!(receipt.status, "Complete");
    let plan = broadcast_plan(&m.snapshot());
    assert_eq!(plan.len(), 2);
    for d in &plan {
        assert_eq!(d.payload(0), "ANIMATE Heart");
        let mut rx = Receiver::new();
        let action = rx.receive(&d.payload(0));
        assert_eq!(action, RenderAction::Animate(Animation::Heart));
        let intent = action.intent().unwrap();
        assert_eq!(intent, Animation::Heart);
        let mut player = Player::new();
        assert_eq!(player.step(intent), FrameStep::Draw { animation: Animation::Heart, frame: 0 });
    }
}

#[test]
fn timer_extension() {
    let mut m = manager();
    register_worker(&mut m, "REGISTER w1", ip(7), PORT);
    let t0 = 1_000_000;
    assert_eq!(timer_start_handler(&mut m, &timer("w1", "2"), t0).status, "Complete");
    assert_eq!(payload_for(&m, "w1", t0).unwrap(), "TIMER 120/120");
    assert_eq!(payload_for(&m, "w1", t0 + 1_000).unwrap(), "TIMER 119/120");
    assert_eq!(payload_for(&m, "w1", t0 + 30_000).unwrap(), "TIMER 90/120");
    assert_eq!(timer_add_handler(&mut m, &timer("w1", "1"), t0 + 30_000).status, "Complete");
    let mut previous = u64::MAX;
    for s in 30..=40 {
        let payload = payload_for(&m, "w1", t0 + s * 1_000).unwrap();
        match Directive::parse(&payload).unwrap() {
            Directive::Timer { remaining, total } => {
                assert_eq!(total, 180);
                assert!(remaining < previous);
                previous = remaining;
            }
            other => panic!("expected a timer, got {:?}", other),
        }
    }
    assert_eq!(payload_for(&m, "w1", t0 + 30_000).unwrap(), "TIMER 150/180");
    timer_add_handler(&mut m, &timer("w1", "1"), t0 + 40_000);
    assert_eq!(payload_for(&m, "w1", t0 + 40_000).unwrap(), "TIMER 200/240");
}

#[test]
fn non_persistent_eviction() {
    let mut m = manager();
    register_worker(&mut m, "REGISTER AA:BB:CC:DD:EE:02", ip(7), PORT);
    let plan = broadcast_plan(&m.snapshot());
    assert_eq!(plan.len(), 1);
    record_outcome(&mut m, &plan[0].mac_address, DeliveryOutcome::ConnectFailed);
    assert!(m.get_worker(W2).is_none());
    assert!(m.workers().iter().all(|w| w.mac_address != W2));
}

#[test]
fn persistent_deactivation() {
    let mut m = manager();
    register_worker(&mut m, "REGISTER AA:BB:CC:DD:EE:01", ip(5), PORT);
    message_handler(&mut m, &message(ALICE, "hello"));
    assert_eq!(payload_for(&m, ALICE, 0).unwrap(), "MESSAGE hello");
    record_outcome(&mut m, ALICE, DeliveryOutcome::ConnectFailed);
    let a = m.get_worker(ALICE).unwrap();
    assert!(!a.active);
    assert_eq!(a.ip_address, None);
    assert!(broadcast_plan(&m.snapshot()).is_empty());
    register_worker(&mut m, "REGISTER AA:BB:CC:DD:EE:01", ip(6), PORT);
    assert_eq!(payload_for(&m, ALICE, 0).unwrap(), "MESSAGE hello");
}
