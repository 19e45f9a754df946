use indev::actions::compile;
use indev::actions::GroupKind;
use indev::actions::Invocation;
use indev::registry::scan_devices;
use indev::resolve::actions;
use indev::resolve::baction;
use indev::resolve::bactions;
use indev::resolve::dquery;
use indev::resolve::qdevices;
use indev::resolve::DevicePool;

fn registry_text() -> Vec<u8> {
    b"I: Bus=0003 Vendor=045e Product=028e Version=0114\n\
N: Name=\"Gamepad 1\"\n\
P: Phys=usb-1\n\
S: Sysfs=/devices/input5\n\
U: Uniq=\n\
H: Handlers=js0 event17\n\
B: EV=20001b\n\n\
I: Bus=0003 Vendor=046d Product=c31c Version=0110\n\
N: Name=\"USB Keyboard\"\n\
P: Phys=usb-2\n\
S: Sysfs=/devices/input6\n\
U: Uniq=\n\
H: Handlers=sysrq kbd event3\n\
B: EV=120013\n\n\
I: Bus=0005 Vendor=045e Product=0042 Version=0300\n\
N: Name=\"Gamepad 2\"\n\
P: Phys=usb-3\n\
S: Sysfs=/devices/input7\n\
U: Uniq=\n\
H: Handlers=js1\n\
B: EV=20001b"
        .to_vec()
}

fn pool() -> DevicePool {
    DevicePool::new(scan_devices(&registry_text()).unwrap())
}

fn groups_of(words: &[&str]) -> Vec<indev::actions::ActionGroup> {
    let toks: Vec<Vec<u8>> = words.iter().map(|w| w.as_bytes().to_vec()).collect();
    match compile(&toks).unwrap() {
        Invocation::Groups(gs) => gs,
        _ => panic!("expected groups"),
    }
}

#[test]
fn a_claimed_device_is_not_claimed_again() {
    // Two query groups from one invocation: the second gets the first
    // group's leavings, never a record the first already claimed.
    let mut p = pool();
    let gs = groups_of(&["-q", "Gamepad", "-q"]);
    let acts = actions(&gs, &mut p);
    assert_eq!(acts.len(), 2);
    assert_eq!(acts[0].indices, vec![0, 2]);
    assert_eq!(acts[1].indices, vec![1]);
    for i in &acts[0].indices {
        assert!(!acts[1].indices.contains(i));
    }
}

#[test]
fn identical_groups_claim_once() {
    let mut p = pool();
    let gs = groups_of(&["-q", "Gamepad", "-q", "Gamepad"]);
    let acts = actions(&gs, &mut p);
    assert_eq!(acts[0].indices, vec![0, 2]);
    assert_eq!(acts[1].indices, Vec::<usize>::new());
}

#[test]
fn dquery_marks_the_pool() {
    let mut p = pool();
    let pats: Vec<Vec<u8>> = vec![b"Keyboard".to_vec()];
    let a = dquery(&pats, &mut p);
    assert_eq!(a.indices, vec![1]);
    assert!(p.taken[1]);
    assert!(!p.taken[0]);
    assert!(!p.taken[2]);
}

#[test]
fn bind_targets_need_an_event_handler() {
    // "Gamepad" claims records 0 and 2, but record 2 exposes no event
    // node, so it is dropped from the target set silently.
    let mut p = pool();
    let gs = groups_of(&["-b", "Gamepad"]);
    let acts = actions(&gs, &mut p);
    assert_eq!(acts[0].indices, vec![0, 2]);
    let ts = baction(&acts[0], &p);
    assert_eq!(ts.len(), 1);
    assert_eq!(ts[0].name, b"Gamepad 1".to_vec());
    assert_eq!(ts[0].event, b"event17".to_vec());
    assert!(ts[0].opts.raw);
    assert!(ts[0].opts.stdout);
}

#[test]
fn bactions_flatten_in_order() {
    let mut p = pool();
    let gs = groups_of(&["-b", "Keyboard", "-b", "Gamepad"]);
    let acts = actions(&gs, &mut p);
    let ts = bactions(&acts, &p);
    assert_eq!(ts.len(), 2);
    assert_eq!(ts[0].name, b"USB Keyboard".to_vec());
    assert_eq!(ts[1].name, b"Gamepad 1".to_vec());
}

#[test]
fn qdevices_flatten_query_indices() {
    let mut p = pool();
    let gs = groups_of(&["-q", "Keyboard", "-q", "Gamepad"]);
    let acts = actions(&gs, &mut p);
    assert_eq!(qdevices(&acts), vec![1, 0, 2]);
}

#[test]
fn a_query_action_yields_no_targets() {
    let mut p = pool();
    let gs = groups_of(&["-q", "Gamepad"]);
    let acts = actions(&gs, &mut p);
    assert!(matches!(acts[0].kind, GroupKind::Query));
    assert!(baction(&acts[0], &p).is_empty());
}
