use indev::registry::scan_device;
use indev::registry::scan_devices;
use indev::registry::serialize_device;
use indev::registry::serialize_devices;
use indev::registry::filter_devices;
use indev::registry::hex_decode;
use indev::registry::InputDevice;
use indev::registry::RegistryError;

fn gamepad_block() -> Vec<u8> {
    b"I: Bus=0003 Vendor=045e Product=028e Version=0114\n\
N: Name=\"Gamepad 1\"\n\
P: Phys=usb-0000:00:14.0-1/input0\n\
S: Sysfs=/devices/pci0000:00/input/input5\n\
U: Uniq=\n\
H: Handlers=js0 event17\n\
B: PROP=0\n\
B: EV=20001b\n\
B: KEY=7fdb000000000000\n\
B: ABS=3003f"
        .to_vec()
}

fn keyboard_block() -> Vec<u8> {
    b"I: Bus=0003 Vendor=046d Product=c31c Version=0110\n\
N: Name=\"USB Keyboard\"\n\
P: Phys=usb-0000:00:14.0-2/input0\n\
S: Sysfs=/devices/pci0000:00/input/input6\n\
U: Uniq=12\n\
H: Handlers=sysrq kbd event3 \n\
B: PROP=0\n\
B: EV=120013"
        .to_vec()
}

fn registry_text() -> Vec<u8> {
    let mut t = gamepad_block();
    t.extend_from_slice(b"\n\n");
    t.extend_from_slice(&keyboard_block());
    t
}

#[test]
fn scans_one_block() {
    let d = scan_device(&gamepad_block()).unwrap();
    assert_eq!(d.i.bus_type, 0x0003);
    assert_eq!(d.i.vendor, 0x045e);
    assert_eq!(d.i.product, 0x028e);
    assert_eq!(d.i.version, 0x0114);
    assert_eq!(d.n, b"Gamepad 1".to_vec());
    assert_eq!(d.p, b"usb-0000:00:14.0-1/input0".to_vec());
    assert_eq!(d.s, b"/devices/pci0000:00/input/input5".to_vec());
    assert_eq!(d.u, None);
    assert_eq!(d.h, vec![b"js0".to_vec(), b"event17".to_vec()]);
    assert_eq!(d.b.prop, Some(0));
    assert_eq!(d.b.ev, Some(0x20001b));
    assert_eq!(d.b.key, Some(b"7fdb000000000000".to_vec()));
    assert_eq!(d.b.abs, Some(0x3003f));
    assert_eq!(d.b.rel, None);
}

#[test]
fn scans_two_blocks() {
    let ds = scan_devices(&registry_text()).unwrap();
    assert_eq!(ds.len(), 2);
    assert_eq!(ds[0].n, b"Gamepad 1".to_vec());
    assert_eq!(ds[1].n, b"USB Keyboard".to_vec());
    assert_eq!(ds[1].u, Some(12));
    // the trailing space of the handlers line adds no empty token
    assert_eq!(
        ds[1].h,
        vec![b"sysrq".to_vec(), b"kbd".to_vec(), b"event3".to_vec()]
    );
}

#[test]
fn trailing_blank_line_is_skipped() {
    let mut t = registry_text();
    t.extend_from_slice(b"\n\n");
    let ds = scan_devices(&t).unwrap();
    assert_eq!(ds.len(), 2);
}

#[test]
fn round_trips_known_fields() {
    // Parsing and re-serializing keeps every known field: the re-parsed
    // records equal the first parse field for field.
    let ds = scan_devices(&registry_text()).unwrap();
    let text2 = serialize_devices(&ds);
    let ds2 = scan_devices(&text2).unwrap();
    assert_eq!(ds.len(), ds2.len());
    for (a, b) in ds.iter().zip(ds2.iter()) {
        assert_eq!(a.i, b.i);
        assert_eq!(a.n, b.n);
        assert_eq!(a.p, b.p);
        assert_eq!(a.s, b.s);
        assert_eq!(a.u, b.u);
        assert_eq!(a.h, b.h);
        assert_eq!(a.b.prop, b.b.prop);
        assert_eq!(a.b.ev, b.b.ev);
        assert_eq!(a.b.key, b.b.key);
        assert_eq!(a.b.abs, b.b.abs);
        assert_eq!(a.b.sw, b.b.sw);
    }
}

#[test]
fn serializes_one_record_back_to_its_text() {
    let d = scan_device(&gamepad_block()).unwrap();
    let text = serialize_device(&d);
    let d2 = scan_device(&text).unwrap();
    assert_eq!(d.n, d2.n);
    assert_eq!(d.h, d2.h);
    assert_eq!(d.b.ev, d2.b.ev);
    assert_eq!(d.b.key, d2.b.key);
}

#[test]
fn missing_line_is_fatal() {
    let t = b"I: Bus=0003 Vendor=045e Product=028e Version=0114\n\
N: Name=\"x\"\n\
P: Phys=p\n\
S: Sysfs=s\n\
U: Uniq=";
    assert_eq!(scan_device(t).err(), Some(RegistryError::MissingLine));
}

#[test]
fn wrong_tag_is_fatal() {
    let t = b"X: Bus=0003 Vendor=045e Product=028e Version=0114\n\
N: Name=\"x\"\n\
P: Phys=p\n\
S: Sysfs=s\n\
U: Uniq=\n\
H: Handlers=";
    assert_eq!(scan_device(t).err(), Some(RegistryError::BadPrefix));
}

#[test]
fn bad_hex_is_fatal() {
    let t = b"I: Bus=zzzz Vendor=045e Product=028e Version=0114\n\
N: Name=\"x\"\n\
P: Phys=p\n\
S: Sysfs=s\n\
U: Uniq=\n\
H: Handlers=";
    assert_eq!(scan_device(t).err(), Some(RegistryError::BadPayload));
}

#[test]
fn bad_bitmap_is_fatal() {
    let t = b"I: Bus=0003 Vendor=045e Product=028e Version=0114\n\
N: Name=\"x\"\n\
P: Phys=p\n\
S: Sysfs=s\n\
U: Uniq=\n\
H: Handlers=\n\
B: EV=nothex";
    assert_eq!(scan_device(t).err(), Some(RegistryError::BadPayload));
}

#[test]
fn uniq_needs_a_small_decimal() {
    let mut block = gamepad_block();
    let patched = String::from_utf8(block.clone())
        .unwrap()
        .replace("U: Uniq=", "U: Uniq=999");
    block = patched.into_bytes();
    let d = scan_device(&block).unwrap();
    assert_eq!(d.u, None);
}

#[test]
fn handlers_drop_duplicates() {
    let t = b"I: Bus=0003 Vendor=045e Product=028e Version=0114\n\
N: Name=\"x\"\n\
P: Phys=p\n\
S: Sysfs=s\n\
U: Uniq=\n\
H: Handlers=kbd event0 kbd";
    let d = scan_device(t).unwrap();
    assert_eq!(d.h, vec![b"kbd".to_vec(), b"event0".to_vec()]);
}

#[test]
fn queries_match_all_patterns() {
    // One pattern, two patterns, and a miss against the two-device registry.
    let ds = scan_devices(&registry_text()).unwrap();
    let one: Vec<Vec<u8>> = vec![b"Gamepad".to_vec()];
    assert_eq!(filter_devices(&ds, &one), vec![0]);
    let two: Vec<Vec<u8>> = vec![b"pad".to_vec(), b"1".to_vec()];
    assert_eq!(filter_devices(&ds, &two), vec![0]);
    let miss: Vec<Vec<u8>> = vec![b"xyz".to_vec()];
    assert_eq!(filter_devices(&ds, &miss), Vec::<usize>::new());
}

#[test]
fn pattern_order_does_not_matter() {
    let ds = scan_devices(&registry_text()).unwrap();
    let ab: Vec<Vec<u8>> = vec![b"USB".to_vec(), b"Key".to_vec()];
    let ba: Vec<Vec<u8>> = vec![b"Key".to_vec(), b"USB".to_vec()];
    assert_eq!(filter_devices(&ds, &ab), filter_devices(&ds, &ba));
    assert_eq!(filter_devices(&ds, &ab), vec![1]);
}

#[test]
fn no_patterns_match_everything() {
    let ds = scan_devices(&registry_text()).unwrap();
    let none: Vec<Vec<u8>> = Vec::new();
    assert_eq!(filter_devices(&ds, &none), vec![0, 1]);
}

#[test]
fn device_accessors() {
    let ds = scan_devices(&registry_text()).unwrap();
    assert_eq!(ds[0].name(), &b"Gamepad 1".to_vec());
    assert_eq!(ds[0].event(), Some(&b"event17".to_vec()));
    let no_event: &InputDevice = &scan_device(
        b"I: Bus=0003 Vendor=045e Product=028e Version=0114\n\
N: Name=\"x\"\n\
P: Phys=p\n\
S: Sysfs=s\n\
U: Uniq=\n\
H: Handlers=js0",
    )
    .unwrap();
    assert_eq!(no_event.event(), None);
}

#[test]
fn hex_decode_reads_base_16() {
    assert_eq!(hex_decode(b"20001b"), Ok(0x20001b));
    assert_eq!(hex_decode(b"0"), Ok(0));
    assert_eq!(hex_decode(b"ffffffffffffffff"), Ok(u64::MAX));
    assert_eq!(hex_decode(b"120013"), Ok(0x120013));
    assert_eq!(hex_decode(b"not hex"), Err(RegistryError::BadPayload));
    assert_eq!(hex_decode(b""), Err(RegistryError::BadPayload));
    assert_eq!(
        hex_decode(b"10000000000000000"),
        Err(RegistryError::BadPayload)
    );
}
