use axxon_flash::endpoint::{PciBus, PciEndpoint, SlotFunction};

fn check_dev_fun(dev: u8, fun: u8, repr: &str) {
    assert!(dev < 0x20);
    assert!(fun < 0x08);
    match SlotFunction::parse(repr.as_bytes()) {
        None => panic!("{} failed to parse as SlotFunction", repr),
        Some(df) => assert_eq!(SlotFunction(dev << 3 | fun), df, "failed validing parsed {}", repr),
    }
}

fn check_dev_fun_canonical(dev: u8, fun: u8, repr: &str) {
    check_dev_fun(dev, fun, repr);
    assert_eq!(
        SlotFunction(dev << 3 | fun).format(),
        repr.as_bytes().to_vec(),
        "failed stringifying dev 0x{:02x} function {}",
        dev,
        fun
    );
}

fn check_invalid_dev_fun(repr: &str) {
    assert!(
        SlotFunction::parse(repr.as_bytes()).is_none(),
        "{:?} must not be a valid DEV.FUN",
        repr
    );
}

#[test]
fn parse_dev_function() {
    check_dev_fun(0b0_0000, 0b000, "0.0");
    check_dev_fun_canonical(0b0_0000, 0b000, "00.0");
    check_dev_fun_canonical(0b0_0000, 0b001, "00.1");
    check_dev_fun_canonical(0b0_0000, 0b111, "00.7");
    check_dev_fun_canonical(0b0_0001, 0b000, "01.0");
    check_dev_fun_canonical(0b0_0001, 0b001, "01.1");
    check_dev_fun_canonical(0b0_0001, 0b111, "01.7");
    check_dev_fun_canonical(0b1_0000, 0b000, "10.0");
    check_dev_fun_canonical(0b1_0000, 0b111, "10.7");
    check_dev_fun_canonical(0b1_1111, 0b011, "1f.3");
    check_dev_fun_canonical(0b1_1111, 0b111, "1f.7");
    check_invalid_dev_fun("");
    check_invalid_dev_fun(".");
    check_invalid_dev_fun("0.");
    check_invalid_dev_fun("00.");
    check_invalid_dev_fun("000.");
    check_invalid_dev_fun(".0");
    check_invalid_dev_fun(".00");
    check_invalid_dev_fun(".000");
    check_invalid_dev_fun("0");
    check_invalid_dev_fun("00");
    check_invalid_dev_fun("000");
    check_invalid_dev_fun("0000");
}

#[test]
fn parse_dev_function_rejects_octal_overflow() {
    check_invalid_dev_fun("00.8");
    check_invalid_dev_fun("20.0");
    check_invalid_dev_fun("1f.9");
}

#[test]
fn parse_endpoint_forms() {
    let ep = PciEndpoint::parse(b"0000:03:1f.3").expect("full form");
    assert_eq!(ep.bus, PciBus { domain: 0, bus: 3 });
    assert_eq!(ep.slot_function, SlotFunction(0x1f << 3 | 3));

    let short = PciEndpoint::parse(b"03:1f.3").expect("short form");
    assert_eq!(short, ep);

    let dom = PciEndpoint::parse(b"abcd:ff:00.0").expect("domain form");
    assert_eq!(dom.bus, PciBus { domain: 0xabcd, bus: 0xff });
    assert_eq!(dom.slot_function, SlotFunction(0));

    assert!(PciEndpoint::parse(b"").is_none());
    assert!(PciEndpoint::parse(b"0000:00:00:00.0").is_none());
    assert!(PciEndpoint::parse(b"00.0").is_none());
    assert!(PciEndpoint::parse(b"0000:00:20.0").is_none());
    assert!(PciEndpoint::parse(b"00000:00:00.0:").is_none());
}

#[test]
fn format_endpoint_canonical() {
    let ep = PciEndpoint::parse(b"abcd:07:1f.3").unwrap();
    assert_eq!(ep.format(), b"abcd:07:1f.3".to_vec());
    assert_eq!(PciEndpoint::parse(&ep.format()), Some(ep));
}

#[test]
fn parse_info_values() {
    let ep = PciEndpoint::parse(b"0000:01:00.0").unwrap();
    assert_eq!(ep.vendor(b"0x10b5").map(|v| v.0), Some(0x10b5));
    assert_eq!(ep.device(b"0x8112").map(|v| v.0), Some(0x8112));
    assert_eq!(ep.vendor(b"10b5"), None);
    assert_eq!(ep.vendor(b"0x"), None);
    assert_eq!(ep.vendor(b"0x10b5f"), None);
    let class = ep.class(b"0x060400").unwrap();
    assert_eq!(class.class_code.0, 0x06);
    assert_eq!(class.subclass_code.0, 0x04);
    assert_eq!(class.programming_interface.0, 0x00);
    assert_eq!(ep.secondary_bus(b"5").map(|b| b.bus), Some(5));
    assert_eq!(ep.secondary_bus(b"256"), None);
    assert_eq!(ep.is_enabled(b"0"), Some(false));
    assert_eq!(ep.is_enabled(b"1"), Some(true));
    assert_eq!(ep.is_enabled(b"2"), None);
    assert_eq!(ep.is_enabled(b""), None);
}

#[test]
fn scoped_enable_restores_state() {
    let ep = PciEndpoint::parse(b"0000:01:00.0").unwrap();

    // already enabled: nothing to do now, nothing to do on close
    let se = ep.scoped_enable(true);
    assert_eq!(se.close(), None);

    // disabled: the scope enables it now and directs a disable on close
    let se = ep.scoped_enable(false);
    assert_eq!(se.close(), Some(ep));
}
