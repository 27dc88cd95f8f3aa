use bobbin_cli::device::{search, select_one, Device, Filter, SelectError};

fn board(vid: u16, pid: u16, serial: &str) -> Device {
    Device {
        vendor_id: vid,
        product_id: pid,
        vendor_string: String::from("Atmel"),
        product_string: String::from("Arduino Due"),
        serial_number: String::from(serial),
        device_type: Some(String::from("arduino-due")),
        loader_type: Some(String::from("bossa")),
        debugger_type: None,
        bossa_path: None,
        cdc_path: Some(String::from("/dev/ttyACM0")),
        msd_path: None,
        openocd_serial: None,
        can_trace_itm: false,
    }
}

fn no_filter() -> Filter {
    Filter { vendor_id: None, product_id: None, serial_number: None, id_prefix: None, device_type: None }
}

#[test]
fn id_is_hash_of_identity() {
    let d = board(0x03eb, 0x2157, "ABC123");
    assert_eq!(d.id(), 0xe8cc2332155619aa);
    assert_eq!(d.id_hex(), b"e8cc2332155619aa".to_vec());
    assert_eq!(d.short_id(), b"e8cc2332".to_vec());
}

#[test]
fn id_of_empty_identity() {
    let mut d = board(0, 0, "");
    d.vendor_string = String::new();
    d.product_string = String::new();
    assert_eq!(d.id(), 0x582576ab0a1813f5);
}

#[test]
fn short_id_is_stable_and_ignores_other_fields() {
    let a = board(0x03eb, 0x2157, "ABC123");
    let mut b = board(0x03eb, 0x2157, "ABC123");
    b.cdc_path = None;
    b.debugger_type = Some(String::from("openocd"));
    assert_eq!(a.short_id(), b.short_id());
    let s = a.short_id();
    assert_eq!(s.len(), 8);
    assert!(s.iter().all(|c| c.is_ascii_hexdigit()));
    assert_ne!(a.short_id(), board(0x03eb, 0x2157, "ABC124").short_id());
}

#[test]
fn search_with_no_match_then_select_is_no_match() {
    let devs = vec![board(1, 2, "A"), board(1, 3, "B")];
    let mut f = no_filter();
    f.vendor_id = Some(9);
    let found = search(devs, &f);
    assert!(found.is_empty());
    assert_eq!(select_one(found).err(), Some(SelectError::NoMatch));
}

#[test]
fn search_with_many_matches_then_select_is_ambiguous() {
    let devs = vec![board(1, 2, "A"), board(1, 3, "B"), board(1, 2, "C"), board(4, 2, "D")];
    let mut f = no_filter();
    f.vendor_id = Some(1);
    let found = search(devs, &f);
    assert_eq!(found.len(), 3);
    assert_eq!(select_one(found).err(), Some(SelectError::AmbiguousMatch(3)));
}

#[test]
fn search_keeps_order_and_select_takes_the_one() {
    let devs = vec![board(1, 2, "XA1"), board(1, 3, "YB2"), board(1, 2, "ZA3")];
    let mut f = no_filter();
    f.serial_number = Some(String::from("A"));
    let found = search(devs.clone(), &f);
    let serials: Vec<&str> = found.iter().map(|d| d.serial_number.as_str()).collect();
    assert_eq!(serials, vec!["XA1", "ZA3"]);
    f.product_id = Some(2);
    f.serial_number = Some(String::from("A3"));
    let one = select_one(search(devs, &f)).unwrap();
    assert_eq!(one.serial_number, "ZA3");
}

#[test]
fn filter_by_id_prefix_and_type() {
    let d = board(0x03eb, 0x2157, "ABC123");
    let mut f = no_filter();
    f.id_prefix = Some(b"e8cc".to_vec());
    assert!(f.accepts(&d));
    f.id_prefix = Some(b"e8cd".to_vec());
    assert!(!f.accepts(&d));
    let mut g = no_filter();
    g.device_type = Some(String::from("arduino-due"));
    assert!(g.accepts(&d));
    g.device_type = Some(String::from("arduino"));
    assert!(!g.accepts(&d));
    g.serial_number = Some(String::new());
    g.device_type = None;
    assert!(g.accepts(&d));
}

#[test]
fn empty_enumeration_selects_nothing() {
    assert_eq!(search(vec![], &no_filter()).len(), 0);
    assert_eq!(select_one(vec![]).err(), Some(SelectError::NoMatch));
}
