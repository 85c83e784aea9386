use reo::data::Data;

#[test]
fn simple_int() {
    let i = 42;
    let d = Data::from_int(i);
    assert_eq!(i, d.as_int().unwrap());
    assert_eq!("00-00-00-00-00-00-00-2A", d.as_hex());
}

#[test]
fn simple_bool() {
    let b = true;
    let d = Data::from_bool(b);
    assert_eq!(b, d.as_bool().unwrap());
    assert_eq!("01", d.as_hex());
}

#[test]
fn compares_with_data() {
    let i = 42;
    let left = Data::from_int(i);
    let right = Data::from_int(i);
    assert_eq!(left, right);
}

#[test]
fn prints_bytes() {
    let txt = "привет";
    let d = Data::from_str(txt);
    assert_eq!("D0-BF-D1-80-D0-B8-D0-B2-D0-B5-D1-82", d.as_hex());
    assert_eq!(txt, Data::from_hex(d.as_hex()).as_string().unwrap());
}

#[test]
fn prints_empty_bytes() {
    let txt = "";
    let d = Data::from_str(txt);
    assert_eq!("--", d.as_hex());
}

#[test]
fn broken_int_from_small_data() {
    let d = Data::from_bytes([0x01, 0x02].to_vec());
    let ret = d.as_int();
    assert!(ret.is_err());
}

#[test]
fn negative_int_keeps_its_sign() {
    let d = Data::from_int(-2);
    assert_eq!("FF-FF-FF-FF-FF-FF-FF-FE", d.as_hex());
    assert_eq!(-2, d.as_int().unwrap());
    assert_eq!(i64::MIN, Data::from_int(i64::MIN).as_int().unwrap());
    assert_eq!(i64::MAX, Data::from_int(i64::MAX).as_int().unwrap());
}

#[test]
fn hex_of_either_case_is_read() {
    let d = Data::try_from_hex("ca-FE-0a").unwrap();
    assert_eq!(vec![0xCA, 0xFE, 0x0A], d.as_bytes());
    assert!(Data::try_from_hex("C").is_none());
    assert!(Data::try_from_hex("CG").is_none());
    assert!(Data::try_from_hex("привет").is_none());
    assert!(Data::try_from_hex("").unwrap().is_empty());
    assert!(Data::try_from_hex("--").unwrap().is_empty());
}

#[test]
fn bytes_that_are_no_text_are_refused() {
    let d = Data::from_bytes(vec![0xFF, 0xFE]);
    assert!(d.as_string().is_err());
    assert_eq!("AB", Data::from_bytes(vec![0x41, 0x42]).as_string().unwrap());
}

#[test]
fn bool_of_nothing_is_refused() {
    assert!(Data::empty().as_bool().is_err());
    assert!(!Data::from_bool(false).as_bool().unwrap());
    assert!(Data::empty().is_empty());
    assert!(!Data::from_bool(false).is_empty());
}
