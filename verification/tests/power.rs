use wspr_qso::power::Power;

#[test]
fn watts_37_dbm_is_about_five() {
    let p = Power::from_dbm(37);
    assert_eq!(p.watts_e4(), 50119);
    let mut v: Vec<u8> = Vec::new();
    p.push_watts4(&mut v);
    assert_eq!(v, b"5.0119".to_vec());
    let mut t: Vec<u8> = Vec::new();
    p.push_text(&mut t);
    assert_eq!(t, b"5.0 W".to_vec());
}

#[test]
fn watts_0_dbm_is_one_milliwatt() {
    let p = Power::from_dbm(0);
    assert_eq!(p.watts_e4(), 10);
    let mut v: Vec<u8> = Vec::new();
    p.push_watts4(&mut v);
    assert_eq!(v, b"0.0010".to_vec());
    let mut t: Vec<u8> = Vec::new();
    p.push_text(&mut t);
    assert_eq!(t, b"1.0 mW".to_vec());
}

#[test]
fn watts_scaled_units() {
    let mut t: Vec<u8> = Vec::new();
    Power::from_dbm(60).push_text(&mut t);
    assert_eq!(t, b"1.0 kW".to_vec());
    let mut t: Vec<u8> = Vec::new();
    Power::from_dbm(20).push_text(&mut t);
    assert_eq!(t, b"100 mW".to_vec());
    let mut t: Vec<u8> = Vec::new();
    Power::from_dbm(23).push_text(&mut t);
    assert_eq!(t, b"200 mW".to_vec());
    let mut t: Vec<u8> = Vec::new();
    Power::from_dbm(-3).push_text(&mut t);
    // 0.5 mW, shown in microwatts
    assert_eq!(t, "500 µW".as_bytes().to_vec());
}
