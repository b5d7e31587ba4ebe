use wspr_qso::band::{classify, Band};

#[test]
fn band_2200m_lower_region() {
    assert_eq!(classify(136_000), Some(Band::M2200));
}

#[test]
fn band_gap_fails_classification() {
    assert_eq!(classify(137_900_000), None);
}

#[test]
fn band_2200m_edges() {
    assert_eq!(classify(135_700), Some(Band::M2200));
    assert_eq!(classify(137_800), Some(Band::M2200));
    assert_eq!(classify(135_699), None);
    assert_eq!(classify(137_801), None);
}

#[test]
fn band_20m_and_2m() {
    assert_eq!(classify(14_097_100), Some(Band::M20));
    assert_eq!(classify(144_000_000), Some(Band::M2));
}

#[test]
fn band_highest_and_beyond() {
    assert_eq!(classify(250_000_000_000), Some(Band::Mm1));
    assert_eq!(classify(250_000_000_001), None);
}

#[test]
fn band_texts() {
    let b = Band::M2200;
    assert_eq!(b.designator(), "2200");
    assert_eq!(b.unit(), "m");
    let mut tag: Vec<u8> = Vec::new();
    b.push_tag(&mut tag);
    assert_eq!(tag, b"2200m".to_vec());
    let mut text: Vec<u8> = Vec::new();
    b.push_text(&mut text);
    assert_eq!(text, b"2200 m".to_vec());
}
