//! Constellation classification and display colors.

use gnss_constellation::constellation::classify_constellation;
use gnss_constellation::constellation::constellation_color;
use gnss_constellation::constellation::CONSTELLATION_BEIDOU;
use gnss_constellation::constellation::CONSTELLATION_GALILEO;
use gnss_constellation::constellation::CONSTELLATION_GLONASS;
use gnss_constellation::constellation::CONSTELLATION_GPS;
use gnss_constellation::constellation::CONSTELLATION_OTHER;

#[test]
fn test_classify_constellation() {
    assert_eq!(classify_constellation("GPS BIIA-10", 11054), CONSTELLATION_GPS);
    assert_eq!(classify_constellation("NAVSTAR 68", 40534), CONSTELLATION_GPS);
    assert_eq!(classify_constellation("GLONASS-M 752", 32276), CONSTELLATION_GLONASS);
    assert_eq!(classify_constellation("COSMOS 2471", 37139), CONSTELLATION_GLONASS);
    assert_eq!(classify_constellation("GSAT0211", 41859), CONSTELLATION_GALILEO);
    assert_eq!(classify_constellation("GALILEO 5", 37846), CONSTELLATION_GALILEO);
    assert_eq!(classify_constellation("BEIDOU-3 M1", 43001), CONSTELLATION_BEIDOU);
    assert_eq!(classify_constellation("UNKNOWN SAT", 99999), CONSTELLATION_OTHER);
}

#[test]
fn test_classify_constellation_case_insensitive() {
    assert_eq!(classify_constellation("gps biia-10", 11054), CONSTELLATION_GPS);
    assert_eq!(classify_constellation("Glonass-M 752", 32276), CONSTELLATION_GLONASS);
    assert_eq!(classify_constellation("galileo 5", 37846), CONSTELLATION_GALILEO);
    assert_eq!(classify_constellation("beidou-3 m1", 43001), CONSTELLATION_BEIDOU);
}

#[test]
fn test_classify_constellation_beidou_substring() {
    // "BEIDOU" anywhere in the name counts, and so does a "BDSM" prefix
    assert_eq!(classify_constellation("XW BEIDOU 5", 50000), CONSTELLATION_BEIDOU);
    assert_eq!(classify_constellation("BDSM-101", 50001), CONSTELLATION_BEIDOU);
}

#[test]
fn test_classify_constellation_priority() {
    // Rules are checked in order: a GPS prefix wins over a BEIDOU substring
    assert_eq!(classify_constellation("GPS BEIDOU", 1), CONSTELLATION_GPS);
    // The empty name is Other
    assert_eq!(classify_constellation("", 2), CONSTELLATION_OTHER);
}

#[test]
fn test_constellation_color_known() {
    assert_eq!(constellation_color(0), [57, 255, 20]);
    assert_eq!(constellation_color(1), [255, 68, 68]);
    assert_eq!(constellation_color(2), [0, 255, 204]);
    assert_eq!(constellation_color(3), [255, 170, 0]);
}

#[test]
fn test_constellation_color_unknown() {
    assert_eq!(constellation_color(4), [128, 128, 128]);
    assert_eq!(constellation_color(255), [128, 128, 128]);
}
