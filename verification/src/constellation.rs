//! Constellation classification and display colors. A satellite is assigned
//! to a constellation by case-insensitive name rules checked in a fixed
//! priority order; the NORAD catalog id is accepted but not consulted.

use crate::chars::str_to_chars;
use vstd::prelude::*;

verus! {

/// Constellation tag for GPS satellites.
pub const CONSTELLATION_GPS: u8 = 0;

/// Constellation tag for GLONASS satellites.
pub const CONSTELLATION_GLONASS: u8 = 1;

/// Constellation tag for Galileo satellites.
pub const CONSTELLATION_GALILEO: u8 = 2;

/// Constellation tag for BeiDou satellites.
pub const CONSTELLATION_BEIDOU: u8 = 3;

/// Constellation tag for everything else.
pub const CONSTELLATION_OTHER: u8 = 4;

/// `c` matches the uppercase-letter pattern character `u` up to ASCII case:
/// either they are equal, or `c` is the lowercase letter 32 code points
/// above `u`. For patterns drawn from A-Z this is exactly "ASCII-uppercasing
/// `c` yields `u`".
pub open spec fn ci_matches(c: char, u: char) -> bool {
    c == u || ('a' <= c && c <= 'z' && c as int == u as int + 32)
}

/// `s` starts with the uppercase pattern `p`, comparing case-insensitively.
pub open spec fn prefix_ci(s: Seq<char>, p: Seq<char>) -> bool {
    s.len() >= p.len() && forall|i: int| 0 <= i < p.len() ==> ci_matches(s[i], #[trigger] p[i])
}

/// The uppercase pattern `p` occurs at offset `k` of `s`, comparing
/// case-insensitively.
pub open spec fn matches_at(s: Seq<char>, p: Seq<char>, k: int) -> bool {
    k + p.len() <= s.len() && forall|i: int|
        0 <= i < p.len() ==> ci_matches(s[k + i], #[trigger] p[i])
}

/// The uppercase pattern `p` occurs somewhere in `s`, comparing
/// case-insensitively.
pub open spec fn contains_ci(s: Seq<char>, p: Seq<char>) -> bool {
    exists|k: int| 0 <= k && matches_at(s, p, k)
}

/// The classification rules, in priority order: GPS names, then GLONASS,
/// then Galileo, then BeiDou, then everything else.
pub open spec fn spec_classify(name: Seq<char>) -> u8 {
    if prefix_ci(name, "GPS"@) || prefix_ci(name, "NAVSTAR"@) {
        CONSTELLATION_GPS
    } else if prefix_ci(name, "GLONASS"@) || prefix_ci(name, "COSMOS"@) {
        CONSTELLATION_GLONASS
    } else if prefix_ci(name, "GSAT"@) || prefix_ci(name, "GALILEO"@) {
        CONSTELLATION_GALILEO
    } else if prefix_ci(name, "BEIDOU"@) || prefix_ci(name, "BDSM"@) || contains_ci(
        name,
        "BEIDOU"@,
    ) {
        CONSTELLATION_BEIDOU
    } else {
        CONSTELLATION_OTHER
    }
}

/// `c` matches `u` up to ASCII case; the executable mirror of `ci_matches`.
fn ci_eq(c: char, u: char) -> (r: bool)
    ensures
        r == ci_matches(c, u),
{
    c == u || ('a' <= c && c <= 'z' && (c as u64) == (u as u64) + 32)
}

/// Case-insensitive prefix test against an uppercase pattern.
fn prefix_ci_exec(name: &Vec<char>, pat: &str) -> (r: bool)
    ensures
        r == prefix_ci(name@, pat@),
{
    let n = pat.unicode_len();
    if name.len() < n {
        return false;
    }
    let mut i: usize = 0;
    while i < n
        invariant
            i <= n,
            n == pat@.len(),
            n <= name@.len(),
            forall|j: int| 0 <= j < i ==> ci_matches(name@[j], #[trigger] pat@[j]),
        decreases n - i,
    {
        if !ci_eq(name[i], pat.get_char(i)) {
            return false;
        }
        i = i + 1;
    }
    true
}

/// Case-insensitive occurrence of an uppercase pattern at offset `k`.
fn matches_at_exec(name: &Vec<char>, pat: &str, k: usize) -> (r: bool)
    requires
        k + pat@.len() <= name@.len(),
    ensures
        r == matches_at(name@, pat@, k as int),
{
    let n = pat.unicode_len();
    let nl = name.len();
    let mut i: usize = 0;
    while i < n
        invariant
            i <= n,
            n == pat@.len(),
            nl == name@.len(),
            k + n <= nl,
            forall|j: int| 0 <= j < i ==> ci_matches(name@[k + j], #[trigger] pat@[j]),
        decreases n - i,
    {
        if !ci_eq(name[k + i], pat.get_char(i)) {
            return false;
        }
        i = i + 1;
    }
    true
}

/// Case-insensitive substring test against an uppercase pattern.
fn contains_ci_exec(name: &Vec<char>, pat: &str) -> (r: bool)
    ensures
        r == contains_ci(name@, pat@),
{
    let n = pat.unicode_len();
    let nl = name.len();
    if n == 0 {
        assert(matches_at(name@, pat@, 0));
        return true;
    }
    if nl < n {
        assert(forall|k: int| 0 <= k ==> !matches_at(name@, pat@, k));
        return false;
    }
    let last = nl - n;
    let mut k: usize = 0;
    while k <= last
        invariant
            k <= last + 1,
            nl == name@.len(),
            last + n == nl,
            1 <= n == pat@.len(),
            forall|j: int| 0 <= j < k ==> !matches_at(name@, pat@, j),
        decreases last - k + 1,
    {
        if matches_at_exec(name, pat, k) {
            return true;
        }
        k = k + 1;
    }
    assert(forall|j: int| 0 <= j ==> !matches_at(name@, pat@, j)) by {
        assert(forall|j: int| j > last ==> !matches_at(name@, pat@, j));
    }
    false
}

/// Classify a satellite by its name; the catalog id is accepted for
/// interface compatibility but takes no part in the decision.
///
/// Rules, checked in priority order and case-insensitively:
/// "GPS"/"NAVSTAR" prefix -> GPS; "GLONASS"/"COSMOS" prefix -> GLONASS;
/// "GSAT"/"GALILEO" prefix -> Galileo; "BEIDOU"/"BDSM" prefix or "BEIDOU"
/// anywhere -> BeiDou; anything else -> Other.
pub fn classify_constellation(name: &str, _norad_id: u64) -> (c: u8)
    ensures
        c == spec_classify(name@),
        c <= CONSTELLATION_OTHER,
{
    let cs = str_to_chars(name);
    if prefix_ci_exec(&cs, "GPS") || prefix_ci_exec(&cs, "NAVSTAR") {
        return CONSTELLATION_GPS;
    }
    if prefix_ci_exec(&cs, "GLONASS") || prefix_ci_exec(&cs, "COSMOS") {
        return CONSTELLATION_GLONASS;
    }
    if prefix_ci_exec(&cs, "GSAT") || prefix_ci_exec(&cs, "GALILEO") {
        return CONSTELLATION_GALILEO;
    }
    if prefix_ci_exec(&cs, "BEIDOU") || prefix_ci_exec(&cs, "BDSM") || contains_ci_exec(
        &cs,
        "BEIDOU",
    ) {
        return CONSTELLATION_BEIDOU;
    }
    CONSTELLATION_OTHER
}

/// The display color of each constellation tag: GPS neon green, GLONASS
/// red, Galileo cyan, BeiDou orange, grey otherwise.
pub open spec fn spec_color(idx: u8) -> Seq<u8> {
    if idx == 0 {
        seq![57u8, 255u8, 20u8]
    } else if idx == 1 {
        seq![255u8, 68u8, 68u8]
    } else if idx == 2 {
        seq![0u8, 255u8, 204u8]
    } else if idx == 3 {
        seq![255u8, 170u8, 0u8]
    } else {
        seq![128u8, 128u8, 128u8]
    }
}

/// RGB color for a constellation tag, shared by the scene dots and the
/// sky-plot overlay.
pub fn constellation_color(idx: u8) -> (rgb: [u8; 3])
    ensures
        rgb@ == spec_color(idx),
{
    let rgb: [u8; 3] = match idx {
        0 => [57, 255, 20],
        1 => [255, 68, 68],
        2 => [0, 255, 204],
        3 => [255, 170, 0],
        _ => [128, 128, 128],
    };
    assert(rgb@ =~= spec_color(idx));
    rgb
}

} // verus!
