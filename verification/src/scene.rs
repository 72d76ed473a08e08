//! Assembly of the observer-to-satellite overlay buffer. The coordinate
//! values themselves are opaque here: the function is generic, and the
//! rendering shell instantiates it with its single-precision scene
//! coordinates.

use vstd::prelude::*;

verus! {

/// Build a flat buffer of line segments from the observer to each visible
/// satellite: six values per segment, the observer's three coordinates
/// followed by the satellite's, in input order.
pub fn build_line_segments<T: Copy>(obs_scene: [T; 3], visible_sats: &[(u8, [T; 3])]) -> (buf: Vec<
    T,
>)
    ensures
        buf@.len() == visible_sats@.len() * 6,
        forall|i: int|
            0 <= i < visible_sats@.len() ==> {
                &&& #[trigger] buf@[6 * i] == obs_scene[0]
                &&& buf@[6 * i + 1] == obs_scene[1]
                &&& buf@[6 * i + 2] == obs_scene[2]
                &&& buf@[6 * i + 3] == (visible_sats@[i].1)[0]
                &&& buf@[6 * i + 4] == (visible_sats@[i].1)[1]
                &&& buf@[6 * i + 5] == (visible_sats@[i].1)[2]
            },
{
    let n = visible_sats.len();
    let mut buf: Vec<T> = Vec::new();
    let mut i: usize = 0;
    while i < n
        invariant
            i <= n,
            n == visible_sats@.len(),
            buf@.len() == i * 6,
            forall|j: int|
                0 <= j < i ==> {
                    &&& #[trigger] buf@[6 * j] == obs_scene[0]
                    &&& buf@[6 * j + 1] == obs_scene[1]
                    &&& buf@[6 * j + 2] == obs_scene[2]
                    &&& buf@[6 * j + 3] == (visible_sats@[j].1)[0]
                    &&& buf@[6 * j + 4] == (visible_sats@[j].1)[1]
                    &&& buf@[6 * j + 5] == (visible_sats@[j].1)[2]
                },
        decreases n - i,
    {
        let (_constellation_idx, sat_pos) = visible_sats[i];
        let ghost prev = buf@;
        buf.push(obs_scene[0]);
        buf.push(obs_scene[1]);
        buf.push(obs_scene[2]);
        buf.push(sat_pos[0]);
        buf.push(sat_pos[1]);
        buf.push(sat_pos[2]);
        proof {
            assert(buf@ =~= prev + seq![
                obs_scene[0],
                obs_scene[1],
                obs_scene[2],
                sat_pos[0],
                sat_pos[1],
                sat_pos[2],
            ]);
            assert forall|j: int| 0 <= j < i + 1 implies {
                &&& #[trigger] buf@[6 * j] == obs_scene[0]
                &&& buf@[6 * j + 1] == obs_scene[1]
                &&& buf@[6 * j + 2] == obs_scene[2]
                &&& buf@[6 * j + 3] == (visible_sats@[j].1)[0]
                &&& buf@[6 * j + 4] == (visible_sats@[j].1)[1]
                &&& buf@[6 * j + 5] == (visible_sats@[j].1)[2]
            } by {
                if j < i {
                    assert(prev[6 * j] == obs_scene[0]);
                    assert(buf@[6 * j] == prev[6 * j]);
                    assert(buf@[6 * j + 1] == prev[6 * j + 1]);
                    assert(buf@[6 * j + 2] == prev[6 * j + 2]);
                    assert(buf@[6 * j + 3] == prev[6 * j + 3]);
                    assert(buf@[6 * j + 4] == prev[6 * j + 4]);
                    assert(buf@[6 * j + 5] == prev[6 * j + 5]);
                } else {
                    assert(buf@[6 * j] == obs_scene[0]);
                    assert(buf@[6 * j + 1] == obs_scene[1]);
                    assert(buf@[6 * j + 2] == obs_scene[2]);
                    assert(buf@[6 * j + 3] == sat_pos[0]);
                    assert(buf@[6 * j + 4] == sat_pos[1]);
                    assert(buf@[6 * j + 5] == sat_pos[2]);
                }
            }
        }
        i = i + 1;
    }
    buf
}

} // verus!
