use vstd::prelude::*;

use crate::layout::Rect;

verus! {

/// A direction of focus movement.
#[derive(Debug, Clone, Copy, PartialEq, Eq, Structural)]
pub enum Dir {
    Up,
    Down,
    Left,
    Right,
}

/// The column of a rectangle's centre (rounded down).
pub open spec fn center_x(r: Rect) -> int {
    r.x as int + r.width as int / 2
}

/// The row of a rectangle's centre (rounded down).
pub open spec fn center_y(r: Rect) -> int {
    r.y as int + r.height as int / 2
}

pub open spec fn abs(v: int) -> int {
    if v < 0 {
        -v
    } else {
        v
    }
}

/// The centre of `r` lies strictly on the `dir` side of the centre of `src`.
pub open spec fn lies_toward(dir: Dir, src: Rect, r: Rect) -> bool {
    match dir {
        Dir::Left => center_x(r) < center_x(src),
        Dir::Right => center_x(r) > center_x(src),
        Dir::Up => center_y(r) < center_y(src),
        Dir::Down => center_y(r) > center_y(src),
    }
}

/// Ten times the distance between the centres along `dir`, plus the distance across it.
pub open spec fn nav_distance(dir: Dir, src: Rect, r: Rect) -> int {
    let dx = abs(center_x(src) - center_x(r));
    let dy = abs(center_y(src) - center_y(r));
    match dir {
        Dir::Left | Dir::Right => dx * 10 + dy,
        Dir::Up | Dir::Down => dy * 10 + dx,
    }
}

/// Zone `i` is one that focus can move to from zone `from` in direction `dir`.
pub open spec fn is_candidate(zones: Seq<Rect>, from: int, dir: Dir, i: int) -> bool {
    &&& 0 <= i < zones.len()
    &&& i != from
    &&& lies_toward(dir, zones[from], zones[i])
}

/// Zone `i` is the candidate at the least distance, the first one among equals.
pub open spec fn is_nearest(zones: Seq<Rect>, from: int, dir: Dir, i: int) -> bool {
    &&& is_candidate(zones, from, dir, i)
    &&& forall|j: int|
        #[trigger] is_candidate(zones, from, dir, j) ==> nav_distance(dir, zones[from], zones[i]) <= nav_distance(
            dir,
            zones[from],
            zones[j],
        )
    &&& forall|j: int|
        0 <= j < i && #[trigger] is_candidate(zones, from, dir, j) ==> nav_distance(
            dir,
            zones[from],
            zones[j],
        ) > nav_distance(dir, zones[from], zones[i])
}

fn centre(r: Rect) -> (c: (i32, i32))
    ensures
        c.0 as int == center_x(r),
        c.1 as int == center_y(r),
{
    (r.x as i32 + r.width as i32 / 2, r.y as i32 + r.height as i32 / 2)
}

/// Returns the index of the nearest zone in the given direction from `current`.
/// If `current` is None (no focus) or out of range, picks the first zone;
/// with no zones there is none to pick.
pub fn find_neighbor(zones: &[Rect], current: Option<usize>, dir: Dir) -> (r: Option<usize>)
    ensures
        zones@.len() == 0 ==> r is None,
        zones@.len() > 0 && (current is None || current->0 >= zones@.len()) ==> r == Some(0usize),
        zones@.len() > 0 && current is Some && current->0 < zones@.len() ==> {
            &&& r matches Some(i) ==> is_nearest(zones@, current->0 as int, dir, i as int)
            &&& r is None ==> forall|j: int| !is_candidate(zones@, current->0 as int, dir, j)
        },
{
    if zones.len() == 0 {
        return None;
    }
    let idx = match current {
        Some(i) => {
            if i < zones.len() {
                i
            } else {
                return Some(0);
            }
        },
        None => return Some(0),
    };
    let ghost zs = zones@;
    let (src_cx, src_cy) = centre(zones[idx]);
    let mut best_idx: Option<usize> = None;
    let mut best_dist: i64 = i64::MAX;
    let n = zones.len();
    for i in 0..n
        invariant
            n == zs.len(),
            zs == zones@,
            idx < n,
            src_cx as int == center_x(zs[idx as int]),
            src_cy as int == center_y(zs[idx as int]),
            best_idx is None ==> best_dist == i64::MAX,
            best_idx is None ==> forall|j: int| 0 <= j < i ==> !is_candidate(zs, idx as int, dir, j),
            best_idx matches Some(b) ==> {
                &&& b < i
                &&& is_candidate(zs, idx as int, dir, b as int)
                &&& best_dist as int == nav_distance(dir, zs[idx as int], zs[b as int])
                &&& forall|j: int|
                    0 <= j < i && #[trigger] is_candidate(zs, idx as int, dir, j) ==> nav_distance(
                        dir,
                        zs[idx as int],
                        zs[b as int],
                    ) <= nav_distance(dir, zs[idx as int], zs[j])
                &&& forall|j: int|
                    0 <= j < b && #[trigger] is_candidate(zs, idx as int, dir, j) ==> nav_distance(
                        dir,
                        zs[idx as int],
                        zs[j],
                    ) > nav_distance(dir, zs[idx as int], zs[b as int])
            },
    {
        if i != idx {
            let (cx, cy) = centre(zones[i]);
            let qualifies = match dir {
                Dir::Left => cx < src_cx,
                Dir::Right => cx > src_cx,
                Dir::Up => cy < src_cy,
                Dir::Down => cy > src_cy,
            };
            if qualifies {
                let dx: i64 = if src_cx >= cx { (src_cx - cx) as i64 } else { (cx - src_cx) as i64 };
                let dy: i64 = if src_cy >= cy { (src_cy - cy) as i64 } else { (cy - src_cy) as i64 };
                let dist: i64 = match dir {
                    Dir::Left | Dir::Right => dx * 10 + dy,
                    Dir::Up | Dir::Down => dy * 10 + dx,
                };
                assert(dist as int == nav_distance(dir, zs[idx as int], zs[i as int]));
                assert(dist < i64::MAX);
                if dist < best_dist {
                    best_dist = dist;
                    best_idx = Some(i);
                }
            }
        }
    }
    best_idx
}

/// Focus moves to a zone whose centre lies strictly beyond the focused zone's
/// centre in the direction of movement (a zone level with it is never above,
/// below or beside it in that direction). Among all such zones it is the one
/// nearest by ten times the distance along the direction plus the distance
/// across it, the first of equally near ones.
pub proof fn law_neighbor_lies_beyond(zones: Seq<Rect>, from: int, dir: Dir, i: int)
    requires
        0 <= from < zones.len(),
        is_nearest(zones, from, dir, i),
    ensures
        ({
            let cx = |k: int| zones[k].x as int + zones[k].width as int / 2;
            let cy = |k: int| zones[k].y as int + zones[k].height as int / 2;
            let beyond = |k: int|
                match dir {
                    Dir::Left => cx(k) < cx(from),
                    Dir::Right => cx(k) > cx(from),
                    Dir::Up => cy(k) < cy(from),
                    Dir::Down => cy(k) > cy(from),
                };
            let dx = |k: int| if cx(k) >= cx(from) { cx(k) - cx(from) } else { cx(from) - cx(k) };
            let dy = |k: int| if cy(k) >= cy(from) { cy(k) - cy(from) } else { cy(from) - cy(k) };
            let dist = |k: int|
                match dir {
                    Dir::Left | Dir::Right => 10 * dx(k) + dy(k),
                    Dir::Up | Dir::Down => 10 * dy(k) + dx(k),
                };
            &&& 0 <= i < zones.len()
            &&& i != from
            &&& beyond(i)
            &&& forall|j: int| 0 <= j < zones.len() && j != from && #[trigger] beyond(j) ==> dist(i) <= dist(j)
            &&& forall|j: int| 0 <= j < i && j != from && #[trigger] beyond(j) ==> dist(i) < dist(j)
        }),
{
    let cx = |k: int| zones[k].x as int + zones[k].width as int / 2;
    let cy = |k: int| zones[k].y as int + zones[k].height as int / 2;
    let beyond = |k: int|
        match dir {
            Dir::Left => cx(k) < cx(from),
            Dir::Right => cx(k) > cx(from),
            Dir::Up => cy(k) < cy(from),
            Dir::Down => cy(k) > cy(from),
        };
    assert forall|j: int| 0 <= j < zones.len() && j != from && #[trigger] beyond(j) implies is_candidate(
        zones,
        from,
        dir,
        j,
    ) by {}
}

} // verus!
