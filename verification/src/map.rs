//! The tile grid: tile kinds, revealed/visible flags, the accepted room
//! list, the row-major indexing bijection, and the two dungeon builders.

use vstd::prelude::*;

use crate::connectivity::connected;
use crate::connectivity::lemma_connected_monotone;
use crate::connectivity::lemma_connected_self;
use crate::connectivity::lemma_connected_trans;
use crate::connectivity::lemma_horizontal_connected;
use crate::connectivity::lemma_vertical_connected;
use crate::rect::Rect;
use crate::rng::rng_new;
use crate::rng::rng_range;
use crate::rng::rng_roll_dice;

use rltk::RandomNumberGenerator;

verus! {

/// A room the 80 x 50 builder may accept: it keeps a one-cell margin from
/// the right and bottom edges and has extent at least 2 on both axes, so
/// its center lies strictly inside its border line.
pub open spec fn room_ok(r: Rect) -> bool {
    &&& 0 <= r.x1
    &&& r.x1 + 2 <= r.x2
    &&& r.x2 <= 78
    &&& 0 <= r.y1
    &&& r.y1 + 2 <= r.y2
    &&& r.y2 <= 48
}

/// Cell (a, b) lies in the carved interior of room r: the rectangle
/// without its top and left border line.
pub open spec fn room_interior(r: Rect, a: int, b: int) -> bool {
    r.x1 < a <= r.x2 && r.y1 < b <= r.y2
}

/// What the rooms-and-corridors builder guarantees of its room list:
/// every accepted room lies within the interior margin, no two accepted
/// rooms intersect, every accepted room's interior is carved to Floor, and
/// every accepted room's center is reachable from the first accepted
/// room's center over Floor tiles.
pub open spec fn rooms_wf(m: TileMap) -> bool {
    &&& forall|k: int| 0 <= k < m.rooms@.len() ==> room_ok(#[trigger] m.rooms@[k])
    &&& forall|i: int, j: int|
        0 <= i < m.rooms@.len() && 0 <= j < m.rooms@.len() && i != j ==> !(
        #[trigger] m.rooms@[i]).spec_intersect(#[trigger] m.rooms@[j])
    &&& forall|k: int, a: int, b: int|
        #![trigger room_interior(m.rooms@[k], a, b)]
        0 <= k < m.rooms@.len() && room_interior(m.rooms@[k], a, b) ==> m.floor_at(a, b)
    &&& forall|k: int|
        0 <= k < m.rooms@.len() ==> connected(
            m,
            m.rooms@[0].spec_center(),
            (#[trigger] m.rooms@[k]).spec_center(),
        )
}

/// Both per-cell flag arrays are entirely false: nothing has been revealed
/// and nothing is currently visible.
pub open spec fn flags_clear(m: TileMap) -> bool {
    &&& forall|k: int| 0 <= k < m.revealed_titles@.len() ==> !(#[trigger] m.revealed_titles@[k])
    &&& forall|k: int| 0 <= k < m.visible_titles@.len() ==> !(#[trigger] m.visible_titles@[k])
}

/// A vector of n copies of the given value.
fn filled<T: Copy>(n: usize, t: T) -> (v: Vec<T>)
    ensures
        v@.len() == n,
        forall|i: int| 0 <= i < n ==> v@[i] == t,
{
    let mut v: Vec<T> = Vec::new();
    while v.len() < n
        invariant
            v@.len() <= n,
            forall|i: int| 0 <= i < v@.len() ==> v@[i] == t,
        decreases n - v@.len(),
    {
        v.push(t);
    }
    v
}

/// The kind of a single grid cell: Wall is opaque and impassable, Floor is
/// transparent and passable.
#[derive(PartialEq, Eq, Structural, Clone, Copy, Debug)]
pub enum TitleType {
    Wall,
    Floor,
}

/// A dungeon level: a width x height grid of tiles in row-major order,
/// parallel revealed/visible flag arrays, and the rooms accepted by the
/// generator in acceptance order.
pub struct TileMap {
    pub titles: Vec<TitleType>,
    pub rooms: Vec<Rect>,
    pub width: i32,
    pub height: i32,
    pub revealed_titles: Vec<bool>,
    pub visible_titles: Vec<bool>,
}

impl TileMap {
    /// Well-formedness: positive dimensions and all three parallel arrays
    /// of length width * height.
    pub open spec fn wf(self) -> bool {
        &&& 0 < self.width
        &&& 0 < self.height
        &&& self.titles@.len() == self.width * self.height
        &&& self.revealed_titles@.len() == self.width * self.height
        &&& self.visible_titles@.len() == self.width * self.height
    }

    /// The row-major index of coordinate (x, y).
    pub open spec fn spec_idx(self, x: int, y: int) -> int {
        y * self.width + x
    }

    pub open spec fn in_bounds(self, x: int, y: int) -> bool {
        0 <= x < self.width && 0 <= y < self.height
    }

    /// The cell (x, y) is in bounds and holds a Floor tile.
    pub open spec fn floor_at(self, x: int, y: int) -> bool {
        self.in_bounds(x, y) && self.titles@[self.spec_idx(x, y)] == TitleType::Floor
    }

    /// The cell (x, y) is in bounds and holds a Wall tile.
    pub open spec fn wall_at(self, x: int, y: int) -> bool {
        self.in_bounds(x, y) && self.titles@[self.spec_idx(x, y)] == TitleType::Wall
    }

    /// The row-major index is injective over the coordinate domain and its
    /// image is exactly [0, width * height).
    pub proof fn lemma_index_bijective(self)
        requires
            self.wf(),
        ensures
            forall|x: int, y: int|
                self.in_bounds(x, y) ==> 0 <= #[trigger] self.spec_idx(x, y) < self.width
                    * self.height,
            forall|x1: int, y1: int, x2: int, y2: int|
                self.in_bounds(x1, y1) && self.in_bounds(x2, y2) && #[trigger] self.spec_idx(
                    x1,
                    y1,
                ) == #[trigger] self.spec_idx(x2, y2) ==> x1 == x2 && y1 == y2,
            forall|i: int|
                0 <= i < self.width * self.height ==> self.in_bounds(
                    #[trigger] (i % (self.width as int)),
                    i / (self.width as int),
                ) && self.spec_idx(i % (self.width as int), i / (self.width as int)) == i,
    {
        let w = self.width as int;
        let h = self.height as int;
        assert forall|x: int, y: int| self.in_bounds(x, y) implies 0 <= #[trigger] self.spec_idx(
            x,
            y,
        ) < w * h by {
            assert(0 <= y * w + x < w * h) by (nonlinear_arith)
                requires
                    0 <= x < w,
                    0 <= y < h,
            ;
        }
        assert forall|x1: int, y1: int, x2: int, y2: int|
            self.in_bounds(x1, y1) && self.in_bounds(x2, y2) && #[trigger] self.spec_idx(x1, y1)
                == #[trigger] self.spec_idx(x2, y2) implies x1 == x2 && y1 == y2 by {
            assert(x1 == x2 && y1 == y2) by (nonlinear_arith)
                requires
                    0 <= x1 < w,
                    0 <= x2 < w,
                    0 <= y1 < h,
                    0 <= y2 < h,
                    y1 * w + x1 == y2 * w + x2,
            ;
        }
        assert forall|i: int| 0 <= i < w * h implies self.in_bounds(
            #[trigger] (i % w),
            i / w,
        ) && self.spec_idx(i % w, i / w) == i by {
            assert(0 <= i % w < w && 0 <= i / w < h && (i / w) * w + i % w == i)
                by (nonlinear_arith)
                requires
                    0 <= i < w * h,
                    0 < w,
                    0 < h,
            ;
        }
    }

    pub fn xy_idx(&self, x: i32, y: i32) -> (idx: usize)
        requires
            self.wf(),
            self.in_bounds(x as int, y as int),
        ensures
            idx == self.spec_idx(x as int, y as int),
            idx < self.titles@.len(),
    {
        let n: usize = self.titles.len();
        proof {
            assert(0 <= y * self.width && y * self.width + x < self.width * self.height)
                by (nonlinear_arith)
                requires
                    0 <= x < self.width,
                    0 <= y < self.height,
            ;
            assert(self.width * self.height == n);
        }
        (y as usize * self.width as usize) + x as usize
    }

    /// Overwrite the tile at (x, y); every other cell keeps its tile.
    fn set_title(&mut self, x: i32, y: i32, t: TitleType)
        requires
            old(self).wf(),
            old(self).in_bounds(x as int, y as int),
        ensures
            final(self).wf(),
            final(self).width == old(self).width,
            final(self).height == old(self).height,
            final(self).rooms == old(self).rooms,
            final(self).revealed_titles == old(self).revealed_titles,
            final(self).visible_titles == old(self).visible_titles,
            final(self).titles@.len() == old(self).titles@.len(),
            forall|a: int, b: int|
                #[trigger] final(self).floor_at(a, b) <==> ((a == x as int && b == y as int && t
                    == TitleType::Floor) || (!(a == x as int && b == y as int) && old(
                    self,
                ).floor_at(a, b))),
            forall|a: int, b: int|
                #[trigger] final(self).wall_at(a, b) <==> ((a == x as int && b == y as int && t
                    == TitleType::Wall) || (!(a == x as int && b == y as int) && old(
                    self,
                ).wall_at(a, b))),
    {
        proof {
            self.lemma_index_bijective();
        }
        let idx = self.xy_idx(x, y);
        self.titles.set(idx, t);
        proof {
            let xi = x as int;
            let yi = y as int;
            assert forall|a: int, b: int| old(self).in_bounds(a, b) && (a != xi || b != yi)
                implies self.titles@[#[trigger] self.spec_idx(a, b)] == old(self).titles@[old(
                self,
            ).spec_idx(a, b)] by {
                assert(old(self).spec_idx(a, b) != old(self).spec_idx(xi, yi));
            }
        }
    }

    /// Carve a room's interior to Floor: the cells strictly inside the
    /// rectangle's border line, (x1+1 ..= x2) by (y1+1 ..= y2).
    fn apply_from_to_map(&mut self, room: &Rect)
        requires
            old(self).wf(),
            room.wf(),
            0 <= room.x1,
            0 <= room.y1,
            room.x2 < old(self).width,
            room.y2 < old(self).height,
        ensures
            final(self).wf(),
            final(self).width == old(self).width,
            final(self).height == old(self).height,
            final(self).rooms == old(self).rooms,
            final(self).revealed_titles == old(self).revealed_titles,
            final(self).visible_titles == old(self).visible_titles,
            forall|a: int, b: int|
                #[trigger] final(self).floor_at(a, b) <==> (old(self).floor_at(a, b) || (room.x1
                    < a <= room.x2 && room.y1 < b <= room.y2)),
    {
        let mut y: i32 = room.y1 + 1;
        while y <= room.y2
            invariant
                old(self).wf(),
                self.wf(),
                room.wf(),
                0 <= room.x1,
                0 <= room.y1,
                room.x2 < self.width,
                room.y2 < self.height,
                room.y1 + 1 <= y <= room.y2 + 1,
                self.width == old(self).width,
                self.height == old(self).height,
                self.rooms == old(self).rooms,
                self.revealed_titles == old(self).revealed_titles,
                self.visible_titles == old(self).visible_titles,
                forall|a: int, b: int|
                    #[trigger] self.floor_at(a, b) <==> (old(self).floor_at(a, b) || (room.x1 < a
                        <= room.x2 && room.y1 < b < y)),
            decreases room.y2 + 1 - y,
        {
            let mut x: i32 = room.x1 + 1;
            while x <= room.x2
                invariant
                    old(self).wf(),
                    self.wf(),
                    room.wf(),
                    0 <= room.x1,
                    0 <= room.y1,
                    room.x2 < self.width,
                    room.y2 < self.height,
                    room.y1 + 1 <= y <= room.y2,
                    room.x1 + 1 <= x <= room.x2 + 1,
                    self.width == old(self).width,
                    self.height == old(self).height,
                    self.rooms == old(self).rooms,
                    self.revealed_titles == old(self).revealed_titles,
                    self.visible_titles == old(self).visible_titles,
                    forall|a: int, b: int|
                        #[trigger] self.floor_at(a, b) <==> (old(self).floor_at(a, b) || (room.x1
                            < a <= room.x2 && room.y1 < b < y) || (b == y && room.x1 < a < x)),
                decreases room.x2 + 1 - x,
            {
                self.set_title(x, y, TitleType::Floor);
                x = x + 1;
            }
            y = y + 1;
        }
    }

    /// Carve the horizontal segment between x-coordinates x1 and x2
    /// (in either order) at row y to Floor.
    fn apply_horizontal_tunnel(&mut self, x1: i32, x2: i32, y: i32)
        requires
            old(self).wf(),
            0 <= y < old(self).height,
            0 <= x1 < old(self).width,
            0 <= x2 < old(self).width,
        ensures
            final(self).wf(),
            final(self).width == old(self).width,
            final(self).height == old(self).height,
            final(self).rooms == old(self).rooms,
            final(self).revealed_titles == old(self).revealed_titles,
            final(self).visible_titles == old(self).visible_titles,
            forall|a: int, b: int|
                #[trigger] final(self).floor_at(a, b) <==> (old(self).floor_at(a, b) || (b == y
                    && (x1 <= a <= x2 || x2 <= a <= x1))),
    {
        let lo: i32 = if x1 < x2 {
            x1
        } else {
            x2
        };
        let hi: i32 = if x1 < x2 {
            x2
        } else {
            x1
        };
        let mut x: i32 = lo;
        while x <= hi
            invariant
                old(self).wf(),
                self.wf(),
                0 <= y < self.height,
                0 <= lo <= hi < self.width,
                lo <= x <= hi + 1,
                self.width == old(self).width,
                self.height == old(self).height,
                self.rooms == old(self).rooms,
                self.revealed_titles == old(self).revealed_titles,
                self.visible_titles == old(self).visible_titles,
                forall|a: int, b: int|
                    #[trigger] self.floor_at(a, b) <==> (old(self).floor_at(a, b) || (b == y && lo
                        <= a < x)),
            decreases hi + 1 - x,
        {
            self.set_title(x, y, TitleType::Floor);
            x = x + 1;
        }
    }

    /// Carve the vertical segment between y-coordinates y1 and y2
    /// (in either order) at column x to Floor.
    fn apply_vertical_tunnel(&mut self, y1: i32, y2: i32, x: i32)
        requires
            old(self).wf(),
            0 <= x < old(self).width,
            0 <= y1 < old(self).height,
            0 <= y2 < old(self).height,
        ensures
            final(self).wf(),
            final(self).width == old(self).width,
            final(self).height == old(self).height,
            final(self).rooms == old(self).rooms,
            final(self).revealed_titles == old(self).revealed_titles,
            final(self).visible_titles == old(self).visible_titles,
            forall|a: int, b: int|
                #[trigger] final(self).floor_at(a, b) <==> (old(self).floor_at(a, b) || (a == x
                    && (y1 <= b <= y2 || y2 <= b <= y1))),
    {
        let lo: i32 = if y1 < y2 {
            y1
        } else {
            y2
        };
        let hi: i32 = if y1 < y2 {
            y2
        } else {
            y1
        };
        let mut y: i32 = lo;
        while y <= hi
            invariant
                old(self).wf(),
                self.wf(),
                0 <= x < self.width,
                0 <= lo <= hi < self.height,
                lo <= y <= hi + 1,
                self.width == old(self).width,
                self.height == old(self).height,
                self.rooms == old(self).rooms,
                self.revealed_titles == old(self).revealed_titles,
                self.visible_titles == old(self).visible_titles,
                forall|a: int, b: int|
                    #[trigger] self.floor_at(a, b) <==> (old(self).floor_at(a, b) || (a == x && lo
                        <= b < y)),
            decreases hi + 1 - y,
        {
            self.set_title(x, y, TitleType::Floor);
            y = y + 1;
        }
    }

    /// Scatter-mode test layout: an 80 x 50 all-Floor grid whose four
    /// border rows/columns are forced to Wall, then 400 random single-cell
    /// wall placements, never overwriting the reserved spawn cell (40, 25).
    /// Connectivity is not guaranteed; this layout is for throwaway use.
    pub fn new_map_test() -> (map: TileMap)
        ensures
            map.wf(),
            map.width == 80,
            map.height == 50,
            map.rooms@.len() == 0,
            flags_clear(map),
            forall|x: int| 0 <= x < 80 ==> map.wall_at(x, 0) && map.wall_at(x, 49),
            forall|y: int| 0 <= y < 50 ==> map.wall_at(0, y) && map.wall_at(79, y),
            map.floor_at(40, 25),
    {
        let mut map = TileMap {
            titles: filled(80 * 50, TitleType::Floor),
            rooms: Vec::new(),
            width: 80,
            height: 50,
            revealed_titles: filled(80 * 50, false),
            visible_titles: filled(80 * 50, false),
        };

        let mut x: i32 = 0;
        while x < 80
            invariant
                map.wf(),
                map.width == 80,
                map.height == 50,
                map.rooms@.len() == 0,
                0 <= x <= 80,
                flags_clear(map),
                forall|a: int| 0 <= a < x ==> map.wall_at(a, 0) && map.wall_at(a, 49),
                forall|a: int, b: int|
                    map.in_bounds(a, b) && b != 0 && b != 49 ==> #[trigger] map.floor_at(a, b),
            decreases 80 - x,
        {
            map.set_title(x, 0, TitleType::Wall);
            map.set_title(x, 49, TitleType::Wall);
            x = x + 1;
        }

        let mut y: i32 = 0;
        while y < 50
            invariant
                map.wf(),
                map.width == 80,
                map.height == 50,
                map.rooms@.len() == 0,
                0 <= y <= 50,
                flags_clear(map),
                forall|a: int| 0 <= a < 80 ==> map.wall_at(a, 0) && map.wall_at(a, 49),
                forall|b: int| 0 <= b < y ==> map.wall_at(0, b) && map.wall_at(79, b),
                forall|a: int, b: int|
                    map.in_bounds(a, b) && b != 0 && b != 49 && a != 0 && a != 79
                        ==> #[trigger] map.floor_at(a, b),
            decreases 50 - y,
        {
            map.set_title(0, y, TitleType::Wall);
            map.set_title(79, y, TitleType::Wall);
            y = y + 1;
        }

        let mut rng = rng_new();
        let mut i: i32 = 0;
        while i < 400
            invariant
                map.wf(),
                map.width == 80,
                map.height == 50,
                map.rooms@.len() == 0,
                0 <= i <= 400,
                flags_clear(map),
                forall|a: int| 0 <= a < 80 ==> map.wall_at(a, 0) && map.wall_at(a, 49),
                forall|b: int| 0 <= b < 50 ==> map.wall_at(0, b) && map.wall_at(79, b),
                map.floor_at(40, 25),
            decreases 400 - i,
        {
            let x = rng_roll_dice(&mut rng, 1, 79);
            let y = rng_roll_dice(&mut rng, 1, 49);
            let idx = map.xy_idx(x, y);
            if idx != map.xy_idx(40, 25) {
                map.set_title(x, y, TitleType::Wall);
            }
            i = i + 1;
        }

        map
    }

    /// Rooms-and-corridors layout with a freshly seeded generator.
    pub fn new_map_rooms_and_corridors() -> (map: TileMap)
        ensures
            map.wf(),
            map.width == 80,
            map.height == 50,
            1 <= map.rooms@.len() <= 30,
            rooms_wf(map),
            flags_clear(map),
    {
        let mut rng = rng_new();
        Self::build_rooms_and_corridors(&mut rng)
    }

    /// Rooms-and-corridors layout: starting from an all-Wall 80 x 50 grid,
    /// up to 30 candidate rooms are sampled; a candidate intersecting any
    /// previously accepted room is rejected, an accepted one has its
    /// interior carved to Floor and (from the second on) is joined to the
    /// immediately previously accepted room's center by an L-shaped
    /// corridor, so the accepted rooms form one connected chain.
    pub fn build_rooms_and_corridors(rng: &mut RandomNumberGenerator) -> (map: TileMap)
        ensures
            map.wf(),
            map.width == 80,
            map.height == 50,
            1 <= map.rooms@.len() <= 30,
            rooms_wf(map),
            flags_clear(map),
    {
        let mut map = TileMap {
            rooms: Vec::new(),
            titles: filled(80 * 50, TitleType::Wall),
            width: 80,
            height: 50,
            revealed_titles: filled(80 * 50, false),
            visible_titles: filled(80 * 50, false),
        };

        let mut i: i32 = 0;
        while i < 30
            invariant
                map.wf(),
                map.width == 80,
                map.height == 50,
                0 <= i <= 30,
                map.rooms@.len() <= i,
                i > 0 ==> map.rooms@.len() >= 1,
                rooms_wf(map),
                flags_clear(map),
            decreases 30 - i,
        {
            let w = rng_range(rng, 6, 10);
            let h = rng_range(rng, 6, 10);
            let x = rng_roll_dice(rng, 1, 80 - w - 1) - 1;
            let y = rng_roll_dice(rng, 1, 50 - h - 1) - 1;
            let new_room = Rect::new(x, y, w, h);

            let mut ok = true;
            let mut j: usize = 0;
            while j < map.rooms.len()
                invariant
                    j <= map.rooms@.len(),
                    ok <==> forall|t: int|
                        0 <= t < j ==> !new_room.spec_intersect(#[trigger] map.rooms@[t]),
                decreases map.rooms@.len() - j,
            {
                if new_room.intersect(&map.rooms[j]) {
                    ok = false;
                }
                j = j + 1;
            }

            if ok {
                let ghost m0 = map;
                map.apply_from_to_map(&new_room);
                let ghost m1 = map;
                proof {
                    assert forall|a: int, b: int| #[trigger] m0.floor_at(a, b) implies m1.floor_at(
                        a,
                        b,
                    ) by {}
                }

                if map.rooms.len() != 0 {
                    let (new_x, new_y) = new_room.center();
                    let prev_room = map.rooms[map.rooms.len() - 1];
                    let ghost c_prev = prev_room.spec_center();
                    let ghost c_new = new_room.spec_center();
                    proof {
                        assert(room_ok(prev_room));
                        prev_room.lemma_center_in_interior();
                        new_room.lemma_center_in_interior();
                    }
                    let (prev_x, prev_y) = prev_room.center();
                    if rng_range(rng, 0, 2) == 1 {
                        map.apply_horizontal_tunnel(prev_x, new_x, prev_y);
                        let ghost mh = map;
                        map.apply_vertical_tunnel(prev_y, new_y, new_x);
                        proof {
                            assert forall|a: int, b: int| #[trigger] m1.floor_at(a, b)
                                implies map.floor_at(a, b) by {
                                assert(mh.floor_at(a, b));
                            }
                            assert forall|a: int|
                                prev_x as int <= a <= new_x as int || new_x as int <= a
                                    <= prev_x as int implies map.floor_at(a, prev_y as int) by {
                                assert(mh.floor_at(a, prev_y as int));
                            }
                            lemma_horizontal_connected(
                                map,
                                prev_x as int,
                                new_x as int,
                                prev_y as int,
                            );
                            lemma_vertical_connected(
                                map,
                                prev_y as int,
                                new_y as int,
                                new_x as int,
                            );
                            lemma_connected_trans(
                                map,
                                c_prev,
                                (new_x as int, prev_y as int),
                                c_new,
                            );
                        }
                    } else {
                        map.apply_vertical_tunnel(prev_y, new_y, prev_x);
                        let ghost mv = map;
                        map.apply_horizontal_tunnel(prev_x, new_x, new_y);
                        proof {
                            assert forall|a: int, b: int| #[trigger] m1.floor_at(a, b)
                                implies map.floor_at(a, b) by {
                                assert(mv.floor_at(a, b));
                            }
                            assert forall|b: int|
                                prev_y as int <= b <= new_y as int || new_y as int <= b
                                    <= prev_y as int implies map.floor_at(prev_x as int, b) by {
                                assert(mv.floor_at(prev_x as int, b));
                            }
                            lemma_vertical_connected(
                                map,
                                prev_y as int,
                                new_y as int,
                                prev_x as int,
                            );
                            lemma_horizontal_connected(
                                map,
                                prev_x as int,
                                new_x as int,
                                new_y as int,
                            );
                            lemma_connected_trans(
                                map,
                                c_prev,
                                (prev_x as int, new_y as int),
                                c_new,
                            );
                        }
                    }
                    proof {
                        // Carry the chain: everything reachable before this
                        // iteration's carving is still reachable, and the new
                        // room's center now hangs off the previous one's.
                        assert forall|a: int, b: int| #[trigger] m0.floor_at(a, b)
                            implies map.floor_at(a, b) by {
                            assert(m1.floor_at(a, b));
                        }
                        let ghost c0 = m0.rooms@[0].spec_center();
                        assert forall|k: int| 0 <= k < map.rooms@.len() implies connected(
                            map,
                            c0,
                            (#[trigger] map.rooms@[k]).spec_center(),
                        ) by {
                            lemma_connected_monotone(m0, map, c0, map.rooms@[k].spec_center());
                        }
                        lemma_connected_trans(map, c0, c_prev, c_new);
                    }
                } else {
                    proof {
                        new_room.lemma_center_in_interior();
                        lemma_connected_self(map, new_room.spec_center());
                    }
                }

                let ghost m2 = map;
                map.rooms.push(new_room);
                proof {
                    assert forall|a: int, b: int| #[trigger] m2.floor_at(a, b) implies map.floor_at(
                        a,
                        b,
                    ) by {}
                    assert(map.rooms@ == m2.rooms@.push(new_room));
                    let ghost c0 = map.rooms@[0].spec_center();
                    assert forall|k: int| 0 <= k < map.rooms@.len() implies connected(
                        map,
                        c0,
                        (#[trigger] map.rooms@[k]).spec_center(),
                    ) by {
                        lemma_connected_monotone(m2, map, c0, map.rooms@[k].spec_center());
                    }
                    assert forall|k: int, a: int, b: int|
                        0 <= k < map.rooms@.len() && #[trigger] room_interior(map.rooms@[k], a, b)
                        implies map.floor_at(a, b) by {
                        if k < m2.rooms@.len() {
                            assert(room_interior(m2.rooms@[k], a, b));
                            assert(m2.floor_at(a, b));
                        } else {
                            assert(m1.floor_at(a, b));
                            assert(m2.floor_at(a, b));
                        }
                    }
                }
            }
            i = i + 1;
        }

        map
    }

    /// The map's width and height, for bounds checking by callers.
    pub fn dimensions(&self) -> (d: (i32, i32))
        ensures
            d.0 == self.width,
            d.1 == self.height,
    {
        (self.width, self.height)
    }

    /// The tile at the given row-major index blocks line of sight.
    pub fn is_opaque(&self, idx: usize) -> (r: bool)
        requires
            idx < self.titles@.len(),
        ensures
            r == (self.titles@[idx as int] == TitleType::Wall),
    {
        self.titles[idx] == TitleType::Wall
    }
}

} // verus!
