//! Tests for rectangle geometry and the two dungeon builders.

use roguelike::map::{TileMap, TitleType};
use roguelike::rect::Rect;

#[test]
fn rect_new_and_center() {
    let r = Rect::new(3, 4, 6, 7);
    assert_eq!(r.x1, 3);
    assert_eq!(r.y1, 4);
    assert_eq!(r.x2, 9);
    assert_eq!(r.y2, 11);
    assert_eq!(r.center(), (6, 7));
}

#[test]
fn rect_center_rounds_down() {
    let r = Rect::new(0, 0, 5, 3);
    // (0 + 5) / 2 == 2 and (0 + 3) / 2 == 1 with floor division.
    assert_eq!(r.center(), (2, 1));
}

#[test]
fn rect_intersect_overlapping() {
    let a = Rect::new(0, 0, 10, 10);
    let b = Rect::new(5, 5, 10, 10);
    assert!(a.intersect(&b));
    assert!(b.intersect(&a));
}

#[test]
fn rect_intersect_shared_edge_counts() {
    let a = Rect::new(0, 0, 5, 5);
    let b = Rect::new(5, 0, 5, 5);
    // a.x2 == b.x1 == 5: inclusive boundaries touch, so they intersect.
    assert!(a.intersect(&b));
}

#[test]
fn rect_intersect_disjoint() {
    let a = Rect::new(0, 0, 5, 5);
    let b = Rect::new(6, 6, 5, 5);
    assert!(!a.intersect(&b));
    assert!(!b.intersect(&a));
}

#[test]
fn xy_idx_row_major() {
    let map = TileMap::new_map_test();
    assert_eq!(map.xy_idx(0, 0), 0);
    assert_eq!(map.xy_idx(1, 0), 1);
    assert_eq!(map.xy_idx(0, 1), 80);
    assert_eq!(map.xy_idx(79, 49), 80 * 50 - 1);
}

#[test]
fn scenario_scatter_borders_and_reserved_cell() {
    let map = TileMap::new_map_test();
    assert_eq!(map.width, 80);
    assert_eq!(map.height, 50);
    assert_eq!(map.titles.len(), 80 * 50);
    for x in 0..80 {
        assert_eq!(map.titles[map.xy_idx(x, 0)], TitleType::Wall);
        assert_eq!(map.titles[map.xy_idx(x, 49)], TitleType::Wall);
    }
    for y in 0..50 {
        assert_eq!(map.titles[map.xy_idx(0, y)], TitleType::Wall);
        assert_eq!(map.titles[map.xy_idx(79, y)], TitleType::Wall);
    }
    // The reserved spawn cell is never overwritten, whatever the draws.
    assert_eq!(map.titles[map.xy_idx(40, 25)], TitleType::Floor);
    // Nothing is revealed or visible on a fresh map.
    assert!(map.revealed_titles.iter().all(|r| !r));
    assert!(map.visible_titles.iter().all(|v| !v));
}

#[test]
fn scenario_rooms_and_corridors_fixed_seed() {
    let mut rng = rltk::RandomNumberGenerator::seeded(42);
    let map = TileMap::build_rooms_and_corridors(&mut rng);
    assert_eq!(map.width, 80);
    assert_eq!(map.height, 50);
    let n = map.rooms.len();
    assert!(1 <= n && n <= 30);
    for room in map.rooms.iter() {
        assert!(room.x1 >= 0 && room.x2 <= 78);
        assert!(room.y1 >= 0 && room.y2 <= 48);
        assert!(room.x1 < room.x2 && room.y1 < room.y2);
    }
    for i in 0..n {
        for j in 0..n {
            if i != j {
                assert!(!map.rooms[i].intersect(&map.rooms[j]));
            }
        }
    }
    assert!(map.revealed_titles.iter().all(|r| !r));
    assert!(map.visible_titles.iter().all(|v| !v));
}

#[test]
fn rooms_and_corridors_interiors_are_floor() {
    let mut rng = rltk::RandomNumberGenerator::seeded(7);
    let map = TileMap::build_rooms_and_corridors(&mut rng);
    for room in map.rooms.iter() {
        for y in room.y1 + 1..=room.y2 {
            for x in room.x1 + 1..=room.x2 {
                assert_eq!(map.titles[map.xy_idx(x, y)], TitleType::Floor);
            }
        }
    }
}

#[test]
fn rooms_and_corridors_all_rooms_reachable() {
    // Breadth-first search over Floor tiles from the first room's center
    // must reach every accepted room's center.
    let mut rng = rltk::RandomNumberGenerator::seeded(12345);
    let map = TileMap::build_rooms_and_corridors(&mut rng);
    let start = map.rooms[0].center();
    let mut seen = vec![false; 80 * 50];
    let mut queue = vec![start];
    seen[map.xy_idx(start.0, start.1)] = true;
    while let Some((cx, cy)) = queue.pop() {
        for (dx, dy) in [(1, 0), (-1, 0), (0, 1), (0, -1)] {
            let (nx, ny) = (cx + dx, cy + dy);
            if nx >= 0 && nx < 80 && ny >= 0 && ny < 50 {
                let idx = map.xy_idx(nx, ny);
                if !seen[idx] && map.titles[idx] == TitleType::Floor {
                    seen[idx] = true;
                    queue.push((nx, ny));
                }
            }
        }
    }
    for room in map.rooms.iter() {
        let c = room.center();
        assert!(seen[map.xy_idx(c.0, c.1)]);
    }
}

#[test]
fn new_map_rooms_and_corridors_entropy_seed() {
    let map = TileMap::new_map_rooms_and_corridors();
    let n = map.rooms.len();
    assert!(1 <= n && n <= 30);
    for i in 0..n {
        for j in 0..n {
            if i != j {
                assert!(!map.rooms[i].intersect(&map.rooms[j]));
            }
        }
    }
}

#[test]
fn dimensions_and_opacity() {
    let map = TileMap::new_map_test();
    assert_eq!(map.dimensions(), (80, 50));
    let border = map.xy_idx(0, 0);
    assert!(map.is_opaque(border));
    let reserved = map.xy_idx(40, 25);
    assert!(!map.is_opaque(reserved));
}
