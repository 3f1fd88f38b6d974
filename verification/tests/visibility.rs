//! Tests for the visibility system: bounds filtering, the dirty-flag
//! protocol, the player's map updates, and the external field-of-view
//! collaborator on open maps.

use roguelike::components::Viewshed;
use roguelike::map::{TileMap, TitleType};
use roguelike::visibility_system::VisibilitySystem;

/// An 80 x 50 map whose border is Wall and whose interior is all Floor.
fn open_map() -> TileMap {
    let mut titles = vec![TitleType::Floor; 80 * 50];
    for x in 0..80usize {
        titles[x] = TitleType::Wall;
        titles[49 * 80 + x] = TitleType::Wall;
    }
    for y in 0..50usize {
        titles[y * 80] = TitleType::Wall;
        titles[y * 80 + 79] = TitleType::Wall;
    }
    TileMap {
        titles,
        rooms: Vec::new(),
        width: 80,
        height: 50,
        revealed_titles: vec![false; 80 * 50],
        visible_titles: vec![false; 80 * 50],
    }
}

/// Adapter handing the map's dimensions and opacity to the external
/// field-of-view query.
struct FovMap<'a> {
    map: &'a TileMap,
}

impl<'a> rltk::Algorithm2D for FovMap<'a> {
    fn dimensions(&self) -> rltk::Point {
        let d = self.map.dimensions();
        rltk::Point::new(d.0, d.1)
    }
}

impl<'a> rltk::BaseMap for FovMap<'a> {
    fn is_opaque(&self, idx: usize) -> bool {
        if idx < self.map.titles.len() {
            self.map.is_opaque(idx)
        } else {
            true
        }
    }
}

fn fov_points(map: &TileMap, x: i32, y: i32, range: i32) -> Vec<(i32, i32)> {
    let adapter = FovMap { map };
    rltk::field_of_view(rltk::Point::new(x, y), range, &adapter)
        .into_iter()
        .map(|p| (p.x, p.y))
        .collect()
}

fn sorted(mut v: Vec<(i32, i32)>) -> Vec<(i32, i32)> {
    v.sort();
    v
}

#[test]
fn open_map_fov_contains_origin_and_stays_in_range() {
    let map = open_map();
    let fov = fov_points(&map, 40, 25, 8);
    assert!(fov.contains(&(40, 25)));
    for &(x, y) in fov.iter() {
        let d = (x - 40).abs().max((y - 25).abs());
        assert!(d <= 8);
    }
}

#[test]
fn fov_recomputation_is_idempotent() {
    let map = open_map();
    let first = sorted(fov_points(&map, 40, 25, 8));
    let second = sorted(fov_points(&map, 40, 25, 8));
    assert_eq!(first, second);
}

#[test]
fn recompute_filters_out_of_bounds() {
    let mut map = open_map();
    let mut vs = Viewshed::new(8);
    let fov = vec![(-1, 5), (5, -2), (100, 5), (5, 60), (3, 4), (79, 49)];
    VisibilitySystem::recompute(&mut map, &mut vs, fov, false);
    assert_eq!(vs.visible_titles, vec![(3, 4), (79, 49)]);
    assert!(!vs.dirty);
}

#[test]
fn recompute_clears_dirty_and_keeps_range() {
    let mut map = open_map();
    let mut vs = Viewshed::new(8);
    assert!(VisibilitySystem::needs_recompute(&vs));
    let fov = fov_points(&map, 40, 25, vs.range);
    VisibilitySystem::recompute(&mut map, &mut vs, fov, true);
    assert!(!VisibilitySystem::needs_recompute(&vs));
    assert_eq!(vs.range, 8);
}

#[test]
fn non_player_recompute_leaves_map_untouched() {
    let mut map = open_map();
    let mut vs = Viewshed::new(8);
    let fov = fov_points(&map, 40, 25, vs.range);
    VisibilitySystem::recompute(&mut map, &mut vs, fov, false);
    assert!(map.revealed_titles.iter().all(|r| !r));
    assert!(map.visible_titles.iter().all(|v| !v));
    assert!(!vs.visible_titles.is_empty());
}

#[test]
fn scenario_player_visibility_bounded_box() {
    let mut map = open_map();
    let mut vs = Viewshed::new(8);
    let (px, py) = (40, 25);
    let fov = fov_points(&map, px, py, vs.range);
    VisibilitySystem::recompute(&mut map, &mut vs, fov, true);
    // The agent's own cell is visible.
    assert!(map.visible_titles[map.xy_idx(px, py)]);
    // Nothing is visible outside the (2 * 8 + 1)-sided box around the agent.
    for y in 0..50 {
        for x in 0..80 {
            if (x - px).abs() > 8 || (y - py).abs() > 8 {
                assert!(!map.visible_titles[map.xy_idx(x, y)]);
            }
        }
    }
    // Revealed matches visible on the first recomputation.
    for idx in 0..80 * 50 {
        assert_eq!(map.revealed_titles[idx], map.visible_titles[idx]);
    }
}

#[test]
fn scenario_move_keeps_revealed() {
    let mut map = open_map();
    let mut vs = Viewshed::new(8);
    let fov = fov_points(&map, 40, 25, vs.range);
    VisibilitySystem::recompute(&mut map, &mut vs, fov, true);
    let revealed_before: Vec<usize> =
        (0..80 * 50).filter(|&i| map.revealed_titles[i]).collect();
    assert!(!revealed_before.is_empty());
    let far = map.xy_idx(47, 25);
    assert!(map.visible_titles[far]);

    // External movement logic: change position and mark the viewshed stale.
    vs.dirty = true;
    let fov2 = fov_points(&map, 10, 10, vs.range);
    VisibilitySystem::recompute(&mut map, &mut vs, fov2, true);

    // Cells revealed from the old position stay revealed even though they
    // are no longer visible.
    for idx in revealed_before {
        assert!(map.revealed_titles[idx]);
    }
    assert!(!map.visible_titles[far]);
    assert!(map.visible_titles[map.xy_idx(10, 10)]);
}

#[test]
fn recompute_twice_same_input_same_visible_set() {
    let mut map = open_map();
    let mut vs1 = Viewshed::new(8);
    let fov1 = fov_points(&map, 40, 25, 8);
    VisibilitySystem::recompute(&mut map, &mut vs1, fov1, true);
    let mut vs2 = Viewshed::new(8);
    let fov2 = fov_points(&map, 40, 25, 8);
    VisibilitySystem::recompute(&mut map, &mut vs2, fov2, true);
    assert_eq!(
        sorted(vs1.visible_titles.clone()),
        sorted(vs2.visible_titles.clone())
    );
}
