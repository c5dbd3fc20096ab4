use term_render::assets::{AssetStore, CellStyle, Sprite, StyleMap};
use term_render::cells::{Cell, Color, Command};
use term_render::renderer::Renderer;
use term_render::scene::{stale_entities, EntityState};

fn solid_sprite(text: &str) -> Sprite {
    let cells: Vec<Option<char>> = text.chars().map(Some).collect();
    Sprite::new(cells.len(), 1, cells).unwrap()
}

fn uniform_style(width: usize, fg: Color) -> StyleMap {
    let cells: Vec<CellStyle> = (0..width)
        .map(|_| CellStyle { fg: Some(fg), bg: None })
        .collect();
    StyleMap::new(width, 1, cells).unwrap()
}

fn entity(id: u64, x: usize, y: usize, z: u64, sprite: usize, style: usize) -> EntityState {
    EntityState { id, x, y, z, sprite, style }
}

// A loaded style map carrying no per-cell preference at all.
fn bare_style(assets: &mut AssetStore) -> usize {
    assets.add_style(StyleMap::new(0, 0, Vec::new()).unwrap())
}

const RED: Color = Color::Ansi(1);
const GREEN: Color = Color::Ansi(2);

#[test]
fn noop_second_tick_emits_nothing() {
    let mut assets = AssetStore::new();
    let sp = assets.add_sprite(solid_sprite("AB"));
    let st = bare_style(&mut assets);
    let scene = vec![entity(1, 0, 0, 0, sp, st)];
    let mut r = Renderer::new(10, 2);
    let first = r.render_tick(&scene, &assets, 10, 2);
    assert!(!first.is_empty());
    let second = r.render_tick(&scene, &assets, 10, 2);
    assert_eq!(second, Vec::new());
}

#[test]
fn moving_one_entity_touches_only_its_footprints() {
    let mut assets = AssetStore::new();
    let sp = assets.add_sprite(solid_sprite("#"));
    let st = bare_style(&mut assets);
    let mut r = Renderer::new(5, 5);
    let before = vec![entity(1, 2, 2, 0, sp, st)];
    r.render_tick(&before, &assets, 5, 5);
    let after = vec![entity(1, 3, 2, 0, sp, st)];
    let cmds = r.render_tick(&after, &assets, 5, 5);
    // One erase at the old cell; the write at the new cell follows the
    // cursor with no extra move, no style change, and no other cell is
    // touched anywhere on the 5x5 surface.
    assert_eq!(
        cmds,
        vec![Command::MoveTo(2, 2), Command::Print(' '), Command::Print('#')]
    );
}

#[test]
fn adjacent_cells_share_one_style_change() {
    let mut assets = AssetStore::new();
    let sp = assets.add_sprite(solid_sprite("XYZ"));
    let st = assets.add_style(uniform_style(3, GREEN));
    let scene = vec![entity(1, 0, 0, 0, sp, st)];
    let mut r = Renderer::new(10, 1);
    let cmds = r.render_tick(&scene, &assets, 10, 1);
    assert_eq!(
        cmds,
        vec![
            Command::MoveTo(0, 0),
            Command::SetFg(GREEN),
            Command::SetBg(Color::Default),
            Command::Print('X'),
            Command::Print('Y'),
            Command::Print('Z'),
        ]
    );
    let style_changes = cmds
        .iter()
        .filter(|c| matches!(c, Command::SetFg(_)))
        .count();
    assert_eq!(style_changes, 1);
}

#[test]
fn higher_z_wins_whatever_the_creation_order() {
    let mut assets = AssetStore::new();
    let sp_a = assets.add_sprite(solid_sprite("a"));
    let sp_b = assets.add_sprite(solid_sprite("b"));
    let st = bare_style(&mut assets);
    let low = entity(1, 0, 0, 1, sp_a, st);
    let high = entity(2, 0, 0, 2, sp_b, st);

    let mut r1 = Renderer::new(4, 1);
    r1.render_tick(&vec![low, high], &assets, 4, 1);
    let mut r2 = Renderer::new(4, 1);
    r2.render_tick(&vec![high, low], &assets, 4, 1);

    let shown = Some(Cell { ch: 'b', fg: Color::Default, bg: Color::Default });
    assert_eq!(r1.prev[0], shown);
    assert_eq!(r2.prev[0], shown);
}

#[test]
fn equal_z_earlier_created_wins_whatever_the_order() {
    let mut assets = AssetStore::new();
    let sp_a = assets.add_sprite(solid_sprite("a"));
    let sp_b = assets.add_sprite(solid_sprite("b"));
    let st = bare_style(&mut assets);
    let earlier = entity(1, 0, 0, 5, sp_a, st);
    let later = entity(2, 0, 0, 5, sp_b, st);

    let mut r1 = Renderer::new(4, 1);
    r1.render_tick(&vec![earlier, later], &assets, 4, 1);
    let mut r2 = Renderer::new(4, 1);
    r2.render_tick(&vec![later, earlier], &assets, 4, 1);

    let shown = Some(Cell { ch: 'a', fg: Color::Default, bg: Color::Default });
    assert_eq!(r1.prev[0], shown);
    assert_eq!(r2.prev[0], shown);
}

#[test]
fn removing_an_occluder_reveals_and_reemits_the_lower_entity() {
    let mut assets = AssetStore::new();
    let sp_low = assets.add_sprite(solid_sprite("+"));
    let sp_high = assets.add_sprite(solid_sprite("#"));
    let st = bare_style(&mut assets);
    let lower = entity(1, 0, 0, 1, sp_low, st);
    let upper = entity(2, 0, 0, 9, sp_high, st);

    let mut r = Renderer::new(4, 1);
    r.render_tick(&vec![lower, upper], &assets, 4, 1);
    assert_eq!(r.prev[0].map(|c| c.ch), Some('#'));

    // The lower entity did not change, yet removing the occluder re-emits it.
    let cmds = r.render_tick(&vec![lower], &assets, 4, 1);
    assert!(cmds.contains(&Command::Print('+')));
    assert_eq!(r.prev[0].map(|c| c.ch), Some('+'));

    // The committed buffer equals what a fresh full render of the remaining
    // scene produces.
    let mut fresh = Renderer::new(4, 1);
    fresh.render_tick(&vec![lower], &assets, 4, 1);
    assert_eq!(r.prev, fresh.prev);
}

#[test]
fn resize_forces_a_full_redraw_of_unchanged_entities() {
    let mut assets = AssetStore::new();
    let sp = assets.add_sprite(solid_sprite("AB"));
    let st = bare_style(&mut assets);
    let scene = vec![entity(1, 0, 0, 0, sp, st)];
    let mut r = Renderer::new(10, 2);
    r.render_tick(&scene, &assets, 10, 2);
    assert_eq!(r.render_tick(&scene, &assets, 10, 2), Vec::new());

    // Same entity state, new dimensions: everything visible is re-emitted.
    let cmds = r.render_tick(&scene, &assets, 8, 2);
    assert_eq!(
        cmds,
        vec![
            Command::MoveTo(0, 0),
            Command::SetFg(Color::Default),
            Command::SetBg(Color::Default),
            Command::Print('A'),
            Command::Print('B'),
        ]
    );
    assert_eq!(r.prev.len(), 16);
}

#[test]
fn move_tick_round_trip_emits_the_expected_stream() {
    let mut assets = AssetStore::new();
    let sp = assets.add_sprite(solid_sprite("AB"));
    let st = assets.add_style(uniform_style(2, RED));
    let mut r = Renderer::new(10, 1);

    let first = r.render_tick(&vec![entity(1, 0, 0, 0, sp, st)], &assets, 10, 1);
    assert_eq!(
        first,
        vec![
            Command::MoveTo(0, 0),
            Command::SetFg(RED),
            Command::SetBg(Color::Default),
            Command::Print('A'),
            Command::Print('B'),
        ]
    );

    let moved = r.render_tick(&vec![entity(1, 1, 0, 0, sp, st)], &assets, 10, 1);
    assert_eq!(
        moved,
        vec![
            Command::MoveTo(0, 0),
            Command::SetFg(Color::Default),
            Command::Print(' '),
            Command::SetFg(RED),
            Command::Print('A'),
            Command::Print('B'),
        ]
    );
}

#[test]
fn transparent_cells_leave_layers_beneath_visible() {
    let mut assets = AssetStore::new();
    let holed = assets.add_sprite(Sprite::new(2, 1, vec![Some('L'), None]).unwrap());
    let wide = assets.add_sprite(solid_sprite("mm"));
    let st = bare_style(&mut assets);
    let under = entity(1, 0, 0, 1, wide, st);
    let over = entity(2, 0, 0, 2, holed, st);
    let mut r = Renderer::new(4, 1);
    r.render_tick(&vec![under, over], &assets, 4, 1);
    assert_eq!(r.prev[0].map(|c| c.ch), Some('L'));
    assert_eq!(r.prev[1].map(|c| c.ch), Some('m'));
}

#[test]
fn stale_sprite_handle_skips_the_entity() {
    let assets = AssetStore::new();
    let scene = vec![entity(1, 0, 0, 0, 7, 0)];
    let mut r = Renderer::new(4, 1);
    let cmds = r.render_tick(&scene, &assets, 4, 1);
    assert_eq!(cmds, Vec::new());
    assert!(r.prev.iter().all(|c| c.is_none()));
}

#[test]
fn style_map_smaller_than_sprite_styles_only_its_cells() {
    let mut assets = AssetStore::new();
    let sp = assets.add_sprite(solid_sprite("AB"));
    let st = assets.add_style(uniform_style(1, RED));
    let scene = vec![entity(1, 0, 0, 0, sp, st)];
    let mut r = Renderer::new(4, 1);
    r.render_tick(&scene, &assets, 4, 1);
    assert_eq!(r.prev[0].map(|c| c.fg), Some(RED));
    assert_eq!(r.prev[1].map(|c| c.fg), Some(Color::Default));
}

#[test]
fn mismatched_grids_are_refused() {
    assert!(Sprite::new(2, 2, vec![Some('x'); 3]).is_none());
    assert!(Sprite::new(2, 2, vec![Some('x'); 4]).is_some());
    let style_cells = vec![CellStyle { fg: None, bg: None }; 5];
    assert!(StyleMap::new(3, 2, style_cells).is_none());
}

#[test]
fn cursor_visibility_commands_only_on_change() {
    let mut r = Renderer::new(4, 1);
    assert_eq!(r.set_cursor_visibility(true), None);
    assert_eq!(
        r.set_cursor_visibility(false),
        Some(Command::SetCursorVisible(false))
    );
    assert_eq!(r.set_cursor_visibility(false), None);
    assert_eq!(
        r.set_cursor_visibility(true),
        Some(Command::SetCursorVisible(true))
    );
}

#[test]
fn background_changes_are_emitted_and_coalesced() {
    let mut assets = AssetStore::new();
    let sp = assets.add_sprite(solid_sprite("ab"));
    let cells = vec![
        CellStyle { fg: None, bg: Some(GREEN) },
        CellStyle { fg: None, bg: Some(GREEN) },
    ];
    let st = assets.add_style(StyleMap::new(2, 1, cells).unwrap());
    let scene = vec![entity(1, 0, 0, 0, sp, st)];
    let mut r = Renderer::new(4, 1);
    let cmds = r.render_tick(&scene, &assets, 4, 1);
    assert_eq!(
        cmds,
        vec![
            Command::MoveTo(0, 0),
            Command::SetFg(Color::Default),
            Command::SetBg(GREEN),
            Command::Print('a'),
            Command::Print('b'),
        ]
    );
}

#[test]
fn empty_scene_ticks_emit_nothing() {
    let assets = AssetStore::new();
    let mut r = Renderer::new(6, 3);
    assert_eq!(r.render_tick(&Vec::new(), &assets, 6, 3), Vec::new());
    assert_eq!(r.render_tick(&Vec::new(), &assets, 6, 3), Vec::new());
}

#[test]
fn rows_are_written_top_down_with_one_move_per_row() {
    let mut assets = AssetStore::new();
    let tall = assets.add_sprite(Sprite::new(1, 2, vec![Some('T'), Some('U')]).unwrap());
    let st = bare_style(&mut assets);
    let scene = vec![entity(1, 0, 0, 0, tall, st)];
    let mut r = Renderer::new(4, 2);
    let cmds = r.render_tick(&scene, &assets, 4, 2);
    assert_eq!(
        cmds,
        vec![
            Command::MoveTo(0, 0),
            Command::SetFg(Color::Default),
            Command::SetBg(Color::Default),
            Command::Print('T'),
            Command::MoveTo(0, 1),
            Command::Print('U'),
        ]
    );
}

#[test]
fn sprites_are_clipped_at_the_terminal_edge() {
    let mut assets = AssetStore::new();
    let sp = assets.add_sprite(solid_sprite("WXYZ"));
    let st = bare_style(&mut assets);
    let scene = vec![entity(1, 3, 0, 0, sp, st)];
    let mut r = Renderer::new(5, 1);
    let cmds = r.render_tick(&scene, &assets, 5, 1);
    assert_eq!(
        cmds,
        vec![
            Command::MoveTo(3, 0),
            Command::SetFg(Color::Default),
            Command::SetBg(Color::Default),
            Command::Print('W'),
            Command::Print('X'),
        ]
    );
}

#[test]
fn duplicate_identifiers_do_not_crash() {
    let mut assets = AssetStore::new();
    let sp_a = assets.add_sprite(solid_sprite("a"));
    let sp_b = assets.add_sprite(solid_sprite("b"));
    let st = bare_style(&mut assets);
    let scene = vec![entity(1, 0, 0, 0, sp_a, st), entity(1, 0, 0, 0, sp_b, st)];
    let mut r = Renderer::new(4, 1);
    r.render_tick(&scene, &assets, 4, 1);
    r.render_tick(&scene, &assets, 4, 1);
}

#[test]
fn stale_style_handle_skips_the_entity_too() {
    let mut assets = AssetStore::new();
    let sp = assets.add_sprite(solid_sprite("A"));
    let scene = vec![entity(1, 0, 0, 0, sp, 9)];
    let mut r = Renderer::new(4, 1);
    let cmds = r.render_tick(&scene, &assets, 4, 1);
    assert_eq!(cmds, Vec::new());
    assert!(r.prev.iter().all(|c| c.is_none()));
}

#[test]
fn stale_entities_are_reported_in_scene_order() {
    let mut assets = AssetStore::new();
    let sp = assets.add_sprite(solid_sprite("A"));
    let st = bare_style(&mut assets);
    let scene = vec![
        entity(3, 0, 0, 0, sp, 9),
        entity(4, 0, 0, 0, sp, st),
        entity(5, 0, 0, 0, 8, st),
    ];
    assert_eq!(stale_entities(&scene, &assets), vec![3, 5]);
    assert_eq!(stale_entities(&vec![entity(4, 0, 0, 0, sp, st)], &assets), Vec::<u64>::new());
}
