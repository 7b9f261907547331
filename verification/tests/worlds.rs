use neosurv::saves::world_index::{seed_from_time, SaveIndex, WorldSaveManager, WorldSummary};
use neosurv::ui::chat::ChatState;
use neosurv::ui::menu::{sanitize_menu_text, MenuCommand, StartMenuState};
use neosurv::ui::text::{glyph_rows, sanitize_text};
use neosurv::world::block::BlockType;
use neosurv::world::chunk::{ChunkCoord, LocalCoord};
use neosurv::world::generation::{block_for_height, generate_chunk};

fn summary(id: &str, name: &str) -> WorldSummary {
    WorldSummary {
        id: id.to_string(),
        name: name.to_string(),
        seed: 1,
        created_unix_secs: 10,
        last_played_unix_secs: 10,
    }
}

fn manager(selected: Option<&str>) -> WorldSaveManager {
    WorldSaveManager::new(SaveIndex {
        selected_world_id: selected.map(|s| s.to_string()),
        worlds: vec![summary("a", "ALPHA"), summary("b", "BETA"), summary("c", "GAMMA")],
    })
}

#[test]
fn selection_cycles_through_worlds() {
    let mut m = manager(Some("c"));
    assert_eq!(m.selected_world_name(), "GAMMA");
    assert!(m.select_next_world());
    assert_eq!(m.selected_world_position(), Some(0));
    assert!(m.select_previous_world());
    assert_eq!(m.selected_world_name(), "GAMMA");
    assert!(m.select_previous_world());
    assert_eq!(m.selected_world_name(), "BETA");
}

#[test]
fn no_selection_counts_as_first() {
    let mut m = manager(None);
    assert_eq!(m.selected_world_name(), "WORLD");
    assert!(m.select_next_world());
    assert_eq!(m.selected_world_name(), "BETA");
    let mut m = manager(None);
    assert!(m.select_previous_world());
    assert_eq!(m.selected_world_name(), "GAMMA");
    let mut m = manager(None);
    assert!(m.ensure_selection());
    assert_eq!(m.selected_world_name(), "ALPHA");
    assert!(!m.ensure_selection());
}

#[test]
fn empty_index_does_not_change() {
    let mut m = WorldSaveManager::new(SaveIndex { selected_world_id: None, worlds: Vec::new() });
    assert!(!m.select_next_world());
    assert!(!m.select_previous_world());
    assert!(!m.ensure_selection());
    assert!(m.selected_world().is_none());
}

#[test]
fn new_world_is_numbered_and_registered() {
    let mut m = manager(Some("a"));
    let w = m.plan_new_world(1_700_000_000);
    assert_eq!(w.id, "world-4-1700000000");
    assert_eq!(w.name, "WORLD 4");
    assert_eq!(w.seed, seed_from_time(1_700_000_000, 4));
    assert_eq!(w.created_unix_secs, 1_700_000_000);
    m.register_world(w);
    assert_eq!(m.selected_world_name(), "WORLD 4");
    assert_eq!(m.index.worlds.len(), 4);
}

#[test]
fn touching_a_world_records_when_it_was_played() {
    let mut m = manager(Some("a"));
    m.touch_world(&"b".to_string(), 99);
    assert_eq!(m.index.worlds[1].last_played_unix_secs, 99);
    assert_eq!(m.index.worlds[0].last_played_unix_secs, 10);
    assert_eq!(m.index.worlds[1].name, "BETA");
}

#[test]
fn world_seed_matches_its_definition() {
    let now: u64 = 1_700_000_000;
    let salt: u64 = 4;
    let mixed = now ^ (salt << 21) ^ 0xC0FF_EE42u64;
    let expected = (mixed as u32).rotate_left(13) ^ ((mixed >> 17) as u32);
    assert_eq!(seed_from_time(now, salt), expected);
}

#[test]
fn start_menu_navigation() {
    let mut menu = StartMenuState::new();
    assert_eq!(menu.activate_selected(), MenuCommand::PlaySelectedWorld);
    menu.move_selection_up();
    assert_eq!(menu.selected_button(), 0);
    menu.move_selection_down();
    assert_eq!(menu.activate_selected(), MenuCommand::CreateWorld);
    menu.move_selection_down();
    menu.move_selection_down();
    menu.move_selection_down();
    assert_eq!(menu.selected_button(), 3);
    assert_eq!(menu.activate_selected(), MenuCommand::Quit);
}

#[test]
fn text_is_upper_cased_and_unknown_glyphs_blanked() {
    assert_eq!(sanitize_text("hello, world!"), "HELLO  WORLD!");
    assert_eq!(sanitize_text("/give: 1.5-x"), "/GIVE: 1.5-X");
    assert_eq!(sanitize_menu_text("/give: 1.5-x!"), " GIVE  1 5 X ");
    assert_eq!(glyph_rows('/'), Some([0b00001, 0b00010, 0b00100, 0b01000, 0b10000, 0, 0]));
    assert_eq!(sanitize_text(""), " ");
    assert_eq!(sanitize_menu_text(""), "WORLD");
    assert_eq!(sanitize_menu_text("world 2"), "WORLD 2");
    assert!(glyph_rows('A').is_some());
    assert!(glyph_rows('a').is_none());
    assert_eq!(glyph_rows(' '), Some([0; 7]));
}

#[test]
fn chat_keeps_the_last_six_lines() {
    let mut chat = ChatState::new();
    for i in 0..8 {
        chat.push_system_line(format!("line {i}"));
    }
    let v = chat.visual_state();
    assert_eq!(v.lines.len(), 6);
    assert_eq!(v.lines[0].0, "line 2");
    assert_eq!(v.lines[5].0, "line 7");
}

#[test]
fn chat_typing_and_submitting() {
    let mut chat = ChatState::new();
    chat.append_text("ignored");
    assert!(!chat.is_open());
    chat.open_with_slash();
    chat.append_text("give medkit");
    chat.backspace();
    let sent = chat.submit();
    assert_eq!(sent, Some("/give medki".to_string()));
    assert!(!chat.is_open());
    let v = chat.visual_state();
    assert_eq!(v.lines, vec![("> /give medki".to_string(), false)]);
    chat.open();
    chat.append_text("   ");
    assert_eq!(chat.submit(), None);
}

#[test]
fn chat_input_is_limited_to_seventy_two_bytes() {
    let mut chat = ChatState::new();
    chat.open();
    chat.append_text(&"x".repeat(100));
    assert_eq!(chat.visual_state().input.len(), 72);
}

#[test]
fn terrain_columns_follow_the_surface() {
    assert_eq!(block_for_height(10, 8, 4), BlockType::Air);
    assert_eq!(block_for_height(8, 8, 4), BlockType::Grass);
    assert_eq!(block_for_height(3, 3, 4), BlockType::Sand);
    assert_eq!(block_for_height(5, 8, 4), BlockType::Dirt);
    assert_eq!(block_for_height(4, 8, 4), BlockType::Stone);
}

#[test]
fn generated_chunks_depend_only_on_their_heights() {
    let heights: Vec<i32> = (0..256).map(|i| (i % 16) as i32).collect();
    let a = generate_chunk(ChunkCoord::new(0, 0, 0), &heights, 4);
    let b = generate_chunk(ChunkCoord::new(0, 0, 0), &heights, 4);
    let flat = vec![2; 256];
    let c = generate_chunk(ChunkCoord::new(0, 0, 0), &flat, 4);
    let samples = [
        LocalCoord::new(0, 0, 0),
        LocalCoord::new(3, 6, 9),
        LocalCoord::new(8, 8, 8),
        LocalCoord::new(12, 4, 2),
        LocalCoord::new(15, 15, 15),
    ];
    for p in samples {
        assert_eq!(a.block(p), b.block(p));
    }
    assert!(samples.iter().any(|p| a.block(*p) != c.block(*p)));
    assert_eq!(a.block(LocalCoord::new(12, 12, 0)), BlockType::Grass);
    assert_eq!(a.block(LocalCoord::new(12, 13, 0)), BlockType::Air);
}

#[test]
fn sanitized_text_is_drawable_and_stable() {
    let once = sanitize_text("Hello, world #7!");
    assert_eq!(once, "HELLO  WORLD  7!");
    assert_eq!(sanitize_text(&once), once);
    assert_eq!(sanitize_text(""), " ");
}
