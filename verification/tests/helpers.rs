use pixels_engine::components::AnimatedSprite;
use pixels_engine::components::SpellEffect;
use pixels_engine::components::SpellEffectType;
use pixels_engine::components::SpriteType;
use pixels_engine::draw::draw_grid;
use pixels_engine::fps_counter::FpsCounter;
use pixels_engine::input::Input;
use pixels_engine::input::Key;
use pixels_engine::ivec2::IVec2;
use pixels_engine::movement_util::Axis;
use pixels_engine::movement_util::Direction;
use pixels_engine::movement_util::PositionExt;
use pixels_engine::resource::LightMap;
use pixels_engine::spritesheet::SpritesheetConfig;
use pixels_engine::tile::tile_id_to_position;
use pixels_engine::tile::CurrentLevelId;
use pixels_engine::tile::Level;
use pixels_engine::tile::TileAnimation;
use pixels_engine::tile::TileData;
use pixels_engine::tile::TileMap;
use pixels_engine::SCREEN_HEIGHT;
use pixels_engine::SCREEN_WIDTH;

#[test]
fn direction_from_vector_unit_steps() {
    assert_eq!(Direction::from_vector((0, 1)), Some(Direction::Down));
    assert_eq!(Direction::from_vector((0, -1)), Some(Direction::Up));
    assert_eq!(Direction::from_vector((1, 0)), Some(Direction::Right));
    assert_eq!(Direction::from_vector((-1, 0)), Some(Direction::Left));
    assert_eq!(Direction::from_vector((1, 1)), None);
    assert_eq!(Direction::from_vector((0, 0)), None);
}

#[test]
fn direction_axes_and_components() {
    assert_eq!(Direction::Up.axis(), Axis::Vertical);
    assert_eq!(Direction::Down.axis(), Axis::Vertical);
    assert_eq!(Direction::Left.axis(), Axis::Horizontal);
    assert_eq!(Direction::Right.axis(), Axis::Horizontal);
    assert_eq!(Direction::Left.x(), -1);
    assert_eq!(Direction::Right.x(), 1);
    assert_eq!(Direction::Up.x(), 0);
    assert_eq!(Direction::Up.y(), -1);
    assert_eq!(Direction::Down.y(), 1);
    assert_eq!(Direction::Left.y(), 0);
    let v = Direction::Right.to_vector();
    assert_eq!((v.x, v.y), (1, 0));
    assert_eq!(Direction::default(), Direction::Down);
}

#[test]
fn direction_from_str_names() {
    assert_eq!(Direction::from_str("Up"), Ok(Direction::Up));
    assert_eq!(Direction::from_str("Down"), Ok(Direction::Down));
    assert_eq!(Direction::from_str("Left"), Ok(Direction::Left));
    assert_eq!(Direction::from_str("Right"), Ok(Direction::Right));
    assert_eq!(
        Direction::from_str("up"),
        Err(String::from("Invalid direction: up"))
    );
    assert_eq!(
        Direction::from_str(""),
        Err(String::from("Invalid direction: "))
    );
}

#[test]
fn ivec2_arithmetic() {
    let a = IVec2::new(3, -4);
    let b = IVec2::new(-1, 10);
    let sum = a.add(b);
    assert_eq!((sum.x, sum.y), (2, 6));
    let diff = a.sub(b);
    assert_eq!((diff.x, diff.y), (4, -14));
    let scaled = a.mul(-2);
    assert_eq!((scaled.x, scaled.y), (-6, 8));
    let mut c = IVec2::zero();
    c.add_assign(a);
    assert_eq!((c.x, c.y), (3, -4));
}

#[test]
fn tile_coordinates_round_towards_negative_infinity() {
    assert_eq!(IVec2::new(0, 0).tile_coordinate(), (0, 0));
    assert_eq!(IVec2::new(15, 16).tile_coordinate(), (0, 1));
    assert_eq!(IVec2::new(31, 47).tile_coordinate(), (1, 2));
    assert_eq!(IVec2::new(-1, -16).tile_coordinate(), (-1, -1));
    assert_eq!(IVec2::new(-17, -33).tile_coordinate(), (-2, -3));
}

#[test]
fn input_direction_stack() {
    let mut input = Input::new();
    assert!(input.none());
    assert_eq!(input.current_direction(), None);

    input.process_key(Key::W, true);
    input.process_key(Key::A, true);
    assert_eq!(input.current_direction(), Some(Direction::Left));
    assert_eq!(input.vector(), (-1, 0));

    // Releasing the most recent direction falls back to the older one.
    input.process_key(Key::A, false);
    assert_eq!(input.current_direction(), Some(Direction::Up));
    assert_eq!(input.vector(), (0, -1));

    // Pressing a held direction again moves it to the top of the stack.
    input.process_key(Key::D, true);
    input.process_key(Key::W, true);
    assert_eq!(input.current_direction(), Some(Direction::Up));

    input.clear();
    assert!(input.none());
    assert_eq!(input.vector(), (0, 0));
}

#[test]
fn input_flags_and_unhandled_keys() {
    let mut input = Input::new();
    assert!(input.process_key(Key::LShift, true));
    assert!(input.process_key(Key::J, true));
    assert!(input.process_key(Key::K, true));
    assert!(input.process_key(Key::Space, true));
    assert!(input.shift());
    assert!(input.j());
    assert!(input.k());
    assert!(input.space());
    assert!(!input.process_key(Key::Other, true));
    assert!(input.process_key(Key::Space, false));
    assert!(!input.space());
    input.clear();
    assert!(!input.shift());
    assert!(input.j());
}

#[test]
fn fps_counter_sleep_time() {
    let counter = FpsCounter::new(240);
    // 1_000_000 / 240 microseconds per frame.
    assert_eq!(counter.calculate_sleep_time(0), 4_166);
    assert_eq!(counter.calculate_sleep_time(4_000), 166);
    assert_eq!(counter.calculate_sleep_time(4_166), 0);
    assert_eq!(counter.calculate_sleep_time(9_999), 0);
}

#[test]
fn fps_counter_stats() {
    let mut counter = FpsCounter::new(60);
    assert_eq!(counter.frame_stats(), None);
    counter.record_frame(10_000);
    counter.record_frame(30_000);
    counter.record_frame(20_000);
    assert_eq!(counter.frame_stats(), Some((20_000, 10_000, 30_000)));
    counter.clear_frames();
    assert_eq!(counter.frame_stats(), None);
}

#[test]
fn light_map_default_and_clear() {
    let mut map = LightMap::default();
    assert_eq!(map.width, SCREEN_WIDTH);
    assert_eq!(map.height, SCREEN_HEIGHT);
    assert_eq!(map.scale, 1);
    assert_eq!(map.buffer.len(), (SCREEN_WIDTH * SCREEN_HEIGHT * 4) as usize);
    map.buffer[5] = 77;
    map.clear();
    assert!(map.buffer.iter().all(|&b| b == 0));
}

#[test]
fn tile_animation_cycles() {
    let frames = vec![IVec2::new(0, 0), IVec2::new(16, 0), IVec2::new(32, 0)];
    let mut animation = TileAnimation::new(frames, 100_000);
    assert_eq!(animation.current_position(), IVec2::new(0, 0));

    animation.update(60_000);
    assert_eq!(animation.current_position(), IVec2::new(0, 0));
    assert_eq!(animation.accumulated_micros, 60_000);

    // Crossing the frame duration advances one frame, keeping the rest.
    animation.update(50_000);
    assert_eq!(animation.current_position(), IVec2::new(16, 0));
    assert_eq!(animation.accumulated_micros, 10_000);

    animation.update(100_000);
    assert_eq!(animation.current_position(), IVec2::new(32, 0));

    // The animation wraps around to the first frame.
    animation.update(100_000);
    assert_eq!(animation.current_position(), IVec2::new(0, 0));
}

#[test]
fn tile_ids_map_to_tileset_positions() {
    assert_eq!(tile_id_to_position(0, 4), IVec2::new(0, 0));
    assert_eq!(tile_id_to_position(3, 4), IVec2::new(48, 0));
    assert_eq!(tile_id_to_position(5, 4), IVec2::new(16, 16));
    assert_eq!(tile_id_to_position(9, 3), IVec2::new(0, 48));
}

fn sample_tile(x: i64, y: i64, traversable: bool) -> ((i64, i64), TileData) {
    (
        (x, y),
        TileData {
            tileset_position: IVec2::new(0, 0),
            position: IVec2::new(x * 16, y * 16),
            traversable,
            transition: None,
            animation: None,
        },
    )
}

fn sample_level(id: &str) -> Level {
    Level {
        tiles: vec![sample_tile(0, 0, true), sample_tile(1, 0, false)],
        tileset_pixels: vec![0; 16 * 16 * 4],
        tileset_width: 16,
        tileset_height: 16,
        level_id: String::from(id),
        indoors: false,
    }
}

#[test]
fn level_tile_lookup() {
    let level = sample_level("start");
    assert!(level.get_tile(0, 0).unwrap().traversable);
    assert!(!level.get_tile(1, 0).unwrap().traversable);
    assert!(level.get_tile(2, 2).is_none());
}

#[test]
fn tile_map_level_lookup() {
    let map = TileMap {
        levels: vec![sample_level("start"), sample_level("cave")],
        initial_level_id: String::from("start"),
        tilesize: 16,
        player_starting_position: IVec2::new(32, 32),
        entities: Vec::new(),
    };
    assert_eq!(map.initial_level_id(), String::from("start"));
    let level = map.get_level(&CurrentLevelId(String::from("cave")));
    assert_eq!(level.level_id, String::from("cave"));
    assert!(map.get_entity(&String::from("door")).is_none());
}

fn pixel(frame: &[u8], x: u32, y: u32) -> [u8; 4] {
    let i = ((y * SCREEN_WIDTH + x) * 4) as usize;
    [frame[i], frame[i + 1], frame[i + 2], frame[i + 3]]
}

#[test]
fn line_paints_only_the_segment() {
    let mut frame = vec![7u8; (SCREEN_WIDTH * SCREEN_HEIGHT * 4) as usize];
    pixels_engine::draw::line((4, 2), (4, 5), &mut frame);
    assert_eq!(pixel(&frame, 4, 2), [255, 255, 255, 255]);
    assert_eq!(pixel(&frame, 4, 4), [255, 255, 255, 255]);
    // The end point is excluded and neighbours stay untouched.
    assert_eq!(pixel(&frame, 4, 5), [7, 7, 7, 7]);
    assert_eq!(pixel(&frame, 3, 3), [7, 7, 7, 7]);

    pixels_engine::draw::line((1, 9), (6, 9), &mut frame);
    assert_eq!(pixel(&frame, 1, 9), [255, 255, 255, 255]);
    assert_eq!(pixel(&frame, 5, 9), [255, 255, 255, 255]);
    assert_eq!(pixel(&frame, 6, 9), [7, 7, 7, 7]);
}

#[test]
fn grid_lines_every_tile() {
    let mut frame = vec![0u8; (SCREEN_WIDTH * SCREEN_HEIGHT * 4) as usize];
    draw_grid(&mut frame);
    // Interior vertical edges and all horizontal edges are white.
    assert_eq!(pixel(&frame, 16, 5), [255, 255, 255, 255]);
    assert_eq!(pixel(&frame, 144, 77), [255, 255, 255, 255]);
    assert_eq!(pixel(&frame, 5, 0), [255, 255, 255, 255]);
    assert_eq!(pixel(&frame, 5, 128), [255, 255, 255, 255]);
    // The left screen edge is not an interior edge; cell interiors stay dark.
    assert_eq!(pixel(&frame, 0, 5), [0, 0, 0, 0]);
    assert_eq!(pixel(&frame, 17, 18), [0, 0, 0, 0]);
}

#[test]
fn player_sprite_frames() {
    let sprite = AnimatedSprite::new(SpriteType::default());
    assert_eq!(sprite.get_sprite_frames(&Direction::Down, false), vec![(1, 0)]);
    assert_eq!(
        sprite.get_sprite_frames(&Direction::Down, true),
        vec![(1, 0), (0, 0), (1, 0), (2, 0)]
    );
    assert_eq!(sprite.get_sprite_frames(&Direction::Left, true), vec![(6, 0), (7, 0)]);
    assert_eq!(sprite.get_current_frame(&Direction::Right, false), (8, 0));

    let mut walking = AnimatedSprite::new(SpriteType::Player);
    walking.current_animation_frame = 5;
    // Frame 5 of a 4-frame walk cycle wraps to frame 1.
    assert_eq!(walking.get_current_frame(&Direction::Down, true), (0, 0));
}

#[test]
fn spell_effect_frames() {
    let effect = SpellEffect::new(SpellEffectType::Fireball);
    assert!(!effect.is_finished);
    let frames = effect.get_sprite_frames();
    assert_eq!(frames.len(), 11);
    assert_eq!(frames[0], (0, 0));
    assert_eq!(frames[10], (10, 0));
}

#[test]
fn spritesheet_layout() {
    let config = SpritesheetConfig::default();
    assert_eq!(config.sprite_width, 16);
    assert_eq!(config.padding, 0);
    assert_eq!(config.sprite_origin(2, 3), (32, 48));

    let padded = SpritesheetConfig { sprite_width: 16, sprite_height: 16, padding: 1 };
    assert_eq!(padded.sprite_origin(2, 3), (34, 51));
}

#[test]
fn animation_data_parses() {
    let data = b"animationTiles:1,2,3\nframeTime:100";
    let animation = pixels_engine::tile::read_animation_data(data, 4).unwrap();
    assert_eq!(animation.frame_duration_micros, 100_000);
    assert_eq!(animation.current_frame, 0);
    assert_eq!(animation.accumulated_micros, 0);
    assert_eq!(
        animation.frames,
        vec![IVec2::new(16, 0), IVec2::new(32, 0), IVec2::new(48, 0)]
    );

    let single = pixels_engine::tile::read_animation_data(b"animationTiles:7\nframeTime:50", 4)
        .unwrap();
    assert_eq!(single.frames, vec![IVec2::new(48, 16)]);
    assert_eq!(single.frame_duration_micros, 50_000);
}

#[test]
fn animation_data_rejects_malformed_text() {
    let read = pixels_engine::tile::read_animation_data;
    // Not animation data at all.
    assert!(read(b"somethingElse:1\nframeTime:100", 4).is_none());
    // No second line.
    assert!(read(b"animationTiles:1,2", 4).is_none());
    // Missing colon on a line.
    assert!(read(b"animationTiles\nframeTime:100", 4).is_none());
    assert!(read(b"animationTiles:1\nframeTime", 4).is_none());
    // Malformed numerals.
    assert!(read(b"animationTiles:1,,2\nframeTime:100", 4).is_none());
    assert!(read(b"animationTiles:1,x\nframeTime:100", 4).is_none());
    assert!(read(b"animationTiles:1\nframeTime:10ms", 4).is_none());
    // An id that does not fit a tile id.
    assert!(read(b"animationTiles:4294967296\nframeTime:100", 4).is_none());
}

#[test]
fn draw_tile_copies_tileset_pixels() {
    // A 2x2-tile tileset of 4x4-pixel tiles, each byte numbered.
    let tilesize: i64 = 4;
    let tileset_width: u32 = 8;
    let tileset: Vec<u8> = (0..(8 * 8 * 4)).map(|i| (i % 251) as u8).collect();
    let tile = TileData {
        tileset_position: IVec2::new(4, 4),
        position: IVec2::new(0, 0),
        traversable: true,
        transition: None,
        animation: None,
    };
    let mut frame = vec![9u8; (SCREEN_WIDTH * SCREEN_HEIGHT * 4) as usize];
    pixels_engine::tile::draw_tile(&mut frame, &tileset, tileset_width, &tile, tilesize, 10, -2);

    // Pixel (10, 0) on screen shows tile pixel (0, 2): tileset (4, 6).
    let src = ((6 * 8 + 4) * 4) as usize;
    let dst = ((0 * SCREEN_WIDTH + 10) * 4) as usize;
    assert_eq!(frame[dst..dst + 4], tileset[src..src + 4]);
    // Rows above the screen were skipped and neighbours stay untouched.
    let left = ((0 * SCREEN_WIDTH + 9) * 4) as usize;
    assert_eq!(frame[left..left + 4], [9, 9, 9, 9]);
    let right = ((1 * SCREEN_WIDTH + 14) * 4) as usize;
    assert_eq!(frame[right..right + 4], [9, 9, 9, 9]);
}

#[test]
fn sprite_blit_respects_transparency() {
    // A 2x1 sprite: an opaque red pixel next to a fully transparent one.
    let sprite: Vec<u8> = vec![200, 0, 0, 255, 1, 2, 3, 0];
    let mut frame = vec![7u8; (SCREEN_WIDTH * SCREEN_HEIGHT * 4) as usize];
    pixels_engine::spritesheet::draw_sprite_pixels(&mut frame, &sprite, 2, 1, 3, 2);

    // The opaque pixel lands at (3, 2); the transparent one leaves (4, 2).
    assert_eq!(pixel(&frame, 3, 2), [200, 0, 0, 255]);
    assert_eq!(pixel(&frame, 4, 2), [7, 7, 7, 7]);
    assert_eq!(pixel(&frame, 2, 2), [7, 7, 7, 7]);

    // Off-screen destinations are skipped entirely.
    pixels_engine::spritesheet::draw_sprite_pixels(&mut frame, &sprite, 2, 1, -2, 0);
    assert_eq!(pixel(&frame, 0, 0), [7, 7, 7, 7]);
}

#[test]
fn tile_animation_zero_duration_advances_every_step() {
    // A zero frame duration means a new frame on every update.
    let frames = vec![IVec2::new(0, 0), IVec2::new(16, 0)];
    let mut animation = TileAnimation::new(frames, 0);
    assert_eq!(animation.current_position(), IVec2::new(0, 0));
    animation.update(7);
    assert_eq!(animation.current_position(), IVec2::new(16, 0));
    assert_eq!(animation.accumulated_micros, 7);
    animation.update(0);
    assert_eq!(animation.current_position(), IVec2::new(0, 0));
}

#[test]
fn tile_animation_without_frames_is_constructible() {
    let animation = TileAnimation::new(Vec::new(), 100_000);
    assert!(animation.frames.is_empty());
    assert_eq!(animation.current_frame, 0);
    assert_eq!(animation.accumulated_micros, 0);
}

#[test]
fn animation_data_allows_zero_frame_time() {
    let animation =
        pixels_engine::tile::read_animation_data(b"animationTiles:1,2\nframeTime:0", 4).unwrap();
    assert_eq!(animation.frame_duration_micros, 0);
    assert_eq!(animation.frames.len(), 2);
}
