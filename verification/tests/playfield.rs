use breakout::collision::{Hit, RectangleSide};
use breakout::level::{parse_level, Rect, Wall};
use breakout::playfield::{Block, Contact, LevelState, Obstacle};

fn level(text: &str) -> LevelState {
    LevelState::new(&parse_level(text).unwrap())
}

fn at(time: u32, side: RectangleSide) -> Option<Hit> {
    Some(Hit { time, side })
}

fn blocks_of(level: &LevelState) -> Vec<Block> {
    (0..level.block_count()).map(|k| level.block(k)).collect()
}

#[test]
fn a_level_begins_with_every_block_standing() {
    let level = level("##\n#\n");
    assert_eq!(level.block_count(), 3);
    assert_eq!(level.alive_count(), 3);
    assert!(level.is_launching_ball());
    assert!(!level.is_cleared());
    assert_eq!(level.width(), 48);
    assert_eq!(level.height(), 2 * 16 + 256);
    assert_eq!(level.block(0), Block { rect: Rect { x: 0, y: 272, w: 24, h: 16 }, hits: 0 });
    assert_eq!(level.block(1), Block { rect: Rect { x: 24, y: 272, w: 24, h: 16 }, hits: 0 });
    assert_eq!(level.block(2), Block { rect: Rect { x: 0, y: 256, w: 24, h: 16 }, hits: 0 });
}

#[test]
fn a_level_without_blocks_is_cleared_from_the_start() {
    let level = level("  \n");
    assert_eq!(level.alive_count(), 0);
    assert!(level.is_cleared());
}

#[test]
fn field_paddle_and_walls() {
    let level = level("####\n");
    assert_eq!(level.field(), Rect { x: 0, y: 0, w: 96, h: 272 });
    assert_eq!(level.paddle(), Rect { x: 0, y: 32, w: 96, h: 16 });
    assert_eq!(level.wall(Wall::Left), Rect { x: -24, y: 0, w: 24, h: 272 });
    assert_eq!(level.wall(Wall::Right), Rect { x: 96, y: 0, w: 24, h: 272 });
    assert_eq!(level.wall(Wall::Top), Rect { x: -24, y: 272, w: 144, h: 24 });
}

#[test]
fn paddle_is_centred() {
    assert_eq!(level("#").paddle(), Rect { x: -36, y: 32, w: 96, h: 16 });
    assert_eq!(level("##########").paddle(), Rect { x: 72, y: 32, w: 96, h: 16 });
    assert_eq!(level("").paddle(), Rect { x: -48, y: 32, w: 96, h: 16 });
}

#[test]
fn destroying_swaps_with_the_last_block_standing() {
    let mut level = level("####");
    let before = blocks_of(&level);
    level.destroy(1);
    assert_eq!(level.alive_count(), 3);
    assert_eq!(level.block_count(), 4);
    let after = blocks_of(&level);
    assert_eq!(after[0], before[0]);
    assert_eq!(after[1], before[3]);
    assert_eq!(after[2], before[2]);
    assert_eq!(after[3], Block { rect: before[1].rect, hits: 1 });
}

#[test]
fn destroying_the_last_block_standing_moves_nothing() {
    let mut level = level("###");
    let before = blocks_of(&level);
    level.destroy(2);
    assert_eq!(level.alive_count(), 2);
    let after = blocks_of(&level);
    assert_eq!(after[0], before[0]);
    assert_eq!(after[1], before[1]);
    assert_eq!(after[2], Block { rect: before[2].rect, hits: 1 });
}

#[test]
fn destroyed_blocks_stay_behind_the_boundary() {
    let mut level = level("#####");
    let start = blocks_of(&level);
    let mut alive = level.alive_count();
    let mut retired: Vec<Rect> = Vec::new();
    for i in [0usize, 0, 2, 1, 0] {
        let target = level.block(i);
        let survivors_before: Vec<Block> = (0..alive).map(|k| level.block(k)).collect();
        level.destroy(i);
        assert_eq!(level.alive_count(), alive - 1);
        alive = level.alive_count();
        assert_eq!(level.block_count(), start.len());
        assert_eq!(level.block(alive), Block { rect: target.rect, hits: 1 });
        retired.insert(0, target.rect);
        for (k, rect) in retired.iter().enumerate() {
            assert_eq!(level.block(alive + k), Block { rect: *rect, hits: 1 });
        }
        let mut expected: Vec<Rect> =
            survivors_before.iter().filter(|b| **b != target).map(|b| b.rect).collect();
        let mut got: Vec<Rect> = (0..alive).map(|k| level.block(k).rect).collect();
        expected.sort_by_key(|r| (r.x, r.y));
        got.sort_by_key(|r| (r.x, r.y));
        assert_eq!(got, expected);
        for k in 0..alive {
            assert_eq!(level.block(k).hits, 0);
        }
    }
    assert!(level.is_cleared());
}

#[test]
fn earliest_block_is_struck_and_destroyed() {
    let mut level = level("###");
    let second = level.block(1);
    let r = level.resolve(
        &[at(30, RectangleSide::South), at(10, RectangleSide::West), None],
        at(20, RectangleSide::East),
        None,
        at(40, RectangleSide::South),
        at(5, RectangleSide::North),
    );
    assert_eq!(
        r,
        Some(Contact { time: 10, side: RectangleSide::West, obstacle: Obstacle::Block(1) })
    );
    assert_eq!(level.alive_count(), 2);
    assert_eq!(level.block(2), Block { rect: second.rect, hits: 1 });
}

#[test]
fn wall_is_struck_when_it_comes_first() {
    let mut level = level("##");
    let before = blocks_of(&level);
    let r = level.resolve(
        &[at(30, RectangleSide::South), None],
        None,
        at(7, RectangleSide::West),
        at(9, RectangleSide::South),
        None,
    );
    assert_eq!(
        r,
        Some(Contact {
            time: 7,
            side: RectangleSide::West,
            obstacle: Obstacle::Wall(Wall::Right)
        })
    );
    assert_eq!(level.alive_count(), 2);
    assert_eq!(blocks_of(&level), before);
    let r = level.resolve(&[None, None], at(3, RectangleSide::East), None, None, None);
    assert_eq!(
        r,
        Some(Contact { time: 3, side: RectangleSide::East, obstacle: Obstacle::Wall(Wall::Left) })
    );
    let r = level.resolve(&[None, None], None, None, at(3, RectangleSide::South), None);
    assert_eq!(
        r,
        Some(Contact { time: 3, side: RectangleSide::South, obstacle: Obstacle::Wall(Wall::Top) })
    );
}

#[test]
fn ties_go_to_the_candidate_weighed_first() {
    let mut level = level("##");
    let r = level.resolve(
        &[None, at(8, RectangleSide::South)],
        at(8, RectangleSide::East),
        at(8, RectangleSide::West),
        at(8, RectangleSide::South),
        None,
    );
    assert_eq!(
        r,
        Some(Contact { time: 8, side: RectangleSide::South, obstacle: Obstacle::Block(1) })
    );
    let r = level.resolve(
        &[None],
        None,
        at(8, RectangleSide::West),
        at(8, RectangleSide::South),
        None,
    );
    assert_eq!(
        r,
        Some(Contact {
            time: 8,
            side: RectangleSide::West,
            obstacle: Obstacle::Wall(Wall::Right)
        })
    );
    let r = level.resolve(
        &[at(8, RectangleSide::North), at(8, RectangleSide::South)][..1],
        at(8, RectangleSide::East),
        None,
        None,
        None,
    );
    assert_eq!(
        r,
        Some(Contact { time: 8, side: RectangleSide::North, obstacle: Obstacle::Block(0) })
    );
}

#[test]
fn paddle_counts_only_from_above_and_only_when_nothing_else_is_struck() {
    let mut level = level("#");
    let r = level.resolve(&[None], None, None, None, at(12, RectangleSide::North));
    assert_eq!(
        r,
        Some(Contact { time: 12, side: RectangleSide::North, obstacle: Obstacle::Paddle })
    );
    for side in [RectangleSide::South, RectangleSide::East, RectangleSide::West] {
        assert_eq!(level.resolve(&[None], None, None, None, at(12, side)), None);
    }
    assert_eq!(level.resolve(&[None], None, None, None, None), None);
    assert_eq!(level.alive_count(), 1);
    let r = level.resolve(
        &[None],
        None,
        None,
        at(99, RectangleSide::South),
        at(1, RectangleSide::North),
    );
    assert_eq!(
        r,
        Some(Contact { time: 99, side: RectangleSide::South, obstacle: Obstacle::Wall(Wall::Top) })
    );
}

#[test]
fn only_the_paddle_consumes_time() {
    assert!(Obstacle::Paddle.consumes_time());
    assert!(!Obstacle::Block(0).consumes_time());
    assert!(!Obstacle::Wall(Wall::Left).consumes_time());
    assert!(!Obstacle::Wall(Wall::Right).consumes_time());
    assert!(!Obstacle::Wall(Wall::Top).consumes_time());
}

#[test]
fn launch_and_settle() {
    let mut level = level("#");
    assert!(!level.settle(0));
    assert!(level.is_launching_ball());
    assert!(level.launch());
    assert!(!level.is_launching_ball());
    assert!(!level.launch());
    assert!(!level.settle(2));
    assert!(!level.is_launching_ball());
    assert!(level.settle(0));
    assert!(level.is_launching_ball());
    assert_eq!(level.alive_count(), 1);
}

#[test]
fn a_ball_that_meets_the_paddle_from_above_leaves_upward() {
    let mut level = level("#");
    let time = 0.5f32.to_bits();
    let r = level.resolve(&[None], None, None, None, at(time, RectangleSide::North)).unwrap();
    assert_eq!(r.obstacle, Obstacle::Paddle);
    assert_eq!(r.side.normal(), (0, 1));
    assert_eq!(f32::from_bits(r.time), 0.5);
    let (vx, vy) = (0.0f32, -300.0f32);
    let (nx, ny) = r.side.normal();
    let out_x = if nx != 0 { nx as f32 * vx.abs() } else { vx };
    let out_y = if ny != 0 { ny as f32 * vy.abs() } else { vy };
    assert_eq!((out_x, out_y), (0.0, 300.0));
}
