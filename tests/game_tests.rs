use canvas_sim::game::{bricks_from_mask, create_bricks, paddle_bounce, Brick, GameState};
use canvas_sim::render::{DrawCmd, Message};

fn running(ball_x: i64, ball_y: i64, dx: i64, dy: i64, bricks: Vec<Brick>) -> GameState {
    GameState {
        ball_x,
        ball_y,
        ball_dx: dx,
        ball_dy: dy,
        paddle_x: 0,
        bricks,
        game_over: false,
        game_started: true,
        last_time: 0,
    }
}

fn brick(x: i64, y: i64) -> Brick {
    Brick { x, y, width: 50_000, height: 20_000, active: true }
}

#[test]
fn centre_hit_goes_straight_up() {
    assert_eq!(paddle_bounce(220_000, 180_000, 0, 300_000), (0, -300_000));
    assert_eq!(paddle_bounce(220_000, 180_000, 180_000, 240_000), (0, -300_000));
}

#[test]
fn edge_hits_leave_at_sixty_degrees() {
    let (dx, dy) = paddle_bounce(180_000, 180_000, 0, 300_000);
    assert_eq!(dx, 259_459);
    assert!(dy < 0);
    let speed2 = dx * dx + dy * dy;
    assert!(speed2 >= 300_000 * 300_000 && speed2 < 300_001 * 300_001);
    let angle = (dx as f64).atan2(-(dy as f64)).to_degrees();
    assert!((angle - 60.0).abs() < 0.5);
    let (rx, ry) = paddle_bounce(260_000, 180_000, 0, 300_000);
    assert_eq!((rx, ry), (-dx, dy));
}

#[test]
fn one_brick_per_tick() {
    let mut g = running(30_000, 70_000, 0, -300_000, vec![brick(5_000, 40_000), brick(5_000, 45_000), brick(300_000, 40_000)]);
    g.update(10_000);
    assert_eq!(g.ball_y, 67_000);
    assert!(!g.bricks[0].active);
    assert!(g.bricks[1].active);
    assert!(g.bricks[2].active);
    assert_eq!((g.ball_dx, g.ball_dy), (0, 300_000));
}

#[test]
fn side_hit_flips_horizontal() {
    let mut g = running(62_000, 50_000, -100_000, 0, vec![brick(5_000, 40_000), brick(300_000, 40_000)]);
    g.update(10_000);
    assert_eq!(g.ball_x, 61_000);
    assert!(!g.bricks[0].active);
    assert_eq!((g.ball_dx, g.ball_dy), (100_000, 0));
}

#[test]
fn clearing_the_last_brick_resets() {
    let mut g = running(30_000, 70_000, 0, -300_000, vec![brick(5_000, 40_000)]);
    g.paddle_x = 100_000;
    g.update(10_000);
    assert!(!g.game_started);
    assert!(!g.game_over);
    assert!(g.bricks.iter().all(|b| b.active));
    assert_eq!((g.ball_x, g.ball_y), (140_000, 292_000));
    assert_eq!(g.paddle_x, 100_000);
    assert_eq!(g.last_time, 10_000);
}

#[test]
fn bottom_ends_the_game_and_freezes_it() {
    let mut g = running(400_000, 320_000, 0, 300_000, vec![brick(5_000, 40_000)]);
    g.update(100_000);
    assert!(g.game_over);
    assert_eq!(g.ball_y, 350_000);
    let (x, y, dx, dy) = (g.ball_x, g.ball_y, g.ball_dx, g.ball_dy);
    g.update(200_000);
    assert_eq!((g.ball_x, g.ball_y, g.ball_dx, g.ball_dy), (x, y, dx, dy));
    assert_eq!(g.last_time, 100_000);
    g.click(500_000, 10, 300_000);
    assert!(g.game_over);
    g.click(10, 10, 300_000);
    assert!(!g.game_over);
    assert!(!g.game_started);
    assert_eq!(g.paddle_x, 180_000);
}

#[test]
fn time_step_is_capped() {
    let mut g = running(200_000, 200_000, 0, -300_000, vec![brick(5_000, 40_000)]);
    g.update(5_000_000);
    assert_eq!(g.ball_y, 170_000);
    let mut h = running(200_000, 200_000, 0, -300_000, vec![brick(5_000, 40_000)]);
    h.last_time = 50;
    h.update(10);
    assert_eq!(h.ball_y, 200_000);
}

#[test]
fn walls_reverse_the_ball() {
    let mut g = running(9_000, 100_000, -100_000, -100_000, vec![brick(300_000, 40_000)]);
    g.update(10_000);
    assert_eq!(g.ball_dx, 100_000);
    let mut h = running(100_000, 9_000, 0, -100_000, vec![brick(300_000, 200_000)]);
    h.update(10_000);
    assert_eq!(h.ball_dy, 100_000);
}

#[test]
fn paddle_bounce_in_a_tick() {
    let mut g = running(220_000, 290_000, 0, 300_000, vec![brick(5_000, 40_000)]);
    g.paddle_x = 180_000;
    g.update(10_000);
    assert_eq!((g.ball_dx, g.ball_dy), (0, -300_000));
    assert!(!g.game_over);
}

#[test]
fn waiting_ball_follows_paddle_and_launches() {
    let mut g = GameState::new(0);
    assert!(!g.game_started);
    g.set_paddle(0);
    assert_eq!(g.paddle_x, 0);
    g.set_paddle(1_000_000);
    assert_eq!(g.paddle_x, 360_000);
    g.set_paddle(200_000);
    assert_eq!(g.paddle_x, 160_000);
    g.update(1_000);
    assert_eq!((g.ball_x, g.ball_y), (200_000, 292_000));
    g.click(-1, 5, 2_000);
    assert!(!g.game_started);
    g.click(1, 5, 2_000);
    assert!(g.game_started);
    assert!(g.ball_dy < 0);
    let s2 = g.ball_dx * g.ball_dx + g.ball_dy * g.ball_dy;
    assert!(s2 >= 300_000 * 300_000 && s2 < 300_001 * 300_001);
    assert!(g.ball_dx.abs() <= 259_459);
}

#[test]
fn grid_of_bricks() {
    let all = bricks_from_mask(&vec![true; 35]);
    assert_eq!(all.len(), 35);
    assert_eq!(all[0], brick(5_000, 40_000));
    assert_eq!(all[34], brick(335_000, 140_000));
    let mut mask = vec![false; 35];
    mask[8] = true;
    assert_eq!(bricks_from_mask(&mask), vec![brick(60_000, 65_000)]);
    let random = create_bricks();
    assert!(random.len() <= 35);
    assert!(random.iter().all(|b| b.active && b.width == 50_000));
}

#[test]
fn game_frame_layout() {
    let mut g = running(100_000, 100_000, 0, 0, vec![brick(5_000, 40_000), brick(60_000, 40_000)]);
    g.bricks[1].active = false;
    g.game_over = true;
    let cmds = g.render();
    assert_eq!(cmds.len(), 3 + 1 + 2);
    assert_eq!(cmds[0], DrawCmd::Clear { width: 440_000, height: 330_000 });
    assert_eq!(cmds[3], DrawCmd::Brick { x: 5_000, y: 40_000, width: 50_000, height: 20_000 });
    assert!(matches!(cmds[4], DrawCmd::Text { message: Message::GameOver, .. }));
    g.game_over = false;
    g.game_started = false;
    let start = g.render();
    assert!(matches!(start[4], DrawCmd::Text { message: Message::ClickToStart, .. }));
}
