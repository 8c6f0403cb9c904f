use canvas_sim::burst::{Particle, ParticleSystem, Vec2};
use canvas_sim::color::Rgb;

const FAR: i64 = 10_000_000_000;

fn still(x: i64, y: i64) -> Particle {
    Particle {
        position: Vec2 { x, y },
        velocity: Vec2 { x: 0, y: 0 },
        acceleration: Vec2 { x: 0, y: 0 },
        radius: 3000,
        color: Rgb { r: 160, g: 200, b: 220 },
        alpha: 800,
        life: 1000,
    }
}

#[test]
fn speed_is_capped_at_three_pixels() {
    let mut p = still(100_000, 100_000);
    p.velocity = Vec2 { x: 5000, y: 0 };
    p.step(440_000, 330_000, FAR, FAR, 900);
    assert_eq!(p.velocity, Vec2 { x: 2970, y: 0 });
    assert_eq!(p.position, Vec2 { x: 103_000, y: 100_000 });
    let v = p.velocity;
    assert!(v.x * v.x + v.y * v.y <= 3000 * 3000);
}

#[test]
fn edge_clamps_and_damps() {
    let mut p = still(1000, 100_000);
    p.velocity = Vec2 { x: -2000, y: 0 };
    p.step(440_000, 330_000, FAR, FAR, 900);
    assert_eq!(p.position.x, 3000);
    assert_eq!(p.velocity.x, 1188);
    let mut q = still(439_000, 329_000);
    q.velocity = Vec2 { x: 2000, y: 2000 };
    q.update(440_000, 330_000, FAR, FAR);
    assert_eq!(q.position, Vec2 { x: 437_000, y: 327_000 });
}

#[test]
fn pointer_pushes_away() {
    let mut p = still(100_000, 100_000);
    p.step(440_000, 330_000, 110_000, 100_000, 900);
    assert_eq!(p.acceleration, Vec2 { x: -50, y: 0 });
}

#[test]
fn burst_life_runs_down_and_recycles() {
    let mut p = still(100_000, 100_000);
    p.life = 700;
    p.step(440_000, 330_000, FAR, FAR, 900);
    assert_eq!((p.life, p.alpha), (690, 690));
    let mut q = still(100_000, 100_000);
    q.life = 10;
    q.update(440_000, 330_000, FAR, FAR);
    assert_eq!(q.life, 1000);
    assert!(q.alpha >= 700 && q.alpha < 1000);
}

#[test]
fn new_particles_are_in_range() {
    for _ in 0..50 {
        let p = Particle::new(5, 6, true);
        assert_eq!(p.position, Vec2 { x: 5, y: 6 });
        assert!(p.velocity.x >= -2000 && p.velocity.x < 2000);
        assert!(p.radius >= 2000 && p.radius < 4000);
        assert!(p.alpha >= 700 && p.alpha < 1000);
        assert!(p.color.r >= 150 && p.color.r < 200);
        assert_eq!(p.life, 700);
        let q = Particle::new(5, 6, false);
        assert!(q.velocity.y >= -250 && q.velocity.y < 250);
        assert_eq!(q.life, 1000);
    }
}

#[test]
fn burst_adds_eight() {
    let mut s = ParticleSystem::new(0, 440_000, 330_000, 100_000);
    s.create_burst(1000, 2000);
    assert_eq!(s.particles.len(), 8);
    assert!(s.particles.iter().all(|p| p.position == Vec2 { x: 1000, y: 2000 } && p.life == 700));
}

#[test]
fn burst_evicts_oldest_at_cap() {
    let mut s = ParticleSystem::new(115, 440_000, 330_000, 100_000);
    let before = s.particles.clone();
    assert!(before.iter().all(|p| p.position.x >= 0 && p.position.x < 440_000));
    s.create_burst(1000, 2000);
    assert_eq!(s.particles.len(), 120);
    assert_eq!(&s.particles[..112], &before[3..]);
    let mut t = ParticleSystem::new(130, 440_000, 330_000, 100_000);
    t.create_burst(0, 0);
    assert_eq!(t.particles.len(), 120);
}

#[test]
fn close_particles_pull_each_other() {
    let mut s = ParticleSystem::new(0, 440_000, 330_000, 100_000);
    s.particles.push(still(100_000, 100_000));
    s.particles.push(still(101_000, 100_000));
    s.particles.push(still(300_000, 300_000));
    s.update(FAR, FAR);
    assert_eq!(s.particles[0].acceleration, Vec2 { x: 20, y: 0 });
    assert_eq!(s.particles[1].acceleration, Vec2 { x: -20, y: 0 });
    assert_eq!(s.particles[2].acceleration, Vec2 { x: 0, y: 0 });
}

#[test]
fn pull_grows_with_inverse_square() {
    let mut s = ParticleSystem::new(0, 440_000, 330_000, 100_000);
    s.particles.push(still(200_000, 100_000));
    s.particles.push(still(200_000, 100_500));
    s.update(FAR, FAR);
    assert_eq!(s.particles[0].acceleration, Vec2 { x: 0, y: 80 });
    assert_eq!(s.particles[1].acceleration, Vec2 { x: 0, y: -80 });
}

#[test]
fn frame_draws_lines_then_discs() {
    let mut s = ParticleSystem::new(0, 440_000, 330_000, 100_000);
    s.particles.push(still(100_000, 100_000));
    s.particles.push(still(150_000, 100_000));
    s.particles.push(still(300_000, 300_000));
    s.particles[1].alpha = 900;
    s.particles[1].color = Rgb { r: 100, g: 100, b: 100 };
    let lines = s.draw_connections();
    assert_eq!(lines.len(), 1);
    match lines[0] {
        canvas_sim::render::DrawCmd::Line { alpha, color, width, .. } => {
            assert_eq!(alpha, 500_000 * 800 * 900 / 2_000_000);
            assert_eq!(color, Rgb { r: 130, g: 150, b: 160 });
            assert_eq!(width, 400);
        }
        _ => panic!("expected a line"),
    }
    let cmds = s.draw();
    assert_eq!(cmds.len(), 7);
}
