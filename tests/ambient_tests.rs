use canvas_sim::ambient::{set_particle_config, AmbientField, AmbientParticle, ParticleConfig};
use canvas_sim::color::Rgb;

const FAR: i64 = 10_000_000_000;

fn resting(x: i64, y: i64) -> AmbientParticle {
    AmbientParticle { x, y, z: 500, size: 2000, speed_x: 0, speed_y: 0, color: Rgb { r: 100, g: 150, b: 200 }, opacity: 300 }
}

#[test]
fn jitter_then_damping() {
    let mut p = resting(100_000, 100_000);
    p.step(FAR, FAR, false, 440_000, 330_000, 80, -80);
    assert_eq!((p.x, p.y), (100_080, 99_920));
    assert_eq!((p.speed_x, p.speed_y), (79, -79));
}

#[test]
fn ambient_speed_is_capped() {
    let mut p = resting(100_000, 100_000);
    p.speed_x = 1500;
    p.step(FAR, FAR, false, 440_000, 330_000, 80, 0);
    assert_eq!((p.speed_x, p.speed_y), (1500, 0));
}

#[test]
fn pressed_pointer_attracts_hover_repels() {
    let mut p = resting(100_000, 100_000);
    p.step(110_000, 100_000, true, 440_000, 330_000, 0, 0);
    assert_eq!(p.speed_x, 6);
    let mut q = resting(100_000, 100_000);
    q.step(110_000, 100_000, false, 440_000, 330_000, 0, 0);
    assert_eq!(q.speed_x, -2);
}

#[test]
fn leaving_the_canvas_reverses() {
    let mut p = resting(500, 100_000);
    p.speed_x = -1000;
    p.step(FAR, FAR, false, 440_000, 330_000, 0, 0);
    assert_eq!(p.x, -500);
    assert_eq!(p.speed_x, 990);
    let mut q = resting(0, 0);
    q.speed_x = -1500;
    q.update(FAR, FAR, false, 440_000, 330_000);
    assert!(q.x >= -1580 && q.x <= 440_000 + 1580);
}

#[test]
fn config_is_checked() {
    let mut c = ParticleConfig::new();
    assert!(!set_particle_config(&mut c, 5, 2, 6000, 3000));
    assert_eq!(c, ParticleConfig::new());
    assert!(set_particle_config(&mut c, 5, 2, 1000, 2000));
    assert_eq!(c.initial_count, 5);
}

#[test]
fn seeded_field_is_reproducible() {
    let mut c = ParticleConfig::new();
    assert!(set_particle_config(&mut c, 20, 3, 3000, 6000));
    let a = AmbientField::new(440_000, 330_000, c);
    let b = AmbientField::new(440_000, 330_000, c);
    assert_eq!(a.particles.len(), 20);
    assert_eq!(a.particles, b.particles);
    assert!(a.particles.iter().all(|p| p.z >= 100 && p.z < 1000 && p.size <= 6000 && p.x < 440_000));
}

#[test]
fn pointer_handlers() {
    let mut c = ParticleConfig::new();
    assert!(set_particle_config(&mut c, 4, 3, 3000, 6000));
    let mut f = AmbientField::new(440_000, 330_000, c);
    assert_eq!((f.mouse_x, f.mouse_y), (220_000, 165_000));
    f.mouse_down(1000, 2000);
    assert!(f.is_mouse_down);
    assert_eq!(f.particles.len(), 7);
    assert_eq!((f.particles[6].x, f.particles[6].y), (1000, 2000));
    f.mouse_up();
    assert!(!f.is_mouse_down);
    f.mouse_move(5, 6);
    f.update();
    assert_eq!(f.particles.len(), 7);
    assert!(f.particles.iter().all(|p| p.speed_x * p.speed_x + p.speed_y * p.speed_y <= 1500 * 1500));
}

#[test]
fn ambient_frame_layout() {
    let mut c = ParticleConfig::new();
    assert!(set_particle_config(&mut c, 0, 0, 3000, 6000));
    let mut f = AmbientField::new(440_000, 330_000, c);
    f.particles.push(resting(100_000, 100_000));
    f.particles.push(resting(130_000, 100_000));
    f.particles.push(resting(300_000, 100_000));
    let cmds = f.draw();
    assert_eq!(cmds.len(), 1 + 1 + 3);
    match cmds[1] {
        canvas_sim::render::DrawCmd::Line { alpha, color, .. } => {
            assert_eq!(alpha, 500_000 * 2 * 500 * 500 / 10_000_000);
            assert_eq!(color, Rgb { r: 100, g: 150, b: 200 });
        }
        _ => panic!("expected a line"),
    }
}
