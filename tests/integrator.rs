use toyrt::{next_step, Step, Surface, MAX_DEPTH};

/// Runs the decisions of one path whose ray at depth `d` finds `found(d)`, and
/// returns the final step with the number of bounces made.
fn run_path(found: impl Fn(u32) -> Surface) -> (Step, u32) {
    let mut depth = 0u32;
    let mut bounces = 0u32;
    loop {
        match next_step(depth, found(depth)) {
            Step::Bounce(next) => {
                assert_eq!(next, depth + 1);
                depth = next;
                bounces += 1;
            }
            last => return (last, bounces),
        }
    }
}

#[test]
fn miss_gives_background() {
    assert_eq!(next_step(0, Surface::Missed), Step::Background);
    assert_eq!(next_step(MAX_DEPTH, Surface::Missed), Step::Background);
}

#[test]
fn absorption_gives_black() {
    assert_eq!(next_step(0, Surface::Absorbed), Step::Black);
    assert_eq!(next_step(17, Surface::Absorbed), Step::Black);
}

#[test]
fn scattering_bounces_one_level_deeper() {
    assert_eq!(next_step(0, Surface::Scattered), Step::Bounce(1));
    assert_eq!(next_step(49, Surface::Scattered), Step::Bounce(50));
}

#[test]
fn scattering_at_the_depth_limit_gives_black() {
    assert_eq!(MAX_DEPTH, 50);
    assert_eq!(next_step(50, Surface::Scattered), Step::Black);
    assert_eq!(next_step(u32::MAX, Surface::Scattered), Step::Black);
}

#[test]
fn endless_scattering_stops_after_fifty_bounces() {
    assert_eq!(run_path(|_| Surface::Scattered), (Step::Black, 50));
}

#[test]
fn fifty_bounces_then_absorption_is_black() {
    let found = |d: u32| if d < 50 { Surface::Scattered } else { Surface::Absorbed };
    assert_eq!(run_path(found), (Step::Black, 50));
}

#[test]
fn fifty_bounces_then_sky_is_background() {
    let found = |d: u32| if d < 50 { Surface::Scattered } else { Surface::Missed };
    assert_eq!(run_path(found), (Step::Background, 50));
}

#[test]
fn early_miss_ends_the_path() {
    let found = |d: u32| if d < 3 { Surface::Scattered } else { Surface::Missed };
    assert_eq!(run_path(found), (Step::Background, 3));
}
