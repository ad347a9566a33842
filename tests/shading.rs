use raytracing::shading::{shade_step, Shade};

#[test]
fn depth_zero_is_black_on_hit() {
    assert_eq!(shade_step(0, true), Shade::Black);
}

#[test]
fn depth_zero_is_black_on_miss() {
    assert_eq!(shade_step(0, false), Shade::Black);
}

#[test]
fn hit_bounces_with_one_fewer() {
    assert_eq!(shade_step(50, true), Shade::Bounce { depth: 49 });
    assert_eq!(shade_step(1, true), Shade::Bounce { depth: 0 });
}

#[test]
fn miss_takes_background() {
    assert_eq!(shade_step(50, false), Shade::Background);
    assert_eq!(shade_step(u32::MAX, false), Shade::Background);
}

#[test]
fn path_that_always_hits_stops_at_depth() {
    // A ray that meets a surface every time bounces exactly `depth` times, then
    // turns black.
    let mut depth: u32 = 5;
    let mut count: u32 = 0;
    loop {
        match shade_step(depth, true) {
            Shade::Bounce { depth: next } => {
                count += 1;
                depth = next;
            }
            Shade::Black => break,
            Shade::Background => panic!("a hit never gives the background"),
        }
    }
    assert_eq!(count, 5);
}
