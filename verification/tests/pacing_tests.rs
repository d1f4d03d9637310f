use connectfour::app::AppState;
use connectfour::config::{Config, Context};
use connectfour::input::{do_drop, InputResult};
use connectfour::pacing::{frame_micros, poll_wait, tick_due, Wait};
use connectfour::strings::Strings;
use connectfour::textures::Textures;

fn board_source() -> String {
    let mut s = String::from(" 1    2    3    4    5    6    7\n");
    for _ in 0..12 {
        s.push_str("|    |    |    |    |    |    |    |\n");
    }
    s.push('+');
    s.push_str(&"-".repeat(34));
    s.push_str("+\n");
    s
}

fn ctx() -> Context {
    let strings = Strings::get("score.entry = Player {0}: {1}\n");
    let textures = Textures::get(&board_source(), "(##)\n(##)\n", &strings);
    Context { config: Config::default(), strings, textures }
}

#[test]
fn frame_lengths() {
    assert_eq!(frame_micros(60), 16_666);
    assert_eq!(frame_micros(0), 1_000_000);
    assert_eq!(frame_micros(1), 1_000_000);
    assert_eq!(frame_micros(2_000_000), 0);
}

#[test]
fn how_long_to_wait() {
    assert_eq!(poll_wait(true, false, 16_666, 5), Wait::Forever);
    assert_eq!(poll_wait(true, true, 16_666, 5), Wait::Now);
    assert_eq!(poll_wait(false, true, 16_666, 6_666), Wait::Micros(10_000));
    assert_eq!(poll_wait(false, false, 16_666, 20_000), Wait::Micros(0));
}

#[test]
fn when_animations_advance() {
    assert!(tick_due(true, 16_666, 0));
    assert!(!tick_due(false, 16_666, 16_665));
    assert!(tick_due(false, 16_666, 16_666));
}

#[test]
fn input_results_mark_boards() {
    let ctx = ctx();
    let mut app = AppState::new(&ctx, (200, 40));
    app.instances.push(connectfour::runtime::Runtime::new(&ctx, (200, 40)));
    connectfour::render::update_all_translates(&mut app.instances, (200, 40), &ctx.textures, &ctx.strings);
    for b in app.instances.iter_mut() {
        b.dirty = false;
    }
    app.active = 1;
    assert!(!app.apply_result(InputResult::Continue, false, &ctx));
    assert!(app.apply_result(InputResult::Continue, true, &ctx));
    assert!(app.instances.iter().all(|b| !b.dirty));
    assert!(app.apply_result(InputResult::Redraw, false, &ctx));
    assert!(!app.instances[0].dirty && app.instances[1].dirty);
    app.instances[1].dirty = false;
    assert!(app.apply_result(InputResult::RedrawAll, false, &ctx));
    assert!(app.instances.iter().all(|b| b.dirty));
}

#[test]
fn landed_disks_stop_animating() {
    let ctx = ctx();
    let mut app = AppState::new(&ctx, (80, 24));
    assert!(!app.animating());
    do_drop(&mut app.instances[0], 2, &ctx);
    assert!(app.animating());
    app.instances[0].dirty = false;
    // A step in which nothing moved or landed owes nothing.
    assert!(!app.after_tick(0, false, &vec![], false, &ctx));
    assert!(!app.instances[0].dirty);
    assert!(app.after_tick(0, false, &vec![(2, 0)], false, &ctx));
    assert!(app.instances[0].animators[2][0].is_none());
    assert!(app.instances[0].dirty);
    assert!(!app.animating());
}
