use game_of_life::screen::Pacing;
use game_of_life::screen::Render;
use game_of_life::screen::Screen;

#[test]
fn the_interval_is_a_second_divided_by_the_rate() {
    assert_eq!(Screen::new(10).interval_millis(), 100);
    assert_eq!(Screen::new(1).interval_millis(), 1000);
    assert_eq!(Screen::new(1000).interval_millis(), 1);
}

#[test]
fn the_interval_is_cut_to_whole_milliseconds() {
    assert_eq!(Screen::new(3).interval_millis(), 333);
    assert_eq!(Screen::new(7).interval_millis(), 142);
    assert_eq!(Screen::new(999).interval_millis(), 1);
    assert_eq!(Screen::new(1001).interval_millis(), 0);
    assert_eq!(Screen::new(u64::MAX).interval_millis(), 0);
}

#[test]
fn a_rate_of_zero_is_turned_down() {
    assert!(Screen::try_new(0).is_none());
    assert_eq!(Screen::try_new(10), Some(Screen::new(10)));
    assert_eq!(Screen::try_new(4).unwrap().interval_millis(), 250);
}

#[test]
fn the_loop_stops_after_the_last_step() {
    let screen = Screen::new(10);
    assert_eq!(screen.after_step(true), Pacing::Stop);
}

#[test]
fn the_loop_waits_between_steps() {
    assert_eq!(Screen::new(10).after_step(false), Pacing::Wait { millis: 100 });
    assert_eq!(Screen::new(3).after_step(false), Pacing::Wait { millis: 333 });
}

#[test]
fn a_paced_loop_takes_steps_until_one_is_the_last() {
    let screen = Screen::new(50);
    let mut steps = 0;
    let mut waited = 0;
    loop {
        steps += 1;
        match screen.after_step(steps == 200) {
            Pacing::Stop => break,
            Pacing::Wait { millis } => waited += millis,
        }
    }
    assert_eq!(steps, 200);
    assert_eq!(waited, 199 * 20);
}
