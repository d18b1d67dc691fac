use std::collections::HashMap;

use ball::debug::{empty_history, shift, DebugState};
use ball::double_buffer::DoubleBuffer;
use ball::game::hue::{best_candidate, clearance, hue_distance, hue_of_word, random_hue, HUES};
use ball::game::GameSettings;
use ball::keys::{keys, mapped};
use ball::number::{origin, Real};
use ball::time::{Duration, Instant};
use ball::ui::enum_combo;

fn number(x: f32) -> Real {
    Real { bits: x.to_bits() }
}

fn hue(turns: f64) -> u32 {
    (turns * f64::from(HUES)).round() as u32
}

#[test]
fn hue_distance_lt_half() {
    assert_eq!(hue_distance(hue(0.2), hue(0.5)), hue(0.3));
    assert_eq!(hue_distance(hue(0.5), hue(0.2)), hue(0.3));
}

#[test]
fn hue_distance_gt_half() {
    assert_eq!(hue_distance(hue(0.2), hue(0.9)), hue(0.3));
    assert_eq!(hue_distance(hue(0.9), hue(0.2)), hue(0.3));
}

#[test]
fn opposite_hues_are_half_a_turn_apart() {
    assert_eq!(hue_distance(0, HUES / 2), HUES / 2);
    assert_eq!(hue_distance(HUES - 1, 0), 1);
    assert_eq!(hue_distance(7, 7), 0);
    // Nothing and a full turn are the same hue.
    assert_eq!(hue_distance(0, HUES), 0);
    assert_eq!(hue_distance(HUES, 0), 0);
    assert_eq!(hue_distance(HUES, HUES / 2), HUES / 2);
    assert_eq!(hue_distance(HUES, HUES), 0);
}

#[test]
fn random_hues_vary_and_are_on_the_wheel() {
    let drawn: Vec<u32> = (0..64).map(|_| random_hue()).collect();
    assert!(drawn.iter().all(|hue| *hue < HUES));
    assert!(drawn.iter().any(|hue| *hue != drawn[0]));
}

#[test]
fn hues_share_the_words_evenly() {
    assert_eq!(hue_of_word(0), 0);
    assert_eq!(hue_of_word(0xff), 0);
    assert_eq!(hue_of_word(0x100), 1);
    assert_eq!(hue_of_word(0x8000_0000), HUES / 2);
    assert_eq!(hue_of_word(u32::MAX), HUES - 1);
}

#[test]
fn clearance_is_the_least_distance() {
    assert_eq!(clearance(&vec![100, 50, 900], 60), 10);
    assert_eq!(clearance(&vec![HUES - 5], 5), 10);
}

#[test]
fn best_candidate_is_the_one_farthest_from_all() {
    let taken = vec![0, 1000];
    assert_eq!(best_candidate(&taken, &vec![10, 500, 990]), 500);
    assert_eq!(best_candidate(&taken, &vec![990, HUES / 2, 500]), HUES / 2);
}

#[test]
fn numbers_compare_like_floats() {
    let values = [
        0.0,
        -0.0,
        1.0,
        -1.0,
        0.5,
        -2.5,
        f32::MIN_POSITIVE,
        -f32::MIN_POSITIVE,
        f32::MAX,
        f32::MIN,
        f32::INFINITY,
        f32::NEG_INFINITY,
        f32::NAN,
        f32::from_bits(1),
        f32::from_bits(0x8000_0001),
        f32::from_bits(0xffc0_0000),
    ];
    for a in values.iter() {
        for b in values.iter() {
            assert_eq!(number(*a).less_than(number(*b)), a < b);
            assert_eq!(number(*a).greater_than(number(*b)), a > b);
            assert_eq!(number(*a) == number(*b), a == b);
        }
        assert_eq!(number(*a).abs().bits, a.abs().to_bits());
        assert_eq!(number(*a).is_nan(), a.is_nan());
    }
}

#[test]
fn origin_is_zero() {
    assert_eq!(f32::from_bits(origin().x.bits), 0.0);
    assert_eq!(f32::from_bits(origin().y.bits), 0.0);
}

#[test]
fn default_settings() {
    let settings = GameSettings::default();
    assert_eq!(f32::from_bits(settings.ball_radius.bits), 0.15);
    assert_eq!(f32::from_bits(settings.cursor_radius.bits), 0.05);
    assert_eq!(f32::from_bits(settings.spring_constant.bits), 8.0);
    assert_eq!(f32::from_bits(settings.ball_start_distance.bits), 0.3);
    assert_eq!(f32::from_bits(settings.ball_start_speed.bits), 1.0);
    assert_eq!(f32::from_bits(settings.bounds_radius.bits), 1.0);
    assert!(!settings.kill_own_cursor);
}

#[test]
fn settings_compare_as_numbers() {
    let mut a = GameSettings::default();
    let mut b = GameSettings::default();
    assert!(a == b);
    a.ball_radius = number(0.0);
    b.ball_radius = number(-0.0);
    assert!(a == b);
    b.ball_radius = number(f32::NAN);
    assert!(a != b);
    let copy = b;
    assert!(b != copy);
    b.ball_radius = a.ball_radius;
    b.kill_own_cursor = true;
    assert!(a != b);
}

#[test]
fn double_buffer_swaps() {
    let mut buffer = DoubleBuffer::new(1);
    assert_eq!((*buffer.get(), *buffer.get_old()), (1, 1));
    buffer.insert(2);
    assert_eq!((*buffer.get(), *buffer.get_old()), (1, 2));
    buffer.swap();
    assert_eq!((*buffer.get(), *buffer.get_old()), (2, 1));
    buffer.insert(3);
    buffer.swap();
    assert_eq!((*buffer.get(), *buffer.get_old()), (3, 2));
    let default: DoubleBuffer<u8> = DoubleBuffer::default();
    assert_eq!((*default.get(), *default.get_old()), (0, 0));
}

#[test]
fn durations_do_not_go_below_zero() {
    let early = Instant { nanos: 5 };
    let late = Instant { nanos: 12 };
    assert_eq!(late.duration_since(early), Duration { nanos: 7 });
    assert_eq!(early.duration_since(late), Duration { nanos: 0 });
}

#[test]
fn every_key_is_listed_once() {
    let mut map: HashMap<u16, u8> = HashMap::new();
    for key in 0..50 {
        map.insert(key, key as u8);
    }
    let mut listed = keys(&map);
    listed.sort();
    assert_eq!(listed, (0..50).collect::<Vec<u16>>());
    let doubled = mapped(&map, &|value: &u8| u32::from(*value) * 2);
    assert_eq!(doubled.len(), 50);
    assert!((0..50).all(|key| doubled[&key] == u32::from(key) * 2));
}

#[test]
fn combo_picks_another_variant() {
    let variants = ['a', 'b', 'c', 'b'];
    let mut current = 'b';
    let kept = enum_combo(&mut current, &variants, |place| {
        assert_eq!(place, 1);
        None
    });
    assert!(!kept);
    assert_eq!(current, 'b');
    let changed = enum_combo(&mut current, &variants, |_| Some(2));
    assert!(changed);
    assert_eq!(current, 'c');
}

#[test]
fn histories_shift() {
    let mut history = empty_history(3);
    shift(&mut history, number(1.0));
    shift(&mut history, number(2.0));
    let values: Vec<f32> = history.iter().map(|x| f32::from_bits(x.bits)).collect();
    assert_eq!(values, vec![0.0, 1.0, 2.0]);
    let mut debug = DebugState::default();
    assert!(!debug.draw_latest_snapshot);
    assert_eq!(f32::from_bits(debug.interpolation_delay.bits), 1.5);
    assert_eq!(debug.frame_times().len(), 256);
    debug.log_frame_time(number(16.0));
    assert_eq!(f32::from_bits(debug.frame_times()[255].bits), 16.0);
    assert_eq!(f32::from_bits(debug.frame_times()[254].bits), 0.0);
    assert_eq!(debug.frame_times().len(), 256);
}
