use pinterest_parser::harvest::{Chore, Collector, OnStall};

fn pin(href: &str, src: &str) -> Option<(String, String)> {
    Some((href.to_string(), src.to_string()))
}

#[test]
fn collector_takes_a_pin_with_its_full_link_and_large_image() {
    let mut c = Collector::new(3, 800, OnStall::Shake);
    c.begin_round();
    assert!(c.offer(pin("/pin/123/", "https://i.pinimg.com/236x/aa/bb.jpg")));
    assert_eq!(c.count(), 1);
    let (links, images) = c.into_parts();
    assert_eq!(links, vec!["https://ru.pinterest.com/pin/123/".to_string()]);
    assert_eq!(images, vec!["https://i.pinimg.com/736x/aa/bb.jpg".to_string()]);
}

#[test]
fn collector_skips_a_pin_it_already_has() {
    let mut c = Collector::new(5, 800, OnStall::Shake);
    c.begin_round();
    assert!(c.offer(pin("/pin/1/", "a")));
    assert!(!c.offer(pin("/pin/1/", "b")));
    assert!(c.offer(pin("/pin/2/", "c")));
    assert_eq!(c.count(), 2);
    let (_, images) = c.into_parts();
    assert_eq!(images, vec!["a".to_string(), "c".to_string()]);
}

#[test]
fn collector_skips_a_pin_without_link_or_image() {
    let mut c = Collector::new(5, 800, OnStall::Shake);
    assert!(!c.offer(None));
    assert_eq!(c.count(), 0);
}

#[test]
fn collector_stops_at_its_limit() {
    let mut c = Collector::new(2, 800, OnStall::Shake);
    c.begin_round();
    assert!(c.wants_more());
    assert!(c.offer(pin("/pin/1/", "a")));
    assert!(c.offer(pin("/pin/2/", "b")));
    assert!(!c.wants_more());
    assert!(c.is_done());
    assert!(!c.offer(pin("/pin/3/", "c")));
    assert_eq!(c.count(), 2);
    assert_eq!(c.end_round(), Vec::<Chore>::new());
}

#[test]
fn collector_with_zero_limit_is_done_at_once() {
    let c = Collector::new(0, 800, OnStall::Shake);
    assert!(c.is_done());
}

#[test]
fn round_with_new_pins_waits_the_cooldown() {
    let mut c = Collector::new(5, 800, OnStall::Shake);
    c.begin_round();
    assert!(c.offer(pin("/pin/1/", "a")));
    assert_eq!(c.end_round(), vec![Chore::Pause(800), Chore::ScrollDown]);
}

#[test]
fn barren_round_waits_longer() {
    let mut c = Collector::new(5, 800, OnStall::Shake);
    c.begin_round();
    assert_eq!(c.end_round(), vec![Chore::Pause(2300), Chore::ScrollDown]);
}

#[test]
fn third_barren_round_shakes_the_page() {
    let mut c = Collector::new(5, 500, OnStall::Shake);
    for _ in 0..2 {
        c.begin_round();
        assert_eq!(c.end_round(), vec![Chore::Pause(2000), Chore::ScrollDown]);
    }
    c.begin_round();
    assert_eq!(
        c.end_round(),
        vec![
            Chore::ScrollToTop,
            Chore::Pause(800),
            Chore::ScrollToBottom,
            Chore::Pause(2000),
            Chore::ScrollDown,
        ]
    );
    assert!(!c.is_done());
    c.begin_round();
    assert_eq!(c.end_round(), vec![Chore::Pause(2000), Chore::ScrollDown]);
}

#[test]
fn a_find_resets_the_barren_count() {
    let mut c = Collector::new(5, 0, OnStall::Shake);
    for _ in 0..2 {
        c.begin_round();
        c.end_round();
    }
    c.begin_round();
    assert!(c.offer(pin("/pin/1/", "a")));
    assert_eq!(c.end_round(), vec![Chore::Pause(0), Chore::ScrollDown]);
    for _ in 0..2 {
        c.begin_round();
        assert_eq!(c.end_round(), vec![Chore::Pause(1500), Chore::ScrollDown]);
    }
}

#[test]
fn page_collector_gives_up_after_three_barren_rounds() {
    let mut c = Collector::new(5, 800, OnStall::GiveUp);
    c.begin_round();
    assert!(c.offer(pin("/pin/1/", "a")));
    c.end_round();
    for _ in 0..2 {
        c.begin_round();
        assert_eq!(c.end_round(), vec![Chore::Pause(2300), Chore::ScrollDown]);
    }
    c.begin_round();
    assert_eq!(c.end_round(), Vec::<Chore>::new());
    assert!(c.is_done());
    assert!(!c.wants_more());
    assert!(!c.offer(pin("/pin/2/", "b")));
    assert_eq!(c.count(), 1);
}
