use pinterest_parser::harvest::Collector;
use pinterest_parser::relay::{Relay, Turn, PAGE_PIN_CAP};

fn fill(batch: &mut Collector, pins: &[(&str, &str)]) {
    batch.begin_round();
    for (href, src) in pins {
        if !batch.wants_more() {
            break;
        }
        batch.offer(Some((href.to_string(), src.to_string())));
    }
}

#[test]
fn relay_starts_at_the_given_page() {
    let r = Relay::new("https://ru.pinterest.com/ideas/".to_string(), 10, 800);
    assert_eq!(r.page(), "https://ru.pinterest.com/ideas/");
    assert_eq!(r.count(), 0);
    assert!(!r.is_done());
}

#[test]
fn relay_moves_on_to_the_second_pin() {
    let mut r = Relay::new("start".to_string(), 10, 800);
    let mut batch = r.open_page();
    fill(&mut batch, &[("/pin/1/", "a"), ("/pin/2/", "b"), ("/pin/3/", "c")]);
    assert_eq!(r.close_page(batch), Turn::Onward);
    assert_eq!(r.page(), "https://ru.pinterest.com/pin/2/");
    assert_eq!(r.count(), 3);
}

#[test]
fn relay_moves_on_to_the_only_pin() {
    let mut r = Relay::new("start".to_string(), 10, 800);
    let mut batch = r.open_page();
    fill(&mut batch, &[("/pin/7/", "a")]);
    assert_eq!(r.close_page(batch), Turn::Onward);
    assert_eq!(r.page(), "https://ru.pinterest.com/pin/7/");
}

#[test]
fn relay_is_stranded_by_an_empty_page() {
    let mut r = Relay::new("start".to_string(), 10, 800);
    let batch = r.open_page();
    assert_eq!(r.close_page(batch), Turn::Stranded);
    assert!(r.is_done());
    assert_eq!(r.page(), "start");
    assert!(r.into_images().is_empty());
}

#[test]
fn relay_page_takes_at_most_thirty_pins() {
    let mut r = Relay::new("start".to_string(), 100, 800);
    let mut batch = r.open_page();
    let hrefs: Vec<String> = (0..40).map(|i| format!("/pin/{}/", i)).collect();
    let pins: Vec<(&str, &str)> = hrefs.iter().map(|h| (h.as_str(), "img")).collect();
    fill(&mut batch, &pins);
    assert_eq!(batch.count(), PAGE_PIN_CAP);
    assert_eq!(r.close_page(batch), Turn::Onward);
    assert_eq!(r.count(), 30);
}

#[test]
fn relay_last_page_takes_only_what_is_missing() {
    let mut r = Relay::new("start".to_string(), 4, 800);
    let mut batch = r.open_page();
    fill(&mut batch, &[("/pin/1/", "a"), ("/pin/2/", "b")]);
    assert_eq!(r.close_page(batch), Turn::Onward);
    let mut batch = r.open_page();
    fill(&mut batch, &[("/pin/3/", "c"), ("/pin/4/", "d"), ("/pin/5/", "e")]);
    assert_eq!(batch.count(), 2);
    assert_eq!(r.close_page(batch), Turn::Complete);
    assert!(r.is_done());
    assert_eq!(r.into_images(), vec!["a", "b", "c", "d"]);
}

#[test]
fn relay_keeps_duplicates_across_pages() {
    let mut r = Relay::new("start".to_string(), 4, 800);
    let mut batch = r.open_page();
    fill(&mut batch, &[("/pin/1/", "https://i.pinimg.com/236x/a.jpg"), ("/pin/2/", "b")]);
    r.close_page(batch);
    let mut batch = r.open_page();
    fill(&mut batch, &[("/pin/1/", "https://i.pinimg.com/236x/a.jpg"), ("/pin/1/", "again")]);
    assert_eq!(batch.count(), 1);
    r.close_page(batch);
    assert_eq!(
        r.into_images(),
        vec!["https://i.pinimg.com/736x/a.jpg", "b", "https://i.pinimg.com/736x/a.jpg"]
    );
}

#[test]
fn relay_with_zero_goal_is_done_at_once() {
    let r = Relay::new("start".to_string(), 0, 800);
    assert!(r.is_done());
}

#[test]
fn relay_page_collector_gives_up_when_stalled() {
    let r = Relay::new("start".to_string(), 10, 800);
    let mut batch = r.open_page();
    for _ in 0..3 {
        batch.begin_round();
        batch.end_round();
    }
    assert!(batch.is_done());
    assert_eq!(batch.count(), 0);
}
