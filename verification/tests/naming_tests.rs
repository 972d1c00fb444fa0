use pinterest_parser::naming::{file_name, stem_of};

fn s(v: Vec<char>) -> String {
    v.into_iter().collect()
}

#[test]
fn file_name_numbers_and_keeps_the_last_segment() {
    assert_eq!(file_name(1, "https://i.pinimg.com/736x/35/60/3b/35603b.jpg"), "001_35603b.jpg");
}

#[test]
fn file_name_drops_the_query() {
    assert_eq!(file_name(12, "https://i.pinimg.com/736x/a/b.webp?size=large&x=1"), "012_b.webp");
}

#[test]
fn file_name_falls_back_to_jpg_after_a_trailing_slash() {
    assert_eq!(file_name(5, "https://i.pinimg.com/736x/"), "005.jpg");
}

#[test]
fn file_name_falls_back_to_jpg_when_only_a_query_is_left() {
    assert_eq!(file_name(5, "https://example.com/?id=3"), "005.jpg");
    assert_eq!(file_name(7, ""), "007.jpg");
}

#[test]
fn file_name_takes_the_whole_url_without_a_slash() {
    assert_eq!(file_name(100, "picture.png"), "100_picture.png");
}

#[test]
fn file_name_keeps_numbers_past_three_digits() {
    assert_eq!(file_name(1234, "https://x.y/a.jpg"), "1234_a.jpg");
}

#[test]
fn stem_stops_at_the_first_question_mark() {
    assert_eq!(s(stem_of("https://a.b/c/d.png?e=f?g")), "d.png");
    assert_eq!(s(stem_of("https://a.b/c/d.png")), "d.png");
}

#[test]
fn file_names_of_different_numbers_differ() {
    let urls = ["https://a/1_x.jpg", "https://a/x.jpg", "https://a/", "https://a/01_x.jpg", "https://a/0_x.jpg"];
    let mut names = Vec::new();
    for n in [1usize, 10, 11, 100, 1000, 1001] {
        for u in urls.iter() {
            names.push((n, file_name(n, u)));
        }
    }
    for (n, a) in names.iter() {
        for (m, b) in names.iter() {
            if n != m {
                assert_ne!(a, b);
            }
        }
    }
}
