use specta_id::location::ImplLocation;
use std::cmp::Ordering;

#[test]
fn location_gives_back_its_text() {
    assert_eq!(ImplLocation::new("src/lib.rs:12:5").as_str(), "src/lib.rs:12:5");
    for text in ["", "a", "src/main.rs:1:1", "dossier/été.rs:3:9", "no grammar at all"] {
        assert_eq!(ImplLocation::new(text).as_str(), text);
    }
}

#[test]
fn location_keeps_the_very_string() {
    let text: &'static str = "src/lib.rs:12:5";
    let back = ImplLocation::new(text).as_str();
    assert_eq!(back.as_ptr(), text.as_ptr());
    assert_eq!(back.len(), text.len());
}

#[test]
fn locations_are_equal_if_their_texts_are() {
    let a = ImplLocation::new("src/lib.rs:12:5");
    let b = ImplLocation::new("src/lib.rs:12:5");
    let c = ImplLocation::new("src/lib.rs:12:6");
    let owned: &'static str = Box::leak(String::from("src/lib.rs:12:5").into_boxed_str());
    assert!(a == b);
    assert!(a != c);
    assert!(a == ImplLocation::new(owned));
    assert!(ImplLocation::new("") == ImplLocation::new(""));
    assert!(ImplLocation::new("a") != ImplLocation::new("A"));
    assert!(ImplLocation::new("a") != ImplLocation::new("a "));
}

#[test]
fn locations_are_ordered_as_their_texts() {
    let texts = ["", "a", "a:1", "a:10", "a:2", "b", "src/lib.rs:12:5", "é", "日本", "z"];
    for x in texts {
        for y in texts {
            let a = ImplLocation::new(x);
            let b = ImplLocation::new(y);
            assert_eq!(a.partial_cmp(&b), Some(x.cmp(y)));
            assert_eq!(a.cmp(&b), x.cmp(y));
            assert_eq!(a < b, x < y);
            assert_eq!(a == b, x == y);
        }
    }
}

#[test]
fn no_part_of_a_location_is_read_as_a_number() {
    let a = ImplLocation::new("file.rs:10:1");
    let b = ImplLocation::new("file.rs:9:1");
    assert_eq!(a.partial_cmp(&b), Some(Ordering::Less));
}

#[test]
fn locations_pass_between_threads() {
    fn shared<T: Send + Sync + Copy + 'static>(_: T) {}
    shared(ImplLocation::new("src/lib.rs:12:5"));
}

#[test]
fn locations_are_copied_freely() {
    let a = ImplLocation::new("src/lib.rs:12:5");
    let b = a;
    assert_eq!(a, b.clone());
    assert_eq!(format!("{a:?}"), "ImplLocation(\"src/lib.rs:12:5\")");
}
