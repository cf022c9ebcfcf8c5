use specta_id::identity::SpectaID;
use std::any::TypeId;
use std::cmp::Ordering;
use std::collections::{BTreeMap, BTreeSet};

struct Widget;

struct Gadget;

struct Sprocket;

/// The two tokens, the smaller one first.
fn two_tokens_in_order() -> (TypeId, TypeId) {
    let a = TypeId::of::<Widget>();
    let b = TypeId::of::<Gadget>();
    assert_ne!(a, b);
    if a < b {
        (a, b)
    } else {
        (b, a)
    }
}

fn sample() -> Vec<SpectaID> {
    vec![
        SpectaID::from::<Widget>("shop::Widget"),
        SpectaID::from::<Gadget>("shop::Gadget"),
        SpectaID::from::<Sprocket>("works::Sprocket"),
        SpectaID::from::<u8>("u8"),
        SpectaID::from::<String>("alloc::string::String"),
        SpectaID::from::<Vec<u8>>("alloc::vec::Vec<u8>"),
        SpectaID::from::<Option<String>>("core::option::Option<alloc::string::String>"),
        SpectaID::from::<&'static str>("&str"),
        SpectaID::from::<()>("()"),
        SpectaID::from::<char>("été::Char"),
    ]
}

#[test]
fn name_decides_before_token() {
    let (low, high) = two_tokens_in_order();
    let first = SpectaID::from_parts("alpha::T", high);
    let second = SpectaID::from_parts("beta::T", low);
    assert_eq!(first.cmp(&second), Ordering::Less);
    assert_eq!(second.cmp(&first), Ordering::Greater);
    let first = SpectaID::from_parts("alpha::T", low);
    let second = SpectaID::from_parts("beta::T", high);
    assert_eq!(first.cmp(&second), Ordering::Less);
    assert_eq!(second.cmp(&first), Ordering::Greater);
}

#[test]
fn token_decides_among_identities_of_one_name() {
    let (low, high) = two_tokens_in_order();
    let first = SpectaID::from_parts("shop::A", low);
    let second = SpectaID::from_parts("shop::B", high);
    assert_eq!(first.name(), second.name());
    assert_eq!(first.cmp(&second), Ordering::Less);
    assert_eq!(second.cmp(&first), Ordering::Greater);
    assert_eq!(first.cmp(&second), low.cmp(&high));
}

#[test]
fn same_name_and_token_take_the_same_place() {
    let token = TypeId::of::<Widget>();
    let first = SpectaID::from_parts("shop::Widget", token);
    let second = SpectaID::from_parts("shop::Other", token);
    assert_eq!(first.cmp(&second), Ordering::Equal);
    assert_eq!(first.cmp(&first), Ordering::Equal);
}

#[test]
fn the_canonical_name_is_what_is_compared() {
    let (low, high) = two_tokens_in_order();
    let first = SpectaID::from_parts("shop::Zebra", low);
    let second = SpectaID::from_parts("shop::Aardvark", high);
    assert_eq!(first.cmp(&second), Ordering::Less);
}

#[test]
fn shorter_name_comes_before_its_extensions() {
    let (low, high) = two_tokens_in_order();
    let first = SpectaID::from_parts("shop::T", high);
    let second = SpectaID::from_parts("shopping::T", low);
    assert_eq!(first.cmp(&second), Ordering::Less);
    let first = SpectaID::from_parts("::T", high);
    let second = SpectaID::from_parts("a::T", low);
    assert_eq!(first.cmp(&second), Ordering::Less);
}

#[test]
fn names_are_ordered_by_code_point() {
    let token = TypeId::of::<Widget>();
    let ascii = SpectaID::from_parts("z::T", token);
    let latin = SpectaID::from_parts("é::T", token);
    let cjk = SpectaID::from_parts("日::T", token);
    let astral = SpectaID::from_parts("𝔸::T", token);
    let private = SpectaID::from_parts("\u{e000}::T", token);
    assert_eq!(ascii.cmp(&latin), Ordering::Less);
    assert_eq!(latin.cmp(&cjk), Ordering::Less);
    assert_eq!(cjk.cmp(&private), Ordering::Less);
    assert_eq!(private.cmp(&astral), Ordering::Less);
    assert_eq!(astral.cmp(&ascii), Ordering::Greater);
}

#[test]
fn exactly_one_of_less_equal_greater() {
    let ids = sample();
    for a in &ids {
        for b in &ids {
            let holds = [a < b, a == b, a > b];
            assert_eq!(holds.iter().filter(|&&h| h).count(), 1, "{a:?} and {b:?}");
            if a == b {
                assert!(!(a < b) && !(a > b));
            }
        }
    }
}

#[test]
fn one_token_under_two_names_is_equal_and_ordered() {
    let token = TypeId::of::<Widget>();
    let first = SpectaID::from_parts("alpha::T", token);
    let second = SpectaID::from_parts("beta::T", token);
    assert!(first == second);
    assert!(first < second);
    assert_eq!(first.cmp(&second), Ordering::Less);
}

#[test]
fn the_order_read_backwards_is_reversed() {
    let ids = sample();
    for a in &ids {
        for b in &ids {
            assert_eq!(a.cmp(b), b.cmp(a).reverse());
        }
    }
}

#[test]
fn the_order_is_transitive() {
    let ids = sample();
    for a in &ids {
        for b in &ids {
            for c in &ids {
                if a.cmp(b) != Ordering::Greater && b.cmp(c) != Ordering::Greater {
                    assert_ne!(a.cmp(c), Ordering::Greater);
                }
            }
        }
    }
}

#[test]
fn all_comparisons_agree() {
    let ids = sample();
    for a in &ids {
        for b in &ids {
            let order = a.cmp(b);
            assert_eq!(a.partial_cmp(b), Some(order));
            assert_eq!(Ord::cmp(a, b), order);
            assert_eq!(a < b, order == Ordering::Less);
            assert_eq!(a <= b, order != Ordering::Greater);
            assert_eq!(a > b, order == Ordering::Greater);
            assert_eq!(a >= b, order != Ordering::Less);
            assert_eq!(order, a.name().cmp(b.name()).then(a.token().cmp(&b.token())));
        }
    }
}

#[test]
fn sorting_twice_gives_the_same_sequence() {
    let mut first = sample();
    let mut second = sample();
    second.reverse();
    second.rotate_left(3);
    first.sort();
    second.sort();
    assert_eq!(first.len(), second.len());
    for (a, b) in first.iter().zip(second.iter()) {
        assert_eq!(a, b);
        assert_eq!(a.name(), b.name());
    }
    let mut again = first.clone();
    again.sort();
    for (a, b) in first.iter().zip(again.iter()) {
        assert_eq!(a.name(), b.name());
        assert_eq!(a.token(), b.token());
    }
}

#[test]
fn sorted_identities_are_grouped_by_name() {
    let mut ids = sample();
    ids.sort();
    let names: Vec<&str> = ids.iter().map(|id| id.name()).collect();
    let mut in_order = names.clone();
    in_order.sort();
    assert_eq!(names, in_order);
    assert_eq!(names[0], "&str");
    assert_eq!(names[names.len() - 1], "été");
    for pair in ids.windows(2) {
        assert_ne!(pair[0].cmp(&pair[1]), Ordering::Greater);
    }
}

#[test]
fn identities_serve_as_keys_of_an_ordered_map() {
    let mut registry = BTreeMap::new();
    for id in sample() {
        registry.insert(id, id.name());
    }
    assert_eq!(registry.len(), sample().len());
    registry.insert(SpectaID::from::<Widget>("shop::Widget"), "again");
    assert_eq!(registry.len(), sample().len());
    assert_eq!(registry[&SpectaID::from::<Widget>("shop::Widget")], "again");
    let walked: Vec<&str> = registry.keys().map(|id| id.name()).collect();
    let mut in_order = walked.clone();
    in_order.sort();
    assert_eq!(walked, in_order);
    let set: BTreeSet<SpectaID> = sample().into_iter().collect();
    assert_eq!(set.len(), sample().len());
}
