use rust_rush_trivia::server::player_id_for;
use rust_rush_trivia::text::{push_decimal, str_less};

#[test]
fn lexicographic_order() {
    assert!(str_less("Alice", "Bob"));
    assert!(!str_less("Bob", "Alice"));
    assert!(str_less("Al", "Alice"));
    assert!(!str_less("Alice", "Alice"));
    assert!(str_less("", "a"));
    assert!(str_less("Zed", "alice"));
    assert!(str_less("é", "ü"));
}

#[test]
fn decimal_rendering() {
    let mut s = String::from("x");
    push_decimal(&mut s, 0);
    assert_eq!(s, "x0");
    let mut s = String::new();
    push_decimal(&mut s, 18446744073709551615);
    assert_eq!(s, "18446744073709551615");
}

#[test]
fn player_ids() {
    assert_eq!(player_id_for("Alice", 8080), "Alice_8080");
    assert_eq!(player_id_for("Bob", 0), "Bob_0");
    assert_eq!(player_id_for("Ünïcode", 65535), "Ünïcode_65535");
}
