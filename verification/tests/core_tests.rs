use velora::ids::IdGenerator;
use velora::strings::StringBuilder;
use velora::types::{Color, HttpStatus, Point, Rect, Size};

#[test]
fn test_id_generator() {
    let mut gen = IdGenerator::new();
    let id1 = gen.next();
    let id2 = gen.next();
    assert_eq!(id1, 1);
    assert_eq!(id2, 2);
}

#[test]
fn id_generator_values_strictly_increase() {
    let mut gen = IdGenerator::with_start(7);
    let mut ids: Vec<u64> = Vec::new();
    let mut i = 0;
    while i < 100 {
        ids.push(gen.next());
        i += 1;
    }
    let mut k = 1;
    while k < ids.len() {
        assert!(ids[k - 1] < ids[k]);
        k += 1;
    }
    assert_eq!(gen.current(), 107);
    gen.reset(3);
    assert_eq!(gen.next(), 3);
}

#[test]
fn test_string_builder() {
    let mut builder = StringBuilder::new();
    builder.push("Hello");
    builder.push_with_separator(" ", "World");
    assert_eq!(builder.build(), "Hello World");
}

#[test]
fn string_builder_joins_with_separator() {
    let mut builder = StringBuilder::new();
    builder.push("a");
    builder.push("b");
    builder.push("c");
    assert_eq!(builder.build_with_separator("-"), "a-b-c");
}

#[test]
fn rect_contains_and_intersects() {
    let r = Rect::new(0, 0, 100, 50);
    assert!(r.contains(Point::new(0, 0)));
    assert!(r.contains(Point::new(100, 50)));
    assert!(!r.contains(Point::new(101, 0)));
    let other = Rect::new(50, 25, 100, 50);
    assert!(r.intersects(&other));
    let apart = Rect::new(200, 0, 10, 10);
    assert!(!r.intersects(&apart));
}

#[test]
fn color_constructors() {
    assert_eq!(Color::black(), Color::rgb(0, 0, 0));
    assert_eq!(Color::white().r, 255);
    assert_eq!(Color::transparent().a, 0);
    assert_eq!(Color::new(1, 2, 3, 4), Color::rgba(1, 2, 3, 4));
}

#[test]
fn http_status_ranges() {
    assert!(HttpStatus::ok().is_success());
    assert!(HttpStatus::not_found().is_client_error());
    assert!(HttpStatus::internal_server_error().is_server_error());
    assert!(!HttpStatus::ok().is_client_error());
    assert_eq!(HttpStatus::new(302, "Found".to_string()).code, 302);
    assert_eq!(Size::new(3, 4).width, 3);
}

#[test]
fn query_params_decode_and_override() {
    let params = velora::urlq::parse_query_params("a%20b=c%2Bd&x=1&x=2&plain");
    assert_eq!(params.len(), 2);
    let mut found_ab = false;
    let mut found_x = false;
    for (k, v) in &params {
        if k == "a b" {
            assert_eq!(v, "c+d");
            found_ab = true;
        }
        if k == "x" {
            assert_eq!(v, "2");
            found_x = true;
        }
    }
    assert!(found_ab && found_x);
    assert_eq!(velora::urlq::parse_query_params("").len(), 0);
}

#[test]
fn query_params_build_encodes_pairs() {
    let params = vec![
        ("a b".to_string(), "c+d".to_string()),
        ("x".to_string(), "1".to_string()),
    ];
    let query = velora::urlq::build_query_params(&params);
    assert_eq!(query, "a%20b=c%2Bd&x=1");
    assert_eq!(velora::urlq::build_query_params(&Vec::new()), "");
}
