use orbital::parse::parse_i32;
use orbital::rect::{schedule, Rect};

fn r(x: i64, y: i64, w: i64, h: i64) -> Rect {
    Rect { x, y, w, h }
}

#[test]
fn schedule_merges_overlapping() {
    let mut v = Vec::new();
    schedule(&mut v, r(0, 0, 10, 10));
    schedule(&mut v, r(2, 2, 10, 10));
    assert_eq!(v, vec![r(0, 0, 12, 12)]);
}

#[test]
fn schedule_keeps_costly_merge_apart() {
    let mut v = Vec::new();
    schedule(&mut v, r(0, 0, 10, 10));
    schedule(&mut v, r(5, 5, 10, 10));
    assert_eq!(v, vec![r(0, 0, 10, 10), r(5, 5, 10, 10)]);
}

#[test]
fn schedule_appends_distant() {
    let mut v = Vec::new();
    schedule(&mut v, r(0, 0, 10, 10));
    schedule(&mut v, r(100, 100, 10, 10));
    assert_eq!(v, vec![r(0, 0, 10, 10), r(100, 100, 10, 10)]);
}

#[test]
fn schedule_twice_keeps_one() {
    let mut v = Vec::new();
    schedule(&mut v, r(3, 4, 5, 6));
    schedule(&mut v, r(3, 4, 5, 6));
    assert_eq!(v, vec![r(3, 4, 5, 6)]);
}

#[test]
fn schedule_covers_every_input() {
    let inputs = [r(0, 0, 3, 3), r(1, 1, 3, 3), r(50, 0, 2, 2), r(0, 50, 1, 1)];
    let mut v = Vec::new();
    for i in inputs.iter() {
        schedule(&mut v, *i);
    }
    for i in inputs.iter() {
        for x in i.x..i.x + i.w {
            for y in i.y..i.y + i.h {
                assert!(v.iter().any(|e| e.contains(x, y)));
            }
        }
    }
}

#[test]
fn rect_operations() {
    let a = r(0, 0, 10, 10);
    let b = r(5, -5, 10, 10);
    assert_eq!(a.intersection(&b), r(5, 0, 5, 5));
    assert_eq!(a.container(&b), r(0, -5, 15, 15));
    assert_eq!(a.area(), 100);
    assert!(a.intersection(&r(20, 20, 1, 1)).is_empty());
    assert!(a.contains(9, 9));
    assert!(!a.contains(10, 9));
    assert_eq!(Rect::new(1, 2, -3, 4), r(1, 2, 0, 4));
}

#[test]
fn parse_i32_like_std() {
    let cases: [&[u8]; 9] = [b"12", b"-7", b"+5", b"", b"-", b"1x", b"2147483647", b"2147483648", b"-2147483648"];
    for c in cases.iter() {
        let want = std::str::from_utf8(c).unwrap().parse::<i32>().ok();
        assert_eq!(parse_i32(c, 0, c.len()), want);
    }
    assert_eq!(parse_i32(b"99999999999999999999", 0, 20), None);
}
