use kamu_core::interval_text::{interval_to_text, parse_interval};
use kamu_core::time_interval::TimeInterval;

fn samples() -> Vec<TimeInterval> {
    vec![
        TimeInterval::empty(),
        TimeInterval::singleton(5),
        TimeInterval::Closed { lower: 1, upper: 9 },
        TimeInterval::left_half_open(3, 7),
        TimeInterval::unbounded_closed_right(4),
        TimeInterval::UnboundedOpenLeft { lower: 2 },
        TimeInterval::Unbounded,
    ]
}

#[test]
fn right_complement_is_disjoint_from_interval() {
    for x in samples() {
        let r = x.right_complement();
        assert_eq!(r.intersect(&x), TimeInterval::Empty);
        assert!(r.intersect(&x).is_empty());
    }
}

#[test]
fn intersect_commutes() {
    for a in samples() {
        for b in samples() {
            assert_eq!(a.intersect(&b), b.intersect(&a));
        }
    }
}

#[test]
fn singleton_contains_its_point() {
    for t in [-5i64, 0, 7, 1_600_000_000_000] {
        assert!(TimeInterval::singleton(t).contains_point(t));
        assert!(!TimeInterval::singleton(t).contains_point(t + 1));
    }
}

#[test]
fn right_complement_exact_values() {
    assert_eq!(TimeInterval::empty().right_complement(), TimeInterval::Unbounded);
    assert_eq!(
        TimeInterval::Closed { lower: 1, upper: 5 }.right_complement(),
        TimeInterval::UnboundedOpenLeft { lower: 5 }
    );
    assert_eq!(
        TimeInterval::unbounded_closed_right(8).right_complement(),
        TimeInterval::UnboundedOpenLeft { lower: 8 }
    );
    assert_eq!(TimeInterval::UnboundedOpenLeft { lower: 3 }.right_complement(), TimeInterval::Empty);
    assert_eq!(TimeInterval::Unbounded.right_complement(), TimeInterval::Empty);
}

#[test]
fn intersect_exact_values() {
    assert_eq!(
        TimeInterval::unbounded_closed_right(10).intersect(&TimeInterval::UnboundedOpenLeft { lower: 3 }),
        TimeInterval::LeftOpen { lower: 3, upper: 10 }
    );
    assert_eq!(
        TimeInterval::unbounded_closed_right(10).intersect(&TimeInterval::Unbounded),
        TimeInterval::UnboundedClosedRight { upper: 10 }
    );
    assert_eq!(
        TimeInterval::Closed { lower: 1, upper: 9 }.intersect(&TimeInterval::left_half_open(3, 20)),
        TimeInterval::LeftOpen { lower: 3, upper: 9 }
    );
    assert_eq!(
        TimeInterval::Closed { lower: 1, upper: 3 }.intersect(&TimeInterval::UnboundedOpenLeft { lower: 3 }),
        TimeInterval::Empty
    );
    assert_eq!(TimeInterval::left_half_open(5, 5), TimeInterval::Empty);
}

#[test]
fn contains_point_edges() {
    let iv = TimeInterval::left_half_open(3, 7);
    assert!(!iv.contains_point(3));
    assert!(iv.contains_point(4));
    assert!(iv.contains_point(7));
    assert!(!iv.contains_point(8));
    assert!(TimeInterval::Unbounded.contains_point(i64::MIN));
    assert!(!TimeInterval::empty().contains_point(0));
}

#[test]
fn interval_text_round_trips() {
    let t = 1577880000000i64;
    let ucr = parse_interval("(-inf, 2020-01-01T12:00:00.000Z]").unwrap();
    assert_eq!(ucr, TimeInterval::unbounded_closed_right(t));
    assert_eq!(interval_to_text(&ucr).unwrap(), "(-inf, 2020-01-01T12:00:00.000Z]");
    let single = parse_interval("[2020-01-01T12:00:00.000Z, 2020-01-01T12:00:00.000Z]").unwrap();
    assert_eq!(single, TimeInterval::singleton(t));
    assert_eq!(parse_interval("()").unwrap(), TimeInterval::Empty);
    assert_eq!(parse_interval("(-inf, inf)").unwrap(), TimeInterval::Unbounded);
    let open = TimeInterval::left_half_open(t, t + 1500);
    let text = interval_to_text(&open).unwrap();
    assert_eq!(text, "(2020-01-01T12:00:00.000Z, 2020-01-01T12:00:01.500Z]");
    assert_eq!(parse_interval(&text).unwrap(), open);
    let right = TimeInterval::UnboundedOpenLeft { lower: t };
    assert_eq!(parse_interval(&interval_to_text(&right).unwrap()).unwrap(), right);
    assert!(parse_interval("(2020-01-01T12:00:01.000Z, 2020-01-01T12:00:00.000Z]").is_none());
    assert!(parse_interval("[x, y]").is_none());
    assert!(parse_interval("(-inf 2020]").is_none());
    assert!(parse_interval("").is_none());
}
