use boomerang_federated::{WireDelay, WireTag};

#[test]
fn kind_str_distinguishes_sentinels_from_finite_tags() {
    for (tag, kind) in [
        (WireTag::NEVER, "never"),
        (WireTag::FOREVER, "forever"),
        (WireTag::finite(0, 0), "finite"),
        (WireTag::finite(i128::MIN, 0), "finite"),
        (WireTag::finite(i128::MAX, u64::MAX), "finite"),
    ] {
        assert_eq!(tag.kind_str(), kind);
    }
}

#[test]
fn wire_tags_order_sentinels_and_finite_tags() {
    assert!(WireTag::Never < WireTag::finite(0, 0));
    assert!(WireTag::finite(0, 0) < WireTag::finite(0, 1));
    assert!(WireTag::finite(10, 0) < WireTag::Forever);
}

#[test]
fn wire_tag_delay_preserves_zero_delay_and_resets_positive_delay_microstep() {
    let tag = WireTag::finite(5, 3);

    assert_eq!(tag.checked_delay(WireDelay::from_nanos(0)), Some(tag));
    assert_eq!(
        tag.checked_delay(WireDelay::from_nanos(10)),
        Some(WireTag::finite(15, 0))
    );
    assert_eq!(
        WireTag::Forever.checked_delay(WireDelay::from_nanos(10)),
        Some(WireTag::Forever)
    );
}

#[test]
fn predecessor_bounds_superdense_tags_without_wrapping() {
    for (tag, expected) in [
        (WireTag::NEVER, Some(WireTag::NEVER)),
        (WireTag::FOREVER, Some(WireTag::FOREVER)),
        (WireTag::finite(50, 2), Some(WireTag::finite(50, 1))),
        (WireTag::finite(50, 0), Some(WireTag::finite(49, u64::MAX))),
        (WireTag::finite(i128::MIN, 0), None),
    ] {
        assert_eq!(tag.checked_predecessor(), expected);
    }
}

#[test]
fn tag_accessors_expose_finite_components_only() {
    assert_eq!(WireTag::finite(-3, 7).offset_ns(), Some(-3));
    assert_eq!(WireTag::finite(-3, 7).microstep(), Some(7));
    assert_eq!(WireTag::Never.offset_ns(), None);
    assert_eq!(WireTag::Forever.microstep(), None);
    assert!(WireTag::finite(1, 1).is_finite());
    assert!(!WireTag::Forever.is_finite());
}

#[test]
fn delay_overflow_is_reported_as_none() {
    assert_eq!(
        WireTag::finite(i128::MAX, 0).checked_delay(WireDelay::from_nanos(1)),
        None
    );
    assert_eq!(
        WireTag::finite(i128::MAX, 9).checked_delay(WireDelay::from_nanos(0)),
        Some(WireTag::finite(i128::MAX, 9))
    );
}

#[test]
fn wire_delay_round_trips_nanoseconds() {
    assert_eq!(WireDelay::from_nanos(42).as_nanos(), 42);
    assert!(WireDelay::from_nanos(0).is_zero());
    assert!(!WireDelay::from_nanos(1).is_zero());
}

#[test]
fn tag_order_helpers_agree_with_the_derived_order() {
    let tags = [
        WireTag::Never,
        WireTag::finite(-1, u64::MAX),
        WireTag::finite(0, 0),
        WireTag::finite(0, 1),
        WireTag::Forever,
    ];
    for a in tags {
        for b in tags {
            assert_eq!(a.le(&b), a <= b);
            assert_eq!(a.lt(&b), a < b);
            assert_eq!(a.min_tag(b), a.min(b));
            assert_eq!(a.max_tag(b), a.max(b));
        }
    }
}

#[test]
fn delays_order_by_their_nanoseconds() {
    let short = WireDelay::from_nanos(1);
    let long = WireDelay::from_nanos(2);
    assert!(short < long);
    assert!(short <= WireDelay::from_nanos(1));
    assert!(!(long <= short));
    assert_eq!(long.partial_cmp(&short), Some(std::cmp::Ordering::Greater));
    assert_eq!(short.partial_cmp(&WireDelay::from_nanos(1)), Some(std::cmp::Ordering::Equal));
    assert_eq!(short.cmp(&long), std::cmp::Ordering::Less);
}
