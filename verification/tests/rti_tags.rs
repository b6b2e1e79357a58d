use boomerang_federated::rti::latest_tag_strictly_before;
use boomerang_federated::WireTag;

#[test]
fn lf_tag_predecessor_preserves_sentinels_and_tag_boundaries() {
    assert_eq!(
        latest_tag_strictly_before(WireTag::NEVER),
        Some(WireTag::NEVER)
    );
    assert_eq!(
        latest_tag_strictly_before(WireTag::FOREVER),
        Some(WireTag::FOREVER)
    );
    assert_eq!(
        latest_tag_strictly_before(WireTag::finite(5, 2)),
        Some(WireTag::finite(5, 1))
    );
    assert_eq!(
        latest_tag_strictly_before(WireTag::finite(5, 0)),
        Some(WireTag::finite(4, u64::MAX))
    );
}
