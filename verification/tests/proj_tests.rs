use geocol::proj_cache::{to_srid_plan, ProjCache, SridError, TransformPlan};

#[test]
fn resolves_a_known_reference_and_caches_it() {
    let mut cache = ProjCache::new();
    assert!(cache.get(4326).is_ok());
    // A second lookup is served from the cache and still succeeds.
    assert!(cache.get(4326).is_ok());
    assert!(cache.get(3857).is_ok());
}

#[test]
fn unknown_reference_is_reported() {
    let mut cache = ProjCache::new();
    let r = cache.get(1);
    assert_eq!(
        r.err().map(|e| e),
        Some(SridError::UnknownSpatialReference { srid: 1 })
    );
}

#[test]
fn matching_reference_keeps_the_value() {
    assert_eq!(to_srid_plan(4326, 4326, false), Ok(TransformPlan::Keep));
}

#[test]
fn empty_value_is_kept_whatever_the_target() {
    assert_eq!(to_srid_plan(4326, 3857, true), Ok(TransformPlan::Keep));
}

#[test]
fn differing_references_plan_a_transform() {
    assert_eq!(
        to_srid_plan(4326, 3857, false),
        Ok(TransformPlan::Transform { source: 4326, dest: 3857 })
    );
}

#[test]
fn out_of_range_references_are_unknown() {
    assert_eq!(
        to_srid_plan(-5, 3857, false),
        Err(SridError::UnknownSpatialReference { srid: -5 })
    );
    // A target outside the representable range is reported under the
    // identifier that failed: the target's.
    assert_eq!(
        to_srid_plan(4326, 100_000, false),
        Err(SridError::UnknownSpatialReference { srid: 100_000 })
    );
}
