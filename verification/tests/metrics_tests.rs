use matrix_pool::metrics::amap::{AmapMetrics, MetricsError};

#[test]
fn test_amap_inc() {
    let mut metrics = AmapMetrics::new(&["foo", "bar"]);
    metrics.inc("foo").unwrap();
    metrics.inc("bar").unwrap();
    metrics.inc("foo").unwrap();

    if let Some(v) = metrics.get("foo") {
        assert_eq!(v, 2);
    } else {
        panic!("foo not found");
    };

    if let Some(v) = metrics.get("bar") {
        assert_eq!(v, 1);
    } else {
        panic!("bar not found");
    };
}

#[test]
fn test_amap_dsc() {
    let mut metrics = AmapMetrics::new(&["foo", "bar"]);
    metrics.dsc("foo").unwrap();
    metrics.dsc("bar").unwrap();
    metrics.dsc("foo").unwrap();

    if let Some(v) = metrics.get("foo") {
        assert_eq!(v, -2);
    } else {
        panic!("foo not found");
    };

    if let Some(v) = metrics.get("bar") {
        assert_eq!(v, -1);
    } else {
        panic!("bar not found");
    };
}

#[test]
fn test_amap_key_not_found() {
    let mut metrics = AmapMetrics::new(&["foo"]);

    assert_eq!(metrics.inc("baz"), Err(MetricsError::KeyNotFound));
    assert_eq!(metrics.dsc("baz"), Err(MetricsError::KeyNotFound));
    assert_eq!(metrics.get("baz"), None);
    assert_eq!(metrics.get("foo"), Some(0));
}

#[test]
fn test_amap_duplicate_names() {
    let mut metrics = AmapMetrics::new(&["foo", "foo"]);
    metrics.inc("foo").unwrap();

    assert_eq!(metrics.get("foo"), Some(1));
}
