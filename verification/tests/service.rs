use response_compression::layer::DEFAULT_MIN_SIZE;
use response_compression::{CompressionLayer, CompressionService};

#[test]
fn test_layer_defaults() {
    let layer = CompressionLayer::new();
    assert_eq!(layer.min_size, DEFAULT_MIN_SIZE);
    assert_eq!(layer.min_size, 860);
    let layer = CompressionLayer::default();
    assert_eq!(layer.min_size, 860);
}

#[test]
fn test_layer_min_size_builder() {
    let layer = CompressionLayer::new().min_size(4096);
    assert_eq!(layer.min_size, 4096);
}

#[test]
fn test_service_accessors() {
    let mut service = CompressionService::new("inner service", 860);
    assert_eq!(service.min_size, 860);
    assert_eq!(*service.inner(), "inner service");
    *service.inner_mut() = "replaced";
    assert_eq!(*service.inner(), "replaced");
    assert_eq!(service.into_inner(), "replaced");
}
