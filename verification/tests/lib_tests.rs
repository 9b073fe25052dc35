use amazon_rose_forest::health_check;

#[test]
fn it_works() {
    assert_eq!(2 + 2, 4);
}

#[test]
fn health_check_reports_ready() {
    assert!(health_check());
}

#[test]
fn zkp_handler_starts_without_generators() {
    let _zkp = amazon_rose_forest::governance::zkp::ZKP::new();
}
