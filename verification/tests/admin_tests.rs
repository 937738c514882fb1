use preers::admin::{target_to_url, Target};

#[test]
fn rendezvous_url() {
    assert_eq!(target_to_url(Target::Rendezvous, 8080), "http://localhost:8080/rendezvous");
}

#[test]
fn use_service_url() {
    assert_eq!(target_to_url(Target::Use, 8080), "http://localhost:8080/use_service");
}

#[test]
fn provide_service_url() {
    assert_eq!(target_to_url(Target::Provide, 8080), "http://localhost:8080/provide_service");
}

#[test]
fn port_digits_render_in_order() {
    assert_eq!(target_to_url(Target::Rendezvous, 1), "http://localhost:1/rendezvous");
    assert_eq!(target_to_url(Target::Rendezvous, 65535), "http://localhost:65535/rendezvous");
    assert_eq!(target_to_url(Target::Rendezvous, 10020), "http://localhost:10020/rendezvous");
}
