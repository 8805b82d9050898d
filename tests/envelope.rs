use leaning_tower::mux_server::Detagger;
use leaning_tower::tagged::{map_response, Request, Response};

#[test]
fn new_request_has_unset_tag() {
    let request = Request::new(String::from("hello"));
    assert_eq!(request.tag(), 0);
    assert_eq!(request.inner(), "hello");
}

#[test]
fn set_tag_keeps_payload() {
    let mut request = Request::new(41u32);
    request.set_tag(7);
    assert_eq!(request.tag(), 7);
    assert_eq!(request.clone_inner(), 41);
    assert_eq!(request.tag(), 7);
    assert_eq!(request.inner(), 41);
}

#[test]
fn response_copies_the_request_tag() {
    let mut request = Request::new(vec![1u8, 2, 3]);
    request.set_tag(12);
    let response = Response::new(request, String::from("done"));
    assert_eq!(response.tag(), 12);
    assert_eq!(response.inner(), "done");
}

#[test]
fn map_response_strips_the_envelope() {
    let mut request = Request::new(());
    request.set_tag(3);
    let response = Response::new(request, 99u64);
    assert_eq!(map_response(response), 99);
}

#[test]
fn detagger_forwards_to_its_service() {
    let mut detagger = Detagger::new(vec![1u8]);
    detagger.service_mut().push(2);
    assert_eq!(detagger.service_mut().clone(), vec![1u8, 2]);
}
