use leaning_tower::slab_store::SlabStore;
use leaning_tower::tagged::{Request, Response};

#[test]
fn sequential_calls_reuse_tag_zero() {
    let mut registry = SlabStore::new();
    for i in 0..1000u32 {
        let mut request = Request::new(i);
        let tag = registry.assign_tag(&mut request);
        assert_eq!(tag, 0);
        assert_eq!(request.tag(), 0);
        let response = Response::new(request, i + 1);
        assert_eq!(registry.finish_tag(&response), 0);
        assert!(!registry.is_in_flight(0));
    }
}

#[test]
fn concurrent_calls_get_distinct_tags() {
    let mut registry = SlabStore::default();
    let mut requests = Vec::new();
    for i in 0..5u32 {
        let mut request = Request::new(i);
        let tag = registry.assign_tag(&mut request);
        assert_eq!(tag, i as usize);
        requests.push(request);
    }
    for tag in 0..5 {
        assert!(registry.is_in_flight(tag));
    }
    assert!(!registry.is_in_flight(5));
    // Answers come back in a shuffled order; each names its own request.
    let order = [3usize, 0, 4, 1, 2];
    let mut pending: Vec<Option<Request<u32>>> = requests.into_iter().map(Some).collect();
    for &k in order.iter() {
        let request = pending[k].take().unwrap();
        let payload = request.clone_inner();
        let response = Response::new(request, payload * 10);
        let tag = registry.finish_tag(&response);
        assert_eq!(tag, k);
        assert_eq!(response.inner(), (k as u32) * 10);
        assert!(!registry.is_in_flight(k));
    }
}

#[test]
fn freed_slot_is_reused_before_growing() {
    let mut registry = SlabStore::new();
    let mut a = Request::new('a');
    let mut b = Request::new('b');
    let mut c = Request::new('c');
    assert_eq!(registry.assign_tag(&mut a), 0);
    assert_eq!(registry.assign_tag(&mut b), 1);
    assert_eq!(registry.assign_tag(&mut c), 2);
    registry.finish_tag(&Response::new(b, ()));
    let mut d = Request::new('d');
    assert_eq!(registry.assign_tag(&mut d), 1);
    let mut e = Request::new('e');
    assert_eq!(registry.assign_tag(&mut e), 3);
}
