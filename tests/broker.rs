use leaning_tower::allocator::{Allocation, AllocatorError, AllocatorService, GrantEvent};
use leaning_tower::resource_filter::Describable;

struct Named(&'static str);

impl Describable<String> for Named {
    fn describe(&self) -> String {
        self.0.to_string()
    }
}

fn pool() -> AllocatorService<String> {
    AllocatorService::new(&vec![Named("A"), Named("A"), Named("B")])
}

fn candidates(allocation: Allocation) -> Vec<usize> {
    match allocation {
        Allocation::Racing { candidates } => candidates,
        other => panic!("expected a race, got {:?}", other),
    }
}

#[test]
fn unknown_description_fails_at_once() {
    let mut service = pool();
    let allocation = service.call(&"C".to_string());
    assert!(matches!(
        allocation,
        Allocation::Failed { error: AllocatorError::NoMatchingResource }
    ));
    assert!(matches!(
        allocation.into_reply(),
        Some(Err(AllocatorError::NoMatchingResource))
    ));
}

#[test]
fn matching_is_exact() {
    let mut service = AllocatorService::new(&vec![Named("AB"), Named("A"), Named("a")]);
    assert_eq!(candidates(service.call(&"A".to_string())), vec![1]);
    assert!(matches!(service.call(&"".to_string()), Allocation::Failed { .. }));
}

#[test]
fn every_matching_resource_races() {
    let mut service = pool();
    assert_eq!(candidates(service.call(&"A".to_string())), vec![0, 1]);
    assert_eq!(candidates(service.call(&"B".to_string())), vec![2]);
}

#[test]
fn empty_pool_matches_nothing() {
    let mut service: AllocatorService<usize> = AllocatorService::new(&Vec::<Index>::new());
    assert!(matches!(
        service.call(&0),
        Allocation::Failed { error: AllocatorError::NoMatchingResource }
    ));
}

struct Index(usize);

impl Describable<usize> for Index {
    fn describe(&self) -> usize {
        self.0
    }
}

#[test]
fn calls_are_counted() {
    let resources: Vec<Index> = (0..10).map(|i| Index(i % 3)).collect();
    let mut service = AllocatorService::new(&resources);
    assert_eq!(service.times_called(), 0);
    assert_eq!(candidates(service.call(&1)), vec![1, 4, 7]);
    assert_eq!(candidates(service.call(&0)), vec![0, 3, 6, 9]);
    assert!(matches!(service.call(&3), Allocation::Failed { .. }));
    assert_eq!(service.times_called(), 3);
}

#[test]
fn winner_is_granted_then_served() {
    let mut service = pool();
    let allocation = service.call(&"B".to_string());
    let allocation = allocation.step(GrantEvent::Acquired { resource: 2 });
    assert!(matches!(allocation, Allocation::Granting { resource: 2 }));
    let allocation = allocation.step(GrantEvent::Bound { port: 40123 });
    assert!(matches!(allocation, Allocation::Serving { resource: 2, port: 40123 }));
    assert!(matches!(allocation.into_reply(), Some(Ok(40123))));
}

#[test]
fn non_candidate_cannot_win() {
    let mut service = pool();
    let allocation = service.call(&"B".to_string());
    let allocation = allocation.step(GrantEvent::Acquired { resource: 0 });
    assert_eq!(candidates(allocation), vec![2]);
}

#[test]
fn out_of_place_events_change_nothing() {
    let allocation = Allocation::Granting { resource: 1 };
    let allocation = allocation.step(GrantEvent::AcquireFailed);
    assert!(matches!(allocation, Allocation::Granting { resource: 1 }));
    assert!(allocation.into_reply().is_none());
    let failed = Allocation::Failed { error: AllocatorError::NoMatchingResource };
    let failed = failed.step(GrantEvent::Acquired { resource: 0 });
    let failed = failed.step(GrantEvent::Bound { port: 1 });
    assert!(matches!(failed, Allocation::Failed { error: AllocatorError::NoMatchingResource }));
}

#[test]
fn semaphore_error_fails_the_race() {
    let allocation = Allocation::Racing { candidates: vec![0, 1] };
    let allocation = allocation.step(GrantEvent::AcquireFailed);
    assert!(matches!(
        allocation.into_reply(),
        Some(Err(AllocatorError::SemaphoreProblem))
    ));
}

#[test]
fn bind_failure_reports_a_listener_problem() {
    let allocation = Allocation::Granting { resource: 0 };
    let allocation = allocation.step(GrantEvent::BindFailed { detail: "address in use".to_string() });
    match allocation.into_reply() {
        Some(Err(AllocatorError::ListenerProblem(detail))) => assert_eq!(detail, "address in use"),
        other => panic!("expected a listener problem, got {:?}", other),
    }
}

#[test]
fn closed_semaphore_becomes_semaphore_problem() {
    let runtime = tokio::runtime::Builder::new_current_thread().build().unwrap();
    let error = runtime.block_on(async {
        let semaphore = tokio::sync::Semaphore::new(1);
        semaphore.close();
        semaphore.acquire().await.map(|_| ()).unwrap_err()
    });
    assert!(matches!(AllocatorError::from(error), AllocatorError::SemaphoreProblem));
}

#[test]
fn end_to_end_pool_scenario() {
    let mut service = pool();
    // Two concurrent requests for "B" race for the same single resource.
    let first = service.call(&"B".to_string());
    let second = service.call(&"B".to_string());
    assert_eq!(candidates(second), vec![2]);
    let first = first.step(GrantEvent::Acquired { resource: 2 });
    let first = first.step(GrantEvent::Bound { port: 5000 });
    assert!(matches!(first.into_reply(), Some(Ok(5000))));
    // "C" matches nothing.
    assert!(matches!(
        service.call(&"C".to_string()).into_reply(),
        Some(Err(AllocatorError::NoMatchingResource))
    ));
    assert_eq!(service.times_called(), 3);
}
