use oflh::queue::{Next, Pending};

#[test]
fn pending_requests_coalesce() {
    let mut q = Pending::new();
    assert!(matches!(q.next(), Next::Wait));
    q.request(1);
    q.request(2);
    q.request(3);
    assert!(matches!(q.next(), Next::Run(3)));
    assert!(matches!(q.next(), Next::Wait));
}

#[test]
fn shutdown_discards_pending_requests() {
    let mut q = Pending::new();
    q.request("kill");
    q.close();
    assert!(matches!(q.next(), Next::Stop));
    q.request("scan");
    assert!(matches!(q.next(), Next::Stop));
}
