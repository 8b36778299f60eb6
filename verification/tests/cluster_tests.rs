use neemata_proxy::cluster::{Cluster, Endpoint};

fn endpoints(addrs: &[&str]) -> Vec<Endpoint> {
    addrs
        .iter()
        .map(|a| Endpoint { address: a.to_string(), secure: false })
        .collect()
}

#[test]
fn selection_cycles_round_robin() {
    let mut c = Cluster::new(endpoints(&["127.0.0.1:9001", "127.0.0.1:9002"]));
    let a = c.select().unwrap();
    let b = c.select().unwrap();
    let d = c.select().unwrap();
    assert_eq!(a.address, "127.0.0.1:9001");
    assert_eq!(b.address, "127.0.0.1:9002");
    assert_eq!(d.address, "127.0.0.1:9001");
}

#[test]
fn unhealthy_endpoints_are_skipped() {
    let mut c = Cluster::new(endpoints(&["a:1", "b:2", "c:3"]));
    c.set_health(1, false);
    let first = c.select().unwrap();
    let second = c.select().unwrap();
    let third = c.select().unwrap();
    assert_eq!(first.address, "a:1");
    assert_eq!(second.address, "c:3");
    assert_eq!(third.address, "a:1");
}

#[test]
fn no_healthy_endpoint_fails_until_one_is_restored() {
    let mut c = Cluster::new(endpoints(&["a:1"]));
    c.set_health(0, false);
    assert!(c.select().is_none());
    assert!(c.select().is_none());
    c.set_health(0, true);
    let s = c.select().unwrap();
    assert_eq!(s.address, "a:1");
}

#[test]
fn restoring_one_of_many_makes_it_deterministically_selectable() {
    let mut c = Cluster::new(endpoints(&["a:1", "b:2", "c:3"]));
    c.set_health(0, false);
    c.set_health(1, false);
    c.set_health(2, false);
    assert!(c.select().is_none());
    c.set_health(1, true);
    assert_eq!(c.select().unwrap().address, "b:2");
    assert_eq!(c.select().unwrap().address, "b:2");
}

#[test]
fn secure_flag_travels_with_the_endpoint() {
    let mut c = Cluster::new(vec![
        Endpoint { address: "a:1".to_string(), secure: true },
        Endpoint { address: "b:2".to_string(), secure: false },
    ]);
    let first = c.select().unwrap();
    let second = c.select().unwrap();
    assert!(first.secure);
    assert!(!second.secure);
}
