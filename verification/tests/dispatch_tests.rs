use rusolver::config::Args;
use rusolver::dispatch::Dispatcher;
use rusolver::effective_threads;
use rusolver::record::DomainData;

fn hosts(list: &[&str]) -> Vec<String> {
    list.iter().map(|s| s.to_string()).collect()
}

#[test]
fn builtin_pool_holds_the_five_providers() {
    let pool = rusolver::config::builtin_nameservers();
    assert_eq!(pool.len(), 10);
    assert_eq!(pool[0], "1.1.1.1:53");
    assert_eq!(pool[5], "149.112.112.112:53");
    assert_eq!(pool[9], "64.6.65.6:53");
    assert!(pool.iter().all(|e| e.ends_with(":53")));
}

#[test]
fn effective_threads_is_min() {
    assert_eq!(effective_threads(100, 3), 3);
    assert_eq!(effective_threads(2, 5), 2);
    assert_eq!(effective_threads(4, 4), 4);
    assert_eq!(effective_threads(7, 0), 0);
}

#[test]
fn args_ceiling_matches_effective_threads() {
    let args = Args {
        threads: 100,
        retries: 0,
        domain: None,
        resolvers: None,
        timeout: 3,
        ip: false,
        enable_double_check: false,
        quiet_flag: false,
    };
    assert_eq!(args.effective_thread_ceiling(3), 3);
    assert_eq!(args.effective_thread_ceiling(5000), 100);
}

#[test]
fn in_flight_count_never_exceeds_ceiling() {
    let names = hosts(&["a", "b", "c", "d", "e"]);
    let threads = 2;
    let mut d = Dispatcher::new(names.clone(), threads);
    assert_eq!(d.limit, 2);

    let mut max_in_flight = 0;
    let mut order: Vec<String> = Vec::new();
    loop {
        while let Some(h) = d.start_next() {
            order.push(h);
            assert!(d.in_flight.len() <= threads);
            if d.in_flight.len() > max_in_flight {
                max_in_flight = d.in_flight.len();
            }
        }
        if d.in_flight.is_empty() {
            break;
        }
        // One lookup comes back; its slot frees before the next host starts.
        let done = d.in_flight[0].clone();
        d.complete(done, DomainData::default());
        assert!(d.in_flight.len() <= threads);
    }
    assert_eq!(max_in_flight, 2);
    assert_eq!(order, names);
    assert!(d.is_done());
}

#[test]
fn submission_follows_input_order() {
    let names = hosts(&["x", "y", "z"]);
    let mut d = Dispatcher::new(names.clone(), 10);
    assert_eq!(d.limit, 3);
    assert_eq!(d.start_next(), Some("x".to_string()));
    assert_eq!(d.start_next(), Some("y".to_string()));
    assert_eq!(d.start_next(), Some("z".to_string()));
    assert_eq!(d.start_next(), None);
}

#[test]
fn completion_in_any_order_collects_every_host_once() {
    let names = hosts(&["a", "b", "c", "d"]);
    let mut d = Dispatcher::new(names.clone(), 4);
    while d.start_next().is_some() {}
    // Complete out of submission order.
    for h in ["c", "a", "d", "b"] {
        d.complete(h.to_string(), DomainData::default());
    }
    assert!(d.is_done());
    assert_eq!(d.results.len(), 4);
    let mut keys: Vec<String> = d.results.iter().map(|p| p.0.clone()).collect();
    keys.sort();
    assert_eq!(keys, hosts(&["a", "b", "c", "d"]));
}

#[test]
fn ceiling_higher_than_host_count_is_lowered() {
    let names = hosts(&["only"]);
    let mut d = Dispatcher::new(names, 100);
    assert_eq!(d.limit, 1);
    assert_eq!(d.start_next(), Some("only".to_string()));
    assert_eq!(d.start_next(), None);
}

#[test]
fn empty_host_set_finishes_immediately() {
    let mut d = Dispatcher::new(Vec::new(), 8);
    assert_eq!(d.limit, 0);
    assert_eq!(d.start_next(), None);
    assert!(d.is_done());
    assert!(d.results.is_empty());
}
