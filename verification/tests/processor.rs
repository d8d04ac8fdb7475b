use redirect_audit::{NetworkError, Processor, RedirectMap, Url, POOL_SIZE};

fn url(text: &str) -> Url {
    Url::parse(text).unwrap()
}

fn urls(texts: &[&str]) -> Vec<Url> {
    texts.iter().map(|text| url(text)).collect()
}

fn finished(processor: &Processor) -> RedirectMap {
    match processor.process() {
        Some(Ok(map)) => map,
        other => panic!("the batch has not come to a map: {:?}", other.map(|r| r.map(|_| ()))),
    }
}

/// Sends every request in the order of the batch and ends each one at once.
fn run_in_order(hosts: &[&str], finals: &[&str]) -> RedirectMap {
    let mut processor = Processor::from_hosts(urls(hosts));
    while let Some(index) = processor.dispatch() {
        assert!(processor.resolved(index, url(finals[index])));
    }
    finished(&processor)
}

#[test]
fn one_redirect_among_two_hosts() {
    let map = run_in_order(
        &["http://a.example/", "http://b.example/"],
        &["http://a.example/home", "http://b.example/"],
    );
    assert_eq!(map.len(), 1);
    assert_eq!(map.get(&url("http://a.example/")), Some(&url("http://a.example/home")));
    assert_eq!(map.get(&url("http://b.example/")), None);
    assert!(!map.contains_key(&url("http://b.example/")));
}

#[test]
fn same_url_twice_gives_one_entry() {
    let map = run_in_order(
        &["http://a.example/", "http://a.example/"],
        &["http://a.example/home", "http://a.example/home"],
    );
    assert_eq!(map.len(), 1);
    assert_eq!(map.get(&url("http://a.example/")), Some(&url("http://a.example/home")));
}

#[test]
fn same_url_twice_without_redirect_gives_no_entry() {
    let map = run_in_order(
        &["http://a.example/", "http://a.example/"],
        &["http://a.example/", "http://a.example/"],
    );
    assert_eq!(map.len(), 0);
    assert!(map.is_empty());
}

#[test]
fn later_redirect_of_the_same_url_overwrites() {
    let map = run_in_order(
        &["http://a.example/", "http://b.example/", "http://a.example/"],
        &["http://a.example/one", "http://b.example/", "http://a.example/two"],
    );
    assert_eq!(map.len(), 1);
    assert_eq!(map.get(&url("http://a.example/")), Some(&url("http://a.example/two")));
}

#[test]
fn later_occurrence_without_redirect_keeps_the_entry() {
    let map = run_in_order(
        &["http://a.example/", "http://a.example/"],
        &["http://a.example/one", "http://a.example/"],
    );
    assert_eq!(map.len(), 1);
    assert_eq!(map.get(&url("http://a.example/")), Some(&url("http://a.example/one")));
}

#[test]
fn no_redirects_give_an_empty_map() {
    let hosts = ["http://a.example/", "http://b.example/x", "http://c.example/?q=1"];
    let map = run_in_order(&hosts, &hosts);
    assert!(map.is_empty());
    assert_eq!(map.len(), 0);
    assert_eq!(map.entries().len(), 0);
}

#[test]
fn empty_batch_is_done_at_once() {
    let mut processor = Processor::from_hosts(Vec::new());
    assert_eq!(processor.dispatch(), None);
    assert_eq!(processor.in_flight(), 0);
    assert!(finished(&processor).is_empty());
}

#[test]
fn keys_are_hosts_and_no_entry_leads_to_itself() {
    let hosts = [
        "http://a.example/",
        "http://b.example/",
        "http://c.example/",
        "http://a.example/",
    ];
    let finals = [
        "http://a.example/x",
        "http://b.example/",
        "http://d.example/",
        "http://a.example/y",
    ];
    let map = run_in_order(&hosts, &finals);
    let entries = map.entries();
    assert_eq!(entries.len(), 2);
    for (source, dest) in &entries {
        assert!(hosts.contains(&source.as_str()));
        assert_ne!(source, dest);
    }
    assert_eq!(entries[0].0, url("http://a.example/"));
    assert_eq!(entries[0].1, url("http://a.example/y"));
    assert_eq!(entries[1].0, url("http://c.example/"));
    assert_eq!(entries[1].1, url("http://d.example/"));
}

#[test]
fn pool_size_is_five() {
    assert_eq!(POOL_SIZE, 5);
}

#[test]
fn at_most_five_requests_are_outstanding() {
    let hosts: Vec<String> = (0..12).map(|i| format!("http://h{}.example/", i)).collect();
    let mut processor = Processor::from_hosts(hosts.iter().map(|h| url(h)).collect());
    assert_eq!(processor.in_flight(), 0);
    for expected in 0..5 {
        assert_eq!(processor.dispatch(), Some(expected));
        assert_eq!(processor.in_flight(), expected + 1);
    }
    assert_eq!(processor.dispatch(), None);
    assert_eq!(processor.in_flight(), 5);
    assert!(processor.process().is_none());

    // A slot frees when a request ends, whichever it is.
    assert!(processor.resolved(3, url(&hosts[3])));
    assert_eq!(processor.in_flight(), 4);
    assert_eq!(processor.dispatch(), Some(5));
    assert_eq!(processor.dispatch(), None);
    assert_eq!(processor.in_flight(), 5);

    let mut outstanding = vec![0, 1, 2, 4, 5];
    let mut most = processor.in_flight();
    while let Some(index) = outstanding.pop() {
        assert!(processor.resolved(index, url(&hosts[index])));
        while let Some(next) = processor.dispatch() {
            outstanding.push(next);
        }
        most = most.max(processor.in_flight());
        assert!(processor.in_flight() <= POOL_SIZE);
        assert_eq!(processor.in_flight(), outstanding.len());
    }
    assert_eq!(most, 5);
    assert_eq!(processor.in_flight(), 0);
    assert!(finished(&processor).is_empty());
}

#[test]
fn fewer_hosts_than_the_pool_all_go_out() {
    let mut processor = Processor::from_hosts(urls(&["http://a.example/", "http://b.example/"]));
    assert_eq!(processor.dispatch(), Some(0));
    assert_eq!(processor.dispatch(), Some(1));
    assert_eq!(processor.dispatch(), None);
    assert_eq!(processor.in_flight(), 2);
}

#[test]
fn the_order_of_completions_does_not_change_the_map() {
    let hosts = [
        "http://a.example/",
        "http://b.example/",
        "http://c.example/",
        "http://a.example/",
    ];
    let finals = [
        "http://a.example/1",
        "http://b.example/",
        "http://c.example/3",
        "http://a.example/4",
    ];
    let orders: [[usize; 4]; 4] = [[0, 1, 2, 3], [3, 2, 1, 0], [2, 0, 3, 1], [1, 3, 0, 2]];
    let expected = run_in_order(&hosts, &finals).entries();
    for order in orders.iter() {
        let mut processor = Processor::from_hosts(urls(&hosts));
        while processor.dispatch().is_some() {}
        assert_eq!(processor.in_flight(), 4);
        for &index in order.iter() {
            assert!(processor.process().is_none());
            assert!(processor.resolved(index, url(finals[index])));
        }
        let map = finished(&processor);
        assert_eq!(map.entries(), expected);
        assert_eq!(map.get(&url("http://a.example/")), Some(&url("http://a.example/4")));
        assert_eq!(map.get(&url("http://c.example/")), Some(&url("http://c.example/3")));
        assert_eq!(map.get(&url("http://b.example/")), None);
    }
}

#[test]
fn one_failure_fails_the_batch() {
    let hosts = ["http://a.example/", "http://b.example/", "http://c.example/"];
    let mut processor = Processor::from_hosts(urls(&hosts));
    while processor.dispatch().is_some() {}
    assert!(processor.resolved(0, url("http://a.example/home")));
    assert!(processor.failed(1, NetworkError::Timeout));
    assert!(matches!(processor.process(), Some(Err(NetworkError::Timeout))));
    // What ends afterwards is no longer awaited and changes nothing.
    assert!(!processor.resolved(2, url("http://c.example/")));
    assert!(!processor.failed(2, NetworkError::Dns));
    assert!(matches!(processor.process(), Some(Err(NetworkError::Timeout))));
}

#[test]
fn nothing_goes_out_after_a_failure() {
    let hosts: Vec<String> = (0..8).map(|i| format!("http://h{}.example/", i)).collect();
    let mut processor = Processor::from_hosts(hosts.iter().map(|h| url(h)).collect());
    while processor.dispatch().is_some() {}
    assert!(processor.failed(0, NetworkError::Connection));
    assert_eq!(processor.dispatch(), None);
    assert_eq!(processor.in_flight(), 4);
    assert!(matches!(processor.process(), Some(Err(NetworkError::Connection))));
}

#[test]
fn each_kind_of_failure_comes_back_as_reported() {
    let kinds = [
        NetworkError::Connection,
        NetworkError::Timeout,
        NetworkError::Dns,
        NetworkError::RedirectLimit,
    ];
    for kind in kinds.iter() {
        let mut processor = Processor::from_hosts(urls(&["http://a.example/"]));
        assert_eq!(processor.dispatch(), Some(0));
        assert!(processor.failed(0, *kind));
        match processor.process() {
            Some(Err(error)) => assert_eq!(error, *kind),
            _ => panic!("the batch did not fail"),
        }
    }
}

#[test]
fn ends_that_are_not_awaited_are_refused() {
    let mut processor = Processor::from_hosts(urls(&["http://a.example/", "http://b.example/"]));
    // Nothing has gone out yet.
    assert!(!processor.resolved(0, url("http://a.example/x")));
    assert!(!processor.failed(1, NetworkError::Timeout));
    assert_eq!(processor.dispatch(), Some(0));
    // Out of range, and not yet handed out.
    assert!(!processor.resolved(7, url("http://a.example/x")));
    assert!(!processor.resolved(1, url("http://b.example/x")));
    assert!(processor.resolved(0, url("http://a.example/x")));
    // A second end of the same request.
    assert!(!processor.resolved(0, url("http://a.example/y")));
    assert_eq!(processor.dispatch(), Some(1));
    assert!(processor.resolved(1, url("http://b.example/")));
    let map = finished(&processor);
    assert_eq!(map.get(&url("http://a.example/")), Some(&url("http://a.example/x")));
    assert_eq!(map.len(), 1);
}

#[test]
fn hosts_keep_their_order_and_duplicates() {
    let hosts = ["http://b.example/", "http://a.example/", "http://b.example/"];
    let processor = Processor::from_hosts(urls(&hosts));
    let kept: Vec<&str> = processor.hosts().iter().map(|h| h.as_str()).collect();
    assert_eq!(kept, hosts);
}

#[test]
fn from_resolutions_pairs_by_position() {
    let hosts = urls(&["http://a.example/", "http://b.example/", "http://c.example/"]);
    let finals = urls(&["http://a.example/", "http://b.example/moved"]);
    let map = RedirectMap::from_resolutions(&hosts, &finals);
    assert_eq!(map.len(), 1);
    assert_eq!(map.get(&url("http://b.example/")), Some(&url("http://b.example/moved")));
    assert!(!map.contains_key(&url("http://c.example/")));

    let longer = urls(&[
        "http://x.example/",
        "http://b.example/",
        "http://c.example/",
        "http://d.example/",
    ]);
    let map = RedirectMap::from_resolutions(&hosts, &longer);
    let entries = map.entries();
    assert_eq!(entries.len(), 1);
    assert_eq!(entries[0], (url("http://a.example/"), url("http://x.example/")));
}

#[test]
fn transport_errors_are_classified() {
    // A time limit decides before everything else.
    assert_eq!(NetworkError::classify(true, false, false, false), NetworkError::Timeout);
    assert_eq!(NetworkError::classify(true, true, true, true), NetworkError::Timeout);
    // Then refused redirects.
    assert_eq!(NetworkError::classify(false, true, false, false), NetworkError::RedirectLimit);
    assert_eq!(NetworkError::classify(false, true, true, true), NetworkError::RedirectLimit);
    // A lookup counts only where no connection came about.
    assert_eq!(NetworkError::classify(false, false, true, true), NetworkError::Dns);
    assert_eq!(NetworkError::classify(false, false, false, true), NetworkError::Connection);
    assert_eq!(NetworkError::classify(false, false, true, false), NetworkError::Connection);
    // Anything else is taken as a failed connection.
    assert_eq!(NetworkError::classify(false, false, false, false), NetworkError::Connection);
}

#[test]
fn classification_covers_every_combination() {
    for bits in 0..16u8 {
        let (t, r, c, d) = (bits & 1 != 0, bits & 2 != 0, bits & 4 != 0, bits & 8 != 0);
        let expected = if t {
            NetworkError::Timeout
        } else if r {
            NetworkError::RedirectLimit
        } else if c && d {
            NetworkError::Dns
        } else {
            NetworkError::Connection
        };
        assert_eq!(NetworkError::classify(t, r, c, d), expected);
    }
}
