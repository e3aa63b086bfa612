use uptimed::snapshot::{Readings, SysInfo};
use uptimed::text::{chars_of, parse_unsigned};

fn readings(net_rx: u64, net_tx: u64) -> Readings {
    Readings { net_rx, net_tx, uptime: 12346, avail_mem: 20, load: 25, disk_free: 25 }
}

fn info(first: &Readings) -> SysInfo {
    SysInfo::new(
        "collector.example".to_string(),
        "prod".to_string(),
        "/".to_string(),
        "eth0".to_string(),
        "web1".to_string(),
        first,
    )
}

#[test]
fn new_takes_the_counters_as_baselines() {
    let s = info(&readings(100, 200));
    assert_eq!(s.destination, "collector.example");
    assert_eq!(s.namespace, "prod");
    assert_eq!(s.filesystem, "/");
    assert_eq!(s.interface, "eth0");
    assert_eq!(s.hostname, "web1");
    assert_eq!(s.last_seen_net_rx, 100);
    assert_eq!(s.last_seen_net_tx, 200);
    assert_eq!(s.net_rx, 0);
    assert_eq!(s.net_tx, 0);
    assert_eq!(s.uptime, 12346);
    assert_eq!(s.avail_mem, 20);
    assert_eq!(s.load, 25);
    assert_eq!(s.disk_free, 25);
}

#[test]
fn refresh_reports_the_delta_and_moves_the_baseline() {
    let mut s = info(&readings(100, 1000));
    s.refresh(&readings(150, 1700));
    assert_eq!(s.net_rx, 50);
    assert_eq!(s.last_seen_net_rx, 150);
    assert_eq!(s.net_tx, 700);
    assert_eq!(s.last_seen_net_tx, 1700);
}

#[test]
fn unchanged_counters_give_a_delta_of_zero() {
    let mut s = info(&readings(100, 1000));
    s.refresh(&readings(150, 1700));
    s.refresh(&readings(150, 1700));
    assert_eq!(s.net_rx, 0);
    assert_eq!(s.net_tx, 0);
    assert_eq!(s.last_seen_net_rx, 150);
    assert_eq!(s.last_seen_net_tx, 1700);
}

#[test]
fn consecutive_deltas_add_up() {
    let mut s = info(&readings(10, 20));
    s.refresh(&readings(25, 20));
    let first = (s.net_rx, s.net_tx);
    s.refresh(&readings(100, 21));
    assert_eq!(first, (15, 0));
    assert_eq!((s.net_rx, s.net_tx), (75, 1));
    assert_eq!(first.0 + s.net_rx, 100 - 10);
    assert_eq!(first.1 + s.net_tx, 21 - 20);
}

#[test]
fn a_counter_that_went_down_counts_as_not_moved() {
    let mut s = info(&readings(500, 500));
    s.refresh(&readings(20, 600));
    assert_eq!(s.net_rx, 0);
    assert_eq!(s.last_seen_net_rx, 20);
    assert_eq!(s.net_tx, 100);
    s.refresh(&readings(30, 600));
    assert_eq!(s.net_rx, 10);
}

#[test]
fn refresh_replaces_the_gauges_and_keeps_the_configuration() {
    let mut s = info(&readings(0, 0));
    s.refresh(&Readings {
        net_rx: u64::MAX,
        net_tx: 1,
        uptime: 99,
        avail_mem: 98,
        load: 97,
        disk_free: 96,
    });
    assert_eq!(s.net_rx, u64::MAX);
    assert_eq!(s.net_tx, 1);
    assert_eq!(s.uptime, 99);
    assert_eq!(s.avail_mem, 98);
    assert_eq!(s.load, 97);
    assert_eq!(s.disk_free, 96);
    assert_eq!(s.destination, "collector.example");
    assert_eq!(s.namespace, "prod");
    assert_eq!(s.filesystem, "/");
    assert_eq!(s.interface, "eth0");
    assert_eq!(s.hostname, "web1");
}

#[test]
fn serialize_writes_six_gauge_lines_in_order() {
    let mut s = info(&readings(100, 1000));
    s.refresh(&readings(150, 1700));
    assert_eq!(
        s.serialize(),
        "prod.web1.net-rx:50|g\n\
         prod.web1.net-tx:700|g\n\
         prod.web1.uptime:12346|g\n\
         prod.web1.availmem:20|g\n\
         prod.web1.diskfree:25|g\n\
         prod.web1.load:25|g\n"
    );
}

#[test]
fn serialize_before_any_sample() {
    let s = info(&Readings {
        net_rx: 7,
        net_tx: 8,
        uptime: 0,
        avail_mem: 100,
        load: 0,
        disk_free: 0,
    });
    assert_eq!(
        s.serialize(),
        "prod.web1.net-rx:0|g\nprod.web1.net-tx:0|g\nprod.web1.uptime:0|g\n\
         prod.web1.availmem:100|g\nprod.web1.diskfree:0|g\nprod.web1.load:0|g\n"
    );
}

#[test]
fn serialize_is_the_same_for_the_same_values() {
    let mut a = info(&readings(1, 2));
    let mut b = info(&readings(1, 2));
    a.refresh(&readings(3, 4));
    b.refresh(&readings(3, 4));
    assert_eq!(a.serialize(), b.serialize());
    assert_eq!(a.serialize(), a.serialize());
}

#[test]
fn serialize_lines_match_the_gauge_format() {
    let mut s = info(&readings(0, 0));
    s.refresh(&Readings {
        net_rx: u64::MAX,
        net_tx: 10,
        uptime: 1234567890,
        avail_mem: 5,
        load: 409,
        disk_free: 100,
    });
    let payload = s.serialize();
    assert!(payload.ends_with('\n'));
    let lines: Vec<&str> = payload.lines().collect();
    assert_eq!(lines.len(), 6);
    let names = ["net-rx", "net-tx", "uptime", "availmem", "diskfree", "load"];
    let values = [u64::MAX, 10, 1234567890, 5, 100, 409];
    for i in 0..6 {
        assert_eq!(lines[i], format!("prod.web1.{}:{}|g", names[i], values[i]));
    }
}

#[test]
fn serialized_values_read_back() {
    for value in [0u64, 1, 9, 10, 11, 99, 100, 101, 1234567890, u64::MAX - 1, u64::MAX] {
        let mut s = info(&readings(0, 0));
        s.refresh(&Readings {
            net_rx: value,
            net_tx: 0,
            uptime: 0,
            avail_mem: 0,
            load: 0,
            disk_free: 0,
        });
        let payload = s.serialize();
        let first = payload.lines().next().unwrap();
        let written = first
            .strip_prefix("prod.web1.net-rx:")
            .unwrap()
            .strip_suffix("|g")
            .unwrap();
        assert_eq!(written, value.to_string());
        assert_eq!(parse_unsigned(&chars_of(written)), Some(value));
    }
}

#[test]
fn send_samples_and_makes_the_datagram() {
    let mut s = info(&readings(100, 1000));
    let datagram = s.send(&readings(150, 1700));
    assert_eq!(s.net_rx, 50);
    assert_eq!(s.last_seen_net_rx, 150);
    assert_eq!(datagram.address, "collector.example:8125");
    assert_eq!(datagram.payload, s.serialize());
    assert!(datagram.payload.starts_with("prod.web1.net-rx:50|g\nprod.web1.net-tx:700|g\n"));
}
