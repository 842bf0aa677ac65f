use ss_proxy::ss::line::{Action, Line};
use ss_proxy::ss::{u8r, LineType, Status};

fn sent(acts: &[Action]) -> Vec<Vec<u8>> {
    acts.iter()
        .map(|a| match a {
            Action::Send(v) => v.clone(),
            _ => panic!("not a send"),
        })
        .collect()
}

fn connect_request(host: &str, port: u16) -> Vec<u8> {
    let mut r = vec![5u8, 1, 0, 3, host.len() as u8];
    r.extend_from_slice(host.as_bytes());
    r.push((port >> 8) as u8);
    r.push((port & 0xff) as u8);
    r
}

#[test]
fn u8r_mirrors_the_middle_range() {
    assert_eq!(u8r(0), 0);
    assert_eq!(u8r(45), 45);
    assert_eq!(u8r(46), 209);
    assert_eq!(u8r(100), 155);
    assert_eq!(u8r(209), 46);
    assert_eq!(u8r(210), 210);
    assert_eq!(u8r(255), 255);
}

#[test]
fn u8r_is_its_own_inverse() {
    for b in 0..=255u8 {
        assert_eq!(u8r(u8r(b)), b);
    }
}

#[test]
fn new_line_is_raw_and_empty() {
    let l = Line::new(3, 4, LineType::Pc, 1000);
    assert_eq!(l.id, 3);
    assert_eq!(l.pair_id, 4);
    assert_eq!(l.status, Status::Raw);
    assert_eq!(l.birth, 1000);
    assert!(l.net_data.is_empty() && l.mem_data.is_empty() && l.garbage.is_empty());
    assert_eq!(l.traffic, 0);
}

#[test]
fn socks_handshake_on_the_client_side() {
    let mut pc = Line::new(1, 2, LineType::Pc, 0);
    let acts = pc.on_writable();
    assert!(acts.is_empty());
    assert_eq!(pc.status, Status::Established);

    pc.on_recv(&[5, 1, 0]);
    assert_eq!(pc.traffic, 3);
    assert!(pc.can_consume_network_data());
    let acts = pc.consume_network_data();
    assert_eq!(sent(&acts), vec![vec![5u8, 0]]);
    assert_eq!(pc.status, Status::FirstPackDone);
    assert!(pc.net_data.is_empty());

    let req = connect_request("example.com", 443);
    pc.on_recv(&req);
    assert!(pc.can_consume_network_data());
    let acts = pc.consume_network_data();
    assert_eq!(sent(&acts), vec![vec![5u8, 0, 0, 1, 0, 0, 0, 0, 0, 0]]);
    assert_eq!(pc.status, Status::SecondPackDone);
    let expected: Vec<u8> = req[3..].iter().map(|b| u8r(*b)).collect();
    assert_eq!(pc.garbage, expected);

    pc.on_recv(&[100, 1, 200]);
    let acts = pc.consume_network_data();
    assert!(acts.is_empty());
    assert_eq!(pc.status, Status::EncryptDone);
    assert_eq!(pc.garbage, vec![155u8, 1, 55]);

    pc.on_recv(&[100, 1]);
    pc.consume_network_data();
    assert_eq!(pc.garbage, vec![155u8, 1, 55, 100, 1]);
}

#[test]
fn connect_request_round_trip_to_the_remote_gate() {
    let mut pc = Line::new(1, 2, LineType::Pc, 0);
    pc.set_status(Status::FirstPackDone);
    pc.on_recv(&connect_request("www.rust-lang.org", 8080));
    pc.consume_network_data();
    let forwarded = pc.move_out_garbage();
    assert!(pc.garbage.is_empty());

    let mut ml = Line::new(9, 0, LineType::MainLand, 0);
    ml.set_status(Status::Established);
    ml.on_recv(&forwarded);
    assert!(ml.can_consume_network_data());
    let acts = ml.consume_network_data();
    assert!(acts.is_empty());
    assert_eq!(ml.website_host, "www.rust-lang.org");
    assert_eq!(ml.website_port, 8080);
    assert_eq!(ml.status, Status::FirstPackDone);
    assert!(ml.net_data.is_empty());
}

#[test]
fn invalid_host_bytes_keep_the_old_host() {
    let mut ml = Line::new(9, 0, LineType::MainLand, 0);
    ml.set_website_host("old".to_string());
    ml.set_status(Status::Established);
    // address type 3, length 1, host byte 0xff, port 80 scrambled to 175
    ml.on_recv(&[3, 1, 0xff, 0, 175]);
    ml.consume_network_data();
    assert_eq!(ml.website_host, "old");
    assert_eq!(ml.website_port, 80);
}

#[test]
fn malformed_requests_are_refused_before_consuming() {
    let mut pc = Line::new(1, 2, LineType::Pc, 0);
    pc.set_status(Status::Established);
    pc.on_recv(&[4]);
    assert!(!pc.can_consume_network_data());

    let mut pc = Line::new(1, 2, LineType::Pc, 0);
    pc.set_status(Status::FirstPackDone);
    pc.on_recv(&[5, 1, 0, 3, 1, 0xff, 0, 80]);
    assert!(!pc.can_consume_network_data());

    let mut hk = Line::new(1, 0, LineType::Hk, 0);
    hk.set_status(Status::Established);
    hk.on_recv(&[1, 2, 3]);
    assert!(!hk.can_consume_network_data());

    let mut ml = Line::new(1, 0, LineType::MainLand, 0);
    ml.set_status(Status::Established);
    ml.on_recv(&[3, 5, 1]);
    assert!(!ml.can_consume_network_data());

    let mut ml = Line::new(1, 0, LineType::MainLand, 0);
    ml.set_status(Status::Close);
    assert!(!ml.can_consume_network_data());

    let world = Line::new(1, 0, LineType::World, 0);
    assert!(world.can_consume_network_data());
}

#[test]
fn hk_greeting_makes_the_line_ready() {
    let mut hk = Line::new(5, 0, LineType::Hk, 0);
    hk.on_writable();
    hk.on_recv(&[0x12, 0x34]);
    hk.consume_network_data();
    assert_eq!(hk.status, Status::FirstPackDone);
    assert!(hk.net_data.is_empty());
    assert!(hk.is_ready(0));
    assert!(!hk.is_working());
    hk.set_pair_id(7);
    assert!(hk.is_working());
    assert!(!hk.is_ready(0));
}

#[test]
fn mainland_greeting_is_the_id_big_endian() {
    let mut ml = Line::new(0x1234, 0, LineType::MainLand, 0);
    assert_eq!(sent(&ml.say_hello_to_mainland()), vec![vec![0x12u8, 0x34]]);
    let mut ml = Line::new(70000, 0, LineType::MainLand, 0);
    assert_eq!(sent(&ml.say_hello_to_mainland()), vec![vec![0x11u8, 0x70]]);
}

#[test]
fn age_decides_oldness() {
    let l = Line::new(5, 0, LineType::Hk, 1000);
    assert!(!l.is_old(61_000));
    assert!(!l.is_old(61_999));
    assert!(l.is_old(62_000));
    assert!(!l.is_old(0));
    let mut l = Line::new(5, 0, LineType::Hk, 0);
    l.set_status(Status::EncryptDone);
    assert!(!l.is_old(1_000_000));
}

#[test]
fn half_closes_make_a_closed_line() {
    let mut pc = Line::new(1, 2, LineType::Pc, 0);
    pc.set_status(Status::EncryptDone);
    let acts = pc.on_read_closed();
    assert_eq!(pc.status, Status::ReadClose);
    assert!(matches!(acts.as_slice(), [Action::ShutdownWrite]));
    pc.on_write_closed();
    assert_eq!(pc.status, Status::Close);
    assert!(pc.is_close());

    let mut hk = Line::new(1, 2, LineType::Hk, 0);
    hk.set_status(Status::EncryptDone);
    hk.on_write_closed();
    assert_eq!(hk.status, Status::WriteClose);
    let acts = hk.on_read_closed();
    assert!(acts.is_empty());
    assert_eq!(hk.status, Status::Close);

    let acts = hk.on_read_closed();
    assert!(acts.is_empty());
    hk.on_write_closed();
    assert_eq!(hk.status, Status::Close);
}

#[test]
fn flush_and_short_write_keep_the_rest() {
    let mut l = Line::new(1, 2, LineType::World, 0);
    let acts = l.on_data_from_mem(vec![1, 2, 3]);
    assert!(acts.is_empty());
    assert_eq!(l.mem_data, vec![1u8, 2, 3]);

    let acts = l.on_writable();
    assert_eq!(l.status, Status::Established);
    let data = match acts.as_slice() {
        [Action::Flush(d)] => d.clone(),
        _ => panic!("expected one flush"),
    };
    assert_eq!(data, vec![1u8, 2, 3]);
    assert!(l.mem_data.is_empty());
    l.finish_flush(data, 1);
    assert_eq!(l.mem_data, vec![2u8, 3]);

    let acts = l.on_data_from_mem(vec![4]);
    match acts.as_slice() {
        [Action::Flush(d)] => assert_eq!(d, &vec![2u8, 3, 4]),
        _ => panic!("expected one flush"),
    }
    let acts = l.flush_mem_data_to_network();
    assert!(acts.is_empty());
}

#[test]
fn closed_lines_keep_data_from_the_pair() {
    let mut l = Line::new(1, 2, LineType::World, 0);
    l.set_status(Status::Close);
    let acts = l.on_data_from_mem(vec![9]);
    assert!(acts.is_empty());
    assert_eq!(l.move_out_mem_data(), vec![9u8]);
    assert!(l.mem_data.is_empty());
}

#[test]
fn pair_close_shuts_only_remote_gate_connections() {
    let mut ml = Line::new(1, 2, LineType::MainLand, 0);
    assert!(matches!(ml.on_pair_close(2).as_slice(), [Action::ShutdownBoth]));
    let mut pc = Line::new(1, 2, LineType::Pc, 0);
    assert!(pc.on_pair_close(2).is_empty());
}

#[test]
fn dns_answer_lets_buffered_bytes_through() {
    let mut ml = Line::new(9, 0, LineType::MainLand, 0);
    ml.set_status(Status::FirstPackDone);
    ml.waiting_for_dns_result();
    assert_eq!(ml.status, Status::WaitingDnsResult);
    ml.on_recv(&[100, 200]);
    ml.consume_network_data();
    assert_eq!(ml.net_data.len(), 2);
    ml.dns_query_fail();
    assert_eq!(ml.status, Status::WaitingDnsResult);
    ml.dns_query_success(44);
    assert_eq!(ml.pair_id, 44);
    assert_eq!(ml.status, Status::EncryptDone);
    assert_eq!(ml.garbage, vec![155u8, 55]);

    let mut other = Line::new(10, 0, LineType::MainLand, 0);
    other.dns_query_success(45);
    assert_eq!(other.status, Status::SecondPackDone);
    other.on_recv(&[100]);
    other.consume_network_data();
    assert_eq!(other.status, Status::EncryptDone);
    assert_eq!(other.garbage, vec![155u8]);
}
