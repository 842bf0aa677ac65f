use ss_proxy::ss::gate::Gate;
use ss_proxy::ss::line::Action;
use ss_proxy::ss::{LineType, Status};

fn make_ready(gate: &mut Gate, id: usize) {
    let mut l = gate.take_line(id);
    l.on_writable();
    l.on_recv(&[0, 1]);
    l.consume_network_data();
    gate.put_line(l);
}

fn reply(id: u16, addr: [u8; 4]) -> Vec<u8> {
    let mut r = vec![(id >> 8) as u8, id as u8, 0x81, 0x80, 0, 0, 0, 1, 0, 0, 0, 0];
    r.extend_from_slice(&[0, 0, 1, 0, 1, 0, 0, 0, 60, 0, 4]);
    r.extend_from_slice(&addr);
    r
}

#[test]
fn local_gate_opens_its_chicks_at_start() {
    let mut gate = Gate::new(2);
    let ids = gate.init(0);
    assert_eq!(ids, vec![1usize, 2]);
    assert_eq!(gate.next_id, 2);
    assert!(gate.dm.is_none());
    for id in ids {
        let l = gate.lines.get(&id).unwrap();
        assert_eq!(l.line_type, LineType::Hk);
        assert_eq!(l.status, Status::Raw);
        assert_eq!(l.pair_id, 0);
    }
}

#[test]
fn client_is_paired_with_an_idle_chick() {
    let mut gate = Gate::new(1);
    gate.init(0);
    let (john, acts) = gate.on_john_connect(1234, 0);
    assert_eq!(john, None);
    assert!(acts.is_empty());
    assert_eq!(gate.find_idle_hk_chick(0), 0);

    make_ready(&mut gate, 1);
    assert_eq!(gate.find_idle_hk_chick(0), 1);
    let (john, acts) = gate.on_john_connect(1234, 0);
    assert_eq!(john, Some(2));
    assert!(acts.is_empty());
    let pc = gate.lines.get(&2).unwrap();
    assert_eq!(pc.line_type, LineType::Pc);
    assert_eq!(pc.pair_id, 1);
    assert_eq!(gate.lines.get(&1).unwrap().pair_id, 2);
    assert_eq!(gate.find_idle_hk_chick(0), 0);
}

#[test]
fn closed_lines_let_go_of_their_pairs() {
    let mut gate = Gate::new(0);
    gate.new_line(10, 11, LineType::World, 0);
    gate.new_line(11, 10, LineType::MainLand, 0);
    gate.new_line(12, 0, LineType::World, 0);
    let mut w = gate.take_line(10);
    w.set_status(Status::Close);
    gate.put_line(w);
    let acts = gate.decouple();
    assert_eq!(gate.lines.get(&10).unwrap().pair_id, 0);
    assert_eq!(gate.lines.get(&11).unwrap().pair_id, 10);
    assert_eq!(acts.len(), 1);
    assert!(matches!(acts[0], (11, Action::ShutdownBoth)));
    assert!(gate.decouple().is_empty());
}

#[test]
fn delivery_moves_bytes_to_the_pair() {
    let mut gate = Gate::new(0);
    gate.new_line(10, 11, LineType::World, 0);
    gate.new_line(11, 10, LineType::MainLand, 0);
    let mut ml = gate.take_line(11);
    ml.set_status(Status::EncryptDone);
    gate.put_line(ml);
    let mut w = gate.take_line(10);
    w.on_recv(&[1, 2, 3]);
    w.consume_network_data();
    gate.put_line(w);
    let acts = gate.deliver();
    assert!(gate.lines.get(&10).unwrap().garbage.is_empty());
    assert_eq!(acts.len(), 1);
    match &acts[0] {
        (11, Action::Flush(d)) => assert_eq!(d, &vec![1u8, 2, 3]),
        _ => panic!("expected a flush to the pair"),
    }
    assert!(gate.deliver().is_empty());
}

#[test]
fn delivery_to_a_raw_pair_waits() {
    let mut gate = Gate::new(0);
    gate.new_line(10, 11, LineType::World, 0);
    gate.new_line(11, 10, LineType::MainLand, 0);
    let mut w = gate.take_line(10);
    w.on_recv(&[7]);
    w.consume_network_data();
    gate.put_line(w);
    assert!(gate.deliver().is_empty());
    assert_eq!(gate.lines.get(&11).unwrap().mem_data, vec![7u8]);
}

#[test]
fn old_idle_chicks_are_cleared_and_replaced() {
    let mut gate = Gate::new(4);
    gate.init(0);
    make_ready(&mut gate, 1);
    let (john, _) = gate.on_john_connect(0, 0);
    let john = john.unwrap();
    assert_eq!(john, 5);
    let mut pc = gate.take_line(john);
    pc.on_writable();
    gate.put_line(pc);
    // At 100 s, chicks 2..4 never greeted: old and idle, they go; chick 1 works.
    let ids = gate.clear_dead_line(100_000);
    assert!(gate.lines.get(&2).is_none());
    assert!(gate.lines.get(&3).is_none());
    assert!(gate.lines.get(&4).is_none());
    assert!(gate.lines.get(&1).is_some());
    assert!(gate.lines.get(&5).is_some());
    assert_eq!(ids, vec![6usize]);
    assert_eq!(gate.lines.get(&6).unwrap().line_type, LineType::Hk);
}

#[test]
fn no_new_chick_without_working_ones() {
    let mut gate = Gate::new(4);
    gate.init(0);
    let ids = gate.clear_dead_line(0);
    assert!(ids.is_empty());
    assert_eq!(gate.lines.len(), 4);
}

#[test]
fn remote_gate_resolves_and_connects() {
    let mut gate = Gate::new(0);
    let ids = gate.init(0);
    assert!(ids.is_empty());
    assert!(gate.dm.is_some());

    let (id, acts) = gate.on_john_connect(5000, 0);
    assert_eq!(id, Some(5000));
    match acts.as_slice() {
        [Action::Send(v)] => assert_eq!(v, &vec![0x13u8, 0x88]),
        _ => panic!("expected the greeting"),
    }
    let mut ml = gate.take_line(5000);
    ml.on_writable();
    let host = "example.org";
    let mut req = vec![3u8, ss_proxy::ss::u8r(host.len() as u8)];
    req.extend(host.bytes().map(ss_proxy::ss::u8r));
    req.push(ss_proxy::ss::u8r(1));
    req.push(ss_proxy::ss::u8r(187));
    ml.on_recv(&req);
    ml.consume_network_data();
    assert_eq!(ml.website_host, host);
    assert_eq!(ml.website_port, 443);
    gate.put_line(ml);

    let packets = gate.gather_dns_query();
    assert_eq!(packets.len(), 1);
    let p = packets[0].as_ref().unwrap();
    assert_eq!(&p[0..2], &[0x13u8, 0x88]);
    assert_eq!(gate.lines.get(&5000).unwrap().status, Status::WaitingDnsResult);
    assert!(gate.gather_dns_query().is_empty());

    gate.dm.as_mut().unwrap().on_recv(&reply(5000, [93, 184, 216, 34]));
    let targets = gate.check_dns_result();
    assert_eq!(targets, vec![(5000usize, "93.184.216.34:443".to_string())]);
    assert_eq!(gate.dm.as_ref().unwrap().peek(), 0);
    assert!(gate.check_dns_result().is_empty());

    gate.on_world_connected(5000, 40000, targets[0].1.clone(), 0);
    let w = gate.lines.get(&40000).unwrap();
    assert_eq!(w.line_type, LineType::World);
    assert_eq!(w.pair_id, 5000);
    assert_eq!(w.website_host, "93.184.216.34:443");
    let ml = gate.lines.get(&5000).unwrap();
    assert_eq!(ml.pair_id, 40000);
    assert_eq!(ml.status, Status::SecondPackDone);
}

#[test]
fn failed_resolution_opens_nothing() {
    let mut gate = Gate::new(0);
    gate.init(0);
    gate.new_line(7, 0, LineType::MainLand, 0);
    assert_eq!(gate.on_dns_result(7, None), None);
    let mut ml = gate.take_line(7);
    ml.website_port = 80;
    gate.put_line(ml);
    assert_eq!(gate.on_dns_result(7, Some("1.2.3.4".to_string())), Some("1.2.3.4:80".to_string()));
}
