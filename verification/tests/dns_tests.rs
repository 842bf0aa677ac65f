use ss_proxy::ss::dns_manager::{decode_reply, format_ipv4, get_ip, DnsManager, DnsReply};

fn reply(id: u16, rcode: u8, addr: [u8; 4]) -> Vec<u8> {
    let mut r = vec![(id >> 8) as u8, id as u8, 0x81, 0x80 | rcode, 0, 0, 0, 1, 0, 0, 0, 0];
    r.extend_from_slice(&[0, 0, 1, 0, 1, 0, 0, 0, 60, 0, 4]);
    r.extend_from_slice(&addr);
    r
}

#[test]
fn dotted_quad_formatting() {
    assert_eq!(format_ipv4(0x7f000001), "127.0.0.1");
    assert_eq!(format_ipv4(0), "0.0.0.0");
    assert_eq!(format_ipv4(0xffffffff), "255.255.255.255");
    assert_eq!(format_ipv4(0x0a140a01), "10.20.10.1");
}

#[test]
fn first_a_answer_wins() {
    assert_eq!(get_ip(&vec![None, Some(0x01020304), Some(0x05060708)]), Some("1.2.3.4".to_string()));
    assert_eq!(get_ip(&vec![None, None]), None);
    assert_eq!(get_ip(&vec![]), None);
}

#[test]
fn decoding_parsed_replies() {
    let ok = Some(DnsReply { id: 7, rcode: 0, answers: vec![Some(0x08080808)] });
    assert_eq!(decode_reply(&ok), (7, Some("8.8.8.8".to_string())));
    let refused = Some(DnsReply { id: 7, rcode: 5, answers: vec![Some(0x08080808)] });
    assert_eq!(decode_reply(&refused), (7, None));
    let empty = Some(DnsReply { id: 9, rcode: 0, answers: vec![] });
    assert_eq!(decode_reply(&empty), (9, None));
    assert_eq!(decode_reply(&None), (0, None));
}

#[test]
fn query_packet_carries_the_line_id() {
    let dm = DnsManager::new();
    let p = dm.new_dns_query(0x1234, "example.com".to_string()).expect("query builds");
    assert!(p.len() >= 12);
    assert_eq!(&p[0..2], &[0x12u8, 0x34]);
    // one question
    assert_eq!(&p[4..6], &[0u8, 1]);
    // recursion desired
    assert_eq!(p[2] & 0x01, 0x01);
}

#[test]
fn query_for_an_invalid_name_is_refused() {
    let dm = DnsManager::new();
    let long_label = "a".repeat(64);
    assert!(dm.new_dns_query(1, long_label).is_none());
}

#[test]
fn replies_become_results_in_order() {
    let mut dm = DnsManager::new();
    assert_eq!(dm.peek(), 0);
    dm.on_recv(&reply(0x0102, 0, [93, 184, 216, 34]));
    dm.on_recv(&reply(0x0203, 3, [1, 1, 1, 1]));
    dm.on_recv(&[1, 2, 3]);
    assert_eq!(dm.peek(), 3);
    let results = dm.move_out_dns_result();
    assert_eq!(
        results,
        vec![(0x0102usize, Some("93.184.216.34".to_string())), (0x0203, None), (0, None)]
    );
    assert_eq!(dm.peek(), 0);
    dm.on_recv(&reply(5, 0, [1, 2, 3, 4]));
    dm.clear_dns_result();
    assert_eq!(dm.peek(), 0);
}
