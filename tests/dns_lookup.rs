use preload_supervisor::dns::{select_address, AddrType, DnsClient, IpAddress, LookupError};

fn question() -> Vec<u8> {
    let mut q = vec![7];
    q.extend_from_slice(b"example");
    q.push(3);
    q.extend_from_slice(b"com");
    q.extend_from_slice(&[0, 0, 1, 0, 1]);
    q
}

fn response(answers: &[&[u8]]) -> Vec<u8> {
    let mut r = vec![0xFE, 0xE7, 0x81, 0x80, 0, 1, 0, answers.len() as u8, 0, 0, 0, 0];
    r.extend(question());
    for data in answers {
        let ty: u8 = if data.len() == 16 { 28 } else { 1 };
        r.extend_from_slice(&[0xC0, 0x0C, 0, ty, 0, 1, 0, 0, 0x0E, 0x10, 0, data.len() as u8]);
        r.extend_from_slice(data);
    }
    r
}

#[test]
fn query_encodes_one_a_question() {
    let client = DnsClient::public_resolver();
    assert_eq!(client.server, [8, 8, 8, 8]);
    assert_eq!(client.port, 53);
    let q = client.query("example.com").unwrap();
    let mut expected = vec![0xFE, 0xE7, 0x01, 0x00, 0, 1, 0, 0, 0, 0, 0, 0];
    expected.extend(question());
    assert_eq!(q, expected);
}

#[test]
fn single_a_record_yields_its_address() {
    let client = DnsClient::new_ipv4([127, 0, 0, 53], 5353);
    let r = client.read_response(&response(&[&[93, 184, 216, 34]]), AddrType::IPv4);
    assert_eq!(r.unwrap(), IpAddress::V4([93, 184, 216, 34]));
}

#[test]
fn either_family_takes_first_fitting_answer() {
    let client = DnsClient::public_resolver();
    let v6 = [0x20, 0x01, 0x0d, 0xb8, 0, 0, 0, 0, 0, 0, 0, 0, 0, 0, 0, 1];
    let r = client.read_response(&response(&[&[1, 2, 3], &v6, &[10, 0, 0, 1]]), AddrType::Either);
    assert_eq!(r.unwrap(), IpAddress::V6(v6));
    let r = client.read_response(&response(&[&v6, &[10, 0, 0, 1]]), AddrType::IPv4);
    assert_eq!(r.unwrap(), IpAddress::V4([10, 0, 0, 1]));
}

#[test]
fn no_matching_record_is_not_found() {
    let client = DnsClient::public_resolver();
    let r = client.read_response(&response(&[]), AddrType::IPv4);
    assert!(matches!(r, Err(LookupError::NotFound)));
    let r = client.read_response(&response(&[&[1, 2, 3, 4]]), AddrType::IPv6);
    assert!(matches!(r, Err(LookupError::NotFound)));
}

#[test]
fn truncated_response_is_protocol_error() {
    let client = DnsClient::public_resolver();
    let full = response(&[&[93, 184, 216, 34]]);
    for cut in [0, 5, 11, 20, full.len() - 1] {
        let r = client.read_response(&full[..cut], AddrType::IPv4);
        assert!(matches!(r, Err(LookupError::DnsProtocolError(_))), "cut at {}", cut);
    }
}

#[test]
fn too_many_answers_is_protocol_error() {
    let client = DnsClient::public_resolver();
    let many: Vec<&[u8]> = vec![&[1, 1, 1, 1]; 17];
    let r = client.read_response(&response(&many), AddrType::IPv4);
    assert!(matches!(r, Err(LookupError::DnsProtocolError(_))));
}

#[test]
fn select_address_picks_by_length() {
    let answers = vec![vec![1u8, 2], vec![4u8, 3, 2, 1]];
    assert_eq!(select_address(&answers, AddrType::Either).unwrap(), IpAddress::V4([4, 3, 2, 1]));
    assert!(matches!(select_address(&vec![], AddrType::Either), Err(LookupError::NotFound)));
}
