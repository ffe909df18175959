use vstd::prelude::*;

verus! {

#[verifier::external_type_specification]
#[verifier::external_body]
pub struct ExDnsProtocolError(dns_protocol::Error);

/// Transaction id of every query this resolver sends.
pub const QUERY_ID: u16 = 0xFEE7;

/// Record type A (a host address).
pub const RECORD_TYPE_A: u16 = 1;

/// Class IN (the Internet).
pub const CLASS_IN: u16 = 1;

/// Room for the questions of a response: the one that was asked.
pub const QUESTION_CAPACITY: usize = 1;

/// Room for each record section of a response; longer sections are refused.
pub const RECORD_CAPACITY: usize = 16;

/// The bytes of a DNS query message with the given id, standard-query flags
/// and one question, or `None` where the message cannot be encoded.
pub uninterp spec fn query_message(id: u16, name: Seq<char>, ty: u16, class: u16) -> Option<
    Seq<u8>,
>;

/// The payloads of the answer records of a DNS response, read with room for
/// `questions` questions and `records` records in each section, or `None`
/// where the response does not decode.
pub uninterp spec fn answer_payloads(response: Seq<u8>, questions: nat, records: nat) -> Option<
    Seq<Seq<u8>>,
>;

/// Relies on dns_protocol's `ResourceType::try_from`, `Question::new`,
/// `Message::new`, `Message::space_needed` and `Message::write`: the encoded
/// query is a function of id, name, type and class; it fails on an unknown
/// type code or a name that cannot be encoded.
#[verifier::external_body]
fn encode_query(id: u16, name: &str, ty: u16, class: u16) -> (r: Result<
    Vec<u8>,
    dns_protocol::Error,
>)
    ensures
        match r {
            Ok(bytes) => query_message(id, name@, ty, class) == Some(bytes@),
            Err(_) => query_message(id, name@, ty, class) is None,
        },
{
    let ty = dns_protocol::ResourceType::try_from(ty)?;
    let mut questions = [dns_protocol::Question::new(name, ty, class)];
    let flags = dns_protocol::Flags::standard_query();
    let message = dns_protocol::Message::new(id, flags, &mut questions, &mut [], &mut [], &mut []);
    let mut buffer = vec![0u8; message.space_needed()];
    message.write(&mut buffer)?;
    Ok(buffer)
}

/// Relies on dns_protocol's `Message::read` and `Message::answers`: the answer
/// payloads depend on the response bytes and the capacities alone, and a
/// response with more answers than `records` is refused. `Message::new`
/// panics on a section longer than `u16::MAX`, so the capacities stay below.
#[verifier::external_body]
fn decode_answers(response: &[u8], questions: usize, records: usize) -> (r: Result<
    Vec<Vec<u8>>,
    dns_protocol::Error,
>)
    requires
        questions <= u16::MAX as usize,
        records <= u16::MAX as usize,
    ensures
        match r {
            Ok(answers) => {
                &&& answer_payloads(response@, questions as nat, records as nat) == Some(
                    answers@.map_values(|a: Vec<u8>| a@),
                )
                &&& answers@.len() <= records
            },
            Err(_) => answer_payloads(response@, questions as nat, records as nat) is None,
        },
{
    let mut qs = vec![dns_protocol::Question::default(); questions];
    let mut answers = vec![dns_protocol::ResourceRecord::default(); records];
    let mut authority = vec![dns_protocol::ResourceRecord::default(); records];
    let mut additional = vec![dns_protocol::ResourceRecord::default(); records];
    let message = dns_protocol::Message::read(
        response,
        &mut qs,
        &mut answers,
        &mut authority,
        &mut additional,
    )?;
    Ok(message.answers().iter().map(|a| a.data().to_vec()).collect())
}

/// Which address family a lookup asks for.
#[derive(Clone, Copy, Debug, PartialEq, Eq, Structural)]
pub enum AddrType {
    IPv4,
    IPv6,
    Either,
}

/// An IP address as its octets.
#[derive(Clone, Copy, Debug, PartialEq, Eq)]
pub enum IpAddress {
    V4([u8; 4]),
    V6([u8; 16]),
}

impl IpAddress {
    pub open spec fn octets(self) -> Seq<u8> {
        match self {
            IpAddress::V4(a) => a@,
            IpAddress::V6(a) => a@,
        }
    }
}

/// Why a lookup failed.
#[derive(Debug)]
pub enum LookupError {
    /// The query could not be encoded or the response could not be decoded.
    DnsProtocolError(dns_protocol::Error),
    /// The response made no sense for the query.
    UnexpectedResponse(String),
    /// No answer of the requested family.
    NotFound,
    /// A socket call failed with this errno.
    SocketError(i32),
}

/// Whether a payload of `len` bytes is an address of the requested family.
pub open spec fn fits_family(len: nat, addr_type: AddrType) -> bool {
    ||| len == 4 && (addr_type == AddrType::IPv4 || addr_type == AddrType::Either)
    ||| len == 16 && (addr_type == AddrType::IPv6 || addr_type == AddrType::Either)
}

/// The first payload that is an address of the requested family.
pub open spec fn first_address(payloads: Seq<Seq<u8>>, addr_type: AddrType) -> Option<Seq<u8>>
    decreases payloads.len(),
{
    if payloads.len() == 0 {
        None
    } else if fits_family(payloads[0].len(), addr_type) {
        Some(payloads[0])
    } else {
        first_address(payloads.drop_first(), addr_type)
    }
}

/// Picks the first answer payload whose length is that of an address of the
/// requested family: 4 bytes for IPv4, 16 for IPv6.
pub fn select_address(answers: &Vec<Vec<u8>>, addr_type: AddrType) -> (r: Result<
    IpAddress,
    LookupError,
>)
    ensures
        match first_address(answers@.map_values(|a: Vec<u8>| a@), addr_type) {
            Some(p) => r matches Ok(ip) && ip.octets() == p && (ip is V4 <==> p.len() == 4),
            None => r matches Err(LookupError::NotFound),
        },
{
    let ghost all = answers@.map_values(|a: Vec<u8>| a@);
    let mut i: usize = 0;
    assert(all.subrange(0, all.len() as int) =~= all);
    while i < answers.len()
        invariant
            0 <= i <= answers@.len(),
            all == answers@.map_values(|a: Vec<u8>| a@),
            first_address(all, addr_type) == first_address(all.subrange(i as int, all.len() as int), addr_type),
        decreases answers@.len() - i,
    {
        let data = &answers[i];
        assert(all.subrange(i as int, all.len() as int).drop_first() =~= all.subrange(i + 1, all.len() as int));
        if data.len() == 4 && (addr_type == AddrType::IPv4 || addr_type == AddrType::Either) {
            let ip = [data[0], data[1], data[2], data[3]];
            assert(ip@ =~= data@);
            return Ok(IpAddress::V4(ip));
        }
        if data.len() == 16 && (addr_type == AddrType::IPv6 || addr_type == AddrType::Either) {
            let ip = [
                data[0], data[1], data[2], data[3], data[4], data[5], data[6], data[7],
                data[8], data[9], data[10], data[11], data[12], data[13], data[14], data[15],
            ];
            assert(ip@ =~= data@);
            return Ok(IpAddress::V6(ip));
        }
        i += 1;
    }
    assert(all.subrange(i as int, all.len() as int) =~= Seq::<Seq<u8>>::empty());
    Err(LookupError::NotFound)
}

/// A stub resolver that asks one server over UDP.
pub struct DnsClient {
    /// The server's IPv4 address.
    pub server: [u8; 4],
    /// The server's UDP port.
    pub port: u16,
}

/// What a lookup makes of the response bytes: a protocol error where they do
/// not decode, else the first answer of the requested family, else not found.
pub open spec fn lookup_outcome(response: Seq<u8>, addr_type: AddrType, r: Result<
    IpAddress,
    LookupError,
>) -> bool {
    match answer_payloads(response, QUESTION_CAPACITY as nat, RECORD_CAPACITY as nat) {
        None => r matches Err(LookupError::DnsProtocolError(_)),
        Some(payloads) => match first_address(payloads, addr_type) {
            Some(p) => r matches Ok(ip) && ip.octets() == p && (ip is V4 <==> p.len() == 4),
            None => r matches Err(LookupError::NotFound),
        },
    }
}

impl DnsClient {
    pub fn new_ipv4(octets: [u8; 4], port: u16) -> (r: Self)
        ensures
            r.server == octets,
            r.port == port,
    {
        DnsClient { server: octets, port }
    }

    /// The public resolver that lookups ask by default: 8.8.8.8, port 53.
    pub fn public_resolver() -> (r: Self)
        ensures
            r.server == [8u8, 8, 8, 8],
            r.port == 53,
    {
        DnsClient::new_ipv4([8u8, 8, 8, 8], 53)
    }

    /// The message that a lookup of `name` sends: one question for the A
    /// record of `name`, class IN, with the fixed transaction id.
    pub fn query(&self, name: &str) -> (r: Result<Vec<u8>, LookupError>)
        ensures
            match query_message(QUERY_ID, name@, RECORD_TYPE_A, CLASS_IN) {
                Some(bytes) => r matches Ok(q) && q@ == bytes,
                None => r matches Err(LookupError::DnsProtocolError(_)),
            },
    {
        match encode_query(QUERY_ID, name, RECORD_TYPE_A, CLASS_IN) {
            Ok(bytes) => Ok(bytes),
            Err(e) => Err(LookupError::DnsProtocolError(e)),
        }
    }

    /// Reads the server's response into the address that the lookup returns.
    pub fn read_response(&self, response: &[u8], addr_type: AddrType) -> (r: Result<
        IpAddress,
        LookupError,
    >)
        ensures
            lookup_outcome(response@, addr_type, r),
    {
        match decode_answers(response, QUESTION_CAPACITY, RECORD_CAPACITY) {
            Ok(answers) => select_address(&answers, addr_type),
            Err(e) => Err(LookupError::DnsProtocolError(e)),
        }
    }
}

} // verus!
