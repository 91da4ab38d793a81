use gdb_flash::client::GdbClient;
use gdb_flash::codec::checksum;
use gdb_flash::error::GdbError;
use gdb_flash::transport::{GdbTransport, MockTransport, TransportError};

#[test]
fn test_send_cmd_ok() {
    let responses = vec![vec![b'+'], MockTransport::rsp_packet(b"OK")];

    let transport = MockTransport::new(responses, true);
    let mut client = GdbClient::new(transport);

    let resp = client.send_cmd("qSupported", &[]).unwrap();
    assert_eq!(resp, b"OK");

    let sent = &client.transport().sent_packets[0];

    assert_eq!(sent[0], b'$');
    assert!(sent.len() >= 4);
    assert_eq!(sent[sent.len() - 3], b'#');
    let body = &sent[1..sent.len() - 3];
    let csum = &sent[sent.len() - 2..];

    assert_eq!(
        format!("{:02x}", checksum(body)),
        String::from_utf8_lossy(csum)
    );
}

#[test]
fn test_client_connect_disconnect() {
    let transport = MockTransport::new(Vec::new(), false);
    let mut client = GdbClient::new(transport);

    assert!(!client.is_connected());

    client.connect().unwrap();
    assert!(client.is_connected());

    client.disconnect().unwrap();
    assert!(!client.is_connected());
}

/// A stream that refuses everything.
struct DeadTransport {
    connects: usize,
}

impl GdbTransport for DeadTransport {
    fn connect(&mut self) -> Result<(), TransportError> {
        self.connects += 1;
        Err(TransportError::ConnectionFailed)
    }

    fn close(&mut self) -> Result<(), TransportError> {
        Ok(())
    }

    fn send(&mut self, _data: &[u8]) -> Result<(), TransportError> {
        Err(TransportError::NotConnected)
    }

    fn recv_exact(&mut self, _n: usize) -> Result<Vec<u8>, TransportError> {
        Err(TransportError::NotConnected)
    }
}

#[test]
fn connect_failure_is_reported() {
    let mut client = GdbClient::new(DeadTransport { connects: 0 });
    assert!(matches!(client.connect(), Err(GdbError::ConnectionFailed)));
    assert!(!client.is_connected());
    assert_eq!(client.transport().connects, 1);
    assert!(matches!(
        client.send_cmd("qSupported", &[]),
        Err(GdbError::NotConnected)
    ));
}

#[test]
fn test_flash_erase_ok() {
    let responses = vec![vec![b'+'], MockTransport::rsp_packet(b"OK")];

    let transport = MockTransport::new(responses, true);
    let mut client = GdbClient::new(transport);

    client.flash_erase(0x0800_0000, 0x1000).unwrap();

    let sent = &client.transport().sent_packets[0];
    let sent_str = String::from_utf8_lossy(sent);

    assert!(sent_str.contains("vFlashErase:8000000,1000"));
}

#[test]
fn test_flash_write_escape() {
    let responses = vec![vec![b'+'], MockTransport::rsp_packet(b"OK")];

    let transport = MockTransport::new(responses, true);
    let mut client = GdbClient::new(transport);

    let data = [b'$', b'#', b'*', b'}'];

    client.flash_write(0x0800_0000, &data, 16).unwrap();

    let sent = &client.transport().sent_packets[0];
    let body = &sent[1..sent.len() - 3];

    assert!(body.windows(2).any(|w| w == [b'}', b'$' ^ 0x20]));
    assert!(body.windows(2).any(|w| w == [b'}', b'#' ^ 0x20]));
    assert!(body.windows(2).any(|w| w == [b'}', b'*' ^ 0x20]));
    assert!(body.windows(2).any(|w| w == [b'}', b'}' ^ 0x20]));
}

#[test]
fn test_flash_done() {
    let responses = vec![vec![b'+'], MockTransport::rsp_packet(b"OK")];

    let transport = MockTransport::new(responses, true);
    let mut client = GdbClient::new(transport);

    client.flash_done().unwrap();

    let sent = &client.transport().sent_packets[0];
    let sent_str = String::from_utf8_lossy(sent);

    assert!(sent_str.starts_with("$vFlashDone#"));
}

#[test]
fn test_read_memory() {
    let responses = vec![vec![b'+'], MockTransport::rsp_packet(b"00112233aabbccdd")];

    let transport = MockTransport::new(responses, true);
    let mut client = GdbClient::new(transport);

    let resp = client.read_memory(0x2000_0000, 8).unwrap();
    assert_eq!(resp, "00112233aabbccdd");

    let sent = &client.transport().sent_packets[0];
    let sent_str = String::from_utf8_lossy(sent);

    assert!(sent_str.contains("m20000000,8"));
}

#[test]
fn test_nack_error() {
    let responses = vec![vec![b'-']];

    let transport = MockTransport::new(responses, true);
    let mut client = GdbClient::new(transport);

    let err = client.send_cmd("qSupported", &[]).unwrap_err();
    assert!(err.to_string().contains("NACK"));
}
