//! Exchange tests: one request/response each, driven over an in-memory
//! stream by the library's loop decisions and the real HTTP codec.
use bytecodec::bytes::{BytesEncoder, RemainingBytesDecoder};
use bytecodec::io::{BufferedIo, IoDecodeExt, IoEncodeExt};
use bytecodec::{Decode, Encode};
use httpcodec::{
    BodyDecoder, BodyEncoder, HeaderField, HttpVersion, Method, Request, RequestEncoder,
    RequestTarget, Response, ResponseDecoder,
};
use std::io::{Read, Write};

use fibers_http_client::connection::ConnectionState;
use fibers_http_client::connection::Oneshot;
use fibers_http_client::request::classify_disposition;
use fibers_http_client::request::exchange_step;
use fibers_http_client::request::ExchangeStep;
use fibers_http_client::request::PreparedRequest;
use fibers_http_client::Client;
use url::Url;

/// An in-memory peer: canned input on the read side, a sink that
/// records everything written on the write side.
struct Duplex {
    input: Vec<u8>,
    pos: usize,
    output: Vec<u8>,
}

impl Duplex {
    fn new(input: &[u8]) -> Self {
        Duplex {
            input: input.to_vec(),
            pos: 0,
            output: Vec::new(),
        }
    }
}

impl Read for Duplex {
    fn read(&mut self, buf: &mut [u8]) -> std::io::Result<usize> {
        let rest = &self.input[self.pos..];
        let n = rest.len().min(buf.len());
        buf[..n].copy_from_slice(&rest[..n]);
        self.pos += n;
        Ok(n)
    }
}

impl Write for Duplex {
    fn write(&mut self, buf: &[u8]) -> std::io::Result<usize> {
        self.output.extend_from_slice(buf);
        Ok(buf.len())
    }

    fn flush(&mut self) -> std::io::Result<()> {
        Ok(())
    }
}

/// Drives one exchange to completion the way the execute engine does:
/// socket I/O, encoder, decoder, then the library's step decision.
/// Returns the response, the connection disposition the library
/// assigns, and the raw bytes the peer received.
fn run_exchange(
    prepared: &PreparedRequest,
    server_bytes: &[u8],
) -> (Response<Vec<u8>>, ConnectionState, Vec<u8>) {
    let method = Method::new(prepared.method.name()).unwrap();
    let target = RequestTarget::new(std::str::from_utf8(&prepared.target).unwrap()).unwrap();
    let mut request = Request::new(method, target, HttpVersion::V1_1, prepared.body.clone());
    for (name, value) in &prepared.headers {
        let field = HeaderField::new(
            std::str::from_utf8(name).unwrap(),
            std::str::from_utf8(value).unwrap(),
        )
        .unwrap();
        request.header_mut().add_field(field);
    }
    let mut encoder = RequestEncoder::new(BodyEncoder::new(BytesEncoder::new()));
    encoder.start_encoding(request).unwrap();
    let mut decoder = ResponseDecoder::new(BodyDecoder::new(RemainingBytesDecoder::new()));
    let mut stream = BufferedIo::new(Duplex::new(server_bytes), 4096, 4096);

    loop {
        stream.execute_io().unwrap();
        encoder.encode_to_write_buf(stream.write_buf_mut()).unwrap();
        decoder.decode_from_read_buf(stream.read_buf_mut()).unwrap();
        match exchange_step(decoder.is_idle(), stream.is_eos(), stream.would_block()) {
            ExchangeStep::Finished => {
                let encoder_idle = encoder.is_idle();
                let response = decoder.finish_decoding().unwrap();
                let version = match response.http_version() {
                    HttpVersion::V1_0 => fibers_http_client::request::HttpVersion::V1_0,
                    HttpVersion::V1_1 => fibers_http_client::request::HttpVersion::V1_1,
                };
                let header_value: Option<Vec<u8>> = response
                    .header()
                    .get_field("Connection")
                    .map(|v| v.as_bytes().to_vec());
                let state = classify_disposition(encoder_idle, version, header_value.as_ref());
                // flush what the engine would still write on later wake-ups
                while !stream.write_buf_ref().is_empty() {
                    stream.execute_io().unwrap();
                }
                let received = stream.stream_ref().output.clone();
                return (response, state, received);
            }
            ExchangeStep::FailEos => panic!("unexpected end of stream"),
            ExchangeStep::NotReady | ExchangeStep::Continue => {}
        }
    }
}

#[test]
fn get_with_body_resolves_to_200_hello() {
    let url = Url::parse("http://127.0.0.1:8080/hello").unwrap();
    let mut client = Client::new(Oneshot);
    let prepared = client.request(&url).get().unwrap();

    let server = b"HTTP/1.1 200 OK\r\nContent-Length: 5\r\n\r\nhello";
    let (response, state, received) = run_exchange(&prepared, server);

    assert_eq!(response.status_code().as_u16(), 200);
    assert_eq!(response.body(), b"hello");
    assert_eq!(state, ConnectionState::Recyclable);
    let sent = String::from_utf8_lossy(&received).into_owned();
    assert!(sent.starts_with("GET /hello HTTP/1.1\r\n"));
    assert!(sent.contains("Host: 127.0.0.1:8080\r\n"));
}

#[test]
fn delete_resolves_to_405() {
    let url = Url::parse("http://127.0.0.1:8080/hello").unwrap();
    let mut client = Client::new(Oneshot);
    let prepared = client.request(&url).delete().unwrap();

    let server = b"HTTP/1.1 405 Method Not Allowed\r\nContent-Length: 0\r\n\r\n";
    let (response, _state, received) = run_exchange(&prepared, server);

    assert_eq!(response.status_code().as_u16(), 405);
    let sent = String::from_utf8_lossy(&received).into_owned();
    assert!(sent.starts_with("DELETE /hello HTTP/1.1\r\n"));
}

#[test]
fn put_resolves_to_404() {
    let url = Url::parse("http://127.0.0.1:8080/world").unwrap();
    let mut client = Client::new(Oneshot);
    let prepared = client.request(&url).put(vec![1, 2, 3]).unwrap();

    let server = b"HTTP/1.1 404 Not Found\r\nContent-Length: 0\r\n\r\n";
    let (response, _state, received) = run_exchange(&prepared, server);

    assert_eq!(response.status_code().as_u16(), 404);
    let sent = String::from_utf8_lossy(&received).into_owned();
    assert!(sent.starts_with("PUT /world HTTP/1.1\r\n"));
    assert!(received.ends_with(&[1, 2, 3]));
}

#[test]
fn connection_close_header_leaves_the_connection_closed() {
    let url = Url::parse("http://127.0.0.1:8080/hello").unwrap();
    let mut client = Client::new(Oneshot);
    let prepared = client.request(&url).get().unwrap();

    let server = b"HTTP/1.1 200 OK\r\nConnection: close\r\nContent-Length: 2\r\n\r\nok";
    let (response, state, _received) = run_exchange(&prepared, server);

    assert_eq!(response.status_code().as_u16(), 200);
    assert_eq!(state, ConnectionState::Closed);
}
