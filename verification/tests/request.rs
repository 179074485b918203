//! Tests of request building, URL handling, the exchange decisions and
//! the error taxonomy.
use fibers_http_client::connection::ConnectionState;
use fibers_http_client::connection::Oneshot;
use fibers_http_client::connection::ReleaseCommand;
use fibers_http_client::connection::release_command;
use fibers_http_client::error::Error;
use fibers_http_client::pool_actor::DiscardReason;
use fibers_http_client::request::classify_disposition;
use fibers_http_client::request::exchange_step;
use fibers_http_client::request::ExchangeStep;
use fibers_http_client::request::HttpVersion;
use fibers_http_client::request::Method;
use fibers_http_client::request::RequestBuilder;
use fibers_http_client::request::UrlParts;
use fibers_http_client::Client;
use fibers_http_client::ErrorKind;
use bytecodec::EncodeExt;
use trackable::error::ErrorKindExt;
use url::Url;

#[test]
fn non_http_scheme_is_rejected() {
    let url = Url::parse("https://x/").unwrap();
    let mut client = Client::new(Oneshot);
    let result = client.request(&url).get();
    assert_eq!(result.unwrap_err().kind(), ErrorKind::InvalidInput);
}

#[test]
fn get_on_http_url_prepares_the_request() {
    let url = Url::parse("http://example.com/hello?x=1").unwrap();
    let mut client = Client::new(Oneshot);
    let prepared = client.request(&url).get().unwrap();
    assert_eq!(prepared.method, Method::Get);
    assert_eq!(prepared.target, b"/hello?x=1".to_vec());
    assert_eq!(prepared.host_port, b"example.com".to_vec());
    assert_eq!(prepared.body, Vec::<u8>::new());
    assert_eq!(prepared.timeout, None);
}

#[test]
fn missing_host_header_is_appended_from_the_url() {
    let url = Url::parse("http://example.com:8080/hello").unwrap();
    let mut client = Client::new(Oneshot);
    let prepared = client
        .request(&url)
        .header_field(b"Accept".to_vec(), b"*/*".to_vec())
        .get()
        .unwrap();
    assert_eq!(prepared.headers.len(), 2);
    assert_eq!(prepared.headers[0], (b"Accept".to_vec(), b"*/*".to_vec()));
    assert_eq!(
        prepared.headers[1],
        (b"Host".to_vec(), b"example.com:8080".to_vec())
    );
}

#[test]
fn supplied_host_header_is_kept_case_insensitively() {
    let url = Url::parse("http://example.com/").unwrap();
    let mut client = Client::new(Oneshot);
    let prepared = client
        .request(&url)
        .header_field(b"hOsT".to_vec(), b"other:99".to_vec())
        .get()
        .unwrap();
    assert_eq!(prepared.headers.len(), 1);
    assert_eq!(prepared.headers[0], (b"hOsT".to_vec(), b"other:99".to_vec()));
}

#[test]
fn put_carries_the_body_and_the_timeout() {
    let parts = UrlParts::new(
        b"http".to_vec(),
        b"127.0.0.1:80".to_vec(),
        b"/world".to_vec(),
    );
    let prepared = RequestBuilder::new(parts)
        .timeout(30)
        .put(vec![1, 2, 3])
        .unwrap();
    assert_eq!(prepared.method, Method::Put);
    assert_eq!(prepared.body, vec![1, 2, 3]);
    assert_eq!(prepared.timeout, Some(30));
    assert_eq!(prepared.target, b"/world".to_vec());
}

#[test]
fn every_method_prepares_with_its_name() {
    let methods = [
        (Method::Get, "GET"),
        (Method::Head, "HEAD"),
        (Method::Delete, "DELETE"),
        (Method::Put, "PUT"),
        (Method::Post, "POST"),
    ];
    for (method, name) in methods {
        assert_eq!(method.name(), name);
    }
    let parts = UrlParts::new(b"http".to_vec(), b"h".to_vec(), b"/".to_vec());
    let prepared = RequestBuilder::new(parts).post(b"x".to_vec()).unwrap();
    assert_eq!(prepared.method, Method::Post);
    assert_eq!(prepared.body, b"x".to_vec());
}

#[test]
fn disposition_follows_version_and_connection_header() {
    let close = b"close".to_vec();
    let keep = b"keep-alive".to_vec();

    // HTTP/1.1: closed exactly when the header says close
    assert_eq!(
        classify_disposition(true, HttpVersion::V1_1, None),
        ConnectionState::Recyclable
    );
    assert_eq!(
        classify_disposition(true, HttpVersion::V1_1, Some(&close)),
        ConnectionState::Closed
    );
    assert_eq!(
        classify_disposition(true, HttpVersion::V1_1, Some(&keep)),
        ConnectionState::Recyclable
    );

    // HTTP/1.0: recyclable exactly when the header says keep-alive
    assert_eq!(
        classify_disposition(true, HttpVersion::V1_0, None),
        ConnectionState::Closed
    );
    assert_eq!(
        classify_disposition(true, HttpVersion::V1_0, Some(&keep)),
        ConnectionState::Recyclable
    );
    assert_eq!(
        classify_disposition(true, HttpVersion::V1_0, Some(&close)),
        ConnectionState::Closed
    );

    // a response that arrived before the request drained always closes
    assert_eq!(
        classify_disposition(false, HttpVersion::V1_1, Some(&keep)),
        ConnectionState::Closed
    );
}

#[test]
fn exchange_step_follows_the_loop_order() {
    assert_eq!(exchange_step(true, false, false), ExchangeStep::Finished);
    assert_eq!(exchange_step(true, true, true), ExchangeStep::Finished);
    assert_eq!(exchange_step(false, true, false), ExchangeStep::FailEos);
    assert_eq!(exchange_step(false, false, true), ExchangeStep::NotReady);
    assert_eq!(exchange_step(false, false, false), ExchangeStep::Continue);
}

#[test]
fn release_command_matches_the_disposition() {
    assert_eq!(
        release_command(ConnectionState::Recyclable),
        ReleaseCommand::Reuse
    );
    assert_eq!(
        release_command(ConnectionState::Closed),
        ReleaseCommand::Discard(DiscardReason::Closed)
    );
    assert_eq!(
        release_command(ConnectionState::InUse),
        ReleaseCommand::Discard(DiscardReason::RequestFailed)
    );
}

#[test]
fn outgoing_request_bytes_include_the_generated_host_field() {
    let url = Url::parse("http://example.com:8080/hello").unwrap();
    let mut client = Client::new(Oneshot);
    let prepared = client.request(&url).get().unwrap();

    // hand the prepared request to the wire codec, as the runtime does
    let method = httpcodec::Method::new(prepared.method.name()).unwrap();
    let target =
        httpcodec::RequestTarget::new(std::str::from_utf8(&prepared.target).unwrap()).unwrap();
    let mut request = httpcodec::Request::new(
        method,
        target,
        httpcodec::HttpVersion::V1_1,
        prepared.body.clone(),
    );
    for (name, value) in &prepared.headers {
        let field = httpcodec::HeaderField::new(
            std::str::from_utf8(name).unwrap(),
            std::str::from_utf8(value).unwrap(),
        )
        .unwrap();
        request.header_mut().add_field(field);
    }
    let mut encoder = httpcodec::RequestEncoder::new(httpcodec::BodyEncoder::new(
        bytecodec::bytes::BytesEncoder::new(),
    ));
    let bytes = encoder.encode_into_bytes(request).unwrap();
    let text = String::from_utf8_lossy(&bytes).into_owned();
    assert!(text.starts_with("GET /hello HTTP/1.1\r\n"));
    assert!(text.contains("Host: example.com:8080\r\n"));
}

#[test]
fn codec_errors_map_onto_the_error_taxonomy() {
    let e: bytecodec::Error = bytecodec::ErrorKind::InvalidInput.cause("bad input").into();
    assert_eq!(Error::from_codec(&e).kind(), ErrorKind::InvalidInput);

    let e: bytecodec::Error = bytecodec::ErrorKind::UnexpectedEos.cause("eos").into();
    assert_eq!(Error::from_codec(&e).kind(), ErrorKind::UnexpectedEos);

    let e: bytecodec::Error = bytecodec::ErrorKind::EncoderFull.cause("full").into();
    assert_eq!(Error::from_codec(&e).kind(), ErrorKind::Other);

    let e: bytecodec::Error = bytecodec::ErrorKind::Other.cause("other").into();
    assert_eq!(Error::from_codec(&e).kind(), ErrorKind::Other);
}
