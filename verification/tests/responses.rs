use wavegen_relay::response::{decode_response, ClientError, RemoteValue, ServerError};

#[test]
fn percent_encoded_success_decodes() {
    // Percent-decoding must really happen: handed back unchanged, this text
    // is no valid reply at all.
    let r = decode_response("%7B%22Ok%22%3Atrue%7D");
    assert_eq!(r, Ok(RemoteValue::Boolean(true)));
}

#[test]
fn plain_success_payloads_decode() {
    assert_eq!(decode_response("{\"Ok\":true}"), Ok(RemoteValue::Boolean(true)));
    assert_eq!(decode_response("{\"Ok\":false}"), Ok(RemoteValue::Boolean(false)));
    assert_eq!(decode_response("{\"Ok\":null}"), Ok(RemoteValue::Unit));
    assert_eq!(
        decode_response("{\"Ok\":\"History\"}"),
        Ok(RemoteValue::Text(b"History".to_vec()))
    );
}

#[test]
fn remote_error_is_surfaced_with_its_message() {
    let r = decode_response("{\"Err\":\"window not found\"}");
    assert_eq!(r, Err(ClientError::Remote(ServerError(b"window not found".to_vec()))));
}

#[test]
fn capitalized_booleans_are_canonicalized() {
    assert_eq!(decode_response("{\"Ok\":True}"), Ok(RemoteValue::Boolean(true)));
    assert_eq!(decode_response("{\"Ok\":False}"), Ok(RemoteValue::Boolean(false)));
}

#[test]
fn form_encoded_plus_becomes_a_space() {
    let r = decode_response("{\"Ok\":\"new+workspace\"}");
    assert_eq!(r, Ok(RemoteValue::Text(b"new workspace".to_vec())));
}

#[test]
fn embedded_line_breaks_survive_as_escapes() {
    // A raw carriage-return/newline inside the posted text is turned into a
    // two-character escape before parsing, and read back as one newline byte.
    let raw = "{\"Ok\":\"a\r\nb\"}";
    let r = decode_response(raw);
    assert_eq!(r, Ok(RemoteValue::Text(vec![b'a', b'\n', b'b'])));
}

#[test]
fn surrounding_whitespace_is_ignored() {
    assert_eq!(decode_response("  {\"Ok\":true} \t "), Ok(RemoteValue::Boolean(true)));
}

#[test]
fn malformed_replies_are_refused() {
    assert_eq!(decode_response(""), Err(ClientError::Malformed));
    assert_eq!(decode_response("garbage"), Err(ClientError::Malformed));
    assert_eq!(decode_response("{\"Ok\":}"), Err(ClientError::Malformed));
    assert_eq!(decode_response("{\"Ok\":true"), Err(ClientError::Malformed));
    // An error payload must be a message string.
    assert_eq!(decode_response("{\"Err\":true}"), Err(ClientError::Malformed));
    // A dangling escape inside a string is refused.
    assert_eq!(decode_response("{\"Ok\":\"a\\\"}"), Err(ClientError::Malformed));
}

#[test]
fn payload_accessors_pick_their_kind() {
    assert_eq!(RemoteValue::Boolean(true).as_boolean(), Some(true));
    assert_eq!(RemoteValue::Unit.as_boolean(), None);
    assert!(RemoteValue::Unit.is_unit());
    assert!(!RemoteValue::Boolean(false).is_unit());
    assert_eq!(RemoteValue::Text(b"x".to_vec()).into_text(), Some(b"x".to_vec()));
    assert_eq!(RemoteValue::Boolean(true).into_text(), None);
}
