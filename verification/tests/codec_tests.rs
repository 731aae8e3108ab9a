use circle_api::codec::{
    build_wallet_create_request_body, build_wallet_set_request_body, parse_transaction_response,
    parse_wallet_balance_response, parse_wallet_create_request, parse_wallet_create_response,
    parse_wallet_set_request, parse_wallet_set_response,
};
use circle_api::error::CircleError;
use circle_api::ids::UuidValue;
use circle_api::models::WalletSetRequest;

const WALLET_SET_JSON: &str = "{\"data\":{\"walletSet\":{\"id\":\"0068d5a4-eb64-4399-8441-a9af33af80a0\",\"custodyType\":\"DEVELOPER\",\"name\":\"test_wallet_set\",\"updateDate\":\"2023-11-25T14:26:38Z\",\"createDate\":\"2023-11-25T14:26:38Z\"}}}";

#[test]
fn test_parse_wallet_set_response() {
    let resp = parse_wallet_set_response(200, WALLET_SET_JSON.as_bytes()).unwrap();
    assert_eq!(resp.name, b"test_wallet_set".to_vec());
    // the id is a valid UUID in canonical form
    let id_text = resp.id.to_hyphenated();
    assert_eq!(id_text, b"0068d5a4-eb64-4399-8441-a9af33af80a0".to_vec());
    assert!(uuid::Uuid::parse_str(std::str::from_utf8(&id_text).unwrap()).is_ok());
    assert_eq!(resp.custody_type, b"DEVELOPER".to_vec());
    assert_eq!(resp.update_date.year, 2023);
    assert_eq!(resp.update_date.month, 11);
    assert_eq!(resp.update_date.day, 25);
    assert_eq!(resp.create_date.hour, 14);
    assert_eq!(resp.create_date.minute, 26);
    assert_eq!(resp.create_date.second, 38);
}

#[test]
fn wallet_set_error_status_is_status_error_not_deserialization() {
    // even with a perfectly well-formed body, a non-success status must
    // surface as the status-code error
    let r = parse_wallet_set_response(400, WALLET_SET_JSON.as_bytes());
    assert_eq!(r.unwrap_err(), CircleError::ResponseStatusCodeError(400));
    let r = parse_wallet_set_response(401, b"{\"code\":401}");
    assert_eq!(r.unwrap_err(), CircleError::ResponseStatusCodeError(401));
    let r = parse_wallet_create_response(500, b"");
    assert_eq!(r.unwrap_err(), CircleError::ResponseStatusCodeError(500));
    let r = parse_wallet_balance_response(404, b"not json");
    assert_eq!(r.unwrap_err(), CircleError::ResponseStatusCodeError(404));
    let r = parse_transaction_response(403, WALLET_SET_JSON.as_bytes());
    assert_eq!(r.unwrap_err(), CircleError::ResponseStatusCodeError(403));
}

#[test]
fn wallet_set_malformed_body_is_deserialization_error() {
    let r = parse_wallet_set_response(200, b"{\"data\":{}}");
    assert_eq!(r.unwrap_err(), CircleError::DeserializationError);
    let r = parse_wallet_set_response(200, b"");
    assert_eq!(r.unwrap_err(), CircleError::DeserializationError);
}

#[test]
fn wallet_set_request_round_trip_preserves_every_field() {
    let req = WalletSetRequest {
        idempotency_key: UuidValue::parse(b"0068d5a4-eb64-4399-8441-a9af33af80a0").unwrap(),
        entity_secret_cipher_text: b"QUJDRA==".to_vec(),
        name: b"a \"quoted\" name with \\ and \x09 inside".to_vec(),
    };
    let body = build_wallet_set_request_body(&req);
    let parsed = parse_wallet_set_request(&body).unwrap();
    assert_eq!(parsed, req);
    // and re-serializing the parse reproduces the body byte for byte
    assert_eq!(build_wallet_set_request_body(&parsed), body);
}

#[test]
fn wallet_set_request_exact_body() {
    let req = WalletSetRequest {
        idempotency_key: UuidValue::parse(b"0068d5a4-eb64-4399-8441-a9af33af80a0").unwrap(),
        entity_secret_cipher_text: b"QQ==".to_vec(),
        name: b"ws".to_vec(),
    };
    let body = build_wallet_set_request_body(&req);
    assert_eq!(
        std::str::from_utf8(&body).unwrap(),
        "{\"idempotencyKey\":\"0068d5a4-eb64-4399-8441-a9af33af80a0\",\"entitySecretCipherText\":\"QQ==\",\"name\":\"ws\"}"
    );
}

#[test]
fn wallet_create_request_exact_body() {
    let ik = UuidValue::parse(b"0068d5a4-eb64-4399-8441-a9af33af80a0").unwrap();
    let wsid = UuidValue::parse(b"11111111-2222-3333-4444-555555555555").unwrap();
    let cipher = b"QQ==".to_vec();
    let chains = vec![b"MATIC-MUMBAI".to_vec(), b"ETH-SEPOLIA".to_vec()];
    let body = build_wallet_create_request_body(&ik, &cipher, &wsid, &chains, 2);
    assert_eq!(
        std::str::from_utf8(&body).unwrap(),
        "{\"idempotencyKey\":\"0068d5a4-eb64-4399-8441-a9af33af80a0\",\"entitySecretCipherText\":\"QQ==\",\"walletSetId\":\"11111111-2222-3333-4444-555555555555\",\"blockchains\":[\"MATIC-MUMBAI\",\"ETH-SEPOLIA\"],\"count\":2}"
    );
}

#[test]
fn wallet_create_request_round_trip_preserves_integers_and_lists() {
    let ik = UuidValue::parse(b"0068d5a4-eb64-4399-8441-a9af33af80a0").unwrap();
    let wsid = UuidValue::parse(b"11111111-2222-3333-4444-555555555555").unwrap();
    let cipher = b"QUJDRA==".to_vec();
    let chains = vec![b"MATIC-MUMBAI".to_vec(), b"ETH-SEPOLIA".to_vec()];
    let body = build_wallet_create_request_body(&ik, &cipher, &wsid, &chains, 4294967295);
    let req = parse_wallet_create_request(&body).unwrap();
    assert_eq!(req.idempotency_key, ik);
    assert_eq!(req.entity_secret_cipher_text, cipher);
    assert_eq!(req.wallet_set_id, wsid);
    assert_eq!(req.blockchains, chains);
    assert_eq!(req.count, 4294967295);
    // and re-serializing reproduces the body byte for byte
    let again = build_wallet_create_request_body(
        &req.idempotency_key,
        &req.entity_secret_cipher_text,
        &req.wallet_set_id,
        &req.blockchains,
        req.count,
    );
    assert_eq!(again, body);
}

#[test]
fn wallet_create_response_parses_record_list() {
    let json = "{\"data\":{\"wallets\":[{\"id\":\"0068d5a4-eb64-4399-8441-a9af33af80a0\",\"blockchain\":\"MATIC-MUMBAI\",\"address\":\"0xabc\"},{\"id\":\"11111111-2222-3333-4444-555555555555\",\"blockchain\":\"ETH-SEPOLIA\",\"address\":\"0xdef\"}]}}";
    let resp = parse_wallet_create_response(201, json.as_bytes()).unwrap();
    assert_eq!(resp.wallets.len(), 2);
    assert_eq!(resp.wallets[0].blockchain, b"MATIC-MUMBAI".to_vec());
    assert_eq!(resp.wallets[1].address, b"0xdef".to_vec());
    assert_eq!(
        resp.wallets[1].id.to_hyphenated(),
        b"11111111-2222-3333-4444-555555555555".to_vec()
    );
}

#[test]
fn wallet_create_response_empty_list() {
    let json = "{\"data\":{\"wallets\":[]}}";
    let resp = parse_wallet_create_response(200, json.as_bytes()).unwrap();
    assert_eq!(resp.wallets.len(), 0);
}

#[test]
fn wallet_balance_response_parses_balances() {
    let json = "{\"data\":{\"tokenBalances\":[{\"tokenId\":\"0068d5a4-eb64-4399-8441-a9af33af80a0\",\"amount\":\"123.45\"}]}}";
    let resp = parse_wallet_balance_response(200, json.as_bytes()).unwrap();
    assert_eq!(resp.token_balances.len(), 1);
    assert_eq!(resp.token_balances[0].amount, b"123.45".to_vec());
}

#[test]
fn transaction_response_parses_record() {
    let json = "{\"data\":{\"transaction\":{\"id\":\"0068d5a4-eb64-4399-8441-a9af33af80a0\",\"state\":\"INITIATED\"}}}";
    let resp = parse_transaction_response(200, json.as_bytes()).unwrap();
    assert_eq!(resp.state, b"INITIATED".to_vec());
}

#[test]
fn trailing_bytes_are_rejected() {
    let mut body = WALLET_SET_JSON.as_bytes().to_vec();
    body.push(b' ');
    let r = parse_wallet_set_response(200, &body);
    assert_eq!(r.unwrap_err(), CircleError::DeserializationError);
}
