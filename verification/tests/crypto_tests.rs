use circle_api::client::CircleClient;
use circle_api::crypto::encrypt_entity_secret;
use circle_api::error::{CircleError, HexDecodeError};
use circle_api::ids::UuidValue;
use circle_api::models::{TransactionRequest, WalletBalanceQueryParamsBuilder};
use rsa::pkcs8::DecodePublicKey;

const PUBLIC_RSA_KEY_STR: &str = "-----BEGIN RSA PUBLIC KEY-----\nMIICIjANBgkqhkiG9w0BAQEFAAOCAg8AMIICCgKCAgEAxDiWHMTzDfIMeLVw4BGT\nOnhVv/jjccrcHFMtm0ShbOb8bu0b/hvtN2oEdWx2RTdNT7AvntB9R9vCv60lZrk0\nZtfR8p2lew++NKAfyEeqTfL8dpfjhPtTZWLjdKG9SzkN66SRXBz5fNae4qaDHG3N\nI8PtYmwRnpfy6VzpcdwOGQxv2nGmgT4AKD/A1wl+7W2KruUPlWaGRNsSiFVceNTR\nYWll5OsRM0BB9YLkwDAFm27e+XmISJlapSmD8Gqx3i5ZvpwINboj1JiEaqMe/bAs\nASYHR73qz7G/B9p7nSc6tKr3SToXivZqDC47NLa81JZuyHyc7U5r+pdcTXOCsa+T\nTS0Y+fEZZ5rOQO3nI3voDULvf1yDvWsJTJW8qi3RjtGlR3P3M0JwONF0xZUwtSal\nMOLWwNjZrC33LIuGoD4M+43/y62xkdXIE4CHXTo3annRPnktkdYxTVfIYUXH8JDA\ng7++dIE4ZaN41Eg2mWCt3SSry9BqrMhEcY7YyuVyzJnv59cGCi5sDnQHGlXs1xJG\n/5QSyhID9+J2RRtu4sZ+5aLIvcIkMsNhul0mbfTRr34f9MGqYv9mkuzHUC/ppykG\nOv1ZJ0PWMIX4WCMXLKSi5Ii4Eayrev4BZk6WtXnvgX+EY9j+/85o+XgvyaX1Z7hE\nPBYZ9E8aCK/7kzIK4tgXviECAwEAAQ==\n-----END RSA PUBLIC KEY-----\n";

fn test_key() -> rsa::RsaPublicKey {
    let public_key_str = PUBLIC_RSA_KEY_STR.replace("RSA ", "");
    rsa::RsaPublicKey::from_public_key_pem(&public_key_str).unwrap()
}

fn key_response_body() -> Vec<u8> {
    let mut body: Vec<u8> = Vec::new();
    circle_api::wire::append_lit(&mut body, "{\"data\":{\"publicKey\":\"");
    circle_api::wire::append_escaped(&mut body, PUBLIC_RSA_KEY_STR.as_bytes());
    body.push(b'"');
    circle_api::wire::append_lit(&mut body, "}}");
    body
}

fn test_client() -> CircleClient {
    CircleClient::new_from_key_response(
        b"api-key".to_vec(),
        hex::encode("test").into_bytes(),
        200,
        &key_response_body(),
    )
    .unwrap()
}

#[test]
fn test_rsa_import() {
    let public_key_str = PUBLIC_RSA_KEY_STR.replace("RSA ", "");
    let public_key = rsa::RsaPublicKey::from_public_key_pem(&public_key_str).unwrap();

    // Encrypt
    let data = b"hello world";
    let padding = rsa::Oaep::new::<rsa::sha2::Sha256>();
    let enc_data = public_key
        .encrypt(&mut rand::thread_rng(), padding, &data[..])
        .expect("failed to encrypt");
    assert_ne!(&data[..], &enc_data[..]);
}

#[test]
fn test_encrypt_hex_entity_secret() {
    let public_key = test_key();
    let dummy_entity_secret = hex::encode("test");
    encrypt_entity_secret(&public_key, dummy_entity_secret.as_bytes()).unwrap();
}

#[test]
fn encryption_output_is_fresh_base64_of_one_key_block() {
    let public_key = test_key();
    let secret = hex::encode("test");
    let c1 = encrypt_entity_secret(&public_key, secret.as_bytes()).unwrap();
    let c2 = encrypt_entity_secret(&public_key, secret.as_bytes()).unwrap();
    // non-empty, never the plaintext, and of one 4096-bit block
    assert!(!c1.is_empty());
    assert_ne!(c1, secret.as_bytes().to_vec());
    assert_eq!(c1.len(), 684);
    // the encoding decodes back to one key-sized block of ciphertext
    let raw = base64::decode(std::str::from_utf8(&c1).unwrap()).unwrap();
    assert_eq!(raw.len(), 512);
    // randomized padding: encrypting the same secret twice differs
    assert_ne!(c1, c2);
}

#[test]
fn malformed_hex_fails_before_any_cryptography() {
    let public_key = test_key();
    let r = encrypt_entity_secret(&public_key, b"abc");
    assert_eq!(
        r.unwrap_err(),
        CircleError::FromHexError(HexDecodeError::OddLength)
    );
    let r = encrypt_entity_secret(&public_key, b"zz11");
    assert_eq!(
        r.unwrap_err(),
        CircleError::FromHexError(HexDecodeError::InvalidHexCharacter { index: 0 })
    );
    let r = encrypt_entity_secret(&public_key, b"74zz");
    assert_eq!(
        r.unwrap_err(),
        CircleError::FromHexError(HexDecodeError::InvalidHexCharacter { index: 2 })
    );
}

#[test]
fn oversized_secret_is_the_cryptographic_error() {
    // a 4096-bit OAEP-SHA256 block carries at most 446 bytes of plaintext
    let public_key = test_key();
    let big = hex::encode(vec![7u8; 500]);
    let r = encrypt_entity_secret(&public_key, big.as_bytes());
    assert_eq!(r.unwrap_err(), CircleError::RsaError);
}

#[test]
fn construction_from_key_response() {
    let client = test_client();
    let url = CircleClient::public_key_url();
    assert_eq!(
        std::str::from_utf8(&url).unwrap(),
        "https://api.circle.com/v1/w3s/config/entity/publicKey"
    );
    assert_eq!(
        std::str::from_utf8(&client.create_wallet_set_url()).unwrap(),
        "https://api.circle.com/v1/w3s/developer/walletSets"
    );
    assert_eq!(
        std::str::from_utf8(&client.create_wallet_url()).unwrap(),
        "https://api.circle.com/v1/w3s/developer/wallets"
    );
    assert_eq!(
        std::str::from_utf8(&client.initiate_transaction_url()).unwrap(),
        "https://api.circle.com/v1/w3s/developer/transactions/transfer"
    );
    assert_eq!(client.api_key(), &b"api-key".to_vec());
}

#[test]
fn construction_errors_are_typed_not_fatal() {
    let r = CircleClient::new_from_key_response(b"k".to_vec(), b"74".to_vec(), 503, b"");
    assert_eq!(r.err().unwrap(), CircleError::ResponseStatusCodeError(503));
    let r = CircleClient::new_from_key_response(b"k".to_vec(), b"74".to_vec(), 200, b"{}");
    assert_eq!(r.err().unwrap(), CircleError::DeserializationError);
    // a well-formed envelope whose key text the backend cannot parse
    let r = CircleClient::new_from_key_response(
        b"k".to_vec(),
        b"74".to_vec(),
        200,
        b"{\"data\":{\"publicKey\":\"not a pem\"}}",
    );
    assert_eq!(r.err().unwrap(), CircleError::RsaError);
}

#[test]
fn mutating_bodies_carry_fresh_ciphertexts() {
    let client = test_client();
    let ik = UuidValue::parse(b"0068d5a4-eb64-4399-8441-a9af33af80a0").unwrap();
    let b1 = client
        .create_wallet_set_body(ik.clone(), b"test_wallet_set".to_vec())
        .unwrap();
    let b2 = client
        .create_wallet_set_body(ik.clone(), b"test_wallet_set".to_vec())
        .unwrap();
    // OAEP is randomized: two bodies for the same call differ in ciphertext
    assert_ne!(b1, b2);
    let parsed = circle_api::codec::parse_wallet_set_request(&b1).unwrap();
    assert_eq!(parsed.name, b"test_wallet_set".to_vec());
    assert_eq!(parsed.idempotency_key, ik);

    let wsid = UuidValue::parse(b"11111111-2222-3333-4444-555555555555").unwrap();
    let body = client
        .create_wallet_body(ik.clone(), wsid, vec![b"MATIC-MUMBAI".to_vec()], 2)
        .unwrap();
    assert!(std::str::from_utf8(&body)
        .unwrap()
        .ends_with("\"blockchains\":[\"MATIC-MUMBAI\"],\"count\":2}"));

    let tx = TransactionRequest {
        idempotency_key: ik.clone(),
        wallet_id: UuidValue::parse(b"22222222-2222-3333-4444-555555555555").unwrap(),
        destination_address: b"0xabc".to_vec(),
        token_id: UuidValue::parse(b"33333333-2222-3333-4444-555555555555").unwrap(),
        amounts: vec![b"0.01".to_vec()],
    };
    let body = client.initiate_transaction_body(&tx).unwrap();
    assert!(std::str::from_utf8(&body)
        .unwrap()
        .ends_with("\"amounts\":[\"0.01\"]}"));
}

#[test]
fn client_with_bad_secret_reports_hex_error_per_request() {
    let client = CircleClient::new_from_key_response(
        b"k".to_vec(),
        b"not hex".to_vec(),
        200,
        &key_response_body(),
    )
    .unwrap();
    let ik = UuidValue::parse(b"0068d5a4-eb64-4399-8441-a9af33af80a0").unwrap();
    let r = client.create_wallet_set_body(ik, b"n".to_vec());
    assert!(matches!(r.unwrap_err(), CircleError::FromHexError(_)));
}

#[test]
fn concurrent_style_balance_lookups_are_independent() {
    // balance URLs are pure functions of the client and the wallet id: many
    // lookups against one client cannot interfere with one another
    let client = test_client();
    let params = WalletBalanceQueryParamsBuilder::new().include_all(true).build();
    let ids: Vec<UuidValue> = (0u8..8)
        .map(|k| UuidValue::from_bytes(vec![k; 16]).unwrap())
        .collect();
    let urls: Vec<Vec<u8>> = ids
        .iter()
        .map(|id| client.wallet_balance_url(id, &params))
        .collect();
    for (k, url) in urls.iter().enumerate() {
        // each result is exactly what a lone lookup for that wallet computes
        assert_eq!(url, &client.wallet_balance_url(&ids[k], &params));
        let text = std::str::from_utf8(url).unwrap();
        let id_text = ids[k].to_hyphenated();
        assert!(text.contains(std::str::from_utf8(&id_text).unwrap()));
        assert!(text.ends_with("/balances?includeAll=true"));
    }
    // distinct wallets give distinct requests
    for a in 0..urls.len() {
        for b in (a + 1)..urls.len() {
            assert_ne!(urls[a], urls[b]);
        }
    }
}

#[test]
fn balance_url_with_page_size() {
    let client = test_client();
    let params = WalletBalanceQueryParamsBuilder::new().page_size(10).build();
    let id = UuidValue::parse(b"0068d5a4-eb64-4399-8441-a9af33af80a0").unwrap();
    let url = client.wallet_balance_url(&id, &params);
    assert_eq!(
        std::str::from_utf8(&url).unwrap(),
        "https://api.circle.com/v1/w3s/wallets/0068d5a4-eb64-4399-8441-a9af33af80a0/balances?includeAll=false&pageSize=10"
    );
}
