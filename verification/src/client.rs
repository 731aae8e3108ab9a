use vstd::prelude::*;
use vstd::string::StringSliceAdditionalSpecFns;

use crate::codec::{
    build_transaction_request_body, build_wallet_create_request_body,
    build_wallet_set_request_body, is_public_key_response_body, is_success_status,
    lemma_public_key_response_json_injective, parse_public_key_response_body,
    public_key_response_json, transaction_request_json, wallet_create_request_json,
    wallet_set_request_json,
};
use crate::crypto::{base64_of, encrypt_entity_secret, pem_key_ok, rsa_public_key_from_pem};
use crate::error::CircleError;
use crate::hexcode::{hex_bytes, hex_decode_err_spec, hex_well_formed};
use crate::ids::{uuid_chars, UuidValue};
use crate::models::{TransactionRequest, WalletBalanceQueryParams, WalletSetRequest};
use crate::wire::{append_bytes, append_lit, append_u32, dec_str_of};

verus! {

/// The fixed service endpoint every client talks to.
pub open spec fn default_base_url() -> Seq<u8> {
    "https://api.circle.com/v1/".spec_bytes()
}

/// The vendor prefix token `RSA ` (0x52 0x53 0x41 0x20) that the
/// key-discovery endpoint puts into the PEM header and footer.
pub open spec fn rsa_token() -> Seq<u8> {
    seq![82u8, 83u8, 65u8, 32u8]
}

/// `s` with every occurrence of the vendor token removed.
pub open spec fn strip_rsa_token(s: Seq<u8>) -> Seq<u8>
    decreases s.len(),
{
    if s.len() >= 4 && s.subrange(0, 4) == rsa_token() {
        strip_rsa_token(s.subrange(4, s.len() as int))
    } else if s.len() == 0 {
        Seq::empty()
    } else {
        seq![s[0]] + strip_rsa_token(s.subrange(1, s.len() as int))
    }
}

/// Remove every occurrence of the vendor token `RSA ` from `s`.
pub fn remove_rsa_token(s: &[u8]) -> (r: Vec<u8>)
    ensures
        r@ == strip_rsa_token(s@),
{
    let n: usize = s.len();
    let mut out: Vec<u8> = Vec::new();
    let mut i: usize = 0;
    proof {
        assert(s@.skip(0) =~= s@);
        assert(out@ + strip_rsa_token(s@.skip(0)) =~= strip_rsa_token(s@));
    }
    while i < n
        invariant
            i <= n,
            n == s@.len(),
            strip_rsa_token(s@) == out@ + strip_rsa_token(s@.skip(i as int)),
        decreases n - i,
    {
        let ghost rest = s@.skip(i as int);
        if n - i >= 4 && s[i] == 82 && s[i + 1] == 83 && s[i + 2] == 65 && s[i + 3] == 32 {
            proof {
                assert(rest.subrange(0, 4) =~= rsa_token());
                assert(rest.subrange(4, rest.len() as int) =~= s@.skip((i + 4) as int));
                assert(strip_rsa_token(rest) == strip_rsa_token(s@.skip((i + 4) as int)));
            }
            i = i + 4;
        } else {
            out.push(s[i]);
            proof {
                if rest.len() >= 4 && rest.subrange(0, 4) == rsa_token() {
                    assert(rest[0] == 82 && rest[1] == 83 && rest[2] == 65 && rest[3] == 32);
                    assert(false);
                }
                assert(rest.subrange(1, rest.len() as int) =~= s@.skip((i + 1) as int));
                assert(strip_rsa_token(rest) == seq![s@[i as int]] + strip_rsa_token(
                    s@.skip((i + 1) as int),
                ));
                assert(out@ + strip_rsa_token(s@.skip((i + 1) as int)) =~= strip_rsa_token(s@));
            }
            i = i + 1;
        }
    }
    proof {
        assert(s@.skip(n as int) =~= Seq::<u8>::empty());
        assert(strip_rsa_token(s@.skip(n as int)) =~= Seq::<u8>::empty());
        assert(out@ =~= strip_rsa_token(s@));
    }
    out
}

/// The query string of a balance lookup.
pub open spec fn balance_query_string(p: WalletBalanceQueryParams) -> Seq<u8> {
    "?includeAll=".spec_bytes() + (if p.include_all {
        "true".spec_bytes()
    } else {
        "false".spec_bytes()
    }) + (match p.page_size {
        Option::Some(v) => "&pageSize=".spec_bytes() + dec_str_of(v as nat),
        Option::None => Seq::<u8>::empty(),
    })
}

/// Balance lookups do not interfere: the request URL determines the wallet
/// it asks about, so lookups for distinct wallets built from one client are
/// distinct, independent requests, whatever order they are issued in.
pub proof fn lemma_balance_url_determines_wallet(
    base: Seq<u8>,
    id1: Seq<u8>,
    id2: Seq<u8>,
    p: WalletBalanceQueryParams,
)
    requires
        id1.len() == 16,
        id2.len() == 16,
        base + "w3s/wallets/".spec_bytes() + uuid_chars(id1) + "/balances".spec_bytes()
            + balance_query_string(p) == base + "w3s/wallets/".spec_bytes() + uuid_chars(id2)
            + "/balances".spec_bytes() + balance_query_string(p),
    ensures
        id1 == id2,
{
    let pre = base + "w3s/wallets/".spec_bytes();
    let tail = "/balances".spec_bytes() + balance_query_string(p);
    let t1 = uuid_chars(id1) + tail;
    let t2 = uuid_chars(id2) + tail;
    assert(base + "w3s/wallets/".spec_bytes() + uuid_chars(id1) + "/balances".spec_bytes()
        + balance_query_string(p) =~= pre + t1);
    assert(base + "w3s/wallets/".spec_bytes() + uuid_chars(id2) + "/balances".spec_bytes()
        + balance_query_string(p) =~= pre + t2);
    crate::wire::lemma_prefix_cancel(pre, t1, t2);
    assert(uuid_chars(id1) =~= t1.subrange(0, 36));
    assert(uuid_chars(id2) =~= t2.subrange(0, 36));
    crate::ids::lemma_uuid_chars_injective(id1, id2);
}

/// A configured client: credentials, endpoint, and the public key fetched
/// once at construction. All of it is read-only afterwards, so requests
/// built from the same client never interfere with one another.
pub struct CircleClient {
    base_url: Vec<u8>,
    api_key: Vec<u8>,
    entity_secret: Vec<u8>,
    public_key: rsa::RsaPublicKey,
}

impl CircleClient {
    /// The configured endpoint.
    pub closed spec fn base_url_spec(self) -> Seq<u8> {
        self.base_url@
    }

    /// The bearer credential sent with every request.
    pub closed spec fn api_key_spec(self) -> Seq<u8> {
        self.api_key@
    }

    /// The hex-encoded entity secret encrypted for every mutating request.
    pub closed spec fn entity_secret_spec(self) -> Seq<u8> {
        self.entity_secret@
    }

    /// Where the key-discovery request goes, before any client exists.
    pub fn public_key_url() -> (r: Vec<u8>)
        ensures
            r@ == default_base_url() + "w3s/config/entity/publicKey".spec_bytes(),
    {
        let mut out: Vec<u8> = Vec::new();
        append_lit(&mut out, "https://api.circle.com/v1/");
        append_lit(&mut out, "w3s/config/entity/publicKey");
        proof {
            assert(out@ =~= default_base_url() + "w3s/config/entity/publicKey".spec_bytes());
        }
        out
    }

    /// The bearer credential, for the transport to put into the
    /// authorization header.
    pub fn api_key(&self) -> (r: &Vec<u8>)
        ensures
            r@ == self.api_key_spec(),
    {
        &self.api_key
    }

    /// Build a client from the key-discovery response.
    ///
    /// A non-success status is the status-code error. On success the body
    /// must carry the key envelope (else the deserialization error), and the
    /// key text, once the vendor token is removed, must parse (else the
    /// cryptographic error); construction failures are reported, never
    /// fatal. The client keeps the given credentials and the fixed endpoint.
    pub fn new_from_key_response(
        api_key: Vec<u8>,
        entity_secret: Vec<u8>,
        status: u16,
        body: &[u8],
    ) -> (r: Result<CircleClient, CircleError>)
        ensures
            !is_success_status(status) ==> r == Err::<CircleClient, CircleError>(
                CircleError::ResponseStatusCodeError(status),
            ),
            is_success_status(status) ==> (match r {
                Ok(c) => {
                    &&& c.base_url_spec() == default_base_url()
                    &&& c.api_key_spec() == api_key@
                    &&& c.entity_secret_spec() == entity_secret@
                    &&& exists|pem: Seq<u8>| body@ == public_key_response_json(pem)
                },
                Err(e) => e == CircleError::DeserializationError || e == CircleError::RsaError,
            }),
            is_success_status(status) ==> (r == Err::<CircleClient, CircleError>(
                CircleError::DeserializationError,
            ) <==> !is_public_key_response_body(body@)),
            is_success_status(status) ==> (forall|pem: Seq<u8>|
                body@ == public_key_response_json(pem) ==> (r is Ok <==> pem_key_ok(
                    strip_rsa_token(pem),
                ))),
    {
        if !(200 <= status && status < 300) {
            return Err(CircleError::ResponseStatusCodeError(status));
        }
        let pem_raw = match parse_public_key_response_body(body) {
            Some(p) => p,
            None => {
                return Err(CircleError::DeserializationError);
            },
        };
        let pem = remove_rsa_token(pem_raw.as_slice());
        let public_key = match rsa_public_key_from_pem(pem.as_slice()) {
            Ok(k) => k,
            Err(_) => {
                proof {
                    assert forall|p: Seq<u8>| body@ == public_key_response_json(p) implies !pem_key_ok(
                        strip_rsa_token(p),
                    ) by {
                        lemma_public_key_response_json_injective(p, pem_raw@);
                    }
                }
                return Err(CircleError::RsaError);
            },
        };
        proof {
            assert forall|p: Seq<u8>| body@ == public_key_response_json(p) implies pem_key_ok(
                strip_rsa_token(p),
            ) by {
                lemma_public_key_response_json_injective(p, pem_raw@);
            }
        }
        let mut base_url: Vec<u8> = Vec::new();
        append_lit(&mut base_url, "https://api.circle.com/v1/");
        proof {
            assert(base_url@ =~= default_base_url());
        }
        Ok(CircleClient { base_url, api_key, entity_secret, public_key })
    }

    /// Where wallet-set creation posts.
    pub fn create_wallet_set_url(&self) -> (r: Vec<u8>)
        ensures
            r@ == self.base_url_spec() + "w3s/developer/walletSets".spec_bytes(),
    {
        let mut out: Vec<u8> = Vec::new();
        append_bytes(&mut out, self.base_url.as_slice());
        append_lit(&mut out, "w3s/developer/walletSets");
        proof {
            assert(out@ =~= self.base_url_spec() + "w3s/developer/walletSets".spec_bytes());
        }
        out
    }

    /// Where wallet creation posts.
    pub fn create_wallet_url(&self) -> (r: Vec<u8>)
        ensures
            r@ == self.base_url_spec() + "w3s/developer/wallets".spec_bytes(),
    {
        let mut out: Vec<u8> = Vec::new();
        append_bytes(&mut out, self.base_url.as_slice());
        append_lit(&mut out, "w3s/developer/wallets");
        proof {
            assert(out@ =~= self.base_url_spec() + "w3s/developer/wallets".spec_bytes());
        }
        out
    }

    /// Where transaction initiation posts.
    pub fn initiate_transaction_url(&self) -> (r: Vec<u8>)
        ensures
            r@ == self.base_url_spec() + "w3s/developer/transactions/transfer".spec_bytes(),
    {
        let mut out: Vec<u8> = Vec::new();
        append_bytes(&mut out, self.base_url.as_slice());
        append_lit(&mut out, "w3s/developer/transactions/transfer");
        proof {
            assert(out@ =~= self.base_url_spec()
                + "w3s/developer/transactions/transfer".spec_bytes());
        }
        out
    }

    /// Where a balance lookup for `wallet_id` goes, query string included.
    ///
    /// The result is a function of the client and the arguments alone:
    /// lookups for distinct wallets built from one client are independent.
    pub fn wallet_balance_url(&self, wallet_id: &UuidValue, params: &WalletBalanceQueryParams) -> (r:
        Vec<u8>)
        requires
            wallet_id@.len() == 16,
        ensures
            r@ == self.base_url_spec() + "w3s/wallets/".spec_bytes() + uuid_chars(wallet_id@)
                + "/balances".spec_bytes() + balance_query_string(*params),
    {
        let mut out: Vec<u8> = Vec::new();
        append_bytes(&mut out, self.base_url.as_slice());
        append_lit(&mut out, "w3s/wallets/");
        let id_text = wallet_id.to_hyphenated();
        append_bytes(&mut out, id_text.as_slice());
        append_lit(&mut out, "/balances");
        append_lit(&mut out, "?includeAll=");
        if params.include_all {
            append_lit(&mut out, "true");
        } else {
            append_lit(&mut out, "false");
        }
        match params.page_size {
            Some(v) => {
                append_lit(&mut out, "&pageSize=");
                append_u32(&mut out, v);
            },
            None => {},
        }
        proof {
            assert(out@ =~= self.base_url_spec() + "w3s/wallets/".spec_bytes() + uuid_chars(
                wallet_id@,
            ) + "/balances".spec_bytes() + balance_query_string(*params));
        }
        out
    }

    /// Build the body of a wallet-set creation request: a fresh ciphertext
    /// of the entity secret under the cached key, with the given idempotency
    /// key and name, in the exact wire encoding. A malformed secret is the
    /// hex error, before any cryptographic step; an encryption failure the
    /// cryptographic error.
    pub fn create_wallet_set_body(&self, idempotency_key: UuidValue, name: Vec<u8>) -> (r: Result<
        Vec<u8>,
        CircleError,
    >)
        requires
            idempotency_key@.len() == 16,
        ensures
            !hex_well_formed(self.entity_secret_spec()) ==> r is Err,
            r matches Err(e) ==> (match e {
                CircleError::FromHexError(h) => !hex_well_formed(self.entity_secret_spec())
                    && hex_decode_err_spec(self.entity_secret_spec(), h),
                CircleError::RsaError => hex_well_formed(self.entity_secret_spec()),
                _ => false,
            }),
            r matches Ok(b) ==> exists|cipher: Seq<u8>|
                {
                    &&& cipher.len() >= hex_bytes(self.entity_secret_spec()).len() + 66
                    &&& b@ == wallet_set_request_json(
                        idempotency_key@,
                        #[trigger] base64_of(cipher),
                        name@,
                    )
                },
    {
        let cipher_text = match encrypt_entity_secret(
            &self.public_key,
            self.entity_secret.as_slice(),
        ) {
            Ok(c) => c,
            Err(e) => {
                return Err(e);
            },
        };
        let req = WalletSetRequest {
            idempotency_key,
            entity_secret_cipher_text: cipher_text,
            name,
        };
        let body = build_wallet_set_request_body(&req);
        Ok(body)
    }

    /// Build the body of a wallet creation request, as
    /// `create_wallet_set_body` does, with the wallet-set id, the chains and
    /// the per-chain count.
    pub fn create_wallet_body(
        &self,
        idempotency_key: UuidValue,
        wallet_set_id: UuidValue,
        blockchains: Vec<Vec<u8>>,
        count: u32,
    ) -> (r: Result<Vec<u8>, CircleError>)
        requires
            idempotency_key@.len() == 16,
            wallet_set_id@.len() == 16,
        ensures
            !hex_well_formed(self.entity_secret_spec()) ==> r is Err,
            r matches Err(e) ==> (match e {
                CircleError::FromHexError(h) => !hex_well_formed(self.entity_secret_spec())
                    && hex_decode_err_spec(self.entity_secret_spec(), h),
                CircleError::RsaError => hex_well_formed(self.entity_secret_spec()),
                _ => false,
            }),
            r matches Ok(b) ==> exists|cipher: Seq<u8>|
                {
                    &&& cipher.len() >= hex_bytes(self.entity_secret_spec()).len() + 66
                    &&& b@ == wallet_create_request_json(
                        idempotency_key@,
                        #[trigger] base64_of(cipher),
                        wallet_set_id@,
                        blockchains.deep_view(),
                        count as nat,
                    )
                },
    {
        let cipher_text = match encrypt_entity_secret(
            &self.public_key,
            self.entity_secret.as_slice(),
        ) {
            Ok(c) => c,
            Err(e) => {
                return Err(e);
            },
        };
        let body = build_wallet_create_request_body(
            &idempotency_key,
            &cipher_text,
            &wallet_set_id,
            &blockchains,
            count,
        );
        Ok(body)
    }

    /// Build the body of a transaction initiation request, as
    /// `create_wallet_set_body` does, from the caller's request record.
    pub fn initiate_transaction_body(&self, request: &TransactionRequest) -> (r: Result<
        Vec<u8>,
        CircleError,
    >)
        requires
            request.valid(),
        ensures
            !hex_well_formed(self.entity_secret_spec()) ==> r is Err,
            r matches Err(e) ==> (match e {
                CircleError::FromHexError(h) => !hex_well_formed(self.entity_secret_spec())
                    && hex_decode_err_spec(self.entity_secret_spec(), h),
                CircleError::RsaError => hex_well_formed(self.entity_secret_spec()),
                _ => false,
            }),
            r matches Ok(b) ==> exists|cipher: Seq<u8>|
                {
                    &&& cipher.len() >= hex_bytes(self.entity_secret_spec()).len() + 66
                    &&& b@ == transaction_request_json(
                        request.idempotency_key@,
                        #[trigger] base64_of(cipher),
                        request.wallet_id@,
                        request.destination_address@,
                        request.token_id@,
                        request.amounts.deep_view(),
                    )
                },
    {
        let cipher_text = match encrypt_entity_secret(
            &self.public_key,
            self.entity_secret.as_slice(),
        ) {
            Ok(c) => c,
            Err(e) => {
                return Err(e);
            },
        };
        let body = build_transaction_request_body(
            &request.idempotency_key,
            &cipher_text,
            &request.wallet_id,
            &request.destination_address,
            &request.token_id,
            &request.amounts,
        );
        Ok(body)
    }
}

} // verus!
