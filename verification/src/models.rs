use vstd::prelude::*;

use crate::ids::UuidValue;
use crate::timestamp::Timestamp;

verus! {

/// Envelope of a wallet-set creation request.
#[derive(Debug, Clone, PartialEq, Eq)]
pub struct WalletSetRequest {
    /// Client-generated key the provider deduplicates retried requests by.
    pub idempotency_key: UuidValue,
    /// Base64 ciphertext of the entity secret, freshly computed per call.
    pub entity_secret_cipher_text: Vec<u8>,
    /// Display name of the new wallet set.
    pub name: Vec<u8>,
}

impl WalletSetRequest {
    pub open spec fn valid(self) -> bool {
        self.idempotency_key@.len() == 16
    }
}

/// Payload of a successful wallet-set creation.
#[derive(Debug, Clone, PartialEq, Eq)]
pub struct WalletSetResponse {
    pub id: UuidValue,
    pub custody_type: Vec<u8>,
    pub name: Vec<u8>,
    pub update_date: Timestamp,
    pub create_date: Timestamp,
}

impl WalletSetResponse {
    pub open spec fn valid(self) -> bool {
        self.id@.len() == 16 && self.update_date.well_formed() && self.create_date.well_formed()
    }
}

/// Envelope of a wallet creation request.
#[derive(Debug, Clone, PartialEq, Eq)]
pub struct WalletCreateRequest {
    pub idempotency_key: UuidValue,
    pub entity_secret_cipher_text: Vec<u8>,
    pub wallet_set_id: UuidValue,
    /// Chain identifiers the wallets are created on.
    pub blockchains: Vec<Vec<u8>>,
    /// How many wallets to create per chain.
    pub count: u32,
}

/// One wallet record of a wallet creation response.
#[derive(Debug, Clone, PartialEq, Eq)]
pub struct Wallet {
    pub id: UuidValue,
    pub blockchain: Vec<u8>,
    pub address: Vec<u8>,
}

impl Wallet {
    pub open spec fn valid(self) -> bool {
        self.id@.len() == 16
    }
}

/// Payload of a successful wallet creation: the new wallet records.
#[derive(Debug, Clone, PartialEq, Eq)]
pub struct WalletCreateResponse {
    pub wallets: Vec<Wallet>,
}

/// One balance record of a balance query response.
#[derive(Debug, Clone, PartialEq, Eq)]
pub struct TokenBalance {
    pub token_id: UuidValue,
    /// Decimal amount as the service reports it, kept verbatim.
    pub amount: Vec<u8>,
}

impl TokenBalance {
    pub open spec fn valid(self) -> bool {
        self.token_id@.len() == 16
    }
}

/// Payload of a successful balance query.
#[derive(Debug, Clone, PartialEq, Eq)]
pub struct WalletBalanceResponse {
    pub token_balances: Vec<TokenBalance>,
}

/// Query parameters of a balance lookup.
#[derive(Debug, Clone, PartialEq, Eq)]
pub struct WalletBalanceQueryParams {
    /// Ask for every balance, not only the non-zero ones.
    pub include_all: bool,
    /// Page size limit, if the caller pages.
    pub page_size: Option<u32>,
}

/// Step-by-step construction of `WalletBalanceQueryParams`.
#[derive(Debug, Clone, PartialEq, Eq)]
pub struct WalletBalanceQueryParamsBuilder {
    include_all: bool,
    page_size: Option<u32>,
}

impl WalletBalanceQueryParamsBuilder {
    /// Start from the neutral query: nothing included beyond the default,
    /// no paging.
    pub fn new() -> (r: WalletBalanceQueryParamsBuilder)
        ensures
            !r@.include_all,
            r@.page_size is None,
    {
        WalletBalanceQueryParamsBuilder { include_all: false, page_size: None }
    }

    pub closed spec fn view(self) -> WalletBalanceQueryParams {
        WalletBalanceQueryParams { include_all: self.include_all, page_size: self.page_size }
    }

    pub fn include_all(self, v: bool) -> (r: WalletBalanceQueryParamsBuilder)
        ensures
            r@ == (WalletBalanceQueryParams { include_all: v, ..self@ }),
    {
        WalletBalanceQueryParamsBuilder { include_all: v, page_size: self.page_size }
    }

    pub fn page_size(self, v: u32) -> (r: WalletBalanceQueryParamsBuilder)
        ensures
            r@ == (WalletBalanceQueryParams { page_size: Some(v), ..self@ }),
    {
        WalletBalanceQueryParamsBuilder { include_all: self.include_all, page_size: Some(v) }
    }

    pub fn build(self) -> (r: WalletBalanceQueryParams)
        ensures
            r == self@,
    {
        WalletBalanceQueryParams { include_all: self.include_all, page_size: self.page_size }
    }
}

/// Envelope of a transaction initiation request.
#[derive(Debug, Clone, PartialEq, Eq)]
pub struct TransactionRequest {
    pub idempotency_key: UuidValue,
    pub wallet_id: UuidValue,
    pub destination_address: Vec<u8>,
    pub token_id: UuidValue,
    /// Decimal amounts to transfer, kept verbatim.
    pub amounts: Vec<Vec<u8>>,
}

impl TransactionRequest {
    pub open spec fn valid(self) -> bool {
        self.idempotency_key@.len() == 16 && self.wallet_id@.len() == 16 && self.token_id@.len()
            == 16
    }
}

/// Payload of a successful transaction initiation.
#[derive(Debug, Clone, PartialEq, Eq)]
pub struct TransactionResponse {
    pub id: UuidValue,
    pub state: Vec<u8>,
}

impl TransactionResponse {
    pub open spec fn valid(self) -> bool {
        self.id@.len() == 16
    }
}

/// Payload of the key-discovery endpoint.
#[derive(Debug, Clone, PartialEq, Eq)]
pub struct PublicKeyResponse {
    /// PEM text of the service's RSA public key, with a vendor prefix token.
    pub public_key: Vec<u8>,
}

} // verus!
