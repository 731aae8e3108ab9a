//! The wire codec of the client: one canonical JSON form per envelope.
//!
//! Every encoder emits, and every parser accepts, exactly the canonical
//! form: the documented fields in their documented order and nothing else,
//! no whitespace, identifiers in lowercase hyphenated form, and `\u00..`
//! escapes for control bytes. This strictness is deliberate: it is what
//! makes the parse contracts exact. A body with reordered or extra fields
//! is reported as the deserialization error.

use vstd::prelude::*;
use vstd::string::StringSliceAdditionalSpecFns;

use crate::error::CircleError;
use crate::ids::{lemma_uuid_chars_plain, uuid_chars, UuidValue};
use crate::models::{
    TokenBalance, TransactionResponse, Wallet, WalletBalanceResponse, WalletCreateRequest,
    WalletCreateResponse, WalletSetRequest, WalletSetResponse,
};
use crate::timestamp::{lemma_ts_chars_plain, ts_chars, Timestamp};
use crate::wire::{
    append_bytes, append_escaped, append_lit, escape, lemma_escape_plain, match_lit, parse_string,
};

verus! {

/// The HTTP status codes every endpoint treats as success.
pub open spec fn is_success_status(status: u16) -> bool {
    200 <= status && status < 300
}

/// A JSON string value's tail: the escaped bytes and the closing quote.
/// The opening quote belongs to the literal before it.
pub open spec fn jstr_end(v: Seq<u8>) -> Seq<u8> {
    escape(v) + seq![34u8]
}

/// The exact wire body of a wallet-set creation request with the given
/// idempotency key bytes, ciphertext and name.
pub open spec fn wallet_set_request_json(ik: Seq<u8>, cipher: Seq<u8>, name: Seq<u8>) -> Seq<u8> {
    "{\"idempotencyKey\":\"".spec_bytes() + jstr_end(uuid_chars(ik))
        + ",\"entitySecretCipherText\":\"".spec_bytes() + jstr_end(cipher)
        + ",\"name\":\"".spec_bytes() + jstr_end(name) + "}".spec_bytes()
}

/// Serialize a wallet-set creation request.
pub fn build_wallet_set_request_body(req: &WalletSetRequest) -> (r: Vec<u8>)
    requires
        req.valid(),
    ensures
        r@ == wallet_set_request_json(
            req.idempotency_key@,
            req.entity_secret_cipher_text@,
            req.name@,
        ),
{
    let mut out: Vec<u8> = Vec::new();
    append_lit(&mut out, "{\"idempotencyKey\":\"");
    let ik_text = req.idempotency_key.to_hyphenated();
    append_bytes(&mut out, ik_text.as_slice());
    out.push(34);
    append_lit(&mut out, ",\"entitySecretCipherText\":\"");
    append_escaped(&mut out, req.entity_secret_cipher_text.as_slice());
    out.push(34);
    append_lit(&mut out, ",\"name\":\"");
    append_escaped(&mut out, req.name.as_slice());
    out.push(34);
    append_lit(&mut out, "}");
    proof {
        lemma_uuid_chars_plain(req.idempotency_key@);
        lemma_escape_plain(uuid_chars(req.idempotency_key@));
        assert(out@ =~= wallet_set_request_json(
            req.idempotency_key@,
            req.entity_secret_cipher_text@,
            req.name@,
        ));
    }
    out
}

/// `s` is the body of a well-formed wallet-set creation request.
pub open spec fn is_wallet_set_request_body(s: Seq<u8>) -> bool {
    exists|req: WalletSetRequest|
        req.valid() && s == wallet_set_request_json(
            req.idempotency_key@,
            req.entity_secret_cipher_text@,
            req.name@,
        )
}

/// Parse a wallet-set creation request body, the exact mirror of
/// `build_wallet_set_request_body`: it succeeds exactly on well-formed
/// bodies, and a successful parse re-serializes to the input byte for byte.
#[verifier::rlimit(100)]
pub fn parse_wallet_set_request(s: &[u8]) -> (r: Option<WalletSetRequest>)
    ensures
        r matches Some(req) ==> req.valid() && s@ == wallet_set_request_json(
            req.idempotency_key@,
            req.entity_secret_cipher_text@,
            req.name@,
        ),
        r is None ==> !is_wallet_set_request_body(s@),
{
    let ghost wit = is_wallet_set_request_body(s@);
    let ghost req0 = choose|req: WalletSetRequest|
        req.valid() && s@ == wallet_set_request_json(
            req.idempotency_key@,
            req.entity_secret_cipher_text@,
            req.name@,
        );
    let ghost l1 = "{\"idempotencyKey\":\"".spec_bytes();
    let ghost l2 = ",\"entitySecretCipherText\":\"".spec_bytes();
    let ghost l3 = ",\"name\":\"".spec_bytes();
    let ghost t4 = "}".spec_bytes();
    let ghost t3b = jstr_end(req0.name@) + t4;
    let ghost t3 = l3 + t3b;
    let ghost t2b = jstr_end(req0.entity_secret_cipher_text@) + t3;
    let ghost t2 = l2 + t2b;
    let ghost t1 = jstr_end(uuid_chars(req0.idempotency_key@)) + t2;
    let ghost n = s@.len() as int;
    proof {
        if wit {
            assert(s@ =~= l1 + t1);
        }
    }
    let i1 = match match_lit(s, 0, "{\"idempotencyKey\":\"") {
        Some(j) => j,
        None => {
            proof {
                if wit {
                    assert(s@.subrange(0, l1.len() as int) =~= l1);
                    assert(false);
                }
            }
            return None;
        },
    };
    proof {
        if wit {
            assert(s@ =~= s@.subrange(0, i1 as int) + s@.subrange(i1 as int, n));
            crate::wire::lemma_prefix_cancel(l1, s@.subrange(i1 as int, n), t1);
        }
    }
    let (ik_text, i2) = match parse_string(s, i1) {
        Some(p) => p,
        None => {
            proof {
                if wit {
                    let jq = i1 + escape(uuid_chars(req0.idempotency_key@)).len() + 1;
                    assert(s@.subrange(i1 as int, jq as int) =~= escape(
                        uuid_chars(req0.idempotency_key@),
                    ) + seq![34u8]);
                    assert(crate::wire::has_string_at(s@, i1 as int));
                    assert(false);
                }
            }
            return None;
        },
    };
    proof {
        if wit {
            assert(s@.subrange(i1 as int, n) =~= s@.subrange(i1 as int, i2 as int) + s@.subrange(
                i2 as int,
                n,
            ));
            crate::wire::lemma_escape_quote_cancel(
                ik_text@,
                uuid_chars(req0.idempotency_key@),
                s@.subrange(i2 as int, n),
                t2,
            );
        }
    }
    let ik = match UuidValue::parse(ik_text.as_slice()) {
        Some(u) => u,
        None => {
            proof {
                if wit {
                    crate::ids::lemma_uuid_text_canonical(req0.idempotency_key@);
                    assert(false);
                }
            }
            return None;
        },
    };
    let i3 = match match_lit(s, i2, ",\"entitySecretCipherText\":\"") {
        Some(j) => j,
        None => {
            proof {
                if wit {
                    assert(s@.subrange(i2 as int, i2 + l2.len() as int) =~= l2);
                    assert(false);
                }
            }
            return None;
        },
    };
    proof {
        if wit {
            assert(s@.subrange(i2 as int, n) =~= s@.subrange(i2 as int, i3 as int) + s@.subrange(
                i3 as int,
                n,
            ));
            crate::wire::lemma_prefix_cancel(l2, s@.subrange(i3 as int, n), t2b);
        }
    }
    let (cipher, i4) = match parse_string(s, i3) {
        Some(p) => p,
        None => {
            proof {
                if wit {
                    let jq = i3 + escape(req0.entity_secret_cipher_text@).len() + 1;
                    assert(s@.subrange(i3 as int, jq as int) =~= escape(
                        req0.entity_secret_cipher_text@,
                    ) + seq![34u8]);
                    assert(crate::wire::has_string_at(s@, i3 as int));
                    assert(false);
                }
            }
            return None;
        },
    };
    proof {
        if wit {
            assert(s@.subrange(i3 as int, n) =~= s@.subrange(i3 as int, i4 as int) + s@.subrange(
                i4 as int,
                n,
            ));
            crate::wire::lemma_escape_quote_cancel(
                cipher@,
                req0.entity_secret_cipher_text@,
                s@.subrange(i4 as int, n),
                t3,
            );
        }
    }
    let i5 = match match_lit(s, i4, ",\"name\":\"") {
        Some(j) => j,
        None => {
            proof {
                if wit {
                    assert(s@.subrange(i4 as int, i4 + l3.len() as int) =~= l3);
                    assert(false);
                }
            }
            return None;
        },
    };
    proof {
        if wit {
            assert(s@.subrange(i4 as int, n) =~= s@.subrange(i4 as int, i5 as int) + s@.subrange(
                i5 as int,
                n,
            ));
            crate::wire::lemma_prefix_cancel(l3, s@.subrange(i5 as int, n), t3b);
        }
    }
    let (name, i6) = match parse_string(s, i5) {
        Some(p) => p,
        None => {
            proof {
                if wit {
                    let jq = i5 + escape(req0.name@).len() + 1;
                    assert(s@.subrange(i5 as int, jq as int) =~= escape(req0.name@) + seq![34u8]);
                    assert(crate::wire::has_string_at(s@, i5 as int));
                    assert(false);
                }
            }
            return None;
        },
    };
    proof {
        if wit {
            assert(s@.subrange(i5 as int, n) =~= s@.subrange(i5 as int, i6 as int) + s@.subrange(
                i6 as int,
                n,
            ));
            crate::wire::lemma_escape_quote_cancel(
                name@,
                req0.name@,
                s@.subrange(i6 as int, n),
                t4,
            );
        }
    }
    let i7 = match match_lit(s, i6, "}") {
        Some(j) => j,
        None => {
            proof {
                if wit {
                    assert(s@.subrange(i6 as int, i6 + t4.len() as int) =~= t4);
                    assert(false);
                }
            }
            return None;
        },
    };
    if i7 != s.len() {
        proof {
            if wit {
                assert(n - i6 == t4.len());
                assert(false);
            }
        }
        return None;
    }
    let req = WalletSetRequest { idempotency_key: ik, entity_secret_cipher_text: cipher, name };
    proof {
        lemma_uuid_chars_plain(req.idempotency_key@);
        lemma_escape_plain(uuid_chars(req.idempotency_key@));
        assert(s@ =~= s@.subrange(0, i1 as int) + s@.subrange(i1 as int, i2 as int) + s@.subrange(
            i2 as int,
            i3 as int,
        ) + s@.subrange(i3 as int, i4 as int) + s@.subrange(i4 as int, i5 as int) + s@.subrange(
            i5 as int,
            i6 as int,
        ) + s@.subrange(i6 as int, i7 as int));
        assert(s@ =~= wallet_set_request_json(
            req.idempotency_key@,
            req.entity_secret_cipher_text@,
            req.name@,
        ));
    }
    Some(req)
}

/// Round trip of the wallet-set envelope: the wire body determines every
/// field, so whatever request a mirrored body parses back to is the request
/// it was serialized from — no field's value is lost on the wire.
#[verifier::rlimit(80)]
pub proof fn lemma_wallet_set_request_json_injective(
    ik1: Seq<u8>,
    c1: Seq<u8>,
    n1: Seq<u8>,
    ik2: Seq<u8>,
    c2: Seq<u8>,
    n2: Seq<u8>,
)
    requires
        ik1.len() == 16,
        ik2.len() == 16,
        wallet_set_request_json(ik1, c1, n1) == wallet_set_request_json(ik2, c2, n2),
    ensures
        ik1 == ik2,
        c1 == c2,
        n1 == n2,
{
    let l1 = "{\"idempotencyKey\":\"".spec_bytes();
    let l2 = ",\"entitySecretCipherText\":\"".spec_bytes();
    let l3 = ",\"name\":\"".spec_bytes();
    let l4 = "}".spec_bytes();
    let r1b = l3 + (escape(n1) + seq![34u8] + l4);
    let r2b = l3 + (escape(n2) + seq![34u8] + l4);
    let r1 = l2 + (escape(c1) + seq![34u8] + r1b);
    let r2 = l2 + (escape(c2) + seq![34u8] + r2b);
    assert(wallet_set_request_json(ik1, c1, n1) =~= l1 + (escape(uuid_chars(ik1)) + seq![34u8]
        + r1));
    assert(wallet_set_request_json(ik2, c2, n2) =~= l1 + (escape(uuid_chars(ik2)) + seq![34u8]
        + r2));
    crate::wire::lemma_prefix_cancel(
        l1,
        escape(uuid_chars(ik1)) + seq![34u8] + r1,
        escape(uuid_chars(ik2)) + seq![34u8] + r2,
    );
    crate::wire::lemma_escape_quote_cancel(uuid_chars(ik1), uuid_chars(ik2), r1, r2);
    crate::ids::lemma_uuid_chars_injective(ik1, ik2);
    crate::wire::lemma_prefix_cancel(
        l2,
        escape(c1) + seq![34u8] + r1b,
        escape(c2) + seq![34u8] + r2b,
    );
    crate::wire::lemma_escape_quote_cancel(c1, c2, r1b, r2b);
    crate::wire::lemma_prefix_cancel(l3, escape(n1) + seq![34u8] + l4, escape(n2) + seq![34u8] + l4);
    crate::wire::lemma_escape_quote_cancel(n1, n2, l4, l4);
}

/// The exact wire body of a successful wallet-set creation response.
pub open spec fn wallet_set_response_json(r: WalletSetResponse) -> Seq<u8> {
    "{\"data\":{\"walletSet\":{\"id\":\"".spec_bytes() + jstr_end(uuid_chars(r.id@))
        + ",\"custodyType\":\"".spec_bytes() + jstr_end(r.custody_type@)
        + ",\"name\":\"".spec_bytes() + jstr_end(r.name@) + ",\"updateDate\":\"".spec_bytes()
        + jstr_end(ts_chars(r.update_date)) + ",\"createDate\":\"".spec_bytes() + jstr_end(
        ts_chars(r.create_date),
    ) + "}}}".spec_bytes()
}

/// `s` is the body of a well-formed wallet-set creation response.
pub open spec fn is_wallet_set_response_body(s: Seq<u8>) -> bool {
    exists|resp: WalletSetResponse| resp.valid() && s == wallet_set_response_json(resp)
}

/// Round trip of the wallet-set payload: the response body determines every
/// field of the record, identifier, strings and both timestamps alike.
#[verifier::rlimit(100)]
pub proof fn lemma_wallet_set_response_json_injective(r1: WalletSetResponse, r2: WalletSetResponse)
    requires
        r1.valid(),
        r2.valid(),
        wallet_set_response_json(r1) == wallet_set_response_json(r2),
    ensures
        r1.id@ == r2.id@,
        r1.custody_type@ == r2.custody_type@,
        r1.name@ == r2.name@,
        r1.update_date == r2.update_date,
        r1.create_date == r2.create_date,
{
    let l1 = "{\"data\":{\"walletSet\":{\"id\":\"".spec_bytes();
    let l2 = ",\"custodyType\":\"".spec_bytes();
    let l3 = ",\"name\":\"".spec_bytes();
    let l4 = ",\"updateDate\":\"".spec_bytes();
    let l5 = ",\"createDate\":\"".spec_bytes();
    let l6 = "}}}".spec_bytes();
    let u1 = l5 + (escape(ts_chars(r1.create_date)) + seq![34u8] + l6);
    let u2 = l5 + (escape(ts_chars(r2.create_date)) + seq![34u8] + l6);
    let v1 = l4 + (escape(ts_chars(r1.update_date)) + seq![34u8] + u1);
    let v2 = l4 + (escape(ts_chars(r2.update_date)) + seq![34u8] + u2);
    let w1 = l3 + (escape(r1.name@) + seq![34u8] + v1);
    let w2 = l3 + (escape(r2.name@) + seq![34u8] + v2);
    let x1 = l2 + (escape(r1.custody_type@) + seq![34u8] + w1);
    let x2 = l2 + (escape(r2.custody_type@) + seq![34u8] + w2);
    lemma_ws_response_unfold(r1, wallet_set_response_json(r1));
    lemma_ws_response_unfold(r2, wallet_set_response_json(r2));
    assert(wallet_set_response_json(r1) == l1 + (escape(uuid_chars(r1.id@)) + seq![34u8] + x1));
    assert(wallet_set_response_json(r2) == l1 + (escape(uuid_chars(r2.id@)) + seq![34u8] + x2));
    crate::wire::lemma_prefix_cancel(
        l1,
        escape(uuid_chars(r1.id@)) + seq![34u8] + x1,
        escape(uuid_chars(r2.id@)) + seq![34u8] + x2,
    );
    crate::wire::lemma_escape_quote_cancel(uuid_chars(r1.id@), uuid_chars(r2.id@), x1, x2);
    crate::ids::lemma_uuid_chars_injective(r1.id@, r2.id@);
    crate::wire::lemma_prefix_cancel(
        l2,
        escape(r1.custody_type@) + seq![34u8] + w1,
        escape(r2.custody_type@) + seq![34u8] + w2,
    );
    crate::wire::lemma_escape_quote_cancel(r1.custody_type@, r2.custody_type@, w1, w2);
    crate::wire::lemma_prefix_cancel(
        l3,
        escape(r1.name@) + seq![34u8] + v1,
        escape(r2.name@) + seq![34u8] + v2,
    );
    crate::wire::lemma_escape_quote_cancel(r1.name@, r2.name@, v1, v2);
    crate::wire::lemma_prefix_cancel(
        l4,
        escape(ts_chars(r1.update_date)) + seq![34u8] + u1,
        escape(ts_chars(r2.update_date)) + seq![34u8] + u2,
    );
    crate::wire::lemma_escape_quote_cancel(ts_chars(r1.update_date), ts_chars(r2.update_date), u1, u2);
    crate::timestamp::lemma_ts_chars_injective(r1.update_date, r2.update_date);
    crate::wire::lemma_prefix_cancel(
        l5,
        escape(ts_chars(r1.create_date)) + seq![34u8] + l6,
        escape(ts_chars(r2.create_date)) + seq![34u8] + l6,
    );
    crate::wire::lemma_escape_quote_cancel(ts_chars(r1.create_date), ts_chars(r2.create_date), l6, l6);
    crate::timestamp::lemma_ts_chars_injective(r1.create_date, r2.create_date);
}

/// The response body of a wallet-set creation, regrouped around each field.
#[verifier::rlimit(60)]
proof fn lemma_ws_response_unfold(resp: WalletSetResponse, s: Seq<u8>)
    requires
        s == wallet_set_response_json(resp),
    ensures
        s == "{\"data\":{\"walletSet\":{\"id\":\"".spec_bytes() + (jstr_end(uuid_chars(resp.id@))
            + (",\"custodyType\":\"".spec_bytes() + (jstr_end(resp.custody_type@)
            + (",\"name\":\"".spec_bytes() + (jstr_end(resp.name@)
            + (",\"updateDate\":\"".spec_bytes() + (jstr_end(ts_chars(resp.update_date))
            + (",\"createDate\":\"".spec_bytes() + (jstr_end(ts_chars(resp.create_date))
            + "}}}".spec_bytes()))))))))),
{
    assert(wallet_set_response_json(resp) =~= "{\"data\":{\"walletSet\":{\"id\":\"".spec_bytes() + (
    jstr_end(uuid_chars(resp.id@)) + (",\"custodyType\":\"".spec_bytes() + (jstr_end(
        resp.custody_type@,
    ) + (",\"name\":\"".spec_bytes() + (jstr_end(resp.name@)
        + (",\"updateDate\":\"".spec_bytes() + (jstr_end(ts_chars(resp.update_date))
        + (",\"createDate\":\"".spec_bytes() + (jstr_end(ts_chars(resp.create_date))
        + "}}}".spec_bytes()))))))))));
}

/// Parse the body of a successful wallet-set creation response. Succeeds
/// exactly on well-formed bodies.
#[verifier::rlimit(100)]
pub fn parse_wallet_set_response_body(s: &[u8]) -> (r: Option<WalletSetResponse>)
    ensures
        r matches Some(resp) ==> resp.valid() && s@ == wallet_set_response_json(resp),
        r is None ==> !is_wallet_set_response_body(s@),
{
    let ghost wit = is_wallet_set_response_body(s@);
    let ghost resp0 = choose|resp: WalletSetResponse|
        resp.valid() && s@ == wallet_set_response_json(resp);
    let ghost l1 = "{\"data\":{\"walletSet\":{\"id\":\"".spec_bytes();
    let ghost l2 = ",\"custodyType\":\"".spec_bytes();
    let ghost l3 = ",\"name\":\"".spec_bytes();
    let ghost l4 = ",\"updateDate\":\"".spec_bytes();
    let ghost l5 = ",\"createDate\":\"".spec_bytes();
    let ghost t6 = "}}}".spec_bytes();
    let ghost t5b = jstr_end(ts_chars(resp0.create_date)) + t6;
    let ghost t5 = l5 + t5b;
    let ghost t4b = jstr_end(ts_chars(resp0.update_date)) + t5;
    let ghost t4 = l4 + t4b;
    let ghost t3b = jstr_end(resp0.name@) + t4;
    let ghost t3 = l3 + t3b;
    let ghost t2b = jstr_end(resp0.custody_type@) + t3;
    let ghost t2 = l2 + t2b;
    let ghost t1 = jstr_end(uuid_chars(resp0.id@)) + t2;
    let ghost n = s@.len() as int;
    proof {
        if wit {
            lemma_ws_response_unfold(resp0, s@);
            assert(s@ == l1 + t1);
        }
    }
    let i1 = match match_lit(s, 0, "{\"data\":{\"walletSet\":{\"id\":\"") {
        Some(j) => j,
        None => {
            proof {
                if wit {
                    assert(s@.subrange(0, l1.len() as int) =~= l1);
                    assert(false);
                }
            }
            return None;
        },
    };
    proof {
        if wit {
            assert(s@ =~= s@.subrange(0, i1 as int) + s@.subrange(i1 as int, n));
            crate::wire::lemma_prefix_cancel(l1, s@.subrange(i1 as int, n), t1);
        }
    }
    let (id_text, i2) = match parse_string(s, i1) {
        Some(p) => p,
        None => {
            proof {
                if wit {
                    let jq = i1 + escape(uuid_chars(resp0.id@)).len() + 1;
                    assert(s@.subrange(i1 as int, jq as int) =~= escape(uuid_chars(resp0.id@))
                        + seq![34u8]);
                    assert(crate::wire::has_string_at(s@, i1 as int));
                    assert(false);
                }
            }
            return None;
        },
    };
    proof {
        if wit {
            assert(s@.subrange(i1 as int, n) =~= s@.subrange(i1 as int, i2 as int) + s@.subrange(
                i2 as int,
                n,
            ));
            crate::wire::lemma_escape_quote_cancel(
                id_text@,
                uuid_chars(resp0.id@),
                s@.subrange(i2 as int, n),
                t2,
            );
        }
    }
    let id = match UuidValue::parse(id_text.as_slice()) {
        Some(u) => u,
        None => {
            proof {
                if wit {
                    crate::ids::lemma_uuid_text_canonical(resp0.id@);
                    assert(false);
                }
            }
            return None;
        },
    };
    let i3 = match match_lit(s, i2, ",\"custodyType\":\"") {
        Some(j) => j,
        None => {
            proof {
                if wit {
                    assert(s@.subrange(i2 as int, i2 + l2.len() as int) =~= l2);
                    assert(false);
                }
            }
            return None;
        },
    };
    proof {
        if wit {
            assert(s@.subrange(i2 as int, n) =~= s@.subrange(i2 as int, i3 as int) + s@.subrange(
                i3 as int,
                n,
            ));
            crate::wire::lemma_prefix_cancel(l2, s@.subrange(i3 as int, n), t2b);
        }
    }
    let (custody_type, i4) = match parse_string(s, i3) {
        Some(p) => p,
        None => {
            proof {
                if wit {
                    let jq = i3 + escape(resp0.custody_type@).len() + 1;
                    assert(s@.subrange(i3 as int, jq as int) =~= escape(resp0.custody_type@)
                        + seq![34u8]);
                    assert(crate::wire::has_string_at(s@, i3 as int));
                    assert(false);
                }
            }
            return None;
        },
    };
    proof {
        if wit {
            assert(s@.subrange(i3 as int, n) =~= s@.subrange(i3 as int, i4 as int) + s@.subrange(
                i4 as int,
                n,
            ));
            crate::wire::lemma_escape_quote_cancel(
                custody_type@,
                resp0.custody_type@,
                s@.subrange(i4 as int, n),
                t3,
            );
        }
    }
    let i5 = match match_lit(s, i4, ",\"name\":\"") {
        Some(j) => j,
        None => {
            proof {
                if wit {
                    assert(s@.subrange(i4 as int, i4 + l3.len() as int) =~= l3);
                    assert(false);
                }
            }
            return None;
        },
    };
    proof {
        if wit {
            assert(s@.subrange(i4 as int, n) =~= s@.subrange(i4 as int, i5 as int) + s@.subrange(
                i5 as int,
                n,
            ));
            crate::wire::lemma_prefix_cancel(l3, s@.subrange(i5 as int, n), t3b);
        }
    }
    let (name, i6) = match parse_string(s, i5) {
        Some(p) => p,
        None => {
            proof {
                if wit {
                    let jq = i5 + escape(resp0.name@).len() + 1;
                    assert(s@.subrange(i5 as int, jq as int) =~= escape(resp0.name@) + seq![34u8]);
                    assert(crate::wire::has_string_at(s@, i5 as int));
                    assert(false);
                }
            }
            return None;
        },
    };
    proof {
        if wit {
            assert(s@.subrange(i5 as int, n) =~= s@.subrange(i5 as int, i6 as int) + s@.subrange(
                i6 as int,
                n,
            ));
            crate::wire::lemma_escape_quote_cancel(
                name@,
                resp0.name@,
                s@.subrange(i6 as int, n),
                t4,
            );
        }
    }
    let i7 = match match_lit(s, i6, ",\"updateDate\":\"") {
        Some(j) => j,
        None => {
            proof {
                if wit {
                    assert(s@.subrange(i6 as int, i6 + l4.len() as int) =~= l4);
                    assert(false);
                }
            }
            return None;
        },
    };
    proof {
        if wit {
            assert(s@.subrange(i6 as int, n) =~= s@.subrange(i6 as int, i7 as int) + s@.subrange(
                i7 as int,
                n,
            ));
            crate::wire::lemma_prefix_cancel(l4, s@.subrange(i7 as int, n), t4b);
        }
    }
    let (ud_text, i8) = match parse_string(s, i7) {
        Some(p) => p,
        None => {
            proof {
                if wit {
                    let jq = i7 + escape(ts_chars(resp0.update_date)).len() + 1;
                    assert(s@.subrange(i7 as int, jq as int) =~= escape(ts_chars(resp0.update_date))
                        + seq![34u8]);
                    assert(crate::wire::has_string_at(s@, i7 as int));
                    assert(false);
                }
            }
            return None;
        },
    };
    proof {
        if wit {
            assert(s@.subrange(i7 as int, n) =~= s@.subrange(i7 as int, i8 as int) + s@.subrange(
                i8 as int,
                n,
            ));
            crate::wire::lemma_escape_quote_cancel(
                ud_text@,
                ts_chars(resp0.update_date),
                s@.subrange(i8 as int, n),
                t5,
            );
        }
    }
    let update_date = match Timestamp::parse(ud_text.as_slice()) {
        Some(t) => t,
        None => {
            proof {
                if wit {
                    crate::timestamp::lemma_ts_text_canonical(resp0.update_date);
                    assert(false);
                }
            }
            return None;
        },
    };
    let i9 = match match_lit(s, i8, ",\"createDate\":\"") {
        Some(j) => j,
        None => {
            proof {
                if wit {
                    assert(s@.subrange(i8 as int, i8 + l5.len() as int) =~= l5);
                    assert(false);
                }
            }
            return None;
        },
    };
    proof {
        if wit {
            assert(s@.subrange(i8 as int, n) =~= s@.subrange(i8 as int, i9 as int) + s@.subrange(
                i9 as int,
                n,
            ));
            crate::wire::lemma_prefix_cancel(l5, s@.subrange(i9 as int, n), t5b);
        }
    }
    let (cd_text, i10) = match parse_string(s, i9) {
        Some(p) => p,
        None => {
            proof {
                if wit {
                    let jq = i9 + escape(ts_chars(resp0.create_date)).len() + 1;
                    assert(s@.subrange(i9 as int, jq as int) =~= escape(ts_chars(resp0.create_date))
                        + seq![34u8]);
                    assert(crate::wire::has_string_at(s@, i9 as int));
                    assert(false);
                }
            }
            return None;
        },
    };
    proof {
        if wit {
            assert(s@.subrange(i9 as int, n) =~= s@.subrange(i9 as int, i10 as int) + s@.subrange(
                i10 as int,
                n,
            ));
            crate::wire::lemma_escape_quote_cancel(
                cd_text@,
                ts_chars(resp0.create_date),
                s@.subrange(i10 as int, n),
                t6,
            );
        }
    }
    let create_date = match Timestamp::parse(cd_text.as_slice()) {
        Some(t) => t,
        None => {
            proof {
                if wit {
                    crate::timestamp::lemma_ts_text_canonical(resp0.create_date);
                    assert(false);
                }
            }
            return None;
        },
    };
    let i11 = match match_lit(s, i10, "}}}") {
        Some(j) => j,
        None => {
            proof {
                if wit {
                    assert(s@.subrange(i10 as int, i10 + t6.len() as int) =~= t6);
                    assert(false);
                }
            }
            return None;
        },
    };
    if i11 != s.len() {
        proof {
            if wit {
                assert(n - i10 == t6.len());
                assert(false);
            }
        }
        return None;
    }
    let resp = WalletSetResponse { id, custody_type, name, update_date, create_date };
    proof {
        lemma_uuid_chars_plain(resp.id@);
        lemma_escape_plain(uuid_chars(resp.id@));
        lemma_ts_chars_plain(resp.update_date);
        lemma_escape_plain(ts_chars(resp.update_date));
        lemma_ts_chars_plain(resp.create_date);
        lemma_escape_plain(ts_chars(resp.create_date));
        let pre1 = s@.subrange(0, i1 as int);
        let pre2 = pre1 + s@.subrange(i1 as int, i2 as int);
        let pre3 = pre2 + s@.subrange(i2 as int, i3 as int);
        let pre4 = pre3 + s@.subrange(i3 as int, i4 as int);
        let pre5 = pre4 + s@.subrange(i4 as int, i5 as int);
        let pre6 = pre5 + s@.subrange(i5 as int, i6 as int);
        let pre7 = pre6 + s@.subrange(i6 as int, i7 as int);
        let pre8 = pre7 + s@.subrange(i7 as int, i8 as int);
        let pre9 = pre8 + s@.subrange(i8 as int, i9 as int);
        let pre10 = pre9 + s@.subrange(i9 as int, i10 as int);
        let pre11 = pre10 + s@.subrange(i10 as int, i11 as int);
        assert(pre2 =~= s@.subrange(0, i2 as int));
        assert(pre3 =~= s@.subrange(0, i3 as int));
        assert(pre4 =~= s@.subrange(0, i4 as int));
        assert(pre5 =~= s@.subrange(0, i5 as int));
        assert(pre6 =~= s@.subrange(0, i6 as int));
        assert(pre7 =~= s@.subrange(0, i7 as int));
        assert(pre8 =~= s@.subrange(0, i8 as int));
        assert(pre9 =~= s@.subrange(0, i9 as int));
        assert(pre10 =~= s@.subrange(0, i10 as int));
        assert(pre11 =~= s@.subrange(0, i11 as int));
        assert(s@ =~= pre11);
        assert(s@ == wallet_set_response_json(resp));
    }
    Some(resp)
}

/// Classify a wallet-set creation outcome.
///
/// A non-success status is always reported as a status-code error, never as
/// anything else; only on success is the body read at all, and then a
/// malformed body is the deserialization error.
pub fn parse_wallet_set_response(status: u16, body: &[u8]) -> (r: Result<
    WalletSetResponse,
    CircleError,
>)
    ensures
        !is_success_status(status) ==> r == Err::<WalletSetResponse, CircleError>(
            CircleError::ResponseStatusCodeError(status),
        ),
        is_success_status(status) ==> (match r {
            Ok(resp) => resp.valid() && body@ == wallet_set_response_json(resp),
            Err(e) => e == CircleError::DeserializationError,
        }),
        is_success_status(status) ==> (r is Ok <==> is_wallet_set_response_body(body@)),
{
    if !(200 <= status && status < 300) {
        return Err(CircleError::ResponseStatusCodeError(status));
    }
    match parse_wallet_set_response_body(body) {
        Some(resp) => Ok(resp),
        None => Err(CircleError::DeserializationError),
    }
}

/// The items of a JSON string array: quoted escaped values joined by commas.
/// Each item's opening quote is grouped with the separator before it.
pub open spec fn jstr_items(items: Seq<Seq<u8>>) -> Seq<u8>
    decreases items.len(),
{
    if items.len() == 0 {
        Seq::empty()
    } else if items.len() == 1 {
        seq![34u8] + jstr_end(items[0])
    } else {
        jstr_items(items.drop_last()) + seq![44u8, 34u8] + jstr_end(items.last())
    }
}

/// Append the items of a JSON string array.
pub fn append_jstr_items(out: &mut Vec<u8>, items: &Vec<Vec<u8>>)
    ensures
        final(out)@ == old(out)@ + jstr_items(items.deep_view()),
{
    let ghost ds = items.deep_view();
    let n: usize = items.len();
    let mut i: usize = 0;
    proof {
        assert(ds.len() == n);
        assert(out@ =~= old(out)@ + jstr_items(ds.take(0)));
    }
    while i < n
        invariant
            n == items@.len(),
            ds == items.deep_view(),
            ds.len() == n,
            i <= n,
            out@ == old(out)@ + jstr_items(ds.take(i as int)),
        decreases n - i,
    {
        if i > 0 {
            out.push(44);
        }
        out.push(34);
        append_escaped(out, items[i].as_slice());
        out.push(34);
        proof {
            assert(ds[i as int] == items@[i as int]@);
            assert(ds.take((i + 1) as int).last() == ds[i as int]);
            if i == 0 {
                assert(jstr_items(ds.take(1)) == seq![34u8] + jstr_end(ds[0]));
            } else {
                assert(ds.take((i + 1) as int).drop_last() =~= ds.take(i as int));
                assert(jstr_items(ds.take((i + 1) as int)) == jstr_items(ds.take(i as int)) + seq![
                    44u8,
                    34u8,
                ] + jstr_end(ds[i as int]));
            }
            assert(out@ =~= old(out)@ + jstr_items(ds.take((i + 1) as int)));
        }
        i = i + 1;
    }
    proof {
        assert(ds.take(n as int) =~= ds);
    }
}

/// The exact wire body of a wallet creation request.
pub open spec fn wallet_create_request_json(
    ik: Seq<u8>,
    cipher: Seq<u8>,
    wsid: Seq<u8>,
    chains: Seq<Seq<u8>>,
    count: nat,
) -> Seq<u8> {
    "{\"idempotencyKey\":\"".spec_bytes() + jstr_end(uuid_chars(ik))
        + ",\"entitySecretCipherText\":\"".spec_bytes() + jstr_end(cipher)
        + ",\"walletSetId\":\"".spec_bytes() + jstr_end(uuid_chars(wsid))
        + ",\"blockchains\":[".spec_bytes() + jstr_items(chains) + "],\"count\":".spec_bytes()
        + crate::wire::dec_str_of(count) + "}".spec_bytes()
}

/// Serialize a wallet creation request from its parts.
pub fn build_wallet_create_request_body(
    idempotency_key: &UuidValue,
    cipher: &Vec<u8>,
    wallet_set_id: &UuidValue,
    blockchains: &Vec<Vec<u8>>,
    count: u32,
) -> (r: Vec<u8>)
    requires
        idempotency_key@.len() == 16,
        wallet_set_id@.len() == 16,
    ensures
        r@ == wallet_create_request_json(
            idempotency_key@,
            cipher@,
            wallet_set_id@,
            blockchains.deep_view(),
            count as nat,
        ),
{
    let mut out: Vec<u8> = Vec::new();
    append_lit(&mut out, "{\"idempotencyKey\":\"");
    let ik_text = idempotency_key.to_hyphenated();
    append_bytes(&mut out, ik_text.as_slice());
    out.push(34);
    append_lit(&mut out, ",\"entitySecretCipherText\":\"");
    append_escaped(&mut out, cipher.as_slice());
    out.push(34);
    append_lit(&mut out, ",\"walletSetId\":\"");
    let ws_text = wallet_set_id.to_hyphenated();
    append_bytes(&mut out, ws_text.as_slice());
    out.push(34);
    append_lit(&mut out, ",\"blockchains\":[");
    append_jstr_items(&mut out, blockchains);
    append_lit(&mut out, "],\"count\":");
    crate::wire::append_u32(&mut out, count);
    append_lit(&mut out, "}");
    proof {
        lemma_uuid_chars_plain(idempotency_key@);
        lemma_escape_plain(uuid_chars(idempotency_key@));
        lemma_uuid_chars_plain(wallet_set_id@);
        lemma_escape_plain(uuid_chars(wallet_set_id@));
        assert(out@ =~= wallet_create_request_json(
            idempotency_key@,
            cipher@,
            wallet_set_id@,
            blockchains.deep_view(),
            count as nat,
        ));
    }
    out
}

fn parse_jstr_items(s: &[u8], i: usize) -> (r: Option<(Vec<Vec<u8>>, usize)>)
    requires
        i <= s@.len(),
    ensures
        r matches Some((items, j)) ==> i <= j <= s@.len() && s@.subrange(i as int, j as int)
            == jstr_items(items.deep_view()),
{
    let n: usize = s.len();
    let mut items: Vec<Vec<u8>> = Vec::new();
    if i < n && s[i] == 93 {
        proof {
            assert(s@.subrange(i as int, i as int) =~= jstr_items(items.deep_view()));
        }
        return Some((items, i));
    }
    let mut pos: usize = i;
    loop
        invariant
            i <= pos <= n,
            n == s@.len(),
            items.deep_view().len() == 0 ==> pos == i,
            items.deep_view().len() > 0 ==> s@.subrange(i as int, pos as int) == jstr_items(
                items.deep_view(),
            ) + seq![44u8],
        decreases n - pos,
    {
        if !(pos < n && s[pos] == 34) {
            return None;
        }
        let (v, p2) = match parse_string(s, pos + 1) {
            Some(p) => p,
            None => {
                return None;
            },
        };
        let ghost prev = items.deep_view();
        items.push(v);
        proof {
            assert(items.deep_view() =~~= prev.push(v@));
            assert(items.deep_view().last() == v@);
            assert(s@.subrange(pos as int, p2 as int) =~= seq![34u8] + (escape(v@) + seq![34u8]));
            if prev.len() == 0 {
                assert(jstr_items(items.deep_view()) == seq![34u8] + jstr_end(v@));
                assert(s@.subrange(i as int, p2 as int) =~= jstr_items(items.deep_view()));
            } else {
                assert(items.deep_view().drop_last() =~= prev);
                assert(jstr_items(items.deep_view()) == jstr_items(prev) + seq![44u8, 34u8]
                    + jstr_end(v@));
                assert(s@.subrange(i as int, p2 as int) =~= (jstr_items(prev) + seq![44u8])
                    + s@.subrange(pos as int, p2 as int));
                assert(s@.subrange(i as int, p2 as int) =~= jstr_items(items.deep_view()));
            }
        }
        if p2 < n && s[p2] == 93 {
            return Some((items, p2));
        }
        if p2 < n && s[p2] == 44 {
            proof {
                assert(s@.subrange(i as int, (p2 + 1) as int) =~= s@.subrange(i as int, p2 as int)
                    + seq![44u8]);
            }
            pos = p2 + 1;
        } else {
            return None;
        }
    }
}

/// Parse a wallet creation request body, the exact mirror of
/// `build_wallet_create_request_body`: a successful parse re-serializes to
/// the input byte for byte, the per-chain count included.
#[verifier::rlimit(80)]
pub fn parse_wallet_create_request(s: &[u8]) -> (r: Option<WalletCreateRequest>)
    ensures
        r matches Some(req) ==> req.idempotency_key@.len() == 16 && req.wallet_set_id@.len() == 16
            && s@ == wallet_create_request_json(
            req.idempotency_key@,
            req.entity_secret_cipher_text@,
            req.wallet_set_id@,
            req.blockchains.deep_view(),
            req.count as nat,
        ),
{
    let i1 = match match_lit(s, 0, "{\"idempotencyKey\":\"") {
        Some(j) => j,
        None => {
            return None;
        },
    };
    let (ik_text, i2) = match parse_string(s, i1) {
        Some(p) => p,
        None => {
            return None;
        },
    };
    let ik = match UuidValue::parse(ik_text.as_slice()) {
        Some(u) => u,
        None => {
            return None;
        },
    };
    let i3 = match match_lit(s, i2, ",\"entitySecretCipherText\":\"") {
        Some(j) => j,
        None => {
            return None;
        },
    };
    let (cipher, i4) = match parse_string(s, i3) {
        Some(p) => p,
        None => {
            return None;
        },
    };
    let i5 = match match_lit(s, i4, ",\"walletSetId\":\"") {
        Some(j) => j,
        None => {
            return None;
        },
    };
    let (ws_text, i6) = match parse_string(s, i5) {
        Some(p) => p,
        None => {
            return None;
        },
    };
    let wsid = match UuidValue::parse(ws_text.as_slice()) {
        Some(u) => u,
        None => {
            return None;
        },
    };
    let i7 = match match_lit(s, i6, ",\"blockchains\":[") {
        Some(j) => j,
        None => {
            return None;
        },
    };
    let (blockchains, i8) = match parse_jstr_items(s, i7) {
        Some(p) => p,
        None => {
            return None;
        },
    };
    let i9 = match match_lit(s, i8, "],\"count\":") {
        Some(j) => j,
        None => {
            return None;
        },
    };
    let (count, i10) = match crate::wire::parse_u32(s, i9) {
        Some(p) => p,
        None => {
            return None;
        },
    };
    let i11 = match match_lit(s, i10, "}") {
        Some(j) => j,
        None => {
            return None;
        },
    };
    if i11 != s.len() {
        return None;
    }
    let req = WalletCreateRequest {
        idempotency_key: ik,
        entity_secret_cipher_text: cipher,
        wallet_set_id: wsid,
        blockchains,
        count,
    };
    proof {
        lemma_uuid_chars_plain(req.idempotency_key@);
        lemma_escape_plain(uuid_chars(req.idempotency_key@));
        lemma_uuid_chars_plain(req.wallet_set_id@);
        lemma_escape_plain(uuid_chars(req.wallet_set_id@));
        let pre1 = s@.subrange(0, i1 as int);
        let pre2 = pre1 + s@.subrange(i1 as int, i2 as int);
        let pre3 = pre2 + s@.subrange(i2 as int, i3 as int);
        let pre4 = pre3 + s@.subrange(i3 as int, i4 as int);
        let pre5 = pre4 + s@.subrange(i4 as int, i5 as int);
        let pre6 = pre5 + s@.subrange(i5 as int, i6 as int);
        let pre7 = pre6 + s@.subrange(i6 as int, i7 as int);
        let pre8 = pre7 + s@.subrange(i7 as int, i8 as int);
        let pre9 = pre8 + s@.subrange(i8 as int, i9 as int);
        let pre10 = pre9 + s@.subrange(i9 as int, i10 as int);
        let pre11 = pre10 + s@.subrange(i10 as int, i11 as int);
        assert(pre2 =~= s@.subrange(0, i2 as int));
        assert(pre3 =~= s@.subrange(0, i3 as int));
        assert(pre4 =~= s@.subrange(0, i4 as int));
        assert(pre5 =~= s@.subrange(0, i5 as int));
        assert(pre6 =~= s@.subrange(0, i6 as int));
        assert(pre7 =~= s@.subrange(0, i7 as int));
        assert(pre8 =~= s@.subrange(0, i8 as int));
        assert(pre9 =~= s@.subrange(0, i9 as int));
        assert(pre10 =~= s@.subrange(0, i10 as int));
        assert(pre11 =~= s@.subrange(0, i11 as int));
        assert(s@ =~= pre11);
        assert(s@ == wallet_create_request_json(
            req.idempotency_key@,
            req.entity_secret_cipher_text@,
            req.wallet_set_id@,
            req.blockchains.deep_view(),
            req.count as nat,
        ));
    }
    Some(req)
}

/// The exact wire form of one wallet record.
pub open spec fn wallet_json(w: Wallet) -> Seq<u8> {
    "{\"id\":\"".spec_bytes() + jstr_end(uuid_chars(w.id@)) + ",\"blockchain\":\"".spec_bytes()
        + jstr_end(w.blockchain@) + ",\"address\":\"".spec_bytes() + jstr_end(w.address@)
        + "}".spec_bytes()
}

/// The wire form of a run of wallet records, joined by commas.
pub open spec fn wallets_json(ws: Seq<Wallet>) -> Seq<u8>
    decreases ws.len(),
{
    if ws.len() == 0 {
        Seq::empty()
    } else if ws.len() == 1 {
        wallet_json(ws[0])
    } else {
        wallets_json(ws.drop_last()) + seq![44u8] + wallet_json(ws.last())
    }
}

/// The exact wire body of a successful wallet creation response.
pub open spec fn wallet_create_response_json(ws: Seq<Wallet>) -> Seq<u8> {
    "{\"data\":{\"wallets\":[".spec_bytes() + wallets_json(ws) + "]}}".spec_bytes()
}

fn parse_wallet_at(s: &[u8], i: usize) -> (r: Option<(Wallet, usize)>)
    requires
        i <= s@.len(),
    ensures
        r matches Some((w, j)) ==> i < j <= s@.len() && w.valid() && s@.subrange(i as int, j as int)
            == wallet_json(w),
{
    let i1 = match match_lit(s, i, "{\"id\":\"") {
        Some(j) => j,
        None => {
            return None;
        },
    };
    let (id_text, i2) = match parse_string(s, i1) {
        Some(p) => p,
        None => {
            return None;
        },
    };
    let id = match UuidValue::parse(id_text.as_slice()) {
        Some(u) => u,
        None => {
            return None;
        },
    };
    let i3 = match match_lit(s, i2, ",\"blockchain\":\"") {
        Some(j) => j,
        None => {
            return None;
        },
    };
    let (blockchain, i4) = match parse_string(s, i3) {
        Some(p) => p,
        None => {
            return None;
        },
    };
    let i5 = match match_lit(s, i4, ",\"address\":\"") {
        Some(j) => j,
        None => {
            return None;
        },
    };
    let (address, i6) = match parse_string(s, i5) {
        Some(p) => p,
        None => {
            return None;
        },
    };
    let i7 = match match_lit(s, i6, "}") {
        Some(j) => j,
        None => {
            return None;
        },
    };
    let w = Wallet { id, blockchain, address };
    proof {
        lemma_uuid_chars_plain(w.id@);
        lemma_escape_plain(uuid_chars(w.id@));
        let pre1 = s@.subrange(i as int, i1 as int);
        let pre2 = pre1 + s@.subrange(i1 as int, i2 as int);
        let pre3 = pre2 + s@.subrange(i2 as int, i3 as int);
        let pre4 = pre3 + s@.subrange(i3 as int, i4 as int);
        let pre5 = pre4 + s@.subrange(i4 as int, i5 as int);
        let pre6 = pre5 + s@.subrange(i5 as int, i6 as int);
        let pre7 = pre6 + s@.subrange(i6 as int, i7 as int);
        assert(pre2 =~= s@.subrange(i as int, i2 as int));
        assert(pre3 =~= s@.subrange(i as int, i3 as int));
        assert(pre4 =~= s@.subrange(i as int, i4 as int));
        assert(pre5 =~= s@.subrange(i as int, i5 as int));
        assert(pre6 =~= s@.subrange(i as int, i6 as int));
        assert(pre7 =~= s@.subrange(i as int, i7 as int));
        assert(s@.subrange(i as int, i7 as int) == wallet_json(w));
    }
    Some((w, i7))
}

fn parse_wallets(s: &[u8], i: usize) -> (r: Option<(Vec<Wallet>, usize)>)
    requires
        i <= s@.len(),
    ensures
        r matches Some((ws, j)) ==> i <= j <= s@.len() && s@.subrange(i as int, j as int)
            == wallets_json(ws@) && (forall|k: int| 0 <= k < ws@.len() ==> ws@[k].valid()),
{
    let n: usize = s.len();
    let mut ws: Vec<Wallet> = Vec::new();
    if i < n && s[i] == 93 {
        proof {
            assert(s@.subrange(i as int, i as int) =~= wallets_json(ws@));
        }
        return Some((ws, i));
    }
    let mut pos: usize = i;
    loop
        invariant
            i <= pos <= n,
            n == s@.len(),
            forall|k: int| 0 <= k < ws@.len() ==> ws@[k].valid(),
            ws@.len() == 0 ==> pos == i,
            ws@.len() > 0 ==> s@.subrange(i as int, pos as int) == wallets_json(ws@) + seq![44u8],
        decreases n - pos,
    {
        let (w, p2) = match parse_wallet_at(s, pos) {
            Some(p) => p,
            None => {
                return None;
            },
        };
        let ghost prev = ws@;
        ws.push(w);
        proof {
            if prev.len() == 0 {
                assert(wallets_json(ws@) == wallet_json(w));
                assert(s@.subrange(i as int, p2 as int) =~= wallets_json(ws@));
            } else {
                assert(ws@.drop_last() =~= prev);
                assert(ws@.last() == w);
                assert(wallets_json(ws@) == wallets_json(prev) + seq![44u8] + wallet_json(w));
                assert(s@.subrange(i as int, p2 as int) =~= (wallets_json(prev) + seq![44u8])
                    + wallet_json(w));
                assert(s@.subrange(i as int, p2 as int) =~= wallets_json(ws@));
            }
        }
        if p2 < n && s[p2] == 93 {
            return Some((ws, p2));
        }
        if p2 < n && s[p2] == 44 {
            proof {
                assert(s@.subrange(i as int, (p2 + 1) as int) =~= s@.subrange(i as int, p2 as int)
                    + seq![44u8]);
            }
            pos = p2 + 1;
        } else {
            return None;
        }
    }
}

/// Parse the body of a successful wallet creation response.
pub fn parse_wallet_create_response_body(s: &[u8]) -> (r: Option<WalletCreateResponse>)
    ensures
        r matches Some(resp) ==> s@ == wallet_create_response_json(resp.wallets@) && (forall|k: int|
            0 <= k < resp.wallets@.len() ==> resp.wallets@[k].valid()),
{
    let i1 = match match_lit(s, 0, "{\"data\":{\"wallets\":[") {
        Some(j) => j,
        None => {
            return None;
        },
    };
    let (wallets, i2) = match parse_wallets(s, i1) {
        Some(p) => p,
        None => {
            return None;
        },
    };
    let i3 = match match_lit(s, i2, "]}}") {
        Some(j) => j,
        None => {
            return None;
        },
    };
    if i3 != s.len() {
        return None;
    }
    proof {
        assert(s@ =~= s@.subrange(0, i1 as int) + s@.subrange(i1 as int, i2 as int) + s@.subrange(
            i2 as int,
            i3 as int,
        ));
        assert(s@ == wallet_create_response_json(wallets@));
    }
    Some(WalletCreateResponse { wallets })
}

/// Classify a wallet creation outcome, as `parse_wallet_set_response` does.
pub fn parse_wallet_create_response(status: u16, body: &[u8]) -> (r: Result<
    WalletCreateResponse,
    CircleError,
>)
    ensures
        !is_success_status(status) ==> r == Err::<WalletCreateResponse, CircleError>(
            CircleError::ResponseStatusCodeError(status),
        ),
        is_success_status(status) ==> (match r {
            Ok(resp) => body@ == wallet_create_response_json(resp.wallets@),
            Err(e) => e == CircleError::DeserializationError,
        }),
{
    if !(200 <= status && status < 300) {
        return Err(CircleError::ResponseStatusCodeError(status));
    }
    match parse_wallet_create_response_body(body) {
        Some(resp) => Ok(resp),
        None => Err(CircleError::DeserializationError),
    }
}

/// The exact wire form of one balance record.
pub open spec fn token_balance_json(b: TokenBalance) -> Seq<u8> {
    "{\"tokenId\":\"".spec_bytes() + jstr_end(uuid_chars(b.token_id@))
        + ",\"amount\":\"".spec_bytes() + jstr_end(b.amount@) + "}".spec_bytes()
}

/// The wire form of a run of balance records, joined by commas.
pub open spec fn token_balances_json(bs: Seq<TokenBalance>) -> Seq<u8>
    decreases bs.len(),
{
    if bs.len() == 0 {
        Seq::empty()
    } else if bs.len() == 1 {
        token_balance_json(bs[0])
    } else {
        token_balances_json(bs.drop_last()) + seq![44u8] + token_balance_json(bs.last())
    }
}

/// The exact wire body of a successful balance query response.
pub open spec fn wallet_balance_response_json(bs: Seq<TokenBalance>) -> Seq<u8> {
    "{\"data\":{\"tokenBalances\":[".spec_bytes() + token_balances_json(bs) + "]}}".spec_bytes()
}

fn parse_token_balance_at(s: &[u8], i: usize) -> (r: Option<(TokenBalance, usize)>)
    requires
        i <= s@.len(),
    ensures
        r matches Some((b, j)) ==> i < j <= s@.len() && b.valid() && s@.subrange(i as int, j as int)
            == token_balance_json(b),
{
    let i1 = match match_lit(s, i, "{\"tokenId\":\"") {
        Some(j) => j,
        None => {
            return None;
        },
    };
    let (tid_text, i2) = match parse_string(s, i1) {
        Some(p) => p,
        None => {
            return None;
        },
    };
    let token_id = match UuidValue::parse(tid_text.as_slice()) {
        Some(u) => u,
        None => {
            return None;
        },
    };
    let i3 = match match_lit(s, i2, ",\"amount\":\"") {
        Some(j) => j,
        None => {
            return None;
        },
    };
    let (amount, i4) = match parse_string(s, i3) {
        Some(p) => p,
        None => {
            return None;
        },
    };
    let i5 = match match_lit(s, i4, "}") {
        Some(j) => j,
        None => {
            return None;
        },
    };
    let b = TokenBalance { token_id, amount };
    proof {
        lemma_uuid_chars_plain(b.token_id@);
        lemma_escape_plain(uuid_chars(b.token_id@));
        let pre1 = s@.subrange(i as int, i1 as int);
        let pre2 = pre1 + s@.subrange(i1 as int, i2 as int);
        let pre3 = pre2 + s@.subrange(i2 as int, i3 as int);
        let pre4 = pre3 + s@.subrange(i3 as int, i4 as int);
        let pre5 = pre4 + s@.subrange(i4 as int, i5 as int);
        assert(pre2 =~= s@.subrange(i as int, i2 as int));
        assert(pre3 =~= s@.subrange(i as int, i3 as int));
        assert(pre4 =~= s@.subrange(i as int, i4 as int));
        assert(pre5 =~= s@.subrange(i as int, i5 as int));
        assert(s@.subrange(i as int, i5 as int) == token_balance_json(b));
    }
    Some((b, i5))
}

fn parse_token_balances(s: &[u8], i: usize) -> (r: Option<(Vec<TokenBalance>, usize)>)
    requires
        i <= s@.len(),
    ensures
        r matches Some((bs, j)) ==> i <= j <= s@.len() && s@.subrange(i as int, j as int)
            == token_balances_json(bs@) && (forall|k: int| 0 <= k < bs@.len() ==> bs@[k].valid()),
{
    let n: usize = s.len();
    let mut bs: Vec<TokenBalance> = Vec::new();
    if i < n && s[i] == 93 {
        proof {
            assert(s@.subrange(i as int, i as int) =~= token_balances_json(bs@));
        }
        return Some((bs, i));
    }
    let mut pos: usize = i;
    loop
        invariant
            i <= pos <= n,
            n == s@.len(),
            forall|k: int| 0 <= k < bs@.len() ==> bs@[k].valid(),
            bs@.len() == 0 ==> pos == i,
            bs@.len() > 0 ==> s@.subrange(i as int, pos as int) == token_balances_json(bs@) + seq![
                44u8,
            ],
        decreases n - pos,
    {
        let (b, p2) = match parse_token_balance_at(s, pos) {
            Some(p) => p,
            None => {
                return None;
            },
        };
        let ghost prev = bs@;
        bs.push(b);
        proof {
            if prev.len() == 0 {
                assert(token_balances_json(bs@) == token_balance_json(b));
                assert(s@.subrange(i as int, p2 as int) =~= token_balances_json(bs@));
            } else {
                assert(bs@.drop_last() =~= prev);
                assert(token_balances_json(bs@) == token_balances_json(prev) + seq![44u8]
                    + token_balance_json(b));
                assert(s@.subrange(i as int, p2 as int) =~= (token_balances_json(prev) + seq![44u8])
                    + token_balance_json(b));
                assert(s@.subrange(i as int, p2 as int) =~= token_balances_json(bs@));
            }
        }
        if p2 < n && s[p2] == 93 {
            return Some((bs, p2));
        }
        if p2 < n && s[p2] == 44 {
            proof {
                assert(s@.subrange(i as int, (p2 + 1) as int) =~= s@.subrange(i as int, p2 as int)
                    + seq![44u8]);
            }
            pos = p2 + 1;
        } else {
            return None;
        }
    }
}

/// Parse the body of a successful balance query response.
pub fn parse_wallet_balance_response_body(s: &[u8]) -> (r: Option<WalletBalanceResponse>)
    ensures
        r matches Some(resp) ==> s@ == wallet_balance_response_json(resp.token_balances@) && (
        forall|k: int| 0 <= k < resp.token_balances@.len() ==> resp.token_balances@[k].valid()),
{
    let i1 = match match_lit(s, 0, "{\"data\":{\"tokenBalances\":[") {
        Some(j) => j,
        None => {
            return None;
        },
    };
    let (token_balances, i2) = match parse_token_balances(s, i1) {
        Some(p) => p,
        None => {
            return None;
        },
    };
    let i3 = match match_lit(s, i2, "]}}") {
        Some(j) => j,
        None => {
            return None;
        },
    };
    if i3 != s.len() {
        return None;
    }
    proof {
        assert(s@ =~= s@.subrange(0, i1 as int) + s@.subrange(i1 as int, i2 as int) + s@.subrange(
            i2 as int,
            i3 as int,
        ));
        assert(s@ == wallet_balance_response_json(token_balances@));
    }
    Some(WalletBalanceResponse { token_balances })
}

/// Classify a balance query outcome, as `parse_wallet_set_response` does.
pub fn parse_wallet_balance_response(status: u16, body: &[u8]) -> (r: Result<
    WalletBalanceResponse,
    CircleError,
>)
    ensures
        !is_success_status(status) ==> r == Err::<WalletBalanceResponse, CircleError>(
            CircleError::ResponseStatusCodeError(status),
        ),
        is_success_status(status) ==> (match r {
            Ok(resp) => body@ == wallet_balance_response_json(resp.token_balances@),
            Err(e) => e == CircleError::DeserializationError,
        }),
{
    if !(200 <= status && status < 300) {
        return Err(CircleError::ResponseStatusCodeError(status));
    }
    match parse_wallet_balance_response_body(body) {
        Some(resp) => Ok(resp),
        None => Err(CircleError::DeserializationError),
    }
}

/// The exact wire body of a transaction initiation request.
pub open spec fn transaction_request_json(
    ik: Seq<u8>,
    cipher: Seq<u8>,
    wallet_id: Seq<u8>,
    dest: Seq<u8>,
    token_id: Seq<u8>,
    amounts: Seq<Seq<u8>>,
) -> Seq<u8> {
    "{\"idempotencyKey\":\"".spec_bytes() + jstr_end(uuid_chars(ik))
        + ",\"entitySecretCipherText\":\"".spec_bytes() + jstr_end(cipher)
        + ",\"walletId\":\"".spec_bytes() + jstr_end(uuid_chars(wallet_id))
        + ",\"destinationAddress\":\"".spec_bytes() + jstr_end(dest) + ",\"tokenId\":\"".spec_bytes()
        + jstr_end(uuid_chars(token_id)) + ",\"amounts\":[".spec_bytes() + jstr_items(amounts)
        + "]}".spec_bytes()
}

/// Serialize a transaction initiation request from its parts.
pub fn build_transaction_request_body(
    idempotency_key: &UuidValue,
    cipher: &Vec<u8>,
    wallet_id: &UuidValue,
    destination_address: &Vec<u8>,
    token_id: &UuidValue,
    amounts: &Vec<Vec<u8>>,
) -> (r: Vec<u8>)
    requires
        idempotency_key@.len() == 16,
        wallet_id@.len() == 16,
        token_id@.len() == 16,
    ensures
        r@ == transaction_request_json(
            idempotency_key@,
            cipher@,
            wallet_id@,
            destination_address@,
            token_id@,
            amounts.deep_view(),
        ),
{
    let mut out: Vec<u8> = Vec::new();
    append_lit(&mut out, "{\"idempotencyKey\":\"");
    let ik_text = idempotency_key.to_hyphenated();
    append_bytes(&mut out, ik_text.as_slice());
    out.push(34);
    append_lit(&mut out, ",\"entitySecretCipherText\":\"");
    append_escaped(&mut out, cipher.as_slice());
    out.push(34);
    append_lit(&mut out, ",\"walletId\":\"");
    let wid_text = wallet_id.to_hyphenated();
    append_bytes(&mut out, wid_text.as_slice());
    out.push(34);
    append_lit(&mut out, ",\"destinationAddress\":\"");
    append_escaped(&mut out, destination_address.as_slice());
    out.push(34);
    append_lit(&mut out, ",\"tokenId\":\"");
    let tid_text = token_id.to_hyphenated();
    append_bytes(&mut out, tid_text.as_slice());
    out.push(34);
    append_lit(&mut out, ",\"amounts\":[");
    append_jstr_items(&mut out, amounts);
    append_lit(&mut out, "]}");
    proof {
        lemma_uuid_chars_plain(idempotency_key@);
        lemma_escape_plain(uuid_chars(idempotency_key@));
        lemma_uuid_chars_plain(wallet_id@);
        lemma_escape_plain(uuid_chars(wallet_id@));
        lemma_uuid_chars_plain(token_id@);
        lemma_escape_plain(uuid_chars(token_id@));
        assert(out@ =~= transaction_request_json(
            idempotency_key@,
            cipher@,
            wallet_id@,
            destination_address@,
            token_id@,
            amounts.deep_view(),
        ));
    }
    out
}

/// The exact wire body of a successful transaction initiation response.
pub open spec fn transaction_response_json(r: TransactionResponse) -> Seq<u8> {
    "{\"data\":{\"transaction\":{\"id\":\"".spec_bytes() + jstr_end(uuid_chars(r.id@))
        + ",\"state\":\"".spec_bytes() + jstr_end(r.state@) + "}}}".spec_bytes()
}

/// Round trip of the transaction payload: the response body determines the
/// record's identifier and state.
pub proof fn lemma_transaction_response_json_injective(r1: TransactionResponse, r2: TransactionResponse)
    requires
        r1.valid(),
        r2.valid(),
        transaction_response_json(r1) == transaction_response_json(r2),
    ensures
        r1.id@ == r2.id@,
        r1.state@ == r2.state@,
{
    let l1 = "{\"data\":{\"transaction\":{\"id\":\"".spec_bytes();
    let l2 = ",\"state\":\"".spec_bytes();
    let l3 = "}}}".spec_bytes();
    let w1 = l2 + (escape(r1.state@) + seq![34u8] + l3);
    let w2 = l2 + (escape(r2.state@) + seq![34u8] + l3);
    assert(transaction_response_json(r1) =~= l1 + (escape(uuid_chars(r1.id@)) + seq![34u8] + w1));
    assert(transaction_response_json(r2) =~= l1 + (escape(uuid_chars(r2.id@)) + seq![34u8] + w2));
    crate::wire::lemma_prefix_cancel(
        l1,
        escape(uuid_chars(r1.id@)) + seq![34u8] + w1,
        escape(uuid_chars(r2.id@)) + seq![34u8] + w2,
    );
    crate::wire::lemma_escape_quote_cancel(uuid_chars(r1.id@), uuid_chars(r2.id@), w1, w2);
    crate::ids::lemma_uuid_chars_injective(r1.id@, r2.id@);
    crate::wire::lemma_prefix_cancel(
        l2,
        escape(r1.state@) + seq![34u8] + l3,
        escape(r2.state@) + seq![34u8] + l3,
    );
    crate::wire::lemma_escape_quote_cancel(r1.state@, r2.state@, l3, l3);
}

/// `s` is the body of a well-formed transaction initiation response.
pub open spec fn is_transaction_response_body(s: Seq<u8>) -> bool {
    exists|resp: TransactionResponse| resp.valid() && s == transaction_response_json(resp)
}

/// Parse the body of a successful transaction initiation response.
/// Succeeds exactly on well-formed bodies.
#[verifier::rlimit(100)]
pub fn parse_transaction_response_body(s: &[u8]) -> (r: Option<TransactionResponse>)
    ensures
        r matches Some(resp) ==> resp.valid() && s@ == transaction_response_json(resp),
        r is None ==> !is_transaction_response_body(s@),
{
    let ghost wit = is_transaction_response_body(s@);
    let ghost resp0 = choose|resp: TransactionResponse|
        resp.valid() && s@ == transaction_response_json(resp);
    let ghost l1 = "{\"data\":{\"transaction\":{\"id\":\"".spec_bytes();
    let ghost l2 = ",\"state\":\"".spec_bytes();
    let ghost t3 = "}}}".spec_bytes();
    let ghost t2b = jstr_end(resp0.state@) + t3;
    let ghost t2 = l2 + t2b;
    let ghost t1 = jstr_end(uuid_chars(resp0.id@)) + t2;
    let ghost n = s@.len() as int;
    proof {
        if wit {
            assert(s@ =~= l1 + t1);
        }
    }
    let i1 = match match_lit(s, 0, "{\"data\":{\"transaction\":{\"id\":\"") {
        Some(j) => j,
        None => {
            proof {
                if wit {
                    assert(s@.subrange(0, l1.len() as int) =~= l1);
                    assert(false);
                }
            }
            return None;
        },
    };
    proof {
        if wit {
            assert(s@ =~= s@.subrange(0, i1 as int) + s@.subrange(i1 as int, n));
            crate::wire::lemma_prefix_cancel(l1, s@.subrange(i1 as int, n), t1);
        }
    }
    let (id_text, i2) = match parse_string(s, i1) {
        Some(p) => p,
        None => {
            proof {
                if wit {
                    let jq = i1 + escape(uuid_chars(resp0.id@)).len() + 1;
                    assert(s@.subrange(i1 as int, jq as int) =~= escape(uuid_chars(resp0.id@))
                        + seq![34u8]);
                    assert(crate::wire::has_string_at(s@, i1 as int));
                    assert(false);
                }
            }
            return None;
        },
    };
    proof {
        if wit {
            assert(s@.subrange(i1 as int, n) =~= s@.subrange(i1 as int, i2 as int) + s@.subrange(
                i2 as int,
                n,
            ));
            crate::wire::lemma_escape_quote_cancel(
                id_text@,
                uuid_chars(resp0.id@),
                s@.subrange(i2 as int, n),
                t2,
            );
        }
    }
    let id = match UuidValue::parse(id_text.as_slice()) {
        Some(u) => u,
        None => {
            proof {
                if wit {
                    crate::ids::lemma_uuid_text_canonical(resp0.id@);
                    assert(false);
                }
            }
            return None;
        },
    };
    let i3 = match match_lit(s, i2, ",\"state\":\"") {
        Some(j) => j,
        None => {
            proof {
                if wit {
                    assert(s@.subrange(i2 as int, i2 + l2.len() as int) =~= l2);
                    assert(false);
                }
            }
            return None;
        },
    };
    proof {
        if wit {
            assert(s@.subrange(i2 as int, n) =~= s@.subrange(i2 as int, i3 as int) + s@.subrange(
                i3 as int,
                n,
            ));
            crate::wire::lemma_prefix_cancel(l2, s@.subrange(i3 as int, n), t2b);
        }
    }
    let (state, i4) = match parse_string(s, i3) {
        Some(p) => p,
        None => {
            proof {
                if wit {
                    let jq = i3 + escape(resp0.state@).len() + 1;
                    assert(s@.subrange(i3 as int, jq as int) =~= escape(resp0.state@) + seq![34u8]);
                    assert(crate::wire::has_string_at(s@, i3 as int));
                    assert(false);
                }
            }
            return None;
        },
    };
    proof {
        if wit {
            assert(s@.subrange(i3 as int, n) =~= s@.subrange(i3 as int, i4 as int) + s@.subrange(
                i4 as int,
                n,
            ));
            crate::wire::lemma_escape_quote_cancel(
                state@,
                resp0.state@,
                s@.subrange(i4 as int, n),
                t3,
            );
        }
    }
    let i5 = match match_lit(s, i4, "}}}") {
        Some(j) => j,
        None => {
            proof {
                if wit {
                    assert(s@.subrange(i4 as int, i4 + t3.len() as int) =~= t3);
                    assert(false);
                }
            }
            return None;
        },
    };
    if i5 != s.len() {
        proof {
            if wit {
                assert(n - i4 == t3.len());
                assert(false);
            }
        }
        return None;
    }
    let resp = TransactionResponse { id, state };
    proof {
        lemma_uuid_chars_plain(resp.id@);
        lemma_escape_plain(uuid_chars(resp.id@));
        let pre1 = s@.subrange(0, i1 as int);
        let pre2 = pre1 + s@.subrange(i1 as int, i2 as int);
        let pre3 = pre2 + s@.subrange(i2 as int, i3 as int);
        let pre4 = pre3 + s@.subrange(i3 as int, i4 as int);
        let pre5 = pre4 + s@.subrange(i4 as int, i5 as int);
        assert(pre2 =~= s@.subrange(0, i2 as int));
        assert(pre3 =~= s@.subrange(0, i3 as int));
        assert(pre4 =~= s@.subrange(0, i4 as int));
        assert(pre5 =~= s@.subrange(0, i5 as int));
        assert(s@ =~= pre5);
        assert(s@ == transaction_response_json(resp));
    }
    Some(resp)
}

/// Classify a transaction initiation outcome, as `parse_wallet_set_response`
/// does.
pub fn parse_transaction_response(status: u16, body: &[u8]) -> (r: Result<
    TransactionResponse,
    CircleError,
>)
    ensures
        !is_success_status(status) ==> r == Err::<TransactionResponse, CircleError>(
            CircleError::ResponseStatusCodeError(status),
        ),
        is_success_status(status) ==> (match r {
            Ok(resp) => resp.valid() && body@ == transaction_response_json(resp),
            Err(e) => e == CircleError::DeserializationError,
        }),
        is_success_status(status) ==> (r is Ok <==> is_transaction_response_body(body@)),
{
    if !(200 <= status && status < 300) {
        return Err(CircleError::ResponseStatusCodeError(status));
    }
    match parse_transaction_response_body(body) {
        Some(resp) => Ok(resp),
        None => Err(CircleError::DeserializationError),
    }
}

/// The exact wire body of the key-discovery response: the PEM text of the
/// service's public key, with its vendor prefix, as a JSON string.
pub open spec fn public_key_response_json(pem: Seq<u8>) -> Seq<u8> {
    "{\"data\":{\"publicKey\":\"".spec_bytes() + jstr_end(pem) + "}}".spec_bytes()
}

/// `s` is the body of a well-formed key-discovery response.
pub open spec fn is_public_key_response_body(s: Seq<u8>) -> bool {
    exists|pem: Seq<u8>| s == public_key_response_json(pem)
}

/// The key envelope determines the PEM text it carries.
pub proof fn lemma_public_key_response_json_injective(p1: Seq<u8>, p2: Seq<u8>)
    requires
        public_key_response_json(p1) == public_key_response_json(p2),
    ensures
        p1 == p2,
{
    let l1 = "{\"data\":{\"publicKey\":\"".spec_bytes();
    let l2 = "}}".spec_bytes();
    assert(public_key_response_json(p1) =~= l1 + (escape(p1) + seq![34u8] + l2));
    assert(public_key_response_json(p2) =~= l1 + (escape(p2) + seq![34u8] + l2));
    crate::wire::lemma_prefix_cancel(l1, escape(p1) + seq![34u8] + l2, escape(p2) + seq![34u8] + l2);
    crate::wire::lemma_escape_quote_cancel(p1, p2, l2, l2);
}

/// Parse the body of a successful key-discovery response. Succeeds exactly
/// on well-formed key envelopes.
pub fn parse_public_key_response_body(s: &[u8]) -> (r: Option<Vec<u8>>)
    ensures
        r matches Some(pem) ==> s@ == public_key_response_json(pem@),
        r is None ==> !is_public_key_response_body(s@),
{
    let ghost wit = is_public_key_response_body(s@);
    let ghost pem0 = choose|pem: Seq<u8>| s@ == public_key_response_json(pem);
    let ghost l1 = "{\"data\":{\"publicKey\":\"".spec_bytes();
    let ghost t2 = "}}".spec_bytes();
    let ghost t1 = jstr_end(pem0) + t2;
    let ghost n = s@.len() as int;
    proof {
        if wit {
            assert(s@ =~= l1 + t1);
        }
    }
    let i1 = match match_lit(s, 0, "{\"data\":{\"publicKey\":\"") {
        Some(j) => j,
        None => {
            proof {
                if wit {
                    assert(s@.subrange(0, l1.len() as int) =~= l1);
                    assert(false);
                }
            }
            return None;
        },
    };
    proof {
        if wit {
            assert(s@ =~= s@.subrange(0, i1 as int) + s@.subrange(i1 as int, n));
            crate::wire::lemma_prefix_cancel(l1, s@.subrange(i1 as int, n), t1);
        }
    }
    let (pem, i2) = match parse_string(s, i1) {
        Some(p) => p,
        None => {
            proof {
                if wit {
                    let jq = i1 + escape(pem0).len() + 1;
                    assert(s@.subrange(i1 as int, jq as int) =~= escape(pem0) + seq![34u8]);
                    assert(crate::wire::has_string_at(s@, i1 as int));
                    assert(false);
                }
            }
            return None;
        },
    };
    proof {
        if wit {
            assert(s@.subrange(i1 as int, n) =~= s@.subrange(i1 as int, i2 as int) + s@.subrange(
                i2 as int,
                n,
            ));
            crate::wire::lemma_escape_quote_cancel(pem@, pem0, s@.subrange(i2 as int, n), t2);
        }
    }
    let i3 = match match_lit(s, i2, "}}") {
        Some(j) => j,
        None => {
            proof {
                if wit {
                    assert(s@.subrange(i2 as int, i2 + t2.len() as int) =~= t2);
                    assert(false);
                }
            }
            return None;
        },
    };
    if i3 != s.len() {
        proof {
            if wit {
                assert(n - i2 == t2.len());
                assert(false);
            }
        }
        return None;
    }
    proof {
        assert(s@ =~= s@.subrange(0, i1 as int) + s@.subrange(i1 as int, i2 as int) + s@.subrange(
            i2 as int,
            i3 as int,
        ));
        assert(s@ == public_key_response_json(pem@));
    }
    Some(pem)
}

} // verus!

