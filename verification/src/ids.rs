use vstd::prelude::*;

use crate::hexcode::{hex_char_of_nibble, hex_digit_value, hex_nibble_char};

verus! {

/// An identifier in UUID form, held as its sixteen raw bytes.
///
/// The wire format is the canonical lowercase hyphenated text
/// (8-4-4-4-12 hex digits); parsing accepts exactly that form.
#[derive(Debug, Clone, PartialEq, Eq)]
pub struct UuidValue {
    bytes: Vec<u8>,
}

impl View for UuidValue {
    type V = Seq<u8>;

    closed spec fn view(&self) -> Seq<u8> {
        self.bytes@
    }
}

/// `p` is one of the four hyphen positions of the hyphenated form.
pub open spec fn is_uuid_hyphen_pos(p: int) -> bool {
    p == 8 || p == 13 || p == 18 || p == 23
}

/// The index among the 32 hex digits of the digit at text position `p`.
pub open spec fn uuid_digit_index(p: int) -> int {
    if p < 8 {
        p
    } else if p < 13 {
        p - 1
    } else if p < 18 {
        p - 2
    } else if p < 23 {
        p - 3
    } else {
        p - 4
    }
}

/// The byte at position `p` of the canonical hyphenated text of `b`.
pub open spec fn uuid_char_at(b: Seq<u8>, p: int) -> u8 {
    if is_uuid_hyphen_pos(p) {
        45u8
    } else {
        let d = uuid_digit_index(p);
        if d % 2 == 0 {
            hex_char_of_nibble((b[d / 2] / 16) as u8)
        } else {
            hex_char_of_nibble((b[d / 2] % 16) as u8)
        }
    }
}

/// The canonical lowercase hyphenated text of the sixteen bytes `b`.
pub open spec fn uuid_chars(b: Seq<u8>) -> Seq<u8> {
    Seq::new(36, |p: int| uuid_char_at(b, p))
}

/// `c` is a lowercase hex digit.
pub open spec fn is_lower_hex(c: u8) -> bool {
    (48 <= c && c <= 57) || (97 <= c && c <= 102)
}

/// What the byte at position `p` of a canonical UUID text must be.
pub open spec fn uuid_text_char_ok(s: Seq<u8>, p: int) -> bool {
    if is_uuid_hyphen_pos(p) {
        s[p] == 45
    } else {
        is_lower_hex(s[p])
    }
}

/// `s` is the canonical lowercase hyphenated text of some sixteen bytes.
pub open spec fn is_uuid_text(s: Seq<u8>) -> bool {
    s.len() == 36 && (forall|p: int| 0 <= p < 36 ==> #[trigger] uuid_text_char_ok(s, p))
}

/// A lowercase hex digit is reproduced by formatting its value.
pub proof fn lemma_lower_hex_roundtrip(c: u8)
    requires
        is_lower_hex(c),
    ensures
        hex_digit_value(c) < 16,
        hex_char_of_nibble(hex_digit_value(c)) == c,
{
}

impl UuidValue {
    /// Wrap sixteen raw bytes; any other length is refused.
    pub fn from_bytes(bytes: Vec<u8>) -> (r: Option<UuidValue>)
        ensures
            r is Some <==> bytes@.len() == 16,
            r matches Some(u) ==> u@ == bytes@,
    {
        if bytes.len() == 16 {
            Some(UuidValue { bytes })
        } else {
            None
        }
    }

    /// The canonical lowercase hyphenated text of this identifier.
    pub fn to_hyphenated(&self) -> (r: Vec<u8>)
        requires
            self@.len() == 16,
        ensures
            r@ == uuid_chars(self@),
    {
        let mut out: Vec<u8> = Vec::new();
        let mut p: usize = 0;
        while p < 36
            invariant
                self@.len() == 16,
                p <= 36,
                out@.len() == p,
                forall|q: int| 0 <= q < p ==> out@[q] == uuid_char_at(self@, q),
            decreases 36 - p,
        {
            if p == 8 || p == 13 || p == 18 || p == 23 {
                out.push(45);
            } else {
                let d: usize = if p < 8 {
                    p
                } else if p < 13 {
                    p - 1
                } else if p < 18 {
                    p - 2
                } else if p < 23 {
                    p - 3
                } else {
                    p - 4
                };
                let byte = self.bytes[d / 2];
                if d % 2 == 0 {
                    out.push(hex_nibble_char(byte / 16));
                } else {
                    out.push(hex_nibble_char(byte % 16));
                }
            }
            p = p + 1;
        }
        proof {
            assert(out@ =~= uuid_chars(self@));
        }
        out
    }

    /// Parse the canonical lowercase hyphenated text of an identifier.
    ///
    /// Succeeds exactly on such texts, and the accepted text is the
    /// canonical form of the returned value.
    pub fn parse(s: &[u8]) -> (r: Option<UuidValue>)
        ensures
            r is Some <==> is_uuid_text(s@),
            r matches Some(u) ==> u@.len() == 16 && s@ == uuid_chars(u@),
    {
        if s.len() != 36 {
            proof {
                if is_uuid_text(s@) {
                    assert(false);
                }
            }
            return None;
        }
        let mut nibbles: Vec<u8> = Vec::new();
        let mut p: usize = 0;
        while p < 36
            invariant
                s@.len() == 36,
                p <= 36,
                nibbles@.len() == p - (if p <= 8 {
                    0int
                } else if p <= 13 {
                    1int
                } else if p <= 18 {
                    2int
                } else if p <= 23 {
                    3int
                } else {
                    4int
                }),
                forall|q: int| 0 <= q < p ==> #[trigger] uuid_text_char_ok(s@, q),
                forall|t: int| 0 <= t < nibbles@.len() ==> nibbles@[t] < 16,
                forall|q: int|
                    0 <= q < p && !is_uuid_hyphen_pos(q) ==> nibbles@[uuid_digit_index(q)]
                        == hex_digit_value(s@[q]),
            decreases 36 - p,
        {
            let c = s[p];
            if p == 8 || p == 13 || p == 18 || p == 23 {
                if c != 45 {
                    proof {
                        assert(!uuid_text_char_ok(s@, p as int));
                    }
                    return None;
                }
            } else {
                if !((48 <= c && c <= 57) || (97 <= c && c <= 102)) {
                    proof {
                        assert(!uuid_text_char_ok(s@, p as int));
                    }
                    return None;
                }
                let v: u8 = if c <= 57 {
                    c - 48
                } else {
                    c - 87
                };
                nibbles.push(v);
            }
            p = p + 1;
        }
        let mut bytes: Vec<u8> = Vec::new();
        let mut k: usize = 0;
        while k < 16
            invariant
                nibbles@.len() == 32,
                forall|t: int| 0 <= t < 32 ==> nibbles@[t] < 16,
                k <= 16,
                bytes@.len() == k,
                forall|t: int|
                    0 <= t < k ==> bytes@[t] == nibbles@[2 * t] * 16 + nibbles@[2 * t + 1],
            decreases 16 - k,
        {
            let hi = nibbles[2 * k];
            let lo = nibbles[2 * k + 1];
            bytes.push(hi * 16 + lo);
            k = k + 1;
        }
        let ghost bs = bytes@;
        proof {
            assert forall|p: int| 0 <= p < 36 implies s@[p] == uuid_char_at(bs, p) by {
                assert(uuid_text_char_ok(s@, p));
                if !is_uuid_hyphen_pos(p) {
                    let d = uuid_digit_index(p);
                    let a = nibbles@[2 * (d / 2)];
                    let b = nibbles@[2 * (d / 2) + 1];
                    assert(bs[d / 2] == a * 16 + b);
                    assert(a * 16 + b < 256 && (a * 16 + b) / 16 == a && (a * 16 + b) % 16 == b)
                        by (nonlinear_arith)
                        requires
                            a < 16,
                            b < 16,
                    ;
                    lemma_lower_hex_roundtrip(s@[p]);
                    if d % 2 == 0 {
                        assert(2 * (d / 2) == d);
                        assert(nibbles@[d] == hex_digit_value(s@[p]));
                    } else {
                        assert(2 * (d / 2) + 1 == d);
                        assert(nibbles@[d] == hex_digit_value(s@[p]));
                    }
                }
            }
            assert(s@ =~= uuid_chars(bs));
        }
        Some(UuidValue { bytes })
    }
}

/// Every identifier's canonical text is a canonical UUID text, so
/// formatting an identifier and parsing the text always succeeds; with
/// `lemma_uuid_chars_injective` the parse gives the identifier back.
pub proof fn lemma_uuid_text_canonical(b: Seq<u8>)
    requires
        b.len() == 16,
    ensures
        is_uuid_text(uuid_chars(b)),
{
    assert forall|p: int| 0 <= p < 36 implies #[trigger] uuid_text_char_ok(uuid_chars(b), p) by {
        assert(uuid_chars(b)[p] == uuid_char_at(b, p));
        if !is_uuid_hyphen_pos(p) {
            let d = uuid_digit_index(p);
            assert(b[d / 2] / 16 < 16 && b[d / 2] % 16 < 16);
        }
    }
}

/// The canonical text of an identifier needs no JSON escaping.
pub proof fn lemma_uuid_chars_plain(b: Seq<u8>)
    ensures
        forall|p: int|
            0 <= p < uuid_chars(b).len() ==> crate::wire::plain_byte(#[trigger] uuid_chars(b)[p]),
{
    assert forall|p: int| 0 <= p < uuid_chars(b).len() implies crate::wire::plain_byte(
        #[trigger] uuid_chars(b)[p],
    ) by {
        assert(uuid_chars(b)[p] == uuid_char_at(b, p));
    }
}

/// Canonical texts of distinct identifiers are distinct: the sixteen bytes
/// can be read back from the text, nibble by nibble.
pub proof fn lemma_uuid_chars_injective(b1: Seq<u8>, b2: Seq<u8>)
    requires
        b1.len() == 16,
        b2.len() == 16,
        uuid_chars(b1) == uuid_chars(b2),
    ensures
        b1 == b2,
{
    assert forall|t: int| 0 <= t < 16 implies b1[t] == b2[t] by {
        let p_hi = if t < 4 {
            2 * t
        } else if t < 6 {
            2 * t + 1
        } else if t < 8 {
            2 * t + 2
        } else if t < 10 {
            2 * t + 3
        } else {
            2 * t + 4
        };
        assert(0 <= p_hi && p_hi + 1 < 36);
        assert(uuid_chars(b1)[p_hi] == uuid_char_at(b1, p_hi));
        assert(uuid_chars(b2)[p_hi] == uuid_char_at(b2, p_hi));
        assert(uuid_chars(b1)[p_hi + 1] == uuid_char_at(b1, p_hi + 1));
        assert(uuid_chars(b2)[p_hi + 1] == uuid_char_at(b2, p_hi + 1));
        assert(uuid_char_at(b1, p_hi) == uuid_char_at(b2, p_hi));
        assert(uuid_char_at(b1, p_hi + 1) == uuid_char_at(b2, p_hi + 1));
        assert(uuid_digit_index(p_hi) == 2 * t);
        assert(uuid_digit_index(p_hi + 1) == 2 * t + 1);
        let h1 = (b1[t] / 16) as u8;
        let h2 = (b2[t] / 16) as u8;
        let l1 = (b1[t] % 16) as u8;
        let l2 = (b2[t] % 16) as u8;
        assert(hex_char_of_nibble(h1) == hex_char_of_nibble(h2));
        assert(hex_char_of_nibble(l1) == hex_char_of_nibble(l2));
        assert(h1 == h2 && l1 == l2);
        assert(b1[t] == 16 * (b1[t] / 16) + b1[t] % 16);
        assert(b2[t] == 16 * (b2[t] / 16) + b2[t] % 16);
    }
    assert(b1 =~= b2);
}

} // verus!
