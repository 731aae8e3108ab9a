use vstd::prelude::*;
use vstd::string::StringSliceAdditionalSpecFns;

use crate::hexcode::hex_char_of_nibble;

verus! {

/// How one byte stands inside a JSON string: quote and backslash get a
/// two-byte escape, control bytes a `\u00..` escape with lowercase hex,
/// any other byte stands as itself.
pub open spec fn escape_byte(b: u8) -> Seq<u8> {
    if b == 34 {
        seq![92u8, 34u8]
    } else if b == 92 {
        seq![92u8, 92u8]
    } else if b < 32 {
        seq![
            92u8,
            117u8,
            48u8,
            48u8,
            hex_char_of_nibble((b / 16) as u8),
            hex_char_of_nibble((b % 16) as u8),
        ]
    } else {
        seq![b]
    }
}

/// The canonical JSON escaping of a byte string.
pub open spec fn escape(s: Seq<u8>) -> Seq<u8>
    decreases s.len(),
{
    if s.len() == 0 {
        Seq::empty()
    } else {
        escape_byte(s[0]) + escape(s.subrange(1, s.len() as int))
    }
}

pub proof fn lemma_escape_snoc(s: Seq<u8>, x: u8)
    ensures
        escape(s.push(x)) == escape(s) + escape_byte(x),
    decreases s.len(),
{
    if s.len() == 0 {
        reveal_with_fuel(escape, 2);
        assert(s.push(x).subrange(1, 1) =~= Seq::<u8>::empty());
        assert(escape(s.push(x)) =~= escape_byte(x));
        assert(escape(s) + escape_byte(x) =~= escape_byte(x));
    } else {
        assert(s.push(x).subrange(1, (s.len() + 1) as int) =~= s.subrange(
            1,
            s.len() as int,
        ).push(x));
        lemma_escape_snoc(s.subrange(1, s.len() as int), x);
        assert(s.push(x)[0] == s[0]);
        assert(escape(s.push(x)) =~= escape(s) + escape_byte(x));
    }
}

/// Byte strings are cancellative on the left: equal concatenations with the
/// same prefix have equal tails.
pub proof fn lemma_prefix_cancel(x: Seq<u8>, t1: Seq<u8>, t2: Seq<u8>)
    requires
        x + t1 == x + t2,
    ensures
        t1 == t2,
{
    assert((x + t1).len() == x.len() + t1.len());
    assert((x + t2).len() == x.len() + t2.len());
    assert forall|j: int| 0 <= j < t1.len() implies t1[j] == t2[j] by {
        assert((x + t1)[x.len() + j] == t1[j]);
        assert((x + t2)[x.len() + j] == t2[j]);
    }
    assert(t1 =~= t2);
}

/// Inside an escaped JSON string the closing quote is unmistakable: when two
/// escaped values, each followed by a closing quote and an arbitrary tail,
/// agree byte for byte, the values agree and the tails agree.
#[verifier::rlimit(80)]
pub proof fn lemma_escape_quote_cancel(a: Seq<u8>, b: Seq<u8>, ra: Seq<u8>, rb: Seq<u8>)
    requires
        escape(a) + seq![34u8] + ra == escape(b) + seq![34u8] + rb,
    ensures
        a == b,
        ra == rb,
    decreases a.len(),
{
    reveal_with_fuel(escape, 2);
    let la = escape(a) + seq![34u8] + ra;
    let lb = escape(b) + seq![34u8] + rb;
    if a.len() == 0 && b.len() == 0 {
        let x = escape(a) + seq![34u8];
        assert(escape(b) + seq![34u8] == x);
        lemma_prefix_cancel(x, ra, rb);
        assert(a =~= b);
    } else if a.len() == 0 {
        let tb = b.subrange(1, b.len() as int);
        assert(escape(b) == escape_byte(b[0]) + escape(tb));
        assert(la[0] == 34);
        assert(lb[0] == escape_byte(b[0])[0]);
        assert(escape_byte(b[0])[0] != 34);
        assert(false);
    } else if b.len() == 0 {
        let ta = a.subrange(1, a.len() as int);
        assert(escape(a) == escape_byte(a[0]) + escape(ta));
        assert(lb[0] == 34);
        assert(la[0] == escape_byte(a[0])[0]);
        assert(escape_byte(a[0])[0] != 34);
        assert(false);
    } else {
        let a0 = a[0];
        let b0 = b[0];
        let ta = a.subrange(1, a.len() as int);
        let tb = b.subrange(1, b.len() as int);
        assert(escape(a) == escape_byte(a0) + escape(ta));
        assert(escape(b) == escape_byte(b0) + escape(tb));
        let na = escape(ta) + seq![34u8] + ra;
        let nb = escape(tb) + seq![34u8] + rb;
        assert(la =~= escape_byte(a0) + na);
        assert(lb =~= escape_byte(b0) + nb);
        let ea = escape_byte(a0);
        let eb = escape_byte(b0);
        assert(la[0] == ea[0] && lb[0] == eb[0]);
        let esc_a = a0 == 34 || a0 == 92 || a0 < 32;
        let esc_b = b0 == 34 || b0 == 92 || b0 < 32;
        if !esc_a && !esc_b {
            assert(a0 == b0);
        } else if esc_a && esc_b {
            assert(ea[0] == 92 && eb[0] == 92);
            assert(la[1] == ea[1] && lb[1] == eb[1]);
            if a0 == 34 || a0 == 92 {
                assert(b0 == a0);
            } else {
                assert(ea[1] == 117);
                assert(eb[1] == 117);
                assert(b0 < 32);
                assert(la[4] == ea[4] && lb[4] == eb[4]);
                assert(la[5] == ea[5] && lb[5] == eb[5]);
                assert(hex_char_of_nibble((a0 / 16) as u8) == hex_char_of_nibble((b0 / 16) as u8));
                assert(hex_char_of_nibble((a0 % 16) as u8) == hex_char_of_nibble((b0 % 16) as u8));
                assert(a0 / 16 == b0 / 16 && a0 % 16 == b0 % 16);
                assert(a0 == b0);
            }
        } else {
            // one byte is escaped, the other stands as itself: a backslash
            // against a byte that is never a backslash
            assert(false);
        }
        assert(escape_byte(b0) == escape_byte(a0));
        lemma_prefix_cancel(escape_byte(a0), na, nb);
        lemma_escape_quote_cancel(ta, tb, ra, rb);
        assert forall|j: int| 0 <= j < a.len() implies a[j] == b[j] by {
            if j > 0 {
                assert(a[j] == ta[j - 1]);
                assert(b[j] == tb[j - 1]);
            }
        }
        assert(a =~= b);
    }
}

/// `b` stands as itself inside a JSON string.
pub open spec fn plain_byte(b: u8) -> bool {
    b >= 32 && b != 34 && b != 92
}

/// A byte string of plain bytes is its own canonical escaping.
pub proof fn lemma_escape_plain(s: Seq<u8>)
    requires
        forall|i: int| 0 <= i < s.len() ==> plain_byte(#[trigger] s[i]),
    ensures
        escape(s) == s,
    decreases s.len(),
{
    if s.len() == 0 {
        assert(escape(s) =~= s);
    } else {
        lemma_escape_plain(s.subrange(1, s.len() as int));
        assert(escape_byte(s[0]) =~= seq![s[0]]);
        assert(escape(s) =~= s);
    }
}

/// Append all of `s` to `out`.
pub fn append_bytes(out: &mut Vec<u8>, s: &[u8])
    ensures
        final(out)@ == old(out)@ + s@,
{
    let n: usize = s.len();
    let mut i: usize = 0;
    proof {
        assert(out@ =~= old(out)@ + s@.take(0));
    }
    while i < n
        invariant
            n == s@.len(),
            i <= n,
            out@ == old(out)@ + s@.take(i as int),
        decreases n - i,
    {
        out.push(s[i]);
        proof {
            assert(s@.take((i + 1) as int) =~= s@.take(i as int).push(s@[i as int]));
            assert(out@ =~= old(out)@ + s@.take((i + 1) as int));
        }
        i = i + 1;
    }
    proof {
        assert(s@.take(n as int) =~= s@);
    }
}

/// Append the bytes of a literal to `out`.
pub fn append_lit(out: &mut Vec<u8>, lit: &str)
    ensures
        final(out)@ == old(out)@ + lit.spec_bytes(),
{
    append_bytes(out, lit.as_bytes());
}

/// Append one byte in its canonically escaped form.
fn push_escaped_byte(out: &mut Vec<u8>, b: u8)
    ensures
        final(out)@ == old(out)@ + escape_byte(b),
{
    if b == 34 {
        out.push(92);
        out.push(34);
    } else if b == 92 {
        out.push(92);
        out.push(92);
    } else if b < 32 {
        out.push(92);
        out.push(117);
        out.push(48);
        out.push(48);
        out.push(crate::hexcode::hex_nibble_char(b / 16));
        out.push(crate::hexcode::hex_nibble_char(b % 16));
    } else {
        out.push(b);
    }
    proof {
        assert(out@ =~= old(out)@ + escape_byte(b));
    }
}

/// Append `s` in its canonically escaped form.
pub fn append_escaped(out: &mut Vec<u8>, s: &[u8])
    ensures
        final(out)@ == old(out)@ + escape(s@),
{
    let n: usize = s.len();
    let mut i: usize = 0;
    proof {
        assert(out@ =~= old(out)@ + escape(s@.take(0)));
    }
    while i < n
        invariant
            n == s@.len(),
            i <= n,
            out@ == old(out)@ + escape(s@.take(i as int)),
        decreases n - i,
    {
        push_escaped_byte(out, s[i]);
        proof {
            lemma_escape_snoc(s@.take(i as int), s@[i as int]);
            assert(s@.take((i + 1) as int) =~= s@.take(i as int).push(s@[i as int]));
            assert(out@ =~= old(out)@ + escape(s@.take((i + 1) as int)));
        }
        i = i + 1;
    }
    proof {
        assert(s@.take(n as int) =~= s@);
    }
}

/// Match the bytes of `lit` in `s` at position `i`: succeeds exactly when
/// they stand there.
pub fn match_lit(s: &[u8], i: usize, lit: &str) -> (r: Option<usize>)
    requires
        i <= s@.len(),
    ensures
        r matches Some(j) ==> i <= j <= s@.len() && j == i + lit.spec_bytes().len()
            && s@.subrange(i as int, j as int) == lit.spec_bytes(),
        r is None ==> !(i + lit.spec_bytes().len() <= s@.len() && s@.subrange(
            i as int,
            i + lit.spec_bytes().len() as int,
        ) == lit.spec_bytes()),
{
    let b = lit.as_bytes();
    let m: usize = b.len();
    let n: usize = s.len();
    if m > n - i {
        return None;
    }
    let mut k: usize = 0;
    while k < m
        invariant
            n == s@.len(),
            m == b@.len(),
            i + m <= n,
            k <= m,
            b@ == lit.spec_bytes(),
            forall|t: int| 0 <= t < k ==> s@[i + t] == b@[t],
        decreases m - k,
    {
        if s[i + k] != b[k] {
            proof {
                if s@.subrange(i as int, i + m as int) == lit.spec_bytes() {
                    assert(s@.subrange(i as int, i + m as int)[k as int] == s@[i + k]);
                    assert(false);
                }
            }
            return None;
        }
        k = k + 1;
    }
    proof {
        assert(s@.subrange(i as int, (i + m) as int) =~= b@);
    }
    Some(i + m)
}

/// The canonical form of some string value — its escaped bytes and the
/// closing quote — stands in `s` at position `i`.
pub open spec fn has_string_at(s: Seq<u8>, i: int) -> bool {
    exists|v: Seq<u8>, j: int| i <= j <= s.len() && s.subrange(i, j) == escape(v) + seq![34u8]
}

/// How the canonical form of `v` followed by its closing quote begins: with
/// the closing quote itself when `v` is empty, else with the escape of the
/// first byte, the rest being again such a form.
proof fn lemma_string_head(s: Seq<u8>, i: int, v: Seq<u8>, j: int)
    requires
        0 <= i <= j <= s.len(),
        s.subrange(i, j) == escape(v) + seq![34u8],
    ensures
        v.len() == 0 ==> j == i + 1 && s[i] == 34,
        v.len() > 0 ==> {
            &&& i + escape_byte(v[0]).len() + 1 <= j
            &&& s.subrange(i, i + escape_byte(v[0]).len() as int) == escape_byte(v[0])
            &&& s.subrange(i + escape_byte(v[0]).len() as int, j) == escape(
                v.subrange(1, v.len() as int),
            ) + seq![34u8]
        },
{
    reveal_with_fuel(escape, 2);
    if v.len() == 0 {
        assert(escape(v) =~= Seq::<u8>::empty());
        assert((escape(v) + seq![34u8]).len() == 1);
        assert(s[i] == s.subrange(i, j)[0]);
    } else {
        let eb = escape_byte(v[0]);
        let rest = v.subrange(1, v.len() as int);
        assert(escape(v) == eb + escape(rest));
        assert((escape(v) + seq![34u8]).len() == j - i);
        assert(i + eb.len() + 1 <= j);
        assert forall|k: int| 0 <= k < eb.len() implies s[i + k] == eb[k] by {
            assert(s.subrange(i, j)[k] == s[i + k]);
            assert((escape(v) + seq![34u8])[k] == eb[k]);
        }
        assert(s.subrange(i, i + eb.len() as int) =~= eb);
        assert forall|m: int| 0 <= m < j - i - eb.len() implies s[i + eb.len() + m] == (escape(rest)
            + seq![34u8])[m] by {
            assert(s.subrange(i, j)[eb.len() + m] == s[i + eb.len() + m]);
            assert((escape(v) + seq![34u8])[eb.len() + m] == (escape(rest) + seq![34u8])[m]);
        }
        assert(s.subrange(i + eb.len() as int, j) =~= escape(rest) + seq![34u8]);
    }
}

/// Parse a JSON string at position `i` (just past the opening quote),
/// undoing the canonical escaping. Succeeds exactly when some value's
/// canonical form stands there; the consumed segment, closing quote
/// included, is then exactly the canonical encoding of the returned value.
#[verifier::rlimit(100)]
pub fn parse_string(s: &[u8], i: usize) -> (r: Option<(Vec<u8>, usize)>)
    requires
        i <= s@.len(),
    ensures
        r matches Some((v, j)) ==> i < j <= s@.len() && s@.subrange(i as int, j as int) == escape(
            v@,
        ) + seq![34u8],
        r is None ==> !has_string_at(s@, i as int),
{
    let n: usize = s.len();
    let mut out: Vec<u8> = Vec::new();
    let mut pos: usize = i;
    proof {
        assert(s@.subrange(i as int, i as int) =~= escape(out@));
    }
    loop
        invariant
            i <= pos <= n,
            n == s@.len(),
            s@.subrange(i as int, pos as int) == escape(out@),
            has_string_at(s@, i as int) ==> has_string_at(s@, pos as int),
        decreases n - pos,
    {
        if pos >= n {
            proof {
                if has_string_at(s@, pos as int) {
                    let (v, j) = choose|v: Seq<u8>, j: int|
                        pos as int <= j <= s@.len() && s@.subrange(pos as int, j) == escape(v)
                            + seq![34u8];
                    assert((escape(v) + seq![34u8]).len() >= 1);
                    assert(false);
                }
            }
            return None;
        }
        let b = s[pos];
        if b == 34 {
            proof {
                assert(s@.subrange(i as int, (pos + 1) as int) =~= escape(out@) + seq![34u8]);
            }
            return Some((out, pos + 1));
        } else if b == 92 {
            if n - pos < 2 {
                proof {
                    if has_string_at(s@, pos as int) {
                        let (v, j) = choose|v: Seq<u8>, j: int|
                            pos as int <= j <= s@.len() && s@.subrange(pos as int, j) == escape(v)
                                + seq![34u8];
                        lemma_string_head(s@, pos as int, v, j);
                        assert(v.len() > 0);
                        assert(s@[pos as int] == escape_byte(v[0])[0]);
                        assert(v[0] == 34 || v[0] == 92 || v[0] < 32);
                        assert(escape_byte(v[0]).len() >= 2);
                        assert(false);
                    }
                }
                return None;
            }
            let c = s[pos + 1];
            if c == 34 || c == 92 {
                proof {
                    if has_string_at(s@, pos as int) {
                        let (v, j) = choose|v: Seq<u8>, j: int|
                            pos as int <= j <= s@.len() && s@.subrange(pos as int, j) == escape(v)
                                + seq![34u8];
                        lemma_string_head(s@, pos as int, v, j);
                        assert(v.len() > 0);
                        let eb = escape_byte(v[0]);
                        assert(s@[pos as int] == eb[0]);
                        assert(v[0] == 34 || v[0] == 92 || v[0] < 32);
                        assert(s@[pos + 1] == eb[1]);
                        assert(v[0] == c);
                        assert(s@.subrange((pos + 2) as int, j) == escape(
                            v.subrange(1, v.len() as int),
                        ) + seq![34u8]);
                        assert(has_string_at(s@, (pos + 2) as int));
                    }
                }
                let ghost prev = out@;
                out.push(c);
                proof {
                    lemma_escape_snoc(prev, c);
                    assert(s@.subrange(pos as int, (pos + 2) as int) =~= escape_byte(c));
                    assert(s@.subrange(i as int, (pos + 2) as int) =~= s@.subrange(
                        i as int,
                        pos as int,
                    ) + s@.subrange(pos as int, (pos + 2) as int));
                }
                pos = pos + 2;
            } else if c == 117 {
                if n - pos < 6 {
                    proof {
                        if has_string_at(s@, pos as int) {
                            let (v, j) = choose|v: Seq<u8>, j: int|
                                pos as int <= j <= s@.len() && s@.subrange(pos as int, j) == escape(
                                    v,
                                ) + seq![34u8];
                            lemma_string_head(s@, pos as int, v, j);
                            assert(v.len() > 0);
                            let eb = escape_byte(v[0]);
                            assert(s@[pos as int] == eb[0]);
                            assert(v[0] == 34 || v[0] == 92 || v[0] < 32);
                            assert(s@[pos + 1] == eb[1]);
                            assert(v[0] < 32);
                            assert(eb.len() == 6);
                            assert(pos + 7 <= j <= n);
                            assert(false);
                        }
                    }
                    return None;
                }
                let c2 = s[pos + 2];
                let c3 = s[pos + 3];
                let c4 = s[pos + 4];
                let c5 = s[pos + 5];
                if c2 != 48 || c3 != 48 {
                    proof {
                        if has_string_at(s@, pos as int) {
                            let (v, j) = choose|v: Seq<u8>, j: int|
                                pos as int <= j <= s@.len() && s@.subrange(pos as int, j) == escape(
                                    v,
                                ) + seq![34u8];
                            lemma_string_head(s@, pos as int, v, j);
                            assert(v.len() > 0);
                            let eb = escape_byte(v[0]);
                            assert(s@[pos as int] == eb[0]);
                            assert(v[0] == 34 || v[0] == 92 || v[0] < 32);
                            assert(s@[pos + 1] == eb[1]);
                            assert(v[0] < 32);
                            assert(s@[pos + 2] == eb[2] && s@[pos + 3] == eb[3]);
                            assert(false);
                        }
                    }
                    return None;
                }
                if !(c4 == 48 || c4 == 49) {
                    proof {
                        if has_string_at(s@, pos as int) {
                            let (v, j) = choose|v: Seq<u8>, j: int|
                                pos as int <= j <= s@.len() && s@.subrange(pos as int, j) == escape(
                                    v,
                                ) + seq![34u8];
                            lemma_string_head(s@, pos as int, v, j);
                            assert(v.len() > 0);
                            let eb = escape_byte(v[0]);
                            assert(s@[pos as int] == eb[0]);
                            assert(v[0] == 34 || v[0] == 92 || v[0] < 32);
                            assert(s@[pos + 1] == eb[1]);
                            assert(v[0] < 32);
                            assert(s@[pos + 4] == eb[4]);
                            assert(eb[4] == hex_char_of_nibble((v[0] / 16) as u8));
                            assert(v[0] / 16 == 0 || v[0] / 16 == 1);
                            assert(false);
                        }
                    }
                    return None;
                }
                let lo: u8 = if 48 <= c5 && c5 <= 57 {
                    c5 - 48
                } else if 97 <= c5 && c5 <= 102 {
                    c5 - 87
                } else {
                    proof {
                        if has_string_at(s@, pos as int) {
                            let (v, j) = choose|v: Seq<u8>, j: int|
                                pos as int <= j <= s@.len() && s@.subrange(pos as int, j) == escape(
                                    v,
                                ) + seq![34u8];
                            lemma_string_head(s@, pos as int, v, j);
                            assert(v.len() > 0);
                            let eb = escape_byte(v[0]);
                            assert(s@[pos as int] == eb[0]);
                            assert(v[0] == 34 || v[0] == 92 || v[0] < 32);
                            assert(s@[pos + 1] == eb[1]);
                            assert(v[0] < 32);
                            assert(s@[pos + 5] == eb[5]);
                            assert(eb[5] == hex_char_of_nibble((v[0] % 16) as u8));
                            assert(v[0] % 16 < 16);
                            assert(false);
                        }
                    }
                    return None;
                };
                let val: u8 = (c4 - 48) * 16 + lo;
                proof {
                    if has_string_at(s@, pos as int) {
                        let (v, j) = choose|v: Seq<u8>, j: int|
                            pos as int <= j <= s@.len() && s@.subrange(pos as int, j) == escape(v)
                                + seq![34u8];
                        lemma_string_head(s@, pos as int, v, j);
                        assert(v.len() > 0);
                        let eb = escape_byte(v[0]);
                        assert(s@[pos as int] == eb[0]);
                        assert(v[0] == 34 || v[0] == 92 || v[0] < 32);
                        assert(s@[pos + 1] == eb[1]);
                        assert(v[0] < 32);
                        assert(s@[pos + 4] == eb[4] && s@[pos + 5] == eb[5]);
                        assert(hex_char_of_nibble((v[0] / 16) as u8) == c4);
                        assert(hex_char_of_nibble((v[0] % 16) as u8) == c5);
                        assert(v[0] / 16 == c4 - 48);
                        assert(v[0] % 16 == lo);
                        assert(v[0] == val);
                        assert(s@.subrange((pos + 6) as int, j) == escape(
                            v.subrange(1, v.len() as int),
                        ) + seq![34u8]);
                        assert(has_string_at(s@, (pos + 6) as int));
                    }
                }
                let ghost prev = out@;
                out.push(val);
                proof {
                    lemma_escape_snoc(prev, val);
                    assert(val < 32);
                    assert(hex_char_of_nibble((val / 16) as u8) == c4);
                    assert(hex_char_of_nibble((val % 16) as u8) == c5);
                    assert(s@.subrange(pos as int, (pos + 6) as int) =~= escape_byte(val));
                    assert(s@.subrange(i as int, (pos + 6) as int) =~= s@.subrange(
                        i as int,
                        pos as int,
                    ) + s@.subrange(pos as int, (pos + 6) as int));
                }
                pos = pos + 6;
            } else {
                proof {
                    if has_string_at(s@, pos as int) {
                        let (v, j) = choose|v: Seq<u8>, j: int|
                            pos as int <= j <= s@.len() && s@.subrange(pos as int, j) == escape(v)
                                + seq![34u8];
                        lemma_string_head(s@, pos as int, v, j);
                        assert(v.len() > 0);
                        let eb = escape_byte(v[0]);
                        assert(s@[pos as int] == eb[0]);
                        assert(v[0] == 34 || v[0] == 92 || v[0] < 32);
                        assert(s@[pos + 1] == eb[1]);
                        assert(eb[1] == 34 || eb[1] == 92 || eb[1] == 117);
                        assert(false);
                    }
                }
                return None;
            }
        } else if b < 32 {
            proof {
                if has_string_at(s@, pos as int) {
                    let (v, j) = choose|v: Seq<u8>, j: int|
                        pos as int <= j <= s@.len() && s@.subrange(pos as int, j) == escape(v)
                            + seq![34u8];
                    lemma_string_head(s@, pos as int, v, j);
                    assert(v.len() > 0);
                    assert(s@[pos as int] == escape_byte(v[0])[0]);
                    assert(false);
                }
            }
            return None;
        } else {
            proof {
                if has_string_at(s@, pos as int) {
                    let (v, j) = choose|v: Seq<u8>, j: int|
                        pos as int <= j <= s@.len() && s@.subrange(pos as int, j) == escape(v)
                            + seq![34u8];
                    lemma_string_head(s@, pos as int, v, j);
                    assert(v.len() > 0);
                    let eb = escape_byte(v[0]);
                    assert(s@[pos as int] == eb[0]);
                    assert(!(v[0] == 34 || v[0] == 92 || v[0] < 32));
                    assert(v[0] == b);
                    assert(s@.subrange((pos + 1) as int, j) == escape(
                        v.subrange(1, v.len() as int),
                    ) + seq![34u8]);
                    assert(has_string_at(s@, (pos + 1) as int));
                }
            }
            let ghost prev = out@;
            out.push(b);
            proof {
                lemma_escape_snoc(prev, b);
                assert(s@.subrange(pos as int, (pos + 1) as int) =~= escape_byte(b));
                assert(s@.subrange(i as int, (pos + 1) as int) =~= s@.subrange(
                    i as int,
                    pos as int,
                ) + s@.subrange(pos as int, (pos + 1) as int));
            }
            pos = pos + 1;
        }
    }
}

/// The decimal digits of `n`, most significant first, no leading zeros.
pub open spec fn dec_str_of(n: nat) -> Seq<u8>
    decreases n,
{
    if n < 10 {
        seq![(48 + n) as u8]
    } else {
        dec_str_of(n / 10).push((48 + n % 10) as u8)
    }
}

/// Append the decimal form of `v`.
pub fn append_u32(out: &mut Vec<u8>, v: u32)
    ensures
        final(out)@ == old(out)@ + dec_str_of(v as nat),
{
    if v == 0 {
        out.push(48);
        proof {
            assert(dec_str_of(0) =~= seq![48u8]);
            assert(out@ =~= old(out)@ + dec_str_of(v as nat));
        }
        return ;
    }
    let mut digits: Vec<u8> = Vec::new();
    let mut x: u32 = v;
    proof {
        assert(dec_str_of(v as nat) =~= dec_str_of(v as nat) + digits@.reverse());
    }
    while x > 0
        invariant
            x > 0 ==> dec_str_of(v as nat) == dec_str_of(x as nat) + digits@.reverse(),
            x == 0 ==> dec_str_of(v as nat) == digits@.reverse() && digits@.len() > 0,
        decreases x,
    {
        let d: u8 = 48 + (x % 10) as u8;
        let ghost prev = digits@;
        digits.push(d);
        let ghost oldx = x as nat;
        x = x / 10;
        proof {
            assert(prev.push(d).reverse() =~= seq![d] + prev.reverse());
            if oldx < 10 {
                assert(dec_str_of(oldx) =~= seq![d]);
                assert(dec_str_of(v as nat) =~= digits@.reverse());
            } else {
                assert(dec_str_of(oldx) == dec_str_of(oldx / 10).push(d));
                assert(dec_str_of(oldx / 10).push(d) + prev.reverse() =~= dec_str_of(oldx / 10) + (
                seq![d] + prev.reverse()));
                assert(dec_str_of(v as nat) == dec_str_of(x as nat) + digits@.reverse());
            }
        }
    }
    let m: usize = digits.len();
    let mut k: usize = 0;
    proof {
        assert(out@ =~= old(out)@ + digits@.reverse().take(0));
    }
    while k < m
        invariant
            m == digits@.len(),
            k <= m,
            dec_str_of(v as nat) == digits@.reverse(),
            out@ == old(out)@ + digits@.reverse().take(k as int),
        decreases m - k,
    {
        out.push(digits[m - 1 - k]);
        proof {
            assert(digits@.reverse().take((k + 1) as int) =~= digits@.reverse().take(
                k as int,
            ).push(digits@[m - 1 - k]));
            assert(out@ =~= old(out)@ + digits@.reverse().take((k + 1) as int));
        }
        k = k + 1;
    }
    proof {
        assert(digits@.reverse().take(m as int) =~= digits@.reverse());
    }
}

/// A decimal form is never empty, holds digits only, and has no leading
/// zero unless the number is zero.
pub proof fn lemma_dec_shape(n: nat)
    ensures
        dec_str_of(n).len() >= 1,
        forall|k: int| 0 <= k < dec_str_of(n).len() ==> 48 <= #[trigger] dec_str_of(n)[k] <= 57,
        n > 0 ==> dec_str_of(n)[0] != 48,
        n < 10 ==> dec_str_of(n).len() == 1,
        n >= 10 ==> dec_str_of(n).len() >= 2,
    decreases n,
{
    if n >= 10 {
        lemma_dec_shape(n / 10);
        assert forall|k: int| 0 <= k < dec_str_of(n).len() implies 48 <= #[trigger] dec_str_of(n)[k]
            <= 57 by {
            if k < dec_str_of(n / 10).len() {
                assert(dec_str_of(n)[k] == dec_str_of(n / 10)[k]);
            }
        }
        assert(dec_str_of(n)[0] == dec_str_of(n / 10)[0]);
    }
}

/// Distinct numbers have distinct decimal forms.
pub proof fn lemma_dec_injective(a: nat, b: nat)
    requires
        dec_str_of(a) == dec_str_of(b),
    ensures
        a == b,
    decreases a,
{
    lemma_dec_shape(a);
    lemma_dec_shape(b);
    if a < 10 && b < 10 {
        assert(dec_str_of(a)[0] == dec_str_of(b)[0]);
    } else if a < 10 || b < 10 {
        assert(dec_str_of(a).len() != dec_str_of(b).len());
    } else {
        assert(dec_str_of(a) == dec_str_of(a / 10).push((48 + a % 10) as u8));
        assert(dec_str_of(b) == dec_str_of(b / 10).push((48 + b % 10) as u8));
        assert(dec_str_of(a).last() == (48 + a % 10) as u8);
        assert(dec_str_of(b).last() == (48 + b % 10) as u8);
        assert(a % 10 == b % 10);
        assert(dec_str_of(a).drop_last() =~= dec_str_of(a / 10));
        assert(dec_str_of(b).drop_last() =~= dec_str_of(b / 10));
        lemma_dec_injective(a / 10, b / 10);
    }
}

/// A decimal form standing as a prefix of another bounds the number.
pub proof fn lemma_dec_prefix_le(a: nat, b: nat)
    requires
        dec_str_of(a).len() <= dec_str_of(b).len(),
        dec_str_of(a) == dec_str_of(b).subrange(0, dec_str_of(a).len() as int),
    ensures
        a <= b,
    decreases b,
{
    lemma_dec_shape(a);
    lemma_dec_shape(b);
    if dec_str_of(a).len() == dec_str_of(b).len() {
        assert(dec_str_of(b).subrange(0, dec_str_of(b).len() as int) =~= dec_str_of(b));
        lemma_dec_injective(a, b);
    } else {
        assert(b >= 10);
        assert(dec_str_of(b).drop_last() =~= dec_str_of(b / 10));
        assert(dec_str_of(a) =~= dec_str_of(b / 10).subrange(0, dec_str_of(a).len() as int));
        lemma_dec_prefix_le(a, b / 10);
    }
}

/// The canonical decimal form of the `u32` value `v` stands in `s` at
/// position `i` and is not followed by a further digit.
pub open spec fn dec_at(s: Seq<u8>, i: int, v: u32, j: int) -> bool {
    &&& i <= j <= s.len()
    &&& s.subrange(i, j) == dec_str_of(v as nat)
    &&& (j == s.len() || !(48 <= s[j] <= 57))
}

/// Parse an unsigned decimal number at position `i`: at least one digit,
/// no leading zero, value within `u32`. The consumed segment is exactly the
/// canonical decimal form of the value, and whenever such a form stands at
/// `i` undivided from what follows, the parse returns exactly it.
#[verifier::rlimit(100)]
pub fn parse_u32(s: &[u8], i: usize) -> (r: Option<(u32, usize)>)
    requires
        i <= s@.len(),
    ensures
        r matches Some((v, j)) ==> i < j <= s@.len() && s@.subrange(i as int, j as int)
            == dec_str_of(v as nat),
        forall|v: u32, j: int|
            #[trigger] dec_at(s@, i as int, v, j) ==> r == Some::<(u32, usize)>((v, j as usize)),
{
    let n: usize = s.len();
    if i >= n {
        proof {
            assert forall|v: u32, j: int| !(#[trigger] dec_at(s@, i as int, v, j)) by {
                if dec_at(s@, i as int, v, j) {
                    lemma_dec_shape(v as nat);
                    assert(false);
                }
            }
        }
        return None;
    }
    let first = s[i];
    if first == 48 {
        proof {
            assert(s@.subrange(i as int, (i + 1) as int) =~= dec_str_of(0));
            assert forall|v: u32, j: int| #[trigger] dec_at(s@, i as int, v, j) implies v == 0 && j
                == i + 1 by {
                lemma_dec_shape(v as nat);
                assert(s@.subrange(i as int, j)[0] == s@[i as int]);
                if v > 0 {
                    assert(dec_str_of(v as nat)[0] != 48);
                    assert(false);
                }
                assert(dec_str_of(v as nat).len() == 1);
            }
        }
        return Some((0, i + 1));
    }
    if !(49 <= first && first <= 57) {
        proof {
            assert forall|v: u32, j: int| !(#[trigger] dec_at(s@, i as int, v, j)) by {
                if dec_at(s@, i as int, v, j) {
                    lemma_dec_shape(v as nat);
                    assert(s@.subrange(i as int, j)[0] == s@[i as int]);
                    assert(48 <= s@[i as int] <= 57);
                    assert(false);
                }
            }
        }
        return None;
    }
    let mut acc: u32 = (first - 48) as u32;
    let mut pos: usize = i + 1;
    proof {
        assert(s@.subrange(i as int, pos as int) =~= dec_str_of(acc as nat));
    }
    while pos < n && 48 <= s[pos as usize] && s[pos as usize] <= 57
        invariant
            i < pos <= n,
            n == s@.len(),
            acc > 0,
            s@.subrange(i as int, pos as int) == dec_str_of(acc as nat),
        decreases n - pos,
    {
        let d: u32 = (s[pos] - 48) as u32;
        if acc > (0xFFFF_FFFFu32 - d) / 10 {
            proof {
                assert forall|v: u32, j: int| !(#[trigger] dec_at(s@, i as int, v, j)) by {
                    if dec_at(s@, i as int, v, j) {
                        lemma_dec_shape(v as nat);
                        lemma_dec_shape(acc as nat);
                        if j < pos {
                            assert(s@[j] == s@.subrange(i as int, pos as int)[j - i]);
                            assert(48 <= s@[j] <= 57);
                            assert(false);
                        }
                        if j == pos {
                            assert(j < s@.len());
                            assert(48 <= s@[j] <= 57);
                            assert(false);
                        }
                        assert(pos < j);
                        let m = acc as nat * 10 + d as nat;
                        assert(m / 10 == acc as nat && m % 10 == d as nat);
                        assert(m >= 10);
                        assert(dec_str_of(m) == dec_str_of(acc as nat).push((48 + d) as u8));
                        assert(s@.subrange(i as int, (pos + 1) as int) =~= s@.subrange(
                            i as int,
                            pos as int,
                        ).push(s@[pos as int]));
                        assert(dec_str_of(m) == s@.subrange(i as int, (pos + 1) as int));
                        assert(dec_str_of(m).len() == pos + 1 - i);
                        assert forall|k: int| 0 <= k < pos + 1 - i implies dec_str_of(m)[k]
                            == dec_str_of(v as nat)[k] by {
                            assert(dec_str_of(m)[k] == s@.subrange(i as int, (pos + 1) as int)[k]);
                            assert(s@.subrange(i as int, (pos + 1) as int)[k] == s@[i + k]);
                            assert(dec_str_of(v as nat)[k] == s@.subrange(i as int, j)[k]);
                            assert(s@.subrange(i as int, j)[k] == s@[i + k]);
                        }
                        assert(dec_str_of(m) =~= dec_str_of(v as nat).subrange(
                            0,
                            dec_str_of(m).len() as int,
                        ));
                        lemma_dec_prefix_le(m, v as nat);
                        let q: int = (0xFFFF_FFFF - d as int) / 10;
                        assert(10 * q <= 0xFFFF_FFFF - (d as int));
                        assert(0xFFFF_FFFF - (d as int) < 10 * q + 10);
                        assert(acc as int >= q + 1);
                        assert(10 * (acc as int) >= 10 * q + 10);
                        assert(m > 0xFFFF_FFFF);
                        assert(false);
                    }
                }
            }
            return None;
        }
        let ghost prevacc = acc as nat;
        acc = acc * 10 + d;
        proof {
            assert(acc as nat == prevacc * 10 + d) by (nonlinear_arith)
                requires
                    prevacc * 10 + d <= 0xFFFF_FFFF,
                    acc == prevacc * 10 + d,
            ;
            assert((acc as nat) / 10 == prevacc && (acc as nat) % 10 == d) by (nonlinear_arith)
                requires
                    acc as nat == prevacc * 10 + d,
                    0 <= d < 10,
            ;
            assert(dec_str_of(acc as nat) == dec_str_of(prevacc).push((48 + d) as u8));
            assert(s@.subrange(i as int, (pos + 1) as int) =~= s@.subrange(
                i as int,
                pos as int,
            ).push(s@[pos as int]));
        }
        pos = pos + 1;
    }
    proof {
        assert forall|v: u32, j: int| #[trigger] dec_at(s@, i as int, v, j) implies v == acc && j
            == pos as int by {
            lemma_dec_shape(v as nat);
            lemma_dec_shape(acc as nat);
            if j < pos {
                assert(s@[j] == s@.subrange(i as int, pos as int)[j - i]);
                assert(48 <= s@[j] <= 57);
                assert(j < s@.len());
                assert(false);
            }
            if pos < j {
                assert(s@[pos as int] == s@.subrange(i as int, j)[pos - i]);
                assert(48 <= s@[pos as int] <= 57);
                assert(pos < n);
                assert(false);
            }
            assert(j == pos);
            assert(dec_str_of(acc as nat) == dec_str_of(v as nat));
            lemma_dec_injective(acc as nat, v as nat);
        }
    }
    Some((acc, pos))
}

} // verus!
