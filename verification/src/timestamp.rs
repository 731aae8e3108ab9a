use vstd::prelude::*;

verus! {

/// A UTC timestamp of second precision, as the service reports creation
/// and update times: `YYYY-MM-DDThh:mm:ssZ` on the wire.
#[derive(Debug, Clone, PartialEq, Eq, Structural)]
pub struct Timestamp {
    pub year: u16,
    pub month: u8,
    pub day: u8,
    pub hour: u8,
    pub minute: u8,
    pub second: u8,
}

/// `y` is a leap year of the proleptic Gregorian calendar.
pub open spec fn is_leap_year(y: int) -> bool {
    y % 4 == 0 && (y % 100 != 0 || y % 400 == 0)
}

/// How many days the month `m` of year `y` has.
pub open spec fn days_in_month(y: int, m: int) -> int {
    if m == 2 {
        if is_leap_year(y) {
            29
        } else {
            28
        }
    } else if m == 4 || m == 6 || m == 9 || m == 11 {
        30
    } else {
        31
    }
}

impl Timestamp {
    /// The fields name a real calendar date and a time of day, and the year
    /// fits the four-digit wire form.
    pub open spec fn well_formed(self) -> bool {
        &&& self.year <= 9999
        &&& 1 <= self.month <= 12
        &&& 1 <= self.day <= days_in_month(self.year as int, self.month as int)
        &&& self.hour <= 23
        &&& self.minute <= 59
        &&& self.second <= 59
    }
}

/// The byte at position `p` of the wire form of `t`.
pub open spec fn ts_char_at(t: Timestamp, p: int) -> u8 {
    if p == 4 || p == 7 {
        45u8
    } else if p == 10 {
        84u8
    } else if p == 13 || p == 16 {
        58u8
    } else if p == 19 {
        90u8
    } else {
        let v = if p == 0 {
            t.year as int / 1000 % 10
        } else if p == 1 {
            t.year as int / 100 % 10
        } else if p == 2 {
            t.year as int / 10 % 10
        } else if p == 3 {
            t.year as int % 10
        } else if p == 5 {
            t.month as int / 10
        } else if p == 6 {
            t.month as int % 10
        } else if p == 8 {
            t.day as int / 10
        } else if p == 9 {
            t.day as int % 10
        } else if p == 11 {
            t.hour as int / 10
        } else if p == 12 {
            t.hour as int % 10
        } else if p == 14 {
            t.minute as int / 10
        } else if p == 15 {
            t.minute as int % 10
        } else if p == 17 {
            t.second as int / 10
        } else {
            t.second as int % 10
        };
        (48 + v) as u8
    }
}

/// The wire form of `t`: twenty bytes, `YYYY-MM-DDThh:mm:ssZ`.
pub open spec fn ts_chars(t: Timestamp) -> Seq<u8> {
    Seq::new(20, |p: int| ts_char_at(t, p))
}

/// `c` is a decimal digit.
pub open spec fn is_digit(c: u8) -> bool {
    48 <= c && c <= 57
}

/// The value of the two digits of `s` at positions `p`, `p + 1`.
pub open spec fn ts_num2(s: Seq<u8>, p: int) -> int {
    (s[p] - 48) * 10 + (s[p + 1] - 48)
}

/// The value of the four year digits of `s`.
pub open spec fn ts_year_of(s: Seq<u8>) -> int {
    (s[0] - 48) * 1000 + (s[1] - 48) * 100 + (s[2] - 48) * 10 + (s[3] - 48)
}

/// `p` holds a digit in the wire form of a timestamp.
pub open spec fn is_ts_digit_pos(p: int) -> bool {
    (0 <= p <= 3) || p == 5 || p == 6 || p == 8 || p == 9 || p == 11 || p == 12 || p == 14 || p
        == 15 || p == 17 || p == 18
}

/// `s` is the wire form of a well-formed timestamp.
pub open spec fn is_ts_text(s: Seq<u8>) -> bool {
    &&& s.len() == 20
    &&& s[4] == 45 && s[7] == 45 && s[10] == 84 && s[13] == 58 && s[16] == 58 && s[19] == 90
    &&& (forall|p: int| is_ts_digit_pos(p) ==> is_digit(#[trigger] s[p]))
    &&& 1 <= ts_num2(s, 5) <= 12
    &&& 1 <= ts_num2(s, 8) <= days_in_month(ts_year_of(s), ts_num2(s, 5))
    &&& ts_num2(s, 11) <= 23
    &&& ts_num2(s, 14) <= 59
    &&& ts_num2(s, 17) <= 59
}

/// The wire form of a well-formed timestamp is itself accepted by the
/// parser, with the same field values read back: formatting then parsing
/// gives the timestamp back.
#[verifier::rlimit(50)]
pub proof fn lemma_ts_text_canonical(t: Timestamp)
    requires
        t.well_formed(),
    ensures
        is_ts_text(ts_chars(t)),
        ts_year_of(ts_chars(t)) == t.year as int,
        ts_num2(ts_chars(t), 5) == t.month as int,
        ts_num2(ts_chars(t), 8) == t.day as int,
        ts_num2(ts_chars(t), 11) == t.hour as int,
        ts_num2(ts_chars(t), 14) == t.minute as int,
        ts_num2(ts_chars(t), 17) == t.second as int,
{
    let s = ts_chars(t);
    assert forall|p: int| is_ts_digit_pos(p) implies is_digit(#[trigger] s[p]) by {
        assert(0 <= p < 20);
        assert(s[p] == ts_char_at(t, p));
    }
    assert(s[0] == 48 + t.year as int / 1000 % 10);
    assert(s[1] == 48 + t.year as int / 100 % 10);
    assert(s[2] == 48 + t.year as int / 10 % 10);
    assert(s[3] == 48 + t.year as int % 10);
    assert(ts_year_of(s) == t.year as int);
    assert(ts_num2(s, 5) == t.month as int);
    assert(ts_num2(s, 8) == t.day as int);
    assert(ts_num2(s, 11) == t.hour as int);
    assert(ts_num2(s, 14) == t.minute as int);
    assert(ts_num2(s, 17) == t.second as int);
}

/// Distinct timestamps have distinct wire forms: every field can be read
/// back from its digits.
pub proof fn lemma_ts_chars_injective(t1: Timestamp, t2: Timestamp)
    requires
        t1.well_formed(),
        t2.well_formed(),
        ts_chars(t1) == ts_chars(t2),
    ensures
        t1 == t2,
{
    assert forall|p: int| 0 <= p < 20 implies ts_char_at(t1, p) == ts_char_at(t2, p) by {
        assert(ts_chars(t1)[p] == ts_char_at(t1, p));
        assert(ts_chars(t2)[p] == ts_char_at(t2, p));
    }
    assert(ts_char_at(t1, 0) == ts_char_at(t2, 0));
    assert(ts_char_at(t1, 1) == ts_char_at(t2, 1));
    assert(ts_char_at(t1, 2) == ts_char_at(t2, 2));
    assert(ts_char_at(t1, 3) == ts_char_at(t2, 3));
    assert(ts_char_at(t1, 5) == ts_char_at(t2, 5));
    assert(ts_char_at(t1, 6) == ts_char_at(t2, 6));
    assert(ts_char_at(t1, 8) == ts_char_at(t2, 8));
    assert(ts_char_at(t1, 9) == ts_char_at(t2, 9));
    assert(ts_char_at(t1, 11) == ts_char_at(t2, 11));
    assert(ts_char_at(t1, 12) == ts_char_at(t2, 12));
    assert(ts_char_at(t1, 14) == ts_char_at(t2, 14));
    assert(ts_char_at(t1, 15) == ts_char_at(t2, 15));
    assert(ts_char_at(t1, 17) == ts_char_at(t2, 17));
    assert(ts_char_at(t1, 18) == ts_char_at(t2, 18));
    assert(t1.year as int / 1000 % 10 == t2.year as int / 1000 % 10);
    assert(t1.year as int / 100 % 10 == t2.year as int / 100 % 10);
    assert(t1.year as int / 10 % 10 == t2.year as int / 10 % 10);
    assert(t1.year as int % 10 == t2.year as int % 10);
    assert(t1.year == t2.year);
    assert(t1.month as int / 10 == t2.month as int / 10 && t1.month as int % 10 == t2.month as int
        % 10);
    assert(t1.day as int / 10 == t2.day as int / 10 && t1.day as int % 10 == t2.day as int % 10);
    assert(t1.hour as int / 10 == t2.hour as int / 10 && t1.hour as int % 10 == t2.hour as int
        % 10);
    assert(t1.minute as int / 10 == t2.minute as int / 10 && t1.minute as int % 10 == t2.minute as int
        % 10);
    assert(t1.second as int / 10 == t2.second as int / 10 && t1.second as int % 10 == t2.second as int
        % 10);
}

/// The wire form of a timestamp needs no JSON escaping.
pub proof fn lemma_ts_chars_plain(t: Timestamp)
    requires
        t.well_formed(),
    ensures
        forall|p: int|
            0 <= p < ts_chars(t).len() ==> crate::wire::plain_byte(#[trigger] ts_chars(t)[p]),
{
    assert forall|p: int| 0 <= p < ts_chars(t).len() implies crate::wire::plain_byte(
        #[trigger] ts_chars(t)[p],
    ) by {
        assert(ts_chars(t)[p] == ts_char_at(t, p));
    }
}

/// How many days the month `m` of year `y` has.
pub fn days_in_month_of(y: u16, m: u8) -> (r: u8)
    requires
        1 <= m <= 12,
    ensures
        r == days_in_month(y as int, m as int),
{
    if m == 2 {
        if y % 4 == 0 && (y % 100 != 0 || y % 400 == 0) {
            29
        } else {
            28
        }
    } else if m == 4 || m == 6 || m == 9 || m == 11 {
        30
    } else {
        31
    }
}

fn push_two_digits(out: &mut Vec<u8>, v: u8)
    requires
        v <= 99,
    ensures
        final(out)@ == old(out)@ + seq![(48 + v as int / 10) as u8, (48 + v as int % 10) as u8],
{
    out.push(48 + v / 10);
    out.push(48 + v % 10);
    proof {
        assert(out@ =~= old(out)@ + seq![(48 + v as int / 10) as u8, (48 + v as int % 10) as u8]);
    }
}

impl Timestamp {
    /// The wire form of this timestamp.
    pub fn to_text(&self) -> (r: Vec<u8>)
        requires
            self.well_formed(),
        ensures
            r@ == ts_chars(*self),
    {
        let mut out: Vec<u8> = Vec::new();
        let y = self.year;
        out.push(48 + (y / 1000) as u8);
        out.push(48 + (y / 100 % 10) as u8);
        out.push(48 + (y / 10 % 10) as u8);
        out.push(48 + (y % 10) as u8);
        out.push(45);
        push_two_digits(&mut out, self.month);
        out.push(45);
        push_two_digits(&mut out, self.day);
        out.push(84);
        push_two_digits(&mut out, self.hour);
        out.push(58);
        push_two_digits(&mut out, self.minute);
        out.push(58);
        push_two_digits(&mut out, self.second);
        out.push(90);
        proof {
            assert(out@ =~= ts_chars(*self));
        }
        out
    }

    /// Parse the wire form of a timestamp.
    ///
    /// Succeeds exactly on the twenty-byte form with a real calendar date,
    /// and the accepted text is the wire form of the returned value.
    #[verifier::rlimit(50)]
    pub fn parse(s: &[u8]) -> (r: Option<Timestamp>)
        ensures
            r is Some <==> is_ts_text(s@),
            r matches Some(t) ==> t.well_formed() && s@ == ts_chars(t),
    {
        if s.len() != 20 {
            return None;
        }
        let mut k: usize = 0;
        while k < 20
            invariant
                s@.len() == 20,
                k <= 20,
                forall|p: int| 0 <= p < k && is_ts_digit_pos(p) ==> is_digit(#[trigger] s@[p]),
                forall|p: int|
                    0 <= p < k && !is_ts_digit_pos(p) ==> s@[p] == ts_char_at(
                        Timestamp { year: 0, month: 0, day: 0, hour: 0, minute: 0, second: 0 },
                        p,
                    ),
            decreases 20 - k,
        {
            let c = s[k];
            if k == 4 || k == 7 {
                if c != 45 {
                    return None;
                }
            } else if k == 10 {
                if c != 84 {
                    return None;
                }
            } else if k == 13 || k == 16 {
                if c != 58 {
                    return None;
                }
            } else if k == 19 {
                if c != 90 {
                    return None;
                }
            } else {
                if !(48 <= c && c <= 57) {
                    return None;
                }
            }
            k = k + 1;
        }
        let year: u16 = (s[0] - 48) as u16 * 1000 + (s[1] - 48) as u16 * 100 + (s[2] - 48) as u16
            * 10 + (s[3] - 48) as u16;
        let month: u8 = (s[5] - 48) * 10 + (s[6] - 48);
        let day: u8 = (s[8] - 48) * 10 + (s[9] - 48);
        let hour: u8 = (s[11] - 48) * 10 + (s[12] - 48);
        let minute: u8 = (s[14] - 48) * 10 + (s[15] - 48);
        let second: u8 = (s[17] - 48) * 10 + (s[18] - 48);
        if month < 1 || month > 12 {
            return None;
        }
        if day < 1 || day > days_in_month_of(year, month) {
            return None;
        }
        if hour > 23 || minute > 59 || second > 59 {
            return None;
        }
        let t = Timestamp { year, month, day, hour, minute, second };
        proof {
            assert(year as int == ts_year_of(s@));
            assert(t.year as int / 1000 % 10 == s@[0] - 48);
            assert(t.year as int / 100 % 10 == s@[1] - 48);
            assert(t.year as int / 10 % 10 == s@[2] - 48);
            assert(t.year as int % 10 == s@[3] - 48);
            assert(t.month as int / 10 == s@[5] - 48 && t.month as int % 10 == s@[6] - 48);
            assert(t.day as int / 10 == s@[8] - 48 && t.day as int % 10 == s@[9] - 48);
            assert(t.hour as int / 10 == s@[11] - 48 && t.hour as int % 10 == s@[12] - 48);
            assert(t.minute as int / 10 == s@[14] - 48 && t.minute as int % 10 == s@[15] - 48);
            assert(t.second as int / 10 == s@[17] - 48 && t.second as int % 10 == s@[18] - 48);
            assert forall|p: int| 0 <= p < 20 implies s@[p] == ts_char_at(t, p) by {
                if !is_ts_digit_pos(p) {
                    assert(s@[p] == ts_char_at(
                        Timestamp { year: 0, month: 0, day: 0, hour: 0, minute: 0, second: 0 },
                        p,
                    ));
                }
            }
            assert(s@ =~= ts_chars(t));
        }
        Some(t)
    }
}

} // verus!
