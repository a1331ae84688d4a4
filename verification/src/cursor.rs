//! Reading the terminal's answer to a cursor position query
//! (`ESC [ row ; column R`, rows counted from 1).
use vstd::prelude::*;
use vstd::utf8::valid_utf8;

verus! {

/// The most bytes read of an answer before giving up on its end.
pub const CURSOR_RESPONSE_LIMIT: usize = 16;

/// Whether `bytes` is valid UTF-8, by `std::str::from_utf8`.
/// Trusted: it succeeds exactly on the byte strings that vstd's `valid_utf8`
/// accepts.
#[verifier::external_body]
fn is_utf8(bytes: &Vec<u8>) -> (r: bool)
    ensures
        r == valid_utf8(bytes@),
{
    std::str::from_utf8(bytes).is_ok()
}

/// Whether the answer read so far is complete: it ends with `R`, or the
/// reading limit is reached.
pub fn cursor_response_complete(response: &Vec<u8>) -> (r: bool)
    ensures
        r == ((response@.len() > 0 && response@.last() == 0x52u8) || response@.len()
            >= CURSOR_RESPONSE_LIMIT),
{
    let n = response.len();
    (n > 0 && response[n - 1] == 0x52u8) || n >= CURSOR_RESPONSE_LIMIT
}

/// Every byte is an ASCII digit.
pub open spec fn all_digits(d: Seq<u8>) -> bool {
    forall|i: int| 0 <= i < d.len() ==> 0x30 <= #[trigger] d[i] <= 0x39
}

/// The number that a string of decimal digits spells.
pub open spec fn digits_value(d: Seq<u8>) -> nat
    decreases d.len(),
{
    if d.len() == 0 {
        0
    } else {
        digits_value(d.drop_last()) * 10 + (d.last() - 0x30) as nat
    }
}

/// `u16`'s `FromStr`: an optional `+` (not alone), then one or more decimal
/// digits whose value fits.
pub open spec fn parse_u16_spec(s: Seq<u8>) -> Option<u16> {
    let d = if s.len() > 1 && s[0] == 0x2bu8 { s.drop_first() } else { s };
    if d.len() > 0 && all_digits(d) && digits_value(d) <= u16::MAX {
        Some(digits_value(d) as u16)
    } else {
        None
    }
}

/// `p` is the first position of `b` in `s`.
pub open spec fn is_first_index(s: Seq<u8>, b: u8, p: int) -> bool {
    0 <= p < s.len() && s[p] == b && forall|j: int| 0 <= j < p ==> s[j] != b
}

/// The zero-based row in a cursor position answer: the text must be UTF-8,
/// start with `ESC [`, end with `R`, and hold a `;`; the part before the
/// first `;` must parse as a `u16` of at least 1.
pub open spec fn cursor_row_spec(r: Seq<u8>) -> Option<u16> {
    if valid_utf8(r) && r.len() >= 3 && r[0] == 0x1bu8 && r[1] == 0x5bu8 && r.last() == 0x52u8 {
        let body = r.subrange(2, r.len() - 1);
        if exists|p: int| is_first_index(body, 0x3bu8, p) {
            let p = choose|p: int| is_first_index(body, 0x3bu8, p);
            match parse_u16_spec(body.take(p)) {
                Some(v) => if v >= 1 {
                    Some((v - 1) as u16)
                } else {
                    None
                },
                None => None,
            }
        } else {
            None
        }
    } else {
        None
    }
}

proof fn lemma_first_index_unique(s: Seq<u8>, b: u8, p: int, q: int)
    requires
        is_first_index(s, b, p),
        is_first_index(s, b, q),
    ensures
        p == q,
{
    if p < q {
        assert(s[p] != b);
    } else if q < p {
        assert(s[q] != b);
    }
}

/// Parses the bytes `s[from..to]` as a `u16`, as `u16::from_str` does.
fn parse_u16(s: &Vec<u8>, from: usize, to: usize) -> (r: Option<u16>)
    requires
        from <= to <= s@.len(),
    ensures
        r == parse_u16_spec(s@.subrange(from as int, to as int)),
{
    let ghost whole = s@.subrange(from as int, to as int);
    let mut start = from;
    if to - from > 1 && s[from] == 0x2bu8 {
        start = from + 1;
    }
    let ghost d = s@.subrange(start as int, to as int);
    assert(d == (if whole.len() > 1 && whole[0] == 0x2bu8 {
        whole.drop_first()
    } else {
        whole
    }));
    if start == to {
        return None;
    }
    let mut value: u32 = 0;
    let mut i = start;
    while i < to
        invariant
            start <= i <= to <= s@.len(),
            d == s@.subrange(start as int, to as int),
            whole == s@.subrange(from as int, to as int),
            d == (if whole.len() > 1 && whole[0] == 0x2bu8 {
                whole.drop_first()
            } else {
                whole
            }),
            d.len() > 0,
            all_digits(d.take(i - start)),
            value == (if digits_value(d.take(i - start)) > 65536 {
                65536
            } else {
                digits_value(d.take(i - start))
            }),
        decreases to - i,
    {
        let c = s[i];
        if c < 0x30u8 || c > 0x39u8 {
            assert(d[i - start] == c);
            assert(!all_digits(d));
            return None;
        }
        let ghost k = i - start;
        assert(d.take(k + 1).drop_last() =~= d.take(k));
        assert(d.take(k + 1).last() == c);
        assert(digits_value(d.take(k + 1)) == digits_value(d.take(k)) * 10 + (c - 0x30) as nat);
        if value >= 65536 {
            assert(digits_value(d.take(k + 1)) >= digits_value(d.take(k))) by (nonlinear_arith)
                requires
                    digits_value(d.take(k + 1)) == digits_value(d.take(k)) * 10 + (c - 0x30) as nat,
            ;
            value = 65536;
        } else {
            value = value * 10 + (c - 0x30u8) as u32;
            if value > 65536 {
                value = 65536;
            }
        }
        assert(all_digits(d.take(k + 1))) by {
            assert forall|j: int| 0 <= j < k + 1 implies 0x30 <= #[trigger] d.take(k + 1)[j] <= 0x39 by {
                if j < k {
                    assert(d.take(k + 1)[j] == d.take(k)[j]);
                }
            }
        }
        i += 1;
    }
    assert(d.take(to - start) =~= d);
    if value > 65535 {
        None
    } else {
        Some(value as u16)
    }
}

/// The zero-based cursor row in the terminal's answer, if it is well formed.
pub fn parse_cursor_row(response: &Vec<u8>) -> (r: Option<u16>)
    ensures
        r == cursor_row_spec(response@),
{
    let n = response.len();
    if !is_utf8(response) || n < 3 || response[0] != 0x1b || response[1] != 0x5bu8 || response[n
        - 1] != 0x52u8 {
        return None;
    }
    let ghost body = response@.subrange(2, n - 1);
    let mut p: usize = 2;
    while p < n - 1
        invariant
            2 <= p <= n - 1,
            n == response@.len(),
            body == response@.subrange(2, n - 1),
            forall|j: int| 0 <= j < p - 2 ==> body[j] != 0x3bu8,
        ensures
            p < n - 1 ==> response@[p as int] == 0x3bu8,
        decreases n - 1 - p,
    {
        if response[p] == 0x3bu8 {
            break;
        }
        p += 1;
    }
    if p == n - 1 {
        assert(!exists|q: int| is_first_index(body, 0x3bu8, q));
        return None;
    }
    proof {
        assert(is_first_index(body, 0x3bu8, p - 2));
        let q = choose|q: int| is_first_index(body, 0x3bu8, q);
        lemma_first_index_unique(body, 0x3bu8, p - 2, q);
        assert(body.take(p - 2) =~= response@.subrange(2, p as int));
    }
    match parse_u16(response, 2, p) {
        Some(v) => if v >= 1 {
            Some(v - 1)
        } else {
            None
        },
        None => None,
    }
}

} // verus!
