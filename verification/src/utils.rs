//! Small pure transforms: strict percent-decoding of request paths, and
//! rendering an integer as decimal digits.

use vstd::prelude::*;

verus! {

/// ASCII hexadecimal digit, either case.
pub open spec fn is_hex_digit(c: u8) -> bool {
    (48 <= c <= 57) || (65 <= c <= 70) || (97 <= c <= 102)
}

/// Numeric value of a hexadecimal digit.
pub open spec fn hex_value(c: u8) -> int {
    if 48 <= c <= 57 {
        c - 48
    } else if 65 <= c <= 70 {
        c - 55
    } else {
        c - 87
    }
}

/// Strict percent-decoding: every `%` must introduce exactly two
/// hexadecimal digits; any malformed escape fails the whole input.
pub open spec fn percent_decode(s: Seq<u8>) -> Option<Seq<u8>>
    decreases s.len(),
{
    if s.len() == 0 {
        Some(Seq::empty())
    } else if s[0] == 37 {
        if s.len() >= 3 && is_hex_digit(s[1]) && is_hex_digit(s[2]) {
            match percent_decode(s.skip(3)) {
                Some(rest) => Some(seq![(hex_value(s[1]) * 16 + hex_value(s[2])) as u8] + rest),
                None => None,
            }
        } else {
            None
        }
    } else {
        match percent_decode(s.skip(1)) {
            Some(rest) => Some(seq![s[0]] + rest),
            None => None,
        }
    }
}

/// Numeric value of a hexadecimal digit, or `None` for any other byte.
fn hex_digit_value(c: u8) -> (r: Option<u8>)
    ensures
        r is Some <==> is_hex_digit(c),
        r is Some ==> r->0 == hex_value(c),
{
    if 48 <= c && c <= 57 {
        Some(c - 48)
    } else if 65 <= c && c <= 70 {
        Some(c - 55)
    } else if 97 <= c && c <= 102 {
        Some(c - 87)
    } else {
        None
    }
}

/// Percent-decodes a request path; fails on any malformed escape, in which
/// case no decoded form exists.
pub fn url_decode(url: &Vec<u8>) -> (r: Option<Vec<u8>>)
    ensures
        match r {
            Some(v) => percent_decode(url@) == Some(v@),
            None => percent_decode(url@) is None,
        },
{
    let mut out: Vec<u8> = Vec::new();
    let mut i: usize = 0;
    proof {
        assert(url@.skip(0) =~= url@);
    }
    while i < url.len()
        invariant
            i <= url@.len(),
            percent_decode(url@) is Some <==> percent_decode(url@.skip(i as int)) is Some,
            percent_decode(url@.skip(i as int)) matches Some(rest) ==> percent_decode(url@)
                == Some(out@ + rest),
        decreases url@.len() - i,
    {
        let ghost tail = url@.skip(i as int);
        let c = url[i];
        assert(tail[0] == c);
        if c == 37 {
            if url.len() - i < 3 {
                assert(tail.len() < 3);
                assert(percent_decode(tail) is None);
                return None;
            }
            let h1 = hex_digit_value(url[i + 1]);
            let h2 = hex_digit_value(url[i + 2]);
            assert(tail[1] == url@[i + 1] && tail[2] == url@[i + 2]);
            match (h1, h2) {
                (Some(v1), Some(v2)) => {
                    assert(v1 <= 15 && v2 <= 15);
                    let b = v1 * 16 + v2;
                    let ghost out0 = out@;
                    out.push(b);
                    proof {
                        assert(b == (hex_value(tail[1]) * 16 + hex_value(tail[2])) as u8);
                        assert(tail.skip(3) =~= url@.skip(i + 3));
                        if percent_decode(url@.skip(i + 3)) is Some {
                            let rest = percent_decode(url@.skip(i + 3))->0;
                            assert(out@ + rest =~= out0 + (seq![b] + rest));
                        }
                    }
                    i = i + 3;
                },
                _ => {
                    assert(!(is_hex_digit(tail[1]) && is_hex_digit(tail[2])));
                    assert(percent_decode(tail) is None);
                    return None;
                },
            }
        } else {
            let ghost out0 = out@;
            out.push(c);
            proof {
                assert(tail.skip(1) =~= url@.skip(i + 1));
                if percent_decode(url@.skip(i + 1)) is Some {
                    let rest = percent_decode(url@.skip(i + 1))->0;
                    assert(out@ + rest =~= out0 + (seq![tail[0]] + rest));
                }
            }
            i = i + 1;
        }
    }
    proof {
        assert(url@.skip(i as int) =~= Seq::<u8>::empty());
        assert(out@ + Seq::<u8>::empty() =~= out@);
    }
    Some(out)
}

/// The decimal digits of a non-negative integer, most significant first.
pub open spec fn dec_digits(n: int) -> Seq<u8>
    recommends
        n >= 0,
    decreases n,
{
    if n < 10 {
        seq![(48 + if n >= 0 { n } else { 0 }) as u8]
    } else {
        dec_digits(n / 10) + seq![(48 + n % 10) as u8]
    }
}

/// Renders an integer as its decimal digits.
pub fn u64_to_decimal(n: u64) -> (r: Vec<u8>)
    ensures
        r@ == dec_digits(n as int),
    decreases n,
{
    if n < 10 {
        let v: Vec<u8> = vec![48 + n as u8];
        proof {
            assert(v@ =~= seq![(48 + n as int) as u8]);
        }
        v
    } else {
        let mut v = u64_to_decimal(n / 10);
        v.push(48 + (n % 10) as u8);
        proof {
            assert(v@ =~= dec_digits(n as int / 10) + seq![(48 + n as int % 10) as u8]);
        }
        v
    }
}

} // verus!
