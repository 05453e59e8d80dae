//! Stable identifiers and sanitized names: the author id derived from a
//! display name, the sanitized stem of a cover-cache file name, and a
//! verified decimal formatter for generated chapter titles.

use vstd::prelude::*;
use crate::strutil::chars_of;

verus! {

/// Characters that survive id sanitization: ASCII letters and digits.
pub open spec fn is_id_char(c: char) -> bool {
    ('a' <= c && c <= 'z') || ('A' <= c && c <= 'Z') || ('0' <= c && c <= '9')
}

/// The stable id of a display name: every character outside
/// `[A-Za-z0-9]` becomes `_`.
pub open spec fn id_of(s: Seq<char>) -> Seq<char> {
    s.map_values(|c: char| if is_id_char(c) { c } else { '_' })
}

/// Derives the stable, filesystem-safe identifier of a display name.
/// The id is a pure function of the name: equal names give equal ids.
pub fn string_to_id(item: String) -> (r: String)
    ensures
        r@ == id_of(item@),
{
    let cs = chars_of(item.as_str());
    let mut out = String::new();
    let mut i: usize = 0;
    while i < cs.len()
        invariant
            i <= cs@.len(),
            cs@ == item@,
            out@ == id_of(item@.subrange(0, i as int)),
        decreases cs@.len() - i,
    {
        let c = cs[i];
        let k: char = if ('a' <= c && c <= 'z') || ('A' <= c && c <= 'Z') || ('0' <= c && c
            <= '9') {
            c
        } else {
            '_'
        };
        out.push(k);
        proof {
            assert(id_of(item@.subrange(0, i + 1 as int)) =~= id_of(
                item@.subrange(0, i as int),
            ).push(k));
        }
        i += 1;
    }
    proof {
        assert(item@.subrange(0, item@.len() as int) =~= item@);
    }
    out
}

/// Characters that survive in a cover-cache file stem: ASCII letters,
/// digits and spaces.
pub open spec fn is_stem_char(c: char) -> bool {
    is_id_char(c) || c == ' '
}

/// The sanitized stem of an album title: every character outside
/// `[A-Za-z0-9 ]` is dropped.
pub open spec fn cover_stem_of(s: Seq<char>) -> Seq<char> {
    s.filter(|c: char| is_stem_char(c))
}

/// Sanitizes an album title into a cover-cache file stem.
pub fn sanitize_album_title(title: &str) -> (r: String)
    ensures
        r@ == cover_stem_of(title@),
{
    let ghost pred = |c: char| is_stem_char(c);
    let cs = chars_of(title);
    let mut out = String::new();
    let mut i: usize = 0;
    while i < cs.len()
        invariant
            i <= cs@.len(),
            cs@ == title@,
            out@ == title@.subrange(0, i as int).filter(pred),
            pred == (|c: char| is_stem_char(c)),
        decreases cs@.len() - i,
    {
        let c = cs[i];
        let keep: bool = ('a' <= c && c <= 'z') || ('A' <= c && c <= 'Z') || ('0' <= c && c
            <= '9') || c == ' ';
        proof {
            reveal(Seq::filter);
            assert(title@.subrange(0, i + 1 as int).drop_last() =~= title@.subrange(0, i as int));
            assert(title@.subrange(0, i + 1 as int).last() == c);
        }
        if keep {
            out.push(c);
        }
        i += 1;
    }
    proof {
        assert(title@.subrange(0, title@.len() as int) =~= title@);
    }
    out
}

/// The character of a single decimal digit.
pub open spec fn digit_char(d: nat) -> char {
    ((48 + d) as u32) as char
}

/// The decimal rendering of a natural number, most significant digit
/// first, with no leading zeros (zero renders as "0").
pub open spec fn dec_str(n: nat) -> Seq<char>
    decreases n,
{
    if n < 10 {
        seq![digit_char(n)]
    } else {
        dec_str(n / 10).push(digit_char(n % 10))
    }
}

/// Renders a number in decimal.
pub fn u64_to_string(n: u64) -> (r: String)
    ensures
        r@ == dec_str(n as nat),
{
    let mut digits: Vec<char> = Vec::new();
    let mut m: u64 = n;
    let d0: char = (((m % 10) as u8) + 48) as char;
    digits.push(d0);
    m = m / 10;
    proof {
        assert(d0 == digit_char((n % 10) as nat));
        if m == 0 {
            assert(n < 10);
            assert(dec_str(n as nat) =~= digits@.reverse());
        } else {
            assert(dec_str(n as nat) == dec_str((n / 10) as nat).push(digit_char((n % 10) as nat)));
            assert(dec_str(n as nat) =~= dec_str(m as nat) + digits@.reverse());
        }
    }
    while m > 0
        invariant
            m > 0 ==> dec_str(n as nat) == dec_str(m as nat) + digits@.reverse(),
            m == 0 ==> dec_str(n as nat) == digits@.reverse(),
        decreases m,
    {
        let d: char = (((m % 10) as u8) + 48) as char;
        let ghost olddigits = digits@;
        let ghost oldm = m;
        digits.push(d);
        m = m / 10;
        proof {
            assert(d == digit_char((oldm % 10) as nat));
            assert(digits@.reverse() =~= seq![d] + olddigits.reverse());
            if m > 0 {
                assert(oldm >= 10);
                assert(dec_str(oldm as nat) == dec_str(m as nat).push(
                    digit_char((oldm % 10) as nat),
                ));
                assert(dec_str(m as nat) + digits@.reverse() =~= (dec_str(m as nat) + seq![d])
                    + olddigits.reverse());
                assert(dec_str(m as nat) + seq![d] =~= dec_str(oldm as nat));
                assert(dec_str(n as nat) =~= dec_str(m as nat) + digits@.reverse());
            } else {
                assert(oldm < 10);
                assert(dec_str(oldm as nat) =~= seq![d]);
                assert(dec_str(n as nat) =~= digits@.reverse());
            }
        }
    }
    let mut out = String::new();
    let k = digits.len();
    let mut i: usize = 0;
    proof {
        assert(digits@.len() > 0);
        assert(dec_str(n as nat) == digits@.reverse());
    }
    while i < k
        invariant
            i <= k,
            k == digits@.len(),
            dec_str(n as nat) == digits@.reverse(),
            out@ == digits@.reverse().subrange(0, i as int),
        decreases k - i,
    {
        let c = digits[k - 1 - i];
        proof {
            assert(digits@.reverse()[i as int] == digits@[k - 1 - i as int]);
            assert(digits@.reverse().subrange(0, i + 1 as int) =~= digits@.reverse().subrange(
                0,
                i as int,
            ).push(c));
        }
        out.push(c);
        i += 1;
    }
    proof {
        assert(digits@.reverse().subrange(0, k as int) =~= digits@.reverse());
    }
    out
}

} // verus!
