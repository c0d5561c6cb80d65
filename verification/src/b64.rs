//! Base64 (RFC 4648), standard and URL-safe.

use vstd::arithmetic::div_mod::lemma_fundamental_div_mod_converse;
use vstd::prelude::*;
use vstd::utf8::{is_ascii_chars, is_ascii_chars_encode_utf8};

use base64::engine::general_purpose::{STANDARD, URL_SAFE_NO_PAD};
use base64::Engine;

use crate::text::{is_space, utf8};

verus! {

/// The two alphabets. The standard one is padded with `=`, the URL-safe one is
/// not.
#[derive(Debug, Clone, Copy, PartialEq, Eq, Structural)]
pub enum Alphabet {
    Standard,
    UrlSafe,
}

/// The character that stands for the six bits `n`.
pub open spec fn digit(n: int, a: Alphabet) -> u8 {
    if n < 26 {
        (65 + n) as u8
    } else if n < 52 {
        (97 + n - 26) as u8
    } else if n < 62 {
        (48 + n - 52) as u8
    } else if n == 62 {
        match a {
            Alphabet::Standard => 43,
            Alphabet::UrlSafe => 45,
        }
    } else {
        match a {
            Alphabet::Standard => 47,
            Alphabet::UrlSafe => 95,
        }
    }
}

/// `n` padding characters, where there is padding.
pub open spec fn padding(n: nat, a: Alphabet) -> Seq<u8> {
    match a {
        Alphabet::Standard => Seq::new(n, |_i: int| 61u8),
        Alphabet::UrlSafe => Seq::empty(),
    }
}

/// Base64: every three bytes become four characters.
pub open spec fn base64_of(s: Seq<u8>, a: Alphabet) -> Seq<u8>
    decreases s.len(),
{
    if s.len() == 0 {
        Seq::empty()
    } else if s.len() == 1 {
        seq![digit(s[0] as int / 4, a), digit(s[0] as int % 4 * 16, a)] + padding(2, a)
    } else if s.len() == 2 {
        seq![
            digit(s[0] as int / 4, a),
            digit(s[0] as int % 4 * 16 + s[1] as int / 16, a),
            digit(s[1] as int % 16 * 4, a),
        ] + padding(1, a)
    } else {
        seq![
            digit(s[0] as int / 4, a),
            digit(s[0] as int % 4 * 16 + s[1] as int / 16, a),
            digit(s[1] as int % 16 * 4 + s[2] as int / 64, a),
            digit(s[2] as int % 64, a),
        ] + base64_of(s.skip(3), a)
    }
}

/// The characters with the codes `s`.
pub open spec fn ascii(s: Seq<u8>) -> Seq<char> {
    s.map(|_i: int, b: u8| b as char)
}

/// Whether `s` is the base64 text of `data`.
pub open spec fn spells(s: Seq<char>, data: Seq<u8>, a: Alphabet) -> bool {
    s == ascii(base64_of(data, a))
}

/// Calls `base64::Engine::encode` of `STANDARD`: the padded base64 text of the
/// bytes in the standard alphabet. No slice is so long that the length of its
/// text would overflow.
#[verifier::external_body]
pub(crate) fn standard_encode(data: &[u8]) -> (r: String)
    ensures
        r@ == ascii(base64_of(data@, Alphabet::Standard)),
{
    STANDARD.encode(data)
}

/// Calls `base64::Engine::decode` of `STANDARD`: the bytes that the text spells
/// in the standard alphabet. Padding has to be there and spare bits have to be
/// zero, so a text that is not what encoding some bytes gives is refused.
#[verifier::external_body]
pub(crate) fn standard_decode(s: &str) -> (r: Option<Vec<u8>>)
    ensures
        match r {
            Some(data) => spells(s@, data@, Alphabet::Standard),
            None => forall|data: Seq<u8>| !spells(s@, data, Alphabet::Standard),
        },
{
    STANDARD.decode(s).ok()
}

/// Calls `base64::Engine::encode` of `URL_SAFE_NO_PAD`: the base64 text of the
/// bytes in the URL-safe alphabet, without padding. No slice is so long that
/// the length of its text would overflow.
#[verifier::external_body]
pub(crate) fn url_safe_encode(data: &[u8]) -> (r: String)
    ensures
        r@ == ascii(base64_of(data@, Alphabet::UrlSafe)),
{
    URL_SAFE_NO_PAD.encode(data)
}

/// Calls `base64::Engine::decode` of `URL_SAFE_NO_PAD`: the bytes that the text
/// spells in the URL-safe alphabet. Padding and spare bits that are not zero are
/// refused, so a text that is not what encoding some bytes gives is refused.
#[verifier::external_body]
pub(crate) fn url_safe_decode(s: &str) -> (r: Option<Vec<u8>>)
    ensures
        match r {
            Some(data) => spells(s@, data@, Alphabet::UrlSafe),
            None => forall|data: Seq<u8>| !spells(s@, data, Alphabet::UrlSafe),
        },
{
    URL_SAFE_NO_PAD.decode(s).ok()
}

/// Different six bit values have different characters, and none is `=`.
proof fn lemma_digit(m: int, n: int, a: Alphabet)
    requires
        0 <= m < 64,
        0 <= n < 64,
    ensures
        digit(m, a) == digit(n, a) ==> m == n,
        digit(m, a) != 61,
        digit(m, a) < 128,
{
}

/// No two byte strings have the same base64 text.
proof fn lemma_base64_unambiguous(x: Seq<u8>, y: Seq<u8>, a: Alphabet)
    requires
        base64_of(x, a) == base64_of(y, a),
    ensures
        x == y,
    decreases x.len(),
{
    let s = base64_of(x, a);
    lemma_base64_len(x, a);
    lemma_base64_len(y, a);
    if x.len() == 0 || y.len() == 0 {
        assert(x =~= y);
    } else {
        let (x0, y0) = (x[0] as int, y[0] as int);
        lemma_digit(x0 / 4, y0 / 4, a);
        let x1 = if x.len() > 1 {
            x[1] as int
        } else {
            0
        };
        let y1 = if y.len() > 1 {
            y[1] as int
        } else {
            0
        };
        assert(s[0] == digit(x0 / 4, a) && s[0] == digit(y0 / 4, a));
        assert(s[1] == digit(x0 % 4 * 16 + x1 / 16, a));
        assert(s[1] == digit(y0 % 4 * 16 + y1 / 16, a));
        lemma_digit(x0 % 4 * 16 + x1 / 16, y0 % 4 * 16 + y1 / 16, a);
        assert(x0 == y0);
        if x.len() == 1 || y.len() == 1 {
            lemma_third(x, a);
            lemma_third(y, a);
            assert(x =~= y);
        } else {
            let x2 = if x.len() > 2 {
                x[2] as int
            } else {
                0
            };
            let y2 = if y.len() > 2 {
                y[2] as int
            } else {
                0
            };
            assert(s[2] == digit(x1 % 16 * 4 + x2 / 64, a));
            assert(s[2] == digit(y1 % 16 * 4 + y2 / 64, a));
            lemma_digit(x1 % 16 * 4 + x2 / 64, y1 % 16 * 4 + y2 / 64, a);
            assert(x1 == y1);
            if x.len() == 2 || y.len() == 2 {
                lemma_fourth(x, a);
                lemma_fourth(y, a);
                assert(x =~= y);
            } else {
                assert(s[3] == digit(x2 % 64, a));
                assert(s[3] == digit(y2 % 64, a));
                lemma_digit(x2 % 64, y2 % 64, a);
                assert(x2 == y2);
                assert(s.skip(4) =~= base64_of(x.skip(3), a));
                assert(s.skip(4) =~= base64_of(y.skip(3), a));
                lemma_base64_unambiguous(x.skip(3), y.skip(3), a);
                assert(x =~= seq![x[0], x[1], x[2]] + x.skip(3));
                assert(y =~= seq![y[0], y[1], y[2]] + y.skip(3));
            }
        }
    }
}

/// Bytes that are there take characters.
proof fn lemma_base64_len(s: Seq<u8>, a: Alphabet)
    ensures
        s.len() == 0 ==> base64_of(s, a).len() == 0,
        s.len() >= 1 ==> base64_of(s, a).len() >= 2,
        s.len() >= 2 ==> base64_of(s, a).len() >= 3,
        s.len() >= 3 ==> base64_of(s, a).len() >= 4,
        s.len() == 1 ==> base64_of(s, a).len() == (if a is Standard {
            4int
        } else {
            2
        }),
        s.len() == 2 ==> base64_of(s, a).len() == (if a is Standard {
            4int
        } else {
            3
        }),
{
}

/// The third character tells a single byte from more.
proof fn lemma_third(s: Seq<u8>, a: Alphabet)
    requires
        s.len() > 0,
    ensures
        (s.len() == 1) == (base64_of(s, a).len() < 3 || base64_of(s, a)[2] == 61),
{
    if s.len() == 2 {
        lemma_digit(s[1] as int % 16 * 4, 0, a);
    } else if s.len() > 2 {
        lemma_digit(s[1] as int % 16 * 4 + s[2] as int / 64, 0, a);
    }
}

/// The fourth character tells two bytes from more.
proof fn lemma_fourth(s: Seq<u8>, a: Alphabet)
    requires
        s.len() > 1,
    ensures
        (s.len() == 2) == (base64_of(s, a).len() < 4 || base64_of(s, a)[3] == 61),
{
    if s.len() > 2 {
        lemma_digit(s[2] as int % 64, 0, a);
    }
}

/// Base64 texts are ASCII.
proof fn lemma_base64_is_ascii(s: Seq<u8>, a: Alphabet)
    ensures
        forall|i: int| 0 <= i < base64_of(s, a).len() ==> #[trigger] base64_of(s, a)[i] < 128,
    decreases s.len(),
{
    if s.len() >= 3 {
        let rest = base64_of(s.skip(3), a);
        lemma_base64_is_ascii(s.skip(3), a);
        let all = base64_of(s, a);
        assert forall|i: int| 0 <= i < all.len() implies #[trigger] all[i] < 128 by {
            if i >= 4 {
                assert(all[i] == rest[i - 4]);
            }
        }
    }
}

/// The bytes of a base64 text are its characters.
pub proof fn lemma_base64_bytes(s: Seq<u8>, a: Alphabet)
    ensures
        utf8(ascii(base64_of(s, a))) == base64_of(s, a),
{
    lemma_base64_is_ascii(s, a);
    let b = base64_of(s, a);
    let c = ascii(b);
    assert forall|i: int| 0 <= i < c.len() implies (#[trigger] c[i]) as u32 == b[i] by {}
    assert(is_ascii_chars(c));
    is_ascii_chars_encode_utf8(c);
    assert(utf8(c) =~= b) by {
        assert forall|i: int| 0 <= i < b.len() implies utf8(c)[i] == b[i] by {
            assert(c[i] as u8 == b[i]);
        }
    }
}

/// Law: a base64 text spells one byte string only, so decoding gives back what
/// was encoded.
pub proof fn law_spelling_unique(s: Seq<char>, x: Seq<u8>, y: Seq<u8>, a: Alphabet)
    requires
        spells(s, x, a),
        spells(s, y, a),
    ensures
        x == y,
{
    lemma_base64_bytes(x, a);
    lemma_base64_bytes(y, a);
    lemma_base64_unambiguous(x, y, a);
}

/// A base64 text neither starts nor ends with whitespace.
pub proof fn lemma_first_and_last(s: Seq<u8>, a: Alphabet)
    requires
        s.len() > 0,
    ensures
        ({
            let t = ascii(base64_of(s, a));
            &&& t.len() > 0
            &&& !is_space(t[0])
            &&& !is_space(t.last())
        }),
    decreases s.len(),
{
    let b = base64_of(s, a);
    let t = ascii(b);
    lemma_digit_is_dark(s[0] as int / 4, a);
    if s.len() == 1 {
        lemma_digit_is_dark(s[0] as int % 4 * 16, a);
    } else if s.len() == 2 {
        lemma_digit_is_dark(s[1] as int % 16 * 4, a);
    } else {
        lemma_digit_is_dark(s[2] as int % 64, a);
        let rest = base64_of(s.skip(3), a);
        if s.len() > 3 {
            lemma_first_and_last(s.skip(3), a);
            assert(b.last() == rest.last());
            assert(ascii(rest).last() == t.last());
        } else {
            assert(b.last() == digit(s[2] as int % 64, a));
        }
    }
    assert(t[0] == b[0] as char);
    assert(t.last() == b.last() as char);
}

/// No character of the alphabets is whitespace.
proof fn lemma_digit_is_dark(n: int, a: Alphabet)
    requires
        0 <= n < 64,
    ensures
        33 <= digit(n, a) < 127,
{
}

/// Law: the alphabets of RFC 4648.
pub proof fn law_alphabets(n: int)
    requires
        0 <= n < 64,
    ensures
        digit(n, Alphabet::Standard) as char
            == "ABCDEFGHIJKLMNOPQRSTUVWXYZabcdefghijklmnopqrstuvwxyz0123456789+/"@[n],
        digit(n, Alphabet::UrlSafe) as char
            == "ABCDEFGHIJKLMNOPQRSTUVWXYZabcdefghijklmnopqrstuvwxyz0123456789-_"@[n],
{
    reveal_strlit("ABCDEFGHIJKLMNOPQRSTUVWXYZabcdefghijklmnopqrstuvwxyz0123456789+/");
    reveal_strlit("ABCDEFGHIJKLMNOPQRSTUVWXYZabcdefghijklmnopqrstuvwxyz0123456789-_");
}

/// Where the bits of three bytes go.
proof fn lemma_bits(b0: int, b1: int, b2: int)
    requires
        0 <= b0 < 256,
        0 <= b1 < 256,
        0 <= b2 < 256,
    ensures
        ({
            let bits = b0 * 0x1_0000 + b1 * 0x100 + b2;
            &&& bits / 0x4_0000 == b0 / 4
            &&& bits / 0x1000 % 64 == b0 % 4 * 16 + b1 / 16
            &&& bits / 64 % 64 == b1 % 16 * 4 + b2 / 64
            &&& bits % 64 == b2 % 64
        }),
{
    let bits = b0 * 0x1_0000 + b1 * 0x100 + b2;
    let (low2, low4, low6) = (b0 % 4, b1 % 16, b2 % 64);
    let (high1, high2) = (b1 / 16, b2 / 64);
    lemma_fundamental_div_mod_converse(
        bits,
        0x4_0000,
        b0 / 4,
        low2 * 0x1_0000 + b1 * 0x100 + b2,
    );
    let upper = b0 / 4 * 64 + (low2 * 16 + high1);
    lemma_fundamental_div_mod_converse(bits, 0x1000, upper, low4 * 0x100 + b2);
    lemma_fundamental_div_mod_converse(upper, 64, b0 / 4, low2 * 16 + high1);
    let middle = upper * 64 + (low4 * 4 + high2);
    lemma_fundamental_div_mod_converse(bits, 64, middle, low6);
    lemma_fundamental_div_mod_converse(middle, 64, upper, low4 * 4 + high2);
}

/// Law: four characters stand for the bits of three bytes, the most significant
/// first, whatever comes before and behind them.
pub proof fn law_groups(s: Seq<u8>, a: Alphabet, k: int)
    requires
        0 <= k,
        3 * k + 3 <= s.len(),
    ensures
        ({
            let bits = s[3 * k] * 0x1_0000 + s[3 * k + 1] * 0x100 + s[3 * k + 2];
            &&& base64_of(s, a).len() >= 4 * k + 4
            &&& base64_of(s, a)[4 * k] == digit(bits / 0x4_0000, a)
            &&& base64_of(s, a)[4 * k + 1] == digit(bits / 0x1000 % 64, a)
            &&& base64_of(s, a)[4 * k + 2] == digit(bits / 64 % 64, a)
            &&& base64_of(s, a)[4 * k + 3] == digit(bits % 64, a)
        }),
    decreases k,
{
    if k == 0 {
        lemma_bits(s[0] as int, s[1] as int, s[2] as int);
    } else {
        let rest = s.skip(3);
        law_groups(rest, a, k - 1);
        assert(rest[3 * (k - 1)] == s[3 * k]);
        assert(rest[3 * (k - 1) + 1] == s[3 * k + 1]);
        assert(rest[3 * (k - 1) + 2] == s[3 * k + 2]);
        let (all, part) = (base64_of(s, a), base64_of(rest, a));
        assert(all[4 * k] == part[4 * (k - 1)]);
        assert(all[4 * k + 1] == part[4 * (k - 1) + 1]);
        assert(all[4 * k + 2] == part[4 * (k - 1) + 2]);
        assert(all[4 * k + 3] == part[4 * (k - 1) + 3]);
    }
}

/// Law: the last one or two bytes take two or three characters, which end in zero
/// bits, and in the standard alphabet `=` makes them up to four.
pub proof fn law_last_group(s: Seq<u8>, a: Alphabet)
    requires
        s.len() % 3 != 0,
    ensures
        ({
            let k = s.len() as int / 3;
            let t = base64_of(s, a).skip(4 * k);
            &&& base64_of(s, a).len() >= 4 * k
            &&& s.len() % 3 == 1 ==> {
                let bits = s[3 * k] * 16;
                &&& t.len() == (if a is Standard {
                    4int
                } else {
                    2
                })
                &&& t[0] == digit(bits / 64, a) && t[1] == digit(bits % 64, a)
                &&& a is Standard ==> t[2] == 61 && t[3] == 61
            }
            &&& s.len() % 3 == 2 ==> {
                let bits = (s[3 * k] * 0x100 + s[3 * k + 1]) * 4;
                &&& t.len() == (if a is Standard {
                    4int
                } else {
                    3
                })
                &&& t[0] == digit(bits / 0x1000, a) && t[1] == digit(bits / 64 % 64, a) && t[2]
                    == digit(bits % 64, a)
                &&& a is Standard ==> t[3] == 61
            }
        }),
    decreases s.len(),
{
    let k = s.len() as int / 3;
    let all = base64_of(s, a);
    if s.len() == 1 {
        let b0 = s[0] as int;
        lemma_fundamental_div_mod_converse(b0 * 16, 64, b0 / 4, b0 % 4 * 16);
        assert(all.skip(0) =~= all);
    } else if s.len() == 2 {
        let (b0, b1) = (s[0] as int, s[1] as int);
        let bits = (b0 * 0x100 + b1) * 4;
        let upper = b0 / 4 * 64 + (b0 % 4 * 16 + b1 / 16);
        lemma_fundamental_div_mod_converse(
            bits,
            0x1000,
            b0 / 4,
            b0 % 4 * 0x400 + b1 * 4,
        );
        lemma_fundamental_div_mod_converse(bits, 64, upper, b1 % 16 * 4);
        lemma_fundamental_div_mod_converse(upper, 64, b0 / 4, b0 % 4 * 16 + b1 / 16);
        assert(all.skip(0) =~= all);
    } else {
        let rest = s.skip(3);
        law_last_group(rest, a);
        let part = base64_of(rest, a);
        assert(rest.len() as int / 3 == k - 1);
        assert(all.skip(4 * k) =~= part.skip(4 * (k - 1)));
        assert(rest[3 * (k - 1)] == s[3 * k]);
        if s.len() % 3 == 2 {
            assert(rest[3 * (k - 1) + 1] == s[3 * k + 1]);
        }
    }
}

} // verus!
