//! Base64 codec over the two alphabets the tool offers: the standard
//! alphabet with `=` padding, and the URL-safe alphabet without padding.
//! Encoding and decoding are defined by spec functions and the executable
//! codec is proved against them; decoding also proves exactly which inputs
//! are rejected.

use crate::error::Error;
use vstd::prelude::*;
use vstd::utf8::decode_utf8;
use vstd::utf8::valid_utf8;

verus! {

/// The alphabet and padding policy of one Base64 variant.
#[derive(Clone, Copy, Debug, PartialEq, Eq, Structural)]
pub enum Base64Format {
    /// `A-Z a-z 0-9 + /`, output padded with `=` to a multiple of four.
    Standard,
    /// `A-Z a-z 0-9 - _`, output unpadded.
    UrlSafe,
}

impl Default for Base64Format {
    /// The alphabet used when the format flag is absent.
    fn default() -> (r: Self)
        ensures
            r == Base64Format::Standard,
    {
        Base64Format::Standard
    }
}

/// The symbol that stands for a six-bit value under the chosen alphabet.
pub open spec fn sym_of(f: Base64Format, v: u8) -> u8
    recommends
        v < 64,
{
    if v < 26 {
        (v + 65) as u8  // 'A'..='Z'
    } else if v < 52 {
        (v + 71) as u8  // 'a'..='z'
    } else if v < 62 {
        (v - 4) as u8  // '0'..='9'
    } else if v == 62 {
        if f is Standard {
            43u8  // '+'
        } else {
            45u8  // '-'
        }
    } else {
        if f is Standard {
            47u8  // '/'
        } else {
            95u8  // '_'
        }
    }
}

/// The six-bit value a symbol stands for, if it belongs to the alphabet.
pub open spec fn val_of(f: Base64Format, c: u8) -> Option<u8> {
    if 65 <= c && c <= 90 {
        Some((c - 65) as u8)
    } else if 97 <= c && c <= 122 {
        Some((c - 71) as u8)
    } else if 48 <= c && c <= 57 {
        Some((c + 4) as u8)
    } else if f is Standard && c == 43 {
        Some(62u8)
    } else if f is UrlSafe && c == 45 {
        Some(62u8)
    } else if f is Standard && c == 47 {
        Some(63u8)
    } else if f is UrlSafe && c == 95 {
        Some(63u8)
    } else {
        None
    }
}

/// The padding that follows an encoding whose final group held `k` input
/// bytes: `=` signs under Standard, nothing under UrlSafe.
pub open spec fn pad_seq(f: Base64Format, k: int) -> Seq<u8> {
    if f is Standard {
        if k == 1 {
            seq![61u8, 61u8]
        } else if k == 2 {
            seq![61u8]
        } else {
            Seq::<u8>::empty()
        }
    } else {
        Seq::<u8>::empty()
    }
}

/// The four symbols of one full three-byte group.
pub open spec fn enc3(f: Base64Format, b0: u8, b1: u8, b2: u8) -> Seq<u8> {
    seq![
        sym_of(f, b0 >> 2),
        sym_of(f, ((b0 & 3) << 4) | (b1 >> 4)),
        sym_of(f, ((b1 & 15) << 2) | (b2 >> 6)),
        sym_of(f, b2 & 63),
    ]
}

/// The symbols of a final two-byte group, padding included.
pub open spec fn enc2(f: Base64Format, b0: u8, b1: u8) -> Seq<u8> {
    seq![
        sym_of(f, b0 >> 2),
        sym_of(f, ((b0 & 3) << 4) | (b1 >> 4)),
        sym_of(f, (b1 & 15) << 2),
    ] + pad_seq(f, 2)
}

/// The symbols of a final one-byte group, padding included.
pub open spec fn enc1(f: Base64Format, b0: u8) -> Seq<u8> {
    seq![sym_of(f, b0 >> 2), sym_of(f, (b0 & 3) << 4)] + pad_seq(f, 1)
}

/// The Base64 text that encodes a byte sequence under the chosen alphabet.
pub open spec fn encode_spec(f: Base64Format, s: Seq<u8>) -> Seq<u8>
    decreases s.len(),
{
    if s.len() == 0 {
        Seq::<u8>::empty()
    } else if s.len() == 1 {
        enc1(f, s[0])
    } else if s.len() == 2 {
        enc2(f, s[0], s[1])
    } else {
        enc3(f, s[0], s[1], s[2]) + encode_spec(f, s.skip(3))
    }
}

/// How many trailing `=` signs a text carries (at most two are ever read).
pub open spec fn pad_len(t: Seq<u8>) -> int {
    if t.len() >= 1 && t[t.len() - 1] == 61 {
        if t.len() >= 2 && t[t.len() - 2] == 61 {
            2
        } else {
            1
        }
    } else {
        0
    }
}

/// The symbols of a text once padding is set aside; UrlSafe input carries
/// none, so it is read whole.
pub open spec fn body_of(f: Base64Format, t: Seq<u8>) -> Seq<u8> {
    if f is Standard {
        t.take(t.len() - pad_len(t))
    } else {
        t
    }
}

/// Every symbol of `u` belongs to the alphabet.
pub open spec fn all_syms_valid(f: Base64Format, u: Seq<u8>) -> bool {
    forall|i: int| 0 <= i < u.len() ==> #[trigger] val_of(f, u[i]) is Some
}

/// The six-bit values of a sequence of valid symbols.
pub open spec fn vals_of(f: Base64Format, u: Seq<u8>) -> Seq<u8>
    recommends
        all_syms_valid(f, u),
{
    Seq::new(u.len(), |i: int| val_of(f, u[i])->Some_0)
}

/// The bytes spelled by a sequence of six-bit values: four values to three
/// bytes, a final pair or triple to one or two bytes.
pub open spec fn decode_vals(vs: Seq<u8>) -> Seq<u8>
    decreases vs.len(),
{
    if vs.len() >= 4 {
        seq![
            (vs[0] << 2) | (vs[1] >> 4),
            ((vs[1] & 15) << 4) | (vs[2] >> 2),
            ((vs[2] & 3) << 6) | vs[3],
        ] + decode_vals(vs.skip(4))
    } else if vs.len() == 3 {
        seq![(vs[0] << 2) | (vs[1] >> 4), ((vs[1] & 15) << 4) | (vs[2] >> 2)]
    } else if vs.len() == 2 {
        seq![(vs[0] << 2) | (vs[1] >> 4)]
    } else {
        Seq::<u8>::empty()
    }
}

/// A text is a well-formed encoding under the chosen alphabet: length and
/// padding as the alphabet demands, every symbol in the alphabet, and no
/// bits left over in the final group.
pub open spec fn well_formed(f: Base64Format, t: Seq<u8>) -> bool {
    let u = body_of(f, t);
    &&& (f is Standard ==> t.len() % 4 == 0)
    &&& all_syms_valid(f, u)
    &&& u.len() % 4 != 1
    &&& (u.len() % 4 == 2 ==> vals_of(f, u)[u.len() - 1] & 15 == 0)
    &&& (u.len() % 4 == 3 ==> vals_of(f, u)[u.len() - 1] & 3 == 0)
}

/// The bytes a well-formed text decodes to.
pub open spec fn decode_spec(f: Base64Format, t: Seq<u8>) -> Seq<u8>
    recommends
        well_formed(f, t),
{
    decode_vals(vals_of(f, body_of(f, t)))
}

fn sym(f: Base64Format, v: u8) -> (r: u8)
    requires
        v < 64,
    ensures
        r == sym_of(f, v),
{
    if v < 26 {
        v + 65
    } else if v < 52 {
        v + 71
    } else if v < 62 {
        v - 4
    } else if v == 62 {
        match f {
            Base64Format::Standard => 43,
            Base64Format::UrlSafe => 45,
        }
    } else {
        match f {
            Base64Format::Standard => 47,
            Base64Format::UrlSafe => 95,
        }
    }
}

fn val(f: Base64Format, c: u8) -> (r: Option<u8>)
    ensures
        r == val_of(f, c),
{
    if 65 <= c && c <= 90 {
        Some(c - 65)
    } else if 97 <= c && c <= 122 {
        Some(c - 71)
    } else if 48 <= c && c <= 57 {
        Some(c + 4)
    } else {
        match f {
            Base64Format::Standard => {
                if c == 43 {
                    Some(62)
                } else if c == 47 {
                    Some(63)
                } else {
                    None
                }
            },
            Base64Format::UrlSafe => {
                if c == 45 {
                    Some(62)
                } else if c == 95 {
                    Some(63)
                } else {
                    None
                }
            },
        }
    }
}

/// Encodes a byte buffer under the chosen alphabet. Any input encodes;
/// only decoding restricts its payload to text.
pub fn encode(input: &[u8], f: Base64Format) -> (r: Vec<u8>)
    ensures
        r@ == encode_spec(f, input@),
{
    let mut out: Vec<u8> = Vec::new();
    let mut i: usize = 0;
    let n = input.len();
    proof {
        assert(input@.skip(0) =~= input@);
        assert(out@ + encode_spec(f, input@) =~= encode_spec(f, input@));
    }
    while n - i >= 3
        invariant
            i <= n,
            n == input.len(),
            encode_spec(f, input@) == out@ + encode_spec(f, input@.skip(i as int)),
        decreases n - i,
    {
        let b0 = input[i];
        let b1 = input[i + 1];
        let b2 = input[i + 2];
        proof {
            assert(b0 >> 2 < 64 && ((b0 & 3) << 4) | (b1 >> 4) < 64 && ((b1 & 15) << 2) | (b2
                >> 6) < 64 && b2 & 63 < 64) by (bit_vector);
        }
        let ghost prev = out@;
        out.push(sym(f, b0 >> 2));
        out.push(sym(f, ((b0 & 3) << 4) | (b1 >> 4)));
        out.push(sym(f, ((b1 & 15) << 2) | (b2 >> 6)));
        out.push(sym(f, b2 & 63));
        proof {
            let s = input@.skip(i as int);
            assert(s[0] == b0 && s[1] == b1 && s[2] == b2);
            assert(out@ =~= prev + enc3(f, b0, b1, b2));
            assert(s.skip(3) =~= input@.skip(i as int + 3));
            assert(encode_spec(f, s) == enc3(f, b0, b1, b2) + encode_spec(f, s.skip(3)));
            assert(out@ + encode_spec(f, input@.skip(i as int + 3)) =~= prev + encode_spec(f, s));
        }
        i = i + 3;
    }
    if n - i == 1 {
        let b0 = input[i];
        proof {
            assert(b0 >> 2 < 64 && (b0 & 3) << 4 < 64) by (bit_vector);
            assert(input@.skip(i as int)[0] == b0);
        }
        let ghost prev = out@;
        out.push(sym(f, b0 >> 2));
        out.push(sym(f, (b0 & 3) << 4));
        match f {
            Base64Format::Standard => {
                out.push(61);
                out.push(61);
            },
            Base64Format::UrlSafe => {},
        }
        proof {
            assert(out@ =~= prev + enc1(f, b0));
        }
    } else if n - i == 2 {
        let b0 = input[i];
        let b1 = input[i + 1];
        proof {
            assert(b0 >> 2 < 64 && ((b0 & 3) << 4) | (b1 >> 4) < 64 && (b1 & 15) << 2
                < 64) by (bit_vector);
            assert(input@.skip(i as int)[0] == b0 && input@.skip(i as int)[1] == b1);
        }
        let ghost prev = out@;
        out.push(sym(f, b0 >> 2));
        out.push(sym(f, ((b0 & 3) << 4) | (b1 >> 4)));
        out.push(sym(f, (b1 & 15) << 2));
        match f {
            Base64Format::Standard => {
                out.push(61);
            },
            Base64Format::UrlSafe => {},
        }
        proof {
            assert(out@ =~= prev + enc2(f, b0, b1));
        }
    } else {
        proof {
            assert(input@.skip(i as int) =~= Seq::<u8>::empty());
            assert(out@ =~= out@ + encode_spec(f, input@.skip(i as int)));
        }
    }
    out
}

/// Decodes a Base64 text under the chosen alphabet. Succeeds exactly on
/// well-formed input and returns exactly the bytes it spells; any other
/// input is a codec error.
#[verifier::rlimit(100)]
pub fn decode(input: &[u8], f: Base64Format) -> (r: Result<Vec<u8>, Error>)
    ensures
        r matches Ok(b) ==> b@ == decode_spec(f, input@),
        r is Ok <==> well_formed(f, input@),
        r matches Err(e) ==> e == Error::Codec,
{
    let n0 = input.len();
    let is_std = match f {
        Base64Format::Standard => true,
        Base64Format::UrlSafe => false,
    };
    if is_std && n0 % 4 != 0 {
        return Err(Error::Codec);
    }
    let p: usize = if is_std {
        if n0 >= 1 && input[n0 - 1] == 61 {
            if n0 >= 2 && input[n0 - 2] == 61 {
                2
            } else {
                1
            }
        } else {
            0
        }
    } else {
        0
    };
    let n = n0 - p;
    let ghost u = body_of(f, input@);
    proof {
        assert(u =~= input@.take(n as int));
    }
    let mut vals: Vec<u8> = Vec::new();
    let mut j: usize = 0;
    while j < n
        invariant
            n <= input.len(),
            u == body_of(f, input@),
            u == input@.take(n as int),
            j <= n,
            vals@.len() == j as int,
            forall|k: int| 0 <= k < j ==> #[trigger] val_of(f, u[k]) is Some,
            forall|k: int| 0 <= k < j ==> vals@[k] == val_of(f, u[k])->Some_0,
            forall|k: int| 0 <= k < j ==> vals@[k] < 64,
        decreases n - j,
    {
        match val(f, input[j]) {
            Some(v) => {
                vals.push(v);
                j = j + 1;
            },
            None => {
                proof {
                    assert(u[j as int] == input@[j as int]);
                    assert(!all_syms_valid(f, u));
                }
                return Err(Error::Codec);
            },
        }
    }
    proof {
        assert(vals@ =~= vals_of(f, u));
    }
    let rem = n % 4;
    if rem == 1 {
        return Err(Error::Codec);
    }
    if rem == 2 && (vals[n - 1] & 15) != 0 {
        return Err(Error::Codec);
    }
    if rem == 3 && (vals[n - 1] & 3) != 0 {
        return Err(Error::Codec);
    }
    let mut out: Vec<u8> = Vec::new();
    let mut k: usize = 0;
    proof {
        assert(vals@.skip(0) =~= vals@);
        assert(out@ + decode_vals(vals@) =~= decode_vals(vals@));
    }
    while n - k >= 4
        invariant
            k <= n,
            k % 4 == 0,
            n == vals@.len(),
            forall|m: int| 0 <= m < n ==> vals@[m] < 64,
            decode_vals(vals@) == out@ + decode_vals(vals@.skip(k as int)),
        decreases n - k,
    {
        let v0 = vals[k];
        let v1 = vals[k + 1];
        let v2 = vals[k + 2];
        let v3 = vals[k + 3];
        let ghost prev = out@;
        out.push((v0 << 2u8) | (v1 >> 4u8));
        out.push(((v1 & 15) << 4u8) | (v2 >> 2u8));
        out.push(((v2 & 3) << 6u8) | v3);
        proof {
            let s = vals@.skip(k as int);
            assert(s[0] == v0 && s[1] == v1 && s[2] == v2 && s[3] == v3);
            assert(s.skip(4) =~= vals@.skip(k as int + 4));
            assert(out@ =~= prev + seq![
                (v0 << 2u8) | (v1 >> 4u8),
                ((v1 & 15) << 4u8) | (v2 >> 2u8),
                ((v2 & 3) << 6u8) | v3,
            ]);
            assert(out@ + decode_vals(vals@.skip(k as int + 4)) =~= prev + decode_vals(s));
        }
        k = k + 4;
    }
    if rem == 2 {
        let v0 = vals[n - 2];
        let v1 = vals[n - 1];
        let ghost prev = out@;
        out.push((v0 << 2u8) | (v1 >> 4u8));
        proof {
            let s = vals@.skip(k as int);
            assert(s.len() == 2);
            assert(s[0] == v0 && s[1] == v1);
            assert(out@ =~= prev + decode_vals(s));
        }
    } else if rem == 3 {
        let v0 = vals[n - 3];
        let v1 = vals[n - 2];
        let v2 = vals[n - 1];
        let ghost prev = out@;
        out.push((v0 << 2u8) | (v1 >> 4u8));
        out.push(((v1 & 15) << 4u8) | (v2 >> 2u8));
        proof {
            let s = vals@.skip(k as int);
            assert(s.len() == 3);
            assert(s[0] == v0 && s[1] == v1 && s[2] == v2);
            assert(out@ =~= prev + decode_vals(s));
        }
    } else {
        proof {
            assert(vals@.skip(k as int) =~= Seq::<u8>::empty());
            assert(out@ =~= out@ + decode_vals(vals@.skip(k as int)));
        }
    }
    proof {
        assert(well_formed(f, input@));
    }
    Ok(out)
}

/// A byte the decoder's single trim pass strips from either end: the ASCII
/// whitespace characters.
pub open spec fn is_space(c: u8) -> bool {
    c == 32 || c == 9 || c == 10 || c == 11 || c == 12 || c == 13
}

/// `s` without its leading whitespace.
pub open spec fn trim_front(s: Seq<u8>) -> Seq<u8>
    decreases s.len(),
{
    if s.len() > 0 && is_space(s[0]) {
        trim_front(s.skip(1))
    } else {
        s
    }
}

/// `s` without its trailing whitespace.
pub open spec fn trim_back(s: Seq<u8>) -> Seq<u8>
    decreases s.len(),
{
    if s.len() > 0 && is_space(s[s.len() - 1]) {
        trim_back(s.take(s.len() - 1))
    } else {
        s
    }
}

/// One trim pass over the whole text, both ends at once.
pub open spec fn trim_spec(s: Seq<u8>) -> Seq<u8> {
    trim_back(trim_front(s))
}

fn is_space_x(c: u8) -> (r: bool)
    ensures
        r == is_space(c),
{
    c == 32 || c == 9 || c == 10 || c == 11 || c == 12 || c == 13
}

proof fn lemma_trim_front_skip(s: Seq<u8>, i: int)
    requires
        0 <= i <= s.len(),
        forall|k: int| 0 <= k < i ==> is_space(#[trigger] s[k]),
    ensures
        trim_front(s) == trim_front(s.skip(i)),
    decreases i,
{
    if i > 0 {
        let s1 = s.skip(1);
        assert forall|k: int| 0 <= k < i - 1 implies is_space(#[trigger] s1[k]) by {
            assert(s1[k] == s[k + 1]);
        }
        lemma_trim_front_skip(s1, i - 1);
        assert(s1.skip(i - 1) =~= s.skip(i));
    } else {
        assert(s.skip(0) =~= s);
    }
}

proof fn lemma_trim_back_take(s: Seq<u8>, i: int)
    requires
        0 <= i <= s.len(),
        forall|k: int| s.len() - i <= k < s.len() ==> is_space(#[trigger] s[k]),
    ensures
        trim_back(s) == trim_back(s.take(s.len() - i)),
    decreases i,
{
    if i > 0 {
        assert(is_space(s[s.len() - 1]));
        let s1 = s.take(s.len() - 1);
        assert forall|k: int| s1.len() - (i - 1) <= k < s1.len() implies is_space(
            #[trigger] s1[k],
        ) by {
            assert(s1[k] == s[k]);
        }
        lemma_trim_back_take(s1, i - 1);
        assert(s1.take(s1.len() - (i - 1)) =~= s.take(s.len() - i));
    } else {
        assert(s.take(s.len() - 0) =~= s);
    }
}

/// Removes leading and trailing whitespace from a text, one pass over each
/// end, as the decode operation does before reading symbols.
pub fn trim_ascii(input: &[u8]) -> (r: Vec<u8>)
    ensures
        r@ == trim_spec(input@),
{
    let n = input.len();
    let mut a: usize = 0;
    while a < n && is_space_x(input[a])
        invariant
            a <= n,
            n == input.len(),
            forall|k: int| 0 <= k < a ==> is_space(#[trigger] input@[k]),
        decreases n - a,
    {
        a = a + 1;
    }
    let mut b: usize = n;
    while b > a && is_space_x(input[b - 1])
        invariant
            a <= b <= n,
            n == input.len(),
            forall|k: int| b <= k < n ==> is_space(#[trigger] input@[k]),
        decreases b,
    {
        b = b - 1;
    }
    let mut out: Vec<u8> = Vec::new();
    let mut k = a;
    while k < b
        invariant
            a <= k <= b <= n,
            n == input.len(),
            out@ == input@.subrange(a as int, k as int),
        decreases b - k,
    {
        out.push(input[k]);
        k = k + 1;
        proof {
            assert(input@.subrange(a as int, k as int) =~= input@.subrange(a as int, k - 1)
                + seq![input@[k - 1]]);
        }
    }
    proof {
        lemma_trim_front_skip(input@, a as int);
        let s = input@.skip(a as int);
        if a < n {
            assert(s[0] == input@[a as int]);
            assert(trim_front(s) == s);
        } else {
            assert(s =~= Seq::<u8>::empty());
            assert(trim_front(s) == s);
        }
        lemma_trim_back_take(s, n - b as int);
        let s2 = s.take(s.len() - (n - b as int));
        assert(s2 =~= input@.subrange(a as int, b as int));
        if b > a {
            assert(s2[s2.len() - 1] == input@[b - 1]);
            assert(trim_back(s2) == s2);
        } else {
            assert(s2 =~= Seq::<u8>::empty());
            assert(trim_back(s2) == s2);
        }
        assert(out@ =~= s2);
    }
    out
}

/// Relies on String::from_utf8: it succeeds exactly on valid UTF-8 input
/// and returns the text those bytes spell.
#[verifier::external_body]
fn string_from_utf8(bytes: Vec<u8>) -> (r: Option<String>)
    ensures
        r is Some <==> valid_utf8(bytes@),
        r matches Some(s) ==> s@ == decode_utf8(bytes@),
{
    String::from_utf8(bytes).ok()
}

/// The decode operation of the codec: trims whitespace from both ends,
/// decodes the symbols under the chosen alphabet, and requires the decoded
/// bytes to spell text. Each failure is pinned to its input: a codec error
/// exactly on malformed Base64, an encoding error exactly on a decoding
/// that is not UTF-8.
pub fn decode_text(input: &[u8], f: Base64Format) -> (r: Result<String, Error>)
    ensures
        r matches Ok(s) ==> well_formed(f, trim_spec(input@)) && valid_utf8(
            decode_spec(f, trim_spec(input@)),
        ) && s@ == decode_utf8(decode_spec(f, trim_spec(input@))),
        r == Err::<String, Error>(Error::Codec) <==> !well_formed(f, trim_spec(input@)),
        r == Err::<String, Error>(Error::Encoding) <==> well_formed(f, trim_spec(input@))
            && !valid_utf8(decode_spec(f, trim_spec(input@))),
        r is Err ==> r == Err::<String, Error>(Error::Codec) || r == Err::<String, Error>(
            Error::Encoding,
        ),
{
    let trimmed = trim_ascii(input);
    match decode(trimmed.as_slice(), f) {
        Err(_) => Err(Error::Codec),
        Ok(bytes) => match string_from_utf8(bytes) {
            Some(s) => Ok(s),
            None => Err(Error::Encoding),
        },
    }
}

proof fn lemma_sym_val(f: Base64Format, v: u8)
    requires
        v < 64,
    ensures
        val_of(f, sym_of(f, v)) == Some(v),
        sym_of(f, v) != 61,
{
}

/// Law: a text whose body holds a symbol outside the selected alphabet is
/// not well formed, so decoding rejects it with a codec error.
pub proof fn lemma_invalid_symbol_rejected(f: Base64Format, t: Seq<u8>, i: int)
    requires
        0 <= i < body_of(f, t).len(),
        val_of(f, body_of(f, t)[i]) is None,
    ensures
        !well_formed(f, t),
{
}

/// The length of the unpadded symbol text that encodes `n` bytes.
pub open spec fn body_len_of(n: int) -> int {
    4 * (n / 3) + (
    if n % 3 == 0 {
        0int
    } else {
        n % 3 + 1int
    })
}

#[verifier::rlimit(30)]
proof fn lemma_dec_enc_one(f: Base64Format, b: Seq<u8>)
    requires
        b.len() == 1,
    ensures
        well_formed(f, encode_spec(f, b)),
        decode_spec(f, encode_spec(f, b)) == b,
        body_of(f, encode_spec(f, b)).len() == 2,
{
    let t = encode_spec(f, b);
    let b0 = b[0];
    let v0 = b0 >> 2u8;
    let v1 = (b0 & 3) << 4u8;
    assert(v0 < 64 && v1 < 64 && v1 & 15 == 0 && ((v0 << 2u8) | (v1 >> 4u8)) == b0)
        by (bit_vector)
        requires
            v0 == b0 >> 2u8,
            v1 == (b0 & 3) << 4u8,
    ;
    lemma_sym_val(f, v0);
    lemma_sym_val(f, v1);
    let u = seq![sym_of(f, v0), sym_of(f, v1)];
    if f is Standard {
        assert(t =~= u + seq![61u8, 61u8]);
        assert(t.len() == 4);
        assert(pad_len(t) == 2);
        assert(body_of(f, t) =~= u);
    } else {
        assert(t =~= u);
        assert(body_of(f, t) =~= u);
    }
    assert(vals_of(f, u) =~= seq![v0, v1]);
    assert(decode_vals(seq![v0, v1]) =~= seq![b0]);
    assert(decode_spec(f, t) =~= b);
}

#[verifier::rlimit(30)]
proof fn lemma_dec_enc_two(f: Base64Format, b: Seq<u8>)
    requires
        b.len() == 2,
    ensures
        well_formed(f, encode_spec(f, b)),
        decode_spec(f, encode_spec(f, b)) == b,
        body_of(f, encode_spec(f, b)).len() == 3,
{
    let t = encode_spec(f, b);
    let b0 = b[0];
    let b1 = b[1];
    let v0 = b0 >> 2u8;
    let v1 = ((b0 & 3) << 4u8) | (b1 >> 4u8);
    let v2 = (b1 & 15) << 2u8;
    assert(v0 < 64 && v1 < 64 && v2 < 64 && v2 & 3 == 0 && ((v0 << 2u8) | (v1 >> 4u8)) == b0
        && (((v1 & 15) << 4u8) | (v2 >> 2u8)) == b1) by (bit_vector)
        requires
            v0 == b0 >> 2u8,
            v1 == ((b0 & 3) << 4u8) | (b1 >> 4u8),
            v2 == (b1 & 15) << 2u8,
    ;
    lemma_sym_val(f, v0);
    lemma_sym_val(f, v1);
    lemma_sym_val(f, v2);
    let u = seq![sym_of(f, v0), sym_of(f, v1), sym_of(f, v2)];
    if f is Standard {
        assert(t =~= u + seq![61u8]);
        assert(t.len() == 4);
        assert(pad_len(t) == 1);
        assert(body_of(f, t) =~= u);
    } else {
        assert(t =~= u);
        assert(body_of(f, t) =~= u);
    }
    assert(vals_of(f, u) =~= seq![v0, v1, v2]);
    assert(decode_vals(seq![v0, v1, v2]) =~= seq![b0, b1]);
    assert(decode_spec(f, t) =~= b);
}

#[verifier::rlimit(60)]
proof fn lemma_dec_enc_three(f: Base64Format, b: Seq<u8>)
    requires
        b.len() == 3,
    ensures
        well_formed(f, encode_spec(f, b)),
        decode_spec(f, encode_spec(f, b)) == b,
        body_of(f, encode_spec(f, b)).len() == body_len_of(b.len() as int),
{
    let t = encode_spec(f, b);
    let b0 = b[0];
    let b1 = b[1];
    let b2 = b[2];
    let v0 = b0 >> 2u8;
    let v1 = ((b0 & 3) << 4u8) | (b1 >> 4u8);
    let v2 = ((b1 & 15) << 2u8) | (b2 >> 6u8);
    let v3 = b2 & 63;
    assert(v0 < 64 && v1 < 64 && v2 < 64 && v3 < 64 && ((v0 << 2u8) | (v1 >> 4u8)) == b0 && ((
    (v1 & 15) << 4u8) | (v2 >> 2u8)) == b1 && (((v2 & 3) << 6u8) | v3) == b2) by (bit_vector)
        requires
            v0 == b0 >> 2u8,
            v1 == ((b0 & 3) << 4u8) | (b1 >> 4u8),
            v2 == ((b1 & 15) << 2u8) | (b2 >> 6u8),
            v3 == b2 & 63,
    ;
    lemma_sym_val(f, v0);
    lemma_sym_val(f, v1);
    lemma_sym_val(f, v2);
    lemma_sym_val(f, v3);
    let x = seq![sym_of(f, v0), sym_of(f, v1), sym_of(f, v2), sym_of(f, v3)];
    assert(enc3(f, b0, b1, b2) == x);
    let rest = b.skip(3);
    let y = encode_spec(f, rest);
    assert(t == x + y);
    assert(y =~= Seq::<u8>::empty());
    assert(t =~= x);
    assert(pad_len(t) == 0);
    assert(body_of(f, t) =~= x);
    let vs = vals_of(f, x);
    assert(vs =~= seq![v0, v1, v2, v3]);
    assert(vs[0] == v0 && vs[1] == v1 && vs[2] == v2 && vs[3] == v3);
    assert(vs.skip(4) =~= Seq::<u8>::empty());
    assert(decode_vals(Seq::<u8>::empty()) == Seq::<u8>::empty());
    assert(decode_vals(vs) == seq![
        (vs[0] << 2u8) | (vs[1] >> 4u8),
        ((vs[1] & 15) << 4u8) | (vs[2] >> 2u8),
        ((vs[2] & 3) << 6u8) | vs[3],
    ] + decode_vals(vs.skip(4)));
    assert(decode_vals(vs) =~= seq![b0, b1, b2]);
    assert(b.skip(3) =~= Seq::<u8>::empty());
    assert(decode_spec(f, t) =~= b);
}

#[verifier::rlimit(100)]
proof fn lemma_dec_enc_cons(f: Base64Format, b: Seq<u8>)
    requires
        b.len() > 3,
        well_formed(f, encode_spec(f, b.skip(3))),
        decode_spec(f, encode_spec(f, b.skip(3))) == b.skip(3),
        body_of(f, encode_spec(f, b.skip(3))).len() == body_len_of(b.len() - 3),
    ensures
        well_formed(f, encode_spec(f, b)),
        decode_spec(f, encode_spec(f, b)) == b,
        body_of(f, encode_spec(f, b)).len() == body_len_of(b.len() as int),
{
    let t = encode_spec(f, b);
    let b0 = b[0];
    let b1 = b[1];
    let b2 = b[2];
    let v0 = b0 >> 2u8;
    let v1 = ((b0 & 3) << 4u8) | (b1 >> 4u8);
    let v2 = ((b1 & 15) << 2u8) | (b2 >> 6u8);
    let v3 = b2 & 63;
    assert(v0 < 64 && v1 < 64 && v2 < 64 && v3 < 64 && ((v0 << 2u8) | (v1 >> 4u8)) == b0 && ((
    (v1 & 15) << 4u8) | (v2 >> 2u8)) == b1 && (((v2 & 3) << 6u8) | v3) == b2) by (bit_vector)
        requires
            v0 == b0 >> 2u8,
            v1 == ((b0 & 3) << 4u8) | (b1 >> 4u8),
            v2 == ((b1 & 15) << 2u8) | (b2 >> 6u8),
            v3 == b2 & 63,
    ;
    lemma_sym_val(f, v0);
    lemma_sym_val(f, v1);
    lemma_sym_val(f, v2);
    lemma_sym_val(f, v3);
    let x = seq![sym_of(f, v0), sym_of(f, v1), sym_of(f, v2), sym_of(f, v3)];
    assert(enc3(f, b0, b1, b2) == x);
    let rest = b.skip(3);
    let y = encode_spec(f, rest);
    assert(t == x + y);
    let uy = body_of(f, y);
    assert(uy.len() == body_len_of(rest.len() as int));
    assert(uy.len() >= 2);
    assert(y.len() >= 2);
    assert(t.len() == 4 + y.len());
    assert(t[t.len() - 1] == y[y.len() - 1]);
    assert(t[t.len() - 2] == y[y.len() - 2]);
    assert(pad_len(t) == pad_len(y));
    let u = body_of(f, t);
    if f is Standard {
        assert(pad_len(y) <= 2);
        assert(u =~= x + uy);
    } else {
        assert(u =~= x + uy);
    }
    assert forall|i: int| 0 <= i < u.len() implies #[trigger] val_of(f, u[i]) is Some by {
        if i < 4 {
            assert(u[i] == x[i]);
        } else {
            assert(u[i] == uy[i - 4]);
            assert(val_of(f, uy[i - 4]) is Some);
        }
    }
    let vs = vals_of(f, u);
    let vy = vals_of(f, uy);
    assert(vs =~= seq![v0, v1, v2, v3] + vy);
    assert(u.len() % 4 == uy.len() % 4);
    if u.len() % 4 == 2 {
        assert(vs[u.len() - 1] == vy[uy.len() - 1]);
    }
    if u.len() % 4 == 3 {
        assert(vs[u.len() - 1] == vy[uy.len() - 1]);
    }
    assert(vs.skip(4) =~= vy);
    assert(vs[0] == v0 && vs[1] == v1 && vs[2] == v2 && vs[3] == v3);
    assert(decode_vals(vs) == seq![
        (vs[0] << 2u8) | (vs[1] >> 4u8),
        ((vs[1] & 15) << 4u8) | (vs[2] >> 2u8),
        ((vs[2] & 3) << 6u8) | vs[3],
    ] + decode_vals(vs.skip(4)));
    assert(decode_vals(vy) == b.skip(3));
    assert(decode_spec(f, t) =~= b);
    assert(rest.len() == b.len() - 3);
    assert(b.len() / 3 == 1 + rest.len() / 3) by {
        assert(b.len() >= 3);
    }
    assert(b.len() % 3 == rest.len() % 3);
}

/// Law: decoding an encoding returns the original bytes, under either
/// alphabet; in particular every encoded text is well formed, so the decode
/// side never rejects what the encode side produced.
pub proof fn lemma_decode_of_encode(f: Base64Format, b: Seq<u8>)
    ensures
        well_formed(f, encode_spec(f, b)),
        decode_spec(f, encode_spec(f, b)) == b,
        body_of(f, encode_spec(f, b)).len() == body_len_of(b.len() as int),
    decreases b.len(),
{
    let t = encode_spec(f, b);
    if b.len() == 0 {
        assert(body_of(f, t) =~= Seq::<u8>::empty());
        assert(vals_of(f, body_of(f, t)) =~= Seq::<u8>::empty());
        assert(decode_spec(f, t) =~= b);
    } else if b.len() == 1 {
        lemma_dec_enc_one(f, b);
    } else if b.len() == 2 {
        lemma_dec_enc_two(f, b);
    } else {
        if b.len() > 3 {
            lemma_decode_of_encode(f, b.skip(3));
            lemma_dec_enc_cons(f, b);
        } else {
            lemma_dec_enc_three(f, b);
        }
    }
}

/// Law: the decode operation accepts exactly what the encode operation
/// produced. Encoded text carries no whitespace for the trim pass to
/// remove, is well formed under the alphabet that produced it, and decodes
/// back to the original bytes; in particular, decoding an encoding of
/// valid UTF-8 text returns that text.
pub proof fn lemma_encoded_text_round_trip(f: Base64Format, b: Seq<u8>)
    ensures
        trim_spec(encode_spec(f, b)) == encode_spec(f, b),
        well_formed(f, trim_spec(encode_spec(f, b))),
        decode_spec(f, trim_spec(encode_spec(f, b))) == b,
{
    lemma_decode_of_encode(f, b);
    let t = encode_spec(f, b);
    if t.len() == 0 {
        assert(trim_front(t) == t);
        assert(trim_back(t) == t);
    } else {
        assert(b.len() > 0);
        let u = body_of(f, t);
        assert(u.len() >= 2);
        assert(u[0] == t[0]);
        assert(val_of(f, t[0]) is Some);
        assert(!is_space(t[0]));
        if f is Standard && pad_len(t) >= 1 {
            assert(t[t.len() - 1] == 61);
        } else {
            assert(u =~= t);
            assert(val_of(f, t[t.len() - 1]) is Some);
        }
        assert(!is_space(t[t.len() - 1]));
        assert(trim_front(t) == t);
        assert(trim_back(t) == t);
    }
}

} // verus!

