//! Byte-level JSON text: the primitives from which requests are serialized
//! and responses are parsed.
//!
//! Every specification here speaks of `Seq<u8>`, the UTF-8 bytes of the JSON
//! text. Each executable function is proved equal to a spec function that
//! states the same transformation over those byte sequences.

use vstd::prelude::*;
use vstd::string::StrSliceExecFns;
use vstd::string::StringSliceAdditionalSpecFns;

verus! {

/// The UTF-8 bytes of a string literal.
pub open spec fn lit(s: &str) -> Seq<u8> {
    s.spec_bytes()
}

/// Appends the bytes of a (literal) string to `out`.
pub fn push_lit(out: &mut Vec<u8>, s: &str)
    ensures
        final(out)@ == old(out)@ + lit(s),
{
    let mut v = s.as_bytes_vec();
    out.append(&mut v);
}

/// Appends a copy of `piece` to `out`.
pub fn push_bytes(out: &mut Vec<u8>, piece: &Vec<u8>)
    ensures
        final(out)@ == old(out)@ + piece@,
{
    let mut i: usize = 0;
    while i < piece.len()
        invariant
            0 <= i <= piece.len(),
            out@ == old(out)@ + piece@.subrange(0, i as int),
        decreases piece.len() - i,
    {
        out.push(piece[i]);
        i = i + 1;
        assert(out@ =~= old(out)@ + piece@.subrange(0, i as int));
    }
    assert(out@ =~= old(out)@ + piece@);
}

/// JSON inter-token whitespace: space, tab, line feed, carriage return.
pub open spec fn is_json_ws(b: u8) -> bool {
    b == 0x20 || b == 0x09 || b == 0x0a || b == 0x0d
}

/// The first position at or after `i` that does not hold JSON whitespace
/// (or the end of the text).
pub open spec fn spec_skip_ws(s: Seq<u8>, i: int) -> int
    decreases s.len() - i,
{
    if 0 <= i < s.len() && is_json_ws(s[i]) {
        spec_skip_ws(s, i + 1)
    } else {
        i
    }
}

pub proof fn lemma_skip_ws_bounds(s: Seq<u8>, i: int)
    requires
        0 <= i <= s.len(),
    ensures
        i <= spec_skip_ws(s, i) <= s.len(),
    decreases s.len() - i,
{
    if i < s.len() && is_json_ws(s[i]) {
        lemma_skip_ws_bounds(s, i + 1);
    }
}

/// Executable mirror of [`spec_skip_ws`].
pub fn skip_ws(s: &Vec<u8>, i: usize) -> (r: usize)
    requires
        i <= s.len(),
    ensures
        r as int == spec_skip_ws(s@, i as int),
        i <= r <= s.len(),
{
    let mut j = i;
    while j < s.len() && (s[j] == 0x20 || s[j] == 0x09 || s[j] == 0x0a || s[j] == 0x0d)
        invariant
            i <= j <= s.len(),
            spec_skip_ws(s@, i as int) == spec_skip_ws(s@, j as int),
        decreases s.len() - j,
    {
        j = j + 1;
    }
    j
}

/// The lowercase ASCII hex digit for `n < 16`.
pub open spec fn spec_hex_digit(n: u8) -> u8 {
    if n < 10 {
        (0x30 + n) as u8
    } else {
        (0x57 + n) as u8
    }
}

fn hex_digit(n: u8) -> (r: u8)
    requires
        n < 16,
    ensures
        r == spec_hex_digit(n),
{
    if n < 10 {
        0x30 + n
    } else {
        0x57 + n
    }
}

/// How one byte of a string value is written inside a JSON string: the two
/// character escapes of the JSON grammar for quote, backslash and the common
/// control characters, a `\u00XX` escape for the remaining control
/// characters, and the byte itself for everything else.
pub open spec fn spec_esc_byte(b: u8) -> Seq<u8> {
    if b == 0x22 {
        seq![0x5cu8, 0x22u8]
    } else if b == 0x5c {
        seq![0x5cu8, 0x5cu8]
    } else if b == 0x08 {
        seq![0x5cu8, 0x62u8]
    } else if b == 0x09 {
        seq![0x5cu8, 0x74u8]
    } else if b == 0x0a {
        seq![0x5cu8, 0x6eu8]
    } else if b == 0x0c {
        seq![0x5cu8, 0x66u8]
    } else if b == 0x0d {
        seq![0x5cu8, 0x72u8]
    } else if b < 0x20 {
        seq![0x5cu8, 0x75u8, 0x30u8, 0x30u8, spec_hex_digit(b / 16), spec_hex_digit(b % 16)]
    } else {
        seq![b]
    }
}

/// The JSON string escaping of a whole byte sequence.
pub open spec fn spec_esc(s: Seq<u8>) -> Seq<u8>
    decreases s.len(),
{
    if s.len() == 0 {
        Seq::empty()
    } else {
        spec_esc_byte(s[0]) + spec_esc(s.drop_first())
    }
}

/// Appends the JSON string escaping of `s` to `out`.
pub fn escape_into(out: &mut Vec<u8>, s: &Vec<u8>)
    ensures
        final(out)@ == old(out)@ + spec_esc(s@),
{
    let mut j: usize = 0;
    proof {
        assert(s@.subrange(0, s@.len() as int) =~= s@);
    }
    while j < s.len()
        invariant
            0 <= j <= s.len(),
            out@ + spec_esc(s@.subrange(j as int, s@.len() as int)) == old(out)@ + spec_esc(s@),
        decreases s.len() - j,
    {
        let ghost tail = s@.subrange(j as int, s@.len() as int);
        let b = s[j];
        if b == 0x22 {
            out.push(0x5c);
            out.push(0x22);
        } else if b == 0x5c {
            out.push(0x5c);
            out.push(0x5c);
        } else if b == 0x08 {
            out.push(0x5c);
            out.push(0x62);
        } else if b == 0x09 {
            out.push(0x5c);
            out.push(0x74);
        } else if b == 0x0a {
            out.push(0x5c);
            out.push(0x6e);
        } else if b == 0x0c {
            out.push(0x5c);
            out.push(0x66);
        } else if b == 0x0d {
            out.push(0x5c);
            out.push(0x72);
        } else if b < 0x20 {
            out.push(0x5c);
            out.push(0x75);
            out.push(0x30);
            out.push(0x30);
            out.push(hex_digit(b / 16));
            out.push(hex_digit(b % 16));
        } else {
            out.push(b);
        }
        proof {
            assert(tail[0] == b);
            assert(tail.drop_first() =~= s@.subrange(j + 1, s@.len() as int));
            assert(spec_esc(tail) == spec_esc_byte(b) + spec_esc(tail.drop_first()));
        }
        j = j + 1;
        proof {
            assert(out@ + spec_esc(s@.subrange(j as int, s@.len() as int)) =~= old(out)@
                + spec_esc(s@));
        }
    }
    proof {
        assert(spec_esc(s@.subrange(s@.len() as int, s@.len() as int)) =~= Seq::<u8>::empty());
        assert(out@ =~= old(out)@ + spec_esc(s@));
    }
}

/// The decimal digits of `n`, most significant first.
pub open spec fn spec_dec(n: nat) -> Seq<u8>
    decreases n,
{
    if n < 10 {
        seq![(0x30 + n) as u8]
    } else {
        spec_dec(n / 10) + seq![(0x30 + n % 10) as u8]
    }
}

/// Appends the decimal rendering of `n` to `out`.
pub fn push_dec(out: &mut Vec<u8>, n: u32)
    ensures
        final(out)@ == old(out)@ + spec_dec(n as nat),
    decreases n,
{
    if n < 10 {
        out.push(0x30 + (n as u8));
        assert(out@ =~= old(out)@ + spec_dec(n as nat));
    } else {
        assert(n / 10 < n && n / 10 >= 1) by (nonlinear_arith)
            requires
                n >= 10,
        ;
        push_dec(out, n / 10);
        out.push(0x30 + ((n % 10) as u8));
        assert(out@ =~= old(out)@ + spec_dec(n as nat));
    }
}

/// The value of an ASCII hex digit, upper or lower case.
pub open spec fn spec_hex_val(b: u8) -> Option<u8> {
    if 0x30 <= b <= 0x39 {
        Some((b - 0x30) as u8)
    } else if 0x61 <= b <= 0x66 {
        Some((b - 0x61 + 10) as u8)
    } else if 0x41 <= b <= 0x46 {
        Some((b - 0x41 + 10) as u8)
    } else {
        None
    }
}

fn hex_val(b: u8) -> (r: Option<u8>)
    ensures
        r == spec_hex_val(b),
{
    if 0x30 <= b && b <= 0x39 {
        Some(b - 0x30)
    } else if 0x61 <= b && b <= 0x66 {
        Some(b - 0x61 + 10)
    } else if 0x41 <= b && b <= 0x46 {
        Some(b - 0x41 + 10)
    } else {
        None
    }
}

/// The value of the four hex digits at `i .. i + 4`.
pub open spec fn spec_hex4(s: Seq<u8>, i: int) -> Option<int> {
    if 0 <= i && i + 4 <= s.len() {
        match (spec_hex_val(s[i]), spec_hex_val(s[i + 1]), spec_hex_val(s[i + 2]), spec_hex_val(
            s[i + 3],
        )) {
            (Some(a), Some(b), Some(c), Some(d)) => Some(
                a as int * 4096 + b as int * 256 + c as int * 16 + d as int,
            ),
            _ => None,
        }
    } else {
        None
    }
}

fn hex4(s: &Vec<u8>, i: usize) -> (r: Option<u32>)
    requires
        i <= s.len(),
        s.len() - i >= 4,
    ensures
        match r {
            Some(v) => spec_hex4(s@, i as int) == Some(v as int) && v < 0x10000,
            None => spec_hex4(s@, i as int) is None,
        },
{
    let a = hex_val(s[i]);
    let b = hex_val(s[i + 1]);
    let c = hex_val(s[i + 2]);
    let d = hex_val(s[i + 3]);
    match (a, b, c, d) {
        (Some(a), Some(b), Some(c), Some(d)) => Some(
            (a as u32) * 4096 + (b as u32) * 256 + (c as u32) * 16 + (d as u32),
        ),
        _ => None,
    }
}

/// The UTF-8 encoding of the scalar value `cp`.
pub open spec fn spec_utf8_enc(cp: int) -> Seq<u8> {
    if cp < 0x80 {
        seq![cp as u8]
    } else if cp < 0x800 {
        seq![(0xc0 + cp / 0x40) as u8, (0x80 + cp % 0x40) as u8]
    } else if cp < 0x10000 {
        seq![
            (0xe0 + cp / 0x1000) as u8,
            (0x80 + (cp / 0x40) % 0x40) as u8,
            (0x80 + cp % 0x40) as u8,
        ]
    } else {
        seq![
            (0xf0 + cp / 0x40000) as u8,
            (0x80 + (cp / 0x1000) % 0x40) as u8,
            (0x80 + (cp / 0x40) % 0x40) as u8,
            (0x80 + cp % 0x40) as u8,
        ]
    }
}

/// Appends the UTF-8 encoding of `cp` to `out`.
fn push_utf8(out: &mut Vec<u8>, cp: u32)
    requires
        cp < 0x110000,
    ensures
        final(out)@ == old(out)@ + spec_utf8_enc(cp as int),
{
    if cp < 0x80 {
        out.push(cp as u8);
        assert(out@ =~= old(out)@ + spec_utf8_enc(cp as int));
    } else if cp < 0x800 {
        out.push((0xc0 + cp / 0x40) as u8);
        out.push((0x80 + cp % 0x40) as u8);
        assert(out@ =~= old(out)@ + spec_utf8_enc(cp as int));
    } else if cp < 0x10000 {
        out.push((0xe0 + cp / 0x1000) as u8);
        out.push((0x80 + (cp / 0x40) % 0x40) as u8);
        out.push((0x80 + cp % 0x40) as u8);
        assert(out@ =~= old(out)@ + spec_utf8_enc(cp as int));
    } else {
        out.push((0xf0 + cp / 0x40000) as u8);
        out.push((0x80 + (cp / 0x1000) % 0x40) as u8);
        out.push((0x80 + (cp / 0x40) % 0x40) as u8);
        out.push((0x80 + cp % 0x40) as u8);
        assert(out@ =~= old(out)@ + spec_utf8_enc(cp as int));
    }
}

/// Prefixes `pre` to the decoded part of a partial string-parse result.
pub open spec fn spec_prepend(pre: Seq<u8>, r: Option<(Seq<u8>, int)>) -> Option<(Seq<u8>, int)> {
    match r {
        None => None,
        Some((t, j)) => Some((pre + t, j)),
    }
}

proof fn lemma_prepend_assoc(a: Seq<u8>, u: Seq<u8>, r: Option<(Seq<u8>, int)>)
    ensures
        spec_prepend(a, spec_prepend(u, r)) == spec_prepend(a + u, r),
{
    match r {
        None => {
        },
        Some((t, j)) => {
            assert(a + (u + t) =~= (a + u) + t);
        },
    }
}

/// The body of a JSON string, read from just after the opening quote:
/// the decoded bytes and the position just past the closing quote.
///
/// Escapes follow the JSON grammar: the eight character escapes, and
/// `\uXXXX` with surrogate pairs for code points beyond the basic plane;
/// decoded code points are re-encoded as UTF-8. Unescaped control characters
/// make the string malformed.
pub open spec fn spec_str_body(s: Seq<u8>, i: int) -> Option<(Seq<u8>, int)>
    decreases s.len() - i,
{
    if !(0 <= i < s.len()) {
        None
    } else {
        let b = s[i];
        if b == 0x22 {
            Some((Seq::empty(), i + 1))
        } else if b == 0x5c {
            if i + 1 >= s.len() {
                None
            } else {
                let e = s[i + 1];
                if e == 0x22 || e == 0x5c || e == 0x2f {
                    spec_prepend(seq![e], spec_str_body(s, i + 2))
                } else if e == 0x62 {
                    spec_prepend(seq![0x08u8], spec_str_body(s, i + 2))
                } else if e == 0x74 {
                    spec_prepend(seq![0x09u8], spec_str_body(s, i + 2))
                } else if e == 0x6e {
                    spec_prepend(seq![0x0au8], spec_str_body(s, i + 2))
                } else if e == 0x66 {
                    spec_prepend(seq![0x0cu8], spec_str_body(s, i + 2))
                } else if e == 0x72 {
                    spec_prepend(seq![0x0du8], spec_str_body(s, i + 2))
                } else if e == 0x75 {
                    match spec_hex4(s, i + 2) {
                        None => None,
                        Some(cp) => {
                            if 0xd800 <= cp < 0xdc00 {
                                if i + 12 <= s.len() && s[i + 6] == 0x5c && s[i + 7] == 0x75 {
                                    match spec_hex4(s, i + 8) {
                                        None => None,
                                        Some(lo) => if 0xdc00 <= lo < 0xe000 {
                                            spec_prepend(
                                                spec_utf8_enc(
                                                    0x10000 + (cp - 0xd800) * 0x400 + (lo - 0xdc00),
                                                ),
                                                spec_str_body(s, i + 12),
                                            )
                                        } else {
                                            None
                                        },
                                    }
                                } else {
                                    None
                                }
                            } else if 0xdc00 <= cp < 0xe000 {
                                None
                            } else {
                                spec_prepend(spec_utf8_enc(cp), spec_str_body(s, i + 6))
                            }
                        },
                    }
                } else {
                    None
                }
            }
        } else if b < 0x20 {
            None
        } else {
            spec_prepend(seq![b], spec_str_body(s, i + 1))
        }
    }
}

/// A whole JSON string starting at `i`: opening quote, body, closing quote.
pub open spec fn spec_parse_string(s: Seq<u8>, i: int) -> Option<(Seq<u8>, int)> {
    if 0 <= i < s.len() && s[i] == 0x22 {
        spec_str_body(s, i + 1)
    } else {
        None
    }
}

pub proof fn lemma_str_body_advances(s: Seq<u8>, i: int)
    ensures
        spec_str_body(s, i) matches Some(p) ==> i < p.1 <= s.len(),
    decreases s.len() - i,
{
    if 0 <= i < s.len() {
        lemma_str_body_advances(s, i + 1);
        if i + 2 <= s.len() {
            lemma_str_body_advances(s, i + 2);
        }
        if i + 6 <= s.len() {
            lemma_str_body_advances(s, i + 6);
        }
        if i + 12 <= s.len() {
            lemma_str_body_advances(s, i + 12);
        }
    }
}

pub proof fn lemma_parse_string_advances(s: Seq<u8>, i: int)
    ensures
        spec_parse_string(s, i) matches Some(p) ==> i + 1 < p.1 <= s.len(),
{
    lemma_str_body_advances(s, i + 1);
}

/// Executable mirror of [`spec_parse_string`]: decodes the string starting
/// at `i` and returns the decoded bytes with the position past the closing
/// quote, or `None` where the text holds no well-formed string there.
pub fn parse_string(s: &Vec<u8>, i: usize) -> (r: Option<(Vec<u8>, usize)>)
    requires
        i <= s.len(),
    ensures
        match r {
            Some(p) => spec_parse_string(s@, i as int) == Some((p.0@, p.1 as int)) && i < p.1
                <= s.len(),
            None => spec_parse_string(s@, i as int) is None,
        },
{
    if i >= s.len() || s[i] != 0x22 {
        return None;
    }
    let mut acc: Vec<u8> = Vec::new();
    let mut j: usize = i + 1;
    proof {
        assert(acc@ + Seq::<u8>::empty() =~= acc@);
    }
    loop
        invariant
            i + 1 <= j <= s.len(),
            i < s.len() && s@[i as int] == 0x22,
            spec_str_body(s@, i as int + 1) == spec_prepend(acc@, spec_str_body(s@, j as int)),
        decreases s@.len() - j,
    {
        let ghost acc0 = acc@;
        let ghost j0 = j as int;
        if j >= s.len() {
            return None;
        }
        let b = s[j];
        if b == 0x22 {
            proof {
                assert(spec_str_body(s@, j0) == Some((Seq::<u8>::empty(), j0 + 1)));
                assert(acc0 + Seq::<u8>::empty() =~= acc0);
            }
            return Some((acc, j + 1));
        } else if b == 0x5c {
            if s.len() - j < 2 {
                return None;
            }
            let e = s[j + 1];
            if e == 0x22 || e == 0x5c || e == 0x2f {
                acc.push(e);
                j = j + 2;
                proof {
                    assert(acc@ =~= acc0 + seq![e]);
                    lemma_prepend_assoc(acc0, seq![e], spec_str_body(s@, j as int));
                }
            } else if e == 0x62 {
                acc.push(0x08);
                j = j + 2;
                proof {
                    assert(acc@ =~= acc0 + seq![0x08u8]);
                    lemma_prepend_assoc(acc0, seq![0x08u8], spec_str_body(s@, j as int));
                }
            } else if e == 0x74 {
                acc.push(0x09);
                j = j + 2;
                proof {
                    assert(acc@ =~= acc0 + seq![0x09u8]);
                    lemma_prepend_assoc(acc0, seq![0x09u8], spec_str_body(s@, j as int));
                }
            } else if e == 0x6e {
                acc.push(0x0a);
                j = j + 2;
                proof {
                    assert(acc@ =~= acc0 + seq![0x0au8]);
                    lemma_prepend_assoc(acc0, seq![0x0au8], spec_str_body(s@, j as int));
                }
            } else if e == 0x66 {
                acc.push(0x0c);
                j = j + 2;
                proof {
                    assert(acc@ =~= acc0 + seq![0x0cu8]);
                    lemma_prepend_assoc(acc0, seq![0x0cu8], spec_str_body(s@, j as int));
                }
            } else if e == 0x72 {
                acc.push(0x0d);
                j = j + 2;
                proof {
                    assert(acc@ =~= acc0 + seq![0x0du8]);
                    lemma_prepend_assoc(acc0, seq![0x0du8], spec_str_body(s@, j as int));
                }
            } else if e == 0x75 {
                if s.len() - j < 6 {
                    return None;
                }
                let h = hex4(s, j + 2);
                match h {
                    None => {
                        return None;
                    },
                    Some(cp) => {
                        if 0xd800 <= cp && cp < 0xdc00 {
                            if s.len() - j < 12 {
                                return None;
                            }
                            if !(s[j + 6] == 0x5c && s[j + 7] == 0x75) {
                                return None;
                            }
                            let h2 = hex4(s, j + 8);
                            match h2 {
                                None => {
                                    return None;
                                },
                                Some(lo) => {
                                    if !(0xdc00 <= lo && lo < 0xe000) {
                                        return None;
                                    }
                                    let combined: u32 = 0x10000 + (cp - 0xd800) * 0x400 + (lo
                                        - 0xdc00);
                                    push_utf8(&mut acc, combined);
                                    j = j + 12;
                                    proof {
                                        lemma_prepend_assoc(
                                            acc0,
                                            spec_utf8_enc(combined as int),
                                            spec_str_body(s@, j as int),
                                        );
                                    }
                                },
                            }
                        } else if 0xdc00 <= cp && cp < 0xe000 {
                            return None;
                        } else {
                            push_utf8(&mut acc, cp);
                            j = j + 6;
                            proof {
                                lemma_prepend_assoc(
                                    acc0,
                                    spec_utf8_enc(cp as int),
                                    spec_str_body(s@, j as int),
                                );
                            }
                        }
                    },
                }
            } else {
                return None;
            }
        } else if b < 0x20 {
            return None;
        } else {
            acc.push(b);
            j = j + 1;
            proof {
                assert(acc@ =~= acc0 + seq![b]);
                lemma_prepend_assoc(acc0, seq![b], spec_str_body(s@, j as int));
            }
        }
    }
}

/// Compares two byte vectors.
pub fn bytes_eq(a: &Vec<u8>, b: &Vec<u8>) -> (r: bool)
    ensures
        r == (a@ == b@),
{
    if a.len() != b.len() {
        return false;
    }
    let mut i: usize = 0;
    while i < a.len()
        invariant
            0 <= i <= a.len(),
            a@.len() == b@.len(),
            forall|k: int| 0 <= k < i ==> a@[k] == b@[k],
        decreases a.len() - i,
    {
        if a[i] != b[i] {
            return false;
        }
        i = i + 1;
    }
    proof {
        assert(a@ =~= b@);
    }
    true
}

/// Scans an undecoded JSON string from just after its opening quote to just
/// past its closing quote, treating a backslash and its follower as a unit.
pub open spec fn spec_skip_str_raw(s: Seq<u8>, i: int) -> Option<int>
    decreases s.len() - i,
{
    if !(0 <= i < s.len()) {
        None
    } else if s[i] == 0x22 {
        Some(i + 1)
    } else if s[i] == 0x5c {
        if s.len() - i < 2 {
            None
        } else {
            spec_skip_str_raw(s, i + 2)
        }
    } else {
        spec_skip_str_raw(s, i + 1)
    }
}

pub proof fn lemma_skip_str_raw_advances(s: Seq<u8>, i: int)
    ensures
        spec_skip_str_raw(s, i) matches Some(j) ==> i < j <= s.len(),
    decreases s.len() - i,
{
    if 0 <= i < s.len() {
        lemma_skip_str_raw_advances(s, i + 1);
        if s.len() - i >= 2 {
            lemma_skip_str_raw_advances(s, i + 2);
        }
    }
}

/// Walks a nested value (object or array) from just after its opening
/// bracket, tracking bracket depth and whether the walk is inside a string,
/// to just past the bracket that closes it.
pub open spec fn spec_skip_nested(s: Seq<u8>, i: int, depth: nat, in_str: bool) -> Option<int>
    decreases s.len() - i,
{
    if !(0 <= i < s.len()) {
        None
    } else {
        let b = s[i];
        if in_str {
            if b == 0x5c {
                if s.len() - i < 2 {
                    None
                } else {
                    spec_skip_nested(s, i + 2, depth, true)
                }
            } else if b == 0x22 {
                spec_skip_nested(s, i + 1, depth, false)
            } else {
                spec_skip_nested(s, i + 1, depth, true)
            }
        } else {
            if b == 0x22 {
                spec_skip_nested(s, i + 1, depth, true)
            } else if b == 0x7b || b == 0x5b {
                spec_skip_nested(s, i + 1, depth + 1, false)
            } else if b == 0x7d || b == 0x5d {
                if depth == 1 {
                    Some(i + 1)
                } else if depth == 0 {
                    None
                } else {
                    spec_skip_nested(s, i + 1, (depth - 1) as nat, false)
                }
            } else {
                spec_skip_nested(s, i + 1, depth, false)
            }
        }
    }
}

pub proof fn lemma_skip_nested_advances(s: Seq<u8>, i: int, depth: nat, in_str: bool)
    ensures
        spec_skip_nested(s, i, depth, in_str) matches Some(j) ==> i < j <= s.len(),
    decreases s.len() - i,
{
    if 0 <= i < s.len() {
        lemma_skip_nested_advances(s, i + 1, depth, true);
        lemma_skip_nested_advances(s, i + 1, depth, false);
        lemma_skip_nested_advances(s, i + 1, depth + 1, false);
        if depth >= 2 {
            lemma_skip_nested_advances(s, i + 1, (depth - 1) as nat, false);
        }
        if s.len() - i >= 2 {
            lemma_skip_nested_advances(s, i + 2, depth, true);
        }
    }
}

/// A character that may stand in an unquoted JSON primitive: digits, sign,
/// decimal point, exponent letters, and the letters of `true`, `false` and
/// `null`.
pub open spec fn is_prim_char(b: u8) -> bool {
    (0x30 <= b <= 0x39) || b == 0x2d || b == 0x2b || b == 0x2e || (0x61 <= b <= 0x7a) || (0x41 <= b
        <= 0x5a)
}

/// The first position at or after `i` past a run of primitive characters.
pub open spec fn spec_skip_prim_rest(s: Seq<u8>, i: int) -> int
    decreases s.len() - i,
{
    if 0 <= i < s.len() && is_prim_char(s[i]) {
        spec_skip_prim_rest(s, i + 1)
    } else {
        i
    }
}

pub proof fn lemma_skip_prim_rest_bounds(s: Seq<u8>, i: int)
    requires
        0 <= i <= s.len(),
    ensures
        i <= spec_skip_prim_rest(s, i) <= s.len(),
    decreases s.len() - i,
{
    if i < s.len() && is_prim_char(s[i]) {
        lemma_skip_prim_rest_bounds(s, i + 1);
    }
}

/// The position just past the single JSON value that starts at `i`: a
/// string, an object or array (walked by bracket depth), or a primitive.
pub open spec fn spec_skip_value(s: Seq<u8>, i: int) -> Option<int> {
    if !(0 <= i < s.len()) {
        None
    } else if s[i] == 0x22 {
        spec_skip_str_raw(s, i + 1)
    } else if s[i] == 0x7b || s[i] == 0x5b {
        spec_skip_nested(s, i + 1, 1, false)
    } else if is_prim_char(s[i]) {
        Some(spec_skip_prim_rest(s, i + 1))
    } else {
        None
    }
}

pub proof fn lemma_skip_value_advances(s: Seq<u8>, i: int)
    ensures
        spec_skip_value(s, i) matches Some(j) ==> i < j <= s.len(),
{
    if 0 <= i < s.len() {
        lemma_skip_str_raw_advances(s, i + 1);
        lemma_skip_nested_advances(s, i + 1, 1, false);
        if i + 1 <= s.len() {
            lemma_skip_prim_rest_bounds(s, i + 1);
        }
    }
}

/// Executable mirror of [`spec_skip_value`].
pub fn skip_value(s: &Vec<u8>, i: usize) -> (r: Option<usize>)
    requires
        i <= s.len(),
    ensures
        match r {
            Some(j) => spec_skip_value(s@, i as int) == Some(j as int) && i < j <= s.len(),
            None => spec_skip_value(s@, i as int) is None,
        },
{
    if i >= s.len() {
        return None;
    }
    let b0 = s[i];
    if b0 == 0x22 {
        let mut j: usize = i + 1;
        loop
            invariant
                i + 1 <= j <= s.len(),
                i < s@.len() && s@[i as int] == 0x22,
                spec_skip_str_raw(s@, i as int + 1) == spec_skip_str_raw(s@, j as int),
            decreases s.len() - j,
        {
            if j >= s.len() {
                return None;
            }
            let b = s[j];
            if b == 0x22 {
                return Some(j + 1);
            } else if b == 0x5c {
                if s.len() - j < 2 {
                    return None;
                }
                j = j + 2;
            } else {
                j = j + 1;
            }
        }
    } else if b0 == 0x7b || b0 == 0x5b {
        let mut j: usize = i + 1;
        let mut depth: usize = 1;
        let mut in_str: bool = false;
        loop
            invariant
                i + 1 <= j <= s.len(),
                i < s@.len() && (s@[i as int] == 0x7b || s@[i as int] == 0x5b),
                1 <= depth <= j - i,
                spec_skip_nested(s@, i as int + 1, 1nat, false) == spec_skip_nested(
                    s@,
                    j as int,
                    depth as nat,
                    in_str,
                ),
            decreases s.len() - j,
        {
            if j >= s.len() {
                return None;
            }
            let b = s[j];
            if in_str {
                if b == 0x5c {
                    if s.len() - j < 2 {
                        return None;
                    }
                    j = j + 2;
                } else if b == 0x22 {
                    in_str = false;
                    j = j + 1;
                } else {
                    j = j + 1;
                }
            } else {
                if b == 0x22 {
                    in_str = true;
                    j = j + 1;
                } else if b == 0x7b || b == 0x5b {
                    depth = depth + 1;
                    j = j + 1;
                } else if b == 0x7d || b == 0x5d {
                    if depth == 1 {
                        return Some(j + 1);
                    }
                    depth = depth - 1;
                    j = j + 1;
                } else {
                    j = j + 1;
                }
            }
        }
    } else if (0x30 <= b0 && b0 <= 0x39) || b0 == 0x2d || b0 == 0x2b || b0 == 0x2e || (0x61 <= b0
        && b0 <= 0x7a) || (0x41 <= b0 && b0 <= 0x5a) {
        let mut j: usize = i + 1;
        while j < s.len() && ((0x30 <= s[j] && s[j] <= 0x39) || s[j] == 0x2d || s[j] == 0x2b
            || s[j] == 0x2e || (0x61 <= s[j] && s[j] <= 0x7a) || (0x41 <= s[j] && s[j] <= 0x5a))
            invariant
                i + 1 <= j <= s.len(),
                i < s@.len() && is_prim_char(s@[i as int]) && s@[i as int] != 0x22 && s@[i as int]
                    != 0x7b && s@[i as int] != 0x5b,
                spec_skip_prim_rest(s@, i as int + 1) == spec_skip_prim_rest(s@, j as int),
            decreases s.len() - j,
        {
            j = j + 1;
        }
        Some(j)
    } else {
        None
    }
}

/// Walks the members of an object from the position `j` of a member key,
/// and gives the position where the value of the member named `key` starts.
///
/// Members before `key` are skipped whole; the walk stops without an
/// answer at the first malformed member or at the closing brace.
pub open spec fn spec_members(s: Seq<u8>, j: int, key: Seq<u8>) -> Option<int>
    decreases s.len() - j,
    via spec_members_dec
{
    match spec_parse_string(s, j) {
        None => None,
        Some((k, j2)) => {
            let j3 = spec_skip_ws(s, j2);
            if !(0 <= j3 < s.len() && s[j3] == 0x3a) {
                None
            } else {
                let v = spec_skip_ws(s, j3 + 1);
                if k == key {
                    Some(v)
                } else {
                    match spec_skip_value(s, v) {
                        None => None,
                        Some(j4) => {
                            let j5 = spec_skip_ws(s, j4);
                            if 0 <= j5 < s.len() && s[j5] == 0x2c {
                                spec_members(s, spec_skip_ws(s, j5 + 1), key)
                            } else {
                                None
                            }
                        },
                    }
                }
            }
        },
    }
}

#[via_fn]
proof fn spec_members_dec(s: Seq<u8>, j: int, key: Seq<u8>) {
    lemma_parse_string_advances(s, j);
    match spec_parse_string(s, j) {
        None => {
        },
        Some((k, j2)) => {
            lemma_skip_ws_bounds(s, j2);
            let j3 = spec_skip_ws(s, j2);
            if 0 <= j3 < s.len() && s[j3] == 0x3a {
                lemma_skip_ws_bounds(s, j3 + 1);
                let v = spec_skip_ws(s, j3 + 1);
                if k != key {
                    lemma_skip_value_advances(s, v);
                    match spec_skip_value(s, v) {
                        None => {
                        },
                        Some(j4) => {
                            lemma_skip_ws_bounds(s, j4);
                            let j5 = spec_skip_ws(s, j4);
                            if 0 <= j5 < s.len() && s[j5] == 0x2c {
                                lemma_skip_ws_bounds(s, j5 + 1);
                            }
                        },
                    }
                }
            }
        },
    }
}

/// The position where the value of the member named `key` starts, inside
/// the object that starts at `i`.
pub open spec fn spec_obj_member(s: Seq<u8>, i: int, key: Seq<u8>) -> Option<int> {
    if 0 <= i < s.len() && s[i] == 0x7b {
        let j = spec_skip_ws(s, i + 1);
        if 0 <= j < s.len() && s[j] == 0x7d {
            None
        } else {
            spec_members(s, j, key)
        }
    } else {
        None
    }
}

/// Executable mirror of [`spec_obj_member`].
pub fn obj_member(s: &Vec<u8>, i: usize, key: &Vec<u8>) -> (r: Option<usize>)
    requires
        i <= s.len(),
    ensures
        match r {
            Some(v) => spec_obj_member(s@, i as int, key@) == Some(v as int) && v <= s.len(),
            None => spec_obj_member(s@, i as int, key@) is None,
        },
{
    if i >= s.len() || s[i] != 0x7b {
        return None;
    }
    let mut j = skip_ws(s, i + 1);
    if j < s.len() && s[j] == 0x7d {
        return None;
    }
    loop
        invariant
            j <= s.len(),
            i < s@.len() && s@[i as int] == 0x7b,
            spec_obj_member(s@, i as int, key@) == spec_members(s@, j as int, key@),
        decreases s.len() - j,
    {
        let ghost j_at_entry = j as int;
        match parse_string(s, j) {
            None => {
                return None;
            },
            Some((k, j2)) => {
                let j3 = skip_ws(s, j2);
                if j3 >= s.len() || s[j3] != 0x3a {
                    return None;
                }
                let v = skip_ws(s, j3 + 1);
                if bytes_eq(&k, key) {
                    return Some(v);
                }
                match skip_value(s, v) {
                    None => {
                        return None;
                    },
                    Some(j4) => {
                        let j5 = skip_ws(s, j4);
                        if j5 >= s.len() || s[j5] != 0x2c {
                            return None;
                        }
                        j = skip_ws(s, j5 + 1);
                        proof {
                            assert(spec_members(s@, j_at_entry, key@) == spec_members(
                                s@,
                                j as int,
                                key@,
                            ));
                        }
                    },
                }
            },
        }
    }
}

/// The position where the first element of the array that starts at `i`
/// begins, or `None` for an empty array or a value that is no array.
pub open spec fn spec_arr_first(s: Seq<u8>, i: int) -> Option<int> {
    if 0 <= i < s.len() && s[i] == 0x5b {
        let j = spec_skip_ws(s, i + 1);
        if 0 <= j < s.len() && s[j] == 0x5d {
            None
        } else {
            Some(j)
        }
    } else {
        None
    }
}

/// Executable mirror of [`spec_arr_first`].
pub fn arr_first(s: &Vec<u8>, i: usize) -> (r: Option<usize>)
    requires
        i <= s.len(),
    ensures
        match r {
            Some(v) => spec_arr_first(s@, i as int) == Some(v as int) && v <= s.len(),
            None => spec_arr_first(s@, i as int) is None,
        },
{
    if i >= s.len() || s[i] != 0x5b {
        return None;
    }
    let j = skip_ws(s, i + 1);
    if j < s.len() && s[j] == 0x5d {
        return None;
    }
    Some(j)
}

/// Copies a byte vector.
pub fn copy_bytes(v: &Vec<u8>) -> (r: Vec<u8>)
    ensures
        r@ == v@,
{
    let mut r: Vec<u8> = Vec::new();
    push_bytes(&mut r, v);
    proof {
        assert(Seq::<u8>::empty() + v@ =~= v@);
    }
    r
}

/// Copies a vector of byte vectors.
pub fn copy_labels(ls: &Vec<Vec<u8>>) -> (r: Vec<Vec<u8>>)
    ensures
        r.deep_view() == ls.deep_view(),
        r@.len() == ls@.len(),
{
    let mut r: Vec<Vec<u8>> = Vec::new();
    let mut i: usize = 0;
    while i < ls.len()
        invariant
            0 <= i <= ls.len(),
            r@.len() == i,
            forall|k: int| 0 <= k < i ==> r.deep_view()[k] == ls.deep_view()[k],
        decreases ls.len() - i,
    {
        r.push(copy_bytes(&ls[i]));
        i = i + 1;
    }
    proof {
        assert(r.deep_view() =~= ls.deep_view());
    }
    r
}

/// Escaping leaves a sequence without quotes, backslashes or control
/// characters unchanged.
pub proof fn lemma_esc_plain(x: Seq<u8>)
    requires
        forall|i: int| 0 <= i < x.len() ==> (x[i] != 0x22 && x[i] != 0x5c && x[i] >= 0x20),
    ensures
        spec_esc(x) == x,
    decreases x.len(),
{
    if x.len() == 0 {
        assert(spec_esc(x) =~= x);
    } else {
        lemma_esc_plain(x.drop_first());
        assert(spec_esc_byte(x[0]) =~= seq![x[0]]);
        assert(seq![x[0]] + x.drop_first() =~= x);
    }
}

/// String escaping inverts under string parsing: a JSON string written as
/// the escaping of `x` followed by a closing quote parses back to exactly
/// `x`, wherever it stands in a larger text.
#[verifier::rlimit(80)]
pub proof fn lemma_str_body_inverts_esc(pre: Seq<u8>, x: Seq<u8>, post: Seq<u8>)
    ensures
        spec_str_body(pre + spec_esc(x) + seq![0x22u8] + post, pre.len() as int) == Some(
            (x, pre.len() as int + spec_esc(x).len() + 1),
        ),
    decreases x.len(),
{
    let s = pre + spec_esc(x) + seq![0x22u8] + post;
    let i = pre.len() as int;
    if x.len() == 0 {
        assert(spec_esc(x) =~= Seq::<u8>::empty());
        assert(s[i] == 0x22);
        assert(x =~= Seq::<u8>::empty());
        assert(spec_str_body(s, i) == Some((Seq::<u8>::empty(), i + 1)));
    } else {
        let b = x[0];
        let eb = spec_esc_byte(b);
        let x1 = x.drop_first();
        let pre1 = pre + eb;
        assert(spec_esc(x) == eb + spec_esc(x1));
        assert(s =~= pre1 + spec_esc(x1) + seq![0x22u8] + post);
        lemma_str_body_inverts_esc(pre1, x1, post);
        assert(spec_str_body(s, pre1.len() as int) == Some(
            (x1, pre1.len() as int + spec_esc(x1).len() + 1),
        ));
        assert(seq![b] + x1 =~= x);
        assert(forall|k: int| 0 <= k < eb.len() ==> s[i + k] == eb[k]);
        if b == 0x22 || b == 0x5c {
            assert(s[i] == 0x5c && s[i + 1] == b);
            assert(spec_str_body(s, i) == spec_prepend(seq![b], spec_str_body(s, i + 2)));
        } else if b == 0x08 || b == 0x09 || b == 0x0a || b == 0x0c || b == 0x0d {
            assert(s[i] == 0x5c);
            assert(spec_str_body(s, i) == spec_prepend(seq![b], spec_str_body(s, i + 2)));
        } else if b < 0x20 {
            assert(s[i] == 0x5c && s[i + 1] == 0x75 && s[i + 2] == 0x30 && s[i + 3] == 0x30 && s[i
                + 4] == spec_hex_digit(b / 16) && s[i + 5] == spec_hex_digit(b % 16));
            assert(spec_hex_val(0x30u8) == Some(0u8));
            assert(spec_hex_val(spec_hex_digit(b / 16)) == Some((b / 16) as u8));
            assert(spec_hex_val(spec_hex_digit(b % 16)) == Some((b % 16) as u8));
            assert((b / 16) as int * 16 + (b % 16) as int == b as int);
            assert(spec_hex4(s, i + 2) == Some(b as int));
            assert(spec_utf8_enc(b as int) =~= seq![b]);
            assert(spec_str_body(s, i) == spec_prepend(seq![b], spec_str_body(s, i + 6)));
        } else {
            assert(s[i] == b && b != 0x22 && b != 0x5c && b >= 0x20);
            assert(spec_str_body(s, i) == spec_prepend(seq![b], spec_str_body(s, i + 1)));
        }
        assert(spec_str_body(s, i) == Some((x, pre.len() as int + spec_esc(x).len() + 1)));
    }
}

} // verus!
