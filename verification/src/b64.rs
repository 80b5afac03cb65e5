//! Base64url without padding, over ASCII bytes: the framing of a token's
//! three segments. The decoder is canonical: it rejects padding characters
//! and any encoding with non-zero slack bits, so every byte sequence has
//! exactly one accepted encoding — the one the encoder emits.

use vstd::prelude::*;

verus! {

/// The base64url alphabet: `A-Z`, `a-z`, `0-9`, `-`, `_`.
pub open spec fn b64_char(v: int) -> u8 {
    if v < 26 {
        (65 + v) as u8
    } else if v < 52 {
        (97 + v - 26) as u8
    } else if v < 62 {
        (48 + v - 52) as u8
    } else if v == 62 {
        45u8
    } else {
        95u8
    }
}

/// Value of one alphabet byte, or -1 when the byte is not in the alphabet.
pub open spec fn b64_val(c: u8) -> int {
    if 65 <= c <= 90 {
        c - 65
    } else if 97 <= c <= 122 {
        c - 97 + 26
    } else if 48 <= c <= 57 {
        c - 48 + 52
    } else if c == 45 {
        62
    } else if c == 95 {
        63
    } else {
        -1
    }
}

/// The base64url (no padding) encoding of a byte sequence: four alphabet
/// bytes per three input bytes, a shortened final group for the leftover.
pub open spec fn spec_b64u_encode(bytes: Seq<u8>) -> Seq<u8>
    decreases bytes.len(),
{
    if bytes.len() >= 3 {
        let b0 = bytes[0] as int;
        let b1 = bytes[1] as int;
        let b2 = bytes[2] as int;
        seq![
            b64_char(b0 / 4),
            b64_char((b0 % 4) * 16 + b1 / 16),
            b64_char((b1 % 16) * 4 + b2 / 64),
            b64_char(b2 % 64),
        ] + spec_b64u_encode(bytes.skip(3))
    } else if bytes.len() == 2 {
        let b0 = bytes[0] as int;
        let b1 = bytes[1] as int;
        seq![b64_char(b0 / 4), b64_char((b0 % 4) * 16 + b1 / 16), b64_char((b1 % 16) * 4)]
    } else if bytes.len() == 1 {
        let b0 = bytes[0] as int;
        seq![b64_char(b0 / 4), b64_char((b0 % 4) * 16)]
    } else {
        Seq::empty()
    }
}

/// The canonical base64url decoding: `None` for any input that is not
/// exactly what `spec_b64u_encode` produces for some byte sequence.
pub open spec fn spec_b64u_decode(s: Seq<u8>) -> Option<Seq<u8>>
    decreases s.len(),
{
    if s.len() == 0 {
        Some(Seq::empty())
    } else if s.len() == 1 {
        None
    } else if s.len() == 2 {
        let v0 = b64_val(s[0]);
        let v1 = b64_val(s[1]);
        if v0 >= 0 && v1 >= 0 && v1 % 16 == 0 {
            Some(seq![(v0 * 4 + v1 / 16) as u8])
        } else {
            None
        }
    } else if s.len() == 3 {
        let v0 = b64_val(s[0]);
        let v1 = b64_val(s[1]);
        let v2 = b64_val(s[2]);
        if v0 >= 0 && v1 >= 0 && v2 >= 0 && v2 % 4 == 0 {
            Some(seq![(v0 * 4 + v1 / 16) as u8, ((v1 % 16) * 16 + v2 / 4) as u8])
        } else {
            None
        }
    } else {
        let v0 = b64_val(s[0]);
        let v1 = b64_val(s[1]);
        let v2 = b64_val(s[2]);
        let v3 = b64_val(s[3]);
        if v0 >= 0 && v1 >= 0 && v2 >= 0 && v3 >= 0 {
            match spec_b64u_decode(s.skip(4)) {
                Some(rest) => Some(
                    seq![
                        (v0 * 4 + v1 / 16) as u8,
                        ((v1 % 16) * 16 + v2 / 4) as u8,
                        ((v2 % 4) * 64 + v3) as u8,
                    ] + rest,
                ),
                None => None,
            }
        } else {
            None
        }
    }
}

/// One alphabet byte for a 6-bit value.
fn b64_char_of(v: u8) -> (r: u8)
    requires
        v < 64,
    ensures
        r == b64_char(v as int),
{
    if v < 26 {
        65 + v
    } else if v < 52 {
        97 + v - 26
    } else if v < 62 {
        48 + v - 52
    } else if v == 62 {
        45
    } else {
        95
    }
}

/// The 6-bit value of one byte, or `None` when it is not in the alphabet.
fn b64_val_of(c: u8) -> (r: Option<u8>)
    ensures
        match r {
            Some(v) => b64_val(c) == v as int && v < 64,
            None => b64_val(c) == -1,
        },
{
    if 65 <= c && c <= 90 {
        Some(c - 65)
    } else if 97 <= c && c <= 122 {
        Some(c - 97 + 26)
    } else if 48 <= c && c <= 57 {
        Some(c - 48 + 52)
    } else if c == 45 {
        Some(62)
    } else if c == 95 {
        Some(63)
    } else {
        None
    }
}

/// Base64url-encode a byte sequence, without padding.
pub fn b64u_encode(bytes: &Vec<u8>) -> (r: Vec<u8>)
    ensures
        r@ == spec_b64u_encode(bytes@),
{
    let n = bytes.len();
    let mut out: Vec<u8> = Vec::new();
    let mut pos: usize = 0;
    proof {
        assert(bytes@.skip(0) =~= bytes@);
        assert(out@ + spec_b64u_encode(bytes@) =~= spec_b64u_encode(bytes@));
    }
    while n - pos >= 3
        invariant
            pos <= n,
            n == bytes@.len(),
            spec_b64u_encode(bytes@) == out@ + spec_b64u_encode(bytes@.skip(pos as int)),
        decreases n - pos,
    {
        let b0 = bytes[pos];
        let b1 = bytes[pos + 1];
        let b2 = bytes[pos + 2];
        let ghost pre = out@;
        out.push(b64_char_of(b0 / 4));
        out.push(b64_char_of((b0 % 4) * 16 + b1 / 16));
        out.push(b64_char_of((b1 % 16) * 4 + b2 / 64));
        out.push(b64_char_of(b2 % 64));
        proof {
            let tail = bytes@.skip(pos as int);
            assert(tail.len() >= 3);
            assert(tail[0] == b0 && tail[1] == b1 && tail[2] == b2);
            assert(tail.skip(3) =~= bytes@.skip(pos as int + 3));
            assert(out@ =~= pre + seq![
                b64_char(b0 as int / 4),
                b64_char((b0 as int % 4) * 16 + b1 as int / 16),
                b64_char((b1 as int % 16) * 4 + b2 as int / 64),
                b64_char(b2 as int % 64),
            ]);
            assert(spec_b64u_encode(bytes@) =~= out@ + spec_b64u_encode(
                bytes@.skip(pos as int + 3),
            ));
        }
        pos += 3;
    }
    let ghost tail = bytes@.skip(pos as int);
    if n - pos == 2 {
        let b0 = bytes[pos];
        let b1 = bytes[pos + 1];
        out.push(b64_char_of(b0 / 4));
        out.push(b64_char_of((b0 % 4) * 16 + b1 / 16));
        out.push(b64_char_of((b1 % 16) * 4));
        proof {
            assert(tail[0] == b0 && tail[1] == b1);
            assert(spec_b64u_encode(bytes@) =~= out@);
        }
    } else if n - pos == 1 {
        let b0 = bytes[pos];
        out.push(b64_char_of(b0 / 4));
        out.push(b64_char_of((b0 % 4) * 16));
        proof {
            assert(tail[0] == b0);
            assert(spec_b64u_encode(bytes@) =~= out@);
        }
    } else {
        proof {
            assert(tail.len() == 0);
            assert(spec_b64u_encode(bytes@) =~= out@);
        }
    }
    out
}

/// Decode a canonical base64url (no padding) byte sequence; `None` for
/// anything else.
pub fn b64u_decode(s: &Vec<u8>) -> (r: Option<Vec<u8>>)
    ensures
        match r {
            Some(out) => spec_b64u_decode(s@) == Some(out@),
            None => spec_b64u_decode(s@) is None,
        },
{
    let n = s.len();
    let mut out: Vec<u8> = Vec::new();
    let mut pos: usize = 0;
    proof {
        assert(s@.skip(0) =~= s@);
        if spec_b64u_decode(s@) is Some {
            assert(out@ + spec_b64u_decode(s@).unwrap() =~= spec_b64u_decode(s@).unwrap());
        }
    }
    while n - pos >= 4
        invariant
            pos <= n,
            n == s@.len(),
            spec_b64u_decode(s@) is Some <==> spec_b64u_decode(s@.skip(pos as int)) is Some,
            spec_b64u_decode(s@) is Some ==> spec_b64u_decode(s@) == Some(
                out@ + spec_b64u_decode(s@.skip(pos as int)).unwrap(),
            ),
        decreases n - pos,
    {
        let ghost tail = s@.skip(pos as int);
        proof {
            assert(tail.len() >= 4);
            assert(tail[0] == s@[pos as int]);
            assert(tail[1] == s@[pos as int + 1]);
            assert(tail[2] == s@[pos as int + 2]);
            assert(tail[3] == s@[pos as int + 3]);
            assert(tail.skip(4) =~= s@.skip(pos as int + 4));
        }
        let v0 = match b64_val_of(s[pos]) {
            Some(v) => v,
            None => {
                return None;
            },
        };
        let v1 = match b64_val_of(s[pos + 1]) {
            Some(v) => v,
            None => {
                return None;
            },
        };
        let v2 = match b64_val_of(s[pos + 2]) {
            Some(v) => v,
            None => {
                return None;
            },
        };
        let v3 = match b64_val_of(s[pos + 3]) {
            Some(v) => v,
            None => {
                return None;
            },
        };
        let ghost pre = out@;
        out.push(v0 * 4 + v1 / 16);
        out.push((v1 % 16) * 16 + v2 / 4);
        out.push((v2 % 4) * 64 + v3);
        proof {
            let chunk = seq![
                (v0 as int * 4 + v1 as int / 16) as u8,
                ((v1 as int % 16) * 16 + v2 as int / 4) as u8,
                ((v2 as int % 4) * 64 + v3 as int) as u8,
            ];
            assert(out@ =~= pre + chunk);
            if spec_b64u_decode(tail.skip(4)) is Some {
                assert(spec_b64u_decode(tail) == Some(
                    chunk + spec_b64u_decode(tail.skip(4)).unwrap(),
                ));
                if spec_b64u_decode(s@) is Some {
                    assert(pre + (chunk + spec_b64u_decode(tail.skip(4)).unwrap()) =~= out@
                        + spec_b64u_decode(tail.skip(4)).unwrap());
                }
            }
        }
        pos += 4;
    }
    let ghost tail = s@.skip(pos as int);
    let left = n - pos;
    if left == 0 {
        proof {
            assert(tail.len() == 0);
            assert(out@ + tail =~= out@);
        }
        Some(out)
    } else if left == 1 {
        None
    } else if left == 2 {
        proof {
            assert(tail[0] == s@[pos as int] && tail[1] == s@[pos as int + 1]);
        }
        let v0 = match b64_val_of(s[pos]) {
            Some(v) => v,
            None => {
                return None;
            },
        };
        let v1 = match b64_val_of(s[pos + 1]) {
            Some(v) => v,
            None => {
                return None;
            },
        };
        if v1 % 16 != 0 {
            return None;
        }
        let ghost pre = out@;
        out.push(v0 * 4 + v1 / 16);
        proof {
            assert(spec_b64u_decode(tail) == Some(seq![(v0 as int * 4 + v1 as int / 16) as u8]));
            assert(pre + seq![(v0 as int * 4 + v1 as int / 16) as u8] =~= out@);
        }
        Some(out)
    } else {
        proof {
            assert(tail[0] == s@[pos as int]);
            assert(tail[1] == s@[pos as int + 1]);
            assert(tail[2] == s@[pos as int + 2]);
        }
        let v0 = match b64_val_of(s[pos]) {
            Some(v) => v,
            None => {
                return None;
            },
        };
        let v1 = match b64_val_of(s[pos + 1]) {
            Some(v) => v,
            None => {
                return None;
            },
        };
        let v2 = match b64_val_of(s[pos + 2]) {
            Some(v) => v,
            None => {
                return None;
            },
        };
        if v2 % 4 != 0 {
            return None;
        }
        let ghost pre = out@;
        out.push(v0 * 4 + v1 / 16);
        out.push((v1 % 16) * 16 + v2 / 4);
        proof {
            assert(spec_b64u_decode(tail) == Some(seq![
                (v0 as int * 4 + v1 as int / 16) as u8,
                ((v1 as int % 16) * 16 + v2 as int / 4) as u8,
            ]));
            assert(pre + seq![
                (v0 as int * 4 + v1 as int / 16) as u8,
                ((v1 as int % 16) * 16 + v2 as int / 4) as u8,
            ] =~= out@);
        }
        Some(out)
    }
}

/// Every alphabet byte is ASCII and never a dot.
proof fn lemma_b64_char_ascii()
    ensures
        forall|v: int| 0 <= v ==> (#[trigger] b64_char(v)) < 128 && b64_char(v) != 46,
{
}

/// Every byte the encoder emits is an ASCII alphabet byte, never a dot.
pub proof fn lemma_b64u_encode_ascii(bytes: Seq<u8>)
    ensures
        forall|i: int| 0 <= i < spec_b64u_encode(bytes).len() ==> (#[trigger] spec_b64u_encode(
            bytes,
        )[i]) < 128 && spec_b64u_encode(bytes)[i] != 46,
    decreases bytes.len(),
{
    lemma_b64_char_ascii();
    let enc = spec_b64u_encode(bytes);
    if bytes.len() >= 3 {
        lemma_b64u_encode_ascii(bytes.skip(3));
        assert forall|i: int| 0 <= i < enc.len() implies (#[trigger] enc[i]) < 128 && enc[i]
            != 46 by {
            if i >= 4 {
                assert(enc[i] == spec_b64u_encode(bytes.skip(3))[i - 4]);
            }
        }
    }
}


/// The alphabet value of an alphabet byte is the value it encodes.
proof fn lemma_b64_val_char(v: int)
    requires
        0 <= v < 64,
    ensures
        b64_val(b64_char(v)) == v,
{
}

/// The decoder inverts the encoder: every byte sequence decodes back from
/// its encoding, so the encoding is the one accepted spelling.
pub proof fn lemma_b64_round_trip(bytes: Seq<u8>)
    ensures
        spec_b64u_decode(spec_b64u_encode(bytes)) == Some(bytes),
    decreases bytes.len(),
{
    let enc = spec_b64u_encode(bytes);
    if bytes.len() == 0 {
        assert(spec_b64u_decode(enc) == Some(Seq::<u8>::empty()));
        assert(bytes =~= Seq::<u8>::empty());
    } else if bytes.len() == 1 {
        let b0 = bytes[0] as int;
        lemma_b64_val_char(b0 / 4);
        lemma_b64_val_char((b0 % 4) * 16);
        assert(enc.len() == 2);
        assert(spec_b64u_decode(enc) == Some(seq![((b0 / 4) * 4 + ((b0 % 4) * 16) / 16) as u8]));
        assert((b0 / 4) * 4 + ((b0 % 4) * 16) / 16 == b0);
        assert(seq![bytes[0]] =~= bytes);
    } else if bytes.len() == 2 {
        let b0 = bytes[0] as int;
        let b1 = bytes[1] as int;
        lemma_b64_val_char(b0 / 4);
        lemma_b64_val_char((b0 % 4) * 16 + b1 / 16);
        lemma_b64_val_char((b1 % 16) * 4);
        assert(enc.len() == 3);
        let v0 = b0 / 4;
        let v1 = (b0 % 4) * 16 + b1 / 16;
        let v2 = (b1 % 16) * 4;
        assert(v2 % 4 == 0);
        assert(v0 * 4 + v1 / 16 == b0);
        assert((v1 % 16) * 16 + v2 / 4 == b1);
        assert(seq![bytes[0], bytes[1]] =~= bytes);
    } else {
        let b0 = bytes[0] as int;
        let b1 = bytes[1] as int;
        let b2 = bytes[2] as int;
        lemma_b64_val_char(b0 / 4);
        lemma_b64_val_char((b0 % 4) * 16 + b1 / 16);
        lemma_b64_val_char((b1 % 16) * 4 + b2 / 64);
        lemma_b64_val_char(b2 % 64);
        lemma_b64_round_trip(bytes.skip(3));
        let rest = spec_b64u_encode(bytes.skip(3));
        assert(enc.len() == 4 + rest.len());
        assert(enc[0] == b64_char(b0 / 4));
        assert(enc[1] == b64_char((b0 % 4) * 16 + b1 / 16));
        assert(enc[2] == b64_char((b1 % 16) * 4 + b2 / 64));
        assert(enc[3] == b64_char(b2 % 64));
        assert(enc.skip(4) =~= rest);
        let v0 = b0 / 4;
        let v1 = (b0 % 4) * 16 + b1 / 16;
        let v2 = (b1 % 16) * 4 + b2 / 64;
        let v3 = b2 % 64;
        assert(v0 * 4 + v1 / 16 == b0);
        assert((v1 % 16) * 16 + v2 / 4 == b1);
        assert((v2 % 4) * 64 + v3 == b2);
        assert(spec_b64u_decode(enc) == Some(
            seq![bytes[0], bytes[1], bytes[2]] + bytes.skip(3),
        ));
        assert(seq![bytes[0], bytes[1], bytes[2]] + bytes.skip(3) =~= bytes);
    }
}

} // verus!
