use vstd::prelude::*;

verus! {

// Key material and threshold-protocol values cross the text boundary as
// hex strings.  Decoding and encoding are verified here down to the
// character level: a decode succeeds exactly on an even-length string of
// hex digits of the expected width.

pub open spec fn is_hex_digit(c: char) -> bool {
    (48 <= c as nat && c as nat <= 57) || (97 <= c as nat && c as nat <= 102) || (65 <= c as nat
        && c as nat <= 70)
}

pub open spec fn hex_digit_val(c: char) -> u8
    recommends
        is_hex_digit(c),
{
    if 48 <= c as nat && c as nat <= 57 {
        (c as nat - 48) as u8
    } else if 97 <= c as nat && c as nat <= 102 {
        (c as nat - 87) as u8
    } else {
        (c as nat - 55) as u8
    }
}

/// Holds when `s` spells exactly `n` bytes in hex.
pub open spec fn valid_hex(s: Seq<char>, n: nat) -> bool {
    s.len() == 2 * n && (forall|i: int| 0 <= i < s.len() ==> is_hex_digit(#[trigger] s[i]))
}

pub open spec fn hex_decoded(s: Seq<char>) -> Seq<u8> {
    Seq::new((s.len() / 2) as nat, |i: int| (16 * hex_digit_val(s[2 * i]) + hex_digit_val(s[2 * i + 1])) as u8)
}

pub open spec fn hex_char_of(v: u8) -> char
    recommends
        v < 16,
{
    if v < 10 {
        ((v + 48) as u8) as char
    } else {
        ((v + 87) as u8) as char
    }
}

/// The canonical (lowercase) hex spelling of a byte string.
pub open spec fn hex_encoded(b: Seq<u8>) -> Seq<char> {
    Seq::new(2 * b.len(), |i: int| if i % 2 == 0 {
        hex_char_of(b[i / 2] / 16)
    } else {
        hex_char_of(b[i / 2] % 16)
    })
}

fn hex_val_of_byte(b: u8) -> (r: Option<u8>)
    ensures
        match r {
            Some(v) => is_hex_digit(b as char) && v == hex_digit_val(b as char) && v < 16,
            None => !is_hex_digit(b as char),
        },
{
    if 48 <= b && b <= 57 {
        Some(b - 48)
    } else if 97 <= b && b <= 102 {
        Some(b - 87)
    } else if 65 <= b && b <= 70 {
        Some(b - 55)
    } else {
        None
    }
}

/// Decodes `s` as the hex spelling of exactly `n` bytes; reports exactly
/// the malformed inputs.
pub fn decode_hex(s: &str, n: usize) -> (r: Option<Vec<u8>>)
    ensures
        match r {
            Some(v) => valid_hex(s@, n as nat) && v@ == hex_decoded(s@) && v@.len() == n,
            None => !valid_hex(s@, n as nat),
        },
{
    let bytes: &[u8] = match ascii_bytes_of(s) {
        Some(b) => b,
        None => {
            proof {
                let i = choose|i: int| 0 <= i < s@.len() && ((#[trigger] s@[i]) as nat) > 127;
                assert(!is_hex_digit(s@[i]));
            }
            return None;
        },
    };
    let m: usize = bytes.len();
    if m % 2 != 0 {
        return None;
    }
    if m / 2 != n {
        return None;
    }
    assert(s@.len() == 2 * n);
    let mut out: Vec<u8> = Vec::new();
    let mut i: usize = 0;
    while i < n
        invariant
            i <= n,
            s@.len() == 2 * n,
            m == 2 * n,
            forall|k: int| 0 <= k < s@.len() ==> ((#[trigger] bytes@[k]) as char) == s@[k],
            forall|k: int| 0 <= k < s@.len() ==> #[trigger] bytes@[k] < 128,
            bytes@.len() == s@.len(),
            bytes@.len() == m,
            forall|k: int| 0 <= k < 2 * i ==> is_hex_digit(#[trigger] s@[k]),
            out@ == hex_decoded(s@).take(i as int),
        decreases n - i,
    {
        proof {
            assert((bytes@[2 * i as int] as char) == s@[2 * i as int]);
            assert((bytes@[2 * i as int + 1] as char) == s@[2 * i as int + 1]);
        }
        let hi = hex_val_of_byte(bytes[2 * i]);
        let lo = hex_val_of_byte(bytes[2 * i + 1]);
        match (hi, lo) {
            (Some(h), Some(l)) => {
                out.push(16 * h + l);
                proof {
                    assert(hex_decoded(s@)[i as int] == (16 * hex_digit_val(s@[2 * i as int])
                        + hex_digit_val(s@[2 * i as int + 1])) as u8);
                    assert(hex_decoded(s@).take(i as int + 1) =~= hex_decoded(s@).take(
                        i as int,
                    ).push(hex_decoded(s@)[i as int]));
                }
                i = i + 1;
            },
            _ => {
                proof {
                    assert(!is_hex_digit(s@[2 * i as int]) || !is_hex_digit(
                        s@[2 * i as int + 1],
                    ));
                }
                return None;
            },
        }
    }
    proof {
        assert(hex_decoded(s@).take(n as int) =~= hex_decoded(s@));
    }
    Some(out)
}

fn hex_digit_char(v: u8) -> (r: u8)
    requires
        v < 16,
    ensures
        r as char == hex_char_of(v),
        r < 128,
{
    if v < 10 {
        v + 48
    } else {
        v + 87
    }
}

/// Encodes `b` as its canonical lowercase hex spelling.
pub fn encode_hex(b: &Vec<u8>) -> (r: String)
    ensures
        r@ == hex_encoded(b@),
{
    let mut chars: Vec<u8> = Vec::new();
    let mut i: usize = 0;
    while i < b.len()
        invariant
            i <= b@.len(),
            chars@.len() == 2 * i,
            forall|k: int| 0 <= k < chars@.len() ==> #[trigger] chars@[k] < 128,
            forall|k: int|
                0 <= k < chars@.len() ==> (#[trigger] chars@[k]) as char == hex_encoded(b@)[k],
        decreases b@.len() - i,
    {
        let hi = hex_digit_char(b[i] / 16);
        let lo = hex_digit_char(b[i] % 16);
        chars.push(hi);
        chars.push(lo);
        i = i + 1;
    }
    let ghost cseq = chars@;
    let r = vec_ascii_to_string(chars);
    proof {
        assert(r@ =~= hex_encoded(b@)) by {
            assert(forall|k: int| 0 <= k < cseq.len() ==> r@[k] == (#[trigger] cseq[k]) as char);
        }
    }
    r
}

/// Relies on `str::is_ascii` and `str::as_bytes`: an ASCII string's bytes
/// are its characters' code points, one byte per character; a string that
/// is not ASCII has a character whose code point is above 127.
#[verifier::external_body]
fn ascii_bytes_of(s: &str) -> (r: Option<&[u8]>)
    ensures
        match r {
            Some(b) => b@.len() == s@.len() && (forall|k: int|
                0 <= k < s@.len() ==> ((#[trigger] b@[k]) as char) == s@[k]) && (forall|k: int|
                0 <= k < s@.len() ==> #[trigger] b@[k] < 128),
            None => exists|k: int| 0 <= k < s@.len() && ((#[trigger] s@[k]) as nat) > 127,
        },
{
    if s.is_ascii() {
        Some(s.as_bytes())
    } else {
        None
    }
}

/// Relies on `String::from_utf8`: bytes below 128 are one character each.
#[verifier::external_body]
fn vec_ascii_to_string(bytes: Vec<u8>) -> (r: String)
    requires
        forall|k: int| 0 <= k < bytes@.len() ==> #[trigger] bytes@[k] < 128,
    ensures
        r@ == Seq::new(bytes@.len(), |k: int| bytes@[k] as char),
{
    String::from_utf8(bytes).unwrap_or_default()
}


/// Holds when `s` spells some whole number of bytes in hex.
pub open spec fn valid_hex_any(s: Seq<char>) -> bool {
    s.len() % 2 == 0 && (forall|i: int| 0 <= i < s.len() ==> is_hex_digit(#[trigger] s[i]))
}

/// Decodes `s` as hex of any whole-byte length; reports exactly the
/// malformed inputs.
pub fn decode_hex_any(s: &str) -> (r: Option<Vec<u8>>)
    ensures
        match r {
            Some(v) => valid_hex_any(s@) && v@ == hex_decoded(s@) && 2 * v@.len() == s@.len(),
            None => !valid_hex_any(s@),
        },
{
    let bytes: &[u8] = match ascii_bytes_of(s) {
        Some(b) => b,
        None => {
            proof {
                let i = choose|i: int| 0 <= i < s@.len() && ((#[trigger] s@[i]) as nat) > 127;
                assert(!is_hex_digit(s@[i]));
            }
            return None;
        },
    };
    let m: usize = bytes.len();
    if m % 2 != 0 {
        return None;
    }
    let n: usize = m / 2;
    let mut out: Vec<u8> = Vec::new();
    let mut i: usize = 0;
    while i < n
        invariant
            i <= n,
            s@.len() == 2 * n,
            m == 2 * n,
            forall|k: int| 0 <= k < s@.len() ==> ((#[trigger] bytes@[k]) as char) == s@[k],
            forall|k: int| 0 <= k < s@.len() ==> #[trigger] bytes@[k] < 128,
            bytes@.len() == s@.len(),
            bytes@.len() == m,
            forall|k: int| 0 <= k < 2 * i ==> is_hex_digit(#[trigger] s@[k]),
            out@ == hex_decoded(s@).take(i as int),
        decreases n - i,
    {
        proof {
            assert((bytes@[2 * i as int] as char) == s@[2 * i as int]);
            assert((bytes@[2 * i as int + 1] as char) == s@[2 * i as int + 1]);
        }
        let hi = hex_val_of_byte(bytes[2 * i]);
        let lo = hex_val_of_byte(bytes[2 * i + 1]);
        match (hi, lo) {
            (Some(h), Some(l)) => {
                out.push(16 * h + l);
                proof {
                    assert(hex_decoded(s@)[i as int] == (16 * hex_digit_val(s@[2 * i as int])
                        + hex_digit_val(s@[2 * i as int + 1])) as u8);
                    assert(hex_decoded(s@).take(i as int + 1) =~= hex_decoded(s@).take(
                        i as int,
                    ).push(hex_decoded(s@)[i as int]));
                }
                i = i + 1;
            },
            _ => {
                proof {
                    assert(!is_hex_digit(s@[2 * i as int]) || !is_hex_digit(
                        s@[2 * i as int + 1],
                    ));
                }
                return None;
            },
        }
    }
    proof {
        assert(hex_decoded(s@).take(n as int) =~= hex_decoded(s@));
    }
    Some(out)
}

} // verus!
