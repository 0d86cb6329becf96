use vstd::prelude::*;

verus! {

/// A character that may stand in a hex string: a decimal digit or a letter
/// `a`..`f` in either case.
pub open spec fn is_hex_digit(c: char) -> bool {
    (48 <= c as u32 && c as u32 <= 57)  // '0'..'9'
    || (97 <= c as u32 && c as u32 <= 102)  // 'a'..'f'
    || (65 <= c as u32 && c as u32 <= 70)  // 'A'..'F'
}

/// The numeric value of a hex digit.
pub open spec fn hex_digit_val(c: char) -> nat
    recommends
        is_hex_digit(c),
{
    if 48 <= c as u32 && c as u32 <= 57 {
        (c as u32 - 48) as nat
    } else if 97 <= c as u32 && c as u32 <= 102 {
        (c as u32 - 97 + 10) as nat
    } else {
        (c as u32 - 65 + 10) as nat
    }
}

/// The lower-case hex digit for a value below 16.
pub open spec fn hex_char_of(v: nat) -> char
    recommends
        v < 16,
{
    if v < 10 {
        ((v + 48) as u8) as char
    } else {
        ((v + 87) as u8) as char  // 'a' is 97
    }
}

/// A well-formed hex string: even length, every character a hex digit.
pub open spec fn valid_hex_seq(s: Seq<char>) -> bool {
    s.len() % 2 == 0 && (forall|i: int| 0 <= i < s.len() ==> is_hex_digit(#[trigger] s[i]))
}

/// The byte a pair of hex digits denotes, high digit first.
pub open spec fn byte_of_hex_pair(hi: char, lo: char) -> u8
    recommends
        is_hex_digit(hi),
        is_hex_digit(lo),
{
    (hex_digit_val(hi) * 16 + hex_digit_val(lo)) as u8
}

/// The bytes an even-length hex string denotes.
pub open spec fn hex_decode_seq(s: Seq<char>) -> Seq<u8>
    decreases s.len(),
{
    if s.len() < 2 {
        Seq::empty()
    } else {
        seq![byte_of_hex_pair(s[0], s[1])] + hex_decode_seq(s.skip(2))
    }
}

/// The lower-case hex string that denotes the given bytes.
pub open spec fn hex_encode_seq(b: Seq<u8>) -> Seq<char>
    decreases b.len(),
{
    if b.len() == 0 {
        Seq::empty()
    } else {
        seq![hex_char_of(b[0] as nat / 16), hex_char_of(b[0] as nat % 16)] + hex_encode_seq(
            b.skip(1),
        )
    }
}

/// Decoding distributes over concatenation of even-length hex strings.
pub proof fn lemma_hex_decode_append(s1: Seq<char>, s2: Seq<char>)
    requires
        s1.len() % 2 == 0,
    ensures
        hex_decode_seq(s1 + s2) == hex_decode_seq(s1) + hex_decode_seq(s2),
    decreases s1.len(),
{
    if s1.len() == 0 {
        assert(s1 + s2 =~= s2);
        assert(hex_decode_seq(s1) + hex_decode_seq(s2) =~= hex_decode_seq(s2));
    } else {
        let rest = s1.skip(2);
        lemma_hex_decode_append(rest, s2);
        assert((s1 + s2).skip(2) =~= rest + s2);
        assert(hex_decode_seq(s1 + s2) =~= hex_decode_seq(s1) + hex_decode_seq(s2));
    }
}

/// Encoding distributes over concatenation of byte strings.
pub proof fn lemma_hex_encode_append(b1: Seq<u8>, b2: Seq<u8>)
    ensures
        hex_encode_seq(b1 + b2) == hex_encode_seq(b1) + hex_encode_seq(b2),
    decreases b1.len(),
{
    if b1.len() == 0 {
        assert(b1 + b2 =~= b2);
        assert(hex_encode_seq(b1) + hex_encode_seq(b2) =~= hex_encode_seq(b2));
    } else {
        let rest = b1.skip(1);
        lemma_hex_encode_append(rest, b2);
        assert((b1 + b2).skip(1) =~= rest + b2);
        assert(hex_encode_seq(b1 + b2) =~= hex_encode_seq(b1) + hex_encode_seq(b2));
    }
}

/// A string of lower-case hex digits alone.
pub open spec fn is_lower_hex_seq(s: Seq<char>) -> bool {
    forall|i: int|
        0 <= i < s.len() ==> ((48 <= (#[trigger] s[i]) as u32 && s[i] as u32 <= 57) || (97
            <= s[i] as u32 && s[i] as u32 <= 102))
}

/// The encoding of any byte string is a well-formed lower-case hex string
/// of twice its length, and decoding it recovers exactly the original
/// bytes.
pub proof fn lemma_hex_roundtrip(b: Seq<u8>)
    ensures
        valid_hex_seq(hex_encode_seq(b)),
        is_lower_hex_seq(hex_encode_seq(b)),
        hex_encode_seq(b).len() == 2 * b.len(),
        hex_decode_seq(hex_encode_seq(b)) == b,
    decreases b.len(),
{
    if b.len() == 0 {
        assert(hex_decode_seq(hex_encode_seq(b)) =~= b);
    } else {
        let first = b[0];
        let hi = hex_char_of(first as nat / 16);
        let lo = hex_char_of(first as nat % 16);
        assert(is_hex_digit(hi) && hex_digit_val(hi) == first as nat / 16) by {
            lemma_hex_char_of_val(first as nat / 16);
        }
        assert(is_hex_digit(lo) && hex_digit_val(lo) == first as nat % 16) by {
            lemma_hex_char_of_val(first as nat % 16);
        }
        lemma_hex_roundtrip(b.skip(1));
        let enc = hex_encode_seq(b);
        assert(enc =~= seq![hi, lo] + hex_encode_seq(b.skip(1)));
        assert(forall|i: int|
            0 <= i < enc.len() ==> is_hex_digit(#[trigger] enc[i])) by {
            assert(forall|i: int|
                2 <= i < enc.len() ==> enc[i] == hex_encode_seq(b.skip(1))[i - 2]);
        }
        assert(is_lower_hex_seq(enc)) by {
            lemma_hex_char_of_val(first as nat / 16);
            lemma_hex_char_of_val(first as nat % 16);
            assert(forall|i: int|
                2 <= i < enc.len() ==> (#[trigger] enc[i]) == hex_encode_seq(b.skip(1))[i - 2]);
        }
        assert(byte_of_hex_pair(hi, lo) == first) by {
            assert(first as nat / 16 * 16 + first as nat % 16 == first as nat);
        }
        assert(enc.skip(2) =~= hex_encode_seq(b.skip(1)));
        assert(hex_decode_seq(enc) =~= b);
    }
}

/// `hex_char_of` yields a hex digit denoting the value it was given.
pub proof fn lemma_hex_char_of_val(v: nat)
    requires
        v < 16,
    ensures
        is_hex_digit(hex_char_of(v)),
        hex_digit_val(hex_char_of(v)) == v,
        97 <= hex_char_of(v) as u32 <= 102 || 48 <= hex_char_of(v) as u32 <= 57,
{
    if v < 10 {
        assert(hex_char_of(v) as u32 == v + 48);
    } else {
        assert(hex_char_of(v) as u32 == v + 87);
    }
}

/// Whether a character is a hex digit.
pub fn hex_digit(c: char) -> (r: bool)
    ensures
        r == is_hex_digit(c),
{
    let u = c as u32;
    (48 <= u && u <= 57) || (97 <= u && u <= 102) || (65 <= u && u <= 70)
}

/// The numeric value of a hex digit.
pub fn hex_digit_value(c: char) -> (r: u8)
    requires
        is_hex_digit(c),
    ensures
        r as nat == hex_digit_val(c),
        r < 16,
{
    let u = c as u32;
    if 48 <= u && u <= 57 {
        (u - 48) as u8
    } else if 97 <= u && u <= 102 {
        (u - 97 + 10) as u8
    } else {
        (u - 65 + 10) as u8
    }
}

/// Decode a hex string into bytes. Returns the bytes exactly when the input
/// is a well-formed hex string, and nothing otherwise.
pub fn hex_decode(s: &Vec<char>) -> (r: Option<Vec<u8>>)
    ensures
        r is Some <==> valid_hex_seq(s@),
        r matches Some(v) ==> v@ == hex_decode_seq(s@),
{
    if s.len() % 2 != 0 {
        return None;
    }
    let mut out: Vec<u8> = Vec::new();
    let mut i: usize = 0;
    while i < s.len()
        invariant
            i <= s@.len(),
            i % 2 == 0,
            s@.len() % 2 == 0,
            forall|j: int| 0 <= j < i ==> is_hex_digit(#[trigger] s@[j]),
            out@ == hex_decode_seq(s@.subrange(0, i as int)),
        decreases s@.len() - i,
    {
        let hi = s[i];
        let lo = s[i + 1];
        if !hex_digit(hi) || !hex_digit(lo) {
            return None;
        }
        let b: u8 = hex_digit_value(hi) * 16 + hex_digit_value(lo);
        out.push(b);
        proof {
            let pre = s@.subrange(0, i as int);
            let ext = s@.subrange(0, i + 2 as int);
            assert(ext =~= pre + seq![s@[i as int], s@[i + 1 as int]]);
            lemma_hex_decode_append(pre, seq![s@[i as int], s@[i + 1 as int]]);
            let two = seq![s@[i as int], s@[i + 1 as int]];
            assert(two.skip(2) =~= Seq::<char>::empty());
            assert(hex_decode_seq(two.skip(2)) =~= Seq::<u8>::empty());
            assert(hex_decode_seq(two) =~= seq![byte_of_hex_pair(s@[i as int], s@[i + 1 as int])]);
        }
        i += 2;
    }
    assert(s@.subrange(0, s@.len() as int) =~= s@);
    Some(out)
}

/// Encode bytes as a lower-case hex string of twice their number.
pub fn hex_encode(b: &Vec<u8>) -> (r: Vec<char>)
    ensures
        r@ == hex_encode_seq(b@),
        r@.len() == 2 * b@.len(),
        valid_hex_seq(r@),
        is_lower_hex_seq(r@),
{
    let mut out: Vec<char> = Vec::new();
    let mut i: usize = 0;
    while i < b.len()
        invariant
            i <= b@.len(),
            out@ == hex_encode_seq(b@.subrange(0, i as int)),
        decreases b@.len() - i,
    {
        let v = b[i];
        let hi: u8 = v / 16;
        let lo: u8 = v % 16;
        let hc: char = (if hi < 10 { hi + 48 } else { hi + 87 }) as char;
        let lc: char = (if lo < 10 { lo + 48 } else { lo + 87 }) as char;
        out.push(hc);
        out.push(lc);
        proof {
            let pre = b@.subrange(0, i as int);
            let ext = b@.subrange(0, i + 1 as int);
            assert(ext =~= pre + seq![b@[i as int]]);
            lemma_hex_encode_append(pre, seq![b@[i as int]]);
            let one = seq![b@[i as int]];
            assert(one.skip(1) =~= Seq::<u8>::empty());
            assert(hex_encode_seq(one.skip(1)) =~= Seq::<char>::empty());
            assert(hex_encode_seq(one) =~= seq![
                hex_char_of(b@[i as int] as nat / 16),
                hex_char_of(b@[i as int] as nat % 16),
            ]);
            assert(hc == hex_char_of(b@[i as int] as nat / 16));
            assert(lc == hex_char_of(b@[i as int] as nat % 16));
        }
        i += 1;
    }
    proof {
        assert(b@.subrange(0, b@.len() as int) =~= b@);
        lemma_hex_roundtrip(b@);
    }
    out
}

} // verus!
