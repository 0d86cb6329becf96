use vstd::prelude::*;
use vstd::pervasive::VecAdditionalExecFns;
use crate::chars::{char_from_u32, subvec, chars_to_string, str_to_chars};
use crate::outside::os_random_bytes;

verus! {

// ---------------------------------------------------------------------------
// Alphabets.
//
// Two disjoint source alphabets are substituted: the ten decimal digits and a
// fixed block of 240 CJK unified ideographs. Each is paired with an
// equal-size target alphabet, disjoint from both sources and from the other
// target: the digits map into `a`..`j`, the ideographs into `k`..`z`,
// `A`..`Z`, the ASCII symbols `!`..`/`, and a block of private-use-area code
// points.
// ---------------------------------------------------------------------------
/// A decimal digit, the first source alphabet.
pub open spec fn is_digit_source(c: char) -> bool {
    48 <= c as u32 <= 57
}

/// A character of the fixed CJK source block.
pub open spec fn is_cjk_source(c: char) -> bool {
    0x4E00 <= c as u32 && (c as u32) < 0x4E00 + 240
}

/// A character of the digit target alphabet, `a`..`j`.
pub open spec fn is_digit_target(c: char) -> bool {
    97 <= c as u32 <= 106
}

/// The code point standing at a position of the CJK target alphabet.
pub open spec fn cjk_target_code(i: int) -> u32
    recommends
        0 <= i < 240,
{
    if i < 16 {
        (107 + i) as u32  // 'k'..'z'
    } else if i < 42 {
        (65 + (i - 16)) as u32  // 'A'..'Z'
    } else if i < 57 {
        (33 + (i - 42)) as u32  // '!'..'/'
    } else {
        (0xE000 + (i - 57)) as u32  // private use area
    }
}

/// A character of the CJK target alphabet.
pub open spec fn is_cjk_target(c: char) -> bool {
    let u = c as u32;
    (107 <= u <= 122) || (65 <= u <= 90) || (33 <= u <= 47) || (0xE000 <= u && u < 0xE000 + 183)
}

/// The position of a CJK target character within its alphabet.
pub open spec fn cjk_target_index(c: char) -> int
    recommends
        is_cjk_target(c),
{
    let u = c as u32;
    if 107 <= u <= 122 {
        u - 107
    } else if 65 <= u <= 90 {
        16 + (u - 65)
    } else if 33 <= u <= 47 {
        42 + (u - 33)
    } else {
        57 + (u - 0xE000)
    }
}

/// Positions and characters of the CJK target alphabet correspond one to one.
pub proof fn lemma_cjk_target_code_index(i: int)
    requires
        0 <= i < 240,
    ensures
        is_cjk_target((cjk_target_code(i) as char)),
        cjk_target_index((cjk_target_code(i) as char)) == i,
{
}

/// A sequence that repeats none of its entries.
pub open spec fn distinct_seq(v: Seq<char>) -> bool {
    forall|p: int, q: int| 0 <= p < q < v.len() ==> v[p] != v[q]
}

// ---------------------------------------------------------------------------
// The map.
// ---------------------------------------------------------------------------
/// A bijective substitution table: position `i` of each vector is the target
/// character that source position `i` maps to.
pub struct SubstitutionMap {
    pub digit_map: Vec<char>,
    pub cjk_map: Vec<char>,
}

impl SubstitutionMap {
    /// Well-formedness: each table has the cardinality of its alphabet, draws
    /// its entries from its own target alphabet, and repeats none of them.
    /// Together with the disjointness of the target alphabets this makes the
    /// substitution a bijection.
    pub open spec fn wf(&self) -> bool {
        &&& self.digit_map@.len() == 10
        &&& self.cjk_map@.len() == 240
        &&& (forall|i: int| 0 <= i < 10 ==> is_digit_target(#[trigger] self.digit_map@[i]))
        &&& (forall|i: int| 0 <= i < 240 ==> is_cjk_target(#[trigger] self.cjk_map@[i]))
        &&& distinct_seq(self.digit_map@)
        &&& distinct_seq(self.cjk_map@)
    }

    /// An exact copy of the table.
    pub fn duplicate(&self) -> (r: Self)
        ensures
            r.digit_map@ == self.digit_map@,
            r.cjk_map@ == self.cjk_map@,
    {
        let d = subvec(&self.digit_map, 0, self.digit_map.len());
        let c = subvec(&self.cjk_map, 0, self.cjk_map.len());
        proof {
            assert(self.digit_map@.subrange(0, self.digit_map@.len() as int) =~= self.digit_map@);
            assert(self.cjk_map@.subrange(0, self.cjk_map@.len() as int) =~= self.cjk_map@);
        }
        SubstitutionMap { digit_map: d, cjk_map: c }
    }
}

/// Two maps with the same tables.
pub open spec fn map_eq(a: SubstitutionMap, b: SubstitutionMap) -> bool {
    a.digit_map@ == b.digit_map@ && a.cjk_map@ == b.cjk_map@
}

// ---------------------------------------------------------------------------
// Substitution itself.
// ---------------------------------------------------------------------------
/// What one character encodes to: a source character of an enabled alphabet
/// is replaced by the target character at its position; everything else
/// passes through. The decision is made on the original character alone, so
/// no output is ever substituted twice.
pub open spec fn encode_char(m: SubstitutionMap, c: char, digits: bool, cjk: bool) -> char {
    if digits && is_digit_source(c) {
        m.digit_map@[c as u32 - 48]
    } else if cjk && is_cjk_source(c) {
        m.cjk_map@[c as u32 - 0x4E00]
    } else {
        c
    }
}

/// What one character decodes to: a character found in a table goes back to
/// the source character of that position; everything else passes through.
pub open spec fn decode_char(m: SubstitutionMap, c: char) -> char {
    if m.cjk_map@.contains(c) {
        let j = choose|j: int| 0 <= j < m.cjk_map@.len() && m.cjk_map@[j] == c;
        ((0x4E00 + j) as u32) as char
    } else if m.digit_map@.contains(c) {
        let j = choose|j: int| 0 <= j < m.digit_map@.len() && m.digit_map@[j] == c;
        ((48 + j) as u32) as char
    } else {
        c
    }
}

/// Character-wise encoding of a text.
pub open spec fn encode_spec(m: SubstitutionMap, text: Seq<char>, digits: bool, cjk: bool) -> Seq<
    char,
> {
    Seq::new(text.len(), |i: int| encode_char(m, text[i], digits, cjk))
}

/// Character-wise decoding of a text.
pub open spec fn decode_spec(m: SubstitutionMap, text: Seq<char>) -> Seq<char> {
    Seq::new(text.len(), |i: int| decode_char(m, text[i]))
}

/// Encoding then decoding a source character through a well-formed map gives
/// the character back.
pub proof fn lemma_char_round_trip(m: SubstitutionMap, c: char)
    requires
        m.wf(),
        is_digit_source(c) || is_cjk_source(c),
    ensures
        decode_char(m, encode_char(m, c, true, true)) == c,
{
    if is_digit_source(c) {
        let i = c as u32 - 48;
        let e = m.digit_map@[i as int];
        assert(m.digit_map@.contains(e));
        assert(!m.cjk_map@.contains(e)) by {
            if m.cjk_map@.contains(e) {
                let k = choose|k: int| 0 <= k < m.cjk_map@.len() && m.cjk_map@[k] == e;
                assert(is_cjk_target(m.cjk_map@[k]));
            }
        }
        let j = choose|j: int| 0 <= j < m.digit_map@.len() && m.digit_map@[j] == e;
        assert(j == i as int) by {
            if j < i as int {
                assert(m.digit_map@[j] != m.digit_map@[i as int]);
            } else if j > i as int {
                assert(m.digit_map@[i as int] != m.digit_map@[j]);
            }
        }
        assert((48 + j) as u32 == c as u32);
    } else {
        let i = c as u32 - 0x4E00;
        let e = m.cjk_map@[i as int];
        assert(m.cjk_map@.contains(e));
        let j = choose|j: int| 0 <= j < m.cjk_map@.len() && m.cjk_map@[j] == e;
        assert(j == i as int) by {
            if j < i as int {
                assert(m.cjk_map@[j] != m.cjk_map@[i as int]);
            } else if j > i as int {
                assert(m.cjk_map@[i as int] != m.cjk_map@[j]);
            }
        }
        assert((0x4E00 + j) as u32 == c as u32);
    }
}

/// The bijection round-trip law: decoding an encoding recovers any text
/// composed only of source-alphabet characters, when one and the same map
/// serves both directions.
pub proof fn lemma_round_trip(m: SubstitutionMap, text: Seq<char>)
    requires
        m.wf(),
        forall|i: int|
            0 <= i < text.len() ==> is_digit_source(#[trigger] text[i]) || is_cjk_source(text[i]),
    ensures
        decode_spec(m, encode_spec(m, text, true, true)) == text,
{
    let enc = encode_spec(m, text, true, true);
    let dec = decode_spec(m, enc);
    assert forall|i: int| 0 <= i < text.len() implies dec[i] == text[i] by {
        lemma_char_round_trip(m, text[i]);
    }
    assert(dec =~= text);
}

/// A character appears as a substitution value of a well-formed map exactly
/// when some enabled source character encodes to it.
pub proof fn lemma_encoded_symbols(m: SubstitutionMap, c: char)
    requires
        m.wf(),
    ensures
        (m.digit_map@.contains(c) || m.cjk_map@.contains(c)) <==> exists|src: char|
            (is_digit_source(src) || is_cjk_source(src)) && #[trigger] encode_char(
                m,
                src,
                true,
                true,
            ) == c,
{
    if m.digit_map@.contains(c) {
        let j = choose|j: int| 0 <= j < m.digit_map@.len() && m.digit_map@[j] == c;
        let src = ((48 + j) as u32) as char;
        assert(is_digit_source(src));
        assert(encode_char(m, src, true, true) == c);
    } else if m.cjk_map@.contains(c) {
        let j = choose|j: int| 0 <= j < m.cjk_map@.len() && m.cjk_map@[j] == c;
        let src = ((0x4E00 + j) as u32) as char;
        assert(is_cjk_source(src));
        assert(encode_char(m, src, true, true) == c);
    }
    if exists|src: char|
        (is_digit_source(src) || is_cjk_source(src)) && #[trigger] encode_char(m, src, true, true)
            == c {
        let src = choose|src: char|
            (is_digit_source(src) || is_cjk_source(src)) && #[trigger] encode_char(
                m,
                src,
                true,
                true,
            ) == c;
        if is_digit_source(src) {
            assert(m.digit_map@[src as u32 - 48] == c);
        } else {
            assert(m.cjk_map@[src as u32 - 0x4E00] == c);
        }
    }
}

/// Encode one character.
fn encode_char_exec(m: &SubstitutionMap, c: char, digits: bool, cjk: bool) -> (r: char)
    requires
        m.wf(),
    ensures
        r == encode_char(*m, c, digits, cjk),
{
    let u = c as u32;
    if digits && 48 <= u && u <= 57 {
        m.digit_map[(u - 48) as usize]
    } else if cjk && 0x4E00 <= u && u < 0x4E00 + 240 {
        m.cjk_map[(u - 0x4E00) as usize]
    } else {
        c
    }
}

/// Find a character in a table.
fn scan_table(table: &Vec<char>, c: char) -> (r: Option<usize>)
    ensures
        match r {
            Some(j) => j < table@.len() && table@[j as int] == c,
            None => !table@.contains(c),
        },
{
    let mut i: usize = 0;
    while i < table.len()
        invariant
            i <= table@.len(),
            forall|k: int| 0 <= k < i ==> table@[k] != c,
        decreases table@.len() - i,
    {
        if table[i] == c {
            return Some(i);
        }
        i += 1;
    }
    None
}

/// Decode one character.
fn decode_char_exec(m: &SubstitutionMap, c: char) -> (r: char)
    requires
        m.wf(),
    ensures
        r == decode_char(*m, c),
{
    match scan_table(&m.cjk_map, c) {
        Some(j) => {
            proof {
                let jj = choose|jj: int| 0 <= jj < m.cjk_map@.len() && m.cjk_map@[jj] == c;
                assert(jj == j as int) by {
                    if jj < j as int {
                        assert(m.cjk_map@[jj] != m.cjk_map@[j as int]);
                    } else if jj > j as int {
                        assert(m.cjk_map@[j as int] != m.cjk_map@[jj]);
                    }
                }
            }
            match char_from_u32(0x4E00 + j as u32) {
                Some(s) => s,
                None => vstd::pervasive::unreached(),
            }
        },
        None => {
            match scan_table(&m.digit_map, c) {
                Some(j) => {
                    proof {
                        let jj = choose|jj: int|
                            0 <= jj < m.digit_map@.len() && m.digit_map@[jj] == c;
                        assert(jj == j as int) by {
                            if jj < j as int {
                                assert(m.digit_map@[jj] != m.digit_map@[j as int]);
                            } else if jj > j as int {
                                assert(m.digit_map@[j as int] != m.digit_map@[jj]);
                            }
                        }
                    }
                    match char_from_u32(48 + j as u32) {
                        Some(s) => s,
                        None => vstd::pervasive::unreached(),
                    }
                },
                None => c,
            }
        },
    }
}

/// Replace every character of an enabled source alphabet by its target
/// character, in a single pass over the original characters.
pub fn encode(text: &str, m: &SubstitutionMap, digits: bool, cjk: bool) -> (r: String)
    requires
        m.wf(),
    ensures
        r@ == encode_spec(*m, text@, digits, cjk),
{
    let tc = str_to_chars(text);
    let mut out: Vec<char> = Vec::new();
    let mut i: usize = 0;
    while i < tc.len()
        invariant
            m.wf(),
            tc@ == text@,
            i <= tc@.len(),
            out@ == encode_spec(*m, text@.subrange(0, i as int), digits, cjk),
        decreases tc@.len() - i,
    {
        let e = encode_char_exec(m, tc[i], digits, cjk);
        out.push(e);
        proof {
            assert(encode_spec(*m, text@.subrange(0, i + 1 as int), digits, cjk) =~= encode_spec(
                *m,
                text@.subrange(0, i as int),
                digits,
                cjk,
            ).push(encode_char(*m, text@[i as int], digits, cjk)));
        }
        i += 1;
    }
    proof {
        assert(text@.subrange(0, text@.len() as int) =~= text@);
        assert(encode_spec(*m, text@, digits, cjk) =~= out@);
    }
    chars_to_string(&out)
}

/// Apply the exact inverse substitution.
pub fn decode(text: &str, m: &SubstitutionMap) -> (r: String)
    requires
        m.wf(),
    ensures
        r@ == decode_spec(*m, text@),
{
    let tc = str_to_chars(text);
    let mut out: Vec<char> = Vec::new();
    let mut i: usize = 0;
    while i < tc.len()
        invariant
            m.wf(),
            tc@ == text@,
            i <= tc@.len(),
            out@ == decode_spec(*m, text@.subrange(0, i as int)),
        decreases tc@.len() - i,
    {
        let d = decode_char_exec(m, tc[i]);
        out.push(d);
        proof {
            assert(decode_spec(*m, text@.subrange(0, i + 1 as int)) =~= decode_spec(
                *m,
                text@.subrange(0, i as int),
            ).push(decode_char(*m, text@[i as int])));
        }
        i += 1;
    }
    proof {
        assert(text@.subrange(0, text@.len() as int) =~= text@);
        assert(decode_spec(*m, text@) =~= out@);
    }
    chars_to_string(&out)
}

/// Whether a one-character symbol appears as a value of either reverse map,
/// that is, as a substitution value the map can produce.
pub fn is_encoded_symbol(symbol: &str, m: &SubstitutionMap) -> (r: bool)
    ensures
        r == (symbol@.len() == 1 && (m.digit_map@.contains(symbol@[0]) || m.cjk_map@.contains(
            symbol@[0],
        ))),
{
    let sc = str_to_chars(symbol);
    if sc.len() != 1 {
        return false;
    }
    let c = sc[0];
    let in_digit = match scan_table(&m.digit_map, c) {
        Some(_) => true,
        None => false,
    };
    let in_cjk = match scan_table(&m.cjk_map, c) {
        Some(_) => true,
        None => false,
    };
    in_digit || in_cjk
}

// ---------------------------------------------------------------------------
// Building the map: a linear-congruential generator drives a Fisher-Yates
// shuffle of each target alphabet.
// ---------------------------------------------------------------------------
/// One step of the linear-congruential generator (the MMIX multiplier and
/// increment). Not a secure generator; it only serves shuffle variety.
pub open spec fn lcg_next(s: u64) -> u64 {
    (s * 6364136223846793005 + 1442695040888963407) as u64
}

/// One generator step, executably.
pub fn lcg_step(s: u64) -> (r: u64)
    ensures
        r == lcg_next(s),
{
    let wide: u128 = (s as u128) * 6364136223846793005u128 + 1442695040888963407u128;
    wide as u64
}

/// A sequence with the entries at two positions exchanged.
pub open spec fn swap_seq(v: Seq<char>, i: int, j: int) -> Seq<char>
    recommends
        0 <= i < v.len(),
        0 <= j < v.len(),
{
    v.update(i, v[j]).update(j, v[i])
}

/// The Fisher-Yates shuffle from position `i` downward, together with the
/// generator state it leaves behind.
pub open spec fn fy(v: Seq<char>, s: u64, i: nat) -> (Seq<char>, u64)
    recommends
        i < v.len(),
    decreases i,
{
    if i == 0 {
        (v, s)
    } else {
        let s2 = lcg_next(s);
        let j = (s2 as nat) % (i + 1);
        fy(swap_seq(v, i as int, j as int), s2, (i - 1) as nat)
    }
}

/// The shuffle of a whole table.
pub open spec fn shuffled(base: Seq<char>, seed: u64) -> (Seq<char>, u64)
    recommends
        base.len() > 0,
{
    fy(base, seed, (base.len() - 1) as nat)
}

/// Exchanging two entries keeps a sequence's length, its distinctness, and
/// draws every entry from the original ones.
proof fn lemma_swap_props(v: Seq<char>, i: int, j: int)
    requires
        0 <= i < v.len(),
        0 <= j < v.len(),
        distinct_seq(v),
    ensures
        swap_seq(v, i, j).len() == v.len(),
        distinct_seq(swap_seq(v, i, j)),
        forall|x: int| 0 <= x < v.len() ==> v.contains(#[trigger] swap_seq(v, i, j)[x]),
{
    let w = swap_seq(v, i, j);
    assert forall|p: int, q: int| 0 <= p < q < w.len() implies w[p] != w[q] by {
        let sp: int = if p == i {
            j
        } else if p == j {
            i
        } else {
            p
        };
        let sq: int = if q == i {
            j
        } else if q == j {
            i
        } else {
            q
        };
        assert(w[p] == v[sp]);
        assert(w[q] == v[sq]);
        assert(sp != sq);
    }
    assert forall|x: int| 0 <= x < v.len() implies v.contains(#[trigger] w[x]) by {
        if x == i {
            assert(w[x] == v[j]);
        } else if x == j {
            assert(w[x] == v[i]);
        } else {
            assert(w[x] == v[x]);
        }
    }
}

/// The shuffle keeps the length, the distinctness and the stock of entries
/// of the table it permutes.
pub proof fn lemma_fy_props(v: Seq<char>, s: u64, i: nat)
    requires
        i < v.len(),
        distinct_seq(v),
    ensures
        fy(v, s, i).0.len() == v.len(),
        distinct_seq(fy(v, s, i).0),
        forall|x: int| 0 <= x < v.len() ==> v.contains(#[trigger] fy(v, s, i).0[x]),
    decreases i,
{
    let w = fy(v, s, i).0;
    if i == 0 {
        assert forall|x: int| 0 <= x < v.len() implies v.contains(#[trigger] w[x]) by {
            assert(v[x] == w[x]);
        }
    } else {
        let s2 = lcg_next(s);
        let j = (s2 as nat) % (i + 1);
        let sw = swap_seq(v, i as int, j as int);
        lemma_swap_props(v, i as int, j as int);
        lemma_fy_props(sw, s2, (i - 1) as nat);
        assert forall|x: int| 0 <= x < v.len() implies v.contains(#[trigger] w[x]) by {
            assert(sw.contains(w[x]));
            let y = choose|y: int| 0 <= y < sw.len() && sw[y] == w[x];
            assert(v.contains(sw[y]));
        }
    }
}

/// Shuffle a table in place, advancing the generator state.
fn shuffle(v: &mut Vec<char>, state: &mut u64)
    requires
        old(v)@.len() > 0,
    ensures
        (final(v)@, *final(state)) == shuffled(old(v)@, *old(state)),
{
    let ghost orig = v@;
    let ghost s0 = *state;
    let mut i: usize = v.len() - 1;
    while i > 0
        invariant
            v@.len() == orig.len(),
            i < v@.len(),
            fy(orig, s0, (orig.len() - 1) as nat) == fy(v@, *state, i as nat),
        decreases i,
    {
        let s2 = lcg_step(*state);
        *state = s2;
        let n = v.len();
        assert(i < n);
        let j: usize = (s2 % (i as u64 + 1)) as usize;
        let ghost pre = v@;
        let vi = v[i];
        let vj = v[j];
        v.set(i, vj);
        v.set(j, vi);
        proof {
            assert(v@ == swap_seq(pre, i as int, j as int));
            assert(j as nat == (s2 as nat) % (i as nat + 1));
        }
        i -= 1;
    }
}

/// The digit target alphabet in its unshuffled order, `a`..`j`.
pub open spec fn digit_base_seq() -> Seq<char> {
    Seq::new(10, |i: int| ((97 + i) as u32) as char)
}

/// The CJK target alphabet in its unshuffled order.
pub open spec fn cjk_base_seq() -> Seq<char> {
    Seq::new(240, |i: int| cjk_target_code(i) as char)
}

/// Build the digit target table in base order.
fn build_digit_base() -> (r: Vec<char>)
    ensures
        r@ == digit_base_seq(),
{
    let mut r: Vec<char> = Vec::new();
    let mut i: usize = 0;
    while i < 10
        invariant
            i <= 10,
            r@.len() == i,
            forall|k: int| 0 <= k < i ==> r@[k] == digit_base_seq()[k],
        decreases 10 - i,
    {
        let c = match char_from_u32(97 + i as u32) {
            Some(c) => c,
            None => vstd::pervasive::unreached(),
        };
        r.push(c);
        i += 1;
    }
    assert(r@ =~= digit_base_seq());
    r
}

/// The code point at a CJK target position, executably.
fn cjk_target_code_exec(i: usize) -> (r: u32)
    requires
        i < 240,
    ensures
        r == cjk_target_code(i as int),
{
    if i < 16 {
        107 + i as u32
    } else if i < 42 {
        65 + (i as u32 - 16)
    } else if i < 57 {
        33 + (i as u32 - 42)
    } else {
        0xE000 + (i as u32 - 57)
    }
}

/// Build the CJK target table in base order.
fn build_cjk_base() -> (r: Vec<char>)
    ensures
        r@ == cjk_base_seq(),
{
    let mut r: Vec<char> = Vec::new();
    let mut i: usize = 0;
    while i < 240
        invariant
            i <= 240,
            r@.len() == i,
            forall|k: int| 0 <= k < i ==> r@[k] == cjk_base_seq()[k],
        decreases 240 - i,
    {
        let code = cjk_target_code_exec(i);
        let c = match char_from_u32(code) {
            Some(c) => c,
            None => vstd::pervasive::unreached(),
        };
        r.push(c);
        i += 1;
    }
    assert(r@ =~= cjk_base_seq());
    r
}

/// The base tables are distinct and drawn from their target alphabets.
proof fn lemma_base_props()
    ensures
        distinct_seq(digit_base_seq()),
        distinct_seq(cjk_base_seq()),
        forall|i: int| 0 <= i < 10 ==> is_digit_target(#[trigger] digit_base_seq()[i]),
        forall|i: int| 0 <= i < 240 ==> is_cjk_target(#[trigger] cjk_base_seq()[i]),
{
    assert forall|i: int| 0 <= i < 240 implies is_cjk_target(#[trigger] cjk_base_seq()[i]) by {
        lemma_cjk_target_code_index(i);
    }
    assert forall|p: int, q: int| 0 <= p < q < 240 implies cjk_base_seq()[p] != cjk_base_seq()[q] by {
        lemma_cjk_target_code_index(p);
        lemma_cjk_target_code_index(q);
    }
}

/// Build a substitution map from an explicit seed. The same seed always
/// yields the same map: both tables are pinned to the shuffle of their base
/// alphabets under one generator run.
pub fn build_map_seeded(seed: u64) -> (m: SubstitutionMap)
    ensures
        m.wf(),
        m.digit_map@ == shuffled(digit_base_seq(), seed).0,
        m.cjk_map@ == shuffled(cjk_base_seq(), shuffled(digit_base_seq(), seed).1).0,
{
    let mut digit_map = build_digit_base();
    let mut cjk_map = build_cjk_base();
    let mut state: u64 = seed;
    shuffle(&mut digit_map, &mut state);
    shuffle(&mut cjk_map, &mut state);
    proof {
        lemma_base_props();
        lemma_fy_props(digit_base_seq(), seed, 9);
        lemma_fy_props(cjk_base_seq(), shuffled(digit_base_seq(), seed).1, 239);
        assert forall|i: int| 0 <= i < 10 implies is_digit_target(#[trigger] digit_map@[i]) by {
            assert(digit_base_seq().contains(digit_map@[i]));
            let y = choose|y: int|
                0 <= y < digit_base_seq().len() && digit_base_seq()[y] == digit_map@[i];
            assert(is_digit_target(digit_base_seq()[y]));
        }
        assert forall|i: int| 0 <= i < 240 implies is_cjk_target(#[trigger] cjk_map@[i]) by {
            assert(cjk_base_seq().contains(cjk_map@[i]));
            let y = choose|y: int| 0 <= y < cjk_base_seq().len() && cjk_base_seq()[y] == cjk_map@[i];
            assert(is_cjk_target(cjk_base_seq()[y]));
        }
    }
    SubstitutionMap { digit_map, cjk_map }
}

/// Build a substitution map from the secure random source, for obfuscation
/// variety; when no entropy can be had, a fixed fallback seed keeps the
/// construction total. Only well-formedness is promised of the outcome.
pub fn build_map_volatile() -> (m: SubstitutionMap)
    ensures
        m.wf(),
{
    let seed: u64 = match os_random_bytes(8) {
        Some(b) => {
            let mut acc: u64 = 0;
            let mut i: usize = 0;
            while i < 8
                invariant
                    i <= 8,
                    b@.len() == 8,
                decreases 8 - i,
            {
                acc = (acc << 8) | (b[i] as u64);
                i += 1;
            }
            acc
        },
        None => 0x9E3779B97F4A7C15,
    };
    build_map_seeded(seed)
}

/// Build a substitution map: from the given seed deterministically, or from
/// the secure random source when none is given.
pub fn build_map(seed: Option<u64>) -> (m: SubstitutionMap)
    ensures
        m.wf(),
        seed matches Some(s) ==> m.digit_map@ == shuffled(digit_base_seq(), s).0
            && m.cjk_map@ == shuffled(cjk_base_seq(), shuffled(digit_base_seq(), s).1).0,
{
    match seed {
        Some(s) => build_map_seeded(s),
        None => build_map_volatile(),
    }
}

// ---------------------------------------------------------------------------
// The engine: an explicit context object owned by the host, holding the
// process-wide cached map.
// ---------------------------------------------------------------------------
/// The substitution engine. It owns the one cached map that callers must
/// share between encoding and decoding; the host keeps one engine per
/// process (or per cache domain) instead of hidden global state, and where
/// several threads reach it the host serializes access behind its own lock,
/// so at most one build runs and every reader sees a whole map.
pub struct SubstitutionCipherEngine {
    pub map: Option<SubstitutionMap>,
}

impl SubstitutionCipherEngine {
    /// The cached map, when present, is well-formed.
    pub open spec fn inv(&self) -> bool {
        match self.map {
            Some(m) => m.wf(),
            None => true,
        }
    }

    /// An engine with nothing cached yet.
    pub fn new() -> (e: Self)
        ensures
            e.map is None,
            e.inv(),
    {
        SubstitutionCipherEngine { map: None }
    }

    /// The cached accessor: build a map on first use, and afterwards return
    /// the one already cached, unchanged.
    pub fn cached_map(&mut self) -> (r: SubstitutionMap)
        requires
            old(self).inv(),
        ensures
            final(self).inv(),
            final(self).map is Some,
            map_eq(r, final(self).map->0),
            r.wf(),
            old(self).map matches Some(p) ==> map_eq(p, final(self).map->0),
    {
        if self.map.is_none() {
            self.map = Some(build_map_volatile());
        }
        match &self.map {
            Some(m) => m.duplicate(),
            None => vstd::pervasive::unreached(),
        }
    }

    /// The fresh accessor: rebuild unconditionally, replacing any cache.
    pub fn fresh_map(&mut self) -> (r: SubstitutionMap)
        ensures
            final(self).inv(),
            final(self).map is Some,
            map_eq(r, final(self).map->0),
            r.wf(),
    {
        let m = build_map_volatile();
        let d = m.duplicate();
        self.map = Some(m);
        d
    }

    /// Obfuscate a text through the cached map.
    pub fn obfuscate_text(&mut self, text: &str, digits: bool, cjk: bool) -> (r: String)
        requires
            old(self).inv(),
        ensures
            final(self).inv(),
            final(self).map is Some,
            r@ == encode_spec(final(self).map->0, text@, digits, cjk),
            old(self).map matches Some(p) ==> map_eq(p, final(self).map->0),
    {
        let m = self.cached_map();
        let r = encode(text, &m, digits, cjk);
        proof {
            lemma_specs_respect_views(m, self.map->0, text@, digits, cjk);
        }
        r
    }

    /// Reverse the obfuscation through the cached map.
    pub fn deobfuscate_text(&mut self, text: &str) -> (r: String)
        requires
            old(self).inv(),
        ensures
            final(self).inv(),
            final(self).map is Some,
            r@ == decode_spec(final(self).map->0, text@),
            old(self).map matches Some(p) ==> map_eq(p, final(self).map->0),
    {
        let m = self.cached_map();
        let r = decode(text, &m);
        proof {
            lemma_specs_respect_views(m, self.map->0, text@, true, true);
        }
        r
    }
}

/// Encoding and decoding depend on the map's tables alone.
pub proof fn lemma_specs_respect_views(
    a: SubstitutionMap,
    b: SubstitutionMap,
    text: Seq<char>,
    digits: bool,
    cjk: bool,
)
    requires
        map_eq(a, b),
    ensures
        encode_spec(a, text, digits, cjk) == encode_spec(b, text, digits, cjk),
        decode_spec(a, text) == decode_spec(b, text),
{
    assert(encode_spec(a, text, digits, cjk) =~= encode_spec(b, text, digits, cjk));
    assert(decode_spec(a, text) =~= decode_spec(b, text));
}

// ---------------------------------------------------------------------------
// Exported tables.
// ---------------------------------------------------------------------------
/// The four tables of a map, each pair a single-character source string and
/// its single-character substitution value (or the reverse), in a shape a
/// host can serialize.
pub struct SubstitutionTables {
    pub number_map: Vec<(String, String)>,
    pub chinese_map: Vec<(String, String)>,
    pub reverse_number_map: Vec<(String, String)>,
    pub reverse_chinese_map: Vec<(String, String)>,
}

/// Export the forward and reverse tables of a map.
pub fn export_substitution_tables(m: &SubstitutionMap) -> (t: SubstitutionTables)
    requires
        m.wf(),
    ensures
        t.number_map@.len() == 10,
        t.reverse_number_map@.len() == 10,
        t.chinese_map@.len() == 240,
        t.reverse_chinese_map@.len() == 240,
        forall|i: int|
            0 <= i < 10 ==> (#[trigger] t.number_map@[i]).0@ == seq![((48 + i) as u32) as char]
                && t.number_map@[i].1@ == seq![m.digit_map@[i]],
        forall|i: int|
            0 <= i < 10 ==> (#[trigger] t.reverse_number_map@[i]).0@ == seq![m.digit_map@[i]]
                && t.reverse_number_map@[i].1@ == seq![((48 + i) as u32) as char],
        forall|i: int|
            0 <= i < 240 ==> (#[trigger] t.chinese_map@[i]).0@ == seq![((0x4E00 + i) as u32) as char]
                && t.chinese_map@[i].1@ == seq![m.cjk_map@[i]],
        forall|i: int|
            0 <= i < 240 ==> (#[trigger] t.reverse_chinese_map@[i]).0@ == seq![m.cjk_map@[i]]
                && t.reverse_chinese_map@[i].1@ == seq![((0x4E00 + i) as u32) as char],
{
    let mut number_map: Vec<(String, String)> = Vec::new();
    let mut reverse_number_map: Vec<(String, String)> = Vec::new();
    let mut i: usize = 0;
    while i < 10
        invariant
            m.wf(),
            i <= 10,
            number_map@.len() == i,
            reverse_number_map@.len() == i,
            forall|k: int|
                0 <= k < i ==> (#[trigger] number_map@[k]).0@ == seq![((48 + k) as u32) as char]
                    && number_map@[k].1@ == seq![m.digit_map@[k]],
            forall|k: int|
                0 <= k < i ==> (#[trigger] reverse_number_map@[k]).0@ == seq![m.digit_map@[k]]
                    && reverse_number_map@[k].1@ == seq![((48 + k) as u32) as char],
        decreases 10 - i,
    {
        let src = match char_from_u32(48 + i as u32) {
            Some(c) => c,
            None => vstd::pervasive::unreached(),
        };
        let dst = m.digit_map[i];
        let src_s = chars_to_string(&vec![src]);
        let dst_s = chars_to_string(&vec![dst]);
        let src_s2 = chars_to_string(&vec![src]);
        let dst_s2 = chars_to_string(&vec![dst]);
        number_map.push((src_s, dst_s));
        reverse_number_map.push((dst_s2, src_s2));
        i += 1;
    }
    let mut chinese_map: Vec<(String, String)> = Vec::new();
    let mut reverse_chinese_map: Vec<(String, String)> = Vec::new();
    let mut i: usize = 0;
    while i < 240
        invariant
            m.wf(),
            i <= 240,
            chinese_map@.len() == i,
            reverse_chinese_map@.len() == i,
            forall|k: int|
                0 <= k < i ==> (#[trigger] chinese_map@[k]).0@ == seq![((0x4E00 + k) as u32) as char]
                    && chinese_map@[k].1@ == seq![m.cjk_map@[k]],
            forall|k: int|
                0 <= k < i ==> (#[trigger] reverse_chinese_map@[k]).0@ == seq![m.cjk_map@[k]]
                    && reverse_chinese_map@[k].1@ == seq![((0x4E00 + k) as u32) as char],
        decreases 240 - i,
    {
        let src = match char_from_u32(0x4E00 + i as u32) {
            Some(c) => c,
            None => vstd::pervasive::unreached(),
        };
        let dst = m.cjk_map[i];
        let src_s = chars_to_string(&vec![src]);
        let dst_s = chars_to_string(&vec![dst]);
        let src_s2 = chars_to_string(&vec![src]);
        let dst_s2 = chars_to_string(&vec![dst]);
        chinese_map.push((src_s, dst_s));
        reverse_chinese_map.push((dst_s2, src_s2));
        i += 1;
    }
    SubstitutionTables { number_map, chinese_map, reverse_number_map, reverse_chinese_map }
}

} // verus!
