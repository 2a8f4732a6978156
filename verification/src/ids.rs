//! The identifier type used for content addressing: recording, release and
//! release-track identifiers are 128-bit values, written in the usual
//! hyphenated hexadecimal form.

use vstd::prelude::*;

verus! {

/// A 128-bit identifier, the content address of a recording, release or
/// release-track.
#[derive(Clone, Copy, PartialEq, Eq, Structural, Hash, Debug)]
pub struct Uuid {
    pub value: u128,
}

/// The lowercase hexadecimal digit for a value below 16.
pub open spec fn spec_hex_digit(n: int) -> char {
    if n == 0 { '0' }
    else if n == 1 { '1' }
    else if n == 2 { '2' }
    else if n == 3 { '3' }
    else if n == 4 { '4' }
    else if n == 5 { '5' }
    else if n == 6 { '6' }
    else if n == 7 { '7' }
    else if n == 8 { '8' }
    else if n == 9 { '9' }
    else if n == 10 { 'a' }
    else if n == 11 { 'b' }
    else if n == 12 { 'c' }
    else if n == 13 { 'd' }
    else if n == 14 { 'e' }
    else { 'f' }
}

/// The value of a hexadecimal digit character, or 16 for any other character.
pub open spec fn spec_hex_value(c: char) -> int {
    if c == '0' { 0 }
    else if c == '1' { 1 }
    else if c == '2' { 2 }
    else if c == '3' { 3 }
    else if c == '4' { 4 }
    else if c == '5' { 5 }
    else if c == '6' { 6 }
    else if c == '7' { 7 }
    else if c == '8' { 8 }
    else if c == '9' { 9 }
    else if c == 'a' || c == 'A' { 10 }
    else if c == 'b' || c == 'B' { 11 }
    else if c == 'c' || c == 'C' { 12 }
    else if c == 'd' || c == 'D' { 13 }
    else if c == 'e' || c == 'E' { 14 }
    else if c == 'f' || c == 'F' { 15 }
    else { 16 }
}

pub open spec fn is_hex_char(c: char) -> bool {
    spec_hex_value(c) < 16
}

/// Digit and value are inverse on values below 16.
pub proof fn lemma_hex_digit_value(n: int)
    requires
        0 <= n < 16,
    ensures
        spec_hex_value(spec_hex_digit(n)) == n,
        is_hex_char(spec_hex_digit(n)),
{
}

/// The hexadecimal digit for a value below 16.
pub fn hex_digit(n: u8) -> (c: char)
    requires
        n < 16,
    ensures
        c == spec_hex_digit(n as int),
{
    if n == 0 { '0' }
    else if n == 1 { '1' }
    else if n == 2 { '2' }
    else if n == 3 { '3' }
    else if n == 4 { '4' }
    else if n == 5 { '5' }
    else if n == 6 { '6' }
    else if n == 7 { '7' }
    else if n == 8 { '8' }
    else if n == 9 { '9' }
    else if n == 10 { 'a' }
    else if n == 11 { 'b' }
    else if n == 12 { 'c' }
    else if n == 13 { 'd' }
    else if n == 14 { 'e' }
    else { 'f' }
}

/// The value of a hexadecimal digit character, or 16 for any other character.
pub fn hex_value(c: char) -> (n: u8)
    ensures
        n == spec_hex_value(c),
{
    if c == '0' { 0 }
    else if c == '1' { 1 }
    else if c == '2' { 2 }
    else if c == '3' { 3 }
    else if c == '4' { 4 }
    else if c == '5' { 5 }
    else if c == '6' { 6 }
    else if c == '7' { 7 }
    else if c == '8' { 8 }
    else if c == '9' { 9 }
    else if c == 'a' || c == 'A' { 10 }
    else if c == 'b' || c == 'B' { 11 }
    else if c == 'c' || c == 'C' { 12 }
    else if c == 'd' || c == 'D' { 13 }
    else if c == 'e' || c == 'E' { 14 }
    else if c == 'f' || c == 'F' { 15 }
    else { 16 }
}

/// Sixteen to the power `k`.
pub open spec fn pow16(k: nat) -> nat
    decreases k,
{
    if k == 0 {
        1
    } else {
        16 * pow16((k - 1) as nat)
    }
}

pub proof fn lemma_pow16_pos(k: nat)
    ensures
        pow16(k) >= 1,
    decreases k,
{
    if k > 0 {
        lemma_pow16_pos((k - 1) as nat);
    }
}

pub proof fn lemma_pow16_mono(a: nat, b: nat)
    requires
        a <= b,
    ensures
        pow16(a) <= pow16(b),
    decreases b,
{
    if a < b {
        lemma_pow16_mono(a, (b - 1) as nat);
        lemma_pow16_pos((b - 1) as nat);
    }
}

/// The concrete values of the powers of sixteen that the hyphenated layout
/// uses.
pub proof fn lemma_pow16_table()
    ensures
        pow16(0) == 1,
        pow16(4) == 0x10000,
        pow16(8) == 0x100000000,
        pow16(12) == 0x1000000000000,
        pow16(16) == 0x10000000000000000,
        pow16(20) == 0x100000000000000000000,
        pow16(24) == 0x1000000000000000000000000,
        pow16(28) == 0x10000000000000000000000000000,
        pow16(32) == 0x100000000000000000000000000000000,
{
    assert(pow16(0) == 1);
    assert(pow16(1) == 0x10);
    assert(pow16(2) == 0x100);
    assert(pow16(3) == 0x1000);
    assert(pow16(4) == 0x10000);
    assert(pow16(5) == 0x100000);
    assert(pow16(6) == 0x1000000);
    assert(pow16(7) == 0x10000000);
    assert(pow16(8) == 0x100000000);
    assert(pow16(9) == 0x1000000000);
    assert(pow16(10) == 0x10000000000);
    assert(pow16(11) == 0x100000000000);
    assert(pow16(12) == 0x1000000000000);
    assert(pow16(13) == 0x10000000000000);
    assert(pow16(14) == 0x100000000000000);
    assert(pow16(15) == 0x1000000000000000);
    assert(pow16(16) == 0x10000000000000000);
    assert(pow16(17) == 0x100000000000000000);
    assert(pow16(18) == 0x1000000000000000000);
    assert(pow16(19) == 0x10000000000000000000);
    assert(pow16(20) == 0x100000000000000000000);
    assert(pow16(21) == 0x1000000000000000000000);
    assert(pow16(22) == 0x10000000000000000000000);
    assert(pow16(23) == 0x100000000000000000000000);
    assert(pow16(24) == 0x1000000000000000000000000);
    assert(pow16(25) == 0x10000000000000000000000000);
    assert(pow16(26) == 0x100000000000000000000000000);
    assert(pow16(27) == 0x1000000000000000000000000000);
    assert(pow16(28) == 0x10000000000000000000000000000);
    assert(pow16(29) == 0x100000000000000000000000000000);
    assert(pow16(30) == 0x1000000000000000000000000000000);
    assert(pow16(31) == 0x10000000000000000000000000000000);
    assert(pow16(32) == 0x100000000000000000000000000000000);
}

/// The `k` lowest hexadecimal digits of `u`, most significant first.
pub open spec fn spec_hex_seq(u: nat, k: nat) -> Seq<char>
    decreases k,
{
    if k == 0 {
        Seq::empty()
    } else {
        spec_hex_seq(u / 16, (k - 1) as nat).push(spec_hex_digit((u % 16) as int))
    }
}

/// Reads exactly `k` hexadecimal digits from the front of `s`, folding them
/// onto `acc`, and yields the value together with the remaining characters.
pub open spec fn spec_parse_hex(s: Seq<char>, k: nat, acc: nat) -> Option<(nat, Seq<char>)>
    decreases k,
{
    if k == 0 {
        Some((acc, s))
    } else if s.len() > 0 && is_hex_char(s[0]) {
        spec_parse_hex(s.skip(1), (k - 1) as nat, acc * 16 + spec_hex_value(s[0]) as nat)
    } else {
        None
    }
}

pub proof fn lemma_skip_skip<A>(s: Seq<A>, a: int, b: int)
    requires
        0 <= a,
        0 <= b,
        a + b <= s.len(),
    ensures
        s.skip(a).skip(b) == s.skip(a + b),
{
    assert(s.skip(a).skip(b) =~= s.skip(a + b));
}

/// Reading `k1 + k2` digits is reading `k1`, then `k2` more.
pub proof fn lemma_parse_hex_split(s: Seq<char>, k1: nat, k2: nat, acc: nat)
    ensures
        spec_parse_hex(s, k1, acc) is None ==> spec_parse_hex(s, (k1 + k2) as nat, acc) is None,
        spec_parse_hex(s, k1, acc) matches Some((v, r)) ==> spec_parse_hex(
            s,
            (k1 + k2) as nat,
            acc,
        ) == spec_parse_hex(r, k2, v),
    decreases k1,
{
    if k1 == 0 {
    } else if s.len() > 0 && is_hex_char(s[0]) {
        lemma_parse_hex_split(s.skip(1), (k1 - 1) as nat, k2, acc * 16 + spec_hex_value(s[0]) as nat);
    }
}

/// On success the parser consumed exactly `k` characters and the value is
/// bounded by the digit count.
pub proof fn lemma_parse_hex_bound(s: Seq<char>, k: nat, acc: nat)
    ensures
        spec_parse_hex(s, k, acc) matches Some((v, r)) ==> {
            &&& v < (acc + 1) * pow16(k)
            &&& acc * pow16(k) <= v
            &&& k <= s.len()
            &&& r == s.skip(k as int)
        },
    decreases k,
{
    if k == 0 {
        lemma_pow16_pos(k);
        if spec_parse_hex(s, k, acc) is Some {
            assert(s.skip(0) =~= s);
        }
    } else if s.len() > 0 && is_hex_char(s[0]) {
        let d = spec_hex_value(s[0]) as nat;
        let acc2 = acc * 16 + d;
        lemma_parse_hex_bound(s.skip(1), (k - 1) as nat, acc2);
        if let Some((v, r)) = spec_parse_hex(s, k, acc) {
            let p = pow16((k - 1) as nat);
            assert(v < (acc2 + 1) * p);
            assert(acc2 * p <= v);
            assert((acc2 + 1) * p <= (acc * 16 + 16) * p) by (nonlinear_arith)
                requires d <= 15, p >= 0, acc2 == acc * 16 + d,
            ;
            assert((acc * 16 + 16) * p == (acc + 1) * (16 * p)) by (nonlinear_arith);
            assert(acc * (16 * p) <= (acc * 16) * p) by (nonlinear_arith);
            assert((acc * 16) * p <= acc2 * p) by (nonlinear_arith)
                requires d >= 0, p >= 0, acc2 == acc * 16 + d,
            ;
            lemma_skip_skip(s, 1, k - 1);
        }
    }
}

/// Parsing the rendering of `u` as `k` digits recovers `u` and leaves `rest`.
pub proof fn lemma_parse_hex_render(u: nat, k: nat, acc: nat, rest: Seq<char>)
    requires
        u < pow16(k),
    ensures
        spec_parse_hex(spec_hex_seq(u, k) + rest, k, acc) == Some(
            ((acc * pow16(k) + u) as nat, rest),
        ),
    decreases k,
{
    if k == 0 {
        assert(spec_hex_seq(u, k) + rest =~= rest);
        assert(acc * 1 + u == acc);
    } else {
        let u2 = u / 16;
        let d = (u % 16) as int;
        let k1 = (k - 1) as nat;
        let p = pow16(k1);
        lemma_hex_digit_value(d);
        assert(u < 16 * p);
        assert(u2 < p) by (nonlinear_arith)
            requires u < 16 * p, u2 == u / 16, p >= 1,
        ;
        let mid = seq![spec_hex_digit(d)] + rest;
        assert(spec_hex_seq(u, k) + rest =~= spec_hex_seq(u2, k1) + mid);
        lemma_parse_hex_render(u2, k1, acc, mid);
        let v1 = (acc * p + u2) as nat;
        lemma_parse_hex_split(spec_hex_seq(u2, k1) + mid, k1, 1, acc);
        // One more digit: the parser sees spec_hex_digit(d) first.
        assert(mid[0] == spec_hex_digit(d));
        assert(spec_hex_value(mid[0]) == d);
        let x = (v1 * 16 + d) as nat;
        assert(spec_parse_hex(mid.skip(1), 0, x) == Some((x, mid.skip(1))));
        assert(mid.skip(1) =~= rest);
        assert(spec_parse_hex(mid, 1, v1) == Some((x, rest)));
        assert(v1 * 16 + d == acc * pow16(k) + u) by {
            vstd::arithmetic::div_mod::lemma_fundamental_div_mod(u as int, 16);
            assert((acc * p + u2) * 16 == acc * (16 * p) + u2 * 16) by (nonlinear_arith);
        }
    }
}

/// The canonical hyphenated, lowercase rendering of a 128-bit identifier.
pub open spec fn spec_uuid_seq(u: u128) -> Seq<char> {
    let n = u as nat;
    spec_hex_seq(n / 0x1000000000000000000000000, 8) + seq!['-'] + spec_hex_seq(
        (n / 0x100000000000000000000) % 0x10000,
        4,
    ) + seq!['-'] + spec_hex_seq((n / 0x10000000000000000) % 0x10000, 4) + seq!['-']
        + spec_hex_seq((n / 0x1000000000000) % 0x10000, 4) + seq!['-'] + spec_hex_seq(
        n % 0x1000000000000,
        12,
    )
}

/// Reads a hyphenated identifier from the front of `s`: five groups of 8, 4,
/// 4, 4 and 12 hexadecimal digits, separated by hyphens.
pub open spec fn spec_parse_uuid(s: Seq<char>) -> Option<(u128, Seq<char>)> {
    match spec_parse_hex(s, 8, 0) {
        None => None,
        Some((a1, r1)) => if r1.len() > 0 && r1[0] == '-' {
            match spec_parse_hex(r1.skip(1), 4, a1) {
                None => None,
                Some((a2, r2)) => if r2.len() > 0 && r2[0] == '-' {
                    match spec_parse_hex(r2.skip(1), 4, a2) {
                        None => None,
                        Some((a3, r3)) => if r3.len() > 0 && r3[0] == '-' {
                            match spec_parse_hex(r3.skip(1), 4, a3) {
                                None => None,
                                Some((a4, r4)) => if r4.len() > 0 && r4[0] == '-' {
                                    match spec_parse_hex(r4.skip(1), 12, a4) {
                                        None => None,
                                        Some((a5, r5)) => if a5
                                            < 0x100000000000000000000000000000000 {
                                            Some((a5 as u128, r5))
                                        } else {
                                            None
                                        },
                                    }
                                } else {
                                    None
                                },
                            }
                        } else {
                            None
                        },
                    }
                } else {
                    None
                },
            }
        } else {
            None
        },
    }
}

/// Reads a whole character sequence as one identifier: nothing may follow it.
pub open spec fn spec_parse_uuid_all(s: Seq<char>) -> Option<u128> {
    match spec_parse_uuid(s) {
        Some((u, r)) => if r.len() == 0 {
            Some(u)
        } else {
            None
        },
        None => None,
    }
}

/// Parsing the canonical rendering of an identifier recovers it exactly.
pub proof fn lemma_uuid_seq_roundtrip(u: u128, rest: Seq<char>)
    ensures
        spec_parse_uuid(spec_uuid_seq(u) + rest) == Some((u, rest)),
{
    let n = u as nat;
    let g1 = n / 0x1000000000000000000000000;
    let g2 = (n / 0x100000000000000000000) % 0x10000;
    let g3 = (n / 0x10000000000000000) % 0x10000;
    let g4 = (n / 0x1000000000000) % 0x10000;
    let g5 = n % 0x1000000000000;

    lemma_pow16_table();

    assert(n < 0x100000000000000000000000000000000);
    vstd::arithmetic::div_mod::lemma_multiply_divide_lt(
        n as int,
        0x1000000000000000000000000,
        0x100000000,
    );
    assert(g1 < 0x100000000);

    let t9 = spec_hex_seq(g5, 12) + rest;
    let t8 = seq!['-'] + t9;
    let t7 = spec_hex_seq(g4, 4) + t8;
    let t6 = seq!['-'] + t7;
    let t5 = spec_hex_seq(g3, 4) + t6;
    let t4 = seq!['-'] + t5;
    let t3 = spec_hex_seq(g2, 4) + t4;
    let t2 = seq!['-'] + t3;
    let t1 = spec_hex_seq(g1, 8) + t2;
    assert(spec_uuid_seq(u) + rest =~= t1);

    lemma_parse_hex_render(g1, 8, 0, t2);
    assert(spec_parse_hex(t1, 8, 0) == Some((g1, t2)));
    assert(t2[0] == '-');
    assert(t2.skip(1) =~= t3);

    let a2 = g1 * 0x10000 + g2;
    lemma_parse_hex_render(g2, 4, g1, t4);
    assert(spec_parse_hex(t3, 4, g1) == Some((a2, t4)));
    assert(t4[0] == '-');
    assert(t4.skip(1) =~= t5);

    let a3 = a2 * 0x10000 + g3;
    lemma_parse_hex_render(g3, 4, a2, t6);
    assert(spec_parse_hex(t5, 4, a2) == Some((a3, t6)));
    assert(t6[0] == '-');
    assert(t6.skip(1) =~= t7);

    let a4 = a3 * 0x10000 + g4;
    lemma_parse_hex_render(g4, 4, a3, t8);
    assert(spec_parse_hex(t7, 4, a3) == Some((a4, t8)));
    assert(t8[0] == '-');
    assert(t8.skip(1) =~= t9);

    let a5 = a4 * 0x1000000000000 + g5;
    lemma_parse_hex_render(g5, 12, a4, rest);
    assert(spec_parse_hex(t9, 12, a4) == Some((a5, rest)));

    // The accumulated value is exactly `n`, by peeling `n` with division and
    // remainder, one group at a time.
    let d1 = n / 0x1000000000000;
    let d2 = n / 0x10000000000000000;
    let d3 = n / 0x100000000000000000000;
    vstd::arithmetic::div_mod::lemma_fundamental_div_mod(n as int, 0x1000000000000);
    vstd::arithmetic::div_mod::lemma_fundamental_div_mod(d1 as int, 0x10000);
    vstd::arithmetic::div_mod::lemma_div_denominator(n as int, 0x1000000000000, 0x10000);
    assert(d1 / 0x10000 == d2);
    vstd::arithmetic::div_mod::lemma_fundamental_div_mod(d2 as int, 0x10000);
    vstd::arithmetic::div_mod::lemma_div_denominator(n as int, 0x10000000000000000, 0x10000);
    assert(d2 / 0x10000 == d3);
    vstd::arithmetic::div_mod::lemma_fundamental_div_mod(d3 as int, 0x10000);
    vstd::arithmetic::div_mod::lemma_div_denominator(n as int, 0x100000000000000000000, 0x10000);
    assert(d3 / 0x10000 == g1);
    assert(d3 == g1 * 0x10000 + g2);
    assert(d2 == d3 * 0x10000 + g3);
    assert(d1 == d2 * 0x10000 + g4);
    assert(n == d1 * 0x1000000000000 + g5);
    assert(a5 == n);
    assert((a5 as u128) == u);
}

/// Appends the `k` lowest hexadecimal digits of `u`, most significant first.
pub fn push_hex(out: &mut Vec<char>, u: u128, k: usize)
    requires
        k <= 32,
    ensures
        final(out)@ == old(out)@ + spec_hex_seq(u as nat, k as nat),
    decreases k,
{
    if k == 0 {
        proof {
            assert(out@ =~= out@ + spec_hex_seq(u as nat, 0));
        }
    } else {
        push_hex(out, u / 16, k - 1);
        out.push(hex_digit((u % 16) as u8));
        proof {
            assert(out@ =~= old(out)@ + spec_hex_seq(u as nat, k as nat));
        }
    }
}

/// Reads exactly `k` hexadecimal digits at position `i`, folding them onto
/// `acc`.
pub fn parse_hex_chars(s: &Vec<char>, i: usize, k: usize, acc: u128) -> (r: Option<(u128, usize)>)
    requires
        i <= s@.len(),
        k <= 32,
        (acc as nat) < pow16((32 - k) as nat),
    ensures
        ({
            let m = spec_parse_hex(s@.skip(i as int), k as nat, acc as nat);
            match r {
                None => m is None,
                Some((v, j)) => {
                    &&& i <= j <= s@.len()
                    &&& j == i + k
                    &&& m == Some((v as nat, s@.skip(j as int)))
                },
            }
        }),
    decreases k,
{
    if k == 0 {
        Some((acc, i))
    } else if i < s.len() {
        let c = s[i];
        let v = hex_value(c);
        if v < 16 {
            proof {
                assert(s@.skip(i as int)[0] == s@[i as int]);
                lemma_skip_skip(s@, i as int, 1);
                assert(pow16((32 - k) as nat + 1) == 16 * pow16((32 - k) as nat));
                lemma_pow16_mono((32 - k) as nat + 1, 32);
                lemma_pow16_table();
                assert((acc as nat) * 16 + 15 < pow16((32 - k) as nat + 1)) by (nonlinear_arith)
                    requires
                        (acc as nat) < pow16((32 - k) as nat),
                        pow16((32 - k) as nat + 1) == 16 * pow16((32 - k) as nat),
                ;
            }
            parse_hex_chars(s, i + 1, k - 1, acc * 16 + v as u128)
        } else {
            None
        }
    } else {
        None
    }
}

impl Uuid {
    /// The canonical hyphenated rendering, as characters.
    pub fn hyphenated_chars(&self) -> (out: Vec<char>)
        ensures
            out@ == spec_uuid_seq(self.value),
    {
        let mut out: Vec<char> = Vec::new();
        let u = self.value;
        push_hex(&mut out, u / 0x1000000000000000000000000u128, 8);
        out.push('-');
        push_hex(&mut out, (u / 0x100000000000000000000u128) % 0x10000, 4);
        out.push('-');
        push_hex(&mut out, (u / 0x10000000000000000u128) % 0x10000, 4);
        out.push('-');
        push_hex(&mut out, (u / 0x1000000000000u128) % 0x10000, 4);
        out.push('-');
        push_hex(&mut out, u % 0x1000000000000u128, 12);
        proof {
            assert(out@ =~= spec_uuid_seq(self.value));
        }
        out
    }

    /// The canonical hyphenated rendering, as a string.
    pub fn hyphenated_string(&self) -> (out: String)
        ensures
            out@ == spec_uuid_seq(self.value),
    {
        let chars = self.hyphenated_chars();
        crate::text::chars_to_string(&chars)
    }

    /// Reads a hyphenated identifier at position `i` of `s`.
    pub fn parse_chars(s: &Vec<char>, i: usize) -> (r: Option<(Uuid, usize)>)
        requires
            i <= s@.len(),
        ensures
            ({
                let m = spec_parse_uuid(s@.skip(i as int));
                match r {
                    None => m is None,
                    Some((id, j)) => {
                        &&& i <= j <= s@.len()
                        &&& m == Some((id.value, s@.skip(j as int)))
                    },
                }
            }),
    {
        proof {
            assert(pow16(24) <= pow16(32)) by {
                lemma_pow16_mono(24, 32);
            }
            lemma_pow16_table();
        }
        let r1 = match parse_hex_chars(s, i, 8, 0) {
            None => {
                return None;
            },
            Some(x) => x,
        };
        let (a1, j1) = r1;
        proof {
            lemma_parse_hex_bound(s@.skip(i as int), 8, 0);
            assert(pow16(8) <= pow16(28)) by {
                lemma_pow16_mono(8, 28);
            }
        }
        if !(j1 < s.len() && s[j1] == '-') {
            return None;
        }
        proof {
            assert(s@.skip(j1 as int)[0] == s@[j1 as int]);
            lemma_skip_skip(s@, j1 as int, 1);
        }
        let r2 = match parse_hex_chars(s, j1 + 1, 4, a1) {
            None => {
                return None;
            },
            Some(x) => x,
        };
        let (a2, j2) = r2;
        proof {
            lemma_parse_hex_bound(s@.skip(j1 + 1 as int), 4, a1 as nat);
            assert((a1 as nat + 1) * pow16(4) <= pow16(8) * pow16(4)) by (nonlinear_arith)
                requires
                    (a1 as nat) < pow16(8),
                    pow16(4) >= 0,
            ;
            assert(pow16(8) * pow16(4) == pow16(12));
            assert(pow16(12) <= pow16(28)) by {
                lemma_pow16_mono(12, 28);
            }
        }
        if !(j2 < s.len() && s[j2] == '-') {
            return None;
        }
        proof {
            assert(s@.skip(j2 as int)[0] == s@[j2 as int]);
            lemma_skip_skip(s@, j2 as int, 1);
        }
        let r3 = match parse_hex_chars(s, j2 + 1, 4, a2) {
            None => {
                return None;
            },
            Some(x) => x,
        };
        let (a3, j3) = r3;
        proof {
            lemma_parse_hex_bound(s@.skip(j2 + 1 as int), 4, a2 as nat);
            assert((a2 as nat + 1) * pow16(4) <= pow16(12) * pow16(4)) by (nonlinear_arith)
                requires
                    (a2 as nat) < pow16(12),
                    pow16(4) >= 0,
            ;
            assert(pow16(12) * pow16(4) == pow16(16));
            assert(pow16(16) <= pow16(28)) by {
                lemma_pow16_mono(16, 28);
            }
        }
        if !(j3 < s.len() && s[j3] == '-') {
            return None;
        }
        proof {
            assert(s@.skip(j3 as int)[0] == s@[j3 as int]);
            lemma_skip_skip(s@, j3 as int, 1);
        }
        let r4 = match parse_hex_chars(s, j3 + 1, 4, a3) {
            None => {
                return None;
            },
            Some(x) => x,
        };
        let (a4, j4) = r4;
        proof {
            lemma_parse_hex_bound(s@.skip(j3 + 1 as int), 4, a3 as nat);
            assert((a3 as nat + 1) * pow16(4) <= pow16(16) * pow16(4)) by (nonlinear_arith)
                requires
                    (a3 as nat) < pow16(16),
                    pow16(4) >= 0,
            ;
            assert(pow16(16) * pow16(4) == pow16(20));
        }
        if !(j4 < s.len() && s[j4] == '-') {
            return None;
        }
        proof {
            assert(s@.skip(j4 as int)[0] == s@[j4 as int]);
            lemma_skip_skip(s@, j4 as int, 1);
        }
        let r5 = match parse_hex_chars(s, j4 + 1, 12, a4) {
            None => {
                return None;
            },
            Some(x) => x,
        };
        let (a5, j5) = r5;
        Some((Uuid { value: a5 }, j5))
    }

    /// Reads a whole string as a hyphenated identifier.
    pub fn parse_str(s: &str) -> (r: Option<Uuid>)
        ensures
            match r {
                Some(id) => spec_parse_uuid_all(s@) == Some(id.value),
                None => spec_parse_uuid_all(s@) is None,
            },
    {
        let chars = crate::text::str_to_chars(s);
        proof {
            assert(chars@.skip(0) =~= s@);
        }
        match Uuid::parse_chars(&chars, 0) {
            None => None,
            Some((id, j)) => if j == chars.len() {
                proof {
                    assert(chars@.skip(j as int).len() == 0);
                }
                Some(id)
            } else {
                proof {
                    assert(chars@.skip(j as int).len() > 0);
                }
                None
            },
        }
    }
}


} // verus!
