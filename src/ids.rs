//! Content ids: 64-bit numbers written as 16 lowercase hexadecimal digits.
use vstd::prelude::*;
use vstd::string::StrSliceExecFns;

verus! {

pub open spec fn is_hex_char(c: char) -> bool {
    ('0' <= c && c <= '9') || ('a' <= c && c <= 'f')
}

pub open spec fn hex_value(c: char) -> int {
    if '0' <= c && c <= '9' {
        (c as int) - ('0' as int)
    } else {
        (c as int) - ('a' as int) + 10
    }
}

/// The number that the hexadecimal digits `s` write, most significant first.
pub open spec fn hex_number(s: Seq<char>) -> nat
    decreases s.len(),
{
    if s.len() == 0 {
        0
    } else {
        (hex_number(s.drop_last()) * 16 + hex_value(s.last())) as nat
    }
}

pub open spec fn pow16(k: nat) -> nat
    decreases k,
{
    if k == 0 {
        1
    } else {
        16 * pow16((k - 1) as nat)
    }
}

proof fn lemma_pow16_grows(a: nat, b: nat)
    requires
        a <= b,
    ensures
        pow16(a) <= pow16(b),
    decreases b,
{
    if a < b {
        lemma_pow16_grows(a, (b - 1) as nat);
    }
}

/// `s` is an id: exactly 16 lowercase hexadecimal digits.
pub open spec fn is_id_text(s: Seq<char>) -> bool {
    s.len() == 16 && forall|i: int| 0 <= i < s.len() ==> is_hex_char(#[trigger] s[i])
}

proof fn lemma_hex_number_bound(s: Seq<char>)
    requires
        forall|i: int| 0 <= i < s.len() ==> is_hex_char(#[trigger] s[i]),
    ensures
        hex_number(s) < pow16(s.len()),
    decreases s.len(),
{
    if s.len() > 0 {
        let p = s.drop_last();
        assert forall|i: int| 0 <= i < p.len() implies is_hex_char(#[trigger] p[i]) by {
            assert(p[i] == s[i]);
        }
        lemma_hex_number_bound(p);
        assert(is_hex_char(s[s.len() - 1]));
        let a = hex_number(p) as int;
        let b = pow16(p.len());
        assert(a * 16 + 15 < b * 16) by (nonlinear_arith)
            requires
                a < b,
        ;
    }
}

/// Reads an id: `Some` exactly when `s` is 16 lowercase hexadecimal digits.
pub fn parse_id(s: &str) -> (r: Option<u64>)
    ensures
        r is Some <==> is_id_text(s@),
        r matches Some(v) ==> v as nat == hex_number(s@),
{
    let n = s.unicode_len();
    if n != 16 {
        return None;
    }
    let mut v: u64 = 0;
    let mut i: usize = 0;
    while i < 16
        invariant
            i <= 16,
            s@.len() == 16,
            forall|j: int| 0 <= j < i ==> is_hex_char(#[trigger] s@[j]),
            v as nat == hex_number(s@.take(i as int)),
        decreases 16 - i,
    {
        let c = s.get_char(i);
        let d: u64 = if '0' <= c && c <= '9' {
            (c as u32 - '0' as u32) as u64
        } else if 'a' <= c && c <= 'f' {
            (c as u32 - 'a' as u32 + 10) as u64
        } else {
            return None;
        };
        proof {
            let t = s@.take(i + 1);
            assert(t.drop_last() =~= s@.take(i as int));
            assert forall|j: int| 0 <= j < t.len() implies is_hex_char(#[trigger] t[j]) by {
                assert(t[j] == s@[j]);
            }
            lemma_hex_number_bound(t);
            assert(pow16(16) == 0x1_0000_0000_0000_0000) by {
                reveal_with_fuel(pow16, 17);
            }
            lemma_pow16_grows(t.len(), 16);
        }
        v = v * 16 + d;
        i += 1;
    }
    assert(s@.take(16) =~= s@);
    Some(v)
}

/// Relies on std's `String::push`: the character is appended.
#[verifier::external_body]
fn push_char(s: &mut String, c: char)
    ensures
        final(s)@ == old(s)@.push(c),
{
    s.push(c);
}

fn hex_digit_char(d: u64) -> (c: char)
    requires
        d < 16,
    ensures
        is_hex_char(c),
        hex_value(c) == d,
{
    if d < 10 {
        let c = (48u8 + d as u8) as char;
        assert(c as int == 48 + d);
        c
    } else {
        let c = (87u8 + d as u8) as char;
        assert(c as int == 87 + d);
        c
    }
}

proof fn lemma_shift_digit(n: u64, s: u64)
    requires
        s <= 60,
    ensures
        n >> s == (n >> ((s + 4) as u64)) * 16 + ((n >> s) & 15),
        (n >> s) & 15 < 16,
{
    assert(n >> s == (n >> ((s + 4) as u64)) * 16 + ((n >> s) & 15)) by (bit_vector)
        requires
            s <= 60,
    ;
    assert((n >> s) & 15 < 16) by (bit_vector);
}

/// Writes `n` as an id: 16 lowercase hexadecimal digits.
pub fn id_text(n: u64) -> (r: String)
    ensures
        is_id_text(r@),
        hex_number(r@) == n,
{
    let mut r = String::new();
    let mut i: u64 = 0;
    proof {
        assert(n >> 60u64 < 16) by (bit_vector);
        assert((n >> 60u64) & 15 == n >> 60u64) by (bit_vector);
        assert(n >> 0u64 == n) by (bit_vector);
    }
    while i < 16
        invariant
            i <= 16,
            r@.len() == i,
            forall|j: int| 0 <= j < i ==> is_hex_char(#[trigger] r@[j]),
            n >> 60u64 < 16,
            (n >> 60u64) & 15 == n >> 60u64,
            n >> 0u64 == n,
            i == 0 ==> hex_number(r@) == 0,
            i > 0 ==> hex_number(r@) == n >> ((64 - 4 * i) as u64),
        decreases 16 - i,
    {
        let shift: u64 = 60 - 4 * i;
        let d = (n >> shift) & 15;
        proof {
            lemma_shift_digit(n, shift);
        }
        let c = hex_digit_char(d);
        let ghost before = r@;
        push_char(&mut r, c);
        proof {
            assert(r@.drop_last() =~= before);
            assert(forall|j: int| 0 <= j < before.len() ==> r@[j] == before[j]);
        }
        i += 1;
    }
    r
}

} // verus!
