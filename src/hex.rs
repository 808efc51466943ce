use vstd::prelude::*;

verus! {

/// Whether `c` is a hexadecimal digit, in either case.
pub open spec fn is_hex_digit(c: char) -> bool {
    ('0' <= c && c <= '9') || ('a' <= c && c <= 'f') || ('A' <= c && c <= 'F')
}

/// The value of a hexadecimal digit.
pub open spec fn hex_digit_value(c: char) -> nat {
    if '0' <= c && c <= '9' {
        (c as u32 - '0' as u32) as nat
    } else if 'a' <= c && c <= 'f' {
        (c as u32 - 'a' as u32 + 10) as nat
    } else {
        (c as u32 - 'A' as u32 + 10) as nat
    }
}

/// Whether every character of `s` is a hexadecimal digit.
pub open spec fn all_hex_digits(s: Seq<char>) -> bool {
    forall|i: int| 0 <= i < s.len() ==> is_hex_digit(#[trigger] s[i])
}

/// The number that the digits of `s` spell in base sixteen, most significant first.
pub open spec fn hex_value(s: Seq<char>) -> nat
    decreases s.len(),
{
    if s.len() == 0 {
        0
    } else {
        hex_value(s.drop_last()) * 16 + hex_digit_value(s.last())
    }
}

/// The lower-case hexadecimal digit for a value below sixteen.
pub open spec fn lower_hex_char(d: nat) -> char {
    if d < 10 {
        (d + '0' as u32) as char
    } else {
        (d - 10 + 'a' as u32) as char
    }
}

/// The lowest `count` hexadecimal digits of `n`, lower case, most significant first.
pub open spec fn lower_hex_digits(n: nat, count: nat) -> Seq<char>
    decreases count,
{
    if count == 0 {
        Seq::empty()
    } else {
        lower_hex_digits(n / 16, (count - 1) as nat).push(lower_hex_char(n % 16))
    }
}

/// The value of one hexadecimal digit, or `None` for any other character.
pub fn digit_value(c: char) -> (r: Option<u32>)
    ensures
        r == (if is_hex_digit(c) {
            Some(hex_digit_value(c) as u32)
        } else {
            None
        }),
{
    if '0' <= c && c <= '9' {
        Some(c as u32 - '0' as u32)
    } else if 'a' <= c && c <= 'f' {
        Some(c as u32 - 'a' as u32 + 10)
    } else if 'A' <= c && c <= 'F' {
        Some(c as u32 - 'A' as u32 + 10)
    } else {
        None
    }
}

/// The lower-case hexadecimal digit for a value below sixteen.
pub fn lower_hex_digit(d: u32) -> (c: char)
    requires
        d < 16,
    ensures
        c == lower_hex_char(d as nat),
{
    if d < 10 {
        ((d as u8) + 48u8) as char
    } else {
        ((d as u8) + 87u8) as char
    }
}

/// The number spelled by the characters of `s` from `from` up to `to`, or `None` unless all
/// of them are hexadecimal digits.
pub fn parse_hex(s: &str, from: usize, to: usize) -> (r: Option<u32>)
    requires
        from <= to <= s@.len(),
        to - from <= 6,
    ensures
        all_hex_digits(s@.subrange(from as int, to as int)) ==> hex_value(
            s@.subrange(from as int, to as int),
        ) < 0x100_0000,
        r == (if all_hex_digits(s@.subrange(from as int, to as int)) {
            Some(hex_value(s@.subrange(from as int, to as int)) as u32)
        } else {
            None
        }),
{
    let mut val: u32 = 0;
    let mut i: usize = from;
    assert(1u32 << 0u32 == 1) by (bit_vector);
    while i < to
        invariant
            from <= i <= to <= s@.len(),
            to - from <= 6,
            all_hex_digits(s@.subrange(from as int, i as int)),
            val as nat == hex_value(s@.subrange(from as int, i as int)),
            val < (1u32 << (4 * (i - from)) as u32),
        decreases to - i,
    {
        let c = s.get_char(i);
        let ghost done = s@.subrange(from as int, i as int);
        let ghost next = s@.subrange(from as int, i + 1);
        assert(next.drop_last() =~= done);
        assert(next.last() == c);
        match digit_value(c) {
            None => {
                assert(s@.subrange(from as int, to as int)[i - from] == c);
                return None;
            },
            Some(d) => {
                let k: u32 = (4 * (i - from)) as u32;
                assert(val * 16 + d < (1u32 << (k + 4)) && (k + 4) as u32 == k + 4) by (bit_vector)
                    requires
                        k <= 20,
                        val < (1u32 << k),
                        d < 16,
                ;
                val = val * 16 + d;
                assert(all_hex_digits(next)) by {
                    assert forall|j: int| 0 <= j < next.len() implies is_hex_digit(#[trigger] next[j]) by {
                        if j < done.len() {
                            assert(next[j] == done[j]);
                        }
                    }
                }
            },
        }
        i = i + 1;
    }
    let k: u32 = (4 * (i - from)) as u32;
    assert(val < 0x100_0000) by (bit_vector)
        requires
            k <= 24,
            val < (1u32 << k),
    ;
    Some(val)
}

} // verus!
