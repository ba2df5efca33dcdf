use vstd::prelude::*;
use vstd::string::*;

verus! {

// ---------------------------------------------------------------------------
// Textual number forms
//
// The on-disk formats write addresses as lower-case hex and indices as
// decimal.  Formatting and parsing are specified against one digit alphabet
// and a positional fold, so codecs built on them can state exactly which
// strings they accept and produce.
// ---------------------------------------------------------------------------

/// The character for digit value `d` (lower-case for 10 to 15).
pub open spec fn digit_char(d: u64) -> char {
    if d == 0 {
        '0'
    } else if d == 1 {
        '1'
    } else if d == 2 {
        '2'
    } else if d == 3 {
        '3'
    } else if d == 4 {
        '4'
    } else if d == 5 {
        '5'
    } else if d == 6 {
        '6'
    } else if d == 7 {
        '7'
    } else if d == 8 {
        '8'
    } else if d == 9 {
        '9'
    } else if d == 10 {
        'a'
    } else if d == 11 {
        'b'
    } else if d == 12 {
        'c'
    } else if d == 13 {
        'd'
    } else if d == 14 {
        'e'
    } else if d == 15 {
        'f'
    } else {
        '?'
    }
}

/// The value of a digit character; 64 when `c` is no digit.  Upper-case hex
/// digits are accepted.
pub open spec fn digit_val(c: char) -> u64 {
    if c == '0' {
        0
    } else if c == '1' {
        1
    } else if c == '2' {
        2
    } else if c == '3' {
        3
    } else if c == '4' {
        4
    } else if c == '5' {
        5
    } else if c == '6' {
        6
    } else if c == '7' {
        7
    } else if c == '8' {
        8
    } else if c == '9' {
        9
    } else if c == 'a' || c == 'A' {
        10
    } else if c == 'b' || c == 'B' {
        11
    } else if c == 'c' || c == 'C' {
        12
    } else if c == 'd' || c == 'D' {
        13
    } else if c == 'e' || c == 'E' {
        14
    } else if c == 'f' || c == 'F' {
        15
    } else {
        64
    }
}

/// Every character of `s` is a digit under `radix`.
pub open spec fn all_digits(s: Seq<char>, radix: u64) -> bool {
    forall|i: int| 0 <= i < s.len() ==> digit_val(#[trigger] s[i]) < radix
}

/// Positional value of a digit string under `radix`, as an unbounded integer.
pub open spec fn digits_value_int(s: Seq<char>, radix: u64) -> int
    decreases s.len(),
{
    if s.len() == 0 {
        0
    } else {
        digits_value_int(s.drop_last(), radix) * radix + digit_val(s.last())
    }
}

/// The lower-case hex form of `x`, most significant digit first, without
/// leading zeros.
pub open spec fn hex_seq(x: u64) -> Seq<char>
    decreases x,
    via hex_seq_decreases
{
    if x < 16 {
        seq![digit_char(x)]
    } else {
        hex_seq(x >> 4) + seq![digit_char(x & 0xF)]
    }
}

#[via_fn]
proof fn hex_seq_decreases(x: u64) {
    assert(x < 16 || x >> 4 < x) by (bit_vector);
}

/// The decimal form of `x`, most significant digit first, without leading
/// zeros.
pub open spec fn dec_seq(x: u64) -> Seq<char>
    decreases x,
{
    if x < 10 {
        seq![digit_char(x)]
    } else {
        dec_seq(x / 10) + seq![digit_char(x % 10)]
    }
}

/// Appends the digit character for `d` to `s`.
pub fn push_digit_char(s: &mut String, d: u64)
    requires
        d < 16,
    ensures
        final(s)@ == old(s)@ + seq![digit_char(d)],
{
    if d == 0 {
        proof {
            reveal_strlit("0");
        }
        s.append("0");
    } else if d == 1 {
        proof {
            reveal_strlit("1");
        }
        s.append("1");
    } else if d == 2 {
        proof {
            reveal_strlit("2");
        }
        s.append("2");
    } else if d == 3 {
        proof {
            reveal_strlit("3");
        }
        s.append("3");
    } else if d == 4 {
        proof {
            reveal_strlit("4");
        }
        s.append("4");
    } else if d == 5 {
        proof {
            reveal_strlit("5");
        }
        s.append("5");
    } else if d == 6 {
        proof {
            reveal_strlit("6");
        }
        s.append("6");
    } else if d == 7 {
        proof {
            reveal_strlit("7");
        }
        s.append("7");
    } else if d == 8 {
        proof {
            reveal_strlit("8");
        }
        s.append("8");
    } else if d == 9 {
        proof {
            reveal_strlit("9");
        }
        s.append("9");
    } else if d == 10 {
        proof {
            reveal_strlit("a");
        }
        s.append("a");
    } else if d == 11 {
        proof {
            reveal_strlit("b");
        }
        s.append("b");
    } else if d == 12 {
        proof {
            reveal_strlit("c");
        }
        s.append("c");
    } else if d == 13 {
        proof {
            reveal_strlit("d");
        }
        s.append("d");
    } else if d == 14 {
        proof {
            reveal_strlit("e");
        }
        s.append("e");
    } else {
        proof {
            reveal_strlit("f");
        }
        s.append("f");
    }
    proof {
        assert(final(s)@ =~= old(s)@ + seq![digit_char(d)]);
    }
}

/// Writes `x` in lower-case hex, as the address tokens of the on-disk
/// formats do.
pub fn u64_to_hex(x: u64) -> (s: String)
    ensures
        s@ == hex_seq(x),
    decreases x,
{
    if x < 16 {
        let mut s = String::new();
        push_digit_char(&mut s, x);
        proof {
            assert(s@ =~= hex_seq(x));
        }
        s
    } else {
        proof {
            assert(x >> 4 < x && (x & 0xF) < 16) by (bit_vector)
                requires
                    x >= 16,
            ;
        }
        let mut s = u64_to_hex(x >> 4);
        push_digit_char(&mut s, x & 0xF);
        proof {
            assert(s@ =~= hex_seq(x));
        }
        s
    }
}

/// Writes `x` in decimal.
pub fn u64_to_dec(x: u64) -> (s: String)
    ensures
        s@ == dec_seq(x),
    decreases x,
{
    if x < 10 {
        let mut s = String::new();
        push_digit_char(&mut s, x);
        proof {
            assert(s@ =~= dec_seq(x));
        }
        s
    } else {
        let mut s = u64_to_dec(x / 10);
        push_digit_char(&mut s, x % 10);
        proof {
            assert(s@ =~= dec_seq(x));
        }
        s
    }
}

/// The value of a digit character; 64 when `c` is no digit.
pub fn digit_val_of(c: char) -> (v: u64)
    ensures
        v == digit_val(c),
{
    match c {
        '0' => 0,
        '1' => 1,
        '2' => 2,
        '3' => 3,
        '4' => 4,
        '5' => 5,
        '6' => 6,
        '7' => 7,
        '8' => 8,
        '9' => 9,
        'a' | 'A' => 10,
        'b' | 'B' => 11,
        'c' | 'C' => 12,
        'd' | 'D' => 13,
        'e' | 'E' => 14,
        'f' | 'F' => 15,
        _ => 64,
    }
}

/// A longer digit string never has a smaller value.
proof fn lemma_digits_value_monotone(s: Seq<char>, j: int, radix: u64)
    requires
        radix >= 1,
        0 <= j <= s.len(),
    ensures
        digits_value_int(s.take(j), radix) <= digits_value_int(s, radix),
        digits_value_int(s, radix) >= 0,
    decreases s.len(),
{
    if s.len() == 0 {
        assert(s.take(j) =~= s);
    } else if j == s.len() {
        assert(s.take(j) =~= s);
        lemma_digits_value_monotone(s.drop_last(), s.len() - 1, radix);
        let v = digits_value_int(s.drop_last(), radix);
        assert(v * radix >= v) by (nonlinear_arith)
            requires
                v >= 0,
                radix >= 1,
        ;
    } else {
        lemma_digits_value_monotone(s.drop_last(), j, radix);
        assert(s.drop_last().take(j) =~= s.take(j));
        let v = digits_value_int(s.drop_last(), radix);
        assert(v * radix >= v) by (nonlinear_arith)
            requires
                v >= 0,
                radix >= 1,
        ;
    }
}

/// Parses a digit string under `radix`: every character must be a digit and
/// the value must fit in a `u64`.
fn parse_digits(s: &str, radix: u64) -> (r: Option<u64>)
    requires
        2 <= radix <= 16,
    ensures
        r is Some <==> (s@.len() >= 1 && all_digits(s@, radix) && digits_value_int(s@, radix)
            <= u64::MAX),
        r matches Some(v) ==> v == digits_value_int(s@, radix),
{
    let len = s.unicode_len();
    if len == 0 {
        return None;
    }
    let mut acc: u64 = 0;
    let mut i: usize = 0;
    while i < len
        invariant
            2 <= radix <= 16,
            len == s@.len(),
            0 <= i <= len,
            acc == digits_value_int(s@.take(i as int), radix),
            forall|k: int| 0 <= k < i ==> digit_val(#[trigger] s@[k]) < radix,
        decreases len - i,
    {
        let c = s.get_char(i);
        let d = digit_val_of(c);
        if d >= radix {
            proof {
                assert(!all_digits(s@, radix));
            }
            return None;
        }
        proof {
            assert(s@.take(i as int + 1).drop_last() =~= s@.take(i as int));
            assert(s@.take(i as int + 1).last() == s@[i as int]);
        }
        let ghost next_val = digits_value_int(s@.take(i as int + 1), radix);
        let stepped = match acc.checked_mul(radix) {
            Some(m) => m.checked_add(d),
            None => None,
        };
        match stepped {
            Some(v) => {
                acc = v;
            },
            None => {
                proof {
                    assert(next_val > u64::MAX);
                    lemma_digits_value_monotone(s@, i as int + 1, radix);
                    assert(s@.take(s@.len() as int) =~= s@);
                    assert(digits_value_int(s@, radix) > u64::MAX);
                }
                return None;
            },
        }
        i = i + 1;
    }
    proof {
        assert(s@.take(len as int) =~= s@);
    }
    Some(acc)
}

/// Parses a hex digit string (no `0x` prefix), rejecting non-digits and
/// values over `u64::MAX`.
pub fn parse_hex_u64(s: &str) -> (r: Option<u64>)
    ensures
        r is Some <==> (s@.len() >= 1 && all_digits(s@, 16) && digits_value_int(s@, 16)
            <= u64::MAX),
        r matches Some(v) ==> v == digits_value_int(s@, 16),
{
    parse_digits(s, 16)
}

/// Parses a decimal digit string, rejecting non-digits and values over
/// `u64::MAX`.
pub fn parse_dec_u64(s: &str) -> (r: Option<u64>)
    ensures
        r is Some <==> (s@.len() >= 1 && all_digits(s@, 10) && digits_value_int(s@, 10)
            <= u64::MAX),
        r matches Some(v) ==> v == digits_value_int(s@, 10),
{
    parse_digits(s, 10)
}

/// The characters of `s`, one by one.
pub fn to_char_vec(s: &str) -> (v: Vec<char>)
    ensures
        v@ == s@,
{
    let len = s.unicode_len();
    let mut v: Vec<char> = Vec::new();
    let mut i: usize = 0;
    while i < len
        invariant
            len == s@.len(),
            0 <= i <= len,
            v@ =~= s@.take(i as int),
        decreases len - i,
    {
        v.push(s.get_char(i));
        proof {
            assert(v@ =~= s@.take(i as int + 1));
        }
        i = i + 1;
    }
    proof {
        assert(v@ =~= s@);
    }
    v
}

/// Index of the first occurrence of `c` at or after `i`; the length when
/// there is none.
pub open spec fn find_char_from(s: Seq<char>, c: char, i: nat) -> nat
    decreases s.len() - i,
{
    if i >= s.len() {
        s.len()
    } else if s[i as int] == c {
        i
    } else {
        find_char_from(s, c, i + 1)
    }
}

/// Searching a suffix finds the same occurrence, shifted.
pub proof fn lemma_find_char_skip(s: Seq<char>, c: char, from: nat, i: nat)
    requires
        from <= s.len(),
        from + i <= s.len(),
    ensures
        find_char_from(s.skip(from as int), c, i) == find_char_from(s, c, from + i) - from,
    decreases s.len() - from - i,
{
    let suffix = s.skip(from as int);
    if from + i < s.len() {
        assert(suffix[i as int] == s[(from + i) as int]);
        if s[(from + i) as int] != c {
            lemma_find_char_skip(s, c, from, i + 1);
        }
    }
}

/// Positional value of the digits of `s` between `from` and `to`, parsed
/// under `radix`: every character must be a digit and the value must fit in
/// a `u64`.
pub fn parse_digits_range(chars: &Vec<char>, from: usize, to: usize, radix: u64) -> (r: Option<
    u64,
>)
    requires
        2 <= radix <= 16,
        from <= to <= chars@.len(),
    ensures
        r is Some <==> (to - from >= 1 && all_digits(chars@.subrange(from as int, to as int), radix)
            && digits_value_int(chars@.subrange(from as int, to as int), radix) <= u64::MAX),
        r matches Some(v) ==> v == digits_value_int(
            chars@.subrange(from as int, to as int),
            radix,
        ),
{
    let ghost sub = chars@.subrange(from as int, to as int);
    if to == from {
        return None;
    }
    let mut acc: u64 = 0;
    let mut i: usize = from;
    while i < to
        invariant
            2 <= radix <= 16,
            from <= to <= chars@.len(),
            sub == chars@.subrange(from as int, to as int),
            from <= i <= to,
            acc == digits_value_int(chars@.subrange(from as int, i as int), radix),
            forall|k: int| from <= k < i ==> digit_val(#[trigger] chars@[k]) < radix,
        decreases to - i,
    {
        let c = chars[i];
        let d = digit_val_of(c);
        if d >= radix {
            proof {
                assert(sub[i - from] == chars@[i as int]);
                assert(!all_digits(sub, radix));
            }
            return None;
        }
        proof {
            assert(chars@.subrange(from as int, i as int + 1).drop_last() =~= chars@.subrange(
                from as int,
                i as int,
            ));
            assert(chars@.subrange(from as int, i as int + 1).last() == chars@[i as int]);
        }
        let ghost next_val = digits_value_int(chars@.subrange(from as int, i as int + 1), radix);
        let stepped = match acc.checked_mul(radix) {
            Some(m) => m.checked_add(d),
            None => None,
        };
        match stepped {
            Some(v) => {
                acc = v;
            },
            None => {
                proof {
                    assert(next_val > u64::MAX);
                    lemma_digits_value_monotone(sub, i + 1 - from, radix);
                    assert(sub.take(i + 1 - from) =~= chars@.subrange(from as int, i as int + 1));
                    assert(digits_value_int(sub, radix) > u64::MAX);
                }
                return None;
            },
        }
        i = i + 1;
    }
    proof {
        assert(chars@.subrange(from as int, to as int) =~= sub);
        assert forall|k: int| 0 <= k < sub.len() implies digit_val(#[trigger] sub[k])
            < radix by {
            assert(sub[k] == chars@[from + k]);
        }
    }
    Some(acc)
}

} // verus!
