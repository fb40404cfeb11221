use vstd::prelude::*;

verus! {

/// The character that renders the digit `d` in bases up to 36:
/// `0`-`9` for values below ten, `a`-`z` for the rest.
pub open spec fn digit_char(d: int) -> char {
    if 0 <= d < 10 {
        (48 + d) as char
    } else {
        (87 + d) as char
    }
}

/// The numeric value of a digit character in bases up to 36, accepting
/// `0`-`9`, `a`-`z` and `A`-`Z`; any other character maps to 36, which no
/// valid base reaches.
pub open spec fn digit_val(c: char) -> int {
    let u = c as int;
    if 48 <= u < 58 {
        u - 48
    } else if 97 <= u < 123 {
        u - 87
    } else if 65 <= u < 91 {
        u - 55
    } else {
        36
    }
}

/// Renders a digit below 36 as its character.
pub fn char_of_digit(d: u32) -> (c: char)
    requires
        d < 36,
    ensures
        c == digit_char(d as int),
        digit_val(c) == d,
{
    if d < 10 {
        (48 + d as u8) as char
    } else {
        (87 + d as u8) as char
    }
}

/// Parses one character as a digit of the given base: `Some` of its value
/// exactly when the character is a digit below `base`.
pub fn char_to_digit(c: char, base: u32) -> (r: Option<u32>)
    requires
        2 <= base <= 36,
    ensures
        r == if digit_val(c) < base {
            Some(digit_val(c) as u32)
        } else {
            None::<u32>
        },
{
    let u = c as u32;
    let val: u32 = if 48 <= u && u < 58 {
        u - 48
    } else if 97 <= u && u < 123 {
        u - 87
    } else if 65 <= u && u < 91 {
        u - 55
    } else {
        36
    };
    if val < base {
        Some(val)
    } else {
        None
    }
}

/// Relies on String::push: appends the one character to the end of the
/// string.
#[verifier::external_body]
pub(crate) fn push_char(s: &mut String, c: char)
    ensures
        final(s)@ == old(s)@.push(c),
{
    s.push(c);
}

/// A decimal digit character.
pub open spec fn is_dec_digit(c: char) -> bool {
    48 <= c as int <= 57
}

/// Every character a decimal digit, and at least one of them.
pub open spec fn dec_seq_ok(s: Seq<char>) -> bool {
    s.len() >= 1 && forall|i: int| 0 <= i < s.len() ==> is_dec_digit(#[trigger] s[i])
}

/// The decimal value accumulated left to right from position `i` on,
/// starting from `acc`.
pub open spec fn dec_acc(s: Seq<char>, i: int, acc: int) -> int
    decreases s.len() - i,
{
    if i < 0 || i >= s.len() {
        acc
    } else {
        dec_acc(s, i + 1, acc * 10 + (s[i] as int - 48))
    }
}

/// The numeric value of a sequence of decimal digits.
pub open spec fn dec_value(s: Seq<char>) -> int {
    dec_acc(s, 0, 0)
}

/// The digits of an unsigned number: what follows an optional leading plus
/// sign.
pub open spec fn uint_body(s: Seq<char>) -> Seq<char> {
    if s.len() >= 1 && s[0] == '+' {
        s.skip(1)
    } else {
        s
    }
}

/// A well-formed rendering of an unsigned number no larger than `max`.
pub open spec fn uint_ok(s: Seq<char>, max: int) -> bool {
    dec_seq_ok(uint_body(s)) && dec_value(uint_body(s)) <= max
}

/// Accumulating decimal digits never decreases the accumulator.
proof fn lemma_dec_acc_ge(s: Seq<char>, i: int, acc: int)
    requires
        0 <= acc,
        forall|j: int| i <= j < s.len() ==> is_dec_digit(#[trigger] s[j]),
    ensures
        dec_acc(s, i, acc) >= acc,
    decreases s.len() - i,
{
    if 0 <= i < s.len() {
        let acc2 = acc * 10 + (s[i] as int - 48);
        assert(acc2 >= acc) by (nonlinear_arith)
            requires
                0 <= acc,
                acc2 == acc * 10 + (s[i] as int - 48),
                48 <= s[i] as int,
        ;
        lemma_dec_acc_ge(s, i + 1, acc2);
    }
}

/// Parses a whole string as an unsigned decimal number of at most `max`,
/// accepting an optional leading plus sign: `Some` of its value exactly
/// when the string is such a rendering.
#[verifier::rlimit(80)]
pub fn parse_uint_str(s: &str, max: u64) -> (r: Option<u64>)
    ensures
        r == if uint_ok(s@, max as int) {
            Some(dec_value(uint_body(s@)) as u64)
        } else {
            None::<u64>
        },
        uint_ok(s@, max as int) ==> 0 <= dec_value(uint_body(s@)) <= max,
{
    let n = s.unicode_len();
    let mut start: usize = 0;
    if n >= 1 && s.get_char(0) == '+' {
        start = 1;
    }
    let ghost body = uint_body(s@);
    proof {
        assert(body =~= s@.skip(start as int));
    }
    if start == n {
        return None;
    }
    let mut acc: u64 = 0;
    let mut i: usize = start;
    while i < n
        invariant
            start <= i <= n,
            start < n,
            start <= 1,
            n == s@.len(),
            body == uint_body(s@),
            body == s@.skip(start as int),
            body.len() == n - start,
            forall|j: int| 0 <= j < i - start ==> is_dec_digit(#[trigger] body[j]),
            0 <= acc <= max,
            dec_value(body) == dec_acc(body, i - start, acc as int),
        decreases n - i,
    {
        let c = s.get_char(i);
        let v = c as u32;
        if v < 48 || v > 57 {
            proof {
                assert(body[i - start] == s@[i as int]);
                assert(!is_dec_digit(body[i - start]));
            }
            return None;
        }
        let d = (v - 48) as u64;
        proof {
            assert(body[i - start] == s@[i as int]);
            assert(dec_acc(body, i - start, acc as int) == dec_acc(
                body,
                i - start + 1,
                acc * 10 + d,
            ));
        }
        let next_acc = match acc.checked_mul(10) {
            Some(x) => match x.checked_add(d) {
                Some(y) => Some(y),
                None => None,
            },
            None => None,
        };
        let next_acc = match next_acc {
            Some(y) => if y > max {
                None
            } else {
                Some(y)
            },
            None => None,
        };
        match next_acc {
            Some(y) => {
                acc = y;
            },
            None => {
                proof {
                    if dec_seq_ok(body) {
                        lemma_dec_acc_ge(body, i - start + 1, acc * 10 + d);
                        assert(dec_value(body) > max);
                    }
                }
                return None;
            },
        }
        i = i + 1;
    }
    proof {
        assert(dec_value(body) == acc as int);
        assert(dec_seq_ok(body));
    }
    Some(acc)
}

/// Parses a string as a `u32` as the standard library does.
pub fn parse_u32_str(s: &str) -> (r: Option<u32>)
    ensures
        r == if uint_ok(s@, u32::MAX as int) {
            Some(dec_value(uint_body(s@)) as u32)
        } else {
            None::<u32>
        },
{
    match parse_uint_str(s, 0xFFFF_FFFFu64) {
        Some(v) => Some(v as u32),
        None => None,
    }
}

/// Parses a string as a `u8` as the standard library does.
pub fn parse_u8_str(s: &str) -> (r: Option<u8>)
    ensures
        r == if uint_ok(s@, u8::MAX as int) {
            Some(dec_value(uint_body(s@)) as u8)
        } else {
            None::<u8>
        },
{
    match parse_uint_str(s, 0xFFu64) {
        Some(v) => Some(v as u8),
        None => None,
    }
}

/// Parses a string as a `usize` as the standard library does.
pub fn parse_usize_str(s: &str) -> (r: Option<usize>)
    ensures
        r == if uint_ok(s@, usize::MAX as int) {
            Some(dec_value(uint_body(s@)) as usize)
        } else {
            None::<usize>
        },
{
    let max = usize::MAX as u64;
    proof {
        assert(usize::MAX as u64 as int == usize::MAX as int);
    }
    match parse_uint_str(s, max) {
        Some(v) => Some(v as usize),
        None => None,
    }
}

/// Compares two strings character by character.
pub fn str_eq(a: &str, b: &str) -> (r: bool)
    ensures
        r <==> a@ == b@,
{
    let n = a.unicode_len();
    let m = b.unicode_len();
    if n != m {
        return false;
    }
    let mut i: usize = 0;
    while i < n
        invariant
            i <= n,
            n == a@.len(),
            n == b@.len(),
            forall|j: int| 0 <= j < i ==> a@[j] == b@[j],
        decreases n - i,
    {
        if a.get_char(i) != b.get_char(i) {
            return false;
        }
        i = i + 1;
    }
    proof {
        assert(a@ =~= b@);
    }
    true
}

/// The position of the first occurrence of `sep` at or after `from`, or the
/// length when there is none.
pub open spec fn find_idx(s: Seq<char>, sep: char, from: int) -> int
    decreases s.len() - from,
{
    if from < 0 || from >= s.len() {
        s.len() as int
    } else if s[from] == sep {
        from
    } else {
        find_idx(s, sep, from + 1)
    }
}

/// The character position of the first occurrence of `sep`, if any.
pub fn find_char(s: &str, sep: char) -> (r: Option<usize>)
    ensures
        r matches Some(i) ==> i == find_idx(s@, sep, 0) && i < s@.len(),
        r is None ==> find_idx(s@, sep, 0) == s@.len(),
{
    let n = s.unicode_len();
    let mut i: usize = 0;
    while i < n
        invariant
            i <= n,
            n == s@.len(),
            find_idx(s@, sep, 0) == find_idx(s@, sep, i as int),
        decreases n - i,
    {
        if s.get_char(i) == sep {
            return Some(i);
        }
        i = i + 1;
    }
    None
}

/// The segments of `s` between occurrences of `sep`: always one more
/// segment than separators, in order, separators removed.
pub open spec fn split_seq(s: Seq<char>, sep: char) -> Seq<Seq<char>>
    decreases s.len(),
{
    if s.len() == 0 {
        seq![Seq::<char>::empty()]
    } else if s[0] == sep {
        seq![Seq::<char>::empty()] + split_seq(s.skip(1), sep)
    } else {
        let rest = split_seq(s.skip(1), sep);
        seq![seq![s[0]] + rest[0]] + rest.skip(1)
    }
}

/// Splitting yields at least one segment.
pub proof fn lemma_split_seq_len(s: Seq<char>, sep: char)
    ensures
        split_seq(s, sep).len() >= 1,
    decreases s.len(),
{
    if s.len() > 0 && s[0] != sep {
        lemma_split_seq_len(s.skip(1), sep);
    }
}

/// The views of a vector of strings.
pub open spec fn str_views(parts: Vec<String>) -> Seq<Seq<char>> {
    parts@.map_values(|p: String| p@)
}

/// Splits `s` at every occurrence of `sep`, as `str::split` does.
pub fn split_str(s: &str, sep: char) -> (parts: Vec<String>)
    ensures
        str_views(parts) =~~= split_seq(s@, sep),
{
    let n = s.unicode_len();
    let mut parts: Vec<String> = Vec::new();
    let mut cur = String::new();
    let mut i: usize = 0;
    proof {
        lemma_split_seq_len(s@.skip(0), sep);
        assert(s@.skip(0) =~= s@);
    }
    while i < n
        invariant
            i <= n,
            n == s@.len(),
            split_seq(s@.skip(i as int), sep).len() >= 1,
            split_seq(s@, sep) =~~= str_views(parts) + seq![
                cur@ + split_seq(s@.skip(i as int), sep)[0],
            ] + split_seq(s@.skip(i as int), sep).skip(1),
        decreases n - i,
    {
        let c = s.get_char(i);
        let ghost rest = split_seq(s@.skip(i as int), sep);
        let ghost rest2 = split_seq(s@.skip(i as int + 1), sep);
        proof {
            lemma_split_seq_len(s@.skip(i as int + 1), sep);
            assert(s@.skip(i as int)[0] == s@[i as int]);
            assert(s@.skip(i as int).skip(1) =~= s@.skip(i as int + 1));
            assert(split_seq(s@.skip(i as int).skip(1), sep) == rest2);
        }
        if c == sep {
            let ghost pv = str_views(parts);
            let ghost cv = cur@;
            proof {
                assert(rest =~~= seq![Seq::<char>::empty()] + rest2);
            }
            parts.push(cur);
            cur = String::new();
            proof {
                assert(str_views(parts) =~~= pv.push(cv));
                assert(split_seq(s@, sep) =~~= pv + seq![cv + rest[0]] + rest.skip(1));
                assert(cv + rest[0] =~= cv);
                assert(rest.skip(1) =~~= rest2);
                assert(pv.push(cv) + seq![cur@ + rest2[0]] + rest2.skip(1) =~~= pv + seq![cv]
                    + seq![rest2[0]] + rest2.skip(1));
                assert(seq![rest2[0]] + rest2.skip(1) =~~= rest2);
                assert(split_seq(s@, sep) =~~= str_views(parts) + seq![cur@ + rest2[0]]
                    + rest2.skip(1));
            }
        } else {
            let ghost cv = cur@;
            proof {
                assert(rest =~~= seq![seq![s@[i as int]] + rest2[0]] + rest2.skip(1));
                assert(rest[0] =~= seq![s@[i as int]] + rest2[0]);
            }
            push_char(&mut cur, c);
            proof {
                assert(cur@ =~= cv + seq![s@[i as int]]);
                assert(cv + rest[0] =~= cur@ + rest2[0]);
                assert(rest.skip(1) =~~= rest2.skip(1));
                assert(split_seq(s@, sep) =~~= str_views(parts) + seq![cur@ + rest2[0]]
                    + rest2.skip(1));
            }
        }
        i = i + 1;
    }
    let ghost pv = str_views(parts);
    let ghost cv = cur@;
    proof {
        assert(s@.skip(n as int) =~= Seq::<char>::empty());
        assert(split_seq(s@.skip(n as int), sep) =~~= seq![Seq::<char>::empty()]);
        assert(cv + split_seq(s@.skip(n as int), sep)[0] =~= cv);
        assert(split_seq(s@, sep) =~~= pv + seq![cv]);
    }
    parts.push(cur);
    proof {
        assert(str_views(parts) =~~= pv.push(cv));
        assert(pv.push(cv) =~~= pv + seq![cv]);
    }
    parts
}

} // verus!
