use vstd::prelude::*;
use vstd::utf8::*;

verus! {

broadcast use vstd::string::group_string_axioms;

/// The characters of `s`.
pub fn chars_of(s: &str) -> (r: Vec<char>)
    ensures
        r@ == s@,
{
    let mut out: Vec<char> = Vec::new();
    for c in it: s.chars()
        invariant
            out@ == it.seq().take(it.index() as int),
    {
        out.push(c);
    }
    assert(out@ =~= s@);
    out
}

/// The Unicode `White_Space` property, which `char::is_whitespace` tests.
pub open spec fn is_white_space(c: char) -> bool {
    let u = c as u32;
    ||| 0x09 <= u <= 0x0D
    ||| u == 0x20
    ||| u == 0x85
    ||| u == 0xA0
    ||| u == 0x1680
    ||| 0x2000 <= u <= 0x200A
    ||| u == 0x2028
    ||| u == 0x2029
    ||| u == 0x202F
    ||| u == 0x205F
    ||| u == 0x3000
}

/// Whether `c` has the Unicode `White_Space` property.
pub fn is_whitespace_char(c: char) -> (r: bool)
    ensures
        r == is_white_space(c),
{
    let u = c as u32;
    (0x09 <= u && u <= 0x0D) || u == 0x20 || u == 0x85 || u == 0xA0 || u == 0x1680 || (0x2000
        <= u && u <= 0x200A) || u == 0x2028 || u == 0x2029 || u == 0x202F || u == 0x205F || u
        == 0x3000
}

/// The maximal runs of non-white-space characters of `s`, in order: what
/// `str::split_whitespace` yields.
pub open spec fn words(s: Seq<char>) -> Seq<Seq<char>>
    decreases s.len(),
{
    if s.len() == 0 {
        Seq::empty()
    } else {
        let w = words(s.drop_last());
        let c = s.last();
        if is_white_space(c) {
            w
        } else if s.len() == 1 || is_white_space(s[s.len() - 2]) {
            w.push(seq![c])
        } else {
            w.update(w.len() - 1, w.last().push(c))
        }
    }
}

/// Splits `s` into its maximal runs of non-white-space characters.
pub fn split_whitespace(s: &[char]) -> (r: Vec<Vec<char>>)
    ensures
        r@.map_values(|w: Vec<char>| w@) == words(s@),
{
    let mut out: Vec<Vec<char>> = Vec::new();
    let mut cur: Vec<char> = Vec::new();
    let mut i: usize = 0;
    while i < s.len()
        invariant
            i <= s.len(),
            i == 0 || is_white_space(s@[i - 1]) ==> cur@.len() == 0 && out@.map_values(
                |w: Vec<char>| w@,
            ) == words(s@.take(i as int)),
            i > 0 && !is_white_space(s@[i - 1]) ==> cur@.len() > 0 && out@.map_values(
                |w: Vec<char>| w@,
            ).push(cur@) == words(s@.take(i as int)),
        decreases s.len() - i,
    {
        let c = s[i];
        let ghost prev = s@.take(i as int);
        assert(s@.take(i + 1).drop_last() =~= prev);
        assert(s@.take(i + 1).last() == c);
        if is_whitespace_char(c) {
            if cur.len() > 0 {
                let ghost before = out@.map_values(|w: Vec<char>| w@);
                let ghost cv = cur@;
                out.push(cur);
                cur = Vec::new();
                assert(out@.map_values(|w: Vec<char>| w@) =~= before.push(cv));
            }
        } else {
            if i > 0 {
                assert(s@.take(i + 1)[i - 1] == s@[i - 1]);
            }
            let ghost before = out@.map_values(|w: Vec<char>| w@);
            let ghost cur_before = cur@;
            cur.push(c);
            if i > 0 && !is_whitespace_char(s[i - 1]) {
                assert(before.push(cur_before).update(before.len() as int, cur_before.push(c))
                    =~= before.push(cur@));
            } else {
                assert(cur@ =~= seq![c]);
            }
        }
        i = i + 1;
    }
    assert(s@.take(s.len() as int) =~= s@);
    if cur.len() > 0 {
        let ghost before = out@.map_values(|w: Vec<char>| w@);
        let ghost cv = cur@;
        out.push(cur);
        assert(out@.map_values(|w: Vec<char>| w@) =~= before.push(cv));
    }
    assert(out@.map_values(|w: Vec<char>| w@) =~= words(s@));
    out
}

/// Appending one character appends its encoding.
pub proof fn lemma_encode_utf8_push(s: Seq<char>, c: char)
    ensures
        encode_utf8(s.push(c)) == encode_utf8(s) + encode_scalar(c as u32),
    decreases s.len(),
{
    if s.len() == 0 {
        assert(s.push(c).drop_first() =~= Seq::<char>::empty());
        assert(encode_utf8(Seq::<char>::empty()) =~= Seq::<u8>::empty());
        assert(encode_scalar(c as u32) + Seq::<u8>::empty() =~= encode_scalar(c as u32));
    } else {
        lemma_encode_utf8_push(s.drop_first(), c);
        assert(s.push(c).drop_first() =~= s.drop_first().push(c));
        assert(s.push(c)[0] == s[0]);
        assert(encode_scalar(s[0] as u32) + (encode_utf8(s.drop_first()) + encode_scalar(c as u32))
            =~= (encode_scalar(s[0] as u32) + encode_utf8(s.drop_first())) + encode_scalar(c as u32));
    }
}

/// The UTF-8 encoding of `chars`: the bytes of the string they make up.
pub fn encode_utf8_chars(chars: &[char]) -> (r: Vec<u8>)
    ensures
        r@ == encode_utf8(chars@),
{
    let mut out: Vec<u8> = Vec::new();
    let mut i: usize = 0;
    assert(chars@.take(0) =~= Seq::<char>::empty());
    while i < chars.len()
        invariant
            i <= chars.len(),
            out@ == encode_utf8(chars@.take(i as int)),
        decreases chars.len() - i,
    {
        let c = chars[i];
        let u = c as u32;
        proof {
            vstd::utf8::char_is_scalar(c);
            lemma_encode_utf8_push(chars@.take(i as int), c);
            assert(chars@.take(i + 1) =~= chars@.take(i as int).push(c));
        }
        let ghost before = out@;
        if u <= 0x7F {
            out.push((u & 0x7F) as u8);
        } else if u <= 0x7FF {
            out.push(0xC0u8 | ((u >> 6) & 0x1F) as u8);
            out.push(0x80u8 | (u & 0x3F) as u8);
        } else if u <= 0xFFFF {
            out.push(0xE0u8 | ((u >> 12) & 0x0F) as u8);
            out.push(0x80u8 | ((u >> 6) & 0x3F) as u8);
            out.push(0x80u8 | (u & 0x3F) as u8);
        } else {
            out.push(0xF0u8 | ((u >> 18) & 0x7) as u8);
            out.push(0x80u8 | ((u >> 12) & 0x3F) as u8);
            out.push(0x80u8 | ((u >> 6) & 0x3F) as u8);
            out.push(0x80u8 | (u & 0x3F) as u8);
        }
        assert(out@ =~= before + encode_scalar(u));
        i = i + 1;
    }
    assert(chars@.take(chars.len() as int) =~= chars@);
    out
}

/// An ASCII decimal digit.
pub open spec fn is_decimal_digit(c: char) -> bool {
    '0' <= c <= '9'
}

/// The value of a string of decimal digits.
pub open spec fn decimal_value(s: Seq<char>) -> nat
    decreases s.len(),
{
    if s.len() == 0 {
        0
    } else {
        decimal_value(s.drop_last()) * 10 + (s.last() as nat - '0' as nat) as nat
    }
}

/// `s` without one leading `+`, if it has one.
pub open spec fn strip_plus(s: Seq<char>) -> Seq<char> {
    if s.len() > 0 && s[0] == '+' {
        s.drop_first()
    } else {
        s
    }
}

/// What `str::parse::<u32>` gives: an optional leading `+`, then one or more
/// decimal digits whose value fits in a `u32`.
pub open spec fn parse_u32_spec(s: Seq<char>) -> Option<u32> {
    let digits = strip_plus(s);
    if digits.len() == 0 || !(forall|i: int| 0 <= i < digits.len() ==> is_decimal_digit(#[trigger] digits[i]))
        || decimal_value(digits) > u32::MAX {
        None
    } else {
        Some(decimal_value(digits) as u32)
    }
}

/// The value of a digit string, or 2^32 where it exceeds `u32::MAX`.
pub open spec fn capped_value(s: Seq<char>) -> u64 {
    if decimal_value(s) < 0x1_0000_0000 {
        decimal_value(s) as u64
    } else {
        0x1_0000_0000
    }
}

/// Parses a decimal `u32` as `str::parse` does.
pub fn parse_u32(s: &[char]) -> (r: Option<u32>)
    ensures
        r == parse_u32_spec(s@),
{
    let start: usize = if s.len() > 0 && s[0] == '+' {
        1
    } else {
        0
    };
    let ghost digits = s@.subrange(start as int, s@.len() as int);
    assert(start == 1 ==> digits =~= s@.drop_first());
    assert(start == 0 ==> digits =~= s@);
    if start == s.len() {
        return None;
    }
    let cap: u64 = 0x1_0000_0000;
    let mut v: u64 = 0;
    let mut i: usize = start;
    while i < s.len()
        invariant
            start <= i <= s.len(),
            digits == s@.subrange(start as int, s@.len() as int),
            forall|j: int| 0 <= j < i - start ==> is_decimal_digit(#[trigger] digits[j]),
            v == capped_value(digits.take(i - start)),
            cap == 0x1_0000_0000u64,
            digits == strip_plus(s@),
            start == (if s@.len() > 0 && s@[0] == '+' { 1usize } else { 0usize }),
        decreases s.len() - i,
    {
        let c = s[i];
        if !('0' <= c && c <= '9') {
            assert(digits[i - start] == c);
            assert(!is_decimal_digit(strip_plus(s@)[i - start]));
            return None;
        }
        let d = (c as u32 - '0' as u32) as u64;
        assert(digits.take(i + 1 - start).drop_last() =~= digits.take(i - start));
        assert(digits.take(i + 1 - start).last() == c);
        assert(v <= cap);
        assert(d <= 9);
        let nv = v * 10 + d;
        v = if nv < cap {
            nv
        } else {
            cap
        };
        i = i + 1;
    }
    assert(digits.take(i - start) =~= digits);
    if v < cap {
        Some(v as u32)
    } else {
        None
    }
}

} // verus!
