//! Decimal formatting and parsing of share indices and round numbers.
//!
//! Round numbers travel on the wire as decimal strings, and the abort
//! sentinel appends the decimal round number to a fixed byte prefix, so the
//! library needs its own verified decimal conversions in both directions.

use vstd::prelude::*;

verus! {

/// The decimal digit character for one digit value.
pub open spec fn digit_char(d: int) -> char {
    if d == 0 {
        '0'
    } else if d == 1 {
        '1'
    } else if d == 2 {
        '2'
    } else if d == 3 {
        '3'
    } else if d == 4 {
        '4'
    } else if d == 5 {
        '5'
    } else if d == 6 {
        '6'
    } else if d == 7 {
        '7'
    } else if d == 8 {
        '8'
    } else {
        '9'
    }
}

/// The decimal representation of `n`, most significant digit first.
pub open spec fn dec_chars(n: nat) -> Seq<char>
    decreases n,
{
    if n < 10 {
        seq![digit_char(n as int)]
    } else {
        dec_chars(n / 10) + seq![digit_char((n % 10) as int)]
    }
}

/// The ASCII byte of one decimal digit value.
pub open spec fn digit_byte(d: int) -> u8 {
    (48 + d) as u8
}

/// The ASCII decimal representation of `n`, most significant digit first.
pub open spec fn dec_bytes(n: nat) -> Seq<u8>
    decreases n,
{
    if n < 10 {
        seq![digit_byte(n as int)]
    } else {
        dec_bytes(n / 10) + seq![digit_byte((n % 10) as int)]
    }
}

/// One decimal digit as a string slice.
fn digit_str(d: usize) -> (r: &'static str)
    requires
        d < 10,
    ensures
        r@ == seq![digit_char(d as int)],
{
    proof {
        reveal_strlit("0");
        reveal_strlit("1");
        reveal_strlit("2");
        reveal_strlit("3");
        reveal_strlit("4");
        reveal_strlit("5");
        reveal_strlit("6");
        reveal_strlit("7");
        reveal_strlit("8");
        reveal_strlit("9");
    }
    let r = if d == 0 {
        "0"
    } else if d == 1 {
        "1"
    } else if d == 2 {
        "2"
    } else if d == 3 {
        "3"
    } else if d == 4 {
        "4"
    } else if d == 5 {
        "5"
    } else if d == 6 {
        "6"
    } else if d == 7 {
        "7"
    } else if d == 8 {
        "8"
    } else {
        "9"
    };
    proof {
        assert(r@ =~= seq![digit_char(d as int)]);
    }
    r
}

/// Renders `n` in decimal, as the transport's round tag expects.
pub fn usize_to_string(n: usize) -> (r: String)
    ensures
        r@ == dec_chars(n as nat),
    decreases n,
{
    if n < 10 {
        digit_str(n).to_owned()
    } else {
        let mut prefix = usize_to_string(n / 10);
        prefix.append(digit_str(n % 10));
        proof {
            assert(prefix@ =~= dec_chars(n as nat));
        }
        prefix
    }
}

/// Whether `c` is a decimal digit.
pub open spec fn is_digit(c: char) -> bool {
    48 <= c as u32 <= 57
}

/// The value of one decimal digit character.
pub open spec fn digit_val(c: char) -> int {
    c as u32 - 48
}

/// Whether every character of `s` is a decimal digit.
pub open spec fn all_digits(s: Seq<char>) -> bool {
    forall|i: int| 0 <= i < s.len() ==> is_digit(#[trigger] s[i])
}

/// The numeric value of a digit string, most significant digit first.
pub open spec fn dec_val(s: Seq<char>) -> int
    decreases s.len(),
{
    if s.len() == 0 {
        0
    } else {
        dec_val(s.drop_last()) * 10 + digit_val(s.last())
    }
}

/// A non-empty digit string whose value fits the machine word: exactly the
/// strings the index parser accepts.
pub open spec fn valid_number(s: Seq<char>) -> bool {
    s.len() > 0 && all_digits(s) && dec_val(s) <= usize::MAX
}

/// The index of the first comma in `s`, or `s.len()` when there is none.
pub open spec fn first_sep(s: Seq<char>) -> int
    decreases s.len(),
{
    if s.len() == 0 {
        0
    } else if s[0] == ',' {
        0
    } else {
        1 + first_sep(s.drop_first())
    }
}

/// `first_sep` points at the first comma: it stays within the string, the
/// character there (if any) is a comma, and no earlier character is one.
proof fn lemma_first_sep_char(s: Seq<char>)
    ensures
        0 <= first_sep(s) <= s.len(),
        first_sep(s) < s.len() ==> s[first_sep(s)] == ',',
        forall|k: int| 0 <= k < first_sep(s) ==> s[k] != ',',
    decreases s.len(),
{
    if s.len() == 0 {
    } else if s[0] == ',' {
    } else {
        lemma_first_sep_char(s.drop_first());
        let rest = s.drop_first();
        assert forall|k: int| 0 <= k < first_sep(s) implies s[k] != ',' by {
            if k > 0 {
                assert(rest[k - 1] != ',');
            }
        }
    }
}

/// The values of a comma-separated list of decimal numbers, or `None` when
/// any segment is empty, holds a non-digit, or overflows the machine word.
pub open spec fn spec_parse_list(s: Seq<char>) -> Option<Seq<usize>>
    decreases s.len(),
        via spec_parse_list_decreases
{
    let e = first_sep(s);
    let seg = s.subrange(0, e);
    if !valid_number(seg) {
        None
    } else if e == s.len() {
        Some(seq![dec_val(seg) as usize])
    } else {
        match spec_parse_list(s.subrange(e + 1, s.len() as int)) {
            Some(rest) => Some(seq![dec_val(seg) as usize] + rest),
            None => None,
        }
    }
}

#[via_fn]
proof fn spec_parse_list_decreases(s: Seq<char>) {
    lemma_first_sep_char(s);
}

/// The value of a digit string is never negative.
proof fn lemma_dec_val_nonneg(s: Seq<char>)
    requires
        all_digits(s),
    ensures
        dec_val(s) >= 0,
    decreases s.len(),
{
    if s.len() > 0 {
        assert(all_digits(s.drop_last())) by {
            assert(forall|i: int|
                0 <= i < s.len() - 1 ==> is_digit(#[trigger] s.drop_last()[i]) && s.drop_last()[i]
                    == s[i]);
        }
        lemma_dec_val_nonneg(s.drop_last());
        assert(is_digit(s.last()));
    }
}

/// A prefix of a digit string never exceeds the whole string's value.
proof fn lemma_dec_val_prefix_le(s: Seq<char>, j: int)
    requires
        all_digits(s),
        0 <= j <= s.len(),
    ensures
        dec_val(s.subrange(0, j)) <= dec_val(s),
    decreases s.len(),
{
    if j == s.len() {
        assert(s.subrange(0, j) =~= s);
    } else {
        let dl = s.drop_last();
        assert(all_digits(dl)) by {
            assert(forall|i: int|
                0 <= i < dl.len() ==> is_digit(#[trigger] dl[i]) && dl[i] == s[i]);
        }
        lemma_dec_val_prefix_le(dl, j);
        assert(dl.subrange(0, j) =~= s.subrange(0, j));
        lemma_dec_val_nonneg(dl);
        assert(dec_val(s) == dec_val(dl) * 10 + digit_val(s.last()));
        assert(dec_val(dl) * 10 >= dec_val(dl)) by {
            lemma_dec_val_nonneg(dl);
            assert(dec_val(dl) >= 0);
            assert(dec_val(dl) * 10 >= dec_val(dl) * 1) by (nonlinear_arith)
                requires
                    dec_val(dl) >= 0,
            ;
        }
        assert(is_digit(s.last()));
    }
}

/// Parses the digit segment `chars[start..end]` as a decimal number; rejects
/// an empty segment, a non-digit, and a value over the machine word.
fn parse_usize_segment(chars: &Vec<char>, start: usize, end: usize) -> (r: Option<usize>)
    requires
        start <= end <= chars@.len(),
    ensures
        ({
            let seg = chars@.subrange(start as int, end as int);
            match r {
                Some(n) => valid_number(seg) && n as int == dec_val(seg),
                None => !valid_number(seg),
            }
        }),
{
    let ghost seg = chars@.subrange(start as int, end as int);
    if start == end {
        return None;
    }
    let mut acc: usize = 0;
    let mut i: usize = start;
    while i < end
        invariant
            start <= i <= end <= chars@.len(),
            seg == chars@.subrange(start as int, end as int),
            seg.len() == end - start,
            acc as int == dec_val(seg.subrange(0, i - start)),
            all_digits(seg.subrange(0, i - start)),
        decreases end - i,
    {
        let c = chars[i];
        let d = c as u32;
        let ghost prefix = seg.subrange(0, i - start);
        let ghost prefix1 = seg.subrange(0, i + 1 - start);
        proof {
            assert(seg[i - start] == c);
            assert(prefix1.drop_last() =~= prefix);
            assert(prefix1.last() == c);
        }
        if d < 48 || d > 57 {
            proof {
                assert(!is_digit(seg[i - start]));
            }
            return None;
        }
        let digit = (d - 48) as usize;
        proof {
            assert(all_digits(prefix1)) by {
                assert(forall|k: int|
                    0 <= k < prefix1.len() - 1 ==> #[trigger] prefix1[k] == prefix[k]);
                assert(is_digit(prefix1.last()));
            }
            assert(dec_val(prefix1) == dec_val(prefix) * 10 + digit_val(c));
        }
        let shifted = match acc.checked_mul(10) {
            Some(m) => m,
            None => {
                proof {
                    assert(dec_val(prefix1) > usize::MAX);
                    assert(all_digits(seg) ==> dec_val(seg) > usize::MAX) by {
                        if all_digits(seg) {
                            lemma_dec_val_prefix_le(seg, i + 1 - start);
                        }
                    }
                }
                return None;
            },
        };
        let next = match shifted.checked_add(digit) {
            Some(a) => a,
            None => {
                proof {
                    assert(dec_val(prefix1) > usize::MAX);
                    assert(all_digits(seg) ==> dec_val(seg) > usize::MAX) by {
                        if all_digits(seg) {
                            lemma_dec_val_prefix_le(seg, i + 1 - start);
                        }
                    }
                }
                return None;
            },
        };
        acc = next;
        i = i + 1;
    }
    proof {
        assert(seg.subrange(0, end - start) =~= seg);
    }
    Some(acc)
}

/// Parses the comma-separated decimal list `chars[start..]`.
fn parse_list_from(chars: &Vec<char>, start: usize) -> (r: Option<Vec<usize>>)
    requires
        start <= chars@.len(),
    ensures
        ({
            let sfx = chars@.subrange(start as int, chars@.len() as int);
            match r {
                Some(v) => spec_parse_list(sfx) == Some(v@),
                None => spec_parse_list(sfx) is None,
            }
        }),
    decreases chars@.len() - start,
{
    let ghost sfx = chars@.subrange(start as int, chars@.len() as int);
    proof {
        lemma_first_sep_char(sfx);
    }
    let len = chars.len();
    let mut e: usize = start;
    while e < len && chars[e] != ','
        invariant
            start <= e <= len,
            len == chars@.len(),
            sfx == chars@.subrange(start as int, chars@.len() as int),
            forall|k: int| start <= k < e ==> #[trigger] chars@[k] != ',',
        decreases len - e,
    {
        e = e + 1;
    }
    proof {
        // the scan stopped exactly at the first separator of the suffix
        assert(forall|k: int| 0 <= k < e - start ==> #[trigger] sfx[k] != ',');
        if e < len {
            assert(sfx[e - start] == ',');
        }
        if first_sep(sfx) < e - start {
            assert(sfx[first_sep(sfx)] == ',');
            assert(false);
        }
        if first_sep(sfx) > e - start {
            assert(e < len);
            assert(false);
        }
        assert(first_sep(sfx) == e - start);
        assert(sfx.subrange(0, e - start) =~= chars@.subrange(start as int, e as int));
    }
    let n = match parse_usize_segment(chars, start, e) {
        Some(n) => n,
        None => {
            return None;
        },
    };
    if e == len {
        let mut v: Vec<usize> = Vec::new();
        v.push(n);
        proof {
            assert(v@ =~= seq![n]);
            assert(spec_parse_list(sfx) == Some(seq![n]));
        }
        Some(v)
    } else {
        proof {
            assert(sfx.subrange(e - start + 1, sfx.len() as int) =~= chars@.subrange(
                e + 1,
                chars@.len() as int,
            ));
        }
        match parse_list_from(chars, e + 1) {
            Some(mut v) => {
                let ghost tail = v@;
                v.insert(0, n);
                proof {
                    assert(v@ =~= seq![n] + tail);
                }
                Some(v)
            },
            None => None,
        }
    }
}

/// Collects the characters of `s` into a vector.
fn str_to_chars(s: &str) -> (r: Vec<char>)
    ensures
        r@ == s@,
{
    let len = s.unicode_len();
    let mut v: Vec<char> = Vec::new();
    let mut i: usize = 0;
    while i < len
        invariant
            i <= len,
            len == s@.len(),
            v@ =~= s@.subrange(0, i as int),
        decreases len - i,
    {
        v.push(s.get_char(i));
        i = i + 1;
    }
    proof {
        assert(s@.subrange(0, len as int) =~= s@);
    }
    v
}

/// Parses a comma-separated list of share indices, as the operator supplies
/// them; rejects empty segments, non-digits, and values over the machine
/// word.
pub fn parse_index_list(s: &str) -> (r: Option<Vec<usize>>)
    ensures
        match r {
            Some(v) => spec_parse_list(s@) == Some(v@),
            None => spec_parse_list(s@) is None,
        },
{
    let chars = str_to_chars(s);
    proof {
        assert(chars@.subrange(0, chars@.len() as int) =~= s@);
    }
    parse_list_from(&chars, 0)
}

/// Renders `n` as ASCII decimal bytes, as the abort sentinel suffix expects.
pub fn usize_to_dec_bytes(n: usize) -> (r: Vec<u8>)
    ensures
        r@ == dec_bytes(n as nat),
    decreases n,
{
    if n < 10 {
        let mut v: Vec<u8> = Vec::new();
        v.push(48 + n as u8);
        proof {
            assert(v@ =~= dec_bytes(n as nat));
        }
        v
    } else {
        let mut prefix = usize_to_dec_bytes(n / 10);
        prefix.push(48 + (n % 10) as u8);
        proof {
            assert(prefix@ =~= dec_bytes(n as nat));
        }
        prefix
    }
}

} // verus!
