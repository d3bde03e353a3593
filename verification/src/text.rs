//! Character-level helpers shared by the parser and the command builder.

use vstd::prelude::*;
use vstd::std_specs::iter::IteratorSpec;

verus! {

broadcast use vstd::string::group_string_axioms;

/// Appends one character to a `String` (std's `String::push`).
/// Trusted: the new contents are the old contents followed by `c`.
#[verifier::external_body]
pub(crate) fn string_push(s: &mut String, c: char)
    ensures
        final(s)@ == old(s)@.push(c),
{
    s.push(c);
}

/// The characters of `s`, in order.
pub fn str_to_chars(s: &str) -> (res: Vec<char>)
    ensures
        res@ == s@,
{
    let mut res: Vec<char> = Vec::new();
    let mut it = s.chars();
    loop
        invariant
            s@ == res@ + it.remaining(),
            it.decrease() is Some,
        ensures
            res@ == s@,
        decreases it.decrease()->0,
    {
        match it.next() {
            Some(c) => {
                res.push(c);
            },
            None => {
                break ;
            },
        }
    }
    res
}

/// A `String` holding exactly the characters of `v`.
pub fn chars_to_string(v: &Vec<char>) -> (res: String)
    ensures
        res@ == v@,
{
    let mut res = String::new();
    let mut i: usize = 0;
    while i < v.len()
        invariant
            i <= v.len(),
            res@ == v@.take(i as int),
        decreases v.len() - i,
    {
        string_push(&mut res, v[i]);
        i = i + 1;
        assert(res@ == v@.take(i as int));
    }
    assert(v@.take(v.len() as int) == v@);
    res
}

/// The characters that `char::is_whitespace` accepts: those with the Unicode
/// `White_Space` property.
pub open spec fn is_ws(c: char) -> bool {
    let u = c as u32;
    ||| 0x09 <= u <= 0x0D
    ||| u == 0x20
    ||| u == 0x85
    ||| u == 0xA0
    ||| u == 0x1680
    ||| 0x2000 <= u <= 0x200A
    ||| u == 0x2028
    ||| u == 0x2029
    ||| u == 0x202F
    ||| u == 0x205F
    ||| u == 0x3000
}

/// Whether `c` is whitespace in the sense of `is_ws`.
pub fn is_whitespace(c: char) -> (res: bool)
    ensures
        res == is_ws(c),
{
    let u = c as u32;
    (0x09 <= u && u <= 0x0D) || u == 0x20 || u == 0x85 || u == 0xA0 || u == 0x1680 || (0x2000
        <= u && u <= 0x200A) || u == 0x2028 || u == 0x2029 || u == 0x202F || u == 0x205F || u
        == 0x3000
}


/// The predicate `is_ws` as a value.
pub open spec fn ws_pred() -> spec_fn(char) -> bool {
    |c: char| is_ws(c)
}

/// The predicate "is not whitespace" as a value.
pub open spec fn non_ws_pred() -> spec_fn(char) -> bool {
    |c: char| !is_ws(c)
}

/// The predicate "differs from `c`" as a value.
pub open spec fn not_char_pred(c: char) -> spec_fn(char) -> bool {
    |x: char| x != c
}

/// How many characters at the front of `s` satisfy `p`, one after another.
pub open spec fn lead_count(s: Seq<char>, p: spec_fn(char) -> bool) -> nat
    decreases s.len(),
{
    if s.len() > 0 && p(s[0]) {
        1 + lead_count(s.drop_first(), p)
    } else {
        0
    }
}

/// How many characters at the back of `s` satisfy `p`, one after another.
pub open spec fn trail_count(s: Seq<char>, p: spec_fn(char) -> bool) -> nat
    decreases s.len(),
{
    if s.len() > 0 && p(s.last()) {
        1 + trail_count(s.drop_last(), p)
    } else {
        0
    }
}

/// `s` without its leading and trailing whitespace (`str::trim`).
pub open spec fn trim(s: Seq<char>) -> Seq<char> {
    let t = s.skip(lead_count(s, ws_pred()) as int);
    t.take(t.len() - trail_count(t, ws_pred()))
}

/// The position of the first `c` in `s`, or `s.len()` where there is none.
pub open spec fn index_of_char(s: Seq<char>, c: char) -> nat {
    lead_count(s, not_char_pred(c))
}

/// The position of the first whitespace character of `s`, or `s.len()`.
pub open spec fn index_of_ws(s: Seq<char>) -> nat {
    lead_count(s, non_ws_pred())
}

pub proof fn lemma_lead_count_bound(s: Seq<char>, p: spec_fn(char) -> bool)
    ensures
        lead_count(s, p) <= s.len(),
        forall|k: int| 0 <= k < lead_count(s, p) ==> p(#[trigger] s[k]),
        lead_count(s, p) < s.len() ==> !p(s[lead_count(s, p) as int]),
    decreases s.len(),
{
    if s.len() > 0 && p(s[0]) {
        lemma_lead_count_bound(s.drop_first(), p);
        assert forall|k: int| 0 <= k < lead_count(s, p) implies p(#[trigger] s[k]) by {
            if k > 0 {
                assert(s[k] == s.drop_first()[k - 1]);
            }
        }
    }
}

pub proof fn lemma_trail_count_bound(s: Seq<char>, p: spec_fn(char) -> bool)
    ensures
        trail_count(s, p) <= s.len(),
        forall|k: int| s.len() - trail_count(s, p) <= k < s.len() ==> p(#[trigger] s[k]),
        trail_count(s, p) < s.len() ==> !p(s[s.len() - trail_count(s, p) - 1]),
    decreases s.len(),
{
    if s.len() > 0 && p(s.last()) {
        lemma_trail_count_bound(s.drop_last(), p);
        assert forall|k: int| s.len() - trail_count(s, p) <= k < s.len() implies p(
            #[trigger] s[k],
        ) by {
            if k < s.len() - 1 {
                assert(s[k] == s.drop_last()[k]);
            }
        }
        if trail_count(s, p) < s.len() {
            assert(s[s.len() - trail_count(s, p) - 1] == s.drop_last()[s.drop_last().len()
                - trail_count(s.drop_last(), p) - 1]);
        }
    }
}

/// `trim(s)` is the part of `s` from its first to its last character that is
/// not whitespace: a contiguous piece of `s`, empty where `s` is all
/// whitespace, otherwise starting and ending with a character that is not.
pub proof fn lemma_trim_shape(s: Seq<char>)
    ensures
        0 <= lead_count(s, ws_pred()) <= s.len(),
        lead_count(s, ws_pred()) + trim(s).len() <= s.len(),
        trim(s) == s.subrange(
            lead_count(s, ws_pred()) as int,
            (lead_count(s, ws_pred()) + trim(s).len()) as int,
        ),
        trim(s).len() > 0 ==> !is_ws(trim(s)[0]) && !is_ws(trim(s).last()),
        (exists|i: int| 0 <= i < s.len() && !is_ws(#[trigger] s[i])) ==> trim(s).len() > 0,
{
    let a = lead_count(s, ws_pred());
    lemma_lead_count_bound(s, ws_pred());
    let t = s.skip(a as int);
    lemma_trail_count_bound(t, ws_pred());
    let n = t.len() - trail_count(t, ws_pred());
    assert(trim(s) == t.take(n));
    assert(t.take(n) == s.subrange(a as int, a + n));
    if n > 0 {
        assert(trim(s)[0] == s[a as int]);
        assert(!ws_pred()(s[a as int]));
        assert(trim(s).last() == t[n - 1]);
        assert(!ws_pred()(t[t.len() - trail_count(t, ws_pred()) - 1]));
    }
    if exists|i: int| 0 <= i < s.len() && !is_ws(#[trigger] s[i]) {
        let i = choose|i: int| 0 <= i < s.len() && !is_ws(#[trigger] s[i]);
        assert(i >= a) by {
            if i < a {
                assert(ws_pred()(s[i]));
            }
        }
        assert(t[i - a] == s[i]);
        assert(n > i - a) by {
            if n <= i - a {
                assert(ws_pred()(t[i - a]));
            }
        }
    }
}

/// A sequence that is empty, or starts and ends with a character that is not
/// whitespace, is its own trim.
pub proof fn lemma_trim_fixed(s: Seq<char>)
    requires
        s.len() == 0 || (!is_ws(s[0]) && !is_ws(s.last())),
    ensures
        trim(s) == s,
{
    lemma_lead_count_at(s, ws_pred(), 0);
    assert(s.skip(0) == s);
    lemma_trail_count_at(s, ws_pred(), s.len() as int);
    assert(s.take(s.len() as int) == s);
}

/// Trimming twice is trimming once.
pub proof fn law_trim_idempotent(s: Seq<char>)
    ensures
        trim(trim(s)) == trim(s),
{
    lemma_trim_shape(s);
    lemma_trim_fixed(trim(s));
}

/// The leading count is the first position whose character fails `p`.
pub proof fn lemma_lead_count_at(s: Seq<char>, p: spec_fn(char) -> bool, i: int)
    requires
        0 <= i <= s.len(),
        forall|k: int| 0 <= k < i ==> p(#[trigger] s[k]),
        i < s.len() ==> !p(s[i]),
    ensures
        lead_count(s, p) == i,
    decreases i,
{
    if i > 0 {
        assert forall|k: int| 0 <= k < i - 1 implies p(#[trigger] s.drop_first()[k]) by {
            assert(s.drop_first()[k] == s[k + 1]);
        }
        lemma_lead_count_at(s.drop_first(), p, i - 1);
    }
}

/// The trailing count is the length after the last position whose character fails `p`.
pub proof fn lemma_trail_count_at(s: Seq<char>, p: spec_fn(char) -> bool, j: int)
    requires
        0 <= j <= s.len(),
        forall|k: int| j <= k < s.len() ==> p(#[trigger] s[k]),
        j > 0 ==> !p(s[j - 1]),
    ensures
        trail_count(s, p) == s.len() - j,
    decreases s.len() - j,
{
    if j < s.len() {
        assert forall|k: int| j <= k < s.len() - 1 implies p(#[trigger] s.drop_last()[k]) by {
            assert(s.drop_last()[k] == s[k]);
        }
        lemma_trail_count_at(s.drop_last(), p, j);
    }
}

/// The characters of `v` from `lo` up to `hi`.
pub fn copy_range(v: &Vec<char>, lo: usize, hi: usize) -> (res: Vec<char>)
    requires
        lo <= hi <= v.len(),
    ensures
        res@ == v@.subrange(lo as int, hi as int),
{
    let mut res: Vec<char> = Vec::new();
    let mut i = lo;
    while i < hi
        invariant
            lo <= i <= hi <= v.len(),
            res@ == v@.subrange(lo as int, i as int),
        decreases hi - i,
    {
        res.push(v[i]);
        i = i + 1;
        assert(res@ == v@.subrange(lo as int, i as int));
    }
    res
}

/// `str::trim` on a sequence of characters.
pub fn trim_chars(s: &Vec<char>) -> (res: Vec<char>)
    ensures
        res@ == trim(s@),
{
    let mut i: usize = 0;
    while i < s.len() && is_whitespace(s[i])
        invariant
            i <= s.len(),
            forall|k: int| 0 <= k < i ==> is_ws(#[trigger] s@[k]),
        decreases s.len() - i,
    {
        i = i + 1;
    }
    proof {
        lemma_lead_count_at(s@, ws_pred(), i as int);
    }
    let mut j: usize = s.len();
    while j > i && is_whitespace(s[j - 1])
        invariant
            i <= j <= s.len(),
            forall|k: int| j <= k < s.len() ==> is_ws(#[trigger] s@[k]),
        decreases j - i,
    {
        j = j - 1;
    }
    proof {
        let t = s@.skip(i as int);
        assert forall|k: int| j - i <= k < t.len() implies ws_pred()(#[trigger] t[k]) by {
            assert(t[k] == s@[k + i]);
        }
        if j > i {
            assert(t[j - i - 1] == s@[j - 1]);
        }
        lemma_trail_count_at(t, ws_pred(), j - i);
        assert(t.take(t.len() - trail_count(t, ws_pred())) == s@.subrange(i as int, j as int));
    }
    copy_range(s, i, j)
}

/// The position of the first `c` in `s`, or its length.
pub fn find_char(s: &Vec<char>, c: char) -> (res: usize)
    ensures
        res == index_of_char(s@, c),
{
    let mut i: usize = 0;
    while i < s.len() && s[i] != c
        invariant
            i <= s.len(),
            forall|k: int| 0 <= k < i ==> #[trigger] s@[k] != c,
        decreases s.len() - i,
    {
        i = i + 1;
    }
    proof {
        lemma_lead_count_at(s@, not_char_pred(c), i as int);
    }
    i
}

/// The position of the first whitespace character of `s`, or its length.
pub fn find_whitespace(s: &Vec<char>) -> (res: usize)
    ensures
        res == index_of_ws(s@),
{
    let mut i: usize = 0;
    while i < s.len() && !is_whitespace(s[i])
        invariant
            i <= s.len(),
            forall|k: int| 0 <= k < i ==> !is_ws(#[trigger] s@[k]),
        decreases s.len() - i,
    {
        i = i + 1;
    }
    proof {
        lemma_lead_count_at(s@, non_ws_pred(), i as int);
    }
    i
}

/// Whether `c` occurs in `s`.
pub fn contains_char(s: &Vec<char>, c: char) -> (res: bool)
    ensures
        res == s@.contains(c),
{
    let i = find_char(s, c);
    proof {
        lemma_lead_count_bound(s@, not_char_pred(c));
        if !(i < s.len()) {
            assert forall|k: int| 0 <= k < s@.len() implies s@[k] != c by {
                assert(not_char_pred(c)(s@[k]));
            }
        }
    }
    i < s.len()
}

/// Whether `v` holds exactly the characters of `lit`.
pub fn chars_eq_str(v: &Vec<char>, lit: &str) -> (res: bool)
    ensures
        res == (v@ == lit@),
{
    let w = str_to_chars(lit);
    if v.len() != w.len() {
        return false;
    }
    let mut i: usize = 0;
    while i < v.len()
        invariant
            i <= v.len(),
            v.len() == w.len(),
            w@ == lit@,
            forall|k: int| 0 <= k < i ==> v@[k] == w@[k],
        decreases v.len() - i,
    {
        if v[i] != w[i] {
            return false;
        }
        i = i + 1;
    }
    assert(v@ == w@);
    true
}


/// Whether `c` is one of the ASCII digits `0` to `9`.
pub open spec fn is_digit(c: char) -> bool {
    '0' <= c <= '9'
}

/// The value of the ASCII digit `c`.
pub open spec fn digit_value(c: char) -> nat {
    (c as int - '0' as int) as nat
}

/// The ASCII digit whose value is `d` (for `d < 10`).
pub open spec fn digit_char(d: nat) -> char {
    (d + '0' as int) as char
}

/// The decimal numeral of `n`, without sign or leading zeros (`n.to_string()`).
pub open spec fn decimal(n: nat) -> Seq<char>
    decreases n,
{
    if n < 10 {
        seq![digit_char(n)]
    } else {
        decimal(n / 10).push(digit_char(n % 10))
    }
}

/// The value of a run of decimal digits, most significant first.
pub open spec fn digits_value(s: Seq<char>) -> nat
    decreases s.len(),
{
    if s.len() == 0 {
        0
    } else {
        digits_value(s.drop_last()) * 10 + digit_value(s.last())
    }
}

/// Whether every character of `s` is an ASCII digit.
pub open spec fn all_digits(s: Seq<char>) -> bool {
    forall|i: int| 0 <= i < s.len() ==> is_digit(#[trigger] s[i])
}

/// What `str::parse` gives for an unsigned integer type without an upper
/// bound: an optional `+`, then one or more ASCII digits.
pub open spec fn parse_unsigned(s: Seq<char>) -> Option<nat> {
    let d = if s.len() > 0 && s[0] == '+' {
        s.drop_first()
    } else {
        s
    };
    if d.len() > 0 && all_digits(d) {
        Some(digits_value(d))
    } else {
        None
    }
}

/// What `str::parse` gives for an unsigned integer type whose largest value is
/// `max`: `parse_unsigned`, refused where the value is above `max`.
pub open spec fn parse_bounded(s: Seq<char>, max: nat) -> Option<nat> {
    match parse_unsigned(s) {
        Some(v) => if v <= max {
            Some(v)
        } else {
            None
        },
        None => None,
    }
}

/// The ASCII digit for `d`.
fn digit_to_char(d: u64) -> (c: char)
    requires
        d < 10,
    ensures
        c == digit_char(d as nat),
        is_digit(c),
        digit_value(c) == d,
{
    match d {
        0 => '0',
        1 => '1',
        2 => '2',
        3 => '3',
        4 => '4',
        5 => '5',
        6 => '6',
        7 => '7',
        8 => '8',
        _ => '9',
    }
}

/// Appends the decimal numeral of `n` to `s`.
pub fn push_decimal(s: &mut String, n: u64)
    ensures
        final(s)@ == old(s)@ + decimal(n as nat),
    decreases n,
{
    if n >= 10 {
        push_decimal(s, n / 10);
    }
    let c = digit_to_char(n % 10);
    string_push(s, c);
}


/// A longer run of digits never has a smaller value than its prefixes.
pub proof fn lemma_digits_value_prefix(s: Seq<char>, k: int)
    requires
        0 <= k <= s.len(),
    ensures
        digits_value(s) >= digits_value(s.take(k)),
    decreases s.len(),
{
    if k < s.len() {
        assert(s.drop_last().take(k) == s.take(k));
        lemma_digits_value_prefix(s.drop_last(), k);
    } else {
        assert(s.take(k) == s);
    }
}

/// `str::parse` into an unsigned integer type whose largest value is `max`.
pub fn parse_decimal_bounded(s: &Vec<char>, max: u32) -> (res: Option<u32>)
    ensures
        match parse_bounded(s@, max as nat) {
            Some(v) => res == Some(v as u32),
            None => res is None,
        },
{
    let start: usize = if s.len() > 0 && s[0] == '+' {
        1
    } else {
        0
    };
    let ghost d = if s@.len() > 0 && s@[0] == '+' {
        s@.drop_first()
    } else {
        s@
    };
    assert(d == s@.skip(start as int));
    if start >= s.len() {
        return None;
    }
    let mut acc: u64 = 0;
    let mut i: usize = start;
    while i < s.len()
        invariant
            start <= i <= s.len(),
            start < s.len(),
            d == s@.skip(start as int),
            d == (if s@.len() > 0 && s@[0] == '+' {
                s@.drop_first()
            } else {
                s@
            }),
            acc <= max,
            acc == digits_value(d.take(i - start)),
            all_digits(d.take(i - start)),
        decreases s.len() - i,
    {
        let c = s[i];
        assert(c == d[i - start]);
        if !('0' <= c && c <= '9') {
            assert(!all_digits(d));
            return None;
        }
        let dv = (c as u32 - '0' as u32) as u64;
        assert(d.take(i + 1 - start).drop_last() == d.take(i - start));
        acc = acc * 10 + dv;
        assert(all_digits(d.take(i + 1 - start)));
        if acc > max as u64 {
            proof {
                if all_digits(d) {
                    lemma_digits_value_prefix(d, i + 1 - start);
                }
            }
            return None;
        }
        i = i + 1;
    }
    assert(d.take(s.len() - start) == d);
    Some(acc as u32)
}


proof fn lemma_decimal_digits(n: nat)
    ensures
        decimal(n).len() > 0,
        all_digits(decimal(n)),
        digits_value(decimal(n)) == n,
    decreases n,
{
    lemma_digit_char(n % 10);
    if n >= 10 {
        lemma_decimal_digits(n / 10);
        assert(decimal(n).drop_last() == decimal(n / 10));
        assert(n == (n / 10) * 10 + n % 10);
        assert(decimal(n).last() == digit_char(n % 10));
        assert(digits_value(decimal(n)) == digits_value(decimal(n / 10)) * 10 + digit_value(
            digit_char(n % 10),
        ));
    } else {
        assert(decimal(n).drop_last() == Seq::<char>::empty());
        assert(digits_value(Seq::<char>::empty()) == 0);
    }
}

proof fn lemma_digit_char(d: nat)
    requires
        d < 10,
    ensures
        is_digit(digit_char(d)),
        digit_value(digit_char(d)) == d,
{
    if d == 0 { assert(digit_char(d) == '0'); }
    else if d == 1 { assert(digit_char(d) == '1'); }
    else if d == 2 { assert(digit_char(d) == '2'); }
    else if d == 3 { assert(digit_char(d) == '3'); }
    else if d == 4 { assert(digit_char(d) == '4'); }
    else if d == 5 { assert(digit_char(d) == '5'); }
    else if d == 6 { assert(digit_char(d) == '6'); }
    else if d == 7 { assert(digit_char(d) == '7'); }
    else if d == 8 { assert(digit_char(d) == '8'); }
    else { assert(digit_char(d) == '9'); }
}

/// Reading back the decimal numeral of a number gives the number: what
/// `to_string` writes, `str::parse` reads.
pub proof fn law_decimal_roundtrip(n: nat)
    ensures
        parse_unsigned(decimal(n)) == Some(n),
        forall|max: nat| n <= max ==> parse_bounded(decimal(n), max) == Some(n),
{
    lemma_decimal_digits(n);
    assert(is_digit(decimal(n)[0]));
}

} // verus!
