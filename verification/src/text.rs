//! Text as the filter and the rows read it: white space, case, substrings,
//! byte lengths and decimal numbers.

use vstd::prelude::*;

verus! {

/// The characters with Unicode's White_Space property.
pub open spec fn white_space(c: char) -> bool {
    ||| '\u{9}' <= c <= '\u{d}'
    ||| c == '\u{20}'
    ||| c == '\u{85}'
    ||| c == '\u{a0}'
    ||| c == '\u{1680}'
    ||| '\u{2000}' <= c <= '\u{200a}'
    ||| '\u{2028}' <= c <= '\u{2029}'
    ||| c == '\u{202f}'
    ||| c == '\u{205f}'
    ||| c == '\u{3000}'
}

/// `s` without the white space it starts with.
pub open spec fn without_leading_space(s: Seq<char>) -> Seq<char>
    decreases s.len(),
{
    if s.len() > 0 && white_space(s[0]) {
        without_leading_space(s.drop_first())
    } else {
        s
    }
}

/// `s` without the white space it ends with.
pub open spec fn without_trailing_space(s: Seq<char>) -> Seq<char>
    decreases s.len(),
{
    if s.len() > 0 && white_space(s.last()) {
        without_trailing_space(s.drop_last())
    } else {
        s
    }
}

/// `s` without the white space around it.
pub open spec fn trimmed(s: Seq<char>) -> Seq<char> {
    without_trailing_space(without_leading_space(s))
}

/// `needle` occurs in `haystack`, character by character.
pub open spec fn occurs_in(needle: Seq<char>, haystack: Seq<char>) -> bool {
    exists|i: int| #[trigger] occurs_at(needle, haystack, i)
}

/// `needle` stands in `haystack` from index `i` on.
pub open spec fn occurs_at(needle: Seq<char>, haystack: Seq<char>, i: int) -> bool {
    &&& 0 <= i
    &&& i + needle.len() <= haystack.len()
    &&& haystack.subrange(i, i + needle.len()) =~= needle
}

/// The number of bytes that `s` takes in UTF-8.
pub open spec fn byte_len(s: Seq<char>) -> nat {
    vstd::utf8::encode_utf8(s).len()
}

/// The lower-case form that `str::to_lowercase` gives to the characters `s`.
pub uninterp spec fn lowercase(s: Seq<char>) -> Seq<char>;

/// `str::to_lowercase`: the result depends on the characters of `s` alone, and
/// the empty text stays empty.
pub assume_specification[ str::to_lowercase ](s: &str) -> (res: String)
    ensures
        res@ == lowercase(s@),
        s@.len() == 0 ==> res@.len() == 0,
;

pub fn is_white_space(c: char) -> (b: bool)
    ensures
        b == white_space(c),
{
    ('\u{9}' <= c && c <= '\u{d}') || c == '\u{20}' || c == '\u{85}' || c == '\u{a0}' || c
        == '\u{1680}' || ('\u{2000}' <= c && c <= '\u{200a}') || ('\u{2028}' <= c && c
        <= '\u{2029}') || c == '\u{202f}' || c == '\u{205f}' || c == '\u{3000}'
}


/// The characters of `s`, in order.
fn chars_of(s: &str) -> (chars: Vec<char>)
    ensures
        chars@ == s@,
{
    let mut chars: Vec<char> = Vec::new();
    for c in it: s.chars()
        invariant
            it.seq() == s@,
            chars@ == it.seq().take(it.index() as int),
    {
        chars.push(c);
    }
    chars
}

/// The part of `s` that follows its leading white space.
pub fn trim_start(s: &str) -> (res: &str)
    ensures
        res@ == without_leading_space(s@),
{
    let chars = chars_of(s);
    let mut from: usize = 0;
    assert(s@.skip(0) == s@);
    while from < chars.len() && is_white_space(chars[from])
        invariant
            from <= chars.len(),
            chars@ == s@,
            without_leading_space(s@) == without_leading_space(s@.skip(from as int)),
        decreases chars.len() - from,
    {
        assert(s@.skip(from as int).drop_first() == s@.skip(from + 1));
        from += 1;
    }
    assert(s@.skip(from as int) == s@.subrange(from as int, chars.len() as int));
    s.substring_char(from, chars.len())
}

/// The part of `s` between its leading and its trailing white space.
pub fn trim(s: &str) -> (res: &str)
    ensures
        res@ == trimmed(s@),
{
    let rest = trim_start(s);
    let chars = chars_of(rest);
    let mut to: usize = chars.len();
    assert(rest@.take(to as int) == rest@);
    while to > 0 && is_white_space(chars[to - 1])
        invariant
            to <= chars.len(),
            chars@ == rest@,
            without_trailing_space(rest@) == without_trailing_space(rest@.take(to as int)),
        decreases to,
    {
        assert(rest@.take(to as int).drop_last() == rest@.take(to - 1));
        to -= 1;
    }
    assert(rest@.take(to as int) == rest@.subrange(0, to as int));
    rest.substring_char(0, to)
}

/// Whether `needle` stands in `haystack` from index `at` on.
fn stands_at(needle: &Vec<char>, haystack: &Vec<char>, at: usize) -> (found: bool)
    requires
        at + needle.len() <= haystack.len(),
    ensures
        found == occurs_at(needle@, haystack@, at as int),
{
    let mut k: usize = 0;
    while k < needle.len()
        invariant
            k <= needle.len(),
            at + needle.len() <= haystack.len(),
            forall|j: int| 0 <= j < k ==> haystack@[at + j] == needle@[j],
        decreases needle.len() - k,
    {
        if haystack[at + k] != needle[k] {
            assert(haystack@.subrange(at as int, at + needle.len())[k as int] != needle@[k as int]);
            return false;
        }
        k += 1;
    }
    assert(haystack@.subrange(at as int, at + needle.len()) =~= needle@);
    true
}

/// Whether `needle` occurs in `haystack`.
pub fn contains(haystack: &str, needle: &str) -> (found: bool)
    ensures
        found == occurs_in(needle@, haystack@),
{
    let hay = chars_of(haystack);
    let pin = chars_of(needle);
    if pin.len() > hay.len() {
        return false;
    }
    let last: usize = hay.len() - pin.len();
    let mut at: usize = 0;
    loop
        invariant
            hay@ == haystack@,
            pin@ == needle@,
            at <= last,
            last == hay.len() - pin.len(),
            forall|i: int| 0 <= i < at ==> !#[trigger] occurs_at(needle@, haystack@, i),
        decreases last - at,
    {
        if stands_at(&pin, &hay, at) {
            return true;
        }
        if at == last {
            return false;
        }
        at += 1;
    }
}

/// The number of bytes that `s` takes.
pub fn len_in_bytes(s: &str) -> (len: usize)
    ensures
        len == byte_len(s@),
{
    s.as_bytes().len()
}

/// The decimal digit `d` as a character.
pub open spec fn digit(d: nat) -> char {
    ('0' as nat + d) as char
}

/// `n` in decimal, without leading zeros.
pub open spec fn decimal_of(n: nat) -> Seq<char>
    decreases n,
{
    if n < 10 {
        seq![digit(n)]
    } else {
        decimal_of(n / 10).push(digit(n % 10))
    }
}

fn digit_str(d: u32) -> (res: &'static str)
    requires
        d < 10,
    ensures
        res@ == seq![digit(d as nat)],
{
    proof {
        reveal_strlit("0");
        reveal_strlit("1");
        reveal_strlit("2");
        reveal_strlit("3");
        reveal_strlit("4");
        reveal_strlit("5");
        reveal_strlit("6");
        reveal_strlit("7");
        reveal_strlit("8");
        reveal_strlit("9");
    }
    match d {
        0 => "0",
        1 => "1",
        2 => "2",
        3 => "3",
        4 => "4",
        5 => "5",
        6 => "6",
        7 => "7",
        8 => "8",
        _ => "9",
    }
}

/// `n` in decimal.
pub fn decimal(n: u32) -> (res: String)
    ensures
        res@ == decimal_of(n as nat),
    decreases n,
{
    if n < 10 {
        digit_str(n).to_owned()
    } else {
        decimal(n / 10).concat(digit_str(n % 10))
    }
}

/// The number of digits of `n` in decimal is one more than its logarithm to base
/// ten, rounded down (that of 0 and of 1 is one).
pub proof fn lemma_decimal_len(n: nat)
    ensures
        decimal_of(n).len() == vstd::arithmetic::logarithm::log(10, if n == 0 {
            1
        } else {
            n as int
        }) + 1,
    decreases n,
{
    if n < 10 {
        vstd::arithmetic::logarithm::lemma_log0(10, if n == 0 {
            1
        } else {
            n as int
        });
    } else {
        lemma_decimal_len(n / 10);
        vstd::arithmetic::logarithm::lemma_log_s(10, n as int);
    }
}

/// Text takes no more bytes without its leading white space.
pub proof fn lemma_trim_shortens(s: Seq<char>)
    ensures
        byte_len(without_leading_space(s)) <= byte_len(s),
    decreases s.len(),
{
    if s.len() > 0 && white_space(s[0]) {
        lemma_trim_shortens(s.drop_first());
    }
}

/// What is left without the leading white space is `s` from its first character on that
/// is no white space.
pub proof fn law_leading_space(s: Seq<char>)
    ensures
        exists|k: int|
            {
                &&& 0 <= k <= s.len()
                &&& without_leading_space(s) == #[trigger] s.skip(k)
                &&& forall|i: int| 0 <= i < k ==> white_space(#[trigger] s[i])
                &&& k < s.len() ==> !white_space(s[k])
            },
    decreases s.len(),
{
    if s.len() > 0 && white_space(s[0]) {
        let rest = s.drop_first();
        law_leading_space(rest);
        let k = choose|k: int|
            {
                &&& 0 <= k <= rest.len()
                &&& without_leading_space(rest) == #[trigger] rest.skip(k)
                &&& forall|i: int| 0 <= i < k ==> white_space(#[trigger] rest[i])
                &&& k < rest.len() ==> !white_space(rest[k])
            };
        assert(rest.skip(k) == s.skip(k + 1));
        assert forall|i: int| 0 <= i < k + 1 implies white_space(#[trigger] s[i]) by {
            if i > 0 {
                assert(rest[i - 1] == s[i]);
            }
        }
    } else {
        assert(s.skip(0) == s);
    }
}

/// What is left without the trailing white space is `s` up to its last character that is
/// no white space.
pub proof fn law_trailing_space(s: Seq<char>)
    ensures
        exists|k: int|
            {
                &&& 0 <= k <= s.len()
                &&& without_trailing_space(s) == #[trigger] s.take(k)
                &&& forall|i: int| k <= i < s.len() ==> white_space(#[trigger] s[i])
                &&& k > 0 ==> !white_space(s[k - 1])
            },
    decreases s.len(),
{
    if s.len() > 0 && white_space(s.last()) {
        let rest = s.drop_last();
        law_trailing_space(rest);
        let k = choose|k: int|
            {
                &&& 0 <= k <= rest.len()
                &&& without_trailing_space(rest) == #[trigger] rest.take(k)
                &&& forall|i: int| k <= i < rest.len() ==> white_space(#[trigger] rest[i])
                &&& k > 0 ==> !white_space(rest[k - 1])
            };
        assert(rest.take(k) == s.take(k));
        assert forall|i: int| k <= i < s.len() implies white_space(#[trigger] s[i]) by {
            if i < rest.len() {
                assert(rest[i] == s[i]);
            }
        }
    } else {
        assert(s.take(s.len() as int) == s);
    }
}

/// A trimmed text is a stretch of the text: all around it is white space, and it neither
/// starts nor ends with white space.
pub proof fn law_trimmed(s: Seq<char>)
    ensures
        exists|a: int, b: int|
            {
                &&& 0 <= a <= b <= s.len()
                &&& trimmed(s) == #[trigger] s.subrange(a, b)
                &&& forall|i: int| 0 <= i < a ==> white_space(#[trigger] s[i])
                &&& forall|i: int| b <= i < s.len() ==> white_space(#[trigger] s[i])
                &&& a < b ==> !white_space(s[a]) && !white_space(s[b - 1])
            },
{
    law_leading_space(s);
    let a = choose|k: int|
        {
            &&& 0 <= k <= s.len()
            &&& without_leading_space(s) == #[trigger] s.skip(k)
            &&& forall|i: int| 0 <= i < k ==> white_space(#[trigger] s[i])
            &&& k < s.len() ==> !white_space(s[k])
        };
    let rest = s.skip(a);
    law_trailing_space(rest);
    let k = choose|k: int|
        {
            &&& 0 <= k <= rest.len()
            &&& without_trailing_space(rest) == #[trigger] rest.take(k)
            &&& forall|i: int| k <= i < rest.len() ==> white_space(#[trigger] rest[i])
            &&& k > 0 ==> !white_space(rest[k - 1])
        };
    let b = a + k;
    assert(rest.take(k) == s.subrange(a, b));
    assert forall|i: int| b <= i < s.len() implies white_space(#[trigger] s[i]) by {
        assert(rest[i - a] == s[i]);
    }
    if a < b {
        assert(rest[k - 1] == s[b - 1]);
    }
}

/// `needle` occurs in `haystack` exactly if, from some index on, the characters of
/// `haystack` are those of `needle`.
pub proof fn law_occurs_in(needle: Seq<char>, haystack: Seq<char>)
    ensures
        occurs_in(needle, haystack) <==> exists|i: int|
            0 <= i && i + needle.len() <= haystack.len() && #[trigger] haystack.skip(i).take(
                needle.len() as int,
            ) == needle,
{
    if occurs_in(needle, haystack) {
        let i = choose|i: int| #[trigger] occurs_at(needle, haystack, i);
        assert(haystack.skip(i).take(needle.len() as int) =~= haystack.subrange(
            i,
            i + needle.len(),
        ));
    }
    if exists|i: int|
        0 <= i && i + needle.len() <= haystack.len() && #[trigger] haystack.skip(i).take(
            needle.len() as int,
        ) == needle {
        let i = choose|i: int|
            0 <= i && i + needle.len() <= haystack.len() && #[trigger] haystack.skip(i).take(
                needle.len() as int,
            ) == needle;
        assert(haystack.skip(i).take(needle.len() as int) =~= haystack.subrange(
            i,
            i + needle.len(),
        ));
        assert(occurs_at(needle, haystack, i));
    }
}

/// Lengths add up: no text takes no bytes, a character takes one to four of them, and
/// two texts take together what each of them takes.
pub proof fn law_byte_len(a: Seq<char>, b: Seq<char>, c: char)
    ensures
        byte_len(Seq::empty()) == 0,
        byte_len(a + b) == byte_len(a) + byte_len(b),
        byte_len(seq![c]) == (if c as u32 <= 0x7f {
            1nat
        } else if c as u32 <= 0x7ff {
            2nat
        } else if c as u32 <= 0xffff {
            3nat
        } else {
            4nat
        }),
{
    lemma_byte_len_add(a, b);
    assert(seq![c].drop_first() == Seq::<char>::empty());
    reveal_with_fuel(vstd::utf8::encode_utf8, 3);
}

proof fn lemma_byte_len_add(a: Seq<char>, b: Seq<char>)
    ensures
        byte_len(a + b) == byte_len(a) + byte_len(b),
    decreases a.len(),
{
    if a.len() == 0 {
        assert(a + b == b);
    } else {
        lemma_byte_len_add(a.drop_first(), b);
        assert((a + b).drop_first() == a.drop_first() + b);
    }
}

/// A number in decimal reads back: it consists of the digits from 0 to 9, their value
/// is the number, and a number of more than one digit does not start with 0.
pub proof fn law_decimal_reads_back(n: nat)
    ensures
        decimal_of(n).len() > 0,
        forall|i: int| 0 <= i < decimal_of(n).len() ==> '0' <= #[trigger] decimal_of(n)[i] <= '9',
        decimal_of(n).fold_left(0int, |v: int, c: char| v * 10 + (c as int - 48)) == n,
        decimal_of(n).len() > 1 ==> decimal_of(n)[0] != '0',
    decreases n,
{
    let f = |v: int, c: char| v * 10 + (c as int - 48);
    reveal_with_fuel(Seq::fold_left, 2);
    let digits = decimal_of(n);
    if n < 10 {
        assert(digits.drop_last() == Seq::<char>::empty());
        assert(digits.drop_last().fold_left(0int, f) == 0);
        assert(digits.fold_left(0int, f) == f(0, digits.last()));
    } else {
        law_decimal_reads_back(n / 10);
        assert(digits.drop_last() == decimal_of(n / 10));
        assert(digits.fold_left(0int, f) == f(digits.drop_last().fold_left(0int, f), digits.last()));
        if n / 10 < 10 {
            assert(decimal_of(n / 10) == seq![digit(n / 10)]);
        }
    }
}

} // verus!
