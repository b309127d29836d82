//! Character-level helpers shared by the SDP and candidate grammars: character
//! classes, maximal runs, literal matching, and decimal numbers.
use vstd::prelude::*;

verus! {

/// The character classes that the candidate and SDP grammars use.
#[derive(Clone, Copy, Debug, PartialEq, Eq)]
pub enum CharClass {
    /// `0-9`
    Digit,
    /// `a-z`
    Lower,
    /// `a-z0-9`
    LowerAlnum,
    /// `a-z0-9`, `-` and `.`: the characters of a host name or an IPv4 address
    HostChar,
    /// `0-9` and `.`
    DigitOrDot,
    /// Unicode white space (the `White_Space` property)
    Space,
}

pub open spec fn is_digit(c: char) -> bool {
    '0' <= c && c <= '9'
}

pub open spec fn is_lower(c: char) -> bool {
    'a' <= c && c <= 'z'
}

/// The characters with the Unicode `White_Space` property.
pub open spec fn is_space(c: char) -> bool {
    ||| ('\u{9}' <= c && c <= '\u{d}')
    ||| c == ' '
    ||| c == '\u{85}'
    ||| c == '\u{a0}'
    ||| c == '\u{1680}'
    ||| ('\u{2000}' <= c && c <= '\u{200a}')
    ||| c == '\u{2028}'
    ||| c == '\u{2029}'
    ||| c == '\u{202f}'
    ||| c == '\u{205f}'
    ||| c == '\u{3000}'
}

impl CharClass {
    pub open spec fn holds(self, c: char) -> bool {
        match self {
            CharClass::Digit => is_digit(c),
            CharClass::Lower => is_lower(c),
            CharClass::LowerAlnum => is_lower(c) || is_digit(c),
            CharClass::HostChar => is_lower(c) || is_digit(c) || c == '-' || c == '.',
            CharClass::DigitOrDot => is_digit(c) || c == '.',
            CharClass::Space => is_space(c),
        }
    }

    pub fn test(&self, c: char) -> (b: bool)
        ensures
            b == self.holds(c),
    {
        let digit = '0' <= c && c <= '9';
        let lower = 'a' <= c && c <= 'z';
        match self {
            CharClass::Digit => digit,
            CharClass::Lower => lower,
            CharClass::LowerAlnum => lower || digit,
            CharClass::HostChar => lower || digit || c == '-' || c == '.',
            CharClass::DigitOrDot => digit || c == '.',
            CharClass::Space => {
                ('\u{9}' <= c && c <= '\u{d}') || c == ' ' || c == '\u{85}' || c == '\u{a0}'
                    || c == '\u{1680}' || ('\u{2000}' <= c && c <= '\u{200a}') || c == '\u{2028}'
                    || c == '\u{2029}' || c == '\u{202f}' || c == '\u{205f}' || c == '\u{3000}'
            },
        }
    }
}

/// The end of the longest run of characters of `class` that starts at `i`.
pub open spec fn run_end(s: Seq<char>, i: int, class: CharClass) -> int
    decreases s.len() - i,
{
    if 0 <= i < s.len() && class.holds(s[i]) {
        run_end(s, i + 1, class)
    } else {
        i
    }
}

pub proof fn lemma_run_end(s: Seq<char>, i: int, class: CharClass)
    requires
        0 <= i <= s.len(),
    ensures
        i <= run_end(s, i, class) <= s.len(),
        forall|k: int| i <= k < run_end(s, i, class) ==> class.holds(#[trigger] s[k]),
        run_end(s, i, class) < s.len() ==> !class.holds(s[run_end(s, i, class)]),
    decreases s.len() - i,
{
    if i < s.len() && class.holds(s[i]) {
        lemma_run_end(s, i + 1, class);
    }
}

/// `pat` stands in `s` at position `i`.
pub open spec fn occurs_at(s: Seq<char>, pat: Seq<char>, i: int) -> bool {
    0 <= i && i + pat.len() <= s.len() && s.subrange(i, i + pat.len()) == pat
}

/// `pat` stands somewhere in `s`.
pub open spec fn contains(s: Seq<char>, pat: Seq<char>) -> bool {
    exists|i: int| occurs_at(s, pat, i)
}

/// `s[i]` exists and is white space.
pub open spec fn space_at(s: Seq<char>, i: int) -> bool {
    0 <= i < s.len() && is_space(s[i])
}

/// Collects the characters of `s` in order.
pub fn chars_of(s: &str) -> (out: Vec<char>)
    ensures
        out@ == s@,
{
    let mut out: Vec<char> = Vec::new();
    for c in it: s.chars()
        invariant
            out@ == it.seq().take(it.index() as int),
            it.seq() == s@,
    {
        out.push(c);
    }
    out
}

/// The end of the longest run of `class` characters in `s` from `i`.
pub fn scan_run(s: &Vec<char>, i: usize, class: CharClass) -> (e: usize)
    requires
        i <= s.len(),
    ensures
        e == run_end(s@, i as int, class),
        i <= e <= s.len(),
{
    let mut k = i;
    while k < s.len() && class.test(s[k])
        invariant
            i <= k <= s.len(),
            run_end(s@, k as int, class) == run_end(s@, i as int, class),
        decreases s.len() - k,
    {
        k = k + 1;
    }
    k
}

/// Whether `pat` stands in `s` at position `i`.
pub fn occurs_at_exec(s: &Vec<char>, pat: &Vec<char>, i: usize) -> (b: bool)
    ensures
        b == occurs_at(s@, pat@, i as int),
{
    if i > s.len() || pat.len() > s.len() - i {
        return false;
    }
    let mut k: usize = 0;
    while k < pat.len()
        invariant
            i + pat.len() <= s.len(),
            k <= pat.len(),
            forall|j: int| 0 <= j < k ==> s@[i + j] == pat@[j],
        decreases pat.len() - k,
    {
        if s[i + k] != pat[k] {
            assert(s@.subrange(i as int, i + pat.len())[k as int] != pat@[k as int]);
            return false;
        }
        k = k + 1;
    }
    assert(s@.subrange(i as int, i + pat.len()) =~= pat@);
    true
}

/// Whether `pat` stands somewhere in `s`.
pub fn contains_exec(s: &Vec<char>, pat: &Vec<char>) -> (b: bool)
    ensures
        b == contains(s@, pat@),
{
    let mut i: usize = 0;
    while i < s.len()
        invariant
            i <= s.len(),
            forall|j: int| 0 <= j < i ==> !occurs_at(s@, pat@, j),
        decreases s.len() - i,
    {
        if occurs_at_exec(s, pat, i) {
            return true;
        }
        i = i + 1;
    }
    if occurs_at_exec(s, pat, i) {
        return true;
    }
    assert forall|j: int| !occurs_at(s@, pat@, j) by {
        if j > i && occurs_at(s@, pat@, j) {
            assert(pat@.len() == 0);
            assert(s@.subrange(i as int, i as int) =~= pat@);
        }
    }
    false
}

// ---------------------------------------------------------------------------
// Decimal numbers

/// The value of a decimal digit.
pub open spec fn digit_value(c: char) -> int {
    (c as int) - ('0' as int)
}

/// The value of a string of decimal digits (leading zeros allowed).
pub open spec fn decimal_value(s: Seq<char>) -> int
    decreases s.len(),
{
    if s.len() == 0 {
        0
    } else {
        decimal_value(s.drop_last()) * 10 + digit_value(s.last())
    }
}

/// The digit character of `d < 10`.
pub open spec fn digit_char(d: int) -> char {
    if d == 0 { '0' }
    else if d == 1 { '1' }
    else if d == 2 { '2' }
    else if d == 3 { '3' }
    else if d == 4 { '4' }
    else if d == 5 { '5' }
    else if d == 6 { '6' }
    else if d == 7 { '7' }
    else if d == 8 { '8' }
    else { '9' }
}

/// The shortest decimal writing of `n`.
pub open spec fn decimal_text(n: nat) -> Seq<char>
    decreases n,
{
    if n < 10 {
        seq![digit_char(n as int)]
    } else {
        decimal_text(n / 10) + seq![digit_char((n % 10) as int)]
    }
}

pub proof fn lemma_decimal_value_nonneg(s: Seq<char>)
    requires
        forall|k: int| 0 <= k < s.len() ==> is_digit(#[trigger] s[k]),
    ensures
        decimal_value(s) >= 0,
    decreases s.len(),
{
    if s.len() > 0 {
        lemma_decimal_value_nonneg(s.drop_last());
    }
}

/// Reads the digits `s[a..b]` as a decimal number; `None` when that number
/// exceeds `bound`.
pub fn parse_decimal(s: &Vec<char>, a: usize, b: usize, bound: u64) -> (r: Option<u64>)
    requires
        a <= b <= s.len(),
        bound <= 0xffff_ffff,
        forall|k: int| a <= k < b ==> is_digit(#[trigger] s@[k]),
    ensures
        decimal_value(s@.subrange(a as int, b as int)) > bound <==> r is None,
        r matches Some(v) ==> v == decimal_value(s@.subrange(a as int, b as int)),
{
    let mut acc: u64 = 0;
    let mut over = false;
    let mut k = a;
    assert(s@.subrange(a as int, a as int) =~= Seq::<char>::empty());
    while k < b
        invariant
            a <= k <= b <= s.len(),
            bound <= 0xffff_ffff,
            forall|j: int| a <= j < b ==> is_digit(#[trigger] s@[j]),
            !over ==> acc == decimal_value(s@.subrange(a as int, k as int)) && acc <= bound,
            over ==> decimal_value(s@.subrange(a as int, k as int)) > bound,
        decreases b - k,
    {
        let ghost prev = s@.subrange(a as int, k as int);
        let ghost next = s@.subrange(a as int, k + 1);
        assert(next.drop_last() =~= prev);
        assert(next.last() == s@[k as int]);
        assert(is_digit(s@[k as int]));
        proof {
            lemma_decimal_value_nonneg(prev);
        }
        if !over {
            let d = (s[k] as u32 - '0' as u32) as u64;
            let nv = acc * 10 + d;
            if nv > bound {
                over = true;
            } else {
                acc = nv;
            }
        }
        k = k + 1;
    }
    if over {
        None
    } else {
        Some(acc)
    }
}

/// The one-character string of digit `d`.
fn digit_str(d: u32) -> (r: &'static str)
    requires
        d < 10,
    ensures
        r@ == seq![digit_char(d as int)],
{
    proof {
        reveal_strlit("0");
        reveal_strlit("1");
        reveal_strlit("2");
        reveal_strlit("3");
        reveal_strlit("4");
        reveal_strlit("5");
        reveal_strlit("6");
        reveal_strlit("7");
        reveal_strlit("8");
        reveal_strlit("9");
    }
    if d == 0 { "0" }
    else if d == 1 { "1" }
    else if d == 2 { "2" }
    else if d == 3 { "3" }
    else if d == 4 { "4" }
    else if d == 5 { "5" }
    else if d == 6 { "6" }
    else if d == 7 { "7" }
    else if d == 8 { "8" }
    else { "9" }
}

/// Appends the decimal writing of `n` to `out`.
pub fn append_decimal(out: &mut String, n: u32)
    ensures
        final(out)@ == old(out)@ + decimal_text(n as nat),
    decreases n,
{
    if n >= 10 {
        append_decimal(out, n / 10);
        out.append(digit_str(n % 10));
        assert(final(out)@ =~= old(out)@ + decimal_text(n as nat)) by {
            assert(decimal_text(n as nat) == decimal_text((n / 10) as nat) + seq![digit_char((n % 10) as int)]);
        }
    } else {
        out.append(digit_str(n));
    }
}


/// A run ends where its class stops holding.
pub proof fn lemma_run_end_exact(s: Seq<char>, i: int, j: int, class: CharClass)
    requires
        0 <= i <= j <= s.len(),
        forall|k: int| i <= k < j ==> class.holds(#[trigger] s[k]),
        j == s.len() || !class.holds(s[j]),
    ensures
        run_end(s, i, class) == j,
    decreases j - i,
{
    if i < j {
        lemma_run_end_exact(s, i + 1, j, class);
    }
}

pub proof fn lemma_digit_char(d: int)
    requires
        0 <= d < 10,
    ensures
        is_digit(digit_char(d)),
        digit_value(digit_char(d)) == d,
{
}

/// The decimal writing of a number is a non-empty run of digits whose value is
/// that number.
pub proof fn lemma_decimal_text(n: nat)
    ensures
        decimal_text(n).len() > 0,
        forall|k: int| 0 <= k < decimal_text(n).len() ==> is_digit(#[trigger] decimal_text(n)[k]),
        decimal_value(decimal_text(n)) == n,
    decreases n,
{
    if n >= 10 {
        lemma_decimal_text(n / 10);
        lemma_digit_char((n % 10) as int);
        let t = decimal_text(n);
        assert(t.drop_last() =~= decimal_text(n / 10));
        assert(t.last() == digit_char((n % 10) as int));
        assert(n == (n / 10) * 10 + n % 10);
        assert(decimal_value(t) == decimal_value(t.drop_last()) * 10 + digit_value(t.last()));
    } else {
        lemma_digit_char(n as int);
        assert(seq![digit_char(n as int)].drop_last() =~= Seq::<char>::empty());
        assert(decimal_value(Seq::<char>::empty()) == 0);
    }
}
} // verus!
