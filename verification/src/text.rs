//! Character-level helpers: blank characters, trimming, decimal numerals.

use vstd::prelude::*;
use vstd::std_specs::iter::IteratorSpec;

verus! {

/// The view of every string in a sequence.
pub open spec fn texts(v: Seq<String>) -> Seq<Seq<char>> {
    Seq::new(v.len(), |i: int| v[i]@)
}

/// The view of every string slice in a sequence.
pub open spec fn slices(v: Seq<&str>) -> Seq<Seq<char>> {
    Seq::new(v.len(), |i: int| v[i]@)
}

/// Whether `c` is a blank: a character with the Unicode property
/// White_Space.
pub open spec fn is_blank(c: char) -> bool {
    let u = c as u32;
    ||| 0x09 <= u <= 0x0D
    ||| u == 0x20
    ||| u == 0x85
    ||| u == 0xA0
    ||| u == 0x1680
    ||| 0x2000 <= u <= 0x200A
    ||| u == 0x2028
    ||| u == 0x2029
    ||| u == 0x202F
    ||| u == 0x205F
    ||| u == 0x3000
}

/// Decides whether `c` is a blank.
pub fn blank(c: char) -> (b: bool)
    ensures
        b == is_blank(c),
{
    let u: u32 = c as u32;
    (0x09 <= u && u <= 0x0D) || u == 0x20 || u == 0x85 || u == 0xA0 || u == 0x1680 || (0x2000 <= u
        && u <= 0x200A) || u == 0x2028 || u == 0x2029 || u == 0x202F || u == 0x205F || u == 0x3000
}

/// The characters of a string, in order.
pub fn to_chars(s: &str) -> (v: Vec<char>)
    ensures
        v@ == s@,
{
    let mut rest = s.chars();
    let mut v: Vec<char> = Vec::new();
    loop
        invariant
            v@ + rest.remaining() == s@,
            rest.decrease() is Some,
        ensures
            v@ == s@,
        decreases rest.decrease()->0,
    {
        let ghost before = rest.remaining();
        match rest.next() {
            Some(c) => {
                v.push(c);
                assert(v@ + rest.remaining() =~= (v@.drop_last() + before));
            },
            None => {
                assert(v@ + before =~= v@);
                break;
            },
        }
    }
    v
}

/// `s` without its leading blanks.
pub open spec fn trim_start(s: Seq<char>) -> Seq<char>
    decreases s.len(),
{
    if s.len() > 0 && is_blank(s[0]) {
        trim_start(s.drop_first())
    } else {
        s
    }
}

/// `s` without its trailing blanks.
pub open spec fn trim_end(s: Seq<char>) -> Seq<char>
    decreases s.len(),
{
    if s.len() > 0 && is_blank(s.last()) {
        trim_end(s.drop_last())
    } else {
        s
    }
}

/// `s` without its leading and trailing blanks.
pub open spec fn trimmed(s: Seq<char>) -> Seq<char> {
    trim_end(trim_start(s))
}

/// Removes leading and trailing blanks.
pub fn trim<'a>(s: &'a str) -> (t: &'a str)
    ensures
        t@ == trimmed(s@),
{
    let chars: Vec<char> = to_chars(s);
    let n: usize = chars.len();
    let mut a: usize = 0;
    assert(s@.subrange(0, n as int) =~= s@);
    while a < n && blank(chars[a])
        invariant
            chars@ == s@,
            n == s@.len(),
            a <= n,
            trim_start(s@) == trim_start(s@.subrange(a as int, n as int)),
        decreases n - a,
    {
        proof {
            let sub = s@.subrange(a as int, n as int);
            assert(sub[0] == s@[a as int]);
            assert(sub.drop_first() =~= s@.subrange(a + 1, n as int));
            assert(trim_start(sub) == trim_start(sub.drop_first()));
        }
        a = a + 1;
    }
    proof {
        let sub = s@.subrange(a as int, n as int);
        if a < n {
            assert(sub[0] == s@[a as int]);
        }
        assert(trim_start(sub) == sub);
    }
    let ghost body = s@.subrange(a as int, n as int);
    let mut b: usize = n;
    assert(body.subrange(0, b - a) =~= body);
    while b > a && blank(chars[b - 1])
        invariant
            chars@ == s@,
            n == s@.len(),
            a <= b <= n,
            body == s@.subrange(a as int, n as int),
            trim_end(body) == trim_end(body.subrange(0, b - a)),
        decreases b - a,
    {
        proof {
            let sub = body.subrange(0, b - a);
            assert(sub.last() == s@[b - 1]);
            assert(sub.drop_last() =~= body.subrange(0, b - 1 - a));
            assert(trim_end(sub) == trim_end(sub.drop_last()));
        }
        b = b - 1;
    }
    proof {
        let sub = body.subrange(0, b - a);
        if b > a {
            assert(sub.last() == s@[b - 1]);
        }
        assert(trim_end(sub) == sub);
        assert(sub =~= s@.subrange(a as int, b as int));
    }
    s.substring_char(a, b)
}

/// Whether a comment (two slashes) opens at index `i` of `s`.
pub open spec fn comment_at(s: Seq<char>, i: int) -> bool {
    0 <= i && i + 1 < s.len() && s[i] == '/' && s[i + 1] == '/'
}

/// The index at or after `i` where the first comment of `s` opens; the
/// length of `s` where there is none.
pub open spec fn comment_start(s: Seq<char>, i: int) -> int
    decreases s.len() - i,
{
    if i >= s.len() {
        s.len() as int
    } else if comment_at(s, i) {
        i
    } else {
        comment_start(s, i + 1)
    }
}

/// `s` up to its first comment.
pub open spec fn without_comment(s: Seq<char>) -> Seq<char> {
    s.subrange(0, comment_start(s, 0))
}

/// Whether `s` opens with a comment.
pub open spec fn is_comment(s: Seq<char>) -> bool {
    comment_at(s, 0)
}

/// Decides whether `s` opens with a comment.
pub fn starts_with_comment(s: &str) -> (b: bool)
    ensures
        b == is_comment(s@),
{
    let n: usize = s.unicode_len();
    n >= 2 && s.get_char(0) == '/' && s.get_char(1) == '/'
}

/// Cuts `s` at its first comment.
pub fn strip_comment<'a>(s: &'a str) -> (t: &'a str)
    ensures
        t@ == without_comment(s@),
{
    let chars: Vec<char> = to_chars(s);
    let n: usize = chars.len();
    let mut i: usize = 0;
    while i < n && !(i + 1 < n && chars[i] == '/' && chars[i + 1] == '/')
        invariant
            chars@ == s@,
            n == s@.len(),
            i <= n,
            comment_start(s@, 0) == comment_start(s@, i as int),
        decreases n - i,
    {
        i = i + 1;
    }
    s.substring_char(0, i)
}

/// The first index at or after `i` whose character is blank or not, against
/// `blank`; the length of `s` where there is none.
pub open spec fn run_end(s: Seq<char>, i: int, blank: bool) -> int
    decreases s.len() - i,
{
    if i < 0 || i >= s.len() {
        s.len() as int
    } else if is_blank(s[i]) != blank {
        i
    } else {
        run_end(s, i + 1, blank)
    }
}

/// The pieces of `s` from index `i` on that lie between maximal runs of
/// blanks. A run at the start or at the end of `s` has an empty piece
/// beside it.
pub open spec fn pieces(s: Seq<char>, i: int) -> Seq<Seq<char>>
    decreases s.len() - i,
{
    let e = run_end(s, i, false);
    let n = run_end(s, e, true);
    if i < 0 || i >= s.len() || e < i || e >= s.len() || n <= e || n > s.len() {
        // the last piece: no blank follows `i` (`i <= e < n <= s.len()`
        // holds wherever a blank does)
        seq![s.subrange(i, s.len() as int)]
    } else {
        seq![s.subrange(i, e)] + pieces(s, n)
    }
}

/// `s` split at its maximal runs of blanks.
pub open spec fn split_blank(s: Seq<char>) -> Seq<Seq<char>> {
    pieces(s, 0)
}

/// The character of the digit `d`.
pub open spec fn digit_char(d: nat) -> char {
    if d == 0 {
        '0'
    } else if d == 1 {
        '1'
    } else if d == 2 {
        '2'
    } else if d == 3 {
        '3'
    } else if d == 4 {
        '4'
    } else if d == 5 {
        '5'
    } else if d == 6 {
        '6'
    } else if d == 7 {
        '7'
    } else if d == 8 {
        '8'
    } else {
        '9'
    }
}

/// The decimal numeral of `n`, without leading zeros.
pub open spec fn decimal(n: nat) -> Seq<char>
    decreases n,
{
    if n < 10 {
        seq![digit_char(n)]
    } else {
        decimal(n / 10).push(digit_char(n % 10))
    }
}

fn digit_text(d: u64) -> (s: &'static str)
    requires
        d < 10,
    ensures
        s@ == seq![digit_char(d as nat)],
{
    proof {
        reveal_strlit("0");
        reveal_strlit("1");
        reveal_strlit("2");
        reveal_strlit("3");
        reveal_strlit("4");
        reveal_strlit("5");
        reveal_strlit("6");
        reveal_strlit("7");
        reveal_strlit("8");
        reveal_strlit("9");
    }
    let s: &'static str = if d == 0 {
        "0"
    } else if d == 1 {
        "1"
    } else if d == 2 {
        "2"
    } else if d == 3 {
        "3"
    } else if d == 4 {
        "4"
    } else if d == 5 {
        "5"
    } else if d == 6 {
        "6"
    } else if d == 7 {
        "7"
    } else if d == 8 {
        "8"
    } else {
        "9"
    };
    assert(s@ =~= seq![digit_char(d as nat)]);
    s
}

/// Appends the decimal numeral of `n` to `out`.
pub fn push_decimal(out: &mut String, n: u64)
    ensures
        final(out)@ == old(out)@ + decimal(n as nat),
    decreases n,
{
    if n >= 10 {
        push_decimal(out, n / 10);
    }
    out.append(digit_text(n % 10));
    assert(final(out)@ =~= old(out)@ + decimal(n as nat));
}

/// Whether `c` is a decimal digit.
pub open spec fn is_digit(c: char) -> bool {
    48 <= c as u32 <= 57
}

/// The value of the digit `c`.
pub open spec fn digit_value(c: char) -> nat {
    (c as u32 - 48) as nat
}

/// The number that the digits `s` denote, read in base ten.
pub open spec fn digits_value(s: Seq<char>) -> nat
    decreases s.len(),
{
    if s.len() == 0 {
        0
    } else {
        digits_value(s.drop_last()) * 10 + digit_value(s.last())
    }
}

/// Whether `s` is one digit or more and nothing else.
pub open spec fn is_digits(s: Seq<char>) -> bool {
    s.len() > 0 && forall|i: int| 0 <= i < s.len() ==> is_digit(#[trigger] s[i])
}

/// `s` without a leading plus sign.
pub open spec fn unsigned_body(s: Seq<char>) -> Seq<char> {
    if s.len() > 0 && s[0] == '+' {
        s.drop_first()
    } else {
        s
    }
}

/// The number that the token `s` denotes: an optional plus sign, then
/// digits whose value is at most `max`. `None` for every other token.
pub open spec fn number_of(s: Seq<char>, max: nat) -> Option<nat> {
    let body = unsigned_body(s);
    if is_digits(body) && digits_value(body) <= max {
        Some(digits_value(body))
    } else {
        None
    }
}

/// A prefix of a digit string denotes no more than the whole string.
pub proof fn lemma_prefix_value(s: Seq<char>, k: int)
    requires
        0 <= k <= s.len(),
    ensures
        digits_value(s.subrange(0, k)) <= digits_value(s),
    decreases s.len(),
{
    if k == s.len() {
        assert(s.subrange(0, k) =~= s);
    } else {
        lemma_prefix_value(s.drop_last(), k);
        assert(s.drop_last().subrange(0, k) =~= s.subrange(0, k));
    }
}

/// Reads an unsigned decimal number of at most `max` from a token.
pub fn parse_number(token: &str, max: u32) -> (r: Option<u32>)
    ensures
        match number_of(token@, max as nat) {
            Some(v) => v <= max && r == Some(v as u32),
            None => r is None,
        },
{
    let chars: Vec<char> = to_chars(token);
    let n: usize = chars.len();
    let start: usize = if n > 0 && chars[0] == '+' {
        1
    } else {
        0
    };
    let ghost body = unsigned_body(token@);
    assert(body =~= token@.subrange(start as int, n as int));
    if start == n {
        return None;
    }
    let mut acc: u64 = 0;
    let mut i: usize = start;
    assert(body.subrange(0, 0).len() == 0);
    while i < n
        invariant
            chars@ == token@,
            n == token@.len(),
            start <= i <= n,
            start < n,
            body == token@.subrange(start as int, n as int),
            body == unsigned_body(token@),
            acc == digits_value(body.subrange(0, i - start)),
            acc <= max,
            forall|j: int| 0 <= j < i - start ==> is_digit(#[trigger] body[j]),
        decreases n - i,
    {
        let c: char = chars[i];
        let u: u32 = c as u32;
        if u < 48 || u > 57 {
            assert(!is_digit(body[i - start]));
            return None;
        }
        let next: u64 = acc * 10 + (u - 48) as u64;
        proof {
            let p = body.subrange(0, i + 1 - start);
            assert(p.drop_last() =~= body.subrange(0, i - start));
            assert(p.last() == c);
            assert(digits_value(p) == next);
        }
        if next > max as u64 {
            proof {
                if is_digits(body) {
                    lemma_prefix_value(body, i + 1 - start);
                }
            }
            return None;
        }
        acc = next;
        i = i + 1;
    }
    assert(body.subrange(0, n - start) =~= body);
    Some(acc as u32)
}

/// The numeral of a number denotes that number.
pub proof fn lemma_decimal_value(n: nat)
    ensures
        is_digits(decimal(n)),
        digits_value(decimal(n)) == n,
    decreases n,
{
    let d = if n >= 10 { n % 10 } else { n };
    assert(is_digit(digit_char(d)) && digit_value(digit_char(d)) == d);
    assert(decimal(n).last() == digit_char(d));
    if n >= 10 {
        lemma_decimal_value(n / 10);
        assert(decimal(n).drop_last() =~= decimal(n / 10));
    } else {
        assert(decimal(n).drop_last() =~= Seq::<char>::empty());
        assert(digits_value(Seq::<char>::empty()) == 0);
    }
}

/// Different numbers have different numerals.
pub proof fn lemma_decimal_injective(a: nat, b: nat)
    requires
        decimal(a) == decimal(b),
    ensures
        a == b,
{
    lemma_decimal_value(a);
    lemma_decimal_value(b);
}

/// A comment opens no earlier than where the search for it starts, and no
/// later than the end.
pub proof fn lemma_comment_start_bounds(s: Seq<char>, i: int)
    requires
        0 <= i <= s.len(),
    ensures
        i <= comment_start(s, i) <= s.len(),
    decreases s.len() - i,
{
    if i < s.len() && !comment_at(s, i) {
        lemma_comment_start_bounds(s, i + 1);
    }
}

/// A run ends no earlier than where it starts, and no later than the end.
pub proof fn lemma_run_end_bounds(s: Seq<char>, i: int, blank: bool)
    requires
        0 <= i <= s.len(),
    ensures
        i <= run_end(s, i, blank) <= s.len(),
    decreases s.len() - i,
{
    if i < s.len() && is_blank(s[i]) == blank {
        lemma_run_end_bounds(s, i + 1, blank);
    }
}

/// Cutting trailing blanks keeps the first character of a text that opens
/// with something else.
pub proof fn lemma_trim_end_keeps_first(s: Seq<char>)
    requires
        s.len() > 0,
        !is_blank(s[0]),
    ensures
        trim_end(s).len() > 0,
        trim_end(s)[0] == s[0],
    decreases s.len(),
{
    if is_blank(s.last()) {
        assert(s.len() > 1);
        lemma_trim_end_keeps_first(s.drop_last());
    }
}

/// The first piece of a text that opens with something but a blank opens
/// with the same character.
pub proof fn lemma_first_piece(s: Seq<char>)
    requires
        s.len() > 0,
        !is_blank(s[0]),
    ensures
        split_blank(s).len() > 0,
        split_blank(s)[0].len() > 0,
        split_blank(s)[0][0] == s[0],
{
    lemma_run_end_bounds(s, 1, false);
    let e = run_end(s, 0, false);
    assert(e == run_end(s, 1, false));
    lemma_run_end_bounds(s, e, true);
}

} // verus!
