//! Text helpers: substring search and decimal numerals.

use vstd::prelude::*;
use vstd::string::StrSliceExecFns;
use vstd::string::StringExecFns;

verus! {

/// `needle` occurs in `hay` as a contiguous run of characters.
pub open spec fn is_substring(needle: Seq<char>, hay: Seq<char>) -> bool {
    exists|i: int| occurs_at(needle, hay, i)
}

/// `needle` occurs in `hay` starting at position `i`.
pub open spec fn occurs_at(needle: Seq<char>, hay: Seq<char>, i: int) -> bool {
    &&& 0 <= i
    &&& i + needle.len() <= hay.len()
    &&& hay.subrange(i, i + needle.len()) == needle
}

/// The characters of a string.
fn chars_of(text: &String) -> (chars: Vec<char>)
    ensures
        chars@ == text@,
{
    let s = text.as_str();
    let n = s.unicode_len();
    let mut chars: Vec<char> = Vec::new();
    let mut i: usize = 0;
    while i < n
        invariant
            i <= n,
            n == s@.len(),
            chars@ == s@.subrange(0, i as int),
        decreases n - i,
    {
        chars.push(s.get_char(i));
        assert(chars@ =~= s@.subrange(0, i + 1));
        i += 1;
    }
    assert(chars@ =~= s@);
    chars
}

/// Whether `needle` occurs in `hay` at position `at`.
fn matches_at(hay: &Vec<char>, needle: &Vec<char>, at: usize) -> (ok: bool)
    requires
        at + needle@.len() <= hay@.len(),
    ensures
        ok == occurs_at(needle@, hay@, at as int),
{
    let size: usize = hay.len();
    let mut j: usize = 0;
    while j < needle.len()
        invariant
            j <= needle@.len(),
            at + needle@.len() <= hay@.len(),
            hay@.len() == size,
            forall|k: int| 0 <= k < j ==> hay@[at + k] == needle@[k],
        decreases needle.len() - j,
    {
        if hay[at + j] != needle[j] {
            assert(hay@.subrange(at as int, at + needle@.len())[j as int] == hay@[at + j]);
            return false;
        }
        j += 1;
    }
    assert(hay@.subrange(at as int, at + needle@.len()) =~= needle@);
    true
}

/// Whether `needle` occurs somewhere in `hay`.
pub fn contains_text(hay: &String, needle: &String) -> (found: bool)
    ensures
        found == is_substring(needle@, hay@),
{
    let hay_chars = chars_of(hay);
    let needle_chars = chars_of(needle);
    if needle_chars.len() == 0 {
        assert(hay@.subrange(0, 0) =~= needle@);
        assert(occurs_at(needle@, hay@, 0));
        return true;
    }
    if needle_chars.len() > hay_chars.len() {
        return false;
    }
    let last: usize = hay_chars.len() - needle_chars.len();
    let mut i: usize = 0;
    while i <= last
        invariant
            i <= last + 1,
            last < usize::MAX,
            last == hay_chars@.len() - needle_chars@.len(),
            hay_chars@ == hay@,
            needle_chars@ == needle@,
            forall|k: int| 0 <= k < i ==> !occurs_at(needle@, hay@, k),
        decreases last + 1 - i,
    {
        if matches_at(&hay_chars, &needle_chars, i) {
            return true;
        }
        i += 1;
    }
    false
}

/// The decimal digit for a number below ten.
pub open spec fn digit(d: nat) -> char {
    if d == 0 {
        '0'
    } else if d == 1 {
        '1'
    } else if d == 2 {
        '2'
    } else if d == 3 {
        '3'
    } else if d == 4 {
        '4'
    } else if d == 5 {
        '5'
    } else if d == 6 {
        '6'
    } else if d == 7 {
        '7'
    } else if d == 8 {
        '8'
    } else {
        '9'
    }
}

/// The decimal numeral of `n`, without leading zeros.
pub open spec fn decimal(n: nat) -> Seq<char>
    decreases n,
{
    if n < 10 {
        seq![digit(n)]
    } else {
        decimal(n / 10).push(digit(n % 10))
    }
}

/// The numeral of one digit, as text.
fn digit_text(d: u8) -> (text: &'static str)
    requires
        d < 10,
    ensures
        text@ == seq![digit(d as nat)],
{
    proof {
        reveal_strlit("0");
        reveal_strlit("1");
        reveal_strlit("2");
        reveal_strlit("3");
        reveal_strlit("4");
        reveal_strlit("5");
        reveal_strlit("6");
        reveal_strlit("7");
        reveal_strlit("8");
        reveal_strlit("9");
    }
    let text = if d == 0 {
        "0"
    } else if d == 1 {
        "1"
    } else if d == 2 {
        "2"
    } else if d == 3 {
        "3"
    } else if d == 4 {
        "4"
    } else if d == 5 {
        "5"
    } else if d == 6 {
        "6"
    } else if d == 7 {
        "7"
    } else if d == 8 {
        "8"
    } else {
        "9"
    };
    assert(text@ =~= seq![digit(d as nat)]);
    text
}

/// The decimal numeral of `n`.
pub fn decimal_text(n: u64) -> (text: String)
    ensures
        text@ == decimal(n as nat),
{
    // The digits, lowest first.
    let mut digits: Vec<u8> = Vec::new();
    let mut rest: u64 = n;
    while rest >= 10
        invariant
            forall|j: int| 0 <= j < digits@.len() ==> digits@[j] < 10,
            decimal(n as nat) == decimal(rest as nat) + low_digits_of(digits@),
        decreases rest,
    {
        let d: u8 = (rest % 10) as u8;
        proof {
            let before = digits@;
            let after = before.push(d);
            assert(low_digits_of(after) =~= seq![digit(d as nat)] + low_digits_of(before)) by {
                lemma_low_digits_push(before, d);
            }
            assert(decimal(rest as nat) == decimal((rest / 10) as nat).push(digit(d as nat)));
            assert(decimal((rest / 10) as nat).push(digit(d as nat)) + low_digits_of(before)
                =~= decimal((rest / 10) as nat) + (seq![digit(d as nat)] + low_digits_of(before)));
        }
        digits.push(d);
        rest = rest / 10;
    }
    let mut text = String::from_str(digit_text(rest as u8));
    proof {
        assert(decimal(rest as nat) =~= seq![digit(rest as nat)]);
        assert(digits@.subrange(0, digits@.len() as int) =~= digits@);
    }
    let mut i: usize = digits.len();
    while i > 0
        invariant
            i <= digits@.len(),
            forall|j: int| 0 <= j < digits@.len() ==> digits@[j] < 10,
            text@ + low_digits_of(digits@.subrange(0, i as int)) == decimal(n as nat),
        decreases i,
    {
        i -= 1;
        proof {
            let upto = digits@.subrange(0, i + 1);
            let less = digits@.subrange(0, i as int);
            assert(upto =~= less.push(digits@[i as int]));
            lemma_low_digits_push(less, digits@[i as int]);
            assert(text@ + (seq![digit(digits@[i as int] as nat)] + low_digits_of(less)) =~= (text@
                + seq![digit(digits@[i as int] as nat)]) + low_digits_of(less));
        }
        text.append(digit_text(digits[i]));
    }
    proof {
        assert(digits@.subrange(0, 0) =~= Seq::<u8>::empty());
        assert(low_digits_of(Seq::<u8>::empty()) =~= Seq::<char>::empty());
        assert(text@ + Seq::<char>::empty() =~= text@);
    }
    text
}

/// The numeral written by digits that are given lowest first.
spec fn low_digits_of(digits: Seq<u8>) -> Seq<char>
    decreases digits.len(),
{
    if digits.len() == 0 {
        Seq::empty()
    } else {
        low_digits_of(digits.drop_first()).push(digit(digits[0] as nat))
    }
}

proof fn lemma_low_digits_push(digits: Seq<u8>, d: u8)
    ensures
        low_digits_of(digits.push(d)) == seq![digit(d as nat)] + low_digits_of(digits),
    decreases digits.len(),
{
    if digits.len() == 0 {
        assert(digits.push(d).drop_first() =~= Seq::<u8>::empty());
        assert(low_digits_of(Seq::<u8>::empty()) =~= Seq::<char>::empty());
        assert(low_digits_of(digits.push(d)) =~= seq![digit(d as nat)]);
        assert(low_digits_of(digits) =~= Seq::<char>::empty());
        assert(seq![digit(d as nat)] + Seq::<char>::empty() =~= seq![digit(d as nat)]);
    } else {
        assert(digits.push(d).drop_first() =~= digits.drop_first().push(d));
        lemma_low_digits_push(digits.drop_first(), d);
        assert((seq![digit(d as nat)] + low_digits_of(digits.drop_first())).push(
            digit(digits[0] as nat),
        ) =~= seq![digit(d as nat)] + low_digits_of(digits));
    }
}

/// A numeral has at least one digit, and more than one from ten on.
pub proof fn lemma_decimal_len(n: nat)
    ensures
        decimal(n).len() >= 1,
        n >= 10 ==> decimal(n).len() >= 2,
    decreases n,
{
    if n >= 10 {
        lemma_decimal_len(n / 10);
    }
}

/// Different numbers have different numerals.
pub proof fn lemma_decimal_injective(a: nat, b: nat)
    requires
        decimal(a) == decimal(b),
    ensures
        a == b,
    decreases a,
{
    lemma_decimal_len(a);
    lemma_decimal_len(b);
    if a < 10 || b < 10 {
        assert(a < 10 ==> decimal(a).len() == 1);
        assert(b < 10 ==> decimal(b).len() == 1);
        assert(a < 10 && b < 10);
        assert(decimal(a)[0] == digit(a));
        assert(decimal(b)[0] == digit(b));
    } else {
        let da = decimal(a / 10).push(digit(a % 10));
        let db = decimal(b / 10).push(digit(b % 10));
        assert(da.last() == db.last());
        assert(da.drop_last() =~= decimal(a / 10));
        assert(db.drop_last() =~= decimal(b / 10));
        lemma_decimal_injective(a / 10, b / 10);
    }
}

} // verus!
