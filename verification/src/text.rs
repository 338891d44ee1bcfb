//! Texts: numbers in decimal, comparison of letters, joining.

use vstd::prelude::*;

verus! {

/// What an optional text holds.
pub open spec fn opt_text(text: Option<String>) -> Option<Seq<char>> {
    match text {
        Some(text) => Some(text@),
        None => None,
    }
}

/// A copy of an optional text.
pub fn clone_opt_text(text: &Option<String>) -> (res: Option<String>)
    ensures
        res == *text,
{
    match text {
        Some(text) => Some(text.clone()),
        None => None,
    }
}

/// The digit `d` as it is written.
pub open spec fn digit_char(d: nat) -> char {
    (('0' as nat) + d) as char
}

/// The decimal digits of `n`, the most significant first and none of them an
/// idle zero.
pub open spec fn decimal_of(n: nat) -> Seq<char>
    decreases n,
{
    if n < 10 {
        seq![digit_char(n)]
    } else {
        decimal_of(n / 10).push(digit_char(n % 10))
    }
}

/// The decimal digits of `n`, with a minus sign before them where it is
/// negative.
pub open spec fn signed_decimal_of(n: int) -> Seq<char> {
    if n < 0 {
        seq!['-'] + decimal_of((-n) as nat)
    } else {
        decimal_of(n as nat)
    }
}

fn digit_str(d: u64) -> (s: &'static str)
    requires
        d < 10,
    ensures
        s@ == seq![digit_char(d as nat)],
{
    proof {
        reveal_strlit("0");
        reveal_strlit("1");
        reveal_strlit("2");
        reveal_strlit("3");
        reveal_strlit("4");
        reveal_strlit("5");
        reveal_strlit("6");
        reveal_strlit("7");
        reveal_strlit("8");
        reveal_strlit("9");
    }
    match d {
        0 => "0",
        1 => "1",
        2 => "2",
        3 => "3",
        4 => "4",
        5 => "5",
        6 => "6",
        7 => "7",
        8 => "8",
        _ => "9",
    }
}

/// `n` written in decimal.
pub fn decimal(n: u64) -> (text: String)
    ensures
        text@ == decimal_of(n as nat),
    decreases n,
{
    if n < 10 {
        digit_str(n).to_owned()
    } else {
        decimal(n / 10).concat(digit_str(n % 10))
    }
}

/// `n` written in decimal, with its sign where it is negative.
pub fn signed_decimal(n: i32) -> (text: String)
    ensures
        text@ == signed_decimal_of(n as int),
{
    if n < 0 {
        proof {
            reveal_strlit("-");
        }
        let magnitude: u64 = (-(n as i64)) as u64;
        "-".to_owned().concat(decimal(magnitude).as_str())
    } else {
        decimal(n as u64)
    }
}

/// The number of a character, with an ASCII capital taken for its small letter.
pub open spec fn folded(c: char) -> u32 {
    if 'A' <= c <= 'Z' {
        (c as u32 + 32) as u32
    } else {
        c as u32
    }
}

/// `prefix` is how `text` begins, if ASCII capitals and small letters are taken
/// for the same.
pub open spec fn begins_with(text: Seq<char>, prefix: Seq<char>) -> bool {
    &&& prefix.len() <= text.len()
    &&& forall|i: int| 0 <= i < prefix.len() ==> folded(#[trigger] text[i]) == folded(prefix[i])
}

fn fold(c: char) -> (number: u32)
    ensures
        number == folded(c),
{
    if 'A' <= c && c <= 'Z' {
        c as u32 + 32
    } else {
        c as u32
    }
}

/// Shift reports the uppercase character and the labels are CamelCase, so every
/// prefix test has to ignore case in both directions.
pub fn matches_prefix(label: &str, text: &str) -> (res: bool)
    ensures
        res == begins_with(label@, text@),
{
    let len: usize = text.unicode_len();
    if len > label.unicode_len() {
        return false;
    }
    let mut i: usize = 0;
    while i < len
        invariant
            i <= len,
            len == text@.len(),
            len <= label@.len(),
            forall|j: int| 0 <= j < i ==> folded(#[trigger] label@[j]) == folded(text@[j]),
        decreases len - i,
    {
        if fold(label.get_char(i)) != fold(text.get_char(i)) {
            assert(folded(label@[i as int]) != folded(text@[i as int]));
            return false;
        }
        i = i + 1;
    }
    true
}

/// Every text begins with nothing, and with itself.
pub proof fn law_prefix_ends(text: Seq<char>)
    ensures
        begins_with(text, Seq::empty()),
        begins_with(text, text),
{
}

/// Typing on can only narrow what a prefix lets through.
pub proof fn law_longer_prefix_matches_less(text: Seq<char>, prefix: Seq<char>, more: Seq<char>)
    requires
        begins_with(text, prefix + more),
    ensures
        begins_with(text, prefix),
{
    assert forall|i: int| 0 <= i < prefix.len() implies folded(#[trigger] text[i]) == folded(
        prefix[i],
    ) by {
        assert((prefix + more)[i] == prefix[i]);
    }
}

/// `a` stands before `b` where texts are ordered character by character, which
/// is also the order of their bytes.
pub open spec fn precedes(a: Seq<char>, b: Seq<char>) -> bool {
    exists|k: int|
        0 <= k <= a.len() && k <= b.len() && #[trigger] a.take(k) == b.take(k) && ((k == a.len()
            && k < b.len()) || (k < a.len() && k < b.len() && a[k] < b[k]))
}

/// Whether `a` stands before `b`.
pub fn is_before(a: &str, b: &str) -> (res: bool)
    ensures
        res == precedes(a@, b@),
{
    let a_len: usize = a.unicode_len();
    let b_len: usize = b.unicode_len();
    let mut i: usize = 0;
    while i < a_len && i < b_len
        invariant
            i <= a_len,
            i <= b_len,
            a_len == a@.len(),
            b_len == b@.len(),
            a@.take(i as int) == b@.take(i as int),
        decreases a_len - i,
    {
        let p = a.get_char(i);
        let q = b.get_char(i);
        if p != q {
            proof {
                if p < q {
                    assert(a@.take(i as int) == b@.take(i as int));
                } else {
                    lemma_decided(a@, b@, i as int);
                }
            }
            return p < q;
        }
        assert(a@.take(i + 1) =~= a@.take(i as int).push(p));
        assert(b@.take(i + 1) =~= b@.take(i as int).push(q));
        i = i + 1;
    }
    proof {
        if a_len < b_len {
            assert(a@.take(i as int) == b@.take(i as int));
        } else {
            lemma_decided(a@, b@, i as int);
        }
    }
    a_len < b_len
}

/// Where two texts part, their order is decided.
proof fn lemma_decided(a: Seq<char>, b: Seq<char>, i: int)
    requires
        0 <= i <= a.len(),
        i <= b.len(),
        a.take(i) == b.take(i),
        i == b.len() || (i < a.len() && i < b.len() && a[i] > b[i]),
    ensures
        !precedes(a, b),
{
    if precedes(a, b) {
        let k = choose|k: int|
            0 <= k <= a.len() && k <= b.len() && #[trigger] a.take(k) == b.take(k) && ((k
                == a.len() && k < b.len()) || (k < a.len() && k < b.len() && a[k] < b[k]));
        if k < i {
            assert(a[k] == a.take(i)[k] && b[k] == b.take(i)[k]);
        } else if k > i {
            assert(a[i] == a.take(k)[i] && b[i] == b.take(k)[i]);
        }
    }
}

/// A list of texts, written one after the other with `separator` between them.
pub open spec fn joined(parts: Seq<Seq<char>>, separator: Seq<char>) -> Seq<char>
    decreases parts.len(),
{
    if parts.len() == 0 {
        Seq::empty()
    } else if parts.len() == 1 {
        parts[0]
    } else {
        joined(parts.drop_last(), separator) + separator + parts.last()
    }
}

/// The order of texts is transitive.
pub proof fn lemma_precedes_transitive(a: Seq<char>, b: Seq<char>, c: Seq<char>)
    requires
        precedes(a, b),
        precedes(b, c),
    ensures
        precedes(a, c),
{
    let i = choose|k: int|
        0 <= k <= a.len() && k <= b.len() && #[trigger] a.take(k) == b.take(k) && ((k == a.len()
            && k < b.len()) || (k < a.len() && k < b.len() && a[k] < b[k]));
    let j = choose|k: int|
        0 <= k <= b.len() && k <= c.len() && #[trigger] b.take(k) == c.take(k) && ((k == b.len()
            && k < c.len()) || (k < b.len() && k < c.len() && b[k] < c[k]));
    let k = if i < j {
        i
    } else {
        j
    };
    assert(a.take(k) =~= a.take(i).take(k));
    assert(b.take(k) =~= b.take(i).take(k));
    assert(b.take(k) =~= b.take(j).take(k));
    assert(c.take(k) =~= c.take(j).take(k));
    assert(a.take(k) == c.take(k));
    if i < j {
        assert(b[i] == b.take(j)[i] && c[i] == c.take(j)[i]);
    } else if j < i {
        assert(a[j] == a.take(i)[j] && b[j] == b.take(i)[j]);
    }
}

/// No text stands before itself, and no two before each other.
pub proof fn lemma_precedes_asymmetric(a: Seq<char>, b: Seq<char>)
    requires
        precedes(a, b),
    ensures
        !precedes(b, a),
{
    if precedes(b, a) {
        lemma_precedes_transitive(a, b, a);
        let k = choose|k: int|
            0 <= k <= a.len() && k <= a.len() && #[trigger] a.take(k) == a.take(k) && ((k == a.len()
                && k < a.len()) || (k < a.len() && k < a.len() && a[k] < a[k]));
    }
}

/// Of two different texts one stands before the other.
pub proof fn lemma_precedes_total(a: Seq<char>, b: Seq<char>)
    requires
        !precedes(a, b),
        !precedes(b, a),
    ensures
        a == b,
{
    assert(a.take(0) =~= b.take(0));
    lemma_total_from(a, b, 0);
}

proof fn lemma_total_from(a: Seq<char>, b: Seq<char>, i: int)
    requires
        0 <= i <= a.len(),
        i <= b.len(),
        a.take(i) == b.take(i),
        !precedes(a, b),
        !precedes(b, a),
    ensures
        a == b,
    decreases a.len() - i,
{
    if i == a.len() || i == b.len() {
        assert(b.take(i) == a.take(i));
        assert(a.take(a.len() as int) =~= a);
        assert(b.take(b.len() as int) =~= b);
    } else if a[i] != b[i] {
        assert(b.take(i) == a.take(i));
    } else {
        assert(a.take(i + 1) =~= a.take(i).push(a[i]));
        assert(b.take(i + 1) =~= b.take(i).push(b[i]));
        lemma_total_from(a, b, i + 1);
    }
}

/// The number that a text of digits stands for.
pub open spec fn number_of(text: Seq<char>) -> int
    decreases text.len(),
{
    if text.len() == 0 {
        0
    } else {
        10 * number_of(text.drop_last()) + (text.last() as int - '0' as int)
    }
}

/// A number is written with digits only and without idle zeros, and reading it
/// gives the number back; so no two numbers are written alike.
pub proof fn law_a_number_reads_back(n: nat)
    ensures
        number_of(decimal_of(n)) == n,
        decimal_of(n).len() > 0,
        forall|i: int| 0 <= i < decimal_of(n).len() ==> '0' <= #[trigger] decimal_of(n)[i] <= '9',
        n > 0 ==> decimal_of(n)[0] != '0',
    decreases n,
{
    let digits = decimal_of(n);
    if n < 10 {
        assert(digits.drop_last() =~= Seq::<char>::empty());
        assert(number_of(digits.drop_last()) == 0);
    } else {
        law_a_number_reads_back(n / 10);
        assert(digits.drop_last() =~= decimal_of(n / 10));
        assert forall|i: int| 0 <= i < digits.len() implies '0' <= #[trigger] digits[i] <= '9' by {
            if i < digits.len() - 1 {
                assert(digits[i] == decimal_of(n / 10)[i]);
            }
        }
        assert(digits[0] == decimal_of(n / 10)[0]);
    }
}

/// A negative number is a minus sign before its magnitude; any other number has
/// no sign.
pub proof fn law_the_sign_leads(n: int)
    ensures
        n < 0 ==> signed_decimal_of(n)[0] == '-' && number_of(signed_decimal_of(n).drop_first())
            == -n,
        n >= 0 ==> number_of(signed_decimal_of(n)) == n && signed_decimal_of(n)[0] != '-',
{
    if n < 0 {
        law_a_number_reads_back((-n) as nat);
        assert(signed_decimal_of(n).drop_first() =~= decimal_of((-n) as nat));
    } else {
        law_a_number_reads_back(n as nat);
        assert('0' <= decimal_of(n as nat)[0]);
    }
}

/// Only the case of a letter is overlooked, and only of the letters A to Z.
pub proof fn law_only_the_case_is_overlooked(c: char, d: char)
    ensures
        folded(c) == folded(d) <==> c == d || ('A' <= c <= 'Z' && d as int == c as int + 32) || ('A'
            <= d <= 'Z' && c as int == d as int + 32),
{
}

/// A text begins with what it begins with, whatever follows; and what it begins
/// with is no longer than it and alike character by character.
pub proof fn law_what_a_prefix_is(prefix: Seq<char>, rest: Seq<char>, text: Seq<char>)
    ensures
        begins_with(prefix + rest, prefix),
        begins_with(text, prefix) ==> prefix.len() <= text.len(),
        begins_with(text, prefix) && prefix.len() > 0 ==> folded(text[0]) == folded(prefix[0])
            && folded(text[prefix.len() - 1]) == folded(prefix.last()),
        prefix.len() > 0 && text.len() > 0 && folded(prefix[0]) != folded(text[0]) ==> !begins_with(
            text,
            prefix,
        ),
{
    assert forall|i: int| 0 <= i < prefix.len() implies folded(#[trigger] (prefix + rest)[i])
        == folded(prefix[i]) by {
        assert((prefix + rest)[i] == prefix[i]);
    }
    if begins_with(text, prefix) && prefix.len() > 0 {
        assert(folded(text[0]) == folded(prefix[0]));
        assert(folded(text[prefix.len() - 1]) == folded(prefix[prefix.len() - 1]));
    }
}

/// A shorter text stands before every text it begins, and where two texts part the
/// lesser character decides.
pub proof fn law_which_text_comes_first(
    common: Seq<char>,
    c: char,
    d: char,
    one: Seq<char>,
    other: Seq<char>,
)
    ensures
        precedes(common, common.push(c) + one),
        c < d ==> precedes(common.push(c) + one, common.push(d) + other),
        c < d ==> !precedes(common.push(d) + other, common.push(c) + one),
{
    let k = common.len() as int;
    let a = common.push(c) + one;
    let b = common.push(d) + other;
    assert(common.take(k) =~= common);
    assert(a.take(k) =~= common);
    assert(b.take(k) =~= common);
    assert(common.take(k) == a.take(k));
    if c < d {
        assert(a.take(k) == b.take(k));
        assert(a[k] == c && b[k] == d);
        lemma_precedes_asymmetric(a, b);
    }
}

/// Nothing is put before the first part and nothing behind the last, and between
/// each two there is the separator once.
pub proof fn law_how_texts_are_joined(
    parts: Seq<Seq<char>>,
    part: Seq<char>,
    separator: Seq<char>,
)
    ensures
        joined(Seq::empty(), separator).len() == 0,
        joined(seq![part], separator) == part,
        parts.len() > 0 ==> joined(parts.push(part), separator) == joined(parts, separator)
            + separator + part,
{
    if parts.len() > 0 {
        assert(parts.push(part).drop_last() =~= parts);
    }
}

} // verus!
