//! Strings as sequences of characters: comparison, order, prefixes, decimal numerals.

use vstd::prelude::*;
use vstd::string::*;

verus! {

/// `prefix` is how `s` begins.
pub open spec fn begins_with(s: Seq<char>, prefix: Seq<char>) -> bool {
    prefix.len() <= s.len() && s.subrange(0, prefix.len() as int) == prefix
}

/// `a` comes strictly before `b` in the order of code points, position by position; a proper
/// prefix comes first.
pub open spec fn text_before(a: Seq<char>, b: Seq<char>) -> bool
    decreases a.len(),
{
    if a.len() == 0 {
        b.len() > 0
    } else if b.len() == 0 {
        false
    } else if a[0] != b[0] {
        a[0] < b[0]
    } else {
        text_before(a.drop_first(), b.drop_first())
    }
}

/// `text_before` is a strict total order.
pub proof fn text_before_is_total(a: Seq<char>, b: Seq<char>)
    ensures
        text_before(a, b) || text_before(b, a) || a == b,
        !(text_before(a, b) && text_before(b, a)),
        text_before(a, b) ==> a != b,
    decreases a.len(),
{
    if a.len() > 0 && b.len() > 0 && a[0] == b[0] {
        text_before_is_total(a.drop_first(), b.drop_first());
        if a.drop_first() == b.drop_first() {
            assert(a =~= seq![a[0]] + a.drop_first());
            assert(b =~= seq![b[0]] + b.drop_first());
        }
    } else if a.len() == 0 && b.len() == 0 {
        assert(a =~= b);
    }
}

pub proof fn text_before_is_transitive(a: Seq<char>, b: Seq<char>, c: Seq<char>)
    requires
        text_before(a, b),
        text_before(b, c),
    ensures
        text_before(a, c),
    decreases a.len(),
{
    if a.len() > 0 && b.len() > 0 && c.len() > 0 && a[0] == b[0] && b[0] == c[0] {
        text_before_is_transitive(a.drop_first(), b.drop_first(), c.drop_first());
    }
}

/// The characters of a string, in order.
pub fn characters(s: &str) -> (r: Vec<char>)
    ensures
        r@ == s@,
{
    let mut r: Vec<char> = Vec::new();
    for c in it: s.chars()
        invariant
            it.seq() == s@,
            r@ == s@.take(it.index() as int),
    {
        proof {
            let at = it.index() as int;
            assert(s@.take(at + 1) =~= s@.take(at).push(s@[at]));
        }
        r.push(c);
    }
    assert(s@.take(s@.len() as int) =~= s@);
    r
}

/// Whether two strings hold the same characters.
pub fn same_text(a: &str, b: &str) -> (r: bool)
    ensures
        r == (a@ == b@),
{
    let x = a.as_bytes();
    let y = b.as_bytes();
    if x.len() != y.len() {
        return false;
    }
    let mut i: usize = 0;
    while i < x.len()
        invariant
            i <= x@.len(),
            x@.len() == y@.len(),
            x@ == a.spec_bytes(),
            y@ == b.spec_bytes(),
            forall|j: int| 0 <= j < i ==> x@[j] == y@[j],
        decreases x@.len() - i,
    {
        if x[i] != y[i] {
            return false;
        }
        i = i + 1;
    }
    proof {
        assert(x@ =~= y@);
        vstd::utf8::encode_utf8_decode_utf8(a@);
        vstd::utf8::encode_utf8_decode_utf8(b@);
    }
    true
}

/// Whether `s` begins with `prefix`.
pub fn starts_with(s: &str, prefix: &str) -> (r: bool)
    ensures
        r == begins_with(s@, prefix@),
{
    let a = characters(s);
    let b = characters(prefix);
    if b.len() > a.len() {
        return false;
    }
    let mut i: usize = 0;
    while i < b.len()
        invariant
            i <= b@.len() <= a@.len(),
            a@ == s@,
            b@ == prefix@,
            forall|j: int| 0 <= j < i ==> a@[j] == b@[j],
        decreases b@.len() - i,
    {
        if a[i] != b[i] {
            assert(a@.subrange(0, b@.len() as int)[i as int] != b@[i as int]);
            return false;
        }
        i = i + 1;
    }
    assert(a@.subrange(0, b@.len() as int) =~= b@);
    true
}

/// What follows `prefix` in `s`, if `s` begins with it.
pub fn strip_prefix<'a>(s: &'a str, prefix: &str) -> (r: Option<&'a str>)
    ensures
        r is Some == begins_with(s@, prefix@),
        r is Some ==> r->0@ == s@.skip(prefix@.len() as int),
{
    if starts_with(s, prefix) {
        let from = prefix.unicode_len();
        let to = s.unicode_len();
        let rest = s.substring_char(from, to);
        assert(rest@ =~= s@.skip(prefix@.len() as int));
        Some(rest)
    } else {
        None
    }
}

/// Whether `a` comes strictly before `b`.
pub fn comes_before(a: &str, b: &str) -> (r: bool)
    ensures
        r == text_before(a@, b@),
{
    let x = characters(a);
    let y = characters(b);
    let mut i: usize = 0;
    proof {
        assert(x@.skip(0) =~= a@);
        assert(y@.skip(0) =~= b@);
    }
    while i < x.len() && i < y.len()
        invariant
            i <= x@.len(),
            i <= y@.len(),
            text_before(a@, b@) == text_before(x@.skip(i as int), y@.skip(i as int)),
        decreases x@.len() - i,
    {
        if x[i] != y[i] {
            return x[i] < y[i];
        }
        proof {
            assert(x@.skip(i as int).drop_first() =~= x@.skip(i + 1));
            assert(y@.skip(i as int).drop_first() =~= y@.skip(i + 1));
        }
        i = i + 1;
    }
    i < y.len()
}

/// The position of the first `wanted` in `s`, or the length of `s` where it does not occur.
pub open spec fn first_position(s: Seq<char>, wanted: char) -> int
    decreases s.len(),
{
    if s.len() == 0 || s[0] == wanted {
        0
    } else {
        1 + first_position(s.drop_first(), wanted)
    }
}

/// What stands in `s` before its first `wanted`; all of `s` where it does not occur.
pub open spec fn before_first(s: Seq<char>, wanted: char) -> Seq<char> {
    s.take(first_position(s, wanted))
}

/// What stands in `s` before its first `wanted`.
pub fn text_before_first<'a>(s: &'a str, wanted: char) -> (r: &'a str)
    ensures
        r@ == before_first(s@, wanted),
{
    let x = characters(s);
    let mut i: usize = 0;
    assert(x@.skip(0) =~= s@);
    while i < x.len() && x[i] != wanted
        invariant
            i <= x@.len(),
            x@ == s@,
            first_position(s@, wanted) == i + first_position(x@.skip(i as int), wanted),
        decreases x@.len() - i,
    {
        assert(x@.skip(i as int).drop_first() =~= x@.skip(i + 1));
        i = i + 1;
    }
    let r = s.substring_char(0, i);
    assert(r@ =~= s@.take(i as int));
    r
}

/// Whether `wanted` occurs in `s`.
pub fn has_char(s: &str, wanted: char) -> (r: bool)
    ensures
        r == s@.contains(wanted),
{
    let x = characters(s);
    let mut i: usize = 0;
    while i < x.len()
        invariant
            i <= x@.len(),
            x@ == s@,
            forall|j: int| 0 <= j < i ==> x@[j] != wanted,
        decreases x@.len() - i,
    {
        if x[i] == wanted {
            assert(s@[i as int] == wanted);
            return true;
        }
        i = i + 1;
    }
    false
}

/// Two strings, one after the other.
pub fn join(a: &str, b: &str) -> (r: String)
    ensures
        r@ == a@ + b@,
{
    let mut r = a.to_owned();
    r.append(b);
    r
}

/// The numeral of a digit.
pub open spec fn digit(d: int) -> Seq<char> {
    if d == 0 {
        "0"@
    } else if d == 1 {
        "1"@
    } else if d == 2 {
        "2"@
    } else if d == 3 {
        "3"@
    } else if d == 4 {
        "4"@
    } else if d == 5 {
        "5"@
    } else if d == 6 {
        "6"@
    } else if d == 7 {
        "7"@
    } else if d == 8 {
        "8"@
    } else {
        "9"@
    }
}

/// The decimal numeral of `n`, without leading zeros.
pub open spec fn decimal(n: nat) -> Seq<char>
    decreases n,
{
    if n < 10 {
        digit(n as int)
    } else {
        decimal(n / 10) + digit((n % 10) as int)
    }
}

fn digit_text(d: u64) -> (r: &'static str)
    requires
        d < 10,
    ensures
        r@ == digit(d as int),
{
    if d == 0 {
        "0"
    } else if d == 1 {
        "1"
    } else if d == 2 {
        "2"
    } else if d == 3 {
        "3"
    } else if d == 4 {
        "4"
    } else if d == 5 {
        "5"
    } else if d == 6 {
        "6"
    } else if d == 7 {
        "7"
    } else if d == 8 {
        "8"
    } else {
        "9"
    }
}

/// Appends the decimal numeral of `n` to `out`.
pub fn push_decimal(out: &mut String, n: u64)
    ensures
        final(out)@ == old(out)@ + decimal(n as nat),
    decreases n,
{
    if n >= 10 {
        push_decimal(out, n / 10);
    }
    out.append(digit_text(n % 10));
    assert(out@ =~= old(out)@ + decimal(n as nat));
}

/// A space or a tab.
pub open spec fn is_blank(c: char) -> bool {
    c == ' ' || c == '\t'
}

/// `s` without the blanks at its two ends.
pub open spec fn trimmed(s: Seq<char>) -> Seq<char>
    decreases s.len(),
{
    if s.len() > 0 && is_blank(s[0]) {
        trimmed(s.drop_first())
    } else if s.len() > 0 && is_blank(s.last()) {
        trimmed(s.drop_last())
    } else {
        s
    }
}

/// `s` without the blanks at its two ends.
pub fn trim_blanks<'a>(s: &'a str) -> (r: &'a str)
    ensures
        r@ == trimmed(s@),
{
    let x = characters(s);
    let mut from: usize = 0;
    let mut to: usize = x.len();
    assert(x@.subrange(0, x@.len() as int) =~= s@);
    while from < to && (x[from] == ' ' || x[from] == '\t')
        invariant
            from <= to == x@.len(),
            trimmed(s@) == trimmed(x@.subrange(from as int, to as int)),
        decreases to - from,
    {
        assert(x@.subrange(from as int, to as int).drop_first() =~= x@.subrange(
            from + 1,
            to as int,
        ));
        from = from + 1;
    }
    while from < to && (x[to - 1] == ' ' || x[to - 1] == '\t')
        invariant
            from <= to <= x@.len(),
            from < to ==> !is_blank(x@[from as int]),
            trimmed(s@) == trimmed(x@.subrange(from as int, to as int)),
        decreases to - from,
    {
        assert(x@.subrange(from as int, to as int).drop_last() =~= x@.subrange(
            from as int,
            to - 1,
        ));
        to = to - 1;
    }
    s.substring_char(from, to)
}

/// Texts are ordered by the first place at which they differ, and one that ends there comes
/// first.
pub proof fn law_the_first_difference_decides(a: Seq<char>, b: Seq<char>, k: int)
    requires
        0 <= k <= a.len(),
        k <= b.len(),
        a.take(k) == b.take(k),
    ensures
        k < a.len() && k < b.len() && a[k] != b[k] ==> (text_before(a, b) <==> a[k] < b[k]),
        k == a.len() && k < b.len() ==> text_before(a, b) && !text_before(b, a),
        k == a.len() && k == b.len() ==> !text_before(a, b),
    decreases k,
{
    if k > 0 {
        assert(a.take(k)[0] == a[0] && b.take(k)[0] == b[0]);
        let x = a.drop_first();
        let y = b.drop_first();
        assert(x.take(k - 1) =~= a.take(k).drop_first());
        assert(y.take(k - 1) =~= b.take(k).drop_first());
        law_the_first_difference_decides(x, y, k - 1);
    }
}

/// A text begins with a prefix exactly where the prefix and something behind it make it up.
pub proof fn law_a_prefix_and_the_rest_make_the_text(s: Seq<char>, prefix: Seq<char>)
    ensures
        begins_with(s, prefix) <==> exists|rest: Seq<char>| s == #[trigger] (prefix + rest),
        begins_with(s, prefix) ==> s == prefix + s.skip(prefix.len() as int),
{
    if begins_with(s, prefix) {
        assert(s =~= prefix + s.skip(prefix.len() as int));
    }
    if exists|rest: Seq<char>| s == #[trigger] (prefix + rest) {
        let rest = choose|rest: Seq<char>| s == #[trigger] (prefix + rest);
        assert(s.subrange(0, prefix.len() as int) =~= prefix);
    }
}

proof fn lemma_first_position(s: Seq<char>, wanted: char)
    ensures
        0 <= first_position(s, wanted) <= s.len(),
    decreases s.len(),
{
    if s.len() > 0 {
        lemma_first_position(s.drop_first(), wanted);
    }
}

/// What stands before the first of a character is free of it, and is all there is or ends at it.
pub proof fn law_before_the_first(s: Seq<char>, wanted: char)
    ensures
        ({
            let head = before_first(s, wanted);
            &&& head.len() <= s.len()
            &&& head == s.take(head.len() as int)
            &&& !head.contains(wanted)
            &&& head.len() < s.len() ==> s[head.len() as int] == wanted
        }),
    decreases s.len(),
{
    if s.len() > 0 && s[0] != wanted {
        let rest = s.drop_first();
        law_before_the_first(rest, wanted);
        lemma_first_position(rest, wanted);
        let head = before_first(s, wanted);
        let tail = before_first(rest, wanted);
        assert(head =~= seq![s[0]] + tail);
        assert forall|i: int| 0 <= i < head.len() implies head[i] != wanted by {
            if i > 0 {
                assert(head[i] == tail[i - 1]);
                assert(tail.contains(tail[i - 1]));
            }
        }
        if head.len() < s.len() {
            assert(rest[tail.len() as int] == s[head.len() as int]);
        }
    }
}

/// The number that a row of digits stands for.
pub open spec fn number_of(digits: Seq<char>) -> int
    decreases digits.len(),
{
    if digits.len() == 0 {
        0
    } else {
        10 * number_of(digits.drop_last()) + (digits.last() as int - '0' as int)
    }
}

/// A numeral holds digits alone, stands for its number, and has no zero ahead of others.
pub proof fn law_numerals_stand_for_their_numbers(n: nat)
    ensures
        number_of(decimal(n)) == n,
        decimal(n).len() > 0,
        forall|i: int| 0 <= i < decimal(n).len() ==> '0' <= #[trigger] decimal(n)[i] <= '9',
        decimal(n)[0] == '0' ==> n == 0 && decimal(n).len() == 1,
    decreases n,
{
    reveal_strlit("0");
    reveal_strlit("1");
    reveal_strlit("2");
    reveal_strlit("3");
    reveal_strlit("4");
    reveal_strlit("5");
    reveal_strlit("6");
    reveal_strlit("7");
    reveal_strlit("8");
    reveal_strlit("9");
    if n < 10 {
        let text = decimal(n);
        assert(text.len() == 1);
        assert(text.drop_last() =~= Seq::<char>::empty());
        reveal_with_fuel(number_of, 2);
    } else {
        law_numerals_stand_for_their_numbers(n / 10);
        let head = decimal(n / 10);
        let unit = digit((n % 10) as int);
        let text = decimal(n);
        assert(unit.len() == 1);
        assert(text.drop_last() =~= head);
        assert(text.last() == unit[0]);
        assert(text[0] == head[0]);
        assert forall|i: int| 0 <= i < text.len() implies '0' <= #[trigger] text[i] <= '9' by {
            if i < head.len() {
                assert(text[i] == head[i]);
            }
        }
    }
}

/// Trimming takes the spaces and tabs off both ends and nothing else: what lies between them, if
/// it neither begins nor ends with one, is what is left.
pub proof fn law_trimming_takes_blanks_off_the_ends(s: Seq<char>, from: int, to: int)
    requires
        0 <= from <= to <= s.len(),
        forall|i: int| 0 <= i < from ==> #[trigger] s[i] == ' ' || s[i] == '\t',
        forall|i: int| to <= i < s.len() ==> #[trigger] s[i] == ' ' || s[i] == '\t',
        from < to ==> s[from] != ' ' && s[from] != '\t' && s[to - 1] != ' ' && s[to - 1] != '\t',
    ensures
        trimmed(s) == s.subrange(from, to),
    decreases s.len(),
{
    if s.len() == 0 {
        assert(s.subrange(from, to) =~= s);
    } else if is_blank(s[0]) {
        let rest = s.drop_first();
        if from > 0 {
            law_trimming_takes_blanks_off_the_ends(rest, from - 1, to - 1);
            assert(rest.subrange(from - 1, to - 1) =~= s.subrange(from, to));
        } else {
            assert(to == 0);
            law_trimming_takes_blanks_off_the_ends(rest, 0, 0);
            assert(rest.subrange(0, 0) =~= s.subrange(from, to));
        }
    } else if is_blank(s.last()) {
        assert(from == 0);
        let rest = s.drop_last();
        assert(to < s.len());
        law_trimming_takes_blanks_off_the_ends(rest, from, to);
        assert(rest.subrange(from, to) =~= s.subrange(from, to));
    } else {
        assert(from == 0);
        assert(to == s.len());
        assert(s.subrange(from, to) =~= s);
    }
}

} // verus!
