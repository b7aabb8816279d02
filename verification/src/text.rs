//! Searching and rewriting text, stated over sequences of characters.

use vstd::prelude::*;

verus! {

/// `needle` stands in `hay` at position `i`.
pub open spec fn occurs_at(hay: Seq<char>, needle: Seq<char>, i: int) -> bool {
    &&& 0 <= i
    &&& i + needle.len() <= hay.len()
    &&& hay.subrange(i, i + needle.len()) == needle
}

/// `needle` stands somewhere in `hay`.
pub open spec fn occurs(hay: Seq<char>, needle: Seq<char>) -> bool {
    exists|i: int| occurs_at(hay, needle, i)
}

/// `i` is the leftmost position at which `needle` stands in `hay`.
pub open spec fn is_first_occurrence(hay: Seq<char>, needle: Seq<char>, i: int) -> bool {
    &&& occurs_at(hay, needle, i)
    &&& forall|j: int| 0 <= j < i ==> !occurs_at(hay, needle, j)
}

/// The leftmost position of `needle` in `hay`, if there is one.
pub open spec fn first_occurrence(hay: Seq<char>, needle: Seq<char>) -> Option<int> {
    if occurs(hay, needle) {
        Some(choose|i: int| is_first_occurrence(hay, needle, i))
    } else {
        None
    }
}

/// The characters of a string slice, in order.
pub fn to_chars(s: &str) -> (v: Vec<char>)
    ensures
        v@ == s@,
{
    let mut v: Vec<char> = Vec::new();
    let chars = s.chars();
    for c in it: chars
        invariant
            v@ == it.seq().take(it.index()),
            it.seq() == s@,
    {
        v.push(c);
    }
    v
}

/// Whether `needle` stands in `hay` at position `i`.
pub fn matches_at(hay: &Vec<char>, needle: &Vec<char>, i: usize) -> (r: bool)
    ensures
        r == occurs_at(hay@, needle@, i as int),
{
    let n: usize = needle.len();
    if n > hay.len() || i > hay.len() - n {
        return false;
    }
    let mut k: usize = 0;
    while k < n
        invariant
            k <= n,
            n == needle@.len(),
            i + n <= hay.len(),
            forall|j: int| 0 <= j < k ==> hay@[i + j] == needle@[j],
        decreases n - k,
    {
        if hay[i + k] != needle[k] {
            assert(hay@.subrange(i as int, i + n)[k as int] == hay@[i + k]);
            return false;
        }
        k += 1;
    }
    assert(hay@.subrange(i as int, i + n) =~= needle@);
    true
}

/// The leftmost position of `needle` in `hay`, counted in characters.
///
/// An empty `needle` stands at position 0 of every text.
pub fn find_chars(hay: &Vec<char>, needle: &Vec<char>) -> (r: Option<usize>)
    ensures
        match r {
            Some(i) => first_occurrence(hay@, needle@) == Some(i as int),
            None => first_occurrence(hay@, needle@) is None,
        },
{
    let mut i: usize = 0;
    loop
        invariant
            i <= hay.len(),
            forall|j: int| 0 <= j < i ==> !occurs_at(hay@, needle@, j),
        decreases hay.len() - i,
    {
        if matches_at(hay, needle, i) {
            proof {
                lemma_first_occurrence_is(hay@, needle@, i as int);
            }
            return Some(i);
        }
        if i == hay.len() {
            return None;
        }
        i += 1;
    }
}

/// The leftmost position of `needle` in `hay`, counted in characters.
pub fn find(hay: &str, needle: &str) -> (r: Option<usize>)
    ensures
        match r {
            Some(i) => first_occurrence(hay@, needle@) == Some(i as int),
            None => first_occurrence(hay@, needle@) is None,
        },
{
    let h = to_chars(hay);
    let n = to_chars(needle);
    find_chars(&h, &n)
}

/// Whether `needle` stands somewhere in `hay`.
pub fn contains(hay: &str, needle: &str) -> (r: bool)
    ensures
        r == occurs(hay@, needle@),
{
    find(hay, needle).is_some()
}

/// `s` with every occurrence of `from` replaced by `to`, reading from the
/// left and resuming after each replaced occurrence, so that occurrences
/// never overlap. An empty `from` replaces nothing.
pub open spec fn replaced(s: Seq<char>, from: Seq<char>, to: Seq<char>) -> Seq<char>
    decreases s.len(),
{
    if s.len() == 0 {
        s
    } else if from.len() > 0 && occurs_at(s, from, 0) {
        to + replaced(s.skip(from.len() as int), from, to)
    } else {
        seq![s[0]] + replaced(s.skip(1), from, to)
    }
}

/// Appends the characters of `extra` to `out`.
pub fn append_chars(out: &mut Vec<char>, extra: &Vec<char>)
    ensures
        final(out)@ == old(out)@ + extra@,
{
    let mut k: usize = 0;
    while k < extra.len()
        invariant
            k <= extra.len(),
            out@ == old(out)@ + extra@.take(k as int),
        decreases extra.len() - k,
    {
        out.push(extra[k]);
        k += 1;
        assert(extra@.take(k as int) =~= extra@.take(k - 1).push(extra@[k - 1]));
    }
    assert(extra@.take(k as int) =~= extra@);
}

/// Appends the characters of `source` from position `from` up to, not
/// including, position `to` to `out`.
pub(crate) fn append_range(out: &mut Vec<char>, source: &Vec<char>, from: usize, to: usize)
    requires
        from <= to <= source.len(),
    ensures
        final(out)@ == old(out)@ + source@.subrange(from as int, to as int),
{
    let mut k: usize = from;
    assert(source@.subrange(from as int, from as int) =~= Seq::<char>::empty());
    while k < to
        invariant
            from <= k <= to <= source.len(),
            out@ == old(out)@ + source@.subrange(from as int, k as int),
        decreases to - k,
    {
        out.push(source[k]);
        k += 1;
        assert(source@.subrange(from as int, k as int) =~= source@.subrange(
            from as int,
            k - 1,
        ).push(source@[k - 1]));
    }
}

/// `line` with every occurrence of `from` replaced by `to`.
pub fn replace_chars(line: &Vec<char>, from: &Vec<char>, to: &Vec<char>) -> (out: Vec<char>)
    ensures
        out@ == replaced(line@, from@, to@),
{
    let mut out: Vec<char> = Vec::new();
    let mut i: usize = 0;
    assert(line@.skip(0) =~= line@);
    assert(out@ + replaced(line@, from@, to@) =~= replaced(line@, from@, to@));
    while i < line.len()
        invariant
            i <= line.len(),
            out@ + replaced(line@.skip(i as int), from@, to@) == replaced(line@, from@, to@),
        decreases line.len() - i,
    {
        let ghost rest = line@.skip(i as int);
        let ghost before = out@;
        proof {
            assert(rest.len() > 0);
            assert(rest[0] == line@[i as int]);
            assert(occurs_at(rest, from@, 0) == occurs_at(line@, from@, i as int)) by {
                if i + from@.len() <= line@.len() {
                    assert(rest.subrange(0, from@.len() as int) =~= line@.subrange(
                        i as int,
                        i + from@.len(),
                    ));
                }
            }
        }
        if from.len() > 0 && matches_at(line, from, i) {
            append_chars(&mut out, to);
            proof {
                assert(rest.skip(from@.len() as int) =~= line@.skip(i + from@.len()));
                assert((out@ + replaced(line@.skip(i + from@.len()), from@, to@)) =~= (
                before + replaced(rest, from@, to@)));
            }
            i += from.len();
        } else {
            out.push(line[i]);
            proof {
                assert(rest.skip(1) =~= line@.skip(i + 1));
                assert((out@ + replaced(line@.skip(i + 1), from@, to@)) =~= (before + replaced(
                    rest,
                    from@,
                    to@,
                )));
            }
            i += 1;
        }
    }
    assert(line@.skip(i as int) =~= Seq::<char>::empty());
    out
}

/// Appends one character to a string.
///
/// Trusted: the body is `String::push`, which the standard library documents
/// as appending the given character to the end of the string.
#[verifier::external_body]
fn push_char(s: &mut String, c: char)
    ensures
        final(s)@ == old(s)@.push(c),
{
    s.push(c)
}

/// The string made of the characters of `chars`, in order.
pub fn from_chars(chars: &Vec<char>) -> (s: String)
    ensures
        s@ == chars@,
{
    let mut s = String::new();
    let mut k: usize = 0;
    while k < chars.len()
        invariant
            k <= chars.len(),
            s@ == chars@.take(k as int),
        decreases chars.len() - k,
    {
        push_char(&mut s, chars[k]);
        k += 1;
        assert(chars@.take(k as int) =~= chars@.take(k - 1).push(chars@[k - 1]));
    }
    assert(chars@.take(k as int) =~= chars@);
    s
}

/// `s` with every occurrence of `from` replaced by `to`.
pub fn replace(s: &str, from: &str, to: &str) -> (out: String)
    ensures
        out@ == replaced(s@, from@, to@),
{
    let line = to_chars(s);
    let f = to_chars(from);
    let t = to_chars(to);
    let r = replace_chars(&line, &f, &t);
    from_chars(&r)
}

/// A text in which `from` does not stand is left as it is.
pub proof fn lemma_replaced_without_occurrence(s: Seq<char>, from: Seq<char>, to: Seq<char>)
    requires
        !occurs(s, from),
    ensures
        replaced(s, from, to) == s,
    decreases s.len(),
{
    if s.len() > 0 {
        assert(!occurs_at(s, from, 0));
        let rest = s.skip(1);
        assert forall|j: int| !occurs_at(rest, from, j) by {
            if occurs_at(rest, from, j) {
                assert(rest.subrange(j, j + from.len()) =~= s.subrange(j + 1, j + 1 + from.len()));
                assert(occurs_at(s, from, j + 1));
            }
        }
        lemma_replaced_without_occurrence(rest, from, to);
        assert(seq![s[0]] + rest =~= s);
    }
}

/// Up to the leftmost occurrence of `from` the text is kept, the occurrence
/// becomes `to`, and replacing goes on behind it.
pub proof fn lemma_replaced_at_first_occurrence(
    s: Seq<char>,
    from: Seq<char>,
    to: Seq<char>,
    i: int,
)
    requires
        from.len() > 0,
        is_first_occurrence(s, from, i),
    ensures
        replaced(s, from, to) == s.take(i) + to + replaced(s.skip(i + from.len()), from, to),
    decreases i,
{
    if i == 0 {
        assert(s.take(0) + to =~= to);
    } else {
        assert(!occurs_at(s, from, 0));
        let rest = s.skip(1);
        assert(rest.subrange(i - 1, i - 1 + from.len()) =~= s.subrange(i, i + from.len()));
        assert forall|j: int| 0 <= j < i - 1 implies !occurs_at(rest, from, j) by {
            if occurs_at(rest, from, j) {
                assert(rest.subrange(j, j + from.len()) =~= s.subrange(j + 1, j + 1 + from.len()));
                assert(occurs_at(s, from, j + 1));
            }
        }
        lemma_replaced_at_first_occurrence(rest, from, to, i - 1);
        assert(rest.skip(i - 1 + from.len()) =~= s.skip(i + from.len()));
        assert(seq![s[0]] + rest.take(i - 1) =~= s.take(i));
        assert(seq![s[0]] + (rest.take(i - 1) + to + replaced(
            s.skip(i + from.len()),
            from,
            to,
        )) =~= s.take(i) + to + replaced(s.skip(i + from.len()), from, to));
    }
}

/// What stands at position `j` behind the first `k` characters stands at
/// position `k + j` of the whole text.
pub proof fn lemma_occurs_at_skip(s: Seq<char>, needle: Seq<char>, k: int, j: int)
    requires
        0 <= k <= s.len(),
        0 <= j,
    ensures
        occurs_at(s.skip(k), needle, j) == occurs_at(s, needle, k + j),
{
    if k + j + needle.len() <= s.len() {
        assert(s.skip(k).subrange(j, j + needle.len()) =~= s.subrange(
            k + j,
            k + j + needle.len(),
        ));
    }
}

/// Where `from` stands once in a text, at position `i`, that occurrence is
/// replaced and the rest of the text is kept.
pub proof fn lemma_replaced_single_occurrence(
    s: Seq<char>,
    from: Seq<char>,
    to: Seq<char>,
    i: int,
)
    requires
        from.len() > 0,
        occurs_at(s, from, i),
        forall|j: int| #[trigger] occurs_at(s, from, j) ==> j == i,
    ensures
        replaced(s, from, to) == s.take(i) + to + s.skip(i + from.len()),
{
    lemma_replaced_at_first_occurrence(s, from, to, i);
    let tail = s.skip(i + from.len());
    assert forall|j: int| !occurs_at(tail, from, j) by {
        if 0 <= j {
            lemma_occurs_at_skip(s, from, i + from.len(), j);
        }
    }
    lemma_replaced_without_occurrence(tail, from, to);
}

/// Where `from` stands exactly twice, both occurrences are replaced.
pub proof fn lemma_replaced_two_occurrences(
    a: Seq<char>,
    b: Seq<char>,
    c: Seq<char>,
    from: Seq<char>,
    to: Seq<char>,
)
    requires
        from.len() > 0,
        forall|j: int| #[trigger]
            occurs_at(a + from + b + from + c, from, j) ==> j == a.len() || j == a.len()
                + from.len() + b.len(),
    ensures
        replaced(a + from + b + from + c, from, to) == a + to + b + to + c,
{
    let n = from.len() as int;
    let line = a + from + b + from + c;
    let first = a.len() as int;
    let rest = line.skip(first + n);
    assert(occurs_at(line, from, first)) by {
        assert(line.subrange(first, first + n) =~= from);
    }
    assert(replaced(line, from, to) == line.take(first) + to + replaced(rest, from, to)) by {
        lemma_replaced_at_first_occurrence(line, from, to, first);
    }
    assert(rest =~= b + from + c);
    assert(occurs_at(rest, from, b.len() as int)) by {
        assert(rest.subrange(b.len() as int, b.len() + n) =~= from);
    }
    assert forall|j: int| #[trigger] occurs_at(rest, from, j) implies j == b.len() by {
        lemma_occurs_at_skip(line, from, first + n, j);
    }
    assert(replaced(rest, from, to) == rest.take(b.len() as int) + to + rest.skip(b.len() + n))
        by {
        lemma_replaced_single_occurrence(rest, from, to, b.len() as int);
    }
    assert(line.take(first) =~= a);
    assert(rest.take(b.len() as int) =~= b);
    assert(rest.skip(b.len() + n) =~= c);
    assert(a + to + (b + to + c) =~= a + to + b + to + c);
}

/// Replacing by a text that is no shorter makes no text shorter, and
/// replacing by a text that is no longer makes no text longer.
pub proof fn lemma_replaced_len(s: Seq<char>, from: Seq<char>, to: Seq<char>)
    ensures
        to.len() >= from.len() ==> replaced(s, from, to).len() >= s.len(),
        to.len() <= from.len() ==> replaced(s, from, to).len() <= s.len(),
    decreases s.len(),
{
    if s.len() > 0 {
        if from.len() > 0 && occurs_at(s, from, 0) {
            lemma_replaced_len(s.skip(from.len() as int), from, to);
        } else {
            lemma_replaced_len(s.skip(1), from, to);
        }
    }
}

/// Replacing an occurrence by a different text changes the text: where the
/// two differ in a character that both have, or in their lengths, the result
/// is not the text that was given.
pub proof fn lemma_replaced_differs(s: Seq<char>, from: Seq<char>, to: Seq<char>)
    requires
        from.len() > 0,
        occurs(s, from),
        to.len() != from.len() || exists|d: int| 0 <= d < from.len() && from[d] != to[d],
    ensures
        replaced(s, from, to) != s,
{
    lemma_first_occurrence(s, from);
    let i = first_occurrence(s, from)->0;
    lemma_replaced_at_first_occurrence(s, from, to, i);
    let rest = s.skip(i + from.len());
    let out = replaced(s, from, to);
    lemma_replaced_len(rest, from, to);
    assert(out.len() == i + to.len() + replaced(rest, from, to).len());
    assert(s.len() == i + from.len() + rest.len());
    if to.len() == from.len() {
        let d = choose|d: int| 0 <= d < from.len() && from[d] != to[d];
        assert(s.subrange(i, i + from.len())[d] == s[i + d]);
        assert(out[i + d] == to[d]);
    }
}

/// A leftmost position is the one that `first_occurrence` names.
pub proof fn lemma_first_occurrence_is(hay: Seq<char>, needle: Seq<char>, i: int)
    requires
        is_first_occurrence(hay, needle, i),
    ensures
        first_occurrence(hay, needle) == Some(i),
{
    let k = choose|k: int| is_first_occurrence(hay, needle, k);
    assert(occurs_at(hay, needle, i));
    if k < i {
        assert(!occurs_at(hay, needle, k));
    } else if i < k {
        assert(!occurs_at(hay, needle, i));
    }
}

/// Below any position at which `needle` stands there is a leftmost one.
pub proof fn lemma_least_occurrence(hay: Seq<char>, needle: Seq<char>, i: int)
    requires
        occurs_at(hay, needle, i),
    ensures
        exists|k: int| 0 <= k <= i && is_first_occurrence(hay, needle, k),
    decreases i,
{
    if forall|j: int| 0 <= j < i ==> !occurs_at(hay, needle, j) {
        assert(is_first_occurrence(hay, needle, i));
    } else {
        let j = choose|j: int| 0 <= j < i && occurs_at(hay, needle, j);
        lemma_least_occurrence(hay, needle, j);
    }
}

/// What `first_occurrence` names is a leftmost position, and it names one
/// whenever `needle` stands in `hay` at all.
pub proof fn lemma_first_occurrence(hay: Seq<char>, needle: Seq<char>)
    ensures
        match first_occurrence(hay, needle) {
            Some(i) => is_first_occurrence(hay, needle, i),
            None => !occurs(hay, needle),
        },
{
    if occurs(hay, needle) {
        let i = choose|i: int| occurs_at(hay, needle, i);
        lemma_least_occurrence(hay, needle, i);
    }
}

/// The character for a digit; every number from nine on has the character
/// of nine.
pub open spec fn digit(d: nat) -> char {
    if d == 0 {
        '0'
    } else if d == 1 {
        '1'
    } else if d == 2 {
        '2'
    } else if d == 3 {
        '3'
    } else if d == 4 {
        '4'
    } else if d == 5 {
        '5'
    } else if d == 6 {
        '6'
    } else if d == 7 {
        '7'
    } else if d == 8 {
        '8'
    } else {
        '9'
    }
}

/// The number written in base ten, without leading zeros.
pub open spec fn decimal(n: nat) -> Seq<char>
    decreases n,
{
    if n < 10 {
        seq![digit(n)]
    } else {
        decimal(n / 10).push(digit(n % 10))
    }
}

/// The character for a digit; every number from nine on has the character
/// of nine.
pub fn digit_char(d: u8) -> (c: char)
    ensures
        c == digit(d as nat),
{
    if d == 0 {
        '0'
    } else if d == 1 {
        '1'
    } else if d == 2 {
        '2'
    } else if d == 3 {
        '3'
    } else if d == 4 {
        '4'
    } else if d == 5 {
        '5'
    } else if d == 6 {
        '6'
    } else if d == 7 {
        '7'
    } else if d == 8 {
        '8'
    } else {
        '9'
    }
}

/// The number written in base ten, without leading zeros.
pub fn to_decimal(n: u128) -> (s: String)
    ensures
        s@ == decimal(n as nat),
{
    let mut digits: Vec<char> = Vec::new();
    let mut rest: u128 = n;
    while rest >= 10
        invariant
            decimal(rest as nat) + digits@.reverse() == decimal(n as nat),
        decreases rest,
    {
        let ghost before = digits@;
        digits.push(digit_char((rest % 10) as u8));
        proof {
            let d = digit((rest % 10) as nat);
            assert(digits@.reverse() =~= seq![d] + before.reverse());
            assert(decimal(rest as nat) == decimal((rest / 10) as nat).push(d));
            assert(decimal((rest / 10) as nat) + digits@.reverse() =~= decimal(rest as nat)
                + before.reverse());
        }
        rest = rest / 10;
    }
    digits.push(digit_char(rest as u8));
    let mut text: Vec<char> = Vec::new();
    let mut k: usize = digits.len();
    while k > 0
        invariant
            k <= digits.len(),
            text@ == digits@.reverse().take(digits.len() - k),
        decreases k,
    {
        k -= 1;
        text.push(digits[k]);
        assert(digits@.reverse().take(digits.len() - k) =~= digits@.reverse().take(
            digits.len() - k - 1,
        ).push(digits@[k as int]));
    }
    assert(digits@.reverse().take(digits.len() as int) =~= digits@.reverse());
    from_chars(&text)
}

/// A number of one digit is written with one character, every other number
/// with more.
pub proof fn lemma_decimal_len(n: nat)
    ensures
        decimal(n).len() >= 1,
        n >= 10 ==> decimal(n).len() >= 2,
    decreases n,
{
    if n >= 10 {
        lemma_decimal_len(n / 10);
    }
}

/// Different numbers are written differently.
pub proof fn lemma_decimal_is_injective(a: nat, b: nat)
    requires
        decimal(a) == decimal(b),
    ensures
        a == b,
    decreases a,
{
    lemma_decimal_len(a);
    lemma_decimal_len(b);
    if a >= 10 && b >= 10 {
        let x = decimal(a / 10);
        let y = decimal(b / 10);
        assert(decimal(a).drop_last() =~= x);
        assert(decimal(b).drop_last() =~= y);
        assert(decimal(a).last() == digit(a % 10));
        assert(decimal(b).last() == digit(b % 10));
        lemma_decimal_is_injective(a / 10, b / 10);
    } else if a < 10 && b < 10 {
        assert(decimal(a)[0] == digit(a));
        assert(decimal(b)[0] == digit(b));
    }
}

/// Whether `a` stands before `b`, or is `b`, in the order of a dictionary
/// whose letters are ordered by their code points: the first character in
/// which the two differ decides, and a text stands before every text that
/// it begins.
pub open spec fn text_le(a: Seq<char>, b: Seq<char>) -> bool
    decreases a.len(),
{
    if a.len() == 0 {
        true
    } else if b.len() == 0 {
        false
    } else if a[0] != b[0] {
        (a[0] as u32) < (b[0] as u32)
    } else {
        text_le(a.skip(1), b.skip(1))
    }
}

/// Every text stands in the order with itself.
pub proof fn lemma_text_le_reflexive(a: Seq<char>)
    ensures
        text_le(a, a),
    decreases a.len(),
{
    if a.len() > 0 {
        lemma_text_le_reflexive(a.skip(1));
    }
}

/// Of two texts one stands before the other, or they are the same.
pub proof fn lemma_text_le_total(a: Seq<char>, b: Seq<char>)
    ensures
        text_le(a, b) || text_le(b, a),
    decreases a.len(),
{
    if a.len() > 0 && b.len() > 0 {
        if a[0] == b[0] {
            lemma_text_le_total(a.skip(1), b.skip(1));
        } else {
            assert(a[0] as u32 != b[0] as u32) by {
                vstd::utf8::char_u32_cast(a[0], a[0] as u32);
                vstd::utf8::char_u32_cast(b[0], b[0] as u32);
            }
        }
    }
}

/// What stands before a text stands before everything behind that text.
pub proof fn lemma_text_le_transitive(a: Seq<char>, b: Seq<char>, c: Seq<char>)
    requires
        text_le(a, b),
        text_le(b, c),
    ensures
        text_le(a, c),
    decreases a.len(),
{
    if a.len() > 0 && b.len() > 0 && c.len() > 0 && a[0] == b[0] && b[0] == c[0] {
        lemma_text_le_transitive(a.skip(1), b.skip(1), c.skip(1));
    }
}

/// Two texts that stand before each other are the same text.
pub proof fn lemma_text_le_antisymmetric(a: Seq<char>, b: Seq<char>)
    requires
        text_le(a, b),
        text_le(b, a),
    ensures
        a == b,
    decreases a.len(),
{
    if a.len() > 0 && b.len() > 0 {
        lemma_text_le_antisymmetric(a.skip(1), b.skip(1));
        assert(a =~= seq![a[0]] + a.skip(1));
        assert(b =~= seq![b[0]] + b.skip(1));
    } else {
        assert(a =~= b);
    }
}

/// Whether `a` stands before `b`, or is `b`, in dictionary order.
pub fn precedes(a: &Vec<char>, b: &Vec<char>) -> (r: bool)
    ensures
        r == text_le(a@, b@),
{
    let mut i: usize = 0;
    assert(a@.skip(0) =~= a@);
    assert(b@.skip(0) =~= b@);
    while i < a.len() && i < b.len()
        invariant
            i <= a.len(),
            i <= b.len(),
            text_le(a@, b@) == text_le(a@.skip(i as int), b@.skip(i as int)),
        decreases a.len() - i,
    {
        if a[i] != b[i] {
            return (a[i] as u32) < (b[i] as u32);
        }
        assert(a@.skip(i as int).skip(1) =~= a@.skip(i + 1));
        assert(b@.skip(i as int).skip(1) =~= b@.skip(i + 1));
        i += 1;
    }
    i == a.len()
}

} // verus!
