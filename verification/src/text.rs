//! Text as sequences of characters: searching, trimming and reading
//! decimal numbers.

use vstd::prelude::*;

verus! {

/// `needle` stands in `hay` at index `i`.
pub open spec fn occurs_at(hay: Seq<char>, needle: Seq<char>, i: int) -> bool {
    &&& 0 <= i
    &&& i + needle.len() <= hay.len()
    &&& hay.subrange(i, i + needle.len()) == needle
}

/// `needle` stands in `hay` at index `i` and nowhere before.
pub open spec fn is_first_occurrence(hay: Seq<char>, needle: Seq<char>, i: int) -> bool {
    &&& occurs_at(hay, needle, i)
    &&& forall|j: int| 0 <= j < i ==> !occurs_at(hay, needle, j)
}

/// The index at which `needle` first stands in `hay`.
pub open spec fn first_occurrence(hay: Seq<char>, needle: Seq<char>) -> Option<int> {
    if exists|i: int| is_first_occurrence(hay, needle, i) {
        Some(choose|i: int| is_first_occurrence(hay, needle, i))
    } else {
        None
    }
}

/// `text` without the characters of `set` at its start.
pub open spec fn trim_start(text: Seq<char>, set: Seq<char>) -> Seq<char>
    decreases text.len(),
{
    if text.len() > 0 && set.contains(text.first()) {
        trim_start(text.drop_first(), set)
    } else {
        text
    }
}

/// `text` without the characters of `set` at its end.
pub open spec fn trim_end(text: Seq<char>, set: Seq<char>) -> Seq<char>
    decreases text.len(),
{
    if text.len() > 0 && set.contains(text.last()) {
        trim_end(text.drop_last(), set)
    } else {
        text
    }
}

/// `text` without the characters of `set` at either end.
pub open spec fn trimmed(text: Seq<char>, set: Seq<char>) -> Seq<char> {
    trim_end(trim_start(text, set), set)
}

/// `c` is one of the ten decimal digits.
pub open spec fn is_digit(c: char) -> bool {
    '0' <= c <= '9'
}

/// Every character of `text` is a decimal digit.
pub open spec fn all_digits(text: Seq<char>) -> bool {
    forall|i: int| 0 <= i < text.len() ==> is_digit(#[trigger] text[i])
}

/// The number that the decimal digits of `text` write.
pub open spec fn digits_value(text: Seq<char>) -> nat
    decreases text.len(),
{
    if text.len() == 0 {
        0
    } else {
        digits_value(text.drop_last()) * 10 + (text.last() as nat - '0' as nat) as nat
    }
}

/// The number that `text` writes, where it is an optional `+` and then one
/// decimal digit or more, and the number is at most `limit`.
pub open spec fn unsigned_of(text: Seq<char>, limit: nat) -> Option<nat> {
    let digits = if text.len() > 0 && text.first() == '+' {
        text.drop_first()
    } else {
        text
    };
    if digits.len() > 0 && all_digits(digits) && digits_value(digits) <= limit {
        Some(digits_value(digits))
    } else {
        None
    }
}

/// At most one index is that of the first occurrence.
pub proof fn lemma_first_occurrence_is(hay: Seq<char>, needle: Seq<char>, i: int)
    requires
        is_first_occurrence(hay, needle, i),
    ensures
        first_occurrence(hay, needle) == Some(i),
{
    let j = choose|j: int| is_first_occurrence(hay, needle, j);
    if j < i {
        assert(!occurs_at(hay, needle, j));
    }
    if i < j {
        assert(!occurs_at(hay, needle, i));
    }
}

/// Where `needle` stands nowhere in `hay`, there is no first occurrence.
pub proof fn lemma_no_occurrence(hay: Seq<char>, needle: Seq<char>)
    requires
        forall|j: int| 0 <= j ==> !occurs_at(hay, needle, j),
    ensures
        first_occurrence(hay, needle) is None,
{
    if exists|i: int| is_first_occurrence(hay, needle, i) {
        let i = choose|i: int| is_first_occurrence(hay, needle, i);
        assert(occurs_at(hay, needle, i));
    }
}

/// The characters of `s`.
pub fn chars_of(s: &str) -> (chars: Vec<char>)
    ensures
        chars@ == s@,
{
    let mut chars: Vec<char> = Vec::new();
    for c in it: s.chars()
        invariant
            it.seq() == s@,
            chars@ == s@.take(it.index()),
    {
        chars.push(c);
        assert(s@.take(it.index() + 1) =~= s@.take(it.index()).push(c));
    }
    assert(s@.take(s@.len() as int) =~= s@);
    chars
}

/// Whether `needle` stands in `hay` at index `at`.
pub fn stands_at(hay: &[char], at: usize, needle: &[char]) -> (stands: bool)
    requires
        at + needle@.len() <= hay@.len(),
    ensures
        stands == occurs_at(hay@, needle@, at as int),
{
    let len: usize = hay.len();
    let mut k: usize = 0;
    while k < needle.len()
        invariant
            k <= needle@.len(),
            at + needle@.len() <= hay@.len() == len,
            forall|j: int| 0 <= j < k ==> hay@[at + j] == needle@[j],
        decreases needle@.len() - k,
    {
        if hay[at + k] != needle[k] {
            assert(hay@.subrange(at as int, at + needle@.len())[k as int] != needle@[k as int]);
            return false;
        }
        k = k + 1;
    }
    assert(hay@.subrange(at as int, at + needle@.len()) =~= needle@);
    true
}

/// The index at which `needle` first stands in the part of `hay` from
/// `from` up to `to`.
pub fn find_in(hay: &[char], from: usize, to: usize, needle: &[char]) -> (found: Option<usize>)
    requires
        from <= to <= hay@.len(),
    ensures
        match found {
            Some(i) => from <= i && i + needle@.len() <= to && first_occurrence(
                hay@.subrange(from as int, to as int),
                needle@,
            ) == Some(i - from),
            None => first_occurrence(hay@.subrange(from as int, to as int), needle@) is None,
        },
{
    let ghost part = hay@.subrange(from as int, to as int);
    if needle.len() > to - from {
        proof {
            lemma_no_occurrence(part, needle@);
        }
        return None;
    }
    let stop: usize = to - needle.len();
    let mut i: usize = from;
    loop
        invariant
            from <= i <= stop,
            stop + needle@.len() == to,
            from <= to <= hay@.len(),
            part == hay@.subrange(from as int, to as int),
            forall|j: int| 0 <= j < i - from ==> !occurs_at(part, needle@, j),
        decreases stop - i,
    {
        let stands = stands_at(hay, i, needle);
        proof {
            assert(part.subrange(i - from, i - from + needle@.len()) =~= hay@.subrange(
                i as int,
                i + needle@.len(),
            ));
        }
        if stands {
            proof {
                lemma_first_occurrence_is(part, needle@, i - from);
            }
            return Some(i);
        }
        if i == stop {
            proof {
                lemma_no_occurrence(part, needle@);
            }
            return None;
        }
        i = i + 1;
    }
}

/// Whether `c` is one of the characters of `set`.
pub fn is_in(set: &[char], c: char) -> (found: bool)
    ensures
        found == set@.contains(c),
{
    let mut k: usize = 0;
    while k < set.len()
        invariant
            k <= set@.len(),
            forall|j: int| 0 <= j < k ==> set@[j] != c,
        decreases set@.len() - k,
    {
        if set[k] == c {
            return true;
        }
        k = k + 1;
    }
    false
}

/// The bounds, within `hay`, of the part from `from` up to `to` without
/// the characters of `set` at either end.
pub fn trim_in(hay: &[char], from: usize, to: usize, set: &[char]) -> (bounds: (usize, usize))
    requires
        from <= to <= hay@.len(),
    ensures
        from <= bounds.0 <= bounds.1 <= to,
        hay@.subrange(bounds.0 as int, bounds.1 as int) == trimmed(
            hay@.subrange(from as int, to as int),
            set@,
        ),
{
    let mut a: usize = from;
    while a < to && is_in(set, hay[a])
        invariant
            from <= a <= to <= hay@.len(),
            trim_start(hay@.subrange(from as int, to as int), set@) == trim_start(
                hay@.subrange(a as int, to as int),
                set@,
            ),
        decreases to - a,
    {
        proof {
            assert(hay@.subrange(a as int, to as int).drop_first() =~= hay@.subrange(
                a + 1,
                to as int,
            ));
        }
        a = a + 1;
    }
    let mut b: usize = to;
    while a < b && is_in(set, hay[b - 1])
        invariant
            a <= b <= to <= hay@.len(),
            trim_end(hay@.subrange(a as int, to as int), set@) == trim_end(
                hay@.subrange(a as int, b as int),
                set@,
            ),
        decreases b - a,
    {
        proof {
            assert(hay@.subrange(a as int, b as int).drop_last() =~= hay@.subrange(
                a as int,
                b - 1,
            ));
        }
        b = b - 1;
    }
    (a, b)
}

/// The number written by the part of `hay` from `from` up to `to`: an
/// optional `+`, then one decimal digit or more, at most `limit` in all.
pub fn unsigned_in(hay: &[char], from: usize, to: usize, limit: u64) -> (number: Option<u64>)
    requires
        from <= to <= hay@.len(),
    ensures
        match number {
            Some(n) => unsigned_of(hay@.subrange(from as int, to as int), limit as nat) == Some(
                n as nat,
            ),
            None => unsigned_of(hay@.subrange(from as int, to as int), limit as nat) is None,
        },
{
    let ghost text = hay@.subrange(from as int, to as int);
    let start: usize = if from < to && hay[from] == '+' {
        from + 1
    } else {
        from
    };
    let ghost digits = hay@.subrange(start as int, to as int);
    proof {
        if start > from {
            assert(text.drop_first() =~= digits);
        } else {
            assert(text =~= digits);
        }
    }
    if start == to {
        return None;
    }
    let mut value: u128 = 0;
    let mut over: bool = false;
    let mut i: usize = start;
    proof {
        assert(digits.take(0) =~= Seq::<char>::empty());
    }
    while i < to
        invariant
            start <= i <= to <= hay@.len(),
            start < to,
            text == hay@.subrange(from as int, to as int),
            digits == hay@.subrange(start as int, to as int),
            digits == if text.len() > 0 && text.first() == '+' {
                text.drop_first()
            } else {
                text
            },
            all_digits(digits.take(i - start)),
            !over ==> value == digits_value(digits.take(i - start)) && value <= limit,
            over ==> digits_value(digits.take(i - start)) > limit,
        decreases to - i,
    {
        let c: char = hay[i];
        let ghost longer = digits.take(i - start + 1);
        proof {
            assert(longer.drop_last() =~= digits.take(i - start));
            assert(longer.last() == c);
        }
        if c < '0' || c > '9' {
            proof {
                assert(digits[i - start] == c);
                assert(!is_digit(digits[i - start]));
            }
            return None;
        }
        proof {
            assert forall|j: int| 0 <= j < longer.len() implies is_digit(#[trigger] longer[j]) by {
                if j < i - start {
                    assert(longer[j] == digits.take(i - start)[j]);
                }
            }
        }
        if !over {
            let digit: u128 = (c as u32 - '0' as u32) as u128;
            value = value * 10 + digit;
            if value > limit as u128 {
                over = true;
            }
        }
        i = i + 1;
    }
    proof {
        assert(digits.take(to - start) =~= digits);
    }
    if over {
        None
    } else {
        Some(value as u64)
    }
}

/// The characters that Unicode calls white space.
pub open spec fn whitespace() -> Seq<char> {
    seq![
        '\u{9}',
        '\u{a}',
        '\u{b}',
        '\u{c}',
        '\u{d}',
        '\u{20}',
        '\u{85}',
        '\u{a0}',
        '\u{1680}',
        '\u{2000}',
        '\u{2001}',
        '\u{2002}',
        '\u{2003}',
        '\u{2004}',
        '\u{2005}',
        '\u{2006}',
        '\u{2007}',
        '\u{2008}',
        '\u{2009}',
        '\u{200a}',
        '\u{2028}',
        '\u{2029}',
        '\u{202f}',
        '\u{205f}',
        '\u{3000}',
    ]
}

/// The characters that Unicode calls white space, as a set to trim by.
pub fn whitespace_set() -> (set: Vec<char>)
    ensures
        set@ == whitespace(),
{
    let set: Vec<char> = vec![
        '\u{9}',
        '\u{a}',
        '\u{b}',
        '\u{c}',
        '\u{d}',
        '\u{20}',
        '\u{85}',
        '\u{a0}',
        '\u{1680}',
        '\u{2000}',
        '\u{2001}',
        '\u{2002}',
        '\u{2003}',
        '\u{2004}',
        '\u{2005}',
        '\u{2006}',
        '\u{2007}',
        '\u{2008}',
        '\u{2009}',
        '\u{200a}',
        '\u{2028}',
        '\u{2029}',
        '\u{202f}',
        '\u{205f}',
        '\u{3000}',
    ];
    assert(set@ =~= whitespace());
    set
}

/// `s` without the characters of `set` at either end.
pub fn trim_by(s: &str, set: &[char]) -> (text: String)
    ensures
        text@ == trimmed(s@, set@),
{
    let chars = chars_of(s);
    let len: usize = chars.len();
    assert(chars@.subrange(0, len as int) =~= s@);
    let bounds = trim_in(chars.as_slice(), 0, len, set);
    let part = s.substring_char(bounds.0, bounds.1);
    assert(part@ =~= chars@.subrange(bounds.0 as int, bounds.1 as int));
    part.to_owned()
}

/// The number that `s` writes: an optional `+`, then one decimal digit or
/// more, at most `limit` in all.
pub fn unsigned_from(s: &str, limit: u64) -> (number: Option<u64>)
    ensures
        match number {
            Some(n) => unsigned_of(s@, limit as nat) == Some(n as nat),
            None => unsigned_of(s@, limit as nat) is None,
        },
{
    let chars = chars_of(s);
    let len: usize = chars.len();
    assert(chars@.subrange(0, len as int) =~= s@);
    unsigned_in(chars.as_slice(), 0, len, limit)
}

} // verus!
