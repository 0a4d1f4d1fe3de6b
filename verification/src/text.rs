//! Character-sequence helpers shared by the name, path and message code.
//!
//! Strings are reasoned about through their `Seq<char>` view.
use vstd::prelude::*;

verus! {

/// Decimal digits of `n`, most significant first, without leading zeros.
pub open spec fn decimal(n: nat) -> Seq<char>
    decreases n,
{
    if n < 10 {
        seq![digit_char(n)]
    } else {
        decimal(n / 10).push(digit_char(n % 10))
    }
}

pub open spec fn digit_char(d: nat) -> char {
    if d == 0 {
        '0'
    } else if d == 1 {
        '1'
    } else if d == 2 {
        '2'
    } else if d == 3 {
        '3'
    } else if d == 4 {
        '4'
    } else if d == 5 {
        '5'
    } else if d == 6 {
        '6'
    } else if d == 7 {
        '7'
    } else if d == 8 {
        '8'
    } else {
        '9'
    }
}

fn digit(d: u64) -> (c: char)
    requires
        d < 10,
    ensures
        c == digit_char(d as nat),
{
    if d == 0 {
        '0'
    } else if d == 1 {
        '1'
    } else if d == 2 {
        '2'
    } else if d == 3 {
        '3'
    } else if d == 4 {
        '4'
    } else if d == 5 {
        '5'
    } else if d == 6 {
        '6'
    } else if d == 7 {
        '7'
    } else if d == 8 {
        '8'
    } else {
        '9'
    }
}

/// Appends one character; `String::push`.
#[verifier::external_body]
pub(crate) fn push_char(s: &mut String, c: char)
    ensures
        final(s)@ == old(s)@.push(c),
{
    s.push(c);
}

/// Appends the decimal text of `n` to `out`.
pub fn push_decimal(out: &mut String, n: u64)
    ensures
        final(out)@ == old(out)@ + decimal(n as nat),
    decreases n,
{
    if n < 10 {
        push_char(out, digit(n));
        assert(decimal(n as nat) == seq![digit_char(n as nat)]);
    } else {
        push_decimal(out, n / 10);
        push_char(out, digit(n % 10));
        assert(decimal(n as nat) == decimal((n / 10) as nat).push(digit_char((n % 10) as nat)));
    }
}

/// Appends `piece` to `out`.
pub fn push_str(out: &mut String, piece: &str)
    ensures
        final(out)@ == old(out)@ + piece@,
{
    out.append(piece);
}

/// `s` contains `c` somewhere.
pub open spec fn has_char(s: Seq<char>, c: char) -> bool {
    exists|i: int| 0 <= i < s.len() && s[i] == c
}

/// Index of the first `c` in `s`, if any.
pub open spec fn first_index(s: Seq<char>, c: char) -> Option<int>
    decreases s.len(),
{
    if s.len() == 0 {
        None
    } else if s[0] == c {
        Some(0)
    } else {
        match first_index(s.drop_first(), c) {
            Some(i) => Some(i + 1),
            None => None,
        }
    }
}

/// Index of the last `c` in `s`, if any.
pub open spec fn last_index(s: Seq<char>, c: char) -> Option<int>
    decreases s.len(),
{
    if s.len() == 0 {
        None
    } else if s.last() == c {
        Some(s.len() - 1)
    } else {
        last_index(s.drop_last(), c)
    }
}

pub proof fn lemma_first_index(s: Seq<char>, c: char)
    ensures
        first_index(s, c) matches Some(i) ==> 0 <= i < s.len() && s[i] == c && forall|j: int|
            0 <= j < i ==> s[j] != c,
        first_index(s, c) is None ==> forall|j: int| 0 <= j < s.len() ==> s[j] != c,
    decreases s.len(),
{
    if s.len() > 0 {
        lemma_first_index(s.drop_first(), c);
        if s[0] != c {
            assert forall|j: int| 1 <= j < s.len() implies s[j] == s.drop_first()[j - 1] by {}
        }
    }
}

pub proof fn lemma_last_index(s: Seq<char>, c: char)
    ensures
        last_index(s, c) matches Some(i) ==> 0 <= i < s.len() && s[i] == c && forall|j: int|
            i < j < s.len() ==> s[j] != c,
        last_index(s, c) is None ==> forall|j: int| 0 <= j < s.len() ==> s[j] != c,
    decreases s.len(),
{
    if s.len() > 0 {
        lemma_last_index(s.drop_last(), c);
        assert forall|j: int| 0 <= j < s.len() - 1 implies s[j] == s.drop_last()[j] by {}
    }
}

/// The characters of `s` as a vector.
pub fn chars_of(s: &str) -> (v: Vec<char>)
    ensures
        v@ == s@,
{
    let n = s.unicode_len();
    let mut v: Vec<char> = Vec::new();
    let mut i: usize = 0;
    while i < n
        invariant
            n == s@.len(),
            i <= n,
            v@ == s@.subrange(0, i as int),
        decreases n - i,
    {
        v.push(s.get_char(i));
        i = i + 1;
        assert(v@ =~= s@.subrange(0, i as int));
    }
    assert(v@ =~= s@);
    v
}

/// A string holding exactly the characters `chars[from..to]`.
pub fn string_of(chars: &Vec<char>, from: usize, to: usize) -> (s: String)
    requires
        from <= to <= chars.len(),
    ensures
        s@ == chars@.subrange(from as int, to as int),
{
    let mut s = String::new();
    let mut i = from;
    while i < to
        invariant
            from <= i <= to <= chars.len(),
            s@ == chars@.subrange(from as int, i as int),
        decreases to - i,
    {
        push_char(&mut s, chars[i]);
        i = i + 1;
        assert(s@ =~= chars@.subrange(from as int, i as int));
    }
    s
}

/// Position of the first `c` in `chars`.
pub fn find_char(chars: &Vec<char>, c: char) -> (r: Option<usize>)
    ensures
        r matches Some(i) ==> first_index(chars@, c) == Some(i as int),
        r is None ==> first_index(chars@, c) is None,
{
    proof {
        lemma_first_index(chars@, c);
    }
    let mut i: usize = 0;
    while i < chars.len()
        invariant
            i <= chars.len(),
            forall|j: int| 0 <= j < i ==> chars@[j] != c,
        decreases chars.len() - i,
    {
        if chars[i] == c {
            proof {
                lemma_first_index_at(chars@, c, i as int);
            }
            return Some(i);
        }
        i = i + 1;
    }
    proof {
        if first_index(chars@, c) is Some {
            let k = first_index(chars@, c)->0;
            assert(chars@[k] == c);
        }
    }
    None
}

proof fn lemma_first_index_at(s: Seq<char>, c: char, i: int)
    requires
        0 <= i < s.len(),
        s[i] == c,
        forall|j: int| 0 <= j < i ==> s[j] != c,
    ensures
        first_index(s, c) == Some(i),
    decreases s.len(),
{
    if i > 0 {
        lemma_first_index_at(s.drop_first(), c, i - 1);
    }
}

pub proof fn lemma_last_index_at(s: Seq<char>, c: char, i: int)
    requires
        0 <= i < s.len(),
        s[i] == c,
        forall|j: int| i < j < s.len() ==> s[j] != c,
    ensures
        last_index(s, c) == Some(i),
    decreases s.len(),
{
    if i < s.len() - 1 {
        lemma_last_index_at(s.drop_last(), c, i);
    }
}

/// Position of the last `c` in `chars`.
pub fn rfind_char(chars: &Vec<char>, c: char) -> (r: Option<usize>)
    ensures
        r matches Some(i) ==> last_index(chars@, c) == Some(i as int),
        r is None ==> last_index(chars@, c) is None,
{
    proof {
        lemma_last_index(chars@, c);
    }
    let mut i: usize = chars.len();
    while i > 0
        invariant
            i <= chars.len(),
            forall|j: int| i <= j < chars.len() ==> chars@[j] != c,
        decreases i,
    {
        if chars[i - 1] == c {
            proof {
                lemma_last_index_at(chars@, c, i - 1);
            }
            return Some(i - 1);
        }
        i = i - 1;
    }
    proof {
        if last_index(chars@, c) is Some {
            let k = last_index(chars@, c)->0;
            assert(chars@[k] == c);
        }
    }
    None
}

/// Character-wise equality of two strings.
pub fn str_eq(a: &str, b: &str) -> (r: bool)
    ensures
        r == (a@ == b@),
{
    let n = a.unicode_len();
    let m = b.unicode_len();
    if n != m {
        return false;
    }
    let mut i: usize = 0;
    while i < n
        invariant
            n == a@.len(),
            m == b@.len(),
            n == m,
            i <= n,
            forall|j: int| 0 <= j < i ==> a@[j] == b@[j],
        decreases n - i,
    {
        if a.get_char(i) != b.get_char(i) {
            return false;
        }
        i = i + 1;
    }
    assert(a@ =~= b@);
    true
}

/// `s` starts with `prefix`.
pub open spec fn starts_with(s: Seq<char>, prefix: Seq<char>) -> bool {
    prefix.len() <= s.len() && s.subrange(0, prefix.len() as int) == prefix
}

/// `needle` occurs in `s` at position `i`.
pub open spec fn occurs_at(s: Seq<char>, needle: Seq<char>, i: int) -> bool {
    0 <= i && i + needle.len() <= s.len() && s.subrange(i, i + needle.len()) == needle
}

/// `needle` occurs somewhere in `s`.
pub open spec fn contains_seq(s: Seq<char>, needle: Seq<char>) -> bool {
    exists|i: int| occurs_at(s, needle, i)
}

/// Whether `chars[at..]` begins with `needle`.
pub fn matches_at(chars: &Vec<char>, needle: &Vec<char>, at: usize) -> (r: bool)
    ensures
        r == occurs_at(chars@, needle@, at as int),
{
    if at > chars.len() || needle.len() > chars.len() - at {
        return false;
    }
    let mut k: usize = 0;
    while k < needle.len()
        invariant
            at + needle.len() <= chars.len(),
            k <= needle.len(),
            forall|j: int| 0 <= j < k ==> chars@[at + j] == needle@[j],
        decreases needle.len() - k,
    {
        if chars[at + k] != needle[k] {
            assert(chars@.subrange(at as int, at + needle.len())[k as int] != needle@[k as int]);
            return false;
        }
        k = k + 1;
    }
    assert(chars@.subrange(at as int, at + needle.len()) =~= needle@);
    true
}

/// Whether `needle` occurs anywhere in `chars`.
pub fn contains_chars(chars: &Vec<char>, needle: &Vec<char>) -> (r: bool)
    ensures
        r == contains_seq(chars@, needle@),
{
    let mut at: usize = 0;
    while at < chars.len()
        invariant
            at <= chars.len(),
            forall|i: int| 0 <= i < at ==> !occurs_at(chars@, needle@, i),
        decreases chars.len() - at,
    {
        if matches_at(chars, needle, at) {
            return true;
        }
        at = at + 1;
    }
    if matches_at(chars, needle, at) {
        return true;
    }
    assert forall|i: int| !occurs_at(chars@, needle@, i) by {
        if i > at {
            assert(i + needle@.len() > chars@.len());
        }
    }
    false
}

/// The pieces of `s` between occurrences of `c` (like `str::split`).
pub open spec fn segments(s: Seq<char>, c: char) -> Seq<Seq<char>>
    decreases s.len(),
{
    match first_index(s, c) {
        Some(i) => if 0 <= i < s.len() {
            seq![s.take(i)] + segments(s.skip(i + 1), c)
        } else {
            seq![s]
        },
        None => seq![s],
    }
}

pub proof fn lemma_segments_nonempty(s: Seq<char>, c: char)
    ensures
        segments(s, c).len() >= 1,
    decreases s.len(),
{
    lemma_first_index(s, c);
    if let Some(i) = first_index(s, c) {
        lemma_segments_nonempty(s.skip(i + 1), c);
    }
}

/// Position of the first `c` at or after `from`.
pub fn find_char_from(chars: &Vec<char>, c: char, from: usize) -> (r: Option<usize>)
    requires
        from <= chars.len(),
    ensures
        r matches Some(i) ==> from <= i < chars.len() && first_index(chars@.skip(from as int), c)
            == Some(i - from),
        r is None ==> first_index(chars@.skip(from as int), c) is None,
{
    let ghost tail = chars@.skip(from as int);
    proof {
        lemma_first_index(tail, c);
    }
    let mut i = from;
    while i < chars.len()
        invariant
            from <= i <= chars.len(),
            tail == chars@.skip(from as int),
            forall|j: int| from <= j < i ==> chars@[j] != c,
        decreases chars.len() - i,
    {
        if chars[i] == c {
            proof {
                assert forall|j: int| 0 <= j < i - from implies tail[j] != c by {
                    assert(tail[j] == chars@[j + from]);
                }
                assert(tail[i - from] == c);
                lemma_first_index_at(tail, c, i - from);
            }
            return Some(i);
        }
        i = i + 1;
    }
    proof {
        if first_index(tail, c) is Some {
            let k = first_index(tail, c)->0;
            assert(tail[k] == chars@[k + from]);
        }
    }
    None
}

/// `r` is a character range of `chars` holding exactly `piece`.
pub open spec fn range_holds(chars: Seq<char>, r: (usize, usize), piece: Seq<char>) -> bool {
    r.0 <= r.1 <= chars.len() && chars.subrange(r.0 as int, r.1 as int) == piece
}

/// Character ranges `[start, end)` of the pieces of `chars` split at `c`.
pub fn split_ranges(chars: &Vec<char>, c: char) -> (r: Vec<(usize, usize)>)
    ensures
        r@.len() == segments(chars@, c).len(),
        forall|i: int|
            0 <= i < r@.len() ==> #[trigger] range_holds(chars@, r@[i], segments(chars@, c)[i]),
{
    let mut ranges: Vec<(usize, usize)> = Vec::new();
    let mut start: usize = 0;
    let ghost mut done: Seq<Seq<char>> = Seq::empty();
    assert(chars@.skip(0) =~= chars@);
    loop
        invariant
            start <= chars.len(),
            ranges@.len() == done.len(),
            segments(chars@, c) == done + segments(chars@.skip(start as int), c),
            forall|i: int| 0 <= i < ranges@.len() ==> #[trigger] range_holds(chars@, ranges@[i], done[i]),
        decreases chars.len() - start,
    {
        let ghost tail = chars@.skip(start as int);
        match find_char_from(chars, c, start) {
            Some(j) => {
                proof {
                    assert(tail.take(j - start) =~= chars@.subrange(start as int, j as int));
                    assert(tail.skip(j - start + 1) =~= chars@.skip(j + 1));
                    assert(segments(tail, c) == seq![tail.take(j - start)] + segments(
                        tail.skip(j - start + 1),
                        c,
                    ));
                }
                let ghost old_done = done;
                let ghost old_ranges = ranges@;
                ranges.push((start, j));
                proof {
                    done = done.push(chars@.subrange(start as int, j as int));
                    assert(done + segments(chars@.skip(j + 1), c) =~= old_done + segments(tail, c));
                    assert forall|i: int| 0 <= i < ranges@.len() implies #[trigger] range_holds(
                        chars@,
                        ranges@[i],
                        done[i],
                    ) by {
                        if i < old_ranges.len() {
                            assert(ranges@[i] == old_ranges[i]);
                            assert(done[i] == old_done[i]);
                            assert(range_holds(chars@, old_ranges[i], old_done[i]));
                        } else {
                            assert(ranges@[i] == (start, j));
                        }
                    }
                }
                start = j + 1;
            },
            None => {
                proof {
                    assert(segments(tail, c) == seq![tail]);
                    assert(tail =~= chars@.subrange(start as int, chars@.len() as int));
                }
                let ghost old_done = done;
                let ghost old_ranges = ranges@;
                ranges.push((start, chars.len()));
                proof {
                    done = done.push(tail);
                    assert(segments(chars@, c) =~= done);
                    assert forall|i: int| 0 <= i < ranges@.len() implies #[trigger] range_holds(
                        chars@,
                        ranges@[i],
                        segments(chars@, c)[i],
                    ) by {
                        if i < old_ranges.len() {
                            assert(ranges@[i] == old_ranges[i]);
                            assert(done[i] == old_done[i]);
                            assert(range_holds(chars@, old_ranges[i], old_done[i]));
                        } else {
                            assert(ranges@[i] == (start, chars.len()));
                        }
                        assert(segments(chars@, c)[i] == done[i]);
                    }
                }
                return ranges;
            },
        }
    }
}

/// ASCII letter.
pub open spec fn is_ascii_letter(c: char) -> bool {
    ('a' <= c && c <= 'z') || ('A' <= c && c <= 'Z')
}

/// ASCII decimal digit.
pub open spec fn is_ascii_digit(c: char) -> bool {
    '0' <= c && c <= '9'
}

pub fn ascii_letter(c: char) -> (r: bool)
    ensures
        r == is_ascii_letter(c),
{
    ('a' <= c && c <= 'z') || ('A' <= c && c <= 'Z')
}

pub fn ascii_digit(c: char) -> (r: bool)
    ensures
        r == is_ascii_digit(c),
{
    '0' <= c && c <= '9'
}


} // verus!
