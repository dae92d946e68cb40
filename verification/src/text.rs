//! Text helpers: path segments, decimal numerals and padding.

use vstd::prelude::*;

verus! {

/// The character that separates the segments of a path or of a media type.
pub const SEPARATOR: char = '/';

/// Index at which the final segment of `s` begins: just behind the last
/// separator, or 0 where `s` holds none.
pub open spec fn final_segment_start(s: Seq<char>) -> int
    decreases s.len(),
{
    if s.len() == 0 {
        0
    } else if s.last() == SEPARATOR {
        s.len() as int
    } else {
        final_segment_start(s.drop_last())
    }
}

/// What follows the last separator of `s`; all of `s` where it holds none.
pub open spec fn final_segment(s: Seq<char>) -> Seq<char> {
    s.skip(final_segment_start(s))
}

/// Index of the first separator of `s`, or its length where it holds none.
pub open spec fn first_separator(s: Seq<char>) -> int
    decreases s.len(),
{
    if s.len() == 0 || s[0] == SEPARATOR {
        0
    } else {
        1 + first_separator(s.drop_first())
    }
}

/// What precedes the first separator of `s`; all of `s` where it holds none.
pub open spec fn leading_segment(s: Seq<char>) -> Seq<char> {
    s.take(first_separator(s))
}

/// The final segment is a suffix without a separator, and what stands before
/// it, if anything, ends in a separator.
pub proof fn lemma_final_segment(s: Seq<char>)
    ensures
        0 <= final_segment_start(s) <= s.len(),
        s == s.take(final_segment_start(s)) + final_segment(s),
        !final_segment(s).contains(SEPARATOR),
        final_segment_start(s) > 0 ==> s[final_segment_start(s) - 1] == SEPARATOR,
    decreases s.len(),
{
    let k = final_segment_start(s);
    if s.len() > 0 && s.last() != SEPARATOR {
        let t = s.drop_last();
        lemma_final_segment(t);
        assert forall|i: int| 0 <= i < final_segment(s).len() implies final_segment(s)[i]
            != SEPARATOR by {
            if i < final_segment(t).len() {
                assert(final_segment(s)[i] == final_segment(t)[i]);
                assert(final_segment(t).contains(final_segment(t)[i]));
            }
        }
    }
    assert(s =~= s.take(k) + s.skip(k));
}

/// An index before which no separator stands, and which is the length or
/// holds a separator, is the first separator.
pub proof fn lemma_first_separator(s: Seq<char>, k: int)
    requires
        0 <= k <= s.len(),
        forall|j: int| 0 <= j < k ==> s[j] != SEPARATOR,
        k < s.len() ==> s[k] == SEPARATOR,
    ensures
        first_separator(s) == k,
    decreases k,
{
    if k > 0 {
        let t = s.drop_first();
        assert forall|j: int| 0 <= j < k - 1 implies t[j] != SEPARATOR by {
            assert(t[j] == s[j + 1]);
        }
        lemma_first_separator(t, k - 1);
    }
}

/// The leading segment is a prefix without a separator, and what follows it,
/// if anything, begins with a separator.
pub proof fn lemma_leading_segment(s: Seq<char>)
    ensures
        0 <= first_separator(s) <= s.len(),
        !leading_segment(s).contains(SEPARATOR),
        first_separator(s) < s.len() ==> s[first_separator(s)] == SEPARATOR,
    decreases s.len(),
{
    if !(s.len() == 0 || s[0] == SEPARATOR) {
        let t = s.drop_first();
        lemma_leading_segment(t);
        assert forall|i: int| 0 <= i < leading_segment(s).len() implies leading_segment(s)[i]
            != SEPARATOR by {
            if i > 0 {
                assert(leading_segment(s)[i] == leading_segment(t)[i - 1]);
                assert(leading_segment(t).contains(leading_segment(t)[i - 1]));
            }
        }
    }
}

/// The final segment of `path`, as an owned string.
pub fn basename(path: &str) -> (name: String)
    ensures
        name@ == final_segment(path@),
        !name@.contains(SEPARATOR),
{
    proof {
        lemma_final_segment(path@);
    }
    let n: usize = path.unicode_len();
    let mut start: usize = 0;
    let mut i: usize = 0;
    for c in it: path.chars()
        invariant
            n == path@.len(),
            i == it.index(),
            it.seq() == path@,
            start == final_segment_start(path@.take(i as int)),
            start <= i,
    {
        assert(path@.take(i + 1).drop_last() == path@.take(i as int));
        i = i + 1;
        if c == SEPARATOR {
            start = i;
        }
    }
    assert(path@.take(i as int) == path@);
    assert(path@.subrange(start as int, n as int) == path@.skip(start as int));
    String::from_str(path.substring_char(start, n))
}

/// The leading segment of `s`, as an owned string.
pub fn first_segment(s: &str) -> (head: String)
    ensures
        head@ == leading_segment(s@),
        !head@.contains(SEPARATOR),
{
    proof {
        lemma_leading_segment(s@);
    }
    let n: usize = s.unicode_len();
    let mut end: usize = n;
    let mut found: bool = false;
    let mut i: usize = 0;
    for c in it: s.chars()
        invariant
            n == s@.len(),
            i == it.index(),
            it.seq() == s@,
            end <= n,
            !found ==> end == n && forall|j: int| 0 <= j < i ==> s@[j] != SEPARATOR,
            found ==> end < i && s@[end as int] == SEPARATOR && forall|j: int|
                0 <= j < end ==> s@[j] != SEPARATOR,
    {
        if !found && c == SEPARATOR {
            found = true;
            end = i;
        }
        i = i + 1;
    }
    proof {
        lemma_first_separator(s@, end as int);
    }
    assert(s@.subrange(0, end as int) == s@.take(end as int));
    String::from_str(s.substring_char(0, end))
}

/// The numeral for a digit below ten.
pub open spec fn digit(d: nat) -> char {
    if d == 0 {
        '0'
    } else if d == 1 {
        '1'
    } else if d == 2 {
        '2'
    } else if d == 3 {
        '3'
    } else if d == 4 {
        '4'
    } else if d == 5 {
        '5'
    } else if d == 6 {
        '6'
    } else if d == 7 {
        '7'
    } else if d == 8 {
        '8'
    } else {
        '9'
    }
}

/// `n` written in base ten, without leading zeros.
pub open spec fn decimal(n: nat) -> Seq<char>
    decreases n,
{
    if n < 10 {
        seq![digit(n)]
    } else {
        decimal(n / 10).push(digit(n % 10))
    }
}

/// `count` copies of `unit`, one after the other.
pub open spec fn repeated(unit: Seq<char>, count: nat) -> Seq<char>
    decreases count,
{
    if count == 0 {
        Seq::empty()
    } else {
        repeated(unit, (count - 1) as nat) + unit
    }
}

/// `s` followed by as many spaces as it lacks to `width` characters; `s`
/// itself where it is that long or longer.
pub open spec fn left_aligned(s: Seq<char>, width: nat) -> Seq<char> {
    if s.len() >= width {
        s
    } else {
        s + repeated(seq![' '], (width - s.len()) as nat)
    }
}

/// The one-character text for a digit below ten.
fn digit_str(d: u64) -> (s: &'static str)
    requires
        d < 10,
    ensures
        s@ == seq![digit(d as nat)],
{
    proof {
        reveal_strlit("0");
        reveal_strlit("1");
        reveal_strlit("2");
        reveal_strlit("3");
        reveal_strlit("4");
        reveal_strlit("5");
        reveal_strlit("6");
        reveal_strlit("7");
        reveal_strlit("8");
        reveal_strlit("9");
    }
    let s = if d == 0 {
        "0"
    } else if d == 1 {
        "1"
    } else if d == 2 {
        "2"
    } else if d == 3 {
        "3"
    } else if d == 4 {
        "4"
    } else if d == 5 {
        "5"
    } else if d == 6 {
        "6"
    } else if d == 7 {
        "7"
    } else if d == 8 {
        "8"
    } else {
        "9"
    };
    assert(s@ =~= seq![digit(d as nat)]);
    s
}

/// Appends the base-ten numeral of `n` to `out`.
pub fn append_decimal(out: &mut String, n: u64)
    ensures
        final(out)@ == old(out)@ + decimal(n as nat),
    decreases n,
{
    if n >= 10 {
        append_decimal(out, n / 10);
    }
    out.append(digit_str(n % 10));
    assert(out@ =~= old(out)@ + decimal(n as nat));
}

/// The base-ten numeral of `n`.
pub fn decimal_string(n: u64) -> (s: String)
    ensures
        s@ == decimal(n as nat),
{
    let mut s = String::new();
    append_decimal(&mut s, n);
    assert(s@ =~= decimal(n as nat));
    s
}

/// Appends `count` copies of `unit` to `out`.
pub fn append_repeated(out: &mut String, unit: &str, count: usize)
    ensures
        final(out)@ == old(out)@ + repeated(unit@, count as nat),
{
    let mut i: usize = 0;
    assert(out@ =~= old(out)@ + repeated(unit@, 0));
    while i < count
        invariant
            i <= count,
            out@ == old(out)@ + repeated(unit@, i as nat),
        decreases count - i,
    {
        out.append(unit);
        i = i + 1;
        assert(out@ =~= old(out)@ + repeated(unit@, i as nat));
    }
}

/// Appends `s` to `out`, padded with spaces on the right to `width`
/// characters.
pub fn append_left_aligned(out: &mut String, s: &str, width: usize)
    ensures
        final(out)@ == old(out)@ + left_aligned(s@, width as nat),
{
    let n: usize = s.unicode_len();
    out.append(s);
    if n < width {
        proof {
            reveal_strlit(" ");
        }
        assert(" "@ =~= seq![' ']);
        append_repeated(out, " ", width - n);
    }
    assert(out@ =~= old(out)@ + left_aligned(s@, width as nat));
}

} // verus!
