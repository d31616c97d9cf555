//! Reading the pieces of text that a WebDAV answer is made of: decimal
//! lengths, quoted entity tags and the last segment of a path.
use vstd::prelude::*;
use vstd::string::StrSliceExecFns;

verus! {

/// The characters of `s`, one by one.
pub fn chars_of(s: &str) -> (v: Vec<char>)
    ensures
        v@ == s@,
{
    let mut v: Vec<char> = Vec::new();
    for c in it: s.chars()
        invariant
            v@ == it.seq().take(it.index() as int),
            it.seq() == s@,
    {
        v.push(c);
    }
    v
}

/// Whether two pieces of text hold the same characters.
pub fn same_text(a: &str, b: &str) -> (r: bool)
    ensures
        r == (a@ == b@),
{
    let x = chars_of(a);
    let y = chars_of(b);
    if x.len() != y.len() {
        return false;
    }
    let mut i: usize = 0;
    while i < x.len()
        invariant
            i <= x.len(),
            x.len() == y.len(),
            x@ == a@,
            y@ == b@,
            forall|k: int| 0 <= k < i ==> x@[k] == y@[k],
        decreases x.len() - i,
    {
        if x[i] != y[i] {
            return false;
        }
        i += 1;
    }
    assert(a@ =~= b@);
    true
}

// ---------------------------------------------------------------------------
// Decimal numbers
// ---------------------------------------------------------------------------
pub open spec fn is_digit(c: char) -> bool {
    '0' <= c <= '9'
}

pub open spec fn digit_value(c: char) -> nat {
    (c as u32 - '0' as u32) as nat
}

pub open spec fn all_digits(s: Seq<char>) -> bool {
    forall|i: int| 0 <= i < s.len() ==> is_digit(#[trigger] s[i])
}

/// The number that the decimal digits `s` write.
pub open spec fn decimal_value(s: Seq<char>) -> nat
    decreases s.len(),
{
    if s.len() == 0 {
        0
    } else {
        decimal_value(s.drop_last()) * 10 + digit_value(s.last())
    }
}

/// `s` without the one `+` that may stand before a number.
pub open spec fn without_plus(s: Seq<char>) -> Seq<char> {
    if s.len() > 0 && s[0] == '+' {
        s.drop_first()
    } else {
        s
    }
}

/// The `u64` that `s` writes in decimal: an optional `+` and then at least
/// one digit, nothing else, and a value that fits.
pub open spec fn decimal_u64(s: Seq<char>) -> Option<u64> {
    let d = without_plus(s);
    if d.len() > 0 && all_digits(d) && decimal_value(d) <= u64::MAX {
        Some(decimal_value(d) as u64)
    } else {
        None
    }
}

/// A number does not shrink when more digits follow it.
pub proof fn lemma_decimal_value_grows(s: Seq<char>, n: int)
    requires
        0 <= n <= s.len(),
    ensures
        decimal_value(s.take(n)) <= decimal_value(s),
    decreases s.len() - n,
{
    if n == s.len() {
        assert(s.take(n) =~= s);
    } else {
        lemma_decimal_value_grows(s, n + 1);
        assert(s.take(n + 1).drop_last() =~= s.take(n));
    }
}

/// Reads a decimal `u64`.
pub fn parse_decimal(text: &str) -> (r: Option<u64>)
    ensures
        r == decimal_u64(text@),
{
    let v = chars_of(text);
    let n = v.len();
    let start: usize = if n > 0 && v[0] == '+' {
        1
    } else {
        0
    };
    let ghost d = without_plus(text@);
    assert(d =~= v@.subrange(start as int, n as int));
    if start == n {
        return None;
    }
    let mut value: u64 = 0;
    let mut i: usize = start;
    while i < n
        invariant
            start <= i <= n,
            n == v.len(),
            d == v@.subrange(start as int, n as int),
            d == without_plus(text@),
            d.len() > 0,
            all_digits(d.take(i - start)),
            value == decimal_value(d.take(i - start)),
        decreases n - i,
    {
        let c = v[i];
        let ghost k = i - start;
        assert(d[k] == c);
        if !(c >= '0' && c <= '9') {
            assert(!is_digit(d[k]));
            return None;
        }
        let digit: u64 = (c as u32 - '0' as u32) as u64;
        assert(d.take(k + 1).drop_last() =~= d.take(k));
        assert(d.take(k + 1).last() == c);
        assert(decimal_value(d.take(k + 1)) == value * 10 + digit);
        let next = match value.checked_mul(10) {
            Some(tens) => tens.checked_add(digit),
            None => None,
        };
        match next {
            Some(x) => {
                value = x;
            },
            None => {
                proof {
                    lemma_decimal_value_grows(d, k + 1);
                }
                return None;
            },
        }
        assert forall|j: int| 0 <= j < k + 1 implies is_digit(#[trigger] d.take(k + 1)[j]) by {
            if j < k {
                assert(d.take(k + 1)[j] == d.take(k)[j]);
            }
        }
        i += 1;
    }
    assert(d.take(n - start) =~= d);
    Some(value)
}

// ---------------------------------------------------------------------------
// Quotes
// ---------------------------------------------------------------------------
/// `s` from its first character that is no double quote.
pub open spec fn skip_quotes(s: Seq<char>) -> Seq<char>
    decreases s.len(),
{
    if s.len() > 0 && s.first() == '"' {
        skip_quotes(s.drop_first())
    } else {
        s
    }
}

/// `s` up to its last character that is no double quote.
pub open spec fn drop_quotes(s: Seq<char>) -> Seq<char>
    decreases s.len(),
{
    if s.len() > 0 && s.last() == '"' {
        drop_quotes(s.drop_last())
    } else {
        s
    }
}

/// `s` without the double quotes that surround it. Quotes between other
/// characters stay.
pub open spec fn unquoted(s: Seq<char>) -> Seq<char> {
    drop_quotes(skip_quotes(s))
}

/// Takes the surrounding double quotes off `text`.
pub fn strip_quotes(text: &str) -> (r: String)
    ensures
        r@ == unquoted(text@),
{
    let v = chars_of(text);
    let n = v.len();
    let mut a: usize = 0;
    assert(v@.subrange(0, n as int) =~= v@);
    while a < n && v[a] == '"'
        invariant
            a <= n,
            n == v.len(),
            skip_quotes(v@) == skip_quotes(v@.subrange(a as int, n as int)),
        decreases n - a,
    {
        assert(v@.subrange(a as int, n as int).drop_first() =~= v@.subrange(a + 1, n as int));
        a += 1;
    }
    assert(skip_quotes(v@) == v@.subrange(a as int, n as int));
    let mut b: usize = n;
    while b > a && v[b - 1] == '"'
        invariant
            a <= b <= n,
            n == v.len(),
            unquoted(v@) == drop_quotes(v@.subrange(a as int, b as int)),
        decreases b,
    {
        assert(v@.subrange(a as int, b as int).drop_last() =~= v@.subrange(a as int, b - 1));
        b -= 1;
    }
    assert(unquoted(v@) == v@.subrange(a as int, b as int));
    text.substring_char(a, b).to_owned()
}

proof fn lemma_skip_quotes(s: Seq<char>)
    ensures
        skip_quotes(s).len() <= s.len(),
        skip_quotes(s).len() > 0 ==> skip_quotes(s).first() != '"',
    decreases s.len(),
{
    if s.len() > 0 && s.first() == '"' {
        lemma_skip_quotes(s.drop_first());
    }
}

proof fn lemma_drop_quotes(s: Seq<char>)
    ensures
        drop_quotes(s).len() <= s.len(),
        drop_quotes(s) == s.take(drop_quotes(s).len() as int),
        drop_quotes(s).len() > 0 ==> drop_quotes(s).last() != '"',
    decreases s.len(),
{
    if s.len() > 0 && s.last() == '"' {
        lemma_drop_quotes(s.drop_last());
        assert(s.drop_last().take(drop_quotes(s).len() as int) =~= s.take(
            drop_quotes(s).len() as int,
        ));
    } else {
        assert(s.take(s.len() as int) =~= s);
    }
}

/// What is left of a text without its surrounding quotes neither begins nor
/// ends with a quote.
pub proof fn lemma_unquoted_has_no_quotes_around(s: Seq<char>)
    ensures
        unquoted(s).len() > 0 ==> unquoted(s).first() != '"' && unquoted(s).last() != '"',
{
    let inner = skip_quotes(s);
    lemma_skip_quotes(s);
    lemma_drop_quotes(inner);
    if unquoted(s).len() > 0 {
        assert(unquoted(s).first() == inner.take(unquoted(s).len() as int)[0]);
    }
}

// ---------------------------------------------------------------------------
// Paths
// ---------------------------------------------------------------------------
/// Where the last segment of `s` begins: behind its last `/`, or at 0.
pub open spec fn last_segment_start(s: Seq<char>) -> int
    decreases s.len(),
{
    if s.len() == 0 || s.last() == '/' {
        s.len() as int
    } else {
        last_segment_start(s.drop_last())
    }
}

/// The name that the path `s` ends in: its last segment between `/`s that
/// is neither empty nor `.`, unless that segment is `..` or there is none.
pub open spec fn file_name(s: Seq<char>) -> Option<Seq<char>>
    decreases s.len(),
{
    if s.len() == 0 {
        None
    } else if s.last() == '/' {
        file_name(s.drop_last())
    } else {
        let start = last_segment_start(s);
        let segment = s.subrange(start, s.len() as int);
        if 0 <= start < s.len() {
            if segment == seq!['.'] {
                file_name(s.subrange(0, start))
            } else if segment == seq!['.', '.'] {
                None
            } else {
                Some(segment)
            }
        } else {
            None
        }
    }
}

pub proof fn lemma_last_segment_start(s: Seq<char>)
    ensures
        0 <= last_segment_start(s) <= s.len(),
        s.len() > 0 && s.last() != '/' ==> last_segment_start(s) < s.len(),
        forall|i: int| last_segment_start(s) <= i < s.len() ==> s[i] != '/',
        last_segment_start(s) > 0 ==> s[last_segment_start(s) - 1] == '/',
    decreases s.len(),
{
    if s.len() == 0 || s.last() == '/' {
    } else {
        let t = s.drop_last();
        lemma_last_segment_start(t);
        assert forall|i: int| last_segment_start(s) <= i < s.len() implies s[i] != '/' by {
            if i < t.len() {
                assert(t[i] == s[i]);
            }
        }
    }
}

/// A start that has a `/` before it and none behind it is the start of the
/// last segment.
pub proof fn lemma_last_segment_start_is(s: Seq<char>, start: int)
    requires
        0 <= start <= s.len(),
        forall|i: int| start <= i < s.len() ==> s[i] != '/',
        start > 0 ==> s[start - 1] == '/',
    ensures
        last_segment_start(s) == start,
    decreases s.len(),
{
    if s.len() == 0 || s.last() == '/' {
    } else {
        lemma_last_segment_start_is(s.drop_last(), start);
    }
}

/// The name that `path` ends in.
pub fn file_name_of(path: &str) -> (r: Option<String>)
    ensures
        match r {
            Some(name) => file_name(path@) == Some(name@),
            None => file_name(path@) is None,
        },
{
    let v = chars_of(path);
    let mut end: usize = v.len();
    assert(v@.subrange(0, end as int) =~= v@);
    loop
        invariant
            end <= v.len(),
            v@ == path@,
            file_name(v@) == file_name(v@.subrange(0, end as int)),
        decreases end,
    {
        let ghost s = v@.subrange(0, end as int);
        if end == 0 {
            return None;
        }
        if v[end - 1] == '/' {
            assert(s.drop_last() =~= v@.subrange(0, end - 1));
            end -= 1;
            continue;
        }
        let mut start: usize = end;
        while start > 0 && v[start - 1] != '/'
            invariant
                start <= end <= v.len(),
                forall|i: int| start <= i < end ==> v@[i] != '/',
            decreases start,
        {
            start -= 1;
        }
        proof {
            lemma_last_segment_start_is(s, start as int);
        }
        let ghost segment = s.subrange(start as int, end as int);
        assert(segment =~= v@.subrange(start as int, end as int));
        let len = end - start;
        if len == 1 && v[start] == '.' {
            assert(segment =~= seq!['.']);
            assert(s.subrange(0, start as int) =~= v@.subrange(0, start as int));
            end = start;
            continue;
        }
        if len == 2 && v[start] == '.' && v[start + 1] == '.' {
            assert(segment =~= seq!['.', '.']);
            return None;
        }
        assert(segment != seq!['.']) by {
            if segment == seq!['.'] {
                assert(segment.len() == 1);
                assert(segment[0] == '.');
            }
        }
        assert(segment != seq!['.', '.']) by {
            if segment == seq!['.', '.'] {
                assert(segment.len() == 2);
                assert(segment[0] == '.');
                assert(segment[1] == '.');
            }
        }
        return Some(path.substring_char(start, end).to_owned());
    }
}

/// The name that a path ends in is not empty, holds no `/`, and is neither
/// `.` nor `..`.
pub proof fn lemma_file_name_is_a_name(s: Seq<char>)
    ensures
        file_name(s) matches Some(name) ==> {
            &&& name.len() > 0
            &&& forall|i: int| 0 <= i < name.len() ==> name[i] != '/'
            &&& name != seq!['.']
            &&& name != seq!['.', '.']
        },
    decreases s.len(),
{
    if s.len() == 0 {
    } else if s.last() == '/' {
        lemma_file_name_is_a_name(s.drop_last());
    } else {
        let start = last_segment_start(s);
        lemma_last_segment_start(s);
        let segment = s.subrange(start, s.len() as int);
        if segment == seq!['.'] {
            lemma_file_name_is_a_name(s.subrange(0, start));
        }
    }
}

} // verus!
