//! Finding the huge page size in the text of the system's memory information.
use vstd::prelude::*;

verus! {

/// The value that stands for a huge page size that is missing or unreadable.
pub const INVALID_SIZE: isize = -1;

/// The header of the line that holds the huge page size.
pub open spec fn header() -> Seq<char> {
    seq!['H', 'u', 'g', 'e', 'p', 'a', 'g', 'e', 's', 'i', 'z', 'e', ':']
}

/// Whether `c` is white space.
pub open spec fn is_space(c: char) -> bool {
    let n = c as u32;
    (0x09 <= n <= 0x0d) || n == 0x20 || n == 0x85 || n == 0xa0 || n == 0x1680 || (0x2000 <= n <= 0x200a) || n
        == 0x2028 || n == 0x2029 || n == 0x202f || n == 0x205f || n == 0x3000
}

/// The first index from `i` on that holds no white space.
pub open spec fn skip_spaces(s: Seq<char>, i: int) -> int
    decreases s.len() - i,
{
    if 0 <= i < s.len() && is_space(s[i]) {
        skip_spaces(s, i + 1)
    } else {
        i
    }
}

/// The first index from `i` on that holds white space, or the length.
pub open spec fn skip_word(s: Seq<char>, i: int) -> int
    decreases s.len() - i,
{
    if 0 <= i < s.len() && !is_space(s[i]) {
        skip_word(s, i + 1)
    } else {
        i
    }
}

/// The index of the next line feed from `i` on, or the length.
pub open spec fn line_end(s: Seq<char>, i: int) -> int
    decreases s.len() - i,
{
    if 0 <= i < s.len() && s[i] != '\n' {
        line_end(s, i + 1)
    } else {
        i
    }
}

/// Whether `c` is a decimal digit.
pub open spec fn is_digit(c: char) -> bool {
    '0' <= c <= '9'
}

/// Whether the word consists of decimal digits only.
pub open spec fn all_digits(w: Seq<char>) -> bool {
    forall|i: int| 0 <= i < w.len() ==> is_digit(#[trigger] w[i])
}

/// The number that the decimal digits stand for.
pub open spec fn decimal(w: Seq<char>) -> int
    decreases w.len(),
{
    if w.len() == 0 {
        0
    } else {
        decimal(w.drop_last()) * 10 + (w.last() as u32 - '0' as u32)
    }
}

/// The signed number that a word stands for: an optional sign and at least
/// one decimal digit, within the range of a machine word.
pub open spec fn word_value(w: Seq<char>) -> Option<int> {
    let negative = w.len() > 0 && w[0] == '-';
    let signed = w.len() > 0 && (w[0] == '-' || w[0] == '+');
    let body = if signed {
        w.drop_first()
    } else {
        w
    };
    if body.len() == 0 || !all_digits(body) {
        None
    } else {
        let v = if negative {
            -decimal(body)
        } else {
            decimal(body)
        };
        if isize::MIN <= v <= isize::MAX {
            Some(v)
        } else {
            None
        }
    }
}

/// Whether `line` starts with `prefix`.
pub open spec fn has_prefix(line: Seq<char>, prefix: Seq<char>) -> bool {
    line.len() >= prefix.len() && line.subrange(0, prefix.len() as int) == prefix
}

/// The size that the text behind the header gives: the first word as a
/// number, times 1024 where the second word is `kB`. A first word that is
/// missing or no number, and a product beyond a machine word, give the
/// invalid size.
pub open spec fn rest_value(rest: Seq<char>) -> int {
    let a = skip_spaces(rest, 0);
    let b = skip_word(rest, a);
    let a2 = skip_spaces(rest, b);
    let b2 = skip_word(rest, a2);
    match word_value(rest.subrange(a, b)) {
        None => INVALID_SIZE as int,
        Some(v) => if rest.subrange(a2, b2) == seq!['k', 'B'] {
            if isize::MIN <= v * 1024 <= isize::MAX {
                v * 1024
            } else {
                INVALID_SIZE as int
            }
        } else {
            v
        },
    }
}

/// The huge page size that the lines from index `start` on give: that of the
/// first line that starts with the header, or the invalid size.
pub open spec fn size_from(s: Seq<char>, start: int) -> int
    decreases s.len() - start,
{
    if start < 0 || start >= s.len() {
        INVALID_SIZE as int
    } else {
        let end = line_end(s, start);
        let line = s.subrange(start, end);
        if has_prefix(line, header()) {
            rest_value(line.skip(header().len() as int))
        } else if end < start || end >= s.len() {
            INVALID_SIZE as int
        } else {
            size_from(s, end + 1)
        }
    }
}

/// The huge page size that a text gives.
pub open spec fn spec_hugepage_size(s: Seq<char>) -> int {
    size_from(s, 0)
}

fn space_char(c: char) -> (r: bool)
    ensures
        r == is_space(c),
{
    let n: u32 = c as u32;
    (0x09 <= n && n <= 0x0d) || n == 0x20 || n == 0x85 || n == 0xa0 || n == 0x1680 || (0x2000 <= n && n <= 0x200a)
        || n == 0x2028 || n == 0x2029 || n == 0x202f || n == 0x205f || n == 0x3000
}

fn after_spaces(s: &Vec<char>, from: usize, end: usize) -> (r: usize)
    requires
        from <= end <= s@.len(),
    ensures
        r == skip_spaces(s@.subrange(0, end as int), from as int),
        from <= r <= end,
{
    let ghost t = s@.subrange(0, end as int);
    let mut i: usize = from;
    while i < end && space_char(s[i])
        invariant
            from <= i <= end,
            end <= s@.len(),
            t == s@.subrange(0, end as int),
            skip_spaces(t, i as int) == skip_spaces(t, from as int),
        decreases end - i,
    {
        i += 1;
    }
    i
}

fn after_word(s: &Vec<char>, from: usize, end: usize) -> (r: usize)
    requires
        from <= end <= s@.len(),
    ensures
        r == skip_word(s@.subrange(0, end as int), from as int),
        from <= r <= end,
{
    let ghost t = s@.subrange(0, end as int);
    let mut i: usize = from;
    while i < end && !space_char(s[i])
        invariant
            from <= i <= end,
            end <= s@.len(),
            t == s@.subrange(0, end as int),
            skip_word(t, i as int) == skip_word(t, from as int),
        decreases end - i,
    {
        i += 1;
    }
    i
}


/// The digits of a number count at least as much as those before the last.
proof fn lemma_decimal_grows(w: Seq<char>)
    requires
        all_digits(w),
    ensures
        decimal(w) >= 0,
        w.len() > 0 ==> decimal(w) >= decimal(w.drop_last()),
        forall|k: int| 0 <= k <= w.len() ==> decimal(w) >= #[trigger] decimal(w.take(k)),
    decreases w.len(),
{
    if w.len() > 0 {
        let d = w.drop_last();
        assert(is_digit(w[w.len() - 1]));
        assert forall|i: int| 0 <= i < d.len() implies is_digit(#[trigger] d[i]) by {
            assert(d[i] == w[i]);
        }
        lemma_decimal_grows(d);
        assert forall|k: int| 0 <= k <= w.len() implies decimal(w) >= #[trigger] decimal(w.take(k)) by {
            if k == w.len() {
                assert(w.take(k) =~= w);
            } else {
                assert(d.take(k) =~= w.take(k));
            }
        }
    } else {
        assert forall|k: int| 0 <= k <= w.len() implies decimal(w) >= #[trigger] decimal(w.take(k)) by {
            assert(w.take(k) =~= w);
        }
    }
}

/// The greatest magnitude that a signed 64-bit number can have.
const MAX_MAGNITUDE: u64 = 0x8000_0000_0000_0000;

/// The number that the word from `a` up to `b` stands for.
#[verifier::loop_isolation(false)]
fn parse_word(s: &Vec<char>, a: usize, b: usize) -> (r: Option<isize>)
    requires
        a <= b <= s@.len(),
    ensures
        r.is_some() == word_value(s@.subrange(a as int, b as int)).is_some(),
        r.is_some() ==> r.unwrap() == word_value(s@.subrange(a as int, b as int)).unwrap(),
{
    let ghost w = s@.subrange(a as int, b as int);
    if a == b {
        return None;
    }
    let negative: bool = s[a] == '-';
    let signed: bool = s[a] == '-' || s[a] == '+';
    let from: usize = if signed { a + 1 } else { a };
    let ghost body = if signed { w.drop_first() } else { w };
    assert(body =~= s@.subrange(from as int, b as int));
    if from == b {
        return None;
    }
    let mut acc: u64 = 0;
    let mut i: usize = from;
    while i < b
        invariant
            from <= i <= b,
            b <= s@.len(),
            body == s@.subrange(from as int, b as int),
            all_digits(body.take(i - from)),
            acc == decimal(body.take(i - from)),
            acc <= MAX_MAGNITUDE,
        decreases b - i,
    {
        let c: char = s[i];
        if !('0' <= c && c <= '9') {
            assert(!is_digit(body[i - from]));
            return None;
        }
        let d: u64 = (c as u32 - '0' as u32) as u64;
        proof {
            let t = body.take(i - from + 1);
            assert(t.drop_last() =~= body.take(i - from));
            assert(t.last() == c);
            assert forall|k: int| 0 <= k < t.len() implies is_digit(#[trigger] t[k]) by {
                if k < i - from {
                    assert(body.take(i - from)[k] == t[k]);
                }
            }
        }
        if acc > (MAX_MAGNITUDE - d) / 10 {
            proof {
                // The number is out of range whatever follows.
                let t = body.take(i - from + 1);
                assert(decimal(t) > MAX_MAGNITUDE);
                if all_digits(body) {
                    lemma_decimal_grows(body);
                    assert(decimal(body) >= decimal(body.take(i - from + 1)));
                }
            }
            return None;
        }
        acc = acc * 10 + d;
        i += 1;
    }
    assert(body.take(i - from) =~= body);
    let max: u64 = isize::MAX as u64;
    if negative {
        if acc > max + 1 {
            None
        } else if acc == max + 1 {
            Some(isize::MIN)
        } else {
            Some(-(acc as isize))
        }
    } else {
        if acc > max {
            None
        } else {
            Some(acc as isize)
        }
    }
}

/// The size that the text behind the header gives.
fn rest_size(rest: &Vec<char>) -> (r: isize)
    ensures
        r == rest_value(rest@),
{
    let len: usize = rest.len();
    assert(rest@.subrange(0, len as int) =~= rest@);
    let a = after_spaces(rest, 0, len);
    let b = after_word(rest, a, len);
    let a2 = after_spaces(rest, b, len);
    let b2 = after_word(rest, a2, len);
    match parse_word(rest, a, b) {
        None => INVALID_SIZE,
        Some(v) => {
            let is_kb: bool = b2 - a2 == 2 && rest[a2] == 'k' && rest[a2 + 1] == 'B';
            proof {
                let unit = rest@.subrange(a2 as int, b2 as int);
                if is_kb {
                    assert(unit =~= seq!['k', 'B']);
                } else if unit.len() == 2 {
                    assert(unit[0] == rest@[a2 as int] && unit[1] == rest@[a2 + 1]);
                    assert(seq!['k', 'B'][0] == 'k' && seq!['k', 'B'][1] == 'B');
                } else {
                    assert(seq!['k', 'B'].len() == 2);
                }
            }
            if is_kb {
                match v.checked_mul(1024) {
                    Some(p) => p,
                    None => INVALID_SIZE,
                }
            } else {
                v
            }
        },
    }
}

/// The characters of a string.
fn chars_of(s: &str) -> (r: Vec<char>)
    ensures
        r@ == s@,
{
    let mut out: Vec<char> = Vec::new();
    for c in it: s.chars()
        invariant
            it.seq() == s@,
            out@ == it.seq().take(it.index() as int),
    {
        proof {
            assert(it.seq().take(it.index() + 1) =~= it.seq().take(it.index() as int).push(c));
        }
        out.push(c);
    }
    assert(s@.take(s@.len() as int) =~= s@);
    out
}

/// Whether the line from `start` up to `end` starts with the header.
fn starts_with_header(s: &Vec<char>, start: usize, end: usize) -> (r: bool)
    requires
        start <= end <= s@.len(),
    ensures
        r == has_prefix(s@.subrange(start as int, end as int), header()),
{
    let ghost line = s@.subrange(start as int, end as int);
    let ghost h = header();
    if end - start < 13 {
        return false;
    }
    let ok: bool = s[start] == 'H' && s[start + 1] == 'u' && s[start + 2] == 'g' && s[start + 3] == 'e' && s[start
        + 4] == 'p' && s[start + 5] == 'a' && s[start + 6] == 'g' && s[start + 7] == 'e' && s[start + 8] == 's'
        && s[start + 9] == 'i' && s[start + 10] == 'z' && s[start + 11] == 'e' && s[start + 12] == ':';
    proof {
        let p = line.subrange(0, 13);
        if ok {
            assert(p =~= h);
        } else {
            assert(p[0] == line[0] && p[1] == line[1] && p[2] == line[2] && p[3] == line[3] && p[4] == line[4]
                && p[5] == line[5] && p[6] == line[6] && p[7] == line[7] && p[8] == line[8] && p[9] == line[9]
                && p[10] == line[10] && p[11] == line[11] && p[12] == line[12]);
            assert(h[0] == 'H' && h[1] == 'u' && h[2] == 'g' && h[3] == 'e' && h[4] == 'p' && h[5] == 'a' && h[6]
                == 'g' && h[7] == 'e' && h[8] == 's' && h[9] == 'i' && h[10] == 'z' && h[11] == 'e' && h[12]
                == ':');
        }
    }
    ok
}

/// Finds the huge page size in the text of the system's memory information.
///
/// The size stands on the first line that starts with `Hugepagesize:`, as
/// the first word behind the header; it counts 1024-fold where the word after
/// it is `kB`. The result is `INVALID_SIZE` where no line has the header, and
/// where the first word behind it is missing or no number.
pub fn parse_hugepage_size(s: &str) -> (r: isize)
    ensures
        r == spec_hugepage_size(s@),
{
    let chars = chars_of(s);
    let len: usize = chars.len();
    let mut start: usize = 0;
    while start < len
        invariant
            start <= len,
            len == chars@.len(),
            chars@ == s@,
            size_from(chars@, start as int) == size_from(chars@, 0),
        decreases len - start,
    {
        let mut end: usize = start;
        while end < len && chars[end] != '\n'
            invariant
                start <= end <= len,
                len == chars@.len(),
                line_end(chars@, end as int) == line_end(chars@, start as int),
            decreases len - end,
        {
            end += 1;
        }
        if starts_with_header(&chars, start, end) {
            let mut rest: Vec<char> = Vec::new();
            let mut i: usize = start + 13;
            while i < end
                invariant
                    start + 13 <= i <= end,
                    end <= chars@.len(),
                    rest@ == chars@.subrange(start + 13, i as int),
                decreases end - i,
            {
                rest.push(chars[i]);
                proof {
                    assert(chars@.subrange(start + 13, i + 1) =~= chars@.subrange(start + 13, i as int).push(
                        chars@[i as int],
                    ));
                }
                i += 1;
            }
            assert(rest@ =~= chars@.subrange(start as int, end as int).skip(13));
            return rest_size(&rest);
        }
        if end >= len {
            return INVALID_SIZE;
        }
        start = end + 1;
    }
    INVALID_SIZE
}

} // verus!
