use vstd::prelude::*;

verus! {

pub open spec fn is_digit(c: char) -> bool {
    '0' <= c && c <= '9'
}

/// The value of a run of decimal digits.
pub open spec fn digits_value(ds: Seq<char>) -> int
    decreases ds.len(),
{
    if ds.len() == 0 {
        0
    } else {
        digits_value(ds.drop_last()) * 10 + (ds.last() as int - '0' as int)
    }
}

pub open spec fn all_digits(ds: Seq<char>) -> bool {
    forall|i: int| 0 <= i < ds.len() ==> is_digit(#[trigger] ds[i])
}

/// The text after an optional leading sign.
pub open spec fn unsigned_part(s: Seq<char>) -> Seq<char> {
    if s.len() > 0 && (s[0] == '-' || s[0] == '+') {
        s.drop_first()
    } else {
        s
    }
}

/// What `i64::from_str` accepts: an optional sign, then one or more
/// decimal digits, with a value that fits.
pub open spec fn decimal_i64(s: Seq<char>) -> Option<int> {
    let neg = s.len() > 0 && s[0] == '-';
    let ds = unsigned_part(s);
    if ds.len() == 0 || !all_digits(ds) {
        None
    } else {
        let v = if neg { -digits_value(ds) } else { digits_value(ds) };
        if i64::MIN <= v <= i64::MAX { Some(v) } else { None }
    }
}

/// Index of the first `c` in `s` at or after `from`, or the length of `s`.
pub open spec fn find_from(s: Seq<char>, c: char, from: int) -> int
    decreases s.len() - from,
{
    if from >= s.len() {
        s.len() as int
    } else if s[from] == c {
        from
    } else {
        find_from(s, c, from + 1)
    }
}

/// Bounds of the first `&`-separated segment at or after `from` that
/// starts with `page=`.
pub open spec fn page_segment(s: Seq<char>, from: int) -> Option<(int, int)>
    decreases s.len() - from,
{
    let end = find_from(s, '&', from);
    if from < 0 || from > s.len() {
        None
    } else if end - from >= 5 && s.subrange(from, from + 5) == "page="@ {
        Some((from, end))
    } else if end >= s.len() || end < from {
        None
    } else {
        page_segment(s, end + 1)
    }
}

/// The page number that a link carries in its first `page=` segment: the
/// text after `page=` up to the next `=` or the end of the segment.
pub open spec fn page_param(s: Seq<char>) -> Option<int> {
    match page_segment(s, 0) {
        None => None,
        Some((a, e)) => {
            let stop = find_from(s, '=', a + 5);
            decimal_i64(s.subrange(a + 5, if stop < e { stop } else { e }))
        },
    }
}

proof fn lemma_find_from_bounds(s: Seq<char>, c: char, from: int)
    requires
        0 <= from,
    ensures
        from <= find_from(s, c, from) <= s.len() || (from > s.len() && find_from(s, c, from) == s.len()),
        forall|i: int| from <= i < find_from(s, c, from) ==> s[i] != c,
        find_from(s, c, from) < s.len() ==> s[find_from(s, c, from)] == c,
    decreases s.len() - from,
{
    if from < s.len() && s[from] != c {
        lemma_find_from_bounds(s, c, from + 1);
    }
}

/// Index of the first `c` in `s` at or after `from`, or the length of `s`.
fn find_char(s: &str, n: usize, c: char, from: usize) -> (r: usize)
    requires
        n == s@.len(),
        from <= n,
    ensures
        r as int == find_from(s@, c, from as int),
{
    let mut i = from;
    proof {
        lemma_find_from_bounds(s@, c, from as int);
    }
    while i < n
        invariant
            n == s@.len(),
            from <= i <= n,
            find_from(s@, c, i as int) == find_from(s@, c, from as int),
        decreases n - i,
    {
        if s.get_char(i) == c {
            return i;
        }
        i += 1;
    }
    i
}

/// Whether `s[from..end]` starts with `page=`.
fn starts_with_page(s: &str, from: usize, end: usize) -> (r: bool)
    requires
        from <= end <= s@.len(),
    ensures
        r == (end - from >= 5 && s@.subrange(from as int, from + 5) == "page="@),
{
    proof {
        reveal_strlit("page=");
    }
    if end - from < 5 {
        return false;
    }
    let r = s.get_char(from) == 'p' && s.get_char(from + 1) == 'a' && s.get_char(from + 2) == 'g'
        && s.get_char(from + 3) == 'e' && s.get_char(from + 4) == '=';
    if r {
        assert(s@.subrange(from as int, from + 5) =~= "page="@);
    } else {
        assert(s@.subrange(from as int, from + 5) != "page="@) by {
            if s@.subrange(from as int, from + 5) == "page="@ {
                assert(s@.subrange(from as int, from + 5)[0] == 'p');
                assert(s@.subrange(from as int, from + 5)[1] == 'a');
                assert(s@.subrange(from as int, from + 5)[2] == 'g');
                assert(s@.subrange(from as int, from + 5)[3] == 'e');
                assert(s@.subrange(from as int, from + 5)[4] == '=');
            }
        }
    }
    r
}

/// Parses `s[from..to]` as `i64::from_str` would.
fn parse_decimal(s: &str, from: usize, to: usize) -> (r: Option<i64>)
    requires
        from <= to <= s@.len(),
    ensures
        r matches Some(v) ==> decimal_i64(s@.subrange(from as int, to as int)) == Some(v as int),
        r is None ==> decimal_i64(s@.subrange(from as int, to as int)) is None,
{
    let ghost t = s@.subrange(from as int, to as int);
    if from == to {
        return None;
    }
    let first = s.get_char(from);
    let neg = first == '-';
    let start = if first == '-' || first == '+' { from + 1 } else { from };
    let ghost ds = s@.subrange(start as int, to as int);
    assert(ds =~= unsigned_part(t));
    if start == to {
        return None;
    }
    let limit: u128 = 0x8000_0000_0000_0000;
    let mut acc: u128 = 0;
    let mut big = false;
    let mut i = start;
    while i < to
        invariant
            from <= start <= i <= to <= s@.len(),
            limit == 0x8000_0000_0000_0000,
            t == s@.subrange(from as int, to as int),
            ds == s@.subrange(start as int, to as int),
            ds == unsigned_part(t),
            neg == (t.len() > 0 && t[0] == '-'),
            forall|k: int| 0 <= k < i - start ==> is_digit(#[trigger] ds[k]),
            !big ==> acc as int == digits_value(ds.take(i - start)),
            !big ==> acc <= limit,
            big ==> digits_value(ds.take(i - start)) > limit,
        decreases to - i,
    {
        let c = s.get_char(i);
        let ghost k = i - start;
        assert(ds[k] == c);
        assert(ds.take(k + 1).drop_last() =~= ds.take(k));
        if c < '0' || c > '9' {
            assert(!is_digit(ds[k]));
            assert(!all_digits(ds));
            return None;
        }
        proof {
            if big {
                assert(digits_value(ds.take(k + 1)) == digits_value(ds.take(k)) * 10 + (c as int - '0' as int));
            }
        }
        if !big {
            assert(acc <= limit);
            let d = (c as u32 - '0' as u32) as u128;
            acc = acc * 10 + d;
            if acc > limit {
                big = true;
            }
        }
        i += 1;
    }
    assert(ds.take(ds.len() as int) =~= ds);
    if big {
        return None;
    }
    if neg {
        if acc == limit {
            Some(i64::MIN)
        } else {
            Some(-(acc as i64))
        }
    } else {
        if acc >= limit {
            None
        } else {
            Some(acc as i64)
        }
    }
}

/// The page number carried by a link, as `page_param` states it.
pub fn page_param_of(s: &str) -> (r: Option<i64>)
    ensures
        r matches Some(v) ==> page_param(s@) == Some(v as int),
        r is None ==> page_param(s@) is None,
{
    let n = s.unicode_len();
    let mut from: usize = 0;
    loop
        invariant
            n == s@.len(),
            from <= n,
            page_segment(s@, 0) == page_segment(s@, from as int),
        decreases n - from,
    {
        let end = find_char(s, n, '&', from);
        proof {
            lemma_find_from_bounds(s@, '&', from as int);
        }
        if starts_with_page(s, from, end) {
            let stop = find_char(s, n, '=', from + 5);
            proof {
                lemma_find_from_bounds(s@, '=', from + 5);
            }
            let to = if stop < end { stop } else { end };
            return parse_decimal(s, from + 5, to);
        }
        if end >= n {
            return None;
        }
        from = end + 1;
    }
}

/// The number of pages of a listing at the source, from the links of the
/// response: the page number of the last page's link where it carries one,
/// else the current page; without a last link, the current page where
/// there is a previous one (this is the last page), else 1.
pub fn calculate_total_pages(page: u8, last_url: Option<&str>, prev_url: Option<&str>) -> (r: i64)
    ensures
        r as int == match last_url {
            Some(u) => match page_param(u@) {
                Some(v) => v,
                None => page as int,
            },
            None => if prev_url is Some { page as int } else { 1 },
        },
{
    match last_url {
        Some(u) => match page_param_of(u) {
            Some(v) => v,
            None => page as i64,
        },
        None => if prev_url.is_some() {
            page as i64
        } else {
            1
        },
    }
}

} // verus!
