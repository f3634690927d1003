//! Splitting lines of ASCII text into words and reading decimal numbers.
use vstd::prelude::*;

verus! {

/// ASCII whitespace: space, tab, line feed, form feed, carriage return.
pub open spec fn is_ws(c: u8) -> bool {
    c == 32 || c == 9 || c == 10 || c == 12 || c == 13
}

/// The maximal runs of non-whitespace bytes of `b`, in order.
pub open spec fn words(b: Seq<u8>) -> Seq<Seq<u8>>
    decreases b.len(),
{
    if b.len() == 0 {
        seq![]
    } else {
        let w = words(b.drop_last());
        if is_ws(b.last()) {
            w
        } else if b.len() >= 2 && !is_ws(b[b.len() - 2]) {
            w.update(w.len() - 1, w.last().push(b.last()))
        } else {
            w.push(seq![b.last()])
        }
    }
}

/// Whether every byte of `d` is an ASCII digit.
pub open spec fn all_digits(d: Seq<u8>) -> bool {
    forall|i: int| 0 <= i < d.len() ==> 48 <= #[trigger] d[i] <= 57
}

/// The number that the decimal digits `d` spell.
pub open spec fn digits_value(d: Seq<u8>) -> int
    decreases d.len(),
{
    if d.len() == 0 {
        0
    } else {
        digits_value(d.drop_last()) * 10 + (d.last() - 48)
    }
}

/// The digits of a number word: without its leading `+`, if it has one and
/// more.
pub open spec fn unsigned_digits(w: Seq<u8>) -> Seq<u8> {
    if w.len() > 1 && w[0] == 43 {
        w.drop_first()
    } else {
        w
    }
}

/// The `u64` that the word `w` spells in decimal, with an optional leading
/// `+`; `None` for an empty word, any other byte, or a value past `u64::MAX`.
pub open spec fn parse_u64(w: Seq<u8>) -> Option<u64> {
    let d = unsigned_digits(w);
    if d.len() > 0 && all_digits(d) && digits_value(d) <= u64::MAX {
        Some(digits_value(d) as u64)
    } else {
        None
    }
}

/// The values of the words of `ws` that are numbers, in order.
pub open spec fn numbers(ws: Seq<Seq<u8>>) -> Seq<u64>
    decreases ws.len(),
{
    if ws.len() == 0 {
        seq![]
    } else {
        match parse_u64(ws.last()) {
            Some(v) => numbers(ws.drop_last()).push(v),
            None => numbers(ws.drop_last()),
        }
    }
}

proof fn lemma_digits_value_nonneg(d: Seq<u8>)
    requires
        all_digits(d),
    ensures
        digits_value(d) >= 0,
    decreases d.len(),
{
    if d.len() > 0 {
        lemma_digits_value_nonneg(d.drop_last());
    }
}

proof fn lemma_digits_value_prefix(d: Seq<u8>, j: int)
    requires
        all_digits(d),
        0 <= j <= d.len(),
    ensures
        digits_value(d.take(j)) <= digits_value(d),
    decreases d.len(),
{
    if j < d.len() {
        assert(d.drop_last().take(j) =~= d.take(j));
        lemma_digits_value_prefix(d.drop_last(), j);
        lemma_digits_value_nonneg(d.drop_last());
    } else {
        assert(d.take(j) =~= d);
    }
}

/// Reads the number word `b[start..end]`.
pub fn parse_u64_at(b: &[u8], start: usize, end: usize) -> (r: Option<u64>)
    requires
        start <= end <= b@.len(),
    ensures
        r == parse_u64(b@.subrange(start as int, end as int)),
{
    let ghost w = b@.subrange(start as int, end as int);
    let mut s = start;
    if end - start > 1 && b[start] == 43 {
        s = start + 1;
    }
    let ghost d = b@.subrange(s as int, end as int);
    assert(d =~= unsigned_digits(w));
    if s == end {
        return None;
    }
    let mut v: u64 = 0;
    let mut k: usize = s;
    while k < end
        invariant
            start <= s <= k <= end <= b@.len(),
            d == b@.subrange(s as int, end as int),
            w == b@.subrange(start as int, end as int),
            d == unsigned_digits(w),
            d.len() > 0,
            all_digits(d.take(k - s)),
            v == digits_value(d.take(k - s)),
        decreases end - k,
    {
        let c = b[k];
        if c < 48 || c > 57 {
            assert(d[k - s] == c);
            assert(!all_digits(d));
            return None;
        }
        assert(d.take(k + 1 - s).drop_last() =~= d.take(k - s));
        if v > 1844674407370955161 || (v == 1844674407370955161 && c > 53) {
            proof {
                assert(d.take(k + 1 - s).last() == c);
                assert(digits_value(d.take(k + 1 - s)) > u64::MAX);
                if all_digits(d) {
                    lemma_digits_value_prefix(d, k + 1 - s);
                }
            }
            return None;
        }
        v = v * 10 + (c - 48) as u64;
        k = k + 1;
    }
    assert(d.take(k - s) =~= d);
    Some(v)
}

/// The positions `[start, end)` of the words of `b`, in order.
pub fn word_spans(b: &[u8]) -> (r: Vec<(usize, usize)>)
    ensures
        r@.len() == words(b@).len(),
        forall|k: int|
            0 <= k < r@.len() ==> {
                &&& (#[trigger] r@[k]).0 <= r@[k].1 <= b@.len()
                &&& b@.subrange(r@[k].0 as int, r@[k].1 as int) == words(b@)[k]
            },
{
    let mut spans: Vec<(usize, usize)> = Vec::new();
    let mut start: usize = 0;
    let mut in_word = false;
    let mut i: usize = 0;
    while i < b.len()
        invariant
            i <= b@.len(),
            start <= i,
            in_word <==> (i > 0 && !is_ws(b@[i - 1])),
            ({
                let w = words(b@.take(i as int));
                &&& spans@.len() == if in_word { w.len() - 1 } else { w.len() as int }
                &&& in_word ==> w.len() > 0 && w.last() == b@.subrange(start as int, i as int)
                &&& forall|k: int|
                    0 <= k < spans@.len() ==> {
                        &&& (#[trigger] spans@[k]).0 <= spans@[k].1 <= i
                        &&& b@.subrange(spans@[k].0 as int, spans@[k].1 as int) == w[k]
                    }
            }),
        decreases b@.len() - i,
    {
        let c = b[i];
        let ghost prev = b@.take(i as int);
        let ghost next = b@.take(i + 1);
        assert(next.drop_last() =~= prev);
        if i > 0 {
            assert(next[next.len() - 2] == b@[i - 1]);
        }
        if c == 32 || c == 9 || c == 10 || c == 12 || c == 13 {
            if in_word {
                spans.push((start, i));
            }
            in_word = false;
        } else {
            if in_word {
                assert(b@.subrange(start as int, i + 1) =~= b@.subrange(
                    start as int,
                    i as int,
                ).push(c));
            } else {
                start = i;
                assert(b@.subrange(start as int, i + 1) =~= seq![c]);
            }
            in_word = true;
        }
        i = i + 1;
    }
    assert(b@.take(i as int) =~= b@);
    if in_word {
        spans.push((start, i));
    }
    spans
}

/// The pieces of `b` between line feeds; there is always at least one.
pub open spec fn pieces(b: Seq<u8>) -> Seq<Seq<u8>>
    decreases b.len(),
{
    if b.len() == 0 {
        seq![seq![]]
    } else {
        let p = pieces(b.drop_last());
        if b.last() == 10 {
            p.push(seq![])
        } else {
            p.update(p.len() - 1, p.last().push(b.last()))
        }
    }
}

/// The lines of `b`: its pieces between line feeds, without the empty one
/// that follows a final line feed.
pub open spec fn lines(b: Seq<u8>) -> Seq<Seq<u8>> {
    let p = pieces(b);
    if p.last().len() == 0 {
        p.drop_last()
    } else {
        p
    }
}

/// Whether `c` is a one-byte white space character: tab, line feed,
/// vertical tab, form feed, carriage return or space.
pub open spec fn is_ws1(c: u8) -> bool {
    c == 9 || c == 10 || c == 11 || c == 12 || c == 13 || c == 32
}

/// Whether `a b` is the UTF-8 form of a two-byte white space character
/// (U+0085, U+00A0).
pub open spec fn is_ws2(a: u8, b: u8) -> bool {
    a == 0xc2 && (b == 0x85 || b == 0xa0)
}

/// Whether `a b c` is the UTF-8 form of a three-byte white space character
/// (U+1680, U+2000 to U+200A, U+2028, U+2029, U+202F, U+205F, U+3000).
pub open spec fn is_ws3(a: u8, b: u8, c: u8) -> bool {
    ||| a == 0xe1 && b == 0x9a && c == 0x80
    ||| a == 0xe2 && b == 0x80 && ((0x80 <= c && c <= 0x8a) || c == 0xa8 || c == 0xa9 || c
        == 0xaf)
    ||| a == 0xe2 && b == 0x81 && c == 0x9f
    ||| a == 0xe3 && b == 0x80 && c == 0x80
}

/// The length of the white space character that `s` starts with, or 0.
pub open spec fn ws_prefix_len(s: Seq<u8>) -> int {
    if s.len() >= 1 && is_ws1(s[0]) {
        1
    } else if s.len() >= 2 && is_ws2(s[0], s[1]) {
        2
    } else if s.len() >= 3 && is_ws3(s[0], s[1], s[2]) {
        3
    } else {
        0
    }
}

/// The length of the white space character that `s` ends with, or 0.
pub open spec fn ws_suffix_len(s: Seq<u8>) -> int {
    let n = s.len() as int;
    if n >= 1 && is_ws1(s[n - 1]) {
        1
    } else if n >= 2 && is_ws2(s[n - 2], s[n - 1]) {
        2
    } else if n >= 3 && is_ws3(s[n - 3], s[n - 2], s[n - 1]) {
        3
    } else {
        0
    }
}

/// The UTF-8 text `s` without its leading white space characters.
pub open spec fn trim_start(s: Seq<u8>) -> Seq<u8>
    decreases s.len(),
{
    if ws_prefix_len(s) > 0 {
        trim_start(s.subrange(ws_prefix_len(s), s.len() as int))
    } else {
        s
    }
}

/// The UTF-8 text `s` without its trailing white space characters.
pub open spec fn trim_end(s: Seq<u8>) -> Seq<u8>
    decreases s.len(),
{
    if ws_suffix_len(s) > 0 {
        trim_end(s.subrange(0, s.len() - ws_suffix_len(s)))
    } else {
        s
    }
}

/// The UTF-8 text `s` without its leading and trailing white space
/// characters, as `str::trim` gives it.
pub open spec fn trim(s: Seq<u8>) -> Seq<u8> {
    trim_end(trim_start(s))
}

/// The position of the first `c` in `s` at or after `i`, or the length of
/// `s` if there is none.
pub open spec fn find(s: Seq<u8>, c: u8, i: int) -> int
    decreases s.len() - i,
{
    if i >= s.len() {
        s.len() as int
    } else if s[i] == c {
        i
    } else {
        find(s, c, i + 1)
    }
}

/// The positions `[start, end)` of the lines of `b`, in order.
pub fn line_spans(b: &[u8]) -> (r: Vec<(usize, usize)>)
    ensures
        r@.len() == lines(b@).len(),
        forall|k: int|
            0 <= k < r@.len() ==> {
                &&& (#[trigger] r@[k]).0 <= r@[k].1 <= b@.len()
                &&& b@.subrange(r@[k].0 as int, r@[k].1 as int) == lines(b@)[k]
            },
{
    let mut spans: Vec<(usize, usize)> = Vec::new();
    let mut start: usize = 0;
    let mut i: usize = 0;
    while i < b.len()
        invariant
            start <= i <= b@.len(),
            ({
                let p = pieces(b@.take(i as int));
                &&& p.len() >= 1
                &&& spans@.len() == p.len() - 1
                &&& p.last() == b@.subrange(start as int, i as int)
                &&& forall|k: int|
                    0 <= k < spans@.len() ==> {
                        &&& (#[trigger] spans@[k]).0 <= spans@[k].1 <= i
                        &&& b@.subrange(spans@[k].0 as int, spans@[k].1 as int) == p[k]
                    }
            }),
        decreases b@.len() - i,
    {
        let ghost prev = b@.take(i as int);
        assert(b@.take(i + 1).drop_last() =~= prev);
        assert(b@.subrange(start as int, i + 1) =~= b@.subrange(start as int, i as int).push(
            b@[i as int],
        ));
        if b[i] == 10 {
            spans.push((start, i));
            start = i + 1;
            assert(b@.subrange(start as int, start as int) =~= Seq::<u8>::empty());
        }
        i = i + 1;
    }
    assert(b@.take(i as int) =~= b@);
    if start < b.len() {
        spans.push((start, b.len()));
    }
    spans
}

fn ws_prefix_at(b: &[u8], start: usize, end: usize) -> (r: usize)
    requires
        start <= end <= b@.len(),
    ensures
        r == ws_prefix_len(b@.subrange(start as int, end as int)),
{
    let n = end - start;
    if n >= 1 && (b[start] == 9 || b[start] == 10 || b[start] == 11 || b[start] == 12
        || b[start] == 13 || b[start] == 32) {
        1
    } else if n >= 2 && b[start] == 0xc2 && (b[start + 1] == 0x85 || b[start + 1] == 0xa0) {
        2
    } else if n >= 3 && is_ws3_exec(b[start], b[start + 1], b[start + 2]) {
        3
    } else {
        0
    }
}

fn ws_suffix_at(b: &[u8], start: usize, end: usize) -> (r: usize)
    requires
        start <= end <= b@.len(),
    ensures
        r == ws_suffix_len(b@.subrange(start as int, end as int)),
{
    let n = end - start;
    if n >= 1 && (b[end - 1] == 9 || b[end - 1] == 10 || b[end - 1] == 11 || b[end - 1] == 12
        || b[end - 1] == 13 || b[end - 1] == 32) {
        1
    } else if n >= 2 && b[end - 2] == 0xc2 && (b[end - 1] == 0x85 || b[end - 1] == 0xa0) {
        2
    } else if n >= 3 && is_ws3_exec(b[end - 3], b[end - 2], b[end - 1]) {
        3
    } else {
        0
    }
}

fn is_ws3_exec(a: u8, b: u8, c: u8) -> (r: bool)
    ensures
        r == is_ws3(a, b, c),
{
    (a == 0xe1 && b == 0x9a && c == 0x80) || (a == 0xe2 && b == 0x80 && ((0x80 <= c && c <= 0x8a)
        || c == 0xa8 || c == 0xa9 || c == 0xaf)) || (a == 0xe2 && b == 0x81 && c == 0x9f) || (a
        == 0xe3 && b == 0x80 && c == 0x80)
}

/// The span of `b[start..end]` without its leading and trailing white space
/// characters.
pub fn trim_span(b: &[u8], start: usize, end: usize) -> (r: (usize, usize))
    requires
        start <= end <= b@.len(),
    ensures
        start <= r.0 <= r.1 <= end,
        b@.subrange(r.0 as int, r.1 as int) == trim(b@.subrange(start as int, end as int)),
{
    let mut s = start;
    let mut k = ws_prefix_at(b, s, end);
    while k > 0
        invariant
            start <= s <= end <= b@.len(),
            k == ws_prefix_len(b@.subrange(s as int, end as int)),
            trim_start(b@.subrange(start as int, end as int)) == trim_start(
                b@.subrange(s as int, end as int),
            ),
        decreases end - s,
    {
        assert(b@.subrange(s as int, end as int).subrange(k as int, end - s) =~= b@.subrange(
            s + k,
            end as int,
        ));
        s = s + k;
        k = ws_prefix_at(b, s, end);
    }
    let mut e = end;
    let mut k = ws_suffix_at(b, s, e);
    while k > 0
        invariant
            start <= s <= e <= end <= b@.len(),
            k == ws_suffix_len(b@.subrange(s as int, e as int)),
            trim_start(b@.subrange(start as int, end as int)) == b@.subrange(s as int, end as int),
            trim_end(b@.subrange(s as int, end as int)) == trim_end(
                b@.subrange(s as int, e as int),
            ),
        decreases e - s,
    {
        assert(b@.subrange(s as int, e as int).subrange(0, e - s - k) =~= b@.subrange(
            s as int,
            e - k,
        ));
        e = e - k;
        k = ws_suffix_at(b, s, e);
    }
    (s, e)
}

/// The position of the first `c` in `b[start..end]` at or after `from`
/// (counted from `start`), or `end - start` if there is none.
pub fn find_in(b: &[u8], start: usize, end: usize, c: u8, from: usize) -> (r: usize)
    requires
        start <= end <= b@.len(),
        from <= end - start,
    ensures
        r == find(b@.subrange(start as int, end as int), c, from as int),
        from <= r <= end - start,
{
    let ghost l = b@.subrange(start as int, end as int);
    let mut j = from;
    while j < end - start && b[start + j] != c
        invariant
            start <= end <= b@.len(),
            from <= j <= end - start,
            l == b@.subrange(start as int, end as int),
            find(l, c, from as int) == find(l, c, j as int),
        decreases end - start - j,
    {
        j = j + 1;
    }
    j
}

/// Whether `b[start..end]` is `k`.
pub fn span_eq(b: &[u8], start: usize, end: usize, k: &[u8]) -> (r: bool)
    requires
        start <= end <= b@.len(),
    ensures
        r == (b@.subrange(start as int, end as int) == k@),
{
    if end - start != k.len() {
        return false;
    }
    let mut i: usize = 0;
    while i < k.len()
        invariant
            start <= end <= b@.len(),
            end - start == k@.len(),
            i <= k@.len(),
            forall|j: int| 0 <= j < i ==> b@[start + j] == k@[j],
        decreases k@.len() - i,
    {
        if b[start + i] != k[i] {
            assert(b@.subrange(start as int, end as int)[i as int] != k@[i as int]);
            return false;
        }
        i = i + 1;
    }
    assert(b@.subrange(start as int, end as int) =~= k@);
    true
}

} // verus!
