use vstd::prelude::*;

verus! {

/// `String::push`: afterwards the string holds what it held, then `c`.
#[verifier::external_body]
pub(crate) fn push_char(s: &mut String, c: char)
    ensures
        final(s)@ == old(s)@.push(c),
{
    s.push(c);
}

/// The characters of a string slice, in order.
pub fn chars_of(s: &str) -> (v: Vec<char>)
    ensures
        v@ == s@,
{
    let mut v: Vec<char> = Vec::new();
    for c in it: s.chars()
        invariant
            v@ == it.seq().take(it.index() as int),
    {
        v.push(c);
    }
    assert(v@ == s@);
    v
}

/// A string holding the characters `v[from..to]`.
pub fn string_from(v: &Vec<char>, from: usize, to: usize) -> (s: String)
    requires
        from <= to <= v.len(),
    ensures
        s@ == v@.subrange(from as int, to as int),
{
    let mut s = String::new();
    let mut i = from;
    while i < to
        invariant
            from <= i <= to <= v.len(),
            s@ == v@.subrange(from as int, i as int),
        decreases to - i,
    {
        push_char(&mut s, v[i]);
        i += 1;
    }
    s
}

} // verus!

verus! {

// ---------------------------------------------------------------------------
// Whitespace and trimming
// ---------------------------------------------------------------------------

/// Unicode `White_Space`, the property that `char::is_whitespace` tests.
pub open spec fn is_space(c: char) -> bool {
    ||| ('\u{9}' <= c && c <= '\u{d}')
    ||| c == ' '
    ||| c == '\u{85}'
    ||| c == '\u{a0}'
    ||| c == '\u{1680}'
    ||| ('\u{2000}' <= c && c <= '\u{200a}')
    ||| c == '\u{2028}'
    ||| c == '\u{2029}'
    ||| c == '\u{202f}'
    ||| c == '\u{205f}'
    ||| c == '\u{3000}'
}

pub fn is_space_char(c: char) -> (b: bool)
    ensures
        b == is_space(c),
{
    ('\u{9}' <= c && c <= '\u{d}') || c == ' ' || c == '\u{85}' || c == '\u{a0}' || c == '\u{1680}'
        || ('\u{2000}' <= c && c <= '\u{200a}') || c == '\u{2028}' || c == '\u{2029}' || c
        == '\u{202f}' || c == '\u{205f}' || c == '\u{3000}'
}

/// `s` without its leading whitespace.
pub open spec fn trim_start(s: Seq<char>) -> Seq<char>
    decreases s.len(),
{
    if s.len() > 0 && is_space(s[0]) {
        trim_start(s.drop_first())
    } else {
        s
    }
}

/// `s` without its trailing whitespace.
pub open spec fn trim_end(s: Seq<char>) -> Seq<char>
    decreases s.len(),
{
    if s.len() > 0 && is_space(s.last()) {
        trim_end(s.drop_last())
    } else {
        s
    }
}

/// `s` without leading and trailing whitespace (what `str::trim` returns).
pub open spec fn trim(s: Seq<char>) -> Seq<char> {
    trim_end(trim_start(s))
}

proof fn lemma_trim_start_skip(s: Seq<char>, i: int)
    requires
        0 <= i <= s.len(),
        forall|j: int| 0 <= j < i ==> is_space(#[trigger] s[j]),
        i == s.len() || !is_space(s[i]),
    ensures
        trim_start(s) == s.skip(i),
    decreases i,
{
    if i == 0 {
        assert(s.skip(0) == s);
    } else {
        assert(is_space(s[0]));
        let t = s.drop_first();
        assert forall|j: int| 0 <= j < i - 1 implies is_space(#[trigger] t[j]) by {
            assert(t[j] == s[j + 1]);
        }
        lemma_trim_start_skip(t, i - 1);
        assert(t.skip(i - 1) == s.skip(i));
    }
}

proof fn lemma_trim_end_take(s: Seq<char>, k: int)
    requires
        0 <= k <= s.len(),
        forall|j: int| k <= j < s.len() ==> is_space(#[trigger] s[j]),
        k == 0 || !is_space(s[k - 1]),
    ensures
        trim_end(s) == s.take(k),
    decreases s.len() - k,
{
    if k == s.len() {
        assert(s.take(k) == s);
    } else {
        assert(is_space(s.last()));
        let t = s.drop_last();
        assert forall|j: int| k <= j < t.len() implies is_space(#[trigger] t[j]) by {
            assert(t[j] == s[j]);
        }
        lemma_trim_end_take(t, k);
        assert(t.take(k) == s.take(k));
    }
}

/// Bounds `(a, b)` such that `v[a..b]` is `v` trimmed.
pub fn trim_bounds(v: &Vec<char>, from: usize, to: usize) -> (r: (usize, usize))
    requires
        from <= to <= v.len(),
    ensures
        from <= r.0 <= r.1 <= to,
        v@.subrange(r.0 as int, r.1 as int) == trim(v@.subrange(from as int, to as int)),
{
    let ghost s = v@.subrange(from as int, to as int);
    let mut a = from;
    while a < to && is_space_char(v[a])
        invariant
            from <= a <= to <= v.len(),
            forall|j: int| from <= j < a ==> is_space(#[trigger] v@[j]),
        decreases to - a,
    {
        a += 1;
    }
    proof {
        assert forall|j: int| 0 <= j < a - from implies is_space(#[trigger] s[j]) by {
            assert(s[j] == v@[from + j]);
        }
        lemma_trim_start_skip(s, a - from);
    }
    let ghost t = s.skip(a - from);
    assert(t == v@.subrange(a as int, to as int));
    let mut b = to;
    while b > a && is_space_char(v[b - 1])
        invariant
            from <= a <= b <= to <= v.len(),
            forall|j: int| b <= j < to ==> is_space(#[trigger] v@[j]),
        decreases b - a,
    {
        b -= 1;
    }
    proof {
        assert forall|j: int| b - a <= j < t.len() implies is_space(#[trigger] t[j]) by {
            assert(t[j] == v@[a + j]);
        }
        if b > a {
            assert(t[b - a - 1] == v@[b - 1]);
        }
        lemma_trim_end_take(t, b - a);
        assert(t.take(b - a) == v@.subrange(a as int, b as int));
    }
    (a, b)
}

} // verus!

verus! {

// ---------------------------------------------------------------------------
// Words (`str::split_whitespace`) and joining
// ---------------------------------------------------------------------------

/// The views of a sequence of character vectors.
pub open spec fn views(v: Seq<Vec<char>>) -> Seq<Seq<char>> {
    Seq::new(v.len(), |i: int| v[i]@)
}

/// The word being read (`cur`), if it is not empty, as a one-element list.
pub open spec fn pending(cur: Seq<char>) -> Seq<Seq<char>> {
    if cur.len() > 0 {
        seq![cur]
    } else {
        seq![]
    }
}

/// The words of `s` after a partly read word `cur`: maximal runs of
/// non-whitespace characters, in order.
pub open spec fn words_after(s: Seq<char>, cur: Seq<char>) -> Seq<Seq<char>>
    decreases s.len(),
{
    if s.len() == 0 {
        pending(cur)
    } else if is_space(s[0]) {
        pending(cur) + words_after(s.drop_first(), seq![])
    } else {
        words_after(s.drop_first(), cur.push(s[0]))
    }
}

/// The words of `s`, as `str::split_whitespace` yields them.
pub open spec fn words(s: Seq<char>) -> Seq<Seq<char>> {
    words_after(s, seq![])
}

/// The words of `v[from..to]`.
pub fn split_words(v: &Vec<char>, from: usize, to: usize) -> (ws: Vec<Vec<char>>)
    requires
        from <= to <= v.len(),
    ensures
        views(ws@) == words(v@.subrange(from as int, to as int)),
{
    let ghost s = v@.subrange(from as int, to as int);
    let mut ws: Vec<Vec<char>> = Vec::new();
    let mut cur: Vec<char> = Vec::new();
    let mut i = from;
    while i < to
        invariant
            from <= i <= to <= v.len(),
            s == v@.subrange(from as int, to as int),
            views(ws@) + words_after(v@.subrange(i as int, to as int), cur@) == words(s),
        decreases to - i,
    {
        let ghost rest = v@.subrange(i as int, to as int);
        assert(rest.drop_first() == v@.subrange(i + 1, to as int));
        let c = v[i];
        if is_space_char(c) {
            if cur.len() > 0 {
                let ghost old_ws = ws@;
                ws.push(cur);
                assert(views(ws@) == views(old_ws) + pending(cur@));
                cur = Vec::new();
            } else {
                assert(pending(cur@) == Seq::<Seq<char>>::empty());
                assert(views(ws@) + Seq::<Seq<char>>::empty() == views(ws@));
                cur = Vec::new();
            }
            assert(words_after(rest, cur@) == words_after(rest, seq![]));
        } else {
            cur.push(c);
        }
        i += 1;
    }
    assert(v@.subrange(to as int, to as int).len() == 0);
    if cur.len() > 0 {
        let ghost old_ws = ws@;
        ws.push(cur);
        assert(views(ws@) == views(old_ws) + pending(cur@));
    } else {
        assert(views(ws@) + Seq::<Seq<char>>::empty() == views(ws@));
    }
    ws
}

/// The words of `ws` joined with `sep` between each two (`[&str]::join`).
pub open spec fn join(ws: Seq<Seq<char>>, sep: Seq<char>) -> Seq<char>
    decreases ws.len(),
{
    if ws.len() == 0 {
        seq![]
    } else if ws.len() == 1 {
        ws[0]
    } else {
        join(ws.drop_last(), sep) + sep + ws.last()
    }
}

/// Appends `v[from..to]` to `s`.
pub fn push_range(s: &mut String, v: &Vec<char>, from: usize, to: usize)
    requires
        from <= to <= v.len(),
    ensures
        final(s)@ == old(s)@ + v@.subrange(from as int, to as int),
{
    let mut i = from;
    while i < to
        invariant
            from <= i <= to <= v.len(),
            s@ == old(s)@ + v@.subrange(from as int, i as int),
        decreases to - i,
    {
        push_char(s, v[i]);
        i += 1;
        assert(v@.subrange(from as int, i as int) == v@.subrange(from as int, i - 1).push(v@[i - 1]));
    }
}

/// Appends all of `v` to `s`.
pub fn push_all(s: &mut String, v: &Vec<char>)
    ensures
        final(s)@ == old(s)@ + v@,
{
    push_range(s, v, 0, v.len());
    assert(v@.subrange(0, v.len() as int) == v@);
}

/// The words `ws[from..]` joined by `sep`.
pub fn join_words(ws: &Vec<Vec<char>>, from: usize, sep: &Vec<char>) -> (s: String)
    requires
        from <= ws.len(),
    ensures
        s@ == join(views(ws@).skip(from as int), sep@),
{
    let mut s = String::new();
    let mut i = from;
    while i < ws.len()
        invariant
            from <= i <= ws.len(),
            s@ == join(views(ws@).subrange(from as int, i as int), sep@),
        decreases ws.len() - i,
    {
        let ghost prev = views(ws@).subrange(from as int, i as int);
        let ghost next = views(ws@).subrange(from as int, i + 1);
        assert(next.drop_last() == prev);
        if i > from {
            push_all(&mut s, sep);
        }
        push_all(&mut s, &ws[i]);
        proof {
            if i == from {
                assert(next.len() == 1);
                assert(prev.len() == 0);
            }
        }
        i += 1;
    }
    assert(views(ws@).subrange(from as int, ws.len() as int) == views(ws@).skip(from as int));
    s
}

} // verus!

verus! {

// ---------------------------------------------------------------------------
// Prefixes, suffixes and searching
// ---------------------------------------------------------------------------

/// `p` occurs in `s` at index `i`.
pub open spec fn occurs_at(s: Seq<char>, p: Seq<char>, i: int) -> bool {
    0 <= i && i + p.len() <= s.len() && s.subrange(i, i + p.len()) == p
}

pub open spec fn starts_with(s: Seq<char>, p: Seq<char>) -> bool {
    occurs_at(s, p, 0)
}

pub open spec fn ends_with(s: Seq<char>, p: Seq<char>) -> bool {
    occurs_at(s, p, s.len() - p.len())
}

/// `i` is the first index at which `p` occurs in `s`.
pub open spec fn is_first_occurrence(s: Seq<char>, p: Seq<char>, i: int) -> bool {
    occurs_at(s, p, i) && forall|j: int| 0 <= j < i ==> !occurs_at(s, p, j)
}

/// The first index at which `p` occurs in `s` (`str::find`).
pub open spec fn find(s: Seq<char>, p: Seq<char>) -> Option<int> {
    if exists|i: int| is_first_occurrence(s, p, i) {
        Some(choose|i: int| is_first_occurrence(s, p, i))
    } else {
        None
    }
}

pub open spec fn contains(s: Seq<char>, p: Seq<char>) -> bool {
    exists|i: int| occurs_at(s, p, i)
}

/// The parts of `s` before and after the first `c` (`str::split_once`).
pub open spec fn split_once(s: Seq<char>, c: char) -> Option<(Seq<char>, Seq<char>)> {
    match find(s, seq![c]) {
        Some(i) => Some((s.take(i), s.skip(i + 1))),
        None => None,
    }
}

/// `s` up to its first `c`, or all of `s` (the first part of `str::split`).
pub open spec fn before_first(s: Seq<char>, c: char) -> Seq<char> {
    match split_once(s, c) {
        Some((a, _)) => a,
        None => s,
    }
}

proof fn lemma_first_unique(s: Seq<char>, p: Seq<char>, i: int, j: int)
    requires
        is_first_occurrence(s, p, i),
        is_first_occurrence(s, p, j),
    ensures
        i == j,
{
    if i < j {
        assert(!occurs_at(s, p, i));
    } else if j < i {
        assert(!occurs_at(s, p, j));
    }
}

pub proof fn lemma_find_is(s: Seq<char>, p: Seq<char>, i: int)
    requires
        is_first_occurrence(s, p, i),
    ensures
        find(s, p) == Some(i),
{
    let k = choose|k: int| is_first_occurrence(s, p, k);
    lemma_first_unique(s, p, i, k);
}

/// Whether `p` occurs in `v[from..to]` at offset `i` (relative to `from`).
fn matches_at(v: &Vec<char>, from: usize, to: usize, p: &Vec<char>, i: usize) -> (b: bool)
    requires
        from <= to <= v.len(),
    ensures
        b == occurs_at(v@.subrange(from as int, to as int), p@, i as int),
{
    let ghost s = v@.subrange(from as int, to as int);
    if i > to - from || p.len() > to - from - i {
        return false;
    }
    let mut k: usize = 0;
    while k < p.len()
        invariant
            from <= to <= v.len(),
            i + p.len() <= to - from,
            s == v@.subrange(from as int, to as int),
            k <= p.len(),
            forall|m: int| 0 <= m < k ==> s[i + m] == p@[m],
        decreases p.len() - k,
    {
        if v[from + i + k] != p[k] {
            assert(s.subrange(i as int, i + p.len())[k as int] != p@[k as int]);
            return false;
        }
        k += 1;
    }
    assert(s.subrange(i as int, i + p.len()) == p@);
    true
}

/// The first offset (relative to `from`) of `p` in `v[from..to]`.
pub fn find_in(v: &Vec<char>, from: usize, to: usize, p: &Vec<char>) -> (r: Option<usize>)
    requires
        from <= to <= v.len(),
    ensures
        r is Some ==> find(v@.subrange(from as int, to as int), p@) == Some(r->0 as int),
        r is None ==> find(v@.subrange(from as int, to as int), p@) is None,
        r is None <==> !contains(v@.subrange(from as int, to as int), p@),
{
    let ghost s = v@.subrange(from as int, to as int);
    let mut i: usize = 0;
    loop
        invariant
            from <= to <= v.len(),
            s == v@.subrange(from as int, to as int),
            i <= to - from,
            forall|j: int| 0 <= j < i ==> !occurs_at(s, p@, j),
        ensures
            forall|j: int| 0 <= j <= to - from ==> !occurs_at(s, p@, j),
        decreases to - from - i,
    {
        if matches_at(v, from, to, p, i) {
            proof {
                lemma_find_is(s, p@, i as int);
            }
            return Some(i);
        }
        if i == to - from {
            break;
        }
        i += 1;
    }
    assert forall|j: int| !occurs_at(s, p@, j) by {
        if 0 <= j <= to - from {
        }
    }
    assert(!exists|j: int| is_first_occurrence(s, p@, j));
    None
}

/// The first offset (relative to `from`) of `c` in `v[from..to]`.
pub fn find_char(v: &Vec<char>, from: usize, to: usize, c: char) -> (r: Option<usize>)
    requires
        from <= to <= v.len(),
    ensures
        r is Some ==> find(v@.subrange(from as int, to as int), seq![c]) == Some(r->0 as int)
            && from + r->0 < to,
        r is None ==> find(v@.subrange(from as int, to as int), seq![c]) is None,
{
    let ghost s = v@.subrange(from as int, to as int);
    let mut i: usize = 0;
    while i < to - from
        invariant
            from <= to <= v.len(),
            s == v@.subrange(from as int, to as int),
            i <= to - from,
            forall|j: int| 0 <= j < i ==> s[j] != c,
        decreases to - from - i,
    {
        if v[from + i] == c {
            proof {
                assert(s.subrange(i as int, i + 1) == seq![c]);
                assert forall|j: int| 0 <= j < i implies !occurs_at(s, seq![c], j) by {
                    assert(s.subrange(j, j + 1)[0] == s[j]);
                }
                lemma_find_is(s, seq![c], i as int);
            }
            return Some(i);
        }
        i += 1;
    }
    assert forall|j: int| !occurs_at(s, seq![c], j) by {
        if 0 <= j < s.len() {
            assert(s.subrange(j, j + 1)[0] == s[j]);
        }
    }
    assert(!exists|j: int| is_first_occurrence(s, seq![c], j));
    None
}

/// Whether `v[from..to]` starts with `p`.
pub fn has_prefix(v: &Vec<char>, from: usize, to: usize, p: &Vec<char>) -> (b: bool)
    requires
        from <= to <= v.len(),
    ensures
        b == starts_with(v@.subrange(from as int, to as int), p@),
{
    matches_at(v, from, to, p, 0)
}

/// Whether `v[from..to]` ends with `p`.
pub fn has_suffix(v: &Vec<char>, from: usize, to: usize, p: &Vec<char>) -> (b: bool)
    requires
        from <= to <= v.len(),
    ensures
        b == ends_with(v@.subrange(from as int, to as int), p@),
{
    if p.len() > to - from {
        return false;
    }
    matches_at(v, from, to, p, to - from - p.len())
}

} // verus!

verus! {

// ---------------------------------------------------------------------------
// Lines (`str::lines`)
// ---------------------------------------------------------------------------

/// A line without the `'\r'` of a `"\r\n"` ending.
pub open spec fn strip_cr(l: Seq<char>) -> Seq<char> {
    if l.len() > 0 && l.last() == '\r' {
        l.drop_last()
    } else {
        l
    }
}

/// The lines of `s` after a partly read line `cur`.
pub open spec fn lines_after(s: Seq<char>, cur: Seq<char>) -> Seq<Seq<char>>
    decreases s.len(),
{
    if s.len() == 0 {
        pending(cur)
    } else if s[0] == '\n' {
        seq![strip_cr(cur)] + lines_after(s.drop_first(), seq![])
    } else {
        lines_after(s.drop_first(), cur.push(s[0]))
    }
}

/// The lines of `s`, as `str::lines` yields them: split at `'\n'`, a `'\r'`
/// before the `'\n'` dropped, no empty last line after a final `'\n'`.
pub open spec fn lines(s: Seq<char>) -> Seq<Seq<char>> {
    lines_after(s, seq![])
}

fn strip_cr_vec(l: Vec<char>) -> (r: Vec<char>)
    ensures
        r@ == strip_cr(l@),
{
    let mut l = l;
    if l.len() > 0 && l[l.len() - 1] == '\r' {
        l.pop();
    }
    l
}

/// The lines of `s`.
pub fn split_lines(s: &str) -> (ls: Vec<Vec<char>>)
    ensures
        views(ls@) == lines(s@),
{
    let v = chars_of(s);
    let mut ls: Vec<Vec<char>> = Vec::new();
    let mut cur: Vec<char> = Vec::new();
    let mut i: usize = 0;
    assert(v@.subrange(0, v.len() as int) == v@);
    assert(views(ls@) == Seq::<Seq<char>>::empty());
    while i < v.len()
        invariant
            i <= v.len(),
            v@ == s@,
            views(ls@) + lines_after(v@.subrange(i as int, v.len() as int), cur@) == lines(s@),
        decreases v.len() - i,
    {
        let ghost rest = v@.subrange(i as int, v.len() as int);
        assert(rest.drop_first() == v@.subrange(i + 1, v.len() as int));
        let c = v[i];
        if c == '\n' {
            let ghost old_ws = ls@;
            let ghost old_cur = cur@;
            let line = strip_cr_vec(cur);
            ls.push(line);
            assert(views(ls@) == views(old_ws) + seq![strip_cr(old_cur)]);
            cur = Vec::new();
            assert(views(ls@) + lines_after(rest.drop_first(), cur@) == views(old_ws) + (seq![
                strip_cr(old_cur),
            ] + lines_after(rest.drop_first(), seq![])));
        } else {
            cur.push(c);
        }
        i += 1;
    }
    assert(v@.subrange(v.len() as int, v.len() as int).len() == 0);
    if cur.len() > 0 {
        let ghost old_ws = ls@;
        ls.push(cur);
        assert(views(ls@) == views(old_ws) + pending(cur@));
    } else {
        assert(views(ls@) + Seq::<Seq<char>>::empty() == views(ls@));
    }
    ls
}

// ---------------------------------------------------------------------------
// Decimal numbers (`str::parse::<i32>` and `u32::to_string`)
// ---------------------------------------------------------------------------

pub open spec fn is_digit(c: char) -> bool {
    '0' <= c && c <= '9'
}

pub open spec fn digit_value(c: char) -> int {
    c as int - '0' as int
}

/// The number that a run of decimal digits denotes.
pub open spec fn digits_value(s: Seq<char>) -> int
    decreases s.len(),
{
    if s.len() == 0 {
        0
    } else {
        digits_value(s.drop_last()) * 10 + digit_value(s.last())
    }
}

pub open spec fn all_digits(s: Seq<char>) -> bool {
    forall|i: int| 0 <= i < s.len() ==> is_digit(#[trigger] s[i])
}

/// The integer that `s` denotes: an optional `+` or `-` and one or more
/// decimal digits, nothing else.
pub open spec fn parse_int(s: Seq<char>) -> Option<int> {
    let signed = s.len() > 0 && (s[0] == '+' || s[0] == '-');
    let body = if signed {
        s.drop_first()
    } else {
        s
    };
    if body.len() > 0 && all_digits(body) {
        if signed && s[0] == '-' {
            Some(-digits_value(body))
        } else {
            Some(digits_value(body))
        }
    } else {
        None
    }
}

/// What `str::parse::<i32>` returns, as an `Option`.
pub open spec fn parse_i32(s: Seq<char>) -> Option<i32> {
    match parse_int(s) {
        Some(n) => if i32::MIN <= n <= i32::MAX {
            Some(n as i32)
        } else {
            None
        },
        None => None,
    }
}

proof fn lemma_digits_value_nonneg(s: Seq<char>)
    requires
        all_digits(s),
    ensures
        digits_value(s) >= 0,
    decreases s.len(),
{
    if s.len() > 0 {
        assert(is_digit(s[s.len() - 1]));
        assert(all_digits(s.drop_last())) by {
            assert forall|i: int| 0 <= i < s.drop_last().len() implies is_digit(
                #[trigger] s.drop_last()[i],
            ) by {
                assert(s.drop_last()[i] == s[i]);
            }
        }
        lemma_digits_value_nonneg(s.drop_last());
    }
}

/// Parses `v[from..to]` as an `i32`.
pub fn parse_i32_in(v: &Vec<char>, from: usize, to: usize) -> (r: Option<i32>)
    requires
        from <= to <= v.len(),
    ensures
        r == parse_i32(v@.subrange(from as int, to as int)),
{
    let ghost s = v@.subrange(from as int, to as int);
    let mut start = from;
    let mut negative = false;
    if from < to && (v[from] == '+' || v[from] == '-') {
        negative = v[from] == '-';
        start = from + 1;
    }
    assert(from < to ==> s[0] == v@[from as int]);
    let ghost body = v@.subrange(start as int, to as int);
    assert(start > from ==> body == s.drop_first());
    assert(start == from ==> body == s);
    if start == to {
        return None;
    }
    let mut acc: i64 = 0;
    let mut j = start;
    while j < to
        invariant
            from <= start < to <= v.len(),
            start <= j <= to,
            body == v@.subrange(start as int, to as int),
            s == v@.subrange(from as int, to as int),
            start > from ==> body == s.drop_first() && s.len() > 0 && (s[0] == '+' || s[0] == '-'),
            start == from ==> body == s && !(s.len() > 0 && (s[0] == '+' || s[0] == '-')),
            negative <==> (start > from && s[0] == '-'),
            all_digits(v@.subrange(start as int, j as int)),
            (acc == digits_value(v@.subrange(start as int, j as int)) && 0 <= acc <= 0x8000_0000)
                || (acc == 0x8000_0001 && digits_value(v@.subrange(start as int, j as int))
                > 0x8000_0000),
        decreases to - j,
    {
        let ghost pre = v@.subrange(start as int, j as int);
        let ghost next = v@.subrange(start as int, j + 1);
        assert(next.drop_last() == pre);
        let c = v[j];
        if !('0' <= c && c <= '9') {
            assert(body[j - start] == c);
            assert(!all_digits(body));
            return None;
        }
        let d = (c as u32 - '0' as u32) as i64;
        proof {
            lemma_digits_value_nonneg(pre);
        }
        if acc <= 0x8000_0000 {
            acc = acc * 10 + d;
            if acc > 0x8000_0000 {
                acc = 0x8000_0001;
            }
        }
        assert(all_digits(next)) by {
            assert forall|k: int| 0 <= k < next.len() implies is_digit(#[trigger] next[k]) by {
                if k < pre.len() {
                    assert(next[k] == pre[k]);
                }
            }
        }
        j += 1;
    }
    assert(v@.subrange(start as int, j as int) == body);
    if negative {
        if acc <= 0x8000_0000 {
            Some((-acc) as i32)
        } else {
            None
        }
    } else {
        if acc <= 0x7fff_ffff {
            Some(acc as i32)
        } else {
            None
        }
    }
}

pub open spec fn digit_char(d: int) -> char {
    (d + '0' as int) as char
}

/// The decimal numeral of `n` (what `to_string` gives for an unsigned integer).
pub open spec fn decimal(n: nat) -> Seq<char>
    decreases n,
{
    if n < 10 {
        seq![digit_char(n as int)]
    } else {
        decimal(n / 10).push(digit_char((n % 10) as int))
    }
}

fn digit_to_char(d: u64) -> (c: char)
    requires
        d < 10,
    ensures
        c == digit_char(d as int),
{
    let b = d as u8 + 48u8;
    b as char
}

/// The decimal numeral of `n`.
pub fn decimal_chars(n: u64) -> (v: Vec<char>)
    ensures
        v@ == decimal(n as nat),
    decreases n,
{
    if n < 10 {
        let mut v = Vec::new();
        v.push(digit_to_char(n));
        v
    } else {
        let mut v = decimal_chars(n / 10);
        v.push(digit_to_char(n % 10));
        v
    }
}

} // verus!

verus! {

/// The index of the first `c` in `v[from..to]`, telling where `split_once`
/// cuts that range.
pub fn split_at_char(v: &Vec<char>, from: usize, to: usize, c: char) -> (r: Option<usize>)
    requires
        from <= to <= v.len(),
    ensures
        match r {
            Some(k) => from <= k < to && split_once(v@.subrange(from as int, to as int), c) == Some(
                (v@.subrange(from as int, k as int), v@.subrange(k + 1, to as int)),
            ),
            None => split_once(v@.subrange(from as int, to as int), c) is None,
        },
{
    let ghost s = v@.subrange(from as int, to as int);
    match find_char(v, from, to, c) {
        Some(i) => {
            assert(s.take(i as int) == v@.subrange(from as int, from + i));
            assert(s.skip(i + 1) == v@.subrange(from + i + 1, to as int));
            Some(from + i)
        },
        None => None,
    }
}

} // verus!

verus! {

// ---------------------------------------------------------------------------
// UTF-8 lengths
// ---------------------------------------------------------------------------

/// Bytes that `c` takes in UTF-8.
pub open spec fn utf8_width(c: char) -> int {
    if c as u32 <= 0x7f {
        1
    } else if c as u32 <= 0x7ff {
        2
    } else if c as u32 <= 0xffff {
        3
    } else {
        4
    }
}

/// Bytes that `s` takes in UTF-8 (what `str::len` gives).
pub open spec fn utf8_len(s: Seq<char>) -> int
    decreases s.len(),
{
    if s.len() == 0 {
        0
    } else {
        utf8_len(s.drop_last()) + utf8_width(s.last())
    }
}

pub fn utf8_width_of(c: char) -> (w: u64)
    ensures
        w == utf8_width(c),
{
    let u = c as u32;
    if u <= 0x7f {
        1
    } else if u <= 0x7ff {
        2
    } else if u <= 0xffff {
        3
    } else {
        4
    }
}

pub proof fn lemma_utf8_len_nonneg(s: Seq<char>)
    ensures
        utf8_len(s) >= 0,
    decreases s.len(),
{
    if s.len() > 0 {
        lemma_utf8_len_nonneg(s.drop_last());
    }
}

} // verus!

verus! {

/// Reading back a decimal numeral gives the number: `parse_int` undoes
/// `decimal`, so every numeral the library writes is a valid number.
pub proof fn law_decimal_reads_back(n: nat)
    ensures
        decimal(n).len() > 0,
        all_digits(decimal(n)),
        digits_value(decimal(n)) == n,
        parse_int(decimal(n)) == Some(n as int),
    decreases n,
{
    let s = decimal(n);
    let d = (n % 10) as int;
    assert(digit_value(digit_char(d)) == d);
    if n < 10 {
        assert(s == seq![digit_char(n as int)]);
        assert(s.drop_last().len() == 0);
        assert(s.last() == digit_char(n as int));
        assert(digits_value(s) == digits_value(s.drop_last()) * 10 + digit_value(s.last()));
        assert(is_digit(s[0]));
    } else {
        law_decimal_reads_back(n / 10);
        let p = decimal(n / 10);
        assert(s == p.push(digit_char(d)));
        assert(s.drop_last() == p);
        assert(s.last() == digit_char(d));
        assert((n / 10) * 10 + n % 10 == n) by (nonlinear_arith);
        assert(digits_value(s) == digits_value(p) * 10 + d);
        assert forall|i: int| 0 <= i < s.len() implies is_digit(#[trigger] s[i]) by {
            if i < p.len() {
                assert(s[i] == p[i]);
            }
        }
    }
    assert(s[0] != '+' && s[0] != '-') by {
        assert(is_digit(s[0]));
    }
}

/// Different numbers have different numerals.
pub proof fn lemma_decimal_injective(a: nat, b: nat)
    requires
        decimal(a) == decimal(b),
    ensures
        a == b,
{
    law_decimal_reads_back(a);
    law_decimal_reads_back(b);
}

} // verus!
