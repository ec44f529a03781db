use vstd::prelude::*;

use crate::layout::{assign_position_labels, labeled};
use crate::recorder::{output_views, OutputInfo, OutputView};
use crate::text::{
    before_first, chars_of, contains, ends_with, find, find_char, find_in, has_prefix, has_suffix,
    join, join_words, lines, push_all, push_char, split_lines, split_words, starts_with,
    string_from, trim, trim_bounds, utf8_len, utf8_width_of, views, words, lemma_utf8_len_nonneg,
};

verus! {

// ---------------------------------------------------------------------------
// Short descriptions
// ---------------------------------------------------------------------------

/// What `char::is_alphanumeric` answers for `c` (Unicode `Alphabetic` or
/// `Numeric`).
pub uninterp spec fn alphanumeric(c: char) -> bool;

/// An ASCII letter or digit.
pub open spec fn ascii_alphanumeric(c: char) -> bool {
    ||| '0' <= c && c <= '9'
    ||| 'a' <= c && c <= 'z'
    ||| 'A' <= c && c <= 'Z'
}

/// `char::is_alphanumeric`: its answer is named `alphanumeric`; ASCII letters
/// and digits are alphanumeric, as its documentation shows. The Unicode
/// tables behind the other characters are not spelled out.
#[verifier::external_body]
fn is_alphanumeric(c: char) -> (b: bool)
    ensures
        b == alphanumeric(c),
        ascii_alphanumeric(c) ==> b,
{
    c.is_alphanumeric()
}

/// A word of an output description that says nothing to a person: a hex
/// number (`0x...`), or a serial-like code of more than six bytes, all
/// alphanumeric (ASCII letters and digits among them), with an ASCII digit
/// and an ASCII capital.
pub open spec fn is_noise_word(t: Seq<char>) -> bool {
    ||| starts_with(t, "0x"@)
    ||| {
        &&& utf8_len(t) > 6
        &&& forall|i: int| 0 <= i < t.len() ==> ascii_alphanumeric(#[trigger] t[i]) || alphanumeric(t[i])
        &&& exists|i: int| 0 <= i < t.len() && '0' <= #[trigger] t[i] && t[i] <= '9'
        &&& exists|i: int| 0 <= i < t.len() && 'A' <= #[trigger] t[i] && t[i] <= 'Z'
    }
}

/// The words of `ws` that are not noise, in order.
pub open spec fn significant(ws: Seq<Seq<char>>) -> Seq<Seq<char>>
    decreases ws.len(),
{
    if ws.len() == 0 {
        seq![]
    } else if is_noise_word(ws.last()) {
        significant(ws.drop_last())
    } else {
        significant(ws.drop_last()).push(ws.last())
    }
}

/// The description of output `name` as the display list shows it: without a
/// trailing ` (name)`, trimmed, noise words dropped, only the last two words
/// kept, joined by single spaces.
pub open spec fn short_description(desc: Seq<char>, name: Seq<char>) -> Seq<char> {
    let suffix = " ("@ + name + ")"@;
    let d = trim(
        if ends_with(desc, suffix) {
            desc.take(desc.len() - suffix.len())
        } else {
            desc
        },
    );
    let sig = significant(words(d));
    let kept = if sig.len() > 2 {
        sig.skip(sig.len() - 2)
    } else {
        sig
    };
    join(kept, " "@)
}

/// Whether `t` is a noise word.
pub fn noise_word(t: &Vec<char>) -> (b: bool)
    ensures
        b == is_noise_word(t@),
{
    if t.len() >= 2 && t[0] == '0' && t[1] == 'x' {
        assert(t@.subrange(0, 2) == "0x"@) by {
            reveal_strlit("0x");
        }
        return true;
    }
    assert(!starts_with(t@, "0x"@)) by {
        reveal_strlit("0x");
        if t@.len() >= 2 {
            assert(t@.subrange(0, 2)[0] == t@[0]);
            assert(t@.subrange(0, 2)[1] == t@[1]);
        }
    }
    // UTF-8 length, counted up to 7
    let mut bytes: u64 = 0;
    let mut all_alnum = true;
    let mut digit = false;
    let mut upper = false;
    let mut i: usize = 0;
    while i < t.len()
        invariant
            i <= t.len(),
            bytes == if utf8_len(t@.take(i as int)) > 7 {
                7
            } else {
                utf8_len(t@.take(i as int))
            },
            all_alnum == forall|j: int| 0 <= j < i ==> ascii_alphanumeric(#[trigger] t@[j]) || alphanumeric(t@[j]),
            digit == exists|j: int| 0 <= j < i && '0' <= #[trigger] t@[j] && t@[j] <= '9',
            upper == exists|j: int| 0 <= j < i && 'A' <= #[trigger] t@[j] && t@[j] <= 'Z',
        decreases t.len() - i,
    {
        let c = t[i];
        assert(t@.take(i + 1).drop_last() == t@.take(i as int));
        assert(t@.take(i + 1).last() == c);
        proof {
            lemma_utf8_len_nonneg(t@.take(i as int));
        }
        let w = utf8_width_of(c);
        bytes = if bytes + w > 7 {
            7
        } else {
            bytes + w
        };
        if !is_alphanumeric(c) {
            all_alnum = false;
        }
        if '0' <= c && c <= '9' {
            digit = true;
        }
        if 'A' <= c && c <= 'Z' {
            upper = true;
        }
        i += 1;
    }
    assert(t@.take(t.len() as int) == t@);
    bytes > 6 && all_alnum && digit && upper
}

/// Shortens an output description for the display list.
pub fn shorten_description(desc: &str, name: &str) -> (r: String)
    ensures
        r@ == short_description(desc@, name@),
{
    let v = chars_of(desc);
    let mut suffix_s = String::from_str(" (");
    suffix_s.append(name);
    suffix_s.append(")");
    let suffix = chars_of(suffix_s.as_str());
    let n = v.len();
    assert(v@.subrange(0, n as int) == v@);
    let end = if has_suffix(&v, 0, n, &suffix) {
        n - suffix.len()
    } else {
        n
    };
    assert(v@.subrange(0, end as int) == if ends_with(desc@, suffix@) {
        desc@.take(desc@.len() - suffix@.len())
    } else {
        desc@
    });
    let (a, b) = trim_bounds(&v, 0, end);
    let ws = split_words(&v, a, b);
    let mut sig: Vec<Vec<char>> = Vec::new();
    let mut i: usize = 0;
    while i < ws.len()
        invariant
            i <= ws.len(),
            views(sig@) == significant(views(ws@).take(i as int)),
        decreases ws.len() - i,
    {
        let ghost pre = views(ws@).take(i as int);
        assert(views(ws@).take(i + 1).drop_last() == pre);
        assert(views(ws@).take(i + 1).last() == ws@[i as int]@);
        if !noise_word(&ws[i]) {
            let ghost old_sig = sig@;
            let w = ws[i].clone();
            sig.push(w);
            assert(views(sig@) == views(old_sig).push(ws@[i as int]@));
        }
        i += 1;
    }
    assert(views(ws@).take(ws.len() as int) == views(ws@));
    let sep = chars_of(" ");
    let from = if sig.len() > 2 {
        sig.len() - 2
    } else {
        0
    };
    assert(views(sig@).skip(0) == views(sig@));
    join_words(&sig, from, &sep)
}

} // verus!

verus! {

// ---------------------------------------------------------------------------
// Geometries reported by wlr-randr
// ---------------------------------------------------------------------------

/// Name, geometry pairs, as views.
pub open spec fn pair_views(v: Seq<(String, String)>) -> Seq<(Seq<char>, Seq<char>)> {
    Seq::new(v.len(), |i: int| (v[i].0@, v[i].1@))
}

/// The state of a scan of wlr-randr's report: the output being read, its
/// current mode and its position, and the geometries found so far.
pub type RandrScan = (
    Option<Seq<char>>,
    Option<Seq<char>>,
    Option<Seq<char>>,
    Seq<(Seq<char>, Seq<char>)>,
);

pub open spec fn first_word(l: Seq<char>) -> Option<Seq<char>> {
    if words(l).len() > 0 {
        Some(words(l)[0])
    } else {
        None
    }
}

/// `p` with each `,` replaced by `+`.
pub open spec fn commas_to_plus(p: Seq<char>) -> Seq<char> {
    Seq::new(
        p.len(),
        |i: int|
            if p[i] == ',' {
                '+'
            } else {
                p[i]
            },
    )
}

/// The geometries of a scan, with the output being read added when its name,
/// mode and position are all known: `mode+X+Y`.
pub open spec fn flushed(st: RandrScan) -> Seq<(Seq<char>, Seq<char>)> {
    match (st.0, st.1, st.2) {
        (Some(n), Some(r), Some(p)) => st.3.push((n, r + "+"@ + commas_to_plus(p))),
        _ => st.3,
    }
}

/// One line of wlr-randr's report: a line that does not start with a space
/// names a new output; the first line mentioning `current` gives its mode;
/// a line reading `Position: X,Y` gives its position.
pub open spec fn randr_step(st: RandrScan, line: Seq<char>) -> RandrScan {
    if line.len() > 0 && line[0] != ' ' {
        (first_word(line), None, None, flushed(st))
    } else if contains(line, "current"@) && st.1 is None {
        match first_word(line) {
            Some(r) => (st.0, Some(r), st.2, st.3),
            None => st,
        }
    } else if starts_with(trim(line), "Position: "@) {
        (st.0, st.1, Some(trim(line).skip(10)), st.3)
    } else {
        st
    }
}

pub open spec fn randr_scan(ls: Seq<Seq<char>>) -> RandrScan
    decreases ls.len(),
{
    if ls.len() == 0 {
        (None, None, None, seq![])
    } else {
        randr_step(randr_scan(ls.drop_last()), ls.last())
    }
}

/// The `(name, "WxH+X+Y")` pairs of a wlr-randr report, in report order.
pub open spec fn randr_geometries(text: Seq<char>) -> Seq<(Seq<char>, Seq<char>)> {
    flushed(randr_scan(lines(text)))
}

/// A line that starts an output's section (it does not start with a space).
pub open spec fn is_header(l: Seq<char>) -> bool {
    l.len() > 0 && l[0] != ' '
}

/// A line inside a section that mentions `current` and has a first word.
pub open spec fn mode_line(l: Seq<char>) -> bool {
    !is_header(l) && contains(l, "current"@) && first_word(l) is Some
}

/// Lines `h..e` of `ls` are one output's section (a header at `h`, none
/// after it up to `e`, where the next header or the end of the report is),
/// its first current-mode line is at `k`, and `p` pairs the header's name
/// with a geometry that begins with that line's size and `+`.
pub open spec fn section_gives(ls: Seq<Seq<char>>, h: int, k: int, e: int, p: (Seq<char>, Seq<char>)) -> bool {
    &&& 0 <= h < k < e <= ls.len()
    &&& e == ls.len() || is_header(ls[e])
    &&& is_header(ls[h]) && first_word(ls[h]) == Some(p.0)
    &&& forall|m: int| h < m < e ==> !is_header(#[trigger] ls[m])
    &&& mode_line(ls[k])
    &&& forall|m: int| h < m < k ==> !mode_line(#[trigger] ls[m])
    &&& first_word(ls[k]) matches Some(w) && starts_with(p.1, w + "+"@)
}

/// The section being read: a header at `h` naming `n`, with no header after
/// it, and either its first current-mode line at `k`, giving `size`, or no
/// current-mode line yet.
pub open spec fn open_section(ls: Seq<Seq<char>>, h: int, k: int, n: Seq<char>, size: Option<Seq<char>>) -> bool {
    &&& 0 <= h < ls.len()
    &&& is_header(ls[h]) && first_word(ls[h]) == Some(n)
    &&& forall|m: int| h < m < ls.len() ==> !is_header(#[trigger] ls[m])
    &&& match size {
        Some(w) => h < k < ls.len() && mode_line(ls[k]) && first_word(ls[k]) == Some(w) && forall|m: int|
            h < m < k ==> !mode_line(#[trigger] ls[m]),
        None => forall|m: int| h < m < ls.len() ==> !mode_line(#[trigger] ls[m]),
    }
}

/// `p` comes from a section of `ls` (see `section_gives`).
pub open spec fn from_section(ls: Seq<Seq<char>>, p: (Seq<char>, Seq<char>)) -> bool {
    exists|h: int, k: int, e: int| #[trigger] section_gives(ls, h, k, e, p)
}

/// `p` comes from a section of `ls` that a later header closes.
pub open spec fn from_closed_section(ls: Seq<Seq<char>>, p: (Seq<char>, Seq<char>)) -> bool {
    exists|h: int, k: int, e: int| e < ls.len() && #[trigger] section_gives(ls, h, k, e, p)
}

pub open spec fn scan_in_sections(st: RandrScan, ls: Seq<Seq<char>>) -> bool {
    &&& forall|i: int| 0 <= i < st.3.len() ==> from_closed_section(ls, #[trigger] st.3[i])
    &&& st.0 matches Some(n) ==> exists|h: int, k: int| #[trigger] open_section(ls, h, k, n, st.1)
}

proof fn lemma_section_extends(ls: Seq<Seq<char>>, l: Seq<char>, p: (Seq<char>, Seq<char>))
    requires
        from_closed_section(ls, p),
    ensures
        from_closed_section(ls.push(l), p),
{
    let (h, k, e) = choose|h: int, k: int, e: int| e < ls.len() && #[trigger] section_gives(ls, h, k, e, p);
    let ls2 = ls.push(l);
    assert forall|m: int| h < m < e implies !is_header(#[trigger] ls2[m]) by {
        assert(ls2[m] == ls[m]);
    }
    assert forall|m: int| h < m < k implies !mode_line(#[trigger] ls2[m]) by {
        assert(ls2[m] == ls[m]);
    }
    assert(ls2[h] == ls[h] && ls2[k] == ls[k] && ls2[e] == ls[e]);
    assert(section_gives(ls2, h, k, e, p));
}

proof fn lemma_flush_in_sections(st: RandrScan, ls: Seq<Seq<char>>)
    requires
        scan_in_sections(st, ls),
    ensures
        forall|i: int| 0 <= i < flushed(st).len() ==> from_section(ls, #[trigger] flushed(st)[i]),
{
    let f = flushed(st);
    assert forall|i: int| 0 <= i < st.3.len() implies from_section(ls, #[trigger] st.3[i]) by {
        assert(from_closed_section(ls, st.3[i]));
        let (h, k, e) = choose|h: int, k: int, e: int| e < ls.len() && #[trigger] section_gives(ls, h, k, e, st.3[i]);
        assert(section_gives(ls, h, k, e, st.3[i]));
    }
    match (st.0, st.1, st.2) {
        (Some(n), Some(w), Some(q)) => {
            let g = w + "+"@ + commas_to_plus(q);
            assert(f == st.3.push((n, g)));
            let (h, k) = choose|h: int, k: int| #[trigger] open_section(ls, h, k, n, st.1);
            assert(g.subrange(0, (w + "+"@).len() as int) == w + "+"@);
            assert(section_gives(ls, h, k, ls.len() as int, (n, g)));
            assert forall|i: int| 0 <= i < f.len() implies from_section(ls, #[trigger] f[i]) by {
                if i < st.3.len() {
                    assert(f[i] == st.3[i]);
                } else {
                    assert(f[i] == (n, g));
                }
            }
        },
        _ => {
            assert(f == st.3);
        },
    }
}

proof fn lemma_scan_in_sections(ls: Seq<Seq<char>>)
    ensures
        scan_in_sections(randr_scan(ls), ls),
    decreases ls.len(),
{
    if ls.len() > 0 {
        let pre = ls.drop_last();
        let line = ls.last();
        let last = pre.len() as int;
        assert(pre.push(line) == ls);
        lemma_scan_in_sections(pre);
        let st = randr_scan(pre);
        let t = randr_step(st, line);
        assert(randr_scan(ls) == t);
        assert(ls[last] == line);
        if is_header(line) {
            // the section being read closes at this header
            lemma_flush_in_sections(st, pre);
            let f = flushed(st);
            assert(t.3 == f);
            assert forall|i: int| 0 <= i < f.len() implies from_closed_section(ls, #[trigger] f[i]) by {
                assert(from_section(pre, f[i]));
                let (h, k, e) = choose|h: int, k: int, e: int| #[trigger] section_gives(pre, h, k, e, f[i]);
                assert forall|m: int| h < m < e implies !is_header(#[trigger] ls[m]) by {
                    assert(ls[m] == pre[m]);
                }
                assert forall|m: int| h < m < k implies !mode_line(#[trigger] ls[m]) by {
                    assert(ls[m] == pre[m]);
                }
                assert(ls[h] == pre[h] && ls[k] == pre[k]);
                if e < pre.len() {
                    assert(ls[e] == pre[e]);
                }
                assert(section_gives(ls, h, k, e, f[i]));
            }
            if let Some(n) = first_word(line) {
                assert(open_section(ls, last, -1, n, None));
            }
        } else {
            assert(t.3 == st.3 && t.0 == st.0);
            assert forall|i: int| 0 <= i < st.3.len() implies from_closed_section(ls, #[trigger] st.3[i]) by {
                lemma_section_extends(pre, line, st.3[i]);
            }
            if let Some(n) = st.0 {
                let (h, k) = choose|h: int, k: int| #[trigger] open_section(pre, h, k, n, st.1);
                assert forall|m: int| h < m < ls.len() implies !is_header(#[trigger] ls[m]) by {
                    if m < last {
                        assert(ls[m] == pre[m]);
                    }
                }
                assert(ls[h] == pre[h]);
                match st.1 {
                    Some(w) => {
                        assert(ls[k] == pre[k]);
                        assert forall|m: int| h < m < k implies !mode_line(#[trigger] ls[m]) by {
                            assert(ls[m] == pre[m]);
                        }
                        assert(open_section(ls, h, k, n, t.1));
                    },
                    None => {
                        if mode_line(line) {
                            assert forall|m: int| h < m < last implies !mode_line(#[trigger] ls[m]) by {
                                assert(ls[m] == pre[m]);
                            }
                            assert(open_section(ls, h, last, n, t.1));
                        } else {
                            assert forall|m: int| h < m < ls.len() implies !mode_line(#[trigger] ls[m]) by {
                                if m < last {
                                    assert(ls[m] == pre[m]);
                                }
                            }
                            assert(open_section(ls, h, k, n, t.1));
                        }
                    },
                }
            }
        }
    }
}

/// Each `(name, geometry)` read from a wlr-randr report comes from one
/// output's section: the name is its header's first word, and the geometry
/// begins with the size of the section's first mode line marked `current`,
/// then `+`. A mode that is merely listed or preferred, or a later current
/// mode, never gives the size.
pub proof fn law_randr_size_is_first_current_mode(text: Seq<char>)
    ensures
        forall|i: int|
            0 <= i < randr_geometries(text).len() ==> from_section(lines(text), #[trigger] randr_geometries(text)[i]),
{
    lemma_scan_in_sections(lines(text));
    lemma_flush_in_sections(randr_scan(lines(text)), lines(text));
}

/// The geometry of output `name`: that of its last pair.
pub open spec fn geometry_for(entries: Seq<(Seq<char>, Seq<char>)>, name: Seq<char>) -> Option<
    Seq<char>,
>
    decreases entries.len(),
{
    if entries.len() == 0 {
        None
    } else if entries.last().0 == name {
        Some(entries.last().1)
    } else {
        geometry_for(entries.drop_last(), name)
    }
}

pub open spec fn opt_vec_view(o: Option<Vec<char>>) -> Option<Seq<char>> {
    match o {
        Some(v) => Some(v@),
        None => None,
    }
}

fn first_word_of(v: &Vec<char>) -> (r: Option<Vec<char>>)
    ensures
        opt_vec_view(r) == first_word(v@),
{
    let n = v.len();
    assert(v@.subrange(0, n as int) == v@);
    let ws = split_words(v, 0, n);
    if ws.len() > 0 {
        assert(views(ws@)[0] == ws@[0]@);
        Some(ws[0].clone())
    } else {
        None
    }
}

fn flush(
    name: Option<Vec<char>>,
    res: Option<Vec<char>>,
    pos: Option<Vec<char>>,
    map: &mut Vec<(String, String)>,
)
    ensures
        pair_views(final(map)@) == flushed(
            (opt_vec_view(name), opt_vec_view(res), opt_vec_view(pos), pair_views(old(map)@)),
        ),
{
    match (name, res, pos) {
        (Some(n), Some(r), Some(p)) => {
            let mut g = String::new();
            push_all(&mut g, &r);
            push_char(&mut g, '+');
            let ghost base = g@;
            let mut i: usize = 0;
            while i < p.len()
                invariant
                    i <= p.len(),
                    g@ == base + commas_to_plus(p@).take(i as int),
                decreases p.len() - i,
            {
                let c = if p[i] == ',' {
                    '+'
                } else {
                    p[i]
                };
                push_char(&mut g, c);
                assert(commas_to_plus(p@).take(i + 1) == commas_to_plus(p@).take(i as int).push(c));
                i += 1;
            }
            assert(commas_to_plus(p@).take(p.len() as int) == commas_to_plus(p@));
            let name_s = string_from(&n, 0, n.len());
            assert(n@.subrange(0, n.len() as int) == n@);
            proof {
                reveal_strlit("+");
                assert("+"@ == seq!['+']);
                assert(g@ == r@ + "+"@ + commas_to_plus(p@));
            }
            let ghost old_map = map@;
            map.push((name_s, g));
            assert(pair_views(map@) == pair_views(old_map).push((n@, r@ + "+"@ + commas_to_plus(p@))));
        },
        _ => {},
    }
}

/// Parses a `wlr-randr` report into `(output name, "WxH+X+Y")` pairs.
pub fn parse_wlr_randr(text: &str) -> (r: Vec<(String, String)>)
    ensures
        pair_views(r@) == randr_geometries(text@),
{
    let ls = split_lines(text);
    let current = chars_of("current");
    let position = chars_of("Position: ");
    proof {
        reveal_strlit("Position: ");
    }
    let mut name: Option<Vec<char>> = None;
    let mut res: Option<Vec<char>> = None;
    let mut pos: Option<Vec<char>> = None;
    let mut map: Vec<(String, String)> = Vec::new();
    let mut i: usize = 0;
    assert(views(ls@).take(0) == Seq::<Seq<char>>::empty());
    assert(pair_views(map@) == Seq::<(Seq<char>, Seq<char>)>::empty());
    while i < ls.len()
        invariant
            i <= ls.len(),
            views(ls@) == lines(text@),
            current@ == "current"@,
            position@ == "Position: "@,
            position@.len() == 10,
            (opt_vec_view(name), opt_vec_view(res), opt_vec_view(pos), pair_views(map@))
                == randr_scan(views(ls@).take(i as int)),
        decreases ls.len() - i,
    {
        let ghost pre = views(ls@).take(i as int);
        assert(views(ls@).take(i + 1).drop_last() == pre);
        assert(views(ls@).take(i + 1).last() == ls@[i as int]@);
        let line = &ls[i];
        let n = line.len();
        assert(line@.subrange(0, n as int) == line@);
        if n > 0 && line[0] != ' ' {
            flush(name, res, pos, &mut map);
            name = first_word_of(line);
            res = None;
            pos = None;
        } else if find_in(line, 0, n, &current).is_some() && res.is_none() {
            match first_word_of(line) {
                Some(r) => {
                    res = Some(r);
                },
                None => {},
            }
        } else {
            let (a, b) = trim_bounds(line, 0, n);
            if has_prefix(line, a, b, &position) {
                assert(line@.subrange(a as int, b as int).skip(10) == line@.subrange(a + 10, b as int));
                let mut p: Vec<char> = Vec::new();
                let mut k: usize = a + 10;
                while k < b
                    invariant
                        a + 10 <= k <= b <= line.len(),
                        p@ == line@.subrange(a + 10, k as int),
                    decreases b - k,
                {
                    p.push(line[k]);
                    k += 1;
                }
                pos = Some(p);
            }
        }
        i += 1;
    }
    assert(views(ls@).take(ls.len() as int) == views(ls@));
    flush(name, res, pos, &mut map);
    map
}

/// The geometry that `entries` give output `name`.
pub fn lookup_geometry(entries: &Vec<(String, String)>, name: &Vec<char>) -> (r: Option<String>)
    ensures
        opt_view_string(r) == geometry_for(pair_views(entries@), name@),
{
    let mut k: usize = entries.len();
    assert(pair_views(entries@).take(k as int) == pair_views(entries@));
    while k > 0
        invariant
            k <= entries.len(),
            geometry_for(pair_views(entries@), name@) == geometry_for(
                pair_views(entries@).take(k as int),
                name@,
            ),
        decreases k,
    {
        let ghost pre = pair_views(entries@).take(k as int);
        assert(pre.drop_last() == pair_views(entries@).take(k - 1));
        assert(pre.last() == (entries@[k - 1].0@, entries@[k - 1].1@));
        let key = chars_of(entries[k - 1].0.as_str());
        let same = key.len() == name.len() && {
            let mut j: usize = 0;
            let mut eq = true;
            while j < key.len()
                invariant
                    key.len() == name.len(),
                    j <= key.len(),
                    eq == forall|m: int| 0 <= m < j ==> key@[m] == name@[m],
                decreases key.len() - j,
            {
                if key[j] != name[j] {
                    eq = false;
                }
                j += 1;
            }
            eq
        };
        assert(same == (key@ == name@)) by {
            if key@.len() == name@.len() && same {
                assert(key@ =~= name@);
            }
        }
        if same {
            return Some(entries[k - 1].1.clone());
        }
        k -= 1;
    }
    assert(pair_views(entries@).take(0) == Seq::<(Seq<char>, Seq<char>)>::empty());
    None
}

pub open spec fn opt_view_string(o: Option<String>) -> Option<Seq<char>> {
    match o {
        Some(s) => Some(s@),
        None => None,
    }
}

} // verus!

verus! {

// ---------------------------------------------------------------------------
// Outputs listed by `wf-recorder -L`
// ---------------------------------------------------------------------------

/// The output that a line of `wf-recorder -L` names: the word after
/// `Name: `, the shortened text after `Description: `, the geometry that
/// `entries` give that name, and no position label yet.
pub open spec fn listed_output(line: Seq<char>, entries: Seq<(Seq<char>, Seq<char>)>) -> Option<
    OutputView,
> {
    match find(line, "Name: "@) {
        Some(i) => {
            let name = before_first(line.skip(i + 6), ' ');
            let description = match find(line, "Description: "@) {
                Some(j) => short_description(line.skip(j + 13), name),
                None => seq![],
            };
            Some(
                OutputView {
                    name,
                    description,
                    geometry: geometry_for(entries, name),
                    position_label: None,
                },
            )
        },
        None => None,
    }
}

/// The outputs named by the lines `ls`, in order.
pub open spec fn listed_outputs(ls: Seq<Seq<char>>, entries: Seq<(Seq<char>, Seq<char>)>) -> Seq<
    OutputView,
>
    decreases ls.len(),
{
    if ls.len() == 0 {
        seq![]
    } else {
        match listed_output(ls.last(), entries) {
            Some(o) => listed_outputs(ls.drop_last(), entries).push(o),
            None => listed_outputs(ls.drop_last(), entries),
        }
    }
}

/// The outputs of a `wf-recorder -L` listing, with position labels.
pub open spec fn outputs_of_listing(listing: Seq<char>, entries: Seq<(Seq<char>, Seq<char>)>) -> Seq<
    OutputView,
> {
    labeled(listed_outputs(lines(listing), entries))
}

fn output_of_line(line: &Vec<char>, entries: &Vec<(String, String)>) -> (r: Option<OutputInfo>)
    ensures
        match r {
            Some(o) => listed_output(line@, pair_views(entries@)) == Some(o@),
            None => listed_output(line@, pair_views(entries@)) is None,
        },
{
    let n = line.len();
    assert(line@.subrange(0, n as int) == line@);
    let name_pat = chars_of("Name: ");
    let desc_pat = chars_of("Description: ");
    proof {
        reveal_strlit("Name: ");
        reveal_strlit("Description: ");
    }
    let i = match find_in(line, 0, n, &name_pat) {
        Some(i) => i,
        None => return None,
    };
    let start = i + 6;
    assert(line@.skip(start as int) == line@.subrange(start as int, n as int));
    let end = match find_char(line, start, n, ' ') {
        Some(k) => start + k,
        None => n,
    };
    assert(line@.subrange(start as int, end as int) == before_first(line@.skip(start as int), ' ')) by {
        let rest = line@.subrange(start as int, n as int);
        if end < n {
            assert(rest.take(end - start) == line@.subrange(start as int, end as int));
        }
    }
    let name_v = {
        let mut v: Vec<char> = Vec::new();
        let mut k: usize = start;
        while k < end
            invariant
                start <= k <= end <= n,
                n == line.len(),
                v@ == line@.subrange(start as int, k as int),
            decreases end - k,
        {
            v.push(line[k]);
            k += 1;
        }
        v
    };
    let name = string_from(&name_v, 0, name_v.len());
    assert(name_v@.subrange(0, name_v.len() as int) == name_v@);
    let description = match find_in(line, 0, n, &desc_pat) {
        Some(j) => {
            let d = string_from(line, j + 13, n);
            assert(line@.subrange(j + 13, n as int) == line@.skip(j + 13));
            shorten_description(d.as_str(), name.as_str())
        },
        None => String::new(),
    };
    let geometry = lookup_geometry(entries, &name_v);
    Some(OutputInfo { name, description, geometry, position_label: None })
}

/// The outputs of a `wf-recorder -L` listing, with the geometries of
/// `entries` (from `parse_wlr_randr`) and position labels.
pub fn outputs_from_listing(listing: &str, entries: &Vec<(String, String)>) -> (r: Vec<OutputInfo>)
    ensures
        output_views(r@) == outputs_of_listing(listing@, pair_views(entries@)),
{
    let ls = split_lines(listing);
    let mut outs: Vec<OutputInfo> = Vec::new();
    let mut i: usize = 0;
    assert(views(ls@).take(0) == Seq::<Seq<char>>::empty());
    assert(output_views(outs@) == Seq::<OutputView>::empty());
    while i < ls.len()
        invariant
            i <= ls.len(),
            views(ls@) == lines(listing@),
            output_views(outs@) == listed_outputs(views(ls@).take(i as int), pair_views(entries@)),
        decreases ls.len() - i,
    {
        let ghost pre = views(ls@).take(i as int);
        assert(views(ls@).take(i + 1).drop_last() == pre);
        assert(views(ls@).take(i + 1).last() == ls@[i as int]@);
        match output_of_line(&ls[i], entries) {
            Some(o) => {
                let ghost old_outs = outs@;
                outs.push(o);
                assert(output_views(outs@) == output_views(old_outs).push(o@));
            },
            None => {},
        }
        i += 1;
    }
    assert(views(ls@).take(ls.len() as int) == views(ls@));
    assign_position_labels(&mut outs);
    outs
}

} // verus!
