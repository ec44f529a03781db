use vstd::prelude::*;

use crate::recorder::{opt_view, output_views, OutputInfo, OutputView};
use crate::text::{
    chars_of, decimal, is_digit, is_first_occurrence, law_decimal_reads_back,
    lemma_find_is, occurs_at, parse_i32, parse_i32_in, split_at_char, split_once,
};

verus! {

/// A rectangle as `(x, y, width, height)`.
pub type Rect = (i32, i32, i32, i32);

/// The rectangle `x, y, w, h` parsed from `xs`, `ys`, `ws`, `hs`.
pub open spec fn rect_of(xs: Seq<char>, ys: Seq<char>, ws: Seq<char>, hs: Seq<char>) -> Option<Rect> {
    match (parse_i32(xs), parse_i32(ys), parse_i32(ws), parse_i32(hs)) {
        (Some(x), Some(y), Some(w), Some(h)) => Some((x, y, w, h)),
        _ => None,
    }
}

/// The rectangle that a wlr-randr geometry `"WxH+X+Y"` denotes: the text up to
/// the first `+` is the size, cut at its first `x`; the text between the first
/// and second `+` is X, all after the second `+` is Y.
pub open spec fn output_rect(g: Seq<char>) -> Option<Rect> {
    match split_once(g, '+') {
        Some((size, rest)) => match split_once(rest, '+') {
            Some((xs, ys)) => match split_once(size, 'x') {
                Some((ws, hs)) => rect_of(xs, ys, ws, hs),
                None => None,
            },
            None => None,
        },
        None => None,
    }
}

/// The rectangle that a slurp selection `"X,Y WxH"` denotes.
pub open spec fn selection_rect(g: Seq<char>) -> Option<Rect> {
    match split_once(g, ' ') {
        Some((pos, size)) => match split_once(pos, ',') {
            Some((xs, ys)) => match split_once(size, 'x') {
                Some((ws, hs)) => rect_of(xs, ys, ws, hs),
                None => None,
            },
            None => None,
        },
        None => None,
    }
}

fn rect_in(v: &Vec<char>, xa: usize, xb: usize, ya: usize, yb: usize, wa: usize, wb: usize, ha: usize, hb: usize) -> (r: Option<Rect>)
    requires
        xa <= xb <= v.len(),
        ya <= yb <= v.len(),
        wa <= wb <= v.len(),
        ha <= hb <= v.len(),
    ensures
        r == rect_of(
            v@.subrange(xa as int, xb as int),
            v@.subrange(ya as int, yb as int),
            v@.subrange(wa as int, wb as int),
            v@.subrange(ha as int, hb as int),
        ),
{
    let x = parse_i32_in(v, xa, xb);
    let y = parse_i32_in(v, ya, yb);
    let w = parse_i32_in(v, wa, wb);
    let h = parse_i32_in(v, ha, hb);
    match (x, y, w, h) {
        (Some(x), Some(y), Some(w), Some(h)) => Some((x, y, w, h)),
        _ => None,
    }
}

/// Parses a wlr-randr geometry string `"WxH+X+Y"` into `(x, y, w, h)`.
pub fn parse_wlr_geometry(geo: &str) -> (r: Option<Rect>)
    ensures
        r == output_rect(geo@),
{
    let v = chars_of(geo);
    let n = v.len();
    assert(v@.subrange(0, n as int) == v@);
    let p1 = match split_at_char(&v, 0, n, '+') {
        Some(k) => k,
        None => return None,
    };
    let p2 = match split_at_char(&v, p1 + 1, n, '+') {
        Some(k) => k,
        None => return None,
    };
    let px = match split_at_char(&v, 0, p1, 'x') {
        Some(k) => k,
        None => return None,
    };
    rect_in(&v, p1 + 1, p2, p2 + 1, n, 0, px, px + 1, p1)
}

/// Parses a slurp selection `"X,Y WxH"` into `(x, y, w, h)`.
pub fn parse_selection(geometry: &str) -> (r: Option<Rect>)
    ensures
        r == selection_rect(geometry@),
{
    let v = chars_of(geometry);
    let n = v.len();
    assert(v@.subrange(0, n as int) == v@);
    let sp = match split_at_char(&v, 0, n, ' ') {
        Some(k) => k,
        None => return None,
    };
    let comma = match split_at_char(&v, 0, sp, ',') {
        Some(k) => k,
        None => return None,
    };
    let px = match split_at_char(&v, sp + 1, n, 'x') {
        Some(k) => k,
        None => return None,
    };
    rect_in(&v, 0, comma, comma + 1, sp, sp + 1, px, px + 1, n)
}

/// Rectangles `r` and `o` share an inner point.
pub open spec fn overlaps(r: Rect, o: Rect) -> bool {
    &&& r.0 < o.0 + o.2
    &&& r.0 + r.2 > o.0
    &&& r.1 < o.1 + o.3
    &&& r.1 + r.3 > o.1
}

/// The output's geometry parses, and its rectangle overlaps `r`.
pub open spec fn overlaps_output(r: Rect, o: OutputView) -> bool {
    match o.geometry {
        Some(g) => match output_rect(g) {
            Some(og) => overlaps(r, og),
            None => false,
        },
        None => false,
    }
}

/// How many of `outs` overlap `r`.
pub open spec fn overlap_count(r: Rect, outs: Seq<OutputView>) -> nat
    decreases outs.len(),
{
    if outs.len() == 0 {
        0
    } else {
        overlap_count(r, outs.drop_last()) + if overlaps_output(r, outs.last()) {
            1nat
        } else {
            0nat
        }
    }
}

/// No output carries geometry.
pub open spec fn no_geometry_known(outs: Seq<OutputView>) -> bool {
    forall|i: int| 0 <= i < outs.len() ==> (#[trigger] outs[i]).geometry is None
}

/// The message shown when a selection spans several displays.
pub open spec fn multi_display_message() -> Seq<char> {
    "Selected region spans multiple displays.\nPlease select within a single display."@
}

/// The verdict on a selection: an error message when it is known to overlap
/// more than one display, nothing when it does not, when it does not parse,
/// or when no display geometry is known.
pub open spec fn selection_verdict(g: Seq<char>, outs: Seq<OutputView>) -> Option<Seq<char>> {
    if no_geometry_known(outs) {
        None
    } else {
        match selection_rect(g) {
            Some(r) => if overlap_count(r, outs) > 1 {
                Some(multi_display_message())
            } else {
                None
            },
            None => None,
        }
    }
}

pub open spec fn fits_i32(n: int) -> bool {
    i32::MIN <= n <= i32::MAX
}

/// The `i32` sums of the overlap test of `r` against `o` do not overflow, in
/// the order that the test evaluates them, stopping where it stops.
pub open spec fn overlap_sums_fit(r: Rect, o: Rect) -> bool {
    &&& fits_i32(o.0 + o.2)
    &&& r.0 < o.0 + o.2 ==> {
        &&& fits_i32(r.0 + r.2)
        &&& r.0 + r.2 > o.0 ==> {
            &&& fits_i32(o.1 + o.3)
            &&& r.1 < o.1 + o.3 ==> fits_i32(r.1 + r.3)
        }
    }
}

pub open spec fn output_sums_fit(r: Rect, o: OutputView) -> bool {
    match o.geometry {
        Some(g) => match output_rect(g) {
            Some(og) => overlap_sums_fit(r, og),
            None => true,
        },
        None => true,
    }
}

/// Validating `g` against `outs` adds no two `i32` values whose sum
/// overflows (it would panic).
pub open spec fn selection_sums_fit(g: Seq<char>, outs: Seq<OutputView>) -> bool {
    no_geometry_known(outs) || match selection_rect(g) {
        Some(r) => forall|i: int| 0 <= i < outs.len() ==> output_sums_fit(r, #[trigger] outs[i]),
        None => true,
    }
}

fn any_geometry(outputs: &[OutputInfo]) -> (b: bool)
    ensures
        b == !no_geometry_known(output_views(outputs@)),
{
    let mut i: usize = 0;
    while i < outputs.len()
        invariant
            i <= outputs.len(),
            forall|j: int| 0 <= j < i ==> (#[trigger] outputs@[j]).geometry is None,
        decreases outputs.len() - i,
    {
        if outputs[i].geometry.is_some() {
            assert(output_views(outputs@)[i as int].geometry is Some);
            return true;
        }
        i += 1;
    }
    assert forall|j: int| 0 <= j < output_views(outputs@).len() implies (#[trigger] output_views(
        outputs@,
    )[j]).geometry is None by {
        assert(outputs@[j].geometry is None);
    }
    false
}

fn output_overlaps(r: Rect, o: &OutputInfo) -> (b: bool)
    ensures
        b == overlaps_output(r, o@),
{
    match &o.geometry {
        Some(g) => match parse_wlr_geometry(g.as_str()) {
            Some(og) => {
                let (rx, ry, rw, rh) = (r.0 as i64, r.1 as i64, r.2 as i64, r.3 as i64);
                let (ox, oy, ow, oh) = (og.0 as i64, og.1 as i64, og.2 as i64, og.3 as i64);
                rx < ox + ow && rx + rw > ox && ry < oy + oh && ry + rh > oy
            },
            None => false,
        },
        None => false,
    }
}

fn output_sums_fit_exec(r: Rect, o: &OutputInfo) -> (b: bool)
    ensures
        b == output_sums_fit(r, o@),
{
    match &o.geometry {
        Some(g) => match parse_wlr_geometry(g.as_str()) {
            Some(og) => {
                let (rx, ry, rw, rh) = (r.0 as i64, r.1 as i64, r.2 as i64, r.3 as i64);
                let (ox, oy, ow, oh) = (og.0 as i64, og.1 as i64, og.2 as i64, og.3 as i64);
                let lo = -0x8000_0000i64;
                let hi = 0x7fff_ffffi64;
                let fits = |n: i64| -> (b: bool)
                    ensures
                        b == (lo <= n <= hi),
                    { lo <= n && n <= hi };
                fits(ox + ow) && (!(rx < ox + ow) || (fits(rx + rw) && (!(rx + rw > ox) || (fits(
                    oy + oh,
                ) && (!(ry < oy + oh) || fits(ry + rh))))))
            },
            None => true,
        },
        None => true,
    }
}

/// Whether validating `geometry` against `outputs` stays within `i32`
/// arithmetic; `validate_geometry` may be called exactly when it does.
pub fn selection_sums_in_range(geometry: &str, outputs: &[OutputInfo]) -> (b: bool)
    ensures
        b == selection_sums_fit(geometry@, output_views(outputs@)),
{
    if !any_geometry(outputs) {
        return true;
    }
    let r = match parse_selection(geometry) {
        Some(r) => r,
        None => return true,
    };
    let mut i: usize = 0;
    while i < outputs.len()
        invariant
            i <= outputs.len(),
            selection_rect(geometry@) == Some(r),
            !no_geometry_known(output_views(outputs@)),
            forall|j: int| 0 <= j < i ==> output_sums_fit(r, #[trigger] outputs@[j]@),
        decreases outputs.len() - i,
    {
        if !output_sums_fit_exec(r, &outputs[i]) {
            assert(output_views(outputs@)[i as int] == outputs@[i as int]@);
            return false;
        }
        i += 1;
    }
    assert forall|j: int| 0 <= j < outputs.len() implies output_sums_fit(
        r,
        #[trigger] output_views(outputs@)[j],
    ) by {
        assert(output_views(outputs@)[j] == outputs@[j]@);
    }
    true
}

/// Validates a slurp geometry (`"X,Y WxH"`) against known outputs.
/// Returns `Some(error_message)` if the region spans multiple displays, `None` if valid.
/// If output geometry info is unavailable, passes through without error.
pub fn validate_geometry(geometry: &str, outputs: &[OutputInfo]) -> (r: Option<String>)
    requires
        selection_sums_fit(geometry@, output_views(outputs@)),
    ensures
        opt_view(r) == selection_verdict(geometry@, output_views(outputs@)),
{
    if !any_geometry(outputs) {
        return None;
    }
    let r = match parse_selection(geometry) {
        Some(r) => r,
        None => return None,
    };
    let mut count: usize = 0;
    let mut i: usize = 0;
    while i < outputs.len()
        invariant
            i <= outputs.len(),
            count == overlap_count(r, output_views(outputs@).take(i as int)),
            count <= i,
        decreases outputs.len() - i,
    {
        assert(output_views(outputs@).take(i + 1).drop_last() == output_views(outputs@).take(
            i as int,
        ));
        if output_overlaps(r, &outputs[i]) {
            count += 1;
        }
        i += 1;
    }
    assert(output_views(outputs@).take(outputs.len() as int) == output_views(outputs@));
    if count > 1 {
        Some(String::from_str("Selected region spans multiple displays.\nPlease select within a single display."))
    } else {
        None
    }
}

/// When no output carries geometry, every selection passes (there is
/// nothing to check it against).
pub proof fn law_unknown_geometry_passes(g: Seq<char>, outs: Seq<OutputView>)
    requires
        no_geometry_known(outs),
    ensures
        selection_verdict(g, outs) is None,
        selection_sums_fit(g, outs),
{
}

/// A selection inside a single display passes: if at most one output
/// overlaps it, it is not refused.
pub proof fn law_single_display_selection_passes(g: Seq<char>, outs: Seq<OutputView>, r: Rect)
    requires
        selection_rect(g) == Some(r),
        overlap_count(r, outs) <= 1,
    ensures
        selection_verdict(g, outs) is None,
{
}

/// Adding outputs never clears a refusal: a selection refused against
/// `outs` is refused, with the same message, against `outs` and more.
pub proof fn law_refused_selection_stays_refused(g: Seq<char>, outs: Seq<OutputView>, more: Seq<OutputView>)
    requires
        selection_verdict(g, outs) is Some,
    ensures
        selection_verdict(g, outs + more) == selection_verdict(g, outs),
{
    assert(!no_geometry_known(outs + more)) by {
        let i = choose|i: int| 0 <= i < outs.len() && !((#[trigger] outs[i]).geometry is None);
        assert((outs + more)[i] == outs[i]);
    }
    let r = selection_rect(g)->0;
    lemma_overlap_count_grows(r, outs, more);
}

proof fn lemma_overlap_count_grows(r: Rect, outs: Seq<OutputView>, more: Seq<OutputView>)
    ensures
        overlap_count(r, outs + more) >= overlap_count(r, outs),
    decreases more.len(),
{
    if more.len() == 0 {
        assert(outs + more == outs);
    } else {
        assert((outs + more).drop_last() == outs + more.drop_last());
        lemma_overlap_count_grows(r, outs, more.drop_last());
    }
}

/// An integer as `{}` writes it: a `-` for a negative one, then its digits.
pub open spec fn int_text(n: int) -> Seq<char> {
    if n < 0 {
        "-"@ + decimal((-n) as nat)
    } else {
        decimal(n as nat)
    }
}

/// The wlr-randr geometry `"{w}x{h}+{x}+{y}"`.
pub open spec fn geometry_text(x: i32, y: i32, w: i32, h: i32) -> Seq<char> {
    int_text(w as int) + "x"@ + int_text(h as int) + "+"@ + int_text(x as int) + "+"@ + int_text(y as int)
}

/// The slurp selection `"{x},{y} {w}x{h}"`.
pub open spec fn selection_text(x: i32, y: i32, w: i32, h: i32) -> Seq<char> {
    int_text(x as int) + ","@ + int_text(y as int) + " "@ + int_text(w as int) + "x"@ + int_text(h as int)
}

/// An integer's text parses back to it and holds only digits and `-`.
proof fn lemma_int_text(n: i32)
    ensures
        parse_i32(int_text(n as int)) == Some(n),
        forall|i: int| 0 <= i < int_text(n as int).len() ==> is_digit(#[trigger] int_text(n as int)[i])
            || int_text(n as int)[i] == '-',
{
    reveal_strlit("-");
    if n < 0 {
        let d = decimal((-n) as nat);
        law_decimal_reads_back((-n) as nat);
        let t = int_text(n as int);
        assert(t == seq!['-'] + d);
        assert(t.drop_first() == d);
        assert forall|i: int| 0 <= i < t.len() implies is_digit(#[trigger] t[i]) || t[i] == '-' by {
            if i > 0 {
                assert(t[i] == d[i - 1]);
            }
        }
    } else {
        law_decimal_reads_back(n as nat);
    }
}

/// `a`, then `c`, then `b`, with no `c` in `a`, splits at that `c`.
proof fn lemma_split_at(a: Seq<char>, c: char, b: Seq<char>)
    requires
        forall|i: int| 0 <= i < a.len() ==> a[i] != c,
    ensures
        split_once(a + seq![c] + b, c) == Some((a, b)),
{
    let s = a + seq![c] + b;
    let k = a.len() as int;
    assert(s.subrange(k, k + 1) == seq![c]);
    assert forall|j: int| 0 <= j < k implies !occurs_at(s, seq![c], j) by {
        assert(s.subrange(j, j + 1)[0] == a[j]);
    }
    assert(is_first_occurrence(s, seq![c], k));
    lemma_find_is(s, seq![c], k);
    assert(s.take(k) == a);
    assert(s.skip(k + 1) == b);
}

/// The geometry parser reads back what `"{w}x{h}+{x}+{y}"` writes, for all
/// values, negative ones included.
pub proof fn law_geometry_reads_back(x: i32, y: i32, w: i32, h: i32)
    ensures
        output_rect(geometry_text(x, y, w, h)) == Some((x, y, w, h)),
{
    reveal_strlit("x");
    reveal_strlit("+");
    lemma_int_text(x);
    lemma_int_text(y);
    lemma_int_text(w);
    lemma_int_text(h);
    let (ws, hs, xs, ys) = (int_text(w as int), int_text(h as int), int_text(x as int), int_text(y as int));
    let size = ws + seq!['x'] + hs;
    let rest = xs + seq!['+'] + ys;
    assert(geometry_text(x, y, w, h) == size + seq!['+'] + rest);
    assert forall|i: int| 0 <= i < size.len() implies size[i] != '+' by {
        if i < ws.len() {
            assert(size[i] == ws[i]);
        } else if i > ws.len() {
            assert(size[i] == hs[i - ws.len() - 1]);
        }
    }
    lemma_split_at(size, '+', rest);
    assert forall|i: int| 0 <= i < xs.len() implies xs[i] != '+' by {}
    lemma_split_at(xs, '+', ys);
    assert forall|i: int| 0 <= i < ws.len() implies ws[i] != 'x' by {}
    lemma_split_at(ws, 'x', hs);
}

/// The selection parser reads back what `"{x},{y} {w}x{h}"` writes, for all
/// values, negative ones included.
pub proof fn law_selection_reads_back(x: i32, y: i32, w: i32, h: i32)
    ensures
        selection_rect(selection_text(x, y, w, h)) == Some((x, y, w, h)),
{
    reveal_strlit("x");
    reveal_strlit(",");
    reveal_strlit(" ");
    lemma_int_text(x);
    lemma_int_text(y);
    lemma_int_text(w);
    lemma_int_text(h);
    let (ws, hs, xs, ys) = (int_text(w as int), int_text(h as int), int_text(x as int), int_text(y as int));
    let pos = xs + seq![','] + ys;
    let size = ws + seq!['x'] + hs;
    assert(selection_text(x, y, w, h) == pos + seq![' '] + size);
    assert forall|i: int| 0 <= i < pos.len() implies pos[i] != ' ' by {
        if i < xs.len() {
            assert(pos[i] == xs[i]);
        } else if i > xs.len() {
            assert(pos[i] == ys[i - xs.len() - 1]);
        }
    }
    lemma_split_at(pos, ' ', size);
    assert forall|i: int| 0 <= i < xs.len() implies xs[i] != ',' by {}
    lemma_split_at(xs, ',', ys);
    assert forall|i: int| 0 <= i < ws.len() implies ws[i] != 'x' by {}
    lemma_split_at(ws, 'x', hs);
}

/// Point `p` lies in rectangle `r` (its left and top edges included, its
/// right and bottom edges not).
pub open spec fn inside(p: (int, int), r: Rect) -> bool {
    r.0 <= p.0 < r.0 + r.2 && r.1 <= p.1 < r.1 + r.3
}

/// Rectangles with positive sizes overlap exactly when some point lies in
/// both.
pub proof fn law_overlap_is_a_shared_point(r: Rect, o: Rect)
    requires
        r.2 > 0,
        r.3 > 0,
        o.2 > 0,
        o.3 > 0,
    ensures
        overlaps(r, o) <==> exists|p: (int, int)| inside(p, r) && #[trigger] inside(p, o),
{
    if overlaps(r, o) {
        let px = if r.0 < o.0 { o.0 as int } else { r.0 as int };
        let py = if r.1 < o.1 { o.1 as int } else { r.1 as int };
        assert(inside((px, py), r) && inside((px, py), o));
    }
}

/// Whatever the sizes, a rectangle overlaps another only if their x ranges
/// and their y ranges both meet: sharing columns is not enough.
pub proof fn law_overlap_needs_both_axes(r: Rect, o: Rect)
    ensures
        overlaps(r, o) ==> r.0 < o.0 + o.2 && o.0 < r.0 + r.2,
        overlaps(r, o) ==> r.1 < o.1 + o.3 && o.1 < r.1 + r.3,
{
}

/// Output `o` has a geometry, and its rectangle meets `r` in both x and y.
pub open spec fn meets_display(r: Rect, o: OutputView) -> bool {
    match o.geometry {
        Some(g) => match output_rect(g) {
            Some(d) => r.0 < d.0 + d.2 && d.0 < r.0 + r.2 && r.1 < d.1 + d.3 && d.1 < r.1 + r.3,
            None => false,
        },
        None => false,
    }
}

proof fn lemma_count_one(r: Rect, outs: Seq<OutputView>, i: int)
    requires
        0 <= i < outs.len(),
        meets_display(r, outs[i]),
    ensures
        overlap_count(r, outs) >= 1,
    decreases outs.len(),
{
    if i < outs.len() - 1 {
        assert(outs.drop_last()[i] == outs[i]);
        lemma_count_one(r, outs.drop_last(), i);
    }
}

proof fn lemma_count_two(r: Rect, outs: Seq<OutputView>, i: int, j: int)
    requires
        0 <= i < j < outs.len(),
        meets_display(r, outs[i]),
        meets_display(r, outs[j]),
    ensures
        overlap_count(r, outs) >= 2,
    decreases outs.len(),
{
    assert(outs.drop_last()[i] == outs[i]);
    if j == outs.len() - 1 {
        lemma_count_one(r, outs.drop_last(), i);
    } else {
        assert(outs.drop_last()[j] == outs[j]);
        lemma_count_two(r, outs.drop_last(), i, j);
    }
}

proof fn lemma_two_from_count(r: Rect, outs: Seq<OutputView>) -> (ij: (int, int))
    requires
        overlap_count(r, outs) >= 2,
    ensures
        0 <= ij.0 < ij.1 < outs.len(),
        meets_display(r, outs[ij.0]),
        meets_display(r, outs[ij.1]),
    decreases outs.len(),
{
    let last = outs.len() - 1;
    let pre = outs.drop_last();
    if overlaps_output(r, outs[last]) {
        let i = lemma_one_from_count(r, pre);
        assert(outs[i] == pre[i]);
        (i, last)
    } else {
        let (i, j) = lemma_two_from_count(r, pre);
        assert(outs[i] == pre[i]);
        assert(outs[j] == pre[j]);
        (i, j)
    }
}

proof fn lemma_one_from_count(r: Rect, outs: Seq<OutputView>) -> (i: int)
    requires
        overlap_count(r, outs) >= 1,
    ensures
        0 <= i < outs.len(),
        meets_display(r, outs[i]),
    decreases outs.len(),
{
    let last = outs.len() - 1;
    let pre = outs.drop_last();
    if overlaps_output(r, outs[last]) {
        last
    } else {
        let i = lemma_one_from_count(r, pre);
        assert(outs[i] == pre[i]);
        i
    }
}

/// A selection is refused exactly when it parses and two different displays
/// with known geometry each meet it in both x and y; the refusal carries the
/// message that asks for a single display. A selection lying inside one of
/// two stacked displays is accepted.
pub proof fn law_refused_iff_two_displays_met(g: Seq<char>, outs: Seq<OutputView>)
    ensures
        selection_verdict(g, outs) is Some <==> (selection_rect(g) matches Some(r) && exists|i: int, j: int|
            0 <= i < j < outs.len() && meets_display(r, #[trigger] outs[i]) && meets_display(r, #[trigger] outs[j])),
        selection_verdict(g, outs) is Some ==> selection_verdict(g, outs) == Some(multi_display_message()),
{
    match selection_rect(g) {
        Some(r) => {
            if exists|i: int, j: int|
                0 <= i < j < outs.len() && meets_display(r, #[trigger] outs[i]) && meets_display(r, #[trigger] outs[j]) {
                let (i, j) = choose|i: int, j: int|
                    0 <= i < j < outs.len() && meets_display(r, #[trigger] outs[i]) && meets_display(r, #[trigger] outs[j]);
                lemma_count_two(r, outs, i, j);
                assert(outs[i].geometry is Some);
                assert(!no_geometry_known(outs));
            }
            if selection_verdict(g, outs) is Some {
                let (i, j) = lemma_two_from_count(r, outs);
                assert(meets_display(r, outs[i]) && meets_display(r, outs[j]));
            }
        },
        None => {},
    }
}

} // verus!
