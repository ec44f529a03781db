use vstd::prelude::*;

use crate::recorder::{output_views, OutputInfo, OutputView};
use crate::text::{
    before_first, chars_of, decimal, decimal_chars, is_digit, lemma_decimal_injective, law_decimal_reads_back,
    parse_i32, parse_i32_in, push_all,
    split_at_char, split_once,
};

verus! {

// ---------------------------------------------------------------------------
// Where an output sits
// ---------------------------------------------------------------------------

/// The `(x, y)` offset of a wlr-randr geometry `"WxH+X+Y"`: the second and
/// third of its `+`-separated fields.
pub open spec fn offset_of(g: Seq<char>) -> Option<(i32, i32)> {
    match split_once(g, '+') {
        Some((_, rest)) => match split_once(rest, '+') {
            Some((xs, rest2)) => match (parse_i32(xs), parse_i32(before_first(rest2, '+'))) {
                (Some(x), Some(y)) => Some((x, y)),
                _ => None,
            },
            None => None,
        },
        None => None,
    }
}

pub open spec fn position_of(o: OutputView) -> Option<(i32, i32)> {
    match o.geometry {
        Some(g) => offset_of(g),
        None => None,
    }
}

/// The x offsets of the outputs whose position is known, in order.
pub open spec fn xs_of(outs: Seq<OutputView>) -> Seq<i32>
    decreases outs.len(),
{
    if outs.len() == 0 {
        seq![]
    } else {
        match position_of(outs.last()) {
            Some((x, _)) => xs_of(outs.drop_last()).push(x),
            None => xs_of(outs.drop_last()),
        }
    }
}

/// The y offsets of the outputs whose position is known, in order.
pub open spec fn ys_of(outs: Seq<OutputView>) -> Seq<i32>
    decreases outs.len(),
{
    if outs.len() == 0 {
        seq![]
    } else {
        match position_of(outs.last()) {
            Some((_, y)) => ys_of(outs.drop_last()).push(y),
            None => ys_of(outs.drop_last()),
        }
    }
}

/// How many of `vals` are below `v`: the column (or row) of `v`.
pub open spec fn rank(vals: Set<i32>, v: i32) -> nat {
    vals.filter(|w: i32| w < v).len()
}

/// Parses the `(x, y)` offset of a wlr-randr geometry.
pub fn parse_offset(geo: &str) -> (r: Option<(i32, i32)>)
    ensures
        r == offset_of(geo@),
{
    let v = chars_of(geo);
    let n = v.len();
    assert(v@.subrange(0, n as int) == v@);
    let p1 = match split_at_char(&v, 0, n, '+') {
        Some(k) => k,
        None => return None,
    };
    let p2 = match split_at_char(&v, p1 + 1, n, '+') {
        Some(k) => k,
        None => return None,
    };
    let y_end = match split_at_char(&v, p2 + 1, n, '+') {
        Some(k) => k,
        None => n,
    };
    let x = parse_i32_in(&v, p1 + 1, p2);
    let y = parse_i32_in(&v, p2 + 1, y_end);
    match (x, y) {
        (Some(x), Some(y)) => Some((x, y)),
        _ => None,
    }
}

// ---------------------------------------------------------------------------
// Labels along one axis
// ---------------------------------------------------------------------------

/// The label of item `i` of `n` along an axis.
pub open spec fn axis_label(n: nat, i: int, horizontal: bool) -> Seq<char> {
    let first = if horizontal {
        "Left"@
    } else {
        "Top"@
    };
    let last = if horizontal {
        "Right"@
    } else {
        "Bottom"@
    };
    if n <= 1 {
        seq![]
    } else if i == 0 {
        first
    } else if i == n - 1 {
        last
    } else if n == 3 {
        "Center"@
    } else if n == 4 {
        if i == 1 {
            if horizontal {
                "Center-Left"@
            } else {
                "Center-Top"@
            }
        } else if horizontal {
            "Center-Right"@
        } else {
            "Center-Bottom"@
        }
    } else {
        "Center "@ + decimal(i as nat)
    }
}

/// The labels of `n` items along an axis.
pub open spec fn axis_labels_of(n: nat, horizontal: bool) -> Seq<Seq<char>> {
    Seq::new(n, |i: int| axis_label(n, i, horizontal))
}

/// The views of a sequence of strings.
pub open spec fn string_views(v: Seq<String>) -> Seq<Seq<char>> {
    Seq::new(v.len(), |i: int| v[i]@)
}

/// Returns position labels for N items along one axis.
pub fn axis_labels(count: usize, horizontal: bool) -> (r: Vec<String>)
    ensures
        string_views(r@) == axis_labels_of(count as nat, horizontal),
{
    let first = if horizontal {
        "Left"
    } else {
        "Top"
    };
    let last = if horizontal {
        "Right"
    } else {
        "Bottom"
    };
    let mut r: Vec<String> = Vec::new();
    let mut i: usize = 0;
    while i < count
        invariant
            i <= count,
            first@ == (if horizontal {
                "Left"@
            } else {
                "Top"@
            }),
            last@ == (if horizontal {
                "Right"@
            } else {
                "Bottom"@
            }),
            string_views(r@) == axis_labels_of(count as nat, horizontal).take(i as int),
        decreases count - i,
    {
        let label = if count <= 1 {
            String::new()
        } else if i == 0 {
            String::from_str(first)
        } else if i == count - 1 {
            String::from_str(last)
        } else if count == 3 {
            String::from_str("Center")
        } else if count == 4 {
            if i == 1 {
                if horizontal {
                    String::from_str("Center-Left")
                } else {
                    String::from_str("Center-Top")
                }
            } else if horizontal {
                String::from_str("Center-Right")
            } else {
                String::from_str("Center-Bottom")
            }
        } else {
            let mut s = String::from_str("Center ");
            let digits = decimal_chars(i as u64);
            push_all(&mut s, &digits);
            s
        };
        let ghost old_r = r@;
        r.push(label);
        assert(string_views(r@) == string_views(old_r).push(label@));
        i += 1;
    }
    assert(axis_labels_of(count as nat, horizontal).take(count as int) == axis_labels_of(
        count as nat,
        horizontal,
    ));
    r
}

} // verus!

verus! {

// ---------------------------------------------------------------------------
// Sorted distinct offsets
// ---------------------------------------------------------------------------

pub open spec fn strictly_increasing(s: Seq<i32>) -> bool {
    forall|i: int, j: int| 0 <= i < j < s.len() ==> s[i] < s[j]
}

proof fn lemma_increasing_card(s: Seq<i32>)
    requires
        strictly_increasing(s),
    ensures
        s.to_set().len() == s.len(),
        s.to_set().finite(),
{
    assert(s.no_duplicates()) by {
        assert forall|i: int, j: int| 0 <= i < s.len() && 0 <= j < s.len() && i != j implies s[i]
            != s[j] by {
            if i < j {
                assert(s[i] < s[j]);
            } else {
                assert(s[j] < s[i]);
            }
        }
    }
    s.unique_seq_to_set();
    broadcast use vstd::seq_lib::seq_to_set_is_finite;
}

/// In a strictly increasing `s` holding `s[k]`, the values below `s[k]` are
/// exactly `s[..k]`: `s[k]` has rank `k`.
proof fn lemma_rank(s: Seq<i32>, k: int)
    requires
        strictly_increasing(s),
        0 <= k < s.len(),
    ensures
        rank(s.to_set(), s[k]) == k,
{
    let x = s[k];
    let below = s.to_set().filter(|w: i32| w < x);
    let pre = s.take(k);
    assert forall|e: i32| below.contains(e) <==> pre.to_set().contains(e) by {
        if below.contains(e) {
            assert(s.contains(e));
            let j = choose|j: int| 0 <= j < s.len() && s[j] == e;
            if j >= k {
                if j > k {
                    assert(s[k] < s[j]);
                }
            }
            assert(pre[j] == e);
            assert(pre.contains(e));
        }
        if pre.to_set().contains(e) {
            let j = choose|j: int| 0 <= j < pre.len() && pre[j] == e;
            assert(s[j] == e);
            assert(s.contains(e));
        }
    }
    assert(below == pre.to_set());
    assert(strictly_increasing(pre));
    lemma_increasing_card(pre);
}

/// Inserts `x` into the strictly increasing `v`, unless it is there already.
fn insert_sorted(v: &mut Vec<i32>, x: i32)
    requires
        strictly_increasing(old(v)@),
    ensures
        strictly_increasing(final(v)@),
        final(v)@.to_set() == old(v)@.to_set().insert(x),
{
    let mut k: usize = 0;
    while k < v.len() && v[k] < x
        invariant
            k <= v.len(),
            forall|j: int| 0 <= j < k ==> v@[j] < x,
        decreases v.len() - k,
    {
        k += 1;
    }
    if k < v.len() && v[k] == x {
        assert(v@.contains(x));
        assert(v@.to_set().insert(x) == v@.to_set());
        return;
    }
    let ghost old_v = v@;
    v.insert(k, x);
    assert(strictly_increasing(v@)) by {
        assert forall|i: int, j: int| 0 <= i < j < v@.len() implies v@[i] < v@[j] by {
            if j < k {
                assert(v@[i] == old_v[i] && v@[j] == old_v[j]);
            } else if j == k {
                assert(v@[i] == old_v[i]);
            } else if i < k {
                assert(v@[j] == old_v[j - 1]);
                assert(old_v[k as int] > x);
                if j - 1 > k {
                    assert(old_v[k as int] < old_v[j - 1]);
                }
            } else if i == k {
                assert(v@[j] == old_v[j - 1]);
                assert(old_v[k as int] > x);
                if j - 1 > k {
                    assert(old_v[k as int] < old_v[j - 1]);
                }
            } else {
                assert(v@[i] == old_v[i - 1] && v@[j] == old_v[j - 1]);
            }
        }
    }
    assert forall|e: i32| v@.to_set().contains(e) <==> old_v.to_set().insert(x).contains(e) by {
        if v@.contains(e) {
            let j = choose|j: int| 0 <= j < v@.len() && v@[j] == e;
            if j < k {
                assert(old_v[j] == e);
            } else if j > k {
                assert(old_v[j - 1] == e);
            }
        }
        if old_v.contains(e) {
            let j = choose|j: int| 0 <= j < old_v.len() && old_v[j] == e;
            if j < k {
                assert(v@[j] == e);
            } else {
                assert(v@[j + 1] == e);
            }
        }
        if e == x {
            assert(v@[k as int] == x);
        }
    }
    assert(v@.to_set() == old_v.to_set().insert(x));
}

/// The index of `x` in the strictly increasing `v`, which holds it.
fn index_of_value(v: &Vec<i32>, x: i32) -> (k: usize)
    requires
        strictly_increasing(v@),
        v@.contains(x),
    ensures
        k < v.len(),
        v@[k as int] == x,
        rank(v@.to_set(), x) == k,
{
    let mut k: usize = 0;
    while k < v.len() && v[k] < x
        invariant
            k <= v.len(),
            forall|j: int| 0 <= j < k ==> v@[j] < x,
        decreases v.len() - k,
    {
        k += 1;
    }
    proof {
        let j = choose|j: int| 0 <= j < v@.len() && v@[j] == x;
        if j < k {
            assert(v@[j] < x);
        }
        if k < v@.len() && j > k {
            assert(v@[k as int] < v@[j]);
        }
        lemma_rank(v@, k as int);
    }
    k
}

} // verus!

verus! {

// ---------------------------------------------------------------------------
// Position labels of a set of outputs
// ---------------------------------------------------------------------------

pub open spec fn with_label(o: OutputView, l: Seq<char>) -> OutputView {
    OutputView {
        name: o.name,
        description: o.description,
        geometry: o.geometry,
        position_label: Some(l),
    }
}

/// The label of the output at offset `(x, y)` among `outs`: its column label
/// when the outputs stand side by side, its row label when they are stacked,
/// `row-column` in a grid.
pub open spec fn position_label_of(outs: Seq<OutputView>, x: i32, y: i32) -> Seq<char> {
    let xs = xs_of(outs).to_set();
    let ys = ys_of(outs).to_set();
    let col = axis_label(xs.len(), rank(xs, x) as int, true);
    let row = axis_label(ys.len(), rank(ys, y) as int, false);
    if xs.len() > 1 && ys.len() > 1 {
        row + "-"@ + col
    } else if xs.len() > 1 {
        col
    } else {
        row
    }
}

/// `outs` with position labels assigned: when there are two outputs or more
/// and their known offsets differ in x or in y, each output with a known
/// offset gets its label; every other output keeps what it had.
pub open spec fn labeled(outs: Seq<OutputView>) -> Seq<OutputView> {
    let xs = xs_of(outs).to_set();
    let ys = ys_of(outs).to_set();
    if outs.len() < 2 || (xs.len() <= 1 && ys.len() <= 1) {
        outs
    } else {
        Seq::new(
            outs.len(),
            |i: int|
                match position_of(outs[i]) {
                    Some((x, y)) => with_label(outs[i], position_label_of(outs, x, y)),
                    None => outs[i],
                },
        )
    }
}

proof fn lemma_push_to_set(s: Seq<i32>, x: i32)
    ensures
        s.push(x).to_set() == s.to_set().insert(x),
{
    assert forall|e: i32| s.push(x).to_set().contains(e) <==> s.to_set().insert(x).contains(e) by {
        if s.push(x).contains(e) {
            let j = choose|j: int| 0 <= j < s.push(x).len() && s.push(x)[j] == e;
            if j < s.len() {
                assert(s[j] == e);
            }
        }
        if s.contains(e) {
            let j = choose|j: int| 0 <= j < s.len() && s[j] == e;
            assert(s.push(x)[j] == e);
        }
        if e == x {
            assert(s.push(x)[s.len() as int] == x);
        }
    }
    assert(s.push(x).to_set() == s.to_set().insert(x));
}

proof fn lemma_position_in_offsets(outs: Seq<OutputView>, i: int)
    requires
        0 <= i < outs.len(),
        position_of(outs[i]) is Some,
    ensures
        match position_of(outs[i]) {
            Some((x, y)) => xs_of(outs).contains(x) && ys_of(outs).contains(y),
            None => true,
        },
    decreases outs.len(),
{
    let p = position_of(outs[i])->0;
    if i == outs.len() - 1 {
        assert(xs_of(outs) == xs_of(outs.drop_last()).push(p.0));
        assert(xs_of(outs)[xs_of(outs).len() - 1] == p.0);
        assert(ys_of(outs)[ys_of(outs).len() - 1] == p.1);
    } else {
        let d = outs.drop_last();
        assert(d[i] == outs[i]);
        lemma_position_in_offsets(d, i);
        let jx = choose|j: int| 0 <= j < xs_of(d).len() && xs_of(d)[j] == p.0;
        let jy = choose|j: int| 0 <= j < ys_of(d).len() && ys_of(d)[j] == p.1;
        match position_of(outs.last()) {
            Some(q) => {
                assert(xs_of(outs)[jx] == p.0);
                assert(ys_of(outs)[jy] == p.1);
            },
            None => {},
        }
    }
}

fn clone_opt(o: &Option<String>) -> (r: Option<String>)
    ensures
        r == *o,
{
    match o {
        Some(s) => Some(s.clone()),
        None => None,
    }
}

fn set_label(outputs: &mut Vec<OutputInfo>, i: usize, label: String)
    requires
        i < old(outputs).len(),
    ensures
        final(outputs).len() == old(outputs).len(),
        output_views(final(outputs)@)[i as int] == with_label(output_views(old(outputs)@)[i as int], label@),
        forall|j: int|
            0 <= j < old(outputs).len() && j != i ==> (#[trigger] output_views(final(outputs)@)[j])
                == output_views(old(outputs)@)[j],
{
    outputs[i].position_label = Some(label);
}

proof fn lemma_labeled_at(outs: Seq<OutputView>, i: int)
    requires
        0 <= i < outs.len(),
        outs.len() >= 2,
        xs_of(outs).to_set().len() > 1 || ys_of(outs).to_set().len() > 1,
    ensures
        labeled(outs)[i] == match position_of(outs[i]) {
            Some((x, y)) => with_label(outs[i], position_label_of(outs, x, y)),
            None => outs[i],
        },
{
}

/// Assigns position labels (Left/Right, Top/Bottom, combinations) based on relative positions.
/// Handles grids, pure horizontal/vertical, and 4+ screen layouts.
pub fn assign_position_labels(outputs: &mut Vec<OutputInfo>)
    ensures
        output_views(final(outputs)@) == labeled(output_views(old(outputs)@)),
{
    let ghost outs = output_views(outputs@);
    if outputs.len() < 2 {
        return;
    }
    let mut positions: Vec<Option<(i32, i32)>> = Vec::new();
    let mut ux: Vec<i32> = Vec::new();
    let mut uy: Vec<i32> = Vec::new();
    let mut i: usize = 0;
    assert(outs.take(0) == Seq::<OutputView>::empty());
    assert(ux@.to_set() == Set::<i32>::empty());
    while i < outputs.len()
        invariant
            i <= outputs.len(),
            outs == output_views(outputs@),
            positions@.len() == i,
            forall|j: int| 0 <= j < i ==> positions@[j] == position_of(#[trigger] outs[j]),
            strictly_increasing(ux@),
            strictly_increasing(uy@),
            ux@.to_set() == xs_of(outs.take(i as int)).to_set(),
            uy@.to_set() == ys_of(outs.take(i as int)).to_set(),
        decreases outputs.len() - i,
    {
        let p = match &outputs[i].geometry {
            Some(g) => parse_offset(g.as_str()),
            None => None,
        };
        assert(outs[i as int] == outputs@[i as int]@);
        assert(p == position_of(outs[i as int]));
        let ghost pre = outs.take(i as int);
        let ghost next = outs.take(i + 1);
        assert(next.drop_last() == pre);
        assert(next.last() == outs[i as int]);
        if let Some((x, y)) = p {
            insert_sorted(&mut ux, x);
            insert_sorted(&mut uy, y);
            proof {
                lemma_push_to_set(xs_of(pre), x);
                lemma_push_to_set(ys_of(pre), y);
            }
        }
        positions.push(p);
        i += 1;
    }
    assert(outs.take(outputs.len() as int) == outs);
    let ghost xs = xs_of(outs).to_set();
    let ghost ys = ys_of(outs).to_set();
    proof {
        lemma_increasing_card(ux@);
        lemma_increasing_card(uy@);
    }
    let nx = ux.len();
    let ny = uy.len();
    assert(xs.len() == nx && ys.len() == ny);
    if nx <= 1 && ny <= 1 {
        return;
    }
    let col_labels = axis_labels(nx, true);
    let row_labels = axis_labels(ny, false);
    let ghost target = labeled(outs);
    let mut i: usize = 0;
    while i < outputs.len()
        invariant
            i <= outputs.len(),
            outs.len() == outputs.len(),
            outs.len() >= 2,
            positions@.len() == outs.len(),
            forall|j: int| 0 <= j < outs.len() ==> positions@[j] == position_of(#[trigger] outs[j]),
            strictly_increasing(ux@),
            strictly_increasing(uy@),
            ux@.to_set() == xs,
            uy@.to_set() == ys,
            xs == xs_of(outs).to_set(),
            ys == ys_of(outs).to_set(),
            xs.len() == nx,
            ys.len() == ny,
            ux.len() == nx,
            uy.len() == ny,
            nx > 1 || ny > 1,
            target == labeled(outs),
            string_views(col_labels@) == axis_labels_of(nx as nat, true),
            string_views(row_labels@) == axis_labels_of(ny as nat, false),
            forall|j: int| 0 <= j < i ==> (#[trigger] output_views(outputs@)[j]) == target[j],
            forall|j: int| i <= j < outs.len() ==> (#[trigger] output_views(outputs@)[j]) == outs[j],
        decreases outputs.len() - i,
    {
        if let Some((x, y)) = positions[i] {
            proof {
                lemma_position_in_offsets(outs, i as int);
                assert(position_of(outs[i as int]) == Some((x, y)));
                assert(xs_of(outs).to_set().contains(x));
                assert(ys_of(outs).to_set().contains(y));
                assert(ux@.to_set().contains(x));
                assert(uy@.to_set().contains(y));
                assert(string_views(col_labels@).len() == col_labels@.len());
                assert(string_views(row_labels@).len() == row_labels@.len());
            }
            let col = index_of_value(&ux, x);
            let row = index_of_value(&uy, y);
            assert(col_labels@[col as int]@ == string_views(col_labels@)[col as int]);
            assert(row_labels@[row as int]@ == string_views(row_labels@)[row as int]);
            assert(col_labels@[col as int]@ == axis_label(nx as nat, col as int, true));
            assert(row_labels@[row as int]@ == axis_label(ny as nat, row as int, false));
            let label = if nx > 1 && ny > 1 {
                let mut s = row_labels[row].clone();
                s.append("-");
                s.append(col_labels[col].as_str());
                s
            } else if nx > 1 {
                col_labels[col].clone()
            } else {
                row_labels[row].clone()
            };
            assert(label@ == position_label_of(outs, x, y));
            proof {
                lemma_labeled_at(outs, i as int);
            }
            set_label(outputs, i, label);
        } else {
            proof {
                lemma_labeled_at(outs, i as int);
            }
        }
        i += 1;
    }
    assert(output_views(outputs@) == target);
}

} // verus!

verus! {

proof fn lemma_center_label(n: nat, i: int)
    requires
        n >= 5,
        0 < i < n - 1,
    ensures
        axis_label(n, i, true) == "Center "@ + decimal(i as nat),
        axis_label(n, i, false) == "Center "@ + decimal(i as nat),
        axis_label(n, i, true).len() >= 8,
{
    reveal_strlit("Center ");
    law_decimal_reads_back(i as nat);
}

/// Items along an axis get different labels, so displays in different
/// columns (or rows) are told apart.
pub proof fn law_axis_labels_distinct(n: nat, i: int, j: int, horizontal: bool)
    requires
        n >= 2,
        0 <= i < n,
        0 <= j < n,
        i != j,
    ensures
        axis_label(n, i, horizontal) != axis_label(n, j, horizontal),
{
    reveal_strlit("Left");
    reveal_strlit("Right");
    reveal_strlit("Top");
    reveal_strlit("Bottom");
    reveal_strlit("Center");
    reveal_strlit("Center-Left");
    reveal_strlit("Center-Right");
    reveal_strlit("Center-Top");
    reveal_strlit("Center-Bottom");
    reveal_strlit("Center ");
    assert("Left"@.len() == 4 && "Right"@.len() == 5 && "Top"@.len() == 3 && "Bottom"@.len() == 6);
    assert("Center"@.len() == 6 && "Center"@[0] == 'C' && "Bottom"@[0] == 'B');
    assert("Center-Left"@.len() == 11 && "Center-Right"@.len() == 12);
    assert("Center-Top"@.len() == 10 && "Center-Bottom"@.len() == 13);
    assert("Center "@.len() == 7);
    let a = axis_label(n, i, horizontal);
    let b = axis_label(n, j, horizontal);
    if a == b {
        if n >= 5 {
            if 0 < i < n - 1 {
                lemma_center_label(n, i);
            }
            if 0 < j < n - 1 {
                lemma_center_label(n, j);
            }
            if 0 < i < n - 1 && 0 < j < n - 1 {
                assert(a.skip(7) =~= decimal(i as nat));
                assert(b.skip(7) =~= decimal(j as nat));
                lemma_decimal_injective(i as nat, j as nat);
            }
        }
        assert(a.len() == b.len());
        assert(a.len() > 0 ==> a[0] == b[0]);
    }
}

} // verus!

verus! {

/// The x of an output's known offset.
pub open spec fn x_of(o: OutputView) -> i32 {
    match position_of(o) {
        Some((x, _)) => x,
        None => 0,
    }
}

/// The y of an output's known offset.
pub open spec fn y_of(o: OutputView) -> i32 {
    match position_of(o) {
        Some((_, y)) => y,
        None => 0,
    }
}

proof fn lemma_rank_bounds(vals: Set<i32>, a: i32, b: i32)
    requires
        vals.finite(),
        vals.contains(a),
        vals.contains(b),
        a < b,
    ensures
        rank(vals, a) < rank(vals, b),
        rank(vals, b) < vals.len(),
{
    broadcast use vstd::set::group_set_axioms;
    let fa = vals.filter(|w: i32| w < a);
    let fb = vals.filter(|w: i32| w < b);
    vstd::set_lib::lemma_len_subset(fb, vals);
    vstd::set_lib::lemma_len_subset(fa, vals);
    assert(fa.insert(a).subset_of(fb));
    vstd::set_lib::lemma_len_subset(fa.insert(a), fb);
    vstd::set::axiom_set_insert_len(fa, a);
    assert(fb.insert(b).subset_of(vals));
    vstd::set_lib::lemma_len_subset(fb.insert(b), vals);
    vstd::set::axiom_set_insert_len(fb, b);
}

/// Displays side by side (known x offsets differ, all at one height) get
/// different labels.
pub proof fn law_side_by_side_labels_distinct(outs: Seq<OutputView>, i: int, j: int)
    requires
        0 <= i < outs.len(),
        0 <= j < outs.len(),
        position_of(outs[i]) is Some,
        position_of(outs[j]) is Some,
        x_of(outs[i]) != x_of(outs[j]),
        ys_of(outs).to_set().len() <= 1,
    ensures
        labeled(outs)[i].position_label != labeled(outs)[j].position_label,
{
    broadcast use vstd::seq_lib::seq_to_set_is_finite;
    let xs = xs_of(outs).to_set();
    let (xi, yi) = position_of(outs[i])->0;
    let (xj, yj) = position_of(outs[j])->0;
    lemma_position_in_offsets(outs, i);
    lemma_position_in_offsets(outs, j);
    assert(xs.contains(xi) && xs.contains(xj));
    assert(xs.len() > 1) by {
        vstd::set::axiom_set_remove_len(xs, xi);
        vstd::set::axiom_set_contains_len(xs.remove(xi), xj);
    }
    assert(outs.len() >= 2) by {
        if outs.len() < 2 {
            assert(i == j);
        }
    }
    lemma_labeled_at(outs, i);
    lemma_labeled_at(outs, j);
    if xi < xj {
        lemma_rank_bounds(xs, xi, xj);
    } else {
        lemma_rank_bounds(xs, xj, xi);
    }
    law_axis_labels_distinct(xs.len(), rank(xs, xi) as int, rank(xs, xj) as int, true);
}

/// Displays stacked (known y offsets differ, all at one x) get different
/// labels.
pub proof fn law_stacked_labels_distinct(outs: Seq<OutputView>, i: int, j: int)
    requires
        0 <= i < outs.len(),
        0 <= j < outs.len(),
        position_of(outs[i]) is Some,
        position_of(outs[j]) is Some,
        y_of(outs[i]) != y_of(outs[j]),
        xs_of(outs).to_set().len() <= 1,
    ensures
        labeled(outs)[i].position_label != labeled(outs)[j].position_label,
{
    broadcast use vstd::seq_lib::seq_to_set_is_finite;
    let ys = ys_of(outs).to_set();
    let (xi, yi) = position_of(outs[i])->0;
    let (xj, yj) = position_of(outs[j])->0;
    lemma_position_in_offsets(outs, i);
    lemma_position_in_offsets(outs, j);
    assert(ys.contains(yi) && ys.contains(yj));
    assert(ys.len() > 1) by {
        vstd::set::axiom_set_remove_len(ys, yi);
        vstd::set::axiom_set_contains_len(ys.remove(yi), yj);
    }
    assert(outs.len() >= 2) by {
        if outs.len() < 2 {
            assert(i == j);
        }
    }
    lemma_labeled_at(outs, i);
    lemma_labeled_at(outs, j);
    if yi < yj {
        lemma_rank_bounds(ys, yi, yj);
    } else {
        lemma_rank_bounds(ys, yj, yi);
    }
    law_axis_labels_distinct(ys.len(), rank(ys, yi) as int, rank(ys, yj) as int, false);
}

} // verus!

verus! {

/// The only `-` in a row label is the one of `Center-Top` and
/// `Center-Bottom`, among four rows, at index 6.
proof fn lemma_row_label_dash(n: nat, i: int, p: int)
    requires
        n >= 2,
        0 <= i < n,
        0 <= p < axis_label(n, i, false).len(),
        axis_label(n, i, false)[p] == '-',
    ensures
        n == 4,
        p == 6,
        i == 1 || i == 2,
{
    reveal_strlit("Top");
    reveal_strlit("Bottom");
    reveal_strlit("Center");
    reveal_strlit("Center-Top");
    reveal_strlit("Center-Bottom");
    reveal_strlit("Center ");
    let l = axis_label(n, i, false);
    if n >= 5 && 0 < i < n - 1 {
        law_decimal_reads_back(i as nat);
        assert(l == "Center "@ + decimal(i as nat));
        if p >= 7 {
            assert(l[p] == decimal(i as nat)[p - 7]);
            assert(is_digit(decimal(i as nat)[p - 7]));
        }
    }
}

/// A value of a finite set has fewer values below it than the set has.
proof fn lemma_rank_below_len(vals: Set<i32>, v: i32)
    requires
        vals.finite(),
        vals.contains(v),
    ensures
        rank(vals, v) < vals.len(),
{
    broadcast use vstd::set::group_set_axioms;
    let below = vals.filter(|w: i32| w < v);
    vstd::set::axiom_set_remove_finite(vals, v);
    vstd::set::axiom_set_remove_len(vals, v);
    assert(below.subset_of(vals.remove(v)));
    vstd::set_lib::lemma_len_subset(below, vals.remove(v));
}

/// Displays in a grid (several columns and several rows) whose known
/// offsets differ get different labels.
pub proof fn law_grid_labels_distinct(outs: Seq<OutputView>, i: int, j: int)
    requires
        0 <= i < outs.len(),
        0 <= j < outs.len(),
        position_of(outs[i]) is Some,
        position_of(outs[j]) is Some,
        position_of(outs[i]) != position_of(outs[j]),
        xs_of(outs).to_set().len() > 1,
        ys_of(outs).to_set().len() > 1,
    ensures
        labeled(outs)[i].position_label != labeled(outs)[j].position_label,
{
    broadcast use vstd::seq_lib::seq_to_set_is_finite;
    reveal_strlit("-");
    let xs = xs_of(outs).to_set();
    let ys = ys_of(outs).to_set();
    let (xi, yi) = position_of(outs[i])->0;
    let (xj, yj) = position_of(outs[j])->0;
    lemma_position_in_offsets(outs, i);
    lemma_position_in_offsets(outs, j);
    assert(xs.contains(xi) && xs.contains(xj) && ys.contains(yi) && ys.contains(yj));
    assert(outs.len() >= 2) by {
        if outs.len() < 2 {
            assert(i == j);
        }
    }
    lemma_labeled_at(outs, i);
    lemma_labeled_at(outs, j);
    let nx = xs.len();
    let ny = ys.len();
    let ci = rank(xs, xi) as int;
    let cj = rank(xs, xj) as int;
    let ri = rank(ys, yi) as int;
    let rj = rank(ys, yj) as int;
    // ranks are in range, and tell values apart
    if xi < xj {
        lemma_rank_bounds(xs, xi, xj);
    } else if xj < xi {
        lemma_rank_bounds(xs, xj, xi);
    }
    if yi < yj {
        lemma_rank_bounds(ys, yi, yj);
    } else if yj < yi {
        lemma_rank_bounds(ys, yj, yi);
    }
    lemma_rank_below_len(xs, xi);
    lemma_rank_below_len(xs, xj);
    lemma_rank_below_len(ys, yi);
    lemma_rank_below_len(ys, yj);
    let r1 = axis_label(ny, ri, false);
    let r2 = axis_label(ny, rj, false);
    let c1 = axis_label(nx, ci, true);
    let c2 = axis_label(nx, cj, true);
    let l1 = r1 + "-"@ + c1;
    let l2 = r2 + "-"@ + c2;
    assert(labeled(outs)[i].position_label == Some(l1));
    assert(labeled(outs)[j].position_label == Some(l2));
    if l1 == l2 {
        if r1.len() < r2.len() {
            assert(l1[r1.len() as int] == '-');
            assert(r2[r1.len() as int] == l2[r1.len() as int]);
            lemma_row_label_dash(ny, rj, r1.len() as int);
            reveal_strlit("Top");
            reveal_strlit("Bottom");
            reveal_strlit("Center-Top");
            reveal_strlit("Center-Bottom");
            assert(r1 =~= "Bottom"@);
            assert(l1[0] == 'B' && l2[0] == 'C');
        } else if r2.len() < r1.len() {
            assert(l2[r2.len() as int] == '-');
            assert(r1[r2.len() as int] == l1[r2.len() as int]);
            lemma_row_label_dash(ny, ri, r2.len() as int);
            reveal_strlit("Top");
            reveal_strlit("Bottom");
            reveal_strlit("Center-Top");
            reveal_strlit("Center-Bottom");
            assert(r2 =~= "Bottom"@);
            assert(l2[0] == 'B' && l1[0] == 'C');
        } else {
            assert(r1 =~= l1.take(r1.len() as int));
            assert(r2 =~= l2.take(r2.len() as int));
            assert(c1 =~= l1.skip(r1.len() as int + 1));
            assert(c2 =~= l2.skip(r2.len() as int + 1));
            if ri != rj {
                law_axis_labels_distinct(ny, ri, rj, false);
            }
            if ci != cj {
                law_axis_labels_distinct(nx, ci, cj, true);
            }
        }
    }
}

} // verus!
