use vstd::prelude::*;

use crate::layout::string_views;
use crate::text::{
    before_first, chars_of, ends_with, has_prefix, has_suffix, lines, split_at_char, split_lines,
    split_once, starts_with, string_from, trim, trim_bounds, views,
};

verus! {

// ---------------------------------------------------------------------------
// Sources listed by `pactl list sources short`
// ---------------------------------------------------------------------------

/// The source name on a line of `pactl list sources short`: its second
/// tab-separated field, trimmed.
pub open spec fn source_name(line: Seq<char>) -> Option<Seq<char>> {
    match split_once(line, '\t') {
        Some((_, rest)) => Some(trim(before_first(rest, '\t'))),
        None => None,
    }
}

/// A monitor source, which plays back what a sink outputs.
pub open spec fn is_monitor(name: Seq<char>) -> bool {
    ends_with(name, ".monitor"@)
}

/// The monitor sources named by `ls`, in order.
pub open spec fn monitors_of(ls: Seq<Seq<char>>) -> Seq<Seq<char>>
    decreases ls.len(),
{
    if ls.len() == 0 {
        seq![]
    } else {
        match source_name(ls.last()) {
            Some(n) => if is_monitor(n) {
                monitors_of(ls.drop_last()).push(n)
            } else {
                monitors_of(ls.drop_last())
            },
            None => monitors_of(ls.drop_last()),
        }
    }
}

/// The other sources named by `ls`, each with whether its line ends in
/// `RUNNING`, in order.
pub open spec fn mics_of(ls: Seq<Seq<char>>) -> Seq<(Seq<char>, bool)>
    decreases ls.len(),
{
    if ls.len() == 0 {
        seq![]
    } else {
        match source_name(ls.last()) {
            Some(n) => if is_monitor(n) {
                mics_of(ls.drop_last())
            } else {
                mics_of(ls.drop_last()).push((n, ends_with(ls.last(), "RUNNING"@)))
            },
            None => mics_of(ls.drop_last()),
        }
    }
}

/// The sources of `m` whose running flag is `flag`, in order.
pub open spec fn with_flag(m: Seq<(Seq<char>, bool)>, flag: bool) -> Seq<(Seq<char>, bool)>
    decreases m.len(),
{
    if m.len() == 0 {
        seq![]
    } else if m.last().1 == flag {
        with_flag(m.drop_last(), flag).push(m.last())
    } else {
        with_flag(m.drop_last(), flag)
    }
}

/// `m` with its running sources first, each group kept in order.
pub open spec fn running_first(m: Seq<(Seq<char>, bool)>) -> Seq<(Seq<char>, bool)> {
    with_flag(m, true) + with_flag(m, false)
}

pub open spec fn flagged_views(v: Seq<(String, bool)>) -> Seq<(Seq<char>, bool)> {
    Seq::new(v.len(), |i: int| (v[i].0@, v[i].1))
}

fn source_name_of(line: &Vec<char>) -> (r: Option<String>)
    ensures
        match r {
            Some(s) => source_name(line@) == Some(s@),
            None => source_name(line@) is None,
        },
{
    let n = line.len();
    assert(line@.subrange(0, n as int) == line@);
    let t1 = match split_at_char(line, 0, n, '\t') {
        Some(k) => k,
        None => return None,
    };
    let end = match split_at_char(line, t1 + 1, n, '\t') {
        Some(k) => k,
        None => n,
    };
    assert(line@.subrange(t1 + 1, end as int) == before_first(line@.subrange(t1 + 1, n as int), '\t'));
    let (a, b) = trim_bounds(line, t1 + 1, end);
    Some(string_from(line, a, b))
}

/// Splits the report of `pactl list sources short` into monitor sources and
/// other sources (each with whether it is running), running sources first.
pub fn parse_sources(text: &str) -> (r: (Vec<String>, Vec<(String, bool)>))
    ensures
        string_views(r.0@) == monitors_of(lines(text@)),
        flagged_views(r.1@) == running_first(mics_of(lines(text@))),
{
    let ls = split_lines(text);
    let monitor_suffix = chars_of(".monitor");
    let running_suffix = chars_of("RUNNING");
    let mut monitors: Vec<String> = Vec::new();
    let mut running: Vec<(String, bool)> = Vec::new();
    let mut idle: Vec<(String, bool)> = Vec::new();
    let mut i: usize = 0;
    assert(views(ls@).take(0) == Seq::<Seq<char>>::empty());
    assert(string_views(monitors@) == Seq::<Seq<char>>::empty());
    assert(flagged_views(running@) == Seq::<(Seq<char>, bool)>::empty());
    assert(flagged_views(idle@) == Seq::<(Seq<char>, bool)>::empty());
    while i < ls.len()
        invariant
            i <= ls.len(),
            views(ls@) == lines(text@),
            monitor_suffix@ == ".monitor"@,
            running_suffix@ == "RUNNING"@,
            string_views(monitors@) == monitors_of(views(ls@).take(i as int)),
            flagged_views(running@) == with_flag(mics_of(views(ls@).take(i as int)), true),
            flagged_views(idle@) == with_flag(mics_of(views(ls@).take(i as int)), false),
        decreases ls.len() - i,
    {
        let ghost pre = views(ls@).take(i as int);
        assert(views(ls@).take(i + 1).drop_last() == pre);
        assert(views(ls@).take(i + 1).last() == ls@[i as int]@);
        let line = &ls[i];
        match source_name_of(line) {
            Some(name) => {
                let nv = chars_of(name.as_str());
                assert(nv@.subrange(0, nv.len() as int) == nv@);
                if has_suffix(&nv, 0, nv.len(), &monitor_suffix) {
                    let ghost old_m = monitors@;
                    monitors.push(name);
                    assert(string_views(monitors@) == string_views(old_m).push(nv@));
                } else {
                    let n = line.len();
                    assert(line@.subrange(0, n as int) == line@);
                    let is_running = has_suffix(line, 0, n, &running_suffix);
                    let ghost m = mics_of(pre);
                    assert(m.push((nv@, is_running)).drop_last() == m);
                    if is_running {
                        let ghost old_r = running@;
                        running.push((name, is_running));
                        assert(flagged_views(running@) == flagged_views(old_r).push((nv@, is_running)));
                    } else {
                        let ghost old_i = idle@;
                        idle.push((name, is_running));
                        assert(flagged_views(idle@) == flagged_views(old_i).push((nv@, is_running)));
                    }
                }
            },
            None => {},
        }
        i += 1;
    }
    assert(views(ls@).take(ls.len() as int) == views(ls@));
    let ghost r0 = running@;
    let ghost i0 = idle@;
    running.append(&mut idle);
    assert(flagged_views(running@) == flagged_views(r0) + flagged_views(i0));
    (monitors, running)
}

// ---------------------------------------------------------------------------
// Choosing sources
// ---------------------------------------------------------------------------

/// The sink that `pactl get-default-sink` printed: its trimmed output, if
/// not empty.
pub open spec fn sink_of_output(out: Seq<char>) -> Option<Seq<char>> {
    if trim(out).len() > 0 {
        Some(trim(out))
    } else {
        None
    }
}

pub fn default_sink_from_output(stdout: &str) -> (r: Option<String>)
    ensures
        match r {
            Some(s) => sink_of_output(stdout@) == Some(s@),
            None => sink_of_output(stdout@) is None,
        },
{
    let v = chars_of(stdout);
    let n = v.len();
    assert(v@.subrange(0, n as int) == v@);
    let (a, b) = trim_bounds(&v, 0, n);
    if a < b {
        Some(string_from(&v, a, b))
    } else {
        None
    }
}

/// The first of `ls` that starts with `p`.
pub open spec fn first_starting_with(ls: Seq<Seq<char>>, p: Seq<char>) -> Option<Seq<char>>
    decreases ls.len(),
{
    if ls.len() == 0 {
        None
    } else if starts_with(ls[0], p) {
        Some(ls[0])
    } else {
        first_starting_with(ls.drop_first(), p)
    }
}

/// The default sink that `pactl info` names: what follows the `:` of the
/// first line starting `Default Sink:`, trimmed.
pub open spec fn sink_of_info(info: Seq<char>) -> Option<Seq<char>> {
    match first_starting_with(lines(info), "Default Sink:"@) {
        Some(l) => match split_once(l, ':') {
            Some((_, rest)) => Some(trim(rest)),
            None => None,
        },
        None => None,
    }
}

pub fn default_sink_from_info(info: &str) -> (r: Option<String>)
    ensures
        match r {
            Some(s) => sink_of_info(info@) == Some(s@),
            None => sink_of_info(info@) is None,
        },
{
    let ls = split_lines(info);
    let prefix = chars_of("Default Sink:");
    let mut i: usize = 0;
    assert(views(ls@).skip(0) == views(ls@));
    while i < ls.len()
        invariant
            i <= ls.len(),
            views(ls@) == lines(info@),
            prefix@ == "Default Sink:"@,
            first_starting_with(lines(info@), "Default Sink:"@) == first_starting_with(
                views(ls@).skip(i as int),
                "Default Sink:"@,
            ),
        decreases ls.len() - i,
    {
        let ghost rest = views(ls@).skip(i as int);
        assert(rest[0] == ls@[i as int]@);
        assert(rest.drop_first() == views(ls@).skip(i + 1));
        let line = &ls[i];
        let n = line.len();
        assert(line@.subrange(0, n as int) == line@);
        if has_prefix(line, 0, n, &prefix) {
            match split_at_char(line, 0, n, ':') {
                Some(k) => {
                    let (a, b) = trim_bounds(line, k + 1, n);
                    return Some(string_from(line, a, b));
                },
                None => return None,
            }
        }
        i += 1;
    }
    assert(views(ls@).skip(ls.len() as int).len() == 0);
    None
}

/// The monitor source to record system audio from: none when there is no
/// monitor or no default sink is known; else the default sink's monitor when
/// it is listed, else the first monitor.
pub open spec fn monitor_choice(monitors: Seq<Seq<char>>, sink: Option<Seq<char>>) -> Option<Seq<char>> {
    if monitors.len() == 0 {
        None
    } else {
        match sink {
            Some(s) => if monitors.contains(s + ".monitor"@) {
                Some(s + ".monitor"@)
            } else {
                Some(monitors[0])
            },
            None => None,
        }
    }
}

/// Picks the monitor source, given the default sink.
#[verifier::loop_isolation(false)]
pub fn pick_monitor(monitors: Vec<String>, default_sink: Option<String>) -> (r: Option<String>)
    ensures
        match r {
            Some(s) => monitor_choice(string_views(monitors@), opt_string_view(default_sink)) == Some(s@),
            None => monitor_choice(string_views(monitors@), opt_string_view(default_sink)) is None,
        },
{
    if monitors.len() == 0 {
        return None;
    }
    let sink = match default_sink {
        Some(s) => s,
        None => return None,
    };
    let mut preferred = sink;
    preferred.append(".monitor");
    let mut i: usize = 0;
    while i < monitors.len()
        invariant
            i <= monitors.len(),
            forall|j: int| 0 <= j < i ==> monitors@[j]@ != preferred@,
        decreases monitors.len() - i,
    {
        if monitors[i] == preferred {
            assert(string_views(monitors@)[i as int] == preferred@);
            return Some(preferred);
        }
        i += 1;
    }
    assert(!string_views(monitors@).contains(preferred@)) by {
        if string_views(monitors@).contains(preferred@) {
            let j = choose|j: int| 0 <= j < monitors@.len() && string_views(monitors@)[j] == preferred@;
            assert(monitors@[j]@ == preferred@);
        }
    }
    assert(string_views(monitors@)[0] == monitors@[0]@);
    Some(monitors[0].clone())
}

pub open spec fn opt_string_view(o: Option<String>) -> Option<Seq<char>> {
    match o {
        Some(s) => Some(s@),
        None => None,
    }
}

/// The first running source of `mics`.
pub open spec fn first_running(mics: Seq<(Seq<char>, bool)>) -> Option<Seq<char>>
    decreases mics.len(),
{
    if mics.len() == 0 {
        None
    } else if mics[0].1 {
        Some(mics[0].0)
    } else {
        first_running(mics.drop_first())
    }
}

/// The microphone to record: the first running source, else the first
/// source, else none.
pub open spec fn mic_choice(mics: Seq<(Seq<char>, bool)>) -> Option<Seq<char>> {
    match first_running(mics) {
        Some(n) => Some(n),
        None => if mics.len() > 0 {
            Some(mics[0].0)
        } else {
            None
        },
    }
}

/// Picks the microphone source, preferring running sources over suspended ones.
pub fn pick_mic(mics: Vec<(String, bool)>) -> (r: Option<String>)
    ensures
        match r {
            Some(s) => mic_choice(flagged_views(mics@)) == Some(s@),
            None => mic_choice(flagged_views(mics@)) is None,
        },
{
    let ghost fv = flagged_views(mics@);
    let mut i: usize = 0;
    assert(fv.skip(0) == fv);
    while i < mics.len()
        invariant
            i <= mics.len(),
            fv == flagged_views(mics@),
            first_running(fv) == first_running(fv.skip(i as int)),
        decreases mics.len() - i,
    {
        let ghost rest = fv.skip(i as int);
        assert(rest[0] == fv[i as int]);
        assert(rest.drop_first() == fv.skip(i + 1));
        if mics[i].1 {
            return Some(mics[i].0.clone());
        }
        i += 1;
    }
    assert(fv.skip(mics.len() as int).len() == 0);
    if mics.len() > 0 {
        assert(fv[0] == (mics@[0].0@, mics@[0].1));
        Some(mics[0].0.clone())
    } else {
        None
    }
}

proof fn lemma_first_running(mics: Seq<(Seq<char>, bool)>, i: int)
    requires
        0 <= i <= mics.len(),
        forall|j: int| 0 <= j < i ==> !(#[trigger] mics[j]).1,
    ensures
        i < mics.len() && mics[i].1 ==> first_running(mics) == Some(mics[i].0),
        i == mics.len() ==> first_running(mics) is None,
    decreases i,
{
    if i > 0 {
        assert forall|j: int| 0 <= j < i - 1 implies !(#[trigger] mics.drop_first()[j]).1 by {
            assert(mics.drop_first()[j] == mics[j + 1]);
        }
        assert(!mics[0].1);
        lemma_first_running(mics.drop_first(), i - 1);
        if i < mics.len() {
            assert(mics.drop_first()[i - 1] == mics[i]);
        }
    }
}

/// The microphone chosen is the first running source in list order; when no
/// source runs, the first source; when there is none, nothing.
pub proof fn law_first_running_microphone_is_chosen(mics: Seq<(Seq<char>, bool)>)
    ensures
        forall|i: int|
            0 <= i < mics.len() && (#[trigger] mics[i]).1 && (forall|j: int| 0 <= j < i ==> !mics[j].1)
                ==> mic_choice(mics) == Some(mics[i].0),
        (forall|j: int| 0 <= j < mics.len() ==> !(#[trigger] mics[j]).1) && mics.len() > 0 ==> mic_choice(mics)
            == Some(mics[0].0),
        mics.len() == 0 ==> mic_choice(mics) is None,
{
    assert forall|i: int|
        0 <= i < mics.len() && (#[trigger] mics[i]).1 && (forall|j: int| 0 <= j < i ==> !mics[j].1)
            implies mic_choice(mics) == Some(mics[i].0) by {
        lemma_first_running(mics, i);
    }
    if forall|j: int| 0 <= j < mics.len() ==> !(#[trigger] mics[j]).1 {
        lemma_first_running(mics, mics.len() as int);
    }
}

proof fn lemma_with_flag(m: Seq<(Seq<char>, bool)>, flag: bool)
    ensures
        forall|i: int| 0 <= i < with_flag(m, flag).len() ==> (#[trigger] with_flag(m, flag)[i]).1 == flag,
        with_flag(m, true).len() + with_flag(m, false).len() == m.len(),
        forall|i: int| 0 <= i < with_flag(m, flag).len() ==> m.contains(#[trigger] with_flag(m, flag)[i]),
    decreases m.len(),
{
    if m.len() > 0 {
        let pre = m.drop_last();
        lemma_with_flag(pre, flag);
        lemma_with_flag(pre, !flag);
        assert forall|i: int| 0 <= i < with_flag(m, flag).len() implies m.contains(
            #[trigger] with_flag(m, flag)[i],
        ) by {
            if i < with_flag(pre, flag).len() {
                assert(with_flag(m, flag)[i] == with_flag(pre, flag)[i]);
                let k = choose|k: int| 0 <= k < pre.len() && pre[k] == with_flag(pre, flag)[i];
                assert(m[k] == pre[k]);
            } else {
                assert(m[m.len() - 1] == m.last());
            }
        }
    }
}

/// Reordering the non-monitor sources keeps their number, lists only sources
/// of the report, and puts every running source before every source that is
/// not running.
pub proof fn law_running_sources_come_first(m: Seq<(Seq<char>, bool)>)
    ensures
        running_first(m).len() == m.len(),
        forall|i: int, j: int|
            0 <= i < j < m.len() && (#[trigger] running_first(m)[j]).1 ==> (#[trigger] running_first(m)[i]).1,
        forall|i: int| 0 <= i < m.len() ==> m.contains(#[trigger] running_first(m)[i]),
{
    lemma_with_flag(m, true);
    lemma_with_flag(m, false);
    let a = with_flag(m, true);
    let b = with_flag(m, false);
    assert forall|i: int, j: int|
        0 <= i < j < m.len() && (#[trigger] running_first(m)[j]).1 implies (#[trigger] running_first(m)[i]).1 by {
        if j >= a.len() {
            assert(running_first(m)[j] == b[j - a.len()]);
        }
        assert(running_first(m)[i] == a[i]);
    }
    assert forall|i: int| 0 <= i < m.len() implies m.contains(#[trigger] running_first(m)[i]) by {
        if i < a.len() {
            assert(running_first(m)[i] == a[i]);
        } else {
            assert(running_first(m)[i] == b[i - a.len()]);
        }
    }
}

} // verus!
