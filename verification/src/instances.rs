//! Attaching OpenStack instance names to the domain records.
//!
//! The remote loop prints one `domain|instance` line per domain (the
//! instance part is empty for a domain without a `nova:name`).  Lines are
//! matched to records by the domain name, so the result does not depend on
//! both remote commands listing the same number of lines.

use vstd::prelude::*;
use crate::domstats::{lines_of, models, VmStats, VmStatsModel};
use crate::text::{
    chars_of, chars_eq, lemma_split_nonempty, split_chars, split_once, split_once_chars,
    string_from_chars, trim, trim_chars, views,
};

verus! {

broadcast use vstd::string::group_string_axioms;

/// Whether `i` is the first record whose domain is `d`.
pub open spec fn is_first_record(stats: Seq<VmStatsModel>, d: Seq<char>, i: int) -> bool {
    0 <= i < stats.len() && stats[i].domain == d && forall|j: int|
        0 <= j < i ==> stats[j].domain != d
}

/// The records after one raw line of the name listing: a trimmed
/// `domain|instance` line gives its instance (everything after the first
/// `|`) to the first record with that domain; other lines change nothing.
pub open spec fn name_step(stats: Seq<VmStatsModel>, line: Seq<char>) -> Seq<VmStatsModel> {
    match split_once(trim(line), '|') {
        Some((d, inst)) => if exists|i: int| is_first_record(stats, d, i) {
            let i = choose|i: int| is_first_record(stats, d, i);
            stats.update(i, VmStatsModel { instance: inst, ..stats[i] })
        } else {
            stats
        },
        None => stats,
    }
}

/// The records after a sequence of listing lines.
pub open spec fn name_lines(stats: Seq<VmStatsModel>, lines: Seq<Seq<char>>) -> Seq<
    VmStatsModel,
>
    decreases lines.len(),
{
    if lines.len() == 0 {
        stats
    } else {
        name_step(name_lines(stats, lines.drop_last()), lines.last())
    }
}

/// The records after the whole name listing `text`.
pub open spec fn named(stats: Seq<VmStatsModel>, text: Seq<char>) -> Seq<VmStatsModel> {
    name_lines(stats, lines_of(text))
}

/// The index of the first record whose domain is `d`, if any.
fn find_record(stats: &Vec<VmStats>, d: &Vec<char>) -> (r: Option<usize>)
    ensures
        match r {
            Some(i) => is_first_record(models(stats@), d@, i as int),
            None => forall|i: int| !is_first_record(models(stats@), d@, i),
        },
{
    let n = stats.len();
    for i in 0..n
        invariant
            n == stats@.len(),
            forall|j: int| 0 <= j < i ==> models(stats@)[j].domain != d@,
    {
        let name = chars_of(stats[i].domain.as_str());
        if chars_eq(&name, d) {
            return Some(i);
        }
    }
    assert forall|i: int| !is_first_record(models(stats@), d@, i) by {
        if 0 <= i < n {
            assert(models(stats@)[i].domain != d@);
        }
    }
    None
}

/// Applies one raw line of the name listing.
pub fn apply_name_line(stats: &mut Vec<VmStats>, line: &Vec<char>)
    ensures
        models(final(stats)@) == name_step(models(old(stats)@), line@),
{
    let t = trim_chars(line);
    match split_once_chars(&t, '|') {
        None => {},
        Some((d, inst)) => {
            match find_record(stats, &d) {
                None => {},
                Some(i) => {
                    let ghost before = models(stats@);
                    proof {
                        let k = choose|k: int| is_first_record(before, d@, k);
                        assert(k == i) by {
                            if k < i {
                                assert(before[k].domain == d@);
                            } else if k > i {
                                assert(before[i as int].domain == d@);
                            }
                        }
                    }
                    let mut rec = stats.remove(i);
                    rec.instance = string_from_chars(&inst);
                    stats.insert(i, rec);
                    assert(models(stats@) =~= before.update(
                        i as int,
                        VmStatsModel { instance: inst@, ..before[i as int] },
                    ));
                },
            }
        },
    }
}

/// Gives each record the instance name that the listing `text` holds for
/// its domain.
pub fn assign_instances(stats: &mut Vec<VmStats>, text: &str)
    ensures
        models(final(stats)@) == named(models(old(stats)@), text@),
{
    let ghost start = models(stats@);
    let chars = chars_of(text);
    let pieces = split_chars(&chars, '\n');
    proof {
        lemma_split_nonempty(text@, '\n');
    }
    let ghost lines = lines_of(text@);
    let total = pieces.len();
    let count = if pieces[total - 1].len() == 0 {
        total - 1
    } else {
        total
    };
    assert(views(pieces@)[total - 1] == pieces@[total - 1]@);
    assert(lines.len() == count);
    assert(forall|j: int| 0 <= j < count ==> #[trigger] lines[j] == pieces@[j]@);
    assert(lines.take(0) =~= Seq::<Seq<char>>::empty());
    for i in 0..count
        invariant
            lines == lines_of(text@),
            count == lines.len(),
            count <= pieces@.len(),
            forall|j: int| 0 <= j < count ==> #[trigger] lines[j] == pieces@[j]@,
            models(stats@) == name_lines(start, lines.take(i as int)),
    {
        assert(lines.take(i + 1).drop_last() == lines.take(i as int));
        assert(lines.take(i + 1).last() == lines[i as int]);
        apply_name_line(stats, &pieces[i]);
    }
    assert(lines.take(count as int) == lines);
}

/// Whether a listing line names the domain `d`.
pub open spec fn names_domain(line: Seq<char>, d: Seq<char>) -> bool {
    match split_once(trim(line), '|') {
        Some((name, _)) => name == d,
        None => false,
    }
}

/// Whether `b` is `a` with at most the instance names changed.
pub open spec fn same_but_instances(a: Seq<VmStatsModel>, b: Seq<VmStatsModel>) -> bool {
    a.len() == b.len() && forall|i: int|
        0 <= i < a.len() ==> (#[trigger] b[i]) == VmStatsModel { instance: b[i].instance, ..a[i] }
}

proof fn lemma_name_step_keeps(stats: Seq<VmStatsModel>, line: Seq<char>)
    ensures
        same_but_instances(stats, name_step(stats, line)),
{
    let r = name_step(stats, line);
    assert forall|i: int| 0 <= i < stats.len() implies (#[trigger] r[i]) == VmStatsModel {
        instance: r[i].instance,
        ..stats[i]
    } by {}
}

/// Assigning instance names changes nothing but instance names: the records,
/// their order, domains and counters stay as they were.
pub proof fn lemma_naming_keeps_records(stats: Seq<VmStatsModel>, lines: Seq<Seq<char>>)
    ensures
        same_but_instances(stats, name_lines(stats, lines)),
    decreases lines.len(),
{
    if lines.len() > 0 {
        let p = name_lines(stats, lines.drop_last());
        lemma_naming_keeps_records(stats, lines.drop_last());
        lemma_name_step_keeps(p, lines.last());
        let r = name_lines(stats, lines);
        assert forall|i: int| 0 <= i < stats.len() implies (#[trigger] r[i]) == VmStatsModel {
            instance: r[i].instance,
            ..stats[i]
        } by {
            assert(p[i] == VmStatsModel { instance: p[i].instance, ..stats[i] });
            assert(r[i] == VmStatsModel { instance: r[i].instance, ..p[i] });
        }
    }
}

/// A line that does not name `d` leaves the records with domain `d` alone.
proof fn lemma_step_other_domain(stats: Seq<VmStatsModel>, line: Seq<char>, i: int)
    requires
        0 <= i < stats.len(),
        !names_domain(line, stats[i].domain),
    ensures
        name_step(stats, line)[i] == stats[i],
{
    match split_once(trim(line), '|') {
        Some((d, inst)) => {
            if exists|k: int| is_first_record(stats, d, k) {
                let k = choose|k: int| is_first_record(stats, d, k);
                assert(k != i);
            }
        },
        None => {},
    }
}

/// Matching by name: the first record with domain `d` gets the instance of
/// the last listing line that names `d`, wherever that line stands.
pub proof fn lemma_instance_from_last_naming_line(
    stats: Seq<VmStatsModel>,
    lines: Seq<Seq<char>>,
    i: int,
    k: int,
    d: Seq<char>,
    inst: Seq<char>,
)
    requires
        is_first_record(stats, d, i),
        0 <= k < lines.len(),
        split_once(trim(lines[k]), '|') == Some((d, inst)),
        forall|j: int| k < j < lines.len() ==> !names_domain(#[trigger] lines[j], d),
    ensures
        name_lines(stats, lines)[i].instance == inst,
    decreases lines.len(),
{
    let p = lines.drop_last();
    let before = name_lines(stats, p);
    lemma_naming_keeps_records(stats, p);
    assert forall|j: int| 0 <= j < stats.len() implies before[j].domain == stats[j].domain by {
        assert(before[j] == VmStatsModel { instance: before[j].instance, ..stats[j] });
    }
    assert(name_lines(stats, lines) == name_step(before, lines.last()));
    if k == lines.len() - 1 {
        assert(lines.last() == lines[k]);
        assert(is_first_record(before, d, i));
        let c = choose|c: int| is_first_record(before, d, c);
        assert(c == i) by {
            if c < i {
                assert(stats[c].domain == d);
            } else if c > i {
                assert(before[i].domain == d);
            }
        }
        assert(name_step(before, lines[k]) == before.update(
            i,
            VmStatsModel { instance: inst, ..before[i] },
        ));
    } else {
        lemma_instance_from_last_naming_line(stats, p, i, k, d, inst);
        assert(!names_domain(lines[lines.len() - 1], d));
        assert(before[i].domain == d);
        lemma_step_other_domain(before, lines.last(), i);
    }
}

/// A record whose domain no listing line names keeps its instance name.
pub proof fn lemma_unnamed_record_unchanged(
    stats: Seq<VmStatsModel>,
    lines: Seq<Seq<char>>,
    i: int,
)
    requires
        0 <= i < stats.len(),
        forall|j: int| 0 <= j < lines.len() ==> !names_domain(#[trigger] lines[j], stats[i].domain),
    ensures
        name_lines(stats, lines)[i] == stats[i],
    decreases lines.len(),
{
    if lines.len() > 0 {
        let p = lines.drop_last();
        lemma_unnamed_record_unchanged(stats, p, i);
        let before = name_lines(stats, p);
        lemma_naming_keeps_records(stats, p);
        assert(!names_domain(lines[lines.len() - 1], stats[i].domain));
        lemma_step_other_domain(before, lines.last(), i);
    }
}

} // verus!
