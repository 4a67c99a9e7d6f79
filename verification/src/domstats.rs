//! Reading the output of `virsh domstats` into one record per domain.
//!
//! The input is the text printed by
//! `virsh domstats --cpu-total --balloon --interface --block`, filtered down
//! to the `Domain:` header lines and the counters of interest.  Each header
//! starts a new record; each `group.….leaf=value` line after it sets or adds
//! to a counter of the most recent record.

use vstd::prelude::*;
use crate::text::{
    chars_eq, chars_of, contains, contains_chars, join, lemma_split_join, lemma_split_nonempty,
    parse_i64, parse_i64_chars, split, split_chars, string_from_chars, trim, trim_chars, views,
};

verus! {

broadcast use vstd::string::group_string_axioms;

/// Status information collected for one domain.
pub struct VmStats {
    /// The domain name, as quoted in the `Domain: '…'` header.
    pub domain: String,
    /// The instance name that OpenStack gave the domain; empty until known.
    pub instance: String,
    /// `cpu.time`: total CPU time in nanoseconds.
    pub cpu: i64,
    /// `balloon.current`: current memory in KiB.
    pub mem_cur: i64,
    /// `balloon.maximum`: maximum memory in KiB.
    pub mem_max: i64,
    /// Sum of all `block.*.bytes` counters (bytes read and written).
    pub io: i64,
    /// Sum of all `net.*.bytes` counters (bytes received and sent).
    pub net: i64,
    /// `block.*.allocation` of the last block device listed.
    pub allocation: i64,
    /// `block.*.capacity` of the last block device listed.
    pub capacity: i64,
}

/// The mathematical content of a [`VmStats`].
pub struct VmStatsModel {
    pub domain: Seq<char>,
    pub instance: Seq<char>,
    pub cpu: int,
    pub mem_cur: int,
    pub mem_max: int,
    pub io: int,
    pub net: int,
    pub allocation: int,
    pub capacity: int,
}

impl View for VmStats {
    type V = VmStatsModel;

    open spec fn view(&self) -> VmStatsModel {
        VmStatsModel {
            domain: self.domain@,
            instance: self.instance@,
            cpu: self.cpu as int,
            mem_cur: self.mem_cur as int,
            mem_max: self.mem_max as int,
            io: self.io as int,
            net: self.net as int,
            allocation: self.allocation as int,
            capacity: self.capacity as int,
        }
    }
}

/// The models of a sequence of records.
pub open spec fn models(v: Seq<VmStats>) -> Seq<VmStatsModel> {
    v.map_values(|s: VmStats| s@)
}

/// The domain names of the records, in order.
pub open spec fn domains_of(stats: Seq<VmStatsModel>) -> Seq<Seq<char>> {
    stats.map_values(|m: VmStatsModel| m.domain)
}

/// The counter that a statistics line addresses.
#[derive(Clone, Copy, Debug, PartialEq, Eq)]
pub enum StatField {
    /// `cpu.time`
    CpuTime,
    /// `balloon.current`
    MemCurrent,
    /// `balloon.maximum`
    MemMaximum,
    /// `block.<n>.….bytes`
    BlockBytes,
    /// `block.<n>.allocation`
    BlockAllocation,
    /// `block.<n>.capacity`
    BlockCapacity,
    /// `net.<n>.….bytes`
    NetBytes,
}

/// The counter named by the first (`group`) and last (`leaf`) component of
/// a dotted key; `None` for keys that are not collected.
pub open spec fn stat_field(group: Seq<char>, leaf: Seq<char>) -> Option<StatField> {
    if group == "cpu"@ {
        if leaf == "time"@ {
            Some(StatField::CpuTime)
        } else {
            None
        }
    } else if group == "balloon"@ {
        if leaf == "current"@ {
            Some(StatField::MemCurrent)
        } else if leaf == "maximum"@ {
            Some(StatField::MemMaximum)
        } else {
            None
        }
    } else if group == "block"@ {
        if leaf == "bytes"@ {
            Some(StatField::BlockBytes)
        } else if leaf == "allocation"@ {
            Some(StatField::BlockAllocation)
        } else if leaf == "capacity"@ {
            Some(StatField::BlockCapacity)
        } else {
            None
        }
    } else if group == "net"@ {
        if leaf == "bytes"@ {
            Some(StatField::NetBytes)
        } else {
            None
        }
    } else {
        None
    }
}

/// Which dotted keys are collected, and into which counter: exactly
/// `cpu.…time`, `balloon.…current`, `balloon.…maximum`, `block.…bytes`,
/// `block.…allocation`, `block.…capacity` and `net.…bytes` (first and last
/// component); every other key, such as `balloon.rss` or `cpu.user`, is
/// left alone.
pub proof fn lemma_stat_field_keys(g: Seq<char>, l: Seq<char>)
    ensures
        stat_field(g, l) == Some(StatField::CpuTime) <==> (g == "cpu"@ && l == "time"@),
        stat_field(g, l) == Some(StatField::MemCurrent) <==> (g == "balloon"@ && l
            == "current"@),
        stat_field(g, l) == Some(StatField::MemMaximum) <==> (g == "balloon"@ && l
            == "maximum"@),
        stat_field(g, l) == Some(StatField::BlockBytes) <==> (g == "block"@ && l == "bytes"@),
        stat_field(g, l) == Some(StatField::BlockAllocation) <==> (g == "block"@ && l
            == "allocation"@),
        stat_field(g, l) == Some(StatField::BlockCapacity) <==> (g == "block"@ && l
            == "capacity"@),
        stat_field(g, l) == Some(StatField::NetBytes) <==> (g == "net"@ && l == "bytes"@),
        stat_field(g, l) is None <==> !((g == "cpu"@ && l == "time"@) || (g == "balloon"@ && (l
            == "current"@ || l == "maximum"@)) || (g == "block"@ && (l == "bytes"@ || l
            == "allocation"@ || l == "capacity"@)) || (g == "net"@ && l == "bytes"@)),
{
    reveal_strlit("cpu");
    reveal_strlit("time");
    reveal_strlit("balloon");
    reveal_strlit("current");
    reveal_strlit("maximum");
    reveal_strlit("block");
    reveal_strlit("bytes");
    reveal_strlit("allocation");
    reveal_strlit("capacity");
    reveal_strlit("net");
    assert("cpu"@ != "balloon"@) by {
        assert("cpu"@.len() != "balloon"@.len());
    }
    assert("cpu"@ != "block"@) by {
        assert("cpu"@.len() != "block"@.len());
    }
    assert("cpu"@ != "net"@) by {
        assert("cpu"@[0] != "net"@[0]);
    }
    assert("balloon"@ != "block"@) by {
        assert("balloon"@.len() != "block"@.len());
    }
    assert("balloon"@ != "net"@) by {
        assert("balloon"@.len() != "net"@.len());
    }
    assert("block"@ != "net"@) by {
        assert("block"@.len() != "net"@.len());
    }
    assert("current"@ != "maximum"@) by {
        assert("current"@[0] != "maximum"@[0]);
    }
    assert("bytes"@ != "allocation"@) by {
        assert("bytes"@.len() != "allocation"@.len());
    }
    assert("bytes"@ != "capacity"@) by {
        assert("bytes"@.len() != "capacity"@.len());
    }
    assert("allocation"@ != "capacity"@) by {
        assert("allocation"@.len() != "capacity"@.len());
    }
}

/// Whether values of this counter are summed over all lines (byte counts
/// of several devices) rather than replaced by the last one.
pub open spec fn is_summed(f: StatField) -> bool {
    f is BlockBytes || f is NetBytes
}

/// The current value of a counter.
pub open spec fn field_value(m: VmStatsModel, f: StatField) -> int {
    match f {
        StatField::CpuTime => m.cpu,
        StatField::MemCurrent => m.mem_cur,
        StatField::MemMaximum => m.mem_max,
        StatField::BlockBytes => m.io,
        StatField::BlockAllocation => m.allocation,
        StatField::BlockCapacity => m.capacity,
        StatField::NetBytes => m.net,
    }
}

/// `m` with the counter `f` set to `v`.
pub open spec fn with_field(m: VmStatsModel, f: StatField, v: int) -> VmStatsModel {
    match f {
        StatField::CpuTime => VmStatsModel { cpu: v, ..m },
        StatField::MemCurrent => VmStatsModel { mem_cur: v, ..m },
        StatField::MemMaximum => VmStatsModel { mem_max: v, ..m },
        StatField::BlockBytes => VmStatsModel { io: v, ..m },
        StatField::BlockAllocation => VmStatsModel { allocation: v, ..m },
        StatField::BlockCapacity => VmStatsModel { capacity: v, ..m },
        StatField::NetBytes => VmStatsModel { net: v, ..m },
    }
}

/// The new value of counter `f` after a line with value `v`.
pub open spec fn updated_value(m: VmStatsModel, f: StatField, v: int) -> int {
    if is_summed(f) {
        field_value(m, f) + v
    } else {
        v
    }
}

/// `m` after a statistics line for counter `f` with value `v`.
pub open spec fn apply_stat(m: VmStatsModel, f: StatField, v: int) -> VmStatsModel {
    with_field(m, f, updated_value(m, f, v))
}

/// What a (trimmed) line of the report means.
pub enum LineKind {
    /// A `Domain: '<name>'` header.
    DomainStart(Seq<char>),
    /// A line with `Domain: ` but no quoted name.
    MalformedDomain,
    /// A collected counter with its value.
    Stat(StatField, int),
    /// Anything else.
    Ignored,
}

/// The marker of a domain header line.
pub open spec fn domain_marker() -> Seq<char> {
    "Domain: "@
}

/// The meaning of a trimmed line: a header holds `Domain: `, and the name
/// is the text between its first and second `'`; otherwise `key=value`
/// with `value` an `i64` and `key`'s first and last dotted components
/// naming a collected counter.
pub open spec fn classify(line: Seq<char>) -> LineKind {
    if contains(line, domain_marker()) {
        let parts = split(line, '\'');
        if parts.len() >= 2 {
            LineKind::DomainStart(parts[1])
        } else {
            LineKind::MalformedDomain
        }
    } else {
        let kv = split(line, '=');
        if kv.len() < 2 {
            LineKind::Ignored
        } else {
            match parse_i64(kv[1]) {
                None => LineKind::Ignored,
                Some(v) => {
                    let key = split(kv[0], '.');
                    match stat_field(key[0], key.last()) {
                        Some(f) => LineKind::Stat(f, v as int),
                        None => LineKind::Ignored,
                    }
                },
            }
        }
    }
}

/// A fresh record for a domain.
pub open spec fn new_record(name: Seq<char>) -> VmStatsModel {
    VmStatsModel {
        domain: name,
        instance: Seq::empty(),
        cpu: 0,
        mem_cur: 0,
        mem_max: 0,
        io: 0,
        net: 0,
        allocation: 0,
        capacity: 0,
    }
}

/// The records collected so far and the header lines that held no name.
pub struct Collected {
    pub stats: Seq<VmStatsModel>,
    pub warnings: Seq<Seq<char>>,
}

/// Whether processing `line` is defined: a counter line needs a record to
/// go to, and a summed counter must stay within `i64`.
pub open spec fn step_ok(c: Collected, line: Seq<char>) -> bool {
    match classify(trim(line)) {
        LineKind::Stat(f, v) => c.stats.len() > 0 && i64::MIN <= updated_value(
            c.stats.last(),
            f,
            v,
        ) <= i64::MAX,
        _ => true,
    }
}

/// The state after one raw line of the report.
pub open spec fn step(c: Collected, line: Seq<char>) -> Collected {
    let t = trim(line);
    match classify(t) {
        LineKind::DomainStart(name) => Collected { stats: c.stats.push(new_record(name)), ..c },
        LineKind::MalformedDomain => Collected { warnings: c.warnings.push(t), ..c },
        LineKind::Stat(f, v) => Collected {
            stats: c.stats.update(c.stats.len() - 1, apply_stat(c.stats.last(), f, v)),
            ..c
        },
        LineKind::Ignored => c,
    }
}

/// The lines of a text, as `str::lines` yields them up to the `\r` of a
/// `\r\n` ending (which trimming removes anyway): the pieces between `\n`s,
/// without the empty piece after a final `\n`.
pub open spec fn lines_of(text: Seq<char>) -> Seq<Seq<char>> {
    let p = split(text, '\n');
    if p.last().len() == 0 {
        p.drop_last()
    } else {
        p
    }
}

/// The state after a sequence of lines, from an empty start.
pub open spec fn collect_lines(lines: Seq<Seq<char>>) -> Collected
    decreases lines.len(),
{
    if lines.len() == 0 {
        Collected { stats: Seq::empty(), warnings: Seq::empty() }
    } else {
        step(collect_lines(lines.drop_last()), lines.last())
    }
}

/// Whether every line of the sequence can be processed in turn.
pub open spec fn collect_lines_ok(lines: Seq<Seq<char>>) -> bool
    decreases lines.len(),
{
    lines.len() == 0 || (collect_lines_ok(lines.drop_last()) && step_ok(
        collect_lines(lines.drop_last()),
        lines.last(),
    ))
}

/// The records and warnings for a whole report.
pub open spec fn collect(text: Seq<char>) -> Collected {
    collect_lines(lines_of(text))
}

/// Whether a whole report can be read: no counter line before the first
/// header, and no summed counter beyond the range of `i64`.
pub open spec fn collect_ok(text: Seq<char>) -> bool {
    collect_lines_ok(lines_of(text))
}

/// The records read from a report and the header lines without a name.
pub struct DomStats {
    pub stats: Vec<VmStats>,
    /// Trimmed lines that hold `Domain: ` but no quoted name.
    pub warnings: Vec<String>,
}

impl View for DomStats {
    type V = Collected;

    open spec fn view(&self) -> Collected {
        Collected {
            stats: models(self.stats@),
            warnings: self.warnings@.map_values(|w: String| w@),
        }
    }
}

/// Executable `stat_field`.
pub fn stat_field_of(group: &Vec<char>, leaf: &Vec<char>) -> (r: Option<StatField>)
    ensures
        r == stat_field(group@, leaf@),
{
    if chars_eq(group, &chars_of("cpu")) {
        if chars_eq(leaf, &chars_of("time")) {
            Some(StatField::CpuTime)
        } else {
            None
        }
    } else if chars_eq(group, &chars_of("balloon")) {
        if chars_eq(leaf, &chars_of("current")) {
            Some(StatField::MemCurrent)
        } else if chars_eq(leaf, &chars_of("maximum")) {
            Some(StatField::MemMaximum)
        } else {
            None
        }
    } else if chars_eq(group, &chars_of("block")) {
        if chars_eq(leaf, &chars_of("bytes")) {
            Some(StatField::BlockBytes)
        } else if chars_eq(leaf, &chars_of("allocation")) {
            Some(StatField::BlockAllocation)
        } else if chars_eq(leaf, &chars_of("capacity")) {
            Some(StatField::BlockCapacity)
        } else {
            None
        }
    } else if chars_eq(group, &chars_of("net")) {
        if chars_eq(leaf, &chars_of("bytes")) {
            Some(StatField::NetBytes)
        } else {
            None
        }
    } else {
        None
    }
}

/// The executable counterpart of [`LineKind`].
pub enum LineClass {
    DomainStart(Vec<char>),
    MalformedDomain,
    Stat(StatField, i64),
    Ignored,
}

/// The meaning that a [`LineClass`] stands for.
pub open spec fn class_kind(c: LineClass) -> LineKind {
    match c {
        LineClass::DomainStart(name) => LineKind::DomainStart(name@),
        LineClass::MalformedDomain => LineKind::MalformedDomain,
        LineClass::Stat(f, v) => LineKind::Stat(f, v as int),
        LineClass::Ignored => LineKind::Ignored,
    }
}

/// Executable `classify`.
pub fn classify_line(line: &Vec<char>) -> (r: LineClass)
    ensures
        class_kind(r) == classify(line@),
{
    if contains_chars(line, &chars_of("Domain: ")) {
        let parts = split_chars(line, '\'');
        if parts.len() >= 2 {
            let name = parts[1].clone();
            assert(views(parts@)[1] == parts@[1]@);
            LineClass::DomainStart(name)
        } else {
            LineClass::MalformedDomain
        }
    } else {
        let kv = split_chars(line, '=');
        if kv.len() < 2 {
            return LineClass::Ignored;
        }
        assert(views(kv@)[1] == kv@[1]@);
        assert(views(kv@)[0] == kv@[0]@);
        match parse_i64_chars(&kv[1]) {
            None => LineClass::Ignored,
            Some(v) => {
                let key = split_chars(&kv[0], '.');
                proof {
                    lemma_split_nonempty(kv@[0]@, '.');
                }
                let last = key.len() - 1;
                assert(views(key@)[0] == key@[0]@);
                assert(views(key@)[last as int] == key@[last as int]@);
                match stat_field_of(&key[0], &key[last]) {
                    Some(f) => LineClass::Stat(f, v),
                    None => LineClass::Ignored,
                }
            },
        }
    }
}

/// Applies a counter line to a record.  Returns `false`, leaving the record
/// as it was, exactly when a summed counter would leave the range of `i64`.
fn apply_stat_to(m: &mut VmStats, f: StatField, v: i64) -> (r: bool)
    ensures
        r == (i64::MIN <= updated_value(old(m)@, f, v as int) <= i64::MAX),
        r ==> final(m)@ == apply_stat(old(m)@, f, v as int),
        !r ==> final(m)@ == old(m)@,
{
    match f {
        StatField::CpuTime => {
            m.cpu = v;
        },
        StatField::MemCurrent => {
            m.mem_cur = v;
        },
        StatField::MemMaximum => {
            m.mem_max = v;
        },
        StatField::BlockBytes => {
            match m.io.checked_add(v) {
                Some(s) => {
                    m.io = s;
                },
                None => {
                    return false;
                },
            }
        },
        StatField::BlockAllocation => {
            m.allocation = v;
        },
        StatField::BlockCapacity => {
            m.capacity = v;
        },
        StatField::NetBytes => {
            match m.net.checked_add(v) {
                Some(s) => {
                    m.net = s;
                },
                None => {
                    return false;
                },
            }
        },
    }
    true
}

impl DomStats {
    /// No records and no warnings.
    pub fn new() -> (r: DomStats)
        ensures
            r@.stats == Seq::<VmStatsModel>::empty(),
            r@.warnings == Seq::<Seq<char>>::empty(),
    {
        let r = DomStats { stats: Vec::new(), warnings: Vec::new() };
        assert(r@.stats =~= Seq::<VmStatsModel>::empty());
        assert(r@.warnings =~= Seq::<Seq<char>>::empty());
        r
    }

    /// Processes one raw line of the report.  Returns `false`, leaving the
    /// state as it was, exactly when the line cannot be processed (see
    /// [`step_ok`]).
    pub fn apply_line(&mut self, line: &Vec<char>) -> (r: bool)
        ensures
            r == step_ok(old(self)@, line@),
            r ==> final(self)@ == step(old(self)@, line@),
            !r ==> final(self)@ == old(self)@,
    {
        let t = trim_chars(line);
        match classify_line(&t) {
            LineClass::DomainStart(name) => {
                let rec = VmStats {
                    domain: string_from_chars(&name),
                    instance: String::new(),
                    cpu: 0,
                    mem_cur: 0,
                    mem_max: 0,
                    io: 0,
                    net: 0,
                    allocation: 0,
                    capacity: 0,
                };
                let ghost before = self.stats@;
                self.stats.push(rec);
                assert(models(self.stats@) =~= models(before).push(new_record(name@)));
                true
            },
            LineClass::MalformedDomain => {
                let w = string_from_chars(&t);
                let ghost before = self.warnings@;
                self.warnings.push(w);
                assert(self.warnings@.map_values(|w: String| w@) =~= before.map_values(
                    |w: String| w@,
                ).push(t@));
                true
            },
            LineClass::Stat(f, v) => {
                if self.stats.len() == 0 {
                    return false;
                }
                let ghost before = self.stats@;
                let mut m = self.stats.pop().unwrap();
                assert(m == before.last());
                let ok = apply_stat_to(&mut m, f, v);
                self.stats.push(m);
                if ok {
                    assert(models(self.stats@) =~= models(before).update(
                        before.len() - 1,
                        apply_stat(before.last()@, f, v as int),
                    ));
                } else {
                    assert(models(self.stats@) =~= models(before));
                }
                ok
            },
            LineClass::Ignored => true,
        }
    }
}

/// Reads a whole report, or gives `None` exactly when the report holds a
/// counter line before any header or a summed counter beyond `i64`.
pub fn try_collect_domstats(text: &str) -> (r: Option<DomStats>)
    ensures
        r is Some <==> collect_ok(text@),
        r matches Some(d) ==> d@ == collect(text@),
{
    let chars = chars_of(text);
    let pieces = split_chars(&chars, '\n');
    proof {
        lemma_split_nonempty(text@, '\n');
    }
    let ghost lines = lines_of(text@);
    let total = pieces.len();
    let count = if pieces[total - 1].len() == 0 {
        total - 1
    } else {
        total
    };
    assert(views(pieces@)[total - 1] == pieces@[total - 1]@);
    assert(lines.len() == count);
    assert(forall|j: int| 0 <= j < count ==> #[trigger] lines[j] == pieces@[j]@);
    let mut acc = DomStats::new();
    assert(lines.take(0) =~= Seq::<Seq<char>>::empty());
    for i in 0..count
        invariant
            lines == lines_of(text@),
            count == lines.len(),
            count <= pieces@.len(),
            forall|j: int| 0 <= j < count ==> #[trigger] lines[j] == pieces@[j]@,
            collect_lines_ok(lines.take(i as int)),
            acc@ == collect_lines(lines.take(i as int)),
    {
        assert(lines.take(i + 1).drop_last() == lines.take(i as int));
        assert(lines.take(i + 1).last() == lines[i as int]);
        let ghost before = acc@;
        if !acc.apply_line(&pieces[i]) {
            proof {
                assert(!step_ok(before, lines[i as int]));
                assert(!collect_lines_ok(lines.take(i + 1)));
                if collect_lines_ok(lines) {
                    lemma_collect_ok_prefix(lines, i + 1);
                }
            }
            return None;
        }
    }
    assert(lines.take(count as int) == lines);
    Some(acc)
}

/// A report can be read only if each of its prefixes can.
proof fn lemma_collect_ok_prefix(lines: Seq<Seq<char>>, k: int)
    requires
        0 <= k <= lines.len(),
        collect_lines_ok(lines),
    ensures
        collect_lines_ok(lines.take(k)),
    decreases lines.len() - k,
{
    if k < lines.len() {
        if k + 1 == lines.len() {
            assert(lines.take(k + 1) == lines);
        } else {
            lemma_collect_ok_prefix(lines, k + 1);
        }
        assert(lines.take(k + 1).drop_last() == lines.take(k));
    } else {
        assert(lines.take(k) == lines);
    }
}

/// Reads a whole report that [`collect_ok`] admits.
pub fn collect_domstats(text: &str) -> (r: DomStats)
    requires
        collect_ok(text@),
    ensures
        r@ == collect(text@),
{
    match try_collect_domstats(text) {
        Some(d) => d,
        None => {
            assert(false);
            DomStats::new()
        },
    }
}

/// What a counter line does: only the most recent record changes, and only
/// in the counter the line names.  `cpu.time`, `balloon.current`,
/// `balloon.maximum`, `block.…allocation` and `block.…capacity` replace the
/// counter by the line's value; `block.…bytes` and `net.…bytes` add it to
/// the I/O and network totals.
pub proof fn lemma_counter_line_effect(c: Collected, line: Seq<char>)
    requires
        step_ok(c, line),
        classify(trim(line)) is Stat,
    ensures
        ({
            let n = step(c, line);
            let old_rec = c.stats.last();
            let new_rec = n.stats.last();
            let v = classify(trim(line))->Stat_1;
            &&& c.stats.len() > 0
            &&& n.stats.len() == c.stats.len()
            &&& n.warnings == c.warnings
            &&& forall|k: int| 0 <= k < c.stats.len() - 1 ==> #[trigger] n.stats[k] == c.stats[k]
            &&& match classify(trim(line))->Stat_0 {
                StatField::CpuTime => new_rec == VmStatsModel { cpu: v, ..old_rec },
                StatField::MemCurrent => new_rec == VmStatsModel { mem_cur: v, ..old_rec },
                StatField::MemMaximum => new_rec == VmStatsModel { mem_max: v, ..old_rec },
                StatField::BlockBytes => new_rec == VmStatsModel { io: old_rec.io + v, ..old_rec },
                StatField::BlockAllocation => new_rec == VmStatsModel {
                    allocation: v,
                    ..old_rec
                },
                StatField::BlockCapacity => new_rec == VmStatsModel { capacity: v, ..old_rec },
                StatField::NetBytes => new_rec == VmStatsModel {
                    net: old_rec.net + v,
                    ..old_rec
                },
            }
        }),
{
}

/// What a header is: a trimmed line that holds `Domain: ` and a `'`; the
/// name is the text after its first `'` up to the next `'` or the end of
/// the line.  A line with `Domain: ` but no `'` is reported, not read.
pub proof fn lemma_header_name(t: Seq<char>)
    ensures
        classify(t) is DomainStart <==> contains(t, domain_marker()) && t.contains('\''),
        classify(t) is MalformedDomain <==> contains(t, domain_marker()) && !t.contains('\''),
        classify(t) matches LineKind::DomainStart(name) ==> exists|a: Seq<char>, rest: Seq<char>|
            #![trigger a.contains('\''), rest.len()]
            t == a + seq!['\''] + name + rest && !a.contains('\'') && !name.contains('\'') && (
            rest.len() == 0 || rest[0] == '\''),
{
    let p = split(t, '\'');
    lemma_split_join(t, '\'');
    crate::text::lemma_split_nonempty(t, '\'');
    if p.len() >= 2 {
        crate::text::lemma_split_second(t, '\'');
        let rest = choose|rest: Seq<char>|
            t == p[0] + seq!['\''] + p[1] + rest && (rest.len() == 0 || rest[0] == '\'')
                && !p[0].contains('\'') && !p[1].contains('\'');
        assert(t[p[0].len() as int] == '\'');
        assert(t.contains('\''));
        let a = p[0];
        let name = p[1];
        assert(t == a + seq!['\''] + name + rest && !a.contains('\'') && !name.contains('\'')
            && (rest.len() == 0 || rest[0] == '\''));
        assert(classify(t) matches LineKind::DomainStart(n) ==> n == name);
    } else {
        assert(p.len() == 1);
        assert(p =~= seq![p[0]]);
        assert(join(p, seq!['\'']) == p[0]);
        assert(!t.contains('\''));
    }
}

/// The names of the header lines among `lines`, in order.
pub open spec fn header_names(lines: Seq<Seq<char>>) -> Seq<Seq<char>>
    decreases lines.len(),
{
    if lines.len() == 0 {
        Seq::empty()
    } else {
        let p = header_names(lines.drop_last());
        match classify(trim(lines.last())) {
            LineKind::DomainStart(name) => p.push(name),
            _ => p,
        }
    }
}

/// There is one record per named header line, in the order of the headers:
/// counter lines and malformed headers never add, drop or rename a record.
pub proof fn lemma_records_follow_headers(lines: Seq<Seq<char>>)
    requires
        collect_lines_ok(lines),
    ensures
        domains_of(collect_lines(lines).stats) == header_names(lines),
    decreases lines.len(),
{
    if lines.len() == 0 {
        assert(domains_of(collect_lines(lines).stats) =~= Seq::<Seq<char>>::empty());
    } else {
        let p = lines.drop_last();
        lemma_records_follow_headers(p);
        let c = collect_lines(p);
        let t = trim(lines.last());
        match classify(t) {
            LineKind::DomainStart(name) => {
                assert(domains_of(c.stats.push(new_record(name))) =~= domains_of(c.stats).push(
                    name,
                ));
            },
            LineKind::Stat(f, v) => {
                let m = apply_stat(c.stats.last(), f, v);
                assert(m.domain == c.stats.last().domain);
                assert(domains_of(c.stats.update(c.stats.len() - 1, m)) =~= domains_of(
                    c.stats,
                ));
            },
            _ => {},
        }
    }
}

} // verus!
