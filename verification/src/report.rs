//! The rows of the resource table: one per domain, with the counters scaled
//! for display and the largest consumers of CPU, I/O and network marked.
//!
//! The largest consumers are found on the raw counter values, before
//! scaling, so two different values that scale to the same displayed number
//! are never both taken for the largest.

use vstd::prelude::*;
use crate::domstats::{models, VmStats, VmStatsModel};
use crate::text::{
    i64_to_chars, int_text, lemma_int_text_chars, lemma_int_text_parses, parse_i64, push_all,
    string_from_chars,
};

verus! {

/// Divisor for CPU time (nanoseconds, shown in seconds) and for byte counts
/// (shown in gigabytes).
pub const GIGA: i64 = 1000000000;

/// Divisor for the memory counters, which are in KiB: the table shows them
/// in millions of KiB (about gigabytes).
pub const MEGA: i64 = 1000000;

/// Integer division that rounds toward zero, as `/` on `i64` does.
pub open spec fn trunc_div(a: int, b: int) -> int {
    if a >= 0 {
        a / b
    } else {
        -((-a) / b)
    }
}

/// Executable `trunc_div` for a positive divisor.
pub fn div_toward_zero(a: i64, b: i64) -> (r: i64)
    requires
        b > 0,
    ensures
        r as int == trunc_div(a as int, b as int),
{
    if a >= 0 {
        ((a as u64) / (b as u64)) as i64
    } else {
        let m: u64 = (0i128 - (a as i128)) as u64;
        let q: u64 = m / (b as u64);
        assert(q <= m);
        (0i128 - (q as i128)) as i64
    }
}

/// The largest of a non-empty sequence.
pub open spec fn greatest(s: Seq<int>) -> int
    decreases s.len(),
{
    if s.len() <= 1 {
        s[0]
    } else {
        let g = greatest(s.drop_last());
        if s.last() > g {
            s.last()
        } else {
            g
        }
    }
}

/// The largest value, or `0` when there is none (`max().unwrap_or(0)`).
pub open spec fn top(s: Seq<int>) -> int {
    if s.len() == 0 {
        0
    } else {
        greatest(s)
    }
}

/// The CPU counters of the records.
pub open spec fn cpus(stats: Seq<VmStatsModel>) -> Seq<int> {
    stats.map_values(|m: VmStatsModel| m.cpu)
}

/// The I/O counters of the records.
pub open spec fn ios(stats: Seq<VmStatsModel>) -> Seq<int> {
    stats.map_values(|m: VmStatsModel| m.io)
}

/// The network counters of the records.
pub open spec fn nets(stats: Seq<VmStatsModel>) -> Seq<int> {
    stats.map_values(|m: VmStatsModel| m.net)
}

/// The text of one table row.
pub struct RowModel {
    pub domain: Seq<char>,
    pub instance: Seq<char>,
    pub cpu: Seq<char>,
    pub mem: Seq<char>,
    pub io: Seq<char>,
    pub net: Seq<char>,
    pub disk: Seq<char>,
    pub cpu_top: bool,
    pub io_top: bool,
    pub net_top: bool,
}

/// `a/b`, each scaled down by `unit`.
pub open spec fn pair_text(a: int, b: int, unit: int) -> Seq<char> {
    int_text(trunc_div(a, unit)) + seq!['/'] + int_text(trunc_div(b, unit))
}

/// The row of a record, given the largest CPU, I/O and network counters.
pub open spec fn row_of(m: VmStatsModel, cpu_top: int, io_top: int, net_top: int) -> RowModel {
    RowModel {
        domain: m.domain,
        instance: m.instance,
        cpu: int_text(trunc_div(m.cpu, GIGA as int)),
        mem: pair_text(m.mem_cur, m.mem_max, MEGA as int),
        io: int_text(trunc_div(m.io, GIGA as int)),
        net: int_text(trunc_div(m.net, GIGA as int)),
        disk: pair_text(m.allocation, m.capacity, GIGA as int),
        cpu_top: m.cpu == cpu_top,
        io_top: m.io == io_top,
        net_top: m.net == net_top,
    }
}

/// The rows of the table for the records, in order.
pub open spec fn table(stats: Seq<VmStatsModel>) -> Seq<RowModel> {
    Seq::new(
        stats.len(),
        |i: int| row_of(stats[i], top(cpus(stats)), top(ios(stats)), top(nets(stats))),
    )
}

/// One row of the resource table.
pub struct TableRow {
    pub domain: String,
    pub instance: String,
    /// CPU time in seconds.
    pub cpu: String,
    /// `current/maximum` memory.
    pub mem: String,
    /// Block I/O in gigabytes.
    pub io: String,
    /// Network traffic in gigabytes.
    pub net: String,
    /// `allocation/capacity` of the disk in gigabytes.
    pub disk: String,
    /// Whether this domain used the most CPU.
    pub cpu_top: bool,
    /// Whether this domain did the most block I/O.
    pub io_top: bool,
    /// Whether this domain moved the most network traffic.
    pub net_top: bool,
}

impl View for TableRow {
    type V = RowModel;

    open spec fn view(&self) -> RowModel {
        RowModel {
            domain: self.domain@,
            instance: self.instance@,
            cpu: self.cpu@,
            mem: self.mem@,
            io: self.io@,
            net: self.net@,
            disk: self.disk@,
            cpu_top: self.cpu_top,
            io_top: self.io_top,
            net_top: self.net_top,
        }
    }
}

/// The views of a sequence of rows.
pub open spec fn row_views(rows: Seq<TableRow>) -> Seq<RowModel> {
    rows.map_values(|r: TableRow| r@)
}

/// The greatest element of a sequence is one of its elements, and no element
/// exceeds it.
pub proof fn lemma_greatest(s: Seq<int>)
    requires
        s.len() > 0,
    ensures
        exists|i: int| 0 <= i < s.len() && s[i] == greatest(s),
        forall|i: int| 0 <= i < s.len() ==> s[i] <= greatest(s),
    decreases s.len(),
{
    if s.len() > 1 {
        let p = s.drop_last();
        lemma_greatest(p);
        let k = choose|i: int| 0 <= i < p.len() && p[i] == greatest(p);
        if s.last() > greatest(p) {
            assert(s[s.len() - 1] == greatest(s));
        } else {
            assert(s[k] == greatest(s));
        }
        assert forall|i: int| 0 <= i < s.len() implies s[i] <= greatest(s) by {
            if i < s.len() - 1 {
                assert(s[i] == p[i]);
            }
        }
    } else {
        assert(s[0] == greatest(s));
    }
}

/// A counter on which the largest consumer is marked.
pub enum Counter {
    Cpu,
    Io,
    Net,
}

/// The counter of a record.
pub open spec fn counter_of(m: VmStatsModel, c: Counter) -> int {
    match c {
        Counter::Cpu => m.cpu,
        Counter::Io => m.io,
        Counter::Net => m.net,
    }
}

/// The counters of the records.
pub open spec fn counters(stats: Seq<VmStatsModel>, c: Counter) -> Seq<int> {
    match c {
        Counter::Cpu => cpus(stats),
        Counter::Io => ios(stats),
        Counter::Net => nets(stats),
    }
}

fn counter_exec(s: &VmStats, c: &Counter) -> (r: i64)
    ensures
        r as int == counter_of(s@, *c),
{
    match c {
        Counter::Cpu => s.cpu,
        Counter::Io => s.io,
        Counter::Net => s.net,
    }
}

/// The largest counter of the records, or `0` without records.
pub fn top_counter(stats: &Vec<VmStats>, c: Counter) -> (r: i64)
    ensures
        r as int == top(counters(models(stats@), c)),
{
    let ghost vals = counters(models(stats@), c);
    let n = stats.len();
    if n == 0 {
        return 0;
    }
    let mut best = counter_exec(&stats[0], &c);
    assert(vals.take(1).len() == 1);
    assert(vals.take(1)[0] == vals[0]);
    for i in 1..n
        invariant
            n == stats@.len(),
            vals == counters(models(stats@), c),
            vals.len() == n,
            forall|j: int| 0 <= j < n ==> #[trigger] vals[j] == counter_of(stats@[j]@, c),
            best as int == greatest(vals.take(i as int)),
    {
        let v = counter_exec(&stats[i], &c);
        assert(vals.take(i + 1).drop_last() == vals.take(i as int));
        assert(vals.take(i + 1).last() == vals[i as int]);
        if v > best {
            best = v;
        }
    }
    assert(vals.take(n as int) == vals);
    best
}

/// `a/b`, each scaled down by `unit`, as text.
fn pair_chars(a: i64, b: i64, unit: i64) -> (r: String)
    requires
        unit > 0,
    ensures
        r@ == pair_text(a as int, b as int, unit as int),
{
    let mut v = i64_to_chars(div_toward_zero(a, unit));
    v.push('/');
    let w = i64_to_chars(div_toward_zero(b, unit));
    push_all(&mut v, &w);
    string_from_chars(&v)
}

/// The row of one record.
fn row_for(m: &VmStats, cpu_top: i64, io_top: i64, net_top: i64) -> (r: TableRow)
    ensures
        r@ == row_of(m@, cpu_top as int, io_top as int, net_top as int),
{
    TableRow {
        domain: m.domain.clone(),
        instance: m.instance.clone(),
        cpu: string_from_chars(&i64_to_chars(div_toward_zero(m.cpu, GIGA))),
        mem: pair_chars(m.mem_cur, m.mem_max, MEGA),
        io: string_from_chars(&i64_to_chars(div_toward_zero(m.io, GIGA))),
        net: string_from_chars(&i64_to_chars(div_toward_zero(m.net, GIGA))),
        disk: pair_chars(m.allocation, m.capacity, GIGA),
        cpu_top: m.cpu == cpu_top,
        io_top: m.io == io_top,
        net_top: m.net == net_top,
    }
}

/// The rows of the resource table for the records, in order.
pub fn table_rows(stats: &Vec<VmStats>) -> (rows: Vec<TableRow>)
    ensures
        row_views(rows@) == table(models(stats@)),
{
    let cpu_top = top_counter(stats, Counter::Cpu);
    let io_top = top_counter(stats, Counter::Io);
    let net_top = top_counter(stats, Counter::Net);
    let ghost ms = models(stats@);
    let mut rows: Vec<TableRow> = Vec::new();
    let n = stats.len();
    for i in 0..n
        invariant
            n == stats@.len(),
            ms == models(stats@),
            cpu_top as int == top(cpus(ms)),
            io_top as int == top(ios(ms)),
            net_top as int == top(nets(ms)),
            rows@.len() == i,
            forall|j: int| 0 <= j < i ==> #[trigger] rows@[j]@ == table(ms)[j],
    {
        let r = row_for(&stats[i], cpu_top, io_top, net_top);
        rows.push(r);
    }
    assert(row_views(rows@) =~= table(ms));
    rows
}

/// Marking follows the raw counters: in a non-empty table some row is marked
/// for each of CPU, I/O and network, a row is marked exactly when its raw
/// counter is the largest, and a marked row's counter is at least that of
/// every other row.
pub proof fn lemma_top_marks(stats: Seq<VmStatsModel>)
    requires
        stats.len() > 0,
    ensures
        exists|i: int| 0 <= i < stats.len() && #[trigger] table(stats)[i].cpu_top,
        exists|i: int| 0 <= i < stats.len() && #[trigger] table(stats)[i].io_top,
        exists|i: int| 0 <= i < stats.len() && #[trigger] table(stats)[i].net_top,
        forall|i: int, j: int|
            0 <= i < stats.len() && 0 <= j < stats.len() && #[trigger] table(stats)[i].cpu_top
                ==> stats[i].cpu >= #[trigger] stats[j].cpu,
        forall|i: int, j: int|
            0 <= i < stats.len() && 0 <= j < stats.len() && #[trigger] table(stats)[i].io_top
                ==> stats[i].io >= #[trigger] stats[j].io,
        forall|i: int, j: int|
            0 <= i < stats.len() && 0 <= j < stats.len() && #[trigger] table(stats)[i].net_top
                ==> stats[i].net >= #[trigger] stats[j].net,
{
    lemma_greatest(cpus(stats));
    lemma_greatest(ios(stats));
    lemma_greatest(nets(stats));
    let a = choose|i: int| 0 <= i < stats.len() && cpus(stats)[i] == greatest(cpus(stats));
    let b = choose|i: int| 0 <= i < stats.len() && ios(stats)[i] == greatest(ios(stats));
    let c = choose|i: int| 0 <= i < stats.len() && nets(stats)[i] == greatest(nets(stats));
    assert(table(stats)[a].cpu_top);
    assert(table(stats)[b].io_top);
    assert(table(stats)[c].net_top);
    assert forall|i: int, j: int|
        0 <= i < stats.len() && 0 <= j < stats.len() && #[trigger] table(stats)[i].cpu_top
            implies stats[i].cpu >= #[trigger] stats[j].cpu by {
        assert(cpus(stats)[j] <= greatest(cpus(stats)));
    }
    assert forall|i: int, j: int|
        0 <= i < stats.len() && 0 <= j < stats.len() && #[trigger] table(stats)[i].io_top
            implies stats[i].io >= #[trigger] stats[j].io by {
        assert(ios(stats)[j] <= greatest(ios(stats)));
    }
    assert forall|i: int, j: int|
        0 <= i < stats.len() && 0 <= j < stats.len() && #[trigger] table(stats)[i].net_top
            implies stats[i].net >= #[trigger] stats[j].net by {
        assert(nets(stats)[j] <= greatest(nets(stats)));
    }
}

/// Each row shows its own record: the domain and instance names, the CPU
/// time, I/O and network counters divided by `GIGA`, the memory cell as the
/// current then the maximum memory divided by `MEGA` with a `/` between,
/// and the disk cell as the allocation then the capacity divided by `GIGA`
/// with a `/` between (all divisions rounding toward zero).
pub proof fn lemma_row_cells(stats: Seq<VmStatsModel>, i: int)
    requires
        0 <= i < stats.len(),
    ensures
        table(stats).len() == stats.len(),
        table(stats)[i].domain == stats[i].domain,
        table(stats)[i].instance == stats[i].instance,
        table(stats)[i].cpu == int_text(trunc_div(stats[i].cpu, 1000000000)),
        table(stats)[i].mem == int_text(trunc_div(stats[i].mem_cur, 1000000)) + seq!['/']
            + int_text(trunc_div(stats[i].mem_max, 1000000)),
        table(stats)[i].io == int_text(trunc_div(stats[i].io, 1000000000)),
        table(stats)[i].net == int_text(trunc_div(stats[i].net, 1000000000)),
        table(stats)[i].disk == int_text(trunc_div(stats[i].allocation, 1000000000)) + seq!['/']
            + int_text(trunc_div(stats[i].capacity, 1000000000)),
{
}

/// Dividing rounding toward zero by a positive number stays within `i64`.
proof fn lemma_trunc_div_bounds(a: i64, b: int)
    requires
        b >= 1,
    ensures
        i64::MIN <= trunc_div(a as int, b) <= i64::MAX,
{
    if a >= 0 {
        assert(0 <= (a as int) / b <= a as int) by (nonlinear_arith)
            requires
                a >= 0,
                b >= 1,
        ;
    } else {
        let m = -(a as int);
        assert(0 <= m / b <= m) by (nonlinear_arith)
            requires
                m > 0,
                b >= 1,
        ;
    }
}

/// A two-part cell `x/y` reads back as the two scaled values: the text
/// before the only `/` parses to `a` divided by `unit` and the text after it
/// to `b` divided by `unit`.
pub proof fn lemma_pair_text_reads_back(a: i64, b: i64, unit: int)
    requires
        unit >= 1,
    ensures
        exists|x: Seq<char>, y: Seq<char>|
            #![trigger x.contains('/'), y.contains('/')]
            pair_text(a as int, b as int, unit) == x + seq!['/'] + y && !x.contains('/')
                && !y.contains('/') && parse_i64(x) == Some(trunc_div(a as int, unit) as i64)
                && parse_i64(y) == Some(trunc_div(b as int, unit) as i64),
{
    lemma_trunc_div_bounds(a, unit);
    lemma_trunc_div_bounds(b, unit);
    let qa = trunc_div(a as int, unit) as i64;
    let qb = trunc_div(b as int, unit) as i64;
    let x = int_text(qa as int);
    let y = int_text(qb as int);
    lemma_int_text_parses(qa);
    lemma_int_text_parses(qb);
    lemma_int_text_chars(qa as int);
    lemma_int_text_chars(qb as int);
    assert(!x.contains('/')) by {
        if x.contains('/') {
            let i = choose|i: int| 0 <= i < x.len() && x[i] == '/';
            assert(is_digit_or_minus(x[i]));
        }
    }
    assert(!y.contains('/')) by {
        if y.contains('/') {
            let i = choose|i: int| 0 <= i < y.len() && y[i] == '/';
            assert(is_digit_or_minus(y[i]));
        }
    }
    assert(pair_text(a as int, b as int, unit) == x + seq!['/'] + y);
}

spec fn is_digit_or_minus(c: char) -> bool {
    crate::text::is_digit(c) || c == '-'
}

/// In every row the memory cell reads back as the record's current memory
/// and then its maximum memory, each divided by `MEGA`; the disk cell reads
/// back as its allocation and then its capacity, each divided by `GIGA`.
pub proof fn lemma_row_pairs_read_back(stats: Seq<VmStats>, i: int)
    requires
        0 <= i < stats.len(),
    ensures
        exists|x: Seq<char>, y: Seq<char>|
            #![trigger x.contains('/'), y.contains('/')]
            table(models(stats))[i].mem == x + seq!['/'] + y && !x.contains('/') && !y.contains(
                '/',
            ) && parse_i64(x) == Some(trunc_div(stats[i].mem_cur as int, 1000000) as i64)
                && parse_i64(y) == Some(trunc_div(stats[i].mem_max as int, 1000000) as i64),
        exists|x: Seq<char>, y: Seq<char>|
            #![trigger x.contains('/'), y.contains('/')]
            table(models(stats))[i].disk == x + seq!['/'] + y && !x.contains('/') && !y.contains(
                '/',
            ) && parse_i64(x) == Some(trunc_div(stats[i].allocation as int, 1000000000) as i64)
                && parse_i64(y) == Some(trunc_div(stats[i].capacity as int, 1000000000) as i64),
{
    lemma_pair_text_reads_back(stats[i].mem_cur, stats[i].mem_max, 1000000);
    lemma_pair_text_reads_back(stats[i].allocation, stats[i].capacity, 1000000000);
    assert(models(stats)[i] == stats[i]@);
}

} // verus!
