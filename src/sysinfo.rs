//! Parsers of the kernel's CPU, memory and block device statistics.
use vstd::prelude::*;
use vstd::string::StringSliceAdditionalSpecFns;

use crate::models::{CPUStats, DiskBlockStats, MemoryStats};
use crate::text::{
    find, find_in, line_spans, lines, numbers, parse_u64, parse_u64_at, span_eq, trim, trim_span,
    word_spans, words,
};

verus! {

/// Size of a sector in the block device statistics.
pub const SECTOR_SIZE: u64 = 512;

/// Why a statistics line was refused.
#[derive(Debug, Clone, Copy, PartialEq, Eq, Structural)]
pub enum StatError {
    /// A CPU line without exactly ten counters.
    InvalidCpuLine,
    /// A CPU statistics report without a line.
    NoCpuLine,
    /// A block device line with fewer than eleven counters.
    InvalidDiskLine,
    /// A sector count whose size in bytes does not fit in 64 bits.
    Overflow,
    /// A memory report line without a `:`, or whose value names no size.
    InvalidMemLine,
}

/// `w` without every leading repetition of `cpu`.
pub open spec fn strip_cpu(w: Seq<u8>) -> Seq<u8>
    decreases w.len(),
{
    if w.len() >= 3 && w[0] == 99 && w[1] == 112 && w[2] == 117 {
        strip_cpu(w.subrange(3, w.len() as int))
    } else {
        w
    }
}

/// The CPU number of a statistics line: its first word without the `cpu`
/// prefix, read as a number.
pub open spec fn cpu_id(b: Seq<u8>) -> Option<u64> {
    let ws = words(b);
    if ws.len() > 0 {
        parse_u64(strip_cpu(ws[0]))
    } else {
        None
    }
}

/// The counters of a CPU statistics line: the numbers among its words after
/// the first.
pub open spec fn cpu_fields(b: Seq<u8>) -> Seq<u64> {
    let ws = words(b);
    if ws.len() > 0 {
        numbers(ws.drop_first())
    } else {
        seq![]
    }
}

/// The record of a CPU line with number `id` and ten counters `f`.
pub open spec fn cpu_stats_of(id: Option<u64>, f: Seq<u64>) -> CPUStats {
    CPUStats {
        id,
        user: f[0],
        nice: f[1],
        system: f[2],
        idle: f[3],
        iowait: f[4],
        irq: f[5],
        softirq: f[6],
        steal: f[7],
        guest: f[8],
        guest_nice: f[9],
    }
}

/// The counters of a block device statistics line: the numbers among its
/// words.
pub open spec fn disk_fields(b: Seq<u8>) -> Seq<u64> {
    numbers(words(b))
}

/// Whether the record `r` holds the device `path` and the counters `f`, the
/// two sector counts turned into bytes.
pub open spec fn disk_stats_match(r: DiskBlockStats, path: Seq<char>, f: Seq<u64>) -> bool {
    &&& r.path@ == path
    &&& r.reads == f[0]
    &&& r.reads_merged == f[1]
    &&& r.read_bytes == f[2] * SECTOR_SIZE
    &&& r.read_time == f[3]
    &&& r.writes == f[4]
    &&& r.writes_merged == f[5]
    &&& r.write_bytes == f[6] * SECTOR_SIZE
    &&& r.write_time == f[7]
    &&& r.io_in_progress == f[8]
    &&& r.io_time == f[9]
    &&& r.weighted_io_time == f[10]
}

/// The numbers among the words of `b` from word `from` on, where `spans`
/// are the word positions of `b`.
fn numbers_from(b: &[u8], spans: &Vec<(usize, usize)>, from: usize) -> (r: Vec<u64>)
    requires
        from <= spans@.len() == words(b@).len(),
        forall|k: int|
            0 <= k < spans@.len() ==> {
                &&& (#[trigger] spans@[k]).0 <= spans@[k].1 <= b@.len()
                &&& b@.subrange(spans@[k].0 as int, spans@[k].1 as int) == words(b@)[k]
            },
    ensures
        r@ == numbers(words(b@).subrange(from as int, words(b@).len() as int)),
{
    let ghost ws = words(b@);
    let mut r: Vec<u64> = Vec::new();
    let mut k: usize = from;
    assert(ws.subrange(from as int, from as int) =~= Seq::<Seq<u8>>::empty());
    while k < spans.len()
        invariant
            from <= k <= spans@.len() == ws.len(),
            ws == words(b@),
            forall|j: int|
                0 <= j < spans@.len() ==> {
                    &&& (#[trigger] spans@[j]).0 <= spans@[j].1 <= b@.len()
                    &&& b@.subrange(spans@[j].0 as int, spans@[j].1 as int) == ws[j]
                },
            r@ == numbers(ws.subrange(from as int, k as int)),
        decreases spans@.len() - k,
    {
        let (s, e) = spans[k];
        let v = parse_u64_at(b, s, e);
        let ghost next = ws.subrange(from as int, k + 1);
        assert(next.drop_last() =~= ws.subrange(from as int, k as int));
        assert(next.last() == ws[k as int]);
        match v {
            Some(x) => r.push(x),
            None => {},
        }
        k = k + 1;
    }
    r
}

/// Parses the CPU line `b`, as `parse_cpu_stat` does.
fn cpu_stat_bytes(b: &[u8]) -> (r: Result<CPUStats, StatError>)
    ensures
        r is Ok <==> cpu_fields(b@).len() == 10,
        r is Ok ==> r->Ok_0 == cpu_stats_of(cpu_id(b@), cpu_fields(b@)),
        r is Err ==> r->Err_0 == StatError::InvalidCpuLine,
{
    let ghost ws = words(b@);
    let spans = word_spans(b);
    if spans.len() == 0 {
        return Err(StatError::InvalidCpuLine);
    }
    let f = numbers_from(b, &spans, 1);
    assert(ws.subrange(1, ws.len() as int) =~= ws.drop_first());
    let (s0, e0) = spans[0];
    let mut s = s0;
    while e0 - s >= 3 && b[s] == 99 && b[s + 1] == 112 && b[s + 2] == 117
        invariant
            s0 <= s <= e0 <= b@.len(),
            strip_cpu(b@.subrange(s0 as int, e0 as int)) == strip_cpu(
                b@.subrange(s as int, e0 as int),
            ),
        decreases e0 - s,
    {
        assert(b@.subrange(s as int, e0 as int).subrange(3, e0 - s) =~= b@.subrange(
            s + 3,
            e0 as int,
        ));
        s = s + 3;
    }
    let id = parse_u64_at(b, s, e0);
    if f.len() != 10 {
        return Err(StatError::InvalidCpuLine);
    }
    Ok(
        CPUStats {
            id,
            user: f[0],
            nice: f[1],
            system: f[2],
            idle: f[3],
            iowait: f[4],
            irq: f[5],
            softirq: f[6],
            steal: f[7],
            guest: f[8],
            guest_nice: f[9],
        },
    )
}

/// Parses one CPU line of the kernel's statistics (`cpu 1 2 ...` or
/// `cpu3 1 2 ...`): the number after `cpu`, if any, and the ten counters.
pub fn parse_cpu_stat(line: &str) -> (r: Result<CPUStats, StatError>)
    ensures
        r is Ok <==> cpu_fields(line.spec_bytes()).len() == 10,
        r is Ok ==> r->Ok_0 == cpu_stats_of(
            cpu_id(line.spec_bytes()),
            cpu_fields(line.spec_bytes()),
        ),
        r is Err ==> r->Err_0 == StatError::InvalidCpuLine,
{
    cpu_stat_bytes(line.as_bytes())
}

/// The record of the CPU line `b`, or `None` if it does not hold ten
/// counters.
pub open spec fn cpu_stat_of(b: Seq<u8>) -> Option<CPUStats> {
    if cpu_fields(b).len() == 10 {
        Some(cpu_stats_of(cpu_id(b), cpu_fields(b)))
    } else {
        None
    }
}

/// Whether the line `l` starts with `cpu`.
pub open spec fn is_cpu_line(l: Seq<u8>) -> bool {
    l.len() >= 3 && l[0] == 99 && l[1] == 112 && l[2] == 117
}

/// The records of the lines of `ls` that start with `cpu`, in order, or
/// `None` if one of them is not a valid CPU line.
pub open spec fn cpu_list(ls: Seq<Seq<u8>>) -> Option<Seq<CPUStats>>
    decreases ls.len(),
{
    if ls.len() == 0 {
        Some(seq![])
    } else {
        match cpu_list(ls.drop_last()) {
            None => None,
            Some(v) => if is_cpu_line(ls.last()) {
                match cpu_stat_of(ls.last()) {
                    Some(c) => Some(v.push(c)),
                    None => None,
                }
            } else {
                Some(v)
            },
        }
    }
}

/// The CPU report of the statistics lines `ls`: the record of the first
/// line, for all CPUs together, and those of the later lines that start
/// with `cpu`.
pub open spec fn cpu_report(ls: Seq<Seq<u8>>) -> Result<(CPUStats, Seq<CPUStats>), StatError> {
    if ls.len() == 0 {
        Err(StatError::NoCpuLine)
    } else {
        match (cpu_stat_of(ls[0]), cpu_list(ls.drop_first())) {
            (Some(t), Some(v)) => Ok((t, v)),
            _ => Err(StatError::InvalidCpuLine),
        }
    }
}

proof fn lemma_cpu_list_none(ls: Seq<Seq<u8>>, k: int)
    requires
        0 <= k <= ls.len(),
        cpu_list(ls.take(k)) is None,
    ensures
        cpu_list(ls) is None,
    decreases ls.len(),
{
    if k == ls.len() {
        assert(ls.take(k) =~= ls);
    } else {
        assert(ls.drop_last().take(k) =~= ls.take(k));
        lemma_cpu_list_none(ls.drop_last(), k);
    }
}

/// Parses the kernel's CPU statistics report: its first line, for all CPUs
/// together, and each later line that starts with `cpu`.
pub fn parse_proc_stat(text: &str) -> (r: Result<(CPUStats, Vec<CPUStats>), StatError>)
    ensures
        match cpu_report(lines(text.spec_bytes())) {
            Err(e) => r == Err::<(CPUStats, Vec<CPUStats>), StatError>(e),
            Ok((t, v)) => r is Ok && r->Ok_0.0 == t && r->Ok_0.1@ == v,
        },
{
    let b = text.as_bytes();
    let ghost ls = lines(b@);
    let spans = line_spans(b);
    if spans.len() == 0 {
        return Err(StatError::NoCpuLine);
    }
    let (s0, e0) = spans[0];
    let total = match cpu_stat_bytes(&b[s0..e0]) {
        Ok(t) => t,
        Err(e) => return Err(e),
    };
    let ghost rest = ls.drop_first();
    let mut cpus: Vec<CPUStats> = Vec::new();
    let mut k: usize = 1;
    assert(rest.take(0) =~= Seq::<Seq<u8>>::empty());
    while k < spans.len()
        invariant
            1 <= k <= spans@.len() == ls.len(),
            ls == lines(b@),
            b@ == text.spec_bytes(),
            rest == ls.drop_first(),
            cpu_stat_of(ls[0]) == Some(total),
            forall|j: int|
                0 <= j < spans@.len() ==> {
                    &&& (#[trigger] spans@[j]).0 <= spans@[j].1 <= b@.len()
                    &&& b@.subrange(spans@[j].0 as int, spans@[j].1 as int) == ls[j]
                },
            cpu_list(rest.take(k - 1)) == Some(cpus@),
        decreases spans@.len() - k,
    {
        let (s, e) = spans[k];
        let line = &b[s..e];
        assert(line@ == rest[k - 1]);
        assert(rest.take(k as int).drop_last() =~= rest.take(k - 1));
        assert(rest.take(k as int).last() == line@);
        if e - s >= 3 && b[s] == 99 && b[s + 1] == 112 && b[s + 2] == 117 {
            match cpu_stat_bytes(line) {
                Ok(c) => cpus.push(c),
                Err(err) => {
                    proof {
                        assert(cpu_list(rest.take(k as int)) is None);
                        lemma_cpu_list_none(rest, k as int);
                    }
                    return Err(err);
                },
            }
        }
        k = k + 1;
    }
    assert(rest.take(k - 1) =~= rest);
    Ok((total, cpus))
}

/// Parses the statistics line of the block device `path`: its eleven
/// counters, the two sector counts turned into bytes.
pub fn parse_disk_stat(path: &str, line: &str) -> (r: Result<DiskBlockStats, StatError>)
    ensures
        ({
            let f = disk_fields(line.spec_bytes());
            &&& f.len() < 11 ==> r == Err::<DiskBlockStats, StatError>(
                StatError::InvalidDiskLine,
            )
            &&& f.len() >= 11 ==> {
                if f[2] * SECTOR_SIZE > u64::MAX || f[6] * SECTOR_SIZE > u64::MAX {
                    r == Err::<DiskBlockStats, StatError>(StatError::Overflow)
                } else {
                    r is Ok && disk_stats_match(r->Ok_0, path@, f)
                }
            }
        }),
{
    let b = line.as_bytes();
    let ghost ws = words(b@);
    let spans = word_spans(b);
    let f = numbers_from(b, &spans, 0);
    assert(ws.subrange(0, ws.len() as int) =~= ws);
    if f.len() < 11 {
        return Err(StatError::InvalidDiskLine);
    }
    let read_bytes = match f[2].checked_mul(SECTOR_SIZE) {
        Some(v) => v,
        None => return Err(StatError::Overflow),
    };
    let write_bytes = match f[6].checked_mul(SECTOR_SIZE) {
        Some(v) => v,
        None => return Err(StatError::Overflow),
    };
    Ok(
        DiskBlockStats {
            path: path.to_owned(),
            reads: f[0],
            reads_merged: f[1],
            read_bytes,
            read_time: f[3],
            writes: f[4],
            writes_merged: f[5],
            write_bytes,
            write_time: f[7],
            io_in_progress: f[8],
            io_time: f[9],
            weighted_io_time: f[10],
        },
    )
}

/// The figures of the memory report that a `MemoryStats` holds.
#[derive(Debug, Clone, Copy, PartialEq, Eq, Structural)]
pub enum MemKey {
    MemTotal,
    MemFree,
    MemAvailable,
    Buffers,
    Cached,
    SwapTotal,
    SwapFree,
}

/// The number of bytes that the size text `b` names (`16384 kB`), if it
/// names one.
pub uninterp spec fn byte_count_of(b: Seq<u8>) -> Option<u128>;

/// Relies on `byte_unit::Byte::from_str` (its value read by
/// `Byte::get_bytes`): the number of bytes that a size text such as
/// `16384 kB` names, `None` where it names none (or the bytes are not UTF-8).
/// The parse reads the text alone, so equal texts give equal results.
#[verifier::external_body]
fn byte_count(b: &[u8]) -> (r: Option<u128>)
    ensures
        r == byte_count_of(b@),
{
    match std::str::from_utf8(b) {
        Ok(s) => match byte_unit::Byte::from_str(s) {
            Ok(v) => Some(v.get_bytes()),
            Err(_) => None,
        },
        Err(_) => None,
    }
}

/// The name of a figure as it stands in the memory report.
pub open spec fn key_name(k: MemKey) -> Seq<u8> {
    match k {
        MemKey::MemTotal => "MemTotal".spec_bytes(),
        MemKey::MemFree => "MemFree".spec_bytes(),
        MemKey::MemAvailable => "MemAvailable".spec_bytes(),
        MemKey::Buffers => "Buffers".spec_bytes(),
        MemKey::Cached => "Cached".spec_bytes(),
        MemKey::SwapTotal => "SwapTotal".spec_bytes(),
        MemKey::SwapFree => "SwapFree".spec_bytes(),
    }
}

/// The figure that the name `k` stands for, if any.
pub open spec fn mem_key(k: Seq<u8>) -> Option<MemKey> {
    if k == key_name(MemKey::MemTotal) {
        Some(MemKey::MemTotal)
    } else if k == key_name(MemKey::MemFree) {
        Some(MemKey::MemFree)
    } else if k == key_name(MemKey::MemAvailable) {
        Some(MemKey::MemAvailable)
    } else if k == key_name(MemKey::Buffers) {
        Some(MemKey::Buffers)
    } else if k == key_name(MemKey::Cached) {
        Some(MemKey::Cached)
    } else if k == key_name(MemKey::SwapTotal) {
        Some(MemKey::SwapTotal)
    } else if k == key_name(MemKey::SwapFree) {
        Some(MemKey::SwapFree)
    } else {
        None
    }
}

/// The name and the value text of a memory report line `l`: what stands
/// before its first `:` and what stands between that and the next `:` (or
/// the end), both trimmed; `None` for a line without a `:`.
pub open spec fn line_entry(l: Seq<u8>) -> Option<(Seq<u8>, Seq<u8>)> {
    let i = find(l, 58, 0);
    if i == l.len() {
        None
    } else {
        Some((trim(l.subrange(0, i)), trim(l.subrange(i + 1, find(l, 58, i + 1)))))
    }
}

/// The known figures of the memory report lines `ls`, in order, or `None`
/// if a line has no `:` or a value that names no size.
pub open spec fn mem_entries(ls: Seq<Seq<u8>>) -> Option<Seq<(MemKey, u128)>>
    decreases ls.len(),
{
    if ls.len() == 0 {
        Some(seq![])
    } else {
        match (mem_entries(ls.drop_last()), line_entry(ls.last())) {
            (Some(es), Some((k, v))) => match byte_count_of(v) {
                Some(n) => match mem_key(k) {
                    Some(mk) => Some(es.push((mk, n))),
                    None => Some(es),
                },
                None => None,
            },
            _ => None,
        }
    }
}

/// The last value given for `k` in `es`, or 0.
pub open spec fn lookup(es: Seq<(MemKey, u128)>, k: MemKey) -> u128
    decreases es.len(),
{
    if es.len() == 0 {
        0
    } else if es.last().0 == k {
        es.last().1
    } else {
        lookup(es.drop_last(), k)
    }
}

/// The low 64 bits of `x`.
pub open spec fn low64(x: u128) -> u64 {
    (x % 0x1_0000_0000_0000_0000) as u64
}

/// The memory record of the figures `es`.
pub open spec fn memory_stats_of(es: Seq<(MemKey, u128)>) -> MemoryStats {
    MemoryStats {
        total: low64(lookup(es, MemKey::MemTotal)),
        free: low64(lookup(es, MemKey::MemFree)),
        available: low64(lookup(es, MemKey::MemAvailable)),
        buffer: low64(lookup(es, MemKey::Buffers)),
        cached: low64(lookup(es, MemKey::Cached)),
        swap_total: low64(lookup(es, MemKey::SwapTotal)),
        swap_free: low64(lookup(es, MemKey::SwapFree)),
    }
}

fn truncate64(x: u128) -> (r: u64)
    ensures
        r == low64(x),
{
    (x % 0x1_0000_0000_0000_0000) as u64
}

/// The memory record of the figures `es`: for each, the last value given
/// (0 where none is), in its low 64 bits.
pub fn memory_stats_from(es: &[(MemKey, u128)]) -> (r: MemoryStats)
    ensures
        r == memory_stats_of(es@),
{
    let mut total: u128 = 0;
    let mut free: u128 = 0;
    let mut available: u128 = 0;
    let mut buffer: u128 = 0;
    let mut cached: u128 = 0;
    let mut swap_total: u128 = 0;
    let mut swap_free: u128 = 0;
    let mut i: usize = 0;
    while i < es.len()
        invariant
            i <= es@.len(),
            total == lookup(es@.take(i as int), MemKey::MemTotal),
            free == lookup(es@.take(i as int), MemKey::MemFree),
            available == lookup(es@.take(i as int), MemKey::MemAvailable),
            buffer == lookup(es@.take(i as int), MemKey::Buffers),
            cached == lookup(es@.take(i as int), MemKey::Cached),
            swap_total == lookup(es@.take(i as int), MemKey::SwapTotal),
            swap_free == lookup(es@.take(i as int), MemKey::SwapFree),
        decreases es@.len() - i,
    {
        assert(es@.take(i + 1).drop_last() =~= es@.take(i as int));
        let (k, v) = es[i];
        match k {
            MemKey::MemTotal => total = v,
            MemKey::MemFree => free = v,
            MemKey::MemAvailable => available = v,
            MemKey::Buffers => buffer = v,
            MemKey::Cached => cached = v,
            MemKey::SwapTotal => swap_total = v,
            MemKey::SwapFree => swap_free = v,
        }
        i = i + 1;
    }
    assert(es@.take(i as int) =~= es@);
    MemoryStats {
        total: truncate64(total),
        free: truncate64(free),
        available: truncate64(available),
        buffer: truncate64(buffer),
        cached: truncate64(cached),
        swap_total: truncate64(swap_total),
        swap_free: truncate64(swap_free),
    }
}

fn mem_key_at(b: &[u8], start: usize, end: usize) -> (r: Option<MemKey>)
    requires
        start <= end <= b@.len(),
    ensures
        r == mem_key(b@.subrange(start as int, end as int)),
{
    if span_eq(b, start, end, "MemTotal".as_bytes()) {
        Some(MemKey::MemTotal)
    } else if span_eq(b, start, end, "MemFree".as_bytes()) {
        Some(MemKey::MemFree)
    } else if span_eq(b, start, end, "MemAvailable".as_bytes()) {
        Some(MemKey::MemAvailable)
    } else if span_eq(b, start, end, "Buffers".as_bytes()) {
        Some(MemKey::Buffers)
    } else if span_eq(b, start, end, "Cached".as_bytes()) {
        Some(MemKey::Cached)
    } else if span_eq(b, start, end, "SwapTotal".as_bytes()) {
        Some(MemKey::SwapTotal)
    } else if span_eq(b, start, end, "SwapFree".as_bytes()) {
        Some(MemKey::SwapFree)
    } else {
        None
    }
}

proof fn lemma_entries_none(ls: Seq<Seq<u8>>, k: int)
    requires
        0 <= k <= ls.len(),
        mem_entries(ls.take(k)) is None,
    ensures
        mem_entries(ls) is None,
    decreases ls.len(),
{
    if k == ls.len() {
        assert(ls.take(k) =~= ls);
    } else {
        assert(ls.drop_last().take(k) =~= ls.take(k));
        lemma_entries_none(ls.drop_last(), k);
    }
}

/// Parses the kernel's memory report (`MemTotal:  16384 kB` per line) into
/// the memory record; every line must hold a `:` and a size.
pub fn parse_meminfo(text: &str) -> (r: Result<MemoryStats, StatError>)
    ensures
        r == match mem_entries(lines(text.spec_bytes())) {
            Some(es) => Ok::<MemoryStats, StatError>(memory_stats_of(es)),
            None => Err(StatError::InvalidMemLine),
        },
{
    let b = text.as_bytes();
    let ghost ls = lines(b@);
    let spans = line_spans(b);
    let mut es: Vec<(MemKey, u128)> = Vec::new();
    let mut k: usize = 0;
    assert(ls.take(0) =~= Seq::<Seq<u8>>::empty());
    while k < spans.len()
        invariant
            k <= spans@.len() == ls.len(),
            ls == lines(b@),
            b@ == text.spec_bytes(),
            forall|j: int|
                0 <= j < spans@.len() ==> {
                    &&& (#[trigger] spans@[j]).0 <= spans@[j].1 <= b@.len()
                    &&& b@.subrange(spans@[j].0 as int, spans@[j].1 as int) == ls[j]
                },
            mem_entries(ls.take(k as int)) == Some(es@),
        decreases spans@.len() - k,
    {
        let (s, e) = spans[k];
        let ghost l = b@.subrange(s as int, e as int);
        assert(l == ls[k as int]);
        assert(ls.take(k + 1).drop_last() =~= ls.take(k as int));
        assert(ls.take(k + 1).last() == l);
        let i = find_in(b, s, e, 58, 0);
        if i == e - s {
            proof {
                assert(line_entry(l) is None);
                assert(mem_entries(ls.take(k + 1)) is None);
                lemma_entries_none(ls, k + 1);
            }
            return Err(StatError::InvalidMemLine);
        }
        let j = find_in(b, s, e, 58, i + 1);
        let (ks, ke) = trim_span(b, s, s + i);
        let (vs, ve) = trim_span(b, s + i + 1, s + j);
        assert(b@.subrange(s as int, s + i) =~= l.subrange(0, i as int));
        assert(b@.subrange(s + i + 1, s + j) =~= l.subrange(i + 1, j as int));
        let value = &b[vs..ve];
        assert(line_entry(l) == Some((b@.subrange(ks as int, ke as int), value@)));
        let n = match byte_count(value) {
            Some(n) => n,
            None => {
                proof {
                    assert(mem_entries(ls.take(k + 1)) is None);
                    lemma_entries_none(ls, k + 1);
                }
                return Err(StatError::InvalidMemLine);
            },
        };
        match mem_key_at(b, ks, ke) {
            Some(mk) => es.push((mk, n)),
            None => {},
        }
        k = k + 1;
    }
    assert(ls.take(k as int) =~= ls);
    Ok(memory_stats_from(es.as_slice()))
}

} // verus!
