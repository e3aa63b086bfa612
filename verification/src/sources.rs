//! From the text of the operating system's sources to the readings of one
//! sample.

use vstd::prelude::*;
use vstd::slice::slice_subrange;
use vstd::string::StrSliceExecFns;
use vstd::string::StringExecFns;
use crate::ratio::{
    lemma_percent_bounds, lemma_round_div_monotone, lemma_round_div_scales,
    lemma_round_div_truncated, lemma_round_div_whole, percent, percent_of, round_div,
    rounded_ratio,
};
use crate::snapshot::{Readings, SysInfo};
use crate::text::{
    chars_of, decimal_parts, digits_value, fields, first_word, has_prefix, leading_word,
    lemma_pow10_positive, lemma_thousandths, lines, parse_thousandths, parse_unsigned, pow10,
    split, starts_with, thousandths, trim_bounds, trimmed, unsigned_of, Misread, COLON,
    LINE_FEED,
};

verus! {

/// The block counts of a filesystem: the blocks free to unprivileged users,
/// and all its blocks.
#[derive(Clone, Copy, Debug, PartialEq, Eq, Structural)]
pub struct Blocks {
    pub free: u64,
    pub total: u64,
}

/// The text of every source that one sample reads, and the filesystem's block
/// counts where they could be had.
#[derive(Clone, Debug)]
pub struct Sources {
    /// The interface's counter of bytes received.
    pub net_rx: String,
    /// The interface's counter of bytes transmitted.
    pub net_tx: String,
    /// The uptime source: seconds since boot, then idle seconds.
    pub uptime: String,
    /// The memory source: one labelled value per line.
    pub meminfo: String,
    /// The load source: the load averages, then scheduler figures.
    pub loadavg: String,
    /// The processor source: one block of labelled lines per core.
    pub cpuinfo: String,
    /// The filesystem's block counts, or nothing where reading them failed.
    pub blocks: Option<Blocks>,
}

/// Why a sample cannot be taken. Each of these is fatal to the sampler.
#[derive(Clone, Copy, Debug, PartialEq, Eq, Structural)]
pub enum Fault {
    /// A counter source holds no unsigned number that fits 64 bits.
    CounterUnreadable,
    /// The uptime source does not begin with a decimal number.
    UptimeUnreadable,
    /// The uptime, rounded to the second, does not fit 64 bits.
    UptimeOutOfRange,
    /// The memory source lacks the line of the total or the line of what is
    /// available, or the first such line holds no number.
    MemoryUnreadable,
    /// The memory total is zero, or the percentage does not fit 64 bits.
    MemoryOutOfRange,
    /// The load source does not begin with a decimal number.
    LoadUnreadable,
    /// The processor source names no processor, or the load average or the
    /// scaled load does not fit 64 bits.
    LoadOutOfRange,
}

/// The counter that a counter source holds: the number it writes, white space
/// aside.
pub open spec fn counter_of(text: Seq<char>) -> Result<u64, Fault> {
    match unsigned_of(trimmed(text)) {
        Some(v) => Ok(v),
        None => Err(Fault::CounterUnreadable),
    }
}

/// The whole number nearest to the decimal number with the digits `whole`
/// before the point and `fraction` behind it, halves going up.
pub open spec fn nearest_whole(whole: Seq<char>, fraction: Seq<char>) -> nat {
    round_div(digits_value(whole + fraction), pow10(fraction.len()))
}

/// The uptime that the uptime source holds: its first word as a decimal
/// number, rounded to the nearest second.
pub open spec fn uptime_of(text: Seq<char>) -> Result<u64, Fault> {
    match decimal_parts(first_word(text)) {
        None => Err(Fault::UptimeUnreadable),
        Some((whole, fraction)) => if nearest_whole(whole, fraction) > u64::MAX {
            Err(Fault::UptimeOutOfRange)
        } else {
            Ok(nearest_whole(whole, fraction) as u64)
        },
    }
}

/// What it is for a line to begin with `label`.
pub open spec fn begins_with(label: Seq<char>) -> spec_fn(Seq<char>) -> bool {
    |line: Seq<char>| starts_with(line, label)
}

/// Of some lines, those that begin with `label`, in order.
pub open spec fn labelled(all: Seq<Seq<char>>, label: Seq<char>) -> Seq<Seq<char>> {
    all.filter(begins_with(label))
}

/// The number on a labelled line: the first word behind the last colon.
pub open spec fn line_value(line: Seq<char>) -> Option<u64> {
    unsigned_of(first_word(fields(line, COLON).last()))
}

/// The number that a text holds under `label`: the number on the first of its
/// lines that begin with the label. There is none where no line begins with
/// the label, and none where that line holds no number.
pub open spec fn labelled_value(text: Seq<char>, label: Seq<char>) -> Option<u64> {
    let found = labelled(lines(text), label);
    if found.len() > 0 {
        line_value(found[0])
    } else {
        None
    }
}

/// The available memory as a percentage of all memory, rounded: the total and
/// what is available are each found under their own label.
pub open spec fn avail_mem_of(text: Seq<char>) -> Result<u64, Fault> {
    match labelled_value(text, "MemTotal"@) {
        None => Err(Fault::MemoryUnreadable),
        Some(total) => match labelled_value(text, "MemAvailable"@) {
            None => Err(Fault::MemoryUnreadable),
            Some(available) => if total == 0 || percent_of(available as nat, total as nat)
                > u64::MAX {
                Err(Fault::MemoryOutOfRange)
            } else {
                Ok(percent_of(available as nat, total as nat) as u64)
            },
        },
    }
}

/// How many processors the processor source names: its lines that begin with
/// the processor label.
pub open spec fn processors_of(text: Seq<char>) -> nat {
    labelled(lines(text), "processor"@).len()
}

/// The load average with the digits `whole` before the point and `fraction`
/// behind it, times one hundred, divided by the number of cores, rounded.
pub open spec fn scaled_load_of(whole: Seq<char>, fraction: Seq<char>, cores: nat) -> nat
    recommends
        cores > 0,
{
    round_div(100 * digits_value(whole + fraction), pow10(fraction.len()) * cores)
}

/// A load average given in thousandths, times one hundred, divided by the
/// number of cores, rounded.
pub open spec fn scaled_thousandths(load: nat, cores: nat) -> nat
    recommends
        cores > 0,
{
    round_div(load, 10 * cores)
}

/// The scaled load that the load source and the processor source give.
pub open spec fn load_of(loadavg: Seq<char>, cpuinfo: Seq<char>) -> Result<u64, Fault> {
    match decimal_parts(first_word(loadavg)) {
        None => Err(Fault::LoadUnreadable),
        Some((whole, fraction)) => {
            let cores = processors_of(cpuinfo);
            if cores == 0 || digits_value(whole) > u64::MAX || scaled_load_of(
                whole,
                fraction,
                cores,
            ) > u64::MAX {
                Err(Fault::LoadOutOfRange)
            } else {
                Ok(scaled_load_of(whole, fraction, cores) as u64)
            }
        },
    }
}

/// The free blocks as a percentage of all blocks, rounded; zero where the
/// counts could not be had, where the filesystem has no blocks, and where the
/// percentage does not fit 64 bits.
pub open spec fn disk_free_of(blocks: Option<Blocks>) -> u64 {
    match blocks {
        Some(b) => if b.total > 0 && percent_of(b.free as nat, b.total as nat) <= u64::MAX {
            percent_of(b.free as nat, b.total as nat) as u64
        } else {
            0
        },
        None => 0,
    }
}

/// The readings that the sources give. Where more than one source is at
/// fault, the fault reported is that of the first in this order: bytes
/// received, bytes transmitted, uptime, memory, load.
pub open spec fn gathered(
    net_rx: Seq<char>,
    net_tx: Seq<char>,
    uptime: Seq<char>,
    meminfo: Seq<char>,
    loadavg: Seq<char>,
    cpuinfo: Seq<char>,
    blocks: Option<Blocks>,
) -> Result<Readings, Fault> {
    match counter_of(net_rx) {
        Err(fault) => Err(fault),
        Ok(rx) => match counter_of(net_tx) {
            Err(fault) => Err(fault),
            Ok(tx) => match uptime_of(uptime) {
                Err(fault) => Err(fault),
                Ok(seconds) => match avail_mem_of(meminfo) {
                    Err(fault) => Err(fault),
                    Ok(avail_mem) => match load_of(loadavg, cpuinfo) {
                        Err(fault) => Err(fault),
                        Ok(load) => Ok(
                            Readings {
                                net_rx: rx,
                                net_tx: tx,
                                uptime: seconds,
                                avail_mem,
                                load,
                                disk_free: disk_free_of(blocks),
                            },
                        ),
                    },
                },
            },
        },
    }
}

/// Rounding a decimal number to the whole is rounding its thousandths: the
/// digits beyond the third place never decide.
pub proof fn lemma_nearest_whole_by_thousandths(whole: Seq<char>, fraction: Seq<char>)
    ensures
        nearest_whole(whole, fraction) == round_div(thousandths(whole, fraction), 1000),
        digits_value(whole) <= nearest_whole(whole, fraction) <= digits_value(whole) + 1,
{
    let d = digits_value(whole + fraction);
    let p = pow10(fraction.len());
    lemma_pow10_positive(fraction.len());
    lemma_round_div_scales(d, p, 1000);
    assert(1000 * p == p * 1000);
    lemma_round_div_truncated(1000 * d, p, 1000);
    lemma_thousandths(whole, fraction);
    let w = digits_value(whole);
    lemma_round_div_whole(w, 1000);
    lemma_round_div_whole(w + 1, 1000);
    lemma_round_div_monotone(1000 * w, thousandths(whole, fraction), 1000);
    lemma_round_div_monotone(thousandths(whole, fraction), 1000 * (w + 1), 1000);
}

/// Scaling a load average is scaling its thousandths: the digits beyond the
/// third place never decide.
pub proof fn lemma_scaled_load_by_thousandths(whole: Seq<char>, fraction: Seq<char>, cores: nat)
    requires
        cores > 0,
    ensures
        scaled_load_of(whole, fraction, cores) == scaled_thousandths(
            thousandths(whole, fraction),
            cores,
        ),
{
    let d = digits_value(whole + fraction);
    let p = pow10(fraction.len());
    lemma_pow10_positive(fraction.len());
    assert(p * cores > 0) by (nonlinear_arith)
        requires
            p > 0,
            cores > 0,
    ;
    lemma_round_div_scales(100 * d, p * cores, 10);
    assert(10 * (100 * d) == 1000 * d);
    assert(10 * (p * cores) == p * (10 * cores)) by (nonlinear_arith);
    lemma_round_div_truncated(1000 * d, p, 10 * cores);
}

impl Sources {
    /// The readings that these sources give.
    pub open spec fn readings(self) -> Result<Readings, Fault> {
        gathered(
            self.net_rx@,
            self.net_tx@,
            self.uptime@,
            self.meminfo@,
            self.loadavg@,
            self.cpuinfo@,
            self.blocks,
        )
    }

    /// Works out the readings of one sample.
    pub fn gather(&self) -> (r: Result<Readings, Fault>)
        ensures
            r == self.readings(),
    {
        let net_rx: u64 = match SysInfo::net_stats(self.net_rx.as_str()) {
            Ok(v) => v,
            Err(fault) => {
                return Err(fault);
            },
        };
        let net_tx: u64 = match SysInfo::net_stats(self.net_tx.as_str()) {
            Ok(v) => v,
            Err(fault) => {
                return Err(fault);
            },
        };
        let uptime: u64 = match SysInfo::uptime(self.uptime.as_str()) {
            Ok(v) => v,
            Err(fault) => {
                return Err(fault);
            },
        };
        let avail_mem: u64 = match SysInfo::avail_mem(self.meminfo.as_str()) {
            Ok(v) => v,
            Err(fault) => {
                return Err(fault);
            },
        };
        let load: u64 = match SysInfo::load(self.loadavg.as_str(), self.cpuinfo.as_str()) {
            Ok(v) => v,
            Err(fault) => {
                return Err(fault);
            },
        };
        let disk_free: u64 = SysInfo::disk_free(self.blocks);
        Ok(Readings { net_rx, net_tx, uptime, avail_mem, load, disk_free })
    }
}

/// Reads the number on a labelled line.
pub fn value_on_line(line: &[char]) -> (r: Option<u64>)
    ensures
        r == line_value(line@),
{
    let parts: Vec<&[char]> = split(line, COLON);
    parse_unsigned(leading_word(parts[parts.len() - 1]))
}

/// Reads the number that `text` holds under `label`.
pub fn value_labelled(text: &[char], label: &[char]) -> (r: Option<u64>)
    ensures
        r == labelled_value(text@, label@),
{
    let all: Vec<&[char]> = split(text, LINE_FEED);
    let ghost texts = lines(text@);
    let mut at: usize = 0;
    assert(texts.take(0) =~= Seq::<Seq<char>>::empty());
    proof {
        reveal(Seq::filter);
    }
    while at < all.len()
        invariant
            at <= all.len(),
            texts.len() == all@.len(),
            forall|k: int| 0 <= k < all@.len() ==> (#[trigger] all@[k])@ == texts[k],
            texts == lines(text@),
            labelled(texts.take(at as int), label@).len() == 0,
        decreases all.len() - at,
    {
        let line: &[char] = all[at];
        proof {
            reveal(Seq::filter);
            assert(texts.take(at + 1).drop_last() =~= texts.take(at as int));
            assert(texts.take(at + 1).last() == line@);
        }
        if has_prefix(line, label) {
            proof {
                let head = texts.take(at + 1);
                let tail = texts.skip(at + 1);
                assert(texts =~= head + tail);
                Seq::filter_distributes_over_add(head, tail, begins_with(label@));
                assert(labelled(head, label@) == labelled(texts.take(at as int), label@).push(
                    line@,
                ));
                assert(labelled(texts, label@) == labelled(head, label@) + labelled(
                    tail,
                    label@,
                ));
                assert(labelled(texts, label@)[0] == line@);
            }
            return value_on_line(line);
        }
        at = at + 1;
    }
    assert(texts.take(at as int) =~= texts);
    None
}

/// Counts the lines of `text` that begin with `label`.
pub fn count_labelled(text: &[char], label: &[char]) -> (count: usize)
    ensures
        count == labelled(lines(text@), label@).len(),
{
    let all: Vec<&[char]> = split(text, LINE_FEED);
    let ghost texts = lines(text@);
    let mut count: usize = 0;
    let mut at: usize = 0;
    assert(texts.take(0) =~= Seq::<Seq<char>>::empty());
    proof {
        reveal(Seq::filter);
    }
    while at < all.len()
        invariant
            at <= all.len(),
            texts.len() == all@.len(),
            forall|k: int| 0 <= k < all@.len() ==> (#[trigger] all@[k])@ == texts[k],
            count <= at,
            count == labelled(texts.take(at as int), label@).len(),
        decreases all.len() - at,
    {
        proof {
            reveal(Seq::filter);
            assert(texts.take(at + 1).drop_last() =~= texts.take(at as int));
            assert(texts.take(at + 1).last() == all@[at as int]@);
        }
        if has_prefix(all[at], label) {
            count = count + 1;
        }
        at = at + 1;
    }
    assert(texts.take(at as int) =~= texts);
    count
}

/// A number given in thousandths, rounded to the whole, where that fits 64
/// bits.
pub fn nearest_second(uptime: u128) -> (r: Option<u64>)
    ensures
        r == if round_div(uptime as nat, 1000) <= u64::MAX {
            Some(round_div(uptime as nat, 1000) as u64)
        } else {
            None
        },
{
    match rounded_ratio(uptime, 1000) {
        Some(q) if q <= u64::MAX as u128 => Some(q as u64),
        _ => None,
    }
}

/// A load average given in thousandths, times one hundred, divided by the
/// number of cores and rounded. There is no scaled load without a core, and
/// none is reported when the rounded value does not fit the result type.
pub fn scaled_load(load: u128, cores: u64) -> (r: Option<u64>)
    ensures
        r == if cores > 0 && scaled_thousandths(load as nat, cores as nat) <= u64::MAX {
            Some(scaled_thousandths(load as nat, cores as nat) as u64)
        } else {
            None
        },
{
    match rounded_ratio(load, 10 * (cores as u128)) {
        Some(q) if q <= u64::MAX as u128 => Some(q as u64),
        _ => None,
    }
}

impl SysInfo {
    /// The host's name: the text of the hostname source without the white
    /// space around it.
    pub fn get_hostname(text: &str) -> (name: String)
        ensures
            name@ == trimmed(text@),
    {
        let chars: Vec<char> = chars_of(text);
        let (start, end) = trim_bounds(chars.as_slice());
        String::from_str(text.substring_char(start, end))
    }

    /// The counter that a counter source holds.
    pub fn net_stats(text: &str) -> (r: Result<u64, Fault>)
        ensures
            r == counter_of(text@),
    {
        let chars: Vec<char> = chars_of(text);
        let (start, end) = trim_bounds(chars.as_slice());
        match parse_unsigned(slice_subrange(chars.as_slice(), start, end)) {
            Some(v) => Ok(v),
            None => Err(Fault::CounterUnreadable),
        }
    }

    /// Seconds since boot, rounded to the nearest second.
    pub fn uptime(text: &str) -> (r: Result<u64, Fault>)
        ensures
            r == uptime_of(text@),
    {
        let chars: Vec<char> = chars_of(text);
        let word: &[char] = leading_word(chars.as_slice());
        proof {
            if let Some((whole, fraction)) = decimal_parts(word@) {
                lemma_thousandths(whole, fraction);
                lemma_nearest_whole_by_thousandths(whole, fraction);
            }
        }
        match parse_thousandths(word) {
            Ok(thousandths) => match nearest_second(thousandths) {
                Some(seconds) => Ok(seconds),
                None => Err(Fault::UptimeOutOfRange),
            },
            Err(Misread::TooLarge) => Err(Fault::UptimeOutOfRange),
            Err(Misread::Malformed) => Err(Fault::UptimeUnreadable),
        }
    }

    /// Available memory as a percentage of all memory.
    pub fn avail_mem(text: &str) -> (r: Result<u64, Fault>)
        ensures
            r == avail_mem_of(text@),
    {
        let chars: Vec<char> = chars_of(text);
        let total_label: Vec<char> = chars_of("MemTotal");
        let available_label: Vec<char> = chars_of("MemAvailable");
        let total: u64 = match value_labelled(chars.as_slice(), total_label.as_slice()) {
            Some(v) => v,
            None => {
                return Err(Fault::MemoryUnreadable);
            },
        };
        let available: u64 = match value_labelled(chars.as_slice(), available_label.as_slice()) {
            Some(v) => v,
            None => {
                return Err(Fault::MemoryUnreadable);
            },
        };
        match percent(available, total) {
            Some(v) => Ok(v),
            None => Err(Fault::MemoryOutOfRange),
        }
    }

    /// The load average times one hundred, per core.
    pub fn load(loadavg: &str, cpuinfo: &str) -> (r: Result<u64, Fault>)
        ensures
            r == load_of(loadavg@, cpuinfo@),
    {
        let chars: Vec<char> = chars_of(loadavg);
        let word: &[char] = leading_word(chars.as_slice());
        let average: Result<u128, Misread> = parse_thousandths(word);
        if let Err(Misread::Malformed) = average {
            return Err(Fault::LoadUnreadable);
        }
        let cpu_chars: Vec<char> = chars_of(cpuinfo);
        let label: Vec<char> = chars_of("processor");
        let cores: usize = count_labelled(cpu_chars.as_slice(), label.as_slice());
        proof {
            if let Some((whole, fraction)) = decimal_parts(word@) {
                lemma_thousandths(whole, fraction);
                if cores > 0 {
                    lemma_scaled_load_by_thousandths(whole, fraction, cores as nat);
                }
            }
        }
        match average {
            Ok(thousandths) => match scaled_load(thousandths, cores as u64) {
                Some(v) => Ok(v),
                None => Err(Fault::LoadOutOfRange),
            },
            Err(_) => Err(Fault::LoadOutOfRange),
        }
    }

    /// Free blocks as a percentage of all blocks; zero where the filesystem
    /// could not be read.
    pub fn disk_free(blocks: Option<Blocks>) -> (r: u64)
        ensures
            r == disk_free_of(blocks),
    {
        match blocks {
            Some(b) => match percent(b.free, b.total) {
                Some(v) => v,
                None => 0,
            },
            None => 0,
        }
    }
}

/// A zero more at the end of a decimal number changes nothing: `1.0` and
/// `1.00` give the same uptime and the same scaled load.
pub proof fn lemma_trailing_zero(whole: Seq<char>, fraction: Seq<char>, cores: nat)
    requires
        cores > 0,
    ensures
        nearest_whole(whole, fraction.push('0')) == nearest_whole(whole, fraction),
        scaled_load_of(whole, fraction.push('0'), cores) == scaled_load_of(
            whole,
            fraction,
            cores,
        ),
{
    let longer = fraction.push('0');
    let d = digits_value(whole + fraction);
    let p = pow10(fraction.len());
    lemma_pow10_positive(fraction.len());
    assert((whole + longer).drop_last() =~= whole + fraction);
    assert((whole + longer).last() == '0');
    assert(digits_value(whole + longer) == 10 * d);
    assert(pow10(longer.len()) == 10 * p);
    lemma_round_div_scales(d, p, 10);
    assert(p * cores > 0) by (nonlinear_arith)
        requires
            p > 0,
            cores > 0,
    ;
    lemma_round_div_scales(100 * d, p * cores, 10);
    assert(10 * (100 * d) == 100 * (10 * d));
    assert(10 * (p * cores) == (10 * p) * cores) by (nonlinear_arith);
}

/// A filesystem that cannot be read costs the sample nothing but the disk
/// gauge: the sample is taken or refused as with any block counts, and where
/// it is taken the free-disk percentage is zero and the other five readings
/// are what they would have been.
pub proof fn lemma_unreadable_filesystem(sources: Sources)
    ensures
        (Sources { blocks: None, ..sources }).readings() == match sources.readings() {
            Ok(r) => Ok(Readings { disk_free: 0, ..r }),
            Err(fault) => Err(fault),
        },
{
}

/// The percentages reported lie between zero and one hundred wherever the
/// part does not exceed the whole: available memory within all memory, free
/// blocks within all blocks.
pub proof fn lemma_percentages_in_range(text: Seq<char>, blocks: Blocks)
    ensures
        (labelled_value(text, "MemTotal"@) matches Some(total) && labelled_value(
            text,
            "MemAvailable"@,
        ) matches Some(available) && 0 < total && available <= total) ==> avail_mem_of(text) is Ok
            && avail_mem_of(text).unwrap() <= 100,
        blocks.free <= blocks.total ==> disk_free_of(Some(blocks)) <= 100,
{
    if let Some(total) = labelled_value(text, "MemTotal"@) {
        if let Some(available) = labelled_value(text, "MemAvailable"@) {
            if total > 0 {
                lemma_percent_bounds(available as nat, total as nat);
            }
        }
    }
    if blocks.total > 0 {
        lemma_percent_bounds(blocks.free as nat, blocks.total as nat);
    }
}

} // verus!
