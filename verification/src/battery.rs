//! This device's battery, out of what each operating system says of it.
use vstd::prelude::*;
use vstd::string::*;

use crate::text::{
    chars_of, contains_text, decimal, decimal_reads_back, first_at, has_part, lemma_first_at,
    number_up_to, parse_number, pieces, same_text, split_text, strip_prefix, trim, trimmed,
};
use crate::wire::{opt_view, views, Event, EventView};

verus! {

/// How often the battery is read.
pub const BATTERY_INTERVAL: u64 = 5_000;

/// A battery's level in percent, and whether the device is on external power.
pub type Reading = (u8, bool);

/// Where the digits begin that end at `end`.
pub open spec fn digits_start(line: Seq<char>, end: int) -> int
    decreases end,
{
    if end <= 0 || !('0' <= line[end - 1] <= '9') {
        end
    } else {
        digits_start(line, end - 1)
    }
}

/// The percentage that a line gives: the number right before its first percent
/// sign, at most 100; none where there is none that fits one byte.
pub open spec fn line_level(line: Seq<char>) -> Option<u8> {
    let end = first_at(line, '%');
    if end < line.len() {
        match number_up_to(line.subrange(digits_start(line, end), end), u8::MAX as nat) {
            Some(n) => Some(
                if n < 100 {
                    n as u8
                } else {
                    100
                },
            ),
            None => None,
        }
    } else {
        None
    }
}

/// The line speaks of a built-in battery.
pub open spec fn battery_line(line: Seq<char>) -> bool {
    has_part(line, "InternalBattery"@)
}

/// The level that the last line with one gives.
pub open spec fn last_level(lines: Seq<Seq<char>>) -> Option<u8>
    decreases lines.len(),
{
    if lines.len() == 0 {
        None
    } else if battery_line(lines.last()) && line_level(lines.last()) is Some {
        line_level(lines.last())
    } else {
        last_level(lines.drop_last())
    }
}

/// What `pmset -g batt` says: the level of the built-in battery, and whether its
/// header names the mains as the source of power. The word for the battery's
/// state does not count.
pub open spec fn pmset_reading(out: Seq<char>) -> Option<Reading> {
    match last_level(pieces(out, '\n')) {
        Some(level) => Some((level, has_part(out, "'AC Power'"@))),
        None => None,
    }
}

fn level_of_line(line: &str) -> (r: Option<u8>)
    ensures
        r == line_level(line@),
{
    let cs = chars_of(line);
    let mut end: usize = 0;
    while end < cs.len() && cs[end] != '%'
        invariant
            end <= cs@.len(),
            cs@ == line@,
            forall|j: int| 0 <= j < end ==> cs@[j] != '%',
        decreases cs@.len() - end,
    {
        end = end + 1;
    }
    proof {
        lemma_first_at(line@, '%', end as int);
    }
    if end == cs.len() {
        return None;
    }
    let mut start: usize = end;
    while start > 0 && cs[start - 1] >= '0' && cs[start - 1] <= '9'
        invariant
            start <= end < cs@.len(),
            cs@ == line@,
            digits_start(line@, start as int) == digits_start(line@, end as int),
        decreases start,
    {
        start = start - 1;
    }
    match parse_number(&cs, start, end, 255) {
        Some(n) => if n < 100 {
            Some(n as u8)
        } else {
            Some(100)
        },
        None => None,
    }
}

/// Computes [`pmset_reading`].
pub fn parse_pmset(stdout: &str) -> (r: Option<Reading>)
    ensures
        r == pmset_reading(stdout@),
{
    let on_ac = contains_text(stdout, "'AC Power'");
    let lines = split_text(stdout, '\n');
    let ghost all = views(lines@);
    let mut i: usize = lines.len();
    assert(all.take(all.len() as int) =~= all);
    while i > 0
        invariant
            i <= lines@.len(),
            all == views(lines@),
            all == pieces(stdout@, '\n'),
            on_ac == has_part(stdout@, "'AC Power'"@),
            last_level(all.take(i as int)) == last_level(all),
        decreases i,
    {
        proof {
            let now = all.take(i as int);
            assert(now.last() == lines@[i - 1]@);
            assert(now.drop_last() =~= all.take(i - 1));
        }
        i = i - 1;
        if contains_text(lines[i].as_str(), "InternalBattery") {
            if let Some(level) = level_of_line(lines[i].as_str()) {
                return Some((level, on_ac));
            }
        }
    }
    None
}

/// What the kernel says of a power supply.
#[derive(Debug)]
pub struct PowerSupply {
    pub name: String,
    /// Its files, where they can be read.
    pub capacity: Option<String>,
    pub status: Option<String>,
}

/// The number that a text writes, perhaps with a plus sign.
pub open spec fn signed_number(s: Seq<char>) -> Option<nat> {
    if s.len() > 0 && s[0] == '+' {
        number_up_to(s.skip(1), u32::MAX as nat)
    } else {
        number_up_to(s, u32::MAX as nat)
    }
}

fn parse_signed(s: &str) -> (r: Option<u32>)
    ensures
        match r {
            Some(n) => signed_number(s@) == Some(n as nat),
            None => signed_number(s@) is None,
        },
{
    let cs = chars_of(s);
    if cs.len() > 0 && cs[0] == '+' {
        assert(cs@.subrange(1, cs@.len() as int) =~= s@.skip(1));
        parse_number(&cs, 1, cs.len(), u32::MAX)
    } else {
        assert(cs@.subrange(0, cs@.len() as int) =~= s@);
        parse_number(&cs, 0, cs.len(), u32::MAX)
    }
}

/// The battery is on power unless it drains, or nothing is known of it.
pub open spec fn on_power(status: Seq<char>) -> bool {
    let s = trimmed(status);
    s != "Discharging"@ && s != "Unknown"@ && s != ""@
}

/// What the kernel says of a battery.
pub open spec fn supply_reading(p: PowerSupply) -> Option<Reading> {
    match p.capacity {
        Some(c) => match signed_number(trimmed(c@)) {
            Some(n) => Some(
                (
                    if n < 100 {
                        n as u8
                    } else {
                        100
                    },
                    on_power(
                        match p.status {
                            Some(s) => s@,
                            None => Seq::empty(),
                        },
                    ),
                ),
            ),
            None => None,
        },
        None => None,
    }
}

/// What the kernel says of the first battery among the power supplies.
pub open spec fn first_battery(supplies: Seq<PowerSupply>) -> Option<Reading>
    decreases supplies.len(),
{
    if supplies.len() == 0 {
        None
    } else if "BAT"@.is_prefix_of(supplies[0].name@) {
        supply_reading(supplies[0])
    } else {
        first_battery(supplies.drop_first())
    }
}

fn read_supply(p: &PowerSupply) -> (r: Option<Reading>)
    ensures
        r == supply_reading(*p),
{
    match &p.capacity {
        Some(c) => match parse_signed(trim(c.as_str()).as_str()) {
            Some(n) => {
                let level: u8 = if n < 100 {
                    n as u8
                } else {
                    100
                };
                let status = match &p.status {
                    Some(s) => trim(s.as_str()),
                    None => {
                        let none = String::new();
                        assert(none@ =~= Seq::empty());
                        trim(none.as_str())
                    },
                };
                let s = status.as_str();
                let charging = !same_text(s, "Discharging") && !same_text(s, "Unknown") && !same_text(
                    s,
                    "",
                );
                Some((level, charging))
            },
            None => None,
        },
        None => None,
    }
}

/// Computes [`first_battery`].
pub fn read_linux(supplies: &Vec<PowerSupply>) -> (r: Option<Reading>)
    ensures
        r == first_battery(supplies@),
{
    let mut i: usize = 0;
    assert(supplies@.skip(0) =~= supplies@);
    while i < supplies.len()
        invariant
            i <= supplies@.len(),
            first_battery(supplies@.skip(i as int)) == first_battery(supplies@),
        decreases supplies@.len() - i,
    {
        assert(supplies@.skip(i as int)[0] == supplies@[i as int]);
        assert(supplies@.skip(i as int).drop_first() =~= supplies@.skip(i + 1));
        if strip_prefix(supplies[i].name.as_str(), "BAT").is_some() {
            return read_supply(&supplies[i]);
        }
        i = i + 1;
    }
    None
}

/// What Windows says of the power.
#[derive(Debug, Clone, Copy)]
pub struct PowerStatus {
    /// 1 on the mains.
    pub ac_line: u8,
    /// From 128 on there is no battery.
    pub battery_flag: u8,
    /// 255 where it is not known.
    pub percent: u8,
}

/// What the power status says of the battery.
pub open spec fn windows_reading(st: PowerStatus) -> Option<Reading> {
    if st.battery_flag >= 128 || st.percent == 255 {
        None
    } else {
        Some(
            (
                if st.percent < 100 {
                    st.percent
                } else {
                    100
                },
                st.ac_line == 1,
            ),
        )
    }
}

/// Computes [`windows_reading`].
pub fn read_windows(st: PowerStatus) -> (r: Option<Reading>)
    ensures
        r == windows_reading(st),
{
    if st.battery_flag >= 128 || st.percent == 255 {
        return None;
    }
    let level: u8 = if st.percent < 100 {
        st.percent
    } else {
        100
    };
    Some((level, st.ac_line == 1))
}

/// What an operating system says of its battery, unread.
pub enum RawBattery {
    MacOs { pmset: String },
    Linux { supplies: Vec<PowerSupply> },
    Windows { status: PowerStatus },
    /// Nothing could be read.
    Unavailable,
}

/// The battery; nothing where the device has none.
pub fn read_battery(raw: &RawBattery) -> (r: Option<Reading>)
    ensures
        r == match *raw {
            RawBattery::MacOs { pmset } => pmset_reading(pmset@),
            RawBattery::Linux { supplies } => first_battery(supplies@),
            RawBattery::Windows { status } => windows_reading(status),
            RawBattery::Unavailable => None,
        },
{
    match raw {
        RawBattery::MacOs { pmset } => parse_pmset(pmset.as_str()),
        RawBattery::Linux { supplies } => read_linux(supplies),
        RawBattery::Windows { status } => read_windows(*status),
        RawBattery::Unavailable => None,
    }
}

/// The battery is told of when its reading is new.
pub open spec fn news(last: Option<Reading>, reading: Option<Reading>) -> Option<EventView> {
    match reading {
        Some((level, charging)) => if last == Some((level, charging)) {
            None
        } else {
            Some(EventView::BatteryChangedSelf { level, charging })
        },
        None => None,
    }
}

/// Takes in a reading: says what is to be told of it.
pub fn battery_tick(last: &mut Option<Reading>, reading: Option<Reading>) -> (r: Option<Event>)
    ensures
        opt_view(r) == news(*old(last), reading),
        *final(last) == if reading is Some {
            reading
        } else {
            *old(last)
        },
{
    match reading {
        Some((level, charging)) => {
            let known = match *last {
                Some((l, c)) => l == level && c == charging,
                None => false,
            };
            if known {
                return None;
            }
            *last = Some((level, charging));
            Some(Event::BatteryChangedSelf { level, charging })
        },
        None => None,
    }
}

/// A steady battery is told of once; a device without one says nothing.
pub proof fn steady_battery_is_told_once(last: Option<Reading>, reading: Reading)
    ensures
        news(Some(reading), Some(reading)) is None,
        news(last, None) is None,
{
}

/// Whatever the system says, a level is a percentage.
pub proof fn levels_are_percentages(out: Seq<char>, supplies: Seq<PowerSupply>)
    ensures
        pmset_reading(out) matches Some(r) ==> r.0 <= 100,
        first_battery(supplies) matches Some(r) ==> r.0 <= 100,
{
    lemma_last_level(pieces(out, '\n'));
    lemma_first_battery(supplies);
}

proof fn lemma_last_level(lines: Seq<Seq<char>>)
    ensures
        last_level(lines) matches Some(l) ==> l <= 100,
    decreases lines.len(),
{
    if lines.len() > 0 {
        lemma_last_level(lines.drop_last());
    }
}

proof fn lemma_first_battery(supplies: Seq<PowerSupply>)
    ensures
        first_battery(supplies) matches Some(r) ==> r.0 <= 100,
    decreases supplies.len(),
{
    if supplies.len() > 0 {
        lemma_first_battery(supplies.drop_first());
    }
}

/// A reading that differs from the last one is told as it is.
pub proof fn new_reading_is_told(last: Option<Reading>, level: u8, charging: bool)
    requires
        last != Some((level, charging)),
    ensures
        news(last, Some((level, charging))) == Some(EventView::BatteryChangedSelf { level, charging }),
{
}

/// The number right before the first percent sign of a line is its level, at most 100.
pub proof fn level_stands_before_the_percent_sign(a: Seq<char>, n: nat, b: Seq<char>)
    requires
        n <= 255,
        !a.contains('%'),
        a.len() > 0 ==> !('0' <= a.last() <= '9'),
    ensures
        line_level(a + decimal(n) + seq!['%'] + b) == Some(
            if n < 100 {
                n as u8
            } else {
                100u8
            },
        ),
{
    let digits = decimal(n);
    let line = a + digits + seq!['%'] + b;
    let end = a.len() + digits.len();
    decimal_reads_back(n);
    assert forall|j: int| 0 <= j < end implies line[j] != '%' by {
        if j < a.len() {
            assert(a[j] != '%');
        } else {
            assert('0' <= digits[j - a.len()] <= '9');
        }
    }
    lemma_first_at(line, '%', end as int);
    assert forall|j: int| a.len() <= j < end implies '0' <= #[trigger] line[j] <= '9' by {
        assert('0' <= digits[j - a.len()] <= '9');
    }
    lemma_digits_start(line, a.len() as int, end as int);
    assert(line.subrange(a.len() as int, end as int) =~= digits);
}

proof fn lemma_digits_start(line: Seq<char>, from: int, end: int)
    requires
        0 <= from <= end <= line.len(),
        forall|j: int| from <= j < end ==> '0' <= #[trigger] line[j] <= '9',
        from > 0 ==> !('0' <= line[from - 1] <= '9'),
    ensures
        digits_start(line, end) == from,
    decreases end - from,
{
    if from < end {
        assert('0' <= line[end - 1] <= '9');
        lemma_digits_start(line, from, end - 1);
    }
}

/// Of the built-in battery the last line with a level counts, and the device is on power
/// iff the mains are named as its source.
pub proof fn last_battery_line_counts(out: Seq<char>, i: int)
    requires
        0 <= i < pieces(out, '\n').len(),
        has_part(pieces(out, '\n')[i], "InternalBattery"@),
        line_level(pieces(out, '\n')[i]) is Some,
        forall|j: int|
            i < j < pieces(out, '\n').len() ==> !(has_part(
                #[trigger] pieces(out, '\n')[j],
                "InternalBattery"@,
            ) && line_level(pieces(out, '\n')[j]) is Some),
    ensures
        pmset_reading(out) == Some(
            (line_level(pieces(out, '\n')[i])->0, has_part(out, "'AC Power'"@)),
        ),
{
    lemma_last_counts(pieces(out, '\n'), i);
}

proof fn lemma_last_counts(lines: Seq<Seq<char>>, i: int)
    requires
        0 <= i < lines.len(),
        battery_line(lines[i]),
        line_level(lines[i]) is Some,
        forall|j: int|
            i < j < lines.len() ==> !(battery_line(#[trigger] lines[j]) && line_level(lines[j])
                is Some),
    ensures
        last_level(lines) == line_level(lines[i]),
    decreases lines.len(),
{
    let last = lines.len() - 1;
    assert(lines[last] == lines.last());
    if i < last {
        let rest = lines.drop_last();
        assert(rest[i] == lines[i]);
        assert forall|j: int| i < j < rest.len() implies !(battery_line(#[trigger] rest[j])
            && line_level(rest[j]) is Some) by {
            assert(rest[j] == lines[j]);
        }
        lemma_last_counts(rest, i);
    }
}

/// Of the power supplies the first battery counts, with its capacity, at most 100; it
/// drains iff its status says so, or nothing is known of it.
pub proof fn first_battery_counts(supplies: Seq<PowerSupply>, i: int, n: nat)
    requires
        0 <= i < supplies.len(),
        "BAT"@.is_prefix_of(supplies[i].name@),
        forall|j: int| 0 <= j < i ==> !"BAT"@.is_prefix_of((#[trigger] supplies[j]).name@),
        n <= u32::MAX,
        supplies[i].capacity matches Some(c) && trimmed(c@) == decimal(n),
        supplies[i].status is Some,
    ensures
        ({
            let s = trimmed((supplies[i].status->0)@);
            first_battery(supplies) == Some(
                (
                    if n < 100 {
                        n as u8
                    } else {
                        100u8
                    },
                    s != "Discharging"@ && s != "Unknown"@ && s != ""@,
                ),
            )
        }),
    decreases supplies.len(),
{
    decimal_reads_back(n);
    let digits = decimal(n);
    assert('0' <= digits[0] <= '9');
    assert(signed_number(digits) == Some(n));
    if i > 0 {
        assert(!"BAT"@.is_prefix_of(supplies[0].name@));
        let rest = supplies.drop_first();
        assert(rest[i - 1] == supplies[i]);
        assert forall|j: int| 0 <= j < i - 1 implies !"BAT"@.is_prefix_of(
            (#[trigger] rest[j]).name@,
        ) by {
            assert(!"BAT"@.is_prefix_of(supplies[j + 1].name@));
        }
        first_battery_counts(rest, i - 1, n);
    }
}

/// Windows tells the level in percent, and a line status of one means the mains; without
/// a battery, or with an unknown level, there is no reading.
pub proof fn windows_tells_the_level(st: PowerStatus)
    ensures
        windows_reading(st) is None <==> st.battery_flag >= 128 || st.percent == 255,
        windows_reading(st) matches Some(r) ==> r.1 == (st.ac_line == 1) && (st.percent <= 100 ==> r.0
            == st.percent) && r.0 <= 100,
{
}

} // verus!
