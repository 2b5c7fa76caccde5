//! Sensor bookkeeping: rolling histories, energy-counter sampling, disk
//! selection and the rendering of transfer speeds.
use vstd::prelude::*;

use crate::clock::{date_spec, date_text, local_clock, time_spec, time_text, ClockReading};
use crate::disks::{readings_view, select_disks, shown, usages_view, DiskReading, DiskUsage};
use crate::text::{decimal, push_decimal, round_div, round_half_even};

verus! {

/// The number of samples a rolling history keeps (about 80 s at one poll a
/// second).
pub const HIST_LEN: usize = 80;

/// The history `h` after `v` is appended: the oldest sample is dropped when
/// the history has grown past `HIST_LEN`.
pub open spec fn rolled(h: Seq<u64>, v: u64) -> Seq<u64> {
    let p = h.push(v);
    if p.len() > HIST_LEN {
        p.drop_first()
    } else {
        p
    }
}

/// A percentage sample as stored in a percentage history: at most 100.
pub open spec fn clamp_pct(v: u64) -> u64 {
    if v < 100 {
        v
    } else {
        100
    }
}

/// Appends a percentage sample, capped at 100, to a rolling history.
pub fn push_hist(h: &mut Vec<u64>, v: u64)
    ensures
        final(h)@ == rolled(old(h)@, clamp_pct(v)),
{
    let c = if v < 100 { v } else { 100 };
    h.push(c);
    if h.len() > HIST_LEN {
        h.remove(0);
        assert(h@ =~= rolled(old(h)@, clamp_pct(v)));
    }
}

/// Appends a raw sample (such as a transfer speed in bytes per second) to a
/// rolling history, without capping it.
pub fn push_hist_raw(h: &mut Vec<u64>, v: u64)
    ensures
        final(h)@ == rolled(old(h)@, v),
{
    h.push(v);
    if h.len() > HIST_LEN {
        h.remove(0);
        assert(h@ =~= rolled(old(h)@, v));
    }
}

/// The history after each of `vs` has been appended in turn.
pub open spec fn rolled_all(h: Seq<u64>, vs: Seq<u64>) -> Seq<u64>
    decreases vs.len(),
{
    if vs.len() == 0 {
        h
    } else {
        rolled(rolled_all(h, vs.drop_last()), vs.last())
    }
}

/// The last `HIST_LEN` elements of `s` (all of them when there are fewer).
pub open spec fn latest(s: Seq<u64>) -> Seq<u64> {
    if s.len() > HIST_LEN {
        s.subrange(s.len() - HIST_LEN, s.len() as int)
    } else {
        s
    }
}

/// A history never holds more than `HIST_LEN` samples, it grows by one
/// sample per append until it is full, and its newest sample is the value
/// just appended.
pub proof fn lemma_rolled_bounded(h: Seq<u64>, v: u64)
    requires
        h.len() <= HIST_LEN,
    ensures
        rolled(h, v).len() == if h.len() < HIST_LEN { h.len() + 1 } else { HIST_LEN as nat },
        rolled(h, v).last() == v,
{
}

/// A percentage push stores the sample itself when it is at most 100 and
/// 100 otherwise, as the newest sample, keeping the older samples in order
/// (less the oldest when the history was full).
pub proof fn lemma_push_hist_newest(h: Seq<u64>, v: u64)
    ensures
        rolled(h, clamp_pct(v)).last() == if v <= 100 { v } else { 100u64 },
        rolled(h, clamp_pct(v)).drop_last() == if h.len() >= 80 { h.drop_first() } else { h },
{
    assert(rolled(h, clamp_pct(v)).drop_last() =~= if h.len() >= 80 { h.drop_first() } else { h });
}

/// Appending values one by one to a history of at most `HIST_LEN` samples
/// leaves exactly the latest `HIST_LEN` values of the old history followed
/// by the appended ones, in order.
pub proof fn lemma_rolled_all_latest(h: Seq<u64>, vs: Seq<u64>)
    requires
        h.len() <= HIST_LEN,
    ensures
        rolled_all(h, vs) == latest(h + vs),
    decreases vs.len(),
{
    if vs.len() > 0 {
        lemma_rolled_all_latest(h, vs.drop_last());
        let prev = h + vs.drop_last();
        assert(h + vs =~= prev.push(vs.last()));
        assert(rolled(latest(prev), vs.last()) =~= latest(prev.push(vs.last())));
    } else {
        assert(h + vs =~= h);
    }
}

/// Every sample of a percentage history stays at most 100.
pub proof fn lemma_push_hist_pct(h: Seq<u64>, v: u64)
    requires
        forall|i: int| 0 <= i < h.len() ==> h[i] <= 100,
    ensures
        forall|i: int| 0 <= i < rolled(h, clamp_pct(v)).len() ==> rolled(h, clamp_pct(v))[i] <= 100,
{
}

/// The integers below this bound fit in the 53-bit significand of an `f64`.
pub open spec fn f64_exact_bound() -> nat {
    0x20_0000_0000_0000
}

/// The power of two by which a natural number must be divided so that the
/// quotient fits in the significand of an `f64`.
pub open spec fn f64_scale(x: nat) -> nat
    decreases x,
{
    if x < f64_exact_bound() {
        1
    } else {
        2 * f64_scale(x / 2)
    }
}

/// The value of `x as f64`: `x` rounded to the nearest multiple of its
/// scale, ties to the even multiple.
pub open spec fn f64_of(x: nat) -> nat {
    round_half_even(x, f64_scale(x)) * f64_scale(x)
}

proof fn lemma_f64_scale_pos(x: nat)
    ensures
        f64_scale(x) >= 1,
    decreases x,
{
    if x >= f64_exact_bound() {
        lemma_f64_scale_pos(x / 2);
    }
}

proof fn lemma_f64_scale_small(x: nat)
    requires
        x >= f64_exact_bound(),
    ensures
        f64_scale(x) * 0x10_0000_0000_0000 <= x,
    decreases x,
{
    assert(f64_scale(x) == 2 * f64_scale(x / 2));
    if x / 2 >= f64_exact_bound() {
        lemma_f64_scale_small(x / 2);
    } else {
        assert(f64_scale(x / 2) == 1);
    }
}

/// Integers below 2^53 convert to `f64` exactly, and larger ones stay at
/// least 2^52; so a transfer speed is shown in MiB exactly when it is at
/// least one MiB (1048576 bytes) per second.
pub proof fn lemma_speed_unit(bps: nat)
    ensures
        bps < f64_exact_bound() ==> f64_of(bps) == bps,
        bps >= f64_exact_bound() ==> f64_of(bps) >= 0x10_0000_0000_0000,
        f64_of(bps) >= 0x10_0000 <==> bps >= 0x10_0000,
{
    if bps < f64_exact_bound() {
        assert(f64_scale(bps) == 1);
        assert(bps / 1 == bps && bps % 1 == 0);
        assert(round_half_even(bps, 1) == bps);
    } else {
        lemma_f64_scale_small(bps);
        let sc = f64_scale(bps);
        lemma_f64_scale_pos(bps);
        assert(bps / sc >= 0x10_0000_0000_0000) by (nonlinear_arith)
            requires
                sc * 0x10_0000_0000_0000 <= bps,
                sc >= 1,
        ;
        assert(round_half_even(bps, sc) >= bps / sc);
        assert(round_half_even(bps, sc) * sc >= 0x10_0000_0000_0000) by (nonlinear_arith)
            requires
                round_half_even(bps, sc) >= 0x10_0000_0000_0000,
                sc >= 1,
        ;
    }
}

/// The integer value of `x as f64`.
fn f64_value(x: u64) -> (v: u128)
    ensures
        v == f64_of(x as nat),
        v <= 0x4_0000_0000_0000_0000,
{
    let mut y: u64 = x;
    let mut p: u64 = 1;
    while y >= 0x20_0000_0000_0000
        invariant
            1 <= p <= 0x1000,
            (y as int) * (p as int) <= x as int,
            (x as int) < (y as int + 1) * (p as int),
            f64_scale(x as nat) == (p as nat) * f64_scale(y as nat),
        decreases y,
    {
        assert(p < 0x800) by (nonlinear_arith)
            requires
                y >= 0x20_0000_0000_0000,
                (y as int) * (p as int) <= x as int,
                x < 0x1_0000_0000_0000_0000,
        ;
        let ghost y0 = y;
        let ghost p0 = p;
        y = y / 2;
        p = p * 2;
        proof {
            assert(f64_scale(y0 as nat) == 2 * f64_scale(y as nat));
            assert((p0 as nat) * (2 * f64_scale(y as nat)) == (p as nat) * f64_scale(y as nat)) by (nonlinear_arith)
                requires p == p0 * 2;
            assert((y as int) * (p as int) <= x as int) by (nonlinear_arith)
                requires
                    y == y0 / 2,
                    p == p0 * 2,
                    (y0 as int) * (p0 as int) <= x as int,
                    p0 >= 1,
            ;
            assert((x as int) < (y as int + 1) * (p as int)) by (nonlinear_arith)
                requires
                    y == y0 / 2,
                    p == p0 * 2,
                    (x as int) < (y0 as int + 1) * (p0 as int),
                    p0 >= 1,
            ;
        }
    }
    assert(f64_scale(y as nat) == 1);
    assert(f64_scale(x as nat) == p) by (nonlinear_arith)
        requires
            f64_scale(x as nat) == (p as nat) * f64_scale(y as nat),
            f64_scale(y as nat) == 1,
    ;
    assert((x as int) < (y as int) * (p as int) + p) by (nonlinear_arith)
        requires (x as int) < (y as int + 1) * (p as int);
    let r: u64 = x - y * p;
    proof {
        vstd::arithmetic::div_mod::lemma_fundamental_div_mod_converse(x as int, p as int, y as int, r as int);
    }
    let q: u128 = if r > p - r || (r == p - r && y % 2 == 1) { y as u128 + 1 } else { y as u128 };
    assert(q * (p as u128) <= 0x4_0000_0000_0000_0000) by (nonlinear_arith)
        requires
            q <= y + 1,
            y < 0x20_0000_0000_0000,
            p <= 0x1000,
    ;
    q * (p as u128)
}

/// The text of a transfer speed given in bytes per second: at least one MiB
/// per second is shown in MiB with one decimal, anything less in whole KiB,
/// each rounded as the `f64` value `bps as f64` formats.
pub open spec fn speed_text(bps: nat) -> Seq<char> {
    let v = f64_of(bps);
    if v >= 0x10_0000 {
        let tenths = round_half_even(v * 10, 0x10_0000);
        decimal(tenths / 10) + seq!['.'] + decimal(tenths % 10) + seq![' ', 'M', 'B', '/', 's']
    } else {
        decimal(round_half_even(v, 0x400)) + seq![' ', 'K', 'B', '/', 's']
    }
}

/// Renders a transfer speed in bytes per second for display.
pub fn fmt_speed(bps: u64) -> (s: String)
    ensures
        s@ == speed_text(bps as nat),
{
    let v = f64_value(bps);
    let mut s = String::new();
    if v >= 0x10_0000 {
        let tenths = round_div(v * 10, 0x10_0000);
        push_decimal(&mut s, tenths / 10);
        s.append(".");
        push_decimal(&mut s, tenths % 10);
        s.append(" MB/s");
        proof {
            reveal_strlit(".");
            reveal_strlit(" MB/s");
        }
    } else {
        let kib = round_div(v, 0x400);
        push_decimal(&mut s, kib);
        s.append(" KB/s");
        proof {
            reveal_strlit(" KB/s");
        }
    }
    s
}


/// The RAPL energy-status counter is 32 bits wide and wraps around.
pub open spec fn energy_modulus() -> int {
    0x1_0000_0000
}

/// The energy-unit exponent `eu` (one counter step is `2^-eu` joules) read
/// from the RAPL power-unit register, bits 8 to 12; when the register could
/// not be read the usual `eu = 14` is assumed.
pub open spec fn energy_unit_exponent(power_unit: Option<u64>) -> u32 {
    match power_unit {
        Some(v) => ((v / 256) % 32) as u32,
        None => 14,
    }
}

/// The counter steps between two readings of the wrapping 32-bit energy
/// counter.
pub open spec fn energy_ticks(prev: u64, cur: u64) -> u64 {
    ((cur as int % energy_modulus() + energy_modulus() - prev as int % energy_modulus()) % energy_modulus()) as u64
}

/// The energy consumed between two reads of the package energy counter.
pub struct EnergySample {
    /// Counter steps, each `2^-eu` joules.
    pub ticks: u64,
    /// Nanoseconds between the two reads.
    pub elapsed_ns: u64,
}

/// The state kept between reads of the package energy counter: the energy
/// unit and the last counter value with the time it was read.
pub struct EnergyMeter {
    unit_exp: u32,
    last: Option<(u64, u64)>,
}

impl EnergyMeter {
    /// The energy-unit exponent in use.
    pub closed spec fn unit_exp_spec(&self) -> u32 {
        self.unit_exp
    }

    /// The last (counter value, time in ns) read, if any.
    pub closed spec fn last_spec(&self) -> Option<(u64, u64)> {
        self.last
    }

    /// Every stored counter value is a 32-bit counter value.
    pub closed spec fn wf(&self) -> bool {
        &&& self.unit_exp < 32
        &&& self.last matches Some((e, _)) ==> e < energy_modulus()
    }

    /// A meter that has read nothing yet, with the unit taken from the raw
    /// power-unit register (`None` when it could not be read).
    pub fn new(power_unit: Option<u64>) -> (m: EnergyMeter)
        ensures
            m.wf(),
            m.unit_exp_spec() == energy_unit_exponent(power_unit),
            m.last_spec() is None,
    {
        let unit_exp = match power_unit {
            Some(v) => {
                let eu = (v >> 8u64) & 0x1f;
                assert(eu == (v / 256) % 32 && eu < 32) by (bit_vector)
                    requires eu == (v >> 8u64) & 0x1f;
                eu as u32
            },
            None => 14,
        };
        EnergyMeter { unit_exp, last: None }
    }

    /// The energy-unit exponent `eu`: one counter step is `2^-eu` joules.
    pub fn unit_exponent(&self) -> (eu: u32)
        ensures
            eu == self.unit_exp_spec(),
    {
        self.unit_exp
    }

    /// Records a raw read of the energy-status register made at `now_ns`
    /// and returns the energy used since the previous read, when there was
    /// one and time has passed since it. The counter is the low 32 bits of
    /// the register; a counter that wrapped around is accounted for.
    pub fn sample(&mut self, status: u64, now_ns: u64) -> (res: Option<EnergySample>)
        requires
            old(self).wf(),
        ensures
            final(self).wf(),
            final(self).unit_exp_spec() == old(self).unit_exp_spec(),
            final(self).last_spec() == Some(((status as int % energy_modulus()) as u64, now_ns)),
            res == match old(self).last_spec() {
                Some((prev, then)) => if now_ns > then {
                    Some(EnergySample { ticks: energy_ticks(prev, status), elapsed_ns: (now_ns - then) as u64 })
                } else {
                    None::<EnergySample>
                },
                None => None::<EnergySample>,
            },
    {
        let e = status & 0xFFFF_FFFF;
        assert(e == status % 0x1_0000_0000) by (bit_vector)
            requires e == status & 0xFFFF_FFFF;
        let res = match self.last {
            Some((prev, then)) => {
                if now_ns > then {
                    let ticks = if e >= prev { e - prev } else { e + 0x1_0000_0000 - prev };
                    Some(EnergySample { ticks, elapsed_ns: now_ns - then })
                } else {
                    None
                }
            },
            None => None,
        };
        self.last = Some((e, now_ns));
        res
    }
}

/// A sample's steps added to the earlier counter value give the later one,
/// modulo the counter width, and never reach a full counter turn.
pub proof fn lemma_energy_ticks_wrap(prev: u64, cur: u64)
    requires
        prev < energy_modulus(),
    ensures
        energy_ticks(prev, cur) < energy_modulus(),
        (prev + energy_ticks(prev, cur)) % energy_modulus() == cur as int % energy_modulus(),
{
}


/// The battery charge in percent from the raw `BatteryLifePercent` of the
/// system power status, where 255 stands for "unknown".
pub open spec fn battery_spec(raw: u8) -> Option<u8> {
    if raw == 255 {
        None
    } else {
        Some(raw)
    }
}

/// The battery charge in percent, `None` when the system reports it as
/// unknown (255).
pub fn battery_percent(raw: u8) -> (res: Option<u8>)
    ensures
        res == battery_spec(raw),
{
    if raw == 255 {
        None
    } else {
        Some(raw)
    }
}

/// The frequency of the first CPU, or 0 when there is none.
pub open spec fn first_or_zero(s: Seq<u64>) -> u64 {
    if s.len() == 0 {
        0
    } else {
        s[0]
    }
}

/// The frequency (MHz) shown for the CPU: that of the first core, 0 when
/// none is listed.
pub fn cpu_frequency(freqs: &Vec<u64>) -> (f: u64)
    ensures
        f == first_or_zero(freqs@),
{
    if freqs.len() == 0 {
        0
    } else {
        freqs[0]
    }
}

/// The sum of a sequence of counts.
pub open spec fn sum(s: Seq<u64>) -> nat
    decreases s.len(),
{
    if s.len() == 0 {
        0
    } else {
        sum(s.drop_last()) + (s.last() as nat)
    }
}

proof fn lemma_sum_prefix(s: Seq<u64>, i: int)
    requires
        0 <= i <= s.len(),
    ensures
        sum(s.take(i)) <= sum(s),
    decreases s.len() - i,
{
    if i < s.len() {
        lemma_sum_prefix(s, i + 1);
        assert(s.take(i + 1).drop_last() =~= s.take(i));
    } else {
        assert(s.take(i) =~= s);
    }
}

/// The total counts every interface: the empty total is 0, one more
/// interface adds its count, and totals of two lists of interfaces add up.
pub proof fn lemma_sum_adds(s: Seq<u64>, t: Seq<u64>, x: u64)
    ensures
        sum(Seq::<u64>::empty()) == 0,
        sum(s.push(x)) == sum(s) + x,
        sum(s + t) == sum(s) + sum(t),
    decreases t.len(),
{
    assert(s.push(x).drop_last() =~= s);
    if t.len() == 0 {
        assert(s + t =~= s);
    } else {
        lemma_sum_adds(s, t.drop_last(), x);
        assert((s + t).drop_last() =~= s + t.drop_last());
    }
}

/// The bytes moved over all network interfaces since the last refresh.
pub fn total_traffic(counts: &Vec<u64>) -> (t: u64)
    requires
        sum(counts@) <= u64::MAX,
    ensures
        t == sum(counts@),
{
    let mut t: u64 = 0;
    let n = counts.len();
    for i in 0..n
        invariant
            n == counts@.len(),
            sum(counts@) <= u64::MAX,
            t == sum(counts@.take(i as int)),
    {
        proof {
            lemma_sum_prefix(counts@, i + 1);
            assert(counts@.take(i + 1).drop_last() =~= counts@.take(i as int));
        }
        t = t + counts[i];
    }
    assert(counts@.take(n as int) =~= counts@);
    t
}

/// The histories as plain sequences.
pub struct HistoryView {
    pub cpu: Seq<u64>,
    pub gpu: Seq<u64>,
    pub gpu_vram: Seq<u64>,
    pub ram: Seq<u64>,
    pub net_down: Seq<u64>,
    pub net_up: Seq<u64>,
}

/// A sequence of percentages, each at most 100.
pub open spec fn all_pct(s: Seq<u64>) -> bool {
    forall|i: int| 0 <= i < s.len() ==> #[trigger] s[i] <= 100
}

impl HistoryView {
    /// Every history holds at most `HIST_LEN` samples, all six hold the
    /// same number of samples (one per poll), and the percentage histories
    /// hold percentages.
    pub open spec fn wf(self) -> bool {
        &&& self.cpu.len() <= HIST_LEN
        &&& self.gpu.len() == self.cpu.len()
        &&& self.gpu_vram.len() == self.cpu.len()
        &&& self.ram.len() == self.cpu.len()
        &&& self.net_down.len() == self.cpu.len()
        &&& self.net_up.len() == self.cpu.len()
        &&& self.gpu.len() <= HIST_LEN
        &&& self.gpu_vram.len() <= HIST_LEN
        &&& self.ram.len() <= HIST_LEN
        &&& self.net_down.len() <= HIST_LEN
        &&& self.net_up.len() <= HIST_LEN
        &&& all_pct(self.cpu)
        &&& all_pct(self.gpu)
        &&& all_pct(self.gpu_vram)
        &&& all_pct(self.ram)
    }

    /// The histories after one poll's samples are appended.
    pub open spec fn after(self, cpu: u64, gpu: u64, gpu_vram: u64, ram: u64, down: u64, up: u64) -> HistoryView {
        HistoryView {
            cpu: rolled(self.cpu, clamp_pct(cpu)),
            gpu: rolled(self.gpu, clamp_pct(gpu)),
            gpu_vram: rolled(self.gpu_vram, clamp_pct(gpu_vram)),
            ram: rolled(self.ram, clamp_pct(ram)),
            net_down: rolled(self.net_down, down),
            net_up: rolled(self.net_up, up),
        }
    }
}

/// After a poll, every history holds between one and `HIST_LEN` samples,
/// all six the same number, and the percentage histories hold percentages.
pub proof fn lemma_after_poll(h: HistoryView, cpu: u64, gpu: u64, gpu_vram: u64, ram: u64, down: u64, up: u64)
    requires
        h.wf(),
    ensures
        h.after(cpu, gpu, gpu_vram, ram, down, up).wf(),
        1 <= h.after(cpu, gpu, gpu_vram, ram, down, up).cpu.len() <= HIST_LEN,
{
    lemma_push_hist_pct(h.cpu, cpu);
    lemma_push_hist_pct(h.gpu, gpu);
    lemma_push_hist_pct(h.gpu_vram, gpu_vram);
    lemma_push_hist_pct(h.ram, ram);
}

/// What one poll of the hardware yields, as plain values; the floating-point
/// percentages arrive already rounded to whole numbers.
pub struct PollReadings {
    /// Global CPU usage in percent, rounded and clamped to 0..=100.
    pub cpu_usage_pct: u64,
    /// Frequency of each CPU core in MHz.
    pub cpu_freqs_mhz: Vec<u64>,
    /// GPU utilisation in percent, when the GPU could be read.
    pub gpu_usage: Option<u32>,
    /// GPU memory in use in percent, rounded and clamped (0 when unknown).
    pub gpu_vram_pct: u64,
    /// Memory in use in percent, rounded and clamped.
    pub ram_pct: u64,
    /// Bytes received on each network interface since the last refresh.
    pub net_received: Vec<u64>,
    /// Bytes sent on each network interface since the last refresh.
    pub net_transmitted: Vec<u64>,
    /// The mounted volumes.
    pub disks: Vec<DiskReading>,
    /// The raw `BatteryLifePercent` of the system power status.
    pub battery_status: u8,
}

/// The values one poll shows, besides the floating-point ones.
pub struct PollResult {
    /// The clock reading the time and date come from.
    pub clock: ClockReading,
    /// The time of day, `HH:MM`.
    pub time: String,
    /// The date, `MM月DD日`.
    pub date: String,
    /// CPU frequency in MHz, 0 when unknown.
    pub cpu_freq: u64,
    /// Battery charge in percent.
    pub battery: Option<u8>,
    /// Bytes received over all interfaces.
    pub net_down: u64,
    /// Bytes sent over all interfaces.
    pub net_up: u64,
    /// The disks to show.
    pub disks: Vec<DiskUsage>,
    pub cpu_hist: Vec<u64>,
    pub gpu_hist: Vec<u64>,
    pub gpu_vram_hist: Vec<u64>,
    pub ram_hist: Vec<u64>,
    pub net_down_hist: Vec<u64>,
    pub net_up_hist: Vec<u64>,
}

/// The GPU sample of a poll: its utilisation, 0 when unknown.
pub open spec fn gpu_sample(u: Option<u32>) -> u64 {
    match u {
        Some(v) => v as u64,
        None => 0,
    }
}

/// The sums of a poll's network counts fit in 64 bits.
pub open spec fn readings_ok(r: PollReadings) -> bool {
    sum(r.net_received@) <= u64::MAX && sum(r.net_transmitted@) <= u64::MAX
}

/// `res` is what a poll with readings `r` returns when the histories were
/// `old` before it and `new` after it.
pub open spec fn poll_spec(old: HistoryView, r: PollReadings, new: HistoryView, res: PollResult) -> bool {
    &&& new == old.after(r.cpu_usage_pct, gpu_sample(r.gpu_usage), r.gpu_vram_pct, r.ram_pct,
            sum(r.net_received@) as u64, sum(r.net_transmitted@) as u64)
    &&& res.time@ == time_spec(res.clock)
    &&& res.date@ == date_spec(res.clock)
    &&& res.cpu_freq == first_or_zero(r.cpu_freqs_mhz@)
    &&& res.battery == battery_spec(r.battery_status)
    &&& res.net_down == sum(r.net_received@)
    &&& res.net_up == sum(r.net_transmitted@)
    &&& usages_view(res.disks@) == shown(readings_view(r.disks@))
    &&& res.cpu_hist@ == new.cpu
    &&& res.gpu_hist@ == new.gpu
    &&& res.gpu_vram_hist@ == new.gpu_vram
    &&& res.ram_hist@ == new.ram
    &&& res.net_down_hist@ == new.net_down
    &&& res.net_up_hist@ == new.net_up
}

/// The rolling histories kept between polls for the sparkline charts.
pub struct SensorHistory {
    cpu: Vec<u64>,
    gpu: Vec<u64>,
    gpu_vram: Vec<u64>,
    ram: Vec<u64>,
    net_down: Vec<u64>,
    net_up: Vec<u64>,
}

impl View for SensorHistory {
    type V = HistoryView;

    closed spec fn view(&self) -> HistoryView {
        HistoryView {
            cpu: self.cpu@,
            gpu: self.gpu@,
            gpu_vram: self.gpu_vram@,
            ram: self.ram@,
            net_down: self.net_down@,
            net_up: self.net_up@,
        }
    }
}

fn copy_hist(h: &Vec<u64>) -> (c: Vec<u64>)
    ensures
        c@ == h@,
{
    let c = h.clone();
    assert(c@ =~= h@);
    c
}

impl SensorHistory {
    /// Empty histories.
    pub fn new() -> (h: SensorHistory)
        ensures
            h@.wf(),
            h@.cpu.len() == 0,
            h@.gpu.len() == 0,
            h@.gpu_vram.len() == 0,
            h@.ram.len() == 0,
            h@.net_down.len() == 0,
            h@.net_up.len() == 0,
    {
        SensorHistory {
            cpu: Vec::new(),
            gpu: Vec::new(),
            gpu_vram: Vec::new(),
            ram: Vec::new(),
            net_down: Vec::new(),
            net_up: Vec::new(),
        }
    }

    /// Turns one poll's readings, taken at the given clock reading, into
    /// what the dashboard shows, and appends the poll's samples to the
    /// histories.
    pub fn record(&mut self, r: &PollReadings, clock: &ClockReading) -> (res: PollResult)
        requires
            old(self)@.wf(),
            readings_ok(*r),
            clock.wf(),
        ensures
            final(self)@.wf(),
            res.clock == *clock,
            poll_spec(old(self)@, *r, final(self)@, res),
            final(self)@.cpu.len() >= 1,
    {
        let down = total_traffic(&r.net_received);
        let up = total_traffic(&r.net_transmitted);
        let gpu = match r.gpu_usage {
            Some(v) => v as u64,
            None => 0,
        };
        push_hist(&mut self.cpu, r.cpu_usage_pct);
        push_hist(&mut self.gpu, gpu);
        push_hist(&mut self.gpu_vram, r.gpu_vram_pct);
        push_hist(&mut self.ram, r.ram_pct);
        push_hist_raw(&mut self.net_down, down);
        push_hist_raw(&mut self.net_up, up);
        proof {
            lemma_push_hist_pct(old(self)@.cpu, r.cpu_usage_pct);
            lemma_push_hist_pct(old(self)@.gpu, gpu);
            lemma_push_hist_pct(old(self)@.gpu_vram, r.gpu_vram_pct);
            lemma_push_hist_pct(old(self)@.ram, r.ram_pct);
        }
        PollResult {
            clock: *clock,
            time: time_text(clock),
            date: date_text(clock),
            cpu_freq: cpu_frequency(&r.cpu_freqs_mhz),
            battery: battery_percent(r.battery_status),
            net_down: down,
            net_up: up,
            disks: select_disks(&r.disks),
            cpu_hist: copy_hist(&self.cpu),
            gpu_hist: copy_hist(&self.gpu),
            gpu_vram_hist: copy_hist(&self.gpu_vram),
            ram_hist: copy_hist(&self.ram),
            net_down_hist: copy_hist(&self.net_down),
            net_up_hist: copy_hist(&self.net_up),
        }
    }

    /// Like `record`, at the local time now.
    pub fn poll(&mut self, r: &PollReadings) -> (res: PollResult)
        requires
            old(self)@.wf(),
            readings_ok(*r),
        ensures
            final(self)@.wf(),
            res.clock.wf(),
            poll_spec(old(self)@, *r, final(self)@, res),
            final(self)@.cpu.len() >= 1,
    {
        let clock = local_clock();
        self.record(r, &clock)
    }
}

} // verus!
