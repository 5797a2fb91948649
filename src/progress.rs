use vstd::prelude::*;
use vstd::string::StringExecFns;

verus! {

/// Lines cleared so far; every ten lines raise the level by one.
#[derive(Clone, Copy, Debug, PartialEq, Eq, Structural, Default)]
pub struct XP(pub u32);

/// Points scored so far.
#[derive(Clone, Copy, Debug, PartialEq, Eq, Structural, Default)]
pub struct Score(pub u64);

/// Time played, in nanoseconds.
#[derive(Clone, Copy, Debug, PartialEq, Eq, Structural, Default)]
pub struct Stopwatch {
    pub since_begining: u64,
}

/// Nanoseconds in a second.
pub const NANOS_PER_SEC: u64 = 1_000_000_000;

/// The shortest time a row may take to fall, in nanoseconds.
pub const MIN_ROW_DELAY: u64 = 1_000;

pub open spec fn spec_level(xp: int) -> int {
    1 + xp / 10
}

/// The base of the gravity curve at `level`, in thousandths: 0.8 - 0.007 (level - 1).
pub open spec fn gravity_base(level: int) -> int {
    800 - 7 * (level - 1)
}

/// `base / 1000` raised to the power `n`, in nanoseconds, each product rounded down.
pub open spec fn fixed_pow_ns(base: int, n: nat) -> int
    decreases n,
{
    if n == 0 {
        NANOS_PER_SEC as int
    } else {
        fixed_pow_ns(base, (n - 1) as nat) * base / 1000
    }
}

/// Seconds per row at `level`: (0.8 - 0.007 (level - 1)) ^ (level - 1), in
/// nanoseconds, never under `MIN_ROW_DELAY`.
pub open spec fn spec_time_per_row(level: int) -> int {
    let b = gravity_base(level);
    if b <= 0 {
        MIN_ROW_DELAY as int
    } else {
        let t = fixed_pow_ns(b, (level - 1) as nat);
        if t < MIN_ROW_DELAY { MIN_ROW_DELAY as int } else { t }
    }
}

/// Points for clearing `lines` lines at once, before the level factor.
pub open spec fn spec_line_points(lines: int) -> int {
    if lines <= 0 {
        0
    } else if lines == 1 {
        40
    } else if lines == 2 {
        100
    } else if lines == 3 {
        300
    } else {
        1200
    }
}

pub open spec fn saturate_u64(v: int) -> int {
    if v > u64::MAX { u64::MAX as int } else { v }
}

pub open spec fn saturate_u32(v: int) -> int {
    if v > u32::MAX { u32::MAX as int } else { v }
}

proof fn lemma_fixed_pow_shrinks(base: int, m: nat, n: nat)
    requires
        0 < base < 1000,
        m <= n,
    ensures
        0 <= fixed_pow_ns(base, n) <= fixed_pow_ns(base, m),
    decreases n,
{
    if n > 0 {
        let k = if m < n { m } else { (n - 1) as nat };
        lemma_fixed_pow_shrinks(base, k, (n - 1) as nat);
        let p = fixed_pow_ns(base, (n - 1) as nat);
        assert(0 <= p * base / 1000 <= p) by (nonlinear_arith)
            requires
                0 <= p,
                0 < base < 1000,
        ;
    }
}

/// Points for clearing `lines` lines at once, before the level factor.
pub fn line_points(lines: u8) -> (r: u64)
    ensures
        r == spec_line_points(lines as int),
{
    match lines {
        0 => 0,
        1 => 40,
        2 => 100,
        3 => 300,
        _ => 1200,
    }
}

impl XP {
    /// One more than a tenth of the lines cleared.
    pub fn level(&self) -> (r: u32)
        ensures
            r == spec_level(self.0 as int),
    {
        1 + self.0 / 10
    }

    /// The time a piece takes to fall one row at the current level, in nanoseconds.
    pub fn time_per_row(&self) -> (r: u64)
        ensures
            r == spec_time_per_row(spec_level(self.0 as int)),
            r >= MIN_ROW_DELAY,
    {
        let steps: u32 = self.level() - 1;
        if steps >= 115 {
            return MIN_ROW_DELAY;
        }
        let base: u64 = 800 - 7 * steps as u64;
        let mut t: u64 = NANOS_PER_SEC;
        let mut i: u32 = 0;
        while i < steps && t >= MIN_ROW_DELAY
            invariant
                i <= steps < 115,
                base == gravity_base(steps + 1),
                0 < base <= 800,
                t == fixed_pow_ns(base as int, i as nat),
                t <= NANOS_PER_SEC,
            decreases steps - i,
        {
            proof {
                lemma_fixed_pow_shrinks(base as int, i as nat, (i + 1) as nat);
                assert(t * base <= 800_000_000_000) by (nonlinear_arith)
                    requires
                        t <= 1_000_000_000,
                        base <= 800,
                ;
            }
            t = t * base / 1000;
            i += 1;
        }
        proof {
            lemma_fixed_pow_shrinks(base as int, i as nat, steps as nat);
        }
        if t < MIN_ROW_DELAY {
            MIN_ROW_DELAY
        } else {
            t
        }
    }

    /// Counts `lines` more cleared lines (the sum saturates).
    pub fn add_lines(&mut self, lines: u8)
        ensures
            final(self).0 == saturate_u32(old(self).0 + lines),
    {
        self.0 = self.0.saturating_add(lines as u32);
    }

    /// The level, in decimal.
    pub fn to_display_string(&self) -> (r: String)
        ensures
            r@ == decimal(spec_level(self.0 as int) as nat),
    {
        let mut s = String::new();
        write_decimal(&mut s, self.level() as u64);
        s
    }
}

impl Score {
    /// Adds the points of clearing `lines` lines at once at `level` (the sum
    /// saturates).
    pub fn add_cleared(&mut self, lines: u8, level: u32)
        ensures
            final(self).0 == saturate_u64(old(self).0 + level * spec_line_points(lines as int)),
    {
        let points = (level as u64) * line_points(lines);
        self.0 = self.0.saturating_add(points);
    }

    /// The score in decimal, its digits grouped by three with commas.
    pub fn to_display_string(&self) -> (r: String)
        ensures
            r@ == grouped(self.0 as nat),
    {
        let mut s = String::new();
        write_grouped(&mut s, self.0);
        s
    }
}

impl Stopwatch {
    /// Adds `delta` nanoseconds (the sum saturates).
    pub fn tick(&mut self, delta: u64)
        ensures
            final(self).since_begining == saturate_u64(old(self).since_begining + delta),
    {
        self.since_begining = self.since_begining.saturating_add(delta);
    }

    /// Minutes and seconds as `mm:ss`, after the hours in two digits when
    /// there are any.
    pub fn to_display_string(&self) -> (r: String)
        ensures
            r@ == clock_text((self.since_begining / NANOS_PER_SEC) as nat),
    {
        let secs = self.since_begining / NANOS_PER_SEC;
        let hours = secs / 3600;
        let minutes = (secs % 3600) / 60;
        let seconds = secs % 60;
        let mut s = String::new();
        if hours > 0 {
            write_two_digits(&mut s, hours);
        }
        write_two_digits(&mut s, minutes);
        proof {
            reveal_strlit(":");
        }
        s.append(":");
        write_two_digits(&mut s, seconds);
        s
    }
}

pub open spec fn digit_char(d: nat) -> char {
    if d == 0 {
        '0'
    } else if d == 1 {
        '1'
    } else if d == 2 {
        '2'
    } else if d == 3 {
        '3'
    } else if d == 4 {
        '4'
    } else if d == 5 {
        '5'
    } else if d == 6 {
        '6'
    } else if d == 7 {
        '7'
    } else if d == 8 {
        '8'
    } else {
        '9'
    }
}

/// `n` in decimal, without leading zeros.
pub open spec fn decimal(n: nat) -> Seq<char>
    decreases n,
{
    if n < 10 {
        seq![digit_char(n)]
    } else {
        decimal(n / 10).push(digit_char(n % 10))
    }
}

/// `n` in decimal, at least two digits.
pub open spec fn two_digits(n: nat) -> Seq<char> {
    if n < 10 { seq!['0', digit_char(n)] } else { decimal(n) }
}

/// `n < 1000` in exactly three digits.
pub open spec fn three_digits(n: nat) -> Seq<char> {
    seq![digit_char(n / 100), digit_char((n / 10) % 10), digit_char(n % 10)]
}

/// `n` in decimal with a comma between groups of three digits.
pub open spec fn grouped(n: nat) -> Seq<char>
    decreases n,
{
    if n < 1000 {
        decimal(n)
    } else {
        grouped(n / 1000).push(',') + three_digits(n % 1000)
    }
}

pub open spec fn clock_text(secs: nat) -> Seq<char> {
    let h = secs / 3600;
    let m = (secs % 3600) / 60;
    let s = secs % 60;
    (if h > 0 { two_digits(h) } else { Seq::empty() }) + two_digits(m) + seq![':'] + two_digits(s)
}

fn write_digit(s: &mut String, d: u64)
    requires
        d < 10,
    ensures
        final(s)@ == old(s)@.push(digit_char(d as nat)),
{
    proof {
        reveal_strlit("0");
        reveal_strlit("1");
        reveal_strlit("2");
        reveal_strlit("3");
        reveal_strlit("4");
        reveal_strlit("5");
        reveal_strlit("6");
        reveal_strlit("7");
        reveal_strlit("8");
        reveal_strlit("9");
    }
    let ghost before = s@;
    match d {
        0 => s.append("0"),
        1 => s.append("1"),
        2 => s.append("2"),
        3 => s.append("3"),
        4 => s.append("4"),
        5 => s.append("5"),
        6 => s.append("6"),
        7 => s.append("7"),
        8 => s.append("8"),
        _ => s.append("9"),
    }
    assert(s@ =~= before.push(digit_char(d as nat)));
}

fn write_decimal(s: &mut String, n: u64)
    ensures
        final(s)@ == old(s)@ + decimal(n as nat),
    decreases n,
{
    if n < 10 {
        write_digit(s, n);
        assert(final(s)@ =~= old(s)@ + decimal(n as nat));
    } else {
        write_decimal(s, n / 10);
        write_digit(s, n % 10);
        assert(final(s)@ =~= old(s)@ + decimal(n as nat));
    }
}

fn write_two_digits(s: &mut String, n: u64)
    ensures
        final(s)@ == old(s)@ + two_digits(n as nat),
{
    if n < 10 {
        write_digit(s, 0);
        write_digit(s, n);
        assert(final(s)@ =~= old(s)@ + two_digits(n as nat));
    } else {
        write_decimal(s, n);
    }
}

fn write_grouped(s: &mut String, n: u64)
    ensures
        final(s)@ == old(s)@ + grouped(n as nat),
    decreases n,
{
    if n < 1000 {
        write_decimal(s, n);
    } else {
        write_grouped(s, n / 1000);
        proof {
            reveal_strlit(",");
        }
        s.append(",");
        let m = n % 1000;
        write_digit(s, m / 100);
        write_digit(s, (m / 10) % 10);
        write_digit(s, m % 10);
        assert(final(s)@ =~= old(s)@ + grouped(n as nat));
    }
}

} // verus!
