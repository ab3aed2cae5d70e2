//! Snapshot cadence and naming.
//!
//! The manager decides on which ticks a snapshot falls due and what the
//! snapshot file is called.  Writing the file is the caller's business.

use vstd::prelude::*;
use vstd::string::StringExecFns;

verus! {

/// When snapshots are taken and where they go.
#[derive(Clone, Debug)]
pub struct SnapshotConfig {
    /// A snapshot falls due every `interval` ticks; 0 switches them off.
    pub interval: u64,
    /// Root directory for snapshot files.
    pub output_dir: String,
}

impl SnapshotConfig {
    pub fn with_output_dir(self, dir: String) -> (r: Self)
        ensures
            r.interval == self.interval,
            r.output_dir@ == dir@,
    {
        Self { interval: self.interval, output_dir: dir }
    }
}

impl Default for SnapshotConfig {
    fn default() -> (r: Self)
        ensures
            r.interval == 5,
            r.output_dir@ == "snapshots"@,
    {
        Self { interval: 5, output_dir: "snapshots".to_owned() }
    }
}

/// Facts written next to a snapshot.
#[derive(Debug, Clone)]
pub struct SnapshotMetadata {
    pub tick: u64,
    pub timestamp: String,
    pub entity_count: usize,
}

/// A snapshot that could not be taken.
#[derive(Debug)]
pub enum SnapshotError {
    /// The write failed; the field carries the reporting text.
    Io(String),
}

/// A snapshot falls due exactly on the positive ticks that are whole
/// multiples of a positive interval.
pub open spec fn spec_should_snapshot(interval: u64, tick: u64) -> bool {
    interval > 0 && tick > 0 && tick % interval == 0
}

/// Decides snapshot cadence.
pub struct SnapshotManager {
    config: SnapshotConfig,
}

impl SnapshotManager {
    pub closed spec fn spec_interval(&self) -> u64 {
        self.config.interval
    }

    pub closed spec fn spec_output_dir(&self) -> Seq<char> {
        self.config.output_dir@
    }

    pub fn new(config: SnapshotConfig) -> (r: Self)
        ensures
            r.spec_interval() == config.interval,
            r.spec_output_dir() == config.output_dir@,
    {
        Self { config }
    }

    /// Whether a snapshot falls due on this tick, and on no other.
    pub fn should_snapshot(&self, tick: u64) -> (due: bool)
        ensures
            due == spec_should_snapshot(self.spec_interval(), tick),
    {
        if self.config.interval == 0 {
            return false;
        }
        tick > 0 && tick % self.config.interval == 0
    }

    /// The file name of the snapshot for this tick.
    pub fn snapshot_file_name(&self, tick: u64) -> (name: String)
        ensures
            name@ == spec_tick_file_name(tick as nat),
    {
        tick_file_name(tick)
    }
}

/// The decimal digit characters.
pub open spec fn spec_digit_char(d: nat) -> char {
    if d == 0 {
        '0'
    } else if d == 1 {
        '1'
    } else if d == 2 {
        '2'
    } else if d == 3 {
        '3'
    } else if d == 4 {
        '4'
    } else if d == 5 {
        '5'
    } else if d == 6 {
        '6'
    } else if d == 7 {
        '7'
    } else if d == 8 {
        '8'
    } else {
        '9'
    }
}

/// The decimal digits of a number, most significant first.
pub open spec fn spec_digits(n: nat) -> Seq<char>
    decreases n,
{
    if n < 10 {
        seq![spec_digit_char(n)]
    } else {
        spec_digits(n / 10).push(spec_digit_char(n % 10))
    }
}

/// The zeros that pad a number to at least six digits.
pub open spec fn spec_zero_pad(n: nat) -> Seq<char> {
    if n < 10 {
        "00000"@
    } else if n < 100 {
        "0000"@
    } else if n < 1000 {
        "000"@
    } else if n < 10000 {
        "00"@
    } else if n < 100000 {
        "0"@
    } else {
        Seq::empty()
    }
}

/// The name of the snapshot file of a tick: `tick_` and the tick number,
/// zero-padded to at least six digits, with a `.json` ending.
pub open spec fn spec_tick_file_name(tick: nat) -> Seq<char> {
    "tick_"@ + spec_zero_pad(tick) + spec_digits(tick) + ".json"@
}

/// A single decimal digit as text.
fn digit_str(d: u64) -> (r: &'static str)
    requires
        d < 10,
    ensures
        r@ =~= seq![spec_digit_char(d as nat)],
{
    proof {
        reveal_strlit("0");
        reveal_strlit("1");
        reveal_strlit("2");
        reveal_strlit("3");
        reveal_strlit("4");
        reveal_strlit("5");
        reveal_strlit("6");
        reveal_strlit("7");
        reveal_strlit("8");
        reveal_strlit("9");
    }
    if d == 0 {
        "0"
    } else if d == 1 {
        "1"
    } else if d == 2 {
        "2"
    } else if d == 3 {
        "3"
    } else if d == 4 {
        "4"
    } else if d == 5 {
        "5"
    } else if d == 6 {
        "6"
    } else if d == 7 {
        "7"
    } else if d == 8 {
        "8"
    } else {
        "9"
    }
}

/// Append the decimal digits of a number to a string.
fn push_decimal(out: &mut String, n: u64)
    ensures
        final (out)@ == old(out)@ + spec_digits(n as nat),
    decreases n,
{
    if n >= 10 {
        proof {
            assert(n / 10 < n) by (nonlinear_arith)
                requires
                    n >= 10,
            ;
        }
        push_decimal(out, n / 10);
        let d = digit_str(n % 10);
        out.append(d);
        proof {
            assert(old(out)@ + spec_digits((n / 10) as nat) + seq![
                spec_digit_char((n % 10) as nat),
            ] =~= old(out)@ + spec_digits(n as nat));
        }
    } else {
        let d = digit_str(n);
        out.append(d);
        proof {
            assert(old(out)@ + seq![spec_digit_char(n as nat)] =~= old(out)@ + spec_digits(
                n as nat,
            ));
        }
    }
}

/// The snapshot file name of a tick, zero-padded to at least six digits.
pub fn tick_file_name(tick: u64) -> (name: String)
    ensures
        name@ == spec_tick_file_name(tick as nat),
{
    let mut name: String = "tick_".to_owned();
    if tick < 10 {
        name.append("00000");
    } else if tick < 100 {
        name.append("0000");
    } else if tick < 1000 {
        name.append("000");
    } else if tick < 10000 {
        name.append("00");
    } else if tick < 100000 {
        name.append("0");
    }
    proof {
        assert(name@ =~= "tick_"@ + spec_zero_pad(tick as nat));
    }
    push_decimal(&mut name, tick);
    name.append(".json");
    proof {
        assert(name@ =~= spec_tick_file_name(tick as nat));
    }
    name
}

} // verus!
