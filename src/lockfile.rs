//! The single-instance protocol: a lockfile that holds the running
//! instance's process id in decimal, and what a starting instance does with
//! what it finds there.
use vstd::prelude::*;

verus! {

/// Name of the lockfile inside the runtime directory.
pub const LOCKFILE_NAME: &'static str = "monitor_blank.lock";

/// The largest process id that the signal interface can name.
pub const PID_MAX: u32 = 0x7fff_ffff;

/// An ASCII whitespace byte: space, tab, line feed, vertical tab, form feed or
/// carriage return.
pub open spec fn is_space(b: u8) -> bool {
    b == 0x20 || (0x09 <= b && b <= 0x0d)
}

/// An ASCII decimal digit.
pub open spec fn is_digit(b: u8) -> bool {
    0x30 <= b && b <= 0x39
}

/// `s` without its leading whitespace.
pub open spec fn trim_start(s: Seq<u8>) -> Seq<u8>
    decreases s.len(),
{
    if s.len() > 0 && is_space(s[0]) {
        trim_start(s.drop_first())
    } else {
        s
    }
}

/// `s` without its trailing whitespace.
pub open spec fn trim_end(s: Seq<u8>) -> Seq<u8>
    decreases s.len(),
{
    if s.len() > 0 && is_space(s.last()) {
        trim_end(s.drop_last())
    } else {
        s
    }
}

/// `s` without its leading and trailing whitespace.
pub open spec fn trimmed(s: Seq<u8>) -> Seq<u8> {
    trim_end(trim_start(s))
}

/// Every byte of `s` is a digit.
pub open spec fn all_digits(s: Seq<u8>) -> bool {
    forall|i: int| 0 <= i < s.len() ==> is_digit(#[trigger] s[i])
}

/// The number that the digits of `s` spell in decimal, most significant
/// first; a byte that is no digit counts as 0.
pub open spec fn decimal_value(s: Seq<u8>) -> nat
    decreases s.len(),
{
    if s.len() == 0 {
        0
    } else {
        let b = s.last();
        let d: nat = if is_digit(b) { (b - 0x30) as nat } else { 0 };
        10 * decimal_value(s.drop_last()) + d
    }
}

/// The process id that lockfile contents `s` name: after trimming
/// whitespace, one or more decimal digits that spell a number from 1 to
/// `PID_MAX`. Anything else names no process.
pub open spec fn parse_pid(s: Seq<u8>) -> Option<u32> {
    let t = trimmed(s);
    if t.len() > 0 && all_digits(t) && 0 < decimal_value(t) <= PID_MAX {
        Some(decimal_value(t) as u32)
    } else {
        None
    }
}

/// The decimal digits of `n`, most significant first, with no leading zero.
pub open spec fn decimal(n: nat) -> Seq<u8>
    decreases n,
{
    if n < 10 {
        seq![(0x30 + n) as u8]
    } else {
        decimal(n / 10).push((0x30 + n % 10) as u8)
    }
}

/// What the liveness probe of a process id found.
#[derive(Clone, Copy, Debug, PartialEq, Eq, Structural)]
pub enum Liveness {
    /// The process exists and may be signalled.
    Alive,
    /// No such process.
    Gone,
    /// The process exists but belongs to someone else.
    NotPermitted,
}

/// What a starting instance does.
#[derive(Clone, Copy, Debug, PartialEq, Eq, Structural)]
pub enum Startup {
    /// Another instance holds the lock: ask it to terminate, then exit.
    Yield { pid: u32 },
    /// No live holder: write our own process id and run.
    Claim,
}

/// The decision of a starting instance, from the process id that the lockfile
/// names (if any) and what the liveness probe of that id found.
pub open spec fn startup_spec(holder: Option<u32>, probe: Liveness) -> Startup {
    match holder {
        Some(pid) => if probe == Liveness::Gone {
            Startup::Claim
        } else {
            Startup::Yield { pid }
        },
        None => Startup::Claim,
    }
}

/// Decides what a starting instance does: a holder that is alive, ours or
/// not, is asked to terminate and we yield; a missing, unreadable or stale
/// lockfile is claimed. The probe is ignored where no process is named.
pub fn startup_decision(holder: Option<u32>, probe: Liveness) -> (r: Startup)
    ensures
        r == startup_spec(holder, probe),
{
    match holder {
        Some(pid) => if probe == Liveness::Gone {
            Startup::Claim
        } else {
            Startup::Yield { pid }
        },
        None => Startup::Claim,
    }
}

fn is_space_byte(b: u8) -> (r: bool)
    ensures
        r == is_space(b),
{
    b == 0x20 || (0x09 <= b && b <= 0x0d)
}

/// A prefix of a run of bytes spells at most the number that the whole run
/// spells.
proof fn lemma_value_grows(t: Seq<u8>, i: int)
    requires
        0 <= i <= t.len(),
    ensures
        decimal_value(t.take(i)) <= decimal_value(t),
    decreases t.len() - i,
{
    if i < t.len() {
        lemma_value_grows(t, i + 1);
        assert(t.take(i + 1).drop_last() =~= t.take(i));
        assert(decimal_value(t.take(i)) <= decimal_value(t.take(i + 1)));
    } else {
        assert(t.take(i) =~= t);
    }
}

/// Reads the process id from the lockfile's contents.
pub fn read_pid(contents: &[u8]) -> (r: Option<u32>)
    ensures
        r == parse_pid(contents@),
{
    let ghost s = contents@;
    let n = contents.len();
    let mut lo: usize = 0;
    assert(s.subrange(0, n as int) =~= s);
    while lo < n && is_space_byte(contents[lo])
        invariant
            n == s.len(),
            s == contents@,
            lo <= n,
            trim_start(s) == trim_start(s.subrange(lo as int, n as int)),
        decreases n - lo,
    {
        assert(s.subrange(lo as int, n as int).drop_first() =~= s.subrange(lo + 1, n as int));
        lo = lo + 1;
    }
    let ghost front = s.subrange(lo as int, n as int);
    assert(trim_start(s) == front);
    let mut hi: usize = n;
    while hi > lo && is_space_byte(contents[hi - 1])
        invariant
            n == s.len(),
            s == contents@,
            lo <= hi <= n,
            front == s.subrange(lo as int, n as int),
            trim_end(front) == trim_end(s.subrange(lo as int, hi as int)),
        decreases hi - lo,
    {
        assert(s.subrange(lo as int, hi as int).drop_last() =~= s.subrange(lo as int, hi - 1));
        hi = hi - 1;
    }
    let ghost t = s.subrange(lo as int, hi as int);
    assert(trimmed(s) == t);
    if lo == hi {
        return None;
    }
    let mut acc: u64 = 0;
    let mut i: usize = lo;
    while i < hi
        invariant
            n == s.len(),
            s == contents@,
            lo <= i <= hi <= n,
            t == s.subrange(lo as int, hi as int),
            trimmed(s) == t,
            all_digits(t.take(i - lo)),
            acc == decimal_value(t.take(i - lo)),
            acc <= PID_MAX,
        decreases hi - i,
    {
        let b = contents[i];
        assert(t[i - lo] == b);
        if b < 0x30 || b > 0x39 {
            assert(!is_digit(t[i - lo]));
            assert(!all_digits(t));
            return None;
        }
        assert(t.take(i - lo + 1).drop_last() =~= t.take(i - lo));
        assert(t.take(i - lo + 1).last() == b);
        acc = acc * 10 + (b - 0x30) as u64;
        if acc > PID_MAX as u64 {
            proof {
                lemma_value_grows(t, i - lo + 1);
            }
            return None;
        }
        assert(all_digits(t.take(i - lo + 1)));
        i = i + 1;
    }
    assert(t.take(hi - lo) =~= t);
    if acc == 0 {
        return None;
    }
    Some(acc as u32)
}

/// Appends the decimal digits of `n` to `out`.
fn push_decimal(n: u32, out: &mut Vec<u8>)
    ensures
        final(out)@ == old(out)@ + decimal(n as nat),
    decreases n,
{
    if n >= 10 {
        push_decimal(n / 10, out);
    }
    out.push(0x30 + (n % 10) as u8);
    proof {
        if n >= 10 {
            assert(decimal(n as nat) == decimal((n / 10) as nat).push((0x30 + n % 10) as u8));
        }
    }
    assert(out@ =~= old(out)@ + decimal(n as nat));
}

/// The lockfile's contents for process `pid`: its decimal digits, nothing
/// more.
pub fn pid_record(pid: u32) -> (r: Vec<u8>)
    ensures
        r@ == decimal(pid as nat),
{
    let mut out: Vec<u8> = Vec::new();
    push_decimal(pid, &mut out);
    assert(out@ =~= decimal(pid as nat));
    out
}

/// The decimal form of `n` is a nonempty run of digits that spells `n`.
pub proof fn lemma_decimal_spells(n: nat)
    ensures
        decimal(n).len() > 0,
        all_digits(decimal(n)),
        decimal_value(decimal(n)) == n,
    decreases n,
{
    if n >= 10 {
        lemma_decimal_spells(n / 10);
        let d = decimal(n);
        assert(d.drop_last() =~= decimal(n / 10));
        assert forall|i: int| 0 <= i < d.len() implies is_digit(#[trigger] d[i]) by {
            if i < d.len() - 1 {
                assert(d[i] == decimal(n / 10)[i]);
            }
        }
        assert(d.last() == (0x30 + n % 10) as u8);
        assert(decimal_value(d) == 10 * decimal_value(decimal(n / 10)) + n % 10);
        assert(n == 10 * (n / 10) + n % 10);
    } else {
        let d = decimal(n);
        assert(d.drop_last() =~= Seq::<u8>::empty());
        assert(decimal_value(d) == 10 * decimal_value(d.drop_last()) + n);
    }
}

/// A lockfile written for `pid` reads back as `pid`.
pub proof fn lemma_pid_round_trip(pid: u32)
    requires
        0 < pid <= PID_MAX,
    ensures
        parse_pid(decimal(pid as nat)) == Some(pid),
{
    let d = decimal(pid as nat);
    lemma_decimal_spells(pid as nat);
    assert(is_digit(d[0]));
    assert(trim_start(d) == d);
    assert(is_digit(d.last()));
    assert(trim_end(d) == d);
}

} // verus!
