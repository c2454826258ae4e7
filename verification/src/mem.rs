//! Memory usage computed from the system's memory statistics file.
//!
//! The file is scanned line by line until both the total and the available
//! quantities have been seen; usage is the used share of the total, rounded
//! down. The reader re-reads the file from its start each cycle and hands
//! the raw bytes to [`read_usage_percentage`].

use vstd::prelude::*;
use vstd::string::StringSliceAdditionalSpecFns;

use crate::num::parse_u64_bytes;
use crate::num::parse_u64_bytes_spec;
use crate::scan::find_byte_in;
use crate::scan::find_in;

verus! {

/// Why the statistics file could not be interpreted.
#[derive(Clone, Copy, PartialEq, Eq, Structural, Debug)]
pub enum MemError {
    /// The file ended before both quantities were found.
    UnexpectedEof,
    /// A line held nothing but whitespace.
    MissingKey,
    /// A line held a key but no value.
    MissingValue,
    /// The value of a needed field was not a number.
    InvalidNumber,
    /// The quantities cannot be a usage figure: a zero total, or more
    /// available than total.
    InvalidTotals,
}

/// An ASCII whitespace byte, as the token separator of the statistics file.
pub open spec fn is_ws(b: u8) -> bool {
    (9 <= b && b <= 13) || b == 32
}

/// First index in `[from, to)` holding a non-whitespace byte, or `to`.
pub open spec fn first_non_ws(s: Seq<u8>, from: int, to: int) -> int
    decreases to - from,
{
    if from < 0 || from >= to || to > s.len() {
        to
    } else if is_ws(s[from]) {
        first_non_ws(s, from + 1, to)
    } else {
        from
    }
}

/// First index in `[from, to)` holding a whitespace byte, or `to`.
pub open spec fn first_ws(s: Seq<u8>, from: int, to: int) -> int
    decreases to - from,
{
    if from < 0 || from >= to || to > s.len() {
        to
    } else if is_ws(s[from]) {
        from
    } else {
        first_ws(s, from + 1, to)
    }
}

/// Finds the first non-whitespace byte in `s[from..to]`.
fn first_non_ws_idx(s: &[u8], from: usize, to: usize) -> (r: usize)
    requires
        from <= to <= s@.len(),
    ensures
        r == first_non_ws(s@, from as int, to as int),
        from <= r <= to,
{
    let mut i: usize = from;
    while i < to
        invariant
            from <= i <= to <= s@.len(),
            first_non_ws(s@, from as int, to as int) == first_non_ws(s@, i as int, to as int),
        decreases to - i,
    {
        if !(s[i] == 32 || (9 <= s[i] && s[i] <= 13)) {
            return i;
        }
        assert(first_non_ws(s@, i as int, to as int) == first_non_ws(s@, i + 1, to as int));
        i = i + 1;
    }
    to
}

/// Finds the first whitespace byte in `s[from..to]`.
fn first_ws_idx(s: &[u8], from: usize, to: usize) -> (r: usize)
    requires
        from <= to <= s@.len(),
    ensures
        r == first_ws(s@, from as int, to as int),
        from <= r <= to,
{
    let mut i: usize = from;
    while i < to
        invariant
            from <= i <= to <= s@.len(),
            first_ws(s@, from as int, to as int) == first_ws(s@, i as int, to as int),
        decreases to - i,
    {
        if s[i] == 32 || (9 <= s[i] && s[i] <= 13) {
            return i;
        }
        assert(first_ws(s@, i as int, to as int) == first_ws(s@, i + 1, to as int));
        i = i + 1;
    }
    to
}

/// The usage percentage denoted by quantities found so far, if both are in.
pub open spec fn usage_of(avail: u64, total: u64) -> Result<u8, MemError> {
    if total == 0 || avail > total {
        Err(MemError::InvalidTotals)
    } else {
        Ok((((total - avail) * 100 / (total as int)) as u8))
    }
}

/// What scanning the statistics file from byte `from` yields, with the
/// quantities already seen: each line's first token names a field and its
/// second token is the value; the scan stops at the first line after which
/// both quantities are known.
pub open spec fn meminfo_from_spec(
    s: Seq<u8>,
    from: int,
    avail: Option<u64>,
    total: Option<u64>,
) -> Result<u8, MemError>
    decreases s.len() - from,
{
    if from < 0 || from >= s.len() {
        Err(MemError::UnexpectedEof)
    } else {
        // The range test on `le` always passes (`find_in` stays inside the
        // range it was given); it keeps the recursion visibly well-founded.
        let line_end = match find_in(s, from, s.len() as int, 10u8) {
            Some(le) => if from <= le < s.len() {
                le
            } else {
                s.len() as int
            },
            None => s.len() as int,
        };
        let next = if line_end < s.len() {
            line_end + 1
        } else {
            s.len() as int
        };
        let key_start = first_non_ws(s, from, line_end);
        if key_start >= line_end {
            Err(MemError::MissingKey)
        } else {
            let key_end = first_ws(s, key_start, line_end);
            let key = s.subrange(key_start, key_end);
            let val_start = first_non_ws(s, key_end, line_end);
            if val_start >= line_end {
                Err(MemError::MissingValue)
            } else {
                let val_end = first_ws(s, val_start, line_end);
                let val = s.subrange(val_start, val_end);
                let is_avail = key == "MemAvailable:".spec_bytes();
                let is_total = key == "MemTotal:".spec_bytes();
                if (is_avail || is_total) && parse_u64_bytes_spec(val) is None {
                    Err(MemError::InvalidNumber)
                } else {
                    let avail2 = if is_avail {
                        parse_u64_bytes_spec(val)
                    } else {
                        avail
                    };
                    let total2 = if is_total {
                        parse_u64_bytes_spec(val)
                    } else {
                        total
                    };
                    match (avail2, total2) {
                        (Some(a), Some(t)) => usage_of(a, t),
                        _ => meminfo_from_spec(s, next, avail2, total2),
                    }
                }
            }
        }
    }
}

/// What the whole statistics file yields.
pub open spec fn meminfo_spec(s: Seq<u8>) -> Result<u8, MemError> {
    meminfo_from_spec(s, 0, None, None)
}

/// Scans the statistics file for the total and available quantities and
/// computes the usage percentage, the used share of the total rounded down.
pub fn read_usage_percentage(content: &[u8]) -> (r: Result<u8, MemError>)
    ensures
        r == meminfo_spec(content@),
{
    let len: usize = content.len();
    let mut from: usize = 0;
    let mut avail: Option<u64> = None;
    let mut total: Option<u64> = None;
    while from < len
        invariant
            from <= len == content@.len(),
            meminfo_spec(content@) == meminfo_from_spec(
                content@,
                from as int,
                avail,
                total,
            ),
            !(avail is Some && total is Some),
        decreases len - from,
    {
        let ghost g_from = from as int;
        let ghost g_avail = avail;
        let ghost g_total = total;
        let line_end = match find_byte_in(content, from, len, 10u8) {
            Some(le) => {
                proof {
                    crate::scan::lemma_find_in(content@, from as int, len as int, 10u8);
                }
                le
            },
            None => len,
        };
        let key_start = first_non_ws_idx(content, from, line_end);
        if key_start >= line_end {
            return Err(MemError::MissingKey);
        }
        let key_end = first_ws_idx(content, key_start, line_end);
        let key: &[u8] = &content[key_start..key_end];
        let val_start = first_non_ws_idx(content, key_end, line_end);
        if val_start >= line_end {
            return Err(MemError::MissingValue);
        }
        let val_end = first_ws_idx(content, val_start, line_end);
        let val: &[u8] = &content[val_start..val_end];
        let is_avail = crate::scan::bytes_eq(key, "MemAvailable:".as_bytes());
        let is_total = crate::scan::bytes_eq(key, "MemTotal:".as_bytes());
        if is_avail || is_total {
            let parsed = match parse_u64_bytes(val) {
                Some(v) => v,
                None => {
                    return Err(MemError::InvalidNumber);
                },
            };
            if is_avail {
                avail = Some(parsed);
            }
            if is_total {
                total = Some(parsed);
            }
        }
        match (avail, total) {
            (Some(a), Some(t)) => {
                if t == 0 || a > t {
                    return Err(MemError::InvalidTotals);
                }
                let wide: u128 = ((t - a) as u128) * 100 / (t as u128);
                proof {
                    assert(((t - a) as int) * 100 / (t as int) <= 100) by (nonlinear_arith)
                        requires
                            0 < t <= u64::MAX,
                            0 <= a <= t,
                    ;
                }
                return Ok(wide as u8);
            },
            _ => {},
        }
        if line_end >= len {
            from = len;
        } else {
            from = line_end + 1;
        }
        proof {
            assert(meminfo_from_spec(content@, g_from, g_avail, g_total) == meminfo_from_spec(
                content@,
                from as int,
                avail,
                total,
            ));
        }
    }
    Err(MemError::UnexpectedEof)
}

/// How long after a refresh the next one is due, in milliseconds.
pub const MEM_REFRESH_INTERVAL_MS: u64 = 60_000;

/// The memory usage source: the last percentage shown and the instant, in
/// milliseconds of the caller's monotonic clock, by which it must be
/// refreshed again.
pub struct Mem {
    /// The last usage percentage successfully read.
    pub percentage: u8,
    /// When the next refresh is due.
    pub deadline_ms: u64,
}

/// The deadline set after a refresh at `now_ms`.
pub open spec fn mem_deadline(now_ms: u64) -> u64 {
    if now_ms + MEM_REFRESH_INTERVAL_MS > u64::MAX {
        u64::MAX
    } else {
        (now_ms + MEM_REFRESH_INTERVAL_MS) as u64
    }
}

/// What one refresh does: a successful read replaces the percentage and is
/// dirty exactly when the figure changed; a failed read keeps the last
/// known figure and is never dirty; either way the next deadline is set.
pub open spec fn mem_step(m: Mem, parsed: Result<u8, MemError>, now_ms: u64) -> (Mem, bool) {
    match parsed {
        Ok(p) => (Mem { percentage: p, deadline_ms: mem_deadline(now_ms) }, p != m.percentage),
        Err(_) => (
            Mem { percentage: m.percentage, deadline_ms: mem_deadline(now_ms) },
            false,
        ),
    }
}

impl Mem {
    /// Builds the source from a first successful read of the statistics
    /// file; a file that does not parse means the source is not created.
    pub fn open_from_content(content: &[u8], now_ms: u64) -> (r: Result<Mem, MemError>)
        ensures
            match r {
                Ok(m) => meminfo_spec(content@) == Ok::<u8, MemError>(m.percentage)
                    && m.deadline_ms == mem_deadline(now_ms),
                Err(e) => meminfo_spec(content@) == Err::<u8, MemError>(e),
            },
    {
        match read_usage_percentage(content) {
            Ok(p) => Ok(
                Mem {
                    percentage: p,
                    deadline_ms: now_ms.saturating_add(MEM_REFRESH_INTERVAL_MS),
                },
            ),
            Err(e) => Err(e),
        }
    }

    /// Refreshes from a fresh read of the statistics file.
    pub fn refresh_from_content(&mut self, content: &[u8], now_ms: u64) -> (dirty: bool)
        ensures
            (*final(self), dirty) == mem_step(*old(self), meminfo_spec(content@), now_ms),
    {
        let deadline = now_ms.saturating_add(MEM_REFRESH_INTERVAL_MS);
        match read_usage_percentage(content) {
            Ok(p) => {
                let dirty = p != self.percentage;
                self.percentage = p;
                self.deadline_ms = deadline;
                dirty
            },
            Err(_) => {
                self.deadline_ms = deadline;
                false
            },
        }
    }

    /// Notes a refresh whose read failed before any bytes were had: the
    /// figure is kept and the next deadline is still set.
    pub fn refresh_failed(&mut self, now_ms: u64) -> (dirty: bool)
        ensures
            !dirty,
            final(self).percentage == old(self).percentage,
            final(self).deadline_ms == mem_deadline(now_ms),
    {
        self.deadline_ms = now_ms.saturating_add(MEM_REFRESH_INTERVAL_MS);
        false
    }

    /// A memory usage at or above 70 percent is flagged as a warning.
    pub fn is_warning(&self) -> (r: bool)
        ensures
            r == (self.percentage >= 70),
    {
        self.percentage >= 70
    }

    /// When this source must next be refreshed.
    pub fn timeout_ms(&self) -> (r: Option<u64>)
        ensures
            r == Some(self.deadline_ms),
    {
        Some(self.deadline_ms)
    }
}

/// Refreshing twice from an unchanged statistics file is never dirty the
/// second time: the first refresh already recorded the figure.
pub proof fn lemma_mem_refresh_idempotent(
    m: Mem,
    parsed: Result<u8, MemError>,
    now1: u64,
    now2: u64,
)
    ensures
        !mem_step(mem_step(m, parsed, now1).0, parsed, now2).1,
{
}

} // verus!
