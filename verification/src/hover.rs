//! The headless hover probe's rules: where to aim the mouseover pick when the window has no OS
//! cursor of its own, and when to say what the pick found.
//!
//! `WOW_HOVER_PROBE` names the aim: `centre` (or `center`) for the window's middle, `<x>,<y>` for
//! a point in the window's own cursor space, or `sweep` for a fixed 7 × 5 grid across the middle
//! half of the window, one cell per frame, cycling. The report speaks once per *change*, so a
//! stationary probe does not flood the log.
use vstd::prelude::*;
use crate::text::{chars_of, trim_bounds, trim_seq};

verus! {

/// Where the probe aims.
#[derive(Clone, Copy, PartialEq, Eq, Debug, Structural)]
pub enum Aim {
    /// The window's middle.
    Centre,
    /// That point, in logical pixels, y down.
    At(i32, i32),
    /// The grid, one cell per frame.
    Sweep,
}

/// The sweep grid's columns.
pub const SWEEP_COLS: u64 = 7;

/// The sweep grid's rows.
pub const SWEEP_ROWS: u64 = 5;

/// The value of a run of decimal digits.
pub open spec fn digits_value(ds: Seq<char>) -> int
    decreases ds.len(),
{
    if ds.len() == 0 {
        0
    } else {
        digits_value(ds.drop_last()) * 10 + ((ds.last() as int) - 48)
    }
}

/// At least one character, every one an ASCII digit.
pub open spec fn all_digits(ds: Seq<char>) -> bool {
    ds.len() > 0 && forall|i: int| 0 <= i < ds.len() ==> '0' <= #[trigger] ds[i] && ds[i] <= '9'
}

/// `str::parse::<i32>`: an optional `+` or `-`, then at least one ASCII digit, and a value that
/// fits.
pub open spec fn parse_i32(s: Seq<char>) -> Option<i32> {
    let neg = s.len() > 0 && s[0] == '-';
    let body = if s.len() > 0 && (s[0] == '-' || s[0] == '+') {
        s.drop_first()
    } else {
        s
    };
    let v = if neg {
        -digits_value(body)
    } else {
        digits_value(body)
    };
    if all_digits(body) && i32::MIN <= v <= i32::MAX {
        Some(v as i32)
    } else {
        None
    }
}

proof fn lemma_digits_grow(ds: Seq<char>, k: int)
    requires
        all_digits(ds),
        0 < k <= ds.len(),
    ensures
        digits_value(ds) >= digits_value(ds.take(k)),
        digits_value(ds.take(k)) >= 0,
    decreases ds.len(),
{
    assert(all_digits(ds.take(k))) by {
        assert forall|i: int| 0 <= i < ds.take(k).len() implies '0' <= #[trigger] ds.take(k)[i]
            && ds.take(k)[i] <= '9' by {
            assert(ds.take(k)[i] == ds[i]);
        }
    }
    lemma_digits_nonneg(ds.take(k));
    if k < ds.len() {
        let d = ds.drop_last();
        assert(d.take(k) =~= ds.take(k));
        if d.len() > 0 {
            assert(all_digits(d)) by {
                assert forall|i: int| 0 <= i < d.len() implies '0' <= #[trigger] d[i] && d[i] <= '9' by {
                    assert(d[i] == ds[i]);
                }
            }
            lemma_digits_grow(d, k);
        }
        assert(ds.last() == ds[ds.len() - 1]);
    } else {
        assert(ds.take(k) =~= ds);
    }
}

proof fn lemma_digits_nonneg(ds: Seq<char>)
    requires
        forall|i: int| 0 <= i < ds.len() ==> '0' <= #[trigger] ds[i] && ds[i] <= '9',
    ensures
        digits_value(ds) >= 0,
    decreases ds.len(),
{
    if ds.len() > 0 {
        let d = ds.drop_last();
        assert forall|i: int| 0 <= i < d.len() implies '0' <= #[trigger] d[i] && d[i] <= '9' by {
            assert(d[i] == ds[i]);
        }
        lemma_digits_nonneg(d);
        assert(ds.last() == ds[ds.len() - 1]);
    }
}

/// `str::parse::<i32>` over characters.
pub fn parse_i32_of(s: &[char]) -> (r: Option<i32>)
    ensures
        r == parse_i32(s@),
{
    let n = s.len();
    let neg = n > 0 && s[0] == '-';
    let start: usize = if n > 0 && (s[0] == '-' || s[0] == '+') {
        1
    } else {
        0
    };
    let ghost body = if s@.len() > 0 && (s@[0] == '-' || s@[0] == '+') {
        s@.drop_first()
    } else {
        s@
    };
    assert(body =~= s@.subrange(start as int, n as int));
    if start == n {
        return None;
    }
    let mut acc: i64 = 0;
    let mut i = start;
    while i < n
        invariant
            start <= i <= n,
            start < n,
            n == s@.len(),
            body == s@.subrange(start as int, n as int),
            body == (if s@.len() > 0 && (s@[0] == '-' || s@[0] == '+') {
                s@.drop_first()
            } else {
                s@
            }),
            neg == (s@.len() > 0 && s@[0] == '-'),
            forall|j: int| start <= j < i ==> '0' <= #[trigger] s@[j] && s@[j] <= '9',
            acc == digits_value(s@.subrange(start as int, i as int)),
            0 <= acc <= 2147483648,
        decreases n - i,
    {
        let c = s[i];
        if !('0' <= c && c <= '9') {
            proof {
                assert(body[i - start] == c);
            }
            return None;
        }
        let d = (c as u32 - 48) as i64;
        assert(s@.subrange(start as int, i + 1).drop_last() =~= s@.subrange(start as int, i as int));
        assert(s@.subrange(start as int, i + 1).last() == c);
        let next = acc * 10 + d;
        if next > 2147483648 {
            proof {
                let t = s@.subrange(start as int, i + 1);
                if all_digits(body) {
                    assert(body.take(i + 1 - start) =~= t);
                    lemma_digits_grow(body, i + 1 - start);
                }
            }
            return None;
        }
        acc = next;
        i = i + 1;
    }
    assert(s@.subrange(start as int, n as int) =~= body);
    assert(all_digits(body)) by {
        assert forall|j: int| 0 <= j < body.len() implies '0' <= #[trigger] body[j] && body[j] <= '9' by {
            assert(body[j] == s@[start + j]);
        }
    }
    if neg {
        Some((0 - acc) as i32)
    } else if acc <= 2147483647 {
        Some(acc as i32)
    } else {
        None
    }
}

/// What `WOW_HOVER_PROBE` asks for: trimmed, `centre`, `center` or `sweep` by name, otherwise two
/// numbers around the first comma (each trimmed); nothing for anything else.
pub open spec fn aim_of(raw: Seq<char>) -> Option<Aim> {
    let v = trim_seq(raw);
    if v == "centre"@ || v == "center"@ {
        Some(Aim::Centre)
    } else if v == "sweep"@ {
        Some(Aim::Sweep)
    } else if v.contains(',') {
        let c = choose|c: int| 0 <= c < v.len() && v[c] == ',' && forall|j: int| 0 <= j < c ==> v[j] != ',';
        match (parse_i32(trim_seq(v.take(c))), parse_i32(trim_seq(v.skip(c + 1)))) {
            (Some(x), Some(y)) => Some(Aim::At(x, y)),
            _ => None,
        }
    } else {
        None
    }
}

fn is_word(s: &[char], w: &str) -> (r: bool)
    ensures
        r == (s@ == w@),
{
    let wc = chars_of(w);
    crate::text::chars_eq(s, wc.as_slice())
}

fn trimmed(s: &[char]) -> (t: Vec<char>)
    ensures
        t@ == trim_seq(s@),
{
    crate::text::trim_chars(s)
}

/// Parse the probe's aim.
pub fn parse_aim(raw: &str) -> (a: Option<Aim>)
    ensures
        a == aim_of(raw@),
{
    let v = trimmed(chars_of(raw).as_slice());
    if is_word(v.as_slice(), "centre") || is_word(v.as_slice(), "center") {
        return Some(Aim::Centre);
    }
    if is_word(v.as_slice(), "sweep") {
        return Some(Aim::Sweep);
    }
    let n = v.len();
    let mut c: usize = 0;
    while c < n && v[c] != ','
        invariant
            c <= n,
            n == v@.len(),
            forall|j: int| 0 <= j < c ==> v@[j] != ',',
        decreases n - c,
    {
        c = c + 1;
    }
    if c == n {
        assert(!v@.contains(','));
        return None;
    }
    proof {
        assert(v@.contains(','));
        let w = choose|w: int| 0 <= w < v@.len() && v@[w] == ',' && forall|j: int| 0 <= j < w ==> v@[j] != ',';
        if w < c {
            assert(v@[w] != ',');
        }
        if c < w {
            assert(v@[c as int] != ',');
        }
        assert(w == c);
    }
    let mut left: Vec<char> = Vec::new();
    let mut right: Vec<char> = Vec::new();
    for i in 0..c
        invariant
            c < n,
            n == v@.len(),
            left@ == v@.take(i as int),
    {
        left.push(v[i]);
        assert(v@.take(i + 1) =~= v@.take(i as int).push(v@[i as int]));
    }
    for i in c + 1..n
        invariant
            c < n,
            n == v@.len(),
            right@ == v@.subrange(c + 1, i as int),
    {
        right.push(v[i]);
        assert(v@.subrange(c + 1, i + 1) =~= v@.subrange(c + 1, i as int).push(v@[i as int]));
    }
    assert(v@.subrange(c + 1, n as int) =~= v@.skip(c + 1));
    let x = parse_i32_of(trimmed(left.as_slice()).as_slice());
    let y = parse_i32_of(trimmed(right.as_slice()).as_slice());
    match (x, y) {
        (Some(x), Some(y)) => Some(Aim::At(x, y)),
        _ => None,
    }
}

/// The sweep cell a frame aims at: column and row of the 7 × 5 grid, one cell per frame, row by
/// row, cycling.
pub fn sweep_cell(frame: u64) -> (cell: (u64, u64))
    ensures
        cell.0 == (frame % 35) % 7,
        cell.1 == (frame % 35) / 7,
        cell.0 < SWEEP_COLS,
        cell.1 < SWEEP_ROWS,
{
    let c = frame % (SWEEP_COLS * SWEEP_ROWS);
    (c % SWEEP_COLS, c / SWEEP_COLS)
}

/// The probe's report: the last line said, so a repeated line is said once.
pub struct ProbeReport {
    pub last: Option<String>,
}

impl ProbeReport {
    /// Nothing said yet.
    pub fn new() -> (r: Self)
        ensures
            r.last is None,
    {
        ProbeReport { last: None }
    }

    /// Whether `line` is to be said: only when it differs from the last line said. Either way it
    /// is the last line afterwards.
    pub fn say(&mut self, line: String) -> (speak: bool)
        ensures
            speak == !(old(self).last matches Some(l) && l@ == line@),
            final(self).last matches Some(l) && l@ == line@,
    {
        let same = match &self.last {
            Some(l) => crate::text::chars_eq(
                chars_of(l.as_str()).as_slice(),
                chars_of(line.as_str()).as_slice(),
            ),
            None => false,
        };
        self.last = Some(line);
        !same
    }
}

} // verus!
