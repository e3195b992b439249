//! Every system in the schedule, timed, in one capture: a listener on bevy's per-system
//! `system` spans that adds up, per system name, the microseconds each spent between entry and
//! exit, and hands the costliest ones out on request.
//!
//! **Armed, not always on**: while off, no span is timed. Read with [`take_top`], which drains —
//! each read is the interval since the one before.
use vstd::prelude::*;
use crate::text::{chars_of, chars_eq, string_of};

verus! {

// ── Which spans are timed, and under what name ──────────────────────────────────────────────────

/// The listener for bevy's per-system spans. Its callbacks are driven by the host's tracing
/// stack; the decisions they make are its methods.
pub struct SystemProfiler;

impl SystemProfiler {
    /// Whether a newly opened span is timed: bevy's `system` spans, and only while armed.
    pub fn wants_span(span_name: &str, armed: bool) -> (r: bool)
        ensures
            r == (armed && span_name@ == "system"@),
    {
        if !armed {
            return false;
        }
        let want = chars_of("system");
        chars_eq(chars_of(span_name).as_slice(), want.as_slice())
    }

    /// The name a timed span is recorded under: its `name` field, or `?` when it carried none.
    pub fn span_label(name: Option<String>) -> (s: String)
        ensures
            s@ == (match name {
                Some(n) => n@,
                None => "?"@,
            }),
    {
        match name {
            Some(n) => n,
            None => "?".to_owned(),
        }
    }
}

/// `s` without leading `"` characters.
pub open spec fn strip_leading_quotes(s: Seq<char>) -> Seq<char>
    decreases s.len(),
{
    if s.len() > 0 && s[0] == '"' {
        strip_leading_quotes(s.drop_first())
    } else {
        s
    }
}

/// `s` without trailing `"` characters.
pub open spec fn strip_trailing_quotes(s: Seq<char>) -> Seq<char>
    decreases s.len(),
{
    if s.len() > 0 && s.last() == '"' {
        strip_trailing_quotes(s.drop_last())
    } else {
        s
    }
}

/// `str::trim_matches('"')`: every leading and trailing `"` removed.
pub open spec fn trim_quotes(s: Seq<char>) -> Seq<char> {
    strip_trailing_quotes(strip_leading_quotes(s))
}

/// `str::trim_matches('"')`.
pub fn trim_quotes_of(s: &str) -> (t: String)
    ensures
        t@ == trim_quotes(s@),
{
    let cs = chars_of(s);
    let n = cs.len();
    let mut lo: usize = 0;
    assert(cs@.subrange(0, n as int) =~= cs@);
    while lo < n && cs[lo] == '"'
        invariant
            lo <= n,
            n == cs@.len(),
            cs@ == s@,
            strip_leading_quotes(s@) == strip_leading_quotes(cs@.subrange(lo as int, n as int)),
        decreases n - lo,
    {
        assert(cs@.subrange(lo as int, n as int).drop_first() =~= cs@.subrange(lo + 1, n as int));
        lo = lo + 1;
    }
    let mut hi: usize = n;
    assert(strip_leading_quotes(s@) == cs@.subrange(lo as int, n as int));
    while hi > lo && cs[hi - 1] == '"'
        invariant
            lo <= hi <= n,
            n == cs@.len(),
            cs@ == s@,
            trim_quotes(s@) == strip_trailing_quotes(cs@.subrange(lo as int, hi as int)),
        decreases hi,
    {
        assert(cs@.subrange(lo as int, hi as int).drop_last() =~= cs@.subrange(lo as int, hi - 1));
        hi = hi - 1;
    }
    let mut out: Vec<char> = Vec::new();
    let mut i = lo;
    while i < hi
        invariant
            lo <= i <= hi <= cs@.len(),
            out@ == cs@.subrange(lo as int, i as int),
        decreases hi - i,
    {
        out.push(cs[i]);
        assert(cs@.subrange(lo as int, i + 1) =~= cs@.subrange(lo as int, i as int).push(
            cs@[i as int],
        ));
        i = i + 1;
    }
    string_of(out.as_slice())
}

/// Pulls `name` out of a span's fields. bevy records it as a `Display` value rather than a string,
/// so the string callback does not fire for it and the debug one does — with the rendering
/// quoted, which is trimmed off.
pub struct NameOf(pub Option<String>);

impl NameOf {
    /// Nothing recorded yet.
    pub fn new() -> (r: Self)
        ensures
            r.0 is None,
    {
        NameOf(None)
    }

    /// A string-valued field: `name` is taken as it is, over anything recorded before.
    pub fn record_str(&mut self, field: &str, value: &str)
        ensures
            field@ == "name"@ ==> (final(self).0 matches Some(v) && v@ == value@),
            field@ != "name"@ ==> final(self).0 == old(self).0,
    {
        let want = chars_of("name");
        if chars_eq(chars_of(field).as_slice(), want.as_slice()) {
            self.0 = Some(value.to_owned());
        }
    }

    /// A field given by its debug rendering: `name` is taken, with its quotes trimmed, only when
    /// nothing was recorded before.
    pub fn record_debug(&mut self, field: &str, rendered: &str)
        ensures
            field@ == "name"@ && old(self).0 is None ==> (final(self).0 matches Some(v) && v@
                == trim_quotes(rendered@)),
            !(field@ == "name"@ && old(self).0 is None) ==> final(self).0 == old(self).0,
    {
        let want = chars_of("name");
        if chars_eq(chars_of(field).as_slice(), want.as_slice()) && self.0.is_none() {
            self.0 = Some(trim_quotes_of(rendered));
        }
    }
}

// ── The totals ───────────────────────────────────────────────────────────────────────────────────

/// A list of (name, microseconds) rows as a map, later rows overriding earlier ones.
pub open spec fn totals_map(s: Seq<(Seq<char>, u64)>) -> Map<Seq<char>, u64>
    decreases s.len(),
{
    if s.len() == 0 {
        Map::empty()
    } else {
        totals_map(s.drop_last()).insert(s.last().0, s.last().1)
    }
}

/// No name occurs twice.
pub open spec fn names_unique(s: Seq<(Seq<char>, u64)>) -> bool {
    forall|i: int, j: int| 0 <= i < j < s.len() ==> s[i].0 != s[j].0
}

/// Owned rows as the contracts see them.
pub open spec fn rows_view(v: Seq<(String, u64)>) -> Seq<(Seq<char>, u64)> {
    v.map_values(|r: (String, u64)| (r.0@, r.1))
}

proof fn lemma_totals_map(s: Seq<(Seq<char>, u64)>)
    requires
        names_unique(s),
    ensures
        forall|k: Seq<char>|
            #![trigger totals_map(s).contains_key(k)]
            totals_map(s).contains_key(k) <==> exists|j: int| 0 <= j < s.len() && s[j].0 == k,
        forall|j: int| 0 <= j < s.len() ==> totals_map(s)[#[trigger] s[j].0] == s[j].1,
        totals_map(s).dom().finite(),
        totals_map(s).dom().len() == s.len(),
    decreases s.len(),
{
    if s.len() > 0 {
        let t = s.drop_last();
        lemma_totals_map(t);
        assert forall|k: Seq<char>|
            totals_map(s).contains_key(k) <==> exists|j: int| 0 <= j < s.len() && s[j].0 == k by {
            if totals_map(s).contains_key(k) && k != s.last().0 {
                let j = choose|j: int| 0 <= j < t.len() && t[j].0 == k;
                assert(s[j].0 == k);
            }
            if exists|j: int| 0 <= j < s.len() && s[j].0 == k {
                let j = choose|j: int| 0 <= j < s.len() && s[j].0 == k;
                if j < s.len() - 1 {
                    assert(t[j].0 == k);
                }
            }
        }
        assert forall|j: int| 0 <= j < s.len() implies totals_map(s)[#[trigger] s[j].0] == s[j].1 by {
            if j < s.len() - 1 {
                assert(t[j] == s[j]);
                assert(s[j].0 != s[s.len() - 1].0);
            }
        }
        assert(!totals_map(t).dom().contains(s.last().0)) by {
            if totals_map(t).dom().contains(s.last().0) {
                let j = choose|j: int| 0 <= j < t.len() && t[j].0 == s.last().0;
                assert(s[j].0 == s[s.len() - 1].0);
            }
        }
        assert(totals_map(s).dom() =~= totals_map(t).dom().insert(s.last().0));
    }
}

proof fn lemma_totals_replace(
    before: Seq<(Seq<char>, u64)>,
    i: int,
    after: Seq<(Seq<char>, u64)>,
    v: u64,
)
    requires
        names_unique(before),
        0 <= i < before.len(),
        after == before.update(i, (before[i].0, v)),
    ensures
        names_unique(after),
        totals_map(after) == totals_map(before).insert(before[i].0, v),
{
    assert forall|a: int, b: int| 0 <= a < b < after.len() implies after[a].0 != after[b].0 by {
        assert(after[a].0 == before[a].0);
        assert(after[b].0 == before[b].0);
    }
    lemma_totals_map(before);
    lemma_totals_map(after);
    let m1 = totals_map(after);
    let m0 = totals_map(before).insert(before[i].0, v);
    assert forall|k: Seq<char>| m1.contains_key(k) <==> m0.contains_key(k) by {
        if m1.contains_key(k) {
            let j = choose|j: int| 0 <= j < after.len() && after[j].0 == k;
            assert(before[j].0 == k);
        }
        if totals_map(before).contains_key(k) {
            let j = choose|j: int| 0 <= j < before.len() && before[j].0 == k;
            assert(after[j].0 == k);
        }
        if k == before[i].0 {
            assert(after[i].0 == k);
        }
    }
    assert forall|k: Seq<char>| #[trigger] m1.contains_key(k) implies m1[k] == m0[k] by {
        let j = choose|j: int| 0 <= j < after.len() && after[j].0 == k;
        if j != i {
            assert(before[j] == after[j]);
        }
    }
    assert(m1 =~= m0);
}

/// Name → microseconds accumulated since the last drain.
///
/// The rows are kept in a vector, each name once, rather than in a string-keyed map: reading the
/// totals walks every row to pick the costliest, and the string-keyed map with a specified view
/// offers no walk over its entries.
pub struct SpanTotals {
    /// No name occurs twice.
    rows: Vec<(String, u64)>,
}

impl View for SpanTotals {
    type V = Map<Seq<char>, u64>;

    closed spec fn view(&self) -> Map<Seq<char>, u64> {
        totals_map(rows_view(self.rows@))
    }
}

impl SpanTotals {
    /// No name is listed twice.
    pub closed spec fn wf(&self) -> bool {
        names_unique(rows_view(self.rows@))
    }

    /// Nothing timed yet.
    pub fn new() -> (t: Self)
        ensures
            t.wf(),
            t@ == Map::<Seq<char>, u64>::empty(),
    {
        let t = SpanTotals { rows: Vec::new() };
        assert(rows_view(t.rows@) =~= Seq::<(Seq<char>, u64)>::empty());
        t
    }

    /// Where `name` sits among the rows, if it has one.
    fn position(&self, name: &str) -> (r: Option<usize>)
        requires
            self.wf(),
        ensures
            r matches Some(i) ==> i < self.rows@.len() && self.rows@[i as int].0@ == name@,
            r is None ==> !self@.contains_key(name@),
    {
        let n = self.rows.len();
        for i in 0..n
            invariant
                n == self.rows@.len(),
                self.wf(),
                forall|j: int| 0 <= j < i ==> self.rows@[j].0@ != name@,
        {
            if chars_eq(chars_of(self.rows[i].0.as_str()).as_slice(), chars_of(name).as_slice()) {
                return Some(i);
            }
        }
        proof {
            let s = rows_view(self.rows@);
            lemma_totals_map(s);
            if self@.contains_key(name@) {
                let j = choose|j: int| 0 <= j < s.len() && s[j].0 == name@;
                assert(self.rows@[j].0@ == name@);
            }
        }
        None
    }

    /// The microseconds recorded under `name` so far (0 when none).
    pub fn total(&self, name: &str) -> (us: u64)
        requires
            self.wf(),
        ensures
            us == (if self@.contains_key(name@) {
                self@[name@]
            } else {
                0
            }),
    {
        match self.position(name) {
            Some(i) => {
                proof {
                    let s = rows_view(self.rows@);
                    lemma_totals_map(s);
                    assert(s[i as int].0 == name@);
                }
                self.rows[i].1
            },
            None => 0,
        }
    }

    /// Add `us` microseconds to `name`'s total.
    pub fn record(&mut self, name: &str, us: u64)
        requires
            old(self).wf(),
            (if old(self)@.contains_key(name@) {
                old(self)@[name@]
            } else {
                0
            }) + us <= u64::MAX,
        ensures
            final(self).wf(),
            final(self)@ == old(self)@.insert(
                name@,
                ((if old(self)@.contains_key(name@) {
                    old(self)@[name@]
                } else {
                    0
                }) + us) as u64,
            ),
    {
        let ghost before = rows_view(self.rows@);
        proof {
            lemma_totals_map(before);
        }
        match self.position(name) {
            Some(i) => {
                assert(before[i as int].0 == name@);
                assert(before[i as int].1 == self.rows@[i as int].1);
                assert(old(self)@[name@] == before[i as int].1);
                let sum = self.rows[i].1 + us;
                let key = self.rows[i].0.clone();
                self.rows.set(i, (key, sum));
                proof {
                    assert(rows_view(self.rows@) =~= before.update(i as int, (before[i as int].0, sum)));
                    lemma_totals_replace(before, i as int, rows_view(self.rows@), sum);
                }
            },
            None => {
                self.rows.push((name.to_owned(), us));
                proof {
                    let after = rows_view(self.rows@);
                    assert(after.drop_last() =~= before);
                    assert forall|a: int, b: int| 0 <= a < b < after.len() implies after[a].0
                        != after[b].0 by {
                        if b == after.len() - 1 {
                            assert(totals_map(before).contains_key(before[a].0));
                        } else {
                            assert(after[a] == before[a]);
                            assert(after[b] == before[b]);
                        }
                    }
                }
            },
        }
    }
}

// ── Reading the totals ───────────────────────────────────────────────────────────────────────────

/// `rows` are at most `n` of `totals`' entries, costliest first, with every entry left out costing
/// no more than any entry kept — the costliest `n` (ties between equal totals in either order).
pub open spec fn is_top(totals: Map<Seq<char>, u64>, n: nat, rows: Seq<(Seq<char>, u64)>) -> bool {
    &&& rows.len() == (if n < totals.dom().len() {
        n
    } else {
        totals.dom().len()
    })
    &&& names_unique(rows)
    &&& forall|i: int|
        0 <= i < rows.len() ==> totals.contains_key(#[trigger] rows[i].0) && totals[rows[i].0]
            == rows[i].1
    &&& forall|i: int, j: int| 0 <= i < j < rows.len() ==> rows[i].1 >= rows[j].1
    &&& forall|k: Seq<char>, i: int|
        #![trigger totals.contains_key(k), rows[i]]
        totals.contains_key(k) && (forall|j: int| 0 <= j < rows.len() ==> rows[j].0 != k) && 0
            <= i < rows.len() ==> totals[k] <= rows[i].1
}

/// The costliest `n` systems since the last call, microseconds each, and a reset: the totals are
/// taken (left empty). Nothing when the profiler never recorded.
pub fn take_top(totals: &mut Option<SpanTotals>, n: usize) -> (rows: Vec<(String, u64)>)
    requires
        *old(totals) matches Some(t) ==> t.wf(),
    ensures
        *final(totals) is None,
        (match *old(totals) {
            None => rows@.len() == 0,
            Some(t) => is_top(t@, n as nat, rows_view(rows@)),
        }),
{
    let taken = totals.take();
    let t = match taken {
        None => {
            return Vec::new();
        },
        Some(t) => t,
    };
    let ghost s = rows_view(t.rows@);
    proof {
        lemma_totals_map(s);
    }
    let mut rem = t.rows;
    let mut out: Vec<(String, u64)> = Vec::new();
    while out.len() < n && rem.len() > 0
        invariant
            names_unique(s),
            names_unique(rows_view(rem@)),
            names_unique(rows_view(out@)),
            rem@.len() + out@.len() == s.len(),
            out@.len() <= n,
            forall|i: int| 0 <= i < rem@.len() ==> s.contains(#[trigger] rows_view(rem@)[i]),
            forall|i: int| 0 <= i < out@.len() ==> s.contains(#[trigger] rows_view(out@)[i]),
            forall|j: int|
                0 <= j < s.len() ==> rows_view(rem@).contains(#[trigger] s[j]) || rows_view(
                    out@,
                ).contains(s[j]),
            forall|a: int, b: int|
                0 <= a < out@.len() && 0 <= b < rem@.len() ==> rows_view(out@)[a].0 != rows_view(
                    rem@,
                )[b].0 && rows_view(out@)[a].1 >= rows_view(rem@)[b].1,
            forall|a: int, b: int|
                0 <= a < b < out@.len() ==> rows_view(out@)[a].1 >= rows_view(out@)[b].1,
        decreases rem@.len(),
    {
        let mut best: usize = 0;
        let m = rem.len();
        for k in 1..m
            invariant
                m == rem@.len(),
                m > 0,
                best < m,
                forall|j: int| 0 <= j < k ==> rem@[j].1 <= rem@[best as int].1,
        {
            if rem[k].1 > rem[best].1 {
                best = k;
            }
        }
        let ghost r0 = rows_view(rem@);
        let ghost o0 = rows_view(out@);
        let e = rem.remove(best);
        out.push(e);
        proof {
            let r1 = rows_view(rem@);
            let o1 = rows_view(out@);
            let x = r0[best as int];
            assert(r1 =~= r0.remove(best as int));
            assert(o1 =~= o0.push(x));
            assert forall|i: int| 0 <= i < r1.len() implies s.contains(#[trigger] r1[i]) by {
                let ii = if i < best { i } else { i + 1 };
                assert(r1[i] == r0[ii]);
            }
            assert forall|i: int| 0 <= i < o1.len() implies s.contains(#[trigger] o1[i]) by {
                if i < o0.len() {
                    assert(o1[i] == o0[i]);
                } else {
                    assert(o1[i] == r0[best as int]);
                }
            }
            assert forall|j: int| 0 <= j < s.len() implies r1.contains(#[trigger] s[j])
                || o1.contains(s[j]) by {
                if r0.contains(s[j]) {
                    let q = choose|q: int| 0 <= q < r0.len() && r0[q] == s[j];
                    if q == best {
                        assert(o1[o1.len() - 1] == s[j]);
                    } else if q < best {
                        assert(r1[q] == s[j]);
                    } else {
                        assert(r1[q - 1] == s[j]);
                    }
                } else {
                    let q = choose|q: int| 0 <= q < o0.len() && o0[q] == s[j];
                    assert(o1[q] == s[j]);
                }
            }
            assert forall|a: int, b: int| 0 <= a < b < r1.len() implies r1[a].0 != r1[b].0 by {
                let aa = if a < best { a } else { a + 1 };
                let bb = if b < best { b } else { b + 1 };
                assert(r1[a] == r0[aa]);
                assert(r1[b] == r0[bb]);
            }
            assert forall|a: int, b: int| 0 <= a < b < o1.len() implies o1[a].0 != o1[b].0 by {
                if b < o0.len() {
                    assert(o1[a] == o0[a]);
                    assert(o1[b] == o0[b]);
                } else {
                    assert(o1[a] == o0[a]);
                    assert(o1[b] == r0[best as int]);
                }
            }
            assert forall|a: int, b: int|
                0 <= a < o1.len() && 0 <= b < r1.len() implies o1[a].0 != r1[b].0 && o1[a].1
                >= r1[b].1 by {
                let bb = if b < best { b } else { b + 1 };
                assert(r1[b] == r0[bb]);
                assert(rem@.len() + 1 == r0.len());
                if a < o0.len() {
                    assert(o1[a] == o0[a]);
                } else {
                    assert(o1[a] == r0[best as int]);
                    assert(bb != best);
                    assert(r0[bb].1 <= r0[best as int].1);
                }
            }
            assert forall|a: int, b: int| 0 <= a < b < o1.len() implies o1[a].1 >= o1[b].1 by {
                if b < o0.len() {
                    assert(o1[a] == o0[a]);
                    assert(o1[b] == o0[b]);
                } else {
                    assert(o1[a] == o0[a]);
                    assert(o1[b] == r0[best as int]);
                }
            }
        }
    }
    proof {
        let o = rows_view(out@);
        let r = rows_view(rem@);
        let tm = totals_map(s);
        assert(t@ == tm);
        assert forall|i: int| 0 <= i < o.len() implies tm.contains_key(#[trigger] o[i].0) && tm[o[i].0]
            == o[i].1 by {
            let j = choose|j: int| 0 <= j < s.len() && s[j] == o[i];
            assert(s[j].0 == o[i].0);
        }
        assert forall|k: Seq<char>, i: int|
            #![trigger tm.contains_key(k), o[i]]
            tm.contains_key(k) && (forall|j: int| 0 <= j < o.len() ==> o[j].0 != k) && 0 <= i
                < o.len() implies tm[k] <= o[i].1 by {
            let j = choose|j: int| 0 <= j < s.len() && s[j].0 == k;
            if o.contains(s[j]) {
                let q = choose|q: int| 0 <= q < o.len() && o[q] == s[j];
                assert(o[q].0 == k);
            } else {
                assert(r.contains(s[j]));
                let q = choose|q: int| 0 <= q < r.len() && r[q] == s[j];
                assert(o[i].1 >= r[q].1);
            }
        }
    }
    out
}

} // verus!
