//! The battleground probe's census lines: what the client can see from inside, as greppable
//! text. Every list is ordered by its key so two samples can be compared line against line:
//! gameobject entries with their names and counts, the raw world-state table, and the wire
//! opcodes the codec threw on the floor.
use vstd::prelude::*;
use crate::order::{lex_lt, chars_lt};
use crate::text::{chars_of, string_of};
use vstd::string::StringExecFns;

verus! {

// ── Numbers as text ──────────────────────────────────────────────────────────────────────────────

/// One decimal digit.
pub open spec fn digit(d: nat) -> char {
    ((d + 48) as u8) as char
}

/// `n` in decimal, without leading zeros (`{}`).
pub open spec fn decimal(n: nat) -> Seq<char>
    decreases n,
{
    if n < 10 {
        seq![digit(n)]
    } else {
        decimal(n / 10).push(digit(n % 10))
    }
}

/// A signed number in decimal, with a leading `-` when negative.
pub open spec fn signed_decimal(v: int) -> Seq<char> {
    if v < 0 {
        seq!['-'] + decimal((-v) as nat)
    } else {
        decimal(v as nat)
    }
}

/// One lowercase hexadecimal digit.
pub open spec fn hex_digit(d: nat) -> char {
    if d < 10 {
        ((d + 48) as u8) as char
    } else {
        ((d + 87) as u8) as char
    }
}

/// A 16-bit value as `0x` and four lowercase hex digits (`{:#06x}`).
pub open spec fn hex16(v: u16) -> Seq<char> {
    seq![
        '0',
        'x',
        hex_digit((v / 4096) as nat),
        hex_digit(((v / 256) % 16) as nat),
        hex_digit(((v / 16) % 16) as nat),
        hex_digit((v % 16) as nat),
    ]
}

/// `n` in decimal.
pub fn decimal_of(n: u64) -> (s: Vec<char>)
    ensures
        s@ == decimal(n as nat),
    decreases n,
{
    if n < 10 {
        let mut s = Vec::new();
        s.push(((n as u8) + 48) as char);
        assert(s@ =~= seq![digit(n as nat)]);
        s
    } else {
        let mut s = decimal_of(n / 10);
        s.push((((n % 10) as u8) + 48) as char);
        s
    }
}

/// A signed number in decimal.
pub fn signed_decimal_of(v: i32) -> (s: Vec<char>)
    ensures
        s@ == signed_decimal(v as int),
{
    if v < 0 {
        let m: u64 = (0i64 - (v as i64)) as u64;
        let mut s = Vec::new();
        s.push('-');
        let mut d = decimal_of(m);
        s.append(&mut d);
        assert(s@ =~= seq!['-'] + decimal((-v) as nat));
        s
    } else {
        decimal_of(v as u64)
    }
}

fn hex_char(d: u16) -> (c: char)
    requires
        d < 16,
    ensures
        c == hex_digit(d as nat),
{
    if d < 10 {
        ((d as u8) + 48) as char
    } else {
        ((d as u8) + 87) as char
    }
}

/// `0x` and four lowercase hex digits.
pub fn hex16_of(v: u16) -> (s: Vec<char>)
    ensures
        s@ == hex16(v),
{
    let mut s = Vec::new();
    s.push('0');
    s.push('x');
    s.push(hex_char(v / 4096));
    s.push(hex_char((v / 256) % 16));
    s.push(hex_char((v / 16) % 16));
    s.push(hex_char(v % 16));
    assert(s@ =~= hex16(v));
    s
}

// ── Keys in order ────────────────────────────────────────────────────────────────────────────────

/// `keys` is every value of `ks` exactly once, ascending.
pub open spec fn is_key_order(ks: Seq<u32>, keys: Seq<u32>) -> bool {
    &&& forall|i: int, j: int| 0 <= i < j < keys.len() ==> keys[i] < keys[j]
    &&& forall|i: int| 0 <= i < keys.len() ==> ks.contains(#[trigger] keys[i])
    &&& forall|i: int| 0 <= i < ks.len() ==> keys.contains(#[trigger] ks[i])
}

/// Strictly increasing.
pub open spec fn increasing(a: Seq<u32>) -> bool {
    forall|i: int, j: int| 0 <= i < j < a.len() ==> a[i] < a[j]
}

proof fn lemma_increasing_same_values(a: Seq<u32>, b: Seq<u32>)
    requires
        increasing(a),
        increasing(b),
        forall|x: u32| a.contains(x) <==> b.contains(x),
    ensures
        a == b,
    decreases a.len(),
{
    if a.len() == 0 {
        if b.len() > 0 {
            assert(b.contains(b[0]));
        }
        assert(a =~= b);
    } else if b.len() == 0 {
        assert(a.contains(a[0]));
    } else {
        assert(a.contains(a[0]));
        assert(b.contains(b[0]));
        let p = choose|p: int| 0 <= p < b.len() && b[p] == a[0];
        let q = choose|q: int| 0 <= q < a.len() && a[q] == b[0];
        if p > 0 {
            assert(b[0] < b[p]);
            if q > 0 {
                assert(a[0] < a[q]);
            }
        }
        assert(a[0] == b[0]);
        let a2 = a.drop_first();
        let b2 = b.drop_first();
        assert forall|x: u32| a2.contains(x) <==> b2.contains(x) by {
            if a2.contains(x) {
                let i = choose|i: int| 0 <= i < a2.len() && a2[i] == x;
                assert(a[i + 1] == x);
                assert(a[0] < a[i + 1]);
                assert(a.contains(x));
                let k = choose|k: int| 0 <= k < b.len() && b[k] == x;
                if k == 0 {
                    assert(false);
                }
                assert(b2[k - 1] == x);
            }
            if b2.contains(x) {
                let i = choose|i: int| 0 <= i < b2.len() && b2[i] == x;
                assert(b[i + 1] == x);
                assert(b[0] < b[i + 1]);
                assert(b.contains(x));
                let k = choose|k: int| 0 <= k < a.len() && a[k] == x;
                if k == 0 {
                    assert(false);
                }
                assert(a2[k - 1] == x);
            }
        }
        lemma_increasing_same_values(a2, b2);
        assert(a =~= b) by {
            assert forall|i: int| 0 <= i < a.len() implies a[i] == b[i] by {
                if i > 0 {
                    assert(a[i] == a2[i - 1]);
                    assert(b[i] == b2[i - 1]);
                }
            }
        }
    }
}

/// **The order is determined by the values.** Two orderings of the same values, each ascending
/// and listing every value once, are the same sequence — so a census line is a function of what
/// was seen, never of the order it was seen in.
pub proof fn law_key_order_is_unique(ks: Seq<u32>, a: Seq<u32>, b: Seq<u32>)
    requires
        is_key_order(ks, a),
        is_key_order(ks, b),
    ensures
        a == b,
{
    assert forall|x: u32| a.contains(x) <==> b.contains(x) by {
        if a.contains(x) {
            let i = choose|i: int| 0 <= i < a.len() && a[i] == x;
            assert(ks.contains(a[i]));
            let k = choose|k: int| 0 <= k < ks.len() && ks[k] == x;
            assert(b.contains(ks[k]));
        }
        if b.contains(x) {
            let i = choose|i: int| 0 <= i < b.len() && b[i] == x;
            assert(ks.contains(b[i]));
            let k = choose|k: int| 0 <= k < ks.len() && ks[k] == x;
            assert(a.contains(ks[k]));
        }
    }
    lemma_increasing_same_values(a, b);
}

/// `k` lies above `prev` (everything lies above nothing).
pub open spec fn above(prev: Option<u32>, k: u32) -> bool {
    match prev {
        Some(p) => k > p,
        None => true,
    }
}

/// The smallest key of `ks` above `prev`.
fn next_key(ks: &Vec<u32>, prev: Option<u32>) -> (r: Option<u32>)
    ensures
        r matches Some(k) ==> ks@.contains(k) && above(prev, k) && forall|i: int|
            0 <= i < ks@.len() && above(prev, ks@[i]) ==> k <= #[trigger] ks@[i],
        r is None ==> forall|i: int| 0 <= i < ks@.len() ==> !above(prev, #[trigger] ks@[i]),
{
    let mut best: Option<u32> = None;
    let n = ks.len();
    for i in 0..n
        invariant
            n == ks@.len(),
            best matches Some(k) ==> ks@.contains(k) && above(prev, k),
            forall|j: int|
                0 <= j < i && above(prev, ks@[j]) ==> (best matches Some(k) && k <= #[trigger] ks@[j]),
    {
        let k = ks[i];
        let is_above = match prev {
            Some(p) => k > p,
            None => true,
        };
        if is_above {
            let better = match best {
                Some(b) => k < b,
                None => true,
            };
            if better {
                best = Some(k);
                assert(ks@[i as int] == k);
            }
        }
    }
    best
}

/// The keys of `ks`, each once, ascending.
fn key_order(ks: &Vec<u32>) -> (keys: Vec<u32>)
    ensures
        is_key_order(ks@, keys@),
{
    let mut keys: Vec<u32> = Vec::new();
    let mut prev: Option<u32> = None;
    loop
        invariant
            forall|i: int, j: int| 0 <= i < j < keys@.len() ==> keys@[i] < keys@[j],
            forall|i: int| 0 <= i < keys@.len() ==> ks@.contains(#[trigger] keys@[i]),
            prev is None <==> keys@.len() == 0,
            prev matches Some(p) ==> keys@.last() == p,
            forall|i: int|
                0 <= i < ks@.len() && !above(prev, #[trigger] ks@[i]) ==> keys@.contains(ks@[i]),
        decreases (match prev {
            Some(p) => u32::MAX - p,
            None => u32::MAX + 1,
        }),
    {
        match next_key(ks, prev) {
            None => {
                assert forall|i: int| 0 <= i < ks@.len() implies keys@.contains(#[trigger] ks@[i]) by {
                    assert(!above(prev, ks@[i]));
                }
                return keys;
            },
            Some(k) => {
                let ghost before = keys@;
                keys.push(k);
                proof {
                    assert forall|i: int, j: int| 0 <= i < j < keys@.len() implies keys@[i] < keys@[j] by {
                        if j == keys@.len() - 1 && i < before.len() {
                            assert(before[i] <= before.last());
                        }
                    }
                    assert forall|i: int|
                        0 <= i < ks@.len() && !above(Some(k), #[trigger] ks@[i]) implies keys@.contains(ks@[i]) by {
                        if ks@[i] == k {
                            assert(keys@[keys@.len() - 1] == k);
                        } else if !above(prev, ks@[i]) {
                            let q = choose|q: int| 0 <= q < before.len() && before[q] == ks@[i];
                            assert(keys@[q] == ks@[i]);
                        }
                    }
                }
                prev = Some(k);
            },
        }
    }
}

// ── Joining ──────────────────────────────────────────────────────────────────────────────────────

/// `parts` joined with single spaces.
pub open spec fn spaced(parts: Seq<Seq<char>>) -> Seq<char>
    decreases parts.len(),
{
    if parts.len() == 0 {
        Seq::empty()
    } else if parts.len() == 1 {
        parts[0]
    } else {
        spaced(parts.drop_last()) + seq![' '] + parts.last()
    }
}

fn append_spaced(out: &mut Vec<char>, parts_before: Ghost<Seq<Seq<char>>>, part: &Vec<char>, first: bool)
    requires
        old(out)@ == spaced(parts_before@),
        first == (parts_before@.len() == 0),
    ensures
        final(out)@ == spaced(parts_before@.push(part@)),
{
    let ghost ps = parts_before@.push(part@);
    assert(ps.drop_last() =~= parts_before@);
    if !first {
        out.push(' ');
    }
    let m = part.len();
    let ghost start = out@;
    for k in 0..m
        invariant
            m == part@.len(),
            out@ == start + part@.take(k as int),
    {
        out.push(part[k]);
        assert(part@.take(k + 1) =~= part@.take(k as int).push(part@[k as int]));
        assert(out@ =~= start + part@.take(k + 1));
    }
    assert(part@.take(m as int) =~= part@);
    if first {
        assert(out@ =~= part@);
    }
}

// ── Entities by kind ─────────────────────────────────────────────────────────────────────────────

/// What the census counts a mirrored entity as.
#[derive(Clone, Copy, PartialEq, Eq, Debug, Structural)]
pub enum EntKind {
    Unit,
    Player,
    GameObject,
    DynamicObject,
    Corpse,
    /// Anything else; counted under no column.
    Other,
}

/// How many of `ks` are of kind `k`.
pub open spec fn count_kind(ks: Seq<EntKind>, k: EntKind) -> nat
    decreases ks.len(),
{
    if ks.len() == 0 {
        0
    } else {
        count_kind(ks.drop_last(), k) + (if ks.last() == k {
            1nat
        } else {
            0nat
        })
    }
}

/// The census `ENTS` counts: "is there a world here at all?"
#[derive(Clone, Copy, PartialEq, Eq, Debug, Structural)]
pub struct EntCounts {
    pub units: usize,
    pub players: usize,
    pub gos: usize,
    pub dynamic: usize,
    pub corpses: usize,
}

/// Counts the mirrored entities by kind.
pub fn census_ents(kinds: &Vec<EntKind>) -> (c: EntCounts)
    ensures
        c.units == count_kind(kinds@, EntKind::Unit),
        c.players == count_kind(kinds@, EntKind::Player),
        c.gos == count_kind(kinds@, EntKind::GameObject),
        c.dynamic == count_kind(kinds@, EntKind::DynamicObject),
        c.corpses == count_kind(kinds@, EntKind::Corpse),
{
    let mut c = EntCounts { units: 0, players: 0, gos: 0, dynamic: 0, corpses: 0 };
    let n = kinds.len();
    for i in 0..n
        invariant
            n == kinds@.len(),
            c.units + c.players + c.gos + c.dynamic + c.corpses <= i,
            c.units == count_kind(kinds@.take(i as int), EntKind::Unit),
            c.players == count_kind(kinds@.take(i as int), EntKind::Player),
            c.gos == count_kind(kinds@.take(i as int), EntKind::GameObject),
            c.dynamic == count_kind(kinds@.take(i as int), EntKind::DynamicObject),
            c.corpses == count_kind(kinds@.take(i as int), EntKind::Corpse),
    {
        assert(kinds@.take(i + 1).drop_last() =~= kinds@.take(i as int));
        match kinds[i] {
            EntKind::Unit => c.units = c.units + 1,
            EntKind::Player => c.players = c.players + 1,
            EntKind::GameObject => c.gos = c.gos + 1,
            EntKind::DynamicObject => c.dynamic = c.dynamic + 1,
            EntKind::Corpse => c.corpses = c.corpses + 1,
            EntKind::Other => {},
        }
    }
    assert(kinds@.take(n as int) =~= kinds@);
    c
}

/// The census `ENTS` line's fields.
pub open spec fn ents_spec(c: EntCounts) -> Seq<char> {
    "units="@ + decimal(c.units as nat) + " players="@ + decimal(c.players as nat) + " gos="@
        + decimal(c.gos as nat) + " dyn="@ + decimal(c.dynamic as nat) + " corpses="@ + decimal(
        c.corpses as nat,
    )
}

/// The census `ENTS` line's fields for counts by kind.
pub fn ents_text(c: &EntCounts) -> (s: String)
    ensures
        s@ == ents_spec(*c),
{
    let mut out = chars_of("units=");
    let mut d = decimal_of(c.units as u64);
    out.append(&mut d);
    let mut t = chars_of(" players=");
    out.append(&mut t);
    let mut d = decimal_of(c.players as u64);
    out.append(&mut d);
    let mut t = chars_of(" gos=");
    out.append(&mut t);
    let mut d = decimal_of(c.gos as u64);
    out.append(&mut d);
    let mut t = chars_of(" dyn=");
    out.append(&mut t);
    let mut d = decimal_of(c.dynamic as u64);
    out.append(&mut d);
    let mut t = chars_of(" corpses=");
    out.append(&mut t);
    let mut d = decimal_of(c.corpses as u64);
    out.append(&mut d);
    let s = string_of(out.as_slice());
    assert(s@ =~= ents_spec(*c));
    s
}

// ── Gameobjects ──────────────────────────────────────────────────────────────────────────────────

/// One streamed gameobject as the census sees it: its entry, and its name when the client's
/// gameobject cache has one.
pub type GoSeen = (u32, Option<Seq<char>>);

/// How many of `es` have entry `e`.
pub open spec fn count_entry(es: Seq<GoSeen>, e: u32) -> nat
    decreases es.len(),
{
    if es.len() == 0 {
        0
    } else {
        count_entry(es.drop_last(), e) + if es.last().0 == e {
            1nat
        } else {
            0nat
        }
    }
}

/// `a` sorts before `b`: no name before any name, names by their text.
pub open spec fn name_before(a: Option<Seq<char>>, b: Option<Seq<char>>) -> bool {
    match a {
        None => b is Some,
        Some(x) => match b {
            None => false,
            Some(y) => lex_lt(x, y),
        },
    }
}

/// The first name, in sort order, among the gameobjects with entry `e` (`None` inside when one of
/// them has no name); nothing when no gameobject has that entry.
pub open spec fn least_name(es: Seq<GoSeen>, e: u32) -> Option<Option<Seq<char>>>
    decreases es.len(),
{
    if es.len() == 0 {
        None
    } else {
        let rest = least_name(es.drop_last(), e);
        if es.last().0 != e {
            rest
        } else {
            match rest {
                None => Some(es.last().1),
                Some(n) => if name_before(es.last().1, n) {
                    Some(es.last().1)
                } else {
                    Some(n)
                },
            }
        }
    }
}

/// The census label of one entry: the entry, `:name` when it has one, and `×count` when more
/// than one stands in range.
pub open spec fn go_label(e: u32, count: nat, name: Option<Seq<char>>) -> Seq<char> {
    decimal(e as nat) + (match name {
        Some(n) => seq![':'] + n,
        None => Seq::empty(),
    }) + (if count > 1 {
        seq!['\u{d7}'] + decimal(count)
    } else {
        Seq::empty()
    })
}

/// The census `GOS` list: one label per distinct entry, ascending, each with the first of its
/// names in sort order; `none` when nothing streamed.
pub open spec fn gos_text(es: Seq<GoSeen>, keys: Seq<u32>) -> Seq<char> {
    if es.len() == 0 {
        "none"@
    } else {
        spaced(keys.map_values(|k: u32| go_label(k, count_entry(es, k), least_name(es, k)->0)))
    }
}

/// The entries of a list of gameobjects.
pub open spec fn go_entries(es: Seq<GoSeen>) -> Seq<u32> {
    es.map_values(|g: GoSeen| g.0)
}

/// The gameobjects as the contracts see them.
pub open spec fn go_view(v: Seq<(u32, Option<String>)>) -> Seq<GoSeen> {
    v.map_values(
        |g: (u32, Option<String>)|
            (
                g.0,
                match g.1 {
                    Some(s) => Some(s@),
                    None => None,
                },
            ),
    )
}

fn name_lt(a: &Option<String>, b: &Option<String>) -> (r: bool)
    ensures
        r == name_before(
            match a {
                Some(s) => Some(s@),
                None => None,
            },
            match b {
                Some(s) => Some(s@),
                None => None,
            },
        ),
{
    match a {
        None => b.is_some(),
        Some(x) => match b {
            None => false,
            Some(y) => chars_lt(chars_of(x.as_str()).as_slice(), chars_of(y.as_str()).as_slice()),
        },
    }
}

/// The count and first name of the gameobjects with entry `e`.
fn tally_entry(es: &Vec<(u32, Option<String>)>, e: u32) -> (r: (u64, Option<Option<String>>))
    requires
        es@.len() < u64::MAX,
    ensures
        r.0 == count_entry(go_view(es@), e),
        (match r.1 {
            None => least_name(go_view(es@), e) is None,
            Some(n) => least_name(go_view(es@), e) == Some(
                match n {
                    Some(s) => Some(s@),
                    None => None,
                },
            ),
        }),
{
    let ghost gv = go_view(es@);
    let mut count: u64 = 0;
    let mut least: Option<Option<String>> = None;
    let n = es.len();
    for i in 0..n
        invariant
            n == es@.len(),
            n < u64::MAX,
            gv == go_view(es@),
            count == count_entry(gv.take(i as int), e),
            count <= i,
            (match least {
                None => least_name(gv.take(i as int), e) is None,
                Some(l) => least_name(gv.take(i as int), e) == Some(
                    match l {
                        Some(s) => Some(s@),
                        None => None,
                    },
                ),
            }),
    {
        assert(gv.take(i + 1).drop_last() =~= gv.take(i as int));
        assert(gv.take(i + 1).last() == gv[i as int]);
        if es[i].0 == e {
            count = count + 1;
            let take = match &least {
                None => true,
                Some(l) => name_lt(&es[i].1, l),
            };
            if take {
                least = Some(es[i].1.clone());
            }
        }
    }
    assert(gv.take(n as int) =~= gv);
    (count, least)
}

/// The census `GOS` list for the gameobjects in range (entry and cached name of each).
pub fn census_gos(es: &Vec<(u32, Option<String>)>) -> (s: String)
    requires
        es@.len() < u64::MAX,
    ensures
        exists|keys: Seq<u32>| is_key_order(go_entries(go_view(es@)), keys) && s@ == gos_text(go_view(es@), keys),
{
    let ghost gv = go_view(es@);
    let mut ks: Vec<u32> = Vec::new();
    let n = es.len();
    for i in 0..n
        invariant
            n == es@.len(),
            gv == go_view(es@),
            ks@ == go_entries(gv).take(i as int),
    {
        ks.push(es[i].0);
        assert(go_entries(gv).take(i + 1) =~= go_entries(gv).take(i as int).push(es@[i as int].0));
    }
    assert(go_entries(gv).take(n as int) =~= go_entries(gv));
    let keys = key_order(&ks);
    if n == 0 {
        let s = String::from_str("none");
        assert(is_key_order(go_entries(gv), keys@) && s@ == gos_text(gv, keys@));
        return s;
    }
    let ghost labels = keys@.map_values(|k: u32| go_label(k, count_entry(gv, k), least_name(gv, k)->0));
    let mut out: Vec<char> = Vec::new();
    let m = keys.len();
    assert(labels.take(0) =~= Seq::<Seq<char>>::empty());
    for j in 0..m
        invariant
            m == keys@.len(),
            n == es@.len(),
            n < u64::MAX,
            gv == go_view(es@),
            is_key_order(go_entries(gv), keys@),
            labels == keys@.map_values(|k: u32| go_label(k, count_entry(gv, k), least_name(gv, k)->0)),
            out@ == spaced(labels.take(j as int)),
    {
        let k = keys[j];
        let (count, least) = tally_entry(es, k);
        assert(go_entries(gv).contains(k));
        proof {
            let q = choose|q: int| 0 <= q < go_entries(gv).len() && go_entries(gv)[q] == k;
            lemma_least_exists(gv, k, q);
        }
        let mut label = decimal_of(k as u64);
        match least {
            Some(Some(name)) => {
                label.push(':');
                let mut cs = chars_of(name.as_str());
                label.append(&mut cs);
            },
            _ => {},
        }
        if count > 1 {
            label.push('\u{d7}');
            let mut c = decimal_of(count);
            label.append(&mut c);
        }
        proof {
            assert(label@ =~= labels[j as int]);
        }
        append_spaced(&mut out, Ghost(labels.take(j as int)), &label, j == 0);
        assert(labels.take(j + 1) =~= labels.take(j as int).push(label@));
    }
    assert(labels.take(m as int) =~= labels);
    let s = string_of(out.as_slice());
    assert(is_key_order(go_entries(gv), keys@) && s@ == gos_text(gv, keys@));
    s
}

proof fn lemma_least_exists(es: Seq<GoSeen>, e: u32, q: int)
    requires
        0 <= q < es.len(),
        es[q].0 == e,
    ensures
        least_name(es, e) is Some,
    decreases es.len(),
{
    if q < es.len() - 1 {
        lemma_least_exists(es.drop_last(), e, q);
    }
}

// ── World states ─────────────────────────────────────────────────────────────────────────────────

/// The keys of a list of (key, value) pairs.
pub open spec fn pair_keys<V>(pairs: Seq<(u32, V)>) -> Seq<u32> {
    pairs.map_values(|p: (u32, V)| p.0)
}

/// The pairs stored under `k`, in their order.
pub open spec fn with_key<V>(pairs: Seq<(u32, V)>, k: u32) -> Seq<(u32, V)> {
    pairs.filter(|p: (u32, V)| p.0 == k)
}

/// The pairs ordered by key, ascending along `keys`; pairs that share a key keep their order.
pub open spec fn by_key<V>(pairs: Seq<(u32, V)>, keys: Seq<u32>) -> Seq<(u32, V)>
    decreases keys.len(),
{
    if keys.len() == 0 {
        Seq::empty()
    } else {
        by_key(pairs, keys.drop_last()) + with_key(pairs, keys.last())
    }
}

/// One world state as the census shows it: `key=value`.
pub open spec fn state_label(p: (u32, i32)) -> Seq<char> {
    decimal(p.0 as nat) + seq!['='] + signed_decimal(p.1 as int)
}

/// The census `STATES` list: every world state as `key=value`, ascending by key.
pub open spec fn states_text(pairs: Seq<(u32, i32)>, keys: Seq<u32>) -> Seq<char> {
    spaced(by_key(pairs, keys).map_values(|p: (u32, i32)| state_label(p)))
}

proof fn lemma_with_key_step<V>(pairs: Seq<(u32, V)>, k: u32, i: int)
    requires
        0 <= i < pairs.len(),
    ensures
        with_key(pairs.take(i + 1), k) == if pairs[i].0 == k {
            with_key(pairs.take(i), k).push(pairs[i])
        } else {
            with_key(pairs.take(i), k)
        },
{
    reveal_with_fuel(Seq::<_>::filter, 1);
    assert(pairs.take(i + 1).drop_last() =~= pairs.take(i));
    assert(pairs.take(i + 1).last() == pairs[i]);
}

/// The census `STATES` list for the world-state table.
pub fn census_states(pairs: &Vec<(u32, i32)>) -> (s: String)
    ensures
        exists|keys: Seq<u32>| is_key_order(pair_keys(pairs@), keys) && s@ == states_text(pairs@, keys),
{
    let mut ks: Vec<u32> = Vec::new();
    let n = pairs.len();
    for i in 0..n
        invariant
            n == pairs@.len(),
            ks@ == pair_keys(pairs@).take(i as int),
    {
        ks.push(pairs[i].0);
        assert(pair_keys(pairs@).take(i + 1) =~= pair_keys(pairs@).take(i as int).push(pairs@[i as int].0));
    }
    assert(pair_keys(pairs@).take(n as int) =~= pair_keys(pairs@));
    let keys = key_order(&ks);
    let mut out: Vec<char> = Vec::new();
    let mut any = false;
    let m = keys.len();
    assert(by_key(pairs@, keys@.take(0)) =~= Seq::<(u32, i32)>::empty());
    for j in 0..m
        invariant
            m == keys@.len(),
            n == pairs@.len(),
            out@ == spaced(by_key(pairs@, keys@.take(j as int)).map_values(|p: (u32, i32)| state_label(p))),
            any == (by_key(pairs@, keys@.take(j as int)).len() > 0),
    {
        let k = keys[j];
        let ghost head = by_key(pairs@, keys@.take(j as int));
        assert(with_key(pairs@.take(0), k) =~= Seq::<(u32, i32)>::empty());
        assert(head + with_key(pairs@.take(0), k) =~= head);
        for i in 0..n
            invariant
                n == pairs@.len(),
                out@ == spaced((head + with_key(pairs@.take(i as int), k)).map_values(
                    |p: (u32, i32)| state_label(p),
                )),
                any == ((head + with_key(pairs@.take(i as int), k)).len() > 0),
        {
            proof {
                lemma_with_key_step(pairs@, k, i as int);
            }
            if pairs[i].0 == k {
                let ghost done = head + with_key(pairs@.take(i as int), k);
                let mut label = decimal_of(k as u64);
                label.push('=');
                let mut v = signed_decimal_of(pairs[i].1);
                label.append(&mut v);
                assert(label@ =~= state_label(pairs@[i as int]));
                let ghost labels = done.map_values(|p: (u32, i32)| state_label(p));
                append_spaced(&mut out, Ghost(labels), &label, !any);
                any = true;
                assert(head + with_key(pairs@.take(i + 1), k) =~= done.push(pairs@[i as int]));
                assert(done.push(pairs@[i as int]).map_values(|p: (u32, i32)| state_label(p))
                    =~= labels.push(label@));
            }
        }
        assert(pairs@.take(n as int) =~= pairs@);
        assert(keys@.take(j + 1).drop_last() =~= keys@.take(j as int));
        assert(keys@.take(j + 1).last() == k);
    }
    assert(keys@.take(m as int) =~= keys@);
    let s = string_of(out.as_slice());
    assert(is_key_order(pair_keys(pairs@), keys@) && s@ == states_text(pairs@, keys@));
    s
}

// ── Dropped opcodes ──────────────────────────────────────────────────────────────────────────────

/// One opcode the codec threw on the floor: how many arrived unknown, how many failed to parse,
/// and its name when the protocol table has one.
pub type DropSeen = (u64, u64, Option<Seq<char>>);

/// The census label of one dropped opcode: its name (or `0x` and four hex digits), and its two
/// counts.
pub open spec fn drop_label(p: (u32, DropSeen)) -> Seq<char> {
    (match p.1.2 {
        Some(n) => n,
        None => hex16(p.0 as u16),
    }) + ":unknown="@ + decimal(p.1.0 as nat) + ",unparseable="@ + decimal(p.1.1 as nat)
}

/// The dropped-opcode tally as the contracts see it, keyed by opcode.
pub open spec fn drops_view(v: Seq<(u16, u64, u64, Option<String>)>) -> Seq<(u32, DropSeen)> {
    v.map_values(
        |d: (u16, u64, u64, Option<String>)|
            (
                d.0 as u32,
                (
                    d.1,
                    d.2,
                    match d.3 {
                        Some(s) => Some(s@),
                        None => None,
                    },
                ),
            ),
    )
}

/// The census `DROPPED` list: every dropped opcode with its counts, ascending by opcode; `none`
/// when nothing was dropped.
pub open spec fn drops_text(drops: Seq<(u32, DropSeen)>, keys: Seq<u32>) -> Seq<char> {
    if drops.len() == 0 {
        "none"@
    } else {
        spaced(by_key(drops, keys).map_values(|p: (u32, DropSeen)| drop_label(p)))
    }
}

/// The census `DROPPED` list for the codec's tally (opcode, unknown, unparseable, name).
pub fn census_drops(drops: &Vec<(u16, u64, u64, Option<String>)>) -> (s: String)
    ensures
        exists|keys: Seq<u32>| is_key_order(pair_keys(drops_view(drops@)), keys) && s@ == drops_text(
            drops_view(drops@),
            keys,
        ),
{
    let ghost dv = drops_view(drops@);
    let mut ks: Vec<u32> = Vec::new();
    let n = drops.len();
    for i in 0..n
        invariant
            n == drops@.len(),
            dv == drops_view(drops@),
            ks@ == pair_keys(dv).take(i as int),
    {
        ks.push(drops[i].0 as u32);
        assert(pair_keys(dv).take(i + 1) =~= pair_keys(dv).take(i as int).push(dv[i as int].0));
    }
    assert(pair_keys(dv).take(n as int) =~= pair_keys(dv));
    let keys = key_order(&ks);
    if n == 0 {
        let s = String::from_str("none");
        assert(is_key_order(pair_keys(dv), keys@) && s@ == drops_text(dv, keys@));
        return s;
    }
    let mut out: Vec<char> = Vec::new();
    let mut any = false;
    let m = keys.len();
    assert(by_key(dv, keys@.take(0)) =~= Seq::<(u32, DropSeen)>::empty());
    for j in 0..m
        invariant
            m == keys@.len(),
            n == drops@.len(),
            dv == drops_view(drops@),
            out@ == spaced(by_key(dv, keys@.take(j as int)).map_values(|p: (u32, DropSeen)| drop_label(p))),
            any == (by_key(dv, keys@.take(j as int)).len() > 0),
    {
        let k = keys[j];
        let ghost head = by_key(dv, keys@.take(j as int));
        assert(with_key(dv.take(0), k) =~= Seq::<(u32, DropSeen)>::empty());
        assert(head + with_key(dv.take(0), k) =~= head);
        for i in 0..n
            invariant
                n == drops@.len(),
                dv == drops_view(drops@),
                out@ == spaced((head + with_key(dv.take(i as int), k)).map_values(
                    |p: (u32, DropSeen)| drop_label(p),
                )),
                any == ((head + with_key(dv.take(i as int), k)).len() > 0),
        {
            proof {
                lemma_with_key_step(dv, k, i as int);
            }
            if drops[i].0 as u32 == k {
                let ghost done = head + with_key(dv.take(i as int), k);
                let mut label = match &drops[i].3 {
                    Some(name) => chars_of(name.as_str()),
                    None => hex16_of(drops[i].0),
                };
                let mut tail = chars_of(":unknown=");
                label.append(&mut tail);
                let mut unk = decimal_of(drops[i].1);
                label.append(&mut unk);
                let mut mid = chars_of(",unparseable=");
                label.append(&mut mid);
                let mut bad = decimal_of(drops[i].2);
                label.append(&mut bad);
                assert(label@ =~= drop_label(dv[i as int]));
                let ghost labels = done.map_values(|p: (u32, DropSeen)| drop_label(p));
                append_spaced(&mut out, Ghost(labels), &label, !any);
                any = true;
                assert(head + with_key(dv.take(i + 1), k) =~= done.push(dv[i as int]));
                assert(done.push(dv[i as int]).map_values(|p: (u32, DropSeen)| drop_label(p))
                    =~= labels.push(label@));
            }
        }
        assert(dv.take(n as int) =~= dv);
        assert(keys@.take(j + 1).drop_last() =~= keys@.take(j as int));
        assert(keys@.take(j + 1).last() == k);
    }
    assert(keys@.take(m as int) =~= keys@);
    let s = string_of(out.as_slice());
    assert(is_key_order(pair_keys(dv), keys@) && s@ == drops_text(dv, keys@));
    s
}

/// **The `ENTS` columns partition the entities by kind.** Each column counts exactly the entries of
/// its kind, and the five columns together with the uncounted kinds account for every entry once.
pub proof fn law_ents_partition(ks: Seq<EntKind>)
    ensures
        forall|k: EntKind| #[trigger] count_kind(ks, k) == ks.filter(|x: EntKind| x == k).len(),
        count_kind(ks, EntKind::Unit) + count_kind(ks, EntKind::Player) + count_kind(ks, EntKind::GameObject)
            + count_kind(ks, EntKind::DynamicObject) + count_kind(ks, EntKind::Corpse) + count_kind(
            ks,
            EntKind::Other,
        ) == ks.len(),
    decreases ks.len(),
{
    if ks.len() > 0 {
        law_ents_partition(ks.drop_last());
        assert forall|k: EntKind| #[trigger] count_kind(ks, k) == ks.filter(|x: EntKind| x == k).len() by {
            reveal_with_fuel(Seq::<_>::filter, 1);
            assert(count_kind(ks.drop_last(), k) == ks.drop_last().filter(|x: EntKind| x == k).len());
        }
    } else {
        assert forall|k: EntKind| #[trigger] count_kind(ks, k) == ks.filter(|x: EntKind| x == k).len() by {
            reveal_with_fuel(Seq::<_>::filter, 1);
        }
    }
}

} // verus!
