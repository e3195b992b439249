//! The vanilla patch chain — a priority-ordered set of MPQ archives.
//!
//! Later archives override earlier ones for files sharing an internal path (so a patch archive
//! wins); a read resolves a name to the highest-priority archive that holds it. Which archives
//! mount, and in what order, is [`mount_order`]'s law; how a name resolves against the mounted
//! archives is [`resolve`]'s.
use vstd::prelude::*;
use crate::text::{lower_seq, chars_of, lower_chars, eq_ignore_ascii_case, string_of, str_contains, contains_seq, trim_seq, trim_chars};
use vstd::string::StringExecFns;
use crate::order::{is_stable_fold_sort, views_of, sort_by_fold, fold_key, lex_lt, lemma_lex_irreflexive, lemma_lex_total, lemma_lex_asymmetric};

verus! {

/// One entry from a chain listing: an internal path and its uncompressed size.
pub struct ChainEntry {
    pub name: String,
    pub size: u64,
}

/// `p`,`a`,`t`,`c`,`h`,`-` — the glob's fixed head.
pub open spec fn patch_head() -> Seq<char> {
    seq!['p', 'a', 't', 'c', 'h', '-']
}

/// `.`,`m`,`p`,`q` — the glob's fixed tail.
pub open spec fn mpq_tail() -> Seq<char> {
    seq!['.', 'm', 'p', 'q']
}

/// `patch-?.MPQ` with FindFirstFileW semantics: `?` is exactly one character, and the whole match
/// is ASCII-case-insensitive.
pub open spec fn is_patch_glob(name: Seq<char>) -> bool {
    &&& name.len() == 11
    &&& lower_seq(name).subrange(0, 6) == patch_head()
    &&& lower_seq(name).subrange(7, 11) == mpq_tail()
}

/// Whether `name` matches `patch-?.MPQ` (`?` exactly one character, case-insensitive):
/// `patch-3.MPQ` mounts, `patch-10.MPQ` does not.
pub fn is_patch_glob_match(name: &str) -> (r: bool)
    ensures
        r == is_patch_glob(name@),
{
    let lower = lower_chars(chars_of(name).as_slice());
    if lower.len() != 11 {
        return false;
    }
    let r = lower[0] == 'p' && lower[1] == 'a' && lower[2] == 't' && lower[3] == 'c' && lower[4]
        == 'h' && lower[5] == '-' && lower[7] == '.' && lower[8] == 'm' && lower[9] == 'p'
        && lower[10] == 'q';
    proof {
        let l = lower_seq(name@);
        assert(l == lower@);
        if r {
            assert(l.subrange(0, 6) =~= patch_head());
            assert(l.subrange(7, 11) =~= mpq_tail());
        } else if is_patch_glob(name@) {
            assert(l.subrange(0, 6)[0] == l[0]);
            assert(l.subrange(0, 6)[1] == l[1]);
            assert(l.subrange(0, 6)[2] == l[2]);
            assert(l.subrange(0, 6)[3] == l[3]);
            assert(l.subrange(0, 6)[4] == l[4]);
            assert(l.subrange(0, 6)[5] == l[5]);
            assert(l.subrange(7, 11)[0] == l[7]);
            assert(l.subrange(7, 11)[1] == l[8]);
            assert(l.subrange(7, 11)[2] == l[9]);
            assert(l.subrange(7, 11)[3] == l[10]);
        }
    }
    r
}

/// The ten base archives, lowest priority first.
pub open spec fn vanilla_base_order() -> Seq<Seq<char>> {
    seq![
        "dbc.MPQ"@,
        "fonts.MPQ"@,
        "interface.MPQ"@,
        "misc.MPQ"@,
        "terrain.MPQ"@,
        "texture.MPQ"@,
        "model.MPQ"@,
        "wmo.MPQ"@,
        "sound.MPQ"@,
        "speech.MPQ"@,
    ]
}

/// How many base archives the vanilla mount law names.
pub const VANILLA_BASE_COUNT: usize = 10;

/// The `i`-th base archive of [`vanilla_base_order`].
pub fn vanilla_base_name(i: usize) -> (name: &'static str)
    requires
        i < VANILLA_BASE_COUNT,
    ensures
        name@ == vanilla_base_order()[i as int],
{
    match i {
        0 => "dbc.MPQ",
        1 => "fonts.MPQ",
        2 => "interface.MPQ",
        3 => "misc.MPQ",
        4 => "terrain.MPQ",
        5 => "texture.MPQ",
        6 => "model.MPQ",
        7 => "wmo.MPQ",
        8 => "sound.MPQ",
        _ => "speech.MPQ",
    }
}

/// The index of the first name in `names` equal to `want` up to ASCII case, if any.
pub open spec fn first_match(names: Seq<Seq<char>>, want: Seq<char>) -> Option<int> {
    if exists|i: int|
        0 <= i < names.len() && lower_seq(names[i]) == lower_seq(want) && forall|j: int|
            0 <= j < i ==> lower_seq(#[trigger] names[j]) != lower_seq(want) {
        Some(
            choose|i: int|
                0 <= i < names.len() && lower_seq(names[i]) == lower_seq(want) && forall|j: int|
                    0 <= j < i ==> lower_seq(#[trigger] names[j]) != lower_seq(want),
        )
    } else {
        None
    }
}

/// The name `want` is found as, on disk (`names`): nothing, or the first case-insensitive match.
pub open spec fn found_as(names: Seq<Seq<char>>, want: Seq<char>) -> Seq<Seq<char>> {
    match first_match(names, want) {
        Some(i) => seq![names[i]],
        None => Seq::empty(),
    }
}

/// Every name of `wants` that `names` holds, in the order of `wants`, spelled as in `names`.
pub open spec fn found_all(names: Seq<Seq<char>>, wants: Seq<Seq<char>>) -> Seq<Seq<char>>
    decreases wants.len(),
{
    if wants.len() == 0 {
        Seq::empty()
    } else {
        found_all(names, wants.drop_last()) + found_as(names, wants.last())
    }
}

/// The names of `names` that match `patch-?.MPQ`, in directory order.
pub open spec fn patch_globs(names: Seq<Seq<char>>) -> Seq<Seq<char>> {
    names.filter(|n: Seq<char>| is_patch_glob(n))
}

/// The vanilla mount law, ascending priority: the base archives at their fixed priorities, then
/// `patch.MPQ`, then every `patch-?.MPQ` stably sorted by case-folded name, then `speech2.MPQ`.
pub open spec fn is_mount_order(names: Seq<Seq<char>>, out: Seq<Seq<char>>) -> bool {
    let head = found_all(names, vanilla_base_order()) + found_as(names, "patch.MPQ"@);
    let tail = found_as(names, "speech2.MPQ"@);
    let patches = patch_globs(names);
    &&& out.len() == head.len() + patches.len() + tail.len()
    &&& out.subrange(0, head.len() as int) == head
    &&& out.subrange(out.len() - tail.len(), out.len() as int) == tail
    &&& is_stable_fold_sort(
        out.subrange(head.len() as int, out.len() - tail.len()),
        patches,
    )
}

/// The first of `names` equal to `want` up to ASCII case, as spelled in `names`.
fn find_name(names: &[String], want: &str) -> (r: Option<String>)
    ensures
        r matches Some(s) ==> first_match(views_of(names@), want@) matches Some(i) && s@
            == names@[i]@,
        r is None ==> first_match(views_of(names@), want@) is None,
{
    let ghost v = views_of(names@);
    let n = names.len();
    for i in 0..n
        invariant
            n == names@.len(),
            v == views_of(names@),
            forall|j: int| 0 <= j < i ==> lower_seq(#[trigger] v[j]) != lower_seq(want@),
    {
        if eq_ignore_ascii_case(names[i].as_str(), want) {
            proof {
                let w = choose|k: int|
                    0 <= k < v.len() && lower_seq(v[k]) == lower_seq(want@) && forall|j: int|
                        0 <= j < k ==> lower_seq(#[trigger] v[j]) != lower_seq(want@);
                assert(0 <= i < v.len() && lower_seq(v[i as int]) == lower_seq(want@));
                if w < i {
                } else if w > i {
                    assert(lower_seq(v[i as int]) != lower_seq(want@));
                }
            }
            return Some(names[i].clone());
        }
    }
    None
}

/// Append the one-or-zero names of `found` to `order`.
fn push_found(order: &mut Vec<String>, found: Option<String>)
    ensures
        found is None ==> final(order)@ == old(order)@,
        found matches Some(s) ==> final(order)@ == old(order)@.push(s),
{
    match found {
        Some(s) => order.push(s),
        None => {},
    }
}

/// The vanilla mount law over a `Data` directory listing, **ascending priority**: the ten base
/// archives at their fixed priorities, then `patch.MPQ`, then every `patch-?.MPQ` sorted
/// ascending by case-folded name (so `patch-3` overrides `patch-2`), then `speech2.MPQ` above
/// every patch. Names are matched case-insensitively and returned as found on disk; absent archives
/// are simply not in the result.
pub fn mount_order(dir_names: &[String]) -> (order: Vec<String>)
    ensures
        is_mount_order(views_of(dir_names@), views_of(order@)),
{
    let ghost names = views_of(dir_names@);
    let mut order: Vec<String> = Vec::new();
    for b in 0..VANILLA_BASE_COUNT
        invariant
            names == views_of(dir_names@),
            views_of(order@) == found_all(names, vanilla_base_order().take(b as int)),
    {
        let want = vanilla_base_name(b);
        let found = find_name(dir_names, want);
        let ghost before = order@;
        push_found(&mut order, found);
        proof {
            let w = vanilla_base_order().take(b + 1);
            assert(w.drop_last() =~= vanilla_base_order().take(b as int));
            assert(w.last() == vanilla_base_order()[b as int]);
            assert(views_of(order@) =~= found_all(names, vanilla_base_order().take(b as int))
                + found_as(names, want@));
        }
    }
    assert(vanilla_base_order().take(10) =~= vanilla_base_order());
    let found = find_name(dir_names, "patch.MPQ");
    push_found(&mut order, found);
    let ghost head = views_of(order@);
    assert(head =~= found_all(names, vanilla_base_order()) + found_as(names, "patch.MPQ"@));
    // The glob matches, in directory order.
    let mut patches: Vec<String> = Vec::new();
    let n = dir_names.len();
    for i in 0..n
        invariant
            n == dir_names@.len(),
            names == views_of(dir_names@),
            views_of(patches@) == patch_globs(names.take(i as int)),
    {
        let ghost before = views_of(patches@);
        if is_patch_glob_match(dir_names[i].as_str()) {
            patches.push(dir_names[i].clone());
        }
        proof {
            assert(names.take(i + 1).drop_last() =~= names.take(i as int));
            assert(names.take(i + 1).last() == names[i as int]);
            reveal_with_fuel(Seq::<_>::filter, 1);
            assert(views_of(patches@) =~= patch_globs(names.take(i + 1)));
        }
    }
    assert(names.take(n as int) =~= names);
    let sorted = sort_by_fold(patches);
    let ghost mid = views_of(sorted@);
    let ghost hl = order@.len();
    let m = sorted.len();
    let mut sorted = sorted;
    order.append(&mut sorted);
    assert(views_of(order@) =~= head + mid);
    let found = find_name(dir_names, "speech2.MPQ");
    push_found(&mut order, found);
    proof {
        let out = views_of(order@);
        let tail = found_as(names, "speech2.MPQ"@);
        assert(out =~= head + mid + tail);
        assert(out.subrange(0, head.len() as int) =~= head);
        assert(out.subrange(out.len() - tail.len(), out.len() as int) =~= tail);
        assert(out.subrange(head.len() as int, out.len() - tail.len()) =~= mid);
    }
    order
}

/// The chain index's key for a name: MPQ hashing's equivalence — ASCII-case-insensitive, with `/`
/// and `\` the same separator.
pub open spec fn index_key_of(name: Seq<char>) -> Seq<char> {
    lower_seq(name.map_values(|c: char| if c == '/' { '\\' } else { c }))
}

/// [`index_key_of`]: `/` becomes `\`, then ASCII lowercase.
pub fn index_key(name: &str) -> (key: String)
    ensures
        key@ == index_key_of(name@),
{
    let cs = chars_of(name);
    let mut out: Vec<char> = Vec::new();
    let n = cs.len();
    for i in 0..n
        invariant
            n == cs@.len(),
            cs@ == name@,
            out@ == name@.take(i as int).map_values(|c: char| if c == '/' { '\\' } else { c }),
    {
        let c = cs[i];
        out.push(if c == '/' { '\\' } else { c });
        assert(name@.take(i + 1) =~= name@.take(i as int).push(name@[i as int]));
    }
    assert(name@.take(n as int) =~= name@);
    string_of(lower_chars(out.as_slice()).as_slice())
}


/// What one archive holds under a name: nothing, a readable file, or a delete-marker (a
/// tombstone that shadows every lower-priority copy).
#[derive(Clone, Copy, PartialEq, Eq, Debug, Structural)]
pub enum ArchiveEntry {
    Absent,
    File,
    DeleteMarker,
}

/// The highest-priority archive (the last, in ascending order) that has an entry for the name —
/// a readable file or a delete-marker.
pub open spec fn winner(entries: Seq<ArchiveEntry>) -> Option<int> {
    if exists|i: int| 0 <= i < entries.len() && entries[i] != ArchiveEntry::Absent {
        Some(
            choose|i: int|
                0 <= i < entries.len() && entries[i] != ArchiveEntry::Absent && forall|j: int|
                    i < j < entries.len() ==> entries[j] == ArchiveEntry::Absent,
        )
    } else {
        None
    }
}

proof fn lemma_winner_is_last(entries: Seq<ArchiveEntry>, i: int)
    requires
        0 <= i < entries.len(),
        entries[i] != ArchiveEntry::Absent,
        forall|j: int| i < j < entries.len() ==> entries[j] == ArchiveEntry::Absent,
    ensures
        winner(entries) == Some(i),
{
    let w = choose|w: int|
        0 <= w < entries.len() && entries[w] != ArchiveEntry::Absent && forall|j: int|
            w < j < entries.len() ==> entries[j] == ArchiveEntry::Absent;
    assert(0 <= i < entries.len() && entries[i] != ArchiveEntry::Absent && forall|j: int|
        i < j < entries.len() ==> entries[j] == ArchiveEntry::Absent);
    if w < i {
        assert(entries[i] == ArchiveEntry::Absent);
    } else if w > i {
        assert(entries[w] == ArchiveEntry::Absent);
    }
}

/// The archive a name resolves to: the highest-priority one with an entry for it, stopping at a
/// delete-marker too (it shadows every lower copy). `entries[i]` is what archive `i` holds,
/// archives in ascending priority.
pub fn resolve(entries: &[ArchiveEntry]) -> (r: Option<usize>)
    ensures
        r matches Some(i) ==> i < entries@.len() && winner(entries@) == Some(i as int)
            && entries@[i as int] != ArchiveEntry::Absent,
        r is None ==> winner(entries@) is None,
{
    let mut i = entries.len();
    while i > 0
        invariant
            i <= entries@.len(),
            forall|j: int| i <= j < entries@.len() ==> entries@[j] == ArchiveEntry::Absent,
        decreases i,
    {
        if entries[i - 1] != ArchiveEntry::Absent {
            proof {
                lemma_winner_is_last(entries@, i - 1);
            }
            return Some(i - 1);
        }
        i = i - 1;
    }
    None
}

/// The name is present in the composite as a readable file: its winning entry is not a
/// delete-marker.
pub open spec fn readable(entries: Seq<ArchiveEntry>) -> bool {
    winner(entries) matches Some(i) && entries[i] == ArchiveEntry::File
}

/// Whether the chain holds the name as a **readable** file. A path whose winning entry is a
/// delete-marker is not present: the chain deleted it.
pub fn contains(entries: &[ArchiveEntry]) -> (r: bool)
    ensures
        r == readable(entries@),
{
    match resolve(entries) {
        Some(i) => entries[i] == ArchiveEntry::File,
        None => false,
    }
}

/// Why a read of the chain produced no bytes.
#[derive(Debug)]
pub enum ChainError {
    /// No mounted archive has an entry for the name.
    NotInChain { name: String },
    /// The winning entry is a delete-marker, in the named archive.
    Deleted { name: String, archive: String },
    /// The web host could not be asked, or answered with something other than the file.
    Fetch { name: String, cause: String },
    /// The web host's name index could not be fetched.
    Index { cause: String },
    /// The web host's name index is not a JSON list of names.
    IndexParse,
}

/// The text of a [`ChainError`], word for word what a caller matching on the message expects.
pub open spec fn error_text(e: ChainError) -> Seq<char> {
    match e {
        ChainError::NotInChain { name } => "file not in patch chain: "@ + name@,
        ChainError::Deleted { name, archive } => "file deleted from patch chain: "@ + name@
            + " (tombstoned by "@ + archive@ + ")"@,
        ChainError::Fetch { name, cause } => "fetching "@ + name@ + " from web host: "@ + cause@,
        ChainError::Index { cause } => "fetching chain index: "@ + cause@,
        ChainError::IndexParse => "parsing chain index JSON"@,
    }
}

impl ChainError {
    /// The error's message.
    pub fn message(&self) -> (m: String)
        ensures
            m@ == error_text(*self),
    {
        match self {
            ChainError::NotInChain { name } => {
                let mut m = String::from_str("file not in patch chain: ");
                m.append(name.as_str());
                m
            },
            ChainError::Deleted { name, archive } => {
                let mut m = String::from_str("file deleted from patch chain: ");
                m.append(name.as_str());
                m.append(" (tombstoned by ");
                m.append(archive.as_str());
                m.append(")");
                m
            },
            ChainError::Fetch { name, cause } => {
                let mut m = String::from_str("fetching ");
                m.append(name.as_str());
                m.append(" from web host: ");
                m.append(cause.as_str());
                m
            },
            ChainError::Index { cause } => {
                let mut m = String::from_str("fetching chain index: ");
                m.append(cause.as_str());
                m
            },
            ChainError::IndexParse => String::from_str("parsing chain index JSON"),
        }
    }
}

/// The archive to read `name` from, or why there is none: not mounted anywhere, or tombstoned by
/// its winning archive (a clean "not found", never a fall-through to a stale lower copy).
/// `archive_paths[i]` names archive `i` for the message.
pub fn read_source(name: &str, entries: &[ArchiveEntry], archive_paths: &[String]) -> (r: Result<
    usize,
    ChainError,
>)
    requires
        entries@.len() == archive_paths@.len(),
    ensures
        (match winner(entries@) {
            None => r matches Err(ChainError::NotInChain { name: n }) && n@ == name@,
            Some(i) => if entries@[i] == ArchiveEntry::File {
                r == Ok::<usize, ChainError>(i as usize)
            } else {
                r matches Err(ChainError::Deleted { name: n, archive: a }) && n@ == name@ && a@
                    == archive_paths@[i]@
            },
        }),
{
    match resolve(entries) {
        None => Err(ChainError::NotInChain { name: name.to_owned() }),
        Some(i) => {
            if entries[i] == ArchiveEntry::DeleteMarker {
                Err(ChainError::Deleted { name: name.to_owned(), archive: archive_paths[i].clone() })
            } else {
                Ok(i)
            }
        },
    }
}

/// The two phrases that mark a read failure as "this path does not exist in the composite".
pub open spec fn is_missing_text(msg: Seq<char>) -> bool {
    contains_seq(msg, "not in patch chain"@) || contains_seq(msg, "deleted from patch chain"@)
}

/// A chain-read failure that means the path does not exist in the composite — never mounted, or
/// tombstoned by a patch — as opposed to a real I/O fault reading a corrupt archive.
pub fn is_missing(msg: &str) -> (r: bool)
    ensures
        r == is_missing_text(msg@),
{
    str_contains(msg, "not in patch chain") || str_contains(msg, "deleted from patch chain")
}

/// **A read the chain cannot serve because the path is absent is reported as missing.** Both
/// shapes a missing path takes — never mounted, or tombstoned — carry a message that
/// [`is_missing`] classifies as missing (a 404 rather than a server fault).
pub proof fn law_missing_errors_read_as_missing(e: ChainError)
    requires
        e is NotInChain || e is Deleted,
    ensures
        is_missing_text(error_text(e)),
{
    reveal_strlit("file not in patch chain: ");
    reveal_strlit("not in patch chain");
    reveal_strlit("file deleted from patch chain: ");
    reveal_strlit("deleted from patch chain");
    match e {
        ChainError::NotInChain { name } => {
            let t = error_text(e);
            assert(t.subrange(5int, 23int) =~= "not in patch chain"@);
            assert(occurs_at_witness(t, "not in patch chain"@, 5));
        },
        ChainError::Deleted { name, archive } => {
            let t = error_text(e);
            assert(t.subrange(5int, 29int) =~= "deleted from patch chain"@);
            assert(occurs_at_witness(t, "deleted from patch chain"@, 5));
        },
        _ => {},
    }
}

spec fn occurs_at_witness(s: Seq<char>, pat: Seq<char>, at: int) -> bool {
    crate::text::occurs_at(s, pat, at)
}

// ── The mount order is a function of what is on disk ─────────────────────────────────────────────

/// No two names of a listing are the same up to ASCII case.
pub open spec fn fold_distinct(names: Seq<Seq<char>>) -> bool {
    forall|i: int, j: int|
        0 <= i < names.len() && 0 <= j < names.len() && i != j ==> lower_seq(#[trigger] names[i])
            != lower_seq(#[trigger] names[j])
}

proof fn lemma_fold_distinct_no_duplicates(s: Seq<Seq<char>>)
    requires
        fold_distinct(s),
    ensures
        s.no_duplicates(),
{
    assert forall|i: int, j: int| 0 <= i < s.len() && 0 <= j < s.len() && i != j implies s[i] != s[j] by {
        if s[i] == s[j] {
            assert(lower_seq(s[i]) == lower_seq(s[j]));
        }
    }
}

/// A reordering of a listing without case-insensitive duplicates has none either, and holds the
/// same names.
proof fn lemma_reordered_listing(names: Seq<Seq<char>>, q: Seq<Seq<char>>)
    requires
        fold_distinct(names),
        q.to_multiset() == names.to_multiset(),
    ensures
        fold_distinct(q),
        forall|x: Seq<char>| q.contains(x) <==> names.contains(x),
{
    assert forall|x: Seq<char>| q.contains(x) <==> names.contains(x) by {
        vstd::seq_lib::to_multiset_contains(q, x);
        vstd::seq_lib::to_multiset_contains(names, x);
    }
    lemma_fold_distinct_no_duplicates(names);
    names.lemma_multiset_has_no_duplicates();
    q.lemma_multiset_has_no_duplicates_conv();
    assert forall|i: int, j: int|
        0 <= i < q.len() && 0 <= j < q.len() && i != j implies lower_seq(#[trigger] q[i])
        != lower_seq(#[trigger] q[j]) by {
        if lower_seq(q[i]) == lower_seq(q[j]) {
            assert(q.contains(q[i]));
            assert(q.contains(q[j]));
            let a = choose|a: int| 0 <= a < names.len() && names[a] == q[i];
            let b = choose|b: int| 0 <= b < names.len() && names[b] == q[j];
            assert(q[i] != q[j]);
            assert(a != b);
        }
    }
}

proof fn lemma_first_match_is(s: Seq<Seq<char>>, w: Seq<char>, i: int)
    requires
        fold_distinct(s),
        0 <= i < s.len(),
        lower_seq(s[i]) == lower_seq(w),
    ensures
        first_match(s, w) == Some(i),
{
    assert forall|j: int| 0 <= j < i implies lower_seq(#[trigger] s[j]) != lower_seq(w) by {
    }
    let k = first_match(s, w)->0;
    assert(0 <= k < s.len() && lower_seq(s[k]) == lower_seq(w));
    if k != i {
        assert(lower_seq(s[k]) != lower_seq(s[i]));
    }
}

/// Two listings of the same names, neither with case-insensitive duplicates, find every wanted
/// name as the same spelling.
proof fn lemma_found_as_same(s: Seq<Seq<char>>, t: Seq<Seq<char>>, w: Seq<char>)
    requires
        fold_distinct(s),
        fold_distinct(t),
        forall|x: Seq<char>| s.contains(x) <==> t.contains(x),
    ensures
        found_as(s, w) == found_as(t, w),
{
    if exists|i: int| 0 <= i < s.len() && lower_seq(s[i]) == lower_seq(w) {
        let i = choose|i: int| 0 <= i < s.len() && lower_seq(s[i]) == lower_seq(w);
        lemma_first_match_is(s, w, i);
        assert(s.contains(s[i]));
        let k = choose|k: int| 0 <= k < t.len() && t[k] == s[i];
        lemma_first_match_is(t, w, k);
    } else {
        assert(first_match(s, w) is None);
        if exists|k: int| 0 <= k < t.len() && lower_seq(t[k]) == lower_seq(w) {
            let k = choose|k: int| 0 <= k < t.len() && lower_seq(t[k]) == lower_seq(w);
            assert(t.contains(t[k]));
            let i = choose|i: int| 0 <= i < s.len() && s[i] == t[k];
            assert(lower_seq(s[i]) == lower_seq(w));
        }
        assert(first_match(t, w) is None);
    }
}

proof fn lemma_found_all_same(s: Seq<Seq<char>>, t: Seq<Seq<char>>, wants: Seq<Seq<char>>)
    requires
        fold_distinct(s),
        fold_distinct(t),
        forall|x: Seq<char>| s.contains(x) <==> t.contains(x),
    ensures
        found_all(s, wants) == found_all(t, wants),
    decreases wants.len(),
{
    if wants.len() > 0 {
        lemma_found_all_same(s, t, wants.drop_last());
        lemma_found_as_same(s, t, wants.last());
    }
}

/// A filter of a listing without case-insensitive duplicates has none either.
proof fn lemma_filter_fold_distinct(s: Seq<Seq<char>>, pred: spec_fn(Seq<char>) -> bool)
    requires
        fold_distinct(s),
    ensures
        fold_distinct(s.filter(pred)),
    decreases s.len(),
{
    reveal_with_fuel(Seq::<_>::filter, 1);
    if s.len() > 0 {
        let d = s.drop_last();
        assert(fold_distinct(d)) by {
            assert forall|i: int, j: int|
                0 <= i < d.len() && 0 <= j < d.len() && i != j implies lower_seq(#[trigger] d[i])
                != lower_seq(#[trigger] d[j]) by {
                assert(d[i] == s[i] && d[j] == s[j]);
            }
        }
        lemma_filter_fold_distinct(d, pred);
        let f = d.filter(pred);
        if pred(s.last()) {
            let g = f.push(s.last());
            assert forall|i: int, j: int|
                0 <= i < g.len() && 0 <= j < g.len() && i != j implies lower_seq(#[trigger] g[i])
                != lower_seq(#[trigger] g[j]) by {
                if i < f.len() && j < f.len() {
                    assert(g[i] == f[i] && g[j] == f[j]);
                } else {
                    let m = if i < f.len() { i } else { j };
                    assert(g[m] == f[m]);
                    assert(f.contains(f[m]));
                    d.lemma_filter_contains_rev(pred, f[m]);
                    let a = choose|a: int| 0 <= a < d.len() && d[a] == f[m];
                    assert(s[a] == f[m]);
                    assert(lower_seq(s[a]) != lower_seq(s[s.len() - 1]));
                }
            }
        }
    }
}

/// Two orderings of the same names, each strictly ascending by case-folded spelling, are the same
/// sequence.
proof fn lemma_fold_ascending_unique(a: Seq<Seq<char>>, b: Seq<Seq<char>>)
    requires
        forall|i: int, j: int| 0 <= i < j < a.len() ==> lex_lt(fold_key(#[trigger] a[i]), fold_key(#[trigger] a[j])),
        forall|i: int, j: int| 0 <= i < j < b.len() ==> lex_lt(fold_key(#[trigger] b[i]), fold_key(#[trigger] b[j])),
        forall|x: Seq<char>| a.contains(x) <==> b.contains(x),
    ensures
        a == b,
    decreases a.len(),
{
    if a.len() == 0 {
        if b.len() > 0 {
            assert(b.contains(b[0]));
        }
        assert(a =~= b);
    } else {
        assert(a.contains(a[0]));
        if b.len() == 0 {
            assert(false);
        }
        assert(b.contains(b[0]));
        let j = choose|j: int| 0 <= j < b.len() && b[j] == a[0];
        let k = choose|k: int| 0 <= k < a.len() && a[k] == b[0];
        if j > 0 {
            assert(lex_lt(fold_key(b[0]), fold_key(b[j])));
            if k > 0 {
                assert(lex_lt(fold_key(a[0]), fold_key(a[k])));
                lemma_lex_asymmetric(fold_key(a[0]), fold_key(b[0]));
            } else {
                lemma_lex_irreflexive(fold_key(a[0]));
            }
        }
        assert(a[0] == b[0]);
        let ta = a.drop_first();
        let tb = b.drop_first();
        assert forall|x: Seq<char>| ta.contains(x) <==> tb.contains(x) by {
            if ta.contains(x) {
                let i = choose|i: int| 0 <= i < ta.len() && ta[i] == x;
                assert(a.contains(a[i + 1]));
                let m = choose|m: int| 0 <= m < b.len() && b[m] == x;
                if m == 0 {
                    lemma_lex_irreflexive(fold_key(a[0]));
                    assert(lex_lt(fold_key(a[0]), fold_key(a[i + 1])));
                }
                assert(tb[m - 1] == x);
            }
            if tb.contains(x) {
                let i = choose|i: int| 0 <= i < tb.len() && tb[i] == x;
                assert(b.contains(b[i + 1]));
                let m = choose|m: int| 0 <= m < a.len() && a[m] == x;
                if m == 0 {
                    lemma_lex_irreflexive(fold_key(b[0]));
                    assert(lex_lt(fold_key(b[0]), fold_key(b[i + 1])));
                }
                assert(ta[m - 1] == x);
            }
        }
        assert forall|i: int, j: int| 0 <= i < j < ta.len() implies lex_lt(
            fold_key(#[trigger] ta[i]),
            fold_key(#[trigger] ta[j]),
        ) by {
            assert(ta[i] == a[i + 1] && ta[j] == a[j + 1]);
        }
        assert forall|i: int, j: int| 0 <= i < j < tb.len() implies lex_lt(
            fold_key(#[trigger] tb[i]),
            fold_key(#[trigger] tb[j]),
        ) by {
            assert(tb[i] == b[i + 1] && tb[j] == b[j + 1]);
        }
        lemma_fold_ascending_unique(ta, tb);
        assert(a =~= b) by {
            assert forall|i: int| 0 <= i < a.len() implies a[i] == b[i] by {
                if i > 0 {
                    assert(a[i] == ta[i - 1] && b[i] == tb[i - 1]);
                }
            }
        }
    }
}

/// A stable fold sort of a listing without case-insensitive duplicates is strictly ascending and
/// holds exactly the listing's names.
proof fn lemma_fold_sort_of_distinct(m: Seq<Seq<char>>, f: Seq<Seq<char>>)
    requires
        is_stable_fold_sort(m, f),
        fold_distinct(f),
    ensures
        forall|i: int, j: int| 0 <= i < j < m.len() ==> lex_lt(fold_key(#[trigger] m[i]), fold_key(#[trigger] m[j])),
        forall|x: Seq<char>| m.contains(x) <==> f.contains(x),
{
    broadcast use vstd::seq_lib::seq_to_set_is_finite;
    let perm = choose|perm: Seq<int>| crate::order::is_stable_fold_sort_by(m, f, perm);
    assert forall|i: int, j: int| 0 <= i < j < m.len() implies lex_lt(
        fold_key(#[trigger] m[i]),
        fold_key(#[trigger] m[j]),
    ) by {
        assert(m[i] == f[perm[i]] && m[j] == f[perm[j]]);
        assert(lower_seq(f[perm[i]]) != lower_seq(f[perm[j]]));
        lemma_lex_total(fold_key(m[i]), fold_key(m[j]));
    }
    assert(fold_distinct(m)) by {
        assert forall|i: int, j: int|
            0 <= i < m.len() && 0 <= j < m.len() && i != j implies lower_seq(#[trigger] m[i])
            != lower_seq(#[trigger] m[j]) by {
            assert(m[i] == f[perm[i]] && m[j] == f[perm[j]]);
            assert(perm[i] != perm[j]);
        }
    }
    lemma_fold_distinct_no_duplicates(m);
    lemma_fold_distinct_no_duplicates(f);
    m.unique_seq_to_set();
    f.unique_seq_to_set();
    assert(m.to_set().subset_of(f.to_set())) by {
        assert forall|x: Seq<char>| m.to_set().contains(x) implies f.to_set().contains(x) by {
            let i = choose|i: int| 0 <= i < m.len() && m[i] == x;
            assert(m[i] == f[perm[i]]);
        }
    }
    vstd::set_lib::lemma_subset_equality(m.to_set(), f.to_set());
    assert forall|x: Seq<char>| m.contains(x) <==> f.contains(x) by {
        assert(m.to_set().contains(x) == f.to_set().contains(x));
    }
}

/// **The mount order is a function of what is on disk, not of the listing's order.** For a
/// `Data` listing in which no two names are the same up to ASCII case, any reordering of the
/// listing mounts exactly the same archives in exactly the same order.
pub proof fn law_mount_order_ignores_listing_order(
    names: Seq<Seq<char>>,
    reordered: Seq<Seq<char>>,
    out: Seq<Seq<char>>,
    out_reordered: Seq<Seq<char>>,
)
    requires
        fold_distinct(names),
        reordered.to_multiset() == names.to_multiset(),
        is_mount_order(names, out),
        is_mount_order(reordered, out_reordered),
    ensures
        out == out_reordered,
{
    let q = reordered;
    lemma_reordered_listing(names, q);
    lemma_found_all_same(names, q, vanilla_base_order());
    lemma_found_as_same(names, q, "patch.MPQ"@);
    lemma_found_as_same(names, q, "speech2.MPQ"@);
    let glob = |n: Seq<char>| is_patch_glob(n);
    let pn = patch_globs(names);
    let pq = patch_globs(q);
    lemma_filter_fold_distinct(names, glob);
    lemma_filter_fold_distinct(q, glob);
    assert forall|x: Seq<char>| pn.contains(x) <==> pq.contains(x) by {
        if pn.contains(x) {
            names.lemma_filter_contains_rev(glob, x);
            let i = choose|i: int| 0 <= i < pn.len() && pn[i] == x;
            names.lemma_filter_pred(glob, i);
            assert(q.contains(x));
            let k = choose|k: int| 0 <= k < q.len() && q[k] == x;
            q.lemma_filter_contains(glob, k);
        }
        if pq.contains(x) {
            q.lemma_filter_contains_rev(glob, x);
            let i = choose|i: int| 0 <= i < pq.len() && pq[i] == x;
            q.lemma_filter_pred(glob, i);
            assert(names.contains(x));
            let k = choose|k: int| 0 <= k < names.len() && names[k] == x;
            names.lemma_filter_contains(glob, k);
        }
    }
    let head = found_all(names, vanilla_base_order()) + found_as(names, "patch.MPQ"@);
    let tail = found_as(names, "speech2.MPQ"@);
    let m1 = out.subrange(head.len() as int, out.len() - tail.len());
    let m2 = out_reordered.subrange(head.len() as int, out_reordered.len() - tail.len());
    lemma_fold_sort_of_distinct(m1, pn);
    lemma_fold_sort_of_distinct(m2, pq);
    lemma_fold_ascending_unique(m1, m2);
    assert(out =~= out.subrange(0, head.len() as int) + m1 + out.subrange(
        out.len() - tail.len(),
        out.len() as int,
    ));
    assert(out_reordered =~= out_reordered.subrange(0, head.len() as int) + m2
        + out_reordered.subrange(out_reordered.len() - tail.len(), out_reordered.len() as int));
}

} // verus!
