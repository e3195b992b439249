//! Enumerating the chain: the union of every archive's `(listfile)`.
//!
//! Each archive's listfile names only the files *it* holds, so the chain's listing unions all of
//! them; a name seen in an earlier archive's listfile is not listed again (names compare the way
//! MPQ hashing does: ASCII-case-insensitive, `/` and `\` the same). Whether a listed name is
//! actually a file of the composite, and its size, is then resolved per name — see
//! [`list_entry`].
use vstd::prelude::*;
use vstd::hash_set::StringHashSet;
use crate::text::{chars_of, string_of, trim_seq, trim_chars, trim_start_seq, trim_end_seq};
use crate::chain::{index_key, index_key_of, ArchiveEntry, ChainEntry, readable, contains};

verus! {

/// What `String::from_utf8_lossy` makes of `bytes`: the text, with every invalid sequence
/// replaced by U+FFFD.
pub uninterp spec fn lossy_text(bytes: Seq<u8>) -> Seq<char>;

/// `String::from_utf8_lossy`. Its result is named [`lossy_text`]; valid UTF-8 decodes unchanged,
/// as the standard library documents. What it substitutes for invalid input is left unsaid.
#[verifier::external_body]
pub(crate) fn utf8_lossy(bytes: &[u8]) -> (s: String)
    ensures
        s@ == lossy_text(bytes@),
        vstd::utf8::valid_utf8(bytes@) ==> s@ == vstd::utf8::decode_utf8(bytes@),
{
    String::from_utf8_lossy(bytes).into_owned()
}

/// A listfile's separators: `;`, carriage return and line feed.
pub open spec fn is_list_sep(c: char) -> bool {
    c == ';' || c == '\r' || c == '\n'
}

/// `text` split at every separator (`str::split([';', '\r', '\n'])`): the pieces between
/// separators, empty ones included.
pub open spec fn pieces(text: Seq<char>) -> Seq<Seq<char>>
    decreases text.len(),
{
    if text.len() == 0 {
        seq![Seq::empty()]
    } else {
        let p = pieces(text.drop_last());
        if is_list_sep(text.last()) {
            p.push(Seq::empty())
        } else {
            p.update(p.len() - 1, p.last().push(text.last()))
        }
    }
}

proof fn lemma_pieces_nonempty(text: Seq<char>)
    ensures
        pieces(text).len() >= 1,
    decreases text.len(),
{
    if text.len() > 0 {
        lemma_pieces_nonempty(text.drop_last());
    }
}

/// The trimmed pieces of one listfile.
pub open spec fn trimmed_pieces(text: Seq<char>) -> Seq<Seq<char>> {
    pieces(text).map_values(|p: Seq<char>| trim_seq(p))
}

/// Every candidate name of every archive that carries a listfile, in archive order.
pub open spec fn candidates(files: Seq<Option<Seq<u8>>>) -> Seq<Seq<char>>
    decreases files.len(),
{
    if files.len() == 0 {
        Seq::empty()
    } else {
        candidates(files.drop_last()) + match files.last() {
            Some(b) => trimmed_pieces(lossy_text(b)),
            None => Seq::empty(),
        }
    }
}

/// Each non-empty name whose key no earlier name shares, in order.
pub open spec fn first_by_key(names: Seq<Seq<char>>) -> Seq<Seq<char>>
    decreases names.len(),
{
    if names.len() == 0 {
        Seq::empty()
    } else {
        let kept = first_by_key(names.drop_last());
        let n = names.last();
        if n.len() == 0 || exists|j: int|
            0 <= j < names.len() - 1 && index_key_of(#[trigger] names[j]) == index_key_of(n) {
            kept
        } else {
            kept.push(n)
        }
    }
}

/// The names the chain's listing considers, in order: the union of every readable listfile
/// (`None` = the archive has no readable `(listfile)`), deduplicated by index key.
pub open spec fn listed_names(files: Seq<Option<Seq<u8>>>) -> Seq<Seq<char>> {
    first_by_key(candidates(files))
}

/// The keys of the non-empty names among `names`.
spec fn seen_keys(names: Seq<Seq<char>>) -> Set<Seq<char>> {
    Set::new(
        |k: Seq<char>|
            exists|j: int| 0 <= j < names.len() && names[j].len() > 0 && index_key_of(names[j]) == k,
    )
}

proof fn lemma_seen_push(before: Seq<Seq<char>>, n: Seq<char>)
    ensures
        seen_keys(before.push(n)) == if n.len() > 0 {
            seen_keys(before).insert(index_key_of(n))
        } else {
            seen_keys(before)
        },
{
    let after = before.push(n);
    let want = if n.len() > 0 {
        seen_keys(before).insert(index_key_of(n))
    } else {
        seen_keys(before)
    };
    assert forall|k: Seq<char>| seen_keys(after).contains(k) implies want.contains(k) by {
        let w = choose|w: int| 0 <= w < after.len() && after[w].len() > 0 && index_key_of(after[w]) == k;
        if w < before.len() {
            assert(after[w] == before[w]);
        }
    }
    assert forall|k: Seq<char>| want.contains(k) implies seen_keys(after).contains(k) by {
        if n.len() > 0 && k == index_key_of(n) {
            assert(after[before.len() as int] == n);
        } else {
            let w = choose|w: int| 0 <= w < before.len() && before[w].len() > 0 && index_key_of(before[w]) == k;
            assert(after[w] == before[w]);
        }
    }
    assert(seen_keys(after) =~= want);
}

/// Split characters into pieces at `;`, `\r` and `\n`.
fn split_pieces(text: &[char]) -> (out: Vec<Vec<char>>)
    ensures
        out@.map_values(|p: Vec<char>| p@) == pieces(text@),
{
    let mut done: Vec<Vec<char>> = Vec::new();
    let mut cur: Vec<char> = Vec::new();
    let n = text.len();
    for i in 0..n
        invariant
            n == text@.len(),
            done@.map_values(|p: Vec<char>| p@).push(cur@) == pieces(text@.take(i as int)),
    {
        let c = text[i];
        proof {
            assert(text@.take(i + 1).drop_last() =~= text@.take(i as int));
            assert(text@.take(i + 1).last() == c);
            lemma_pieces_nonempty(text@.take(i as int));
        }
        if c == ';' || c == '\r' || c == '\n' {
            let ghost before = done@.map_values(|p: Vec<char>| p@);
            let finished = cur;
            cur = Vec::new();
            done.push(finished);
            assert(done@.map_values(|p: Vec<char>| p@) =~= before.push(finished@));
            assert(done@.map_values(|p: Vec<char>| p@).push(cur@) =~= pieces(text@.take(i + 1)));
        } else {
            let ghost before = done@.map_values(|p: Vec<char>| p@);
            cur.push(c);
            assert(done@.map_values(|p: Vec<char>| p@).push(cur@) =~= pieces(text@.take(i + 1)));
        }
    }
    assert(text@.take(n as int) =~= text@);
    done.push(cur);
    assert(done@.map_values(|p: Vec<char>| p@) =~= pieces(text@));
    done
}

proof fn lemma_key_len(n: Seq<char>)
    ensures
        index_key_of(n).len() == n.len(),
{
}

/// The names a chain listing considers, in order: every readable `(listfile)` (`None` = the
/// archive carries none, or it could not be read) split at `;`, `\r` and `\n`, trimmed, with empty
/// names dropped and each name kept only the first time its index key appears.
pub fn listfile_names(listfiles: &[Option<Vec<u8>>]) -> (out: Vec<String>)
    ensures
        out@.map_values(|s: String| s@) == listed_names(listfiles@.map_values(
            |f: Option<Vec<u8>>| match f {
                Some(b) => Some(b@),
                None => None,
            },
        )),
{
    let ghost files = listfiles@.map_values(
        |f: Option<Vec<u8>>| match f {
            Some(b) => Some(b@),
            None => None,
        },
    );
    let mut seen = StringHashSet::new();
    let mut out: Vec<String> = Vec::new();
    let ghost mut cands: Seq<Seq<char>> = Seq::empty();
    let nf = listfiles.len();
    for f in 0..nf
        invariant
            nf == listfiles@.len(),
            files == listfiles@.map_values(
                |f: Option<Vec<u8>>| match f {
                    Some(b) => Some(b@),
                    None => None,
                },
            ),
            cands == candidates(files.take(f as int)),
            out@.map_values(|s: String| s@) == first_by_key(cands),
            seen@ == seen_keys(cands),
    {
        proof {
            assert(files.take(f + 1).drop_last() =~= files.take(f as int));
            assert(files.take(f + 1).last() == files[f as int]);
        }
        match &listfiles[f] {
            None => {
                assert(candidates(files.take(f + 1)) =~= cands);
            },
            Some(bytes) => {
                let text = utf8_lossy(bytes.as_slice());
                let parts = split_pieces(chars_of(text.as_str()).as_slice());
                let ghost start = cands;
                let ghost tp = trimmed_pieces(text@);
                let np = parts.len();
                for p in 0..np
                    invariant
                        np == parts@.len(),
                        parts@.map_values(|p: Vec<char>| p@) == pieces(text@),
                        tp == trimmed_pieces(text@),
                        cands == start + tp.take(p as int),
                        out@.map_values(|s: String| s@) == first_by_key(cands),
                        seen@ == seen_keys(cands),
                {
                    let name = trim_chars(parts[p].as_slice());
                    let ghost before = cands;
                    let ghost bo = out@.map_values(|s: String| s@);
                    proof {
                        assert(parts@.map_values(|p: Vec<char>| p@)[p as int] == parts@[p as int]@);
                        assert(tp[p as int] == name@);
                        cands = before.push(name@);
                        assert(start + tp.take(p + 1) =~= cands);
                        assert(cands.drop_last() =~= before);
                        lemma_key_len(name@);
                    }
                    if name.len() > 0 {
                        let key = index_key(string_of(name.as_slice()).as_str());
                        if !seen.contains(key.as_str()) {
                            proof {
                                assert forall|j: int|
                                    0 <= j < cands.len() - 1 implies index_key_of(#[trigger] cands[j])
                                    != index_key_of(name@) by {
                                    if index_key_of(cands[j]) == index_key_of(name@) {
                                        lemma_key_len(cands[j]);
                                        assert(seen_keys(before).contains(index_key_of(name@)));
                                    }
                                }
                            }
                            out.push(string_of(name.as_slice()));
                            seen.insert(key);
                            proof {
                                assert(out@.map_values(|s: String| s@) =~= bo.push(name@));
                                lemma_seen_push(before, name@);
                                assert(seen@ =~= seen_keys(cands));
                            }
                        } else {
                            proof {
                                let j = choose|j: int|
                                    0 <= j < before.len() && before[j].len() > 0 && index_key_of(
                                        before[j],
                                    ) == index_key_of(name@);
                                assert(cands[j] == before[j]);
                                lemma_seen_push(before, name@);
                                assert(seen_keys(before).contains(index_key_of(name@)));
                                assert(seen@ =~= seen_keys(cands));
                            }
                        }
                    } else {
                        proof {
                            lemma_seen_push(before, name@);
                            assert(seen@ =~= seen_keys(cands));
                        }
                    }
                }
                proof {
                    assert(tp.take(np as int) =~= tp);
                    assert(np == tp.len());
                    assert(candidates(files.take(f + 1)) =~= start + tp);
                }
            },
        }
    }
    assert(files.take(nf as int) =~= files);
    out
}

/// The listing entry for one listed name, given what each archive holds under it (ascending
/// priority) and the size its winning archive reports: none when the name is not a readable file
/// of the composite (a tombstoned path is not a file), else the name with that size (0 when the
/// archive reports none).
pub fn list_entry(name: String, entries: &[ArchiveEntry], size: Option<u64>) -> (r: Option<ChainEntry>)
    ensures
        r is Some <==> readable(entries@),
        r matches Some(e) ==> e.name@ == name@ && e.size == match size {
            Some(s) => s,
            None => 0,
        },
{
    if contains(entries) {
        Some(ChainEntry { name, size: match size { Some(s) => s, None => 0 } })
    } else {
        None
    }
}

proof fn lemma_clean_subrange(s: Seq<char>, lo: int, hi: int)
    requires
        0 <= lo <= hi <= s.len(),
        forall|k: int| 0 <= k < s.len() ==> s[k] != ';' && s[k] != '\r' && s[k] != '\n',
    ensures
        forall|k: int|
            0 <= k < hi - lo ==> #[trigger] s.subrange(lo, hi)[k] != ';' && s.subrange(lo, hi)[k]
                != '\r' && s.subrange(lo, hi)[k] != '\n',
{
    assert forall|k: int| 0 <= k < hi - lo implies #[trigger] s.subrange(lo, hi)[k] != ';'
        && s.subrange(lo, hi)[k] != '\r' && s.subrange(lo, hi)[k] != '\n' by {
        assert(s.subrange(lo, hi)[k] == s[lo + k]);
    }
}

proof fn lemma_trim_start_end(s: Seq<char>) -> (r: (int, int))
    ensures
        0 <= r.0 <= r.1 <= s.len(),
        trim_seq(s) == s.subrange(r.0, r.1),
{
    let lo = lemma_trim_start(s);
    let t = trim_start_seq(s);
    let hi = lemma_trim_end(t);
    assert(t.subrange(0, hi) =~= s.subrange(lo, lo + hi));
    (lo, lo + hi)
}

proof fn lemma_trim_start(s: Seq<char>) -> (lo: int)
    ensures
        0 <= lo <= s.len(),
        trim_start_seq(s) == s.subrange(lo, s.len() as int),
    decreases s.len(),
{
    if s.len() > 0 && crate::text::is_white(s[0]) {
        let l = lemma_trim_start(s.drop_first());
        assert(s.drop_first().subrange(l, s.len() - 1) =~= s.subrange(l + 1, s.len() as int));
        l + 1
    } else {
        assert(s.subrange(0, s.len() as int) =~= s);
        0
    }
}

proof fn lemma_trim_end(s: Seq<char>) -> (hi: int)
    ensures
        0 <= hi <= s.len(),
        trim_end_seq(s) == s.subrange(0, hi),
    decreases s.len(),
{
    if s.len() > 0 && crate::text::is_white(s.last()) {
        let h = lemma_trim_end(s.drop_last());
        assert(s.drop_last().subrange(0, h) =~= s.subrange(0, h));
        h
    } else {
        assert(s.subrange(0, s.len() as int) =~= s);
        s.len() as int
    }
}

proof fn lemma_pieces_clean(text: Seq<char>)
    ensures
        forall|i: int, k: int|
            0 <= i < pieces(text).len() && 0 <= k < pieces(text)[i].len() ==> #[trigger] pieces(
                text,
            )[i][k] != ';' && pieces(text)[i][k] != '\r' && pieces(text)[i][k] != '\n',
    decreases text.len(),
{
    if text.len() > 0 {
        lemma_pieces_clean(text.drop_last());
        lemma_pieces_nonempty(text.drop_last());
        let p = pieces(text.drop_last());
        if !is_list_sep(text.last()) {
            let q = p.update(p.len() - 1, p.last().push(text.last()));
            assert forall|i: int, k: int| 0 <= i < q.len() && 0 <= k < q[i].len() implies #[trigger] q[i][k]
                != ';' && q[i][k] != '\r' && q[i][k] != '\n' by {
                if i == p.len() - 1 && k == p.last().len() {
                } else if i == p.len() - 1 {
                    assert(q[i][k] == p[i][k]);
                } else {
                    assert(q[i] == p[i]);
                }
            }
        } else {
            let q = p.push(Seq::<char>::empty());
            assert forall|i: int, k: int| 0 <= i < q.len() && 0 <= k < q[i].len() implies #[trigger] q[i][k]
                != ';' && q[i][k] != '\r' && q[i][k] != '\n' by {
                assert(q[i] == p[i]);
            }
        }
    }
}

proof fn lemma_candidates_clean(files: Seq<Option<Seq<u8>>>)
    ensures
        forall|i: int, k: int|
            0 <= i < candidates(files).len() && 0 <= k < candidates(files)[i].len()
                ==> #[trigger] candidates(files)[i][k] != ';' && candidates(files)[i][k] != '\r'
                && candidates(files)[i][k] != '\n',
    decreases files.len(),
{
    if files.len() > 0 {
        lemma_candidates_clean(files.drop_last());
        let c0 = candidates(files.drop_last());
        let more = match files.last() {
            Some(b) => trimmed_pieces(lossy_text(b)),
            None => Seq::empty(),
        };
        assert(candidates(files) == c0 + more);
        assert forall|i: int, k: int|
            0 <= i < candidates(files).len() && 0 <= k < candidates(files)[i].len() implies #[trigger] candidates(
            files,
        )[i][k] != ';' && candidates(files)[i][k] != '\r' && candidates(files)[i][k] != '\n' by {
            if i < c0.len() {
                assert(candidates(files)[i] == c0[i]);
            } else {
                let b = files.last()->0;
                let text = lossy_text(b);
                let j = i - c0.len();
                assert(candidates(files)[i] == more[j]);
                lemma_pieces_clean(text);
                let piece = pieces(text)[j];
                assert(more[j] == trim_seq(piece));
                let (lo, hi) = lemma_trim_start_end(piece);
                lemma_clean_subrange(piece, lo, hi);
                assert(more[j][k] == piece.subrange(lo, hi)[k]);
            }
        }
    }
}

proof fn lemma_first_by_key_from(names: Seq<Seq<char>>)
    ensures
        forall|i: int|
            0 <= i < first_by_key(names).len() ==> exists|j: int|
                0 <= j < names.len() && names[j] == #[trigger] first_by_key(names)[i],
    decreases names.len(),
{
    if names.len() > 0 {
        lemma_first_by_key_from(names.drop_last());
        let kept = first_by_key(names.drop_last());
        assert forall|i: int| 0 <= i < first_by_key(names).len() implies exists|j: int|
            0 <= j < names.len() && names[j] == #[trigger] first_by_key(names)[i] by {
            if i < kept.len() {
                assert(first_by_key(names)[i] == kept[i]);
                let j = choose|j: int| 0 <= j < names.len() - 1 && names.drop_last()[j] == kept[i];
                assert(names[j] == kept[i]);
            } else {
                assert(first_by_key(names)[i] == names[names.len() - 1]);
            }
        }
    }
}

/// **A listed name never holds a separator.** Every listfile is split at every `;`, carriage
/// return and line feed, so no name the listing returns contains one — whatever the listfiles hold.
pub proof fn law_listed_names_hold_no_separator(files: Seq<Option<Seq<u8>>>)
    ensures
        forall|i: int, k: int|
            0 <= i < listed_names(files).len() && 0 <= k < listed_names(files)[i].len()
                ==> #[trigger] listed_names(files)[i][k] != ';' && listed_names(files)[i][k] != '\r'
                && listed_names(files)[i][k] != '\n',
{
    let c = candidates(files);
    lemma_candidates_clean(files);
    lemma_first_by_key_from(c);
    assert forall|i: int, k: int|
        0 <= i < listed_names(files).len() && 0 <= k < listed_names(files)[i].len() implies #[trigger] listed_names(
        files,
    )[i][k] != ';' && listed_names(files)[i][k] != '\r' && listed_names(files)[i][k] != '\n' by {
        let j = choose|j: int| 0 <= j < c.len() && c[j] == first_by_key(c)[i];
        assert(c[j][k] == listed_names(files)[i][k]);
    }
}

} // verus!
