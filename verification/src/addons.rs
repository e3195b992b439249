//! The rules behind `GET /addons/__index` and `GET /addons/{*path}` — the player's
//! `Interface\AddOns\` folder, served the way `/data` serves the patch chain.
//!
//! [`safe_relative`] is the whole path-safety story: it is the only thing between a request and the
//! filesystem. The index is one path per line, not JSON; a name containing a newline would break
//! that format, so [`index_line`] drops it.
use vstd::prelude::*;
use crate::text::{chars_of, string_of};

verus! {

/// `text` split at every `sep` (`str::split(sep)`): the pieces between separators, empty ones
/// included.
pub open spec fn split_at_char(text: Seq<char>, sep: char) -> Seq<Seq<char>>
    decreases text.len(),
{
    if text.len() == 0 {
        seq![Seq::empty()]
    } else {
        let p = split_at_char(text.drop_last(), sep);
        if text.last() == sep {
            p.push(Seq::empty())
        } else {
            p.update(p.len() - 1, p.last().push(text.last()))
        }
    }
}

pub proof fn lemma_split_nonempty(text: Seq<char>, sep: char)
    ensures
        split_at_char(text, sep).len() >= 1,
    decreases text.len(),
{
    if text.len() > 0 {
        lemma_split_nonempty(text.drop_last(), sep);
    }
}

/// No piece of a split holds the separator.
pub proof fn lemma_split_pieces_lack_sep(text: Seq<char>, sep: char)
    ensures
        forall|i: int|
            0 <= i < split_at_char(text, sep).len() ==> !(#[trigger] split_at_char(text, sep)[i]).contains(sep),
    decreases text.len(),
{
    lemma_split_nonempty(text, sep);
    if text.len() > 0 {
        let t = text.drop_last();
        lemma_split_pieces_lack_sep(t, sep);
        lemma_split_nonempty(t, sep);
        let p = split_at_char(t, sep);
        if text.last() != sep {
            let last = p.last().push(text.last());
            assert forall|k: int| 0 <= k < last.len() implies last[k] != sep by {
                if k < last.len() - 1 {
                    assert(last[k] == p.last()[k]);
                    assert(p.last() == p[p.len() - 1]);
                }
            }
        }
    }
}

/// Split a character sequence at every `sep`.
pub fn split_chars(text: &[char], sep: char) -> (out: Vec<Vec<char>>)
    ensures
        out@.map_values(|p: Vec<char>| p@) == split_at_char(text@, sep),
{
    let mut done: Vec<Vec<char>> = Vec::new();
    let mut cur: Vec<char> = Vec::new();
    let n = text.len();
    for i in 0..n
        invariant
            n == text@.len(),
            done@.map_values(|p: Vec<char>| p@).push(cur@) == split_at_char(text@.take(i as int), sep),
    {
        let c = text[i];
        proof {
            assert(text@.take(i + 1).drop_last() =~= text@.take(i as int));
            assert(text@.take(i + 1).last() == c);
            lemma_split_nonempty(text@.take(i as int), sep);
        }
        if c == sep {
            let ghost before = done@.map_values(|p: Vec<char>| p@);
            let finished = cur;
            cur = Vec::new();
            done.push(finished);
            assert(done@.map_values(|p: Vec<char>| p@) =~= before.push(finished@));
            assert(done@.map_values(|p: Vec<char>| p@).push(cur@) =~= split_at_char(
                text@.take(i + 1),
                sep,
            ));
        } else {
            cur.push(c);
            assert(done@.map_values(|p: Vec<char>| p@).push(cur@) =~= split_at_char(
                text@.take(i + 1),
                sep,
            ));
        }
    }
    assert(text@.take(n as int) =~= text@);
    done.push(cur);
    assert(done@.map_values(|p: Vec<char>| p@) =~= split_at_char(text@, sep));
    done
}

/// A path segment that may be joined under the addons root: not empty, not `.` or `..`, and free
/// of `\` (a separator on the host filesystem), `:` (a Windows drive or alternate stream) and NUL.
pub open spec fn is_plain_segment(seg: Seq<char>) -> bool {
    &&& seg.len() > 0
    &&& seg != seq!['.']
    &&& seg != seq!['.', '.']
    &&& !seg.contains('\\')
    &&& !seg.contains(':')
    &&& !seg.contains('\0')
}

/// Whether one segment is plain.
fn plain_segment(seg: &[char]) -> (r: bool)
    ensures
        r == is_plain_segment(seg@),
{
    let n = seg.len();
    if n == 0 {
        return false;
    }
    if n == 1 && seg[0] == '.' {
        assert(seg@ =~= seq!['.']);
        return false;
    }
    if n == 2 && seg[0] == '.' && seg[1] == '.' {
        assert(seg@ =~= seq!['.', '.']);
        return false;
    }
    for i in 0..n
        invariant
            n == seg@.len(),
            forall|j: int| 0 <= j < i ==> seg@[j] != '\\' && seg@[j] != ':' && seg@[j] != '\0',
    {
        let c = seg[i];
        if c == '\\' || c == ':' || c == '\0' {
            assert(seg@[i as int] == c);
            return false;
        }
    }
    assert(seg@ != seq!['.']) by {
        if seg@ == seq!['.'] {
            assert(seg@[0] == '.');
        }
    }
    assert(seg@ != seq!['.', '.']) by {
        if seg@ == seq!['.', '.'] {
            assert(seg@[0] == '.' && seg@[1] == '.');
        }
    }
    true
}

/// Reject anything that is not a plain relative path inside the addons folder. A path that passes
/// comes back as its `/`-separated segments, every one plain, so what is joined under the root
/// cannot leave it.
pub fn safe_relative(path: &str) -> (r: Option<Vec<String>>)
    ensures
        r is Some <==> forall|i: int|
            0 <= i < split_at_char(path@, '/').len() ==> is_plain_segment(
                #[trigger] split_at_char(path@, '/')[i],
            ),
        r matches Some(segs) ==> segs@.map_values(|s: String| s@) == split_at_char(path@, '/'),
{
    let parts = split_chars(chars_of(path).as_slice(), '/');
    let ghost want = split_at_char(path@, '/');
    let mut out: Vec<String> = Vec::new();
    let n = parts.len();
    for i in 0..n
        invariant
            n == parts@.len(),
            parts@.map_values(|p: Vec<char>| p@) == want,
            want == split_at_char(path@, '/'),
            out@.map_values(|s: String| s@) == want.take(i as int),
            forall|j: int| 0 <= j < i ==> is_plain_segment(#[trigger] want[j]),
    {
        assert(want[i as int] == parts@[i as int]@);
        if !plain_segment(parts[i].as_slice()) {
            return None;
        }
        let ghost before = out@.map_values(|s: String| s@);
        let seg = string_of(parts[i].as_slice());
        out.push(seg);
        assert(want.take(i + 1) =~= want.take(i as int).push(want[i as int]));
        assert(out@.map_values(|s: String| s@) =~= before.push(seg@));
    }
    assert(want.take(n as int) =~= want);
    Some(out)
}

/// **A safe path cannot leave the addons folder.** Every segment of a path that passes is a
/// plain name: non-empty, neither `.` nor `..`, and free of `/`, `\`, `:` and NUL — so joining
/// the segments under the folder stays inside it.
pub proof fn law_safe_segments_are_plain_names(path: Seq<char>)
    requires
        forall|i: int|
            0 <= i < split_at_char(path, '/').len() ==> is_plain_segment(
                #[trigger] split_at_char(path, '/')[i],
            ),
    ensures
        forall|i: int|
            0 <= i < split_at_char(path, '/').len() ==> {
                let seg = #[trigger] split_at_char(path, '/')[i];
                &&& seg.len() > 0
                &&& seg != seq!['.'] && seg != seq!['.', '.']
                &&& !seg.contains('/') && !seg.contains('\\') && !seg.contains(':') && !seg.contains('\0')
            },
{
    lemma_split_pieces_lack_sep(path, '/');
}

/// One index line: the relative path's components joined with `/`.
pub open spec fn joined_with_slash(parts: Seq<Seq<char>>) -> Seq<char>
    decreases parts.len(),
{
    if parts.len() == 0 {
        Seq::empty()
    } else if parts.len() == 1 {
        parts[0]
    } else {
        joined_with_slash(parts.drop_last()) + seq!['/'] + parts.last()
    }
}

/// The index line for a file whose path relative to the addons root has the components `parts`:
/// the components joined with `/`, or none when the result would hold a newline (the index is one
/// path per line, so such a name is left out rather than corrupting the list).
pub fn index_line(parts: &[String]) -> (r: Option<String>)
    ensures
        r is Some <==> !joined_with_slash(parts@.map_values(|s: String| s@)).contains('\n'),
        r matches Some(line) ==> line@ == joined_with_slash(parts@.map_values(|s: String| s@)),
{
    let ghost ps = parts@.map_values(|s: String| s@);
    let mut line: Vec<char> = Vec::new();
    let n = parts.len();
    for i in 0..n
        invariant
            n == parts@.len(),
            ps == parts@.map_values(|s: String| s@),
            line@ == joined_with_slash(ps.take(i as int)),
    {
        let part = chars_of(parts[i].as_str());
        let ghost before = line@;
        if i > 0 {
            line.push('/');
        }
        let m = part.len();
        for k in 0..m
            invariant
                m == part@.len(),
                line@ == if i > 0 {
                    before + seq!['/'] + part@.take(k as int)
                } else {
                    before + part@.take(k as int)
                },
        {
            line.push(part[k]);
            assert(part@.take(k + 1) =~= part@.take(k as int).push(part@[k as int]));
            if i > 0 {
                assert(before + seq!['/'] + part@.take(k + 1) =~= (before + seq!['/'] + part@.take(
                    k as int,
                )).push(part@[k as int]));
            } else {
                assert(before + part@.take(k + 1) =~= (before + part@.take(k as int)).push(
                    part@[k as int],
                ));
            }
        }
        proof {
            assert(part@.take(m as int) =~= part@);
            assert(ps.take(i + 1).drop_last() =~= ps.take(i as int));
            assert(ps.take(i + 1).last() == part@);
            if i == 0 {
                assert(joined_with_slash(ps.take(0)) =~= Seq::<char>::empty());
                assert(line@ =~= part@);
            }
        }
    }
    assert(ps.take(n as int) =~= ps);
    let nl = line.len();
    for k in 0..nl
        invariant
            nl == line@.len(),
            ps == parts@.map_values(|s: String| s@),
            line@ == joined_with_slash(ps),
            forall|j: int| 0 <= j < k ==> line@[j] != '\n',
    {
        if line[k] == '\n' {
            assert(line@[k as int] == '\n');
            assert(joined_with_slash(ps)[k as int] == '\n');
            assert(joined_with_slash(ps).contains('\n'));
            return None;
        }
    }
    assert(!joined_with_slash(ps).contains('\n')) by {
        if joined_with_slash(ps).contains('\n') {
            let j = choose|j: int| 0 <= j < line@.len() && line@[j] == '\n';
        }
    }
    Some(string_of(line.as_slice()))
}

} // verus!
