//! The browser build's chain. There is no filesystem to mount archives from: the chain is the web
//! host's `/data` base URL, and every read is a request to it. This module holds the chain's
//! state and the decisions around each request; the requests themselves are made by the caller,
//! which hands each answer back.
//!
//! - **The name index** (`/data/__index`), fetched once, answers "present" on its own. Its silence
//!   is not an answer: a listfile may be incomplete, and a file it omits still reads by hash.
//! - **Names the index does not list** are verified against the host once and remembered — but
//!   only a 404 is an answer about the file. A transport failure records nothing, so an outage
//!   never marks present files missing for the rest of the session.
//! - **Bytes already read** are kept in a [`ReadCache`]: a second read of a name makes no request.
//!   Safe for a session because `/data/*` is served immutable.
use vstd::prelude::*;
use vstd::hash_set::StringHashSet;
use vstd::hash_map::StringHashMap;
use crate::chain::{index_key, index_key_of, ChainEntry, ChainError};
use crate::read_cache::{ReadCache, CachedRead, has_key, key_position, touch, after_put, valid_contents, READ_CACHE_ENTRY_MAX, law_get_after_put};
use crate::data::{names_from_json, json_name_list};

verus! {

/// The index's answer for `key`: the index was read and lists it.
pub open spec fn listed_in(index: Option<Option<Set<Seq<char>>>>, key: Seq<char>) -> bool {
    index matches Some(Some(keys)) && keys.contains(key)
}

/// The index keys of a list of names.
pub open spec fn keys_of(names: Seq<Seq<char>>) -> Set<Seq<char>> {
    Set::new(|k: Seq<char>| exists|i: int| 0 <= i < names.len() && index_key_of(names[i]) == k)
}

/// The index once a fetch has answered: its keys when the bytes are a JSON list of names, and
/// "no working index" when the fetch failed or the bytes are something else.
pub open spec fn index_from(fetched: Option<Seq<u8>>) -> Option<Set<Seq<char>>> {
    match fetched {
        None => None,
        Some(b) => match json_name_list(b) {
            None => None,
            Some(names) => Some(keys_of(names)),
        },
    }
}

/// How a read of a name proceeds.
#[derive(Clone, Copy, PartialEq, Eq, Debug, Structural)]
pub enum ReadRoute {
    /// Already read this session: answered from memory, no request.
    Cache,
    /// The host already said it has no such file: refused, no request.
    Refuse,
    /// Ask the host; `listed` says whether the index vouches for the name.
    Ask { listed: bool },
}

/// The route a read of `key` takes.
pub open spec fn read_route(
    index: Option<Option<Set<Seq<char>>>>,
    verified: Map<Seq<char>, bool>,
    recent: Seq<CachedRead>,
    key: Seq<char>,
) -> ReadRoute {
    if has_key(recent, key) {
        ReadRoute::Cache
    } else if !listed_in(index, key) && verified.contains_key(key) && !verified[key] {
        ReadRoute::Refuse
    } else {
        ReadRoute::Ask { listed: listed_in(index, key) }
    }
}

/// What the host answered to a request.
pub enum FetchOutcome {
    /// The file's bytes.
    Got(Vec<u8>),
    /// A 404: the host has no such file.
    NotFound,
    /// The request failed for another reason, described.
    Failed(String),
}

/// What the verified map holds after a request for an unlisted or listed name was answered: a
/// request for a name the index did not list is its verification, but only an answer about the
/// file — bytes or a 404 — is remembered.
pub open spec fn verified_after(
    verified: Map<Seq<char>, bool>,
    key: Seq<char>,
    listed: bool,
    outcome: FetchOutcome,
) -> Map<Seq<char>, bool> {
    if listed {
        verified
    } else {
        match outcome {
            FetchOutcome::Got(_) => verified.insert(key, true),
            FetchOutcome::NotFound => verified.insert(key, false),
            FetchOutcome::Failed(_) => verified,
        }
    }
}

/// What one read of a name produced, before the caller sees it.
pub enum ReadStep {
    /// The bytes, from memory.
    Cached(Vec<u8>),
    /// The host already said there is no such file.
    Refused(ChainError),
    /// A request is needed: fetch the name and hand the answer to [`WebChain::read_finish`],
    /// with this `listed`.
    Fetch { listed: bool },
}

/// The web chain's state between requests.
pub struct WebChain {
    /// Not fetched yet (`None`); fetched, and no working index (`Some(None)`); or the keys of
    /// every listed name.
    index: Option<Option<StringHashSet>>,
    /// Names the index does not list, and what the host said about them.
    verified: StringHashMap<bool>,
    /// Bytes already read this session.
    recent: ReadCache,
}

impl WebChain {
    /// The index as the contracts see it.
    pub closed spec fn index_view(&self) -> Option<Option<Set<Seq<char>>>> {
        match self.index {
            None => None,
            Some(None) => Some(None),
            Some(Some(keys)) => Some(Some(keys@)),
        }
    }

    /// What the host said about names the index does not list.
    pub closed spec fn verified_view(&self) -> Map<Seq<char>, bool> {
        self.verified@
    }

    /// The bytes already read, least recently used first.
    pub closed spec fn recent_view(&self) -> Seq<CachedRead> {
        self.recent@
    }

    /// The read cache is consistent.
    pub closed spec fn wf(&self) -> bool {
        self.recent.wf()
    }

    /// A consistent chain's read cache holds valid contents: each key once, within budget.
    pub proof fn lemma_wf_recent_valid(&self)
        requires
            self.wf(),
        ensures
            valid_contents(self.recent_view()),
    {
        self.recent.lemma_wf_valid();
    }

    /// A chain against a web host, with nothing fetched yet.
    pub fn new() -> (c: Self)
        ensures
            c.wf(),
            c.index_view() is None,
            c.verified_view() == Map::<Seq<char>, bool>::empty(),
            c.recent_view() == Seq::<CachedRead>::empty(),
    {
        WebChain { index: None, verified: StringHashMap::new(), recent: ReadCache::new() }
    }

    /// Whether the name index has yet to be fetched: the first ask that consults it fetches
    /// `/data/__index` and hands the answer to [`Self::install_index`].
    pub fn needs_index(&self) -> (r: bool)
        ensures
            r == (self.index_view() is None),
    {
        self.index.is_none()
    }

    /// Install the answer to the index fetch (`None` when the fetch failed). Once installed, the
    /// index never changes: a second answer is ignored.
    pub fn install_index(&mut self, fetched: Option<&[u8]>)
        requires
            old(self).wf(),
        ensures
            final(self).wf(),
            final(self).index_view() == (if old(self).index_view() is None {
                Some(
                    index_from(
                        match fetched {
                            Some(b) => Some(b@),
                            None => None,
                        },
                    ),
                )
            } else {
                old(self).index_view()
            }),
            final(self).verified_view() == old(self).verified_view(),
            final(self).recent_view() == old(self).recent_view(),
    {
        if self.index.is_some() {
            return;
        }
        let bytes = match fetched {
            None => {
                self.index = Some(None);
                return;
            },
            Some(b) => b,
        };
        match names_from_json(bytes) {
            Err(_) => {
                self.index = Some(None);
            },
            Ok(names) => {
                let ghost ns = names@.map_values(|s: String| s@);
                let mut keys = StringHashSet::new();
                let n = names.len();
                for i in 0..n
                    invariant
                        n == names@.len(),
                        ns == names@.map_values(|s: String| s@),
                        keys@ == keys_of(ns.take(i as int)),
                {
                    let k = index_key(names[i].as_str());
                    keys.insert(k);
                    assert(keys@ =~= keys_of(ns.take(i + 1))) by {
                        assert forall|q: Seq<char>| keys_of(ns.take(i + 1)).contains(q) implies #[trigger] keys@.contains(q) by {
                            let j = choose|j: int| 0 <= j < i + 1 && index_key_of(#[trigger] ns.take(i + 1)[j]) == q;
                            if j < i {
                                assert(ns.take(i as int)[j] == ns.take(i + 1)[j]);
                            } else {
                                assert(ns.take(i + 1)[j] == names@[i as int]@);
                            }
                        }
                        assert forall|q: Seq<char>| keys@.contains(q) implies #[trigger] keys_of(ns.take(i + 1)).contains(q) by {
                            if q != index_key_of(names@[i as int]@) {
                                let j = choose|j: int| 0 <= j < i && index_key_of(#[trigger] ns.take(i as int)[j]) == q;
                                assert(ns.take(i + 1)[j] == ns.take(i as int)[j]);
                            } else {
                                assert(ns.take(i + 1)[i as int] == names@[i as int]@);
                            }
                        }
                    }
                }
                assert(ns.take(n as int) =~= ns);
                self.index = Some(Some(keys));
            },
        }
    }

    /// Whether the index lists `key`.
    fn listed(&self, key: &str) -> (r: bool)
        ensures
            r == listed_in(self.index_view(), key@),
    {
        match &self.index {
            Some(Some(keys)) => keys.contains(key),
            _ => false,
        }
    }

    /// Whether the web host has `name`, if that is known without a request: the index answers
    /// "present" on its own, and a name it does not list is answered by what the host said about
    /// it before. `None` means ask the host, and hand the answer to [`Self::contains_answered`].
    pub fn contains_known(&self, name: &str) -> (r: Option<bool>)
        ensures
            r == (if listed_in(self.index_view(), index_key_of(name@)) {
                Some(true)
            } else if self.verified_view().contains_key(index_key_of(name@)) {
                Some(self.verified_view()[index_key_of(name@)])
            } else {
                None
            }),
    {
        let key = index_key(name);
        if self.listed(key.as_str()) {
            return Some(true);
        }
        match self.verified.get(key.as_str()) {
            Some(known) => Some(*known),
            None => None,
        }
    }

    /// The host's answer about `name` (`None` when the request could not be sent at all): the
    /// answer is remembered, and a request that never went out answers "no" for this call and
    /// remembers nothing.
    pub fn contains_answered(&mut self, name: &str, answer: Option<bool>) -> (present: bool)
        requires
            old(self).wf(),
        ensures
            final(self).wf(),
            present == (answer == Some(true)),
            final(self).verified_view() == (match answer {
                Some(p) => old(self).verified_view().insert(index_key_of(name@), p),
                None => old(self).verified_view(),
            }),
            final(self).index_view() == old(self).index_view(),
            final(self).recent_view() == old(self).recent_view(),
    {
        match answer {
            None => false,
            Some(p) => {
                self.verified.insert(index_key(name), p);
                p
            },
        }
    }

    /// Start a read of `name`: from memory when it was read this session, refused when the host
    /// already said it has no such file, and otherwise a request to make.
    pub fn read_start(&mut self, name: &str) -> (step: ReadStep)
        requires
            old(self).wf(),
        ensures
            final(self).wf(),
            final(self).index_view() == old(self).index_view(),
            final(self).verified_view() == old(self).verified_view(),
            final(self).recent_view() == touch(old(self).recent_view(), index_key_of(name@)),
            (match read_route(
                old(self).index_view(),
                old(self).verified_view(),
                old(self).recent_view(),
                index_key_of(name@),
            ) {
                ReadRoute::Cache => step matches ReadStep::Cached(b) && b@ == old(self).recent_view()[key_position(
                    old(self).recent_view(),
                    index_key_of(name@),
                )].1,
                ReadRoute::Refuse => step matches ReadStep::Refused(ChainError::NotInChain { name: n }) && n@ == name@,
                ReadRoute::Ask { listed } => step matches ReadStep::Fetch { listed: l } && l == listed,
            }),
    {
        let key = index_key(name);
        match self.recent.get(key.as_str()) {
            Some(hit) => {
                return ReadStep::Cached(hit);
            },
            None => {},
        }
        let listed = self.listed(key.as_str());
        if !listed {
            match self.verified.get(key.as_str()) {
                Some(known) => {
                    if !*known {
                        return ReadStep::Refused(ChainError::NotInChain { name: name.to_owned() });
                    }
                },
                None => {},
            }
        }
        ReadStep::Fetch { listed }
    }

    /// Finish a read of `name` with the host's answer. A request for a name the index did not
    /// list is that name's verification, but only an answer about the file — bytes or a 404 — is
    /// remembered; bytes are kept for the session.
    pub fn read_finish(&mut self, name: &str, listed: bool, outcome: FetchOutcome) -> (r: Result<
        Vec<u8>,
        ChainError,
    >)
        requires
            old(self).wf(),
        ensures
            final(self).wf(),
            final(self).index_view() == old(self).index_view(),
            final(self).verified_view() == verified_after(
                old(self).verified_view(),
                index_key_of(name@),
                listed,
                outcome,
            ),
            final(self).recent_view() == (match outcome {
                FetchOutcome::Got(b) => after_put(old(self).recent_view(), index_key_of(name@), b@),
                _ => old(self).recent_view(),
            }),
            (match outcome {
                FetchOutcome::Got(b) => r matches Ok(got) && got@ == b@,
                FetchOutcome::NotFound => r matches Err(ChainError::NotInChain { name: n }) && n@
                    == name@,
                FetchOutcome::Failed(e) => r matches Err(ChainError::Fetch { name: n, cause: c })
                    && n@ == name@ && c@ == e@,
            }),
    {
        let key = index_key(name);
        match outcome {
            FetchOutcome::Got(bytes) => {
                if !listed {
                    self.verified.insert(key.clone(), true);
                }
                self.recent.put(key, bytes.as_slice());
                Ok(bytes)
            },
            FetchOutcome::NotFound => {
                if !listed {
                    self.verified.insert(key, false);
                }
                Err(ChainError::NotInChain { name: name.to_owned() })
            },
            FetchOutcome::Failed(e) => Err(ChainError::Fetch { name: name.to_owned(), cause: e }),
        }
    }

    /// How many names the index does not list have been verified against the host — the cost of
    /// the fallback, as a number.
    pub fn misses(&self) -> (n: usize)
        ensures
            n == self.verified_view().len(),
    {
        self.verified.len()
    }

    /// Whether a read of `name` is worth a request at all: not when the index was read and does
    /// not list it. This lets a caller that must not block run the request itself.
    pub fn may_fetch(&self, name: &str) -> (r: bool)
        ensures
            r == !(self.index_view() matches Some(Some(keys)) && !keys.contains(index_key_of(name@))),
    {
        let key = index_key(name);
        match &self.index {
            Some(Some(keys)) => keys.contains(key.as_str()),
            _ => true,
        }
    }
}

/// Whether the count of verified misses is worth a log line: only at powers of ten up to ten
/// thousand — the question is the order of magnitude, and a line per miss would itself be the cost
/// it measures.
pub fn miss_report_due(n: usize) -> (due: bool)
    ensures
        due == (n == 1 || n == 10 || n == 100 || n == 1000 || n == 10000),
{
    n == 1 || n == 10 || n == 100 || n == 1000 || n == 10000
}

/// The chain's listing from the index route: every name, with size 0 (sizes are not part of that
/// route). `fetched` is the fetch's bytes, or what went wrong with it.
pub fn list_from_index(fetched: Result<Vec<u8>, String>) -> (r: Result<Vec<ChainEntry>, ChainError>)
    ensures
        (match fetched {
            Err(e) => r matches Err(ChainError::Index { cause: c }) && c@ == e@,
            Ok(b) => match json_name_list(b@) {
                None => r matches Err(ChainError::IndexParse),
                Some(names) => r matches Ok(es) && es@.len() == names.len() && forall|i: int|
                    0 <= i < names.len() ==> (#[trigger] es@[i]).name@ == names[i] && es@[i].size == 0,
            },
        }),
{
    let bytes = match fetched {
        Err(e) => {
            return Err(ChainError::Index { cause: e });
        },
        Ok(b) => b,
    };
    match names_from_json(bytes.as_slice()) {
        Err(_) => Err(ChainError::IndexParse),
        Ok(names) => {
            let ghost ns = names@.map_values(|s: String| s@);
            let mut out: Vec<ChainEntry> = Vec::new();
            let n = names.len();
            for i in 0..n
                invariant
                    n == names@.len(),
                    ns == names@.map_values(|s: String| s@),
                    out@.len() == i,
                    forall|j: int| 0 <= j < i ==> (#[trigger] out@[j]).name@ == ns[j] && out@[j].size == 0,
            {
                out.push(ChainEntry { name: names[i].clone(), size: 0 });
            }
            Ok(out)
        },
    }
}

/// **A name the host answered 404 for is never asked again.** Once a read of a name the index
/// does not list came back "not found", the next read of it is refused without a request (unless
/// its bytes are somehow held).
pub proof fn law_not_found_is_refused(
    index: Option<Option<Set<Seq<char>>>>,
    verified: Map<Seq<char>, bool>,
    recent: Seq<CachedRead>,
    key: Seq<char>,
)
    requires
        !listed_in(index, key),
        !has_key(recent, key),
    ensures
        read_route(index, verified_after(verified, key, false, FetchOutcome::NotFound), recent, key)
            == ReadRoute::Refuse,
{
}

/// **A transport failure is not an answer about the file.** A request that failed for any reason
/// but a 404 leaves what is known about names exactly as it was.
pub proof fn law_failure_records_nothing(
    verified: Map<Seq<char>, bool>,
    key: Seq<char>,
    listed: bool,
    e: String,
)
    ensures
        verified_after(verified, key, listed, FetchOutcome::Failed(e)) == verified,
{
}

/// **A read is served from memory the second time.** Once a read of a name got bytes no larger
/// than the cache's entry ceiling, the next read of that name makes no request and answers the
/// same bytes.
pub proof fn law_second_read_is_cached(recent: Seq<CachedRead>, key: Seq<char>, bytes: Seq<u8>)
    requires
        valid_contents(recent),
        bytes.len() <= READ_CACHE_ENTRY_MAX,
    ensures
        has_key(after_put(recent, key, bytes), key),
        after_put(recent, key, bytes)[key_position(after_put(recent, key, bytes), key)].1 == bytes,
{
    law_get_after_put(recent, key, bytes);
}

/// **A chain serves a name from memory the second time.** Once a read of a name on a consistent
/// chain has stored bytes no larger than the cache's entry ceiling, a read of the same index key
/// routes to memory — whatever the index and the verified names say — and answers those bytes.
pub proof fn law_chain_second_read_is_cached(c: WebChain, key: Seq<char>, bytes: Seq<u8>)
    requires
        c.wf(),
        bytes.len() <= READ_CACHE_ENTRY_MAX,
    ensures
        forall|index: Option<Option<Set<Seq<char>>>>, verified: Map<Seq<char>, bool>|
            #[trigger] read_route(index, verified, after_put(c.recent_view(), key, bytes), key)
                == ReadRoute::Cache,
        after_put(c.recent_view(), key, bytes)[key_position(
            after_put(c.recent_view(), key, bytes),
            key,
        )].1 == bytes,
{
    c.lemma_wf_recent_valid();
    law_second_read_is_cached(c.recent_view(), key, bytes);
}

/// **The index vouches on its own.** A name the index lists is present without a request, and a
/// read of it asks the host as a listed name — never refused.
pub proof fn law_listed_is_never_refused(
    index: Option<Option<Set<Seq<char>>>>,
    verified: Map<Seq<char>, bool>,
    recent: Seq<CachedRead>,
    key: Seq<char>,
)
    requires
        listed_in(index, key),
    ensures
        read_route(index, verified, recent, key) != ReadRoute::Refuse,
{
}

/// **A name the host answered present for is never refused.** Whatever the index, the other
/// verified names and the recent reads, once the host has said a name exists a read of it is
/// served from memory or asked for — never refused without a request.
pub proof fn law_present_is_never_refused(
    index: Option<Option<Set<Seq<char>>>>,
    verified: Map<Seq<char>, bool>,
    recent: Seq<CachedRead>,
    key: Seq<char>,
    got: Vec<u8>,
)
    ensures
        read_route(index, verified.insert(key, true), recent, key) != ReadRoute::Refuse,
        read_route(index, verified_after(verified, key, false, FetchOutcome::Got(got)), recent, key)
            != ReadRoute::Refuse,
{
    assert(verified.insert(key, true)[key]);
}

} // verus!
