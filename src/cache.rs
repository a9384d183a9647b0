//! A cache of parsed documents, keyed by the literal path string, with
//! staleness detection by modification time, and the slicing of cached
//! content by unit or by character range.
use vstd::prelude::*;
use vstd::layout::size_of;
use crate::char_index::{byte_len, offsets_ok, slice_chars};
use crate::text::{owned, push_str, str_eq};
use crate::paths::{debug_list, file_name, file_name_of, push_debug_list};

verus! {

/// What every cached document artifact offers: its unit count, its full
/// rendered text and the character offsets into that text.
pub trait CacheableContent: Sized {
    /// The number of pages, sheets or slides, if units can be addressed.
    spec fn spec_total_units(&self) -> Option<usize>;

    /// The full rendered text.
    spec fn spec_content(&self) -> Seq<char>;

    /// The byte offset of each character of the text, then its byte length.
    spec fn spec_char_indices(&self) -> Seq<usize>;

    fn total_units(&self) -> (r: Option<usize>)
        ensures
            r == self.spec_total_units(),
    ;

    fn full_content(&self) -> (r: &str)
        ensures
            r@ == self.spec_content(),
    ;

    fn char_indices(&self) -> (r: &[usize])
        ensures
            r@ == self.spec_char_indices(),
    ;

    /// A copy of the artifact, as handed out of the cache.
    fn duplicate(&self) -> (r: Self)
        ensures
            r.spec_total_units() == self.spec_total_units(),
            r.spec_content() == self.spec_content(),
            r.spec_char_indices() == self.spec_char_indices(),
    ;
}

/// Two artifacts agree on everything the cache speaks of.
pub open spec fn same_artifact<T: CacheableContent>(a: &T, b: &T) -> bool {
    &&& a.spec_total_units() == b.spec_total_units()
    &&& a.spec_content() == b.spec_content()
    &&& a.spec_char_indices() == b.spec_char_indices()
}

/// An artifact whose offsets match its text.
pub open spec fn artifact_ok<T: CacheableContent>(a: &T) -> bool {
    offsets_ok(a.spec_content(), a.spec_char_indices())
}

/// Whether an entry whose file had modification time `snapshot` when it was
/// cached is still usable when the file's time is now `current`: it is unless
/// both are known and the file is newer.
pub open spec fn still_valid(snapshot: Option<u64>, current: Option<u64>) -> bool {
    match (snapshot, current) {
        (Some(s), Some(c)) => c <= s,
        _ => true,
    }
}

/// One cached document. Modification times are nanoseconds since the Unix
/// epoch.
pub struct CacheEntry<T> {
    pub content: T,
    pub file_path: String,
    pub last_modified: Option<u64>,
}

impl<T: CacheableContent> CacheEntry<T> {
    /// An entry for `content`, extracted from `file_path` when that file had
    /// modification time `last_modified`.
    pub fn new(content: T, file_path: String, last_modified: Option<u64>) -> (r: Self)
        ensures
            r.content == content,
            r.file_path == file_path,
            r.last_modified == last_modified,
    {
        CacheEntry { content, file_path, last_modified }
    }

    /// Whether the entry may still be used when its file's modification time
    /// is now `current_modified` (`None` when it cannot be read).
    pub fn is_valid(&self, current_modified: Option<u64>) -> (r: bool)
        ensures
            r == still_valid(self.last_modified, current_modified),
    {
        match (self.last_modified, current_modified) {
            (Some(s), Some(c)) => c <= s,
            _ => true,
        }
    }
}

/// The position of the entry for `path` among `es`, or -1.
pub open spec fn index_of<T>(es: Seq<CacheEntry<T>>, path: Seq<char>) -> int
    decreases es.len(),
{
    if es.len() == 0 {
        -1
    } else if es.last().file_path@ == path {
        es.len() - 1
    } else {
        index_of(es.drop_last(), path)
    }
}

proof fn lemma_index_of_bounds<T>(es: Seq<CacheEntry<T>>, path: Seq<char>)
    ensures
        -1 <= index_of(es, path) < es.len(),
        index_of(es, path) >= 0 ==> es[index_of(es, path)].file_path@ == path,
        index_of(es, path) == -1 ==> forall|i: int|
            0 <= i < es.len() ==> (#[trigger] es[i]).file_path@ != path,
    decreases es.len(),
{
    if es.len() > 0 {
        lemma_index_of_bounds(es.drop_last(), path);
        if es.last().file_path@ != path {
            assert forall|i: int| 0 <= i < es.len() - 1 implies es[i] == es.drop_last()[i] by {}
        }
    }
}

proof fn lemma_index_of_update<T>(es: Seq<CacheEntry<T>>, i: int, e: CacheEntry<T>, q: Seq<char>)
    requires
        0 <= i < es.len(),
        es[i].file_path@ == e.file_path@,
    ensures
        index_of(es.update(i, e), q) == index_of(es, q),
    decreases es.len(),
{
    let u = es.update(i, e);
    if i == es.len() - 1 {
        assert(u.drop_last() =~= es.drop_last());
    } else {
        assert(u.drop_last() =~= es.drop_last().update(i, e));
        lemma_index_of_update(es.drop_last(), i, e, q);
    }
}

proof fn lemma_index_of_push<T>(es: Seq<CacheEntry<T>>, e: CacheEntry<T>, q: Seq<char>)
    requires
        e.file_path@ != q,
    ensures
        index_of(es.push(e), q) == index_of(es, q),
{
    assert(es.push(e).drop_last() =~= es);
}

/// The entries of `es` that are still valid under the current modification
/// times `cur`, given entry by entry.
pub open spec fn retained<T>(es: Seq<CacheEntry<T>>, cur: Seq<Option<u64>>) -> Seq<CacheEntry<T>>
    decreases es.len(),
{
    if es.len() == 0 || cur.len() != es.len() {
        Seq::empty()
    } else if still_valid(es.last().last_modified, cur.last()) {
        retained(es.drop_last(), cur.drop_last()).push(es.last())
    } else {
        retained(es.drop_last(), cur.drop_last())
    }
}

/// The estimated memory held by one artifact: its text's bytes and its
/// offsets, saturating at `usize::MAX`.
pub open spec fn artifact_memory<T: CacheableContent>(a: &T) -> nat {
    let m = byte_len(a.spec_content()) + a.spec_char_indices().len() * size_of::<usize>();
    if m > usize::MAX {
        usize::MAX as nat
    } else {
        m
    }
}

/// The estimated memory of all entries, saturating at `usize::MAX`.
pub open spec fn total_memory<T: CacheableContent>(es: Seq<CacheEntry<T>>) -> nat
    decreases es.len(),
{
    if es.len() == 0 {
        0
    } else {
        let m = total_memory(es.drop_last()) + artifact_memory(&es.last().content);
        if m > usize::MAX {
            usize::MAX as nat
        } else {
            m
        }
    }
}

/// The note that replaces unit-level extraction for formats that cannot
/// address units.
pub open spec fn whole_document_note(path: Seq<char>, units: Seq<usize>, content: Seq<char>) -> Seq<
    char,
> {
    "# "@ + file_name(path) + "\n\n## Content (Requested Units: "@ + debug_list(units) + ")\n\n"@
        + "*Note: Unit-specific extraction not available. Returning full document.*\n\n"@ + content
}

/// The characters `[start, end)` of `content`, with `end` clamped to its
/// length; empty when `start` is at or past the end.
pub open spec fn char_range(content: Seq<char>, start: nat, end: nat) -> Seq<char> {
    if start >= content.len() {
        Seq::empty()
    } else if end < content.len() {
        content.subrange(start as int, end as int)
    } else {
        content.subrange(start as int, content.len() as int)
    }
}

/// A cache of artifacts of one document type, one entry per path.
pub struct CacheManager<T> {
    entries: Vec<CacheEntry<T>>,
}

impl<T: CacheableContent> CacheManager<T> {
    /// The cached entries, in order of first insertion.
    pub closed spec fn entries(&self) -> Seq<CacheEntry<T>> {
        self.entries@
    }

    /// No two entries share a path.
    pub open spec fn wf(&self) -> bool {
        forall|i: int, j: int|
            0 <= i < j < self.entries().len() ==> (#[trigger] self.entries()[i]).file_path@
                != (#[trigger] self.entries()[j]).file_path@
    }

    /// The entry cached for `path`, if any.
    pub open spec fn lookup(&self, path: Seq<char>) -> Option<CacheEntry<T>> {
        let i = index_of(self.entries(), path);
        if i >= 0 {
            Some(self.entries()[i])
        } else {
            None
        }
    }

    /// Every cached artifact's offsets match its text.
    pub open spec fn all_ok(&self) -> bool {
        forall|i: int| 0 <= i < self.entries().len() ==> artifact_ok(&(#[trigger] self.entries()[i]).content)
    }

    /// Whether a request for `path`, whose file now has modification time
    /// `modified`, is answered from the cache.
    pub open spec fn hits(&self, path: Seq<char>, modified: Option<u64>) -> bool {
        self.lookup(path) is Some && still_valid(self.lookup(path)->0.last_modified, modified)
    }

    /// `after` is `before` with `content`, taken at time `modified`, stored
    /// for `path`: every other path keeps its entry.
    pub open spec fn stores(
        before: &Self,
        after: &Self,
        path: Seq<char>,
        modified: Option<u64>,
        content: &T,
    ) -> bool {
        &&& after.lookup(path) is Some
        &&& same_artifact(&after.lookup(path)->0.content, content)
        &&& after.lookup(path)->0.last_modified == modified
        &&& forall|q: Seq<char>| q != path ==> #[trigger] after.lookup(q) == before.lookup(q)
    }

    /// An empty cache.
    pub fn new() -> (r: Self)
        ensures
            r.wf(),
            r.entries().len() == 0,
    {
        CacheManager { entries: Vec::new() }
    }

    fn find(&self, path: &str) -> (r: Option<usize>)
        ensures
            match r {
                Some(i) => i as int == index_of(self.entries(), path@),
                None => index_of(self.entries(), path@) == -1,
            },
    {
        let mut i: usize = self.entries.len();
        proof {
            assert(self.entries@.take(i as int) =~= self.entries@);
        }
        while i > 0
            invariant
                i <= self.entries@.len(),
                index_of(self.entries@, path@) == index_of(self.entries@.take(i as int), path@),
            decreases i,
        {
            let ghost pre = self.entries@.take(i as int);
            proof {
                assert(pre.drop_last() =~= self.entries@.take(i - 1));
                assert(pre.last() == self.entries@[i - 1]);
            }
            if str_eq(self.entries[i - 1].file_path.as_str(), path) {
                return Some(i - 1);
            }
            i = i - 1;
        }
        proof {
            assert(self.entries@.take(0) =~= Seq::<CacheEntry<T>>::empty());
        }
        None
    }

    /// Stores `content`, extracted when the file had time `modified`, for
    /// `path`, replacing any entry for that path.
    fn store(&mut self, path: &str, modified: Option<u64>, content: T)
        requires
            old(self).wf(),
        ensures
            final(self).wf(),
            old(self).all_ok() && artifact_ok(&content) ==> final(self).all_ok(),
            Self::stores(old(self), final(self), path@, modified, &content),
    {
        let copy = content.duplicate();
        let entry = CacheEntry::new(copy, owned(path), modified);
        proof {
            lemma_index_of_bounds(self.entries@, path@);
        }
        match self.find(path) {
            Some(i) => {
                let ghost before = self.entries@;
                self.entries.set(i, entry);
                proof {
                    assert(self.entries@ == before.update(i as int, entry));
                    assert forall|q: Seq<char>| #[trigger] index_of(self.entries@, q) == index_of(
                        before,
                        q,
                    ) by {
                        lemma_index_of_update(before, i as int, entry, q);
                    }
                    assert(index_of(self.entries@, path@) == i);
                    assert(self.entries@[i as int] == entry);
                    assert(self.lookup(path@) == Some(entry));
                    assert forall|q: Seq<char>| q != path@ implies #[trigger] self.lookup(q)
                        == old(self).lookup(q) by {
                        lemma_index_of_bounds(before, q);
                        let j = index_of(before, q);
                        if j >= 0 {
                            assert(j != i);
                            assert(self.entries@[j] == before[j]);
                        }
                    }
                    if old(self).all_ok() && artifact_ok(&content) {
                        assert forall|a: int| 0 <= a < self.entries@.len() implies artifact_ok(
                            &(#[trigger] self.entries@[a]).content,
                        ) by {
                            if a != i {
                                assert(self.entries@[a] == before[a]);
                            }
                        }
                    }
                    assert forall|a: int, b: int|
                        0 <= a < b < self.entries@.len() implies (#[trigger] self.entries@[a]).file_path@
                        != (#[trigger] self.entries@[b]).file_path@ by {
                        assert(before[a].file_path@ != before[b].file_path@);
                    }
                }
            },
            None => {
                let ghost before = self.entries@;
                self.entries.push(entry);
                proof {
                    assert(self.entries@ == before.push(entry));
                    assert(self.entries@.drop_last() =~= before);
                    assert(index_of(self.entries@, path@) == before.len());
                    assert(self.lookup(path@) == Some(entry));
                    assert forall|q: Seq<char>| q != path@ implies #[trigger] self.lookup(q)
                        == old(self).lookup(q) by {
                        lemma_index_of_bounds(before, q);
                        let j = index_of(before, q);
                        if j >= 0 {
                            assert(self.entries@[j] == before[j]);
                        }
                    }
                    if old(self).all_ok() && artifact_ok(&content) {
                        assert forall|a: int| 0 <= a < self.entries@.len() implies artifact_ok(
                            &(#[trigger] self.entries@[a]).content,
                        ) by {
                            if a < before.len() {
                                assert(self.entries@[a] == before[a]);
                            }
                        }
                    }
                    assert forall|q: Seq<char>| q != path@ implies #[trigger] index_of(
                        self.entries@,
                        q,
                    ) == index_of(before, q) by {
                        lemma_index_of_push(before, entry, q);
                    }
                    assert forall|a: int, b: int|
                        0 <= a < b < self.entries@.len() implies (#[trigger] self.entries@[a]).file_path@
                        != (#[trigger] self.entries@[b]).file_path@ by {
                        if b == before.len() {
                            assert(self.entries@[a] == before[a]);
                        } else {
                            assert(before[a].file_path@ != before[b].file_path@);
                        }
                    }
                }
            },
        }
    }

    /// Answers from the cache when it holds a valid entry for `file_path`;
    /// otherwise runs `extractor` on the path and, on success, caches what it
    /// returned together with `modified`, the file's modification time read
    /// by the caller just before the call (`None` when it cannot be read).
    pub fn get_or_cache<F>(&mut self, file_path: &str, modified: Option<u64>, extractor: F) -> (r:
        Result<T, String>) where F: FnOnce(&str) -> Result<T, String>
        requires
            old(self).wf(),
            call_requires(extractor, (file_path,)),
        ensures
            final(self).wf(),
            old(self).all_ok() && old(self).hits(file_path@, modified) ==> artifact_ok(&r->Ok_0),
            old(self).all_ok() && (r is Ok ==> artifact_ok(&r->Ok_0)) ==> final(self).all_ok(),
            old(self).hits(file_path@, modified) ==> r is Ok && same_artifact(
                &r->Ok_0,
                &old(self).lookup(file_path@)->0.content,
            ) && final(self).entries() == old(self).entries(),
            !old(self).hits(file_path@, modified) ==> call_ensures(extractor, (file_path,), r),
            !old(self).hits(file_path@, modified) && r is Err ==> final(self).entries() == old(
                self,
            ).entries(),
            !old(self).hits(file_path@, modified) && r is Ok ==> Self::stores(
                old(self),
                final(self),
                file_path@,
                modified,
                &r->Ok_0,
            ),
    {
        proof {
            lemma_index_of_bounds(self.entries@, file_path@);
        }
        match self.find(file_path) {
            Some(i) => {
                if self.entries[i].is_valid(modified) {
                    let out = self.entries[i].content.duplicate();
                    proof {
                        if old(self).all_ok() {
                            assert(artifact_ok(&self.entries@[i as int].content));
                        }
                    }
                    return Ok(out);
                }
            },
            None => {},
        }
        match extractor(file_path) {
            Ok(content) => {
                let copy = content.duplicate();
                self.store(file_path, modified, copy);
                Ok(content)
            },
            Err(e) => Err(e),
        }
    }

    /// Empties the cache.
    pub fn clear(&mut self)
        ensures
            final(self).wf(),
            final(self).all_ok(),
            final(self).entries().len() == 0,
    {
        self.entries = Vec::new();
    }

    /// The paths of the cached entries, in order.
    pub fn cached_paths(&self) -> (r: Vec<String>)
        ensures
            r@.len() == self.entries().len(),
            forall|i: int| 0 <= i < r@.len() ==> #[trigger] r@[i]@ == self.entries()[i].file_path@,
    {
        let mut out: Vec<String> = Vec::new();
        let mut i: usize = 0;
        while i < self.entries.len()
            invariant
                i <= self.entries@.len(),
                out@.len() == i,
                forall|k: int| 0 <= k < i ==> #[trigger] out@[k]@ == self.entries@[k].file_path@,
            decreases self.entries@.len() - i,
        {
            out.push(self.entries[i].file_path.clone());
            i = i + 1;
        }
        out
    }

    /// Drops the entries that are no longer valid. `current_modified[i]` is
    /// the current modification time of the file of the `i`-th cached path
    /// (see `cached_paths`), or `None` when it cannot be read.
    pub fn cleanup(&mut self, current_modified: &[Option<u64>])
        requires
            old(self).wf(),
            current_modified@.len() == old(self).entries().len(),
        ensures
            final(self).wf(),
            old(self).all_ok() ==> final(self).all_ok(),
            final(self).entries() == retained(old(self).entries(), current_modified@),
    {
        let ghost es = self.entries@;
        let ghost cur = current_modified@;
        let n = current_modified.len();
        let mut i: usize = 0;
        let mut j: usize = 0;
        proof {
            assert(es.take(0) =~= Seq::<CacheEntry<T>>::empty());
            assert(self.entries@ =~= retained(es.take(0), cur.take(0)) + es.skip(0));
        }
        while j < n
            invariant
                n == es.len() == cur.len(),
                cur == current_modified@,
                j <= n,
                i <= j,
                i == retained(es.take(j as int), cur.take(j as int)).len(),
                self.entries@ == retained(es.take(j as int), cur.take(j as int)) + es.skip(j as int),
            decreases n - j,
        {
            let ghost kept = retained(es.take(j as int), cur.take(j as int));
            proof {
                assert(es.take(j + 1).drop_last() =~= es.take(j as int));
                assert(cur.take(j + 1).drop_last() =~= cur.take(j as int));
                assert(self.entries@[i as int] == es[j as int]);
            }
            if self.entries[i].is_valid(current_modified[j]) {
                proof {
                    assert(self.entries@ =~= kept.push(es[j as int]) + es.skip(j + 1));
                }
                i = i + 1;
            } else {
                self.entries.remove(i);
                proof {
                    assert(self.entries@ =~= kept + es.skip(j + 1));
                }
            }
            j = j + 1;
        }
        proof {
            assert(es.take(n as int) =~= es);
            assert(cur.take(n as int) =~= cur);
            assert(es.skip(n as int) =~= Seq::<CacheEntry<T>>::empty());
            assert(self.entries@ =~= retained(es, cur));
            lemma_retained_unique(es, cur);
            lemma_retained_members(es, cur);
            if old(self).all_ok() {
                assert forall|a: int| 0 <= a < self.entries@.len() implies artifact_ok(
                    &(#[trigger] self.entries@[a]).content,
                ) by {
                    let k = choose|k: int| 0 <= k < es.len() && retained(es, cur)[a] == es[k];
                    assert(artifact_ok(&es[k].content));
                }
            }
        }
    }

    /// The number of cached documents and the estimated memory they hold.
    pub fn get_stats(&self) -> (r: (usize, usize))
        ensures
            r.0 == self.entries().len(),
            r.1 == total_memory(self.entries()),
    {
        let mut total: usize = 0;
        let mut i: usize = 0;
        while i < self.entries.len()
            invariant
                i <= self.entries@.len(),
                total == total_memory(self.entries@.take(i as int)),
            decreases self.entries@.len() - i,
        {
            proof {
                assert(self.entries@.take(i + 1).drop_last() =~= self.entries@.take(i as int));
            }
            let m = memory_usage(&self.entries[i].content);
            total = total.saturating_add(m);
            i = i + 1;
        }
        proof {
            assert(self.entries@.take(self.entries@.len() as int) =~= self.entries@);
        }
        (self.entries.len(), total)
    }

    /// The requested units of a cached document. Where the format addresses
    /// units, `extractor` re-derives them from the file; where it does not,
    /// the whole cached text is returned with a note, never an error.
    pub fn extract_units<F>(
        &self,
        cached_content: &T,
        unit_numbers: &[usize],
        file_path: &str,
        extractor: F,
    ) -> (r: Result<String, String>) where F: FnOnce(&str, &[usize]) -> Result<String, String>
        requires
            call_requires(extractor, (file_path, unit_numbers)),
        ensures
            cached_content.spec_total_units() is Some ==> call_ensures(
                extractor,
                (file_path, unit_numbers),
                r,
            ),
            cached_content.spec_total_units() is None ==> r is Ok && r->Ok_0@
                == whole_document_note(file_path@, unit_numbers@, cached_content.spec_content()),
    {
        match cached_content.total_units() {
            Some(_) => extractor(file_path, unit_numbers),
            None => {
                let mut result = String::new();
                push_str(&mut result, "# ");
                let name = file_name_of(file_path);
                push_str(&mut result, name.as_str());
                push_str(&mut result, "\n\n## Content (Requested Units: ");
                push_debug_list(&mut result, unit_numbers);
                push_str(&mut result, ")\n\n");
                push_str(
                    &mut result,
                    "*Note: Unit-specific extraction not available. Returning full document.*\n\n",
                );
                push_str(&mut result, cached_content.full_content());
                Ok(result)
            },
        }
    }

    /// The characters `[start_char, end_char)` of a cached document's text,
    /// `end_char` clamped to its length, cut out through the precomputed
    /// offsets; empty when `start_char` is at or past the end.
    pub fn extract_char_range(&self, cached_content: &T, start_char: usize, end_char: usize) -> (r:
        Result<String, String>)
        requires
            artifact_ok(cached_content),
            start_char < cached_content.spec_content().len() ==> start_char <= end_char,
        ensures
            r is Ok,
            r->Ok_0@ == char_range(
                cached_content.spec_content(),
                start_char as nat,
                end_char as nat,
            ),
            start_char < cached_content.spec_content().len() ==> byte_len(r->Ok_0@)
                == cached_content.spec_char_indices()[if end_char
                < cached_content.spec_content().len() {
                end_char as int
            } else {
                cached_content.spec_content().len() as int
            }] - cached_content.spec_char_indices()[start_char as int],
    {
        extract_char_range(cached_content, start_char, end_char)
    }
}

/// The characters `[start_char, end_char)` of an artifact's text; see
/// `CacheManager::extract_char_range`.
pub fn extract_char_range<T: CacheableContent>(cached_content: &T, start_char: usize, end_char: usize) -> (r:
    Result<String, String>)
    requires
        artifact_ok(cached_content),
        start_char < cached_content.spec_content().len() ==> start_char <= end_char,
    ensures
        r is Ok,
        r->Ok_0@ == char_range(cached_content.spec_content(), start_char as nat, end_char as nat),
        start_char < cached_content.spec_content().len() ==> byte_len(r->Ok_0@)
            == cached_content.spec_char_indices()[if end_char < cached_content.spec_content().len() {
            end_char as int
        } else {
            cached_content.spec_content().len() as int
        }] - cached_content.spec_char_indices()[start_char as int],
{
    let indices = cached_content.char_indices();
    let total_chars = if indices.len() > 0 { indices.len() - 1 } else { 0 };
    if start_char >= total_chars {
        return Ok(String::new());
    }
    let actual_end = if end_char < total_chars { end_char } else { total_chars };
    Ok(slice_chars(cached_content.full_content(), indices, start_char, actual_end))
}

/// The estimated memory held by an artifact; see `artifact_memory`.
pub fn memory_usage<T: CacheableContent>(content: &T) -> (r: usize)
    ensures
        r == artifact_memory(content),
{
    let bytes = content.full_content().as_bytes().len();
    let n = content.char_indices().len();
    let w = core::mem::size_of::<usize>();
    proof {
        assert(bytes == byte_len(content.spec_content()));
    }
    let m = n.checked_mul(w);
    match m {
        Some(x) => bytes.saturating_add(x),
        None => {
            proof {
                assert(n * w <= bytes + n * w) by (nonlinear_arith);
            }
            usize::MAX
        },
    }
}

proof fn lemma_retained_members<T>(es: Seq<CacheEntry<T>>, cur: Seq<Option<u64>>)
    requires
        cur.len() == es.len(),
    ensures
        forall|a: int|
            0 <= a < retained(es, cur).len() ==> exists|k: int|
                0 <= k < es.len() && #[trigger] retained(es, cur)[a] == es[k],
    decreases es.len(),
{
    if es.len() > 0 {
        lemma_retained_members(es.drop_last(), cur.drop_last());
        let r0 = retained(es.drop_last(), cur.drop_last());
        assert forall|a: int| 0 <= a < retained(es, cur).len() implies exists|k: int|
            0 <= k < es.len() && #[trigger] retained(es, cur)[a] == es[k] by {
            if a < r0.len() {
                let k = choose|k: int| 0 <= k < es.len() - 1 && r0[a] == es.drop_last()[k];
                assert(retained(es, cur)[a] == es[k]);
            } else {
                assert(retained(es, cur)[a] == es[es.len() - 1]);
            }
        }
    }
}

proof fn lemma_retained_unique<T>(es: Seq<CacheEntry<T>>, cur: Seq<Option<u64>>)
    requires
        cur.len() == es.len(),
        forall|i: int, j: int|
            0 <= i < j < es.len() ==> (#[trigger] es[i]).file_path@ != (#[trigger] es[j]).file_path@,
    ensures
        forall|i: int, j: int|
            0 <= i < j < retained(es, cur).len() ==> (#[trigger] retained(es, cur)[i]).file_path@
                != (#[trigger] retained(es, cur)[j]).file_path@,
    decreases es.len(),
{
    if es.len() > 0 {
        let d = es.drop_last();
        assert forall|i: int, j: int| 0 <= i < j < d.len() implies (#[trigger] d[i]).file_path@
            != (#[trigger] d[j]).file_path@ by {
            assert(d[i] == es[i] && d[j] == es[j]);
        }
        lemma_retained_unique(d, cur.drop_last());
        lemma_retained_members(d, cur.drop_last());
        let r0 = retained(d, cur.drop_last());
        let r = retained(es, cur);
        assert forall|i: int, j: int| 0 <= i < j < r.len() implies (#[trigger] r[i]).file_path@
            != (#[trigger] r[j]).file_path@ by {
            if j >= r0.len() {
                assert(r[i] == r0[i]);
                let k = choose|k: int| 0 <= k < d.len() && r0[i] == d[k];
                assert(d[k] == es[k]);
                assert(r[j] == es[es.len() - 1]);
            } else {
                assert(r[i] == r0[i] && r[j] == r0[j]);
            }
        }
    }
}

} // verus!
