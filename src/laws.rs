//! Properties that relate several operations of the library.
use vstd::prelude::*;
use crate::cache::{char_range, same_artifact, total_memory, CacheManager, CacheableContent};
use crate::pages::{all_units, selection_ok, selects_all};
use crate::pdf::{contains_text, is_encoding_panic, occurs_at, panic_error};
use crate::text::trim;

verus! {

/// A blank specification and `all` select the same units: every one of them.
pub proof fn lemma_all_is_blank(total: nat, units: Seq<usize>)
    ensures
        selection_ok("all"@, total, units) <==> selection_ok(""@, total, units),
        selection_ok("all"@, total, units) <==> units == all_units(total),
{
    reveal_strlit("all");
    reveal_strlit("");
    assert(trim("all"@) == "all"@) by {
        let s = "all"@;
        assert(!crate::text::is_ws(s[0]));
        assert(crate::text::trim_start(s) == s);
        assert(!crate::text::is_ws(s.last()));
        assert(crate::text::trim_end(s) == s);
    }
    assert(selects_all("all"@));
    assert(trim(""@).len() == 0) by {
        assert(""@.len() == 0);
    }
    assert(selects_all(""@));
}

/// Extracting the character range `[0, total)` of a text gives the text.
pub proof fn lemma_full_range_round_trip(content: Seq<char>)
    ensures
        char_range(content, 0, content.len()) == content,
{
    if content.len() > 0 {
        assert(content.subrange(0, content.len() as int) =~= content);
    }
}

/// A range that starts at or past the end of a text is empty.
pub proof fn lemma_range_past_end_is_empty(content: Seq<char>, start: nat, end: nat)
    requires
        start >= content.len(),
    ensures
        char_range(content, start, end).len() == 0,
{
}

/// Once a document is stored for `path` while its file has modification
/// time `modified`, a later request for `path` with the file unchanged is a
/// cache hit that hands back the same content.
pub proof fn lemma_unchanged_file_hits<T: CacheableContent>(
    before: &CacheManager<T>,
    after: &CacheManager<T>,
    path: Seq<char>,
    modified: Option<u64>,
    content: &T,
)
    requires
        CacheManager::stores(before, after, path, modified, content),
    ensures
        after.hits(path, modified),
        same_artifact(&after.lookup(path)->0.content, content),
{
}

/// An empty cache holds no memory.
pub proof fn lemma_cleared_cache_is_empty<T: CacheableContent>(cache: &CacheManager<T>)
    requires
        cache.entries().len() == 0,
    ensures
        total_memory(cache.entries()) == 0,
{
}

/// The error that stands for a panic about an unsupported encoding says so.
pub proof fn lemma_encoding_panic_is_named(msg: Seq<char>)
    requires
        is_encoding_panic(msg),
    ensures
        contains_text(panic_error(msg), "encoding"@),
{
    reveal_strlit("PDF contains unsupported text encoding (");
    reveal_strlit("encoding");
    let e = panic_error(msg);
    let head = "PDF contains unsupported text encoding ("@;
    assert(e.subrange(30, 38) =~= "encoding"@) by {
        assert forall|i: int| 0 <= i < 8 implies e.subrange(30, 38)[i] == "encoding"@[i] by {
            assert(e[30 + i] == head[30 + i]);
        }
    }
    assert(occurs_at(e, "encoding"@, 30));
}

} // verus!
