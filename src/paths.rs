//! File names, extensions and the small markdown headers built from them.
use vstd::prelude::*;
use crate::text::{
    chars_of, decimal, owned, push_decimal, push_str, span_string, split, split_spans,
};

verus! {

/// Whether `c` is a path component that names something: not empty, not `.`.
pub open spec fn is_named_component(c: Seq<char>) -> bool {
    c.len() > 0 && c != seq!['.']
}

/// The index of the last named component among `parts`, or -1.
pub open spec fn last_named(parts: Seq<Seq<char>>) -> int
    decreases parts.len(),
{
    if parts.len() == 0 {
        -1
    } else if is_named_component(parts.last()) {
        parts.len() - 1
    } else {
        last_named(parts.drop_last())
    }
}

/// The final component of a `/`-separated path, as `Path::file_name` gives
/// it; where the path has none (it is empty, `/`, or ends in `..`), the whole
/// path stands for it.
pub open spec fn file_name(path: Seq<char>) -> Seq<char> {
    let parts = split(path, '/');
    let k = last_named(parts);
    if k >= 0 && parts[k] != seq!['.', '.'] {
        parts[k]
    } else {
        path
    }
}

proof fn lemma_last_named_bounds(parts: Seq<Seq<char>>)
    ensures
        -1 <= last_named(parts) < parts.len(),
    decreases parts.len(),
{
    if parts.len() > 0 {
        lemma_last_named_bounds(parts.drop_last());
    }
}

fn is_dot_dot(v: &[char], lo: usize, hi: usize) -> (r: bool)
    requires
        lo <= hi <= v@.len(),
    ensures
        r == (v@.subrange(lo as int, hi as int) == seq!['.', '.']),
{
    let r = hi - lo == 2 && v[lo] == '.' && v[lo + 1] == '.';
    proof {
        if hi - lo == 2 && v@[lo as int] == '.' && v@[lo + 1] == '.' {
            assert(v@.subrange(lo as int, hi as int) =~= seq!['.', '.']);
        }
        let c = v@.subrange(lo as int, hi as int);
        assert(c.len() == hi - lo);
        if hi - lo == 2 {
            assert(c[0] == v@[lo as int]);
            assert(c[1] == v@[lo + 1]);
        }
        if c == seq!['.', '.'] {
            assert(seq!['.', '.'].len() == 2);
        }
    }
    r
}

fn is_named(v: &[char], lo: usize, hi: usize) -> (r: bool)
    requires
        lo <= hi <= v@.len(),
    ensures
        r == is_named_component(v@.subrange(lo as int, hi as int)),
{
    let r = hi > lo && !(hi - lo == 1 && v[lo] == '.');
    proof {
        let c = v@.subrange(lo as int, hi as int);
        if hi - lo == 1 && v@[lo as int] == '.' {
            assert(c =~= seq!['.']);
        }
        assert(c.len() == hi - lo);
        if hi - lo == 1 {
            assert(c[0] == v@[lo as int]);
        }
        if c == seq!['.'] {
            assert(seq!['.'].len() == 1);
        }
    }
    r
}

/// The file name of `path`; see `file_name`.
pub fn file_name_of(path: &str) -> (r: String)
    ensures
        r@ == file_name(path@),
{
    let v = chars_of(path);
    let spans = split_spans(v.as_slice(), 0, v.len(), '/');
    let ghost parts = split(path@, '/');
    proof {
        assert(v@.subrange(0, v@.len() as int) =~= path@);
    }
    let mut k: usize = spans.len();
    proof {
        assert(parts.take(k as int) =~= parts);
    }
    while k > 0
        invariant
            k <= spans@.len() == parts.len(),
            parts == split(path@, '/'),
            v@ == path@,
            forall|j: int|
                0 <= j < spans@.len() ==> 0 <= #[trigger] spans@[j].start <= spans@[j].end <= v@.len()
                    && v@.subrange(spans@[j].start as int, spans@[j].end as int) == parts[j],
            last_named(parts) == last_named(parts.take(k as int)),
        decreases k,
    {
        proof {
            assert(parts.take(k as int).drop_last() =~= parts.take(k - 1));
            assert(parts.take(k as int).last() == parts[k - 1]);
        }
        if is_named(v.as_slice(), spans[k - 1].start, spans[k - 1].end) {
            if is_dot_dot(v.as_slice(), spans[k - 1].start, spans[k - 1].end) {
                return owned(path);
            }
            return span_string(v.as_slice(), spans[k - 1].start, spans[k - 1].end);
        }
        k = k - 1;
    }
    proof {
        assert(parts.take(0) =~= Seq::<Seq<char>>::empty());
    }
    owned(path)
}

/// The elements of `s`, separated by `", "`.
pub open spec fn list_body(s: Seq<usize>) -> Seq<char>
    decreases s.len(),
{
    if s.len() == 0 {
        Seq::empty()
    } else if s.len() == 1 {
        decimal(s[0] as nat)
    } else {
        list_body(s.drop_last()) + ", "@ + decimal(s.last() as nat)
    }
}

/// `s` as `{:?}` prints a list of integers: `[1, 3, 5]`.
pub open spec fn debug_list(s: Seq<usize>) -> Seq<char> {
    "["@ + list_body(s) + "]"@
}

/// Appends `debug_list(units@)` to `out`.
pub fn push_debug_list(out: &mut String, units: &[usize])
    ensures
        final(out)@ == old(out)@ + debug_list(units@),
{
    push_str(out, "[");
    let ghost start = out@;
    let mut i: usize = 0;
    while i < units.len()
        invariant
            i <= units@.len(),
            out@ == start + list_body(units@.take(i as int)),
        decreases units@.len() - i,
    {
        proof {
            assert(units@.take(i + 1).drop_last() =~= units@.take(i as int));
            assert(units@.take(i + 1).last() == units@[i as int]);
        }
        if i > 0 {
            push_str(out, ", ");
        }
        push_decimal(out, units[i]);
        proof {
            if i == 0 {
                assert(units@.take(0) =~= Seq::<usize>::empty());
                assert(out@ =~= start + list_body(units@.take(1)));
            } else {
                assert(out@ =~= start + list_body(units@.take(i + 1)));
            }
        }
        i = i + 1;
    }
    proof {
        assert(units@.take(units@.len() as int) =~= units@);
    }
    push_str(out, "]");
    proof {
        assert(old(out)@ + "["@ + list_body(units@) + "]"@ =~= old(out)@ + debug_list(units@));
    }
}

/// The markdown title line of a document: `# <file name>` and a blank line.
pub open spec fn file_header(path: Seq<char>) -> Seq<char> {
    "# "@ + file_name(path) + "\n\n"@
}

/// The title line for the file at `resolved_path`.
pub fn generate_file_header(resolved_path: &str) -> (r: String)
    ensures
        r@ == file_header(resolved_path@),
{
    let mut s = String::new();
    push_str(&mut s, "# ");
    let name = file_name_of(resolved_path);
    push_str(&mut s, name.as_str());
    push_str(&mut s, "\n\n");
    proof {
        assert(Seq::<char>::empty() + "# "@ + file_name(resolved_path@) + "\n\n"@ =~= file_header(
            resolved_path@,
        ));
    }
    s
}

/// The header line of one chunk of a streamed document.
pub open spec fn chunk_header(chunk_num: nat, start: nat, end: nat, unit: Seq<char>) -> Seq<char> {
    "## "@ + unit + " "@ + decimal(chunk_num) + " (chars "@ + decimal(start) + "-"@ + decimal(end)
        + ")\n\n"@
}

/// `## <unit> <n> (chars <start>-<end>)` and a blank line.
pub fn generate_chunk_header(chunk_num: usize, start_pos: usize, end_pos: usize, unit: &str) -> (r:
    String)
    ensures
        r@ == chunk_header(chunk_num as nat, start_pos as nat, end_pos as nat, unit@),
{
    let mut s = String::new();
    push_str(&mut s, "## ");
    push_str(&mut s, unit);
    push_str(&mut s, " ");
    push_decimal(&mut s, chunk_num);
    push_str(&mut s, " (chars ");
    push_decimal(&mut s, start_pos);
    push_str(&mut s, "-");
    push_decimal(&mut s, end_pos);
    push_str(&mut s, ")\n\n");
    proof {
        assert(s@ =~= chunk_header(chunk_num as nat, start_pos as nat, end_pos as nat, unit@));
    }
    s
}

/// `rel` joined onto the directory `dir`, as `Path::join` joins a relative
/// path.
pub open spec fn joined(dir: Seq<char>, rel: Seq<char>) -> Seq<char> {
    if dir.len() == 0 {
        rel
    } else if dir.last() == '/' {
        dir + rel
    } else {
        dir + "/"@ + rel
    }
}

/// Where a path given by a caller is looked up: absolute paths as they are
/// (refused when a project root is configured), relative ones under the
/// project root when one is configured, else under the current directory.
pub open spec fn resolution(
    path: Seq<char>,
    project_root: Option<Seq<char>>,
    root_exists: bool,
    current_dir: Result<Seq<char>, Seq<char>>,
) -> Result<Seq<char>, Seq<char>> {
    if path.len() > 0 && path[0] == '/' {
        if project_root is Some {
            Err("Absolute paths are not allowed when PROJECT_ROOT is configured for security reasons"@)
        } else {
            Ok(path)
        }
    } else {
        match project_root {
            Some(root) => if root_exists {
                Ok(joined(root, path))
            } else {
                Err("PROJECT_ROOT directory does not exist: "@ + root)
            },
            None => match current_dir {
                Ok(d) => Ok(joined(d, path)),
                Err(e) => Err("Failed to get current directory: "@ + e),
            },
        }
    }
}

fn join_path(dir: &str, rel: &str) -> (r: String)
    ensures
        r@ == joined(dir@, rel@),
{
    let v = chars_of(dir);
    let mut out = String::new();
    if v.len() == 0 {
        push_str(&mut out, rel);
    } else if v[v.len() - 1] == '/' {
        push_str(&mut out, dir);
        push_str(&mut out, rel);
    } else {
        push_str(&mut out, dir);
        push_str(&mut out, "/");
        push_str(&mut out, rel);
    }
    proof {
        assert(out@ =~= joined(dir@, rel@));
    }
    out
}

/// Resolves the path a caller gave. `project_root` is the configured project
/// root, if any, `root_exists` whether that directory exists, and
/// `current_dir` the process's current directory, all read by the caller.
pub fn resolve_file_path_string(
    file_path: &str,
    project_root: Option<&str>,
    root_exists: bool,
    current_dir: Result<String, String>,
) -> (r: Result<String, String>)
    ensures
        match resolution(
            file_path@,
            match project_root {
                Some(p) => Some(p@),
                None => None,
            },
            root_exists,
            match current_dir {
                Ok(d) => Ok(d@),
                Err(e) => Err(e@),
            },
        ) {
            Ok(p) => r is Ok && r->Ok_0@ == p,
            Err(e) => r is Err && r->Err_0@ == e,
        },
{
    let v = chars_of(file_path);
    if v.len() > 0 && v[0] == '/' {
        if project_root.is_some() {
            return Err(
                owned(
                    "Absolute paths are not allowed when PROJECT_ROOT is configured for security reasons",
                ),
            );
        }
        return Ok(owned(file_path));
    }
    match project_root {
        Some(root) => {
            if root_exists {
                Ok(join_path(root, file_path))
            } else {
                let mut m = String::new();
                push_str(&mut m, "PROJECT_ROOT directory does not exist: ");
                push_str(&mut m, root);
                Err(m)
            }
        },
        None => match current_dir {
            Ok(d) => Ok(join_path(d.as_str(), file_path)),
            Err(e) => {
                let mut m = String::new();
                push_str(&mut m, "Failed to get current directory: ");
                push_str(&mut m, e.as_str());
                Err(m)
            },
        },
    }
}

} // verus!
