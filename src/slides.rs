//! Finding the slides of a presentation archive and putting them in order.
use vstd::prelude::*;
use crate::text::{chars_of, parse_usize, parse_usize_span};

verus! {

/// Whether `t` occurs in `s` at `i`.
pub open spec fn at(s: Seq<char>, t: Seq<char>, i: int) -> bool {
    0 <= i && i + t.len() <= s.len() && s.subrange(i, i + t.len()) == t
}

/// The position of the last occurrence of `t` in `s` that starts before
/// `n`, or -1.
pub open spec fn last_at_before(s: Seq<char>, t: Seq<char>, n: int) -> int
    decreases n,
{
    if n <= 0 {
        -1
    } else if at(s, t, n - 1) {
        n - 1
    } else {
        last_at_before(s, t, n - 1)
    }
}

/// The position of the last occurrence of `t` in `s`, or -1.
pub open spec fn last_at(s: Seq<char>, t: Seq<char>) -> int {
    last_at_before(s, t, s.len() as int)
}

/// The number of a slide part such as `ppt/slides/slide12.xml`: what stands
/// between the last `slide` and the last `.xml`, read as a number; 0 where
/// that is not a number.
pub open spec fn slide_number(name: Seq<char>) -> nat {
    let a = last_at(name, "slide"@);
    let b = last_at(name, ".xml"@);
    if a >= 0 && b >= 0 && a + 5 <= b {
        match parse_usize(name.subrange(a + 5, b)) {
            Some(n) => n,
            None => 0,
        }
    } else {
        0
    }
}

proof fn lemma_last_at_bounds(s: Seq<char>, t: Seq<char>, n: int)
    ensures
        -1 <= last_at_before(s, t, n),
        n >= 0 ==> last_at_before(s, t, n) < n,
        last_at_before(s, t, n) >= 0 ==> at(s, t, last_at_before(s, t, n)),
    decreases n,
{
    if n > 0 {
        lemma_last_at_bounds(s, t, n - 1);
    }
}

fn occurs(v: &[char], t: &[char], i: usize) -> (r: bool)
    requires
        i <= v@.len(),
    ensures
        r == at(v@, t@, i as int),
{
    if t.len() > v.len() - i {
        return false;
    }
    let n = v.len();
    let mut j: usize = 0;
    while j < t.len()
        invariant
            n == v@.len(),
            i + t@.len() <= v@.len(),
            j <= t@.len(),
            forall|k: int| 0 <= k < j ==> v@[i + k] == t@[k],
        decreases t@.len() - j,
    {
        if v[i + j] != t[j] {
            proof {
                assert(v@.subrange(i as int, i + t@.len())[j as int] == v@[i + j]);
            }
            return false;
        }
        j = j + 1;
    }
    proof {
        assert(v@.subrange(i as int, i + t@.len()) =~= t@);
    }
    true
}

fn find_last(v: &[char], t: &[char]) -> (r: Option<usize>)
    ensures
        match r {
            Some(i) => i as int == last_at(v@, t@) && i < v@.len(),
            None => last_at(v@, t@) == -1,
        },
{
    let mut n: usize = v.len();
    while n > 0
        invariant
            n <= v@.len(),
            last_at(v@, t@) == last_at_before(v@, t@, n as int),
        decreases n,
    {
        if occurs(v, t, n - 1) {
            return Some(n - 1);
        }
        n = n - 1;
    }
    None
}

/// The number of a slide part; see `slide_number`.
pub fn extract_slide_number(filename: &str) -> (r: usize)
    ensures
        r == slide_number(filename@),
{
    let v = chars_of(filename);
    let slide = chars_of("slide");
    let xml = chars_of(".xml");
    proof {
        reveal_strlit("slide");
        reveal_strlit(".xml");
    }
    match (find_last(v.as_slice(), slide.as_slice()), find_last(v.as_slice(), xml.as_slice())) {
        (Some(a), Some(b)) => {
            if a <= b && b - a >= 5 {
                match parse_usize_span(v.as_slice(), a + 5, b) {
                    Some(n) => n,
                    None => 0,
                }
            } else {
                0
            }
        },
        _ => 0,
    }
}

/// Whether an archive entry is a slide part: `ppt/slides/slide*.xml`.
pub open spec fn is_slide_part(name: Seq<char>) -> bool {
    name.len() >= 20 && name.take(16) == "ppt/slides/slide"@ && name.skip(name.len() - 4) == ".xml"@
}

/// Whether the archive entry `name` is a slide part.
pub fn is_slide_entry(name: &str) -> (r: bool)
    ensures
        r == is_slide_part(name@),
{
    let v = chars_of(name);
    let prefix = chars_of("ppt/slides/slide");
    let suffix = chars_of(".xml");
    proof {
        reveal_strlit("ppt/slides/slide");
        reveal_strlit(".xml");
    }
    if v.len() < 20 {
        return false;
    }
    let head = occurs(v.as_slice(), prefix.as_slice(), 0);
    let tail = occurs(v.as_slice(), suffix.as_slice(), v.len() - 4);
    proof {
        assert(v@.subrange(0, 16) =~= v@.take(16));
        assert(v@.subrange(v@.len() - 4, v@.len() as int) =~= v@.skip(v@.len() - 4));
    }
    head && tail
}

/// `x` inserted into `s` after every element whose number is not greater.
pub open spec fn insert_by_number(s: Seq<String>, x: String) -> Seq<String>
    decreases s.len(),
{
    if s.len() == 0 {
        seq![x]
    } else if slide_number(s.last()@) <= slide_number(x@) {
        s.push(x)
    } else {
        insert_by_number(s.drop_last(), x).push(s.last())
    }
}

/// The slide parts among `names`, in order of slide number; parts with the
/// same number keep the order of the archive.
pub open spec fn ordered_slides(names: Seq<String>) -> Seq<String>
    decreases names.len(),
{
    if names.len() == 0 {
        Seq::empty()
    } else if is_slide_part(names.last()@) {
        insert_by_number(ordered_slides(names.drop_last()), names.last())
    } else {
        ordered_slides(names.drop_last())
    }
}

proof fn lemma_insert_len(s: Seq<String>, x: String)
    ensures
        insert_by_number(s, x).len() == s.len() + 1,
    decreases s.len(),
{
    if s.len() > 0 && slide_number(s.last()@) > slide_number(x@) {
        lemma_insert_len(s.drop_last(), x);
    }
}

/// Inserts `x` into `v` after every element whose number is not greater.
fn insert_slide(v: &mut Vec<String>, keys: &mut Vec<usize>, x: String, key: usize)
    requires
        key == slide_number(x@),
        old(keys)@.len() == old(v)@.len(),
        forall|i: int| 0 <= i < old(v)@.len() ==> #[trigger] old(keys)@[i] == slide_number(old(v)@[i]@),
    ensures
        final(v)@ == insert_by_number(old(v)@, x),
        final(keys)@.len() == final(v)@.len(),
        forall|i: int| 0 <= i < final(v)@.len() ==> #[trigger] final(keys)@[i] == slide_number(final(v)@[i]@),
{
    let mut i: usize = v.len();
    let ghost s = v@;
    proof {
        assert(s.take(i as int) =~= s);
        assert(s.skip(i as int) =~= Seq::<String>::empty());
    }
    while i > 0 && keys[i - 1] > key
        invariant
            i <= s.len(),
            key == slide_number(x@),
            v@ == s,
            keys@.len() == s.len(),
            forall|k: int| 0 <= k < s.len() ==> #[trigger] keys@[k] == slide_number(s[k]@),
            insert_by_number(s, x) == insert_by_number(s.take(i as int), x) + s.skip(i as int),
        decreases i,
    {
        proof {
            let t = s.take(i as int);
            assert(t.drop_last() =~= s.take(i - 1));
            assert(t.last() == s[i - 1]);
            assert(keys@[i - 1] == slide_number(s[i - 1]@));
            assert(s.skip(i - 1) =~= seq![s[i - 1]] + s.skip(i as int));
            assert(insert_by_number(t, x) == insert_by_number(s.take(i - 1), x).push(s[i - 1]));
            assert(insert_by_number(s.take(i - 1), x).push(s[i - 1]) + s.skip(i as int)
                =~= insert_by_number(s.take(i - 1), x) + s.skip(i - 1));
        }
        i = i - 1;
    }
    proof {
        let t = s.take(i as int);
        if i > 0 {
            assert(t.last() == s[i - 1]);
            assert(insert_by_number(t, x) == t.push(x));
        } else {
            assert(t =~= Seq::<String>::empty());
        }
        assert(insert_by_number(t, x) =~= t.push(x));
        assert(s.insert(i as int, x) =~= t.push(x) + s.skip(i as int));
    }
    v.insert(i, x);
    let ghost ks = keys@;
    keys.insert(i, key);
    proof {
        assert forall|k: int| 0 <= k < v@.len() implies #[trigger] keys@[k] == slide_number(v@[k]@) by {
            if k < i {
                assert(keys@[k] == ks[k]);
                assert(v@[k] == s[k]);
            } else if k > i {
                assert(keys@[k] == ks[k - 1]);
                assert(v@[k] == s[k - 1]);
            }
        }
    }
}

/// The slide parts among the entry names of an archive, in slide order.
pub fn order_slide_entries(names: &Vec<String>) -> (r: Vec<String>)
    ensures
        r@ == ordered_slides(names@),
{
    let mut out: Vec<String> = Vec::new();
    let mut keys: Vec<usize> = Vec::new();
    let mut i: usize = 0;
    proof {
        assert(names@.take(0) =~= Seq::<String>::empty());
    }
    while i < names.len()
        invariant
            i <= names@.len(),
            out@ == ordered_slides(names@.take(i as int)),
            keys@.len() == out@.len(),
            forall|k: int| 0 <= k < out@.len() ==> #[trigger] keys@[k] == slide_number(out@[k]@),
        decreases names@.len() - i,
    {
        proof {
            assert(names@.take(i + 1).drop_last() =~= names@.take(i as int));
            assert(names@.take(i + 1).last() == names@[i as int]);
        }
        if is_slide_entry(names[i].as_str()) {
            let key = extract_slide_number(names[i].as_str());
            insert_slide(&mut out, &mut keys, names[i].clone(), key);
        }
        i = i + 1;
    }
    proof {
        assert(names@.take(names@.len() as int) =~= names@);
    }
    out
}

} // verus!
