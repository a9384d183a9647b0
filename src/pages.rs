//! Page selection: turns a specification such as `"1,3,5-7"` or `"all"` into
//! the sorted list of distinct 1-based unit numbers it names.
use vstd::prelude::*;
use crate::text::{
    chars_of, decimal, parse_usize, parse_usize_span, push_decimal, push_str, split, split_spans,
    owned, span_string, trim, trim_bounds,
};

verus! {

/// Whether `s` is strictly increasing, hence sorted and free of duplicates.
pub open spec fn strictly_increasing(s: Seq<usize>) -> bool {
    forall|i: int, j: int| 0 <= i < j < s.len() ==> s[i] < s[j]
}

/// Whether `t` is the word `all` in any mix of upper and lower case.
pub open spec fn is_all_word(t: Seq<char>) -> bool {
    t.len() == 3 && (t[0] == 'a' || t[0] == 'A') && (t[1] == 'l' || t[1] == 'L') && (t[2] == 'l'
        || t[2] == 'L')
}

/// Whether a specification selects every unit: blank, or `all`.
pub open spec fn selects_all(spec: Seq<char>) -> bool {
    trim(spec).len() == 0 || is_all_word(trim(spec))
}

/// `[1, 2, ..., total]`.
pub open spec fn all_units(total: nat) -> Seq<usize> {
    Seq::new(total, |i: int| (i + 1) as usize)
}

pub open spec fn msg_invalid_number(s: Seq<char>) -> Seq<char> {
    "Invalid page number: "@ + s
}

pub open spec fn msg_exceeds(page: nat, total: nat) -> Seq<char> {
    "Page "@ + decimal(page) + " exceeds total pages ("@ + decimal(total) + ")"@
}

/// What one comma-separated part selects, as an inclusive range, or why it is
/// rejected.
pub open spec fn part_outcome(raw: Seq<char>, total: nat) -> Result<(nat, nat), Seq<char>> {
    let p = trim(raw);
    if p.contains('-') {
        let rp = split(p, '-');
        if rp.len() != 2 {
            Err("Invalid range format: "@ + p)
        } else {
            match parse_usize(trim(rp[0])) {
                None => Err(msg_invalid_number(rp[0])),
                Some(a) => match parse_usize(trim(rp[1])) {
                    None => Err(msg_invalid_number(rp[1])),
                    Some(b) => if a == 0 || b == 0 {
                        Err("Page numbers must start from 1"@)
                    } else if a > b {
                        Err("Invalid range: "@ + decimal(a) + " > "@ + decimal(b))
                    } else if b > total {
                        Err(msg_exceeds(b, total))
                    } else {
                        Ok((a, b))
                    },
                },
            }
        }
    } else {
        match parse_usize(p) {
            None => Err(msg_invalid_number(p)),
            Some(n) => if n == 0 {
                Err("Page numbers must start from 1"@)
            } else if n > total {
                Err(msg_exceeds(n, total))
            } else {
                Ok((n, n))
            },
        }
    }
}

/// The message of the first rejected part, if any.
pub open spec fn first_error(parts: Seq<Seq<char>>, total: nat) -> Option<Seq<char>>
    decreases parts.len(),
{
    if parts.len() == 0 {
        None
    } else {
        match first_error(parts.drop_last(), total) {
            Some(m) => Some(m),
            None => match part_outcome(parts.last(), total) {
                Err(m) => Some(m),
                Ok(_) => None,
            },
        }
    }
}

/// Whether some part selects unit `x`.
pub open spec fn covers(parts: Seq<Seq<char>>, total: nat, x: nat) -> bool {
    exists|k: int|
        0 <= k < parts.len() && (#[trigger] part_outcome(parts[k], total)) is Ok
            && part_outcome(parts[k], total)->Ok_0.0 <= x <= part_outcome(parts[k], total)->Ok_0.1
}

/// The parts of a specification that names units one by one.
pub open spec fn spec_parts(spec: Seq<char>) -> Seq<Seq<char>> {
    split(spec, ',')
}

proof fn lemma_first_error_extends(parts: Seq<Seq<char>>, k: int, total: nat)
    requires
        0 <= k <= parts.len(),
        first_error(parts.take(k), total) is Some,
    ensures
        first_error(parts, total) == first_error(parts.take(k), total),
    decreases parts.len() - k,
{
    if k < parts.len() {
        let t = parts.drop_last();
        assert(t.take(k) =~= parts.take(k));
        lemma_first_error_extends(t, k, total);
    } else {
        assert(parts.take(k) =~= parts);
    }
}

/// Inserts `x` into a strictly increasing vector, keeping it so.
fn insert_sorted(v: &mut Vec<usize>, x: usize)
    requires
        strictly_increasing(old(v)@),
    ensures
        strictly_increasing(final(v)@),
        forall|y: usize| final(v)@.contains(y) <==> (old(v)@.contains(y) || y == x),
{
    let mut i: usize = 0;
    while i < v.len() && v[i] < x
        invariant
            i <= v@.len(),
            v@ == old(v)@,
            forall|k: int| 0 <= k < i ==> v@[k] < x,
        decreases v@.len() - i,
    {
        i = i + 1;
    }
    if i < v.len() && v[i] == x {
        proof {
            assert(v@[i as int] == x);
        }
        return;
    }
    let ghost before = v@;
    v.insert(i, x);
    proof {
        assert(before == old(v)@);
        assert forall|y: usize| v@.contains(y) <==> (before.contains(y) || y == x) by {
            if v@.contains(y) {
                let k = choose|k: int| 0 <= k < v@.len() && v@[k] == y;
                if k < i {
                    assert(before[k] == y);
                } else if k > i {
                    assert(before[k - 1] == y);
                }
            }
            if before.contains(y) {
                let k = choose|k: int| 0 <= k < before.len() && before[k] == y;
                if k < i {
                    assert(v@[k] == y);
                } else {
                    assert(v@[k + 1] == y);
                }
            }
            if y == x {
                assert(v@[i as int] == x);
            }
        }
        assert(forall|y: usize| v@.contains(y) <==> (old(v)@.contains(y) || y == x));
        assert(strictly_increasing(v@));
    }
}

/// Inserts unit `p` of `[1, total]` into a strictly increasing vector of such
/// units.
fn insert_unit(acc: &mut Vec<usize>, p: usize, total: usize)
    requires
        1 <= p <= total,
        strictly_increasing(old(acc)@),
        forall|i: int| 0 <= i < old(acc)@.len() ==> 1 <= #[trigger] old(acc)@[i] <= total,
    ensures
        strictly_increasing(final(acc)@),
        forall|i: int| 0 <= i < final(acc)@.len() ==> 1 <= #[trigger] final(acc)@[i] <= total,
        forall|x: usize| final(acc)@.contains(x) <==> (old(acc)@.contains(x) || x == p),
{
    let ghost before = acc@;
    insert_sorted(acc, p);
    proof {
        assert forall|i: int| 0 <= i < acc@.len() implies 1 <= #[trigger] acc@[i] <= total by {
            assert(acc@.contains(acc@[i]));
            if acc@[i] != p {
                assert(before.contains(acc@[i]));
                let j = choose|j: int| 0 <= j < before.len() && before[j] == acc@[i];
                assert(1 <= before[j] <= total);
            }
        }
    }
}

/// Adds `lo..=hi` to a strictly increasing vector of units in `[1, total]`.
fn insert_range(acc: &mut Vec<usize>, lo: usize, hi: usize, total: usize)
    requires
        1 <= lo <= hi <= total,
        strictly_increasing(old(acc)@),
        forall|i: int| 0 <= i < old(acc)@.len() ==> 1 <= #[trigger] old(acc)@[i] <= total,
    ensures
        strictly_increasing(final(acc)@),
        forall|i: int| 0 <= i < final(acc)@.len() ==> 1 <= #[trigger] final(acc)@[i] <= total,
        forall|x: usize| final(acc)@.contains(x) <==> (old(acc)@.contains(x) || (lo <= x <= hi)),
{
    let ghost start = acc@;
    let mut p: usize = lo;
    while p < hi
        invariant
            1 <= lo <= p <= hi <= total,
            strictly_increasing(acc@),
            forall|i: int| 0 <= i < acc@.len() ==> 1 <= #[trigger] acc@[i] <= total,
            forall|x: usize| acc@.contains(x) <==> (start.contains(x) || (lo <= x < p)),
            start == old(acc)@,
        decreases hi - p,
    {
        insert_unit(acc, p, total);
        p = p + 1;
    }
    insert_unit(acc, hi, total);
}

/// Checks one part `v[lo..hi]` of a specification against `total`.
fn check_part(v: &[char], lo: usize, hi: usize, total: usize) -> (r: Result<(usize, usize), String>)
    requires
        lo <= hi <= v@.len(),
    ensures
        match part_outcome(v@.subrange(lo as int, hi as int), total as nat) {
            Ok((a, b)) => r == Ok::<(usize, usize), String>((a as usize, b as usize)),
            Err(m) => r is Err && r->Err_0@ == m,
        },
{
    let (a, b) = trim_bounds(v, lo, hi);
    let ghost p = v@.subrange(a as int, b as int);
    let mut has_dash = false;
    let mut i: usize = a;
    while i < b
        invariant
            a <= i <= b <= v@.len(),
            p == v@.subrange(a as int, b as int),
            has_dash <==> exists|k: int| a <= k < i && v@[k] == '-',
        decreases b - i,
    {
        if v[i] == '-' {
            has_dash = true;
        }
        i = i + 1;
    }
    proof {
        if has_dash {
            let k = choose|k: int| a <= k < b && v@[k] == '-';
            assert(p[k - a] == '-');
        } else {
            assert forall|k: int| 0 <= k < p.len() implies p[k] != '-' by {
                assert(p[k] == v@[a + k]);
            }
        }
    }
    if has_dash {
        let spans = split_spans(v, a, b, '-');
        if spans.len() != 2 {
            let mut m = String::new();
            push_str(&mut m, "Invalid range format: ");
            let ps = span_string(v, a, b);
            push_str(&mut m, ps.as_str());
            return Err(m);
        }
        let (s0, e0) = trim_bounds(v, spans[0].start, spans[0].end);
        let start = parse_usize_span(v, s0, e0);
        let (s1, e1) = trim_bounds(v, spans[1].start, spans[1].end);
        let end = parse_usize_span(v, s1, e1);
        match start {
            None => {
                let mut m = String::new();
                push_str(&mut m, "Invalid page number: ");
                let ps = span_string(v, spans[0].start, spans[0].end);
                push_str(&mut m, ps.as_str());
                Err(m)
            },
            Some(x) => match end {
                None => {
                    let mut m = String::new();
                    push_str(&mut m, "Invalid page number: ");
                    let ps = span_string(v, spans[1].start, spans[1].end);
                    push_str(&mut m, ps.as_str());
                    Err(m)
                },
                Some(y) => {
                    if x == 0 || y == 0 {
                        Err(owned("Page numbers must start from 1"))
                    } else if x > y {
                        let mut m = String::new();
                        push_str(&mut m, "Invalid range: ");
                        push_decimal(&mut m, x);
                        push_str(&mut m, " > ");
                        push_decimal(&mut m, y);
                        Err(m)
                    } else if y > total {
                        Err(exceeds_message(y, total))
                    } else {
                        Ok((x, y))
                    }
                },
            },
        }
    } else {
        match parse_usize_span(v, a, b) {
            None => {
                let mut m = String::new();
                push_str(&mut m, "Invalid page number: ");
                let ps = span_string(v, a, b);
                push_str(&mut m, ps.as_str());
                Err(m)
            },
            Some(n) => {
                if n == 0 {
                    Err(owned("Page numbers must start from 1"))
                } else if n > total {
                    Err(exceeds_message(n, total))
                } else {
                    Ok((n, n))
                }
            },
        }
    }
}

fn exceeds_message(page: usize, total: usize) -> (r: String)
    ensures
        r@ == msg_exceeds(page as nat, total as nat),
{
    let mut m = String::new();
    push_str(&mut m, "Page ");
    push_decimal(&mut m, page);
    push_str(&mut m, " exceeds total pages (");
    push_decimal(&mut m, total);
    push_str(&mut m, ")");
    m
}

/// The message with which a specification is rejected, if it is.
pub open spec fn selection_error(spec: Seq<char>, total: nat) -> Option<Seq<char>> {
    if selects_all(spec) {
        None
    } else {
        first_error(spec_parts(spec), total)
    }
}

/// `units` is what an accepted specification selects from `total` units.
pub open spec fn selection_ok(spec: Seq<char>, total: nat, units: Seq<usize>) -> bool {
    if selects_all(spec) {
        units == all_units(total)
    } else {
        strictly_increasing(units) && forall|x: usize|
            units.contains(x) <==> covers(spec_parts(spec), total, x as nat)
    }
}

/// Resolves a page specification against a document of `total` units.
///
/// A blank specification or `all` (in any case) selects `[1, ..., total]`.
/// Otherwise each comma-separated part is a page number or a `start-end`
/// range; the first part that is malformed, zero, reversed or beyond `total`
/// fails the whole call with its message. The result is sorted ascending and
/// free of duplicates.
pub fn parse_pages_parameter(pages: &str, total_pages: usize) -> (r: Result<Vec<usize>, String>)
    ensures
        selects_all(pages@) ==> r is Ok && r->Ok_0@ == all_units(total_pages as nat),
        !selects_all(pages@) ==> match first_error(spec_parts(pages@), total_pages as nat) {
            Some(m) => r is Err && r->Err_0@ == m,
            None => r is Ok && forall|x: usize|
                r->Ok_0@.contains(x) <==> covers(spec_parts(pages@), total_pages as nat, x as nat),
        },
        match selection_error(pages@, total_pages as nat) {
            Some(m) => r is Err && r->Err_0@ == m,
            None => r is Ok && selection_ok(pages@, total_pages as nat, r->Ok_0@),
        },
        r is Ok ==> strictly_increasing(r->Ok_0@),
        r is Ok ==> forall|i: int|
            0 <= i < r->Ok_0@.len() ==> 1 <= #[trigger] r->Ok_0@[i] <= total_pages,
{
    let v = chars_of(pages);
    let n = v.len();
    let (a, b) = trim_bounds(v.as_slice(), 0, n);
    proof {
        assert(v@.subrange(0, n as int) =~= pages@);
    }
    if a == b || (b - a == 3 && (v[a] == 'a' || v[a] == 'A') && (v[a + 1] == 'l' || v[a + 1] == 'L')
        && (v[a + 2] == 'l' || v[a + 2] == 'L')) {
        let mut all: Vec<usize> = Vec::new();
        let mut i: usize = 0;
        while i < total_pages
            invariant
                i <= total_pages,
                all@ == all_units(i as nat),
            decreases total_pages - i,
        {
            all.push(i + 1);
            i = i + 1;
            proof {
                assert(all@ =~= all_units(i as nat));
            }
        }
        return Ok(all);
    }
    proof {
        let t = v@.subrange(a as int, b as int);
        assert(!selects_all(pages@));
    }
    let spans = split_spans(v.as_slice(), 0, n, ',');
    let ghost parts = spec_parts(pages@);
    let mut acc: Vec<usize> = Vec::new();
    let mut k: usize = 0;
    while k < spans.len()
        invariant
            k <= spans@.len() == parts.len(),
            parts == spec_parts(pages@),
            v@ == pages@,
            n == v@.len(),
            forall|j: int|
                0 <= j < spans@.len() ==> 0 <= #[trigger] spans@[j].start <= spans@[j].end <= n
                    && v@.subrange(spans@[j].start as int, spans@[j].end as int) == parts[j],
            first_error(parts.take(k as int), total_pages as nat) is None,
            !selects_all(pages@),
            strictly_increasing(acc@),
            forall|i: int| 0 <= i < acc@.len() ==> 1 <= #[trigger] acc@[i] <= total_pages,
            forall|x: usize|
                acc@.contains(x) <==> covers(parts.take(k as int), total_pages as nat, x as nat),
        decreases spans@.len() - k,
    {
        let ghost pre = parts.take(k as int);
        let ghost nxt = parts.take(k + 1);
        proof {
            assert(nxt.drop_last() =~= pre);
            assert(nxt.last() == parts[k as int]);
            assert(v@.subrange(0, n as int) =~= pages@);
        }
        match check_part(v.as_slice(), spans[k].start, spans[k].end, total_pages) {
            Err(m) => {
                proof {
                    assert(first_error(nxt, total_pages as nat) == Some(m@));
                    lemma_first_error_extends(parts, k + 1, total_pages as nat);
                }
                return Err(m);
            },
            Ok((lo, hi)) => {
                insert_range(&mut acc, lo, hi, total_pages);
                proof {
                    assert(part_outcome(nxt[k as int], total_pages as nat) == Ok::<
                        (nat, nat),
                        Seq<char>,
                    >((lo as nat, hi as nat)));
                    assert forall|x: usize|
                        acc@.contains(x) <==> covers(nxt, total_pages as nat, x as nat) by {
                        if covers(nxt, total_pages as nat, x as nat) {
                            let j = choose|j: int|
                                0 <= j < nxt.len() && (#[trigger] part_outcome(
                                    nxt[j],
                                    total_pages as nat,
                                )) is Ok && part_outcome(nxt[j], total_pages as nat)->Ok_0.0 <= x
                                    <= part_outcome(nxt[j], total_pages as nat)->Ok_0.1;
                            if j < k {
                                assert(pre[j] == nxt[j]);
                            }
                        }
                        if covers(pre, total_pages as nat, x as nat) {
                            let j = choose|j: int|
                                0 <= j < pre.len() && (#[trigger] part_outcome(
                                    pre[j],
                                    total_pages as nat,
                                )) is Ok && part_outcome(pre[j], total_pages as nat)->Ok_0.0 <= x
                                    <= part_outcome(pre[j], total_pages as nat)->Ok_0.1;
                            assert(nxt[j] == pre[j]);
                        }
                        if lo <= x <= hi {
                            assert(nxt[k as int] == parts[k as int]);
                        }
                    }
                }
            },
        }
        k = k + 1;
    }
    proof {
        assert(parts.take(spans@.len() as int) =~= parts);
    }
    Ok(acc)
}

} // verus!
