//! Character offsets into UTF-8 text: the index that lets cached content be
//! sliced by character position in constant time.
use vstd::prelude::*;
use vstd::utf8::*;
use vstd::string::StringSliceAdditionalSpecFns;
use crate::text::chars_of;

verus! {

broadcast use encode_utf8_decode_utf8, encode_utf8_valid_utf8;

/// The number of bytes of the UTF-8 encoding of `s`.
pub open spec fn byte_len(s: Seq<char>) -> nat {
    encode_utf8(s).len()
}

/// `idx` holds the byte offset of the start of each character of `s`, then
/// the byte length of `s`: `s.len() + 1` entries.
pub open spec fn offsets_ok(s: Seq<char>, idx: Seq<usize>) -> bool {
    &&& idx.len() == s.len() + 1
    &&& forall|i: int| 0 <= i <= s.len() ==> #[trigger] idx[i] == byte_len(s.take(i))
}

/// The UTF-8 width of a character.
pub open spec fn char_width(c: char) -> nat {
    if (c as u32) <= 0x7F {
        1
    } else if (c as u32) <= 0x7FF {
        2
    } else if (c as u32) <= 0xFFFF {
        3
    } else {
        4
    }
}

pub proof fn lemma_encode_concat(a: Seq<char>, b: Seq<char>)
    ensures
        encode_utf8(a + b) == encode_utf8(a) + encode_utf8(b),
    decreases a.len(),
{
    if a.len() == 0 {
        assert(a + b =~= b);
        assert(encode_utf8(a) =~= Seq::<u8>::empty());
        assert(encode_utf8(a) + encode_utf8(b) =~= encode_utf8(b));
    } else {
        assert((a + b).drop_first() =~= a.drop_first() + b);
        assert((a + b)[0] == a[0]);
        lemma_encode_concat(a.drop_first(), b);
        assert(encode_utf8(a + b) =~= encode_scalar(a[0] as u32) + (encode_utf8(a.drop_first())
            + encode_utf8(b)));
    }
}

pub proof fn lemma_encode_split(s: Seq<char>, i: int)
    requires
        0 <= i <= s.len(),
    ensures
        encode_utf8(s) == encode_utf8(s.take(i)) + encode_utf8(s.skip(i)),
{
    assert(s =~= s.take(i) + s.skip(i));
    lemma_encode_concat(s.take(i), s.skip(i));
}

pub proof fn lemma_encode_single(c: char)
    ensures
        encode_utf8(seq![c]).len() == char_width(c),
{
    assert(seq![c].drop_first() =~= Seq::<char>::empty());
    char_is_scalar(c);
    assert(encode_utf8(seq![c]) =~= encode_scalar(c as u32) + encode_utf8(Seq::<char>::empty()));
}

pub proof fn lemma_byte_len_push(s: Seq<char>, c: char)
    ensures
        byte_len(s.push(c)) == byte_len(s) + char_width(c),
{
    assert(s.push(c) =~= s + seq![c]);
    lemma_encode_concat(s, seq![c]);
    lemma_encode_single(c);
}

/// The byte offset of character `i` of `s` is a character boundary of its
/// encoding.
pub proof fn lemma_offset_is_boundary(s: Seq<char>, i: int)
    requires
        0 <= i <= s.len(),
    ensures
        is_char_boundary(encode_utf8(s), byte_len(s.take(i)) as int),
    decreases i,
{
    let bytes = encode_utf8(s);
    encode_utf8_valid_utf8(s);
    if i == 0 {
        assert(s.take(0) =~= Seq::<char>::empty());
    } else {
        encode_utf8_first_scalar(s);
        assert(pop_first_scalar(bytes) =~= encode_utf8(s.drop_first()));
        let t = s.drop_first();
        lemma_offset_is_boundary(t, i - 1);
        assert(s.take(i) =~= seq![s[0]] + t.take(i - 1));
        lemma_encode_concat(seq![s[0]], t.take(i - 1));
        lemma_encode_single(s[0]);
        char_is_scalar(s[0]);
        lemma_encode_split(s, i);
        assert(byte_len(s.take(i)) <= bytes.len());
    }
}

/// A string slice whose bytes encode `q` has the characters `q`.
pub proof fn lemma_chars_from_bytes(x: &str, q: Seq<char>)
    requires
        x.spec_bytes() == encode_utf8(q),
    ensures
        x@ == q,
{
    assert(decode_utf8(encode_utf8(x@)) == x@);
    assert(decode_utf8(encode_utf8(q)) == q);
}

/// The UTF-8 width of `c`, as `char::len_utf8` gives it.
pub fn utf8_width(c: char) -> (r: usize)
    ensures
        r == char_width(c),
{
    let v = c as u32;
    if v <= 0x7F {
        1
    } else if v <= 0x7FF {
        2
    } else if v <= 0xFFFF {
        3
    } else {
        4
    }
}

/// The byte offset of each character of `s`, followed by its byte length.
pub fn build_char_indices(s: &str) -> (r: Vec<usize>)
    ensures
        offsets_ok(s@, r@),
{
    let chars = chars_of(s);
    let nbytes = s.as_bytes().len();
    proof {
        lemma_encode_split(s@, s@.len() as int);
        assert(s@.take(s@.len() as int) =~= s@);
    }
    let mut idx: Vec<usize> = Vec::new();
    let mut pos: usize = 0;
    let mut i: usize = 0;
    proof {
        assert(s@.take(0) =~= Seq::<char>::empty());
    }
    while i < chars.len()
        invariant
            chars@ == s@,
            nbytes == byte_len(s@),
            i <= chars@.len(),
            pos == byte_len(s@.take(i as int)),
            idx@.len() == i,
            forall|k: int| 0 <= k < i ==> #[trigger] idx@[k] == byte_len(s@.take(k)),
        decreases chars@.len() - i,
    {
        idx.push(pos);
        let w = utf8_width(chars[i]);
        proof {
            assert(s@.take(i + 1) =~= s@.take(i as int).push(s@[i as int]));
            lemma_byte_len_push(s@.take(i as int), s@[i as int]);
            lemma_encode_split(s@, i + 1);
        }
        pos = pos + w;
        i = i + 1;
    }
    idx.push(pos);
    proof {
        assert(s@.take(s@.len() as int) =~= s@);
    }
    idx
}

/// The characters `[start, end)` of `s`, cut out with the byte offsets in
/// `idx` and no scan of the text.
pub fn slice_chars(s: &str, idx: &[usize], start: usize, end: usize) -> (r: String)
    requires
        offsets_ok(s@, idx@),
        start <= end <= s@.len(),
    ensures
        r@ == s@.subrange(start as int, end as int),
        byte_len(r@) == idx@[end as int] - idx@[start as int],
{
    let sb = idx[start];
    let eb = idx[end];
    proof {
        lemma_offset_is_boundary(s@, start as int);
        lemma_encode_split(s@, start as int);
    }
    let (_, tail) = s.split_at(sb);
    let ghost rest = s@.skip(start as int);
    proof {
        assert(tail.spec_bytes() =~= encode_utf8(rest));
        lemma_chars_from_bytes(tail, rest);
        let k = (end - start) as int;
        assert(rest.take(k) =~= s@.subrange(start as int, end as int));
        assert(s@.take(end as int) =~= s@.take(start as int) + rest.take(k));
        lemma_encode_concat(s@.take(start as int), rest.take(k));
        lemma_offset_is_boundary(rest, k);
        lemma_encode_split(rest, k);
    }
    let (mid, _) = tail.split_at(eb - sb);
    proof {
        let k = (end - start) as int;
        assert(mid.spec_bytes() =~= encode_utf8(rest.take(k)));
        lemma_chars_from_bytes(mid, rest.take(k));
    }
    mid.to_owned()
}

/// The first `k` characters of `s`, cut out with the byte offsets in `idx`.
pub fn prefix_chars<'a>(s: &'a str, idx: &[usize], k: usize) -> (r: &'a str)
    requires
        offsets_ok(s@, idx@),
        k <= s@.len(),
    ensures
        r@ == s@.take(k as int),
{
    proof {
        lemma_offset_is_boundary(s@, k as int);
        lemma_encode_split(s@, k as int);
    }
    let (head, _) = s.split_at(idx[k]);
    proof {
        assert(head.spec_bytes() =~= encode_utf8(s@.take(k as int)));
        lemma_chars_from_bytes(head, s@.take(k as int));
    }
    head
}

} // verus!
