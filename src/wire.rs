//! The building blocks of every layout: identifiers as eight little-endian bytes, texts in
//! regions padded with zero bytes, and lists of identifiers. Spec functions say what the bytes
//! are; the private functions below write and read them.
use vstd::bytes::{
    lemma_auto_spec_u64_to_from_le_bytes, spec_u64_from_le_bytes, spec_u64_to_le_bytes,
    u64_from_le_bytes, u64_to_le_bytes,
};
use vstd::prelude::*;
use vstd::utf8::{
    decode_utf8, encode_utf8, encode_utf8_decode_utf8, encode_utf8_valid_utf8, valid_utf8,
};

verus! {

/// The eight little-endian bytes of `x`.
pub open spec fn u64_bytes(x: u64) -> Seq<u8> {
    spec_u64_to_le_bytes(x)
}

/// The number held, little-endian, in the eight bytes of `b` from `pos` on.
pub open spec fn u64_at(b: Seq<u8>, pos: int) -> u64 {
    spec_u64_from_le_bytes(b.subrange(pos, pos + 8))
}

/// `i` is the position of the first zero byte of `b`, or the length of `b` where it holds none.
pub open spec fn is_text_end(b: Seq<u8>, i: int) -> bool {
    &&& 0 <= i <= b.len()
    &&& i < b.len() ==> b[i] == 0
    &&& forall|j: int| 0 <= j < i ==> b[j] != 0
}

/// The position of the first zero byte of `b`, or the length of `b` where it holds none.
pub open spec fn text_end(b: Seq<u8>) -> int {
    choose|i: int| is_text_end(b, i)
}

/// The text that a region holds: the bytes before its first zero byte, read as UTF-8. Where
/// those bytes are not UTF-8 the text is empty.
pub open spec fn text_of(region: Seq<u8>) -> Seq<char> {
    let b = region.take(text_end(region));
    if valid_utf8(b) {
        decode_utf8(b)
    } else {
        Seq::empty()
    }
}

/// `s` can be stored in a region of `width` bytes and read back: its UTF-8 form fits and holds
/// no zero byte.
pub open spec fn text_fits(s: Seq<char>, width: nat) -> bool {
    &&& encode_utf8(s).len() <= width
    &&& !encode_utf8(s).contains(0u8)
}

/// `n` zero bytes.
pub open spec fn zeros(n: nat) -> Seq<u8> {
    Seq::new(n, |i: int| 0u8)
}

/// The region of `width` bytes that holds `s`: its UTF-8 form, then zero bytes.
pub open spec fn padded_text(s: Seq<char>, width: nat) -> Seq<u8> {
    encode_utf8(s) + zeros((width - encode_utf8(s).len()) as nat)
}

/// The identifiers of `ids`, one after the other, eight bytes each.
pub open spec fn ids_bytes(ids: Seq<u64>) -> Seq<u8>
    decreases ids.len(),
{
    if ids.len() == 0 {
        Seq::empty()
    } else {
        ids_bytes(ids.drop_last()) + u64_bytes(ids.last())
    }
}

/// The `n` identifiers that `b` holds from `pos` on, eight bytes each.
pub open spec fn ids_at(b: Seq<u8>, pos: int, n: nat) -> Seq<u64> {
    Seq::new(n, |i: int| u64_at(b, pos + 8 * i))
}

/// A number's eight bytes are read back as the number.
pub proof fn lemma_u64_bytes(x: u64)
    ensures
        u64_bytes(x).len() == 8,
        spec_u64_from_le_bytes(u64_bytes(x)) == x,
{
    lemma_auto_spec_u64_to_from_le_bytes();
}

/// There is one first zero byte.
pub proof fn lemma_text_end_unique(b: Seq<u8>, i: int)
    requires
        is_text_end(b, i),
    ensures
        text_end(b) == i,
{
    let k = text_end(b);
    assert(is_text_end(b, k));
    if k < i {
        assert(b[k] != 0);
    } else if i < k {
        assert(b[i] != 0);
    }
}

/// The text that a region holds is read back from it when the bytes after it start with a zero
/// byte or are absent.
pub proof fn lemma_text_read_back(s: Seq<char>, tail: Seq<u8>)
    requires
        !encode_utf8(s).contains(0u8),
        tail.len() > 0 ==> tail[0] == 0,
    ensures
        text_of(encode_utf8(s) + tail) == s,
{
    let e = encode_utf8(s);
    let b = e + tail;
    assert forall|j: int| 0 <= j < e.len() implies b[j] != 0 by {
        if b[j] == 0 {
            assert(e[j] == 0);
            assert(e.contains(0u8));
        }
    }
    lemma_text_end_unique(b, e.len() as int);
    assert(b.take(e.len() as int) =~= e);
    encode_utf8_valid_utf8(s);
    encode_utf8_decode_utf8(s);
}

/// A text that fits its region is read back from the padded region.
pub proof fn lemma_padded_text(s: Seq<char>, width: nat, rest: Seq<u8>)
    requires
        text_fits(s, width),
    ensures
        padded_text(s, width).len() == width,
        text_of(padded_text(s, width)) == s,
        (padded_text(s, width) + rest).subrange(0, width as int) == padded_text(s, width),
{
    let z = zeros((width - encode_utf8(s).len()) as nat);
    lemma_text_read_back(s, z);
    assert((padded_text(s, width) + rest).subrange(0, width as int) =~= padded_text(s, width));
}

/// Each identifier takes eight bytes.
pub proof fn lemma_ids_bytes_len(ids: Seq<u64>)
    ensures
        ids_bytes(ids).len() == 8 * ids.len(),
    decreases ids.len(),
{
    if ids.len() > 0 {
        lemma_ids_bytes_len(ids.drop_last());
        lemma_u64_bytes(ids.last());
    }
}

/// The identifiers written one after the other are read back from the same place.
pub proof fn lemma_ids_read_back(ids: Seq<u64>, pre: Seq<u8>, post: Seq<u8>)
    ensures
        ids_at(pre + ids_bytes(ids) + post, pre.len() as int, ids.len()) == ids,
    decreases ids.len(),
{
    let b = pre + ids_bytes(ids) + post;
    if ids.len() > 0 {
        let front = ids.drop_last();
        let x = ids.last();
        lemma_ids_bytes_len(front);
        lemma_u64_bytes(x);
        assert(b =~= pre + ids_bytes(front) + (u64_bytes(x) + post));
        lemma_ids_read_back(front, pre, u64_bytes(x) + post);
        let p = pre.len() + 8 * front.len() as int;
        assert(b.subrange(p, p + 8) =~= u64_bytes(x));
        assert(ids_at(b, pre.len() as int, ids.len()) =~= ids) by {
            assert forall|i: int| 0 <= i < ids.len() implies ids_at(
                b,
                pre.len() as int,
                ids.len(),
            )[i] == ids[i] by {
                if i < front.len() {
                    assert(ids_at(b, pre.len() as int, front.len())[i] == front[i]);
                }
            }
        }
    }
}

/// Relies on std::str::from_utf8: it accepts exactly the valid UTF-8 byte sequences, and then
/// the string holds the characters that they encode.
#[verifier::external_body]
pub(crate) fn str_from_utf8(b: &[u8]) -> (r: Option<&str>)
    ensures
        match r {
            Some(s) => valid_utf8(b@) && s@ == decode_utf8(b@),
            None => !valid_utf8(b@),
        },
{
    std::str::from_utf8(b).ok()
}

/// Writes `w` to the start of `buffer`; the bytes after it are left as they were.
pub(crate) fn put_front(buffer: &mut [u8], w: &Vec<u8>)
    requires
        w@.len() <= old(buffer)@.len(),
    ensures
        final(buffer)@.len() == old(buffer)@.len(),
        final(buffer)@.take(w@.len() as int) == w@,
        final(buffer)@.skip(w@.len() as int) == old(buffer)@.skip(w@.len() as int),
{
    crate::write_bytes_to_buffer(buffer, w.as_slice());
    assert(buffer@.take(w@.len() as int) =~= w@);
    assert(buffer@.skip(w@.len() as int) =~= old(buffer)@.skip(w@.len() as int));
}

/// Whether two texts are the same, compared byte by byte.
pub(crate) fn text_eq(a: &str, b: &str) -> (r: bool)
    ensures
        r == (a@ == b@),
{
    let x = a.as_bytes();
    let y = b.as_bytes();
    proof {
        encode_utf8_decode_utf8(a@);
        encode_utf8_decode_utf8(b@);
    }
    if x.len() != y.len() {
        return false;
    }
    let mut i: usize = 0;
    while i < x.len()
        invariant
            i <= x@.len() == y@.len(),
            x@ == encode_utf8(a@),
            y@ == encode_utf8(b@),
            forall|j: int| 0 <= j < i ==> x@[j] == y@[j],
        decreases x@.len() - i,
    {
        if x[i] != y[i] {
            assert(x@ != y@);
            return false;
        }
        i = i + 1;
    }
    assert(x@ =~= y@);
    true
}

/// Whether `text` can be stored in a region of `width` bytes and read back.
pub(crate) fn text_fits_in(text: &str, width: usize) -> (r: bool)
    ensures
        r == text_fits(text@, width as nat),
{
    text.as_bytes().len() <= width && text_has_no_zero(text)
}

/// Whether the UTF-8 form of `text` holds no zero byte.
pub(crate) fn text_has_no_zero(text: &str) -> (r: bool)
    ensures
        r == !encode_utf8(text@).contains(0u8),
{
    let bytes = text.as_bytes();
    let mut i: usize = 0;
    while i < bytes.len()
        invariant
            i <= bytes@.len(),
            bytes@ == encode_utf8(text@),
            forall|j: int| 0 <= j < i ==> bytes@[j] != 0,
        decreases bytes@.len() - i,
    {
        if bytes[i] == 0 {
            assert(bytes@.contains(0u8));
            return false;
        }
        i = i + 1;
    }
    true
}

/// The region of `width` bytes that holds `text`.
pub(crate) fn text_region(text: &str, width: usize) -> (r: Vec<u8>)
    requires
        encode_utf8(text@).len() <= width,
    ensures
        r@ == padded_text(text@, width as nat),
{
    let bytes = text.as_bytes();
    let mut r = vstd::slice::slice_to_vec(bytes);
    let mut i: usize = bytes.len();
    while i < width
        invariant
            bytes@.len() <= i <= width,
            bytes@ == encode_utf8(text@),
            r@ == bytes@ + zeros((i - bytes@.len()) as nat),
        decreases width - i,
    {
        r.push(0);
        i = i + 1;
        assert(r@ =~= bytes@ + zeros((i - bytes@.len()) as nat));
    }
    r
}

/// The identifiers of `ids`, one after the other, eight bytes each.
pub(crate) fn ids_vec(ids: &Vec<u64>) -> (r: Vec<u8>)
    ensures
        r@ == ids_bytes(ids@),
{
    let mut r: Vec<u8> = Vec::new();
    let mut i: usize = 0;
    while i < ids.len()
        invariant
            i <= ids@.len(),
            r@ == ids_bytes(ids@.take(i as int)),
        decreases ids@.len() - i,
    {
        let mut b = u64_to_le_bytes(ids[i]);
        r.append(&mut b);
        assert(ids@.take(i + 1).drop_last() =~= ids@.take(i as int));
        i = i + 1;
    }
    assert(ids@.take(i as int) =~= ids@);
    r
}

/// Reads the number held, little-endian, in the eight bytes of `buffer` from `pos` on.
pub(crate) fn read_u64(buffer: &[u8], pos: usize) -> (x: u64)
    requires
        pos + 8 <= buffer@.len(),
    ensures
        x == u64_at(buffer@, pos as int),
{
    let len = buffer.len();
    u64_from_le_bytes(vstd::slice::slice_subrange(buffer, pos, pos + 8))
}

/// Finds the first zero byte of `buffer` between `start` and `end`; returns its position
/// counted from `start`, or `end - start` where there is none.
pub(crate) fn find_text_end(buffer: &[u8], start: usize, end: usize) -> (i: usize)
    requires
        start <= end <= buffer@.len(),
    ensures
        i <= end - start,
        is_text_end(buffer@.subrange(start as int, end as int), i as int),
        text_end(buffer@.subrange(start as int, end as int)) == i,
{
    let ghost region = buffer@.subrange(start as int, end as int);
    let mut i: usize = 0;
    while start + i < end && buffer[start + i] != 0
        invariant
            start + i <= end <= buffer@.len(),
            region == buffer@.subrange(start as int, end as int),
            forall|j: int| 0 <= j < i ==> region[j] != 0,
        decreases end - start - i,
    {
        i = i + 1;
    }
    proof {
        lemma_text_end_unique(region, i as int);
    }
    i
}

/// Reads the text held in the region of `buffer` between `start` and `end`.
pub(crate) fn read_text(buffer: &[u8], start: usize, end: usize) -> (s: String)
    requires
        start <= end <= buffer@.len(),
    ensures
        s@ == text_of(buffer@.subrange(start as int, end as int)),
{
    let n = find_text_end(buffer, start, end);
    let head = vstd::slice::slice_subrange(buffer, start, start + n);
    proof {
        assert(head@ =~= buffer@.subrange(start as int, end as int).take(n as int));
    }
    match str_from_utf8(head) {
        Some(s) => s.to_owned(),
        None => String::new(),
    }
}

} // verus!
