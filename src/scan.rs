use vstd::prelude::*;
use vstd::string::*;
use vstd::utf8::*;

verus! {

/// `d` occurs in `r` at byte offset `p`.
pub open spec fn occurs_at(r: Seq<u8>, d: Seq<u8>, p: int) -> bool {
    0 <= p && p + d.len() <= r.len() && r.subrange(p, p + d.len()) == d
}

/// The least offset at or after `i` at which `d` occurs in `r`.
pub open spec fn first_match_from(r: Seq<u8>, d: Seq<u8>, i: nat) -> Option<nat>
    decreases r.len() + 1 - i,
{
    if i + d.len() > r.len() {
        None
    } else if occurs_at(r, d, i as int) {
        Some(i)
    } else {
        first_match_from(r, d, i + 1)
    }
}

/// The offset of the first occurrence of `d` in `r`, if there is one.
pub open spec fn first_match(r: Seq<u8>, d: Seq<u8>) -> Option<nat> {
    first_match_from(r, d, 0)
}

/// Whether `needle` occurs at offset `i` of `hay`, compared byte by byte.
fn matches_at(hay: &[u8], needle: &[u8], i: usize) -> (b: bool)
    requires
        i + needle@.len() <= hay@.len(),
    ensures
        b == occurs_at(hay@, needle@, i as int),
{
    let mut j: usize = 0;
    while j < needle.len()
        invariant
            i + needle@.len() <= hay@.len(),
            hay@.len() == hay.len(),
            j <= needle@.len(),
            forall|k: int| 0 <= k < j ==> hay@[i + k] == needle@[k],
        decreases needle@.len() - j,
    {
        if hay[i + j] != needle[j] {
            assert(hay@.subrange(i as int, i + needle@.len())[j as int] != needle@[j as int]);
            return false;
        }
        j = j + 1;
    }
    assert(hay@.subrange(i as int, i + needle@.len()) =~= needle@);
    true
}

/// Naive forward search: the byte offset of the first occurrence of `needle`.
pub(crate) fn find(hay: &[u8], needle: &[u8]) -> (r: Option<usize>)
    ensures
        first_match(hay@, needle@) == match r {
            Some(p) => Some(p as nat),
            None => None::<nat>,
        },
{
    if needle.len() > hay.len() {
        return None;
    }
    let last: usize = hay.len() - needle.len();
    let mut i: usize = 0;
    while i < last
        invariant
            last + needle@.len() == hay@.len(),
            i <= last,
            first_match(hay@, needle@) == first_match_from(hay@, needle@, i as nat),
        decreases last - i,
    {
        if matches_at(hay, needle, i) {
            return Some(i);
        }
        i = i + 1;
    }
    if matches_at(hay, needle, last) {
        Some(last)
    } else {
        assert(first_match_from(hay@, needle@, last as nat + 1) is None);
        None
    }
}

/// Width in bytes of the UTF-8 character whose leading byte is `b`.
pub open spec fn lead_width(b: u8) -> int {
    if b < 0x80 {
        1
    } else if b < 0xe0 {
        2
    } else if b < 0xf0 {
        3
    } else {
        4
    }
}

/// Where scanning resumes after a match at `p`: just past the character that
/// starts there (one byte when that character is ASCII). The end of `r` bounds it.
pub open spec fn resume_index(r: Seq<u8>, p: int) -> int {
    if p + lead_width(r[p]) <= r.len() {
        p + lead_width(r[p])
    } else {
        r.len() as int
    }
}

/// One scanning step on a non-empty remainder `r`: when `d` occurs, the bytes
/// before its first occurrence and the bytes from which scanning resumes.
pub open spec fn cut_spec(r: Seq<u8>, d: Seq<u8>) -> Option<(Seq<u8>, Seq<u8>)> {
    match first_match(r, d) {
        Some(p) => Some((r.subrange(0, p as int), r.subrange(resume_index(r, p as int), r.len() as int))),
        None => None,
    }
}

/// What the search from offset `i` finds: the least occurrence at or after `i`.
proof fn lemma_first_match_from(r: Seq<u8>, d: Seq<u8>, i: nat)
    ensures
        match first_match_from(r, d, i) {
            Some(p) => i <= p && occurs_at(r, d, p as int) && forall|q: int|
                i <= q < p ==> !occurs_at(r, d, q),
            None => forall|q: int| i <= q ==> !occurs_at(r, d, q),
        },
    decreases r.len() + 1 - i,
{
    if i + d.len() <= r.len() && !occurs_at(r, d, i as int) {
        lemma_first_match_from(r, d, i + 1);
    }
}

/// The first match, as a position: `d` occurs there and nowhere before.
pub proof fn lemma_first_match(r: Seq<u8>, d: Seq<u8>)
    ensures
        match first_match(r, d) {
            Some(p) => occurs_at(r, d, p as int) && forall|q: int|
                0 <= q < p ==> !occurs_at(r, d, q),
            None => forall|q: int| !occurs_at(r, d, q),
        },
{
    lemma_first_match_from(r, d, 0);
}

/// Inside well-formed UTF-8, an offset strictly between the ends starts a
/// character exactly when its byte is not a continuation byte.
proof fn lemma_boundary_iff(b: Seq<u8>, i: int)
    requires
        valid_utf8(b),
        0 < i < b.len(),
    ensures
        is_char_boundary(b, i) <==> !is_continuation_byte(b[i]),
    decreases b.len(),
{
    let w = length_of_first_scalar(b);
    let t = pop_first_scalar(b);
    assert(valid_first_scalar(b) && valid_utf8(t));
    assert(1 <= w <= b.len() && t.len() == b.len() - w);
    assert(is_char_boundary(b, i) == is_char_boundary(t, i - w));
    if i > w {
        lemma_boundary_iff(t, i - w);
        assert(t[i - w] == b[i]);
    } else if i == w {
        assert(t[0] == b[i]);
        assert(valid_first_scalar(t));
    } else {
        assert(is_continuation_byte(b[i]));
    }
}

/// A match of a well-formed delimiter starts a character; the character that
/// starts there ends within the remainder, at a character boundary.
proof fn lemma_match_boundaries(r: Seq<u8>, d: Seq<u8>, p: int)
    requires
        valid_utf8(r),
        valid_utf8(d),
        occurs_at(r, d, p),
        p < r.len(),
        d.len() == 0 ==> p == 0,
    ensures
        is_char_boundary(r, p),
        p + lead_width(r[p]) <= r.len(),
        is_char_boundary(r, p + lead_width(r[p])),
{
    broadcast use is_char_boundary_start_end_of_seq, valid_utf8_split;

    is_char_boundary_start_end_of_seq(r);
    if p > 0 {
        assert(r.subrange(p, p + d.len())[0] == r[p]);
        assert(valid_first_scalar(d));
        lemma_boundary_iff(r, p);
    }
    valid_utf8_split(r, p);
    let tail = r.subrange(p, r.len() as int);
    assert(tail[0] == r[p]);
    let w = length_of_first_scalar(tail);
    assert(w == lead_width(r[p]));
    let rest = pop_first_scalar(tail);
    assert(valid_utf8(rest));
    assert(rest.len() == r.len() - p - w);
    if p + w < r.len() {
        assert(rest[0] == r[p + w]);
        lemma_boundary_iff(r, p + w);
    }
}

/// The length of `s` in bytes.
pub(crate) fn byte_len(s: &str) -> (n: usize)
    ensures
        n == s.spec_bytes().len(),
{
    s.as_bytes().len()
}

/// Width of the character led by byte `b`.
fn char_width(b: u8) -> (w: usize)
    ensures
        w == lead_width(b),
{
    if b < 0x80 {
        1
    } else if b < 0xe0 {
        2
    } else if b < 0xf0 {
        3
    } else {
        4
    }
}

/// The scanning step shared by both splitters: on a non-empty remainder, the
/// piece before the first occurrence of `delimiter` and the resumed remainder,
/// both views into `rem`; `None` when the delimiter does not occur.
pub(crate) fn cut<'a>(rem: &'a str, delimiter: &str) -> (r: Option<(&'a str, &'a str)>)
    requires
        rem.spec_bytes().len() > 0,
    ensures
        match r {
            Some((a, b)) => cut_spec(rem.spec_bytes(), delimiter.spec_bytes()) == Some(
                (a.spec_bytes(), b.spec_bytes()),
            ),
            None => cut_spec(rem.spec_bytes(), delimiter.spec_bytes()) is None,
        },
{
    broadcast use encode_utf8_valid_utf8;

    let bytes = rem.as_bytes();
    match find(bytes, delimiter.as_bytes()) {
        None => None,
        Some(p) => {
            proof {
                let d = delimiter.spec_bytes();
                lemma_first_match(bytes@, d);
                if d.len() == 0 {
                    assert(bytes@.subrange(0, 0) =~= d);
                    assert(occurs_at(bytes@, d, 0));
                }
                lemma_match_boundaries(bytes@, d, p as int);
            }
            let w = char_width(bytes[p]);
            let (before, _) = rem.split_at(p);
            let (_, after) = rem.split_at(p + w);
            Some((before, after))
        },
    }
}

} // verus!
