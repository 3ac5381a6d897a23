use vstd::prelude::*;
use crate::optional::optional_pieces;
use crate::scan::{cut_spec, first_match, lemma_first_match, occurs_at};
use crate::strict::strict_pieces;

verus! {

/// `x` lies in `s` as a contiguous range of bytes.
pub open spec fn is_slice_of(x: Seq<u8>, s: Seq<u8>) -> bool {
    exists|a: int| 0 <= a && a + x.len() <= s.len() && #[trigger] s.subrange(a, a + x.len()) == x
}

/// The sum of the lengths of `ps`.
pub open spec fn total_len(ps: Seq<Seq<u8>>) -> int
    decreases ps.len(),
{
    if ps.len() == 0 {
        0
    } else {
        ps[0].len() + total_len(ps.drop_first())
    }
}

/// How many times scanning `r` for `d` consumes a match and resumes past it.
pub open spec fn delimiter_advances(r: Seq<u8>, d: Seq<u8>) -> nat
    decreases r.len(),
{
    if r.len() == 0 {
        0
    } else {
        match cut_spec(r, d) {
            Some((_, b)) => 1 + delimiter_advances(b, d),
            None => 0,
        }
    }
}

/// A non-empty delimiter (a single byte, say) that does not occur in `s` splits
/// it into `[s]`, or into nothing when `s` is empty, with either splitter.
pub proof fn lemma_no_occurrence_whole(s: Seq<u8>, d: Seq<u8>)
    requires
        d.len() > 0,
        forall|p: int| !occurs_at(s, d, p),
    ensures
        strict_pieces(s, d) == (if s.len() == 0 {
            seq![]
        } else {
            seq![s]
        }),
        optional_pieces(Some(s), Some(d)) == strict_pieces(s, d),
{
    lemma_first_match(s, d);
    if first_match(s, d) is Some {
        assert(occurs_at(s, d, first_match(s, d).unwrap() as int));
    }
}

proof fn lemma_slice_of_suffix(x: Seq<u8>, s: Seq<u8>, k: int)
    requires
        0 <= k <= s.len(),
        is_slice_of(x, s.subrange(k, s.len() as int)),
    ensures
        is_slice_of(x, s),
{
    let b = s.subrange(k, s.len() as int);
    let a = choose|a: int| 0 <= a && a + x.len() <= b.len() && #[trigger] b.subrange(a, a + x.len()) == x;
    assert(s.subrange(k + a, k + a + x.len()) =~= b.subrange(a, a + x.len()));
}

/// Every piece that either splitter yields is a contiguous range of its input.
pub proof fn lemma_pieces_are_slices(s: Seq<u8>, d: Seq<u8>)
    ensures
        forall|i: int| 0 <= i < strict_pieces(s, d).len() ==> is_slice_of(#[trigger] strict_pieces(s, d)[i], s),
        forall|i: int|
            0 <= i < optional_pieces(Some(s), Some(d)).len() ==> is_slice_of(
                #[trigger] optional_pieces(Some(s), Some(d))[i],
                s,
            ),
    decreases s.len(),
{
    if s.len() > 0 {
        lemma_first_match(s, d);
        match cut_spec(s, d) {
            Some((a, b)) => {
                let p = first_match(s, d).unwrap() as int;
                let k = s.len() - b.len();
                assert(b == s.subrange(k, s.len() as int));
                assert(s.subrange(0int, 0int + a.len()) == a);
                assert(is_slice_of(a, s));
                lemma_pieces_are_slices(b, d);
                let rest = strict_pieces(b, d);
                assert forall|i: int| 0 <= i < strict_pieces(s, d).len() implies is_slice_of(
                    #[trigger] strict_pieces(s, d)[i],
                    s,
                ) by {
                    if i > 0 {
                        assert(strict_pieces(s, d)[i] == rest[i - 1]);
                        lemma_slice_of_suffix(rest[i - 1], s, k);
                    }
                }
            },
            None => {
                assert(s.subrange(0int, 0int + s.len()) =~= s);
                assert(is_slice_of(s, s));
            },
        }
    }
}

proof fn lemma_total_len_cons(x: Seq<u8>, ps: Seq<Seq<u8>>)
    ensures
        total_len(seq![x] + ps) == x.len() + total_len(ps),
{
    assert((seq![x] + ps).drop_first() =~= ps);
}

/// With a non-empty delimiter whose first byte is ASCII (every single-byte
/// delimiter), each consumed match advances the scan by one byte: the pieces'
/// lengths plus the number of advances add up to the input's length. A delimiter
/// that does not occur at all makes no advance and meets it as well.
pub proof fn lemma_lengths_add_up(s: Seq<u8>, d: Seq<u8>)
    requires
        d.len() > 0,
        d[0] < 0x80 || forall|p: int| !occurs_at(s, d, p),
    ensures
        total_len(strict_pieces(s, d)) + delimiter_advances(s, d) == s.len(),
        total_len(optional_pieces(Some(s), Some(d))) + delimiter_advances(s, d) == s.len(),
    decreases s.len(),
{
    if s.len() > 0 {
        lemma_first_match(s, d);
        match cut_spec(s, d) {
            Some((a, b)) => {
                let p = first_match(s, d).unwrap() as int;
                assert(s.subrange(p, p + d.len())[0] == s[p]);
                assert(s[p] < 0x80);
                assert(b.len() == s.len() - p - 1);
                lemma_lengths_add_up(b, d);
                lemma_total_len_cons(a, strict_pieces(b, d));
            },
            None => {
                lemma_total_len_cons(s, seq![]);
            },
        }
    }
}

/// Without input the optional splitter yields nothing, whatever the delimiter.
pub proof fn lemma_absent_input(d: Option<Seq<u8>>)
    ensures
        optional_pieces(None, d) == Seq::<Seq<u8>>::empty(),
{
}

/// Without a delimiter the optional splitter yields its input once, as it is.
pub proof fn lemma_absent_delimiter(s: Seq<u8>)
    ensures
        optional_pieces(Some(s), None) == seq![s],
{
}

} // verus!
