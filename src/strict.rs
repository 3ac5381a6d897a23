use vstd::prelude::*;
use vstd::string::*;
use vstd::utf8::*;
use crate::scan::{byte_len, cut, cut_spec};

verus! {

/// The pieces that splitting `r` at `d` yields, in order: the bytes before each
/// occurrence of `d`, scanning resuming one character past each match start, and
/// then whatever non-empty rest holds no occurrence.
pub open spec fn strict_pieces(r: Seq<u8>, d: Seq<u8>) -> Seq<Seq<u8>>
    decreases r.len(),
{
    if r.len() == 0 {
        seq![]
    } else {
        match cut_spec(r, d) {
            Some((a, b)) => seq![a] + strict_pieces(b, d),
            None => seq![r],
        }
    }
}

/// The bytes of each slice of `v`, in order.
pub open spec fn bytes_of_all(v: Seq<&str>) -> Seq<Seq<u8>> {
    v.map_values(|x: &str| x.spec_bytes())
}

/// Splits a string slice at every occurrence of a delimiter, lazily: each call of
/// `next` hands out the next piece, a view into the input.
///
/// After a match the scan resumes one character past the match start, which is one
/// byte for any delimiter that begins with an ASCII character. A longer delimiter
/// therefore leaves its later bytes at the head of the next piece.
pub struct StrSplit<'a> {
    remainder: &'a str,
    delimiter: &'a str,
}

impl<'a> StrSplit<'a> {
    /// The bytes not consumed yet.
    pub closed spec fn remainder_bytes(&self) -> Seq<u8> {
        self.remainder.spec_bytes()
    }

    /// The delimiter's bytes.
    pub closed spec fn delimiter_bytes(&self) -> Seq<u8> {
        self.delimiter.spec_bytes()
    }

    /// The pieces still to come.
    pub open spec fn pieces(&self) -> Seq<Seq<u8>> {
        strict_pieces(self.remainder_bytes(), self.delimiter_bytes())
    }

    pub fn new(content: &'a str, delimiter: &'a str) -> (s: Self)
        ensures
            s.remainder_bytes() == content.spec_bytes(),
            s.delimiter_bytes() == delimiter.spec_bytes(),
            s.pieces() == strict_pieces(content.spec_bytes(), delimiter.spec_bytes()),
    {
        StrSplit { remainder: content, delimiter }
    }

    /// The next piece, or `None` once the remainder is empty.
    pub fn next(&mut self) -> (r: Option<&'a str>)
        ensures
            final(self).delimiter_bytes() == old(self).delimiter_bytes(),
            old(self).pieces().len() == 0 ==> r is None && *final(self) == *old(self),
            old(self).pieces().len() > 0 ==> (r matches Some(x) && x.spec_bytes() == old(
                self,
            ).pieces()[0]),
            old(self).pieces().len() > 0 ==> final(self).pieces() == old(self).pieces().drop_first(),
            old(self).remainder_bytes().len() > 0 ==> final(self).remainder_bytes().len() < old(
                self,
            ).remainder_bytes().len(),
            final(self).remainder_bytes() == old(self).remainder_bytes().subrange(
                old(self).remainder_bytes().len() - final(self).remainder_bytes().len(),
                old(self).remainder_bytes().len() as int,
            ),
    {
        broadcast use encode_utf8_valid_utf8, is_char_boundary_start_end_of_seq;

        let n = byte_len(self.remainder);
        if n == 0 {
            proof {
                assert(self.remainder_bytes().subrange(0, 0) =~= self.remainder_bytes());
            }
            return None;
        }
        let ghost d = self.delimiter_bytes();
        match cut(self.remainder, self.delimiter) {
            Some((before, after)) => {
                self.remainder = after;
                proof {
                    let rest = strict_pieces(after.spec_bytes(), d);
                    assert((seq![before.spec_bytes()] + rest).drop_first() =~= rest);
                }
                Some(before)
            },
            None => {
                let rest = self.remainder;
                let (_, empty) = rest.split_at(n);
                self.remainder = empty;
                proof {
                    assert(seq![rest.spec_bytes()].drop_first() =~= strict_pieces(empty.spec_bytes(), d));
                }
                Some(rest)
            },
        }
    }

    /// Every remaining piece, in order.
    pub fn into_vec(self) -> (v: Vec<&'a str>)
        ensures
            bytes_of_all(v@) == self.pieces(),
    {
        let mut it = self;
        let mut out: Vec<&'a str> = Vec::new();
        loop
            invariant
                bytes_of_all(out@) + it.pieces() == self.pieces(),
            decreases it.pieces().len(),
        {
            match it.next() {
                Some(x) => {
                    out.push(x);
                },
                None => {
                    return out;
                },
            }
        }
    }
}

} // verus!
