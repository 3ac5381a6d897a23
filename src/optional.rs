use vstd::prelude::*;
use vstd::string::*;
use crate::scan::{byte_len, cut};
use crate::strict::strict_pieces;

verus! {

/// The bytes of an optional slice.
pub open spec fn opt_bytes(o: Option<&str>) -> Option<Seq<u8>> {
    match o {
        Some(s) => Some(s.spec_bytes()),
        None => None,
    }
}

/// The pieces that the optional splitter yields from remainder `r` and
/// delimiter `d`: nothing without a remainder; the whole remainder, once, without
/// a delimiter; nothing for an empty remainder or an empty delimiter; otherwise
/// the pieces of the scan that both splitters share.
pub open spec fn optional_pieces(r: Option<Seq<u8>>, d: Option<Seq<u8>>) -> Seq<Seq<u8>> {
    match r {
        None => seq![],
        Some(r) => match d {
            None => seq![r],
            Some(d) => if d.len() == 0 {
                seq![]
            } else {
                strict_pieces(r, d)
            },
        },
    }
}

/// A splitter whose input and delimiter may each be absent.
///
/// Without input it yields nothing; without a delimiter it yields the input once.
/// An empty input or an empty delimiter yields nothing. Otherwise it scans as
/// `StrSplit` does, and the remainder becomes absent with the last piece.
pub struct StrSplit2<'a> {
    remainder: Option<&'a str>,
    delimiter: Option<&'a str>,
}

impl<'a> StrSplit2<'a> {
    /// The bytes not consumed yet; `None` once the splitter has finished.
    pub closed spec fn remainder_bytes(&self) -> Option<Seq<u8>> {
        opt_bytes(self.remainder)
    }

    /// The delimiter's bytes, if there is a delimiter.
    pub closed spec fn delimiter_bytes(&self) -> Option<Seq<u8>> {
        opt_bytes(self.delimiter)
    }

    /// The pieces still to come.
    pub open spec fn pieces(&self) -> Seq<Seq<u8>> {
        optional_pieces(self.remainder_bytes(), self.delimiter_bytes())
    }

    pub fn new(content: Option<&'a str>, delimiter: Option<&'a str>) -> (s: Self)
        ensures
            s.remainder_bytes() == opt_bytes(content),
            s.delimiter_bytes() == opt_bytes(delimiter),
            s.pieces() == optional_pieces(opt_bytes(content), opt_bytes(delimiter)),
    {
        StrSplit2 { remainder: content, delimiter }
    }

    /// The next piece, or `None` when none is left.
    pub fn next(&mut self) -> (r: Option<&'a str>)
        ensures
            final(self).delimiter_bytes() == old(self).delimiter_bytes(),
            old(self).pieces().len() == 0 ==> r is None && *final(self) == *old(self),
            old(self).pieces().len() > 0 ==> (r matches Some(x) && x.spec_bytes() == old(
                self,
            ).pieces()[0]),
            old(self).pieces().len() > 0 ==> final(self).pieces() == old(self).pieces().drop_first(),
            old(self).remainder_bytes() is None ==> final(self).remainder_bytes() is None,
            final(self).remainder_bytes() matches Some(f) ==> old(self).remainder_bytes() matches Some(
                o,
            ) && f.len() <= o.len() && f == o.subrange(o.len() - f.len(), o.len() as int),
    {
        let rem = match self.remainder {
            None => {
                return None;
            },
            Some(rem) => rem,
        };
        let d = match self.delimiter {
            None => {
                self.remainder = None;
                proof {
                    assert(seq![rem.spec_bytes()].drop_first() =~= Seq::<Seq<u8>>::empty());
                }
                return Some(rem);
            },
            Some(d) => d,
        };
        if byte_len(rem) == 0 || byte_len(d) == 0 {
            proof {
                assert(rem.spec_bytes().subrange(0, rem.spec_bytes().len() as int) =~= rem.spec_bytes());
            }
            return None;
        }
        match cut(rem, d) {
            Some((before, after)) => {
                self.remainder = Some(after);
                proof {
                    let rest = strict_pieces(after.spec_bytes(), d.spec_bytes());
                    assert((seq![before.spec_bytes()] + rest).drop_first() =~= rest);
                }
                Some(before)
            },
            None => {
                self.remainder = None;
                proof {
                    assert(seq![rem.spec_bytes()].drop_first() =~= Seq::<Seq<u8>>::empty());
                }
                Some(rem)
            },
        }
    }

    /// Every remaining piece, in order.
    pub fn into_vec(self) -> (v: Vec<&'a str>)
        ensures
            crate::strict::bytes_of_all(v@) == self.pieces(),
    {
        let mut it = self;
        let mut out: Vec<&'a str> = Vec::new();
        loop
            invariant
                crate::strict::bytes_of_all(out@) + it.pieces() == self.pieces(),
            decreases it.pieces().len(),
        {
            match it.next() {
                Some(x) => {
                    out.push(x);
                },
                None => {
                    return out;
                },
            }
        }
    }
}

} // verus!
