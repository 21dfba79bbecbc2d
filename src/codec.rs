//! The byte layout shared by the wire and the block store.
//!
//! Integers are little endian; a byte string is its length as a `u64` and then
//! its bytes; an optional value is a tag byte, 0 for none and 1 for some, and
//! then the value. Every parser reads at a position and returns what it read
//! with the position just after it, and succeeds exactly on the encodings.
use vstd::bytes::*;
use vstd::prelude::*;
use vstd::slice::slice_subrange;
use vstd::slice::slice_to_vec;

verus! {

/// `e` occurs in `b` starting at `pos`.
pub open spec fn at(b: Seq<u8>, pos: int, e: Seq<u8>) -> bool {
    0 <= pos && pos + e.len() <= b.len() && b.subrange(pos, pos + e.len()) == e
}

/// Two pieces occur one after the other exactly when their concatenation occurs.
pub proof fn lemma_at_concat(b: Seq<u8>, pos: int, x: Seq<u8>, y: Seq<u8>)
    ensures
        at(b, pos, x + y) <==> (at(b, pos, x) && at(b, pos + x.len(), y)),
{
    if at(b, pos, x + y) {
        assert(b.subrange(pos, pos + x.len()) =~= (x + y).subrange(0, x.len() as int));
        assert((x + y).subrange(0, x.len() as int) =~= x);
        assert(b.subrange(pos + x.len(), pos + x.len() + y.len()) =~= (x + y).subrange(
            x.len() as int,
            (x.len() + y.len()) as int,
        ));
        assert((x + y).subrange(x.len() as int, (x.len() + y.len()) as int) =~= y);
    }
    if at(b, pos, x) && at(b, pos + x.len(), y) {
        assert(b.subrange(pos, pos + (x + y).len()) =~= x + y);
    }
}

pub open spec fn enc_u32(v: u32) -> Seq<u8> {
    spec_u32_to_le_bytes(v)
}

pub open spec fn enc_u64(v: u64) -> Seq<u8> {
    spec_u64_to_le_bytes(v)
}

pub open spec fn enc_u128(v: u128) -> Seq<u8> {
    spec_u128_to_le_bytes(v)
}

/// A byte string: its length, then its bytes.
pub open spec fn enc_bytes(s: Seq<u8>) -> Seq<u8> {
    enc_u64(s.len() as u64) + s
}

/// An optional byte string.
pub open spec fn enc_opt_bytes(o: Option<Seq<u8>>) -> Seq<u8> {
    match o {
        None => seq![0u8],
        Some(s) => seq![1u8] + enc_bytes(s),
    }
}

/// An optional digest.
pub open spec fn enc_opt_hash(o: Option<crate::hash::Hash>) -> Seq<u8> {
    match o {
        None => seq![0u8],
        Some(h) => seq![1u8] + h@,
    }
}

/// A byte string whose length a `u64` can hold.
pub open spec fn bytes_ok(s: Seq<u8>) -> bool {
    s.len() <= u64::MAX
}

pub open spec fn opt_bytes_ok(o: Option<Seq<u8>>) -> bool {
    match o {
        None => true,
        Some(s) => bytes_ok(s),
    }
}

pub fn write_u32(out: &mut Vec<u8>, v: u32)
    ensures
        final(out)@ == old(out)@ + enc_u32(v),
{
    let bs = u32_to_le_bytes(v);
    write_raw(out, bs.as_slice());
}

pub fn write_u64(out: &mut Vec<u8>, v: u64)
    ensures
        final(out)@ == old(out)@ + enc_u64(v),
{
    let bs = u64_to_le_bytes(v);
    write_raw(out, bs.as_slice());
}

pub fn write_u128(out: &mut Vec<u8>, v: u128)
    ensures
        final(out)@ == old(out)@ + enc_u128(v),
{
    let bs = u128_to_le_bytes(v);
    write_raw(out, bs.as_slice());
}

/// Appends bytes as they are.
pub fn write_raw(out: &mut Vec<u8>, s: &[u8])
    ensures
        final(out)@ == old(out)@ + s@,
{
    let mut i: usize = 0;
    while i < s.len()
        invariant
            i <= s@.len(),
            out@ == old(out)@ + s@.subrange(0, i as int),
        decreases s@.len() - i,
    {
        out.push(s[i]);
        i += 1;
        assert(out@ =~= old(out)@ + s@.subrange(0, i as int));
    }
    assert(s@.subrange(0, s@.len() as int) =~= s@);
}

pub fn write_bytes(out: &mut Vec<u8>, s: &[u8])
    ensures
        final(out)@ == old(out)@ + enc_bytes(s@),
        bytes_ok(s@),
{
    write_u64(out, s.len() as u64);
    write_raw(out, s);
    assert(out@ =~= old(out)@ + enc_bytes(s@));
}

pub fn write_opt_bytes(out: &mut Vec<u8>, o: Option<&[u8]>)
    ensures
        final(out)@ == old(out)@ + enc_opt_bytes(
            match o {
                None => None,
                Some(s) => Some(s@),
            },
        ),
        opt_bytes_ok(
            match o {
                None => None,
                Some(s) => Some(s@),
            },
        ),
{
    match o {
        None => {
            out.push(0u8);
            assert(out@ =~= old(out)@ + seq![0u8]);
        },
        Some(s) => {
            out.push(1u8);
            write_bytes(out, s);
            assert(out@ =~= old(out)@ + (seq![1u8] + enc_bytes(s@)));
        },
    }
}

pub fn write_opt_hash(out: &mut Vec<u8>, o: Option<crate::hash::Hash>)
    ensures
        final(out)@ == old(out)@ + enc_opt_hash(o),
{
    match o {
        None => {
            out.push(0u8);
            assert(out@ =~= old(out)@ + seq![0u8]);
        },
        Some(h) => {
            out.push(1u8);
            let v = h.to_vec();
            write_raw(out, v.as_slice());
            assert(out@ =~= old(out)@ + (seq![1u8] + h@));
        },
    }
}

pub fn parse_u8(b: &[u8], pos: usize) -> (r: Option<(u8, usize)>)
    requires
        pos <= b@.len(),
    ensures
        r matches Some((v, end)) ==> end == pos + 1 && at(b@, pos as int, seq![v]),
        forall|v: u8| at(b@, pos as int, #[trigger] seq![v]) ==> r == Some((v, (pos + 1) as usize)),
{
    if pos < b.len() {
        let v = b[pos];
        assert(b@.subrange(pos as int, pos + 1) =~= seq![v]);
        proof {
            assert forall|w: u8| at(b@, pos as int, #[trigger] seq![w]) implies w == v by {
                assert(b@.subrange(pos as int, pos + 1)[0] == w);
            }
        }
        Some((v, pos + 1))
    } else {
        proof {
            assert forall|w: u8| at(b@, pos as int, #[trigger] seq![w]) implies false by {
                assert(seq![w].len() == 1);
            }
        }
        None
    }
}

pub fn parse_u32(b: &[u8], pos: usize) -> (r: Option<(u32, usize)>)
    requires
        pos <= b@.len(),
    ensures
        r matches Some((v, end)) ==> end == pos + 4 && at(b@, pos as int, enc_u32(v)),
        forall|v: u32| at(b@, pos as int, #[trigger] enc_u32(v)) ==> r == Some((v, (pos + 4) as usize)),
{
    proof {
        lemma_auto_spec_u32_to_from_le_bytes();
    }
    if b.len() - pos < 4 {
        None
    } else {
        let s = slice_subrange(b, pos, pos + 4);
        let v = u32_from_le_bytes(s);
        Some((v, pos + 4))
    }
}

pub fn parse_u64(b: &[u8], pos: usize) -> (r: Option<(u64, usize)>)
    requires
        pos <= b@.len(),
    ensures
        r matches Some((v, end)) ==> end == pos + 8 && at(b@, pos as int, enc_u64(v)),
        forall|v: u64| at(b@, pos as int, #[trigger] enc_u64(v)) ==> r == Some((v, (pos + 8) as usize)),
{
    proof {
        lemma_auto_spec_u64_to_from_le_bytes();
    }
    if b.len() - pos < 8 {
        None
    } else {
        let s = slice_subrange(b, pos, pos + 8);
        let v = u64_from_le_bytes(s);
        Some((v, pos + 8))
    }
}

pub fn parse_u128(b: &[u8], pos: usize) -> (r: Option<(u128, usize)>)
    requires
        pos <= b@.len(),
    ensures
        r matches Some((v, end)) ==> end == pos + 16 && at(b@, pos as int, enc_u128(v)),
        forall|v: u128| at(b@, pos as int, #[trigger] enc_u128(v)) ==> r == Some((v, (pos + 16) as usize)),
{
    proof {
        lemma_auto_spec_u128_to_from_le_bytes();
    }
    if b.len() - pos < 16 {
        None
    } else {
        let s = slice_subrange(b, pos, pos + 16);
        let v = u128_from_le_bytes(s);
        Some((v, pos + 16))
    }
}

pub fn parse_hash(b: &[u8], pos: usize) -> (r: Option<(crate::hash::Hash, usize)>)
    requires
        pos <= b@.len(),
    ensures
        r matches Some((h, end)) ==> end == pos + 32 && at(b@, pos as int, h@),
        forall|h: crate::hash::Hash| at(b@, pos as int, #[trigger] h@) ==> r == Some((h, (pos + 32) as usize)),
{
    if b.len() - pos < 32 {
        proof {
            assert forall|h: crate::hash::Hash| at(b@, pos as int, #[trigger] h@) implies false by {
                assert(h@.len() == 32);
            }
        }
        None
    } else {
        let s = slice_subrange(b, pos, pos + 32);
        let h = crate::hash::Hash::from_bytes(s);
        proof {
            assert forall|g: crate::hash::Hash| at(b@, pos as int, #[trigger] g@) implies g == h by {
                crate::hash::Hash::lemma_view_injective(g, h);
            }
        }
        Some((h, pos + 32))
    }
}

pub fn parse_bytes(b: &[u8], pos: usize) -> (r: Option<(Vec<u8>, usize)>)
    requires
        pos <= b@.len(),
    ensures
        r matches Some((v, end)) ==> pos <= end <= b@.len() && end == pos + enc_bytes(v@).len()
            && at(b@, pos as int, enc_bytes(v@)) && bytes_ok(v@),
        forall|s: Seq<u8>|
            bytes_ok(s) && at(b@, pos as int, #[trigger] enc_bytes(s)) ==> (r matches Some((v, end))
                && v@ == s),
{
    proof {
        lemma_auto_spec_u64_to_from_le_bytes();
    }
    match parse_u64(b, pos) {
        None => {
            proof {
                assert forall|s: Seq<u8>|
                    bytes_ok(s) && at(b@, pos as int, #[trigger] enc_bytes(s)) implies false by {
                    lemma_at_concat(b@, pos as int, enc_u64(s.len() as u64), s);
                }
            }
            None
        },
        Some((n, p1)) => {
            if n > (b.len() - p1) as u64 {
                proof {
                    assert forall|s: Seq<u8>|
                        bytes_ok(s) && at(b@, pos as int, #[trigger] enc_bytes(s)) implies false by {
                        lemma_at_concat(b@, pos as int, enc_u64(s.len() as u64), s);
                    }
                }
                None
            } else {
                let len = n as usize;
                let v = slice_to_vec(slice_subrange(b, p1, p1 + len));
                proof {
                    lemma_at_concat(b@, pos as int, enc_u64(n), v@);
                    assert forall|s: Seq<u8>|
                        bytes_ok(s) && at(b@, pos as int, #[trigger] enc_bytes(s)) implies v@
                        == s by {
                        lemma_at_concat(b@, pos as int, enc_u64(s.len() as u64), s);
                    }
                }
                Some((v, p1 + len))
            }
        },
    }
}

} // verus!

verus! {

/// A copy of a byte vector.
pub fn copy_bytes(v: &Vec<u8>) -> (r: Vec<u8>)
    ensures
        r@ == v@,
{
    let r = v.clone();
    assert(r@ =~= v@);
    r
}

pub fn parse_opt_bytes(b: &[u8], pos: usize) -> (r: Option<(Option<Vec<u8>>, usize)>)
    requires
        pos <= b@.len(),
    ensures
        r matches Some((o, end)) ==> pos <= end <= b@.len() && at(b@, pos as int, enc_opt_bytes(opt_seq(o)))
            && end == pos + enc_opt_bytes(opt_seq(o)).len() && opt_bytes_ok(opt_seq(o)),
        forall|o: Option<Seq<u8>>|
            opt_bytes_ok(o) && at(b@, pos as int, #[trigger] enc_opt_bytes(o)) ==> (r matches Some((
                v,
                end,
            )) && opt_seq(v) == o),
{
    match parse_u8(b, pos) {
        None => {
            proof {
                assert forall|o: Option<Seq<u8>>|
                    opt_bytes_ok(o) && at(b@, pos as int, #[trigger] enc_opt_bytes(o)) implies false by {
                    match o {
                        None => {},
                        Some(s) => lemma_at_concat(b@, pos as int, seq![1u8], enc_bytes(s)),
                    }
                }
            }
            None
        },
        Some((tag, p1)) => {
            if tag == 0 {
                proof {
                    assert forall|o: Option<Seq<u8>>|
                        opt_bytes_ok(o) && at(b@, pos as int, #[trigger] enc_opt_bytes(o)) implies o
                        is None by {
                        match o {
                            None => {},
                            Some(s) => lemma_at_concat(b@, pos as int, seq![1u8], enc_bytes(s)),
                        }
                    }
                }
                Some((None, p1))
            } else if tag == 1 {
                match parse_bytes(b, p1) {
                    None => {
                        proof {
                            assert forall|o: Option<Seq<u8>>|
                                opt_bytes_ok(o) && at(b@, pos as int, #[trigger] enc_opt_bytes(o)) implies false by {
                                match o {
                                    None => {},
                                    Some(s) => lemma_at_concat(b@, pos as int, seq![1u8], enc_bytes(s)),
                                }
                            }
                        }
                        None
                    },
                    Some((v, p2)) => {
                        proof {
                            lemma_at_concat(b@, pos as int, seq![1u8], enc_bytes(v@));
                            assert forall|o: Option<Seq<u8>>|
                                opt_bytes_ok(o) && at(b@, pos as int, #[trigger] enc_opt_bytes(o)) implies o
                                == Some(v@) by {
                                match o {
                                    None => {},
                                    Some(s) => lemma_at_concat(b@, pos as int, seq![1u8], enc_bytes(s)),
                                }
                            }
                        }
                        Some((Some(v), p2))
                    },
                }
            } else {
                proof {
                    assert forall|o: Option<Seq<u8>>|
                        opt_bytes_ok(o) && at(b@, pos as int, #[trigger] enc_opt_bytes(o)) implies false by {
                        match o {
                            None => {},
                            Some(s) => lemma_at_concat(b@, pos as int, seq![1u8], enc_bytes(s)),
                        }
                    }
                }
                None
            }
        },
    }
}

/// The bytes held by an optional vector.
pub open spec fn opt_seq(o: Option<Vec<u8>>) -> Option<Seq<u8>> {
    match o {
        None => None,
        Some(v) => Some(v@),
    }
}

pub fn parse_opt_hash(b: &[u8], pos: usize) -> (r: Option<(Option<crate::hash::Hash>, usize)>)
    requires
        pos <= b@.len(),
    ensures
        r matches Some((o, end)) ==> pos <= end <= b@.len() && at(b@, pos as int, enc_opt_hash(o))
            && end == pos + enc_opt_hash(o).len(),
        forall|o: Option<crate::hash::Hash>|
            at(b@, pos as int, #[trigger] enc_opt_hash(o)) ==> (r matches Some((v, end)) && v == o),
{
    match parse_u8(b, pos) {
        None => {
            proof {
                assert forall|o: Option<crate::hash::Hash>| at(b@, pos as int, #[trigger] enc_opt_hash(o)) implies false by {
                    match o {
                        None => {},
                        Some(h) => lemma_at_concat(b@, pos as int, seq![1u8], h@),
                    }
                }
            }
            None
        },
        Some((tag, p1)) => {
            if tag == 0 {
                proof {
                    assert forall|o: Option<crate::hash::Hash>| at(b@, pos as int, #[trigger] enc_opt_hash(o)) implies o is None by {
                        match o {
                            None => {},
                            Some(h) => lemma_at_concat(b@, pos as int, seq![1u8], h@),
                        }
                    }
                }
                Some((None, p1))
            } else if tag == 1 {
                match parse_hash(b, p1) {
                    None => {
                        proof {
                            assert forall|o: Option<crate::hash::Hash>| at(b@, pos as int, #[trigger] enc_opt_hash(o)) implies false by {
                                match o {
                                    None => {},
                                    Some(h) => lemma_at_concat(b@, pos as int, seq![1u8], h@),
                                }
                            }
                        }
                        None
                    },
                    Some((h, p2)) => {
                        proof {
                            lemma_at_concat(b@, pos as int, seq![1u8], h@);
                            assert forall|o: Option<crate::hash::Hash>| at(b@, pos as int, #[trigger] enc_opt_hash(o)) implies o == Some(h) by {
                                match o {
                                    None => {},
                                    Some(g) => lemma_at_concat(b@, pos as int, seq![1u8], g@),
                                }
                            }
                        }
                        Some((Some(h), p2))
                    },
                }
            } else {
                proof {
                    assert forall|o: Option<crate::hash::Hash>| at(b@, pos as int, #[trigger] enc_opt_hash(o)) implies false by {
                        match o {
                            None => {},
                            Some(h) => lemma_at_concat(b@, pos as int, seq![1u8], h@),
                        }
                    }
                }
                None
            }
        },
    }
}

/// Two pieces of the same length at the same place are the same.
pub proof fn lemma_at_same_len(b: Seq<u8>, pos: int, x: Seq<u8>, y: Seq<u8>)
    requires
        at(b, pos, x),
        at(b, pos, y),
        x.len() == y.len(),
    ensures
        x == y,
{
}

pub proof fn lemma_u32_unique(b: Seq<u8>, pos: int, x: u32, y: u32)
    requires
        at(b, pos, enc_u32(x)),
        at(b, pos, enc_u32(y)),
    ensures
        x == y,
{
    lemma_auto_spec_u32_to_from_le_bytes();
    lemma_at_same_len(b, pos, enc_u32(x), enc_u32(y));
}

pub proof fn lemma_u64_unique(b: Seq<u8>, pos: int, x: u64, y: u64)
    requires
        at(b, pos, enc_u64(x)),
        at(b, pos, enc_u64(y)),
    ensures
        x == y,
{
    lemma_auto_spec_u64_to_from_le_bytes();
    lemma_at_same_len(b, pos, enc_u64(x), enc_u64(y));
}

pub proof fn lemma_u128_unique(b: Seq<u8>, pos: int, x: u128, y: u128)
    requires
        at(b, pos, enc_u128(x)),
        at(b, pos, enc_u128(y)),
    ensures
        x == y,
{
    lemma_auto_spec_u128_to_from_le_bytes();
    lemma_at_same_len(b, pos, enc_u128(x), enc_u128(y));
}

pub proof fn lemma_bytes_unique(b: Seq<u8>, pos: int, x: Seq<u8>, y: Seq<u8>)
    requires
        bytes_ok(x),
        bytes_ok(y),
        at(b, pos, enc_bytes(x)),
        at(b, pos, enc_bytes(y)),
    ensures
        x == y,
{
    lemma_auto_spec_u64_to_from_le_bytes();
    lemma_at_concat(b, pos, enc_u64(x.len() as u64), x);
    lemma_at_concat(b, pos, enc_u64(y.len() as u64), y);
    lemma_u64_unique(b, pos, x.len() as u64, y.len() as u64);
    lemma_at_same_len(b, pos + 8, x, y);
}

pub proof fn lemma_opt_bytes_unique(b: Seq<u8>, pos: int, x: Option<Seq<u8>>, y: Option<Seq<u8>>)
    requires
        opt_bytes_ok(x),
        opt_bytes_ok(y),
        at(b, pos, enc_opt_bytes(x)),
        at(b, pos, enc_opt_bytes(y)),
    ensures
        x == y,
{
    assert(enc_opt_bytes(x)[0] == b[pos]);
    assert(enc_opt_bytes(y)[0] == b[pos]);
    if let (Some(s), Some(t)) = (x, y) {
        lemma_at_concat(b, pos, seq![1u8], enc_bytes(s));
        lemma_at_concat(b, pos, seq![1u8], enc_bytes(t));
        lemma_bytes_unique(b, pos + 1, s, t);
    }
}

pub proof fn lemma_opt_hash_unique(b: Seq<u8>, pos: int, x: Option<crate::hash::Hash>, y: Option<crate::hash::Hash>)
    requires
        at(b, pos, enc_opt_hash(x)),
        at(b, pos, enc_opt_hash(y)),
    ensures
        x == y,
{
    assert(enc_opt_hash(x)[0] == b[pos]);
    assert(enc_opt_hash(y)[0] == b[pos]);
    if let (Some(g), Some(h)) = (x, y) {
        lemma_at_concat(b, pos, seq![1u8], g@);
        lemma_at_concat(b, pos, seq![1u8], h@);
        lemma_at_same_len(b, pos + 1, g@, h@);
        crate::hash::Hash::lemma_view_injective(g, h);
    }
}

} // verus!
