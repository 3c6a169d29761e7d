//! Runs of bytes.
use vstd::prelude::*;

verus! {

/// The position of the first zero byte, or the length if there is none.
pub open spec fn zero_at(buf: Seq<u8>) -> nat
    decreases buf.len(),
{
    if buf.len() == 0 || buf[0] == 0 {
        0
    } else {
        1 + zero_at(buf.skip(1))
    }
}

/// The first zero byte is no further than the end.
pub proof fn lemma_zero_at(buf: Seq<u8>)
    ensures
        zero_at(buf) <= buf.len(),
    decreases buf.len(),
{
    if buf.len() > 0 && buf[0] != 0 {
        lemma_zero_at(buf.skip(1));
    }
}

/// Some of the bytes.
pub fn bytes_of(buf: &[u8], from: usize, to: usize) -> (r: Vec<u8>)
    requires
        from <= to <= buf.len(),
    ensures
        r@ == buf@.subrange(from as int, to as int),
{
    let mut r: Vec<u8> = Vec::new();
    let mut i: usize = from;
    while i < to
        invariant
            from <= i <= to <= buf.len(),
            r@ == buf@.subrange(from as int, i as int),
        decreases to - i,
    {
        r.push(buf[i]);
        i += 1;
        assert(r@ =~= buf@.subrange(from as int, i as int));
    }
    r
}

/// The first zero byte from `from` on, or the length if there is none.
pub fn find_zero(buf: &[u8], from: usize) -> (r: usize)
    requires
        from <= buf.len(),
    ensures
        from <= r <= buf.len(),
        r == from + zero_at(buf@.skip(from as int)),
        r < buf.len() ==> buf@[r as int] == 0,
{
    let mut pos: usize = from;
    while pos < buf.len() && buf[pos] != 0
        invariant
            from <= pos <= buf.len(),
            from + zero_at(buf@.skip(from as int)) == pos + zero_at(buf@.skip(pos as int)),
        decreases buf.len() - pos,
    {
        assert(buf@.skip(pos as int)[0] == buf@[pos as int]);
        assert(buf@.skip(pos as int).skip(1) =~= buf@.skip(pos + 1));
        pos += 1;
    }
    proof {
        if pos < buf.len() {
            assert(buf@.skip(pos as int)[0] == buf@[pos as int]);
        }
    }
    pos
}

} // verus!
