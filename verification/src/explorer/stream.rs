//! Draining a stream, shared by both handlers.

use vstd::prelude::*;

verus! {

/// Largest document either handler will read.
///
/// Neither a thumbnail nor a preview is the place to page in an arbitrarily
/// large file.
pub const MAX_DOCUMENT: usize = 67_108_864;

/// How much to ask for per read.
pub const CHUNK: usize = 65_536;

/// What follows one read of a stream.
#[derive(Debug, Clone, Copy, PartialEq, Eq, Structural)]
pub enum Drained {
    /// There may be more: read again.
    More,
    /// The stream is at its end.
    Done,
    /// The document is larger than either handler will read.
    TooLarge,
}

/// Take up what one read of a stream put at the front of `chunk`.
///
/// Reading in a loop rather than asking for a size first: a stream is not
/// required to be seekable.
pub fn accept(out: &mut Vec<u8>, chunk: &[u8], read: usize) -> (r: Drained)
    requires
        read <= chunk@.len(),
        old(out)@.len() <= MAX_DOCUMENT,
    ensures
        final(out)@.len() <= MAX_DOCUMENT,
        if read == 0 {
            r == Drained::Done && final(out)@ == old(out)@
        } else if old(out)@.len() + read > MAX_DOCUMENT {
            r == Drained::TooLarge && final(out)@ == old(out)@
        } else {
            r == Drained::More && final(out)@ == old(out)@ + chunk@.take(read as int)
        },
{
    if read == 0 {
        return Drained::Done;
    }
    if read > MAX_DOCUMENT - out.len() {
        return Drained::TooLarge;
    }
    let ghost before = out@;
    let mut i: usize = 0;
    assert(out@ =~= before + chunk@.take(0));
    while i < read
        invariant
            i <= read <= chunk@.len(),
            out@ == before + chunk@.take(i as int),
        decreases read - i,
    {
        out.push(chunk[i]);
        i = i + 1;
        assert(chunk@.take(i as int) =~= chunk@.take(i - 1).push(chunk@[i - 1]));
        assert(out@ =~= before + chunk@.take(i as int));
    }
    Drained::More
}

/// What a stream holds, read by read: the reads up to the first empty one,
/// one after another.
pub open spec fn contents(reads: Seq<Seq<u8>>, i: int) -> Seq<u8>
    decreases reads.len() - i,
{
    if i >= reads.len() || reads[i].len() == 0 {
        seq![]
    } else {
        reads[i] + contents(reads, i + 1)
    }
}

/// Drain a stream that gives these reads, the end of the list being its end.
/// A stream holding more than either handler will read is refused.
pub fn read_all(reads: &Vec<Vec<u8>>) -> (r: Option<Vec<u8>>)
    ensures
        ({
            let all = contents(reads@.map_values(|v: Vec<u8>| v@), 0);
            match r {
                Some(out) => all.len() <= MAX_DOCUMENT && out@ == all,
                None => all.len() > MAX_DOCUMENT,
            }
        }),
{
    let ghost views = reads@.map_values(|v: Vec<u8>| v@);
    let ghost all = contents(views, 0);
    let mut out: Vec<u8> = Vec::new();
    let mut i: usize = 0;
    assert(out@ + contents(views, 0) =~= all);
    while i < reads.len()
        invariant
            i <= reads@.len(),
            views == reads@.map_values(|v: Vec<u8>| v@),
            all == contents(views, 0),
            out@.len() <= MAX_DOCUMENT,
            out@ + contents(views, i as int) == all,
        decreases reads@.len() - i,
    {
        let chunk = &reads[i];
        assert(views[i as int] == chunk@);
        let ghost before = out@;
        let ghost rest = contents(views, i as int);
        match accept(&mut out, chunk.as_slice(), chunk.len()) {
            Drained::More => {
                assert(chunk@.take(chunk@.len() as int) =~= chunk@);
                assert(before + rest =~= out@ + contents(views, i + 1));
            },
            Drained::Done => {
                assert(out@ + rest =~= out@);
                return Some(out);
            },
            Drained::TooLarge => {
                assert(all.len() == before.len() + rest.len());
                assert(rest.len() >= chunk@.len());
                return None;
            },
        }
        i = i + 1;
    }
    assert(out@ + contents(views, i as int) =~= out@);
    Some(out)
}

/// What a stream holds is every read up to the first that is empty, one after
/// the other.
pub proof fn lemma_contents_end_at_an_empty_read(reads: Seq<Seq<u8>>, i: int) -> (n: int)
    requires
        0 <= i <= reads.len(),
    ensures
        i <= n <= reads.len(),
        contents(reads, i) == reads.subrange(i, n).flatten(),
        forall|k: int| i <= k < n ==> (#[trigger] reads[k]).len() > 0,
        n < reads.len() ==> reads[n].len() == 0,
    decreases reads.len() - i,
{
    if i >= reads.len() || reads[i].len() == 0 {
        assert(reads.subrange(i, i) =~= seq![]);
        i
    } else {
        let n = lemma_contents_end_at_an_empty_read(reads, i + 1);
        let own = reads.subrange(i, n);
        assert(own.drop_first() =~= reads.subrange(i + 1, n));
        assert(own.first() == reads[i]);
        n
    }
}

} // verus!
