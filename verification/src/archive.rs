use vstd::prelude::*;

use crate::errors::SlicerError;

verus! {

/// One signal from the container transport: an entry opens, a piece of its
/// payload arrives, the entry is complete, or the stream is corrupt.
#[derive(Debug, Clone)]
pub enum ArchiveEvent {
    StartOfEntry,
    DataChunk(Vec<u8>),
    EndOfEntry,
    Failure(String),
}

/// Append the bytes of `src` to `dst`.
pub fn extend_bytes(dst: &mut Vec<u8>, src: &Vec<u8>)
    ensures
        final(dst)@ == old(dst)@ + src@,
{
    let mut i: usize = 0;
    while i < src.len()
        invariant
            i <= src.len(),
            dst@ == old(dst)@ + src@.take(i as int),
        decreases src.len() - i,
    {
        dst.push(src[i]);
        proof {
            assert(old(dst)@ + src@.take(i as int + 1) =~= (old(dst)@ + src@.take(i as int)).push(
                src@[i as int],
            ));
        }
        i = i + 1;
    }
    proof {
        assert(old(dst)@ + src@.take(src@.len() as int) =~= old(dst)@ + src@);
    }
}

/// A copy of the bytes of `v`.
pub fn copy_bytes(v: &Vec<u8>) -> (res: Vec<u8>)
    ensures
        res@ == v@,
{
    let mut res: Vec<u8> = Vec::new();
    extend_bytes(&mut res, v);
    proof {
        assert(Seq::<u8>::empty() + v@ =~= v@);
    }
    res
}

/// The accumulating decoder state: bytes of the entry under way. A payload
/// may arrive in arbitrary-sized pieces; a buffer is complete only when the
/// end-of-entry boundary is observed.
pub struct ArchiveFileIterator {
    buffer: Vec<u8>,
}

impl ArchiveFileIterator {
    /// The bytes accumulated for the entry under way.
    pub closed spec fn contents(self) -> Seq<u8> {
        self.buffer@
    }

    pub fn new() -> (res: Self)
        ensures
            res.contents() == Seq::<u8>::empty(),
    {
        ArchiveFileIterator { buffer: Vec::new() }
    }

    /// Feed one transport signal: an opening entry clears the buffer, a
    /// piece extends it, the boundary yields the completed buffer, and a
    /// corrupt stream yields the archive error that aborts the run.
    pub fn next(&mut self, context: &ArchiveEvent) -> (res: Option<Result<Vec<u8>, SlicerError>>)
        ensures
            match context {
                ArchiveEvent::StartOfEntry => res is None && final(self).contents()
                    == Seq::<u8>::empty(),
                ArchiveEvent::DataChunk(b) => res is None && final(self).contents() == old(
                    self,
                ).contents() + b@,
                ArchiveEvent::EndOfEntry => final(self).contents() == old(self).contents() && (
                res matches Some(r2) && r2 is Ok && r2->Ok_0@ == old(self).contents()),
                ArchiveEvent::Failure(m) => final(self).contents() == old(self).contents() && (
                res matches Some(r2) && r2 is Err && r2->Err_0 is ArchiveError
                    && r2->Err_0.spec_detail() == m@),
            },
    {
        match context {
            ArchiveEvent::StartOfEntry => {
                self.buffer.clear();
                None
            },
            ArchiveEvent::DataChunk(b) => {
                extend_bytes(&mut self.buffer, b);
                None
            },
            ArchiveEvent::EndOfEntry => Some(Ok(copy_bytes(&self.buffer))),
            ArchiveEvent::Failure(m) => Some(Err(SlicerError::ArchiveError(m.clone()))),
        }
    }
}

/// The buffers that a finite event sequence completes, starting from an
/// open buffer `buf` and the already-completed `done`; or the message of
/// the corruption that stops the stream.
pub open spec fn entries_of(events: Seq<ArchiveEvent>, buf: Seq<u8>, done: Seq<Seq<u8>>) -> Result<
    Seq<Seq<u8>>,
    Seq<char>,
>
    decreases events.len(),
{
    if events.len() == 0 {
        Ok(done)
    } else {
        match events.first() {
            ArchiveEvent::StartOfEntry => entries_of(events.drop_first(), Seq::empty(), done),
            ArchiveEvent::DataChunk(b) => entries_of(events.drop_first(), buf + b@, done),
            ArchiveEvent::EndOfEntry => entries_of(events.drop_first(), buf, done.push(buf)),
            ArchiveEvent::Failure(m) => Err(m@),
        }
    }
}

/// Run the decoder over a whole event sequence: one complete buffer per
/// entry whose boundary was observed, or the archive error of a corrupt
/// stream, with nothing recovered past it.
pub fn collect_entries(events: &Vec<ArchiveEvent>) -> (res: Result<Vec<Vec<u8>>, SlicerError>)
    ensures
        match entries_of(events@, Seq::<u8>::empty(), Seq::<Seq<u8>>::empty()) {
            Ok(bufs) => res is Ok && res->Ok_0@.map_values(|b: Vec<u8>| b@) == bufs,
            Err(m) => res is Err && res->Err_0 is ArchiveError && res->Err_0.spec_detail() == m,
        },
{
    let mut it = ArchiveFileIterator::new();
    let mut out: Vec<Vec<u8>> = Vec::new();
    let mut i: usize = 0;
    proof {
        assert(events@.skip(0) =~= events@);
        assert(out@.map_values(|b: Vec<u8>| b@) =~= Seq::<Seq<u8>>::empty());
    }
    while i < events.len()
        invariant
            i <= events.len(),
            entries_of(events@, Seq::<u8>::empty(), Seq::<Seq<u8>>::empty()) == entries_of(
                events@.skip(i as int),
                it.contents(),
                out@.map_values(|b: Vec<u8>| b@),
            ),
        decreases events.len() - i,
    {
        proof {
            assert(events@.skip(i as int).first() == events@[i as int]);
            assert(events@.skip(i as int).drop_first() =~= events@.skip(i as int + 1));
        }
        let ghost done_pre = out@.map_values(|b: Vec<u8>| b@);
        match it.next(&events[i]) {
            None => {},
            Some(completed) => {
                match completed {
                    Ok(buf) => {
                        out.push(buf);
                        proof {
                            assert(out@.map_values(|b: Vec<u8>| b@) =~= done_pre.push(
                                it.contents(),
                            ));
                        }
                    },
                    Err(e) => {
                        return Err(e);
                    },
                }
            },
        }
        i = i + 1;
    }
    proof {
        assert(events@.skip(events@.len() as int) =~= Seq::<ArchiveEvent>::empty());
    }
    Ok(out)
}

} // verus!
