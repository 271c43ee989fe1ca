//! The demuxer: finds the movie box, compiles each track's sample index, and
//! hands out samples of all tracks in time order.
use vstd::prelude::*;

use crate::bridge::{codec_params_of, codec_params_ok, CodecParams};
use crate::containers::{moov_ok, moov_parsed, MovieBox, TrackBox};
use crate::error::{Mp4BoxError, Mp4MuxerError};
use crate::framing::{header_result, rest, BoxPrint, Boks, MOOV, STSD};
use crate::index::{expanded_chunks, opt_view, stts_total, tables_valid, SampleRef, Track};

verus! {

/// What the cursor of `t` reports.
pub open spec fn current_of(t: Track) -> Option<SampleRef> {
    let n = t.current_sample as nat;
    if n < t.sample_count {
        Some(t.expected_sample(n))
    } else {
        None
    }
}

/// Sample `s` of track `i` comes no later than whatever track `j` reports:
/// earlier in time, or at the same time from a track that is not after it.
pub open spec fn comes_first(i: int, s: SampleRef, j: int, o: Option<SampleRef>) -> bool {
    match o {
        None => true,
        Some(q) => s.time < q.time || (s.time == q.time && i <= j),
    }
}

/// The demuxer's state: one track, with its cursor, per track of the movie.
pub struct Mp4Demuxer {
    pub tracks: Vec<Track>,
}

impl Mp4Demuxer {
    pub open spec fn wf(&self) -> bool {
        forall|i: int| 0 <= i < self.tracks@.len() ==> #[trigger] self.tracks@[i].wf()
    }

    pub fn new() -> (r: Self)
        ensures
            r.tracks@.len() == 0,
    {
        Mp4Demuxer { tracks: Vec::new() }
    }

    /// Picks the track whose current sample has the smallest time, the
    /// lowest track index among equal times, moves its cursor on, and returns
    /// the track index with the sample; `None` where no track has a sample
    /// left.
    pub fn next_sample(&mut self) -> (r: Option<(usize, SampleRef)>)
        requires
            old(self).wf(),
        ensures
            final(self).wf(),
            final(self).tracks@.len() == old(self).tracks@.len(),
            match r {
                None => {
                    &&& forall|j: int|
                        0 <= j < old(self).tracks@.len() ==> current_of(
                            #[trigger] old(self).tracks@[j],
                        ) is None
                    &&& final(self).tracks@ == old(self).tracks@
                },
                Some((i, s)) => {
                    &&& i < old(self).tracks@.len()
                    &&& current_of(old(self).tracks@[i as int]) == Some(s)
                    &&& forall|j: int|
                        0 <= j < old(self).tracks@.len() ==> comes_first(
                            i as int,
                            s,
                            j,
                            current_of(#[trigger] old(self).tracks@[j]),
                        )
                    &&& final(self).tracks@[i as int].same_tables(&old(self).tracks@[i as int])
                    &&& final(self).tracks@[i as int].current_sample == old(self).tracks@[i as int].current_sample + 1
                    &&& forall|j: int|
                        0 <= j < old(self).tracks@.len() && j != i ==> #[trigger] final(self).tracks@[j] == old(self).tracks@[j]
                },
            },
    {
        let mut best: Option<(usize, SampleRef)> = None;
        let mut i: usize = 0;
        while i < self.tracks.len()
            invariant
                self.wf(),
                i <= self.tracks@.len(),
                self.tracks@ == old(self).tracks@,
                match best {
                    None => forall|j: int| 0 <= j < i ==> current_of(#[trigger] self.tracks@[j]) is None,
                    Some((b, s)) => {
                        &&& b < i
                        &&& current_of(self.tracks@[b as int]) == Some(s)
                        &&& forall|j: int|
                            0 <= j < i ==> comes_first(
                                b as int,
                                s,
                                j,
                                current_of(#[trigger] self.tracks@[j]),
                            )
                    },
                },
            decreases self.tracks@.len() - i,
        {
            assert(self.tracks@[i as int].wf());
            let cur = self.tracks[i].current_sample();
            match cur {
                None => {},
                Some(s) => {
                    let better = match best {
                        None => true,
                        Some((_, b)) => s.time < b.time,
                    };
                    if better {
                        best = Some((i, s));
                    }
                },
            }
            i = i + 1;
        }
        match best {
            None => None,
            Some((b, s)) => {
                assert(self.tracks@[b as int].wf());
                self.tracks[b].advance_sample();
                Some((b, s))
            },
        }
    }
}

/// Track `i` holds the sample that comes first: the earliest, the lowest
/// track index among equal times.
pub open spec fn chosen(tracks: Seq<Track>, i: int) -> bool {
    &&& 0 <= i < tracks.len()
    &&& current_of(tracks[i]) is Some
    &&& forall|j: int|
        0 <= j < tracks.len() ==> comes_first(
            i,
            current_of(tracks[i])->Some_0,
            j,
            current_of(#[trigger] tracks[j]),
        )
}

/// Track `i` moved on one sample, the others are unchanged.
pub open spec fn advanced(old_tracks: Seq<Track>, new_tracks: Seq<Track>, i: int) -> bool {
    &&& new_tracks.len() == old_tracks.len()
    &&& new_tracks[i].same_tables(&old_tracks[i])
    &&& new_tracks[i].current_sample == old_tracks[i].current_sample + 1
    &&& forall|j: int| 0 <= j < old_tracks.len() && j != i ==> #[trigger] new_tracks[j] == old_tracks[j]
}

/// The bytes of the sample lie within the file.
pub open spec fn in_file(s: SampleRef, file: Seq<u8>) -> bool {
    s.data_offset + s.data_length <= file.len()
}

/// `p` is sample `s` of track `i`, with its bytes from the file.
pub open spec fn packet_of(p: Packet, i: int, s: SampleRef, file: Seq<u8>) -> bool {
    &&& p.stream_index == i
    &&& p.time == s.time
    &&& p.duration == s.duration
    &&& p.is_key == s.keyframe
    &&& p.data@ == file.subrange(s.data_offset as int, s.data_offset + s.data_length)
}

/// `tracks` are the tracks compiled from the parsed tracks `traks`, in
/// order: those that compile, each at its position among them.
pub open spec fn compiled(traks: Seq<TrackBox>, tracks: Seq<Track>) -> bool
    decreases traks.len(),
{
    if traks.len() == 0 {
        tracks.len() == 0
    } else if trak_valid(traks.last()) {
        &&& tracks.len() > 0
        &&& track_of((tracks.len() - 1) as usize, traks.last(), tracks.last())
        &&& compiled(traks.drop_last(), tracks.drop_last())
    } else {
        compiled(traks.drop_last(), tracks)
    }
}

/// What to do at a top-level box while looking for the movie box.
#[derive(Debug, Clone, Copy, PartialEq, Eq, Structural)]
pub enum ScanStep {
    /// The box is the movie box, of this total size: read it.
    ReadMoov(u64),
    /// Another box: go on at this position, just after it.
    SkipTo(u64),
}

/// Decides, from the bytes `head` at position `pos` of a file (at least the
/// box header), whether that box is the movie box or where the next box
/// starts; fails where no header can be read or the next position does not
/// fit in 64 bits.
pub fn scan_step(head: &[u8], pos: u64) -> (r: Result<ScanStep, Mp4BoxError>)
    ensures
        match header_result(head@) {
            Err(e) => r == Err::<ScanStep, _>(e),
            Ok(h) => if h.0 == MOOV {
                r == Ok::<_, Mp4BoxError>(ScanStep::ReadMoov(h.1))
            } else if pos + h.1 <= u64::MAX {
                r == Ok::<_, Mp4BoxError>(ScanStep::SkipTo((pos + h.1) as u64))
            } else {
                r == Err::<ScanStep, _>(Mp4BoxError::UnexpectedEos)
            },
        },
{
    assert(rest(head@, 0) =~= head@);
    let b = Boks::peek(head, 0)?;
    if b.name == MOOV {
        Ok(ScanStep::ReadMoov(b.size))
    } else if b.size <= u64::MAX - pos {
        Ok(ScanStep::SkipTo(pos + b.size))
    } else {
        Err(Mp4BoxError::UnexpectedEos)
    }
}

/// Scanning the top-level boxes of `d` from `p` for the movie box: its
/// position, or the error that ends the scan (a header that cannot be read,
/// or no movie box before the end).
pub open spec fn scan_moov(d: Seq<u8>, p: int) -> Result<int, Mp4BoxError>
    decreases d.len() - p,
{
    if p < 0 || p >= d.len() {
        Err(Mp4BoxError::RequiredBoxNotFound(BoxPrint(MOOV)))
    } else {
        match header_result(rest(d, p)) {
            Err(e) => Err(e),
            Ok(h) => if h.0 == MOOV {
                Ok(p)
            } else if h.1 > d.len() - p {
                Err(Mp4BoxError::RequiredBoxNotFound(BoxPrint(MOOV)))
            } else {
                scan_moov(d, p + h.1)
            },
        }
    }
}

/// `tracks` are compiled from the movie box read at `p` of `d`.
pub open spec fn movie_read(d: Seq<u8>, p: int, tracks: Seq<Track>) -> bool {
    exists|m: MovieBox| #[trigger] moov_parsed(d, p, m) && compiled(m.tracks@, tracks)
}

/// A stream as a host sees it.
pub struct StreamInfo {
    pub id: u32,
    pub index: usize,
    /// The time base as numerator and denominator: one tick is
    /// `num / den` seconds.
    pub timebase: (i64, i64),
    pub duration: Option<u64>,
    pub params: CodecParams,
}

/// `s` is the stream of track `t`: its time base is one tick of the track's
/// timescale, and its parameters are those of the track's sample entry.
pub open spec fn stream_of(t: Track, s: StreamInfo) -> bool {
    &&& s.id == t.id
    &&& s.index == t.index
    &&& s.timebase == (1i64, t.timescale as i64)
    &&& s.duration == Some(t.duration)
    &&& codec_params_of(t.sample_entry, Ok(s.params))
}

/// A sample read out of a file, for the host.
pub struct Packet {
    pub stream_index: usize,
    pub data: Vec<u8>,
    /// The decode and presentation time, in the track's timescale.
    pub time: u64,
    pub duration: u32,
    pub is_key: bool,
}

/// The sync samples of a parsed track, where it has a sync sample table.
pub open spec fn trak_sync(trak: TrackBox) -> Option<Seq<u32>> {
    match trak.mdia.minf.stbl.stss {
        Some(s) => Some(s.sync_samples@),
        None => None,
    }
}

/// A parsed track that compiles: it has a sample entry and valid tables.
pub open spec fn trak_valid(trak: TrackBox) -> bool {
    let stbl = trak.mdia.minf.stbl;
    &&& stbl.stsd.entries@.len() > 0
    &&& tables_valid(
        stbl.stts.entries@,
        stbl.stsc.entries@,
        stbl.chunk_offsets.spec_offsets(),
        stbl.stsz.sample_sizes,
        trak_sync(trak),
    )
}

/// `t` is the track compiled from `trak`, at stream index `index`, with its
/// cursor on the first sample.
pub open spec fn track_of(index: usize, trak: TrackBox, t: Track) -> bool {
    let stbl = trak.mdia.minf.stbl;
    &&& t.wf()
    &&& t.current_sample == 0
    &&& t.index == index
    &&& t.id == trak.tkhd.track_id
    &&& t.timescale == trak.mdia.mdhd.timescale
    &&& t.duration == trak.mdia.mdhd.duration
    &&& t.sample_entry == stbl.stsd.entries@[0]
    &&& t.stts@ == stbl.stts.entries@
    &&& t.chunk_samples@ == expanded_chunks(
        stbl.stsc.entries@,
        stbl.chunk_offsets.spec_offsets().len(),
    )
    &&& t.chunk_offsets@ == stbl.chunk_offsets.spec_offsets()
    &&& t.sizes == stbl.stsz.sample_sizes
    &&& t.sync_view() == trak_sync(trak)
    &&& t.sample_count == stts_total(stbl.stts.entries@)
}

impl Track {
    /// Compiles a parsed track box: the first sample entry, the media
    /// timescale and duration, and the sample tables; fails
    /// where the track has no sample entry or its tables are not valid.
    pub fn from_trak(index: usize, trak: TrackBox) -> (r: Result<Track, Mp4BoxError>)
        ensures
            r is Ok <==> trak_valid(trak),
            r is Ok ==> track_of(index, trak, r->Ok_0),
            r is Err && trak.mdia.minf.stbl.stsd.entries@.len() == 0 ==> r->Err_0
                == Mp4BoxError::NotEnoughBoxes(BoxPrint(STSD), 1, 0),
            r is Err && trak.mdia.minf.stbl.stsd.entries@.len() > 0 ==> r->Err_0
                == Mp4BoxError::InvalidSampleTable,
    {
        let track_id = trak.tkhd.track_id;
        let duration = trak.mdia.mdhd.duration;
        let timescale = trak.mdia.mdhd.timescale;
        let stbl = trak.mdia.minf.stbl;
        let mut entries = stbl.stsd.entries;
        if entries.len() == 0 {
            return Err(Mp4BoxError::NotEnoughBoxes(BoxPrint(STSD), 1, 0));
        }
        let sample_entry = entries.remove(0);
        let offsets = stbl.chunk_offsets.to_vec();
        let sync = match stbl.stss {
            Some(s) => Some(s.sync_samples),
            None => None,
        };
        proof {
            assert(opt_view(sync) == match trak.mdia.minf.stbl.stss {
                Some(s) => Some(s.sync_samples@),
                None => None::<Seq<u32>>,
            });
        }
        Track::from_tables(
            track_id,
            index,
            timescale,
            duration,
            stbl.stts.entries.as_slice(),
            stbl.stsc.entries.as_slice(),
            offsets,
            stbl.stsz.sample_sizes,
            sync,
            sample_entry,
        )
    }

    /// The track as a stream: its time base is one tick of its timescale.
    pub fn as_stream(&self) -> (r: Result<StreamInfo, Mp4MuxerError>)
        ensures
            r is Ok <==> codec_params_ok(self.sample_entry),
            r is Ok ==> stream_of(*self, r->Ok_0),
            r is Err ==> codec_params_of(self.sample_entry, Err(r->Err_0)),
            r is Ok ==> {
                &&& r->Ok_0.id == self.id
                &&& r->Ok_0.index == self.index
                &&& r->Ok_0.timebase == (1i64, self.timescale as i64)
                &&& r->Ok_0.duration == Some(self.duration)
            },
    {
        let params = self.sample_entry.as_codec_params()?;
        Ok(StreamInfo {
            id: self.id,
            index: self.index,
            timebase: (1, self.timescale as i64),
            duration: Some(self.duration),
            params,
        })
    }
}

impl Mp4Demuxer {
    /// Parses the movie box at `pos` and compiles its tracks; a track whose
    /// tables cannot be compiled is left out.
    pub fn read_moov(&mut self, data: &[u8], pos: usize) -> (r: Result<(), Mp4BoxError>)
        requires
            old(self).wf(),
            pos <= data@.len(),
        ensures
            final(self).wf(),
            r is Ok <==> moov_ok(data@, pos as int),
            r is Ok ==> movie_read(data@, pos as int, final(self).tracks@),
            r is Err ==> final(self).tracks@ == old(self).tracks@,
    {
        let mut p = pos;
        let moov = MovieBox::read(data, &mut p)?;
        let ghost parsed = moov;
        let ghost all = moov.tracks@;
        let mut tracks: Vec<Track> = Vec::new();
        let mut traks = moov.tracks;
        let nn = traks.len();
        let ghost n = traks@.len();
        let mut i: usize = 0;
        assert(all.subrange(0, 0) =~= Seq::<TrackBox>::empty());
        while traks.len() > 0
            invariant
                n == all.len(),
                nn == n,
                i <= n,
                traks@ == all.subrange(i as int, n as int),
                forall|j: int| 0 <= j < tracks@.len() ==> #[trigger] tracks@[j].wf(),
                compiled(all.subrange(0, i as int), tracks@),
            decreases traks@.len(),
        {
            let t = traks.remove(0);
            let ghost tr = t;
            assert(tr == all[i as int]);
            assert(traks@ =~= all.subrange(i + 1, n as int));
            let ghost before = tracks@;
            let index = tracks.len();
            match Track::from_trak(index, t) {
                Ok(track) => tracks.push(track),
                Err(_) => {},
            }
            proof {
                let pre = all.subrange(0, i + 1);
                assert(pre.drop_last() =~= all.subrange(0, i as int));
                assert(pre.last() == tr);
                if trak_valid(tr) {
                    assert(tracks@.drop_last() =~= before);
                }
            }
            i = i + 1;
        }
        assert(all.subrange(0, n as int) =~= all);
        self.tracks = tracks;
        assert(compiled(parsed.tracks@, self.tracks@));
        assert(moov_parsed(data@, pos as int, parsed));
        Ok(())
    }

    /// Scans the top-level boxes of a file from its start, skipping each,
    /// until the movie box, which it reads; fails where there is none.
    pub fn read_headers(&mut self, file: &[u8]) -> (r: Result<(), Mp4BoxError>)
        requires
            old(self).wf(),
        ensures
            final(self).wf(),
            match scan_moov(file@, 0) {
                Err(e) => r == Err::<(), _>(e),
                Ok(p) => {
                    &&& r is Ok <==> moov_ok(file@, p)
                    &&& r is Ok ==> movie_read(file@, p, final(self).tracks@)
                },
            },
            r is Err ==> final(self).tracks@ == old(self).tracks@,
    {
        let mut pos: usize = 0;
        while pos < file.len()
            invariant
                self.tracks@ == old(self).tracks@,
                self.wf(),
                pos <= file@.len(),
                scan_moov(file@, 0) == scan_moov(file@, pos as int),
            decreases file@.len() - pos,
        {
            let b = Boks::peek(file, pos)?;
            if b.name == MOOV {
                let r = self.read_moov(file, pos);
                return r;
            }
            if b.size > (file.len() - pos) as u64 {
                assert(scan_moov(file@, pos as int) == Err::<int, _>(Mp4BoxError::RequiredBoxNotFound(BoxPrint(MOOV))));
                return Err(Mp4BoxError::RequiredBoxNotFound(BoxPrint(MOOV)));
            }
            pos = pos + b.size as usize;
        }
        assert(scan_moov(file@, pos as int) == Err::<int, _>(Mp4BoxError::RequiredBoxNotFound(BoxPrint(MOOV))));
        Err(Mp4BoxError::RequiredBoxNotFound(BoxPrint(MOOV)))
    }

    /// The bytes of a sample.
    pub fn read_sample(file: &[u8], sample: &SampleRef) -> (r: Result<Vec<u8>, Mp4BoxError>)
        ensures
            r is Ok <==> sample.data_offset + sample.data_length <= file@.len(),
            r is Ok ==> r->Ok_0@ == file@.subrange(
                sample.data_offset as int,
                sample.data_offset + sample.data_length,
            ),
            r is Err ==> r->Err_0 == Mp4BoxError::UnexpectedEos,
    {
        if sample.data_offset > file.len() as u64 {
            return Err(Mp4BoxError::UnexpectedEos);
        }
        let mut p = sample.data_offset as usize;
        crate::bytes::read_bytes(file, &mut p, sample.data_length as usize)
    }

    /// The next packet in time order across the tracks (see `next_sample`),
    /// with its bytes from the file; `None` after the last.
    pub fn read_next_event(&mut self, file: &[u8]) -> (r: Result<Option<Packet>, Mp4BoxError>)
        requires
            old(self).wf(),
        ensures
            final(self).wf(),
            final(self).tracks@.len() == old(self).tracks@.len(),
            (forall|j: int|
                0 <= j < old(self).tracks@.len() ==> current_of(#[trigger] old(self).tracks@[j])
                    is None) ==> r is Ok && r->Ok_0 is None && final(self).tracks@ == old(
                self,
            ).tracks@,
            r is Ok && r->Ok_0 is None ==> forall|j: int|
                0 <= j < old(self).tracks@.len() ==> current_of(#[trigger] old(self).tracks@[j])
                    is None,
            (exists|j: int| 0 <= j < old(self).tracks@.len() && current_of(#[trigger] old(self).tracks@[j]) is Some)
                ==> exists|i: int| #[trigger] chosen(old(self).tracks@, i) && {
                let s = current_of(old(self).tracks@[i])->Some_0;
                &&& advanced(old(self).tracks@, final(self).tracks@, i)
                &&& (in_file(s, file@) ==> r is Ok && r->Ok_0 is Some && packet_of(
                    r->Ok_0->Some_0,
                    i,
                    s,
                    file@,
                ))
                &&& (!in_file(s, file@) ==> r == Err::<Option<Packet>, _>(
                    Mp4BoxError::UnexpectedEos,
                ))
            },
    {
        match self.next_sample() {
            None => Ok(None),
            Some((i, s)) => {
                assert(chosen(old(self).tracks@, i as int));
                assert(advanced(old(self).tracks@, self.tracks@, i as int));
                let data = Mp4Demuxer::read_sample(file, &s)?;
                Ok(
                    Some(
                        Packet {
                            stream_index: i,
                            data,
                            time: s.time,
                            duration: s.duration,
                            is_key: s.keyframe,
                        },
                    ),
                )
            },
        }
    }

    /// The streams of the tracks, in order.
    pub fn streams(&self) -> (r: Result<Vec<StreamInfo>, Mp4MuxerError>)
        ensures
            r is Ok <==> forall|i: int|
                0 <= i < self.tracks@.len() ==> codec_params_ok(#[trigger] self.tracks@[i].sample_entry),
            r is Ok ==> r->Ok_0@.len() == self.tracks@.len() && forall|i: int|
                0 <= i < self.tracks@.len() ==> stream_of(#[trigger] self.tracks@[i], r->Ok_0@[i]),
    {
        let mut v: Vec<StreamInfo> = Vec::new();
        let mut i: usize = 0;
        while i < self.tracks.len()
            invariant
                i <= self.tracks@.len(),
                v@.len() == i,
                forall|k: int| 0 <= k < i ==> codec_params_ok(#[trigger] self.tracks@[k].sample_entry),
                forall|k: int| 0 <= k < i ==> stream_of(#[trigger] self.tracks@[k], v@[k]),
            decreases self.tracks@.len() - i,
        {
            v.push(self.tracks[i].as_stream()?);
            i = i + 1;
        }
        Ok(v)
    }
}

} // verus!
