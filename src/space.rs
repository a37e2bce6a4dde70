//! Whether the temporary directory and the destination have room for a download.

use vstd::prelude::*;
use crate::model::DownloadFormat;
use crate::segments::{estimate_stream_data_file_size, saturate, seconds_sum, StreamData};

verus! {

/// Free space on two partitions that differs by less than this many bytes
/// (with equal totals) is taken to be the same partition.
pub const SAME_PARTITION_SLACK: u64 = 10240;

/// What a partition reports: its total and its available bytes.
#[derive(Clone, Copy, Debug, PartialEq, Eq, Structural)]
pub struct PartitionStats {
    pub total: u64,
    pub available: u64,
}

/// Whether two partitions look like the same one.
pub open spec fn same_partition(a: PartitionStats, b: PartitionStats) -> bool {
    &&& a.total == b.total
    &&& a.available - b.available < SAME_PARTITION_SLACK
    &&& b.available - a.available < SAME_PARTITION_SLACK
}

/// The space a download needs: twice the estimate when temporary files and
/// the output share a partition, since both must fit at once.
pub open spec fn space_needed(required: u64, tmp: PartitionStats, dst: PartitionStats) -> u64 {
    if same_partition(tmp, dst) { saturate(2 * required as int) } else { required }
}

/// The warnings to give, each carrying the estimated size of the download:
/// one for the temporary directory and one for the destination, each when
/// its partition has less room than is needed there. The destination is not
/// checked when it is standard output or a special file.
pub fn space_warnings(required: u64, tmp: PartitionStats, dst: PartitionStats, check_destination: bool) -> (r: (Option<u64>, Option<u64>))
    ensures
        r.0 == (if (tmp.available as int) < space_needed(required, tmp, dst) { Some(required) } else { None }),
        r.1 == (if check_destination && (dst.available as int) < space_needed(required, tmp, dst) {
            Some(required)
        } else {
            None
        }),
{
    let diff_small = if tmp.available >= dst.available {
        tmp.available - dst.available < SAME_PARTITION_SLACK
    } else {
        dst.available - tmp.available < SAME_PARTITION_SLACK
    };
    let need: u64 = if tmp.total == dst.total && diff_small {
        if required > u64::MAX / 2 { u64::MAX } else { 2 * required }
    } else {
        required
    };
    let t = if tmp.available < need { Some(required) } else { None };
    let d = if check_destination && dst.available < need { Some(required) } else { None };
    (t, d)
}

/// The bytes every stream to download is estimated to take.
pub open spec fn streams_size(streams: Seq<(u64, Seq<crate::segments::StreamSegment>)>) -> int
    decreases streams.len(),
{
    if streams.len() == 0 {
        0
    } else {
        streams_size(streams.drop_last()) + saturate((streams.last().0 / 8) as int * seconds_sum(streams.last().1))
    }
}

/// The streams of all variants: each video, then its audios.
pub open spec fn all_streams(formats: Seq<DownloadFormat>) -> Seq<(u64, Seq<crate::segments::StreamSegment>)>
    decreases formats.len(),
{
    if formats.len() == 0 {
        Seq::empty()
    } else {
        let f = formats.last();
        all_streams(formats.drop_last()) + seq![(f.video.0.bandwidth, f.video.0.segments@)]
            + Seq::new(f.audios@.len(), |i: int| (f.audios@[i].0.bandwidth, f.audios@[i].0.segments@))
    }
}

proof fn lemma_saturate_add(x: int, y: int)
    requires
        x >= 0,
        0 <= y <= u64::MAX,
    ensures
        saturate(saturate(x) as int + y) == saturate(x + y),
{
}

fn add_saturating(a: u64, b: u64) -> (r: u64)
    ensures
        r == saturate(a + b),
{
    if a > u64::MAX - b { u64::MAX } else { a + b }
}

proof fn lemma_size_append(a: Seq<(u64, Seq<crate::segments::StreamSegment>)>, b: Seq<(u64, Seq<crate::segments::StreamSegment>)>)
    ensures
        streams_size(a + b) == streams_size(a) + streams_size(b),
    decreases b.len(),
{
    if b.len() > 0 {
        lemma_size_append(a, b.drop_last());
        assert((a + b).drop_last() =~= a + b.drop_last());
    } else {
        assert(a + b =~= a);
    }
}

proof fn lemma_size_nonneg(a: Seq<(u64, Seq<crate::segments::StreamSegment>)>)
    ensures
        streams_size(a) >= 0,
    decreases a.len(),
{
    if a.len() > 0 {
        lemma_size_nonneg(a.drop_last());
    }
}

/// The estimated bytes of every video and audio stream of the variants,
/// saturating at `u64::MAX`.
pub fn required_space(formats: &Vec<DownloadFormat>) -> (r: u64)
    ensures
        r == saturate(streams_size(all_streams(formats@))),
{
    let mut total: u64 = 0;
    let mut i: usize = 0;
    while i < formats.len()
        invariant
            i <= formats.len(),
            total == saturate(streams_size(all_streams(formats@.take(i as int)))),
        decreases formats.len() - i,
    {
        assert(formats@.take(i + 1).drop_last() =~= formats@.take(i as int));
        let f = &formats[i];
        let ghost before = all_streams(formats@.take(i as int));
        proof { lemma_size_nonneg(before); }
        total = add_saturating(total, estimate_stream_data_file_size(f.video.0.bandwidth, &f.video.0.segments));
        let ghost with_video = before + seq![(f.video.0.bandwidth, f.video.0.segments@)];
        proof {
            lemma_size_append(before, seq![(f.video.0.bandwidth, f.video.0.segments@)]);
            assert(seq![(f.video.0.bandwidth, f.video.0.segments@)].drop_last() =~= Seq::<(u64, Seq<crate::segments::StreamSegment>)>::empty());
            lemma_saturate_add(streams_size(before), saturate((f.video.0.bandwidth / 8) as int * seconds_sum(f.video.0.segments@)) as int);
            assert(with_video + Seq::new(0 as nat, |k: int| (f.audios@[k].0.bandwidth, f.audios@[k].0.segments@)) =~= with_video);
            let est = saturate((f.video.0.bandwidth / 8) as int * seconds_sum(f.video.0.segments@));
            assert(streams_size(Seq::<(u64, Seq<crate::segments::StreamSegment>)>::empty()) == 0);
            assert(streams_size(seq![(f.video.0.bandwidth, f.video.0.segments@)]) == est as int);
            assert(streams_size(with_video) == streams_size(before) + est);
            assert(total == saturate(streams_size(with_video)));
        }
        let mut j: usize = 0;
        while j < f.audios.len()
            invariant
                i < formats.len(),
                f == &formats[i as int],
                j <= f.audios.len(),
                total == saturate(streams_size(with_video
                    + Seq::new(j as nat, |k: int| (f.audios@[k].0.bandwidth, f.audios@[k].0.segments@)))),
            decreases f.audios.len() - j,
        {
            let ghost prev = Seq::new(j as nat, |k: int| (f.audios@[k].0.bandwidth, f.audios@[k].0.segments@));
            let ghost next = Seq::new((j + 1) as nat, |k: int| (f.audios@[k].0.bandwidth, f.audios@[k].0.segments@));
            proof {
                assert(next.drop_last() =~= prev);
                assert((with_video + next).drop_last() =~= with_video + prev);
                lemma_size_nonneg(with_video + prev);
                lemma_saturate_add(streams_size(with_video + prev),
                    saturate((f.audios@[j as int].0.bandwidth / 8) as int * seconds_sum(f.audios@[j as int].0.segments@)) as int);
            }
            total = add_saturating(total, estimate_stream_data_file_size(f.audios[j].0.bandwidth, &f.audios[j].0.segments));
            j = j + 1;
        }
        i = i + 1;
        assert(all_streams(formats@.take(i as int)) =~= with_video
            + Seq::new(f.audios@.len(), |k: int| (f.audios@[k].0.bandwidth, f.audios@[k].0.segments@)));
    }
    assert(formats@.take(i as int) =~= formats@);
    total
}

} // verus!
