use indexd::download::{
    plan_download, plan_slabs, readable_slabs, requests_nothing, DownloadError, DownloadOptions,
    SlabRange,
};
use indexd::object::{size_of_slabs, slab_start, Sector, Slab};

fn slab(min_shards: u8, offset: u32, length: u32) -> Slab {
    let sectors = (0..3u8)
        .map(|i| Sector { root: [i; 32], host_key: [i + 100; 32] })
        .collect();
    Slab { encryption_key: [7; 32], min_shards, sectors, offset, length }
}

#[test]
fn default_options_ask_for_everything() {
    let options = DownloadOptions::default();
    assert_eq!(options, DownloadOptions { max_inflight: 20, offset: 0, length: None });
    assert_eq!(options, DownloadOptions::for_target(false));
    assert_eq!(DownloadOptions::for_target(true).max_inflight, 8);
}

#[test]
fn whole_object_takes_every_slab() {
    let slabs = vec![slab(2, 0, 1000), slab(2, 0, 500)];
    assert_eq!(size_of_slabs(&slabs), 1500);
    assert_eq!(slab_start(&slabs, 1), 1000);
    let ranges = plan_download(&slabs, &DownloadOptions::default());
    assert_eq!(
        ranges,
        vec![
            // 1000 bytes in rows of 128 take eight rows
            SlabRange {
                slab_index: 0,
                slab_offset: 0,
                slab_length: 1000,
                shard_offset: 0,
                shard_length: 512,
                skip: 0
            },
            SlabRange {
                slab_index: 1,
                slab_offset: 0,
                slab_length: 500,
                shard_offset: 0,
                shard_length: 256,
                skip: 0
            },
        ]
    );
}

#[test]
fn range_skips_slabs_and_bytes() {
    let slabs = vec![slab(2, 0, 1000), slab(3, 40, 500), slab(2, 0, 10)];
    let options = DownloadOptions { max_inflight: 1, offset: 1300, length: Some(150) };
    let ranges = plan_download(&slabs, &options);
    // 340..490 of the slab's data, in rows of 192: from the second row through the third
    assert_eq!(
        ranges,
        vec![SlabRange {
            slab_index: 1,
            slab_offset: 340,
            slab_length: 150,
            shard_offset: 64,
            shard_length: 128,
            skip: 148
        }]
    );
}

#[test]
fn range_over_a_slab_boundary_is_split() {
    let slabs = vec![slab(2, 0, 1000), slab(2, 64, 500)];
    let options = DownloadOptions { max_inflight: 1, offset: 990, length: Some(20) };
    let ranges = plan_download(&slabs, &options);
    assert_eq!(ranges.len(), 2);
    assert_eq!((ranges[0].slab_offset, ranges[0].slab_length), (990, 10));
    assert_eq!((ranges[0].shard_offset, ranges[0].shard_length, ranges[0].skip), (448, 64, 94));
    assert_eq!((ranges[1].slab_offset, ranges[1].slab_length), (64, 10));
    assert_eq!((ranges[1].shard_offset, ranges[1].shard_length, ranges[1].skip), (0, 64, 64));
}

#[test]
fn length_is_cut_at_the_end_of_the_object() {
    let slabs = vec![slab(2, 0, 1000)];
    let options = DownloadOptions { max_inflight: 1, offset: 900, length: Some(u64::MAX) };
    let ranges = plan_download(&slabs, &options);
    assert_eq!(ranges.len(), 1);
    assert_eq!((ranges[0].slab_offset, ranges[0].slab_length), (900, 100));
    let options = DownloadOptions { max_inflight: 1, offset: 900, length: None };
    assert_eq!(plan_download(&slabs, &options), ranges);
}

#[test]
fn nothing_requested_takes_no_slab() {
    let slabs = vec![slab(2, 0, 1000), slab(0, 0, 0)];
    for (offset, length) in [(1001, None), (1000, None), (0, Some(0)), (5000, Some(3))] {
        let options = DownloadOptions { max_inflight: 1, offset, length };
        assert_eq!(plan_download(&slabs, &options), vec![]);
        // an offset at the very end is a request for what follows, of which there is nothing
        assert_eq!(requests_nothing(&slabs, &options), offset != 1000);
    }
    assert_eq!(plan_download(&vec![], &DownloadOptions::default()), vec![]);
}

#[test]
fn slabs_before_an_unreadable_one_are_planned() {
    let slabs = vec![slab(2, 0, 1000), slab(0, 0, 500), slab(2, 0, 10)];
    let all = DownloadOptions::default();
    assert_eq!(readable_slabs(&slabs, &all), 1);
    let ranges = plan_slabs(&slabs, 1, &all);
    assert_eq!(ranges.len(), 1);
    assert_eq!((ranges[0].slab_index, ranges[0].slab_length), (0, 1000));
    // a request that does not touch the unreadable slab
    let after = DownloadOptions { max_inflight: 1, offset: 1500, length: None };
    assert_eq!(readable_slabs(&slabs, &after), 3);
    assert_eq!(plan_download(&slabs, &after).len(), 1);
    let before = DownloadOptions { max_inflight: 1, offset: 0, length: Some(1000) };
    assert_eq!(readable_slabs(&slabs, &before), 3);
    let none = DownloadOptions { max_inflight: 1, offset: u64::MAX, length: Some(u64::MAX) };
    assert_eq!(readable_slabs(&slabs, &none), 3);
}

#[test]
fn errors_have_their_messages() {
    let text = || "boom".to_string();
    let cases = [
        (DownloadError::Io(text()), "I/O error: boom"),
        (DownloadError::Encoder(text()), "encoder error: boom"),
        (DownloadError::NotEnoughShards(3, 10), "not enough shards: 3/10"),
        (DownloadError::OutOfRange(0, 4096), "invalid range: 0-4096"),
        (DownloadError::Timeout(text()), "timeout error: boom"),
        (DownloadError::SemaphoreError(text()), "semaphore error: boom"),
        (DownloadError::JoinError(text()), "join error: boom"),
        (DownloadError::InvalidSlab(text()), "invalid slab: boom"),
        (DownloadError::Rhp4(text()), "rhp4 error: boom"),
        (DownloadError::Custom(text()), "custom error: boom"),
    ];
    for (error, message) in cases {
        assert_eq!(error.message(), message);
    }
}
