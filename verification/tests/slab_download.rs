use indexd::download::{plan_download, DownloadError, DownloadOptions};
use indexd::encryption::decrypt_shard;
use indexd::erasure::recover_slab;
use indexd::object::{Sector, Slab};
use indexd::slab_download::{check_order, SectorDownloadTask, SlabDownload, Step};

fn sectors(n: u8) -> Vec<Sector> {
    (0..n).map(|i| Sector { root: [i; 32], host_key: [255 - i; 32] }).collect()
}

fn begin(n: u8, min_shards: u8) -> (SlabDownload, Vec<SectorDownloadTask>) {
    begin_bounded(n, min_shards, 100)
}

fn begin_bounded(
    n: u8,
    min_shards: u8,
    max_inflight: usize,
) -> (SlabDownload, Vec<SectorDownloadTask>) {
    let order = (0..n as usize).rev().collect();
    SlabDownload::start(&[1; 32], &sectors(n), min_shards, order, 64, 128, max_inflight).unwrap()
}

fn indices(tasks: &[SectorDownloadTask]) -> Vec<usize> {
    tasks.iter().map(|t| t.index).collect()
}

fn spawned(step: Step) -> Vec<usize> {
    match step {
        Step::Spawn(tasks) => indices(&tasks),
        other => panic!("unexpected step {:?}", other),
    }
}

/// Polls until there is something to wait for, or until the end. Returns the sectors whose reads
/// are started, those whose shards are kept, and the last step.
fn drive(download: &mut SlabDownload) -> (Vec<usize>, Vec<usize>, Step) {
    let (mut started, mut kept) = (Vec::new(), Vec::new());
    loop {
        match download.poll() {
            Step::Spawn(tasks) => started.extend(indices(&tasks)),
            Step::Delivered(index) => kept.push(index),
            Step::Again => {}
            last => return (started, kept, last),
        }
    }
}

/// Polls up to the next wait, and returns the sectors whose reads are started.
fn started(download: &mut SlabDownload) -> Vec<usize> {
    match drive(download) {
        (started, _, Step::Wait) => started,
        (_, _, other) => panic!("unexpected step {:?}", other),
    }
}

fn given_up(download: &mut SlabDownload) -> DownloadError {
    match drive(download).2 {
        Step::Failed(error) => error,
        other => panic!("unexpected step {:?}", other),
    }
}

fn finished(download: &mut SlabDownload) -> bool {
    matches!(drive(download).2, Step::Finished)
}

#[test]
fn order_is_checked() {
    assert!(check_order(&vec![2, 0, 1], 3));
    assert!(check_order(&vec![], 0));
    assert!(!check_order(&vec![0, 0, 1], 3));
    assert!(!check_order(&vec![0, 1, 3], 3));
    assert!(!check_order(&vec![0, 1], 3));
}

#[test]
fn too_few_sectors_are_refused() {
    let result = SlabDownload::start(&[1; 32], &sectors(3), 12, vec![0, 1, 2], 0, 64, 5);
    match result {
        Err(DownloadError::InvalidSlab(message)) => {
            assert_eq!(message, "not enough sectors: have 3, need at least 12")
        }
        _ => panic!("accepted"),
    }
}

#[test]
fn first_reads_are_the_most_promising() {
    let (download, tasks) = begin(5, 2);
    assert_eq!(indices(&tasks), vec![4, 3]);
    assert_eq!(
        tasks[0],
        SectorDownloadTask {
            sector: Sector { root: [4; 32], host_key: [251; 32] },
            offset: 64,
            length: 128,
            index: 4
        }
    );
    assert!(download.is_in_flight(4));
    assert!(!download.is_in_flight(2));
    assert!(!download.is_in_flight(99));
}

#[test]
fn shards_are_decrypted_and_kept_in_place() {
    let (mut download, _) = begin(4, 2);
    let key = sia::encryption::EncryptionKey::from([1u8; 32]);
    let plain = vec![9u8; 128];
    let mut cipher = plain.clone();
    sia::encryption::encrypt_shard(&key, 3, 64, &mut cipher);
    assert_ne!(cipher, plain);
    assert!(matches!(download.poll(), Step::Wait));
    assert!(matches!(download.shard_downloaded(3, cipher), Step::Wait));
    assert!(matches!(download.poll(), Step::Delivered(3)));
    assert!(matches!(download.poll(), Step::Wait));
    assert!(matches!(download.shard_downloaded(2, vec![0; 128]), Step::Wait));
    assert!(matches!(download.poll(), Step::Delivered(2)));
    assert!(matches!(download.poll(), Step::Finished));
    let shards = download.into_shards();
    assert_eq!(shards.len(), 4);
    assert_eq!(shards[3], Some(plain));
    assert!(shards[2].is_some());
    assert_eq!(shards.iter().filter(|s| s.is_some()).count(), 2);
}

#[test]
fn failed_read_is_replaced() {
    let (mut download, _) = begin(4, 2);
    assert!(matches!(download.shard_failed(3), Step::Wait));
    assert_eq!(started(&mut download), vec![1]);
    assert!(matches!(download.shard_failed(2), Step::Wait));
    assert_eq!(started(&mut download), vec![0]);
    download.shard_downloaded(1, vec![0; 4]);
    assert!(started(&mut download).is_empty());
    download.shard_downloaded(0, vec![0; 4]);
    assert!(finished(&mut download));
}

#[test]
fn reads_are_looked_at_in_the_order_in_which_they_end() {
    let (mut download, _) = begin(6, 3);
    download.shard_downloaded(4, vec![0; 4]);
    download.shard_failed(5);
    download.shard_downloaded(3, vec![0; 4]);
    assert!(matches!(download.poll(), Step::Delivered(4)));
    // one read has ended and was not looked at, and two shards are needed
    assert_eq!(spawned(download.poll()), vec![2]);
    assert!(matches!(download.poll(), Step::Delivered(3)));
    assert!(matches!(download.poll(), Step::Wait));
}

#[test]
fn hopeless_download_is_given_up() {
    let (mut download, _) = begin(3, 2);
    download.shard_failed(2);
    assert_eq!(started(&mut download), vec![0]);
    download.shard_downloaded(1, vec![0; 4]);
    assert!(started(&mut download).is_empty());
    download.shard_failed(0);
    assert_eq!(given_up(&mut download), DownloadError::NotEnoughShards(1, 2));
    assert_eq!(given_up(&mut download), DownloadError::NotEnoughShards(1, 2));
}

#[test]
fn slow_hosts_are_raced_while_there_is_room() {
    let (mut download, _) = begin_bounded(4, 1, 3);
    assert_eq!(spawned(download.tick()), vec![2]);
    assert_eq!(spawned(download.tick()), vec![1]);
    // three reads are in flight
    assert!(matches!(download.tick(), Step::Wait));
    // more reads are in flight than shards are needed, so none is started for this failure
    download.shard_failed(1);
    // a read that has ended is looked at before another one is raced
    assert!(matches!(download.tick(), Step::Wait));
    assert!(matches!(download.poll(), Step::Again));
    assert!(matches!(download.poll(), Step::Wait));
    assert_eq!(spawned(download.tick()), vec![0]);
    download.shard_failed(0);
    assert!(started(&mut download).is_empty());
    // nothing is left in the queue
    assert!(matches!(download.tick(), Step::Wait));
}

#[test]
fn reads_beyond_the_bound_are_held_back() {
    let (mut download, tasks) = begin_bounded(6, 3, 2);
    assert_eq!(indices(&tasks), vec![5, 4]);
    assert!(!download.is_in_flight(3));
    // no more than two at a time, though a third shard is needed
    assert!(matches!(download.poll(), Step::Wait));
    assert!(matches!(download.tick(), Step::Wait));
    // a read that ends makes room for the one that was held back
    assert_eq!(spawned(download.shard_failed(5)), vec![3]);
    // one more read is wanted for the failure, and there is no room for it
    assert!(matches!(download.poll(), Step::Wait));
    assert!(!download.is_in_flight(2));
    assert_eq!(spawned(download.shard_downloaded(4, vec![0; 4])), vec![2]);
    assert!(matches!(download.poll(), Step::Delivered(4)));
    download.shard_downloaded(3, vec![0; 4]);
    assert!(started(&mut download).is_empty());
    download.shard_downloaded(2, vec![0; 4]);
    assert!(finished(&mut download));
}

#[test]
fn first_reads_are_all_begun_before_any_is_looked_at() {
    let (mut download, tasks) = begin_bounded(3, 3, 1);
    assert_eq!(indices(&tasks), vec![2]);
    assert_eq!(spawned(download.shard_failed(2)), vec![1]);
    assert!(matches!(download.poll(), Step::Wait));
    assert_eq!(spawned(download.shard_failed(1)), vec![0]);
    // now that all three were begun, the first failure is looked at
    assert_eq!(given_up(&mut download), DownloadError::NotEnoughShards(0, 3));
}

#[test]
fn one_read_at_a_time() {
    let (mut download, tasks) = begin_bounded(5, 3, 1);
    assert_eq!(indices(&tasks), vec![4]);
    assert_eq!(spawned(download.shard_downloaded(4, vec![1])), vec![3]);
    assert!(matches!(download.poll(), Step::Wait));
    assert_eq!(spawned(download.shard_failed(3)), vec![2]);
    // the shard is kept; the failure asks for a read that has to wait for room
    let (more, kept, last) = drive(&mut download);
    assert!(more.is_empty());
    assert_eq!(kept, vec![4]);
    assert!(matches!(last, Step::Wait));
    assert_eq!(spawned(download.shard_downloaded(2, vec![1])), vec![1]);
    download.shard_downloaded(1, vec![1]);
    assert!(finished(&mut download));
}

#[test]
fn no_bound_is_needed_to_refuse_a_slab() {
    let result = SlabDownload::start(&[1; 32], &sectors(1), 2, vec![0], 0, 64, 0);
    assert!(matches!(result, Err(DownloadError::InvalidSlab(_))));
}

#[test]
fn thirty_failures_end_the_download() {
    let (mut download, tasks) = begin(60, 1);
    let mut next = tasks[0].index;
    for failure in 1..=30 {
        download.shard_failed(next);
        if failure < 30 {
            let more = started(&mut download);
            assert_eq!(more.len(), 1);
            next = more[0];
        } else {
            assert_eq!(given_up(&mut download), DownloadError::NotEnoughShards(0, 1));
        }
    }
}

#[test]
fn nothing_needed_is_finished_at_once() {
    let (mut download, tasks) = begin(2, 0);
    assert_eq!(tasks, vec![]);
    assert!(matches!(download.poll(), Step::Finished));
    assert_eq!(download.into_shards(), vec![None, None]);
}

const DATA: usize = 2;
const PARITY: usize = 2;
const ROWS: usize = 6;

fn stored_slab(data: &[u8]) -> Vec<Vec<u8>> {
    let mut shards = vec![vec![0u8; ROWS * 64]; DATA + PARITY];
    for (y, byte) in data.iter().enumerate() {
        shards[y / 64 % DATA][y / (64 * DATA) * 64 + y % 64] = *byte;
    }
    let coder = sia::erasure_coding::ErasureCoder::new(DATA, PARITY).unwrap();
    coder.encode_shards(&mut shards).unwrap();
    let key = sia::encryption::EncryptionKey::from([5u8; 32]);
    for (i, shard) in shards.iter_mut().enumerate() {
        sia::encryption::encrypt_shard(&key, i as u8, 0, shard);
    }
    shards
}

#[test]
fn requested_bytes_come_back_from_any_two_hosts() {
    let data: Vec<u8> = (0..ROWS * 64 * DATA).map(|i| (i * 31 % 251) as u8).collect();
    let stored = stored_slab(&data);
    let slabs = vec![Slab {
        encryption_key: [5; 32],
        min_shards: DATA as u8,
        sectors: sectors(4),
        offset: 0,
        length: data.len() as u32,
    }];
    let options = DownloadOptions { max_inflight: 2, offset: 150, length: Some(333) };
    for bad in [[0usize, 1], [0, 2], [1, 3], [2, 3]] {
        let range = plan_download(&slabs, &options)[0];
        let (mut download, mut pending) = SlabDownload::start(
            &slabs[0].encryption_key,
            &slabs[0].sectors,
            slabs[0].min_shards,
            vec![0, 1, 2, 3],
            range.shard_offset,
            range.shard_length,
            options.max_inflight,
        )
        .unwrap();
        loop {
            match download.poll() {
                Step::Spawn(tasks) => pending.extend(tasks),
                Step::Delivered(_) | Step::Again => {}
                Step::Finished => break,
                Step::Failed(error) => panic!("{}", error.message()),
                Step::Wait => {
                    let task = pending.remove(0);
                    let step = if bad.contains(&task.index) {
                        download.shard_failed(task.index)
                    } else {
                        let from = task.offset as usize;
                        let to = from + task.length as usize;
                        let data = stored[task.index][from..to].to_vec();
                        download.shard_downloaded(task.index, data)
                    };
                    if let Step::Spawn(tasks) = step {
                        pending.extend(tasks);
                    }
                }
            }
        }
        let shards = recover_slab(slabs[0].min_shards, download.into_shards()).unwrap();
        assert_eq!(shards.len(), DATA);
        let region: Vec<Vec<u8>> = shards.into_iter().map(|s| s.unwrap()).collect();
        let out: Vec<u8> = (range.skip..range.skip + range.slab_length as usize)
            .map(|q| region[q / 64 % DATA][q / (64 * DATA) * 64 + q % 64])
            .collect();
        assert_eq!(out, data[150..483].to_vec());
    }
}

#[test]
fn recovery_fills_in_missing_data_shards() {
    let coder = sia::erasure_coding::ErasureCoder::new(2, 1).unwrap();
    let mut shards = vec![vec![1u8, 2], vec![3, 4], vec![0, 0]];
    coder.encode_shards(&mut shards).unwrap();
    let parity = shards[2].clone();
    let recovered = recover_slab(2, vec![None, Some(vec![3, 4]), Some(parity)]).unwrap();
    assert_eq!(recovered, vec![Some(vec![1, 2]), Some(vec![3, 4])]);
}

#[test]
fn recovery_refuses_what_it_cannot_do() {
    let cases = vec![
        // no data shards
        (0u8, vec![None, None], "data shards"),
        // no parity shards
        (1, vec![Some(vec![1u8])], "parity shards"),
        // too few present
        (2, vec![None, Some(vec![3, 4]), None], "The number of shards present is smaller"),
        // of different length
        (1, vec![Some(vec![1]), Some(vec![3, 4])], "not of the correct size"),
        // empty
        (1, vec![Some(vec![]), None], "zero length"),
        // more than the code allows
        (1, vec![Some(vec![1]); 257], "greater than"),
    ];
    for (min_shards, shards, part) in cases {
        match recover_slab(min_shards, shards) {
            Err(DownloadError::Encoder(message)) => {
                assert!(message.starts_with("ReedSolomon error: "), "{}", message);
                assert!(message.contains(part), "{}", message);
            }
            _ => panic!("recovered"),
        }
    }
    assert!(recover_slab(1, vec![Some(vec![1]); 256]).is_ok());
}

#[test]
fn part_of_a_shard_is_decrypted_alone() {
    let shard: Vec<u8> = (0..1000).map(|i| (i % 256) as u8).collect();
    let key = sia::encryption::EncryptionKey::from([3u8; 32]);
    let mut stored = shard.clone();
    sia::encryption::encrypt_shard(&key, 9, 0, &mut stored);
    assert_ne!(stored, shard);
    assert_eq!(decrypt_shard(&[3; 32], 9, 0, stored.clone()), shard);
    assert_eq!(decrypt_shard(&[3; 32], 9, 128, stored[128..300].to_vec()), shard[128..300].to_vec());
    assert_ne!(decrypt_shard(&[3; 32], 9, 64, stored[128..300].to_vec()), shard[128..300].to_vec());
    assert_ne!(decrypt_shard(&[3; 32], 8, 0, stored.clone()), shard);
    assert_eq!(decrypt_shard(&[3; 32], 9, 0, decrypt_shard(&[3; 32], 9, 0, stored.clone())), stored);
}

#[test]
fn no_sector_is_read_twice() {
    let (mut download, tasks) = begin(20, 5);
    let mut pending = indices(&tasks);
    let mut seen = Vec::new();
    while let Some(index) = pending.pop() {
        assert!(!seen.contains(&index));
        seen.push(index);
        download.shard_failed(index);
        let (more, _, last) = drive(&mut download);
        pending.extend(more);
        match last {
            Step::Wait => {}
            // sixteen of twenty failed, so fewer than five are left
            Step::Failed(error) => {
                assert_eq!(error, DownloadError::NotEnoughShards(0, 5));
                assert_eq!(seen.len(), 16);
                return;
            }
            other => panic!("unexpected step {:?}", other),
        }
    }
    panic!("the download was not given up");
}

#[test]
fn outcome_does_not_depend_on_the_order_of_reads() {
    // sectors 0 to 3 of eight are readable
    for (min_shards, enough) in [(4u8, true), (5, false)] {
        for bound in [1usize, 2, 3, 8] {
            for pick in [0usize, 1, 5] {
                let (mut download, tasks) = begin_bounded(8, min_shards, bound);
                let mut pending = indices(&tasks);
                let ended = loop {
                    assert!(pending.len() <= bound);
                    let (more, _, last) = drive(&mut download);
                    pending.extend(more);
                    match last {
                        Step::Finished => break true,
                        Step::Failed(_) => break false,
                        _ => {}
                    }
                    let index = pending.remove(pick % pending.len());
                    let step = if index < 4 {
                        download.shard_downloaded(index, vec![index as u8])
                    } else {
                        download.shard_failed(index)
                    };
                    if let Step::Spawn(tasks) = step {
                        pending.extend(indices(&tasks));
                    }
                };
                assert_eq!(ended, enough);
                let filled = download.into_shards().iter().filter(|s| s.is_some()).count();
                assert!(!enough || filled == 4);
            }
        }
    }
}
