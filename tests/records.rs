use rduperemove::btrfs::{
    btrfs_ioctl_same_args, extent_same_request_code, DedupRun, ExtentSame, DEDUP_UNIT,
};
use rduperemove::fiemap::{fiemap_request_code, FiemapRequest};
use rduperemove::{ioc, iowr};

#[test]
fn ioc_packs_fields() {
    assert_eq!(ioc(1, 0x12, 0x34, 0x56), (1 << 30) | (0x56 << 16) | (0x12 << 8) | 0x34);
    assert_eq!(ioc(0, 0, 0, 0), 0);
    assert_eq!(ioc(3, 0xff, 0xff, 0x3fff), 0xffff_ffff);
}

#[test]
fn iowr_sets_both_directions() {
    assert_eq!(iowr(0x94, 54, 24), 0xC018_9436);
    assert_eq!(iowr(0x66, 11, 32), 0xC020_660B);
}

#[test]
fn request_codes_match_the_kernel() {
    assert_eq!(extent_same_request_code(), 0xC018_9436);
    assert_eq!(fiemap_request_code(), 0xC020_660B);
}

#[test]
fn extent_same_starts_zeroed() {
    let same = ExtentSame::new(2);
    assert_eq!(
        same.args(),
        btrfs_ioctl_same_args { logical_offset: 0, length: 0, dest_count: 2 }
    );
    let infos = same.infos();
    assert_eq!(infos.len(), 2);
    for info in infos {
        assert_eq!(info.fd, 0);
        assert_eq!(info.logical_offset, 0);
        assert_eq!(info.bytes_deduped, 0);
        assert_eq!(info.status, 0);
    }
    assert_eq!(same.allocation_size(), 88);
    assert_eq!(ExtentSame::args_size(), 24);
    assert_eq!(ExtentSame::infos_size(3), 96);
}

#[test]
fn extent_same_decodes_kernel_output() {
    let mut same = ExtentSame::new(1);
    {
        let words = same.as_mut_words();
        words[3] = (-5i64) as u64;
        words[4] = 4096;
        words[5] = 8192;
        words[6] = ((7u64) << 32) | ((-22i32) as u32 as u64);
    }
    let info = same.info(0);
    assert_eq!(info.fd, -5);
    assert_eq!(info.logical_offset, 4096);
    assert_eq!(info.bytes_deduped, 8192);
    assert_eq!(info.status, -22);
    assert_eq!(info.reserved, 7);
}

/// Writes what the kernel reports for each destination into the request.
fn reply(words: &mut [u64], reports: &[(u64, i32)]) {
    for (i, (bytes, status)) in reports.iter().enumerate() {
        words[3 + 4 * i + 2] = *bytes;
        words[3 + 4 * i + 3] = *status as u32 as u64;
    }
}

#[test]
fn dedup_skips_small_source() {
    assert!(DedupRun::start(4095, vec![3]).is_none());
    assert!(DedupRun::start(0, vec![3, 4]).is_none());
    assert_eq!(DEDUP_UNIT, 4096);
}

#[test]
fn dedup_skips_without_destinations() {
    assert!(DedupRun::start(1 << 20, vec![]).is_none());
}

#[test]
fn dedup_request_covers_aligned_length() {
    let mut run = DedupRun::start(11000, vec![5]).unwrap();
    let words = run.request();
    assert_eq!(words.to_vec(), vec![0, 8192, 1, 5, 0, 0, 0]);
}

#[test]
fn dedup_of_11000_bytes_shares_8192() {
    let mut run = DedupRun::start(11000, vec![5]).unwrap();
    reply(run.request(), &[(8192, 0)]);
    assert!(!run.after_call(true));
    assert_eq!(run.total(), 8192);
    assert!(!run.is_running());
}

#[test]
fn dedup_of_three_mebibyte_files() {
    let mut run = DedupRun::start(1_048_576, vec![4, 5]).unwrap();
    reply(run.request(), &[(1_048_576, 0), (1_048_576, 0)]);
    assert!(!run.after_call(true));
    assert_eq!(run.total(), 2_097_152);
}

#[test]
fn dedup_loops_over_capped_calls() {
    let mib: u64 = 1 << 20;
    let mut run = DedupRun::start(40 * mib + 100, vec![7, 8]).unwrap();
    reply(run.request(), &[(16 * mib, 0), (16 * mib, 0)]);
    assert!(run.after_call(true));
    assert_eq!(run.total(), 32 * mib);
    let words = run.request();
    assert_eq!(words[0], 16 * mib);
    assert_eq!(words[1], 24 * mib);
    assert_eq!(words[3], 7);
    assert_eq!(words[4], 16 * mib);
    assert_eq!(words[7], 8);
    assert_eq!(words[8], 16 * mib);
    reply(words, &[(16 * mib, 0), (16 * mib, 0)]);
    assert!(run.after_call(true));
    reply(run.request(), &[(8 * mib, 0), (8 * mib, 0)]);
    assert!(!run.after_call(true));
    assert_eq!(run.total(), 80 * mib);
}

#[test]
fn dedup_stops_on_failed_call() {
    let mut run = DedupRun::start(8192, vec![5]).unwrap();
    reply(run.request(), &[(8192, 0)]);
    assert!(!run.after_call(false));
    assert_eq!(run.total(), 0);
}

#[test]
fn dedup_stops_on_destination_error() {
    let mut run = DedupRun::start(8192, vec![5, 6]).unwrap();
    reply(run.request(), &[(4096, 0), (4096, 1)]);
    assert!(!run.after_call(true));
    assert_eq!(run.total(), 0);
}

#[test]
fn dedup_stops_on_disagreeing_destinations() {
    let mut run = DedupRun::start(8192, vec![5, 6]).unwrap();
    reply(run.request(), &[(4096, 0), (8192, 0)]);
    assert!(!run.after_call(true));
    assert_eq!(run.total(), 0);
}

#[test]
fn dedup_stops_on_no_progress() {
    let mut run = DedupRun::start(8192, vec![5]).unwrap();
    reply(run.request(), &[(0, 0)]);
    assert!(!run.after_call(true));
    assert_eq!(run.total(), 0);
}

#[test]
fn dedup_again_shares_nothing() {
    let mut first = DedupRun::start(12288, vec![5]).unwrap();
    reply(first.request(), &[(12288, 0)]);
    assert!(!first.after_call(true));
    assert_eq!(first.total(), 12288);
    let mut second = DedupRun::start(12288, vec![5]).unwrap();
    reply(second.request(), &[(0, 0)]);
    assert!(!second.after_call(true));
    assert_eq!(second.total(), 0);
}

#[test]
fn dedup_counts_overlong_report_then_stops() {
    let mut run = DedupRun::start(8192, vec![5]).unwrap();
    reply(run.request(), &[(12288, 0)]);
    assert!(!run.after_call(true));
    assert_eq!(run.total(), 12288);
}

#[test]
fn dedup_total_stays_whole_units() {
    let mut run = DedupRun::start(5 * 4096 + 1, vec![5, 6, 7]).unwrap();
    reply(run.request(), &[(8192, 0), (8192, 0), (8192, 0)]);
    assert!(run.after_call(true));
    reply(run.request(), &[(12288, 0), (12288, 0), (12288, 0)]);
    assert!(!run.after_call(true));
    assert_eq!(run.total() % (4096 * 3), 0);
    assert!(run.total() <= 5 * 4096 * 3);
    assert_eq!(run.total(), 5 * 4096 * 3);
}

#[test]
fn test_create_fiemap_request() {
    let request = FiemapRequest::new();
    let header = request.fiemap();
    assert_eq!(header.fm_start, 0);
    assert_eq!(header.fm_length, u64::MAX);
    assert_eq!(header.fm_extent_count, 0);
    assert_eq!(header.fm_mapped_extents, 0);
    assert!(request.extents().is_empty());
}

#[test]
fn test_drop_fiemap_request() {
    let request = FiemapRequest::new();
    drop(request);
}

#[test]
fn fiemap_retrieval_has_room_for_mapped_extents() {
    let mut discovery = FiemapRequest::new();
    discovery.as_mut_words()[2] = 3u64 << 32;
    assert_eq!(discovery.fiemap().fm_mapped_extents, 3);
    let mut retrieval = discovery.retrieval().unwrap();
    let header = retrieval.fiemap();
    assert_eq!(header.fm_extent_count, 3);
    assert_eq!(header.fm_mapped_extents, 0);
    assert_eq!(header.fm_length, u64::MAX);
    let words = retrieval.as_mut_words();
    assert_eq!(words.len(), 4 + 7 * 3);
    words[2] = (2u64 << 32) | 1;
    words[4] = 0;
    words[5] = 1 << 20;
    words[6] = 4096;
    words[9] = 0x2001;
    words[11] = 4096;
    words[12] = 2 << 20;
    words[13] = 8192;
    words[16] = 0x1;
    let extents = retrieval.extents();
    assert_eq!(extents.len(), 2);
    assert_eq!(extents[0].fe_logical, 0);
    assert_eq!(extents[0].fe_physical, 1 << 20);
    assert_eq!(extents[0].fe_length, 4096);
    assert_eq!(extents[0].fe_flags, 0x2001);
    assert_eq!(extents[1].fe_logical, 4096);
    assert_eq!(extents[1].fe_physical, 2 << 20);
    assert_eq!(extents[1].fe_length, 8192);
    assert_eq!(retrieval.fiemap().flags().bits, 1);
}
