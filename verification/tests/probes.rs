//! Exact results of the logic of the probes.

use unimem::codes::{call_failure, fmt_bytes, kern_err, kern_err_str, prot_str, size_label};
use unimem::dext::{
    address_gap, all_loaded, create_failure, framework_path, round_trip, segment_report,
    segments_held, Connecting, Connection, ConnectError, ConnectReply, ConnectRequest, Contiguity,
    Coverage, Examination, RoundTrip, SegmentReport,
};
use unimem::hv::{
    check_hv, hv_error_name, row_guest, toggled_flags, trials, PairRun, ProtectRun, RowRun,
    TrialRun,
};
use unimem::measure::{
    access_rounds, count_mismatches, create_rounds, median, sample_order, stride_offset, summarize,
    Summary,
};
use unimem::pages::{
    disposition, failure_is_shown, page_line, page_offsets, pages_covering, surveyed,
    ChangeCounter, PageLine,
};
use unimem::pattern::{
    fill_halves, verify_pattern, verify_test_pattern, write_pattern, write_test_pattern,
    Mismatch, Pattern,
};
use unimem::regions::{Region, RegionWalk};
use unimem::text::{decimal, hex, hex_padded, hex_upper, signed_decimal};

#[test]
fn numbers_as_text() {
    for n in [0, 7, 10, 4096, 999_999, u64::MAX] {
        assert_eq!(decimal(n), format!("{}", n));
        assert_eq!(decimal(n).parse::<u64>(), Ok(n));
    }
    for n in [0, 5, -1, 42, -536870212, i32::MIN, i32::MAX] {
        assert_eq!(signed_decimal(n), format!("{}", n));
    }
    for n in [0, 9, 15, 16, 0x1234, 0xdeadbeef, u32::MAX] {
        assert_eq!(hex(n), format!("{:#x}", n));
        assert_eq!(hex_padded(n), format!("0x{:08x}", n));
        assert_eq!(hex_upper(n), format!("0x{:08X}", n));
    }
}

#[test]
fn driver_statuses() {
    assert_eq!(kern_err(0), "KERN_SUCCESS");
    assert_eq!(kern_err(0xe00002bcu32 as i32), "kIOReturnBadArgument");
    assert_eq!(kern_err(0xe00002c1u32 as i32), "kIOReturnNotPrivileged");
    assert_eq!(kern_err(0xe00002d8u32 as i32), "kIOReturnUnsupported");
    assert_eq!(kern_err(0xe00002beu32 as i32), "kIOReturnExclusiveAccess");
    assert_eq!(kern_err(0xe00002c0u32 as i32), "kIOReturnNotReady");
    assert_eq!(kern_err(0xe00002c2u32 as i32), "kIOReturnNotPermitted");
    assert_eq!(kern_err(0xe00002edu32 as i32), "kIOReturnNotFound");
    assert_eq!(kern_err(5), "0x00000005");
    assert_eq!(kern_err(-1), "0xffffffff");
    assert_eq!(kern_err_str(0), "KERN_SUCCESS");
    assert_eq!(kern_err_str(0xe00002bcu32 as i32), "0xe00002bc");
    assert_eq!(
        call_failure("IOConnectCallStructMethod", 0xe00002c2u32 as i32),
        "IOConnectCallStructMethod failed: 0xe00002c2 (-536870206)"
    );
    assert_eq!(call_failure("f", 0), "f failed: KERN_SUCCESS (0)");
}

#[test]
fn protections() {
    assert_eq!(prot_str(0), "---");
    assert_eq!(prot_str(1), "r--");
    assert_eq!(prot_str(3), "rw-");
    assert_eq!(prot_str(5), "r-x");
    assert_eq!(prot_str(7), "rwx");
    assert_eq!(prot_str(8), "---");
}

fn expected_bytes(b: usize) -> String {
    if b >= 1 << 30 {
        format!("{:.1} GB", b as f64 / (1u64 << 30) as f64)
    } else if b >= 1 << 20 {
        format!("{:.1} MB", b as f64 / (1u64 << 20) as f64)
    } else if b >= 1 << 10 {
        format!("{:.1} KB", b as f64 / 1024.0)
    } else {
        format!("{} B", b)
    }
}

#[test]
fn sizes_as_text() {
    assert_eq!(fmt_bytes(0), "0 B");
    assert_eq!(fmt_bytes(1023), "1023 B");
    assert_eq!(fmt_bytes(1024), "1.0 KB");
    assert_eq!(fmt_bytes(1536), "1.5 KB");
    assert_eq!(fmt_bytes(1024 * 1024), "1.0 MB");
    assert_eq!(fmt_bytes(256 * 1024 * 1024), "256.0 MB");
    assert_eq!(fmt_bytes(1024 * 1024 - 1), "1024.0 KB");
    assert_eq!(fmt_bytes(3 << 30), "3.0 GB");
    for b in (1024..200_000).step_by(3) {
        assert_eq!(fmt_bytes(b), expected_bytes(b));
    }
    // Ties: a quarter and three quarters of a tenth of a unit.
    for k in 1..40usize {
        for b in [k * 256, k * 512, k << 18, k << 19, k << 28, k << 29] {
            assert_eq!(fmt_bytes(b), expected_bytes(b));
        }
    }
    // Sizes that a double cannot hold exactly.
    for shift in 52..64 {
        for d in 0..40usize {
            let b = (1usize << shift).wrapping_add(d.wrapping_mul(0x1357_9bdf)) ^ d;
            assert_eq!(fmt_bytes(b), expected_bytes(b));
            let c = (1usize << shift).wrapping_sub(1 + d);
            assert_eq!(fmt_bytes(c), expected_bytes(c));
        }
    }
    assert_eq!(fmt_bytes(usize::MAX), expected_bytes(usize::MAX));
    assert_eq!(size_label(4096), "4KB");
    assert_eq!(size_label(16384), "16KB");
    assert_eq!(size_label(1024 * 1024), "1MB");
    assert_eq!(size_label(256 * 1024 * 1024), "256MB");
    assert_eq!(size_label(1024 * 1024 - 1), "1023KB");
}

#[test]
fn hypervisor_statuses() {
    assert_eq!(hv_error_name(0), "HV_SUCCESS");
    assert_eq!(hv_error_name(0xFAE94001u32 as i32), "HV_ERROR");
    assert_eq!(hv_error_name(0xFAE94002u32 as i32), "HV_BUSY");
    assert_eq!(hv_error_name(0xFAE94003u32 as i32), "HV_BAD_ARGUMENT");
    assert_eq!(hv_error_name(0xFAE94004u32 as i32), "HV_ILLEGAL_GUEST_STATE");
    assert_eq!(hv_error_name(0xFAE94005u32 as i32), "HV_NO_RESOURCES");
    assert_eq!(hv_error_name(0xFAE94006u32 as i32), "HV_NO_DEVICE");
    assert_eq!(hv_error_name(0xFAE94007u32 as i32), "HV_DENIED");
    assert_eq!(hv_error_name(0xFAE9400Fu32 as i32), "HV_UNSUPPORTED");
    assert_eq!(hv_error_name(1), "UNKNOWN");
    assert_eq!(check_hv("hv_vm_map", 0), None);
    assert_eq!(
        check_hv("hv_vm_create", 0xFAE94007u32 as i32),
        Some(String::from("  FAIL: hv_vm_create returned -85377017 (0xFAE94007 = HV_DENIED)"))
    );
}

#[test]
fn hypervisor_ranges_do_not_overlap() {
    let all = trials();
    for pair in all.windows(2) {
        assert!(pair[0].guest + pair[0].size as u64 <= pair[1].guest);
    }
    for trial in all {
        assert_eq!(trial.size % 16384, 0);
        assert_eq!(trial.guest % 16384, 0);
    }
    let rows: Vec<u64> = (0..100).map(|i| row_guest(0x2_0000_0000, i, 16384)).collect();
    assert_eq!(rows[1], 0x2_0000_4000);
    for pair in rows.windows(2) {
        assert!(pair[0] + 16384 <= pair[1]);
    }
    assert_eq!(toggled_flags(0), 1);
    assert_eq!(toggled_flags(1), 3);
    assert_eq!(toggled_flags(2), 1);
}

#[test]
fn hypervisor_trials_are_undone() {
    let run = TrialRun::Allocate;
    assert_eq!(run.allocated(0), TrialRun::Over);
    let run = run.allocated(0x4000);
    assert_eq!(run, TrialRun::MapMemory { address: 0x4000 });
    assert_eq!(run.mapped(-85377021), TrialRun::Free { address: 0x4000 });
    let run = run.mapped(0);
    assert_eq!(run, TrialRun::Examine { address: 0x4000 });
    let run = run.done();
    assert_eq!(run, TrialRun::Unmap { address: 0x4000 });
    let run = run.done();
    assert_eq!(run, TrialRun::Free { address: 0x4000 });
    assert_eq!(run.done(), TrialRun::Over);
}

fn row(rounds: u64, map_fails: Option<u64>, unmap_fails: Option<u64>) -> (Vec<u64>, Vec<u64>, u64) {
    let mut mapped_rows = Vec::new();
    let mut unmapped_rows = Vec::new();
    let mut run = RowRun::start(rounds);
    loop {
        let status = match run {
            RowRun::Mapping { i } => {
                if Some(i) == map_fails {
                    -1
                } else {
                    mapped_rows.push(i);
                    0
                }
            }
            RowRun::Unmapping { i, .. } => {
                if Some(i) == unmap_fails {
                    -1
                } else {
                    unmapped_rows.push(i);
                    0
                }
            }
            RowRun::Done { mapped } => return (mapped_rows, unmapped_rows, mapped),
        };
        run = run.answered(status, rounds);
    }
}

#[test]
fn hypervisor_rows_are_undone() {
    assert_eq!(row(3, None, None), (vec![0, 1, 2], vec![0, 1, 2], 3));
    assert_eq!(row(5, Some(2), None), (vec![0, 1], vec![0, 1], 2));
    assert_eq!(row(5, Some(0), None), (vec![], vec![], 0));
    assert_eq!(row(0, None, None), (vec![], vec![], 0));
    assert_eq!(row(4, None, Some(1)), (vec![0, 1, 2, 3], vec![0], 4));
}

#[test]
fn hypervisor_repetitions() {
    let mut run = ProtectRun::start(3);
    for i in 0..3 {
        assert_eq!(run, ProtectRun::Toggling { i });
        run = run.answered(0, 3);
    }
    assert_eq!(run, ProtectRun::Over { done: 3 });
    assert_eq!(ProtectRun::start(0), ProtectRun::Over { done: 0 });
    assert_eq!(ProtectRun::Toggling { i: 1 }.answered(-1, 3), ProtectRun::Over { done: 1 });
    let mut run = PairRun::start(2);
    for done in 0..2 {
        assert_eq!(run, PairRun::MapRange { done });
        run = run.answered(0, 2);
        assert_eq!(run, PairRun::UnmapRange { done });
        run = run.answered(0, 2);
    }
    assert_eq!(run, PairRun::Over { done: 2 });
    assert_eq!(PairRun::MapRange { done: 1 }.answered(-1, 2), PairRun::Over { done: 1 });
    assert_eq!(PairRun::UnmapRange { done: 1 }.answered(-1, 2), PairRun::Over { done: 1 });
    assert_eq!(PairRun::start(0), PairRun::Over { done: 0 });
}

#[test]
fn page_pattern_round_trip() {
    let mut bytes = vec![0u8; 3 * 16384 + 100];
    write_test_pattern(&mut bytes);
    for (i, &byte) in bytes.iter().enumerate() {
        let expected = ((i / 16384) * 16 + i % 16384) as u8;
        assert_eq!(byte, expected);
        assert_eq!(Pattern::Paged.byte(i), expected);
    }
    let report = verify_test_pattern(&bytes);
    assert!(report.ok());
    assert_eq!(report.more(), None);
    for i in [5usize, 9, 20000, 20001, 20002, 20003, 49151] {
        bytes[i] ^= 0x80;
    }
    let report = verify_test_pattern(&bytes);
    assert!(!report.ok());
    assert_eq!(report.mismatches, 7);
    assert_eq!(report.more(), Some(2));
    let offsets: Vec<usize> = report.first.iter().map(|m| m.offset).collect();
    assert_eq!(offsets, vec![5, 9, 20000, 20001, 20002]);
    assert_eq!(report.first[0], Mismatch { offset: 5, expected: 5, actual: 0x85 });
}

#[test]
fn counting_pattern_round_trip() {
    let mut bytes = vec![0u8; 3000];
    write_pattern(&mut bytes);
    assert_eq!(bytes[255], 255);
    assert_eq!(bytes[256], 0);
    assert_eq!(verify_pattern(&bytes, 1000), None);
    bytes[1500] ^= 1;
    assert_eq!(verify_pattern(&bytes, 1000), None);
    bytes[2000] ^= 1;
    assert_eq!(
        verify_pattern(&bytes, 1000),
        Some(Mismatch { offset: 2000, expected: 208, actual: 209 })
    );
    bytes[999] ^= 1;
    assert_eq!(verify_pattern(&bytes, 1000).unwrap().offset, 999);
    assert_eq!(verify_pattern(&bytes[1000..1001], 1000).unwrap().offset, 0);
    assert_eq!(Pattern::Sevens.byte(100), 188);
    let mut halves = [7u16; 5];
    fill_halves(&mut halves);
    assert_eq!(halves, [0x3C00; 5]);
    let mut few = [0u8; 4];
    Pattern::Sevens.fill(&mut few);
    assert_eq!(few, [0, 7, 14, 21]);
    assert_eq!(Pattern::Sevens.first_mismatch(&few, 0, 4), None);
}

#[test]
fn benchmark_summaries() {
    let times: Vec<u128> = vec![50, 10, 40, 20, 31];
    assert_eq!(summarize(times.clone()), Summary { min: 10, median: 31, mean: 30 });
    assert_eq!(median(times), 31);
    assert_eq!(summarize(vec![4, 2]), Summary { min: 2, median: 4, mean: 3 });
    assert_eq!(summarize(vec![9]), Summary { min: 9, median: 9, mean: 9 });
    let mut many: Vec<u128> = (0..100u128).map(|i| (i * 37) % 101).collect();
    let m = median(many.clone());
    many.sort();
    assert_eq!(m, many[50]);
    assert_eq!(access_rounds(1024 * 1024), 20);
    assert_eq!(access_rounds(1024 * 1024 + 1), 5);
    assert_eq!(create_rounds(1024 * 1024), 100);
    assert_eq!(create_rounds(1024 * 1024 + 1), 20);
    assert_eq!(count_mismatches(&[1, 2, 1, 3], 1), 2);
    assert_eq!(count_mismatches(&[], 1), 0);
}

#[test]
fn samples() {
    for size in [0usize, 63, 64, 640, 1 << 20] {
        let order = sample_order(size);
        assert_eq!(order.len(), (size / 64).min(10_000));
        let mut sorted = order.clone();
        sorted.sort();
        for (i, offset) in sorted.iter().enumerate() {
            assert_eq!(*offset, i * 64);
        }
    }
    let mut expected: Vec<usize> = (0..10).map(|i| i * 64).collect();
    let mut state: u64 = 0xBADC0FFEE0DDF00D;
    for i in (1..10).rev() {
        state ^= state << 13;
        state ^= state >> 7;
        state ^= state << 17;
        let j = (state as usize) % (i + 1);
        expected.swap(i, j);
    }
    assert_eq!(sample_order(640), expected);
    assert_ne!(sample_order(640), (0..10).map(|i| i * 64).collect::<Vec<usize>>());
    assert_eq!(stride_offset(3, 1000), 192);
    assert_eq!(stride_offset(16, 1000), 24);
}

#[test]
fn page_surveys() {
    assert_eq!(page_offsets(40000, 16384), vec![0, 16384, 32768]);
    assert_eq!(page_offsets(32768, 16384), vec![0, 16384]);
    assert_eq!(page_offsets(0, 16384), Vec::<usize>::new());
    for byte in (0..40000usize).step_by(11) {
        let start = page_offsets(40000, 16384)[byte / 16384];
        assert!(start <= byte && byte < start + 16384);
    }
    assert_eq!(pages_covering(40000, 16384), 3);
    assert_eq!(pages_covering(32768, 16384), 2);
    assert_eq!(pages_covering(0, 16384), 0);
    assert_eq!(surveyed(10), 10);
    assert_eq!(surveyed(100), 32);
    assert_eq!(page_line(7, 32), PageLine::Detail);
    assert_eq!(page_line(8, 32), PageLine::Ellipsis);
    assert_eq!(page_line(9, 32), PageLine::Silent);
    assert_eq!(page_line(31, 32), PageLine::Detail);
    assert_eq!(page_line(8, 9), PageLine::Detail);
    assert!(failure_is_shown(3));
    assert!(!failure_is_shown(4));
    let mut same = ChangeCounter::new();
    let mut mixed = ChangeCounter::new();
    for i in 0..6u64 {
        same.see(9);
        mixed.see(i / 2);
    }
    assert!(same.is_uniform());
    assert!(!mixed.is_uniform());
    assert_eq!(mixed.changes, 2);
    assert_eq!(mixed.last, Some(2));
}

#[test]
fn page_dispositions() {
    let d = disposition(0b1010_0000_1001);
    assert!(d.present && d.dirty && d.validated && d.not_executable);
    assert!(!d.fictitious && !d.referenced && !d.paged_out && !d.encrypted && !d.compressed);
    let d = disposition(0b0111_0110);
    assert!(d.fictitious && d.referenced && d.paged_out && d.encrypted && d.compressed);
    assert!(!d.present && !d.dirty && !d.validated && !d.not_executable);
}

fn walk(map: &[Region], base: u64, size: usize) -> RegionWalk {
    let mut walk = RegionWalk::new(base, size);
    while let Some(at) = walk.query() {
        match map.iter().find(|r| r.start + r.size > at) {
            Some(region) => {
                walk.found(*region);
            }
            None => walk.failed(),
        }
    }
    walk
}

#[test]
fn region_walks() {
    let map = [
        Region { start: 0x1000, size: 0x1000 },
        Region { start: 0x2000, size: 0x3000 },
        Region { start: 0x8000, size: 0x1000 },
    ];
    let one = walk(&map, 0x2000, 0x3000);
    assert_eq!(one.count, 1);
    assert!(one.is_contiguous() && one.is_unbroken());
    let two = walk(&map, 0x1800, 0x1000);
    assert_eq!(two.count, 2);
    assert!(!two.is_contiguous() && !two.is_unbroken());
    let all = walk(&map, 0x1000, 0x8000);
    assert_eq!(all.count, 3);
    let gap = walk(&map, 0x5000, 0x1000);
    assert_eq!(gap.count, 0);
    assert!(gap.stopped);
    assert!(!gap.is_contiguous() && gap.is_unbroken());
    let behind = walk(&map, 0x9000, 0x1000);
    assert_eq!(behind.count, 0);
}

#[test]
fn connecting_with_a_kept_service() {
    let mut c = Connecting::start(true);
    assert_eq!(c.request(), Some(ConnectRequest::MatchName));
    c = c.advance(ConnectReply::Matched(true));
    assert_eq!(c.request(), Some(ConnectRequest::Find));
    c = c.advance(ConnectReply::Service(5));
    assert_eq!(c.request(), Some(ConnectRequest::Open { service: 5 }));
    c = c.advance(ConnectReply::Opened { status: 0, connection: 8 });
    assert_eq!(c.request(), None);
    assert_eq!(c, Connecting::Connected(Connection { connection: 8, service: Some(5) }));
}

#[test]
fn connecting_without_keeping_the_service() {
    let mut c = Connecting::start(false)
        .advance(ConnectReply::Matched(true))
        .advance(ConnectReply::Service(5))
        .advance(ConnectReply::Opened { status: 0, connection: 8 });
    assert_eq!(c.request(), Some(ConnectRequest::Release { service: 5 }));
    c = c.advance(ConnectReply::Released);
    assert_eq!(c, Connecting::Connected(Connection { connection: 8, service: None }));
}

#[test]
fn connecting_fails() {
    assert_eq!(
        Connecting::start(true).advance(ConnectReply::Matched(false)),
        Connecting::Failed(ConnectError::NoMatching)
    );
    assert_eq!(
        Connecting::start(true)
            .advance(ConnectReply::Matched(true))
            .advance(ConnectReply::Service(0)),
        Connecting::Failed(ConnectError::NoService)
    );
    for keep in [true, false] {
        let refused = Connecting::start(keep)
            .advance(ConnectReply::Matched(true))
            .advance(ConnectReply::Service(5))
            .advance(ConnectReply::Opened { status: -2, connection: 0 });
        assert_eq!(refused.request(), Some(ConnectRequest::Release { service: 5 }));
        assert_eq!(
            refused.advance(ConnectReply::Released),
            Connecting::Failed(ConnectError::Refused(-2))
        );
    }
    assert_eq!(ConnectError::NoMatching.describe("D"), "IOServiceMatching returned null");
    assert_eq!(
        ConnectError::NoService.describe("CybMemDriver"),
        "IOServiceGetMatchingService found no 'CybMemDriver' service. Is the DEXT loaded? \
         Check: sudo systemextensionsctl list"
    );
    assert_eq!(
        ConnectError::Refused(-536870206).describe("D"),
        "IOServiceOpen failed: 0xe00002c2 (-536870206)"
    );
    assert_eq!(create_failure(4096), "IOSurfaceCreate failed for 4096 bytes");
}

#[test]
fn examinations() {
    let stage = Examination::Info.done().done();
    assert_eq!(stage, Examination::MapBuffer);
    assert_eq!(stage.mapped(-1, 0, 0), Examination::Finished);
    let stage = stage.mapped(0, 0x5000, 100);
    assert_eq!(stage, Examination::Examine { address: 0x5000, size: 100 });
    let stage = stage.done();
    assert_eq!(stage, Examination::Unmap { address: 0x5000 });
    assert_eq!(stage.done(), Examination::Finished);
}

#[test]
fn segments() {
    assert_eq!(
        segment_report(0),
        SegmentReport { count: 0, shown: 0, hidden: 0, contiguity: Contiguity::Unknown }
    );
    assert_eq!(
        segment_report(31),
        SegmentReport { count: 1, shown: 1, hidden: 0, contiguity: Contiguity::Contiguous }
    );
    assert_eq!(
        segment_report(16 * 20),
        SegmentReport { count: 20, shown: 16, hidden: 4, contiguity: Contiguity::Fragmented }
    );
    assert_eq!(segments_held(3), 3);
    assert_eq!(segments_held(33), 32);
    let mut coverage = Coverage::new();
    assert_eq!(coverage.add_segment(16384), 1);
    assert_eq!(coverage.add_segment(16385), 2);
    assert_eq!(coverage.mapped, 32769);
    assert_eq!(coverage.pages(), 2);
    assert!(coverage.covers(32769));
    assert!(!coverage.covers(32770));
}

#[test]
fn small_verdicts() {
    assert_eq!(round_trip(0, 1, Some(1)), RoundTrip::NoPort);
    assert_eq!(round_trip(9, 1, None), RoundTrip::NotFound);
    assert_eq!(round_trip(9, 1, Some(1)), RoundTrip::Found { same: true });
    assert_eq!(round_trip(9, 1, Some(2)), RoundTrip::Found { same: false });
    assert_eq!(address_gap(10, 4), 6);
    assert_eq!(address_gap(4, 10), 6);
    assert_eq!(address_gap(4, 4), 0);
    assert_eq!(
        framework_path("ANECompiler"),
        "/System/Library/PrivateFrameworks/ANECompiler.framework/ANECompiler"
    );
    assert!(all_loaded(&[true, true]));
    assert!(!all_loaded(&[true, false]));
    assert!(all_loaded(&[]));
}
