use spatiand::system::{
    format_rate, parse_cpu, parse_disk, parse_gpu_busy, parse_memory, parse_net, parse_volume,
    Backlight, CpuTotals, Monitors, Rates, Readings, Series, HISTORY, RATE_FLOOR, SAMPLE_EVERY,
};

#[test]
fn cpu_busy_excludes_idle_and_iowait() {
    // Counting iowait as work is the classic error and makes a machine waiting on disk
    // look pegged at 100%.
    let text = "cpu  100 20 30 1000 50 5 5 0 0 0\ncpu0 1 2 3 4 5\n";
    let t = parse_cpu(text).expect("parses");
    assert_eq!(t.total, 100 + 20 + 30 + 1000 + 50 + 5 + 5);
    assert_eq!(t.busy, t.total - 1050, "idle and iowait are not work");
}

#[test]
fn a_truncated_cpu_line_is_rejected_rather_than_half_read() {
    assert!(parse_cpu("cpu  1 2\n").is_none());
    assert!(parse_cpu("something else\n").is_none());
}

#[test]
fn memory_uses_available_not_free() {
    // Free memory on Linux is nearly always small because the kernel caches with the rest;
    // reporting it shows a healthy machine as permanently full.
    let text = "MemTotal:       15160360 kB\nMemFree:          200000 kB\n\
                MemAvailable:   12625676 kB\n";
    let used = parse_memory(text).expect("parses");
    assert!((used - 167_000).abs() < 10_000, "got {used}");
}

#[test]
fn memory_survives_a_missing_field() {
    assert!(parse_memory("MemTotal: 100 kB\n").is_none());
    assert!(parse_memory("").is_none());
}

#[test]
fn volume_is_read_from_wpctls_output() {
    assert_eq!(parse_volume("Volume: 0.45\n"), Some(450_000));
    assert_eq!(parse_volume("Volume: 0.45 [MUTED]\n"), Some(450_000));
    assert_eq!(parse_volume("nonsense"), None);
}

/// `/proc/net/dev` as a Deck on Wi-Fi with Tailscale up prints it, including a receive
/// counter large enough to run into its colon.
const NET_DEV: &str = "\
Inter-|   Receive                                                |  Transmit
 face |bytes    packets errs drop fifo frame compressed multicast|bytes    packets errs drop fifo colls carrier compressed
    lo:  901234     100    0    0    0     0          0         0   901234     100    0    0    0     0       0          0
 wlan0:12345678901 9000    0    0    0     0          0         0  5550000    4000    0    0    0     0       0          0
tailscale0: 3000000   2000    0    0    0     0          0         0  1000000    1000    0    0    0     0       0          0
";

#[test]
fn network_traffic_is_counted_once_on_the_real_interface() {
    let only_wlan = parse_net(NET_DEV, |name: &str| name == "wlan0");
    assert_eq!(only_wlan, Some([12_345_678_901, 5_550_000]));
}

#[test]
fn no_real_interface_is_no_reading_rather_than_zero() {
    assert_eq!(parse_net(NET_DEV, |_: &str| false), None);
}

const DISKSTATS: &str = "\
 259       0 nvme0n1 5000 10 400000 900 3000 20 200000 800 0 1000 1700 0 0 0 0 0 0
 259       1 nvme0n1p1 100 0 8000 10 50 0 4000 5 0 20 15 0 0 0 0 0 0
   7       0 loop0 20 0 160 1 0 0 0 0 0 1 1 0 0 0 0 0 0
";

#[test]
fn a_disk_is_counted_in_bytes_and_its_partitions_are_not_counted_again() {
    let whole = parse_disk(DISKSTATS, |name: &str| name == "nvme0n1");
    assert_eq!(whole, Some([400_000 * 512, 200_000 * 512]));
}

#[test]
fn a_rate_reads_the_way_a_person_says_it() {
    assert_eq!(format_rate(0), "0 B/s");
    assert_eq!(format_rate(740 * 1024), "740 KB/s");
    assert_eq!(format_rate((1.44 * 1024.0 * 1024.0) as u64), "1.4 MB/s");
    assert_eq!(format_rate((12.3 * 1024.0 * 1024.0) as u64), "12 MB/s");
}

#[test]
fn two_figures_below_ten_in_every_unit() {
    assert_eq!(format_rate(1023), "1023 B/s");
    assert_eq!(format_rate(1024), "1.0 KB/s");
    assert_eq!(format_rate(1536), "1.5 KB/s");
    assert_eq!(format_rate(12 * 1024), "12 KB/s");
    assert_eq!(format_rate(1536 * 1024 * 1024), "1.5 GB/s");
}

#[test]
fn a_rate_is_the_nearest_whole_byte() {
    let nothing = Readings { net: Some([0, 0]), disk: None, cpu: None, gpu: None, memory: None };
    let mut monitors = Monitors::new(nothing, 0);
    // One byte and two bytes, in a second and a half.
    let now = SAMPLE_EVERY + SAMPLE_EVERY / 2;
    assert!(monitors.tick(now, Readings { net: Some([1, 2]), ..nothing }));
    assert_eq!(monitors.network.samples().last().copied(), Some([1, 1]));
}

#[test]
fn memory_is_read_as_a_decimal() {
    let used = |total: &str, free: &str| {
        parse_memory(&format!("MemTotal: {total} kB\nMemAvailable: {free} kB\n"))
    };
    assert_eq!(used("200", "100.5"), Some(497_500));
    assert_eq!(used("1e5", "2.5E4"), Some(750_000));
    assert_eq!(used("100", "-50"), Some(1_500_000));
    assert_eq!(used("100", "150"), Some(-500_000));
    assert_eq!(used("0", "0"), None);
    assert_eq!(used("-1", "0"), None);
    assert_eq!(used("1e99", "0"), Some(1_000_000));
    assert_eq!(used("1e99", "1e99"), Some(0));
    assert_eq!(used("inf", "0"), None);
    assert_eq!(used("lots", "0"), None);
}

#[test]
fn an_idle_link_is_not_drawn_as_a_busy_one() {
    let mut rates = Rates::new("NET", ["d", "u"]);
    rates.push([300, 40]);
    assert_eq!(rates.scale(), RATE_FLOOR, "background chatter must not fill the graph");
    rates.push([4_000_000, 100_000]);
    assert_eq!(rates.scale(), 4_000_000);
    // A counter that runs backwards, or that cannot be read, is no rate at all.
    let at = |net| Readings { net, disk: None, cpu: None, gpu: None, memory: None };
    let mut monitors = Monitors::new(at(Some([1_000, 5_000])), 0);
    assert!(monitors.tick(SAMPLE_EVERY, at(Some([4_000, 9_000]))));
    assert_eq!(monitors.network.latest(), [3_000, 4_000]);
    assert!(monitors.tick(2 * SAMPLE_EVERY, at(Some([10, 8_999]))));
    assert_eq!(monitors.network.latest(), [0, 0]);
    assert!(monitors.tick(3 * SAMPLE_EVERY, at(None)));
    assert_eq!(monitors.network.latest(), [0, 0]);
}

#[test]
fn a_series_keeps_a_bounded_history() {
    // Unbounded, this grows for the life of the session and the graph's horizontal scale
    // changes every second.
    let mut s = Series::new("x");
    for i in 0..(HISTORY * 3) {
        s.push(i as i128 * 1_000_000 / (HISTORY * 3) as i128);
    }
    assert_eq!(s.len(), HISTORY);
    assert!(
        s.latest() > 900_000,
        "the newest sample should be the last pushed"
    );
}

#[test]
fn a_series_clamps_out_of_range_readings() {
    // A driver reporting 101% or a negative delta would otherwise draw outside the graph.
    let mut s = Series::new("x");
    s.push(4_000_000);
    assert_eq!(s.latest(), 1_000_000);
    s.push(-2_000_000);
    assert_eq!(s.latest(), 0);
}

#[test]
fn an_empty_series_reads_as_zero_rather_than_panicking() {
    assert_eq!(Series::new("x").latest(), 0);
    assert!(Series::new("x").is_empty());
}

#[test]
fn the_gpus_percentage_is_read_as_a_share() {
    assert_eq!(parse_gpu_busy("37\n"), Some(370_000));
    assert_eq!(parse_gpu_busy("120\n"), Some(1_000_000));
    assert_eq!(parse_gpu_busy("busy\n"), None);
}

#[test]
fn a_loud_volume_is_believed_up_to_half_as_much_again() {
    assert_eq!(parse_volume("Volume: 3.2\n"), Some(1_500_000));
    assert_eq!(parse_volume("Volume: -0.5\n"), Some(0));
    // Powers of ten, whichever way they go and however far.
    assert_eq!(parse_volume("Volume: 4.5e-1"), Some(450_000));
    assert_eq!(parse_volume("Volume: .0045E+2"), Some(450_000));
    assert_eq!(parse_volume("Volume: 45000000e-8"), Some(450_000));
    assert_eq!(parse_volume("Volume: 1e99999999999999999999999999"), Some(1_500_000));
    assert_eq!(parse_volume("Volume: 1e-99999999999999999999999999"), Some(0));
    assert_eq!(parse_volume("Volume: 0e99999999999999999999999999"), Some(0));
    assert_eq!(parse_volume("Volume: 1e12"), Some(1_500_000));
    assert_eq!(parse_volume("Volume: Inf"), Some(1_500_000));
    assert_eq!(parse_volume("Volume: -INFINITY"), Some(0));
    for odd in ["1e", "e5", ".", "+", "1e+-5", "1.2.3", "infinite", "1e5e5", "1E5e5"] {
        assert_eq!(parse_volume(&format!("Volume: {odd}")), None, "{odd}");
    }
}

fn readings(busy: u64, total: u64, received: u64) -> Readings {
    Readings {
        net: Some([received, 0]),
        disk: None,
        cpu: Some(CpuTotals { busy, total }),
        gpu: Some(250_000),
        memory: Some(400_000),
    }
}

#[test]
fn a_sample_is_the_difference_since_the_last() {
    let mut monitors = Monitors::new(readings(100, 1_000, 5_000), 0);
    assert!(!monitors.tick(SAMPLE_EVERY - 1, readings(150, 1_100, 9_000)));
    assert!(monitors.due(2 * SAMPLE_EVERY));
    assert!(monitors.tick(2 * SAMPLE_EVERY, readings(150, 1_100, 9_000)));
    assert_eq!(monitors.cpu.latest(), 500_000);
    assert_eq!(monitors.gpu.latest(), 250_000);
    assert_eq!(monitors.memory.latest(), 400_000);
    assert_eq!(monitors.network.latest(), [2_000, 0]);
    assert_eq!(monitors.disk.latest(), [0, 0]);
}

#[test]
fn a_counter_that_goes_backwards_is_no_rate_at_all() {
    let mut monitors = Monitors::new(readings(100, 1_000, 5_000), 0);
    assert!(monitors.tick(SAMPLE_EVERY, readings(150, 1_100, 10)));
    assert_eq!(monitors.network.latest(), [0, 0]);
}

#[test]
fn the_backlight_reads_and_writes_shares() {
    let light = Backlight::found("/sys/class/backlight/amdgpu", "65535\n").expect("found");
    assert_eq!(light.path, "/sys/class/backlight/amdgpu/brightness");
    assert_eq!(light.level("65535\n"), Some(1_000_000));
    assert_eq!(light.value_for(500_000), 32_768);
    assert_eq!(light.value_for(0), 0);
    assert_eq!(light.value_for(2_000_000), 65_535);
    assert!(Backlight::found("/sys/class/backlight/odd", "none\n").is_none());
    assert_eq!(light.level("dark\n"), None);
}
