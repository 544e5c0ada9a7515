use sports_day::{process_jiffies, rss_bytes, total_jiffies};

#[test]
fn total_jiffies_sums_the_cpu_line() {
    let stat = "cpu  10 20 30 x 40\ncpu0 1 2 3\nintr 5\n";
    assert_eq!(total_jiffies(stat), Some(100));
    assert_eq!(total_jiffies("intr 1 2\ncpu0 3 4\n"), None);
    assert_eq!(total_jiffies("cpu \n"), Some(0));
}

#[test]
fn total_jiffies_saturates() {
    let stat = format!("cpu  {} {}\n", u64::MAX, 5);
    assert_eq!(total_jiffies(&stat), Some(u64::MAX));
}

#[test]
fn process_jiffies_adds_user_and_system_time() {
    let mut fields: Vec<String> = (1..=20).map(|n| n.to_string()).collect();
    fields[13] = "700".to_string();
    fields[14] = "45".to_string();
    assert_eq!(process_jiffies(&fields.join(" ")), Some(745));
    fields[14] = "x".to_string();
    assert_eq!(process_jiffies(&fields.join(" ")), None);
    let short: Vec<String> = (1..=15).map(|n| n.to_string()).collect();
    assert_eq!(process_jiffies(&short.join(" ")), None);
}

#[test]
fn rss_bytes_reads_the_first_vmrss_line() {
    let status = "Name:\tsports\nVmRSS:\t  2048 kB\nVmRSS: 1 kB\n";
    assert_eq!(rss_bytes(status), Some(2048 * 1024));
    assert_eq!(rss_bytes("VmRSS:\nVmRSS: x kB\nVmRSS: 3 kB\n"), Some(3 * 1024));
    assert_eq!(rss_bytes("Name: x\n"), None);
    let huge = format!("VmRSS: {} kB\n", u64::MAX);
    assert_eq!(rss_bytes(&huge), None);
}
