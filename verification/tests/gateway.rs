use rustpanel::auth::{authorize, login, AuthError, TOKEN_LIFETIME_SECS};
use rustpanel::files::{path_is_forbidden, sort_file_entries, FileEntry};
use rustpanel::metrics::{build_snapshot, percent_basis_points, sum_disks, DiskSample};
use rustpanel::procs::{top_processes, ProcessEntry};
use rustpanel::services::{classify_service, service_status, watched_services, ServiceState};
use std::time::{SystemTime, UNIX_EPOCH};

fn now_unix() -> u64 {
    SystemTime::now().duration_since(UNIX_EPOCH).unwrap().as_secs()
}

#[test]
fn percent_zero_total_is_zero() {
    assert_eq!(percent_basis_points(0, 0), 0);
    assert_eq!(percent_basis_points(12345, 0), 0);
    assert_eq!(percent_basis_points(u64::MAX, 0), 0);
}

#[test]
fn percent_exact_values() {
    assert_eq!(percent_basis_points(1, 2), 5000);
    assert_eq!(percent_basis_points(1, 3), 3333);
    assert_eq!(percent_basis_points(50, 200), 2500);
    assert_eq!(percent_basis_points(200, 200), 10000);
    assert_eq!(percent_basis_points(0, 7), 0);
    assert_eq!(percent_basis_points(u64::MAX, u64::MAX), 10000);
}

#[test]
fn percent_clamped_when_used_exceeds_total() {
    assert_eq!(percent_basis_points(5, 2), 10000);
    assert_eq!(percent_basis_points(u64::MAX, 1), 10000);
}

#[test]
fn disk_sums_are_exact() {
    let disks = vec![
        DiskSample { total: 1000, avail: 400 },
        DiskSample { total: 500, avail: 500 },
        DiskSample { total: 200, avail: 0 },
    ];
    let (total, used) = sum_disks(&disks);
    assert_eq!(total, 1700);
    assert_eq!(used, 800);
}

#[test]
fn disk_sums_saturate_instead_of_wrapping() {
    let disks = vec![
        DiskSample { total: u64::MAX, avail: 0 },
        DiskSample { total: 10, avail: 0 },
    ];
    let (total, used) = sum_disks(&disks);
    assert_eq!(total, u64::MAX);
    assert_eq!(used, u64::MAX);
    // An inconsistent sample (more available than total) counts as zero used.
    let odd = vec![DiskSample { total: 5, avail: 9 }];
    let (t, u) = sum_disks(&odd);
    assert_eq!(t, 5);
    assert_eq!(u, 0);
}

#[test]
fn snapshot_zero_totals_give_zero_percentages() {
    let snap = build_snapshot(0, 0, 0, &vec![], None, None);
    assert_eq!(snap.memory_bp, 0);
    assert_eq!(snap.disk_bp, 0);
    assert_eq!(snap.total_disk, 0);
    assert_eq!(snap.used_disk, 0);
    assert_eq!(snap.os_name, "Unknown");
    assert_eq!(snap.host_name, "Unknown");
}

#[test]
fn snapshot_percentages_within_bounds() {
    let disks = vec![DiskSample { total: 100, avail: 25 }];
    let snap = build_snapshot(
        7321,
        16_000,
        4_000,
        &disks,
        Some("Linux".to_string()),
        Some("host1".to_string()),
    );
    assert_eq!(snap.cpu_bp, 7321);
    assert_eq!(snap.memory_bp, 2500);
    assert_eq!(snap.total_disk, 100);
    assert_eq!(snap.used_disk, 75);
    assert_eq!(snap.disk_bp, 7500);
    assert!(snap.cpu_bp <= 10000 && snap.memory_bp <= 10000 && snap.disk_bp <= 10000);
    assert_eq!(snap.os_name, "Linux");
    assert_eq!(snap.host_name, "host1");
}

#[test]
fn snapshot_repeated_calls_are_stable() {
    let disks = vec![DiskSample { total: 100, avail: 40 }];
    let a = build_snapshot(100, 10, 5, &disks, None, None);
    let b = build_snapshot(100, 10, 5, &disks, None, None);
    assert_eq!(a.memory_bp, b.memory_bp);
    assert_eq!(a.disk_bp, b.disk_bp);
    assert_eq!(a.total_disk, b.total_disk);
    assert_eq!(a.used_disk, b.used_disk);
}

fn proc(pid: u32, name: &str, cpu_bp: u64) -> ProcessEntry {
    ProcessEntry { pid, name: name.to_string(), cpu_bp, memory: 1024 }
}

#[test]
fn processes_sorted_non_increasing() {
    let input = vec![proc(1, "a", 50), proc(2, "b", 900), proc(3, "c", 0), proc(4, "d", 900)];
    let out = top_processes(input);
    assert_eq!(out.len(), 4);
    for w in out.windows(2) {
        assert!(w[0].cpu_bp >= w[1].cpu_bp);
    }
    assert_eq!(out[0].pid, 2);
    assert_eq!(out[1].pid, 4);
    assert_eq!(out[2].pid, 1);
    assert_eq!(out[3].pid, 3);
}

#[test]
fn processes_ties_keep_enumeration_order() {
    let input = vec![proc(10, "x", 100), proc(11, "y", 100), proc(12, "z", 100)];
    let out = top_processes(input);
    let pids: Vec<u32> = out.iter().map(|p| p.pid).collect();
    assert_eq!(pids, vec![10, 11, 12]);
}

#[test]
fn processes_truncated_to_twenty() {
    let mut input = Vec::new();
    for i in 0..35u32 {
        input.push(proc(i, "p", i as u64));
    }
    let out = top_processes(input);
    assert_eq!(out.len(), 20);
    // The busiest twenty survive: cpu 34 down to 15.
    assert_eq!(out[0].cpu_bp, 34);
    assert_eq!(out[19].cpu_bp, 15);
}

fn entry(name: &str, is_dir: bool) -> FileEntry {
    FileEntry { name: name.to_string(), is_dir, size: 1 }
}

#[test]
fn files_directories_sort_before_files() {
    let input = vec![
        entry("zeta", false),
        entry("alpha", false),
        entry("Beta", true),
        entry("gamma", true),
    ];
    let out = sort_file_entries(input);
    let names: Vec<&str> = out.iter().map(|e| e.name.as_str()).collect();
    assert_eq!(names, vec!["Beta", "gamma", "alpha", "zeta"]);
    assert!(out[0].is_dir && out[1].is_dir && !out[2].is_dir && !out[3].is_dir);
}

#[test]
fn files_names_sort_case_insensitively() {
    let input = vec![
        entry("banana", false),
        entry("Apple", false),
        entry("cherry", false),
        entry("APRICOT", false),
    ];
    let out = sort_file_entries(input);
    let names: Vec<&str> = out.iter().map(|e| e.name.as_str()).collect();
    assert_eq!(names, vec!["Apple", "APRICOT", "banana", "cherry"]);
}

#[test]
fn files_equal_keys_keep_input_order() {
    let mut a = entry("Same", false);
    a.size = 1;
    let mut b = entry("sAME", false);
    b.size = 2;
    let out = sort_file_entries(vec![a, b]);
    assert_eq!(out[0].size, 1);
    assert_eq!(out[1].size, 2);
}

#[test]
fn traversal_guard_refuses_dotdot() {
    assert!(path_is_forbidden(".."));
    assert!(path_is_forbidden("a/../b"));
    assert!(path_is_forbidden("..."));
    assert!(path_is_forbidden("foo/.."));
    assert!(!path_is_forbidden("."));
    assert!(!path_is_forbidden("./ok"));
    assert!(!path_is_forbidden(""));
    assert!(!path_is_forbidden("a.b.c"));
}

#[test]
fn service_classification() {
    assert_eq!(classify_service(Some(true)), ServiceState::Active);
    assert_eq!(classify_service(Some(false)), ServiceState::Inactive);
    assert_eq!(classify_service(None), ServiceState::Unknown);
}

#[test]
fn service_status_description() {
    let s = service_status("nginx".to_string(), Some(true));
    assert_eq!(s.name, "nginx");
    assert_eq!(s.state, ServiceState::Active);
    assert_eq!(s.description, "System service: nginx");
}

#[test]
fn watched_service_list() {
    let v = watched_services();
    let names: Vec<&str> = v.iter().map(|s| s.as_str()).collect();
    assert_eq!(names, vec!["nginx", "mysql", "ssh", "docker", "cron"]);
}

#[test]
fn login_unknown_user_and_wrong_password_fail_alike() {
    let hash = bcrypt::hash("password", 4).unwrap();
    let now = now_unix();
    let missing = login("admin", "password", None, now, b"secret");
    let wrong = login("admin", "letmein", Some(&hash), now, b"secret");
    assert_eq!(missing, Err(AuthError::Unauthorized));
    assert_eq!(wrong, Err(AuthError::Unauthorized));
}

#[test]
fn login_token_carries_subject_and_exact_expiry() {
    let hash = bcrypt::hash("password", 4).unwrap();
    let now = now_unix();
    let token = login("admin", "password", Some(&hash), now, b"secret").unwrap();
    // Verify through the library itself: the decoded claims must show the
    // submitted username and an expiry exactly one lifetime past issuance.
    let header = format!("Bearer {}", token).into_bytes();
    let (sub, exp) = authorize(Some(&header), b"secret").unwrap();
    assert_eq!(sub, "admin");
    assert_eq!(exp, now + TOKEN_LIFETIME_SECS);
}

#[test]
fn authorize_missing_or_malformed_header_fails() {
    assert_eq!(authorize(None, b"secret"), Err(AuthError::Unauthorized));
    let basic = b"Basic YWRtaW46cGFzc3dvcmQ=".to_vec();
    assert_eq!(authorize(Some(&basic), b"secret"), Err(AuthError::Unauthorized));
    let lowercase = b"bearer sometoken".to_vec();
    assert_eq!(authorize(Some(&lowercase), b"secret"), Err(AuthError::Unauthorized));
    let no_space = b"Bearer".to_vec();
    assert_eq!(authorize(Some(&no_space), b"secret"), Err(AuthError::Unauthorized));
    let empty = Vec::new();
    assert_eq!(authorize(Some(&empty), b"secret"), Err(AuthError::Unauthorized));
}

#[test]
fn authorize_expired_token_fails() {
    let hash = bcrypt::hash("password", 4).unwrap();
    // Issued in the distant past: expiry lies well before the present.
    let token = login("admin", "password", Some(&hash), 1_000, b"secret").unwrap();
    let header = format!("Bearer {}", token).into_bytes();
    assert_eq!(authorize(Some(&header), b"secret"), Err(AuthError::Unauthorized));
}

#[test]
fn authorize_tampered_signature_fails() {
    let hash = bcrypt::hash("password", 4).unwrap();
    let now = now_unix();
    let token = login("admin", "password", Some(&hash), now, b"secret").unwrap();
    let mut tampered = token.clone().into_bytes();
    let last = tampered.len() - 1;
    tampered[last] = if tampered[last] == b'A' { b'B' } else { b'A' };
    let mut header = b"Bearer ".to_vec();
    header.extend_from_slice(&tampered);
    assert_eq!(authorize(Some(&header), b"secret"), Err(AuthError::Unauthorized));
}

#[test]
fn authorize_rejects_token_signed_with_other_secret() {
    let hash = bcrypt::hash("password", 4).unwrap();
    let now = now_unix();
    let token = login("admin", "password", Some(&hash), now, b"secret-a").unwrap();
    let header = format!("Bearer {}", token).into_bytes();
    assert!(authorize(Some(&header), b"secret-a").is_ok());
    assert_eq!(authorize(Some(&header), b"secret-b"), Err(AuthError::Unauthorized));
}

#[test]
fn end_to_end_bootstrap_login_and_protected_access() {
    // A freshly bootstrapped instance stores one credential: admin, with the
    // default password hashed by bcrypt.
    let stored = bcrypt::hash("password", 4).unwrap();
    let now = now_unix();
    let secret = b"server-secret";

    // POST /api/login {"admin","password"}: a token comes back.
    let token = login("admin", "password", Some(&stored), now, secret).unwrap();

    // GET /api/system with that token: verification lets the request through.
    let header = format!("Bearer {}", token).into_bytes();
    let (sub, _) = authorize(Some(&header), secret).unwrap();
    assert_eq!(sub, "admin");

    // GET /api/system with no header: refused.
    assert_eq!(authorize(None, secret), Err(AuthError::Unauthorized));

    // GET /api/files?path=..: refused by the traversal guard even though the
    // token is valid.
    assert!(path_is_forbidden(".."));
}
