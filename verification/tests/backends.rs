use portview::assemble::assemble_port_infos;
use portview::config::{Cli, ColorConfig, RunConfig};
use portview::docker::split_lines;
use portview::linux::{
    boot_time_from_stat, build_inode_to_pid_map, cmdline_from_bytes, parse_addr_port,
    parse_hex_addr_v4, parse_hex_addr_v6, parse_proc_net, parse_proc_stat, parse_proc_status,
    process_name_from_comm, socket_inode_from_link,
};
use portview::macos::{
    cstr_from_bytes, parse_fd_list, parse_socket_fd_info, parse_task_all_info,
    process_name_from_path,
};
use portview::model::{IpAddress, PortInfo, ProcessDetails, UnixInstant};
use portview::process::{username_or_uid, validate_kill_target, KillRefusal};
use portview::state::TcpState;
use portview::text::u64_to_string;
use portview::ui::{SortColumn, SortDirection};
use portview::macos::mac_name_and_command;
use portview::windows::{
    build_child_count_map, filetime_to_system_time, filetime_to_u64, parse_tcp4_table,
    parse_udp4_table, win_name_and_command, FILETIME_UNIX_OFFSET,
};
use portview::model::port_info_from_socket;
use portview::Protocol;

// ── filetime_to_u64 ─────────────────────────────────────────────────

#[test]
fn filetime_to_u64_zero() {
    assert_eq!(filetime_to_u64(0, 0), 0);
}

#[test]
fn filetime_to_u64_low_only() {
    assert_eq!(filetime_to_u64(42, 0), 42);
}

#[test]
fn filetime_to_u64_high_only() {
    assert_eq!(filetime_to_u64(0, 1), 0x100000000);
}

#[test]
fn filetime_to_u64_max() {
    assert_eq!(filetime_to_u64(u32::MAX, u32::MAX), u64::MAX);
}

#[test]
fn filetime_to_u64_combined() {
    assert_eq!(
        filetime_to_u64(0x0000_0001, 0x0000_0002),
        0x0000_0002_0000_0001
    );
}

// ── filetime_to_system_time ─────────────────────────────────────────

#[test]
fn filetime_to_system_time_zero() {
    assert_eq!(filetime_to_system_time(0, 0), None);
}

#[test]
fn filetime_to_system_time_before_unix_epoch() {
    // Any value below FILETIME_UNIX_OFFSET should return None
    assert_eq!(filetime_to_system_time(1, 0), None);
}

#[test]
fn filetime_to_system_time_unix_epoch() {
    // FILETIME_UNIX_OFFSET = 116444736000000000 = 0x019DB1DED53E8000
    let low = (FILETIME_UNIX_OFFSET & 0xFFFFFFFF) as u32;
    let high = (FILETIME_UNIX_OFFSET >> 32) as u32;
    let result = filetime_to_system_time(low, high);
    assert_eq!(result, Some(UnixInstant { secs: 0, nanos: 0 }));
}

#[test]
fn filetime_to_system_time_far_future_no_panic() {
    // Should not panic even with very large values
    let result = filetime_to_system_time(u32::MAX, u32::MAX);
    assert!(result.is_some());
}

#[test]
fn filetime_to_system_time_one_second_after_epoch() {
    // Unix epoch + 1 second = FILETIME_UNIX_OFFSET + 10_000_000 (100ns intervals)
    let ft = FILETIME_UNIX_OFFSET + 10_000_000;
    let low = (ft & 0xFFFFFFFF) as u32;
    let high = (ft >> 32) as u32;
    let result = filetime_to_system_time(low, high);
    let expected = UnixInstant { secs: 1, nanos: 0 };
    assert_eq!(result, Some(expected));
}

// ── SortColumn / SortDirection ──────────────────────────────────────

#[test]
fn sort_column_cycle() {
    let col = SortColumn::Port;
    assert_eq!(col.next(), SortColumn::Proto);
    assert_eq!(col.prev(), SortColumn::Command);
    assert_eq!(SortColumn::Command.next(), SortColumn::Port);
}

#[test]
fn sort_direction_toggle() {
    assert_eq!(SortDirection::Asc.toggle(), SortDirection::Desc);
    assert_eq!(SortDirection::Desc.toggle(), SortDirection::Asc);
}

#[test]
fn sort_column_from_index() {
    assert_eq!(SortColumn::from_index(0), Some(SortColumn::Port));
    assert_eq!(SortColumn::from_index(7), Some(SortColumn::Command));
    assert_eq!(SortColumn::from_index(8), None);
}

// ── Linux hex address decoding ──────────────────────────────────────

#[test]
fn hex_addr_v4_loopback_round_trip() {
    // kernel-format hex for 127.0.0.1
    assert_eq!(parse_hex_addr_v4("0100007F"), IpAddress::V4([127, 0, 0, 1]));
    assert_eq!(parse_hex_addr_v4("00000000"), IpAddress::V4([0, 0, 0, 0]));
}

#[test]
fn hex_addr_v6_per_group_swap() {
    // ::1 — the last group holds 1 in kernel order
    let addr = parse_hex_addr_v6("00000000000000000000000001000000");
    assert_eq!(
        addr,
        IpAddress::V6([0, 0, 0, 0, 0, 0, 0, 0, 0, 0, 0, 0, 0, 0, 0, 1])
    );
    // malformed length falls back to unspecified
    assert_eq!(parse_hex_addr_v6("1234"), IpAddress::V6([0u8; 16]));
}

#[test]
fn addr_port_splits_at_last_colon() {
    let (addr, port) = parse_addr_port("0100007F:1F90", false);
    assert_eq!(addr, IpAddress::V4([127, 0, 0, 1]));
    assert_eq!(port, 0x1F90);
    let (addr2, port2) = parse_addr_port("garbage", false);
    assert_eq!(addr2, IpAddress::V4([0, 0, 0, 0]));
    assert_eq!(port2, 0);
}

#[test]
fn proc_net_parses_rows_and_drops_zero_inodes() {
    let content = "  sl  local_address rem_address   st tx_queue rx_queue tr tm->when retrnsmt   uid  timeout inode\n\
   0: 0100007F:1F90 00000000:0000 0A 00000000:00000000 00:00000000 00000000  1000        0 12345 1 0000000000000000 100 0 0 10 0\n\
   1: 00000000:0050 00000000:0000 01 00000000:00000000 00:00000000 00000000  1000        0 0 1 0000000000000000 100 0 0 10 0\n";
    let rows = parse_proc_net(content, Protocol::Tcp, false);
    assert_eq!(rows.len(), 1);
    assert_eq!(rows[0].local_port, 0x1F90);
    assert_eq!(rows[0].local_addr, IpAddress::V4([127, 0, 0, 1]));
    assert_eq!(rows[0].state, TcpState::Listen);
    assert_eq!(rows[0].inode, 12345);
    assert_eq!(rows[0].protocol, Protocol::Tcp);
}

#[test]
fn proc_net_udp_states() {
    let content = "header\n\
   0: 00000000:0044 00000000:0000 07 00000000:00000000 00:00000000 00000000  1000 0 9001 2\n\
   1: 00000000:0045 00000000:0000 01 00000000:00000000 00:00000000 00000000  1000 0 9002 2\n";
    let rows = parse_proc_net(content, Protocol::Udp, false);
    assert_eq!(rows.len(), 2);
    assert_eq!(rows[0].state, TcpState::Listen);
    assert_eq!(rows[1].state, TcpState::Established);
}

#[test]
fn socket_inode_link_forms() {
    assert_eq!(socket_inode_from_link("socket:[4026532327]"), Some(4026532327));
    assert_eq!(socket_inode_from_link("pipe:[123]"), None);
    assert_eq!(socket_inode_from_link("socket:[notanumber]"), None);
    assert_eq!(socket_inode_from_link("socket:["), None);
}

#[test]
fn inode_map_later_link_wins() {
    let links = vec![
        (10u32, "socket:[111]".to_string()),
        (11u32, "pipe:[9]".to_string()),
        (12u32, "socket:[111]".to_string()),
    ];
    let map = build_inode_to_pid_map(&links);
    assert_eq!(map.len(), 1);
    assert_eq!(map.get(&111), Some(&12));
}

#[test]
fn comm_name_is_trimmed() {
    assert_eq!(process_name_from_comm("nginx\n"), "nginx");
}

#[test]
fn cmdline_joins_nul_separated_arguments() {
    let raw: Vec<u8> = b"nginx\0-g\0daemon off;\0".to_vec();
    assert_eq!(cmdline_from_bytes(&raw, "nginx"), "nginx -g daemon off;");
}

#[test]
fn cmdline_empty_falls_back_to_bracketed_comm() {
    let raw: Vec<u8> = Vec::new();
    assert_eq!(cmdline_from_bytes(&raw, "kthreadd"), "[kthreadd]");
}

#[test]
fn cmdline_decodes_invalid_utf8_leniently() {
    let raw: Vec<u8> = vec![0xff];
    assert_eq!(cmdline_from_bytes(&raw, "x"), "\u{FFFD}");
}

#[test]
fn proc_status_reads_uid_and_rss() {
    let content = "Name:\tnginx\nUid:\t1000\t1000\t1000\t1000\nVmRSS:\t   2048 kB\n";
    assert_eq!(parse_proc_status(content), (1000, 2048 * 1024));
}

#[test]
fn proc_status_defaults_when_missing() {
    assert_eq!(parse_proc_status("Name:\tnginx\n"), (0, 0));
}

#[test]
fn boot_time_from_btime_line() {
    let content = "cpu  1 2 3\nbtime 1700000000\nprocesses 99\n";
    assert_eq!(boot_time_from_stat(content), 1_700_000_000);
    assert_eq!(boot_time_from_stat("cpu 1 2\n"), 0);
}

#[test]
fn proc_stat_cpu_and_start_time() {
    // fields after the bracketed comm; utime is the 12th of them (index 11),
    // stime the 13th, starttime the 20th
    let content = "123 (ngi nx) S 1 2 3 4 5 6 7 8 9 10 100 200 13 14 15 16 17 18 500 21 22";
    let (start, cpu_millis) = parse_proc_stat(content, 1_700_000_000, 100);
    // (100 + 200) ticks at 100 Hz = 3 seconds
    assert_eq!(cpu_millis, 3000);
    // 500 ticks / 100 Hz = 5 seconds after boot
    assert_eq!(start, Some(1_700_000_005));
}

#[test]
fn proc_stat_zero_tick_rate_gives_defaults() {
    let content = "1 (x) S 1 2 3 4 5 6 7 8 9 10 100 200 13 14 15 16 17 18 19 500 21";
    assert_eq!(parse_proc_stat(content, 0, 0), (None, 0));
}

// ── Windows table decoding ──────────────────────────────────────────

fn tcp4_row(state: u32, addr: [u8; 4], port: u16, pid: u32) -> Vec<u8> {
    let mut row = Vec::new();
    row.extend_from_slice(&state.to_le_bytes());
    row.extend_from_slice(&addr);
    row.extend_from_slice(&[port.to_be_bytes()[0], port.to_be_bytes()[1], 0, 0]);
    row.extend_from_slice(&[0u8; 8]); // remote addr + port
    row.extend_from_slice(&pid.to_le_bytes());
    row
}

#[test]
fn tcp4_table_decodes_rows() {
    let mut buf = Vec::new();
    buf.extend_from_slice(&2u32.to_le_bytes());
    buf.extend_from_slice(&tcp4_row(2, [127, 0, 0, 1], 8080, 42));
    buf.extend_from_slice(&tcp4_row(5, [0, 0, 0, 0], 443, 7));
    let rows = parse_tcp4_table(&buf);
    assert_eq!(rows.len(), 2);
    assert_eq!(rows[0].local_port, 8080);
    assert_eq!(rows[0].local_addr, IpAddress::V4([127, 0, 0, 1]));
    assert_eq!(rows[0].state, TcpState::Listen);
    assert_eq!(rows[0].pid, 42);
    assert_eq!(rows[1].state, TcpState::Established);
    assert_eq!(rows[1].protocol, Protocol::Tcp);
}

#[test]
fn tcp4_table_caps_count_at_buffer() {
    let mut buf = Vec::new();
    buf.extend_from_slice(&9u32.to_le_bytes()); // claims nine rows
    buf.extend_from_slice(&tcp4_row(2, [0, 0, 0, 0], 80, 1)); // holds one
    let rows = parse_tcp4_table(&buf);
    assert_eq!(rows.len(), 1);
}

#[test]
fn udp4_table_rows_are_listening() {
    let mut buf = Vec::new();
    buf.extend_from_slice(&1u32.to_le_bytes());
    buf.extend_from_slice(&[10, 0, 0, 1]); // addr
    buf.extend_from_slice(&[0x00, 0x35, 0, 0]); // port 53 network order
    buf.extend_from_slice(&99u32.to_le_bytes()); // pid
    let rows = parse_udp4_table(&buf);
    assert_eq!(rows.len(), 1);
    assert_eq!(rows[0].local_port, 53);
    assert_eq!(rows[0].state, TcpState::Listen);
    assert_eq!(rows[0].protocol, Protocol::Udp);
    assert_eq!(rows[0].pid, 99);
}

#[test]
fn child_counts_tally_parent_pids() {
    let map = build_child_count_map(vec![1, 1, 42, 0, 1]);
    assert_eq!(map.get(&1), Some(&3));
    assert_eq!(map.get(&42), Some(&1));
    assert_eq!(map.get(&0), None);
    assert_eq!(map.get(&7), None);
}

// ── macOS structure decoding ────────────────────────────────────────

#[test]
fn fd_list_decodes_records() {
    let mut buf = Vec::new();
    buf.extend_from_slice(&3i32.to_le_bytes());
    buf.extend_from_slice(&2u32.to_le_bytes());
    buf.extend_from_slice(&7i32.to_le_bytes());
    buf.extend_from_slice(&1u32.to_le_bytes());
    let fds = parse_fd_list(&buf);
    assert_eq!(fds.len(), 2);
    assert_eq!(fds[0].fd, 3);
    assert_eq!(fds[0].fdtype, 2);
    assert_eq!(fds[1].fd, 7);
    assert_eq!(fds[1].fdtype, 1);
}

fn socket_info_buffer(family: i32, kind: i32, state: i32, port: u16, vflag: u8) -> Vec<u8> {
    let mut buf = vec![0u8; 792];
    buf[184..188].copy_from_slice(&family.to_le_bytes());
    buf[256..260].copy_from_slice(&kind.to_le_bytes());
    // local port: network order in the low half of the field at 268
    buf[268] = port.to_be_bytes()[0];
    buf[269] = port.to_be_bytes()[1];
    buf[288] = vflag;
    // IPv4 address at the union tail
    buf[324..328].copy_from_slice(&[127, 0, 0, 1]);
    buf[344..348].copy_from_slice(&state.to_le_bytes());
    buf
}

#[test]
fn socket_fd_info_tcp_listen() {
    let buf = socket_info_buffer(2, 2, 1, 8080, 1);
    let s = parse_socket_fd_info(&buf).expect("socket expected");
    assert_eq!(s.protocol, Protocol::Tcp);
    assert_eq!(s.state, TcpState::Listen);
    assert_eq!(s.local_port, 8080);
    assert_eq!(s.local_addr, IpAddress::V4([127, 0, 0, 1]));
}

#[test]
fn socket_fd_info_udp_is_bound() {
    let buf = socket_info_buffer(2, 1, 0, 5353, 1);
    let s = parse_socket_fd_info(&buf).expect("socket expected");
    assert_eq!(s.protocol, Protocol::Udp);
    assert_eq!(s.state, TcpState::Listen);
}

#[test]
fn socket_fd_info_rejects_other_families() {
    let buf = socket_info_buffer(1, 2, 1, 80, 1); // AF_UNIX
    assert!(parse_socket_fd_info(&buf).is_none());
    assert!(parse_socket_fd_info(&vec![0u8; 10]).is_none());
}

#[test]
fn task_all_info_reads_fields() {
    let mut buf = vec![0u8; 232];
    buf[20..24].copy_from_slice(&501u32.to_le_bytes());
    buf[48..53].copy_from_slice(b"nginx");
    buf[120..128].copy_from_slice(&1_700_000_000u64.to_le_bytes());
    buf[144..152].copy_from_slice(&(64 * 1024 * 1024u64).to_le_bytes());
    buf[152..160].copy_from_slice(&2_000_000_000u64.to_le_bytes()); // 2 s user
    buf[160..168].copy_from_slice(&500_000_000u64.to_le_bytes()); // 0.5 s system
    let t = parse_task_all_info(&buf).expect("info expected");
    assert_eq!(t.uid, 501);
    assert_eq!(cstr_from_bytes(&t.comm), "nginx");
    assert_eq!(t.resident_bytes, 64 * 1024 * 1024);
    assert_eq!(t.cpu_millis, 2500);
    assert_eq!(t.start_tvsec, 1_700_000_000);
    assert!(parse_task_all_info(&vec![0u8; 10]).is_none());
}

#[test]
fn name_from_path_takes_last_segment() {
    assert_eq!(process_name_from_path("/usr/sbin/nginx"), "nginx");
    assert_eq!(process_name_from_path("nginx"), "nginx");
    assert_eq!(process_name_from_path(""), "");
}

#[test]
fn mac_attribution_prefers_path() {
    assert_eq!(
        mac_name_and_command("/usr/sbin/nginx", "nginx-short"),
        ("nginx".to_string(), "/usr/sbin/nginx".to_string())
    );
    assert_eq!(
        mac_name_and_command("", "kernel_task"),
        ("kernel_task".to_string(), "[kernel_task]".to_string())
    );
}

#[test]
fn win_attribution_takes_image_path_segment() {
    assert_eq!(
        win_name_and_command("C:\\Windows\\System32\\svchost.exe"),
        ("svchost.exe".to_string(), "C:\\Windows\\System32\\svchost.exe".to_string())
    );
    assert_eq!(win_name_and_command(""), (String::new(), "[]".to_string()));
}

#[test]
fn cstr_stops_at_first_nul() {
    assert_eq!(cstr_from_bytes(&b"abc\0def".to_vec()), "abc");
    assert_eq!(cstr_from_bytes(&b"abc".to_vec()), "abc");
}

// ── Assembly ────────────────────────────────────────────────────────

fn record(port: u16, protocol: Protocol, pid: u32, state: TcpState, name: &str) -> PortInfo {
    PortInfo {
        port,
        protocol,
        pid,
        process_name: name.to_string(),
        command: format!("/bin/{}", name),
        user: "root".to_string(),
        state,
        memory_bytes: 0,
        cpu_millis: 0,
        start_time: None,
        children: 0,
        local_addr: IpAddress::V4([0, 0, 0, 0]),
    }
}

#[test]
fn assemble_sorts_dedups_and_filters() {
    let input = vec![
        record(443, Protocol::Tcp, 10, TcpState::Listen, "web"),
        record(80, Protocol::Tcp, 7, TcpState::Listen, "web"),
        record(80, Protocol::Tcp, 7, TcpState::Listen, "web"), // dual-stack duplicate
        record(80, Protocol::Udp, 7, TcpState::Unknown, "web"), // UDP passes the filter
        record(80, Protocol::Tcp, 9, TcpState::Established, "other"), // dropped by filter
        record(0, Protocol::Tcp, 7, TcpState::Listen, "zero"), // port 0 dropped
    ];
    let out = assemble_port_infos(input, true, false);
    let keys: Vec<(u16, Protocol, u32)> =
        out.iter().map(|p| (p.port, p.protocol, p.pid)).collect();
    assert_eq!(
        keys,
        vec![
            (80, Protocol::Tcp, 7),
            (80, Protocol::Udp, 7),
            (443, Protocol::Tcp, 10),
        ]
    );
}

#[test]
fn assemble_no_filter_keeps_states_and_orders_by_pid() {
    let input = vec![
        record(80, Protocol::Tcp, 9, TcpState::Established, "b"),
        record(80, Protocol::Tcp, 7, TcpState::Listen, "a"),
    ];
    let out = assemble_port_infos(input, false, false);
    assert_eq!(out.len(), 2);
    assert_eq!(out[0].pid, 7);
    assert_eq!(out[1].pid, 9);
}

#[test]
fn assemble_drop_unnamed_suppresses_blank_records() {
    let input = vec![
        record(80, Protocol::Tcp, 7, TcpState::Listen, ""),
        record(443, Protocol::Tcp, 9, TcpState::Listen, "web"),
    ];
    let out = assemble_port_infos(input, true, true);
    assert_eq!(out.len(), 1);
    assert_eq!(out[0].port, 443);
}

#[test]
fn unreadable_details_degrade_to_blank_record() {
    let info = port_info_from_socket(
        8080,
        Protocol::Tcp,
        TcpState::Listen,
        IpAddress::V4([127, 0, 0, 1]),
        42,
        None,
    );
    assert_eq!(info.port, 8080);
    assert_eq!(info.pid, 42);
    assert_eq!(info.process_name, "");
    assert_eq!(info.command, "");
    assert_eq!(info.user, "");
    assert_eq!(info.memory_bytes, 0);
    assert_eq!(info.cpu_millis, 0);
    assert_eq!(info.start_time, None);
    assert_eq!(info.children, 0);
}

#[test]
fn blank_details_are_all_defaults() {
    let d = ProcessDetails::blank();
    let info = port_info_from_socket(
        1,
        Protocol::Tcp,
        TcpState::Listen,
        IpAddress::V4([0, 0, 0, 0]),
        3,
        Some(&d),
    );
    assert_eq!(info.process_name, "");
    assert_eq!(info.user, "");
    assert_eq!(info.memory_bytes, 0);
}

#[test]
fn resolved_details_carry_through() {
    let details = ProcessDetails {
        name: "web".to_string(),
        command: "/bin/web".to_string(),
        user: "root".to_string(),
        memory_bytes: 1024,
        cpu_millis: 1500,
        start_time: Some(UnixInstant { secs: 5, nanos: 0 }),
        children: 2,
    };
    let info = port_info_from_socket(
        80,
        Protocol::Udp,
        TcpState::Listen,
        IpAddress::V4([0, 0, 0, 0]),
        7,
        Some(&details),
    );
    assert_eq!(info.process_name, "web");
    assert_eq!(info.children, 2);
    assert_eq!(info.start_time, Some(UnixInstant { secs: 5, nanos: 0 }));
}

// ── Configuration and attribution helpers ───────────────────────────

#[test]
fn run_config_copies_legacy_flags() {
    let cli = Cli {
        target: Some("3000".to_string()),
        kill: None,
        force: true,
        all: false,
        json: true,
        docker: false,
        no_color: false,
        watch: true,
        wide: false,
    };
    let cfg = RunConfig::from_legacy(&cli);
    assert_eq!(cfg.target, Some("3000".to_string()));
    assert!(cfg.force);
    assert!(!cfg.all);
    assert!(cfg.json);
    assert!(!cfg.docker);
    assert!(cfg.watch);
    assert!(!cfg.wide);
}

#[test]
fn color_overrides_apply_only_valid_pairs() {
    let mut colors = ColorConfig::default();
    colors.apply_overrides("port=red, user = bold ,mem=fuchsia,broken,unknown=green");
    assert_eq!(colors.port, "red");
    assert_eq!(colors.user, "bold");
    assert_eq!(colors.mem, "dimmed"); // invalid color ignored
    assert_eq!(colors.proto, "dimmed"); // untouched
}

#[test]
fn username_falls_back_to_numeric_uid() {
    assert_eq!(username_or_uid(Some("root".to_string()), 0), "root");
    assert_eq!(username_or_uid(None, 1000), "1000");
}

#[test]
fn kill_target_validation() {
    assert_eq!(validate_kill_target(0), Err(KillRefusal::ZeroPid));
    assert_eq!(
        validate_kill_target((i32::MAX as u32) + 1),
        Err(KillRefusal::OutOfRange)
    );
    assert_eq!(validate_kill_target(42), Ok(42));
}

// ── Small text helpers ──────────────────────────────────────────────

#[test]
fn decimal_formatting() {
    assert_eq!(u64_to_string(0), "0");
    assert_eq!(u64_to_string(18446744073709551615), "18446744073709551615");
}

#[test]
fn lines_split_like_str_lines() {
    let v: Vec<char> = "a\r\nb\nc".chars().collect();
    let lines = split_lines(&v);
    let as_strings: Vec<String> = lines.iter().map(|l| l.iter().collect()).collect();
    assert_eq!(as_strings, vec!["a".to_string(), "b".to_string(), "c".to_string()]);
}
