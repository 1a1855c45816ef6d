use devscan::aggregate::{DevServer, LabeledListener, aggregate};
use devscan::classify::is_dev_process;
use devscan::listener::RawListener;
use devscan::scan::{collect_dev_servers, parse_lsof_listing, parse_netstat_listing,
    scan_lsof_listing};
use devscan::service::detect_service;

const LSOF_HEADER: &str = "COMMAND     PID   USER   FD   TYPE  DEVICE SIZE/OFF NODE NAME";

fn lsof_line(name: &str, pid: u32, addr: &str) -> String {
    format!("{}      {} user   23u  IPv4 0x12ab      0t0  TCP {} (LISTEN)", name, pid, addr)
}

#[test]
fn detect_service_known_ports() {
    assert_eq!(detect_service(5173, "node"), "Vite");
    assert_eq!(detect_service(8888, "mything"), "Jupyter");
    assert_eq!(detect_service(9050, "go"), "Go/Dev Server");
    assert_eq!(detect_service(12345, "unknownproc"), "Development Server");
}

#[test]
fn detect_service_name_overrides_win_over_ports() {
    assert_eq!(detect_service(12345, "vite"), "Vite");
    assert_eq!(detect_service(3000, "webpack-dev-server"), "Webpack Dev");
    assert_eq!(detect_service(8080, "next-server"), "Next.js");
    assert_eq!(detect_service(12345, "VITE"), "Vite");
}

#[test]
fn detect_service_port_bands() {
    assert_eq!(detect_service(3005, "node"), "React/Next.js");
    assert_eq!(detect_service(3001, "bun"), "Bun Server");
    assert_eq!(detect_service(3099, "ruby"), "Node.js Dev");
    assert_eq!(detect_service(4040, "node"), "Express/Node");
    assert_eq!(detect_service(5000, "python3"), "Flask/Python");
    assert_eq!(detect_service(5050, "ruby"), "Dev Server");
    assert_eq!(detect_service(5174, "deno"), "Vite");
    assert_eq!(detect_service(6006, "node"), "Storybook");
    assert_eq!(detect_service(7070, "cargo"), "Custom Dev");
    assert_eq!(detect_service(8000, "python"), "Django/Python");
    assert_eq!(detect_service(8099, "php"), "Dev Server");
    assert_eq!(detect_service(1420, "cargo"), "Tauri Dev");
}

#[test]
fn is_dev_process_allow_list() {
    assert!(is_dev_process("node"));
    assert!(!is_dev_process("Finder"));
    assert!(is_dev_process("NODE"));
    assert!(is_dev_process("python3.11"));
    assert!(is_dev_process("/usr/local/bin/cargo"));
    assert!(!is_dev_process(""));
    assert!(!is_dev_process("Safari"));
}

#[test]
fn aggregate_merges_shared_port() {
    let records = vec![
        RawListener { port: 3000, process_name: "node".to_string(), pid: 111 },
        RawListener { port: 3000, process_name: "node-helper".to_string(), pid: 222 },
    ];
    let out = collect_dev_servers(&records);
    assert_eq!(out.len(), 1);
    assert_eq!(out[0].port, 3000);
    assert_eq!(out[0].pid, 111);
    assert_eq!(out[0].pids, vec![111, 222]);
    assert_eq!(out[0].process_name, "node");
    assert_eq!(out[0].service, "React/Next.js");
}

#[test]
fn aggregate_ports_are_unique_and_sorted() {
    let mk = |port: u16, pid: u32| LabeledListener {
        port,
        service: "Dev Server".to_string(),
        process_name: "node".to_string(),
        pid,
    };
    let records = vec![mk(8000, 5), mk(3000, 1), mk(8000, 6), mk(3000, 2), mk(5000, 3)];
    let out = aggregate(&records);
    let ports: Vec<u16> = out.iter().map(|s| s.port).collect();
    assert_eq!(ports, vec![3000, 5000, 8000]);
    for i in 0..out.len() {
        for j in (i + 1)..out.len() {
            assert_ne!(out[i].port, out[j].port);
        }
    }
    assert_eq!(out[0].pids, vec![1, 2]);
    assert_eq!(out[2].pids, vec![5, 6]);
}

#[test]
fn aggregate_excludes_reserved_control_port() {
    let records = vec![
        RawListener { port: 1420, process_name: "node".to_string(), pid: 7 },
        RawListener { port: 3000, process_name: "node".to_string(), pid: 8 },
    ];
    let out = collect_dev_servers(&records);
    assert_eq!(out.len(), 1);
    assert!(out.iter().all(|s| s.port != 1420));
}

#[test]
fn aggregate_keeps_duplicate_pids() {
    let records = vec![
        RawListener { port: 4000, process_name: "node".to_string(), pid: 9 },
        RawListener { port: 4000, process_name: "node".to_string(), pid: 9 },
    ];
    let out = collect_dev_servers(&records);
    assert_eq!(out.len(), 1);
    assert_eq!(out[0].pids, vec![9, 9]);
}

#[test]
fn scan_skips_malformed_lines() {
    let text = format!(
        "{}\nshort line\n{}\ngarbage without enough fields at all\n",
        LSOF_HEADER,
        lsof_line("node", 123, "127.0.0.1:3000"),
    );
    let out = scan_lsof_listing(&text);
    assert_eq!(out.len(), 1);
    assert_eq!(out[0].port, 3000);
    assert_eq!(out[0].pid, 123);
}

#[test]
fn scan_skips_non_dev_processes_and_bad_ports() {
    let text = format!(
        "{}\n{}\n{}\n{}\n{}\n",
        LSOF_HEADER,
        lsof_line("Finder", 50, "127.0.0.1:3000"),
        lsof_line("node", 51, "127.0.0.1:70000"),
        lsof_line("node", 52, "10.0.0.5:3000"),
        lsof_line("bun", 53, "*:3010"),
    );
    let out = scan_lsof_listing(&text);
    assert_eq!(out.len(), 1);
    assert_eq!(out[0].port, 3010);
    assert_eq!(out[0].pid, 53);
    assert_eq!(out[0].service, "Bun Server");
}

#[test]
fn scan_reads_ipv6_loopback_bracket_form() {
    let text = format!("{}\n{}\n", LSOF_HEADER, lsof_line("python3", 77, "[::1]:8888"));
    let out = scan_lsof_listing(&text);
    assert_eq!(out.len(), 1);
    assert_eq!(out[0].port, 8888);
    assert_eq!(out[0].service, "Jupyter");
    assert_eq!(out[0].process_name, "python3");
}

#[test]
fn scan_skips_unparsable_pid() {
    let text = format!("{}\n{}\n", LSOF_HEADER, lsof_line("node", 1, "127.0.0.1:3000"))
        .replace(" 1 ", " x1 ");
    let out = scan_lsof_listing(&text);
    assert!(out.is_empty());
}

#[test]
fn scan_excludes_own_control_port() {
    let text = format!(
        "{}\n{}\n{}\n",
        LSOF_HEADER,
        lsof_line("node", 31, "localhost:1420"),
        lsof_line("node", 32, "localhost:5173"),
    );
    let out = scan_lsof_listing(&text);
    assert_eq!(out.len(), 1);
    assert_eq!(out[0].port, 5173);
    assert_eq!(out[0].service, "Vite");
}

#[test]
fn scan_twice_yields_equal_results() {
    let text = format!(
        "{}\n{}\n{}\n{}\n",
        LSOF_HEADER,
        lsof_line("node", 11, "127.0.0.1:3000"),
        lsof_line("python3", 12, "*:8000"),
        lsof_line("node", 13, "127.0.0.1:3000"),
    );
    let first: Vec<DevServer> = scan_lsof_listing(&text);
    let second: Vec<DevServer> = scan_lsof_listing(&text);
    assert_eq!(first, second);
}

#[test]
fn scan_empty_output_yields_nothing() {
    assert!(scan_lsof_listing("").is_empty());
    assert!(scan_lsof_listing(LSOF_HEADER).is_empty());
}

#[test]
fn parse_lsof_listing_keeps_all_listeners() {
    let text = format!(
        "{}\n{}\n{}\n",
        LSOF_HEADER,
        lsof_line("Finder", 50, "127.0.0.1:3000"),
        lsof_line("node", 51, "*:4000"),
    );
    let raw = parse_lsof_listing(&text);
    assert_eq!(raw.len(), 2);
    assert_eq!(raw[0].process_name, "Finder");
    assert_eq!(raw[0].port, 3000);
    assert_eq!(raw[1].pid, 51);
}

#[test]
fn netstat_listing_parses_listening_tcp_rows() {
    let text = "\nActive Connections\n\n  Proto  Local Address          Foreign Address        State           PID\n  TCP    0.0.0.0:3000           0.0.0.0:0              LISTENING       4242\n  TCP    0.0.0.0:5000           1.2.3.4:443            ESTABLISHED     4243\n  UDP    0.0.0.0:5353           *:*                                    4244\n  TCP    [::]:8000              [::]:0                 LISTENING       4245\n";
    let pairs = parse_netstat_listing(text);
    assert_eq!(pairs, vec![(3000, 4242), (8000, 4245)]);
}

#[test]
fn netstat_listing_needs_header_lines() {
    let pairs = parse_netstat_listing("TCP 0.0.0.0:3000 0.0.0.0:0 LISTENING 1");
    assert!(pairs.is_empty());
}
