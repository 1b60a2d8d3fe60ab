use astproc::process::Process;
use astproc::read::{
    collect_snapshot, exe_from_link, name_from_comm, parse_pid, parse_ppid, ppid_from_status,
    record_path, COMM, EXE, NO_ACCESS, PROC_ROOT, STATUS, UNKNOWN_NAME,
};

#[test]
fn placeholders_and_root_are_fixed() {
    assert_eq!(PROC_ROOT, "/proc");
    assert_eq!(UNKNOWN_NAME, "<unknown>");
    assert_eq!(NO_ACCESS, "<no access>");
}

#[test]
fn records_are_found_under_the_pid() {
    assert_eq!(record_path(1, COMM), "/proc/1/comm");
    assert_eq!(record_path(4242, STATUS), "/proc/4242/status");
    assert_eq!(record_path(4294967295, EXE), "/proc/4294967295/exe");
    assert_eq!(record_path(0, "cmdline"), "/proc/0/cmdline");
}

#[test]
fn parse_pid_reads_decimal_names() {
    assert_eq!(parse_pid("1"), Some(1));
    assert_eq!(parse_pid("0"), Some(0));
    assert_eq!(parse_pid("4242"), Some(4242));
    assert_eq!(parse_pid("007"), Some(7));
    assert_eq!(parse_pid("+5"), Some(5));
    assert_eq!(parse_pid("4294967295"), Some(u32::MAX));
    assert_eq!(parse_pid("0000000004294967295"), Some(u32::MAX));
}

#[test]
fn parse_pid_skips_names_that_are_no_number() {
    for name in [
        "", "self", "thread-self", "cpuinfo", "1a", "a1", " 1", "1 ", "-1", "+", "-", "++1", "+-1",
        "1+", "1.0", "0x10", "１２", "4294967296", "99999999999999999999", "1\n",
    ] {
        assert_eq!(parse_pid(name), None, "{:?}", name);
    }
}

#[test]
fn parse_pid_agrees_with_the_standard_parser() {
    let mut names: Vec<String> = Vec::new();
    for n in [0u64, 1, 9, 10, 4294967294, 4294967295, 4294967296, 4294967297, 42949672950] {
        names.push(n.to_string());
        names.push(format!("+{}", n));
        names.push(format!("-{}", n));
        names.push(format!("0{}", n));
        names.push(format!("{} ", n));
        names.push(format!("{}x", n));
    }
    for name in names {
        assert_eq!(parse_pid(&name), name.parse::<u32>().ok(), "{:?}", name);
    }
}

const BASH_STATUS: &str = "Name:\tbash\nUmask:\t0022\nState:\tS (sleeping)\nTgid:\t4242\nNgid:\t0\n\
Pid:\t4242\nPPid:\t4100\nTracerPid:\t0\nUid:\t1000\t1000\t1000\t1000\n";

#[test]
fn parse_ppid_finds_the_field() {
    assert_eq!(parse_ppid(BASH_STATUS), 4100);
    assert_eq!(parse_ppid("PPid:\t1"), 1);
    assert_eq!(parse_ppid("PPid:7\n"), 7);
    assert_eq!(parse_ppid("PPid:   12   \n"), 12);
    assert_eq!(parse_ppid("\n\nPPid: 3\n\n"), 3);
    assert_eq!(parse_ppid("PPid:\t+8\n"), 8);
    assert_eq!(parse_ppid("PPid:\u{a0}\u{3000}9\u{2003}\n"), 9);
}

#[test]
fn parse_ppid_is_zero_without_the_field() {
    assert_eq!(parse_ppid(""), 0);
    assert_eq!(parse_ppid("\n"), 0);
    assert_eq!(parse_ppid("Name:\tkthreadd\nPid:\t2\n"), 0);
    assert_eq!(parse_ppid(" PPid:\t5\n"), 0);
    assert_eq!(parse_ppid("ppid:\t5\n"), 0);
    assert_eq!(parse_ppid("PPid\t5\n"), 0);
    assert_eq!(parse_ppid("XPPid:\t5\n"), 0);
    assert_eq!(parse_ppid("PPi"), 0);
}

#[test]
fn parse_ppid_is_zero_where_no_number_follows() {
    assert_eq!(parse_ppid("PPid:\n"), 0);
    assert_eq!(parse_ppid("PPid:"), 0);
    assert_eq!(parse_ppid("PPid:\tabc\n"), 0);
    assert_eq!(parse_ppid("PPid:\t-4\n"), 0);
    assert_eq!(parse_ppid("PPid:\t4 2\n"), 0);
    assert_eq!(parse_ppid("PPid:\t4294967296\n"), 0);
}

#[test]
fn parse_ppid_takes_the_last_line_of_the_field() {
    assert_eq!(parse_ppid("PPid:\t5\nPPid:\t6\n"), 6);
    assert_eq!(parse_ppid("PPid:\t5\nName:\tx\nPPid:\t7"), 7);
    assert_eq!(parse_ppid("PPid:\t5\nPPid:\tnone\n"), 0);
    assert_eq!(parse_ppid("PPid:\tnone\nPPid:\t5\n"), 5);
}

#[test]
fn parse_ppid_reads_lines_that_end_in_carriage_return() {
    assert_eq!(parse_ppid("Name:\tx\r\nPPid:\t31\r\nPid:\t4\r\n"), 31);
    assert_eq!(parse_ppid("PPid:\t31\r"), 31);
    assert_eq!(parse_ppid("PPid:\r\n"), 0);
    assert_eq!(parse_ppid("Name:\tx\rPPid:\t31\n"), 0);
}

fn ppid_by_the_standard_library(content: &str) -> u32 {
    let mut ppid = 0;
    for line in content.lines() {
        if let Some(v) = line.strip_prefix("PPid:") {
            ppid = v.trim().parse().unwrap_or(0);
        }
    }
    ppid
}

#[test]
fn parse_ppid_agrees_with_the_standard_library() {
    let pieces =
        ["PPid:", "\t", "5", "\n", "\r", " ", "12", "x", "\r\n", "PPid:\t77", "+", "\u{85}"];
    let mut texts: Vec<String> = vec![String::new(), BASH_STATUS.to_string()];
    for a in pieces {
        for b in pieces {
            for c in pieces {
                for d in pieces {
                    texts.push(format!("{}{}{}{}", a, b, c, d));
                }
            }
        }
    }
    for text in texts {
        assert_eq!(parse_ppid(&text), ppid_by_the_standard_library(&text), "{:?}", text);
    }
}

#[test]
fn name_is_the_record_without_white_space_around_it() {
    assert_eq!(name_from_comm(Some(b"bash\n".to_vec())), "bash");
    assert_eq!(name_from_comm(Some(b"  kworker/0:1 \t\n".to_vec())), "kworker/0:1");
    assert_eq!(name_from_comm(Some(b"two words\n".to_vec())), "two words");
    assert_eq!(name_from_comm(Some(b"a\nb\n".to_vec())), "a\nb");
    assert_eq!(name_from_comm(Some(Vec::new())), "");
    assert_eq!(name_from_comm(Some(b" \n\t ".to_vec())), "");
    assert_eq!(name_from_comm(Some("\u{a0}caf\u{e9}\u{2003}".as_bytes().to_vec())), "caf\u{e9}");
}

#[test]
fn name_is_a_placeholder_where_the_record_could_not_be_read() {
    assert_eq!(name_from_comm(None), "<unknown>");
}

#[test]
fn name_gets_the_replacement_character_for_what_is_no_utf8() {
    assert_eq!(name_from_comm(Some(vec![b'a', 0xff, b'b', b'\n'])), "a\u{fffd}b");
    assert_eq!(name_from_comm(Some(vec![0xe2, 0x82])), "\u{fffd}");
    assert_eq!(name_from_comm(Some(vec![0xc3, 0xa9, b' '])), "\u{e9}");
}

#[test]
fn ppid_comes_from_the_status_record() {
    assert_eq!(ppid_from_status(Some(BASH_STATUS.as_bytes().to_vec())), 4100);
    assert_eq!(ppid_from_status(Some(b"PPid:\t1\n".to_vec())), 1);
    assert_eq!(ppid_from_status(Some(vec![0xff, b'\n', b'P', b'P', b'i', b'd', b':', b'9'])), 9);
    assert_eq!(ppid_from_status(Some(vec![b'P', b'P', b'i', b'd', b':', 0xff, b'9'])), 0);
}

#[test]
fn ppid_is_zero_where_the_record_could_not_be_read() {
    assert_eq!(ppid_from_status(None), 0);
    assert_eq!(ppid_from_status(Some(Vec::new())), 0);
}

#[test]
fn exe_is_where_the_link_leads() {
    assert_eq!(exe_from_link(Some("/usr/bin/vim".to_string())), "/usr/bin/vim");
    assert_eq!(exe_from_link(Some(String::new())), "");
    assert_eq!(exe_from_link(Some(" /odd path \n".to_string())), " /odd path \n");
}

#[test]
fn exe_is_a_placeholder_where_the_link_could_not_be_resolved() {
    assert_eq!(exe_from_link(None), "<no access>");
}

fn read_process(pid: u32, ppid: u32, name: &str) -> Process {
    Process { pid, ppid, name: name.to_string(), exe: "<no access>".to_string() }
}

#[test]
fn collect_snapshot_files_each_record_under_its_pid() {
    let procs = collect_snapshot(vec![
        read_process(3, 1, "vim"),
        read_process(1, 0, "init"),
        read_process(2, 1, "sh"),
    ]);
    assert_eq!(procs.len(), 3);
    for (pid, process) in &procs {
        assert_eq!(*pid, process.pid);
    }
    assert!(procs[&1] == read_process(1, 0, "init"));
    assert!(procs[&2] == read_process(2, 1, "sh"));
    assert!(procs[&3] == read_process(3, 1, "vim"));
}

#[test]
fn collect_snapshot_keeps_the_later_of_two_records_with_one_pid() {
    let procs = collect_snapshot(vec![
        read_process(2, 1, "first"),
        read_process(1, 0, "init"),
        read_process(2, 7, "second"),
    ]);
    assert_eq!(procs.len(), 2);
    assert!(procs[&2] == read_process(2, 7, "second"));
}

#[test]
fn collect_snapshot_of_nothing_is_empty() {
    assert!(collect_snapshot(Vec::new()).is_empty());
}
