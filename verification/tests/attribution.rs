use net_monitor::parser::Protocol;
use net_monitor::proc_attr::{
    after_inode, after_pid, after_ss, after_status, find_inode, parse_ss_users_field, parse_status,
    pid_of_dir, socket_tables, socket_target_matches_inode, ss_owner, Lookup, Users,
};

const TCP_TABLE: &str = "  sl  local_address rem_address   st tx_queue rx_queue tr tm->when retrnsmt   uid  timeout inode\n   0: 0100007F:1F90 00000000:0000 0A 00000000:00000000 00:00000000 00000000  1000        0 12345 1 0000\n   1: 0100007F:01BB 00000000:0000 0A 00000000:00000000 00:00000000 00000000     0        0 777 1 0000\n";

#[test]
fn the_inode_is_found_by_either_port() {
    let tables = vec![Some(TCP_TABLE.to_string())];
    assert_eq!(find_inode(8080, 1, &tables), Some("12345".to_string()));
    assert_eq!(find_inode(1, 443, &tables), Some("777".to_string()));
    assert_eq!(find_inode(443, 8080, &tables), Some("12345".to_string()));
    assert_eq!(find_inode(1, 2, &tables), None);
}

#[test]
fn later_tables_are_searched_too() {
    let heading = "heading 0:1F90 x x x x x x x 5\n".to_string();
    let tables = vec![None, Some(heading), Some(TCP_TABLE.to_string())];
    assert_eq!(find_inode(8080, 1, &tables), Some("12345".to_string()));
    assert_eq!(find_inode(8080, 1, &vec![None, Some(String::new())]), None);
}

#[test]
fn broken_table_lines_are_passed_over() {
    let table = "heading\n short line\n 0: nocolon c d e f g h i 1 2\n 0: A:GGGG c d e f g h i 1\n 0: A:10000 c d e f g h i 1\n 0: A:0050 c d e f g h i 42\n";
    assert_eq!(find_inode(80, 80, &vec![Some(table.to_string())]), Some("42".to_string()));
}

#[test]
fn tables_to_search() {
    assert_eq!(socket_tables(Protocol::Tcp), vec!["/proc/net/tcp", "/proc/net/tcp6"]);
    assert_eq!(socket_tables(Protocol::Udp), vec!["/proc/net/udp", "/proc/net/udp6"]);
    assert!(socket_tables(Protocol::Sctp).is_empty());
    assert!(socket_tables(Protocol::Icmpv4).is_empty());
}

#[test]
fn process_directories_are_numbers() {
    assert_eq!(pid_of_dir("4242"), Some(4242));
    assert_eq!(pid_of_dir("self"), None);
    assert_eq!(pid_of_dir("4294967296"), None);
    assert_eq!(pid_of_dir(""), None);
}

#[test]
fn socket_links_name_the_inode() {
    assert!(socket_target_matches_inode("socket:[12345]", "12345"));
    assert!(!socket_target_matches_inode("socket:[123456]", "12345"));
    assert!(!socket_target_matches_inode("pipe:[12345]", "12345"));
}

#[test]
fn status_gives_name_and_user() {
    let status = "Name:\tfirefox\nUmask:\t0002\nUid:\t1000\t1000\t1000\t1000\n";
    assert_eq!(parse_status(status), Some(("firefox".to_string(), 1000)));
    assert_eq!(parse_status("Name:\tx\n"), None);
    assert_eq!(parse_status("Uid:\t5\n"), None);
    assert_eq!(parse_status("Name: a\nName: b\nUid: 1\nUid: x\nUid:\n"), Some(("b".to_string(), 1)));
}

#[test]
fn ss_lines_name_the_process() {
    let line = "ESTAB 0 0 10.0.0.1:443 1.2.3.4:5 users:((\"nginx\",pid=812,fd=6))";
    assert_eq!(parse_ss_users_field(line), Some((812, "nginx".to_string())));
    assert_eq!(parse_ss_users_field("ESTAB 0 0 a b"), None);
    assert_eq!(parse_ss_users_field("users:((\"x\",pid=,fd=6))"), None);
    assert_eq!(parse_ss_users_field("users:((\"\",pid=1,fd=6))"), None);
    assert_eq!(parse_ss_users_field("users:((\"open,pid=1,fd=6))"), None);
    assert_eq!(parse_ss_users_field("users:((\"big\",pid=99999999999))"), None);
}

#[test]
fn the_first_usable_ss_line_counts() {
    let output = "State Recv-Q\nESTAB users:((\"\",pid=1))\nESTAB users:((\"sshd\",pid=70,fd=4))\nESTAB users:((\"b\",pid=71))\n";
    assert_eq!(ss_owner(output), Some((70, "sshd".to_string())));
    assert_eq!(ss_owner("State\n"), None);
}

#[test]
fn users_are_read_from_the_database() {
    let users = Users::parse("root:x:0:0:root:/root:/bin/sh\nann:x:1000:1000::/home/ann:\nbad line\nbob:x:oops:1::\nanna:x:1000:1::\n");
    assert_eq!(users.name_of(0), "root");
    assert_eq!(users.name_of(1000), "anna");
    assert_eq!(users.name_of(1001), "1001");
}

#[test]
fn the_lookup_goes_from_inode_to_status() {
    assert!(matches!(
        after_inode(Protocol::Udp, Some("55".to_string())),
        Lookup::FindPid { inode } if inode == "55"
    ));
    assert!(matches!(after_inode(Protocol::Tcp, Some("0".to_string())), Lookup::AskSs));
    assert!(matches!(after_inode(Protocol::Udp, Some("0".to_string())), Lookup::Unknown));
    assert!(matches!(after_inode(Protocol::Tcp, None), Lookup::AskSs));
    assert!(matches!(after_inode(Protocol::Sctp, None), Lookup::Unknown));
    assert!(matches!(after_pid(Protocol::Udp, Some(9)), Lookup::ReadStatus { pid: 9, name: None }));
    assert!(matches!(after_pid(Protocol::Tcp, None), Lookup::AskSs));
    assert!(matches!(after_pid(Protocol::Udp, None), Lookup::Unknown));
    assert!(matches!(after_ss(None), Lookup::Unknown));
    assert!(matches!(after_ss(Some("nothing")), Lookup::Unknown));
    assert!(matches!(
        after_ss(Some("users:((\"vim\",pid=8,fd=1))")),
        Lookup::ReadStatus { pid: 8, name: Some(name) } if name == "vim"
    ));
}

#[test]
fn the_owner_comes_from_the_status() {
    let users = Users::parse("ann:x:1000:");
    let status = "Name:\tfirefox\nUid:\t1000\n";
    let owner = after_status(9, None, Some(status), &users).unwrap();
    assert_eq!((owner.pid, owner.name.as_str(), owner.username.as_str()), (9, "firefox", "ann"));
    let owner = after_status(9, Some("Web Content".to_string()), Some(status), &users).unwrap();
    assert_eq!(owner.name, "Web Content");
    assert!(after_status(9, None, None, &users).is_none());
    assert!(after_status(9, Some("x".to_string()), Some("Name:\tx\n"), &users).is_none());
}
