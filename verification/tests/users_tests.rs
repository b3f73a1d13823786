use eunix::eunix::users::{Group, ParseError, Passwd};

fn root() -> Passwd {
    Passwd {
        name: String::from("root"),
        password: String::from("x"),
        uid: 0,
        gid: 0,
        comment: String::from("superuser"),
        home: String::from("/root"),
        shell: String::from("/bin/sh"),
    }
}

#[test]
fn passwd_line_has_seven_fields() {
    assert_eq!(root().to_string(), "root:x:0:0:superuser:/root:/bin/sh");
}

#[test]
fn passwd_line_reads_back() {
    let line = root().to_string();
    let read = Passwd::parse_passwd_line(line.as_str(), true).ok().unwrap();
    assert_eq!(read.name, "root");
    assert_eq!(read.password, "x");
    assert_eq!(read.uid, 0);
    assert_eq!(read.gid, 0);
    assert_eq!(read.comment, "superuser");
    assert_eq!(read.home, "/root");
    assert_eq!(read.shell, "/bin/sh");
}

#[test]
fn passwds_serialize_and_parse_back() {
    let alice = Passwd {
        name: String::from("alice"),
        password: String::from("x"),
        uid: 1000,
        gid: 100,
        comment: String::new(),
        home: String::from("/home/alice"),
        shell: String::from("/bin/sh"),
    };
    let text = Passwd::serialize_passwds(&[root(), alice]);
    assert_eq!(text, "root:x:0:0:superuser:/root:/bin/sh\nalice:x:1000:100::/home/alice:/bin/sh");
    let read = Passwd::parse_passwds(text.as_str());
    assert_eq!(read.len(), 2);
    assert_eq!(read[1].name, "alice");
    assert_eq!(read[1].uid, 1000);
    assert_eq!(read[1].gid, 100);
    assert_eq!(read[1].comment, "");
}

#[test]
fn passwd_lines_without_seven_fields_are_left_out() {
    let read = Passwd::parse_passwds("root:x:0:0:superuser:/root\nbin:x:1:1:bin:/bin:/sbin/nologin");
    assert_eq!(read.len(), 1);
    assert_eq!(read[0].name, "bin");
    assert_eq!(read[0].shell, "/sbin/nologin");
}

#[test]
fn passwd_line_errors() {
    assert!(matches!(Passwd::parse_passwd_line("a:b:c:d:e:f:g", false), Err(ParseError::BadLine)));
    assert!(matches!(Passwd::parse_passwd_line("a:b:zero:0:e:f:g", true), Err(ParseError::InvalidUid)));
    assert!(matches!(Passwd::parse_passwd_line("a:b:70000:0:e:f:g", true), Err(ParseError::InvalidUid)));
    assert!(matches!(Passwd::parse_passwd_line("a:b:0:-1:e:f:g", true), Err(ParseError::InvalidGid)));
    assert!(matches!(Passwd::parse_passwd_line("a:b:+7:8:e:f:g", true), Ok(_)));
}

#[test]
fn group_line_joins_its_members() {
    let wheel = Group { name: String::from("wheel"), gid: 10, user_list: vec![String::from("root"), String::from("alice")] };
    assert_eq!(wheel.to_string(), "wheel:10:root,alice");
    assert_eq!(Group::serialize_groups(&[wheel]), "wheel:10:root,alice");
}

#[test]
fn group_line_reads_back_when_taken_as_shaped() {
    let read = Group::parse_group_line("wheel:10:root,alice", true).ok().unwrap();
    assert_eq!(read.name, "wheel");
    assert_eq!(read.gid, 10);
    assert_eq!(read.user_list, vec![String::from("root"), String::from("alice")]);
}

#[test]
fn group_lines_are_name_gid_and_users() {
    let read = Group::parse_groups("wheel:10:root,nrv");
    assert_eq!(read.len(), 1);
    assert_eq!(read[0].name, "wheel");
    assert_eq!(read[0].gid, 10);
    assert_eq!(read[0].user_list, vec![String::from("root"), String::from("nrv")]);
    assert!(Group::parse_groups("wheel:10").is_empty());
    let read = Group::parse_groups("wheel:10:root,alice\nstaff:x:bob");
    assert_eq!(read.len(), 1);
    assert_eq!(read[0].user_list, vec![String::from("root"), String::from("alice")]);
}

#[test]
fn groups_read_back_what_was_written() {
    let groups = vec![
        Group { name: String::from("wheel"), gid: 10, user_list: vec![String::from("root"), String::from("nrv")] },
        Group { name: String::from("staff"), gid: 20, user_list: vec![String::from("bob")] },
    ];
    let read = Group::parse_groups(&Group::serialize_groups(&groups));
    assert_eq!(read.len(), 2);
    for (r, g) in read.iter().zip(groups.iter()) {
        assert_eq!(r.name, g.name);
        assert_eq!(r.gid, g.gid);
        assert_eq!(r.user_list, g.user_list);
    }
}

#[test]
fn group_line_errors() {
    assert!(matches!(Group::parse_group_line("wheel", true), Err(ParseError::InvalidUid)));
    assert!(matches!(Group::parse_group_line("wheel:x:root", true), Err(ParseError::InvalidGid)));
    assert!(matches!(Group::parse_group_line("wheel:10:root", false), Err(ParseError::BadLine)));
}
