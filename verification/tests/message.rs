use std::io::{Cursor, Write};
use tiny_msg::container::open_container;
use tiny_msg::date::Timestamp;
use tiny_msg::error::MsgError;
use tiny_msg::message::{build_message, Email, MAX_DEPTH};

type File = cfb::CompoundFile<Cursor<Vec<u8>>>;

fn utf16le(text: &str) -> Vec<u8> {
    let mut bytes = Vec::new();
    for unit in text.encode_utf16() {
        bytes.push((unit & 0xff) as u8);
        bytes.push((unit >> 8) as u8);
    }
    bytes
}

fn new_file() -> File {
    cfb::CompoundFile::create(Cursor::new(Vec::new())).unwrap()
}

fn put(file: &mut File, path: &str, data: &[u8]) {
    let mut stream = file.create_stream(path).unwrap();
    stream.write_all(data).unwrap();
    stream.flush().unwrap();
}

fn put_text(file: &mut File, path: &str, text: &str) {
    put(file, path, &utf16le(text));
}

fn dir(file: &mut File, path: &str) {
    file.create_storage(path).unwrap();
}

fn finish(mut file: File) -> Vec<u8> {
    file.flush().unwrap();
    file.into_inner().into_inner()
}

fn pair(name: &str, address: &str) -> (String, String) {
    (name.to_string(), address.to_string())
}

fn sample() -> Vec<u8> {
    let mut file = new_file();
    put_text(&mut file, "/__substg1.0_0037001F", "Weekend plan");
    put_text(&mut file, "/__substg1.0_0C1A001F", "spoj");
    put_text(&mut file, "/__substg1.0_0C19001F", "spoj@example.com");
    put_text(
        &mut file,
        "/__substg1.0_007D001F",
        "Received: by host\r\nDate: Sun, 21 Nov 2021 10:55:06 +0100\r\nSubject: Weekend plan\r\n",
    );
    put(&mut file, "/__substg1.0_10130102", b"<META HTTP-EQUIV=\"Content-Type\">hello");
    put_text(&mut file, "/__substg1.0_0E04001F", "john");
    put_text(&mut file, "/__substg1.0_0E03001F", "karen");
    dir(&mut file, "/__recip_version1.0_#00000000");
    put_text(&mut file, "/__recip_version1.0_#00000000/__substg1.0_3001001F", "john");
    put_text(&mut file, "/__recip_version1.0_#00000000/__substg1.0_39FE001F", "john@example.com");
    dir(&mut file, "/__recip_version1.0_#00000001");
    put_text(&mut file, "/__recip_version1.0_#00000001/__substg1.0_3001001F", "karen");
    put_text(&mut file, "/__recip_version1.0_#00000001/__substg1.0_39FE001F", "karen@example.com");
    dir(&mut file, "/__attach_version1.0_#00000000");
    put_text(&mut file, "/__attach_version1.0_#00000000/__substg1.0_3704001F", "image001.png");
    put(&mut file, "/__attach_version1.0_#00000000/__substg1.0_37010102", &[1, 2, 3]);
    dir(&mut file, "/__attach_version1.0_#00000001");
    put_text(&mut file, "/__attach_version1.0_#00000001/__substg1.0_3001001F", "IMAGE0~2.PNG");
    put(&mut file, "/__attach_version1.0_#00000001/__substg1.0_37010102", &[4, 5]);
    dir(&mut file, "/__attach_version1.0_#00000002");
    dir(&mut file, "/__attach_version1.0_#00000002/__substg1.0_3701000D");
    put_text(
        &mut file,
        "/__attach_version1.0_#00000002/__substg1.0_3701000D/__substg1.0_0037001F",
        "Your flight itinerary",
    );
    finish(file)
}

#[test]
fn from_bytes_reads_every_field() {
    let email = Email::from_bytes(&sample()).unwrap();
    assert_eq!(email.from, Some(pair("spoj", "spoj@example.com")));
    assert_eq!(email.sent_date, Some(Timestamp { seconds: 1637488506, nanos: 0, offset_seconds: 0 }));
    assert_eq!(email.to, vec![pair("john", "john@example.com")]);
    assert_eq!(email.cc, vec![pair("karen", "karen@example.com")]);
    assert_eq!(email.bcc, Vec::new());
    assert_eq!(email.subject, Some("Weekend plan".to_string()));
    assert_eq!(email.body, Some("<META HTTP-EQUIV=\"Content-Type\">hello".to_string()));
    let names: Vec<&str> = email.attachments.iter().map(|a| a.name.as_str()).collect();
    assert_eq!(names, vec!["image001.png", "IMAGE0~2.PNG"]);
    assert_eq!(email.attachments[0].data, vec![1, 2, 3]);
    assert_eq!(email.attachments[1].data, vec![4, 5]);
}

#[test]
fn from_bytes_follows_the_embedded_message() {
    let email = Email::from_bytes(&sample()).unwrap();
    assert_eq!(email.embedded_messages.len(), 1);
    let inner = &email.embedded_messages[0];
    assert_eq!(inner.subject, Some("Your flight itinerary".to_string()));
    assert_eq!(inner.from, None);
    assert_eq!(inner.sent_date, None);
    assert!(inner.to.is_empty());
    assert_eq!(inner.body, None);
    assert!(inner.attachments.is_empty());
    assert!(inner.embedded_messages.is_empty());
}

#[test]
fn message_without_embedded_path_has_no_embedded_message() {
    let mut file = new_file();
    put_text(&mut file, "/__substg1.0_0037001F", "plain");
    dir(&mut file, "/__attach_version1.0_#00000000");
    put_text(&mut file, "/__attach_version1.0_#00000000/__substg1.0_3704001F", "a.txt");
    put(&mut file, "/__attach_version1.0_#00000000/__substg1.0_37010102", &[1]);
    let email = Email::from_bytes(&finish(file)).unwrap();
    assert_eq!(email.attachments.len(), 1);
    assert!(email.embedded_messages.is_empty());
}

#[test]
fn empty_container_gives_an_empty_message() {
    let email = Email::from_bytes(&finish(new_file())).unwrap();
    assert_eq!(email.from, None);
    assert_eq!(email.sent_date, None);
    assert!(email.to.is_empty());
    assert!(email.cc.is_empty());
    assert!(email.bcc.is_empty());
    assert_eq!(email.subject, None);
    assert_eq!(email.body, None);
    assert!(email.attachments.is_empty());
    assert!(email.embedded_messages.is_empty());
}

#[test]
fn field_that_does_not_decode_is_absent() {
    let mut file = new_file();
    put(&mut file, "/__substg1.0_0037001F", &[0x00, 0xd8]);
    put_text(&mut file, "/__substg1.0_007D001F", "Date: never\r\n");
    put(&mut file, "/__substg1.0_10130102", &[0xff]);
    put_text(&mut file, "/__substg1.0_0C1A001F", "spoj");
    let email = Email::from_bytes(&finish(file)).unwrap();
    assert_eq!(email.subject, None);
    assert_eq!(email.sent_date, None);
    assert_eq!(email.body, None);
    assert_eq!(email.from, None);
}

#[test]
fn from_bytes_rejects_bytes_that_are_no_compound_file() {
    assert_eq!(Email::from_bytes(b"garbage").err(), Some(MsgError::IO));
    assert_eq!(Email::from_bytes(&[]).err(), Some(MsgError::IO));
}

#[test]
fn build_message_fails_at_a_path_that_is_no_storage() {
    let mut c = open_container(sample()).unwrap();
    assert_eq!(build_message(&mut c, "/nothing", MAX_DEPTH).err(), Some(MsgError::PropertyMissing));
    assert_eq!(
        build_message(&mut c, "/__substg1.0_0037001F", MAX_DEPTH).err(),
        Some(MsgError::PropertyMissing)
    );
}

#[test]
fn build_message_reads_the_message_at_a_path() {
    let mut c = open_container(sample()).unwrap();
    let inner =
        build_message(&mut c, "/__attach_version1.0_#00000002/__substg1.0_3701000D", MAX_DEPTH)
            .unwrap();
    assert_eq!(inner.subject, Some("Your flight itinerary".to_string()));
}

#[test]
fn build_message_with_depth_zero_follows_no_embedded_message() {
    let mut c = open_container(sample()).unwrap();
    let email = build_message(&mut c, "/", 0).unwrap();
    assert_eq!(email.subject, Some("Weekend plan".to_string()));
    assert_eq!(email.attachments.len(), 2);
    assert!(email.embedded_messages.is_empty());
}

#[test]
fn build_message_follows_as_many_levels_as_asked() {
    let mut file = new_file();
    put_text(&mut file, "/__substg1.0_0037001F", "level 0");
    let mut base = String::new();
    for level in 1..4 {
        base.push_str("/__attach_version1.0_#00000000");
        dir(&mut file, &base);
        base.push_str("/__substg1.0_3701000D");
        dir(&mut file, &base);
        put_text(&mut file, &format!("{}/__substg1.0_0037001F", base), &format!("level {}", level));
    }
    let bytes = finish(file);
    let mut c = open_container(bytes.clone()).unwrap();
    let two = build_message(&mut c, "/", 2).unwrap();
    assert_eq!(two.embedded_messages.len(), 1);
    assert_eq!(two.embedded_messages[0].subject, Some("level 1".to_string()));
    assert_eq!(two.embedded_messages[0].embedded_messages.len(), 1);
    assert_eq!(
        two.embedded_messages[0].embedded_messages[0].subject,
        Some("level 2".to_string())
    );
    assert!(two.embedded_messages[0].embedded_messages[0].embedded_messages.is_empty());
    let all = Email::from_bytes(&bytes).unwrap();
    let deepest = &all.embedded_messages[0].embedded_messages[0].embedded_messages[0];
    assert_eq!(deepest.subject, Some("level 3".to_string()));
    assert!(deepest.embedded_messages.is_empty());
}

#[test]
fn message_with_two_embedded_messages_keeps_their_order() {
    let mut file = new_file();
    for index in 0..2u8 {
        let base = format!("/__attach_version1.0_#0000000{}", index);
        dir(&mut file, &base);
        dir(&mut file, &format!("{}/__substg1.0_3701000D", base));
        put_text(
            &mut file,
            &format!("{}/__substg1.0_3701000D/__substg1.0_0037001F", base),
            &format!("inner {}", index),
        );
    }
    let email = Email::from_bytes(&finish(file)).unwrap();
    let subjects: Vec<Option<String>> =
        email.embedded_messages.iter().map(|m| m.subject.clone()).collect();
    assert_eq!(subjects, vec![Some("inner 0".to_string()), Some("inner 1".to_string())]);
}

#[test]
fn clone_holds_the_same_message() {
    let email = Email::from_bytes(&sample()).unwrap();
    let copy = email.clone();
    assert_eq!(copy.from, email.from);
    assert_eq!(copy.sent_date, email.sent_date);
    assert_eq!(copy.to, email.to);
    assert_eq!(copy.cc, email.cc);
    assert_eq!(copy.bcc, email.bcc);
    assert_eq!(copy.subject, email.subject);
    assert_eq!(copy.body, email.body);
    assert_eq!(copy.attachments.len(), 2);
    assert_eq!(copy.attachments[1].name, "IMAGE0~2.PNG");
    assert_eq!(copy.attachments[1].data, vec![4, 5]);
    assert_eq!(copy.embedded_messages.len(), 1);
    assert_eq!(copy.embedded_messages[0].subject, Some("Your flight itinerary".to_string()));
}
