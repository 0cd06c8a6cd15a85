use std::io::{Cursor, Write};
use tiny_msg::{Attachment, Email, MsgError, MsgReader, Timestamp};

fn utf16le(text: &str) -> Vec<u8> {
    let mut bytes = Vec::new();
    for unit in text.encode_utf16() {
        bytes.push((unit & 0xff) as u8);
        bytes.push((unit >> 8) as u8);
    }
    bytes
}

fn one_subject(subject: &str) -> Vec<u8> {
    let mut file = cfb::CompoundFile::create(Cursor::new(Vec::new())).unwrap();
    {
        let mut stream = file.create_stream("/__substg1.0_0037001F").unwrap();
        stream.write_all(&utf16le(subject)).unwrap();
        stream.flush().unwrap();
    }
    file.flush().unwrap();
    file.into_inner().into_inner()
}

#[test]
fn email_is_read_from_bytes() {
    let email = Email::from_bytes(&one_subject("Weekend plan")).unwrap();
    assert_eq!(email.subject, Some("Weekend plan".to_string()));
    assert_eq!(email.sent_date, None::<Timestamp>);
}

#[test]
fn reader_reads_one_property() {
    let mut container = tiny_msg::container::open_container(one_subject("Weekend plan")).unwrap();
    let mut reader = MsgReader::new(&mut container, "/");
    assert_eq!(reader.pr_subject(), Ok("Weekend plan".to_string()));
    assert_eq!(reader.pr_body_html(), Err(MsgError::PropertyMissing));
}

#[test]
fn reader_leaves_the_container_for_the_next_reader() {
    let mut container = tiny_msg::container::open_container(one_subject("twice")).unwrap();
    {
        let mut reader = MsgReader::new(&mut container, "/");
        assert_eq!(reader.pr_subject(), Ok("twice".to_string()));
    }
    let mut reader = MsgReader::new(&mut container, "/");
    assert_eq!(reader.pr_subject(), Ok("twice".to_string()));
    assert_eq!(reader.pr_subject(), Ok("twice".to_string()));
}

#[test]
fn attachment_is_a_name_and_data() {
    let attachment = Attachment { name: "a.txt".to_string(), data: vec![1, 2] };
    let copy = attachment.clone();
    assert_eq!(copy.name, "a.txt");
    assert_eq!(copy.data, vec![1, 2]);
}
