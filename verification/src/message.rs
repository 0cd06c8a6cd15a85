//! Messages as owned values, and the walk that builds them.

use crate::container::{contents, contents_of, open_container, Container, Contents};
use crate::date::{date_word, lemma_no_date_line, Timestamp};
use crate::error::MsgError;
use crate::fields::{
    attachment_prefix, attachments, bcc, body, cc, contact_view, contacts, embedded_in,
    embedded_messages, html_body, sender, sent_date, sub_storages, subject, texts, to,
    transport_headers, AttachmentView, Contact,
};
use crate::text::lines;
use crate::property::embedded_property;
use crate::reader::MsgReader;
use vstd::prelude::*;
use vstd::slice::slice_to_vec;

verus! {

/// An attachment of a message.
#[derive(Debug, Clone)]
pub struct Attachment {
    /// The file name: the long one where the message has it, else the short
    /// one.
    pub name: String,
    /// The attached data.
    pub data: Vec<u8>,
}

impl Attachment {
    /// The attachment as a plain value.
    pub open spec fn view(&self) -> AttachmentView {
        (self.name@, self.data@)
    }
}

/// The attachments of a vector as plain values.
pub open spec fn attachment_views(v: Seq<Attachment>) -> Seq<AttachmentView> {
    Seq::new(v.len(), |i: int| v[i].view())
}

/// A message: its fields, its attachments and the messages embedded in it.
/// A field that the container does not hold, or that cannot be read, is
/// absent.
#[derive(Debug)]
pub struct Email {
    /// The sender: display name and address.
    pub from: Option<(String, String)>,
    /// The date the message was sent, in UTC.
    pub sent_date: Option<Timestamp>,
    /// The recipients in the role "to": display name and address.
    pub to: Vec<(String, String)>,
    /// The recipients in the role "cc".
    pub cc: Vec<(String, String)>,
    /// The recipients in the role "bcc".
    pub bcc: Vec<(String, String)>,
    /// The subject.
    pub subject: Option<String>,
    /// The body: HTML where the message has it, else rich text.
    pub body: Option<String>,
    /// The attachments.
    pub attachments: Vec<Attachment>,
    /// The messages embedded in this one.
    pub embedded_messages: Vec<Email>,
}

/// How many levels of embedded messages [`Email::from_bytes`] follows.
pub const MAX_DEPTH: usize = 64;

/// The path of the root storage.
pub open spec fn root_path() -> Seq<char> {
    "/"@
}

/// What a result holds, where it is a success.
pub open spec fn found<T>(r: Result<T, MsgError>) -> Option<T> {
    match r {
        Ok(value) => Some(value),
        Err(_) => None,
    }
}

/// The sequence that a result holds, or the empty one.
pub open spec fn found_or_empty<T>(r: Result<Seq<T>, MsgError>) -> Seq<T> {
    match r {
        Ok(values) => values,
        Err(_) => Seq::empty(),
    }
}

/// An optional string by its text.
pub open spec fn text_option(o: Option<String>) -> Option<Seq<char>> {
    match o {
        Some(s) => Some(s@),
        None => None,
    }
}

/// An optional pair of strings as a contact.
pub open spec fn contact_option(o: Option<(String, String)>) -> Option<Contact> {
    match o {
        Some(pair) => Some(contact_view(pair)),
        None => None,
    }
}

/// The date of a result, written in UTC.
pub open spec fn found_utc(r: Result<Timestamp, MsgError>) -> Option<Timestamp> {
    match r {
        Ok(date) => Some(date.utc()),
        Err(_) => None,
    }
}

impl Email {
    /// The fields of this message, but for the embedded messages, are those
    /// of the message at `base`: each one present with its value where it can
    /// be read, and absent or empty where it cannot.
    pub open spec fn has_fields_of(&self, held: Contents, base: Seq<char>) -> bool {
        &&& contact_option(self.from) == found(sender(held, base))
        &&& self.sent_date == found_utc(sent_date(held, base))
        &&& contacts(self.to@) == found_or_empty(to(held, base))
        &&& contacts(self.cc@) == found_or_empty(cc(held, base))
        &&& contacts(self.bcc@) == found_or_empty(bcc(held, base))
        &&& text_option(self.subject) == found(subject(held, base))
        &&& text_option(self.body) == found(body(held, base))
        &&& attachment_views(self.attachments@) == found_or_empty(attachments(held, base))
    }

    /// This is the message at `base`, with the messages embedded in it
    /// followed `depth` levels down: its fields are those of the message at
    /// `base`; with `depth` zero it holds no embedded message; otherwise it
    /// holds one for each embedded-message path, in order, and that one is
    /// the message at that path followed one level less.
    pub open spec fn is_message(&self, held: Contents, base: Seq<char>, depth: nat) -> bool
        decreases depth,
    {
        &&& self.has_fields_of(held, base)
        &&& embedded_messages(held, base) matches Ok(paths) && if depth == 0 {
            self.embedded_messages@.len() == 0
        } else {
            &&& self.embedded_messages@.len() == paths.len()
            &&& forall|i: int|
                0 <= i < paths.len() ==> (#[trigger] self.embedded_messages@[i]).is_message(
                    held,
                    paths[i],
                    (depth - 1) as nat,
                )
        }
    }

    /// This message holds what `other` holds: the same fields, the same
    /// attachments, and embedded messages that hold the same in turn.
    pub open spec fn holds_what(&self, other: Email) -> bool
        decreases self,
    {
        &&& contact_option(self.from) == contact_option(other.from)
        &&& self.sent_date == other.sent_date
        &&& contacts(self.to@) == contacts(other.to@)
        &&& contacts(self.cc@) == contacts(other.cc@)
        &&& contacts(self.bcc@) == contacts(other.bcc@)
        &&& text_option(self.subject) == text_option(other.subject)
        &&& text_option(self.body) == text_option(other.body)
        &&& attachment_views(self.attachments@) == attachment_views(other.attachments@)
        &&& self.embedded_messages@.len() == other.embedded_messages@.len()
        &&& forall|i: int|
            0 <= i < self.embedded_messages@.len() ==> (#[trigger] self.embedded_messages@[i]).holds_what(
                other.embedded_messages@[i],
            )
    }

    /// Reads the message that the compound file `bytes` holds at its root,
    /// with embedded messages followed [`MAX_DEPTH`] levels down. Bytes that
    /// are no compound file are an IO error.
    pub fn from_bytes(bytes: &[u8]) -> (r: Result<Email, MsgError>)
        ensures
            match r {
                Ok(email) => contents_of(bytes@) matches Ok(held) && email.is_message(
                    held,
                    root_path(),
                    MAX_DEPTH as nat,
                ),
                Err(e) => match contents_of(bytes@) {
                    Ok(held) => embedded_messages(held, root_path()) == Err::<
                        Seq<Seq<char>>,
                        MsgError,
                    >(e),
                    Err(failure) => e == failure,
                },
            },
    {
        let mut container = match open_container(slice_to_vec(bytes)) {
            Ok(container) => container,
            Err(e) => {
                return Err(e);
            },
        };
        build_message(&mut container, "/", MAX_DEPTH)
    }
}

fn clone_contacts(list: &Vec<(String, String)>) -> (copy: Vec<(String, String)>)
    ensures
        contacts(copy@) == contacts(list@),
{
    let mut copy: Vec<(String, String)> = Vec::new();
    let mut k: usize = 0;
    while k < list.len()
        invariant
            k <= list.len(),
            copy@.len() == k,
            forall|i: int| 0 <= i < k ==> contact_view(#[trigger] copy@[i]) == contact_view(list@[i]),
        decreases list.len() - k,
    {
        copy.push((list[k].0.clone(), list[k].1.clone()));
        k += 1;
    }
    assert(contacts(copy@) =~= contacts(list@));
    copy
}

impl Clone for Email {
    fn clone(&self) -> (copy: Self)
        ensures
            self.holds_what(copy),
        decreases self,
    {
        let from = match &self.from {
            Some(pair) => Some((pair.0.clone(), pair.1.clone())),
            None => None,
        };
        let subject = match &self.subject {
            Some(text) => Some(text.clone()),
            None => None,
        };
        let body = match &self.body {
            Some(text) => Some(text.clone()),
            None => None,
        };
        let mut attachments: Vec<Attachment> = Vec::new();
        let mut k: usize = 0;
        while k < self.attachments.len()
            invariant
                k <= self.attachments.len(),
                attachments@.len() == k,
                forall|i: int|
                    0 <= i < k ==> (#[trigger] attachments@[i]).view() == self.attachments@[i].view(),
            decreases self.attachments.len() - k,
        {
            attachments.push(
                Attachment {
                    name: self.attachments[k].name.clone(),
                    data: self.attachments[k].data.clone(),
                },
            );
            k += 1;
        }
        let mut embedded: Vec<Email> = Vec::new();
        let mut k: usize = 0;
        while k < self.embedded_messages.len()
            invariant
                k <= self.embedded_messages.len(),
                embedded@.len() == k,
                forall|i: int|
                    0 <= i < k ==> (#[trigger] self.embedded_messages@[i]).holds_what(embedded@[i]),
            decreases self.embedded_messages.len() - k,
        {
            embedded.push(self.embedded_messages[k].clone());
            k += 1;
        }
        assert(attachment_views(attachments@) =~= attachment_views(self.attachments@));
        Email {
            from,
            sent_date: self.sent_date,
            to: clone_contacts(&self.to),
            cc: clone_contacts(&self.cc),
            bcc: clone_contacts(&self.bcc),
            subject,
            body,
            attachments,
            embedded_messages: embedded,
        }
    }
}

/// Builds the message whose storage lies at `path`, with the messages
/// embedded in it followed `depth` levels down. No field that cannot be read
/// fails the build: it is left absent. Only a `path` whose entries the
/// container cannot list fails it.
pub fn build_message(c: &mut Container, path: &str, depth: usize) -> (r: Result<Email, MsgError>)
    ensures
        contents(*final(c)) == contents(*old(c)),
        match r {
            Ok(email) => email.is_message(contents(*old(c)), path@, depth as nat),
            Err(e) => embedded_messages(contents(*old(c)), path@) == Err::<
                Seq<Seq<char>>,
                MsgError,
            >(e),
        },
    decreases depth,
{
    let ghost held = contents(*c);
    let mut reader = MsgReader::new(c, path);
    let from = match reader.from() {
        Ok(pair) => Some(pair),
        Err(_) => None,
    };
    let sent_date = match reader.sent_date() {
        Ok(date) => Some(date.to_utc()),
        Err(_) => None,
    };
    let to = match reader.to() {
        Ok(list) => list,
        Err(_) => Vec::new(),
    };
    let cc = match reader.cc() {
        Ok(list) => list,
        Err(_) => Vec::new(),
    };
    let bcc = match reader.bcc() {
        Ok(list) => list,
        Err(_) => Vec::new(),
    };
    let subject = match reader.pr_subject() {
        Ok(text) => Some(text),
        Err(_) => None,
    };
    let body = match reader.body() {
        Ok(text) => Some(text),
        Err(_) => None,
    };
    let attachments = match reader.attachments() {
        Ok(list) => list,
        Err(_) => Vec::new(),
    };
    let paths = match reader.embedded_messages() {
        Ok(paths) => paths,
        Err(e) => {
            return Err(e);
        },
    };
    proof {
        assert(contacts(Seq::<(String, String)>::empty()) == Seq::<Contact>::empty());
        assert(attachment_views(Seq::<Attachment>::empty()) == Seq::<AttachmentView>::empty());
    }
    let mut embedded: Vec<Email> = Vec::new();
    if depth > 0 {
        let mut k: usize = 0;
        while k < paths.len()
            invariant
                k <= paths.len(),
                depth > 0,
                contents(*c) == held,
                embedded_messages(held, path@) == Ok::<Seq<Seq<char>>, MsgError>(texts(paths@)),
                embedded@.len() == k,
                forall|i: int|
                    0 <= i < k ==> (#[trigger] embedded@[i]).is_message(
                        held,
                        texts(paths@)[i],
                        (depth - 1) as nat,
                    ),
            decreases paths.len() - k,
        {
            match build_message(c, paths[k].as_str(), depth - 1) {
                Ok(email) => {
                    embedded.push(email);
                },
                Err(e) => {
                    proof {
                        lemma_embedded_are_storages(held, path@, k as int);
                    }
                    return Err(e);
                },
            }
            k += 1;
        }
    }
    Ok(
        Email {
            from,
            sent_date,
            to,
            cc,
            bcc,
            subject,
            body,
            attachments,
            embedded_messages: embedded,
        },
    )
}

/// What holds the same as a message at `base` is that message too.
pub proof fn lemma_copy_is_message(
    email: Email,
    copy: Email,
    held: Contents,
    base: Seq<char>,
    depth: nat,
)
    requires
        email.holds_what(copy),
        email.is_message(held, base, depth),
    ensures
        copy.is_message(held, base, depth),
    decreases depth,
{
    if depth > 0 {
        let paths = embedded_messages(held, base)->Ok_0;
        assert forall|i: int| 0 <= i < paths.len() implies (#[trigger] copy.embedded_messages@[i]).is_message(
            held,
            paths[i],
            (depth - 1) as nat,
        ) by {
            assert(email.embedded_messages@[i].holds_what(copy.embedded_messages@[i]));
            assert(email.embedded_messages@[i].is_message(held, paths[i], (depth - 1) as nat));
            lemma_copy_is_message(
                email.embedded_messages@[i],
                copy.embedded_messages@[i],
                held,
                paths[i],
                (depth - 1) as nat,
            );
        }
    }
}

/// Each embedded-message path names a storage of the container.
pub proof fn lemma_embedded_are_storages(held: Contents, base: Seq<char>, i: int)
    requires
        embedded_messages(held, base) is Ok,
        0 <= i < embedded_messages(held, base)->Ok_0.len(),
    ensures
        held.storages.dom().contains(embedded_messages(held, base)->Ok_0[i]),
        embedded_messages(held, embedded_messages(held, base)->Ok_0[i]) is Ok,
{
    let entries = crate::container::entries_at(held, base)->Ok_0;
    let below = sub_storages(entries, attachment_prefix()).map_values(
        |path: Seq<char>| embedded_property(path),
    );
    below.lemma_filter_pred(|path: Seq<char>| held.storages.dom().contains(path), i);
}

/// A message with a single attachment storage, below which the container has
/// a storage at the embedded-message path, holds exactly one embedded
/// message.
pub proof fn lemma_one_embedded_message(
    email: Email,
    held: Contents,
    base: Seq<char>,
    depth: nat,
    attachment: Seq<char>,
)
    requires
        depth > 0,
        email.is_message(held, base, depth),
        crate::container::entries_at(held, base) matches Ok(entries) && sub_storages(
            entries,
            attachment_prefix(),
        ) == seq![attachment],
        held.storages.dom().contains(embedded_property(attachment)),
    ensures
        embedded_messages(held, base) == Ok::<Seq<Seq<char>>, MsgError>(
            seq![embedded_property(attachment)],
        ),
        email.embedded_messages@.len() == 1,
        email.embedded_messages@[0].is_message(
            held,
            embedded_property(attachment),
            (depth - 1) as nat,
        ),
{
    let below = seq![attachment].map_values(|path: Seq<char>| embedded_property(path));
    assert(below == Seq::<Seq<char>>::empty().push(embedded_property(attachment)));
    reveal(Seq::filter);
    Seq::<Seq<char>>::empty().lemma_filter_push(
        embedded_property(attachment),
        |path: Seq<char>| held.storages.dom().contains(path),
    );
    assert(embedded_in(held, seq![attachment]) == seq![embedded_property(attachment)]);
}

/// A message none of whose attachment storages has a storage at the
/// embedded-message path holds no embedded message.
pub proof fn lemma_no_embedded_message(email: Email, held: Contents, base: Seq<char>, depth: nat)
    requires
        email.is_message(held, base, depth),
        crate::container::entries_at(held, base) matches Ok(entries) && forall|i: int|
            0 <= i < sub_storages(entries, attachment_prefix()).len()
                ==> !held.storages.dom().contains(
                embedded_property(#[trigger] sub_storages(entries, attachment_prefix())[i]),
            ),
    ensures
        embedded_messages(held, base) == Ok::<Seq<Seq<char>>, MsgError>(Seq::empty()),
        email.embedded_messages@.len() == 0,
{
    let entries = crate::container::entries_at(held, base)->Ok_0;
    let paths = sub_storages(entries, attachment_prefix());
    let below = paths.map_values(|path: Seq<char>| embedded_property(path));
    let present = |path: Seq<char>| held.storages.dom().contains(path);
    assert forall|i: int| 0 <= i < below.len() implies !present(#[trigger] below[i]) by {
        assert(below[i] == embedded_property(paths[i]));
    }
    lemma_filter_none(below, present);
    assert(below.filter(present) == Seq::<Seq<char>>::empty());
}

/// A message whose transport headers have no line that begins with `Date`
/// has no date.
pub proof fn lemma_no_date_line_no_sent_date(email: Email, held: Contents, base: Seq<char>)
    requires
        email.has_fields_of(held, base),
        transport_headers(held, base) matches Ok(headers) && forall|k: int|
            0 <= k < lines(headers).len() ==> !date_word().is_prefix_of(
                #[trigger] lines(headers)[k],
            ),
    ensures
        email.sent_date is None,
{
    lemma_no_date_line(transport_headers(held, base)->Ok_0);
}

/// A message whose HTML body can be read has that body, whatever its
/// rich-text body holds.
pub proof fn lemma_html_body_is_the_body(email: Email, held: Contents, base: Seq<char>)
    requires
        email.has_fields_of(held, base),
        html_body(held, base) is Ok,
    ensures
        text_option(email.body) == Some(html_body(held, base)->Ok_0),
{
}

proof fn lemma_filter_none(s: Seq<Seq<char>>, pred: spec_fn(Seq<char>) -> bool)
    requires
        forall|i: int| 0 <= i < s.len() ==> !pred(#[trigger] s[i]),
    ensures
        s.filter(pred) == Seq::<Seq<char>>::empty(),
    decreases s.len(),
{
    reveal(Seq::filter);
    if s.len() > 0 {
        assert forall|i: int| 0 <= i < s.drop_last().len() implies !pred(
            #[trigger] s.drop_last()[i],
        ) by {
            assert(s.drop_last()[i] == s[i]);
        }
        lemma_filter_none(s.drop_last(), pred);
    }
}

} // verus!
