//! The low-level reader: one method for each property of a message.

use crate::codec::{bytes_view, decode_text, decode_utf8_text, text_view};
use crate::container::{
    contents, entry_views, is_storage, list_entries, read_stream, Container, Contents, EntryView,
};
use crate::date::{resolve_date, Timestamp};
use crate::error::MsgError;
use crate::fields::{
    attachment_at, attachments_at, bcc, body, cc, contact_view, contacts, embedded_in, embedded_messages, html_body, is_sub_storage,
    recipient_at, recipients, recipients_at, role, rtf_body, rtf_compressed, sender,
    sender_address, sender_email_address, sender_name, sent_date, smtp_address,
    smtp_sender_address, sub_storages, subject, text_at, text_field, binary_field, texts, to,
    transport_headers, AttachmentView, Contact,
};
use crate::message::{attachment_views, Attachment};
use crate::property::{
    binary_property_path, embedded_property, embedded_property_path, join, join_path,
    text_property_path,
};
use crate::roles::select_members;
use crate::rtf::decompress_rtf_text;
use crate::text::{chars_of, starts_with};
use vstd::prelude::*;

verus! {

/// A reader of the message whose storage lies at `path` in the container
/// `inner`.
pub struct MsgReader<'c, 'p> {
    /// The container that is read.
    pub inner: &'c mut Container,
    /// The path of the message's storage.
    pub path: &'p str,
}

/// A result of contacts by what the pairs hold.
pub open spec fn contacts_view(r: Result<Vec<(String, String)>, MsgError>) -> Result<
    Seq<Contact>,
    MsgError,
> {
    match r {
        Ok(v) => Ok(contacts(v@)),
        Err(e) => Err(e),
    }
}

/// A result of one contact by what the pair holds.
pub open spec fn contact_result_view(r: Result<(String, String), MsgError>) -> Result<
    Contact,
    MsgError,
> {
    match r {
        Ok(pair) => Ok(contact_view(pair)),
        Err(e) => Err(e),
    }
}

/// A result of paths by their texts.
pub open spec fn texts_view(r: Result<Vec<String>, MsgError>) -> Result<Seq<Seq<char>>, MsgError> {
    match r {
        Ok(v) => Ok(texts(v@)),
        Err(e) => Err(e),
    }
}

/// A result of attachments by what they hold.
pub open spec fn attachments_view(r: Result<Vec<Attachment>, MsgError>) -> Result<
    Seq<AttachmentView>,
    MsgError,
> {
    match r {
        Ok(v) => Ok(attachment_views(v@)),
        Err(e) => Err(e),
    }
}

/// Once a recipient fails, the whole list fails with it.
proof fn lemma_recipients_fail(held: Contents, paths: Seq<Seq<char>>, n: int, upto: int)
    requires
        0 <= n <= upto <= paths.len(),
        recipients_at(held, paths.take(n)) is Err,
    ensures
        recipients_at(held, paths.take(upto)) == recipients_at(held, paths.take(n)),
    decreases upto - n,
{
    if n < upto {
        lemma_recipients_fail(held, paths, n, upto - 1);
        assert(paths.take(upto).drop_last() == paths.take(upto - 1));
    }
}

impl<'c, 'p> MsgReader<'c, 'p> {
    /// What the container holds.
    pub open spec fn held(&self) -> Contents {
        contents(*self.inner)
    }

    /// The path of the message's storage.
    pub open spec fn base(&self) -> Seq<char> {
        self.path@
    }

    /// A reader of the message at `path` in `inner`.
    pub fn new(inner: &'c mut Container, path: &'p str) -> (reader: Self)
        ensures
            reader.held() == contents(*old(inner)),
            reader.base() == path@,
            *final(reader.inner) == *final(inner),
    {
        MsgReader { inner, path }
    }

    fn read_bytes_at(&mut self, path: &str) -> (r: Result<Vec<u8>, MsgError>)
        ensures
            final(self).held() == old(self).held(),
            final(self).base() == old(self).base(),
            *final(final(self).inner) == *final(old(self).inner),
            bytes_view(r) == crate::container::bytes_at(old(self).held(), path@),
    {
        read_stream(self.inner, path)
    }

    fn read_text_at(&mut self, path: &str) -> (r: Result<String, MsgError>)
        ensures
            final(self).held() == old(self).held(),
            final(self).base() == old(self).base(),
            *final(final(self).inner) == *final(old(self).inner),
            text_view(r) == text_at(old(self).held(), path@),
    {
        match self.read_bytes_at(path) {
            Ok(bytes) => decode_text(bytes.as_slice()),
            Err(e) => Err(e),
        }
    }

    fn read_simple_string(&mut self, prop: &str) -> (r: Result<String, MsgError>)
        ensures
            final(self).held() == old(self).held(),
            final(self).base() == old(self).base(),
            *final(final(self).inner) == *final(old(self).inner),
            text_view(r) == text_field(old(self).held(), old(self).base(), prop@),
    {
        let path = text_property_path(self.path, prop);
        self.read_text_at(path.as_str())
    }

    fn read_simple_binary(&mut self, prop: &str) -> (r: Result<Vec<u8>, MsgError>)
        ensures
            final(self).held() == old(self).held(),
            final(self).base() == old(self).base(),
            *final(final(self).inner) == *final(old(self).inner),
            bytes_view(r) == binary_field(old(self).held(), old(self).base(), prop@),
    {
        let path = binary_property_path(self.path, prop);
        self.read_bytes_at(path.as_str())
    }

    /// The bytes of the stream at `subpath` below the message's storage.
    pub fn read_path_as_binary(&mut self, subpath: &str) -> (r: Result<Vec<u8>, MsgError>)
        ensures
            final(self).held() == old(self).held(),
            final(self).base() == old(self).base(),
            *final(final(self).inner) == *final(old(self).inner),
            bytes_view(r) == crate::container::bytes_at(
                old(self).held(),
                join_path(old(self).base(), subpath@),
            ),
    {
        let path = join(self.path, subpath);
        self.read_bytes_at(path.as_str())
    }

    /// The text of the stream at `subpath` below the message's storage.
    pub fn read_path_as_string(&mut self, subpath: &str) -> (r: Result<String, MsgError>)
        ensures
            final(self).held() == old(self).held(),
            final(self).base() == old(self).base(),
            *final(final(self).inner) == *final(old(self).inner),
            text_view(r) == text_at(old(self).held(), join_path(old(self).base(), subpath@)),
    {
        let path = join(self.path, subpath);
        self.read_text_at(path.as_str())
    }

    /// The subject.
    pub fn pr_subject(&mut self) -> (r: Result<String, MsgError>)
        ensures
            final(self).held() == old(self).held(),
            final(self).base() == old(self).base(),
            *final(final(self).inner) == *final(old(self).inner),
            text_view(r) == subject(old(self).held(), old(self).base()),
    {
        self.read_simple_string("0037")
    }

    /// The sender's display name.
    pub fn pr_sender_name(&mut self) -> (r: Result<String, MsgError>)
        ensures
            final(self).held() == old(self).held(),
            final(self).base() == old(self).base(),
            *final(final(self).inner) == *final(old(self).inner),
            text_view(r) == sender_name(old(self).held(), old(self).base()),
    {
        self.read_simple_string("0C1A")
    }

    /// The sender's address as a plain string.
    pub fn pr_sender_email_adress_str(&mut self) -> (r: Result<String, MsgError>)
        ensures
            final(self).held() == old(self).held(),
            final(self).base() == old(self).base(),
            *final(final(self).inner) == *final(old(self).inner),
            text_view(r) == sender_email_address(old(self).held(), old(self).base()),
    {
        self.read_simple_string("0C19")
    }

    /// The sender's SMTP address.
    pub fn pr_smtp_sender_address(&mut self) -> (r: Result<String, MsgError>)
        ensures
            final(self).held() == old(self).held(),
            final(self).base() == old(self).base(),
            *final(final(self).inner) == *final(old(self).inner),
            text_view(r) == smtp_sender_address(old(self).held(), old(self).base()),
    {
        self.read_simple_string("5D01")
    }

    /// The SMTP address.
    pub fn pr_smtp_address(&mut self) -> (r: Result<String, MsgError>)
        ensures
            final(self).held() == old(self).held(),
            final(self).base() == old(self).base(),
            *final(final(self).inner) == *final(old(self).inner),
            text_view(r) == smtp_address(old(self).held(), old(self).base()),
    {
        self.read_simple_string("39FE")
    }

    /// The sender's address: the plain address string, else the SMTP
    /// address, else the sender's SMTP address.
    pub fn sender_address(&mut self) -> (r: Result<String, MsgError>)
        ensures
            final(self).held() == old(self).held(),
            final(self).base() == old(self).base(),
            *final(final(self).inner) == *final(old(self).inner),
            text_view(r) == sender_address(old(self).held(), old(self).base()),
    {
        match self.pr_sender_email_adress_str() {
            Ok(address) => Ok(address),
            Err(_) => match self.pr_smtp_address() {
                Ok(address) => Ok(address),
                Err(_) => self.pr_smtp_sender_address(),
            },
        }
    }

    /// The sender: display name and address.
    pub fn from(&mut self) -> (r: Result<(String, String), MsgError>)
        ensures
            final(self).held() == old(self).held(),
            final(self).base() == old(self).base(),
            *final(final(self).inner) == *final(old(self).inner),
            contact_result_view(r) == sender(old(self).held(), old(self).base()),
    {
        match self.pr_sender_name() {
            Err(e) => Err(e),
            Ok(name) => match self.sender_address() {
                Ok(address) => Ok((name, address)),
                Err(e) => Err(e),
            },
        }
    }

    /// The raw transport headers.
    pub fn pr_transport_message_headers(&mut self) -> (r: Result<String, MsgError>)
        ensures
            final(self).held() == old(self).held(),
            final(self).base() == old(self).base(),
            *final(final(self).inner) == *final(old(self).inner),
            text_view(r) == transport_headers(old(self).held(), old(self).base()),
    {
        self.read_simple_string("007D")
    }

    /// The HTML body, its bytes read strictly as UTF-8.
    pub fn pr_body_html(&mut self) -> (r: Result<String, MsgError>)
        ensures
            final(self).held() == old(self).held(),
            final(self).base() == old(self).base(),
            *final(final(self).inner) == *final(old(self).inner),
            text_view(r) == html_body(old(self).held(), old(self).base()),
    {
        match self.read_simple_binary("1013") {
            Ok(bytes) => decode_utf8_text(bytes),
            Err(e) => Err(e),
        }
    }

    /// The compressed rich-text body, as it is stored.
    pub fn pr_rtf_compressed(&mut self) -> (r: Result<Vec<u8>, MsgError>)
        ensures
            final(self).held() == old(self).held(),
            final(self).base() == old(self).base(),
            *final(final(self).inner) == *final(old(self).inner),
            bytes_view(r) == rtf_compressed(old(self).held(), old(self).base()),
    {
        self.read_simple_binary("1009")
    }

    fn rtf(&mut self) -> (r: Result<String, MsgError>)
        ensures
            final(self).held() == old(self).held(),
            final(self).base() == old(self).base(),
            *final(final(self).inner) == *final(old(self).inner),
            text_view(r) == rtf_body(old(self).held(), old(self).base()),
    {
        match self.pr_rtf_compressed() {
            Ok(bytes) => decompress_rtf_text(bytes.as_slice()),
            Err(e) => Err(e),
        }
    }

    /// The body: the HTML body where it can be read, else the rich-text body.
    pub fn body(&mut self) -> (r: Result<String, MsgError>)
        ensures
            final(self).held() == old(self).held(),
            final(self).base() == old(self).base(),
            *final(final(self).inner) == *final(old(self).inner),
            text_view(r) == body(old(self).held(), old(self).base()),
    {
        match self.pr_body_html() {
            Ok(text) => Ok(text),
            Err(_) => self.rtf(),
        }
    }

    /// The date the message was sent, under the offset that the headers
    /// state.
    pub fn sent_date(&mut self) -> (r: Result<Timestamp, MsgError>)
        ensures
            final(self).held() == old(self).held(),
            final(self).base() == old(self).base(),
            *final(final(self).inner) == *final(old(self).inner),
            r == sent_date(old(self).held(), old(self).base()),
    {
        match self.pr_transport_message_headers() {
            Ok(headers) => resolve_date(headers.as_str()),
            Err(e) => Err(e),
        }
    }

    fn sub_storage_paths(&mut self, prefix: &str) -> (r: Result<Vec<String>, MsgError>)
        ensures
            final(self).held() == old(self).held(),
            final(self).base() == old(self).base(),
            *final(final(self).inner) == *final(old(self).inner),
            match r {
                Ok(paths) => crate::container::entries_at(old(self).held(), old(self).base())
                    matches Ok(entries) && texts(paths@) == sub_storages(entries, prefix@),
                Err(e) => crate::container::entries_at(old(self).held(), old(self).base())
                    == Err::<Seq<EntryView>, MsgError>(e),
            },
    {
        let entries = match list_entries(self.inner, self.path) {
            Ok(entries) => entries,
            Err(e) => {
                return Err(e);
            },
        };
        let prefix_chars = chars_of(prefix);
        let mut paths: Vec<String> = Vec::new();
        let mut k: usize = 0;
        let ghost all = entry_views(entries@);
        let ghost wanted = |entry: EntryView| is_sub_storage(entry, prefix@);
        proof {
            reveal(Seq::filter);
            assert(all.take(0) == Seq::<EntryView>::empty());
            assert(texts(paths@) == sub_storages(all.take(0), prefix@));
        }
        while k < entries.len()
            invariant
                k <= entries.len(),
                all == entry_views(entries@),
                prefix_chars@ == prefix@,
                wanted == (|entry: EntryView| is_sub_storage(entry, prefix@)),
                texts(paths@) == sub_storages(all.take(k as int), prefix@),
            decreases entries.len() - k,
        {
            let entry = &entries[k];
            let name = chars_of(entry.name.as_str());
            proof {
                assert(all.take(k + 1) == all.take(k as int).push(all[k as int]));
                all.take(k as int).lemma_filter_push(all[k as int], wanted);
                assert(all[k as int] == entry.view());
            }
            if entry.is_storage && starts_with(name.as_slice(), prefix_chars.as_slice()) {
                let ghost before = paths@;
                paths.push(entry.path.clone());
                assert(texts(paths@) == texts(before).push(entry.path@));
                assert(sub_storages(all.take(k + 1), prefix@) == sub_storages(
                    all.take(k as int),
                    prefix@,
                ).push(entry.path@));
            }
            k += 1;
        }
        assert(all.take(entries.len() as int) == all);
        Ok(paths)
    }

    fn recipients(&mut self) -> (r: Result<Vec<(String, String)>, MsgError>)
        ensures
            final(self).held() == old(self).held(),
            final(self).base() == old(self).base(),
            *final(final(self).inner) == *final(old(self).inner),
            contacts_view(r) == recipients(old(self).held(), old(self).base()),
    {
        let paths = match self.sub_storage_paths("__recip_version1.0_") {
            Ok(paths) => paths,
            Err(e) => {
                return Err(e);
            },
        };
        let ghost held = self.held();
        let ghost all = texts(paths@);
        let mut out: Vec<(String, String)> = Vec::new();
        let mut k: usize = 0;
        assert(all.take(0) == Seq::<Seq<char>>::empty());
        assert(contacts(out@) == Seq::<Contact>::empty());
        while k < paths.len()
            invariant
                k <= paths.len(),
                all == texts(paths@),
                self.held() == held,
                held == old(self).held(),
                self.base() == old(self).base(),
                *final(self.inner) == *final(old(self).inner),
                recipients(held, old(self).base()) == recipients_at(held, all),
                recipients_at(held, all.take(k as int)) == Ok::<Seq<Contact>, MsgError>(
                    contacts(out@),
                ),
            decreases paths.len() - k,
        {
            let path = paths[k].as_str();
            proof {
                assert(all.take(k + 1).drop_last() == all.take(k as int));
                assert(all.take(k + 1).last() == path@);
            }
            let name_path = text_property_path(path, "3001");
            let name = match self.read_text_at(name_path.as_str()) {
                Ok(name) => name,
                Err(e) => {
                    proof {
                        assert(recipient_at(held, path@) == Err::<Contact, MsgError>(e));
                        lemma_recipients_fail(held, all, k + 1, all.len() as int);
                        assert(all.take(all.len() as int) == all);
                    }
                    return Err(e);
                },
            };
            let address_path = text_property_path(path, "39FE");
            let address = match self.read_text_at(address_path.as_str()) {
                Ok(address) => address,
                Err(e) => {
                    proof {
                        assert(recipient_at(held, path@) == Err::<Contact, MsgError>(e));
                        lemma_recipients_fail(held, all, k + 1, all.len() as int);
                        assert(all.take(all.len() as int) == all);
                    }
                    return Err(e);
                },
            };
            let ghost before = out@;
            out.push((name, address));
            proof {
                assert(recipient_at(held, path@) == Ok::<Contact, MsgError>((name@, address@)));
                assert(contacts(out@) == contacts(before).push((name@, address@)));
            }
            k += 1;
        }
        assert(all.take(paths.len() as int) == all);
        Ok(out)
    }

    fn in_role(&mut self, tag: &str) -> (r: Result<Vec<(String, String)>, MsgError>)
        ensures
            final(self).held() == old(self).held(),
            final(self).base() == old(self).base(),
            *final(final(self).inner) == *final(old(self).inner),
            contacts_view(r) == role(old(self).held(), old(self).base(), tag@),
    {
        let list = match self.read_simple_string(tag) {
            Ok(list) => list,
            Err(e) => {
                return Err(e);
            },
        };
        match self.recipients() {
            Ok(all) => Ok(select_members(list.as_str(), &all)),
            Err(e) => Err(e),
        }
    }

    /// The recipients in the role "to".
    pub fn to(&mut self) -> (r: Result<Vec<(String, String)>, MsgError>)
        ensures
            final(self).held() == old(self).held(),
            final(self).base() == old(self).base(),
            *final(final(self).inner) == *final(old(self).inner),
            contacts_view(r) == to(old(self).held(), old(self).base()),
    {
        self.in_role("0E04")
    }

    /// The recipients in the role "cc".
    pub fn cc(&mut self) -> (r: Result<Vec<(String, String)>, MsgError>)
        ensures
            final(self).held() == old(self).held(),
            final(self).base() == old(self).base(),
            *final(final(self).inner) == *final(old(self).inner),
            contacts_view(r) == cc(old(self).held(), old(self).base()),
    {
        self.in_role("0E03")
    }

    /// The recipients in the role "bcc".
    pub fn bcc(&mut self) -> (r: Result<Vec<(String, String)>, MsgError>)
        ensures
            final(self).held() == old(self).held(),
            final(self).base() == old(self).base(),
            *final(final(self).inner) == *final(old(self).inner),
            contacts_view(r) == bcc(old(self).held(), old(self).base()),
    {
        self.in_role("0E02")
    }

    fn attachment(&mut self, path: &str) -> (r: Result<Attachment, MsgError>)
        ensures
            final(self).held() == old(self).held(),
            final(self).base() == old(self).base(),
            *final(final(self).inner) == *final(old(self).inner),
            match r {
                Ok(a) => attachment_at(old(self).held(), path@) == Ok::<AttachmentView, MsgError>(
                    a.view(),
                ),
                Err(e) => attachment_at(old(self).held(), path@) == Err::<
                    AttachmentView,
                    MsgError,
                >(e),
            },
    {
        let long_path = text_property_path(path, "3704");
        let name = match self.read_text_at(long_path.as_str()) {
            Ok(name) => name,
            Err(_) => {
                let short_path = text_property_path(path, "3001");
                match self.read_text_at(short_path.as_str()) {
                    Ok(name) => name,
                    Err(e) => {
                        return Err(e);
                    },
                }
            },
        };
        let data_path = binary_property_path(path, "3701");
        match self.read_bytes_at(data_path.as_str()) {
            Ok(data) => Ok(Attachment { name, data }),
            Err(e) => Err(e),
        }
    }

    /// The attachments, without those that cannot be read in full.
    pub fn attachments(&mut self) -> (r: Result<Vec<Attachment>, MsgError>)
        ensures
            final(self).held() == old(self).held(),
            final(self).base() == old(self).base(),
            *final(final(self).inner) == *final(old(self).inner),
            attachments_view(r) == crate::fields::attachments(old(self).held(), old(self).base()),
    {
        let paths = match self.sub_storage_paths("__attach_version1.0_") {
            Ok(paths) => paths,
            Err(e) => {
                return Err(e);
            },
        };
        let ghost held = self.held();
        let ghost all = texts(paths@);
        let mut out: Vec<Attachment> = Vec::new();
        let mut k: usize = 0;
        assert(all.take(0) == Seq::<Seq<char>>::empty());
        assert(attachment_views(out@) == Seq::<AttachmentView>::empty());
        while k < paths.len()
            invariant
                k <= paths.len(),
                all == texts(paths@),
                self.held() == held,
                self.base() == old(self).base(),
                *final(self.inner) == *final(old(self).inner),
                attachment_views(out@) == attachments_at(held, all.take(k as int)),
            decreases paths.len() - k,
        {
            let path = paths[k].as_str();
            proof {
                assert(all.take(k + 1).drop_last() == all.take(k as int));
                assert(all.take(k + 1).last() == path@);
            }
            match self.attachment(path) {
                Ok(attachment) => {
                    let ghost before = out@;
                    out.push(attachment);
                    assert(attachment_views(out@) == attachment_views(before).push(
                        attachment.view(),
                    ));
                },
                Err(_) => {},
            }
            k += 1;
        }
        assert(all.take(paths.len() as int) == all);
        Ok(out)
    }

    /// The paths of the messages embedded in this one.
    pub fn embedded_messages(&mut self) -> (r: Result<Vec<String>, MsgError>)
        ensures
            final(self).held() == old(self).held(),
            final(self).base() == old(self).base(),
            *final(final(self).inner) == *final(old(self).inner),
            texts_view(r) == embedded_messages(old(self).held(), old(self).base()),
    {
        let paths = match self.sub_storage_paths("__attach_version1.0_") {
            Ok(paths) => paths,
            Err(e) => {
                return Err(e);
            },
        };
        let ghost held = self.held();
        let ghost all = texts(paths@);
        let ghost below = |path: Seq<char>| embedded_property(path);
        let ghost present = |path: Seq<char>| held.storages.dom().contains(path);
        let mut out: Vec<String> = Vec::new();
        let mut k: usize = 0;
        proof {
            reveal(Seq::filter);
            assert(all.take(0).map_values(below) == Seq::<Seq<char>>::empty());
            assert(texts(out@) == embedded_in(held, all.take(0)));
        }
        while k < paths.len()
            invariant
                k <= paths.len(),
                all == texts(paths@),
                self.held() == held,
                self.base() == old(self).base(),
                *final(self.inner) == *final(old(self).inner),
                below == (|path: Seq<char>| embedded_property(path)),
                present == (|path: Seq<char>| held.storages.dom().contains(path)),
                texts(out@) == embedded_in(held, all.take(k as int)),
            decreases paths.len() - k,
        {
            let path = embedded_property_path(paths[k].as_str());
            proof {
                let mapped = all.take(k as int).map_values(below);
                assert(all.take(k + 1).map_values(below) == mapped.push(path@));
                mapped.lemma_filter_push(path@, present);
            }
            if is_storage(self.inner, path.as_str()) {
                let ghost before = out@;
                out.push(path);
                assert(texts(out@) == texts(before).push(path@));
            }
            k += 1;
        }
        assert(all.take(paths.len() as int) == all);
        Ok(out)
    }
}

} // verus!
