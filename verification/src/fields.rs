//! The fields of a message, as functions of what a container holds.
//!
//! Each field is stated once here, over [`Contents`] and the path of the
//! message's storage. The reader's methods compute them; their contracts say
//! that they give exactly these values.

use crate::codec::{decoded_text, decoded_utf8};
use crate::container::{bytes_at, entries_at, Contents, EntryView};
use crate::date::{header_date, Timestamp};
use crate::error::MsgError;
use crate::property::{binary_property, embedded_property, text_property};
use crate::rtf::decompressed_text;
use crate::text::{split, trim};
use vstd::prelude::*;

verus! {

/// A display name and an address.
pub type Contact = (Seq<char>, Seq<char>);

/// The name and the bytes of an attachment.
pub type AttachmentView = (Seq<char>, Seq<u8>);

/// The first result where it is a success, otherwise the second.
pub open spec fn or_else<T>(first: Result<T, MsgError>, second: Result<T, MsgError>) -> Result<
    T,
    MsgError,
> {
    match first {
        Ok(value) => Ok(value),
        Err(_) => second,
    }
}

/// The text that the stream at `path` holds.
pub open spec fn text_at(held: Contents, path: Seq<char>) -> Result<Seq<char>, MsgError> {
    match bytes_at(held, path) {
        Ok(bytes) => decoded_text(bytes),
        Err(e) => Err(e),
    }
}

/// The text property `tag` of the storage at `base`.
pub open spec fn text_field(held: Contents, base: Seq<char>, tag: Seq<char>) -> Result<
    Seq<char>,
    MsgError,
> {
    text_at(held, text_property(base, tag))
}

/// The binary property `tag` of the storage at `base`.
pub open spec fn binary_field(held: Contents, base: Seq<char>, tag: Seq<char>) -> Result<
    Seq<u8>,
    MsgError,
> {
    bytes_at(held, binary_property(base, tag))
}

/// The subject.
pub open spec fn subject(held: Contents, base: Seq<char>) -> Result<Seq<char>, MsgError> {
    text_field(held, base, "0037"@)
}

/// The sender's display name.
pub open spec fn sender_name(held: Contents, base: Seq<char>) -> Result<Seq<char>, MsgError> {
    text_field(held, base, "0C1A"@)
}

/// The sender's address as a plain string.
pub open spec fn sender_email_address(held: Contents, base: Seq<char>) -> Result<
    Seq<char>,
    MsgError,
> {
    text_field(held, base, "0C19"@)
}

/// The SMTP address.
pub open spec fn smtp_address(held: Contents, base: Seq<char>) -> Result<Seq<char>, MsgError> {
    text_field(held, base, "39FE"@)
}

/// The sender's SMTP address.
pub open spec fn smtp_sender_address(held: Contents, base: Seq<char>) -> Result<
    Seq<char>,
    MsgError,
> {
    text_field(held, base, "5D01"@)
}

/// The sender's address: the plain address string, else the SMTP address,
/// else the sender's SMTP address.
pub open spec fn sender_address(held: Contents, base: Seq<char>) -> Result<Seq<char>, MsgError> {
    or_else(
        or_else(sender_email_address(held, base), smtp_address(held, base)),
        smtp_sender_address(held, base),
    )
}

/// The sender: display name and address. The name is read first, and its
/// failure is the failure of the pair.
pub open spec fn sender(held: Contents, base: Seq<char>) -> Result<Contact, MsgError> {
    match sender_name(held, base) {
        Err(e) => Err(e),
        Ok(name) => match sender_address(held, base) {
            Ok(address) => Ok((name, address)),
            Err(e) => Err(e),
        },
    }
}

/// The raw transport headers.
pub open spec fn transport_headers(held: Contents, base: Seq<char>) -> Result<
    Seq<char>,
    MsgError,
> {
    text_field(held, base, "007D"@)
}

/// The HTML body, its bytes read strictly as UTF-8.
pub open spec fn html_body(held: Contents, base: Seq<char>) -> Result<Seq<char>, MsgError> {
    match binary_field(held, base, "1013"@) {
        Ok(bytes) => decoded_utf8(bytes),
        Err(e) => Err(e),
    }
}

/// The compressed rich-text body, as it is stored.
pub open spec fn rtf_compressed(held: Contents, base: Seq<char>) -> Result<Seq<u8>, MsgError> {
    binary_field(held, base, "1009"@)
}

/// The rich-text body, decompressed.
pub open spec fn rtf_body(held: Contents, base: Seq<char>) -> Result<Seq<char>, MsgError> {
    match rtf_compressed(held, base) {
        Ok(bytes) => decompressed_text(bytes),
        Err(e) => Err(e),
    }
}

/// The body: the HTML body where it can be read, else the rich-text body.
pub open spec fn body(held: Contents, base: Seq<char>) -> Result<Seq<char>, MsgError> {
    or_else(html_body(held, base), rtf_body(held, base))
}

/// The date the message was sent, under the offset that the headers state.
pub open spec fn sent_date(held: Contents, base: Seq<char>) -> Result<Timestamp, MsgError> {
    match transport_headers(held, base) {
        Ok(headers) => header_date(headers),
        Err(e) => Err(e),
    }
}

/// The prefix of the names of recipient storages.
pub open spec fn recipient_prefix() -> Seq<char> {
    "__recip_version1.0_"@
}

/// The prefix of the names of attachment storages.
pub open spec fn attachment_prefix() -> Seq<char> {
    "__attach_version1.0_"@
}

/// Whether `entry` is a storage whose name begins with `prefix`.
pub open spec fn is_sub_storage(entry: EntryView, prefix: Seq<char>) -> bool {
    entry.2 && prefix.is_prefix_of(entry.0)
}

/// The paths of those of `entries` that are storages named with `prefix`, in
/// the order of `entries`.
pub open spec fn sub_storages(entries: Seq<EntryView>, prefix: Seq<char>) -> Seq<Seq<char>> {
    entries.filter(|entry: EntryView| is_sub_storage(entry, prefix)).map_values(
        |entry: EntryView| entry.1,
    )
}

/// The recipient that the storage at `path` describes.
pub open spec fn recipient_at(held: Contents, path: Seq<char>) -> Result<Contact, MsgError> {
    match text_field(held, path, "3001"@) {
        Err(e) => Err(e),
        Ok(name) => match text_field(held, path, "39FE"@) {
            Ok(address) => Ok((name, address)),
            Err(e) => Err(e),
        },
    }
}

/// The recipients that the storages at `paths` describe, in that order. Where
/// one of them cannot be read, the first such failure is the outcome.
pub open spec fn recipients_at(held: Contents, paths: Seq<Seq<char>>) -> Result<
    Seq<Contact>,
    MsgError,
>
    decreases paths.len(),
{
    if paths.len() == 0 {
        Ok(Seq::empty())
    } else {
        match recipients_at(held, paths.drop_last()) {
            Err(e) => Err(e),
            Ok(before) => match recipient_at(held, paths.last()) {
                Ok(contact) => Ok(before.push(contact)),
                Err(e) => Err(e),
            },
        }
    }
}

/// All recipients of the message at `base`, whatever their role.
pub open spec fn recipients(held: Contents, base: Seq<char>) -> Result<Seq<Contact>, MsgError> {
    match entries_at(held, base) {
        Err(e) => Err(e),
        Ok(entries) => recipients_at(held, sub_storages(entries, recipient_prefix())),
    }
}

/// The display names that a list names: its pieces between semicolons, each
/// without the white space around it.
pub open spec fn names_of(list: Seq<char>) -> Seq<Seq<char>> {
    split(list, ';').map_values(|piece: Seq<char>| trim(piece))
}

/// Those of `all` whose display name stands in `list`, in the order of `all`.
pub open spec fn members(list: Seq<char>, all: Seq<Contact>) -> Seq<Contact> {
    all.filter(|contact: Contact| names_of(list).contains(contact.0))
}

/// The recipients in the role whose list of display names is the text
/// property `tag`. The list is read first.
pub open spec fn role(held: Contents, base: Seq<char>, tag: Seq<char>) -> Result<
    Seq<Contact>,
    MsgError,
> {
    match text_field(held, base, tag) {
        Err(e) => Err(e),
        Ok(list) => match recipients(held, base) {
            Ok(all) => Ok(members(list, all)),
            Err(e) => Err(e),
        },
    }
}

/// The recipients in the role "to".
pub open spec fn to(held: Contents, base: Seq<char>) -> Result<Seq<Contact>, MsgError> {
    role(held, base, "0E04"@)
}

/// The recipients in the role "cc".
pub open spec fn cc(held: Contents, base: Seq<char>) -> Result<Seq<Contact>, MsgError> {
    role(held, base, "0E03"@)
}

/// The recipients in the role "bcc".
pub open spec fn bcc(held: Contents, base: Seq<char>) -> Result<Seq<Contact>, MsgError> {
    role(held, base, "0E02"@)
}

/// The name of the attachment at `path`: its long file name, else its short
/// one.
pub open spec fn attachment_name(held: Contents, path: Seq<char>) -> Result<Seq<char>, MsgError> {
    or_else(text_field(held, path, "3704"@), text_field(held, path, "3001"@))
}

/// The attachment that the storage at `path` describes: a name and the data.
pub open spec fn attachment_at(held: Contents, path: Seq<char>) -> Result<
    AttachmentView,
    MsgError,
> {
    match attachment_name(held, path) {
        Err(e) => Err(e),
        Ok(name) => match binary_field(held, path, "3701"@) {
            Ok(data) => Ok((name, data)),
            Err(e) => Err(e),
        },
    }
}

/// The attachments that the storages at `paths` describe, in that order,
/// without those that cannot be read in full.
pub open spec fn attachments_at(held: Contents, paths: Seq<Seq<char>>) -> Seq<AttachmentView>
    decreases paths.len(),
{
    if paths.len() == 0 {
        Seq::empty()
    } else {
        let before = attachments_at(held, paths.drop_last());
        match attachment_at(held, paths.last()) {
            Ok(attachment) => before.push(attachment),
            Err(_) => before,
        }
    }
}

/// The attachments of the message at `base`.
pub open spec fn attachments(held: Contents, base: Seq<char>) -> Result<
    Seq<AttachmentView>,
    MsgError,
> {
    match entries_at(held, base) {
        Err(e) => Err(e),
        Ok(entries) => Ok(attachments_at(held, sub_storages(entries, attachment_prefix()))),
    }
}

/// Of the attachment storages at `paths`, the paths of the messages embedded
/// in them: for each, the embedded-message path below it, where the container
/// has a storage there.
pub open spec fn embedded_in(held: Contents, paths: Seq<Seq<char>>) -> Seq<Seq<char>> {
    paths.map_values(|path: Seq<char>| embedded_property(path)).filter(
        |path: Seq<char>| held.storages.dom().contains(path),
    )
}

/// The paths of the messages embedded in the message at `base`.
pub open spec fn embedded_messages(held: Contents, base: Seq<char>) -> Result<
    Seq<Seq<char>>,
    MsgError,
> {
    match entries_at(held, base) {
        Err(e) => Err(e),
        Ok(entries) => Ok(embedded_in(held, sub_storages(entries, attachment_prefix()))),
    }
}

/// The texts of a sequence of strings.
pub open spec fn texts(v: Seq<String>) -> Seq<Seq<char>> {
    Seq::new(v.len(), |i: int| v[i]@)
}

/// A pair of strings as a contact.
pub open spec fn contact_view(pair: (String, String)) -> Contact {
    (pair.0@, pair.1@)
}

/// The contacts of a sequence of pairs of strings.
pub open spec fn contacts(v: Seq<(String, String)>) -> Seq<Contact> {
    Seq::new(v.len(), |i: int| contact_view(v[i]))
}

/// With all three address properties readable, the sender's address is the
/// plain address string. With only the sender's SMTP address readable, it is
/// that one.
pub proof fn lemma_sender_address_order(held: Contents, base: Seq<char>)
    ensures
        sender_email_address(held, base) is Ok ==> sender_address(held, base)
            == sender_email_address(held, base),
        sender_email_address(held, base) is Err && smtp_address(held, base) is Ok
            ==> sender_address(held, base) == smtp_address(held, base),
        sender_email_address(held, base) is Err && smtp_address(held, base) is Err
            ==> sender_address(held, base) == smtp_sender_address(held, base),
{
}

/// Where the HTML body can be read, it is the body, whatever the rich-text
/// body holds.
pub proof fn lemma_body_prefers_html(held: Contents, base: Seq<char>)
    ensures
        html_body(held, base) is Ok ==> body(held, base) == html_body(held, base),
        html_body(held, base) is Err ==> body(held, base) == rtf_body(held, base),
{
}

/// An attachment without a long file name, but with a short one and data, is
/// named by the short one.
pub proof fn lemma_attachment_short_name(held: Contents, path: Seq<char>)
    requires
        text_field(held, path, "3704"@) is Err,
        text_field(held, path, "3001"@) is Ok,
        binary_field(held, path, "3701"@) is Ok,
    ensures
        attachment_at(held, path) == Ok::<AttachmentView, MsgError>(
            (text_field(held, path, "3001"@)->Ok_0, binary_field(held, path, "3701"@)->Ok_0),
        ),
{
}

/// A contact is a member of a list exactly if it is one of the recipients
/// and the list names it.
pub proof fn lemma_members(list: Seq<char>, all: Seq<Contact>, contact: Contact)
    ensures
        members(list, all).contains(contact) <==> all.contains(contact) && names_of(
            list,
        ).contains(contact.0),
    decreases all.len(),
{
    reveal(Seq::filter);
    let named = |c: Contact| names_of(list).contains(c.0);
    if all.len() > 0 {
        lemma_members(list, all.drop_last(), contact);
        let before = all.drop_last().filter(named);
        if all.contains(contact) {
            let i = choose|i: int| 0 <= i < all.len() && all[i] == contact;
            if i < all.len() - 1 {
                assert(all.drop_last()[i] == contact);
            }
        }
        if all.drop_last().contains(contact) {
            let i = choose|i: int| 0 <= i < all.drop_last().len() && all.drop_last()[i] == contact;
            assert(all[i] == contact);
        }
        if named(all.last()) {
            assert(members(list, all) == before.push(all.last()));
            if before.contains(contact) {
                let i = choose|i: int| 0 <= i < before.len() && before[i] == contact;
                assert(before.push(all.last())[i] == contact);
            }
            if all.last() == contact {
                assert(before.push(all.last())[before.len() as int] == contact);
            }
            if members(list, all).contains(contact) {
                let i = choose|i: int|
                    0 <= i < members(list, all).len() && members(list, all)[i] == contact;
                if i < before.len() {
                    assert(before[i] == contact);
                } else {
                    assert(all[all.len() - 1] == contact);
                }
            }
        } else {
            assert(members(list, all) == before);
        }
    }
}

/// A recipient whose display name stands in the list of one role only is a
/// member of that role and of no other.
pub proof fn lemma_only_one_role(
    in_list: Seq<char>,
    other_list: Seq<char>,
    all: Seq<Contact>,
    contact: Contact,
)
    requires
        all.contains(contact),
        names_of(in_list).contains(contact.0),
        !names_of(other_list).contains(contact.0),
    ensures
        members(in_list, all).contains(contact),
        !members(other_list, all).contains(contact),
{
    lemma_members(in_list, all, contact);
    lemma_members(other_list, all, contact);
}

/// A recipient whose display name stands in the "cc" list, and in neither
/// the "to" list nor the "bcc" list, is among the "cc" recipients and among
/// neither of the others.
pub proof fn lemma_listed_in_cc_only(held: Contents, base: Seq<char>, contact: Contact)
    requires
        recipients(held, base) matches Ok(all) && all.contains(contact),
        text_field(held, base, "0E03"@) matches Ok(list) && names_of(list).contains(contact.0),
        text_field(held, base, "0E04"@) matches Ok(list) && !names_of(list).contains(contact.0),
        text_field(held, base, "0E02"@) matches Ok(list) && !names_of(list).contains(contact.0),
    ensures
        cc(held, base) matches Ok(chosen) && chosen.contains(contact),
        to(held, base) matches Ok(chosen) && !chosen.contains(contact),
        bcc(held, base) matches Ok(chosen) && !chosen.contains(contact),
{
    let all = recipients(held, base)->Ok_0;
    lemma_members(text_field(held, base, "0E03"@)->Ok_0, all, contact);
    lemma_members(text_field(held, base, "0E04"@)->Ok_0, all, contact);
    lemma_members(text_field(held, base, "0E02"@)->Ok_0, all, contact);
}

} // verus!
