//! Property paths: where in a container each field of a message lies.
//!
//! A property is a stream below the storage of a message. Its name is made of
//! a fixed prefix, the four hexadecimal digits of the property's tag and the
//! four digits of its type.

use crate::text::{append_chars, chars_of, string_of};
use vstd::prelude::*;

verus! {

/// The path of `name` below `base`. A name that starts at the root stands for
/// itself; otherwise one separator stands between the two, which a base that
/// is empty or ends in a separator already brings.
pub open spec fn join_path(base: Seq<char>, name: Seq<char>) -> Seq<char> {
    if name.len() > 0 && name[0] == '/' {
        name
    } else if base.len() == 0 || base.last() == '/' {
        base + name
    } else {
        base + seq!['/'] + name
    }
}

/// The name of the stream that holds the property `tag` of type `kind`.
pub open spec fn property_name(tag: Seq<char>, kind: Seq<char>) -> Seq<char> {
    "__substg1.0_"@ + tag + kind
}

/// The path of the text property `tag` below `base`.
pub open spec fn text_property(base: Seq<char>, tag: Seq<char>) -> Seq<char> {
    join_path(base, property_name(tag, "001F"@))
}

/// The path of the binary property `tag` below `base`.
pub open spec fn binary_property(base: Seq<char>, tag: Seq<char>) -> Seq<char> {
    join_path(base, property_name(tag, "0102"@))
}

/// The path below an attachment at which a message embedded in it lies.
pub open spec fn embedded_property(base: Seq<char>) -> Seq<char> {
    join_path(base, property_name("3701"@, "000D"@))
}

/// The path of `name` below `base`.
pub fn join(base: &str, name: &str) -> (path: String)
    ensures
        path@ == join_path(base@, name@),
{
    let base_chars = chars_of(base);
    let name_chars = chars_of(name);
    if name_chars.len() > 0 && name_chars[0] == '/' {
        return string_of(name_chars.as_slice());
    }
    let mut out: Vec<char> = Vec::new();
    append_chars(&mut out, base_chars.as_slice());
    assert(out@ == base@);
    if base_chars.len() > 0 && base_chars[base_chars.len() - 1] != '/' {
        out.push('/');
        assert(out@ == base@ + seq!['/']);
    }
    append_chars(&mut out, name_chars.as_slice());
    string_of(out.as_slice())
}

/// The name of the stream that holds the property `tag` of type `kind`.
pub fn stream_name(tag: &str, kind: &str) -> (name: String)
    ensures
        name@ == property_name(tag@, kind@),
{
    let mut out = chars_of("__substg1.0_");
    let tag_chars = chars_of(tag);
    let kind_chars = chars_of(kind);
    append_chars(&mut out, tag_chars.as_slice());
    append_chars(&mut out, kind_chars.as_slice());
    string_of(out.as_slice())
}

/// The path of the text property `tag` below `base`.
pub fn text_property_path(base: &str, tag: &str) -> (path: String)
    ensures
        path@ == text_property(base@, tag@),
{
    let name = stream_name(tag, "001F");
    join(base, name.as_str())
}

/// The path of the binary property `tag` below `base`.
pub fn binary_property_path(base: &str, tag: &str) -> (path: String)
    ensures
        path@ == binary_property(base@, tag@),
{
    let name = stream_name(tag, "0102");
    join(base, name.as_str())
}

/// The path below an attachment at which a message embedded in it lies.
pub fn embedded_property_path(base: &str) -> (path: String)
    ensures
        path@ == embedded_property(base@),
{
    let name = stream_name("3701", "000D");
    join(base, name.as_str())
}

} // verus!
