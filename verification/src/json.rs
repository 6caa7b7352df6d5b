//! An option whose text is a JSON object: which members it has, and how one
//! of them is taken out.
//!
//! Reading and writing JSON is `serde_json`'s work. What is proved here is
//! what becomes of the option for each thing that `serde_json` may hand back.

use crate::comments::texts;
use crate::notes::{join, join_texts};
use crate::scalar::parsed_scalar;
use crate::value::{
    has_key, lemma_position, lemma_with_value, lookup, with_value, without_key, Mapping, Value,
    ValueView,
};
use vstd::prelude::*;

verus! {

/// The members of a JSON object, held in a `serde_json::Map`. The verifier
/// does not look inside: which members there are is known through
/// `member_names` alone.
#[verifier::external_body]
pub struct Members {
    inner: serde_json::Map<String, serde_json::Value>,
}

/// The names of the members that a JSON object holds, in the order in which
/// it hands them out.
pub uninterp spec fn member_names(members: Members) -> Seq<Seq<char>>;

/// The names of the members of the JSON object that `text` reads as, if it
/// reads as one.
pub uninterp spec fn parsed_members(text: Seq<char>) -> Option<Seq<Seq<char>>>;

/// The names without `member`.
pub open spec fn without_name(names: Seq<Seq<char>>, member: Seq<char>) -> Seq<Seq<char>> {
    names.filter(|n: Seq<char>| n != member)
}

/// `serde_json::from_str` on `text`, read as a `serde_json::Value`: the
/// members of the object that the text holds, or nothing where it is no JSON
/// or no object.
#[verifier::external_body]
fn raw_object(text: &str) -> (r: Option<Members>)
    ensures
        match r {
            Some(members) => parsed_members(text@) == Some(member_names(members)),
            None => parsed_members(text@) is None,
        },
{
    match serde_json::from_str::<serde_json::Value>(text) {
        Ok(serde_json::Value::Object(inner)) => Some(Members { inner }),
        Ok(_) => None,
        Err(_) => None,
    }
}

/// `serde_json::Map::remove`: takes the member named `member` out, and says
/// whether there was one. The other members stay in their order.
#[verifier::external_body]
fn raw_take(members: &mut Members, member: &str) -> (r: bool)
    ensures
        r == member_names(*old(members)).contains(member@),
        member_names(*final(members)) == without_name(member_names(*old(members)), member@),
{
    members.inner.remove(member).is_some()
}

/// `serde_json::Map::keys`: the names of the members, in order.
#[verifier::external_body]
fn raw_names(members: &Members) -> (r: Vec<String>)
    ensures
        texts(r@) == member_names(*members),
{
    members.inner.keys().cloned().collect()
}

/// `serde_json::to_string` on the object with these members: its text, or
/// nothing where it cannot be written. Nothing is claimed of the text.
#[verifier::external_body]
fn raw_written(members: Members) -> Option<String> {
    serde_json::to_string(&serde_json::Value::Object(members.inner)).ok()
}

/// The names of the members of the JSON object that the text under `key`
/// reads as; nothing where there is no text under `key` or it is no object.
pub open spec fn members_under(entries: Seq<(ValueView, ValueView)>, key: ValueView) -> Option<
    Seq<Seq<char>>,
> {
    match lookup(entries, key) {
        Some(ValueView::Str(text)) => parsed_members(text),
        _ => None,
    }
}

/// The note on the members that are left: `option: [a, b]`.
pub open spec fn members_note(
    option: Seq<char>,
    names: Option<Seq<Seq<char>>>,
    member: Seq<char>,
) -> Seq<char> {
    option + seq![':', ' ', '['] + join(
        match names {
            Some(names) => without_name(names, member),
            None => Seq::empty(),
        },
        seq![',', ' '],
    ) + seq![']']
}

/// Whether the object under `key` has the member and so is written anew.
pub open spec fn has_member(
    entries: Seq<(ValueView, ValueView)>,
    key: ValueView,
    member: Seq<char>,
) -> bool {
    match members_under(entries, key) {
        Some(names) => names.contains(member),
        None => false,
    }
}

/// The entries after the object under `key` was written anew: with the new
/// text, read as a scalar, in its place; without the option where it could
/// not be written.
pub open spec fn rewritten(
    entries: Seq<(ValueView, ValueView)>,
    key: ValueView,
    written: Option<Seq<char>>,
) -> Seq<(ValueView, ValueView)> {
    match written {
        Some(text) => with_value(entries, key, parsed_scalar(text)),
        None => without_key(entries, key),
    }
}

/// Puts what was written of an object in the place of the option `option`:
/// see `rewritten`.
pub fn put_written(hash: &mut Mapping, option: &str, written: &Option<String>)
    ensures
        final(hash)@ == rewritten(
            old(hash)@,
            parsed_scalar(option@),
            match *written {
                Some(text) => Some(text@),
                None => None,
            },
        ),
{
    let key = Value::parse_scalar(option);
    match written {
        Some(text) => {
            proof {
                lemma_position(hash@, key@, 0);
                if has_key(hash@, key@) {
                    lemma_with_value(hash@, key@, lookup(hash@, key@)->0);
                }
            }
            match hash.get_mut(&key) {
                Some(slot) => {
                    *slot = Value::parse_scalar(text.as_str());
                },
                None => {},
            }
        },
        None => {
            hash.remove(&key);
        },
    }
}

/// What taking a member out has come to.
pub struct Taken {
    /// The note on the members that are left.
    pub note: String,
    /// Whether the object had the member and could not be written without
    /// it, so that the whole option is gone.
    pub lost: bool,
}

/// Takes the member `member` out of the JSON object that the text under
/// `option` holds, and gives the note on the members that are left.
///
/// Where the object has no such member, or the option holds no object,
/// nothing changes. Where it has one, the option becomes what `serde_json`
/// writes of the object without it, as `put_written` says; whether that
/// could be written `serde_json` decides.
pub fn take_member(hash: &mut Mapping, option: &str, member: &str) -> (r: Taken)
    ensures
        r.note@ == members_note(
            option@,
            members_under(old(hash)@, parsed_scalar(option@)),
            member@,
        ),
        !has_member(old(hash)@, parsed_scalar(option@), member@) ==> !r.lost && final(hash)@
            == old(hash)@,
        has_member(old(hash)@, parsed_scalar(option@), member@) ==> exists|
            written: Option<Seq<char>>,
        |
            r.lost == (written is None) && final(hash)@ == #[trigger] rewritten(
                old(hash)@,
                parsed_scalar(option@),
                written,
            ),
{
    let key = Value::parse_scalar(option);
    let found = match hash.get(&key) {
        Some(Value::Str(text)) => raw_object(text.as_str()),
        _ => None,
    };
    let mut note = String::from_str(option);
    note.append(": [");
    let mut lost = false;
    match found {
        Some(members) => {
            let mut members = members;
            let had = raw_take(&mut members, member);
            note.append(join_texts(&raw_names(&members), ", ").as_str());
            if had {
                let written = raw_written(members);
                lost = written.is_none();
                put_written(hash, option, &written);
                assert(hash@ == rewritten(
                    old(hash)@,
                    parsed_scalar(option@),
                    match written {
                        Some(text) => Some(text@),
                        None => None,
                    },
                ));
            }
        },
        None => {
            note.append(join_texts(&Vec::new(), ", ").as_str());
            assert(texts(Seq::<String>::empty()) =~= Seq::<Seq<char>>::empty());
        },
    }
    note.append("]");
    proof {
        reveal_strlit(": [");
        reveal_strlit(", ");
        reveal_strlit("]");
        assert(": ["@ =~= seq![':', ' ', '[']);
        assert(", "@ =~= seq![',', ' ']);
        assert("]"@ =~= seq![']']);
    }
    Taken { note, lost }
}

} // verus!
