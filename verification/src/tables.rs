//! The rows of the message database that an export reads, and the identifiers that stand for
//! rows which mean the same thing.
use std::collections::BTreeSet;
use std::collections::HashMap;

use imessage_database::tables::table::Deduplicate;
use vstd::prelude::*;

verus! {

/// Longest name that is used for a file, in bytes.
pub const MAX_LENGTH: usize = 240;

/// Name of the database's owner.
pub const ME: &'static str = "Me";

/// Name of a contact that the database does not know.
pub const UNKNOWN: &'static str = "Unknown";

/// Name of the place for attachments that belong to no chat.
pub const ORPHANED: &'static str = "orphaned";

/// Name of the directory that holds the attachments of an export.
pub const ATTACHMENTS_DIR: &'static str = "attachments";

/// Seconds from the Unix epoch to the first moment of 2001 in UTC, from which the database counts.
pub const EPOCH_OFFSET: i64 = 978_307_200;

/// A row of the chat table.
#[derive(Debug)]
pub struct Chat {
    /// Identifier of the row
    pub rowid: i32,
    /// Name of the chat that is unique in the database
    pub chat_identifier: String,
    /// Service that carries the chat
    pub service_name: String,
    /// Name that the members have given the chat
    pub display_name: Option<String>,
}

/// What places a message in a chat.
#[derive(Debug)]
pub struct Message {
    /// Chat that the message belongs to
    pub chat_id: Option<i32>,
    /// Chat that the message was deleted from
    pub deleted_from: Option<i32>,
}

impl Chat {
    /// The name that the members have given the chat; an empty one counts as none.
    pub open spec fn named(&self) -> Option<Seq<char>> {
        match self.display_name {
            Some(name) => if name@.len() > 0 {
                Some(name@)
            } else {
                None
            },
            None => None,
        }
    }

    /// The name that the members have given the chat; an empty one counts as none.
    pub fn display_name(&self) -> (name: Option<&str>)
        ensures
            name is Some <==> self.named() is Some,
            name matches Some(text) ==> self.named() == Some(text@),
    {
        match &self.display_name {
            Some(name) => {
                let text: &str = name.as_str();
                if text.is_empty() {
                    None
                } else {
                    Some(text)
                }
            },
            None => None,
        }
    }
}

impl Message {
    /// The chat that a message counts for: its own, or else the one that it was deleted from.
    pub open spec fn home(&self) -> Option<i32> {
        if self.chat_id is Some {
            self.chat_id
        } else {
            self.deleted_from
        }
    }

    /// The chat that a message counts for.
    pub(crate) fn home_chat(&self) -> (id: Option<i32>)
        ensures
            id == self.home(),
    {
        match self.chat_id {
            Some(id) => Some(id),
            None => self.deleted_from,
        }
    }
}

/// A chat has a name exactly where its members have given it one that is not empty, and it is that
/// one.
pub proof fn theorem_named(chat: &Chat)
    ensures
        chat.named() is Some <==> (chat.display_name matches Some(given) && given@.len() > 0),
        chat.named() matches Some(name) ==> chat.display_name->0@ == name,
{
}

/// A message counts for its own chat where it has one, though it was deleted from another, and
/// only otherwise for the one that it was deleted from.
pub proof fn theorem_home(message: &Message)
    ensures
        message.chat_id is Some ==> message.home() == message.chat_id,
        message.chat_id is None ==> message.home() == message.deleted_from,
{
}

/// The sets of members that `chats` lists, by chat.
pub open spec fn member_sets(chats: Map<i32, BTreeSet<i32>>) -> Map<i32, Set<i32>> {
    chats.map_values(|members: BTreeSet<i32>| members@)
}

/// The texts that `contacts` lists, by contact.
pub open spec fn contact_texts(contacts: Map<i32, String>) -> Map<i32, Seq<char>> {
    contacts.map_values(|text: String| text@)
}

/// Whether `ids` gives every key of `data` one identifier for its value: equal values share one,
/// different values have different ones, and the identifiers in use are those from 0 up to the
/// number of different values.
pub open spec fn numbers_values<V>(data: Map<i32, V>, ids: Map<i32, i32>) -> bool {
    &&& ids.dom() == data.dom()
    &&& forall|a: i32, b: i32|
        data.contains_key(a) && data.contains_key(b) ==> (#[trigger] ids[a] == #[trigger] ids[b]
            <==> data[a] == data[b])
    &&& forall|id: i32|
        #[trigger] ids.values().contains(id) <==> 0 <= id < data.values().len()
}

/// There are as many identifiers as there are different values, and they are the numbers from 0
/// up.
pub proof fn theorem_identifier_per_value<V>(data: Map<i32, V>, ids: Map<i32, i32>)
    requires
        numbers_values(data, ids),
        data.values().len() <= i32::MAX,
    ensures
        ids.values() == Set::<i32>::range(0, data.values().len() as i32),
        ids.values().finite(),
        ids.values().len() == data.values().len(),
{
    broadcast use vstd::set_lib::range_set_properties;

    assert(ids.values() =~= Set::<i32>::range(0, data.values().len() as i32));
}

/// There are at most as many different values as there are keys.
pub proof fn theorem_values_bounded<V>(data: Map<i32, V>)
    requires
        data.dom().finite(),
    ensures
        data.values().finite(),
        data.values().len() <= data.len(),
{
    data.lemma_values_len();
}

/// Calls `ChatToHandle::dedupe` of `imessage_database`, which walks the map once and numbers each
/// set of members the first time that it meets it, from 0 up. Which set gets which number depends
/// on the order of the walk and is left open. The counter is an `i32`, hence the bound.
#[verifier::external_body]
pub(crate) fn dedupe_chats(chats: &HashMap<i32, BTreeSet<i32>>) -> (ids: HashMap<i32, i32>)
    requires
        member_sets(chats@).values().len() <= i32::MAX,
    ensures
        numbers_values(member_sets(chats@), ids@),
{
    imessage_database::tables::chat_handle::ChatToHandle::dedupe(chats)
}

/// Calls `Handle::dedupe` of `imessage_database`, which walks the map once and numbers each text
/// the first time that it meets it, from 0 up. Which text gets which number depends on the order
/// of the walk and is left open. The counter is an `i32`, hence the bound.
#[verifier::external_body]
pub(crate) fn dedupe_contacts(contacts: &HashMap<i32, String>) -> (ids: HashMap<i32, i32>)
    requires
        contact_texts(contacts@).values().len() <= i32::MAX,
    ensures
        numbers_values(contact_texts(contacts@), ids@),
{
    imessage_database::tables::handle::Handle::dedupe(contacts)
}

/// Calls `get_offset` of `imessage_database`: the Unix timestamp of the first moment of 2001 in
/// UTC.
#[verifier::external_body]
pub(crate) fn date_offset() -> (seconds: i64)
    ensures
        seconds == EPOCH_OFFSET,
{
    imessage_database::util::dates::get_offset()
}

} // verus!
