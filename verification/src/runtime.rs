//! The state of a session: what it has read from the database, and what follows from it.
use std::collections::BTreeSet;
use std::collections::HashMap;
use std::collections::HashSet;
use std::path::PathBuf;

use vstd::prelude::*;
use vstd::string::*;

use crate::listing::list_names;
use crate::options::{join_name, Options};
use crate::order::ids_in_order;
use crate::tables::{
    date_offset, dedupe_chats, dedupe_contacts, Chat, Message, ATTACHMENTS_DIR, EPOCH_OFFSET,
    MAX_LENGTH, ME, ORPHANED, UNKNOWN,
};
use crate::text::{clip, count_text, signed_text};

verus! {

/// The state of a session.
pub struct Config<'a> {
    /// Chats by identifier
    pub chatrooms: HashMap<i32, Chat>,
    /// Identifier shared by the chats that have the same members, by chat
    pub real_chatrooms: HashMap<i32, i32>,
    /// Members by chat
    pub chatroom_participants: HashMap<i32, BTreeSet<i32>>,
    /// Name or address of a contact by identifier
    pub participants: HashMap<i32, String>,
    /// Identifier shared by the contacts that have the same name or address, by contact
    pub real_participants: HashMap<i32, i32>,
    /// What the user has asked for
    pub options: Options<'a>,
    /// Seconds from the Unix epoch to the moment from which the database counts
    pub offset: i64,
}

/// Something that a session has to do.
#[derive(Debug, Clone, Copy, PartialEq, Eq, Structural)]
pub enum Step {
    /// Check the database and print what was found
    RunDiagnostic,
    /// Make sure that the directory to export to exists
    CreateExportDir,
    /// Make sure that the directory for attachments exists
    CreateAttachmentDir,
    /// Write the messages as plain text
    ExportTxt,
    /// Write the messages as web pages
    ExportHtml,
    /// Fail, for there is no such kind of export
    RejectExport,
    /// Tell the user that the session has ended
    ReportDone,
}

/// What a failed step means for the session.
#[derive(Debug, Clone, Copy, PartialEq, Eq, Structural)]
pub enum Failure {
    /// The session goes on
    Ignored,
    /// The session ends with an error of the disk
    Disk,
    /// The session ends with the error of the export
    Export,
    /// The program ends
    Fatal,
}

/// How a session goes on.
#[derive(Debug, Clone, Copy, PartialEq, Eq, Structural)]
pub enum Next {
    /// There is this to do
    Perform(Step),
    /// Everything is done
    Finished,
    /// The step that was done last has failed, and that has ended the session
    Ended(Failure),
}

impl Step {
    /// What it means for the session that this step has failed.
    pub open spec fn consequence(self) -> Failure {
        match self {
            Step::CreateExportDir => Failure::Disk,
            Step::CreateAttachmentDir | Step::RejectExport => Failure::Fatal,
            Step::ExportTxt | Step::ExportHtml => Failure::Export,
            Step::RunDiagnostic | Step::ReportDone => Failure::Ignored,
        }
    }

    /// What it means for the session that this step has failed.
    pub fn failure(self) -> (failure: Failure)
        ensures
            failure == self.consequence(),
            failure is Disk <==> self is CreateExportDir,
            failure is Fatal <==> self is CreateAttachmentDir || self is RejectExport,
            failure is Export <==> self is ExportTxt || self is ExportHtml,
            failure is Ignored <==> self is RunDiagnostic || self is ReportDone,
    {
        match self {
            Step::RunDiagnostic => Failure::Ignored,
            Step::CreateExportDir => Failure::Disk,
            Step::CreateAttachmentDir => Failure::Fatal,
            Step::ExportTxt => Failure::Export,
            Step::ExportHtml => Failure::Export,
            Step::RejectExport => Failure::Fatal,
            Step::ReportDone => Failure::Ignored,
        }
    }
}

/// The line that reports `count` duplicates under a heading; there is none where nothing is
/// duplicated.
pub open spec fn report_line(heading: Seq<char>, count: int) -> Seq<Seq<char>> {
    if count > 0 {
        seq![heading + crate::text::decimal(count)]
    } else {
        Seq::empty()
    }
}

impl<'a> Config<'a> {
    /// Whether the shared identifiers are those of the chats and contacts that the session holds:
    /// two chats share one exactly when they have the same members, two contacts exactly when they
    /// have the same name or address.
    pub open spec fn deduplicated(&self) -> bool {
        &&& crate::tables::numbers_values(
            crate::tables::member_sets(self.chatroom_participants@),
            self.real_chatrooms@,
        )
        &&& crate::tables::numbers_values(
            crate::tables::contact_texts(self.participants@),
            self.real_participants@,
        )
        &&& crate::tables::member_sets(self.chatroom_participants@).values().len() <= i32::MAX
        &&& crate::tables::contact_texts(self.participants@).values().len() <= i32::MAX
    }

    /// What a message's sender is called.
    pub open spec fn name_of(&self, handle_id: i32, is_from_me: bool) -> Seq<char> {
        if is_from_me {
            match self.options.custom_name {
                Some(name) => name@,
                None => ME@,
            }
        } else if self.participants@.contains_key(handle_id) {
            self.participants@[handle_id]@
        } else {
            UNKNOWN@
        }
    }

    /// What the members of a chat are called, in the order of their identifiers.
    pub open spec fn member_names(&self, members: Set<i32>) -> Seq<Seq<char>> {
        crate::order::in_order(members).map_values(|id: i32| self.name_of(id, false))
    }

    /// The name of a chat: the one that its members have given it, clipped where it is too long,
    /// followed by the chat's identifier; or else the list of its members; or else the name that
    /// is unique in the database.
    pub open spec fn chat_name(&self, chatroom: &Chat) -> Seq<char> {
        match chatroom.named() {
            Some(name) => crate::text::clipped(name, MAX_LENGTH as int) + " - "@
                + crate::text::decimal(chatroom.rowid as int),
            None => if self.chatroom_participants@.contains_key(chatroom.rowid) {
                crate::listing::listed(
                    self.member_names(self.chatroom_participants@[chatroom.rowid]@),
                )
            } else {
                chatroom.chat_identifier@
            },
        }
    }

    /// The name of the place for the attachments of a chat.
    pub open spec fn attachment_dir(&self, chat_id: Option<i32>) -> Seq<char> {
        match chat_id {
            Some(id) => if self.real_chatrooms@.contains_key(id) {
                crate::text::decimal(self.real_chatrooms@[id] as int)
            } else {
                ORPHANED@
            },
            None => ORPHANED@,
        }
    }

    /// How many contacts are duplicates of others.
    pub open spec fn duplicated_contacts(&self) -> int {
        self.participants@.len() - self.real_participants@.values().len()
    }

    /// How many chats are duplicates of others.
    pub open spec fn duplicated_chats(&self) -> int {
        self.chatrooms@.len() - self.real_chatrooms@.values().len()
    }

    /// The lines that report duplicates in the database: first contacts, then chats.
    pub open spec fn report(&self) -> Seq<Seq<char>> {
        report_line("Duplicated contacts: "@, self.duplicated_contacts()) + report_line(
            "Duplicated chats: "@,
            self.duplicated_chats(),
        )
    }

    /// What the session has to do, in order. A kind of export that there is not is found out only
    /// once the directory exists.
    pub open spec fn steps(&self) -> Seq<Step> {
        if self.options.diagnostic {
            seq![Step::RunDiagnostic, Step::ReportDone]
        } else {
            match self.options.export_type {
                Some(kind) => if kind@ == "txt"@ {
                    seq![Step::CreateExportDir, Step::ExportTxt, Step::ReportDone]
                } else if kind@ != "html"@ {
                    seq![Step::CreateExportDir, Step::RejectExport]
                } else if self.options.no_copy {
                    seq![Step::CreateExportDir, Step::ExportHtml, Step::ReportDone]
                } else {
                    seq![
                        Step::CreateExportDir,
                        Step::CreateAttachmentDir,
                        Step::ExportHtml,
                        Step::ReportDone,
                    ]
                },
                None => seq![Step::ReportDone],
            }
        }
    }

    /// How the session goes on when `done` steps are done and the last of them has failed or not.
    pub open spec fn continued(&self, done: int, failed: bool) -> Next {
        if failed && !(self.steps()[done - 1].consequence() is Ignored) {
            Next::Ended(self.steps()[done - 1].consequence())
        } else if done < self.steps().len() {
            Next::Perform(self.steps()[done])
        } else {
            Next::Finished
        }
    }

    /// What the session still does, and how it ends, when `done` steps are done and the last of
    /// them has failed or not. The step at `i` fails where `fails[i]`.
    pub open spec fn course(&self, fails: Seq<bool>, done: int, failed: bool) -> (Seq<Step>, Next)
        decreases self.steps().len() - done,
    {
        match self.continued(done, failed) {
            Next::Perform(step) => {
                let rest = self.course(fails, done + 1, fails[done]);
                (seq![step] + rest.0, rest.1)
            },
            end => (Seq::empty(), end),
        }
    }

    /// A session on what was read from the database. Chats with the same members get one
    /// identifier, and so do contacts with the same name or address.
    pub fn new(
        options: Options<'a>,
        chatrooms: HashMap<i32, Chat>,
        chatroom_participants: HashMap<i32, BTreeSet<i32>>,
        participants: HashMap<i32, String>,
    ) -> (config: Config<'a>)
        requires
            crate::tables::member_sets(chatroom_participants@).values().len() <= i32::MAX,
            crate::tables::contact_texts(participants@).values().len() <= i32::MAX,
        ensures
            config.options == options,
            config.chatrooms == chatrooms,
            config.chatroom_participants == chatroom_participants,
            config.participants == participants,
            config.deduplicated(),
            config.offset == EPOCH_OFFSET,
    {
        Config {
            real_chatrooms: dedupe_chats(&chatroom_participants),
            real_participants: dedupe_contacts(&participants),
            chatrooms,
            chatroom_participants,
            participants,
            options,
            offset: date_offset(),
        }
    }

    /// The chat of a message, and the identifier that it shares with the chats that have the same
    /// members. A message that was deleted counts for the chat that it was deleted from.
    pub fn conversation(&self, message: &Message) -> (found: Option<(&Chat, &i32)>)
        ensures
            found is Some <==> (message.home() matches Some(id) && self.chatrooms@.contains_key(id)
                && self.real_chatrooms@.contains_key(id)),
            found matches Some(pair) ==> {
                &&& *pair.0 == self.chatrooms@[message.home()->0]
                &&& *pair.1 == self.real_chatrooms@[message.home()->0]
            },
    {
        match message.home_chat() {
            Some(id) => match self.chatrooms.get(&id) {
                Some(chatroom) => match self.real_chatrooms.get(&id) {
                    Some(real_id) => Some((chatroom, real_id)),
                    None => None,
                },
                None => None,
            },
            None => None,
        }
    }

    /// The identifier of the chat that a message counts for, where the session holds no such chat.
    pub fn missing_chat(&self, message: &Message) -> (id: Option<i32>)
        ensures
            id == (if message.home() matches Some(k) && !self.chatrooms@.contains_key(k) {
                message.home()
            } else {
                None
            }),
    {
        match message.home_chat() {
            Some(id) => if self.chatrooms.contains_key(&id) {
                None
            } else {
                Some(id)
            },
            None => None,
        }
    }

    /// The directory for the attachments of this session: the one to export to, with the name of
    /// the directory for attachments joined to it.
    pub fn attachment_path(&self) -> (path: PathBuf)
        ensures
            path == crate::options::joined_path(self.options.export_path, ATTACHMENTS_DIR@),
    {
        join_name(&self.options.export_path, ATTACHMENTS_DIR)
    }

    /// The name of the place for the attachments of a chat.
    pub fn conversation_attachment_path(&self, chat_id: Option<i32>) -> (name: String)
        ensures
            name@ == self.attachment_dir(chat_id),
    {
        if let Some(id) = chat_id {
            if let Some(real_id) = self.real_chatrooms.get(&id) {
                return signed_text(*real_id);
            }
        }
        ORPHANED.to_owned()
    }

    /// What a message's sender is called.
    pub fn who(&self, handle_id: &i32, is_from_me: bool) -> (name: &str)
        ensures
            name@ == self.name_of(*handle_id, is_from_me),
    {
        if is_from_me {
            match self.options.custom_name {
                Some(name) => name,
                None => ME,
            }
        } else {
            match self.participants.get(handle_id) {
                Some(contact) => contact.as_str(),
                None => UNKNOWN,
            }
        }
    }

    /// The list of the members of a chat, shortened where it is too long.
    pub fn filename_from_participants(&self, participants: &BTreeSet<i32>) -> (list: String)
        ensures
            list@ == crate::listing::listed(self.member_names(participants@)),
            crate::text::byte_len(list@) <= MAX_LENGTH,
    {
        let ids: Vec<i32> = ids_in_order(participants);
        let mut names: Vec<&str> = Vec::new();
        let mut i: usize = 0;
        while i < ids.len()
            invariant
                i <= ids.len(),
                names.len() == i,
                forall|j: int| 0 <= j < i ==> #[trigger] names@[j]@ == self.name_of(ids@[j], false),
            decreases ids.len() - i,
        {
            names.push(self.who(&ids[i], false));
            i = i + 1;
        }
        proof {
            assert(crate::listing::texts(names@) =~= self.member_names(participants@));
        }
        list_names(&names)
    }

    /// Whether nothing is known of the members of a chat whose name would list them.
    pub fn lacks_members(&self, chatroom: &Chat) -> (b: bool)
        ensures
            b == (chatroom.named() is None && !self.chatroom_participants@.contains_key(
                chatroom.rowid,
            )),
    {
        chatroom.display_name().is_none() && !self.chatroom_participants.contains_key(
            &chatroom.rowid,
        )
    }

    /// The name of a chat as it stands in the database.
    pub fn name_chat(&self, chatroom: &Chat) -> (name: String)
        ensures
            name@ == self.chat_name(chatroom),
    {
        match chatroom.display_name() {
            Some(name) => {
                let mut text: String = clip(name, MAX_LENGTH).to_owned();
                text.append(" - ");
                text.append(signed_text(chatroom.rowid).as_str());
                text
            },
            None => match self.chatroom_participants.get(&chatroom.rowid) {
                Some(participants) => self.filename_from_participants(participants),
                None => chatroom.chat_identifier.clone(),
            },
        }
    }

    /// The file name for a chat: its name, with `sanitize_filename` applied to it.
    pub fn filename<F: Fn(String) -> String>(&self, chatroom: &Chat, sanitize_filename: F) -> (name:
        String)
        requires
            forall|raw: String|
                raw@ == self.chat_name(chatroom) ==> call_requires(sanitize_filename, (raw,)),
        ensures
            exists|raw: String|
                #![trigger call_ensures(sanitize_filename, (raw,), name)]
                raw@ == self.chat_name(chatroom) && call_ensures(sanitize_filename, (raw,), name),
    {
        let raw: String = self.name_chat(chatroom);
        sanitize_filename(raw)
    }

    /// What the session has to do, in order. A step that fails may end it early: see
    /// [`Config::next`].
    pub fn start(&self) -> (steps: Vec<Step>)
        ensures
            steps@ == self.steps(),
    {
        let mut steps: Vec<Step> = Vec::new();
        if self.options.diagnostic {
            steps.push(Step::RunDiagnostic);
        } else if let Some(kind) = self.options.export_type {
            steps.push(Step::CreateExportDir);
            if kind.to_owned() == "txt".to_owned() {
                steps.push(Step::ExportTxt);
            } else if kind.to_owned() == "html".to_owned() {
                if !self.options.no_copy {
                    steps.push(Step::CreateAttachmentDir);
                }
                steps.push(Step::ExportHtml);
            } else {
                steps.push(Step::RejectExport);
                return steps;
            }
        }
        steps.push(Step::ReportDone);
        proof {
            assert(steps@ =~= self.steps());
        }
        steps
    }

    /// How the session goes on when `done` steps are done and the last of them has failed or not.
    /// Nothing follows a failure that counts.
    pub fn next(&self, done: usize, failed: bool) -> (next: Next)
        requires
            done <= self.steps().len(),
            failed ==> done > 0,
        ensures
            next == self.continued(done as int, failed),
            next matches Next::Ended(why) ==> {
                &&& failed
                &&& why == self.steps()[done - 1].consequence()
                &&& !(why is Ignored)
            },
            next matches Next::Perform(step) ==> {
                &&& failed ==> self.steps()[done - 1].consequence() is Ignored
                &&& done < self.steps().len()
                &&& step == self.steps()[done as int]
            },
            next is Finished ==> {
                &&& failed ==> self.steps()[done - 1].consequence() is Ignored
                &&& done == self.steps().len()
            },
    {
        let steps: Vec<Step> = self.start();
        if failed {
            let failure: Failure = steps[done - 1].failure();
            if failure != Failure::Ignored {
                return Next::Ended(failure);
            }
        }
        if done < steps.len() {
            Next::Perform(steps[done])
        } else {
            Next::Finished
        }
    }

    /// The lines that report duplicates in the database.
    pub fn run_diagnostic(&self) -> (lines: Vec<String>)
        requires
            self.duplicated_contacts() >= 0,
            self.duplicated_chats() >= 0,
        ensures
            lines@.map_values(|line: String| line@) == report_line(
                "Duplicated contacts: "@,
                self.duplicated_contacts(),
            ) + report_line("Duplicated chats: "@, self.duplicated_chats()),
            lines@.map_values(|line: String| line@) == self.report(),
    {
        let mut lines: Vec<String> = Vec::new();
        let contacts: usize = self.participants.len() - count_distinct(&self.real_participants);
        if contacts > 0 {
            lines.push("Duplicated contacts: ".to_owned().concat(count_text(contacts).as_str()));
        }
        let chats: usize = self.chatrooms.len() - count_distinct(&self.real_chatrooms);
        if chats > 0 {
            lines.push("Duplicated chats: ".to_owned().concat(count_text(chats).as_str()));
        }
        proof {
            assert(lines@.map_values(|line: String| line@) =~= report_line(
                "Duplicated contacts: "@,
                self.duplicated_contacts(),
            ) + report_line("Duplicated chats: "@, self.duplicated_chats()));
        }
        lines
    }
}

/// What the owner sent is from the owner, whoever it was sent to, and under the name that was
/// asked for, if any. Anything else is from the contact that the session knows under the
/// identifier, if any.
pub proof fn theorem_sender(config: Config<'_>, handle_id: i32)
    ensures
        config.options.custom_name matches Some(name) ==> config.name_of(handle_id, true) == name@,
        config.options.custom_name is None ==> config.name_of(handle_id, true) == "Me"@,
        config.participants@.contains_key(handle_id) ==> config.name_of(handle_id, false)
            == config.participants@[handle_id]@,
        !config.participants@.contains_key(handle_id) ==> config.name_of(handle_id, false)
            == "Unknown"@,
{
}

/// The name of the owner rests on the options alone, neither on the contacts nor on the identifier
/// that stands in the message; that of anyone else rests on the contact alone, not on the options.
pub proof fn theorem_sender_depends(a: Config<'_>, b: Config<'_>, x: i32, y: i32)
    ensures
        a.options.custom_name == b.options.custom_name ==> a.name_of(x, true) == b.name_of(y, true),
        a.participants@.contains_key(x) && b.participants@.contains_key(y)
            && a.participants@[x]@ == b.participants@[y]@ ==> a.name_of(x, false) == b.name_of(
            y,
            false,
        ),
{
}

/// The members of a chat are called what the contacts of their identifiers are called, from the
/// smallest identifier to the largest.
pub proof fn theorem_member_names(
    config: Config<'_>,
    members: Set<i32>,
    ids: Seq<i32>,
    names: Seq<Seq<char>>,
)
    requires
        members.finite(),
        forall|i: int, j: int| 0 <= i < j < ids.len() ==> ids[i] < ids[j],
        forall|id: i32| #[trigger] members.contains(id) <==> ids.contains(id),
        names.len() == ids.len(),
        forall|i: int|
            0 <= i < ids.len() ==> #[trigger] names[i] == (if config.participants@.contains_key(
                ids[i],
            ) {
                config.participants@[ids[i]]@
            } else {
                "Unknown"@
            }),
    ensures
        config.member_names(members) == names,
{
    crate::order::theorem_order(members, ids);
    assert(config.member_names(members) =~= names);
}

/// A chat without a name of its own is named after its members, however many there are, where the
/// session knows who they are: by the list of what they are called, which is all of their names
/// where those are short enough.
pub proof fn theorem_chat_of_members(
    config: Config<'_>,
    chatroom: &Chat,
    ids: Seq<i32>,
    names: Seq<Seq<char>>,
)
    requires
        chatroom.display_name matches Some(given) ==> given@.len() == 0,
        config.chatroom_participants@.contains_key(chatroom.rowid),
        forall|i: int, j: int| 0 <= i < j < ids.len() ==> ids[i] < ids[j],
        forall|id: i32| #[trigger]
            config.chatroom_participants@[chatroom.rowid]@.contains(id) <==> ids.contains(id),
        names.len() == ids.len(),
        forall|i: int|
            0 <= i < ids.len() ==> #[trigger] names[i] == (if config.participants@.contains_key(
                ids[i],
            ) {
                config.participants@[ids[i]]@
            } else {
                "Unknown"@
            }),
    ensures
        config.chat_name(chatroom) == crate::listing::listed(names),
        crate::text::byte_len(crate::listing::joined(names)) <= MAX_LENGTH ==> config.chat_name(
            chatroom,
        ) == crate::listing::joined(names),
{
    let members = config.chatroom_participants@[chatroom.rowid]@;
    assert(ids.to_set() =~= members);
    theorem_member_names(config, members, ids, names);
    if crate::text::byte_len(crate::listing::joined(names)) <= MAX_LENGTH {
        crate::listing::theorem_listed_in_full(names);
    }
}

/// A chat without a name of its own, and of whose members nothing is known, goes by the name that
/// is unique in the database.
pub proof fn theorem_chat_without_members(config: Config<'_>, chatroom: &Chat)
    requires
        chatroom.display_name matches Some(given) ==> given@.len() == 0,
        !config.chatroom_participants@.contains_key(chatroom.rowid),
    ensures
        config.chat_name(chatroom) == chatroom.chat_identifier@,
{
}

/// The attachments of a chat are put under the identifier that it shares, in decimal; those that
/// belong to no chat, or to one without an identifier, are put together.
pub proof fn theorem_attachment_dir(config: Config<'_>, id: i32)
    ensures
        config.real_chatrooms@.contains_key(id) ==> config.attachment_dir(Some(id))
            == crate::text::decimal(config.real_chatrooms@[id] as int),
        !config.real_chatrooms@.contains_key(id) ==> config.attachment_dir(Some(id))
            == "orphaned"@,
        config.attachment_dir(None) == "orphaned"@,
{
}

/// Two contacts share an identifier exactly when they have the same name or address, and every
/// contact has one.
pub proof fn theorem_same_contacts_share(config: Config<'_>, a: i32, b: i32)
    requires
        config.deduplicated(),
        config.participants@.contains_key(a),
        config.participants@.contains_key(b),
    ensures
        config.real_participants@.contains_key(a),
        config.real_participants@.contains_key(b),
        config.real_participants@[a] == config.real_participants@[b]
            <==> config.participants@[a]@ == config.participants@[b]@,
{
    let texts = crate::tables::contact_texts(config.participants@);
    assert(texts.contains_key(a) && texts.contains_key(b));
    assert(config.real_participants@.dom().contains(a));
    assert(config.real_participants@.dom().contains(b));
}

/// Identifiers are given to the contacts, and to the chats whose members are known, and to nothing
/// else. They are the numbers from 0 up, one for each different name or address, or set of members.
pub proof fn theorem_identifiers(config: Config<'_>)
    requires
        config.deduplicated(),
    ensures
        config.real_participants@.dom() == config.participants@.dom(),
        config.real_chatrooms@.dom() == config.chatroom_participants@.dom(),
        forall|id: i32| #[trigger]
            config.real_participants@.values().contains(id) <==> 0 <= id
                < config.participants@.map_values(|text: String| text@).values().len(),
        forall|id: i32| #[trigger]
            config.real_chatrooms@.values().contains(id) <==> 0 <= id
                < config.chatroom_participants@.map_values(
                |members: BTreeSet<i32>| members@,
            ).values().len(),
{
    let texts = crate::tables::contact_texts(config.participants@);
    let sets = crate::tables::member_sets(config.chatroom_participants@);
    assert(texts.dom() =~= config.participants@.dom());
    assert(sets.dom() =~= config.chatroom_participants@.dom());
    assert(texts =~= config.participants@.map_values(|text: String| text@));
    assert(sets =~= config.chatroom_participants@.map_values(|members: BTreeSet<i32>| members@));
}

/// Where there are more contacts than different identifiers of contacts, the report begins with a
/// line that gives the difference in decimal; where there are more chats than different identifiers
/// of chats, it ends with such a line; and there is no other.
pub proof fn theorem_report(config: Config<'_>)
    ensures
        ({
            let contacts = config.participants@.len() - config.real_participants@.values().len();
            let chats = config.chatrooms@.len() - config.real_chatrooms@.values().len();
            let report = config.report();
            &&& contacts > 0 ==> report[0] == "Duplicated contacts: "@ + crate::text::decimal(
                contacts,
            )
            &&& chats > 0 ==> report.last() == "Duplicated chats: "@ + crate::text::decimal(chats)
            &&& report.len() == (if contacts > 0 {
                1int
            } else {
                0
            }) + (if chats > 0 {
                1int
            } else {
                0
            })
        }),
{
}

/// In a session whose identifiers are in order, the report counts by how many the contacts exceed
/// their different names and addresses, and the chats the different sets of members.
pub proof fn theorem_report_counts(config: Config<'_>)
    requires
        config.deduplicated(),
    ensures
        ({
            let texts = config.participants@.map_values(|text: String| text@).values();
            let sets = config.chatroom_participants@.map_values(
                |members: BTreeSet<i32>| members@,
            ).values();
            let contacts = config.participants@.len() - texts.len();
            let chats = config.chatrooms@.len() - sets.len();
            &&& contacts > 0 ==> config.report().first() == "Duplicated contacts: "@
                + crate::text::decimal(contacts)
            &&& chats > 0 ==> config.report().last() == "Duplicated chats: "@
                + crate::text::decimal(chats)
            &&& contacts <= 0 && chats <= 0 ==> config.report().len() == 0
        }),
{
    let texts = crate::tables::contact_texts(config.participants@);
    let sets = crate::tables::member_sets(config.chatroom_participants@);
    assert(texts =~= config.participants@.map_values(|text: String| text@));
    assert(sets =~= config.chatroom_participants@.map_values(|members: BTreeSet<i32>| members@));
    theorem_duplicates_counted(config);
    theorem_report(config);
}

/// Sessions with different numbers of duplicated contacts report different lines, and so do those
/// with different numbers of duplicated chats.
pub proof fn theorem_reports_differ(a: Config<'_>, b: Config<'_>)
    ensures
        ({
            let x = a.participants@.len() - a.real_participants@.values().len();
            let y = b.participants@.len() - b.real_participants@.values().len();
            x > 0 && y > 0 && x != y ==> a.report()[0] != b.report()[0]
        }),
        ({
            let x = a.chatrooms@.len() - a.real_chatrooms@.values().len();
            let y = b.chatrooms@.len() - b.real_chatrooms@.values().len();
            x > 0 && y > 0 && x != y ==> a.report().last() != b.report().last()
        }),
{
    theorem_report(a);
    theorem_report(b);
    lemma_headed_differ(
        "Duplicated contacts: "@,
        a.participants@.len() - a.real_participants@.values().len(),
        b.participants@.len() - b.real_participants@.values().len(),
    );
    lemma_headed_differ(
        "Duplicated chats: "@,
        a.chatrooms@.len() - a.real_chatrooms@.values().len(),
        b.chatrooms@.len() - b.real_chatrooms@.values().len(),
    );
}

/// Different numbers behind the same heading make different lines.
proof fn lemma_headed_differ(heading: Seq<char>, x: int, y: int)
    ensures
        x != y ==> heading + crate::text::decimal(x) != heading + crate::text::decimal(y),
{
    let a = heading + crate::text::decimal(x);
    let b = heading + crate::text::decimal(y);
    assert(a.skip(heading.len() as int) =~= crate::text::decimal(x));
    assert(b.skip(heading.len() as int) =~= crate::text::decimal(y));
    if a == b {
        crate::text::lemma_decimal_injective(x, y);
    }
}

/// Two chats share an identifier, and a place for their attachments, exactly when they have the
/// same members.
pub proof fn theorem_same_members_share(config: Config<'_>, a: i32, b: i32)
    requires
        config.deduplicated(),
        config.chatroom_participants@.contains_key(a),
        config.chatroom_participants@.contains_key(b),
    ensures
        config.real_chatrooms@.contains_key(a),
        config.real_chatrooms@.contains_key(b),
        config.real_chatrooms@[a] == config.real_chatrooms@[b]
            <==> config.chatroom_participants@[a]@ == config.chatroom_participants@[b]@,
        config.attachment_dir(Some(a)) == config.attachment_dir(Some(b))
            <==> config.chatroom_participants@[a]@ == config.chatroom_participants@[b]@,
{
    let sets = crate::tables::member_sets(config.chatroom_participants@);
    assert(sets.contains_key(a) && sets.contains_key(b));
    assert(config.real_chatrooms@.dom().contains(a) && config.real_chatrooms@.dom().contains(b));
    let x = config.real_chatrooms@[a] as int;
    let y = config.real_chatrooms@[b] as int;
    if crate::text::decimal(x) == crate::text::decimal(y) {
        crate::text::lemma_decimal_injective(x, y);
    }
}

/// The attachments of a chat that has an identifier are never put among those that belong to no
/// chat.
pub proof fn theorem_known_chat_not_orphaned(config: Config<'_>, id: i32)
    requires
        config.real_chatrooms@.contains_key(id),
    ensures
        config.attachment_dir(Some(id)) != ORPHANED@,
{
    reveal_strlit("orphaned");
    let real_id = config.real_chatrooms@[id] as int;
    if real_id >= 0 {
        crate::text::lemma_decimal_nat_digits(real_id as nat);
    }
    assert(crate::text::decimal(real_id)[0] <= '9');
}

/// The report counts what has the same name or address, or the same members, as something else.
/// The count of contacts is never negative; that of chats is not where the members of chats are
/// those of chats that exist.
pub proof fn theorem_duplicates_counted(config: Config<'_>)
    requires
        config.deduplicated(),
    ensures
        config.duplicated_contacts() == config.participants@.len() - crate::tables::contact_texts(
            config.participants@,
        ).values().len(),
        config.duplicated_contacts() >= 0,
        config.duplicated_chats() == config.chatrooms@.len() - crate::tables::member_sets(
            config.chatroom_participants@,
        ).values().len(),
        config.chatroom_participants@.dom().subset_of(config.chatrooms@.dom())
            ==> config.duplicated_chats() >= 0,
{
    let texts = crate::tables::contact_texts(config.participants@);
    let sets = crate::tables::member_sets(config.chatroom_participants@);
    assert(texts.dom() =~= config.participants@.dom());
    assert(sets.dom() =~= config.chatroom_participants@.dom());
    crate::tables::theorem_identifier_per_value(texts, config.real_participants@);
    crate::tables::theorem_identifier_per_value(sets, config.real_chatrooms@);
    crate::tables::theorem_values_bounded(texts);
    crate::tables::theorem_values_bounded(sets);
    if config.chatroom_participants@.dom().subset_of(config.chatrooms@.dom()) {
        vstd::set_lib::lemma_len_subset(
            config.chatroom_participants@.dom(),
            config.chatrooms@.dom(),
        );
    }
}

/// Chats that were given a name never share theirs, though they were given the same: the
/// identifiers at the end differ.
pub proof fn theorem_named_chats_differ(config: Config<'_>, a: &Chat, b: &Chat)
    requires
        a.named() is Some,
        b.named() is Some,
        a.rowid != b.rowid,
    ensures
        config.chat_name(a) != config.chat_name(b),
{
    if config.chat_name(a) == config.chat_name(b) {
        let x = config.chat_name(a);
        let c = crate::text::decimal(a.rowid as int);
        let d = crate::text::decimal(b.rowid as int);
        reveal_strlit(" - ");
        lemma_decimal_has_no_space(a.rowid as int);
        lemma_decimal_has_no_space(b.rowid as int);
        assert(x[x.len() - c.len() - 1] == ' ');
        assert(x[x.len() - d.len() - 1] == ' ');
        assert(x.skip(x.len() - c.len()) =~= c);
        assert(x.skip(x.len() - d.len()) =~= d);
        if c.len() < d.len() {
            assert(d[d.len() - c.len() - 1] == ' ');
        }
        if d.len() < c.len() {
            assert(c[c.len() - d.len() - 1] == ' ');
        }
        crate::text::lemma_decimal_injective(a.rowid as int, b.rowid as int);
    }
}

/// There is no space in a number.
proof fn lemma_decimal_has_no_space(n: int)
    ensures
        forall|i: int|
            0 <= i < crate::text::decimal(n).len() ==> #[trigger] crate::text::decimal(n)[i] != ' ',
{
    if n < 0 {
        crate::text::lemma_decimal_nat_digits((-n) as nat);
    } else {
        crate::text::lemma_decimal_nat_digits(n as nat);
    }
}

/// The name of a chat that was given one begins as that does, keeps as many of its characters as
/// a file name may hold, and ends in the chat's identifier.
pub proof fn theorem_named_chat(config: Config<'_>, chatroom: &Chat, name: Seq<char>)
    requires
        chatroom.named() == Some(name),
    ensures
        ({
            let tail = " - "@ + crate::text::decimal(chatroom.rowid as int);
            let split = config.chat_name(chatroom).len() - tail.len();
            let head = config.chat_name(chatroom).take(split);
            &&& 0 <= split
            &&& head.is_prefix_of(name)
            &&& crate::text::byte_len(head) <= MAX_LENGTH
            &&& crate::text::byte_len(name) <= MAX_LENGTH ==> head == name
            &&& crate::text::byte_len(name) > MAX_LENGTH ==> crate::text::byte_len(
                name.take(split + 1),
            ) > MAX_LENGTH
            &&& config.chat_name(chatroom).skip(split) == tail
        }),
{
    let head = crate::text::clipped(name, MAX_LENGTH as int);
    let tail = " - "@ + crate::text::decimal(chatroom.rowid as int);
    let whole = config.chat_name(chatroom);
    let split = whole.len() - tail.len();
    crate::text::theorem_clipped(name, MAX_LENGTH as int);
    assert(whole.take(split) =~= head);
    assert(whole.skip(split) =~= tail);
}

/// A session either checks the database or exports it, to the kind of file that was asked for,
/// and ends by telling the user, unless there is no such kind. Nothing is written, and no kind is
/// rejected, before the directory to export to exists; there is a directory for attachments only
/// where web pages are written and attachments are copied.
pub proof fn theorem_session(config: Config<'_>)
    ensures
        config.steps().contains(Step::RunDiagnostic) <==> config.options.diagnostic,
        config.steps().contains(Step::ExportTxt) <==> !config.options.diagnostic && (
        config.options.export_type matches Some(kind) && kind@ == "txt"@),
        config.steps().contains(Step::ExportHtml) <==> !config.options.diagnostic && (
        config.options.export_type matches Some(kind) && kind@ == "html"@),
        config.steps().contains(Step::RejectExport) <==> !config.options.diagnostic && (
        config.options.export_type matches Some(kind) && kind@ != "txt"@ && kind@ != "html"@),
        config.steps().contains(Step::CreateAttachmentDir) <==> config.steps().contains(
            Step::ExportHtml,
        ) && !config.options.no_copy,
        config.steps().contains(Step::CreateExportDir) <==> !config.options.diagnostic
            && config.options.export_type is Some,
        config.steps().contains(Step::CreateExportDir) ==> config.steps()[0] is CreateExportDir,
        config.steps().len() > 0,
        config.steps().contains(Step::ReportDone) <==> !config.steps().contains(Step::RejectExport),
        config.steps().last() is ReportDone || config.steps().last() is RejectExport,
{
    reveal_strlit("txt");
    reveal_strlit("html");
    assert("txt"@.len() != "html"@.len());
    let steps = config.steps();
    let last = steps.last();
    assert(steps[0] is RunDiagnostic || steps[0] is CreateExportDir || steps[0] is ReportDone);
    assert(steps.contains(last));
    if config.options.export_type is Some && !config.options.diagnostic {
        assert(steps[1] is ExportTxt || steps[1] is RejectExport || steps[1] is ExportHtml || (
        steps[1] is CreateAttachmentDir && steps[2] is ExportHtml));
    }
}

/// A session does nothing twice, and makes the directory for attachments before it writes web
/// pages.
pub proof fn theorem_steps_once(config: Config<'_>)
    ensures
        config.steps().no_duplicates(),
        forall|i: int, j: int|
            0 <= i < config.steps().len() && 0 <= j < config.steps().len()
                && #[trigger] config.steps()[i] is CreateAttachmentDir
                && #[trigger] config.steps()[j] is ExportHtml ==> i < j,
{
}

/// What a session does rests on whether it is to check the database, on the kind of export, and,
/// where it writes web pages, on whether attachments are copied; on nothing else that was asked for
/// or read.
pub proof fn theorem_steps_depend(a: Config<'_>, b: Config<'_>)
    requires
        a.options.diagnostic == b.options.diagnostic,
        a.options.diagnostic || match (a.options.export_type, b.options.export_type) {
            (Some(x), Some(y)) => x@ == y@ && (x@ == "html"@ ==> a.options.no_copy
                == b.options.no_copy),
            (None, None) => true,
            _ => false,
        },
    ensures
        a.steps() == b.steps(),
{
    reveal_strlit("txt");
    reveal_strlit("html");
    assert("txt"@.len() != "html"@.len());
}

/// The user is told that the session has ended in its last step, and in no other.
proof fn lemma_report_is_last(config: Config<'_>, i: int)
    requires
        0 <= i < config.steps().len(),
        config.steps()[i] is ReportDone,
    ensures
        i == config.steps().len() - 1,
{
}

/// What is left of a session is a stretch of its steps, which ends at the first failure that
/// counts.
proof fn lemma_course(config: Config<'_>, fails: Seq<bool>, done: int, failed: bool)
    requires
        fails.len() == config.steps().len(),
        0 <= done <= config.steps().len(),
        failed ==> done > 0,
        failed ==> config.steps()[done - 1].consequence() is Ignored,
    ensures
        ({
            let (performed, end) = config.course(fails, done, failed);
            let last = done + performed.len() - 1;
            &&& last < config.steps().len()
            &&& performed == config.steps().subrange(done, last + 1)
            &&& !(end is Perform)
            &&& end is Finished ==> last + 1 == config.steps().len()
            &&& end matches Next::Ended(why) ==> {
                &&& done <= last
                &&& fails[last]
                &&& why == config.steps()[last].consequence()
                &&& !(why is Ignored)
            }
            &&& forall|i: int|
                done <= i < last || (i == last && done <= i && end is Finished) ==> (fails[i]
                    ==> #[trigger] config.steps()[i].consequence() is Ignored)
        }),
    decreases config.steps().len() - done,
{
    let steps = config.steps();
    if done < steps.len() {
        if fails[done] && !(steps[done].consequence() is Ignored) {
            assert(config.continued(done + 1, fails[done]) is Ended);
            assert(config.course(fails, done + 1, fails[done]).0 =~= Seq::empty());
            assert(config.course(fails, done, failed).0 =~= steps.subrange(done, done + 1));
        } else {
            lemma_course(config, fails, done + 1, fails[done]);
            let rest = config.course(fails, done + 1, fails[done]).0;
            assert(config.course(fails, done, failed).0 =~= steps.subrange(
                done,
                done + 1 + rest.len(),
            ));
        }
    }
}

/// A session does its steps in order up to the first failure that counts, which decides how it
/// ends; nothing follows it. Without one it does all of them. The user is never told that a
/// session has ended which a failure has cut short, and is told of every other, provided that
/// rejecting a kind of export always counts as failed. Where the directory to export to cannot be
/// made, nothing else is tried, whatever the kind of export.
pub proof fn theorem_course(config: Config<'_>, fails: Seq<bool>)
    requires
        fails.len() == config.steps().len(),
    ensures
        ({
            let (performed, end) = config.course(fails, 0, false);
            let harmless = |i: int| fails[i] ==> config.steps()[i].consequence() is Ignored;
            &&& performed.is_prefix_of(config.steps())
            &&& !(end is Perform)
            &&& end is Finished <==> forall|i: int|
                0 <= i < config.steps().len() ==> #[trigger] harmless(i)
            &&& end is Finished ==> performed == config.steps()
            &&& end matches Next::Ended(why) ==> {
                &&& performed.len() > 0
                &&& why == performed.last().consequence()
                &&& !harmless(performed.len() - 1)
                &&& forall|i: int| 0 <= i < performed.len() - 1 ==> #[trigger] harmless(i)
                &&& !performed.contains(Step::ReportDone)
            }
            &&& (forall|i: int|
                0 <= i < fails.len() && #[trigger] config.steps()[i] is RejectExport ==> fails[i])
                ==> (performed.contains(Step::ReportDone) <==> end is Finished)
            &&& config.steps()[0] is CreateExportDir && fails[0] ==> performed == seq![
                Step::CreateExportDir,
            ] && end == Next::Ended(Failure::Disk)
        }),
{
    let steps = config.steps();
    let (performed, end) = config.course(fails, 0, false);
    let harmless = |i: int| fails[i] ==> steps[i].consequence() is Ignored;
    let last = performed.len() - 1;
    lemma_course(config, fails, 0, false);
    theorem_session(config);
    assert forall|i: int| 0 <= i < last || (i == last && end is Finished && 0 <= i) implies
        #[trigger] harmless(i) by {
        assert(fails[i] ==> steps[i].consequence() is Ignored);
    }
    if end is Ended {
        assert(!harmless(last));
        if performed.contains(Step::ReportDone) {
            let i = performed.index_of(Step::ReportDone);
            lemma_report_is_last(config, i);
        }
    } else {
        assert(performed =~= steps);
        if steps.last() is RejectExport {
            assert(harmless(last));
            assert(steps[last] is RejectExport);
        } else {
            assert(performed[last] is ReportDone);
        }
    }
    if steps[0] is CreateExportDir && fails[0] {
        assert(!harmless(0));
        assert(performed =~= seq![Step::CreateExportDir]);
    }
}

/// How many different identifiers a map gives out.
pub fn count_distinct(ids: &HashMap<i32, i32>) -> (count: usize)
    ensures
        count == ids@.values().len(),
{
    let mut seen: HashSet<i32> = HashSet::new();
    for id in walk: ids.values()
        invariant
            seen@ == walk.seq().take(walk.index()).unref().to_set(),
    {
        proof {
            let before = walk.seq().take(walk.index()).unref();
            let after = walk.seq().take(walk.index() + 1).unref();
            assert(after =~= before.push(*id));
            before.lemma_push_to_set_commute(*id);
        }
        seen.insert(*id);
    }
    proof {
        let walked = vstd::std_specs::iter::IteratorSpec::remaining(&ids.values());
        assert(walked.take(walked.len() as int) =~= walked);
    }
    seen.len()
}

} // verus!
