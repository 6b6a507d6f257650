//! Edge cases, and what holds across several calls.
use std::collections::{BTreeSet, HashMap, HashSet};
use std::path::{Path, PathBuf};

use imessage_exporter::listing::list_names;
use imessage_exporter::options::Options;
use imessage_exporter::order::ids_in_order;
use imessage_exporter::runtime::{count_distinct, Config, Failure, Next, Step};
use imessage_exporter::tables::{
    Chat, Message, ATTACHMENTS_DIR, EPOCH_OFFSET, MAX_LENGTH, ME, ORPHANED, UNKNOWN,
};
use imessage_exporter::text::{clip, count_text, signed_text, text_bytes};

fn options<'a>(export_type: Option<&'a str>) -> Options<'a> {
    Options {
        no_copy: false,
        diagnostic: false,
        export_type,
        export_path: PathBuf::from("out"),
        custom_name: None,
    }
}

fn chat(rowid: i32, display_name: Option<&str>) -> Chat {
    Chat {
        rowid,
        chat_identifier: format!("chat{}", rowid),
        service_name: "iMessage".to_string(),
        display_name: display_name.map(|name| name.to_string()),
    }
}

fn members(ids: &[i32]) -> BTreeSet<i32> {
    ids.iter().copied().collect()
}

/// Three chats, of which the first two have the same members, and four contacts, of which two
/// have the same name.
fn session<'a>(options: Options<'a>) -> Config<'a> {
    let mut chatrooms = HashMap::new();
    chatrooms.insert(1, chat(1, None));
    chatrooms.insert(2, chat(2, Some("")));
    chatrooms.insert(3, chat(3, Some("Family")));
    let mut chatroom_participants = HashMap::new();
    chatroom_participants.insert(1, members(&[20, 10]));
    chatroom_participants.insert(2, members(&[10, 20]));
    chatroom_participants.insert(3, members(&[30]));
    let mut participants = HashMap::new();
    participants.insert(10, "Ann".to_string());
    participants.insert(20, "Bob".to_string());
    participants.insert(30, "Cid".to_string());
    participants.insert(31, "Cid".to_string());
    Config::new(options, chatrooms, chatroom_participants, participants)
}

#[test]
fn constants_are_those_of_the_database() {
    assert_eq!(MAX_LENGTH, imessage_database::tables::table::MAX_LENGTH);
    assert_eq!(ME, imessage_database::tables::table::ME);
    assert_eq!(UNKNOWN, imessage_database::tables::table::UNKNOWN);
    assert_eq!(ORPHANED, imessage_database::tables::table::ORPHANED);
    assert_eq!(ATTACHMENTS_DIR, imessage_database::tables::table::ATTACHMENTS_DIR);
    assert_eq!(EPOCH_OFFSET, imessage_database::util::dates::get_offset());
}

#[test]
fn numbers_are_written_in_decimal() {
    assert_eq!(signed_text(0), "0");
    assert_eq!(signed_text(9), "9");
    assert_eq!(signed_text(10), "10");
    assert_eq!(signed_text(-205), "-205");
    assert_eq!(signed_text(i32::MAX), i32::MAX.to_string());
    assert_eq!(signed_text(i32::MIN), i32::MIN.to_string());
    assert_eq!(count_text(0), "0");
    assert_eq!(count_text(1203), "1203");
    assert_eq!(count_text(usize::MAX), usize::MAX.to_string());
}

#[test]
fn text_is_measured_in_bytes() {
    assert_eq!(text_bytes(""), 0);
    assert_eq!(text_bytes("né"), 3);
    assert_eq!(text_bytes("🤠"), 4);
}

#[test]
fn text_is_clipped_between_characters() {
    assert_eq!(clip("née", 0), "");
    assert_eq!(clip("née", 1), "n");
    assert_eq!(clip("née", 2), "n");
    assert_eq!(clip("née", 3), "né");
    assert_eq!(clip("née", 4), "née");
    assert_eq!(clip("née", usize::MAX), "née");
    assert_eq!(clip("🤠🤠", 3), "");
    assert_eq!(clip("🤠🤠", 7), "🤠");
    assert_eq!(clip("", 0), "");
}

#[test]
fn members_come_in_order() {
    assert_eq!(ids_in_order(&members(&[7, -3, 0, 7, 12])), vec![-3, 0, 7, 12]);
    assert_eq!(ids_in_order(&members(&[])), Vec::<i32>::new());
}

#[test]
fn no_names_make_an_empty_list() {
    assert_eq!(list_names(&vec![]), "");
}

#[test]
fn short_list_is_complete() {
    assert_eq!(list_names(&vec!["A", "B", "C"]), "A, B, C");
    assert_eq!(list_names(&vec!["", "B", "", "C"]), "B, , C");
}

#[test]
fn list_of_the_longest_length_is_complete() {
    let first = "a".repeat(100);
    let second = "b".repeat(138);
    let list = list_names(&vec![first.as_str(), second.as_str()]);
    assert_eq!(list, format!("{}, {}", first, second));
    assert_eq!(list.len(), MAX_LENGTH);
}

#[test]
fn separator_counts_at_the_end_of_the_list() {
    // The names alone have room, but not with the separator between them
    let first = "a".repeat(120);
    let second = "b".repeat(119);
    let list = list_names(&vec![first.as_str(), second.as_str()]);
    assert_eq!(list, format!("{}, and 1 others", first));
    assert!(list.len() <= MAX_LENGTH);

    let first = "a".repeat(100);
    let second = "b".repeat(139);
    let list = list_names(&vec![first.as_str(), second.as_str()]);
    assert_eq!(list, format!("{}, and 1 others", first));

    // One name more, and both have room for as much as is left beside the rest
    let list = list_names(&vec![first.as_str(), second.as_str(), "c"]);
    assert_eq!(list, format!("{}, {}, and 1 others", first, "b".repeat(124)));
    assert_eq!(list.len(), MAX_LENGTH);

    // What stands in front of the last name makes room for the rest
    let first = "a".repeat(238);
    let list = list_names(&vec![first.as_str(), "b"]);
    assert_eq!(list, format!("{}, and 1 others", "a".repeat(226)));
    assert_eq!(list.len(), MAX_LENGTH);
}

#[test]
fn members_never_fill_more_than_a_file_name() {
    let mut app = session(options(None));
    for first in 100..140 {
        for second in 95..145 {
            app.participants.insert(10, "a".repeat(first));
            app.participants.insert(20, "b".repeat(second));
            let list = app.filename_from_participants(&members(&[10, 20]));
            assert!(list.len() <= MAX_LENGTH);
            assert_eq!(list.ends_with('b'), first + second + 2 <= MAX_LENGTH);
        }
    }
}

#[test]
fn rest_of_the_list_is_counted() {
    let long = "l".repeat(239);
    assert_eq!(list_names(&vec!["A", long.as_str(), "B"]), "A, and 2 others");
}

#[test]
fn single_long_name_stands_alone() {
    let name = "n".repeat(MAX_LENGTH);
    assert_eq!(list_names(&vec![name.as_str()]), name);
    assert_eq!(list_names(&vec![name.as_str(), "B"]), name);
    let longer = "n".repeat(MAX_LENGTH + 1);
    assert_eq!(list_names(&vec![longer.as_str()]), name);
}

#[test]
fn list_splits_no_character() {
    // The limit falls into the last character
    let name = format!("{}é", "n".repeat(MAX_LENGTH - 1));
    assert_eq!(list_names(&vec![name.as_str()]), "n".repeat(MAX_LENGTH - 1));

    // The room beside the rest ends inside a character, or behind it
    let name = format!("{}é{}", "n".repeat(225), "n".repeat(10));
    let list = list_names(&vec![name.as_str(), "0123456789"]);
    assert_eq!(list, format!("{}, and 1 others", "n".repeat(225)));
    assert_eq!(list.len(), MAX_LENGTH - 1);
    let name = format!("{}é{}", "n".repeat(224), "n".repeat(11));
    let list = list_names(&vec![name.as_str(), "0123456789"]);
    assert_eq!(list, format!("{}é, and 1 others", "n".repeat(224)));
    assert_eq!(list.len(), MAX_LENGTH);
}

#[test]
fn clipped_name_of_a_chat() {
    let app = session(options(None));
    let name = format!("{}é", "n".repeat(MAX_LENGTH - 1));
    assert_eq!(
        app.name_chat(&chat(3, Some(name.as_str()))),
        format!("{} - 3", "n".repeat(MAX_LENGTH - 1))
    );
    let name = format!("{}é!", "n".repeat(MAX_LENGTH - 2));
    assert_eq!(
        app.name_chat(&chat(-3, Some(name.as_str()))),
        format!("{}é - -3", "n".repeat(MAX_LENGTH - 2))
    );
    let name = format!("a{}", "🤠".repeat(60));
    assert_eq!(name.len(), MAX_LENGTH + 1);
    assert_eq!(
        app.filename(&chat(0, Some(name.as_str())), |name: String| name),
        format!("a{} - 0", "🤠".repeat(59))
    );
}

#[test]
fn empty_name_counts_as_none() {
    let app = session(options(None));
    assert_eq!(chat(2, Some("")).display_name(), None);
    assert_eq!(chat(2, Some("A")).display_name(), Some("A"));
    assert_eq!(app.name_chat(&chat(2, Some(""))), "Ann, Bob");
    assert_eq!(app.name_chat(&chat(9, Some(""))), "chat9");
}

#[test]
fn chat_without_members_is_noticed() {
    let app = session(options(None));
    assert!(app.lacks_members(&chat(9, None)));
    assert!(app.lacks_members(&chat(9, Some(""))));
    assert!(!app.lacks_members(&chat(9, Some("Work"))));
    assert!(!app.lacks_members(&chat(1, None)));
}

#[test]
fn chats_of_the_same_name_differ() {
    let app = session(options(None));
    assert_eq!(app.name_chat(&chat(3, Some("Family"))), "Family - 3");
    assert_eq!(app.name_chat(&chat(33, Some("Family"))), "Family - 33");
}

#[test]
fn file_name_is_sanitized() {
    let app = session(options(None));
    let name = app.filename(&chat(5, Some("a/b")), |name: String| name.replace('/', "_"));
    assert_eq!(name, "a_b - 5");
}

#[test]
fn same_members_share_an_identifier() {
    let app = session(options(None));
    assert_eq!(app.real_chatrooms.len(), 3);
    assert_eq!(app.real_chatrooms[&1], app.real_chatrooms[&2]);
    assert_ne!(app.real_chatrooms[&1], app.real_chatrooms[&3]);
    let ids: HashSet<i32> = app.real_chatrooms.values().copied().collect();
    assert_eq!(ids, HashSet::from([0, 1]));
    assert_eq!(
        app.conversation_attachment_path(Some(1)),
        app.conversation_attachment_path(Some(2))
    );
    assert_ne!(
        app.conversation_attachment_path(Some(1)),
        app.conversation_attachment_path(Some(3))
    );
    assert_ne!(app.conversation_attachment_path(Some(3)), ORPHANED);
}

#[test]
fn same_contacts_share_an_identifier() {
    let app = session(options(None));
    assert_eq!(app.real_participants.len(), 4);
    assert_eq!(app.real_participants[&30], app.real_participants[&31]);
    let ids: HashSet<i32> = app.real_participants.values().copied().collect();
    assert_eq!(ids, HashSet::from([0, 1, 2]));
    assert_eq!(count_distinct(&app.real_participants), 3);
}

#[test]
fn session_holds_what_was_read() {
    let app = session(options(Some("txt")));
    assert_eq!(app.chatrooms.len(), 3);
    assert_eq!(app.chatroom_participants[&1], members(&[10, 20]));
    assert_eq!(app.participants[&31], "Cid");
    assert_eq!(app.options.export_type, Some("txt"));
    assert_eq!(app.offset, 978_307_200);
}

#[test]
fn own_chat_comes_before_the_one_deleted_from() {
    let app = session(options(None));
    let message = Message {
        chat_id: Some(3),
        deleted_from: Some(1),
    };
    let (found, id) = app.conversation(&message).unwrap();
    assert_eq!(found.rowid, 3);
    assert_eq!(*id, app.real_chatrooms[&3]);
}

#[test]
fn chat_without_identifier_is_not_found() {
    let mut app = session(options(None));
    app.real_chatrooms.remove(&3);
    let message = Message {
        chat_id: Some(3),
        deleted_from: None,
    };
    assert!(app.conversation(&message).is_none());
}

#[test]
fn missing_chat_is_noticed() {
    let app = session(options(None));
    let missing = |chat_id, deleted_from| {
        app.missing_chat(&Message {
            chat_id,
            deleted_from,
        })
    };
    assert_eq!(missing(Some(9), None), Some(9));
    assert_eq!(missing(Some(9), Some(1)), Some(9));
    assert_eq!(missing(None, Some(8)), Some(8));
    assert_eq!(missing(Some(3), Some(9)), None);
    assert_eq!(missing(None, Some(3)), None);
    assert_eq!(missing(None, None), None);
}

#[test]
fn duplicates_are_reported() {
    let app = session(options(None));
    assert_eq!(
        app.run_diagnostic(),
        vec!["Duplicated contacts: 1".to_string(), "Duplicated chats: 1".to_string()]
    );
}

#[test]
fn nothing_is_reported_without_duplicates() {
    let mut app = session(options(None));
    app.participants.remove(&31);
    app.chatrooms.remove(&2);
    assert_eq!(app.run_diagnostic(), Vec::<String>::new());
}

#[test]
fn attachments_lie_below_the_export() {
    let app = session(options(Some("html")));
    let path = app.attachment_path();
    assert_eq!(path, Path::new("out").join("attachments"));
    assert_eq!(path.parent(), Some(Path::new("out")));

    let mut elsewhere = options(Some("html"));
    elsewhere.export_path = PathBuf::new();
    assert_eq!(session(elsewhere).attachment_path(), PathBuf::from("attachments"));
}

#[test]
fn diagnostic_comes_before_export() {
    let mut asked = options(Some("txt"));
    asked.diagnostic = true;
    assert_eq!(session(asked).start(), vec![Step::RunDiagnostic, Step::ReportDone]);
}

#[test]
fn export_makes_its_directories_first() {
    assert_eq!(
        session(options(Some("txt"))).start(),
        vec![Step::CreateExportDir, Step::ExportTxt, Step::ReportDone]
    );
    assert_eq!(
        session(options(Some("html"))).start(),
        vec![
            Step::CreateExportDir,
            Step::CreateAttachmentDir,
            Step::ExportHtml,
            Step::ReportDone
        ]
    );
    let mut bare = options(Some("html"));
    bare.no_copy = true;
    assert_eq!(
        session(bare).start(),
        vec![Step::CreateExportDir, Step::ExportHtml, Step::ReportDone]
    );
}

#[test]
fn unknown_export_is_rejected_behind_its_directory() {
    for kind in ["", "pdf", "TXT", "html "] {
        assert_eq!(
            session(options(Some(kind))).start(),
            vec![Step::CreateExportDir, Step::RejectExport]
        );
    }
    let mut asked = options(Some("pdf"));
    asked.diagnostic = true;
    assert_eq!(session(asked).start(), vec![Step::RunDiagnostic, Step::ReportDone]);
}

/// What a session does, and how it ends, when the given step fails.
fn course(app: &Config, failing: Option<Step>) -> (Vec<Step>, Next) {
    let mut performed = vec![];
    let mut failed = false;
    loop {
        match app.next(performed.len(), failed) {
            Next::Perform(step) => {
                performed.push(step);
                failed = failing == Some(step);
            }
            end => return (performed, end),
        }
    }
}

#[test]
fn session_without_failure_does_every_step() {
    for kind in [None, Some("txt"), Some("html")] {
        let app = session(options(kind));
        assert_eq!(course(&app, None), (app.start(), Next::Finished));
    }
}

#[test]
fn nothing_follows_a_failure() {
    let app = session(options(Some("html")));
    assert_eq!(
        course(&app, Some(Step::CreateExportDir)),
        (vec![Step::CreateExportDir], Next::Ended(Failure::Disk))
    );
    assert_eq!(
        course(&app, Some(Step::CreateAttachmentDir)),
        (
            vec![Step::CreateExportDir, Step::CreateAttachmentDir],
            Next::Ended(Failure::Fatal)
        )
    );
    assert_eq!(
        course(&app, Some(Step::ExportHtml)),
        (
            vec![Step::CreateExportDir, Step::CreateAttachmentDir, Step::ExportHtml],
            Next::Ended(Failure::Export)
        )
    );
    let app = session(options(Some("txt")));
    assert_eq!(
        course(&app, Some(Step::ExportTxt)),
        (vec![Step::CreateExportDir, Step::ExportTxt], Next::Ended(Failure::Export))
    );
}

#[test]
fn unknown_export_fails_on_the_disk_first() {
    let app = session(options(Some("pdf")));
    assert_eq!(
        course(&app, Some(Step::CreateExportDir)),
        (vec![Step::CreateExportDir], Next::Ended(Failure::Disk))
    );
    assert_eq!(
        course(&app, Some(Step::RejectExport)),
        (vec![Step::CreateExportDir, Step::RejectExport], Next::Ended(Failure::Fatal))
    );
}

#[test]
fn failure_without_weight_is_passed_over() {
    let mut asked = options(None);
    asked.diagnostic = true;
    let app = session(asked);
    assert_eq!(
        course(&app, Some(Step::RunDiagnostic)),
        (vec![Step::RunDiagnostic, Step::ReportDone], Next::Finished)
    );
    assert_eq!(course(&app, Some(Step::ReportDone)).1, Next::Finished);
}

#[test]
fn failed_steps_end_the_session() {
    assert_eq!(Step::CreateExportDir.failure(), Failure::Disk);
    assert_eq!(Step::CreateAttachmentDir.failure(), Failure::Fatal);
    assert_eq!(Step::RejectExport.failure(), Failure::Fatal);
    assert_eq!(Step::ExportTxt.failure(), Failure::Export);
    assert_eq!(Step::ExportHtml.failure(), Failure::Export);
    assert_eq!(Step::RunDiagnostic.failure(), Failure::Ignored);
    assert_eq!(Step::ReportDone.failure(), Failure::Ignored);
}
