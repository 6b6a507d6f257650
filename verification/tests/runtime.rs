//! The rules of a session, on concrete values.
use std::collections::{BTreeSet, HashMap};
use std::path::PathBuf;

use imessage_exporter::options::Options;
use imessage_exporter::runtime::{Config, Step};
use imessage_exporter::tables::{Chat, Message, MAX_LENGTH};

fn fake_options<'a>() -> Options<'a> {
    Options {
        no_copy: false,
        diagnostic: false,
        export_type: None,
        export_path: PathBuf::new(),
        custom_name: None,
    }
}

fn fake_chat() -> Chat {
    Chat {
        rowid: 0,
        chat_identifier: "Default".to_string(),
        service_name: "".to_string(),
        display_name: None,
    }
}

fn fake_app(options: Options) -> Config {
    Config {
        chatrooms: HashMap::new(),
        real_chatrooms: HashMap::new(),
        chatroom_participants: HashMap::new(),
        participants: HashMap::new(),
        real_participants: HashMap::new(),
        options,
        offset: 0,
    }
}

fn blank() -> Message {
    Message {
        chat_id: None,
        deleted_from: None,
    }
}

/// Leaves a name unchanged.
fn as_is(name: String) -> String {
    name
}

#[test]
fn can_create() {
    let options = fake_options();
    let app = fake_app(options);
    assert_eq!(app.start(), vec![Step::ReportDone]);
}

#[test]
fn can_get_filename_good() {
    let options = fake_options();
    let mut app = fake_app(options);

    // Create participant data
    app.participants.insert(10, "Person 10".to_string());
    app.participants.insert(11, "Person 11".to_string());

    // Add participants
    let mut people = BTreeSet::new();
    people.insert(10);
    people.insert(11);

    // Get filename
    let filename = app.filename_from_participants(&people);
    assert_eq!(filename, "Person 10, Person 11".to_string());
    assert!(filename.len() <= MAX_LENGTH);
}

#[test]
fn can_get_filename_long_multiple() {
    let options = fake_options();
    let mut app = fake_app(options);

    // Create participant data
    app.participants.insert(
        10,
        "Person With An Extremely and Excessively Long Name 10".to_string(),
    );
    app.participants.insert(
        11,
        "Person With An Extremely and Excessively Long Name 11".to_string(),
    );
    app.participants.insert(
        12,
        "Person With An Extremely and Excessively Long Name 12".to_string(),
    );
    app.participants.insert(
        13,
        "Person With An Extremely and Excessively Long Name 13".to_string(),
    );
    app.participants.insert(
        14,
        "Person With An Extremely and Excessively Long Name 14".to_string(),
    );
    app.participants.insert(
        15,
        "Person With An Extremely and Excessively Long Name 15".to_string(),
    );
    app.participants.insert(
        16,
        "Person With An Extremely and Excessively Long Name 16".to_string(),
    );
    app.participants.insert(
        17,
        "Person With An Extremely and Excessively Long Name 17".to_string(),
    );

    // Add participants
    let mut people = BTreeSet::new();
    people.insert(10);
    people.insert(11);
    people.insert(12);
    people.insert(13);
    people.insert(14);
    people.insert(15);
    people.insert(16);
    people.insert(17);

    // Get filename
    let filename = app.filename_from_participants(&people);
    assert_eq!(filename, "Person With An Extremely and Excessively Long Name 10, Person With An Extremely and Excessively Long Name 11, Person With An Extremely and Excessively Long Name 12, Person With An Extremely and Excessively Long Name 13, and 4 others".to_string());
    assert!(filename.len() <= MAX_LENGTH);
}

#[test]
fn can_get_filename_single_long() {
    let options = fake_options();
    let mut app = fake_app(options);

    // Create participant data
    app.participants.insert(10, "He slipped his key into the lock, and we all very quietly entered the cell. The sleeper half turned, and then settled down once more into a deep slumber. Holmes stooped to the water-jug, moistened his sponge, and then rubbed it twice vigorously across and down the prisoner's face.".to_string());

    // Add 1 person
    let mut people = BTreeSet::new();
    people.insert(10);

    // Get filename
    let filename = app.filename_from_participants(&people);
    assert_eq!(filename, "He slipped his key into the lock, and we all very quietly entered the cell. The sleeper half turned, and then settled down once more into a deep slumber. Holmes stooped to the water-jug, moistened his sponge, and then rubbed it twice vigoro".to_string());
    assert!(filename.len() <= MAX_LENGTH);
}

#[test]
fn can_get_filename_chat_display_name_long() {
    let options = fake_options();
    let app = fake_app(options);

    // Create chat
    let mut chat = fake_chat();
    chat.display_name = Some("Life is infinitely stranger than anything which the mind of man could invent. We would not dare to conceive the things which are really mere commonplaces of existence. If we could fly out of that window hand in hand, hover over this great city, gently remove the roofs".to_string());

    // Get filename
    let filename = app.filename(&chat, as_is);
    assert_eq!(filename, "Life is infinitely stranger than anything which the mind of man could invent. We would not dare to conceive the things which are really mere commonplaces of existence. If we could fly out of that window hand in hand, hover over this great c - 0");
}

#[test]
fn can_get_filename_chat_display_name_normal() {
    let options = fake_options();
    let app = fake_app(options);

    // Create chat
    let mut chat = fake_chat();
    chat.display_name = Some("Test Chat Name".to_string());

    // Get filename
    let filename = app.filename(&chat, as_is);
    assert_eq!(filename, "Test Chat Name - 0");
}

#[test]
fn can_get_filename_chat_display_name_short() {
    let options = fake_options();
    let app = fake_app(options);

    // Create chat
    let mut chat = fake_chat();
    chat.display_name = Some("🤠".to_string());

    // Get filename
    let filename = app.filename(&chat, as_is);
    assert_eq!(filename, "🤠 - 0");
}

#[test]
fn can_get_filename_chat_participants() {
    let options = fake_options();
    let mut app = fake_app(options);

    // Create chat
    let chat = fake_chat();

    // Create participant data
    app.participants.insert(10, "Person 10".to_string());
    app.participants.insert(11, "Person 11".to_string());

    // Add participants
    let mut people = BTreeSet::new();
    people.insert(10);
    people.insert(11);
    app.chatroom_participants.insert(chat.rowid, people);

    // Get filename
    let filename = app.filename(&chat, as_is);
    assert_eq!(filename, "Person 10, Person 11");
}

#[test]
fn can_get_filename_chat_no_participants() {
    let options = fake_options();
    let app = fake_app(options);

    // Create chat
    let chat = fake_chat();

    // Get filename
    let filename = app.filename(&chat, as_is);
    assert_eq!(filename, "Default");
}

#[test]
fn can_get_who_them() {
    let options = fake_options();
    let mut app = fake_app(options);

    // Create participant data
    app.participants.insert(10, "Person 10".to_string());

    // Get filename
    let who = app.who(&10, false);
    assert_eq!(who, "Person 10".to_string());
}

#[test]
fn can_get_who_them_missing() {
    let options = fake_options();
    let app = fake_app(options);

    // Get filename
    let who = app.who(&10, false);
    assert_eq!(who, "Unknown".to_string());
}

#[test]
fn can_get_who_me() {
    let options = fake_options();
    let app = fake_app(options);

    // Get filename
    let who = app.who(&0, true);
    assert_eq!(who, "Me".to_string());
}

#[test]
fn can_get_who_me_custom() {
    let mut options = fake_options();
    options.custom_name = Some("Name");
    let app = fake_app(options);

    // Get filename
    let who = app.who(&0, true);
    assert_eq!(who, "Name".to_string());
}

#[test]
fn can_get_chat_valid() {
    let options = fake_options();
    let mut app = fake_app(options);

    // Create chat
    let chat = fake_chat();
    app.chatrooms.insert(chat.rowid, chat);
    app.real_chatrooms.insert(0, 0);

    // Create message
    let mut message = blank();
    message.chat_id = Some(0);

    // Get filename
    let (_, id) = app.conversation(&message).unwrap();
    assert_eq!(id, &0);
}

#[test]
fn can_get_chat_valid_deleted() {
    let options = fake_options();
    let mut app = fake_app(options);

    // Create chat
    let chat = fake_chat();
    app.chatrooms.insert(chat.rowid, chat);
    app.real_chatrooms.insert(0, 0);

    // Create message
    let mut message = blank();
    message.chat_id = None;
    message.deleted_from = Some(0);

    // Get filename
    let (_, id) = app.conversation(&message).unwrap();
    assert_eq!(id, &0);
}

#[test]
fn can_get_chat_invalid() {
    let options = fake_options();
    let mut app = fake_app(options);

    // Create chat
    let chat = fake_chat();
    app.chatrooms.insert(chat.rowid, chat);
    app.real_chatrooms.insert(0, 0);

    // Create message
    let mut message = blank();
    message.chat_id = Some(1);

    // Get filename
    let room = app.conversation(&message);
    assert!(room.is_none());
}

#[test]
fn can_get_chat_none() {
    let options = fake_options();
    let mut app = fake_app(options);

    // Create chat
    let chat = fake_chat();
    app.chatrooms.insert(chat.rowid, chat);
    app.real_chatrooms.insert(0, 0);

    // Create message
    let mut message = blank();
    message.chat_id = None;
    message.deleted_from = None;

    // Get filename
    let room = app.conversation(&message);
    assert!(room.is_none());
}

#[test]
fn can_get_valid_attachment_sub_dir() {
    let options = fake_options();
    let mut app = fake_app(options);

    // Create chatroom ID
    app.real_chatrooms.insert(0, 0);

    // Get subdirectory
    let sub_dir = app.conversation_attachment_path(Some(0));
    assert_eq!(String::from("0"), sub_dir)
}

#[test]
fn can_get_invalid_attachment_sub_dir() {
    let options = fake_options();
    let mut app = fake_app(options);

    // Create chatroom ID
    app.real_chatrooms.insert(0, 0);

    // Get subdirectory
    let sub_dir = app.conversation_attachment_path(Some(1));
    assert_eq!(String::from("orphaned"), sub_dir)
}

#[test]
fn can_get_missing_attachment_sub_dir() {
    let options = fake_options();
    let mut app = fake_app(options);

    // Create chatroom ID
    app.real_chatrooms.insert(0, 0);

    // Get subdirectory
    let sub_dir = app.conversation_attachment_path(None);
    assert_eq!(String::from("orphaned"), sub_dir)
}
