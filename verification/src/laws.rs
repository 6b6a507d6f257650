//! What a caller can rely on, stated of what calls are given and what they give back.
use std::collections::BTreeSet;
use std::collections::HashMap;
use std::path::PathBuf;

use vstd::prelude::*;

use crate::listing::list_names;
use crate::options::Options;
use crate::order::ids_in_order;
use crate::runtime::{count_distinct, Config, Failure, Next, Step};
use crate::tables::{Chat, Message, EPOCH_OFFSET, MAX_LENGTH};
use crate::text::{clip, count_text, signed_text, text_bytes};

verus! {

/// Whether `digits` is a natural number in decimal: each digit tells how many times the power of
/// ten for its place goes into the number, leaving out multiples of ten, and there is no digit more
/// than it takes.
pub open spec fn writes(digits: Seq<char>, n: int) -> bool {
    &&& digits.len() > 0
    &&& n < vstd::arithmetic::power::pow(10, digits.len())
    &&& digits.len() > 1 ==> n >= vstd::arithmetic::power::pow(10, (digits.len() - 1) as nat)
    &&& forall|i: int|
        0 <= i < digits.len() ==> #[trigger] digits[digits.len() - 1 - i] as int == '0' as int + (n
            / vstd::arithmetic::power::pow(10, i as nat)) % 10
}

/// A count is given by its digits.
pub proof fn theorem_count_text(n: usize, text: String)
    requires
        call_ensures(count_text, (n,), text),
    ensures
        writes(text@, n as int),
{
    crate::text::theorem_decimal(n as int);
}

/// A signed number is given by its digits, behind a minus sign where it is negative.
pub proof fn theorem_signed_text(n: i32, text: String)
    requires
        call_ensures(signed_text, (n,), text),
    ensures
        n >= 0 ==> writes(text@, n as int),
        n < 0 ==> text@.len() > 0 && text@[0] == '-' && writes(text@.skip(1), -(n as int)),
{
    crate::text::theorem_decimal(n as int);
    if n < 0 {
        crate::text::theorem_decimal(-(n as int));
        assert(text@.skip(1) =~= crate::text::decimal(-(n as int)));
    }
}

/// Different numbers are never written alike.
pub proof fn theorem_numbers_differ(m: i32, n: i32, x: String, y: String)
    requires
        call_ensures(signed_text, (m,), x),
        call_ensures(signed_text, (n,), y),
    ensures
        x@ == y@ <==> m == n,
{
    if x@ == y@ {
        crate::text::lemma_decimal_injective(m as int, n as int);
    }
}

/// Text is measured by its encoding.
pub proof fn theorem_text_bytes(text: &str, n: usize)
    requires
        call_ensures(text_bytes, (text,), n),
    ensures
        n == vstd::utf8::encode_utf8(text@).len(),
{
}

/// Clipping keeps the longest beginning of a text, in whole characters, that takes no more bytes
/// than it may.
pub proof fn theorem_clip(text: &str, limit: usize, head: &str)
    requires
        call_ensures(clip, (text, limit), head),
    ensures
        head@.is_prefix_of(text@),
        vstd::utf8::encode_utf8(head@).len() <= limit,
        head@.len() < text@.len() ==> vstd::utf8::encode_utf8(
            text@.take((head@.len() + 1) as int),
        ).len() > limit,
{
    crate::text::theorem_clipped(text@, limit as int);
}

/// The members of a chat are given from the smallest identifier to the largest, none is left out
/// and none is made up.
pub proof fn theorem_ids_in_order(members: &BTreeSet<i32>, ids: Vec<i32>)
    requires
        call_ensures(ids_in_order, (members,), ids),
    ensures
        forall|i: int, j: int| 0 <= i < j < ids@.len() ==> ids@[i] < ids@[j],
        forall|id: i32| #[trigger] members@.contains(id) <==> ids@.contains(id),
{
    assert(ids@.to_set() =~= members@);
    crate::order::theorem_order(members@, ids@);
}

/// A name that a chat was given counts unless it is empty.
pub proof fn theorem_display_name(chat: &Chat, name: Option<&str>)
    requires
        call_ensures(Chat::display_name, (chat,), name),
    ensures
        name is Some <==> (chat.display_name matches Some(given) && given@.len() > 0),
        name matches Some(text) ==> text@ == chat.display_name->0@,
{
    crate::tables::theorem_named(chat);
}

/// Whether the name at `i` stands in `line` behind a comma and a space, or at the beginning where
/// nothing is in front of it: `ends[i]` is where the first `i` names end.
pub open spec fn stands(line: Seq<char>, names: Seq<Seq<char>>, ends: Seq<int>, i: int) -> bool {
    let start = if ends[i] == 0 {
        0
    } else {
        ends[i] + 2
    };
    &&& 0 <= ends[i] <= start <= ends[i + 1] <= line.len()
    &&& line.subrange(start, ends[i + 1]) == names[i]
    &&& ends[i] > 0 ==> line[ends[i]] == ',' && line[ends[i] + 1] == ' '
}

/// Whether `line` holds `names` one behind the other and nothing else.
pub open spec fn lines_up(line: Seq<char>, names: Seq<Seq<char>>, ends: Seq<int>) -> bool {
    &&& ends.len() == names.len() + 1
    &&& ends[0] == 0
    &&& ends.last() == line.len()
    &&& forall|i: int| 0 <= i < names.len() ==> #[trigger] stands(line, names, ends, i)
}

/// A line holds its names one behind the other.
pub proof fn theorem_lines_up(names: Seq<Seq<char>>)
    ensures
        exists|ends: Seq<int>| lines_up(crate::listing::joined(names), names, ends),
{
    let ends = lemma_lines_up(names);
    assert(lines_up(crate::listing::joined(names), names, ends));
}

/// The ends of the names in their line.
proof fn lemma_lines_up(names: Seq<Seq<char>>) -> (ends: Seq<int>)
    ensures
        lines_up(crate::listing::joined(names), names, ends),
    decreases names.len(),
{
    let line = crate::listing::joined(names);
    if names.len() == 0 {
        crate::listing::theorem_joined(names, Seq::empty());
        assert(names =~= Seq::empty());
        seq![0int]
    } else {
        let front = names.drop_last();
        let before = crate::listing::joined(front);
        let inner = lemma_lines_up(front);
        let ends = inner.push(line.len() as int);
        crate::listing::theorem_joined(front, names.last());
        assert(front.push(names.last()) =~= names);
        assert(before.is_prefix_of(line));
        assert forall|i: int| 0 <= i < names.len() implies #[trigger] stands(
            line,
            names,
            ends,
            i,
        ) by {
            let start = if ends[i] == 0 {
                0
            } else {
                ends[i] + 2
            };
            if i < front.len() {
                assert(stands(before, front, inner, i));
                assert(line.subrange(start, ends[i + 1]) =~= before.subrange(start, ends[i + 1]));
            } else {
                assert(line.subrange(start, ends[i + 1]) =~= names[i]);
            }
        }
        ends
    }
}

/// A list of names is never longer than a file name may be, and holds every name where that is
/// possible.
pub proof fn theorem_list_names(names: &Vec<&str>, list: String)
    requires
        call_ensures(list_names, (names,), list),
    ensures
        vstd::utf8::encode_utf8(list@).len() <= MAX_LENGTH,
        ({
            let texts = names@.map_values(|name: &str| name@);
            let line = crate::listing::joined(texts);
            vstd::utf8::encode_utf8(line).len() <= MAX_LENGTH ==> list@ == line
        }),
{
    let texts = names@.map_values(|name: &str| name@);
    assert(crate::listing::texts(names@) =~= texts);
    if crate::text::byte_len(crate::listing::joined(texts)) <= MAX_LENGTH {
        crate::listing::theorem_listed_in_full(texts);
    }
}

/// Whether `k` is the place of the first name that has no room in a list: it and the line in front
/// of it take as much as a file name may hold, or it is the last one and the whole line takes more.
pub open spec fn first_without_room(names: Seq<Seq<char>>, k: int) -> bool {
    &&& 0 <= k < names.len()
    &&& forall|j: int|
        0 <= j < k ==> vstd::utf8::encode_utf8(#[trigger] names[j]).len()
            + vstd::utf8::encode_utf8(crate::listing::joined(names.take(j))).len() < MAX_LENGTH
    &&& vstd::utf8::encode_utf8(names[k]).len() + vstd::utf8::encode_utf8(
        crate::listing::joined(names.take(k)),
    ).len() >= MAX_LENGTH || (k + 1 == names.len() && vstd::utf8::encode_utf8(
        crate::listing::joined(names),
    ).len() > MAX_LENGTH)
}

/// Whether `list` is what becomes of `names` where the name at `k` is the first without room, and
/// `count` is the number of names from there on in decimal. The line of the names in front of it
/// stands in full before the words that count the rest, or, where that is too long, as many of its
/// characters as leave room for them. Where the line is empty, as many characters of the name
/// itself stand alone as a file name may hold.
pub open spec fn shortens(
    list: Seq<char>,
    names: Seq<Seq<char>>,
    k: int,
    count: Seq<char>,
) -> bool {
    let line = crate::listing::joined(names.take(k));
    let words = ", and "@ + count + " others"@;
    let taken = vstd::utf8::encode_utf8(words).len();
    let split = list.len() - words.len();
    &&& vstd::utf8::encode_utf8(list).len() <= MAX_LENGTH
    &&& if line.len() == 0 {
        &&& list.is_prefix_of(names[k])
        &&& list.len() < names[k].len() ==> vstd::utf8::encode_utf8(
            names[k].take((list.len() + 1) as int),
        ).len() > MAX_LENGTH
    } else if vstd::utf8::encode_utf8(line).len() + taken <= MAX_LENGTH {
        list == line + words
    } else {
        &&& 0 <= split < line.len()
        &&& list == line.take(split) + words
        &&& vstd::utf8::encode_utf8(line.take(split + 1)).len() + taken > MAX_LENGTH
    }
}

/// A list whose names do not all have room is shortened at the first that has none.
pub proof fn theorem_list_shortened(names: &Vec<&str>, list: String, k: int, count: Seq<char>)
    requires
        call_ensures(list_names, (names,), list),
        names@.len() <= usize::MAX,
        first_without_room(names@.map_values(|name: &str| name@), k),
        writes(count, names@.len() - k),
    ensures
        shortens(list@, names@.map_values(|name: &str| name@), k, count),
{
    let texts = names@.map_values(|name: &str| name@);
    assert(crate::listing::texts(names@) =~= texts);
    lemma_shortens(texts, k, count);
}

/// A list is shortened at the first name that has no room.
proof fn lemma_shortens(names: Seq<Seq<char>>, k: int, count: Seq<char>)
    requires
        names.len() <= usize::MAX,
        first_without_room(names, k),
        writes(count, names.len() - k),
    ensures
        shortens(crate::listing::listed(names), names, k, count),
{
    lemma_writes_unique(count, names.len() - k);
    assert forall|j: int| 0 <= j < k implies crate::text::byte_len(#[trigger] names[j])
        + crate::text::byte_len(crate::listing::joined(names.take(j))) < MAX_LENGTH by {
        assert(vstd::utf8::encode_utf8(names[j]).len() + vstd::utf8::encode_utf8(
            crate::listing::joined(names.take(j)),
        ).len() < MAX_LENGTH);
    }
    crate::listing::theorem_list_length(names);
    crate::listing::theorem_shortening(names, k);
}

/// There is one way to write a natural number.
proof fn lemma_writes_unique(digits: Seq<char>, n: int)
    requires
        n >= 0,
        writes(digits, n),
    ensures
        digits == crate::text::decimal(n),
{
    let other = crate::text::decimal(n);
    crate::text::theorem_decimal(n);
    if digits.len() < other.len() {
        vstd::arithmetic::power::lemma_pow_increases(10, digits.len(), (other.len() - 1) as nat);
    }
    if other.len() < digits.len() {
        vstd::arithmetic::power::lemma_pow_increases(10, other.len(), (digits.len() - 1) as nat);
    }
    assert forall|p: int| 0 <= p < digits.len() implies digits[p] == other[p] by {
        let i = digits.len() - 1 - p;
        assert(digits[digits.len() - 1 - i] as int == other[other.len() - 1 - i] as int);
    }
    assert(digits =~= other);
}

/// What the owner sent is from the owner, whoever it was sent to and whatever is known of them, and
/// under the name that was asked for, if any. Anything else is from the contact that the session
/// knows under the identifier, if any.
pub proof fn theorem_who(config: &Config<'_>, handle_id: &i32, is_from_me: bool, name: &str)
    requires
        call_ensures(Config::who, (config, handle_id, is_from_me), name),
    ensures
        is_from_me ==> match config.options.custom_name {
            Some(custom) => name@ == custom@,
            None => name@ == "Me"@,
        },
        !is_from_me && config.participants@.contains_key(*handle_id) ==> name@
            == config.participants@[*handle_id]@,
        !is_from_me && !config.participants@.contains_key(*handle_id) ==> name@ == "Unknown"@,
{
    crate::runtime::theorem_sender(*config, *handle_id);
}

/// The owner is called the same in two sessions that were asked for the same name, whatever else
/// they hold and whichever identifier stands in the message.
pub proof fn theorem_owner_is_one(
    a: &Config<'_>,
    b: &Config<'_>,
    x: &i32,
    y: &i32,
    m: &str,
    n: &str,
)
    requires
        call_ensures(Config::who, (a, x, true), m),
        call_ensures(Config::who, (b, y, true), n),
        a.options.custom_name == b.options.custom_name,
    ensures
        m@ == n@,
{
    crate::runtime::theorem_sender_depends(*a, *b, *x, *y);
}

/// A message is found in the chat that it belongs to, or else in the one that it was deleted from,
/// exactly where the session holds that chat and has an identifier for it. Where the session does
/// not hold the chat, and only there, the chat is missing.
pub proof fn theorem_conversation(
    config: &Config<'_>,
    message: &Message,
    found: Option<(&Chat, &i32)>,
    missing: Option<i32>,
    id: i32,
)
    requires
        call_ensures(Config::conversation, (config, message), found),
        call_ensures(Config::missing_chat, (config, message), missing),
        message.chat_id == Some(id) || (message.chat_id is None && message.deleted_from == Some(
            id,
        )),
    ensures
        found is Some <==> config.chatrooms@.contains_key(id)
            && config.real_chatrooms@.contains_key(id),
        found matches Some(pair) ==> *pair.0 == config.chatrooms@[id] && *pair.1
            == config.real_chatrooms@[id],
        missing == (if config.chatrooms@.contains_key(id) {
            None
        } else {
            Some(id)
        }),
{
    crate::tables::theorem_home(message);
}

/// A message without a chat is found in none, and misses none.
pub proof fn theorem_no_conversation(
    config: &Config<'_>,
    message: &Message,
    found: Option<(&Chat, &i32)>,
    missing: Option<i32>,
)
    requires
        call_ensures(Config::conversation, (config, message), found),
        call_ensures(Config::missing_chat, (config, message), missing),
        message.chat_id is None,
        message.deleted_from is None,
    ensures
        found is None,
        missing is None,
{
    crate::tables::theorem_home(message);
}

/// The attachments of a chat are put under its identifier in decimal; those that belong to no chat,
/// or to one without an identifier, under a name of their own.
pub proof fn theorem_conversation_attachment_path(
    config: &Config<'_>,
    chat_id: Option<i32>,
    name: String,
    number: String,
)
    requires
        call_ensures(Config::conversation_attachment_path, (config, chat_id), name),
        chat_id is Some && config.real_chatrooms@.contains_key(chat_id->0) ==> call_ensures(
            signed_text,
            (config.real_chatrooms@[chat_id->0],),
            number,
        ),
    ensures
        chat_id is Some && config.real_chatrooms@.contains_key(chat_id->0) ==> name@ == number@,
        chat_id is None || !config.real_chatrooms@.contains_key(chat_id->0) ==> name@
            == "orphaned"@,
{
    if let Some(id) = chat_id {
        crate::runtime::theorem_attachment_dir(*config, id);
    } else {
        crate::runtime::theorem_attachment_dir(*config, 0);
    }
}

/// The directory for attachments is the one to export to with one name joined to it.
pub proof fn theorem_attachment_path(config: &Config<'_>, path: PathBuf)
    requires
        call_ensures(Config::attachment_path, (config,), path),
    ensures
        path == crate::options::joined_path(config.options.export_path, "attachments"@),
{
}

/// Whether `names` is what the members with the given identifiers are called: each by the contact
/// of the identifier, and all from the smallest identifier to the largest.
pub open spec fn names_members(
    names: Seq<Seq<char>>,
    ids: Seq<i32>,
    members: Set<i32>,
    contacts: Map<i32, String>,
) -> bool {
    &&& forall|i: int, j: int| 0 <= i < j < ids.len() ==> ids[i] < ids[j]
    &&& forall|id: i32| #[trigger] members.contains(id) <==> ids.contains(id)
    &&& names.len() == ids.len()
    &&& forall|i: int|
        0 <= i < ids.len() ==> #[trigger] names[i] == (if contacts.contains_key(ids[i]) {
            contacts[ids[i]]@
        } else {
            "Unknown"@
        })
}

/// The list of the members of a chat is never longer than a file name may be. It is the line of
/// their names, however many there are, where that is short enough, and is otherwise shortened at
/// the first name that has no room.
pub proof fn theorem_filename_from_participants(
    config: &Config<'_>,
    members: &BTreeSet<i32>,
    list: String,
    ids: Seq<i32>,
    names: Seq<Seq<char>>,
    k: int,
    count: Seq<char>,
)
    requires
        call_ensures(Config::filename_from_participants, (config, members), list),
        names_members(names, ids, members@, config.participants@),
    ensures
        vstd::utf8::encode_utf8(list@).len() <= MAX_LENGTH,
        vstd::utf8::encode_utf8(crate::listing::joined(names)).len() <= MAX_LENGTH ==> list@
            == crate::listing::joined(names),
        names.len() <= usize::MAX && first_without_room(names, k) && writes(
            count,
            names.len() - k,
        ) ==> shortens(list@, names, k, count),
{
    assert(ids.to_set() =~= members@);
    crate::runtime::theorem_member_names(*config, members@, ids, names);
    if crate::text::byte_len(crate::listing::joined(names)) <= MAX_LENGTH {
        crate::listing::theorem_listed_in_full(names);
    }
    if names.len() <= usize::MAX && first_without_room(names, k) && writes(count, names.len() - k) {
        lemma_shortens(names, k, count);
    }
}

/// A chat that was given a name goes by it, as much of it as a file name may hold in whole
/// characters, followed by the chat's identifier.
pub proof fn theorem_name_of_named_chat(
    config: &Config<'_>,
    chatroom: &Chat,
    name: String,
    given: Seq<char>,
    number: String,
)
    requires
        call_ensures(Config::name_chat, (config, chatroom), name),
        call_ensures(signed_text, (chatroom.rowid,), number),
        chatroom.display_name matches Some(text) && text@ == given,
        given.len() > 0,
    ensures
        ({
            let tail = seq![' ', '-', ' '] + number@;
            let split = name@.len() - tail.len();
            &&& 0 <= split <= given.len()
            &&& name@ == given.take(split) + tail
            &&& vstd::utf8::encode_utf8(given.take(split)).len() <= MAX_LENGTH
            &&& split < given.len() ==> vstd::utf8::encode_utf8(given.take(split + 1)).len()
                > MAX_LENGTH
        }),
{
    reveal_strlit(" - ");
    assert(" - "@ =~= seq![' ', '-', ' ']);
    let tail = seq![' ', '-', ' '] + number@;
    let split = name@.len() - tail.len();
    crate::tables::theorem_named(chatroom);
    crate::runtime::theorem_named_chat(*config, chatroom, given);
    assert(name@.take(split) =~= given.take(split));
    assert(name@ =~= name@.take(split) + name@.skip(split));
    assert(given.take(given.len() as int) =~= given);
}

/// A chat that was given no name goes by the list of its members where the session knows them, of
/// whatever number they are, and only otherwise by the name that is unique in the database. That
/// the members are not known is noticed exactly then.
pub proof fn theorem_name_of_unnamed_chat(
    config: &Config<'_>,
    chatroom: &Chat,
    name: String,
    members: &BTreeSet<i32>,
    list: String,
    lacking: bool,
)
    requires
        call_ensures(Config::name_chat, (config, chatroom), name),
        call_ensures(Config::lacks_members, (config, chatroom), lacking),
        config.chatroom_participants@.contains_key(chatroom.rowid) ==> *members
            == config.chatroom_participants@[chatroom.rowid] && call_ensures(
            Config::filename_from_participants,
            (config, members),
            list,
        ),
        chatroom.display_name matches Some(text) ==> text@.len() == 0,
    ensures
        lacking <==> !config.chatroom_participants@.contains_key(chatroom.rowid),
        !lacking ==> name@ == list@,
        lacking ==> name@ == chatroom.chat_identifier@,
{
    crate::tables::theorem_named(chatroom);
    if !config.chatroom_participants@.contains_key(chatroom.rowid) {
        crate::runtime::theorem_chat_without_members(*config, chatroom);
    }
}

/// The file name of a chat is what the sanitizer makes of the chat's name, and nothing else is done
/// to either.
pub proof fn theorem_filename<F: Fn(String) -> String>(
    config: &Config<'_>,
    chatroom: &Chat,
    sanitize_filename: F,
    raw: String,
    name: String,
)
    requires
        call_ensures(Config::name_chat, (config, chatroom), raw),
        call_ensures(Config::filename::<F>, (config, chatroom, sanitize_filename), name),
    ensures
        exists|given: String|
            #![trigger call_ensures(sanitize_filename, (given,), name)]
            given@ == raw@ && call_ensures(sanitize_filename, (given,), name),
{
}

/// A session holds what it was given. Every contact, and every chat whose members are known, has an
/// identifier; two of them share one exactly when they have the same name or address, or the same
/// members.
pub proof fn theorem_new(
    options: Options<'_>,
    chatrooms: HashMap<i32, Chat>,
    chatroom_participants: HashMap<i32, BTreeSet<i32>>,
    participants: HashMap<i32, String>,
    config: Config<'_>,
)
    requires
        call_ensures(
            Config::new,
            (options, chatrooms, chatroom_participants, participants),
            config,
        ),
    ensures
        config.options == options,
        config.chatrooms == chatrooms,
        config.chatroom_participants == chatroom_participants,
        config.participants == participants,
        config.offset == EPOCH_OFFSET,
        config.real_chatrooms@.dom() == chatroom_participants@.dom(),
        forall|a: i32, b: i32|
            chatroom_participants@.contains_key(a) && chatroom_participants@.contains_key(b) ==> (
            #[trigger] config.real_chatrooms@[a] == #[trigger] config.real_chatrooms@[b]
                <==> chatroom_participants@[a]@ == chatroom_participants@[b]@),
        config.real_participants@.dom() == participants@.dom(),
        forall|a: i32, b: i32|
            participants@.contains_key(a) && participants@.contains_key(b) ==> (
            #[trigger] config.real_participants@[a] == #[trigger] config.real_participants@[b]
                <==> participants@[a]@ == participants@[b]@),
{
    crate::runtime::theorem_identifiers(config);
    assert forall|a: i32, b: i32|
        chatroom_participants@.contains_key(a) && chatroom_participants@.contains_key(b) implies (
    #[trigger] config.real_chatrooms@[a] == #[trigger] config.real_chatrooms@[b]
        <==> chatroom_participants@[a]@ == chatroom_participants@[b]@) by {
        crate::runtime::theorem_same_members_share(config, a, b);
    }
    assert forall|a: i32, b: i32|
        participants@.contains_key(a) && participants@.contains_key(b) implies (
    #[trigger] config.real_participants@[a] == #[trigger] config.real_participants@[b]
        <==> participants@[a]@ == participants@[b]@) by {
        crate::runtime::theorem_same_contacts_share(config, a, b);
    }
}

/// The chats of a new session put their attachments together exactly when they have the same
/// members, and never among those that belong to no chat.
pub proof fn theorem_attachments_kept_apart(
    options: Options<'_>,
    chatrooms: HashMap<i32, Chat>,
    chatroom_participants: HashMap<i32, BTreeSet<i32>>,
    participants: HashMap<i32, String>,
    config: Config<'_>,
    a: i32,
    b: i32,
    x: String,
    y: String,
)
    requires
        call_ensures(
            Config::new,
            (options, chatrooms, chatroom_participants, participants),
            config,
        ),
        chatroom_participants@.contains_key(a),
        chatroom_participants@.contains_key(b),
        call_ensures(Config::conversation_attachment_path, (&config, Some(a)), x),
        call_ensures(Config::conversation_attachment_path, (&config, Some(b)), y),
    ensures
        x@ == y@ <==> chatroom_participants@[a]@ == chatroom_participants@[b]@,
        x@ != "orphaned"@,
{
    crate::runtime::theorem_same_members_share(config, a, b);
    crate::runtime::theorem_known_chat_not_orphaned(config, a);
}

/// Identifiers are counted without repetition.
pub proof fn theorem_count_distinct(ids: &HashMap<i32, i32>, count: usize)
    requires
        call_ensures(count_distinct, (ids,), count),
    ensures
        count == ids@.values().len(),
{
}

/// Where there are more contacts than different identifiers of contacts, the report begins with a
/// line that gives the difference; where there are more chats than different identifiers of chats,
/// it ends with such a line; and there is no other.
pub proof fn theorem_run_diagnostic(
    config: &Config<'_>,
    lines: Vec<String>,
    contacts: Seq<char>,
    chats: Seq<char>,
)
    requires
        call_ensures(Config::run_diagnostic, (config,), lines),
        config.participants@.len() > config.real_participants@.values().len() ==> writes(
            contacts,
            config.participants@.len() - config.real_participants@.values().len(),
        ),
        config.chatrooms@.len() > config.real_chatrooms@.values().len() ==> writes(
            chats,
            config.chatrooms@.len() - config.real_chatrooms@.values().len(),
        ),
    ensures
        config.participants@.len() > config.real_participants@.values().len() ==> lines@.len() > 0
            && lines@[0]@ == "Duplicated contacts: "@ + contacts,
        config.chatrooms@.len() > config.real_chatrooms@.values().len() ==> lines@.len() > 0
            && lines@.last()@ == "Duplicated chats: "@ + chats,
        lines@.len() == (if config.participants@.len()
            > config.real_participants@.values().len() {
            1int
        } else {
            0
        }) + (if config.chatrooms@.len() > config.real_chatrooms@.values().len() {
            1int
        } else {
            0
        }),
{
    let x = config.participants@.len() - config.real_participants@.values().len();
    let y = config.chatrooms@.len() - config.real_chatrooms@.values().len();
    let texts = lines@.map_values(|line: String| line@);
    crate::runtime::theorem_report(*config);
    assert(texts == config.report());
    assert(texts.len() == lines@.len());
    if x > 0 {
        lemma_writes_unique(contacts, x);
        assert(texts[0] == lines@[0]@);
    }
    if y > 0 {
        lemma_writes_unique(chats, y);
        assert(texts.last() == lines@.last()@);
    }
}

/// A session does nothing twice. It checks the database, or else exports it to the kind of file
/// that was asked for, or else rejects a kind that there is not; the directory to export to comes
/// first, and the one for attachments before the web pages that go with it. Unless a kind was
/// rejected, the user is told last.
pub proof fn theorem_start(config: &Config<'_>, steps: Vec<Step>)
    requires
        call_ensures(Config::start, (config,), steps),
    ensures
        steps@.no_duplicates(),
        steps@.contains(Step::RunDiagnostic) <==> config.options.diagnostic,
        steps@.contains(Step::CreateExportDir) <==> !config.options.diagnostic
            && config.options.export_type is Some,
        steps@.contains(Step::ExportTxt) <==> !config.options.diagnostic && (
        config.options.export_type matches Some(kind) && kind@ == "txt"@),
        steps@.contains(Step::ExportHtml) <==> !config.options.diagnostic && (
        config.options.export_type matches Some(kind) && kind@ == "html"@),
        steps@.contains(Step::CreateAttachmentDir) <==> !config.options.diagnostic && (
        config.options.export_type matches Some(kind) && kind@ == "html"@)
            && !config.options.no_copy,
        steps@.contains(Step::RejectExport) <==> !config.options.diagnostic && (
        config.options.export_type matches Some(kind) && kind@ != "txt"@ && kind@ != "html"@),
        steps@.contains(Step::ReportDone) <==> !steps@.contains(Step::RejectExport),
        steps@.len() > 0,
        steps@.contains(Step::CreateExportDir) ==> steps@[0] is CreateExportDir,
        steps@.contains(Step::ReportDone) ==> steps@.last() is ReportDone,
        steps@.contains(Step::RejectExport) ==> steps@.last() is RejectExport,
        forall|i: int, j: int|
            0 <= i < steps@.len() && 0 <= j < steps@.len() && #[trigger] steps@[i]
                is CreateAttachmentDir && #[trigger] steps@[j] is ExportHtml ==> i < j,
{
    crate::runtime::theorem_session(*config);
    crate::runtime::theorem_steps_once(*config);
    assert(steps@.contains(steps@.last()));
}

/// What a session does rests on whether it is to check the database, on the kind of export, and,
/// where it writes web pages, on whether attachments are copied; on nothing else that was asked for
/// or read.
pub proof fn theorem_start_depends(
    a: &Config<'_>,
    b: &Config<'_>,
    x: Vec<Step>,
    y: Vec<Step>,
)
    requires
        call_ensures(Config::start, (a,), x),
        call_ensures(Config::start, (b,), y),
        a.options.diagnostic == b.options.diagnostic,
        a.options.diagnostic || match (a.options.export_type, b.options.export_type) {
            (Some(s), Some(t)) => s@ == t@ && (s@ == "html"@ ==> a.options.no_copy
                == b.options.no_copy),
            (None, None) => true,
            _ => false,
        },
    ensures
        x@ == y@,
{
    crate::runtime::theorem_steps_depend(*a, *b);
}

/// What a failure means: that of the directory to export to is an error of the disk, that of an
/// export is its own, that of the directory for attachments or of a kind that there is not ends the
/// program, and nothing else matters.
pub proof fn theorem_failure(step: Step, failure: Failure)
    requires
        call_ensures(Step::failure, (step,), failure),
    ensures
        failure is Disk <==> step is CreateExportDir,
        failure is Export <==> step is ExportTxt || step is ExportHtml,
        failure is Fatal <==> step is CreateAttachmentDir || step is RejectExport,
        failure is Ignored <==> step is RunDiagnostic || step is ReportDone,
{
}

/// A session goes on with the next of its steps, to the last, unless the one that was done last has
/// failed in a way that matters: it then ends with that failure.
pub proof fn theorem_next(
    config: &Config<'_>,
    steps: Vec<Step>,
    done: usize,
    failed: bool,
    failure: Failure,
    next: Next,
)
    requires
        call_ensures(Config::start, (config,), steps),
        call_ensures(Config::next, (config, done, failed), next),
        done <= steps@.len(),
        failed ==> done > 0,
        failed ==> call_ensures(Step::failure, (steps@[done - 1],), failure),
    ensures
        failed && !(failure is Ignored) ==> next == Next::Ended(failure),
        (!failed || failure is Ignored) && done < steps@.len() ==> next == Next::Perform(
            steps@[done as int],
        ),
        (!failed || failure is Ignored) && done == steps@.len() ==> next is Finished,
{
}

} // verus!
