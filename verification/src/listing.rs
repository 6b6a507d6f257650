//! A list of names on one line, shortened to the length that a file name may have.
use vstd::prelude::*;
use vstd::string::*;

use crate::tables::MAX_LENGTH;
use crate::text::{clip, count_text, text_bytes};

verus! {

/// The characters of each name.
pub open spec fn texts(names: Seq<&str>) -> Seq<Seq<char>> {
    names.map_values(|name: &str| name@)
}

/// All names on one line: a comma and a space stand between a name and what is in front of it,
/// where that is not empty.
pub open spec fn joined(names: Seq<Seq<char>>) -> Seq<char>
    decreases names.len(),
{
    if names.len() == 0 {
        Seq::empty()
    } else {
        let line = joined(names.drop_last());
        if line.len() == 0 {
            names.last()
        } else {
            line + ", "@ + names.last()
        }
    }
}

/// Whether there is room for the name at `k` behind the names in front of it. The separator
/// counts only where the name is the last one: the line then has to be short enough as it is.
pub open spec fn fits(names: Seq<Seq<char>>, k: int) -> bool {
    &&& crate::text::byte_len(names[k]) + crate::text::byte_len(joined(names.take(k))) < MAX_LENGTH
    &&& k + 1 == names.len() ==> crate::text::byte_len(joined(names)) <= MAX_LENGTH
}

/// The position of the first name, from `k` on, for which there is no room.
pub open spec fn fitting_from(names: Seq<Seq<char>>, k: nat) -> nat
    decreases names.len() - k,
{
    if k < names.len() && fits(names, k as int) {
        fitting_from(names, k + 1)
    } else {
        k
    }
}

/// How many names are written out: all of them up to the first for which there is no room.
pub open spec fn fitting(names: Seq<Seq<char>>) -> nat {
    fitting_from(names, 0)
}

/// The words that stand for `count` names.
pub open spec fn others(count: int) -> Seq<char> {
    ", and "@ + crate::text::decimal(count) + " others"@
}

/// The names that are written out.
pub open spec fn shown(names: Seq<Seq<char>>) -> Seq<char> {
    joined(names.take(fitting(names) as int))
}

/// The words that stand for the names which are not written out.
pub open spec fn hidden(names: Seq<Seq<char>>) -> Seq<char> {
    others(names.len() - fitting(names))
}

/// Whether some name is not written out.
pub open spec fn shortened(names: Seq<Seq<char>>) -> bool {
    fitting(names) < names.len()
}

/// Whether the names that are written out have to make room for the words that stand for the
/// rest.
pub open spec fn crowded(names: Seq<Seq<char>>) -> bool {
    crate::text::byte_len(hidden(names)) + crate::text::byte_len(shown(names)) >= MAX_LENGTH
}

/// The list of names. Where there is room for all of them it is their line. Otherwise, the words
/// that stand for the rest follow those for which there is room, which are clipped as far as
/// necessary; where nothing is in front of the first name for which there is no room, as much of
/// that name as there is room for stands alone.
pub open spec fn listed(names: Seq<Seq<char>>) -> Seq<char> {
    if !shortened(names) {
        shown(names)
    } else if crowded(names) {
        crate::text::clipped(
            shown(names),
            MAX_LENGTH - crate::text::byte_len(hidden(names)),
        ) + hidden(names)
    } else if shown(names).len() == 0 {
        crate::text::clipped(names[fitting(names) as int], MAX_LENGTH as int)
    } else {
        shown(names) + hidden(names)
    }
}

/// The count of names for which there is room lies where the definition says.
proof fn lemma_fitting_from(names: Seq<Seq<char>>, k: nat)
    requires
        k <= names.len(),
    ensures
        k <= fitting_from(names, k) <= names.len(),
        fitting_from(names, k) < names.len() ==> !fits(names, fitting_from(names, k) as int),
        forall|j: int| k <= j < fitting_from(names, k) ==> fits(names, j),
    decreases names.len() - k,
{
    if k < names.len() && fits(names, k as int) {
        lemma_fitting_from(names, k + 1);
    }
}

/// The line of one name more.
proof fn lemma_joined_next(names: Seq<Seq<char>>, k: int)
    requires
        0 <= k < names.len(),
    ensures
        joined(names.take(k + 1)) == (if joined(names.take(k)).len() == 0 {
            names[k]
        } else {
            joined(names.take(k)) + ", "@ + names[k]
        }),
{
    assert(names.take(k + 1).drop_last() =~= names.take(k));
    assert(names.take(k + 1).last() == names[k]);
}

/// The separator takes two bytes.
proof fn lemma_separator()
    ensures
        ", "@.len() == 2,
        crate::text::byte_len(", "@) == 2,
{
    reveal_strlit(", ");
    vstd::utf8::is_ascii_chars_encode_utf8(", "@);
}

/// The bytes of the line of one name more.
proof fn lemma_joined_bytes(names: Seq<Seq<char>>, k: int)
    requires
        0 <= k < names.len(),
    ensures
        crate::text::byte_len(joined(names.take(k + 1))) == crate::text::byte_len(
            joined(names.take(k)),
        ) + crate::text::byte_len(names[k]) + (if joined(names.take(k)).len() == 0 {
            0nat
        } else {
            2nat
        }),
{
    lemma_joined_next(names, k);
    lemma_separator();
    let line = joined(names.take(k));
    crate::text::lemma_byte_len_zero(line);
    crate::text::lemma_byte_len_concat(line, ", "@);
    crate::text::lemma_byte_len_concat(line + ", "@, names[k]);
}

/// The line of some names is a prefix of the line of more names.
proof fn lemma_joined_prefix(names: Seq<Seq<char>>, i: int, j: int)
    requires
        0 <= i <= j <= names.len(),
    ensures
        joined(names.take(i)).is_prefix_of(joined(names.take(j))),
        crate::text::byte_len(joined(names.take(i))) <= crate::text::byte_len(
            joined(names.take(j)),
        ),
    decreases j - i,
{
    if i < j {
        lemma_joined_prefix(names, i, j - 1);
        lemma_joined_next(names, j - 1);
        lemma_joined_bytes(names, j - 1);
        assert(joined(names.take(j - 1)).is_prefix_of(joined(names.take(j))));
    }
}

/// A name for which there is no room, though nothing stands in front of it, fills a file name by
/// itself.
proof fn lemma_alone(names: Seq<Seq<char>>)
    requires
        shortened(names),
        shown(names).len() == 0,
    ensures
        crate::text::byte_len(names[fitting(names) as int]) >= MAX_LENGTH,
{
    let k = fitting(names) as int;
    lemma_fitting_from(names, 0);
    lemma_joined_next(names, k);
    crate::text::lemma_byte_len_zero(shown(names));
    assert(names.take(names.len() as int) =~= names);
    assert(!fits(names, k));
}

/// The characters of each name are those of the name in its place.
pub proof fn theorem_texts(names: Seq<&str>)
    ensures
        texts(names).len() == names.len(),
        forall|i: int| 0 <= i < names.len() ==> #[trigger] texts(names)[i] == names[i]@,
{
}

/// One name more stands at the end of the line, behind a comma and a space unless nothing is in
/// front of it.
pub proof fn theorem_joined(names: Seq<Seq<char>>, name: Seq<char>)
    ensures
        joined(Seq::empty()).len() == 0,
        joined(names).len() == 0 ==> joined(names.push(name)) == name,
        joined(names).len() > 0 ==> joined(names.push(name)) == joined(names) + seq![',', ' ']
            + name,
{
    reveal_strlit(", ");
    assert(", "@ =~= seq![',', ' ']);
    assert(names.push(name).drop_last() =~= names);
}

/// Names are written out as long as a name and the line in front of it take less than a file name
/// may hold; the first for which they do not is not written out, and neither is the last one where
/// the separators alone make the line too long.
pub proof fn theorem_written_out(names: Seq<Seq<char>>)
    ensures
        fitting(names) <= names.len(),
        forall|j: int|
            0 <= j < fitting(names) ==> crate::text::byte_len(#[trigger] names[j])
                + crate::text::byte_len(joined(names.take(j))) < MAX_LENGTH,
        fitting(names) < names.len() <==> {
            ||| exists|j: int|
                0 <= j < names.len() && crate::text::byte_len(#[trigger] names[j])
                    + crate::text::byte_len(joined(names.take(j))) >= MAX_LENGTH
            ||| crate::text::byte_len(joined(names)) > MAX_LENGTH
        },
        fitting(names) < names.len() ==> {
            ||| crate::text::byte_len(names[fitting(names) as int]) + crate::text::byte_len(
                joined(names.take(fitting(names) as int)),
            ) >= MAX_LENGTH
            ||| fitting(names) + 1 == names.len() && crate::text::byte_len(joined(names))
                > MAX_LENGTH
        },
{
    let n = names.len() as int;
    let k = fitting(names) as int;
    lemma_fitting_from(names, 0);
    assert(names.take(n) =~= names);
    assert forall|j: int| 0 <= j < k implies crate::text::byte_len(#[trigger] names[j])
        + crate::text::byte_len(joined(names.take(j))) < MAX_LENGTH by {
        assert(fits(names, j));
    }
    if k < n {
        assert(!fits(names, k));
        let room = crate::text::byte_len(names[k]) + crate::text::byte_len(joined(names.take(k)));
        assert(room >= MAX_LENGTH || crate::text::byte_len(joined(names)) > MAX_LENGTH);
    } else if n > 0 {
        assert(fits(names, n - 1));
    } else {
        crate::text::lemma_byte_len_zero(joined(names));
    }
}

/// How a list is shortened, where `k` is the place of the first name that has no room. The line of
/// the names in front of it stands in full before the words that count the others, where both are
/// short enough together; otherwise as many of its characters as leave room for those words. Where
/// that line is empty, the name itself stands there, as much of it as a file name may hold.
pub proof fn theorem_shortening(names: Seq<Seq<char>>, k: int)
    requires
        names.len() <= usize::MAX,
        0 <= k < names.len(),
        forall|j: int|
            0 <= j < k ==> crate::text::byte_len(#[trigger] names[j]) + crate::text::byte_len(
                joined(names.take(j)),
            ) < MAX_LENGTH,
        crate::text::byte_len(names[k]) + crate::text::byte_len(joined(names.take(k)))
            >= MAX_LENGTH || (k + 1 == names.len() && crate::text::byte_len(joined(names))
            > MAX_LENGTH),
    ensures
        ({
            let line = joined(names.take(k));
            let words = ", and "@ + crate::text::decimal(names.len() - k) + " others"@;
            let list = listed(names);
            let taken = crate::text::byte_len(words);
            let split = list.len() - words.len();
            if line.len() == 0 {
                &&& list.is_prefix_of(names[k])
                &&& crate::text::byte_len(list) <= MAX_LENGTH
                &&& list.len() < names[k].len() ==> crate::text::byte_len(
                    names[k].take((list.len() + 1) as int),
                ) > MAX_LENGTH
            } else if crate::text::byte_len(line) + taken <= MAX_LENGTH {
                list == line + words
            } else {
                &&& 0 <= split < line.len()
                &&& list == line.take(split) + words
                &&& crate::text::byte_len(list) <= MAX_LENGTH
                &&& crate::text::byte_len(line.take(split + 1)) + taken > MAX_LENGTH
            }
        }),
{
    let line = joined(names.take(k));
    let list = listed(names);
    theorem_written_out(names);
    let f = fitting(names) as int;
    assert(f == k) by {
        assert(f < names.len());
        if k < f {
            assert(crate::text::byte_len(names[k]) + crate::text::byte_len(
                joined(names.take(k)),
            ) < MAX_LENGTH);
        }
        if f < k {
            assert(crate::text::byte_len(names[f]) + crate::text::byte_len(
                joined(names.take(f)),
            ) < MAX_LENGTH);
        }
    }
    let words = hidden(names);
    let room = MAX_LENGTH - crate::text::byte_len(words);
    lemma_others_bytes(names.len() - k);
    theorem_list_length(names);
    crate::text::lemma_byte_len_zero(line);
    if line.len() == 0 {
        lemma_alone(names);
        crate::text::theorem_clipped(names[k], MAX_LENGTH as int);
    } else if crowded(names) {
        crate::text::theorem_clipped(line, room);
        let head = crate::text::clipped(line, room);
        assert(list =~= head + words);
        assert(head =~= line.take(head.len() as int));
        assert(list.len() - words.len() == head.len());
    }
}

/// Where the line of all names is short enough for a file name, it is the list: nothing is left
/// out or clipped.
pub proof fn theorem_listed_in_full(names: Seq<Seq<char>>)
    requires
        crate::text::byte_len(joined(names)) <= MAX_LENGTH,
    ensures
        listed(names) == joined(names),
{
    let n = names.len() as int;
    assert(names.take(n) =~= names);
    lemma_fitting_from(names, 0);
    let k = fitting(names) as int;
    if k < n {
        lemma_joined_bytes(names, k);
        lemma_joined_next(names, k);
        lemma_joined_prefix(names, k + 1, n);
        assert(!fits(names, k));
        assert(shown(names).len() == 0);
        crate::text::lemma_byte_len_zero(shown(names));
        if k + 1 < n {
            lemma_joined_bytes(names, k + 1);
            lemma_joined_prefix(names, k + 2, n);
            crate::text::lemma_byte_len_zero(joined(names.take(k + 1)));
        }
        assert(joined(names) == names[k]);
        lemma_others_bytes(n - k);
        crate::text::theorem_clipped(names[k], MAX_LENGTH as int);
    }
}

/// A list is never longer than a file name may be. Where the line of all names would be, some
/// name is not written out.
pub proof fn theorem_list_length(names: Seq<Seq<char>>)
    requires
        names.len() <= usize::MAX,
    ensures
        crate::text::byte_len(listed(names)) <= MAX_LENGTH,
        crate::text::byte_len(joined(names)) > MAX_LENGTH ==> shortened(names),
{
    let n = names.len() as int;
    assert(names.take(n) =~= names);
    lemma_fitting_from(names, 0);
    if !shortened(names) {
        if n > 0 {
            assert(fits(names, n - 1));
        } else {
            crate::text::lemma_byte_len_zero(joined(names));
        }
    } else if crowded(names) {
        let room = MAX_LENGTH - crate::text::byte_len(hidden(names));
        lemma_others_bytes(n - fitting(names));
        crate::text::theorem_clipped(shown(names), room);
        crate::text::lemma_byte_len_concat(
            crate::text::clipped(shown(names), room),
            hidden(names),
        );
    } else if shown(names).len() == 0 {
        crate::text::theorem_clipped(names[fitting(names) as int], MAX_LENGTH as int);
    } else {
        crate::text::lemma_byte_len_concat(shown(names), hidden(names));
    }
}

/// A list that was shortened begins as the line of all names does. It ends in the words that
/// count the names which are not written out, unless it is the beginning of a single name; fewer
/// than four bytes are then unused.
pub proof fn theorem_shortened_list(names: Seq<Seq<char>>)
    requires
        names.len() <= usize::MAX,
        shortened(names),
    ensures
        crowded(names) || shown(names).len() > 0 ==> ({
            let split = listed(names).len() - hidden(names).len();
            &&& 0 <= split
            &&& listed(names).take(split).is_prefix_of(joined(names))
            &&& listed(names).skip(split) == others(names.len() - fitting(names))
        }),
        !crowded(names) && shown(names).len() == 0 ==> {
            &&& listed(names).is_prefix_of(joined(names))
            &&& listed(names).is_prefix_of(names[fitting(names) as int])
            &&& MAX_LENGTH - 4 < crate::text::byte_len(listed(names)) <= MAX_LENGTH
        },
{
    let n = names.len() as int;
    let k = fitting(names) as int;
    assert(names.take(n) =~= names);
    lemma_fitting_from(names, 0);
    lemma_joined_prefix(names, k, n);
    if crowded(names) {
        let room = MAX_LENGTH - crate::text::byte_len(hidden(names));
        let head = crate::text::clipped(shown(names), room);
        lemma_others_bytes(n - k);
        crate::text::theorem_clipped(shown(names), room);
        let split = listed(names).len() - hidden(names).len();
        assert(listed(names).take(split) =~= head);
        assert(listed(names).skip(split) =~= hidden(names));
        assert(head.is_prefix_of(joined(names)));
    } else if shown(names).len() == 0 {
        lemma_alone(names);
        lemma_joined_next(names, k);
        lemma_joined_prefix(names, k + 1, n);
        crate::text::theorem_clipped(names[k], MAX_LENGTH as int);
        assert(listed(names).is_prefix_of(joined(names)));
    } else {
        let split = listed(names).len() - hidden(names).len();
        assert(listed(names).take(split) =~= shown(names));
        assert(listed(names).skip(split) =~= hidden(names));
    }
}

/// The words that stand for the rest are short.
proof fn lemma_others_bytes(count: int)
    requires
        0 <= count <= usize::MAX,
    ensures
        14 <= crate::text::byte_len(others(count)) <= 33,
{
    reveal_strlit(", and ");
    reveal_strlit(" others");
    vstd::utf8::is_ascii_chars_encode_utf8(", and "@);
    vstd::utf8::is_ascii_chars_encode_utf8(" others"@);
    crate::text::lemma_count_bytes(count);
    crate::text::lemma_byte_len_concat(", and "@, crate::text::decimal(count));
    crate::text::lemma_byte_len_concat(", and "@ + crate::text::decimal(count), " others"@);
}

/// The words that stand for `count` names.
fn others_text(count: usize) -> (words: String)
    ensures
        words@ == others(count as int),
{
    let mut words: String = String::new();
    words.append(", and ");
    words.append(count_text(count).as_str());
    words.append(" others");
    proof {
        assert(words@ =~= others(count as int));
    }
    words
}

/// Ends a list at a name for which there is no room: `line` holds the names in front of it, and
/// `rest` counts it and those behind it.
fn shorten(line: &str, name: &str, rest: usize) -> (list: String)
    ensures
        ({
            let words = others(rest as int);
            let room = MAX_LENGTH - crate::text::byte_len(words);
            list@ == if crate::text::byte_len(line@) >= room {
                crate::text::clipped(line@, room) + words
            } else if line@.len() == 0 {
                crate::text::clipped(name@, MAX_LENGTH as int)
            } else {
                line@ + words
            }
        }),
{
    let words: String = others_text(rest);
    proof {
        lemma_others_bytes(rest as int);
    }
    let room: usize = MAX_LENGTH - text_bytes(words.as_str());
    if text_bytes(line) >= room {
        let mut text: String = clip(line, room).to_owned();
        text.append(words.as_str());
        text
    } else if line.is_empty() {
        clip(name, MAX_LENGTH).to_owned()
    } else {
        let mut text: String = line.to_owned();
        text.append(words.as_str());
        text
    }
}

/// The list of names, shortened where it is too long.
pub fn list_names(names: &Vec<&str>) -> (list: String)
    ensures
        list@ == listed(texts(names@)),
        crate::text::byte_len(list@) <= MAX_LENGTH,
{
    let ghost all = texts(names@);
    let mut line: String = String::new();
    let mut added: usize = 0;
    let count: usize = names.len();
    proof {
        assert(all.len() == count);
        assert(all.take(0) =~= Seq::empty());
        assert(all.take(all.len() as int) =~= all);
        theorem_list_length(all);
    }
    while added < count
        invariant
            added <= count,
            count == names.len(),
            all == texts(names@),
            all.take(all.len() as int) == all,
            crate::text::byte_len(listed(all)) <= MAX_LENGTH,
            line@ == joined(all.take(added as int)),
            fitting_from(all, 0) == fitting_from(all, added as nat),
        decreases count - added,
    {
        let name: &str = names[added];
        let used: usize = text_bytes(line.as_str());
        let size: usize = text_bytes(name);
        assert(all[added as int] == name@);
        proof {
            lemma_joined_next(all, added as int);
            lemma_joined_bytes(all, added as int);
            crate::text::lemma_byte_len_zero(line@);
        }
        let room: bool = used < MAX_LENGTH && size < MAX_LENGTH - used;
        let separator: usize = if used == 0 {
            0
        } else {
            2
        };
        if room && (added + 1 < count || used + separator + size <= MAX_LENGTH) {
            assert(fits(all, added as int));
            if used > 0 {
                line.append(", ");
            }
            line.append(name);
            added = added + 1;
        } else {
            assert(!fits(all, added as int));
            assert(fitting(all) == added);
            return shorten(line.as_str(), name, count - added);
        }
    }
    line
}

} // verus!
