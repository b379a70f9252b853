//! Small string helpers shared by the formatting and text-layout code.

use vstd::prelude::*;
use vstd::string::StrSliceExecFns;

verus! {

/// Appends one character to a `String` (std's `String::push`).
#[verifier::external_body]
pub(crate) fn string_push(s: &mut String, c: char)
    ensures
        final(s)@ == old(s)@.push(c),
{
    s.push(c);
}

/// Appends all characters of `t` to `s`.
pub(crate) fn push_all(s: &mut String, t: &str)
    ensures
        final(s)@ == old(s)@ + t@,
{
    let n = t.unicode_len();
    let ghost start = s@;
    let mut i: usize = 0;
    while i < n
        invariant
            n == t@.len(),
            i <= n,
            s@ == start + t@.take(i as int),
        decreases n - i,
    {
        string_push(s, t.get_char(i));
        proof {
            assert(t@.take(i as int).push(t@[i as int]) =~= t@.take(i + 1));
        }
        i = i + 1;
    }
    assert(t@.take(n as int) =~= t@);
}

/// Whether two strings hold the same characters.
pub fn str_equals(a: &str, b: &str) -> (eq: bool)
    ensures
        eq == (a@ == b@),
{
    let n = a.unicode_len();
    if n != b.unicode_len() {
        return false;
    }
    let mut i: usize = 0;
    while i < n
        invariant
            n == a@.len(),
            n == b@.len(),
            i <= n,
            forall|j: int| 0 <= j < i ==> a@[j] == b@[j],
        decreases n - i,
    {
        if a.get_char(i) != b.get_char(i) {
            return false;
        }
        i = i + 1;
    }
    assert(a@ =~= b@);
    true
}

/// `name` preceded by `[tag] ` when the clan tag is not empty.
pub open spec fn clan_prefixed(tag: Seq<char>, name: Seq<char>) -> Seq<char> {
    if tag.len() > 0 {
        seq!['['] + tag + seq![']', ' '] + name
    } else {
        name
    }
}

/// The `[CLAN] PlayerName` text of a roster or chat header.
pub fn with_clan_prefix(tag: &str, name: &str) -> (s: String)
    ensures
        s@ == clan_prefixed(tag@, name@),
{
    let mut s = String::new();
    if tag.unicode_len() > 0 {
        string_push(&mut s, '[');
        push_all(&mut s, tag);
        string_push(&mut s, ']');
        string_push(&mut s, ' ');
    }
    push_all(&mut s, name);
    assert(s@ =~= clan_prefixed(tag@, name@));
    s
}

/// The player label of a teammate-table row: `[CLAN] Player (Ship)`, with
/// the clan part only for a non-empty tag and the ship part only for a
/// non-empty ship name.
pub open spec fn teammate_label_text(tag: Option<Seq<char>>, player: Seq<char>, ship: Seq<char>) -> Seq<char> {
    let base = match tag {
        Some(t) => clan_prefixed(t, player),
        None => player,
    };
    if ship.len() > 0 {
        base + seq![' ', '('] + ship + seq![')']
    } else {
        base
    }
}

/// Label of a row of the teammate table.
pub fn teammate_label(clan_tag: Option<&str>, player_name: &str, ship_name: &str) -> (s: String)
    ensures
        s@ == teammate_label_text(
            match clan_tag {
                Some(t) => Some(t@),
                None => None,
            },
            player_name@,
            ship_name@,
        ),
{
    let mut s = match clan_tag {
        Some(t) => with_clan_prefix(t, player_name),
        None => with_clan_prefix("", player_name),
    };
    proof {
        reveal_strlit("");
    }
    if ship_name.unicode_len() > 0 {
        string_push(&mut s, ' ');
        string_push(&mut s, '(');
        push_all(&mut s, ship_name);
        string_push(&mut s, ')');
    }
    assert(s@ =~= teammate_label_text(
        match clan_tag {
            Some(t) => Some(t@),
            None => None,
        },
        player_name@,
        ship_name@,
    ));
    s
}

/// Number of characters of a chat name line drawn in the clan colour: the
/// characters of the `[tag] ` prefix (none without a tag), at most the
/// whole line.
pub open spec fn clan_split_point(name_line: Seq<char>, tag: Seq<char>) -> int {
    let k: int = if tag.len() > 0 {
        tag.len() as int + 3
    } else {
        0
    };
    if k < name_line.len() {
        k
    } else {
        name_line.len() as int
    }
}

/// The characters of `s` from `from` up to `to`, as a new string.
fn take_chars(s: &str, from: usize, to: usize) -> (out: String)
    requires
        from <= to <= s@.len(),
    ensures
        out@ == s@.subrange(from as int, to as int),
{
    let mut out = String::new();
    let mut i: usize = from;
    while i < to
        invariant
            from <= i <= to,
            to <= s@.len(),
            out@ == s@.subrange(from as int, i as int),
        decreases to - i,
    {
        string_push(&mut out, s.get_char(i));
        proof {
            assert(s@.subrange(from as int, i as int).push(s@[i as int]) =~= s@.subrange(
                from as int,
                i + 1,
            ));
        }
        i = i + 1;
    }
    out
}

/// Splits a (possibly truncated) `[CLAN] PlayerName` chat line into the part
/// drawn in the clan colour and the rest drawn in the team colour.
pub fn split_clan_prefix(name_line: &str, clan_tag: &str) -> (parts: (String, String))
    ensures
        parts.0@ == name_line@.take(clan_split_point(name_line@, clan_tag@)),
        parts.1@ == name_line@.skip(clan_split_point(name_line@, clan_tag@)),
{
    let n = name_line.unicode_len();
    let tag_chars = clan_tag.unicode_len();
    let k: usize = if tag_chars == 0 {
        0
    } else if tag_chars >= n || n - tag_chars <= 3 {
        n
    } else {
        tag_chars + 3
    };
    let head = take_chars(name_line, 0, k);
    let rest = take_chars(name_line, k, n);
    assert(name_line@.subrange(0, k as int) =~= name_line@.take(k as int));
    assert(name_line@.subrange(k as int, n as int) =~= name_line@.skip(k as int));
    (head, rest)
}

} // verus!