//! Paths out of manifests, which must stay below the directory that they are
//! read for.

use crate::error::Message;
use crate::path;
use crate::path::{FilePath, PathModel};
use crate::text;
use vstd::prelude::*;

verus! {

/// A text with every separator written as `/`.
pub open spec fn slashed(s: Seq<char>) -> Seq<char> {
    text::replaced(s, '\\', '/')
}

/// Whether a list of components leads upwards somewhere.
pub open spec fn leads_up(parts: Seq<Seq<char>>) -> bool {
    parts.contains(seq!['.', '.'])
}

/// The complaint about a path that is not there.
pub open spec fn empty_path_text() -> Seq<char> {
    "contains an empty path"@
}

/// The complaint about a path that leaves its directory.
pub open spec fn unsupported_path_text(trimmed: Seq<char>) -> Seq<char> {
    "contains unsupported path: "@ + trimmed
}

/// A path without one leading separator.
pub open spec fn without_lead(s: Seq<char>) -> Seq<char> {
    if s.len() > 0 && (s[0] == '/' || s[0] == '\\') {
        s.skip(1)
    } else {
        s
    }
}

/// The relative path that a manifest entry names, or what is wrong with it.
/// Both separators are taken, and one leading separator is dropped. A network
/// path, a drive or stream, and any step upwards are refused.
pub open spec fn safe_relative_path(raw: Seq<char>) -> Result<PathModel, Seq<char>> {
    let trimmed = text::trimmed(raw);
    let rest = slashed(without_lead(trimmed));
    let parts = path::named(text::split_on(rest, '/'));
    if trimmed.len() == 0 {
        Err(empty_path_text())
    } else if slashed(trimmed).len() >= 2 && slashed(trimmed)[0] == '/' && slashed(trimmed)[1]
        == '/' {
        Err(unsupported_path_text(trimmed))
    } else if rest.len() == 0 {
        Err(empty_path_text())
    } else if rest[0] == '/' || rest.contains(':') || leads_up(parts) {
        Err(unsupported_path_text(trimmed))
    } else if parts.len() == 0 {
        Err(empty_path_text())
    } else {
        Ok(PathModel { absolute: false, parts })
    }
}

fn has_colon(chars: &Vec<char>) -> (yes: bool)
    ensures
        yes == chars@.contains(':'),
{
    let mut k: usize = 0;
    while k < chars.len()
        invariant
            k <= chars@.len(),
            forall|j: int| 0 <= j < k ==> chars@[j] != ':',
        decreases chars@.len() - k,
    {
        if chars[k] == ':' {
            assert(chars@[k as int] == ':');
            return true;
        }
        k = k + 1;
    }
    false
}

fn has_step_up(parts: &Vec<String>) -> (yes: bool)
    ensures
        yes == leads_up(text::texts(parts@)),
{
    let ghost all = text::texts(parts@);
    proof {
        reveal_strlit("..");
        assert(".."@ =~= seq!['.', '.']);
    }
    let mut k: usize = 0;
    while k < parts.len()
        invariant
            k <= parts@.len(),
            all == text::texts(parts@),
            ".."@ == seq!['.', '.'],
            forall|j: int| 0 <= j < k ==> all[j] != seq!['.', '.'],
        decreases parts@.len() - k,
    {
        if text::same_text(parts[k].as_str(), "..") {
            assert(all[k as int] == seq!['.', '.']);
            return true;
        }
        k = k + 1;
    }
    false
}

fn invalid_path(label: &str, detail: &str) -> (message: Message)
    ensures
        message.context@ == "Invalid path: "@,
        message.detail@ == label@ + " "@ + detail@,
{
    let mut text = label.to_owned();
    text::push_text(&mut text, " ");
    text::push_text(&mut text, detail);
    Message::new("Invalid path: ", text)
}

fn unsupported(label: &str, trimmed: &String) -> (message: Message)
    ensures
        message.context@ == "Invalid path: "@,
        message.detail@ == label@ + " "@ + unsupported_path_text(trimmed@),
{
    let mut detail = "contains unsupported path: ".to_owned();
    text::push_text(&mut detail, trimmed.as_str());
    invalid_path(label, detail.as_str())
}

/// The relative path that a manifest entry names, where it stays below the
/// directory that it is read for.
pub fn parse_safe_relative_path(label: &str, raw: &str) -> (result: Result<FilePath, Message>)
    ensures
        match result {
            Ok(found) => safe_relative_path(raw@) == Ok::<PathModel, Seq<char>>(found@),
            Err(message) => message.context@ == "Invalid path: "@ && match safe_relative_path(
                raw@,
            ) {
                Ok(_) => false,
                Err(detail) => message.detail@ == label@ + " "@ + detail,
            },
        },
{
    let trimmed = text::trim(raw);
    let chars = text::chars_of(trimmed.as_str());
    if chars.len() == 0 {
        return Err(invalid_path(label, "contains an empty path"));
    }
    let first_separates = chars[0] == '/' || chars[0] == '\\';
    if chars.len() >= 2 && first_separates && (chars[1] == '/' || chars[1] == '\\') {
        return Err(unsupported(label, &trimmed));
    }
    let from: usize = if first_separates {
        1
    } else {
        0
    };
    let stripped = text::text_of(&chars, from, chars.len());
    proof {
        assert(stripped@ =~= without_lead(trimmed@));
    }
    let rest = text::replace_char(stripped.as_str(), '\\', '/');
    let rest_chars = text::chars_of(rest.as_str());
    if rest_chars.len() == 0 {
        return Err(invalid_path(label, "contains an empty path"));
    }
    let pieces = text::split_text(rest.as_str(), '/');
    let parts = path::named_pieces(&pieces);
    if rest_chars[0] == '/' || has_colon(&rest_chars) || has_step_up(&parts) {
        return Err(unsupported(label, &trimmed));
    }
    if parts.len() == 0 {
        return Err(invalid_path(label, "contains an empty path"));
    }
    Ok(FilePath { absolute: false, parts })
}

/// A path that was let through is relative, names something, and no component
/// of it leads upwards, is empty or holds a separator, a drive or a stream.
pub proof fn law_safe_paths_stay_below(raw: Seq<char>)
    requires
        safe_relative_path(raw) is Ok,
    ensures
        ({
            let found = safe_relative_path(raw)->Ok_0;
            &&& !found.absolute
            &&& found.parts.len() > 0
            &&& forall|k: int|
                0 <= k < found.parts.len() ==> (#[trigger] found.parts[k]) != seq!['.', '.']
                    && found.parts[k].len() > 0 && !found.parts[k].contains('/')
                    && !found.parts[k].contains('\\') && !found.parts[k].contains(':')
        }),
{
    let found = safe_relative_path(raw)->Ok_0;
    let rest = slashed(without_lead(text::trimmed(raw)));
    lemma_pieces(rest);
    lemma_named(text::split_on(rest, '/'));
    assert forall|k: int| 0 <= k < found.parts.len() implies (#[trigger] found.parts[k]) != seq![
        '.',
        '.',
    ] && found.parts[k].len() > 0 && !found.parts[k].contains('/') && !found.parts[k].contains(
        '\\',
    ) && !found.parts[k].contains(':') by {
        assert(found.parts.contains(found.parts[k]));
        let pieces = text::split_on(rest, '/');
        let j = choose|j: int| 0 <= j < pieces.len() && pieces[j] == found.parts[k];
        let piece = pieces[j];
        assert(pieces[j] == found.parts[k]);
        if piece.contains('\\') {
            let i = choose|i: int| 0 <= i < piece.len() && piece[i] == '\\';
            assert(rest.contains(piece[i]));
            let m = choose|m: int| 0 <= m < rest.len() && rest[m] == '\\';
            assert(false);
        }
        if piece.contains(':') {
            let i = choose|i: int| 0 <= i < piece.len() && piece[i] == ':';
            assert(rest.contains(piece[i]));
        }
    }
}

/// Every piece is made of characters of the text and holds no separator.
proof fn lemma_pieces(s: Seq<char>)
    ensures
        forall|j: int, i: int|
            0 <= j < text::split_on(s, '/').len() && 0 <= i < text::split_on(s, '/')[j].len()
                ==> s.contains(#[trigger] text::split_on(s, '/')[j][i]) && text::split_on(
                s,
                '/',
            )[j][i] != '/',
    decreases s.len(),
{
    if s.len() > 0 {
        let rest = s.drop_last();
        lemma_pieces(rest);
        text::lemma_split_is_not_empty(rest, '/');
        let before = text::split_on(rest, '/');
        let after = text::split_on(s, '/');
        assert forall|j: int, i: int|
            0 <= j < after.len() && 0 <= i < after[j].len() implies s.contains(
            #[trigger] after[j][i],
        ) && after[j][i] != '/' by {
            if j < before.len() && i < before[j].len() && (j < before.len() - 1 || s.last()
                == '/' || i < before.last().len()) {
                assert(after[j][i] == before[j][i]);
                assert(rest.contains(before[j][i]));
                let m = choose|m: int| 0 <= m < rest.len() && rest[m] == before[j][i];
                assert(s[m] == before[j][i]);
            } else {
                assert(after[j][i] == s.last());
                assert(s[s.len() - 1] == s.last());
            }
        }
    }
}

/// Named pieces are pieces, and none is empty.
proof fn lemma_named(pieces: Seq<Seq<char>>)
    ensures
        forall|k: int|
            0 <= k < path::named(pieces).len() ==> pieces.contains(
                #[trigger] path::named(pieces)[k],
            ) && path::named(pieces)[k].len() > 0,
    decreases pieces.len(),
{
    if pieces.len() > 0 {
        let rest = pieces.drop_last();
        lemma_named(rest);
        let found = path::named(pieces);
        assert forall|k: int| 0 <= k < found.len() implies pieces.contains(#[trigger] found[k])
            && found[k].len() > 0 by {
            if k < path::named(rest).len() {
                assert(found[k] == path::named(rest)[k]);
                assert(rest.contains(found[k]));
                let m = choose|m: int| 0 <= m < rest.len() && rest[m] == found[k];
                assert(pieces[m] == found[k]);
            } else {
                assert(found[k] == pieces.last());
                assert(pieces[pieces.len() - 1] == found[k]);
                if found[k].len() == 0 {
                    assert(found[k] =~= Seq::<char>::empty());
                }
            }
        }
    }
}

} // verus!
