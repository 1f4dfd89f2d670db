//! What holds of texts, numbers and paths, whatever they say.

use crate::number;
use crate::path;
use crate::path::PathModel;
use crate::path_safety;
use crate::text;
use crate::verify;
use crate::verify::{IssueKind, Observed};
use vstd::prelude::*;

verus! {

/// A number that is written in decimal reads as itself, and starts with a zero
/// only if it is zero.
pub proof fn law_decimal_reads_back(n: nat)
    ensures
        number::is_number(text::decimal(n)),
        number::number(text::decimal(n)) == n,
        text::decimal(n)[0] == '0' <==> n == 0,
    decreases n,
{
    if n >= 10 {
        law_decimal_reads_back(n / 10);
        let most = text::decimal(n / 10);
        let all = text::decimal(n);
        assert(all.drop_last() =~= most);
        assert(all[0] == most[0]);
        assert forall|i: int| 0 <= i < all.len() implies '0' <= #[trigger] all[i] <= '9' by {
            if i < most.len() {
                assert(all[i] == most[i]);
            }
        }
    } else {
        assert(text::decimal(n).drop_last().len() == 0);
        assert(number::number(text::decimal(n).drop_last()) == 0);
    }
}

/// Different numbers are written differently.
pub proof fn law_decimals_differ(a: nat, b: nat)
    requires
        text::decimal(a) == text::decimal(b),
    ensures
        a == b,
{
    law_decimal_reads_back(a);
    law_decimal_reads_back(b);
}

/// Of a text in small letters nothing is a capital, nothing but capitals has
/// changed, and each capital is its small letter.
pub proof fn law_capitals_become_small(s: Seq<char>, i: int)
    requires
        0 <= i < s.len(),
    ensures
        text::lowered(s).len() == s.len(),
        !('A' <= text::lowered(s)[i] <= 'Z'),
        !('A' <= s[i] <= 'Z') ==> text::lowered(s)[i] == s[i],
        'A' <= s[i] <= 'Z' ==> text::lowered(s)[i] as int == s[i] as int + ('a' as int
            - 'A' as int),
        text::lowered(text::lowered(s)) == text::lowered(s),
{
    assert(text::lowered(text::lowered(s)) =~= text::lowered(s)) by {
        assert forall|k: int| 0 <= k < s.len() implies text::lowered(text::lowered(s))[k]
            == text::lowered(s)[k] by {
            lemma_small(s[k]);
        }
    }
    lemma_small(s[i]);
}

proof fn lemma_small(c: char)
    ensures
        !('A' <= text::lower_char(c) <= 'Z'),
        'A' <= c <= 'Z' ==> text::lower_char(c) as int == c as int + 32,
{
}

/// Replacing a character replaces each of it, and nothing else.
pub proof fn law_each_character_is_replaced(s: Seq<char>, from: char, to: char, i: int)
    requires
        0 <= i < s.len(),
    ensures
        text::replaced(s, from, to).len() == s.len(),
        s[i] == from ==> text::replaced(s, from, to)[i] == to,
        s[i] != from ==> text::replaced(s, from, to)[i] == s[i],
{
}

/// The pieces of a text hold no separator, and with separators between them they
/// are the text.
pub proof fn law_pieces_make_up_the_text(s: Seq<char>, separator: char)
    ensures
        text::split_on(s, separator).len() > 0,
        path::joined(text::split_on(s, separator), seq![separator]) == s,
        forall|j: int|
            0 <= j < text::split_on(s, separator).len() ==> !(#[trigger] text::split_on(
                s,
                separator,
            )[j]).contains(separator),
    decreases s.len(),
{
    text::lemma_split_is_not_empty(s, separator);
    let after = text::split_on(s, separator);
    if s.len() > 0 {
        let rest = s.drop_last();
        law_pieces_make_up_the_text(rest, separator);
        let before = text::split_on(rest, separator);
        assert(s =~= rest.push(s.last()));
        if s.last() == separator {
            assert(after.drop_last() =~= before);
            assert(path::joined(after, seq![separator]) =~= s);
        } else {
            let piece = before.last().push(s.last());
            assert(after.drop_last() =~= before.drop_last());
            assert(after.last() == piece);
            if before.len() == 1 {
                assert(after[0] == piece);
            }
            assert(path::joined(after, seq![separator]) =~= s);
            assert forall|j: int| 0 <= j < after.len() implies !(#[trigger] after[j]).contains(
                separator,
            ) by {
                if j < before.len() - 1 {
                    assert(after[j] == before[j]);
                } else if after[j].contains(separator) {
                    let i = choose|i: int| 0 <= i < piece.len() && piece[i] == separator;
                    assert(before.last()[i] == separator);
                    assert(before[before.len() - 1].contains(separator));
                }
            }
        }
    } else {
        assert(after[0] =~= Seq::<char>::empty());
        assert(path::joined(after, seq![separator]) =~= s);
    }
}

pub proof fn lemma_split_of_piece(piece: Seq<char>, separator: char)
    requires
        !piece.contains(separator),
    ensures
        text::split_on(piece, separator) == seq![piece],
    decreases piece.len(),
{
    if piece.len() > 0 {
        let rest = piece.drop_last();
        assert(piece[piece.len() - 1] == piece.last());
        assert(!rest.contains(separator)) by {
            if rest.contains(separator) {
                let i = choose|i: int| 0 <= i < rest.len() && rest[i] == separator;
                assert(piece[i] == separator);
            }
        }
        lemma_split_of_piece(rest, separator);
        assert(text::split_on(piece, separator)[0] =~= piece);
        assert(text::split_on(piece, separator) =~= seq![piece]);
    } else {
        assert(piece =~= Seq::<char>::empty());
        assert(text::split_on(piece, separator) =~= seq![piece]);
    }
}

pub proof fn lemma_split_after_separator(lead: Seq<char>, separator: char, piece: Seq<char>)
    requires
        !piece.contains(separator),
    ensures
        text::split_on(lead.push(separator) + piece, separator) == text::split_on(
            lead,
            separator,
        ).push(piece),
    decreases piece.len(),
{
    let all = lead.push(separator) + piece;
    if piece.len() == 0 {
        assert(all =~= lead.push(separator));
        assert(all.drop_last() =~= lead);
        assert(piece =~= Seq::<char>::empty());
    } else {
        let rest = piece.drop_last();
        assert(piece[piece.len() - 1] == piece.last());
        assert(!rest.contains(separator)) by {
            if rest.contains(separator) {
                let i = choose|i: int| 0 <= i < rest.len() && rest[i] == separator;
                assert(piece[i] == separator);
            }
        }
        lemma_split_after_separator(lead, separator, rest);
        assert(all.drop_last() =~= lead.push(separator) + rest);
        assert(all.last() == piece.last());
        assert(rest.push(piece.last()) =~= piece);
        let before = text::split_on(lead, separator);
        assert(before.push(rest).drop_last() =~= before);
        assert(text::split_on(all, separator) =~= before.push(piece));
    }
}

/// Pieces that hold no separator come back when the text that they make up is
/// split.
pub proof fn law_joined_pieces_split_again(parts: Seq<Seq<char>>, separator: char)
    requires
        parts.len() > 0,
        forall|j: int| 0 <= j < parts.len() ==> !(#[trigger] parts[j]).contains(separator),
    ensures
        text::split_on(path::joined(parts, seq![separator]), separator) == parts,
    decreases parts.len(),
{
    if parts.len() == 1 {
        assert(!parts[0].contains(separator));
        lemma_split_of_piece(parts[0], separator);
        assert(seq![parts[0]] =~= parts);
    } else {
        let rest = parts.drop_last();
        assert forall|j: int| 0 <= j < rest.len() implies !(#[trigger] rest[j]).contains(
            separator,
        ) by {
            assert(rest[j] == parts[j]);
        }
        law_joined_pieces_split_again(rest, separator);
        let lead = path::joined(rest, seq![separator]);
        assert(!parts[parts.len() - 1].contains(separator));
        lemma_split_after_separator(lead, separator, parts.last());
        assert(lead + seq![separator] + parts.last() =~= lead.push(separator) + parts.last());
        assert(rest.push(parts.last()) =~= parts);
    }
}

/// Whether a text is white space alone.
pub open spec fn is_blank(s: Seq<char>) -> bool {
    forall|i: int| 0 <= i < s.len() ==> text::white(#[trigger] s[i])
}

proof fn lemma_trimmed_end(s: Seq<char>) -> (after: Seq<char>)
    ensures
        s == text::trimmed_end(s) + after,
        is_blank(after),
        text::trimmed_end(s).len() > 0 ==> !text::white(text::trimmed_end(s).last())
            && text::trimmed_end(s)[0] == s[0],
    decreases s.len(),
{
    if s.len() > 0 && text::white(s.last()) {
        let after = lemma_trimmed_end(s.drop_last());
        let more = after.push(s.last());
        assert(s =~= s.drop_last().push(s.last()));
        assert(s =~= text::trimmed_end(s) + more);
        more
    } else {
        assert(s =~= s + Seq::<char>::empty());
        Seq::empty()
    }
}

/// A trimmed text is the text but for white space around it, and neither starts
/// nor ends with white space.
pub proof fn law_trimming_takes_white_space_alone(s: Seq<char>)
    ensures
        exists|before: Seq<char>, after: Seq<char>|
            is_blank(before) && is_blank(after) && s == #[trigger] (before + text::trimmed(s)
                + after),
        text::trimmed(s).len() > 0 ==> !text::white(text::trimmed(s)[0]) && !text::white(
            text::trimmed(s).last(),
        ),
    decreases s.len(),
{
    if s.len() > 0 && text::white(s[0]) {
        let rest = s.skip(1);
        law_trimming_takes_white_space_alone(rest);
        let (before, after) = choose|before: Seq<char>, after: Seq<char>|
            is_blank(before) && is_blank(after) && rest == #[trigger] (before + text::trimmed(rest)
                + after);
        let more = seq![s[0]] + before;
        assert forall|i: int| 0 <= i < more.len() implies text::white(#[trigger] more[i]) by {
            if i > 0 {
                assert(more[i] == before[i - 1]);
            }
        }
        assert(s =~= seq![s[0]] + rest);
        assert(s =~= more + text::trimmed(s) + after);
    } else {
        let after = lemma_trimmed_end(s);
        let before = Seq::<char>::empty();
        assert(s =~= before + text::trimmed(s) + after);
    }
}

/// A text without white space around it is not changed by trimming.
pub proof fn law_trimmed_texts_stay(s: Seq<char>)
    requires
        s.len() > 0 ==> !text::white(s[0]) && !text::white(s.last()),
    ensures
        text::trimmed(s) == s,
{
}

/// Whether components can be written with separators between them and read
/// again.
pub open spec fn is_plain(parts: Seq<Seq<char>>) -> bool {
    forall|j: int|
        0 <= j < parts.len() ==> (#[trigger] parts[j]).len() > 0 && parts[j] != seq!['.']
            && !parts[j].contains('/')
}

proof fn lemma_plain_parts_are_named(parts: Seq<Seq<char>>)
    requires
        is_plain(parts),
    ensures
        path::named(parts) == parts,
    decreases parts.len(),
{
    if parts.len() > 0 {
        let rest = parts.drop_last();
        assert forall|j: int| 0 <= j < rest.len() implies (#[trigger] rest[j]).len() > 0 && rest[j]
            != seq!['.'] && !rest[j].contains('/') by {
            assert(rest[j] == parts[j]);
        }
        lemma_plain_parts_are_named(rest);
        assert(parts[parts.len() - 1].len() > 0);
        assert(rest.push(parts.last()) =~= parts);
    }
}

proof fn lemma_joined_start(parts: Seq<Seq<char>>)
    requires
        parts.len() > 0,
        parts[0].len() > 0,
    ensures
        path::joined(parts, seq!['/']).len() > 0,
        path::joined(parts, seq!['/'])[0] == parts[0][0],
    decreases parts.len(),
{
    if parts.len() > 1 {
        lemma_joined_start(parts.drop_last());
        assert(parts.drop_last()[0] == parts[0]);
    }
}

/// A path that is written as text names itself.
pub proof fn law_paths_read_back(model: PathModel)
    requires
        is_plain(model.parts),
    ensures
        path::parsed(model.text()) == model,
{
    lemma_plain_parts_are_named(model.parts);
    let body = path::joined(model.parts, seq!['/']);
    if model.parts.len() > 0 {
        assert(model.parts[0].len() > 0);
        lemma_joined_start(model.parts);
        assert(!model.parts[0].contains('/'));
        assert(model.parts[0][0] != '/') by {
            if model.parts[0][0] == '/' {
                assert(model.parts[0].contains('/'));
            }
        }
        assert forall|j: int| 0 <= j < model.parts.len() implies !(
        #[trigger] model.parts[j]).contains('/') by {}
        law_joined_pieces_split_again(model.parts, '/');
    } else {
        assert(body =~= Seq::<char>::empty());
        assert(text::split_on(body, '/') =~= seq![Seq::<char>::empty()]);
        assert(path::named(seq![Seq::<char>::empty()].drop_last()) =~= Seq::empty());
        assert(path::named(seq![Seq::<char>::empty()]) =~= Seq::empty());
    }
    if model.absolute {
        let empty = Seq::<char>::empty();
        if model.parts.len() > 0 {
            let all = seq![empty] + model.parts;
            assert(path::joined(all, seq!['/']) =~= seq!['/'] + body) by {
                lemma_joined_with_lead(model.parts);
            }
            assert forall|j: int| 0 <= j < all.len() implies !(#[trigger] all[j]).contains(
                '/',
            ) by {
                if j > 0 {
                    assert(all[j] == model.parts[j - 1]);
                }
            }
            law_joined_pieces_split_again(all, '/');
            lemma_named_with_lead(model.parts);
        } else {
            let s = seq!['/'] + body;
            assert(s =~= seq!['/']);
            assert(s.drop_last() =~= empty);
            assert(text::split_on(empty, '/') =~= seq![empty]);
            assert(text::split_on(s, '/') =~= seq![empty, empty]);
            assert(seq![empty, empty].drop_last() =~= seq![empty]);
            assert(path::named(seq![empty, empty]) =~= path::named(seq![empty]));
        }
    }
}

proof fn lemma_joined_with_lead(parts: Seq<Seq<char>>)
    requires
        parts.len() > 0,
    ensures
        path::joined(seq![Seq::<char>::empty()] + parts, seq!['/']) == seq!['/'] + path::joined(
            parts,
            seq!['/'],
        ),
    decreases parts.len(),
{
    let all = seq![Seq::<char>::empty()] + parts;
    if parts.len() == 1 {
        assert(all.drop_last() =~= seq![Seq::<char>::empty()]);
        assert(path::joined(seq![Seq::<char>::empty()], seq!['/']) =~= Seq::<char>::empty());
        assert(path::joined(all, seq!['/']) =~= seq!['/'] + parts[0]);
    } else {
        lemma_joined_with_lead(parts.drop_last());
        assert(all.drop_last() =~= seq![Seq::<char>::empty()] + parts.drop_last());
        assert(path::joined(all, seq!['/']) =~= seq!['/'] + path::joined(parts, seq!['/']));
    }
}

proof fn lemma_named_with_lead(parts: Seq<Seq<char>>)
    requires
        is_plain(parts),
    ensures
        path::named(seq![Seq::<char>::empty()] + parts) == parts,
    decreases parts.len(),
{
    let all = seq![Seq::<char>::empty()] + parts;
    if parts.len() == 0 {
        assert(all.drop_last() =~= Seq::<Seq<char>>::empty());
        assert(all.last() == Seq::<char>::empty());
        assert(path::named(Seq::<Seq<char>>::empty()) =~= parts);
        assert(path::named(all) =~= parts);
    } else {
        let rest = parts.drop_last();
        assert forall|j: int| 0 <= j < rest.len() implies (#[trigger] rest[j]).len() > 0 && rest[j]
            != seq!['.'] && !rest[j].contains('/') by {
            assert(rest[j] == parts[j]);
        }
        lemma_named_with_lead(rest);
        assert(all.drop_last() =~= seq![Seq::<char>::empty()] + rest);
        assert(parts[parts.len() - 1].len() > 0);
        assert(rest.push(parts.last()) =~= parts);
    }
}

/// A relative path whose components are plain, lead nowhere upwards and name no
/// drive or stream is let through as it is.
pub proof fn law_plain_relative_paths_are_let_through(model: PathModel)
    requires
        !model.absolute,
        model.parts.len() > 0,
        is_plain(model.parts),
        !model.parts.contains(seq!['.', '.']),
        !model.text().contains(':'),
        !model.text().contains('\\'),
        !text::white(model.text()[0]),
        !text::white(model.text().last()),
    ensures
        path_safety::safe_relative_path(model.text()) == Ok::<PathModel, Seq<char>>(model),
{
    let s = model.text();
    law_trimmed_texts_stay(s);
    law_paths_read_back(model);
    lemma_joined_start(model.parts);
    assert(model.parts[0].len() > 0);
    assert(s[0] != '/') by {
        if s[0] == '/' {
            assert(model.parts[0].contains('/'));
        }
    }
    assert(s[0] != '\\') by {
        if s[0] == '\\' {
            assert(s.contains('\\'));
        }
    }
    assert(text::replaced(s, '\\', '/') =~= s) by {
        assert forall|i: int| 0 <= i < s.len() implies text::replaced(s, '\\', '/')[i] == s[i] by {
            if s[i] == '\\' {
                assert(s.contains('\\'));
            }
        }
    }
}

/// A path with a step upwards, a drive or a stream, or two separators in front,
/// or that names nothing, is refused.
pub proof fn law_unsafe_paths_are_refused(raw: Seq<char>)
    requires
        ({
            let trimmed = text::trimmed(raw);
            let plain = text::replaced(trimmed, '\\', '/');
            ||| trimmed.len() == 0
            ||| trimmed.contains(':')
            ||| plain.len() >= 2 && plain[0] == '/' && plain[1] == '/'
            ||| path::parsed(plain).parts.len() == 0
            ||| path::parsed(plain).parts.contains(seq!['.', '.'])
        }),
    ensures
        path_safety::safe_relative_path(raw) is Err,
{
    let trimmed = text::trimmed(raw);
    let plain = text::replaced(trimmed, '\\', '/');
    let rest = path_safety::slashed(path_safety::without_lead(trimmed));
    if trimmed.len() > 0 {
        if trimmed.contains(':') {
            let i = choose|i: int| 0 <= i < trimmed.len() && trimmed[i] == ':';
            if trimmed[0] == '/' || trimmed[0] == '\\' {
                assert(rest[i - 1] == ':');
            } else {
                assert(rest[i] == ':');
            }
        }
        if trimmed[0] == '/' || trimmed[0] == '\\' {
            assert(plain =~= seq!['/'] + rest);
            lemma_lead_is_dropped(rest);
        } else {
            assert(plain =~= rest);
        }
    }
}

proof fn lemma_lead_is_dropped(s: Seq<char>)
    ensures
        path::named(text::split_on(seq!['/'] + s, '/')) == path::named(text::split_on(s, '/')),
{
    law_pieces_make_up_the_text(s, '/');
    let pieces = text::split_on(s, '/');
    lemma_joined_with_lead(pieces);
    let all = seq![Seq::<char>::empty()] + pieces;
    assert forall|j: int| 0 <= j < all.len() implies !(#[trigger] all[j]).contains('/') by {
        if j > 0 {
            assert(all[j] == pieces[j - 1]);
        }
    }
    law_joined_pieces_split_again(all, '/');
    lemma_lead_names_nothing(pieces);
}

proof fn lemma_lead_names_nothing(pieces: Seq<Seq<char>>)
    ensures
        path::named(seq![Seq::<char>::empty()] + pieces) == path::named(pieces),
    decreases pieces.len(),
{
    let all = seq![Seq::<char>::empty()] + pieces;
    if pieces.len() == 0 {
        assert(all.drop_last() =~= pieces);
        assert(all.last() == Seq::<char>::empty());
        assert(path::named(all) =~= path::named(pieces));
    } else {
        lemma_lead_names_nothing(pieces.drop_last());
        assert(all.drop_last() =~= seq![Seq::<char>::empty()] + pieces.drop_last());
        assert(all.last() == pieces.last());
    }
}

/// A file is as it should be if and only if it is there, has the digest that was
/// wanted, in small or in capital letters, and has the size that was wanted,
/// where one was. What is wrong with it is told by the first of these that fails:
/// that it is there, its size, its digest.
pub proof fn law_files_are_judged_by_size_and_digest(
    observed: Option<Observed>,
    expected_md5: Seq<char>,
    expected_size: Option<u64>,
)
    ensures
        ({
            let there = observed is Some;
            let sized = there && (expected_size is None || expected_size == Some(
                observed->0.size,
            ));
            let whole = there && text::lowered(observed->0.md5@) == text::lowered(expected_md5);
            let found = verify::issue(observed, expected_md5, expected_size);
            &&& found is None <==> there && sized && whole
            &&& found == Some(IssueKind::Missing) <==> !there
            &&& found == Some(IssueKind::SizeMismatch) <==> there && !sized
            &&& found == Some(IssueKind::Md5Mismatch) <==> sized && !whole
        }),
{
}

} // verus!
