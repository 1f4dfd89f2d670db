//! File paths as lists of components.

use crate::text;
use vstd::prelude::*;

verus! {

/// A path in the mathematical model: whether it starts at the root, and the
/// names on the way.
#[verifier::ext_equal]
pub struct PathModel {
    pub absolute: bool,
    pub parts: Seq<Seq<char>>,
}

/// Texts with one separator between each two.
pub open spec fn joined(parts: Seq<Seq<char>>, separator: Seq<char>) -> Seq<char>
    decreases parts.len(),
{
    if parts.len() == 0 {
        Seq::empty()
    } else if parts.len() == 1 {
        parts[0]
    } else {
        joined(parts.drop_last(), separator) + separator + parts.last()
    }
}

impl PathModel {
    /// The path as text, with `/` between the components.
    pub open spec fn text(self) -> Seq<char> {
        if self.absolute {
            seq!['/'] + joined(self.parts, seq!['/'])
        } else {
            joined(self.parts, seq!['/'])
        }
    }

    /// What `path` names when it is read below `self`.
    pub open spec fn join(self, path: PathModel) -> PathModel {
        if path.absolute {
            path
        } else {
            PathModel { absolute: self.absolute, parts: self.parts + path.parts }
        }
    }

    /// The path of an entry of the directory.
    pub open spec fn child(self, name: Seq<char>) -> PathModel {
        PathModel { absolute: self.absolute, parts: self.parts.push(name) }
    }

    /// The directory that holds the path.
    pub open spec fn parent(self) -> Option<PathModel> {
        if self.parts.len() == 0 {
            None
        } else {
            Some(PathModel { absolute: self.absolute, parts: self.parts.drop_last() })
        }
    }

    /// The last component, unless it leads upwards.
    pub open spec fn file_name(self) -> Option<Seq<char>> {
        if self.parts.len() == 0 || self.parts.last() == seq!['.', '.'] {
            None
        } else {
            Some(self.parts.last())
        }
    }

    /// Whether the components of `base` come first.
    pub open spec fn starts_with(self, base: PathModel) -> bool {
        &&& self.absolute == base.absolute
        &&& base.parts.len() <= self.parts.len()
        &&& self.parts.take(base.parts.len() as int) == base.parts
    }

    /// What is left of the path below `base`.
    pub open spec fn below(self, base: PathModel) -> PathModel {
        PathModel { absolute: false, parts: self.parts.skip(base.parts.len() as int) }
    }
}

/// The place of the last dot of a name.
pub open spec fn last_dot(name: Seq<char>) -> Option<int>
    decreases name.len(),
{
    if name.len() == 0 {
        None
    } else if name.last() == '.' {
        Some(name.len() - 1)
    } else {
        last_dot(name.drop_last())
    }
}

/// A name without its extension. A leading dot starts no extension.
pub open spec fn stem(name: Seq<char>) -> Seq<char> {
    match last_dot(name) {
        Some(at) => if at > 0 {
            name.take(at)
        } else {
            name
        },
        None => name,
    }
}

impl PathModel {
    /// The path with another extension.
    pub open spec fn with_extension(self, extension: Seq<char>) -> PathModel {
        match self.file_name() {
            Some(name) => PathModel {
                absolute: self.absolute,
                parts: self.parts.drop_last().push(stem(name) + "."@ + extension),
            },
            None => self,
        }
    }
}

/// The pieces that name something: neither empty nor a single dot.
pub open spec fn named(pieces: Seq<Seq<char>>) -> Seq<Seq<char>>
    decreases pieces.len(),
{
    if pieces.len() == 0 {
        Seq::empty()
    } else if pieces.last() == Seq::<char>::empty() || pieces.last() == seq!['.'] {
        named(pieces.drop_last())
    } else {
        named(pieces.drop_last()).push(pieces.last())
    }
}

/// The path that a text with `/` between the components names.
pub open spec fn parsed(s: Seq<char>) -> PathModel {
    PathModel {
        absolute: s.len() > 0 && s[0] == '/',
        parts: named(text::split_on(s, '/')),
    }
}

/// A path. Components are kept as they are given; nothing is resolved against
/// a disk.
#[derive(Debug)]
pub struct FilePath {
    pub absolute: bool,
    pub parts: Vec<String>,
}

impl View for FilePath {
    type V = PathModel;

    open spec fn view(&self) -> PathModel {
        PathModel { absolute: self.absolute, parts: text::texts(self.parts@) }
    }
}

/// Texts with one separator between each two.
pub fn join_texts(list: &Vec<String>, separator: &str) -> (out: String)
    ensures
        out@ == joined(text::texts(list@), separator@),
{
    let mut out = String::new();
    let mut k: usize = 0;
    let ghost all = text::texts(list@);
    assert(all.take(0).len() == 0);
    while k < list.len()
        invariant
            k <= list@.len(),
            all == text::texts(list@),
            out@ == joined(all.take(k as int), separator@),
        decreases list@.len() - k,
    {
        if k > 0 {
            text::push_text(&mut out, separator);
        }
        text::push_text(&mut out, list[k].as_str());
        proof {
            let more = all.take(k + 1);
            assert(more.drop_last() =~= all.take(k as int));
            assert(more.last() == list@[k as int]@);
            assert(out@ =~= joined(more, separator@));
        }
        k = k + 1;
    }
    assert(all.take(k as int) =~= all);
    out
}

/// A name without its extension.
fn stem_of(name: &str) -> (out: String)
    ensures
        out@ == stem(name@),
{
    let chars = text::chars_of(name);
    let n = chars.len();
    let mut k: usize = n;
    assert(name@.take(n as int) =~= name@);
    while k > 0
        invariant
            chars@ == name@,
            n == name@.len(),
            k <= n,
            last_dot(name@) == last_dot(name@.take(k as int)),
        decreases k,
    {
        proof {
            assert(name@.take(k as int).drop_last() =~= name@.take(k - 1));
            assert(name@.take(k as int).last() == name@[k - 1]);
        }
        k = k - 1;
        if chars[k] == '.' {
            if k > 0 {
                assert(chars@.subrange(0, k as int) =~= name@.take(k as int));
                return text::text_of(&chars, 0, k);
            }
            return name.to_owned();
        }
    }
    name.to_owned()
}

/// Copies a list of strings.
pub fn copy_texts(list: &Vec<String>) -> (copy: Vec<String>)
    ensures
        copy@ == list@,
        text::texts(copy@) == text::texts(list@),
{
    let mut copy: Vec<String> = Vec::new();
    let mut k: usize = 0;
    while k < list.len()
        invariant
            k <= list@.len(),
            copy@ == list@.take(k as int),
        decreases list@.len() - k,
    {
        copy.push(list[k].clone());
        assert(copy@ =~= list@.take(k + 1));
        k = k + 1;
    }
    assert(copy@ =~= list@);
    copy
}

/// The pieces that name something.
pub fn named_pieces(pieces: &Vec<String>) -> (parts: Vec<String>)
    ensures
        text::texts(parts@) == named(text::texts(pieces@)),
{
    let mut parts: Vec<String> = Vec::new();
    let mut k: usize = 0;
    let ghost all = text::texts(pieces@);
    proof {
        reveal_strlit("");
        reveal_strlit(".");
        assert(""@ =~= Seq::<char>::empty());
        assert("."@ =~= seq!['.']);
        assert(all.take(0).len() == 0);
        assert(text::texts(parts@) =~= named(all.take(0)));
    }
    while k < pieces.len()
        invariant
            k <= pieces@.len(),
            all == text::texts(pieces@),
            ""@ == Seq::<char>::empty(),
            "."@ == seq!['.'],
            text::texts(parts@) == named(all.take(k as int)),
        decreases pieces@.len() - k,
    {
        proof {
            assert(all.take(k + 1).drop_last() =~= all.take(k as int));
            assert(all.take(k + 1).last() == pieces@[k as int]@);
        }
        if !text::same_text(pieces[k].as_str(), "") && !text::same_text(pieces[k].as_str(), ".") {
            let ghost before = parts@;
            parts.push(pieces[k].clone());
            assert(text::texts(parts@) =~= text::texts(before).push(pieces@[k as int]@));
        }
        k = k + 1;
    }
    assert(all.take(k as int) =~= all);
    parts
}

impl FilePath {
    /// The empty relative path.
    pub fn empty() -> (path: FilePath)
        ensures
            path@ == (PathModel { absolute: false, parts: Seq::empty() }),
    {
        let path = FilePath { absolute: false, parts: Vec::new() };
        assert(path@.parts =~= Seq::empty());
        path
    }

    /// The path that a text with `/` between the components names. Empty
    /// components and single dots are left out.
    pub fn parse(source: &str) -> (path: FilePath)
        ensures
            path@ == parsed(source@),
    {
        let chars = text::chars_of(source);
        let absolute = chars.len() > 0 && chars[0] == '/';
        let pieces = text::split_text(source, '/');
        let parts = named_pieces(&pieces);
        FilePath { absolute, parts }
    }

    pub fn copied(&self) -> (copy: FilePath)
        ensures
            copy@ == self@,
    {
        FilePath { absolute: self.absolute, parts: copy_texts(&self.parts) }
    }

    /// The path as text, with `/` between the components.
    pub fn text(&self) -> (out: String)
        ensures
            out@ == self@.text(),
    {
        let mut out = String::new();
        if self.absolute {
            out.push('/');
        }
        let ghost lead = out@;
        let mut k: usize = 0;
        assert(text::texts(self.parts@).take(0).len() == 0);
        assert(out@ =~= lead + joined(text::texts(self.parts@).take(0), seq!['/']));
        while k < self.parts.len()
            invariant
                k <= self.parts@.len(),
                out@ == lead + joined(text::texts(self.parts@).take(k as int), seq!['/']),
            decreases self.parts@.len() - k,
        {
            let ghost all = text::texts(self.parts@);
            if k > 0 {
                out.push('/');
            }
            text::push_text(&mut out, self.parts[k].as_str());
            proof {
                let more = all.take(k + 1);
                assert(more.drop_last() =~= all.take(k as int));
                assert(more.last() == self.parts@[k as int]@);
                assert(out@ =~= lead + joined(more, seq!['/']));
            }
            k = k + 1;
        }
        proof {
            assert(text::texts(self.parts@).take(k as int) =~= self@.parts);
            if self.absolute {
                assert(lead =~= seq!['/']);
            } else {
                assert(out@ =~= joined(self@.parts, seq!['/']));
            }
        }
        out
    }

    /// What `path` names when it is read below this one.
    pub fn join(&self, path: &FilePath) -> (out: FilePath)
        ensures
            out@ == self@.join(path@),
    {
        if path.absolute {
            return path.copied();
        }
        let mut parts = copy_texts(&self.parts);
        let mut more = copy_texts(&path.parts);
        parts.append(&mut more);
        let out = FilePath { absolute: self.absolute, parts };
        assert(out@.parts =~= self@.parts + path@.parts);
        out
    }

    /// The path of an entry of the directory.
    pub fn child(&self, name: &str) -> (out: FilePath)
        ensures
            out@ == self@.child(name@),
    {
        let mut parts = copy_texts(&self.parts);
        parts.push(name.to_owned());
        let out = FilePath { absolute: self.absolute, parts };
        assert(out@.parts =~= self@.parts.push(name@));
        out
    }

    /// The directory that holds the path.
    pub fn parent(&self) -> (out: Option<FilePath>)
        ensures
            match out {
                Some(p) => self@.parent() == Some(p@),
                None => self@.parent() is None,
            },
    {
        if self.parts.len() == 0 {
            return None;
        }
        let mut parts = copy_texts(&self.parts);
        parts.pop();
        let out = FilePath { absolute: self.absolute, parts };
        assert(out@.parts =~= self@.parts.drop_last());
        Some(out)
    }

    /// The last component, unless it leads upwards.
    pub fn file_name(&self) -> (out: Option<&String>)
        ensures
            match out {
                Some(name) => self@.file_name() == Some(name@),
                None => self@.file_name() is None,
            },
    {
        let n = self.parts.len();
        if n == 0 {
            return None;
        }
        proof {
            reveal_strlit("..");
            assert(".."@ =~= seq!['.', '.']);
        }
        if text::same_text(self.parts[n - 1].as_str(), "..") {
            return None;
        }
        Some(&self.parts[n - 1])
    }

    /// The path with another extension.
    pub fn with_extension(&self, extension: &str) -> (out: FilePath)
        ensures
            out@ == self@.with_extension(extension@),
    {
        let mut name = match self.file_name() {
            Some(name) => stem_of(name.as_str()),
            None => {
                return self.copied();
            },
        };
        text::push_text(&mut name, ".");
        text::push_text(&mut name, extension);
        let mut parts = copy_texts(&self.parts);
        parts.pop();
        parts.push(name);
        let out = FilePath { absolute: self.absolute, parts };
        assert(out@.parts =~= self@.parts.drop_last().push(name@));
        out
    }

    /// Whether the components of `base` come first.
    pub fn starts_with(&self, base: &FilePath) -> (yes: bool)
        ensures
            yes == self@.starts_with(base@),
    {
        if self.absolute != base.absolute || self.parts.len() < base.parts.len() {
            return false;
        }
        let mut k: usize = 0;
        while k < base.parts.len()
            invariant
                k <= base.parts@.len() <= self.parts@.len(),
                forall|j: int| 0 <= j < k ==> self@.parts[j] == base@.parts[j],
            decreases base.parts@.len() - k,
        {
            if !text::same_string(&self.parts[k], &base.parts[k]) {
                proof {
                    assert(self@.parts.take(base@.parts.len() as int)[k as int] == self@.parts[
                        k as int]);
                    assert(self@.parts[k as int] != base@.parts[k as int]);
                }
                return false;
            }
            k = k + 1;
        }
        assert(self@.parts.take(base@.parts.len() as int) =~= base@.parts);
        true
    }

    /// What is left of the path below `base`, where it lies there.
    pub fn strip_prefix(&self, base: &FilePath) -> (out: Option<FilePath>)
        ensures
            match out {
                Some(rest) => self@.starts_with(base@) && rest@ == self@.below(base@),
                None => !self@.starts_with(base@),
            },
    {
        if !self.starts_with(base) {
            return None;
        }
        let mut parts: Vec<String> = Vec::new();
        let mut k: usize = base.parts.len();
        while k < self.parts.len()
            invariant
                base.parts@.len() <= k <= self.parts@.len(),
                parts@ == self.parts@.subrange(base.parts@.len() as int, k as int),
            decreases self.parts@.len() - k,
        {
            parts.push(self.parts[k].clone());
            k = k + 1;
            assert(parts@ =~= self.parts@.subrange(base.parts@.len() as int, k as int));
        }
        let out = FilePath { absolute: false, parts };
        assert(out@.parts =~= self@.parts.skip(base@.parts.len() as int));
        Some(out)
    }

    /// Whether two paths are the same.
    pub fn same(&self, other: &FilePath) -> (same: bool)
        ensures
            same == (self@ == other@),
    {
        if self.absolute != other.absolute {
            return false;
        }
        if self.parts.len() != other.parts.len() {
            assert(self@.parts.len() != other@.parts.len());
            return false;
        }
        let mut k: usize = self.parts.len();
        while k > 0
            invariant
                k <= self.parts@.len(),
                self.parts@.len() == other.parts@.len(),
                forall|j: int| k <= j < self.parts@.len() ==> self@.parts[j] == other@.parts[j],
            decreases k,
        {
            k = k - 1;
            if !text::same_string(&self.parts[k], &other.parts[k]) {
                assert(self@.parts[k as int] != other@.parts[k as int]);
                return false;
            }
        }
        assert(self@.parts =~= other@.parts);
        true
    }
}

/// Joining a path below a directory and stripping the directory again gives
/// the path back.
pub proof fn law_strip_undoes_join(base: PathModel, path: PathModel)
    requires
        !path.absolute,
    ensures
        base.join(path).starts_with(base),
        base.join(path).below(base) == path,
{
    assert(base.join(path).parts.take(base.parts.len() as int) =~= base.parts);
    assert(base.join(path).parts.skip(base.parts.len() as int) =~= path.parts);
}

/// A child lies in the directory that it was made for, under its name.
pub proof fn law_child_lies_in_its_directory(base: PathModel, name: Seq<char>)
    requires
        name != seq!['.', '.'],
    ensures
        base.child(name).parent() == Some(base),
        base.child(name).file_name() == Some(name),
        base.child(name).starts_with(base),
{
    assert(base.child(name).parts.drop_last() =~= base.parts);
    assert(base.child(name).parts.take(base.parts.len() as int) =~= base.parts);
}

} // verus!
