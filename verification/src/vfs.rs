//! A snapshot of the files being analysed, held in memory.
//!
//! Analysis never touches a filesystem. Whatever does the reading fills one of
//! these first, and everything after that is pure.

use vstd::prelude::*;

use crate::table::{self, Table};
use crate::text::{self, Text};

verus! {

pub struct FileEntry {
    pub content: String,
    /// The git object id of this content, when it came from git.
    pub blob: Option<String>,
}

pub struct FileV {
    pub content: Text,
    pub blob: Option<Text>,
}

impl DeepView for FileEntry {
    type V = FileV;

    open spec fn deep_view(&self) -> FileV {
        FileV { content: self.content@, blob: self.blob.deep_view() }
    }
}

/// The files, and what they were a snapshot of. Paths are relative to the root
/// of the snapshot and use forward slashes.
pub struct Vfs {
    pub label: String,
    pub files: Table<FileEntry>,
}

pub struct VfsV {
    pub label: Text,
    pub files: Seq<(Text, FileV)>,
}

impl DeepView for Vfs {
    type V = VfsV;

    open spec fn deep_view(&self) -> VfsV {
        VfsV { label: self.label@, files: self.files.deep_view() }
    }
}

/// Windows separators and a leading `./` are spelling, not structure.
pub open spec fn normal(path: Text) -> Text {
    text::shorn_start(text::shorn_start(text::replaced(path, '\\', "/"@), "./"@), "/"@)
}

fn normalise(path: &str) -> (out: String)
    ensures
        out@ == normal(path@),
{
    proof {
        reveal_strlit("/");
        reveal_strlit("./");
    }
    let p = text::replace(path, '\\', "/");
    let p = text::trim_start_matches(p.as_str(), "./");
    text::trim_start_matches(p.as_str(), "/")
}

/// The paths of files.
pub open spec fn paths_of(files: Seq<(Text, FileV)>) -> Seq<Text> {
    Seq::new(files.len(), |i: int| files[i].0)
}

/// What every path inside a directory begins with.
pub open spec fn folder(prefix: Text) -> Text {
    let p = normal(prefix);
    if p.len() == 0 {
        p
    } else {
        text::shorn_end(p, "/"@) + "/"@
    }
}

/// The paths among the first `n` that begin with a text.
pub open spec fn beginning(paths: Seq<Text>, start: Text, n: nat) -> Seq<Text>
    decreases n,
{
    if n == 0 {
        seq![]
    } else {
        let before = beginning(paths, start, (n - 1) as nat);
        if text::has_prefix(paths[n - 1], start) {
            before.push(paths[n - 1])
        } else {
            before
        }
    }
}

/// How many bytes a character takes.
pub open spec fn width(c: char) -> nat {
    if (c as u32) < 0x80 {
        1
    } else if (c as u32) < 0x800 {
        2
    } else if (c as u32) < 0x10000 {
        3
    } else {
        4
    }
}

pub open spec fn bytes_in(s: Text) -> nat
    decreases s.len(),
{
    if s.len() == 0 {
        0
    } else {
        bytes_in(s.drop_last()) + width(s.last())
    }
}

/// The bytes of the first `n` files.
pub open spec fn bytes_of(files: Seq<(Text, FileV)>, n: nat) -> nat
    decreases n,
{
    if n == 0 {
        0
    } else {
        bytes_of(files, (n - 1) as nat) + bytes_in(files[n - 1].1.content)
    }
}

impl VfsV {
    pub open spec fn empty(label: Text) -> VfsV {
        VfsV { label, files: seq![] }
    }

    pub open spec fn with(self, path: Text, content: Text, blob: Option<Text>) -> VfsV {
        VfsV {
            files: table::put(self.files, normal(path), FileV { content, blob }),
            ..self
        }
    }

    pub open spec fn read(self, path: Text) -> Option<Text> {
        match table::lookup(self.files, normal(path)) {
            Some(f) => Some(f.content),
            None => None,
        }
    }

    pub open spec fn paths(self) -> Seq<Text> {
        paths_of(self.files)
    }

    pub open spec fn under(self, prefix: Text) -> Seq<Text> {
        beginning(self.paths(), folder(prefix), self.paths().len())
    }
}

/// What was put under a path is read there under every spelling of it, and
/// nothing else is changed.
pub proof fn lemma_read_back(vfs: VfsV, path: Text, content: Text, blob: Option<Text>, other: Text)
    requires
        table::ordered(vfs.files),
    ensures
        table::ordered(vfs.with(path, content, blob).files),
        vfs.with(path, content, blob).read(other) == (if normal(other) == normal(path) {
            Some(content)
        } else {
            vfs.read(other)
        }),
{
    table::lemma_put_ordered(vfs.files, normal(path), FileV { content, blob });
    table::lemma_put_lookup(vfs.files, normal(path), FileV { content, blob }, normal(other));
}

impl Vfs {
    pub fn new(label: &str) -> (vfs: Vfs)
        ensures
            vfs.deep_view() == VfsV::empty(label@),
    {
        Vfs { label: label.to_owned(), files: Table::new() }
    }

    pub fn insert(&mut self, path: &str, content: &str)
        ensures
            final(self).deep_view() == old(self).deep_view().with(path@, content@, None),
    {
        let entry = FileEntry { content: content.to_owned(), blob: None };
        let _ = self.files.insert(normalise(path), entry);
    }

    pub fn insert_blob(&mut self, path: &str, content: &str, blob: &str)
        ensures
            final(self).deep_view() == old(self).deep_view().with(path@, content@, Some(blob@)),
    {
        let entry = FileEntry { content: content.to_owned(), blob: Some(blob.to_owned()) };
        let _ = self.files.insert(normalise(path), entry);
    }

    pub fn read(&self, path: &str) -> (content: Option<&String>)
        ensures
            content.deep_view() == self.deep_view().read(path@),
    {
        match self.files.get(normalise(path).as_str()) {
            Some(f) => Some(&f.content),
            None => None,
        }
    }

    pub fn contains(&self, path: &str) -> (r: bool)
        ensures
            r == (self.deep_view().read(path@) is Some),
    {
        self.files.contains(normalise(path).as_str())
    }

    pub fn len(&self) -> (n: usize)
        ensures
            n == self.deep_view().files.len(),
    {
        self.files.len()
    }

    pub fn is_empty(&self) -> (r: bool)
        ensures
            r == (self.deep_view().files.len() == 0),
    {
        self.files.is_empty()
    }

    /// Every path, in order.
    pub fn paths(&self) -> (out: Vec<String>)
        ensures
            out.deep_view() == self.deep_view().paths(),
            table::ordered(self.deep_view().files),
    {
        let mut out: Vec<String> = Vec::new();
        let mut i: usize = 0;
        let end: usize = self.files.len();
        let ghost all = self.deep_view().paths();
        while i < end
            invariant
                i <= end == self.files.deep_view().len(),
                all == paths_of(self.files.deep_view()),
                out.deep_view() == all.take(i as int),
            decreases end - i,
        {
            text::push(&mut out, self.files.name_at(i).clone());
            assert(out.deep_view() =~= all.take(i + 1));
            i += 1;
        }
        assert(out.deep_view() =~= all);
        out
    }

    /// Every path inside a directory, at any depth.
    pub fn under(&self, prefix: &str) -> (out: Vec<String>)
        ensures
            out.deep_view() == self.deep_view().under(prefix@),
    {
        let start = start_of(prefix);
        let ghost all = self.deep_view().paths();
        let mut out: Vec<String> = Vec::new();
        let mut i: usize = 0;
        let end: usize = self.files.len();
        assert(out.deep_view() =~= seq![]);
        while i < end
            invariant
                i <= end == self.files.deep_view().len(),
                all == paths_of(self.files.deep_view()),
                out.deep_view() == beginning(all, start@, i as nat),
            decreases end - i,
        {
            let path = self.files.name_at(i);
            if text::starts_with(path.as_str(), start.as_str()) {
                text::push(&mut out, path.clone());
            }
            i += 1;
        }
        out
    }

    /// How many bytes the files hold together.
    pub fn total_bytes(&self) -> (n: usize)
        requires
            bytes_of(self.deep_view().files, self.deep_view().files.len()) <= usize::MAX,
        ensures
            n == bytes_of(self.deep_view().files, self.deep_view().files.len()),
    {
        let mut n: usize = 0;
        let mut i: usize = 0;
        let end: usize = self.files.len();
        let ghost all = self.files.deep_view();
        while i < end
            invariant
                i <= end == all.len(),
                all == self.files.deep_view(),
                bytes_of(all, all.len()) <= usize::MAX,
                n == bytes_of(all, i as nat),
            decreases end - i,
        {
            proof {
                lemma_bytes_grow(all, (i + 1) as nat, all.len());
            }
            n = n + bytes(self.files.value_at(i).content.as_str());
            i += 1;
        }
        n
    }
}

pub(crate) fn start_of(prefix: &str) -> (out: String)
    ensures
        out@ == folder(prefix@),
{
    proof {
        reveal_strlit("/");
    }
    let p = normalise(prefix);
    if text::to_chars(p.as_str()).len() == 0 {
        p
    } else {
        text::cat(text::trim_end_matches(p.as_str(), "/").as_str(), "/")
    }
}

/// Every path that is kept begins as asked.
pub proof fn lemma_beginning(paths: Seq<Text>, start: Text, n: nat)
    ensures
        forall|i: int|
            0 <= i < beginning(paths, start, n).len() ==> text::has_prefix(
                #[trigger] beginning(paths, start, n)[i],
                start,
            ),
    decreases n,
{
    if n > 0 {
        let before = beginning(paths, start, (n - 1) as nat);
        let after = beginning(paths, start, n);
        lemma_beginning(paths, start, (n - 1) as nat);
        assert forall|i: int| 0 <= i < after.len() implies text::has_prefix(
            #[trigger] after[i],
            start,
        ) by {
            if i < before.len() {
                assert(after[i] == before[i]);
                assert(text::has_prefix(before[i], start));
            }
        }
    }
}

proof fn lemma_bytes_grow(files: Seq<(Text, FileV)>, m: nat, n: nat)
    requires
        m <= n,
    ensures
        bytes_of(files, m) <= bytes_of(files, n),
    decreases n,
{
    if m < n {
        lemma_bytes_grow(files, m, (n - 1) as nat);
    }
}

proof fn lemma_width_grow(s: Text, n: int)
    requires
        0 <= n <= s.len(),
    ensures
        bytes_in(s.take(n)) <= bytes_in(s),
    decreases s.len(),
{
    if n < s.len() {
        lemma_width_grow(s.drop_last(), n);
        assert(s.drop_last().take(n) =~= s.take(n));
    } else {
        assert(s.take(n) =~= s);
    }
}

pub(crate) fn char_width(c: char) -> (n: usize)
    ensures
        n == width(c),
{
    let code: u32 = c as u32;
    if code < 0x80 {
        1
    } else if code < 0x800 {
        2
    } else if code < 0x10000 {
        3
    } else {
        4
    }
}

fn bytes(s: &str) -> (n: usize)
    requires
        bytes_in(s@) <= usize::MAX,
    ensures
        n == bytes_in(s@),
{
    let chars = text::to_chars(s);
    let mut n: usize = 0;
    let mut i: usize = 0;
    while i < chars.len()
        invariant
            i <= chars.len(),
            chars@ == s@,
            bytes_in(s@) <= usize::MAX,
            n == bytes_in(s@.take(i as int)),
        decreases chars.len() - i,
    {
        proof {
            lemma_width_grow(s@, i + 1);
            assert(s@.take(i + 1).drop_last() =~= s@.take(i as int));
        }
        n = n + char_width(chars[i]);
        i += 1;
    }
    assert(s@.take(i as int) =~= s@);
    n
}

/// Whether a text takes fewer bytes than a number.
pub(crate) fn shorter_than(s: &str, limit: usize) -> (r: bool)
    ensures
        r == (bytes_in(s@) < limit),
{
    let chars = text::to_chars(s);
    let mut n: usize = 0;
    let mut i: usize = 0;
    while i < chars.len()
        invariant
            i <= chars.len(),
            chars@ == s@,
            n == bytes_in(s@.take(i as int)),
            i > 0 ==> n < limit,
        decreases chars.len() - i,
    {
        proof {
            lemma_width_grow(s@, i + 1);
            assert(s@.take(i + 1).drop_last() =~= s@.take(i as int));
        }
        let wide: usize = char_width(chars[i]);
        if n >= limit || limit - n <= wide {
            return false;
        }
        n = n + wide;
        i += 1;
    }
    assert(s@.take(i as int) =~= s@);
    n < limit
}

/// What a snapshot is worth carrying: the manifests that describe the
/// workspace, the lockfile that pins it, and the code itself.
pub fn is_interesting(path: &str) -> (r: bool)
    ensures
        r == (text::has_suffix(path@, ".rs"@) || text::has_suffix(path@, "/Cargo.toml"@) || path@
            == "Cargo.toml"@ || text::has_suffix(path@, "/Cargo.lock"@) || path@ == "Cargo.lock"@),
{
    text::ends_with(path, ".rs") || text::ends_with(path, "/Cargo.toml") || text::same(
        path,
        "Cargo.toml",
    ) || text::ends_with(path, "/Cargo.lock") || text::same(path, "Cargo.lock")
}

/// Directories that hold build output or history rather than source.
pub fn is_ignored_dir(name: &str) -> (r: bool)
    ensures
        r == (name@ == "target"@ || name@ == ".git"@ || name@ == "node_modules"@
            || text::has_prefix(name@, ".target"@)),
{
    text::same(name, "target") || text::same(name, ".git") || text::same(name, "node_modules")
        || text::starts_with(name, ".target")
}

/// What is under a directory are the paths that begin as it does, all of them and
/// in their order.
pub proof fn lemma_all_under(paths: Seq<Text>, start: Text, n: nat)
    requires
        n <= paths.len(),
    ensures
        beginning(paths, start, n) == paths.take(n as int).filter(
            |path: Text| text::has_prefix(path, start),
        ),
    decreases n,
{
    reveal(Seq::filter);
    if n > 0 {
        lemma_all_under(paths, start, (n - 1) as nat);
        assert(paths.take(n as int).drop_last() =~= paths.take(n - 1));
        assert(paths.take(n as int).last() == paths[n - 1]);
    } else {
        assert(paths.take(0) =~= seq![]);
    }
}

}
