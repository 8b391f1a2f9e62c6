//! Scans a cargo workspace and emits facts.

use vstd::prelude::*;

use crate::anchored;
use crate::json::{self, Json, JsonV};
use crate::manifest::{self, Metadata, MetadataV, Package, PackageV, Target, TargetV};
use crate::prepass::{FactsV, PackageFacts, ParsedFile, ParsedV};
use crate::schema::{
    self, Edge, EdgeKind, EdgeV, Evidence, EvidenceV, Fact, FactV, Id, Node, NodeKind, NodeV,
};
use crate::table::{self, Table};
use crate::text::{self, Text};
use crate::tree;
use crate::vfs::{Vfs, VfsV};
use crate::visit::{self, FileVisitor};
use crate::wire;
use crate::writer::{LogV, Writer};
use crate::written::{self, Reader};

verus! {

pub struct Stats {
    pub packages: usize,
    pub files: usize,
    pub nodes: usize,
    pub edges: usize,
    pub unparsed: Vec<String>,
}

#[derive(Debug)]
pub enum ExtractError {
    Io(String),
    Metadata(String),
}

impl ExtractError {
    /// What went wrong, in words.
    pub fn message(&self) -> (s: String)
        ensures
            s@ == (match self {
                ExtractError::Io(e) => e@,
                ExtractError::Metadata(m) => "cargo metadata: "@ + m@,
            }),
    {
        match self {
            ExtractError::Io(e) => e.clone(),
            ExtractError::Metadata(m) => text::cat("cargo metadata: ", m.as_str()),
        }
    }
}

// --- paths -------------------------------------------------------------------

/// The directory a path sits in.
pub open spec fn parent(path: Text) -> Text {
    match text::cut_last(path, "/"@) {
        Some((dir, _)) => dir,
        None => seq![],
    }
}

pub fn parent_of(path: &str) -> (dir: String)
    ensures
        dir@ == parent(path@),
{
    match text::rsplit_once(path, "/") {
        Some((dir, _)) => dir,
        None => text::empty(),
    }
}

pub open spec fn inside(path: Text, dir: Text) -> bool {
    dir.len() == 0 || text::has_prefix(path, dir + "/"@)
}

pub fn is_inside(path: &str, dir: &str) -> (r: bool)
    ensures
        r == inside(path@, dir@),
{
    text::is_empty(dir) || text::starts_with(path, text::cat(dir, "/").as_str())
}

pub open spec fn joined(dir: Text, rest: Text) -> Text {
    if dir.len() == 0 {
        rest
    } else {
        dir + "/"@ + rest
    }
}

pub fn join(dir: &str, rest: &str) -> (path: String)
    ensures
        path@ == joined(dir@, rest@),
{
    if text::is_empty(dir) {
        rest.to_owned()
    } else {
        text::cat3(dir, "/", rest)
    }
}

/// The module a file is: `src/foo/bar.rs` is `foo::bar`, and `src/lib.rs`,
/// `src/main.rs` and `src/foo/mod.rs` are the module they live in.
pub open spec fn module_of(root: Text, path: Text) -> Text {
    match text::without_prefix(path, root + "/"@) {
        None => seq![],
        Some(rest) => {
            let parts = text::pieces(rest, "/"@);
            let stem = text::shorn_end(parts.last(), ".rs"@);
            text::joined(
                if stem == "lib"@ || stem == "main"@ || stem == "mod"@ {
                    parts.drop_last()
                } else {
                    parts.drop_last().push(stem)
                },
                "::"@,
            )
        },
    }
}

pub fn module_prefix(root: &str, path: &str) -> (module: String)
    ensures
        module@ == module_of(root@, path@),
{
    let rest = match text::strip_prefix(path, text::cat(root, "/").as_str()) {
        Some(rest) => rest,
        None => return text::empty(),
    };
    proof {
        reveal_strlit("/");
        reveal_strlit(".rs");
        text::lemma_pieces(rest@, "/"@);
    }
    let mut parts = text::split(rest.as_str(), "/");
    let ghost all = parts.deep_view();
    match parts.pop() {
        Some(last) => {
            assert(last@ == all.last());
            assert(parts.deep_view() =~= all.drop_last());
            let stem = text::trim_end_matches(last.as_str(), ".rs");
            if !text::same(stem.as_str(), "lib") && !text::same(stem.as_str(), "main")
                && !text::same(stem.as_str(), "mod") {
                text::push(&mut parts, stem);
            }
            text::join(&parts, "::")
        },
        None => text::empty(),
    }
}

// --- which files -------------------------------------------------------------

/// Whether a directory is among the roots.
pub open spec fn rooted(roots: Seq<(Text, bool)>, dir: Text) -> bool {
    exists|i: int| 0 <= i < roots.len() && (#[trigger] roots[i]).0 == dir
}

fn is_rooted(roots: &Vec<(String, bool)>, dir: &str) -> (r: bool)
    ensures
        r == rooted(roots.deep_view(), dir@),
{
    let mut i: usize = 0;
    while i < roots.len()
        invariant
            i <= roots.len(),
            forall|k: int| 0 <= k < i ==> (#[trigger] roots.deep_view()[k]).0 != dir@,
        decreases roots.len() - i,
    {
        assert(roots.deep_view()[i as int].0 == roots@[i as int].0@);
        if text::same(roots[i].0.as_str(), dir) {
            return true;
        }
        i += 1;
    }
    false
}

pub open spec fn is_test_kind(kind: Text) -> bool {
    kind == "test"@ || kind == "bench"@ || kind == "example"@
}

/// The directories of the first `n` targets. A build script commonly sits at
/// the root of the repository, which would then be this package's; it has none.
pub open spec fn roots_of(targets: Seq<TargetV>, n: nat) -> Seq<(Text, bool)>
    decreases n,
{
    if n == 0 {
        seq![]
    } else {
        let before = roots_of(targets, (n - 1) as nat);
        let target = targets[n - 1];
        let dir = parent(target.src_path);
        if target.kind == "custom-build"@ || rooted(before, dir) {
            before
        } else {
            before.push((dir, is_test_kind(target.kind)))
        }
    }
}

/// Where a package's sources live: with its targets, or in `src` where it has
/// none.
pub open spec fn source_roots_of(targets: Seq<TargetV>, dir: Text) -> Seq<(Text, bool)> {
    let roots = roots_of(targets, targets.len());
    if roots.len() == 0 {
        seq![(joined(dir, "src"@), false)]
    } else {
        roots
    }
}

pub fn source_roots(targets: &Vec<Target>, dir: &str) -> (roots: Vec<(String, bool)>)
    ensures
        roots.deep_view() == source_roots_of(targets.deep_view(), dir@),
{
    let mut roots: Vec<(String, bool)> = Vec::new();
    assert(roots.deep_view() =~= seq![]);
    let mut i: usize = 0;
    while i < targets.len()
        invariant
            i <= targets.len(),
            roots.deep_view() == roots_of(targets.deep_view(), i as nat),
        decreases targets.len() - i,
    {
        let target = &targets[i];
        assert(targets.deep_view()[i as int] == target.deep_view());
        let kind = target.kind.as_str();
        let there = parent_of(target.src_path.as_str());
        if !text::same(kind, "custom-build") && !is_rooted(&roots, there.as_str()) {
            let is_test = text::same(kind, "test") || text::same(kind, "bench") || text::same(
                kind,
                "example",
            );
            text::push(&mut roots, (there, is_test));
        }
        i += 1;
    }
    if roots.len() == 0 {
        text::push(&mut roots, (join(dir, "src"), false));
    }
    roots
}

/// A package's directory.
pub open spec fn dirs_of(packages: Seq<PackageV>) -> Seq<Text> {
    Seq::new(packages.len(), |i: int| parent(packages[i].manifest_path))
}

/// Those of the first `n` directories that lie inside another.
pub open spec fn nested_in(dirs: Seq<Text>, dir: Text, n: nat) -> Seq<Text>
    decreases n,
{
    if n == 0 {
        seq![]
    } else {
        let before = nested_in(dirs, dir, (n - 1) as nat);
        if dirs[n - 1] != dir && inside(dirs[n - 1], dir) {
            before.push(dirs[n - 1])
        } else {
            before
        }
    }
}

fn package_dirs(packages: &Vec<Package>) -> (dirs: Vec<String>)
    ensures
        dirs.deep_view() == dirs_of(packages.deep_view()),
{
    let ghost all = dirs_of(packages.deep_view());
    let mut dirs: Vec<String> = Vec::new();
    let mut i: usize = 0;
    while i < packages.len()
        invariant
            i <= packages.len(),
            all == dirs_of(packages.deep_view()),
            dirs.deep_view() == all.take(i as int),
        decreases packages.len() - i,
    {
        assert(packages.deep_view()[i as int] == packages@[i as int].deep_view());
        text::push(&mut dirs, parent_of(packages[i].manifest_path.as_str()));
        assert(dirs.deep_view() =~= all.take(i + 1));
        i += 1;
    }
    assert(dirs.deep_view() =~= all);
    dirs
}

fn nested_dirs(dirs: &Vec<String>, dir: &str) -> (out: Vec<String>)
    ensures
        out.deep_view() == nested_in(dirs.deep_view(), dir@, dirs@.len()),
{
    let mut out: Vec<String> = Vec::new();
    assert(out.deep_view() =~= seq![]);
    let mut i: usize = 0;
    while i < dirs.len()
        invariant
            i <= dirs.len(),
            out.deep_view() == nested_in(dirs.deep_view(), dir@, i as nat),
        decreases dirs.len() - i,
    {
        assert(dirs.deep_view()[i as int] == dirs@[i as int]@);
        if !text::same(dirs[i].as_str(), dir) && is_inside(dirs[i].as_str(), dir) {
            text::push(&mut out, dirs[i].clone());
        }
        i += 1;
    }
    out
}

/// A file that a package owns, and the root it was found under.
pub struct Owned {
    pub root: String,
    pub is_test: bool,
    pub path: String,
}

pub struct OwnedV {
    pub root: Text,
    pub is_test: bool,
    pub path: Text,
}

impl DeepView for Owned {
    type V = OwnedV;

    open spec fn deep_view(&self) -> OwnedV {
        OwnedV { root: self.root@, is_test: self.is_test, path: self.path@ }
    }
}

pub open spec fn owned(found: Seq<OwnedV>, path: Text) -> bool {
    exists|i: int| 0 <= i < found.len() && (#[trigger] found[i]).path == path
}

pub open spec fn in_nested(nested: Seq<Text>, path: Text) -> bool {
    exists|i: int| 0 <= i < nested.len() && inside(path, #[trigger] nested[i])
}

/// The files among the first `n` paths of one root.
pub open spec fn owned_under(
    found: Seq<OwnedV>,
    root: (Text, bool),
    nested: Seq<Text>,
    paths: Seq<Text>,
    n: nat,
) -> Seq<OwnedV>
    decreases n,
{
    if n == 0 {
        found
    } else {
        let before = owned_under(found, root, nested, paths, (n - 1) as nat);
        let path = paths[n - 1];
        if text::has_suffix(path, ".rs"@) && !in_nested(nested, path) && !owned(before, path) {
            before.push(OwnedV { root: root.0, is_test: root.1, path })
        } else {
            before
        }
    }
}

/// The files a package owns, under the first `n` of its roots: not those of a
/// package nested inside it, and each once though two roots overlap.
pub open spec fn files_under(
    vfs: VfsV,
    roots: Seq<(Text, bool)>,
    nested: Seq<Text>,
    n: nat,
) -> Seq<OwnedV>
    decreases n,
{
    if n == 0 {
        seq![]
    } else {
        let paths = vfs.under(roots[n - 1].0);
        owned_under(
            files_under(vfs, roots, nested, (n - 1) as nat),
            roots[n - 1],
            nested,
            paths,
            paths.len(),
        )
    }
}

fn is_owned(found: &Vec<Owned>, path: &str) -> (r: bool)
    ensures
        r == owned(found.deep_view(), path@),
{
    let mut i: usize = 0;
    while i < found.len()
        invariant
            i <= found.len(),
            forall|k: int| 0 <= k < i ==> (#[trigger] found.deep_view()[k]).path != path@,
        decreases found.len() - i,
    {
        assert(found.deep_view()[i as int].path == found@[i as int].path@);
        if text::same(found[i].path.as_str(), path) {
            return true;
        }
        i += 1;
    }
    false
}

fn is_nested(nested: &Vec<String>, path: &str) -> (r: bool)
    ensures
        r == in_nested(nested.deep_view(), path@),
{
    let mut i: usize = 0;
    while i < nested.len()
        invariant
            i <= nested.len(),
            forall|k: int| 0 <= k < i ==> !inside(path@, #[trigger] nested.deep_view()[k]),
        decreases nested.len() - i,
    {
        assert(nested.deep_view()[i as int] == nested@[i as int]@);
        if is_inside(path, nested[i].as_str()) {
            return true;
        }
        i += 1;
    }
    false
}

/// Which files a package owns, before any of them is read.
pub fn files_of(vfs: &Vfs, roots: &Vec<(String, bool)>, nested: &Vec<String>) -> (found: Vec<Owned>)
    ensures
        found.deep_view() == files_under(
            vfs.deep_view(),
            roots.deep_view(),
            nested.deep_view(),
            roots@.len(),
        ),
{
    let mut found: Vec<Owned> = Vec::new();
    assert(found.deep_view() =~= seq![]);
    let mut i: usize = 0;
    while i < roots.len()
        invariant
            i <= roots.len(),
            found.deep_view() == files_under(
                vfs.deep_view(),
                roots.deep_view(),
                nested.deep_view(),
                i as nat,
            ),
        decreases roots.len() - i,
    {
        let root = &roots[i];
        assert(roots.deep_view()[i as int] == (root.0@, root.1));
        let ghost start = found.deep_view();
        let paths = vfs.under(root.0.as_str());
        let mut j: usize = 0;
        while j < paths.len()
            invariant
                j <= paths.len(),
                found.deep_view() == owned_under(
                    start,
                    (root.0@, root.1),
                    nested.deep_view(),
                    paths.deep_view(),
                    j as nat,
                ),
            decreases paths.len() - j,
        {
            let path = &paths[j];
            assert(paths.deep_view()[j as int] == path@);
            if text::ends_with(path.as_str(), ".rs") && !is_nested(nested, path.as_str())
                && !is_owned(&found, path.as_str()) {
                text::push(
                    &mut found,
                    Owned { root: root.0.clone(), is_test: root.1, path: path.clone() },
                );
            }
            j += 1;
        }
        i += 1;
    }
    found
}

// --- parsing -----------------------------------------------------------------

/// The first `n` files, and what is wrong with those that cannot be parsed.
pub open spec fn parsed_of(vfs: VfsV, files: Seq<OwnedV>, n: nat) -> (Seq<ParsedV>, Seq<Text>)
    decreases n,
{
    if n == 0 {
        (seq![], seq![])
    } else {
        let (parsed, failures) = parsed_of(vfs, files, (n - 1) as nat);
        let file = files[n - 1];
        match vfs.read(file.path) {
            None => (parsed, failures),
            Some(source) => match tree::tree_read(source) {
                Ok(tree) => (
                    parsed.push(
                        ParsedV {
                            rel_path: file.path,
                            parsed: tree,
                            test_role: file.is_test,
                            module_prefix: module_of(file.root, file.path),
                        },
                    ),
                    failures,
                ),
                Err(e) => (parsed, failures.push(file.path + ": "@ + e)),
            },
        }
    }
}

pub open spec fn package_parsed(vfs: VfsV, roots: Seq<(Text, bool)>, nested: Seq<Text>) -> (
    Seq<ParsedV>,
    Seq<Text>,
) {
    let files = files_under(vfs, roots, nested, roots.len());
    parsed_of(vfs, files, files.len())
}

/// Parses every file under a package's source roots.
pub fn parse_package(vfs: &Vfs, roots: &Vec<(String, bool)>, nested: &Vec<String>) -> (out: (
    Vec<ParsedFile>,
    Vec<String>,
))
    ensures
        out.deep_view() == package_parsed(
            vfs.deep_view(),
            roots.deep_view(),
            nested.deep_view(),
        ),
{
    parse_package_watched(
        vfs,
        roots,
        nested,
        || {},
    )
}

/// The same, telling someone each time a file is about to be parsed.
pub fn parse_package_watched<F: Fn()>(
    vfs: &Vfs,
    roots: &Vec<(String, bool)>,
    nested: &Vec<String>,
    done: F,
) -> (out: (Vec<ParsedFile>, Vec<String>))
    requires
        call_requires(done, ()),
    ensures
        out.deep_view() == package_parsed(
            vfs.deep_view(),
            roots.deep_view(),
            nested.deep_view(),
        ),
{
    let mut parsed: Vec<ParsedFile> = Vec::new();
    let mut failures: Vec<String> = Vec::new();
    assert(parsed.deep_view() =~= seq![]);
    assert(failures.deep_view() =~= seq![]);
    let files = files_of(vfs, roots, nested);
    let mut i: usize = 0;
    while i < files.len()
        invariant
            i <= files.len(),
            call_requires(done, ()),
            (parsed.deep_view(), failures.deep_view()) == parsed_of(
                vfs.deep_view(),
                files.deep_view(),
                i as nat,
            ),
        decreases files.len() - i,
    {
        let file = &files[i];
        assert(files.deep_view()[i as int] == file.deep_view());
        if let Some(source) = vfs.read(file.path.as_str()) {
            done();
            match tree::read_tree(source.as_str()) {
                Ok(tree) => text::push(
                    &mut parsed,
                    ParsedFile {
                        module_prefix: module_prefix(file.root.as_str(), file.path.as_str()),
                        rel_path: file.path.clone(),
                        parsed: tree,
                        test_role: file.is_test,
                    },
                ),
                Err(e) => text::push(
                    &mut failures,
                    text::cat3(file.path.as_str(), ": ", e.as_str()),
                ),
            }
        }
        i += 1;
    }
    (parsed, failures)
}

/// The files of the first `n` packages, and what is wrong with the others.
pub open spec fn all_parsed(vfs: VfsV, packages: Seq<PackageV>, n: nat) -> (
    Seq<Seq<ParsedV>>,
    Seq<Text>,
)
    decreases n,
{
    if n == 0 {
        (seq![], seq![])
    } else {
        let (before, faults) = all_parsed(vfs, packages, (n - 1) as nat);
        let dir = parent(packages[n - 1].manifest_path);
        let dirs = dirs_of(packages);
        let (parsed, failures) = package_parsed(
            vfs,
            source_roots_of(packages[n - 1].targets, dir),
            nested_in(dirs, dir, dirs.len()),
        );
        (before.push(parsed), faults + failures)
    }
}

/// Parses a whole workspace, package by package. A package owns its directory
/// without any package nested inside it.
pub fn parse_all(vfs: &Vfs, metadata: &Metadata) -> (out: (Vec<Vec<ParsedFile>>, Vec<String>))
    ensures
        out.deep_view() == all_parsed(
            vfs.deep_view(),
            metadata.packages.deep_view(),
            metadata.packages@.len(),
        ),
{
    let packages = &metadata.packages;
    let dirs = package_dirs(packages);
    let mut all: Vec<Vec<ParsedFile>> = Vec::new();
    let mut faults: Vec<String> = Vec::new();
    assert(all.deep_view() =~= seq![]);
    assert(faults.deep_view() =~= seq![]);
    let mut i: usize = 0;
    while i < packages.len()
        invariant
            i <= packages.len(),
            dirs.deep_view() == dirs_of(packages.deep_view()),
            (all.deep_view(), faults.deep_view()) == all_parsed(
                vfs.deep_view(),
                packages.deep_view(),
                i as nat,
            ),
        decreases packages.len() - i,
    {
        let package = &packages[i];
        assert(packages.deep_view()[i as int] == package.deep_view());
        let dir = parent_of(package.manifest_path.as_str());
        let roots = source_roots(&package.targets, dir.as_str());
        let nested = nested_dirs(&dirs, dir.as_str());
        let (parsed, failures) = parse_package(vfs, &roots, &nested);
        text::push(&mut all, parsed);
        visit::append(&mut faults, &failures);
        i += 1;
    }
    (all, faults)
}

// --- dependencies ------------------------------------------------------------

/// Whether a manifest line declares a dependency.
pub open spec fn declares(line: Text, dep: Text) -> bool {
    let shown = text::trimmed_start(line);
    let after = text::trimmed_start(shown.skip(dep.len() as int));
    ||| text::has_prefix(shown, dep) && after.len() > 0 && (after[0] == '=' || after[0] == '.'
        || after[0] == ' ')
    ||| shown.len() > 0 && shown[0] == '[' && text::has_part(shown, dep)
}

fn is_declaring(line: &str, dep: &str) -> (r: bool)
    ensures
        r == declares(line@, dep@),
{
    let shown = text::trim_start(line);
    if let Some(rest) = text::strip_prefix(shown.as_str(), dep) {
        let after = text::to_chars(text::trim_start(rest.as_str()).as_str());
        if after.len() > 0 && (after[0] == '=' || after[0] == '.' || after[0] == ' ') {
            return true;
        }
    }
    let chars = text::to_chars(shown.as_str());
    chars.len() > 0 && chars[0] == '[' && text::contains(shown.as_str(), dep)
}

/// The first line, from the `i`th on, that declares a dependency.
pub open spec fn line_from(lines: Seq<Text>, dep: Text, i: nat) -> Option<nat>
    decreases lines.len() - i,
{
    if i >= lines.len() {
        None
    } else if declares(lines[i as int], dep) {
        Some(i + 1)
    } else {
        line_from(lines, dep, i + 1)
    }
}

/// The line of a manifest that declares a dependency, or the first.
pub open spec fn declared_at(source: Text, dep: Text) -> u32 {
    match line_from(text::lines_of(source), dep, 0) {
        Some(n) => if n <= u32::MAX {
            n as u32
        } else {
            u32::MAX
        },
        None => 1,
    }
}

fn manifest_line(source: &str, dep: &str) -> (n: u32)
    ensures
        n == declared_at(source@, dep@),
{
    let lines = text::lines(source);
    let mut i: usize = 0;
    while i < lines.len()
        invariant
            i <= lines.len(),
            lines.deep_view() == text::lines_of(source@),
            line_from(lines.deep_view(), dep@, 0) == line_from(lines.deep_view(), dep@, i as nat),
        decreases lines.len() - i,
    {
        assert(lines.deep_view()[i as int] == lines@[i as int]@);
        if is_declaring(lines[i].as_str(), dep) {
            if i < u32::MAX as usize {
                return i as u32 + 1;
            }
            return u32::MAX;
        }
        i += 1;
    }
    1
}

/// Package names as they are written in `use`, and their nodes.
pub open spec fn known_of(packages: Seq<PackageV>, n: nat) -> Seq<(Text, Text)>
    decreases n,
{
    if n == 0 {
        seq![]
    } else {
        table::put(
            known_of(packages, (n - 1) as nat),
            text::replaced(packages[n - 1].name, '-', "_"@),
            "pkg:"@ + packages[n - 1].name,
        )
    }
}

fn known_packages(packages: &Vec<Package>) -> (known: Table<Id>)
    ensures
        known.deep_view() == known_of(packages.deep_view(), packages@.len()),
{
    let mut known: Table<Id> = Table::new();
    let mut i: usize = 0;
    while i < packages.len()
        invariant
            i <= packages.len(),
            known.deep_view() == known_of(packages.deep_view(), i as nat),
        decreases packages.len() - i,
    {
        assert(packages.deep_view()[i as int] == packages@[i as int].deep_view());
        let name = packages[i].name.as_str();
        let _ = known.insert(text::replace(name, '-', "_"), Id::package(name));
        i += 1;
    }
    known
}

/// What a dependency is: a package of the workspace, or something outside it.
pub open spec fn dependency_id(known: Seq<(Text, Text)>, name: Text) -> Text {
    match table::lookup(known, text::replaced(name, '-', "_"@)) {
        Some(id) => id,
        None => "ext:"@ + name,
    }
}

/// The first `n` dependencies, each with the manifest line that declares it.
pub open spec fn depends(
    log: LogV,
    vfs: VfsV,
    package: PackageV,
    known: Seq<(Text, Text)>,
    n: nat,
) -> LogV
    decreases n,
{
    if n == 0 {
        log
    } else {
        let before = depends(log, vfs, package, known, (n - 1) as nat);
        let dep = package.dependencies[n - 1];
        let to = dependency_id(known, dep.name);
        let log = if text::has_prefix(to, "ext:"@) {
            before.node(visit::named(NodeKind::External, to, dep.name))
        } else {
            before
        };
        let source = match vfs.read(package.manifest_path) {
            Some(source) => source,
            None => seq![],
        };
        let line = declared_at(source, dep.name);
        log.edge(
            EdgeV::new(EdgeKind::DependsOn, "pkg:"@ + package.name, to).attr(
                "kind"@,
                JsonV::Str(dep.kind),
            ).evidence(
                schema::seen_at(schema::path_shown(package.manifest_path), (line, line), None),
            ),
        )
    }
}

fn emit_dependencies(out: &mut Writer, vfs: &Vfs, package: &Package, known: &Table<Id>)
    ensures
        final(out)@ == depends(
            old(out)@,
            vfs.deep_view(),
            package.deep_view(),
            known.deep_view(),
            package.dependencies@.len(),
        ),
{
    let ghost start = out@;
    let path = package.manifest_path.as_str();
    let source = match vfs.read(path) {
        Some(source) => source.clone(),
        None => text::empty(),
    };
    let deps = &package.dependencies;
    let mut i: usize = 0;
    while i < deps.len()
        invariant
            i <= deps.len(),
            *deps == package.dependencies,
            path@ == package.manifest_path@,
            source@ == (match vfs.deep_view().read(path@) {
                Some(source) => source,
                None => seq![],
            }),
            out@ == depends(
                start,
                vfs.deep_view(),
                package.deep_view(),
                known.deep_view(),
                i as nat,
            ),
        decreases deps.len() - i,
    {
        assert(package.deep_view().dependencies[i as int] == deps@[i as int].deep_view());
        let name = deps[i].name.as_str();
        let to = match known.get(text::replace(name, '-', "_").as_str()) {
            Some(id) => id.copy(),
            None => Id::external(name),
        };
        if text::starts_with(to.0.as_str(), "ext:") {
            out.node(visit::named_node(NodeKind::External, to.copy(), name));
        }
        let line: u32 = manifest_line(source.as_str(), name);
        out.edge(
            Edge::new(EdgeKind::DependsOn, Id::package(package.name.as_str()), to).attr(
                "kind",
                Json::str(deps[i].kind.as_str()),
            ).evidence(Evidence::at(schema::show_path(path).as_str(), line, line)),
        );
        i += 1;
    }
}

// --- writing it down ---------------------------------------------------------

/// Where a package is read: its manifest, at the line that names it.
pub open spec fn package_place(vfs: VfsV, manifest_path: Text) -> EvidenceV {
    let source = match vfs.read(manifest_path) {
        Some(source) => source,
        None => seq![],
    };
    let line = declared_at(source, "name"@);
    schema::seen_at(schema::path_shown(manifest_path), (line, line), None)
}

fn place_of_package(vfs: &Vfs, manifest_path: &str) -> (ev: Evidence)
    ensures
        ev.deep_view() == package_place(vfs.deep_view(), manifest_path@),
{
    let line: u32 = match vfs.read(manifest_path) {
        Some(source) => manifest_line(source.as_str(), "name"),
        None => manifest_line(text::empty().as_str(), "name"),
    };
    Evidence::at(schema::show_path(manifest_path).as_str(), line, line)
}

/// The last of so many lines, as far as can be counted. What has none is shown
/// by its first.
pub open spec fn last_line(lines: u64) -> u32 {
    if lines == 0 {
        1
    } else if lines <= u32::MAX {
        lines as u32
    } else {
        u32::MAX
    }
}

/// Where a file is read: all of its lines.
pub open spec fn file_place(vfs: VfsV, path: Text) -> EvidenceV {
    schema::seen_at(schema::path_shown(path), (1, last_line(lines_at(vfs, path))), None)
}

/// How many lines the file at a path has.
pub open spec fn lines_at(vfs: VfsV, path: Text) -> u64 {
    match vfs.read(path) {
        Some(source) => text::lines_of(source).len() as u64,
        None => 0,
    }
}

pub open spec fn file_node(vfs: VfsV, file: ParsedV) -> NodeV {
    let node = NodeV::new("file:"@ + file.rel_path, NodeKind::File).attr(
        "path"@,
        JsonV::Str(file.rel_path),
    ).attr("lines"@, JsonV::Whole(lines_at(vfs, file.rel_path)));
    if file.test_role {
        node.attr("role"@, JsonV::Str("test"@))
    } else {
        node
    }
}

pub open spec fn directory(id: Text, path: Text) -> NodeV {
    NodeV::new(id, NodeKind::Directory).attr("path"@, JsonV::Str(path))
}

/// One file: the directory it is in, itself, and what is in it.
pub open spec fn file_written(
    log: LogV,
    vfs: VfsV,
    package: Text,
    place: EvidenceV,
    file: ParsedV,
    known: Seq<(Text, Text)>,
    facts: FactsV,
) -> LogV {
    let dir = "dir:"@ + parent(file.rel_path);
    let log = log.node(directory(dir, text::shorn_start(dir, "dir:"@))).edge(
        EdgeV::new(EdgeKind::Contains, package, dir).evidence(place),
    ).node(file_node(vfs, file)).edge(
        EdgeV::new(EdgeKind::Contains, dir, "file:"@ + file.rel_path).evidence(
            file_place(vfs, file.rel_path),
        ),
    );
    visit::file_visited(log, visit::site_of(package, file, known, facts), file.parsed)
}

fn visit_file(
    out: &mut Writer,
    vfs: &Vfs,
    package: &Id,
    place: &Evidence,
    file: &ParsedFile,
    known: &Table<Id>,
    facts: &PackageFacts,
)
    ensures
        final(out)@ == file_written(
            old(out)@,
            vfs.deep_view(),
            package.0@,
            place.deep_view(),
            file.deep_view(),
            known.deep_view(),
            facts.deep_view(),
        ),
{
    proof {
        reveal_strlit("dir:");
    }
    let path = file.rel_path.as_str();
    let dir = Id::directory(parent_of(path).as_str());
    let shown = text::trim_start_matches(dir.0.as_str(), "dir:");
    out.node(Node::new(dir.copy(), NodeKind::Directory).attr("path", Json::Str(shown)));
    out.edge(
        Edge::new(EdgeKind::Contains, package.copy(), dir.copy()).evidence(place.copy()),
    );
    let lines: u64 = match vfs.read(path) {
        Some(source) => text::lines(source.as_str()).len() as u64,
        None => 0,
    };
    let id = Id::file(path);
    let node = Node::new(id.copy(), NodeKind::File).attr("path", Json::str(path)).attr(
        "lines",
        Json::Whole(lines),
    );
    let node = if file.test_role {
        node.attr("role", Json::str("test"))
    } else {
        node
    };
    out.node(node);
    let last: u32 = if lines == 0 {
        1
    } else if lines <= u32::MAX as u64 {
        lines as u32
    } else {
        u32::MAX
    };
    out.edge(
        Edge::new(EdgeKind::Contains, dir, id).evidence(
            Evidence::at(schema::show_path(path).as_str(), 1, last),
        ),
    );
    FileVisitor::new(package.copy(), known, facts).visit_file(out, file);
}

/// The programs among the first `n` targets.
pub open spec fn programs(
    log: LogV,
    package: Text,
    place: EvidenceV,
    targets: Seq<TargetV>,
    n: nat,
) -> LogV
    decreases n,
{
    if n == 0 {
        log
    } else {
        let before = programs(log, package, place, targets, (n - 1) as nat);
        let name = targets[n - 1].name;
        if targets[n - 1].kind == "bin"@ {
            before.node(visit::named(NodeKind::Binary, "bin:"@ + name, name)).edge(
                EdgeV::new(EdgeKind::Contains, package, "bin:"@ + name).evidence(place),
            )
        } else {
            before
        }
    }
}

fn emit_programs(out: &mut Writer, package: &Id, place: &Evidence, targets: &Vec<Target>)
    ensures
        final(out)@ == programs(
            old(out)@,
            package.0@,
            place.deep_view(),
            targets.deep_view(),
            targets@.len(),
        ),
{
    let ghost start = out@;
    let mut i: usize = 0;
    while i < targets.len()
        invariant
            i <= targets.len(),
            out@ == programs(start, package.0@, place.deep_view(), targets.deep_view(), i as nat),
        decreases targets.len() - i,
    {
        assert(targets.deep_view()[i as int] == targets@[i as int].deep_view());
        if text::same(targets[i].kind.as_str(), "bin") {
            let name = targets[i].name.as_str();
            let id = Id::binary(name);
            out.node(visit::named_node(NodeKind::Binary, id.copy(), name));
            out.edge(Edge::new(EdgeKind::Contains, package.copy(), id).evidence(place.copy()));
        }
        i += 1;
    }
}

pub open spec fn package_node(package: PackageV) -> NodeV {
    visit::named(NodeKind::Package, "pkg:"@ + package.name, package.name).attr(
        "version"@,
        JsonV::Str(package.version),
    )
}

/// The first `n` files of a package.
pub open spec fn files_written(
    log: LogV,
    vfs: VfsV,
    package: Text,
    place: EvidenceV,
    files: Seq<ParsedV>,
    known: Seq<(Text, Text)>,
    facts: FactsV,
    n: nat,
) -> LogV
    decreases n,
{
    if n == 0 {
        log
    } else {
        file_written(
            files_written(log, vfs, package, place, files, known, facts, (n - 1) as nat),
            vfs,
            package,
            place,
            files[n - 1],
            known,
            facts,
        )
    }
}

/// The files that were read for the first package of a name, from the `i`th
/// on.
pub open spec fn files_for(
    packages: Seq<PackageV>,
    files: Seq<Seq<ParsedV>>,
    name: Text,
    i: nat,
) -> Seq<ParsedV>
    decreases packages.len() - i,
{
    if i >= packages.len() || i >= files.len() {
        seq![]
    } else if packages[i as int].name == name {
        files[i as int]
    } else {
        files_for(packages, files, name, i + 1)
    }
}

/// A package: itself, its programs, what it depends on, its directory and its
/// files.
pub open spec fn package_written(
    log: LogV,
    vfs: VfsV,
    package: PackageV,
    files: Seq<ParsedV>,
    known: Seq<(Text, Text)>,
    facts: FactsV,
) -> LogV {
    let id = "pkg:"@ + package.name;
    let dir = parent(package.manifest_path);
    let place = package_place(vfs, package.manifest_path);
    let log = programs(
        log.node(package_node(package)),
        id,
        place,
        package.targets,
        package.targets.len(),
    );
    let log = depends(log, vfs, package, known, package.dependencies.len());
    let log = log.node(directory("dir:"@ + dir, dir)).edge(
        EdgeV::new(EdgeKind::Contains, id, "dir:"@ + dir).evidence(place),
    );
    files_written(log, vfs, id, place, files, known, facts, files.len())
}

/// The first `n` packages.
pub open spec fn packages_written(
    log: LogV,
    vfs: VfsV,
    packages: Seq<PackageV>,
    files: Seq<Seq<ParsedV>>,
    facts: FactsV,
    n: nat,
) -> LogV
    decreases n,
{
    if n == 0 {
        log
    } else {
        package_written(
            packages_written(log, vfs, packages, files, facts, (n - 1) as nat),
            vfs,
            packages[n - 1],
            files_for(packages, files, packages[n - 1].name, 0),
            known_of(packages, packages.len()),
            facts,
        )
    }
}

/// How many files the first `n` packages are written with, as far as can be
/// counted.
pub open spec fn files_counted(packages: Seq<PackageV>, files: Seq<Seq<ParsedV>>, n: nat) -> nat
    decreases n,
{
    if n == 0 {
        0
    } else {
        let total = files_counted(packages, files, (n - 1) as nat) + files_for(
            packages,
            files,
            packages[n - 1].name,
            0,
        ).len();
        if total <= usize::MAX {
            total
        } else {
            usize::MAX as nat
        }
    }
}

/// A workspace that has been read: what its manifests say, and the files of
/// each package in the order the packages have there.
pub struct Prepared {
    pub metadata: Metadata,
    pub files: Vec<Vec<ParsedFile>>,
    pub unparsed: Vec<String>,
}

/// What is written for a workspace.
pub open spec fn workspace_written(
    log: LogV,
    vfs: VfsV,
    packages: Seq<PackageV>,
    files: Seq<Seq<ParsedV>>,
    facts: FactsV,
) -> LogV {
    packages_written(
        log.fact(FactV::header("rust"@, vfs.label)),
        vfs,
        packages,
        files,
        facts,
        packages.len(),
    )
}

/// Reads the files of a workspace whose manifests were read.
pub fn prepare_with(vfs: &Vfs, metadata: Metadata) -> (prepared: Prepared)
    ensures
        prepared.metadata == metadata,
        (prepared.files.deep_view(), prepared.unparsed.deep_view()) == all_parsed(
            vfs.deep_view(),
            metadata.packages.deep_view(),
            metadata.packages@.len(),
        ),
{
    let (files, unparsed) = parse_all(vfs, &metadata);
    Prepared { metadata, files, unparsed }
}

impl Prepared {
    /// What the files say, before anything is followed across the workspace.
    pub fn gathered(&self) -> (facts: PackageFacts)
        ensures
            facts.deep_view() == FactsV::empty().packages(self.files.deep_view(), self.files.deep_view().len()),
    {
        PackageFacts::gather(&self.files)
    }

    fn files_at(&self, name: &str) -> (files: Option<&Vec<ParsedFile>>)
        ensures
            files_for(self.metadata.packages.deep_view(), self.files.deep_view(), name@, 0) == (match files {
                Some(files) => files.deep_view(),
                None => seq![],
            }),
    {
        let packages = &self.metadata.packages;
        let mut i: usize = 0;
        while i < packages.len() && i < self.files.len()
            invariant
                i <= packages.len(),
                i <= self.files.len(),
                *packages == self.metadata.packages,
                files_for(packages.deep_view(), self.files.deep_view(), name@, 0) == files_for(
                    packages.deep_view(),
                    self.files.deep_view(),
                    name@,
                    i as nat,
                ),
            decreases packages.len() - i,
        {
            assert(packages.deep_view()[i as int] == packages@[i as int].deep_view());
            if text::same(packages[i].name.as_str(), name) {
                return Some(&self.files[i]);
            }
            i += 1;
        }
        None
    }

    /// Writes down what is held, resolved against what every reader found.
    pub fn emit(&self, vfs: &Vfs, facts: &PackageFacts, out: &mut Writer) -> (stats: Stats)
        ensures
            final(out)@ == workspace_written(
                old(out)@,
                vfs.deep_view(),
                self.metadata.packages.deep_view(),
                self.files.deep_view(),
                facts.deep_view(),
            ),
            stats.packages == self.metadata.packages@.len(),
            stats.files == files_counted(
                self.metadata.packages.deep_view(),
                self.files.deep_view(),
                self.metadata.packages@.len(),
            ),
            stats.nodes == final(out)@.nodes,
            stats.edges == final(out)@.edges,
            stats.unparsed.deep_view() == self.unparsed.deep_view(),
    {
        out.fact(&Fact::header("rust", vfs.label.as_str()));
        let ghost start = out@;
        let packages = &self.metadata.packages;
        let known = known_packages(packages);
        let mut counted: usize = 0;
        let mut i: usize = 0;
        while i < packages.len()
            invariant
                i <= packages.len(),
                *packages == self.metadata.packages,
                known.deep_view() == known_of(packages.deep_view(), packages@.len()),
                counted == files_counted(packages.deep_view(), self.files.deep_view(), i as nat),
                out@ == packages_written(
                    start,
                    vfs.deep_view(),
                    packages.deep_view(),
                    self.files.deep_view(),
                    facts.deep_view(),
                    i as nat,
                ),
            decreases packages.len() - i,
        {
            let package = &packages[i];
            assert(packages.deep_view()[i as int] == package.deep_view());
            counted = self.emit_package(vfs, facts, &known, package, counted, out);
            i += 1;
        }
        Stats {
            packages: packages.len(),
            files: counted,
            nodes: out.nodes(),
            edges: out.edges(),
            unparsed: text::copy_list(&self.unparsed),
        }
    }

    fn emit_package(
        &self,
        vfs: &Vfs,
        facts: &PackageFacts,
        known: &Table<Id>,
        package: &Package,
        counted: usize,
        out: &mut Writer,
    ) -> (total: usize)
        ensures
            final(out)@ == package_written(
                old(out)@,
                vfs.deep_view(),
                package.deep_view(),
                files_for(
                    self.metadata.packages.deep_view(),
                    self.files.deep_view(),
                    package.name@,
                    0,
                ),
                known.deep_view(),
                facts.deep_view(),
            ),
            total == ({
                let all = counted + files_for(
                    self.metadata.packages.deep_view(),
                    self.files.deep_view(),
                    package.name@,
                    0,
                ).len();
                if all <= usize::MAX {
                    all
                } else {
                    usize::MAX as int
                }
            }),
    {
        let name = package.name.as_str();
        let id = Id::package(name);
        out.node(
            visit::named_node(NodeKind::Package, id.copy(), name).attr(
                "version",
                Json::str(package.version.as_str()),
            ),
        );
        let place = place_of_package(vfs, package.manifest_path.as_str());
        emit_programs(out, &id, &place, &package.targets);
        emit_dependencies(out, vfs, package, known);
        let dir = parent_of(package.manifest_path.as_str());
        let dir_id = Id::directory(dir.as_str());
        out.node(Node::new(dir_id.copy(), NodeKind::Directory).attr("path", Json::Str(dir)));
        out.edge(Edge::new(EdgeKind::Contains, id.copy(), dir_id).evidence(place.copy()));
        let files = match self.files_at(name) {
            Some(files) => files,
            None => return counted,
        };
        let ghost start = out@;
        let mut i: usize = 0;
        while i < files.len()
            invariant
                i <= files.len(),
                id.0@ == "pkg:"@ + name@,
                out@ == files_written(
                    start,
                    vfs.deep_view(),
                    id.0@,
                    place.deep_view(),
                    files.deep_view(),
                    known.deep_view(),
                    facts.deep_view(),
                    i as nat,
                ),
            decreases files.len() - i,
        {
            visit_file(out, vfs, &id, &place, &files[i], known, facts);
            i += 1;
        }
        if counted <= usize::MAX - files.len() {
            counted + files.len()
        } else {
            usize::MAX
        }
    }
}

/// Writes down a whole workspace: reads its manifests and its files, follows what
/// they say across all of them, and writes each package in turn. What is written
/// begins with its one header and has no node twice; every edge runs between
/// two of its nodes and shows where it was read; and all of it is plain, so that
/// its text reads back as it.
pub fn run(vfs: &Vfs) -> (out: Result<(Writer, Stats), ExtractError>)
    ensures
        match out {
            Ok((written, stats)) => {
                &&& manifest::metadata_of(vfs.deep_view()) is Ok
                &&& ({
                    let packages = manifest::metadata_of(vfs.deep_view())->Ok_0.packages;
                    let (files, unparsed) = all_parsed(
                        vfs.deep_view(),
                        packages,
                        packages.len(),
                    );
                    let facts = FactsV::empty().packages(files, files.len()).followed();
                    &&& written@ == workspace_written(
                        LogV::empty(),
                        vfs.deep_view(),
                        packages,
                        files,
                        facts,
                    )
                    &&& stats.packages == packages.len()
                    &&& stats.files == files_counted(packages, files, packages.len())
                    &&& stats.unparsed.deep_view() == unparsed
                })
                &&& anchored::begun(written@)
                &&& written@.facts[0] == FactV::header("rust"@, vfs.deep_view().label)
                &&& anchored::anchored(written@.facts)
                &&& anchored::joined(written@.facts)
                &&& forall|i: int|
                    0 <= i < written@.facts.len() ==> wire::fact_plain(
                        #[trigger] written@.facts[i],
                    )
                &&& forall|i: int, k: int|
                    0 <= i < written@.facts.len() && written@.facts[i] is Edge && 0 <= k
                        < written@.facts[i]->Edge_0.ev.len() ==> schema::is_shown(
                        #[trigger] written@.facts[i]->Edge_0.ev[k],
                    )
                &&& forall|i: int|
                    0 <= i < written@.facts.len() && (#[trigger] written@.facts[i]) is Edge
                        ==> written@.facts[i]->Edge_0.ev.len() > 0
                &&& stats.nodes == written@.nodes
                &&& stats.edges == written@.edges
            },
            Err(ExtractError::Metadata(e)) => manifest::metadata_of(vfs.deep_view()) == Err::<
                MetadataV,
                Text,
            >(e@),
            Err(ExtractError::Io(_)) => false,
        },
{
    let metadata = match manifest::read(vfs) {
        Ok(metadata) => metadata,
        Err(e) => return Err(ExtractError::Metadata(e)),
    };
    let prepared = prepare_with(vfs, metadata);
    let facts = PackageFacts::collect(&prepared.files);
    let mut out = Writer::new();
    let stats = prepared.emit(vfs, &facts, &mut out);
    proof {
        let reader = Reader {
            vfs: vfs.deep_view(),
            files: prepared.files.deep_view(),
            facts: facts.deep_view(),
        };
        let packages = prepared.metadata.deep_view().packages;
        anchored::lemma_hangs_together(reader, packages);
        written::lemma_every_claim_is_vouched_for(reader, packages);
        assert forall|i: int, k: int|
            0 <= i < out@.facts.len() && out@.facts[i] is Edge && 0 <= k
                < out@.facts[i]->Edge_0.ev.len() implies schema::is_shown(
            #[trigger] out@.facts[i]->Edge_0.ev[k],
        ) by {
            assert(written::vouched(out@.facts[i]->Edge_0));
        }
    }
    Ok((out, stats))
}

// --- what a package tells ----------------------------------------------------

/// A dependency leads to the package of the workspace that has its name, with
/// dashes and underscores taken for the same, and else to something outside by its
/// own name.
pub proof fn lemma_dependency_found(packages: Seq<PackageV>, n: nat, name: Text)
    requires
        n <= packages.len(),
    ensures
        ({
            let to = dependency_id(known_of(packages, n), name);
            let same = |i: int|
                0 <= i < n && text::replaced(packages[i].name, '-', "_"@) == text::replaced(
                    name,
                    '-',
                    "_"@,
                );
            &&& (exists|i: int| #[trigger] same(i)) ==> exists|i: int|
                #[trigger] same(i) && to == "pkg:"@ + packages[i].name
            &&& !(exists|i: int| #[trigger] same(i)) ==> to == "ext:"@ + name
        }),
    decreases n,
{
    let key = text::replaced(name, '-', "_"@);
    let same = |i: int| 0 <= i < n && text::replaced(packages[i].name, '-', "_"@) == key;
    if n > 0 {
        let m = (n - 1) as nat;
        lemma_dependency_found(packages, m, name);
        let less = |i: int| 0 <= i < m && text::replaced(packages[i].name, '-', "_"@) == key;
        let last = packages[n - 1].name;
        table::lemma_put_lookup(
            known_of(packages, m),
            text::replaced(last, '-', "_"@),
            "pkg:"@ + last,
            key,
        );
        if text::replaced(last, '-', "_"@) == key {
            assert(same(n - 1));
        } else {
            if exists|i: int| #[trigger] less(i) {
                let i = choose|i: int|
                    #[trigger] less(i) && dependency_id(known_of(packages, m), name) == "pkg:"@
                        + packages[i].name;
                assert(same(i));
            } else {
                assert forall|i: int| !(#[trigger] same(i)) by {
                    assert(!less(i));
                }
            }
        }
    }
}

/// A dependency is told as an edge from its package to what it leads to, with its
/// kind, at the line of the manifest that declares it.
pub proof fn lemma_dependency_told(
    log: LogV,
    vfs: VfsV,
    package: PackageV,
    known: Seq<(Text, Text)>,
    n: nat,
)
    requires
        0 < n <= package.dependencies.len(),
    ensures
        ({
            let after = depends(log, vfs, package, known, n);
            let dep = package.dependencies[n - 1];
            &&& after.facts.len() > 0
            &&& after.facts.last() matches FactV::Edge(e) && e.kind == EdgeKind::DependsOn && e.from
                == "pkg:"@ + package.name && e.to == dependency_id(known, dep.name)
                && table::lookup(e.attrs, "kind"@) == Some(JsonV::Str(dep.kind)) && e.ev.len() == 1
                && e.ev[0].file == schema::path_shown(package.manifest_path) && (vfs.read(
                package.manifest_path,
            ) matches Some(source) ==> e.ev[0].line.0 == declared_at(source, dep.name))
        }),
{
    let dep = package.dependencies[n - 1];
    json::lemma_with_field(seq![], "kind"@, JsonV::Str(dep.kind), "kind"@);
}

/// A dependency is declared at the first line that declares it.
pub proof fn lemma_declared_first(source: Text, dep: Text, first: int)
    requires
        0 <= first < text::lines_of(source).len() < u32::MAX,
        declares(text::lines_of(source)[first], dep),
        forall|i: int| 0 <= i < first ==> !declares(#[trigger] text::lines_of(source)[i], dep),
    ensures
        declared_at(source, dep) == first + 1,
{
    lemma_line_found(text::lines_of(source), dep, 0, first);
}

proof fn lemma_line_found(lines: Seq<Text>, dep: Text, i: nat, first: int)
    requires
        i <= first < lines.len(),
        declares(lines[first], dep),
        forall|k: int| i <= k < first ==> !declares(#[trigger] lines[k], dep),
    ensures
        line_from(lines, dep, i) == Some((first + 1) as nat),
    decreases first - i,
{
    if i < first {
        assert(!declares(lines[i as int], dep));
        lemma_line_found(lines, dep, i + 1, first);
    }
}

/// A file is a node with its path and its lines, marked where it is test code.
pub proof fn lemma_file_said(vfs: VfsV, file: ParsedV)
    ensures
        ({
            let node = file_node(vfs, file);
            &&& node.id == "file:"@ + file.rel_path && node.kind == NodeKind::File
            &&& table::lookup(node.attrs, "path"@) == Some(JsonV::Str(file.rel_path))
            &&& vfs.read(file.rel_path) matches Some(source) ==> table::lookup(
                node.attrs,
                "lines"@,
            ) == Some(JsonV::Whole(text::lines_of(source).len() as u64))
            &&& file.test_role ==> table::lookup(node.attrs, "role"@) == Some(JsonV::Str("test"@))
            &&& !file.test_role ==> table::lookup(node.attrs, "role"@) is None
        }),
{
    reveal_strlit("path");
    reveal_strlit("lines");
    reveal_strlit("role");
    assert("path"@[0] == 'p' && "role"@[0] == 'r' && "lines"@.len() == 5);
    let a0 = Seq::<(Text, JsonV)>::empty();
    let a1 = json::with_field(a0, "path"@, JsonV::Str(file.rel_path));
    let lines = JsonV::Whole(lines_at(vfs, file.rel_path));
    let a2 = json::with_field(a1, "lines"@, lines);
    json::lemma_with_field(a0, "path"@, JsonV::Str(file.rel_path), "path"@);
    json::lemma_with_field(a0, "path"@, JsonV::Str(file.rel_path), "role"@);
    json::lemma_with_field(a1, "lines"@, lines, "path"@);
    json::lemma_with_field(a1, "lines"@, lines, "lines"@);
    json::lemma_with_field(a1, "lines"@, lines, "role"@);
    json::lemma_with_field(a2, "role"@, JsonV::Str("test"@), "path"@);
    json::lemma_with_field(a2, "role"@, JsonV::Str("test"@), "lines"@);
    json::lemma_with_field(a2, "role"@, JsonV::Str("test"@), "role"@);
}

/// A package is a node with its name and its version.
pub proof fn lemma_package_said(package: PackageV)
    ensures
        ({
            let node = package_node(package);
            &&& node.id == "pkg:"@ + package.name && node.kind == NodeKind::Package
            &&& table::lookup(node.attrs, "name"@) == Some(JsonV::Str(package.name))
            &&& table::lookup(node.attrs, "version"@) == Some(JsonV::Str(package.version))
        }),
{
    reveal_strlit("name");
    reveal_strlit("version");
    assert("name"@.len() == 4 && "version"@.len() == 7);
    let a0 = Seq::<(Text, JsonV)>::empty();
    let a1 = json::with_field(a0, "name"@, JsonV::Str(package.name));
    json::lemma_with_field(a0, "name"@, JsonV::Str(package.name), "name"@);
    json::lemma_with_field(a1, "version"@, JsonV::Str(package.version), "name"@);
    json::lemma_with_field(a1, "version"@, JsonV::Str(package.version), "version"@);
}

/// A program is told as part of its package; a target that is none is not.
pub proof fn lemma_program_told(
    log: LogV,
    package: Text,
    place: EvidenceV,
    targets: Seq<TargetV>,
    n: nat,
)
    requires
        0 < n <= targets.len(),
    ensures
        ({
            let after = programs(log, package, place, targets, n);
            let target = targets[n - 1];
            &&& target.kind == "bin"@ ==> (after.facts.last() matches FactV::Edge(e) && e.kind
                == EdgeKind::Contains && e.from == package && e.to == "bin:"@ + target.name
                && e.ev == seq![place]) && after.seen.contains("bin:"@ + target.name)
            &&& target.kind != "bin"@ ==> after == programs(
                log,
                package,
                place,
                targets,
                (n - 1) as nat,
            )
        }),
{
    if targets[n - 1].kind == "bin"@ {
        assert(Seq::<EvidenceV>::empty().push(place) =~= seq![place]);
    }
}

proof fn lemma_owned_under(
    found: Seq<OwnedV>,
    root: (Text, bool),
    nested: Seq<Text>,
    paths: Seq<Text>,
    n: nat,
)
    requires
        n <= paths.len(),
    ensures
        ({
            let after = owned_under(found, root, nested, paths, n);
            &&& after.len() >= found.len()
            &&& forall|i: int| 0 <= i < found.len() ==> #[trigger] after[i] == found[i]
            &&& forall|i: int|
                found.len() <= i < after.len() ==> text::has_suffix(
                    (#[trigger] after[i]).path,
                    ".rs"@,
                ) && after[i].root == root.0 && after[i].is_test == root.1 && paths.contains(
                    after[i].path,
                ) && !in_nested(nested, after[i].path)
            &&& forall|k: int|
                0 <= k < n && text::has_suffix(#[trigger] paths[k], ".rs"@) && !in_nested(
                    nested,
                    paths[k],
                ) ==> owned(after, paths[k])
        }),
    decreases n,
{
    if n > 0 {
        lemma_owned_under(found, root, nested, paths, (n - 1) as nat);
        let before = owned_under(found, root, nested, paths, (n - 1) as nat);
        let after = owned_under(found, root, nested, paths, n);
        let path = paths[n - 1];
        assert(paths.contains(path));
        assert forall|k: int|
            0 <= k < n && text::has_suffix(#[trigger] paths[k], ".rs"@) && !in_nested(
                nested,
                paths[k],
            ) implies owned(after, paths[k]) by {
            if k < n - 1 {
                let i = choose|i: int|
                    0 <= i < before.len() && (#[trigger] before[i]).path == paths[k];
                assert(after[i].path == paths[k]);
            } else if !owned(before, path) {
                assert(after[before.len() as int].path == path);
            }
        }
    }
}

/// A package's sources are the Rust files under a root that no other package
/// nests, each once and as test code where the root is; and none is left out.
pub proof fn lemma_sources_found(
    vfs: VfsV,
    roots: Seq<(Text, bool)>,
    nested: Seq<Text>,
    n: nat,
)
    requires
        n <= roots.len(),
    ensures
        ({
            let found = files_under(vfs, roots, nested, n);
            &&& forall|i: int|
                0 <= i < found.len() ==> text::has_suffix((#[trigger] found[i]).path, ".rs"@)
                    && !in_nested(nested, found[i].path) && exists|r: int|
                    0 <= r < n && (#[trigger] roots[r]) == (found[i].root, found[i].is_test)
                        && vfs.under(roots[r].0).contains(found[i].path)
            &&& forall|r: int, path: Text|
                #![trigger roots[r], owned(found, path)]
                0 <= r < n && vfs.under(roots[r].0).contains(path) && text::has_suffix(
                    path,
                    ".rs"@,
                ) && !in_nested(nested, path) ==> owned(found, path)
        }),
    decreases n,
{
    if n > 0 {
        let m = (n - 1) as nat;
        lemma_sources_found(vfs, roots, nested, m);
        let before = files_under(vfs, roots, nested, m);
        let found = files_under(vfs, roots, nested, n);
        let root = roots[n - 1];
        let paths = vfs.under(root.0);
        lemma_owned_under(before, root, nested, paths, paths.len());
        assert forall|i: int| 0 <= i < found.len() implies text::has_suffix(
            (#[trigger] found[i]).path,
            ".rs"@,
        ) && !in_nested(nested, found[i].path) && exists|r: int|
            0 <= r < n && (#[trigger] roots[r]) == (found[i].root, found[i].is_test) && vfs.under(
                roots[r].0,
            ).contains(found[i].path) by {
            if i < before.len() {
                assert(found[i] == before[i]);
            } else {
                assert(roots[n - 1] == (found[i].root, found[i].is_test));
            }
        }
        assert forall|r: int, path: Text|
            #![trigger roots[r], owned(found, path)]
            0 <= r < n && vfs.under(roots[r].0).contains(path) && text::has_suffix(path, ".rs"@)
                && !in_nested(nested, path) implies owned(found, path) by {
            if r < m {
                assert(owned(before, path));
                let i = choose|i: int|
                    0 <= i < before.len() && (#[trigger] before[i]).path == path;
                assert(found[i] == before[i]);
                assert(found[i].path == path);
            } else {
                let k = choose|k: int| 0 <= k < paths.len() && paths[k] == path;
                assert(owned(found, paths[k]));
            }
        }
    }
}

/// A root is test code where the first target that has it is a test, a benchmark
/// or an example.
pub proof fn lemma_roots_found(targets: Seq<TargetV>, n: nat, first: int)
    requires
        0 <= first < n <= targets.len(),
        targets[first].kind != "custom-build"@,
        forall|j: int|
            0 <= j < first ==> parent((#[trigger] targets[j]).src_path) != parent(
                targets[first].src_path,
            ),
    ensures
        roots_of(targets, n).contains(
            (
                parent(targets[first].src_path),
                targets[first].kind == "test"@ || targets[first].kind == "bench"@
                    || targets[first].kind == "example"@,
            ),
        ),
    decreases n,
{
    let dir = parent(targets[first].src_path);
    let row = (
        dir,
        targets[first].kind == "test"@ || targets[first].kind == "bench"@ || targets[first].kind
            == "example"@,
    );
    let before = roots_of(targets, (n - 1) as nat);
    let after = roots_of(targets, n);
    if first < n - 1 {
        lemma_roots_found(targets, (n - 1) as nat, first);
        let i = choose|i: int| 0 <= i < before.len() && before[i] == row;
        assert(after[i] == row);
    } else {
        lemma_roots_from(targets, (n - 1) as nat);
        if rooted(before, dir) {
            let i = choose|i: int| 0 <= i < before.len() && (#[trigger] before[i]).0 == dir;
            assert(false);
        }
        assert(after[before.len() as int] == row);
    }
}

proof fn lemma_roots_from(targets: Seq<TargetV>, n: nat)
    requires
        n <= targets.len(),
    ensures
        forall|i: int|
            0 <= i < roots_of(targets, n).len() ==> exists|j: int|
                0 <= j < n && parent((#[trigger] targets[j]).src_path) == (#[trigger] roots_of(
                    targets,
                    n,
                )[i]).0,
    decreases n,
{
    if n > 0 {
        lemma_roots_from(targets, (n - 1) as nat);
        let before = roots_of(targets, (n - 1) as nat);
        let after = roots_of(targets, n);
        assert forall|i: int| 0 <= i < after.len() implies exists|j: int|
            0 <= j < n && parent((#[trigger] targets[j]).src_path) == (#[trigger] after[i]).0 by {
            if i < before.len() {
                assert(after[i] == before[i]);
            } else {
                assert(parent(targets[n - 1].src_path) == after[i].0);
            }
        }
    }
}

/// A package's files are those that were read for it.
pub proof fn lemma_own_files(
    packages: Seq<PackageV>,
    files: Seq<Seq<ParsedV>>,
    i: int,
)
    requires
        0 <= i < packages.len() == files.len(),
        forall|j: int| 0 <= j < i ==> (#[trigger] packages[j]).name != packages[i].name,
    ensures
        files_for(packages, files, packages[i].name, 0) == files[i],
{
    lemma_files_from(packages, files, i, 0);
}

proof fn lemma_files_from(packages: Seq<PackageV>, files: Seq<Seq<ParsedV>>, i: int, n: nat)
    requires
        n <= i < packages.len() == files.len(),
        forall|j: int| n <= j < i ==> (#[trigger] packages[j]).name != packages[i].name,
    ensures
        files_for(packages, files, packages[i].name, n) == files[i],
    decreases i - n,
{
    if n < i {
        lemma_files_from(packages, files, i, n + 1);
    }
}


/// A file under a source root is the module of its name; the root's own file is
/// none, and a folder's is the folder.
pub proof fn lemma_module_named(root: Text, folder: Text, stem: Text)
    requires
        !stem.contains('/'),
        !folder.contains('/'),
        !text::has_suffix(stem, ".rs"@),
    ensures
        stem != "lib"@ && stem != "main"@ && stem != "mod"@ ==> module_of(
            root,
            root + "/"@ + (stem + ".rs"@),
        ) == stem,
        stem == "lib"@ || stem == "main"@ ==> module_of(root, root + "/"@ + (stem + ".rs"@)).len()
            == 0,
        stem == "mod"@ ==> module_of(root, root + "/"@ + (folder + "/"@ + (stem + ".rs"@)))
            == folder,
        stem != "lib"@ && stem != "main"@ && stem != "mod"@ ==> module_of(
            root,
            root + "/"@ + (folder + "/"@ + (stem + ".rs"@)),
        ) == folder + "::"@ + stem,
{
    let file = stem + ".rs"@;
    reveal_strlit(".rs");
    assert(!file.contains('/')) by {
        if file.contains('/') {
            let i = choose|i: int| 0 <= i < file.len() && file[i] == '/';
            if i < stem.len() {
                assert(stem[i] == '/');
            }
        }
    }
    assert(file.subrange(stem.len() as int, file.len() as int) =~= ".rs"@);
    assert(file.take(stem.len() as int) =~= stem);
    reveal_with_fuel(text::shorn_end, 3);
    assert(text::shorn_end(file, ".rs"@) == stem);
    text::lemma_pieces_front(file, seq![]);
    text::lemma_pieces_front(folder, file);
    let head = root + "/"@;
    let one = head + file;
    let two = head + (folder + "/"@ + file);
    assert(one.subrange(0, head.len() as int) =~= head);
    assert(one.skip(head.len() as int) =~= file);
    assert(two.subrange(0, head.len() as int) =~= head);
    assert(two.skip(head.len() as int) =~= folder + "/"@ + file);
    let pair = text::pieces(folder + "/"@ + file, "/"@);
    assert(pair =~= seq![folder, file]);
    assert(seq![file].drop_last() =~= seq![]);
    assert(pair.drop_last() =~= seq![folder]);
    assert(seq![file].drop_last().push(stem) =~= seq![stem]);
    assert(pair.drop_last().push(stem) =~= seq![folder, stem]);
    reveal_with_fuel(text::joined, 3);
    assert(seq![folder, stem].drop_last() =~= seq![folder]);
}

}
