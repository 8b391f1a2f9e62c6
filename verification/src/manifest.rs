//! Reading a cargo workspace out of a snapshot.
//!
//! Members, versions, targets and dependencies are all written in the
//! manifests, so the manifests are what is read. Feature resolution is left
//! out: nothing here depends on it.

use vstd::prelude::*;

use crate::settings::{self, Toml, TomlV};
use crate::table::{self, Table};
use crate::text::{self, Text};
use crate::vfs::{self, Vfs, VfsV};

verus! {

pub struct Target {
    pub name: String,
    pub kind: String,
    pub src_path: String,
}

pub struct TargetV {
    pub name: Text,
    pub kind: Text,
    pub src_path: Text,
}

impl DeepView for Target {
    type V = TargetV;

    open spec fn deep_view(&self) -> TargetV {
        TargetV { name: self.name@, kind: self.kind@, src_path: self.src_path@ }
    }
}

pub struct Dependency {
    pub name: String,
    pub kind: String,
}

pub struct DependencyV {
    pub name: Text,
    pub kind: Text,
}

impl DeepView for Dependency {
    type V = DependencyV;

    open spec fn deep_view(&self) -> DependencyV {
        DependencyV { name: self.name@, kind: self.kind@ }
    }
}

pub struct Package {
    pub name: String,
    pub version: String,
    pub manifest_path: String,
    pub targets: Vec<Target>,
    pub dependencies: Vec<Dependency>,
}

pub struct PackageV {
    pub name: Text,
    pub version: Text,
    pub manifest_path: Text,
    pub targets: Seq<TargetV>,
    pub dependencies: Seq<DependencyV>,
}

impl DeepView for Package {
    type V = PackageV;

    open spec fn deep_view(&self) -> PackageV {
        PackageV {
            name: self.name@,
            version: self.version@,
            manifest_path: self.manifest_path@,
            targets: self.targets.deep_view(),
            dependencies: self.dependencies.deep_view(),
        }
    }
}

/// The packages of a workspace, and the exact version of everything in the
/// resolved tree, named by a manifest or not.
pub struct Metadata {
    pub packages: Vec<Package>,
    pub lock: Table<String>,
}

pub struct MetadataV {
    pub packages: Seq<PackageV>,
    pub lock: Seq<(Text, Text)>,
}

impl DeepView for Metadata {
    type V = MetadataV;

    open spec fn deep_view(&self) -> MetadataV {
        MetadataV { packages: self.packages.deep_view(), lock: self.lock.deep_view() }
    }
}

// --- paths -------------------------------------------------------------------

/// A path inside a directory.
pub open spec fn joined(dir: Text, rest: Text) -> Text {
    let rest = text::shorn_start(rest, "./"@);
    if dir.len() == 0 {
        rest
    } else {
        text::shorn_end(dir, "/"@) + "/"@ + rest
    }
}

pub(crate) fn join(dir: &str, rest: &str) -> (out: String)
    ensures
        out@ == joined(dir@, rest@),
{
    proof {
        reveal_strlit("./");
        reveal_strlit("/");
    }
    let rest = text::trim_start_matches(rest, "./");
    if text::is_empty(dir) {
        rest
    } else {
        text::cat3(text::trim_end_matches(dir, "/").as_str(), "/", rest.as_str())
    }
}

/// The parts of a path after one more segment.
pub open spec fn stepped(parts: Seq<Text>, segment: Text) -> Seq<Text> {
    if segment.len() == 0 || segment == "."@ {
        parts
    } else if segment == ".."@ {
        if parts.len() == 0 {
            parts
        } else {
            parts.drop_last()
        }
    } else {
        parts.push(segment)
    }
}

pub open spec fn walked(parts: Seq<Text>, segments: Seq<Text>, n: nat) -> Seq<Text>
    decreases n,
{
    if n == 0 {
        parts
    } else {
        stepped(walked(parts, segments, (n - 1) as nat), segments[n - 1])
    }
}

/// A relative path taken from a directory, honouring `..`.
pub open spec fn resolved(dir: Text, rel: Text) -> Text {
    let start = if dir.len() == 0 {
        seq![]
    } else {
        text::pieces(dir, "/"@)
    };
    let segments = text::pieces(text::replaced(rel, '\\', "/"@), "/"@);
    text::joined(walked(start, segments, segments.len()), "/"@)
}

/// Whether a path climbs above where everything is, by one of its first `n`
/// segments.
pub open spec fn climbs(parts: Seq<Text>, segments: Seq<Text>, n: nat) -> bool
    decreases n,
{
    n > 0 && (climbs(parts, segments, (n - 1) as nat) || segments[n - 1] == ".."@ && walked(
        parts,
        segments,
        (n - 1) as nat,
    ).len() == 0)
}

/// Whether a relative path taken from a directory leaves the snapshot.
pub open spec fn leaves(dir: Text, rel: Text) -> bool {
    let start = if dir.len() == 0 {
        seq![]
    } else {
        text::pieces(dir, "/"@)
    };
    let segments = text::pieces(text::replaced(rel, '\\', "/"@), "/"@);
    climbs(start, segments, segments.len())
}

/// Takes a relative path from a directory, and says whether it leaves the
/// snapshot on its way.
fn resolve(dir: &str, rel: &str) -> (out: (String, bool))
    ensures
        out.0@ == resolved(dir@, rel@),
        out.1 == leaves(dir@, rel@),
{
    proof {
        reveal_strlit("/");
    }
    let parts: Vec<String> = if text::is_empty(dir) {
        let none: Vec<String> = Vec::new();
        assert(none.deep_view() =~= seq![]);
        none
    } else {
        text::split(dir, "/")
    };
    let flat = text::replace(rel, '\\', "/");
    let (parts, left) = walk(parts, &text::split(flat.as_str(), "/"));
    (text::join(&parts, "/"), left)
}

fn walk(start: Vec<String>, segments: &Vec<String>) -> (out: (Vec<String>, bool))
    ensures
        out.0.deep_view() == walked(start.deep_view(), segments.deep_view(), segments@.len()),
        out.1 == climbs(start.deep_view(), segments.deep_view(), segments@.len()),
{
    let mut parts = start;
    let mut left = false;
    let mut i: usize = 0;
    while i < segments.len()
        invariant
            i <= segments.len(),
            parts.deep_view() == walked(start.deep_view(), segments.deep_view(), i as nat),
            left == climbs(start.deep_view(), segments.deep_view(), i as nat),
        decreases segments.len() - i,
    {
        let segment = &segments[i];
        assert(segments.deep_view()[i as int] == segment@);
        proof {
            reveal_strlit(".");
            reveal_strlit("..");
        }
        if text::is_empty(segment.as_str()) || text::same(segment.as_str(), ".") {
        } else if text::same(segment.as_str(), "..") {
            let ghost before = parts.deep_view();
            if parts.len() > 0 {
                let _ = parts.pop();
                assert(parts.deep_view() =~= before.drop_last());
            } else {
                left = true;
            }
        } else {
            text::push(&mut parts, segment.clone());
        }
        i += 1;
    }
    (parts, left)
}

/// What a target found at a path is called.
pub open spec fn stem_of(path: Text) -> Text {
    let file = text::tail_after(path, "/"@);
    if file == "main.rs"@ {
        text::tail_after(text::shorn_end(path, "/main.rs"@), "/"@)
    } else {
        text::shorn_end(file, ".rs"@)
    }
}

fn stem(path: &str) -> (out: String)
    ensures
        out@ == stem_of(path@),
{
    proof {
        reveal_strlit("/main.rs");
        reveal_strlit(".rs");
    }
    let file = text::after_last(path, "/");
    if text::same(file.as_str(), "main.rs") {
        return text::after_last(text::trim_end_matches(path, "/main.rs").as_str(), "/");
    }
    text::trim_end_matches(file.as_str(), ".rs")
}

// --- targets -----------------------------------------------------------------

/// Whether cargo would find a target in a file at this place in its folder:
/// `foo.rs`, or `foo/main.rs`.
pub open spec fn discoverable(rest: Text) -> bool {
    let depth = text::count_of(rest, '/');
    (depth == 0 && text::has_suffix(rest, ".rs"@)) || (depth == 1 && text::has_suffix(
        rest,
        "/main.rs"@,
    ))
}

pub open spec fn found_among(paths: Seq<Text>, start: nat, n: nat) -> Seq<Text>
    decreases n,
{
    if n == 0 {
        seq![]
    } else {
        let before = found_among(paths, start, (n - 1) as nat);
        if discoverable(paths[n - 1].skip(start as int)) {
            before.push(paths[n - 1])
        } else {
            before
        }
    }
}

/// The files cargo would pick up by itself in a folder.
pub open spec fn auto_of(vfs: VfsV, folder: Text) -> Seq<Text> {
    let paths = vfs.under(folder);
    found_among(paths, vfs::folder(folder).len(), paths.len())
}

fn auto(vfs: &Vfs, folder: &str) -> (found: Vec<String>)
    ensures
        found.deep_view() == auto_of(vfs.deep_view(), folder@),
{
    let mut found: Vec<String> = Vec::new();
    let paths = vfs.under(folder);
    let start = vfs::start_of(folder);
    let cut: usize = text::to_chars(start.as_str()).len();
    let mut i: usize = 0;
    assert(found.deep_view() =~= seq![]);
    proof {
        vfs::lemma_beginning(
            vfs.deep_view().paths(),
            vfs::folder(folder@),
            vfs.deep_view().paths().len(),
        );
    }
    while i < paths.len()
        invariant
            i <= paths.len(),
            cut == start@.len(),
            forall|k: int|
                0 <= k < paths.len() ==> text::has_prefix(
                    #[trigger] paths.deep_view()[k],
                    start@,
                ),
            found.deep_view() == found_among(paths.deep_view(), cut as nat, i as nat),
        decreases paths.len() - i,
    {
        let path = &paths[i];
        assert(paths.deep_view()[i as int] == path@);
        let chars = text::to_chars(path.as_str());
        let rest = text::slice(&chars, cut, chars.len());
        assert(rest@ =~= path@.skip(cut as int));
        let depth: usize = text::count(rest.as_str(), '/');
        if (depth == 0 && text::ends_with(rest.as_str(), ".rs")) || (depth == 1 && text::ends_with(
            rest.as_str(),
            "/main.rs",
        )) {
            text::push(&mut found, path.clone());
        }
        i += 1;
    }
    found
}

/// The targets with one more. A file that is not there is no target, and a
/// file declared and then discovered is still one.
pub open spec fn added(
    vfs: VfsV,
    out: Seq<TargetV>,
    name: Text,
    kind: Text,
    path: Text,
) -> Seq<TargetV> {
    if vfs.read(path) is Some && !exists|i: int|
        0 <= i < out.len() && (#[trigger] out[i]).src_path == path {
        out.push(TargetV { name, kind, src_path: path })
    } else {
        out
    }
}

fn add_target(vfs: &Vfs, out: &mut Vec<Target>, name: &str, kind: &str, path: String)
    ensures
        final(out).deep_view() == added(
            vfs.deep_view(),
            old(out).deep_view(),
            name@,
            kind@,
            path@,
        ),
{
    if !vfs.contains(path.as_str()) {
        return;
    }
    let mut i: usize = 0;
    while i < out.len()
        invariant
            i <= out.len(),
            *out == *old(out),
            forall|k: int| 0 <= k < i ==> (#[trigger] out.deep_view()[k]).src_path != path@,
        decreases out.len() - i,
    {
        if text::same(out[i].src_path.as_str(), path.as_str()) {
            assert(out.deep_view()[i as int].src_path == path@);
            return;
        }
        i += 1;
    }
    let target = Target { name: name.to_owned(), kind: kind.to_owned(), src_path: path };
    text::push(out, target);
}

/// The name of a declared target.
pub open spec fn entry_name(entry: TomlV, package: Text) -> Text {
    match settings::string(settings::under(Some(entry), "name"@)) {
        Some(name) => name,
        None => package,
    }
}

/// The file of a target whose usual place is known.
pub open spec fn entry_path(entry: TomlV, dir: Text, usual: Text) -> Text {
    match settings::string(settings::under(Some(entry), "path"@)) {
        Some(path) => joined(dir, path),
        None => joined(dir, usual),
    }
}

fn name_of_entry(entry: &Toml, package: &str) -> (name: String)
    ensures
        name@ == entry_name(entry.deep_view(), package@),
{
    match settings::str_in(entry.get("name")) {
        Some(name) => name,
        None => package.to_owned(),
    }
}

fn path_of_entry(entry: &Toml, dir: &str, usual: &str) -> (path: String)
    ensures
        path@ == entry_path(entry.deep_view(), dir@, usual@),
{
    match settings::str_in(entry.get("path")) {
        Some(path) => join(dir, path.as_str()),
        None => join(dir, usual),
    }
}

/// Where a declared target that names no file is found: where one of its name
/// would be discovered.
pub open spec fn usual_path(
    vfs: VfsV,
    dir: Text,
    package: Text,
    folder: Text,
    kind: Text,
    name: Text,
) -> Text {
    let file = folder + "/"@ + name + ".rs"@;
    let main = folder + "/"@ + name + "/main.rs"@;
    if vfs.read(joined(dir, file)) is Some {
        file
    } else if vfs.read(joined(dir, main)) is Some {
        main
    } else if kind == "bin"@ && name == package {
        "src/main.rs"@
    } else {
        file
    }
}

fn find_usual(
    vfs: &Vfs,
    dir: &str,
    package: &str,
    folder: &str,
    kind: &str,
    name: &str,
) -> (path: String)
    ensures
        path@ == usual_path(vfs.deep_view(), dir@, package@, folder@, kind@, name@),
{
    let file = text::cat4(folder, "/", name, ".rs");
    let main = text::cat4(folder, "/", name, "/main.rs");
    if vfs.contains(join(dir, file.as_str()).as_str()) {
        file
    } else if vfs.contains(join(dir, main.as_str()).as_str()) {
        main
    } else if text::same(kind, "bin") && text::same(name, package) {
        "src/main.rs".to_owned()
    } else {
        file
    }
}

/// The targets with the first `n` declared ones.
pub open spec fn with_declared(
    vfs: VfsV,
    out: Seq<TargetV>,
    dir: Text,
    package: Text,
    folder: Text,
    kind: Text,
    entries: Seq<TomlV>,
    n: nat,
) -> Seq<TargetV>
    decreases n,
{
    if n == 0 {
        out
    } else {
        let entry = entries[n - 1];
        let name = entry_name(entry, package);
        added(
            vfs,
            with_declared(vfs, out, dir, package, folder, kind, entries, (n - 1) as nat),
            name,
            kind,
            entry_path(entry, dir, usual_path(vfs, dir, package, folder, kind, name)),
        )
    }
}

fn add_declared(
    vfs: &Vfs,
    out: &mut Vec<Target>,
    dir: &str,
    package: &str,
    folder: &str,
    kind: &str,
    entries: Option<&Toml>,
)
    ensures
        final(out).deep_view() == with_declared(
            vfs.deep_view(),
            old(out).deep_view(),
            dir@,
            package@,
            folder@,
            kind@,
            settings::items(entries.deep_view()),
            settings::items(entries.deep_view()).len(),
        ),
{
    let list = match entries {
        Some(value) => match value.as_list() {
            Some(list) => list,
            None => return,
        },
        None => return,
    };
    let ghost start = out.deep_view();
    let mut i: usize = 0;
    while i < list.len()
        invariant
            i <= list.len(),
            out.deep_view() == with_declared(
                vfs.deep_view(),
                start,
                dir@,
                package@,
                folder@,
                kind@,
                list.deep_view(),
                i as nat,
            ),
        decreases list.len() - i,
    {
        let name = name_of_entry(&list[i], package);
        let usual = find_usual(vfs, dir, package, folder, kind, name.as_str());
        let path = path_of_entry(&list[i], dir, usual.as_str());
        add_target(vfs, out, name.as_str(), kind, path);
        i += 1;
    }
}

/// The targets with the first `n` discovered ones.
pub open spec fn with_found(
    vfs: VfsV,
    out: Seq<TargetV>,
    kind: Text,
    paths: Seq<Text>,
    n: nat,
) -> Seq<TargetV>
    decreases n,
{
    if n == 0 {
        out
    } else {
        added(
            vfs,
            with_found(vfs, out, kind, paths, (n - 1) as nat),
            stem_of(paths[n - 1]),
            kind,
            paths[n - 1],
        )
    }
}

fn add_found(vfs: &Vfs, out: &mut Vec<Target>, kind: &str, paths: &Vec<String>)
    ensures
        final(out).deep_view() == with_found(
            vfs.deep_view(),
            old(out).deep_view(),
            kind@,
            paths.deep_view(),
            paths@.len(),
        ),
{
    let ghost start = out.deep_view();
    let mut i: usize = 0;
    while i < paths.len()
        invariant
            i <= paths.len(),
            out.deep_view() == with_found(
                vfs.deep_view(),
                start,
                kind@,
                paths.deep_view(),
                i as nat,
            ),
        decreases paths.len() - i,
    {
        let name = stem(paths[i].as_str());
        add_target(vfs, out, name.as_str(), kind, paths[i].clone());
        i += 1;
    }
}

/// `autotests = false` and friends turn discovery off for one kind of target.
pub open spec fn discovers(manifest: TomlV, flag: Text) -> bool {
    settings::truth(settings::under(settings::under(Some(manifest), "package"@), flag))
        != Some(false)
}

fn auto_enabled(manifest: &Toml, flag: &str) -> (r: bool)
    ensures
        r == discovers(manifest.deep_view(), flag@),
{
    match settings::bool_in(settings::get_in(manifest.get("package"), flag)) {
        Some(b) => b,
        None => true,
    }
}

/// The targets with those of one folder: the declared ones, then whatever else
/// the folder holds. Declaring a target does not switch discovery off.
pub open spec fn with_folder(
    vfs: VfsV,
    out: Seq<TargetV>,
    dir: Text,
    manifest: TomlV,
    package: Text,
    folder: Text,
    kind: Text,
    flag: Text,
) -> Seq<TargetV> {
    let entries = settings::items(settings::under(Some(manifest), kind));
    let declared = with_declared(
        vfs,
        out,
        dir,
        package,
        folder,
        kind,
        entries,
        entries.len(),
    );
    if discovers(manifest, flag) {
        let paths = auto_of(vfs, joined(dir, folder));
        with_found(vfs, declared, kind, paths, paths.len())
    } else {
        declared
    }
}

fn add_folder(
    vfs: &Vfs,
    out: &mut Vec<Target>,
    dir: &str,
    manifest: &Toml,
    package: &str,
    folder: &str,
    kind: &str,
    flag: &str,
)
    ensures
        final(out).deep_view() == with_folder(
            vfs.deep_view(),
            old(out).deep_view(),
            dir@,
            manifest.deep_view(),
            package@,
            folder@,
            kind@,
            flag@,
        ),
{
    add_declared(vfs, out, dir, package, folder, kind, manifest.get(kind));
    if auto_enabled(manifest, flag) {
        let paths = auto(vfs, join(dir, folder).as_str());
        add_found(vfs, out, kind, &paths);
    }
}

/// The library target, which has a name and a file of its own where the
/// manifest gives it one.
pub open spec fn with_lib(vfs: VfsV, dir: Text, manifest: TomlV, package: Text) -> Seq<TargetV> {
    match settings::under(Some(manifest), "lib"@) {
        Some(lib) => added(
            vfs,
            seq![],
            entry_name(lib, package),
            "lib"@,
            entry_path(lib, dir, "src/lib.rs"@),
        ),
        None => added(vfs, seq![], package, "lib"@, joined(dir, "src/lib.rs"@)),
    }
}

/// The targets with the binaries.
pub open spec fn with_bins(
    vfs: VfsV,
    out: Seq<TargetV>,
    dir: Text,
    manifest: TomlV,
    package: Text,
) -> Seq<TargetV> {
    let entries = settings::items(settings::under(Some(manifest), "bin"@));
    let declared = with_declared(
        vfs,
        out,
        dir,
        package,
        "src/bin"@,
        "bin"@,
        entries,
        entries.len(),
    );
    if discovers(manifest, "autobins"@) {
        let main = added(vfs, declared, package, "bin"@, joined(dir, "src/main.rs"@));
        let paths = auto_of(vfs, joined(dir, "src/bin"@));
        with_found(vfs, main, "bin"@, paths, paths.len())
    } else {
        declared
    }
}

/// The file that builds the package before anything else does.
pub open spec fn build_path(dir: Text, manifest: TomlV) -> Text {
    match settings::string(settings::under(settings::under(Some(manifest), "package"@), "build"@)) {
        Some(path) => joined(dir, path),
        None => joined(dir, "build.rs"@),
    }
}

/// Every target of a package, in the order they are declared and discovered.
pub open spec fn targets_of(vfs: VfsV, dir: Text, manifest: TomlV, package: Text) -> Seq<TargetV> {
    let lib = with_lib(vfs, dir, manifest, package);
    let bins = with_bins(vfs, lib, dir, manifest, package);
    let tests = with_folder(
        vfs,
        bins,
        dir,
        manifest,
        package,
        "tests"@,
        "test"@,
        "autotests"@,
    );
    let benches = with_folder(
        vfs,
        tests,
        dir,
        manifest,
        package,
        "benches"@,
        "bench"@,
        "autobenches"@,
    );
    let examples = with_folder(
        vfs,
        benches,
        dir,
        manifest,
        package,
        "examples"@,
        "example"@,
        "autoexamples"@,
    );
    added(
        vfs,
        examples,
        "build-script-build"@,
        "custom-build"@,
        build_path(dir, manifest),
    )
}

/// Cargo's target conventions, and whatever the manifest states explicitly.
pub fn targets(vfs: &Vfs, dir: &str, manifest: &Toml, package: &str) -> (out: Vec<Target>)
    ensures
        out.deep_view() == targets_of(vfs.deep_view(), dir@, manifest.deep_view(), package@),
{
    let mut out: Vec<Target> = Vec::new();
    assert(out.deep_view() =~= seq![]);
    match manifest.get("lib") {
        Some(lib) => {
            let name = name_of_entry(lib, package);
            let path = path_of_entry(lib, dir, "src/lib.rs");
            add_target(vfs, &mut out, name.as_str(), "lib", path);
        },
        None => add_target(vfs, &mut out, package, "lib", join(dir, "src/lib.rs")),
    }
    add_declared(vfs, &mut out, dir, package, "src/bin", "bin", manifest.get("bin"));
    if auto_enabled(manifest, "autobins") {
        add_target(vfs, &mut out, package, "bin", join(dir, "src/main.rs"));
        let paths = auto(vfs, join(dir, "src/bin").as_str());
        add_found(vfs, &mut out, "bin", &paths);
    }
    add_folder(vfs, &mut out, dir, manifest, package, "tests", "test", "autotests");
    add_folder(vfs, &mut out, dir, manifest, package, "benches", "bench", "autobenches");
    add_folder(vfs, &mut out, dir, manifest, package, "examples", "example", "autoexamples");
    let build = match settings::str_in(settings::get_in(manifest.get("package"), "build")) {
        Some(path) => join(dir, path.as_str()),
        None => join(dir, "build.rs"),
    };
    add_target(vfs, &mut out, "build-script-build", "custom-build", build);
    out
}

// --- packages ----------------------------------------------------------------

/// The dependencies with the first `n` names of one table.
pub open spec fn with_dependencies(
    out: Seq<DependencyV>,
    rows: Seq<(Text, TomlV)>,
    kind: Text,
    n: nat,
) -> Seq<DependencyV>
    decreases n,
{
    if n == 0 {
        out
    } else {
        with_dependencies(out, rows, kind, (n - 1) as nat).push(
            DependencyV { name: rows[n - 1].0, kind },
        )
    }
}

/// What a manifest depends on: to run, to be tested and to be built.
pub open spec fn dependencies_of(manifest: TomlV) -> Seq<DependencyV> {
    let normal = settings::rows(settings::under(Some(manifest), "dependencies"@));
    let dev = settings::rows(settings::under(Some(manifest), "dev-dependencies"@));
    let build = settings::rows(settings::under(Some(manifest), "build-dependencies"@));
    let out = with_dependencies(seq![], normal, "normal"@, normal.len());
    let out = with_dependencies(out, dev, "dev"@, dev.len());
    with_dependencies(out, build, "build"@, build.len())
}

fn add_dependencies(out: &mut Vec<Dependency>, value: Option<&Toml>, kind: &str)
    ensures
        final(out).deep_view() == with_dependencies(
            old(out).deep_view(),
            settings::rows(value.deep_view()),
            kind@,
            settings::rows(value.deep_view()).len(),
        ),
{
    if let Some(v) = value {
        if let Some(rows) = v.as_table() {
            let ghost start = out.deep_view();
            let mut i: usize = 0;
            while i < rows.len()
                invariant
                    i <= rows.len(),
                    out.deep_view() == with_dependencies(start, rows.deep_view(), kind@, i as nat),
                decreases rows.len() - i,
            {
                assert(rows.deep_view()[i as int].0 == rows@[i as int].0@);
                text::push(out, Dependency { name: rows[i].0.clone(), kind: kind.to_owned() });
                i += 1;
            }
        }
    }
}

fn dependencies(manifest: &Toml) -> (out: Vec<Dependency>)
    ensures
        out.deep_view() == dependencies_of(manifest.deep_view()),
{
    let mut out: Vec<Dependency> = Vec::new();
    assert(out.deep_view() =~= seq![]);
    add_dependencies(&mut out, manifest.get("dependencies"), "normal");
    add_dependencies(&mut out, manifest.get("dev-dependencies"), "dev");
    add_dependencies(&mut out, manifest.get("build-dependencies"), "build");
    out
}

/// The versions that the first `n` packages of a lockfile are pinned to.
pub open spec fn pinned(items: Seq<TomlV>, n: nat) -> Seq<(Text, Text)>
    decreases n,
{
    if n == 0 {
        seq![]
    } else {
        let before = pinned(items, (n - 1) as nat);
        let name = settings::string(settings::under(Some(items[n - 1]), "name"@));
        let version = settings::string(settings::under(Some(items[n - 1]), "version"@));
        match (name, version) {
            (Some(name), Some(version)) => table::put(before, name, version),
            _ => before,
        }
    }
}

/// Every crate in the resolved tree with its exact version. A lockfile that is
/// not there, or cannot be read, pins nothing.
pub open spec fn lock_of(vfs: VfsV, base: Text) -> Seq<(Text, Text)> {
    let lock = match vfs.read(joined(base, "Cargo.lock"@)) {
        Some(source) => settings::document(source),
        None => None,
    };
    let items = settings::items(settings::under(lock, "package"@));
    pinned(items, items.len())
}

fn lockfile(vfs: &Vfs, base: &str) -> (out: Table<String>)
    ensures
        out.deep_view() == lock_of(vfs.deep_view(), base@),
{
    let mut out: Table<String> = Table::new();
    let source = match vfs.read(join(base, "Cargo.lock").as_str()) {
        Some(source) => source,
        None => return out,
    };
    let lock = match Toml::read(source.as_str()) {
        Some(lock) => lock,
        None => return out,
    };
    if let Some(value) = lock.get("package") {
        if let Some(list) = value.as_list() {
            let mut i: usize = 0;
            while i < list.len()
                invariant
                    i <= list.len(),
                    out.deep_view() == pinned(list.deep_view(), i as nat),
                decreases list.len() - i,
            {
                let name = settings::str_in(list[i].get("name"));
                let version = settings::str_in(list[i].get("version"));
                if let (Some(name), Some(version)) = (name, version) {
                    let _ = out.insert(name, version);
                }
                i += 1;
            }
        }
    }
    out
}

/// A field of a package. `version.workspace = true` means to look it up in
/// `[workspace.package]`.
pub open spec fn field_of(package: TomlV, key: Text, inherited: Option<TomlV>) -> Option<Text> {
    match settings::under(Some(package), key) {
        Some(TomlV::Str(s)) => Some(s),
        Some(value) => if settings::truth(settings::under(Some(value), "workspace"@)) == Some(
            true,
        ) {
            settings::string(settings::under(inherited, key))
        } else {
            None
        },
        None => None,
    }
}

fn field(package: &Toml, key: &str, inherited: Option<&Toml>) -> (s: Option<String>)
    ensures
        s.deep_view() == field_of(package.deep_view(), key@, inherited.deep_view()),
{
    match package.get(key) {
        Some(Toml::Str(s)) => Some(s.clone()),
        Some(value) => match settings::bool_in(value.get("workspace")) {
            Some(true) => settings::str_in(settings::get_in(inherited, key)),
            _ => None,
        },
        None => None,
    }
}

// --- members -----------------------------------------------------------------

/// A list with one more entry, unless it has it.
pub open spec fn joining(list: Seq<Text>, s: Text) -> Seq<Text> {
    if list.contains(s) {
        list
    } else {
        list.push(s)
    }
}

/// Whether a name fits a pattern: `*` stands for any characters, `?` for one, and
/// every other character for itself.
pub open spec fn fits(name: Text, pattern: Text) -> bool
    decreases name.len() + pattern.len(),
{
    if pattern.len() == 0 {
        name.len() == 0
    } else if pattern[0] == '*' {
        fits(name, pattern.skip(1)) || name.len() > 0 && fits(name.skip(1), pattern)
    } else {
        name.len() > 0 && (pattern[0] == '?' || pattern[0] == name[0]) && fits(
            name.skip(1),
            pattern.skip(1),
        )
    }
}

fn is_fit(name: &Vec<char>, i: usize, pattern: &Vec<char>, j: usize) -> (r: bool)
    requires
        i <= name.len(),
        j <= pattern.len(),
    ensures
        r == fits(name@.skip(i as int), pattern@.skip(j as int)),
    decreases (name.len() - i) + (pattern.len() - j),
{
    let ghost rest = name@.skip(i as int);
    let ghost wanted = pattern@.skip(j as int);
    if j == pattern.len() {
        return i == name.len();
    }
    assert(wanted.skip(1) =~= pattern@.skip(j + 1));
    if i < name.len() {
        assert(rest.skip(1) =~= name@.skip(i + 1));
    }
    if pattern[j] == '*' {
        is_fit(name, i, pattern, j + 1) || i < name.len() && is_fit(name, i + 1, pattern, j)
    } else {
        i < name.len() && (pattern[j] == '?' || pattern[j] == name[i]) && is_fit(
            name,
            i + 1,
            pattern,
            j + 1,
        )
    }
}

/// Whether segments fit a pattern, one by one. `**` stands for any number of
/// them.
pub open spec fn all_fit(segments: Seq<Text>, pattern: Seq<Text>) -> bool
    decreases segments.len() + pattern.len(),
{
    if pattern.len() == 0 {
        segments.len() == 0
    } else if pattern[0] == "**"@ {
        all_fit(segments, pattern.skip(1)) || segments.len() > 0 && all_fit(
            segments.skip(1),
            pattern,
        )
    } else {
        segments.len() > 0 && fits(segments[0], pattern[0]) && all_fit(
            segments.skip(1),
            pattern.skip(1),
        )
    }
}

fn do_all_fit(segments: &Vec<String>, i: usize, pattern: &Vec<String>, j: usize) -> (r: bool)
    requires
        i <= segments.len(),
        j <= pattern.len(),
    ensures
        r == all_fit(segments.deep_view().skip(i as int), pattern.deep_view().skip(j as int)),
    decreases (segments.len() - i) + (pattern.len() - j),
{
    let ghost rest = segments.deep_view().skip(i as int);
    let ghost wanted = pattern.deep_view().skip(j as int);
    if j == pattern.len() {
        return i == segments.len();
    }
    assert(wanted[0] == pattern@[j as int]@);
    assert(wanted.skip(1) =~= pattern.deep_view().skip(j + 1));
    if i < segments.len() {
        assert(rest[0] == segments@[i as int]@);
        assert(rest.skip(1) =~= segments.deep_view().skip(i + 1));
    }
    if text::same(pattern[j].as_str(), "**") {
        do_all_fit(segments, i, pattern, j + 1) || i < segments.len() && do_all_fit(
            segments,
            i + 1,
            pattern,
            j,
        )
    } else if i < segments.len() {
        let name = text::to_chars(segments[i].as_str());
        let wish = text::to_chars(pattern[j].as_str());
        assert(name@.skip(0) =~= rest[0]);
        assert(wish@.skip(0) =~= wanted[0]);
        is_fit(&name, 0, &wish, 0) && do_all_fit(segments, i + 1, pattern, j + 1)
    } else {
        false
    }
}

/// Whether a directory fits a pattern.
pub open spec fn dir_fits(dir: Text, pattern: Seq<Text>) -> bool {
    all_fit(text::pieces(dir, "/"@), pattern)
}

fn is_dir_fit(dir: &str, pattern: &Vec<String>) -> (r: bool)
    ensures
        r == dir_fits(dir@, pattern.deep_view()),
{
    proof {
        reveal_strlit("/");
    }
    let segments = text::split(dir, "/");
    assert(segments.deep_view().skip(0) =~= segments.deep_view());
    assert(pattern.deep_view().skip(0) =~= pattern.deep_view());
    do_all_fit(&segments, 0, pattern, 0)
}

/// The directory whose manifest a path is.
pub open spec fn manifest_dir(path: Text) -> Option<Text> {
    text::without_suffix(path, "/Cargo.toml"@)
}

/// The directories among the first `n` paths that hold a manifest and fit a
/// pattern.
pub open spec fn fitting(paths: Seq<Text>, pattern: Seq<Text>, n: nat) -> Seq<Text>
    decreases n,
{
    if n == 0 {
        seq![]
    } else {
        let before = fitting(paths, pattern, (n - 1) as nat);
        match manifest_dir(paths[n - 1]) {
            Some(dir) => if dir_fits(dir, pattern) {
                before.push(dir)
            } else {
                before
            },
            None => before,
        }
    }
}

/// The segments of a pattern.
pub open spec fn segments_of(pattern: Text) -> Seq<Text> {
    let segments = text::pieces(pattern, "/"@);
    walked(seq![], segments, segments.len())
}

/// The directories a pattern names: itself, or for `crates/*` those that fit it
/// and hold a manifest.
pub open spec fn expanded(vfs: VfsV, pattern: Text) -> Seq<Text> {
    if text::has_part(pattern, "*"@) || text::has_part(pattern, "?"@) {
        fitting(vfs.paths(), segments_of(pattern), vfs.paths().len())
    } else {
        seq![text::shorn_end(pattern, "/"@)]
    }
}

fn expand(vfs: &Vfs, pattern: &str) -> (found: Vec<String>)
    ensures
        found.deep_view() == expanded(vfs.deep_view(), pattern@),
{
    proof {
        reveal_strlit("/");
    }
    let mut found: Vec<String> = Vec::new();
    assert(found.deep_view() =~= seq![]);
    if !text::contains(pattern, "*") && !text::contains(pattern, "?") {
        text::push(&mut found, text::trim_end_matches(pattern, "/"));
        return found;
    }
    let none: Vec<String> = Vec::new();
    assert(none.deep_view() =~= seq![]);
    let (segments, _) = walk(none, &text::split(pattern, "/"));
    let paths = vfs.paths();
    let mut i: usize = 0;
    while i < paths.len()
        invariant
            i <= paths.len(),
            paths.deep_view() == vfs.deep_view().paths(),
            segments.deep_view() == segments_of(pattern@),
            found.deep_view() == fitting(
                vfs.deep_view().paths(),
                segments_of(pattern@),
                i as nat,
            ),
        decreases paths.len() - i,
    {
        assert(paths.deep_view()[i as int] == paths@[i as int]@);
        if let Some(dir) = text::strip_suffix(paths[i].as_str(), "/Cargo.toml") {
            if is_dir_fit(dir.as_str(), &segments) {
                text::push(&mut found, dir);
            }
        }
        i += 1;
    }
    found
}

proof fn lemma_fitting(paths: Seq<Text>, pattern: Seq<Text>, n: nat, dir: Text)
    requires
        n <= paths.len(),
    ensures
        fitting(paths, pattern, n).contains(dir) <==> dir_fits(dir, pattern) && exists|i: int|
            0 <= i < n && manifest_dir(#[trigger] paths[i]) == Some(dir),
    decreases n,
{
    if n > 0 {
        let before = fitting(paths, pattern, (n - 1) as nat);
        let after = fitting(paths, pattern, n);
        lemma_fitting(paths, pattern, (n - 1) as nat, dir);
        if before.contains(dir) {
            let k = choose|k: int| 0 <= k < before.len() && before[k] == dir;
            assert(after[k] == dir);
        }
        if manifest_dir(paths[n - 1]) == Some(dir) && dir_fits(dir, pattern) {
            assert(after.last() == dir);
        }
        if after.contains(dir) && !before.contains(dir) {
            let k = choose|k: int| 0 <= k < after.len() && after[k] == dir;
            assert(k == before.len());
        }
    }
}

/// A pattern names every directory that fits it and holds a manifest, and no
/// other.
pub proof fn lemma_members_found(vfs: VfsV, pattern: Text, dir: Text)
    requires
        text::has_part(pattern, "*"@) || text::has_part(pattern, "?"@),
    ensures
        expanded(vfs, pattern).contains(dir) <==> dir_fits(dir, segments_of(pattern)) && exists|
            i: int,
        |
            0 <= i < vfs.paths().len() && manifest_dir(#[trigger] vfs.paths()[i]) == Some(dir),
{
    lemma_fitting(vfs.paths(), segments_of(pattern), vfs.paths().len(), dir);
}

proof fn lemma_any(name: Text)
    ensures
        fits(name, "*"@),
    decreases name.len(),
{
    reveal_strlit("*");
    if name.len() > 0 {
        lemma_any(name.skip(1));
    } else {
        assert(fits(name, "*"@.skip(1)));
    }
}

proof fn lemma_star()
    ensures
        segments_of("*"@) == seq!["*"@],
        text::has_part("*"@, "*"@),
{
    reveal_strlit("*");
    reveal_strlit("/");
    reveal_strlit(".");
    reveal_strlit("..");
    let pattern = "*"@;
    text::lemma_find_from(pattern, "/"@, 0);
    assert forall|i: int| !text::occurs_at(pattern, "/"@, i) by {
        if text::occurs_at(pattern, "/"@, i) {
            assert(pattern.subrange(i, i + 1)[0] == pattern[i]);
        }
    }
    let segments = text::pieces(pattern, "/"@);
    assert(segments =~= seq![pattern]);
    assert(pattern[0] != "."@[0]);
    assert(walked(seq![], segments, 0) == Seq::<Text>::empty());
    assert(stepped(seq![], pattern) =~= seq![pattern]);
    assert(pattern.subrange(0, 1) =~= pattern);
    assert(text::occurs_at(pattern, pattern, 0));
}

proof fn lemma_one_piece(dir: Text)
    requires
        !text::has_part(dir, "/"@),
    ensures
        text::pieces(dir, "/"@) == seq![dir],
{
    text::lemma_find_from(dir, "/"@, 0);
}

proof fn lemma_manifest_dir(dir: Text)
    ensures
        manifest_dir(dir + "/Cargo.toml"@) == Some(dir),
{
    let path = dir + "/Cargo.toml"@;
    assert(path.subrange(dir.len() as int, path.len() as int) =~= "/Cargo.toml"@);
    assert(path.take(dir.len() as int) =~= dir);
}

proof fn lemma_one_fits(name: Text)
    ensures
        all_fit(seq![name], seq!["*"@]),
{
    reveal_strlit("*");
    reveal_strlit("**");
    assert("*"@.len() != "**"@.len());
    lemma_any(name);
    let pattern = seq!["*"@];
    assert(pattern.skip(1) =~= Seq::<Text>::empty());
    assert(seq![name].skip(1) =~= Seq::<Text>::empty());
    assert(all_fit(Seq::<Text>::empty(), Seq::<Text>::empty()));
}

/// `*` alone names every directory at the top that holds a manifest.
pub proof fn lemma_star_is_every_member(vfs: VfsV, dir: Text, i: int)
    requires
        0 <= i < vfs.paths().len(),
        vfs.paths()[i] == dir + "/Cargo.toml"@,
        !text::has_part(dir, "/"@),
    ensures
        expanded(vfs, "*"@).contains(dir),
{
    lemma_star();
    lemma_one_piece(dir);
    lemma_manifest_dir(dir);
    lemma_one_fits(dir);
    lemma_members_found(vfs, "*"@, dir);
}

/// Each of several paths that are written in the manifest at `base`.
pub open spec fn all_within(base: Text, paths: Seq<Text>) -> Seq<Text> {
    Seq::new(paths.len(), |i: int| resolved(base, paths[i]))
}

fn place_all(base: &str, paths: &Vec<String>) -> (out: Vec<String>)
    ensures
        out.deep_view() == all_within(base@, paths.deep_view()),
{
    let mut out: Vec<String> = Vec::new();
    let ghost all = all_within(base@, paths.deep_view());
    let mut i: usize = 0;
    while i < paths.len()
        invariant
            i <= paths.len(),
            all == all_within(base@, paths.deep_view()),
            out.deep_view() == all.take(i as int),
        decreases paths.len() - i,
    {
        text::push(&mut out, resolve(base, paths[i].as_str()).0);
        assert(out.deep_view() =~= all.take(i + 1));
        i += 1;
    }
    assert(out.deep_view() =~= all);
    out
}

/// Where a workspace is, what it excludes, and what it lists. What is inside of
/// a listed path is not excluded.
pub struct Border {
    pub root: String,
    pub excluded: Vec<String>,
    pub listed: Vec<String>,
}

pub struct BorderV {
    pub root: Text,
    pub excluded: Seq<Text>,
    pub listed: Seq<Text>,
}

impl DeepView for Border {
    type V = BorderV;

    open spec fn deep_view(&self) -> BorderV {
        BorderV {
            root: self.root@,
            excluded: self.excluded.deep_view(),
            listed: self.listed.deep_view(),
        }
    }
}

/// Whether a directory is another or inside it. Every directory is inside the
/// root.
pub open spec fn inside(outer: Text, dir: Text) -> bool {
    outer.len() == 0 || dir == outer || text::has_prefix(dir, outer + "/"@)
}

fn is_inside(outer: &str, dir: &str) -> (r: bool)
    ensures
        r == inside(outer@, dir@),
{
    text::is_empty(outer) || text::same(dir, outer) || text::starts_with(
        dir,
        text::cat(outer, "/").as_str(),
    )
}

pub open spec fn inside_any(outers: Seq<Text>, dir: Text) -> bool {
    exists|i: int| 0 <= i < outers.len() && inside(#[trigger] outers[i], dir)
}

fn is_inside_any(outers: &Vec<String>, dir: &str) -> (r: bool)
    ensures
        r == inside_any(outers.deep_view(), dir@),
{
    let mut i: usize = 0;
    while i < outers.len()
        invariant
            i <= outers.len(),
            forall|k: int| 0 <= k < i ==> !inside(#[trigger] outers.deep_view()[k], dir@),
        decreases outers.len() - i,
    {
        let outer = &outers[i];
        assert(outers.deep_view()[i as int] == outer@);
        if is_inside(outer.as_str(), dir) {
            assert(inside(outers.deep_view()[i as int], dir@));
            return true;
        }
        i += 1;
    }
    false
}

/// Whether a directory is kept out of a workspace.
pub open spec fn is_excluded(border: BorderV, dir: Text) -> bool {
    inside_any(border.excluded, dir) && !inside_any(border.listed, dir)
}

fn excludes(border: &Border, dir: &str) -> (r: bool)
    ensures
        r == is_excluded(border.deep_view(), dir@),
{
    is_inside_any(&border.excluded, dir) && !is_inside_any(&border.listed, dir)
}

/// The members with the first `n` of some directories.
pub open spec fn with_dirs(out: Seq<Text>, border: BorderV, dirs: Seq<Text>, n: nat) -> Seq<
    Text,
>
    decreases n,
{
    if n == 0 {
        out
    } else {
        let before = with_dirs(out, border, dirs, (n - 1) as nat);
        if is_excluded(border, dirs[n - 1]) {
            before
        } else {
            joining(before, dirs[n - 1])
        }
    }
}

fn add_dirs(out: &mut Vec<String>, border: &Border, dirs: &Vec<String>)
    ensures
        final(out).deep_view() == with_dirs(
            old(out).deep_view(),
            border.deep_view(),
            dirs.deep_view(),
            dirs@.len(),
        ),
{
    let ghost start = out.deep_view();
    let mut i: usize = 0;
    while i < dirs.len()
        invariant
            i <= dirs.len(),
            out.deep_view() == with_dirs(
                start,
                border.deep_view(),
                dirs.deep_view(),
                i as nat,
            ),
        decreases dirs.len() - i,
    {
        assert(dirs.deep_view()[i as int] == dirs@[i as int]@);
        if !excludes(border, dirs[i].as_str()) && !text::lists(&*out, dirs[i].as_str()) {
            text::push(out, dirs[i].clone());
        }
        i += 1;
    }
}

/// The members with what the first `n` patterns name.
pub open spec fn with_patterns(
    vfs: VfsV,
    out: Seq<Text>,
    border: BorderV,
    patterns: Seq<Text>,
    n: nat,
) -> Seq<Text>
    decreases n,
{
    if n == 0 {
        out
    } else {
        let dirs = expanded(vfs, patterns[n - 1]);
        with_dirs(
            with_patterns(vfs, out, border, patterns, (n - 1) as nat),
            border,
            dirs,
            dirs.len(),
        )
    }
}

/// The members with the path dependencies among the first `n` rows of a table,
/// where they are inside of the workspace and hold a manifest.
pub open spec fn with_paths(
    vfs: VfsV,
    out: Seq<Text>,
    border: BorderV,
    dir: Text,
    rows: Seq<(Text, TomlV)>,
    n: nat,
) -> Seq<Text>
    decreases n,
{
    if n == 0 {
        out
    } else {
        let before = with_paths(vfs, out, border, dir, rows, (n - 1) as nat);
        match settings::string(settings::under(Some(rows[n - 1].1), "path"@)) {
            Some(rel) => {
                let target = resolved(dir, rel);
                if !leaves(dir, rel) && inside(border.root, target) && !is_excluded(
                    border,
                    target,
                ) && vfs.read(joined(target, "Cargo.toml"@)) is Some {
                    joining(before, target)
                } else {
                    before
                }
            },
            None => before,
        }
    }
}

fn add_paths(
    vfs: &Vfs,
    out: &mut Vec<String>,
    border: &Border,
    dir: &str,
    value: Option<&Toml>,
)
    ensures
        final(out).deep_view() == with_paths(
            vfs.deep_view(),
            old(out).deep_view(),
            border.deep_view(),
            dir@,
            settings::rows(value.deep_view()),
            settings::rows(value.deep_view()).len(),
        ),
{
    if let Some(v) = value {
        if let Some(rows) = v.as_table() {
            let ghost start = out.deep_view();
            let mut i: usize = 0;
            while i < rows.len()
                invariant
                    i <= rows.len(),
                    out.deep_view() == with_paths(
                        vfs.deep_view(),
                        start,
                        border.deep_view(),
                        dir@,
                        rows.deep_view(),
                        i as nat,
                    ),
                decreases rows.len() - i,
            {
                assert(rows.deep_view()[i as int].1 == rows@[i as int].1.deep_view());
                if let Some(rel) = settings::str_in(rows[i].1.get("path")) {
                    let (target, left) = resolve(dir, rel.as_str());
                    if !left && is_inside(border.root.as_str(), target.as_str()) && !excludes(
                        border,
                        target.as_str(),
                    ) && vfs.contains(
                        join(target.as_str(), "Cargo.toml").as_str(),
                    ) && !text::lists(&*out, target.as_str()) {
                        text::push(out, target);
                    }
                }
                i += 1;
            }
        }
    }
}

/// The manifest in a directory, where there is one that can be read.
pub open spec fn manifest_in(vfs: VfsV, dir: Text) -> Option<TomlV> {
    match vfs.read(joined(dir, "Cargo.toml"@)) {
        Some(source) => settings::document(source),
        None => None,
    }
}

fn manifest_at(vfs: &Vfs, dir: &str) -> (manifest: Option<Toml>)
    ensures
        manifest.deep_view() == manifest_in(vfs.deep_view(), dir@),
{
    match vfs.read(join(dir, "Cargo.toml").as_str()) {
        Some(source) => Toml::read(source.as_str()),
        None => None,
    }
}

/// The members with the path dependencies that one section of a manifest names.
pub open spec fn with_section(
    vfs: VfsV,
    out: Seq<Text>,
    border: BorderV,
    dir: Text,
    section: TomlV,
) -> Seq<Text> {
    let normal = settings::rows(settings::under(Some(section), "dependencies"@));
    let dev = settings::rows(settings::under(Some(section), "dev-dependencies"@));
    let build = settings::rows(settings::under(Some(section), "build-dependencies"@));
    let out = with_paths(vfs, out, border, dir, normal, normal.len());
    let out = with_paths(vfs, out, border, dir, dev, dev.len());
    with_paths(vfs, out, border, dir, build, build.len())
}

fn add_section(vfs: &Vfs, out: &mut Vec<String>, border: &Border, dir: &str, section: &Toml)
    ensures
        final(out).deep_view() == with_section(
            vfs.deep_view(),
            old(out).deep_view(),
            border.deep_view(),
            dir@,
            section.deep_view(),
        ),
{
    add_paths(vfs, out, border, dir, section.get("dependencies"));
    add_paths(vfs, out, border, dir, section.get("dev-dependencies"));
    add_paths(vfs, out, border, dir, section.get("build-dependencies"));
}

/// The members with what the first `n` platforms of a manifest need by path.
pub open spec fn with_platforms(
    vfs: VfsV,
    out: Seq<Text>,
    border: BorderV,
    dir: Text,
    rows: Seq<(Text, TomlV)>,
    n: nat,
) -> Seq<Text>
    decreases n,
{
    if n == 0 {
        out
    } else {
        with_section(
            vfs,
            with_platforms(vfs, out, border, dir, rows, (n - 1) as nat),
            border,
            dir,
            rows[n - 1].1,
        )
    }
}

fn add_platforms(
    vfs: &Vfs,
    out: &mut Vec<String>,
    border: &Border,
    dir: &str,
    value: Option<&Toml>,
)
    ensures
        final(out).deep_view() == with_platforms(
            vfs.deep_view(),
            old(out).deep_view(),
            border.deep_view(),
            dir@,
            settings::rows(value.deep_view()),
            settings::rows(value.deep_view()).len(),
        ),
{
    if let Some(v) = value {
        if let Some(rows) = v.as_table() {
            let ghost start = out.deep_view();
            let mut i: usize = 0;
            while i < rows.len()
                invariant
                    i <= rows.len(),
                    out.deep_view() == with_platforms(
                        vfs.deep_view(),
                        start,
                        border.deep_view(),
                        dir@,
                        rows.deep_view(),
                        i as nat,
                    ),
                decreases rows.len() - i,
            {
                assert(rows.deep_view()[i as int].1 == rows@[i as int].1.deep_view());
                add_section(vfs, out, border, dir, &rows[i].1);
                i += 1;
            }
        }
    }
}

/// The members with the path dependencies of one of them, on any platform.
/// Cargo takes those for members too, listed or not.
pub open spec fn with_needs(vfs: VfsV, out: Seq<Text>, border: BorderV, dir: Text) -> Seq<Text> {
    match manifest_in(vfs, dir) {
        Some(manifest) => {
            let platforms = settings::rows(settings::under(Some(manifest), "target"@));
            let out = with_section(vfs, out, border, dir, manifest);
            with_platforms(vfs, out, border, dir, platforms, platforms.len())
        },
        None => out,
    }
}

/// The members with those that are needed by any from the `i`th on, and by
/// what they need in turn. No list is longer than memory can count.
pub open spec fn reached(vfs: VfsV, dirs: Seq<Text>, border: BorderV, i: nat) -> Seq<Text>
    decreases usize::MAX - i,
{
    if i < dirs.len() && i < usize::MAX {
        reached(vfs, with_needs(vfs, dirs, border, dirs[i as int]), border, i + 1)
    } else {
        dirs
    }
}

fn reach(vfs: &Vfs, dirs: &mut Vec<String>, border: &Border)
    ensures
        final(dirs).deep_view() == reached(
            vfs.deep_view(),
            old(dirs).deep_view(),
            border.deep_view(),
            0,
        ),
{
    let ghost start = dirs.deep_view();
    let mut i: usize = 0;
    let mut end: usize = dirs.len();
    while i < end
        invariant
            i <= end == dirs@.len(),
            reached(vfs.deep_view(), start, border.deep_view(), 0) == reached(
                vfs.deep_view(),
                dirs.deep_view(),
                border.deep_view(),
                i as nat,
            ),
        decreases usize::MAX - i,
    {
        let dir = dirs[i].clone();
        assert(dirs.deep_view()[i as int] == dir@);
        let ghost before = dirs.deep_view();
        if let Some(manifest) = manifest_at(vfs, dir.as_str()) {
            add_section(vfs, dirs, border, dir.as_str(), &manifest);
            add_platforms(vfs, dirs, border, dir.as_str(), manifest.get("target"));
        }
        proof {
            lemma_needs_keep(vfs.deep_view(), before, border.deep_view(), dir@);
        }
        end = dirs.len();
        i += 1;
    }
}

proof fn lemma_paths_keep(
    vfs: VfsV,
    out: Seq<Text>,
    border: BorderV,
    dir: Text,
    rows: Seq<(Text, TomlV)>,
    n: nat,
)
    ensures
        out.is_prefix_of(with_paths(vfs, out, border, dir, rows, n)),
    decreases n,
{
    if n > 0 {
        lemma_paths_keep(vfs, out, border, dir, rows, (n - 1) as nat);
    }
}

proof fn lemma_section_keeps(
    vfs: VfsV,
    out: Seq<Text>,
    border: BorderV,
    dir: Text,
    section: TomlV,
)
    ensures
        out.is_prefix_of(with_section(vfs, out, border, dir, section)),
{
    let normal = settings::rows(settings::under(Some(section), "dependencies"@));
    let dev = settings::rows(settings::under(Some(section), "dev-dependencies"@));
    let build = settings::rows(settings::under(Some(section), "build-dependencies"@));
    lemma_paths_keep(vfs, out, border, dir, normal, normal.len());
    let one = with_paths(vfs, out, border, dir, normal, normal.len());
    lemma_paths_keep(vfs, one, border, dir, dev, dev.len());
    let two = with_paths(vfs, one, border, dir, dev, dev.len());
    lemma_paths_keep(vfs, two, border, dir, build, build.len());
}

proof fn lemma_platforms_keep(
    vfs: VfsV,
    out: Seq<Text>,
    border: BorderV,
    dir: Text,
    rows: Seq<(Text, TomlV)>,
    n: nat,
)
    ensures
        out.is_prefix_of(with_platforms(vfs, out, border, dir, rows, n)),
    decreases n,
{
    if n > 0 {
        lemma_platforms_keep(vfs, out, border, dir, rows, (n - 1) as nat);
        let before = with_platforms(vfs, out, border, dir, rows, (n - 1) as nat);
        lemma_section_keeps(vfs, before, border, dir, rows[n - 1].1);
    }
}

/// No member is lost by following what a member needs.
proof fn lemma_needs_keep(vfs: VfsV, out: Seq<Text>, border: BorderV, dir: Text)
    ensures
        out.is_prefix_of(with_needs(vfs, out, border, dir)),
{
    if let Some(manifest) = manifest_in(vfs, dir) {
        let platforms = settings::rows(settings::under(Some(manifest), "target"@));
        lemma_section_keeps(vfs, out, border, dir, manifest);
        let one = with_section(vfs, out, border, dir, manifest);
        lemma_platforms_keep(vfs, one, border, dir, platforms, platforms.len());
    }
}

/// The directories of the packages of a workspace whose manifest is at `base`:
/// the one that holds it where it is a package itself, those that are listed,
/// those that `[workspace.dependencies]` gives a path for, and whatever any of
/// them depends on by path.
pub open spec fn members_of(vfs: VfsV, base: Text, root: TomlV) -> Seq<Text> {
    let own = if settings::under(Some(root), "package"@) is Some {
        seq![base]
    } else {
        seq![]
    };
    match settings::under(Some(root), "workspace"@) {
        None => own,
        Some(workspace) => {
            let listed = settings::items(settings::under(Some(workspace), "members"@));
            let left_out = settings::items(settings::under(Some(workspace), "exclude"@));
            let patterns = all_within(base, settings::strings(listed, listed.len()));
            let border = BorderV {
                root: base,
                excluded: all_within(base, settings::strings(left_out, left_out.len())),
                listed: patterns,
            };
            let shared = settings::rows(settings::under(Some(workspace), "dependencies"@));
            let out = with_patterns(vfs, own, border, patterns, patterns.len());
            let out = with_paths(vfs, out, border, base, shared, shared.len());
            reached(vfs, out, border, 0)
        },
    }
}

fn members(vfs: &Vfs, base: &str, root: &Toml) -> (dirs: Vec<String>)
    ensures
        dirs.deep_view() == members_of(vfs.deep_view(), base@, root.deep_view()),
{
    let mut dirs: Vec<String> = Vec::new();
    assert(dirs.deep_view() =~= seq![]);
    if root.get("package").is_some() {
        text::push(&mut dirs, base.to_owned());
    }
    let workspace = match root.get("workspace") {
        Some(workspace) => workspace,
        None => return dirs,
    };
    let patterns = place_all(base, &settings::strings_in(workspace.get("members")));
    let border = Border {
        root: base.to_owned(),
        excluded: place_all(base, &settings::strings_in(workspace.get("exclude"))),
        listed: place_all(base, &settings::strings_in(workspace.get("members"))),
    };
    let ghost own = dirs.deep_view();
    let mut i: usize = 0;
    while i < patterns.len()
        invariant
            i <= patterns.len(),
            border.root@ == base@,
            border.listed.deep_view() == patterns.deep_view(),
            dirs.deep_view() == with_patterns(
                vfs.deep_view(),
                own,
                border.deep_view(),
                patterns.deep_view(),
                i as nat,
            ),
        decreases patterns.len() - i,
    {
        assert(patterns.deep_view()[i as int] == patterns@[i as int]@);
        let named = expand(vfs, patterns[i].as_str());
        add_dirs(&mut dirs, &border, &named);
        i += 1;
    }
    add_paths(vfs, &mut dirs, &border, base, workspace.get("dependencies"));
    reach(vfs, &mut dirs, &border);
    dirs
}

// --- the workspace -----------------------------------------------------------

/// The package a directory holds, where its manifest is one of a package that
/// has a name. One that gives no version has the one that cargo gives it.
pub open spec fn package_of(vfs: VfsV, dir: Text, inherited: Option<TomlV>) -> Option<PackageV> {
    match manifest_in(vfs, dir) {
        Some(manifest) => match settings::under(Some(manifest), "package"@) {
            Some(package) => match settings::string(settings::under(Some(package), "name"@)) {
                Some(name) => Some(
                    PackageV {
                        name,
                        version: match field_of(package, "version"@, inherited) {
                            Some(version) => version,
                            None => "0.0.0"@,
                        },
                        manifest_path: joined(dir, "Cargo.toml"@),
                        targets: targets_of(vfs, dir, manifest, name),
                        dependencies: dependencies_of(manifest),
                    },
                ),
                None => None,
            },
            None => None,
        },
        None => None,
    }
}

fn package_at(vfs: &Vfs, dir: &str, inherited: Option<&Toml>) -> (package: Option<Package>)
    ensures
        package.deep_view() == package_of(vfs.deep_view(), dir@, inherited.deep_view()),
{
    let manifest = match manifest_at(vfs, dir) {
        Some(manifest) => manifest,
        None => return None,
    };
    let package = match manifest.get("package") {
        Some(package) => package,
        None => return None,
    };
    let name = match settings::str_in(package.get("name")) {
        Some(name) => name,
        None => return None,
    };
    let version = match field(package, "version", inherited) {
        Some(version) => version,
        None => "0.0.0".to_owned(),
    };
    Some(
        Package {
            version,
            manifest_path: join(dir, "Cargo.toml"),
            targets: targets(vfs, dir, &manifest, name.as_str()),
            dependencies: dependencies(&manifest),
            name,
        },
    )
}

/// The packages in the first `n` directories.
pub open spec fn packages_in(vfs: VfsV, dirs: Seq<Text>, inherited: Option<TomlV>, n: nat) -> Seq<
    PackageV,
>
    decreases n,
{
    if n == 0 {
        seq![]
    } else {
        let before = packages_in(vfs, dirs, inherited, (n - 1) as nat);
        match package_of(vfs, dirs[n - 1], inherited) {
            Some(package) => before.push(package),
            None => before,
        }
    }
}

/// Whether a manifest at a path comes before another: fewer directories down,
/// or as few and a workspace where the other is not.
pub open spec fn comes_before(vfs: VfsV, path: Text, other: Text) -> bool {
    let depth = text::count_of(path, '/');
    let than = text::count_of(other, '/');
    depth < than || (depth == than && names_members(vfs, path) && !names_members(vfs, other))
}

/// Whether the manifest at a path is one of a workspace.
pub open spec fn names_members(vfs: VfsV, path: Text) -> bool {
    match vfs.read(path) {
        Some(source) => settings::under(settings::document(source), "workspace"@) is Some,
        None => false,
    }
}

fn is_workspace(vfs: &Vfs, path: &str) -> (r: bool)
    ensures
        r == names_members(vfs.deep_view(), path@),
{
    match vfs.read(path) {
        Some(source) => match Toml::read(source.as_str()) {
            Some(manifest) => manifest.get("workspace").is_some(),
            None => false,
        },
        None => false,
    }
}

/// The manifest, among the first `n` paths, that no other comes before.
pub open spec fn first_manifest(vfs: VfsV, paths: Seq<Text>, n: nat) -> Option<Text>
    decreases n,
{
    if n == 0 {
        None
    } else {
        let before = first_manifest(vfs, paths, (n - 1) as nat);
        let path = paths[n - 1];
        if !text::has_suffix(path, "/Cargo.toml"@) {
            before
        } else {
            match before {
                None => Some(path),
                Some(best) => if comes_before(vfs, path, best) {
                    Some(path)
                } else {
                    Some(best)
                },
            }
        }
    }
}

/// The directory of the manifest that stands for the whole snapshot: the root,
/// or the shallowest one below it. Between manifests at one depth a workspace
/// goes before a package, and then the first path does.
pub open spec fn base_of(vfs: VfsV) -> Option<Text> {
    if vfs.read("Cargo.toml"@) is Some {
        Some(seq![])
    } else {
        match first_manifest(vfs, vfs.paths(), vfs.paths().len()) {
            Some(path) => text::without_suffix(path, "/Cargo.toml"@),
            None => None,
        }
    }
}

/// No manifest comes before the one that is taken.
pub proof fn lemma_first_manifest(vfs: VfsV, paths: Seq<Text>, n: nat)
    requires
        n <= paths.len(),
    ensures
        match first_manifest(vfs, paths, n) {
            Some(best) => text::has_suffix(best, "/Cargo.toml"@) && forall|i: int|
                0 <= i < n && text::has_suffix(#[trigger] paths[i], "/Cargo.toml"@)
                    ==> !comes_before(vfs, paths[i], best),
            None => forall|i: int|
                0 <= i < n ==> !text::has_suffix(#[trigger] paths[i], "/Cargo.toml"@),
        },
    decreases n,
{
    if n > 0 {
        lemma_first_manifest(vfs, paths, (n - 1) as nat);
    }
}

fn find_base(vfs: &Vfs) -> (base: Option<String>)
    ensures
        base.deep_view() == base_of(vfs.deep_view()),
{
    if vfs.contains("Cargo.toml") {
        return Some(text::empty());
    }
    let paths = vfs.paths();
    let mut best: Option<String> = None;
    let mut i: usize = 0;
    while i < paths.len()
        invariant
            i <= paths.len(),
            best.deep_view() == first_manifest(vfs.deep_view(), paths.deep_view(), i as nat),
        decreases paths.len() - i,
    {
        let path = &paths[i];
        assert(paths.deep_view()[i as int] == path@);
        if text::ends_with(path.as_str(), "/Cargo.toml") {
            let better = match &best {
                None => true,
                Some(other) => {
                    let depth: usize = text::count(path.as_str(), '/');
                    let than: usize = text::count(other.as_str(), '/');
                    depth < than || (depth == than && is_workspace(vfs, path.as_str())
                        && !is_workspace(vfs, other.as_str()))
                },
            };
            if better {
                best = Some(path.clone());
            }
        }
        i += 1;
    }
    match best {
        Some(path) => text::strip_suffix(path.as_str(), "/Cargo.toml"),
        None => None,
    }
}

/// What a snapshot holds, or why it cannot be said.
pub open spec fn metadata_of(vfs: VfsV) -> Result<MetadataV, Text> {
    match base_of(vfs) {
        None => Err("no Cargo.toml at the root of the snapshot"@),
        Some(base) => {
            let path = joined(base, "Cargo.toml"@);
            match vfs.read(path) {
                None => Err("no Cargo.toml at the root of the snapshot"@),
                Some(source) => match settings::toml_read(source) {
                    Err(e) => Err(path + ": "@ + e),
                    Ok(root) => {
                        let inherited = settings::under(
                            settings::under(Some(root), "workspace"@),
                            "package"@,
                        );
                        let dirs = members_of(vfs, base, root);
                        Ok(
                            MetadataV {
                                packages: packages_in(vfs, dirs, inherited, dirs.len()),
                                lock: lock_of(vfs, base),
                            },
                        )
                    },
                },
            }
        },
    }
}

/// Reads the workspace out of a snapshot.
pub fn read(vfs: &Vfs) -> (metadata: Result<Metadata, String>)
    ensures
        match metadata {
            Ok(m) => metadata_of(vfs.deep_view()) == Ok::<MetadataV, Text>(m.deep_view()),
            Err(e) => metadata_of(vfs.deep_view()) == Err::<MetadataV, Text>(e@),
        },
{
    let base = match find_base(vfs) {
        Some(base) => base,
        None => return Err("no Cargo.toml at the root of the snapshot".to_owned()),
    };
    let path = join(base.as_str(), "Cargo.toml");
    let source = match vfs.read(path.as_str()) {
        Some(source) => source,
        None => return Err("no Cargo.toml at the root of the snapshot".to_owned()),
    };
    let root = match Toml::parse(source.as_str()) {
        Ok(root) => root,
        Err(e) => return Err(text::cat3(path.as_str(), ": ", e.as_str())),
    };
    let inherited = settings::get_in(root.get("workspace"), "package");
    let dirs = members(vfs, base.as_str(), &root);
    let mut packages: Vec<Package> = Vec::new();
    assert(packages.deep_view() =~= seq![]);
    let mut i: usize = 0;
    while i < dirs.len()
        invariant
            i <= dirs.len(),
            packages.deep_view() == packages_in(
                vfs.deep_view(),
                dirs.deep_view(),
                inherited.deep_view(),
                i as nat,
            ),
        decreases dirs.len() - i,
    {
        if let Some(package) = package_at(vfs, dirs[i].as_str(), inherited) {
            text::push(&mut packages, package);
        }
        i += 1;
    }
    Ok(Metadata { packages, lock: lockfile(vfs, base.as_str()) })
}

// --- what a manifest says ----------------------------------------------------

proof fn lemma_dependencies(
    out: Seq<DependencyV>,
    rows: Seq<(Text, TomlV)>,
    kind: Text,
    n: nat,
)
    requires
        n <= rows.len(),
    ensures
        with_dependencies(out, rows, kind, n) == out + Seq::new(
            n,
            |i: int| DependencyV { name: rows[i].0, kind },
        ),
    decreases n,
{
    let row = |i: int| DependencyV { name: rows[i].0, kind };
    if n > 0 {
        lemma_dependencies(out, rows, kind, (n - 1) as nat);
        assert((out + Seq::new((n - 1) as nat, row)).push(row(n - 1)) =~= out + Seq::new(n, row));
    } else {
        assert(out + Seq::new(0, row) =~= out);
    }
}

/// A package depends on what its three tables name, each by the kind of its table.
pub proof fn lemma_dependencies_read(
    manifest: TomlV,
    normal: Seq<(Text, TomlV)>,
    dev: Seq<(Text, TomlV)>,
    build: Seq<(Text, TomlV)>,
)
    requires
        settings::rows(settings::under(Some(manifest), "dependencies"@)) == normal,
        settings::rows(settings::under(Some(manifest), "dev-dependencies"@)) == dev,
        settings::rows(settings::under(Some(manifest), "build-dependencies"@)) == build,
    ensures
        dependencies_of(manifest) == Seq::new(
            normal.len(),
            |i: int| DependencyV { name: normal[i].0, kind: "normal"@ },
        ) + Seq::new(dev.len(), |i: int| DependencyV { name: dev[i].0, kind: "dev"@ }) + Seq::new(
            build.len(),
            |i: int| DependencyV { name: build[i].0, kind: "build"@ },
        ),
{
    lemma_dependencies(seq![], normal, "normal"@, normal.len());
    let one = with_dependencies(seq![], normal, "normal"@, normal.len());
    lemma_dependencies(one, dev, "dev"@, dev.len());
    let two = with_dependencies(one, dev, "dev"@, dev.len());
    lemma_dependencies(two, build, "build"@, build.len());
    assert(dependencies_of(manifest) =~= Seq::new(
        normal.len(),
        |i: int| DependencyV { name: normal[i].0, kind: "normal"@ },
    ) + Seq::new(dev.len(), |i: int| DependencyV { name: dev[i].0, kind: "dev"@ }) + Seq::new(
        build.len(),
        |i: int| DependencyV { name: build[i].0, kind: "build"@ },
    ));
}

/// Targets whose files are there, no two of one file.
pub open spec fn targets_sound(vfs: VfsV, targets: Seq<TargetV>) -> bool {
    &&& forall|i: int| 0 <= i < targets.len() ==> vfs.read((#[trigger] targets[i]).src_path) is Some
    &&& forall|i: int, j: int|
        0 <= i < j < targets.len() ==> (#[trigger] targets[i]).src_path != (
        #[trigger] targets[j]).src_path
}

proof fn lemma_added(vfs: VfsV, out: Seq<TargetV>, name: Text, kind: Text, path: Text)
    requires
        targets_sound(vfs, out),
    ensures
        targets_sound(vfs, added(vfs, out, name, kind, path)),
        forall|i: int| 0 <= i < out.len() ==> #[trigger] added(vfs, out, name, kind, path)[i] == out[i],
        added(vfs, out, name, kind, path).len() >= out.len(),
        vfs.read(path) is Some ==> exists|i: int|
            0 <= i < added(vfs, out, name, kind, path).len() && (#[trigger] added(
                vfs,
                out,
                name,
                kind,
                path,
            )[i]).src_path == path,
{
    let after = added(vfs, out, name, kind, path);
    if vfs.read(path) is Some {
        if exists|i: int| 0 <= i < out.len() && (#[trigger] out[i]).src_path == path {
            let i = choose|i: int| 0 <= i < out.len() && (#[trigger] out[i]).src_path == path;
            assert(after[i].src_path == path);
        } else {
            assert(after[out.len() as int].src_path == path);
        }
    }
}

proof fn lemma_declared(
    vfs: VfsV,
    out: Seq<TargetV>,
    dir: Text,
    package: Text,
    folder: Text,
    kind: Text,
    entries: Seq<TomlV>,
    n: nat,
)
    requires
        targets_sound(vfs, out),
    ensures
        targets_sound(vfs, with_declared(vfs, out, dir, package, folder, kind, entries, n)),
        forall|i: int|
            0 <= i < out.len() ==> #[trigger] with_declared(
                vfs,
                out,
                dir,
                package,
                folder,
                kind,
                entries,
                n,
            )[i] == out[i],
        with_declared(vfs, out, dir, package, folder, kind, entries, n).len() >= out.len(),
    decreases n,
{
    if n > 0 {
        lemma_declared(vfs, out, dir, package, folder, kind, entries, (n - 1) as nat);
        let entry = entries[n - 1];
        let name = entry_name(entry, package);
        let before = with_declared(vfs, out, dir, package, folder, kind, entries, (n - 1) as nat);
        let path = entry_path(entry, dir, usual_path(vfs, dir, package, folder, kind, name));
        lemma_added(vfs, before, name, kind, path);
        assert forall|i: int| 0 <= i < out.len() implies #[trigger] with_declared(
            vfs,
            out,
            dir,
            package,
            folder,
            kind,
            entries,
            n,
        )[i] == out[i] by {
            assert(before[i] == out[i]);
        }
    }
}

proof fn lemma_found_added(
    vfs: VfsV,
    out: Seq<TargetV>,
    kind: Text,
    paths: Seq<Text>,
    n: nat,
)
    requires
        targets_sound(vfs, out),
    ensures
        targets_sound(vfs, with_found(vfs, out, kind, paths, n)),
        forall|i: int|
            0 <= i < out.len() ==> #[trigger] with_found(vfs, out, kind, paths, n)[i] == out[i],
        with_found(vfs, out, kind, paths, n).len() >= out.len(),
    decreases n,
{
    if n > 0 {
        lemma_found_added(vfs, out, kind, paths, (n - 1) as nat);
        let before = with_found(vfs, out, kind, paths, (n - 1) as nat);
        lemma_added(vfs, before, stem_of(paths[n - 1]), kind, paths[n - 1]);
        assert forall|i: int| 0 <= i < out.len() implies #[trigger] with_found(
            vfs,
            out,
            kind,
            paths,
            n,
        )[i] == out[i] by {
            assert(before[i] == out[i]);
        }
    }
}

proof fn lemma_folder(
    vfs: VfsV,
    out: Seq<TargetV>,
    dir: Text,
    manifest: TomlV,
    package: Text,
    folder: Text,
    kind: Text,
    flag: Text,
)
    requires
        targets_sound(vfs, out),
    ensures
        ({
            let after = with_folder(vfs, out, dir, manifest, package, folder, kind, flag);
            &&& targets_sound(vfs, after)
            &&& after.len() >= out.len()
            &&& forall|i: int| 0 <= i < out.len() ==> #[trigger] after[i] == out[i]
        }),
{
    let entries = settings::items(settings::under(Some(manifest), kind));
    lemma_declared(vfs, out, dir, package, folder, kind, entries, entries.len());
    let declared = with_declared(vfs, out, dir, package, folder, kind, entries, entries.len());
    let paths = auto_of(vfs, joined(dir, folder));
    lemma_found_added(vfs, declared, kind, paths, paths.len());
    let after = with_folder(vfs, out, dir, manifest, package, folder, kind, flag);
    assert forall|i: int| 0 <= i < out.len() implies #[trigger] after[i] == out[i] by {
        assert(declared[i] == out[i]);
    }
}

/// Every target of a package is a file that is there, and none is a target twice.
/// A library that the manifest does not describe is `src/lib.rs`, where that is
/// there, and it comes first.
pub proof fn lemma_targets(vfs: VfsV, dir: Text, manifest: TomlV, package: Text)
    ensures
        targets_sound(vfs, targets_of(vfs, dir, manifest, package)),
        settings::under(Some(manifest), "lib"@) is None && vfs.read(
            joined(dir, "src/lib.rs"@),
        ) is Some ==> targets_of(vfs, dir, manifest, package).len() > 0 && targets_of(
            vfs,
            dir,
            manifest,
            package,
        )[0] == (TargetV {
            name: package,
            kind: "lib"@,
            src_path: joined(dir, "src/lib.rs"@),
        }),
{
    let none = Seq::<TargetV>::empty();
    let lib = with_lib(vfs, dir, manifest, package);
    match settings::under(Some(manifest), "lib"@) {
        Some(held) => {
            lemma_added(
                vfs,
                none,
                entry_name(held, package),
                "lib"@,
                entry_path(held, dir, "src/lib.rs"@),
            );
        },
        None => {
            lemma_added(vfs, none, package, "lib"@, joined(dir, "src/lib.rs"@));
        },
    }
    let entries = settings::items(settings::under(Some(manifest), "bin"@));
    lemma_declared(vfs, lib, dir, package, "src/bin"@, "bin"@, entries, entries.len());
    let declared = with_declared(
        vfs,
        lib,
        dir,
        package,
        "src/bin"@,
        "bin"@,
        entries,
        entries.len(),
    );
    let main = added(vfs, declared, package, "bin"@, joined(dir, "src/main.rs"@));
    lemma_added(vfs, declared, package, "bin"@, joined(dir, "src/main.rs"@));
    let paths = auto_of(vfs, joined(dir, "src/bin"@));
    lemma_found_added(vfs, main, "bin"@, paths, paths.len());
    let bins = with_bins(vfs, lib, dir, manifest, package);
    lemma_folder(vfs, bins, dir, manifest, package, "tests"@, "test"@, "autotests"@);
    let tests = with_folder(
        vfs,
        bins,
        dir,
        manifest,
        package,
        "tests"@,
        "test"@,
        "autotests"@,
    );
    lemma_folder(vfs, tests, dir, manifest, package, "benches"@, "bench"@, "autobenches"@);
    let benches = with_folder(
        vfs,
        tests,
        dir,
        manifest,
        package,
        "benches"@,
        "bench"@,
        "autobenches"@,
    );
    lemma_folder(vfs, benches, dir, manifest, package, "examples"@, "example"@, "autoexamples"@);
    let examples = with_folder(
        vfs,
        benches,
        dir,
        manifest,
        package,
        "examples"@,
        "example"@,
        "autoexamples"@,
    );
    lemma_added(
        vfs,
        examples,
        "build-script-build"@,
        "custom-build"@,
        build_path(dir, manifest),
    );
    if lib.len() > 0 {
        assert(declared[0] == lib[0]);
        assert(main[0] == declared[0]);
        assert(bins[0] == lib[0]) by {
            if discovers(manifest, "autobins"@) {
                assert(with_found(vfs, main, "bin"@, paths, paths.len())[0] == main[0]);
            }
        }
        assert(tests[0] == bins[0]);
        assert(benches[0] == tests[0]);
        assert(examples[0] == benches[0]);
    }
}

/// A pattern without a wildcard fits its own name alone, a star fits any, and a
/// star in front fits whatever ends as the rest does.
pub proof fn lemma_fits(name: Text, pattern: Text, head: Text)
    requires
        !pattern.contains('*'),
        !pattern.contains('?'),
    ensures
        fits(name, pattern) <==> name == pattern,
        fits(head + pattern, seq!['*'] + pattern),
        fits(name, seq!['*']),
    decreases name.len() + pattern.len() + head.len(),
{
    if pattern.len() > 0 {
        assert(pattern[0] != '*' && pattern[0] != '?');
        let rest = pattern.skip(1);
        assert(!rest.contains('*')) by {
            if rest.contains('*') {
                let i = choose|i: int| 0 <= i < rest.len() && rest[i] == '*';
                assert(pattern[i + 1] == '*');
            }
        }
        assert(!rest.contains('?')) by {
            if rest.contains('?') {
                let i = choose|i: int| 0 <= i < rest.len() && rest[i] == '?';
                assert(pattern[i + 1] == '?');
            }
        }
        if name.len() > 0 {
            lemma_fits(name.skip(1), rest, seq![]);
            if name[0] == pattern[0] && name.skip(1) == rest {
                assert(name =~= seq![name[0]] + name.skip(1));
                assert(pattern =~= seq![pattern[0]] + rest);
            }
        }
    } else {
        assert(name.len() == 0 ==> name =~= pattern);
    }
    lemma_starred(name, seq![]);
    assert(seq!['*'] + Seq::<char>::empty() =~= seq!['*']);
    assert(name + Seq::<char>::empty() =~= name);
    lemma_itself(pattern);
    lemma_starred(head, pattern);
}

proof fn lemma_itself(pattern: Text)
    requires
        !pattern.contains('*'),
    ensures
        fits(pattern, pattern),
    decreases pattern.len(),
{
    if pattern.len() > 0 {
        assert(pattern[0] != '*');
        let rest = pattern.skip(1);
        assert(!rest.contains('*')) by {
            if rest.contains('*') {
                let i = choose|i: int| 0 <= i < rest.len() && rest[i] == '*';
                assert(pattern[i + 1] == '*');
            }
        }
        lemma_itself(rest);
    }
}

proof fn lemma_starred(head: Text, rest: Text)
    requires
        fits(rest, rest),
    ensures
        fits(head + rest, seq!['*'] + rest),
    decreases head.len(),
{
    let pattern = seq!['*'] + rest;
    assert(pattern.skip(1) =~= rest);
    if head.len() == 0 {
        assert(head + rest =~= rest);
    } else {
        lemma_starred(head.skip(1), rest);
        assert((head + rest).skip(1) =~= head.skip(1) + rest);
    }
}

/// What a package says of itself is its own, and what it leaves to the workspace
/// is the workspace's.
pub proof fn lemma_inherited(package: TomlV, key: Text, inherited: Option<TomlV>, s: Text)
    ensures
        settings::under(Some(package), key) == Some(TomlV::Str(s)) ==> field_of(
            package,
            key,
            inherited,
        ) == Some(s),
        settings::under(Some(package), key) is None ==> field_of(package, key, inherited) is None,
        settings::under(Some(package), key) matches Some(value) ==> !(value is Str)
            && settings::truth(settings::under(Some(value), "workspace"@)) == Some(true)
            && settings::under(inherited, key) == Some(TomlV::Str(s)) ==> field_of(
            package,
            key,
            inherited,
        ) == Some(s),
{
}


/// A package is pinned to the version that the last entry of its name gives.
pub proof fn lemma_pinned(items: Seq<TomlV>, n: nat, last: int, name: Text, version: Text)
    requires
        0 <= last < n <= items.len(),
        settings::string(settings::under(Some(items[last]), "name"@)) == Some(name),
        settings::string(settings::under(Some(items[last]), "version"@)) == Some(version),
        forall|j: int|
            last < j < n ==> settings::string(
                settings::under(Some(#[trigger] items[j]), "name"@),
            ) != Some(name),
    ensures
        table::lookup(pinned(items, n), name) == Some(version),
    decreases n,
{
    let before = pinned(items, (n - 1) as nat);
    let other = settings::string(settings::under(Some(items[n - 1]), "name"@));
    let at = settings::string(settings::under(Some(items[n - 1]), "version"@));
    if let (Some(other), Some(at)) = (other, at) {
        table::lemma_put_lookup(before, other, at, name);
    }
    if last < n - 1 {
        lemma_pinned(items, (n - 1) as nat, last, name, version);
    }
}

}
